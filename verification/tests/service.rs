use sdmmc::card::Card;
use sdmmc::device::Sdmmc;
use sdmmc::init::InitCard;
use sdmmc::inner::SdmmcInner;
use sdmmc::registers::{Action, Cmdr, RegWrite, Reply, Star};
use sdmmc::script::{Run, Step};
use sdmmc::types::{BusWidth, CardCapacity, Config, Error, Hertz, Signalling, Version};
use sdmmc::words::DataBlock;

/// What goes wrong with a command.
#[derive(Clone, Copy, PartialEq)]
enum Fault {
    NoAnswer,
    BadAnswer,
    DataTimeout,
    DataCrc,
}

/// A card in a socket, with the peripheral that it hangs on.
struct Bench {
    version: Version,
    // The peripheral
    argument: u32,
    flags: Star,
    lag: bool,
    responses: [u32; 4],
    words: [u32; 16],
    data: Option<Star>,
    power: u8,
    widbus: u8,
    clkdiv: u16,
    dma: bool,
    dten: bool,
    interrupts: bool,
    sleeps: u32,
    command_rests: bool,
    data_rests: bool,
    // The card
    echo: u32,
    busy: u32,
    ocr: u32,
    cid: [u32; 4],
    rca: u32,
    csd: [u32; 4],
    scr: [u32; 2],
    selection: u32,
    r1: u32,
    app: bool,
    // What went over the bus, and what is to go wrong
    commands: Vec<(u8, u32)>,
    faults: Vec<(usize, Fault)>,
    status_faults: u32,
}

fn quiet() -> Star {
    Star {
        ccrcfail: false,
        dcrcfail: false,
        ctimeout: false,
        dtimeout: false,
        cmdrend: false,
        cmdsent: false,
        dataend: false,
        rxact: false,
        txact: false,
        cmdact: false,
        dpsmact: false,
        cpsmact: false,
    }
}

impl Bench {
    fn new(version: Version) -> Bench {
        Bench {
            version,
            argument: 0,
            flags: quiet(),
            lag: false,
            responses: [0; 4],
            words: [0; 16],
            data: None,
            power: 0,
            widbus: 0,
            clkdiv: 0,
            dma: false,
            dten: false,
            interrupts: false,
            sleeps: 0,
            command_rests: false,
            data_rests: false,
            echo: 0x1AA,
            busy: 0,
            ocr: 0xC0FF_8000,
            cid: [0x0353_4453, 0x4C31_3647, 0x8012_3456, 0x7801_2345],
            rca: 0x1234,
            csd: [1074659378, 1532559360, 968064896, 171966712],
            // The bytes 02 35 80 43 00 00 00 00
            scr: [0x4380_3502, 0],
            selection: 1,
            r1: 4 << 9,
            app: false,
            commands: Vec::new(),
            faults: Vec::new(),
            status_faults: 0,
        }
    }

    fn command(&mut self, c: Cmdr) {
        let app = self.app;
        self.app = c.cmdindex == 55;
        let fault = self.faults.iter().find(|f| f.0 == self.commands.len()).map(|f| f.1);
        self.commands.push((c.cmdindex, self.argument));
        self.lag = true;
        self.responses = [self.r1, 0, 0, 0];
        let mut moves = false;
        let mut fault = fault;
        match (c.cmdindex, app) {
            (8, _) => self.responses[0] = self.echo,
            (41, true) => {
                if self.busy > 0 {
                    self.busy -= 1;
                    self.responses[0] = self.ocr & 0x7FFF_FFFF;
                } else {
                    self.responses[0] = self.ocr;
                }
            }
            (2, _) => self.responses = self.cid,
            (3, _) => self.responses[0] = (self.rca << 16) | 0x500,
            (9, _) => self.responses = self.csd,
            (51, true) => {
                moves = true;
                self.words = [0; 16];
                self.words[0] = self.scr[0];
                self.words[1] = self.scr[1];
            }
            (13, true) => {
                moves = true;
                self.words = [0; 16];
                self.words[0] = 0x80;
                self.words[15] = self.commands.len() as u32;
                if self.status_faults > 0 {
                    self.status_faults -= 1;
                    fault = Some(Fault::DataTimeout);
                }
            }
            (6, false) => {
                moves = true;
                self.words = [0; 16];
                self.words[4] = self.selection;
            }
            (17, _) | (24, _) => moves = true,
            _ => {}
        }
        self.flags = quiet();
        match fault {
            Some(Fault::NoAnswer) => self.flags.ctimeout = true,
            Some(Fault::BadAnswer) => self.flags.ccrcfail = true,
            _ => {
                if c.waitresp == 0 {
                    self.flags.cmdsent = true;
                } else {
                    self.flags.cmdrend = true;
                }
            }
        }
        self.data = if moves {
            Some(match fault {
                Some(Fault::DataTimeout) => Star { dtimeout: true, ..quiet() },
                Some(Fault::DataCrc) => Star { dcrcfail: true, ..quiet() },
                _ => Star { dataend: true, ..quiet() },
            })
        } else {
            None
        };
    }

    /// A command needs a command path that was seen at rest; the clock, the width and the data
    /// path need both.
    fn admits(&self, w: RegWrite) -> bool {
        match w {
            RegWrite::Argr(_) | RegWrite::Cmdr(_) => self.command_rests,
            RegWrite::Widbus(_)
            | RegWrite::Clkdiv(_)
            | RegWrite::Dtimer(_)
            | RegWrite::Dlenr(_)
            | RegWrite::StartDmaRead(_, _)
            | RegWrite::StartDmaWrite(_, _)
            | RegWrite::Idmabase0(_)
            | RegWrite::Idmaen(true) => self.command_rests && self.data_rests,
            RegWrite::Dctrl(c) => c.dtdir.is_none() || self.command_rests && self.data_rests,
            _ => true,
        }
    }

    fn see(&mut self, s: Star) -> Reply {
        let inner = SdmmcInner { version: self.version };
        self.command_rests = !inner.cmd_active(s);
        self.data_rests = self.data_rests || !inner.data_active(s);
        Reply::Status(s)
    }

    fn write(&mut self, w: RegWrite) {
        assert!(self.admits(w));
        match w {
            RegWrite::Clkcr(c) => {
                self.widbus = c.widbus;
                self.clkdiv = c.clkdiv;
            }
            RegWrite::Widbus(n) => self.widbus = n,
            RegWrite::Clkdiv(n) => self.clkdiv = n,
            RegWrite::Power(n) => self.power = n,
            RegWrite::Maskr(m) => self.interrupts = m.dataendie,
            RegWrite::Argr(a) => self.argument = a,
            RegWrite::Cmdr(c) => {
                self.command_rests = false;
                self.data_rests = false;
                self.command(c);
            }
            RegWrite::Dctrl(c) => {
                self.data_rests = self.data_rests && c.dtdir.is_none();
                self.dma = c.dmaen.unwrap_or(self.dma);
                self.dten = c.dten.unwrap_or(self.dten);
            }
            RegWrite::Idmaen(b) => self.dma = b,
            _ => {}
        }
    }

    fn deal(&mut self, action: Action) -> Reply {
        match action {
            Action::Write(w) => {
                self.write(w);
                Reply::Ack
            }
            Action::ReadStatus => {
                if self.lag {
                    self.lag = false;
                    match self.version {
                        Version::V1 => self.see(Star { cmdact: true, ..quiet() }),
                        Version::V2 => self.see(Star { cpsmact: true, ..quiet() }),
                    }
                } else {
                    self.see(self.flags)
                }
            }
            Action::PollStatus => {
                if self.sleeps % 2 == 0 {
                    self.see(quiet())
                } else {
                    self.sleeps += 1;
                    self.see(self.data.unwrap())
                }
            }
            Action::Suspend => {
                self.sleeps += 1;
                Reply::Ack
            }
            Action::ReadResponse(n) => Reply::Response(self.responses[n as usize]),
            Action::ReadWords => Reply::Words(self.words),
            Action::Delay(_) => Reply::Ack,
            Action::Done(_) => unreachable!(),
        }
    }

    fn carry_out(&mut self, steps: Vec<Step>) {
        let mut run = Run::new(SdmmcInner { version: self.version }, steps);
        while !matches!(run.action(), Action::Done(_)) {
            let reply = self.deal(run.action());
            run.resume(reply);
        }
    }

    fn device(&mut self, ker_ck: u32) -> Sdmmc {
        let inner = SdmmcInner { version: self.version };
        let (dev, steps) = Sdmmc::new(inner, Config::default(), Hertz(ker_ck));
        self.carry_out(steps);
        dev
    }

    fn init(
        &mut self,
        dev: &mut Sdmmc,
        freq: u32,
        width: BusWidth,
        ker_ck: u32,
    ) -> Result<(), Error> {
        let mut op: InitCard = dev.init_card(Hertz(freq), width, Hertz(ker_ck));
        loop {
            match op.action() {
                Action::Done(r) => return r,
                a => {
                    let reply = self.deal(a);
                    dev.resume_init(&mut op, reply);
                }
            }
        }
    }

    fn read(&mut self, dev: &Sdmmc, block: u32) -> Result<(), Error> {
        let mut op = dev.read_block(block)?;
        loop {
            match op.action() {
                Action::Done(r) => return r,
                a => {
                    let reply = self.deal(a);
                    op.resume(reply);
                }
            }
        }
    }

    fn write_block(&mut self, dev: &mut Sdmmc, block: u32) -> Result<(), Error> {
        let mut op = dev.write_block(block)?;
        loop {
            match op.action() {
                Action::Done(r) => return r,
                a => {
                    let reply = self.deal(a);
                    dev.resume_write(&mut op, reply);
                }
            }
        }
    }

    fn read_row(&mut self, dev: &Sdmmc, start: u32, count: u32) -> (Vec<u32>, Result<(), Error>) {
        let mut seen = Vec::new();
        let mut op = match dev.read(start, count) {
            Ok(op) => op,
            Err(e) => return (seen, Err(e)),
        };
        loop {
            if let Some(n) = op.index() {
                if seen.last() != Some(&n) {
                    seen.push(n);
                }
            }
            match op.action() {
                Action::Done(r) => return (seen, r),
                a => {
                    let reply = self.deal(a);
                    op.resume(reply);
                }
            }
        }
    }

    fn write_row(&mut self, dev: &mut Sdmmc, start: u32, count: u32) -> (Vec<u32>, Result<(), Error>) {
        let mut seen = Vec::new();
        let mut op = match dev.write(start, count) {
            Ok(op) => op,
            Err(e) => return (seen, Err(e)),
        };
        loop {
            if let Some(n) = op.index() {
                if seen.last() != Some(&n) {
                    seen.push(n);
                }
            }
            match op.action() {
                Action::Done(r) => return (seen, r),
                a => {
                    let reply = self.deal(a);
                    dev.resume_write_blocks(&mut op, reply);
                }
            }
        }
    }

    fn at_rest(&self) -> bool {
        !self.dma && !self.dten
    }
}

const RCA: u32 = 0x1234_0000;

/// The commands up to the selection of a card that is ready after so many more times asking.
fn opening(busy: usize) -> Vec<(u8, u32)> {
    let mut v = vec![(0, 0), (8, 0x1AA)];
    for _ in 0..busy + 1 {
        v.push((55, 0));
        v.push((41, 0xC110_0000));
    }
    v.extend([(2, 0), (3, 0), (9, RCA), (7, RCA), (16, 8), (55, RCA), (51, 0)]);
    v
}

fn status() -> Vec<(u8, u32)> {
    vec![(16, 64), (55, RCA), (13, 0)]
}

#[test]
fn a_card_at_default_speed() {
    let mut bench = Bench::new(Version::V1);
    let mut dev = bench.device(48_000_000);
    assert_eq!(dev.clock(), Hertz(400_000));
    assert_eq!(dev.card(), Err(Error::NoCard));
    assert_eq!(bench.power, 0);
    assert_eq!(bench.init(&mut dev, 25_000_000, BusWidth::Four, 48_000_000), Ok(()));
    let mut expected = opening(0);
    expected.extend([(55, RCA), (6, 2)]);
    expected.extend(status());
    expected.extend(status());
    assert_eq!(bench.commands, expected);
    assert_eq!(dev.clock(), Hertz(24_000_000));
    assert_eq!((bench.power, bench.widbus, bench.clkdiv), (3, 1, 0));
    assert!(bench.at_rest());
    let card = dev.card().unwrap();
    assert_eq!(card.card_type, CardCapacity::SDHC);
    assert_eq!(card.ocr, 0xC0FF_8000);
    assert_eq!(card.rca, 0x1234);
    assert_eq!(card.cid, 0x0353_4453_4C31_3647_8012_3456_7801_2345);
    assert_eq!(card.scr, 0x0235_8043_0000_0000);
    assert_eq!(card.status[0], 0x8000_0000);
    // The status is the one that was sent last
    assert_eq!(card.status[15], (expected.len() as u32).swap_bytes());
    assert_eq!(dev.num_blocks(), Ok(15126528));
    assert_eq!(card.size(), 15126528 * 512);
}

#[test]
fn a_card_that_agrees_to_high_speed() {
    let mut bench = Bench::new(Version::V2);
    let mut dev = bench.device(200_000_000);
    assert_eq!(bench.init(&mut dev, 50_000_000, BusWidth::Four, 200_000_000), Ok(()));
    let mut expected = opening(0);
    expected.extend([(55, RCA), (6, 2)]);
    expected.extend(status());
    expected.extend([(6, 0x80FF_FF01), (13, RCA)]);
    expected.extend(status());
    assert_eq!(bench.commands, expected);
    assert_eq!(dev.clock(), Hertz(50_000_000));
    assert_eq!(bench.clkdiv, 2);
    assert!(bench.at_rest());
}

#[test]
fn a_card_that_does_not_agree_to_high_speed() {
    let mut bench = Bench::new(Version::V2);
    bench.selection = 0;
    let mut dev = bench.device(200_000_000);
    assert_eq!(bench.init(&mut dev, 50_000_000, BusWidth::One, 200_000_000), Ok(()));
    let mut expected = opening(0);
    expected.extend([(55, RCA), (6, 0)]);
    expected.extend(status());
    expected.extend([(6, 0x80FF_FF01)]);
    expected.extend(status());
    assert_eq!(bench.commands, expected);
    assert_eq!(dev.clock(), Hertz(25_000_000));
    assert_eq!((bench.clkdiv, bench.widbus), (4, 0));
}

#[test]
fn a_card_with_one_line_is_driven_over_one() {
    let mut bench = Bench::new(Version::V1);
    // The bytes 02 31 80 43
    bench.scr = [0x4380_3102, 0];
    let mut dev = bench.device(48_000_000);
    assert_eq!(bench.init(&mut dev, 10_000_000, BusWidth::Four, 48_000_000), Ok(()));
    assert_eq!(bench.widbus, 0);
    assert!(bench.commands.contains(&(6, 0)));
}

#[test]
fn a_busy_card_is_asked_again() {
    let mut bench = Bench::new(Version::V2);
    bench.busy = 3;
    bench.ocr = 0x80FF_8000;
    let mut dev = bench.device(200_000_000);
    assert_eq!(bench.init(&mut dev, 10_000_000, BusWidth::Four, 200_000_000), Ok(()));
    assert_eq!(&bench.commands[..opening(3).len()], &opening(3)[..]);
    assert_eq!(dev.card().unwrap().card_type, CardCapacity::SDSC);
    assert_eq!(dev.card().unwrap().ocr, 0x80FF_8000);
}

#[test]
fn an_empty_socket() {
    let mut bench = Bench::new(Version::V1);
    bench.faults.push((1, Fault::NoAnswer));
    let mut dev = bench.device(48_000_000);
    assert_eq!(bench.init(&mut dev, 10_000_000, BusWidth::Four, 48_000_000), Err(Error::Timeout));
    assert_eq!(dev.card(), Err(Error::NoCard));
    assert_eq!(bench.commands, vec![(0, 0), (8, 0x1AA)]);
}

#[test]
fn an_old_card() {
    let mut bench = Bench::new(Version::V1);
    bench.echo = 0x1AB;
    let mut dev = bench.device(48_000_000);
    let r = bench.init(&mut dev, 10_000_000, BusWidth::Four, 48_000_000);
    assert_eq!(r, Err(Error::UnsupportedCardVersion));
}

#[test]
fn the_conditions_have_no_checksum() {
    let mut bench = Bench::new(Version::V1);
    bench.faults.push((3, Fault::BadAnswer));
    let mut dev = bench.device(48_000_000);
    assert_eq!(bench.init(&mut dev, 10_000_000, BusWidth::Four, 48_000_000), Ok(()));
    let mut bench = Bench::new(Version::V1);
    bench.faults.push((3, Fault::NoAnswer));
    let mut dev = bench.device(48_000_000);
    assert_eq!(bench.init(&mut dev, 10_000_000, BusWidth::Four, 48_000_000), Err(Error::Timeout));
    let mut bench = Bench::new(Version::V1);
    bench.faults.push((2, Fault::BadAnswer));
    let mut dev = bench.device(48_000_000);
    assert_eq!(bench.init(&mut dev, 10_000_000, BusWidth::Four, 48_000_000), Err(Error::Crc));
}

#[test]
fn a_selection_without_an_address_may_go_unanswered() {
    for (rca, expected) in [(0, Ok(())), (0x1234, Err(Error::Timeout))] {
        let mut bench = Bench::new(Version::V2);
        bench.rca = rca;
        bench.faults.push((7, Fault::NoAnswer));
        let mut dev = bench.device(200_000_000);
        let r = bench.init(&mut dev, 10_000_000, BusWidth::Four, 200_000_000);
        assert_eq!(bench.commands[7].0, 7);
        assert_eq!(r, expected);
    }
}

#[test]
fn a_clock_that_is_too_slow() {
    let mut bench = Bench::new(Version::V2);
    let mut dev = bench.device(200_000_000);
    let r = bench.init(&mut dev, 1000, BusWidth::Four, 200_000_000);
    assert_eq!(r, Err(Error::BadClock));
    // The clock on record is still the one that is set
    assert_eq!(dev.clock(), Hertz(400_000));
    assert_eq!(bench.clkdiv, 250);
}

#[test]
fn a_scheme_that_nobody_knows() {
    let mut bench = Bench::new(Version::V2);
    bench.selection = 9;
    let mut dev = bench.device(200_000_000);
    let r = bench.init(&mut dev, 50_000_000, BusWidth::Four, 200_000_000);
    assert_eq!(r, Err(Error::UnsupportedCardType));
    assert_eq!(dev.clock(), Hertz(25_000_000));
    assert!(bench.at_rest());
}

#[test]
fn a_card_that_is_lost_at_high_speed() {
    let mut bench = Bench::new(Version::V2);
    bench.r1 = 3 << 9;
    let mut dev = bench.device(200_000_000);
    let r = bench.init(&mut dev, 50_000_000, BusWidth::Four, 200_000_000);
    assert_eq!(r, Err(Error::SignalingSwitchFailed));
    assert_eq!(dev.clock(), Hertz(50_000_000));
    assert_eq!(bench.clkdiv, 2);
}

#[test]
fn a_register_that_comes_damaged() {
    for (fault, expected) in [(Fault::DataCrc, Error::Crc), (Fault::DataTimeout, Error::Timeout)] {
        let mut bench = Bench::new(Version::V1);
        bench.faults.push((10, fault));
        let mut dev = bench.device(48_000_000);
        let r = bench.init(&mut dev, 10_000_000, BusWidth::Four, 48_000_000);
        assert_eq!(bench.commands.last(), Some(&(51, 0)));
        assert_eq!(r, Err(expected));
        assert!(bench.at_rest());
        assert!(!bench.interrupts);
    }
}

#[test]
fn a_failed_attempt_keeps_the_card() {
    let mut bench = Bench::new(Version::V2);
    let mut dev = bench.device(200_000_000);
    assert_eq!(bench.init(&mut dev, 10_000_000, BusWidth::Four, 200_000_000), Ok(()));
    let before: Card = *dev.card().unwrap();
    bench.faults.push((bench.commands.len() + 6, Fault::NoAnswer));
    bench.rca = 0x77;
    assert_eq!(bench.init(&mut dev, 10_000_000, BusWidth::Four, 200_000_000), Err(Error::Timeout));
    assert_eq!(dev.card(), Ok(&before));
}

#[test]
fn an_attempt_can_be_given_up_anywhere() {
    // How many dealings it takes in all
    let mut bench = Bench::new(Version::V1);
    let mut dev = bench.device(48_000_000);
    let mut op = dev.init_card(Hertz(50_000_000), BusWidth::Four, Hertz(48_000_000));
    let mut all = 0;
    while !matches!(op.action(), Action::Done(_)) {
        let reply = bench.deal(op.action());
        dev.resume_init(&mut op, reply);
        all += 1;
    }
    assert!(all > 100);
    for stop in 0..all {
        let mut bench = Bench::new(Version::V1);
        let mut dev = bench.device(48_000_000);
        let mut op = dev.init_card(Hertz(50_000_000), BusWidth::Four, Hertz(48_000_000));
        for _ in 0..stop {
            let reply = bench.deal(op.action());
            dev.resume_init(&mut op, reply);
        }
        let asleep = op.action() == Action::Suspend;
        bench.carry_out(op.abandon());
        assert!(bench.at_rest());
        assert!(!asleep || !bench.interrupts);
    }
}

#[test]
fn nothing_is_read_or_written_without_a_card() {
    let mut bench = Bench::new(Version::V1);
    let mut dev = bench.device(48_000_000);
    assert_eq!(bench.read(&dev, 0), Err(Error::NoCard));
    assert_eq!(bench.write_block(&mut dev, 0), Err(Error::NoCard));
    assert_eq!(bench.read_row(&dev, 0, 2), (vec![], Err(Error::NoCard)));
    assert_eq!(bench.write_row(&mut dev, 0, 2), (vec![], Err(Error::NoCard)));
    assert_eq!(dev.num_blocks(), Err(Error::NoCard));
    assert_eq!(bench.commands, vec![]);
}

fn in_service(version: Version, ocr: u32) -> (Bench, Sdmmc) {
    let mut bench = Bench::new(version);
    bench.ocr = ocr;
    let mut dev = bench.device(100_000_000);
    assert_eq!(bench.init(&mut dev, 10_000_000, BusWidth::Four, 100_000_000), Ok(()));
    bench.commands = Vec::new();
    (bench, dev)
}

#[test]
fn a_block_is_read() {
    let (mut bench, dev) = in_service(Version::V1, 0xC0FF_8000);
    assert_eq!(bench.read(&dev, 9), Ok(()));
    assert_eq!(bench.commands, vec![(16, 512), (17, 9)]);
    assert!(bench.at_rest());
    let (mut bench, dev) = in_service(Version::V2, 0x80FF_8000);
    assert_eq!(bench.read(&dev, 9), Ok(()));
    assert_eq!(bench.commands, vec![(16, 512), (17, 9 * 512)]);
    assert!(bench.at_rest());
}

#[test]
fn a_block_that_cannot_be_read() {
    for (fault, at, expected) in [
        (Fault::NoAnswer, 0, Error::Timeout),
        (Fault::BadAnswer, 0, Error::Crc),
        (Fault::NoAnswer, 1, Error::Timeout),
        (Fault::BadAnswer, 1, Error::Crc),
        (Fault::DataTimeout, 1, Error::Timeout),
        (Fault::DataCrc, 1, Error::Crc),
    ] {
        for version in [Version::V1, Version::V2] {
            let (mut bench, dev) = in_service(version, 0xC0FF_8000);
            bench.faults.push((at, fault));
            assert_eq!(bench.read(&dev, 9), Err(expected));
            assert_eq!(bench.commands.len(), at + 1);
            assert!(bench.at_rest());
        }
    }
}

#[test]
fn a_block_is_written() {
    let (mut bench, mut dev) = in_service(Version::V2, 0xC0FF_8000);
    let before = *dev.card().unwrap();
    assert_eq!(bench.write_block(&mut dev, 5), Ok(()));
    let mut expected = vec![(16, 512), (24, 5)];
    expected.extend(status());
    assert_eq!(bench.commands, expected);
    assert!(bench.at_rest());
    let after = *dev.card().unwrap();
    assert_eq!(after.status[15], 5u32.swap_bytes());
    assert_eq!(Card { status: before.status, ..after }, before);
}

#[test]
fn a_card_that_is_not_done_is_asked_again() {
    let (mut bench, mut dev) = in_service(Version::V1, 0xC0FF_8000);
    bench.status_faults = 4;
    assert_eq!(bench.write_block(&mut dev, 5), Ok(()));
    let mut expected = vec![(16, 512), (24, 5)];
    for _ in 0..5 {
        expected.extend(status());
    }
    assert_eq!(bench.commands, expected);
}

#[test]
fn a_write_that_fails() {
    for (at, fault, expected, touched) in [
        (0, Fault::NoAnswer, Error::Timeout, false),
        (1, Fault::DataCrc, Error::Crc, true),
        (1, Fault::DataTimeout, Error::Timeout, true),
        (1, Fault::NoAnswer, Error::Timeout, true),
        (4, Fault::DataCrc, Error::Crc, true),
        (2, Fault::BadAnswer, Error::Crc, false),
    ] {
        let (mut bench, mut dev) = in_service(Version::V2, 0xC0FF_8000);
        bench.faults.push((at, fault));
        assert_eq!(bench.write_block(&mut dev, 5), Err(expected));
        assert_eq!(bench.commands.len(), at + 1);
        assert!(bench.at_rest());
        // A transfer that touched the data path masks its interrupts when it fails; before that
        // they are as the last good transfer left them
        assert_eq!(bench.interrupts, !touched);
    }
}

#[test]
fn a_card_that_is_never_done() {
    let (_, dev) = in_service(Version::V2, 0xC0FF_8000);
    let mut card = *dev.card().unwrap();
    let mut op = SdmmcInner { version: Version::V2 }.write_block(5, &card, 1000);
    let mut polled = false;
    let mut tries: u32 = 0;
    loop {
        match op.action() {
            Action::Done(r) => {
                assert_eq!(r, Err(Error::SoftwareTimeout));
                break;
            }
            Action::PollStatus => {
                polled = true;
                op.resume(&mut card, Reply::Status(Star { dataend: true, ..quiet() }));
            }
            Action::ReadStatus => {
                let s = if polled {
                    Star { ctimeout: true, ..quiet() }
                } else {
                    Star { cmdrend: true, ..quiet() }
                };
                op.resume(&mut card, Reply::Status(s));
            }
            a => {
                if polled && matches!(a, Action::Write(RegWrite::Cmdr(_))) {
                    tries += 1;
                }
                op.resume(&mut card, Reply::Ack);
            }
        }
    }
    assert_eq!(tries, 0x00FF_FFFF);
}

#[test]
fn a_write_can_be_given_up_anywhere() {
    let (mut bench, mut dev) = in_service(Version::V2, 0xC0FF_8000);
    let mut op = dev.write_block(5).unwrap();
    let mut all = 0;
    while !matches!(op.action(), Action::Done(_)) {
        let reply = bench.deal(op.action());
        dev.resume_write(&mut op, reply);
        all += 1;
    }
    for stop in 0..all {
        let (mut bench, mut dev) = in_service(Version::V2, 0xC0FF_8000);
        let mut op = dev.write_block(5).unwrap();
        for _ in 0..stop {
            let reply = bench.deal(op.action());
            dev.resume_write(&mut op, reply);
        }
        let asleep = op.action() == Action::Suspend;
        bench.carry_out(op.abandon());
        assert!(bench.at_rest());
        assert!(!asleep || !bench.interrupts);
    }
}

#[test]
fn blocks_are_read_in_order() {
    let (mut bench, dev) = in_service(Version::V1, 0xC0FF_8000);
    assert_eq!(bench.read_row(&dev, 7, 3), (vec![0, 1, 2], Ok(())));
    assert_eq!(bench.commands, vec![(16, 512), (17, 7), (16, 512), (17, 8), (16, 512), (17, 9)]);
    bench.commands = Vec::new();
    assert_eq!(bench.read_row(&dev, 7, 0), (vec![], Ok(())));
    assert_eq!(bench.commands, vec![]);
    bench.faults.push((3, Fault::DataCrc));
    assert_eq!(bench.read_row(&dev, 7, 3), (vec![0, 1], Err(Error::Crc)));
    assert_eq!(bench.commands, vec![(16, 512), (17, 7), (16, 512), (17, 8)]);
    assert!(bench.at_rest() && !bench.interrupts);
}

#[test]
fn blocks_are_written_in_order() {
    let (mut bench, mut dev) = in_service(Version::V2, 0x80FF_8000);
    assert_eq!(bench.write_row(&mut dev, 2, 2), (vec![0, 1], Ok(())));
    let mut expected = vec![(16, 512), (24, 1024)];
    expected.extend(status());
    expected.extend([(16, 512), (24, 1536)]);
    expected.extend(status());
    assert_eq!(bench.commands, expected);
    assert_eq!(dev.card().unwrap().status[15], 10u32.swap_bytes());
    bench.commands = Vec::new();
    bench.faults.push((1, Fault::NoAnswer));
    assert_eq!(bench.write_row(&mut dev, 2, 2), (vec![0], Err(Error::Timeout)));
    assert!(bench.at_rest() && !bench.interrupts);
    assert_eq!(bench.write_row(&mut dev, 2, 0), (vec![], Ok(())));
}

#[test]
fn a_row_can_be_given_up() {
    let (mut bench, dev) = in_service(Version::V2, 0xC0FF_8000);
    let mut op = dev.read(0, 2).unwrap();
    while op.action() != Action::Suspend {
        let reply = bench.deal(op.action());
        op.resume(reply);
    }
    assert!(bench.dma && bench.interrupts);
    bench.carry_out(op.abandon());
    assert!(bench.at_rest() && !bench.interrupts);
    let (mut bench, mut dev) = in_service(Version::V2, 0xC0FF_8000);
    let mut op = dev.write(0, 2).unwrap();
    while op.action() != Action::Suspend {
        let reply = bench.deal(op.action());
        dev.resume_write_blocks(&mut op, reply);
    }
    bench.carry_out(op.abandon());
    assert!(bench.at_rest() && !bench.interrupts);
}

#[test]
fn the_clock_on_record_is_the_one_that_is_set() {
    let mut bench = Bench::new(Version::V2);
    let mut dev = bench.device(200_000_000);
    let set = |bench: &Bench| match bench.clkdiv {
        0 => Hertz(200_000_000),
        d => Hertz(200_000_000 / (2 * d as u32)),
    };
    assert_eq!(dev.clock(), set(&bench));
    assert_eq!(bench.init(&mut dev, 50_000_000, BusWidth::Four, 200_000_000), Ok(()));
    assert_eq!(dev.clock(), set(&bench));
    assert_eq!(bench.read(&dev, 3), Ok(()));
    assert_eq!(bench.write_block(&mut dev, 3), Ok(()));
    assert_eq!(dev.clock(), set(&bench));
    bench.r1 = 3 << 9;
    let r = bench.init(&mut dev, 40_000_000, BusWidth::Four, 200_000_000);
    assert_eq!(r, Err(Error::SignalingSwitchFailed));
    assert_eq!(dev.clock(), set(&bench));
    assert_eq!(bench.write_row(&mut dev, 3, 2).1, Ok(()));
    assert_eq!(bench.read_row(&dev, 3, 2).1, Ok(()));
    assert_eq!(bench.init(&mut dev, 1000, BusWidth::Four, 200_000_000), Err(Error::BadClock));
    assert_eq!(dev.clock(), set(&bench));
    // Given up while it sleeps
    let mut op = dev.init_card(Hertz(10_000_000), BusWidth::Four, Hertz(200_000_000));
    while op.action() != Action::Suspend {
        let reply = bench.deal(op.action());
        dev.resume_init(&mut op, reply);
    }
    bench.carry_out(op.abandon());
    assert_eq!(dev.clock(), set(&bench));
}

#[test]
fn the_card_on_record_is_the_last_one() {
    let mut bench = Bench::new(Version::V2);
    let mut dev = bench.device(200_000_000);
    assert_eq!(bench.init(&mut dev, 10_000_000, BusWidth::Four, 200_000_000), Ok(()));
    bench.rca = 0x4321;
    bench.ocr = 0x80FF_8000;
    assert_eq!(bench.init(&mut dev, 10_000_000, BusWidth::Four, 200_000_000), Ok(()));
    let served = *dev.card().unwrap();
    assert_eq!((served.rca, served.card_type), (0x4321, CardCapacity::SDSC));
    assert_eq!(bench.write_block(&mut dev, 1), Ok(()));
    let card = *dev.card().unwrap();
    assert_ne!(card.status, served.status);
    assert_eq!(Card { status: served.status, ..card }, served);
}

/// What a card that does as it is told makes of commands.
fn tell(
    kept: &mut Vec<(u32, [u32; 128])>,
    memory: &mut [u32; 128],
    commands: &[(u8, u32)],
) {
    for (index, argument) in commands {
        match index {
            24 => {
                kept.retain(|b| b.0 != *argument);
                kept.push((*argument, *memory));
            }
            17 => *memory = kept.iter().find(|b| b.0 == *argument).unwrap().1,
            _ => {}
        }
    }
}

#[test]
fn what_is_read_is_what_was_written() {
    for ocr in [0xC0FF_8000, 0x80FF_8000] {
        let (mut bench, mut dev) = in_service(Version::V1, ocr);
        bench.status_faults = 2;
        let mut kept = Vec::new();
        for block in [7u32, 8] {
            let mut memory = DataBlock([block as u8; 512]).to_words();
            bench.commands = Vec::new();
            assert_eq!(bench.write_block(&mut dev, block), Ok(()));
            tell(&mut kept, &mut memory, &bench.commands);
        }
        for block in [8u32, 7] {
            let mut memory = [0; 128];
            bench.commands = Vec::new();
            assert_eq!(bench.read(&dev, block), Ok(()));
            tell(&mut kept, &mut memory, &bench.commands);
            assert_eq!(DataBlock::from_words(&memory).0, [block as u8; 512]);
        }
    }
}

#[test]
fn without_a_card_a_write_stands_still() {
    let mut bench = Bench::new(Version::V2);
    let mut dev = bench.device(200_000_000);
    let inner = SdmmcInner { version: Version::V2 };
    let mut op = inner.write_block(1, &Card::default(), 1000);
    let before = op.action();
    dev.resume_write(&mut op, Reply::Ack);
    assert_eq!(op.action(), before);
    assert_eq!(dev.card(), Err(Error::NoCard));
}

#[test]
fn the_interrupt_masks_itself() {
    let (mut bench, dev) = in_service(Version::V1, 0xC0FF_8000);
    let mut op = dev.read_block(1).unwrap();
    while op.action() != Action::Suspend {
        let reply = bench.deal(op.action());
        op.resume(reply);
    }
    assert!(bench.interrupts);
    bench.write(dev.on_interrupt());
    assert!(!bench.interrupts);
}

#[test]
fn a_device_that_is_given_up_lets_go() {
    let (mut bench, dev) = in_service(Version::V1, 0xC0FF_8000);
    let mut op = dev.read_block(1).unwrap();
    while op.action() != Action::Suspend {
        let reply = bench.deal(op.action());
        op.resume(reply);
    }
    bench.carry_out(dev.release());
    assert!(bench.at_rest() && !bench.interrupts);
}

#[test]
fn the_scheme_stays_on_record() {
    let mut socket = Socket::start();
    assert_eq!(socket.after_init(50_000_000), Signalling::SDR25);
    assert_eq!(socket.after_init(10_000_000), Signalling::SDR25);
    assert_eq!(socket.bench.clkdiv, 10);
}

/// A bench with the link kept at hand, to see the scheme on record.
struct Socket {
    bench: Bench,
    link: sdmmc::link::Link,
}

impl Socket {
    fn start() -> Socket {
        Socket {
            bench: Bench::new(Version::V2),
            link: sdmmc::link::Link {
                clock: Hertz(400_000),
                signalling: Signalling::SDR12,
                card: None,
            },
        }
    }

    fn after_init(&mut self, freq: u32) -> Signalling {
        let inner = SdmmcInner { version: Version::V2 };
        let mut op = inner.init_card(Hertz(freq), BusWidth::Four, Hertz(200_000_000), 1000);
        while !matches!(op.action(), Action::Done(_)) {
            let reply = self.bench.deal(op.action());
            op.resume(&mut self.link, reply);
        }
        assert_eq!(op.action(), Action::Done(Ok(())));
        self.link.signalling
    }
}
