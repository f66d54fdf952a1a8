//! Bringing a card into service.
//!
//! `InitCard` sends the commands one after the other, learns from the answers what the card is,
//! and ends with the card in the transfer state, the bus width and the clock set.

use vstd::prelude::*;

use crate::card::{
    busy, capacity_of, card_status_state, four_lines, ocr_high_capacity, ocr_is_busy,
    scr_bus_width_four, state_of, Card, CardModel, CurrentState,
};
use crate::clock::clk_div_spec;
use crate::cmd::{long_cmd, rca_arg, rca_argument, short_cmd, Cmd, Response};
use crate::inner::{select_outcome, SdmmcInner, POWER_ON};
use crate::job::{Job, JobState};
use crate::link::{Link, LinkModel};
use crate::registers::{Action, RegWrite, Reply};
use crate::script::{Run, RunState, Step, Wait};
use crate::transfer::{
    scr_plan, sd_status_plan, selected_signalling, selection_of, signalling_of, switch_plan, Plan,
    TransferState,
};
use crate::types::{BusWidth, CardCapacity, Error, Hertz, Signalling};
use crate::words::{
    big_endian, big_endian_pair, from_be_pair, from_words, long_number, status_from_be,
};

verus! {

/// The pattern by which a card shows that it understands CMD8.
pub const CHECK_PATTERN: u32 = 0x1AA;

/// The highest clock that every card takes.
pub const DEFAULT_SPEED: u32 = 25_000_000;

/// The argument of ACMD41: the voltage window, high capacity and 1.8 V signalling.
pub const OPERATING_CONDITIONS: u32 = 0xC110_0000;

/// What the driver is about while it brings a card into service.
#[derive(Clone, Copy, Debug, PartialEq, Eq)]
pub enum Stage {
    /// Power on, CMD0 and CMD8
    Probe,
    /// CMD55
    AppCommand,
    /// ACMD41
    OperatingConditions,
    /// Reading the operation conditions that ACMD41 brought
    PowerUp,
    /// CMD2 and CMD3
    Identify,
    /// CMD9
    Describe,
    /// CMD7
    Select,
    /// Reading the configuration register
    Configure,
    /// ACMD6 and the bus width
    Width,
    /// The clock at default speed
    Clock,
    /// Reading the SD status
    Status,
    /// CMD6
    Switch,
    /// The clock at high speed, and CMD13
    HighSpeed,
    /// Reading the SD status once more
    FinalStatus,
    /// The procedure is over
    Finished(Result<(), Error>),
}

/// The number of lines to use, out of what the host has and what the card can.
pub open spec fn usable_width(bus_width: BusWidth, scr: u64) -> BusWidth {
    if bus_width == BusWidth::Four && four_lines(scr) {
        BusWidth::Four
    } else {
        BusWidth::One
    }
}

/// The argument of ACMD6 for a number of lines.
pub open spec fn width_argument(width: BusWidth) -> u32 {
    if width == BusWidth::Four {
        2
    } else {
        0
    }
}

/// The bus width field for a number of lines.
pub open spec fn width_field(width: BusWidth) -> u8 {
    if width == BusWidth::Four {
        1
    } else {
        0
    }
}

/// The clock to set before the card was asked for high speed.
pub open spec fn first_clock(freq: u32) -> u32 {
    if freq <= DEFAULT_SPEED {
        freq
    } else {
        DEFAULT_SPEED
    }
}

/// The words of a register that a card sent, as numbers.
pub open spec fn as_numbers(words: Seq<u32>) -> Seq<u32> {
    words.map_values(|w: u32| big_endian(w))
}

impl SdmmcInner {
    /// Power on, CMD0, CMD8 and its answer.
    pub open spec fn probe_steps(self) -> Seq<Step> {
        seq![Step::Write(RegWrite::Power(POWER_ON))] + self.cmd_steps(
            Cmd { cmd: 0, arg: 0, resp: Response::Absent },
            false,
        ) + self.cmd_steps(short_cmd(8, CHECK_PATTERN), false) + seq![Step::ReadResponse(0)]
    }

    /// A command with a long response, and the response.
    pub open spec fn long_steps(self, cmd: u8, arg: u32) -> Seq<Step> {
        self.cmd_steps(long_cmd(cmd, arg), false) + seq![
            Step::ReadResponse(0),
            Step::ReadResponse(1),
            Step::ReadResponse(2),
            Step::ReadResponse(3),
        ]
    }

    /// CMD2 and CMD3, and their answers.
    pub open spec fn identify_steps(self) -> Seq<Step> {
        self.long_steps(2, 0) + self.cmd_steps(short_cmd(3, 0), false) + seq![
            Step::ReadResponse(0),
        ]
    }

    /// ACMD6, then the bus width once nothing is in progress.
    pub open spec fn width_steps(self, rca: u32, width: BusWidth) -> Seq<Step> {
        self.cmd_steps(short_cmd(55, rca_argument(rca)), false) + self.cmd_steps(
            short_cmd(6, width_argument(width)),
            false,
        ) + seq![
            Step::AwaitIdle(Wait::Both),
            Step::Write(RegWrite::Widbus(width_field(width))),
        ]
    }
}

/// A card being brought into service.
pub struct InitState {
    /// The peripheral
    pub inner: SdmmcInner,
    /// The clock that is wanted
    pub freq: u32,
    /// The data lines that the host has
    pub bus_width: BusWidth,
    /// The kernel clock
    pub ker_ck: Hertz,
    /// The data timeout, in card bus clock periods
    pub timeout: u32,
    /// What the driver is about
    pub stage: Stage,
    /// The work that the stage waits for
    pub job: JobState,
    /// What is known of the card
    pub card: CardModel,
}

impl InitState {
    /// A card of which nothing is known yet.
    pub open spec fn start(
        inner: SdmmcInner,
        freq: Hertz,
        bus_width: BusWidth,
        ker_ck: Hertz,
        timeout: u32,
    ) -> InitState {
        InitState {
            inner,
            freq: freq.0,
            bus_width,
            ker_ck,
            timeout,
            stage: Stage::Probe,
            job: JobState::Script(RunState::start(inner, inner.probe_steps())),
            card: CardModel::unknown(),
        }
    }

    /// The clocks are not zero, and no more than four lines are asked for.
    pub open spec fn valid(self) -> bool {
        &&& self.freq > 0
        &&& self.ker_ck.0 > 0
        &&& self.bus_width != BusWidth::Eight
    }

    /// What is due.
    pub open spec fn action(self) -> Action {
        match self.stage {
            Stage::Finished(r) => Action::Done(r),
            _ => self.job.action(),
        }
    }

    /// The same card at the start of a stage that carries out a script.
    pub open spec fn running(self, stage: Stage, steps: Seq<Step>) -> InitState {
        InitState { stage, job: JobState::Script(RunState::start(self.inner, steps)), ..self }
    }

    /// The same card at the start of a stage that moves data.
    pub open spec fn moving(self, stage: Stage, plan: Plan) -> InitState {
        InitState { stage, job: JobState::Moving(TransferState::start(self.inner, plan)), ..self }
    }

    /// The procedure broken off.
    pub open spec fn broken_off(self, e: Error) -> InitState {
        InitState { stage: Stage::Finished(Err(e)), ..self }
    }

    /// The stage that asks the card to get ready.
    pub open spec fn asking(self) -> InitState {
        self.running(Stage::AppCommand, self.inner.cmd_steps(short_cmd(55, 0), false))
    }

    /// The stage that reads the SD status.
    pub open spec fn reading_status(self, stage: Stage) -> InitState {
        self.moving(stage, sd_status_plan(self.card.rca, self.timeout))
    }

    /// The stage that sets the clock, and then carries out the rest of a script; broken off where
    /// the clock cannot be had.
    pub open spec fn setting_clock(
        self,
        link: LinkModel,
        freq: u32,
        stage: Stage,
        rest: Seq<Step>,
    ) -> (InitState, LinkModel) {
        match clk_div_spec(self.inner.version, self.ker_ck, freq) {
            Ok((clkdiv, clock)) => (
                self.running(stage, self.inner.clkdiv_steps(clkdiv) + rest),
                LinkModel { clock, ..link },
            ),
            Err(e) => (self.broken_off(e), link),
        }
    }

    /// How the work of a stage went, where some failures are none: ACMD41 has no valid checksum,
    /// and a card without an address cannot answer that it was selected.
    pub open spec fn judged(self, r: Result<(), Error>) -> Result<(), Error> {
        match self.stage {
            Stage::OperatingConditions => if r == Err::<(), Error>(Error::Crc) {
                Ok(())
            } else {
                r
            },
            Stage::Select => select_outcome(rca_argument(self.card.rca), r),
            _ => r,
        }
    }

    /// What follows on a stage whose work went well.
    pub open spec fn passed(self, link: LinkModel) -> (InitState, LinkModel) {
        let inner = self.inner;
        match self.stage {
            Stage::Probe => if self.job.response(0) == CHECK_PATTERN {
                (self.asking(), link)
            } else {
                (self.broken_off(Error::UnsupportedCardVersion), link)
            },
            Stage::AppCommand => (
                self.running(
                    Stage::OperatingConditions,
                    inner.cmd_steps(short_cmd(41, OPERATING_CONDITIONS), false),
                ),
                link,
            ),
            Stage::OperatingConditions => (
                self.running(Stage::PowerUp, seq![Step::ReadResponse(0)]),
                link,
            ),
            Stage::PowerUp => {
                let ocr = self.job.response(0);
                if busy(ocr) {
                    (self.asking(), link)
                } else {
                    let card = CardModel { ocr, card_type: capacity_of(ocr), ..self.card };
                    (
                        InitState { card, ..self }.running(
                            Stage::Identify,
                            inner.identify_steps(),
                        ),
                        link,
                    )
                }
            },
            Stage::Identify => {
                let cid = long_number(
                    self.job.response(0),
                    self.job.response(1),
                    self.job.response(2),
                    self.job.response(3),
                );
                let rca = self.job.response(4) / 0x1_0000;
                let card = CardModel { cid, rca, ..self.card };
                (
                    InitState { card, ..self }.running(
                        Stage::Describe,
                        inner.long_steps(9, rca_argument(rca)),
                    ),
                    link,
                )
            },
            Stage::Describe => {
                let csd = long_number(
                    self.job.response(0),
                    self.job.response(1),
                    self.job.response(2),
                    self.job.response(3),
                );
                let card = CardModel { csd, ..self.card };
                (
                    InitState { card, ..self }.running(
                        Stage::Select,
                        inner.cmd_steps(short_cmd(7, rca_argument(card.rca)), false),
                    ),
                    link,
                )
            },
            Stage::Select => (
                self.moving(Stage::Configure, scr_plan(self.card.rca, self.timeout)),
                link,
            ),
            Stage::Configure => {
                let words = self.job.words();
                let card = CardModel { scr: big_endian_pair(words[0], words[1]), ..self.card };
                (
                    InitState { card, ..self }.running(
                        Stage::Width,
                        inner.width_steps(card.rca, usable_width(self.bus_width, card.scr)),
                    ),
                    link,
                )
            },
            Stage::Width => self.setting_clock(
                link,
                first_clock(self.freq),
                Stage::Clock,
                Seq::empty(),
            ),
            Stage::Clock => (self.reading_status(Stage::Status), link),
            Stage::Status => {
                let card = CardModel { status: as_numbers(self.job.words()), ..self.card };
                let next = InitState { card, ..self };
                if self.freq > DEFAULT_SPEED {
                    (
                        next.moving(Stage::Switch, switch_plan(Signalling::SDR25, self.timeout)),
                        link,
                    )
                } else {
                    (next.reading_status(Stage::FinalStatus), link)
                }
            },
            Stage::Switch => match signalling_of(selection_of(self.job.words())) {
                Err(e) => (self.broken_off(e), link),
                Ok(signalling) => {
                    let link = LinkModel { signalling, ..link };
                    if signalling == Signalling::SDR25 {
                        self.setting_clock(
                            link,
                            self.freq,
                            Stage::HighSpeed,
                            inner.read_status_steps(self.card.rca),
                        )
                    } else {
                        (self.reading_status(Stage::FinalStatus), link)
                    }
                },
            },
            Stage::HighSpeed => if state_of(self.job.response(0)) == CurrentState::Transfer {
                (self.reading_status(Stage::FinalStatus), link)
            } else {
                (self.broken_off(Error::SignalingSwitchFailed), link)
            },
            Stage::FinalStatus => {
                let card = CardModel { status: as_numbers(self.job.words()), ..self.card };
                (
                    InitState { card, stage: Stage::Finished(Ok(())), ..self },
                    LinkModel { card: Some(card), ..link },
                )
            },
            Stage::Finished(_) => (self, link),
        }
    }

    /// What follows on the end of a stage's work.
    pub open spec fn proceeded(self, link: LinkModel, r: Result<(), Error>) -> (
        InitState,
        LinkModel,
    ) {
        match self.judged(r) {
            Ok(_) => self.passed(link),
            Err(e) => (self.broken_off(e), link),
        }
    }

    /// What a reply makes of it, and of what is known of the bus.
    pub open spec fn after(self, link: LinkModel, reply: Reply) -> (InitState, LinkModel) {
        match self.stage {
            Stage::Finished(_) => (self, link),
            _ => {
                let moved = InitState { job: self.job.after(reply), ..self };
                match moved.job.action() {
                    Action::Done(r) => moved.proceeded(link, r),
                    _ => (moved, link),
                }
            },
        }
    }

    /// What has to be done where the procedure is given up.
    pub open spec fn abandon_steps(self) -> Seq<Step> {
        match self.stage {
            Stage::Finished(_) => Seq::empty(),
            _ => self.job.abandon_steps(),
        }
    }
}

/// What is asked for when a card is brought into service: a clock, and the lines and the kernel
/// clock to have it with.
#[derive(Clone, Copy, Debug)]
struct Wish {
    freq: u32,
    bus_width: BusWidth,
    ker_ck: Hertz,
}

impl Wish {
    #[verifier::type_invariant]
    spec fn valid(self) -> bool {
        &&& self.freq > 0
        &&& self.ker_ck.0 > 0
        &&& self.bus_width != BusWidth::Eight
    }
}

/// A card being brought into service.
#[derive(Debug)]
pub struct InitCard {
    inner: SdmmcInner,
    wish: Wish,
    timeout: u32,
    stage: Stage,
    job: Job,
    card: Card,
}

impl View for InitCard {
    type V = InitState;

    closed spec fn view(&self) -> InitState {
        InitState {
            inner: self.inner,
            freq: self.wish.freq,
            bus_width: self.wish.bus_width,
            ker_ck: self.wish.ker_ck,
            timeout: self.timeout,
            stage: self.stage,
            job: self.job@,
            card: self.card@,
        }
    }
}

impl SdmmcInner {
    /// Initializes card (if present) and sets the bus at the
    /// specified frequency.
    pub fn init_card(
        &self,
        freq: Hertz,
        bus_width: BusWidth,
        ker_ck: Hertz,
        data_transfer_timeout: u32,
    ) -> (op: InitCard)
        requires
            freq.0 > 0,
            ker_ck.0 > 0,
            bus_width != BusWidth::Eight,
        ensures
            op@ == InitState::start(*self, freq, bus_width, ker_ck, data_transfer_timeout),
            op@.valid(),
    {
        let mut steps = vec![Step::Write(RegWrite::Power(POWER_ON))];
        let mut idle = self.cmd(Cmd::idle(), false);
        steps.append(&mut idle);
        // Check if cards supports CMD8 (with pattern)
        let mut pattern = self.cmd(Cmd::hs_send_ext_csd(CHECK_PATTERN), false);
        steps.append(&mut pattern);
        steps.push(Step::ReadResponse(0));
        assert(steps@ =~= self.probe_steps());
        InitCard {
            inner: *self,
            wish: Wish { freq: freq.0, bus_width, ker_ck },
            timeout: data_transfer_timeout,
            stage: Stage::Probe,
            job: Job::Script(Run::new(*self, steps)),
            card: Card::default(),
        }
    }
}

impl InitCard {
    /// Tells what is due.
    pub fn action(&self) -> (a: Action)
        ensures
            a == self@.action(),
    {
        match self.stage {
            Stage::Finished(r) => Action::Done(r),
            _ => self.job.action(),
        }
    }

    /// Enters a stage that carries out a script.
    fn run(&mut self, stage: Stage, steps: Vec<Step>)
        ensures
            final(self)@ == old(self)@.running(stage, steps@),
    {
        self.job = Job::Script(Run::new(self.inner, steps));
        self.stage = stage;
    }

    /// Writes the script of a command with a long response.
    fn long(&self, cmd: Cmd) -> (steps: Vec<Step>)
        requires
            cmd.resp == Response::Long,
        ensures
            steps@ == self@.inner.long_steps(cmd.cmd, cmd.arg),
    {
        let mut steps = self.inner.cmd(cmd, false);
        steps.push(Step::ReadResponse(0));
        steps.push(Step::ReadResponse(1));
        steps.push(Step::ReadResponse(2));
        steps.push(Step::ReadResponse(3));
        assert(steps@ =~= self@.inner.long_steps(cmd.cmd, cmd.arg));
        steps
    }

    /// Enters the stage that asks the card to get ready.
    fn ask(&mut self)
        ensures
            final(self)@ == old(self)@.asking(),
    {
        // Signal that next command is a app command
        let steps = self.inner.cmd(Cmd::app_cmd(0), false);  // CMD55
        self.run(Stage::AppCommand, steps);
    }

    /// Enters a stage that reads the SD status.
    fn read_status(&mut self, stage: Stage)
        ensures
            final(self)@ == old(self)@.reading_status(stage),
    {
        self.job = Job::Moving(self.inner.read_sd_status(&self.card, self.timeout));
        self.stage = stage;
    }

    /// Takes the SD status out of what was received.
    fn take_status(&mut self)
        ensures
            final(self)@ == (InitState {
                card: CardModel {
                    status: as_numbers(old(self)@.job.words()),
                    ..old(self)@.card
                },
                ..old(self)@
            }),
    {
        let words = self.job.words();
        let status = status_from_be(words);
        assert(status@ =~= as_numbers(words@));
        self.card.status = status;
    }

    /// Enters a stage that sets the clock and carries out the rest of a script.
    fn set_clock(&mut self, link: &mut Link, freq: u32, stage: Stage, rest: Vec<Step>)
        requires
            freq > 0,
        ensures
            (final(self)@, final(link)@) == old(self)@.setting_clock(
                old(link)@,
                freq,
                stage,
                rest@,
            ),
    {
        let width = if self.wish.bus_width == BusWidth::Four && scr_bus_width_four(self.card.scr) {
            BusWidth::Four
        } else {
            BusWidth::One
        };
        proof {
            use_type_invariant(&self.wish);
        }
        let mut clock = link.clock;
        let mut rest = rest;
        match self.inner.clkcr_set_clkdiv(freq, width, self.wish.ker_ck, &mut clock) {
            Ok(mut steps) => {
                steps.append(&mut rest);
                link.clock = clock;
                self.run(stage, steps);
            },
            Err(e) => {
                self.stage = Stage::Finished(Err(e));
            },
        }
    }

    /// How the work of a stage went, where some failures are none.
    fn judge(&self, r: Result<(), Error>) -> (s: Result<(), Error>)
        ensures
            s == self@.judged(r),
    {
        match self.stage {
            Stage::OperatingConditions => match r {
                Err(Error::Crc) => Ok(()),
                _ => r,
            },
            Stage::Select => self.inner.selected(Some(&self.card), r),
            _ => r,
        }
    }

    /// Goes on from a stage whose work went well.
    fn pass(&mut self, link: &mut Link)
        ensures
            (final(self)@, final(link)@) == old(self)@.passed(old(link)@),
    {
        proof {
            use_type_invariant(&self.wish);
        }
        match self.stage {
            Stage::Probe => {
                if self.job.response(0) == CHECK_PATTERN {
                    // Card echoed back the pattern. Must be at least v2
                    self.ask();
                } else {
                    self.stage = Stage::Finished(Err(Error::UnsupportedCardVersion));
                }
            },
            Stage::AppCommand => {
                // Initialize card
                let steps = self.inner.cmd(Cmd::app_op_cmd(OPERATING_CONDITIONS), false);
                self.run(Stage::OperatingConditions, steps);
            },
            Stage::OperatingConditions => {
                let steps = vec![Step::ReadResponse(0)];
                assert(steps@ =~= seq![Step::ReadResponse(0)]);
                self.run(Stage::PowerUp, steps);
            },
            Stage::PowerUp => {
                let ocr: u32 = self.job.response(0);
                if ocr_is_busy(ocr) {
                    self.ask();
                } else {
                    // Power up done
                    self.card.card_type = if ocr_high_capacity(ocr) {
                        // Card is SDHC or SDXC or SDUC
                        CardCapacity::SDHC
                    } else {
                        CardCapacity::SDSC
                    };
                    self.card.ocr = ocr;
                    let mut steps = self.long(Cmd::all_send_cid());  // CMD2
                    let mut more = self.inner.cmd(Cmd::send_rel_addr(), false);
                    steps.append(&mut more);
                    steps.push(Step::ReadResponse(0));
                    assert(steps@ =~= self.inner.identify_steps());
                    self.run(Stage::Identify, steps);
                }
            },
            Stage::Identify => {
                self.card.cid = from_words(
                    self.job.response(0),
                    self.job.response(1),
                    self.job.response(2),
                    self.job.response(3),
                );
                self.card.rca = self.job.response(4) / 0x1_0000;
                let steps = self.long(Cmd::send_csd(rca_arg(self.card.rca)));
                self.run(Stage::Describe, steps);
            },
            Stage::Describe => {
                self.card.csd = from_words(
                    self.job.response(0),
                    self.job.response(1),
                    self.job.response(2),
                    self.job.response(3),
                );
                let steps = self.inner.select_card(Some(&self.card));
                self.run(Stage::Select, steps);
            },
            Stage::Select => {
                self.job = Job::Moving(self.inner.get_scr(&self.card, self.timeout));
                self.stage = Stage::Configure;
            },
            Stage::Configure => {
                let words = self.job.words();
                self.card.scr = from_be_pair(words[0], words[1]);
                // Set bus width
                let (acmd_arg, widbus): (u32, u8) = if self.wish.bus_width == BusWidth::Four
                    && scr_bus_width_four(self.card.scr) {
                    (2, 1)
                } else {
                    (0, 0)
                };
                let mut steps = self.inner.cmd(Cmd::app_cmd(rca_arg(self.card.rca)), false);
                let mut more = self.inner.cmd(Cmd::cmd6(acmd_arg), false);
                steps.append(&mut more);
                // CPSMACT and DPSMACT must be 0 to set WIDBUS
                steps.push(self.inner.wait_idle());
                steps.push(Step::Write(RegWrite::Widbus(widbus)));
                assert(steps@ =~= self.inner.width_steps(
                    self.card.rca,
                    usable_width(self.wish.bus_width, self.card.scr),
                ));
                self.run(Stage::Width, steps);
            },
            Stage::Width => {
                // Set Clock
                let freq: u32 = if self.wish.freq <= DEFAULT_SPEED {
                    // Final clock frequency
                    self.wish.freq
                } else {
                    // Switch to max clock for SDR12
                    DEFAULT_SPEED
                };
                self.set_clock(link, freq, Stage::Clock, Vec::new());
            },
            Stage::Clock => {
                // Read status
                self.read_status(Stage::Status);
            },
            Stage::Status => {
                self.take_status();
                if self.wish.freq > DEFAULT_SPEED {
                    // Switch to SDR25
                    self.job = Job::Moving(
                        self.inner.switch_signalling_mode(Signalling::SDR25, self.timeout),
                    );
                    self.stage = Stage::Switch;
                } else {
                    self.read_status(Stage::FinalStatus);
                }
            },
            Stage::Switch => {
                let words = self.job.words();
                match selected_signalling(&words) {
                    Err(e) => {
                        self.stage = Stage::Finished(Err(e));
                    },
                    Ok(signalling) => {
                        link.signalling = signalling;
                        if signalling == Signalling::SDR25 {
                            // Set final clock frequency
                            let rest = self.inner.read_status(&self.card);
                            self.set_clock(link, self.wish.freq, Stage::HighSpeed, rest);
                        } else {
                            self.read_status(Stage::FinalStatus);
                        }
                    },
                }
            },
            Stage::HighSpeed => {
                if card_status_state(self.job.response(0)) != CurrentState::Transfer {
                    self.stage = Stage::Finished(Err(Error::SignalingSwitchFailed));
                } else {
                    // Read status after signalling change
                    self.read_status(Stage::FinalStatus);
                }
            },
            Stage::FinalStatus => {
                self.take_status();
                link.card = Some(self.card);
                self.stage = Stage::Finished(Ok(()));
            },
            Stage::Finished(_) => {},
        }
    }

    /// Takes the reply to what was due. `link` is brought up to date with what has become of the
    /// bus, and with the card once it is in service.
    pub fn resume(&mut self, link: &mut Link, reply: Reply)
        ensures
            (final(self)@, final(link)@) == old(self)@.after(old(link)@, reply),
    {
        match self.stage {
            Stage::Finished(_) => {},
            _ => {
                self.job.resume(reply);
                match self.job.action() {
                    Action::Done(r) => match self.judge(r) {
                        Ok(_) => self.pass(link),
                        Err(e) => {
                            self.stage = Stage::Finished(Err(e));
                        },
                    },
                    _ => {},
                }
            },
        }
    }

    /// Writes the script for a procedure that is given up.
    pub fn abandon(&self) -> (steps: Vec<Step>)
        ensures
            steps@ == self@.abandon_steps(),
    {
        match self.stage {
            Stage::Finished(_) => Vec::new(),
            _ => self.job.abandon(),
        }
    }
}

} // verus!
