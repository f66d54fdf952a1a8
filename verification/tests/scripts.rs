use sdmmc::cmd::{Cmd, Response};
use sdmmc::inner::SdmmcInner;
use sdmmc::registers::{
    Action, Buffer, Burst, Cmdr, DctrlChange, FlowControl, Icr, Maskr, RegWrite, Reply, Star,
    TransferOptions,
};
use sdmmc::script::{command_answer, Run, Step, Wait};
use sdmmc::card::Card;
use sdmmc::inner::poll_data;
use sdmmc::transfer::{address_of, selected_signalling, Transfer};
use sdmmc::types::{CardCapacity, Error, Signalling, Version};

const V1: SdmmcInner = SdmmcInner { version: Version::V1 };
const V2: SdmmcInner = SdmmcInner { version: Version::V2 };

fn quiet() -> Star {
    Star {
        ccrcfail: false,
        dcrcfail: false,
        ctimeout: false,
        dtimeout: false,
        cmdrend: false,
        cmdsent: false,
        dataend: false,
        rxact: false,
        txact: false,
        cmdact: false,
        dpsmact: false,
        cpsmact: false,
    }
}

fn word(waitresp: u8, cmdindex: u8, cmdstop: bool, cmdtrans: bool) -> RegWrite {
    RegWrite::Cmdr(Cmdr { waitint: false, waitresp, cmdindex, cpsmen: true, cmdstop, cmdtrans })
}

/// Replies to all that a transfer wants until it is due to look at the status, with all commands
/// answered.
fn armed(mut t: Transfer) -> Transfer {
    loop {
        match t.action() {
            Action::Write(_) => t.resume(Reply::Ack),
            Action::ReadStatus => t.resume(Reply::Status(Star { cmdrend: true, ..quiet() })),
            Action::PollStatus => return t,
            other => panic!("unexpected {:?}", other),
        }
    }
}

/// Replies to all that a transfer wants until it is over, and tells the changes and delays.
fn to_the_end(t: &mut Transfer, words: [u32; 16]) -> (Vec<RegWrite>, u32, Result<(), Error>) {
    let mut changes = Vec::new();
    let mut delay = 0;
    loop {
        match t.action() {
            Action::Write(w) => {
                changes.push(w);
                t.resume(Reply::Ack);
            }
            Action::ReadStatus => t.resume(Reply::Status(quiet())),
            Action::ReadWords => t.resume(Reply::Words(words)),
            Action::Delay(n) => {
                delay += n;
                t.resume(Reply::Ack);
            }
            Action::Done(r) => return (changes, delay, r),
            other => panic!("unexpected {:?}", other),
        }
    }
}

#[test]
fn a_command_is_written_after_its_argument() {
    let steps = V2.cmd(Cmd::read_single_block(77), true);
    assert_eq!(
        steps,
        vec![
            Step::Write(V2.clear_interrupt_flags()),
            Step::AwaitIdle(Wait::Command),
            Step::Write(RegWrite::Argr(77)),
            Step::Write(word(1, 17, false, true)),
            Step::AwaitAnswer(Response::Short),
        ]
    );
    assert_eq!(V1.cmd(Cmd::read_single_block(77), true)[3], Step::Write(word(1, 17, false, false)));
    assert_eq!(V2.cmd(Cmd::new(12, 0, Response::Short), false)[3], Step::Write(word(1, 12, true, false)));
    assert_eq!(V1.cmd(Cmd::new(12, 0, Response::Short), false)[3], Step::Write(word(1, 12, false, false)));
}

#[test]
fn all_flags_of_a_revision_are_cleared() {
    let first = Icr {
        ccrcfailc: true,
        dcrcfailc: true,
        ctimeoutc: true,
        dtimeoutc: true,
        txunderrc: true,
        rxoverrc: true,
        cmdrendc: true,
        cmdsentc: true,
        dataendc: true,
        dbckendc: true,
        sdioitc: true,
        dholdc: false,
        dabortc: false,
        busyd0endc: false,
        ackfailc: false,
        acktimeoutc: false,
        vswendc: false,
        ckstopc: false,
        idmatec: false,
        idmabtcc: false,
    };
    assert_eq!(V1.clear_interrupt_flags(), RegWrite::Icr(first));
    let second = Icr {
        dholdc: true,
        dabortc: true,
        busyd0endc: true,
        ackfailc: true,
        acktimeoutc: true,
        vswendc: true,
        ckstopc: true,
        idmatec: true,
        idmabtcc: true,
        ..first
    };
    assert_eq!(V2.clear_interrupt_flags(), RegWrite::Icr(second));
}

#[test]
fn interrupts_of_a_transfer() {
    let on = Maskr { dcrcfailie: true, dtimeoutie: true, dataendie: true, dabortie: false };
    assert_eq!(V1.data_interrupts(true), RegWrite::Maskr(on));
    assert_eq!(V2.data_interrupts(true), RegWrite::Maskr(Maskr { dabortie: true, ..on }));
    let off = Maskr { dcrcfailie: false, dtimeoutie: false, dataendie: false, dabortie: false };
    assert_eq!(V1.data_interrupts(false), RegWrite::Maskr(off));
    assert_eq!(V2.data_interrupts(false), RegWrite::Maskr(off));
}

#[test]
fn the_data_path_is_made_ready() {
    let options = TransferOptions { pburst: Burst::Incr4, flow_ctrl: FlowControl::Peripheral };
    let change = DctrlChange { dblocksize: Some(9), dtdir: Some(true), dmaen: Some(true), dten: Some(true) };
    assert_eq!(
        V1.prepare_datapath_read(Buffer::Block, 512, 9, 1000),
        vec![
            Step::AwaitIdle(Wait::Both),
            Step::Write(V1.clear_interrupt_flags()),
            Step::Write(RegWrite::Dtimer(1000)),
            Step::Write(RegWrite::Dlenr(512)),
            Step::Write(RegWrite::StartDmaRead(Buffer::Block, options)),
            Step::Write(RegWrite::Dctrl(change)),
        ]
    );
    let change = DctrlChange { dblocksize: Some(9), dtdir: Some(false), dmaen: None, dten: None };
    let steps = V1.prepare_datapath_write(Buffer::Block, 512, 9, 1000);
    assert_eq!(steps[4], Step::Write(RegWrite::StartDmaWrite(Buffer::Block, options)));
    assert_eq!(steps[5], Step::Write(RegWrite::Dctrl(change)));
    let steps = V2.prepare_datapath_read(Buffer::Scratch, 64, 6, 1000);
    assert_eq!(steps[3], Step::Write(RegWrite::Dlenr(64)));
    assert_eq!(steps[4], Step::Write(RegWrite::Idmabase0(Buffer::Scratch)));
    assert_eq!(steps[5], Step::Write(RegWrite::Idmaen(true)));
    let change = DctrlChange { dblocksize: Some(6), dtdir: Some(true), dmaen: None, dten: None };
    assert_eq!(steps[6], Step::Write(RegWrite::Dctrl(change)));
}

#[test]
fn how_a_command_went() {
    let short = Response::Short;
    assert_eq!(command_answer(short, quiet()), None);
    assert_eq!(command_answer(short, Star { cmdsent: true, ..quiet() }), None);
    assert_eq!(command_answer(short, Star { cmdrend: true, ..quiet() }), Some(Ok(())));
    assert_eq!(command_answer(short, Star { ccrcfail: true, ..quiet() }), Some(Err(Error::Crc)));
    assert_eq!(
        command_answer(short, Star { ctimeout: true, ccrcfail: true, ..quiet() }),
        Some(Err(Error::Timeout))
    );
    let absent = Response::Absent;
    assert_eq!(command_answer(absent, Star { cmdsent: true, ..quiet() }), Some(Ok(())));
    assert_eq!(command_answer(absent, Star { cmdrend: true, ..quiet() }), None);
    assert_eq!(command_answer(absent, Star { ccrcfail: true, ..quiet() }), None);
}

#[test]
fn how_a_transfer_fares() {
    assert_eq!(poll_data(quiet()), None);
    assert_eq!(poll_data(Star { dataend: true, ..quiet() }), Some(Ok(())));
    assert_eq!(poll_data(Star { dataend: true, dtimeout: true, ..quiet() }), Some(Err(Error::Timeout)));
    assert_eq!(
        poll_data(Star { dataend: true, dtimeout: true, dcrcfail: true, ..quiet() }),
        Some(Err(Error::Crc))
    );
}

#[test]
fn each_revision_looks_at_its_own_flags() {
    assert!(V1.data_active(Star { rxact: true, ..quiet() }));
    assert!(V1.data_active(Star { txact: true, ..quiet() }));
    assert!(!V1.data_active(Star { dpsmact: true, ..quiet() }));
    assert!(V2.data_active(Star { dpsmact: true, ..quiet() }));
    assert!(!V2.data_active(Star { rxact: true, txact: true, ..quiet() }));
    assert!(V1.cmd_active(Star { cmdact: true, ..quiet() }));
    assert!(V2.cmd_active(Star { cpsmact: true, ..quiet() }));
    assert!(!V2.cmd_active(Star { cmdact: true, ..quiet() }));
}

#[test]
fn a_script_waits_and_goes_on() {
    let mut run = Run::new(V2, V2.cmd(Cmd::send_rel_addr(), false));
    assert_eq!(run.action(), Action::Write(V2.clear_interrupt_flags()));
    // A reply to something else changes nothing
    run.resume(Reply::Status(quiet()));
    assert_eq!(run.action(), Action::Write(V2.clear_interrupt_flags()));
    run.resume(Reply::Ack);
    assert_eq!(run.action(), Action::ReadStatus);
    run.resume(Reply::Status(Star { cpsmact: true, ..quiet() }));
    assert_eq!(run.action(), Action::ReadStatus);
    run.resume(Reply::Status(quiet()));
    assert_eq!(run.action(), Action::Write(RegWrite::Argr(0)));
    run.resume(Reply::Ack);
    run.resume(Reply::Ack);
    assert_eq!(run.action(), Action::ReadStatus);
    run.resume(Reply::Status(Star { ccrcfail: true, ..quiet() }));
    assert_eq!(run.action(), Action::Done(Err(Error::Crc)));
}

#[test]
fn a_wait_for_both_paths_looks_at_them_in_turn() {
    let wait = vec![Step::AwaitIdle(Wait::Both), Step::Write(RegWrite::Widbus(1))];
    let data = Reply::Status(Star { dpsmact: true, ..quiet() });
    let command = Reply::Status(Star { cpsmact: true, ..quiet() });
    let neither = Reply::Status(quiet());
    let over = Action::Write(RegWrite::Widbus(1));
    // The data path rests in the first status, the command path in the second
    let mut run = Run::new(V2, wait.clone());
    run.resume(command);
    assert_eq!(run.action(), Action::ReadStatus);
    run.resume(data);
    assert_eq!(run.action(), over);
    // One status is not enough
    let mut run = Run::new(V2, wait.clone());
    run.resume(neither);
    assert_eq!(run.action(), Action::ReadStatus);
    run.resume(neither);
    assert_eq!(run.action(), over);
    // A busy command path sends the wait back to the data path
    let mut run = Run::new(V2, wait.clone());
    run.resume(neither);
    run.resume(command);
    run.resume(data);
    assert_eq!(run.action(), Action::ReadStatus);
    run.resume(neither);
    assert_eq!(run.action(), Action::ReadStatus);
    run.resume(neither);
    assert_eq!(run.action(), over);
}

#[test]
fn giving_up_aborts_only_what_is_in_progress() {
    let mut run = Run::new(V2, V2.on_drop());
    let mut changes = Vec::new();
    loop {
        match run.action() {
            Action::ReadStatus => run.resume(Reply::Status(quiet())),
            Action::Write(w) => {
                changes.push(w);
                run.resume(Reply::Ack);
            }
            _ => break,
        }
    }
    assert_eq!(
        changes,
        vec![V2.data_interrupts(false), V2.clear_interrupt_flags(), RegWrite::Idmaen(false)]
    );
    let mut run = Run::new(V2, V2.on_drop());
    let mut changes = Vec::new();
    let mut active = true;
    let mut looks = 0;
    loop {
        match run.action() {
            Action::ReadStatus => {
                looks += 1;
                run.resume(Reply::Status(Star { dpsmact: active, ..quiet() }));
                if looks == 4 {
                    active = false;
                }
            }
            Action::Write(w) => {
                changes.push(w);
                run.resume(Reply::Ack);
            }
            _ => break,
        }
    }
    assert_eq!(
        changes,
        vec![
            V2.clear_interrupt_flags(),
            RegWrite::Argr(0),
            word(1, 12, true, false),
            V2.data_interrupts(false),
            V2.clear_interrupt_flags(),
            RegWrite::Idmaen(false),
        ]
    );
    assert_eq!(looks, 5);
}

#[test]
fn a_block_is_found_by_byte_or_by_block() {
    assert_eq!(address_of(CardCapacity::SDSC, 3), 1536);
    assert_eq!(address_of(CardCapacity::SDHC, 3), 3);
    assert_eq!(address_of(CardCapacity::SDHC, u32::MAX), u32::MAX);
    assert_eq!(address_of(CardCapacity::SDSC, 0x7F_FFFF), 0xFFFF_FE00);
}

#[test]
fn a_transfer_that_goes_well_lets_go() {
    let mut t = armed(V2.read_block(5, CardCapacity::SDHC, 1000));
    t.resume(Reply::Status(quiet()));
    assert_eq!(t.action(), Action::Suspend);
    t.resume(Reply::Ack);
    assert_eq!(t.action(), Action::PollStatus);
    t.resume(Reply::Status(Star { dataend: true, ..quiet() }));
    let (changes, delay, r) = to_the_end(&mut t, [0; 16]);
    assert_eq!(changes, vec![V2.clear_interrupt_flags(), RegWrite::Idmaen(false)]);
    assert_eq!((delay, r), (0, Ok(())));
}

#[test]
fn a_transfer_whose_data_fails_lets_go() {
    let mut t = armed(V1.read_block(5, CardCapacity::SDHC, 1000));
    t.resume(Reply::Status(Star { dcrcfail: true, ..quiet() }));
    let (changes, _, r) = to_the_end(&mut t, [0; 16]);
    let stop = DctrlChange { dblocksize: None, dtdir: None, dmaen: Some(false), dten: Some(false) };
    assert_eq!(
        changes,
        vec![
            V1.clear_interrupt_flags(),
            V1.data_interrupts(false),
            V1.clear_interrupt_flags(),
            RegWrite::Dctrl(stop),
        ]
    );
    assert_eq!(r, Err(Error::Crc));
}

#[test]
fn a_switch_settles_also_where_it_fails() {
    let mut t = armed(V2.switch_signalling_mode(Signalling::SDR50, 1000));
    t.resume(Reply::Status(Star { dtimeout: true, ..quiet() }));
    let (_, delay, r) = to_the_end(&mut t, [0; 16]);
    assert_eq!((delay, r), (300, Err(Error::Timeout)));
    let mut t = armed(V2.switch_signalling_mode(Signalling::SDR50, 1000));
    t.resume(Reply::Status(Star { dataend: true, ..quiet() }));
    let mut words = [0; 16];
    words[4] = 2;
    let (_, delay, r) = to_the_end(&mut t, words);
    assert_eq!((delay, r), (300, Ok(())));
    assert_eq!(selected_signalling(&t.words()), Ok(Signalling::SDR50));
}

#[test]
fn the_scheme_that_a_card_selected() {
    let selected = |n: u32| {
        let mut words = [0; 16];
        words[4] = 0xFFFF_FFF0 + n;
        selected_signalling(&words)
    };
    assert_eq!(selected(0), Ok(Signalling::SDR12));
    assert_eq!(selected(1), Ok(Signalling::SDR25));
    assert_eq!(selected(2), Ok(Signalling::SDR50));
    assert_eq!(selected(3), Ok(Signalling::SDR104));
    assert_eq!(selected(4), Ok(Signalling::DDR50));
    assert_eq!(selected(5), Err(Error::UnsupportedCardType));
    assert_eq!(selected(15), Err(Error::UnsupportedCardType));
}

#[test]
fn a_switch_names_its_scheme() {
    for (scheme, arg) in [
        (Signalling::DDR50, 0x80FF_FF04),
        (Signalling::SDR104, 0x80FF_1F03),
        (Signalling::SDR50, 0x80FF_1F02),
        (Signalling::SDR25, 0x80FF_FF01),
        (Signalling::SDR12, 0x80FF_FF00u32),
    ] {
        let mut t = V2.switch_signalling_mode(scheme, 1000);
        let mut args = Vec::new();
        while t.action() != Action::PollStatus {
            match t.action() {
                Action::Write(w) => {
                    if let RegWrite::Argr(a) = w {
                        args.push(a);
                    }
                    t.resume(Reply::Ack);
                }
                _ => t.resume(Reply::Status(Star { cmdrend: true, ..quiet() })),
            }
        }
        assert_eq!(args, vec![arg]);
    }
}

#[test]
fn a_transfer_can_be_given_up() {
    let mut t = V2.get_scr(&Card::default(), 1000);
    assert_eq!(t.abandon(), vec![]);
    t = armed(t);
    assert_eq!(t.abandon(), V2.on_drop());
    t.resume(Reply::Status(Star { dataend: true, ..quiet() }));
    assert_eq!(t.abandon(), V2.on_drop());
    to_the_end(&mut t, [0; 16]);
    assert_eq!(t.abandon(), vec![]);
}

#[test]
fn only_a_deselection_may_go_unanswered() {
    let card = Card { rca: 0x1234, ..Card::default() };
    assert_eq!(V1.select_card(Some(&card)), V1.cmd(Cmd::sel_desel_card(0x1234_0000), false));
    assert_eq!(V1.select_card(None), V1.cmd(Cmd::sel_desel_card(0), false));
    assert_eq!(V1.selected(None, Err(Error::Timeout)), Ok(()));
    assert_eq!(V1.selected(Some(&card), Err(Error::Timeout)), Err(Error::Timeout));
    assert_eq!(V1.selected(None, Err(Error::Crc)), Err(Error::Crc));
    assert_eq!(V1.selected(None, Ok(())), Ok(()));
}

#[test]
fn the_status_of_a_card_is_asked_for() {
    let card = Card { rca: 7, ..Card::default() };
    let steps = V2.read_status(&card);
    assert_eq!(steps[2], Step::Write(RegWrite::Argr(0x7_0000)));
    assert_eq!(steps[3], Step::Write(word(1, 13, false, false)));
    assert_eq!(steps[5], Step::ReadResponse(0));
    assert_eq!(steps.len(), 6);
}
