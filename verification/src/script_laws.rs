//! What the pieces that all scripts are made of do to the peripheral, and when a script moves on.

use vstd::prelude::*;

use crate::bench::{
    awaited_kind, clears_all, command_busy, data_busy, lets_through, shows_data_fault, shows_end,
    shows_fault, Regs,
};
use crate::blocks::{ReadBlocksState, WriteBlocksState};
use crate::card::{Card, CardModel};
use crate::cmd::{Cmd, Response};
use crate::effect::{replay_run, Hw};
use crate::init::InitState;
use crate::inner::{select_argument, select_outcome, SdmmcInner};
use crate::link::LinkModel;
use crate::registers::{Action, Buffer, Burst, FlowControl, RegWrite, Reply, Star};
use crate::script::{RunState, Step, Wait};
use crate::transfer::{Phase, TransferState};
use crate::types::{Error, Version};
use crate::write::WriteState;

verus! {

/// A peripheral after the changes of a script, whatever it waits for in between.
pub open spec fn regs_after(regs: Regs, steps: Seq<Step>) -> Regs
    decreases steps.len(),
{
    if steps.len() == 0 {
        regs
    } else {
        match steps.last() {
            Step::Write(w) => regs_after(regs, steps.drop_last()).written(w),
            _ => regs_after(regs, steps.drop_last()),
        }
    }
}

/// Clearing the flags clears all that the revision has, and none that it has not.
pub proof fn law_flags_are_cleared(inner: SdmmcInner)
    ensures
        inner.clear_flags() matches RegWrite::Icr(f) && clears_all(inner.version, f) && (
        inner.version == Version::V1 ==> !(f.dholdc || f.dabortc || f.busyd0endc || f.ackfailc
            || f.acktimeoutc || f.vswendc || f.ckstopc || f.idmatec || f.idmabtcc)),
{
}

/// Interrupts are let through for the end of the data and all that can go wrong with it, or for
/// nothing.
pub proof fn law_interrupts_are_masked(inner: SdmmcInner, hw: Hw)
    ensures
        !hw.written(inner.mask_data(false)).interrupts,
        inner.mask_data(true) matches RegWrite::Maskr(m) && lets_through(inner.version, m),
        inner.mask_data(false) matches RegWrite::Maskr(m) && !m.dcrcfailie && !m.dtimeoutie
            && !m.dataendie && !m.dabortie,
{
}

/// Stopping the DMA stops it, and changes nothing else.
pub proof fn law_dma_is_stopped(inner: SdmmcInner, regs: Regs)
    ensures
        regs.written(inner.stop_dma()) == match inner.version {
            Version::V1 => Regs { dmaen: false, dten: false, ..regs },
            Version::V2 => Regs { idma: false, ..regs },
        },
{
}

/// The command register names the command and the kind of its answer: 0 for none, 1 for a short one
/// and 3 for a long one. Revision 2 is told of CMD12, and of data that goes with a command.
pub proof fn law_command_word(inner: SdmmcInner, cmd: Cmd, data: bool)
    ensures
        ({
            let w = inner.command_word(cmd, data);
            &&& w.cmdindex == cmd.cmd
            &&& w.waitresp == match cmd.resp {
                Response::Absent => 0u8,
                Response::Short => 1u8,
                Response::Long => 3u8,
            }
            &&& w.cpsmen
            &&& !w.waitint
            &&& w.cmdstop <==> inner.version == Version::V2 && cmd.cmd == 12
            &&& w.cmdtrans <==> inner.version == Version::V2 && data
        }),
{
}

/// Sending a command leaves the command and its argument in the registers, with its answer
/// outstanding, and touches nothing of the data.
pub proof fn law_command_is_sent(inner: SdmmcInner, cmd: Cmd, data: bool, regs: Regs)
    requires
        cmd.cmd != 12,
    ensures
        ({
            let after = regs_after(regs, inner.cmd_steps(cmd, data));
            &&& after.last matches Some(l) && l.0 == cmd.cmd
            &&& after.last_argument == cmd.arg
            &&& after.waits == Some(
                match cmd.resp {
                    Response::Absent => 0u8,
                    Response::Short => 1u8,
                    Response::Long => 3u8,
                },
            )
            &&& inner.cmd_steps(cmd, data).last() == Step::AwaitAnswer(cmd.resp)
            &&& after.timer == regs.timer
            &&& after.length == regs.length
            &&& after.exponent == regs.exponent
            &&& after.to_host == regs.to_host
            &&& after.dmaen == regs.dmaen
            &&& after.dten == regs.dten
            &&& after.channel == regs.channel
            &&& after.base == regs.base
            &&& after.idma == regs.idma
            &&& after.mask == regs.mask
        }),
{
    let s = inner.cmd_steps(cmd, data);
    reveal_with_fuel(regs_after, 6);
    assert(s.drop_last() =~= seq![s[0], s[1], s[2], s[3]]);
    assert(s.drop_last().drop_last() =~= seq![s[0], s[1], s[2]]);
    assert(s.drop_last().drop_last().drop_last() =~= seq![s[0], s[1]]);
    assert(seq![s[0], s[1]].drop_last() =~= seq![s[0]]);
    assert(seq![s[0]].drop_last() =~= Seq::<Step>::empty());
}

/// Getting the data path ready, whichever way the data goes and however much of it there is, leaves
/// just that in the registers, with the DMA of the revision at the memory; revision 1 also enables
/// the data path where data is to come from the card.
pub proof fn law_data_path_is_ready(
    inner: SdmmcInner,
    buffer: Buffer,
    read: bool,
    length: u32,
    block_size: u8,
    timeout: u32,
    regs: Regs,
)
    ensures
        ({
            let steps = inner.prepare_steps(buffer, read, length, block_size, timeout);
            let after = regs_after(regs, steps);
            &&& steps[0] == Step::AwaitIdle(Wait::Both)
            &&& after.cleared matches Some(f) && clears_all(inner.version, f)
            &&& after.timer == timeout
            &&& after.length == length
            &&& after.exponent == block_size
            &&& after.to_host == read
            &&& after.last == regs.last
            &&& after.mask == regs.mask
            &&& match inner.version {
                Version::V1 => {
                    &&& after.channel matches Some(ch)
                    &&& ch.to_host == read
                    &&& ch.buffer == buffer
                    &&& ch.options.pburst == Burst::Incr4
                    &&& ch.options.flow_ctrl == FlowControl::Peripheral
                    &&& after.dmaen == (read || regs.dmaen)
                    &&& after.dten == (read || regs.dten)
                    &&& after.base == regs.base
                    &&& after.idma == regs.idma
                },
                Version::V2 => {
                    &&& after.idma
                    &&& after.base == Some(buffer)
                    &&& after.dmaen == regs.dmaen
                    &&& after.dten == regs.dten
                    &&& after.channel == regs.channel
                },
            }
        }),
{
    let s = inner.prepare_steps(buffer, read, length, block_size, timeout);
    reveal_with_fuel(regs_after, 8);
    let s6 = seq![s[0], s[1], s[2], s[3], s[4], s[5]];
    if inner.version == Version::V1 {
        assert(s =~= s6);
    } else {
        assert(s =~= s6.push(s[6]));
        assert(s.drop_last() =~= s6);
    }
    assert(s6.drop_last() =~= seq![s[0], s[1], s[2], s[3], s[4]]);
    assert(seq![s[0], s[1], s[2], s[3], s[4]].drop_last() =~= seq![s[0], s[1], s[2], s[3]]);
    assert(seq![s[0], s[1], s[2], s[3]].drop_last() =~= seq![s[0], s[1], s[2]]);
    assert(seq![s[0], s[1], s[2]].drop_last() =~= seq![s[0], s[1]]);
    assert(seq![s[0], s[1]].drop_last() =~= seq![s[0]]);
    assert(seq![s[0]].drop_last() =~= Seq::<Step>::empty());
}

/// A peripheral is set up with one line, this divisor and hardware flow control, without power
/// saving and on the rising edge, with the clock on where revision 1 has a switch for it; and with
/// the power to the card off at the end.
pub proof fn law_peripheral_is_set_up(inner: SdmmcInner, clkdiv: u16)
    ensures
        ({
            let steps = inner.new_steps(clkdiv);
            &&& steps.len() == 2
            &&& steps[0] matches Step::Write(RegWrite::Clkcr(c)) && c.widbus == 0 && c.clkdiv
                == clkdiv && !c.pwrsav && !c.negedge && c.hwfc_en && c.clken == (inner.version
                == Version::V1)
            &&& steps[1] == Step::Write(RegWrite::Power(0))
        }),
{
}

/// What a script does on a reply: it moves on from a change once it is made, from a delay once it
/// is over and from a register once it was read; from a wait once the path is seen at rest, the
/// data path first where both are waited for; and from a command once its end is seen, where it
/// stops if something went wrong. Else it stays.
pub proof fn law_script_moves_on(r: RunState, reply: Reply)
    requires
        r.running(),
    ensures
        ({
            let n = r.after(reply);
            let v = r.inner.version;
            let moved = n.at == r.at + 1 && !n.halfway && n.failed is None;
            let stayed = n.at == r.at && n.failed is None;
            &&& n.steps == r.steps
            &&& match (r.steps[r.at as int], reply) {
                (Step::Write(_), Reply::Ack) => moved && n.responses == r.responses,
                (Step::Delay(_), Reply::Ack) => moved && n.responses == r.responses,
                (Step::ReadResponse(_), Reply::Response(x)) => moved && n.responses
                    == r.responses.push(x),
                (Step::AwaitIdle(Wait::Command), Reply::Status(s)) => if command_busy(v, s) {
                    stayed
                } else {
                    moved
                },
                (Step::AwaitIdle(Wait::Data), Reply::Status(s)) => if data_busy(v, s) {
                    stayed
                } else {
                    moved
                },
                (Step::AwaitIdle(Wait::Both), Reply::Status(s)) => if r.halfway {
                    if command_busy(v, s) {
                        stayed && !n.halfway
                    } else {
                        moved
                    }
                } else {
                    stayed && n.halfway == !data_busy(v, s)
                },
                (Step::AwaitAnswer(resp), Reply::Status(s)) => if shows_end(
                    awaited_kind(resp),
                    s,
                ) {
                    match shows_fault(s) {
                        Some(e) => n.failed == Some(e),
                        None => moved,
                    }
                } else {
                    stayed
                },
                (Step::IfDataActive(k), Reply::Status(s)) => if data_busy(v, s) {
                    moved
                } else {
                    n.failed is None && (r.at + 1 + k <= r.steps.len() ==> n.at == r.at + 1 + k)
                },
                _ => n == r,
            }
        }),
{
}

/// What a transfer does once the data command was answered: it looks at the status; it sleeps where
/// that shows neither the end of the data nor anything wrong with it, and looks again when woken.
/// At the end of the data it goes on to its close, and where something is wrong it goes on to fail
/// for that. What the card sent is taken before the transfer is over.
pub proof fn law_transfer_moves_on(t: TransferState, reply: Reply)
    ensures
        match t.phase {
            Phase::Polling => t.action() == Action::PollStatus && (reply matches Reply::Status(s)
                ==> match shows_data_fault(s) {
                Some(e) => t.after(reply).phase == Phase::Settling(e),
                None => if s.dataend {
                    t.after(reply).phase is Closing
                } else {
                    t.after(reply).phase is Suspended
                },
            }),
            Phase::Suspended => t.action() == Action::Suspend && (reply is Ack ==> t.after(
                reply,
            ).phase is Polling),
            Phase::Collecting => t.action() == Action::ReadWords && (reply matches Reply::Words(w)
                ==> t.after(reply).action() == Action::Done(Ok(())) && t.after(reply).words == w@),
            Phase::Finished(r) => t.action() == Action::Done(r) && t.after(reply) == t,
            _ => true,
        },
        t.phase is Polling && !(reply is Status) ==> t.after(reply) == t,
        t.phase is Suspended && !(reply is Ack) ==> t.after(reply) == t,
        t.phase is Collecting && !(reply is Words) ==> t.after(reply) == t,
{
}

/// What is over stays over: no reply changes it, nor what is known of the bus and the card.
pub proof fn law_over_stays_over(
    init: InitState,
    link: LinkModel,
    write: WriteState,
    card: CardModel,
    reading: ReadBlocksState,
    writing: WriteBlocksState,
    reply: Reply,
)
    ensures
        init.stage is Finished ==> init.action() is Done && init.after(link, reply) == (init, link),
        write.stage is Finished ==> write.action() is Done && write.after(card, reply) == (
            write,
            card,
        ),
        reading.stage is Finished ==> reading.action() is Done && reading.after(reply) == reading,
        writing.stage is Finished ==> writing.action() is Done && writing.after(card, reply) == (
            writing,
            card,
        ),
{
}

/// A card is selected by its address in the upper half of the argument, and no card by the argument
/// 0; where none is selected, a timeout is no failure.
pub proof fn law_selection(card: &Card, arg: u32, r: Result<(), Error>)
    ensures
        select_argument(None) == 0,
        select_argument(Some(card)) == card.rca % 0x1_0000 * 0x1_0000,
        select_outcome(arg, r) is Ok <==> r is Ok || arg == 0 && r == Err::<(), Error>(
            Error::Timeout,
        ),
        select_outcome(arg, r) is Err ==> select_outcome(arg, r) == r,
{
}

/// The first look at the status among some replies.
pub open spec fn first_look(replies: Seq<Reply>) -> Option<Star>
    decreases replies.len(),
{
    if replies.len() == 0 {
        None
    } else {
        match (first_look(replies.drop_last()), replies.last()) {
            (Some(s), _) => Some(s),
            (None, Reply::Status(s)) => Some(s),
            _ => None,
        }
    }
}

/// What ties the script that sets the peripheral to rest to what it saw at first.
spec fn resting(inner: SdmmcInner, r: RunState, hw: Hw, before: Hw, look: Option<Star>) -> bool {
    &&& r.inner == inner
    &&& r.steps == inner.on_drop_steps()
    &&& r.failed is None
    &&& r.at <= 9
    &&& r.at == 0 <==> look is None
    &&& look matches Some(s) ==> if data_busy(inner.version, s) {
        &&& r.at == 4 ==> hw.regs.argument == 0
        &&& hw.commands == if r.at >= 5 {
            before.commands.push((12u8, 0u32))
        } else {
            before.commands
        }
    } else {
        r.at >= 6 && hw.commands == before.commands
    }
    &&& look is None ==> hw.commands == before.commands
    &&& r.at >= 6 ==> hw.data_rests
    &&& r.at >= 7 ==> !hw.interrupts
    &&& r.at >= 8 ==> (hw.regs.cleared matches Some(f) && clears_all(inner.version, f))
}

proof fn lemma_resting(inner: SdmmcInner, hw: Hw, replies: Seq<Reply>)
    ensures
        ({
            let (r, after) = replay_run(RunState::start(inner, inner.on_drop_steps()), hw, replies);
            resting(inner, r, after, hw, first_look(replies))
        }),
    decreases replies.len(),
{
    if replies.len() > 0 {
        lemma_resting(inner, hw, replies.drop_last());
        let (r, after) = replay_run(
            RunState::start(inner, inner.on_drop_steps()),
            hw,
            replies.drop_last(),
        );
        lemma_resting_step(
            inner,
            r,
            after,
            hw,
            first_look(replies.drop_last()),
            replies.last(),
        );
    }
}

proof fn lemma_resting_step(
    inner: SdmmcInner,
    r: RunState,
    hw: Hw,
    before: Hw,
    look: Option<Star>,
    reply: Reply,
)
    requires
        resting(inner, r, hw, before, look),
    ensures
        resting(
            inner,
            r.after(reply),
            hw.dealt(r.inner, r.action(), reply),
            before,
            match (look, reply) {
                (Some(s), _) => Some(s),
                (None, Reply::Status(s)) => Some(s),
                _ => None,
            },
        ),
{
}

/// Setting the peripheral to rest: a card that is found moving data is sent CMD12, with the
/// argument 0, and one that is not is sent nothing. At the end the data path was seen at rest,
/// interrupts are masked and the flags cleared.
pub proof fn law_peripheral_comes_to_rest(inner: SdmmcInner, hw: Hw, replies: Seq<Reply>)
    ensures
        ({
            let (r, after) = replay_run(RunState::start(inner, inner.on_drop_steps()), hw, replies);
            !r.running() ==> {
                &&& first_look(replies) matches Some(s)
                &&& after.commands == if data_busy(inner.version, s) {
                    hw.commands.push((12u8, 0u32))
                } else {
                    hw.commands
                }
                &&& after.data_rests
                &&& !after.interrupts
                &&& after.regs.cleared matches Some(f) && clears_all(inner.version, f)
            }
        }),
{
    lemma_resting(inner, hw, replies);
}

} // verus!
