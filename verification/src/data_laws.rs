//! What holds of moving data, command by command and register by register.

use vstd::prelude::*;

use crate::bench::{
    answer_kind, awaited_kind, clears_all, fits_all, in_its_place, lemma_fits_shift, lenient, moves,
    shows_data_fault, Aim, Regs,
};
use crate::cmd::{short_cmd, Cmd, Response};
use crate::effect::{
    armed_on_the_way, law_touched_when_armed, law_transfer_lets_go, lemma_run_moves,
    lemma_straight_transfer, lemma_transfer_start, lemma_transfer_step, replay_transfer,
    transfer_inv, Hw,
};
use crate::inner::SdmmcInner;
use crate::registers::{Action, Buffer, RegWrite, Reply};
use crate::script::{RunState, Step};
use crate::sent::{
    lemma_transfer_sent_start, lemma_transfer_sent_step, plan_commands, transfer_sent, Sent,
};
use crate::transfer::{
    block_address, read_block_plan, scr_plan, sd_status_plan, switch_plan, Phase, Plan,
    TransferState,
};
use crate::types::{CardCapacity, Error, Signalling, Version};

verus! {

/// A reply to a script whose commands fit.
pub proof fn lemma_fits_step(
    r: RunState,
    steps: Seq<Step>,
    hw: Hw,
    timeout: u32,
    aim: Aim,
    reply: Reply,
)
    requires
        r.running(),
        r.at < steps.len(),
        r.steps[r.at as int] == steps[r.at as int],
        r.steps == steps || !(steps[r.at as int] is IfDataActive),
        fits_all(steps, r.at, hw.regs, r.inner.version, timeout, aim),
    ensures
        ({
            let n = r.after(reply);
            let after = hw.dealt(r.inner, r.action(), reply);
            &&& r.action() matches Action::Write(RegWrite::Cmdr(c)) ==> hw.regs.fits(
                r.inner.version,
                timeout,
                c,
            )
            &&& match n.failed {
                None => {
                    &&& fits_all(steps, n.at, after.regs, r.inner.version, timeout, aim)
                    &&& after.faults == hw.faults
                },
                Some(e) => {
                    &&& after.regs.waits is None
                    &&& after.faults == hw.blamed(e)
                    &&& aim != Aim::Lenient ==> (hw.regs.last matches Some(l) && !lenient(l.0))
                },
            }
            &&& after.polled == hw.polled
            &&& after.words == hw.words
        }),
{
}

impl SdmmcInner {
    /// The registers after a command was sent and answered.
    pub open spec fn after_cmd(self, regs: Regs, cmd: Cmd, data: bool) -> Regs {
        regs.written(self.clear_flags()).written(RegWrite::Argr(cmd.arg)).written(
            RegWrite::Cmdr(self.command_word(cmd, data)),
        ).answered()
    }

    /// A script that begins with a command fits if the command does and what follows on it.
    pub proof fn lemma_fits_cmd(
        self,
        cmd: Cmd,
        with: bool,
        rest: Seq<Step>,
        regs: Regs,
        timeout: u32,
        aim: Aim,
    )
        requires
            cmd.cmd != 12,
            aim != Aim::Lenient ==> !lenient(cmd.cmd),
            in_its_place(cmd.cmd, regs.after_app()),
            awaited_kind(cmd.resp) == answer_kind(cmd.cmd),
            match moves(cmd.cmd, regs.after_app()) {
                Some(d) => {
                    &&& with
                    &&& regs.prepared(self.version, d, timeout)
                    &&& cmd.cmd != 6 ==> regs.announced == Some(d.length)
                },
                None => !with,
            },
            fits_all(rest, 0, self.after_cmd(regs, cmd, with), self.version, timeout, aim),
        ensures
            fits_all(
                self.cmd_steps(cmd, with) + rest,
                0,
                regs,
                self.version,
                timeout,
                aim,
            ),
    {
        let a = self.cmd_steps(cmd, with);
        let s = a + rest;
        lemma_fits_shift(
            a,
            rest,
            0,
            self.after_cmd(regs, cmd, with),
            self.version,
            timeout,
            aim,
        );
        assert(s[0] == a[0] && s[1] == a[1] && s[2] == a[2] && s[3] == a[3] && s[4] == a[4]);
        let r1 = regs.written(self.clear_flags());
        let r2 = r1.written(RegWrite::Argr(cmd.arg));
        let r3 = r2.written(RegWrite::Cmdr(self.command_word(cmd, with)));
        assert(r2.fits(self.version, timeout, self.command_word(cmd, with)));
        let v = self.version;
        assert(fits_all(s, 5, r3.answered(), v, timeout, aim));
        assert(fits_all(s, 4, r3, v, timeout, aim));
        assert(fits_all(s, 3, r2, v, timeout, aim));
        assert(fits_all(s, 2, r1, v, timeout, aim));
        assert(fits_all(s, 1, r1, v, timeout, aim));
    }
}

/// A plan moves what goes with its data command, and announces how long that is.
pub open spec fn agrees(plan: Plan) -> bool {
    &&& plan.command.resp == Response::Short
    &&& moves(plan.command.cmd, plan.app is Some) matches Some(d)
    &&& d.length == plan.size.in_bytes()
    &&& d.exponent == plan.size.log2()
    &&& d.to_host == plan.read
    &&& d.buffer == plan.buffer
    &&& plan.command.cmd != 6 ==> plan.block_length == Some(d.length)
}

/// The commands of a transfer fit from here on.
spec fn transfer_fits(t: TransferState, regs: Regs) -> bool {
    let v = t.inner.version;
    let timeout = t.plan.timeout;
    let prelude = t.inner.prelude_steps(t.plan);
    let armed = t.inner.armed_steps(t.plan);
    let run = t.run;
    match t.phase {
        Phase::Prelude => {
            &&& run.inner == t.inner
            &&& run.steps == prelude
            &&& run.running()
            &&& fits_all(prelude + armed, run.at, regs, v, timeout, Aim::Data)
        },
        Phase::Armed => {
            &&& run.inner == t.inner
            &&& run.steps == armed
            &&& run.running()
            &&& fits_all(armed, run.at, regs, v, timeout, Aim::Data)
        },
        Phase::Polling | Phase::Suspended => regs.awaits_data(v, timeout),
        Phase::Closing => {
            &&& run.inner == t.inner
            &&& run.steps == t.inner.closing_steps(t.plan)
            &&& run.running()
            &&& fits_all(run.steps, run.at, regs, v, timeout, Aim::Strict)
        },
        Phase::Settling(_) => {
            &&& run.inner == t.inner
            &&& run.steps == t.inner.settle_steps(t.plan)
            &&& run.running()
            &&& fits_all(run.steps, run.at, regs, v, timeout, Aim::Strict)
        },
        Phase::Releasing(_) => {
            &&& run.inner == t.inner
            &&& run.steps == t.inner.on_drop_steps()
            &&& run.running()
            &&& fits_all(run.steps, run.at, regs, v, timeout, Aim::Strict)
        },
        Phase::Collecting | Phase::Finished(_) => regs.waits is None,
    }
}

/// One fault more than these: a timeout or a failed checksum, and one that cannot be passed over.
pub open spec fn one_fault_more(
    faults: Seq<(u8, u32, Error)>,
    base: Seq<(u8, u32, Error)>,
    e: Error,
) -> bool {
    &&& faults.len() == base.len() + 1
    &&& faults.drop_last() == base
    &&& faults.last().2 == e
    &&& e == Error::Timeout || e == Error::Crc
    &&& !lenient(faults.last().0)
}

/// The status that was seen last shows the end of the data and nothing wrong with it.
pub open spec fn saw_good_end(hw: Hw) -> bool {
    hw.polled matches Some(s) && s.dataend && shows_data_fault(s) is None
}

/// What a transfer has seen go wrong, where `base` went wrong before it began, and what it saw of
/// the data.
spec fn transfer_blames(t: TransferState, hw: Hw, base: Seq<(u8, u32, Error)>) -> bool {
    match t.phase {
        Phase::Settling(e) => one_fault_more(hw.faults, base, e),
        Phase::Releasing(e) => one_fault_more(hw.faults, base, e),
        Phase::Finished(Err(e)) => one_fault_more(hw.faults, base, e),
        Phase::Closing => {
            &&& hw.faults == base
            &&& saw_good_end(hw)
            &&& t.run.at >= 2 ==> hw.regs.paused >= t.plan.settle
        },
        Phase::Collecting => {
            &&& hw.faults == base
            &&& saw_good_end(hw)
            &&& hw.regs.paused >= t.plan.settle
        },
        Phase::Finished(Ok(_)) => {
            &&& hw.faults == base
            &&& saw_good_end(hw)
            &&& hw.regs.paused >= t.plan.settle
            &&& t.plan.buffer == Buffer::Scratch ==> t.words == hw.words
        },
        _ => hw.faults == base,
    }
}

/// A transfer goes as it should.
pub closed spec fn transfer_goes(t: TransferState, hw: Hw, base: Seq<(u8, u32, Error)>) -> bool {
    &&& agrees(t.plan)
    &&& transfer_fits(t, hw.regs)
    &&& transfer_blames(t, hw, base)
}

impl SdmmcInner {
    /// Getting the data path ready prepares the data.
    proof fn lemma_fits_armed(self, plan: Plan, regs: Regs)
        requires
            agrees(plan),
            regs.waits is None,
            regs.after_app() == (plan.app is Some),
            plan.command.cmd != 6 ==> regs.announced == plan.block_length,
        ensures
            fits_all(self.armed_steps(plan), 0, regs, self.version, plan.timeout, Aim::Data),
    {
        let v = self.version;
        let timeout = plan.timeout;
        let p = self.prepare_steps(
            plan.buffer,
            plan.read,
            plan.size.in_bytes(),
            plan.size.log2(),
            timeout,
        );
        let m = seq![Step::Write(self.mask_data(true))];
        let a = p + m;
        let c = self.cmd_steps(plan.command, true);
        let none = Seq::<Step>::empty();
        let s = a + c;
        let d = moves(plan.command.cmd, plan.app is Some)->0;
        let r1 = regs.written(self.clear_flags());
        let r2 = r1.written(RegWrite::Dtimer(timeout));
        let r3 = r2.written(RegWrite::Dlenr(plan.size.in_bytes()));
        assert(s[0] == p[0] && s[1] == p[1] && s[2] == p[2] && s[3] == p[3]);
        let r4 = r3.written(p[4]->Write_0);
        assert(s[4] == p[4]);
        let r5 = r4.written(p[5]->Write_0);
        assert(s[5] == p[5]);
        let last = if v == Version::V1 {
            r5.written(m[0]->Write_0)
        } else {
            r5.written(p[6]->Write_0).written(m[0]->Write_0)
        };
        assert(last.prepared(v, d, timeout));
        let done = self.after_cmd(last, plan.command, true);
        assert(done.awaits_data(v, timeout));
        assert(c + none =~= c);
        self.lemma_fits_cmd(plan.command, true, none, last, timeout, Aim::Data);
        lemma_fits_shift(a, c, 0, last, v, timeout, Aim::Data);
        if v == Version::V1 {
            assert(s[6] == m[0]);
            assert(fits_all(s, 7, last, v, timeout, Aim::Data));
            assert(fits_all(s, 6, r5, v, timeout, Aim::Data));
        } else {
            assert(s[6] == p[6]);
            assert(s[7] == m[0]);
            assert(fits_all(s, 8, last, v, timeout, Aim::Data));
            assert(fits_all(s, 7, r5.written(p[6]->Write_0), v, timeout, Aim::Data));
            assert(fits_all(s, 6, r5, v, timeout, Aim::Data));
        }
        assert(fits_all(s, 5, r4, v, timeout, Aim::Data));
        assert(fits_all(s, 4, r3, v, timeout, Aim::Data));
        assert(fits_all(s, 3, r2, v, timeout, Aim::Data));
        assert(fits_all(s, 2, r1, v, timeout, Aim::Data));
        assert(fits_all(s, 1, regs, v, timeout, Aim::Data));
    }

    /// The commands before a transfer fit, and so does what follows on them.
    proof fn lemma_fits_whole(self, plan: Plan, regs: Regs)
        requires
            agrees(plan),
            plan.block_length is Some || regs.waits is None && !regs.after_app(),
        ensures
            fits_all(
                self.prelude_steps(plan) + self.armed_steps(plan),
                0,
                regs,
                self.version,
                plan.timeout,
                Aim::Data,
            ),
    {
        let armed = self.armed_steps(plan);
        let none = Seq::<Step>::empty();
        let first = short_cmd(16, plan.block_length->0);
        let second = short_cmd(55, plan.app->0);
        let r1 = if plan.block_length is Some {
            self.after_cmd(regs, first, false)
        } else {
            regs
        };
        let r2 = if plan.app is Some {
            self.after_cmd(r1, second, false)
        } else {
            r1
        };
        self.lemma_fits_armed(plan, r2);
        let tail = if plan.app is Some {
            self.cmd_steps(second, false) + armed
        } else {
            armed
        };
        if plan.app is Some {
            self.lemma_fits_cmd(second, false, armed, r1, plan.timeout, Aim::Data);
        }
        if plan.block_length is Some {
            self.lemma_fits_cmd(first, false, tail, regs, plan.timeout, Aim::Data);
        }
        let whole = self.prelude_steps(plan) + armed;
        if plan.block_length is Some {
            assert(whole =~= self.cmd_steps(first, false) + tail);
        } else {
            assert(whole =~= tail);
        }
    }

    /// What ends a transfer sends nothing but the abort, and that fits.
    proof fn lemma_fits_ending(self, plan: Plan, regs: Regs)
        requires
            regs.waits is None,
        ensures
            fits_all(self.closing_steps(plan), 0, regs, self.version, plan.timeout, Aim::Strict),
            fits_all(self.settle_steps(plan), 0, regs, self.version, plan.timeout, Aim::Strict),
            fits_all(self.on_drop_steps(), 0, regs, self.version, plan.timeout, Aim::Strict),
    {
        let v = self.version;
        assert(fits_all(self.closing_steps(plan), 0, regs, v, plan.timeout, Aim::Strict)) by {
            reveal_with_fuel(fits_all, 4);
        }
        assert(fits_all(self.settle_steps(plan), 0, regs, v, plan.timeout, Aim::Strict)) by {
            reveal_with_fuel(fits_all, 3);
        }
        self.lemma_fits_release(plan, regs);
    }

    proof fn lemma_fits_release(self, plan: Plan, regs: Regs)
        requires
            regs.waits is None,
        ensures
            fits_all(self.on_drop_steps(), 0, regs, self.version, plan.timeout, Aim::Strict),
    {
        let v = self.version;
        let timeout = plan.timeout;
        let s = self.on_drop_steps();
        let r1 = regs.written(self.clear_flags());
        let r2 = r1.written(RegWrite::Argr(0));
        let r3 = r2.written(s[4]->Write_0);
        assert forall|r: Regs| r.waits is None implies #[trigger] fits_all(
            s,
            6,
            r,
            v,
            timeout,
            Aim::Strict,
        ) by {
            reveal_with_fuel(fits_all, 4);
        }
        assert(fits_all(s, 6, r3, v, timeout, Aim::Strict));
        assert(fits_all(s, 6, regs, v, timeout, Aim::Strict));
        assert(fits_all(s, 5, r3, v, timeout, Aim::Strict));
        assert(r2.fits(v, timeout, s[4]->Write_0->Cmdr_0));
        assert(fits_all(s, 4, r2, v, timeout, Aim::Strict));
        assert(fits_all(s, 3, r1, v, timeout, Aim::Strict));
        assert(fits_all(s, 2, r1, v, timeout, Aim::Strict));
        assert(fits_all(s, 1, regs, v, timeout, Aim::Strict));
    }
}

/// A transfer goes as it should from its start.
pub proof fn lemma_transfer_goes_start(inner: SdmmcInner, plan: Plan, hw: Hw)
    requires
        agrees(plan),
        plan.block_length is Some || hw.regs.waits is None && !hw.regs.after_app(),
    ensures
        transfer_goes(TransferState::start(inner, plan), hw, hw.faults),
{
    inner.lemma_fits_whole(plan, hw.regs);
    let prelude = inner.prelude_steps(plan);
    let armed = inner.armed_steps(plan);
    if prelude.len() == 0 {
        assert(prelude + armed =~= armed);
        assert(armed.len() > 0);
    }
}

proof fn lemma_prelude_goes(t: TransferState, hw: Hw, base: Seq<(u8, u32, Error)>, reply: Reply)
    requires
        transfer_goes(t, hw, base),
        t.phase is Prelude,
    ensures
        transfer_goes(t.after(reply), hw.dealt(t.inner, t.action(), reply), base),
{
    let prelude = t.inner.prelude_steps(t.plan);
    let armed = t.inner.armed_steps(t.plan);
    let after = hw.dealt(t.inner, t.action(), reply);
    lemma_run_moves(t.run, reply);
    lemma_straight_transfer(t.inner, t.plan);
    lemma_fits_step(t.run, prelude + armed, hw, t.plan.timeout, Aim::Data, reply);
    lemma_fits_shift(
        prelude,
        armed,
        0,
        after.regs,
        t.inner.version,
        t.plan.timeout,
        Aim::Data,
    );
    assert(armed.len() > 0);
    if t.run.after(reply).failed is Some {
        assert(after.faults.drop_last() =~= base);
    }
}

proof fn lemma_armed_goes(t: TransferState, hw: Hw, base: Seq<(u8, u32, Error)>, reply: Reply)
    requires
        transfer_goes(t, hw, base),
        t.phase is Armed,
    ensures
        transfer_goes(t.after(reply), hw.dealt(t.inner, t.action(), reply), base),
{
    let after = hw.dealt(t.inner, t.action(), reply);
    lemma_run_moves(t.run, reply);
    lemma_straight_transfer(t.inner, t.plan);
    lemma_fits_step(t.run, t.run.steps, hw, t.plan.timeout, Aim::Data, reply);
    if t.run.after(reply).failed is Some {
        assert(after.faults.drop_last() =~= base);
        t.inner.lemma_fits_release(t.plan, after.regs);
    }
}

proof fn lemma_polling_goes(t: TransferState, hw: Hw, base: Seq<(u8, u32, Error)>, reply: Reply)
    requires
        transfer_goes(t, hw, base),
        t.phase is Polling,
    ensures
        transfer_goes(t.after(reply), hw.dealt(t.inner, t.action(), reply), base),
{
    let after = hw.dealt(t.inner, t.action(), reply);
    t.inner.lemma_fits_ending(t.plan, after.regs);
    match reply {
        Reply::Status(s) => {
            assert(after.regs == hw.regs);
            if shows_data_fault(s) is Some {
                assert(after.faults.drop_last() =~= base);
            }
        },
        _ => {},
    }
}

proof fn lemma_closing_goes(t: TransferState, hw: Hw, base: Seq<(u8, u32, Error)>, reply: Reply)
    requires
        transfer_goes(t, hw, base),
        t.phase is Closing,
    ensures
        transfer_goes(t.after(reply), hw.dealt(t.inner, t.action(), reply), base),
{
    lemma_run_moves(t.run, reply);
    lemma_fits_step(t.run, t.run.steps, hw, t.plan.timeout, Aim::Strict, reply);
}

proof fn lemma_giving_up_goes(t: TransferState, hw: Hw, base: Seq<(u8, u32, Error)>, reply: Reply)
    requires
        transfer_goes(t, hw, base),
        t.phase is Settling || t.phase is Releasing,
    ensures
        transfer_goes(t.after(reply), hw.dealt(t.inner, t.action(), reply), base),
{
    let after = hw.dealt(t.inner, t.action(), reply);
    lemma_run_moves(t.run, reply);
    lemma_fits_step(t.run, t.run.steps, hw, t.plan.timeout, Aim::Strict, reply);
    if t.phase is Settling && !t.run.after(reply).running() {
        t.inner.lemma_fits_release(t.plan, after.regs);
    }
}

/// A transfer that goes as it should goes on so.
pub proof fn lemma_transfer_goes_step(
    t: TransferState,
    hw: Hw,
    base: Seq<(u8, u32, Error)>,
    reply: Reply,
)
    requires
        transfer_goes(t, hw, base),
    ensures
        transfer_goes(t.after(reply), hw.dealt(t.inner, t.action(), reply), base),
        t.after(reply).plan == t.plan,
        t.after(reply).inner == t.inner,
{
    match t.phase {
        Phase::Prelude => lemma_prelude_goes(t, hw, base, reply),
        Phase::Armed => lemma_armed_goes(t, hw, base, reply),
        Phase::Polling => lemma_polling_goes(t, hw, base, reply),
        Phase::Closing => lemma_closing_goes(t, hw, base, reply),
        Phase::Settling(_) => lemma_giving_up_goes(t, hw, base, reply),
        Phase::Releasing(_) => lemma_giving_up_goes(t, hw, base, reply),
        _ => {},
    }
}

/// What is due is in order: a command fits, and data is only waited for once the peripheral was
/// told all of it and its end raises an interrupt.
pub open spec fn in_order(inner: SdmmcInner, timeout: u32, hw: Hw, action: Action) -> bool {
    match action {
        Action::Write(RegWrite::Cmdr(c)) => hw.regs.fits(inner.version, timeout, c),
        Action::PollStatus | Action::Suspend => hw.regs.awaits_data(inner.version, timeout),
        _ => true,
    }
}

/// What a transfer that goes as it should says of the peripheral.
pub proof fn lemma_transfer_goes(t: TransferState, hw: Hw, base: Seq<(u8, u32, Error)>)
    requires
        transfer_goes(t, hw, base),
    ensures
        in_order(t.inner, t.plan.timeout, hw, t.action()),
        match t.phase {
            Phase::Finished(Ok(_)) => {
                &&& hw.faults == base
                &&& saw_good_end(hw)
                &&& hw.regs.paused >= t.plan.settle
                &&& hw.regs.waits is None
                &&& t.plan.buffer == Buffer::Scratch ==> t.words == hw.words
            },
            Phase::Finished(Err(e)) => {
                &&& one_fault_more(hw.faults, base, e)
                &&& hw.regs.waits is None
            },
            Phase::Settling(e) => one_fault_more(hw.faults, base, e),
            Phase::Releasing(e) => one_fault_more(hw.faults, base, e),
            _ => hw.faults == base,
        },
        t.phase is Finished <==> t.action() is Done,
        t.phase is Settling || t.phase is Releasing ==> (t.action() matches Action::Write(
            RegWrite::Cmdr(c),
        ) ==> c.cmdindex == 12),
{
    match t.phase {
        Phase::Prelude => {
            let armed = t.inner.armed_steps(t.plan);
            lemma_straight_transfer(t.inner, t.plan);
            lemma_fits_step(
                t.run,
                t.run.steps + armed,
                hw,
                t.plan.timeout,
                Aim::Data,
                Reply::Ack,
            );
        },
        Phase::Armed => {
            lemma_fits_step(t.run, t.run.steps, hw, t.plan.timeout, Aim::Data, Reply::Ack);
        },
        Phase::Closing | Phase::Settling(_) | Phase::Releasing(_) => {
            lemma_fits_step(t.run, t.run.steps, hw, t.plan.timeout, Aim::Strict, Reply::Ack);
        },
        _ => {},
    }
}

/// What was sent, as the peripheral shows it.
pub open spec fn sent_by(hw: Hw) -> Sent {
    Sent { argument: hw.regs.argument, commands: hw.commands }
}

/// The peripheral keeps account of what was sent.
pub proof fn lemma_sent_by(hw: Hw, inner: SdmmcInner, action: Action, reply: Reply)
    ensures
        sent_by(hw.dealt(inner, action, reply)) == sent_by(hw).dealt(action, reply),
{
}

/// A transfer after a row of replies goes as it should, and has sent its commands.
proof fn lemma_replay_goes(inner: SdmmcInner, plan: Plan, hw: Hw, replies: Seq<Reply>)
    requires
        agrees(plan),
        plan.block_length is Some || hw.regs.waits is None && !hw.regs.after_app(),
    ensures
        ({
            let (t, after) = replay_transfer(TransferState::start(inner, plan), hw, replies);
            &&& transfer_goes(t, after, hw.faults)
            &&& transfer_sent(t, sent_by(after), hw.commands)
            &&& t.plan == plan
            &&& t.inner == inner
        }),
    decreases replies.len(),
{
    let start = TransferState::start(inner, plan);
    if replies.len() == 0 {
        lemma_transfer_goes_start(inner, plan, hw);
        lemma_transfer_sent_start(inner, plan, sent_by(hw));
    } else {
        lemma_replay_goes(inner, plan, hw, replies.drop_last());
        let (t, after) = replay_transfer(start, hw, replies.drop_last());
        lemma_transfer_goes_step(t, after, hw.faults, replies.last());
        lemma_transfer_sent_step(t, sent_by(after), hw.commands, replies.last());
        lemma_sent_by(after, t.inner, t.action(), replies.last());
    }
}

/// The argument by which a card of this capacity is told of a block: the number of its first byte
/// for an SDSC card, its own number for any other.
pub open spec fn names_block(capacity: CardCapacity, block_idx: int, argument: u32) -> bool {
    &&& capacity == CardCapacity::SDSC ==> argument == block_idx * 512
    &&& capacity == CardCapacity::SDHC ==> argument == block_idx
}

/// A block can be named to a card of this capacity: the number of its first byte fits where one is
/// asked for.
pub open spec fn nameable(capacity: CardCapacity, block_idx: u32) -> bool {
    capacity == CardCapacity::SDSC ==> block_idx * 512 <= 0xFFFF_FFFF
}

/// Every block that can be named lies where it is named, and is taken to have an address.
pub proof fn law_block_is_named(capacity: CardCapacity, block_idx: u32)
    ensures
        nameable(capacity, block_idx) <==> block_address(capacity, block_idx) <= u32::MAX,
        nameable(capacity, block_idx) ==> names_block(
            capacity,
            block_idx as int,
            block_address(capacity, block_idx) as u32,
        ),
{
}

/// At every moment of reading a block what is due is in order. Reading that went well has sent the
/// card CMD16 for 512 bytes and CMD17 with the address of the block, nothing else, has seen nothing
/// go wrong and the data end well; reading that failed tells the one thing that went wrong.
pub proof fn law_block_is_read(
    inner: SdmmcInner,
    capacity: CardCapacity,
    block_idx: u32,
    timeout: u32,
    hw: Hw,
    replies: Seq<Reply>,
)
    requires
        block_address(capacity, block_idx) <= u32::MAX,
    ensures
        ({
            let plan = read_block_plan(block_address(capacity, block_idx) as u32, timeout);
            let (t, after) = replay_transfer(TransferState::start(inner, plan), hw, replies);
            &&& in_order(inner, timeout, after, t.action())
            &&& match t.action() {
                Action::Done(Ok(_)) => {
                    &&& after.commands.len() == hw.commands.len() + 2
                    &&& after.commands.take(hw.commands.len() as int) == hw.commands
                    &&& after.commands[hw.commands.len() as int] == (16u8, 512u32)
                    &&& after.commands.last().0 == 17
                    &&& names_block(capacity, block_idx as int, after.commands.last().1)
                    &&& after.faults == hw.faults
                    &&& saw_good_end(after)
                },
                Action::Done(Err(e)) => one_fault_more(after.faults, hw.faults, e),
                _ => true,
            }
        }),
{
    let plan = read_block_plan(block_address(capacity, block_idx) as u32, timeout);
    let (t, after) = replay_transfer(TransferState::start(inner, plan), hw, replies);
    lemma_replay_goes(inner, plan, hw, replies);
    lemma_transfer_goes(t, after, hw.faults);
    assert(after.commands.take(hw.commands.len() as int) =~= hw.commands || !(t.action()
        matches Action::Done(r) && r is Ok));
}

/// At every moment of reading the configuration register or the SD status of a card what is due is
/// in order. Reading that went well has announced how many bytes there are, 8 or 64, has sent CMD55
/// with the address of the card in the upper half and then the command, and hands out what the card
/// sent.
pub proof fn law_register_is_read(
    inner: SdmmcInner,
    plan: Plan,
    rca: u32,
    timeout: u32,
    hw: Hw,
    replies: Seq<Reply>,
)
    requires
        plan == scr_plan(rca, timeout) || plan == sd_status_plan(rca, timeout),
    ensures
        ({
            let (t, after) = replay_transfer(TransferState::start(inner, plan), hw, replies);
            &&& in_order(inner, timeout, after, t.action())
            &&& match t.action() {
                Action::Done(Ok(_)) => {
                    let n = hw.commands.len() as int;
                    &&& after.commands.len() == n + 3
                    &&& after.commands.take(n) == hw.commands
                    &&& after.commands[n] == (16u8, if plan == scr_plan(rca, timeout) {
                        8u32
                    } else {
                        64u32
                    })
                    &&& after.commands[n + 1].0 == 55
                    &&& after.commands[n + 1].1 == rca % 0x1_0000 * 0x1_0000
                    &&& after.commands[n + 2] == (if plan == scr_plan(rca, timeout) {
                        51u8
                    } else {
                        13u8
                    }, 0u32)
                    &&& t.words == after.words
                    &&& after.faults == hw.faults
                    &&& saw_good_end(after)
                },
                Action::Done(Err(e)) => one_fault_more(after.faults, hw.faults, e),
                _ => true,
            }
        }),
{
    let (t, after) = replay_transfer(TransferState::start(inner, plan), hw, replies);
    lemma_replay_goes(inner, plan, hw, replies);
    lemma_transfer_goes(t, after, hw.faults);
    assert(after.commands.take(hw.commands.len() as int) =~= hw.commands || !(t.action()
        matches Action::Done(r) && r is Ok));
}

/// At every moment of a switch what is due is in order. A switch that went well has sent the card
/// CMD6 with the argument that the scheme goes by, has let three hundred idle instructions pass,
/// and hands out what the card sent.
pub proof fn law_scheme_is_switched(
    inner: SdmmcInner,
    signalling: Signalling,
    timeout: u32,
    hw: Hw,
    replies: Seq<Reply>,
)
    requires
        hw.regs.waits is None,
        !hw.regs.after_app(),
    ensures
        ({
            let plan = switch_plan(signalling, timeout);
            let (t, after) = replay_transfer(TransferState::start(inner, plan), hw, replies);
            &&& in_order(inner, timeout, after, t.action())
            &&& match t.action() {
                Action::Done(Ok(_)) => {
                    &&& after.commands == hw.commands.push(
                        (
                            6u8,
                            match signalling {
                                Signalling::DDR50 => 0x80FF_FF04u32,
                                Signalling::SDR104 => 0x80FF_1F03,
                                Signalling::SDR50 => 0x80FF_1F02,
                                Signalling::SDR25 => 0x80FF_FF01,
                                Signalling::SDR12 => 0x80FF_FF00,
                            },
                        ),
                    )
                    &&& after.regs.paused >= 300
                    &&& t.words == after.words
                    &&& after.faults == hw.faults
                    &&& saw_good_end(after)
                },
                Action::Done(Err(e)) => one_fault_more(after.faults, hw.faults, e),
                _ => true,
            }
        }),
{
    let plan = switch_plan(signalling, timeout);
    let (t, after) = replay_transfer(TransferState::start(inner, plan), hw, replies);
    lemma_replay_goes(inner, plan, hw, replies);
    lemma_transfer_goes(t, after, hw.faults);
    if t.phase matches Phase::Finished(r) && r is Ok {
        assert(hw.commands + plan_commands(plan) =~= hw.commands.push(
            (plan.command.cmd, plan.command.arg),
        ));
    }
}

/// The data path was seen at rest, and all flags were cleared since the last command.
pub open spec fn at_rest(version: Version, hw: Hw) -> bool {
    &&& hw.data_rests
    &&& hw.regs.cleared matches Some(f) && clears_all(version, f)
}

/// A transfer that failed once it had touched the data path comes to rest.
spec fn comes_to_rest(t: TransferState, hw: Hw) -> bool {
    match t.phase {
        Phase::Releasing(_) => {
            &&& t.run.steps == t.inner.on_drop_steps()
            &&& t.run.inner == t.inner
            &&& t.run.running()
            &&& t.run.at >= 6 ==> hw.data_rests
            &&& t.run.at >= 8 ==> at_rest(t.inner.version, hw)
        },
        Phase::Finished(Err(_)) => t.touched() ==> at_rest(t.inner.version, hw),
        _ => true,
    }
}

proof fn lemma_comes_to_rest_step(t: TransferState, hw: Hw, reply: Reply)
    requires
        transfer_inv(t, hw, true),
        comes_to_rest(t, hw),
    ensures
        comes_to_rest(t.after(reply), hw.dealt(t.inner, t.action(), reply)),
{
    match t.phase {
        Phase::Polling | Phase::Suspended | Phase::Collecting | Phase::Finished(_) => {},
        _ => lemma_run_moves(t.run, reply),
    }
}

proof fn lemma_comes_to_rest(inner: SdmmcInner, plan: Plan, hw: Hw, replies: Seq<Reply>)
    requires
        hw.stopped(),
    ensures
        ({
            let (t, after) = replay_transfer(TransferState::start(inner, plan), hw, replies);
            transfer_inv(t, after, true) && comes_to_rest(t, after) && t.inner == inner
        }),
    decreases replies.len(),
{
    let start = TransferState::start(inner, plan);
    if replies.len() == 0 {
        lemma_transfer_start(inner, plan, hw, true);
    } else {
        let before = replies.drop_last();
        lemma_comes_to_rest(inner, plan, hw, before);
        let (t, halfway) = replay_transfer(start, hw, before);
        lemma_comes_to_rest_step(t, halfway, replies.last());
        lemma_transfer_step(t, halfway, true, replies.last());
    }
}

/// A transfer that failed once the data path had been made ready has seen the data path at rest
/// before it said so, with all flags cleared and no interrupt let through.
pub proof fn law_failed_transfer_comes_to_rest(
    inner: SdmmcInner,
    plan: Plan,
    hw: Hw,
    replies: Seq<Reply>,
)
    requires
        hw.stopped(),
    ensures
        ({
            let start = TransferState::start(inner, plan);
            let (t, after) = replay_transfer(start, hw, replies);
            t.failed() && armed_on_the_way(start, hw, replies) ==> at_rest(inner.version, after)
                && !after.interrupts
        }),
{
    lemma_comes_to_rest(inner, plan, hw, replies);
    law_touched_when_armed(inner, plan, hw, replies);
    law_transfer_lets_go(inner, plan, hw, replies);
}

/// A transfer that is given up asks for nothing to be done before the data path was made ready, and
/// nothing once the data has come to its end or the transfer is over; in between it asks for what
/// sets the peripheral to rest.
pub proof fn law_transfer_given_up(t: TransferState)
    ensures
        t.phase is Prelude || t.ended() || t.phase is Finished ==> t.abandon_steps().len() == 0,
        t.phase is Armed || t.phase is Polling || t.phase is Suspended || t.phase is Closing
            || t.phase is Settling || t.phase is Releasing ==> t.abandon_steps()
            == t.inner.on_drop_steps(),
{
}

} // verus!
