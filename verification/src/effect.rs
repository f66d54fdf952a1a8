//! What the driver's dealings leave behind in the peripheral, and what holds of every run of a
//! script or a transfer.
//!
//! `Hw` is what can be told of the peripheral from what was written to it and read from it.
//! The laws here are about `replies` of any length and content: whatever the peripheral and the
//! card answer, they hold.

use vstd::prelude::*;

use crate::bench::{
    command_busy, data_busy, shows_data_fault, shows_end, shows_fault, Regs,
};
use crate::inner::SdmmcInner;
use crate::registers::{Action, RegWrite, Reply, Star};
use crate::script::{answer, RunState, Step, Wait};
use crate::transfer::{block_address, read_block_plan, Phase, Plan, TransferState};
use crate::types::{CardCapacity, Error, Version};

verus! {

/// What can be told of the peripheral.
pub struct Hw {
    /// The power control field
    pub power: u8,
    /// The bus width field
    pub widbus: u8,
    /// The divisor field
    pub clkdiv: u16,
    /// Some flag of a data transfer can raise an interrupt
    pub interrupts: bool,
    /// The DMA is on
    pub dma: bool,
    /// The data path is told to move data
    pub dten: bool,
    /// When last seen, the command path was at rest, and no command was sent since
    pub command_rests: bool,
    /// The data path was seen at rest, and since then no command was sent and it was not set to
    /// work
    pub data_rests: bool,
    /// The registers, as they were written
    pub regs: Regs,
    /// The commands that were sent, each with its argument, in order
    pub commands: Seq<(u8, u32)>,
    /// What was seen to go wrong, in order: the command, its argument and the fault
    pub faults: Seq<(u8, u32, Error)>,
    /// The status that was seen last while data was under way
    pub polled: Option<Star>,
    /// What was taken from the scratch buffer last
    pub words: Seq<u32>,
}

impl Hw {
    /// Nothing moves data and nothing interrupts on its behalf.
    pub open spec fn released(self) -> bool {
        !self.dma && !self.dten && !self.interrupts
    }

    /// Nothing moves data.
    pub open spec fn stopped(self) -> bool {
        !self.dma && !self.dten
    }

    /// After a change.
    pub open spec fn written(self, w: RegWrite) -> Hw {
        Hw {
            regs: self.regs.written(w),
            commands: match w {
                RegWrite::Cmdr(c) => self.commands.push((c.cmdindex, self.regs.argument)),
                _ => self.commands,
            },
            ..self.changed(w)
        }
    }

    /// The settings and what moves data, after a change.
    pub open spec fn changed(self, w: RegWrite) -> Hw {
        match w {
            RegWrite::Clkcr(c) => Hw { widbus: c.widbus, clkdiv: c.clkdiv, ..self },
            RegWrite::Widbus(n) => Hw { widbus: n, ..self },
            RegWrite::Clkdiv(n) => Hw { clkdiv: n, ..self },
            RegWrite::Power(n) => Hw { power: n, ..self },
            RegWrite::Maskr(m) => Hw {
                interrupts: m.dcrcfailie || m.dtimeoutie || m.dataendie || m.dabortie,
                ..self
            },
            RegWrite::Cmdr(_) => Hw { command_rests: false, data_rests: false, ..self },
            RegWrite::Dctrl(c) => Hw {
                dma: match c.dmaen {
                    Some(b) => b,
                    None => self.dma,
                },
                dten: match c.dten {
                    Some(b) => b,
                    None => self.dten,
                },
                data_rests: self.data_rests && c.dtdir is None,
                ..self
            },
            RegWrite::Idmaen(b) => Hw { dma: b, ..self },
            _ => self,
        }
    }

    /// After a look at the status.
    pub open spec fn seen(self, inner: SdmmcInner, s: Star) -> Hw {
        let over = self.regs.waits matches Some(kind) && shows_end(kind, s);
        Hw {
            command_rests: !command_busy(inner.version, s),
            data_rests: self.data_rests || !data_busy(inner.version, s),
            regs: if over {
                self.regs.answered()
            } else {
                self.regs
            },
            faults: match shows_fault(s) {
                Some(e) => if over {
                    self.blamed(e)
                } else {
                    self.faults
                },
                None => self.faults,
            },
            ..self
        }
    }

    /// The faults with one more, of the last command.
    pub open spec fn blamed(self, e: Error) -> Seq<(u8, u32, Error)> {
        let index = match self.regs.last {
            Some(l) => l.0,
            None => 0,
        };
        self.faults.push((index, self.regs.last_argument, e))
    }

    /// After a look at the status while data is under way.
    pub open spec fn watched(self, inner: SdmmcInner, s: Star) -> Hw {
        let hw = self.seen(inner, s);
        Hw {
            polled: Some(s),
            faults: match shows_data_fault(s) {
                Some(e) => hw.blamed(e),
                None => hw.faults,
            },
            ..hw
        }
    }

    /// After an action and its reply.
    pub open spec fn dealt(self, inner: SdmmcInner, action: Action, reply: Reply) -> Hw {
        match (action, reply) {
            (Action::Write(w), Reply::Ack) => self.written(w),
            (Action::ReadStatus, Reply::Status(s)) => self.seen(inner, s),
            (Action::PollStatus, Reply::Status(s)) => self.watched(inner, s),
            (Action::ReadWords, Reply::Words(w)) => Hw { words: w@, ..self },
            (Action::Delay(n), Reply::Ack) => Hw { regs: self.regs.idled(n), ..self },
            _ => self,
        }
    }

    /// A change may be made now: a command is only sent to a command path at rest, and the clock,
    /// the bus width and the data path are only set while both paths are at rest.
    pub open spec fn admits(self, w: RegWrite) -> bool {
        match w {
            RegWrite::Argr(_) | RegWrite::Cmdr(_) => self.command_rests,
            RegWrite::Widbus(_) | RegWrite::Clkdiv(_) | RegWrite::Dtimer(_) | RegWrite::Dlenr(_)
            | RegWrite::StartDmaRead(_, _) | RegWrite::StartDmaWrite(_, _)
            | RegWrite::Idmabase0(_) => self.command_rests && self.data_rests,
            RegWrite::Idmaen(b) => b ==> self.command_rests && self.data_rests,
            RegWrite::Dctrl(c) => c.dtdir is Some ==> self.command_rests && self.data_rests,
            _ => true,
        }
    }
}

/// A script from step `at` on makes each change only when it may, if the command path and the
/// data path are known to be at rest as `c` and `d` say.
pub open spec fn careful(steps: Seq<Step>, at: nat, c: bool, d: bool) -> bool
    decreases steps.len() - at,
{
    if at >= steps.len() {
        true
    } else {
        match steps[at as int] {
            Step::Write(w) => {
                let hw = known(c, d);
                &&& hw.admits(w)
                &&& careful(
                    steps,
                    at + 1,
                    hw.written(w).command_rests,
                    hw.written(w).data_rests,
                )
            },
            Step::AwaitIdle(Wait::Command) => careful(steps, at + 1, true, false),
            Step::AwaitIdle(Wait::Data) => careful(steps, at + 1, false, true),
            Step::AwaitIdle(Wait::Both) => careful(steps, at + 1, true, true),
            Step::AwaitAnswer(_) => careful(steps, at + 1, false, false),
            Step::ReadResponse(_) => careful(steps, at + 1, c, d),
            Step::Delay(_) => careful(steps, at + 1, c, d),
            Step::IfDataActive(n) => {
                &&& careful(steps, at + 1, false, false)
                &&& at + 1 + n <= steps.len() && careful(steps, at + 1 + n as nat, false, false)
            },
        }
    }
}

/// A peripheral of which only this is known.
pub open spec fn known(c: bool, d: bool) -> Hw {
    Hw { command_rests: c, data_rests: d, ..arbitrary() }
}

/// No step of the script leaves others out.
pub open spec fn straight(steps: Seq<Step>) -> bool {
    forall|i: int| 0 <= i < steps.len() ==> !(#[trigger] steps[i] is IfDataActive)
}

/// A change that has nothing to do with moving data.
pub open spec fn apart_from_data(w: RegWrite) -> bool {
    !(w is Dctrl || w is Idmaen || w is Maskr)
}

/// No step of the script has anything to do with moving data.
pub open spec fn dataless(steps: Seq<Step>) -> bool {
    forall|i: int|
        0 <= i < steps.len() ==> (#[trigger] steps[i] matches Step::Write(w) ==> apart_from_data(w))
}

/// Knowing more does no harm.
proof fn lemma_careful_weaken(steps: Seq<Step>, at: nat, c: bool, d: bool, c2: bool, d2: bool)
    requires
        careful(steps, at, c, d),
        c ==> c2,
        d ==> d2,
    ensures
        careful(steps, at, c2, d2),
    decreases steps.len() - at,
{
    if at < steps.len() {
        match steps[at as int] {
            Step::Write(w) => {
                let hw = known(c, d).written(w);
                let hw2 = known(c2, d2).written(w);
                lemma_careful_weaken(
                    steps,
                    at + 1,
                    hw.command_rests,
                    hw.data_rests,
                    hw2.command_rests,
                    hw2.data_rests,
                );
            },
            Step::ReadResponse(_) => lemma_careful_weaken(steps, at + 1, c, d, c2, d2),
            Step::Delay(_) => lemma_careful_weaken(steps, at + 1, c, d, c2, d2),
            _ => {},
        }
    }
}

/// The second part of a script is as careful as on its own.
proof fn lemma_careful_shift(a: Seq<Step>, b: Seq<Step>, at: nat, c: bool, d: bool)
    ensures
        careful(a + b, a.len() + at, c, d) == careful(b, at, c, d),
    decreases b.len() - at,
{
    let s = a + b;
    if at < b.len() {
        assert(s[(a.len() + at) as int] == b[at as int]);
        match b[at as int] {
            Step::Write(w) => {
                let hw = known(c, d).written(w);
                lemma_careful_shift(a, b, at + 1, hw.command_rests, hw.data_rests);
            },
            Step::AwaitIdle(Wait::Command) => lemma_careful_shift(a, b, at + 1, true, false),
            Step::AwaitIdle(Wait::Data) => lemma_careful_shift(a, b, at + 1, false, true),
            Step::AwaitIdle(Wait::Both) => lemma_careful_shift(a, b, at + 1, true, true),
            Step::AwaitAnswer(_) => lemma_careful_shift(a, b, at + 1, false, false),
            Step::ReadResponse(_) => lemma_careful_shift(a, b, at + 1, c, d),
            Step::Delay(_) => lemma_careful_shift(a, b, at + 1, c, d),
            Step::IfDataActive(n) => {
                lemma_careful_shift(a, b, at + 1, false, false);
                if at + 1 + n <= b.len() {
                    lemma_careful_shift(a, b, at + 1 + n as nat, false, false);
                }
            },
        }
    }
}

/// Careful scripts one after the other make a careful script.
pub proof fn lemma_careful_join(a: Seq<Step>, b: Seq<Step>, at: nat, c: bool, d: bool)
    requires
        straight(a),
        careful(a, at, c, d),
        at <= a.len(),
        careful(b, 0, false, false),
    ensures
        careful(a + b, at, c, d),
    decreases a.len() - at,
{
    let s = a + b;
    if at == a.len() {
        lemma_careful_shift(a, b, 0, c, d);
        lemma_careful_weaken(b, 0, false, false, c, d);
    } else {
        assert(s[at as int] == a[at as int]);
        match a[at as int] {
            Step::Write(w) => {
                let hw = known(c, d).written(w);
                lemma_careful_join(a, b, at + 1, hw.command_rests, hw.data_rests);
            },
            Step::AwaitIdle(Wait::Command) => lemma_careful_join(a, b, at + 1, true, false),
            Step::AwaitIdle(Wait::Data) => lemma_careful_join(a, b, at + 1, false, true),
            Step::AwaitIdle(Wait::Both) => lemma_careful_join(a, b, at + 1, true, true),
            Step::AwaitAnswer(_) => lemma_careful_join(a, b, at + 1, false, false),
            Step::ReadResponse(_) => lemma_careful_join(a, b, at + 1, c, d),
            Step::Delay(_) => lemma_careful_join(a, b, at + 1, c, d),
            Step::IfDataActive(_) => {},
        }
    }
}

impl SdmmcInner {
    /// Sending a command is careful and has nothing to do with moving data.
    pub proof fn lemma_cmd(self, cmd: crate::cmd::Cmd, data: bool)
        ensures
            careful(self.cmd_steps(cmd, data), 0, false, false),
            straight(self.cmd_steps(cmd, data)),
            dataless(self.cmd_steps(cmd, data)),
    {
        reveal_with_fuel(careful, 6);
    }

    /// The commands before a transfer are careful and have nothing to do with moving data.
    proof fn lemma_prelude(self, plan: Plan)
        ensures
            careful(self.prelude_steps(plan), 0, false, false),
            dataless(self.prelude_steps(plan)),
    {
        let empty = Seq::<Step>::empty();
        match plan.block_length {
            Some(n) => self.lemma_cmd(crate::cmd::short_cmd(16, n), false),
            None => {},
        }
        match plan.app {
            Some(rca) => self.lemma_cmd(crate::cmd::short_cmd(55, rca), false),
            None => {},
        }
        let a = match plan.block_length {
            Some(n) => self.cmd_steps(crate::cmd::short_cmd(16, n), false),
            None => empty,
        };
        let b = match plan.app {
            Some(rca) => self.cmd_steps(crate::cmd::short_cmd(55, rca), false),
            None => empty,
        };
        lemma_careful_join(a, b, 0, false, false);
    }

    /// Getting the data path ready is careful.
    proof fn lemma_prepare(self, plan: Plan)
        ensures
            ({
                let p = self.prepare_steps(
                    plan.buffer,
                    plan.read,
                    plan.size.in_bytes(),
                    plan.size.log2(),
                    plan.timeout,
                );
                careful(p, 0, false, false) && straight(p)
            }),
    {
        let p = self.prepare_steps(
            plan.buffer,
            plan.read,
            plan.size.in_bytes(),
            plan.size.log2(),
            plan.timeout,
        );
        if self.version == Version::V1 {
            assert(careful(p, 6, true, false));
            assert(careful(p, 5, true, true));
        } else {
            assert(careful(p, 7, true, false));
            assert(careful(p, 6, true, true));
            assert(careful(p, 5, true, true));
        }
        assert(careful(p, 4, true, true));
        assert(careful(p, 3, true, true));
        assert(careful(p, 2, true, true));
        assert(careful(p, 1, true, true));
    }

    /// Starting the data is careful; revision 2 never uses the enable bit of revision 1.
    proof fn lemma_armed(self, plan: Plan)
        ensures
            careful(self.armed_steps(plan), 0, false, false),
            self.version == Version::V2 ==> forall|i: int|
                0 <= i < self.armed_steps(plan).len() ==> (
                #[trigger] self.armed_steps(plan)[i] matches Step::Write(RegWrite::Dctrl(ch))
                    ==> ch.dten is None),
    {
        let p = self.prepare_steps(
            plan.buffer,
            plan.read,
            plan.size.in_bytes(),
            plan.size.log2(),
            plan.timeout,
        );
        let m = seq![Step::Write(self.mask_data(true))];
        self.lemma_prepare(plan);
        assert(careful(m, 0, false, false)) by {
            reveal_with_fuel(careful, 2);
        }
        lemma_careful_join(p, m, 0, false, false);
        self.lemma_cmd(plan.command, true);
        lemma_careful_join(p + m, self.cmd_steps(plan.command, true), 0, false, false);
    }

    /// What follows on the data is careful.
    proof fn lemma_ending(self, plan: Plan)
        ensures
            careful(self.settle_steps(plan), 0, false, false),
            careful(self.closing_steps(plan), 0, false, false),
            careful(self.on_drop_steps(), 0, false, false),
    {
        reveal_with_fuel(careful, 4);
        self.lemma_release();
    }

    /// Setting the peripheral to rest is careful.
    proof fn lemma_release(self)
        ensures
            careful(self.on_drop_steps(), 0, false, false),
    {
        reveal_with_fuel(careful, 10);
    }
}

/// A run of a script that is due to do something does it carefully.
pub open spec fn run_careful(r: RunState, hw: Hw) -> bool {
    &&& careful(r.steps, r.at, hw.command_rests, hw.data_rests)
    &&& r.halfway ==> hw.data_rests
}

/// Carefulness outlasts a reply.
pub proof fn lemma_run_step(r: RunState, hw: Hw, reply: Reply)
    requires
        run_careful(r, hw),
    ensures
        r.action() matches Action::Write(w) ==> hw.admits(w),
        run_careful(r.after(reply), hw.dealt(r.inner, r.action(), reply)),
{
    if r.running() {
        let next = hw.dealt(r.inner, r.action(), reply);
        let c = hw.command_rests;
        let d = hw.data_rests;
        match (r.steps[r.at as int], reply) {
            (Step::Write(w), Reply::Ack) => {
                assert(known(c, d).written(w).command_rests == next.command_rests);
                assert(known(c, d).written(w).data_rests == next.data_rests);
            },
            (Step::AwaitIdle(Wait::Command), Reply::Status(s)) => {
                if !r.inner.cmd_active_spec(s) {
                    lemma_careful_weaken(
                        r.steps,
                        r.at + 1,
                        true,
                        false,
                        next.command_rests,
                        next.data_rests,
                    );
                }
            },
            (Step::AwaitIdle(Wait::Data), Reply::Status(s)) => {
                if !r.inner.data_active_spec(s) {
                    lemma_careful_weaken(
                        r.steps,
                        r.at + 1,
                        false,
                        true,
                        next.command_rests,
                        next.data_rests,
                    );
                }
            },
            (Step::AwaitIdle(Wait::Both), Reply::Status(s)) => {
                if r.halfway && !r.inner.cmd_active_spec(s) {
                    lemma_careful_weaken(
                        r.steps,
                        r.at + 1,
                        true,
                        true,
                        next.command_rests,
                        next.data_rests,
                    );
                }
            },
            (Step::AwaitAnswer(resp), Reply::Status(s)) => {
                if answer(resp, s) matches Some(Ok(_)) {
                    lemma_careful_weaken(
                        r.steps,
                        r.at + 1,
                        false,
                        false,
                        next.command_rests,
                        next.data_rests,
                    );
                }
            },
            (Step::IfDataActive(n), Reply::Status(s)) => {
                let at = if r.inner.data_active_spec(s) {
                    r.at + 1
                } else {
                    r.at + 1 + n as nat
                };
                lemma_careful_weaken(
                    r.steps,
                    at,
                    false,
                    false,
                    next.command_rests,
                    next.data_rests,
                );
            },
            _ => {},
        }
    }
}

/// A transfer and the peripheral after a row of replies.
pub open spec fn replay_transfer(t: TransferState, hw: Hw, replies: Seq<Reply>) -> (
    TransferState,
    Hw,
)
    decreases replies.len(),
{
    if replies.len() == 0 {
        (t, hw)
    } else {
        let (t, hw) = replay_transfer(t, hw, replies.drop_last());
        (t.after(replies.last()), hw.dealt(t.inner, t.action(), replies.last()))
    }
}

/// What ties a transfer to the peripheral at every moment. `before` tells whether interrupts were
/// let through before it began.
pub open spec fn transfer_inv(t: TransferState, hw: Hw, before: bool) -> bool {
    let inner = t.inner;
    let run = t.run;
    &&& inner.version == Version::V2 ==> !hw.dten
    &&& match t.phase {
        Phase::Prelude => {
            &&& hw.stopped()
            &&& hw.interrupts ==> before
            &&& run.steps == inner.prelude_steps(t.plan)
        },
        Phase::Armed => run.steps == inner.armed_steps(t.plan),
        Phase::Closing => run.steps == inner.closing_steps(t.plan),
        Phase::Collecting => hw.stopped(),
        Phase::Settling(_) => run.steps == inner.settle_steps(t.plan),
        Phase::Releasing(_) => {
            &&& run.steps == inner.on_drop_steps()
            &&& run.at >= 7 ==> !hw.interrupts
        },
        Phase::Finished(Ok(_)) => hw.stopped(),
        Phase::Finished(Err(_)) => hw.stopped() && (hw.interrupts ==> before && !t.touched()),
        _ => true,
    }
    &&& match t.phase {
        Phase::Polling | Phase::Suspended | Phase::Collecting | Phase::Finished(_) => true,
        _ => {
            &&& run.inner == inner
            &&& run.running()
            &&& run_careful(run, hw)
        },
    }
}

/// A transfer starts out tied to a peripheral at rest.
pub proof fn lemma_transfer_start(inner: SdmmcInner, plan: Plan, hw: Hw, before: bool)
    requires
        hw.stopped(),
        hw.interrupts ==> before,
    ensures
        transfer_inv(TransferState::start(inner, plan), hw, before),
{
    let t = TransferState::start(inner, plan);
    inner.lemma_prelude(plan);
    inner.lemma_armed(plan);
    lemma_careful_weaken(t.run.steps, 0, false, false, hw.command_rests, hw.data_rests);
}

/// A reply moves a script on by one step, or leaves it where it is; only a look at the data path
/// skips steps.
pub proof fn lemma_run_moves(r: RunState, reply: Reply)
    requires
        r.running(),
    ensures
        ({
            let n = r.after(reply);
            &&& n.steps == r.steps
            &&& n.inner == r.inner
            &&& n.running() || n.action() == Action::Done(n.result())
            &&& n.at == r.at || n.at == r.at + 1 || r.steps[r.at as int] is IfDataActive
            &&& n.at != r.at ==> n.failed is None
            &&& r.steps[r.at as int] matches Step::Write(w) ==> (n.at == r.at) == !(reply is Ack)
            &&& n.failed is Some ==> r.steps[r.at as int] is AwaitAnswer
        }),
{
}

/// A step that has nothing to do with moving data leaves that as it is.
pub proof fn lemma_dataless_step(r: RunState, hw: Hw, reply: Reply)
    requires
        r.running(),
        r.steps[r.at as int] matches Step::Write(w) ==> apart_from_data(w),
    ensures
        ({
            let n = hw.dealt(r.inner, r.action(), reply);
            n.dma == hw.dma && n.dten == hw.dten && n.interrupts == hw.interrupts
        }),
{
}

proof fn lemma_prelude_step(t: TransferState, hw: Hw, before: bool, reply: Reply)
    requires
        transfer_inv(t, hw, before),
        t.phase is Prelude,
    ensures
        transfer_inv(t.after(reply), hw.dealt(t.inner, t.action(), reply), before),
{
    let after = hw.dealt(t.inner, t.action(), reply);
    t.inner.lemma_prelude(t.plan);
    lemma_run_moves(t.run, reply);
    lemma_run_step(t.run, hw, reply);
    lemma_dataless_step(t.run, hw, reply);
    let r = t.run.after(reply);
    if !r.running() && r.failed is None {
        t.inner.lemma_armed(t.plan);
        lemma_careful_weaken_start(t.inner.armed_steps(t.plan), after);
        assert(t.inner.armed_steps(t.plan).len() > 0);
    }
}

proof fn lemma_armed_step(t: TransferState, hw: Hw, before: bool, reply: Reply)
    requires
        transfer_inv(t, hw, before),
        t.phase is Armed,
    ensures
        transfer_inv(t.after(reply), hw.dealt(t.inner, t.action(), reply), before),
{
    let after = hw.dealt(t.inner, t.action(), reply);
    t.inner.lemma_armed(t.plan);
    lemma_run_moves(t.run, reply);
    lemma_run_step(t.run, hw, reply);
    assert(t.inner.version == Version::V2 ==> !after.dten);
    let r = t.run.after(reply);
    if !r.running() && r.failed is Some {
        t.inner.lemma_ending(t.plan);
        lemma_careful_weaken_start(t.inner.on_drop_steps(), after);
    }
}

proof fn lemma_ending_step(t: TransferState, hw: Hw, before: bool, reply: Reply)
    requires
        transfer_inv(t, hw, before),
        t.phase is Polling || t.phase is Closing || t.phase is Settling,
    ensures
        transfer_inv(t.after(reply), hw.dealt(t.inner, t.action(), reply), before),
{
    let after = hw.dealt(t.inner, t.action(), reply);
    t.inner.lemma_ending(t.plan);
    if t.phase is Polling {
        lemma_careful_weaken_start(t.inner.closing_steps(t.plan), after);
        lemma_careful_weaken_start(t.inner.settle_steps(t.plan), after);
    } else {
        lemma_run_moves(t.run, reply);
        lemma_run_step(t.run, hw, reply);
        lemma_careful_weaken_start(t.inner.on_drop_steps(), after);
    }
}

proof fn lemma_releasing_step(t: TransferState, hw: Hw, before: bool, reply: Reply)
    requires
        transfer_inv(t, hw, before),
        t.phase is Releasing,
    ensures
        transfer_inv(t.after(reply), hw.dealt(t.inner, t.action(), reply), before),
{
    lemma_run_moves(t.run, reply);
    lemma_run_step(t.run, hw, reply);
}

/// The tie outlasts a reply, and no change is made before it may.
pub proof fn lemma_transfer_step(t: TransferState, hw: Hw, before: bool, reply: Reply)
    requires
        transfer_inv(t, hw, before),
    ensures
        t.action() matches Action::Write(w) ==> hw.admits(w),
        transfer_inv(t.after(reply), hw.dealt(t.inner, t.action(), reply), before),
        t.after(reply).inner == t.inner,
        t.after(reply).plan == t.plan,
{
    match t.phase {
        Phase::Suspended | Phase::Collecting | Phase::Finished(_) => {},
        Phase::Polling => lemma_ending_step(t, hw, before, reply),
        Phase::Prelude => {
            lemma_run_step(t.run, hw, reply);
            lemma_prelude_step(t, hw, before, reply);
        },
        Phase::Armed => {
            lemma_run_step(t.run, hw, reply);
            lemma_armed_step(t, hw, before, reply);
        },
        Phase::Releasing(_) => {
            lemma_run_step(t.run, hw, reply);
            lemma_releasing_step(t, hw, before, reply);
        },
        _ => {
            lemma_run_step(t.run, hw, reply);
            lemma_ending_step(t, hw, before, reply);
        },
    }
}

/// The same power, bus width and divisor.
pub open spec fn same_settings(a: Hw, b: Hw) -> bool {
    a.power == b.power && a.widbus == b.widbus && a.clkdiv == b.clkdiv
}

/// A reply to a transfer keeps the settings.
pub proof fn lemma_transfer_settings(t: TransferState, hw: Hw, reply: Reply)
    requires
        transfer_inv(t, hw, true),
    ensures
        same_settings(hw.dealt(t.inner, t.action(), reply), hw),
{
}

/// A script that is careful knowing nothing is careful whatever is known.
pub proof fn lemma_careful_weaken_start(steps: Seq<Step>, hw: Hw)
    ensures
        careful(steps, 0, false, false) ==> careful(steps, 0, hw.command_rests, hw.data_rests),
{
    if careful(steps, 0, false, false) {
        lemma_careful_weaken(steps, 0, false, false, hw.command_rests, hw.data_rests);
    }
}

proof fn lemma_replay_transfer(t: TransferState, hw: Hw, before: bool, replies: Seq<Reply>)
    requires
        transfer_inv(t, hw, before),
    ensures
        ({
            let (t2, hw2) = replay_transfer(t, hw, replies);
            transfer_inv(t2, hw2, before) && t2.inner == t.inner && t2.plan == t.plan
        }),
    decreases replies.len(),
{
    if replies.len() > 0 {
        lemma_replay_transfer(t, hw, before, replies.drop_last());
        let (t2, hw2) = replay_transfer(t, hw, replies.drop_last());
        lemma_transfer_step(t2, hw2, before, replies.last());
    }
}

/// The data path was made ready on the way.
pub open spec fn armed_on_the_way(t: TransferState, hw: Hw, replies: Seq<Reply>) -> bool
    decreases replies.len(),
{
    ||| replay_transfer(t, hw, replies).0.phase is Armed
    ||| replies.len() > 0 && armed_on_the_way(t, hw, replies.drop_last())
}

/// Once the data path was made ready, it no longer matters what interrupts were let through
/// before.
proof fn lemma_armed_on_the_way(t: TransferState, hw: Hw, replies: Seq<Reply>)
    requires
        transfer_inv(t, hw, true),
    ensures
        ({
            let (t2, hw2) = replay_transfer(t, hw, replies);
            armed_on_the_way(t, hw, replies) ==> transfer_inv(t2, hw2, false) && !(t2.phase
                is Prelude)
        }),
    decreases replies.len(),
{
    if replies.len() > 0 {
        let before = replies.drop_last();
        lemma_armed_on_the_way(t, hw, before);
        lemma_replay_transfer(t, hw, true, before);
        let (t2, hw2) = replay_transfer(t, hw, before);
        lemma_transfer_step(t2, hw2, true, replies.last());
        if armed_on_the_way(t, hw, before) {
            lemma_transfer_step(t2, hw2, false, replies.last());
        }
    }
}

/// A transfer that is over has let go of the peripheral, however it went: the DMA is off and the
/// data path is not told to move anything. After a failure no interrupt can come of it either,
/// unless it failed before it touched the data path and interrupts were let through already.
pub proof fn law_transfer_lets_go(inner: SdmmcInner, plan: Plan, hw: Hw, replies: Seq<Reply>)
    requires
        hw.stopped(),
    ensures
        ({
            let start = TransferState::start(inner, plan);
            let (t, after) = replay_transfer(start, hw, replies);
            let masked = armed_on_the_way(start, hw, replies) || !hw.interrupts;
            t.phase matches Phase::Finished(r) ==> after.stopped() && (r is Err && masked
                ==> !after.interrupts)
        }),
{
    let start = TransferState::start(inner, plan);
    lemma_transfer_start(inner, plan, hw, hw.interrupts);
    lemma_transfer_start(inner, plan, hw, true);
    lemma_replay_transfer(start, hw, hw.interrupts, replies);
    lemma_armed_on_the_way(start, hw, replies);
}

proof fn lemma_touched_step(t: TransferState, hw: Hw, reply: Reply)
    requires
        transfer_inv(t, hw, true),
    ensures
        ({
            let n = t.after(reply);
            n.touched() <==> t.touched() || n.phase is Armed
        }),
{
    match t.phase {
        Phase::Polling | Phase::Suspended | Phase::Collecting | Phase::Finished(_) => {},
        _ => lemma_run_moves(t.run, reply),
    }
}

/// A transfer has touched the data path exactly when the data path was made ready on the way.
pub proof fn law_touched_when_armed(inner: SdmmcInner, plan: Plan, hw: Hw, replies: Seq<Reply>)
    requires
        hw.stopped(),
    ensures
        ({
            let start = TransferState::start(inner, plan);
            replay_transfer(start, hw, replies).0.touched() <==> armed_on_the_way(
                start,
                hw,
                replies,
            )
        }),
    decreases replies.len(),
{
    if replies.len() > 0 {
        let before = replies.drop_last();
        let start = TransferState::start(inner, plan);
        law_touched_when_armed(inner, plan, hw, before);
        lemma_transfer_start(inner, plan, hw, true);
        lemma_replay_transfer(start, hw, true, before);
        let (t, halfway) = replay_transfer(start, hw, before);
        lemma_touched_step(t, halfway, replies.last());
    }
}

/// Whether interrupts may be let through after a reply to a transfer, where `open` tells whether
/// they might be before it: a transfer that touched the data path leaves them let through when it
/// goes well, and masked when it fails; one that fails earlier leaves them as they were.
pub open spec fn stays_open(open: bool, t: TransferState, reply: Reply) -> bool {
    let n = t.after(reply);
    match n.action() {
        Action::Done(Ok(_)) => true,
        Action::Done(Err(_)) => open && !n.touched(),
        _ => open,
    }
}

/// A transfer that a reply has brought to its end leaves interrupts masked unless they may be let
/// through.
pub proof fn lemma_stays_open(open: bool, t: TransferState, hw: Hw, reply: Reply)
    requires
        transfer_inv(t, hw, open),
        !(t.phase is Finished),
    ensures
        ({
            let n = t.after(reply);
            let after = hw.dealt(t.inner, t.action(), reply);
            if n.action() is Done {
                &&& n.phase == Phase::Finished(n.action()->Done_0)
                &&& after.interrupts ==> stays_open(open, t, reply)
            } else {
                transfer_inv(n, after, stays_open(open, t, reply))
            }
        }),
{
    lemma_transfer_step(t, hw, open, reply);
}

/// A transfer leaves the power, the bus width and the divisor alone.
pub proof fn law_transfer_keeps_settings(
    inner: SdmmcInner,
    plan: Plan,
    hw: Hw,
    replies: Seq<Reply>,
)
    requires
        hw.stopped(),
    ensures
        same_settings(replay_transfer(TransferState::start(inner, plan), hw, replies).1, hw),
    decreases replies.len(),
{
    if replies.len() > 0 {
        let before = replies.drop_last();
        let start = TransferState::start(inner, plan);
        law_transfer_keeps_settings(inner, plan, hw, before);
        lemma_transfer_start(inner, plan, hw, true);
        lemma_replay_transfer(start, hw, true, before);
        let (t, halfway) = replay_transfer(start, hw, before);
        lemma_transfer_settings(t, halfway, replies.last());
    }
}

/// In a transfer, no command is sent before the command path was seen at rest, and the data path
/// is not touched before both paths were.
pub proof fn law_transfer_is_careful(inner: SdmmcInner, plan: Plan, hw: Hw, replies: Seq<Reply>)
    requires
        hw.stopped(),
    ensures
        ({
            let (t, after) = replay_transfer(TransferState::start(inner, plan), hw, replies);
            t.action() matches Action::Write(w) ==> after.admits(w)
        }),
{
    lemma_transfer_start(inner, plan, hw, hw.interrupts);
    lemma_replay_transfer(TransferState::start(inner, plan), hw, hw.interrupts, replies);
    let (t, after) = replay_transfer(TransferState::start(inner, plan), hw, replies);
    lemma_transfer_step(t, after, hw.interrupts, Reply::Ack);
}

/// A script and the peripheral after a row of replies.
pub open spec fn replay_run(r: RunState, hw: Hw, replies: Seq<Reply>) -> (RunState, Hw)
    decreases replies.len(),
{
    if replies.len() == 0 {
        (r, hw)
    } else {
        let (r, hw) = replay_run(r, hw, replies.drop_last());
        (r.after(replies.last()), hw.dealt(r.inner, r.action(), replies.last()))
    }
}

/// What ties the script that sets the peripheral to rest to the peripheral at every moment.
spec fn release_inv(inner: SdmmcInner, r: RunState, hw: Hw) -> bool {
    &&& inner.version == Version::V2 ==> !hw.dten
    &&& r.inner == inner
    &&& r.steps == inner.on_drop_steps()
    &&& r.failed is None
    &&& r.at <= r.steps.len()
    &&& r.at >= 7 ==> !hw.interrupts
    &&& r.at >= 9 ==> hw.stopped()
    &&& run_careful(r, hw)
}

proof fn lemma_replay_release(inner: SdmmcInner, hw: Hw, replies: Seq<Reply>)
    requires
        inner.version == Version::V2 ==> !hw.dten,
    ensures
        ({
            let (r, after) = replay_run(
                RunState::start(inner, inner.on_drop_steps()),
                hw,
                replies,
            );
            release_inv(inner, r, after)
        }),
    decreases replies.len(),
{
    let start = RunState::start(inner, inner.on_drop_steps());
    if replies.len() == 0 {
        inner.lemma_release();
        lemma_careful_weaken_start(inner.on_drop_steps(), hw);
    } else {
        lemma_replay_release(inner, hw, replies.drop_last());
        let (r, after) = replay_run(start, hw, replies.drop_last());
        lemma_run_step(r, after, replies.last());
        if r.running() {
            lemma_run_moves(r, replies.last());
        }
    }
}

/// Once the peripheral has been set to rest, nothing moves data and nothing interrupts on its
/// behalf, whatever went before; and the abort is only sent to a command path seen at rest.
pub proof fn law_on_drop_releases(inner: SdmmcInner, hw: Hw, replies: Seq<Reply>)
    requires
        inner.version == Version::V2 ==> !hw.dten,
    ensures
        ({
            let (r, after) = replay_run(
                RunState::start(inner, inner.on_drop_steps()),
                hw,
                replies,
            );
            &&& !r.running() ==> r.failed is None && after.released()
            &&& r.action() matches Action::Write(w) ==> after.admits(w)
        }),
{
    lemma_replay_release(inner, hw, replies);
    let (r, after) = replay_run(RunState::start(inner, inner.on_drop_steps()), hw, replies);
    lemma_run_step(r, after, Reply::Ack);
}

/// Giving up a transfer that is tied to the peripheral lets go of it.
pub proof fn lemma_abandon_transfer(t: TransferState, hw: Hw, before: bool, more: Seq<Reply>)
    requires
        transfer_inv(t, hw, before),
    ensures
        ({
            let (r, after) = replay_run(RunState::start(t.inner, t.abandon_steps()), hw, more);
            !r.running() ==> after.stopped() && (after.interrupts ==> t.ended() || before
                && !t.touched())
        }),
{
    match t.phase {
        Phase::Prelude | Phase::Collecting | Phase::Finished(_) => lemma_replay_nothing(
            t.inner,
            hw,
            more,
        ),
        _ => law_on_drop_releases(t.inner, hw, more),
    }
}

/// A transfer can be given up at any moment: once what it then asks for is done, nothing moves
/// data, and no interrupt can come of it unless the data had come to its end, or the data path was
/// not touched yet and interrupts were let through already.
pub proof fn law_abandoned_transfer_lets_go(
    inner: SdmmcInner,
    plan: Plan,
    hw: Hw,
    replies: Seq<Reply>,
    more: Seq<Reply>,
)
    requires
        hw.stopped(),
    ensures
        ({
            let start = TransferState::start(inner, plan);
            let (t, halfway) = replay_transfer(start, hw, replies);
            let (r, after) = replay_run(
                RunState::start(inner, t.abandon_steps()),
                halfway,
                more,
            );
            let masked = armed_on_the_way(start, hw, replies) || !hw.interrupts;
            !r.running() ==> after.stopped() && (!t.ended() && masked ==> !after.interrupts)
        }),
{
    let start = TransferState::start(inner, plan);
    lemma_transfer_start(inner, plan, hw, hw.interrupts);
    lemma_transfer_start(inner, plan, hw, true);
    lemma_replay_transfer(start, hw, hw.interrupts, replies);
    lemma_armed_on_the_way(start, hw, replies);
    let (t, halfway) = replay_transfer(start, hw, replies);
    lemma_abandon_transfer(t, halfway, hw.interrupts, more);
    if armed_on_the_way(start, hw, replies) {
        lemma_abandon_transfer(t, halfway, false, more);
    }
}

/// Reading any block lets go of the peripheral on every way out: when it is over, well or not, and
/// when it is given up at any moment and what it then asks for is done, nothing moves data; and
/// unless the data had come to its end, interrupts are then masked if the data path was made ready.
pub proof fn law_read_block_lets_go(
    inner: SdmmcInner,
    capacity: CardCapacity,
    block_idx: u32,
    timeout: u32,
    hw: Hw,
    replies: Seq<Reply>,
    more: Seq<Reply>,
)
    requires
        hw.stopped(),
    ensures
        ({
            let address = block_address(capacity, block_idx) as u32;
            let start = TransferState::start(inner, read_block_plan(address, timeout));
            let (t, halfway) = replay_transfer(start, hw, replies);
            let (r, after) = replay_run(
                RunState::start(inner, t.abandon_steps()),
                halfway,
                more,
            );
            let masked = armed_on_the_way(start, hw, replies) || !hw.interrupts;
            &&& t.phase matches Phase::Finished(res) ==> halfway.stopped() && (res is Err && masked
                ==> !halfway.interrupts)
            &&& !r.running() ==> after.stopped() && (!t.ended() && masked ==> !after.interrupts)
        }),
{
    let plan = read_block_plan(block_address(capacity, block_idx) as u32, timeout);
    law_transfer_lets_go(inner, plan, hw, replies);
    law_abandoned_transfer_lets_go(inner, plan, hw, replies, more);
}

/// An empty script does nothing.
pub proof fn lemma_replay_nothing(inner: SdmmcInner, hw: Hw, replies: Seq<Reply>)
    ensures
        replay_run(RunState::start(inner, Seq::empty()), hw, replies) == (
            RunState::start(inner, Seq::empty()),
            hw,
        ),
    decreases replies.len(),
{
    if replies.len() > 0 {
        lemma_replay_nothing(inner, hw, replies.drop_last());
    }
}

/// The changes that a script holds, in order.
pub open spec fn changes(steps: Seq<Step>) -> Seq<RegWrite>
    decreases steps.len(),
{
    if steps.len() == 0 {
        Seq::empty()
    } else {
        match steps.last() {
            Step::Write(w) => changes(steps.drop_last()).push(w),
            _ => changes(steps.drop_last()),
        }
    }
}

/// The changes that were made in carrying out a script, in order.
pub open spec fn changes_made(r: RunState, replies: Seq<Reply>) -> Seq<RegWrite>
    decreases replies.len(),
{
    if replies.len() == 0 {
        Seq::empty()
    } else {
        let made = changes_made(r, replies.drop_last());
        match (state_after(r, replies.drop_last()).action(), replies.last()) {
            (Action::Write(w), Reply::Ack) => made.push(w),
            _ => made,
        }
    }
}

/// A script after a row of replies.
pub open spec fn state_after(r: RunState, replies: Seq<Reply>) -> RunState
    decreases replies.len(),
{
    if replies.len() == 0 {
        r
    } else {
        state_after(r, replies.drop_last()).after(replies.last())
    }
}

/// A script without choices makes its changes in the order in which it holds them, each once,
/// and has made all of them when it came to its end.
pub proof fn law_script_in_order(inner: SdmmcInner, steps: Seq<Step>, replies: Seq<Reply>)
    requires
        straight(steps),
    ensures
        ({
            let r = state_after(RunState::start(inner, steps), replies);
            let made = changes_made(RunState::start(inner, steps), replies);
            &&& r.at <= steps.len()
            &&& made == changes(steps.take(r.at as int))
            &&& !r.running() && r.result() is Ok ==> made == changes(steps)
        }),
    decreases replies.len(),
{
    let start = RunState::start(inner, steps);
    if replies.len() == 0 {
        assert(changes(steps.take(0)) =~= Seq::empty());
        if steps.len() == 0 {
            assert(steps.take(0) =~= steps);
        }
    } else {
        law_script_in_order(inner, steps, replies.drop_last());
        lemma_state_keeps_steps(inner, steps, replies.drop_last());
        let r = state_after(start, replies.drop_last());
        let n = r.after(replies.last());
        if r.running() {
            lemma_run_moves(r, replies.last());
            assert(steps.take(r.at as int + 1).drop_last() =~= steps.take(r.at as int));
            assert(steps.take(r.at as int + 1).last() == steps[r.at as int]);
        }
        assert(steps.take(steps.len() as int) =~= steps);
    }
}

proof fn lemma_state_keeps_steps(inner: SdmmcInner, steps: Seq<Step>, replies: Seq<Reply>)
    ensures
        state_after(RunState::start(inner, steps), replies).steps == steps,
    decreases replies.len(),
{
    if replies.len() > 0 {
        lemma_state_keeps_steps(inner, steps, replies.drop_last());
    }
}

/// A timeout or a failed checksum.
pub open spec fn bus_error(e: Error) -> bool {
    e == Error::Timeout || e == Error::Crc
}

/// All failures on record are timeouts and failed checksums.
pub open spec fn fails_by_bus(t: TransferState) -> bool {
    &&& t.run.failed matches Some(e) ==> bus_error(e)
    &&& match t.phase {
        Phase::Settling(e) => bus_error(e),
        Phase::Releasing(e) => bus_error(e),
        Phase::Finished(Err(e)) => bus_error(e),
        _ => true,
    }
}

/// A reply brings no failure but a timeout or a failed checksum.
pub proof fn lemma_fails_by_bus_step(t: TransferState, reply: Reply)
    requires
        fails_by_bus(t),
    ensures
        fails_by_bus(t.after(reply)),
{
}

/// A transfer fails by a timeout or by a failed checksum, and by nothing else.
pub proof fn law_transfer_fails_by_bus(
    inner: SdmmcInner,
    plan: Plan,
    hw: Hw,
    replies: Seq<Reply>,
)
    ensures
        fails_by_bus(replay_transfer(TransferState::start(inner, plan), hw, replies).0),
    decreases replies.len(),
{
    if replies.len() > 0 {
        law_transfer_fails_by_bus(inner, plan, hw, replies.drop_last());
        let t = replay_transfer(TransferState::start(inner, plan), hw, replies.drop_last()).0;
        lemma_fails_by_bus_step(t, replies.last());
    }
}

/// The script by which a peripheral is set to rest, or none.
pub open spec fn sets_to_rest(inner: SdmmcInner, steps: Seq<Step>) -> bool {
    steps == Seq::<Step>::empty() || steps == inner.on_drop_steps()
}

/// A transfer that is given up sets its peripheral to rest, or does nothing.
pub proof fn lemma_abandoned_transfer_rests(
    inner: SdmmcInner,
    plan: Plan,
    hw: Hw,
    replies: Seq<Reply>,
)
    requires
        hw.stopped(),
    ensures
        ({
            let t = replay_transfer(TransferState::start(inner, plan), hw, replies).0;
            sets_to_rest(inner, t.abandon_steps())
        }),
{
    lemma_transfer_start(inner, plan, hw, true);
    lemma_replay_transfer(TransferState::start(inner, plan), hw, true, replies);
}

/// Setting the peripheral to rest, or doing nothing, leaves the power, the bus width and the
/// divisor alone.
pub proof fn lemma_rest_keeps_settings(
    inner: SdmmcInner,
    steps: Seq<Step>,
    hw: Hw,
    replies: Seq<Reply>,
)
    requires
        sets_to_rest(inner, steps),
    ensures
        ({
            let (r, after) = replay_run(RunState::start(inner, steps), hw, replies);
            r.steps == steps && same_settings(after, hw)
        }),
    decreases replies.len(),
{
    if replies.len() > 0 {
        lemma_rest_keeps_settings(inner, steps, hw, replies.drop_last());
    }
}

/// A transfer after a row of replies, and the changes that were made on the way, in order.
pub open spec fn replay_changes(t: TransferState, replies: Seq<Reply>) -> (
    TransferState,
    Seq<RegWrite>,
)
    decreases replies.len(),
{
    if replies.len() == 0 {
        (t, Seq::empty())
    } else {
        let (t, made) = replay_changes(t, replies.drop_last());
        let more = match (t.action(), replies.last()) {
            (Action::Write(w), Reply::Ack) => made.push(w),
            _ => made,
        };
        (t.after(replies.last()), more)
    }
}

/// What a transfer that has not failed has changed so far.
spec fn changes_inv(t: TransferState, made: Seq<RegWrite>) -> bool {
    let prelude = t.inner.prelude_steps(t.plan);
    let armed = t.inner.armed_steps(t.plan);
    let closing = t.inner.closing_steps(t.plan);
    let so_far = changes(t.run.steps.take(t.run.at as int));
    match t.phase {
        Phase::Prelude => {
            &&& t.run.steps == prelude
            &&& t.run.running()
            &&& made == so_far
        },
        Phase::Armed => {
            &&& t.run.steps == armed
            &&& t.run.running()
            &&& made == changes(prelude) + so_far
        },
        Phase::Polling | Phase::Suspended => made == changes(prelude) + changes(armed),
        Phase::Closing => {
            &&& t.run.steps == closing
            &&& t.run.running()
            &&& made == changes(prelude) + changes(armed) + so_far
        },
        Phase::Collecting | Phase::Finished(Ok(_)) => made == changes(prelude) + changes(armed)
            + changes(closing),
        _ => true,
    }
}

/// One step of a script without choices adds its change, if it holds one.
proof fn lemma_changes_step(r: RunState, reply: Reply)
    requires
        r.running(),
        straight(r.steps),
    ensures
        ({
            let n = r.after(reply);
            let before = changes(r.steps.take(r.at as int));
            let after = changes(n.steps.take(n.at as int));
            &&& n.steps == r.steps
            &&& n.at <= n.steps.len()
            &&& match (r.action(), reply) {
                (Action::Write(w), Reply::Ack) => after == before.push(w),
                _ => after == before,
            }
            &&& !n.running() && n.failed is None ==> after == changes(r.steps)
        }),
{
    let n = r.after(reply);
    lemma_run_moves(r, reply);
    assert(r.steps.take(r.at as int + 1).drop_last() =~= r.steps.take(r.at as int));
    assert(r.steps.take(r.at as int + 1).last() == r.steps[r.at as int]);
    assert(r.steps.take(r.steps.len() as int) =~= r.steps);
}

pub proof fn lemma_straight_transfer(inner: SdmmcInner, plan: Plan)
    ensures
        straight(inner.prelude_steps(plan)),
        straight(inner.armed_steps(plan)),
        straight(inner.closing_steps(plan)),
{
}

proof fn lemma_changes_inv_step(t: TransferState, made: Seq<RegWrite>, reply: Reply)
    requires
        changes_inv(t, made),
    ensures
        ({
            let more = match (t.action(), reply) {
                (Action::Write(w), Reply::Ack) => made.push(w),
                _ => made,
            };
            changes_inv(t.after(reply), more)
        }),
        t.after(reply).inner == t.inner,
        t.after(reply).plan == t.plan,
{
    let none = Seq::<RegWrite>::empty();
    let p = changes(t.inner.prelude_steps(t.plan));
    let a = changes(t.inner.armed_steps(t.plan));
    let next = t.after(reply);
    lemma_straight_transfer(t.inner, t.plan);
    assert(changes(next.run.steps.take(0)) =~= none);
    assert(p + none =~= p);
    assert(p + a + none =~= p + a);
    match t.phase {
        Phase::Prelude => {
            lemma_changes_step(t.run, reply);
        },
        Phase::Armed => {
            lemma_changes_step(t.run, reply);
            let so_far = changes(t.run.steps.take(t.run.at as int));
            assert(forall|w: RegWrite| (p + so_far).push(w) =~= p + so_far.push(w));
        },
        Phase::Closing => {
            lemma_changes_step(t.run, reply);
            let so_far = changes(t.run.steps.take(t.run.at as int));
            assert(forall|w: RegWrite| (p + a + so_far).push(w) =~= p + a + so_far.push(w));
        },
        _ => {},
    }
}

proof fn lemma_changes_sound(inner: SdmmcInner, plan: Plan, replies: Seq<Reply>)
    ensures
        ({
            let (t, made) = replay_changes(TransferState::start(inner, plan), replies);
            changes_inv(t, made) && t.inner == inner && t.plan == plan
        }),
    decreases replies.len(),
{
    let start = TransferState::start(inner, plan);
    if replies.len() == 0 {
        let none = Seq::<RegWrite>::empty();
        assert(changes(start.run.steps.take(0)) =~= none);
        if inner.prelude_steps(plan).len() == 0 {
            assert(changes(inner.prelude_steps(plan)) =~= none);
            assert(none + none =~= none);
        }
    } else {
        lemma_changes_sound(inner, plan, replies.drop_last());
        let (t, made) = replay_changes(start, replies.drop_last());
        lemma_changes_inv_step(t, made, replies.last());
    }
}

/// A transfer that came to a good end has made all its changes, each once and in order: those of
/// the commands before it, those that started it, and those that ended it.
pub proof fn law_transfer_in_order(inner: SdmmcInner, plan: Plan, replies: Seq<Reply>)
    ensures
        ({
            let (t, made) = replay_changes(TransferState::start(inner, plan), replies);
            t.phase matches Phase::Finished(r) && r is Ok ==> made == changes(
                inner.prelude_steps(plan),
            ) + changes(inner.armed_steps(plan)) + changes(inner.closing_steps(plan))
        }),
{
    lemma_changes_sound(inner, plan, replies);
}

} // verus!
