//! The commands that a card is sent.

use vstd::prelude::*;

use crate::cmd::{short_cmd, Cmd};
use crate::effect::{lemma_run_moves, lemma_straight_transfer, straight};
use crate::inner::SdmmcInner;
use crate::registers::{Action, RegWrite, Reply};
use crate::script::{RunState, Step};
use crate::transfer::{Phase, Plan, TransferState};

verus! {

/// What the card has been sent so far.
pub struct Sent {
    /// The argument that stands ready for the next command
    pub argument: u32,
    /// The commands, each with its argument, in order
    pub commands: Seq<(u8, u32)>,
}

impl Sent {
    /// After an action and its reply.
    pub open spec fn dealt(self, action: Action, reply: Reply) -> Sent {
        match (action, reply) {
            (Action::Write(RegWrite::Argr(a)), Reply::Ack) => Sent { argument: a, ..self },
            (Action::Write(RegWrite::Cmdr(c)), Reply::Ack) => Sent {
                commands: self.commands.push((c.cmdindex, self.argument)),
                ..self
            },
            _ => self,
        }
    }
}

/// The argument that stands ready before step `at` of a script.
pub open spec fn argument_at(steps: Seq<Step>, at: nat) -> Option<u32> {
    if at == 0 || at > steps.len() {
        None
    } else {
        match steps[at - 1] {
            Step::Write(RegWrite::Argr(a)) => Some(a),
            _ => None,
        }
    }
}

/// The commands in the first `at` steps of a script, each with its argument.
pub open spec fn commands_in(steps: Seq<Step>, at: nat) -> Seq<(u8, u32)>
    decreases at,
{
    if at == 0 {
        Seq::empty()
    } else {
        let before = commands_in(steps, (at - 1) as nat);
        match steps[at - 1] {
            Step::Write(RegWrite::Cmdr(c)) => before.push(
                (c.cmdindex, argument_at(steps, (at - 1) as nat)->0),
            ),
            _ => before,
        }
    }
}

/// Each command of a script follows at once on its argument.
pub open spec fn paired(steps: Seq<Step>) -> bool {
    forall|i: int|
        0 <= i < steps.len() ==> (#[trigger] steps[i] matches Step::Write(RegWrite::Cmdr(_))
            ==> argument_at(steps, i as nat) is Some)
}

pub proof fn lemma_commands_prefix(a: Seq<Step>, b: Seq<Step>, at: nat)
    requires
        at <= a.len(),
    ensures
        commands_in(a + b, at) == commands_in(a, at),
    decreases at,
{
    if at > 0 {
        lemma_commands_prefix(a, b, (at - 1) as nat);
        assert((a + b)[at - 1] == a[at - 1]);
        if at > 1 {
            assert((a + b)[at - 2] == a[at - 2]);
        }
    }
}

pub proof fn lemma_commands_join(a: Seq<Step>, b: Seq<Step>, at: nat)
    requires
        at <= b.len(),
        paired(b),
    ensures
        commands_in(a + b, a.len() + at) == commands_in(a, a.len()) + commands_in(b, at),
    decreases at,
{
    if at == 0 {
        lemma_commands_prefix(a, b, a.len());
        assert(commands_in(a, a.len()) + Seq::<(u8, u32)>::empty() =~= commands_in(a, a.len()));
    } else {
        lemma_commands_join(a, b, (at - 1) as nat);
        assert((a + b)[a.len() + at - 1] == b[at - 1]);
        if at > 1 {
            assert((a + b)[a.len() + at - 2] == b[at - 2]);
        }
        let x = commands_in(a, a.len());
        let y = commands_in(b, (at - 1) as nat);
        assert(forall|c: (u8, u32)| (x + y).push(c) =~= x + y.push(c));
    }
}

pub proof fn lemma_paired_join(a: Seq<Step>, b: Seq<Step>)
    requires
        paired(a),
        paired(b),
    ensures
        paired(a + b),
{
    let s = a + b;
    assert forall|i: int| 0 <= i < s.len() implies (
    #[trigger] s[i] matches Step::Write(RegWrite::Cmdr(_)) ==> argument_at(s, i as nat)
        is Some) by {
        if i < a.len() {
            assert(s[i] == a[i]);
            if i > 0 {
                assert(s[i - 1] == a[i - 1]);
            }
        } else {
            let j = i - a.len();
            assert(s[i] == b[j]);
            if j > 0 {
                assert(s[i - 1] == b[j - 1]);
            }
        }
    }
}

/// A script with its commands paired, and what they are.
pub open spec fn sends(steps: Seq<Step>, commands: Seq<(u8, u32)>) -> bool {
    paired(steps) && commands_in(steps, steps.len()) == commands
}

pub proof fn lemma_sends_join(a: Seq<Step>, b: Seq<Step>, x: Seq<(u8, u32)>, y: Seq<(u8, u32)>)
    requires
        sends(a, x),
        sends(b, y),
    ensures
        sends(a + b, x + y),
{
    lemma_commands_join(a, b, b.len());
    lemma_paired_join(a, b);
}

/// No step of the script writes a command.
pub open spec fn silent(steps: Seq<Step>) -> bool {
    forall|i: int|
        0 <= i < steps.len() ==> !(#[trigger] steps[i] matches Step::Write(RegWrite::Cmdr(_)))
}

pub proof fn lemma_silent(steps: Seq<Step>, at: nat)
    requires
        silent(steps),
        at <= steps.len(),
    ensures
        commands_in(steps, at) == Seq::<(u8, u32)>::empty(),
        paired(steps),
    decreases at,
{
    if at > 0 {
        lemma_silent(steps, (at - 1) as nat);
        assert(!(steps[at - 1] matches Step::Write(RegWrite::Cmdr(_))));
    }
}

pub proof fn lemma_silent_sends(steps: Seq<Step>)
    requires
        silent(steps),
    ensures
        sends(steps, Seq::empty()),
{
    lemma_silent(steps, steps.len());
}

impl SdmmcInner {
    pub proof fn lemma_cmd_sends(self, cmd: Cmd, data: bool)
        ensures
            sends(self.cmd_steps(cmd, data), seq![(cmd.cmd, cmd.arg)]),
    {
        reveal_with_fuel(commands_in, 6);
        assert(commands_in(self.cmd_steps(cmd, data), 5) =~= seq![(cmd.cmd, cmd.arg)]);
    }
}

/// The commands before a transfer.
pub open spec fn prelude_commands(plan: Plan) -> Seq<(u8, u32)> {
    let a = match plan.block_length {
        Some(n) => seq![(16u8, n)],
        None => Seq::empty(),
    };
    let b = match plan.app {
        Some(rca) => seq![(55u8, rca)],
        None => Seq::empty(),
    };
    a + b
}

/// All commands of a transfer.
pub open spec fn plan_commands(plan: Plan) -> Seq<(u8, u32)> {
    prelude_commands(plan).push((plan.command.cmd, plan.command.arg))
}

pub proof fn lemma_prelude_sends(inner: SdmmcInner, plan: Plan)
    ensures
        sends(inner.prelude_steps(plan), prelude_commands(plan)),
{
    let none = Seq::<Step>::empty();
    lemma_silent_sends(none);
    let a = match plan.block_length {
        Some(n) => inner.cmd_steps(short_cmd(16, n), false),
        None => none,
    };
    let b = match plan.app {
        Some(rca) => inner.cmd_steps(short_cmd(55, rca), false),
        None => none,
    };
    let x = match plan.block_length {
        Some(n) => seq![(16u8, n)],
        None => Seq::empty(),
    };
    let y = match plan.app {
        Some(rca) => seq![(55u8, rca)],
        None => Seq::empty(),
    };
    if plan.block_length is Some {
        inner.lemma_cmd_sends(short_cmd(16, plan.block_length->0), false);
    }
    if plan.app is Some {
        inner.lemma_cmd_sends(short_cmd(55, plan.app->0), false);
    }
    lemma_sends_join(a, b, x, y);
}

pub proof fn lemma_armed_sends(inner: SdmmcInner, plan: Plan)
    ensures
        sends(inner.armed_steps(plan), seq![(plan.command.cmd, plan.command.arg)]),
{
    let p = inner.prepare_steps(
        plan.buffer,
        plan.read,
        plan.size.in_bytes(),
        plan.size.log2(),
        plan.timeout,
    );
    let m = seq![Step::Write(inner.mask_data(true))];
    let none = Seq::<(u8, u32)>::empty();
    assert(silent(p));
    lemma_silent_sends(p);
    assert(silent(m));
    lemma_silent_sends(m);
    lemma_sends_join(p, m, none, none);
    inner.lemma_cmd_sends(plan.command, true);
    lemma_sends_join(
        p + m,
        inner.cmd_steps(plan.command, true),
        none + none,
        seq![(plan.command.cmd, plan.command.arg)],
    );
    assert(none + none + seq![(plan.command.cmd, plan.command.arg)] =~= seq![
        (plan.command.cmd, plan.command.arg),
    ]);
}

/// The argument that stands ready is the one that the script has just written.
pub open spec fn argument_ready(r: RunState, sent: Sent) -> bool {
    argument_at(r.steps, r.at) matches Some(a) ==> sent.argument == a
}

/// A reply to a script keeps the account of what was sent.
pub proof fn lemma_sent_step(r: RunState, sent: Sent, base: Seq<(u8, u32)>, reply: Reply)
    requires
        r.running(),
        straight(r.steps),
        paired(r.steps),
        argument_ready(r, sent),
        sent.commands == base + commands_in(r.steps, r.at),
    ensures
        ({
            let n = r.after(reply);
            let after = sent.dealt(r.action(), reply);
            &&& argument_ready(n, after)
            &&& after.commands == base + commands_in(n.steps, n.at)
            &&& n.steps == r.steps
            &&& !n.running() && n.failed is None ==> n.at == n.steps.len()
        }),
{
    lemma_run_moves(r, reply);
    let y = commands_in(r.steps, r.at);
    assert(forall|c: (u8, u32)| (base + y).push(c) =~= base + y.push(c));
}

/// What a transfer that has not failed has sent, after `base`.
pub open spec fn transfer_sent(t: TransferState, sent: Sent, base: Seq<(u8, u32)>) -> bool {
    match t.phase {
        Phase::Prelude => {
            &&& t.run.steps == t.inner.prelude_steps(t.plan)
            &&& t.run.running()
            &&& argument_ready(t.run, sent)
            &&& sent.commands == base + commands_in(t.run.steps, t.run.at)
        },
        Phase::Armed => {
            &&& t.run.steps == t.inner.armed_steps(t.plan)
            &&& t.run.running()
            &&& argument_ready(t.run, sent)
            &&& sent.commands == base + prelude_commands(t.plan) + commands_in(
                t.run.steps,
                t.run.at,
            )
        },
        Phase::Closing => {
            &&& t.run.steps == t.inner.closing_steps(t.plan)
            &&& t.run.running()
            &&& sent.commands == base + plan_commands(t.plan)
        },
        Phase::Polling | Phase::Suspended | Phase::Collecting | Phase::Finished(Ok(_)) =>
            sent.commands == base + plan_commands(t.plan),
        _ => true,
    }
}

pub proof fn lemma_transfer_sent_start(inner: SdmmcInner, plan: Plan, sent: Sent)
    ensures
        transfer_sent(TransferState::start(inner, plan), sent, sent.commands),
        TransferState::start(inner, plan).plan == plan,
{
    let none = Seq::<(u8, u32)>::empty();
    let t = TransferState::start(inner, plan);
    lemma_prelude_sends(inner, plan);
    assert(sent.commands + none =~= sent.commands);
    if inner.prelude_steps(plan).len() == 0 {
        assert(prelude_commands(plan) =~= none);
    }
}

pub proof fn lemma_transfer_sent_step(
    t: TransferState,
    sent: Sent,
    base: Seq<(u8, u32)>,
    reply: Reply,
)
    requires
        transfer_sent(t, sent, base),
    ensures
        transfer_sent(t.after(reply), sent.dealt(t.action(), reply), base),
        t.after(reply).plan == t.plan,
{
    let none = Seq::<(u8, u32)>::empty();
    let p = prelude_commands(t.plan);
    let cmd = (t.plan.command.cmd, t.plan.command.arg);
    assert(base + p + none =~= base + p);
    assert(base + p + seq![cmd] =~= base + p.push(cmd));
    match t.phase {
        Phase::Prelude => {
            lemma_prelude_sends(t.inner, t.plan);
            lemma_straight_transfer(t.inner, t.plan);
            lemma_sent_step(t.run, sent, base, reply);
        },
        Phase::Armed => {
            lemma_armed_sends(t.inner, t.plan);
            lemma_straight_transfer(t.inner, t.plan);
            lemma_sent_step(t.run, sent, base + p, reply);
        },
        Phase::Closing => {
            lemma_run_moves(t.run, reply);
        },
        _ => {},
    }
}

/// A transfer and what was sent, after a row of replies.
pub open spec fn replay_sent(t: TransferState, sent: Sent, replies: Seq<Reply>) -> (
    TransferState,
    Sent,
)
    decreases replies.len(),
{
    if replies.len() == 0 {
        (t, sent)
    } else {
        let (t, sent) = replay_sent(t, sent, replies.drop_last());
        (t.after(replies.last()), sent.dealt(t.action(), replies.last()))
    }
}

proof fn lemma_replay_sent(inner: SdmmcInner, plan: Plan, sent: Sent, replies: Seq<Reply>)
    ensures
        ({
            let (t, s) = replay_sent(TransferState::start(inner, plan), sent, replies);
            t.plan == plan && transfer_sent(t, s, sent.commands)
        }),
    decreases replies.len(),
{
    if replies.len() == 0 {
        lemma_transfer_sent_start(inner, plan, sent);
    } else {
        let before = replies.drop_last();
        lemma_replay_sent(inner, plan, sent, before);
        let (t, s) = replay_sent(TransferState::start(inner, plan), sent, before);
        lemma_transfer_sent_step(t, s, sent.commands, replies.last());
    }
}

/// A transfer that went well has sent the card the commands of its plan, each once and in order,
/// and no other.
pub proof fn law_transfer_sends_its_commands(
    inner: SdmmcInner,
    plan: Plan,
    sent: Sent,
    replies: Seq<Reply>,
)
    ensures
        ({
            let (t, s) = replay_sent(TransferState::start(inner, plan), sent, replies);
            t.phase matches Phase::Finished(r) && r is Ok ==> s.commands == sent.commands
                + plan_commands(plan)
        }),
{
    lemma_replay_sent(inner, plan, sent, replies);
}

} // verus!
