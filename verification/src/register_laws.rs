//! The response registers: which of them was read when, while a card is brought into service, and
//! what is made of what they held.

use vstd::prelude::*;

use crate::card::{busy, CardModel};
use crate::clock::{clk_div_spec, divides_well, law_clk_div};
use crate::cmd::{long_cmd, rca_argument, short_cmd, Cmd, Response};
use crate::effect::{lemma_run_moves, transfer_inv, Hw};
use crate::init::{usable_width, width_field, InitState, Stage, CHECK_PATTERN};
use crate::init_laws::{
    as_told, asks, at_work, busy_times, clock_set, divisor, final_clock, fresh, lemma_scripts_tame,
    lemma_service, lemma_stage_step, lemma_transfer_reads_nothing, moves_data, opening,
    peripheral_tied, script_of, sent_before, service_commands, speaks, tally, Heard, Service,
};
use crate::inner::{SdmmcInner, POWER_ON};
use crate::job::JobState;
use crate::link::LinkModel;
use crate::registers::{Action, RegWrite, Reply};
use crate::row_laws::means;
use crate::script::{RunState, Step};
use crate::sent::commands_in;
use crate::service_laws::{can_begin, law_service_begins_as_asked, numbered};
use crate::transfer::{selection_of, TransferState};
use crate::types::{BusWidth, CardCapacity, Error, Hertz, Signalling, Version};
use crate::words::big_endian_pair;

verus! {

/// The response registers that were read in the course of the procedure, in order: each with how
/// many commands had been sent by then.
pub open spec fn registers_read(start: Service, replies: Seq<Reply>) -> Seq<(nat, u8)>
    decreases replies.len(),
{
    if replies.len() == 0 {
        Seq::empty()
    } else {
        let before = replies.drop_last();
        let s = start.replay(before);
        looked(registers_read(start, before), s, replies.last())
    }
}

/// The registers that were read, after a reply.
pub open spec fn looked(looks: Seq<(nat, u8)>, s: Service, reply: Reply) -> Seq<(nat, u8)> {
    match (s.init.action(), reply) {
        (Action::ReadResponse(k), Reply::Response(_)) => looks.push((s.sent.commands.len(), k)),
        _ => looks,
    }
}

/// Whenever a response register is read, the reply is what that register holds: `held(j, k)` is
/// what register `k` holds once `j` commands have been sent and answered.
pub open spec fn faithful(
    start: Service,
    replies: Seq<Reply>,
    held: spec_fn(nat, u8) -> u32,
) -> bool
    decreases replies.len(),
{
    replies.len() > 0 ==> {
        let before = replies.drop_last();
        let s = start.replay(before);
        &&& faithful(start, before, held)
        &&& match (s.init.action(), replies.last()) {
            (Action::ReadResponse(k), Reply::Response(r)) => r == held(s.sent.commands.len(), k),
            _ => true,
        }
    }
}

/// What was heard is what the registers held that were read.
proof fn lemma_heard_is_held(
    start: Service,
    replies: Seq<Reply>,
    held: spec_fn(nat, u8) -> u32,
)
    requires
        start.heard.responses.len() == 0,
        faithful(start, replies, held),
    ensures
        ({
            let looks = registers_read(start, replies);
            let heard = start.replay(replies).heard.responses;
            &&& heard.len() == looks.len()
            &&& forall|i: int|
                0 <= i < heard.len() ==> #[trigger] heard[i] == held(looks[i].0, looks[i].1)
        }),
    decreases replies.len(),
{
    if replies.len() > 0 {
        lemma_heard_is_held(start, replies.drop_last(), held);
    }
}

/// How many commands are sent in the first `at` steps of a script.
spec fn sends_by(steps: Seq<Step>, at: nat) -> nat
    decreases at,
{
    if at == 0 {
        0
    } else {
        let before = sends_by(steps, (at - 1) as nat);
        match steps[at - 1] {
            Step::Write(RegWrite::Cmdr(_)) => before + 1,
            _ => before,
        }
    }
}

/// The registers that are read in the first `at` steps of a script, where `base` commands were sent
/// before it.
spec fn looks_in(steps: Seq<Step>, at: nat, base: nat) -> Seq<(nat, u8)>
    decreases at,
{
    if at == 0 {
        Seq::empty()
    } else {
        let before = looks_in(steps, (at - 1) as nat, base);
        match steps[at - 1] {
            Step::ReadResponse(k) => before.push((base + sends_by(steps, (at - 1) as nat), k)),
            _ => before,
        }
    }
}

proof fn lemma_sends_by(steps: Seq<Step>, at: nat)
    requires
        at <= steps.len(),
    ensures
        commands_in(steps, at).len() == sends_by(steps, at),
    decreases at,
{
    if at > 0 {
        lemma_sends_by(steps, (at - 1) as nat);
    }
}

proof fn lemma_prefix(a: Seq<Step>, b: Seq<Step>, at: nat, base: nat)
    requires
        at <= a.len(),
    ensures
        sends_by(a + b, at) == sends_by(a, at),
        looks_in(a + b, at, base) == looks_in(a, at, base),
    decreases at,
{
    if at > 0 {
        lemma_prefix(a, b, (at - 1) as nat, base);
        assert((a + b)[at - 1] == a[at - 1]);
    }
}

/// The registers that two scripts read one after the other.
proof fn lemma_looks_join(a: Seq<Step>, b: Seq<Step>, at: nat, base: nat)
    requires
        at <= b.len(),
    ensures
        sends_by(a + b, a.len() + at) == sends_by(a, a.len()) + sends_by(b, at),
        looks_in(a + b, a.len() + at, base) == looks_in(a, a.len(), base) + looks_in(
            b,
            at,
            base + sends_by(a, a.len()),
        ),
    decreases at,
{
    let x = looks_in(a, a.len(), base);
    if at == 0 {
        lemma_prefix(a, b, a.len(), base);
        assert(x + Seq::<(nat, u8)>::empty() =~= x);
    } else {
        lemma_looks_join(a, b, (at - 1) as nat, base);
        assert((a + b)[a.len() + at - 1] == b[at - 1]);
        let y = looks_in(b, (at - 1) as nat, base + sends_by(a, a.len()));
        assert(forall|l: (nat, u8)| (x + y).push(l) =~= x + y.push(l));
    }
}

impl SdmmcInner {
    /// Sending a command reads no register.
    proof fn lemma_looks_cmd(self, cmd: Cmd, data: bool, base: nat)
        ensures
            self.cmd_steps(cmd, data).len() == 5,
            sends_by(self.cmd_steps(cmd, data), 5) == 1,
            looks_in(self.cmd_steps(cmd, data), 5, base) == Seq::<(nat, u8)>::empty(),
    {
        reveal_with_fuel(sends_by, 6);
        reveal_with_fuel(looks_in, 6);
    }

    proof fn lemma_looks_one(self, base: nat)
        ensures
            sends_by(seq![Step::ReadResponse(0)], 1) == 0,
            looks_in(seq![Step::ReadResponse(0)], 1, base) == seq![(base, 0u8)],
    {
        reveal_with_fuel(sends_by, 2);
        reveal_with_fuel(looks_in, 2);
        assert(looks_in(seq![Step::ReadResponse(0)], 1, base) =~= seq![(base, 0u8)]);
    }

    proof fn lemma_looks_probe(self)
        ensures
            looks_in(self.probe_steps(), self.probe_steps().len(), 0) == seq![(2nat, 0u8)],
    {
        let p = seq![Step::Write(RegWrite::Power(POWER_ON))];
        let idle = Cmd { cmd: 0, arg: 0, resp: Response::Absent };
        let a = self.cmd_steps(idle, false);
        let b = self.cmd_steps(short_cmd(8, CHECK_PATTERN), false);
        let r = seq![Step::ReadResponse(0)];
        reveal_with_fuel(sends_by, 2);
        reveal_with_fuel(looks_in, 2);
        self.lemma_looks_cmd(idle, false, 0);
        self.lemma_looks_cmd(short_cmd(8, CHECK_PATTERN), false, 1);
        self.lemma_looks_one(2);
        lemma_looks_join(p, a, 5, 0);
        lemma_looks_join(p + a, b, 5, 0);
        lemma_looks_join(p + a + b, r, 1, 0);
        assert(looks_in(self.probe_steps(), 12, 0) =~= seq![(2nat, 0u8)]);
    }

    proof fn lemma_looks_long(self, index: u8, arg: u32, base: nat)
        ensures
            self.long_steps(index, arg).len() == 9,
            sends_by(self.long_steps(index, arg), 9) == 1,
            looks_in(self.long_steps(index, arg), 9, base) == seq![
                (base + 1, 0u8),
                (base + 1, 1u8),
                (base + 1, 2u8),
                (base + 1, 3u8),
            ],
    {
        let a = self.cmd_steps(long_cmd(index, arg), false);
        let r = seq![
            Step::ReadResponse(0),
            Step::ReadResponse(1),
            Step::ReadResponse(2),
            Step::ReadResponse(3),
        ];
        self.lemma_looks_cmd(long_cmd(index, arg), false, base);
        lemma_looks_join(a, r, 4, base);
        reveal_with_fuel(sends_by, 5);
        reveal_with_fuel(looks_in, 5);
        assert(looks_in(self.long_steps(index, arg), 9, base) =~= seq![
            (base + 1, 0u8),
            (base + 1, 1u8),
            (base + 1, 2u8),
            (base + 1, 3u8),
        ]);
    }

    proof fn lemma_looks_identify(self, base: nat)
        ensures
            self.identify_steps().len() == 15,
            looks_in(self.identify_steps(), 15, base) == seq![
                (base + 1, 0u8),
                (base + 1, 1u8),
                (base + 1, 2u8),
                (base + 1, 3u8),
                (base + 2, 0u8),
            ],
    {
        let a = self.long_steps(2, 0);
        let b = self.cmd_steps(short_cmd(3, 0), false);
        let r = seq![Step::ReadResponse(0)];
        self.lemma_looks_long(2, 0, base);
        self.lemma_looks_cmd(short_cmd(3, 0), false, base + 1);
        self.lemma_looks_one(base + 2);
        lemma_looks_join(a, b, 5, base);
        lemma_looks_join(a + b, r, 1, base);
        assert(looks_in(self.identify_steps(), 15, base) =~= seq![
            (base + 1, 0u8),
            (base + 1, 1u8),
            (base + 1, 2u8),
            (base + 1, 3u8),
            (base + 2, 0u8),
        ]);
    }

    proof fn lemma_looks_high_speed(self, clkdiv: u16, rca: u32, base: nat)
        ensures
            ({
                let s = self.clkdiv_steps(clkdiv) + self.read_status_steps(rca);
                s.len() == 8 && looks_in(s, 8, base) == seq![(base + 1, 0u8)]
            }),
    {
        let a = self.clkdiv_steps(clkdiv);
        let cmd = short_cmd(13, rca_argument(rca));
        let b = self.cmd_steps(cmd, false);
        let r = seq![Step::ReadResponse(0)];
        reveal_with_fuel(sends_by, 3);
        reveal_with_fuel(looks_in, 3);
        self.lemma_looks_cmd(cmd, false, base);
        self.lemma_looks_one(base + 1);
        lemma_looks_join(b, r, 1, base);
        assert(b + r =~= self.read_status_steps(rca));
        lemma_looks_join(a, b + r, 6, base);
        let s = a + self.read_status_steps(rca);
        assert(looks_in(s, 8, base) =~= seq![(base + 1, 0u8)]);
    }
}

/// A script without a look reads no register.
proof fn lemma_looks_none(steps: Seq<Step>, at: nat, base: nat)
    requires
        at <= steps.len(),
        forall|i: int| 0 <= i < steps.len() ==> !(#[trigger] steps[i] is ReadResponse),
    ensures
        looks_in(steps, at, base) == Seq::<(nat, u8)>::empty(),
    decreases at,
{
    if at > 0 {
        lemma_looks_none(steps, (at - 1) as nat, base);
    }
}

/// The registers that are read up to when a card that was busy `n` times was asked once more, or
/// not.
pub open spec fn early_looks(n: nat) -> Seq<(nat, u8)> {
    seq![(2nat, 0u8)] + Seq::new(n, |i: int| ((2 * i + 4) as nat, 0u8))
}

/// Registers 0 to 3, in this order, once so many commands have been sent.
pub open spec fn four_looks(j: nat) -> Seq<(nat, u8)> {
    seq![(j, 0u8), (j, 1u8), (j, 2u8), (j, 3u8)]
}

/// The registers that are read of a card that was busy `n` times, before the work of a stage.
spec fn looks_before(stage: Stage, freq: u32, signalling: Signalling, n: nat) -> Seq<(nat, u8)> {
    let known = early_looks(n + 1) + four_looks(2 * n + 5) + seq![(2 * n + 6, 0u8)];
    match stage {
        Stage::Probe => Seq::empty(),
        Stage::AppCommand | Stage::OperatingConditions | Stage::PowerUp => early_looks(n),
        Stage::Identify => early_looks(n + 1),
        Stage::Describe => known,
        Stage::FinalStatus | Stage::Finished(_) => served_looks(freq, signalling, n),
        _ => known + four_looks(2 * n + 7),
    }
}

/// The registers that are read of a card that is brought into service, where it was busy `n` times:
/// register 0 after CMD8, and after each ACMD41; registers 0 to 3 after CMD2, register 0 after
/// CMD3, registers 0 to 3 after CMD9; and register 0 after CMD13 where the card agreed to high
/// speed.
pub open spec fn served_looks(freq: u32, signalling: Signalling, n: nat) -> Seq<(nat, u8)> {
    let described = early_looks(n + 1) + four_looks(2 * n + 5) + seq![(2 * n + 6, 0u8)]
        + four_looks(2 * n + 7);
    if freq > 25_000_000 && signalling == Signalling::SDR25 {
        described + seq![(2 * n + 18, 0u8)]
    } else {
        described
    }
}

proof fn lemma_asks_len(n: nat)
    ensures
        asks(n).len() == 2 * n,
        opening(n).len() == 2 * n + 2,
    decreases n,
{
    if n > 0 {
        lemma_asks_len((n - 1) as nat);
    }
}

/// How many commands are sent before the work of a stage that reads a register.
proof fn lemma_sent_before_len(s: InitState, link: LinkModel, n: nat)
    ensures
        ({
            let j = sent_before(s, link, n).len();
            &&& s.stage is Probe ==> j == 0
            &&& s.stage is PowerUp || s.stage is Identify ==> j == 2 * n + 4
            &&& s.stage is Describe ==> j == 2 * n + 6
            &&& s.stage is HighSpeed ==> j == 2 * n + 17
        }),
{
    lemma_asks_len(n);
    lemma_asks_len(n + 1);
}

/// The registers that were read are accounted for.
spec fn looks_right(s: Service, looks: Seq<(nat, u8)>, n: nat) -> bool {
    let base = looks_before(s.init.stage, s.init.freq, s.link.signalling, n);
    match s.init.stage {
        Stage::Finished(Ok(_)) => looks == base,
        Stage::Finished(Err(_)) => true,
        _ => match s.init.job {
            JobState::Script(r) => looks == base + looks_in(
                r.steps,
                r.at,
                sent_before(s.init, s.link, n).len(),
            ),
            JobState::Moving(_) => looks == base,
        },
    }
}

/// The registers that a stage's script reads, after those before it, are those before the stage
/// that follows.
proof fn lemma_looks_lead_over(s: InitState, link: LinkModel, n: nat)
    requires
        !(s.stage is Finished),
        !moves_data(s.stage),
        s.stage is HighSpeed ==> s.freq > 25_000_000 && link.signalling == Signalling::SDR25,
    ensures
        ({
            let (next, nlink) = s.passed(link);
            let m = tally(s.stage, next.stage, n);
            let steps = script_of(s);
            ||| next.stage matches Stage::Finished(r) && r is Err
            ||| looks_before(next.stage, next.freq, nlink.signalling, m) == looks_before(
                s.stage,
                s.freq,
                link.signalling,
                n,
            ) + looks_in(steps, steps.len(), sent_before(s, link, n).len())
        }),
{
    let inner = s.inner;
    let base = sent_before(s, link, n).len();
    let none = Seq::<(nat, u8)>::empty();
    let before = looks_before(s.stage, s.freq, link.signalling, n);
    lemma_sent_before_len(s, link, n);
    match s.stage {
        Stage::Probe => {
            inner.lemma_looks_probe();
            assert(none + seq![(2nat, 0u8)] =~= early_looks(0));
        },
        Stage::PowerUp => {
            inner.lemma_looks_one(base);
            assert(early_looks(n) + seq![((2 * n + 4) as nat, 0u8)] =~= early_looks(n + 1));
        },
        Stage::Identify => {
            inner.lemma_looks_identify(base);
            assert(before + looks_in(inner.identify_steps(), 15, base) =~= early_looks(n + 1)
                + four_looks(2 * n + 5) + seq![(2 * n + 6, 0u8)]);
        },
        Stage::Describe => {
            let rca = rca_argument(s.card.rca);
            inner.lemma_looks_long(9, rca, base);
            assert(before + looks_in(inner.long_steps(9, rca), 9, base) =~= before + four_looks(
                2 * n + 7,
            ));
        },
        Stage::HighSpeed => {
            inner.lemma_looks_high_speed(divisor(s, s.freq), s.card.rca, base);
            assert(before + seq![((2 * n + 18) as nat, 0u8)] =~= served_looks(
                s.freq,
                Signalling::SDR25,
                n,
            ));
        },
        _ => {
            lemma_quiet_script(s);
            lemma_looks_none(script_of(s), script_of(s).len(), base);
            assert(before + none =~= before);
        },
    }
}

/// The scripts of the other stages read no register.
proof fn lemma_quiet_script(s: InitState)
    requires
        s.stage is AppCommand || s.stage is OperatingConditions || s.stage is Select || s.stage
            is Width || s.stage is Clock || moves_data(s.stage) || s.stage is Finished,
    ensures
        forall|i: int|
            0 <= i < script_of(s).len() ==> !(#[trigger] script_of(s)[i] is ReadResponse),
{
}

proof fn lemma_looks_script(
    s: Service,
    looks: Seq<(nat, u8)>,
    n: nat,
    r: RunState,
    reply: Reply,
)
    requires
        at_work(s.init),
        !(s.init.stage is Finished),
        s.init.job == JobState::Script(r),
        speaks(s, n),
        looks_right(s, looks, n),
    ensures
        ({
            let m = r.after(reply);
            let base = looks_before(s.init.stage, s.init.freq, s.link.signalling, n);
            let sent = sent_before(s.init, s.link, n).len();
            let next = looked(looks, s, reply);
            &&& next == base + looks_in(m.steps, m.at, sent)
            &&& m.steps == r.steps
            &&& !m.running() && m.failed is None ==> m.at == m.steps.len()
        }),
{
    let base = looks_before(s.init.stage, s.init.freq, s.link.signalling, n);
    let sent = sent_before(s.init, s.link, n).len();
    lemma_scripts_tame(s.init);
    lemma_run_moves(r, reply);
    lemma_sends_by(r.steps, r.at);
    let y = looks_in(r.steps, r.at, sent);
    assert(forall|l: (nat, u8)| (base + y).push(l) =~= base + y.push(l));
}

/// A transfer reads no register.
proof fn lemma_looks_transfer(
    s: Service,
    looks: Seq<(nat, u8)>,
    n: nat,
    t: TransferState,
    reply: Reply,
)
    requires
        !(s.init.stage is Finished),
        s.init.job == JobState::Moving(t),
        speaks(s, n),
        t.inner == s.init.inner,
        transfer_inv(t, s.hw, true),
    ensures
        looked(looks, s, reply) == looks,
{
    lemma_transfer_reads_nothing(t);
}

proof fn lemma_looks_step(s: Service, looks: Seq<(nat, u8)>, n: nat, reply: Reply)
    requires
        at_work(s.init),
        speaks(s, n),
        peripheral_tied(s),
        s.init.stage is Switch || s.init.stage is HighSpeed ==> s.init.freq > 25_000_000,
        s.init.stage is HighSpeed ==> s.link.signalling == Signalling::SDR25,
        looks_right(s, looks, n),
    ensures
        ({
            let next = s.after(reply);
            looks_right(next, looked(looks, s, reply), tally(s.init.stage, next.init.stage, n))
        }),
{
    let next = s.after(reply);
    if !(s.init.stage is Finished) {
        let moved = InitState { job: s.init.job.after(reply), ..s.init };
        lemma_stage_step(s.init, s.link, reply);
        match s.init.job {
            JobState::Script(r) => {
                lemma_looks_script(s, looks, n, r, reply);
                match moved.job.action() {
                    Action::Done(res) => {
                        if moved.judged(res) is Ok {
                            let base = sent_before(s.init, s.link, n).len();
                            let m = r.after(reply);
                            if res is Err {
                                lemma_quiet_script(s.init);
                                lemma_scripts_tame(s.init);
                                lemma_run_moves(r, reply);
                                lemma_looks_none(m.steps, m.at, base);
                                lemma_looks_none(m.steps, m.steps.len(), base);
                            }
                            lemma_looks_lead_over(moved, s.link, n);
                            assert(sent_before(moved, s.link, n) == sent_before(
                                s.init,
                                s.link,
                                n,
                            ));
                            assert(script_of(moved) == script_of(s.init));
                            lemma_looks_fresh(
                                next,
                                looked(looks, s, reply),
                                tally(s.init.stage, next.init.stage, n),
                            );
                        }
                    },
                    _ => {},
                }
            },
            JobState::Moving(t) => {
                lemma_looks_transfer(s, looks, n, t, reply);
                match moved.job.action() {
                    Action::Done(res) => {
                        if res is Ok {
                            lemma_looks_moved(moved, s.link, n);
                            lemma_looks_fresh(next, looks, n);
                        }
                    },
                    _ => {},
                }
            },
        }
    }
}

/// The registers that were read before a stage that moves data are those before the stage that
/// follows.
proof fn lemma_looks_moved(s: InitState, link: LinkModel, n: nat)
    requires
        moves_data(s.stage),
        s.stage is Switch ==> s.freq > 25_000_000,
    ensures
        ({
            let (next, nlink) = s.passed(link);
            ||| next.stage matches Stage::Finished(r) && r is Err
            ||| looks_before(next.stage, next.freq, nlink.signalling, n) == looks_before(
                s.stage,
                s.freq,
                link.signalling,
                n,
            )
        }),
{
}

/// Work that has just begun has read no register.
proof fn lemma_looks_fresh(s: Service, looks: Seq<(nat, u8)>, n: nat)
    requires
        s.init.stage is Finished || fresh(s.init),
        (s.init.stage matches Stage::Finished(r) && r is Err) || looks == looks_before(
            s.init.stage,
            s.init.freq,
            s.link.signalling,
            n,
        ),
    ensures
        looks_right(s, looks, n),
{
    assert(looks + Seq::<(nat, u8)>::empty() =~= looks);
}

proof fn lemma_registers_read(start: Service, replies: Seq<Reply>)
    requires
        start.ready(),
    ensures
        looks_right(
            start.replay(replies),
            registers_read(start, replies),
            busy_times(start, replies),
        ),
    decreases replies.len(),
{
    if replies.len() == 0 {
        lemma_looks_fresh(start, Seq::empty(), 0);
    } else {
        let before = replies.drop_last();
        lemma_registers_read(start, before);
        lemma_service(start, before);
        lemma_looks_step(
            start.replay(before),
            registers_read(start, before),
            busy_times(start, before),
            replies.last(),
        );
    }
}

/// The number that a card means by a word that it sent with the most significant byte first.
pub open spec fn meant(word: u32) -> int {
    word % 0x100 * 0x100_0000 + word / 0x100 % 0x100 * 0x1_0000 + word / 0x1_0000 % 0x100 * 0x100
        + word / 0x100_0000
}

/// The number in the four response registers, once `j` commands have been sent: register 0 holds
/// the most significant 32 bits, register 3 the least.
pub open spec fn long_response(held: spec_fn(nat, u8) -> u32, j: nat) -> int {
    held(j, 0) * 0x1_0000_0000_0000_0000_0000_0000 + held(j, 1) * 0x1_0000_0000_0000_0000 + held(
        j,
        2,
    ) * 0x1_0000_0000 + held(j, 3)
}

/// What is on record of a card that was busy `n` times is what the response registers held after
/// the commands that asked for it. Commands are counted from the first: CMD8 is the second, the
/// ACMD41 that found the card ready is number `2 * n + 4`, and CMD2, CMD3 and CMD9 follow on it.
pub open spec fn recorded(card: CardModel, held: spec_fn(nat, u8) -> u32, n: nat) -> bool {
    &&& held(2, 0) == 0x1AA
    &&& forall|i: nat| 1 <= i <= n ==> #[trigger] held(2 * i + 2, 0) < 0x8000_0000
    &&& held(2 * n + 4, 0) >= 0x8000_0000
    &&& card.ocr == held(2 * n + 4, 0)
    &&& card.card_type == CardCapacity::SDHC <==> card.ocr / 0x4000_0000 % 2 == 1
    &&& card.cid == long_response(held, 2 * n + 5)
    &&& card.rca == held(2 * n + 6, 0) / 0x1_0000
    &&& card.csd == long_response(held, 2 * n + 7)
}

/// The commands that a card was sent that was busy `n` times, told by the address `a` in the upper
/// half of an argument.
pub open spec fn full_course(freq: u32, agreed: bool, four: bool, a: u32, n: nat) -> Seq<
    (u8, u32),
> {
    let width = if four {
        2u32
    } else {
        0u32
    };
    let switch = if freq <= 25_000_000 {
        Seq::<(u8, u32)>::empty()
    } else if agreed {
        seq![(6u8, 0x80FF_FF01u32), (13u8, a)]
    } else {
        seq![(6u8, 0x80FF_FF01u32)]
    };
    seq![(0u8, 0u32), (8u8, 0x1AAu32)] + asked_for_power(n + 1) + seq![
        (2u8, 0u32),
        (3u8, 0u32),
        (9u8, a),
        (7u8, a),
        (16u8, 8u32),
        (55u8, a),
        (51u8, 0u32),
        (55u8, a),
        (6u8, width),
        (16u8, 64u32),
        (55u8, a),
        (13u8, 0u32),
    ] + switch + seq![(16u8, 64u32), (55u8, a), (13u8, 0u32)]
}

/// CMD55 and ACMD41, so many times.
pub open spec fn asked_for_power(n: nat) -> Seq<(u8, u32)>
    decreases n,
{
    if n == 0 {
        Seq::empty()
    } else {
        asked_for_power((n - 1) as nat) + seq![(55u8, 0u32), (41u8, 0xC110_0000u32)]
    }
}

/// A card that was busy `n` times is in service: on record by what the response registers held and
/// by what it sent of its registers; sent all the commands of the procedure and no others; with
/// power, as many lines as host and card have, and the clock that was asked for, or the default
/// speed where more was asked for and the card did not agree to it.
pub open spec fn served_as_held(
    s: Service,
    version: Version,
    freq: u32,
    bus_width: BusWidth,
    ker: u32,
    held: spec_fn(nat, u8) -> u32,
    n: nat,
) -> bool {
    let words = s.heard.words;
    let card = s.link.card->0;
    let a = held(2 * n + 6, 0) / 0x1_0000 * 0x1_0000;
    let four = bus_width == BusWidth::Four && card.scr / 0x4_0000_0000_0000 % 2 == 1;
    let agreed = s.link.signalling == Signalling::SDR25;
    let wanted = if freq <= 25_000_000 || agreed {
        freq as int
    } else {
        25_000_000
    };
    &&& s.link.card is Some
    &&& recorded(card, held, n)
    &&& s.sent.commands == full_course(freq, agreed, four, a as u32, n)
    &&& card.scr == meant(words[0][0]) * 0x1_0000_0000 + meant(words[0][1])
    &&& means(card.status, words.last())
    &&& freq <= 25_000_000 ==> words.len() == 3
    &&& freq > 25_000_000 ==> words.len() == 4 && numbered(
        words[2][4] as int % 16,
        s.link.signalling,
    )
    &&& freq > 25_000_000 && agreed ==> held(2 * n + 18, 0) / 0x200 % 0x10 == 4
    &&& s.hw.power == 3
    &&& s.hw.widbus == if four {
        1u8
    } else {
        0u8
    }
    &&& divides_well(version, ker as int, wanted, s.hw.clkdiv as int, s.link.clock.0 as int)
}

/// A card that was brought into service is on record by what the response registers held, each read
/// by its number after the command that filled it, and set up as was asked for.
pub proof fn law_served_card_is_as_held(
    inner: SdmmcInner,
    freq: Hertz,
    bus_width: BusWidth,
    ker_ck: Hertz,
    timeout: u32,
    link: LinkModel,
    hw: Hw,
    replies: Seq<Reply>,
    held: spec_fn(nat, u8) -> u32,
)
    requires
        can_begin(inner, freq, bus_width, ker_ck, link, hw),
        faithful(
            Service::begin(inner, freq, bus_width, ker_ck, timeout, link, hw),
            replies,
            held,
        ),
    ensures
        ({
            let start = Service::begin(inner, freq, bus_width, ker_ck, timeout, link, hw);
            let s = start.replay(replies);
            s.init.action() == Action::Done(Ok(())) ==> exists|n: nat|
                #[trigger] served_as_held(
                    s,
                    inner.version,
                    freq.0,
                    bus_width,
                    ker_ck.0,
                    held,
                    n,
                )
        }),
{
    let start = Service::begin(inner, freq, bus_width, ker_ck, timeout, link, hw);
    law_service_begins_as_asked(inner, freq, bus_width, ker_ck, timeout, link, hw);
    lemma_served(start, replies, held);
}

proof fn lemma_served(start: Service, replies: Seq<Reply>, held: spec_fn(nat, u8) -> u32)
    requires
        start.ready(),
        faithful(start, replies, held),
    ensures
        start.replay(replies).init.action() == Action::Done(Ok(())) ==> served_as_held(
            start.replay(replies),
            start.init.inner.version,
            start.init.freq,
            start.init.bus_width,
            start.init.ker_ck.0,
            held,
            busy_times(start, replies),
        ),
{
    lemma_service(start, replies);
    lemma_registers_read(start, replies);
    lemma_heard_is_held(start, replies, held);
    lemma_served_at_end(
        start,
        start.replay(replies),
        registers_read(start, replies),
        held,
        busy_times(start, replies),
    );
}

proof fn lemma_served_at_end(
    start: Service,
    s: Service,
    looks: Seq<(nat, u8)>,
    held: spec_fn(nat, u8) -> u32,
    n: nat,
)
    requires
        start.init.freq > 0,
        at_work(s.init),
        peripheral_tied(s),
        s.init.inner == start.init.inner,
        s.init.freq == start.init.freq,
        s.init.ker_ck == start.init.ker_ck,
        looks_right(s, looks, n),
        s.heard.responses.len() == looks.len(),
        forall|i: int|
            0 <= i < looks.len() ==> #[trigger] s.heard.responses[i] == held(
                looks[i].0,
                looks[i].1,
            ),
        s.init.stage == Stage::Finished(Ok(())) ==> {
            &&& s.link.card == Some(s.init.card)
            &&& as_told(start.init.freq, s.heard, s.link, s.init.card, n)
            &&& s.sent.commands == service_commands(
                start.init.freq,
                start.init.bus_width,
                s.link,
                s.init.card,
                n,
            )
            &&& s.hw.power == 3
            &&& clock_set(s, final_clock(start.init.freq, s.link.signalling))
            &&& s.hw.widbus == width_field(
                usable_width(start.init.bus_width, s.init.card.scr),
            )
        },
    ensures
        s.init.action() == Action::Done(Ok(())) ==> served_as_held(
            s,
            start.init.inner.version,
            start.init.freq,
            start.init.bus_width,
            start.init.ker_ck.0,
            held,
            n,
        ),
{
    if s.init.action() == Action::Done(Ok(())) {
        lemma_done_stage(s);
        lemma_served_as_held(
            s,
            looks,
            start.init.inner.version,
            start.init.freq,
            start.init.bus_width,
            start.init.ker_ck,
            held,
            n,
        );
    }
}

/// A procedure that says that it is done well is over, and went well.
proof fn lemma_done_stage(s: Service)
    requires
        at_work(s.init),
        peripheral_tied(s),
        s.init.action() == Action::Done(Ok(())),
    ensures
        s.init.stage == Stage::Finished(Ok(())),
{
}

proof fn lemma_served_as_held(
    s: Service,
    looks: Seq<(nat, u8)>,
    version: Version,
    freq: u32,
    bus_width: BusWidth,
    ker_ck: Hertz,
    held: spec_fn(nat, u8) -> u32,
    n: nat,
)
    requires
        freq > 0,
        s.link.card == Some(s.init.card),
        as_told(freq, s.heard, s.link, s.init.card, n),
        s.sent.commands == service_commands(freq, bus_width, s.link, s.init.card, n),
        s.hw.power == 3,
        s.hw.widbus == width_field(usable_width(bus_width, s.init.card.scr)),
        clk_div_spec(version, ker_ck, final_clock(freq, s.link.signalling)) == Ok::<
            (u16, Hertz),
            Error,
        >((s.hw.clkdiv, s.link.clock)),
        looks == served_looks(freq, s.link.signalling, n),
        s.heard.responses.len() == looks.len(),
        forall|i: int|
            0 <= i < looks.len() ==> #[trigger] s.heard.responses[i] == held(
                looks[i].0,
                looks[i].1,
            ),
    ensures
        served_as_held(s, version, freq, bus_width, ker_ck.0, held, n),
{
    let card = s.init.card;
    lemma_record(freq, s.heard, s.link, card, n, looks, held);
    lemma_course(freq, bus_width, s.link, card, n);
    lemma_words_meant(s.heard.words[0][0], s.heard.words[0][1]);
    lemma_selection(s.heard.words[2]);
    law_clk_div(version, ker_ck, final_clock(freq, s.link.signalling));
    assert(means(card.status, s.heard.words.last()));
}

/// The registers that are read, one by one.
proof fn lemma_served_looks(freq: u32, signalling: Signalling, n: nat)
    ensures
        ({
            let looks = served_looks(freq, signalling, n);
            let at = n as int;
            &&& looks.len() >= n + 11
            &&& looks[0] == (2nat, 0u8)
            &&& forall|i: nat| 1 <= i <= n + 1 ==> #[trigger] looks[i as int] == (2 * i + 2, 0u8)
            &&& looks[at + 2] == (2 * n + 5, 0u8)
            &&& looks[at + 3] == (2 * n + 5, 1u8)
            &&& looks[at + 4] == (2 * n + 5, 2u8)
            &&& looks[at + 5] == (2 * n + 5, 3u8)
            &&& looks[at + 6] == (2 * n + 6, 0u8)
            &&& looks[at + 7] == (2 * n + 7, 0u8)
            &&& looks[at + 8] == (2 * n + 7, 1u8)
            &&& looks[at + 9] == (2 * n + 7, 2u8)
            &&& looks[at + 10] == (2 * n + 7, 3u8)
            &&& freq > 25_000_000 && signalling == Signalling::SDR25 ==> looks.len() == n + 12
                && looks[at + 11] == (2 * n + 18, 0u8)
        }),
{
}

/// What is on record is what the registers held.
proof fn lemma_record(
    freq: u32,
    heard: Heard,
    link: LinkModel,
    card: CardModel,
    n: nat,
    looks: Seq<(nat, u8)>,
    held: spec_fn(nat, u8) -> u32,
)
    requires
        as_told(freq, heard, link, card, n),
        looks == served_looks(freq, link.signalling, n),
        heard.responses.len() == looks.len(),
        forall|i: int|
            0 <= i < looks.len() ==> #[trigger] heard.responses[i] == held(
                looks[i].0,
                looks[i].1,
            ),
    ensures
        recorded(card, held, n),
        freq > 25_000_000 && link.signalling == Signalling::SDR25 ==> held(2 * n + 18, 0) / 0x200
            % 0x10 == 4,
{
    let at = n as int;
    let r = heard.responses;
    lemma_served_looks(freq, link.signalling, n);
    assert(r[0] == held(2, 0));
    assert(looks[(n + 1) as nat as int] == (2 * n + 4, 0u8));
    assert(r[at + 1] == held(2 * n + 4, 0));
    assert(r[at + 2] == held(2 * n + 5, 0));
    assert(r[at + 3] == held(2 * n + 5, 1));
    assert(r[at + 4] == held(2 * n + 5, 2));
    assert(r[at + 5] == held(2 * n + 5, 3));
    assert(r[at + 6] == held(2 * n + 6, 0));
    assert(r[at + 7] == held(2 * n + 7, 0));
    assert(r[at + 8] == held(2 * n + 7, 1));
    assert(r[at + 9] == held(2 * n + 7, 2));
    assert(r[at + 10] == held(2 * n + 7, 3));
    assert forall|i: nat| 1 <= i <= n implies #[trigger] held(2 * i + 2, 0) < 0x8000_0000 by {
        assert(looks[i as int] == (2 * i + 2, 0u8));
        assert(busy(r[i as int]));
    }
}

proof fn lemma_asked_for_power(n: nat)
    ensures
        asks(n) == asked_for_power(n),
    decreases n,
{
    if n > 0 {
        lemma_asked_for_power((n - 1) as nat);
    }
}

/// The commands of the procedure, number by number.
proof fn lemma_course(freq: u32, bus_width: BusWidth, link: LinkModel, card: CardModel, n: nat)
    requires
        card.rca < 0x1_0000,
    ensures
        service_commands(freq, bus_width, link, card, n) == full_course(
            freq,
            link.signalling == Signalling::SDR25,
            bus_width == BusWidth::Four && card.scr / 0x4_0000_0000_0000 % 2 == 1,
            (card.rca * 0x1_0000) as u32,
            n,
        ),
{
    lemma_asked_for_power(n + 1);
    let four = bus_width == BusWidth::Four && card.scr / 0x4_0000_0000_0000 % 2 == 1;
    assert(service_commands(freq, bus_width, link, card, n) =~= full_course(
        freq,
        link.signalling == Signalling::SDR25,
        four,
        (card.rca * 0x1_0000) as u32,
        n,
    ));
}

proof fn lemma_words_meant(first: u32, second: u32)
    ensures
        big_endian_pair(first, second) == meant(first) * 0x1_0000_0000 + meant(second),
{
}

proof fn lemma_selection(words: Seq<u32>)
    ensures
        selection_of(words) == words[4] as int % 16,
{
    let word = words[4];
    assert(word % 0x100 % 0x10 == word % 0x10) by (bit_vector);
}

} // verus!
