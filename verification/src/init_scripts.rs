//! The scripts that bring a card into service: when they make their changes, how many responses
//! they read, and what they send.

use vstd::prelude::*;

use crate::cmd::{long_cmd, rca_argument, short_cmd, Cmd, Response};
use crate::effect::{careful, dataless, lemma_careful_join, straight};
use crate::init::{width_argument, width_field, CHECK_PATTERN};
use crate::inner::{SdmmcInner, POWER_ON};
use crate::registers::{RegWrite, Reply};
use crate::script::{RunState, Step, Wait};
use crate::sent::{lemma_sends_join, lemma_silent_sends, sends, silent};
use crate::types::BusWidth;

verus! {

/// A script that has nothing to do with moving data and makes each change only when it may.
pub open spec fn tame(steps: Seq<Step>) -> bool {
    &&& careful(steps, 0, false, false)
    &&& straight(steps)
    &&& dataless(steps)
}

pub proof fn lemma_tame_join(a: Seq<Step>, b: Seq<Step>)
    requires
        tame(a),
        tame(b),
    ensures
        tame(a + b),
{
    lemma_careful_join(a, b, 0, false, false);
}

/// How many responses are read in the first `at` steps of a script.
pub open spec fn reads(steps: Seq<Step>, at: nat) -> nat
    decreases at,
{
    if at == 0 {
        0
    } else {
        let before = reads(steps, (at - 1) as nat);
        if steps[at - 1] is ReadResponse {
            before + 1
        } else {
            before
        }
    }
}

pub proof fn lemma_reads_join(a: Seq<Step>, b: Seq<Step>, at: nat)
    requires
        at <= b.len(),
    ensures
        reads(a + b, a.len() + at) == reads(a, a.len()) + reads(b, at),
    decreases at,
{
    if at == 0 {
        lemma_reads_prefix(a, b, a.len());
    } else {
        lemma_reads_join(a, b, (at - 1) as nat);
        assert((a + b)[a.len() + at - 1] == b[at - 1]);
    }
}

pub proof fn lemma_reads_prefix(a: Seq<Step>, b: Seq<Step>, at: nat)
    requires
        at <= a.len(),
    ensures
        reads(a + b, at) == reads(a, at),
    decreases at,
{
    if at > 0 {
        lemma_reads_prefix(a, b, (at - 1) as nat);
    }
}

impl SdmmcInner {
    /// Sending a command is tame and reads no response.
    pub proof fn lemma_tame_cmd(self, cmd: Cmd, data: bool)
        ensures
            tame(self.cmd_steps(cmd, data)),
            reads(self.cmd_steps(cmd, data), 5) == 0,
            self.cmd_steps(cmd, data).len() == 5,
    {
        self.lemma_cmd(cmd, data);
        reveal_with_fuel(reads, 6);
    }

    pub proof fn lemma_tame_probe(self)
        ensures
            tame(self.probe_steps()),
            reads(self.probe_steps(), self.probe_steps().len()) == 1,
            self.probe_steps()[0] == Step::Write(RegWrite::Power(POWER_ON)),
            self.probe_steps().len() == 12,
    {
        let p = seq![Step::Write(RegWrite::Power(POWER_ON))];
        let a = self.cmd_steps(Cmd { cmd: 0, arg: 0, resp: Response::Absent }, false);
        let b = self.cmd_steps(short_cmd(8, CHECK_PATTERN), false);
        let r = seq![Step::ReadResponse(0)];
        reveal_with_fuel(careful, 2);
        reveal_with_fuel(reads, 2);
        self.lemma_tame_cmd(Cmd { cmd: 0, arg: 0, resp: Response::Absent }, false);
        self.lemma_tame_cmd(short_cmd(8, CHECK_PATTERN), false);
        lemma_tame_join(p, a);
        lemma_tame_join(p + a, b);
        lemma_tame_join(p + a + b, r);
        lemma_reads_join(p, a, 5);
        lemma_reads_join(p + a, b, 5);
        lemma_reads_join(p + a + b, r, 1);
    }

    pub proof fn lemma_tame_long(self, cmd: u8, arg: u32)
        ensures
            tame(self.long_steps(cmd, arg)),
            reads(self.long_steps(cmd, arg), 9) == 4,
            self.long_steps(cmd, arg).len() == 9,
    {
        let a = self.cmd_steps(long_cmd(cmd, arg), false);
        let r = seq![
            Step::ReadResponse(0),
            Step::ReadResponse(1),
            Step::ReadResponse(2),
            Step::ReadResponse(3),
        ];
        reveal_with_fuel(careful, 5);
        reveal_with_fuel(reads, 5);
        self.lemma_tame_cmd(long_cmd(cmd, arg), false);
        lemma_tame_join(a, r);
        lemma_reads_join(a, r, 4);
    }

    pub proof fn lemma_tame_identify(self)
        ensures
            tame(self.identify_steps()),
            reads(self.identify_steps(), 15) == 5,
            self.identify_steps().len() == 15,
    {
        let a = self.long_steps(2, 0);
        let b = self.cmd_steps(short_cmd(3, 0), false);
        let r = seq![Step::ReadResponse(0)];
        reveal_with_fuel(careful, 2);
        reveal_with_fuel(reads, 2);
        self.lemma_tame_long(2, 0);
        self.lemma_tame_cmd(short_cmd(3, 0), false);
        lemma_tame_join(a, b);
        lemma_tame_join(a + b, r);
        lemma_reads_join(a, b, 5);
        lemma_reads_join(a + b, r, 1);
    }

    pub proof fn lemma_tame_width(self, rca: u32, width: BusWidth)
        ensures
            tame(self.width_steps(rca, width)),
            reads(self.width_steps(rca, width), 12) == 0,
            self.width_steps(rca, width).len() == 12,
            self.width_steps(rca, width)[11] == Step::Write(
                RegWrite::Widbus(width_field(width)),
            ),
    {
        let a = self.cmd_steps(short_cmd(55, rca_argument(rca)), false);
        let b = self.cmd_steps(short_cmd(6, width_argument(width)), false);
        let r = seq![
            Step::AwaitIdle(Wait::Both),
            Step::Write(RegWrite::Widbus(width_field(width))),
        ];
        reveal_with_fuel(careful, 3);
        reveal_with_fuel(reads, 3);
        self.lemma_tame_cmd(short_cmd(55, rca_argument(rca)), false);
        self.lemma_tame_cmd(short_cmd(6, width_argument(width)), false);
        lemma_tame_join(a, b);
        lemma_tame_join(a + b, r);
        lemma_reads_join(a, b, 5);
        lemma_reads_join(a + b, r, 2);
    }

    pub proof fn lemma_tame_clkdiv(self, clkdiv: u16)
        ensures
            tame(self.clkdiv_steps(clkdiv)),
            tame(self.clkdiv_steps(clkdiv) + Seq::empty()),
            reads(self.clkdiv_steps(clkdiv), 2) == 0,
            self.clkdiv_steps(clkdiv).len() == 2,
            self.clkdiv_steps(clkdiv)[1] == Step::Write(RegWrite::Clkdiv(clkdiv)),
    {
        reveal_with_fuel(careful, 3);
        reveal_with_fuel(reads, 3);
        assert(self.clkdiv_steps(clkdiv) + Seq::empty() =~= self.clkdiv_steps(clkdiv));
    }

    pub proof fn lemma_tame_high_speed(self, clkdiv: u16, rca: u32)
        ensures
            ({
                let s = self.clkdiv_steps(clkdiv) + self.read_status_steps(rca);
                &&& tame(s)
                &&& reads(s, 8) == 1
                &&& s.len() == 8
                &&& s[1] == Step::Write(RegWrite::Clkdiv(clkdiv))
            }),
    {
        let a = self.clkdiv_steps(clkdiv);
        let b = self.cmd_steps(short_cmd(13, rca_argument(rca)), false);
        let r = seq![Step::ReadResponse(0)];
        self.lemma_tame_clkdiv(clkdiv);
        reveal_with_fuel(careful, 2);
        reveal_with_fuel(reads, 2);
        self.lemma_tame_cmd(short_cmd(13, rca_argument(rca)), false);
        lemma_tame_join(b, r);
        lemma_reads_join(b, r, 1);
        assert(b + r =~= self.read_status_steps(rca));
        lemma_tame_join(a, b + r);
        lemma_reads_join(a, b + r, 6);
    }

    pub proof fn lemma_tame_response(self)
        ensures
            tame(seq![Step::ReadResponse(0)]),
            reads(seq![Step::ReadResponse(0)], 1) == 1,
    {
        reveal_with_fuel(careful, 2);
        reveal_with_fuel(reads, 2);
    }
}

/// A script that reads nothing hears nothing.
pub proof fn lemma_reads_none(steps: Seq<Step>, at: nat)
    requires
        at <= steps.len(),
        forall|i: int| 0 <= i < steps.len() ==> !(#[trigger] steps[i] is ReadResponse),
    ensures
        reads(steps, at) == 0,
    decreases at,
{
    if at > 0 {
        lemma_reads_none(steps, (at - 1) as nat);
    }
}

/// A reply to a script keeps count of the responses.
pub proof fn lemma_reads_step(r: RunState, reply: Reply)
    requires
        r.running(),
        straight(r.steps),
        r.responses.len() == reads(r.steps, r.at),
    ensures
        ({
            let n = r.after(reply);
            &&& n.responses.len() == reads(n.steps, n.at)
            &&& n.at <= n.steps.len()
            &&& !n.running() && n.failed is None ==> n.at == n.steps.len()
        }),
{
}

impl SdmmcInner {
    pub proof fn lemma_probe_sends(self)
        ensures
            sends(self.probe_steps(), seq![(0u8, 0u32), (8u8, CHECK_PATTERN)]),
    {
        let p = seq![Step::Write(RegWrite::Power(POWER_ON))];
        let idle = Cmd { cmd: 0, arg: 0, resp: Response::Absent };
        let a = self.cmd_steps(idle, false);
        let b = self.cmd_steps(short_cmd(8, CHECK_PATTERN), false);
        let r = seq![Step::ReadResponse(0)];
        let none = Seq::<(u8, u32)>::empty();
        let x = seq![(0u8, 0u32)];
        let y = seq![(8u8, CHECK_PATTERN)];
        assert(silent(p));
        lemma_silent_sends(p);
        assert(silent(r));
        lemma_silent_sends(r);
        self.lemma_cmd_sends(idle, false);
        self.lemma_cmd_sends(short_cmd(8, CHECK_PATTERN), false);
        lemma_sends_join(p, a, none, x);
        lemma_sends_join(p + a, b, none + x, y);
        lemma_sends_join(p + a + b, r, none + x + y, none);
        assert(none + x + y + none =~= seq![(0u8, 0u32), (8u8, CHECK_PATTERN)]);
    }

    pub proof fn lemma_long_sends(self, cmd: u8, arg: u32)
        ensures
            sends(self.long_steps(cmd, arg), seq![(cmd, arg)]),
    {
        let a = self.cmd_steps(long_cmd(cmd, arg), false);
        let r = seq![
            Step::ReadResponse(0),
            Step::ReadResponse(1),
            Step::ReadResponse(2),
            Step::ReadResponse(3),
        ];
        assert(silent(r));
        lemma_silent_sends(r);
        self.lemma_cmd_sends(long_cmd(cmd, arg), false);
        lemma_sends_join(a, r, seq![(cmd, arg)], Seq::empty());
        assert(seq![(cmd, arg)] + Seq::<(u8, u32)>::empty() =~= seq![(cmd, arg)]);
    }

    pub proof fn lemma_identify_sends(self)
        ensures
            sends(self.identify_steps(), seq![(2u8, 0u32), (3u8, 0u32)]),
    {
        let a = self.long_steps(2, 0);
        let b = self.cmd_steps(short_cmd(3, 0), false);
        let r = seq![Step::ReadResponse(0)];
        let none = Seq::<(u8, u32)>::empty();
        let x = seq![(2u8, 0u32)];
        let y = seq![(3u8, 0u32)];
        assert(silent(r));
        lemma_silent_sends(r);
        self.lemma_long_sends(2, 0);
        self.lemma_cmd_sends(short_cmd(3, 0), false);
        lemma_sends_join(a, b, x, y);
        lemma_sends_join(a + b, r, x + y, none);
        assert(x + y + none =~= seq![(2u8, 0u32), (3u8, 0u32)]);
    }

    pub proof fn lemma_width_sends(self, rca: u32, width: BusWidth)
        ensures
            sends(
                self.width_steps(rca, width),
                seq![(55u8, rca_argument(rca)), (6u8, width_argument(width))],
            ),
    {
        let a = self.cmd_steps(short_cmd(55, rca_argument(rca)), false);
        let b = self.cmd_steps(short_cmd(6, width_argument(width)), false);
        let r = seq![
            Step::AwaitIdle(Wait::Both),
            Step::Write(RegWrite::Widbus(width_field(width))),
        ];
        let none = Seq::<(u8, u32)>::empty();
        let x = seq![(55u8, rca_argument(rca))];
        let y = seq![(6u8, width_argument(width))];
        assert(silent(r));
        lemma_silent_sends(r);
        self.lemma_cmd_sends(short_cmd(55, rca_argument(rca)), false);
        self.lemma_cmd_sends(short_cmd(6, width_argument(width)), false);
        lemma_sends_join(a, b, x, y);
        lemma_sends_join(a + b, r, x + y, none);
        assert(x + y + none =~= seq![(55u8, rca_argument(rca)), (6u8, width_argument(width))]);
    }

    pub proof fn lemma_high_speed_sends(self, clkdiv: u16, rca: u32)
        ensures
            sends(
                self.clkdiv_steps(clkdiv) + self.read_status_steps(rca),
                seq![(13u8, rca_argument(rca))],
            ),
    {
        let a = self.clkdiv_steps(clkdiv);
        let b = self.cmd_steps(short_cmd(13, rca_argument(rca)), false);
        let r = seq![Step::ReadResponse(0)];
        let none = Seq::<(u8, u32)>::empty();
        let x = seq![(13u8, rca_argument(rca))];
        assert(silent(a));
        lemma_silent_sends(a);
        assert(silent(r));
        lemma_silent_sends(r);
        self.lemma_cmd_sends(short_cmd(13, rca_argument(rca)), false);
        lemma_sends_join(b, r, x, none);
        assert(b + r =~= self.read_status_steps(rca));
        lemma_sends_join(a, b + r, none, x + none);
        assert(none + (x + none) =~= x);
    }
}

} // verus!
