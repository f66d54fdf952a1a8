//! What holds of bringing a card into service, command by command and register by register.

use vstd::prelude::*;

use crate::bench::{
    answer_kind, awaited_kind, fits_all, in_its_place, lenient, moves, Aim, Regs,
};
use crate::clock::{law_card_clock, law_clk_div};
use crate::cmd::{long_cmd, rca_argument, short_cmd, Cmd, Response};
use crate::data_laws::{
    in_order, lemma_fits_step, lemma_transfer_goes, lemma_transfer_goes_start,
    lemma_transfer_goes_step, transfer_goes,
};
use crate::effect::{lemma_run_moves, Hw};
use crate::init::{
    first_clock, usable_width, width_argument, width_field, InitState, Stage, CHECK_PATTERN,
    OPERATING_CONDITIONS,
};
use crate::init_laws::{
    at_work, busy_times, divisor, fresh, law_failed_init_has_a_reason, lemma_broken_off_sends,
    lemma_scripts_tame, lemma_service, lemma_service_settings, lemma_stage_step,
    lemma_start_keeps_plan,
    lemma_transfer_hears, moves_data, peripheral_tied, plan_of, reason, script_of, sent_before,
    speaks, stage_commands, tally, words_heard, Heard, Service,
};
use crate::inner::{SdmmcInner, POWER_ON};
use crate::job::JobState;
use crate::link::LinkModel;
use crate::registers::{Action, RegWrite, Reply};
use crate::script::{RunState, Step, Wait};
use crate::sent::Sent;
use crate::transfer::TransferState;
use crate::types::{BusWidth, Error, Hertz, Signalling, Version};

verus! {

impl Service {
    /// A card about to be brought into service.
    pub open spec fn begin(
        inner: SdmmcInner,
        freq: Hertz,
        bus_width: BusWidth,
        ker_ck: Hertz,
        timeout: u32,
        link: LinkModel,
        hw: Hw,
    ) -> Service {
        Service {
            init: InitState::start(inner, freq, bus_width, ker_ck, timeout),
            link,
            hw,
            heard: Heard::nothing(),
            sent: Sent { argument: hw.regs.argument, commands: Seq::empty() },
        }
    }
}

/// The card clock, in whole Hertz, of a kernel clock and a value of the divisor field.
pub open spec fn runs_at(version: Version, ker: int, clkdiv: int) -> int {
    match version {
        Version::V1 => ker / (clkdiv + 2),
        Version::V2 => if clkdiv == 0 {
            ker
        } else {
            ker / (2 * clkdiv)
        },
    }
}

/// A card can be brought into service: the clocks are not zero and no more than four lines are
/// asked for; nothing moves data, and the clock on record is the one that the divisor gives.
pub open spec fn can_begin(
    inner: SdmmcInner,
    freq: Hertz,
    bus_width: BusWidth,
    ker_ck: Hertz,
    link: LinkModel,
    hw: Hw,
) -> bool {
    &&& freq.0 > 0
    &&& ker_ck.0 > 0
    &&& bus_width != BusWidth::Eight
    &&& !hw.dma && !hw.dten
    &&& link.clock.0 == runs_at(inner.version, ker_ck.0 as int, hw.clkdiv as int)
}

/// What is begun is what was asked for, with nothing heard and nothing sent yet.
pub proof fn law_service_begins_as_asked(
    inner: SdmmcInner,
    freq: Hertz,
    bus_width: BusWidth,
    ker_ck: Hertz,
    timeout: u32,
    link: LinkModel,
    hw: Hw,
)
    requires
        can_begin(inner, freq, bus_width, ker_ck, link, hw),
    ensures
        ({
            let s = Service::begin(inner, freq, bus_width, ker_ck, timeout, link, hw);
            &&& s.ready()
            &&& s.init.inner == inner
            &&& s.init.freq == freq.0
            &&& s.init.bus_width == bus_width
            &&& s.init.ker_ck == ker_ck
            &&& s.init.timeout == timeout
            &&& !(s.init.action() is Done)
        }),
{
    let s = Service::begin(inner, freq, bus_width, ker_ck, timeout, link, hw);
    law_card_clock(inner.version, ker_ck, hw.clkdiv as nat);
    vstd::arithmetic::div_mod::lemma_div_basics(ker_ck.0 as int);
    inner.lemma_tame_probe();
    assert(s.clock_on_record());
}

/// A failure that is none: ACMD41 has no valid checksum, and a card without an address does not
/// answer CMD7.
pub open spec fn excusable(fault: (u8, u32, Error)) -> bool {
    ||| fault.0 == 41 && fault.2 == Error::Crc
    ||| fault.0 == 7 && fault.1 == 0 && fault.2 == Error::Timeout
}

/// All that went wrong after these can be excused.
pub open spec fn excused(faults: Seq<(u8, u32, Error)>, base: Seq<(u8, u32, Error)>) -> bool {
    &&& base.len() <= faults.len()
    &&& faults.take(base.len() as int) == base
    &&& forall|i: int| base.len() <= i < faults.len() ==> excusable(#[trigger] faults[i])
}

/// What a stage's script is for.
spec fn aim_of(stage: Stage) -> Aim {
    if stage is OperatingConditions || stage is Select {
        Aim::Lenient
    } else {
        Aim::Strict
    }
}

/// The registers and the account of what was sent say the same of the last command.
spec fn tied(s: Service) -> bool {
    &&& s.sent.argument == s.hw.regs.argument
    &&& s.sent.commands.len() > 0 ==> {
        &&& s.hw.regs.last matches Some(l)
        &&& l.0 == s.sent.commands.last().0
        &&& s.hw.regs.last_argument == s.sent.commands.last().1
    }
}

/// What ties a transfer in the course of the procedure to the peripheral.
spec fn moving_goes(t: TransferState, hw: Hw, base: Seq<(u8, u32, Error)>) -> bool {
    exists|f: Seq<(u8, u32, Error)>| #[trigger] transfer_goes(t, hw, f) && excused(f, base)
}

/// How the procedure failed: by the last thing that went wrong, which cannot be excused; or, all
/// that went wrong being excused, for another reason than the bus.
pub open spec fn blames(
    e: Error,
    faults: Seq<(u8, u32, Error)>,
    base: Seq<(u8, u32, Error)>,
) -> bool {
    if e == Error::Timeout || e == Error::Crc {
        &&& faults.len() > base.len()
        &&& faults.last().2 == e
        &&& !excusable(faults.last())
        &&& excused(faults.drop_last(), base)
    } else {
        excused(faults, base)
    }
}

/// The procedure goes as it should.
spec fn service_goes(s: Service, base: Seq<(u8, u32, Error)>) -> bool {
    &&& tied(s)
    &&& match s.init.stage {
        Stage::Finished(Ok(_)) => excused(s.hw.faults, base),
        Stage::Finished(Err(e)) => blames(e, s.hw.faults, base),
        _ => match s.init.job {
            JobState::Script(r) => {
                &&& excused(s.hw.faults, base)
                &&& fits_all(
                    r.steps,
                    r.at,
                    s.hw.regs,
                    s.init.inner.version,
                    s.init.timeout,
                    aim_of(s.init.stage),
                )
            },
            JobState::Moving(t) => moving_goes(t, s.hw, base),
        },
    }
}

/// The account of the last command outlasts a reply.
proof fn lemma_tied_step(s: Service, reply: Reply)
    requires
        tied(s),
    ensures
        tied(s.after(reply)),
{
}

impl SdmmcInner {
    /// A command without data, and then a script, fit where the script fits whatever came before.
    proof fn lemma_fits_plain(
        self,
        cmd: Cmd,
        rest: Seq<Step>,
        regs: Regs,
        timeout: u32,
        aim: Aim,
    )
        requires
            cmd.cmd != 12,
            aim != Aim::Lenient ==> !lenient(cmd.cmd),
            in_its_place(cmd.cmd, regs.after_app()),
            awaited_kind(cmd.resp) == answer_kind(cmd.cmd),
            moves(cmd.cmd, regs.after_app()) is None,
            fits_all(rest, 0, self.after_cmd(regs, cmd, false), self.version, timeout, aim),
        ensures
            fits_all(
                self.cmd_steps(cmd, false) + rest,
                0,
                regs,
                self.version,
                timeout,
                aim,
            ),
    {
        self.lemma_fits_cmd(cmd, false, rest, regs, timeout, aim);
    }

    proof fn lemma_fits_probe(self, regs: Regs, timeout: u32)
        ensures
            fits_all(self.probe_steps(), 0, regs, self.version, timeout, Aim::Strict),
    {
        let p = seq![Step::Write(RegWrite::Power(POWER_ON))];
        let idle = Cmd { cmd: 0, arg: 0, resp: Response::Absent };
        let check = short_cmd(8, CHECK_PATTERN);
        let a = self.cmd_steps(idle, false);
        let b = self.cmd_steps(check, false);
        let r = seq![Step::ReadResponse(0)];
        let r1 = self.after_cmd(regs, idle, false);
        let r2 = self.after_cmd(r1, check, false);
        assert(fits_all(r, 0, r2, self.version, timeout, Aim::Strict)) by {
            reveal_with_fuel(fits_all, 2);
        }
        self.lemma_fits_plain(check, r, r1, timeout, Aim::Strict);
        self.lemma_fits_plain(idle, b + r, regs, timeout, Aim::Strict);
        let s = p + (a + (b + r));
        crate::bench::lemma_fits_shift(
            p,
            a + (b + r),
            0,
            regs,
            self.version,
            timeout,
            Aim::Strict,
        );
        assert(self.probe_steps() =~= s);
        assert(s[0] == p[0]);
        assert(fits_all(s, 1, regs, self.version, timeout, Aim::Strict));
    }

    proof fn lemma_fits_single(self, cmd: Cmd, regs: Regs, timeout: u32, aim: Aim)
        requires
            cmd.cmd != 12,
            aim == Aim::Strict ==> !lenient(cmd.cmd),
            aim != Aim::Data,
            in_its_place(cmd.cmd, regs.after_app()),
            awaited_kind(cmd.resp) == answer_kind(cmd.cmd),
            moves(cmd.cmd, regs.after_app()) is None,
        ensures
            fits_all(self.cmd_steps(cmd, false), 0, regs, self.version, timeout, aim),
    {
        let none = Seq::<Step>::empty();
        self.lemma_fits_plain(cmd, none, regs, timeout, aim);
        assert(self.cmd_steps(cmd, false) + none =~= self.cmd_steps(cmd, false));
    }

    /// Reading the four response registers fits where no answer is outstanding.
    proof fn lemma_fits_reading(self, rest: Seq<Step>, regs: Regs, timeout: u32)
        requires
            regs.waits is None,
            fits_all(rest, 0, regs, self.version, timeout, Aim::Strict),
        ensures
            fits_all(
                seq![
                    Step::ReadResponse(0),
                    Step::ReadResponse(1),
                    Step::ReadResponse(2),
                    Step::ReadResponse(3),
                ] + rest,
                0,
                regs,
                self.version,
                timeout,
                Aim::Strict,
            ),
    {
        let a = seq![
            Step::ReadResponse(0),
            Step::ReadResponse(1),
            Step::ReadResponse(2),
            Step::ReadResponse(3),
        ];
        let s = a + rest;
        let v = self.version;
        crate::bench::lemma_fits_shift(a, rest, 0, regs, v, timeout, Aim::Strict);
        assert(s[0] == a[0] && s[1] == a[1] && s[2] == a[2] && s[3] == a[3]);
        assert(fits_all(s, 4, regs, v, timeout, Aim::Strict));
        assert(fits_all(s, 3, regs, v, timeout, Aim::Strict));
        assert(fits_all(s, 2, regs, v, timeout, Aim::Strict));
        assert(fits_all(s, 1, regs, v, timeout, Aim::Strict));
    }

    proof fn lemma_fits_long(
        self,
        index: u8,
        arg: u32,
        rest: Seq<Step>,
        regs: Regs,
        timeout: u32,
    )
        requires
            index == 2 || index == 9,
            fits_all(
                rest,
                0,
                self.after_cmd(regs, long_cmd(index, arg), false),
                self.version,
                timeout,
                Aim::Strict,
            ),
        ensures
            fits_all(
                self.long_steps(index, arg) + rest,
                0,
                regs,
                self.version,
                timeout,
                Aim::Strict,
            ),
    {
        let cmd = long_cmd(index, arg);
        let four = seq![
            Step::ReadResponse(0),
            Step::ReadResponse(1),
            Step::ReadResponse(2),
            Step::ReadResponse(3),
        ];
        let r1 = self.after_cmd(regs, cmd, false);
        self.lemma_fits_reading(rest, r1, timeout);
        self.lemma_fits_plain(cmd, four + rest, regs, timeout, Aim::Strict);
        assert(self.long_steps(index, arg) + rest =~= self.cmd_steps(cmd, false) + (four + rest));
    }

    proof fn lemma_fits_identify(self, regs: Regs, timeout: u32)
        ensures
            fits_all(self.identify_steps(), 0, regs, self.version, timeout, Aim::Strict),
    {
        let cmd = short_cmd(3, 0);
        let r1 = self.after_cmd(regs, long_cmd(2, 0), false);
        let r2 = self.after_cmd(r1, cmd, false);
        let r = seq![Step::ReadResponse(0)];
        assert(fits_all(r, 0, r2, self.version, timeout, Aim::Strict)) by {
            reveal_with_fuel(fits_all, 2);
        }
        self.lemma_fits_plain(cmd, r, r1, timeout, Aim::Strict);
        let rest = self.cmd_steps(cmd, false) + r;
        self.lemma_fits_long(2, 0, rest, regs, timeout);
        assert(self.identify_steps() =~= self.long_steps(2, 0) + rest);
    }

    proof fn lemma_fits_describe(self, arg: u32, regs: Regs, timeout: u32)
        ensures
            fits_all(self.long_steps(9, arg), 0, regs, self.version, timeout, Aim::Strict),
    {
        let none = Seq::<Step>::empty();
        self.lemma_fits_long(9, arg, none, regs, timeout);
        assert(self.long_steps(9, arg) + none =~= self.long_steps(9, arg));
    }

    proof fn lemma_fits_width(self, rca: u32, width: BusWidth, regs: Regs, timeout: u32)
        ensures
            fits_all(self.width_steps(rca, width), 0, regs, self.version, timeout, Aim::Strict),
    {
        let app = short_cmd(55, rca_argument(rca));
        let set = short_cmd(6, width_argument(width));
        let r1 = self.after_cmd(regs, app, false);
        let r2 = self.after_cmd(r1, set, false);
        let r = seq![
            Step::AwaitIdle(Wait::Both),
            Step::Write(RegWrite::Widbus(width_field(width))),
        ];
        assert(fits_all(r, 0, r2, self.version, timeout, Aim::Strict)) by {
            reveal_with_fuel(fits_all, 3);
        }
        self.lemma_fits_plain(set, r, r1, timeout, Aim::Strict);
        let rest = self.cmd_steps(set, false) + r;
        self.lemma_fits_plain(app, rest, regs, timeout, Aim::Strict);
        assert(self.width_steps(rca, width) =~= self.cmd_steps(app, false) + rest);
    }

    /// Setting the divisor fits where no answer is outstanding, and so does what follows.
    proof fn lemma_fits_clock(self, clkdiv: u16, rest: Seq<Step>, regs: Regs, timeout: u32)
        requires
            regs.waits is None,
            fits_all(rest, 0, regs, self.version, timeout, Aim::Strict),
        ensures
            fits_all(
                self.clkdiv_steps(clkdiv) + rest,
                0,
                regs,
                self.version,
                timeout,
                Aim::Strict,
            ),
    {
        let a = self.clkdiv_steps(clkdiv);
        let s = a + rest;
        let v = self.version;
        crate::bench::lemma_fits_shift(a, rest, 0, regs, v, timeout, Aim::Strict);
        assert(s[0] == a[0] && s[1] == a[1]);
        assert(regs.written(RegWrite::Clkdiv(clkdiv)) == regs);
        assert(fits_all(s, 2, regs, v, timeout, Aim::Strict));
        assert(fits_all(s, 1, regs, v, timeout, Aim::Strict));
    }

    proof fn lemma_fits_high_speed(self, clkdiv: u16, rca: u32, regs: Regs, timeout: u32)
        requires
            regs.waits is None,
            !regs.after_app(),
        ensures
            fits_all(
                self.clkdiv_steps(clkdiv) + self.read_status_steps(rca),
                0,
                regs,
                self.version,
                timeout,
                Aim::Strict,
            ),
    {
        let cmd = short_cmd(13, rca_argument(rca));
        let r = seq![Step::ReadResponse(0)];
        let r1 = self.after_cmd(regs, cmd, false);
        assert(fits_all(r, 0, r1, self.version, timeout, Aim::Strict)) by {
            reveal_with_fuel(fits_all, 2);
        }
        self.lemma_fits_plain(cmd, r, regs, timeout, Aim::Strict);
        assert(self.cmd_steps(cmd, false) + r =~= self.read_status_steps(rca));
        self.lemma_fits_clock(clkdiv, self.read_status_steps(rca), regs, timeout);
    }
}

/// The script of a stage fits what was sent before the stage.
proof fn lemma_script_fits(s: InitState, regs: Regs)
    requires
        !(s.stage is Finished),
        !moves_data(s.stage),
        s.stage is Probe || regs.waits is None,
        s.stage is OperatingConditions ==> regs.after_app(),
        s.stage is HighSpeed ==> !regs.after_app(),
    ensures
        fits_all(script_of(s), 0, regs, s.inner.version, s.timeout, aim_of(s.stage)),
{
    let inner = s.inner;
    let rca = rca_argument(s.card.rca);
    match s.stage {
        Stage::Probe => inner.lemma_fits_probe(regs, s.timeout),
        Stage::AppCommand => inner.lemma_fits_single(
            short_cmd(55, 0),
            regs,
            s.timeout,
            Aim::Strict,
        ),
        Stage::OperatingConditions => inner.lemma_fits_single(
            short_cmd(41, OPERATING_CONDITIONS),
            regs,
            s.timeout,
            Aim::Lenient,
        ),
        Stage::PowerUp => {
            reveal_with_fuel(fits_all, 2);
        },
        Stage::Identify => inner.lemma_fits_identify(regs, s.timeout),
        Stage::Describe => inner.lemma_fits_describe(rca, regs, s.timeout),
        Stage::Select => inner.lemma_fits_single(
            short_cmd(7, rca),
            regs,
            s.timeout,
            Aim::Lenient,
        ),
        Stage::Width => inner.lemma_fits_width(
            s.card.rca,
            usable_width(s.bus_width, s.card.scr),
            regs,
            s.timeout,
        ),
        Stage::Clock => {
            inner.lemma_fits_clock(
                divisor(s, first_clock(s.freq)),
                Seq::empty(),
                regs,
                s.timeout,
            );
        },
        Stage::HighSpeed => inner.lemma_fits_high_speed(
            divisor(s, s.freq),
            s.card.rca,
            regs,
            s.timeout,
        ),
        _ => {},
    }
}

/// Work that has just begun goes as it should.
proof fn lemma_fresh_goes(s: Service, n: nat, base: Seq<(u8, u32, Error)>)
    requires
        fresh(s.init),
        !(s.init.stage is Finished),
        tied(s),
        s.init.stage is Probe || s.hw.regs.waits is None,
        s.sent.commands == sent_before(s.init, s.link, n),
        excused(s.hw.faults, base),
    ensures
        service_goes(s, base),
{
    lemma_sent_before(s.init, s.link, n);
    match s.init.job {
        JobState::Script(r) => lemma_script_fits(s.init, s.hw.regs),
        JobState::Moving(t) => {
            lemma_start_keeps_plan(s.init.inner, plan_of(s.init));
            lemma_transfer_goes_start(s.init.inner, plan_of(s.init), s.hw);
            assert(transfer_goes(t, s.hw, s.hw.faults));
        },
    }
}

/// The last command before some of the stages.
proof fn lemma_sent_before(s: InitState, link: LinkModel, n: nat)
    ensures
        ({
            let sent = sent_before(s, link, n);
            &&& s.stage is OperatingConditions ==> sent.len() > 0 && sent.last() == (55u8, 0u32)
            &&& s.stage is Switch ==> sent.len() > 0 && sent.last() == (13u8, 0u32)
            &&& s.stage is HighSpeed ==> sent.len() > 0 && sent.last() == (6u8, 0x80FF_FF01u32)
        }),
{
}

/// What is left of a stage's script that was broken off, or came to its end.
proof fn lemma_script_goes(
    s: Service,
    n: nat,
    base: Seq<(u8, u32, Error)>,
    r: RunState,
    reply: Reply,
)
    requires
        at_work(s.init),
        !(s.init.stage is Finished),
        s.init.job == JobState::Script(r),
        service_goes(s, base),
        speaks(s, n),
    ensures
        ({
            let moved = InitState { job: s.init.job.after(reply), ..s.init };
            let hw = s.after(reply).hw;
            match moved.job.action() {
                Action::Done(res) => {
                    &&& hw.regs.waits is None
                    &&& match moved.judged(res) {
                        Ok(_) => excused(hw.faults, base),
                        Err(e) => blames(e, hw.faults, base) && (e == Error::Timeout || e
                            == Error::Crc),
                    }
                },
                _ => {
                    &&& moved.job matches JobState::Script(m)
                    &&& excused(hw.faults, base)
                    &&& fits_all(
                        m.steps,
                        m.at,
                        hw.regs,
                        s.init.inner.version,
                        s.init.timeout,
                        aim_of(s.init.stage),
                    )
                },
            }
        }),
{
    let m = r.after(reply);
    let hw = s.after(reply).hw;
    lemma_scripts_tame(s.init);
    lemma_run_moves(r, reply);
    lemma_fits_step(r, r.steps, s.hw, s.init.timeout, aim_of(s.init.stage), reply);
    if m.failed is Some {
        assert(hw.faults.drop_last() =~= s.hw.faults);
        assert(hw.faults.take(base.len() as int) =~= s.hw.faults.take(base.len() as int));
        if s.init.stage is OperatingConditions || s.init.stage is Select {
            lemma_broken_off_sends(s.init, r, reply);
            let sent = sent_before(s.init, s.link, n);
            assert(s.sent.commands == sent + stage_commands(s.init));
            assert(s.sent.commands.last() == stage_commands(s.init)[0]);
        }
    }
}

proof fn lemma_moving_goes(
    s: Service,
    base: Seq<(u8, u32, Error)>,
    t: TransferState,
    reply: Reply,
)
    requires
        !(s.init.stage is Finished),
        s.init.job == JobState::Moving(t),
        t.inner == s.init.inner,
        service_goes(s, base),
    ensures
        ({
            let n = t.after(reply);
            let hw = s.after(reply).hw;
            match n.action() {
                Action::Done(res) => {
                    &&& hw.regs.waits is None
                    &&& match res {
                        Ok(_) => excused(hw.faults, base),
                        Err(e) => blames(e, hw.faults, base) && (e == Error::Timeout || e
                            == Error::Crc),
                    }
                },
                _ => moving_goes(n, hw, base),
            }
        }),
{
    let hw = s.after(reply).hw;
    let f = choose|f: Seq<(u8, u32, Error)>| #[trigger]
        transfer_goes(t, s.hw, f) && excused(f, base);
    lemma_transfer_goes_step(t, s.hw, f, reply);
    lemma_transfer_goes(t.after(reply), hw, f);
    assert(transfer_goes(t.after(reply), hw, f));
}

/// What follows on a stage whose work went well fails for no reason of the bus.
proof fn lemma_passed_blames(s: InitState, link: LinkModel)
    requires
        !(s.stage is Finished),
    ensures
        s.passed(link).0.stage matches Stage::Finished(r) ==> (r matches Err(e) ==> e
            != Error::Timeout && e != Error::Crc),
{
}

proof fn lemma_service_goes_step(s: Service, n: nat, base: Seq<(u8, u32, Error)>, reply: Reply)
    requires
        at_work(s.init),
        service_goes(s, base),
        speaks(s, n),
        speaks(s.after(reply), tally(s.init.stage, s.after(reply).init.stage, n)),
    ensures
        service_goes(s.after(reply), base),
{
    lemma_tied_step(s, reply);
    if !(s.init.stage is Finished) {
        let next = s.after(reply);
        let moved = InitState { job: s.init.job.after(reply), ..s.init };
        lemma_stage_step(s.init, s.link, reply);
        match s.init.job {
            JobState::Script(r) => lemma_script_goes(s, n, base, r, reply),
            JobState::Moving(t) => lemma_moving_goes(s, base, t, reply),
        }
        match moved.job.action() {
            Action::Done(res) => {
                if moved.judged(res) is Ok {
                    lemma_passed_blames(moved, s.link);
                    if !(next.init.stage is Finished) {
                        let m = tally(s.init.stage, next.init.stage, n);
                        lemma_fresh_has_sent(next, m);
                        lemma_fresh_goes(next, m, base);
                    }
                }
            },
            _ => {},
        }
    }
}

/// Work that has just begun has sent nothing of its own.
proof fn lemma_fresh_has_sent(s: Service, n: nat)
    requires
        fresh(s.init),
        !(s.init.stage is Finished),
        speaks(s, n),
    ensures
        s.sent.commands == sent_before(s.init, s.link, n),
{
    let base = sent_before(s.init, s.link, n);
    assert(base + Seq::<(u8, u32)>::empty() =~= base);
    match s.init.job {
        JobState::Script(_) => {},
        JobState::Moving(_) => {
            lemma_start_keeps_plan(s.init.inner, plan_of(s.init));
            if s.init.inner.prelude_steps(plan_of(s.init)).len() == 0 {
                assert(crate::sent::prelude_commands(plan_of(s.init)) =~= Seq::empty());
                assert(base + Seq::<(u8, u32)>::empty() + Seq::<(u8, u32)>::empty() =~= base);
            }
        },
    }
}

proof fn lemma_service_goes(start: Service, replies: Seq<Reply>)
    requires
        start.ready(),
        start.sent.argument == start.hw.regs.argument,
    ensures
        service_goes(start.replay(replies), start.hw.faults),
    decreases replies.len(),
{
    if replies.len() == 0 {
        assert(start.hw.faults.take(start.hw.faults.len() as int) =~= start.hw.faults);
        lemma_fresh_goes(start, 0, start.hw.faults);
    } else {
        let before = replies.drop_last();
        lemma_service_goes(start, before);
        lemma_service(start, before);
        lemma_service(start, replies);
        lemma_service_goes_step(
            start.replay(before),
            busy_times(start, before),
            start.hw.faults,
            replies.last(),
        );
    }
}

/// At every moment of bringing a card into service what is due is in order. The procedure ends well
/// only if all that was seen to go wrong can be excused, and it ends by a timeout or a failed
/// checksum only if that was the last thing seen to go wrong, and the first that cannot be excused.
pub proof fn law_service_is_in_order(
    inner: SdmmcInner,
    freq: Hertz,
    bus_width: BusWidth,
    ker_ck: Hertz,
    timeout: u32,
    link: LinkModel,
    hw: Hw,
    replies: Seq<Reply>,
)
    requires
        can_begin(inner, freq, bus_width, ker_ck, link, hw),
    ensures
        ({
            let start = Service::begin(inner, freq, bus_width, ker_ck, timeout, link, hw);
            let s = start.replay(replies);
            &&& in_order(inner, timeout, s.hw, s.init.action())
            &&& match s.init.action() {
                Action::Done(Ok(_)) => excused(s.hw.faults, hw.faults),
                Action::Done(Err(e)) => blames(e, s.hw.faults, hw.faults),
                _ => true,
            }
        }),
{
    let start = Service::begin(inner, freq, bus_width, ker_ck, timeout, link, hw);
    law_service_begins_as_asked(inner, freq, bus_width, ker_ck, timeout, link, hw);
    let s = start.replay(replies);
    lemma_service_goes(start, replies);
    lemma_service(start, replies);
    if !(s.init.stage is Finished) {
        match s.init.job {
            JobState::Script(r) => {
                lemma_scripts_tame(s.init);
                lemma_fits_step(
                    r,
                    r.steps,
                    s.hw,
                    timeout,
                    aim_of(s.init.stage),
                    Reply::Ack,
                );
            },
            JobState::Moving(t) => {
                let f = choose|f: Seq<(u8, u32, Error)>| #[trigger]
                    transfer_goes(t, s.hw, f) && excused(f, hw.faults);
                lemma_transfer_goes(t, s.hw, f);
            },
        }
    }
}

/// While a card is brought into service, it has power whenever it is sent a command; the number of
/// lines is set only once the card was told of it by ACMD6; and the divisor is set for 25 MHz at
/// most unless more was asked for and the card agreed to it.
pub proof fn law_settings_change_in_turn(
    inner: SdmmcInner,
    freq: Hertz,
    bus_width: BusWidth,
    ker_ck: Hertz,
    timeout: u32,
    link: LinkModel,
    hw: Hw,
    replies: Seq<Reply>,
)
    requires
        can_begin(inner, freq, bus_width, ker_ck, link, hw),
    ensures
        ({
            let start = Service::begin(inner, freq, bus_width, ker_ck, timeout, link, hw);
            let s = start.replay(replies);
            match s.init.action() {
                Action::Write(RegWrite::Cmdr(_)) => s.hw.power == 3,
                Action::Write(RegWrite::Widbus(n)) => {
                    &&& n <= 1
                    &&& s.sent.commands.len() > 0
                    &&& s.sent.commands.last().0 == 6
                    &&& s.sent.commands.last().1 == 2 * n
                },
                Action::Write(RegWrite::Clkdiv(d)) => {
                    ||| runs_at(inner.version, ker_ck.0 as int, d as int) <= 25_000_000
                    ||| freq.0 > 25_000_000 && s.link.signalling == Signalling::SDR25
                },
                _ => true,
            }
        }),
{
    let start = Service::begin(inner, freq, bus_width, ker_ck, timeout, link, hw);
    law_service_begins_as_asked(inner, freq, bus_width, ker_ck, timeout, link, hw);
    let s = start.replay(replies);
    lemma_service_settings(start, replies);
    lemma_service(start, replies);
    match s.init.action() {
        Action::Write(RegWrite::Clkdiv(d)) => {
            law_card_clock(inner.version, ker_ck, d as nat);
            vstd::arithmetic::div_mod::lemma_div_basics(ker_ck.0 as int);
        },
        _ => {},
    }
}

/// The kernel clock exceeds a wanted clock more times than the divisor field can divide by.
pub open spec fn out_of_reach(version: Version, ker: int, wanted: int) -> bool {
    match version {
        Version::V1 => ker > wanted * 257,
        Version::V2 => ker > wanted * 2046,
    }
}

/// Why bringing a card into service fails: the card did not echo the pattern 0x1AA; the clock
/// cannot be had, at 25 MHz at most before the card was asked for more, and in full where it agreed
/// to more; the card selected a scheme that there is not, numbered above 4; the card agreed, by the
/// number 1, and was then not in the transfer state, numbered 4; or the bus failed.
pub open spec fn rightly(
    e: Error,
    version: Version,
    freq: u32,
    ker: u32,
    heard: Heard,
    faults: Seq<(u8, u32, Error)>,
    base: Seq<(u8, u32, Error)>,
) -> bool {
    let first = if freq <= 25_000_000 {
        freq as int
    } else {
        25_000_000
    };
    let switched = freq > 25_000_000 && heard.words.len() == 3;
    let selection = heard.words[2][4] as int % 16;
    &&& blames(e, faults, base)
    &&& match e {
        Error::Timeout | Error::Crc => true,
        Error::UnsupportedCardVersion => heard.responses.len() == 1 && heard.responses[0] != 0x1AA,
        Error::BadClock => {
            ||| out_of_reach(version, ker as int, first)
            ||| switched && selection == 1 && out_of_reach(version, ker as int, freq as int)
        },
        Error::UnsupportedCardType => switched && selection > 4,
        Error::SignalingSwitchFailed => switched && selection == 1 && heard.responses.len() > 0
            && heard.responses.last() / 0x200 % 0x10 != 4,
        _ => false,
    }
}

/// Bringing a card into service fails for a reason that the card, the clock or the bus gave, and
/// for no other.
pub proof fn law_service_fails_rightly(
    inner: SdmmcInner,
    freq: Hertz,
    bus_width: BusWidth,
    ker_ck: Hertz,
    timeout: u32,
    link: LinkModel,
    hw: Hw,
    replies: Seq<Reply>,
)
    requires
        can_begin(inner, freq, bus_width, ker_ck, link, hw),
    ensures
        ({
            let start = Service::begin(inner, freq, bus_width, ker_ck, timeout, link, hw);
            let s = start.replay(replies);
            s.init.stage matches Stage::Finished(r) ==> (r matches Err(e) ==> rightly(
                e,
                inner.version,
                freq.0,
                ker_ck.0,
                s.heard,
                s.hw.faults,
                hw.faults,
            ))
        }),
{
    let start = Service::begin(inner, freq, bus_width, ker_ck, timeout, link, hw);
    law_service_begins_as_asked(inner, freq, bus_width, ker_ck, timeout, link, hw);
    let s = start.replay(replies);
    law_failed_init_has_a_reason(start, replies);
    law_service_is_in_order(inner, freq, bus_width, ker_ck, timeout, link, hw, replies);
    match s.init.stage {
        Stage::Finished(Err(e)) => lemma_rightly(
            e,
            start.init,
            s.heard,
            s.hw.faults,
            hw.faults,
        ),
        _ => {},
    }
}

proof fn lemma_rightly(
    e: Error,
    init: InitState,
    heard: Heard,
    faults: Seq<(u8, u32, Error)>,
    base: Seq<(u8, u32, Error)>,
)
    requires
        reason(e, init, heard),
        init.freq > 0,
        blames(e, faults, base),
    ensures
        rightly(e, init.inner.version, init.freq, init.ker_ck.0, heard, faults, base),
{
    law_clk_div(init.inner.version, init.ker_ck, init.freq);
    law_clk_div(init.inner.version, init.ker_ck, first_clock(init.freq));
    let word = heard.words[2][4];
    assert(word % 0x100 % 0x10 == word % 0x10) by (bit_vector);
}

/// The scheme that stands for a number in the switch status.
pub open spec fn numbered(selection: int, signalling: Signalling) -> bool {
    match signalling {
        Signalling::SDR12 => selection == 0,
        Signalling::SDR25 => selection == 1,
        Signalling::SDR50 => selection == 2,
        Signalling::SDR104 => selection == 3,
        Signalling::DDR50 => selection == 4,
    }
}

/// The scheme on record is the one from before until the card has sent its switch status, and from
/// then on the one that the switch status numbers, if it does.
pub open spec fn scheme_on_record(s: Service, before: Signalling) -> bool {
    let words = s.heard.words;
    if s.init.freq > 25_000_000 && words.len() >= 3 && words[2][4] % 16 <= 4 {
        numbered(words[2][4] as int % 16, s.link.signalling)
    } else {
        s.link.signalling == before
    }
}

/// The scheme on record outlasts what follows on a stage whose work went well.
proof fn lemma_scheme_passed(s: InitState, link: LinkModel)
    requires
        !(s.stage is Finished),
    ensures
        ({
            let nlink = s.passed(link).1;
            if s.stage is Switch && s.job.words()[4] % 16 <= 4 {
                numbered(s.job.words()[4] as int % 16, nlink.signalling)
            } else {
                nlink.signalling == link.signalling
            }
        }),
{
    let word = s.job.words()[4];
    assert(word % 0x100 % 0x10 == word % 0x10) by (bit_vector);
}

/// A transfer is over without failure exactly when its words are taken, and a script takes none.
proof fn lemma_words_step(s: Service, reply: Reply)
    requires
        at_work(s.init),
        peripheral_tied(s),
        !(s.init.stage is Finished),
    ensures
        ({
            let job = s.init.job.after(reply);
            let words = s.after(reply).heard.words;
            if job is Moving && (job.action() matches Action::Done(r) && r is Ok) {
                words == s.heard.words.push(job.words())
            } else {
                words == s.heard.words
            }
        }),
{
    match s.init.job {
        JobState::Script(_) => {},
        JobState::Moving(t) => lemma_transfer_hears(t, s.hw, s.heard, reply),
    }
}

proof fn lemma_scheme_step(s: Service, before: Signalling, reply: Reply)
    requires
        at_work(s.init),
        peripheral_tied(s),
        words_heard(s.init.stage, s.init.freq, s.heard.words.len()),
        scheme_on_record(s, before),
    ensures
        scheme_on_record(s.after(reply), before),
{
    let next = s.after(reply);
    if !(s.init.stage is Finished) {
        let moved = InitState { job: s.init.job.after(reply), ..s.init };
        lemma_stage_step(s.init, s.link, reply);
        lemma_words_step(s, reply);
        lemma_freq_kept(s.init, s.link, reply);
        match moved.job.action() {
            Action::Done(res) => {
                if moved.judged(res) is Ok {
                    lemma_scheme_passed(moved, s.link);
                }
            },
            _ => {},
        }
    }
}

/// What was asked for stays what it is.
proof fn lemma_freq_kept(s: InitState, link: LinkModel, reply: Reply)
    ensures
        s.after(link, reply).0.freq == s.freq,
{
    let moved = InitState { job: s.job.after(reply), ..s };
    assert(moved.passed(link).0.freq == s.freq);
}

proof fn lemma_scheme(start: Service, replies: Seq<Reply>)
    requires
        start.ready(),
    ensures
        scheme_on_record(start.replay(replies), start.link.signalling),
    decreases replies.len(),
{
    if replies.len() > 0 {
        let before = replies.drop_last();
        lemma_scheme(start, before);
        lemma_service(start, before);
        lemma_scheme_step(start.replay(before), start.link.signalling, replies.last());
    }
}

/// At every moment of bringing a card into service, also where it fails, the scheme on record is
/// the one that the card has agreed to, or the one from before where it was not asked or has not
/// answered.
pub proof fn law_scheme_is_on_record(
    inner: SdmmcInner,
    freq: Hertz,
    bus_width: BusWidth,
    ker_ck: Hertz,
    timeout: u32,
    link: LinkModel,
    hw: Hw,
    replies: Seq<Reply>,
)
    requires
        can_begin(inner, freq, bus_width, ker_ck, link, hw),
    ensures
        ({
            let start = Service::begin(inner, freq, bus_width, ker_ck, timeout, link, hw);
            let s = start.replay(replies);
            scheme_on_record(s, link.signalling) && s.init.freq == freq.0
        }),
{
    let start = Service::begin(inner, freq, bus_width, ker_ck, timeout, link, hw);
    law_service_begins_as_asked(inner, freq, bus_width, ker_ck, timeout, link, hw);
    lemma_scheme(start, replies);
    lemma_service(start, replies);
}

} // verus!
