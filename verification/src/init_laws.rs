//! What holds of bringing a card into service, whatever the card answers.

use vstd::prelude::*;

use crate::card::{busy, capacity_of, state_of, CardModel, CurrentState};
use crate::clock::{card_clock, clk_div_spec, law_clkdiv_keeps_limit};
use crate::cmd::{rca_argument, short_cmd};
use crate::effect::{
    bus_error, fails_by_bus, lemma_abandon_transfer, lemma_careful_weaken_start,
    lemma_dataless_step, lemma_fails_by_bus_step, lemma_replay_nothing, lemma_run_moves,
    lemma_run_step, lemma_stays_open, lemma_transfer_settings, lemma_transfer_start,
    lemma_transfer_step, replay_run, run_careful, same_settings, sets_to_rest, stays_open,
    transfer_inv, Hw,
};
use crate::init::{
    as_numbers, first_clock, usable_width, width_argument, width_field, InitState, Stage,
    CHECK_PATTERN, DEFAULT_SPEED, OPERATING_CONDITIONS,
};
use crate::init_scripts::{lemma_reads_none, lemma_reads_step, reads, tame};
use crate::inner::{SdmmcInner, POWER_ON};
use crate::job::JobState;
use crate::link::LinkModel;
use crate::registers::{Action, Buffer, RegWrite, Reply};
use crate::script::{RunState, Step};
use crate::sent::{
    argument_ready, commands_in, lemma_sent_step, lemma_silent_sends, lemma_transfer_sent_start,
    lemma_transfer_sent_step, plan_commands, sends, silent, transfer_sent, Sent,
};
use crate::transfer::{
    scr_plan, sd_status_plan, selection_of, signalling_of, switch_plan, Phase, Plan, TransferState,
};
use crate::types::{BusWidth, Error, Hertz, Signalling};
use crate::words::{big_endian_pair, long_number};

verus! {

/// The divisor that the clock of a stage needs.
pub open spec fn divisor(s: InitState, freq: u32) -> u16 {
    clk_div_spec(s.inner.version, s.ker_ck, freq)->Ok_0.0
}

/// The work of each stage.
pub open spec fn script_of(s: InitState) -> Seq<Step> {
    let inner = s.inner;
    match s.stage {
        Stage::Probe => inner.probe_steps(),
        Stage::AppCommand => inner.cmd_steps(short_cmd(55, 0), false),
        Stage::OperatingConditions => inner.cmd_steps(short_cmd(41, OPERATING_CONDITIONS), false),
        Stage::PowerUp => seq![Step::ReadResponse(0)],
        Stage::Identify => inner.identify_steps(),
        Stage::Describe => inner.long_steps(9, rca_argument(s.card.rca)),
        Stage::Select => inner.cmd_steps(short_cmd(7, rca_argument(s.card.rca)), false),
        Stage::Width => inner.width_steps(s.card.rca, usable_width(s.bus_width, s.card.scr)),
        Stage::Clock => inner.clkdiv_steps(divisor(s, first_clock(s.freq))) + Seq::empty(),
        Stage::HighSpeed => inner.clkdiv_steps(divisor(s, s.freq)) + inner.read_status_steps(
            s.card.rca,
        ),
        _ => Seq::empty(),
    }
}

/// The stages whose work is a transfer.
pub open spec fn moves_data(stage: Stage) -> bool {
    stage is Configure || stage is Status || stage is Switch || stage is FinalStatus
}

/// The transfer of a stage that moves data.
pub open spec fn plan_of(s: InitState) -> Plan {
    match s.stage {
        Stage::Configure => scr_plan(s.card.rca, s.timeout),
        Stage::Switch => switch_plan(Signalling::SDR25, s.timeout),
        _ => sd_status_plan(s.card.rca, s.timeout),
    }
}

/// The work of a stage fits the stage and is not over.
pub open spec fn at_work(s: InitState) -> bool {
    match s.stage {
        Stage::Finished(_) => true,
        _ => match s.job {
            JobState::Script(r) => {
                &&& !moves_data(s.stage)
                &&& r.inner == s.inner
                &&& r.steps == script_of(s)
                &&& r.running()
                &&& r.responses.len() == reads(r.steps, r.at)
            },
            JobState::Moving(t) => {
                &&& moves_data(s.stage)
                &&& t.inner == s.inner
                &&& t.plan.buffer == Buffer::Scratch
                &&& !(t.phase is Finished)
            },
        },
    }
}

/// What the card has told so far.
pub struct Heard {
    /// The responses that were read, in order
    pub responses: Seq<u32>,
    /// What was received into the scratch buffer, in order
    pub words: Seq<Seq<u32>>,
}

impl Heard {
    /// Nothing.
    pub open spec fn nothing() -> Heard {
        Heard { responses: Seq::empty(), words: Seq::empty() }
    }

    /// After an action and its reply.
    pub open spec fn dealt(self, action: Action, reply: Reply) -> Heard {
        match (action, reply) {
            (Action::ReadResponse(_), Reply::Response(r)) => Heard {
                responses: self.responses.push(r),
                ..self
            },
            (Action::ReadWords, Reply::Words(w)) => Heard { words: self.words.push(w@), ..self },
            _ => self,
        }
    }
}

/// A card being brought into service, with all that surrounds it.
pub struct Service {
    pub init: InitState,
    pub link: LinkModel,
    pub hw: Hw,
    pub heard: Heard,
    pub sent: Sent,
}

impl Service {
    /// What a reply makes of it.
    pub open spec fn after(self, reply: Reply) -> Service {
        let (init, link) = self.init.after(self.link, reply);
        Service {
            init,
            link,
            hw: self.hw.dealt(self.init.inner, self.init.action(), reply),
            heard: self.heard.dealt(self.init.action(), reply),
            sent: self.sent.dealt(self.init.action(), reply),
        }
    }

    /// What a row of replies makes of it.
    pub open spec fn replay(self, replies: Seq<Reply>) -> Service
        decreases replies.len(),
    {
        if replies.len() == 0 {
            self
        } else {
            self.replay(replies.drop_last()).after(replies.last())
        }
    }

    /// Interrupts may be let through after a row of replies: of the transfers that touched the data
    /// path the last went well, or none did and they were let through from the start.
    pub open spec fn left_open(self, replies: Seq<Reply>) -> bool
        decreases replies.len(),
    {
        if replies.len() == 0 {
            self.hw.interrupts
        } else {
            let s = self.replay(replies.drop_last());
            let open = self.left_open(replies.drop_last());
            s.opens(open, replies.last())
        }
    }

    /// Whether interrupts may be let through after a reply, where `open` tells whether they might
    /// be before it.
    pub open spec fn opens(self, open: bool, reply: Reply) -> bool {
        match (self.init.stage, self.init.job) {
            (Stage::Finished(_), _) => open,
            (_, JobState::Script(_)) => open,
            (_, JobState::Moving(t)) => stays_open(open, t, reply),
        }
    }

    /// The procedure is about to begin, on a peripheral that moves no data and whose clock is the
    /// one that is on record.
    pub open spec fn ready(self) -> bool {
        &&& self.init.valid()
        &&& self.init == InitState::start(
            self.init.inner,
            Hertz(self.init.freq),
            self.init.bus_width,
            self.init.ker_ck,
            self.init.timeout,
        )
        &&& self.hw.stopped()
        &&& self.clock_on_record()
        &&& self.heard == Heard::nothing()
        &&& self.sent.commands == Seq::<(u8, u32)>::empty()
    }

    /// The clock on record is the one that the divisor gives.
    pub open spec fn clock_on_record(self) -> bool {
        self.link.clock == card_clock(
            self.init.inner.version,
            self.init.ker_ck,
            self.hw.clkdiv as nat,
        )
    }
}

/// The script of every stage is tame.
pub proof fn lemma_scripts_tame(s: InitState)
    requires
        !(s.stage is Finished),
        !moves_data(s.stage),
    ensures
        tame(script_of(s)),
        script_of(s).len() > 0,
{
    match s.stage {
        Stage::Probe => s.inner.lemma_tame_probe(),
        Stage::AppCommand => s.inner.lemma_tame_cmd(short_cmd(55, 0), false),
        Stage::OperatingConditions => s.inner.lemma_tame_cmd(
            short_cmd(41, OPERATING_CONDITIONS),
            false,
        ),
        Stage::PowerUp => s.inner.lemma_tame_response(),
        Stage::Identify => s.inner.lemma_tame_identify(),
        Stage::Describe => s.inner.lemma_tame_long(9, rca_argument(s.card.rca)),
        Stage::Select => s.inner.lemma_tame_cmd(short_cmd(7, rca_argument(s.card.rca)), false),
        Stage::Width => s.inner.lemma_tame_width(
            s.card.rca,
            usable_width(s.bus_width, s.card.scr),
        ),
        Stage::Clock => s.inner.lemma_tame_clkdiv(divisor(s, first_clock(s.freq))),
        Stage::HighSpeed => s.inner.lemma_tame_high_speed(divisor(s, s.freq), s.card.rca),
        _ => {},
    }
}

/// The work of a stage has just begun.
pub open spec fn fresh(s: InitState) -> bool {
    match s.job {
        JobState::Script(r) => {
            &&& !moves_data(s.stage)
            &&& r == RunState::start(s.inner, script_of(s))
        },
        JobState::Moving(t) => {
            &&& moves_data(s.stage)
            &&& t == TransferState::start(s.inner, plan_of(s))
        },
    }
}

/// A transfer that has just begun knows its plan.
pub proof fn lemma_start_keeps_plan(inner: SdmmcInner, plan: Plan)
    ensures
        TransferState::start(inner, plan).plan == plan,
        TransferState::start(inner, plan).inner == inner,
{
}

/// What follows on a stage whose work went well is the end of all, or work that has just begun.
proof fn lemma_passed_fresh(s: InitState, link: LinkModel)
    requires
        !(s.stage is Finished),
    ensures
        ({
            let n = s.passed(link).0;
            n.stage is Finished || fresh(n)
        }),
{
    let inner = s.inner;
    let n = s.passed(link).0;
    match s.stage {
        Stage::Select => lemma_start_keeps_plan(inner, scr_plan(s.card.rca, s.timeout)),
        Stage::Clock | Stage::HighSpeed => lemma_start_keeps_plan(
            inner,
            sd_status_plan(s.card.rca, s.timeout),
        ),
        Stage::Status | Stage::Switch => {
            lemma_start_keeps_plan(inner, sd_status_plan(s.card.rca, s.timeout));
            lemma_start_keeps_plan(inner, switch_plan(Signalling::SDR25, s.timeout));
        },
        _ => {},
    }
}

/// What follows on the end of a stage's work is the end of all, or work that has just begun.
proof fn lemma_proceeded_fresh(s: InitState, link: LinkModel, r: Result<(), Error>)
    requires
        !(s.stage is Finished),
    ensures
        ({
            let n = s.proceeded(link, r).0;
            n.stage is Finished || fresh(n)
        }),
{
    if s.judged(r) is Ok {
        lemma_passed_fresh(s, link);
    }
}

/// Work that has just begun is not over.
proof fn lemma_fresh_at_work(s: InitState)
    requires
        fresh(s),
        !(s.stage is Finished),
    ensures
        at_work(s),
{
    match s.job {
        JobState::Script(r) => lemma_scripts_tame(s),
        JobState::Moving(t) => lemma_start_keeps_plan(s.inner, plan_of(s)),
    }
}

/// What a reply makes of a stage: its work goes on, or its work is over and what follows follows.
pub proof fn lemma_stage_step(s: InitState, link: LinkModel, reply: Reply)
    requires
        at_work(s),
        !(s.stage is Finished),
    ensures
        ({
            let moved = InitState { job: s.job.after(reply), ..s };
            let (n, nlink) = s.after(link, reply);
            if moved.job.action() is Done {
                &&& (n, nlink) == moved.proceeded(link, moved.job.action()->Done_0)
                &&& n.stage is Finished || fresh(n)
            } else {
                &&& n == moved
                &&& nlink == link
            }
        }),
        at_work(s.after(link, reply).0),
{
    let moved = InitState { job: s.job.after(reply), ..s };
    match s.job {
        JobState::Script(r) => {
            lemma_scripts_tame(s);
            lemma_reads_step(r, reply);
        },
        JobState::Moving(t) => {},
    }
    match moved.job.action() {
        Action::Done(r) => {
            lemma_proceeded_fresh(moved, link, r);
            let n = moved.proceeded(link, r).0;
            if !(n.stage is Finished) {
                lemma_fresh_at_work(n);
            }
        },
        _ => {},
    }
}

/// What ties the work of a stage to the peripheral.
pub open spec fn peripheral_tied(s: Service) -> bool {
    match s.init.stage {
        Stage::Finished(_) => s.hw.stopped(),
        _ => match s.init.job {
            JobState::Script(r) => s.hw.stopped() && run_careful(r, s.hw),
            JobState::Moving(t) => transfer_inv(t, s.hw, true),
        },
    }
}

/// Work that has just begun is tied to a peripheral that moves no data.
proof fn lemma_fresh_tied(s: Service)
    requires
        fresh(s.init),
        !(s.init.stage is Finished),
        s.hw.stopped(),
    ensures
        peripheral_tied(s),
{
    match s.init.job {
        JobState::Script(r) => {
            lemma_scripts_tame(s.init);
            lemma_careful_weaken_start(r.steps, s.hw);
        },
        JobState::Moving(t) => {
            lemma_start_keeps_plan(s.init.inner, plan_of(s.init));
            lemma_transfer_start(s.init.inner, plan_of(s.init), s.hw, true);
        },
    }
}

proof fn lemma_peripheral_step(s: Service, reply: Reply)
    requires
        at_work(s.init),
        peripheral_tied(s),
    ensures
        s.init.action() matches Action::Write(w) ==> s.hw.admits(w),
        peripheral_tied(s.after(reply)),
{
    let next = s.after(reply);
    if !(s.init.stage is Finished) {
        lemma_stage_step(s.init, s.link, reply);
        match s.init.job {
            JobState::Script(r) => {
                lemma_scripts_tame(s.init);
                lemma_run_step(r, s.hw, reply);
                lemma_dataless_step(r, s.hw, reply);
                assert(next.hw.stopped());
            },
            JobState::Moving(t) => {
                lemma_transfer_step(t, s.hw, true, reply);
            },
        }
        if s.init.job.after(reply).action() is Done {
            assert(next.hw.stopped());
            if !(next.init.stage is Finished) {
                lemma_fresh_tied(next);
            }
        }
    }
}

/// Interrupts are masked unless they may be let through, and in any case after a transfer that
/// touched the data path and failed.
spec fn masked(s: Service, open: bool) -> bool {
    match (s.init.stage, s.init.job) {
        (Stage::Finished(_), JobState::Moving(t)) => {
            &&& t.phase is Finished
            &&& s.hw.interrupts ==> open
            &&& t.failed() && t.touched() ==> !s.hw.interrupts
        },
        (Stage::Finished(_), _) => s.hw.interrupts ==> open,
        (_, JobState::Script(_)) => s.hw.interrupts ==> open,
        (_, JobState::Moving(t)) => transfer_inv(t, s.hw, open),
    }
}

/// Work that has just begun has not changed what interrupts are let through.
proof fn lemma_fresh_masked(s: Service, open: bool)
    requires
        fresh(s.init),
        !(s.init.stage is Finished),
        s.hw.stopped(),
        s.hw.interrupts ==> open,
    ensures
        masked(s, open),
{
    match s.init.job {
        JobState::Script(_) => {},
        JobState::Moving(_) => {
            lemma_start_keeps_plan(s.init.inner, plan_of(s.init));
            lemma_transfer_start(s.init.inner, plan_of(s.init), s.hw, open);
        },
    }
}

/// What the work of a stage leaves of the interrupts, whether it goes on or is over.
proof fn lemma_masked_moved(s: Service, open: bool, reply: Reply)
    requires
        at_work(s.init),
        !(s.init.stage is Finished),
        masked(s, open),
    ensures
        ({
            let after = s.opens(open, reply);
            let hw = s.hw.dealt(s.init.inner, s.init.action(), reply);
            let job = s.init.job.after(reply);
            &&& job.action() is Done || job is Script ==> (hw.interrupts ==> after)
            &&& job matches JobState::Moving(t) ==> if t.action() is Done {
                &&& t.phase is Finished
                &&& t.failed() && t.touched() ==> !hw.interrupts
            } else {
                transfer_inv(t, hw, after)
            }
        }),
{
    match s.init.job {
        JobState::Script(r) => {
            lemma_scripts_tame(s.init);
            lemma_dataless_step(r, s.hw, reply);
        },
        JobState::Moving(t) => {
            lemma_stays_open(open, t, s.hw, reply);
        },
    }
}

/// Where the procedure ends in a stage, the work of that stage is on record.
proof fn lemma_passed_keeps_job(s: InitState, link: LinkModel)
    requires
        !(s.stage is Finished),
    ensures
        s.passed(link).0.stage is Finished ==> s.passed(link).0.job == s.job,
{
}

proof fn lemma_masked_step(s: Service, open: bool, reply: Reply)
    requires
        at_work(s.init),
        peripheral_tied(s),
        masked(s, open),
    ensures
        masked(s.after(reply), s.opens(open, reply)),
{
    let next = s.after(reply);
    if !(s.init.stage is Finished) {
        lemma_stage_step(s.init, s.link, reply);
        lemma_peripheral_step(s, reply);
        lemma_masked_moved(s, open, reply);
        let moved = InitState { job: s.init.job.after(reply), ..s.init };
        lemma_passed_keeps_job(moved, s.link);
        if moved.job.action() is Done && !(next.init.stage is Finished) {
            lemma_stopped_between(s, reply);
            lemma_fresh_masked(next, s.opens(open, reply));
        }
    }
}

/// When the work of a stage is over, nothing moves data.
proof fn lemma_stopped_between(s: Service, reply: Reply)
    requires
        at_work(s.init),
        !(s.init.stage is Finished),
        peripheral_tied(s),
        s.init.job.after(reply).action() is Done,
    ensures
        s.after(reply).hw.stopped(),
{
    match s.init.job {
        JobState::Script(r) => {
            lemma_scripts_tame(s.init);
            lemma_dataless_step(r, s.hw, reply);
        },
        JobState::Moving(t) => lemma_transfer_step(t, s.hw, true, reply),
    }
}

/// How far the procedure has come, as a number; a failure counts for nothing.
spec fn rank(stage: Stage) -> int {
    match stage {
        Stage::Probe => 0,
        Stage::AppCommand => 1,
        Stage::OperatingConditions => 1,
        Stage::PowerUp => 1,
        Stage::Identify => 2,
        Stage::Describe => 3,
        Stage::Select => 4,
        Stage::Configure => 5,
        Stage::Width => 6,
        Stage::Clock => 7,
        Stage::Status => 8,
        Stage::Switch => 9,
        Stage::HighSpeed => 10,
        Stage::FinalStatus => 11,
        Stage::Finished(Ok(_)) => 12,
        Stage::Finished(Err(_)) => -1,
    }
}

/// The clock that the divisor is being set for, in the stages that set it.
spec fn target(s: InitState) -> u32 {
    if s.stage is HighSpeed {
        s.freq
    } else {
        first_clock(s.freq)
    }
}

/// The clock to end with: the one asked for, or the default speed where more was asked for and the
/// card did not agree to it.
pub open spec fn final_clock(freq: u32, signalling: Signalling) -> u32 {
    if signalling == Signalling::SDR25 {
        freq
    } else {
        first_clock(freq)
    }
}

/// The divisor and the clock on record are those that are found for this clock.
pub open spec fn clock_set(s: Service, freq: u32) -> bool {
    clk_div_spec(s.init.inner.version, s.init.ker_ck, freq) == Ok::<(u16, Hertz), Error>(
        (s.hw.clkdiv, s.link.clock),
    )
}

/// What holds of the settings.
spec fn settings_kept(s: Service) -> bool {
    let init = s.init;
    let k = rank(init.stage);
    let sets_clock = init.stage is Clock || init.stage is HighSpeed;
    &&& if sets_clock {
        &&& clk_div_spec(init.inner.version, init.ker_ck, target(init)) matches Ok((d, f))
        &&& s.link.clock == f
        &&& init.job matches JobState::Script(r)
        &&& r.at >= 2 ==> s.hw.clkdiv == d
    } else {
        s.clock_on_record()
    }
    &&& 8 <= k <= 9 ==> clock_set(s, first_clock(init.freq))
    &&& k >= 11 ==> clock_set(s, final_clock(init.freq, s.link.signalling))
    &&& k == 10 ==> s.link.signalling == Signalling::SDR25
    &&& 7 <= k <= 9 ==> s.link.clock.0 <= first_clock(init.freq)
    &&& k >= 10 ==> s.link.clock.0 <= init.freq
    &&& k >= 10 ==> s.link.clock.0 <= DEFAULT_SPEED || s.link.signalling == Signalling::SDR25
    &&& k >= 7 ==> s.hw.widbus == width_field(usable_width(init.bus_width, init.card.scr))
    &&& k >= 1 ==> s.hw.power == POWER_ON
    &&& k == 0 ==> (init.job matches JobState::Script(r) && (r.at >= 1 ==> s.hw.power == POWER_ON))
}

/// The clock and the divisor that `clk_div` finds belong together, and the clock is within
/// bounds.
proof fn lemma_clock_found(s: InitState, freq: u32)
    requires
        s.valid(),
        freq > 0,
    ensures
        clk_div_spec(s.inner.version, s.ker_ck, freq) matches Ok((d, f)) ==> f.0 <= freq && f
            == card_clock(s.inner.version, s.ker_ck, d as nat),
{
    law_clkdiv_keeps_limit(s.inner.version, s.ker_ck, freq);
}

/// All that a script changes, but for one step, is flags, the command and its argument.
spec fn plain_but(steps: Seq<Step>, special: int) -> bool {
    forall|i: int|
        0 <= i < steps.len() && i != special ==> (#[trigger] steps[i] matches Step::Write(w)
            ==> w is Icr || w is Argr || w is Cmdr)
}

/// The step of a stage's script that changes a setting.
spec fn special_step(stage: Stage) -> int {
    match stage {
        Stage::Probe => 0,
        Stage::Width => 11,
        Stage::Clock => 1,
        Stage::HighSpeed => 1,
        _ => -1,
    }
}

/// Each stage changes the setting that is its own.
proof fn lemma_special_steps(s: InitState)
    requires
        !(s.stage is Finished),
        !moves_data(s.stage),
    ensures
        plain_but(script_of(s), special_step(s.stage)),
        s.stage is Probe ==> script_of(s)[0] == Step::Write(RegWrite::Power(POWER_ON)),
        s.stage is Probe ==> script_of(s).len() == 12,
        s.stage is Width ==> script_of(s).len() == 12,
        s.stage is Width ==> script_of(s)[11] == Step::Write(
            RegWrite::Widbus(width_field(usable_width(s.bus_width, s.card.scr))),
        ),
        s.stage is Clock || s.stage is HighSpeed ==> script_of(s).len() >= 2 && script_of(s)[1]
            == Step::Write(RegWrite::Clkdiv(divisor(s, target(s)))),
{
    match s.stage {
        Stage::Probe => s.inner.lemma_tame_probe(),
        Stage::Width => s.inner.lemma_tame_width(
            s.card.rca,
            usable_width(s.bus_width, s.card.scr),
        ),
        Stage::Clock => s.inner.lemma_tame_clkdiv(divisor(s, first_clock(s.freq))),
        Stage::HighSpeed => s.inner.lemma_tame_high_speed(divisor(s, s.freq), s.card.rca),
        _ => {},
    }
}

/// A step that is not special keeps the settings.
proof fn lemma_plain_step(r: RunState, hw: Hw, reply: Reply, special: int)
    requires
        r.running(),
        plain_but(r.steps, special),
        r.at != special,
    ensures
        ({
            let n = hw.dealt(r.inner, r.action(), reply);
            same_settings(n, hw)
        }),
{
}

/// The settings outlast a reply that does not end the work of a stage, and at the end of a
/// stage's work its own setting is made.
proof fn lemma_settings_moved(s: Service, reply: Reply)
    requires
        s.init.valid(),
        at_work(s.init),
        !(s.init.stage is Finished),
        peripheral_tied(s),
        settings_kept(s),
    ensures
        ({
            let hw = s.after(reply).hw;
            let moved = Service {
                init: InitState { job: s.init.job.after(reply), ..s.init },
                link: s.link,
                hw,
                ..s
            };
            let good = moved.init.job.action() matches Action::Done(r) && r is Ok;
            &&& settings_kept(moved)
            &&& good && s.init.stage is Width ==> hw.widbus == width_field(
                usable_width(s.init.bus_width, s.init.card.scr),
            )
            &&& good && s.init.stage is Probe ==> hw.power == POWER_ON
            &&& moved.init.job.action() is Done ==> moved.clock_on_record()
            &&& good && (s.init.stage is Clock || s.init.stage is HighSpeed) ==> clock_set(
                moved,
                target(s.init),
            )
        }),
{
    let k = special_step(s.init.stage);
    match s.init.job {
        JobState::Script(r) => {
            lemma_scripts_tame(s.init);
            lemma_special_steps(s.init);
            lemma_run_moves(r, reply);
            lemma_reads_step(r, reply);
            if r.at != k {
                lemma_plain_step(r, s.hw, reply, k);
            }
            if s.init.stage is Clock || s.init.stage is HighSpeed {
                lemma_clock_found(s.init, target(s.init));
            }
        },
        JobState::Moving(t) => lemma_transfer_settings(t, s.hw, reply),
    }
}

/// The settings outlast what follows on a stage whose work went well.
proof fn lemma_settings_passed(s: Service)
    requires
        s.init.valid(),
        !(s.init.stage is Finished),
        settings_kept(s),
        s.clock_on_record(),
        s.init.stage is Width ==> s.hw.widbus == width_field(
            usable_width(s.init.bus_width, s.init.card.scr),
        ),
        s.init.stage is Probe ==> s.hw.power == POWER_ON,
        s.init.stage is Clock || s.init.stage is HighSpeed ==> clock_set(s, target(s.init)),
    ensures
        ({
            let (init, link) = s.init.passed(s.link);
            settings_kept(Service { init, link, ..s })
        }),
{
    lemma_clock_found(s.init, s.init.freq);
    lemma_clock_found(s.init, first_clock(s.init.freq));
}

proof fn lemma_settings_step(s: Service, reply: Reply)
    requires
        s.init.valid(),
        at_work(s.init),
        peripheral_tied(s),
        settings_kept(s),
    ensures
        settings_kept(s.after(reply)),
{
    if !(s.init.stage is Finished) {
        lemma_stage_step(s.init, s.link, reply);
        lemma_settings_moved(s, reply);
        let next = s.after(reply);
        let moved = Service {
            init: InitState { job: s.init.job.after(reply), ..s.init },
            link: s.link,
            hw: next.hw,
            ..s
        };
        match moved.init.job.action() {
            Action::Done(r) => {
                if moved.init.judged(r) is Ok {
                    lemma_settings_passed(moved);
                }
            },
            _ => {},
        }
    }
}

/// How many responses were heard before the work of a stage began, where the card was busy `n`
/// times.
spec fn heard_before(stage: Stage, n: nat) -> nat {
    match stage {
        Stage::Probe => 0,
        Stage::AppCommand => n + 1,
        Stage::OperatingConditions => n + 1,
        Stage::PowerUp => n + 1,
        Stage::Identify => n + 2,
        Stage::Describe => n + 7,
        _ => n + 11,
    }
}

/// What was heard is what the work of a stage heard, after what was heard before.
spec fn hears(s: Service, n: nat) -> bool {
    let heard = s.heard.responses;
    let p = heard_before(s.init.stage, n);
    match s.init.job {
        JobState::Script(r) => {
            &&& heard.len() == p + r.responses.len()
            &&& forall|i: int| p <= i < heard.len() ==> #[trigger] heard[i] == r.responses[i - p]
        },
        JobState::Moving(t) => s.init.stage is FinalStatus || heard.len() == p,
    }
}

/// The switch to high speed went as the card said.
pub open spec fn switch_told(heard: Heard, link: LinkModel, n: nat) -> bool {
    &&& heard.words.len() >= 3
    &&& signalling_of(selection_of(heard.words[2])) == Ok::<Signalling, Error>(link.signalling)
    &&& if link.signalling == Signalling::SDR25 {
        &&& heard.responses.len() == n + 12
        &&& state_of(heard.responses[n as int + 11]) == CurrentState::Transfer
    } else {
        heard.responses.len() == n + 11
    }
}

/// What is known of the card is what it has told, where it was busy `n` times.
spec fn told(s: Service, n: nat) -> bool {
    let k = rank(s.init.stage);
    let card = s.init.card;
    let heard = s.heard.responses;
    let words = s.heard.words;
    &&& k >= 1 ==> {
        &&& heard.len() >= n + 1
        &&& heard[0] == CHECK_PATTERN
        &&& forall|i: int| 1 <= i <= n ==> busy(#[trigger] heard[i])
    }
    &&& k >= 2 ==> {
        &&& heard.len() >= n + 2
        &&& !busy(heard[n as int + 1])
        &&& card.ocr == heard[n as int + 1]
        &&& card.card_type == capacity_of(card.ocr)
    }
    &&& k >= 3 ==> {
        &&& heard.len() >= n + 7
        &&& card.cid == long_number(
            heard[n as int + 2],
            heard[n as int + 3],
            heard[n as int + 4],
            heard[n as int + 5],
        )
        &&& card.rca == heard[n as int + 6] / 0x1_0000
    }
    &&& k >= 4 ==> {
        &&& heard.len() >= n + 11
        &&& card.csd == long_number(
            heard[n as int + 7],
            heard[n as int + 8],
            heard[n as int + 9],
            heard[n as int + 10],
        )
    }
    &&& k <= 5 ==> words.len() == 0 || k < 0
    &&& 6 <= k <= 8 ==> words.len() == 1
    &&& k >= 6 ==> words.len() >= 1 && card.scr == big_endian_pair(words[0][0], words[0][1])
    &&& k == 9 ==> words.len() == 2 && s.init.freq > DEFAULT_SPEED
    &&& k == 10 ==> {
        &&& words.len() == 3
        &&& s.init.freq > DEFAULT_SPEED
        &&& signalling_of(selection_of(words[2])) == Ok::<Signalling, Error>(
            s.link.signalling,
        )
        &&& s.link.signalling == Signalling::SDR25
    }
    &&& k >= 11 ==> {
        let last = if k == 12 {
            1int
        } else {
            0int
        };
        if s.init.freq > DEFAULT_SPEED {
            words.len() == 3 + last && switch_told(s.heard, s.link, n)
        } else {
            words.len() == 2 + last && heard.len() == n + 11
        }
    }
    &&& k == 12 ==> card.status == as_numbers(words.last())
}

/// How many responses the script of a stage reads.
spec fn reads_of(stage: Stage) -> nat {
    match stage {
        Stage::Probe => 1,
        Stage::PowerUp => 1,
        Stage::Identify => 5,
        Stage::Describe => 4,
        Stage::HighSpeed => 1,
        _ => 0,
    }
}

proof fn lemma_reads_of(s: InitState)
    requires
        !(s.stage is Finished),
        !moves_data(s.stage),
    ensures
        reads(script_of(s), script_of(s).len()) == reads_of(s.stage),
        s.stage is OperatingConditions || s.stage is AppCommand || s.stage is Select ==> forall|
            i: int,
        |
            0 <= i < script_of(s).len() ==> !(#[trigger] script_of(s)[i] is ReadResponse),
{
    match s.stage {
        Stage::Probe => s.inner.lemma_tame_probe(),
        Stage::AppCommand => s.inner.lemma_tame_cmd(short_cmd(55, 0), false),
        Stage::OperatingConditions => s.inner.lemma_tame_cmd(
            short_cmd(41, OPERATING_CONDITIONS),
            false,
        ),
        Stage::PowerUp => s.inner.lemma_tame_response(),
        Stage::Identify => s.inner.lemma_tame_identify(),
        Stage::Describe => s.inner.lemma_tame_long(9, rca_argument(s.card.rca)),
        Stage::Select => s.inner.lemma_tame_cmd(short_cmd(7, rca_argument(s.card.rca)), false),
        Stage::Width => s.inner.lemma_tame_width(
            s.card.rca,
            usable_width(s.bus_width, s.card.scr),
        ),
        Stage::Clock => {
            s.inner.lemma_tame_clkdiv(divisor(s, first_clock(s.freq)));
            assert(script_of(s) =~= s.inner.clkdiv_steps(divisor(s, first_clock(s.freq))));
        },
        Stage::HighSpeed => s.inner.lemma_tame_high_speed(divisor(s, s.freq), s.card.rca),
        _ => {},
    }
}

/// What a script hears is heard.
proof fn lemma_hears_script(s: Service, n: nat, reply: Reply)
    requires
        at_work(s.init),
        !(s.init.stage is Finished),
        s.init.job is Script,
        told(s, n),
        hears(s, n),
    ensures
        ({
            let next = s.after(reply);
            let moved = Service {
                init: InitState { job: s.init.job.after(reply), ..s.init },
                link: s.link,
                ..next
            };
            &&& told(moved, n)
            &&& hears(moved, n)
            &&& next.heard.words == s.heard.words
        }),
{
    let r = s.init.job->Script_0;
    let next = s.after(reply);
    assert(next.heard.words == s.heard.words);
    assert(next.heard.responses == s.heard.responses || exists|x: u32|
        next.heard.responses == s.heard.responses.push(x));
    assert(s.heard.responses.len() >= heard_before(s.init.stage, n));
}

/// The work of a stage is a script that is over, with all its responses read.
spec fn script_over(s: InitState) -> bool {
    &&& s.job matches JobState::Script(r)
    &&& !moves_data(s.stage)
    &&& r.responses.len() == reads_of(s.stage)
}

/// How often the card was busy by the stage `next`, where it was busy `n` times by the stage
/// before.
pub open spec fn tally(stage: Stage, next: Stage, n: nat) -> nat {
    if stage is Probe && next is AppCommand {
        0
    } else if stage is PowerUp && next is AppCommand {
        n + 1
    } else {
        n
    }
}

/// What the work of a script has told is known after it.
proof fn lemma_told_after_script(s: Service, n: nat)
    requires
        !(s.init.stage is Finished),
        script_over(s.init),
        told(s, n),
        hears(s, n),
    ensures
        ({
            let (init, link) = s.init.passed(s.link);
            let next = Service { init, link, ..s };
            let m = tally(s.init.stage, init.stage, n);
            told(next, m) && (init.stage is Finished || hears(next, m))
        }),
{
    let p = heard_before(s.init.stage, n) as int;
    let heard = s.heard.responses;
    let r = s.init.job->Script_0;
    assert(forall|i: int| 0 <= i < r.responses.len() ==> r.responses[i] == #[trigger] heard[p + i]);
    if r.responses.len() > 0 {
        assert(r.responses[0] == heard[p]);
    }
    let (init, link) = s.init.passed(s.link);
    let next = Service { init, link, ..s };
    match s.init.stage {
        Stage::PowerUp => {
            if busy(heard[p]) {
                assert(told(next, n + 1));
                assert(hears(next, n + 1));
            } else {
                assert(told(next, n));
                assert(hears(next, n));
            }
        },
        Stage::Identify => {
            assert(heard[p + 1] == r.responses[1]);
            assert(heard[p + 2] == r.responses[2]);
            assert(heard[p + 3] == r.responses[3]);
            assert(heard[p + 4] == r.responses[4]);
            assert(told(next, n));
            assert(hears(next, n));
        },
        Stage::Describe => {
            assert(heard[p + 1] == r.responses[1]);
            assert(heard[p + 2] == r.responses[2]);
            assert(heard[p + 3] == r.responses[3]);
            assert(told(next, n));
            assert(hears(next, n));
        },
        Stage::Probe => {
            if heard[p] == CHECK_PATTERN {
                assert(told(next, 0));
                assert(hears(next, 0));
            } else {
                assert(told(next, n));
            }
        },
        _ => {
            assert(told(next, n));
            assert(init.stage is Finished || hears(next, n));
        },
    }
}

/// What a transfer has brought is known after it.
proof fn lemma_told_after_transfer(s: Service, n: nat, words: Seq<u32>)
    requires
        !(s.init.stage is Finished),
        moves_data(s.init.stage),
        s.init.job is Moving,
        told(s, n),
        hears(s, n),
        s.init.job.words() == words,
    ensures
        ({
            let (init, link) = s.init.passed(s.link);
            let heard = Heard { words: s.heard.words.push(words), ..s.heard };
            let next = Service { init, link, heard, ..s };
            told(next, n) && (init.stage is Finished || hears(next, n))
        }),
{
}

/// A transfer reads no responses, and is over without failure exactly when its words are taken.
pub proof fn lemma_transfer_hears(t: TransferState, hw: Hw, heard: Heard, reply: Reply)
    requires
        transfer_inv(t, hw, true),
        t.plan.buffer == Buffer::Scratch,
        !(t.phase is Finished),
    ensures
        ({
            let n = t.after(reply);
            let h = heard.dealt(t.action(), reply);
            &&& h.responses == heard.responses
            &&& if n.phase matches Phase::Finished(r) && r is Ok {
                h.words == heard.words.push(n.words)
            } else {
                h.words == heard.words
            }
        }),
{
    if t.phase is Prelude || t.phase is Armed || t.phase is Closing || t.phase is Settling
        || t.phase is Releasing {
        lemma_transfer_reads_nothing(t);
    }
}

/// No step of a transfer's scripts reads a response.
pub proof fn lemma_transfer_reads_nothing(t: TransferState)
    ensures
        forall|i: int|
            0 <= i < t.inner.prelude_steps(t.plan).len() ==> !(#[trigger] t.inner.prelude_steps(
                t.plan,
            )[i] is ReadResponse),
        forall|i: int|
            0 <= i < t.inner.armed_steps(t.plan).len() ==> !(#[trigger] t.inner.armed_steps(
                t.plan,
            )[i] is ReadResponse),
        forall|i: int|
            0 <= i < t.inner.closing_steps(t.plan).len() ==> !(#[trigger] t.inner.closing_steps(
                t.plan,
            )[i] is ReadResponse),
        forall|i: int|
            0 <= i < t.inner.settle_steps(t.plan).len() ==> !(#[trigger] t.inner.settle_steps(
                t.plan,
            )[i] is ReadResponse),
        forall|i: int|
            0 <= i < t.inner.on_drop_steps().len() ==> !(#[trigger] t.inner.on_drop_steps()[i]
                is ReadResponse),
{
}

proof fn lemma_told_step_script(s: Service, n: nat, r: RunState, reply: Reply)
    requires
        at_work(s.init),
        told(s, n),
        !(s.init.stage is Finished),
        hears(s, n),
        s.init.job == JobState::Script(r),
    ensures
        ({
            let next = s.after(reply);
            let m = tally(s.init.stage, next.init.stage, n);
            told(next, m) && (next.init.stage is Finished || hears(next, m))
        }),
{
    let next = s.after(reply);
    lemma_stage_step(s.init, s.link, reply);
    let moved = Service {
        init: InitState { job: s.init.job.after(reply), ..s.init },
        link: s.link,
        ..next
    };
    lemma_hears_script(s, n, reply);
    lemma_scripts_tame(s.init);
    lemma_reads_step(r, reply);
    lemma_run_moves(r, reply);
    lemma_reads_of(s.init);
    match moved.init.job.action() {
        Action::Done(res) => {
            if moved.init.judged(res) is Ok {
                if res is Err {
                    lemma_reads_none(r.steps, r.after(reply).at);
                }
                lemma_told_after_script(moved, n);
            } else {
                assert(told(next, n));
            }
        },
        _ => {
            assert(told(next, n));
        },
    }
}

proof fn lemma_told_step_transfer(s: Service, n: nat, t: TransferState, reply: Reply)
    requires
        at_work(s.init),
        peripheral_tied(s),
        told(s, n),
        !(s.init.stage is Finished),
        hears(s, n),
        s.init.job == JobState::Moving(t),
    ensures
        ({
            let next = s.after(reply);
            let m = tally(s.init.stage, next.init.stage, n);
            told(next, m) && (next.init.stage is Finished || hears(next, m))
        }),
{
    let next = s.after(reply);
    lemma_stage_step(s.init, s.link, reply);
    let moved = Service {
        init: InitState { job: s.init.job.after(reply), ..s.init },
        link: s.link,
        ..next
    };
    lemma_transfer_hears(t, s.hw, s.heard, reply);
    match moved.init.job.action() {
        Action::Done(res) => {
            if res is Ok {
                let same = Service { heard: s.heard, ..moved };
                lemma_told_after_transfer(same, n, t.after(reply).words);
                assert(next.heard.words == s.heard.words.push(t.after(reply).words));
            }
            assert(told(next, n));
        },
        _ => {
            assert(told(next, n));
        },
    }
}

/// What is known of the card is what it has told, after every reply.
proof fn lemma_told_step(s: Service, n: nat, reply: Reply)
    requires
        at_work(s.init),
        peripheral_tied(s),
        told(s, n),
        s.init.stage is Finished || hears(s, n),
    ensures
        ({
            let next = s.after(reply);
            let m = tally(s.init.stage, next.init.stage, n);
            told(next, m) && (next.init.stage is Finished || hears(next, m))
        }),
{
    if s.init.stage is Finished {
        assert(s.after(reply).heard == s.heard);
        assert(told(s.after(reply), n));
    } else {
        match s.init.job {
            JobState::Script(r) => lemma_told_step_script(s, n, r, reply),
            JobState::Moving(t) => lemma_told_step_transfer(s, n, t, reply),
        }
    }
}

/// The card on record changes only when a card is brought into service.
pub open spec fn card_kept(s: Service, before: Option<CardModel>) -> bool {
    match s.init.stage {
        Stage::Finished(Ok(_)) => s.link.card == Some(s.init.card),
        _ => s.link.card == before,
    }
}

proof fn lemma_card_passed(init: InitState, link: LinkModel)
    requires
        !(init.stage is Finished),
    ensures
        ({
            let (n, l) = init.passed(link);
            match n.stage {
                Stage::Finished(Ok(_)) => l.card == Some(n.card),
                _ => l.card == link.card,
            }
        }),
{
}

proof fn lemma_card_step(s: Service, before: Option<CardModel>, reply: Reply)
    requires
        card_kept(s, before),
    ensures
        card_kept(s.after(reply), before),
{
    if !(s.init.stage is Finished) {
        lemma_card_passed(InitState { job: s.init.job.after(reply), ..s.init }, s.link);
    }
}

/// The card on record changes only when a card is brought into service, whatever the peripheral
/// was like before.
pub proof fn lemma_card_kept(start: Service, replies: Seq<Reply>)
    requires
        !(start.init.stage is Finished),
    ensures
        card_kept(start.replay(replies), start.link.card),
    decreases replies.len(),
{
    if replies.len() > 0 {
        let before = replies.drop_last();
        lemma_card_kept(start, before);
        lemma_card_step(start.replay(before), start.link.card, replies.last());
    }
}

/// What was asked for stays what it is.
spec fn asked_kept(s: InitState, before: InitState) -> bool {
    &&& s.inner == before.inner
    &&& s.freq == before.freq
    &&& s.bus_width == before.bus_width
    &&& s.ker_ck == before.ker_ck
    &&& s.timeout == before.timeout
}

/// The commands by which a card is asked `n` times to get ready.
pub open spec fn asks(n: nat) -> Seq<(u8, u32)>
    decreases n,
{
    if n == 0 {
        Seq::empty()
    } else {
        asks((n - 1) as nat) + seq![(55u8, 0u32), (41u8, OPERATING_CONDITIONS)]
    }
}

/// The commands up to and with `n` times asking.
pub open spec fn opening(n: nat) -> Seq<(u8, u32)> {
    seq![(0u8, 0u32), (8u8, CHECK_PATTERN)] + asks(n)
}

/// The commands that make a card known, once it is ready, and select it.
pub open spec fn introduction(rca: u32) -> Seq<(u8, u32)> {
    seq![(2u8, 0u32), (3u8, 0u32), (9u8, rca), (7u8, rca)]
}

/// The commands that read the configuration register and set the bus width.
pub open spec fn setting_up(rca: u32, width: u32) -> Seq<(u8, u32)> {
    seq![(16u8, 8u32), (55u8, rca), (51u8, 0u32), (55u8, rca), (6u8, width)]
}

/// The commands that read the SD status.
pub open spec fn asking_status(rca: u32) -> Seq<(u8, u32)> {
    seq![(16u8, 64u32), (55u8, rca), (13u8, 0u32)]
}

/// The commands that ask a card for high speed; where the card agrees, it is asked how it fares.
pub open spec fn speeding_up(freq: u32, signalling: Signalling, rca: u32) -> Seq<(u8, u32)> {
    if freq <= DEFAULT_SPEED {
        Seq::empty()
    } else if signalling == Signalling::SDR25 {
        seq![(6u8, 0x80FF_FF01u32), (13u8, rca)]
    } else {
        seq![(6u8, 0x80FF_FF01u32)]
    }
}

/// All that a card is sent that is brought into service, where it was busy `n` times.
pub open spec fn service_commands(
    freq: u32,
    bus_width: BusWidth,
    link: LinkModel,
    card: CardModel,
    n: nat,
) -> Seq<(u8, u32)> {
    let rca = rca_argument(card.rca);
    let width = width_argument(usable_width(bus_width, card.scr));
    opening(n + 1) + introduction(rca) + setting_up(rca, width) + asking_status(rca) + speeding_up(
        freq,
        link.signalling,
        rca,
    ) + asking_status(rca)
}

/// The commands up to and with the first reading of the SD status.
pub open spec fn sent_by_status(s: InitState, n: nat) -> Seq<(u8, u32)> {
    let rca = rca_argument(s.card.rca);
    let width = width_argument(usable_width(s.bus_width, s.card.scr));
    opening(n + 1) + introduction(rca) + setting_up(rca, width) + asking_status(rca)
}

/// What the card was sent before the work of a stage began.
pub open spec fn sent_before(s: InitState, link: LinkModel, n: nat) -> Seq<(u8, u32)> {
    let rca = rca_argument(s.card.rca);
    let width = width_argument(usable_width(s.bus_width, s.card.scr));
    match s.stage {
        Stage::Probe => Seq::empty(),
        Stage::AppCommand => opening(n),
        Stage::OperatingConditions => opening(n) + seq![(55u8, 0u32)],
        Stage::PowerUp | Stage::Identify => opening(n + 1),
        Stage::Describe => opening(n + 1) + seq![(2u8, 0u32), (3u8, 0u32)],
        Stage::Select => opening(n + 1) + seq![(2u8, 0u32), (3u8, 0u32), (9u8, rca)],
        Stage::Configure => opening(n + 1) + introduction(rca),
        Stage::Width => opening(n + 1) + introduction(rca) + seq![
            (16u8, 8u32),
            (55u8, rca),
            (51u8, 0u32),
        ],
        Stage::Clock | Stage::Status => opening(n + 1) + introduction(rca) + setting_up(rca, width),
        Stage::Switch => sent_by_status(s, n),
        Stage::HighSpeed => sent_by_status(s, n) + seq![(6u8, 0x80FF_FF01u32)],
        Stage::FinalStatus => sent_by_status(s, n) + speeding_up(s.freq, link.signalling, rca),
        Stage::Finished(_) => service_commands(s.freq, s.bus_width, link, s.card, n),
    }
}

/// What the work of a stage sends.
pub open spec fn stage_commands(s: InitState) -> Seq<(u8, u32)> {
    let rca = rca_argument(s.card.rca);
    match s.stage {
        Stage::Probe => seq![(0u8, 0u32), (8u8, CHECK_PATTERN)],
        Stage::AppCommand => seq![(55u8, 0u32)],
        Stage::OperatingConditions => seq![(41u8, OPERATING_CONDITIONS)],
        Stage::Identify => seq![(2u8, 0u32), (3u8, 0u32)],
        Stage::Describe => seq![(9u8, rca)],
        Stage::Select => seq![(7u8, rca)],
        Stage::Width => seq![
            (55u8, rca),
            (6u8, width_argument(usable_width(s.bus_width, s.card.scr))),
        ],
        Stage::HighSpeed => seq![(13u8, rca)],
        Stage::Configure | Stage::Status | Stage::Switch | Stage::FinalStatus => plan_commands(
            plan_of(s),
        ),
        _ => Seq::empty(),
    }
}

/// The script of every stage sends what the stage is for.
pub proof fn lemma_script_sends(s: InitState)
    requires
        !(s.stage is Finished),
        !moves_data(s.stage),
    ensures
        sends(script_of(s), stage_commands(s)),
{
    let inner = s.inner;
    let rca = rca_argument(s.card.rca);
    match s.stage {
        Stage::Probe => inner.lemma_probe_sends(),
        Stage::AppCommand => inner.lemma_cmd_sends(short_cmd(55, 0), false),
        Stage::OperatingConditions => inner.lemma_cmd_sends(
            short_cmd(41, OPERATING_CONDITIONS),
            false,
        ),
        Stage::Identify => inner.lemma_identify_sends(),
        Stage::Describe => inner.lemma_long_sends(9, rca),
        Stage::Select => inner.lemma_cmd_sends(short_cmd(7, rca), false),
        Stage::Width => inner.lemma_width_sends(s.card.rca, usable_width(s.bus_width, s.card.scr)),
        Stage::HighSpeed => inner.lemma_high_speed_sends(divisor(s, s.freq), s.card.rca),
        _ => {
            assert(silent(script_of(s)));
            lemma_silent_sends(script_of(s));
        },
    }
}

/// What the card was sent is what the work of a stage sent, after what was sent before.
pub open spec fn speaks(s: Service, n: nat) -> bool {
    let base = sent_before(s.init, s.link, n);
    match s.init.stage {
        Stage::Finished(Ok(_)) => s.sent.commands == base,
        Stage::Finished(Err(_)) => true,
        _ => match s.init.job {
            JobState::Script(r) => {
                &&& argument_ready(r, s.sent)
                &&& s.sent.commands == base + commands_in(r.steps, r.at)
            },
            JobState::Moving(t) => {
                &&& t.plan == plan_of(s.init)
                &&& transfer_sent(t, s.sent, base)
            },
        },
    }
}

/// The stages up to the one in which the card is known to be ready.
spec fn is_early(stage: Stage) -> bool {
    stage is Probe || stage is AppCommand || stage is OperatingConditions || stage is PowerUp
}

/// What follows on the stages that read the SD status.
proof fn lemma_passed_status(s: InitState, link: LinkModel)
    requires
        s.stage is Status || s.stage is FinalStatus,
    ensures
        ({
            let (next, nlink) = s.passed(link);
            &&& next.card.rca == s.card.rca
            &&& next.card.scr == s.card.scr
            &&& next.bus_width == s.bus_width
            &&& next.freq == s.freq
            &&& nlink.signalling == link.signalling
            &&& next.stage == if s.stage is FinalStatus {
                Stage::Finished(Ok(()))
            } else if s.freq > DEFAULT_SPEED {
                Stage::Switch
            } else {
                Stage::FinalStatus
            }
        }),
{
}

/// The commands of a stage, after those before it, are those before the stage that follows.
spec fn leads_over(s: InitState, link: LinkModel, n: nat) -> bool {
    let (next, nlink) = s.passed(link);
    let m = tally(s.stage, next.stage, n);
    ||| next.stage matches Stage::Finished(r) && r is Err
    ||| sent_before(next, nlink, m) == sent_before(s, link, n) + stage_commands(s)
}

proof fn lemma_leads_over_early(s: InitState, link: LinkModel, n: nat)
    requires
        is_early(s.stage),
    ensures
        leads_over(s, link, n),
{
    let none = Seq::<(u8, u32)>::empty();
    let a = seq![(55u8, 0u32)];
    let b = seq![(41u8, OPERATING_CONDITIONS)];
    assert(asks(n + 1) == asks(n) + seq![(55u8, 0u32), (41u8, OPERATING_CONDITIONS)]);
    assert(opening(n) + a + b =~= opening(n + 1));
    assert(opening(n + 1) + none =~= opening(n + 1));
    assert(none + seq![(0u8, 0u32), (8u8, CHECK_PATTERN)] =~= opening(0));
}

proof fn lemma_leads_over_known(s: InitState, link: LinkModel, n: nat)
    requires
        s.stage is Identify || s.stage is Describe || s.stage is Select,
    ensures
        leads_over(s, link, n),
{
    let o = opening(n + 1);
    let rca = rca_argument(s.card.rca);
    let x = seq![(2u8, 0u32), (3u8, 0u32)];
    assert(o + x + seq![(9u8, rca)] =~= o + seq![(2u8, 0u32), (3u8, 0u32), (9u8, rca)]);
    assert(o + seq![(2u8, 0u32), (3u8, 0u32), (9u8, rca)] + seq![(7u8, rca)] =~= o + introduction(
        rca,
    ));
}

proof fn lemma_leads_over_set_up(s: InitState, link: LinkModel, n: nat)
    requires
        s.stage is Configure || s.stage is Width || s.stage is Clock,
    ensures
        leads_over(s, link, n),
{
    let rca = rca_argument(s.card.rca);
    let o = opening(n + 1) + introduction(rca);
    let width = width_argument(usable_width(s.bus_width, s.card.scr));
    let x = seq![(16u8, 8u32), (55u8, rca), (51u8, 0u32)];
    assert(plan_commands(scr_plan(s.card.rca, s.timeout)) =~= x);
    assert(o + x + seq![(55u8, rca), (6u8, width)] =~= o + setting_up(rca, width));
    assert(o + setting_up(rca, width) + Seq::<(u8, u32)>::empty() =~= o + setting_up(rca, width));
}

proof fn lemma_leads_over_status(s: InitState, link: LinkModel, n: nat)
    requires
        s.stage is Status || s.stage is FinalStatus,
    ensures
        leads_over(s, link, n),
{
    let rca = rca_argument(s.card.rca);
    let known = sent_by_status(s, n);
    lemma_passed_status(s, link);
    assert(plan_commands(sd_status_plan(s.card.rca, s.timeout)) =~= asking_status(rca));
    assert(known + Seq::<(u8, u32)>::empty() =~= known);
}

proof fn lemma_leads_over_switch(s: InitState, link: LinkModel, n: nat)
    requires
        s.stage is Switch || s.stage is HighSpeed,
        s.freq > DEFAULT_SPEED,
        s.stage is HighSpeed ==> link.signalling == Signalling::SDR25,
    ensures
        leads_over(s, link, n),
{
    let rca = rca_argument(s.card.rca);
    let known = sent_by_status(s, n);
    let x = seq![(6u8, 0x80FF_FF01u32)];
    assert(plan_commands(switch_plan(Signalling::SDR25, s.timeout)) =~= x);
    assert(known + x + seq![(13u8, rca)] =~= known + speeding_up(s.freq, Signalling::SDR25, rca));
}

/// What a stage's work sent leads over to the stage that follows.
proof fn lemma_leads_over(s: InitState, link: LinkModel, n: nat)
    requires
        !(s.stage is Finished),
        s.stage is Switch ==> s.freq > DEFAULT_SPEED,
        s.stage is HighSpeed ==> s.freq > DEFAULT_SPEED && link.signalling == Signalling::SDR25,
    ensures
        leads_over(s, link, n),
{
    if is_early(s.stage) {
        lemma_leads_over_early(s, link, n);
    } else if s.stage is Identify || s.stage is Describe || s.stage is Select {
        lemma_leads_over_known(s, link, n);
    } else if s.stage is Configure || s.stage is Width || s.stage is Clock {
        lemma_leads_over_set_up(s, link, n);
    } else if s.stage is Switch || s.stage is HighSpeed {
        lemma_leads_over_switch(s, link, n);
    } else {
        lemma_leads_over_status(s, link, n);
    }
}

/// Work that has just begun has sent nothing yet.
proof fn lemma_fresh_speaks(s: Service, n: nat)
    requires
        fresh(s.init),
        !(s.init.stage is Finished),
        s.sent.commands == sent_before(s.init, s.link, n),
    ensures
        speaks(s, n),
{
    let base = sent_before(s.init, s.link, n);
    assert(base + Seq::<(u8, u32)>::empty() =~= base);
    match s.init.job {
        JobState::Script(r) => {},
        JobState::Moving(t) => lemma_transfer_sent_start(s.init.inner, plan_of(s.init), s.sent),
    }
}

/// A script that was broken off at the answer to its only command has sent it.
pub proof fn lemma_broken_off_sends(s: InitState, r: RunState, reply: Reply)
    requires
        s.stage is OperatingConditions || s.stage is Select,
        r.running(),
        r.steps == script_of(s),
        r.after(reply).failed is Some,
    ensures
        commands_in(r.steps, r.at) == stage_commands(s),
{
    lemma_run_moves(r, reply);
    lemma_script_sends(s);
    assert(r.at == 4);
    reveal_with_fuel(commands_in, 2);
}

/// Where the work of a stage went well, what it sent leads over to what follows.
proof fn lemma_speaks_over(s: Service, moved: InitState, next: Service, n: nat)
    requires
        !(moved.stage is Finished),
        (next.init, next.link) == moved.passed(s.link),
        next.init.stage is Finished || fresh(next.init),
        moved.stage is Switch ==> moved.freq > DEFAULT_SPEED,
        moved.stage is HighSpeed ==> moved.freq > DEFAULT_SPEED && s.link.signalling
            == Signalling::SDR25,
        next.sent.commands == sent_before(moved, s.link, n) + stage_commands(moved),
    ensures
        speaks(next, tally(moved.stage, next.init.stage, n)),
{
    lemma_leads_over(moved, s.link, n);
    if !(next.init.stage is Finished) {
        lemma_fresh_speaks(next, tally(moved.stage, next.init.stage, n));
    }
}

/// What the work of a stage sends is accounted for, and all of it once the work went well.
proof fn lemma_speaks_moved(s: Service, n: nat, reply: Reply)
    requires
        at_work(s.init),
        !(s.init.stage is Finished),
        speaks(s, n),
    ensures
        ({
            let moved = InitState { job: s.init.job.after(reply), ..s.init };
            let sent = s.sent.dealt(s.init.action(), reply);
            let base = sent_before(s.init, s.link, n);
            match moved.job.action() {
                Action::Done(r) => moved.judged(r) is Ok ==> sent.commands == base
                    + stage_commands(s.init),
                _ => match moved.job {
                    JobState::Script(r) => argument_ready(r, sent) && sent.commands == base
                        + commands_in(r.steps, r.at),
                    JobState::Moving(t) => t.plan == plan_of(s.init) && transfer_sent(
                        t,
                        sent,
                        base,
                    ),
                },
            }
        }),
{
    let base = sent_before(s.init, s.link, n);
    let moved = InitState { job: s.init.job.after(reply), ..s.init };
    match s.init.job {
        JobState::Script(r) => {
            lemma_scripts_tame(s.init);
            lemma_script_sends(s.init);
            lemma_run_moves(r, reply);
            lemma_sent_step(r, s.sent, base, reply);
            match moved.job.action() {
                Action::Done(res) => {
                    if moved.judged(res) is Ok && res is Err {
                        lemma_broken_off_sends(s.init, r, reply);
                    }
                },
                _ => {},
            }
        },
        JobState::Moving(t) => lemma_transfer_sent_step(t, s.sent, base, reply),
    }
}

proof fn lemma_speaks_step(s: Service, n: nat, reply: Reply)
    requires
        at_work(s.init),
        told(s, n),
        speaks(s, n),
    ensures
        ({
            let next = s.after(reply);
            speaks(next, tally(s.init.stage, next.init.stage, n))
        }),
{
    let next = s.after(reply);
    if !(s.init.stage is Finished) {
        lemma_stage_step(s.init, s.link, reply);
        lemma_speaks_moved(s, n, reply);
        let moved = InitState { job: s.init.job.after(reply), ..s.init };
        match moved.job.action() {
            Action::Done(res) => {
                if moved.judged(res) is Ok {
                    lemma_speaks_over(s, moved, next, n);
                }
            },
            _ => {},
        }
    }
}

/// The card was asked for high speed and agreed, which is the last that it sent of its registers.
pub open spec fn agreed(freq: u32, heard: Heard) -> bool {
    &&& freq > DEFAULT_SPEED
    &&& heard.words.len() == 3
    &&& signalling_of(selection_of(heard.words[2])) == Ok::<Signalling, Error>(Signalling::SDR25)
}

/// Why the procedure may end with an error: the card did not echo the pattern; the first clock
/// cannot be had, or the full one where the card agreed to high speed; the card selected a scheme
/// that there is not; or it agreed to high speed and was then not where it should be; else the bus
/// failed.
pub open spec fn reason(e: Error, init: InitState, heard: Heard) -> bool {
    let clock = |freq: u32| clk_div_spec(init.inner.version, init.ker_ck, freq);
    match e {
        Error::UnsupportedCardVersion => {
            &&& heard.responses.len() == 1
            &&& heard.responses[0] != CHECK_PATTERN
        },
        Error::BadClock => {
            ||| clock(first_clock(init.freq)) is Err
            ||| clock(init.freq) is Err && agreed(init.freq, heard)
        },
        Error::UnsupportedCardType => {
            &&& init.freq > DEFAULT_SPEED
            &&& heard.words.len() == 3
            &&& signalling_of(selection_of(heard.words[2])) is Err
        },
        Error::SignalingSwitchFailed => {
            &&& agreed(init.freq, heard)
            &&& heard.responses.len() > 0
            &&& state_of(heard.responses.last()) != CurrentState::Transfer
        },
        Error::Timeout | Error::Crc => true,
        _ => false,
    }
}

/// A failure has its reason, and a transfer can only fail by the bus.
spec fn reasoned(s: Service) -> bool {
    match s.init.stage {
        Stage::Finished(Err(e)) => reason(e, s.init, s.heard),
        Stage::Finished(Ok(_)) => true,
        _ => s.init.job matches JobState::Moving(t) ==> fails_by_bus(t),
    }
}

/// Work that has just begun has not failed.
proof fn lemma_fresh_reasoned(s: Service)
    requires
        fresh(s.init),
        !(s.init.stage is Finished),
    ensures
        reasoned(s),
{
}

/// Where a stage whose work went well is the last, what was heard is the reason.
proof fn lemma_reason_passed(s: Service, n: nat)
    requires
        !(s.init.stage is Finished),
        s.init.stage is Probe || s.init.stage is Width || s.init.stage is HighSpeed ==> script_over(
            s.init,
        ) && hears(s, n),
        s.init.stage is HighSpeed ==> agreed(s.init.freq, s.heard),
        s.init.stage is Switch ==> s.init.freq > DEFAULT_SPEED && s.heard.words.len() == 3
            && s.init.job.words() == s.heard.words[2],
    ensures
        s.init.passed(s.link).0.stage matches Stage::Finished(r) ==> (r matches Err(e) ==> reason(
            e,
            s.init,
            s.heard,
        )),
{
    let heard = s.heard.responses;
    let p = heard_before(s.init.stage, n) as int;
    if s.init.stage is Probe || s.init.stage is HighSpeed {
        assert(heard.len() == p + 1);
        assert(heard[p] == s.init.job.response(0));
    }
}

/// The work of a stage fails by the bus, and what it was told is heard.
proof fn lemma_reason_moved(s: Service, n: nat, reply: Reply)
    requires
        at_work(s.init),
        peripheral_tied(s),
        told(s, n),
        !(s.init.stage is Finished),
        hears(s, n),
        reasoned(s),
    ensures
        ({
            let moved = Service {
                init: InitState { job: s.init.job.after(reply), ..s.init },
                link: s.link,
                ..s.after(reply)
            };
            &&& moved.init.job matches JobState::Moving(t) ==> fails_by_bus(t)
            &&& match moved.init.job.action() {
                Action::Done(r) => {
                    &&& r matches Err(e) ==> bus_error(e)
                    &&& moved.init.job is Script && r is Ok ==> script_over(moved.init) && hears(
                        moved,
                        n,
                    )
                    &&& moved.init.job is Moving && r is Ok ==> moved.heard.words
                        == s.heard.words.push(moved.init.job.words())
                    &&& moved.init.job is Script ==> moved.heard.words == s.heard.words
                },
                _ => true,
            }
        }),
{
    match s.init.job {
        JobState::Script(r) => {
            lemma_hears_script(s, n, reply);
            lemma_scripts_tame(s.init);
            lemma_reads_step(r, reply);
            lemma_run_moves(r, reply);
            lemma_reads_of(s.init);
        },
        JobState::Moving(t) => {
            lemma_transfer_hears(t, s.hw, s.heard, reply);
            lemma_fails_by_bus_step(t, reply);
        },
    }
}

proof fn lemma_reason_step(s: Service, n: nat, reply: Reply)
    requires
        at_work(s.init),
        peripheral_tied(s),
        told(s, n),
        s.init.stage is Finished || hears(s, n),
        reasoned(s),
    ensures
        reasoned(s.after(reply)),
{
    let next = s.after(reply);
    if s.init.stage is Finished {
        assert(next.heard == s.heard);
    } else {
        lemma_stage_step(s.init, s.link, reply);
        lemma_reason_moved(s, n, reply);
        let moved = Service {
            init: InitState { job: s.init.job.after(reply), ..s.init },
            link: s.link,
            ..next
        };
        match moved.init.job.action() {
            Action::Done(res) => {
                if moved.init.judged(res) is Ok {
                    lemma_reason_passed(moved, n);
                    lemma_asked_passed(moved.init, s.link);
                    if !(next.init.stage is Finished) {
                        lemma_fresh_reasoned(next);
                    }
                }
            },
            _ => {},
        }
    }
}

/// All that holds of a card being brought into service, where it was busy `n` times and `open`
/// tells whether interrupts may be let through.
spec fn sound(s: Service, start: Service, n: nat, open: bool) -> bool {
    &&& asked_kept(s.init, start.init)
    &&& at_work(s.init)
    &&& peripheral_tied(s)
    &&& masked(s, open)
    &&& settings_kept(s)
    &&& card_kept(s, start.link.card)
    &&& told(s, n)
    &&& s.init.stage is Finished || hears(s, n)
    &&& speaks(s, n)
    &&& reasoned(s)
}

proof fn lemma_sound_start(start: Service)
    requires
        start.ready(),
    ensures
        sound(start, start, 0, start.hw.interrupts),
{
    assert(fresh(start.init));
    lemma_fresh_at_work(start.init);
    lemma_fresh_tied(start);
    lemma_fresh_masked(start, start.hw.interrupts);
    lemma_fresh_speaks(start, 0);
    lemma_fresh_reasoned(start);
}

proof fn lemma_sound_step(s: Service, start: Service, n: nat, open: bool, reply: Reply)
    requires
        start.init.valid(),
        sound(s, start, n, open),
    ensures
        sound(
            s.after(reply),
            start,
            tally(s.init.stage, s.after(reply).init.stage, n),
            s.opens(open, reply),
        ),
{
    lemma_asked_step(s.init, s.link, reply);
    if !(s.init.stage is Finished) {
        lemma_stage_step(s.init, s.link, reply);
    }
    lemma_peripheral_step(s, reply);
    lemma_masked_step(s, open, reply);
    lemma_settings_step(s, reply);
    lemma_card_step(s, start.link.card, reply);
    lemma_told_step(s, n, reply);
    lemma_speaks_step(s, n, reply);
    lemma_reason_step(s, n, reply);
}

proof fn lemma_asked_passed(s: InitState, link: LinkModel)
    ensures
        asked_kept(s.passed(link).0, s),
{
}

proof fn lemma_asked_step(s: InitState, link: LinkModel, reply: Reply)
    ensures
        asked_kept(s.after(link, reply).0, s),
{
    lemma_asked_passed(InitState { job: s.job.after(reply), ..s }, link);
}

/// How often the card was busy.
pub open spec fn busy_times(start: Service, replies: Seq<Reply>) -> nat
    decreases replies.len(),
{
    if replies.len() == 0 {
        0
    } else {
        let s = start.replay(replies.drop_last());
        tally(
            s.init.stage,
            s.after(replies.last()).init.stage,
            busy_times(start, replies.drop_last()),
        )
    }
}

proof fn lemma_sound(start: Service, replies: Seq<Reply>)
    requires
        start.ready(),
    ensures
        sound(
            start.replay(replies),
            start,
            busy_times(start, replies),
            start.left_open(replies),
        ),
    decreases replies.len(),
{
    if replies.len() == 0 {
        lemma_sound_start(start);
    } else {
        let before = replies.drop_last();
        lemma_sound(start, before);
        lemma_sound_step(
            start.replay(before),
            start,
            busy_times(start, before),
            start.left_open(before),
            replies.last(),
        );
    }
}

/// How many registers a card has sent by a stage.
pub open spec fn words_heard(stage: Stage, freq: u32, words: nat) -> bool {
    match stage {
        Stage::Width | Stage::Clock | Stage::Status => words == 1,
        Stage::Switch => words == 2 && freq > 25_000_000,
        Stage::HighSpeed => words == 3 && freq > 25_000_000,
        Stage::FinalStatus => words == if freq > 25_000_000 {
            3nat
        } else {
            2nat
        },
        Stage::Finished(_) => true,
        _ => words == 0,
    }
}

/// What is known at every moment of the work, of what was sent, and of the settings at the end.
pub proof fn lemma_service(start: Service, replies: Seq<Reply>)
    requires
        start.ready(),
    ensures
        ({
            let s = start.replay(replies);
            let n = busy_times(start, replies);
            &&& s.init.inner == start.init.inner
            &&& s.init.timeout == start.init.timeout
            &&& s.init.freq == start.init.freq
            &&& s.init.ker_ck == start.init.ker_ck
            &&& at_work(s.init)
            &&& peripheral_tied(s)
            &&& speaks(s, n)
            &&& s.init.stage is Switch || s.init.stage is HighSpeed ==> s.init.freq > 25_000_000
            &&& s.init.stage is HighSpeed ==> s.link.signalling == Signalling::SDR25
            &&& words_heard(s.init.stage, s.init.freq, s.heard.words.len())
            &&& s.init.stage == Stage::Finished(Ok(())) ==> {
                &&& s.link.card == Some(s.init.card)
                &&& as_told(start.init.freq, s.heard, s.link, s.init.card, n)
                &&& s.sent.commands == service_commands(
                    start.init.freq,
                    start.init.bus_width,
                    s.link,
                    s.init.card,
                    n,
                )
                &&& s.hw.power == 3
                &&& clock_set(s, final_clock(start.init.freq, s.link.signalling))
                &&& s.hw.widbus == width_field(
                    usable_width(start.init.bus_width, s.init.card.scr),
                )
            }
        }),
{
    lemma_sound(start, replies);
}

/// What a change to the settings that is due says of the card: it has power when it is sent a
/// command; the number of lines is set once the card was told of it by ACMD6, whose argument is 2
/// for four lines and 0 for one; and the divisor is set for 25 MHz at most unless the card agreed
/// to more.
pub open spec fn settings_in_turn(s: Service) -> bool {
    match s.init.action() {
        Action::Write(RegWrite::Cmdr(_)) => s.hw.power == 3,
        Action::Write(RegWrite::Widbus(n)) => {
            &&& n <= 1
            &&& s.sent.commands.len() > 0
            &&& s.sent.commands.last().0 == 6
            &&& s.sent.commands.last().1 == 2 * n
        },
        Action::Write(RegWrite::Clkdiv(d)) => {
            ||| card_clock(s.init.inner.version, s.init.ker_ck, d as nat).0 <= 25_000_000
            ||| s.init.freq > 25_000_000 && s.link.signalling == Signalling::SDR25
        },
        _ => true,
    }
}

proof fn lemma_settings_in_turn(s: Service, n: nat)
    requires
        s.init.valid(),
        at_work(s.init),
        peripheral_tied(s),
        settings_kept(s),
        speaks(s, n),
        s.init.stage is HighSpeed ==> s.init.freq > 25_000_000,
    ensures
        settings_in_turn(s),
{
    if !(s.init.stage is Finished) {
        match s.init.job {
            JobState::Script(r) => {
                lemma_special_steps(s.init);
                lemma_clock_found(s.init, target(s.init));
                if s.init.stage is Width && r.at == 11 {
                    lemma_script_sends(s.init);
                    let base = sent_before(s.init, s.link, n);
                    assert(commands_in(r.steps, 12) == commands_in(r.steps, 11));
                    assert(s.sent.commands == base + stage_commands(s.init));
                    assert(s.sent.commands.last() == stage_commands(s.init)[1]);
                }
            },
            JobState::Moving(t) => {
                lemma_transfer_settings(t, s.hw, Reply::Ack);
                lemma_transfer_changes_nothing_set(t, s.hw);
            },
        }
    }
}

/// A transfer is never due to change the number of lines or the divisor.
proof fn lemma_transfer_changes_nothing_set(t: TransferState, hw: Hw)
    requires
        transfer_inv(t, hw, true),
    ensures
        !(t.action() matches Action::Write(RegWrite::Widbus(_))),
        !(t.action() matches Action::Write(RegWrite::Clkdiv(_))),
{
}

/// At every moment the settings change in their turn.
pub proof fn lemma_service_settings(start: Service, replies: Seq<Reply>)
    requires
        start.ready(),
    ensures
        settings_in_turn(start.replay(replies)),
{
    lemma_sound(start, replies);
    lemma_settings_in_turn(start.replay(replies), busy_times(start, replies));
}

/// The card is what it told of itself: it echoed the pattern, was busy `n` times, then told its
/// operation conditions, its identification, its address and its description; then it sent its
/// configuration and its status, was switched to high speed where that was asked for, and sent
/// its status once more.
pub open spec fn as_told(
    freq: u32,
    heard: Heard,
    link: LinkModel,
    card: CardModel,
    n: nat,
) -> bool {
    let r = heard.responses;
    let w = heard.words;
    let at = n as int;
    &&& r.len() >= n + 11
    &&& r[0] == CHECK_PATTERN
    &&& forall|i: int| 1 <= i <= n ==> busy(#[trigger] r[i])
    &&& !busy(r[at + 1])
    &&& card.ocr == r[at + 1]
    &&& card.card_type == capacity_of(card.ocr)
    &&& card.cid == long_number(r[at + 2], r[at + 3], r[at + 4], r[at + 5])
    &&& card.rca == r[at + 6] / 0x1_0000
    &&& card.csd == long_number(r[at + 7], r[at + 8], r[at + 9], r[at + 10])
    &&& w.len() >= 3
    &&& card.scr == big_endian_pair(w[0][0], w[0][1])
    &&& card.status == as_numbers(w.last())
    &&& if freq > DEFAULT_SPEED {
        w.len() == 4 && switch_told(heard, link, n)
    } else {
        w.len() == 3 && r.len() == n + 11
    }
}

/// A card that was brought into service is on record, and what is on record is what it told.
pub proof fn law_served_card_is_as_told(start: Service, replies: Seq<Reply>)
    requires
        start.ready(),
    ensures
        ({
            let s = start.replay(replies);
            s.init.stage matches Stage::Finished(r) && r is Ok ==> s.link.card is Some && exists|
                n: nat,
            | #[trigger]
                as_told(start.init.freq, s.heard, s.link, s.link.card->0, n)
        }),
{
    lemma_sound(start, replies);
    let s = start.replay(replies);
    if s.init.stage matches Stage::Finished(r) && r is Ok {
        let n = busy_times(start, replies);
        assert(s.link.card == Some(s.init.card));
        assert(as_told(start.init.freq, s.heard, s.link, s.link.card->0, n));
    }
}

/// A card that was brought into service was sent the commands of the procedure, each in its place
/// and none besides, and was asked to get ready once more than it said that it was busy.
pub proof fn law_served_card_was_sent(start: Service, replies: Seq<Reply>)
    requires
        start.ready(),
    ensures
        ({
            let s = start.replay(replies);
            s.init.stage matches Stage::Finished(r) && r is Ok ==> s.link.card is Some && exists|
                n: nat,
            |
                #![trigger as_told(start.init.freq, s.heard, s.link, s.link.card->0, n)]
                {
                    &&& as_told(start.init.freq, s.heard, s.link, s.link.card->0, n)
                    &&& s.sent.commands == service_commands(
                        start.init.freq,
                        start.init.bus_width,
                        s.link,
                        s.link.card->0,
                        n,
                    )
                }
        }),
{
    lemma_sound(start, replies);
    let s = start.replay(replies);
    if s.init.stage matches Stage::Finished(r) && r is Ok {
        let n = busy_times(start, replies);
        assert(s.link.card == Some(s.init.card));
        assert(as_told(start.init.freq, s.heard, s.link, s.link.card->0, n));
    }
}

/// Until a card has been brought into service, the card on record stays the one from before,
/// also where the attempt fails.
pub proof fn law_failed_init_keeps_card(start: Service, replies: Seq<Reply>)
    requires
        start.ready(),
    ensures
        ({
            let s = start.replay(replies);
            !(s.init.stage matches Stage::Finished(r) && r is Ok) ==> s.link.card
                == start.link.card
        }),
{
    lemma_sound(start, replies);
}

/// An attempt that failed did so for a reason that the card or the clock gave, or because the bus
/// failed.
pub proof fn law_failed_init_has_a_reason(start: Service, replies: Seq<Reply>)
    requires
        start.ready(),
    ensures
        ({
            let s = start.replay(replies);
            s.init.stage matches Stage::Finished(r) ==> (r matches Err(e) ==> reason(
                e,
                start.init,
                s.heard,
            ))
        }),
{
    lemma_sound(start, replies);
}

/// When the procedure is over, well or not, and whenever it sleeps, the clock on record is the
/// clock that the card gets.
pub proof fn law_clock_is_on_record(start: Service, replies: Seq<Reply>)
    requires
        start.ready(),
    ensures
        ({
            let s = start.replay(replies);
            s.init.action() is Done || s.init.action() is Suspend ==> s.clock_on_record()
        }),
{
    lemma_sound(start, replies);
}

/// A card in service has power, gets a clock of at most what was asked for, and of no more than
/// the default speed unless it agreed to a higher one; the bus is as wide as host and card allow.
pub proof fn law_served_card_is_set_up(start: Service, replies: Seq<Reply>)
    requires
        start.ready(),
    ensures
        ({
            let s = start.replay(replies);
            s.init.stage matches Stage::Finished(r) && r is Ok ==> {
                &&& s.hw.power == POWER_ON
                &&& s.link.clock.0 <= start.init.freq
                &&& s.link.clock.0 <= DEFAULT_SPEED || s.link.signalling == Signalling::SDR25
                &&& s.link.card matches Some(card) && s.hw.widbus == width_field(
                    usable_width(start.init.bus_width, card.scr),
                )
            }
        }),
{
    lemma_sound(start, replies);
}

/// When the procedure is over, well or not, nothing moves data. No interrupt can come of it either
/// where a transfer failed that had touched the data path; nor where it failed otherwise, unless
/// the last transfer before that went well and its interrupts were not masked since.
pub proof fn law_init_lets_go(start: Service, replies: Seq<Reply>)
    requires
        start.ready(),
    ensures
        ({
            let s = start.replay(replies);
            s.init.stage is Finished ==> {
                &&& s.hw.stopped()
                &&& s.init.job matches JobState::Moving(t) ==> (t.failed() && t.touched()
                    ==> !s.hw.interrupts)
                &&& s.hw.interrupts ==> start.left_open(replies)
            }
        }),
{
    lemma_sound(start, replies);
}

/// At no moment is a command due to be sent before the command path was seen at rest, nor the
/// clock, the bus width or the data path due to be set before both paths were.
pub proof fn law_init_is_careful(start: Service, replies: Seq<Reply>)
    requires
        start.ready(),
    ensures
        ({
            let s = start.replay(replies);
            s.init.action() matches Action::Write(w) ==> s.hw.admits(w)
        }),
{
    lemma_sound(start, replies);
    lemma_peripheral_step(start.replay(replies), Reply::Ack);
}

/// The procedure can be given up at any moment: once what it then asks for is done, nothing moves
/// data, and no interrupt can come of it if the transfer under way had touched the data path and
/// the data had not come to its end.
pub proof fn law_abandoned_init_lets_go(start: Service, replies: Seq<Reply>, more: Seq<Reply>)
    requires
        start.ready(),
    ensures
        ({
            let s = start.replay(replies);
            let (r, hw) = replay_run(
                RunState::start(s.init.inner, s.init.abandon_steps()),
                s.hw,
                more,
            );
            !r.running() ==> {
                &&& hw.stopped()
                &&& match s.init.job {
                    JobState::Moving(t) => {
                        &&& t.touched() && !t.ended() ==> !hw.interrupts
                        &&& hw.interrupts ==> t.ended() || start.left_open(replies)
                    },
                    JobState::Script(_) => hw.interrupts ==> start.left_open(replies),
                }
            }
        }),
{
    lemma_sound(start, replies);
    lemma_given_up(start.replay(replies), start.left_open(replies), more);
}

/// What giving up leaves behind.
proof fn lemma_given_up(s: Service, open: bool, more: Seq<Reply>)
    requires
        at_work(s.init),
        peripheral_tied(s),
        masked(s, open),
    ensures
        ({
            let (r, hw) = replay_run(
                RunState::start(s.init.inner, s.init.abandon_steps()),
                s.hw,
                more,
            );
            !r.running() ==> {
                &&& hw.stopped()
                &&& match s.init.job {
                    JobState::Moving(t) => {
                        &&& t.touched() && !t.ended() ==> !hw.interrupts
                        &&& hw.interrupts ==> t.ended() || open
                    },
                    JobState::Script(_) => hw.interrupts ==> open,
                }
            }
        }),
{
    match s.init.stage {
        Stage::Finished(_) => lemma_replay_nothing(s.init.inner, s.hw, more),
        _ => match s.init.job {
            JobState::Script(_) => lemma_replay_nothing(s.init.inner, s.hw, more),
            JobState::Moving(t) => lemma_abandon_transfer(t, s.hw, open, more),
        },
    }
}

/// A procedure that is given up sets its peripheral to rest, or does nothing; what was asked for
/// stays what it was.
pub proof fn lemma_abandoned_init_rests(start: Service, replies: Seq<Reply>)
    requires
        start.ready(),
    ensures
        ({
            let s = start.replay(replies);
            &&& s.init.inner == start.init.inner
            &&& s.init.ker_ck == start.init.ker_ck
            &&& sets_to_rest(start.init.inner, s.init.abandon_steps())
        }),
{
    lemma_sound(start, replies);
}

} // verus!
