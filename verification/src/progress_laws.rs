//! With a card that does its part, all that is begun comes to a good end.

use vstd::prelude::*;

use crate::bench::{command_busy, data_busy, shows_data_fault};
use crate::blocks::{BlocksStage, ReadBlocksState, WriteBlocksState};
use crate::card::CardModel;
use crate::clock::law_clk_div;
use crate::effect::{lemma_run_moves, lemma_straight_transfer, replay_transfer, straight, Hw};
use crate::init::{first_clock, InitState, Stage};
use crate::init_laws::{
    at_work, divisor, fresh, lemma_scripts_tame, lemma_service, lemma_stage_step,
    lemma_start_keeps_plan, plan_of, script_of, Service,
};
use crate::init_scripts::reads;
use crate::inner::SdmmcInner;
use crate::job::JobState;
use crate::link::LinkModel;
use crate::registers::{Action, Buffer, Reply};
use crate::script::{RunState, Step};
use crate::service_laws::{can_begin, law_service_begins_as_asked, out_of_reach};
use crate::transfer::{
    block_address, read_block_plan, sd_status_plan, write_block_plan, Phase, Plan, TransferState,
};
use crate::types::{BusWidth, CardCapacity, Hertz, Version};
use crate::write::{WriteStage, WriteState};
use crate::write_laws::{ReadingRow, Writing, WritingRow};

verus! {

/// The reply that is hoped for: changes are made, paths are at rest, commands are answered, and
/// data comes to its end, all without a fault.
pub open spec fn hoped_for(version: Version, action: Action, reply: Reply) -> bool {
    match (action, reply) {
        (Action::Write(_), Reply::Ack) => true,
        (Action::Delay(_), Reply::Ack) => true,
        (Action::Suspend, Reply::Ack) => true,
        (Action::ReadStatus, Reply::Status(s)) => {
            &&& !data_busy(version, s)
            &&& !command_busy(version, s)
            &&& s.cmdrend && s.cmdsent
            &&& !s.ctimeout && !s.ccrcfail
        },
        (Action::PollStatus, Reply::Status(s)) => s.dataend && shows_data_fault(s) is None,
        (Action::ReadResponse(_), Reply::Response(_)) => true,
        (Action::ReadWords, Reply::Words(_)) => true,
        (Action::Done(_), _) => true,
        _ => false,
    }
}

/// How much of a script is left to do.
spec fn script_cost(r: RunState) -> int {
    2 * (r.steps.len() - r.at) - if r.halfway {
        1int
    } else {
        0int
    }
}

/// A reply that is hoped for brings a script on.
proof fn lemma_script_costs(r: RunState, reply: Reply)
    requires
        r.running(),
        straight(r.steps),
        hoped_for(r.inner.version, r.action(), reply),
    ensures
        ({
            let n = r.after(reply);
            &&& n.failed is None
            &&& n.at <= n.steps.len()
            &&& script_cost(n) < script_cost(r)
            &&& n.steps == r.steps
            &&& n.inner == r.inner
        }),
{
    lemma_run_moves(r, reply);
}

/// A transfer that has met with no fault.
spec fn on_track(t: TransferState) -> bool {
    let run = t.run;
    match t.phase {
        Phase::Prelude => {
            &&& run.inner == t.inner
            &&& run.running()
            &&& run.steps == t.inner.prelude_steps(t.plan)
        },
        Phase::Armed => {
            &&& run.inner == t.inner
            &&& run.running()
            &&& run.steps == t.inner.armed_steps(t.plan)
        },
        Phase::Closing => {
            &&& run.inner == t.inner
            &&& run.running()
            &&& run.steps == t.inner.closing_steps(t.plan)
        },
        Phase::Polling | Phase::Suspended | Phase::Collecting | Phase::Finished(Ok(_)) => true,
        _ => false,
    }
}

/// How much of a transfer is left to do.
spec fn transfer_cost(t: TransferState) -> int {
    let armed = 2 * t.inner.armed_steps(t.plan).len() as int;
    let closing = 2 * t.inner.closing_steps(t.plan).len() as int;
    match t.phase {
        Phase::Prelude => script_cost(t.run) + armed + closing + 5,
        Phase::Armed => script_cost(t.run) + closing + 5,
        Phase::Suspended => closing + 4,
        Phase::Polling => closing + 3,
        Phase::Closing => script_cost(t.run) + 2,
        Phase::Collecting => 1,
        _ => 0,
    }
}

proof fn lemma_transfer_costs(t: TransferState, reply: Reply)
    requires
        on_track(t),
        !(t.phase is Finished),
        hoped_for(t.inner.version, t.action(), reply),
    ensures
        ({
            let n = t.after(reply);
            &&& on_track(n)
            &&& 0 <= transfer_cost(n) < transfer_cost(t)
            &&& n.inner == t.inner
            &&& n.plan == t.plan
            &&& n.phase is Finished <==> n.action() is Done
            &&& n.phase is Finished && t.plan.buffer == Buffer::Scratch ==> (reply
                matches Reply::Words(w) && n.words == w@)
        }),
{
    lemma_straight_transfer(t.inner, t.plan);
    assert(t.inner.armed_steps(t.plan).len() > 0);
    assert(t.inner.closing_steps(t.plan).len() > 0);
    match t.phase {
        Phase::Prelude | Phase::Armed | Phase::Closing => lemma_script_costs(t.run, reply),
        _ => {},
    }
}

/// A transfer has sixty things to do at most.
proof fn lemma_transfer_cost_start(inner: SdmmcInner, plan: Plan)
    ensures
        on_track(TransferState::start(inner, plan)),
        0 < transfer_cost(TransferState::start(inner, plan)) <= 60,
{
    assert(inner.armed_steps(plan).len() <= 13);
    assert(inner.closing_steps(plan).len() <= 3);
    assert(inner.prelude_steps(plan).len() <= 10);
}

/// Every reply to a transfer was the one that is hoped for.
pub open spec fn all_hoped_for(t: TransferState, hw: Hw, replies: Seq<Reply>) -> bool
    decreases replies.len(),
{
    replies.len() > 0 ==> {
        let before = replies.drop_last();
        &&& all_hoped_for(t, hw, before)
        &&& hoped_for(
            t.inner.version,
            replay_transfer(t, hw, before).0.action(),
            replies.last(),
        )
    }
}

proof fn lemma_transfer_track(inner: SdmmcInner, plan: Plan, hw: Hw, replies: Seq<Reply>)
    requires
        all_hoped_for(TransferState::start(inner, plan), hw, replies),
    ensures
        ({
            let t = replay_transfer(TransferState::start(inner, plan), hw, replies).0;
            &&& on_track(t)
            &&& t.inner == inner
            &&& t.plan == plan
            &&& t.phase is Finished || 0 <= transfer_cost(t) <= 60 - replies.len()
        }),
    decreases replies.len(),
{
    let start = TransferState::start(inner, plan);
    lemma_start_keeps_plan(inner, plan);
    if replies.len() == 0 {
        lemma_transfer_cost_start(inner, plan);
    } else {
        let before = replies.drop_last();
        lemma_transfer_track(inner, plan, hw, before);
        let t = replay_transfer(start, hw, before).0;
        if !(t.phase is Finished) {
            lemma_transfer_costs(t, replies.last());
        }
    }
}

/// A transfer whose every reply is the one hoped for does not fail, and is over, well, after sixty
/// of them at the latest.
pub proof fn law_transfer_ends_well(inner: SdmmcInner, plan: Plan, hw: Hw, replies: Seq<Reply>)
    requires
        all_hoped_for(TransferState::start(inner, plan), hw, replies),
    ensures
        ({
            let t = replay_transfer(TransferState::start(inner, plan), hw, replies).0;
            &&& !t.failed()
            &&& replies.len() > 60 ==> (t.action() matches Action::Done(r) && r is Ok)
        }),
{
    lemma_transfer_track(inner, plan, hw, replies);
}

/// A write that has met with no fault.
spec fn write_on_track(w: WriteState) -> bool {
    &&& w.transfer.inner == w.inner
    &&& match w.stage {
        WriteStage::Finished(r) => r is Ok,
        _ => on_track(w.transfer) && !(w.transfer.phase is Finished),
    }
}

/// How much of a write is left to do.
spec fn write_cost(w: WriteState) -> int {
    match w.stage {
        WriteStage::Writing => transfer_cost(w.transfer) + 61,
        WriteStage::Asking(_) => transfer_cost(w.transfer),
        WriteStage::Finished(_) => 0,
    }
}

proof fn lemma_write_costs(w: WriteState, card: CardModel, reply: Reply)
    requires
        write_on_track(w),
        !(w.stage is Finished),
        hoped_for(w.inner.version, w.action(), reply),
    ensures
        ({
            let n = w.after(card, reply).0;
            &&& write_on_track(n)
            &&& 0 <= write_cost(n) < write_cost(w)
            &&& n.inner == w.inner
            &&& n.timeout == w.timeout
            &&& n.stage is Finished <==> n.action() is Done
        }),
{
    lemma_transfer_costs(w.transfer, reply);
    lemma_on_track_done(w.transfer.after(reply));
    let plan = sd_status_plan(card.rca, w.timeout);
    lemma_transfer_cost_start(w.inner, plan);
    lemma_start_keeps_plan(w.inner, plan);
    lemma_on_track_done(TransferState::start(w.inner, plan));
}

/// A transfer that has met with no fault is done only when it is over, and then it went well.
proof fn lemma_on_track_done(t: TransferState)
    requires
        on_track(t),
    ensures
        t.action() matches Action::Done(r) ==> t.phase is Finished && r is Ok,
        t.phase is Finished ==> t.action() is Done,
{
}

proof fn lemma_write_start_on_track(inner: SdmmcInner, address: u32, timeout: u32)
    ensures
        ({
            let w = WriteState::start(inner, address, timeout);
            &&& write_on_track(w)
            &&& 0 < write_cost(w) <= 121
            &&& !(w.stage is Finished)
            &&& w.inner == inner
        }),
{
    let plan = write_block_plan(address, timeout);
    lemma_transfer_cost_start(inner, plan);
    lemma_start_keeps_plan(inner, plan);
}

/// Every reply to a write was the one that is hoped for.
pub open spec fn write_hoped_for(start: Writing, replies: Seq<Reply>) -> bool
    decreases replies.len(),
{
    replies.len() > 0 ==> {
        let before = replies.drop_last();
        &&& write_hoped_for(start, before)
        &&& hoped_for(
            start.write.inner.version,
            start.replay(before).write.action(),
            replies.last(),
        )
    }
}

proof fn lemma_write_track(
    inner: SdmmcInner,
    address: u32,
    timeout: u32,
    card: CardModel,
    hw: Hw,
    replies: Seq<Reply>,
)
    requires
        write_hoped_for(
            Writing { write: WriteState::start(inner, address, timeout), card, hw },
            replies,
        ),
    ensures
        ({
            let start = Writing { write: WriteState::start(inner, address, timeout), card, hw };
            let w = start.replay(replies).write;
            &&& write_on_track(w)
            &&& w.inner == inner
            &&& w.stage is Finished || 0 <= write_cost(w) <= 121 - replies.len()
        }),
    decreases replies.len(),
{
    let start = Writing { write: WriteState::start(inner, address, timeout), card, hw };
    lemma_write_start_on_track(inner, address, timeout);
    if replies.len() > 0 {
        let before = replies.drop_last();
        lemma_write_track(inner, address, timeout, card, hw, before);
        let s = start.replay(before);
        if !(s.write.stage is Finished) {
            lemma_write_costs(s.write, s.card, replies.last());
        }
    }
}

/// A write whose every reply is the one hoped for does not fail, and is over, well, after 121 of
/// them at the latest.
pub proof fn law_write_ends_well(
    inner: SdmmcInner,
    address: u32,
    timeout: u32,
    card: CardModel,
    hw: Hw,
    replies: Seq<Reply>,
)
    requires
        write_hoped_for(
            Writing { write: WriteState::start(inner, address, timeout), card, hw },
            replies,
        ),
    ensures
        ({
            let start = Writing { write: WriteState::start(inner, address, timeout), card, hw };
            let w = start.replay(replies).write;
            &&& w.stage matches WriteStage::Finished(r) ==> r is Ok
            &&& replies.len() > 121 ==> (w.action() matches Action::Done(r) && r is Ok)
        }),
{
    lemma_write_track(inner, address, timeout, card, hw, replies);
}

/// Every reply to a row of blocks that is read was the one that is hoped for.
pub open spec fn reading_hoped_for(start: ReadingRow, replies: Seq<Reply>) -> bool
    decreases replies.len(),
{
    replies.len() > 0 ==> {
        let before = replies.drop_last();
        &&& reading_hoped_for(start, before)
        &&& hoped_for(
            start.blocks.inner.version,
            start.replay(before).blocks.action(),
            replies.last(),
        )
    }
}

/// What is left of a row of blocks that is read, where all went well so far.
spec fn reading_left(b: ReadBlocksState, inner: SdmmcInner, count: u32, left: int) -> bool {
    &&& b.inner == inner
    &&& b.count == count
    &&& match b.stage {
        BlocksStage::Block(i, t) => {
            &&& i < count
            &&& t.inner == inner
            &&& on_track(t)
            &&& !(t.phase is Finished)
            &&& 0 <= transfer_cost(t)
            &&& 61 * (count - i - 1) + transfer_cost(t) <= left
        },
        BlocksStage::Finished(r) => r is Ok,
    }
}

proof fn lemma_reading_left_at(b: ReadBlocksState, inner: SdmmcInner, count: u32, index: int)
    requires
        b.inner == inner,
        b.count == count,
        0 <= index <= count,
        b == b.at_block(index),
    ensures
        reading_left(b, inner, count, 61 * (count - index)),
{
    let address = block_address(b.capacity, (b.start + index) as u32) as u32;
    let plan = read_block_plan(address, b.timeout);
    lemma_transfer_cost_start(inner, plan);
    lemma_start_keeps_plan(inner, plan);
}

proof fn lemma_reading_left_step(
    b: ReadBlocksState,
    inner: SdmmcInner,
    count: u32,
    left: int,
    reply: Reply,
)
    requires
        reading_left(b, inner, count, left),
        hoped_for(inner.version, b.action(), reply),
    ensures
        reading_left(b.after(reply), inner, count, left - 1),
{
    match b.stage {
        BlocksStage::Block(i, t) => {
            lemma_transfer_costs(t, reply);
            lemma_on_track_done(t.after(reply));
            let n = b.after(reply);
            if t.after(reply).action() is Done {
                assert(n == n.at_block(i + 1));
                lemma_reading_left_at(n, inner, count, i + 1);
            }
        },
        BlocksStage::Finished(_) => {},
    }
}

proof fn lemma_reading_track(
    inner: SdmmcInner,
    capacity: CardCapacity,
    timeout: u32,
    start: u32,
    count: u32,
    hw: Hw,
    replies: Seq<Reply>,
)
    requires
        reading_hoped_for(
            ReadingRow {
                blocks: ReadBlocksState::begin(inner, capacity, timeout, start, count),
                hw,
                done: 0,
            },
            replies,
        ),
    ensures
        ({
            let blocks = ReadBlocksState::begin(inner, capacity, timeout, start, count);
            let s = ReadingRow { blocks, hw, done: 0 }.replay(replies);
            reading_left(s.blocks, inner, count, 61 * count - replies.len())
        }),
    decreases replies.len(),
{
    let blocks = ReadBlocksState::begin(inner, capacity, timeout, start, count);
    let row = ReadingRow { blocks, hw, done: 0 };
    if replies.len() == 0 {
        lemma_reading_left_at(blocks, inner, count, 0);
    } else {
        let before = replies.drop_last();
        lemma_reading_track(inner, capacity, timeout, start, count, hw, before);
        lemma_reading_left_step(
            row.replay(before).blocks,
            inner,
            count,
            61 * count - before.len(),
            replies.last(),
        );
    }
}

/// Reading `count` blocks with a card that does its part does not fail, and is over, well, after 61
/// replies for each block at the latest.
pub proof fn law_reading_row_ends_well(
    inner: SdmmcInner,
    capacity: CardCapacity,
    timeout: u32,
    start: u32,
    count: u32,
    hw: Hw,
    replies: Seq<Reply>,
)
    requires
        reading_hoped_for(
            ReadingRow {
                blocks: ReadBlocksState::begin(inner, capacity, timeout, start, count),
                hw,
                done: 0,
            },
            replies,
        ),
    ensures
        ({
            let blocks = ReadBlocksState::begin(inner, capacity, timeout, start, count);
            let s = ReadingRow { blocks, hw, done: 0 }.replay(replies);
            &&& s.blocks.stage matches BlocksStage::Finished(r) ==> r is Ok
            &&& replies.len() > 61 * count ==> (s.blocks.action() matches Action::Done(r) && r
                is Ok)
        }),
{
    lemma_reading_track(inner, capacity, timeout, start, count, hw, replies);
}

/// Every reply to a row of blocks that is written was the one that is hoped for.
pub open spec fn writing_hoped_for(start: WritingRow, replies: Seq<Reply>) -> bool
    decreases replies.len(),
{
    replies.len() > 0 ==> {
        let before = replies.drop_last();
        &&& writing_hoped_for(start, before)
        &&& hoped_for(
            start.blocks.inner.version,
            start.replay(before).blocks.action(),
            replies.last(),
        )
    }
}

/// What is left of a row of blocks that is written, where all went well so far.
spec fn writing_left(b: WriteBlocksState, inner: SdmmcInner, count: u32, left: int) -> bool {
    &&& b.inner == inner
    &&& b.count == count
    &&& match b.stage {
        BlocksStage::Block(i, w) => {
            &&& i < count
            &&& w.inner == inner
            &&& write_on_track(w)
            &&& !(w.stage is Finished)
            &&& 0 <= write_cost(w)
            &&& 122 * (count - i - 1) + write_cost(w) <= left
        },
        BlocksStage::Finished(r) => r is Ok,
    }
}

proof fn lemma_writing_left_at(b: WriteBlocksState, inner: SdmmcInner, count: u32, index: int)
    requires
        b.inner == inner,
        b.count == count,
        0 <= index <= count,
        b == b.at_block(index),
    ensures
        writing_left(b, inner, count, 122 * (count - index)),
{
    let address = block_address(b.capacity, (b.start + index) as u32) as u32;
    lemma_write_start_on_track(inner, address, b.timeout);
}

proof fn lemma_writing_left_step(
    b: WriteBlocksState,
    card: CardModel,
    inner: SdmmcInner,
    count: u32,
    left: int,
    reply: Reply,
)
    requires
        writing_left(b, inner, count, left),
        hoped_for(inner.version, b.action(), reply),
    ensures
        writing_left(b.after(card, reply).0, inner, count, left - 1),
{
    match b.stage {
        BlocksStage::Block(i, w) => {
            lemma_write_costs(w, card, reply);
            let n = b.after(card, reply).0;
            if w.after(card, reply).0.action() is Done {
                assert(n == n.at_block(i + 1));
                lemma_writing_left_at(n, inner, count, i + 1);
            }
        },
        BlocksStage::Finished(_) => {},
    }
}

proof fn lemma_writing_track(
    inner: SdmmcInner,
    card: CardModel,
    timeout: u32,
    start: u32,
    count: u32,
    hw: Hw,
    replies: Seq<Reply>,
)
    requires
        writing_hoped_for(
            WritingRow {
                blocks: WriteBlocksState::begin(inner, card.card_type, timeout, start, count),
                card,
                hw,
                done: 0,
            },
            replies,
        ),
    ensures
        ({
            let blocks = WriteBlocksState::begin(inner, card.card_type, timeout, start, count);
            let s = WritingRow { blocks, card, hw, done: 0 }.replay(replies);
            writing_left(s.blocks, inner, count, 122 * count - replies.len())
        }),
    decreases replies.len(),
{
    let blocks = WriteBlocksState::begin(inner, card.card_type, timeout, start, count);
    let row = WritingRow { blocks, card, hw, done: 0 };
    if replies.len() == 0 {
        lemma_writing_left_at(blocks, inner, count, 0);
    } else {
        let before = replies.drop_last();
        lemma_writing_track(inner, card, timeout, start, count, hw, before);
        lemma_writing_left_step(
            row.replay(before).blocks,
            row.replay(before).card,
            inner,
            count,
            122 * count - before.len(),
            replies.last(),
        );
    }
}

/// Writing `count` blocks to a card that does its part does not fail, and is over, well, after 122
/// replies for each block at the latest.
pub proof fn law_writing_row_ends_well(
    inner: SdmmcInner,
    card: CardModel,
    timeout: u32,
    start: u32,
    count: u32,
    hw: Hw,
    replies: Seq<Reply>,
)
    requires
        writing_hoped_for(
            WritingRow {
                blocks: WriteBlocksState::begin(inner, card.card_type, timeout, start, count),
                card,
                hw,
                done: 0,
            },
            replies,
        ),
    ensures
        ({
            let blocks = WriteBlocksState::begin(inner, card.card_type, timeout, start, count);
            let s = WritingRow { blocks, card, hw, done: 0 }.replay(replies);
            &&& s.blocks.stage matches BlocksStage::Finished(r) ==> r is Ok
            &&& replies.len() > 122 * count ==> (s.blocks.action() matches Action::Done(r) && r
                is Ok)
        }),
{
    lemma_writing_track(inner, card, timeout, start, count, hw, replies);
}

/// The reply of a card that does its part while it is brought into service: the one that is hoped
/// for, the pattern echoed, the power up done, one of the five schemes selected, and the transfer
/// state after the switch.
pub open spec fn does_its_part(s: Service, reply: Reply) -> bool {
    &&& hoped_for(s.init.inner.version, s.init.action(), reply)
    &&& match (s.init.stage, reply) {
        (Stage::Probe, Reply::Response(r)) => r == 0x1AA,
        (Stage::PowerUp, Reply::Response(r)) => r >= 0x8000_0000,
        (Stage::Switch, Reply::Words(w)) => w@[4] % 16 <= 4,
        (Stage::HighSpeed, Reply::Response(r)) => r / 0x200 % 0x10 == 4,
        _ => true,
    }
}

/// Every reply was that of a card that does its part.
pub open spec fn all_parts_done(start: Service, replies: Seq<Reply>) -> bool
    decreases replies.len(),
{
    replies.len() > 0 ==> {
        let before = replies.drop_last();
        &&& all_parts_done(start, before)
        &&& does_its_part(start.replay(before), replies.last())
    }
}

/// How far the procedure has come.
spec fn place(stage: Stage) -> int {
    match stage {
        Stage::Probe => 0,
        Stage::AppCommand => 1,
        Stage::OperatingConditions => 2,
        Stage::PowerUp => 3,
        Stage::Identify => 4,
        Stage::Describe => 5,
        Stage::Select => 6,
        Stage::Configure => 7,
        Stage::Width => 8,
        Stage::Clock => 9,
        Stage::Status => 10,
        Stage::Switch => 11,
        Stage::HighSpeed => 12,
        Stage::FinalStatus => 13,
        Stage::Finished(_) => 14,
    }
}

/// How much of the work of a stage is left to do.
spec fn job_cost(job: JobState) -> int {
    match job {
        JobState::Script(r) => script_cost(r),
        JobState::Moving(t) => transfer_cost(t),
    }
}

/// How much of the procedure is left to do.
spec fn service_cost(s: InitState) -> int {
    match s.stage {
        Stage::Finished(_) => 0,
        _ => 100 * (14 - place(s.stage)) + job_cost(s.job),
    }
}

/// The procedure has met with no fault.
spec fn service_on_track(s: InitState) -> bool {
    match s.stage {
        Stage::Finished(r) => r is Ok,
        _ => match s.job {
            JobState::Script(r) => r.failed is None,
            JobState::Moving(t) => on_track(t),
        },
    }
}

/// Work that has just begun is on track, and there is not too much of it.
proof fn lemma_fresh_cost(s: InitState)
    requires
        fresh(s),
        !(s.stage is Finished),
    ensures
        service_on_track(s),
        0 < job_cost(s.job) <= 60,
{
    match s.job {
        JobState::Script(_) => {
            lemma_scripts_tame(s);
            lemma_script_lengths(s);
        },
        JobState::Moving(_) => lemma_transfer_cost_start(s.inner, plan_of(s)),
    }
}

proof fn lemma_script_lengths(s: InitState)
    ensures
        script_of(s).len() <= 15,
{
}

/// What the scripts that end with a response have read before it.
proof fn lemma_last_response(s: InitState, r: RunState, reply: Reply)
    requires
        at_work(s),
        s.stage is Probe || s.stage is PowerUp || s.stage is HighSpeed,
        s.job == JobState::Script(r),
        hoped_for(s.inner.version, r.action(), reply),
        !r.after(reply).running(),
    ensures
        reply matches Reply::Response(x) && r.after(reply).response(0) == x,
{
    let steps = script_of(s);
    lemma_scripts_tame(s);
    lemma_run_moves(r, reply);
    match s.stage {
        Stage::Probe => {
            s.inner.lemma_tame_probe();
            assert(steps[11] == Step::ReadResponse(0));
            assert(reads(steps, 12) == reads(steps, 11) + 1);
        },
        Stage::PowerUp => {
            reveal_with_fuel(reads, 2);
        },
        _ => {
            s.inner.lemma_tame_high_speed(divisor(s, s.freq), s.card.rca);
            assert(steps[7] == Step::ReadResponse(0));
            assert(reads(steps, 8) == reads(steps, 7) + 1);
        },
    }
}

/// The clocks that the procedure asks for can be had.
pub open spec fn clocks_in_reach(version: Version, ker: u32, freq: u32) -> bool {
    let first = if freq <= 25_000_000 {
        freq as int
    } else {
        25_000_000
    };
    !out_of_reach(version, ker as int, first) && !out_of_reach(version, ker as int, freq as int)
}

/// A stage whose work went well, with a card that did its part, is followed by a later one.
proof fn lemma_passed_on_track(s: InitState, link: LinkModel)
    requires
        !(s.stage is Finished),
        s.freq > 0,
        clocks_in_reach(s.inner.version, s.ker_ck.0, s.freq),
        s.stage is Probe ==> s.job.response(0) == 0x1AA,
        s.stage is PowerUp ==> s.job.response(0) >= 0x8000_0000,
        s.stage is HighSpeed ==> s.job.response(0) / 0x200 % 0x10 == 4,
        s.stage is Switch ==> s.job.words()[4] % 16 <= 4,
    ensures
        ({
            let n = s.passed(link).0;
            &&& place(n.stage) > place(s.stage)
            &&& n.stage matches Stage::Finished(r) ==> r is Ok
        }),
{
    law_clk_div(s.inner.version, s.ker_ck, s.freq);
    law_clk_div(s.inner.version, s.ker_ck, first_clock(s.freq));
    let word = s.job.words()[4];
    assert(word % 0x100 % 0x10 == word % 0x10) by (bit_vector);
}

proof fn lemma_service_costs(s: Service, reply: Reply)
    requires
        at_work(s.init),
        service_on_track(s.init),
        !(s.init.stage is Finished),
        s.init.freq > 0,
        clocks_in_reach(s.init.inner.version, s.init.ker_ck.0, s.init.freq),
        does_its_part(s, reply),
    ensures
        ({
            let n = s.after(reply).init;
            service_on_track(n) && 0 <= service_cost(n) < service_cost(s.init)
        }),
{
    let moved = InitState { job: s.init.job.after(reply), ..s.init };
    let n = s.after(reply).init;
    lemma_stage_step(s.init, s.link, reply);
    match s.init.job {
        JobState::Script(r) => {
            lemma_scripts_tame(s.init);
            lemma_script_costs(r, reply);
            if !r.after(reply).running() && (s.init.stage is Probe || s.init.stage is PowerUp
                || s.init.stage is HighSpeed) {
                lemma_last_response(s.init, r, reply);
            }
        },
        JobState::Moving(t) => lemma_transfer_costs(t, reply),
    }
    if moved.job.action() is Done {
        lemma_passed_on_track(moved, s.link);
        if !(n.stage is Finished) {
            lemma_fresh_cost(n);
        }
    }
}

proof fn lemma_service_track(start: Service, replies: Seq<Reply>)
    requires
        start.ready(),
        all_parts_done(start, replies),
        clocks_in_reach(start.init.inner.version, start.init.ker_ck.0, start.init.freq),
    ensures
        ({
            let s = start.replay(replies).init;
            &&& service_on_track(s)
            &&& s.stage is Finished || 0 <= service_cost(s) <= 1460 - replies.len()
        }),
    decreases replies.len(),
{
    if replies.len() == 0 {
        lemma_fresh_cost(start.init);
    } else {
        let before = replies.drop_last();
        lemma_service_track(start, before);
        lemma_service(start, before);
        lemma_service_track_step(start.replay(before), replies.last(), 1460 - before.len());
    }
}

proof fn lemma_service_track_step(s: Service, reply: Reply, left: int)
    requires
        at_work(s.init),
        service_on_track(s.init),
        s.init.freq > 0,
        clocks_in_reach(s.init.inner.version, s.init.ker_ck.0, s.init.freq),
        does_its_part(s, reply),
        s.init.stage is Finished || 0 <= service_cost(s.init) <= left,
    ensures
        ({
            let n = s.after(reply).init;
            &&& service_on_track(n)
            &&& n.stage is Finished || 0 <= service_cost(n) <= left - 1
        }),
{
    if !(s.init.stage is Finished) {
        lemma_service_costs(s, reply);
    }
}

/// A card that does its part is brought into service, where the clock can be had: the procedure
/// does not fail, and is over, well, after 1460 replies at the latest.
pub proof fn law_card_is_served(
    inner: SdmmcInner,
    freq: Hertz,
    bus_width: BusWidth,
    ker_ck: Hertz,
    timeout: u32,
    link: LinkModel,
    hw: Hw,
    replies: Seq<Reply>,
)
    requires
        can_begin(inner, freq, bus_width, ker_ck, link, hw),
        all_parts_done(
            Service::begin(inner, freq, bus_width, ker_ck, timeout, link, hw),
            replies,
        ),
        clocks_in_reach(inner.version, ker_ck.0, freq.0),
    ensures
        ({
            let start = Service::begin(inner, freq, bus_width, ker_ck, timeout, link, hw);
            let s = start.replay(replies);
            &&& s.init.stage matches Stage::Finished(r) ==> r is Ok
            &&& replies.len() > 1460 ==> (s.init.action() matches Action::Done(r) && r is Ok)
        }),
{
    let start = Service::begin(inner, freq, bus_width, ker_ck, timeout, link, hw);
    law_service_begins_as_asked(inner, freq, bus_width, ker_ck, timeout, link, hw);
    lemma_service_track(start, replies);
}

} // verus!
