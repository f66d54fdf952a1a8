//! What holds of reading and writing blocks, whatever the card answers.

use vstd::prelude::*;

use crate::blocks::{BlocksStage, ReadBlocksState, WriteBlocksState};
use crate::card::CardModel;
use crate::effect::{
    bus_error, fails_by_bus, lemma_abandon_transfer, lemma_fails_by_bus_step, lemma_replay_nothing,
    lemma_stays_open, lemma_transfer_settings, lemma_transfer_start, lemma_transfer_step,
    replay_run, same_settings, sets_to_rest, stays_open, transfer_inv, Hw,
};
use crate::registers::{Action, Reply};
use crate::script::RunState;
use crate::transfer::{
    block_address, read_block_plan, sd_status_plan, write_block_plan, TransferState,
};
use crate::types::Error;
use crate::write::{WriteStage, WriteState, STATUS_TRIES};

verus! {

/// A block being written, with all that surrounds it.
pub struct Writing {
    pub write: WriteState,
    pub card: CardModel,
    pub hw: Hw,
}

impl Writing {
    /// What a reply makes of it.
    pub open spec fn after(self, reply: Reply) -> Writing {
        let (write, card) = self.write.after(self.card, reply);
        Writing {
            write,
            card,
            hw: self.hw.dealt(self.write.inner, self.write.action(), reply),
        }
    }

    /// What a row of replies makes of it.
    pub open spec fn replay(self, replies: Seq<Reply>) -> Writing
        decreases replies.len(),
    {
        if replies.len() == 0 {
            self
        } else {
            self.replay(replies.drop_last()).after(replies.last())
        }
    }

    /// Interrupts may be let through after a row of replies: of the transfers that touched the data
    /// path the last went well, or none did and they were let through from the start.
    pub open spec fn left_open(self, replies: Seq<Reply>) -> bool
        decreases replies.len(),
    {
        if replies.len() == 0 {
            self.hw.interrupts
        } else {
            let w = self.replay(replies.drop_last()).write;
            let open = self.left_open(replies.drop_last());
            if w.stage is Finished {
                open
            } else {
                stays_open(open, w.transfer, replies.last())
            }
        }
    }

    /// The write is about to begin, on a peripheral that moves no data.
    pub open spec fn ready(self, address: u32) -> bool {
        &&& self.write == WriteState::start(self.write.inner, address, self.write.timeout)
        &&& self.hw.stopped()
    }
}

/// The same card but for its status.
pub open spec fn same_card(a: CardModel, b: CardModel) -> bool {
    a == (CardModel { status: a.status, ..b })
}

/// What ties a write to the peripheral and to the card at every moment.
spec fn write_inv(s: Writing, before: CardModel) -> bool {
    &&& s.write.transfer.inner == s.write.inner
    &&& fails_by_bus(s.write.transfer)
    &&& same_card(s.card, before)
    &&& match s.write.stage {
        WriteStage::Finished(r) => s.hw.stopped() && (r is Err ==> s.card == before),
        WriteStage::Writing => {
            &&& transfer_inv(s.write.transfer, s.hw, true)
            &&& !(s.write.transfer.phase is Finished)
            &&& s.card == before
        },
        WriteStage::Asking(tries) => {
            &&& transfer_inv(s.write.transfer, s.hw, true)
            &&& !(s.write.transfer.phase is Finished)
            &&& s.card == before
            &&& 1 <= tries <= STATUS_TRIES
        },
    }
}

proof fn lemma_write_step(s: Writing, before: CardModel, reply: Reply)
    requires
        write_inv(s, before),
    ensures
        s.write.action() matches Action::Write(w) ==> s.hw.admits(w),
        write_inv(s.after(reply), before),
        s.after(reply).write.inner == s.write.inner,
{
    if !(s.write.stage is Finished) {
        lemma_transfer_step(s.write.transfer, s.hw, true, reply);
        lemma_fails_by_bus_step(s.write.transfer, reply);
        let next = s.after(reply);
        if s.write.transfer.after(reply).action() is Done && !(next.write.stage is Finished) {
            let plan = sd_status_plan(s.card.rca, s.write.timeout);
            lemma_transfer_start(s.write.inner, plan, next.hw, true);
        }
    }
}

proof fn lemma_write_sound(start: Writing, address: u32, replies: Seq<Reply>)
    requires
        start.ready(address),
    ensures
        write_inv(start.replay(replies), start.card),
        start.replay(replies).write.inner == start.write.inner,
    decreases replies.len(),
{
    if replies.len() == 0 {
        let plan = write_block_plan(address, start.write.timeout);
        lemma_transfer_start(start.write.inner, plan, start.hw, true);
    } else {
        lemma_write_sound(start, address, replies.drop_last());
        lemma_write_step(start.replay(replies.drop_last()), start.card, replies.last());
    }
}

/// The transfer of a write that is not over is tied to the peripheral, and not over either.
pub proof fn lemma_write_tied(start: Writing, address: u32, replies: Seq<Reply>)
    requires
        start.ready(address),
    ensures
        ({
            let s = start.replay(replies);
            s.write.stage is Finished || transfer_inv(s.write.transfer, s.hw, true) && !(
            s.write.transfer.phase is Finished)
        }),
{
    lemma_write_sound(start, address, replies);
}

/// Interrupts are masked unless they may be let through, and in any case after a transfer that
/// touched the data path and failed.
spec fn write_masked(s: Writing, open: bool) -> bool {
    match s.write.stage {
        WriteStage::Finished(r) => {
            &&& s.hw.interrupts ==> open
            &&& r is Ok ==> s.write.transfer.ended()
            &&& r is Err && s.write.transfer.touched() ==> !s.hw.interrupts
        },
        _ => transfer_inv(s.write.transfer, s.hw, open),
    }
}

proof fn lemma_write_masked_step(s: Writing, before: CardModel, open: bool, reply: Reply)
    requires
        write_inv(s, before),
        write_masked(s, open),
        !(s.write.stage is Finished),
    ensures
        write_masked(s.after(reply), stays_open(open, s.write.transfer, reply)),
{
    let t = s.write.transfer;
    let next = s.after(reply);
    lemma_stays_open(open, t, s.hw, reply);
    lemma_transfer_step(t, s.hw, open, reply);
    if t.after(reply).action() is Done && !(next.write.stage is Finished) {
        let plan = sd_status_plan(s.card.rca, s.write.timeout);
        lemma_transfer_start(s.write.inner, plan, next.hw, stays_open(open, t, reply));
    }
}

proof fn lemma_write_masked(start: Writing, address: u32, replies: Seq<Reply>)
    requires
        start.ready(address),
    ensures
        write_masked(start.replay(replies), start.left_open(replies)),
    decreases replies.len(),
{
    if replies.len() == 0 {
        let plan = write_block_plan(address, start.write.timeout);
        lemma_transfer_start(start.write.inner, plan, start.hw, start.hw.interrupts);
    } else {
        let before = replies.drop_last();
        lemma_write_sound(start, address, before);
        lemma_write_masked(start, address, before);
        let s = start.replay(before);
        if !(s.write.stage is Finished) {
            lemma_write_masked_step(s, start.card, start.left_open(before), replies.last());
        }
    }
}

/// A write that is over has let go of the peripheral, however it went: nothing moves data. After a
/// failure no interrupt can come of it either if the transfer that failed had touched the data
/// path; nor, if it failed in the commands before that, unless the transfer before it went well and
/// its interrupts were not masked since.
pub proof fn law_write_lets_go(start: Writing, address: u32, replies: Seq<Reply>)
    requires
        start.ready(address),
    ensures
        ({
            let s = start.replay(replies);
            s.write.stage matches WriteStage::Finished(r) ==> {
                &&& s.hw.stopped()
                &&& r is Err && s.write.transfer.touched() ==> !s.hw.interrupts
                &&& s.hw.interrupts ==> start.left_open(replies)
            }
        }),
{
    lemma_write_sound(start, address, replies);
    lemma_write_masked(start, address, replies);
}

/// A reply to a write keeps the settings.
proof fn lemma_write_settings(s: Writing, before: CardModel, reply: Reply)
    requires
        write_inv(s, before),
    ensures
        same_settings(s.after(reply).hw, s.hw),
{
    if !(s.write.stage is Finished) {
        lemma_transfer_settings(s.write.transfer, s.hw, reply);
    }
}

/// A write leaves the power, the bus width and the divisor alone.
pub proof fn law_write_keeps_settings(start: Writing, address: u32, replies: Seq<Reply>)
    requires
        start.ready(address),
    ensures
        same_settings(start.replay(replies).hw, start.hw),
    decreases replies.len(),
{
    if replies.len() > 0 {
        let before = replies.drop_last();
        law_write_keeps_settings(start, address, before);
        lemma_write_sound(start, address, before);
        lemma_write_settings(start.replay(before), start.card, replies.last());
    }
}

/// In a write, no command is due to be sent before the command path was seen at rest, and the
/// data path is not due to be touched before both paths were.
pub proof fn law_write_is_careful(start: Writing, address: u32, replies: Seq<Reply>)
    requires
        start.ready(address),
    ensures
        ({
            let s = start.replay(replies);
            s.write.action() matches Action::Write(w) ==> s.hw.admits(w)
        }),
{
    lemma_write_sound(start, address, replies);
    lemma_write_step(start.replay(replies), start.card, Reply::Ack);
}

/// A write changes nothing on record but the card's status, and that only where it went well.
pub proof fn law_write_keeps_card(start: Writing, address: u32, replies: Seq<Reply>)
    requires
        start.ready(address),
    ensures
        ({
            let s = start.replay(replies);
            &&& same_card(s.card, start.card)
            &&& !(s.write.stage matches WriteStage::Finished(r) && r is Ok) ==> s.card
                == start.card
        }),
{
    lemma_write_sound(start, address, replies);
}

/// A write can be given up at any moment: once what it then asks for is done, nothing moves data,
/// and no interrupt can come of it if its transfer had touched the data path and the data had not
/// come to its end.
pub proof fn law_abandoned_write_lets_go(
    start: Writing,
    address: u32,
    replies: Seq<Reply>,
    more: Seq<Reply>,
)
    requires
        start.ready(address),
    ensures
        ({
            let s = start.replay(replies);
            let t = s.write.transfer;
            let (r, hw) = replay_run(
                RunState::start(s.write.inner, s.write.abandon_steps()),
                s.hw,
                more,
            );
            !r.running() ==> {
                &&& hw.stopped()
                &&& t.touched() && !t.ended() ==> !hw.interrupts
                &&& hw.interrupts ==> t.ended() || start.left_open(replies)
            }
        }),
{
    lemma_write_sound(start, address, replies);
    lemma_write_masked(start, address, replies);
    let s = start.replay(replies);
    match s.write.stage {
        WriteStage::Finished(_) => lemma_replay_nothing(s.write.inner, s.hw, more),
        _ => lemma_abandon_transfer(s.write.transfer, s.hw, start.left_open(replies), more),
    }
}

/// A write that is given up sets its peripheral to rest, or does nothing.
pub proof fn lemma_abandoned_write_rests(start: Writing, address: u32, replies: Seq<Reply>)
    requires
        start.ready(address),
    ensures
        ({
            let s = start.replay(replies);
            &&& s.write.inner == start.write.inner
            &&& sets_to_rest(start.write.inner, s.write.abandon_steps())
        }),
{
    lemma_write_sound(start, address, replies);
}

/// How many times the card was asked for its status and did not answer in time.
pub open spec fn tries_used(start: Writing, replies: Seq<Reply>) -> nat
    decreases replies.len(),
{
    if replies.len() == 0 {
        0
    } else {
        let used = tries_used(start, replies.drop_last());
        let w = start.replay(replies.drop_last()).write;
        if w.stage is Asking && w.transfer.after(replies.last()).action() == Action::Done(
            Err(Error::Timeout),
        ) {
            used + 1
        } else {
            used
        }
    }
}

/// What the stage of a write says of how often the card was asked in vain.
pub open spec fn counted(stage: WriteStage, used: nat) -> bool {
    &&& used <= STATUS_TRIES
    &&& stage is Writing ==> used == 0
    &&& stage matches WriteStage::Asking(tries) ==> tries > 0 && used + tries == STATUS_TRIES
    &&& stage == WriteStage::Finished(Err(Error::SoftwareTimeout)) <==> used == STATUS_TRIES
}

/// The count outlasts the end of a transfer.
proof fn lemma_counted_proceeded(
    w: WriteState,
    card: CardModel,
    used: nat,
    r: Result<(), Error>,
)
    requires
        counted(w.stage, used),
        !(w.stage is Finished),
        r matches Err(e) ==> bus_error(e),
    ensures
        counted(
            w.proceeded(card, r).0.stage,
            if w.stage is Asking && r == Err::<(), Error>(Error::Timeout) {
                used + 1
            } else {
                used
            },
        ),
{
}

/// A transfer that says it is done says how it ended.
proof fn lemma_done_by_bus(t: TransferState)
    requires
        fails_by_bus(t),
    ensures
        t.action() matches Action::Done(Err(e)) ==> bus_error(e),
{
}

/// The count outlasts a reply.
proof fn lemma_counted_step(w: WriteState, card: CardModel, used: nat, reply: Reply)
    requires
        counted(w.stage, used),
        fails_by_bus(w.transfer),
    ensures
        counted(
            w.after(card, reply).0.stage,
            if w.stage is Asking && w.transfer.after(reply).action() == Action::Done(
                Err(Error::Timeout),
            ) {
                used + 1
            } else {
                used
            },
        ),
{
    if !(w.stage is Finished) {
        lemma_fails_by_bus_step(w.transfer, reply);
        let moved = WriteState { transfer: w.transfer.after(reply), ..w };
        lemma_done_by_bus(moved.transfer);
        match moved.transfer.action() {
            Action::Done(r) => lemma_counted_proceeded(moved, card, used, r),
            _ => {},
        }
    }
}

/// After the block was moved, the card is asked for its status until it answers, but no more than
/// `STATUS_TRIES` times; a write gives up for that reason exactly when as many went unanswered.
pub proof fn law_write_tries(start: Writing, address: u32, replies: Seq<Reply>)
    requires
        start.ready(address),
    ensures
        counted(start.replay(replies).write.stage, tries_used(start, replies)),
    decreases replies.len(),
{
    if replies.len() > 0 {
        let before = replies.drop_last();
        law_write_tries(start, address, before);
        lemma_write_sound(start, address, before);
        let s = start.replay(before);
        lemma_counted_step(s.write, s.card, tries_used(start, before), replies.last());
    }
}

/// Blocks being read, with all that surrounds them.
pub struct ReadingRow {
    pub blocks: ReadBlocksState,
    pub hw: Hw,
    /// How many blocks were read well
    pub done: nat,
}

impl ReadingRow {
    /// What a reply makes of it.
    pub open spec fn after(self, reply: Reply) -> ReadingRow {
        let done = match self.blocks.stage {
            BlocksStage::Block(_, t) => match t.after(reply).action() {
                Action::Done(Ok(_)) => self.done + 1,
                _ => self.done,
            },
            BlocksStage::Finished(_) => self.done,
        };
        ReadingRow {
            blocks: self.blocks.after(reply),
            hw: self.hw.dealt(self.blocks.inner, self.blocks.action(), reply),
            done,
        }
    }

    /// What a row of replies makes of it.
    pub open spec fn replay(self, replies: Seq<Reply>) -> ReadingRow
        decreases replies.len(),
    {
        if replies.len() == 0 {
            self
        } else {
            self.replay(replies.drop_last()).after(replies.last())
        }
    }

    /// Interrupts may be let through after a row of replies: of the transfers that touched the data
    /// path the last went well, or none did and they were let through from the start.
    pub open spec fn left_open(self, replies: Seq<Reply>) -> bool
        decreases replies.len(),
    {
        if replies.len() == 0 {
            self.hw.interrupts
        } else {
            let open = self.left_open(replies.drop_last());
            match self.replay(replies.drop_last()).blocks.stage {
                BlocksStage::Block(_, t) => stays_open(open, t, replies.last()),
                BlocksStage::Finished(_) => open,
            }
        }
    }

    /// Reading is about to begin, on a peripheral that moves no data.
    pub open spec fn ready(self) -> bool {
        &&& self.blocks == ReadBlocksState::begin(
            self.blocks.inner,
            self.blocks.capacity,
            self.blocks.timeout,
            self.blocks.start,
            self.blocks.count,
        )
        &&& self.hw.stopped()
        &&& self.done == 0
    }
}

/// What ties the blocks to each other and to the peripheral at every moment.
spec fn reading_inv(s: ReadingRow, start: ReadBlocksState) -> bool {
    let b = s.blocks;
    &&& b == (ReadBlocksState { stage: b.stage, ..start })
    &&& match b.stage {
        BlocksStage::Block(i, t) => {
            &&& i < b.count
            &&& s.done == i
            &&& t.inner == b.inner
            &&& t.plan == read_block_plan(
                block_address(b.capacity, (b.start + i) as u32) as u32,
                b.timeout,
            )
            &&& !(t.phase is Finished)
            &&& transfer_inv(t, s.hw, true)
        },
        BlocksStage::Finished(Ok(_)) => s.done == b.count && s.hw.stopped(),
        BlocksStage::Finished(Err(_)) => s.done < b.count && s.hw.stopped(),
    }
}

/// The block of a number is tied to a peripheral that moves no data.
proof fn lemma_reading_at_block(s: ReadingRow, start: ReadBlocksState, index: int)
    requires
        s.hw.stopped(),
        0 <= index <= start.count,
        s.done == index,
        s.blocks == start.at_block(index),
    ensures
        reading_inv(s, start),
{
    if index < start.count {
        let address = block_address(start.capacity, (start.start + index) as u32) as u32;
        lemma_transfer_start(
            start.inner,
            read_block_plan(address, start.timeout),
            s.hw,
            true,
        );
    }
}

proof fn lemma_reading_sound(start: ReadingRow, replies: Seq<Reply>)
    requires
        start.ready(),
    ensures
        reading_inv(start.replay(replies), start.blocks),
    decreases replies.len(),
{
    if replies.len() == 0 {
        lemma_reading_at_block(start, start.blocks, 0);
    } else {
        lemma_reading_sound(start, replies.drop_last());
        let s = start.replay(replies.drop_last());
        let next = s.after(replies.last());
        match s.blocks.stage {
            BlocksStage::Block(i, t) => {
                lemma_transfer_step(t, s.hw, true, replies.last());
                match t.after(replies.last()).action() {
                    Action::Done(Ok(_)) => {
                        assert(s.blocks.at_block(i + 1) == start.blocks.at_block(i + 1));
                        lemma_reading_at_block(next, start.blocks, i + 1);
                    },
                    _ => {},
                }
            },
            BlocksStage::Finished(_) => {},
        }
    }
}

/// Interrupts are masked unless they may be let through.
spec fn reading_masked(s: ReadingRow, open: bool) -> bool {
    match s.blocks.stage {
        BlocksStage::Block(_, t) => transfer_inv(t, s.hw, open),
        BlocksStage::Finished(_) => s.hw.interrupts ==> open,
    }
}

proof fn lemma_reading_masked_at_block(
    s: ReadingRow,
    blocks: ReadBlocksState,
    index: int,
    open: bool,
)
    requires
        s.hw.stopped(),
        s.hw.interrupts ==> open,
        s.blocks == blocks.at_block(index),
    ensures
        reading_masked(s, open),
{
    let address = block_address(blocks.capacity, (blocks.start + index) as u32) as u32;
    lemma_transfer_start(blocks.inner, read_block_plan(address, blocks.timeout), s.hw, open);
}

proof fn lemma_reading_masked(start: ReadingRow, replies: Seq<Reply>)
    requires
        start.ready(),
    ensures
        reading_masked(start.replay(replies), start.left_open(replies)),
    decreases replies.len(),
{
    if replies.len() == 0 {
        lemma_reading_masked_at_block(start, start.blocks, 0, start.hw.interrupts);
    } else {
        let before = replies.drop_last();
        lemma_reading_sound(start, before);
        lemma_reading_sound(start, replies);
        lemma_reading_masked(start, before);
        let s = start.replay(before);
        let open = start.left_open(before);
        let next = s.after(replies.last());
        match s.blocks.stage {
            BlocksStage::Block(i, t) => {
                lemma_stays_open(open, t, s.hw, replies.last());
                lemma_transfer_step(t, s.hw, open, replies.last());
                if t.after(replies.last()).action() matches Action::Done(r) && r is Ok {
                    lemma_reading_masked_at_block(next, s.blocks, i + 1, true);
                }
            },
            BlocksStage::Finished(_) => {},
        }
    }
}

/// Reading that is over, however it went, leaves interrupts masked unless of the transfers that
/// touched the data path the last went well, or none did and they were let through from the start.
/// So after a block whose transfer failed no interrupt can come of it.
pub proof fn law_reading_row_masks(start: ReadingRow, replies: Seq<Reply>)
    requires
        start.ready(),
    ensures
        ({
            let s = start.replay(replies);
            s.blocks.stage is Finished ==> s.hw.stopped() && (s.hw.interrupts ==> start.left_open(
                replies,
            ))
        }),
{
    lemma_reading_sound(start, replies);
    lemma_reading_masked(start, replies);
}

/// Blocks are read one after the other from the first one on: while block `i` of the row is
/// under way, the ones before it were read, and the transfer is for the block that lies `i` after
/// the first. Reading ends well when all were read, and at the first that fails; either way
/// nothing moves data then.
pub proof fn law_blocks_are_read_in_order(start: ReadingRow, replies: Seq<Reply>)
    requires
        start.ready(),
    ensures
        ({
            let s = start.replay(replies);
            let b = start.blocks;
            match s.blocks.stage {
                BlocksStage::Block(i, t) => {
                    &&& i < b.count
                    &&& s.done == i
                    &&& t.plan == read_block_plan(
                        block_address(b.capacity, (b.start + i) as u32) as u32,
                        b.timeout,
                    )
                },
                BlocksStage::Finished(Ok(_)) => s.done == b.count && s.hw.stopped(),
                BlocksStage::Finished(Err(_)) => s.done < b.count && s.hw.stopped(),
            }
        }),
{
    lemma_reading_sound(start, replies);
}

/// Reading blocks leaves the power, the bus width and the divisor alone.
pub proof fn law_reading_row_keeps_settings(start: ReadingRow, replies: Seq<Reply>)
    requires
        start.ready(),
    ensures
        same_settings(start.replay(replies).hw, start.hw),
    decreases replies.len(),
{
    if replies.len() > 0 {
        let before = replies.drop_last();
        law_reading_row_keeps_settings(start, before);
        lemma_reading_sound(start, before);
        let s = start.replay(before);
        match s.blocks.stage {
            BlocksStage::Block(_, t) => lemma_transfer_settings(t, s.hw, replies.last()),
            BlocksStage::Finished(_) => {},
        }
    }
}

/// While blocks are read, no command is due to be sent before the command path was seen at rest,
/// and the data path is not due to be touched before both paths were.
pub proof fn law_reading_row_is_careful(start: ReadingRow, replies: Seq<Reply>)
    requires
        start.ready(),
    ensures
        ({
            let s = start.replay(replies);
            s.blocks.action() matches Action::Write(w) ==> s.hw.admits(w)
        }),
{
    lemma_reading_sound(start, replies);
    let s = start.replay(replies);
    match s.blocks.stage {
        BlocksStage::Block(_, t) => lemma_transfer_step(t, s.hw, true, Reply::Ack),
        BlocksStage::Finished(_) => {},
    }
}

/// Reading can be given up at any moment: once what it then asks for is done, nothing moves data,
/// and no interrupt can come of it if the transfer under way had touched the data path and the data
/// had not come to its end.
pub proof fn law_abandoned_reading_row_lets_go(
    start: ReadingRow,
    replies: Seq<Reply>,
    more: Seq<Reply>,
)
    requires
        start.ready(),
    ensures
        ({
            let s = start.replay(replies);
            let (r, hw) = replay_run(
                RunState::start(s.blocks.inner, s.blocks.abandon_steps()),
                s.hw,
                more,
            );
            !r.running() ==> {
                &&& hw.stopped()
                &&& match s.blocks.stage {
                    BlocksStage::Block(_, t) => {
                        &&& t.touched() && !t.ended() ==> !hw.interrupts
                        &&& hw.interrupts ==> t.ended() || start.left_open(replies)
                    },
                    BlocksStage::Finished(_) => hw.interrupts ==> start.left_open(replies),
                }
            }
        }),
{
    lemma_reading_sound(start, replies);
    lemma_reading_masked(start, replies);
    let s = start.replay(replies);
    match s.blocks.stage {
        BlocksStage::Block(_, t) => lemma_abandon_transfer(
            t,
            s.hw,
            start.left_open(replies),
            more,
        ),
        BlocksStage::Finished(_) => lemma_replay_nothing(s.blocks.inner, s.hw, more),
    }
}

/// Reading that is given up sets its peripheral to rest, or does nothing.
pub proof fn lemma_abandoned_reading_row_rests(start: ReadingRow, replies: Seq<Reply>)
    requires
        start.ready(),
    ensures
        ({
            let s = start.replay(replies);
            &&& s.blocks.inner == start.blocks.inner
            &&& sets_to_rest(start.blocks.inner, s.blocks.abandon_steps())
        }),
{
    lemma_reading_sound(start, replies);
}

/// Blocks being written, with all that surrounds them.
pub struct WritingRow {
    pub blocks: WriteBlocksState,
    pub card: CardModel,
    pub hw: Hw,
    /// How many blocks were written well
    pub done: nat,
}

impl WritingRow {
    /// What a reply makes of it.
    pub open spec fn after(self, reply: Reply) -> WritingRow {
        let done = match self.blocks.stage {
            BlocksStage::Block(_, w) => match w.after(self.card, reply).0.action() {
                Action::Done(Ok(_)) => self.done + 1,
                _ => self.done,
            },
            BlocksStage::Finished(_) => self.done,
        };
        let (blocks, card) = self.blocks.after(self.card, reply);
        WritingRow {
            blocks,
            card,
            hw: self.hw.dealt(self.blocks.inner, self.blocks.action(), reply),
            done,
        }
    }

    /// What a row of replies makes of it.
    pub open spec fn replay(self, replies: Seq<Reply>) -> WritingRow
        decreases replies.len(),
    {
        if replies.len() == 0 {
            self
        } else {
            self.replay(replies.drop_last()).after(replies.last())
        }
    }

    /// Interrupts may be let through after a row of replies: of the transfers that touched the data
    /// path the last went well, or none did and they were let through from the start.
    pub open spec fn left_open(self, replies: Seq<Reply>) -> bool
        decreases replies.len(),
    {
        if replies.len() == 0 {
            self.hw.interrupts
        } else {
            let open = self.left_open(replies.drop_last());
            match self.replay(replies.drop_last()).blocks.stage {
                BlocksStage::Block(_, w) => stays_open(open, w.transfer, replies.last()),
                BlocksStage::Finished(_) => open,
            }
        }
    }

    /// Writing is about to begin, on a peripheral that moves no data.
    pub open spec fn ready(self) -> bool {
        &&& self.blocks == WriteBlocksState::begin(
            self.blocks.inner,
            self.blocks.capacity,
            self.blocks.timeout,
            self.blocks.start,
            self.blocks.count,
        )
        &&& self.hw.stopped()
        &&& self.done == 0
    }
}

/// The block that a write moves lies at this address.
pub open spec fn writes_at(w: WriteState, address: u32) -> bool {
    w.stage is Writing ==> w.transfer.plan == write_block_plan(
        address,
        w.timeout,
    )
}

/// What ties the blocks to each other and to the peripheral at every moment.
spec fn writing_inv(s: WritingRow, start: WritingRow) -> bool {
    let b = s.blocks;
    &&& b == (WriteBlocksState { stage: b.stage, ..start.blocks })
    &&& same_card(s.card, start.card)
    &&& match b.stage {
        BlocksStage::Block(i, w) => {
            &&& i < b.count
            &&& s.done == i
            &&& w.inner == b.inner
            &&& w.timeout == b.timeout
            &&& writes_at(w, block_address(b.capacity, (b.start + i) as u32) as u32)
            &&& !(w.stage is Finished)
            &&& write_inv(Writing { write: w, card: s.card, hw: s.hw }, s.card)
        },
        BlocksStage::Finished(Ok(_)) => s.done == b.count && s.hw.stopped(),
        BlocksStage::Finished(Err(_)) => s.done < b.count && s.hw.stopped(),
    }
}

/// The block of a number is tied to a peripheral that moves no data.
proof fn lemma_writing_at_block(s: WritingRow, start: WritingRow, index: int)
    requires
        s.hw.stopped(),
        0 <= index <= start.blocks.count,
        s.done == index,
        s.blocks == start.blocks.at_block(index),
        same_card(s.card, start.card),
    ensures
        writing_inv(s, start),
{
    let b = start.blocks;
    if index < b.count {
        let address = block_address(b.capacity, (b.start + index) as u32) as u32;
        lemma_transfer_start(
            b.inner,
            write_block_plan(address, b.timeout),
            s.hw,
            true,
        );
    }
}

proof fn lemma_writing_sound(start: WritingRow, replies: Seq<Reply>)
    requires
        start.ready(),
    ensures
        writing_inv(start.replay(replies), start),
    decreases replies.len(),
{
    if replies.len() == 0 {
        lemma_writing_at_block(start, start, 0);
    } else {
        lemma_writing_sound(start, replies.drop_last());
        let s = start.replay(replies.drop_last());
        let reply = replies.last();
        let next = s.after(reply);
        match s.blocks.stage {
            BlocksStage::Block(i, w) => {
                let one = Writing { write: w, card: s.card, hw: s.hw };
                lemma_write_step(one, s.card, reply);
                assert(one.after(reply).card == next.card);
                match w.after(s.card, reply).0.action() {
                    Action::Done(Ok(_)) => {
                        lemma_done_is_finished(one.after(reply), s.card);
                        assert(s.blocks.at_block(i + 1) == start.blocks.at_block(i + 1));
                        lemma_writing_at_block(next, start, i + 1);
                    },
                    Action::Done(Err(_)) => lemma_done_is_finished(one.after(reply), s.card),
                    _ => {
                        lemma_write_keeps_plan(one, reply);
                    },
                }
            },
            BlocksStage::Finished(_) => {},
        }
    }
}

/// A write that says it is done is over.
proof fn lemma_done_is_finished(s: Writing, before: CardModel)
    requires
        write_inv(s, before),
        s.write.action() is Done,
    ensures
        s.write.stage is Finished,
{
    if !(s.write.stage is Finished) {
        assert(s.write.transfer.action() is Done);
    }
}

/// While a block is moved, where it goes does not change.
proof fn lemma_write_keeps_plan(s: Writing, reply: Reply)
    ensures
        ({
            let n = s.after(reply).write;
            &&& n.timeout == s.write.timeout
            &&& n.inner == s.write.inner
            &&& n.stage is Writing ==> s.write.stage is Writing && n.transfer.plan
                == s.write.transfer.plan
        }),
{
}

/// Interrupts are masked unless they may be let through.
spec fn writing_masked(s: WritingRow, open: bool) -> bool {
    match s.blocks.stage {
        BlocksStage::Block(_, w) => write_masked(
            Writing { write: w, card: s.card, hw: s.hw },
            open,
        ),
        BlocksStage::Finished(_) => s.hw.interrupts ==> open,
    }
}

proof fn lemma_writing_masked_at_block(
    s: WritingRow,
    blocks: WriteBlocksState,
    index: int,
    open: bool,
)
    requires
        s.hw.stopped(),
        s.hw.interrupts ==> open,
        s.blocks == blocks.at_block(index),
    ensures
        writing_masked(s, open),
{
    let address = block_address(blocks.capacity, (blocks.start + index) as u32) as u32;
    lemma_transfer_start(blocks.inner, write_block_plan(address, blocks.timeout), s.hw, open);
}

proof fn lemma_writing_masked_step(s: WritingRow, start: WritingRow, open: bool, reply: Reply)
    requires
        writing_inv(s, start),
        writing_masked(s, open),
    ensures
        ({
            let next = s.after(reply);
            match s.blocks.stage {
                BlocksStage::Block(_, w) => writing_masked(
                    next,
                    stays_open(open, w.transfer, reply),
                ),
                BlocksStage::Finished(_) => writing_masked(next, open),
            }
        }),
{
    match s.blocks.stage {
        BlocksStage::Block(i, w) => {
            let one = Writing { write: w, card: s.card, hw: s.hw };
            let after = stays_open(open, w.transfer, reply);
            lemma_write_step(one, s.card, reply);
            lemma_write_masked_step(one, s.card, open, reply);
            if w.after(s.card, reply).0.action() is Done {
                lemma_done_is_finished(one.after(reply), s.card);
                lemma_writing_masked_at_done(s, i as int, after, reply);
            }
        },
        BlocksStage::Finished(_) => {},
    }
}

/// Where a write in a row is over, the next begins or the row is over.
proof fn lemma_writing_masked_at_done(s: WritingRow, index: int, open: bool, reply: Reply)
    requires
        s.blocks.stage matches BlocksStage::Block(i, w) && i == index && w.after(
            s.card,
            reply,
        ).0.action() is Done,
        s.after(reply).hw.stopped(),
        s.after(reply).hw.interrupts ==> open,
    ensures
        writing_masked(s.after(reply), open),
{
    let next = s.after(reply);
    if next.blocks.stage is Block {
        lemma_writing_masked_at_block(next, s.blocks, index + 1, open);
    }
}

proof fn lemma_writing_masked(start: WritingRow, replies: Seq<Reply>)
    requires
        start.ready(),
    ensures
        writing_masked(start.replay(replies), start.left_open(replies)),
    decreases replies.len(),
{
    if replies.len() == 0 {
        lemma_writing_masked_at_block(start, start.blocks, 0, start.hw.interrupts);
    } else {
        let before = replies.drop_last();
        lemma_writing_sound(start, before);
        lemma_writing_masked(start, before);
        lemma_writing_masked_step(
            start.replay(before),
            start,
            start.left_open(before),
            replies.last(),
        );
    }
}

/// Writing that is over, however it went, leaves interrupts masked unless of the transfers that
/// touched the data path the last went well, or none did and they were let through from the start.
/// So after a block whose transfer failed no interrupt can come of it.
pub proof fn law_writing_row_masks(start: WritingRow, replies: Seq<Reply>)
    requires
        start.ready(),
    ensures
        ({
            let s = start.replay(replies);
            s.blocks.stage is Finished ==> s.hw.stopped() && (s.hw.interrupts ==> start.left_open(
                replies,
            ))
        }),
{
    lemma_writing_sound(start, replies);
    lemma_writing_masked(start, replies);
}

/// Blocks are written one after the other from the first one on: while block `i` of the row is
/// under way, the ones before it were written, and it goes to where the block lies that is `i`
/// after the first. Writing ends well when all were written, and at the first that fails; either
/// way nothing moves data then, and of the card on record only the status has changed.
pub proof fn law_blocks_are_written_in_order(start: WritingRow, replies: Seq<Reply>)
    requires
        start.ready(),
    ensures
        ({
            let s = start.replay(replies);
            let b = start.blocks;
            &&& same_card(s.card, start.card)
            &&& match s.blocks.stage {
                BlocksStage::Block(i, w) => {
                    &&& i < b.count
                    &&& s.done == i
                    &&& w.timeout == b.timeout
                    &&& writes_at(w, block_address(b.capacity, (b.start + i) as u32) as u32)
                },
                BlocksStage::Finished(Ok(_)) => s.done == b.count && s.hw.stopped(),
                BlocksStage::Finished(Err(_)) => s.done < b.count && s.hw.stopped(),
            }
        }),
{
    lemma_writing_sound(start, replies);
}

/// Writing blocks leaves the power, the bus width and the divisor alone.
pub proof fn law_writing_row_keeps_settings(start: WritingRow, replies: Seq<Reply>)
    requires
        start.ready(),
    ensures
        same_settings(start.replay(replies).hw, start.hw),
    decreases replies.len(),
{
    if replies.len() > 0 {
        let before = replies.drop_last();
        law_writing_row_keeps_settings(start, before);
        lemma_writing_sound(start, before);
        let s = start.replay(before);
        match s.blocks.stage {
            BlocksStage::Block(_, w) => lemma_write_settings(
                Writing { write: w, card: s.card, hw: s.hw },
                s.card,
                replies.last(),
            ),
            BlocksStage::Finished(_) => {},
        }
    }
}

/// While blocks are written, no command is due to be sent before the command path was seen at
/// rest, and the data path is not due to be touched before both paths were.
pub proof fn law_writing_row_is_careful(start: WritingRow, replies: Seq<Reply>)
    requires
        start.ready(),
    ensures
        ({
            let s = start.replay(replies);
            s.blocks.action() matches Action::Write(w) ==> s.hw.admits(w)
        }),
{
    lemma_writing_sound(start, replies);
    let s = start.replay(replies);
    match s.blocks.stage {
        BlocksStage::Block(_, w) => lemma_write_step(
            Writing { write: w, card: s.card, hw: s.hw },
            s.card,
            Reply::Ack,
        ),
        BlocksStage::Finished(_) => {},
    }
}

/// Writing can be given up at any moment: once what it then asks for is done, nothing moves data,
/// and no interrupt can come of it if the transfer under way had touched the data path and the data
/// had not come to its end.
pub proof fn law_abandoned_writing_row_lets_go(
    start: WritingRow,
    replies: Seq<Reply>,
    more: Seq<Reply>,
)
    requires
        start.ready(),
    ensures
        ({
            let s = start.replay(replies);
            let (r, hw) = replay_run(
                RunState::start(s.blocks.inner, s.blocks.abandon_steps()),
                s.hw,
                more,
            );
            !r.running() ==> {
                &&& hw.stopped()
                &&& match s.blocks.stage {
                    BlocksStage::Block(_, w) => {
                        let t = w.transfer;
                        &&& t.touched() && !t.ended() ==> !hw.interrupts
                        &&& hw.interrupts ==> t.ended() || start.left_open(replies)
                    },
                    BlocksStage::Finished(_) => hw.interrupts ==> start.left_open(replies),
                }
            }
        }),
{
    lemma_writing_sound(start, replies);
    lemma_writing_masked(start, replies);
    let s = start.replay(replies);
    match s.blocks.stage {
        BlocksStage::Block(_, w) => lemma_abandon_transfer(
            w.transfer,
            s.hw,
            start.left_open(replies),
            more,
        ),
        BlocksStage::Finished(_) => lemma_replay_nothing(s.blocks.inner, s.hw, more),
    }
}

/// Writing that is given up sets its peripheral to rest, or does nothing.
pub proof fn lemma_abandoned_writing_row_rests(start: WritingRow, replies: Seq<Reply>)
    requires
        start.ready(),
    ensures
        ({
            let s = start.replay(replies);
            &&& s.blocks.inner == start.blocks.inner
            &&& sets_to_rest(start.blocks.inner, s.blocks.abandon_steps())
        }),
{
    lemma_writing_sound(start, replies);
}

} // verus!
