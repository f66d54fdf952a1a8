//! What holds of writing a block and of blocks in a row, in terms of what was asked for.

use vstd::prelude::*;

use crate::blocks::{addressable, BlocksStage, ReadBlocksState, WriteBlocksState};
use crate::card::CardModel;
use crate::data_laws::{
    agrees, in_order, lemma_sent_by, lemma_transfer_goes, lemma_transfer_goes_start,
    lemma_transfer_goes_step, names_block, one_fault_more, saw_good_end, sent_by, transfer_goes,
};
use crate::effect::{replay_transfer, Hw};
use crate::init::as_numbers;
use crate::inner::SdmmcInner;
use crate::registers::{Action, RegWrite, Reply};
use crate::script::Step;
use crate::sent::{
    argument_at, lemma_transfer_sent_start, lemma_transfer_sent_step, plan_commands, transfer_sent,
};
use crate::transfer::{
    block_address, read_block_plan, sd_status_plan, write_block_plan, Plan, TransferState,
};
use crate::types::{CardCapacity, Error};
use crate::write::{WriteStage, WriteState};
use crate::write_laws::{ReadingRow, Writing, WritingRow};

verus! {

/// Every block of a row can be named to a card of this capacity.
pub open spec fn row_nameable(capacity: CardCapacity, start: u32, count: u32) -> bool {
    &&& start + count <= 0xFFFF_FFFF
    &&& capacity == CardCapacity::SDSC && count > 0 ==> (start + count - 1) * 512 <= 0xFFFF_FFFF
}

/// Every row whose blocks can all be named can be asked for.
pub proof fn law_row_is_addressable(capacity: CardCapacity, start: u32, count: u32)
    ensures
        row_nameable(capacity, start, count) <==> addressable(capacity, start, count),
{
}

/// The commands by which a row of blocks is read: for each block CMD16 for 512 bytes, and CMD17
/// with the address of the block.
pub open spec fn reading_commands(capacity: CardCapacity, start: int, count: nat) -> Seq<(u8, u32)>
    decreases count,
{
    if count == 0 {
        Seq::empty()
    } else {
        let block = start + count - 1;
        let argument = if capacity == CardCapacity::SDSC {
            block * 512
        } else {
            block
        };
        reading_commands(capacity, start, (count - 1) as nat) + seq![
            (16u8, 512u32),
            (17u8, argument as u32),
        ]
    }
}

/// What ties a row of blocks that is read to what was asked for.
spec fn reading_goes(
    s: ReadingRow,
    inner: SdmmcInner,
    capacity: CardCapacity,
    timeout: u32,
    start: u32,
    count: u32,
    hw: Hw,
) -> bool {
    let b = s.blocks;
    &&& b.inner == inner
    &&& b.capacity == capacity
    &&& b.timeout == timeout
    &&& b.start == start
    &&& b.count == count
    &&& match b.stage {
        BlocksStage::Block(i, t) => {
            &&& i < count
            &&& s.done == i
            &&& t.inner == inner
            &&& t.plan == read_block_plan(
                block_address(capacity, (start + i) as u32) as u32,
                timeout,
            )
            &&& transfer_goes(t, s.hw, hw.faults)
            &&& transfer_sent(
                t,
                sent_by(s.hw),
                hw.commands + reading_commands(capacity, start as int, i as nat),
            )
        },
        BlocksStage::Finished(Ok(_)) => {
            &&& s.done == count
            &&& s.hw.faults == hw.faults
            &&& s.hw.commands == hw.commands + reading_commands(
                capacity,
                start as int,
                count as nat,
            )
        },
        BlocksStage::Finished(Err(e)) => {
            &&& s.done < count
            &&& one_fault_more(s.hw.faults, hw.faults, e)
        },
    }
}

proof fn lemma_reading_goes_at_block(
    s: ReadingRow,
    inner: SdmmcInner,
    capacity: CardCapacity,
    timeout: u32,
    start: u32,
    count: u32,
    hw: Hw,
    index: int,
)
    requires
        addressable(capacity, start, count),
        0 <= index <= count,
        s.done == index,
        s.hw.faults == hw.faults,
        s.hw.commands == hw.commands + reading_commands(capacity, start as int, index as nat),
        s.blocks.inner == inner,
        s.blocks.capacity == capacity,
        s.blocks.timeout == timeout,
        s.blocks.start == start,
        s.blocks.count == count,
        s.blocks == s.blocks.at_block(index),
    ensures
        reading_goes(s, inner, capacity, timeout, start, count, hw),
{
    if index < count {
        let plan = read_block_plan(
            block_address(capacity, (start + index) as u32) as u32,
            timeout,
        );
        lemma_transfer_goes_start(inner, plan, s.hw);
        lemma_transfer_sent_start(inner, plan, sent_by(s.hw));
    }
}

proof fn lemma_reading_goes_step(
    s: ReadingRow,
    inner: SdmmcInner,
    capacity: CardCapacity,
    timeout: u32,
    start: u32,
    count: u32,
    hw: Hw,
    reply: Reply,
)
    requires
        addressable(capacity, start, count),
        reading_goes(s, inner, capacity, timeout, start, count, hw),
    ensures
        reading_goes(s.after(reply), inner, capacity, timeout, start, count, hw),
{
    match s.blocks.stage {
        BlocksStage::Block(i, t) => {
            let row = reading_commands(capacity, start as int, i as nat);
            let more = reading_commands(capacity, start as int, (i + 1) as nat);
            let n = t.after(reply);
            let next = s.after(reply);
            lemma_transfer_goes_step(t, s.hw, hw.faults, reply);
            lemma_transfer_goes(n, next.hw, hw.faults);
            lemma_transfer_sent_step(t, sent_by(s.hw), hw.commands + row, reply);
            lemma_sent_by(s.hw, inner, t.action(), reply);
            match n.action() {
                Action::Done(Ok(_)) => {
                    assert(block_address(capacity, (start + i) as u32) <= u32::MAX);
                    assert(hw.commands + row + plan_commands(t.plan) =~= hw.commands + more);
                    assert(next.blocks == next.blocks.at_block(i + 1));
                    lemma_reading_goes_at_block(
                        next,
                        inner,
                        capacity,
                        timeout,
                        start,
                        count,
                        hw,
                        i + 1,
                    );
                },
                _ => {},
            }
        },
        BlocksStage::Finished(_) => {},
    }
}

proof fn lemma_reading_goes(
    inner: SdmmcInner,
    capacity: CardCapacity,
    timeout: u32,
    start: u32,
    count: u32,
    hw: Hw,
    replies: Seq<Reply>,
)
    requires
        addressable(capacity, start, count),
    ensures
        ({
            let row = ReadingRow {
                blocks: ReadBlocksState::begin(inner, capacity, timeout, start, count),
                hw,
                done: 0,
            };
            reading_goes(row.replay(replies), inner, capacity, timeout, start, count, hw)
        }),
    decreases replies.len(),
{
    let blocks = ReadBlocksState::begin(inner, capacity, timeout, start, count);
    let row = ReadingRow { blocks, hw, done: 0 };
    if replies.len() == 0 {
        assert(hw.commands + reading_commands(capacity, start as int, 0) =~= hw.commands);
        lemma_reading_goes_at_block(row, inner, capacity, timeout, start, count, hw, 0);
    } else {
        lemma_reading_goes(inner, capacity, timeout, start, count, hw, replies.drop_last());
        lemma_reading_goes_step(
            row.replay(replies.drop_last()),
            inner,
            capacity,
            timeout,
            start,
            count,
            hw,
            replies.last(),
        );
    }
}

/// Reading `count` blocks from block `start` on: at every moment what is due is in order, and the
/// CMD17 that is due while `done` blocks were read names the block `done` after the first. Where it
/// ends well, exactly `count` blocks were read, by a CMD17 for each of the blocks asked for, in
/// order, and nothing was seen to go wrong; it fails for the first thing that is seen to go wrong.
pub proof fn law_blocks_asked_for_are_read(
    inner: SdmmcInner,
    capacity: CardCapacity,
    timeout: u32,
    start: u32,
    count: u32,
    hw: Hw,
    replies: Seq<Reply>,
)
    requires
        addressable(capacity, start, count),
    ensures
        ({
            let row = ReadingRow {
                blocks: ReadBlocksState::begin(inner, capacity, timeout, start, count),
                hw,
                done: 0,
            };
            let s = row.replay(replies);
            &&& in_order(inner, timeout, s.hw, s.blocks.action())
            &&& s.blocks.action() matches Action::Write(RegWrite::Cmdr(c)) ==> (c.cmdindex == 17
                ==> s.done < count && names_block(capacity, start + s.done, s.hw.regs.argument))
            &&& s.blocks.stage matches BlocksStage::Block(i, _) ==> i == s.done && s.done < count
            &&& match s.blocks.action() {
                Action::Done(Ok(_)) => {
                    &&& s.done == count
                    &&& s.hw.commands == hw.commands + reading_commands(
                        capacity,
                        start as int,
                        count as nat,
                    )
                    &&& s.hw.faults == hw.faults
                },
                Action::Done(Err(e)) => s.done < count && one_fault_more(
                    s.hw.faults,
                    hw.faults,
                    e,
                ),
                _ => s.blocks.stage is Block,
            }
        }),
{
    let blocks = ReadBlocksState::begin(inner, capacity, timeout, start, count);
    let s = ReadingRow { blocks, hw, done: 0 }.replay(replies);
    lemma_reading_goes(inner, capacity, timeout, start, count, hw, replies);
    match s.blocks.stage {
        BlocksStage::Block(i, t) => {
            lemma_transfer_goes(t, s.hw, hw.faults);
            lemma_plan_pairs(inner, t.plan);
            assert(block_address(capacity, (start + i) as u32) <= u32::MAX);
        },
        BlocksStage::Finished(_) => {},
    }
}

/// Each command of a transfer follows at once on its argument.
proof fn lemma_plan_pairs(inner: SdmmcInner, plan: Plan)
    ensures
        forall|i: int|
            0 <= i < inner.prelude_steps(plan).len() ==> (
            #[trigger] inner.prelude_steps(plan)[i] matches Step::Write(RegWrite::Cmdr(c)) ==> {
                let a = argument_at(inner.prelude_steps(plan), i as nat);
                ||| a is Some && a == plan.block_length && c.cmdindex == 16
                ||| a is Some && a == plan.app && c.cmdindex == 55
            }),
        forall|i: int|
            0 <= i < inner.armed_steps(plan).len() ==> (
            #[trigger] inner.armed_steps(plan)[i] matches Step::Write(RegWrite::Cmdr(c)) ==> {
                let a = argument_at(inner.armed_steps(plan), i as nat);
                c.cmdindex == plan.command.cmd && a == Some(plan.command.arg)
            }),
{
}

/// A row that is begun is the one that was asked for: that card's capacity, that first block, that
/// many blocks and that timeout; it is on its first block, or over where no block was asked for.
pub proof fn law_rows_begin_as_asked(
    inner: SdmmcInner,
    capacity: CardCapacity,
    timeout: u32,
    start: u32,
    count: u32,
)
    ensures
        ({
            let r = ReadBlocksState::begin(inner, capacity, timeout, start, count);
            let w = WriteBlocksState::begin(inner, capacity, timeout, start, count);
            &&& r.inner == inner && r.capacity == capacity && r.timeout == timeout
            &&& r.start == start && r.count == count
            &&& w.inner == inner && w.capacity == capacity && w.timeout == timeout
            &&& w.start == start && w.count == count
            &&& match r.stage {
                BlocksStage::Block(i, _) => i == 0 && count > 0,
                BlocksStage::Finished(res) => res is Ok && count == 0,
            }
            &&& match w.stage {
                BlocksStage::Block(i, _) => i == 0 && count > 0,
                BlocksStage::Finished(res) => res is Ok && count == 0,
            }
        }),
{
}

/// A command of asking a card for its SD status, or the abort of an attempt at it.
pub open spec fn asks_status(command: (u8, u32), rca: u32) -> bool {
    ||| command == (16u8, 64u32)
    ||| command.0 == 55 && command.1 == rca % 0x1_0000 * 0x1_0000
    ||| command == (13u8, 0u32)
    ||| command.0 == 12
}

/// These commands, and then only such as ask a card for its SD status.
pub open spec fn then_asks(commands: Seq<(u8, u32)>, first: Seq<(u8, u32)>, rca: u32) -> bool {
    &&& first.len() <= commands.len()
    &&& commands.take(first.len() as int) == first
    &&& forall|i: int|
        first.len() <= i < commands.len() ==> asks_status(#[trigger] commands[i], rca)
}

/// So many faults after these, and all of them timeouts.
pub open spec fn then_timeouts(
    faults: Seq<(u8, u32, Error)>,
    first: Seq<(u8, u32, Error)>,
    n: int,
) -> bool {
    &&& n >= 0
    &&& faults.len() == first.len() + n
    &&& faults.take(first.len() as int) == first
    &&& forall|i: int| first.len() <= i < faults.len() ==> (#[trigger] faults[i]).2
        == Error::Timeout
}

/// The two commands by which the block at an address is written.
pub open spec fn writing_commands(address: u32) -> Seq<(u8, u32)> {
    seq![(16u8, 512u32), (24u8, address)]
}

/// The last three commands asked a card for its SD status.
pub open spec fn asked_last(commands: Seq<(u8, u32)>, rca: u32) -> bool {
    let n = commands.len() as int;
    &&& n >= 3
    &&& commands[n - 3] == (16u8, 64u32)
    &&& commands[n - 2].0 == 55
    &&& commands[n - 2].1 == rca % 0x1_0000 * 0x1_0000
    &&& commands[n - 1] == (13u8, 0u32)
}

/// The words of a register as a card means them: it sends the most significant byte first.
pub open spec fn means(numbers: Seq<u32>, words: Seq<u32>) -> bool {
    &&& numbers.len() == words.len()
    &&& forall|i: int|
        0 <= i < words.len() ==> #[trigger] numbers[i] == words[i] % 0x100 * 0x100_0000 + words[i]
            / 0x100 % 0x100 * 0x1_0000 + words[i] / 0x1_0000 % 0x100 * 0x100 + words[i]
            / 0x100_0000
}

/// What ties a write to what was asked for, where these commands and faults came before it.
pub closed spec fn write_goes(
    s: Writing,
    inner: SdmmcInner,
    address: u32,
    timeout: u32,
    card: CardModel,
    commands: Seq<(u8, u32)>,
    faults: Seq<(u8, u32, Error)>,
) -> bool {
    let w = s.write;
    let t = w.transfer;
    let first = commands + writing_commands(address);
    &&& w.inner == inner
    &&& w.timeout == timeout
    &&& match w.stage {
        WriteStage::Writing => {
            &&& s.card == card
            &&& t.inner == inner
            &&& t.plan == write_block_plan(address, timeout)
            &&& !(t.phase is Finished)
            &&& transfer_goes(t, s.hw, faults)
            &&& transfer_sent(t, sent_by(s.hw), commands)
        },
        WriteStage::Asking(tries) => {
            &&& s.card == card
            &&& t.inner == inner
            &&& t.plan == sd_status_plan(card.rca, timeout)
            &&& !(t.phase is Finished)
            &&& 1 <= tries <= 0x00FF_FFFF
            &&& then_asks(s.hw.commands, first, card.rca)
            &&& exists|f: Seq<(u8, u32, Error)>| #[trigger]
                transfer_goes(t, s.hw, f) && then_timeouts(f, faults, 0x00FF_FFFF - tries)
            &&& exists|c: Seq<(u8, u32)>| #[trigger] transfer_sent(t, sent_by(s.hw), c)
        },
        WriteStage::Finished(r) => {
            &&& write_ended(s, r, address, card, commands, faults)
            &&& s.hw.regs.waits is None
        },
    }
}

/// How a write ended. Where it went well, the block was sent, the card was then asked for its SD
/// status until it answered, and that answer is on record. Where the card never answered, it was
/// asked 16777215 times. Any other failure is what was seen to go wrong last: a timeout ends the
/// write only while the block is moved.
pub open spec fn write_ended(
    s: Writing,
    r: Result<(), Error>,
    address: u32,
    card: CardModel,
    commands: Seq<(u8, u32)>,
    faults: Seq<(u8, u32, Error)>,
) -> bool {
    match r {
        Ok(_) => {
            let n = s.hw.faults.len() - faults.len();
            &&& s.card == (CardModel { status: s.card.status, ..card })
            &&& means(s.card.status, s.hw.words)
            &&& n < 0x00FF_FFFF
            &&& then_timeouts(s.hw.faults, faults, n)
            &&& then_asks(s.hw.commands, commands + writing_commands(address), card.rca)
            &&& asked_last(s.hw.commands, card.rca)
            &&& s.hw.commands.len() >= commands.len() + 5
            &&& saw_good_end(s.hw)
        },
        Err(Error::SoftwareTimeout) => {
            &&& s.card == card
            &&& then_timeouts(s.hw.faults, faults, 0x00FF_FFFF)
            &&& then_asks(s.hw.commands, commands + writing_commands(address), card.rca)
        },
        Err(e) => {
            let before = s.hw.faults.drop_last();
            let n = before.len() - faults.len();
            &&& s.card == card
            &&& one_fault_more(s.hw.faults, before, e)
            &&& then_timeouts(before, faults, n)
            &&& n < 0x00FF_FFFF
            &&& e == Error::Timeout ==> n == 0
            &&& n > 0 ==> then_asks(
                s.hw.commands,
                commands + writing_commands(address),
                card.rca,
            )
        },
    }
}

proof fn lemma_then_asks_push(
    commands: Seq<(u8, u32)>,
    first: Seq<(u8, u32)>,
    rca: u32,
    command: (u8, u32),
)
    requires
        then_asks(commands, first, rca),
        asks_status(command, rca),
    ensures
        then_asks(commands.push(command), first, rca),
{
    assert(commands.push(command).take(first.len() as int) =~= commands.take(first.len() as int));
}

/// While a card is asked for its status, it is sent nothing else.
proof fn lemma_asking_step(
    t: TransferState,
    hw: Hw,
    rca: u32,
    timeout: u32,
    f: Seq<(u8, u32, Error)>,
    c: Seq<(u8, u32)>,
    first: Seq<(u8, u32)>,
    reply: Reply,
)
    requires
        t.plan == sd_status_plan(rca, timeout),
        transfer_goes(t, hw, f),
        transfer_sent(t, sent_by(hw), c),
        then_asks(hw.commands, first, rca),
    ensures
        then_asks(hw.dealt(t.inner, t.action(), reply).commands, first, rca),
{
    lemma_transfer_goes(t, hw, f);
    lemma_plan_pairs(t.inner, t.plan);
    match (t.action(), reply) {
        (Action::Write(RegWrite::Cmdr(w)), Reply::Ack) => {
            lemma_then_asks_push(hw.commands, first, rca, (w.cmdindex, hw.regs.argument));
        },
        _ => {},
    }
}

/// A card begins to be asked for its status.
proof fn lemma_write_goes_asking(
    s: Writing,
    inner: SdmmcInner,
    address: u32,
    timeout: u32,
    card: CardModel,
    commands: Seq<(u8, u32)>,
    faults: Seq<(u8, u32, Error)>,
    tries: u32,
)
    requires
        s.write.inner == inner,
        s.write.timeout == timeout,
        s.write.stage == WriteStage::Asking(tries),
        s.write.transfer == TransferState::start(inner, sd_status_plan(card.rca, timeout)),
        s.card == card,
        1 <= tries <= 0x00FF_FFFF,
        then_asks(s.hw.commands, commands + writing_commands(address), card.rca),
        then_timeouts(s.hw.faults, faults, 0x00FF_FFFF - tries),
    ensures
        write_goes(s, inner, address, timeout, card, commands, faults),
{
    let plan = sd_status_plan(card.rca, timeout);
    lemma_transfer_goes_start(inner, plan, s.hw);
    lemma_transfer_sent_start(inner, plan, sent_by(s.hw));
    assert(transfer_goes(s.write.transfer, s.hw, s.hw.faults));
    assert(transfer_sent(s.write.transfer, sent_by(s.hw), s.hw.commands));
}

proof fn lemma_write_goes_writing(
    s: Writing,
    inner: SdmmcInner,
    address: u32,
    timeout: u32,
    card: CardModel,
    commands: Seq<(u8, u32)>,
    faults: Seq<(u8, u32, Error)>,
    reply: Reply,
)
    requires
        write_goes(s, inner, address, timeout, card, commands, faults),
        s.write.stage is Writing,
    ensures
        write_goes(s.after(reply), inner, address, timeout, card, commands, faults),
{
    let t = s.write.transfer;
    let n = t.after(reply);
    let next = s.after(reply);
    let first = commands + writing_commands(address);
    lemma_transfer_goes_step(t, s.hw, faults, reply);
    lemma_transfer_goes(n, next.hw, faults);
    lemma_transfer_sent_step(t, sent_by(s.hw), commands, reply);
    lemma_sent_by(s.hw, inner, t.action(), reply);
    match n.action() {
        Action::Done(Ok(_)) => {
            assert(commands + plan_commands(n.plan) =~= first);
            assert(first.take(first.len() as int) =~= first);
            assert(faults.take(faults.len() as int) =~= faults);
            lemma_write_goes_asking(
                next,
                inner,
                address,
                timeout,
                card,
                commands,
                faults,
                0x00FF_FFFF,
            );
        },
        Action::Done(Err(e)) => {
            assert(faults.take(faults.len() as int) =~= faults);
        },
        _ => {},
    }
}

proof fn lemma_write_goes_step(
    s: Writing,
    inner: SdmmcInner,
    address: u32,
    timeout: u32,
    card: CardModel,
    commands: Seq<(u8, u32)>,
    faults: Seq<(u8, u32, Error)>,
    reply: Reply,
)
    requires
        write_goes(s, inner, address, timeout, card, commands, faults),
    ensures
        write_goes(s.after(reply), inner, address, timeout, card, commands, faults),
{
    match s.write.stage {
        WriteStage::Writing => lemma_write_goes_writing(
            s,
            inner,
            address,
            timeout,
            card,
            commands,
            faults,
            reply,
        ),
        WriteStage::Asking(tries) => {
            let t = s.write.transfer;
            let f = choose|f: Seq<(u8, u32, Error)>| #[trigger]
                transfer_goes(t, s.hw, f) && then_timeouts(f, faults, 0x00FF_FFFF - tries);
            let c = choose|c: Seq<(u8, u32)>| #[trigger] transfer_sent(t, sent_by(s.hw), c);
            lemma_write_goes_asked(
                s,
                inner,
                address,
                timeout,
                card,
                commands,
                faults,
                tries,
                f,
                c,
                reply,
            );
        },
        WriteStage::Finished(_) => {},
    }
}

proof fn lemma_write_goes_asked(
    s: Writing,
    inner: SdmmcInner,
    address: u32,
    timeout: u32,
    card: CardModel,
    commands: Seq<(u8, u32)>,
    faults: Seq<(u8, u32, Error)>,
    tries: u32,
    f: Seq<(u8, u32, Error)>,
    c: Seq<(u8, u32)>,
    reply: Reply,
)
    requires
        write_goes(s, inner, address, timeout, card, commands, faults),
        s.write.stage == WriteStage::Asking(tries),
        transfer_goes(s.write.transfer, s.hw, f),
        then_timeouts(f, faults, 0x00FF_FFFF - tries),
        transfer_sent(s.write.transfer, sent_by(s.hw), c),
    ensures
        write_goes(s.after(reply), inner, address, timeout, card, commands, faults),
{
    let t = s.write.transfer;
    let n = t.after(reply);
    let next = s.after(reply);
    let first = commands + writing_commands(address);
    lemma_transfer_goes_step(t, s.hw, f, reply);
    lemma_transfer_goes(n, next.hw, f);
    lemma_transfer_sent_step(t, sent_by(s.hw), c, reply);
    lemma_sent_by(s.hw, inner, t.action(), reply);
    lemma_asking_step(t, s.hw, card.rca, timeout, f, c, first, reply);
    match n.action() {
        Action::Done(Ok(_)) => {
            lemma_status_means(n.words);
            let p = plan_commands(n.plan);
            assert(p.len() == 3);
            assert(next.hw.commands == c + p);
            assert(first.last() == (24u8, address));
            assert(next.hw.commands.len() >= first.len() + 3) by {
                let m = next.hw.commands.len() as int;
                assert(next.hw.commands.take(first.len() as int)[first.len() - 1] == first.last());
                assert(next.hw.commands[first.len() - 1] == (24u8, address));
                assert(next.hw.commands[m - 1] == p[2]);
                assert(next.hw.commands[m - 2] == p[1]);
                assert(next.hw.commands[m - 3] == p[0]);
            }
        },
        Action::Done(Err(Error::Timeout)) => {
            assert(next.hw.faults.take(faults.len() as int) =~= f.take(faults.len() as int));
            assert forall|i: int| faults.len() <= i < next.hw.faults.len() implies (
            #[trigger] next.hw.faults[i]).2 == Error::Timeout by {
                if i < f.len() {
                    assert(next.hw.faults.drop_last()[i] == f[i]);
                }
            }
            if tries > 1 {
                lemma_write_goes_asking(
                    next,
                    inner,
                    address,
                    timeout,
                    card,
                    commands,
                    faults,
                    (tries - 1) as u32,
                );
            }
        },
        Action::Done(Err(e)) => {},
        _ => {
            assert(transfer_goes(next.write.transfer, next.hw, f));
            assert(transfer_sent(next.write.transfer, sent_by(next.hw), c));
        },
    }
}

/// The numbers that are taken out of a register are what the card means.
proof fn lemma_status_means(words: Seq<u32>)
    ensures
        means(as_numbers(words), words),
{
}

proof fn lemma_write_goes_start(
    s: Writing,
    inner: SdmmcInner,
    address: u32,
    timeout: u32,
)
    requires
        s.write == WriteState::start(inner, address, timeout),
    ensures
        write_goes(s, inner, address, timeout, s.card, s.hw.commands, s.hw.faults),
{
    let plan = write_block_plan(address, timeout);
    lemma_transfer_goes_start(inner, plan, s.hw);
    lemma_transfer_sent_start(inner, plan, sent_by(s.hw));
}

/// What a write that goes as it should says of what is due.
proof fn lemma_write_goes_order(
    s: Writing,
    inner: SdmmcInner,
    address: u32,
    timeout: u32,
    card: CardModel,
    commands: Seq<(u8, u32)>,
    faults: Seq<(u8, u32, Error)>,
)
    requires
        write_goes(s, inner, address, timeout, card, commands, faults),
    ensures
        in_order(inner, timeout, s.hw, s.write.action()),
        s.write.action() matches Action::Write(RegWrite::Cmdr(c)) ==> (c.cmdindex == 24 ==>
            s.hw.regs.argument == address),
        match s.write.action() {
            Action::Done(r) => write_ended(s, r, address, card, commands, faults),
            _ => !(s.write.stage is Finished) && s.card == card,
        },
{
    let t = s.write.transfer;
    match s.write.stage {
        WriteStage::Writing => {
            lemma_transfer_goes(t, s.hw, faults);
            lemma_plan_pairs(inner, t.plan);
        },
        WriteStage::Asking(tries) => {
            let f = choose|f: Seq<(u8, u32, Error)>| #[trigger]
                transfer_goes(t, s.hw, f) && then_timeouts(f, faults, 0x00FF_FFFF - tries);
            let c = choose|c: Seq<(u8, u32)>| #[trigger] transfer_sent(t, sent_by(s.hw), c);
            lemma_transfer_goes(t, s.hw, f);
            lemma_plan_pairs(inner, t.plan);
        },
        WriteStage::Finished(_) => {},
    }
}

proof fn lemma_write_goes(
    inner: SdmmcInner,
    address: u32,
    timeout: u32,
    card: CardModel,
    hw: Hw,
    replies: Seq<Reply>,
)
    ensures
        write_goes(
            Writing { write: WriteState::start(inner, address, timeout), card, hw }.replay(
                replies,
            ),
            inner,
            address,
            timeout,
            card,
            hw.commands,
            hw.faults,
        ),
    decreases replies.len(),
{
    let start = Writing { write: WriteState::start(inner, address, timeout), card, hw };
    if replies.len() == 0 {
        lemma_write_goes_start(start, inner, address, timeout);
    } else {
        lemma_write_goes(inner, address, timeout, card, hw, replies.drop_last());
        lemma_write_goes_step(
            start.replay(replies.drop_last()),
            inner,
            address,
            timeout,
            card,
            hw.commands,
            hw.faults,
            replies.last(),
        );
    }
}

/// At every moment of writing a block what is due is in order, and the CMD24 that is due names the
/// block asked for. `write_ended` says how it ends.
pub proof fn law_block_is_written(
    inner: SdmmcInner,
    card: CardModel,
    block_idx: u32,
    timeout: u32,
    hw: Hw,
    replies: Seq<Reply>,
)
    requires
        block_address(card.card_type, block_idx) <= u32::MAX,
    ensures
        ({
            let address = block_address(card.card_type, block_idx) as u32;
            let start = Writing { write: WriteState::start(inner, address, timeout), card, hw };
            let s = start.replay(replies);
            &&& names_block(card.card_type, block_idx as int, address)
            &&& in_order(inner, timeout, s.hw, s.write.action())
            &&& s.write.action() matches Action::Write(RegWrite::Cmdr(c)) ==> (c.cmdindex == 24 ==>
                names_block(card.card_type, block_idx as int, s.hw.regs.argument))
            &&& match s.write.action() {
                Action::Done(r) => write_ended(s, r, address, card, hw.commands, hw.faults),
                _ => s.card == card,
            }
        }),
{
    let address = block_address(card.card_type, block_idx) as u32;
    let start = Writing { write: WriteState::start(inner, address, timeout), card, hw };
    lemma_write_goes(inner, address, timeout, card, hw, replies);
    lemma_write_goes_order(
        start.replay(replies),
        inner,
        address,
        timeout,
        card,
        hw.commands,
        hw.faults,
    );
}

/// Of these commands those that move a block.
pub open spec fn block_commands(commands: Seq<(u8, u32)>) -> Seq<(u8, u32)>
    decreases commands.len(),
{
    if commands.len() == 0 {
        Seq::empty()
    } else {
        let before = block_commands(commands.drop_last());
        if commands.last().0 == 17 || commands.last().0 == 24 {
            before.push(commands.last())
        } else {
            before
        }
    }
}

/// A CMD24 for each of `count` blocks from block `start` on, in order.
pub open spec fn written_in_a_row(capacity: CardCapacity, start: int, count: nat) -> Seq<
    (u8, u32),
> {
    Seq::new(
        count,
        |i: int|
            (
                24u8,
                (if capacity == CardCapacity::SDSC {
                    (start + i) * 512
                } else {
                    start + i
                }) as u32,
            ),
    )
}

/// Of the commands of a write, one moves a block.
proof fn lemma_block_commands_of_write(
    commands: Seq<(u8, u32)>,
    before: Seq<(u8, u32)>,
    address: u32,
    rca: u32,
)
    requires
        then_asks(commands, before + writing_commands(address), rca),
    ensures
        block_commands(commands) == block_commands(before).push((24u8, address)),
    decreases commands.len(),
{
    let first = before + writing_commands(address);
    if commands.len() == first.len() {
        assert(commands.take(first.len() as int) =~= commands);
        assert(first.drop_last().drop_last() =~= before);
        assert(first.drop_last().last() == (16u8, 512u32));
        reveal_with_fuel(block_commands, 3);
    } else {
        let less = commands.drop_last();
        assert(less.take(first.len() as int) =~= commands.take(first.len() as int));
        assert(asks_status(commands[commands.len() - 1], rca));
        lemma_block_commands_of_write(less, before, address, rca);
    }
}

/// All that was seen to go wrong after these is timeouts.
pub open spec fn only_timeouts(
    faults: Seq<(u8, u32, Error)>,
    first: Seq<(u8, u32, Error)>,
) -> bool {
    then_timeouts(faults, first, faults.len() - first.len())
}

/// What ties a write in a row to what was asked for, where these blocks were moved before it.
spec fn block_goes(
    one: Writing,
    inner: SdmmcInner,
    address: u32,
    timeout: u32,
    blocks: Seq<(u8, u32)>,
    faults: Seq<(u8, u32, Error)>,
) -> bool {
    exists|c: Seq<(u8, u32)>, f: Seq<(u8, u32, Error)>|
        #[trigger] write_goes(one, inner, address, timeout, one.card, c, f) && block_commands(c)
            == blocks && only_timeouts(f, faults)
}

/// What ties a row of blocks that is written to what was asked for.
spec fn writing_goes(
    s: WritingRow,
    inner: SdmmcInner,
    card: CardModel,
    timeout: u32,
    start: u32,
    count: u32,
    hw: Hw,
) -> bool {
    let b = s.blocks;
    let capacity = card.card_type;
    &&& b.inner == inner
    &&& b.capacity == capacity
    &&& b.timeout == timeout
    &&& b.start == start
    &&& b.count == count
    &&& s.card == (CardModel { status: s.card.status, ..card })
    &&& match b.stage {
        BlocksStage::Block(i, w) => {
            &&& i < count
            &&& s.done == i
            &&& !(w.stage is Finished)
            &&& block_goes(
                Writing { write: w, card: s.card, hw: s.hw },
                inner,
                block_address(capacity, (start + i) as u32) as u32,
                timeout,
                block_commands(hw.commands) + written_in_a_row(capacity, start as int, i as nat),
                hw.faults,
            )
        },
        BlocksStage::Finished(Ok(_)) => {
            &&& s.done == count
            &&& only_timeouts(s.hw.faults, hw.faults)
            &&& block_commands(s.hw.commands) == block_commands(hw.commands) + written_in_a_row(
                capacity,
                start as int,
                count as nat,
            )
        },
        BlocksStage::Finished(Err(e)) => {
            &&& s.done < count
            &&& s.hw.faults.len() > hw.faults.len()
            &&& only_timeouts(s.hw.faults.drop_last(), hw.faults)
            &&& e == s.hw.faults.last().2 || e == Error::SoftwareTimeout && s.hw.faults.last().2
                == Error::Timeout
        },
    }
}

proof fn lemma_writing_goes_at_block(
    s: WritingRow,
    inner: SdmmcInner,
    card: CardModel,
    timeout: u32,
    start: u32,
    count: u32,
    hw: Hw,
    index: int,
)
    requires
        addressable(card.card_type, start, count),
        0 <= index <= count,
        s.done == index,
        s.card == (CardModel { status: s.card.status, ..card }),
        only_timeouts(s.hw.faults, hw.faults),
        block_commands(s.hw.commands) == block_commands(hw.commands) + written_in_a_row(
            card.card_type,
            start as int,
            index as nat,
        ),
        s.blocks.inner == inner,
        s.blocks.capacity == card.card_type,
        s.blocks.timeout == timeout,
        s.blocks.start == start,
        s.blocks.count == count,
        s.blocks == s.blocks.at_block(index),
    ensures
        writing_goes(s, inner, card, timeout, start, count, hw),
{
    if index < count {
        let address = block_address(card.card_type, (start + index) as u32) as u32;
        let one = Writing {
            write: WriteState::start(inner, address, timeout),
            card: s.card,
            hw: s.hw,
        };
        lemma_write_goes_start(one, inner, address, timeout);
        assert(block_goes(
            one,
            inner,
            address,
            timeout,
            block_commands(s.hw.commands),
            hw.faults,
        ));
    }
}

proof fn lemma_writing_goes_step(
    s: WritingRow,
    inner: SdmmcInner,
    card: CardModel,
    timeout: u32,
    start: u32,
    count: u32,
    hw: Hw,
    reply: Reply,
)
    requires
        addressable(card.card_type, start, count),
        writing_goes(s, inner, card, timeout, start, count, hw),
    ensures
        writing_goes(s.after(reply), inner, card, timeout, start, count, hw),
{
    let capacity = card.card_type;
    match s.blocks.stage {
        BlocksStage::Block(i, w) => {
            let address = block_address(capacity, (start + i) as u32) as u32;
            let one = Writing { write: w, card: s.card, hw: s.hw };
            let blocks = block_commands(hw.commands) + written_in_a_row(
                capacity,
                start as int,
                i as nat,
            );
            let (c, f) = choose|c: Seq<(u8, u32)>, f: Seq<(u8, u32, Error)>|
                #[trigger] write_goes(one, inner, address, timeout, one.card, c, f)
                    && block_commands(c) == blocks && only_timeouts(f, hw.faults);
            lemma_write_goes_step(one, inner, address, timeout, s.card, c, f, reply);
            lemma_write_goes_order(one, inner, address, timeout, s.card, c, f);
            let after = one.after(reply);
            lemma_write_goes_order(after, inner, address, timeout, s.card, c, f);
            let next = s.after(reply);
            assert(next.hw == after.hw && next.card == after.card);
            match after.write.action() {
                Action::Done(Ok(_)) => {
                    lemma_timeouts_join(after.hw.faults, f, hw.faults);
                    lemma_block_commands_of_write(after.hw.commands, c, address, s.card.rca);
                    let row = written_in_a_row(capacity, start as int, i as nat);
                    let more = written_in_a_row(capacity, start as int, (i + 1) as nat);
                    assert(block_address(capacity, (start + i) as u32) <= u32::MAX);
                    assert(row.push((24u8, address)) =~= more);
                    let b = block_commands(hw.commands);
                    assert((b + row).push((24u8, address)) =~= b + row.push((24u8, address)));
                    assert(next.blocks == next.blocks.at_block(i + 1));
                    lemma_writing_goes_at_block(
                        next,
                        inner,
                        card,
                        timeout,
                        start,
                        count,
                        hw,
                        i + 1,
                    );
                },
                Action::Done(Err(e)) => {
                    if e == Error::SoftwareTimeout {
                        lemma_timeouts_join(after.hw.faults, f, hw.faults);
                        let all = after.hw.faults;
                        assert(all.drop_last().take(hw.faults.len() as int) =~= all.take(
                            hw.faults.len() as int,
                        ));
                        assert(all[all.len() - 1].2 == Error::Timeout);
                        assert(only_timeouts(all.drop_last(), hw.faults));
                    } else {
                        lemma_timeouts_join(after.hw.faults.drop_last(), f, hw.faults);
                    }
                    assert(writing_goes(next, inner, card, timeout, start, count, hw));
                },
                _ => {
                    assert(write_goes(after, inner, address, timeout, after.card, c, f));
                    assert(block_goes(after, inner, address, timeout, blocks, hw.faults));
                    assert(after == (Writing {
                        write: after.write,
                        card: next.card,
                        hw: next.hw,
                    }));
                    assert(writing_goes(next, inner, card, timeout, start, count, hw));
                },
            }
        },
        BlocksStage::Finished(_) => {},
    }
}

/// Timeouts after timeouts.
proof fn lemma_timeouts_join(
    a: Seq<(u8, u32, Error)>,
    b: Seq<(u8, u32, Error)>,
    c: Seq<(u8, u32, Error)>,
)
    requires
        only_timeouts(a, b),
        only_timeouts(b, c),
    ensures
        only_timeouts(a, c),
{
    assert(a.take(c.len() as int) =~= b.take(c.len() as int)) by {
        assert forall|i: int| 0 <= i < c.len() implies a[i] == b[i] by {
            assert(a.take(b.len() as int)[i] == b[i]);
        }
    }
    assert forall|i: int| c.len() <= i < a.len() implies (#[trigger] a[i]).2 == Error::Timeout by {
        if i < b.len() {
            assert(a.take(b.len() as int)[i] == b[i]);
        }
    }
}

proof fn lemma_writing_goes(
    inner: SdmmcInner,
    card: CardModel,
    timeout: u32,
    start: u32,
    count: u32,
    hw: Hw,
    replies: Seq<Reply>,
)
    requires
        addressable(card.card_type, start, count),
    ensures
        ({
            let blocks = WriteBlocksState::begin(inner, card.card_type, timeout, start, count);
            let row = WritingRow { blocks, card, hw, done: 0 };
            writing_goes(row.replay(replies), inner, card, timeout, start, count, hw)
        }),
    decreases replies.len(),
{
    let blocks = WriteBlocksState::begin(inner, card.card_type, timeout, start, count);
    let row = WritingRow { blocks, card, hw, done: 0 };
    if replies.len() == 0 {
        let b = block_commands(hw.commands);
        assert(b + written_in_a_row(card.card_type, start as int, 0) =~= b);
        assert(hw.faults.take(hw.faults.len() as int) =~= hw.faults);
        lemma_writing_goes_at_block(row, inner, card, timeout, start, count, hw, 0);
    } else {
        lemma_writing_goes(inner, card, timeout, start, count, hw, replies.drop_last());
        lemma_writing_goes_step(
            row.replay(replies.drop_last()),
            inner,
            card,
            timeout,
            start,
            count,
            hw,
            replies.last(),
        );
    }
}

/// Writing `count` blocks from block `start` on: at every moment what is due is in order, and the
/// CMD24 that is due while `done` blocks were written names the block `done` after the first. Where
/// it ends well, exactly `count` blocks were written, by a CMD24 for each of the blocks asked for,
/// in order, and nothing was seen to go wrong but timeouts of a card that was not done yet; it
/// fails for the last thing that was seen to go wrong.
pub proof fn law_blocks_asked_for_are_written(
    inner: SdmmcInner,
    card: CardModel,
    timeout: u32,
    start: u32,
    count: u32,
    hw: Hw,
    replies: Seq<Reply>,
)
    requires
        addressable(card.card_type, start, count),
    ensures
        ({
            let blocks = WriteBlocksState::begin(inner, card.card_type, timeout, start, count);
            let s = WritingRow { blocks, card, hw, done: 0 }.replay(replies);
            &&& in_order(inner, timeout, s.hw, s.blocks.action())
            &&& s.blocks.action() matches Action::Write(RegWrite::Cmdr(c)) ==> (c.cmdindex == 24
                ==> s.done < count && names_block(
                card.card_type,
                start + s.done,
                s.hw.regs.argument,
            ))
            &&& s.blocks.stage matches BlocksStage::Block(i, _) ==> i == s.done && s.done < count
            &&& s.card == (CardModel { status: s.card.status, ..card })
            &&& match s.blocks.action() {
                Action::Done(Ok(_)) => {
                    &&& s.done == count
                    &&& block_commands(s.hw.commands) == block_commands(hw.commands)
                        + written_in_a_row(card.card_type, start as int, count as nat)
                    &&& only_timeouts(s.hw.faults, hw.faults)
                },
                Action::Done(Err(e)) => {
                    &&& s.done < count
                    &&& s.hw.faults.len() > hw.faults.len()
                    &&& only_timeouts(s.hw.faults.drop_last(), hw.faults)
                    &&& e == s.hw.faults.last().2 || e == Error::SoftwareTimeout
                        && s.hw.faults.last().2 == Error::Timeout
                },
                _ => s.blocks.stage is Block,
            }
        }),
{
    let capacity = card.card_type;
    let blocks = WriteBlocksState::begin(inner, capacity, timeout, start, count);
    let s = WritingRow { blocks, card, hw, done: 0 }.replay(replies);
    lemma_writing_goes(inner, card, timeout, start, count, hw, replies);
    match s.blocks.stage {
        BlocksStage::Block(i, w) => {
            let address = block_address(capacity, (start + i) as u32) as u32;
            let one = Writing { write: w, card: s.card, hw: s.hw };
            let blocks = block_commands(hw.commands) + written_in_a_row(
                capacity,
                start as int,
                i as nat,
            );
            let (c, f) = choose|c: Seq<(u8, u32)>, f: Seq<(u8, u32, Error)>|
                #[trigger] write_goes(one, inner, address, timeout, one.card, c, f)
                    && block_commands(c) == blocks && only_timeouts(f, hw.faults);
            lemma_write_goes_order(one, inner, address, timeout, s.card, c, f);
            assert(block_address(capacity, (start + i) as u32) <= u32::MAX);
        },
        BlocksStage::Finished(_) => {},
    }
}

/// While blocks are written, the card on record takes over what the card sent of its status at the
/// end of each block that was written well, and stays as it is at all other times.
pub proof fn law_row_records_status(
    inner: SdmmcInner,
    card: CardModel,
    timeout: u32,
    start: u32,
    count: u32,
    hw: Hw,
    replies: Seq<Reply>,
    reply: Reply,
)
    requires
        addressable(card.card_type, start, count),
    ensures
        ({
            let blocks = WriteBlocksState::begin(inner, card.card_type, timeout, start, count);
            let s = WritingRow { blocks, card, hw, done: 0 }.replay(replies);
            let n = s.after(reply);
            if n.done > s.done {
                means(n.card.status, n.hw.words)
            } else {
                n.done == s.done && n.card == s.card
            }
        }),
{
    let blocks = WriteBlocksState::begin(inner, card.card_type, timeout, start, count);
    let s = WritingRow { blocks, card, hw, done: 0 }.replay(replies);
    lemma_writing_goes(inner, card, timeout, start, count, hw, replies);
    match s.blocks.stage {
        BlocksStage::Block(i, w) => {
            let one = Writing { write: w, card: s.card, hw: s.hw };
            let address = block_address(card.card_type, (start + i) as u32) as u32;
            let blocks = block_commands(hw.commands) + written_in_a_row(
                card.card_type,
                start as int,
                i as nat,
            );
            let (c, f) = choose|c: Seq<(u8, u32)>, f: Seq<(u8, u32, Error)>|
                #[trigger] write_goes(one, inner, address, timeout, one.card, c, f)
                    && block_commands(c) == blocks && only_timeouts(f, hw.faults);
            lemma_write_goes_step(one, inner, address, timeout, s.card, c, f, reply);
            lemma_write_goes_order(one.after(reply), inner, address, timeout, s.card, c, f);
            assert(s.after(reply).card == one.after(reply).card);
            assert(s.after(reply).hw == one.after(reply).hw);
        },
        BlocksStage::Finished(_) => {},
    }
}

/// A command of the transfer of this plan, or the abort.
pub open spec fn of_plan(command: (u8, u32), plan: Plan) -> bool {
    ||| command.0 == 16 && plan.block_length == Some(command.1)
    ||| command.0 == 55 && plan.app == Some(command.1)
    ||| command == (plan.command.cmd, plan.command.arg)
    ||| command.0 == 12
}

proof fn lemma_only_of_plan(inner: SdmmcInner, plan: Plan, hw: Hw, replies: Seq<Reply>)
    requires
        agrees(plan),
        plan.block_length is Some || hw.regs.waits is None && !hw.regs.after_app(),
    ensures
        ({
            let (t, after) = replay_transfer(TransferState::start(inner, plan), hw, replies);
            &&& transfer_goes(t, after, hw.faults)
            &&& transfer_sent(t, sent_by(after), hw.commands)
            &&& t.plan == plan
            &&& t.inner == inner
            &&& hw.commands.len() <= after.commands.len()
            &&& after.commands.take(hw.commands.len() as int) == hw.commands
            &&& forall|i: int|
                hw.commands.len() <= i < after.commands.len() ==> of_plan(
                    #[trigger] after.commands[i],
                    plan,
                )
        }),
    decreases replies.len(),
{
    let start = TransferState::start(inner, plan);
    if replies.len() == 0 {
        lemma_transfer_goes_start(inner, plan, hw);
        lemma_transfer_sent_start(inner, plan, sent_by(hw));
        assert(hw.commands.take(hw.commands.len() as int) =~= hw.commands);
    } else {
        lemma_only_of_plan(inner, plan, hw, replies.drop_last());
        let (t, halfway) = replay_transfer(start, hw, replies.drop_last());
        let after = halfway.dealt(t.inner, t.action(), replies.last());
        lemma_transfer_goes_step(t, halfway, hw.faults, replies.last());
        lemma_transfer_goes(t, halfway, hw.faults);
        lemma_transfer_sent_step(t, sent_by(halfway), hw.commands, replies.last());
        lemma_sent_by(halfway, t.inner, t.action(), replies.last());
        lemma_plan_pairs(inner, plan);
        assert(after.commands.take(hw.commands.len() as int) =~= halfway.commands.take(
            hw.commands.len() as int,
        ));
    }
}

/// In reading a block a card is sent nothing but CMD16 for 512 bytes, CMD17 for that block, and the
/// abort, however it goes.
pub proof fn law_nothing_else_is_sent(
    inner: SdmmcInner,
    capacity: CardCapacity,
    block_idx: u32,
    timeout: u32,
    hw: Hw,
    replies: Seq<Reply>,
    i: int,
)
    requires
        block_address(capacity, block_idx) <= u32::MAX,
        hw.commands.len() <= i,
    ensures
        ({
            let plan = read_block_plan(block_address(capacity, block_idx) as u32, timeout);
            let after = replay_transfer(TransferState::start(inner, plan), hw, replies).1;
            i < after.commands.len() ==> {
                ||| after.commands[i] == (16u8, 512u32)
                ||| after.commands[i].0 == 17 && names_block(
                    capacity,
                    block_idx as int,
                    after.commands[i].1,
                )
                ||| after.commands[i].0 == 12
            }
        }),
{
    let plan = read_block_plan(block_address(capacity, block_idx) as u32, timeout);
    lemma_only_of_plan(inner, plan, hw, replies);
    let after = replay_transfer(TransferState::start(inner, plan), hw, replies).1;
    if i < after.commands.len() {
        assert(of_plan(after.commands[i], plan));
    }
}

} // verus!
