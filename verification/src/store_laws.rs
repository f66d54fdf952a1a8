//! What is read of a card is what was written to it.
//!
//! `Disk` is a card that does as it is told, with the memory that blocks are moved from and to: a
//! block that is written is kept under its address, and a block that is read is the one that is
//! kept there. `Disk::served` also minds what the registers say of the data: which way it goes, how
//! much of it there is, and where the DMA finds it.

use vstd::arithmetic::power2::pow2;
use vstd::prelude::*;

use crate::bench::{law_data_is_one_block, Regs};
use crate::card::CardModel;
use crate::data_laws::{in_order, law_block_is_read, names_block};
use crate::effect::{lemma_transfer_step, replay_transfer, transfer_inv, Hw};
use crate::inner::SdmmcInner;
use crate::registers::{Action, Buffer, Cmdr, RegWrite, Reply};
use crate::row_laws::{asks_status, law_block_is_written, then_asks, writing_commands};
use crate::sent::{
    law_transfer_sends_its_commands, lemma_transfer_sent_start, lemma_transfer_sent_step,
    plan_commands, replay_sent, transfer_sent, Sent,
};
use crate::transfer::{
    block_address, read_block_plan, write_block_plan, Phase, Plan, TransferState,
};
use crate::types::{CardCapacity, Version};
use crate::words::{law_block_of_words, DataBlock};
use crate::write::{WriteStage, WriteState};
use crate::write_laws::{lemma_write_tied, Writing};

verus! {

/// A card that does as it is told, with the memory that blocks are moved from and to.
pub struct Disk {
    /// The blocks that the card keeps, by their addresses
    pub blocks: Map<u32, Seq<u32>>,
    /// The memory of the host
    pub memory: Seq<u32>,
}

impl Disk {
    /// After a command: CMD24 keeps a block, CMD17 hands one out.
    pub open spec fn told(self, command: (u8, u32)) -> Disk {
        let (index, argument) = command;
        if index == 24 {
            Disk { blocks: self.blocks.insert(argument, self.memory), ..self }
        } else if index == 17 {
            Disk { memory: self.blocks[argument], ..self }
        } else {
            self
        }
    }

    /// After a row of commands.
    pub open spec fn told_all(self, commands: Seq<(u8, u32)>) -> Disk
        decreases commands.len(),
    {
        if commands.len() == 0 {
            self
        } else {
            self.told_all(commands.drop_last()).told(commands.last())
        }
    }
}

/// The words of a block.
pub open spec fn words_of(block: DataBlock) -> Seq<u32> {
    Seq::new(128, |i: int| block.word(i))
}

/// A command that moves no block.
pub open spec fn blockless(command: (u8, u32)) -> bool {
    command.0 != 17 && command.0 != 24
}

/// These commands, and then only such as move no block.
pub open spec fn then_blockless(commands: Seq<(u8, u32)>, first: Seq<(u8, u32)>) -> bool {
    &&& first.len() <= commands.len()
    &&& commands.take(first.len() as int) == first
    &&& forall|i: int| first.len() <= i < commands.len() ==> blockless(#[trigger] commands[i])
}

proof fn lemma_told_then_blockless(
    disk: Disk,
    commands: Seq<(u8, u32)>,
    first: Seq<(u8, u32)>,
)
    requires
        then_blockless(commands, first),
    ensures
        disk.told_all(commands) == disk.told_all(first),
    decreases commands.len(),
{
    if commands.len() == first.len() {
        assert(commands.take(first.len() as int) =~= commands);
    } else {
        let before = commands.drop_last();
        assert(before.take(first.len() as int) =~= commands.take(first.len() as int));
        lemma_told_then_blockless(disk, before, first);
        assert(blockless(commands[commands.len() - 1]));
    }
}

/// What was sent in the course of a write.
pub open spec fn write_sent(start: Writing, sent: Sent, replies: Seq<Reply>) -> Sent
    decreases replies.len(),
{
    if replies.len() == 0 {
        sent
    } else {
        let before = replies.drop_last();
        write_sent(start, sent, before).dealt(
            start.replay(before).write.action(),
            replies.last(),
        )
    }
}

/// A transfer whose data command moves no block sends no command that does.
proof fn lemma_blockless_transfer(t: TransferState, hw: Hw)
    requires
        transfer_inv(t, hw, true),
        blockless((t.plan.command.cmd, t.plan.command.arg)),
    ensures
        t.action() matches Action::Write(w) ==> (w matches RegWrite::Cmdr(c) ==> blockless(
            (c.cmdindex, 0),
        )),
{
}

/// What a write has sent, as far as it has come.
spec fn write_speaks(w: WriteState, sent: Sent, address: u32) -> bool {
    let plan = write_block_plan(address, w.timeout);
    match w.stage {
        WriteStage::Writing => {
            &&& w.transfer.plan == plan
            &&& transfer_sent(w.transfer, sent, Seq::empty())
        },
        WriteStage::Asking(_) => {
            &&& w.transfer.plan.command.cmd == 13
            &&& then_blockless(sent.commands, plan_commands(plan))
        },
        WriteStage::Finished(Ok(_)) => then_blockless(sent.commands, plan_commands(plan)),
        WriteStage::Finished(Err(_)) => true,
    }
}

/// A command that moves no block, sent after these, is one more of that kind.
proof fn lemma_then_blockless_push(
    commands: Seq<(u8, u32)>,
    first: Seq<(u8, u32)>,
    command: (u8, u32),
)
    requires
        then_blockless(commands, first),
        blockless(command),
    ensures
        then_blockless(commands.push(command), first),
{
    assert(commands.push(command).take(first.len() as int) =~= commands.take(first.len() as int));
}

proof fn lemma_asking_sent(
    t: TransferState,
    hw: Hw,
    sent: Sent,
    first: Seq<(u8, u32)>,
    reply: Reply,
)
    requires
        transfer_inv(t, hw, true),
        t.plan.command.cmd == 13,
        then_blockless(sent.commands, first),
    ensures
        then_blockless(sent.dealt(t.action(), reply).commands, first),
{
    lemma_blockless_transfer(t, hw);
    match (t.action(), reply) {
        (Action::Write(RegWrite::Cmdr(c)), Reply::Ack) => lemma_then_blockless_push(
            sent.commands,
            first,
            (c.cmdindex, sent.argument),
        ),
        _ => {},
    }
}

proof fn lemma_write_speaks_step(s: Writing, sent: Sent, address: u32, reply: Reply)
    requires
        write_speaks(s.write, sent, address),
        s.write.stage is Finished || transfer_inv(s.write.transfer, s.hw, true) && !(
        s.write.transfer.phase is Finished),
    ensures
        write_speaks(s.after(reply).write, sent.dealt(s.write.action(), reply), address),
{
    let w = s.write;
    let none = Seq::<(u8, u32)>::empty();
    let first = plan_commands(write_block_plan(address, w.timeout));
    let t = w.transfer.after(reply);
    match w.stage {
        WriteStage::Writing => {
            lemma_transfer_sent_step(w.transfer, sent, none, reply);
            assert(none + first =~= first);
            assert(first.take(first.len() as int) =~= first);
            assert(t.phase is Finished <==> t.action() is Done) by {
                lemma_done_phase(w.transfer, s.hw, reply);
            }
        },
        WriteStage::Asking(_) => {
            lemma_asking_sent(w.transfer, s.hw, sent, first, reply);
            lemma_transfer_step(w.transfer, s.hw, true, reply);
        },
        WriteStage::Finished(_) => {},
    }
}

/// A transfer is done when it says so.
proof fn lemma_done_phase(t: TransferState, hw: Hw, reply: Reply)
    requires
        transfer_inv(t, hw, true),
    ensures
        t.after(reply).phase is Finished <==> t.after(reply).action() is Done,
{
    lemma_transfer_step(t, hw, true, reply);
}

proof fn lemma_write_speaks(start: Writing, address: u32, sent: Sent, replies: Seq<Reply>)
    requires
        start.ready(address),
        sent.commands == Seq::<(u8, u32)>::empty(),
    ensures
        write_speaks(start.replay(replies).write, write_sent(start, sent, replies), address),
        start.replay(replies).write.timeout == start.write.timeout,
    decreases replies.len(),
{
    if replies.len() == 0 {
        lemma_transfer_sent_start(
            start.write.inner,
            write_block_plan(address, start.write.timeout),
            sent,
        );
    } else {
        let before = replies.drop_last();
        lemma_write_speaks(start, address, sent, before);
        lemma_write_tied(start, address, before);
        lemma_write_speaks_step(
            start.replay(before),
            write_sent(start, sent, before),
            address,
            replies.last(),
        );
    }
}

/// A block that was written well is kept by the card under its address, and no other block of the
/// card has changed.
pub proof fn law_written_block_is_kept(
    start: Writing,
    address: u32,
    sent: Sent,
    replies: Seq<Reply>,
    disk: Disk,
)
    requires
        start.ready(address),
        sent.commands == Seq::<(u8, u32)>::empty(),
        start.replay(replies).write.stage matches WriteStage::Finished(r) && r is Ok,
    ensures
        disk.told_all(write_sent(start, sent, replies).commands) == (Disk {
            blocks: disk.blocks.insert(address, disk.memory),
            ..disk
        }),
{
    lemma_write_speaks(start, address, sent, replies);
    let plan = write_block_plan(address, start.write.timeout);
    let commands = write_sent(start, sent, replies).commands;
    lemma_told_then_blockless(disk, commands, plan_commands(plan));
    lemma_told_two(disk, plan, 24);
}

/// What a card makes of the two commands by which a block is moved.
proof fn lemma_told_two(disk: Disk, plan: Plan, index: u8)
    requires
        plan.block_length == Some(512u32),
        plan.app is None,
        plan.command.cmd == index,
    ensures
        disk.told_all(plan_commands(plan)) == disk.told((index, plan.command.arg)),
{
    let two = seq![(16u8, 512u32), (index, plan.command.arg)];
    assert(plan_commands(plan) =~= two);
    reveal_with_fuel(Disk::told_all, 3);
    assert(two.drop_last() =~= seq![(16u8, 512u32)]);
    assert(seq![(16u8, 512u32)].drop_last() =~= Seq::<(u8, u32)>::empty());
}

/// A block that was read well is the one that the card keeps under its address, and the card's
/// blocks stay what they are.
pub proof fn law_kept_block_is_read(
    inner: SdmmcInner,
    address: u32,
    timeout: u32,
    sent: Sent,
    replies: Seq<Reply>,
    disk: Disk,
)
    requires
        sent.commands == Seq::<(u8, u32)>::empty(),
        ({
            let start = TransferState::start(inner, read_block_plan(address, timeout));
            replay_sent(start, sent, replies).0.phase matches Phase::Finished(r) && r is Ok
        }),
    ensures
        ({
            let start = TransferState::start(inner, read_block_plan(address, timeout));
            disk.told_all(replay_sent(start, sent, replies).1.commands) == (Disk {
                memory: disk.blocks[address],
                ..disk
            })
        }),
{
    let plan = read_block_plan(address, timeout);
    law_transfer_sends_its_commands(inner, plan, sent, replies);
    assert(Seq::<(u8, u32)>::empty() + plan_commands(plan) =~= plan_commands(plan));
    lemma_told_two(disk, plan, 17);
}

/// Blocks of different numbers lie at different addresses.
pub proof fn law_blocks_lie_apart(capacity: CardCapacity, a: u32, b: u32)
    requires
        a != b,
    ensures
        block_address(capacity, a) != block_address(capacity, b),
{
}

/// A block that was written and then read is the same, byte for byte, whatever the memory held
/// that it was read into.
pub proof fn law_read_gives_back_what_was_written(
    start: Writing,
    capacity: CardCapacity,
    block_idx: u32,
    written: DataBlock,
    blocks: Map<u32, Seq<u32>>,
    memory: Seq<u32>,
    writing: Seq<Reply>,
    reading: Seq<Reply>,
    sent: Sent,
    read: DataBlock,
)
    requires
        block_address(capacity, block_idx) <= u32::MAX,
        start.ready(block_address(capacity, block_idx) as u32),
        sent.commands == Seq::<(u8, u32)>::empty(),
        start.replay(writing).write.stage matches WriteStage::Finished(r) && r is Ok,
        ({
            let address = block_address(capacity, block_idx) as u32;
            let plan = read_block_plan(address, start.write.timeout);
            let (t, asked) = replay_sent(
                TransferState::start(start.write.inner, plan),
                sent,
                reading,
            );
            let kept = Disk { blocks, memory: words_of(written) }.told_all(
                write_sent(start, sent, writing).commands,
            );
            let got = Disk { memory, ..kept }.told_all(asked.commands);
            &&& t.phase matches Phase::Finished(r) && r is Ok
            &&& words_of(read) == got.memory
        }),
    ensures
        read.bytes() == written.bytes(),
{
    let address = block_address(capacity, block_idx) as u32;
    let disk = Disk { blocks, memory: words_of(written) };
    law_written_block_is_kept(start, address, sent, writing, disk);
    let kept = disk.told_all(write_sent(start, sent, writing).commands);
    law_kept_block_is_read(
        start.write.inner,
        address,
        start.write.timeout,
        sent,
        reading,
        Disk { memory, ..kept },
    );
    assert(words_of(read) == words_of(written));
    assert forall|i: int| 0 <= i < 128 implies #[trigger] read.word(i) == written.word(i) by {
        assert(words_of(read)[i] == words_of(written)[i]);
    }
    law_block_of_words(read, written);
}

impl Disk {
    /// After a command, as far as the registers let its data through. A block is kept or handed out
    /// only if the direction is set that way, if the DMA that is on points at the memory, and if
    /// what the peripheral was told of its length agrees with what the card was told. As many words
    /// are moved as the data length says.
    pub open spec fn served(self, version: Version, regs: Regs, index: u8) -> Disk {
        let argument = regs.argument;
        let words = regs.length as int / 4;
        let agreed = regs.length == pow2(regs.exponent as nat) && regs.announced == Some(
            regs.length,
        );
        let reached = match version {
            Version::V1 => regs.channel matches Some(ch) && ch.buffer == Buffer::Block && ch.to_host
                == regs.to_host && (regs.to_host ==> regs.dmaen && regs.dten),
            Version::V2 => regs.idma && regs.base == Some(Buffer::Block),
        };
        if !agreed || !reached {
            self
        } else if index == 24 && !regs.to_host {
            Disk { blocks: self.blocks.insert(argument, self.memory.take(words)), ..self }
        } else if index == 17 && regs.to_host {
            Disk { memory: self.blocks[argument].take(words) + self.memory.skip(words), ..self }
        } else {
            self
        }
    }

    /// After an action and its reply.
    pub open spec fn dealt(
        self,
        version: Version,
        regs: Regs,
        action: Action,
        reply: Reply,
    ) -> Disk {
        match (action, reply) {
            (Action::Write(RegWrite::Cmdr(c)), Reply::Ack) => self.served(
                version,
                regs,
                c.cmdindex,
            ),
            _ => self,
        }
    }

    /// The memory is that of a block, and so is every block.
    pub open spec fn sized(self) -> bool {
        &&& self.memory.len() == 128
        &&& forall|a: u32| (#[trigger] self.blocks[a]).len() == 128
    }
}

/// What a card makes of a transfer, and of the memory.
pub open spec fn disk_after_transfer(
    t: TransferState,
    hw: Hw,
    disk: Disk,
    replies: Seq<Reply>,
) -> Disk
    decreases replies.len(),
{
    if replies.len() == 0 {
        disk
    } else {
        let before = replies.drop_last();
        let (n, halfway) = replay_transfer(t, hw, before);
        disk_after_transfer(t, hw, disk, before).dealt(
            t.inner.version,
            halfway.regs,
            n.action(),
            replies.last(),
        )
    }
}

/// What a card makes of a write, and of the memory.
pub open spec fn disk_after_write(start: Writing, disk: Disk, replies: Seq<Reply>) -> Disk
    decreases replies.len(),
{
    if replies.len() == 0 {
        disk
    } else {
        let before = replies.drop_last();
        let s = start.replay(before);
        disk_after_write(start, disk, before).dealt(
            start.write.inner.version,
            s.hw.regs,
            s.write.action(),
            replies.last(),
        )
    }
}

/// A block command that fits moves the block whole.
proof fn lemma_served(disk: Disk, inner: SdmmcInner, timeout: u32, hw: Hw, c: Cmdr)
    requires
        hw.regs.fits(inner.version, timeout, c),
        disk.sized(),
    ensures
        disk.served(inner.version, hw.regs, c.cmdindex) == disk.told(
            (c.cmdindex, hw.regs.argument),
        ),
        disk.told((c.cmdindex, hw.regs.argument)).sized(),
{
    law_data_is_one_block(c.cmdindex, hw.regs.after_app());
    let a = hw.regs.argument;
    if c.cmdindex == 24 {
        assert(disk.memory.take(128) =~= disk.memory);
    } else if c.cmdindex == 17 {
        assert(disk.blocks[a].take(128) + disk.memory.skip(128) =~= disk.blocks[a]);
    }
}

/// What is due being in order, a card does as it is told.
proof fn lemma_disk_step(
    disk: Disk,
    inner: SdmmcInner,
    timeout: u32,
    hw: Hw,
    base: Seq<(u8, u32)>,
    start: Disk,
    action: Action,
    reply: Reply,
)
    requires
        in_order(inner, timeout, hw, action),
        start.sized(),
        disk.sized(),
        base.len() <= hw.commands.len(),
        disk == start.told_all(hw.commands.skip(base.len() as int)),
    ensures
        ({
            let after = hw.dealt(inner, action, reply);
            let next = disk.dealt(inner.version, hw.regs, action, reply);
            &&& next.sized()
            &&& base.len() <= after.commands.len()
            &&& next == start.told_all(after.commands.skip(base.len() as int))
        }),
{
    match (action, reply) {
        (Action::Write(RegWrite::Cmdr(c)), Reply::Ack) => {
            lemma_served(disk, inner, timeout, hw, c);
            let n = base.len() as int;
            let more = hw.commands.push((c.cmdindex, hw.regs.argument));
            assert(more.skip(n).drop_last() =~= hw.commands.skip(n));
            assert(more.skip(n).last() == (c.cmdindex, hw.regs.argument));
        },
        _ => {},
    }
}

proof fn lemma_disk_after_write(
    inner: SdmmcInner,
    card: CardModel,
    block_idx: u32,
    timeout: u32,
    hw: Hw,
    disk: Disk,
    replies: Seq<Reply>,
)
    requires
        block_address(card.card_type, block_idx) <= u32::MAX,
        disk.sized(),
    ensures
        ({
            let address = block_address(card.card_type, block_idx) as u32;
            let start = Writing { write: WriteState::start(inner, address, timeout), card, hw };
            let s = start.replay(replies);
            let after = disk_after_write(start, disk, replies);
            &&& after.sized()
            &&& hw.commands.len() <= s.hw.commands.len()
            &&& after == disk.told_all(s.hw.commands.skip(hw.commands.len() as int))
            &&& s.write.inner == inner
        }),
    decreases replies.len(),
{
    let address = block_address(card.card_type, block_idx) as u32;
    let start = Writing { write: WriteState::start(inner, address, timeout), card, hw };
    if replies.len() == 0 {
        assert(hw.commands.skip(hw.commands.len() as int) =~= Seq::<(u8, u32)>::empty());
    } else {
        let before = replies.drop_last();
        lemma_disk_after_write(inner, card, block_idx, timeout, hw, disk, before);
        law_block_is_written(inner, card, block_idx, timeout, hw, before);
        let s = start.replay(before);
        lemma_disk_step(
            disk_after_write(start, disk, before),
            inner,
            timeout,
            s.hw,
            hw.commands,
            disk,
            s.write.action(),
            replies.last(),
        );
    }
}

/// A block that was written well is kept by the card under the address that its capacity calls for,
/// as the memory held it, and no other block of the card has changed; and that on either revision,
/// with the direction, the lengths and the DMA as the registers have them.
pub proof fn law_block_asked_for_is_kept(
    inner: SdmmcInner,
    card: CardModel,
    block_idx: u32,
    timeout: u32,
    hw: Hw,
    disk: Disk,
    replies: Seq<Reply>,
)
    requires
        block_address(card.card_type, block_idx) <= u32::MAX,
        disk.sized(),
        ({
            let address = block_address(card.card_type, block_idx) as u32;
            let start = Writing { write: WriteState::start(inner, address, timeout), card, hw };
            start.replay(replies).write.action() matches Action::Done(r) && r is Ok
        }),
    ensures
        ({
            let address = block_address(card.card_type, block_idx) as u32;
            let start = Writing { write: WriteState::start(inner, address, timeout), card, hw };
            &&& names_block(card.card_type, block_idx as int, address)
            &&& disk_after_write(start, disk, replies) == (Disk {
                blocks: disk.blocks.insert(address, disk.memory),
                ..disk
            })
        }),
{
    let address = block_address(card.card_type, block_idx) as u32;
    let start = Writing { write: WriteState::start(inner, address, timeout), card, hw };
    let s = start.replay(replies);
    lemma_disk_after_write(inner, card, block_idx, timeout, hw, disk, replies);
    law_block_is_written(inner, card, block_idx, timeout, hw, replies);
    lemma_told_write(disk, s.hw.commands, hw.commands, address, card.rca);
}

/// What a card makes of the commands of a write.
proof fn lemma_told_write(
    disk: Disk,
    all: Seq<(u8, u32)>,
    before: Seq<(u8, u32)>,
    address: u32,
    rca: u32,
)
    requires
        then_asks(all, before + writing_commands(address), rca),
    ensures
        disk.told_all(all.skip(before.len() as int)) == disk.told((24u8, address)),
{
    let n = before.len() as int;
    let commands = all.skip(n);
    let first = writing_commands(address);
    let both = before + first;
    assert(commands.take(2) =~= first) by {
        assert forall|i: int| 0 <= i < 2 implies commands[i] == first[i] by {
            assert(all.take(both.len() as int)[n + i] == both[n + i]);
        }
    }
    assert forall|i: int| 2 <= i < commands.len() implies blockless(#[trigger] commands[i]) by {
        assert(asks_status(all[n + i], rca));
    }
    lemma_told_then_blockless(disk, commands, first);
    reveal_with_fuel(Disk::told_all, 3);
    assert(first.drop_last() =~= seq![(16u8, 512u32)]);
    assert(seq![(16u8, 512u32)].drop_last() =~= Seq::<(u8, u32)>::empty());
}

proof fn lemma_disk_after_read(
    inner: SdmmcInner,
    capacity: CardCapacity,
    block_idx: u32,
    timeout: u32,
    hw: Hw,
    disk: Disk,
    replies: Seq<Reply>,
)
    requires
        block_address(capacity, block_idx) <= u32::MAX,
        disk.sized(),
    ensures
        ({
            let plan = read_block_plan(block_address(capacity, block_idx) as u32, timeout);
            let start = TransferState::start(inner, plan);
            let (t, after) = replay_transfer(start, hw, replies);
            let next = disk_after_transfer(start, hw, disk, replies);
            &&& next.sized()
            &&& hw.commands.len() <= after.commands.len()
            &&& next == disk.told_all(after.commands.skip(hw.commands.len() as int))
            &&& t.inner == inner
            &&& start.inner == inner
        }),
    decreases replies.len(),
{
    let plan = read_block_plan(block_address(capacity, block_idx) as u32, timeout);
    let start = TransferState::start(inner, plan);
    if replies.len() == 0 {
        assert(hw.commands.skip(hw.commands.len() as int) =~= Seq::<(u8, u32)>::empty());
    } else {
        let before = replies.drop_last();
        lemma_disk_after_read(inner, capacity, block_idx, timeout, hw, disk, before);
        law_block_is_read(inner, capacity, block_idx, timeout, hw, before);
        let (t, halfway) = replay_transfer(start, hw, before);
        lemma_disk_step(
            disk_after_transfer(start, hw, disk, before),
            inner,
            timeout,
            halfway,
            hw.commands,
            disk,
            t.action(),
            replies.last(),
        );
    }
}

/// A block that was read well is the one that the card keeps under the address that its capacity
/// calls for, and the card's blocks stay what they are; and that on either revision, with the
/// direction, the lengths and the DMA as the registers have them.
pub proof fn law_block_asked_for_is_handed_out(
    inner: SdmmcInner,
    capacity: CardCapacity,
    block_idx: u32,
    timeout: u32,
    hw: Hw,
    disk: Disk,
    replies: Seq<Reply>,
)
    requires
        block_address(capacity, block_idx) <= u32::MAX,
        disk.sized(),
        ({
            let plan = read_block_plan(block_address(capacity, block_idx) as u32, timeout);
            let t = replay_transfer(TransferState::start(inner, plan), hw, replies).0;
            t.action() matches Action::Done(r) && r is Ok
        }),
    ensures
        ({
            let address = block_address(capacity, block_idx) as u32;
            let start = TransferState::start(inner, read_block_plan(address, timeout));
            &&& names_block(capacity, block_idx as int, address)
            &&& disk_after_transfer(start, hw, disk, replies) == (Disk {
                memory: disk.blocks[address],
                ..disk
            })
        }),
{
    let address = block_address(capacity, block_idx) as u32;
    let start = TransferState::start(inner, read_block_plan(address, timeout));
    let (t, after) = replay_transfer(start, hw, replies);
    lemma_disk_after_read(inner, capacity, block_idx, timeout, hw, disk, replies);
    law_block_is_read(inner, capacity, block_idx, timeout, hw, replies);
    let two = seq![(16u8, 512u32), (17u8, address)];
    assert(after.commands.skip(hw.commands.len() as int) =~= two);
    reveal_with_fuel(Disk::told_all, 3);
    assert(two.drop_last() =~= seq![(16u8, 512u32)]);
    assert(seq![(16u8, 512u32)].drop_last() =~= Seq::<(u8, u32)>::empty());
}

/// What is read of a block is what was written to it last, word for word, whichever revision wrote
/// it, whichever reads it, whatever else the registers held, and whatever the memory held that it
/// is read into; and a block of another number is read as it was before the write.
pub proof fn law_block_written_is_block_read(
    writer: SdmmcInner,
    reader: SdmmcInner,
    card: CardModel,
    block_idx: u32,
    other_idx: u32,
    timeout: u32,
    hw: Hw,
    other_hw: Hw,
    disk: Disk,
    memory: Seq<u32>,
    writing: Seq<Reply>,
    reading: Seq<Reply>,
)
    requires
        block_address(card.card_type, block_idx) <= u32::MAX,
        block_address(card.card_type, other_idx) <= u32::MAX,
        disk.sized(),
        memory.len() == 128,
        ({
            let address = block_address(card.card_type, block_idx) as u32;
            let start = Writing { write: WriteState::start(writer, address, timeout), card, hw };
            start.replay(writing).write.action() matches Action::Done(r) && r is Ok
        }),
        ({
            let plan = read_block_plan(block_address(card.card_type, other_idx) as u32, timeout);
            let t = replay_transfer(TransferState::start(reader, plan), other_hw, reading).0;
            t.action() matches Action::Done(r) && r is Ok
        }),
    ensures
        ({
            let address = block_address(card.card_type, block_idx) as u32;
            let other = block_address(card.card_type, other_idx) as u32;
            let start = Writing { write: WriteState::start(writer, address, timeout), card, hw };
            let kept = disk_after_write(start, disk, writing);
            let got = disk_after_transfer(
                TransferState::start(reader, read_block_plan(other, timeout)),
                other_hw,
                Disk { memory, ..kept },
                reading,
            );
            got.memory == if other_idx == block_idx {
                disk.memory
            } else {
                disk.blocks[other]
            }
        }),
{
    let address = block_address(card.card_type, block_idx) as u32;
    let start = Writing { write: WriteState::start(writer, address, timeout), card, hw };
    law_block_asked_for_is_kept(writer, card, block_idx, timeout, hw, disk, writing);
    let kept = Disk { memory, ..disk_after_write(start, disk, writing) };
    assert(kept.sized());
    law_block_asked_for_is_handed_out(
        reader,
        card.card_type,
        other_idx,
        timeout,
        other_hw,
        kept,
        reading,
    );
}

} // verus!
