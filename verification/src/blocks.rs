//! Several blocks in a row, one after the other.

use vstd::prelude::*;

use crate::card::{Card, CardModel};
use crate::inner::SdmmcInner;
use crate::registers::{Action, Reply};
use crate::script::Step;
use crate::transfer::{address_of, block_address, read_block_plan, Transfer, TransferState};
use crate::types::{CardCapacity, Error};
use crate::write::{WriteBlock, WriteState};

verus! {

/// Every block of the run can be addressed on a card of this capacity.
pub open spec fn addressable(capacity: CardCapacity, start: u32, count: u32) -> bool {
    &&& start + count <= u32::MAX
    &&& count > 0 ==> block_address(capacity, (start + count - 1) as u32) <= u32::MAX
}

/// A run of blocks that can all be addressed.
#[derive(Clone, Copy, Debug)]
struct Extent {
    capacity: CardCapacity,
    start: u32,
    count: u32,
}

impl Extent {
    #[verifier::type_invariant]
    spec fn valid(self) -> bool {
        addressable(self.capacity, self.start, self.count)
    }

    /// The block of this number, counted from 0.
    fn block(&self, index: u32) -> (block_idx: u32)
        requires
            index < self.count,
        ensures
            block_idx == self.start + index,
            block_address(self.capacity, block_idx) <= u32::MAX,
    {
        proof {
            use_type_invariant(self);
        }
        self.start + index
    }
}

/// How far a run of blocks has come.
pub enum BlocksStage<S> {
    /// On the block of this number, counted from 0
    Block(u32, S),
    /// The run is over
    Finished(Result<(), Error>),
}

/// Blocks being read.
pub struct ReadBlocksState {
    pub inner: SdmmcInner,
    pub capacity: CardCapacity,
    pub timeout: u32,
    /// The first block
    pub start: u32,
    /// How many blocks
    pub count: u32,
    pub stage: BlocksStage<TransferState>,
}

impl ReadBlocksState {
    /// The run at its block of this number, or over.
    pub open spec fn at_block(self, index: int) -> ReadBlocksState {
        let stage = if index < self.count {
            let address = block_address(self.capacity, (self.start + index) as u32) as u32;
            BlocksStage::Block(
                index as u32,
                TransferState::start(self.inner, read_block_plan(address, self.timeout)),
            )
        } else {
            BlocksStage::Finished(Ok(()))
        };
        ReadBlocksState { stage, ..self }
    }

    /// A run of which nothing has been read.
    pub open spec fn begin(
        inner: SdmmcInner,
        capacity: CardCapacity,
        timeout: u32,
        start: u32,
        count: u32,
    ) -> ReadBlocksState {
        ReadBlocksState {
            inner,
            capacity,
            timeout,
            start,
            count,
            stage: BlocksStage::Finished(Ok(())),
        }.at_block(0)
    }

    /// What is due.
    pub open spec fn action(self) -> Action {
        match self.stage {
            BlocksStage::Block(_, t) => t.action(),
            BlocksStage::Finished(r) => Action::Done(r),
        }
    }

    /// What a reply makes of it.
    pub open spec fn after(self, reply: Reply) -> ReadBlocksState {
        match self.stage {
            BlocksStage::Block(index, t) => {
                let moved = t.after(reply);
                match moved.action() {
                    Action::Done(Ok(_)) => self.at_block(index + 1),
                    Action::Done(Err(e)) => ReadBlocksState {
                        stage: BlocksStage::Finished(Err(e)),
                        ..self
                    },
                    _ => ReadBlocksState { stage: BlocksStage::Block(index, moved), ..self },
                }
            },
            BlocksStage::Finished(_) => self,
        }
    }

    /// What has to be done where the run is given up.
    pub open spec fn abandon_steps(self) -> Seq<Step> {
        match self.stage {
            BlocksStage::Block(_, t) => t.abandon_steps(),
            BlocksStage::Finished(_) => Seq::empty(),
        }
    }
}

/// Blocks being read.
pub struct ReadBlocks {
    inner: SdmmcInner,
    extent: Extent,
    timeout: u32,
    stage: BlocksStage<Transfer>,
}

impl View for ReadBlocks {
    type V = ReadBlocksState;

    closed spec fn view(&self) -> ReadBlocksState {
        ReadBlocksState {
            inner: self.inner,
            capacity: self.extent.capacity,
            timeout: self.timeout,
            start: self.extent.start,
            count: self.extent.count,
            stage: match self.stage {
                BlocksStage::Block(i, t) => BlocksStage::Block(i, t@),
                BlocksStage::Finished(r) => BlocksStage::Finished(r),
            },
        }
    }
}

impl ReadBlocks {
    /// Starts on a run of blocks.
    pub fn new(
        inner: SdmmcInner,
        capacity: CardCapacity,
        timeout: u32,
        start: u32,
        count: u32,
    ) -> (r: ReadBlocks)
        requires
            addressable(capacity, start, count),
        ensures
            r@ == ReadBlocksState::begin(inner, capacity, timeout, start, count),
    {
        let stage = if count > 0 {
            BlocksStage::Block(0, inner.read_block(start, capacity, timeout))
        } else {
            BlocksStage::Finished(Ok(()))
        };
        ReadBlocks { inner, extent: Extent { capacity, start, count }, timeout, stage }
    }

    /// Tells what is due.
    pub fn action(&self) -> (a: Action)
        ensures
            a == self@.action(),
    {
        match &self.stage {
            BlocksStage::Block(_, t) => t.action(),
            BlocksStage::Finished(r) => Action::Done(*r),
        }
    }

    /// The number of the block that is being read, counted from 0.
    pub fn index(&self) -> (i: Option<u32>)
        ensures
            i == (match self@.stage {
                BlocksStage::Block(n, _) => Some(n),
                BlocksStage::Finished(_) => None::<u32>,
            }),
    {
        match &self.stage {
            BlocksStage::Block(n, _) => Some(*n),
            BlocksStage::Finished(_) => None,
        }
    }

    /// Takes the reply to what was due.
    pub fn resume(&mut self, reply: Reply)
        ensures
            final(self)@ == old(self)@.after(reply),
    {
        let (index, outcome): (u32, Action) = match &mut self.stage {
            BlocksStage::Block(n, t) => {
                t.resume(reply);
                (*n, t.action())
            },
            BlocksStage::Finished(_) => return,
        };
        match outcome {
            Action::Done(Ok(_)) => {
                if index < self.extent.count && index + 1 < self.extent.count {
                    let next = self.inner.read_block(
                        self.extent.block(index + 1),
                        self.extent.capacity,
                        self.timeout,
                    );
                    self.stage = BlocksStage::Block(index + 1, next);
                } else {
                    self.stage = BlocksStage::Finished(Ok(()));
                }
            },
            Action::Done(Err(e)) => {
                self.stage = BlocksStage::Finished(Err(e));
            },
            _ => {},
        }
    }

    /// Writes the script for a run that is given up.
    pub fn abandon(&self) -> (steps: Vec<Step>)
        ensures
            steps@ == self@.abandon_steps(),
    {
        match &self.stage {
            BlocksStage::Block(_, t) => t.abandon(),
            BlocksStage::Finished(_) => Vec::new(),
        }
    }
}

/// Blocks being written.
pub struct WriteBlocksState {
    pub inner: SdmmcInner,
    pub capacity: CardCapacity,
    pub timeout: u32,
    /// The first block
    pub start: u32,
    /// How many blocks
    pub count: u32,
    pub stage: BlocksStage<WriteState>,
}

impl WriteBlocksState {
    /// The run at its block of this number, or over.
    pub open spec fn at_block(self, index: int) -> WriteBlocksState {
        let stage = if index < self.count {
            let address = block_address(self.capacity, (self.start + index) as u32) as u32;
            BlocksStage::Block(
                index as u32,
                WriteState::start(self.inner, address, self.timeout),
            )
        } else {
            BlocksStage::Finished(Ok(()))
        };
        WriteBlocksState { stage, ..self }
    }

    /// A run of which nothing has been written.
    pub open spec fn begin(
        inner: SdmmcInner,
        capacity: CardCapacity,
        timeout: u32,
        start: u32,
        count: u32,
    ) -> WriteBlocksState {
        WriteBlocksState {
            inner,
            capacity,
            timeout,
            start,
            count,
            stage: BlocksStage::Finished(Ok(())),
        }.at_block(0)
    }

    /// What is due.
    pub open spec fn action(self) -> Action {
        match self.stage {
            BlocksStage::Block(_, w) => w.action(),
            BlocksStage::Finished(r) => Action::Done(r),
        }
    }

    /// What a reply makes of it, and of what is known of the card.
    pub open spec fn after(self, card: CardModel, reply: Reply) -> (WriteBlocksState, CardModel) {
        match self.stage {
            BlocksStage::Block(index, w) => {
                let (moved, card) = w.after(card, reply);
                let next = match moved.action() {
                    Action::Done(Ok(_)) => self.at_block(index + 1),
                    Action::Done(Err(e)) => WriteBlocksState {
                        stage: BlocksStage::Finished(Err(e)),
                        ..self
                    },
                    _ => WriteBlocksState { stage: BlocksStage::Block(index, moved), ..self },
                };
                (next, card)
            },
            BlocksStage::Finished(_) => (self, card),
        }
    }

    /// What has to be done where the run is given up.
    pub open spec fn abandon_steps(self) -> Seq<Step> {
        match self.stage {
            BlocksStage::Block(_, w) => w.abandon_steps(),
            BlocksStage::Finished(_) => Seq::empty(),
        }
    }
}

/// Blocks being written.
pub struct WriteBlocks {
    inner: SdmmcInner,
    extent: Extent,
    timeout: u32,
    stage: BlocksStage<WriteBlock>,
}

impl View for WriteBlocks {
    type V = WriteBlocksState;

    closed spec fn view(&self) -> WriteBlocksState {
        WriteBlocksState {
            inner: self.inner,
            capacity: self.extent.capacity,
            timeout: self.timeout,
            start: self.extent.start,
            count: self.extent.count,
            stage: match self.stage {
                BlocksStage::Block(i, w) => BlocksStage::Block(i, w@),
                BlocksStage::Finished(r) => BlocksStage::Finished(r),
            },
        }
    }
}

impl WriteBlocks {
    /// Starts on a run of blocks.
    pub fn new(
        inner: SdmmcInner,
        card: &Card,
        timeout: u32,
        start: u32,
        count: u32,
    ) -> (r: WriteBlocks)
        requires
            addressable(card.card_type, start, count),
        ensures
            r@ == WriteBlocksState::begin(inner, card.card_type, timeout, start, count),
    {
        let stage = if count > 0 {
            BlocksStage::Block(0, inner.write_block(start, card, timeout))
        } else {
            BlocksStage::Finished(Ok(()))
        };
        let extent = Extent { capacity: card.card_type, start, count };
        WriteBlocks { inner, extent, timeout, stage }
    }

    /// Tells what is due.
    pub fn action(&self) -> (a: Action)
        ensures
            a == self@.action(),
    {
        match &self.stage {
            BlocksStage::Block(_, w) => w.action(),
            BlocksStage::Finished(r) => Action::Done(*r),
        }
    }

    /// The number of the block that is being written, counted from 0.
    pub fn index(&self) -> (i: Option<u32>)
        ensures
            i == (match self@.stage {
                BlocksStage::Block(n, _) => Some(n),
                BlocksStage::Finished(_) => None::<u32>,
            }),
    {
        match &self.stage {
            BlocksStage::Block(n, _) => Some(*n),
            BlocksStage::Finished(_) => None,
        }
    }

    /// Takes the reply to what was due. `card` is brought up to date with the status that it sent.
    pub fn resume(&mut self, card: &mut Card, reply: Reply)
        ensures
            (final(self)@, final(card)@) == old(self)@.after(old(card)@, reply),
    {
        let (index, outcome): (u32, Action) = match &mut self.stage {
            BlocksStage::Block(n, w) => {
                w.resume(card, reply);
                (*n, w.action())
            },
            BlocksStage::Finished(_) => return,
        };
        match outcome {
            Action::Done(Ok(_)) => {
                if index < self.extent.count && index + 1 < self.extent.count {
                    let address: u32 = address_of(
                        self.extent.capacity,
                        self.extent.block(index + 1),
                    );
                    let next = self.inner.write_at(address, self.timeout);
                    self.stage = BlocksStage::Block(index + 1, next);
                } else {
                    self.stage = BlocksStage::Finished(Ok(()));
                }
            },
            Action::Done(Err(e)) => {
                self.stage = BlocksStage::Finished(Err(e));
            },
            _ => {},
        }
    }

    /// Writes the script for a run that is given up.
    pub fn abandon(&self) -> (steps: Vec<Step>)
        ensures
            steps@ == self@.abandon_steps(),
    {
        match &self.stage {
            BlocksStage::Block(_, w) => w.abandon(),
            BlocksStage::Finished(_) => Vec::new(),
        }
    }
}

} // verus!
