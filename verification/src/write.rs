//! Writing a block: the transfer, and then asking the card until it is done with it.

use vstd::prelude::*;

use crate::card::{Card, CardModel};
use crate::cmd::Cmd;
use crate::init::as_numbers;
use crate::inner::SdmmcInner;
use crate::registers::{Action, Buffer, Reply};
use crate::script::Step;
use crate::transfer::{
    address_of, block_address, sd_status_plan, write_block_plan, BlockSize, Plan, Transfer,
    TransferState,
};
use crate::types::Error;
use crate::words::status_from_be;

verus! {

/// How many times a card is asked for its status after a write, before the driver gives up.
pub const STATUS_TRIES: u32 = 0x00FF_FFFF;

/// What the driver is about while it writes a block.
#[derive(Clone, Copy, Debug, PartialEq, Eq)]
pub enum WriteStage {
    /// Moving the block
    Writing,
    /// Asking for the status, with so many tries left, this one included
    Asking(u32),
    /// The write is over
    Finished(Result<(), Error>),
}

/// A block being written.
pub struct WriteState {
    /// The peripheral
    pub inner: SdmmcInner,
    /// The data timeout, in card bus clock periods
    pub timeout: u32,
    /// What the driver is about
    pub stage: WriteStage,
    /// The transfer that the stage waits for
    pub transfer: TransferState,
}

impl WriteState {
    /// A block of which nothing has been written.
    pub open spec fn start(inner: SdmmcInner, address: u32, timeout: u32) -> WriteState {
        WriteState {
            inner,
            timeout,
            stage: WriteStage::Writing,
            transfer: TransferState::start(inner, write_block_plan(address, timeout)),
        }
    }

    /// What is due.
    pub open spec fn action(self) -> Action {
        match self.stage {
            WriteStage::Finished(r) => Action::Done(r),
            _ => self.transfer.action(),
        }
    }

    /// The write over.
    pub open spec fn ended(self, r: Result<(), Error>) -> WriteState {
        WriteState { stage: WriteStage::Finished(r), ..self }
    }

    /// The stage that asks for the status of a card.
    pub open spec fn asking(self, card: CardModel, tries: u32) -> WriteState {
        WriteState {
            stage: WriteStage::Asking(tries),
            transfer: TransferState::start(self.inner, sd_status_plan(card.rca, self.timeout)),
            ..self
        }
    }

    /// What follows on the end of a transfer.
    pub open spec fn proceeded(self, card: CardModel, r: Result<(), Error>) -> (
        WriteState,
        CardModel,
    ) {
        match (self.stage, r) {
            (WriteStage::Writing, Ok(_)) => (self.asking(card, STATUS_TRIES), card),
            (WriteStage::Asking(_), Ok(_)) => (
                self.ended(Ok(())),
                CardModel { status: as_numbers(self.transfer.words), ..card },
            ),
            (WriteStage::Asking(tries), Err(Error::Timeout)) => if tries > 1 {
                (self.asking(card, (tries - 1) as u32), card)
            } else {
                (self.ended(Err(Error::SoftwareTimeout)), card)
            },
            (WriteStage::Finished(_), _) => (self, card),
            (_, Err(e)) => (self.ended(Err(e)), card),
        }
    }

    /// What a reply makes of it, and of what is known of the card.
    pub open spec fn after(self, card: CardModel, reply: Reply) -> (WriteState, CardModel) {
        match self.stage {
            WriteStage::Finished(_) => (self, card),
            _ => {
                let moved = WriteState { transfer: self.transfer.after(reply), ..self };
                match moved.transfer.action() {
                    Action::Done(r) => moved.proceeded(card, r),
                    _ => (moved, card),
                }
            },
        }
    }

    /// What has to be done where the write is given up.
    pub open spec fn abandon_steps(self) -> Seq<Step> {
        match self.stage {
            WriteStage::Finished(_) => Seq::empty(),
            _ => self.transfer.abandon_steps(),
        }
    }
}

/// A block being written.
#[derive(Debug)]
pub struct WriteBlock {
    inner: SdmmcInner,
    timeout: u32,
    stage: WriteStage,
    transfer: Transfer,
}

impl View for WriteBlock {
    type V = WriteState;

    closed spec fn view(&self) -> WriteState {
        WriteState {
            inner: self.inner,
            timeout: self.timeout,
            stage: self.stage,
            transfer: self.transfer@,
        }
    }
}

impl SdmmcInner {
    /// Writes a block.
    pub fn write_block(
        &self,
        block_idx: u32,
        card: &Card,
        data_transfer_timeout: u32,
    ) -> (op: WriteBlock)
        requires
            block_address(card.card_type, block_idx) <= u32::MAX,
        ensures
            op@ == WriteState::start(
                *self,
                block_address(card.card_type, block_idx) as u32,
                data_transfer_timeout,
            ),
    {
        // Always write 1 block of 512 bytes
        // SDSC cards are byte addressed hence the blockaddress is in multiples of 512 bytes
        let address: u32 = address_of(card.card_type, block_idx);
        self.write_at(address, data_transfer_timeout)
    }

    /// Writes the block at an address.
    pub(crate) fn write_at(&self, address: u32, data_transfer_timeout: u32) -> (op: WriteBlock)
        ensures
            op@ == WriteState::start(*self, address, data_transfer_timeout),
    {
        let transfer = Transfer::new(
            *self,
            Plan {
                block_length: Some(512),
                app: None,
                buffer: Buffer::Block,
                read: false,
                size: BlockSize::B512,
                timeout: data_transfer_timeout,
                command: Cmd::write_single_block(address),
                settle: 0,
            },
        );
        WriteBlock {
            inner: *self,
            timeout: data_transfer_timeout,
            stage: WriteStage::Writing,
            transfer,
        }
    }
}

impl WriteBlock {
    /// Tells what is due.
    pub fn action(&self) -> (a: Action)
        ensures
            a == self@.action(),
    {
        match self.stage {
            WriteStage::Finished(r) => Action::Done(r),
            _ => self.transfer.action(),
        }
    }

    /// Takes the reply to what was due. `card` is brought up to date with the status that it sent.
    pub fn resume(&mut self, card: &mut Card, reply: Reply)
        ensures
            (final(self)@, final(card)@) == old(self)@.after(old(card)@, reply),
    {
        match self.stage {
            WriteStage::Finished(_) => return,
            _ => {},
        }
        self.transfer.resume(reply);
        let r = match self.transfer.action() {
            Action::Done(r) => r,
            _ => return,
        };
        match (self.stage, r) {
            (WriteStage::Writing, Ok(_)) => {
                // Try to read card status (ACMD13)
                self.transfer = self.inner.read_sd_status(card, self.timeout);
                self.stage = WriteStage::Asking(STATUS_TRIES);
            },
            (WriteStage::Asking(_), Ok(_)) => {
                let words = self.transfer.words();
                let status = status_from_be(words);
                assert(status@ =~= as_numbers(words@));
                card.status = status;
                self.stage = WriteStage::Finished(Ok(()));
            },
            (WriteStage::Asking(tries), Err(Error::Timeout)) => {
                if tries > 1 {
                    // Try again
                    self.transfer = self.inner.read_sd_status(card, self.timeout);
                    self.stage = WriteStage::Asking(tries - 1);
                } else {
                    self.stage = WriteStage::Finished(Err(Error::SoftwareTimeout));
                }
            },
            (_, Err(e)) => {
                self.stage = WriteStage::Finished(Err(e));
            },
            (WriteStage::Finished(_), _) => {},
        }
    }

    /// Writes the script for a write that is given up.
    pub fn abandon(&self) -> (steps: Vec<Step>)
        ensures
            steps@ == self@.abandon_steps(),
    {
        match self.stage {
            WriteStage::Finished(_) => Vec::new(),
            _ => self.transfer.abandon(),
        }
    }
}

} // verus!
