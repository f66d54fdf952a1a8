//! The device as its users see it.

use vstd::prelude::*;

use crate::blocks::{addressable, ReadBlocks, ReadBlocksState, WriteBlocks, WriteBlocksState};
use crate::card::{block_count, Card, CardModel};
use crate::clock::clk_div_spec;
use crate::init::{InitCard, InitState};
use crate::inner::SdmmcInner;
use crate::link::{Link, LinkModel};
use crate::registers::{RegWrite, Reply};
use crate::script::Step;
use crate::transfer::{block_address, read_block_plan, Transfer, TransferState};
use crate::types::{BusWidth, Config, Error, Hertz, Signalling};
use crate::write::{WriteBlock, WriteState};

verus! {

/// A device as a mathematical value.
pub struct DeviceModel {
    pub inner: SdmmcInner,
    pub config: Config,
    pub link: LinkModel,
}

impl DeviceModel {
    /// The same device with this card.
    pub open spec fn with_card(self, card: CardModel) -> DeviceModel {
        DeviceModel { link: LinkModel { card: Some(card), ..self.link }, ..self }
    }
}

/// Sdmmc device
#[derive(Debug)]
pub struct Sdmmc {
    inner: SdmmcInner,
    config: Config,
    link: Link,
}

impl View for Sdmmc {
    type V = DeviceModel;

    closed spec fn view(&self) -> DeviceModel {
        DeviceModel { inner: self.inner, config: self.config, link: self.link@ }
    }
}

impl Sdmmc {
    /// A device without a card, and the script that sets its peripheral up.
    pub fn new(inner: SdmmcInner, config: Config, kernel_clk: Hertz) -> (r: (Sdmmc, Vec<Step>))
        requires
            clk_div_spec(inner.version, kernel_clk, 400_000) is Ok,
        ensures
            r.0@.inner == inner,
            r.0@.config == config,
            r.0@.link.clock == clk_div_spec(inner.version, kernel_clk, 400_000)->Ok_0.1,
            r.0@.link.clock.0 <= 400_000,
            r.0@.link.signalling == Signalling::SDR12,
            r.0@.link.card is None,
            r.1@ == inner.new_steps(clk_div_spec(inner.version, kernel_clk, 400_000)->Ok_0.0),
    {
        let (steps, clock) = inner.new_inner(kernel_clk);
        let link = Link { clock, signalling: Signalling::default(), card: None };
        (Sdmmc { inner, config, link }, steps)
    }

    /// Starts to bring a card into service, at a clock of at most `freq`.
    pub fn init_card(&self, freq: Hertz, bus_width: BusWidth, ker_ck: Hertz) -> (op: InitCard)
        requires
            freq.0 > 0,
            ker_ck.0 > 0,
            bus_width != BusWidth::Eight,
        ensures
            op@ == InitState::start(
                self@.inner,
                freq,
                bus_width,
                ker_ck,
                self@.config.data_transfer_timeout,
            ),
            op@.valid(),
    {
        self.inner.init_card(freq, bus_width, ker_ck, self.config.data_transfer_timeout)
    }

    /// Takes the reply to what `op` was due.
    pub fn resume_init(&mut self, op: &mut InitCard, reply: Reply)
        ensures
            (final(op)@, final(self)@.link) == old(op)@.after(old(self)@.link, reply),
            final(self)@.inner == old(self)@.inner,
            final(self)@.config == old(self)@.config,
    {
        op.resume(&mut self.link, reply);
    }

    /// Starts to read a block.
    pub fn read_block(&self, block_idx: u32) -> (r: Result<Transfer, Error>)
        requires
            self@.link.card matches Some(card) ==> block_address(card.card_type, block_idx)
                <= u32::MAX,
        ensures
            match self@.link.card {
                Some(card) => r matches Ok(t) && t@ == TransferState::start(
                    self@.inner,
                    read_block_plan(
                        block_address(card.card_type, block_idx) as u32,
                        self@.config.data_transfer_timeout,
                    ),
                ),
                None => r matches Err(e) && e == Error::NoCard,
            },
    {
        match self.card() {
            Ok(card) => Ok(
                self.inner.read_block(
                    block_idx,
                    card.card_type,
                    self.config.data_transfer_timeout,
                ),
            ),
            Err(e) => Err(e),
        }
    }

    /// Starts to write a block.
    pub fn write_block(&self, block_idx: u32) -> (r: Result<WriteBlock, Error>)
        requires
            self@.link.card matches Some(card) ==> block_address(card.card_type, block_idx)
                <= u32::MAX,
        ensures
            match self@.link.card {
                Some(card) => r matches Ok(op) && op@ == WriteState::start(
                    self@.inner,
                    block_address(card.card_type, block_idx) as u32,
                    self@.config.data_transfer_timeout,
                ),
                None => r matches Err(e) && e == Error::NoCard,
            },
    {
        match self.card() {
            Ok(card) => Ok(
                self.inner.write_block(block_idx, card, self.config.data_transfer_timeout),
            ),
            Err(e) => Err(e),
        }
    }

    /// Takes the reply to what `op` was due; without a card nothing changes.
    pub fn resume_write(&mut self, op: &mut WriteBlock, reply: Reply)
        ensures
            match old(self)@.link.card {
                Some(card) => {
                    let (next, card) = old(op)@.after(card, reply);
                    final(op)@ == next && final(self)@ == old(self)@.with_card(card)
                },
                None => final(op)@ == old(op)@ && final(self)@ == old(self)@,
            },
    {
        match &mut self.link.card {
            Some(card) => op.resume(card, reply),
            None => {},
        }
    }

    /// Get a reference to the initialized card
    ///
    /// # Errors
    ///
    /// Returns Error::NoCard if [`init_card`](#method.init_card)
    /// has not previously succeeded
    pub fn card(&self) -> (r: Result<&Card, Error>)
        ensures
            match self@.link.card {
                Some(card) => r matches Ok(c) && c@ == card,
                None => r matches Err(e) && e == Error::NoCard,
            },
    {
        match &self.link.card {
            Some(card) => Ok(card),
            None => Err(Error::NoCard),
        }
    }

    /// Get the current SDMMC bus clock
    pub fn clock(&self) -> (f: Hertz)
        ensures
            f == self@.link.clock,
    {
        self.link.clock
    }

    /// What the interrupt handler does to the peripheral before it wakes the sleeper: it masks
    /// the interrupts that it was called for.
    pub fn on_interrupt(&self) -> (w: RegWrite)
        ensures
            w == self@.inner.mask_data(false),
    {
        self.inner.data_interrupts(false)
    }

    /// Writes the script for a device that is given up.
    pub fn release(&self) -> (steps: Vec<Step>)
        ensures
            steps@ == self@.inner.on_drop_steps(),
    {
        self.inner.on_drop()
    }

    /// Starts to read blocks in a row.
    pub fn read(&self, start_block_idx: u32, count: u32) -> (r: Result<ReadBlocks, Error>)
        requires
            self@.link.card matches Some(card) ==> addressable(
                card.card_type,
                start_block_idx,
                count,
            ),
        ensures
            match self@.link.card {
                Some(card) => r matches Ok(op) && op@ == ReadBlocksState::begin(
                    self@.inner,
                    card.card_type,
                    self@.config.data_transfer_timeout,
                    start_block_idx,
                    count,
                ),
                None => r matches Err(e) && e == Error::NoCard,
            },
    {
        match self.card() {
            Ok(card) => Ok(
                ReadBlocks::new(
                    self.inner,
                    card.card_type,
                    self.config.data_transfer_timeout,
                    start_block_idx,
                    count,
                ),
            ),
            Err(e) => Err(e),
        }
    }

    /// Starts to write blocks in a row.
    pub fn write(&self, start_block_idx: u32, count: u32) -> (r: Result<WriteBlocks, Error>)
        requires
            self@.link.card matches Some(card) ==> addressable(
                card.card_type,
                start_block_idx,
                count,
            ),
        ensures
            match self@.link.card {
                Some(card) => r matches Ok(op) && op@ == WriteBlocksState::begin(
                    self@.inner,
                    card.card_type,
                    self@.config.data_transfer_timeout,
                    start_block_idx,
                    count,
                ),
                None => r matches Err(e) && e == Error::NoCard,
            },
    {
        match self.card() {
            Ok(card) => Ok(
                WriteBlocks::new(
                    self.inner,
                    card,
                    self.config.data_transfer_timeout,
                    start_block_idx,
                    count,
                ),
            ),
            Err(e) => Err(e),
        }
    }

    /// Takes the reply to what `op` was due; without a card nothing changes.
    pub fn resume_write_blocks(&mut self, op: &mut WriteBlocks, reply: Reply)
        ensures
            match old(self)@.link.card {
                Some(card) => {
                    let (next, card) = old(op)@.after(card, reply);
                    final(op)@ == next && final(self)@ == old(self)@.with_card(card)
                },
                None => final(op)@ == old(op)@ && final(self)@ == old(self)@,
            },
    {
        match &mut self.link.card {
            Some(card) => op.resume(card, reply),
            None => {},
        }
    }

    /// How many blocks the card holds.
    pub fn num_blocks(&self) -> (r: Result<u32, Error>)
        requires
            self@.link.card matches Some(card) ==> block_count(card.csd) <= u32::MAX,
        ensures
            match self@.link.card {
                Some(card) => r matches Ok(n) && n == block_count(card.csd),
                None => r matches Err(e) && e == Error::NoCard,
            },
    {
        match self.card() {
            Ok(card) => Ok(card.blocks()),
            Err(e) => Err(e),
        }
    }
}

} // verus!
