//! A card and what its registers say of it.
//!
//! The registers are kept as the numbers that the card sent; what their fields mean is asked of
//! `sdio_host`.

use vstd::arithmetic::power2::pow2;
use vstd::prelude::*;

use crate::types::CardCapacity;

verus! {

/// SD Card
#[derive(Clone, Copy, Debug, PartialEq, Eq)]
pub struct Card {
    /// The type of this card
    pub card_type: CardCapacity,
    /// Operation Conditions Register
    pub ocr: u32,
    /// Relative Card Address
    pub rca: u32,
    /// Card ID
    pub cid: u128,
    /// Card Specific Data
    pub csd: u128,
    /// SD CARD Configuration Register
    pub scr: u64,
    /// SD Status
    pub status: [u32; 16],
}

/// A card as a mathematical value.
pub struct CardModel {
    pub card_type: CardCapacity,
    pub ocr: u32,
    pub rca: u32,
    pub cid: u128,
    pub csd: u128,
    pub scr: u64,
    pub status: Seq<u32>,
}

impl View for Card {
    type V = CardModel;

    open spec fn view(&self) -> CardModel {
        CardModel {
            card_type: self.card_type,
            ocr: self.ocr,
            rca: self.rca,
            cid: self.cid,
            csd: self.csd,
            scr: self.scr,
            status: self.status@,
        }
    }
}

impl CardModel {
    /// A card of which nothing is known.
    pub open spec fn unknown() -> CardModel {
        CardModel {
            card_type: CardCapacity::SDSC,
            ocr: 0,
            rca: 0,
            cid: 0,
            csd: 0,
            scr: 0,
            status: Seq::new(16, |i: int| 0u32),
        }
    }
}

impl Default for Card {
    fn default() -> (c: Self)
        ensures
            c@ == CardModel::unknown(),
    {
        let c = Card {
            card_type: CardCapacity::SDSC,
            ocr: 0,
            rca: 0,
            cid: 0,
            csd: 0,
            scr: 0,
            status: [0; 16],
        };
        assert(c@.status =~= CardModel::unknown().status);
        c
    }
}

/// The state of a card as its status register tells it.
#[derive(Clone, Copy, Debug, PartialEq, Eq, Structural)]
pub enum CurrentState {
    Ready,
    Identification,
    Standby,
    Transfer,
    Sending,
    Receiving,
    Programming,
    Disconnected,
    Error,
}

/// The card has not finished its power up: the top bit of the register is clear.
pub open spec fn busy(ocr: u32) -> bool {
    ocr < 0x8000_0000
}

/// The card addresses its memory by the block: the second bit from the top is set.
pub open spec fn high_capacity(ocr: u32) -> bool {
    ocr / 0x4000_0000 % 2 == 1
}

/// The capacity that the operation conditions register announces.
pub open spec fn capacity_of(ocr: u32) -> CardCapacity {
    if high_capacity(ocr) {
        CardCapacity::SDHC
    } else {
        CardCapacity::SDSC
    }
}

/// The card can be driven over four data lines: bit 50 of the register is set.
pub open spec fn four_lines(scr: u64) -> bool {
    scr / 0x4_0000_0000_0000 % 2 == 1
}

/// The state field of a card status: bits 9 to 12.
pub open spec fn state_of(r1: u32) -> CurrentState {
    let n = r1 / 0x200 % 0x10;
    if n == 1 {
        CurrentState::Ready
    } else if n == 2 {
        CurrentState::Identification
    } else if n == 3 {
        CurrentState::Standby
    } else if n == 4 {
        CurrentState::Transfer
    } else if n == 5 {
        CurrentState::Sending
    } else if n == 6 {
        CurrentState::Receiving
    } else if n == 7 {
        CurrentState::Programming
    } else if n == 8 {
        CurrentState::Disconnected
    } else {
        CurrentState::Error
    }
}

/// The layout of the card specific data: its two top bits.
pub open spec fn csd_layout(csd: u128) -> int {
    (csd / 0x4000_0000_0000_0000_0000_0000_0000_0000) as int
}

/// The number of blocks that the card specific data announces.
pub open spec fn block_count(csd: u128) -> nat {
    let layout = csd_layout(csd);
    if layout == 0 {
        let c_size = (csd / 0x4000_0000_0000_0000) as nat % 0x1000;
        let c_size_mult = (csd / 0x8000_0000_0000) as nat % 8;
        (c_size + 1) * pow2(c_size_mult + 2)
    } else if layout == 1 {
        ((csd / 0x1_0000_0000_0000) as nat % 0x40_0000 + 1) * 1024
    } else if layout == 2 {
        ((csd / 0x1_0000_0000_0000) as nat % 0x1000_0000 + 1) * 1024
    } else {
        0
    }
}

/// `sdio_host::OCR::is_busy` on the register with this content: true where bit 31 is clear.
#[verifier::external_body]
pub(crate) fn ocr_is_busy(ocr: u32) -> (b: bool)
    ensures
        b == busy(ocr),
{
    sdio_host::OCR::from(ocr).is_busy()
}

/// `sdio_host::OCR::high_capacity` on the register with this content: true where bit 30 is set.
#[verifier::external_body]
pub(crate) fn ocr_high_capacity(ocr: u32) -> (b: bool)
    ensures
        b == high_capacity(ocr),
{
    sdio_host::OCR::from(ocr).high_capacity()
}

/// `sdio_host::SCR::bus_width_four` on the register with this content: true where bit 50 is set.
#[verifier::external_body]
pub(crate) fn scr_bus_width_four(scr: u64) -> (b: bool)
    ensures
        b == four_lines(scr),
{
    sdio_host::SCR(scr).bus_width_four()
}

/// `sdio_host::CardStatus::state` on the status with this content: the state that bits 9 to 12
/// number, `Error` for a number that stands for no state.
#[verifier::external_body]
pub(crate) fn card_status_state(r1: u32) -> (s: CurrentState)
    ensures
        s == state_of(r1),
{
    match sdio_host::CardStatus::from(r1).state() {
        sdio_host::CurrentState::Ready => CurrentState::Ready,
        sdio_host::CurrentState::Identification => CurrentState::Identification,
        sdio_host::CurrentState::Standby => CurrentState::Standby,
        sdio_host::CurrentState::Transfer => CurrentState::Transfer,
        sdio_host::CurrentState::Sending => CurrentState::Sending,
        sdio_host::CurrentState::Receiving => CurrentState::Receiving,
        sdio_host::CurrentState::Programming => CurrentState::Programming,
        sdio_host::CurrentState::Disconnected => CurrentState::Disconnected,
        sdio_host::CurrentState::Error => CurrentState::Error,
    }
}

/// `sdio_host::CSD::block_count` on the register with this content: the count that the size
/// fields of its layout give. The call computes in 32 bits, so a larger count is left out.
#[verifier::external_body]
pub(crate) fn csd_block_count(csd: u128) -> (n: u32)
    requires
        block_count(csd) <= u32::MAX,
    ensures
        n == block_count(csd),
{
    sdio_host::CSD::from(csd).block_count()
}

impl Card {
    /// The number of blocks fits in 32 bits.
    pub open spec fn countable(self) -> bool {
        block_count(self.csd) <= u32::MAX
    }

    /// Tells whether the number of blocks fits in 32 bits.
    pub fn is_countable(&self) -> (b: bool)
        ensures
            b == self.countable(),
    {
        let layout: u128 = self.csd / 0x4000_0000_0000_0000_0000_0000_0000_0000;
        if layout == 1 {
            (self.csd / 0x1_0000_0000_0000) % 0x40_0000 < 0x3F_FFFF
        } else if layout == 2 {
            (self.csd / 0x1_0000_0000_0000) % 0x1000_0000 < 0x3F_FFFF
        } else {
            proof {
                lemma_small_count(self.csd);
            }
            true
        }
    }

    /// The number of blocks.
    pub fn blocks(&self) -> (n: u32)
        requires
            self.countable(),
        ensures
            n == block_count(self.csd),
    {
        csd_block_count(self.csd)
    }

    /// Size in bytes
    pub fn size(&self) -> (n: u64)
        requires
            self.countable(),
        ensures
            n == block_count(self.csd) * 512,
    {
        // SDHC / SDXC / SDUC
        self.blocks() as u64 * 512
    }
}

/// Of a card of which nothing is known, all is zero, and it is taken for one of standard capacity.
pub proof fn law_nothing_is_known(i: int)
    requires
        0 <= i < 16,
    ensures
        ({
            let card = CardModel::unknown();
            &&& card.card_type == CardCapacity::SDSC
            &&& card.ocr == 0 && card.rca == 0 && card.cid == 0 && card.csd == 0 && card.scr == 0
            &&& card.status.len() == 16 && card.status[i] == 0
        }),
{
}

/// In the second layout a card announces 1024 blocks for each unit of its size field, which is 22
/// bits wide from bit 48 on, and 1024 more.
pub proof fn law_blocks_in_second_layout(csd: u128, above: nat, size: nat, below: nat)
    requires
        size < 0x40_0000,
        below < 0x1_0000_0000_0000,
        above < 0x100_0000_0000_0000,
        csd == 0x4000_0000_0000_0000_0000_0000_0000_0000 + above * 0x40_0000_0000_0000_0000 + size
            * 0x1_0000_0000_0000 + below,
    ensures
        block_count(csd) == (size + 1) * 1024,
{
    let upper = (0x100_0000_0000_0000 + above) as nat;
    assert(csd / 0x1_0000_0000_0000 == upper * 0x40_0000 + size);
    assert((upper * 0x40_0000 + size) % 0x40_0000 == size);
}

/// In the third layout the size field is 28 bits wide, and means the same.
pub proof fn law_blocks_in_third_layout(csd: u128, above: nat, size: nat, below: nat)
    requires
        size < 0x1000_0000,
        below < 0x1_0000_0000_0000,
        above < 0x4_0000_0000_0000,
        csd == 0x8000_0000_0000_0000_0000_0000_0000_0000 + above * 0x1000_0000_0000_0000_0000 + size
            * 0x1_0000_0000_0000 + below,
    ensures
        block_count(csd) == (size + 1) * 1024,
{
    let upper = (0x8_0000_0000_0000 + above) as nat;
    assert(csd / 0x1_0000_0000_0000 == upper * 0x1000_0000 + size);
    assert((upper * 0x1000_0000 + size) % 0x1000_0000 == size);
}

/// In the first layout a card announces a power of two of blocks for each unit of its size field,
/// which is 12 bits wide from bit 62 on, and as many more; the power is two more than the three
/// bits from bit 47 on say.
pub proof fn law_blocks_in_first_layout(
    csd: u128,
    above: nat,
    size: nat,
    between: nat,
    power: nat,
    below: nat,
)
    requires
        above < 0x10_0000_0000_0000,
        size < 0x1000,
        between < 0x1000,
        power < 8,
        below < 0x8000_0000_0000,
        csd == above * 0x400_0000_0000_0000_0000 + size * 0x4000_0000_0000_0000 + between
            * 0x4_0000_0000_0000 + power * 0x8000_0000_0000 + below,
    ensures
        block_count(csd) == (size + 1) * pow2(power + 2),
{
    assert(csd / 0x4000_0000_0000_0000 == above * 0x1000 + size);
    assert((above * 0x1000 + size) % 0x1000 == size);
    let upper = above * 0x800_0000 + size * 0x8000 + between * 8;
    assert(csd / 0x8000_0000_0000 == upper + power);
    assert(upper == (above * 0x100_0000 + size * 0x1000 + between) * 8);
}

/// The first layout has room for few enough blocks, and the fourth announces none.
proof fn lemma_small_count(csd: u128)
    requires
        csd_layout(csd) != 1,
        csd_layout(csd) != 2,
    ensures
        block_count(csd) <= u32::MAX,
{
    let c_size = (csd / 0x4000_0000_0000_0000) as nat % 0x1000;
    let c_size_mult = (csd / 0x8000_0000_0000) as nat % 8;
    vstd::arithmetic::power2::lemma2_to64();
    assert(pow2(c_size_mult + 2) <= 512);
    assert((c_size + 1) * pow2(c_size_mult + 2) <= 0x1000 * 512) by (nonlinear_arith)
        requires
            c_size + 1 <= 0x1000,
            pow2(c_size_mult + 2) <= 512,
    ;
}

} // verus!
