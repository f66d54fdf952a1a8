//! Plain values shared by the whole driver.

use vstd::prelude::*;

verus! {

/// The revision of the SDMMC peripheral that the host carries.
///
/// The two revisions name their status flags differently, divide the kernel clock
/// differently, and move data differently: revision 1 leans on a DMA channel outside the
/// peripheral, revision 2 has one of its own.
#[derive(Clone, Copy, Debug, PartialEq, Eq, Structural)]
pub enum Version {
    V1,
    V2,
}

/// The signalling scheme used on the SDMMC bus
#[non_exhaustive]
#[derive(Debug, Copy, Clone, PartialEq, Eq, Structural)]
pub enum Signalling {
    SDR12,
    SDR25,
    SDR50,
    SDR104,
    DDR50,
}

impl Default for Signalling {
    fn default() -> (s: Self)
        ensures
            s == Signalling::SDR12,
    {
        Signalling::SDR12
    }
}

/// Errors
#[non_exhaustive]
#[derive(Debug, Copy, Clone, PartialEq, Eq, Structural)]
pub enum Error {
    Timeout,
    SoftwareTimeout,
    UnsupportedCardVersion,
    UnsupportedCardType,
    Crc,
    DataCrcFail,
    RxOverFlow,
    NoCard,
    BadClock,
    SignalingSwitchFailed,
    PeripheralBusy,
}

/// The number of data lines in use on the bus.
#[derive(Debug, Copy, Clone, PartialEq, Eq, Structural)]
pub enum BusWidth {
    Unknown,
    One,
    Four,
    Eight,
}

impl BusWidth {
    /// How many data lines a width stands for; none for an unknown one.
    pub open spec fn line_count(self) -> nat {
        match self {
            BusWidth::Unknown => 0,
            BusWidth::One => 1,
            BusWidth::Four => 4,
            BusWidth::Eight => 8,
        }
    }

    /// The number of data lines.
    pub fn lines(self) -> (n: u32)
        ensures
            n == self.line_count(),
    {
        match self {
            BusWidth::Unknown => 0,
            BusWidth::One => 1,
            BusWidth::Four => 4,
            BusWidth::Eight => 8,
        }
    }
}

/// How a card addresses its memory: by the byte (`SDSC`) or by the block.
#[derive(Debug, Copy, Clone, PartialEq, Eq, Structural)]
pub enum CardCapacity {
    /// Standard capacity
    SDSC,
    /// High capacity
    SDHC,
}

/// A frequency in Hertz.
#[derive(Debug, Copy, Clone, PartialEq, Eq, Structural)]
pub struct Hertz(pub u32);

/// SDMMC configuration
///
/// Default values:
/// data_transfer_timeout: 5_000_000
#[non_exhaustive]
#[derive(Debug, Copy, Clone, PartialEq, Eq, Structural)]
pub struct Config {
    /// The timeout to be set for data transfers, in card bus clock periods
    pub data_transfer_timeout: u32,
}

impl Default for Config {
    fn default() -> (c: Self)
        ensures
            c.data_transfer_timeout == 5_000_000,
    {
        Self { data_transfer_timeout: 5_000_000 }
    }
}

} // verus!
