//! What the driver reads from the peripheral's registers and what it writes to them, field by
//! field.

use vstd::prelude::*;

use crate::types::Error;

verus! {

/// The flags of the status register STAR that the driver looks at.
///
/// `rxact`, `txact` and `cmdact` belong to revision 1 of the peripheral, `dpsmact` and `cpsmact`
/// to revision 2.
#[derive(Clone, Copy, Debug, PartialEq, Eq, Structural)]
pub struct Star {
    /// Command response received, its checksum failed
    pub ccrcfail: bool,
    /// Data block sent or received, its checksum failed
    pub dcrcfail: bool,
    /// Command response timeout
    pub ctimeout: bool,
    /// Data timeout
    pub dtimeout: bool,
    /// Command response received, its checksum passed
    pub cmdrend: bool,
    /// Command sent, no response wanted
    pub cmdsent: bool,
    /// Data transfer ended correctly
    pub dataend: bool,
    /// Data receive in progress
    pub rxact: bool,
    /// Data transmit in progress
    pub txact: bool,
    /// Command transfer in progress
    pub cmdact: bool,
    /// Data path state machine active
    pub dpsmact: bool,
    /// Command path state machine active
    pub cpsmact: bool,
}

/// The clock control register CLKCR. `clken` belongs to revision 1.
#[derive(Clone, Copy, Debug, PartialEq, Eq, Structural)]
pub struct Clkcr {
    pub widbus: u8,
    pub clkdiv: u16,
    pub pwrsav: bool,
    pub negedge: bool,
    pub hwfc_en: bool,
    pub clken: bool,
}

/// The command register CMDR. `cmdstop` and `cmdtrans` belong to revision 2.
#[derive(Clone, Copy, Debug, PartialEq, Eq, Structural)]
pub struct Cmdr {
    pub waitint: bool,
    pub waitresp: u8,
    pub cmdindex: u8,
    pub cpsmen: bool,
    pub cmdstop: bool,
    pub cmdtrans: bool,
}

/// The interrupt clear register ICR: the flags that a write clears. The nine from `dholdc` on
/// belong to revision 2.
#[derive(Clone, Copy, Debug, PartialEq, Eq, Structural)]
pub struct Icr {
    pub ccrcfailc: bool,
    pub dcrcfailc: bool,
    pub ctimeoutc: bool,
    pub dtimeoutc: bool,
    pub txunderrc: bool,
    pub rxoverrc: bool,
    pub cmdrendc: bool,
    pub cmdsentc: bool,
    pub dataendc: bool,
    pub dbckendc: bool,
    pub sdioitc: bool,
    pub dholdc: bool,
    pub dabortc: bool,
    pub busyd0endc: bool,
    pub ackfailc: bool,
    pub acktimeoutc: bool,
    pub vswendc: bool,
    pub ckstopc: bool,
    pub idmatec: bool,
    pub idmabtcc: bool,
}

/// The interrupt mask register MASKR: which flags raise an interrupt. `dabortie` belongs to
/// revision 2.
#[derive(Clone, Copy, Debug, PartialEq, Eq, Structural)]
pub struct Maskr {
    pub dcrcfailie: bool,
    pub dtimeoutie: bool,
    pub dataendie: bool,
    pub dabortie: bool,
}

/// A change to the data control register DCTRL: a field that is `None` keeps its value.
#[derive(Clone, Copy, Debug, PartialEq, Eq)]
pub struct DctrlChange {
    pub dblocksize: Option<u8>,
    pub dtdir: Option<bool>,
    pub dmaen: Option<bool>,
    pub dten: Option<bool>,
}

/// The memory that the data path moves data from or to.
#[derive(Clone, Copy, Debug, PartialEq, Eq, Structural)]
pub enum Buffer {
    /// The block that the caller reads or writes
    Block,
    /// Sixteen words of the driver's own, for what the card tells of itself
    Scratch,
}

/// How a DMA channel groups its accesses to the peripheral.
#[derive(Clone, Copy, Debug, PartialEq, Eq, Structural)]
pub enum Burst {
    Single,
    Incr4,
}

/// Who ends a DMA transfer.
#[derive(Clone, Copy, Debug, PartialEq, Eq, Structural)]
pub enum FlowControl {
    Dma,
    Peripheral,
}

/// The options of a DMA transfer; all others stand at their defaults.
#[derive(Clone, Copy, Debug, PartialEq, Eq, Structural)]
pub struct TransferOptions {
    pub pburst: Burst,
    pub flow_ctrl: FlowControl,
}

/// One change that the driver makes to the peripheral.
#[derive(Clone, Copy, Debug, PartialEq, Eq)]
pub enum RegWrite {
    /// Writes the clock control register as a whole
    Clkcr(Clkcr),
    /// Sets the bus width field of the clock control register
    Widbus(u8),
    /// Sets the divisor field of the clock control register
    Clkdiv(u16),
    /// Sets the power control field of the power register
    Power(u8),
    /// Writes the interrupt clear register
    Icr(Icr),
    /// Writes the interrupt mask register
    Maskr(Maskr),
    /// Writes the command argument
    Argr(u32),
    /// Writes the command register
    Cmdr(Cmdr),
    /// Writes the data timer
    Dtimer(u32),
    /// Writes the data length in bytes
    Dlenr(u32),
    /// Changes the data control register
    Dctrl(DctrlChange),
    /// Starts the outside DMA channel from the data FIFO to memory
    StartDmaRead(Buffer, TransferOptions),
    /// Starts the outside DMA channel from memory to the data FIFO
    StartDmaWrite(Buffer, TransferOptions),
    /// Points the inner DMA at memory
    Idmabase0(Buffer),
    /// Switches the inner DMA on or off
    Idmaen(bool),
}

/// What the driver wants done next.
#[derive(Clone, Copy, Debug, PartialEq, Eq)]
pub enum Action {
    /// Make the change, then reply `Ack`
    Write(RegWrite),
    /// Read the status register, reply `Status`
    ReadStatus,
    /// Register to be woken by the interrupt, then read the status register; reply `Status`
    PollStatus,
    /// Sleep until woken, reply `Ack`
    Suspend,
    /// Read the response register of this number, reply `Response`
    ReadResponse(u8),
    /// Read the scratch buffer, reply `Words`
    ReadWords,
    /// Let this many idle instructions pass, reply `Ack`
    Delay(u32),
    /// Nothing: the work is finished, with this result
    Done(Result<(), Error>),
}

/// What came of an `Action`.
#[derive(Clone, Copy, Debug, PartialEq, Eq)]
pub enum Reply {
    Ack,
    Status(Star),
    Response(u32),
    Words([u32; 16]),
}

} // verus!
