//! What the registers of the peripheral hold, and what they must hold when a command is sent.
//!
//! `Regs` is the register file as the driver's own writes leave it. A card takes a data command
//! at its word: the command alone says which way the data goes, how much of it there is and whose
//! it is. `moves` is that table, and `Regs::fits` says that the peripheral was told the same.

use vstd::arithmetic::power2::pow2;
use vstd::prelude::*;

use crate::cmd::Response;
use crate::registers::{
    Buffer, Burst, Cmdr, FlowControl, Icr, Maskr, RegWrite, Star, TransferOptions,
};
use crate::script::Step;
use crate::types::{Error, Version};

verus! {

/// What an outside DMA channel was started for.
pub struct Channel {
    /// The data goes into memory
    pub to_host: bool,
    /// The memory
    pub buffer: Buffer,
    pub options: TransferOptions,
}

/// The registers that the driver writes.
pub struct Regs {
    /// The command argument
    pub argument: u32,
    /// The command that was sent last, and whether CMD55 went right before it
    pub last: Option<(u8, bool)>,
    /// The argument of that command
    pub last_argument: u32,
    /// The kind of answer that the last command still waits for; once the flags are cleared, its
    /// end can no longer be told
    pub waits: Option<u8>,
    /// The block length that CMD16 announced last
    pub announced: Option<u32>,
    /// The flags that were cleared since the last command
    pub cleared: Option<Icr>,
    /// The flags that raise interrupts
    pub mask: Option<Maskr>,
    /// The data timer
    pub timer: u32,
    /// The data length in bytes
    pub length: u32,
    /// The block size, as a power of two
    pub exponent: u8,
    /// The data goes from the card to the host
    pub to_host: bool,
    /// The data path is served by DMA
    pub dmaen: bool,
    /// The data path is told to move data
    pub dten: bool,
    /// What the outside DMA channel was started for last
    pub channel: Option<Channel>,
    /// The memory that the inner DMA points at
    pub base: Option<Buffer>,
    /// The inner DMA is on
    pub idma: bool,
    /// How many idle instructions have passed since the last command
    pub paused: nat,
}

/// The data that goes with a command.
pub struct Data {
    /// How many bytes
    pub length: u32,
    /// The same as a power of two
    pub exponent: u8,
    /// It goes from the card to the host
    pub to_host: bool,
    /// Where it goes to or comes from
    pub buffer: Buffer,
}

/// The data that goes with a command, by its number and by whether it is an application command:
/// a block for CMD17 and CMD24, the eight bytes of the configuration register for ACMD51, the
/// sixty-four of the SD status for ACMD13 and of the switch status for CMD6. All of it comes from
/// the card but for the block of CMD24.
pub open spec fn moves(index: u8, app: bool) -> Option<Data> {
    if index == 17 && !app {
        Some(Data { length: 512, exponent: 9, to_host: true, buffer: Buffer::Block })
    } else if index == 24 && !app {
        Some(Data { length: 512, exponent: 9, to_host: false, buffer: Buffer::Block })
    } else if index == 51 && app {
        Some(Data { length: 8, exponent: 3, to_host: true, buffer: Buffer::Scratch })
    } else if index == 13 && app {
        Some(Data { length: 64, exponent: 6, to_host: true, buffer: Buffer::Scratch })
    } else if index == 6 && !app {
        Some(Data { length: 64, exponent: 6, to_host: true, buffer: Buffer::Scratch })
    } else {
        None
    }
}

/// The data of every command is a single block of a size that is a power of two.
pub proof fn law_data_is_one_block(index: u8, app: bool)
    ensures
        moves(index, app) matches Some(d) ==> d.length == pow2(d.exponent as nat),
{
    vstd::arithmetic::power2::lemma2_to64();
}

/// The kind of answer to a command: none to CMD0, a long one to CMD2 and CMD9, else a short one.
pub open spec fn answer_kind(index: u8) -> u8 {
    if index == 0 {
        0
    } else if index == 2 || index == 9 {
        3
    } else {
        1
    }
}

/// CMD55 goes right before the commands that are application commands only, and never before one
/// that moves a block.
pub open spec fn in_its_place(index: u8, after_app: bool) -> bool {
    &&& index == 41 || index == 51 ==> after_app
    &&& index == 17 || index == 24 ==> !after_app
}

/// A status that shows the end of a command with this kind of answer.
pub open spec fn shows_end(kind: u8, s: Star) -> bool {
    if kind == 0 {
        s.ctimeout || s.cmdsent
    } else {
        s.ctimeout || s.cmdrend || s.ccrcfail
    }
}

/// What a status that shows the end of a command shows to be wrong.
pub open spec fn shows_fault(s: Star) -> Option<Error> {
    if s.ctimeout {
        Some(Error::Timeout)
    } else if s.ccrcfail {
        Some(Error::Crc)
    } else {
        None
    }
}

/// What a status shows to be wrong with the data.
pub open spec fn shows_data_fault(s: Star) -> Option<Error> {
    if s.dcrcfail {
        Some(Error::Crc)
    } else if s.dtimeout {
        Some(Error::Timeout)
    } else {
        None
    }
}

/// All flags that a revision has are cleared.
pub open spec fn clears_all(version: Version, f: Icr) -> bool {
    &&& f.ccrcfailc && f.dcrcfailc && f.ctimeoutc && f.dtimeoutc && f.txunderrc && f.rxoverrc
    &&& f.cmdrendc && f.cmdsentc && f.dataendc && f.dbckendc && f.sdioitc
    &&& version == Version::V2 ==> {
        &&& f.dholdc && f.dabortc && f.busyd0endc && f.ackfailc && f.acktimeoutc
        &&& f.vswendc && f.ckstopc && f.idmatec && f.idmabtcc
    }
}

/// The end of the data and whatever can go wrong with it raises an interrupt.
pub open spec fn lets_through(version: Version, m: Maskr) -> bool {
    &&& m.dcrcfailie && m.dtimeoutie && m.dataendie
    &&& m.dabortie == (version == Version::V2)
}

/// The data path is in progress, as each revision shows it.
pub open spec fn data_busy(version: Version, s: Star) -> bool {
    match version {
        Version::V1 => s.rxact || s.txact,
        Version::V2 => s.dpsmact,
    }
}

/// The command path is in progress, as each revision shows it.
pub open spec fn command_busy(version: Version, s: Star) -> bool {
    match version {
        Version::V1 => s.cmdact,
        Version::V2 => s.cpsmact,
    }
}

impl Regs {
    /// The last command was CMD55.
    pub open spec fn after_app(self) -> bool {
        self.last matches Some(l) && l.0 == 55
    }

    /// After a change.
    pub open spec fn written(self, w: RegWrite) -> Regs {
        match w {
            RegWrite::Argr(a) => Regs { argument: a, ..self },
            RegWrite::Cmdr(c) => Regs {
                last: Some((c.cmdindex, self.after_app())),
                last_argument: self.argument,
                waits: if c.cmdindex == 12 {
                    None
                } else {
                    Some(c.waitresp)
                },
                announced: if c.cmdindex == 16 {
                    Some(self.argument)
                } else {
                    self.announced
                },
                cleared: None,
                paused: 0,
                ..self
            },
            RegWrite::Icr(f) => Regs { cleared: Some(f), waits: None, ..self },
            RegWrite::Maskr(m) => Regs { mask: Some(m), ..self },
            RegWrite::Dtimer(n) => Regs { timer: n, ..self },
            RegWrite::Dlenr(n) => Regs { length: n, ..self },
            RegWrite::Dctrl(c) => Regs {
                exponent: match c.dblocksize {
                    Some(n) => n,
                    None => self.exponent,
                },
                to_host: match c.dtdir {
                    Some(b) => b,
                    None => self.to_host,
                },
                dmaen: match c.dmaen {
                    Some(b) => b,
                    None => self.dmaen,
                },
                dten: match c.dten {
                    Some(b) => b,
                    None => self.dten,
                },
                ..self
            },
            RegWrite::StartDmaRead(buffer, options) => Regs {
                channel: Some(Channel { to_host: true, buffer, options }),
                ..self
            },
            RegWrite::StartDmaWrite(buffer, options) => Regs {
                channel: Some(Channel { to_host: false, buffer, options }),
                ..self
            },
            RegWrite::Idmabase0(buffer) => Regs { base: Some(buffer), ..self },
            RegWrite::Idmaen(b) => Regs { idma: b, ..self },
            _ => self,
        }
    }

    /// After the end of the last command was seen.
    pub open spec fn answered(self) -> Regs {
        Regs { waits: None, ..self }
    }

    /// After idle instructions.
    pub open spec fn idled(self, n: u32) -> Regs {
        Regs { paused: self.paused + n as nat, ..self }
    }

    /// The peripheral was told all of the data: how much, in blocks of which size, which way, how
    /// long to wait for it and where it is; and its end raises an interrupt.
    pub open spec fn prepared(self, version: Version, d: Data, timeout: u32) -> bool {
        &&& self.length == d.length
        &&& self.exponent == d.exponent
        &&& self.to_host == d.to_host
        &&& self.timer == timeout
        &&& self.mask matches Some(m)
        &&& lets_through(version, m)
        &&& match version {
            Version::V1 => {
                &&& self.channel matches Some(ch)
                &&& ch.to_host == d.to_host
                &&& ch.buffer == d.buffer
                &&& ch.options.pburst == Burst::Incr4
                &&& ch.options.flow_ctrl == FlowControl::Peripheral
                &&& d.to_host ==> self.dmaen && self.dten
            },
            Version::V2 => self.idma && self.base == Some(d.buffer),
        }
    }

    /// This command may be sent: it asks for the answer that the card gives to it, no other command
    /// waits for its answer, all flags were cleared, and where data goes with it the peripheral was
    /// told all of that data, and the card how long its blocks are.
    pub open spec fn fits(self, version: Version, timeout: u32, c: Cmdr) -> bool {
        &&& !c.waitint
        &&& c.cpsmen
        &&& c.waitresp == answer_kind(c.cmdindex)
        &&& c.cmdstop == (version == Version::V2 && c.cmdindex == 12)
        &&& c.cmdindex != 12 ==> self.waits is None
        &&& self.cleared matches Some(f) && clears_all(version, f)
        &&& in_its_place(c.cmdindex, self.after_app())
        &&& match moves(c.cmdindex, self.after_app()) {
            Some(d) => {
                &&& self.prepared(version, d, timeout)
                &&& c.cmdtrans == (version == Version::V2)
                &&& c.cmdindex != 6 ==> self.announced == Some(d.length)
            },
            None => !c.cmdtrans,
        }
    }

    /// The data that goes with the last command is prepared.
    pub open spec fn awaits_data(self, version: Version, timeout: u32) -> bool {
        &&& self.last matches Some(l)
        &&& moves(l.0, l.1) matches Some(d)
        &&& self.prepared(version, d, timeout)
        &&& self.waits is None
    }
}

/// The kind of answer that a step waits for.
pub open spec fn awaited_kind(resp: Response) -> u8 {
    match resp {
        Response::Absent => 0,
        Response::Short => 1,
        Response::Long => 3,
    }
}

/// A command whose failure may be none: ACMD41 has no valid checksum, and CMD7 may go unanswered.
pub open spec fn lenient(index: u8) -> bool {
    index == 41 || index == 7
}

/// What a script is for.
pub enum Aim {
    /// It ends with data under way
    Data,
    /// It fails where any of its commands does
    Strict,
    /// It holds a command whose failure may be none
    Lenient,
}

/// A script from step `at` on sends each command when it fits, waits for the answer that the
/// command asked for, and reads responses and looks at the paths only when no answer is
/// outstanding; and it is for what `aim` says.
pub open spec fn fits_all(
    steps: Seq<Step>,
    at: nat,
    regs: Regs,
    version: Version,
    timeout: u32,
    aim: Aim,
) -> bool
    decreases steps.len() - at,
{
    if at >= steps.len() {
        &&& regs.waits is None
        &&& aim == Aim::Data ==> regs.awaits_data(version, timeout)
    } else {
        match steps[at as int] {
            Step::Write(w) => {
                &&& w matches RegWrite::Cmdr(c) ==> regs.fits(version, timeout, c)
                &&& fits_all(steps, at + 1, regs.written(w), version, timeout, aim)
            },
            Step::AwaitAnswer(resp) => {
                &&& regs.waits == Some(awaited_kind(resp))
                &&& aim != Aim::Lenient ==> (regs.last matches Some(l) && !lenient(l.0))
                &&& fits_all(steps, at + 1, regs.answered(), version, timeout, aim)
            },
            Step::ReadResponse(k) => {
                &&& regs.waits is None
                &&& k < 4
                &&& fits_all(steps, at + 1, regs, version, timeout, aim)
            },
            Step::Delay(n) => fits_all(steps, at + 1, regs.idled(n), version, timeout, aim),
            Step::AwaitIdle(_) => {
                &&& regs.waits is None
                &&& fits_all(steps, at + 1, regs, version, timeout, aim)
            },
            Step::IfDataActive(n) => {
                &&& regs.waits is None
                &&& at + 1 + n <= steps.len()
                &&& fits_all(steps, at + 1, regs, version, timeout, aim)
                &&& fits_all(steps, at + 1 + n as nat, regs, version, timeout, aim)
            },
        }
    }
}

/// The second part of a script fits as it does on its own.
pub proof fn lemma_fits_shift(
    a: Seq<Step>,
    b: Seq<Step>,
    at: nat,
    regs: Regs,
    version: Version,
    timeout: u32,
    aim: Aim,
)
    ensures
        fits_all(a + b, a.len() + at, regs, version, timeout, aim) == fits_all(
            b,
            at,
            regs,
            version,
            timeout,
            aim,
        ),
    decreases b.len() - at,
{
    let s = a + b;
    if at < b.len() {
        assert(s[(a.len() + at) as int] == b[at as int]);
        match b[at as int] {
            Step::Write(w) => lemma_fits_shift(
                a,
                b,
                at + 1,
                regs.written(w),
                version,
                timeout,
                aim,
            ),
            Step::AwaitAnswer(_) => lemma_fits_shift(
                a,
                b,
                at + 1,
                regs.answered(),
                version,
                timeout,
                aim,
            ),
            Step::Delay(n) => lemma_fits_shift(
                a,
                b,
                at + 1,
                regs.idled(n),
                version,
                timeout,
                aim,
            ),
            Step::IfDataActive(n) => {
                lemma_fits_shift(a, b, at + 1, regs, version, timeout, aim);
                if at + 1 + n <= b.len() {
                    lemma_fits_shift(a, b, at + 1 + n as nat, regs, version, timeout, aim);
                }
            },
            _ => lemma_fits_shift(a, b, at + 1, regs, version, timeout, aim),
        }
    }
}

} // verus!
