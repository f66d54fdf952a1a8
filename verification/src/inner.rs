//! The peripheral: what its status means, and the scripts by which it is driven.

use vstd::prelude::*;

use crate::card::Card;
use crate::clock::{
    card_clock, clk_div, clk_div_spec, clkdiv_for, divider, law_card_clock, law_clkdiv_keeps_limit,
};
use crate::cmd::{rca_arg, rca_argument, short_cmd, Cmd, Response};
use crate::registers::{
    Buffer, Burst, Clkcr, Cmdr, DctrlChange, FlowControl, Icr, Maskr, RegWrite, Star,
    TransferOptions,
};
use crate::script::{Step, Wait};
use crate::types::{BusWidth, Error, Hertz, Version};

verus! {

/// The value of the power control field that switches the card off.
pub const POWER_OFF: u8 = 0b00;

/// The value of the power control field that switches the card on.
pub const POWER_ON: u8 = 0b11;

/// An SDMMC peripheral.
#[derive(Clone, Copy, Debug, PartialEq, Eq, Structural)]
pub struct SdmmcInner {
    /// The peripheral's revision
    pub version: Version,
}

/// How a data transfer went, as far as the status tells: a failed checksum, a timeout, or its
/// end.
pub open spec fn data_outcome(s: Star) -> Option<Result<(), Error>> {
    if s.dcrcfail {
        Some(Err(Error::Crc))
    } else if s.dtimeout {
        Some(Err(Error::Timeout))
    } else if s.dataend {
        Some(Ok(()))
    } else {
        None
    }
}

/// How a data transfer went, as far as the status tells.
pub fn poll_data(status: Star) -> (r: Option<Result<(), Error>>)
    ensures
        r == data_outcome(status),
{
    if status.dcrcfail {
        return Some(Err(Error::Crc));
    } else if status.dtimeout {
        return Some(Err(Error::Timeout));
    } else if status.dataend {
        return Some(Ok(()));
    }
    None
}

/// The options of every DMA transfer that the driver starts.
pub open spec fn dma_options() -> TransferOptions {
    TransferOptions { pburst: Burst::Incr4, flow_ctrl: FlowControl::Peripheral }
}

// What the status means.
impl SdmmcInner {
    /// A data transfer is in progress.
    pub open spec fn data_active_spec(self, s: Star) -> bool {
        match self.version {
            Version::V1 => s.rxact || s.txact,
            Version::V2 => s.dpsmact,
        }
    }

    /// A command transfer is in progress.
    pub open spec fn cmd_active_spec(self, s: Star) -> bool {
        match self.version {
            Version::V1 => s.cmdact,
            Version::V2 => s.cpsmact,
        }
    }

    /// Data transfer is in progress
    pub fn data_active(&self, status: Star) -> (b: bool)
        ensures
            b == self.data_active_spec(status),
    {
        match self.version {
            Version::V1 => status.rxact || status.txact,
            Version::V2 => status.dpsmact,
        }
    }

    /// Command transfer is in progress
    pub fn cmd_active(&self, status: Star) -> (b: bool)
        ensures
            b == self.cmd_active_spec(status),
    {
        match self.version {
            Version::V1 => status.cmdact,
            Version::V2 => status.cpsmact,
        }
    }
}

// The scripts, as lists of steps.
impl SdmmcInner {
    /// The register write that clears every flag of this revision.
    pub open spec fn clear_flags(self) -> RegWrite {
        let v2 = self.version == Version::V2;
        RegWrite::Icr(
            Icr {
                ccrcfailc: true,
                dcrcfailc: true,
                ctimeoutc: true,
                dtimeoutc: true,
                txunderrc: true,
                rxoverrc: true,
                cmdrendc: true,
                cmdsentc: true,
                dataendc: true,
                dbckendc: true,
                sdioitc: true,
                dholdc: v2,
                dabortc: v2,
                busyd0endc: v2,
                ackfailc: v2,
                acktimeoutc: v2,
                vswendc: v2,
                ckstopc: v2,
                idmatec: v2,
                idmabtcc: v2,
            },
        )
    }

    /// The register write that lets the flags of a data transfer raise interrupts, or none.
    pub open spec fn mask_data(self, enable: bool) -> RegWrite {
        RegWrite::Maskr(
            Maskr {
                dcrcfailie: enable,
                dtimeoutie: enable,
                dataendie: enable,
                dabortie: enable && self.version == Version::V2,
            },
        )
    }

    /// The register write that stops the DMA.
    pub open spec fn stop_dma(self) -> RegWrite {
        match self.version {
            Version::V1 => RegWrite::Dctrl(
                DctrlChange {
                    dblocksize: None,
                    dtdir: None,
                    dmaen: Some(false),
                    dten: Some(false),
                },
            ),
            Version::V2 => RegWrite::Idmaen(false),
        }
    }

    /// The command register for a command. `data` tells whether a data transfer goes with it.
    pub open spec fn command_word(self, cmd: Cmd, data: bool) -> Cmdr {
        Cmdr {
            waitint: false,
            waitresp: cmd.resp.waitresp_spec(),
            cmdindex: cmd.cmd,
            cpsmen: true,
            cmdstop: self.version == Version::V2 && cmd.cmd == 12,
            cmdtrans: self.version == Version::V2 && data,
        }
    }

    /// Sending a command: clear the flags, let the command path come to rest, write the argument
    /// and the command, await the answer.
    pub open spec fn cmd_steps(self, cmd: Cmd, data: bool) -> Seq<Step> {
        seq![
            Step::Write(self.clear_flags()),
            Step::AwaitIdle(Wait::Command),
            Step::Write(RegWrite::Argr(cmd.arg)),
            Step::Write(RegWrite::Cmdr(self.command_word(cmd, data))),
            Step::AwaitAnswer(cmd.resp),
        ]
    }

    /// Getting the data path ready to move `length` bytes in blocks of two to the power of
    /// `block_size`, into memory or out of it.
    pub open spec fn prepare_steps(
        self,
        buffer: Buffer,
        read: bool,
        length: u32,
        block_size: u8,
        timeout: u32,
    ) -> Seq<Step> {
        let head = seq![
            Step::AwaitIdle(Wait::Both),
            Step::Write(self.clear_flags()),
            Step::Write(RegWrite::Dtimer(timeout)),
            Step::Write(RegWrite::Dlenr(length)),
        ];
        let dma = match self.version {
            Version::V1 => if read {
                seq![Step::Write(RegWrite::StartDmaRead(buffer, dma_options()))]
            } else {
                seq![Step::Write(RegWrite::StartDmaWrite(buffer, dma_options()))]
            },
            Version::V2 => seq![
                Step::Write(RegWrite::Idmabase0(buffer)),
                Step::Write(RegWrite::Idmaen(true)),
            ],
        };
        let enable = if read && self.version == Version::V1 {
            Some(true)
        } else {
            None
        };
        let control = seq![
            Step::Write(
                RegWrite::Dctrl(
                    DctrlChange {
                        dblocksize: Some(block_size),
                        dtdir: Some(read),
                        dmaen: enable,
                        dten: enable,
                    },
                ),
            ),
        ];
        head + dma + control
    }

    /// Setting the bus to rest: a data transfer in progress is told to stop by CMD12 and waited
    /// for; then interrupts are masked, flags cleared and the DMA stopped.
    pub open spec fn on_drop_steps(self) -> Seq<Step> {
        seq![
            Step::IfDataActive(5),
            Step::Write(self.clear_flags()),
            Step::AwaitIdle(Wait::Command),
            Step::Write(RegWrite::Argr(0)),
            Step::Write(RegWrite::Cmdr(self.command_word(short_cmd(12, 0), false))),
            Step::AwaitIdle(Wait::Data),
            Step::Write(self.mask_data(false)),
            Step::Write(self.clear_flags()),
            Step::Write(self.stop_dma()),
        ]
    }

    /// Setting the divisor of the card clock, once nothing is in progress.
    pub open spec fn clkdiv_steps(self, clkdiv: u16) -> Seq<Step> {
        seq![Step::AwaitIdle(Wait::Both), Step::Write(RegWrite::Clkdiv(clkdiv))]
    }

    /// Setting the peripheral up: the clock control register, and the card's power off.
    pub open spec fn new_steps(self, clkdiv: u16) -> Seq<Step> {
        seq![
            Step::Write(
                RegWrite::Clkcr(
                    Clkcr {
                        widbus: 0,
                        clkdiv,
                        pwrsav: false,
                        negedge: false,
                        hwfc_en: true,
                        clken: self.version == Version::V1,
                    },
                ),
            ),
            Step::Write(RegWrite::Power(POWER_OFF)),
        ]
    }

    /// Asking a card for its status.
    pub open spec fn read_status_steps(self, rca: u32) -> Seq<Step> {
        self.cmd_steps(short_cmd(13, rca_argument(rca)), false).push(Step::ReadResponse(0))
    }
}

/// The argument of CMD7: the address of the card to select, or none.
pub open spec fn select_argument(card: Option<&Card>) -> u32 {
    match card {
        Some(c) => rca_argument(c.rca),
        None => 0,
    }
}

/// How a selection went: a card cannot answer that it was deselected, so a timeout is its
/// success.
pub open spec fn select_outcome(arg: u32, r: Result<(), Error>) -> Result<(), Error> {
    if arg == 0 && r == Err::<(), Error>(Error::Timeout) {
        Ok(())
    } else {
        r
    }
}

/// The card clock that `clk_div` finds keeps to what the bus can take: the kernel clock exceeds
/// three thirty-seconds of what all data lines carry together.
pub proof fn law_bus_bandwidth(version: Version, ker_ck: Hertz, freq: u32, width: BusWidth)
    requires
        freq > 0,
        ker_ck.0 > 0,
    ensures
        clk_div_spec(version, ker_ck, freq) matches Ok((_, f)) ==> ker_ck.0 > 3 * (f.0
            * width.line_count()) / 32,
{
    let d = clkdiv_for(version, ker_ck, freq);
    law_clkdiv_keeps_limit(version, ker_ck, freq);
    law_card_clock(version, ker_ck, d);
    let f = card_clock(version, ker_ck, d).0 as int;
    let n = width.line_count() as int;
    assert(f * n <= ker_ck.0 * 8) by (nonlinear_arith)
        requires
            0 <= f <= ker_ck.0,
            0 <= n <= 8,
    ;
}

// Writing the scripts.
impl SdmmcInner {
    /// Wait idle on CMDACT, RXACT and TXACT (v1) or DPSMACT and CPSMACT (v2)
    pub fn wait_idle(&self) -> (s: Step)
        ensures
            s == Step::AwaitIdle(Wait::Both),
    {
        Step::AwaitIdle(Wait::Both)
    }

    /// Clear flags in interrupt clear register
    pub fn clear_interrupt_flags(&self) -> (w: RegWrite)
        ensures
            w == self.clear_flags(),
    {
        let v2 = self.version == Version::V2;
        RegWrite::Icr(
            Icr {
                ccrcfailc: true,
                dcrcfailc: true,
                ctimeoutc: true,
                dtimeoutc: true,
                txunderrc: true,
                rxoverrc: true,
                cmdrendc: true,
                cmdsentc: true,
                dataendc: true,
                dbckendc: true,
                sdioitc: true,
                dholdc: v2,
                dabortc: v2,
                busyd0endc: v2,
                ackfailc: v2,
                acktimeoutc: v2,
                vswendc: v2,
                ckstopc: v2,
                idmatec: v2,
                idmabtcc: v2,
            },
        )
    }

    /// Enables the interrupts for data transfer
    pub fn data_interrupts(&self, enable: bool) -> (w: RegWrite)
        ensures
            w == self.mask_data(enable),
    {
        RegWrite::Maskr(
            Maskr {
                dcrcfailie: enable,
                dtimeoutie: enable,
                dataendie: enable,
                dabortie: enable && self.version == Version::V2,
            },
        )
    }

    /// Stops the DMA datapath
    pub fn stop_datapath(&self) -> (w: RegWrite)
        ensures
            w == self.stop_dma(),
    {
        match self.version {
            Version::V1 => RegWrite::Dctrl(
                DctrlChange {
                    dblocksize: None,
                    dtdir: None,
                    dmaen: Some(false),
                    dten: Some(false),
                },
            ),
            Version::V2 => RegWrite::Idmaen(false),
        }
    }

    /// Send command to card
    pub fn cmd(&self, cmd: Cmd, data: bool) -> (steps: Vec<Step>)
        ensures
            steps@ == self.cmd_steps(cmd, data),
    {
        // Special mode in CP State Machine
        // CMD12: Stop Transmission
        let cpsm_stop_transmission = self.version == Version::V2 && cmd.cmd == 12;
        let word = Cmdr {
            waitint: false,
            waitresp: cmd.resp.waitresp(),
            cmdindex: cmd.cmd,
            cpsmen: true,
            cmdstop: cpsm_stop_transmission,
            cmdtrans: self.version == Version::V2 && data,
        };
        let steps = vec![
            Step::Write(self.clear_interrupt_flags()),
            // CP state machine must be idle
            Step::AwaitIdle(Wait::Command),
            // Command arg
            Step::Write(RegWrite::Argr(cmd.arg)),
            // Command index and start CP State Machine
            Step::Write(RegWrite::Cmdr(word)),
            Step::AwaitAnswer(cmd.resp),
        ];
        assert(steps@ =~= self.cmd_steps(cmd, data));
        steps
    }

    /// Gets the data path ready to read from the card into memory.
    pub fn prepare_datapath_read(
        &self,
        buffer: Buffer,
        length_bytes: u32,
        block_size: u8,
        data_transfer_timeout: u32,
    ) -> (steps: Vec<Step>)
        requires
            block_size <= 14,
        ensures
            steps@ == self.prepare_steps(
                buffer,
                true,
                length_bytes,
                block_size,
                data_transfer_timeout,
            ),
    {
        let mut steps: Vec<Step> = Vec::new();
        // Command AND Data state machines must be idle
        steps.push(self.wait_idle());
        steps.push(Step::Write(self.clear_interrupt_flags()));
        steps.push(Step::Write(RegWrite::Dtimer(data_transfer_timeout)));
        steps.push(Step::Write(RegWrite::Dlenr(length_bytes)));
        let v1 = self.version == Version::V1;
        if v1 {
            let options = TransferOptions {
                pburst: Burst::Incr4,
                flow_ctrl: FlowControl::Peripheral,
            };
            steps.push(Step::Write(RegWrite::StartDmaRead(buffer, options)));
        } else {
            steps.push(Step::Write(RegWrite::Idmabase0(buffer)));
            steps.push(Step::Write(RegWrite::Idmaen(true)));
        }
        let enable = if v1 {
            Some(true)
        } else {
            None
        };
        steps.push(
            Step::Write(
                RegWrite::Dctrl(
                    DctrlChange {
                        dblocksize: Some(block_size),
                        dtdir: Some(true),
                        dmaen: enable,
                        dten: enable,
                    },
                ),
            ),
        );
        assert(steps@ =~= self.prepare_steps(
            buffer,
            true,
            length_bytes,
            block_size,
            data_transfer_timeout,
        ));
        steps
    }

    /// Gets the data path ready to write from memory to the card.
    pub fn prepare_datapath_write(
        &self,
        buffer: Buffer,
        length_bytes: u32,
        block_size: u8,
        data_transfer_timeout: u32,
    ) -> (steps: Vec<Step>)
        requires
            block_size <= 14,
        ensures
            steps@ == self.prepare_steps(
                buffer,
                false,
                length_bytes,
                block_size,
                data_transfer_timeout,
            ),
    {
        let mut steps: Vec<Step> = Vec::new();
        // Command AND Data state machines must be idle
        steps.push(self.wait_idle());
        steps.push(Step::Write(self.clear_interrupt_flags()));
        steps.push(Step::Write(RegWrite::Dtimer(data_transfer_timeout)));
        steps.push(Step::Write(RegWrite::Dlenr(length_bytes)));
        match self.version {
            Version::V1 => {
                let options = TransferOptions {
                    pburst: Burst::Incr4,
                    flow_ctrl: FlowControl::Peripheral,
                };
                steps.push(Step::Write(RegWrite::StartDmaWrite(buffer, options)));
            },
            Version::V2 => {
                steps.push(Step::Write(RegWrite::Idmabase0(buffer)));
                steps.push(Step::Write(RegWrite::Idmaen(true)));
            },
        }
        steps.push(
            Step::Write(
                RegWrite::Dctrl(
                    DctrlChange {
                        dblocksize: Some(block_size),
                        dtdir: Some(false),
                        dmaen: None,
                        dten: None,
                    },
                ),
            ),
        );
        assert(steps@ =~= self.prepare_steps(
            buffer,
            false,
            length_bytes,
            block_size,
            data_transfer_timeout,
        ));
        steps
    }

    /// Sets the peripheral to rest after a transfer that did not come to its end.
    pub fn on_drop(&self) -> (steps: Vec<Step>)
        ensures
            steps@ == self.on_drop_steps(),
    {
        let v2 = self.version == Version::V2;
        let abort = Cmdr {
            waitint: false,
            waitresp: Response::Short.waitresp(),
            cmdindex: 12,
            cpsmen: true,
            cmdstop: v2,
            cmdtrans: false,
        };
        let steps = vec![
            Step::IfDataActive(5),
            Step::Write(self.clear_interrupt_flags()),
            // Send abort
            // CP state machine must be idle
            Step::AwaitIdle(Wait::Command),
            // Command arg
            Step::Write(RegWrite::Argr(0)),
            // Command index and start CP State Machine
            Step::Write(RegWrite::Cmdr(abort)),
            // Wait for the abort
            Step::AwaitIdle(Wait::Data),
            Step::Write(self.data_interrupts(false)),
            Step::Write(self.clear_interrupt_flags()),
            Step::Write(self.stop_datapath()),
        ];
        assert(steps@ =~= self.on_drop_steps());
        steps
    }

    /// Sets the peripheral up for a card in identification mode and tells the card clock.
    pub fn new_inner(&self, kernel_clk: Hertz) -> (r: (Vec<Step>, Hertz))
        requires
            clk_div_spec(self.version, kernel_clk, 400_000) is Ok,
        ensures
            r.0@ == self.new_steps(clk_div_spec(self.version, kernel_clk, 400_000)->Ok_0.0),
            r.1 == clk_div_spec(self.version, kernel_clk, 400_000)->Ok_0.1,
            r.1.0 <= 400_000,
    {
        // While the SD/SDIO card or eMMC is in identification mode,
        // the SDMMC_CK frequency must be less than 400 kHz.
        match clk_div(self.version, kernel_clk, 400_000) {
            Ok((clkdiv, clock)) => {
                let word = Clkcr {
                    widbus: 0,
                    clkdiv,
                    pwrsav: false,
                    negedge: false,
                    hwfc_en: true,
                    clken: self.version == Version::V1,
                };
                // Power off, writen 00: Clock to the card is stopped;
                // D[7:0], CMD, and CK are driven high.
                let steps = vec![
                    Step::Write(RegWrite::Clkcr(word)),
                    Step::Write(RegWrite::Power(POWER_OFF)),
                ];
                assert(steps@ =~= self.new_steps(clkdiv));
                (steps, clock)
            },
            Err(_) => vstd::pervasive::unreached(),
        }
    }

    /// Sets the CLKDIV field in CLKCR. Updates `clock`
    pub fn clkcr_set_clkdiv(
        &self,
        freq: u32,
        width: BusWidth,
        ker_ck: Hertz,
        clock: &mut Hertz,
    ) -> (r: Result<Vec<Step>, Error>)
        requires
            freq > 0,
            ker_ck.0 > 0,
        ensures
            match clk_div_spec(self.version, ker_ck, freq) {
                Ok((clkdiv, new_clock)) => {
                    &&& r matches Ok(steps) && steps@ == self.clkdiv_steps(clkdiv)
                    &&& *final(clock) == new_clock
                    &&& new_clock.0 == ker_ck.0 as nat / divider(self.version, clkdiv as nat)
                    &&& new_clock.0 <= freq
                    &&& ker_ck.0 > 3 * (new_clock.0 * width.line_count()) / 32
                },
                Err(e) => {
                    &&& r matches Err(e2) && e2 == e
                    &&& *final(clock) == *old(clock)
                },
            },
    {
        let (clkdiv, new_clock) = match clk_div(self.version, ker_ck, freq) {
            Ok(x) => x,
            Err(e) => return Err(e),
        };
        proof {
            // The AHB and SDMMC_CK clock relation. See RM0433 Rev 7
            // Section 55.5.8
            law_bus_bandwidth(self.version, ker_ck, freq, width);
        }
        *clock = new_clock;
        // CPSMACT and DPSMACT must be 0 to set CLKDIV
        let steps = vec![self.wait_idle(), Step::Write(RegWrite::Clkdiv(clkdiv))];
        assert(steps@ =~= self.clkdiv_steps(clkdiv));
        Ok(steps)
    }

    /// Query the card status (CMD13, returns R1)
    pub fn read_status(&self, card: &Card) -> (steps: Vec<Step>)
        ensures
            steps@ == self.read_status_steps(card.rca),
    {
        let mut steps = self.cmd(Cmd::card_status(rca_arg(card.rca)), false);
        steps.push(Step::ReadResponse(0));
        steps
    }

    /// Select one card and place it into the _Tranfer State_
    ///
    /// If `None` is specifed for `card`, all cards are put back into
    /// _Stand-by State_
    pub fn select_card(&self, card: Option<&Card>) -> (steps: Vec<Step>)
        ensures
            steps@ == self.cmd_steps(short_cmd(7, select_argument(card)), false),
    {
        // Determine Relative Card Address (RCA) of given card
        let rca: u32 = match card {
            Some(c) => rca_arg(c.rca),
            None => 0,
        };
        self.cmd(Cmd::sel_desel_card(rca), false)
    }

    /// How a selection of `card` went, where the command went as `r` says.
    pub fn selected(&self, card: Option<&Card>, r: Result<(), Error>) -> (s: Result<(), Error>)
        ensures
            s == select_outcome(select_argument(card), r),
    {
        let rca: u32 = match card {
            Some(c) => rca_arg(c.rca),
            None => 0,
        };
        match r {
            Err(Error::Timeout) if rca == 0 => Ok(()),
            _ => r,
        }
    }
}

} // verus!
