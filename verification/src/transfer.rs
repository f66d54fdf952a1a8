//! Data transfers: commands that move data along with them.
//!
//! Every transfer goes the same way. Some commands may come before. The data path is made ready,
//! interrupts are let through, and the data command is sent. The transfer then sleeps until the
//! status tells how it went. After its end the DMA is stopped; a transfer that failed leaves the
//! peripheral at rest before it reports why.

use vstd::prelude::*;

use crate::card::Card;
use crate::cmd::{rca_arg, rca_argument, short_cmd, Cmd};
use crate::inner::{data_outcome, poll_data, SdmmcInner};
use crate::registers::{Action, Buffer, Reply};
use crate::script::{Run, RunState, Step};
use crate::types::{CardCapacity, Error, Signalling};

verus! {

/// The size of the one block that a transfer moves.
#[derive(Clone, Copy, Debug, PartialEq, Eq, Structural)]
pub enum BlockSize {
    B8,
    B64,
    B512,
}

impl BlockSize {
    /// The size in bytes, as a power of two.
    pub open spec fn log2(self) -> u8 {
        match self {
            BlockSize::B8 => 3,
            BlockSize::B64 => 6,
            BlockSize::B512 => 9,
        }
    }

    /// The size in bytes.
    pub open spec fn in_bytes(self) -> u32 {
        match self {
            BlockSize::B8 => 8,
            BlockSize::B64 => 64,
            BlockSize::B512 => 512,
        }
    }

    /// The size in bytes, as a power of two.
    pub fn exponent(self) -> (n: u8)
        ensures
            n == self.log2(),
            n <= 14,
    {
        match self {
            BlockSize::B8 => 3,
            BlockSize::B64 => 6,
            BlockSize::B512 => 9,
        }
    }

    /// The size in bytes.
    pub fn bytes(self) -> (n: u32)
        ensures
            n == self.in_bytes(),
    {
        match self {
            BlockSize::B8 => 8,
            BlockSize::B64 => 64,
            BlockSize::B512 => 512,
        }
    }
}

/// What sets one data transfer apart from another.
#[derive(Clone, Copy, Debug, PartialEq, Eq)]
pub struct Plan {
    /// The block length to announce by CMD16 beforehand, if any
    pub block_length: Option<u32>,
    /// The argument of the CMD55 to send beforehand, if any
    pub app: Option<u32>,
    /// Where the data goes to or comes from
    pub buffer: Buffer,
    /// The data comes from the card
    pub read: bool,
    /// How much is moved
    pub size: BlockSize,
    /// The data timeout, in card bus clock periods
    pub timeout: u32,
    /// The data command
    pub command: Cmd,
    /// How many idle instructions pass after the end of the data
    pub settle: u32,
}

/// How far a transfer has come.
#[derive(Clone, Copy, Debug, PartialEq, Eq)]
pub enum Phase {
    /// The commands before the transfer
    Prelude,
    /// The data path is made ready and the data command sent
    Armed,
    /// The status is due to be looked at
    Polling,
    /// The transfer sleeps
    Suspended,
    /// The data has come to its end
    Closing,
    /// What was received is due to be looked at
    Collecting,
    /// The data failed, for the reason given
    Settling(Error),
    /// The peripheral is set to rest after a failure
    Releasing(Error),
    /// The transfer is over
    Finished(Result<(), Error>),
}

impl SdmmcInner {
    /// The commands before a transfer.
    pub open spec fn prelude_steps(self, plan: Plan) -> Seq<Step> {
        let length = match plan.block_length {
            Some(n) => self.cmd_steps(short_cmd(16, n), false),
            None => Seq::empty(),
        };
        let app = match plan.app {
            Some(rca) => self.cmd_steps(short_cmd(55, rca), false),
            None => Seq::empty(),
        };
        length + app
    }

    /// From the data path at rest to the data command answered.
    pub open spec fn armed_steps(self, plan: Plan) -> Seq<Step> {
        self.prepare_steps(
            plan.buffer,
            plan.read,
            plan.size.in_bytes(),
            plan.size.log2(),
            plan.timeout,
        ) + seq![Step::Write(self.mask_data(true))] + self.cmd_steps(plan.command, true)
    }

    /// After the data has ended, well or not.
    pub open spec fn settle_steps(self, plan: Plan) -> Seq<Step> {
        let clear = seq![Step::Write(self.clear_flags())];
        if plan.settle > 0 {
            clear.push(Step::Delay(plan.settle))
        } else {
            clear
        }
    }

    /// After the data has ended well.
    pub open spec fn closing_steps(self, plan: Plan) -> Seq<Step> {
        self.settle_steps(plan).push(Step::Write(self.stop_dma()))
    }
}

/// A transfer and how far it has come.
pub struct TransferState {
    /// The peripheral
    pub inner: SdmmcInner,
    /// What is to be moved
    pub plan: Plan,
    /// How far it has come
    pub phase: Phase,
    /// The script of the phase
    pub run: RunState,
    /// What was received into the scratch buffer
    pub words: Seq<u32>,
}

/// Sixteen words of zero.
pub open spec fn no_words() -> Seq<u32> {
    Seq::new(16, |i: int| 0u32)
}

impl TransferState {
    /// A transfer of which nothing has been done.
    pub open spec fn start(inner: SdmmcInner, plan: Plan) -> TransferState {
        let prelude = inner.prelude_steps(plan);
        if prelude.len() > 0 {
            TransferState {
                inner,
                plan,
                phase: Phase::Prelude,
                run: RunState::start(inner, prelude),
                words: no_words(),
            }
        } else {
            TransferState {
                inner,
                plan,
                phase: Phase::Armed,
                run: RunState::start(inner, inner.armed_steps(plan)),
                words: no_words(),
            }
        }
    }

    /// The same transfer at the start of a phase with this script.
    pub open spec fn entering(self, phase: Phase, steps: Seq<Step>) -> TransferState {
        TransferState { phase, run: RunState::start(self.inner, steps), ..self }
    }

    /// The same transfer in a phase without a script.
    pub open spec fn in_phase(self, phase: Phase) -> TransferState {
        TransferState { phase, ..self }
    }

    /// What is due.
    pub open spec fn action(self) -> Action {
        match self.phase {
            Phase::Polling => Action::PollStatus,
            Phase::Suspended => Action::Suspend,
            Phase::Collecting => Action::ReadWords,
            Phase::Finished(r) => Action::Done(r),
            _ => self.run.action(),
        }
    }

    /// What follows on the end of a phase's script.
    pub open spec fn proceeded(self, r: Result<(), Error>) -> TransferState {
        match self.phase {
            Phase::Prelude => match r {
                Ok(_) => self.entering(Phase::Armed, self.inner.armed_steps(self.plan)),
                Err(e) => self.in_phase(Phase::Finished(Err(e))),
            },
            Phase::Armed => match r {
                Ok(_) => self.in_phase(Phase::Polling),
                Err(e) => self.entering(Phase::Releasing(e), self.inner.on_drop_steps()),
            },
            Phase::Closing => if self.plan.buffer == Buffer::Scratch {
                self.in_phase(Phase::Collecting)
            } else {
                self.in_phase(Phase::Finished(Ok(())))
            },
            Phase::Settling(e) => self.entering(Phase::Releasing(e), self.inner.on_drop_steps()),
            Phase::Releasing(e) => self.in_phase(Phase::Finished(Err(e))),
            _ => self,
        }
    }

    /// What a reply makes of it. A reply that does not answer what was due changes nothing.
    pub open spec fn after(self, reply: Reply) -> TransferState {
        match self.phase {
            Phase::Polling => match reply {
                Reply::Status(s) => match data_outcome(s) {
                    None => self.in_phase(Phase::Suspended),
                    Some(Ok(_)) => self.entering(
                        Phase::Closing,
                        self.inner.closing_steps(self.plan),
                    ),
                    Some(Err(e)) => self.entering(
                        Phase::Settling(e),
                        self.inner.settle_steps(self.plan),
                    ),
                },
                _ => self,
            },
            Phase::Suspended => match reply {
                Reply::Ack => self.in_phase(Phase::Polling),
                _ => self,
            },
            Phase::Collecting => match reply {
                Reply::Words(words) => TransferState {
                    words: words@,
                    ..self.in_phase(Phase::Finished(Ok(())))
                },
                _ => self,
            },
            Phase::Finished(_) => self,
            _ => {
                let moved = TransferState { run: self.run.after(reply), ..self };
                match moved.run.action() {
                    Action::Done(r) => moved.proceeded(r),
                    _ => moved,
                }
            },
        }
    }

    /// The data path was made ready. A transfer that failed earlier, in the commands before it,
    /// still holds the failed answer.
    pub open spec fn touched(self) -> bool {
        match self.phase {
            Phase::Prelude => false,
            Phase::Finished(Err(_)) => self.run.failed is None,
            _ => true,
        }
    }

    /// The transfer is over, and it failed.
    pub open spec fn failed(self) -> bool {
        self.phase matches Phase::Finished(r) && r is Err
    }

    /// The data has come to its end, and the data path was let go.
    pub open spec fn ended(self) -> bool {
        match self.phase {
            Phase::Collecting | Phase::Finished(Ok(_)) => true,
            _ => false,
        }
    }

    /// What has to be done where the transfer is given up: nothing before it touched the data
    /// path or after it let go of it, and in between what sets the peripheral to rest.
    pub open spec fn abandon_steps(self) -> Seq<Step> {
        match self.phase {
            Phase::Prelude | Phase::Collecting | Phase::Finished(_) => Seq::empty(),
            _ => self.inner.on_drop_steps(),
        }
    }
}

/// A data transfer under way.
#[derive(Debug)]
pub struct Transfer {
    inner: SdmmcInner,
    plan: Plan,
    phase: Phase,
    run: Run,
    words: [u32; 16],
}

impl View for Transfer {
    type V = TransferState;

    closed spec fn view(&self) -> TransferState {
        TransferState {
            inner: self.inner,
            plan: self.plan,
            phase: self.phase,
            run: self.run@,
            words: self.words@,
        }
    }
}

impl Transfer {
    /// Starts on a transfer.
    pub fn new(inner: SdmmcInner, plan: Plan) -> (t: Transfer)
        ensures
            t@ == TransferState::start(inner, plan),
    {
        let mut steps: Vec<Step> = Vec::new();
        match plan.block_length {
            Some(n) => {
                let mut more = inner.cmd(Cmd::set_block_length(n), false);
                steps.append(&mut more);
            },
            None => {},
        }
        match plan.app {
            Some(rca) => {
                let mut more = inner.cmd(Cmd::app_cmd(rca), false);
                steps.append(&mut more);
            },
            None => {},
        }
        assert(steps@ =~= inner.prelude_steps(plan));
        if steps.len() > 0 {
            let run = Run::new(inner, steps);
            let t = Transfer { inner, plan, phase: Phase::Prelude, run, words: [0; 16] };
            assert(t@.words =~= no_words());
            t
        } else {
            let run = Run::new(inner, Transfer::arm(inner, plan));
            let t = Transfer { inner, plan, phase: Phase::Armed, run, words: [0; 16] };
            assert(t@.words =~= no_words());
            t
        }
    }

    /// Writes the script that starts the data moving.
    fn arm(inner: SdmmcInner, plan: Plan) -> (steps: Vec<Step>)
        ensures
            steps@ == inner.armed_steps(plan),
    {
        let mut steps = if plan.read {
            inner.prepare_datapath_read(
                plan.buffer,
                plan.size.bytes(),
                plan.size.exponent(),
                plan.timeout,
            )
        } else {
            inner.prepare_datapath_write(
                plan.buffer,
                plan.size.bytes(),
                plan.size.exponent(),
                plan.timeout,
            )
        };
        steps.push(Step::Write(inner.data_interrupts(true)));
        let mut more = inner.cmd(plan.command, true);
        steps.append(&mut more);
        assert(steps@ =~= inner.armed_steps(plan));
        steps
    }

    /// Writes the script that follows on the end of the data.
    fn settle(inner: SdmmcInner, plan: Plan) -> (steps: Vec<Step>)
        ensures
            steps@ == inner.settle_steps(plan),
    {
        let mut steps = vec![Step::Write(inner.clear_interrupt_flags())];
        if plan.settle > 0 {
            steps.push(Step::Delay(plan.settle));
        }
        assert(steps@ =~= inner.settle_steps(plan));
        steps
    }

    /// Tells what is due.
    pub fn action(&self) -> (a: Action)
        ensures
            a == self@.action(),
    {
        match self.phase {
            Phase::Polling => Action::PollStatus,
            Phase::Suspended => Action::Suspend,
            Phase::Collecting => Action::ReadWords,
            Phase::Finished(r) => Action::Done(r),
            _ => self.run.action(),
        }
    }

    /// Goes on from the end of a phase's script.
    fn proceed(&mut self, r: Result<(), Error>)
        ensures
            final(self)@ == old(self)@.proceeded(r),
    {
        match self.phase {
            Phase::Prelude => match r {
                Ok(_) => {
                    self.run = Run::new(self.inner, Transfer::arm(self.inner, self.plan));
                    self.phase = Phase::Armed;
                },
                Err(e) => {
                    self.phase = Phase::Finished(Err(e));
                },
            },
            Phase::Armed => match r {
                Ok(_) => {
                    self.phase = Phase::Polling;
                },
                Err(e) => {
                    self.run = Run::new(self.inner, self.inner.on_drop());
                    self.phase = Phase::Releasing(e);
                },
            },
            Phase::Closing => {
                self.phase = if self.plan.buffer == Buffer::Scratch {
                    Phase::Collecting
                } else {
                    Phase::Finished(Ok(()))
                };
            },
            Phase::Settling(e) => {
                self.run = Run::new(self.inner, self.inner.on_drop());
                self.phase = Phase::Releasing(e);
            },
            Phase::Releasing(e) => {
                self.phase = Phase::Finished(Err(e));
            },
            _ => {},
        }
    }

    /// Takes the reply to what was due.
    pub fn resume(&mut self, reply: Reply)
        ensures
            final(self)@ == old(self)@.after(reply),
    {
        match self.phase {
            Phase::Polling => match reply {
                Reply::Status(status) => match poll_data(status) {
                    None => {
                        self.phase = Phase::Suspended;
                    },
                    Some(Ok(_)) => {
                        let mut steps = Transfer::settle(self.inner, self.plan);
                        steps.push(Step::Write(self.inner.stop_datapath()));
                        self.run = Run::new(self.inner, steps);
                        self.phase = Phase::Closing;
                    },
                    Some(Err(e)) => {
                        self.run = Run::new(self.inner, Transfer::settle(self.inner, self.plan));
                        self.phase = Phase::Settling(e);
                    },
                },
                _ => {},
            },
            Phase::Suspended => match reply {
                Reply::Ack => {
                    self.phase = Phase::Polling;
                },
                _ => {},
            },
            Phase::Collecting => match reply {
                Reply::Words(words) => {
                    self.words = words;
                    self.phase = Phase::Finished(Ok(()));
                },
                _ => {},
            },
            Phase::Finished(_) => {},
            _ => {
                self.run.resume(reply);
                match self.run.action() {
                    Action::Done(r) => self.proceed(r),
                    _ => {},
                }
            },
        }
    }

    /// What was received into the scratch buffer.
    pub fn words(&self) -> (w: [u32; 16])
        ensures
            w@ == self@.words,
    {
        self.words
    }

    /// Writes the script for a transfer that is given up.
    pub fn abandon(&self) -> (steps: Vec<Step>)
        ensures
            steps@ == self@.abandon_steps(),
    {
        match self.phase {
            Phase::Prelude | Phase::Collecting | Phase::Finished(_) => Vec::new(),
            _ => self.inner.on_drop(),
        }
    }
}

/// Where a block lies, as a card of this capacity wants it said: SDSC cards are addressed by the
/// byte.
pub open spec fn block_address(capacity: CardCapacity, block_idx: u32) -> int {
    match capacity {
        CardCapacity::SDSC => block_idx * 512,
        CardCapacity::SDHC => block_idx as int,
    }
}

/// Where a block lies.
pub fn address_of(capacity: CardCapacity, block_idx: u32) -> (address: u32)
    requires
        block_address(capacity, block_idx) <= u32::MAX,
    ensures
        address == block_address(capacity, block_idx),
{
    match capacity {
        CardCapacity::SDSC => block_idx * 512,
        CardCapacity::SDHC => block_idx,
    }
}

/// Reading the block at an address.
pub open spec fn read_block_plan(address: u32, timeout: u32) -> Plan {
    Plan {
        block_length: Some(512),
        app: None,
        buffer: Buffer::Block,
        read: true,
        size: BlockSize::B512,
        timeout,
        command: short_cmd(17, address),
        settle: 0,
    }
}

/// Writing the block at an address.
pub open spec fn write_block_plan(address: u32, timeout: u32) -> Plan {
    Plan { read: false, command: short_cmd(24, address), ..read_block_plan(address, timeout) }
}

/// Reading the SD status of a card.
pub open spec fn sd_status_plan(rca: u32, timeout: u32) -> Plan {
    Plan {
        block_length: Some(64),
        app: Some(rca_argument(rca)),
        buffer: Buffer::Scratch,
        read: true,
        size: BlockSize::B64,
        timeout,
        command: short_cmd(13, 0),
        settle: 0,
    }
}

/// Reading the configuration register of a card.
pub open spec fn scr_plan(rca: u32, timeout: u32) -> Plan {
    Plan {
        block_length: Some(8),
        size: BlockSize::B8,
        command: short_cmd(51, 0),
        ..sd_status_plan(rca, timeout)
    }
}

/// The argument of CMD6 that asks for a signalling scheme.
pub open spec fn switch_argument(signalling: Signalling) -> u32 {
    match signalling {
        Signalling::DDR50 => 0x80FF_FF04,
        Signalling::SDR104 => 0x80FF_1F03,
        Signalling::SDR50 => 0x80FF_1F02,
        Signalling::SDR25 => 0x80FF_FF01,
        Signalling::SDR12 => 0x80FF_FF00,
    }
}

/// Asking a card to switch its signalling scheme.
pub open spec fn switch_plan(signalling: Signalling, timeout: u32) -> Plan {
    Plan {
        block_length: None,
        app: None,
        buffer: Buffer::Scratch,
        read: true,
        size: BlockSize::B64,
        timeout,
        command: short_cmd(6, switch_argument(signalling)),
        settle: 300,
    }
}

/// The signalling scheme that a card selected, by its number.
pub open spec fn signalling_of(selection: u32) -> Result<Signalling, Error> {
    if selection == 0 {
        Ok(Signalling::SDR12)
    } else if selection == 1 {
        Ok(Signalling::SDR25)
    } else if selection == 2 {
        Ok(Signalling::SDR50)
    } else if selection == 3 {
        Ok(Signalling::SDR104)
    } else if selection == 4 {
        Ok(Signalling::DDR50)
    } else {
        Err(Error::UnsupportedCardType)
    }
}

/// The number of the scheme that a card selected, in the switch status that it sent: the lower
/// half of byte 16.
pub open spec fn selection_of(words: Seq<u32>) -> u32 {
    (crate::words::byte_of(words[4], 0) % 0x10) as u32
}

/// A card that selects what it was asked for says so: the number of a scheme in the answer is the
/// one by which it is asked for.
pub proof fn law_switch_names_scheme(signalling: Signalling)
    ensures
        signalling_of((switch_argument(signalling) % 0x10) as u32) == Ok::<Signalling, Error>(
            signalling,
        ),
{
}

/// The signalling scheme that a card selected.
pub fn selected_signalling(status: &[u32; 16]) -> (r: Result<Signalling, Error>)
    ensures
        r == signalling_of(selection_of(status@)),
{
    // Function Selection of Function Group 1
    let selection: u32 = (crate::words::from_be(status[4]) / 0x100_0000) % 0x10;
    match selection {
        0 => Ok(Signalling::SDR12),
        1 => Ok(Signalling::SDR25),
        2 => Ok(Signalling::SDR50),
        3 => Ok(Signalling::SDR104),
        4 => Ok(Signalling::DDR50),
        _ => Err(Error::UnsupportedCardType),
    }
}

impl SdmmcInner {
    /// Reads a block.
    pub fn read_block(
        &self,
        block_idx: u32,
        capacity: CardCapacity,
        data_transfer_timeout: u32,
    ) -> (t: Transfer)
        requires
            block_address(capacity, block_idx) <= u32::MAX,
        ensures
            t@ == TransferState::start(
                *self,
                read_block_plan(
                    block_address(capacity, block_idx) as u32,
                    data_transfer_timeout,
                ),
            ),
    {
        // Always read 1 block of 512 bytes
        // SDSC cards are byte addressed hence the blockaddress is in multiples of 512 bytes
        let address: u32 = address_of(capacity, block_idx);
        Transfer::new(
            *self,
            Plan {
                block_length: Some(512),
                app: None,
                buffer: Buffer::Block,
                read: true,
                size: BlockSize::B512,
                timeout: data_transfer_timeout,
                command: Cmd::read_single_block(address),
                settle: 0,
            },
        )
    }

    /// Switch mode using CMD6.
    ///
    /// Attempt to set a new signalling mode. The selected
    /// signalling mode is in what the card sends. Expects the current clock
    /// frequency to be > 12.5MHz.
    pub fn switch_signalling_mode(
        &self,
        signalling: Signalling,
        data_transfer_timeout: u32,
    ) -> (t: Transfer)
        ensures
            t@ == TransferState::start(*self, switch_plan(signalling, data_transfer_timeout)),
    {
        // NB PLSS v7_10 4.3.10.4: "the use of SET_BLK_LEN command is not
        // necessary"
        let set_function: u32 = match signalling {
            // See PLSS v7_10 Table 4-11
            Signalling::DDR50 => 0x80FF_FF04,
            Signalling::SDR104 => 0x80FF_1F03,
            Signalling::SDR50 => 0x80FF_1F02,
            Signalling::SDR25 => 0x80FF_FF01,
            Signalling::SDR12 => 0x80FF_FF00,
        };
        // Host is allowed to use the new functions at least 8
        // clocks after the end of the switch command
        // transaction. We know the current clock period is < 80ns,
        // so a total delay of 640ns is required here
        Transfer::new(
            *self,
            Plan {
                block_length: None,
                app: None,
                buffer: Buffer::Scratch,
                read: true,
                size: BlockSize::B64,
                timeout: data_transfer_timeout,
                command: Cmd::cmd6(set_function),
                settle: 300,
            },
        )
    }

    /// Reads the SD Status (ACMD13)
    pub fn read_sd_status(&self, card: &Card, data_transfer_timeout: u32) -> (t: Transfer)
        ensures
            t@ == TransferState::start(*self, sd_status_plan(card.rca, data_transfer_timeout)),
    {
        Transfer::new(
            *self,
            Plan {
                block_length: Some(64),
                app: Some(rca_arg(card.rca)),
                buffer: Buffer::Scratch,
                read: true,
                size: BlockSize::B64,
                timeout: data_transfer_timeout,
                command: Cmd::card_status(0),
                settle: 0,
            },
        )
    }

    /// Reads the 64-bit SCR register
    pub fn get_scr(&self, card: &Card, data_transfer_timeout: u32) -> (t: Transfer)
        ensures
            t@ == TransferState::start(*self, scr_plan(card.rca, data_transfer_timeout)),
    {
        Transfer::new(
            *self,
            Plan {
                block_length: Some(8),
                app: Some(rca_arg(card.rca)),
                buffer: Buffer::Scratch,
                read: true,
                size: BlockSize::B8,
                timeout: data_transfer_timeout,
                command: Cmd::cmd51(),
                settle: 0,
            },
        )
    }
}

} // verus!
