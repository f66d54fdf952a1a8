//! The commands that a host sends to a card.

use vstd::prelude::*;

verus! {

/// What a card answers to a command.
#[derive(Eq, PartialEq, Copy, Clone, Debug, Structural)]
pub enum Response {
    Absent,
    Short,
    Long,
}

impl Response {
    /// How the command register names the response.
    pub open spec fn waitresp_spec(self) -> u8 {
        match self {
            Response::Absent => 0,
            Response::Short => 1,
            Response::Long => 3,
        }
    }

    /// How the command register names the response.
    pub fn waitresp(self) -> (n: u8)
        ensures
            n == self.waitresp_spec(),
    {
        match self {
            Response::Absent => 0,
            Response::Short => 1,
            Response::Long => 3,
        }
    }
}

/// A SD command
#[derive(Eq, PartialEq, Copy, Clone, Debug, Structural)]
pub struct Cmd {
    pub cmd: u8,
    pub arg: u32,
    pub resp: Response,
}

/// The command with this index and argument, answered by a short response.
pub open spec fn short_cmd(cmd: u8, arg: u32) -> Cmd {
    Cmd { cmd, arg, resp: Response::Short }
}

/// The command with this index and argument, answered by a long response.
pub open spec fn long_cmd(cmd: u8, arg: u32) -> Cmd {
    Cmd { cmd, arg, resp: Response::Long }
}

/// The argument by which a command names a card: its address in the upper half.
pub open spec fn rca_argument(rca: u32) -> u32 {
    (rca % 0x1_0000 * 0x1_0000) as u32
}

/// The argument by which a command names a card.
pub fn rca_arg(rca: u32) -> (arg: u32)
    ensures
        arg == rca_argument(rca),
{
    (rca % 0x1_0000) * 0x1_0000
}

/// SD card Commands
impl Cmd {
    pub fn new(cmd: u8, arg: u32, resp: Response) -> (c: Cmd)
        ensures
            c == (Cmd { cmd, arg, resp }),
    {
        Cmd { cmd, arg, resp }
    }

    /// CMD0: Idle
    pub fn idle() -> (c: Cmd)
        ensures
            c == (Cmd { cmd: 0, arg: 0, resp: Response::Absent }),
    {
        Cmd::new(0, 0, Response::Absent)
    }

    /// CMD2: Send CID
    pub fn all_send_cid() -> (c: Cmd)
        ensures
            c == long_cmd(2, 0),
    {
        Cmd::new(2, 0, Response::Long)
    }

    /// CMD3: Send Relative Address
    pub fn send_rel_addr() -> (c: Cmd)
        ensures
            c == short_cmd(3, 0),
    {
        Cmd::new(3, 0, Response::Short)
    }

    /// CMD6: Switch Function Command
    /// ACMD6: Bus Width
    pub fn cmd6(arg: u32) -> (c: Cmd)
        ensures
            c == short_cmd(6, arg),
    {
        Cmd::new(6, arg, Response::Short)
    }

    /// CMD7: Select one card and put it into the _Tranfer State_
    pub fn sel_desel_card(rca: u32) -> (c: Cmd)
        ensures
            c == short_cmd(7, rca),
    {
        Cmd::new(7, rca, Response::Short)
    }

    /// CMD8: Send interface condition
    pub fn hs_send_ext_csd(arg: u32) -> (c: Cmd)
        ensures
            c == short_cmd(8, arg),
    {
        Cmd::new(8, arg, Response::Short)
    }

    /// CMD9: Send CSD
    pub fn send_csd(rca: u32) -> (c: Cmd)
        ensures
            c == long_cmd(9, rca),
    {
        Cmd::new(9, rca, Response::Long)
    }

    /// CMD13: Ask card to send status register
    /// ACMD13: SD Status
    pub fn card_status(rca: u32) -> (c: Cmd)
        ensures
            c == short_cmd(13, rca),
    {
        Cmd::new(13, rca, Response::Short)
    }

    /// CMD16: Set block length
    pub fn set_block_length(blocklen: u32) -> (c: Cmd)
        ensures
            c == short_cmd(16, blocklen),
    {
        Cmd::new(16, blocklen, Response::Short)
    }

    /// CMD17: Block Read
    pub fn read_single_block(addr: u32) -> (c: Cmd)
        ensures
            c == short_cmd(17, addr),
    {
        Cmd::new(17, addr, Response::Short)
    }

    /// CMD24: Block Write
    pub fn write_single_block(addr: u32) -> (c: Cmd)
        ensures
            c == short_cmd(24, addr),
    {
        Cmd::new(24, addr, Response::Short)
    }

    /// ACMD41: Send operating conditions
    pub fn app_op_cmd(arg: u32) -> (c: Cmd)
        ensures
            c == short_cmd(41, arg),
    {
        Cmd::new(41, arg, Response::Short)
    }

    /// ACMD51: Send the card's configuration register
    pub fn cmd51() -> (c: Cmd)
        ensures
            c == short_cmd(51, 0),
    {
        Cmd::new(51, 0, Response::Short)
    }

    /// App Command. Indicates that next command will be a app command
    pub fn app_cmd(rca: u32) -> (c: Cmd)
        ensures
            c == short_cmd(55, rca),
    {
        Cmd::new(55, rca, Response::Short)
    }
}

} // verus!
