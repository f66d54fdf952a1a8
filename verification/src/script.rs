//! Scripts: the straight-line part of the driver's work, and how it is carried out.
//!
//! A script is a list of steps. Each step is one dealing with the peripheral: a change to a
//! register, a look at the status, a wait. `Run` carries a script out. It tells which action is
//! due and takes the reply; it stays on a step that waits, moves on from one that is done, and
//! stops at a command that the card did not answer.

use vstd::prelude::*;

use crate::cmd::Response;
use crate::inner::SdmmcInner;
use crate::registers::{Action, RegWrite, Reply, Star};
use crate::types::Error;

verus! {

/// What has to come to rest.
#[derive(Clone, Copy, Debug, PartialEq, Eq, Structural)]
pub enum Wait {
    /// The command path
    Command,
    /// The data path
    Data,
    /// Both
    Both,
}

/// One dealing with the peripheral.
#[derive(Clone, Copy, Debug, PartialEq, Eq)]
pub enum Step {
    /// Make a change
    Write(RegWrite),
    /// Look at the status until what is named has come to rest
    AwaitIdle(Wait),
    /// Look at the status until the command that was sent is answered as named
    AwaitAnswer(Response),
    /// Read the response register of this number
    ReadResponse(u8),
    /// Let this many idle instructions pass
    Delay(u32),
    /// Look at the status once; leave out so many steps unless a data transfer is in progress
    IfDataActive(usize),
}

impl Step {
    /// What a step wants done.
    pub open spec fn action(self) -> Action {
        match self {
            Step::Write(w) => Action::Write(w),
            Step::AwaitIdle(_) => Action::ReadStatus,
            Step::AwaitAnswer(_) => Action::ReadStatus,
            Step::ReadResponse(n) => Action::ReadResponse(n),
            Step::Delay(n) => Action::Delay(n),
            Step::IfDataActive(_) => Action::ReadStatus,
        }
    }
}

/// How a command went, as far as the status tells: a timeout, a failed checksum, or the end that
/// the kind of response calls for.
pub open spec fn answer(resp: Response, s: Star) -> Option<Result<(), Error>> {
    let ended = match resp {
        Response::Absent => s.ctimeout || s.cmdsent,
        _ => s.ctimeout || s.cmdrend || s.ccrcfail,
    };
    if !ended {
        None
    } else if s.ctimeout {
        Some(Err(Error::Timeout))
    } else if s.ccrcfail {
        Some(Err(Error::Crc))
    } else {
        Some(Ok(()))
    }
}

/// How a command went, as far as the status tells.
pub fn command_answer(resp: Response, s: Star) -> (r: Option<Result<(), Error>>)
    ensures
        r == answer(resp, s),
{
    let ended = if resp == Response::Absent {
        // Wait for CMDSENT or a timeout
        s.ctimeout || s.cmdsent
    } else {
        // Wait for CMDREND or CCRCFAIL or a timeout
        s.ctimeout || s.cmdrend || s.ccrcfail
    };
    if !ended {
        None
    } else if s.ctimeout {
        Some(Err(Error::Timeout))
    } else if s.ccrcfail {
        Some(Err(Error::Crc))
    } else {
        Some(Ok(()))
    }
}

/// How far a script has come.
pub struct RunState {
    /// The peripheral that the script is for
    pub inner: SdmmcInner,
    /// The script
    pub steps: Seq<Step>,
    /// The step that is due
    pub at: nat,
    /// In a wait for both paths: the data path was seen at rest, the command path is next
    pub halfway: bool,
    /// The responses that were read, in order
    pub responses: Seq<u32>,
    /// Why the script was broken off, if it was
    pub failed: Option<Error>,
}

impl RunState {
    /// A script of which nothing has been done.
    pub open spec fn start(inner: SdmmcInner, steps: Seq<Step>) -> RunState {
        RunState {
            inner,
            steps,
            at: 0,
            halfway: false,
            responses: Seq::empty(),
            failed: None,
        }
    }

    /// A step is due.
    pub open spec fn running(self) -> bool {
        self.failed is None && self.at < self.steps.len()
    }

    /// How the script ended. Means something once it is not running.
    pub open spec fn result(self) -> Result<(), Error> {
        match self.failed {
            Some(e) => Err(e),
            None => Ok(()),
        }
    }

    /// The response that was read as number `i`, counted from 0; 0 if there was none.
    pub open spec fn response(self, i: int) -> u32 {
        if 0 <= i < self.responses.len() {
            self.responses[i]
        } else {
            0
        }
    }

    /// What is due.
    pub open spec fn action(self) -> Action {
        if self.running() {
            self.steps[self.at as int].action()
        } else {
            Action::Done(self.result())
        }
    }

    /// The step that is due has been done.
    pub open spec fn moved_on(self) -> RunState {
        RunState { at: self.at + 1, halfway: false, ..self }
    }

    /// What is named is found in progress: in a wait for both paths, the data path is looked at
    /// first and then, in a status of its own, the command path.
    pub open spec fn in_progress(self, wait: Wait, s: Star) -> bool {
        match wait {
            Wait::Command => self.inner.cmd_active_spec(s),
            Wait::Data => self.inner.data_active_spec(s),
            Wait::Both => if self.halfway {
                self.inner.cmd_active_spec(s)
            } else {
                self.inner.data_active_spec(s)
            },
        }
    }

    /// What a reply makes of it. A reply that does not answer what was due changes nothing.
    pub open spec fn after(self, reply: Reply) -> RunState {
        if !self.running() {
            self
        } else {
            match (self.steps[self.at as int], reply) {
                (Step::Write(_), Reply::Ack) => self.moved_on(),
                (Step::Delay(_), Reply::Ack) => self.moved_on(),
                (Step::AwaitIdle(wait), Reply::Status(s)) => if self.in_progress(wait, s) {
                    RunState { halfway: false, ..self }
                } else if wait == Wait::Both && !self.halfway {
                    RunState { halfway: true, ..self }
                } else {
                    self.moved_on()
                },
                (Step::AwaitAnswer(resp), Reply::Status(s)) => match answer(resp, s) {
                    None => self,
                    Some(Ok(_)) => self.moved_on(),
                    Some(Err(e)) => RunState { failed: Some(e), ..self },
                },
                (Step::ReadResponse(_), Reply::Response(r)) => RunState {
                    responses: self.responses.push(r),
                    ..self.moved_on()
                },
                (Step::IfDataActive(n), Reply::Status(s)) => if self.inner.data_active_spec(s) {
                    self.moved_on()
                } else if self.at + 1 + n <= self.steps.len() {
                    RunState { at: self.at + 1 + n as nat, ..self.moved_on() }
                } else {
                    RunState { at: self.steps.len(), ..self.moved_on() }
                },
                _ => self,
            }
        }
    }
}

/// A script that is being carried out.
#[derive(Debug)]
pub struct Run {
    inner: SdmmcInner,
    steps: Vec<Step>,
    at: usize,
    halfway: bool,
    responses: Vec<u32>,
    failed: Option<Error>,
}

impl View for Run {
    type V = RunState;

    closed spec fn view(&self) -> RunState {
        RunState {
            inner: self.inner,
            steps: self.steps@,
            at: self.at as nat,
            halfway: self.halfway,
            responses: self.responses@,
            failed: self.failed,
        }
    }
}

impl Run {
    /// Starts on a script.
    pub fn new(inner: SdmmcInner, steps: Vec<Step>) -> (r: Run)
        ensures
            r@ == RunState::start(inner, steps@),
    {
        Run { inner, steps, at: 0, halfway: false, responses: Vec::new(), failed: None }
    }

    /// Tells what is due.
    pub fn action(&self) -> (a: Action)
        ensures
            a == self@.action(),
    {
        match self.failed {
            Some(e) => Action::Done(Err(e)),
            None => {
                if self.at >= self.steps.len() {
                    return Action::Done(Ok(()));
                }
                match self.steps[self.at] {
                    Step::Write(w) => Action::Write(w),
                    Step::AwaitIdle(_) => Action::ReadStatus,
                    Step::AwaitAnswer(_) => Action::ReadStatus,
                    Step::ReadResponse(n) => Action::ReadResponse(n),
                    Step::Delay(n) => Action::Delay(n),
                    Step::IfDataActive(_) => Action::ReadStatus,
                }
            },
        }
    }

    /// Goes on to the step at this place.
    fn go_to(&mut self, at: usize)
        ensures
            final(self)@ == (RunState { at: at as nat, halfway: false, ..old(self)@ }),
    {
        self.at = at;
        self.halfway = false;
    }

    /// Takes the reply to what was due.
    pub fn resume(&mut self, reply: Reply)
        ensures
            final(self)@ == old(self)@.after(reply),
    {
        if self.failed.is_some() || self.at >= self.steps.len() {
            return;
        }
        let next: usize = self.at + 1;
        match (self.steps[self.at], reply) {
            (Step::Write(_), Reply::Ack) => self.go_to(next),
            (Step::Delay(_), Reply::Ack) => self.go_to(next),
            (Step::AwaitIdle(Wait::Command), Reply::Status(s)) => {
                if self.inner.cmd_active(s) {
                    self.halfway = false;
                } else {
                    self.go_to(next);
                }
            },
            (Step::AwaitIdle(Wait::Data), Reply::Status(s)) => {
                if self.inner.data_active(s) {
                    self.halfway = false;
                } else {
                    self.go_to(next);
                }
            },
            (Step::AwaitIdle(Wait::Both), Reply::Status(s)) => {
                if !self.halfway {
                    self.halfway = !self.inner.data_active(s);
                } else if self.inner.cmd_active(s) {
                    self.halfway = false;
                } else {
                    self.go_to(next);
                }
            },
            (Step::AwaitAnswer(resp), Reply::Status(s)) => {
                match command_answer(resp, s) {
                    None => {},
                    Some(Ok(_)) => self.go_to(next),
                    Some(Err(e)) => {
                        self.failed = Some(e);
                    },
                }
            },
            (Step::ReadResponse(_), Reply::Response(r)) => {
                self.responses.push(r);
                self.go_to(next);
            },
            (Step::IfDataActive(n), Reply::Status(s)) => {
                if self.inner.data_active(s) {
                    self.go_to(next);
                } else if n <= self.steps.len() - next {
                    self.go_to(next + n);
                } else {
                    self.go_to(self.steps.len());
                }
            },
            _ => {},
        }
    }

    /// The response that was read as number `i`, counted from 0; 0 if there was none.
    pub fn response(&self, i: usize) -> (r: u32)
        ensures
            r == self@.response(i as int),
    {
        if i < self.responses.len() {
            self.responses[i]
        } else {
            0
        }
    }
}

} // verus!
