//! A piece of work that a longer procedure waits for: a script or a transfer.

use vstd::prelude::*;

use crate::registers::{Action, Reply};
use crate::script::{Run, RunState, Step};
use crate::transfer::{no_words, Transfer, TransferState};

verus! {

/// A script or a transfer, and how far it has come.
pub enum JobState {
    Script(RunState),
    Moving(TransferState),
}

impl JobState {
    /// What is due.
    pub open spec fn action(self) -> Action {
        match self {
            JobState::Script(r) => r.action(),
            JobState::Moving(t) => t.action(),
        }
    }

    /// What a reply makes of it.
    pub open spec fn after(self, reply: Reply) -> JobState {
        match self {
            JobState::Script(r) => JobState::Script(r.after(reply)),
            JobState::Moving(t) => JobState::Moving(t.after(reply)),
        }
    }

    /// The response that a script read as number `i`, counted from 0; 0 if there was none.
    pub open spec fn response(self, i: int) -> u32 {
        match self {
            JobState::Script(r) => r.response(i),
            JobState::Moving(_) => 0,
        }
    }

    /// What a transfer received into the scratch buffer.
    pub open spec fn words(self) -> Seq<u32> {
        match self {
            JobState::Script(_) => no_words(),
            JobState::Moving(t) => t.words,
        }
    }

    /// What has to be done where the work is given up.
    pub open spec fn abandon_steps(self) -> Seq<Step> {
        match self {
            JobState::Script(_) => Seq::empty(),
            JobState::Moving(t) => t.abandon_steps(),
        }
    }
}

/// A script or a transfer under way.
#[derive(Debug)]
pub enum Job {
    Script(Run),
    Moving(Transfer),
}

impl View for Job {
    type V = JobState;

    open spec fn view(&self) -> JobState {
        match self {
            Job::Script(r) => JobState::Script(r@),
            Job::Moving(t) => JobState::Moving(t@),
        }
    }
}

impl Job {
    /// Tells what is due.
    pub fn action(&self) -> (a: Action)
        ensures
            a == self@.action(),
    {
        match self {
            Job::Script(r) => r.action(),
            Job::Moving(t) => t.action(),
        }
    }

    /// Takes the reply to what was due.
    pub fn resume(&mut self, reply: Reply)
        ensures
            final(self)@ == old(self)@.after(reply),
    {
        match self {
            Job::Script(r) => r.resume(reply),
            Job::Moving(t) => t.resume(reply),
        }
    }

    /// The response that a script read as number `i`, counted from 0; 0 if there was none.
    pub fn response(&self, i: usize) -> (r: u32)
        ensures
            r == self@.response(i as int),
    {
        match self {
            Job::Script(r) => r.response(i),
            Job::Moving(_) => 0,
        }
    }

    /// What a transfer received into the scratch buffer.
    pub fn words(&self) -> (w: [u32; 16])
        ensures
            w@ == self@.words(),
    {
        match self {
            Job::Script(_) => {
                let w: [u32; 16] = [0; 16];
                assert(w@ =~= no_words());
                w
            },
            Job::Moving(t) => t.words(),
        }
    }

    /// Writes the script for work that is given up.
    pub fn abandon(&self) -> (steps: Vec<Step>)
        ensures
            steps@ == self@.abandon_steps(),
    {
        match self {
            Job::Script(_) => Vec::new(),
            Job::Moving(t) => t.abandon(),
        }
    }
}

} // verus!
