//! The state of a process, and the letter that the kernel writes for it.
use crate::error::RecordError;
use crate::text::to_chars;
use vstd::prelude::*;

verus! {

/// The state of a process.
#[derive(Clone, Copy, Debug, PartialEq, Eq, Structural)]
pub enum ProcessState {
    /// `R`: running.
    Running,
    /// `S`: sleeping in an interruptible wait.
    Sleeping,
    /// `D`: waiting in uninterruptible disk sleep.
    Waiting,
    /// `Z`: zombie.
    Zombie,
    /// `T`: stopped on a signal.
    Stopped,
    /// `t`: tracing stop.
    Tracing,
    /// `X`: dead.
    Dead,
    /// `K`: wakekill.
    Wakekill,
    /// `W`: waking.
    Waking,
    /// `P`: parked.
    Parked,
    /// `I`: idle.
    Idle,
}

impl ProcessState {
    /// The letter by which the kernel writes this state.
    pub open spec fn code(self) -> char {
        match self {
            ProcessState::Running => 'R',
            ProcessState::Sleeping => 'S',
            ProcessState::Waiting => 'D',
            ProcessState::Zombie => 'Z',
            ProcessState::Stopped => 'T',
            ProcessState::Tracing => 't',
            ProcessState::Dead => 'X',
            ProcessState::Wakekill => 'K',
            ProcessState::Waking => 'W',
            ProcessState::Parked => 'P',
            ProcessState::Idle => 'I',
        }
    }

    /// The state that the kernel writes as `c`.
    pub open spec fn of_code(c: char) -> Option<ProcessState> {
        if c == 'R' {
            Some(ProcessState::Running)
        } else if c == 'S' {
            Some(ProcessState::Sleeping)
        } else if c == 'D' {
            Some(ProcessState::Waiting)
        } else if c == 'Z' {
            Some(ProcessState::Zombie)
        } else if c == 'T' {
            Some(ProcessState::Stopped)
        } else if c == 't' {
            Some(ProcessState::Tracing)
        } else if c == 'X' {
            Some(ProcessState::Dead)
        } else if c == 'K' {
            Some(ProcessState::Wakekill)
        } else if c == 'W' {
            Some(ProcessState::Waking)
        } else if c == 'P' {
            Some(ProcessState::Parked)
        } else if c == 'I' {
            Some(ProcessState::Idle)
        } else {
            None
        }
    }

    /// The state that the text `s` names: `s` is one letter, the code of a
    /// state. Every other text is an `UnknownState`.
    pub open spec fn of_text(s: Seq<char>) -> Result<ProcessState, RecordError> {
        if s.len() == 1 && ProcessState::of_code(s[0]) is Some {
            Ok(ProcessState::of_code(s[0])->0)
        } else {
            Err(RecordError::UnknownState)
        }
    }

    /// Writing a state and reading it again gives the state; reading a
    /// letter and writing the state again gives the letter.
    pub proof fn lemma_code_round_trip(self, c: char)
        ensures
            ProcessState::of_code(self.code()) == Some(self),
            ProcessState::of_text(seq![self.code()]) == Ok::<ProcessState, RecordError>(self),
            ProcessState::of_code(c) matches Some(state) ==> state.code() == c,
    {
    }

    /// The state that `chars` names.
    pub fn from_chars(chars: &[char]) -> (r: Result<ProcessState, RecordError>)
        ensures
            r == ProcessState::of_text(chars@),
    {
        if chars.len() != 1 {
            return Err(RecordError::UnknownState);
        }
        let c = chars[0];
        if c == 'R' {
            Ok(ProcessState::Running)
        } else if c == 'S' {
            Ok(ProcessState::Sleeping)
        } else if c == 'D' {
            Ok(ProcessState::Waiting)
        } else if c == 'Z' {
            Ok(ProcessState::Zombie)
        } else if c == 'T' {
            Ok(ProcessState::Stopped)
        } else if c == 't' {
            Ok(ProcessState::Tracing)
        } else if c == 'X' {
            Ok(ProcessState::Dead)
        } else if c == 'K' {
            Ok(ProcessState::Wakekill)
        } else if c == 'W' {
            Ok(ProcessState::Waking)
        } else if c == 'P' {
            Ok(ProcessState::Parked)
        } else if c == 'I' {
            Ok(ProcessState::Idle)
        } else {
            Err(RecordError::UnknownState)
        }
    }

    /// The state that `s` names.
    pub fn from_str(s: &str) -> (r: Result<ProcessState, RecordError>)
        ensures
            r == ProcessState::of_text(s@),
    {
        let chars = to_chars(s);
        ProcessState::from_chars(chars.as_slice())
    }

    /// The letter of this state, as a string.
    pub fn to_string(&self) -> (r: String)
        ensures
            r@ == seq![self.code()],
    {
        let c = match self {
            ProcessState::Running => 'R',
            ProcessState::Sleeping => 'S',
            ProcessState::Waiting => 'D',
            ProcessState::Zombie => 'Z',
            ProcessState::Stopped => 'T',
            ProcessState::Tracing => 't',
            ProcessState::Dead => 'X',
            ProcessState::Wakekill => 'K',
            ProcessState::Waking => 'W',
            ProcessState::Parked => 'P',
            ProcessState::Idle => 'I',
        };
        let mut r = String::new();
        r.push(c);
        r
    }
}

} // verus!
