//! The coarse status that an operator or agent records on a session or pane.

use vstd::prelude::*;
use crate::text::{lower_of, to_lowercase, trim, trim_of};

verus! {

/// A recorded status. `Unset` is an explicit choice to clear the status,
/// distinct from no status having been recorded at all.
#[derive(Clone, Copy, Debug, PartialEq, Eq, Hash, Structural)]
pub enum AgentStatus {
    Idle,
    Working,
    Waiting,
    Done,
    Unset,
}

/// The canonical lowercase token of each status.
pub open spec fn token_of(s: AgentStatus) -> Seq<char> {
    match s {
        AgentStatus::Idle => seq!['i', 'd', 'l', 'e'],
        AgentStatus::Working => seq!['w', 'o', 'r', 'k', 'i', 'n', 'g'],
        AgentStatus::Waiting => seq!['w', 'a', 'i', 't', 'i', 'n', 'g'],
        AgentStatus::Done => seq!['d', 'o', 'n', 'e'],
        AgentStatus::Unset => seq!['n', 'o', 'n', 'e'],
    }
}

/// The status whose token is exactly `t`, if any.
pub open spec fn status_of_token(t: Seq<char>) -> Option<AgentStatus> {
    if t == token_of(AgentStatus::Idle) {
        Some(AgentStatus::Idle)
    } else if t == token_of(AgentStatus::Working) {
        Some(AgentStatus::Working)
    } else if t == token_of(AgentStatus::Waiting) {
        Some(AgentStatus::Waiting)
    } else if t == token_of(AgentStatus::Done) {
        Some(AgentStatus::Done)
    } else if t == token_of(AgentStatus::Unset) {
        Some(AgentStatus::Unset)
    } else {
        None
    }
}

/// The prefix of the message of a rejected token.
pub open spec fn invalid_prefix() -> Seq<char> {
    seq!['I', 'n', 'v', 'a', 'l', 'i', 'd', ' ', 's', 't', 'a', 't', 'u', 's', ':', ' ']
}

/// A status token that names no status.
#[derive(Debug)]
pub struct StatusParseError(pub String);

impl StatusParseError {
    /// The message: the rejected token after the fixed prefix.
    pub fn message(&self) -> (r: String)
        ensures
            r@ == self.0@,
    {
        self.0.clone()
    }
}

impl AgentStatus {
    /// The canonical token.
    pub fn token(&self) -> (r: String)
        ensures
            r@ == token_of(*self),
    {
        match self {
            AgentStatus::Idle => {
                let r = String::from_str("idle");
                proof { reveal_strlit("idle"); }
                r
            },
            AgentStatus::Working => {
                let r = String::from_str("working");
                proof { reveal_strlit("working"); }
                r
            },
            AgentStatus::Waiting => {
                let r = String::from_str("waiting");
                proof { reveal_strlit("waiting"); }
                r
            },
            AgentStatus::Done => {
                let r = String::from_str("done");
                proof { reveal_strlit("done"); }
                r
            },
            AgentStatus::Unset => {
                let r = String::from_str("none");
                proof { reveal_strlit("none"); }
                r
            },
        }
    }

    /// Reads an already trimmed and lowercased token.
    pub fn from_folded(t: &String) -> (r: Result<AgentStatus, StatusParseError>)
        ensures
            match r {
                Ok(s) => status_of_token(t@) == Some(s),
                Err(e) => status_of_token(t@) is None && e.0@ == invalid_prefix() + t@,
            },
    {
        if *t == AgentStatus::Idle.token() {
            return Ok(AgentStatus::Idle);
        }
        if *t == AgentStatus::Working.token() {
            return Ok(AgentStatus::Working);
        }
        if *t == AgentStatus::Waiting.token() {
            return Ok(AgentStatus::Waiting);
        }
        if *t == AgentStatus::Done.token() {
            return Ok(AgentStatus::Done);
        }
        if *t == AgentStatus::Unset.token() {
            return Ok(AgentStatus::Unset);
        }
        let mut message = String::from_str("Invalid status: ");
        proof { reveal_strlit("Invalid status: "); }
        message.append(t.as_str());
        Err(StatusParseError(message))
    }

    /// Reads a status token: surrounding whitespace is ignored and case does
    /// not matter.
    pub fn parse(value: &str) -> (r: Result<AgentStatus, StatusParseError>)
        ensures
            match r {
                Ok(s) => status_of_token(lower_of(trim_of(value@))) == Some(s),
                Err(e) => status_of_token(lower_of(trim_of(value@))) is None
                    && e.0@ == invalid_prefix() + lower_of(trim_of(value@)),
            },
    {
        let folded = to_lowercase(trim(value));
        AgentStatus::from_folded(&folded)
    }
}

impl std::str::FromStr for AgentStatus {
    type Err = StatusParseError;

    fn from_str(value: &str) -> Result<AgentStatus, StatusParseError> {
        AgentStatus::parse(value)
    }
}

} // verus!
