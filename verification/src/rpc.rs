//! Raft servers communicate using remote procedure calls (RPCs), and the basic
//! consensus algorithm requires only two types of RPCs. `RequestVote` RPCs are
//! initiated by candidates during elections (§5.2), and `AppendEntries` RPCs are
//! initiated by leaders to replicate log entries and to provide a form of
//! heartbeat (§5.3).
use vstd::prelude::*;

use crate::log::{Item, LogIndex};
use crate::{ServerId, Term};

verus! {

/// A message that carries the term of its sender.
pub trait RPCMessage {
    spec fn message_term(&self) -> Term;

    fn term(&self) -> (term: Term)
        ensures
            term == self.message_term(),
    ;
}

/// Invoked by leader to replicate log entries (§5.3); also used as heartbeat (§5.2).
#[derive(Clone, Debug, PartialEq, Eq)]
pub struct AppendEntriesRequest<Command> {
    /// leader’s term
    pub term: Term,
    /// so follower can redirect clients
    pub leader_id: ServerId,
    /// index of log entry immediately preceding new ones
    pub prev_log_index: LogIndex,
    /// term of the entry at prev_log_index
    pub prev_log_term: Term,
    /// log entries to store (empty for heartbeat; may send more than one for efficiency)
    pub entries: Vec<Item<Command>>,
    /// leader’s commitIndex
    pub leader_commit: LogIndex,
}

#[derive(Clone, Copy, Debug, PartialEq, Eq)]
pub struct AppendEntriesResponse {
    /// currentTerm, for leader to update itself
    pub term: Term,
    /// true if follower contained entry matching prevLogIndex and prevLogTerm
    pub success: bool,
}

/// Invoked by candidates to gather votes (§5.2).
#[derive(Clone, Copy, Debug, PartialEq, Eq)]
pub struct RequestVoteRequest {
    /// candidate’s term
    pub term: Term,
    /// candidate requesting vote
    pub candidate_id: ServerId,
    /// index of candidate’s last log entry (§5.4)
    pub last_log_index: LogIndex,
    /// term of candidate’s last log entry (§5.4)
    pub last_log_term: Term,
}

#[derive(Clone, Copy, Debug, PartialEq, Eq)]
pub struct RequestVoteResponse {
    /// currentTerm, for candidate to update itself
    pub term: Term,
    /// true means candidate received vote
    pub vote_granted: bool,
}

impl<Command> RPCMessage for AppendEntriesRequest<Command> {
    open spec fn message_term(&self) -> Term {
        self.term
    }

    fn term(&self) -> (term: Term) {
        self.term
    }
}

impl RPCMessage for RequestVoteRequest {
    open spec fn message_term(&self) -> Term {
        self.term
    }

    fn term(&self) -> (term: Term) {
        self.term
    }
}

} // verus!
