//! The core logic of a Raft consensus server: the replicated log, the
//! persistent and volatile server state, and the reactions of a server to
//! the two Raft RPCs, all verified against specifications stated in `Seq`s.
use vstd::prelude::*;

pub mod laws;
pub mod log;
pub mod rpc;
pub mod server;
pub mod state;
pub mod state_machine;

verus! {

/// Identifier of a server in the cluster.
pub type ServerId = u8;

/// Time is divided into terms, and each term begins with an election. After a
/// successful election, a single leader manages the cluster until the end of
/// the term. Some elections fail, in which case the term ends without choosing
/// a leader. The transitions between terms may be observed at different times
/// on different servers.
pub type Term = u32;

/// Identifies a client command by the log position it was appended at and the
/// term of the leader that appended it: `(index, term)`. The command has been
/// applied once this pointer is among those a server reports as applied.
pub type CommandPtr = (log::LogIndex, Term);

/// Refusal of a client command by a server that is not the leader.
#[derive(Clone, Copy, Debug, PartialEq, Eq)]
pub struct NotLeader;

} // verus!
