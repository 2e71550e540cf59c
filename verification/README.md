# raft

The core of a Raft consensus server as a verified library: the replicated log,
the persistent and volatile server state of Figure 2 of the Raft paper, and the
rules by which a server reacts to elections, `RequestVote` and `AppendEntries`
RPCs and client commands. Timers, messaging and configuration are left to the
caller.

- `src/log.rs` — log entries, the `Log` trait and its implementation for `Vec`,
  and the lemmas about merging received entries into a log.
- `src/rpc.rs` — the RPC messages.
- `src/state.rs` — `Persistent`, `Leader`, `States`, `ServerState` and the laws
  about voting, committing and catching up.
- `src/server.rs` — `Server`, the entry points a transport calls.
- `src/state_machine.rs` — the `Receiver` that committed commands are applied to.
- `app/` — serialisable copies of the RPC messages for an actix transport.
