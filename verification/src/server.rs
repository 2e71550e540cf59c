//! The logic of a raft server except for delay, timeouts, messaging and
//! configuration, which are handled by the caller.
use vstd::prelude::*;

use crate::log::{self, last_term, Item, LogIndex};
use crate::rpc::{AppendEntriesRequest, AppendEntriesResponse, RPCMessage, RequestVoteRequest, RequestVoteResponse};
use crate::state::{command_ptrs, commands_between, highest_committable, Persistent, ServerState, States};
use crate::state_machine::{ClosureReceiver, Receiver};
use crate::{CommandPtr, NotLeader, ServerId, Term};

verus! {

/// The logic of a raft server except for delay, timeouts, messaging and
/// configuration which are handled by the client.
#[verifier::reject_recursive_types(Command)]
pub struct Server<Command, Log> {
    /// state and state logic of a raft server
    pub state: ServerState<Log>,
    /// state machine receiver
    pub receiver: Box<dyn Receiver<Command>>,
    /// id of this server
    pub server_id: ServerId,
    /// number of votes received in the current term
    pub votes_this_term: u8,
}

/// The larger of two terms.
pub open spec fn later_term(a: Term, b: Term) -> Term {
    if a >= b {
        a
    } else {
        b
    }
}

impl<Command, L: log::Log<Command = Command>> Server<Command, L> {
    /// The invariant that the server's operations keep.
    pub open spec fn wf(&self) -> bool {
        self.state.wf()
    }

    pub open spec fn term(&self) -> Term {
        self.state.persistent_state.current_term
    }

    /// The commands delivered to the state machine so far, in order.
    pub open spec fn delivered(&self) -> Seq<Command> {
        self.receiver.received()
    }

    /// The state machine accepts the commands at positions `from + 1 ..= to` of `log`.
    pub open spec fn accepts_between(&self, log: Seq<Item<Command>>, from: int, to: int) -> bool {
        forall|j: int| from <= j < to ==> self.receiver.accepts(#[trigger] log[j].command)
    }

    /// The state machine accepts the same commands as it did in `earlier`.
    pub open spec fn accepts_as(&self, earlier: &Self) -> bool {
        forall|c: Command| #[trigger] self.receiver.accepts(c) == earlier.receiver.accepts(c)
    }

    /// `self` is `earlier` after the commands at positions
    /// `earlier.last_applied + 1 ..= self.last_applied` of `log` were delivered.
    pub open spec fn delivered_from(&self, earlier: &Self, log: Seq<Item<Command>>) -> bool {
        &&& self.delivered() == earlier.delivered() + commands_between(
            log,
            earlier.state.last_applied as int,
            self.state.last_applied as int,
        )
        &&& self.accepts_as(earlier)
        &&& self.state.last_applied <= earlier.state.last_applied ==> self.receiver == earlier.receiver
    }

    /// Make a server whose state machine is the closure `state_machine`.
    pub fn new<F: Fn(&Command) + 'static>(
        server_id: ServerId,
        persistent_state: Persistent<L>,
        state_machine: Box<F>,
    ) -> (server: Self) where Command: 'static
        ensures
            server.delivered() == Seq::<Command>::empty(),
            forall|c: Command| #[trigger] server.receiver.accepts(c) == call_requires(*state_machine, (&c,)),
            server.state.state is Follower,
            server.state.persistent_state == persistent_state,
            server.state.commit_index == 0,
            server.state.last_applied == 0,
            server.server_id == server_id,
            server.votes_this_term == 0,
            server.wf(),
    {
        let closure_receiver = ClosureReceiver::new(*state_machine);
        let server = Self {
            state: ServerState::new(persistent_state),
            receiver: Box::new(closure_receiver),
            server_id,
            votes_this_term: 0,
        };
        assert(server.receiver.received() == closure_receiver.received());
        server
    }

    /// Prehandling of all RPC requests before the receiver logic:
    /// if RPC request or response contains term T > currentTerm: set
    /// currentTerm = T, convert to follower (§5.1).
    pub fn pre_handle<M: RPCMessage>(&mut self, message: &M)
        requires
            old(self).wf(),
        ensures
            final(self).wf(),
            final(self).state.advanced_from(&old(self).state),
            final(self).term() == later_term(old(self).term(), message.message_term()),
            message.message_term() > old(self).term() ==> final(self).state.state is Follower,
            message.message_term() <= old(self).term() ==> final(self).state.state == old(self).state.state,
            final(self).state.persistent_state.voted_for == old(self).state.persistent_state.voted_for,
            final(self).state.persistent_state.log == old(self).state.persistent_state.log,
            final(self).state.commit_index == old(self).state.commit_index,
            final(self).state.last_applied == old(self).state.last_applied,
            final(self).server_id == old(self).server_id,
            final(self).votes_this_term == old(self).votes_this_term,
            final(self).receiver == old(self).receiver,
    {
        let term = message.term();
        if term > self.state.current_term() {
            self.state.follow_new_term(term);
        }
    }

    /// Post handling applies any committed commands to the state machine.
    /// Returns the pointers of the commands applied, in log order.
    pub fn post_handle(&mut self) -> (applied: Vec<CommandPtr>)
        requires
            old(self).wf(),
            old(self).accepts_between(
                old(self).state.log_entries(),
                old(self).state.last_applied as int,
                old(self).state.commit_index as int,
            ),
        ensures
            final(self).wf(),
            final(self).delivered_from(old(self), old(self).state.log_entries()),
            final(self).state.advanced_from(&old(self).state),
            final(self).state.last_applied == if old(self).state.commit_index > old(self).state.last_applied {
                old(self).state.commit_index
            } else {
                old(self).state.last_applied
            },
            applied@ == command_ptrs(
                old(self).state.log_entries(),
                old(self).state.last_applied as int,
                final(self).state.last_applied as int,
            ),
            final(self).state.state == old(self).state.state,
            final(self).state.persistent_state == old(self).state.persistent_state,
            final(self).state.commit_index == old(self).state.commit_index,
            final(self).server_id == old(self).server_id,
            final(self).votes_this_term == old(self).votes_this_term,
    {
        self.state.apply_commited(&mut self.receiver)
    }

    /// No messages have been received over the election timeout.
    /// # Followers (§5.2):
    /// - If election timeout elapses without receiving `AppendEntries` RPC from current leader or granting vote to candidate: convert to candidate
    /// # Candidates (§5.2):
    /// - On conversion to candidate, start election:
    ///   - Increment currentTerm
    ///   - Vote for self
    ///   - Reset election timer
    ///   - Send `RequestVote` RPCs to all other servers
    /// - If election timeout elapses: start new election
    pub fn election_timeout(&mut self) -> (req: RequestVoteRequest)
        requires
            old(self).wf(),
            !(old(self).state.state is Leader),
            old(self).term() < Term::MAX,
        ensures
            final(self).wf(),
            final(self).state.advanced_from(&old(self).state),
            final(self).state.state is Candidate,
            final(self).term() == old(self).term() + 1,
            final(self).state.persistent_state.voted_for == Some(old(self).server_id),
            final(self).votes_this_term == 1,
            final(self).state.persistent_state.log == old(self).state.persistent_state.log,
            final(self).state.commit_index == old(self).state.commit_index,
            final(self).state.last_applied == old(self).state.last_applied,
            final(self).server_id == old(self).server_id,
            final(self).receiver == old(self).receiver,
            req == (RequestVoteRequest {
                term: final(self).term(),
                candidate_id: old(self).server_id,
                last_log_index: old(self).state.log_entries().len() as LogIndex,
                last_log_term: last_term(old(self).state.log_entries()),
            }),
    {
        self.votes_this_term = 1;
        self.state.start_election(self.server_id)
    }

    /// While waiting for votes, a candidate may receive an `AppendEntries` RPC
    /// from another server claiming to be leader. If the leader’s term (included
    /// in its RPC) is at least as large as the candidate’s current term, then the
    /// candidate recognizes the leader as legitimate and returns to follower
    /// state. If the term in the RPC is smaller than the candidate’s current
    /// term, then the candidate rejects the RPC and continues in candidate state.
    /// Committed commands are applied afterwards.
    pub fn receive_append_entries(&mut self, req: AppendEntriesRequest<Command>) -> (res: AppendEntriesResponse)
        requires
            old(self).wf(),
            !(old(self).state.state is Leader),
            old(self).state.can_append(req),
            !(old(self).state.state is Candidate && req.term < old(self).term()) ==> if old(
                self,
            ).state.accepts_append_entries(req) {
                old(self).accepts_between(
                    old(self).state.appended_log(req),
                    old(self).state.last_applied as int,
                    old(self).state.commit_after_append(req),
                )
            } else {
                old(self).accepts_between(
                    old(self).state.log_entries(),
                    old(self).state.last_applied as int,
                    old(self).state.commit_index as int,
                )
            },
        ensures
            final(self).wf(),
            final(self).state.advanced_from(&old(self).state),
            res.success == old(self).state.accepts_append_entries(req),
            res.term == final(self).term(),
            final(self).term() == later_term(old(self).term(), req.term),
            req.term >= old(self).term() ==> final(self).state.state is Follower,
            req.term < old(self).term() ==> final(self).state.state == old(self).state.state,
            final(self).state.persistent_state.voted_for == old(self).state.persistent_state.voted_for,
            res.success ==> final(self).state.log_entries() == old(self).state.appended_log(req)
                && final(self).state.commit_index == old(self).state.commit_after_append(req),
            !res.success ==> final(self).state.persistent_state.log == old(self).state.persistent_state.log
                && final(self).state.commit_index == old(self).state.commit_index,
            old(self).state.state is Candidate && req.term < old(self).term()
                ==> final(self).state.last_applied == old(self).state.last_applied,
            !(old(self).state.state is Candidate && req.term < old(self).term())
                ==> final(self).state.last_applied == if final(self).state.commit_index
                > old(self).state.last_applied {
                final(self).state.commit_index
            } else {
                old(self).state.last_applied
            },
            old(self).state.state is Candidate && req.term < old(self).term()
                ==> final(self).receiver == old(self).receiver,
            !(old(self).state.state is Candidate && req.term < old(self).term())
                ==> final(self).delivered_from(old(self), final(self).state.log_entries()),
            final(self).server_id == old(self).server_id,
            final(self).votes_this_term == old(self).votes_this_term,
    {
        // If the term in the RPC is smaller than the candidate’s current term, then the candidate rejects the RPC and continues in candidate state.
        if self.state.is_candidate() && req.term < self.state.current_term() {
            return AppendEntriesResponse { term: self.state.current_term(), success: false };
        }
        // If the leader’s term (included in its RPC) is at least as large as the candidate’s current term, then the candidate recognizes the leader as legitimate and
        // returns to follower state.
        if req.term >= self.state.current_term() {
            self.state.follow_new_term(req.term);
        }
        let resp = self.state.receive_append_entries(req);
        self.post_handle();
        resp
    }

    /// Receives a `RequestVote` request: adopts a later term, then votes by the
    /// rules of [`ServerState::receive_request_vote`].
    pub fn receive_request_vote(&mut self, req: RequestVoteRequest) -> (res: RequestVoteResponse)
        requires
            old(self).wf(),
        ensures
            final(self).wf(),
            final(self).state.advanced_from(&old(self).state),
            res.vote_granted == old(self).state.grants_vote(req),
            res.term == final(self).term(),
            final(self).term() == later_term(old(self).term(), req.term),
            req.term > old(self).term() ==> final(self).state.state is Follower,
            req.term <= old(self).term() ==> final(self).state.state == old(self).state.state,
            final(self).state.persistent_state.voted_for == if res.vote_granted {
                Some(req.candidate_id)
            } else {
                old(self).state.persistent_state.voted_for
            },
            final(self).state.persistent_state.log == old(self).state.persistent_state.log,
            final(self).state.commit_index == old(self).state.commit_index,
            final(self).state.last_applied == old(self).state.last_applied,
            final(self).server_id == old(self).server_id,
            final(self).votes_this_term == old(self).votes_this_term,
            final(self).receiver == old(self).receiver,
    {
        self.pre_handle(&req);
        self.state.receive_request_vote(req)
    }

    /// Receives a `RequestVote` response.
    /// # Return
    /// if the server determines it has won the election with the received vote, an `AppendEntriesRequest` heartbeat is
    /// returned which the client needs to send to all other servers in the cluster. At this point the client must also
    /// start a heartbeat timer and start calling the heartbeat method on it
    pub fn receive_vote(&mut self, res: RequestVoteResponse, total_servers: ServerId) -> (announce: Option<AppendEntriesRequest<Command>>)
        requires
            old(self).wf(),
            old(self).state.log_entries().len() < usize::MAX,
            old(self).state.state is Candidate && res.term == old(self).term() && res.vote_granted
                ==> old(self).votes_this_term < u8::MAX,
        ensures
            final(self).wf(),
            final(self).state.advanced_from(&old(self).state),
            !(old(self).state.state is Candidate) ==> announce is None
                && final(self).votes_this_term == old(self).votes_this_term
                && final(self).state.state == old(self).state.state,
            old(self).state.state is Candidate ==> {
                &&& final(self).votes_this_term == old(self).votes_this_term + if res.term == old(self).term()
                    && res.vote_granted {
                    1int
                } else {
                    0int
                }
                &&& final(self).votes_this_term > total_servers / 2 ==> {
                    &&& final(self).state.state is Leader
                    &&& final(self).state.leader_state().next_index@ == Seq::new(
                        total_servers as nat,
                        |i: int| (old(self).state.log_entries().len() + 1) as LogIndex,
                    )
                    &&& final(self).state.leader_state().match_index@ == Seq::new(total_servers as nat, |i: int| 0 as LogIndex)
                    &&& announce matches Some(req) && req.term == old(self).term()
                        && req.leader_id == old(self).server_id && req.prev_log_index == 0
                        && req.prev_log_term == 0 && req.entries@ == Seq::<Item<Command>>::empty()
                        && req.leader_commit == old(self).state.commit_index
                }
                &&& final(self).votes_this_term <= total_servers / 2 ==> announce is None
                    && final(self).state.state == old(self).state.state
            },
            final(self).state.persistent_state == old(self).state.persistent_state,
            final(self).state.commit_index == old(self).state.commit_index,
            final(self).state.last_applied == old(self).state.last_applied,
            final(self).server_id == old(self).server_id,
            final(self).receiver == old(self).receiver,
    {
        if !self.state.is_candidate() {
            return None;
        }
        // count votes
        if res.term == self.state.current_term() && res.vote_granted {
            self.votes_this_term = self.votes_this_term + 1;
        }
        // If votes received from majority of servers:
        if self.votes_this_term > total_servers / 2 {
            // become leader
            self.state.become_leader(total_servers);
            // Upon election: send initial empty AppendEntries RPCs
            Some(
                AppendEntriesRequest {
                    term: self.state.current_term(),
                    leader_id: self.server_id,
                    prev_log_index: 0,
                    prev_log_term: 0,
                    entries: Vec::new(),
                    leader_commit: self.state.commit_index(),
                },
            )
        } else {
            None
        }
    }

    /// Receive response from `AppendEntriesRequest`
    /// - If successful: update nextIndex and matchIndex for follower (§5.3)
    /// - If `AppendEntriesRequest` fails because of log inconsistency: decrement nextIndex and retry (§5.3)
    /// # Args
    /// Requires the id of the server responding the the append entries request, and the `match_index` which is the index of the last log entry sent in the request.
    /// # Return
    /// `Vec` of command pointers which have been newly applied, the client will need to send any client responses associated
    /// with those commands
    pub fn receive_append_entries_response(
        &mut self,
        from: ServerId,
        match_index: LogIndex,
        res: AppendEntriesResponse,
    ) -> (applied: Vec<CommandPtr>)
        requires
            old(self).wf(),
            old(self).state.state is Leader ==> (from as int) < old(self).state.leader_state().next_index.len(),
            old(self).state.state is Leader && res.success ==> {
                &&& match_index >= old(self).state.leader_state().match_index[from as int]
                &&& match_index <= old(self).state.log_entries().len()
                &&& match_index < usize::MAX
            },
            old(self).state.state is Leader && res.success ==> forall|r: int|
                #[trigger] highest_committable(
                    old(self).state.log_entries(),
                    old(self).state.leader_state().match_index@.update(from as int, match_index),
                    old(self).term(),
                    old(self).state.commit_index as int,
                    old(self).state.log_entries().len() as int,
                    r,
                ) ==> old(self).accepts_between(
                    old(self).state.log_entries(),
                    old(self).state.last_applied as int,
                    r,
                ),
            !(old(self).state.state is Leader) && res.success ==> old(self).accepts_between(
                old(self).state.log_entries(),
                old(self).state.last_applied as int,
                old(self).state.commit_index as int,
            ),
        ensures
            final(self).wf(),
            final(self).state.advanced_from(&old(self).state),
            final(self).state.persistent_state == old(self).state.persistent_state,
            final(self).server_id == old(self).server_id,
            final(self).votes_this_term == old(self).votes_this_term,
            !(old(self).state.state is Leader) ==> final(self).state.state == old(self).state.state
                && final(self).state.commit_index == old(self).state.commit_index,
            old(self).state.state is Leader && res.success ==> {
                &&& final(self).state.state is Leader
                &&& final(self).state.leader_state().match_index@
                    == old(self).state.leader_state().match_index@.update(from as int, match_index)
                &&& final(self).state.leader_state().next_index@
                    == old(self).state.leader_state().next_index@.update(from as int, (match_index + 1) as LogIndex)
                &&& highest_committable(
                    old(self).state.log_entries(),
                    final(self).state.leader_state().match_index@,
                    old(self).term(),
                    old(self).state.commit_index as int,
                    old(self).state.log_entries().len() as int,
                    final(self).state.commit_index as int,
                )
            },
            old(self).state.state is Leader && !res.success ==> {
                let next = old(self).state.leader_state().next_index[from as int];
                &&& final(self).state.state is Leader
                &&& final(self).state.leader_state().match_index == old(self).state.leader_state().match_index
                &&& final(self).state.leader_state().next_index@ == if next > 1 {
                    old(self).state.leader_state().next_index@.update(from as int, (next - 1) as LogIndex)
                } else {
                    old(self).state.leader_state().next_index@
                }
                &&& final(self).state.commit_index == old(self).state.commit_index
            },
            res.success ==> final(self).state.last_applied == if final(self).state.commit_index > old(self).state.last_applied {
                final(self).state.commit_index
            } else {
                old(self).state.last_applied
            },
            !res.success ==> final(self).state.last_applied == old(self).state.last_applied,
            res.success ==> final(self).delivered_from(old(self), old(self).state.log_entries()),
            !res.success ==> final(self).receiver == old(self).receiver,
            applied@ == command_ptrs(
                old(self).state.log_entries(),
                old(self).state.last_applied as int,
                final(self).state.last_applied as int,
            ),
    {
        if res.success {
            self.state.update_follower(from, match_index);
            proof {
                if old(self).state.state is Leader {
                    assert(self.state.leader_state().match_index@
                        == old(self).state.leader_state().match_index@.update(from as int, match_index));
                    assert(highest_committable(
                        old(self).state.log_entries(),
                        old(self).state.leader_state().match_index@.update(from as int, match_index),
                        old(self).term(),
                        old(self).state.commit_index as int,
                        old(self).state.log_entries().len() as int,
                        self.state.commit_index as int,
                    ));
                }
            }
            self.post_handle()
        } else {
            self.state.follower_inconsistent(from);
            Vec::new()
        }
    }

    /// Client adds a command
    /// # Return
    /// Command pointer, the client can be informed of the successful application of the command once this command
    /// pointer is returned by `receive_append_entries_response`
    pub fn command(&mut self, command: Command) -> (ptr: Result<CommandPtr, NotLeader>)
        requires
            old(self).wf(),
            old(self).state.log_entries().len() < usize::MAX,
        ensures
            final(self).wf(),
            final(self).state.advanced_from(&old(self).state),
            old(self).state.state is Leader ==> {
                &&& final(self).state.log_entries() == old(self).state.log_entries().push(
                    Item { term: old(self).term(), command },
                )
                &&& ptr == Ok::<CommandPtr, NotLeader>(
                    ((old(self).state.log_entries().len() + 1) as LogIndex, old(self).term()),
                )
            },
            !(old(self).state.state is Leader) ==> {
                &&& ptr == Err::<CommandPtr, NotLeader>(NotLeader)
                &&& final(self).state.persistent_state.log == old(self).state.persistent_state.log
            },
            final(self).state.state == old(self).state.state,
            final(self).term() == old(self).term(),
            final(self).state.persistent_state.voted_for == old(self).state.persistent_state.voted_for,
            final(self).state.commit_index == old(self).state.commit_index,
            final(self).state.last_applied == old(self).state.last_applied,
            final(self).server_id == old(self).server_id,
            final(self).votes_this_term == old(self).votes_this_term,
            final(self).receiver == old(self).receiver,
    {
        self.state.add_command(command)
    }

    /// Call this on a timer from when an election is won, until a `pre_handle`
    /// indicates that a new election has been called. Returns the
    /// `AppendEntries` request for every other server, in order of server id.
    pub fn heartbeat(&mut self) -> (reqs: Vec<(ServerId, AppendEntriesRequest<Command>)>)
        requires
            old(self).wf(),
        ensures
            final(self).state == old(self).state,
            final(self).server_id == old(self).server_id,
            final(self).votes_this_term == old(self).votes_this_term,
            final(self).receiver == old(self).receiver,
            !(old(self).state.state is Leader) ==> reqs.len() == 0,
            old(self).state.state is Leader ==> {
                &&& reqs.len() == crate::state::peer_count(
                    old(self).server_id,
                    old(self).state.leader_state().next_index.len() as int,
                )
                &&& forall|j: int|
                    0 <= j < reqs.len() ==> {
                        &&& (#[trigger] reqs@[j]).0 == crate::state::peer_at(old(self).server_id, j)
                        &&& old(self).state.is_append_entries_for(
                            reqs@[j].1,
                            old(self).server_id,
                            crate::state::peer_at(old(self).server_id, j),
                        )
                    }
            },
    {
        self.state.produce_append_entries(self.server_id)
    }

    pub fn get_state(&self) -> (state: &ServerState<L>)
        ensures
            *state == self.state,
    {
        &self.state
    }
}

} // verus!
