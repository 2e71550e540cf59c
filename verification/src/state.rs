//! The state of a Raft server (Figure 2 of the Raft paper) and the rules by
//! which it reacts to RPC requests.
use vstd::prelude::*;

use crate::log::{self, at_least_as_up_to_date, entry_matches, last_term, merge_entries, term_at, Item, LogIndex};
use crate::rpc::{AppendEntriesRequest, AppendEntriesResponse, RequestVoteRequest, RequestVoteResponse};
use crate::state_machine::Receiver;
use crate::{CommandPtr, NotLeader, ServerId, Term};

verus! {

/// Persistent state on all servers (updated on stable storage before responding to RPCs).
#[derive(Default)]
pub struct Persistent<Log> {
    /// latest term server has seen (initialized to 0 on first boot, increases monotonically)
    pub current_term: Term,
    /// candidateId that received vote in current term (or None if none)
    pub voted_for: Option<ServerId>,
    /// log entries; each entry contains command for state machine, and term when entry was received by leader (first index is 1)
    pub log: Log,
}

impl<Log> Persistent<Log> {
    /// Move to a later (or the same) term.
    /// The term must never decrease.
    pub fn set_current_term(&mut self, current_term: Term)
        requires
            current_term >= old(self).current_term,
        ensures
            final(self).current_term == current_term,
            final(self).voted_for == old(self).voted_for,
            final(self).log == old(self).log,
    {
        self.current_term = current_term;
    }
}

/// Volatile state on leaders (reinitialized after election), one slot per server.
#[derive(Debug, PartialEq)]
pub struct Leader {
    /// for each server, index of the next log entry to send to that server (initialized to leader last log index + 1)
    pub next_index: Vec<LogIndex>,
    /// for each server, index of highest log entry known to be replicated on server (initialized to 0, increases monotonically)
    pub match_index: Vec<LogIndex>,
}

impl Leader {
    pub fn new(num_servers: ServerId, last_log_index: LogIndex) -> (leader: Leader)
        requires
            last_log_index < usize::MAX,
        ensures
            leader.next_index@ == Seq::new(num_servers as nat, |i: int| (last_log_index + 1) as usize),
            leader.match_index@ == Seq::new(num_servers as nat, |i: int| 0usize),
    {
        let mut next_index: Vec<LogIndex> = Vec::new();
        let mut match_index: Vec<LogIndex> = Vec::new();
        let next = last_log_index + 1;
        let mut i: u8 = 0;
        while i < num_servers
            invariant
                i <= num_servers,
                next == last_log_index + 1,
                next_index@ == Seq::new(i as nat, |j: int| (last_log_index + 1) as usize),
                match_index@ == Seq::new(i as nat, |j: int| 0usize),
            decreases num_servers - i,
        {
            next_index.push(next);
            match_index.push(0);
            i = i + 1;
        }
        Leader { next_index, match_index }
    }

    /// Record that `server` holds the leader's log up to `match_index`.
    /// The match index of a server must never decrease.
    pub fn set_match_index(&mut self, server: ServerId, match_index: LogIndex)
        requires
            (server as int) < old(self).match_index.len(),
            match_index >= old(self).match_index[server as int],
        ensures
            final(self).match_index@ == old(self).match_index@.update(server as int, match_index),
            final(self).next_index == old(self).next_index,
    {
        self.match_index.set(server as usize, match_index);
    }
}

/// Server states. Followers only respond to requests from other servers. If a
/// follower receives no communication, it becomes a candidate and initiates an
/// election. A candidate that receives votes from a majority of the full
/// cluster becomes the new leader. Leaders typically operate until they fail.
#[derive(Debug, PartialEq)]
pub enum States {
    Follower,
    Candidate,
    /// Volatile state on leaders (reinitialized after election)
    Leader(Leader),
}

impl Default for States {
    fn default() -> (state: Self)
        ensures
            state is Follower,
    {
        Self::Follower
    }
}

/// Number of servers whose match index is at least `n`.
pub open spec fn replicated_count(match_index: Seq<LogIndex>, n: int) -> nat
    decreases match_index.len(),
{
    if match_index.len() == 0 {
        0
    } else {
        replicated_count(match_index.drop_last(), n) + if match_index.last() >= n {
            1nat
        } else {
            0nat
        }
    }
}

/// A leader in term `current_term` may commit position `n`: the entry there is
/// from its own term and, counting the leader itself, a majority of the
/// servers hold it (§5.3, §5.4).
pub open spec fn committable<C>(log: Seq<Item<C>>, match_index: Seq<LogIndex>, current_term: Term, n: int) -> bool {
    &&& 1 <= n <= log.len()
    &&& log[n - 1].term == current_term
    &&& replicated_count(match_index, n) + 1 > match_index.len() / 2
}

/// `result` is the highest committable position in `(commit_index, last]`,
/// or `commit_index` when that range holds no committable position.
pub open spec fn highest_committable<C>(
    log: Seq<Item<C>>,
    match_index: Seq<LogIndex>,
    current_term: Term,
    commit_index: int,
    last: int,
    result: int,
) -> bool {
    &&& result == commit_index || (commit_index < result <= last && committable(
        log,
        match_index,
        current_term,
        result,
    ))
    &&& forall|m: int|
        commit_index < m <= last && result < m ==> !#[trigger] committable(
            log,
            match_index,
            current_term,
            m,
        )
}

/// The commands at positions `from + 1 ..= to`, in log order.
pub open spec fn commands_between<C>(log: Seq<Item<C>>, from: int, to: int) -> Seq<C> {
    Seq::new((to - from) as nat, |j: int| log[from + j].command)
}

/// The pointers of the commands at positions `from + 1 ..= to`.
pub open spec fn command_ptrs<C>(log: Seq<Item<C>>, from: int, to: int) -> Seq<CommandPtr> {
    Seq::new((to - from) as nat, |j: int| ((from + 1 + j) as usize, log[from + j].term))
}

/// The id of the `j`-th peer of server `own_id`, peers in increasing order.
pub open spec fn peer_at(own_id: ServerId, j: int) -> int {
    if j < own_id {
        j
    } else {
        j + 1
    }
}

/// The number of peers of server `own_id` in a cluster of `n` slots.
pub open spec fn peer_count(own_id: ServerId, n: int) -> int {
    if (own_id as int) < n {
        n - 1
    } else {
        n
    }
}

/// Once a server has voted for `candidate` (and it keeps its vote until it
/// grants another), it grants no vote to any other candidate: each server votes
/// for at most one candidate in a given term (§5.2).
pub proof fn lemma_one_vote_per_term<L: log::Log>(state: ServerState<L>, candidate: ServerId, req: RequestVoteRequest)
    requires
        state.persistent_state.voted_for == Some(candidate),
        state.grants_vote(req),
    ensures
        req.candidate_id == candidate,
{
}

/// A leader only ever raises its commit index to a position that holds an
/// entry of its current term and that a majority of the cluster holds
/// (§5.3, §5.4).
pub proof fn lemma_commit_needs_majority<C>(
    log: Seq<Item<C>>,
    match_index: Seq<LogIndex>,
    current_term: Term,
    commit_index: int,
    last: int,
    result: int,
)
    requires
        highest_committable(log, match_index, current_term, commit_index, last, result),
        result > commit_index,
    ensures
        committable(log, match_index, current_term, result),
{
}

/// The highest committable position is unique: two results that both meet
/// `highest_committable` for the same leader state are the same position.
pub proof fn lemma_highest_committable_unique<C>(
    log: Seq<Item<C>>,
    match_index: Seq<LogIndex>,
    current_term: Term,
    commit_index: int,
    last: int,
    a: int,
    b: int,
)
    requires
        highest_committable(log, match_index, current_term, commit_index, last, a),
        highest_committable(log, match_index, current_term, commit_index, last, b),
    ensures
        a == b,
{
    if a < b {
        assert(committable(log, match_index, current_term, b));
    } else if b < a {
        assert(committable(log, match_index, current_term, a));
    }
}

/// When a follower accepts the AppendEntries request that the leader produced
/// for it, the follower's log ends up as long as the leader's, with the
/// leader's term at every position after the request's `prev_log_index`, and
/// its entries up to `prev_log_index` unchanged (§5.3).
pub proof fn lemma_accepted_append_entries_match_leader<L: log::Log>(
    leader: ServerState<L>,
    follower: ServerState<L>,
    leader_id: ServerId,
    peer: int,
    req: AppendEntriesRequest<L::Command>,
)
    requires
        leader.wf(),
        leader.state is Leader,
        0 <= peer < leader.leader_state().next_index.len(),
        leader.is_append_entries_for(req, leader_id, peer),
        follower.accepts_append_entries(req),
    ensures
        follower.appended_log(req).len() == leader.log_entries().len(),
        follower.appended_log(req).take(req.prev_log_index as int) == follower.log_entries().take(
            req.prev_log_index as int,
        ),
        forall|i: int|
            req.prev_log_index <= i < leader.log_entries().len() ==> #[trigger] follower.appended_log(
                req,
            )[i].term == leader.log_entries()[i].term,
{
    log::lemma_follower_catches_up(leader.log_entries(), follower.log_entries(), req.prev_log_index as int);
}

/// The current term, the commit index and the last applied index never
/// decrease over a run of states in which each step advances from the one
/// before (as every `Server` operation ensures of its step): any later state of
/// the run has advanced from any earlier one.
pub proof fn lemma_advanced_over_run<L: log::Log>(run: Seq<ServerState<L>>)
    requires
        forall|i: int| #![trigger run[i]] 0 <= i && i + 1 < run.len() ==> run[i + 1].advanced_from(&run[i]),
    ensures
        forall|i: int, j: int| 0 <= i <= j < run.len() ==> #[trigger] run[j].advanced_from(&run[i]),
{
    assert forall|i: int, j: int| 0 <= i <= j < run.len() implies #[trigger] run[j].advanced_from(&run[i]) by {
        lemma_advanced_between(run, i, j);
    }
}

proof fn lemma_advanced_between<L: log::Log>(run: Seq<ServerState<L>>, i: int, j: int)
    requires
        forall|k: int| #![trigger run[k]] 0 <= k && k + 1 < run.len() ==> run[k + 1].advanced_from(&run[k]),
        0 <= i <= j < run.len(),
    ensures
        run[j].advanced_from(&run[i]),
    decreases j - i,
{
    if i < j {
        lemma_advanced_between(run, i, j - 1);
        assert(run[j - 1 + 1].advanced_from(&run[j - 1]));
    }
}

/// Volatile state on all servers.
#[derive(Default)]
pub struct ServerState<Log> {
    pub state: States,
    pub persistent_state: Persistent<Log>,
    /// index of highest log entry known to be committed (initialized to 0, increases monotonically)
    pub commit_index: LogIndex,
    /// index of highest log entry applied to state machine (initialized to 0, increases monotonically)
    pub last_applied: LogIndex,
}

impl<L: log::Log> ServerState<L> {
    /// The entries of the log.
    pub open spec fn log_entries(&self) -> Seq<Item<L::Command>> {
        self.persistent_state.log.entries()
    }

    /// Every committed entry that is not applied yet is in the log.
    pub open spec fn pending_in_log(&self) -> bool {
        self.commit_index <= self.last_applied || self.commit_index <= self.log_entries().len()
    }

    /// The leader's bookkeeping has one slot per server, and every slot points
    /// into the log.
    pub open spec fn leader_consistent(&self) -> bool {
        match self.state {
            States::Leader(leader) => {
                &&& leader.next_index.len() == leader.match_index.len()
                &&& leader.next_index.len() < 256
                &&& forall|i: int|
                    0 <= i < leader.next_index.len() ==> 1 <= #[trigger] leader.next_index[i]
                        <= self.log_entries().len() + 1
                &&& forall|i: int|
                    0 <= i < leader.match_index.len() ==> #[trigger] leader.match_index[i]
                        <= self.log_entries().len()
            },
            _ => true,
        }
    }

    /// The invariant that the server's operations keep.
    pub open spec fn wf(&self) -> bool {
        self.pending_in_log() && self.leader_consistent()
    }

    /// The current term, the commit index and the last applied index of `self`
    /// are each at least those of `earlier`: all three only ever increase.
    pub open spec fn advanced_from(&self, earlier: &Self) -> bool {
        &&& self.persistent_state.current_term >= earlier.persistent_state.current_term
        &&& self.commit_index >= earlier.commit_index
        &&& self.last_applied >= earlier.last_applied
    }

    /// The leader state; meaningful only while the server leads.
    pub open spec fn leader_state(&self) -> Leader {
        self.state->Leader_0
    }

    /// The server accepts an AppendEntries request: its term is not stale and
    /// the log holds the entry that precedes the new ones (§5.1, §5.3).
    pub open spec fn accepts_append_entries(&self, req: AppendEntriesRequest<L::Command>) -> bool {
        &&& req.term >= self.persistent_state.current_term
        &&& (req.prev_log_index == 0 || entry_matches(
            self.log_entries(),
            req.prev_log_index as int,
            req.prev_log_term,
        ))
    }

    /// The log after an accepted AppendEntries request.
    pub open spec fn appended_log(&self, req: AppendEntriesRequest<L::Command>) -> Seq<Item<L::Command>> {
        merge_entries(self.log_entries(), req.prev_log_index as int, req.entries@)
    }

    /// The commit index after an accepted AppendEntries request: if leaderCommit
    /// is beyond it, min(leaderCommit, index of last new entry).
    pub open spec fn commit_after_append(&self, req: AppendEntriesRequest<L::Command>) -> int {
        if req.leader_commit > self.commit_index {
            if req.leader_commit <= self.appended_log(req).len() {
                req.leader_commit as int
            } else {
                self.appended_log(req).len() as int
            }
        } else {
            self.commit_index as int
        }
    }

    /// An accepted AppendEntries request never asks the commit index to move back.
    pub open spec fn append_keeps_commit(&self, req: AppendEntriesRequest<L::Command>) -> bool {
        self.accepts_append_entries(req) && req.leader_commit > self.commit_index
            ==> self.appended_log(req).len() >= self.commit_index
    }

    /// An AppendEntries request can be handled without the commit index moving
    /// back, and leaves every committed but unapplied entry in the log.
    pub open spec fn can_append(&self, req: AppendEntriesRequest<L::Command>) -> bool {
        &&& self.append_keeps_commit(req)
        &&& self.accepts_append_entries(req) ==> (self.commit_after_append(req) <= self.last_applied
            || self.commit_after_append(req) <= self.appended_log(req).len())
    }

    /// The server grants its vote: the term is not stale, it has not voted for
    /// another candidate, and the candidate's log is at least as up-to-date as
    /// its own (§5.2, §5.4).
    pub open spec fn grants_vote(&self, req: RequestVoteRequest) -> bool {
        &&& req.term >= self.persistent_state.current_term
        &&& (self.persistent_state.voted_for is None || self.persistent_state.voted_for == Some(
            req.candidate_id,
        ))
        &&& at_least_as_up_to_date(self.log_entries(), req.last_log_index as int, req.last_log_term)
    }

    /// The AppendEntries request that the leader `leader_id` sends to `peer`:
    /// every entry from that peer's next index on.
    pub open spec fn is_append_entries_for(
        &self,
        req: AppendEntriesRequest<L::Command>,
        leader_id: ServerId,
        peer: int,
    ) -> bool {
        let prev = self.leader_state().next_index[peer] - 1;
        &&& req.term == self.persistent_state.current_term
        &&& req.leader_id == leader_id
        &&& req.prev_log_index == prev
        &&& req.prev_log_term == term_at(self.log_entries(), prev)
        &&& req.entries@ == self.log_entries().skip(prev)
        &&& req.leader_commit == self.commit_index
    }

    pub fn new(persistent_state: Persistent<L>) -> (server_state: Self)
        ensures
            server_state.state is Follower,
            server_state.persistent_state == persistent_state,
            server_state.commit_index == 0,
            server_state.last_applied == 0,
            server_state.wf(),
    {
        ServerState { state: States::Follower, persistent_state, commit_index: 0, last_applied: 0 }
    }

    pub fn current_term(&self) -> (term: Term)
        ensures
            term == self.persistent_state.current_term,
    {
        self.persistent_state.current_term
    }

    pub fn voted_for(&self) -> (voted_for: Option<ServerId>)
        ensures
            voted_for == self.persistent_state.voted_for,
    {
        self.persistent_state.voted_for
    }

    pub fn commit_index(&self) -> (commit_index: LogIndex)
        ensures
            commit_index == self.commit_index,
    {
        self.commit_index
    }

    pub fn is_follower(&self) -> (follower: bool)
        ensures
            follower == self.state is Follower,
    {
        match self.state {
            States::Follower => true,
            _ => false,
        }
    }

    pub fn is_candidate(&self) -> (candidate: bool)
        ensures
            candidate == self.state is Candidate,
    {
        match self.state {
            States::Candidate => true,
            _ => false,
        }
    }

    pub fn is_leader(&self) -> (leader: bool)
        ensures
            leader == self.state is Leader,
    {
        if let States::Leader(_) = self.state {
            true
        } else {
            false
        }
    }

    /// Adopt the later term `term` and become a follower.
    pub fn follow_new_term(&mut self, term: Term)
        requires
            term >= old(self).persistent_state.current_term,
        ensures
            final(self).state is Follower,
            final(self).persistent_state.current_term == term,
            final(self).persistent_state.voted_for == old(self).persistent_state.voted_for,
            final(self).persistent_state.log == old(self).persistent_state.log,
            final(self).commit_index == old(self).commit_index,
            final(self).last_applied == old(self).last_applied,
    {
        self.persistent_state.set_current_term(term);
        self.state = States::Follower;
    }

    /// No messages have been received over the election timeout.
    /// # Followers (§5.2):
    /// - If election timeout elapses without receiving AppendEntries RPC from current leader or granting vote to candidate: convert to candidate
    /// # Candidates (§5.2):
    /// - On conversion to candidate, start election:
    ///   - Increment currentTerm
    ///   - Vote for self
    ///   - Reset election timer (to be handled by caller)
    ///   - Send RequestVote RPCs to all other servers (the returned request)
    pub fn start_election(&mut self, server_id: ServerId) -> (req: RequestVoteRequest)
        requires
            old(self).persistent_state.current_term < Term::MAX,
        ensures
            final(self).state is Candidate,
            final(self).persistent_state.current_term == old(self).persistent_state.current_term + 1,
            final(self).persistent_state.voted_for == Some(server_id),
            final(self).persistent_state.log == old(self).persistent_state.log,
            final(self).commit_index == old(self).commit_index,
            final(self).last_applied == old(self).last_applied,
            req == (RequestVoteRequest {
                term: final(self).persistent_state.current_term,
                candidate_id: server_id,
                last_log_index: old(self).log_entries().len() as LogIndex,
                last_log_term: last_term(old(self).log_entries()),
            }),
    {
        // convert to candidate
        self.state = States::Candidate;
        // Increment currentTerm
        self.persistent_state.current_term = self.persistent_state.current_term + 1;
        // Vote for self
        self.persistent_state.voted_for = Some(server_id);
        // Send RequestVote RPCs to all other servers
        RequestVoteRequest {
            term: self.persistent_state.current_term,
            candidate_id: server_id,
            last_log_index: self.persistent_state.log.last_log_index(),
            last_log_term: self.persistent_state.log.last_log_term(),
        }
    }

    /// Become leader of a cluster of `num_servers` servers.
    pub fn become_leader(&mut self, num_servers: ServerId)
        requires
            old(self).log_entries().len() < usize::MAX,
        ensures
            final(self).state is Leader,
            final(self).leader_state().next_index@ == Seq::new(
                num_servers as nat,
                |i: int| (old(self).log_entries().len() + 1) as usize,
            ),
            final(self).leader_state().match_index@ == Seq::new(num_servers as nat, |i: int| 0usize),
            final(self).persistent_state == old(self).persistent_state,
            final(self).commit_index == old(self).commit_index,
            final(self).last_applied == old(self).last_applied,
    {
        self.state = States::Leader(Leader::new(num_servers, self.persistent_state.log.last_log_index()));
    }

    /// The commit index must never decrease.
    pub fn set_commit_index(&mut self, commit_index: LogIndex)
        requires
            commit_index >= old(self).commit_index,
        ensures
            final(self).commit_index == commit_index,
            final(self).state == old(self).state,
            final(self).persistent_state == old(self).persistent_state,
            final(self).last_applied == old(self).last_applied,
    {
        self.commit_index = commit_index;
    }

    pub fn last_applied(&self) -> (last_applied: LogIndex)
        ensures
            last_applied == self.last_applied,
    {
        self.last_applied
    }

    /// The last applied index must never decrease.
    pub fn set_last_applied(&mut self, last_applied: LogIndex)
        requires
            last_applied >= old(self).last_applied,
        ensures
            final(self).last_applied == last_applied,
            final(self).state == old(self).state,
            final(self).persistent_state == old(self).persistent_state,
            final(self).commit_index == old(self).commit_index,
    {
        self.last_applied = last_applied;
    }

    /// Whether an AppendEntries request meets `can_append`, so that a
    /// transport can test it before handing the request over.
    pub fn can_receive_append_entries(&self, req: &AppendEntriesRequest<L::Command>) -> (ok: bool)
        ensures
            ok == self.can_append(*req),
    {
        let accepted = req.term >= self.persistent_state.current_term && (req.prev_log_index == 0
            || self.persistent_state.log.log_term_matches(req.prev_log_index, req.prev_log_term));
        if !accepted {
            return true;
        }
        proof {
            log::lemma_merge_entries_shape(self.log_entries(), req.prev_log_index as int, req.entries@);
        }
        // the log after the request holds prev_log_index + entries.len() entries
        let reaches_commit = self.commit_index <= req.prev_log_index || req.entries.len()
            >= self.commit_index - req.prev_log_index;
        if req.leader_commit > self.commit_index {
            reaches_commit
        } else {
            self.commit_index <= self.last_applied || reaches_commit
        }
    }

    /// Invoked by leader to replicate log entries (§5.3); also used as heartbeat (§5.2).
    /// 1.  Reply false if term < currentTerm (§5.1)
    /// 2.  Reply false if log doesn’t contain an entry at prevLogIndex whose term matches prevLogTerm (§5.3)
    /// 3.  If an existing entry conflicts with a new one (same index but different terms), delete the existing entry and all that follow it (§5.3)
    /// 4.  Append any new entries not already in the log
    /// 5.  If leaderCommit > commitIndex, set commitIndex = min(leaderCommit, index of last new entry)
    pub fn receive_append_entries(&mut self, req: AppendEntriesRequest<L::Command>) -> (res: AppendEntriesResponse)
        requires
            old(self).append_keeps_commit(req),
        ensures
            res.success == old(self).accepts_append_entries(req),
            res.term == old(self).persistent_state.current_term,
            final(self).state == old(self).state,
            final(self).persistent_state.current_term == old(self).persistent_state.current_term,
            final(self).persistent_state.voted_for == old(self).persistent_state.voted_for,
            final(self).last_applied == old(self).last_applied,
            res.success ==> final(self).log_entries() == old(self).appended_log(req)
                && final(self).commit_index == old(self).commit_after_append(req),
            !res.success ==> final(self).persistent_state.log == old(self).persistent_state.log
                && final(self).commit_index == old(self).commit_index,
    {
        let success = self.receive_append_entries_int(req);
        AppendEntriesResponse { success, term: self.persistent_state.current_term }
    }

    fn receive_append_entries_int(&mut self, req: AppendEntriesRequest<L::Command>) -> (success: bool)
        requires
            old(self).append_keeps_commit(req),
        ensures
            success == old(self).accepts_append_entries(req),
            final(self).state == old(self).state,
            final(self).persistent_state.current_term == old(self).persistent_state.current_term,
            final(self).persistent_state.voted_for == old(self).persistent_state.voted_for,
            final(self).last_applied == old(self).last_applied,
            success ==> final(self).log_entries() == old(self).appended_log(req)
                && final(self).commit_index == old(self).commit_after_append(req),
            !success ==> final(self).persistent_state.log == old(self).persistent_state.log
                && final(self).commit_index == old(self).commit_index,
    {
        // 1.  Reply false if term < currentTerm (§5.1)
        if req.term < self.persistent_state.current_term {
            return false;
        }
        // 2.  Reply false if log doesn’t contain an entry at prevLogIndex whose term matches prevLogTerm (§5.3)
        if req.prev_log_index != 0 && !self.persistent_state.log.log_term_matches(
            req.prev_log_index,
            req.prev_log_term,
        ) {
            return false;
        }
        // 3.  If an existing entry conflicts with a new one (same index but different terms), delete the existing entry and all that follow it (§5.3)
        // 4.  Append any new entries not already in the log
        let last_new_entry_index = self.persistent_state.log.truncate_if_different_and_append(
            req.prev_log_index,
            req.entries,
        );
        // 5.  If leaderCommit > commitIndex, set commitIndex = min(leaderCommit, index of last new entry)
        if req.leader_commit > self.commit_index {
            let new_commit = if req.leader_commit <= last_new_entry_index {
                req.leader_commit
            } else {
                last_new_entry_index
            };
            self.set_commit_index(new_commit);
        }
        true
    }

    /// Invoked by candidates to gather votes (§5.2).
    /// 1.  Reply false if term < currentTerm (§5.1)
    /// 2.  If votedFor is null or candidateId, and candidate’s log is at least as up-to-date as receiver’s log, grant vote (§5.2, §5.4)
    pub fn receive_request_vote(&mut self, req: RequestVoteRequest) -> (res: RequestVoteResponse)
        ensures
            res.vote_granted == old(self).grants_vote(req),
            res.term == old(self).persistent_state.current_term,
            final(self).persistent_state.voted_for == if res.vote_granted {
                Some(req.candidate_id)
            } else {
                old(self).persistent_state.voted_for
            },
            final(self).state == old(self).state,
            final(self).persistent_state.current_term == old(self).persistent_state.current_term,
            final(self).persistent_state.log == old(self).persistent_state.log,
            final(self).commit_index == old(self).commit_index,
            final(self).last_applied == old(self).last_applied,
    {
        let not_voted_elsewhere = match self.persistent_state.voted_for {
            None => true,
            Some(id) => id == req.candidate_id,
        };
        // 1.  Reply false if term < currentTerm (§5.1)
        let vote_granted = if req.term < self.persistent_state.current_term {
            false
        }
        // 2.  If votedFor is null or candidateId, and candidate’s log is at least as up-to-date as receiver’s log, grant vote (§5.2, §5.4)
        else if not_voted_elsewhere && self.candidate_log_up_to_date(
            req.last_log_index,
            req.last_log_term,
        ) {
            self.persistent_state.voted_for = Some(req.candidate_id);
            true
        } else {
            false
        };
        RequestVoteResponse { vote_granted, term: self.persistent_state.current_term }
    }

    /// Whether a log ending at `last_log_index` with term `last_log_term` is at
    /// least as up-to-date as this server's log (§5.4.1).
    fn candidate_log_up_to_date(&self, last_log_index: LogIndex, last_log_term: Term) -> (up_to_date: bool)
        ensures
            up_to_date == at_least_as_up_to_date(self.log_entries(), last_log_index as int, last_log_term),
    {
        let own_term = self.persistent_state.log.last_log_term();
        let own_index = self.persistent_state.log.last_log_index();
        last_log_term > own_term || (last_log_term == own_term && last_log_index >= own_index)
    }

    /// If commitIndex > lastApplied: increment lastApplied, apply log[lastApplied] to state machine (§5.3)
    /// The state machine receives the newly committed commands in log order;
    /// returns their pointers, in the same order.
    pub fn apply_commited(&mut self, receiver: &mut Box<dyn Receiver<L::Command>>) -> (applied: Vec<CommandPtr>)
        requires
            old(self).pending_in_log(),
            forall|j: int|
                old(self).last_applied <= j < old(self).commit_index ==> old(receiver).accepts(
                    #[trigger] old(self).log_entries()[j].command,
                ),
        ensures
            final(self).last_applied == if old(self).commit_index > old(self).last_applied {
                old(self).commit_index
            } else {
                old(self).last_applied
            },
            applied@ == command_ptrs(
                old(self).log_entries(),
                old(self).last_applied as int,
                final(self).last_applied as int,
            ),
            final(receiver).received() == old(receiver).received() + commands_between(
                old(self).log_entries(),
                old(self).last_applied as int,
                final(self).last_applied as int,
            ),
            forall|c: L::Command| #[trigger] final(receiver).accepts(c) == old(receiver).accepts(c),
            old(self).commit_index <= old(self).last_applied ==> *final(receiver) == *old(receiver),
            final(self).state == old(self).state,
            final(self).persistent_state == old(self).persistent_state,
            final(self).commit_index == old(self).commit_index,
    {
        if self.commit_index <= self.last_applied {
            return Vec::new();
        }
        let ghost first = self.last_applied;
        let ghost pre_state = self.state;
        let ghost pre_persistent = self.persistent_state;
        let ghost pre_commit = self.commit_index;
        let ghost pre_received = receiver.received();
        let mut applied: Vec<CommandPtr> = Vec::new();
        while self.commit_index > self.last_applied
            invariant
                self.state == pre_state,
                self.persistent_state == pre_persistent,
                self.commit_index == pre_commit,
                first <= self.last_applied <= self.commit_index,
                self.commit_index <= self.log_entries().len(),
                applied@ == command_ptrs(self.log_entries(), first as int, self.last_applied as int),
                receiver.received() == pre_received + commands_between(
                    self.log_entries(),
                    first as int,
                    self.last_applied as int,
                ),
                forall|c: L::Command| #[trigger] receiver.accepts(c) == old(receiver).accepts(c),
                forall|j: int|
                    first <= j < self.commit_index ==> old(receiver).accepts(
                        #[trigger] self.log_entries()[j].command,
                    ),
            decreases self.commit_index - self.last_applied,
        {
            let ghost log = self.log_entries();
            self.last_applied = self.last_applied + 1;
            let command = self.persistent_state.log.get_command(self.last_applied);
            assert(old(receiver).accepts(log[self.last_applied - 1].command));
            receiver.receive(command);
            applied.push((self.last_applied, self.persistent_state.log.term_at(self.last_applied)));
            assert(applied@ =~= command_ptrs(log, first as int, self.last_applied as int));
            assert(commands_between(log, first as int, self.last_applied as int) =~= commands_between(
                log,
                first as int,
                self.last_applied - 1,
            ).push(log[self.last_applied - 1].command));
            assert(receiver.received() =~= pre_received + commands_between(
                log,
                first as int,
                self.last_applied as int,
            ));
        }
        applied
    }

    /// The log.
    pub fn log(&self) -> (log: &L)
        ensures
            *log == self.persistent_state.log,
    {
        &self.persistent_state.log
    }

    /// Replace the log.
    pub fn set_log(&mut self, log: L)
        ensures
            final(self).persistent_state.log == log,
            final(self).persistent_state.current_term == old(self).persistent_state.current_term,
            final(self).persistent_state.voted_for == old(self).persistent_state.voted_for,
            final(self).state == old(self).state,
            final(self).commit_index == old(self).commit_index,
            final(self).last_applied == old(self).last_applied,
    {
        self.persistent_state.log = log
    }

    /// The leader state; the server must be the leader.
    pub fn get_leader_state(&self) -> (leader: &Leader)
        requires
            self.state is Leader,
        ensures
            *leader == self.leader_state(),
    {
        match &self.state {
            States::Leader(leader) => leader,
            _ => vstd::pervasive::unreached(),
        }
    }

    /// If command received from client: append entry to local log (§5.3).
    /// Returns the pointer of the new entry, or `NotLeader` when the server
    /// does not lead.
    pub fn add_command(&mut self, command: L::Command) -> (ptr: Result<CommandPtr, NotLeader>)
        requires
            old(self).wf(),
            old(self).log_entries().len() < usize::MAX,
        ensures
            final(self).wf(),
            old(self).state is Leader ==> {
                &&& final(self).log_entries() == old(self).log_entries().push(
                    Item { term: old(self).persistent_state.current_term, command },
                )
                &&& ptr == Ok::<CommandPtr, NotLeader>(
                    ((old(self).log_entries().len() + 1) as LogIndex, old(self).persistent_state.current_term),
                )
            },
            !(old(self).state is Leader) ==> {
                &&& ptr == Err::<CommandPtr, NotLeader>(NotLeader)
                &&& final(self).persistent_state.log == old(self).persistent_state.log
            },
            final(self).state == old(self).state,
            final(self).persistent_state.current_term == old(self).persistent_state.current_term,
            final(self).persistent_state.voted_for == old(self).persistent_state.voted_for,
            final(self).commit_index == old(self).commit_index,
            final(self).last_applied == old(self).last_applied,
    {
        if !self.is_leader() {
            return Err(NotLeader);
        }
        let term = self.persistent_state.current_term;
        self.persistent_state.log.append_item(Item::new(term, command));
        Ok((self.persistent_state.log.last_log_index(), term))
    }

    /// Whether the leader may commit position `n` (§5.3, §5.4).
    fn is_committable(&self, n: LogIndex) -> (may_commit: bool)
        requires
            self.state is Leader,
            self.leader_consistent(),
            1 <= n <= self.log_entries().len(),
        ensures
            may_commit == committable(
                self.log_entries(),
                self.leader_state().match_index@,
                self.persistent_state.current_term,
                n as int,
            ),
    {
        let leader = self.get_leader_state();
        if self.persistent_state.log.term_at(n) != self.persistent_state.current_term {
            return false;
        }
        let ghost matched = leader.match_index@;
        let mut count: usize = 0;
        let mut i: usize = 0;
        while i < leader.match_index.len()
            invariant
                matched == leader.match_index@,
                i <= matched.len(),
                count <= i,
                count == replicated_count(matched.take(i as int), n as int),
            decreases matched.len() - i,
        {
            if leader.match_index[i] >= n {
                count = count + 1;
            }
            assert(matched.take(i + 1).drop_last() =~= matched.take(i as int));
            i = i + 1;
        }
        assert(matched.take(matched.len() as int) =~= matched);
        count + 1 > leader.match_index.len() / 2
    }

    /// If there exists an N such that N > commitIndex, a majority of
    /// matchIndex[i] ≥ N, and log[N].term == currentTerm: set commitIndex = N
    /// (§5.3, §5.4). The highest such N is taken.
    fn advance_commit_index(&mut self)
        requires
            old(self).state is Leader,
            old(self).leader_consistent(),
        ensures
            highest_committable(
                old(self).log_entries(),
                old(self).leader_state().match_index@,
                old(self).persistent_state.current_term,
                old(self).commit_index as int,
                old(self).log_entries().len() as int,
                final(self).commit_index as int,
            ),
            final(self).state == old(self).state,
            final(self).persistent_state == old(self).persistent_state,
            final(self).last_applied == old(self).last_applied,
    {
        let ghost log = self.log_entries();
        let ghost matched = self.leader_state().match_index@;
        let ghost term = self.persistent_state.current_term;
        let ghost commit = self.commit_index as int;
        let ghost pre_state = self.state;
        let ghost pre_persistent = self.persistent_state;
        let ghost pre_applied = self.last_applied;
        let last = self.persistent_state.log.last_log_index();
        let mut n = last;
        while n > self.commit_index
            invariant
                self.state == pre_state,
                self.persistent_state == pre_persistent,
                self.last_applied == pre_applied,
                pre_state == old(self).state,
                pre_persistent == old(self).persistent_state,
                pre_applied == old(self).last_applied,
                commit == old(self).commit_index,
                self.state is Leader,
                self.leader_consistent(),
                log == self.log_entries(),
                matched == self.leader_state().match_index@,
                term == self.persistent_state.current_term,
                commit == self.commit_index,
                last == log.len(),
                n <= last,
                forall|m: int|
                    commit < m <= last && n < m ==> !#[trigger] committable(log, matched, term, m),
            decreases n,
        {
            if self.is_committable(n) {
                self.set_commit_index(n);
                return;
            }
            n = n - 1;
        }
    }

    /// A follower replicated the leader's log up to `match_index`:
    /// update nextIndex and matchIndex for follower (§5.3), then commit
    /// whatever a majority now holds. Does nothing unless the server leads.
    pub fn update_follower(&mut self, from: ServerId, match_index: LogIndex)
        requires
            old(self).wf(),
            old(self).state is Leader ==> {
                &&& (from as int) < old(self).leader_state().match_index.len()
                &&& match_index >= old(self).leader_state().match_index[from as int]
                &&& match_index <= old(self).log_entries().len()
                &&& match_index < usize::MAX
            },
        ensures
            final(self).wf(),
            final(self).commit_index >= old(self).commit_index,
            final(self).persistent_state == old(self).persistent_state,
            final(self).last_applied == old(self).last_applied,
            !(old(self).state is Leader) ==> final(self).state == old(self).state
                && final(self).commit_index == old(self).commit_index,
            old(self).state is Leader ==> {
                &&& final(self).state is Leader
                &&& final(self).leader_state().match_index@ == old(self).leader_state().match_index@.update(
                    from as int,
                    match_index,
                )
                &&& final(self).leader_state().next_index@ == old(self).leader_state().next_index@.update(
                    from as int,
                    (match_index + 1) as LogIndex,
                )
                &&& forall|i: int|
                    0 <= i < old(self).leader_state().match_index.len()
                        ==> #[trigger] final(self).leader_state().match_index[i]
                        >= old(self).leader_state().match_index[i]
                &&& highest_committable(
                    old(self).log_entries(),
                    final(self).leader_state().match_index@,
                    old(self).persistent_state.current_term,
                    old(self).commit_index as int,
                    old(self).log_entries().len() as int,
                    final(self).commit_index as int,
                )
            },
    {
        match &mut self.state {
            States::Leader(leader) => {
                leader.set_match_index(from, match_index);
                leader.next_index.set(from as usize, match_index + 1);
            },
            _ => {
                return;
            },
        }
        self.advance_commit_index();
    }

    /// If AppendEntries fails because of log inconsistency: decrement nextIndex
    /// (§5.3), never below 1. Does nothing unless the server leads.
    pub fn follower_inconsistent(&mut self, from: ServerId)
        requires
            old(self).wf(),
            old(self).state is Leader ==> (from as int) < old(self).leader_state().next_index.len(),
        ensures
            final(self).wf(),
            final(self).persistent_state == old(self).persistent_state,
            final(self).commit_index == old(self).commit_index,
            final(self).last_applied == old(self).last_applied,
            !(old(self).state is Leader) ==> final(self).state == old(self).state,
            old(self).state is Leader ==> {
                let next = old(self).leader_state().next_index[from as int];
                &&& final(self).state is Leader
                &&& final(self).leader_state().match_index == old(self).leader_state().match_index
                &&& final(self).leader_state().next_index@ == if next > 1 {
                    old(self).leader_state().next_index@.update(from as int, (next - 1) as LogIndex)
                } else {
                    old(self).leader_state().next_index@
                }
            },
    {
        match &mut self.state {
            States::Leader(leader) => {
                let next = leader.next_index[from as usize];
                if next > 1 {
                    leader.next_index.set(from as usize, next - 1);
                }
            },
            _ => {},
        }
    }

    /// If last log index ≥ nextIndex for a follower: send AppendEntries RPC
    /// with log entries starting at nextIndex; otherwise the request is a
    /// heartbeat without entries. One request for every server but
    /// `server_id`, in order of server id; none unless the server leads.
    pub fn produce_append_entries(&self, server_id: ServerId) -> (reqs: Vec<(ServerId, AppendEntriesRequest<L::Command>)>)
        requires
            self.wf(),
        ensures
            !(self.state is Leader) ==> reqs.len() == 0,
            self.state is Leader ==> {
                &&& reqs.len() == peer_count(server_id, self.leader_state().next_index.len() as int)
                &&& forall|j: int|
                    0 <= j < reqs.len() ==> {
                        &&& (#[trigger] reqs@[j]).0 == peer_at(server_id, j)
                        &&& self.is_append_entries_for(reqs@[j].1, server_id, peer_at(server_id, j))
                    }
            },
    {
        let mut reqs: Vec<(ServerId, AppendEntriesRequest<L::Command>)> = Vec::new();
        match &self.state {
            States::Leader(leader) => {
                let n = leader.next_index.len();
                let mut i: usize = 0;
                while i < n
                    invariant
                        self.state is Leader,
                        self.wf(),
                        *leader == self.leader_state(),
                        n == leader.next_index.len(),
                        i <= n,
                        reqs.len() == peer_count(server_id, i as int),
                        forall|j: int|
                            0 <= j < reqs.len() ==> {
                                &&& (#[trigger] reqs@[j]).0 == peer_at(server_id, j)
                                &&& self.is_append_entries_for(reqs@[j].1, server_id, peer_at(server_id, j))
                            },
                    decreases n - i,
                {
                    if i != server_id as usize {
                        let prev = leader.next_index[i] - 1;
                        let req = AppendEntriesRequest {
                            term: self.persistent_state.current_term,
                            leader_id: server_id,
                            prev_log_index: prev,
                            prev_log_term: self.persistent_state.log.term_at(prev),
                            entries: self.persistent_state.log.entries_after(prev),
                            leader_commit: self.commit_index,
                        };
                        reqs.push((i as ServerId, req));
                    }
                    i = i + 1;
                }
            },
            _ => {},
        }
        reqs
    }

} // impl

} // verus!
