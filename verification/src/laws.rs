//! What the server's decisions mean, stated over the log entries, the terms
//! and the leader's bookkeeping themselves: the voting rule (§5.2, §5.4.1),
//! the commit rule (§5.3, §5.4.2) and the content of the AppendEntries
//! requests a leader sends (§5.3).
use vstd::prelude::*;

use crate::log::{self, Item, LogIndex};
use crate::rpc::{AppendEntriesRequest, RequestVoteRequest};
use crate::state::{committable, highest_committable, peer_at, peer_count, replicated_count, ServerState};
use crate::ServerId;

verus! {

/// A server grants its vote exactly when the request's term is not older than
/// its own, it has not voted for another candidate, and the candidate's log is
/// at least as up-to-date as its own: the candidate's last term is later than
/// the term of the server's last entry (0 for an empty log), or it is the same
/// and the candidate's log is at least as long (§5.2, §5.4.1).
pub proof fn law_vote_needs_up_to_date_log<L: log::Log>(state: ServerState<L>, req: RequestVoteRequest)
    ensures
        state.grants_vote(req) <==> {
            let entries = state.log_entries();
            let own_last_term: int = if entries.len() == 0 {
                0
            } else {
                entries[entries.len() - 1].term as int
            };
            &&& req.term >= state.persistent_state.current_term
            &&& (state.persistent_state.voted_for is None || state.persistent_state.voted_for == Some(
                req.candidate_id,
            ))
            &&& (req.last_log_term > own_last_term || (req.last_log_term == own_last_term
                && req.last_log_index >= entries.len()))
        },
{
}

/// A candidate whose last term equals the server's but whose log is shorter
/// never gets the vote: it is missing entries the server holds.
pub proof fn law_shorter_log_loses_vote<L: log::Log>(state: ServerState<L>, req: RequestVoteRequest)
    requires
        state.log_entries().len() > 0,
        req.last_log_term == state.log_entries()[state.log_entries().len() - 1].term,
        req.last_log_index < state.log_entries().len(),
    ensures
        !state.grants_vote(req),
{
    law_vote_needs_up_to_date_log(state, req);
}

/// Holds of a match index that reaches position `n`.
pub open spec fn holds_from(n: int) -> spec_fn(LogIndex) -> bool {
    |m: LogIndex| m >= n
}

/// `replicated_count(match_index, n)` is the number of servers whose match
/// index is at least `n`.
pub proof fn law_replicated_count_counts(match_index: Seq<LogIndex>, n: int)
    ensures
        replicated_count(match_index, n) == match_index.filter(holds_from(n)).len(),
    decreases match_index.len(),
{
    reveal(Seq::filter);
    if match_index.len() > 0 {
        law_replicated_count_counts(match_index.drop_last(), n);
    }
}

/// A leader may commit position `n` exactly when the log holds an entry there
/// from the leader's current term, and strictly more than half of the servers
/// hold it, the leader counting as one of them: in a cluster of four, two
/// servers are not enough.
pub proof fn law_commit_needs_strict_majority<C>(
    entries: Seq<Item<C>>,
    match_index: Seq<LogIndex>,
    current_term: crate::Term,
    n: int,
)
    ensures
        committable(entries, match_index, current_term, n) <==> {
            &&& 1 <= n <= entries.len()
            &&& entries[n - 1].term == current_term
            &&& 2 * (match_index.filter(holds_from(n)).len() + 1) > match_index.len()
        },
{
    law_replicated_count_counts(match_index, n);
}

/// When the leader's commit index moves from `commit_index` to `result`, the
/// entry at `result` is from the current term, strictly more than half of the
/// servers (the leader included) hold it, and no later position of the log
/// could have been committed instead (fewer than a strict majority hold any
/// later entry of the current term; `replicated_count` counts servers, see
/// `law_replicated_count_counts`).
pub proof fn law_commit_advance<C>(
    entries: Seq<Item<C>>,
    match_index: Seq<LogIndex>,
    current_term: crate::Term,
    commit_index: int,
    result: int,
)
    requires
        0 <= commit_index,
        highest_committable(entries, match_index, current_term, commit_index, entries.len() as int, result),
    ensures
        result > commit_index ==> {
            &&& result <= entries.len()
            &&& entries[result - 1].term == current_term
            &&& 2 * (match_index.filter(holds_from(result)).len() + 1) > match_index.len()
        },
        result == commit_index || result > commit_index,
        forall|m: int|
            result < m <= entries.len() && m > commit_index && entries[m - 1].term == current_term
                ==> 2 * (#[trigger] replicated_count(match_index, m) + 1) <= match_index.len(),
{
    law_commit_needs_strict_majority(entries, match_index, current_term, result);
    assert forall|m: int|
        result < m <= entries.len() && m > commit_index && entries[m - 1].term == current_term
            implies 2 * (#[trigger] replicated_count(match_index, m) + 1) <= match_index.len() by {
        assert(!committable(entries, match_index, current_term, m));
        law_commit_needs_strict_majority(entries, match_index, current_term, m);
        law_replicated_count_counts(match_index, m);
    }
}

/// The AppendEntries request a leader sends to `peer` carries the leader's
/// current term and id, the position just before that peer's next index, the
/// term of the leader's own entry at that position (0 at position 0, whatever
/// the leader's current term), every entry of the leader's log after it, and the
/// leader's commit index.
pub proof fn law_append_entries_request_content<L: log::Log>(
    leader: ServerState<L>,
    req: AppendEntriesRequest<L::Command>,
    leader_id: ServerId,
    peer: int,
)
    requires
        leader.wf(),
        leader.state is Leader,
        0 <= peer < leader.leader_state().next_index.len(),
        leader.is_append_entries_for(req, leader_id, peer),
    ensures
        req.term == leader.persistent_state.current_term,
        req.leader_id == leader_id,
        req.prev_log_index + 1 == leader.leader_state().next_index[peer],
        req.prev_log_index <= leader.log_entries().len(),
        req.prev_log_index == 0 ==> req.prev_log_term == 0,
        req.prev_log_index > 0 ==> req.prev_log_term == leader.log_entries()[req.prev_log_index - 1].term,
        req.prev_log_index + req.entries.len() == leader.log_entries().len(),
        forall|j: int|
            0 <= j < req.entries.len() ==> #[trigger] req.entries@[j] == leader.log_entries()[req.prev_log_index + j],
        req.leader_commit == leader.commit_index,
{
    assert(1 <= leader.leader_state().next_index[peer] <= leader.log_entries().len() + 1);
}

/// A follower whose log holds the leader's entry at the position before its
/// next index, and whose term is not later than the leader's, accepts the
/// leader's request. Its log then has the leader's length and, where the
/// leader's commit index is beyond its own, its commit index becomes the
/// leader's commit index (capped at the log's length).
pub proof fn law_up_to_date_follower_follows_leader<L: log::Log>(
    leader: ServerState<L>,
    follower: ServerState<L>,
    req: AppendEntriesRequest<L::Command>,
    leader_id: ServerId,
    peer: int,
)
    requires
        leader.wf(),
        leader.state is Leader,
        0 <= peer < leader.leader_state().next_index.len(),
        leader.is_append_entries_for(req, leader_id, peer),
        follower.persistent_state.current_term <= leader.persistent_state.current_term,
        ({
            let p = leader.leader_state().next_index[peer] - 1;
            &&& p <= follower.log_entries().len()
            &&& p > 0 ==> follower.log_entries()[p - 1].term == leader.log_entries()[p - 1].term
        }),
    ensures
        follower.accepts_append_entries(req),
        follower.appended_log(req).len() == leader.log_entries().len(),
        follower.commit_after_append(req) == if leader.commit_index > follower.commit_index {
            if leader.commit_index <= leader.log_entries().len() {
                leader.commit_index as int
            } else {
                leader.log_entries().len() as int
            }
        } else {
            follower.commit_index as int
        },
{
    law_append_entries_request_content(leader, req, leader_id, peer);
    log::lemma_follower_catches_up(
        leader.log_entries(),
        follower.log_entries(),
        req.prev_log_index as int,
    );
}

/// A server accepts an AppendEntries request exactly when the request's term
/// is not older than its own and, unless the request starts at the beginning
/// of the log, its log holds an entry at `prev_log_index` whose term is
/// `prev_log_term` (§5.1, §5.3).
pub proof fn law_append_entries_acceptance<L: log::Log>(state: ServerState<L>, req: AppendEntriesRequest<L::Command>)
    ensures
        state.accepts_append_entries(req) <==> {
            &&& req.term >= state.persistent_state.current_term
            &&& (req.prev_log_index == 0 || (req.prev_log_index <= state.log_entries().len()
                && state.log_entries()[req.prev_log_index - 1].term == req.prev_log_term))
        },
{
}

/// After an accepted request, the commit index is the leader's commit index
/// capped at the index of the last new entry (`prev_log_index` plus the number
/// of entries), when that is beyond the server's own; otherwise it stays (§5.3,
/// rule 5).
pub proof fn law_append_entries_commit<L: log::Log>(state: ServerState<L>, req: AppendEntriesRequest<L::Command>)
    requires
        state.accepts_append_entries(req),
    ensures
        state.commit_after_append(req) == if req.leader_commit > state.commit_index {
            if req.leader_commit <= req.prev_log_index + req.entries.len() {
                req.leader_commit as int
            } else {
                req.prev_log_index + req.entries.len()
            }
        } else {
            state.commit_index as int
        },
{
    log::lemma_merge_entries_shape(state.log_entries(), req.prev_log_index as int, req.entries@);
}

/// The term of position `index` is that of the entry stored there, 0 for
/// position 0; the last term is that of the last entry, 0 for an empty log.
pub proof fn law_terms_of_positions<C>(entries: Seq<Item<C>>, index: int)
    requires
        0 <= index <= entries.len(),
    ensures
        index == 0 ==> log::term_at(entries, index) == 0,
        index > 0 ==> log::term_at(entries, index) == entries[index - 1].term,
        entries.len() == 0 ==> log::last_term(entries) == 0,
        entries.len() > 0 ==> log::last_term(entries) == entries[entries.len() - 1].term,
{
}

/// A leader sends one request to each other server of the cluster: the
/// servers addressed are exactly the ids below `n` other than its own, in
/// increasing order.
pub proof fn law_peers_are_the_other_servers(own_id: ServerId, n: int)
    requires
        0 <= n,
    ensures
        forall|j: int|
            0 <= j < peer_count(own_id, n) ==> {
                &&& 0 <= #[trigger] peer_at(own_id, j) < n
                &&& peer_at(own_id, j) != own_id
            },
        forall|j: int, k: int| 0 <= j < k < peer_count(own_id, n) ==> #[trigger] peer_at(own_id, j) < #[trigger] peer_at(
            own_id,
            k,
        ),
        forall|i: int|
            0 <= i < n && i != own_id ==> {
                &&& 0 <= #[trigger] request_slot(own_id, i) < peer_count(own_id, n)
                &&& peer_at(own_id, request_slot(own_id, i)) == i
            },
{
}

/// The position, among a leader's requests, of the one for server `id`.
pub open spec fn request_slot(own_id: ServerId, id: int) -> int {
    if id < own_id {
        id
    } else {
        id - 1
    }
}

} // verus!
