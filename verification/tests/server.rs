use core::sync::atomic::{AtomicI32, Ordering};
use raft::log::{self, Log};
use raft::rpc::{AppendEntriesRequest, AppendEntriesResponse, RequestVoteRequest, RequestVoteResponse};
use raft::server::Server;
use raft::state::Persistent;
use std::rc::Rc;

/// All Servers:
/// • If commitIndex > lastApplied: increment lastApplied, apply log[lastApplied] to state machine (§5.3)
#[test]
fn apply_commited() {
    let acc = Rc::new(AtomicI32::new(0));
    let acc2 = acc.clone();
    let sm = move |&command: &i32| {
        acc2.fetch_add(command, Ordering::SeqCst);
    };
    let persistent_state = Persistent {
        current_term: 0,
        log: vec![
            log::Item::new(1, 10),
            log::Item::new(1, -5),
            log::Item::new(1, 1),
        ],
        voted_for: None,
    };
    let mut s: Server<i32, log::InVec<i32>> = Server::new(55, persistent_state, Box::new(sm));
    s.state.set_commit_index(3);
    s.post_handle();
    assert_eq!(acc.load(Ordering::SeqCst), 6);
    assert_eq!(s.state.last_applied(), 3);
}

/// • If RPC request or response contains term T > currentTerm: set currentTerm = T, convert to follower (§5.1)
#[test]
fn request_updates_term() {
    let mut s: Server<bool, log::InVec<bool>> =
        Server::new(55, Persistent::default(), Box::new(|_: &bool| {}));
    // make into a candidate for test
    s.election_timeout();
    // then receive message from another candidate or leader
    s.pre_handle(&RequestVoteRequest {
        term: 5,
        candidate_id: 0,
        last_log_term: 1,
        last_log_index: 1,
    });
    assert_eq!(s.state.current_term(), 5);
    assert!(s.state.is_follower());
}

/// # Followers (§5.2):
/// -- If election timeout elapses without receiving AppendEntries RPC from current leader or granting vote to candidate: convert to candidate
#[test]
fn election_timeout() {
    let server_id = 55;
    let mut s: Server<bool, log::InVec<bool>> =
        Server::new(server_id, Persistent::default(), Box::new(|_: &bool| {}));
    assert_eq!(s.state.current_term(), 0);
    let req = s.election_timeout();
    assert!(s.state.is_candidate(), "convert to candidate");
    assert_eq!(s.state.current_term(), 1, "Increment currentTerm");
    assert_eq!(s.state.voted_for(), Some(server_id), "Vote for self");
    assert_eq!(req.term, 1);
    assert_eq!(req.candidate_id, server_id);
    assert_eq!(req.last_log_index, 0);
    assert_eq!(req.last_log_term, 0);
}

/// - If votes received from majority of servers: become leader
#[test]
fn become_leader() {
    let server_id = 0;
    let mut s: Server<bool, log::InVec<bool>> =
        Server::new(server_id, Persistent::default(), Box::new(|_: &bool| {}));
    assert_eq!(s.state.current_term(), 0);
    s.election_timeout();
    assert!(s.state.is_candidate());
    assert_eq!(s.state.current_term(), 1, "Increment currentTerm");
    let announce = s.receive_vote(
        RequestVoteResponse {
            term: 1,
            vote_granted: true,
        },
        5,
    );
    assert!(announce.is_none());
    let announce = s.receive_vote(
        RequestVoteResponse {
            term: 1,
            vote_granted: true,
        },
        5,
    );
    assert!(s.state.is_leader(), "become leader");
    // Upon election: send initial empty AppendEntries RPCs(heartbeat) to each server; repeat during idle periods to prevent election timeouts (§5.2)
    let announce =
        announce.expect("send initial empty AppendEntries RPCs(heartbeat) to each server");
    assert_eq!(announce.leader_id, server_id);
    assert_eq!(announce.entries.len(), 0);
    assert_eq!(announce.term, 1);
}

/// If the leader’s term is at least as large as the candidate’s current term, then the candidate recognizes the leader as legitimate and
/// returns to follower state.
#[test]
fn new_leader_appends_entries() {
    let server_id = 55;
    let mut s: Server<bool, log::InVec<bool>> =
        Server::new(server_id, Persistent::default(), Box::new(|_: &bool| {}));
    s.election_timeout();
    assert!(s.state.is_candidate());
    assert_eq!(s.state.current_term(), 1, "Increment currentTerm");
    let res = s.receive_append_entries(AppendEntriesRequest {
        term: 1,
        leader_id: 20,
        leader_commit: 0,
        prev_log_index: 0,
        prev_log_term: 0,
        entries: vec![],
    });
    assert!(s.state.is_follower(), "returns to follower state");
    assert_eq!(s.state.current_term(), 1);
    assert_eq!(res.success, true);
    assert_eq!(res.term, 1);
}

/// If the term in the RPC is smaller than the candidate’s current term, then the candidate rejects the RPC and continues in candidate state.
#[test]
fn old_leader_appends_entries() {
    let server_id = 55;
    let mut s: Server<bool, log::InVec<bool>> =
        Server::new(server_id, Persistent::default(), Box::new(|_: &bool| {}));
    s.election_timeout();
    assert_eq!(s.state.current_term(), 1, "Increment currentTerm");
    let res = s.receive_append_entries(AppendEntriesRequest {
        term: 0,
        leader_id: 20,
        leader_commit: 0,
        prev_log_index: 0,
        prev_log_term: 0,
        entries: vec![],
    });
    assert!(s.state.is_candidate(), "continues in candidate state");
    assert_eq!(s.state.current_term(), 1);
    assert_eq!(res.success, false, "the candidate rejects the RPC");
    assert_eq!(res.term, 1);
}

/// - If election timeout elapses: start new election
#[test]
fn server_election_timeout() {
    let server_id = 55;
    let mut s: Server<bool, log::InVec<bool>> =
        Server::new(server_id, Persistent::default(), Box::new(|_: &bool| {}));
    s.election_timeout();
    assert_eq!(s.state.current_term(), 1, "Increment currentTerm");
    let req = s.election_timeout();
    assert!(s.state.is_candidate(), "convert to candidate");
    assert_eq!(s.state.current_term(), 2, "Increment currentTerm");
    assert_eq!(s.state.voted_for(), Some(server_id), "Vote for self");
    assert_eq!(req.term, 2);
    assert_eq!(req.candidate_id, server_id);
    assert_eq!(req.last_log_index, 0);
    assert_eq!(req.last_log_term, 0);
}

/// - If command received from client: append entry to local log, respond after entry applied to state machine (§5.3)
/// - If last log index ≥ nextIndex for a follower: send AppendEntries RPC with log entries starting at nextIndex
/// -- If successful: update nextIndex and matchIndex for follower (§5.3)
/// -- If AppendEntries fails because of log inconsistency: decrement nextIndex and retry (§5.3)
/// - If there exists an N such that N > commitIndex, a majority of matchIndex[i] ≥ N, and log[N].term == currentTerm: set commitIndex = N (§5.3, §5.4).
#[test]
fn whole_handle_client_command() {
    let acc = Rc::new(AtomicI32::new(0));
    let acc2 = acc.clone();
    let sm = move |&command: &i32| {
        println!("SM received command {}", command);
        acc2.fetch_add(command, Ordering::SeqCst);
    };
    let persistent_state = Persistent {
        current_term: 1,
        log: vec![log::Item::new(1, 10)],
        voted_for: None,
    };
    let mut s: Server<i32, log::InVec<i32>> = Server::new(1, persistent_state, Box::new(sm));
    s.state.set_commit_index(1);
    s.post_handle();
    assert_eq!(s.state.current_term(), 1);
    s.election_timeout();
    assert!(s.state.is_candidate(), "become candidate");
    assert_eq!(s.state.current_term(), 2, "Increment currentTerm");
    s.receive_vote(
        RequestVoteResponse {
            term: 2,
            vote_granted: true,
        },
        3,
    );
    assert!(s.state.is_leader(), "become leader");
    let command_id = s.command(5); // the caller should call heartbeat when this returns to get the sync messages for the followers
    assert_eq!(
        *s.state.log().get_command(2),
        5,
        "If command received from client: append entry to local log"
    );
    assert_eq!(s.state.log().last_log_term(), 2);
    assert_eq!(
        command_id,
        Ok((2, 2)),
        "the index and term which when commited will activate the response"
    );
    assert_eq!(
        acc.load(Ordering::SeqCst),
        10,
        "command should not yet be commited"
    );
    let heartbeat_reqs = s.heartbeat();
    // - If last log index ≥ nextIndex for a follower: send AppendEntries RPC with log entries starting at nextIndex
    assert_eq!(heartbeat_reqs.len(), 2);
    assert_eq!(
        heartbeat_reqs[0],
        (
            0,
            AppendEntriesRequest {
                term: 2,
                leader_id: 1,
                prev_log_index: 1,
                prev_log_term: 1,
                leader_commit: 1,
                entries: vec![log::Item::new(2, 5)],
            }
        )
    );
    assert_eq!(
        heartbeat_reqs[1],
        (
            2,
            AppendEntriesRequest {
                term: 2,
                leader_id: 1,
                prev_log_index: 1,
                prev_log_term: 1,
                leader_commit: 1,
                entries: vec![log::Item::new(2, 5)],
            }
        )
    );
    // -- If successful: update nextIndex and matchIndex for follower (§5.3)
    let new_commits1 = s.receive_append_entries_response(
        0,
        2,
        AppendEntriesResponse {
            success: true,
            term: 2,
        },
    );
    assert_eq!(s.state.get_leader_state().next_index[0], 3);
    assert_eq!(s.state.get_leader_state().match_index[0], 2);
    // -- If AppendEntries fails because of log inconsistency: decrement nextIndex and retry (§5.3)
    let new_commits2 = s.receive_append_entries_response(
        2,
        2,
        AppendEntriesResponse {
            success: false,
            term: 2,
        },
    );
    assert_eq!(new_commits2.len(), 0);
    assert_eq!(s.state.get_leader_state().next_index[2], 1);
    assert_eq!(s.state.get_leader_state().match_index[2], 0);
    // - If there exists an N such that N > commitIndex, a majority of matchIndex[i] ≥ N, and log[N].term == currentTerm: set commitIndex = N (§5.3, §5.4).
    assert_eq!(s.state.commit_index(), 2);
    assert_eq!(s.state.last_applied(), 2);
    // respond after entry applied to state machine (§5.3)
    // client is responsible for sending any client responses for the commited entries
    assert_eq!(new_commits1.len(), 1);
    assert_eq!(new_commits1[0], (2, 2));
    assert_eq!(acc.load(Ordering::SeqCst), 15, "command should be commited");
}

#[test]
fn follower_refuses_client_command() {
    let mut s: Server<u32, log::InVec<u32>> =
        Server::new(3, Persistent::default(), Box::new(|_: &u32| {}));
    assert_eq!(s.command(4), Err(raft::NotLeader));
    assert!(s.heartbeat().is_empty());
    assert_eq!(s.get_state().log().len(), 0);
}

#[test]
fn vote_response_ignored_unless_candidate() {
    let mut s: Server<u32, log::InVec<u32>> =
        Server::new(3, Persistent::default(), Box::new(|_: &u32| {}));
    let announce = s.receive_vote(RequestVoteResponse { term: 0, vote_granted: true }, 1);
    assert!(announce.is_none());
    assert!(s.get_state().is_follower());
    assert_eq!(s.votes_this_term, 0);
}

#[test]
fn stale_or_refused_votes_are_not_counted() {
    let mut s: Server<u32, log::InVec<u32>> =
        Server::new(0, Persistent::default(), Box::new(|_: &u32| {}));
    s.election_timeout();
    s.election_timeout();
    // a vote from the first election no longer counts
    assert!(s.receive_vote(RequestVoteResponse { term: 1, vote_granted: true }, 3).is_none());
    assert!(s.receive_vote(RequestVoteResponse { term: 2, vote_granted: false }, 3).is_none());
    assert_eq!(s.votes_this_term, 1);
    assert!(s.get_state().is_candidate());
    assert!(s.receive_vote(RequestVoteResponse { term: 2, vote_granted: true }, 3).is_some());
    assert!(s.get_state().is_leader());
}

#[test]
fn request_vote_from_later_term_resets_role() {
    let mut s: Server<u32, log::InVec<u32>> =
        Server::new(0, Persistent::default(), Box::new(|_: &u32| {}));
    s.election_timeout();
    s.receive_vote(RequestVoteResponse { term: 1, vote_granted: true }, 2);
    assert!(s.get_state().is_leader());
    // a later term makes the leader a follower; it already voted for itself
    let res = s.receive_request_vote(RequestVoteRequest { term: 2, candidate_id: 1, last_log_index: 0, last_log_term: 0 });
    assert!(s.get_state().is_follower());
    assert_eq!(res.term, 2);
    assert!(!res.vote_granted);
}

#[test]
fn terms_never_decrease() {
    let mut s: Server<u32, log::InVec<u32>> = Server::new(
        0,
        Persistent { current_term: 4, voted_for: None, log: vec![] },
        Box::new(|_: &u32| {}),
    );
    s.pre_handle(&RequestVoteRequest { term: 2, candidate_id: 1, last_log_index: 0, last_log_term: 0 });
    assert_eq!(s.get_state().current_term(), 4);
    let res = s.receive_append_entries(AppendEntriesRequest {
        term: 3,
        leader_id: 1,
        prev_log_index: 0,
        prev_log_term: 0,
        entries: vec![log::Item::new(3, 1)],
        leader_commit: 1,
    });
    assert!(!res.success);
    assert_eq!(res.term, 4);
    assert_eq!(s.get_state().current_term(), 4);
    assert_eq!(s.get_state().log().len(), 0);
    let res = s.receive_request_vote(RequestVoteRequest { term: 7, candidate_id: 1, last_log_index: 0, last_log_term: 0 });
    assert!(res.vote_granted);
    assert_eq!(s.get_state().current_term(), 7);
}

#[test]
fn state_machine_receives_commands_in_log_order() {
    let seen = Rc::new(std::cell::RefCell::new(Vec::new()));
    let seen2 = seen.clone();
    let persistent_state = Persistent {
        current_term: 0,
        log: vec![log::Item::new(1, 10), log::Item::new(1, -5), log::Item::new(1, 1)],
        voted_for: None,
    };
    let mut s: Server<i32, log::InVec<i32>> =
        Server::new(55, persistent_state, Box::new(move |&c: &i32| seen2.borrow_mut().push(c)));
    s.state.set_commit_index(2);
    assert_eq!(s.post_handle(), vec![(1, 1), (2, 1)]);
    assert_eq!(*seen.borrow(), vec![10, -5]);
    // nothing new is committed: the state machine is not called again
    assert!(s.post_handle().is_empty());
    assert_eq!(*seen.borrow(), vec![10, -5]);
    s.state.set_commit_index(3);
    s.post_handle();
    assert_eq!(*seen.borrow(), vec![10, -5, 1]);
}
