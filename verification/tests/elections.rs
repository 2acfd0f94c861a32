use raft_replica::replica::Replica;
use raft_replica::types::{ControlMessage, Envelope, Event, Log, Message, State};

fn vote_request(from_id: usize, term: usize, last_log_index: usize, last_log_term: usize) -> Event {
    Event::Protocol(Message::RequestVoteRequest {
        from_id,
        term,
        last_log_index,
        last_log_term,
    })
}

fn vote(from_id: usize, term: usize, vote_granted: bool) -> Event {
    Event::Protocol(Message::RequestVoteResponse {
        from_id,
        term,
        vote_granted,
    })
}

fn vote_answer(peer: usize, from_id: usize, term: usize, vote_granted: bool) -> Envelope {
    Envelope {
        peer,
        message: Message::RequestVoteResponse {
            from_id,
            term,
            vote_granted,
        },
    }
}

fn heartbeat(from_id: usize, term: usize) -> Event {
    Event::Protocol(Message::AppendEntryRequest {
        term,
        from_id,
        prev_log_index: 0,
        prev_log_term: 0,
        entries: vec![],
        commit_index: 0,
    })
}

#[test]
fn a_replica_starts_as_a_follower_in_term_zero() {
    let replica = Replica::start(7, vec![2, 3]);
    assert_eq!(replica.id(), 7);
    assert_eq!(replica.state(), State::Follower);
    assert_eq!(replica.current_term(), 0);
    assert_eq!(replica.value(), 0);
    assert_eq!(replica.voted_for(), None);
    assert_eq!(replica.commit_index(), 0);
    assert_eq!(replica.last_applied(), 0);
    assert_eq!(
        *replica.log(),
        vec![Log {
            delta: 0,
            term: 0,
            index: 0
        }]
    );
    assert!(replica.next_index().is_empty());
    assert!(replica.match_index().is_empty());
}

#[test]
fn a_timeout_starts_an_election() {
    let mut replica = Replica::start(1, vec![2, 3, 5]);
    assert!(replica.can_handle(&Event::Timeout));
    let out = replica.handle(Event::Timeout);
    assert_eq!(replica.state(), State::Candidate);
    assert_eq!(replica.current_term(), 1);
    assert_eq!(replica.voted_for(), Some(1));
    assert_eq!(out.len(), 3);
    for i in 0..3 {
        assert_eq!(
            out[i],
            Envelope {
                peer: i,
                message: Message::RequestVoteRequest {
                    from_id: 1,
                    term: 1,
                    last_log_index: 0,
                    last_log_term: 0,
                },
            }
        );
    }
    // A candidate that hears nothing tries again in the next term.
    replica.handle(Event::Timeout);
    assert_eq!(replica.state(), State::Candidate);
    assert_eq!(replica.current_term(), 2);
}

#[test]
fn a_majority_of_votes_makes_a_leader() {
    let mut replica = Replica::start(1, vec![2, 3, 4, 5]);
    replica.handle(Event::Timeout);
    assert!(replica.handle(vote(2, 1, true)).is_empty());
    assert_eq!(replica.state(), State::Candidate);
    // The same vote does not count twice.
    replica.handle(vote(2, 1, true));
    assert_eq!(replica.state(), State::Candidate);
    // A refusal does not count.
    replica.handle(vote(3, 1, false));
    assert_eq!(replica.state(), State::Candidate);
    replica.handle(vote(4, 1, true));
    assert_eq!(replica.state(), State::Leader);
    assert_eq!(replica.current_term(), 1);
    assert_eq!(replica.voted_for(), None);
    for id in 2..6 {
        assert_eq!(replica.next_index()[&id], 1);
        assert_eq!(replica.match_index()[&id], 0);
    }
    assert_eq!(replica.next_index().len(), 4);
    assert!(replica.can_heartbeat());
}

#[test]
fn half_of_the_votes_is_no_majority() {
    // Four replicas: two votes are not enough, three are.
    let mut replica = Replica::start(1, vec![2, 3, 4]);
    replica.handle(Event::Timeout);
    replica.handle(vote(2, 1, true));
    assert_eq!(replica.state(), State::Candidate);
    replica.handle(vote(3, 1, true));
    assert_eq!(replica.state(), State::Leader);
}

#[test]
fn a_later_term_in_an_answer_ends_the_candidacy() {
    let mut replica = Replica::start(1, vec![2, 3]);
    replica.handle(Event::Timeout);
    assert!(replica.handle(vote(2, 9, true)).is_empty());
    assert_eq!(replica.state(), State::Follower);
    assert_eq!(replica.current_term(), 9);
    assert_eq!(replica.voted_for(), None);
}

#[test]
fn a_follower_grants_its_vote() {
    let mut replica = Replica::start(1, vec![2, 3]);
    let out = replica.handle(vote_request(3, 4, 0, 0));
    assert_eq!(replica.current_term(), 4);
    assert_eq!(replica.state(), State::Follower);
    assert_eq!(out, vec![vote_answer(1, 1, 4, true)]);
}

#[test]
fn a_follower_records_the_vote_that_it_grants() {
    let mut replica = Replica::start(1, vec![2, 3]);
    replica.handle(vote_request(3, 4, 0, 0));
    assert_eq!(replica.voted_for(), Some(3));
    // Nobody else gets a vote in that term.
    let out = replica.handle(vote_request(2, 4, 9, 9));
    assert_eq!(out, vec![vote_answer(0, 1, 4, false)]);
    assert_eq!(replica.voted_for(), Some(3));
    // The same candidate may ask again.
    let out = replica.handle(vote_request(3, 4, 0, 0));
    assert_eq!(out, vec![vote_answer(1, 1, 4, true)]);
    // Entries, and dying and coming back, leave the vote on record.
    replica.handle(heartbeat(2, 4));
    replica.handle(Event::Control(ControlMessage::Down));
    replica.handle(Event::Control(ControlMessage::Up));
    assert_eq!(replica.voted_for(), Some(3));
    // A later term is open again.
    let out = replica.handle(vote_request(2, 5, 0, 0));
    assert_eq!(out, vec![vote_answer(0, 1, 5, true)]);
    assert_eq!(replica.voted_for(), Some(2));
}

#[test]
fn a_refused_vote_is_not_recorded() {
    let mut replica = Replica::start(1, vec![2, 3]);
    replica.handle(Event::Protocol(Message::AppendEntryRequest {
        term: 1,
        from_id: 2,
        prev_log_index: 0,
        prev_log_term: 0,
        entries: vec![Log {
            delta: 1,
            term: 1,
            index: 1,
        }],
        commit_index: 0,
    }));
    let out = replica.handle(vote_request(3, 4, 0, 0));
    assert_eq!(out, vec![vote_answer(1, 1, 4, false)]);
    assert_eq!(replica.voted_for(), None);
    assert_eq!(replica.current_term(), 4);
}

#[test]
fn a_request_from_an_earlier_term_is_told_so_first() {
    let mut replica = Replica::start(1, vec![2, 3]);
    replica.handle(vote_request(3, 4, 0, 0));
    // The vote of this term went to another.
    let out = replica.handle(vote_request(2, 3, 0, 0));
    assert_eq!(
        out,
        vec![vote_answer(0, 1, 4, false), vote_answer(0, 1, 4, false)]
    );
    // The one who has the vote hears so again.
    let out = replica.handle(vote_request(3, 3, 0, 0));
    assert_eq!(
        out,
        vec![vote_answer(1, 1, 4, false), vote_answer(1, 1, 4, true)]
    );
    assert_eq!(replica.current_term(), 4);
    assert_eq!(replica.voted_for(), Some(3));
}

#[test]
fn a_log_that_is_behind_gets_no_vote() {
    let mut replica = Replica::start(1, vec![2, 3]);
    replica.handle(Event::Protocol(Message::AppendEntryRequest {
        term: 2,
        from_id: 2,
        prev_log_index: 0,
        prev_log_term: 0,
        entries: vec![Log {
            delta: 5,
            term: 2,
            index: 1,
        }],
        commit_index: 0,
    }));
    // Too short.
    assert_eq!(
        replica.handle(vote_request(3, 5, 0, 2)),
        vec![vote_answer(1, 1, 5, false)]
    );
    // Its last entry is of an earlier term.
    assert_eq!(
        replica.handle(vote_request(3, 6, 4, 1)),
        vec![vote_answer(1, 1, 6, false)]
    );
    assert_eq!(
        replica.handle(vote_request(3, 7, 1, 2)),
        vec![vote_answer(1, 1, 7, true)]
    );
}

#[test]
fn a_candidate_votes_for_nobody_else_in_its_term() {
    let mut replica = Replica::start(1, vec![2, 3]);
    replica.handle(Event::Timeout);
    let out = replica.handle(vote_request(2, 1, 8, 8));
    assert_eq!(out, vec![vote_answer(0, 1, 1, false)]);
    assert_eq!(replica.state(), State::Candidate);
    // In a later term it follows, and votes.
    let out = replica.handle(vote_request(2, 2, 8, 8));
    assert_eq!(out, vec![vote_answer(0, 1, 2, true)]);
    assert_eq!(replica.state(), State::Follower);
    assert_eq!(replica.current_term(), 2);
}

#[test]
fn a_candidate_follows_a_leader_of_its_term() {
    let mut replica = Replica::start(1, vec![2, 3]);
    replica.handle(Event::Timeout);
    let out = replica.handle(heartbeat(2, 0));
    assert_eq!(
        out,
        vec![Envelope {
            peer: 0,
            message: Message::AppendEntryResponse {
                from_id: 1,
                term: 1,
                success: false,
                last_index: 0,
            },
        }]
    );
    assert_eq!(replica.state(), State::Candidate);
    let out = replica.handle(heartbeat(3, 1));
    assert_eq!(
        out,
        vec![Envelope {
            peer: 1,
            message: Message::AppendEntryResponse {
                from_id: 1,
                term: 1,
                success: true,
                last_index: 0,
            },
        }]
    );
    assert_eq!(replica.state(), State::Follower);
}

#[test]
fn a_candidate_ignores_append_answers() {
    let mut replica = Replica::start(1, vec![2, 3]);
    replica.handle(Event::Timeout);
    let out = replica.handle(Event::Protocol(Message::AppendEntryResponse {
        from_id: 2,
        term: 5,
        success: false,
        last_index: 0,
    }));
    assert!(out.is_empty());
    assert_eq!(replica.state(), State::Candidate);
    assert_eq!(replica.current_term(), 1);
}

#[test]
fn a_follower_ignores_answers() {
    let mut replica = Replica::start(1, vec![2, 3]);
    assert!(replica.handle(vote(2, 9, true)).is_empty());
    assert_eq!(replica.current_term(), 0);
    assert_eq!(replica.state(), State::Follower);
}

#[test]
fn down_then_up_restores_each_role() {
    let mut replica = Replica::start(1, vec![2, 3]);
    replica.handle(Event::Timeout);
    replica.handle(Event::Control(ControlMessage::Down));
    assert_eq!(replica.state(), State::Dead);
    replica.handle(Event::Control(ControlMessage::Up));
    assert_eq!(replica.state(), State::Candidate);
    assert_eq!(replica.current_term(), 1);
    replica.handle(vote(2, 1, true));
    assert_eq!(replica.state(), State::Leader);
    replica.handle(Event::Control(ControlMessage::Apply(6)));
    replica.handle(Event::Control(ControlMessage::Down));
    replica.handle(Event::Control(ControlMessage::Up));
    assert_eq!(replica.state(), State::Leader);
    assert_eq!(replica.current_term(), 1);
    assert_eq!(replica.log().len(), 2);
    assert_eq!(replica.next_index()[&3], 1);
}

#[test]
fn up_on_a_live_replica_restarts_it() {
    let mut replica = Replica::start(1, vec![2, 3]);
    replica.handle(vote_request(3, 4, 0, 0));
    replica.handle(Event::Control(ControlMessage::Up));
    assert_eq!(replica.state(), State::Follower);
    assert_eq!(replica.current_term(), 0);
}

#[test]
fn two_downs_and_an_up_restart_a_replica() {
    let mut replica = Replica::start(1, vec![2, 3]);
    replica.handle(Event::Timeout);
    replica.handle(Event::Control(ControlMessage::Down));
    replica.handle(Event::Control(ControlMessage::Down));
    replica.handle(Event::Control(ControlMessage::Up));
    assert_eq!(replica.state(), State::Follower);
    assert_eq!(replica.current_term(), 0);
    assert_eq!(replica.voted_for(), None);
}

#[test]
fn a_dead_replica_takes_control_messages_only() {
    let mut replica = Replica::start(1, vec![2, 3]);
    replica.handle(Event::Control(ControlMessage::Down));
    assert!(!replica.can_handle(&Event::Timeout));
    assert!(!replica.can_handle(&vote_request(2, 1, 0, 0)));
    assert!(replica.can_handle(&Event::Control(ControlMessage::Apply(3))));
    assert!(replica
        .handle(Event::Control(ControlMessage::Apply(3)))
        .is_empty());
    assert_eq!(replica.log().len(), 1);
    assert_eq!(replica.state(), State::Dead);
}

#[test]
fn requests_must_come_from_peers() {
    let replica = Replica::start(1, vec![2, 3]);
    assert!(!replica.can_handle(&vote_request(4, 1, 0, 0)));
    assert!(!replica.can_handle(&vote_request(1, 1, 0, 0)));
    assert!(!replica.can_handle(&heartbeat(0, 1)));
    assert!(replica.can_handle(&vote_request(2, 1, 0, 0)));
    assert!(replica.can_handle(&heartbeat(3, 1)));
    // Nobody answers an answer.
    assert!(replica.can_handle(&vote(4, 1, true)));
}

#[test]
fn the_last_term_has_no_successor() {
    let mut replica = Replica::start(1, vec![2, 3]);
    replica.handle(vote_request(3, usize::MAX, 0, 0));
    assert!(!replica.can_handle(&Event::Timeout));
}

#[test]
fn peers_are_found_by_their_ids() {
    let ids = vec![2, 3, 5, 8, 13, 21, 34];
    let replica = Replica::start(1, ids);
    assert_eq!(replica.get_peer_by_id(2), 0);
    assert_eq!(replica.get_peer_by_id(3), 1);
    assert_eq!(replica.get_peer_by_id(8), 3);
    assert_eq!(replica.get_peer_by_id(21), 5);
    assert_eq!(replica.get_peer_by_id(34), 6);
    let message = Message::RequestVoteResponse {
        from_id: 1,
        term: 0,
        vote_granted: true,
    };
    assert_eq!(replica.send_message(13, message).peer, 4);
}
