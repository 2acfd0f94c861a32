use raft_replica::replica::Replica;
use raft_replica::types::{ControlMessage, Envelope, Event, Log, Message, State};

fn leader(id: usize, peers: Vec<usize>) -> Replica {
    let ids = peers.clone();
    let mut replica = Replica::start(id, peers);
    replica.handle(Event::Timeout);
    let term = replica.current_term();
    for from_id in ids {
        replica.handle(Event::Protocol(Message::RequestVoteResponse {
            from_id,
            term,
            vote_granted: true,
        }));
    }
    assert_eq!(replica.state(), State::Leader);
    replica
}

fn entry(index: usize, term: usize, delta: i32) -> Log {
    Log { delta, term, index }
}

fn append(
    term: usize,
    prev_log_index: usize,
    prev_log_term: usize,
    entries: Vec<Log>,
    commit_index: usize,
) -> Event {
    Event::Protocol(Message::AppendEntryRequest {
        term,
        from_id: 2,
        prev_log_index,
        prev_log_term,
        entries,
        commit_index,
    })
}

fn answer(from_id: usize, term: usize, success: bool, last_index: usize) -> Event {
    Event::Protocol(Message::AppendEntryResponse {
        from_id,
        term,
        success,
        last_index,
    })
}

fn answered(out: Vec<Envelope>) -> (usize, bool, usize) {
    assert_eq!(out.len(), 1);
    match out[0].message {
        Message::AppendEntryResponse {
            term,
            success,
            last_index,
            ..
        } => (term, success, last_index),
        _ => panic!("no append answer"),
    }
}

#[test]
fn only_a_leader_takes_changes() {
    let mut replica = Replica::start(1, vec![2, 3]);
    replica.handle(Event::Control(ControlMessage::Apply(4)));
    assert_eq!(replica.log().len(), 1);
    let mut replica = leader(1, vec![2, 3]);
    replica.handle(Event::Control(ControlMessage::Apply(4)));
    replica.handle(Event::Control(ControlMessage::Apply(-9)));
    assert_eq!(
        *replica.log(),
        vec![entry(0, 0, 0), entry(1, 1, 4), entry(2, 1, -9)]
    );
    assert_eq!(replica.value(), 0);
}

#[test]
fn a_heartbeat_offers_what_follows_the_next_index() {
    let mut replica = leader(1, vec![2, 3]);
    replica.handle(Event::Control(ControlMessage::Apply(4)));
    replica.handle(Event::Control(ControlMessage::Apply(5)));
    replica.handle(answer(3, 1, true, 1));
    assert_eq!(replica.get_entries_for_peer(3), vec![entry(2, 1, 5)]);
    assert!(replica.can_heartbeat());
    let out = replica.heartbeat();
    assert_eq!(
        out,
        vec![
            Envelope {
                peer: 0,
                message: Message::AppendEntryRequest {
                    term: 1,
                    from_id: 1,
                    prev_log_index: 0,
                    prev_log_term: 0,
                    entries: vec![entry(1, 1, 4), entry(2, 1, 5)],
                    commit_index: 0,
                },
            },
            Envelope {
                peer: 1,
                message: Message::AppendEntryRequest {
                    term: 1,
                    from_id: 1,
                    prev_log_index: 1,
                    prev_log_term: 1,
                    entries: vec![entry(2, 1, 5)],
                    commit_index: 0,
                },
            },
        ]
    );
}

#[test]
fn a_leader_notes_successes_and_backs_off_on_refusals() {
    let mut replica = leader(1, vec![2, 3]);
    replica.handle(Event::Control(ControlMessage::Apply(4)));
    assert!(replica.handle(answer(2, 1, true, 1)).is_empty());
    assert_eq!(replica.next_index()[&2], 2);
    assert_eq!(replica.match_index()[&2], 1);
    replica.handle(answer(2, 1, false, 1));
    assert_eq!(replica.next_index()[&2], 1);
    assert_eq!(replica.match_index()[&2], 1);
    replica.handle(answer(2, 1, false, 1));
    assert_eq!(replica.next_index()[&2], 0);
    assert!(!replica.can_heartbeat());
    assert!(!replica.can_handle(&answer(2, 1, false, 1)));
    // Of a stranger nothing is known that could be lowered.
    assert!(!replica.can_handle(&answer(7, 1, false, 1)));
    assert!(replica.can_handle(&answer(7, 1, true, 1)));
    assert!(!replica.can_handle(&answer(2, 1, true, usize::MAX)));
}

#[test]
fn a_follower_that_is_ahead_leaves_nothing_to_send() {
    let mut replica = leader(1, vec![2, 3]);
    replica.handle(answer(2, 1, true, 5));
    assert_eq!(replica.next_index()[&2], 6);
    assert!(!replica.can_heartbeat());
}

#[test]
fn a_leader_whose_term_is_over_follows() {
    let mut replica = leader(1, vec![2, 3]);
    assert_eq!(replica.next_index().len(), 2);
    assert_eq!(replica.match_index().len(), 2);
    replica.handle(answer(2, 5, false, 0));
    assert_eq!(replica.state(), State::Follower);
    assert_eq!(replica.current_term(), 5);
    assert!(replica.next_index().is_empty());
    assert!(replica.match_index().is_empty());
}

#[test]
fn only_members_are_counted_when_only_members_answer() {
    let mut replica = leader(1, vec![2, 3]);
    replica.handle(Event::Control(ControlMessage::Apply(1)));
    replica.handle(answer(2, 1, true, 1));
    replica.handle(answer(3, 1, false, 0));
    assert!(replica.next_index().keys().all(|id| *id == 2 || *id == 3));
    assert!(replica.match_index().keys().all(|id| *id == 2 || *id == 3));
    // A success from outside counts.
    replica.handle(answer(7, 1, true, 1));
    assert_eq!(replica.match_index()[&7], 1);
}

#[test]
fn followers_do_with_a_request_what_its_kind_asks_for() {
    let mut one = Replica::start(1, vec![2, 3]);
    let mut two = Replica::start(1, vec![2, 3]);
    let out = one.process_message_as_follower(Message::AppendEntryRequest {
        term: 1,
        from_id: 2,
        prev_log_index: 0,
        prev_log_term: 0,
        entries: vec![entry(1, 1, 4)],
        commit_index: 1,
    });
    assert_eq!(
        out,
        two.process_append_entry_request_as_follower(2, 1, 0, 0, vec![entry(1, 1, 4)], 1)
    );
    assert_eq!(*one.log(), *two.log());
    assert_eq!(one.commit_index(), two.commit_index());
    let out = one.process_message_as_follower(Message::RequestVoteRequest {
        from_id: 3,
        term: 2,
        last_log_index: 1,
        last_log_term: 1,
    });
    assert_eq!(
        out,
        two.process_request_vote_request_as_follower(3, 2, 1, 1)
    );
    assert_eq!(one.voted_for(), two.voted_for());
    assert_eq!(one.current_term(), 2);
    assert_eq!(two.current_term(), 2);
}

#[test]
fn a_leader_ignores_requests_and_timeouts() {
    let mut replica = leader(1, vec![2, 3]);
    assert!(replica
        .handle(append(9, 0, 0, vec![entry(1, 9, 1)], 0))
        .is_empty());
    assert!(replica.handle(Event::Timeout).is_empty());
    assert_eq!(replica.state(), State::Leader);
    assert_eq!(replica.current_term(), 1);
    assert_eq!(replica.log().len(), 1);
}

#[test]
fn entries_are_appended_in_order() {
    let mut replica = Replica::start(1, vec![2, 3]);
    let out = replica.handle(append(1, 0, 0, vec![entry(1, 1, 4), entry(2, 1, 5)], 1));
    assert_eq!(answered(out), (0, true, 2));
    assert_eq!(
        *replica.log(),
        vec![entry(0, 0, 0), entry(1, 1, 4), entry(2, 1, 5)]
    );
    assert_eq!(replica.commit_index(), 1);
    // A follower keeps its term when it takes entries of a later one.
    assert_eq!(replica.current_term(), 0);
}

#[test]
fn a_contradicted_entry_goes_with_all_that_follows() {
    let mut replica = Replica::start(1, vec![2, 3]);
    replica.handle(append(
        1,
        0,
        0,
        vec![entry(1, 1, 4), entry(2, 1, 5), entry(3, 1, 6)],
        0,
    ));
    let out = replica.handle(append(2, 1, 1, vec![entry(2, 2, 9)], 0));
    assert_eq!(answered(out), (0, true, 2));
    assert_eq!(
        *replica.log(),
        vec![entry(0, 0, 0), entry(1, 1, 4), entry(2, 2, 9)]
    );
}

#[test]
fn known_entries_are_kept_and_gaps_are_not_filled() {
    let mut replica = Replica::start(1, vec![2, 3]);
    replica.handle(append(1, 0, 0, vec![entry(1, 1, 4), entry(2, 1, 5)], 0));
    // The first is known by position and term, the second would leave a gap.
    let out = replica.handle(append(1, 0, 0, vec![entry(1, 1, 77), entry(4, 1, 8)], 0));
    assert_eq!(answered(out), (0, true, 2));
    assert_eq!(
        *replica.log(),
        vec![entry(0, 0, 0), entry(1, 1, 4), entry(2, 1, 5)]
    );
}

#[test]
fn an_append_without_its_predecessor_is_refused() {
    let mut replica = Replica::start(1, vec![2, 3]);
    let out = replica.handle(append(1, 3, 1, vec![entry(4, 1, 4)], 3));
    assert_eq!(answered(out), (0, false, 0));
    assert_eq!(replica.log().len(), 1);
    assert_eq!(replica.commit_index(), 0);
    // There is an entry, but of another term.
    let out = replica.handle(append(1, 0, 1, vec![], 3));
    assert_eq!(answered(out), (0, false, 0));
}

#[test]
fn an_append_of_an_earlier_term_is_refused() {
    let mut replica = Replica::start(1, vec![2, 3]);
    replica.handle(Event::Protocol(Message::RequestVoteRequest {
        from_id: 3,
        term: 4,
        last_log_index: 0,
        last_log_term: 0,
    }));
    let out = replica.handle(append(3, 0, 0, vec![entry(1, 3, 4)], 1));
    assert_eq!(answered(out), (4, false, 0));
    assert_eq!(replica.log().len(), 1);
}

#[test]
fn a_repeated_append_changes_nothing() {
    let mut replica = Replica::start(1, vec![2, 3]);
    let request = || append(1, 0, 0, vec![entry(1, 1, 4), entry(2, 1, 5)], 7);
    let first = replica.handle(request());
    let log = replica.log().clone();
    let second = replica.handle(request());
    assert_eq!(first, second);
    assert_eq!(*replica.log(), log);
    assert_eq!(replica.commit_index(), 2);
}

#[test]
fn the_commit_index_follows_as_far_as_the_log_goes() {
    let mut replica = Replica::start(1, vec![2, 3]);
    replica.handle(append(1, 0, 0, vec![entry(1, 1, 4)], 9));
    assert_eq!(replica.commit_index(), 1);
    replica.handle(append(1, 1, 1, vec![entry(2, 1, 5)], 1));
    assert_eq!(replica.commit_index(), 1);
    replica.handle(append(1, 2, 1, vec![entry(3, 1, 6)], 2));
    assert_eq!(replica.commit_index(), 2);
}

#[test]
fn committed_changes_are_applied() {
    let mut replica = Replica::start(1, vec![2, 3]);
    replica.handle(append(
        1,
        0,
        0,
        vec![entry(1, 1, 4), entry(2, 1, -7), entry(3, 1, 100)],
        2,
    ));
    assert!(replica.can_apply());
    replica.apply_ready_changes();
    assert_eq!(replica.value(), -3);
    assert_eq!(replica.last_applied(), 2);
    replica.apply_ready_changes();
    assert_eq!(replica.value(), -3);
}

#[test]
fn a_leader_commits_what_a_majority_holds() {
    // Five replicas: two others are needed besides the leader.
    let mut replica = leader(1, vec![2, 3, 4, 5]);
    replica.handle(Event::Control(ControlMessage::Apply(10)));
    replica.handle(Event::Control(ControlMessage::Apply(20)));
    replica.handle(answer(2, 1, true, 2));
    assert!(replica.can_apply());
    replica.apply_ready_changes();
    assert_eq!(replica.commit_index(), 0);
    assert_eq!(replica.value(), 0);
    replica.handle(answer(3, 1, true, 1));
    replica.apply_ready_changes();
    assert_eq!(replica.commit_index(), 1);
    assert_eq!(replica.value(), 10);
    replica.handle(answer(4, 1, true, 2));
    replica.apply_ready_changes();
    assert_eq!(replica.commit_index(), 2);
    assert_eq!(replica.last_applied(), 2);
    assert_eq!(replica.value(), 30);
}

#[test]
fn a_leader_commits_only_through_entries_of_its_term() {
    let mut replica = Replica::start(1, vec![2, 3]);
    replica.handle(append(1, 0, 0, vec![entry(1, 1, 4)], 0));
    // In term 1 again, and then in term 2.
    replica.handle(Event::Timeout);
    replica.handle(Event::Timeout);
    assert_eq!(replica.current_term(), 2);
    replica.handle(Event::Protocol(Message::RequestVoteResponse {
        from_id: 2,
        term: 2,
        vote_granted: true,
    }));
    assert_eq!(replica.state(), State::Leader);
    assert_eq!(replica.next_index()[&2], 2);
    replica.handle(answer(2, 2, true, 1));
    replica.apply_ready_changes();
    assert_eq!(replica.commit_index(), 0);
    // An entry of its own term commits the earlier one too.
    replica.handle(Event::Control(ControlMessage::Apply(3)));
    replica.handle(answer(2, 2, true, 2));
    replica.apply_ready_changes();
    assert_eq!(replica.commit_index(), 2);
    assert_eq!(replica.value(), 7);
}

#[test]
fn changes_beyond_the_range_of_the_value_cannot_be_applied() {
    let mut replica = Replica::start(1, vec![2, 3]);
    replica.handle(append(
        1,
        0,
        0,
        vec![entry(1, 1, i32::MAX), entry(2, 1, 1), entry(3, 1, -5)],
        1,
    ));
    assert!(replica.can_apply());
    replica.apply_ready_changes();
    assert_eq!(replica.value(), i32::MAX);
    replica.handle(append(1, 3, 1, vec![], 3));
    assert_eq!(replica.commit_index(), 3);
    assert!(!replica.can_apply());
}

#[test]
fn a_commit_index_beyond_an_overwritten_log_cannot_be_applied() {
    let mut replica = Replica::start(1, vec![2, 3]);
    replica.handle(append(
        1,
        0,
        0,
        vec![entry(1, 1, 4), entry(2, 1, 5), entry(3, 1, 6)],
        3,
    ));
    let reaction = replica.react(append(2, 0, 0, vec![entry(1, 2, 9)], 0));
    assert_eq!(answered(reaction.out), (0, true, 1));
    assert!(!reaction.applied);
    assert_eq!(replica.commit_index(), 3);
    assert_eq!(replica.last_applied(), 0);
    assert_eq!(replica.log().len(), 2);
    assert!(!replica.can_apply());
}

#[test]
fn a_leader_backs_off_until_its_entries_are_taken() {
    // The follower holds three entries of term 1 that the leader has never seen.
    let mut follower = Replica::start(1, vec![2, 3]);
    follower.handle(append(
        1,
        0,
        0,
        vec![entry(1, 1, 4), entry(2, 1, 5), entry(3, 1, 6)],
        0,
    ));
    // The leader leads in term 2 with three entries of its own.
    let mut boss = Replica::start(2, vec![1, 3]);
    boss.handle(Event::Timeout);
    boss.handle(Event::Timeout);
    boss.handle(Event::Protocol(Message::RequestVoteResponse {
        from_id: 3,
        term: 2,
        vote_granted: true,
    }));
    for delta in vec![7, 8, 9] {
        boss.handle(Event::Control(ControlMessage::Apply(delta)));
    }
    boss.handle(answer(1, 2, true, 3));
    assert_eq!(boss.next_index()[&1], 4);
    let mut rounds = 0;
    while boss.match_index()[&1] != 3 || *boss.log() != *follower.log() {
        rounds += 1;
        let next = boss.next_index()[&1];
        for envelope in boss.heartbeat() {
            if envelope.peer == 0 {
                for reply in follower.handle(Event::Protocol(envelope.message)) {
                    assert_eq!(reply.peer, 0);
                    let event = Event::Protocol(reply.message);
                    assert!(boss.can_handle(&event));
                    boss.handle(event);
                }
            }
        }
        assert!(boss.can_heartbeat());
        if boss.next_index()[&1] != 4 {
            assert_eq!(boss.next_index()[&1], next - 1);
            assert_eq!(boss.get_entries_for_peer(1).len(), 5 - next);
        }
    }
    assert_eq!(rounds, 4);
    assert_eq!(
        *follower.log(),
        vec![entry(0, 0, 0), entry(1, 2, 7), entry(2, 2, 8), entry(3, 2, 9)]
    );
}

#[test]
fn terms_only_rise_until_a_restart() {
    let mut replica = Replica::start(1, vec![2, 3]);
    let mut term = 0;
    let events = vec![
        Event::Timeout,
        append(0, 0, 0, vec![], 0),
        append(5, 0, 0, vec![], 0),
        append(2, 0, 0, vec![], 0),
        Event::Timeout,
        Event::Control(ControlMessage::Down),
        Event::Control(ControlMessage::Up),
    ];
    for event in events {
        assert!(replica.can_handle(&event));
        replica.handle(event);
        assert!(replica.current_term() >= term);
        term = replica.current_term();
    }
    assert_eq!(term, 6);
    replica.handle(Event::Control(ControlMessage::Up));
    assert_eq!(replica.current_term(), 0);
}

fn deliver(out: Vec<Envelope>, ids: &[usize], replicas: &mut Vec<Replica>) {
    let mut queue: Vec<(usize, Message)> = Vec::new();
    for envelope in out {
        queue.push((ids[envelope.peer], envelope.message));
    }
    for (to, message) in queue {
        let at = replicas.iter().position(|r| r.id() == to).unwrap();
        let event = Event::Protocol(message);
        assert!(replicas[at].can_handle(&event));
        let reaction = replicas[at].react(event);
        assert!(reaction.applied);
        let others: Vec<usize> = (1..4).filter(|id| *id != to).collect();
        deliver(reaction.out, &others, replicas);
    }
}

#[test]
fn a_cluster_reaches_the_same_value() {
    let mut replicas = vec![
        Replica::start(1, vec![2, 3]),
        Replica::start(2, vec![1, 3]),
        Replica::start(3, vec![1, 2]),
    ];
    let out = replicas[0].handle(Event::Timeout);
    deliver(out, &[2, 3], &mut replicas);
    assert_eq!(replicas[0].state(), State::Leader);
    for delta in vec![10, -3, 25] {
        replicas[0].handle(Event::Control(ControlMessage::Apply(delta)));
    }
    for _ in 0..3 {
        assert!(replicas[0].can_heartbeat());
        let out = replicas[0].heartbeat();
        deliver(out, &[2, 3], &mut replicas);
    }
    for replica in &replicas {
        assert_eq!(replica.value(), 32);
        assert_eq!(replica.commit_index(), 3);
        assert_eq!(*replica.log(), *replicas[0].log());
    }
}
