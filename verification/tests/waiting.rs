use raft_replica::replica::Replica;
use raft_replica::timing::Wait;
use raft_replica::types::{ControlMessage, Event, Message};

fn leader() -> Replica {
    let mut replica = Replica::start(1, vec![2, 3]);
    replica.handle(Event::Timeout);
    replica.handle(Event::Protocol(Message::RequestVoteResponse {
        from_id: 2,
        term: 1,
        vote_granted: true,
    }));
    replica
}

#[test]
fn followers_and_candidates_wait_for_a_random_time() {
    let mut replica = Replica::start(1, vec![2, 3]);
    for _ in 0..2 {
        let mut drawn: Vec<u64> = Vec::new();
        for _ in 0..300 {
            let turn = replica.poll(true);
            assert!(turn.out.is_empty());
            assert!(!turn.renew_timer);
            match turn.wait {
                Wait::Any { timeout } => {
                    assert!(2000 <= timeout && timeout <= 3500);
                    drawn.push(timeout);
                }
                Wait::Control => panic!("no timeout"),
            }
        }
        assert!(drawn.iter().any(|t| *t != 2000 && *t != 3500));
        assert!(drawn.iter().any(|t| *t != drawn[0]));
        replica.handle(Event::Timeout);
    }
}

#[test]
fn a_drawn_timeout_is_the_timeout() {
    let replica = Replica::start(1, vec![2, 3]);
    let turn = replica.poll_drawn(false, 2345);
    assert_eq!(turn.wait, Wait::Any { timeout: 2345 });
    assert!(turn.out.is_empty());
}

#[test]
fn a_leader_sends_its_heartbeat_when_the_timer_fires() {
    let replica = leader();
    let turn = replica.poll(true);
    assert_eq!(turn.out, replica.heartbeat());
    assert_eq!(turn.out.len(), 2);
    assert!(turn.renew_timer);
    assert_eq!(turn.wait, Wait::Any { timeout: 500 });
    let turn = replica.poll(false);
    assert!(turn.out.is_empty());
    assert!(!turn.renew_timer);
    assert_eq!(turn.wait, Wait::Any { timeout: 500 });
}

#[test]
fn a_dead_replica_waits_for_control_messages() {
    let mut replica = leader();
    replica.handle(Event::Control(ControlMessage::Down));
    let turn = replica.poll(true);
    assert!(turn.out.is_empty());
    assert!(!turn.renew_timer);
    assert_eq!(turn.wait, Wait::Control);
}
