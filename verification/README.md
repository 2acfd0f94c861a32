# raft_replica

One replica of the Raft consensus protocol, verified with Verus. The replicas of a cluster agree on
a log of changes, and with it on a value.

- `src/types.rs`: log entries, messages, events.
- `src/model.rs`: the replica as a state machine over mathematical values.
- `src/replica.rs`: the executable replica, proved to do what the state machine does.
- `src/timing.rs`: how long a replica waits.
- `src/laws.rs`: what holds of replicas whatever happens to them, and of two that talk to each other.
- `app/`: the loop that runs a replica on crossbeam channels.
- `tests/`: elections, replication and waiting, on concrete values.

A turn of a replica is `poll` (what to send, what to wait for) and `react` (what to do with what
arrived, and what that makes of the log and the value). `can_heartbeat` and `can_handle` tell whether
the next step can be taken, and `react` tells whether what is committed could be applied.
