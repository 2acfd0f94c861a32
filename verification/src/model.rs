//! The replica as a state machine over mathematical values: what it holds, what it must hold to be
//! valid, and what each event makes of it.
use vstd::prelude::*;

use crate::timing::{Wait, LEADER_TIMEOUT};
use crate::types::{ControlMessage, Envelope, EventView, Log, MessageView, State};

verus! {

/// What a replica holds.
#[verifier::ext_equal]
pub struct ReplicaView {
    /// The value that the replicas keep consistent.
    pub value: int,
    pub id: usize,
    pub current_term: usize,
    /// Who voted for this replica in the election that it stands in.
    pub current_votes: Option<Set<usize>>,
    pub state: State,
    /// The state before dying.
    pub prev_state: State,
    /// The ids of the peers, in the order in which they were given.
    pub peers: Seq<usize>,
    /// Who the last vote was cast for.
    pub voted_for: Option<usize>,
    pub log: Seq<Log>,
    pub commit_index: usize,
    pub last_applied: usize,
    /// For each peer, the position of the next entry to send. Only leaders have it.
    pub next_index: Map<usize, usize>,
    /// For each peer, the position of the last entry known to be in its log. Only leaders have it.
    pub match_index: Map<usize, usize>,
}

/// A message and the id that it goes to.
#[verifier::ext_equal]
pub struct Sent {
    pub to: usize,
    pub message: MessageView,
}

/// What an event leads to: the replica afterwards and the messages that it sent, in order.
#[verifier::ext_equal]
pub struct Step {
    pub replica: ReplicaView,
    pub sent: Seq<Sent>,
}

/// `out` puts the messages of `sent` in order into envelopes for peers with the right ids.
pub open spec fn delivers(out: Seq<Envelope>, peers: Seq<usize>, sent: Seq<Sent>) -> bool {
    &&& out.len() == sent.len()
    &&& forall|i: int|
        0 <= i < out.len() ==> {
            &&& (#[trigger] out[i]).peer < peers.len()
            &&& peers[out[i].peer as int] == sent[i].to
            &&& out[i].message@ == sent[i].message
        }
}

/// `out` holds one envelope for each peer, in the order of the peers.
pub open spec fn one_for_each(out: Seq<Envelope>, peers: Seq<usize>) -> bool {
    &&& out.len() == peers.len()
    &&& forall|i: int| 0 <= i < out.len() ==> (#[trigger] out[i]).peer == i
}

/// The ids never descend.
pub open spec fn ascending(ids: Seq<usize>) -> bool {
    forall|i: int, j: int| 0 <= i <= j < ids.len() ==> ids[i] <= ids[j]
}

/// `votes` votes are more than half of a cluster that has `peers` replicas besides this one.
pub open spec fn wins_election(votes: nat, peers: nat) -> bool {
    2 * votes > peers + 1
}

/// This replica and `holders` others are more than half of a cluster that has `peers` replicas
/// besides this one.
pub open spec fn held_by_majority(holders: nat, peers: nat) -> bool {
    2 * (holders + 1) > peers + 1
}

/// The log after `entry` was offered: an entry that contradicts the one at its position replaces
/// it and all that follows; one that continues the log is appended; any other changes nothing.
pub open spec fn merged_entry(log: Seq<Log>, entry: Log) -> Seq<Log> {
    if entry.index < log.len() && entry.term != log[entry.index as int].term {
        log.take(entry.index as int).push(entry)
    } else if entry.index == log.len() {
        log.push(entry)
    } else {
        log
    }
}

/// The log after all `entries` were offered, the first one first.
pub open spec fn merged(log: Seq<Log>, entries: Seq<Log>) -> Seq<Log>
    decreases entries.len(),
{
    if entries.len() == 0 {
        log
    } else {
        merged_entry(merged(log, entries.drop_last()), entries.last())
    }
}

/// Sum of the changes at the positions `from + 1` up to and with `to`.
pub open spec fn delta_sum(log: Seq<Log>, from: int, to: int) -> int
    decreases to - from,
{
    if to <= from {
        0
    } else {
        delta_sum(log, from, to - 1) + log[to].delta
    }
}

impl ReplicaView {
    /// A replica that starts: a follower in term 0 whose log holds one entry that changes nothing.
    pub open spec fn started(id: usize, peers: Seq<usize>) -> ReplicaView {
        ReplicaView {
            value: 0,
            id,
            current_term: 0,
            current_votes: None,
            state: State::Follower,
            prev_state: State::Dead,
            peers,
            voted_for: None,
            log: seq![Log { delta: 0, term: 0, index: 0 }],
            commit_index: 0,
            last_applied: 0,
            next_index: Map::empty(),
            match_index: Map::empty(),
        }
    }

    // ------------------------------------------------------------------------------------------
    // Validity

    /// The state that counts: of a dead replica, the one that it had before.
    pub open spec fn standing(self) -> State {
        if self.state == State::Dead {
            self.prev_state
        } else {
            self.state
        }
    }

    /// What holds of every replica at every moment.
    pub open spec fn wf(self) -> bool {
        &&& ascending(self.peers)
        &&& self.peers.len() <= usize::MAX
        &&& 0 < self.log.len() <= usize::MAX
        &&& forall|i: int| 0 <= i < self.log.len() ==> (#[trigger] self.log[i]).index == i
        &&& self.state != State::Dead ==> self.prev_state == State::Dead
        &&& match self.standing() {
            State::Follower => self.current_votes is None,
            State::Candidate => {
                &&& self.current_votes matches Some(votes) && votes.finite() && votes.contains(
                    self.id,
                )
                &&& self.voted_for == Some(self.id)
            },
            State::Leader => {
                &&& self.current_votes is None
                &&& forall|id: usize| #[trigger]
                    self.peers.contains(id) ==> self.next_index.contains_key(id)
                        && self.match_index.contains_key(id)
            },
            State::Dead => true,
        }
    }

    // ------------------------------------------------------------------------------------------
    // Changes of state

    /// No vote is on record, and how far the peers are is for leaders to know.
    pub open spec fn became_follower(self, term: usize) -> ReplicaView {
        ReplicaView {
            current_term: term,
            state: State::Follower,
            current_votes: None,
            voted_for: None,
            next_index: Map::empty(),
            match_index: Map::empty(),
            ..self
        }
    }

    /// A new term, and the replica's own vote for itself.
    pub open spec fn became_candidate(self) -> ReplicaView {
        ReplicaView {
            current_term: (self.current_term + 1) as usize,
            state: State::Candidate,
            current_votes: Some(Set::empty().insert(self.id)),
            voted_for: Some(self.id),
            ..self
        }
    }

    /// Each peer is to get what follows this replica's log, and is known to hold nothing.
    pub open spec fn became_leader(self) -> ReplicaView {
        ReplicaView {
            state: State::Leader,
            current_votes: None,
            voted_for: None,
            next_index: Map::new(
                |id: usize| self.peers.contains(id),
                |id: usize| self.log.len() as usize,
            ),
            match_index: Map::new(|id: usize| self.peers.contains(id), |id: usize| 0usize),
            ..self
        }
    }

    pub open spec fn became_dead(self) -> ReplicaView {
        ReplicaView { prev_state: self.state, state: State::Dead, ..self }
    }

    /// Back to the state before dying; a replica without one restarts as a follower in term 0.
    pub open spec fn became_alive(self) -> ReplicaView {
        if self.prev_state == State::Dead {
            self.became_follower(0)
        } else {
            ReplicaView { state: self.prev_state, prev_state: State::Dead, ..self }
        }
    }

    /// A new entry of the current term at the end of the log.
    pub open spec fn appended(self, delta: i32) -> ReplicaView {
        ReplicaView {
            log: self.log.push(
                Log { delta, term: self.current_term, index: self.log.len() as usize },
            ),
            ..self
        }
    }

    // ------------------------------------------------------------------------------------------
    // What a replica says

    /// Position of the last entry of the log.
    pub open spec fn last_index(self) -> usize {
        (self.log.len() - 1) as usize
    }

    pub open spec fn append_answer(self, success: bool) -> MessageView {
        MessageView::AppendEntryResponse {
            from_id: self.id,
            term: self.current_term,
            success,
            last_index: self.last_index(),
        }
    }

    pub open spec fn vote_answer(self, vote_granted: bool) -> MessageView {
        MessageView::RequestVoteResponse {
            from_id: self.id,
            term: self.current_term,
            vote_granted,
        }
    }

    /// The request for the peer `id`: all entries from its next one on, and the entry before them.
    pub open spec fn append_request(self, id: usize) -> MessageView {
        let next = self.next_index[id];
        MessageView::AppendEntryRequest {
            term: self.current_term,
            from_id: self.id,
            prev_log_index: (next - 1) as usize,
            prev_log_term: self.log[next - 1].term,
            entries: self.log.subrange(next as int, self.log.len() as int),
            commit_index: self.commit_index,
        }
    }

    pub open spec fn vote_request(self) -> MessageView {
        MessageView::RequestVoteRequest {
            from_id: self.id,
            term: self.current_term,
            last_log_index: self.last_index(),
            last_log_term: self.log.last().term,
        }
    }

    /// One append request for each peer.
    pub open spec fn heartbeat(self) -> Seq<Sent> {
        Seq::new(
            self.peers.len(),
            |i: int| Sent { to: self.peers[i], message: self.append_request(self.peers[i]) },
        )
    }

    /// One vote request for each peer.
    pub open spec fn canvass(self) -> Seq<Sent> {
        Seq::new(
            self.peers.len(),
            |i: int| Sent { to: self.peers[i], message: self.vote_request() },
        )
    }

    /// This replica after saying nothing.
    pub open spec fn silent(self) -> Step {
        Step { replica: self, sent: Seq::empty() }
    }

    /// This replica after sending one message to `to`.
    pub open spec fn saying(self, to: usize, message: MessageView) -> Step {
        Step { replica: self, sent: seq![Sent { to, message }] }
    }

    // ------------------------------------------------------------------------------------------
    // Messages of the protocol

    /// Whether an append request is turned down: its term is over, or the log holds no entry of
    /// the given term at the given position.
    pub open spec fn refuses_append(
        self,
        term: usize,
        prev_log_index: usize,
        prev_log_term: usize,
    ) -> bool {
        ||| self.current_term > term
        ||| prev_log_index >= self.log.len()
        ||| self.log[prev_log_index as int].term != prev_log_term
    }

    /// The log takes the entries, and the commit index follows the leader's as far as the log goes.
    pub open spec fn extended(self, entries: Seq<Log>, commit_index: usize) -> ReplicaView {
        let log = merged(self.log, entries);
        ReplicaView {
            log,
            commit_index: if commit_index <= self.commit_index {
                self.commit_index
            } else if commit_index < log.len() - 1 {
                commit_index
            } else {
                (log.len() - 1) as usize
            },
            ..self
        }
    }

    /// An append request, answered by a follower.
    pub open spec fn append_requested(
        self,
        from_id: usize,
        term: usize,
        prev_log_index: usize,
        prev_log_term: usize,
        entries: Seq<Log>,
        commit_index: usize,
    ) -> Step {
        if self.refuses_append(term, prev_log_index, prev_log_term) {
            self.saying(from_id, self.append_answer(false))
        } else {
            let after = self.extended(entries, commit_index);
            after.saying(from_id, after.append_answer(true))
        }
    }

    /// Whether a vote goes to `from_id`: none went to another replica, and the last entry of the
    /// log is, by position and by term, not beyond the candidate's.
    pub open spec fn grants_vote(
        self,
        from_id: usize,
        last_log_index: usize,
        last_log_term: usize,
    ) -> bool {
        &&& self.voted_for is None || self.voted_for == Some(from_id)
        &&& self.last_index() <= last_log_index
        &&& self.log.last().term <= last_log_term
    }

    /// A vote request, answered by a follower. A request from an earlier term is told so first;
    /// a later term is adopted; a vote that is granted is recorded.
    pub open spec fn vote_requested(
        self,
        from_id: usize,
        term: usize,
        last_log_index: usize,
        last_log_term: usize,
    ) -> Step {
        let after = if self.current_term < term {
            self.became_follower(term)
        } else {
            self
        };
        let notice = if self.current_term > term {
            seq![Sent { to: from_id, message: self.vote_answer(false) }]
        } else {
            Seq::empty()
        };
        let granted = after.grants_vote(from_id, last_log_index, last_log_term);
        Step {
            replica: if granted {
                ReplicaView { voted_for: Some(from_id), ..after }
            } else {
                after
            },
            sent: notice.push(Sent { to: from_id, message: after.vote_answer(granted) }),
        }
    }

    /// A granted vote: the replica leads as soon as it holds the votes of a majority.
    pub open spec fn vote_received(self, from_id: usize) -> ReplicaView {
        match self.current_votes {
            None => self,
            Some(votes) => {
                let counted = ReplicaView { current_votes: Some(votes.insert(from_id)), ..self };
                if wins_election(votes.insert(from_id).len(), self.peers.len()) {
                    counted.became_leader()
                } else {
                    counted
                }
            },
        }
    }

    pub open spec fn told_as_leader(self, message: MessageView) -> ReplicaView {
        match message {
            MessageView::AppendEntryResponse { from_id, term, success, last_index } => {
                if term > self.current_term {
                    self.became_follower(term)
                } else if success {
                    ReplicaView {
                        next_index: self.next_index.insert(from_id, (last_index + 1) as usize),
                        match_index: self.match_index.insert(from_id, last_index),
                        ..self
                    }
                } else {
                    ReplicaView {
                        next_index: self.next_index.insert(
                            from_id,
                            (self.next_index[from_id] - 1) as usize,
                        ),
                        ..self
                    }
                }
            },
            _ => self,
        }
    }

    pub open spec fn told_as_follower(self, message: MessageView) -> Step {
        match message {
            MessageView::RequestVoteRequest { from_id, term, last_log_index, last_log_term } =>
                self.vote_requested(from_id, term, last_log_index, last_log_term),
            MessageView::AppendEntryRequest {
                term,
                from_id,
                prev_log_index,
                prev_log_term,
                entries,
                commit_index,
            } => self.append_requested(
                from_id,
                term,
                prev_log_index,
                prev_log_term,
                entries,
                commit_index,
            ),
            _ => self.silent(),
        }
    }

    pub open spec fn told_as_candidate(self, message: MessageView) -> Step {
        match message {
            MessageView::AppendEntryRequest { term, from_id, .. } => {
                if term >= self.current_term {
                    self.became_follower(term).told_as_follower(message)
                } else {
                    self.saying(from_id, self.append_answer(false))
                }
            },
            MessageView::RequestVoteRequest { term, from_id, .. } => {
                if term > self.current_term {
                    self.became_follower(term).told_as_follower(message)
                } else {
                    self.saying(from_id, self.vote_answer(false))
                }
            },
            MessageView::RequestVoteResponse { from_id, term, vote_granted } => {
                if term > self.current_term {
                    self.became_follower(term).silent()
                } else if vote_granted {
                    self.vote_received(from_id).silent()
                } else {
                    self.silent()
                }
            },
            MessageView::AppendEntryResponse { .. } => self.silent(),
        }
    }

    // ------------------------------------------------------------------------------------------
    // Events

    pub open spec fn controlled(self, message: ControlMessage) -> ReplicaView {
        match message {
            ControlMessage::Up => self.became_alive(),
            ControlMessage::Down => self.became_dead(),
            ControlMessage::Apply(delta) => {
                if self.state == State::Leader {
                    self.appended(delta)
                } else {
                    self
                }
            },
        }
    }

    pub open spec fn told(self, message: MessageView) -> Step {
        match self.state {
            State::Leader => self.told_as_leader(message).silent(),
            State::Follower => self.told_as_follower(message),
            State::Candidate => self.told_as_candidate(message),
            State::Dead => self.silent(),
        }
    }

    pub open spec fn timed_out(self) -> Step {
        match self.state {
            State::Follower | State::Candidate => {
                let after = self.became_candidate();
                Step { replica: after, sent: after.canvass() }
            },
            _ => self.silent(),
        }
    }

    pub open spec fn handled(self, event: EventView) -> Step {
        match event {
            EventView::Timeout => self.timed_out(),
            EventView::Protocol(message) => self.told(message),
            EventView::Control(message) => self.controlled(message).silent(),
        }
    }

    /// What the replica sends before it waits: a leader whose timer has fired, its heartbeat.
    pub open spec fn sent_first(self, timer_fired: bool) -> Seq<Sent> {
        if self.state == State::Leader && timer_fired {
            self.heartbeat()
        } else {
            Seq::empty()
        }
    }

    /// What the replica waits for, with `drawn` as the timeout of one that does not lead.
    pub open spec fn waits(self, drawn: u64) -> Wait {
        match self.state {
            State::Leader => Wait::Any { timeout: LEADER_TIMEOUT },
            State::Follower | State::Candidate => Wait::Any { timeout: drawn },
            State::Dead => Wait::Control,
        }
    }

    // ------------------------------------------------------------------------------------------
    // What a replica can take

    /// The heartbeat can be put together: for each peer the next entry is known, some entry
    /// precedes it, and it is at most one past the end of the log.
    pub open spec fn can_heartbeat(self) -> bool {
        forall|i: int|
            0 <= i < self.peers.len() ==> {
                &&& self.next_index.contains_key(#[trigger] self.peers[i])
                &&& 1 <= self.next_index[self.peers[i]] <= self.log.len()
            }
    }

    pub open spec fn can_be_told_as_leader(self, message: MessageView) -> bool {
        match message {
            MessageView::AppendEntryResponse { from_id, term, success, last_index } => {
                ||| term > self.current_term
                ||| success && last_index < usize::MAX
                ||| !success && self.next_index.contains_key(from_id) && self.next_index[from_id]
                    > 0
            },
            _ => true,
        }
    }

    /// A request must come from a peer: it gets an answer.
    pub open spec fn can_answer(self, message: MessageView) -> bool {
        match message {
            MessageView::AppendEntryRequest { from_id, .. } => self.peers.contains(from_id),
            MessageView::RequestVoteRequest { from_id, .. } => self.peers.contains(from_id),
            _ => true,
        }
    }

    pub open spec fn can_handle(self, event: EventView) -> bool {
        match (event, self.state) {
            (EventView::Timeout, State::Follower | State::Candidate) => self.current_term
                < usize::MAX,
            (EventView::Timeout, State::Leader) => true,
            (EventView::Protocol(message), State::Leader) => self.can_be_told_as_leader(message),
            (EventView::Protocol(message), State::Follower | State::Candidate) => self.can_answer(
                message,
            ),
            (EventView::Control(_), _) => true,
            // A dead replica listens to control messages only.
            (_, State::Dead) => false,
        }
    }

    // ------------------------------------------------------------------------------------------
    // Commitment

    /// The peers whose logs are known to reach position `n`.
    pub open spec fn holders(self, n: int) -> Set<usize> {
        self.match_index.dom().filter(|id: usize| self.match_index[id] >= n)
    }

    /// The leader may commit up to position `n`: a majority holds it, and it is of this term.
    pub open spec fn can_commit(self, n: int) -> bool {
        &&& self.state == State::Leader
        &&& self.commit_index < n < self.log.len()
        &&& held_by_majority(self.holders(n).len(), self.peers.len())
        &&& self.log[n].term == self.current_term
    }

    /// `c` is the latest position that can be committed, or the commit index if there is none.
    pub open spec fn is_ready_commit(self, c: usize) -> bool {
        &&& c == self.commit_index || self.can_commit(c as int)
        &&& forall|n: int| c < n ==> !#[trigger] self.can_commit(n)
    }

    /// The commit index that the replica is ready for.
    pub open spec fn ready_commit(self) -> usize {
        choose|c: usize| self.is_ready_commit(c)
    }

    /// What is behind the commit index `c` and not yet applied lies in the log, and no sum on the
    /// way leaves the range of the value.
    pub open spec fn can_apply_to(self, c: usize) -> bool {
        self.last_applied < c ==> {
            &&& c < self.log.len()
            &&& forall|k: int|
                self.last_applied < k <= c ==> i32::MIN <= self.value + #[trigger] delta_sum(
                    self.log,
                    self.last_applied as int,
                    k,
                ) <= i32::MAX
        }
    }

    /// The ready changes can be applied.
    pub open spec fn can_apply(self) -> bool {
        self.can_apply_to(self.ready_commit())
    }

    /// Everything behind the commit index `c` is applied.
    pub open spec fn applied_to(self, c: usize) -> ReplicaView {
        ReplicaView {
            commit_index: c,
            last_applied: if self.last_applied < c {
                c
            } else {
                self.last_applied
            },
            value: self.value + delta_sum(self.log, self.last_applied as int, c as int),
            ..self
        }
    }

    /// The ready changes are committed and applied.
    pub open spec fn applied(self) -> ReplicaView {
        self.applied_to(self.ready_commit())
    }

    /// At most one position is the one to commit up to.
    pub proof fn lemma_ready_commit_is(self, c: usize)
        requires
            self.is_ready_commit(c),
        ensures
            self.ready_commit() == c,
    {
        let d = self.ready_commit();
        assert(self.is_ready_commit(d));
        if c < d {
            assert(!self.can_commit(d as int));
        } else if d < c {
            assert(!self.can_commit(c as int));
        }
    }
}

/// Offering one entry more merges it into what the earlier ones made of the log.
pub proof fn lemma_merged_next(log: Seq<Log>, entries: Seq<Log>, i: int)
    requires
        0 <= i < entries.len(),
    ensures
        merged(log, entries.take(i + 1)) == merged_entry(merged(log, entries.take(i)), entries[i]),
{
    assert(entries.take(i + 1).drop_last() =~= entries.take(i));
}

} // verus!
