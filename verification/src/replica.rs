//! The replica: what it does with each event, proved to be what the state machine of `model` does.
use std::collections::{BTreeMap, BTreeSet};

use vstd::prelude::*;

use crate::model::{
    ascending, delivers, delta_sum, lemma_merged_next, merged, one_for_each, ReplicaView,
};
use crate::timing::{
    draw, Wait, LEADER_TIMEOUT, NOT_LEADER_MAX_TIMEOUT, NOT_LEADER_MIN_TIMEOUT,
};
use crate::types::{ControlMessage, Envelope, Event, Log, Message, State};

verus! {

/// One replica of a cluster that agrees on a log of changes, and with it on a value.
pub struct Replica {
    // The value that the replicas keep consistent.
    value: i32,
    // The id of this replica.
    id: usize,
    current_term: usize,
    // Who voted for this replica in the election that it stands in.
    current_votes: Option<Box<BTreeSet<usize>>>,
    state: State,
    // The state before dying.
    prev_state: State,
    // The ids of the peers, in ascending order.
    peers: Vec<usize>,
    // Who the last vote was cast for.
    voted_for: Option<usize>,
    log: Vec<Log>,
    // Position of the last entry known to be committed.
    commit_index: usize,
    // Position of the last entry applied to the value.
    last_applied: usize,
    // For each peer, the position of the next entry to send. Only present on leaders.
    next_index: BTreeMap<usize, usize>,
    // For each peer, the position of the last entry known to be in its log. Only present on
    // leaders.
    match_index: BTreeMap<usize, usize>,
}

impl View for Replica {
    type V = ReplicaView;

    closed spec fn view(&self) -> ReplicaView {
        ReplicaView {
            value: self.value as int,
            id: self.id,
            current_term: self.current_term,
            current_votes: match self.current_votes {
                Some(votes) => Some(votes@),
                None => None,
            },
            state: self.state,
            prev_state: self.prev_state,
            peers: self.peers@,
            voted_for: self.voted_for,
            log: self.log@,
            commit_index: self.commit_index,
            last_applied: self.last_applied,
            next_index: self.next_index@,
            match_index: self.match_index@,
        }
    }
}

/// What a replica does before it waits.
#[derive(Debug, PartialEq, Eq)]
pub struct Turn {
    /// The messages to send.
    pub out: Vec<Envelope>,
    /// Whether the timer for the next heartbeat starts anew.
    pub renew_timer: bool,
    /// What to wait for.
    pub wait: Wait,
}

/// What a replica does when it wakes up.
#[derive(Debug, PartialEq, Eq)]
pub struct Reaction {
    /// The messages to send.
    pub out: Vec<Envelope>,
    /// Whether the changes that were ready could be applied, and were.
    pub applied: bool,
}

impl Replica {
    /// A replica that starts, with the ids of its peers.
    pub fn start(id: usize, peers: Vec<usize>) -> (replica: Replica)
        requires
            ascending(peers@),
        ensures
            replica@.wf(),
            replica@ == ReplicaView::started(id, peers@),
    {
        let mut log: Vec<Log> = Vec::new();
        log.push(Log { delta: 0, term: 0, index: 0 });
        let replica = Replica {
            value: 0,
            id,
            current_term: 0,
            current_votes: None,
            state: State::Follower,
            prev_state: State::Dead,
            peers,
            voted_for: None,
            log,
            commit_index: 0,
            last_applied: 0,
            next_index: BTreeMap::new(),
            match_index: BTreeMap::new(),
        };
        assert(replica@ =~= ReplicaView::started(id, peers@));
        assert(peers@.len() == peers.len());
        replica
    }

    /// The first half of a turn: what the replica sends and what it then waits for. The timeout of
    /// a follower or a candidate is drawn at random.
    pub fn poll(&self, timer_fired: bool) -> (turn: Turn)
        requires
            self@.wf(),
            self@.state == State::Leader && timer_fired ==> self@.can_heartbeat(),
        ensures
            delivers(turn.out@, self@.peers, self@.sent_first(timer_fired)),
            turn.renew_timer <==> self@.state == State::Leader && timer_fired,
            turn.renew_timer ==> one_for_each(turn.out@, self@.peers),
            exists|drawn: u64|
                NOT_LEADER_MIN_TIMEOUT <= drawn <= NOT_LEADER_MAX_TIMEOUT && turn.wait
                    == #[trigger] self@.waits(drawn),
    {
        let drawn: u64 = match self.state {
            State::Follower | State::Candidate => draw(
                NOT_LEADER_MIN_TIMEOUT,
                NOT_LEADER_MAX_TIMEOUT,
            ),
            _ => NOT_LEADER_MIN_TIMEOUT,
        };
        self.poll_drawn(timer_fired, drawn)
    }

    /// The first half of a turn, with `drawn` as the timeout of a follower or a candidate.
    pub fn poll_drawn(&self, timer_fired: bool, drawn: u64) -> (turn: Turn)
        requires
            self@.wf(),
            self@.state == State::Leader && timer_fired ==> self@.can_heartbeat(),
        ensures
            delivers(turn.out@, self@.peers, self@.sent_first(timer_fired)),
            turn.renew_timer <==> self@.state == State::Leader && timer_fired,
            turn.renew_timer ==> one_for_each(turn.out@, self@.peers),
            turn.wait == self@.waits(drawn),
    {
        match self.state {
            State::Leader => {
                let out: Vec<Envelope> = if timer_fired {
                    self.heartbeat()
                } else {
                    Vec::new()
                };
                Turn { out, renew_timer: timer_fired, wait: Wait::Any { timeout: LEADER_TIMEOUT } }
            },
            State::Follower | State::Candidate => Turn {
                out: Vec::new(),
                renew_timer: false,
                wait: Wait::Any { timeout: drawn },
            },
            State::Dead => Turn { out: Vec::new(), renew_timer: false, wait: Wait::Control },
        }
    }

    /// The second half of a turn: takes the event that the replica woke up for, and then commits and
    /// applies what is ready. Where that cannot be applied, the replica stays as the event left it,
    /// and the reaction says so.
    pub fn react(&mut self, event: Event) -> (reaction: Reaction)
        requires
            old(self)@.wf(),
            old(self)@.can_handle(event@),
        ensures
            final(self)@.wf(),
            delivers(reaction.out@, old(self)@.peers, old(self)@.handled(event@).sent),
            event@ is Timeout && reaction.out.len() > 0 ==> one_for_each(
                reaction.out@,
                old(self)@.peers,
            ),
            reaction.applied == old(self)@.handled(event@).replica.can_apply(),
            final(self)@ == if reaction.applied {
                old(self)@.handled(event@).replica.applied()
            } else {
                old(self)@.handled(event@).replica
            },
    {
        let out: Vec<Envelope> = self.handle(event);
        let applied: bool = self.can_apply();
        if applied {
            self.apply_ready_changes();
        }
        Reaction { out, applied }
    }

    /// Takes the event that the replica woke up for, and hands back what it sends.
    pub fn handle(&mut self, event: Event) -> (out: Vec<Envelope>)
        requires
            old(self)@.wf(),
            old(self)@.can_handle(event@),
        ensures
            final(self)@.wf(),
            final(self)@ == old(self)@.handled(event@).replica,
            delivers(out@, old(self)@.peers, old(self)@.handled(event@).sent),
            event@ is Timeout && out.len() > 0 ==> one_for_each(out@, old(self)@.peers),
    {
        match event {
            Event::Timeout => match self.state {
                State::Follower | State::Candidate => self.become_candidate(),
                _ => Vec::new(),
            },
            Event::Protocol(message) => match self.state {
                State::Leader => {
                    self.process_message_as_leader(message);
                    Vec::new()
                },
                State::Follower => self.process_message_as_follower(message),
                State::Candidate => self.process_message_as_candidate(message),
                State::Dead => Vec::new(),
            },
            Event::Control(message) => {
                self.process_control_message(message);
                Vec::new()
            },
        }
    }

    /// Whether `handle` and `react` can take the event.
    pub fn can_handle(&self, event: &Event) -> (can: bool)
        requires
            self@.wf(),
        ensures
            can == self@.can_handle(event@),
    {
        match event {
            Event::Timeout => match self.state {
                State::Follower | State::Candidate => self.current_term < usize::MAX,
                State::Leader => true,
                State::Dead => false,
            },
            Event::Protocol(message) => match self.state {
                State::Leader => self.can_be_told_as_leader(message),
                State::Follower | State::Candidate => self.can_answer(message),
                State::Dead => false,
            },
            Event::Control(_) => true,
        }
    }

    fn can_be_told_as_leader(&self, message: &Message) -> (can: bool)
        ensures
            can == self@.can_be_told_as_leader(message@),
    {
        match message {
            Message::AppendEntryResponse { from_id, term, success, last_index } => {
                if *term > self.current_term {
                    true
                } else if *success {
                    *last_index < usize::MAX
                } else {
                    match self.next_index.get(from_id) {
                        Some(next) => *next > 0,
                        None => false,
                    }
                }
            },
            _ => true,
        }
    }

    fn can_answer(&self, message: &Message) -> (can: bool)
        requires
            self@.wf(),
        ensures
            can == self@.can_answer(message@),
    {
        match message {
            Message::AppendEntryRequest { from_id, .. } => self.find_peer(*from_id).is_some(),
            Message::RequestVoteRequest { from_id, .. } => self.find_peer(*from_id).is_some(),
            _ => true,
        }
    }

    /// Whether `heartbeat` can put its requests together.
    pub fn can_heartbeat(&self) -> (can: bool)
        ensures
            can == self@.can_heartbeat(),
    {
        let mut i: usize = 0;
        while i < self.peers.len()
            invariant
                i <= self.peers.len(),
                forall|j: int|
                    0 <= j < i ==> {
                        &&& self@.next_index.contains_key(#[trigger] self@.peers[j])
                        &&& 1 <= self@.next_index[self@.peers[j]] <= self@.log.len()
                    },
            decreases self.peers.len() - i,
        {
            let ready: bool = match self.next_index.get(&self.peers[i]) {
                Some(next) => 1 <= *next && *next <= self.log.len(),
                None => false,
            };
            if !ready {
                assert(self@.peers[i as int] == self.peers[i as int]);
                return false;
            }
            i = i + 1;
        }
        true
    }

    /// Whether `apply_ready_changes` can apply what is ready.
    pub fn can_apply(&self) -> (can: bool)
        requires
            self@.wf(),
        ensures
            can == self@.can_apply(),
    {
        let c: usize = self.ready_commit();
        if c <= self.last_applied {
            return true;
        }
        if c >= self.log.len() {
            return false;
        }
        let mut value: i32 = self.value;
        let mut k: usize = self.last_applied;
        while k < c
            invariant
                c < self.log.len(),
                self.last_applied <= k <= c,
                c == self@.ready_commit(),
                value == self@.value + delta_sum(
                    self@.log,
                    self@.last_applied as int,
                    k as int,
                ),
                forall|j: int|
                    self@.last_applied < j <= k ==> i32::MIN <= self@.value + #[trigger] delta_sum(
                        self@.log,
                        self@.last_applied as int,
                        j,
                    ) <= i32::MAX,
            decreases c - k,
        {
            let ghost sum = delta_sum(self@.log, self@.last_applied as int, k + 1);
            match value.checked_add(self.log[k + 1].delta) {
                Some(next) => {
                    value = next;
                },
                None => {
                    return false;
                },
            }
            k = k + 1;
        }
        true
    }

    /// Position of a peer with this id, if there is one.
    fn find_peer(&self, peer_id: usize) -> (found: Option<usize>)
        requires
            self@.wf(),
        ensures
            match found {
                Some(position) => position < self@.peers.len() && self@.peers[position as int]
                    == peer_id,
                None => !self@.peers.contains(peer_id),
            },
    {
        let mut low: usize = 0;
        let mut high: usize = self.peers.len();
        while low < high
            invariant
                ascending(self.peers@),
                low <= high <= self.peers.len(),
                forall|i: int| 0 <= i < low ==> self.peers[i] < peer_id,
                forall|i: int| high <= i < self.peers.len() ==> self.peers[i] > peer_id,
            decreases high - low,
        {
            let middle: usize = low + (high - low) / 2;
            let id: usize = self.peers[middle];
            if id == peer_id {
                return Some(middle);
            } else if id < peer_id {
                low = middle + 1;
            } else {
                high = middle;
            }
        }
        None
    }

    /// Position of a peer with this id.
    pub fn get_peer_by_id(&self, peer_id: usize) -> (position: usize)
        requires
            self@.wf(),
            self@.peers.contains(peer_id),
        ensures
            position < self@.peers.len(),
            self@.peers[position as int] == peer_id,
    {
        self.find_peer(peer_id).unwrap()
    }

    /// Addresses a message to the peer with this id.
    pub fn send_message(&self, peer_id: usize, message: Message) -> (envelope: Envelope)
        requires
            self@.wf(),
            self@.peers.contains(peer_id),
        ensures
            envelope.peer < self@.peers.len(),
            self@.peers[envelope.peer as int] == peer_id,
            envelope.message == message,
    {
        let peer: usize = self.get_peer_by_id(peer_id);
        Envelope { peer, message }
    }

    /// Addresses a message to each peer, made for it by `message_generator`.
    pub fn broadcast_message<F: Fn(usize) -> Message>(&self, message_generator: F) -> (out: Vec<
        Envelope,
    >)
        requires
            forall|i: int|
                0 <= i < self@.peers.len() ==> message_generator.requires(
                    (#[trigger] self@.peers[i],),
                ),
        ensures
            one_for_each(out@, self@.peers),
            forall|i: int|
                0 <= i < out.len() ==> message_generator.ensures(
                    (self@.peers[i],),
                    (#[trigger] out[i]).message,
                ),
    {
        let mut out: Vec<Envelope> = Vec::new();
        let mut peer: usize = 0;
        while peer < self.peers.len()
            invariant
                out.len() == peer <= self.peers.len(),
                forall|i: int|
                    0 <= i < self@.peers.len() ==> message_generator.requires(
                        (#[trigger] self@.peers[i],),
                    ),
                forall|i: int|
                    0 <= i < out.len() ==> (#[trigger] out[i]).peer == i
                        && message_generator.ensures((self@.peers[i],), out[i].message),
            decreases self.peers.len() - peer,
        {
            assert(self@.peers[peer as int] == self.peers[peer as int]);
            let message = message_generator(self.peers[peer]);
            out.push(Envelope { peer, message });
            peer = peer + 1;
        }
        out
    }

    /// The entries that the peer with this id is to get next.
    pub fn get_entries_for_peer(&self, peer_id: usize) -> (entries: Vec<Log>)
        requires
            self@.next_index.contains_key(peer_id),
            self@.next_index[peer_id] <= self@.log.len(),
        ensures
            entries@ == self@.log.subrange(
                self@.next_index[peer_id] as int,
                self@.log.len() as int,
            ),
    {
        let next: usize = *self.next_index.get(&peer_id).unwrap();
        vstd::slice::slice_to_vec(
            vstd::slice::slice_subrange(self.log.as_slice(), next, self.log.len()),
        )
    }

    /// The append requests of a leader whose timer has fired, one for each peer.
    pub fn heartbeat(&self) -> (out: Vec<Envelope>)
        requires
            self@.wf(),
            self@.can_heartbeat(),
        ensures
            one_for_each(out@, self@.peers),
            delivers(out@, self@.peers, self@.heartbeat()),
    {
        let request = |peer_id: usize| -> (message: Message)
            requires
                self@.next_index.contains_key(peer_id),
                1 <= self@.next_index[peer_id] <= self@.log.len(),
            ensures
                message@ == self@.append_request(peer_id),
            {
                let next: usize = *self.next_index.get(&peer_id).unwrap();
                let entries = self.get_entries_for_peer(peer_id);
                Message::AppendEntryRequest {
                    term: self.current_term,
                    from_id: self.id,
                    prev_log_index: next - 1,
                    prev_log_term: self.log[next - 1].term,
                    entries,
                    commit_index: self.commit_index,
                }
            };
        self.broadcast_message(request)
    }

    /// Appends a change to the log.
    pub fn append(&mut self, delta: i32)
        requires
            old(self)@.wf(),
        ensures
            final(self)@.wf(),
            final(self)@ == old(self)@.appended(delta),
    {
        let index: usize = self.log.len();
        self.log.push(Log { index, delta, term: self.current_term });
        assert(self@.log.len() == self.log.len());
        assert(self@ =~= old(self)@.appended(delta));
    }

    /// Obeys a control message. Only a leader takes changes.
    pub fn process_control_message(&mut self, message: ControlMessage)
        requires
            old(self)@.wf(),
        ensures
            final(self)@.wf(),
            final(self)@ == old(self)@.controlled(message),
    {
        match message {
            ControlMessage::Up => self.become_alive(),
            ControlMessage::Down => self.become_dead(),
            ControlMessage::Apply(delta) => match self.state {
                State::Leader => self.append(delta),
                _ => {},
            },
        }
    }

    /// Answers an append request.
    pub fn process_append_entry_request_as_follower(
        &mut self,
        from_id: usize,
        term: usize,
        prev_log_index: usize,
        prev_log_term: usize,
        entries: Vec<Log>,
        commit_index: usize,
    ) -> (out: Vec<Envelope>)
        requires
            old(self)@.wf(),
            old(self)@.peers.contains(from_id),
        ensures
            final(self)@.wf(),
            ({
                let step = old(self)@.append_requested(
                    from_id,
                    term,
                    prev_log_index,
                    prev_log_term,
                    entries@,
                    commit_index,
                );
                final(self)@ == step.replica && delivers(out@, old(self)@.peers, step.sent)
            }),
    {
        let mut out: Vec<Envelope> = Vec::new();
        let accepted: bool = self.current_term <= term && prev_log_index < self.log.len()
            && self.log[prev_log_index].term == prev_log_term;
        if accepted {
            let mut i: usize = 0;
            while i < entries.len()
                invariant
                    old(self)@.wf(),
                    self@.wf(),
                    i <= entries.len(),
                    self@ == (ReplicaView {
                        log: merged(old(self)@.log, entries@.take(i as int)),
                        ..old(self)@
                    }),
                decreases entries.len() - i,
            {
                let entry: Log = entries[i];
                proof {
                    lemma_merged_next(old(self)@.log, entries@, i as int);
                }
                if entry.index < self.log.len() && entry.term != self.log[entry.index].term {
                    self.log.truncate(entry.index);
                }
                if entry.index == self.log.len() {
                    self.log.push(entry);
                }
                assert(self@.log.len() == self.log.len());
                i = i + 1;
            }
            assert(entries@.take(i as int) =~= entries@);
            if commit_index > self.commit_index {
                let last: usize = self.log[self.log.len() - 1].index;
                self.commit_index = if commit_index < last {
                    commit_index
                } else {
                    last
                };
            }
        }
        out.push(
            self.send_message(
                from_id,
                Message::AppendEntryResponse {
                    from_id: self.id,
                    term: self.current_term,
                    success: accepted,
                    last_index: self.log.len() - 1,
                },
            ),
        );
        out
    }

    /// Answers a vote request, and records the vote if it is granted.
    pub fn process_request_vote_request_as_follower(
        &mut self,
        from_id: usize,
        term: usize,
        last_log_index: usize,
        last_log_term: usize,
    ) -> (out: Vec<Envelope>)
        requires
            old(self)@.wf(),
            old(self)@.state != State::Dead,
            old(self)@.peers.contains(from_id),
        ensures
            final(self)@.wf(),
            ({
                let step = old(self)@.vote_requested(from_id, term, last_log_index, last_log_term);
                final(self)@ == step.replica && delivers(out@, old(self)@.peers, step.sent)
            }),
    {
        let mut out: Vec<Envelope> = Vec::new();
        if self.current_term > term {
            out.push(self.answer_vote_request(from_id, false));
        } else if self.current_term < term {
            self.become_follower(term);
        }
        let free: bool = match self.voted_for {
            None => true,
            Some(id) => id == from_id,
        };
        let last: Log = self.log[self.log.len() - 1];
        let vote_granted: bool = free && last.index <= last_log_index && last.term <= last_log_term;
        if vote_granted {
            self.voted_for = Some(from_id);
        }
        out.push(self.answer_vote_request(from_id, vote_granted));
        out
    }

    /// Addresses the answer to a vote request.
    fn answer_vote_request(&self, to: usize, vote_granted: bool) -> (envelope: Envelope)
        requires
            self@.wf(),
            self@.peers.contains(to),
        ensures
            envelope.peer < self@.peers.len(),
            self@.peers[envelope.peer as int] == to,
            envelope.message@ == self@.vote_answer(vote_granted),
    {
        self.send_message(
            to,
            Message::RequestVoteResponse {
                from_id: self.id,
                term: self.current_term,
                vote_granted,
            },
        )
    }

    /// Takes a message as a leader does: it notes how far the logs of its peers go, and ignores all
    /// messages but the answers to its append requests.
    pub fn process_message_as_leader(&mut self, message: Message)
        requires
            old(self)@.wf(),
            old(self)@.state != State::Dead,
            old(self)@.can_be_told_as_leader(message@),
        ensures
            final(self)@.wf(),
            final(self)@ == old(self)@.told_as_leader(message@),
    {
        match message {
            Message::AppendEntryResponse { from_id, success, term, last_index } => {
                if term > self.current_term {
                    self.become_follower(term);
                } else if success {
                    self.next_index.insert(from_id, last_index + 1);
                    self.match_index.insert(from_id, last_index);
                } else {
                    let next: usize = *self.next_index.get(&from_id).unwrap();
                    self.next_index.insert(from_id, next - 1);
                }
            },
            _ => {},
        }
    }

    /// Takes a message as a follower does: it answers requests and ignores answers.
    pub fn process_message_as_follower(&mut self, message: Message) -> (out: Vec<Envelope>)
        requires
            old(self)@.wf(),
            old(self)@.state != State::Dead,
            old(self)@.can_answer(message@),
        ensures
            final(self)@.wf(),
            final(self)@ == old(self)@.told_as_follower(message@).replica,
            delivers(out@, old(self)@.peers, old(self)@.told_as_follower(message@).sent),
    {
        match message {
            Message::RequestVoteRequest { from_id, term, last_log_index, last_log_term } => {
                self.process_request_vote_request_as_follower(
                    from_id,
                    term,
                    last_log_index,
                    last_log_term,
                )
            },
            Message::AppendEntryRequest {
                term,
                from_id,
                prev_log_index,
                prev_log_term,
                entries,
                commit_index,
            } => {
                self.process_append_entry_request_as_follower(
                    from_id,
                    term,
                    prev_log_index,
                    prev_log_term,
                    entries,
                    commit_index,
                )
            },
            Message::AppendEntryResponse { .. } => Vec::new(),
            Message::RequestVoteResponse { .. } => Vec::new(),
        }
    }

    /// Takes a message as a candidate does: it counts votes, and gives way to a leader of its term
    /// and to whoever is in a later one.
    pub fn process_message_as_candidate(&mut self, message: Message) -> (out: Vec<Envelope>)
        requires
            old(self)@.wf(),
            old(self)@.state != State::Dead,
            old(self)@.can_answer(message@),
        ensures
            final(self)@.wf(),
            final(self)@ == old(self)@.told_as_candidate(message@).replica,
            delivers(out@, old(self)@.peers, old(self)@.told_as_candidate(message@).sent),
    {
        let mut out: Vec<Envelope> = Vec::new();
        match message {
            Message::AppendEntryRequest { term, from_id, .. } => {
                if term >= self.current_term {
                    self.become_follower(term);
                    return self.process_message_as_follower(message);
                }
                out.push(
                    self.send_message(
                        from_id,
                        Message::AppendEntryResponse {
                            from_id: self.id,
                            term: self.current_term,
                            success: false,
                            last_index: self.log.len() - 1,
                        },
                    ),
                );
            },
            Message::RequestVoteRequest { term, from_id, .. } => {
                if term > self.current_term {
                    self.become_follower(term);
                    return self.process_message_as_follower(message);
                }
                out.push(self.answer_vote_request(from_id, false));
            },
            Message::RequestVoteResponse { from_id, term, vote_granted } => {
                if term > self.current_term {
                    self.become_follower(term);
                } else if vote_granted {
                    let mut elected: bool = false;
                    if let Some(votes) = &mut self.current_votes {
                        votes.insert(from_id);
                        elected = (votes.len() as u128) * 2 > self.peers.len() as u128 + 1;
                    }
                    if elected {
                        self.become_leader();
                    }
                }
            },
            Message::AppendEntryResponse { .. } => {},
        }
        out
    }

    /// Comes back to the state before dying, or restarts as a follower in term 0.
    pub fn become_alive(&mut self)
        requires
            old(self)@.wf(),
        ensures
            final(self)@.wf(),
            final(self)@ == old(self)@.became_alive(),
    {
        if self.prev_state == State::Dead {
            self.become_follower(0);
        } else {
            self.state = self.prev_state;
        }
        self.prev_state = State::Dead;
    }

    /// Dies, and remembers the state that it had.
    pub fn become_dead(&mut self)
        requires
            old(self)@.wf(),
        ensures
            final(self)@.wf(),
            final(self)@ == old(self)@.became_dead(),
    {
        self.prev_state = self.state;
        self.state = State::Dead;
    }

    /// Leads: each peer is to get what follows the log.
    pub fn become_leader(&mut self)
        requires
            old(self)@.wf(),
            old(self)@.state != State::Dead,
        ensures
            final(self)@.wf(),
            final(self)@ == old(self)@.became_leader(),
    {
        self.state = State::Leader;
        self.current_votes = None;
        self.voted_for = None;
        self.next_index = BTreeMap::new();
        self.match_index = BTreeMap::new();
        let end: usize = self.log.len();
        let mut i: usize = 0;
        while i < self.peers.len()
            invariant
                i <= self.peers.len(),
                end == self.log.len(),
                self@ == (ReplicaView {
                    next_index: self.next_index@,
                    match_index: self.match_index@,
                    ..old(self)@.became_leader()
                }),
                forall|id: usize| #[trigger]
                    self.next_index@.contains_key(id) <==> self.peers@.take(i as int).contains(id),
                forall|id: usize| #[trigger]
                    self.next_index@.contains_key(id) ==> self.next_index@[id] == end,
                forall|id: usize| #[trigger]
                    self.match_index@.contains_key(id) <==> self.peers@.take(i as int).contains(id),
                forall|id: usize| #[trigger]
                    self.match_index@.contains_key(id) ==> self.match_index@[id] == 0,
            decreases self.peers.len() - i,
        {
            let id: usize = self.peers[i];
            assert(self.peers@.take(i + 1) =~= self.peers@.take(i as int).push(id));
            proof {
                broadcast use vstd::seq_lib::group_seq_properties;
            }
            self.next_index.insert(id, end);
            self.match_index.insert(id, 0);
            i = i + 1;
        }
        assert(self.peers@.take(i as int) =~= self.peers@);
        assert(self@ =~= old(self)@.became_leader());
    }

    /// Follows in the given term, with no vote on record and without the indices of a leader.
    pub fn become_follower(&mut self, term: usize)
        requires
            old(self)@.wf(),
            old(self)@.prev_state == State::Dead,
        ensures
            final(self)@.wf(),
            final(self)@ == old(self)@.became_follower(term),
    {
        self.current_term = term;
        self.state = State::Follower;
        self.current_votes = None;
        self.voted_for = None;
        self.next_index = BTreeMap::new();
        self.match_index = BTreeMap::new();
    }

    /// Starts an election: the vote requests go to all peers.
    pub fn become_candidate(&mut self) -> (out: Vec<Envelope>)
        requires
            old(self)@.wf(),
            old(self)@.state != State::Dead,
            old(self)@.current_term < usize::MAX,
        ensures
            final(self)@.wf(),
            final(self)@ == old(self)@.became_candidate(),
            one_for_each(out@, final(self)@.peers),
            delivers(out@, final(self)@.peers, final(self)@.canvass()),
    {
        self.current_term = self.current_term + 1;
        self.state = State::Candidate;
        let mut votes: BTreeSet<usize> = BTreeSet::new();
        votes.insert(self.id);
        self.current_votes = Some(Box::new(votes));
        self.voted_for = Some(self.id);
        let this: &Replica = &*self;
        let request = |_peer_id: usize| -> (message: Message)
            requires
                this@.log.len() > 0,
            ensures
                message@ == this@.vote_request(),
            {
                let last: usize = this.log.len() - 1;
                Message::RequestVoteRequest {
                    from_id: this.id,
                    term: this.current_term,
                    last_log_index: last,
                    last_log_term: this.log[last].term,
                }
            };
        this.broadcast_message(request)
    }

    /// The latest position that can be committed, or the commit index if there is none.
    fn ready_commit(&self) -> (c: usize)
        requires
            self@.wf(),
        ensures
            self@.is_ready_commit(c),
            c == self@.ready_commit(),
    {
        let mut c: usize = self.commit_index;
        if self.state == State::Leader && self.commit_index < self.log.len() - 1 {
            let mut n: usize = self.log.len() - 1;
            while n > c
                invariant
                    self@.wf(),
                    self.state == State::Leader,
                    self.commit_index <= c,
                    c == self.commit_index || c == n + 1,
                    n < self.log.len(),
                    c == self.commit_index || self@.can_commit(c as int),
                    forall|k: int|
                        k > n && (c == self.commit_index || k > c) ==> !#[trigger] self@.can_commit(k),
                    self.commit_index <= n,
                decreases n,
            {
                let holders: usize = self.count_holders(n);
                if (holders as u128) * 2 >= self.peers.len() as u128 && self.log[n].term
                    == self.current_term {
                    c = n;
                }
                n = n - 1;
            }
        }
        proof {
            self@.lemma_ready_commit_is(c);
        }
        c
    }

    /// Moves the commit index to the latest entry that a majority of the replicas holds, and
    /// applies the changes that are behind it.
    pub fn apply_ready_changes(&mut self)
        requires
            old(self)@.wf(),
            old(self)@.can_apply(),
        ensures
            final(self)@.wf(),
            old(self)@.is_ready_commit(final(self)@.commit_index),
            final(self)@ == old(self)@.applied(),
    {
        let c: usize = self.ready_commit();
        self.commit_index = c;
        while self.commit_index > self.last_applied
            invariant
                old(self)@.wf(),
                old(self)@.can_apply_to(c),
                old(self)@.last_applied <= self.last_applied,
                self.last_applied <= c || self.last_applied == old(self)@.last_applied,
                self@ == (ReplicaView {
                    commit_index: c,
                    last_applied: self.last_applied,
                    value: old(self)@.value + delta_sum(
                        old(self)@.log,
                        old(self)@.last_applied as int,
                        self.last_applied as int,
                    ),
                    ..old(self)@
                }),
            decreases self.commit_index - self.last_applied,
        {
            let ghost sum = delta_sum(
                old(self)@.log,
                old(self)@.last_applied as int,
                self.last_applied + 1,
            );
            self.last_applied = self.last_applied + 1;
            self.value = self.value + self.log[self.last_applied].delta;
        }
        assert(self@ =~= old(self)@.applied_to(c));
    }

    /// How many peers are known to hold the entry at position `n`.
    fn count_holders(&self, n: usize) -> (count: usize)
        ensures
            count == self@.holders(n as int).len(),
    {
        let total: usize = self.match_index.len();
        let mut count: usize = 0;
        let ghost mut seen: Set<usize> = Set::empty();
        let entries = self.match_index.iter();
        let ghost pairs = vstd::std_specs::iter::IteratorSpec::remaining(&entries);
        for kv in it: entries
            invariant
                it.seq() == pairs,
                pairs.no_duplicates(),
                pairs.len() == total,
                forall|i: int|
                    0 <= i < pairs.len() ==> self.match_index@.contains_key(
                        *(#[trigger] pairs[i]).0,
                    ) && self.match_index@[*pairs[i].0] == *pairs[i].1,
                seen.finite(),
                count == seen.len(),
                count <= it.index() <= pairs.len(),
                forall|id: usize| #[trigger]
                    seen.contains(id) <==> exists|i: int|
                        0 <= i < it.index() && *(#[trigger] pairs[i]).0 == id && *pairs[i].1 >= n,
        {
            proof {
                assert(kv == pairs[it.index() as int]);
            }
            if *kv.1 >= n {
                proof {
                    seen = seen.insert(*kv.0);
                }
                count = count + 1;
            }
        }
        assert(seen =~= self@.holders(n as int));
        count
    }

    /// The value that the replicas keep consistent.
    pub fn value(&self) -> (value: i32)
        ensures
            value == self@.value,
    {
        self.value
    }

    /// The id of this replica.
    pub fn id(&self) -> (id: usize)
        ensures
            id == self@.id,
    {
        self.id
    }

    /// The current term.
    pub fn current_term(&self) -> (current_term: usize)
        ensures
            current_term == self@.current_term,
    {
        self.current_term
    }

    /// The role that the replica plays.
    pub fn state(&self) -> (state: State)
        ensures
            state == self@.state,
    {
        self.state
    }

    /// Who the last vote was cast for.
    pub fn voted_for(&self) -> (voted_for: Option<usize>)
        ensures
            voted_for == self@.voted_for,
    {
        self.voted_for
    }

    /// The log.
    pub fn log(&self) -> (log: &Vec<Log>)
        ensures
            log@ == self@.log,
    {
        &self.log
    }

    /// Position of the last entry known to be committed.
    pub fn commit_index(&self) -> (commit_index: usize)
        ensures
            commit_index == self@.commit_index,
    {
        self.commit_index
    }

    /// Position of the last entry applied to the value.
    pub fn last_applied(&self) -> (last_applied: usize)
        ensures
            last_applied == self@.last_applied,
    {
        self.last_applied
    }

    /// For each peer, the position of the next entry to send. Only present on leaders.
    pub fn next_index(&self) -> (next_index: &BTreeMap<usize, usize>)
        ensures
            next_index@ == self@.next_index,
    {
        &self.next_index
    }

    /// For each peer, the position of the last entry known to be in its log. Only present on
    /// leaders.
    pub fn match_index(&self) -> (match_index: &BTreeMap<usize, usize>)
        ensures
            match_index@ == self@.match_index,
    {
        &self.match_index
    }
}

} // verus!
