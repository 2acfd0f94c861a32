//! What each operation does, told by what goes in and what comes out: which fields change and how,
//! which stay, and what every message says.
use vstd::prelude::*;

use crate::model::{ReplicaView, Sent};
use crate::timing::{Wait, LEADER_TIMEOUT, NOT_LEADER_MAX_TIMEOUT, NOT_LEADER_MIN_TIMEOUT};
use crate::types::{ControlMessage, Envelope, Event, EventView, Log, Message, MessageView, State};

verus! {

// ----------------------------------------------------------------------------------------------
// What stays

/// The id and the peers are the same.
pub open spec fn same_cluster(a: ReplicaView, b: ReplicaView) -> bool {
    a.id == b.id && a.peers == b.peers
}

/// The log, what is committed and applied of it, and the value are the same.
pub open spec fn same_data(a: ReplicaView, b: ReplicaView) -> bool {
    &&& a.log == b.log
    &&& a.commit_index == b.commit_index
    &&& a.last_applied == b.last_applied
    &&& a.value == b.value
}

/// The term, the role and the votes are the same.
pub open spec fn same_role(a: ReplicaView, b: ReplicaView) -> bool {
    &&& a.current_term == b.current_term
    &&& a.state == b.state
    &&& a.prev_state == b.prev_state
    &&& a.current_votes == b.current_votes
    &&& a.voted_for == b.voted_for
}

/// What is known of the peers is the same.
pub open spec fn same_indices(a: ReplicaView, b: ReplicaView) -> bool {
    a.next_index == b.next_index && a.match_index == b.match_index
}

/// Nothing is known of any peer.
pub open spec fn no_indices(r: ReplicaView) -> bool {
    forall|id: usize|
        !(#[trigger] r.next_index.contains_key(id)) && !(#[trigger] r.match_index.contains_key(id))
}

// ----------------------------------------------------------------------------------------------
// Values and their views

/// A view of a message keeps every field of it.
pub proof fn messages_are_seen_whole(message: Message)
    ensures
        match (message, message@) {
            (
                Message::AppendEntryRequest {
                    term,
                    from_id,
                    prev_log_index,
                    prev_log_term,
                    entries,
                    commit_index,
                },
                MessageView::AppendEntryRequest {
                    term: t,
                    from_id: f,
                    prev_log_index: pi,
                    prev_log_term: pt,
                    entries: e,
                    commit_index: c,
                },
            ) => t == term && f == from_id && pi == prev_log_index && pt == prev_log_term && e
                == entries@ && c == commit_index,
            (
                Message::AppendEntryResponse { from_id, term, success, last_index },
                MessageView::AppendEntryResponse {
                    from_id: f,
                    term: t,
                    success: s,
                    last_index: l,
                },
            ) => f == from_id && t == term && s == success && l == last_index,
            (
                Message::RequestVoteRequest { from_id, term, last_log_index, last_log_term },
                MessageView::RequestVoteRequest {
                    from_id: f,
                    term: t,
                    last_log_index: li,
                    last_log_term: lt,
                },
            ) => f == from_id && t == term && li == last_log_index && lt == last_log_term,
            (
                Message::RequestVoteResponse { from_id, term, vote_granted },
                MessageView::RequestVoteResponse { from_id: f, term: t, vote_granted: g },
            ) => f == from_id && t == term && g == vote_granted,
            _ => false,
        },
{
}

/// A view of an event is of the same kind and keeps its message.
pub proof fn events_are_seen_whole(event: Event)
    ensures
        match (event, event@) {
            (Event::Timeout, EventView::Timeout) => true,
            (Event::Protocol(message), EventView::Protocol(seen)) => seen == message@,
            (Event::Control(message), EventView::Control(seen)) => seen == message,
            _ => false,
        },
{
}

/// Delivering puts each message, in order, into one envelope for a peer with the right id; and one
/// envelope for each peer means that they come in the order of the peers.
pub proof fn envelopes_carry_what_is_sent(
    out: Seq<Envelope>,
    peers: Seq<usize>,
    sent: Seq<Sent>,
    i: int,
)
    requires
        0 <= i < out.len(),
    ensures
        crate::model::delivers(out, peers, sent) ==> {
            &&& out.len() == sent.len()
            &&& out[i].peer < peers.len()
            &&& peers[out[i].peer as int] == sent[i].to
            &&& out[i].message@ == sent[i].message
        },
        crate::model::one_for_each(out, peers) ==> out.len() == peers.len() && out[i].peer == i,
{
}

/// Nothing to send is delivered by nothing, and something is not.
pub proof fn nothing_sent_is_nothing_delivered(
    out: Seq<Envelope>,
    peers: Seq<usize>,
    sent: Seq<Sent>,
)
    requires
        crate::model::delivers(out, peers, sent),
    ensures
        out.len() == 0 <==> sent.len() == 0,
{
}

/// Ids ascend exactly if none is less than the one before it.
pub proof fn ascending_ids(ids: Seq<usize>)
    ensures
        crate::model::ascending(ids) <==> forall|i: int, j: int|
            0 <= i < j < ids.len() ==> ids[i] <= ids[j],
{
}

// ----------------------------------------------------------------------------------------------
// Starting and validity

/// A replica that starts follows in term 0, has seen nothing, knows nothing of its peers, and has
/// one entry in its log, which changes nothing.
pub proof fn starting(id: usize, peers: Seq<usize>)
    ensures
        ({
            let r = ReplicaView::started(id, peers);
            &&& r.id == id && r.peers == peers
            &&& r.state == State::Follower && r.prev_state == State::Dead
            &&& r.current_term == 0 && r.voted_for is None && r.current_votes is None
            &&& r.value == 0 && r.commit_index == 0 && r.last_applied == 0
            &&& r.log.len() == 1
            &&& r.log[0].delta == 0 && r.log[0].term == 0 && r.log[0].index == 0
            &&& no_indices(r)
            &&& crate::model::ascending(peers) && peers.len() <= usize::MAX ==> r.wf()
        }),
{
}

/// Nothing more is asked of a replica than: ordered peers; a log that is not empty and whose entries
/// know their positions; no earlier state on record while it lives; its own vote among those of a
/// candidate; and, on a leader, indices of all peers.
pub proof fn validity(r: ReplicaView)
    requires
        forall|i: int, j: int| 0 <= i < j < r.peers.len() ==> r.peers[i] <= r.peers[j],
        r.peers.len() <= usize::MAX,
        1 <= r.log.len() <= usize::MAX,
        forall|i: int| 0 <= i < r.log.len() ==> (#[trigger] r.log[i]).index == i,
        r.state != State::Dead ==> r.prev_state == State::Dead,
    ensures
        r.state == State::Dead && r.prev_state == State::Dead ==> r.wf(),
        (r.state == State::Follower || r.state == State::Dead && r.prev_state == State::Follower)
            && r.current_votes is None ==> r.wf(),
        (r.state == State::Candidate || r.state == State::Dead && r.prev_state == State::Candidate)
            && (r.current_votes matches Some(votes) && votes.finite() && votes.contains(r.id))
            && r.voted_for == Some(r.id) ==> r.wf(),
        (r.state == State::Leader || r.state == State::Dead && r.prev_state == State::Leader)
            && r.current_votes is None && (forall|id: usize| #[trigger]
            r.peers.contains(id) ==> r.next_index.contains_key(id) && r.match_index.contains_key(id))
            ==> r.wf(),
{
}

// ----------------------------------------------------------------------------------------------
// What a replica can take

/// Control messages can always be taken. A timeout can be taken by whoever lives, and by followers
/// and candidates only if a later term is left. Requests can be taken by followers and candidates
/// if they come from a peer, and by leaders always; answers by followers and candidates always. A
/// leader can take an answer of a later term, a success whose position has a successor, and a
/// refusal of a peer whose next index can be lowered. That is all.
pub proof fn what_can_be_taken(r: ReplicaView, event: EventView)
    ensures
        event is Control ==> r.can_handle(event),
        r.state == State::Dead && !(event is Control) ==> !r.can_handle(event),
        event is Timeout && r.state == State::Leader ==> r.can_handle(event),
        event is Timeout && (r.state == State::Follower || r.state == State::Candidate) ==> (
        r.can_handle(event) <==> r.current_term < usize::MAX),
        event matches EventView::Protocol(message) ==> match message {
            MessageView::AppendEntryRequest { from_id, .. } => {
                &&& r.state == State::Leader ==> r.can_handle(event)
                &&& r.state == State::Follower || r.state == State::Candidate ==> (r.can_handle(
                    event,
                ) <==> exists|i: int| 0 <= i < r.peers.len() && r.peers[i] == from_id)
            },
            MessageView::RequestVoteRequest { from_id, .. } => {
                &&& r.state == State::Leader ==> r.can_handle(event)
                &&& r.state == State::Follower || r.state == State::Candidate ==> (r.can_handle(
                    event,
                ) <==> exists|i: int| 0 <= i < r.peers.len() && r.peers[i] == from_id)
            },
            MessageView::RequestVoteResponse { .. } => r.state != State::Dead ==> r.can_handle(
                event,
            ),
            MessageView::AppendEntryResponse { from_id, term, success, last_index } => {
                &&& r.state == State::Follower || r.state == State::Candidate ==> r.can_handle(
                    event,
                )
                &&& r.state == State::Leader ==> (r.can_handle(event) <==> (term > r.current_term
                    || (success && last_index < usize::MAX) || (!success
                    && r.next_index.contains_key(from_id) && r.next_index[from_id] >= 1)))
            },
        },
{
}

/// As a leader, a replica can be told anything but an answer of no later term that is a success at
/// the last position that there is, or the refusal of one whose next index cannot be lowered.
pub proof fn what_a_leader_can_be_told(r: ReplicaView, message: MessageView)
    ensures
        !r.can_be_told_as_leader(message) <==> {
            &&& message matches MessageView::AppendEntryResponse {
                from_id,
                term,
                success,
                last_index,
            }
            &&& term <= r.current_term
            &&& success ==> last_index == usize::MAX
            &&& !success ==> !r.next_index.contains_key(from_id) || r.next_index[from_id] == 0
        },
{
}

/// A replica can answer anything but a request that comes from no peer.
pub proof fn what_can_be_answered(r: ReplicaView, message: MessageView)
    ensures
        match message {
            MessageView::AppendEntryRequest { from_id, .. } => r.can_answer(message)
                <==> r.peers.contains(from_id),
            MessageView::RequestVoteRequest { from_id, .. } => r.can_answer(message)
                <==> r.peers.contains(from_id),
            MessageView::AppendEntryResponse { .. } => r.can_answer(message),
            MessageView::RequestVoteResponse { .. } => r.can_answer(message),
        },
{
}

/// A heartbeat can be sent exactly if the next index of each peer is known, is not the first
/// position, and is at most one past the end of the log.
pub proof fn when_a_heartbeat_can_be_sent(r: ReplicaView)
    ensures
        r.can_heartbeat() <==> forall|i: int|
            0 <= i < r.peers.len() ==> {
                let id = #[trigger] r.peers[i];
                r.next_index.contains_key(id) && r.next_index[id] != 0 && r.next_index[id]
                    <= r.log.len()
            },
{
}

// ----------------------------------------------------------------------------------------------
// Changes of role

/// Whoever follows does so in the given term, with no vote given or got and nothing known of the
/// peers; the data stay.
pub proof fn following(r: ReplicaView, term: usize)
    ensures
        ({
            let after = r.became_follower(term);
            &&& after.state == State::Follower && after.current_term == term
            &&& after.prev_state == r.prev_state
            &&& after.voted_for is None && after.current_votes is None
            &&& no_indices(after)
            &&& same_cluster(after, r) && same_data(after, r)
        }),
{
}

/// Whoever stands for election does so in the next term and has voted for itself; it has no other
/// vote yet.
pub proof fn standing_for_election(r: ReplicaView)
    requires
        r.current_term < usize::MAX,
    ensures
        ({
            let after = r.became_candidate();
            &&& after.state == State::Candidate && after.current_term - r.current_term == 1
            &&& after.prev_state == r.prev_state
            &&& after.voted_for == Some(r.id)
            &&& after.current_votes matches Some(votes) && forall|id: usize| #[trigger]
                votes.contains(id) <==> id == r.id
            &&& same_cluster(after, r) && same_data(after, r) && same_indices(after, r)
        }),
{
}

/// Whoever leads knows of exactly its peers: that they need what follows its log, and that they are
/// not known to hold anything beyond the first entry.
pub proof fn leading(r: ReplicaView)
    requires
        r.log.len() <= usize::MAX,
    ensures
        ({
            let after = r.became_leader();
            &&& after.state == State::Leader && after.current_term == r.current_term
            &&& after.prev_state == r.prev_state
            &&& after.voted_for is None && after.current_votes is None
            &&& forall|id: usize| #[trigger]
                after.next_index.contains_key(id) <==> r.peers.contains(id)
            &&& forall|id: usize| #[trigger]
                after.match_index.contains_key(id) <==> r.peers.contains(id)
            &&& forall|id: usize|
                r.peers.contains(id) ==> #[trigger] after.next_index[id] == r.log.len()
            &&& forall|id: usize| r.peers.contains(id) ==> #[trigger] after.match_index[id] == 0
            &&& same_cluster(after, r) && same_data(after, r)
        }),
{
}

/// Dying changes nothing but the state, and keeps the earlier one on record.
pub proof fn dying(r: ReplicaView)
    ensures
        ({
            let after = r.became_dead();
            &&& after.state == State::Dead && after.prev_state == r.state
            &&& after.current_term == r.current_term && after.voted_for == r.voted_for
                && after.current_votes == r.current_votes
            &&& same_cluster(after, r) && same_data(after, r) && same_indices(after, r)
        }),
{
}

/// Coming back restores the state on record and nothing else; without one, the replica follows in
/// term 0. Nothing stays on record.
pub proof fn coming_back(r: ReplicaView)
    ensures
        ({
            let after = r.became_alive();
            &&& after.prev_state == State::Dead
            &&& same_cluster(after, r) && same_data(after, r)
            &&& r.prev_state != State::Dead ==> {
                &&& after.state == r.prev_state
                &&& after.current_term == r.current_term && after.voted_for == r.voted_for
                    && after.current_votes == r.current_votes
                &&& same_indices(after, r)
            }
            &&& r.prev_state == State::Dead ==> {
                &&& after.state == State::Follower && after.current_term == 0
                &&& after.voted_for is None && after.current_votes is None
                &&& no_indices(after)
            }
        }),
{
}

/// A change is appended as one entry of the current term, at the position that follows the log;
/// nothing else changes.
pub proof fn appending(r: ReplicaView, delta: i32)
    requires
        r.log.len() <= usize::MAX,
    ensures
        ({
            let after = r.appended(delta);
            &&& after.log.len() == r.log.len() + 1
            &&& forall|i: int| 0 <= i < r.log.len() ==> #[trigger] after.log[i] == r.log[i]
            &&& after.log[r.log.len() as int].delta == delta
            &&& after.log[r.log.len() as int].term == r.current_term
            &&& after.log[r.log.len() as int].index == r.log.len()
            &&& after.commit_index == r.commit_index && after.last_applied == r.last_applied
                && after.value == r.value
            &&& same_cluster(after, r) && same_role(after, r) && same_indices(after, r)
        }),
{
}

/// Control messages bring a replica back, kill it, or hand a change to a leader; whoever does not
/// lead ignores changes.
pub proof fn obeying(r: ReplicaView, delta: i32)
    ensures
        r.controlled(ControlMessage::Up) == r.became_alive(),
        r.controlled(ControlMessage::Down) == r.became_dead(),
        r.state == State::Leader ==> r.controlled(ControlMessage::Apply(delta)) == r.appended(
            delta,
        ),
        r.state != State::Leader ==> r.controlled(ControlMessage::Apply(delta)) == r,
{
}

// ----------------------------------------------------------------------------------------------
// Turns

/// An event is taken by the rule for its kind and for the role. Leaders stay silent when they are
/// told something, and when they time out; so do all on control messages.
pub proof fn taking_events(r: ReplicaView, event: EventView)
    ensures
        match event {
            EventView::Control(message) => r.handled(event).replica == r.controlled(message)
                && r.handled(event).sent.len() == 0,
            EventView::Timeout => match r.state {
                State::Follower | State::Candidate => r.handled(event).replica
                    == r.became_candidate() && r.handled(event).sent
                    == r.became_candidate().canvass(),
                State::Leader | State::Dead => r.handled(event).replica == r && r.handled(
                    event,
                ).sent.len() == 0,
            },
            EventView::Protocol(message) => match r.state {
                State::Follower => r.handled(event) == r.told_as_follower(message),
                State::Candidate => r.handled(event) == r.told_as_candidate(message),
                State::Leader => r.handled(event).replica == r.told_as_leader(message)
                    && r.handled(event).sent.len() == 0,
                State::Dead => r.handled(event).replica == r && r.handled(event).sent.len() == 0,
            },
        },
{
}

/// Before it waits, a replica sends something only if it leads and its timer has fired. A leader
/// then waits for 500 milliseconds, a follower or a candidate for the time that was drawn, and a
/// dead replica for control messages. The time is drawn from 2000 to 3500 milliseconds.
pub proof fn waiting(r: ReplicaView, timer_fired: bool, drawn: u64)
    ensures
        r.state == State::Leader && timer_fired ==> r.sent_first(timer_fired) == r.heartbeat(),
        r.state != State::Leader || !timer_fired ==> r.sent_first(timer_fired).len() == 0,
        r.state == State::Leader ==> r.waits(drawn) == (Wait::Any { timeout: 500 }),
        r.state == State::Follower ==> r.waits(drawn) == (Wait::Any { timeout: drawn }),
        r.state == State::Candidate ==> r.waits(drawn) == (Wait::Any { timeout: drawn }),
        r.state == State::Dead ==> r.waits(drawn) == Wait::Control,
        LEADER_TIMEOUT == 500,
        NOT_LEADER_MIN_TIMEOUT == 2000,
        NOT_LEADER_MAX_TIMEOUT == 3500,
{
}

// ----------------------------------------------------------------------------------------------
// Elections

/// Each peer gets one vote request. It names the candidate and its term, and describes the last
/// entry of its log.
pub proof fn candidates_describe_their_last_entry(r: ReplicaView, i: int)
    requires
        1 <= r.log.len() <= usize::MAX,
        0 <= i < r.peers.len(),
    ensures
        r.canvass().len() == r.peers.len(),
        r.canvass()[i].to == r.peers[i],
        r.canvass()[i].message matches MessageView::RequestVoteRequest {
            from_id,
            term,
            last_log_index,
            last_log_term,
        } && from_id == r.id && term == r.current_term && last_log_index + 1 == r.log.len()
            && last_log_term == r.log[r.log.len() - 1].term,
{
}

/// On a timeout of a follower or a candidate, all peers are asked for their votes in the new term,
/// with the last entry of the log.
pub proof fn timeouts_ask_for_votes(r: ReplicaView, i: int)
    requires
        r.wf(),
        r.state == State::Follower || r.state == State::Candidate,
        r.current_term < usize::MAX,
        0 <= i < r.peers.len(),
    ensures
        ({
            let step = r.handled(EventView::Timeout);
            &&& step.sent.len() == r.peers.len()
            &&& step.sent[i].to == r.peers[i]
            &&& step.sent[i].message matches MessageView::RequestVoteRequest {
                from_id,
                term,
                last_log_index,
                last_log_term,
            }
            &&& from_id == r.id
            &&& term == r.current_term + 1
            &&& last_log_index == r.log.len() - 1
            &&& last_log_term == r.log[r.log.len() - 1].term
        }),
{
    standing_for_election(r);
    candidates_describe_their_last_entry(r.became_candidate(), i);
}

/// A follower has one answer to a vote request, after a notice if the request is of an earlier
/// term. It takes over a later term, in which it is free to vote. It grants its vote exactly if it
/// is free, or voted for the candidate before, and if the last entry of its log is of no later term
/// and at no later position than the candidate's. A granted vote is recorded.
pub proof fn answering_vote_requests(
    r: ReplicaView,
    from_id: usize,
    term: usize,
    last_log_index: usize,
    last_log_term: usize,
)
    requires
        1 <= r.log.len() <= usize::MAX,
    ensures
        ({
            let step = r.vote_requested(from_id, term, last_log_index, last_log_term);
            let after = step.replica;
            let free = term > r.current_term || r.voted_for is None || r.voted_for == Some(from_id);
            let granted = free && r.log.len() - 1 <= last_log_index && r.log[r.log.len() - 1].term
                <= last_log_term;
            &&& step.sent.len() == if term < r.current_term {
                2nat
            } else {
                1nat
            }
            &&& step.sent[step.sent.len() - 1].to == from_id
            &&& step.sent[step.sent.len() - 1].message == (MessageView::RequestVoteResponse {
                from_id: r.id,
                term: after.current_term,
                vote_granted: granted,
            })
            &&& term < r.current_term ==> step.sent[0].to == from_id && step.sent[0].message == (
            MessageView::RequestVoteResponse {
                from_id: r.id,
                term: r.current_term,
                vote_granted: false,
            })
            &&& granted ==> after.voted_for == Some(from_id)
            &&& !granted && term <= r.current_term ==> after.voted_for == r.voted_for
            &&& !granted && term > r.current_term ==> after.voted_for is None
            &&& same_cluster(after, r) && same_data(after, r) && after.prev_state == r.prev_state
            &&& term <= r.current_term ==> {
                &&& after.current_term == r.current_term
                &&& after.state == r.state && after.current_votes == r.current_votes
                &&& same_indices(after, r)
            }
            &&& term > r.current_term ==> {
                &&& after.current_term == term
                &&& after.state == State::Follower && after.current_votes is None
                &&& no_indices(after)
            }
        }),
{
}

/// A follower of no later term that is free to vote in the term of the request, and whose last
/// entry is of no later term and at no later position than the candidate's, grants its vote and
/// records it.
pub proof fn votes_that_are_due_are_granted(
    r: ReplicaView,
    from_id: usize,
    term: usize,
    last_log_index: usize,
    last_log_term: usize,
)
    requires
        r.wf(),
        r.state == State::Follower,
        r.current_term <= term,
        r.current_term < term || r.voted_for is None || r.voted_for == Some(from_id),
        r.log.len() - 1 <= last_log_index,
        r.log[r.log.len() - 1].term <= last_log_term,
    ensures
        ({
            let step = r.handled(
                EventView::Protocol(
                    MessageView::RequestVoteRequest {
                        from_id,
                        term,
                        last_log_index,
                        last_log_term,
                    },
                ),
            );
            &&& step.sent.len() == 1
            &&& step.sent[0].to == from_id
            &&& step.sent[0].message == (MessageView::RequestVoteResponse {
                from_id: r.id,
                term,
                vote_granted: true,
            })
            &&& step.replica.voted_for == Some(from_id)
            &&& step.replica.current_term == term
        }),
{
}

/// A follower of the candidate's old term or an earlier one, whose log is no longer than the
/// candidate's and ends in an entry of no later term, grants the vote that a candidate asks for on
/// its timeout. A log that is the same as the candidate's is one of these.
pub proof fn candidates_get_the_votes_of_logs_not_ahead(
    candidate: ReplicaView,
    voter: ReplicaView,
    i: int,
)
    requires
        candidate.wf(),
        voter.wf(),
        candidate.state == State::Follower || candidate.state == State::Candidate,
        candidate.current_term < usize::MAX,
        0 <= i < candidate.peers.len(),
        voter.state == State::Follower,
        voter.current_term <= candidate.current_term,
        voter.log.len() <= candidate.log.len(),
        voter.log[voter.log.len() - 1].term <= candidate.log[candidate.log.len() - 1].term,
    ensures
        ({
            let asked = candidate.handled(EventView::Timeout);
            let step = voter.handled(EventView::Protocol(asked.sent[i].message));
            &&& step.sent.len() == 1
            &&& step.sent[0].to == candidate.id
            &&& step.sent[0].message == (MessageView::RequestVoteResponse {
                from_id: voter.id,
                term: asked.replica.current_term,
                vote_granted: true,
            })
            &&& step.replica.voted_for == Some(candidate.id)
        }),
{
    timeouts_ask_for_votes(candidate, i);
    standing_for_election(candidate);
    let message = candidate.handled(EventView::Timeout).sent[i].message;
    answering_vote_requests(
        voter,
        candidate.id,
        (candidate.current_term + 1) as usize,
        (candidate.log.len() - 1) as usize,
        candidate.log[candidate.log.len() - 1].term,
    );
    assert(message == (MessageView::RequestVoteRequest {
        from_id: candidate.id,
        term: (candidate.current_term + 1) as usize,
        last_log_index: (candidate.log.len() - 1) as usize,
        last_log_term: candidate.log[candidate.log.len() - 1].term,
    }));
}

/// A vote that is granted to a candidate adds the voter to those who voted. Once they are more than
/// half of the cluster, the candidate leads; until then nothing else changes. Whoever stands in no
/// election counts nothing.
pub proof fn counting_votes(r: ReplicaView, from_id: usize, votes: Set<usize>)
    requires
        r.current_votes == Some(votes) || r.current_votes is None,
    ensures
        ({
            let after = r.vote_received(from_id);
            let enough = 2 * votes.insert(from_id).len() > r.peers.len() + 1;
            &&& r.current_votes is None ==> after == r
            &&& r.current_votes is Some && !enough ==> {
                &&& after.current_votes == Some(votes.insert(from_id))
                &&& after.current_term == r.current_term && after.state == r.state
                &&& after.prev_state == r.prev_state && after.voted_for == r.voted_for
                &&& same_cluster(after, r) && same_data(after, r) && same_indices(after, r)
            }
            &&& r.current_votes is Some && enough ==> {
                &&& after == r.became_leader()
                &&& after.state == State::Leader
            }
        }),
{
}

/// A candidate gives way to an append request of its own term or a later one and to any other
/// message of a later term; it refuses older requests, and vote requests of its own term; it counts
/// granted votes, and ignores refused ones and answers to append requests.
pub proof fn being_told_as_candidate(r: ReplicaView, message: MessageView)
    requires
        1 <= r.log.len() <= usize::MAX,
    ensures
        ({
            let step = r.told_as_candidate(message);
            match message {
                MessageView::AppendEntryRequest { from_id, term, .. } => {
                    &&& term >= r.current_term ==> step == r.became_follower(
                        term,
                    ).told_as_follower(message)
                    &&& term < r.current_term ==> {
                        &&& step.replica == r
                        &&& step.sent.len() == 1 && step.sent[0].to == from_id
                        &&& step.sent[0].message == (MessageView::AppendEntryResponse {
                            from_id: r.id,
                            term: r.current_term,
                            success: false,
                            last_index: (r.log.len() - 1) as usize,
                        })
                    }
                },
                MessageView::RequestVoteRequest { from_id, term, .. } => {
                    &&& term > r.current_term ==> step == r.became_follower(
                        term,
                    ).told_as_follower(message)
                    &&& term <= r.current_term ==> {
                        &&& step.replica == r
                        &&& step.sent.len() == 1 && step.sent[0].to == from_id
                        &&& step.sent[0].message == (MessageView::RequestVoteResponse {
                            from_id: r.id,
                            term: r.current_term,
                            vote_granted: false,
                        })
                    }
                },
                MessageView::RequestVoteResponse { from_id, term, vote_granted } => {
                    &&& step.sent.len() == 0
                    &&& term > r.current_term ==> step.replica == r.became_follower(term)
                    &&& term <= r.current_term && vote_granted ==> step.replica == r.vote_received(
                        from_id,
                    )
                    &&& term <= r.current_term && !vote_granted ==> step.replica == r
                },
                MessageView::AppendEntryResponse { .. } => step.replica == r && step.sent.len()
                    == 0,
            }
        }),
{
}

/// Followers answer requests by their kinds and ignore answers.
pub proof fn being_told_as_follower(r: ReplicaView, message: MessageView)
    ensures
        ({
            let step = r.told_as_follower(message);
            match message {
                MessageView::AppendEntryRequest {
                    term,
                    from_id,
                    prev_log_index,
                    prev_log_term,
                    entries,
                    commit_index,
                } => step == r.append_requested(
                    from_id,
                    term,
                    prev_log_index,
                    prev_log_term,
                    entries,
                    commit_index,
                ),
                MessageView::RequestVoteRequest { from_id, term, last_log_index, last_log_term } =>
                    step == r.vote_requested(from_id, term, last_log_index, last_log_term),
                MessageView::AppendEntryResponse { .. } => step.replica == r && step.sent.len()
                    == 0,
                MessageView::RequestVoteResponse { .. } => step.replica == r && step.sent.len()
                    == 0,
            }
        }),
{
}

// ----------------------------------------------------------------------------------------------
// Append requests and their answers

/// Each peer gets one append request: all entries of the log from its next index on, with position
/// and term of the entry before them, and what is committed.
pub proof fn heartbeats_hand_out_the_rest_of_the_log(r: ReplicaView, i: int)
    requires
        r.log.len() <= usize::MAX,
        0 <= i < r.peers.len(),
        r.next_index.contains_key(r.peers[i]),
        1 <= r.next_index[r.peers[i]] <= r.log.len(),
    ensures
        ({
            let next = r.next_index[r.peers[i]];
            &&& r.heartbeat().len() == r.peers.len()
            &&& r.heartbeat()[i].to == r.peers[i]
            &&& r.heartbeat()[i].message matches MessageView::AppendEntryRequest {
                term,
                from_id,
                prev_log_index,
                prev_log_term,
                entries,
                commit_index,
            }
            &&& term == r.current_term && from_id == r.id && commit_index == r.commit_index
            &&& prev_log_index + 1 == next
            &&& prev_log_term == r.log[prev_log_index as int].term
            &&& next + entries.len() == r.log.len()
            &&& forall|j: int| 0 <= j < entries.len() ==> #[trigger] entries[j] == r.log[next + j]
        }),
{
}

/// An append request is refused exactly if its term is over, or if the log has no entry of the given
/// term at the given position. Whoever refuses stays as it is and answers with its own term.
pub proof fn refusing_append_requests(
    r: ReplicaView,
    from_id: usize,
    term: usize,
    prev_log_index: usize,
    prev_log_term: usize,
    entries: Seq<Log>,
    commit_index: usize,
)
    requires
        1 <= r.log.len() <= usize::MAX,
    ensures
        ({
            let step = r.append_requested(
                from_id,
                term,
                prev_log_index,
                prev_log_term,
                entries,
                commit_index,
            );
            let fits = r.current_term <= term && prev_log_index < r.log.len()
                && r.log[prev_log_index as int].term == prev_log_term;
            &&& step.sent.len() == 1
            &&& step.sent[0].to == from_id
            &&& step.sent[0].message matches MessageView::AppendEntryResponse {
                from_id: answerer,
                term: answer_term,
                success,
                last_index,
            }
            &&& answerer == r.id
            &&& answer_term == r.current_term
            &&& success <==> fits
            &&& !fits ==> step.replica == r && last_index + 1 == r.log.len()
        }),
{
}

/// An append request that is taken changes the log and the commit index only. The answer tells the
/// last position of the log. The commit index rises to the leader's, but not beyond that position;
/// it stays if the leader's is not higher.
pub proof fn taking_append_requests(
    r: ReplicaView,
    from_id: usize,
    term: usize,
    prev_log_index: usize,
    prev_log_term: usize,
    entries: Seq<Log>,
    commit_index: usize,
)
    requires
        r.wf(),
        r.current_term <= term,
        prev_log_index < r.log.len(),
        r.log[prev_log_index as int].term == prev_log_term,
        r.append_requested(
            from_id,
            term,
            prev_log_index,
            prev_log_term,
            entries,
            commit_index,
        ).replica.log.len() <= usize::MAX,
    ensures
        ({
            let step = r.append_requested(
                from_id,
                term,
                prev_log_index,
                prev_log_term,
                entries,
                commit_index,
            );
            let after = step.replica;
            let last = after.log.len() - 1;
            &&& last >= 0
            &&& step.sent.len() == 1 && step.sent[0].to == from_id
            &&& step.sent[0].message == (MessageView::AppendEntryResponse {
                from_id: r.id,
                term: r.current_term,
                success: true,
                last_index: last as usize,
            })
            &&& commit_index <= r.commit_index ==> after.commit_index == r.commit_index
            &&& commit_index > r.commit_index && commit_index <= last ==> after.commit_index
                == commit_index
            &&& commit_index > r.commit_index && commit_index > last ==> after.commit_index == last
            &&& after.last_applied == r.last_applied && after.value == r.value
            &&& same_cluster(after, r) && same_role(after, r) && same_indices(after, r)
        }),
{
    crate::laws::lemma_merged_positions(r.log, entries);
}

/// No entries leave the log as it is. One entry more does one thing more to the log: it replaces
/// the entry at its position and all that follow, if that entry is of another term; it is appended,
/// if its position is the one after the last; else nothing happens.
pub proof fn entries_are_taken_one_by_one(
    r: ReplicaView,
    from_id: usize,
    term: usize,
    prev_log_index: usize,
    prev_log_term: usize,
    entries: Seq<Log>,
    entry: Log,
    commit_index: usize,
)
    requires
        r.current_term <= term,
        prev_log_index < r.log.len(),
        r.log[prev_log_index as int].term == prev_log_term,
    ensures
        r.append_requested(
            from_id,
            term,
            prev_log_index,
            prev_log_term,
            Seq::empty(),
            commit_index,
        ).replica.log == r.log,
        ({
            let before = r.append_requested(
                from_id,
                term,
                prev_log_index,
                prev_log_term,
                entries,
                commit_index,
            ).replica.log;
            let log = r.append_requested(
                from_id,
                term,
                prev_log_index,
                prev_log_term,
                entries.push(entry),
                commit_index,
            ).replica.log;
            let at = entry.index as int;
            &&& at > before.len() ==> log == before
            &&& at < before.len() && before[at].term == entry.term ==> log == before
            &&& at == before.len() || at < before.len() && before[at].term != entry.term ==> {
                &&& log.len() == at + 1
                &&& log[at] == entry
                &&& forall|k: int| 0 <= k < at ==> #[trigger] log[k] == before[k]
            }
        }),
{
    assert(entries.push(entry).drop_last() =~= entries);
}

/// Consecutive entries that start after the given position are all in the log afterwards: each
/// itself, or the one of the same term that was there. What precedes them stays.
pub proof fn consecutive_entries_are_all_taken(
    r: ReplicaView,
    from_id: usize,
    term: usize,
    prev_log_index: usize,
    prev_log_term: usize,
    entries: Seq<Log>,
    commit_index: usize,
)
    requires
        r.current_term <= term,
        prev_log_index < r.log.len(),
        r.log[prev_log_index as int].term == prev_log_term,
        forall|j: int|
            0 <= j < entries.len() ==> (#[trigger] entries[j]).index == prev_log_index + 1 + j,
    ensures
        ({
            let log = r.append_requested(
                from_id,
                term,
                prev_log_index,
                prev_log_term,
                entries,
                commit_index,
            ).replica.log;
            let next = prev_log_index + 1;
            &&& log.len() >= next + entries.len()
            &&& forall|k: int| 0 <= k < next ==> #[trigger] log[k] == r.log[k]
            &&& forall|j: int|
                0 <= j < entries.len() ==> log[next + j].term == (#[trigger] entries[j]).term && (
                log[next + j] == entries[j] || next + j < r.log.len() && log[next + j]
                    == r.log[next + j])
        }),
{
    lemma_run(r.log, entries, prev_log_index + 1);
}

proof fn lemma_run(log: Seq<Log>, entries: Seq<Log>, next: int)
    requires
        0 <= next <= log.len(),
        forall|j: int| 0 <= j < entries.len() ==> (#[trigger] entries[j]).index == next + j,
    ensures
        ({
            let result = crate::model::merged(log, entries);
            &&& result.len() >= next + entries.len()
            &&& result == log || result.len() == next + entries.len()
            &&& forall|k: int| 0 <= k < next ==> #[trigger] result[k] == log[k]
            &&& forall|j: int|
                0 <= j < entries.len() ==> result[next + j].term == (#[trigger] entries[j]).term
                    && (result[next + j] == entries[j] || next + j < log.len() && result[next + j]
                    == log[next + j])
        }),
    decreases entries.len(),
{
    if entries.len() > 0 {
        let fewer = entries.drop_last();
        assert forall|j: int| 0 <= j < fewer.len() implies (#[trigger] fewer[j]).index == next
            + j by {
            assert(fewer[j] == entries[j]);
        }
        lemma_run(log, fewer, next);
        let before = crate::model::merged(log, fewer);
        let result = crate::model::merged(log, entries);
        assert(entries.last() == entries[entries.len() - 1]);
        assert forall|j: int| 0 <= j < entries.len() implies result[next + j].term == (
        #[trigger] entries[j]).term && (result[next + j] == entries[j] || next + j < log.len()
            && result[next + j] == log[next + j]) by {
            if j < fewer.len() {
                assert(fewer[j] == entries[j]);
                assert(result[next + j] == before[next + j]);
            }
        }
    }
}

/// A leader that hears of a later term follows in it. On a success it notes for the one who answers,
/// and for nobody else, the position that the answer names and the one after it. On a refusal it
/// lowers the next index of the one who answers by one, and what it knows anyone to hold stays. It
/// ignores all other messages.
pub proof fn being_told_as_leader(r: ReplicaView, message: MessageView)
    requires
        r.can_be_told_as_leader(message),
    ensures
        ({
            let after = r.told_as_leader(message);
            match message {
                MessageView::AppendEntryResponse { from_id, term, success, last_index } => {
                    &&& term > r.current_term ==> after == r.became_follower(term)
                    &&& term <= r.current_term ==> {
                        &&& same_cluster(after, r) && same_data(after, r) && same_role(after, r)
                        &&& after.next_index.contains_key(from_id)
                        &&& forall|id: usize|
                            id != from_id ==> (#[trigger] after.next_index.contains_key(id)
                                <==> r.next_index.contains_key(id))
                        &&& forall|id: usize|
                            id != from_id ==> #[trigger] after.next_index[id] == r.next_index[id]
                    }
                    &&& term <= r.current_term && success ==> {
                        &&& after.next_index[from_id] - 1 == last_index
                        &&& after.match_index.contains_key(from_id)
                        &&& after.match_index[from_id] == last_index
                        &&& forall|id: usize|
                            id != from_id ==> (#[trigger] after.match_index.contains_key(id)
                                <==> r.match_index.contains_key(id))
                        &&& forall|id: usize|
                            id != from_id ==> #[trigger] after.match_index[id] == r.match_index[id]
                    }
                    &&& term <= r.current_term && !success ==> {
                        &&& after.next_index[from_id] + 1 == r.next_index[from_id]
                        &&& after.match_index == r.match_index
                    }
                },
                _ => after == r,
            }
        }),
{
}

/// While a replica leads, what it knows a peer to hold changes only by a success that this peer
/// reports, and then to the position that it reports.
pub proof fn only_successes_tell_what_a_peer_holds(r: ReplicaView, event: EventView, id: usize)
    requires
        r.wf(),
        r.can_handle(event),
        r.state == State::Leader,
        r.handled(event).replica.state == State::Leader,
        r.handled(event).replica.match_index.contains_key(id) != r.match_index.contains_key(id)
            || r.handled(event).replica.match_index[id] != r.match_index[id],
    ensures
        event matches EventView::Protocol(
            MessageView::AppendEntryResponse { from_id, term, success, last_index },
        ) && from_id == id && success && term <= r.current_term && r.handled(
            event,
        ).replica.match_index[id] == last_index,
{
}

// ----------------------------------------------------------------------------------------------
// Committing and applying

/// The sum of all changes in a part of the log.
pub open spec fn sum_of_changes(entries: Seq<Log>) -> int {
    entries.map_values(|entry: Log| entry.delta as int).fold_left(0int, |a: int, b: int| a + b)
}

/// The entries at the positions `from + 1` up to and with `to`.
pub open spec fn entries_between(log: Seq<Log>, from: int, to: int) -> Seq<Log> {
    log.subrange(from + 1, to + 1)
}

/// Those who are known to hold the entry at position `n`.
pub open spec fn known_holders(r: ReplicaView, n: int) -> Set<usize> {
    Set::new(|id: usize| r.match_index.contains_key(id) && r.match_index[id] >= n)
}

/// The replica leads, and the entry at position `n` is of its term and held by more than half of
/// the cluster, the leader being one of them.
pub open spec fn majority_holds(r: ReplicaView, n: int) -> bool {
    &&& r.state == State::Leader
    &&& 0 <= n < r.log.len()
    &&& r.log[n].term == r.current_term
    &&& 2 * (1 + known_holders(r, n).len()) > 1 + r.peers.len()
}

proof fn lemma_sums_agree(log: Seq<Log>, from: int, to: int)
    requires
        -1 <= from <= to < log.len(),
    ensures
        crate::model::delta_sum(log, from, to) == sum_of_changes(entries_between(log, from, to)),
    decreases to - from,
{
    let f = |entry: Log| entry.delta as int;
    let entries = entries_between(log, from, to);
    if from < to {
        lemma_sums_agree(log, from, to - 1);
        assert(entries.map_values(f).drop_last() =~= entries_between(log, from, to - 1).map_values(
            f,
        ));
        assert(entries.map_values(f).last() == log[to].delta);
    } else {
        assert(entries.map_values(f) =~= Seq::empty());
    }
}

proof fn lemma_majority(r: ReplicaView, n: int)
    ensures
        r.can_commit(n) <==> majority_holds(r, n) && n > r.commit_index,
{
    assert(known_holders(r, n) =~= r.holders(n));
}

/// The commit index moves to the latest entry of the leader's term that more than half of the
/// cluster holds, if that is beyond it, and stays otherwise; on whoever does not lead it stays.
pub proof fn committing(r: ReplicaView, n: int)
    requires
        r.log.len() <= usize::MAX,
    ensures
        r.applied().commit_index >= r.commit_index,
        r.applied().commit_index > r.commit_index ==> majority_holds(
            r,
            r.applied().commit_index as int,
        ),
        majority_holds(r, n) ==> r.applied().commit_index >= n,
        r.state != State::Leader ==> r.applied().commit_index == r.commit_index,
{
    crate::laws::some_commit_is_ready(r);
    let c = r.applied().commit_index;
    lemma_majority(r, n);
    lemma_majority(r, c as int);
}

/// Applying adds to the value the change of every entry that is committed and not yet applied, each
/// one once, and remembers how far it came. Nothing but the value and the two positions changes.
pub proof fn applying(r: ReplicaView)
    requires
        r.log.len() <= usize::MAX,
        r.can_apply(),
    ensures
        ({
            let after = r.applied();
            let c = after.commit_index as int;
            &&& r.last_applied >= c ==> after.value == r.value && after.last_applied
                == r.last_applied
            &&& r.last_applied < c ==> {
                &&& c < r.log.len()
                &&& after.last_applied == c
                &&& after.value == r.value + sum_of_changes(
                    entries_between(r.log, r.last_applied as int, c),
                )
            }
            &&& after.log == r.log
            &&& same_cluster(after, r) && same_role(after, r) && same_indices(after, r)
        }),
{
    let c = r.applied().commit_index;
    if r.last_applied < c {
        lemma_sums_agree(r.log, r.last_applied as int, c as int);
    }
}

/// One committed entry that is not yet applied changes the value by exactly its own change.
pub proof fn applying_one_entry(r: ReplicaView)
    requires
        r.log.len() <= usize::MAX,
        r.can_apply(),
        r.applied().commit_index == r.last_applied + 1,
    ensures
        r.applied().value - r.value == r.log[r.last_applied + 1].delta,
        r.applied().last_applied == r.last_applied + 1,
{
    applying(r);
    let entries = entries_between(r.log, r.last_applied as int, r.last_applied + 1);
    let changes = entries.map_values(|entry: Log| entry.delta as int);
    assert(changes.drop_last() =~= Seq::empty());
    assert(changes.last() == r.log[r.last_applied + 1].delta);
    reveal_with_fuel(Seq::fold_left, 2);
}

/// Applying up to a position and then one further adds just the change of the last entry: what two
/// replicas that differ only in how much is committed make of their values differs by it.
pub proof fn one_commit_more_is_one_change_more(a: ReplicaView, b: ReplicaView)
    requires
        a.log.len() <= usize::MAX,
        a.can_apply(),
        b.can_apply(),
        a.state != State::Leader,
        b == (ReplicaView { commit_index: (a.commit_index + 1) as usize, ..a }),
        a.last_applied <= a.commit_index,
        a.commit_index < usize::MAX,
    ensures
        b.applied().value - a.applied().value == a.log[a.commit_index + 1].delta,
{
    committing(a, 0);
    committing(b, 0);
    applying(a);
    applying(b);
    let from = a.last_applied as int;
    let to = a.commit_index + 1;
    let f = |entry: Log| entry.delta as int;
    let more = entries_between(a.log, from, to).map_values(f);
    let fewer = entries_between(a.log, from, to - 1).map_values(f);
    assert(more.drop_last() =~= fewer);
    assert(more.last() == a.log[to].delta);
    if from == a.commit_index {
        assert(fewer =~= Seq::empty());
    }
}

/// What is ready can be applied exactly if it is all in the log and no value on the way leaves the
/// range of 32 bits.
pub proof fn what_can_be_applied(r: ReplicaView)
    requires
        r.log.len() <= usize::MAX,
    ensures
        ({
            let c = r.applied().commit_index as int;
            let from = r.last_applied as int;
            r.can_apply() <==> from >= c || c < r.log.len() && forall|k: int|
                from < k <= c ==> -0x8000_0000 <= r.value + #[trigger] sum_of_changes(
                    entries_between(r.log, from, k),
                ) <= 0x7fff_ffff
        }),
{
    let c = r.applied().commit_index;
    let from = r.last_applied as int;
    if from < c && c < r.log.len() {
        assert forall|k: int| from < k <= c implies #[trigger] crate::model::delta_sum(
            r.log,
            from,
            k,
        ) == sum_of_changes(entries_between(r.log, from, k)) by {
            lemma_sums_agree(r.log, from, k);
        }
        assert forall|k: int| from < k <= c implies crate::model::delta_sum(r.log, from, k)
            == #[trigger] sum_of_changes(entries_between(r.log, from, k)) by {
            lemma_sums_agree(r.log, from, k);
        }
    }
}

} // verus!
