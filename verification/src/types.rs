//! What a replica keeps in its log, what replicas say to each other, and what a replica is told by
//! its surroundings.
use vstd::prelude::*;

verus! {

/// The role that a replica plays.
#[derive(Clone, Copy, Debug, PartialEq, Eq, Structural)]
pub enum State {
    Follower,
    Candidate,
    Leader,
    Dead,
}

/// One log entry: a change of the replicated value, the term in which the leader of that term
/// received it, and the position that it has in the log.
#[derive(Clone, Copy, Debug, PartialEq, Eq, Structural)]
pub struct Log {
    pub delta: i32,
    pub term: usize,
    pub index: usize,
}

/// A message from one replica to another.
#[derive(Debug, PartialEq, Eq)]
pub enum Message {
    /// A leader hands out log entries; with no entries it is a heartbeat.
    AppendEntryRequest {
        term: usize,
        from_id: usize,
        /// Position of the entry that precedes `entries`.
        prev_log_index: usize,
        /// Term of the entry that precedes `entries`.
        prev_log_term: usize,
        entries: Vec<Log>,
        /// What the leader knows to be committed.
        commit_index: usize,
    },
    /// The answer to an `AppendEntryRequest`.
    AppendEntryResponse {
        from_id: usize,
        term: usize,
        success: bool,
        /// Position of the last entry in the log of the replica that answers.
        last_index: usize,
    },
    /// A candidate asks for a vote.
    RequestVoteRequest {
        from_id: usize,
        term: usize,
        last_log_index: usize,
        last_log_term: usize,
    },
    /// The answer to a `RequestVoteRequest`.
    RequestVoteResponse { from_id: usize, term: usize, vote_granted: bool },
}

/// A `Message` with its entries as a sequence.
pub enum MessageView {
    AppendEntryRequest {
        term: usize,
        from_id: usize,
        prev_log_index: usize,
        prev_log_term: usize,
        entries: Seq<Log>,
        commit_index: usize,
    },
    AppendEntryResponse { from_id: usize, term: usize, success: bool, last_index: usize },
    RequestVoteRequest {
        from_id: usize,
        term: usize,
        last_log_index: usize,
        last_log_term: usize,
    },
    RequestVoteResponse { from_id: usize, term: usize, vote_granted: bool },
}

impl View for Message {
    type V = MessageView;

    open spec fn view(&self) -> MessageView {
        match *self {
            Message::AppendEntryRequest {
                term,
                from_id,
                prev_log_index,
                prev_log_term,
                entries,
                commit_index,
            } => MessageView::AppendEntryRequest {
                term,
                from_id,
                prev_log_index,
                prev_log_term,
                entries: entries@,
                commit_index,
            },
            Message::AppendEntryResponse { from_id, term, success, last_index } =>
                MessageView::AppendEntryResponse { from_id, term, success, last_index },
            Message::RequestVoteRequest { from_id, term, last_log_index, last_log_term } =>
                MessageView::RequestVoteRequest { from_id, term, last_log_index, last_log_term },
            Message::RequestVoteResponse { from_id, term, vote_granted } =>
                MessageView::RequestVoteResponse { from_id, term, vote_granted },
        }
    }
}

/// A message that forces a change of state from outside the protocol.
#[derive(Clone, Copy, Debug, PartialEq, Eq, Structural)]
pub enum ControlMessage {
    /// Come back to life.
    Up,
    /// Die.
    Down,
    /// Change the replicated value by this much.
    Apply(i32),
}

/// What a replica woke up for.
#[derive(Debug, PartialEq, Eq)]
pub enum Event {
    /// Nothing arrived in time.
    Timeout,
    /// A message of the protocol arrived.
    Protocol(Message),
    /// A control message arrived.
    Control(ControlMessage),
}

/// An `Event` with its message viewed.
pub enum EventView {
    Timeout,
    Protocol(MessageView),
    Control(ControlMessage),
}

impl View for Event {
    type V = EventView;

    open spec fn view(&self) -> EventView {
        match *self {
            Event::Timeout => EventView::Timeout,
            Event::Protocol(message) => EventView::Protocol(message@),
            Event::Control(message) => EventView::Control(message),
        }
    }
}

/// A message on its way out. `peer` is the position of the addressee among the replica's peers.
#[derive(Debug, PartialEq, Eq)]
pub struct Envelope {
    pub peer: usize,
    pub message: Message,
}

} // verus!
