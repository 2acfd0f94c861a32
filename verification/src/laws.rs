//! What holds of replicas whatever happens to them, and of two replicas that talk to each other.
use vstd::prelude::*;

use crate::model::{ReplicaView, Sent, Step};
use crate::types::{ControlMessage, EventView, Log, MessageView, State};

verus! {

// ----------------------------------------------------------------------------------------------
// Validity

/// A valid replica stays valid whatever event it takes, as long as its log fits into memory.
pub proof fn events_keep_replicas_valid(r: ReplicaView, event: EventView)
    requires
        r.wf(),
        r.can_handle(event),
        r.handled(event).replica.log.len() <= usize::MAX,
    ensures
        r.handled(event).replica.wf(),
{
    match event {
        EventView::Protocol(MessageView::AppendEntryRequest { entries, .. }) => {
            lemma_merged_positions(r.log, entries);
        },
        _ => {},
    }
}

pub proof fn lemma_merged_positions(log: Seq<Log>, entries: Seq<Log>)
    requires
        log.len() > 0,
        forall|i: int| 0 <= i < log.len() ==> (#[trigger] log[i]).index == i,
    ensures
        crate::model::merged(log, entries).len() > 0,
        forall|i: int|
            0 <= i < crate::model::merged(log, entries).len() ==> (
            #[trigger] crate::model::merged(log, entries)[i]).index == i,
    decreases entries.len(),
{
    if entries.len() > 0 {
        lemma_merged_positions(log, entries.drop_last());
    }
}

/// Committing and applying keeps a replica valid.
pub proof fn applying_keeps_replicas_valid(r: ReplicaView)
    requires
        r.wf(),
    ensures
        r.applied().wf(),
{
}

/// What only leaders have, a follower or a candidate has not, whether alive or dead.
pub open spec fn indices_on_leaders_only(r: ReplicaView) -> bool {
    r.standing() == State::Follower || r.standing() == State::Candidate ==> r.next_index
        == Map::<usize, usize>::empty() && r.match_index == Map::<usize, usize>::empty()
}

/// The indices of the peers stay present on leaders only.
pub proof fn only_leaders_have_indices(r: ReplicaView, event: EventView)
    requires
        r.wf(),
        r.can_handle(event),
        indices_on_leaders_only(r),
    ensures
        indices_on_leaders_only(r.handled(event).replica),
        indices_on_leaders_only(r.applied()),
{
}

/// A follower does with a request what the rule for requests of its kind says, and ignores answers.
/// Its term does not fall.
pub proof fn followers_answer_by_kind(r: ReplicaView, message: MessageView)
    requires
        r.wf(),
    ensures
        match message {
            MessageView::AppendEntryRequest {
                term,
                from_id,
                prev_log_index,
                prev_log_term,
                entries,
                commit_index,
            } => r.told_as_follower(message) == r.append_requested(
                from_id,
                term,
                prev_log_index,
                prev_log_term,
                entries,
                commit_index,
            ),
            MessageView::RequestVoteRequest { from_id, term, last_log_index, last_log_term } =>
                r.told_as_follower(message) == r.vote_requested(
                    from_id,
                    term,
                    last_log_index,
                    last_log_term,
                ),
            _ => r.told_as_follower(message) == r.silent(),
        },
        r.told_as_follower(message).replica.current_term >= r.current_term,
{
}

// ----------------------------------------------------------------------------------------------
// Dying, coming back, and terms

/// A replica that dies and comes back is the replica that died.
pub proof fn down_then_up_restores(r: ReplicaView)
    requires
        r.wf(),
        r.state != State::Dead,
    ensures
        r.controlled(ControlMessage::Down).controlled(ControlMessage::Up) == r,
{
}

/// A replica that is told to come back while it lives, or that was told twice to die, restarts as a
/// follower in term 0; its log and its value stay.
pub proof fn up_without_a_single_down_restarts(r: ReplicaView)
    requires
        r.wf(),
        r.state != State::Dead,
    ensures
        r.controlled(ControlMessage::Up) == r.became_follower(0),
        r.controlled(ControlMessage::Down).controlled(ControlMessage::Down).controlled(
            ControlMessage::Up,
        ) == r.became_follower(0),
{
}

/// No event lowers the term, but for the one that restarts a replica.
pub proof fn term_never_falls(r: ReplicaView, event: EventView)
    requires
        r.wf(),
        r.can_handle(event),
        event == EventView::Control(ControlMessage::Up) ==> r.prev_state != State::Dead
            || r.current_term == 0,
    ensures
        r.handled(event).replica.current_term >= r.current_term,
{
}

// ----------------------------------------------------------------------------------------------
// Elections

/// Whoever comes to lead, other than by coming back to life, was a candidate whose votes, its own
/// among them, are the votes of a majority. Its term, its log and its value stay as they were, and
/// it can send its first heartbeat at once.
pub proof fn leads_only_with_a_majority(r: ReplicaView, event: EventView)
    requires
        r.wf(),
        r.can_handle(event),
        r.state != State::Leader,
        r.handled(event).replica.state == State::Leader,
        event != EventView::Control(ControlMessage::Up),
    ensures
        r.state == State::Candidate,
        ({
            let after = r.handled(event).replica;
            &&& event matches EventView::Protocol(
                MessageView::RequestVoteResponse { from_id, vote_granted, .. },
            )
            &&& vote_granted
            &&& r.current_votes matches Some(votes)
            &&& votes.insert(from_id).contains(r.id)
            &&& crate::model::wins_election(votes.insert(from_id).len(), r.peers.len())
            &&& after.can_heartbeat()
            &&& after.current_term == r.current_term
            &&& after.log == r.log
            &&& after.value == r.value
        }),
{
    let after = r.handled(event).replica;
    assert forall|i: int| 0 <= i < after.peers.len() implies {
        &&& after.next_index.contains_key(#[trigger] after.peers[i])
        &&& 1 <= after.next_index[after.peers[i]] <= after.log.len()
    } by {
        assert(r.peers.contains(r.peers[i]));
    }
}

/// Any majority that elects and any majority that holds an entry have a replica in common.
pub proof fn majorities_overlap(
    cluster: Set<usize>,
    electors: Set<usize>,
    leader: usize,
    holders: Set<usize>,
    peers: nat,
)
    requires
        cluster.finite(),
        cluster.len() == peers + 1,
        electors.subset_of(cluster),
        holders.subset_of(cluster),
        cluster.contains(leader),
        !holders.contains(leader),
        crate::model::wins_election(electors.len(), peers),
        crate::model::held_by_majority(holders.len(), peers),
    ensures
        exists|id: usize| #[trigger]
            electors.contains(id) && (id == leader || holders.contains(id)),
{
    let all_holders = holders.insert(leader);
    vstd::set_lib::lemma_len_subset(electors, cluster);
    vstd::set_lib::lemma_len_subset(holders, cluster);
    if electors.disjoint(all_holders) {
        vstd::set_lib::lemma_set_disjoint_lens(electors, all_holders);
        vstd::set_lib::lemma_len_subset(electors + all_holders, cluster);
    } else {
        let id = choose|id: usize| electors.contains(id) && all_holders.contains(id);
        assert(electors.contains(id) && (id == leader || holders.contains(id)));
    }
}

/// A vote is granted only to a candidate whose last entry is, by position and by term, not behind.
pub proof fn votes_go_to_logs_that_are_not_behind(r: ReplicaView, event: EventView, i: int)
    requires
        r.wf(),
        r.can_handle(event),
        0 <= i < r.handled(event).sent.len(),
        r.handled(event).sent[i].message matches MessageView::RequestVoteResponse {
            vote_granted,
            ..
        } && vote_granted,
    ensures
        event matches EventView::Protocol(
            MessageView::RequestVoteRequest { from_id, last_log_index, last_log_term, .. },
        ) && r.handled(event).sent[i].to == from_id && r.last_index() <= last_log_index
            && r.log.last().term <= last_log_term,
{
}

/// The answer says that the vote is granted.
pub open spec fn grants(sent: Sent) -> bool {
    sent.message matches MessageView::RequestVoteResponse { vote_granted, .. } && vote_granted
}

/// A vote that is granted is recorded, and nobody else gets one in that term or for an earlier one:
/// all answers to another candidate are refusals, and the replica stays as it is.
pub proof fn one_vote_in_a_term(
    r: ReplicaView,
    a: usize,
    term: usize,
    last_log_index: usize,
    last_log_term: usize,
    b: usize,
    b_term: usize,
    b_last_log_index: usize,
    b_last_log_term: usize,
)
    requires
        r.wf(),
        grants(r.vote_requested(a, term, last_log_index, last_log_term).sent.last()),
        a != b,
        b_term <= r.vote_requested(a, term, last_log_index, last_log_term).replica.current_term,
    ensures
        ({
            let voted = r.vote_requested(a, term, last_log_index, last_log_term).replica;
            let step = voted.vote_requested(b, b_term, b_last_log_index, b_last_log_term);
            &&& voted.voted_for == Some(a)
            &&& step.replica == voted
            &&& forall|i: int| 0 <= i < step.sent.len() ==> !grants(#[trigger] step.sent[i])
        }),
{
}

/// The vote that a follower has on record stays there for as long as the term lasts, unless the
/// replica restarts.
pub proof fn recorded_votes_stay(r: ReplicaView, event: EventView)
    requires
        r.wf(),
        r.can_handle(event),
        r.standing() == State::Follower,
        r.voted_for is Some,
        event == EventView::Control(ControlMessage::Up) ==> r.prev_state != State::Dead,
        r.handled(event).replica.current_term == r.current_term,
    ensures
        r.handled(event).replica.voted_for == r.voted_for,
{
}

/// The replica and its peers.
pub open spec fn cluster(r: ReplicaView) -> Set<usize> {
    r.peers.to_set().insert(r.id)
}

/// Every replica of the cluster has an id of its own.
pub open spec fn ids_are_distinct(r: ReplicaView) -> bool {
    r.peers.no_duplicates() && !r.peers.contains(r.id)
}

/// Only members of the cluster are counted: the votes are the replica's own and those of peers, and
/// the indices are those of peers.
pub open spec fn tallies_in_cluster(r: ReplicaView) -> bool {
    &&& r.current_votes matches Some(votes) ==> votes.subset_of(cluster(r))
    &&& forall|id: usize| #[trigger] r.next_index.contains_key(id) ==> r.peers.contains(id)
    &&& forall|id: usize| #[trigger] r.match_index.contains_key(id) ==> r.peers.contains(id)
}

/// The event is an answer that the replica counts, and it comes from outside the cluster.
pub open spec fn counts_a_stranger(r: ReplicaView, event: EventView) -> bool {
    match (r.state, event) {
        (
            State::Leader,
            EventView::Protocol(MessageView::AppendEntryResponse { from_id, term, success, .. }),
        ) => term <= r.current_term && success && !r.peers.contains(from_id),
        (
            State::Candidate,
            EventView::Protocol(MessageView::RequestVoteResponse { from_id, term, vote_granted }),
        ) => term <= r.current_term && vote_granted && !cluster(r).contains(from_id),
        _ => false,
    }
}

/// Only members of the cluster are counted, as long as no answer that counts comes from outside;
/// and the cluster stays the same.
pub proof fn tallies_stay_in_the_cluster(r: ReplicaView, event: EventView)
    requires
        r.wf(),
        r.can_handle(event),
        tallies_in_cluster(r),
        !counts_a_stranger(r, event),
    ensures
        tallies_in_cluster(r.handled(event).replica),
        tallies_in_cluster(r.applied()),
        cluster(r.handled(event).replica) == cluster(r),
        cluster(r.applied()) == cluster(r),
{
}

/// A candidate with the votes of a majority has the vote of a replica that holds what a leader of
/// the same cluster may commit.
pub proof fn winners_have_the_vote_of_a_holder(
    candidate: ReplicaView,
    votes: Set<usize>,
    leader: ReplicaView,
    n: int,
)
    requires
        candidate.wf(),
        leader.wf(),
        ids_are_distinct(candidate),
        ids_are_distinct(leader),
        cluster(candidate) == cluster(leader),
        tallies_in_cluster(candidate),
        tallies_in_cluster(leader),
        candidate.current_votes == Some(votes),
        crate::model::wins_election(votes.len(), candidate.peers.len()),
        leader.can_commit(n),
    ensures
        exists|id: usize| #[trigger]
            votes.contains(id) && (id == leader.id || leader.holders(n).contains(id)),
{
    leader.peers.unique_seq_to_set();
    candidate.peers.unique_seq_to_set();
    assert(cluster(candidate).len() == candidate.peers.len() + 1);
    assert(cluster(leader).len() == leader.peers.len() + 1);
    majorities_overlap(
        cluster(leader),
        votes,
        leader.id,
        leader.holders(n),
        leader.peers.len(),
    );
}

/// Followers and candidates answer every request, and answer nobody but the one who asked: the last
/// answer carries the id and the term that the replica then has.
pub proof fn every_request_is_answered(r: ReplicaView, message: MessageView)
    requires
        r.wf(),
        r.state == State::Follower || r.state == State::Candidate,
        message is AppendEntryRequest || message is RequestVoteRequest,
    ensures
        ({
            let step = r.told(message);
            let asker = match message {
                MessageView::AppendEntryRequest { from_id, .. } => from_id,
                MessageView::RequestVoteRequest { from_id, .. } => from_id,
                _ => 0,
            };
            &&& step.sent.len() > 0
            &&& forall|i: int| 0 <= i < step.sent.len() ==> (#[trigger] step.sent[i]).to == asker
            &&& match step.sent.last().message {
                MessageView::AppendEntryResponse { from_id, term, .. } => message
                    is AppendEntryRequest && from_id == r.id && term == step.replica.current_term,
                MessageView::RequestVoteResponse { from_id, term, .. } => message
                    is RequestVoteRequest && from_id == r.id && term == step.replica.current_term,
                _ => false,
            }
        }),
{
}

// ----------------------------------------------------------------------------------------------
// The log, what is committed of it, and the value

/// The event is an append request that the replica takes, and one of its entries contradicts the
/// log at position `k` or before.
pub open spec fn overwrites(r: ReplicaView, event: EventView, k: int) -> bool {
    &&& r.state == State::Follower || r.state == State::Candidate
    &&& event matches EventView::Protocol(
        MessageView::AppendEntryRequest { term, prev_log_index, prev_log_term, entries, .. },
    )
    &&& !r.refuses_append(term, prev_log_index, prev_log_term)
    &&& contradicts(r.log, entries, k)
}

/// One of the entries differs in its term from the log's entry at the same position, which is `k`
/// or before.
pub open spec fn contradicts(log: Seq<Log>, entries: Seq<Log>, k: int) -> bool {
    exists|j: int|
        0 <= j < entries.len() && (#[trigger] entries[j]).index <= k && entries[j].term
            != log[entries[j].index as int].term
}

proof fn lemma_uncontradicted_prefix_stays(log: Seq<Log>, entries: Seq<Log>, k: int)
    requires
        0 <= k < log.len(),
        !contradicts(log, entries, k),
    ensures
        crate::model::merged(log, entries).len() > k,
        crate::model::merged(log, entries).take(k + 1) =~= log.take(k + 1),
    decreases entries.len(),
{
    if entries.len() > 0 {
        let fewer = entries.drop_last();
        assert forall|j: int|
            0 <= j < fewer.len() && (#[trigger] fewer[j]).index <= k implies fewer[j].term
            == log[fewer[j].index as int].term by {
            assert(fewer[j] == entries[j]);
        }
        lemma_uncontradicted_prefix_stays(log, fewer, k);
        let before = crate::model::merged(log, fewer);
        let entry = entries.last();
        assert(entry == entries[entries.len() - 1]);
        if entry.index <= k {
            assert(before[entry.index as int] == before.take(k + 1)[entry.index as int]);
            assert(log[entry.index as int] == log.take(k + 1)[entry.index as int]);
        } else if entry.index < before.len() {
            assert(before.take(entry.index as int).push(entry).take(k + 1) =~= before.take(k + 1));
        }
    }
}

/// The log up to position `k` stays as it is, unless a leader's entries contradict it there.
pub proof fn uncontradicted_entries_stay(r: ReplicaView, event: EventView, k: int)
    requires
        r.wf(),
        r.can_handle(event),
        0 <= k < r.log.len(),
        !overwrites(r, event, k),
    ensures
        r.handled(event).replica.log.len() > k,
        r.handled(event).replica.log.take(k + 1) == r.log.take(k + 1),
{
    match event {
        EventView::Protocol(
            MessageView::AppendEntryRequest { term, prev_log_index, prev_log_term, entries, .. },
        ) => {
            if (r.state == State::Follower || r.state == State::Candidate) && !r.refuses_append(
                term,
                prev_log_index,
                prev_log_term,
            ) {
                lemma_uncontradicted_prefix_stays(r.log, entries, k);
            }
        },
        _ => {
            assert(r.handled(event).replica.log.take(k + 1) =~= r.log.take(k + 1));
        },
    }
}

/// While it leads, a replica only ever appends to its log.
pub proof fn leaders_only_append(r: ReplicaView, event: EventView)
    requires
        r.wf(),
        r.can_handle(event),
        r.state == State::Leader,
    ensures
        r.log.is_prefix_of(r.handled(event).replica.log),
{
}

/// There always is a position to commit up to.
pub proof fn some_commit_is_ready(r: ReplicaView)
    requires
        r.log.len() <= usize::MAX,
    ensures
        r.is_ready_commit(r.ready_commit()),
{
    lemma_ready_commit_below(r, r.log.len() as int);
}

proof fn lemma_ready_commit_below(r: ReplicaView, n: int)
    requires
        r.log.len() <= usize::MAX,
        n <= r.log.len(),
        forall|k: int| k > n ==> !#[trigger] r.can_commit(k),
    ensures
        exists|c: usize| r.is_ready_commit(c),
    decreases n - r.commit_index,
{
    if n <= r.commit_index {
        assert(r.is_ready_commit(r.commit_index));
    } else if r.can_commit(n) {
        assert(r.is_ready_commit(n as usize));
    } else {
        lemma_ready_commit_below(r, n - 1);
    }
}

/// What is applied is committed, what is committed is in the log, and the value is the sum of the
/// changes that are applied.
pub open spec fn consistent(r: ReplicaView) -> bool {
    &&& r.last_applied <= r.commit_index < r.log.len()
    &&& r.value == crate::model::delta_sum(r.log, 0, r.last_applied as int)
}

proof fn lemma_same_changes_same_sum(a: Seq<Log>, b: Seq<Log>, to: int)
    requires
        to < a.len(),
        to < b.len(),
        a.take(to + 1) == b.take(to + 1),
    ensures
        crate::model::delta_sum(a, 0, to) == crate::model::delta_sum(b, 0, to),
    decreases to,
{
    if to > 0 {
        assert(a.take(to) =~= a.take(to + 1).take(to));
        assert(b.take(to) =~= b.take(to + 1).take(to));
        lemma_same_changes_same_sum(a, b, to - 1);
        assert(a[to] == a.take(to + 1)[to]);
        assert(b[to] == b.take(to + 1)[to]);
    }
}

proof fn lemma_sums_add_up(log: Seq<Log>, from: int, middle: int, to: int)
    requires
        from <= middle <= to,
    ensures
        crate::model::delta_sum(log, from, middle) + crate::model::delta_sum(log, middle, to)
            == crate::model::delta_sum(log, from, to),
    decreases to - middle,
{
    if middle < to {
        lemma_sums_add_up(log, from, middle, to - 1);
    }
}

/// A replica that starts is consistent, has no indices, and has counted nobody.
pub proof fn starts_consistent(id: usize, peers: Seq<usize>)
    ensures
        consistent(ReplicaView::started(id, peers)),
        indices_on_leaders_only(ReplicaView::started(id, peers)),
        tallies_in_cluster(ReplicaView::started(id, peers)),
{
}

/// One turn keeps a replica consistent, as long as no leader overwrites what is committed: the
/// commit index does not fall, what was committed stays in the log, and everything that is
/// committed at the end is applied.
pub proof fn turns_keep_replicas_consistent(r: ReplicaView, event: EventView)
    requires
        r.wf(),
        consistent(r),
        r.can_handle(event),
        !overwrites(r, event, r.commit_index as int),
        r.handled(event).replica.log.len() <= usize::MAX,
        r.handled(event).replica.can_apply(),
    ensures
        ({
            let after = r.handled(event).replica.applied();
            &&& consistent(after)
            &&& after.commit_index >= r.commit_index
            &&& after.last_applied == after.commit_index
            &&& after.log.take(r.commit_index + 1) == r.log.take(r.commit_index + 1)
        }),
{
    let c = r.commit_index as int;
    let handled = r.handled(event).replica;
    uncontradicted_entries_stay(r, event, c);
    assert(handled.commit_index >= r.commit_index);
    assert(handled.commit_index < handled.log.len());
    let la = r.last_applied as int;
    assert(handled.log.take(la + 1) =~= handled.log.take(c + 1).take(la + 1));
    assert(r.log.take(la + 1) =~= r.log.take(c + 1).take(la + 1));
    lemma_same_changes_same_sum(handled.log, r.log, la);
    some_commit_is_ready(handled);
    lemma_sums_add_up(handled.log, 0, la, handled.ready_commit() as int);
}

/// Two consistent replicas that applied equally many entries, and whose logs agree on them, have
/// the same value.
pub proof fn same_log_same_value(a: ReplicaView, b: ReplicaView)
    requires
        consistent(a),
        consistent(b),
        a.last_applied == b.last_applied,
        a.log.take(a.last_applied + 1) == b.log.take(b.last_applied + 1),
    ensures
        a.value == b.value,
{
    lemma_same_changes_same_sum(a.log, b.log, a.last_applied as int);
}

/// What is committed in a consistent replica can be applied, if no sum on the way leaves the range
/// of the value.
pub proof fn committed_changes_can_be_applied(r: ReplicaView)
    requires
        r.wf(),
        consistent(r),
        forall|k: int|
            r.last_applied < k < r.log.len() ==> i32::MIN <= #[trigger] crate::model::delta_sum(
                r.log,
                0,
                k,
            ) <= i32::MAX,
    ensures
        r.can_apply(),
{
    some_commit_is_ready(r);
    let c = r.ready_commit();
    assert forall|k: int| r.last_applied < k <= c implies i32::MIN <= r.value
        + #[trigger] crate::model::delta_sum(r.log, r.last_applied as int, k) <= i32::MAX by {
        lemma_sums_add_up(r.log, 0, r.last_applied as int, k);
        assert(i32::MIN <= crate::model::delta_sum(r.log, 0, k) <= i32::MAX);
    }
}

/// A change that a leader received in this term and that a majority holds is committed, and the
/// leader's value is the sum of all changes up to it at least.
pub proof fn changes_that_a_majority_holds_are_applied(r: ReplicaView, n: int)
    requires
        r.wf(),
        consistent(r),
        r.can_apply(),
        r.state == State::Leader,
        0 <= n < r.log.len(),
        r.log[n].term == r.current_term,
        crate::model::held_by_majority(r.holders(n).len(), r.peers.len()),
    ensures
        r.applied().last_applied == r.applied().commit_index >= n,
        r.applied().value == crate::model::delta_sum(
            r.log,
            0,
            r.applied().commit_index as int,
        ),
{
    some_commit_is_ready(r);
    let c = r.ready_commit();
    if c < n {
        assert(!r.can_commit(n));
    }
    lemma_sums_add_up(r.log, 0, r.last_applied as int, c as int);
}

// ----------------------------------------------------------------------------------------------
// Replication

/// What a leader sends to its peer at position `i`, and what a follower makes of it.
pub open spec fn offered(leader: ReplicaView, follower: ReplicaView, i: int) -> Step {
    follower.told_as_follower(leader.append_request(leader.peers[i]))
}

/// The follower turns down what the leader sends to its peer at position `i`.
pub open spec fn refuses_offer(leader: ReplicaView, follower: ReplicaView, i: int) -> bool {
    let next = leader.next_index[leader.peers[i]];
    follower.refuses_append(
        leader.current_term,
        (next - 1) as usize,
        leader.log[next - 1].term,
    )
}

/// Logs that have an entry of the same term at the same position are the same up to it.
pub open spec fn logs_match(a: Seq<Log>, b: Seq<Log>) -> bool {
    forall|k: int|
        0 <= k < a.len() && k < b.len() && (#[trigger] a[k]).term == (#[trigger] b[k]).term
            ==> a.take(k + 1) == b.take(k + 1)
}

/// What the first `j` of the entries that a leader's log holds from `next` on make of another log.
spec fn taken(log: Seq<Log>, source: Seq<Log>, next: int, j: int) -> Seq<Log> {
    crate::model::merged(log, source.subrange(next, next + j))
}

proof fn lemma_taken_next(log: Seq<Log>, source: Seq<Log>, next: int, j: int)
    requires
        0 <= next,
        0 <= j,
        next + j < source.len(),
    ensures
        taken(log, source, next, j + 1) == crate::model::merged_entry(
            taken(log, source, next, j),
            source[next + j],
        ),
{
    let entries = source.subrange(next, next + j + 1);
    assert(entries.drop_last() =~= source.subrange(next, next + j));
}

proof fn lemma_taken_terms(log: Seq<Log>, source: Seq<Log>, next: int, j: int)
    requires
        1 <= next <= log.len(),
        0 <= j,
        next + j <= source.len(),
        forall|k: int| 0 <= k < source.len() ==> (#[trigger] source[k]).index == k,
        log[next - 1].term == source[next - 1].term,
    ensures
        ({
            let result = taken(log, source, next, j);
            &&& result.len() >= next + j
            &&& result == log || result.len() == next + j
            &&& result.take(next) == log.take(next)
            &&& forall|k: int|
                next - 1 <= k < next + j ==> (#[trigger] result[k]).term == source[k].term
        }),
    decreases j,
{
    if j == 0 {
        assert(source.subrange(next, next) =~= Seq::empty());
    } else {
        lemma_taken_terms(log, source, next, j - 1);
        lemma_taken_next(log, source, next, j - 1);
        let before = taken(log, source, next, j - 1);
        let result = taken(log, source, next, j);
        let at = next + j - 1;
        assert(source[at].index == at);
        assert(result.take(next) =~= before.take(next));
    }
}

proof fn lemma_taken_matches(log: Seq<Log>, source: Seq<Log>, next: int, j: int)
    requires
        1 <= next <= log.len(),
        0 <= j,
        next + j <= source.len(),
        forall|k: int| 0 <= k < source.len() ==> (#[trigger] source[k]).index == k,
        log[next - 1].term == source[next - 1].term,
        logs_match(log, source),
    ensures
        ({
            let result = taken(log, source, next, j);
            ||| result == log && log.len() >= next + j && log.take(next + j) == source.take(next + j)
            ||| result == source.take(next + j)
        }),
    decreases j,
{
    if j == 0 {
        assert(source.subrange(next, next) =~= Seq::empty());
        assert(log.take(next - 1 + 1) == source.take(next - 1 + 1));
    } else {
        lemma_taken_matches(log, source, next, j - 1);
        lemma_taken_next(log, source, next, j - 1);
        let before = taken(log, source, next, j - 1);
        let result = taken(log, source, next, j);
        let at = next + j - 1;
        let entry = source[at];
        assert(entry.index == at);
        assert(source.take(at).push(entry) =~= source.take(at + 1));
        if before.len() > at {
            if log[at].term == entry.term {
                assert(log.take(at + 1) == source.take(at + 1));
            } else {
                assert(result =~= source.take(at + 1));
            }
        } else {
            assert(before =~= source.take(at));
        }
    }
}

/// A follower that takes what a leader offers then has, from the entry before the offered ones to
/// the end of the leader's log, entries of the same terms as the leader. It tells the leader so,
/// and the leader notes that the whole of its log is there.
pub proof fn accepted_offers_replicate(leader: ReplicaView, follower: ReplicaView, i: int)
    requires
        leader.wf(),
        follower.wf(),
        leader.can_heartbeat(),
        0 <= i < leader.peers.len(),
        !refuses_offer(leader, follower, i),
        offered(leader, follower, i).replica.log.len() <= usize::MAX,
    ensures
        ({
            let next = leader.next_index[leader.peers[i]] as int;
            let after = offered(leader, follower, i).replica;
            let answer = after.append_answer(true);
            let noted = leader.told_as_leader(answer);
            &&& after.log.len() >= leader.log.len()
            &&& after.log == follower.log || after.log.len() == leader.log.len()
            &&& forall|k: int|
                next - 1 <= k < leader.log.len() ==> (#[trigger] after.log[k]).term
                    == leader.log[k].term
            &&& offered(leader, follower, i).sent == seq![Sent { to: leader.id, message: answer }]
            &&& noted.match_index[follower.id] == after.last_index() >= leader.last_index()
            &&& noted.next_index[follower.id] == after.log.len()
            &&& noted.state == leader.state && noted.current_term == leader.current_term
        }),
{
    let next = leader.next_index[leader.peers[i]] as int;
    let j = leader.log.len() - next;
    assert(leader.next_index.contains_key(leader.peers[i]));
    lemma_taken_terms(follower.log, leader.log, next, j);
}

/// If the logs match, a follower that takes what a leader offers then holds the leader's whole log,
/// and the logs still match.
pub proof fn accepted_offers_copy_the_log(leader: ReplicaView, follower: ReplicaView, i: int)
    requires
        leader.wf(),
        follower.wf(),
        leader.can_heartbeat(),
        0 <= i < leader.peers.len(),
        !refuses_offer(leader, follower, i),
        logs_match(follower.log, leader.log),
    ensures
        ({
            let after = offered(leader, follower, i).replica;
            &&& leader.log.is_prefix_of(after.log)
            &&& after.log == follower.log || after.log == leader.log
            &&& logs_match(after.log, leader.log)
        }),
{
    let next = leader.next_index[leader.peers[i]] as int;
    let j = leader.log.len() - next;
    assert(leader.next_index.contains_key(leader.peers[i]));
    lemma_taken_matches(follower.log, leader.log, next, j);
    let after = offered(leader, follower, i).replica;
    assert(leader.log.take(next + j) =~= leader.log);
    if after.log == follower.log {
        assert forall|k: int| 0 <= k < leader.log.len() implies leader.log[k] == after.log[k] by {
            assert(after.log.take(next + j)[k] == leader.log[k]);
        }
    }
}

/// Logs that match each other still do after a follower took what a leader offered.
pub proof fn accepted_offers_keep_logs_matching(
    leader: ReplicaView,
    follower: ReplicaView,
    i: int,
    other: Seq<Log>,
)
    requires
        leader.wf(),
        follower.wf(),
        leader.can_heartbeat(),
        0 <= i < leader.peers.len(),
        !refuses_offer(leader, follower, i),
        logs_match(follower.log, leader.log),
        logs_match(follower.log, other),
        logs_match(leader.log, other),
    ensures
        logs_match(offered(leader, follower, i).replica.log, other),
{
    accepted_offers_copy_the_log(leader, follower, i);
}

/// A leader that appends a change keeps its log matching another one, unless that one holds an
/// entry of the leader's own term at the new position.
pub proof fn appended_changes_keep_logs_matching(leader: ReplicaView, delta: i32, other: Seq<Log>)
    requires
        leader.wf(),
        logs_match(leader.log, other),
        leader.log.len() < other.len() ==> other[leader.log.len() as int].term
            != leader.current_term,
    ensures
        logs_match(leader.appended(delta).log, other),
{
    let log = leader.appended(delta).log;
    assert forall|k: int|
        0 <= k < log.len() && k < other.len() && (#[trigger] log[k]).term == (
        #[trigger] other[k]).term implies log.take(k + 1) == other.take(k + 1) by {
        assert(leader.log[k].term == other[k].term);
        assert(log.take(k + 1) =~= leader.log.take(k + 1));
    }
}

/// Consistent replicas whose logs match, and whose last applied entries have the same position and
/// the same term, have the same value.
pub proof fn matching_logs_same_value(a: ReplicaView, b: ReplicaView)
    requires
        consistent(a),
        consistent(b),
        logs_match(a.log, b.log),
        a.last_applied == b.last_applied,
        a.log[a.last_applied as int].term == b.log[b.last_applied as int].term,
    ensures
        a.value == b.value,
{
    same_log_same_value(a, b);
}

/// A follower that takes what a leader offers reaches the leader's value in that turn, if the logs
/// match, it was not ahead of the leader, and nothing that it committed is contradicted.
pub proof fn followers_reach_the_leaders_value(
    leader: ReplicaView,
    follower: ReplicaView,
    i: int,
)
    requires
        leader.wf(),
        follower.wf(),
        leader.can_heartbeat(),
        0 <= i < leader.peers.len(),
        follower.state == State::Follower,
        follower.peers.contains(leader.id),
        !refuses_offer(leader, follower, i),
        logs_match(follower.log, leader.log),
        consistent(leader),
        leader.last_applied == leader.commit_index,
        consistent(follower),
        follower.commit_index <= leader.commit_index,
        !overwrites(
            follower,
            EventView::Protocol(leader.append_request(leader.peers[i])),
            follower.commit_index as int,
        ),
        offered(leader, follower, i).replica.log.len() <= usize::MAX,
        offered(leader, follower, i).replica.can_apply(),
    ensures
        offered(leader, follower, i).replica.applied().commit_index == leader.commit_index,
        offered(leader, follower, i).replica.applied().value == leader.value,
{
    let event = EventView::Protocol(leader.append_request(leader.peers[i]));
    let after = offered(leader, follower, i).replica;
    assert(follower.handled(event).replica == after);
    turns_keep_replicas_consistent(follower, event);
    accepted_offers_copy_the_log(leader, follower, i);
    let c = leader.commit_index as int;
    some_commit_is_ready(after);
    assert(after.log[c] == leader.log[c]);
    matching_logs_same_value(after.applied(), leader);
}

/// A follower that turns an offer down stays as it is and says so. A leader of the same or a later
/// term then offers one entry more, unless it offered all but the first already; a leader whose
/// term is over follows.
pub proof fn refused_offers_are_widened(leader: ReplicaView, follower: ReplicaView, i: int)
    requires
        leader.wf(),
        follower.wf(),
        leader.can_heartbeat(),
        0 <= i < leader.peers.len(),
        follower.id == leader.peers[i],
        refuses_offer(leader, follower, i),
    ensures
        ({
            let id = follower.id;
            let answer = follower.append_answer(false);
            let noted = leader.told_as_leader(answer);
            let next = leader.next_index[id];
            &&& offered(leader, follower, i) == follower.saying(leader.id, answer)
            &&& follower.current_term > leader.current_term ==> noted == leader.became_follower(
                follower.current_term,
            )
            &&& follower.current_term <= leader.current_term ==> noted.next_index[id] == next - 1
            &&& follower.current_term <= leader.current_term && next > 1 ==> {
                &&& noted.can_heartbeat()
                &&& noted.append_request(id) == MessageView::AppendEntryRequest {
                    term: leader.current_term,
                    from_id: leader.id,
                    prev_log_index: (next - 2) as usize,
                    prev_log_term: leader.log[next - 2].term,
                    entries: seq![leader.log[next - 1]] + leader.log.subrange(
                        next as int,
                        leader.log.len() as int,
                    ),
                    commit_index: leader.commit_index,
                }
            }
        }),
{
    let id = follower.id;
    let next = leader.next_index[id];
    assert(leader.next_index.contains_key(leader.peers[i]));
    assert(seq![leader.log[next - 1]] + leader.log.subrange(next as int, leader.log.len() as int)
        =~= leader.log.subrange(next - 1, leader.log.len() as int));
}

/// An offer of all entries but the first is taken by every follower of no later term whose first
/// entry is of the same term.
pub proof fn widest_offers_are_taken(leader: ReplicaView, follower: ReplicaView, i: int)
    requires
        leader.wf(),
        follower.wf(),
        0 <= i < leader.peers.len(),
        leader.next_index[leader.peers[i]] == 1,
        follower.current_term <= leader.current_term,
        follower.log[0].term == leader.log[0].term,
    ensures
        !refuses_offer(leader, follower, i),
{
}

/// A request that arrives a second time, its entries at consecutive positions from
/// `prev_log_index` on, changes nothing more and gets the same answer.
pub proof fn repeated_requests_change_nothing(
    r: ReplicaView,
    from_id: usize,
    term: usize,
    prev_log_index: usize,
    prev_log_term: usize,
    entries: Seq<Log>,
    commit_index: usize,
)
    requires
        r.wf(),
        forall|j: int|
            0 <= j < entries.len() ==> (#[trigger] entries[j]).index == prev_log_index + 1 + j,
    ensures
        ({
            let once = r.append_requested(
                from_id,
                term,
                prev_log_index,
                prev_log_term,
                entries,
                commit_index,
            );
            once.replica.append_requested(
                from_id,
                term,
                prev_log_index,
                prev_log_term,
                entries,
                commit_index,
            ) == once
        }),
{
    if !r.refuses_append(term, prev_log_index, prev_log_term) {
        let next = prev_log_index + 1;
        lemma_merged_run(r.log, entries, next);
        let log = crate::model::merged(r.log, entries);
        assert(log[prev_log_index as int] == log.take(next)[prev_log_index as int]);
        assert(r.log[prev_log_index as int] == r.log.take(next)[prev_log_index as int]);
        lemma_merged_known(log, entries);
    }
}

proof fn lemma_merged_run(log: Seq<Log>, entries: Seq<Log>, next: int)
    requires
        0 <= next <= log.len(),
        forall|j: int| 0 <= j < entries.len() ==> (#[trigger] entries[j]).index == next + j,
    ensures
        ({
            let result = crate::model::merged(log, entries);
            &&& result.len() >= next + entries.len()
            &&& result.take(next) == log.take(next)
            &&& forall|j: int|
                0 <= j < entries.len() ==> result[next + j].term == (#[trigger] entries[j]).term
        }),
    decreases entries.len(),
{
    if entries.len() > 0 {
        let fewer = entries.drop_last();
        assert forall|j: int| 0 <= j < fewer.len() implies (#[trigger] fewer[j]).index == next
            + j by {
            assert(fewer[j] == entries[j]);
        }
        lemma_merged_run(log, fewer, next);
        let before = crate::model::merged(log, fewer);
        let result = crate::model::merged(log, entries);
        let at = next + entries.len() - 1;
        assert(entries.last() == entries[entries.len() - 1]);
        assert(result.take(next) =~= before.take(next));
        assert forall|j: int| 0 <= j < entries.len() implies result[next + j].term == (
        #[trigger] entries[j]).term by {
            if j < fewer.len() {
                assert(fewer[j] == entries[j]);
                assert(result[next + j] == before[next + j]);
            }
        }
    }
}

proof fn lemma_merged_known(log: Seq<Log>, entries: Seq<Log>)
    requires
        forall|j: int|
            0 <= j < entries.len() ==> (#[trigger] entries[j]).index < log.len()
                && log[entries[j].index as int].term == entries[j].term,
    ensures
        crate::model::merged(log, entries) == log,
    decreases entries.len(),
{
    if entries.len() > 0 {
        let fewer = entries.drop_last();
        assert forall|j: int| 0 <= j < fewer.len() implies (#[trigger] fewer[j]).index < log.len()
            && log[fewer[j].index as int].term == fewer[j].term by {
            assert(fewer[j] == entries[j]);
        }
        lemma_merged_known(log, fewer);
        assert(entries.last() == entries[entries.len() - 1]);
    }
}

} // verus!
