//! What holds of the control log whatever is asked of a node.

use vstd::prelude::*;
use crate::consensus::{
    liveness_at, timeout_ms, ConsensusView, ControlConsensusConfig, ControlPeerLivenessStatus,
    LogFileView, LogView, PeerHeartbeatState, CONTROL_LOG_MAGIC, CONTROL_LOG_SCHEMA_VERSION,
};
use crate::consensus_leader::{
    accepting, append_answered, install_answered, lemma_prepared, lemma_proposal_ended, next_after,
    proposal_begun, proposal_ended, uncommitted_entry, ControlProposal, ReplyView,
};
use crate::consensus_recovery::{
    config_error, fresh_log, last_of, lemma_accepted_log, lemma_term_aside, log_entries_error,
    log_error, log_of, opened, restore_error, restore_step, restored_state, restoring_node, starting_node, RECOVERY_LOG_NAME,
};
use crate::consensus_rules::{
    after_failure, after_success, append_finished, append_step, committed_applied, contacted,
    entries_taken, entry_applied, failover_candidate, install_step, last_index, lemma_append_sound,
    lemma_committed_sound, lemma_entries_taken, lemma_entry_taken, lemma_install_sound, log_ordered,
    lemma_state_noted, log_sound, next_other, nth_index, offset_of, quorum_of, replayed,
    state_noted, voters_of, write_failed,
};
use crate::control::{bumped, ControlView, NodeView};
use crate::control_laws::{law_valid_state, transition_sound};
use crate::control_ownership::{find_node, find_text, is_text};
use crate::control_validity::{member_ids, state_error};
use crate::lists::lemma_first_index;
use crate::rpc_types::{
    AppendRequestView, AppendResponseView, CommandView, EntryView, InstallRequestView,
    InstallResponseView,
};
use crate::text::trimmed;

verus! {

/// What a follower is asked for neither lowers its term nor what it holds committed.
pub proof fn law_follower_never_goes_back(
    v: ConsensusView,
    append: AppendRequestView,
    install: InstallRequestView,
    now_ms: u64,
)
    requires
        log_sound(v),
    ensures
        append_step(v, append, now_ms).0.commit_index >= v.commit_index,
        append_step(v, append, now_ms).0.current_term >= v.current_term,
        append_step(v, append, now_ms).0.snapshot_last_index >= v.snapshot_last_index,
        install_step(v, install, now_ms).0.commit_index >= v.commit_index,
        install_step(v, install, now_ms).0.current_term >= v.current_term,
        install_step(v, install, now_ms).0.snapshot_last_index >= v.snapshot_last_index,
{
    lemma_append_never_goes_back(v, append, now_ms);
}

proof fn lemma_append_never_goes_back(v: ConsensusView, request: AppendRequestView, now_ms: u64)
    requires
        log_sound(v),
    ensures
        append_step(v, request, now_ms).0.commit_index >= v.commit_index,
        append_step(v, request, now_ms).0.current_term >= v.current_term,
        append_step(v, request, now_ms).0.snapshot_last_index >= v.snapshot_last_index,
{
    let leader = trimmed(request.leader_node_id);
    let w = contacted(v, leader, request.term, now_ms);
    lemma_entries_taken(w, request.prev_log_index, request.entries, request.entries.len());
    let u = entries_taken(w, request.prev_log_index, request.entries, request.entries.len()).0;
    if request.leader_commit > u.commit_index {
        lemma_committed_sound(raised_to(u, request.leader_commit), now_ms);
    }
}

/// What a leader does with a proposal and with the answers of its peers lowers neither what it holds
/// committed nor where its log starts, nor its term, as long as the proposal is of that term or a
/// later one.
pub proof fn law_leader_never_goes_back(
    v: ConsensusView,
    command: CommandView,
    proposal: ControlProposal,
    replies: Seq<ReplyView>,
    now_ms: u64,
)
    requires
        log_ordered(v),
    ensures
        proposal_begun(v, command, now_ms).0.commit_index == v.commit_index,
        proposal_begun(v, command, now_ms).0.current_term >= v.current_term,
        proposal_begun(v, command, now_ms).0.snapshot_last_index == v.snapshot_last_index,
        proposal_ended(v, proposal, replies, now_ms).0.commit_index >= v.commit_index,
        proposal.term >= v.current_term ==> proposal_ended(
            v,
            proposal,
            replies,
            now_ms,
        ).0.current_term >= v.current_term,
        proposal_ended(v, proposal, replies, now_ms).0.snapshot_last_index
            == v.snapshot_last_index,
{
    lemma_prepared(v, command, now_ms);
    lemma_proposal_ended(v, proposal, replies, now_ms);
    lemma_committed_sound(quorum_reached(v, proposal, replies), now_ms);
}

/// What a peer answers, or that it does not, changes neither the log of a node nor its control state,
/// and never lowers its term.
pub proof fn law_answers_keep_the_log(
    v: ConsensusView,
    peer: Seq<char>,
    sent_term: u64,
    appended: Result<AppendResponseView, Seq<char>>,
    installed: Result<InstallResponseView, Seq<char>>,
    attempt: usize,
    now_ms: u64,
)
    ensures
        ({
            let w = append_answered(v, peer, sent_term, appended, attempt, now_ms).0;
            log_of(w) == (LogView { current_term: w.current_term, ..log_of(v) }) && w.control
                == v.control && w.current_term >= v.current_term
        }),
        ({
            let w = install_answered(v, peer, sent_term, installed, attempt, now_ms).0;
            log_of(w) == (LogView { current_term: w.current_term, ..log_of(v) }) && w.control
                == v.control && w.current_term >= v.current_term
        }),
{
}

/// A log that is sound stays sound, whatever a follower is asked for, whatever is proposed, and
/// whatever comes of a proposal whose entry is in the log.
pub proof fn law_log_stays_sound(
    v: ConsensusView,
    append: AppendRequestView,
    install: InstallRequestView,
    command: CommandView,
    proposal: ControlProposal,
    replies: Seq<ReplyView>,
    now_ms: u64,
)
    requires
        log_sound(v),
    ensures
        log_sound(append_step(v, append, now_ms).0),
        log_sound(install_step(v, install, now_ms).0),
        log_sound(proposal_begun(v, command, now_ms).0),
        proposal.index <= last_index(v) ==> log_sound(
            proposal_ended(v, proposal, replies, now_ms).0,
        ),
{
    lemma_append_sound(v, append, now_ms);
    lemma_install_sound(v, install, now_ms);
    lemma_prepared(v, command, now_ms);
    lemma_proposal_ended(v, proposal, replies, now_ms);
}

/// What is restored without an error is a sound log, whatever was saved.
pub proof fn law_restored_log_is_sound(
    v: ConsensusView,
    saved: ControlView,
    log: LogView,
    force_local_leader: bool,
    now_ms: u64,
)
    ensures
        restore_step(v, saved, log, force_local_leader, now_ms).1 is Ok ==> log_sound(
            restore_step(v, saved, log, force_local_leader, now_ms).0,
        ),
{
    let state = restored_state(v.local_node_id, saved, force_local_leader, now_ms);
    if restore_error(v.local_node_id, state, log) is None {
        let w = restoring_node(v, state, log, now_ms);
        lemma_term_aside(RECOVERY_LOG_NAME@, log, 1, log.entries.len());
        lemma_accepted_log(RECOVERY_LOG_NAME@, w);
        lemma_committed_sound(w, now_ms);
    }
}

proof fn lemma_replayed_valid(v: ConsensusView, now_ms: u64, n: nat)
    requires
        state_error(v.control) is None,
        replayed(v, now_ms, n).1 is Ok,
    ensures
        state_error(replayed(v, now_ms, n).0.control) is None,
    decreases n,
{
    if n > 0 && v.control.applied_log_index < v.commit_index {
        let i = offset_of(v, bumped(v.control.applied_log_index))->0;
        let control = entry_applied(v.control, v.entries[i], now_ms).0;
        lemma_replayed_valid(ConsensusView { control, ..v }, now_ms, (n - 1) as nat);
    }
}

proof fn lemma_committed_valid(v: ConsensusView, now_ms: u64)
    requires
        state_error(v.control) is None,
        committed_applied(v, now_ms).1 is Ok,
    ensures
        state_error(committed_applied(v, now_ms).0.control) is None,
{
    let pending = v.commit_index - v.control.applied_log_index;
    if pending > 0 {
        lemma_replayed_valid(v, now_ms, pending as nat);
    }
}

/// A valid control state stays valid through everything that a node does without an error, whatever
/// was replicated to it and whatever it restores.
pub proof fn law_control_state_stays_valid(
    v: ConsensusView,
    append: AppendRequestView,
    install: InstallRequestView,
    command: CommandView,
    proposal: ControlProposal,
    replies: Seq<ReplyView>,
    saved: ControlView,
    log: LogView,
    force_local_leader: bool,
    now_ms: u64,
)
    requires
        state_error(v.control) is None,
    ensures
        append_step(v, append, now_ms).1 is Ok ==> state_error(
            append_step(v, append, now_ms).0.control,
        ) is None,
        install_step(v, install, now_ms).1 is Ok ==> state_error(
            install_step(v, install, now_ms).0.control,
        ) is None,
        proposal_begun(v, command, now_ms).0.control == v.control,
        proposal_ended(v, proposal, replies, now_ms).1 is Ok ==> state_error(
            proposal_ended(v, proposal, replies, now_ms).0.control,
        ) is None,
        restore_step(v, saved, log, force_local_leader, now_ms).1 is Ok ==> state_error(
            restore_step(v, saved, log, force_local_leader, now_ms).0.control,
        ) is None,
{
    let leader = trimmed(append.leader_node_id);
    let w = contacted(v, leader, append.term, now_ms);
    let u = entries_taken(w, append.prev_log_index, append.entries, append.entries.len()).0;
    lemma_taken_control(w, append.prev_log_index, append.entries, append.entries.len());
    let raised = raised_to(u, append.leader_commit);
    if committed_applied(raised, now_ms).1 is Ok {
        lemma_committed_valid(raised, now_ms);
    }
    let agreed = quorum_reached(v, proposal, replies);
    if committed_applied(agreed, now_ms).1 is Ok {
        lemma_committed_valid(agreed, now_ms);
    }
    let state = restored_state(v.local_node_id, saved, force_local_leader, now_ms);
    if restore_error(v.local_node_id, state, log) is None {
        let w = restoring_node(v, state, log, now_ms);
        if committed_applied(w, now_ms).1 is Ok {
            lemma_committed_valid(w, now_ms);
        }
    }
}

proof fn lemma_taken_control(
    v: ConsensusView,
    prev_log_index: u64,
    entries: Seq<EntryView>,
    n: nat,
)
    requires
        n <= entries.len(),
    ensures
        entries_taken(v, prev_log_index, entries, n).0.control == v.control,
    decreases n,
{
    if n > 0 {
        lemma_taken_control(v, prev_log_index, entries, (n - 1) as nat);
    }
}

/// The node once a quorum has accepted a proposal.
pub open spec fn quorum_reached(
    v: ConsensusView,
    proposal: ControlProposal,
    replies: Seq<ReplyView>,
) -> ConsensusView {
    ConsensusView {
        commit_index: if v.commit_index < proposal.index {
            proposal.index
        } else {
            v.commit_index
        },
        peer_next_index: next_after(v.peer_next_index, accepting(replies), bumped(proposal.index)),
        ..v
    }
}

/// The node once it has heard what its leader holds committed.
pub open spec fn raised_to(v: ConsensusView, leader_commit: u64) -> ConsensusView {
    ConsensusView {
        commit_index: if leader_commit < last_index(v) {
            leader_commit
        } else {
            last_index(v)
        },
        ..v
    }
}

/// An append keeps every committed entry as it is; so does the write of the control state, until the
/// log is cut off behind the entry.
#[verifier::spinoff_prover]
pub proof fn law_committed_entries_stay(
    v: ConsensusView,
    request: AppendRequestView,
    now_ms: u64,
    index: u64,
)
    requires
        log_sound(v),
        v.snapshot_last_index < index <= v.commit_index,
    ensures
        offset_of(v, index) is Some,
        offset_of(append_step(v, request, now_ms).0, index) is Some,
        append_step(v, request, now_ms).0.entries[offset_of(
            append_step(v, request, now_ms).0,
            index,
        )->0] == v.entries[offset_of(v, index)->0],
        index > state_noted(v).0.snapshot_last_index ==> {
            &&& offset_of(state_noted(v).0, index) is Some
            &&& state_noted(v).0.entries[offset_of(state_noted(v).0, index)->0]
                == v.entries[offset_of(v, index)->0]
        },
{
    lemma_state_noted(v);
    lemma_append_keeps_snapshot(v, request, now_ms);
    let leader = trimmed(request.leader_node_id);
    let w = contacted(v, leader, request.term, now_ms);
    let n = request.entries.len();
    lemma_held_up_to_last(v, index);
    lemma_entries_taken(w, request.prev_log_index, request.entries, n);
    let u = entries_taken(w, request.prev_log_index, request.entries, n).0;
    let i = index - v.snapshot_last_index - 1;
    assert(u.entries[i] == v.entries[i]);
    lemma_finished_keeps(u, request.leader_commit, now_ms, index);
}

proof fn lemma_held_up_to_last(v: ConsensusView, index: u64)
    requires
        log_sound(v),
        index <= v.commit_index,
    ensures
        index > v.snapshot_last_index ==> offset_of(v, index) is Some,
{
    if v.entries.len() > 0 {
        assert(v.entries.last() == v.entries[v.entries.len() - 1]);
    }
}

/// An append that is carried out to its end keeps every entry.
proof fn lemma_finished_keeps(v: ConsensusView, leader_commit: u64, now_ms: u64, index: u64)
    requires
        log_sound(v),
        offset_of(v, index) is Some,
    ensures
        ({
            let after = append_finished(v, leader_commit, now_ms).0;
            &&& last_index(after) == last_index(v)
            &&& offset_of(after, index) is Some
            &&& after.entries[offset_of(after, index)->0] == v.entries[offset_of(v, index)->0]
        }),
{
    if leader_commit > v.commit_index {
        lemma_committed_sound(raised_to(v, leader_commit), now_ms);
    }
}

proof fn lemma_append_keeps_snapshot(v: ConsensusView, request: AppendRequestView, now_ms: u64)
    requires
        log_sound(v),
    ensures
        append_step(v, request, now_ms).0.snapshot_last_index == v.snapshot_last_index,
        append_step(v, request, now_ms).0.config == v.config,
{
    let leader = trimmed(request.leader_node_id);
    let w = contacted(v, leader, request.term, now_ms);
    lemma_entries_taken(w, request.prev_log_index, request.entries, request.entries.len());
    let u = entries_taken(w, request.prev_log_index, request.entries, request.entries.len()).0;
    if request.leader_commit > u.commit_index {
        lemma_committed_sound(raised_to(u, request.leader_commit), now_ms);
    }
}

/// The log is cut off only once the control state was written, and only as far as that state has
/// applied it: a node that is started from an older control state finds every entry that the state
/// lacks. After a write that failed it is not cut off until more is applied.
pub proof fn law_log_is_cut_off_after_save(
    v: ConsensusView,
    append: AppendRequestView,
    command: CommandView,
    proposal: ControlProposal,
    replies: Seq<ReplyView>,
    now_ms: u64,
)
    requires
        log_sound(v),
    ensures
        append_step(v, append, now_ms).0.snapshot_last_index == v.snapshot_last_index,
        proposal_begun(v, command, now_ms).0.snapshot_last_index == v.snapshot_last_index,
        proposal_ended(v, proposal, replies, now_ms).0.snapshot_last_index
            == v.snapshot_last_index,
        state_noted(v).1 is Ok,
        state_noted(v).0.control == v.control,
        state_noted(v).0.commit_index == v.commit_index,
        v.snapshot_last_index <= state_noted(v).0.snapshot_last_index
            <= v.control.applied_log_index,
        last_index(state_noted(v).0) == last_index(v),
        state_noted(write_failed(v)) == (write_failed(v), Ok::<(), Seq<char>>(())),
{
    lemma_append_keeps_snapshot(v, append, now_ms);
    lemma_prepared(v, command, now_ms);
    lemma_committed_sound(quorum_reached(v, proposal, replies), now_ms);
    lemma_state_noted(v);
}

/// After some entries of an append were taken, the log holds each of them.
proof fn lemma_taken_entries_held(
    v: ConsensusView,
    prev_log_index: u64,
    entries: Seq<EntryView>,
    n: nat,
    k: int,
)
    requires
        log_ordered(v),
        v.snapshot_last_index <= prev_log_index,
        prev_log_index + entries.len() <= u64::MAX,
        n <= entries.len(),
        0 <= k < n,
        entries_taken(v, prev_log_index, entries, n).1 is None,
    ensures
        entries[k].index == prev_log_index + 1 + k,
        holds_entry(entries_taken(v, prev_log_index, entries, n).0, entries[k]),
    decreases n,
{
    let w = entries_taken(v, prev_log_index, entries, (n - 1) as nat).0;
    lemma_entries_taken(v, prev_log_index, entries, (n - 1) as nat);
    let entry = entries[n - 1];
    lemma_entry_taken(w, nth_index(prev_log_index, n - 1), entry);
    if w.entries.len() > 0 {
        assert(w.entries.last() == w.entries[w.entries.len() - 1]);
    }
    if k < n - 1 {
        lemma_taken_entries_held(v, prev_log_index, entries, (n - 1) as nat, k);
    }
}

/// Whether the log holds an entry of the same index, term and command.
pub open spec fn holds_entry(v: ConsensusView, entry: EntryView) -> bool {
    match offset_of(v, entry.index) {
        Some(i) => v.entries[i].term == entry.term && v.entries[i].command == entry.command,
        None => false,
    }
}

/// A follower that accepts an append holds all its entries.
#[verifier::spinoff_prover]
pub proof fn law_accepted_entries_held(
    v: ConsensusView,
    request: AppendRequestView,
    now_ms: u64,
    k: int,
)
    requires
        log_sound(v),
        request.prev_log_index + request.entries.len() <= u64::MAX,
        0 <= k < request.entries.len(),
        append_step(v, request, now_ms).1 matches Ok(response) && response.success,
    ensures
        request.entries[k].index == request.prev_log_index + 1 + k,
        holds_entry(append_step(v, request, now_ms).0, request.entries[k]),
        last_index(append_step(v, request, now_ms).0) >= request.prev_log_index
            + request.entries.len(),
{
    let leader = trimmed(request.leader_node_id);
    let w = contacted(v, leader, request.term, now_ms);
    let n = request.entries.len();
    lemma_entries_taken(w, request.prev_log_index, request.entries, n);
    lemma_no_success_while_taking(w, request.prev_log_index, request.entries, n);
    let u = entries_taken(w, request.prev_log_index, request.entries, n).0;
    lemma_taken_entries_held(w, request.prev_log_index, request.entries, n, k);
    lemma_taken_entries_held(w, request.prev_log_index, request.entries, n, n - 1);
    lemma_finished_keeps(u, request.leader_commit, now_ms, request.entries[k].index);
    lemma_held_is_within(u, request.entries[n - 1]);
}

proof fn lemma_held_is_within(v: ConsensusView, entry: EntryView)
    requires
        log_ordered(v),
        holds_entry(v, entry),
    ensures
        entry.index <= last_index(v),
{
    assert(v.entries.last() == v.entries[v.entries.len() - 1]);
}

/// An entry that ends an append never ends it with success.
proof fn lemma_no_success_while_taking(
    v: ConsensusView,
    prev_log_index: u64,
    entries: Seq<EntryView>,
    n: nat,
)
    ensures
        entries_taken(v, prev_log_index, entries, n).1 matches Some(Ok(response))
            ==> !response.success,
    decreases n,
{
    if n > 0 {
        lemma_no_success_while_taking(v, prev_log_index, entries, (n - 1) as nat);
    }
}

/// A message of an earlier term, or of a second leader in the same term, is refused with the term
/// of the node, which it leaves as it was.
pub proof fn law_stale_leader_refused(
    v: ConsensusView,
    request: AppendRequestView,
    now_ms: u64,
)
    requires
        request.term < v.current_term || request.term == v.current_term
            && v.control.leader_node_id is Some && v.control.leader_node_id != Some(
            trimmed(request.leader_node_id),
        ),
    ensures
        append_step(v, request, now_ms).0 == v,
        append_step(v, request, now_ms).1 matches Ok(response) && !response.success && response.term
            == v.current_term,
{
}

/// A snapshot of an earlier term, or of a second leader in the same term, changes nothing and is
/// not taken over.
pub proof fn law_stale_snapshot_refused(
    v: ConsensusView,
    request: InstallRequestView,
    now_ms: u64,
)
    requires
        request.term < v.current_term || request.term == v.current_term
            && v.control.leader_node_id is Some && v.control.leader_node_id != Some(
            trimmed(request.leader_node_id),
        ),
    ensures
        install_step(v, request, now_ms).0 == v,
        install_step(v, request, now_ms).1 matches Ok(response) ==> !response.success
            && response.term == v.current_term,
{
}

/// A snapshot that is taken over becomes the start of the log and all that is committed.
pub proof fn law_snapshot_taken_over(v: ConsensusView, request: InstallRequestView, now_ms: u64)
    requires
        log_sound(v),
        install_step(v, request, now_ms).1 matches Ok(response) && response.success,
    ensures
        install_step(v, request, now_ms).0.snapshot_last_index == request.snapshot_last_index,
        install_step(v, request, now_ms).0.commit_index == request.snapshot_last_index,
        install_step(v, request, now_ms).0.control.applied_log_index
            == request.snapshot_last_index,
        install_step(v, request, now_ms).0.current_term == request.term,
        request.snapshot_last_index >= v.commit_index,
        state_error(install_step(v, request, now_ms).0.control) is None,
{
}

/// A quorum is at least one and, where any member votes, no more than all that do.
pub proof fn law_quorum_can_be_met(v: ConsensusView)
    ensures
        1 <= quorum_of(v),
        voters_of(v).len() > 0 ==> quorum_of(v) <= voters_of(v).len(),
{
}

/// Any two quorums of the members that vote have a member in common.
pub proof fn law_quorums_overlap(v: ConsensusView, a: Set<Seq<char>>, b: Set<Seq<char>>)
    requires
        a.subset_of(voters_of(v).to_set()),
        b.subset_of(voters_of(v).to_set()),
        a.len() >= quorum_of(v),
        b.len() >= quorum_of(v),
    ensures
        exists|x: Seq<char>| a.contains(x) && b.contains(x),
{
    broadcast use vstd::seq_lib::seq_to_set_is_finite;

    let all = voters_of(v).to_set();
    voters_of(v).lemma_cardinality_of_set();
    vstd::set_lib::lemma_len_subset(a, all);
    vstd::set_lib::lemma_len_subset(b, all);
    vstd::set_lib::lemma_len_subset(a + b, all);
    vstd::set_lib::lemma_set_disjoint_lens(a, b);
    if !a.disjoint(b) {
        let x = choose|x: Seq<char>| a.contains(x) && b.contains(x);
        assert(a.contains(x) && b.contains(x));
    }
}

/// A proposal is committed only where a quorum accepted it and nobody answered with a higher term.
pub proof fn law_commit_needs_quorum(
    v: ConsensusView,
    proposal: ControlProposal,
    replies: Seq<ReplyView>,
    now_ms: u64,
)
    requires
        replies.len() < usize::MAX,
        proposal_ended(v, proposal, replies, now_ms).1 matches Ok(end)
            && end.outcome is Committed,
    ensures
        accepting(replies).len() + 1 >= proposal.quorum,
        crate::consensus_leader::highest_term(replies) <= proposal.term,
{
    lemma_accepting_len(replies);
}

proof fn lemma_accepting_len(replies: Seq<ReplyView>)
    ensures
        accepting(replies).len() <= replies.len(),
    decreases replies.len(),
{
    if replies.len() > 0 {
        lemma_accepting_len(replies.drop_last());
    }
}

/// Until it is committed, a command that is proposed again stands for the entry that waits, and no
/// second entry is made.
pub proof fn law_waiting_command_not_doubled(v: ConsensusView, command: CommandView, now_ms: u64)
    requires
        uncommitted_entry(v.entries, v.commit_index, command) is Some,
    ensures
        proposal_begun(v, command, now_ms).0.entries == v.entries,
        proposal_begun(v, command, now_ms).0.current_term == v.current_term,
        proposal_begun(v, command, now_ms).1 matches Ok(proposal) ==> proposal.request.entries
            == seq![uncommitted_entry(v.entries, v.commit_index, command)->0],
{
}

proof fn lemma_next_other(voters: Seq<Seq<char>>, leader: Seq<char>, at: int, offset: int)
    requires
        0 <= at,
        1 <= offset,
    ensures
        match next_other(voters, leader, at, offset) {
            Some(candidate) => candidate != leader && voters.contains(candidate),
            None => forall|d: int|
                offset <= d <= voters.len() ==> #[trigger] voters[(at + d) % (voters.len() as int)]
                    == leader,
        },
    decreases voters.len() + 1 - offset,
{
    if voters.len() > 0 && offset <= voters.len() {
        let place = (at + offset) % (voters.len() as int);
        assert(0 <= place < voters.len());
        if voters[place] == leader {
            lemma_next_other(voters, leader, at, offset + 1);
        } else {
            assert(voters.contains(voters[place]));
        }
    }
}

/// The node that takes over from a leader is one that votes. Where others do, it is not the leader
/// itself; where all names differ, it is the one after the leader.
pub proof fn law_failover_candidate(voters: Seq<Seq<char>>, leader: Seq<char>)
    requires
        voters.len() >= 2,
        voters.contains(leader),
    ensures
        failover_candidate(voters, Some(leader)) matches Some(candidate) ==> candidate != leader
            && voters.contains(candidate),
        voters.no_duplicates() ==> failover_candidate(voters, Some(leader)) == Some(
            voters[(voters.index_of(leader) + 1) % (voters.len() as int)],
        ),
{
    lemma_first_index(voters, is_text(leader));
    let i = choose|i: int| 0 <= i < voters.len() && voters[i] == leader;
    let at = find_text(voters, leader)->0;
    lemma_next_other(voters, leader, at, 1);
    if voters.no_duplicates() {
        let found = voters.index_of(leader);
        assert(voters[found] == leader);
        assert(found == at);
        let place = (at + 1) % (voters.len() as int);
        assert(place != at) by {
            if at + 1 < voters.len() {
                vstd::arithmetic::div_mod::lemma_small_mod((at + 1) as nat, voters.len());
            } else {
                vstd::arithmetic::div_mod::lemma_mod_self_0(voters.len() as int);
            }
        }
        assert(voters[place] != leader);
    }
}

/// A peer is tried a bounded number of times: the last try never asks for another after a failure.
pub proof fn law_last_attempt_ends(
    v: ConsensusView,
    peer: Seq<char>,
    sent_term: u64,
    detail: Seq<char>,
    attempt: usize,
    now_ms: u64,
)
    requires
        attempt + 1 == crate::consensus::CONTROL_SYNC_MAX_ATTEMPTS,
    ensures
        append_answered(v, peer, sent_term, Err(detail), attempt, now_ms).1 is Err,
        install_answered(v, peer, sent_term, Err(detail), attempt, now_ms).1 is Err,
{
}

/// A peer that has just answered is healthy, and one that has just failed to is not.
pub proof fn law_liveness_follows_answers(
    config: ControlConsensusConfig,
    heartbeats: Map<Seq<char>, PeerHeartbeatState>,
    peer: Seq<char>,
    now_ms: u64,
)
    requires
        timeout_ms(config.suspect_timeout_secs) > 0,
        timeout_ms(config.dead_timeout_secs) > 0,
    ensures
        liveness_at(config, after_success(heartbeats, peer, now_ms)[peer], now_ms)
            == ControlPeerLivenessStatus::Healthy,
        liveness_at(config, after_failure(heartbeats, peer, now_ms)[peer], now_ms)
            == ControlPeerLivenessStatus::Suspect || liveness_at(
            config,
            after_failure(heartbeats, peer, now_ms)[peer],
            now_ms,
        ) == ControlPeerLivenessStatus::Dead,
{
}

/// What holds of a node from the moment it is opened: its settings are usable, its log is sound and
/// its control state is valid.
pub open spec fn node_sound(v: ConsensusView) -> bool {
    &&& config_error(v.config) is None
    &&& log_sound(v)
    &&& state_error(v.control) is None
}

/// A sound node stays so through everything that it does without an error, for proposals whose entry
/// is in its log.
pub proof fn law_node_stays_sound(
    v: ConsensusView,
    append: AppendRequestView,
    install: InstallRequestView,
    command: CommandView,
    proposal: ControlProposal,
    replies: Seq<ReplyView>,
    saved: ControlView,
    log: LogView,
    force_local_leader: bool,
    now_ms: u64,
)
    requires
        node_sound(v),
    ensures
        append_step(v, append, now_ms).1 is Ok ==> node_sound(append_step(v, append, now_ms).0),
        install_step(v, install, now_ms).1 is Ok ==> node_sound(
            install_step(v, install, now_ms).0,
        ),
        node_sound(proposal_begun(v, command, now_ms).0),
        proposal.index <= last_index(v) && proposal_ended(v, proposal, replies, now_ms).1 is Ok
            ==> node_sound(proposal_ended(v, proposal, replies, now_ms).0),
        restore_step(v, saved, log, force_local_leader, now_ms).1 is Ok ==> node_sound(
            restore_step(v, saved, log, force_local_leader, now_ms).0,
        ),
        node_sound(state_noted(v).0),
        node_sound(write_failed(v)),
{
    law_log_stays_sound(v, append, install, command, proposal, replies, now_ms);
    law_control_state_stays_valid(
        v,
        append,
        install,
        command,
        proposal,
        replies,
        saved,
        log,
        force_local_leader,
        now_ms,
    );
    law_restored_log_is_sound(v, saved, log, force_local_leader, now_ms);
    lemma_append_keeps_snapshot(v, append, now_ms);
    lemma_prepared(v, command, now_ms);
    lemma_committed_sound(quorum_reached(v, proposal, replies), now_ms);
    lemma_state_noted(v);
    let state = restored_state(v.local_node_id, saved, force_local_leader, now_ms);
    if restore_error(v.local_node_id, state, log) is None {
        let w = restoring_node(v, state, log, now_ms);
        lemma_term_aside(RECOVERY_LOG_NAME@, log, 1, log.entries.len());
        lemma_accepted_log(RECOVERY_LOG_NAME@, w);
        lemma_committed_sound(w, now_ms);
    }
}

/// A node that is opened without an error is sound.
pub proof fn law_opened_node_is_sound(
    local: Seq<char>,
    path: Seq<char>,
    state: ControlView,
    persisted: Result<Option<LogFileView>, Seq<char>>,
    config: ControlConsensusConfig,
    now_ms: u64,
)
    ensures
        opened(local, path, state, persisted, config, now_ms) matches Ok(w) ==> node_sound(w),
{
    let log = match persisted {
        Ok(Some(file)) => file.log,
        _ => fresh_log(state),
    };
    if opened(local, path, state, persisted, config, now_ms) is Ok {
        let w = starting_node(local, path, state, log, config, now_ms);
        lemma_term_aside(path, log, 1, log.entries.len());
        lemma_accepted_log(path, w);
        lemma_committed_sound(w, now_ms);
        lemma_committed_valid(w, now_ms);
    }
}

proof fn lemma_no_entry_error(path: Seq<char>, v: ConsensusView, n: nat)
    requires
        log_sound(v),
        n <= v.entries.len(),
    ensures
        log_entries_error(path, log_of(v), n) is None,
    decreases n,
{
    if n > 0 {
        lemma_no_entry_error(path, v, (n - 1) as nat);
        assert(v.entries[n - 1].term > 0);
    }
}

/// What a sound node saves passes the check of logs: its term is at least one, its entries follow the
/// snapshot without a gap and have terms, and what is applied lies between the snapshot and what is
/// committed, which the log holds.
pub proof fn law_saved_log_is_accepted(path: Seq<char>, v: ConsensusView)
    requires
        log_sound(v),
    ensures
        log_error(path, log_of(v)) is None,
        log_of(v).current_term >= 1,
        forall|i: int|
            0 <= i < v.entries.len() ==> (#[trigger] log_of(v).entries[i]).term > 0
                && log_of(v).entries[i].index == nth_index(log_of(v).snapshot_last_index, i),
        log_of(v).snapshot_last_index <= v.control.applied_log_index <= log_of(v).commit_index
            <= last_of(log_of(v)),
{
    lemma_no_entry_error(path, v, v.entries.len());
}

proof fn lemma_local_lead_valid(s: ControlView, local: Seq<char>, now_ms: u64)
    requires
        state_error(s) is None,
        find_node(s.nodes, local) is Some,
        trimmed(local) == local,
    ensures
        state_error(restored_state(local, s, true, now_ms)) is None,
{
    let next = restored_state(local, s, true, now_ms);
    law_valid_state(s);
    law_valid_state(next);
    lemma_first_index(s.nodes, |n: NodeView| n.id == local);
    let i = find_node(s.nodes, local)->0;
    assert(member_ids(s.nodes)[i] == local);
    assert forall|k: int| 0 <= k < next.transitions.len() implies transition_sound(
        next,
        #[trigger] next.transitions[k],
    ) by {
        assert(transition_sound(s, s.transitions[k]));
    }
}

/// What was saved of a sound node that had applied all it held committed comes back as it was when
/// it is restored on a member, whatever that one has done since. Where that member is to lead, the
/// control state names it and the time, and is else the same; the term is at least that of the last
/// entry that was applied.
pub proof fn law_restore_brings_back(
    saved: ConsensusView,
    v: ConsensusView,
    force_local_leader: bool,
    now_ms: u64,
)
    requires
        log_sound(saved),
        state_error(saved.control) is None,
        find_node(saved.control.nodes, v.local_node_id) is Some,
        saved.control.applied_log_index == saved.commit_index,
        force_local_leader ==> trimmed(v.local_node_id) == v.local_node_id,
    ensures
        ({
            let step = restore_step(
                v,
                saved.control,
                log_of(saved),
                force_local_leader,
                now_ms,
            );
            let state = if force_local_leader {
                ControlView {
                    leader_node_id: Some(v.local_node_id),
                    updated_unix_ms: now_ms,
                    ..saved.control
                }
            } else {
                saved.control
            };
            &&& step.1 == Ok::<ControlView, Seq<char>>(state)
            &&& step.0.control == state
            &&& log_of(step.0) == (LogView {
                current_term: if saved.current_term < saved.control.applied_log_term {
                    saved.control.applied_log_term
                } else {
                    saved.current_term
                },
                ..log_of(saved)
            })
        }),
{
    law_saved_log_is_accepted(RECOVERY_LOG_NAME@, saved);
    if force_local_leader {
        lemma_local_lead_valid(saved.control, v.local_node_id, now_ms);
    }
}

/// A sound node that is started from what it wrote last, when it had applied all it held committed,
/// has the log and the control state it had.
pub proof fn law_restart_brings_back(v: ConsensusView, now_ms: u64)
    requires
        node_sound(v),
        v.control.applied_log_index == v.commit_index,
    ensures
        opened(
            v.local_node_id,
            v.log_path,
            v.control,
            Ok(
                Some(
                    LogFileView {
                        magic: CONTROL_LOG_MAGIC@,
                        schema_version: CONTROL_LOG_SCHEMA_VERSION,
                        log: log_of(v),
                    },
                ),
            ),
            v.config,
            now_ms,
        ) matches Ok(w) && log_of(w) == log_of(v) && w.control == v.control,
{
    law_saved_log_is_accepted(v.log_path, v);
}

} // verus!
