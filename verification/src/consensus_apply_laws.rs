//! What becomes of entries once they are in the control log: they are committed, applied one after the
//! other, and cut off; and who leads, who may lead, and who is heard.

use vstd::prelude::*;
use crate::consensus::{
    liveness_at, ConsensusView, ControlConsensusConfig, ControlPeerLivenessStatus,
    PeerHeartbeatState,
};
use crate::consensus_laws::raised_to;
use crate::consensus_rules::{
    append_step, command_effect, committed_applied, contacted, entries_taken, entry_applied,
    entry_taken, install_step, last_index, leader_stale, least_text, lemma_committed_sound,
    lemma_entries_above, lemma_entries_taken, lemma_entry_applied_index, lemma_replayed,
    log_ordered, log_sound, may_propose, nth_index, offset_of, proposal_refusal, replayed,
    state_noted, voters_of,
};
use crate::control::{
    bumped, ControlHandoffMutationOutcome, ControlMembershipMutationOutcome, ControlNodeStatus,
    ControlView, NodeView, ShardHandoffPhase,
};
use crate::control_commands::{
    activate_step, begin_step, join_step, leave_step, progress_step, recommission_step, remove_step,
};
use crate::control_ownership::find_node;
use crate::control_validity::state_error;
use crate::lists::{
    lemma_first_index, lemma_text_less_irreflexive, lemma_text_less_total,
    lemma_text_less_transitive,
};
use crate::rpc_types::{
    AppendRequestView, AppendResponseView, CommandView, EntryView, InstallRequestView, PayloadView,
};
use crate::text::{text_less, trimmed};

verus! {

/// A control state after one entry.
#[verifier::opaque]
pub open spec fn entry_folded(s: ControlView, entry: EntryView, now_ms: u64) -> ControlView {
    entry_applied(s, entry, now_ms).0
}

/// A control state after some entries, one after the other.
pub open spec fn entries_folded(s: ControlView, entries: Seq<EntryView>, now_ms: u64) -> ControlView {
    entries.fold_left(
        s,
        |state: ControlView, entry: EntryView| entry_folded(state, entry, now_ms),
    )
}

proof fn lemma_folded_front(s: ControlView, entries: Seq<EntryView>, now_ms: u64)
    requires
        entries.len() > 0,
    ensures
        entries_folded(s, entries, now_ms) == entries_folded(
            entry_folded(s, entries[0], now_ms),
            entries.skip(1),
            now_ms,
        ),
{
    let f = |state: ControlView, entry: EntryView| entry_folded(state, entry, now_ms);
    entries.lemma_fold_left_split(s, f, 1);
    let head = entries.subrange(0, 1);
    assert(head.drop_last() =~= Seq::<EntryView>::empty());
    assert(head.last() == entries[0]);
    assert(head.drop_last().fold_left(s, f) == s);
    assert(head.fold_left(s, f) == entry_folded(s, entries[0], now_ms));
    assert(entries.subrange(1, entries.len() as int) =~= entries.skip(1));
}

/// The control state that applying up to `n` entries leaves, where nothing goes wrong.
#[verifier::opaque]
spec fn replay_outcome(v: ConsensusView, now_ms: u64, n: nat) -> Option<ControlView> {
    match replayed(v, now_ms, n) {
        (w, Ok(_)) => Some(w.control),
        (_, Err(_)) => None,
    }
}

proof fn lemma_replay_step(v: ConsensusView, now_ms: u64, n: nat, at: int)
    requires
        n > 0,
        log_ordered(v),
        v.control.applied_log_index < v.commit_index,
        v.snapshot_last_index <= v.control.applied_log_index,
        at == v.control.applied_log_index - v.snapshot_last_index,
        at < v.entries.len(),
        v.snapshot_last_index + v.entries.len() < u64::MAX,
        replay_outcome(v, now_ms, n) is Some,
    ensures
        entry_folded(v.control, v.entries[at], now_ms).applied_log_index
            == v.control.applied_log_index + 1,
        replay_outcome(v, now_ms, n) == replay_outcome(
            ConsensusView { control: entry_folded(v.control, v.entries[at], now_ms), ..v },
            now_ms,
            (n - 1) as nat,
        ),
{
    reveal(replay_outcome);
    reveal(entry_folded);
    assert(offset_of(v, bumped(v.control.applied_log_index)) == Some(at));
    lemma_entry_applied_index(v.control, v.entries[at], now_ms);
}

proof fn lemma_replay_folds(v: ConsensusView, now_ms: u64, n: nat)
    requires
        log_ordered(v),
        v.snapshot_last_index + v.entries.len() < u64::MAX,
        v.snapshot_last_index <= v.control.applied_log_index <= v.commit_index,
        v.commit_index <= v.snapshot_last_index + v.entries.len(),
        n == v.commit_index - v.control.applied_log_index,
        replay_outcome(v, now_ms, n) is Some,
    ensures
        replay_outcome(v, now_ms, n) == Some(
            entries_folded(
                v.control,
                v.entries.subrange(
                    v.control.applied_log_index - v.snapshot_last_index,
                    v.commit_index - v.snapshot_last_index,
                ),
                now_ms,
            ),
        ),
        replay_outcome(v, now_ms, n)->0.applied_log_index == v.commit_index,
    decreases n,
{
    let from = v.control.applied_log_index - v.snapshot_last_index;
    let to = v.commit_index - v.snapshot_last_index;
    let piece = v.entries.subrange(from, to);
    if n == 0 {
        reveal(replay_outcome);
        assert(piece =~= Seq::<EntryView>::empty());
    } else {
        lemma_replay_step(v, now_ms, n, from);
        let w = ConsensusView {
            control: entry_folded(v.control, v.entries[from], now_ms),
            ..v
        };
        lemma_replay_folds(w, now_ms, (n - 1) as nat);
        assert(piece[0] == v.entries[from]);
        assert(piece.skip(1) =~= v.entries.subrange(from + 1, to));
        lemma_folded_front(v.control, piece, now_ms);
    }
}

/// Every entry that is committed is applied, once and in the order of the log, and none that is not.
pub proof fn law_committed_entries_are_applied_in_order(v: ConsensusView, now_ms: u64)
    requires
        log_sound(v),
        v.snapshot_last_index + v.entries.len() < u64::MAX,
        committed_applied(v, now_ms).1 is Ok,
    ensures
        committed_applied(v, now_ms).0.control == entries_folded(
            v.control,
            v.entries.subrange(
                v.control.applied_log_index - v.snapshot_last_index,
                v.commit_index - v.snapshot_last_index,
            ),
            now_ms,
        ),
        committed_applied(v, now_ms).0.control.applied_log_index == v.commit_index,
        committed_applied(v, now_ms).0.entries == v.entries,
{
    if v.entries.len() > 0 {
        assert(v.entries.last() == v.entries[v.entries.len() - 1]);
    }
    let pending = v.commit_index - v.control.applied_log_index;
    if pending > 0 {
        reveal(replay_outcome);
        lemma_replay_folds(v, now_ms, pending as nat);
        lemma_replayed(v, now_ms, pending as nat);
    } else {
        assert(v.entries.subrange(
            v.control.applied_log_index - v.snapshot_last_index,
            v.commit_index - v.snapshot_last_index,
        ) =~= Seq::<EntryView>::empty());
    }
}

/// An entry that is applied leaves its index and its term with the control state, and else what its
/// command makes of it; the time is that of the last entry that changed anything.
pub proof fn law_applied_entry_leaves_its_mark(s: ControlView, entry: EntryView, now_ms: u64)
    requires
        entry_applied(s, entry, now_ms).1 is Ok,
    ensures
        ({
            let w = entry_applied(s, entry, now_ms).0;
            let effect = command_effect(s, entry.command, now_ms);
            &&& w.applied_log_index == entry.index
            &&& w.applied_log_term == entry.term
            &&& effect.1 is Ok
            &&& effect.1 == Ok::<bool, Seq<char>>(true) ==> w.updated_unix_ms == now_ms
            &&& w == (ControlView {
                applied_log_index: entry.index,
                applied_log_term: entry.term,
                updated_unix_ms: w.updated_unix_ms,
                ..effect.0
            })
            &&& state_error(w) is None
        }),
{
}

/// A command to lead names the leader, and changes nothing else; one that names no node is refused.
pub proof fn law_set_leader_names_the_leader(s: ControlView, leader: Seq<char>, now_ms: u64)
    ensures
        ({
            let (w, done) = command_effect(
                s,
                CommandView::SetLeader { leader_node_id: leader },
                now_ms,
            );
            let known = exists|i: int|
                0 <= i < s.nodes.len() && (#[trigger] s.nodes[i]).id == leader;
            &&& done is Ok <==> trimmed(leader).len() > 0 && known
            &&& done is Ok ==> w == (ControlView { leader_node_id: Some(leader), ..s }) && done->Ok_0
                == (s.leader_node_id != Some(leader))
            &&& done is Err ==> w == s
        }),
{
    lemma_first_index(s.nodes, |node: NodeView| node.id == leader);
    match find_node(s.nodes, leader) {
        Some(i) => {
            assert(s.nodes[i].id == leader);
        },
        None => {
            assert forall|i: int| 0 <= i < s.nodes.len() implies (#[trigger] s.nodes[i]).id
                != leader by {
                assert(!(|node: NodeView| node.id == leader)(s.nodes[i]));
            }
        },
    }
}

/// A follower that accepts an append holds committed what its leader does, as far as its log goes, and
/// has applied it; what it held committed stays so.
pub proof fn law_follower_commits_what_its_leader_does(
    f: ConsensusView,
    request: AppendRequestView,
    now_ms: u64,
)
    requires
        log_sound(f),
        f.control.applied_log_index == f.commit_index,
        append_step(f, request, now_ms).1 matches Ok(response) && response.success,
    ensures
        ({
            let w = append_step(f, request, now_ms).0;
            let reached = if request.leader_commit < last_index(w) {
                request.leader_commit
            } else {
                last_index(w)
            };
            &&& w.commit_index == (if reached < f.commit_index {
                f.commit_index
            } else {
                reached
            })
            &&& w.control.applied_log_index == w.commit_index
            &&& append_step(f, request, now_ms).1->Ok_0.match_index == last_index(w)
            &&& append_step(f, request, now_ms).1->Ok_0.term == w.current_term
        }),
{
    let leader = trimmed(request.leader_node_id);
    let w = contacted(f, leader, request.term, now_ms);
    lemma_entries_taken(w, request.prev_log_index, request.entries, request.entries.len());
    lemma_taking_is_no_success(w, request.prev_log_index, request.entries, request.entries.len());
    let u = entries_taken(w, request.prev_log_index, request.entries, request.entries.len()).0;
    if request.leader_commit > u.commit_index {
        let x = raised_to(u, request.leader_commit);
        lemma_committed_sound(x, now_ms);
        let pending = x.commit_index - x.control.applied_log_index;
        if pending > 0 {
            lemma_replayed(x, now_ms, pending as nat);
        }
    }
}

proof fn lemma_taking_is_no_success(
    v: ConsensusView,
    prev_log_index: u64,
    entries: Seq<EntryView>,
    n: nat,
)
    ensures
        entries_taken(v, prev_log_index, entries, n).1 matches Some(Ok(response))
            ==> !response.success,
    decreases n,
{
    if n > 0 {
        lemma_taking_is_no_success(v, prev_log_index, entries, (n - 1) as nat);
    }
}

/// Taking entries keeps what stands in front of them, and a log that holds them all as it is.
proof fn lemma_taking_keeps_the_front(
    v: ConsensusView,
    prev_log_index: u64,
    entries: Seq<EntryView>,
    n: nat,
)
    requires
        log_ordered(v),
        v.snapshot_last_index <= prev_log_index <= last_index(v),
        prev_log_index + entries.len() < u64::MAX,
        n <= entries.len(),
    ensures
        ({
            let w = entries_taken(v, prev_log_index, entries, n).0;
            let front = prev_log_index - v.snapshot_last_index;
            &&& w.entries.len() >= front
            &&& forall|i: int| 0 <= i < front ==> #[trigger] w.entries[i] == v.entries[i]
            &&& (forall|k: int|
                0 <= k < n ==> front + k < v.entries.len() && (#[trigger] entries[k]).term
                    == v.entries[front + k].term && entries[k].command
                    == v.entries[front + k].command) ==> w == v
        }),
    decreases n,
{
    if v.entries.len() > 0 {
        assert(v.entries.last() == v.entries[v.entries.len() - 1]);
    }
    if n > 0 {
        lemma_taking_keeps_the_front(v, prev_log_index, entries, (n - 1) as nat);
        lemma_entries_taken(v, prev_log_index, entries, (n - 1) as nat);
        let w = entries_taken(v, prev_log_index, entries, (n - 1) as nat).0;
        let entry = entries[n - 1];
        let u = entry_taken(w, nth_index(prev_log_index, n - 1), entry).0;
        let front = prev_log_index - v.snapshot_last_index;
        assert forall|i: int| 0 <= i < front implies #[trigger] u.entries[i] == v.entries[i] by {
            assert(w.entries[i] == v.entries[i]);
        }
    }
}

/// A follower keeps what stands in front of an append. Entries that it holds already, it holds once:
/// an append that is sent again changes nothing of its log.
pub proof fn law_append_keeps_what_is_in_front(
    f: ConsensusView,
    request: AppendRequestView,
    now_ms: u64,
)
    requires
        log_sound(f),
        f.snapshot_last_index <= request.prev_log_index <= last_index(f),
        request.prev_log_index + request.entries.len() < u64::MAX,
    ensures
        ({
            let w = append_step(f, request, now_ms).0;
            let front = request.prev_log_index - f.snapshot_last_index;
            &&& w.snapshot_last_index == f.snapshot_last_index
            &&& w.entries.len() >= front
            &&& forall|i: int| 0 <= i < front ==> #[trigger] w.entries[i] == f.entries[i]
            &&& (forall|k: int|
                0 <= k < request.entries.len() ==> front + k < f.entries.len() && (
                #[trigger] request.entries[k]).term == f.entries[front + k].term
                    && request.entries[k].command == f.entries[front + k].command) ==> w.entries
                == f.entries
        }),
{
    let leader = trimmed(request.leader_node_id);
    let w = contacted(f, leader, request.term, now_ms);
    let n = request.entries.len();
    lemma_taking_keeps_the_front(w, request.prev_log_index, request.entries, n);
    lemma_entries_taken(w, request.prev_log_index, request.entries, n);
    let u = entries_taken(w, request.prev_log_index, request.entries, n).0;
    if request.leader_commit > u.commit_index {
        lemma_committed_sound(raised_to(u, request.leader_commit), now_ms);
    }
}

/// An entry that a follower holds in another form, and not committed, is replaced along with all that
/// stood behind it.
pub proof fn law_conflicting_end_is_replaced(v: ConsensusView, entry: EntryView, i: int)
    requires
        log_sound(v),
        v.snapshot_last_index + v.entries.len() < u64::MAX,
        0 <= i < v.entries.len(),
        entry.index == v.entries[i].index,
        entry.term > 0,
        entry.term != v.entries[i].term || entry.command != v.entries[i].command,
    ensures
        entry.index > v.commit_index ==> entry_taken(v, entry.index, entry) == (
            ConsensusView { entries: v.entries.take(i).push(entry), ..v },
            None::<Result<AppendResponseView, Seq<char>>>,
        ),
        entry.index <= v.commit_index ==> entry_taken(v, entry.index, entry).0 == v && (
        entry_taken(v, entry.index, entry).1 matches Some(answer) && answer is Err),
{
}

/// A follower whose log does not hold the entry in front of an append, or holds another one there,
/// refuses the append, says how far its log goes, and keeps its log.
pub proof fn law_append_that_does_not_fit_is_refused(
    f: ConsensusView,
    request: AppendRequestView,
    now_ms: u64,
)
    requires
        log_sound(f),
        f.snapshot_last_index + f.entries.len() < u64::MAX,
        request.term >= f.current_term,
        f.control.leader_node_id == Some(trimmed(request.leader_node_id)),
        trimmed(request.leader_node_id).len() > 0,
        exists|i: int|
            0 <= i < f.control.nodes.len() && (#[trigger] f.control.nodes[i]).id == trimmed(
                request.leader_node_id,
            ) && f.control.nodes[i].status != ControlNodeStatus::Removed,
    ensures
        ({
            let last = f.snapshot_last_index + f.entries.len();
            let (w, answer) = append_step(f, request, now_ms);
            let at = request.prev_log_index - f.snapshot_last_index - 1;
            &&& request.prev_log_index > last ==> answer == Ok::<AppendResponseView, Seq<char>>(
                AppendResponseView {
                    term: request.term,
                    success: false,
                    match_index: last as u64,
                    message: Some("missing_prev_log_index"@),
                },
            ) && w.entries == f.entries
            &&& request.prev_log_index < f.snapshot_last_index ==> answer == Ok::<
                AppendResponseView,
                Seq<char>,
            >(
                AppendResponseView {
                    term: request.term,
                    success: false,
                    match_index: f.snapshot_last_index,
                    message: Some("snapshot_required"@),
                },
            ) && w.entries == f.entries
            &&& f.snapshot_last_index < request.prev_log_index <= last && f.entries[at].term
                != request.prev_log_term ==> answer == Ok::<AppendResponseView, Seq<char>>(
                AppendResponseView {
                    term: request.term,
                    success: false,
                    match_index: last as u64,
                    message: Some("prev_log_term_mismatch"@),
                },
            ) && w.entries == f.entries
        }),
{
    if f.entries.len() > 0 {
        assert(f.entries.last() == f.entries[f.entries.len() - 1]);
    }
}

/// Who is no member of the cluster is not heard as leader.
pub proof fn law_strangers_do_not_lead(
    f: ConsensusView,
    append: AppendRequestView,
    install: InstallRequestView,
    now_ms: u64,
)
    ensures
        (forall|i: int|
            0 <= i < f.control.nodes.len() ==> (#[trigger] f.control.nodes[i]).id != trimmed(
                append.leader_node_id,
            ) || f.control.nodes[i].status == ControlNodeStatus::Removed) ==> append_step(
            f,
            append,
            now_ms,
        ).0 == f && (append_step(f, append, now_ms).1 matches Ok(response) && !response.success),
        (forall|i: int|
            0 <= i < f.control.nodes.len() ==> (#[trigger] f.control.nodes[i]).id != trimmed(
                install.leader_node_id,
            ) || f.control.nodes[i].status == ControlNodeStatus::Removed) ==> install_step(
            f,
            install,
            now_ms,
        ).0 == f && (install_step(f, install, now_ms).1 matches Ok(response)
            ==> !response.success),
{
}

/// A node that takes over a snapshot has the control state that was sent, at the place in the log that
/// was sent, with the sender as leader; of its own log it keeps what goes on from there.
pub proof fn law_snapshot_replaces_the_state(
    f: ConsensusView,
    request: InstallRequestView,
    sent: ControlView,
    now_ms: u64,
)
    requires
        log_sound(f),
        f.snapshot_last_index + f.entries.len() < u64::MAX,
        request.state == PayloadView::Decoded(sent),
        install_step(f, request, now_ms).1 matches Ok(response) && response.success,
    ensures
        ({
            let w = install_step(f, request, now_ms).0;
            let kept = request.snapshot_last_index - f.snapshot_last_index;
            &&& w.control == (ControlView {
                applied_log_index: request.snapshot_last_index,
                applied_log_term: request.snapshot_last_term,
                updated_unix_ms: now_ms,
                leader_node_id: Some(trimmed(request.leader_node_id)),
                ..sent
            })
            &&& w.snapshot_last_index == request.snapshot_last_index
            &&& w.snapshot_last_term == request.snapshot_last_term
            &&& w.commit_index == request.snapshot_last_index
            &&& w.entries == (if kept >= f.entries.len() {
                Seq::<EntryView>::empty()
            } else {
                f.entries.skip(kept)
            })
            &&& install_step(f, request, now_ms).1->Ok_0.last_index == (if kept
                >= f.entries.len() {
                request.snapshot_last_index as int
            } else {
                f.snapshot_last_index + f.entries.len()
            })
        }),
{
    let leader = trimmed(request.leader_node_id);
    let w = contacted(f, leader, request.term, now_ms);
    lemma_entries_above(w, request.snapshot_last_index);
    if f.entries.len() > 0 {
        assert(f.entries.last() == f.entries[f.entries.len() - 1]);
    }
    let kept = request.snapshot_last_index - f.snapshot_last_index;
    if kept < f.entries.len() {
        assert(f.entries.skip(kept).last() == f.entries.last());
    }
}

/// A snapshot that is newer than what a node holds committed, from a leader that it accepts, is taken
/// over where its control state is valid.
pub proof fn law_newer_snapshot_is_taken_over(
    f: ConsensusView,
    request: InstallRequestView,
    sent: ControlView,
    now_ms: u64,
)
    requires
        request.state == PayloadView::Decoded(sent),
        request.term > 0,
        request.snapshot_last_index > 0,
        request.snapshot_last_index >= f.commit_index,
        request.snapshot_last_index >= f.control.applied_log_index,
        request.term > f.current_term || request.term == f.current_term
            && f.control.leader_node_id == Some(trimmed(request.leader_node_id)),
        trimmed(request.leader_node_id).len() > 0,
        exists|i: int|
            0 <= i < f.control.nodes.len() && (#[trigger] f.control.nodes[i]).id == trimmed(
                request.leader_node_id,
            ) && f.control.nodes[i].status != ControlNodeStatus::Removed,
        state_error(
            ControlView {
                applied_log_index: request.snapshot_last_index,
                applied_log_term: request.snapshot_last_term,
                updated_unix_ms: now_ms,
                leader_node_id: Some(trimmed(request.leader_node_id)),
                ..sent
            },
        ) is None,
    ensures
        install_step(f, request, now_ms).1 matches Ok(response) && response.success && response.term
            == request.term,
{
}

/// Once the control state is written after entries were applied, a log with enough committed entries is
/// cut off behind them: it starts at what is committed, with the term of that entry, and keeps the
/// rest. A shorter one stays as it is.
pub proof fn law_log_is_cut_off_behind_what_is_committed(v: ConsensusView)
    requires
        log_sound(v),
        v.snapshot_last_index + v.entries.len() < u64::MAX,
        v.compaction_due,
        v.control.applied_log_index == v.commit_index,
        v.config.snapshot_interval_entries > 0,
    ensures
        ({
            let span = v.commit_index - v.snapshot_last_index;
            let w = state_noted(v).0;
            &&& !w.compaction_due && !w.unsaved_state
            &&& span < v.config.snapshot_interval_entries ==> w.entries == v.entries
                && w.snapshot_last_index == v.snapshot_last_index && w.snapshot_last_term
                == v.snapshot_last_term && w.unsaved_log == v.unsaved_log
            &&& span >= v.config.snapshot_interval_entries ==> w.entries == v.entries.skip(span)
                && w.snapshot_last_index == v.commit_index && w.snapshot_last_term
                == v.entries[span - 1].term && w.unsaved_log
        }),
{
    if v.entries.len() > 0 {
        assert(v.entries.last() == v.entries[v.entries.len() - 1]);
    }
}

/// A leader is taken for lost where there is none, or where another node that leads has not been heard
/// of for the time of its lease; a node never takes itself for lost.
pub proof fn law_silence_makes_a_leader_stale(v: ConsensusView, now_ms: u64)
    requires
        0 < v.config.leader_lease_secs <= u64::MAX / 1000,
    ensures
        leader_stale(v, now_ms) <==> match v.control.leader_node_id {
            None => true,
            Some(leader) => leader != v.local_node_id && now_ms - v.last_leader_contact_unix_ms
                >= v.config.leader_lease_secs * 1000,
        },
{
}

proof fn lemma_least_text(list: Seq<Seq<char>>)
    requires
        list.len() > 0,
    ensures
        list.contains(least_text(list)),
        forall|i: int| 0 <= i < list.len() ==> !text_less(#[trigger] list[i], least_text(list)),
    decreases list.len(),
{
    if list.len() == 1 {
        assert(list[0] == least_text(list));
        lemma_text_less_irreflexive(list[0]);
    } else {
        let front = list.drop_last();
        let before = least_text(front);
        let least = least_text(list);
        lemma_least_text(front);
        let k = choose|k: int| 0 <= k < front.len() && front[k] == before;
        assert(list[k] == before);
        assert(list[list.len() - 1] == list.last());
        lemma_text_less_irreflexive(list.last());
        assert forall|i: int| 0 <= i < list.len() implies !text_less(#[trigger] list[i], least) by {
            if i < front.len() {
                assert(front[i] == list[i]);
                if least == list.last() && text_less(list[i], least) {
                    lemma_text_less_transitive(list[i], least, before);
                }
            }
        }
    }
}

/// A node leads on; without a leader, the voter whose name comes first may lead; after a leader that is
/// lost, the voter after it. Nobody else may.
pub proof fn law_who_may_lead(v: ConsensusView, now_ms: u64)
    ensures
        v.control.leader_node_id == Some(v.local_node_id) ==> may_propose(v, now_ms),
        v.control.leader_node_id is None && voters_of(v).len() > 0 ==> (may_propose(v, now_ms)
            <==> voters_of(v).contains(v.local_node_id) && forall|i: int|
            0 <= i < voters_of(v).len() ==> !text_less(
                #[trigger] voters_of(v)[i],
                v.local_node_id,
            )),
        v.control.leader_node_id is Some && v.control.leader_node_id != Some(v.local_node_id)
            && voters_of(v).no_duplicates() && voters_of(v).len() >= 2 && voters_of(v).contains(
            v.control.leader_node_id->0,
        ) ==> (may_propose(v, now_ms) <==> leader_stale(v, now_ms) && voters_of(v)[(voters_of(
            v,
        ).index_of(v.control.leader_node_id->0) + 1) % (voters_of(v).len() as int)]
            == v.local_node_id),
        v.control.leader_node_id is Some && !leader_stale(v, now_ms) && v.control.leader_node_id
            != Some(v.local_node_id) ==> !may_propose(v, now_ms),
{
    let voters = voters_of(v);
    if v.control.leader_node_id is None && voters.len() > 0 {
        lemma_least_text(voters);
        let least = least_text(voters);
        let k = choose|k: int| 0 <= k < voters.len() && voters[k] == least;
        if voters.contains(v.local_node_id) && (forall|i: int|
            0 <= i < voters.len() ==> !text_less(#[trigger] voters[i], v.local_node_id)) {
            let m = choose|m: int| 0 <= m < voters.len() && voters[m] == v.local_node_id;
            assert(!text_less(voters[k], v.local_node_id));
            assert(!text_less(voters[m], least));
            lemma_text_less_total(least, v.local_node_id);
        }
    }
    if v.control.leader_node_id is Some && voters.len() >= 2 && voters.contains(
        v.control.leader_node_id->0,
    ) {
        crate::consensus_laws::law_failover_candidate(voters, v.control.leader_node_id->0);
    }
}

/// Commands other than to lead are proposed by the leader alone, and a node proposes itself alone.
pub proof fn law_who_may_propose(v: ConsensusView, command: CommandView, now_ms: u64)
    ensures
        !(command is SetLeader) ==> (proposal_refusal(v, command, now_ms) is None
            <==> v.control.leader_node_id == Some(v.local_node_id)),
        command matches CommandView::SetLeader { leader_node_id } ==> (proposal_refusal(
            v,
            command,
            now_ms,
        ) is None <==> leader_node_id == v.local_node_id && may_propose(v, now_ms)),
{
}

/// A peer is dead after a silence of one time limit, suspect after one of another or after a failure,
/// and healthy else; one that was never called is unknown.
pub proof fn law_silence_tells_how_a_peer_is(
    config: ControlConsensusConfig,
    heartbeat: PeerHeartbeatState,
    now_ms: u64,
)
    requires
        0 < config.dead_timeout_secs <= u64::MAX / 1000,
        0 < config.suspect_timeout_secs <= u64::MAX / 1000,
    ensures
        ({
            let status = liveness_at(config, heartbeat, now_ms);
            &&& heartbeat.last_success_unix_ms matches Some(heard) ==> {
                &&& status == ControlPeerLivenessStatus::Dead <==> now_ms - heard
                    >= config.dead_timeout_secs * 1000
                &&& status == ControlPeerLivenessStatus::Suspect <==> now_ms - heard
                    < config.dead_timeout_secs * 1000 && (now_ms - heard
                    >= config.suspect_timeout_secs * 1000 || heartbeat.consecutive_failures > 0)
                &&& status == ControlPeerLivenessStatus::Healthy <==> now_ms - heard
                    < config.dead_timeout_secs * 1000 && now_ms - heard
                    < config.suspect_timeout_secs * 1000 && heartbeat.consecutive_failures == 0
            }
            &&& heartbeat.last_success_unix_ms is None ==> match heartbeat.last_failure_unix_ms {
                None => status == ControlPeerLivenessStatus::Unknown,
                Some(failed) => status == (if now_ms - failed >= config.dead_timeout_secs * 1000 {
                    ControlPeerLivenessStatus::Dead
                } else {
                    ControlPeerLivenessStatus::Suspect
                }),
            }
        }),
{
}

/// A command does what the change that it names does, to what it names, and counts as a change where that
/// was applied.
pub proof fn law_commands_make_their_changes(
    s: ControlView,
    node_id: Seq<char>,
    endpoint: Seq<char>,
    place: Option<Seq<char>>,
    now_ms: u64,
)
    ensures
        ({
            let applied = |outcome: Result<ControlMembershipMutationOutcome, Seq<char>>|
                outcome matches Ok(o) && o == ControlMembershipMutationOutcome::Applied;
            let join = command_effect(s, CommandView::JoinNode { node_id, endpoint }, now_ms);
            let leave = command_effect(s, CommandView::LeaveNode { node_id }, now_ms);
            let back = command_effect(
                s,
                CommandView::RecommissionNode { node_id, endpoint: place },
                now_ms,
            );
            let activate = command_effect(s, CommandView::ActivateNode { node_id }, now_ms);
            let remove = command_effect(s, CommandView::RemoveNode { node_id }, now_ms);
            &&& join.0 == join_step(s, node_id, endpoint).0
            &&& join.1 is Ok <==> join_step(s, node_id, endpoint).1 is Ok
            &&& join.1 matches Ok(changed) ==> changed == applied(
                join_step(s, node_id, endpoint).1,
            )
            &&& leave.0 == leave_step(s, node_id).0
            &&& leave.1 is Ok <==> leave_step(s, node_id).1 is Ok
            &&& leave.1 matches Ok(changed) ==> changed == applied(leave_step(s, node_id).1)
            &&& back.0 == recommission_step(s, node_id, place).0
            &&& back.1 is Ok <==> recommission_step(s, node_id, place).1 is Ok
            &&& back.1 matches Ok(changed) ==> changed == applied(
                recommission_step(s, node_id, place).1,
            )
            &&& activate.0 == activate_step(s, node_id).0
            &&& activate.1 is Ok <==> activate_step(s, node_id).1 is Ok
            &&& activate.1 matches Ok(changed) ==> changed == applied(activate_step(s, node_id).1)
            &&& remove.0 == remove_step(s, node_id).0
            &&& remove.1 is Ok <==> remove_step(s, node_id).1 is Ok
            &&& remove.1 matches Ok(changed) ==> changed == applied(remove_step(s, node_id).1)
        }),
{
}

/// A command on a handoff does to the shard that it names what the step that it names does. Completing a
/// handoff leaves no rows to move.
pub proof fn law_handoff_commands_make_their_changes(
    s: ControlView,
    shard: u32,
    from_node_id: Seq<char>,
    to_node_id: Seq<char>,
    activation_ring_version: u64,
    phase: ShardHandoffPhase,
    copied_rows: Option<u64>,
    pending_rows: Option<u64>,
    last_error: Option<Seq<char>>,
    now_ms: u64,
)
    ensures
        ({
            let begin = command_effect(
                s,
                CommandView::BeginShardHandoff {
                    shard,
                    from_node_id,
                    to_node_id,
                    activation_ring_version,
                },
                now_ms,
            );
            let begun = begin_step(
                s,
                shard,
                from_node_id,
                to_node_id,
                activation_ring_version,
                now_ms,
            );
            let update = command_effect(
                s,
                CommandView::UpdateShardHandoff {
                    shard,
                    phase,
                    copied_rows,
                    pending_rows,
                    last_error,
                },
                now_ms,
            );
            let updated = progress_step(
                s,
                shard,
                phase,
                copied_rows,
                pending_rows,
                last_error,
                now_ms,
            );
            let complete = command_effect(s, CommandView::CompleteShardHandoff { shard }, now_ms);
            let completed = progress_step(
                s,
                shard,
                ShardHandoffPhase::Completed,
                None,
                Some(0),
                None,
                now_ms,
            );
            let applied = |outcome: Result<ControlHandoffMutationOutcome, Seq<char>>|
                outcome matches Ok(o) && o == ControlHandoffMutationOutcome::Applied;
            &&& begin.0 == begun.0
            &&& begin.1 is Ok <==> begun.1 is Ok
            &&& begin.1 matches Ok(changed) ==> changed == applied(begun.1)
            &&& update.0 == updated.0
            &&& update.1 is Ok <==> updated.1 is Ok
            &&& update.1 matches Ok(changed) ==> changed == applied(updated.1)
            &&& complete.0 == completed.0
            &&& complete.1 is Ok <==> completed.1 is Ok
            &&& complete.1 matches Ok(changed) ==> changed == applied(completed.1)
        }),
{
}

} // verus!
