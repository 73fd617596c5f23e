//! Who owns a shard: what the ring assigns, and what a handoff changes of it and when.

use vstd::prelude::*;
use crate::control::{
    bumped, copied_total, count_phase, count_resumed, phase_step, ControlHandoffMutationOutcome,
    ControlMembershipMutationOutcome, ControlNodeRecord, ControlNodeStatus, ControlView,
    HandoffView, NodeView, ShardHandoffPhase, ShardOwnershipTransition, TransitionView,
};
use crate::control_commands::{
    activate_step, begin_step, join_step, kept_transitions, leave_step, max_generation,
    progress_step, recommission_step, remove_step, with_node,
};
use crate::control_laws::{law_pruning_keeps_the_rest, lemma_deduped_same, lemma_sort_contains};
use crate::control_ownership::{
    deduped, find_node, find_text, find_transition, initial_nodes, initial_state, is_text,
    lemma_deduped, owners_at, rewritten, ring_at, runtime_mismatch,
};
use crate::lists::{lemma_first_index, lemma_first_index_is};
use crate::membership::ClusterNodeView;
use crate::ring::RingView;
use crate::text::trimmed;

verus! {

proof fn lemma_rewritten_others(
    owners: Seq<Seq<char>>,
    from: Seq<char>,
    to: Seq<char>,
    node: Seq<char>,
)
    requires
        node != from,
        node != to,
    ensures
        rewritten(owners, from, to).contains(node) <==> owners.contains(node),
{
    let out = rewritten(owners, from, to);
    lemma_first_index(owners, is_text(from));
    if owners.contains(node) {
        let k = choose|k: int| 0 <= k < owners.len() && owners[k] == node;
        assert(out[k] == node);
    }
    if out.contains(node) {
        let k = choose|k: int| 0 <= k < out.len() && out[k] == node;
        assert(k < owners.len() && owners[k] == node);
    }
}

/// A handoff touches its two ends alone: at every ring version, each other node owns the shard exactly
/// where the ring assigns the shard to it.
pub proof fn law_handoff_leaves_other_owners(
    s: ControlView,
    i: int,
    ring_version: u64,
    node: Seq<char>,
)
    requires
        0 <= i < s.transitions.len(),
        forall|j: int| 0 <= j < i ==> (#[trigger] s.transitions[j]).shard != s.transitions[i].shard,
        s.transitions[i].shard < s.ring.assignments.len(),
        node != s.transitions[i].from_node_id,
        node != s.transitions[i].to_node_id,
    ensures
        owners_at(s, s.transitions[i].shard, ring_version).contains(node)
            <==> s.ring.assignments[s.transitions[i].shard as int].contains(node),
{
    let t = s.transitions[i];
    let base = s.ring.assignments[t.shard as int];
    lemma_first_index_is(s.transitions, |x: TransitionView| x.shard == t.shard, i);
    lemma_rewritten_others(base, t.to_node_id, t.from_node_id, node);
    lemma_rewritten_others(base, t.from_node_id, t.to_node_id, node);
    lemma_deduped(rewritten(base, t.to_node_id, t.from_node_id));
    lemma_deduped(rewritten(base, t.from_node_id, t.to_node_id));
}

/// A list in which one text stands twice and every other once is without its second one once it is
/// deduplicated.
proof fn lemma_deduped_pair(list: Seq<Seq<char>>, a: int, b: int)
    requires
        0 <= a < b < list.len(),
        list[a] == list[b],
        forall|x: int, y: int|
            0 <= x < y < list.len() && !(x == a && y == b) ==> #[trigger] list[x]
                != #[trigger] list[y],
    ensures
        deduped(list) == list.remove(b),
    decreases list.len(),
{
    let last = list.len() - 1;
    let front = list.drop_last();
    assert(list =~= front.push(list[last]));
    if b == last {
        assert(front.no_duplicates()) by {
            assert forall|x: int, y: int|
                0 <= x < front.len() && 0 <= y < front.len() && x != y implies front[x]
                != front[y] by {
                if x < y {
                    assert(list[x] != list[y]);
                } else {
                    assert(list[y] != list[x]);
                }
            }
        }
        lemma_deduped_same(front);
        assert(front[a] == list[last]);
        assert(list.remove(b) =~= front);
    } else {
        lemma_deduped_pair(front, a, b);
        assert(!front.contains(list[last])) by {
            if front.contains(list[last]) {
                let k = choose|k: int| 0 <= k < front.len() && front[k] == list[last];
                assert(list[k] != list[last]);
            }
        }
        assert(list.remove(b) =~= front.remove(b).push(list[last]));
    }
}

/// A node in place of another among distinct owners: it takes the place of the other, or stands at the
/// end where the other owns nothing; where both own the shard, the first of their places is kept.
proof fn lemma_replaced(owners: Seq<Seq<char>>, from: Seq<char>, to: Seq<char>)
    requires
        owners.no_duplicates(),
        from != to,
    ensures
        deduped(rewritten(owners, from, to)) == (if owners.contains(from) {
            if !owners.contains(to) {
                owners.update(owners.index_of(from), to)
            } else if owners.index_of(from) < owners.index_of(to) {
                owners.update(owners.index_of(from), to).remove(owners.index_of(to))
            } else {
                owners.remove(owners.index_of(from))
            }
        } else if owners.contains(to) {
            owners
        } else {
            owners.push(to)
        }),
{
    lemma_first_index(owners, is_text(from));
    let out = rewritten(owners, from, to);
    if owners.contains(from) {
        let i = owners.index_of(from);
        assert(owners[i] == from);
        assert(find_text(owners, from) == Some(i));
        if !owners.contains(to) {
            assert(out.no_duplicates()) by {
                assert forall|x: int, y: int|
                    0 <= x < out.len() && 0 <= y < out.len() && x != y implies out[x] != out[y] by {
                    assert(owners[x] != to && owners[y] != to) by {
                        assert(owners.contains(owners[x]) && owners.contains(owners[y]));
                    }
                    assert(owners[x] != owners[y]);
                }
            }
            lemma_deduped_same(out);
        } else {
            let j = owners.index_of(to);
            assert(owners[j] == to);
            assert(i != j);
            let a = if i < j {
                i
            } else {
                j
            };
            let b = if i < j {
                j
            } else {
                i
            };
            assert forall|x: int, y: int|
                0 <= x < y < out.len() && !(x == a && y == b) implies #[trigger] out[x]
                != #[trigger] out[y] by {
                assert(owners[x] != owners[y]);
                if x == i {
                    assert(owners[y] != to) by {
                        if owners[y] == to {
                            assert(y == j);
                        }
                    }
                } else if y == i {
                    assert(owners[x] != to) by {
                        if owners[x] == to {
                            assert(x == j);
                        }
                    }
                }
            }
            lemma_deduped_pair(out, a, b);
            if i > j {
                assert(out.remove(i) =~= owners.remove(i));
            }
        }
    } else if owners.contains(to) {
        lemma_deduped_same(owners);
    } else {
        assert(out.no_duplicates()) by {
            assert forall|x: int, y: int|
                0 <= x < out.len() && 0 <= y < out.len() && x != y implies out[x] != out[y] by {
                if x < owners.len() {
                    assert(owners.contains(owners[x]));
                }
                if y < owners.len() {
                    assert(owners.contains(owners[y]));
                }
            }
        }
        lemma_deduped_same(out);
    }
}

/// The owners of a shard in a handoff are those that the ring assigns, in their order, with one end of
/// the handoff in the place of the other: before the handoff takes effect the node that gives the shard
/// away, and from then on the one that takes it.
pub proof fn law_handoff_swaps_its_ends(s: ControlView, i: int, ring_version: u64)
    requires
        0 <= i < s.transitions.len(),
        forall|j: int| 0 <= j < i ==> (#[trigger] s.transitions[j]).shard != s.transitions[i].shard,
        s.transitions[i].shard < s.ring.assignments.len(),
        s.transitions[i].from_node_id != s.transitions[i].to_node_id,
        s.ring.assignments[s.transitions[i].shard as int].no_duplicates(),
    ensures
        ({
            let t = s.transitions[i];
            let base = s.ring.assignments[t.shard as int];
            let owners = owners_at(s, t.shard, ring_version);
            let (left, came) = if ring_version < t.activation_ring_version {
                (t.to_node_id, t.from_node_id)
            } else {
                (t.from_node_id, t.to_node_id)
            };
            &&& base.contains(left) && !base.contains(came) ==> owners == base.update(
                base.index_of(left),
                came,
            )
            &&& !base.contains(left) && base.contains(came) ==> owners == base
            &&& !base.contains(left) && !base.contains(came) ==> owners == base.push(came)
            &&& base.contains(left) && base.contains(came) && base.index_of(left)
                > base.index_of(came) ==> owners == base.remove(base.index_of(left))
            &&& base.contains(left) && base.contains(came) && base.index_of(left)
                < base.index_of(came) ==> owners == base.update(base.index_of(left), came).remove(
                base.index_of(came),
            )
        }),
{
    let t = s.transitions[i];
    let base = s.ring.assignments[t.shard as int];
    lemma_first_index_is(s.transitions, |x: TransitionView| x.shard == t.shard, i);
    lemma_replaced(base, t.to_node_id, t.from_node_id);
    lemma_replaced(base, t.from_node_id, t.to_node_id);
}

/// Without a handoff a shard is owned by the nodes that the ring assigns it to, at every ring version,
/// in their order; a shard that the ring does not have is owned by nobody.
pub proof fn law_owners_are_as_assigned(s: ControlView, shard: u32, ring_version: u64)
    requires
        forall|i: int| 0 <= i < s.transitions.len() ==> (#[trigger] s.transitions[i]).shard != shard,
    ensures
        shard >= s.ring.assignments.len() ==> owners_at(s, shard, ring_version).len() == 0,
        shard < s.ring.assignments.len() ==> forall|node: Seq<char>|
            owners_at(s, shard, ring_version).contains(node)
                <==> #[trigger] s.ring.assignments[shard as int].contains(node),
        shard < s.ring.assignments.len() && s.ring.assignments[shard as int].no_duplicates()
            ==> owners_at(s, shard, ring_version) == s.ring.assignments[shard as int],
{
    lemma_first_index(s.transitions, |t: TransitionView| t.shard == shard);
    if let Some(i) = find_transition(s.transitions, shard) {
        assert(s.transitions[i].shard == shard);
    }
    if shard < s.ring.assignments.len() {
        let base = s.ring.assignments[shard as int];
        lemma_deduped(base);
        assert forall|node: Seq<char>|
            owners_at(s, shard, ring_version).contains(node) <==> #[trigger] base.contains(node) by {
            assert(deduped(base).contains(node) == base.contains(node));
        }
        if base.no_duplicates() {
            lemma_deduped_same(base);
        }
    }
}

/// The ring as it holds at a version has the owners of that version for every shard, and is else the
/// ring of the state.
pub proof fn law_ring_holds_the_owners(s: ControlView, ring_version: u64, shard: u32)
    requires
        shard < s.ring.shard_count,
    ensures
        ring_at(s, ring_version).assignments.len() == s.ring.shard_count,
        ring_at(s, ring_version).assignments[shard as int] == owners_at(s, shard, ring_version),
        ring_at(s, ring_version).shard_count == s.ring.shard_count,
        ring_at(s, ring_version).hash_version == s.ring.hash_version,
        ring_at(s, ring_version).replication_factor == s.ring.replication_factor,
        ring_at(s, ring_version).virtual_nodes_per_node == s.ring.virtual_nodes_per_node,
{
}

/// A handoff that begins is noted with its ends and its version, at its start, beside those that run;
/// neither the ring nor the members change, and every other shard keeps its owners.
pub proof fn law_begun_handoff_is_noted(
    s: ControlView,
    shard: u32,
    from: Seq<char>,
    to: Seq<char>,
    activation_ring_version: u64,
    now_ms: u64,
)
    requires
        forall|i: int| 0 <= i < s.transitions.len() ==> (#[trigger] s.transitions[i]).shard != shard,
        begin_step(s, shard, from, to, activation_ring_version, now_ms).1 is Ok,
    ensures
        ({
            let next = begin_step(s, shard, from, to, activation_ring_version, now_ms).0;
            let fresh = TransitionView {
                shard,
                from_node_id: trimmed(from),
                to_node_id: trimmed(to),
                activation_ring_version,
                handoff: HandoffView {
                    phase: ShardHandoffPhase::Warmup,
                    copied_rows: 0,
                    pending_rows: 0,
                    resumed_count: 0,
                    started_unix_ms: now_ms,
                    updated_unix_ms: now_ms,
                    last_error: None,
                },
            };
            &&& begin_step(s, shard, from, to, activation_ring_version, now_ms).1 == Ok::<
                ControlHandoffMutationOutcome,
                Seq<char>,
            >(ControlHandoffMutationOutcome::Applied)
            &&& next.transitions.len() == s.transitions.len() + 1
            &&& next.transitions.contains(fresh)
            &&& forall|t: TransitionView| #[trigger] next.transitions.contains(t) <==> t == fresh
                || s.transitions.contains(t)
            &&& next == (ControlView {
                transitions: next.transitions,
                updated_unix_ms: now_ms,
                ..s
            })
            &&& trimmed(from) != trimmed(to)
            &&& activation_ring_version >= s.ring_version
            &&& shard < s.ring.shard_count
        }),
{
    lemma_first_index(s.transitions, |t: TransitionView| t.shard == shard);
    if let Some(i) = find_transition(s.transitions, shard) {
        assert(s.transitions[i].shard == shard);
    }
    let fresh = crate::control_commands::new_transition(
        shard,
        trimmed(from),
        trimmed(to),
        activation_ring_version,
        now_ms,
    );
    let all = s.transitions.push(fresh);
    let next = begin_step(s, shard, from, to, activation_ring_version, now_ms).0;
    assert forall|t: TransitionView| #[trigger] next.transitions.contains(t) <==> t == fresh
        || s.transitions.contains(t) by {
        lemma_sort_contains::<ShardOwnershipTransition>(all, t);
        if t == fresh {
            assert(all[s.transitions.len() as int] == t);
        }
        if s.transitions.contains(t) {
            let k = choose|k: int| 0 <= k < s.transitions.len() && s.transitions[k] == t;
            assert(all[k] == t);
        }
    }
    lemma_sort_contains::<ShardOwnershipTransition>(all, fresh);
    assert(all[s.transitions.len() as int] == fresh);
    assert(next.transitions.contains(fresh));
}

/// Until it takes effect, a handoff that begins changes no owner: the node that gives the shard away
/// keeps it in its place, and so does every other owner.
pub proof fn law_begun_handoff_changes_no_owner_before_its_version(
    s: ControlView,
    shard: u32,
    from: Seq<char>,
    to: Seq<char>,
    activation_ring_version: u64,
    now_ms: u64,
    ring_version: u64,
)
    requires
        s.ring.assignments.len() == s.ring.shard_count,
        forall|i: int| 0 <= i < s.transitions.len() ==> (#[trigger] s.transitions[i]).shard != shard,
        begin_step(s, shard, from, to, activation_ring_version, now_ms).1 is Ok,
        s.ring.assignments[shard as int].no_duplicates(),
        !s.ring.assignments[shard as int].contains(trimmed(to)),
    ensures
        ({
            let next = begin_step(s, shard, from, to, activation_ring_version, now_ms).0;
            let base = s.ring.assignments[shard as int];
            &&& base.contains(trimmed(from))
            &&& ring_version < activation_ring_version ==> owners_at(next, shard, ring_version)
                == owners_at(s, shard, ring_version)
            &&& ring_version >= activation_ring_version ==> owners_at(next, shard, ring_version)
                == owners_at(s, shard, ring_version).update(
                base.index_of(trimmed(from)),
                trimmed(to),
            )
        }),
{
    law_begun_handoff_is_noted(s, shard, from, to, activation_ring_version, now_ms);
    let next = begin_step(s, shard, from, to, activation_ring_version, now_ms).0;
    law_owners_are_as_assigned(s, shard, ring_version);
    law_owners_are_as_assigned(s, shard, s.ring_version);
    lemma_first_index(next.transitions, |t: TransitionView| t.shard == shard);
    match find_transition(next.transitions, shard) {
        Some(i) => {
            let t = next.transitions[i];
            assert(next.transitions.contains(t));
            if s.transitions.contains(t) {
                let k = choose|k: int| 0 <= k < s.transitions.len() && s.transitions[k] == t;
                assert(s.transitions[k].shard == shard);
            }
            assert forall|j: int| 0 <= j < i implies (#[trigger] next.transitions[j]).shard
                != shard by {
                assert(!(|t: TransitionView| t.shard == shard)(next.transitions[j]));
            }
            law_handoff_swaps_its_ends(next, i, ring_version);
        },
        None => {
            let f = crate::control_commands::new_transition(
                shard,
                trimmed(from),
                trimmed(to),
                activation_ring_version,
                now_ms,
            );
            assert(next.transitions.contains(f));
            let k = choose|k: int| 0 <= k < next.transitions.len() && next.transitions[k] == f;
            assert(next.transitions[k].shard == shard);
        },
    }
}

/// A handoff begins where the shard is in the ring and not in a handoff, its ends differ, are members,
/// the first of them owns the shard now, and its version is not past; and not otherwise.
pub proof fn law_when_a_handoff_begins(
    s: ControlView,
    shard: u32,
    from: Seq<char>,
    to: Seq<char>,
    activation_ring_version: u64,
    now_ms: u64,
)
    requires
        forall|i: int| 0 <= i < s.transitions.len() ==> (#[trigger] s.transitions[i]).shard != shard,
        s.ring.assignments.len() == s.ring.shard_count,
    ensures
        ({
            let known = |id: Seq<char>|
                exists|k: int| 0 <= k < s.nodes.len() && (#[trigger] s.nodes[k]).id == id;
            begin_step(s, shard, from, to, activation_ring_version, now_ms).1 is Ok <==> {
                &&& shard < s.ring.shard_count
                &&& trimmed(from).len() > 0
                &&& trimmed(to).len() > 0
                &&& trimmed(from) != trimmed(to)
                &&& activation_ring_version >= s.ring_version
                &&& known(trimmed(from))
                &&& known(trimmed(to))
                &&& s.ring.assignments[shard as int].contains(trimmed(from))
            }
        }),
        begin_step(s, shard, from, to, activation_ring_version, now_ms).1 is Err ==> begin_step(
            s,
            shard,
            from,
            to,
            activation_ring_version,
            now_ms,
        ).0 == s,
{
    lemma_first_index(s.transitions, |t: TransitionView| t.shard == shard);
    if let Some(i) = find_transition(s.transitions, shard) {
        assert(s.transitions[i].shard == shard);
    }
    lemma_known(s.nodes, trimmed(from));
    lemma_known(s.nodes, trimmed(to));
    if shard < s.ring.shard_count {
        law_owners_are_as_assigned(s, shard, s.ring_version);
        assert(owners_at(s, shard, s.ring_version).contains(trimmed(from))
            <==> s.ring.assignments[shard as int].contains(trimmed(from)));
    }
}

proof fn lemma_known(nodes: Seq<NodeView>, id: Seq<char>)
    ensures
        find_node(nodes, id) is Some <==> exists|k: int|
            0 <= k < nodes.len() && (#[trigger] nodes[k]).id == id,
        find_node(nodes, id) matches Some(i) ==> 0 <= i < nodes.len() && nodes[i].id == id,
{
    let p = |node: NodeView| node.id == id;
    lemma_first_index(nodes, p);
    match find_node(nodes, id) {
        Some(i) => {
            assert(nodes[i].id == id);
        },
        None => {
            assert forall|k: int| 0 <= k < nodes.len() implies (#[trigger] nodes[k]).id != id by {
                assert(!p(nodes[k]));
            }
        },
    }
}

/// A handoff warms up, is cut over, synchronises and is completed, in this order; it can stay where it
/// is, fail until it is completed, and start over once it has failed. Nothing else follows.
pub proof fn law_phases_follow_each_other(from: ShardHandoffPhase, to: ShardHandoffPhase)
    ensures
        phase_step(from, to) <==> {
            ||| from == to
            ||| from == ShardHandoffPhase::Warmup && to == ShardHandoffPhase::Cutover
            ||| from == ShardHandoffPhase::Cutover && to == ShardHandoffPhase::FinalSync
            ||| from == ShardHandoffPhase::FinalSync && to == ShardHandoffPhase::Completed
            ||| from != ShardHandoffPhase::Completed && to == ShardHandoffPhase::Failed
            ||| from == ShardHandoffPhase::Failed && to == ShardHandoffPhase::Warmup
        },
{
}

/// A report of progress that is taken in is noted with the handoff of its shard: its phase, the rows it
/// names, and its error without white space around it. What it does not name stays. Once the handoff is
/// cut over, the ring is at least at the version of the handoff. The ring, the members and the running
/// handoffs of other shards stay as they are.
pub proof fn law_progress_is_noted(
    s: ControlView,
    i: int,
    phase: ShardHandoffPhase,
    copied_rows: Option<u64>,
    pending_rows: Option<u64>,
    last_error: Option<Seq<char>>,
    now_ms: u64,
    other: TransitionView,
)
    requires
        0 <= i < s.transitions.len(),
        forall|j: int| 0 <= j < i ==> (#[trigger] s.transitions[j]).shard != s.transitions[i].shard,
        phase == ShardHandoffPhase::Warmup || phase == ShardHandoffPhase::Cutover || phase
            == ShardHandoffPhase::FinalSync,
        progress_step(
            s,
            s.transitions[i].shard,
            phase,
            copied_rows,
            pending_rows,
            last_error,
            now_ms,
        ).1 is Ok,
        other.shard != s.transitions[i].shard,
    ensures
        ({
            let t = s.transitions[i];
            let next = progress_step(
                s,
                t.shard,
                phase,
                copied_rows,
                pending_rows,
                last_error,
                now_ms,
            ).0;
            let noted = exists|k: int|
                0 <= k < next.transitions.len() && {
                    let u = #[trigger] next.transitions[k];
                    &&& u.shard == t.shard
                    &&& u.from_node_id == t.from_node_id
                    &&& u.to_node_id == t.to_node_id
                    &&& u.activation_ring_version == t.activation_ring_version
                    &&& u.handoff.phase == phase
                    &&& u.handoff.copied_rows == (match copied_rows {
                        Some(rows) => rows,
                        None => t.handoff.copied_rows,
                    })
                    &&& u.handoff.pending_rows == (match pending_rows {
                        Some(rows) => rows,
                        None => t.handoff.pending_rows,
                    })
                    &&& u.handoff.last_error == (match last_error {
                        Some(text) => if trimmed(text).len() == 0 {
                            None
                        } else {
                            Some(trimmed(text))
                        },
                        None => None,
                    })
                    &&& t.handoff.phase == ShardHandoffPhase::Failed && phase
                        == ShardHandoffPhase::Warmup && t.handoff.resumed_count < u64::MAX
                        ==> u.handoff.resumed_count == t.handoff.resumed_count + 1
                    &&& t.handoff.phase != ShardHandoffPhase::Failed ==> u.handoff.resumed_count
                        == t.handoff.resumed_count
                    &&& t.handoff.started_unix_ms > 0 ==> u.handoff.started_unix_ms
                        == t.handoff.started_unix_ms
                    &&& u.handoff != t.handoff ==> u.handoff.updated_unix_ms == now_ms
                };
            &&& noted
            &&& next.ring == s.ring
            &&& next.nodes == s.nodes
            &&& next.leader_node_id == s.leader_node_id
            &&& next.membership_epoch == s.membership_epoch
            &&& next.ring_version == (if phase != ShardHandoffPhase::Warmup
                && t.activation_ring_version > s.ring_version {
                t.activation_ring_version
            } else {
                s.ring_version
            })
            &&& next.transitions.contains(other) <==> s.transitions.contains(other) && (
            other.handoff.phase != ShardHandoffPhase::Completed && other.handoff.phase
                != ShardHandoffPhase::Failed || other.activation_ring_version >= next.ring_version)
        }),
{
    let t = s.transitions[i];
    lemma_first_index_is(s.transitions, |x: TransitionView| x.shard == t.shard, i);
    let taken = crate::control_commands::progress_taken(
        s,
        i,
        phase,
        copied_rows,
        pending_rows,
        last_error,
        now_ms,
    );
    let next = progress_step(
        s,
        t.shard,
        phase,
        copied_rows,
        pending_rows,
        last_error,
        now_ms,
    ).0;
    let mine = taken.transitions[i];
    assert(next.transitions == kept_transitions(taken.transitions, taken.ring_version));
    assert(taken.transitions.contains(mine));
    law_pruning_keeps_the_rest(taken.transitions, taken.ring_version, mine);
    law_pruning_keeps_the_rest(taken.transitions, taken.ring_version, other);
    let k = choose|k: int| 0 <= k < next.transitions.len() && next.transitions[k] == mine;
    assert(next.transitions[k].shard == t.shard);
    if s.transitions.contains(other) {
        let m = choose|m: int| 0 <= m < s.transitions.len() && s.transitions[m] == other;
        assert(taken.transitions[m] == other);
    }
    if taken.transitions.contains(other) {
        let m = choose|m: int| 0 <= m < taken.transitions.len() && taken.transitions[m] == other;
        assert(s.transitions[m] == other);
    }
}

/// A handoff that is completed gives its shard to the node that takes it, in the ring itself: that node
/// stands in the place of the one that gives the shard away, and every other owner of the shard, and
/// every other shard, stays as it was.
pub proof fn law_completed_handoff_moves_one_shard(
    s: ControlView,
    i: int,
    now_ms: u64,
    shard: u32,
    node: Seq<char>,
)
    requires
        0 <= i < s.transitions.len(),
        forall|j: int| 0 <= j < i ==> (#[trigger] s.transitions[j]).shard != s.transitions[i].shard,
        s.transitions[i].from_node_id != s.transitions[i].to_node_id,
        progress_step(
            s,
            s.transitions[i].shard,
            ShardHandoffPhase::Completed,
            None,
            Some(0),
            None,
            now_ms,
        ).1 is Ok,
        shard < s.ring.assignments.len(),
    ensures
        ({
            let t = s.transitions[i];
            let next = progress_step(
                s,
                t.shard,
                ShardHandoffPhase::Completed,
                None,
                Some(0),
                None,
                now_ms,
            ).0;
            let row = next.ring.assignments[shard as int];
            let base = s.ring.assignments[shard as int];
            let (from, to) = (t.from_node_id, t.to_node_id);
            &&& next.ring.assignments.len() == s.ring.assignments.len()
            &&& next.ring.shard_count == s.ring.shard_count
            &&& next.ring.hash_version == s.ring.hash_version
            &&& next.ring.replication_factor == s.ring.replication_factor
            &&& next.ring.virtual_nodes_per_node == s.ring.virtual_nodes_per_node
            &&& next.nodes == s.nodes
            &&& next.leader_node_id == s.leader_node_id
            &&& next.ring_version == (if t.activation_ring_version > s.ring_version {
                t.activation_ring_version
            } else {
                s.ring_version
            })
            &&& shard != t.shard ==> row == base
            &&& shard == t.shard ==> {
                &&& row.contains(to)
                &&& node != from && node != to ==> (row.contains(node) <==> base.contains(node))
                &&& base.no_duplicates() && base.contains(from) && !base.contains(to) ==> row
                    == base.update(base.index_of(from), to)
                &&& base.no_duplicates() && !base.contains(from) && base.contains(to) ==> row
                    == base
                &&& base.no_duplicates() && !base.contains(from) && !base.contains(to) ==> row
                    == base.push(to)
                &&& base.no_duplicates() && base.contains(from) && base.contains(to)
                    && base.index_of(from) > base.index_of(to) ==> row == base.remove(
                    base.index_of(from),
                )
            }
        }),
{
    let t = s.transitions[i];
    lemma_first_index_is(s.transitions, |x: TransitionView| x.shard == t.shard, i);
    let base = s.ring.assignments[t.shard as int];
    if node != t.from_node_id && node != t.to_node_id {
        lemma_rewritten_others(base, t.from_node_id, t.to_node_id, node);
    }
    lemma_deduped(rewritten(base, t.from_node_id, t.to_node_id));
    assert(rewritten(base, t.from_node_id, t.to_node_id).contains(t.to_node_id)) by {
        let out = rewritten(base, t.from_node_id, t.to_node_id);
        lemma_first_index(base, is_text(t.from_node_id));
        match find_text(base, t.from_node_id) {
            Some(k) => {
                assert(out[k] == t.to_node_id);
            },
            None => {
                if !base.contains(t.to_node_id) {
                    assert(out[base.len() as int] == t.to_node_id);
                }
            },
        }
    }
    if base.no_duplicates() {
        lemma_replaced(base, t.from_node_id, t.to_node_id);
    }
    let taken = crate::control_commands::progress_taken(
        s,
        i,
        ShardHandoffPhase::Completed,
        None,
        Some(0),
        None,
        now_ms,
    );
    assert(taken.transitions[i].shard == t.shard);
    let row = deduped(rewritten(base, t.from_node_id, t.to_node_id));
    let next = progress_step(
        s,
        t.shard,
        ShardHandoffPhase::Completed,
        None,
        Some(0),
        None,
        now_ms,
    ).0;
    assert(next.ring.assignments == s.ring.assignments.update(t.shard as int, row));
}

/// A node that is not known joins with its address, in a generation of its own, beside the nodes that
/// are known, which stay as they are.
pub proof fn law_new_node_joins(
    s: ControlView,
    node_id: Seq<char>,
    endpoint: Seq<char>,
    other: NodeView,
)
    requires
        trimmed(node_id).len() > 0,
        trimmed(endpoint).len() > 0,
        forall|i: int|
            0 <= i < s.nodes.len() ==> (#[trigger] s.nodes[i]).id != trimmed(node_id)
                && s.nodes[i].membership_generation < u64::MAX,
        other.id != trimmed(node_id),
    ensures
        ({
            let (next, done) = join_step(s, node_id, endpoint);
            &&& done == Ok::<ControlMembershipMutationOutcome, Seq<char>>(
                ControlMembershipMutationOutcome::Applied,
            )
            &&& next.nodes.len() == s.nodes.len() + 1
            &&& next.nodes.contains(other) <==> s.nodes.contains(other)
            &&& exists|k: int|
                0 <= k < next.nodes.len() && (#[trigger] next.nodes[k]).id == trimmed(node_id)
                    && next.nodes[k].endpoint == trimmed(endpoint) && next.nodes[k].status
                    == ControlNodeStatus::Joining && (forall|i: int|
                    0 <= i < s.nodes.len() ==> (#[trigger] s.nodes[i]).membership_generation
                        < next.nodes[k].membership_generation)
            &&& next == (ControlView {
                nodes: next.nodes,
                membership_epoch: next.membership_epoch,
                ..s
            })
        }),
{
    lemma_known(s.nodes, trimmed(node_id));
    lemma_max_generation(s.nodes);
    let fresh = NodeView {
        id: trimmed(node_id),
        endpoint: trimmed(endpoint),
        membership_generation: bumped(max_generation(s.nodes)),
        status: ControlNodeStatus::Joining,
    };
    let all = s.nodes.push(fresh);
    let next = join_step(s, node_id, endpoint).0;
    lemma_sort_contains::<ControlNodeRecord>(all, fresh);
    lemma_sort_contains::<ControlNodeRecord>(all, other);
    assert(all[s.nodes.len() as int] == fresh);
    assert(next.nodes.contains(fresh));
    let k = choose|k: int| 0 <= k < next.nodes.len() && next.nodes[k] == fresh;
    assert(next.nodes[k].id == trimmed(node_id));
    if s.nodes.contains(other) {
        let m = choose|m: int| 0 <= m < s.nodes.len() && s.nodes[m] == other;
        assert(all[m] == other);
    }
    if all.contains(other) {
        let m = choose|m: int| 0 <= m < all.len() && all[m] == other;
        assert(s.nodes[m] == other);
    }
}

proof fn lemma_max_generation(nodes: Seq<NodeView>)
    ensures
        forall|i: int|
            0 <= i < nodes.len() ==> (#[trigger] nodes[i]).membership_generation
                <= max_generation(nodes),
        max_generation(nodes) == 0 || exists|i: int|
            0 <= i < nodes.len() && (#[trigger] nodes[i]).membership_generation
                == max_generation(nodes),
    decreases nodes.len(),
{
    if nodes.len() > 0 {
        let front = nodes.drop_last();
        lemma_max_generation(front);
        assert(nodes.last() == nodes[nodes.len() - 1]);
        assert forall|i: int| 0 <= i < nodes.len() implies (
        #[trigger] nodes[i]).membership_generation <= max_generation(nodes) by {
            if i < front.len() {
                assert(front[i].membership_generation <= max_generation(front));
            }
        }
        if max_generation(nodes) != 0 && max_generation(nodes)
            != nodes.last().membership_generation {
            let i = choose|i: int|
                0 <= i < front.len() && (#[trigger] front[i]).membership_generation
                    == max_generation(front);
            assert(nodes[i].membership_generation == max_generation(nodes));
        }
    }
}

/// A member with its endpoint and its status set, in its next generation.
pub open spec fn member_set(
    node: NodeView,
    endpoint: Seq<char>,
    status: ControlNodeStatus,
) -> NodeView {
    NodeView {
        id: node.id,
        endpoint,
        membership_generation: (node.membership_generation + 1) as u64,
        status,
    }
}

/// What a command makes of one member, where every other stays as it is.
pub open spec fn only_member_set(
    s: ControlView,
    next: ControlView,
    i: int,
    endpoint: Seq<char>,
    status: ControlNodeStatus,
) -> bool {
    &&& next.nodes.len() == s.nodes.len()
    &&& next.nodes[i] == member_set(s.nodes[i], endpoint, status)
    &&& forall|k: int| 0 <= k < s.nodes.len() && k != i ==> #[trigger] next.nodes[k] == s.nodes[k]
    &&& next == (ControlView {
        nodes: next.nodes,
        membership_epoch: next.membership_epoch,
        leader_node_id: next.leader_node_id,
        ..s
    })
}

/// A member is asked to leave, is made active, is taken back and is removed by name, and no other is.
/// Each command is refused or without effect exactly where the member is in no state for it.
pub proof fn law_commands_set_one_member(
    s: ControlView,
    i: int,
    node_id: Seq<char>,
    place: Option<Seq<char>>,
)
    requires
        0 <= i < s.nodes.len(),
        s.nodes[i].id == trimmed(node_id),
        trimmed(node_id).len() > 0,
        s.nodes[i].membership_generation < u64::MAX,
        forall|k: int| 0 <= k < i ==> (#[trigger] s.nodes[k]).id != trimmed(node_id),
        place matches Some(text) ==> trimmed(text).len() > 0,
    ensures
        ({
            let node = s.nodes[i];
            let left = leave_step(s, node_id);
            let active = activate_step(s, node_id);
            let back = recommission_step(s, node_id, place);
            let gone = remove_step(s, node_id);
            let applied = Ok::<ControlMembershipMutationOutcome, Seq<char>>(
                ControlMembershipMutationOutcome::Applied,
            );
            let noop = Ok::<ControlMembershipMutationOutcome, Seq<char>>(
                ControlMembershipMutationOutcome::Noop,
            );
            let target = match place {
                Some(text) => trimmed(text),
                None => node.endpoint,
            };
            let free = (forall|k: int|
                0 <= k < s.ring.assignments.len() ==> !(
                #[trigger] s.ring.assignments[k]).contains(trimmed(node_id))) && (forall|k: int|
                0 <= k < s.transitions.len() ==> (#[trigger] s.transitions[k]).from_node_id
                    != trimmed(node_id) && s.transitions[k].to_node_id != trimmed(node_id));
            &&& (node.status == ControlNodeStatus::Joining || node.status
                == ControlNodeStatus::Active) ==> left.1 == applied && only_member_set(
                s,
                left.0,
                i,
                node.endpoint,
                ControlNodeStatus::Leaving,
            ) && left.0.leader_node_id == s.leader_node_id
            &&& (node.status == ControlNodeStatus::Leaving || node.status
                == ControlNodeStatus::Removed) ==> left == (s, noop)
            &&& (node.status == ControlNodeStatus::Joining || node.status
                == ControlNodeStatus::Leaving) ==> active.1 == applied && only_member_set(
                s,
                active.0,
                i,
                node.endpoint,
                ControlNodeStatus::Active,
            ) && active.0.leader_node_id == s.leader_node_id
            &&& node.status == ControlNodeStatus::Active ==> active == (s, noop)
            &&& node.status == ControlNodeStatus::Removed ==> active.1 is Err && active.0 == s
            &&& node.status == ControlNodeStatus::Active && target == node.endpoint ==> back == (
                s,
                noop,
            )
            &&& node.status != ControlNodeStatus::Active || target != node.endpoint ==> back.1
                == applied && only_member_set(s, back.0, i, target, ControlNodeStatus::Active)
                && back.0.leader_node_id == s.leader_node_id
            &&& node.status == ControlNodeStatus::Removed ==> gone == (s, noop)
            &&& node.status == ControlNodeStatus::Leaving && free ==> gone.1 == applied
                && only_member_set(s, gone.0, i, node.endpoint, ControlNodeStatus::Removed)
                && gone.0.leader_node_id == (if s.leader_node_id == Some(node.id) {
                None
            } else {
                s.leader_node_id
            })
            &&& node.status == ControlNodeStatus::Joining || node.status
                == ControlNodeStatus::Active || node.status == ControlNodeStatus::Leaving && !free
                ==> gone.1 is Err && gone.0 == s
        }),
{
    lemma_first_index_is(s.nodes, |node: NodeView| node.id == trimmed(node_id), i);
}

/// A known node that joins again is only waited for where it left or was removed; it comes back at its
/// address, or at another one once it was removed.
pub proof fn law_known_node_joins_again(
    s: ControlView,
    i: int,
    node_id: Seq<char>,
    endpoint: Seq<char>,
)
    requires
        0 <= i < s.nodes.len(),
        s.nodes[i].id == trimmed(node_id),
        trimmed(node_id).len() > 0,
        trimmed(endpoint).len() > 0,
        s.nodes[i].membership_generation < u64::MAX,
        forall|k: int| 0 <= k < i ==> (#[trigger] s.nodes[k]).id != trimmed(node_id),
    ensures
        ({
            let node = s.nodes[i];
            let (next, done) = join_step(s, node_id, endpoint);
            let settled = node.status == ControlNodeStatus::Joining || node.status
                == ControlNodeStatus::Active;
            &&& node.status != ControlNodeStatus::Removed && node.endpoint != trimmed(endpoint)
                ==> done is Err && next == s
            &&& settled && node.endpoint == trimmed(endpoint) ==> done == Ok::<
                ControlMembershipMutationOutcome,
                Seq<char>,
            >(ControlMembershipMutationOutcome::Noop) && next == s
            &&& node.status == ControlNodeStatus::Removed || node.status
                == ControlNodeStatus::Leaving && node.endpoint == trimmed(endpoint) ==> done
                == Ok::<ControlMembershipMutationOutcome, Seq<char>>(
                ControlMembershipMutationOutcome::Applied,
            ) && next.nodes.to_multiset() == s.nodes.update(
                i,
                member_set(node, trimmed(endpoint), ControlNodeStatus::Joining),
            ).to_multiset() && next == (ControlView {
                nodes: next.nodes,
                membership_epoch: next.membership_epoch,
                ..s
            })
        }),
{
    lemma_first_index_is(s.nodes, |node: NodeView| node.id == trimmed(node_id), i);
    crate::lists::lemma_ranked_sort_elements::<ControlNodeRecord>(
        with_node(s, i, trimmed(endpoint), ControlNodeStatus::Joining).nodes,
    );
}

/// Commands on nodes that are not known are refused, and so is an empty name.
pub proof fn law_unknown_members_are_refused(
    s: ControlView,
    node_id: Seq<char>,
    place: Option<Seq<char>>,
)
    requires
        trimmed(node_id).len() == 0 || forall|k: int|
            0 <= k < s.nodes.len() ==> (#[trigger] s.nodes[k]).id != trimmed(node_id),
    ensures
        leave_step(s, node_id).1 is Err && leave_step(s, node_id).0 == s,
        activate_step(s, node_id).1 is Err && activate_step(s, node_id).0 == s,
        recommission_step(s, node_id, place).1 is Err && recommission_step(s, node_id, place).0
            == s,
        remove_step(s, node_id).1 is Err && remove_step(s, node_id).0 == s,
{
    lemma_known(s.nodes, trimmed(node_id));
}

/// A cluster starts with the nodes that it was given, active and at their addresses, without a leader
/// and without handoffs, and with the ring that it was given.
pub proof fn law_first_state(
    nodes: Seq<ClusterNodeView>,
    ring: RingView,
    now_ms: u64,
    node: ClusterNodeView,
)
    ensures
        ({
            let s = initial_state(nodes, ring, now_ms);
            &&& s.nodes.len() == nodes.len()
            &&& s.ring == ring
            &&& s.ring_version == 1 && s.membership_epoch == 1
            &&& s.applied_log_index == 0 && s.applied_log_term == 0
            &&& s.leader_node_id is None
            &&& s.transitions.len() == 0
            &&& nodes.contains(node) <==> exists|k: int|
                0 <= k < s.nodes.len() && (#[trigger] s.nodes[k]).id == node.id
                    && s.nodes[k].endpoint == node.endpoint && s.nodes[k].status
                    == ControlNodeStatus::Active
        }),
{
    let s = initial_state(nodes, ring, now_ms);
    let first = initial_nodes(nodes);
    let record = NodeView {
        id: node.id,
        endpoint: node.endpoint,
        membership_generation: 1,
        status: ControlNodeStatus::Active,
    };
    lemma_sort_contains::<ControlNodeRecord>(first, record);
    if nodes.contains(node) {
        let m = choose|m: int| 0 <= m < nodes.len() && nodes[m] == node;
        assert(first[m] == record);
        assert(s.nodes.contains(record));
        let k = choose|k: int| 0 <= k < s.nodes.len() && s.nodes[k] == record;
        assert(s.nodes[k].id == node.id);
    }
    if exists|k: int|
        0 <= k < s.nodes.len() && (#[trigger] s.nodes[k]).id == node.id && s.nodes[k].endpoint
            == node.endpoint && s.nodes[k].status == ControlNodeStatus::Active {
        let k = choose|k: int|
            0 <= k < s.nodes.len() && (#[trigger] s.nodes[k]).id == node.id && s.nodes[k].endpoint
                == node.endpoint && s.nodes[k].status == ControlNodeStatus::Active;
        assert(s.nodes.contains(s.nodes[k]));
        lemma_sort_contains::<ControlNodeRecord>(first, s.nodes[k]);
        let m = choose|m: int| 0 <= m < first.len() && first[m] == s.nodes[k];
        assert(nodes[m] == node);
    }
}

/// The handoffs of a snapshot are counted by phase, each once.
pub proof fn law_handoffs_are_counted(transitions: Seq<TransitionView>, phase: ShardHandoffPhase)
    ensures
        count_phase(transitions, phase) == transitions.filter(
            |t: TransitionView| t.handoff.phase == phase,
        ).len(),
        count_resumed(transitions) == transitions.filter(
            |t: TransitionView| t.handoff.resumed_count > 0,
        ).len(),
    decreases transitions.len(),
{
    reveal(Seq::filter);
    if transitions.len() > 0 {
        law_handoffs_are_counted(transitions.drop_last(), phase);
    }
}

/// The rows that some handoffs have copied, and those that they have yet to move.
pub open spec fn rows_of(transitions: Seq<TransitionView>, copied: bool) -> nat
    decreases transitions.len(),
{
    if transitions.len() == 0 {
        0
    } else {
        rows_of(transitions.drop_last(), copied) + if copied {
            transitions.last().handoff.copied_rows as nat
        } else {
            transitions.last().handoff.pending_rows as nat
        }
    }
}

/// The rows of all handoffs are added up.
pub proof fn law_rows_of_handoffs_are_added_up(transitions: Seq<TransitionView>)
    ensures
        rows_of(transitions, true) <= u64::MAX ==> copied_total(transitions) == rows_of(
            transitions,
            true,
        ),
        rows_of(transitions, false) <= u64::MAX ==> crate::control::pending_total(transitions)
            == rows_of(transitions, false),
    decreases transitions.len(),
{
    if transitions.len() > 0 {
        law_rows_of_handoffs_are_added_up(transitions.drop_last());
    }
}

/// A control state fits a node where both name the node, at one address, and the rings agree in the number
/// of shards, the hash, the replicas and the virtual nodes.
pub proof fn law_when_a_state_fits_a_node(
    s: ControlView,
    local: Seq<char>,
    nodes: Seq<ClusterNodeView>,
    ring: RingView,
    i: int,
    k: int,
)
    requires
        0 <= i < nodes.len(),
        nodes[i].id == local,
        forall|j: int| 0 <= j < i ==> (#[trigger] nodes[j]).id != local,
        0 <= k < s.nodes.len(),
        s.nodes[k].id == local,
        forall|j: int| 0 <= j < k ==> (#[trigger] s.nodes[j]).id != local,
    ensures
        runtime_mismatch(s, local, nodes, ring) is None <==> s.nodes[k].endpoint == nodes[i].endpoint
            && s.ring.shard_count == ring.shard_count && s.ring.hash_version == ring.hash_version
            && s.ring.replication_factor == ring.replication_factor
            && s.ring.virtual_nodes_per_node == ring.virtual_nodes_per_node,
{
    lemma_first_index_is(nodes, |node: ClusterNodeView| node.id == local, i);
    lemma_first_index_is(s.nodes, |node: NodeView| node.id == local, k);
}

/// A node that either side does not name does not fit.
pub proof fn law_strangers_do_not_fit(
    s: ControlView,
    local: Seq<char>,
    nodes: Seq<ClusterNodeView>,
    ring: RingView,
)
    requires
        (forall|j: int| 0 <= j < nodes.len() ==> (#[trigger] nodes[j]).id != local) || (forall|
            j: int,
        |
            0 <= j < s.nodes.len() ==> (#[trigger] s.nodes[j]).id != local),
    ensures
        runtime_mismatch(s, local, nodes, ring) is Some,
{
    lemma_first_index(nodes, |node: ClusterNodeView| node.id == local);
    lemma_first_index(s.nodes, |node: NodeView| node.id == local);
}

/// A handoff of a shard that was handed over before takes the place of the old one, and starts anew. The
/// same handoff again changes nothing where it is over; where it failed it goes on from what it had copied,
/// which is counted. While one runs, no other begins.
pub proof fn law_handoff_after_a_handoff(
    s: ControlView,
    shard: u32,
    from: Seq<char>,
    to: Seq<char>,
    activation_ring_version: u64,
    now_ms: u64,
    i: int,
)
    requires
        0 <= i < s.transitions.len(),
        s.transitions[i].shard == shard,
        forall|k: int| 0 <= k < i ==> (#[trigger] s.transitions[k]).shard != shard,
        begin_step(s, shard, from, to, activation_ring_version, now_ms).1 is Ok,
    ensures
        ({
            let (next, outcome) = begin_step(s, shard, from, to, activation_ring_version, now_ms);
            let was = s.transitions[i];
            let same = was.from_node_id == trimmed(from) && was.to_node_id == trimmed(to)
                && was.activation_ring_version == activation_ring_version;
            let over = was.handoff.phase == ShardHandoffPhase::Completed;
            &&& same || over
            &&& next.transitions.len() == s.transitions.len()
            &&& forall|k: int|
                0 <= k < s.transitions.len() && k != i ==> #[trigger] next.transitions[k]
                    == s.transitions[k]
            &&& next.ring == s.ring
            &&& next.nodes == s.nodes
            &&& next.ring_version == s.ring_version
            &&& over && same ==> next == s
            &&& over && !same ==> next.transitions[i] == (TransitionView {
                shard,
                from_node_id: trimmed(from),
                to_node_id: trimmed(to),
                activation_ring_version,
                handoff: HandoffView {
                    phase: ShardHandoffPhase::Warmup,
                    copied_rows: 0,
                    pending_rows: 0,
                    resumed_count: 0,
                    started_unix_ms: now_ms,
                    updated_unix_ms: now_ms,
                    last_error: None,
                },
            }) && outcome == Ok::<ControlHandoffMutationOutcome, Seq<char>>(
                ControlHandoffMutationOutcome::Applied,
            )
            &&& was.handoff.phase == ShardHandoffPhase::Failed && was.handoff.resumed_count < u64::MAX
                ==> {
                let resumed = next.transitions[i].handoff;
                &&& resumed.phase == ShardHandoffPhase::Warmup
                &&& resumed.resumed_count == was.handoff.resumed_count + 1
                &&& resumed.copied_rows == was.handoff.copied_rows
                &&& resumed.pending_rows == was.handoff.pending_rows
                &&& resumed.updated_unix_ms == now_ms
                &&& next.transitions[i].from_node_id == was.from_node_id
                &&& next.transitions[i].to_node_id == was.to_node_id
                &&& outcome == Ok::<ControlHandoffMutationOutcome, Seq<char>>(
                    ControlHandoffMutationOutcome::Applied,
                )
            }
        }),
{
    lemma_first_index_is(s.transitions, |t: TransitionView| t.shard == shard, i);
}

} // verus!
