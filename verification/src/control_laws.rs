//! Laws of the control state: what every command keeps, what a repeated command does, and what a
//! handoff means for the owners of a shard.

use vstd::prelude::*;
use crate::control::{
    bumped, handoff_changed, phase_step, phase_terminal, ControlHandoffMutationOutcome,
    ControlMembershipMutationOutcome, ControlNodeRecord, ControlNodeStatus, ControlView, NodeView,
    ShardHandoffPhase, ShardOwnershipTransition, TransitionView,
};
use crate::control_commands::{
    activate_step, begin_step, command_field, join_step, kept_transitions, leave_step,
    max_generation, new_transition, ownership_written, progress_step, progress_taken, pruned,
    recommission_step, remove_step, transition_kept, with_node, with_sorted_nodes,
};
use crate::control_ownership::{
    deduped, find_node, find_text, find_transition, initial_nodes, initial_state, is_text,
    lemma_deduped, owners_at, rewritten, runtime_mismatch,
};
use crate::control_validity::{
    assignments_error, member_endpoints, member_ids, nodes_error, owners_error, state_error,
    transition_error, transitions_error,
};
use crate::lists::{
    first_index, lemma_first_index, lemma_first_index_is, lemma_ranked_sort_elements,
    lemma_ranked_sort_in_order, lemma_text_less_total, lemma_text_less_transitive, ranked_sort,
    ranks_consistently, Ranked,
};
use crate::membership::ClusterNodeView;
use crate::ring::{ring_error, RingView};
use crate::text::{lemma_trimmed_twice, text_less, trimmed};

verus! {

// ---------------------------------------------------------------------------------------------
// Phases
// ---------------------------------------------------------------------------------------------

/// A completed handoff stays completed, a failed one can only be warmed up again, and a handoff is
/// completed only from its final synchronisation.
pub proof fn law_phase_order(from: ShardHandoffPhase, to: ShardHandoffPhase)
    requires
        phase_step(from, to),
    ensures
        from == ShardHandoffPhase::Completed ==> to == ShardHandoffPhase::Completed,
        from == ShardHandoffPhase::Failed ==> to == ShardHandoffPhase::Failed || to
            == ShardHandoffPhase::Warmup,
        to == ShardHandoffPhase::Completed ==> from == ShardHandoffPhase::FinalSync || from
            == ShardHandoffPhase::Completed,
{
}

// ---------------------------------------------------------------------------------------------
// Validity
// ---------------------------------------------------------------------------------------------

/// Whether the members are well described: no empty id or endpoint, and none used twice.
pub open spec fn nodes_distinct(nodes: Seq<NodeView>) -> bool {
    &&& forall|i: int|
        0 <= i < nodes.len() ==> trimmed((#[trigger] nodes[i]).id).len() > 0 && trimmed(
            nodes[i].endpoint,
        ).len() > 0
    &&& forall|i: int, j: int|
        0 <= i < j < nodes.len() ==> trimmed((#[trigger] nodes[i]).id) != trimmed(
            (#[trigger] nodes[j]).id,
        ) && trimmed(nodes[i].endpoint) != trimmed(nodes[j].endpoint)
}

proof fn lemma_nodes_error(nodes: Seq<NodeView>, n: nat)
    requires
        n <= nodes.len(),
    ensures
        nodes_error(nodes, n) is None <==> nodes_distinct(nodes.take(n as int)),
    decreases n,
{
    let prefix = nodes.take(n as int);
    if n > 0 {
        let m = (n - 1) as nat;
        lemma_nodes_error(nodes, m);
        let head = nodes.take(m as int);
        assert(forall|i: int| 0 <= i < m ==> #[trigger] head[i] == prefix[i]);
        assert(prefix[m as int] == nodes[m as int]);
        let id = trimmed(nodes[m as int].id);
        let endpoint = trimmed(nodes[m as int].endpoint);
        if nodes_distinct(prefix) {
            assert(nodes_distinct(head));
            if member_ids(head).contains(id) {
                let k = choose|k: int| 0 <= k < m && member_ids(head)[k] == id;
                assert(trimmed(prefix[k].id) != trimmed(prefix[m as int].id));
            }
            if member_endpoints(head).contains(endpoint) {
                let k = choose|k: int| 0 <= k < m && member_endpoints(head)[k] == endpoint;
                assert(trimmed(prefix[k].endpoint) != trimmed(prefix[m as int].endpoint));
            }
            assert(trimmed(prefix[m as int].id).len() > 0);
        }
        if nodes_error(nodes, n) is None {
            assert(nodes_distinct(head));
            assert forall|i: int, j: int| 0 <= i < j < n implies trimmed(
                (#[trigger] prefix[i]).id,
            ) != trimmed((#[trigger] prefix[j]).id) && trimmed(prefix[i].endpoint) != trimmed(
                prefix[j].endpoint,
            ) by {
                if j == m {
                    assert(member_ids(head)[i] == trimmed(prefix[i].id));
                    assert(member_endpoints(head)[i] == trimmed(prefix[i].endpoint));
                } else {
                    assert(head[i] == prefix[i] && head[j] == prefix[j]);
                }
            }
            assert forall|i: int| 0 <= i < n implies trimmed((#[trigger] prefix[i]).id).len() > 0
                && trimmed(prefix[i].endpoint).len() > 0 by {
                if i < m {
                    assert(head[i] == prefix[i]);
                }
            }
        }
    }
}

proof fn lemma_owners_error(
    ids: Seq<Seq<char>>,
    owners: Seq<Seq<char>>,
    shard: int,
    n: nat,
)
    ensures
        owners_error(ids, owners, shard, n) is None <==> forall|k: int|
            0 <= k < n ==> ids.contains(#[trigger] owners[k]),
    decreases n,
{
    if n > 0 {
        lemma_owners_error(ids, owners, shard, (n - 1) as nat);
        if owners_error(ids, owners, shard, n) is None {
            assert forall|k: int| 0 <= k < n implies ids.contains(#[trigger] owners[k]) by {
                if k == n - 1 {
                }
            }
        }
    }
}

proof fn lemma_assignments_error(
    ids: Seq<Seq<char>>,
    assignments: Seq<Seq<Seq<char>>>,
    n: nat,
)
    ensures
        assignments_error(ids, assignments, n) is None <==> forall|shard: int, k: int|
            0 <= shard < n && 0 <= k < assignments[shard].len() ==> ids.contains(
                #[trigger] assignments[shard][k],
            ),
    decreases n,
{
    if n > 0 {
        let m = n - 1;
        lemma_assignments_error(ids, assignments, m as nat);
        lemma_owners_error(ids, assignments[m], m, assignments[m].len());
        if assignments_error(ids, assignments, n) is None {
            assert forall|shard: int, k: int|
                0 <= shard < n && 0 <= k < assignments[shard].len() implies ids.contains(
                #[trigger] assignments[shard][k],
            ) by {
                if shard == m {
                    assert(ids.contains(assignments[m][k]));
                }
            }
        }
    }
}

/// What a valid transition satisfies by itself.
pub open spec fn transition_sound(s: ControlView, t: TransitionView) -> bool {
    &&& t.shard < s.ring.shard_count
    &&& trimmed(t.from_node_id).len() > 0
    &&& trimmed(t.to_node_id).len() > 0
    &&& t.from_node_id != t.to_node_id
    &&& member_ids(s.nodes).contains(t.from_node_id)
    &&& member_ids(s.nodes).contains(t.to_node_id)
    &&& t.activation_ring_version >= s.ring_version || phase_terminal(t.handoff.phase)
    &&& t.handoff.updated_unix_ms == 0 || t.handoff.started_unix_ms <= t.handoff.updated_unix_ms
}

/// Whether the first `n` transitions are sound and of different shards.
pub open spec fn transitions_sound(s: ControlView, n: nat) -> bool {
    &&& forall|i: int| 0 <= i < n ==> transition_sound(s, #[trigger] s.transitions[i])
    &&& forall|i: int, j: int|
        0 <= i < j < n ==> (#[trigger] s.transitions[i]).shard != (
        #[trigger] s.transitions[j]).shard
}

proof fn lemma_transitions_error(s: ControlView, n: nat)
    ensures
        transitions_error(s, n) is None <==> transitions_sound(s, n),
    decreases n,
{
    if n > 0 {
        let m = (n - 1) as nat;
        lemma_transitions_error(s, m);
        let t = s.transitions[m as int];
        if transitions_sound(s, n) {
            assert(transition_sound(s, t));
            if exists|j: int| 0 <= j < m && (#[trigger] s.transitions[j]).shard == t.shard {
                let j = choose|j: int| 0 <= j < m && (#[trigger] s.transitions[j]).shard == t.shard;
                assert(s.transitions[j].shard != s.transitions[m as int].shard);
            }
        }
        if transitions_error(s, n) is None {
            assert(transition_error(s, m as int) is None);
            assert(transition_sound(s, t));
            assert forall|i: int, j: int| 0 <= i < j < n implies (#[trigger] s.transitions[i]).shard
                != (#[trigger] s.transitions[j]).shard by {
                if j == m {
                    assert(!(exists|k: int|
                        0 <= k < m && (#[trigger] s.transitions[k]).shard == t.shard));
                    assert(s.transitions[i].shard != t.shard);
                }
            }
        }
    }
}

/// What every valid control state satisfies.
pub open spec fn state_sound(s: ControlView) -> bool {
    &&& s.membership_epoch > 0
    &&& s.ring_version > 0
    &&& s.nodes.len() > 0
    &&& nodes_distinct(s.nodes)
    &&& s.leader_node_id matches Some(leader) ==> member_ids(s.nodes).contains(leader)
    &&& ring_error(s.ring) is None
    &&& forall|shard: int, k: int|
        0 <= shard < s.ring.assignments.len() && 0 <= k < s.ring.assignments[shard].len()
            ==> member_ids(s.nodes).contains(#[trigger] s.ring.assignments[shard][k])
    &&& transitions_sound(s, s.transitions.len())
}

/// A control state has no fault exactly when its epoch and ring version are set, its members are
/// distinct, its leader, every owner of a shard and both ends of every transition are members, and
/// every shard is in at most one transition.
pub proof fn law_valid_state(s: ControlView)
    ensures
        state_error(s) is None <==> state_sound(s),
{
    assert(s.nodes.take(s.nodes.len() as int) =~= s.nodes);
    lemma_nodes_error(s.nodes, s.nodes.len());
    lemma_assignments_error(member_ids(s.nodes), s.ring.assignments, s.ring.assignments.len());
    lemma_transitions_error(s, s.transitions.len());
}

// ---------------------------------------------------------------------------------------------
// Membership commands
// ---------------------------------------------------------------------------------------------

/// Sorting keeps exactly the elements that were there.
pub proof fn lemma_sort_contains<T: Ranked>(s: Seq<T::V>, x: T::V)
    ensures
        ranked_sort::<T>(s).contains(x) == s.contains(x),
        ranked_sort::<T>(s).len() == s.len(),
{
    broadcast use vstd::seq_lib::group_to_multiset_ensures;

    lemma_ranked_sort_elements::<T>(s);
    assert(ranked_sort::<T>(s).contains(x) <==> ranked_sort::<T>(s).to_multiset().count(x) > 0);
    assert(s.contains(x) <==> s.to_multiset().count(x) > 0);
}

proof fn lemma_find_after_update(nodes: Seq<NodeView>, i: int, node: NodeView, id: Seq<char>)
    requires
        0 <= i < nodes.len(),
        node.id == nodes[i].id,
    ensures
        find_node(nodes.update(i, node), id) == find_node(nodes, id),
{
    let p = |n: NodeView| n.id == id;
    let next = nodes.update(i, node);
    lemma_first_index(nodes, p);
    lemma_first_index(next, p);
    assert forall|j: int| 0 <= j < nodes.len() implies (#[trigger] next[j]).id == nodes[j].id by {}
    match find_node(nodes, id) {
        Some(k) => {
            assert(p(nodes[k]));
            assert forall|j: int| 0 <= j < k implies !p(#[trigger] next[j]) by {
                assert(!p(nodes[j]));
            }
            lemma_first_index_is(next, p, k);
        },
        None => {
            if let Some(k) = find_node(next, id) {
                assert(p(next[k]));
                assert(!p(nodes[k]));
            }
        },
    }
}

/// An empty sequence of distinct members stays distinct in any order.
proof fn lemma_distinct_sorted(nodes: Seq<NodeView>)
    requires
        nodes_distinct(nodes),
    ensures
        nodes_distinct(ranked_sort::<ControlNodeRecord>(nodes)),
{
    broadcast use vstd::seq_lib::group_to_multiset_ensures;

    let sorted = ranked_sort::<ControlNodeRecord>(nodes);
    lemma_ranked_sort_elements::<ControlNodeRecord>(nodes);
    assert forall|i: int| 0 <= i < sorted.len() implies trimmed((#[trigger] sorted[i]).id).len() > 0
        && trimmed(sorted[i].endpoint).len() > 0 by {
        assert(sorted.contains(sorted[i]));
        lemma_sort_contains::<ControlNodeRecord>(nodes, sorted[i]);
        let k = choose|k: int| 0 <= k < nodes.len() && nodes[k] == sorted[i];
        assert(trimmed(nodes[k].id).len() > 0);
    }
    assert forall|i: int, j: int| 0 <= i < j < sorted.len() implies trimmed(
        (#[trigger] sorted[i]).id,
    ) != trimmed((#[trigger] sorted[j]).id) && trimmed(sorted[i].endpoint) != trimmed(
        sorted[j].endpoint,
    ) by {
        assert(sorted.contains(sorted[i]) && sorted.contains(sorted[j]));
        lemma_sort_contains::<ControlNodeRecord>(nodes, sorted[i]);
        lemma_sort_contains::<ControlNodeRecord>(nodes, sorted[j]);
        let a = choose|k: int| 0 <= k < nodes.len() && nodes[k] == sorted[i];
        let b = choose|k: int| 0 <= k < nodes.len() && nodes[k] == sorted[j];
        if a == b {
            assert(nodes.no_duplicates()) by {
                assert forall|x: int, y: int| 0 <= x < nodes.len() && 0 <= y < nodes.len() && x != y
                    implies nodes[x] != nodes[y] by {
                    if x < y {
                        assert(trimmed(nodes[x].id) != trimmed(nodes[y].id));
                    } else {
                        assert(trimmed(nodes[y].id) != trimmed(nodes[x].id));
                    }
                }
            }
            nodes.lemma_multiset_has_no_duplicates();
            assert(sorted.to_multiset().count(sorted[i]) <= 1);
            sorted.lemma_multiset_has_no_duplicates_conv();
            assert(sorted[i] != sorted[j]);
        } else if a < b {
            assert(trimmed(nodes[a].id) != trimmed(nodes[b].id));
        } else {
            assert(trimmed(nodes[b].id) != trimmed(nodes[a].id));
        }
    }
}

/// A refused membership command and one that had nothing to do leave the state as it was; an applied
/// one counts the epoch up and touches neither the ring nor the transitions.
pub proof fn law_membership_outcomes(
    s: ControlView,
    node_id: Seq<char>,
    endpoint: Seq<char>,
    place: Option<Seq<char>>,
)
    ensures
        membership_outcome_kept(s, join_step(s, node_id, endpoint)),
        membership_outcome_kept(s, leave_step(s, node_id)),
        membership_outcome_kept(s, recommission_step(s, node_id, place)),
        membership_outcome_kept(s, activate_step(s, node_id)),
        membership_outcome_kept(s, remove_step(s, node_id)),
{
}

/// What [`law_membership_outcomes`] says of one step.
pub open spec fn membership_outcome_kept(
    s: ControlView,
    step: crate::control_commands::MembershipStep,
) -> bool {
    &&& step.1 != Ok::<ControlMembershipMutationOutcome, Seq<char>>(
        ControlMembershipMutationOutcome::Applied,
    ) ==> step.0 == s
    &&& step.1 == Ok::<ControlMembershipMutationOutcome, Seq<char>>(
        ControlMembershipMutationOutcome::Applied,
    ) ==> step.0.membership_epoch == bumped(s.membership_epoch) && step.0.ring == s.ring
        && step.0.ring_version == s.ring_version && step.0.transitions == s.transitions
}

/// The answer of a command that found nothing to do.
pub open spec fn nothing_to_do(s: ControlView) -> crate::control_commands::MembershipStep {
    (s, Ok(ControlMembershipMutationOutcome::Noop))
}

/// Joining the same node at the same endpoint again does nothing.
pub proof fn law_join_idempotent(s: ControlView, node_id: Seq<char>, endpoint: Seq<char>)
    requires
        state_error(s) is None,
        join_step(s, node_id, endpoint).1 is Ok,
    ensures
        join_step(join_step(s, node_id, endpoint).0, node_id, endpoint) == nothing_to_do(
            join_step(s, node_id, endpoint).0,
        ),
{
    law_valid_state(s);
    let next = join_step(s, node_id, endpoint).0;
    let id = command_field(node_id, "node_id"@, "join_node"@)->Ok_0;
    let place = command_field(endpoint, "endpoint"@, "join_node"@)->Ok_0;
    let p = |n: NodeView| n.id == id;
    lemma_first_index(s.nodes, p);
    lemma_first_index(next.nodes, p);
    match find_node(s.nodes, id) {
        Some(i) => {
            if s.nodes[i].status == ControlNodeStatus::Leaving || s.nodes[i].status
                == ControlNodeStatus::Removed {
                let changed = with_node(s, i, place, ControlNodeStatus::Joining);
                assert(changed.nodes[i].id == id);
                assert(changed.nodes.contains(changed.nodes[i]));
                lemma_sort_contains::<ControlNodeRecord>(changed.nodes, changed.nodes[i]);
                assert forall|j: int| 0 <= j < changed.nodes.len() && j != i implies (
                #[trigger] changed.nodes[j]).id != id by {
                    if j < i {
                        assert(trimmed(s.nodes[j].id) != trimmed(s.nodes[i].id));
                    } else {
                        assert(trimmed(s.nodes[i].id) != trimmed(s.nodes[j].id));
                    }
                }
                lemma_join_found(changed.nodes, id, i);
            }
        },
        None => {
            let fresh = NodeView {
                id,
                endpoint: place,
                membership_generation: bumped(
                    crate::control_commands::max_generation(s.nodes),
                ),
                status: ControlNodeStatus::Joining,
            };
            let nodes = s.nodes.push(fresh);
            assert forall|j: int| 0 <= j < nodes.len() && j != s.nodes.len() implies (
            #[trigger] nodes[j]).id != id by {
                assert(!p(s.nodes[j]));
            }
            assert(nodes[s.nodes.len() as int] == fresh);
            lemma_join_found(nodes, id, s.nodes.len() as int);
        },
    }
}

/// The member that is the only one with its id is the one found after sorting.
proof fn lemma_join_found(nodes: Seq<NodeView>, id: Seq<char>, i: int)
    requires
        0 <= i < nodes.len(),
        nodes[i].id == id,
        forall|j: int| 0 <= j < nodes.len() && j != i ==> (#[trigger] nodes[j]).id != id,
    ensures
        ({
            let sorted = ranked_sort::<ControlNodeRecord>(nodes);
            find_node(sorted, id) matches Some(k) && sorted[k] == nodes[i]
        }),
{
    let sorted = ranked_sort::<ControlNodeRecord>(nodes);
    let p = |n: NodeView| n.id == id;
    lemma_first_index(sorted, p);
    assert(nodes.contains(nodes[i]));
    lemma_sort_contains::<ControlNodeRecord>(nodes, nodes[i]);
    let at = choose|k: int| 0 <= k < sorted.len() && sorted[k] == nodes[i];
    assert(p(sorted[at]));
    match find_node(sorted, id) {
        Some(k) => {
            assert(p(sorted[k]));
            assert(sorted.contains(sorted[k]));
            lemma_sort_contains::<ControlNodeRecord>(nodes, sorted[k]);
            let m = choose|m: int| 0 <= m < nodes.len() && nodes[m] == sorted[k];
            assert(nodes[m].id == id);
            assert(m == i);
        },
        None => {},
    }
}

/// Asking the same node to leave again does nothing.
pub proof fn law_leave_idempotent(s: ControlView, node_id: Seq<char>)
    requires
        leave_step(s, node_id).1 is Ok,
    ensures
        leave_step(leave_step(s, node_id).0, node_id) == nothing_to_do(leave_step(s, node_id).0),
{
    let id = command_field(node_id, "node_id"@, "leave_node"@)->Ok_0;
    lemma_first_index(s.nodes, |n: NodeView| n.id == id);
    let i = find_node(s.nodes, id)->0;
    let next = with_node(s, i, s.nodes[i].endpoint, ControlNodeStatus::Leaving);
    lemma_find_after_update(s.nodes, i, next.nodes[i], id);
}

/// Taking the same node back into service again does nothing.
pub proof fn law_recommission_idempotent(
    s: ControlView,
    node_id: Seq<char>,
    endpoint: Option<Seq<char>>,
)
    requires
        recommission_step(s, node_id, endpoint).1 is Ok,
    ensures
        recommission_step(recommission_step(s, node_id, endpoint).0, node_id, endpoint)
            == nothing_to_do(recommission_step(s, node_id, endpoint).0),
{
    let id = command_field(node_id, "node_id"@, "recommission_node"@)->Ok_0;
    lemma_first_index(s.nodes, |n: NodeView| n.id == id);
    let i = find_node(s.nodes, id)->0;
    let place = match endpoint {
        Some(value) => trimmed(value),
        None => s.nodes[i].endpoint,
    };
    let next = with_node(s, i, place, ControlNodeStatus::Active);
    lemma_find_after_update(s.nodes, i, next.nodes[i], id);
}

/// Activating the same node again does nothing.
pub proof fn law_activate_idempotent(s: ControlView, node_id: Seq<char>)
    requires
        activate_step(s, node_id).1 is Ok,
    ensures
        activate_step(activate_step(s, node_id).0, node_id) == nothing_to_do(
            activate_step(s, node_id).0,
        ),
{
    let id = command_field(node_id, "node_id"@, "activate_node"@)->Ok_0;
    lemma_first_index(s.nodes, |n: NodeView| n.id == id);
    let i = find_node(s.nodes, id)->0;
    let next = with_node(s, i, s.nodes[i].endpoint, ControlNodeStatus::Active);
    lemma_find_after_update(s.nodes, i, next.nodes[i], id);
}

/// Removing the same node again does nothing.
pub proof fn law_remove_idempotent(s: ControlView, node_id: Seq<char>)
    requires
        remove_step(s, node_id).1 is Ok,
    ensures
        remove_step(remove_step(s, node_id).0, node_id) == nothing_to_do(remove_step(s, node_id).0),
{
    let id = command_field(node_id, "node_id"@, "remove_node"@)->Ok_0;
    lemma_first_index(s.nodes, |n: NodeView| n.id == id);
    let i = find_node(s.nodes, id)->0;
    let next = with_node(s, i, s.nodes[i].endpoint, ControlNodeStatus::Removed);
    lemma_find_after_update(s.nodes, i, next.nodes[i], id);
}

/// A node is removed only when it was leaving, owns no shard and takes part in no transition.
pub proof fn law_removed_node_owns_nothing(s: ControlView, node_id: Seq<char>)
    requires
        remove_step(s, node_id).1 == Ok::<ControlMembershipMutationOutcome, Seq<char>>(
            ControlMembershipMutationOutcome::Applied,
        ),
    ensures
        forall|shard: int|
            0 <= shard < s.ring.assignments.len() ==> !(
            #[trigger] s.ring.assignments[shard]).contains(trimmed(node_id)),
        forall|k: int|
            0 <= k < s.transitions.len() ==> (#[trigger] s.transitions[k]).from_node_id != trimmed(
                node_id,
            ) && s.transitions[k].to_node_id != trimmed(node_id),
        remove_step(s, node_id).0.leader_node_id != Some(trimmed(node_id)),
{
}

// ---------------------------------------------------------------------------------------------
// Membership commands keep a state valid
// ---------------------------------------------------------------------------------------------

/// Whether no member other than the one named `id` has that name, or the endpoint `place`, once
/// space around them is cut off.
pub open spec fn place_free(nodes: Seq<NodeView>, id: Seq<char>, place: Seq<char>) -> bool {
    forall|k: int|
        0 <= k < nodes.len() && (#[trigger] nodes[k]).id != id ==> trimmed(nodes[k].id) != id
            && trimmed(nodes[k].endpoint) != place
}

proof fn lemma_with_node_valid(
    s: ControlView,
    i: int,
    endpoint: Seq<char>,
    status: ControlNodeStatus,
)
    requires
        state_error(s) is None,
        0 <= i < s.nodes.len(),
        trimmed(endpoint).len() > 0,
        forall|k: int|
            0 <= k < s.nodes.len() && k != i ==> trimmed((#[trigger] s.nodes[k]).endpoint)
                != trimmed(endpoint),
    ensures
        state_error(with_node(s, i, endpoint, status)) is None,
{
    let next = with_node(s, i, endpoint, status);
    law_valid_state(s);
    law_valid_state(next);
    assert(member_ids(next.nodes) =~= member_ids(s.nodes));
    assert forall|a: int| 0 <= a < s.nodes.len() implies (#[trigger] next.nodes[a]).id
        == s.nodes[a].id by {}
    assert forall|a: int, b: int| 0 <= a < b < next.nodes.len() implies trimmed(
        (#[trigger] next.nodes[a]).id,
    ) != trimmed((#[trigger] next.nodes[b]).id) && trimmed(next.nodes[a].endpoint) != trimmed(
        next.nodes[b].endpoint,
    ) by {
        assert(s.nodes[a].id == next.nodes[a].id && s.nodes[b].id == next.nodes[b].id);
    }
    assert forall|a: int| 0 <= a < next.nodes.len() implies trimmed(
        (#[trigger] next.nodes[a]).id,
    ).len() > 0 && trimmed(next.nodes[a].endpoint).len() > 0 by {
        assert(s.nodes[a].id == next.nodes[a].id);
    }
    assert forall|k: int| 0 <= k < next.transitions.len() implies transition_sound(
        next,
        #[trigger] next.transitions[k],
    ) by {
        assert(transition_sound(s, s.transitions[k]));
    }
}

proof fn lemma_with_status_valid(s: ControlView, i: int, status: ControlNodeStatus)
    requires
        state_error(s) is None,
        0 <= i < s.nodes.len(),
    ensures
        state_error(with_node(s, i, s.nodes[i].endpoint, status)) is None,
{
    law_valid_state(s);
    assert forall|k: int| 0 <= k < s.nodes.len() && k != i implies trimmed(
        (#[trigger] s.nodes[k]).endpoint,
    ) != trimmed(s.nodes[i].endpoint) by {
        if k < i {
            assert(trimmed(s.nodes[k].endpoint) != trimmed(s.nodes[i].endpoint));
        } else {
            assert(trimmed(s.nodes[i].endpoint) != trimmed(s.nodes[k].endpoint));
        }
    }
    lemma_with_node_valid(s, i, s.nodes[i].endpoint, status);
}

proof fn lemma_place_free_at(s: ControlView, i: int, place: Seq<char>)
    requires
        state_error(s) is None,
        0 <= i < s.nodes.len(),
        place_free(s.nodes, s.nodes[i].id, place),
        trimmed(place) == place,
    ensures
        forall|k: int|
            0 <= k < s.nodes.len() && k != i ==> trimmed((#[trigger] s.nodes[k]).endpoint)
                != trimmed(place),
{
    law_valid_state(s);
    assert forall|k: int| 0 <= k < s.nodes.len() && k != i implies trimmed(
        (#[trigger] s.nodes[k]).endpoint,
    ) != trimmed(place) by {
        if k < i {
            assert(trimmed(s.nodes[k].id) != trimmed(s.nodes[i].id));
        } else {
            assert(trimmed(s.nodes[i].id) != trimmed(s.nodes[k].id));
        }
    }
}

proof fn lemma_sorted_valid(s: ControlView)
    requires
        state_error(s) is None,
    ensures
        state_error(with_sorted_nodes(s)) is None,
{
    let next = with_sorted_nodes(s);
    law_valid_state(s);
    law_valid_state(next);
    lemma_distinct_sorted(s.nodes);
    lemma_sort_contains::<ControlNodeRecord>(s.nodes, s.nodes[0]);
    assert forall|x: Seq<char>| member_ids(s.nodes).contains(x) implies #[trigger] member_ids(
        next.nodes,
    ).contains(x) by {
        let k = choose|k: int| 0 <= k < s.nodes.len() && member_ids(s.nodes)[k] == x;
        assert(s.nodes.contains(s.nodes[k]));
        lemma_sort_contains::<ControlNodeRecord>(s.nodes, s.nodes[k]);
        let m = choose|m: int| 0 <= m < next.nodes.len() && next.nodes[m] == s.nodes[k];
        assert(member_ids(next.nodes)[m] == x);
    }
    assert forall|k: int| 0 <= k < next.transitions.len() implies transition_sound(
        next,
        #[trigger] next.transitions[k],
    ) by {
        assert(transition_sound(s, s.transitions[k]));
    }
}

proof fn lemma_with_fresh_node_valid(s: ControlView, fresh: NodeView)
    requires
        state_error(s) is None,
        trimmed(fresh.id) == fresh.id,
        trimmed(fresh.endpoint) == fresh.endpoint,
        fresh.id.len() > 0,
        fresh.endpoint.len() > 0,
        find_node(s.nodes, fresh.id) is None,
        place_free(s.nodes, fresh.id, fresh.endpoint),
    ensures
        state_error(
            ControlView {
                membership_epoch: bumped(s.membership_epoch),
                nodes: s.nodes.push(fresh),
                ..s
            },
        ) is None,
{
    let nodes = s.nodes.push(fresh);
    let next = ControlView { membership_epoch: bumped(s.membership_epoch), nodes, ..s };
    law_valid_state(s);
    law_valid_state(next);
    lemma_first_index(s.nodes, |n: NodeView| n.id == fresh.id);
    assert forall|a: int, b: int| 0 <= a < b < nodes.len() implies trimmed(
        (#[trigger] nodes[a]).id,
    ) != trimmed((#[trigger] nodes[b]).id) && trimmed(nodes[a].endpoint) != trimmed(
        nodes[b].endpoint,
    ) by {
        assert(nodes[a] == s.nodes[a]);
        if b < s.nodes.len() {
            assert(nodes[b] == s.nodes[b]);
        } else {
            assert(s.nodes[a].id != fresh.id);
        }
    }
    assert forall|a: int| 0 <= a < nodes.len() implies trimmed((#[trigger] nodes[a]).id).len() > 0
        && trimmed(nodes[a].endpoint).len() > 0 by {
        if a < s.nodes.len() {
            assert(nodes[a] == s.nodes[a]);
        }
    }
    assert forall|x: Seq<char>| member_ids(s.nodes).contains(x) implies #[trigger] member_ids(
        nodes,
    ).contains(x) by {
        let k = choose|k: int| 0 <= k < s.nodes.len() && member_ids(s.nodes)[k] == x;
        assert(nodes[k] == s.nodes[k]);
        assert(member_ids(nodes)[k] == x);
    }
    assert forall|k: int| 0 <= k < next.transitions.len() implies transition_sound(
        next,
        #[trigger] next.transitions[k],
    ) by {
        assert(transition_sound(s, s.transitions[k]));
    }
}

/// Leaving, activating, taking back at the same endpoint and removing nodes keeps a state valid.
pub proof fn law_status_commands_keep_valid(s: ControlView, node_id: Seq<char>)
    requires
        state_error(s) is None,
    ensures
        state_error(leave_step(s, node_id).0) is None,
        state_error(activate_step(s, node_id).0) is None,
        state_error(recommission_step(s, node_id, None).0) is None,
        state_error(remove_step(s, node_id).0) is None,
{
    let id = trimmed(node_id);
    lemma_first_index(s.nodes, |n: NodeView| n.id == id);
    if let Some(i) = find_node(s.nodes, id) {
        lemma_with_status_valid(s, i, ControlNodeStatus::Leaving);
        lemma_with_status_valid(s, i, ControlNodeStatus::Active);
        lemma_with_status_valid(s, i, ControlNodeStatus::Removed);
        let removed = with_node(s, i, s.nodes[i].endpoint, ControlNodeStatus::Removed);
        let next = remove_step(s, node_id).0;
        law_valid_state(removed);
        law_valid_state(next);
        if next != s {
            assert(next.nodes == removed.nodes);
            assert forall|k: int| 0 <= k < next.transitions.len() implies transition_sound(
                next,
                #[trigger] next.transitions[k],
            ) by {
                assert(transition_sound(removed, removed.transitions[k]));
            }
        }
    }
}

/// Joining a node keeps a state valid, unless it takes effect with the name or the endpoint of
/// another member.
pub proof fn law_join_keeps_valid(s: ControlView, node_id: Seq<char>, endpoint: Seq<char>)
    requires
        state_error(s) is None,
        join_step(s, node_id, endpoint).1 == Ok::<ControlMembershipMutationOutcome, Seq<char>>(
            ControlMembershipMutationOutcome::Applied,
        ) ==> place_free(s.nodes, trimmed(node_id), trimmed(endpoint)),
    ensures
        state_error(join_step(s, node_id, endpoint).0) is None,
{
    lemma_trimmed_twice(node_id);
    lemma_trimmed_twice(endpoint);
    let id = trimmed(node_id);
    let place = trimmed(endpoint);
    if join_step(s, node_id, endpoint).1 == Ok::<ControlMembershipMutationOutcome, Seq<char>>(
        ControlMembershipMutationOutcome::Applied,
    ) {
        lemma_first_index(s.nodes, |n: NodeView| n.id == id);
        match find_node(s.nodes, id) {
            Some(i) => {
                lemma_place_free_at(s, i, place);
                lemma_with_node_valid(s, i, place, ControlNodeStatus::Joining);
                lemma_sorted_valid(with_node(s, i, place, ControlNodeStatus::Joining));
            },
            None => {
                let fresh = NodeView {
                    id,
                    endpoint: place,
                    membership_generation: bumped(max_generation(s.nodes)),
                    status: ControlNodeStatus::Joining,
                };
                lemma_with_fresh_node_valid(s, fresh);
                lemma_sorted_valid(
                    ControlView {
                        membership_epoch: bumped(s.membership_epoch),
                        nodes: s.nodes.push(fresh),
                        ..s
                    },
                );
            },
        }
    }
}

/// Taking a node back into service keeps a state valid, unless it takes effect at the endpoint of
/// another member.
pub proof fn law_recommission_keeps_valid(
    s: ControlView,
    node_id: Seq<char>,
    endpoint: Seq<char>,
)
    requires
        state_error(s) is None,
        recommission_step(s, node_id, Some(endpoint)).1 == Ok::<
            ControlMembershipMutationOutcome,
            Seq<char>,
        >(ControlMembershipMutationOutcome::Applied) ==> place_free(
            s.nodes,
            trimmed(node_id),
            trimmed(endpoint),
        ),
    ensures
        state_error(recommission_step(s, node_id, Some(endpoint)).0) is None,
{
    lemma_trimmed_twice(endpoint);
    let id = trimmed(node_id);
    let place = trimmed(endpoint);
    lemma_first_index(s.nodes, |n: NodeView| n.id == id);
    if recommission_step(s, node_id, Some(endpoint)).1 == Ok::<
        ControlMembershipMutationOutcome,
        Seq<char>,
    >(ControlMembershipMutationOutcome::Applied) {
        let i = find_node(s.nodes, id)->0;
        lemma_place_free_at(s, i, place);
        lemma_with_node_valid(s, i, place, ControlNodeStatus::Active);
    }
}

// ---------------------------------------------------------------------------------------------
// Handoffs
// ---------------------------------------------------------------------------------------------

/// Handoff commands never take the ring back to an older version.
pub proof fn law_ring_version_never_falls(
    s: ControlView,
    shard: u32,
    from: Seq<char>,
    to: Seq<char>,
    activation_ring_version: u64,
    phase: ShardHandoffPhase,
    copied_rows: Option<u64>,
    pending_rows: Option<u64>,
    last_error: Option<Seq<char>>,
    now_ms: u64,
)
    ensures
        begin_step(s, shard, from, to, activation_ring_version, now_ms).0.ring_version
            == s.ring_version,
        progress_step(
            s,
            shard,
            phase,
            copied_rows,
            pending_rows,
            last_error,
            now_ms,
        ).0.ring_version >= s.ring_version,
{
}

/// Whether a list names a node at most once.
pub open spec fn named_once(owners: Seq<Seq<char>>, id: Seq<char>) -> bool {
    forall|x: int, y: int|
        0 <= x < y < owners.len() ==> #[trigger] owners[x] != id || #[trigger] owners[y] != id
}

proof fn lemma_rewritten(owners: Seq<Seq<char>>, from: Seq<char>, to: Seq<char>)
    ensures
        rewritten(owners, from, to).contains(to),
        named_once(owners, from) && from != to ==> !rewritten(owners, from, to).contains(from),
{
    let out = rewritten(owners, from, to);
    lemma_first_index(owners, is_text(from));
    match find_text(owners, from) {
        Some(i) => {
            assert(out[i] == to);
            if named_once(owners, from) && from != to && out.contains(from) {
                let k = choose|k: int| 0 <= k < out.len() && out[k] == from;
                assert(k != i);
                assert(owners[k] == from && owners[i] == from);
            }
        },
        None => {
            if !owners.contains(to) {
                assert(out[owners.len() as int] == to);
            }
            if from != to && out.contains(from) {
                let k = choose|k: int| 0 <= k < out.len() && out[k] == from;
                assert(owners[k] == from);
            }
        },
    }
}

/// The owners of a shard are listed once each, whatever the ring version.
pub proof fn law_owners_distinct(s: ControlView, shard: u32, ring_version: u64)
    ensures
        owners_at(s, shard, ring_version).no_duplicates(),
{
    if shard < s.ring.assignments.len() {
        let base = s.ring.assignments[shard as int];
        lemma_deduped(base);
        if let Some(i) = find_transition(s.transitions, shard) {
            let t = s.transitions[i];
            lemma_deduped(rewritten(base, t.to_node_id, t.from_node_id));
            lemma_deduped(rewritten(base, t.from_node_id, t.to_node_id));
        }
    } else {
        assert(owners_at(s, shard, ring_version).no_duplicates());
    }
}

/// A transition takes effect at its ring version and not before: below it the old owner owns the
/// shard, and from it on the new one does. The other of the two does not own it, unless the ring
/// names that one twice for the shard.
pub proof fn law_activation_barrier(s: ControlView, i: int, ring_version: u64)
    requires
        0 <= i < s.transitions.len(),
        find_transition(s.transitions, s.transitions[i].shard) == Some(i),
        s.transitions[i].shard < s.ring.assignments.len(),
        s.transitions[i].from_node_id != s.transitions[i].to_node_id,
    ensures
        ({
            let t = s.transitions[i];
            let owners = owners_at(s, t.shard, ring_version);
            let base = s.ring.assignments[t.shard as int];
            if ring_version < t.activation_ring_version {
                owners.contains(t.from_node_id) && (named_once(base, t.to_node_id)
                    ==> !owners.contains(t.to_node_id))
            } else {
                owners.contains(t.to_node_id) && (named_once(base, t.from_node_id)
                    ==> !owners.contains(t.from_node_id))
            }
        }),
{
    let t = s.transitions[i];
    let base = s.ring.assignments[t.shard as int];
    lemma_rewritten(base, t.to_node_id, t.from_node_id);
    lemma_rewritten(base, t.from_node_id, t.to_node_id);
    lemma_deduped(rewritten(base, t.to_node_id, t.from_node_id));
    lemma_deduped(rewritten(base, t.from_node_id, t.to_node_id));
}

/// A list without duplicates is its own deduplicated form.
pub proof fn lemma_deduped_same(list: Seq<Seq<char>>)
    requires
        list.no_duplicates(),
    ensures
        deduped(list) == list,
    decreases list.len(),
{
    if list.len() > 0 {
        lemma_deduped_same(list.drop_last());
        assert(list =~= list.drop_last().push(list.last()));
        if list.drop_last().contains(list.last()) {
            let k = choose|k: int|
                0 <= k < list.drop_last().len() && list.drop_last()[k] == list.last();
            assert(list[k] == list[list.len() - 1]);
        }
    }
}

/// Dropping ended transitions that are older than the ring keeps exactly the others.
pub proof fn law_pruning_keeps_the_rest(
    transitions: Seq<TransitionView>,
    ring_version: u64,
    t: TransitionView,
)
    ensures
        kept_transitions(transitions, ring_version).contains(t) == (transitions.contains(t)
            && transition_kept(t, ring_version)),
    decreases transitions.len(),
{
    if transitions.len() > 0 {
        let head = transitions.drop_last();
        let kept = kept_transitions(head, ring_version);
        let out = kept_transitions(transitions, ring_version);
        law_pruning_keeps_the_rest(head, ring_version, t);
        assert(transitions =~= head.push(transitions.last()));
        if transitions.contains(t) {
            let k = choose|k: int| 0 <= k < transitions.len() && transitions[k] == t;
            if k < head.len() {
                assert(head[k] == t);
            }
        }
        if head.contains(t) {
            let k = choose|k: int| 0 <= k < head.len() && head[k] == t;
            assert(transitions[k] == t);
        }
        if kept.contains(t) {
            let k = choose|k: int| 0 <= k < kept.len() && kept[k] == t;
            assert(out[k] == t);
        }
        if transitions.last() == t {
            assert(transitions[transitions.len() - 1] == t);
            if transition_kept(t, ring_version) {
                assert(out[out.len() - 1] == t);
            }
        }
        if out.contains(t) && !kept.contains(t) {
            let k = choose|k: int| 0 <= k < out.len() && out[k] == t;
            if k < kept.len() {
                assert(kept[k] == t);
            }
        }
    }
}

/// A completed handoff puts the new owner into the ring itself, at the version of the transition or
/// later. Unless the ring named the old one twice for the shard, it takes that one out, and at that
/// version the shard has the owners that it had before the handoff was completed.
pub proof fn law_completion_materializes(s: ControlView, shard: u32, now_ms: u64)
    requires
        state_error(s) is None,
        progress_step(s, shard, ShardHandoffPhase::Completed, None, Some(0), None, now_ms).1 is Ok,
    ensures
        ({
            let t = s.transitions[find_transition(s.transitions, shard)->0];
            let next = progress_step(
                s,
                shard,
                ShardHandoffPhase::Completed,
                None,
                Some(0),
                None,
                now_ms,
            ).0;
            &&& next.ring_version >= t.activation_ring_version
            &&& next.ring.assignments[shard as int].contains(t.to_node_id)
            &&& named_once(s.ring.assignments[shard as int], t.from_node_id) ==> {
                &&& !next.ring.assignments[shard as int].contains(t.from_node_id)
                &&& owners_at(next, shard, next.ring_version) == owners_at(
                    s,
                    shard,
                    next.ring_version,
                )
                &&& owners_at(next, shard, next.ring_version)
                    == next.ring.assignments[shard as int]
            }
        }),
{
    law_valid_state(s);
    lemma_first_index(s.transitions, |x: TransitionView| x.shard == shard);
    let i = find_transition(s.transitions, shard)->0;
    let t = s.transitions[i];
    assert(transition_sound(s, t));
    let base = s.ring.assignments[shard as int];
    let row = deduped(rewritten(base, t.from_node_id, t.to_node_id));
    let step = progress_step(s, shard, ShardHandoffPhase::Completed, None, Some(0), None, now_ms);
    let next = step.0;
    let taken = progress_taken(
        s,
        i,
        ShardHandoffPhase::Completed,
        None,
        Some(0),
        None,
        now_ms,
    );
    let written = ownership_written(taken, i);
    lemma_rewritten(base, t.from_node_id, t.to_node_id);
    lemma_deduped(rewritten(base, t.from_node_id, t.to_node_id));
    lemma_deduped_same(row);
    assert(written.transitions[i].shard == shard);
    assert(written.ring.assignments[shard as int] == row);
    if next == s {
        assert(pruned(written) == s);
        assert(s.ring.assignments[shard as int] == row);
    }
    assert(next.ring.assignments[shard as int] == row);
    lemma_first_index(next.transitions, |x: TransitionView| x.shard == shard);
    if let Some(k) = find_transition(next.transitions, shard) {
        let kept = next.transitions[k];
        assert(next.transitions.contains(kept));
        law_pruning_keeps_the_rest(written.transitions, written.ring_version, kept);
        let m = choose|m: int| 0 <= m < written.transitions.len() && written.transitions[m] == kept;
        assert(s.transitions[m].shard == shard);
        if m < i {
            assert(s.transitions[m].shard != s.transitions[i].shard);
        } else if i < m {
            assert(s.transitions[i].shard != s.transitions[m].shard);
        }
        assert(m == i);
        assert(kept.from_node_id == t.from_node_id && kept.to_node_id == t.to_node_id);
        assert(kept.activation_ring_version == t.activation_ring_version);
        lemma_first_index(row, is_text(t.from_node_id));
        if named_once(base, t.from_node_id) {
            if let Some(x) = find_text(row, t.from_node_id) {
                assert(row.contains(row[x]));
            }
            assert(rewritten(row, t.from_node_id, t.to_node_id) == row);
        }
    }
}

proof fn lemma_transitions_sorted_sound(s: ControlView, fresh: TransitionView)
    requires
        transitions_sound(s, s.transitions.len()),
        transition_sound(s, fresh),
        find_transition(s.transitions, fresh.shard) is None,
    ensures
        ({
            let next = ControlView {
                transitions: ranked_sort::<ShardOwnershipTransition>(s.transitions.push(fresh)),
                ..s
            };
            transitions_sound(next, next.transitions.len())
        }),
{
    broadcast use vstd::seq_lib::group_to_multiset_ensures;

    let all = s.transitions.push(fresh);
    let sorted = ranked_sort::<ShardOwnershipTransition>(all);
    let next = ControlView { transitions: sorted, ..s };
    lemma_first_index(s.transitions, |x: TransitionView| x.shard == fresh.shard);
    lemma_ranked_sort_elements::<ShardOwnershipTransition>(all);
    assert forall|x: int, y: int| 0 <= x < y < all.len() implies (#[trigger] all[x]).shard != (
    #[trigger] all[y]).shard by {
        assert(all[x] == s.transitions[x]);
        if y < s.transitions.len() {
            assert(all[y] == s.transitions[y]);
        }
    }
    assert forall|k: int| 0 <= k < sorted.len() implies transition_sound(
        next,
        #[trigger] sorted[k],
    ) by {
        assert(sorted.contains(sorted[k]));
        lemma_sort_contains::<ShardOwnershipTransition>(all, sorted[k]);
        let m = choose|m: int| 0 <= m < all.len() && all[m] == sorted[k];
        if m < s.transitions.len() {
            assert(all[m] == s.transitions[m]);
            assert(transition_sound(s, s.transitions[m]));
        }
    }
    assert(all.no_duplicates()) by {
        assert forall|x: int, y: int| 0 <= x < all.len() && 0 <= y < all.len() && x != y implies all[x]
            != all[y] by {
            if x < y {
                assert(all[x].shard != all[y].shard);
            } else {
                assert(all[y].shard != all[x].shard);
            }
        }
    }
    all.lemma_multiset_has_no_duplicates();
    sorted.lemma_multiset_has_no_duplicates_conv();
    assert forall|x: int, y: int| 0 <= x < y < sorted.len() implies (#[trigger] sorted[x]).shard
        != (#[trigger] sorted[y]).shard by {
        assert(sorted.contains(sorted[x]) && sorted.contains(sorted[y]));
        lemma_sort_contains::<ShardOwnershipTransition>(all, sorted[x]);
        lemma_sort_contains::<ShardOwnershipTransition>(all, sorted[y]);
        let a = choose|m: int| 0 <= m < all.len() && all[m] == sorted[x];
        let b = choose|m: int| 0 <= m < all.len() && all[m] == sorted[y];
        if a < b {
            assert(all[a].shard != all[b].shard);
        } else if b < a {
            assert(all[b].shard != all[a].shard);
        }
    }
}

/// Beginning a handoff keeps a state valid, unless it warms up a transition that started later than
/// now.
pub proof fn law_begin_keeps_valid(
    s: ControlView,
    shard: u32,
    from_node_id: Seq<char>,
    to_node_id: Seq<char>,
    activation_ring_version: u64,
    now_ms: u64,
)
    requires
        state_error(s) is None,
        begin_step(s, shard, from_node_id, to_node_id, activation_ring_version, now_ms).1 == Ok::<
            ControlHandoffMutationOutcome,
            Seq<char>,
        >(ControlHandoffMutationOutcome::Applied) ==> (find_transition(s.transitions, shard)
            matches Some(i) ==> s.transitions[i].handoff.phase == ShardHandoffPhase::Completed
            || now_ms == 0 || s.transitions[i].handoff.started_unix_ms <= now_ms),
    ensures
        state_error(
            begin_step(s, shard, from_node_id, to_node_id, activation_ring_version, now_ms).0,
        ) is None,
{
    let step = begin_step(s, shard, from_node_id, to_node_id, activation_ring_version, now_ms);
    let next = step.0;
    law_valid_state(s);
    law_valid_state(next);
    let from = trimmed(from_node_id);
    let to = trimmed(to_node_id);
    lemma_trimmed_twice(from_node_id);
    lemma_trimmed_twice(to_node_id);
    if step.1 is Ok && next != s {
        lemma_first_index(s.nodes, |n: NodeView| n.id == from);
        lemma_first_index(s.nodes, |n: NodeView| n.id == to);
        let a = find_node(s.nodes, from)->0;
        let b = find_node(s.nodes, to)->0;
        assert(member_ids(s.nodes)[a] == from);
        assert(member_ids(s.nodes)[b] == to);
        let fresh = new_transition(shard, from, to, activation_ring_version, now_ms);
        assert(transition_sound(s, fresh));
        match find_transition(s.transitions, shard) {
            None => {
                lemma_transitions_sorted_sound(s, fresh);
                let sorted = ranked_sort::<ShardOwnershipTransition>(s.transitions.push(fresh));
                let without_stamp = ControlView { transitions: sorted, ..s };
                assert forall|k: int| 0 <= k < next.transitions.len() implies transition_sound(
                    next,
                    #[trigger] next.transitions[k],
                ) by {
                    assert(transition_sound(without_stamp, without_stamp.transitions[k]));
                }
                assert forall|x: int, y: int| 0 <= x < y < next.transitions.len() implies (
                #[trigger] next.transitions[x]).shard != (#[trigger] next.transitions[y]).shard by {
                    assert(without_stamp.transitions[x].shard
                        != without_stamp.transitions[y].shard);
                }
            },
            Some(i) => {
                lemma_first_index(s.transitions, |x: TransitionView| x.shard == shard);
                let t = s.transitions[i];
                assert(transition_sound(s, t));
                assert forall|k: int| 0 <= k < next.transitions.len() implies transition_sound(
                    next,
                    #[trigger] next.transitions[k],
                ) by {
                    assert(transition_sound(s, s.transitions[k]));
                }
                assert forall|x: int, y: int| 0 <= x < y < next.transitions.len() implies (
                #[trigger] next.transitions[x]).shard != (#[trigger] next.transitions[y]).shard by {
                    assert(s.transitions[x].shard != s.transitions[y].shard);
                }
            },
        }
    }
}

proof fn lemma_kept_distinct(transitions: Seq<TransitionView>, ring_version: u64)
    requires
        forall|x: int, y: int|
            0 <= x < y < transitions.len() ==> (#[trigger] transitions[x]).shard != (
            #[trigger] transitions[y]).shard,
    ensures
        ({
            let kept = kept_transitions(transitions, ring_version);
            forall|x: int, y: int|
                0 <= x < y < kept.len() ==> (#[trigger] kept[x]).shard != (#[trigger] kept[y]).shard
        }),
    decreases transitions.len(),
{
    if transitions.len() > 0 {
        let head = transitions.drop_last();
        let before = kept_transitions(head, ring_version);
        let kept = kept_transitions(transitions, ring_version);
        lemma_kept_distinct(head, ring_version);
        assert forall|x: int, y: int| 0 <= x < y < kept.len() implies (#[trigger] kept[x]).shard != (
        #[trigger] kept[y]).shard by {
            if y == before.len() {
                assert(before.contains(kept[x]));
                law_pruning_keeps_the_rest(head, ring_version, kept[x]);
                let m = choose|m: int| 0 <= m < head.len() && head[m] == kept[x];
                assert(transitions[m].shard != transitions[transitions.len() - 1].shard);
            }
        }
    }
}

/// A report of progress that comes no earlier than the start of the handoff keeps a state valid where
/// it leaves no handoff under way that is older than the ring.
pub proof fn law_progress_keeps_valid(
    s: ControlView,
    shard: u32,
    phase: ShardHandoffPhase,
    copied_rows: Option<u64>,
    pending_rows: Option<u64>,
    last_error: Option<Seq<char>>,
    now_ms: u64,
)
    requires
        state_error(s) is None,
        find_transition(s.transitions, shard) matches Some(i) ==> phase_step(
            s.transitions[i].handoff.phase,
            phase,
        ) ==> {
            let t = s.transitions[i];
            let taken = progress_taken(s, i, phase, copied_rows, pending_rows, last_error, now_ms);
            &&& handoff_changed(t.handoff, phase, copied_rows, pending_rows, last_error)
                ==> now_ms == 0 || t.handoff.started_unix_ms <= now_ms
            &&& forall|k: int|
                0 <= k < taken.transitions.len() ==> phase_terminal(
                    (#[trigger] taken.transitions[k]).handoff.phase,
                ) || taken.transitions[k].activation_ring_version >= taken.ring_version
        },
    ensures
        state_error(
            progress_step(s, shard, phase, copied_rows, pending_rows, last_error, now_ms).0,
        ) is None,
{
    let step = progress_step(s, shard, phase, copied_rows, pending_rows, last_error, now_ms);
    let next = step.0;
    law_valid_state(s);
    law_valid_state(next);
    lemma_first_index(s.transitions, |x: TransitionView| x.shard == shard);
    if let Some(i) = find_transition(s.transitions, shard) {
        let t = s.transitions[i];
        assert(transition_sound(s, t));
        let taken = progress_taken(s, i, phase, copied_rows, pending_rows, last_error, now_ms);
        if phase_step(t.handoff.phase, phase) && next != s {
            let written = if phase == ShardHandoffPhase::Completed {
                ownership_written(taken, i)
            } else {
                taken
            };
            let row = s.ring.assignments[shard as int];
            let rows = written.ring.assignments;
            assert forall|r: int, k: int|
                0 <= r < rows.len() && 0 <= k < rows[r].len() implies member_ids(s.nodes).contains(
                #[trigger] rows[r][k],
            ) by {
                if phase == ShardHandoffPhase::Completed && r == shard {
                    let moved = rewritten(row, t.from_node_id, t.to_node_id);
                    lemma_deduped(moved);
                    lemma_first_index(row, is_text(t.from_node_id));
                    assert(rows[r] == deduped(moved));
                    assert(deduped(moved).contains(rows[r][k]));
                    let m = choose|m: int| 0 <= m < moved.len() && moved[m] == rows[r][k];
                    if moved[m] != t.to_node_id {
                        assert(moved[m] == s.ring.assignments[r][m]);
                    }
                } else {
                    assert(rows[r] == s.ring.assignments[r]);
                }
            }
            assert forall|x: int, y: int| 0 <= x < y < written.transitions.len() implies (
            #[trigger] written.transitions[x]).shard != (#[trigger] written.transitions[y]).shard by {
                assert(s.transitions[x].shard != s.transitions[y].shard);
            }
            lemma_kept_distinct(written.transitions, written.ring_version);
            assert forall|k: int| 0 <= k < next.transitions.len() implies transition_sound(
                next,
                #[trigger] next.transitions[k],
            ) by {
                let u = next.transitions[k];
                assert(next.transitions.contains(u));
                law_pruning_keeps_the_rest(written.transitions, written.ring_version, u);
                let m = choose|m: int|
                    0 <= m < written.transitions.len() && written.transitions[m] == u;
                assert(u == taken.transitions[m]);
                assert(transition_sound(s, s.transitions[m]));
            }
        }
    }
}

proof fn lemma_nodes_rank()
    ensures
        ranks_consistently::<ControlNodeRecord>(),
{
    assert forall|a: NodeView, b: NodeView| #[trigger] ControlNodeRecord::before(a, b) implies
        !ControlNodeRecord::before(b, a) by {
        lemma_text_less_total(a.id, b.id);
        lemma_text_less_total(a.endpoint, b.endpoint);
    }
    assert forall|a: NodeView, b: NodeView, c: NodeView|
        !(#[trigger] ControlNodeRecord::before(b, a)) && !(#[trigger] ControlNodeRecord::before(
            c,
            b,
        )) implies !ControlNodeRecord::before(c, a) by {
        if ControlNodeRecord::before(c, a) {
            lemma_text_less_total(a.id, b.id);
            lemma_text_less_total(b.id, c.id);
            lemma_text_less_total(a.endpoint, b.endpoint);
            lemma_text_less_total(b.endpoint, c.endpoint);
            if text_less(a.id, b.id) {
                if text_less(c.id, a.id) {
                    lemma_text_less_transitive(c.id, a.id, b.id);
                }
            } else if text_less(b.id, c.id) {
                if text_less(c.id, a.id) {
                    lemma_text_less_transitive(b.id, c.id, a.id);
                }
            } else if text_less(a.endpoint, b.endpoint) {
                if text_less(c.endpoint, a.endpoint) {
                    lemma_text_less_transitive(c.endpoint, a.endpoint, b.endpoint);
                }
            } else if text_less(b.endpoint, c.endpoint) {
                if text_less(c.endpoint, a.endpoint) {
                    lemma_text_less_transitive(b.endpoint, c.endpoint, a.endpoint);
                }
            }
        }
    }
}

proof fn lemma_found_by_name(nodes: Seq<NodeView>, node: NodeView)
    requires
        nodes_distinct(nodes),
        nodes.contains(node),
    ensures
        find_node(nodes, node.id) matches Some(i) && nodes[i] == node,
{
    lemma_first_index(nodes, |n: NodeView| n.id == node.id);
    let k = choose|k: int| 0 <= k < nodes.len() && nodes[k] == node;
    if let Some(i) = find_node(nodes, node.id) {
        if i < k {
            assert(trimmed(nodes[i].id) != trimmed(nodes[k].id));
        } else if k < i {
            assert(trimmed(nodes[k].id) != trimmed(nodes[i].id));
        }
    }
}

/// The state that a cluster starts with fits its membership and its ring, for a membership that
/// holds this node and names no node and no endpoint twice, and a usable ring whose owners are
/// members: it is valid and passes the check against both. It is the first of everything, without a
/// leader or a transition; it has the ring as it is, and the members in the order of their names,
/// each active and of the first generation.
pub proof fn law_first_state_fits(
    local: Seq<char>,
    nodes: Seq<ClusterNodeView>,
    ring: RingView,
    now_ms: u64,
)
    requires
        nodes_distinct(initial_nodes(nodes)),
        exists|i: int| 0 <= i < nodes.len() && (#[trigger] nodes[i]).id == local,
        ring_error(ring) is None,
        forall|shard: int, k: int|
            0 <= shard < ring.assignments.len() && 0 <= k < ring.assignments[shard].len()
                ==> member_ids(initial_nodes(nodes)).contains(
                #[trigger] ring.assignments[shard][k],
            ),
    ensures
        ({
            let s = initial_state(nodes, ring, now_ms);
            &&& state_error(s) is None
            &&& runtime_mismatch(s, local, nodes, ring) is None
            &&& s.membership_epoch == 1 && s.ring_version == 1
            &&& s.applied_log_index == 0 && s.applied_log_term == 0
            &&& s.leader_node_id is None && s.transitions.len() == 0
            &&& s.ring == ring
            &&& s.nodes.len() == nodes.len()
            &&& forall|i: int, k: int|
                0 <= i < k < s.nodes.len() ==> text_less(
                    (#[trigger] s.nodes[i]).id,
                    (#[trigger] s.nodes[k]).id,
                )
            &&& forall|x: NodeView| #[trigger]
                s.nodes.contains(x) <==> x.membership_generation == 1 && x.status
                    == ControlNodeStatus::Active && exists|i: int|
                    0 <= i < nodes.len() && (#[trigger] nodes[i]).id == x.id && nodes[i].endpoint
                        == x.endpoint
        }),
{
    let first = initial_nodes(nodes);
    let s = initial_state(nodes, ring, now_ms);
    law_valid_state(s);
    lemma_distinct_sorted(first);
    lemma_nodes_rank();
    lemma_ranked_sort_in_order::<ControlNodeRecord>(first);
    lemma_ranked_sort_elements::<ControlNodeRecord>(first);
    assert forall|x: Seq<char>| member_ids(first).contains(x) implies #[trigger] member_ids(
        s.nodes,
    ).contains(x) by {
        let k = choose|k: int| 0 <= k < first.len() && member_ids(first)[k] == x;
        assert(first.contains(first[k]));
        lemma_sort_contains::<ControlNodeRecord>(first, first[k]);
        let m = choose|m: int| 0 <= m < s.nodes.len() && s.nodes[m] == first[k];
        assert(member_ids(s.nodes)[m] == x);
    }
    assert forall|i: int, k: int| 0 <= i < k < s.nodes.len() implies text_less(
        (#[trigger] s.nodes[i]).id,
        (#[trigger] s.nodes[k]).id,
    ) by {
        assert(trimmed(s.nodes[i].id) != trimmed(s.nodes[k].id));
        assert(!ControlNodeRecord::before(s.nodes[k], s.nodes[i]));
        lemma_text_less_total(s.nodes[i].id, s.nodes[k].id);
    }
    assert forall|x: NodeView| #[trigger] s.nodes.contains(x) <==> x.membership_generation == 1
        && x.status == ControlNodeStatus::Active && exists|i: int|
        0 <= i < nodes.len() && (#[trigger] nodes[i]).id == x.id && nodes[i].endpoint
            == x.endpoint by {
        lemma_sort_contains::<ControlNodeRecord>(first, x);
        if first.contains(x) {
            let k = choose|k: int| 0 <= k < first.len() && first[k] == x;
            assert(nodes[k].id == x.id);
        }
        if x.membership_generation == 1 && x.status == ControlNodeStatus::Active && exists|i: int|
            0 <= i < nodes.len() && (#[trigger] nodes[i]).id == x.id && nodes[i].endpoint
                == x.endpoint {
            let k = choose|i: int|
                0 <= i < nodes.len() && (#[trigger] nodes[i]).id == x.id && nodes[i].endpoint
                    == x.endpoint;
            assert(first[k] == x);
        }
    }
    lemma_first_index(nodes, |node: ClusterNodeView| node.id == local);
    let k = choose|i: int| 0 <= i < nodes.len() && (#[trigger] nodes[i]).id == local;
    let here = first_index(nodes, |node: ClusterNodeView| node.id == local)->0;
    let own = first[here];
    assert(first.contains(own));
    lemma_sort_contains::<ControlNodeRecord>(first, own);
    lemma_found_by_name(s.nodes, own);
}

} // verus!
