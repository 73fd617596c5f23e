//! What each control command makes of the control state.

use vstd::prelude::*;
use crate::clock::unix_timestamp_millis;
use crate::control::{
    bumped, handoff_advanced, handoff_bootstrap, handoff_changed, phase_refusal, phase_step,
    phase_terminal, ControlHandoffMutationOutcome, ControlMembershipMutationOutcome,
    ControlNodeRecord, ControlNodeStatus, ControlState, ControlView, NodeView, ShardHandoffPhase,
    ShardHandoffProgress, ShardOwnershipTransition, TransitionView,
};
use crate::control_ownership::{
    deduped, find_node, find_transition, locate_node, locate_transition, materialize_shard_owner,
    owners_at, rewritten,
};
use crate::lists::{group_views, ranked_sort, sort_ranked, views, Ranked};
use crate::ring::{rows, RingView};
use crate::text::{
    cat2, cat3, cat4, cat7, contains_text, decimal, message_view, number, opt_str, opt_text, owned,
    same, trim, trimmed,
};

verus! {

broadcast use group_views;

/// What a membership command leaves behind and what it answers.
pub type MembershipStep = (ControlView, Result<ControlMembershipMutationOutcome, Seq<char>>);

/// What a handoff command leaves behind and what it answers.
pub type HandoffStep = (ControlView, Result<ControlHandoffMutationOutcome, Seq<char>>);

/// A command field without white space at its ends, unless nothing is left.
pub open spec fn command_field(
    value: Seq<char>,
    field: Seq<char>,
    command: Seq<char>,
) -> Result<Seq<char>, Seq<char>> {
    if trimmed(value).len() == 0 {
        Err("control command "@ + command + " has an empty "@ + field)
    } else {
        Ok(trimmed(value))
    }
}

fn normalize_non_empty_membership_field(value: &str, field_name: &str, command_name: &str) -> (res:
    Result<String, String>)
    ensures
        match res {
            Ok(text) => command_field(value@, field_name@, command_name@) == Ok::<
                Seq<char>,
                Seq<char>,
            >(text@),
            Err(message) => command_field(value@, field_name@, command_name@) == Err::<
                Seq<char>,
                Seq<char>,
            >(message@),
        },
{
    let text = trim(value);
    if text.is_empty() {
        return Err(cat4("control command ", command_name, " has an empty ", field_name));
    }
    Ok(owned(text))
}

/// The generation that follows a member's current one.
pub open spec fn generation_after(generation: u64) -> u64 {
    bumped(generation)
}

/// The largest generation of the members.
pub open spec fn max_generation(nodes: Seq<NodeView>) -> u64
    decreases nodes.len(),
{
    if nodes.len() == 0 {
        0
    } else if max_generation(nodes.drop_last()) >= nodes.last().membership_generation {
        max_generation(nodes.drop_last())
    } else {
        nodes.last().membership_generation
    }
}

fn next_membership_generation(nodes: &Vec<ControlNodeRecord>) -> (res: u64)
    ensures
        res == bumped(max_generation(views(nodes@))),
{
    let ghost all = views(nodes@);
    let mut largest: u64 = 0;
    let mut i: usize = 0;
    assert(all.take(0) =~= Seq::<NodeView>::empty());
    while i < nodes.len()
        invariant
            i <= nodes.len(),
            all == views(nodes@),
            largest == max_generation(all.take(i as int)),
        decreases nodes.len() - i,
    {
        assert(all.take(i + 1).drop_last() =~= all.take(i as int));
        assert(all.take(i + 1).last() == nodes@[i as int]@);
        if nodes[i].membership_generation > largest {
            largest = nodes[i].membership_generation;
        }
        i += 1;
    }
    assert(all.take(i as int) =~= all);
    largest.saturating_add(1)
}

fn bump_membership_generation(current: u64) -> (res: u64)
    ensures
        res == generation_after(current),
{
    if current == 0 {
        1
    } else {
        current.saturating_add(1)
    }
}

/// The state with member `i` changed, its generation and the epoch counted up.
pub open spec fn with_node(
    s: ControlView,
    i: int,
    endpoint: Seq<char>,
    status: ControlNodeStatus,
) -> ControlView {
    let node = s.nodes[i];
    ControlView {
        membership_epoch: bumped(s.membership_epoch),
        nodes: s.nodes.update(
            i,
            NodeView {
                id: node.id,
                endpoint,
                membership_generation: generation_after(node.membership_generation),
                status,
            },
        ),
        ..s
    }
}

/// The state with its members in order.
pub open spec fn with_sorted_nodes(s: ControlView) -> ControlView {
    ControlView { nodes: ranked_sort::<ControlNodeRecord>(s.nodes), ..s }
}

/// What joining a node does: a new node is added as joining; a node that left or was removed joins
/// again; only a removed node may come back at another endpoint.
pub open spec fn join_step(s: ControlView, node_id: Seq<char>, endpoint: Seq<char>) -> MembershipStep {
    match (
        command_field(node_id, "node_id"@, "join_node"@),
        command_field(endpoint, "endpoint"@, "join_node"@),
    ) {
        (Err(message), _) => (s, Err(message)),
        (Ok(_), Err(message)) => (s, Err(message)),
        (Ok(id), Ok(place)) => match find_node(s.nodes, id) {
            Some(i) => {
                let node = s.nodes[i];
                let settled = node.status == ControlNodeStatus::Joining || node.status
                    == ControlNodeStatus::Active;
                if node.endpoint != place && node.status != ControlNodeStatus::Removed {
                    (
                        s,
                        Err(
                            "control command join_node endpoint mismatch for existing node '"@ + id
                                + "': '"@ + node.endpoint + "' != '"@ + place + "'"@,
                        ),
                    )
                } else if settled {
                    (s, Ok(ControlMembershipMutationOutcome::Noop))
                } else {
                    (
                        with_sorted_nodes(with_node(s, i, place, ControlNodeStatus::Joining)),
                        Ok(ControlMembershipMutationOutcome::Applied),
                    )
                }
            },
            None => (
                with_sorted_nodes(
                    ControlView {
                        membership_epoch: bumped(s.membership_epoch),
                        nodes: s.nodes.push(
                            NodeView {
                                id,
                                endpoint: place,
                                membership_generation: bumped(max_generation(s.nodes)),
                                status: ControlNodeStatus::Joining,
                            },
                        ),
                        ..s
                    },
                ),
                Ok(ControlMembershipMutationOutcome::Applied),
            ),
        },
    }
}

/// What asking a node to leave does.
pub open spec fn leave_step(s: ControlView, node_id: Seq<char>) -> MembershipStep {
    match command_field(node_id, "node_id"@, "leave_node"@) {
        Err(message) => (s, Err(message)),
        Ok(id) => match find_node(s.nodes, id) {
            None => (
                s,
                Err("control command leave_node references unknown node '"@ + id + "'"@),
            ),
            Some(i) => if s.nodes[i].status == ControlNodeStatus::Leaving || s.nodes[i].status
                == ControlNodeStatus::Removed {
                (s, Ok(ControlMembershipMutationOutcome::Noop))
            } else {
                (
                    with_node(s, i, s.nodes[i].endpoint, ControlNodeStatus::Leaving),
                    Ok(ControlMembershipMutationOutcome::Applied),
                )
            },
        },
    }
}

/// What taking a node back into service does, possibly at another endpoint.
pub open spec fn recommission_step(
    s: ControlView,
    node_id: Seq<char>,
    endpoint: Option<Seq<char>>,
) -> MembershipStep {
    match command_field(node_id, "node_id"@, "recommission_node"@) {
        Err(message) => (s, Err(message)),
        Ok(id) => match endpoint {
            Some(value) => match command_field(value, "endpoint"@, "recommission"@) {
                Err(message) => (s, Err(message)),
                Ok(place) => recommission_at(s, id, Some(place)),
            },
            None => recommission_at(s, id, None),
        },
    }
}

/// What taking the node `id` back into service does.
pub open spec fn recommission_at(
    s: ControlView,
    id: Seq<char>,
    place: Option<Seq<char>>,
) -> MembershipStep {
    match find_node(s.nodes, id) {
        None => (
            s,
            Err("control command recommission_node references unknown node '"@ + id + "'"@),
        ),
        Some(i) => {
            let endpoint = if place is Some {
                place->0
            } else {
                s.nodes[i].endpoint
            };
            if endpoint == s.nodes[i].endpoint && s.nodes[i].status == ControlNodeStatus::Active {
                (s, Ok(ControlMembershipMutationOutcome::Noop))
            } else {
                (
                    with_node(s, i, endpoint, ControlNodeStatus::Active),
                    Ok(ControlMembershipMutationOutcome::Applied),
                )
            }
        },
    }
}

/// What activating a node does.
pub open spec fn activate_step(s: ControlView, node_id: Seq<char>) -> MembershipStep {
    match command_field(node_id, "node_id"@, "activate_node"@) {
        Err(message) => (s, Err(message)),
        Ok(id) => match find_node(s.nodes, id) {
            None => (
                s,
                Err("control command activate_node references unknown node '"@ + id + "'"@),
            ),
            Some(i) => if s.nodes[i].status == ControlNodeStatus::Removed {
                (
                    s,
                    Err(
                        "control command activate_node cannot reactivate removed node '"@ + id
                            + "'; use join_node"@,
                    ),
                )
            } else if s.nodes[i].status == ControlNodeStatus::Active {
                (s, Ok(ControlMembershipMutationOutcome::Noop))
            } else {
                (
                    with_node(s, i, s.nodes[i].endpoint, ControlNodeStatus::Active),
                    Ok(ControlMembershipMutationOutcome::Applied),
                )
            },
        },
    }
}

/// Whether a node owns a shard in the ring as it stands.
pub open spec fn owns_any(assignments: Seq<Seq<Seq<char>>>, id: Seq<char>) -> bool {
    exists|shard: int|
        0 <= shard < assignments.len() && (#[trigger] assignments[shard]).contains(id)
}

/// Whether a node takes part in a transition.
pub open spec fn takes_part(transitions: Seq<TransitionView>, id: Seq<char>) -> bool {
    exists|k: int|
        0 <= k < transitions.len() && ((#[trigger] transitions[k]).from_node_id == id
            || transitions[k].to_node_id == id)
}

/// What removing a node does: it must be leaving, own nothing and take part in no transition.
pub open spec fn remove_step(s: ControlView, node_id: Seq<char>) -> MembershipStep {
    match command_field(node_id, "node_id"@, "remove_node"@) {
        Err(message) => (s, Err(message)),
        Ok(id) => match find_node(s.nodes, id) {
            None => (
                s,
                Err("control command remove_node references unknown node '"@ + id + "'"@),
            ),
            Some(i) => if s.nodes[i].status == ControlNodeStatus::Removed {
                (s, Ok(ControlMembershipMutationOutcome::Noop))
            } else if s.nodes[i].status != ControlNodeStatus::Leaving {
                (
                    s,
                    Err(
                        "control command remove_node requires node '"@ + id
                            + "' to be in leaving state"@,
                    ),
                )
            } else if owns_any(s.ring.assignments, id) {
                (
                    s,
                    Err(
                        "control command remove_node requires node '"@ + id
                            + "' to own no shards in the current ring"@,
                    ),
                )
            } else if takes_part(s.transitions, id) {
                (
                    s,
                    Err(
                        "control command remove_node requires node '"@ + id
                            + "' to have no in-flight shard transitions"@,
                    ),
                )
            } else {
                (
                    ControlView {
                        leader_node_id: if s.leader_node_id == Some(id) {
                            None
                        } else {
                            s.leader_node_id
                        },
                        ..with_node(s, i, s.nodes[i].endpoint, ControlNodeStatus::Removed)
                    },
                    Ok(ControlMembershipMutationOutcome::Applied),
                )
            },
        },
    }
}

fn owns_any_shard(assignments: &Vec<Vec<String>>, id: &str) -> (res: bool)
    ensures
        res == owns_any(rows(assignments@), id@),
{
    let mut shard: usize = 0;
    while shard < assignments.len()
        invariant
            shard <= assignments.len(),
            forall|k: int| 0 <= k < shard ==> !(#[trigger] rows(assignments@)[k]).contains(id@),
        decreases assignments.len() - shard,
    {
        assert(rows(assignments@)[shard as int] == views(assignments@[shard as int]@));
        if contains_text(&assignments[shard], id) {
            return true;
        }
        shard += 1;
    }
    false
}

fn takes_part_in_any(transitions: &Vec<ShardOwnershipTransition>, id: &str) -> (res: bool)
    ensures
        res == takes_part(views(transitions@), id@),
{
    let mut k: usize = 0;
    while k < transitions.len()
        invariant
            k <= transitions.len(),
            forall|j: int|
                0 <= j < k ==> (#[trigger] views(transitions@)[j]).from_node_id != id@ && views(
                    transitions@,
                )[j].to_node_id != id@,
        decreases transitions.len() - k,
    {
        assert(views(transitions@)[k as int] == transitions@[k as int]@);
        if same(&transitions[k].from_node_id, id) || same(&transitions[k].to_node_id, id) {
            return true;
        }
        k += 1;
    }
    false
}

impl ControlState {
    /// Gives member `i` an endpoint and a status, and counts its generation and the epoch up.
    fn change_node(&mut self, i: usize, endpoint: String, status: ControlNodeStatus)
        requires
            i < old(self).nodes.len(),
        ensures
            final(self)@ == with_node(old(self)@, i as int, endpoint@, status),
            final(self).nodes.len() == old(self).nodes.len(),
    {
        assert(self@.nodes[i as int] == self.nodes@[i as int]@);
        let node = ControlNodeRecord {
            id: self.nodes[i].id.clone(),
            endpoint,
            membership_generation: bump_membership_generation(self.nodes[i].membership_generation),
            status,
        };
        self.nodes.set(i, node);
        self.membership_epoch = self.membership_epoch.saturating_add(1);
    }

    fn sort_nodes(&mut self)
        ensures
            final(self)@ == with_sorted_nodes(old(self)@),
    {
        let mut nodes: Vec<ControlNodeRecord> = Vec::new();
        std::mem::swap(&mut nodes, &mut self.nodes);
        self.nodes = sort_ranked(nodes);
    }

    /// Lets a node join the cluster.
    pub fn apply_join_node(&mut self, node_id: &str, endpoint: &str) -> (res: Result<
        ControlMembershipMutationOutcome,
        String,
    >)
        ensures
            (final(self)@, message_view(res)) == join_step(old(self)@, node_id@, endpoint@),
    {
        let id = match normalize_non_empty_membership_field(node_id, "node_id", "join_node") {
            Ok(id) => id,
            Err(message) => {
                return Err(message);
            },
        };
        let place = match normalize_non_empty_membership_field(endpoint, "endpoint", "join_node") {
            Ok(place) => place,
            Err(message) => {
                return Err(message);
            },
        };
        match locate_node(&self.nodes, &id) {
            Some(i) => {
                assert(self@.nodes[i as int] == self.nodes@[i as int]@);
                if !same(&self.nodes[i].endpoint, &place) && self.nodes[i].status
                    != ControlNodeStatus::Removed {
                    return Err(
                        cat7(
                            "control command join_node endpoint mismatch for existing node '",
                            &id,
                            "': '",
                            &self.nodes[i].endpoint,
                            "' != '",
                            &place,
                            "'",
                        ),
                    );
                }
                if self.nodes[i].status == ControlNodeStatus::Joining || self.nodes[i].status
                    == ControlNodeStatus::Active {
                    return Ok(ControlMembershipMutationOutcome::Noop);
                }
                self.change_node(i, place, ControlNodeStatus::Joining);
            },
            None => {
                let generation = next_membership_generation(&self.nodes);
                self.nodes.push(
                    ControlNodeRecord {
                        id,
                        endpoint: place,
                        membership_generation: generation,
                        status: ControlNodeStatus::Joining,
                    },
                );
                self.membership_epoch = self.membership_epoch.saturating_add(1);
            },
        }
        self.sort_nodes();
        Ok(ControlMembershipMutationOutcome::Applied)
    }

    /// Asks a node to leave the cluster.
    pub fn apply_leave_node(&mut self, node_id: &str) -> (res: Result<
        ControlMembershipMutationOutcome,
        String,
    >)
        ensures
            (final(self)@, message_view(res)) == leave_step(old(self)@, node_id@),
    {
        let id = match normalize_non_empty_membership_field(node_id, "node_id", "leave_node") {
            Ok(id) => id,
            Err(message) => {
                return Err(message);
            },
        };
        let i = match locate_node(&self.nodes, &id) {
            Some(i) => i,
            None => {
                return Err(
                    cat3("control command leave_node references unknown node '", &id, "'"),
                );
            },
        };
        assert(self@.nodes[i as int] == self.nodes@[i as int]@);
        if self.nodes[i].status == ControlNodeStatus::Leaving || self.nodes[i].status
            == ControlNodeStatus::Removed {
            return Ok(ControlMembershipMutationOutcome::Noop);
        }
        let endpoint = self.nodes[i].endpoint.clone();
        self.change_node(i, endpoint, ControlNodeStatus::Leaving);
        Ok(ControlMembershipMutationOutcome::Applied)
    }

    /// Takes a node back into service, possibly at another endpoint.
    pub fn apply_recommission_node(&mut self, node_id: &str, endpoint: Option<&str>) -> (res:
        Result<ControlMembershipMutationOutcome, String>)
        ensures
            (final(self)@, message_view(res)) == recommission_step(
                old(self)@,
                node_id@,
                opt_str(endpoint),
            ),
    {
        let id = match normalize_non_empty_membership_field(
            node_id,
            "node_id",
            "recommission_node",
        ) {
            Ok(id) => id,
            Err(message) => {
                return Err(message);
            },
        };
        let place: Option<String> = match endpoint {
            Some(value) => match normalize_non_empty_membership_field(
                value,
                "endpoint",
                "recommission",
            ) {
                Ok(place) => Some(place),
                Err(message) => {
                    return Err(message);
                },
            },
            None => None,
        };
        let i = match locate_node(&self.nodes, &id) {
            Some(i) => i,
            None => {
                return Err(
                    cat3("control command recommission_node references unknown node '", &id, "'"),
                );
            },
        };
        assert(self@.nodes[i as int] == self.nodes@[i as int]@);
        let target = match place {
            Some(place) => place,
            None => self.nodes[i].endpoint.clone(),
        };
        if same(&target, &self.nodes[i].endpoint) && self.nodes[i].status
            == ControlNodeStatus::Active {
            return Ok(ControlMembershipMutationOutcome::Noop);
        }
        self.change_node(i, target, ControlNodeStatus::Active);
        Ok(ControlMembershipMutationOutcome::Applied)
    }

    /// Makes a node active.
    pub fn apply_activate_node(&mut self, node_id: &str) -> (res: Result<
        ControlMembershipMutationOutcome,
        String,
    >)
        ensures
            (final(self)@, message_view(res)) == activate_step(old(self)@, node_id@),
    {
        let id = match normalize_non_empty_membership_field(node_id, "node_id", "activate_node") {
            Ok(id) => id,
            Err(message) => {
                return Err(message);
            },
        };
        let i = match locate_node(&self.nodes, &id) {
            Some(i) => i,
            None => {
                return Err(
                    cat3("control command activate_node references unknown node '", &id, "'"),
                );
            },
        };
        assert(self@.nodes[i as int] == self.nodes@[i as int]@);
        if self.nodes[i].status == ControlNodeStatus::Removed {
            return Err(
                cat3(
                    "control command activate_node cannot reactivate removed node '",
                    &id,
                    "'; use join_node",
                ),
            );
        }
        if self.nodes[i].status == ControlNodeStatus::Active {
            return Ok(ControlMembershipMutationOutcome::Noop);
        }
        let endpoint = self.nodes[i].endpoint.clone();
        self.change_node(i, endpoint, ControlNodeStatus::Active);
        Ok(ControlMembershipMutationOutcome::Applied)
    }

    /// Removes a node that has left.
    pub fn apply_remove_node(&mut self, node_id: &str) -> (res: Result<
        ControlMembershipMutationOutcome,
        String,
    >)
        ensures
            (final(self)@, message_view(res)) == remove_step(old(self)@, node_id@),
    {
        let id = match normalize_non_empty_membership_field(node_id, "node_id", "remove_node") {
            Ok(id) => id,
            Err(message) => {
                return Err(message);
            },
        };
        let i = match locate_node(&self.nodes, &id) {
            Some(i) => i,
            None => {
                return Err(
                    cat3("control command remove_node references unknown node '", &id, "'"),
                );
            },
        };
        assert(self@.nodes[i as int] == self.nodes@[i as int]@);
        if self.nodes[i].status == ControlNodeStatus::Removed {
            return Ok(ControlMembershipMutationOutcome::Noop);
        }
        if self.nodes[i].status != ControlNodeStatus::Leaving {
            return Err(
                cat3(
                    "control command remove_node requires node '",
                    &id,
                    "' to be in leaving state",
                ),
            );
        }
        if owns_any_shard(&self.ring.assignments, &id) {
            return Err(
                cat3(
                    "control command remove_node requires node '",
                    &id,
                    "' to own no shards in the current ring",
                ),
            );
        }
        if takes_part_in_any(&self.transitions, &id) {
            return Err(
                cat3(
                    "control command remove_node requires node '",
                    &id,
                    "' to have no in-flight shard transitions",
                ),
            );
        }
        let endpoint = self.nodes[i].endpoint.clone();
        self.change_node(i, endpoint, ControlNodeStatus::Removed);
        let was_leader = match &self.leader_node_id {
            Some(leader) => same(leader, &id),
            None => false,
        };
        if was_leader {
            self.leader_node_id = None;
        }
        Ok(ControlMembershipMutationOutcome::Applied)
    }
}

/// Why a handoff cannot begin, whatever transition the shard is in.
pub open spec fn begin_refusal(
    s: ControlView,
    shard: u32,
    from: Seq<char>,
    to: Seq<char>,
    activation_ring_version: u64,
) -> Option<Seq<char>> {
    if from == to {
        Some("control command begin_shard_handoff requires distinct owners"@)
    } else if activation_ring_version < s.ring_version {
        Some(
            "control command begin_shard_handoff activation_ring_version "@ + decimal(
                activation_ring_version as nat,
            ) + " is older than ring_version "@ + decimal(s.ring_version as nat),
        )
    } else if find_node(s.nodes, from) is None {
        Some(
            "control command begin_shard_handoff references unknown from_node_id '"@ + from + "'"@,
        )
    } else if find_node(s.nodes, to) is None {
        Some("control command begin_shard_handoff references unknown to_node_id '"@ + to + "'"@)
    } else {
        None
    }
}

/// The refusal of a source that does not own the shard.
pub open spec fn not_owner_refusal(s: ControlView, shard: u32, from: Seq<char>) -> Seq<char> {
    "control command begin_shard_handoff requires from_node_id '"@ + from + "' to own shard "@
        + decimal(shard as nat) + " at ring_version "@ + decimal(s.ring_version as nat)
}

/// A transition that starts at `now_ms`.
pub open spec fn new_transition(
    shard: u32,
    from: Seq<char>,
    to: Seq<char>,
    activation_ring_version: u64,
    now_ms: u64,
) -> TransitionView {
    TransitionView {
        shard,
        from_node_id: from,
        to_node_id: to,
        activation_ring_version,
        handoff: handoff_bootstrap(now_ms),
    }
}

/// What beginning a handoff at `now_ms` does.
pub open spec fn begin_step(
    s: ControlView,
    shard: u32,
    from_node_id: Seq<char>,
    to_node_id: Seq<char>,
    activation_ring_version: u64,
    now_ms: u64,
) -> HandoffStep {
    if shard >= s.ring.shard_count {
        (
            s,
            Err(
                "control command begin_shard_handoff shard "@ + decimal(shard as nat)
                    + " exceeds ring shard_count "@ + decimal(s.ring.shard_count as nat),
            ),
        )
    } else {
        match (
            command_field(from_node_id, "from_node_id"@, "begin_handoff"@),
            command_field(to_node_id, "to_node_id"@, "begin_handoff"@),
        ) {
            (Err(message), _) => (s, Err(message)),
            (Ok(_), Err(message)) => (s, Err(message)),
            (Ok(from), Ok(to)) => match begin_refusal(
                s,
                shard,
                from,
                to,
                activation_ring_version,
            ) {
                Some(message) => (s, Err(message)),
                None => begin_checked(s, shard, from, to, activation_ring_version, now_ms),
            },
        }
    }
}

/// What beginning a handoff between two known nodes does: a shard without a transition gets one, a
/// completed transition is replaced by a new one, a failed one is warmed up again, and any other
/// transition must be the same one.
pub open spec fn begin_checked(
    s: ControlView,
    shard: u32,
    from: Seq<char>,
    to: Seq<char>,
    activation_ring_version: u64,
    now_ms: u64,
) -> HandoffStep {
    let fresh = new_transition(shard, from, to, activation_ring_version, now_ms);
    let owner = owners_at(s, shard, s.ring_version).contains(from);
    match find_transition(s.transitions, shard) {
        None => if !owner {
            (s, Err(not_owner_refusal(s, shard, from)))
        } else {
            (
                ControlView {
                    transitions: ranked_sort::<ShardOwnershipTransition>(s.transitions.push(fresh)),
                    updated_unix_ms: now_ms,
                    ..s
                },
                Ok(ControlHandoffMutationOutcome::Applied),
            )
        },
        Some(i) => {
            let t = s.transitions[i];
            let repeated = t.from_node_id == from && t.to_node_id == to
                && t.activation_ring_version == activation_ring_version;
            if t.handoff.phase == ShardHandoffPhase::Completed {
                if repeated {
                    (s, Ok(ControlHandoffMutationOutcome::Noop))
                } else if !owner {
                    (s, Err(not_owner_refusal(s, shard, from)))
                } else {
                    (
                        ControlView {
                            transitions: s.transitions.update(i, fresh),
                            updated_unix_ms: now_ms,
                            ..s
                        },
                        Ok(ControlHandoffMutationOutcome::Applied),
                    )
                }
            } else if !owner {
                (s, Err(not_owner_refusal(s, shard, from)))
            } else if !repeated {
                (
                    s,
                    Err(
                        "control command begin_shard_handoff for shard "@ + decimal(shard as nat)
                            + " conflicts with existing transition "@ + t.from_node_id + " -> "@
                            + t.to_node_id + " @ ring_version "@ + decimal(
                            t.activation_ring_version as nat,
                        ),
                    ),
                )
            } else if !phase_step(t.handoff.phase, ShardHandoffPhase::Warmup) {
                (s, Err(phase_refusal(t.handoff.phase, ShardHandoffPhase::Warmup)))
            } else if handoff_changed(t.handoff, ShardHandoffPhase::Warmup, None, None, None) {
                (
                    ControlView {
                        transitions: s.transitions.update(
                            i,
                            TransitionView {
                                handoff: handoff_advanced(
                                    t.handoff,
                                    ShardHandoffPhase::Warmup,
                                    None,
                                    None,
                                    None,
                                    now_ms,
                                ),
                                ..t
                            },
                        ),
                        updated_unix_ms: now_ms,
                        ..s
                    },
                    Ok(ControlHandoffMutationOutcome::Applied),
                )
            } else {
                (s, Ok(ControlHandoffMutationOutcome::Noop))
            }
        },
    }
}

/// Whether a transition is kept at a ring version: it still runs, or it is not older.
pub open spec fn transition_kept(t: TransitionView, ring_version: u64) -> bool {
    !phase_terminal(t.handoff.phase) || t.activation_ring_version >= ring_version
}

/// The transitions that are kept at a ring version, in order.
pub open spec fn kept_transitions(
    transitions: Seq<TransitionView>,
    ring_version: u64,
) -> Seq<TransitionView>
    decreases transitions.len(),
{
    if transitions.len() == 0 {
        transitions
    } else if transition_kept(transitions.last(), ring_version) {
        kept_transitions(transitions.drop_last(), ring_version).push(transitions.last())
    } else {
        kept_transitions(transitions.drop_last(), ring_version)
    }
}

/// The state without its ended transitions that are older than its ring version.
pub open spec fn pruned(s: ControlView) -> ControlView {
    ControlView { transitions: kept_transitions(s.transitions, s.ring_version), ..s }
}

pub proof fn lemma_kept_transitions(transitions: Seq<TransitionView>, ring_version: u64)
    ensures
        kept_transitions(transitions, ring_version).len() <= transitions.len(),
        kept_transitions(transitions, ring_version).len() == transitions.len()
            ==> kept_transitions(transitions, ring_version) == transitions,
    decreases transitions.len(),
{
    if transitions.len() > 0 {
        lemma_kept_transitions(transitions.drop_last(), ring_version);
        assert(transitions =~= transitions.drop_last().push(transitions.last()));
    }
}

/// The state once a report of progress on transition `i` has been taken in: from cutover on the ring
/// is at least at the version of the transition.
pub open spec fn progress_taken(
    s: ControlView,
    i: int,
    phase: ShardHandoffPhase,
    copied_rows: Option<u64>,
    pending_rows: Option<u64>,
    last_error: Option<Seq<char>>,
    now_ms: u64,
) -> ControlView {
    let t = s.transitions[i];
    let cut_over = phase == ShardHandoffPhase::Cutover || phase == ShardHandoffPhase::FinalSync
        || phase == ShardHandoffPhase::Completed;
    ControlView {
        transitions: s.transitions.update(
            i,
            TransitionView {
                handoff: handoff_advanced(
                    t.handoff,
                    phase,
                    copied_rows,
                    pending_rows,
                    last_error,
                    now_ms,
                ),
                ..t
            },
        ),
        ring_version: if cut_over && s.ring_version < t.activation_ring_version {
            t.activation_ring_version
        } else {
            s.ring_version
        },
        ..s
    }
}

/// The state with the new owner of transition `i` written into the ring.
pub open spec fn ownership_written(s: ControlView, i: int) -> ControlView {
    let t = s.transitions[i];
    let row = s.ring.assignments[t.shard as int];
    ControlView {
        ring: RingView {
            assignments: s.ring.assignments.update(
                t.shard as int,
                deduped(rewritten(row, t.from_node_id, t.to_node_id)),
            ),
            ..s.ring
        },
        ..s
    }
}

/// What a report of progress at `now_ms` does. A completed handoff writes the new owner into the
/// ring. Where the ring has no such shard the report is taken in all the same before it is refused.
pub open spec fn progress_step(
    s: ControlView,
    shard: u32,
    phase: ShardHandoffPhase,
    copied_rows: Option<u64>,
    pending_rows: Option<u64>,
    last_error: Option<Seq<char>>,
    now_ms: u64,
) -> HandoffStep {
    match find_transition(s.transitions, shard) {
        None => (
            s,
            Err(
                "control command shard_handoff_progress references unknown shard transition "@
                    + decimal(shard as nat),
            ),
        ),
        Some(i) => {
            let t = s.transitions[i];
            let taken = progress_taken(s, i, phase, copied_rows, pending_rows, last_error, now_ms);
            if !phase_step(t.handoff.phase, phase) {
                (s, Err(phase_refusal(t.handoff.phase, phase)))
            } else if phase == ShardHandoffPhase::Completed && shard >= s.ring.assignments.len() {
                (
                    taken,
                    Err(
                        "control command shard_handoff_progress references unknown ring shard "@
                            + decimal(shard as nat),
                    ),
                )
            } else {
                let written = if phase == ShardHandoffPhase::Completed {
                    ownership_written(taken, i)
                } else {
                    taken
                };
                let next = pruned(written);
                if next == s {
                    (s, Ok(ControlHandoffMutationOutcome::Noop))
                } else {
                    (
                        ControlView { updated_unix_ms: now_ms, ..next },
                        Ok(ControlHandoffMutationOutcome::Applied),
                    )
                }
            }
        },
    }
}

impl ControlState {
    /// Begins the handoff of a shard at `now_ms`.
    pub fn apply_begin_shard_handoff_at(
        &mut self,
        shard: u32,
        from_node_id: &str,
        to_node_id: &str,
        activation_ring_version: u64,
        now_ms: u64,
    ) -> (res: Result<ControlHandoffMutationOutcome, String>)
        ensures
            (final(self)@, message_view(res)) == begin_step(
                old(self)@,
                shard,
                from_node_id@,
                to_node_id@,
                activation_ring_version,
                now_ms,
            ),
    {
        if shard >= self.ring.shard_count {
            return Err(
                cat4(
                    "control command begin_shard_handoff shard ",
                    number(shard as u64).as_str(),
                    " exceeds ring shard_count ",
                    number(self.ring.shard_count as u64).as_str(),
                ),
            );
        }
        let from = match normalize_non_empty_membership_field(
            from_node_id,
            "from_node_id",
            "begin_handoff",
        ) {
            Ok(from) => from,
            Err(message) => {
                return Err(message);
            },
        };
        let to = match normalize_non_empty_membership_field(
            to_node_id,
            "to_node_id",
            "begin_handoff",
        ) {
            Ok(to) => to,
            Err(message) => {
                return Err(message);
            },
        };
        if same(&from, &to) {
            return Err(owned("control command begin_shard_handoff requires distinct owners"));
        }
        if activation_ring_version < self.ring_version {
            return Err(
                cat4(
                    "control command begin_shard_handoff activation_ring_version ",
                    number(activation_ring_version).as_str(),
                    " is older than ring_version ",
                    number(self.ring_version).as_str(),
                ),
            );
        }
        if locate_node(&self.nodes, &from).is_none() {
            return Err(
                cat3(
                    "control command begin_shard_handoff references unknown from_node_id '",
                    &from,
                    "'",
                ),
            );
        }
        if locate_node(&self.nodes, &to).is_none() {
            return Err(
                cat3(
                    "control command begin_shard_handoff references unknown to_node_id '",
                    &to,
                    "'",
                ),
            );
        }
        let owner = self.node_is_owner_for_shard_at_ring_version(shard, &from, self.ring_version);
        let at = locate_transition(&self.transitions, shard);
        if let Some(i) = at {
            assert(self@.transitions[i as int] == self.transitions@[i as int]@);
            let repeated = same(&self.transitions[i].from_node_id, &from) && same(
                &self.transitions[i].to_node_id,
                &to,
            ) && self.transitions[i].activation_ring_version == activation_ring_version;
            if self.transitions[i].handoff.phase == ShardHandoffPhase::Completed && repeated {
                return Ok(ControlHandoffMutationOutcome::Noop);
            }
        }
        if !owner {
            return Err(
                crate::text::cat6(
                    "control command begin_shard_handoff requires from_node_id '",
                    &from,
                    "' to own shard ",
                    number(shard as u64).as_str(),
                    " at ring_version ",
                    number(self.ring_version).as_str(),
                ),
            );
        }
        let fresh = ShardOwnershipTransition {
            shard,
            from_node_id: from,
            to_node_id: to,
            activation_ring_version,
            handoff: ShardHandoffProgress::bootstrap(now_ms),
        };
        match at {
            None => {
                let mut transitions: Vec<ShardOwnershipTransition> = Vec::new();
                std::mem::swap(&mut transitions, &mut self.transitions);
                transitions.push(fresh);
                self.transitions = sort_ranked(transitions);
                self.updated_unix_ms = now_ms;
                Ok(ControlHandoffMutationOutcome::Applied)
            },
            Some(i) => {
                let repeated = same(&self.transitions[i].from_node_id, &fresh.from_node_id) && same(
                    &self.transitions[i].to_node_id,
                    &fresh.to_node_id,
                ) && self.transitions[i].activation_ring_version == activation_ring_version;
                if self.transitions[i].handoff.phase == ShardHandoffPhase::Completed {
                    self.transitions.set(i, fresh);
                    self.updated_unix_ms = now_ms;
                    return Ok(ControlHandoffMutationOutcome::Applied);
                }
                if !repeated {
                    let t = &self.transitions[i];
                    return Err(
                        cat2(
                            cat7(
                                "control command begin_shard_handoff for shard ",
                                number(shard as u64).as_str(),
                                " conflicts with existing transition ",
                                &t.from_node_id,
                                " -> ",
                                &t.to_node_id,
                                " @ ring_version ",
                            ).as_str(),
                            number(t.activation_ring_version).as_str(),
                        ),
                    );
                }
                let mut t = self.transitions[i].clone();
                match t.handoff.advance(ShardHandoffPhase::Warmup, None, None, None, now_ms) {
                    Ok(changed) => {
                        if changed {
                            self.transitions.set(i, t);
                            self.updated_unix_ms = now_ms;
                            Ok(ControlHandoffMutationOutcome::Applied)
                        } else {
                            Ok(ControlHandoffMutationOutcome::Noop)
                        }
                    },
                    Err(message) => Err(message),
                }
            },
        }
    }

    /// Begins the handoff of a shard now.
    pub fn apply_begin_shard_handoff(
        &mut self,
        shard: u32,
        from_node_id: &str,
        to_node_id: &str,
        activation_ring_version: u64,
    ) -> (res: Result<ControlHandoffMutationOutcome, String>)
        ensures
            exists|now_ms: u64|
                (final(self)@, message_view(res)) == #[trigger] begin_step(
                    old(self)@,
                    shard,
                    from_node_id@,
                    to_node_id@,
                    activation_ring_version,
                    now_ms,
                ),
    {
        self.apply_begin_shard_handoff_at(
            shard,
            from_node_id,
            to_node_id,
            activation_ring_version,
            unix_timestamp_millis(),
        )
    }

    /// Drops the ended transitions that are older than the ring version; says whether there were any.
    pub fn prune_stale_terminal_transitions(&mut self) -> (res: bool)
        ensures
            final(self)@ == pruned(old(self)@),
            res == (final(self)@ != old(self)@),
    {
        let ghost all = self@.transitions;
        let version = self.ring_version;
        let mut kept: Vec<ShardOwnershipTransition> = Vec::new();
        let mut i: usize = 0;
        assert(views(kept@) =~= kept_transitions(all.take(0), version));
        while i < self.transitions.len()
            invariant
                i <= self.transitions.len(),
                all == views(self.transitions@),
                *self == *old(self),
                version == self.ring_version,
                views(kept@) == kept_transitions(all.take(i as int), version),
            decreases self.transitions.len() - i,
        {
            assert(all.take(i + 1).drop_last() =~= all.take(i as int));
            assert(all.take(i + 1).last() == self.transitions@[i as int]@);
            if !self.transitions[i].handoff.phase.is_terminal()
                || self.transitions[i].activation_ring_version >= version {
                kept.push(self.transitions[i].clone());
            }
            i += 1;
        }
        proof {
            assert(all.take(i as int) =~= all);
            lemma_kept_transitions(all, version);
        }
        let changed = kept.len() != self.transitions.len();
        assert(changed == (views(kept@) != all)) by {
            assert(views(kept@).len() == kept.len());
            assert(all.len() == self.transitions.len());
        }
        self.transitions = kept;
        changed
    }

    /// Takes in a report of progress on the handoff of a shard at `now_ms`.
    pub fn apply_shard_handoff_progress_at(
        &mut self,
        shard: u32,
        phase: ShardHandoffPhase,
        copied_rows: Option<u64>,
        pending_rows: Option<u64>,
        last_error: Option<String>,
        now_ms: u64,
    ) -> (res: Result<ControlHandoffMutationOutcome, String>)
        ensures
            (final(self)@, message_view(res)) == progress_step(
                old(self)@,
                shard,
                phase,
                copied_rows,
                pending_rows,
                opt_text(last_error),
                now_ms,
            ),
    {
        let ghost start = self@;
        let ghost error = opt_text(last_error);
        let i = match locate_transition(&self.transitions, shard) {
            Some(i) => i,
            None => {
                return Err(
                    cat2(
                        "control command shard_handoff_progress references unknown shard transition ",
                        number(shard as u64).as_str(),
                    ),
                );
            },
        };
        assert(start.transitions[i as int] == self.transitions@[i as int]@);
        let activation = self.transitions[i].activation_ring_version;
        let mut t = self.transitions[i].clone();
        let mut changed = match t.handoff.advance(
            phase,
            copied_rows,
            pending_rows,
            last_error,
            now_ms,
        ) {
            Ok(changed) => changed,
            Err(message) => {
                return Err(message);
            },
        };
        self.transitions.set(i, t);
        if (phase == ShardHandoffPhase::Cutover || phase == ShardHandoffPhase::FinalSync || phase
            == ShardHandoffPhase::Completed) && self.ring_version < activation {
            self.ring_version = activation;
            changed = true;
        }
        let ghost taken = progress_taken(
            start,
            i as int,
            phase,
            copied_rows,
            pending_rows,
            error,
            now_ms,
        );
        assert(self@.transitions =~= taken.transitions);
        assert(self@ == taken);
        assert(!changed ==> taken == start) by {
            if !changed {
                assert(taken.transitions =~= start.transitions);
            }
        }
        assert(changed ==> taken != start) by {
            if changed && taken.ring_version == start.ring_version {
                assert(taken.transitions[i as int].handoff != start.transitions[i as int].handoff);
            }
        }
        if phase == ShardHandoffPhase::Completed {
            if shard as usize >= self.ring.assignments.len() {
                return Err(
                    cat2(
                        "control command shard_handoff_progress references unknown ring shard ",
                        number(shard as u64).as_str(),
                    ),
                );
            }
            let from = self.transitions[i].from_node_id.clone();
            let to = self.transitions[i].to_node_id.clone();
            let mut owners: Vec<String> = crate::text::clone_texts(
                &self.ring.assignments[shard as usize],
            );
            let ghost row = taken.ring.assignments[shard as int];
            assert(row == views(owners@));
            let rewrote = materialize_shard_owner(&mut owners, &from, &to);
            self.ring.assignments.set(shard as usize, owners);
            if rewrote {
                changed = true;
            }
            assert(rows(self.ring.assignments@) =~= taken.ring.assignments.update(
                shard as int,
                views(owners@),
            ));
            assert(self@ == ownership_written(taken, i as int));
            assert(!changed ==> self@ == start) by {
                if !changed {
                    assert(taken.ring.assignments.update(shard as int, row)
                        =~= taken.ring.assignments);
                }
            }
            assert(changed ==> self@ != start) by {
                if changed && taken == start {
                    assert(self@.ring.assignments[shard as int] != start.ring.assignments[shard as int]);
                } else if changed {
                    assert(self@.transitions == taken.transitions);
                    assert(self@.ring_version == taken.ring_version);
                }
            }
        }
        let ghost written = self@;
        let dropped = self.prune_stale_terminal_transitions();
        assert(changed || dropped <==> self@ != start) by {
            lemma_kept_transitions(written.transitions, written.ring_version);
            if changed && !dropped {
                assert(self@ == written);
            }
            if dropped {
                assert(self@.transitions.len() < start.transitions.len());
            }
        }
        if changed || dropped {
            self.updated_unix_ms = now_ms;
            return Ok(ControlHandoffMutationOutcome::Applied);
        }
        Ok(ControlHandoffMutationOutcome::Noop)
    }

    /// Takes in a report of progress on the handoff of a shard now.
    pub fn apply_shard_handoff_progress(
        &mut self,
        shard: u32,
        phase: ShardHandoffPhase,
        copied_rows: Option<u64>,
        pending_rows: Option<u64>,
        last_error: Option<String>,
    ) -> (res: Result<ControlHandoffMutationOutcome, String>)
        ensures
            exists|now_ms: u64|
                (final(self)@, message_view(res)) == #[trigger] progress_step(
                    old(self)@,
                    shard,
                    phase,
                    copied_rows,
                    pending_rows,
                    opt_text(last_error),
                    now_ms,
                ),
    {
        self.apply_shard_handoff_progress_at(
            shard,
            phase,
            copied_rows,
            pending_rows,
            last_error,
            unix_timestamp_millis(),
        )
    }

    /// Completes the handoff of a shard at `now_ms`.
    pub fn apply_complete_shard_handoff_at(&mut self, shard: u32, now_ms: u64) -> (res: Result<
        ControlHandoffMutationOutcome,
        String,
    >)
        ensures
            (final(self)@, message_view(res)) == progress_step(
                old(self)@,
                shard,
                ShardHandoffPhase::Completed,
                None,
                Some(0),
                None,
                now_ms,
            ),
    {
        self.apply_shard_handoff_progress_at(
            shard,
            ShardHandoffPhase::Completed,
            None,
            Some(0),
            None,
            now_ms,
        )
    }

    /// Completes the handoff of a shard now.
    pub fn apply_complete_shard_handoff(&mut self, shard: u32) -> (res: Result<
        ControlHandoffMutationOutcome,
        String,
    >)
        ensures
            exists|now_ms: u64|
                (final(self)@, message_view(res)) == #[trigger] progress_step(
                    old(self)@,
                    shard,
                    ShardHandoffPhase::Completed,
                    None,
                    Some(0),
                    None,
                    now_ms,
                ),
    {
        self.apply_complete_shard_handoff_at(shard, unix_timestamp_millis())
    }
}

} // verus!
