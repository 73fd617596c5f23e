//! Which control states are valid.

use vstd::prelude::*;
use crate::control::{phase_terminal, ControlNodeRecord, ControlState, ControlView, NodeView};
use crate::lists::{group_views, views};
use crate::ring::{ring_error, rows};
use crate::text::{
    cat2, cat3, cat4, cat5, cat6, contains_text, decimal, number, owned, same, trim, trimmed,
};

verus! {

broadcast use group_views;

/// The ids of the members, without white space at their ends.
pub open spec fn member_ids(nodes: Seq<NodeView>) -> Seq<Seq<char>> {
    Seq::new(nodes.len(), |i: int| trimmed(nodes[i].id))
}

/// The endpoints of the members, without white space at their ends.
pub open spec fn member_endpoints(nodes: Seq<NodeView>) -> Seq<Seq<char>> {
    Seq::new(nodes.len(), |i: int| trimmed(nodes[i].endpoint))
}

/// What is wrong with member `i`, given the members before it.
pub open spec fn node_error(nodes: Seq<NodeView>, i: int) -> Option<Seq<char>> {
    let id = trimmed(nodes[i].id);
    let endpoint = trimmed(nodes[i].endpoint);
    if id.len() == 0 {
        Some("control membership contains an empty node id"@)
    } else if endpoint.len() == 0 {
        Some("control membership node '"@ + nodes[i].id + "' has an empty endpoint"@)
    } else if member_ids(nodes.take(i)).contains(id) {
        Some("control membership contains duplicate node id '"@ + id + "'"@)
    } else if member_endpoints(nodes.take(i)).contains(endpoint) {
        Some("control membership contains duplicate endpoint '"@ + endpoint + "'"@)
    } else {
        None
    }
}

/// What is wrong with the first of the first `n` members that has a fault.
pub open spec fn nodes_error(nodes: Seq<NodeView>, n: nat) -> Option<Seq<char>>
    decreases n,
{
    if n == 0 {
        None
    } else {
        match nodes_error(nodes, (n - 1) as nat) {
            Some(message) => Some(message),
            None => node_error(nodes, n - 1),
        }
    }
}

/// What is wrong with the first of the first `n` owners of a shard that is no member.
pub open spec fn owners_error(
    ids: Seq<Seq<char>>,
    owners: Seq<Seq<char>>,
    shard: int,
    n: nat,
) -> Option<Seq<char>>
    decreases n,
{
    if n == 0 {
        None
    } else {
        match owners_error(ids, owners, shard, (n - 1) as nat) {
            Some(message) => Some(message),
            None => if ids.contains(owners[n - 1]) {
                None
            } else {
                Some(
                    "control ring owner '"@ + owners[n - 1] + "' for shard "@ + decimal(
                        shard as nat,
                    ) + " is not present in membership"@,
                )
            },
        }
    }
}

/// What is wrong with the owners of the first of the first `n` shards that has a fault.
pub open spec fn assignments_error(
    ids: Seq<Seq<char>>,
    assignments: Seq<Seq<Seq<char>>>,
    n: nat,
) -> Option<Seq<char>>
    decreases n,
{
    if n == 0 {
        None
    } else {
        match assignments_error(ids, assignments, (n - 1) as nat) {
            Some(message) => Some(message),
            None => owners_error(ids, assignments[n - 1], n - 1, assignments[n - 1].len()),
        }
    }
}

/// What is wrong with transition `i`, given the transitions before it.
pub open spec fn transition_error(s: ControlView, i: int) -> Option<Seq<char>> {
    let t = s.transitions[i];
    let shard = decimal(t.shard as nat);
    let ids = member_ids(s.nodes);
    if t.shard >= s.ring.shard_count {
        Some(
            "control transition shard "@ + shard + " exceeds ring shard_count "@ + decimal(
                s.ring.shard_count as nat,
            ),
        )
    } else if trimmed(t.from_node_id).len() == 0 {
        Some("control transition for shard "@ + shard + " has an empty from_node_id"@)
    } else if trimmed(t.to_node_id).len() == 0 {
        Some("control transition for shard "@ + shard + " has an empty to_node_id"@)
    } else if t.from_node_id == t.to_node_id {
        Some("control transition for shard "@ + shard + " must change ownership"@)
    } else if !ids.contains(t.from_node_id) {
        Some(
            "control transition from_node_id '"@ + t.from_node_id
                + "' is not part of membership"@,
        )
    } else if !ids.contains(t.to_node_id) {
        Some("control transition to_node_id '"@ + t.to_node_id + "' is not part of membership"@)
    } else if t.activation_ring_version < s.ring_version && !phase_terminal(t.handoff.phase) {
        Some(
            "control transition shard "@ + shard + " activation_ring_version "@ + decimal(
                t.activation_ring_version as nat,
            ) + " is older than ring_version "@ + decimal(s.ring_version as nat),
        )
    } else if exists|j: int| 0 <= j < i && (#[trigger] s.transitions[j]).shard == t.shard {
        Some("control state contains multiple transitions for shard "@ + shard)
    } else if t.handoff.updated_unix_ms > 0 && t.handoff.started_unix_ms
        > t.handoff.updated_unix_ms {
        Some(
            "control transition shard "@ + shard + " has started_unix_ms "@ + decimal(
                t.handoff.started_unix_ms as nat,
            ) + " newer than updated_unix_ms "@ + decimal(t.handoff.updated_unix_ms as nat),
        )
    } else {
        None
    }
}

/// What is wrong with the first of the first `n` transitions that has a fault.
pub open spec fn transitions_error(s: ControlView, n: nat) -> Option<Seq<char>>
    decreases n,
{
    if n == 0 {
        None
    } else {
        match transitions_error(s, (n - 1) as nat) {
            Some(message) => Some(message),
            None => transition_error(s, n - 1),
        }
    }
}

/// What is wrong with a leader that is no member.
pub open spec fn leader_error(s: ControlView) -> Option<Seq<char>> {
    match s.leader_node_id {
        Some(leader) => if member_ids(s.nodes).contains(leader) {
            None
        } else {
            Some("control state leader '"@ + leader + "' is not part of membership"@)
        },
        None => None,
    }
}

/// The first fault of a control state, if it has one.
pub open spec fn state_error(s: ControlView) -> Option<Seq<char>> {
    if s.membership_epoch == 0 {
        Some("control state requires membership_epoch > 0"@)
    } else if s.ring_version == 0 {
        Some("control state requires ring_version > 0"@)
    } else if s.nodes.len() == 0 {
        Some("control state requires at least one membership node"@)
    } else if nodes_error(s.nodes, s.nodes.len()) is Some {
        nodes_error(s.nodes, s.nodes.len())
    } else if leader_error(s) is Some {
        leader_error(s)
    } else if ring_error(s.ring) is Some {
        Some("invalid control ring snapshot: "@ + ring_error(s.ring)->0)
    } else if assignments_error(
        member_ids(s.nodes),
        s.ring.assignments,
        s.ring.assignments.len(),
    ) is Some {
        assignments_error(member_ids(s.nodes), s.ring.assignments, s.ring.assignments.len())
    } else {
        transitions_error(s, s.transitions.len())
    }
}

proof fn lemma_nodes_error_stays(nodes: Seq<NodeView>, n: nat, m: nat)
    requires
        n <= m,
        nodes_error(nodes, n) is Some,
    ensures
        nodes_error(nodes, m) == nodes_error(nodes, n),
    decreases m,
{
    if n < m {
        lemma_nodes_error_stays(nodes, n, (m - 1) as nat);
    }
}

proof fn lemma_owners_error_stays(
    ids: Seq<Seq<char>>,
    owners: Seq<Seq<char>>,
    shard: int,
    n: nat,
    m: nat,
)
    requires
        n <= m,
        owners_error(ids, owners, shard, n) is Some,
    ensures
        owners_error(ids, owners, shard, m) == owners_error(ids, owners, shard, n),
    decreases m,
{
    if n < m {
        lemma_owners_error_stays(ids, owners, shard, n, (m - 1) as nat);
    }
}

proof fn lemma_assignments_error_stays(
    ids: Seq<Seq<char>>,
    assignments: Seq<Seq<Seq<char>>>,
    n: nat,
    m: nat,
)
    requires
        n <= m,
        assignments_error(ids, assignments, n) is Some,
    ensures
        assignments_error(ids, assignments, m) == assignments_error(ids, assignments, n),
    decreases m,
{
    if n < m {
        lemma_assignments_error_stays(ids, assignments, n, (m - 1) as nat);
    }
}

proof fn lemma_transitions_error_stays(s: ControlView, n: nat, m: nat)
    requires
        n <= m,
        transitions_error(s, n) is Some,
    ensures
        transitions_error(s, m) == transitions_error(s, n),
    decreases m,
{
    if n < m {
        lemma_transitions_error_stays(s, n, (m - 1) as nat);
    }
}

/// Collects the trimmed ids of the members, unless a member has a fault.
fn check_nodes(nodes: &Vec<ControlNodeRecord>) -> (res: Result<Vec<String>, String>)
    ensures
        match res {
            Ok(ids) => nodes_error(views(nodes@), nodes.len() as nat) is None && views(ids@)
                == member_ids(views(nodes@)),
            Err(message) => nodes_error(views(nodes@), nodes.len() as nat) == Some(message@),
        },
{
    let ghost all = views(nodes@);
    let mut ids: Vec<String> = Vec::new();
    let mut endpoints: Vec<String> = Vec::new();
    let mut i: usize = 0;
    while i < nodes.len()
        invariant
            i <= nodes.len(),
            all == views(nodes@),
            nodes_error(all, i as nat) is None,
            views(ids@) == member_ids(all.take(i as int)),
            views(endpoints@) == member_endpoints(all.take(i as int)),
        decreases nodes.len() - i,
    {
        let node = &nodes[i];
        assert(all[i as int] == node@);
        let id = trim(&node.id);
        let endpoint = trim(&node.endpoint);
        let mut fault: Option<String> = None;
        if id.is_empty() {
            fault = Some(owned("control membership contains an empty node id"));
        } else if endpoint.is_empty() {
            fault = Some(
                cat3("control membership node '", &node.id, "' has an empty endpoint"),
            );
        } else if contains_text(&ids, id) {
            fault = Some(cat3("control membership contains duplicate node id '", id, "'"));
        } else if contains_text(&endpoints, endpoint) {
            fault = Some(cat3("control membership contains duplicate endpoint '", endpoint, "'"));
        }
        if let Some(message) = fault {
            proof {
                assert(node_error(all, i as int) == Some(message@));
                assert(nodes_error(all, (i + 1) as nat) == Some(message@));
                lemma_nodes_error_stays(all, (i + 1) as nat, nodes.len() as nat);
            }
            return Err(message);
        }
        ids.push(owned(id));
        endpoints.push(owned(endpoint));
        assert(member_ids(all.take(i + 1)) =~= member_ids(all.take(i as int)).push(id@));
        assert(member_endpoints(all.take(i + 1)) =~= member_endpoints(all.take(i as int)).push(
            endpoint@,
        ));
        assert(nodes_error(all, (i + 1) as nat) is None);
        i += 1;
    }
    assert(all.take(i as int) =~= all);
    Ok(ids)
}

/// Looks for an owner that is no member.
fn check_assignments(ids: &Vec<String>, assignments: &Vec<Vec<String>>) -> (res: Option<String>)
    ensures
        match res {
            Some(message) => assignments_error(
                views(ids@),
                rows(assignments@),
                assignments.len() as nat,
            ) == Some(message@),
            None => assignments_error(
                views(ids@),
                rows(assignments@),
                assignments.len() as nat,
            ) is None,
        },
{
    let ghost all = rows(assignments@);
    let mut shard: usize = 0;
    while shard < assignments.len()
        invariant
            shard <= assignments.len(),
            all == rows(assignments@),
            assignments_error(views(ids@), all, shard as nat) is None,
        decreases assignments.len() - shard,
    {
        let owners = &assignments[shard];
        assert(all[shard as int] == views(owners@));
        let mut k: usize = 0;
        while k < owners.len()
            invariant
                k <= owners.len(),
                shard < assignments.len(),
                all == rows(assignments@),
                all[shard as int] == views(owners@),
                assignments_error(views(ids@), all, shard as nat) is None,
                owners_error(views(ids@), all[shard as int], shard as int, k as nat) is None,
            decreases owners.len() - k,
        {
            assert(all[shard as int][k as int] == owners@[k as int]@);
            if !contains_text(ids, &owners[k]) {
                let message = cat5(
                    "control ring owner '",
                    &owners[k],
                    "' for shard ",
                    number(shard as u64).as_str(),
                    " is not present in membership",
                );
                proof {
                    let row = all[shard as int];
                    assert(owners_error(views(ids@), row, shard as int, (k + 1) as nat) == Some(
                        message@,
                    ));
                    lemma_owners_error_stays(
                        views(ids@),
                        row,
                        shard as int,
                        (k + 1) as nat,
                        row.len(),
                    );
                    assert(assignments_error(views(ids@), all, (shard + 1) as nat) == Some(
                        message@,
                    ));
                    lemma_assignments_error_stays(
                        views(ids@),
                        all,
                        (shard + 1) as nat,
                        assignments.len() as nat,
                    );
                }
                return Some(message);
            }
            k += 1;
        }
        assert(assignments_error(views(ids@), all, (shard + 1) as nat) is None);
        shard += 1;
    }
    None
}

impl ControlState {
    /// Says what is wrong with transition `i`.
    fn check_transition(&self, ids: &Vec<String>, i: usize) -> (res: Option<String>)
        requires
            i < self.transitions.len(),
            views(ids@) == member_ids(self@.nodes),
        ensures
            match res {
                Some(message) => transition_error(self@, i as int) == Some(message@),
                None => transition_error(self@, i as int) is None,
            },
    {
        let t = &self.transitions[i];
        assert(self@.transitions[i as int] == t@);
        let shard = number(t.shard as u64);
        if t.shard >= self.ring.shard_count {
            return Some(
                cat4(
                    "control transition shard ",
                    &shard,
                    " exceeds ring shard_count ",
                    number(self.ring.shard_count as u64).as_str(),
                ),
            );
        }
        if trim(&t.from_node_id).is_empty() {
            return Some(
                cat3("control transition for shard ", &shard, " has an empty from_node_id"),
            );
        }
        if trim(&t.to_node_id).is_empty() {
            return Some(
                cat3("control transition for shard ", &shard, " has an empty to_node_id"),
            );
        }
        if same(&t.from_node_id, &t.to_node_id) {
            return Some(cat3("control transition for shard ", &shard, " must change ownership"));
        }
        if !contains_text(ids, &t.from_node_id) {
            return Some(
                cat3(
                    "control transition from_node_id '",
                    &t.from_node_id,
                    "' is not part of membership",
                ),
            );
        }
        if !contains_text(ids, &t.to_node_id) {
            return Some(
                cat3(
                    "control transition to_node_id '",
                    &t.to_node_id,
                    "' is not part of membership",
                ),
            );
        }
        if t.activation_ring_version < self.ring_version && !t.handoff.phase.is_terminal() {
            return Some(
                cat6(
                    "control transition shard ",
                    &shard,
                    " activation_ring_version ",
                    number(t.activation_ring_version).as_str(),
                    " is older than ring_version ",
                    number(self.ring_version).as_str(),
                ),
            );
        }
        let mut j: usize = 0;
        while j < i
            invariant
                j <= i < self.transitions.len(),
                t@ == self@.transitions[i as int],
                shard@ == decimal(t.shard as nat),
                transition_error(self@, i as int) == (if exists|k: int|
                    0 <= k < i && (#[trigger] self@.transitions[k]).shard == t.shard {
                    Some("control state contains multiple transitions for shard "@ + shard@)
                } else if t.handoff.updated_unix_ms > 0 && t.handoff.started_unix_ms
                    > t.handoff.updated_unix_ms {
                    Some(
                        "control transition shard "@ + shard@ + " has started_unix_ms "@ + decimal(
                            t.handoff.started_unix_ms as nat,
                        ) + " newer than updated_unix_ms "@ + decimal(
                            t.handoff.updated_unix_ms as nat,
                        ),
                    )
                } else {
                    None
                }),
                forall|k: int| 0 <= k < j ==> (#[trigger] self@.transitions[k]).shard != t.shard,
            decreases i - j,
        {
            assert(self@.transitions[j as int].shard == self.transitions@[j as int].shard);
            if self.transitions[j].shard == t.shard {
                return Some(
                    cat2("control state contains multiple transitions for shard ", &shard),
                );
            }
            j += 1;
        }
        if t.handoff.updated_unix_ms > 0 && t.handoff.started_unix_ms > t.handoff.updated_unix_ms {
            return Some(
                cat6(
                    "control transition shard ",
                    &shard,
                    " has started_unix_ms ",
                    number(t.handoff.started_unix_ms).as_str(),
                    " newer than updated_unix_ms ",
                    number(t.handoff.updated_unix_ms).as_str(),
                ),
            );
        }
        None
    }

    /// Reports the first fault of the state.
    pub fn validate(&self) -> (res: Result<(), String>)
        ensures
            match res {
                Ok(_) => state_error(self@) is None,
                Err(message) => state_error(self@) == Some(message@),
            },
    {
        if self.membership_epoch == 0 {
            return Err(owned("control state requires membership_epoch > 0"));
        }
        if self.ring_version == 0 {
            return Err(owned("control state requires ring_version > 0"));
        }
        if self.nodes.len() == 0 {
            return Err(owned("control state requires at least one membership node"));
        }
        let ids = match check_nodes(&self.nodes) {
            Ok(ids) => ids,
            Err(message) => {
                return Err(message);
            },
        };
        if let Some(leader) = &self.leader_node_id {
            if !contains_text(&ids, leader) {
                return Err(
                    cat3("control state leader '", leader, "' is not part of membership"),
                );
            }
        }
        if let Some(message) = self.ring.problem() {
            return Err(cat2("invalid control ring snapshot: ", &message));
        }
        if let Some(message) = check_assignments(&ids, &self.ring.assignments) {
            return Err(message);
        }
        let mut i: usize = 0;
        while i < self.transitions.len()
            invariant
                i <= self.transitions.len(),
                views(ids@) == member_ids(self@.nodes),
                transitions_error(self@, i as nat) is None,
                state_error(self@) == transitions_error(self@, self.transitions.len() as nat),
            decreases self.transitions.len() - i,
        {
            if let Some(message) = self.check_transition(&ids, i) {
                proof {
                    assert(transitions_error(self@, (i + 1) as nat) == Some(message@));
                    lemma_transitions_error_stays(
                        self@,
                        (i + 1) as nat,
                        self.transitions.len() as nat,
                    );
                }
                return Err(message);
            }
            i += 1;
        }
        Ok(())
    }
}

} // verus!
