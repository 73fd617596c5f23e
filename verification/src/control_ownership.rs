//! Who owns a shard at a ring version, how the handoffs stand, and whether a control state fits the
//! node that it is loaded on.

use vstd::prelude::*;
use crate::clock::unix_timestamp_millis;
use crate::control::{
    handoff_totals_hold, lemma_count_phases, ClusterHandoffSnapshot, ControlNodeRecord,
    ControlNodeStatus, ControlState, ControlView, NodeView, ShardHandoffPhase, ShardHandoffSnapshot,
    TransitionView,
};
use crate::control_validity::state_error;
use crate::lists::{
    first_index, group_views, lemma_first_index, lemma_first_index_is, ranked_sort, sort_ranked,
    views, Ranked,
};
use crate::membership::{ClusterNodeView, MembershipView};
use crate::ring::{hash_name, ring_hash_version_name, rows, RingView, ShardRing, ShardRingSnapshot};
use crate::text::{
    cat3, cat4, cat7, cat9, clone_opt, clone_texts, contains_text, decimal, number, owned, same,
};

verus! {

broadcast use group_views;

/// The first member with an id.
pub open spec fn find_node(nodes: Seq<NodeView>, id: Seq<char>) -> Option<int> {
    first_index(nodes, |node: NodeView| node.id == id)
}

/// The first transition of a shard.
pub open spec fn find_transition(transitions: Seq<TransitionView>, shard: u32) -> Option<int> {
    first_index(transitions, |t: TransitionView| t.shard == shard)
}

/// The first place of a text in a list.
pub open spec fn find_text(list: Seq<Seq<char>>, item: Seq<char>) -> Option<int> {
    first_index(list, is_text(item))
}

/// Whether a text is the given one.
pub open spec fn is_text(item: Seq<char>) -> spec_fn(Seq<char>) -> bool {
    |text: Seq<char>| text == item
}

/// `owners` with its first `from` replaced by `to`; where there is no `from`, with `to` among them.
pub open spec fn rewritten(
    owners: Seq<Seq<char>>,
    from: Seq<char>,
    to: Seq<char>,
) -> Seq<Seq<char>> {
    match find_text(owners, from) {
        Some(i) => owners.update(i, to),
        None => if owners.contains(to) {
            owners
        } else {
            owners.push(to)
        },
    }
}

/// `list` with only the first of equal texts kept.
pub open spec fn deduped(list: Seq<Seq<char>>) -> Seq<Seq<char>>
    decreases list.len(),
{
    if list.len() == 0 {
        list
    } else if list.drop_last().contains(list.last()) {
        deduped(list.drop_last())
    } else {
        deduped(list.drop_last()).push(list.last())
    }
}

/// The owners of a shard at a ring version: before a transition takes effect the old owner stands in
/// place of the new one, and from then on the new one in place of the old.
pub open spec fn owners_at(s: ControlView, shard: u32, ring_version: u64) -> Seq<Seq<char>> {
    if shard >= s.ring.assignments.len() {
        Seq::empty()
    } else {
        let base = s.ring.assignments[shard as int];
        match find_transition(s.transitions, shard) {
            Some(i) => {
                let t = s.transitions[i];
                if ring_version < t.activation_ring_version {
                    deduped(rewritten(base, t.to_node_id, t.from_node_id))
                } else {
                    deduped(rewritten(base, t.from_node_id, t.to_node_id))
                }
            },
            None => deduped(base),
        }
    }
}

/// The ring with the owners that hold at a ring version.
pub open spec fn ring_at(s: ControlView, ring_version: u64) -> RingView {
    RingView {
        assignments: Seq::new(
            s.ring.shard_count as nat,
            |shard: int| owners_at(s, shard as u32, ring_version),
        ),
        ..s.ring
    }
}

/// The state that a cluster starts with.
pub open spec fn initial_state(
    nodes: Seq<ClusterNodeView>,
    ring: RingView,
    now_ms: u64,
) -> ControlView {
    ControlView {
        membership_epoch: 1,
        ring_version: 1,
        applied_log_index: 0,
        applied_log_term: 0,
        leader_node_id: None,
        nodes: ranked_sort::<ControlNodeRecord>(initial_nodes(nodes)),
        ring,
        transitions: Seq::empty(),
        updated_unix_ms: now_ms,
    }
}

/// The nodes known at start as active members of the first generation.
pub open spec fn initial_nodes(nodes: Seq<ClusterNodeView>) -> Seq<NodeView> {
    Seq::new(
        nodes.len(),
        |i: int|
            NodeView {
                id: nodes[i].id,
                endpoint: nodes[i].endpoint,
                membership_generation: 1,
                status: ControlNodeStatus::Active,
            },
    )
}

/// Where the member with an id stands.
pub(crate) fn locate_node(nodes: &Vec<ControlNodeRecord>, id: &str) -> (res: Option<usize>)
    ensures
        match res {
            Some(i) => i < nodes.len() && find_node(views(nodes@), id@) == Some(i as int)
                && nodes@[i as int].id@ == id@,
            None => find_node(views(nodes@), id@) is None,
        },
{
    let mut i: usize = 0;
    while i < nodes.len()
        invariant
            i <= nodes.len(),
            forall|j: int| 0 <= j < i ==> (#[trigger] views(nodes@)[j]).id != id@,
        decreases nodes.len() - i,
    {
        assert(views(nodes@)[i as int].id == nodes@[i as int].id@);
        if same(&nodes[i].id, id) {
            proof {
                lemma_first_index_is(
                    views(nodes@),
                    |node: NodeView| node.id == id@,
                    i as int,
                );
            }
            return Some(i);
        }
        i += 1;
    }
    proof {
        lemma_first_index(views(nodes@), |node: NodeView| node.id == id@);
    }
    None
}

/// Where the transition of a shard stands.
pub(crate) fn locate_transition(
    transitions: &Vec<crate::control::ShardOwnershipTransition>,
    shard: u32,
) -> (res: Option<usize>)
    ensures
        match res {
            Some(i) => i < transitions.len() && find_transition(views(transitions@), shard) == Some(
                i as int,
            ) && transitions@[i as int].shard == shard,
            None => find_transition(views(transitions@), shard) is None,
        },
{
    let mut i: usize = 0;
    while i < transitions.len()
        invariant
            i <= transitions.len(),
            forall|j: int| 0 <= j < i ==> (#[trigger] views(transitions@)[j]).shard != shard,
        decreases transitions.len() - i,
    {
        assert(views(transitions@)[i as int].shard == transitions@[i as int].shard);
        if transitions[i].shard == shard {
            proof {
                lemma_first_index_is(
                    views(transitions@),
                    |t: TransitionView| t.shard == shard,
                    i as int,
                );
            }
            return Some(i);
        }
        i += 1;
    }
    proof {
        lemma_first_index(views(transitions@), |t: TransitionView| t.shard == shard);
    }
    None
}

/// Puts `to` in place of the first `from`, or among the owners.
pub(crate) fn rewrite_shard_owner(owners: &mut Vec<String>, from: &str, to: &str)
    ensures
        views(final(owners)@) == rewritten(views(old(owners)@), from@, to@),
{
    let ghost all = views(owners@);
    let mut i: usize = 0;
    while i < owners.len()
        invariant
            i <= owners.len(),
            all == views(owners@),
            all == views(old(owners)@),
            forall|j: int| 0 <= j < i ==> #[trigger] all[j] != from@,
        decreases owners.len() - i,
    {
        assert(all[i as int] == owners@[i as int]@);
        if same(&owners[i], from) {
            proof {
                lemma_first_index_is(all, is_text(from@), i as int);
            }
            owners.set(i, owned(to));
            return;
        }
        i += 1;
    }
    proof {
        lemma_first_index(all, is_text(from@));
    }
    if !contains_text(owners, to) {
        owners.push(owned(to));
    }
}

proof fn lemma_deduped_contains(list: Seq<Seq<char>>, item: Seq<char>)
    ensures
        deduped(list).contains(item) == list.contains(item),
    decreases list.len(),
{
    if list.len() > 0 {
        let head = list.drop_last();
        lemma_deduped_contains(head, item);
        assert(list =~= head.push(list.last()));
        if head.contains(item) {
            let k = choose|k: int| 0 <= k < head.len() && head[k] == item;
            assert(list[k] == item);
            let m = choose|m: int| 0 <= m < deduped(head).len() && deduped(head)[m] == item;
            assert(deduped(list)[m] == item);
        } else if list.last() == item {
            assert(list[list.len() - 1] == item);
            assert(deduped(list).last() == item);
        } else if list.contains(item) {
            let k = choose|k: int| 0 <= k < list.len() && list[k] == item;
            assert(head[k] == item);
        }
        if deduped(list).contains(item) && !head.contains(item) && list.last() != item {
            let k = choose|k: int| 0 <= k < deduped(list).len() && deduped(list)[k] == item;
            assert(deduped(head)[k] == item);
        }
    }
}

/// Every text of a list stays in its deduplicated form, and only once.
pub proof fn lemma_deduped(list: Seq<Seq<char>>)
    ensures
        deduped(list).no_duplicates(),
        forall|item: Seq<char>| #[trigger] deduped(list).contains(item) == list.contains(item),
    decreases list.len(),
{
    assert forall|item: Seq<char>| #[trigger]
        deduped(list).contains(item) == list.contains(item) by {
        lemma_deduped_contains(list, item);
    }
    if list.len() > 0 {
        let head = deduped(list.drop_last());
        lemma_deduped(list.drop_last());
        if !list.drop_last().contains(list.last()) {
            assert forall|i: int| 0 <= i < head.len() implies head[i] != list.last() by {
                assert(head.contains(head[i]));
            }
        }
    }
}

/// Keeps only the first of equal owners.
pub(crate) fn dedupe_preserving_order(owners: &mut Vec<String>)
    ensures
        views(final(owners)@) == deduped(views(old(owners)@)),
{
    let ghost all = views(owners@);
    let mut kept: Vec<String> = Vec::new();
    let mut i: usize = 0;
    assert(views(kept@) =~= deduped(all.take(0)));
    while i < owners.len()
        invariant
            i <= owners.len(),
            all == views(owners@),
            all == views(old(owners)@),
            views(kept@) == deduped(all.take(i as int)),
        decreases owners.len() - i,
    {
        proof {
            assert(all.take(i + 1).drop_last() =~= all.take(i as int));
            assert(all.take(i + 1).last() == owners@[i as int]@);
            lemma_deduped(all.take(i as int));
        }
        if !contains_text(&kept, &owners[i]) {
            kept.push(owners[i].clone());
        }
        i += 1;
    }
    assert(all.take(i as int) =~= all);
    *owners = kept;
}

/// Whether two lists hold the same texts in the same order.
pub(crate) fn same_texts(a: &Vec<String>, b: &Vec<String>) -> (res: bool)
    ensures
        res == (views(a@) == views(b@)),
{
    if a.len() != b.len() {
        assert(views(a@).len() != views(b@).len());
        return false;
    }
    let mut i: usize = 0;
    while i < a.len()
        invariant
            i <= a.len(),
            a.len() == b.len(),
            forall|j: int| 0 <= j < i ==> #[trigger] views(a@)[j] == views(b@)[j],
        decreases a.len() - i,
    {
        if !same(&a[i], &b[i]) {
            assert(views(a@)[i as int] != views(b@)[i as int]);
            return false;
        }
        i += 1;
    }
    assert(views(a@) =~= views(b@));
    true
}

/// Writes a finished change of owner into the owners of a shard; says whether that changed them.
pub(crate) fn materialize_shard_owner(
    owners: &mut Vec<String>,
    from_node_id: &str,
    to_node_id: &str,
) -> (res: bool)
    ensures
        views(final(owners)@) == deduped(
            rewritten(views(old(owners)@), from_node_id@, to_node_id@),
        ),
        res == (views(final(owners)@) != views(old(owners)@)),
{
    let before = clone_texts(owners);
    rewrite_shard_owner(owners, from_node_id, to_node_id);
    dedupe_preserving_order(owners);
    !same_texts(owners, &before)
}

/// Why a valid control state does not fit this node.
pub open spec fn runtime_mismatch(
    s: ControlView,
    local: Seq<char>,
    nodes: Seq<ClusterNodeView>,
    ring: RingView,
) -> Option<Seq<char>> {
    let here = first_index(nodes, |node: ClusterNodeView| node.id == local);
    let known = find_node(s.nodes, local);
    if here is None {
        Some("cluster runtime membership is missing local node '"@ + local + "'"@)
    } else if known is None {
        Some("persisted control membership is missing local cluster node '"@ + local + "'"@)
    } else if s.nodes[known->0].endpoint != nodes[here->0].endpoint {
        Some(
            "persisted control membership endpoint mismatch for local node '"@ + local + "': '"@
                + s.nodes[known->0].endpoint + "' != '"@ + nodes[here->0].endpoint + "'"@,
        )
    } else if s.ring.shard_count != ring.shard_count {
        Some(
            "persisted control ring shard_count "@ + decimal(s.ring.shard_count as nat)
                + " does not match runtime shard_count "@ + decimal(ring.shard_count as nat),
        )
    } else if s.ring.hash_version != ring.hash_version {
        Some(
            "persisted control ring hash_version "@ + decimal(s.ring.hash_version as nat) + " ("@
                + known_hash_name(s.ring.hash_version) + ") does not match runtime hash_version "@
                + decimal(ring.hash_version as nat) + " ("@ + known_hash_name(ring.hash_version)
                + "); rebuild or migrate the control state before startup"@,
        )
    } else if s.ring.replication_factor != ring.replication_factor {
        Some(
            "persisted control ring replication_factor "@ + decimal(
                s.ring.replication_factor as nat,
            ) + " does not match runtime replication_factor "@ + decimal(
                ring.replication_factor as nat,
            ),
        )
    } else if s.ring.virtual_nodes_per_node != ring.virtual_nodes_per_node {
        Some(
            "persisted control ring virtual_nodes_per_node "@ + decimal(
                s.ring.virtual_nodes_per_node as nat,
            ) + " does not match runtime virtual_nodes_per_node "@ + decimal(
                ring.virtual_nodes_per_node as nat,
            ),
        )
    } else {
        None
    }
}

/// The name of a ring hash version, or `unknown`.
pub open spec fn known_hash_name(version: u32) -> Seq<char> {
    match hash_name(version) {
        Some(name) => name,
        None => "unknown"@,
    }
}

fn hash_name_or_unknown(version: u32) -> (res: &'static str)
    ensures
        res@ == known_hash_name(version),
{
    match ring_hash_version_name(version) {
        Some(name) => name,
        None => "unknown",
    }
}

impl ControlState {
    /// The state that a cluster with these nodes and this ring starts with at `now_ms`.
    pub fn from_runtime_at(membership: &MembershipView, ring: &ShardRing, now_ms: u64) -> (res:
        Self)
        ensures
            res@ == initial_state(views(membership.nodes@), ring@, now_ms),
    {
        let ghost known = views(membership.nodes@);
        let mut nodes: Vec<ControlNodeRecord> = Vec::new();
        let mut i: usize = 0;
        assert(views(nodes@) =~= initial_nodes(known.take(0)));
        while i < membership.nodes.len()
            invariant
                i <= membership.nodes.len(),
                known == views(membership.nodes@),
                views(nodes@) == initial_nodes(known.take(i as int)),
            decreases membership.nodes.len() - i,
        {
            let node = ControlNodeRecord {
                id: membership.nodes[i].id.clone(),
                endpoint: membership.nodes[i].endpoint.clone(),
                membership_generation: 1,
                status: ControlNodeStatus::Active,
            };
            assert(known[i as int] == membership.nodes@[i as int]@);
            nodes.push(node);
            assert(initial_nodes(known.take(i + 1)) =~= initial_nodes(known.take(i as int)).push(
                node@,
            ));
            i += 1;
        }
        assert(known.take(i as int) =~= known);
        let res = ControlState {
            membership_epoch: 1,
            ring_version: 1,
            applied_log_index: 0,
            applied_log_term: 0,
            leader_node_id: None,
            nodes: sort_ranked(nodes),
            ring: ring.snapshot(),
            transitions: Vec::new(),
            updated_unix_ms: now_ms,
        };
        assert(views(res.transitions@) =~= Seq::<TransitionView>::empty());
        res
    }

    /// The state that a cluster with these nodes and this ring starts with now.
    pub fn from_runtime(membership: &MembershipView, ring: &ShardRing) -> (res: Self)
        ensures
            res@ == initial_state(views(membership.nodes@), ring@, res.updated_unix_ms),
    {
        ControlState::from_runtime_at(membership, ring, unix_timestamp_millis())
    }

    /// Reports why this state cannot be used by this node, if it cannot.
    pub fn ensure_runtime_compatible(&self, membership: &MembershipView, ring: &ShardRing) -> (res:
        Result<(), String>)
        ensures
            match res {
                Ok(_) => state_error(self@) is None && runtime_mismatch(
                    self@,
                    membership.local_node_id@,
                    views(membership.nodes@),
                    ring@,
                ) is None,
                Err(message) => Some(message@) == (if state_error(self@) is Some {
                    state_error(self@)
                } else {
                    runtime_mismatch(
                        self@,
                        membership.local_node_id@,
                        views(membership.nodes@),
                        ring@,
                    )
                }),
            },
    {
        if let Err(message) = self.validate() {
            return Err(message);
        }
        let local = membership.local_node_id.as_str();
        let ghost known = views(membership.nodes@);
        let mut here: Option<usize> = None;
        let mut i: usize = 0;
        while i < membership.nodes.len() && here.is_none()
            invariant
                i <= membership.nodes.len(),
                known == views(membership.nodes@),
                here is None ==> forall|j: int| 0 <= j < i ==> (#[trigger] known[j]).id != local@,
                here matches Some(k) ==> k < membership.nodes.len() && first_index(
                    known,
                    |node: ClusterNodeView| node.id == local@,
                ) == Some(k as int),
            decreases membership.nodes.len() - i,
        {
            assert(known[i as int] == membership.nodes@[i as int]@);
            if same(&membership.nodes[i].id, local) {
                proof {
                    lemma_first_index_is(
                        known,
                        |node: ClusterNodeView| node.id == local@,
                        i as int,
                    );
                }
                here = Some(i);
            }
            i += 1;
        }
        proof {
            lemma_first_index(known, |node: ClusterNodeView| node.id == local@);
        }
        let at = match here {
            Some(at) => at,
            None => {
                return Err(
                    cat3("cluster runtime membership is missing local node '", local, "'"),
                );
            },
        };
        let record = match locate_node(&self.nodes, local) {
            Some(k) => k,
            None => {
                return Err(
                    cat3(
                        "persisted control membership is missing local cluster node '",
                        local,
                        "'",
                    ),
                );
            },
        };
        assert(self@.nodes[record as int] == self.nodes@[record as int]@);
        assert(known[at as int] == membership.nodes@[at as int]@);
        if !same(&self.nodes[record].endpoint, &membership.nodes[at].endpoint) {
            return Err(
                cat7(
                    "persisted control membership endpoint mismatch for local node '",
                    local,
                    "': '",
                    &self.nodes[record].endpoint,
                    "' != '",
                    &membership.nodes[at].endpoint,
                    "'",
                ),
            );
        }
        if self.ring.shard_count != ring.shard_count() {
            return Err(
                cat4(
                    "persisted control ring shard_count ",
                    number(self.ring.shard_count as u64).as_str(),
                    " does not match runtime shard_count ",
                    number(ring.shard_count() as u64).as_str(),
                ),
            );
        }
        if self.ring.hash_version != ring.hash_version() {
            return Err(
                cat9(
                    "persisted control ring hash_version ",
                    number(self.ring.hash_version as u64).as_str(),
                    " (",
                    hash_name_or_unknown(self.ring.hash_version),
                    ") does not match runtime hash_version ",
                    number(ring.hash_version() as u64).as_str(),
                    " (",
                    hash_name_or_unknown(ring.hash_version()),
                    "); rebuild or migrate the control state before startup",
                ),
            );
        }
        if self.ring.replication_factor != ring.replication_factor() {
            return Err(
                cat4(
                    "persisted control ring replication_factor ",
                    number(self.ring.replication_factor as u64).as_str(),
                    " does not match runtime replication_factor ",
                    number(ring.replication_factor() as u64).as_str(),
                ),
            );
        }
        if self.ring.virtual_nodes_per_node != ring.virtual_nodes_per_node() {
            return Err(
                cat4(
                    "persisted control ring virtual_nodes_per_node ",
                    number(self.ring.virtual_nodes_per_node as u64).as_str(),
                    " does not match runtime virtual_nodes_per_node ",
                    number(ring.virtual_nodes_per_node() as u64).as_str(),
                ),
            );
        }
        Ok(())
    }

    /// The shard that a series belongs to.
    pub fn shard_for_series_id(&self, series_id: u64) -> (res: u32)
        requires
            self.ring.shard_count > 0,
        ensures
            res == series_id as int % self.ring.shard_count as int,
    {
        (series_id % self.ring.shard_count as u64) as u32
    }

    /// The owners of a shard at a ring version.
    pub fn owners_for_shard_at_ring_version(&self, shard: u32, ring_version: u64) -> (res: Vec<
        String,
    >)
        ensures
            views(res@) == owners_at(self@, shard, ring_version),
    {
        if shard as usize >= self.ring.assignments.len() {
            let res: Vec<String> = Vec::new();
            assert(views(res@) =~= Seq::<Seq<char>>::empty());
            return res;
        }
        let mut effective = clone_texts(&self.ring.assignments[shard as usize]);
        assert(self@.ring.assignments[shard as int] == views(effective@));
        if let Some(i) = locate_transition(&self.transitions, shard) {
            let t = &self.transitions[i];
            assert(self@.transitions[i as int] == t@);
            if ring_version < t.activation_ring_version {
                rewrite_shard_owner(&mut effective, &t.to_node_id, &t.from_node_id);
            } else {
                rewrite_shard_owner(&mut effective, &t.from_node_id, &t.to_node_id);
            }
        }
        dedupe_preserving_order(&mut effective);
        effective
    }

    /// The ring with the owners that hold at a ring version.
    pub fn effective_ring_snapshot_at_ring_version(&self, ring_version: u64) -> (res:
        ShardRingSnapshot)
        ensures
            res@ == ring_at(self@, ring_version),
    {
        let mut assignments: Vec<Vec<String>> = Vec::new();
        let mut shard: u32 = 0;
        while shard < self.ring.shard_count
            invariant
                shard <= self.ring.shard_count,
                assignments.len() == shard,
                forall|k: int|
                    0 <= k < shard ==> views((#[trigger] assignments@[k])@) == owners_at(
                        self@,
                        k as u32,
                        ring_version,
                    ),
            decreases self.ring.shard_count - shard,
        {
            let owners = self.owners_for_shard_at_ring_version(shard, ring_version);
            assignments.push(owners);
            shard += 1;
        }
        assert(rows(assignments@) =~= ring_at(self@, ring_version).assignments);
        ShardRingSnapshot {
            hash_version: self.ring.hash_version,
            shard_count: self.ring.shard_count,
            replication_factor: self.ring.replication_factor,
            virtual_nodes_per_node: self.ring.virtual_nodes_per_node,
            assignments,
        }
    }

    /// Whether a node owns a shard at a ring version.
    pub fn node_is_owner_for_shard_at_ring_version(
        &self,
        shard: u32,
        node_id: &str,
        ring_version: u64,
    ) -> (res: bool)
        ensures
            res == owners_at(self@, shard, ring_version).contains(node_id@),
    {
        let owners = self.owners_for_shard_at_ring_version(shard, ring_version);
        contains_text(&owners, node_id)
    }

    /// The first member with an id.
    pub fn node_record(&self, node_id: &str) -> (res: Option<&ControlNodeRecord>)
        ensures
            match res {
                Some(node) => find_node(self@.nodes, node_id@) is Some && node@
                    == self@.nodes[find_node(self@.nodes, node_id@)->0],
                None => find_node(self@.nodes, node_id@) is None,
            },
    {
        match locate_node(&self.nodes, node_id) {
            Some(i) => {
                assert(self@.nodes[i as int] == self.nodes@[i as int]@);
                Some(&self.nodes[i])
            },
            None => None,
        }
    }

    /// All handoffs in the order of their shards, with their totals.
    pub fn handoff_snapshot(&self) -> (res: ClusterHandoffSnapshot)
        ensures
            handoff_totals_hold(res, self@.transitions),
            views(res.shards@) == ranked_sort::<ShardHandoffSnapshot>(self@.transitions),
    {
        let ghost all = self@.transitions;
        let mut snapshot = ClusterHandoffSnapshot::empty();
        let mut shards: Vec<ShardHandoffSnapshot> = Vec::new();
        let mut i: usize = 0;
        assert(all.take(0) =~= Seq::<TransitionView>::empty());
        assert(views(shards@) =~= all.take(0));
        while i < self.transitions.len()
            invariant
                i <= self.transitions.len(),
                all == views(self.transitions@),
                handoff_totals_hold(snapshot, all.take(i as int)),
                views(shards@) == all.take(i as int),
            decreases self.transitions.len() - i,
        {
            let transition = &self.transitions[i];
            let handoff = &transition.handoff;
            proof {
                assert(all[i as int] == transition@);
                assert(all.take(i + 1).drop_last() =~= all.take(i as int));
                assert(all.take(i + 1).last() == transition@);
                assert(all.take(i + 1) =~= all.take(i as int).push(transition@));
                lemma_count_phases(all.take(i as int));
            }
            snapshot.total_shards = snapshot.total_shards.saturating_add(1);
            snapshot.copied_rows_total = snapshot.copied_rows_total.saturating_add(
                handoff.copied_rows,
            );
            snapshot.pending_rows_total = snapshot.pending_rows_total.saturating_add(
                handoff.pending_rows,
            );
            if handoff.phase.is_active() {
                snapshot.in_progress_shards = snapshot.in_progress_shards.saturating_add(1);
            }
            if handoff.resumed_count > 0 {
                snapshot.resumed_shards = snapshot.resumed_shards.saturating_add(1);
            }
            match handoff.phase {
                ShardHandoffPhase::Warmup => {
                    snapshot.warmup_shards = snapshot.warmup_shards.saturating_add(1);
                },
                ShardHandoffPhase::Cutover => {
                    snapshot.cutover_shards = snapshot.cutover_shards.saturating_add(1);
                },
                ShardHandoffPhase::FinalSync => {
                    snapshot.final_sync_shards = snapshot.final_sync_shards.saturating_add(1);
                },
                ShardHandoffPhase::Completed => {
                    snapshot.completed_shards = snapshot.completed_shards.saturating_add(1);
                },
                ShardHandoffPhase::Failed => {
                    snapshot.failed_shards = snapshot.failed_shards.saturating_add(1);
                },
            }
            shards.push(
                ShardHandoffSnapshot {
                    shard: transition.shard,
                    from_node_id: transition.from_node_id.clone(),
                    to_node_id: transition.to_node_id.clone(),
                    activation_ring_version: transition.activation_ring_version,
                    phase: handoff.phase,
                    copied_rows: handoff.copied_rows,
                    pending_rows: handoff.pending_rows,
                    resumed_count: handoff.resumed_count,
                    started_unix_ms: handoff.started_unix_ms,
                    updated_unix_ms: handoff.updated_unix_ms,
                    last_error: clone_opt(&handoff.last_error),
                },
            );
            i += 1;
        }
        assert(all.take(i as int) =~= all);
        snapshot.shards = sort_ranked(shards);
        snapshot
    }
}

} // verus!
