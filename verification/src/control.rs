//! The replicated control state of a cluster: its members, its shard ring, and the shards that are
//! being handed over from one owner to another.

use vstd::prelude::*;
use crate::lists::{group_views, views, Ranked};
use crate::ring::{RingView, ShardRingSnapshot};
use crate::text::{cat4, clone_opt, less, opt_text, owned, same, same_opt, text_less, trim, trimmed};

verus! {

broadcast use group_views;

/// Where a node stands in the membership.
#[derive(Debug, Clone, Copy, PartialEq, Eq, Structural)]
pub enum ControlNodeStatus {
    Joining,
    Active,
    Leaving,
    Removed,
}

impl Default for ControlNodeStatus {
    fn default() -> (res: Self)
        ensures
            res == ControlNodeStatus::Active,
    {
        ControlNodeStatus::Active
    }
}

/// The name of a node status.
pub open spec fn status_name(status: ControlNodeStatus) -> Seq<char> {
    match status {
        ControlNodeStatus::Joining => "joining"@,
        ControlNodeStatus::Active => "active"@,
        ControlNodeStatus::Leaving => "leaving"@,
        ControlNodeStatus::Removed => "removed"@,
    }
}

impl ControlNodeStatus {
    pub fn as_str(self) -> (res: &'static str)
        ensures
            res@ == status_name(self),
    {
        match self {
            ControlNodeStatus::Joining => "joining",
            ControlNodeStatus::Active => "active",
            ControlNodeStatus::Leaving => "leaving",
            ControlNodeStatus::Removed => "removed",
        }
    }
}

/// Whether a membership command changed anything.
#[derive(Debug, Clone, Copy, PartialEq, Eq, Structural)]
pub enum ControlMembershipMutationOutcome {
    Noop,
    Applied,
}

/// Whether a handoff command changed anything.
#[derive(Debug, Clone, Copy, PartialEq, Eq, Structural)]
pub enum ControlHandoffMutationOutcome {
    Noop,
    Applied,
}

/// How far the handoff of a shard has come.
#[derive(Debug, Clone, Copy, PartialEq, Eq, Structural)]
pub enum ShardHandoffPhase {
    Warmup,
    Cutover,
    FinalSync,
    Completed,
    Failed,
}

impl Default for ShardHandoffPhase {
    fn default() -> (res: Self)
        ensures
            res == ShardHandoffPhase::Warmup,
    {
        ShardHandoffPhase::Warmup
    }
}

/// The name of a handoff phase.
pub open spec fn phase_name(phase: ShardHandoffPhase) -> Seq<char> {
    match phase {
        ShardHandoffPhase::Warmup => "warmup"@,
        ShardHandoffPhase::Cutover => "cutover"@,
        ShardHandoffPhase::FinalSync => "final_sync"@,
        ShardHandoffPhase::Completed => "completed"@,
        ShardHandoffPhase::Failed => "failed"@,
    }
}

/// Whether a handoff in this phase has ended.
pub open spec fn phase_terminal(phase: ShardHandoffPhase) -> bool {
    phase == ShardHandoffPhase::Completed || phase == ShardHandoffPhase::Failed
}

/// Whether a handoff may go from one phase to another: a phase may be repeated, the phases follow
/// each other in order, each running phase may fail, and a failed handoff may be warmed up again.
pub open spec fn phase_step(from: ShardHandoffPhase, to: ShardHandoffPhase) -> bool {
    ||| from == to
    ||| from == ShardHandoffPhase::Warmup && to == ShardHandoffPhase::Cutover
    ||| from == ShardHandoffPhase::Cutover && to == ShardHandoffPhase::FinalSync
    ||| from == ShardHandoffPhase::FinalSync && to == ShardHandoffPhase::Completed
    ||| !phase_terminal(from) && to == ShardHandoffPhase::Failed
    ||| from == ShardHandoffPhase::Failed && to == ShardHandoffPhase::Warmup
}

impl ShardHandoffPhase {
    pub fn as_str(self) -> (res: &'static str)
        ensures
            res@ == phase_name(self),
    {
        match self {
            ShardHandoffPhase::Warmup => "warmup",
            ShardHandoffPhase::Cutover => "cutover",
            ShardHandoffPhase::FinalSync => "final_sync",
            ShardHandoffPhase::Completed => "completed",
            ShardHandoffPhase::Failed => "failed",
        }
    }

    pub fn is_active(self) -> (res: bool)
        ensures
            res == !phase_terminal(self),
    {
        matches!(
            self,
            ShardHandoffPhase::Warmup | ShardHandoffPhase::Cutover | ShardHandoffPhase::FinalSync
        )
    }

    pub fn is_terminal(self) -> (res: bool)
        ensures
            res == phase_terminal(self),
    {
        matches!(self, ShardHandoffPhase::Completed | ShardHandoffPhase::Failed)
    }

    pub fn can_transition_to(self, next: ShardHandoffPhase) -> (res: bool)
        ensures
            res == phase_step(self, next),
    {
        if self == next {
            return true;
        }
        match (self, next) {
            (ShardHandoffPhase::Warmup, ShardHandoffPhase::Cutover) => true,
            (ShardHandoffPhase::Warmup, ShardHandoffPhase::Failed) => true,
            (ShardHandoffPhase::Cutover, ShardHandoffPhase::FinalSync) => true,
            (ShardHandoffPhase::Cutover, ShardHandoffPhase::Failed) => true,
            (ShardHandoffPhase::FinalSync, ShardHandoffPhase::Completed) => true,
            (ShardHandoffPhase::FinalSync, ShardHandoffPhase::Failed) => true,
            (ShardHandoffPhase::Failed, ShardHandoffPhase::Warmup) => true,
            _ => false,
        }
    }
}

/// What is known of a running or ended handoff.
#[derive(Debug, PartialEq, Eq)]
pub struct ShardHandoffProgress {
    pub phase: ShardHandoffPhase,
    pub copied_rows: u64,
    pub pending_rows: u64,
    pub resumed_count: u64,
    pub started_unix_ms: u64,
    pub updated_unix_ms: u64,
    pub last_error: Option<String>,
}

/// What a [`ShardHandoffProgress`] holds.
pub struct HandoffView {
    pub phase: ShardHandoffPhase,
    pub copied_rows: u64,
    pub pending_rows: u64,
    pub resumed_count: u64,
    pub started_unix_ms: u64,
    pub updated_unix_ms: u64,
    pub last_error: Option<Seq<char>>,
}

impl View for ShardHandoffProgress {
    type V = HandoffView;

    open spec fn view(&self) -> HandoffView {
        HandoffView {
            phase: self.phase,
            copied_rows: self.copied_rows,
            pending_rows: self.pending_rows,
            resumed_count: self.resumed_count,
            started_unix_ms: self.started_unix_ms,
            updated_unix_ms: self.updated_unix_ms,
            last_error: opt_text(self.last_error),
        }
    }
}

/// A handoff that starts at `now_ms`.
pub open spec fn handoff_bootstrap(now_ms: u64) -> HandoffView {
    HandoffView {
        phase: ShardHandoffPhase::Warmup,
        copied_rows: 0,
        pending_rows: 0,
        resumed_count: 0,
        started_unix_ms: now_ms,
        updated_unix_ms: now_ms,
        last_error: None,
    }
}

/// `n + 1`, or `n` where that does not fit.
pub open spec fn bumped(n: u64) -> u64 {
    if n == u64::MAX {
        n
    } else {
        (n + 1) as u64
    }
}

/// `a + b`, or the largest value where that does not fit.
pub open spec fn saturated(a: u64, b: u64) -> u64 {
    if a + b > u64::MAX {
        u64::MAX
    } else {
        (a + b) as u64
    }
}

/// An error text without white space at its ends, or nothing where no other text is left.
pub open spec fn normal_error(error: Option<Seq<char>>) -> Option<Seq<char>> {
    match error {
        Some(text) => if trimmed(text).len() == 0 {
            None
        } else {
            Some(trimmed(text))
        },
        None => None,
    }
}

/// What a report of progress makes of a handoff, apart from its time stamps.
pub open spec fn handoff_reported(
    handoff: HandoffView,
    phase: ShardHandoffPhase,
    copied_rows: Option<u64>,
    pending_rows: Option<u64>,
    last_error: Option<Seq<char>>,
) -> HandoffView {
    HandoffView {
        phase,
        copied_rows: if copied_rows is Some {
            copied_rows->0
        } else {
            handoff.copied_rows
        },
        pending_rows: if pending_rows is Some {
            pending_rows->0
        } else {
            handoff.pending_rows
        },
        resumed_count: if handoff.phase == ShardHandoffPhase::Failed && phase
            == ShardHandoffPhase::Warmup {
            bumped(handoff.resumed_count)
        } else {
            handoff.resumed_count
        },
        last_error: normal_error(last_error),
        ..handoff
    }
}

/// A handoff after a report of progress at `now_ms`: stamped where anything changed.
pub open spec fn handoff_advanced(
    handoff: HandoffView,
    phase: ShardHandoffPhase,
    copied_rows: Option<u64>,
    pending_rows: Option<u64>,
    last_error: Option<Seq<char>>,
    now_ms: u64,
) -> HandoffView {
    let next = handoff_reported(handoff, phase, copied_rows, pending_rows, last_error);
    if handoff_changed(handoff, phase, copied_rows, pending_rows, last_error) {
        HandoffView {
            started_unix_ms: if handoff.started_unix_ms == 0 {
                now_ms
            } else {
                handoff.started_unix_ms
            },
            updated_unix_ms: now_ms,
            ..next
        }
    } else {
        handoff
    }
}

/// Whether a report of progress says anything new of a handoff.
pub open spec fn handoff_changed(
    handoff: HandoffView,
    phase: ShardHandoffPhase,
    copied_rows: Option<u64>,
    pending_rows: Option<u64>,
    last_error: Option<Seq<char>>,
) -> bool {
    ||| handoff.phase != phase
    ||| copied_rows is Some && copied_rows->0 != handoff.copied_rows
    ||| pending_rows is Some && pending_rows->0 != handoff.pending_rows
    ||| normal_error(last_error) != handoff.last_error
}

/// The refusal of a phase that does not follow.
pub open spec fn phase_refusal(from: ShardHandoffPhase, to: ShardHandoffPhase) -> Seq<char> {
    "invalid handoff phase transition: "@ + phase_name(from) + " -> "@ + phase_name(to)
}

impl Default for ShardHandoffProgress {
    fn default() -> (res: Self)
        ensures
            res@ == handoff_bootstrap(0),
    {
        ShardHandoffProgress {
            phase: ShardHandoffPhase::Warmup,
            copied_rows: 0,
            pending_rows: 0,
            resumed_count: 0,
            started_unix_ms: 0,
            updated_unix_ms: 0,
            last_error: None,
        }
    }
}

impl Clone for ShardHandoffProgress {
    fn clone(&self) -> (res: Self)
        ensures
            res == *self,
    {
        ShardHandoffProgress {
            phase: self.phase,
            copied_rows: self.copied_rows,
            pending_rows: self.pending_rows,
            resumed_count: self.resumed_count,
            started_unix_ms: self.started_unix_ms,
            updated_unix_ms: self.updated_unix_ms,
            last_error: clone_opt(&self.last_error),
        }
    }
}

impl ShardHandoffProgress {
    pub(crate) fn bootstrap(now_ms: u64) -> (res: Self)
        ensures
            res@ == handoff_bootstrap(now_ms),
    {
        ShardHandoffProgress {
            phase: ShardHandoffPhase::Warmup,
            copied_rows: 0,
            pending_rows: 0,
            resumed_count: 0,
            started_unix_ms: now_ms,
            updated_unix_ms: now_ms,
            last_error: None,
        }
    }

    /// Takes in a report of progress at `now_ms` and says whether it changed anything; a phase that
    /// does not follow is refused and changes nothing.
    pub fn advance(
        &mut self,
        next_phase: ShardHandoffPhase,
        copied_rows: Option<u64>,
        pending_rows: Option<u64>,
        last_error: Option<String>,
        now_ms: u64,
    ) -> (res: Result<bool, String>)
        ensures
            match res {
                Ok(changed) => phase_step(old(self).phase, next_phase) && final(self)@
                    == handoff_advanced(
                    old(self)@,
                    next_phase,
                    copied_rows,
                    pending_rows,
                    opt_text(last_error),
                    now_ms,
                ) && changed == handoff_changed(
                    old(self)@,
                    next_phase,
                    copied_rows,
                    pending_rows,
                    opt_text(last_error),
                ),
                Err(message) => !phase_step(old(self).phase, next_phase) && final(self)@ == old(
                    self,
                )@ && message@ == phase_refusal(old(self).phase, next_phase),
            },
    {
        if !self.phase.can_transition_to(next_phase) {
            return Err(
                cat4(
                    "invalid handoff phase transition: ",
                    self.phase.as_str(),
                    " -> ",
                    next_phase.as_str(),
                ),
            );
        }
        let mut changed = false;
        if self.phase != next_phase {
            if self.phase == ShardHandoffPhase::Failed && next_phase == ShardHandoffPhase::Warmup {
                self.resumed_count = self.resumed_count.saturating_add(1);
            }
            self.phase = next_phase;
            changed = true;
        }
        if let Some(value) = copied_rows {
            if self.copied_rows != value {
                self.copied_rows = value;
                changed = true;
            }
        }
        if let Some(value) = pending_rows {
            if self.pending_rows != value {
                self.pending_rows = value;
                changed = true;
            }
        }
        let normalized_error: Option<String> = match last_error {
            Some(value) => {
                let text = trim(&value);
                if text.is_empty() {
                    None
                } else {
                    Some(owned(text))
                }
            },
            None => None,
        };
        if !same_opt(&self.last_error, &normalized_error) {
            self.last_error = normalized_error;
            changed = true;
        }
        if changed {
            if self.started_unix_ms == 0 {
                self.started_unix_ms = now_ms;
            }
            self.updated_unix_ms = now_ms;
        }
        Ok(changed)
    }
}

/// A handoff together with the transition that it belongs to.
#[derive(Debug, PartialEq, Eq)]
pub struct ShardHandoffSnapshot {
    pub shard: u32,
    pub from_node_id: String,
    pub to_node_id: String,
    pub activation_ring_version: u64,
    pub phase: ShardHandoffPhase,
    pub copied_rows: u64,
    pub pending_rows: u64,
    pub resumed_count: u64,
    pub started_unix_ms: u64,
    pub updated_unix_ms: u64,
    pub last_error: Option<String>,
}

impl View for ShardHandoffSnapshot {
    type V = TransitionView;

    open spec fn view(&self) -> TransitionView {
        TransitionView {
            shard: self.shard,
            from_node_id: self.from_node_id@,
            to_node_id: self.to_node_id@,
            activation_ring_version: self.activation_ring_version,
            handoff: HandoffView {
                phase: self.phase,
                copied_rows: self.copied_rows,
                pending_rows: self.pending_rows,
                resumed_count: self.resumed_count,
                started_unix_ms: self.started_unix_ms,
                updated_unix_ms: self.updated_unix_ms,
                last_error: opt_text(self.last_error),
            },
        }
    }
}

impl Ranked for ShardHandoffSnapshot {
    open spec fn before(a: TransitionView, b: TransitionView) -> bool {
        ||| a.shard < b.shard
        ||| a.shard == b.shard && text_less(a.from_node_id, b.from_node_id)
        ||| a.shard == b.shard && a.from_node_id == b.from_node_id && text_less(
            a.to_node_id,
            b.to_node_id,
        )
    }

    fn precedes(&self, other: &Self) -> (res: bool) {
        if self.shard != other.shard {
            return self.shard < other.shard;
        }
        if !same(&self.from_node_id, &other.from_node_id) {
            return less(&self.from_node_id, &other.from_node_id);
        }
        proof {
            crate::lists::lemma_text_less_irreflexive(self.from_node_id@);
        }
        less(&self.to_node_id, &other.to_node_id)
    }
}

/// All handoffs of a cluster, with their totals.
#[derive(Debug, PartialEq, Eq)]
pub struct ClusterHandoffSnapshot {
    pub total_shards: usize,
    pub in_progress_shards: usize,
    pub warmup_shards: usize,
    pub cutover_shards: usize,
    pub final_sync_shards: usize,
    pub completed_shards: usize,
    pub failed_shards: usize,
    pub resumed_shards: usize,
    pub copied_rows_total: u64,
    pub pending_rows_total: u64,
    pub shards: Vec<ShardHandoffSnapshot>,
}

impl ClusterHandoffSnapshot {
    pub fn empty() -> (res: Self)
        ensures
            handoff_totals_hold(res, Seq::empty()),
            views(res.shards@) == Seq::<TransitionView>::empty(),
    {
        let res = ClusterHandoffSnapshot {
            total_shards: 0,
            in_progress_shards: 0,
            warmup_shards: 0,
            cutover_shards: 0,
            final_sync_shards: 0,
            completed_shards: 0,
            failed_shards: 0,
            resumed_shards: 0,
            copied_rows_total: 0,
            pending_rows_total: 0,
            shards: Vec::new(),
        };
        assert(views(res.shards@) =~= Seq::<TransitionView>::empty());
        res
    }
}

/// How many of the transitions are in a phase.
pub open spec fn count_phase(transitions: Seq<TransitionView>, phase: ShardHandoffPhase) -> nat
    decreases transitions.len(),
{
    if transitions.len() == 0 {
        0
    } else {
        count_phase(transitions.drop_last(), phase) + if transitions.last().handoff.phase == phase {
            1nat
        } else {
            0nat
        }
    }
}

/// How many of the transitions were resumed after a failure.
pub open spec fn count_resumed(transitions: Seq<TransitionView>) -> nat
    decreases transitions.len(),
{
    if transitions.len() == 0 {
        0
    } else {
        count_resumed(transitions.drop_last()) + if transitions.last().handoff.resumed_count > 0 {
            1nat
        } else {
            0nat
        }
    }
}

/// The rows that the transitions have copied, up to the largest value.
pub open spec fn copied_total(transitions: Seq<TransitionView>) -> u64
    decreases transitions.len(),
{
    if transitions.len() == 0 {
        0
    } else {
        saturated(copied_total(transitions.drop_last()), transitions.last().handoff.copied_rows)
    }
}

/// The rows that the transitions have left to copy, up to the largest value.
pub open spec fn pending_total(transitions: Seq<TransitionView>) -> u64
    decreases transitions.len(),
{
    if transitions.len() == 0 {
        0
    } else {
        saturated(pending_total(transitions.drop_last()), transitions.last().handoff.pending_rows)
    }
}

/// Whether the totals of a snapshot are those of the given transitions.
pub open spec fn handoff_totals_hold(
    snapshot: ClusterHandoffSnapshot,
    transitions: Seq<TransitionView>,
) -> bool {
    &&& snapshot.total_shards == transitions.len()
    &&& snapshot.warmup_shards == count_phase(transitions, ShardHandoffPhase::Warmup)
    &&& snapshot.cutover_shards == count_phase(transitions, ShardHandoffPhase::Cutover)
    &&& snapshot.final_sync_shards == count_phase(transitions, ShardHandoffPhase::FinalSync)
    &&& snapshot.completed_shards == count_phase(transitions, ShardHandoffPhase::Completed)
    &&& snapshot.failed_shards == count_phase(transitions, ShardHandoffPhase::Failed)
    &&& snapshot.in_progress_shards == snapshot.warmup_shards + snapshot.cutover_shards
        + snapshot.final_sync_shards
    &&& snapshot.resumed_shards == count_resumed(transitions)
    &&& snapshot.copied_rows_total == copied_total(transitions)
    &&& snapshot.pending_rows_total == pending_total(transitions)
}

/// Every transition is in exactly one phase, so the counts of the phases add up.
pub proof fn lemma_count_phases(transitions: Seq<TransitionView>)
    ensures
        count_phase(transitions, ShardHandoffPhase::Warmup) + count_phase(
            transitions,
            ShardHandoffPhase::Cutover,
        ) + count_phase(transitions, ShardHandoffPhase::FinalSync) + count_phase(
            transitions,
            ShardHandoffPhase::Completed,
        ) + count_phase(transitions, ShardHandoffPhase::Failed) == transitions.len(),
        count_resumed(transitions) <= transitions.len(),
    decreases transitions.len(),
{
    if transitions.len() > 0 {
        lemma_count_phases(transitions.drop_last());
    }
}

/// A member of the cluster.
#[derive(Debug, PartialEq, Eq)]
pub struct ControlNodeRecord {
    pub id: String,
    pub endpoint: String,
    pub membership_generation: u64,
    pub status: ControlNodeStatus,
}

/// What a [`ControlNodeRecord`] holds.
pub struct NodeView {
    pub id: Seq<char>,
    pub endpoint: Seq<char>,
    pub membership_generation: u64,
    pub status: ControlNodeStatus,
}

impl View for ControlNodeRecord {
    type V = NodeView;

    open spec fn view(&self) -> NodeView {
        NodeView {
            id: self.id@,
            endpoint: self.endpoint@,
            membership_generation: self.membership_generation,
            status: self.status,
        }
    }
}

impl Clone for ControlNodeRecord {
    fn clone(&self) -> (res: Self)
        ensures
            res == *self,
    {
        ControlNodeRecord {
            id: self.id.clone(),
            endpoint: self.endpoint.clone(),
            membership_generation: self.membership_generation,
            status: self.status,
        }
    }
}

impl Ranked for ControlNodeRecord {
    open spec fn before(a: NodeView, b: NodeView) -> bool {
        ||| text_less(a.id, b.id)
        ||| a.id == b.id && text_less(a.endpoint, b.endpoint)
        ||| a.id == b.id && a.endpoint == b.endpoint && a.membership_generation
            < b.membership_generation
    }

    fn precedes(&self, other: &Self) -> (res: bool) {
        if !same(&self.id, &other.id) {
            return less(&self.id, &other.id);
        }
        proof {
            crate::lists::lemma_text_less_irreflexive(self.id@);
        }
        if !same(&self.endpoint, &other.endpoint) {
            return less(&self.endpoint, &other.endpoint);
        }
        proof {
            crate::lists::lemma_text_less_irreflexive(self.endpoint@);
        }
        self.membership_generation < other.membership_generation
    }
}

/// A shard that goes from one owner to another when the ring reaches a version.
#[derive(Debug, PartialEq, Eq)]
pub struct ShardOwnershipTransition {
    pub shard: u32,
    pub from_node_id: String,
    pub to_node_id: String,
    pub activation_ring_version: u64,
    pub handoff: ShardHandoffProgress,
}

/// What a [`ShardOwnershipTransition`] holds.
pub struct TransitionView {
    pub shard: u32,
    pub from_node_id: Seq<char>,
    pub to_node_id: Seq<char>,
    pub activation_ring_version: u64,
    pub handoff: HandoffView,
}

impl View for ShardOwnershipTransition {
    type V = TransitionView;

    open spec fn view(&self) -> TransitionView {
        TransitionView {
            shard: self.shard,
            from_node_id: self.from_node_id@,
            to_node_id: self.to_node_id@,
            activation_ring_version: self.activation_ring_version,
            handoff: self.handoff@,
        }
    }
}

impl Clone for ShardOwnershipTransition {
    fn clone(&self) -> (res: Self)
        ensures
            res == *self,
    {
        ShardOwnershipTransition {
            shard: self.shard,
            from_node_id: self.from_node_id.clone(),
            to_node_id: self.to_node_id.clone(),
            activation_ring_version: self.activation_ring_version,
            handoff: self.handoff.clone(),
        }
    }
}

impl Ranked for ShardOwnershipTransition {
    open spec fn before(a: TransitionView, b: TransitionView) -> bool {
        ||| a.shard < b.shard
        ||| a.shard == b.shard && text_less(a.from_node_id, b.from_node_id)
        ||| a.shard == b.shard && a.from_node_id == b.from_node_id && text_less(
            a.to_node_id,
            b.to_node_id,
        )
        ||| a.shard == b.shard && a.from_node_id == b.from_node_id && a.to_node_id == b.to_node_id
            && a.activation_ring_version < b.activation_ring_version
    }

    fn precedes(&self, other: &Self) -> (res: bool) {
        if self.shard != other.shard {
            return self.shard < other.shard;
        }
        if !same(&self.from_node_id, &other.from_node_id) {
            return less(&self.from_node_id, &other.from_node_id);
        }
        proof {
            crate::lists::lemma_text_less_irreflexive(self.from_node_id@);
        }
        if !same(&self.to_node_id, &other.to_node_id) {
            return less(&self.to_node_id, &other.to_node_id);
        }
        proof {
            crate::lists::lemma_text_less_irreflexive(self.to_node_id@);
        }
        self.activation_ring_version < other.activation_ring_version
    }
}

/// The state that the control log builds up.
#[derive(Debug, PartialEq, Eq)]
pub struct ControlState {
    pub membership_epoch: u64,
    pub ring_version: u64,
    pub applied_log_index: u64,
    pub applied_log_term: u64,
    pub leader_node_id: Option<String>,
    pub nodes: Vec<ControlNodeRecord>,
    pub ring: ShardRingSnapshot,
    pub transitions: Vec<ShardOwnershipTransition>,
    pub updated_unix_ms: u64,
}

/// What a [`ControlState`] holds.
pub struct ControlView {
    pub membership_epoch: u64,
    pub ring_version: u64,
    pub applied_log_index: u64,
    pub applied_log_term: u64,
    pub leader_node_id: Option<Seq<char>>,
    pub nodes: Seq<NodeView>,
    pub ring: RingView,
    pub transitions: Seq<TransitionView>,
    pub updated_unix_ms: u64,
}

impl View for ControlState {
    type V = ControlView;

    open spec fn view(&self) -> ControlView {
        ControlView {
            membership_epoch: self.membership_epoch,
            ring_version: self.ring_version,
            applied_log_index: self.applied_log_index,
            applied_log_term: self.applied_log_term,
            leader_node_id: opt_text(self.leader_node_id),
            nodes: views(self.nodes@),
            ring: self.ring@,
            transitions: views(self.transitions@),
            updated_unix_ms: self.updated_unix_ms,
        }
    }
}

impl Clone for ControlState {
    fn clone(&self) -> (res: Self)
        ensures
            res@ == self@,
    {
        let mut nodes: Vec<ControlNodeRecord> = Vec::new();
        let mut i: usize = 0;
        while i < self.nodes.len()
            invariant
                i <= self.nodes.len(),
                nodes@ == self.nodes@.take(i as int),
            decreases self.nodes.len() - i,
        {
            nodes.push(self.nodes[i].clone());
            i += 1;
        }
        assert(nodes@ =~= self.nodes@);
        let mut transitions: Vec<ShardOwnershipTransition> = Vec::new();
        let mut k: usize = 0;
        while k < self.transitions.len()
            invariant
                k <= self.transitions.len(),
                transitions@ == self.transitions@.take(k as int),
            decreases self.transitions.len() - k,
        {
            transitions.push(self.transitions[k].clone());
            k += 1;
        }
        assert(transitions@ =~= self.transitions@);
        ControlState {
            membership_epoch: self.membership_epoch,
            ring_version: self.ring_version,
            applied_log_index: self.applied_log_index,
            applied_log_term: self.applied_log_term,
            leader_node_id: clone_opt(&self.leader_node_id),
            nodes,
            ring: self.ring.clone(),
            transitions,
            updated_unix_ms: self.updated_unix_ms,
        }
    }
}

} // verus!
