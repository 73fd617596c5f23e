//! A node of the control log as a leader: it proposes commands and brings its peers up to date.

use vstd::prelude::*;
use crate::clock::unix_timestamp_millis;
use crate::consensus::{
    ConsensusView, ControlConsensusRuntime, ProposeOutcome, CONTROL_SYNC_MAX_ATTEMPTS,
};
use crate::consensus_rules::{
    after_failure, after_success, committed_applied, failover_candidate, last_index, leader_name,
    leader_stale, leads, least_text, lemma_committed_sound, log_ordered, log_sound, may_propose,
    next_other, peers_of, proposal_refusal, quorum_of, term_at, voters_of, NodeStep,
};
use crate::control::bumped;
use crate::control_ownership::is_text;
use crate::lists::{group_views, lemma_first_index, lemma_first_index_is, views};
use crate::membership::{ClusterNode, ClusterNodeView};
use crate::parsing::{join_texts, joined};
use crate::rpc_types::{
    AppendRequestView, AppendResponseView, CommandView, EntryView, InstallRequestView,
    InstallResponseView, InternalControlAppendRequest, InternalControlAppendResponse,
    InternalControlCommand, InternalControlInstallSnapshotRequest,
    InternalControlInstallSnapshotResponse, InternalControlLogEntry, PayloadView, SnapshotPayload,
};
use crate::text::{cat2, cat4, cat5, decimal, less, message_view, number, opt_text, owned, same};

verus! {

broadcast use group_views;

/// A command that this node proposes: what to send, to whom, and how many have to accept it.
#[derive(Debug, PartialEq, Eq)]
pub struct ControlProposal {
    pub request: InternalControlAppendRequest,
    pub index: u64,
    pub term: u64,
    pub quorum: usize,
    pub peers: Vec<ClusterNode>,
}

/// What a [`ControlProposal`] holds.
pub struct ProposalView {
    pub request: AppendRequestView,
    pub index: u64,
    pub term: u64,
    pub quorum: int,
    pub peers: Seq<ClusterNodeView>,
}

impl View for ControlProposal {
    type V = ProposalView;

    open spec fn view(&self) -> ProposalView {
        ProposalView {
            request: self.request@,
            index: self.index,
            term: self.term,
            quorum: self.quorum as int,
            peers: views(self.peers@),
        }
    }
}

/// What a peer answered to a proposal; nothing where the call failed.
#[derive(Debug, PartialEq, Eq)]
pub struct ProposalReply {
    pub node_id: String,
    pub response: Option<InternalControlAppendResponse>,
}

/// What a [`ProposalReply`] holds.
pub struct ReplyView {
    pub node_id: Seq<char>,
    pub response: Option<AppendResponseView>,
}

impl View for ProposalReply {
    type V = ReplyView;

    open spec fn view(&self) -> ReplyView {
        ReplyView {
            node_id: self.node_id@,
            response: match self.response {
                Some(response) => Some(response@),
                None => None,
            },
        }
    }
}

/// What became of a proposal, and what to tell the peers once it is committed.
#[derive(Debug, PartialEq, Eq)]
pub struct ProposalEnd {
    pub outcome: ProposeOutcome,
    pub notice: Option<InternalControlAppendRequest>,
    pub peers: Vec<ClusterNode>,
}

/// What a [`ProposalEnd`] holds.
pub struct EndView {
    pub outcome: ProposeOutcome,
    pub notice: Option<AppendRequestView>,
    pub peers: Seq<ClusterNodeView>,
}

impl View for ProposalEnd {
    type V = EndView;

    open spec fn view(&self) -> EndView {
        EndView {
            outcome: self.outcome,
            notice: match self.notice {
                Some(request) => Some(request@),
                None => None,
            },
            peers: views(self.peers@),
        }
    }
}

/// What a peer is to be sent.
#[derive(Debug, PartialEq, Eq)]
pub enum PeerPlan {
    Append(InternalControlAppendRequest),
    InstallSnapshot(InternalControlInstallSnapshotRequest),
}

/// What a [`PeerPlan`] holds.
pub enum PlanView {
    Append(AppendRequestView),
    InstallSnapshot(InstallRequestView),
}

impl View for PeerPlan {
    type V = PlanView;

    open spec fn view(&self) -> PlanView {
        match *self {
            PeerPlan::Append(request) => PlanView::Append(request@),
            PeerPlan::InstallSnapshot(request) => PlanView::InstallSnapshot(request@),
        }
    }
}

/// Whether a peer is to be tried again.
#[derive(Debug, Clone, Copy, PartialEq, Eq, Structural)]
pub enum SyncNext {
    Done,
    Again,
}

/// The last uncommitted entry that holds a command.
pub open spec fn uncommitted_entry(
    entries: Seq<EntryView>,
    commit_index: u64,
    command: CommandView,
) -> Option<EntryView>
    decreases entries.len(),
{
    if entries.len() == 0 {
        None
    } else if entries.last().index > commit_index && entries.last().command == command {
        Some(entries.last())
    } else {
        uncommitted_entry(entries.drop_last(), commit_index, command)
    }
}

/// The entry that a proposal stands for, with the index and the term of the one before it. A
/// command that waits to be committed is proposed again as it stands; another opens a new term.
pub open spec fn prepared(v: ConsensusView, command: CommandView, now_ms: u64) -> NodeStep<
    (EntryView, u64, u64),
> {
    match uncommitted_entry(v.entries, v.commit_index, command) {
        Some(entry) => {
            let before = if entry.index == 0 {
                0u64
            } else {
                (entry.index - 1) as u64
            };
            match term_at(v, before) {
                None => (v, Err("missing prev term for existing proposal entry"@)),
                Some(term) => (v, Ok((entry, before, term))),
            }
        },
        None => {
            let w = ConsensusView { current_term: bumped(v.current_term), ..v };
            let before = last_index(v);
            match term_at(v, before) {
                None => (w, Err("missing prev term for proposal"@)),
                Some(term) => {
                    let entry = EntryView {
                        index: bumped(before),
                        term: w.current_term,
                        command,
                        created_unix_ms: now_ms,
                    };
                    (
                        ConsensusView { entries: v.entries.push(entry), unsaved_log: true, ..w },
                        Ok((entry, before, term)),
                    )
                },
            }
        },
    }
}

/// Whether a command makes this node the leader.
pub open spec fn takes_lead(v: ConsensusView, command: CommandView) -> bool {
    command == (CommandView::SetLeader { leader_node_id: v.local_node_id })
}

/// What proposing a command makes of this node, and the proposal.
pub open spec fn proposal_begun(v: ConsensusView, command: CommandView, now_ms: u64) -> NodeStep<
    ProposalView,
> {
    match proposal_refusal(v, command, now_ms) {
        Some(message) => (v, Err(message)),
        None => match prepared(v, command, now_ms) {
            (w, Err(message)) => (w, Err(message)),
            (w, Ok((entry, prev_log_index, prev_log_term))) => (
                ConsensusView {
                    last_leader_contact_unix_ms: if takes_lead(v, entry.command) {
                        now_ms
                    } else {
                        w.last_leader_contact_unix_ms
                    },
                    ..w
                },
                Ok(
                    ProposalView {
                        request: AppendRequestView {
                            term: entry.term,
                            leader_node_id: v.local_node_id,
                            prev_log_index,
                            prev_log_term,
                            entries: seq![entry],
                            leader_commit: v.commit_index,
                        },
                        index: entry.index,
                        term: entry.term,
                        quorum: quorum_of(v),
                        peers: peers_of(v),
                    },
                ),
            ),
        },
    }
}

/// The peers that accepted a proposal.
pub open spec fn accepting(replies: Seq<ReplyView>) -> Seq<Seq<char>>
    decreases replies.len(),
{
    if replies.len() == 0 {
        Seq::empty()
    } else {
        let before = accepting(replies.drop_last());
        match replies.last().response {
            Some(response) => if response.success {
                before.push(replies.last().node_id)
            } else {
                before
            },
            None => before,
        }
    }
}

/// The highest term that a peer answered with.
pub open spec fn highest_term(replies: Seq<ReplyView>) -> u64
    decreases replies.len(),
{
    if replies.len() == 0 {
        0
    } else {
        let before = highest_term(replies.drop_last());
        match replies.last().response {
            Some(response) => if response.term > before {
                response.term
            } else {
                before
            },
            None => before,
        }
    }
}

/// The next indexes after some peers took an entry.
pub open spec fn next_after(
    known: Map<Seq<char>, u64>,
    peers: Seq<Seq<char>>,
    next: u64,
) -> Map<Seq<char>, u64>
    decreases peers.len(),
{
    if peers.len() == 0 {
        known
    } else {
        next_after(known, peers.drop_last(), next).insert(peers.last(), next)
    }
}

/// The answer to a proposal that is not committed yet.
pub open spec fn still_pending(v: ConsensusView, quorum: usize, acknowledged: usize) -> NodeStep<
    EndView,
> {
    (
        v,
        Ok(
            EndView {
                outcome: ProposeOutcome::Pending { required: quorum, acknowledged },
                notice: None,
                peers: Seq::empty(),
            },
        ),
    )
}

/// What the answers to a proposal make of this node. A higher term takes the lead away; a quorum,
/// in which this node counts, commits the entry.
pub open spec fn proposal_ended(
    v: ConsensusView,
    proposal: ControlProposal,
    replies: Seq<ReplyView>,
    now_ms: u64,
) -> NodeStep<EndView> {
    let acknowledged = (accepting(replies).len() + 1) as usize;
    if highest_term(replies) > proposal.term {
        still_pending(
            ConsensusView { current_term: highest_term(replies), unsaved_log: true, ..v },
            proposal.quorum,
            acknowledged,
        )
    } else if acknowledged < proposal.quorum {
        still_pending(v, proposal.quorum, acknowledged)
    } else {
        let raised = ConsensusView {
            commit_index: if v.commit_index < proposal.index {
                proposal.index
            } else {
                v.commit_index
            },
            peer_next_index: next_after(
                v.peer_next_index,
                accepting(replies),
                bumped(proposal.index),
            ),
            ..v
        };
        match committed_applied(raised, now_ms) {
            (w, Err(message)) => (w, Err(message)),
            (w, Ok(_)) => (
                ConsensusView {
                    last_leader_contact_unix_ms: if leads(w) {
                        now_ms
                    } else {
                        w.last_leader_contact_unix_ms
                    },
                    unsaved_log: true,
                    ..w
                },
                Ok(
                    EndView {
                        outcome: ProposeOutcome::Committed {
                            index: proposal.index,
                            term: proposal.term,
                        },
                        notice: Some(
                            AppendRequestView {
                                term: proposal.term,
                                leader_node_id: v.local_node_id,
                                prev_log_index: proposal.index,
                                prev_log_term: proposal.term,
                                entries: Seq::empty(),
                                leader_commit: w.commit_index,
                            },
                        ),
                        peers: peers_of(w),
                    },
                ),
            ),
        }
    }
}

/// What proposing came to.
pub open spec fn proposal_result(result: Result<ControlProposal, String>) -> Result<
    ProposalView,
    Seq<char>,
> {
    match result {
        Ok(proposal) => Ok(proposal@),
        Err(message) => Err(message@),
    }
}

/// What a proposal came to.
pub open spec fn end_result(result: Result<ProposalEnd, String>) -> Result<EndView, Seq<char>> {
    match result {
        Ok(end) => Ok(end@),
        Err(message) => Err(message@),
    }
}

/// What planning came to.
pub open spec fn plan_result(result: Result<PeerPlan, String>) -> Result<PlanView, Seq<char>> {
    match result {
        Ok(plan) => Ok(plan@),
        Err(message) => Err(message@),
    }
}

/// The first `max` entries from an index on.
pub open spec fn entries_from(entries: Seq<EntryView>, index: u64, max: nat) -> Seq<EntryView>
    decreases entries.len(),
{
    if entries.len() == 0 {
        Seq::empty()
    } else {
        let before = entries_from(entries.drop_last(), index, max);
        if entries.last().index >= index && before.len() < max {
            before.push(entries.last())
        } else {
            before
        }
    }
}

/// The next index that a peer is to be sent.
pub open spec fn next_for(v: ConsensusView, peer: Seq<char>) -> u64 {
    if v.peer_next_index.dom().contains(peer) {
        v.peer_next_index[peer]
    } else {
        bumped(last_index(v))
    }
}

/// What a peer is to be sent: the entries it lacks, or the snapshot where these are cut off.
pub open spec fn peer_plan(v: ConsensusView, peer: Seq<char>) -> Result<PlanView, Seq<char>> {
    let next = next_for(v, peer);
    let term = if v.current_term == 0 {
        1u64
    } else {
        v.current_term
    };
    let before = if next == 0 {
        0u64
    } else {
        (next - 1) as u64
    };
    if next <= v.snapshot_last_index {
        Ok(
            PlanView::InstallSnapshot(
                InstallRequestView {
                    term,
                    leader_node_id: v.local_node_id,
                    snapshot_last_index: v.snapshot_last_index,
                    snapshot_last_term: v.snapshot_last_term,
                    state: PayloadView::Decoded(v.control),
                },
            ),
        )
    } else {
        match term_at(v, before) {
            None => Err("missing prev log term for index "@ + decimal(before as nat)),
            Some(prev_log_term) => Ok(
                PlanView::Append(
                    AppendRequestView {
                        term,
                        leader_node_id: v.local_node_id,
                        prev_log_index: before,
                        prev_log_term,
                        entries: entries_from(
                            v.entries,
                            next,
                            v.config.max_append_entries as nat,
                        ),
                        leader_commit: v.commit_index,
                    },
                ),
            ),
        }
    }
}

/// The next index for a peer that refused an append.
pub open spec fn next_after_refusal(
    v: ConsensusView,
    peer: Seq<char>,
    response: AppendResponseView,
) -> u64 {
    let known = if v.peer_next_index.dom().contains(peer) {
        v.peer_next_index[peer]
    } else {
        1
    };
    let stepped = if known <= 2 {
        1u64
    } else {
        (known - 1) as u64
    };
    let hinted = bumped(response.match_index);
    if response.message == Some("snapshot_required"@) || hinted < stepped {
        hinted
    } else {
        stepped
    }
}

/// The node after a peer answered with a higher term.
pub open spec fn outranked(v: ConsensusView, term: u64) -> ConsensusView {
    if term > v.current_term {
        ConsensusView { current_term: term, unsaved_log: true, ..v }
    } else {
        v
    }
}

/// The node after a peer's next index is known.
pub open spec fn with_next(v: ConsensusView, peer: Seq<char>, next: u64) -> ConsensusView {
    ConsensusView {
        peer_next_index: v.peer_next_index.insert(peer, next),
        unsaved_log: true,
        ..v
    }
}

/// The node after a peer failed to answer, and whether it is tried again.
pub open spec fn peer_failed(
    v: ConsensusView,
    peer: Seq<char>,
    message: Seq<char>,
    attempt: usize,
    now_ms: u64,
) -> NodeStep<SyncNext> {
    (
        ConsensusView { peer_heartbeat: after_failure(v.peer_heartbeat, peer, now_ms), ..v },
        if attempt + 1 < CONTROL_SYNC_MAX_ATTEMPTS {
            Ok(SyncNext::Again)
        } else {
            Err(message)
        },
    )
}

/// What a peer's answer to an append makes of this node, and whether the peer is tried again.
pub open spec fn append_answered(
    v: ConsensusView,
    peer: Seq<char>,
    sent_term: u64,
    reply: Result<AppendResponseView, Seq<char>>,
    attempt: usize,
    now_ms: u64,
) -> NodeStep<SyncNext> {
    match reply {
        Err(detail) => peer_failed(
            v,
            peer,
            "control append RPC to "@ + peer + " failed: "@ + detail,
            attempt,
            now_ms,
        ),
        Ok(response) => {
            let w = ConsensusView {
                peer_heartbeat: after_success(v.peer_heartbeat, peer, now_ms),
                ..v
            };
            if response.term > sent_term {
                (outranked(w, response.term), Ok(SyncNext::Done))
            } else if response.success {
                (with_next(w, peer, bumped(response.match_index)), Ok(SyncNext::Done))
            } else {
                (with_next(w, peer, next_after_refusal(w, peer, response)), Ok(SyncNext::Again))
            }
        },
    }
}

/// What a peer's answer to a snapshot makes of this node, and whether the peer is tried again.
pub open spec fn install_answered(
    v: ConsensusView,
    peer: Seq<char>,
    sent_term: u64,
    reply: Result<InstallResponseView, Seq<char>>,
    attempt: usize,
    now_ms: u64,
) -> NodeStep<SyncNext> {
    match reply {
        Err(detail) => peer_failed(
            v,
            peer,
            "control snapshot RPC to "@ + peer + " failed: "@ + detail,
            attempt,
            now_ms,
        ),
        Ok(response) => {
            let w = ConsensusView {
                peer_heartbeat: after_success(v.peer_heartbeat, peer, now_ms),
                ..v
            };
            if response.term > sent_term {
                (outranked(w, response.term), Ok(SyncNext::Done))
            } else if response.success {
                (with_next(w, peer, bumped(response.last_index)), Ok(SyncNext::Again))
            } else {
                (w, Ok(SyncNext::Done))
            }
        },
    }
}

/// What is reported of the peers that could not be brought up to date.
pub open spec fn replication_report(failures: Seq<Seq<char>>) -> Result<(), Seq<char>> {
    if failures.len() == 0 {
        Ok(())
    } else {
        Err(
            "control follower replication failed for "@ + decimal(failures.len()) + " peer(s): "@
                + joined(failures, "; "@),
        )
    }
}

/// Proposing keeps the log in order; where it was sound it stays so.
pub proof fn lemma_prepared(v: ConsensusView, command: CommandView, now_ms: u64)
    requires
        log_ordered(v),
    ensures
        log_ordered(prepared(v, command, now_ms).0),
        log_sound(v) ==> log_sound(prepared(v, command, now_ms).0),
        prepared(v, command, now_ms).0.control == v.control,
        prepared(v, command, now_ms).0.local_node_id == v.local_node_id,
        prepared(v, command, now_ms).0.commit_index == v.commit_index,
        forall|i: int|
            0 <= i < v.entries.len() ==> i < prepared(v, command, now_ms).0.entries.len()
                && #[trigger] prepared(v, command, now_ms).0.entries[i] == v.entries[i],
{
    let w = prepared(v, command, now_ms).0;
    if v.entries.len() > 0 {
        assert(v.entries.last() == v.entries[v.entries.len() - 1]);
    }
    if w.entries != v.entries {
        assert(w.entries.last() == w.entries[w.entries.len() - 1]);
    }
}

/// The answers to a proposal keep the log in order. Where it is sound and holds the entry, it
/// stays sound.
pub proof fn lemma_proposal_ended(
    v: ConsensusView,
    proposal: ControlProposal,
    replies: Seq<ReplyView>,
    now_ms: u64,
)
    requires
        log_ordered(v),
    ensures
        log_ordered(proposal_ended(v, proposal, replies, now_ms).0),
        log_sound(v) && proposal.index <= last_index(v) ==> log_sound(
            proposal_ended(v, proposal, replies, now_ms).0,
        ),
        proposal_ended(v, proposal, replies, now_ms).0.commit_index >= v.commit_index,
{
    let raised = ConsensusView {
        commit_index: if v.commit_index < proposal.index {
            proposal.index
        } else {
            v.commit_index
        },
        peer_next_index: next_after(v.peer_next_index, accepting(replies), bumped(proposal.index)),
        ..v
    };
    lemma_committed_sound(raised, now_ms);
}

impl ControlConsensusRuntime {
    fn preferred_leader_is_local(&self) -> (res: bool)
        ensures
            res == (least_text(voters_of(self@)) == self@.local_node_id),
    {
        let voters = self.control_voter_node_ids();
        let ghost all = views(voters@);
        if voters.len() == 0 {
            assert(all.len() == 0);
            assert(self.local_node_id@.len() == 0 ==> self.local_node_id@ =~= Seq::<char>::empty());
            return self.local_node_id.as_str().is_empty();
        }
        let mut best: usize = 0;
        let mut i: usize = 1;
        assert(least_text(all.take(1)) == all[0]);
        while i < voters.len()
            invariant
                1 <= i <= voters.len(),
                best < voters.len(),
                all == views(voters@),
                all[best as int] == least_text(all.take(i as int)),
            decreases voters.len() - i,
        {
            assert(all.take(i + 1).drop_last() =~= all.take(i as int));
            assert(all[i as int] == voters@[i as int]@);
            assert(all[best as int] == voters@[best as int]@);
            if less(&voters[i], &voters[best]) {
                best = i;
            }
            i += 1;
        }
        assert(all.take(i as int) =~= all);
        assert(all[best as int] == voters@[best as int]@);
        same(&voters[best], &self.local_node_id)
    }

    pub(crate) fn leader_is_stale(&self, now_ms: u64) -> (res: bool)
        ensures
            res == leader_stale(self@, now_ms),
    {
        if self.control_state.leader_node_id.is_none() {
            return true;
        }
        if self.is_local_control_leader() {
            return false;
        }
        let silence: u64 = now_ms.saturating_sub(self.last_leader_contact_unix_ms);
        silence >= self.config.leader_lease_timeout()
    }

    /// The node that takes over from the leader.
    pub fn next_failover_candidate(&self, current_leader: Option<&str>) -> (res: Option<String>)
        ensures
            opt_text(res) == failover_candidate(
                voters_of(self@),
                crate::text::opt_str(current_leader),
            ),
    {
        let voters = self.control_voter_node_ids();
        let ghost all = views(voters@);
        assert(all.len() == voters.len());
        if voters.len() == 0 {
            return None;
        }
        assert(all[0] == voters@[0]@);
        let leader = match current_leader {
            None => {
                return Some(voters[0].clone());
            },
            Some(leader) => leader,
        };
        if voters.len() == 1 {
            return Some(voters[0].clone());
        }
        let mut at: usize = 0;
        while at < voters.len()
            invariant_except_break
                at <= voters.len(),
                all == views(voters@),
                forall|k: int| 0 <= k < at ==> #[trigger] all[k] != leader@,
            ensures
                at <= voters.len(),
                forall|k: int| 0 <= k < at ==> #[trigger] all[k] != leader@,
                at < voters.len() ==> all[at as int] == leader@,
            decreases voters.len() - at,
        {
            assert(all[at as int] == voters@[at as int]@);
            if same(&voters[at], leader) {
                break;
            }
            at += 1;
        }
        proof {
            lemma_first_index(all, is_text(leader@));
            if at < voters.len() {
                lemma_first_index_is(all, is_text(leader@), at as int);
            }
        }
        if at == voters.len() {
            return None;
        }
        let count: usize = voters.len();
        let mut offset: usize = 1;
        let mut place: usize = at;
        proof {
            vstd::arithmetic::div_mod::lemma_small_mod(at as nat, count as nat);
        }
        while offset <= count
            invariant
                1 <= offset,
                failover_candidate(voters_of(self@), crate::text::opt_str(current_leader))
                    == next_other(all, leader@, at as int, 1),
                count == voters.len(),
                count == all.len(),
                all == views(voters@),
                at < count,
                place < count,
                place as int == (at + offset - 1) % (count as int),
                next_other(all, leader@, at as int, 1) == next_other(
                    all,
                    leader@,
                    at as int,
                    offset as int,
                ),
            decreases count + 1 - offset,
        {
            proof {
                lemma_step_around(at + offset - 1, count as int);
            }
            place = if place + 1 == count {
                0
            } else {
                place + 1
            };
            assert(place as int == (at + offset) % (count as int));
            assert(all[place as int] == voters@[place as int]@);
            if !same(&voters[place], leader) {
                return Some(voters[place].clone());
            }
            if offset == count {
                return None;
            }
            offset += 1;
        }
        None
    }

    /// Whether this node may propose a command at `now_ms`: it leads, or nobody does and it comes
    /// first, or the leader has been silent too long and it is next in turn.
    pub fn can_local_node_propose(&self, now_ms: u64) -> (res: bool)
        ensures
            res == may_propose(self@, now_ms),
    {
        if self.is_local_control_leader() {
            return true;
        }
        let leader = match &self.control_state.leader_node_id {
            None => {
                return self.preferred_leader_is_local();
            },
            Some(leader) => leader.as_str(),
        };
        if !self.leader_is_stale(now_ms) {
            return false;
        }
        match self.next_failover_candidate(Some(leader)) {
            Some(candidate) => same(&candidate, &self.local_node_id),
            None => false,
        }
    }

    fn leader_text(&self) -> (res: &str)
        ensures
            res@ == leader_name(self@),
    {
        match &self.control_state.leader_node_id {
            Some(leader) => leader.as_str(),
            None => "<none>",
        }
    }

    /// Says whether this node may propose a command at `now_ms`.
    pub fn validate_local_proposal(&self, command: &InternalControlCommand, now_ms: u64) -> (res:
        Result<(), String>)
        ensures
            match res {
                Ok(_) => proposal_refusal(self@, command@, now_ms) is None,
                Err(message) => proposal_refusal(self@, command@, now_ms) == Some(message@),
            },
    {
        match command {
            InternalControlCommand::SetLeader { leader_node_id } => {
                if !same(leader_node_id, &self.local_node_id) {
                    return Err(
                        cat5(
                            "local node '",
                            &self.local_node_id,
                            "' cannot propose set_leader for '",
                            leader_node_id,
                            "'",
                        ),
                    );
                }
                if self.can_local_node_propose(now_ms) {
                    return Ok(());
                }
                Err(
                    cat5(
                        "node '",
                        &self.local_node_id,
                        "' is not eligible to propose control command; current leader is '",
                        self.leader_text(),
                        "' and failover preconditions are not met",
                    ),
                )
            },
            _ => {
                if self.is_local_control_leader() {
                    return Ok(());
                }
                Err(
                    cat5(
                        "node '",
                        &self.local_node_id,
                        "' is not the active control leader; current leader is '",
                        self.leader_text(),
                        "'",
                    ),
                )
            },
        }
    }

    fn uncommitted_entry_for_command(&self, command: &InternalControlCommand) -> (res: Option<
        InternalControlLogEntry,
    >)
        ensures
            match res {
                Some(entry) => uncommitted_entry(
                    self@.entries,
                    self@.commit_index,
                    command@,
                ) == Some(entry@),
                None => uncommitted_entry(self@.entries, self@.commit_index, command@) is None,
            },
    {
        let ghost all = self@.entries;
        let mut n: usize = self.entries.len();
        assert(all.take(n as int) =~= all);
        while n > 0
            invariant
                n <= self.entries.len(),
                all == self@.entries,
                all == views(self.entries@),
                uncommitted_entry(all, self@.commit_index, command@) == uncommitted_entry(
                    all.take(n as int),
                    self@.commit_index,
                    command@,
                ),
            decreases n,
        {
            assert(all.take(n as int).drop_last() =~= all.take(n - 1));
            assert(all.take(n as int).last() == self.entries@[n - 1]@);
            let entry = &self.entries[n - 1];
            if entry.index > self.commit_index && entry.command.is_same(command) {
                return Some(entry.clone());
            }
            n -= 1;
        }
        None
    }

    fn prepare_proposal(&mut self, command: &InternalControlCommand, now_ms: u64) -> (res: Result<
        (InternalControlLogEntry, u64, u64),
        String,
    >)
        ensures
            match res {
                Ok(found) => prepared(old(self)@, command@, now_ms) == (
                    final(self)@,
                    Ok::<(EntryView, u64, u64), Seq<char>>((found.0@, found.1, found.2)),
                ),
                Err(message) => prepared(old(self)@, command@, now_ms) == (
                    final(self)@,
                    Err::<(EntryView, u64, u64), Seq<char>>(message@),
                ),
            },
    {
        if let Some(entry) = self.uncommitted_entry_for_command(command) {
            let before: u64 = entry.index.saturating_sub(1);
            return match self.log_term_at(before) {
                None => Err(owned("missing prev term for existing proposal entry")),
                Some(term) => Ok((entry, before, term)),
            };
        }
        self.current_term = self.current_term.saturating_add(1);
        let before: u64 = self.last_log_index();
        let prev_term: u64 = match self.log_term_at(before) {
            None => {
                return Err(owned("missing prev term for proposal"));
            },
            Some(term) => term,
        };
        let entry = InternalControlLogEntry {
            index: before.saturating_add(1),
            term: self.current_term,
            command: command.clone(),
            created_unix_ms: now_ms,
        };
        self.entries.push(entry.clone());
        self.unsaved_log = true;
        Ok((entry, before, prev_term))
    }

    /// Proposes a command at `now_ms`. The proposal's request goes to its peers, whose answers end
    /// it.
    pub fn begin_proposal_at(&mut self, command: InternalControlCommand, now_ms: u64) -> (res:
        Result<ControlProposal, String>)
        requires
            log_ordered(old(self)@),
        ensures
            (final(self)@, proposal_result(res)) == proposal_begun(
                old(self)@,
                command@,
                now_ms,
            ),
            log_ordered(final(self)@),
    {
        proof {
            lemma_prepared(self@, command@, now_ms);
        }
        let quorum: usize = self.quorum_size();
        let peers = self.control_peer_nodes();
        match self.validate_local_proposal(&command, now_ms) {
            Ok(()) => {},
            Err(message) => {
                return Err(message);
            },
        }
        let (entry, prev_log_index, prev_log_term) = match self.prepare_proposal(
            &command,
            now_ms,
        ) {
            Ok(found) => found,
            Err(message) => {
                return Err(message);
            },
        };
        let leading: bool = match &entry.command {
            InternalControlCommand::SetLeader { leader_node_id } => same(
                leader_node_id,
                &self.local_node_id,
            ),
            _ => false,
        };
        if leading {
            self.last_leader_contact_unix_ms = now_ms;
        }
        let mut entries: Vec<InternalControlLogEntry> = Vec::new();
        entries.push(entry.clone());
        assert(views(entries@) =~= seq![entry@]);
        let request = InternalControlAppendRequest {
            term: entry.term,
            leader_node_id: self.local_node_id.clone(),
            prev_log_index,
            prev_log_term,
            entries,
            leader_commit: self.commit_index,
        };
        Ok(ControlProposal { request, index: entry.index, term: entry.term, quorum, peers })
    }

    /// Proposes a command now.
    pub fn begin_proposal(&mut self, command: InternalControlCommand) -> (res: Result<
        ControlProposal,
        String,
    >)
        requires
            log_ordered(old(self)@),
        ensures
            exists|now_ms: u64|
                (final(self)@, proposal_result(res)) == #[trigger] proposal_begun(
                    old(self)@,
                    command@,
                    now_ms,
                ),
            log_ordered(final(self)@),
    {
        self.begin_proposal_at(command, unix_timestamp_millis())
    }

    /// Ends a proposal at `now_ms` with the answers of its peers.
    pub fn finish_proposal_at(
        &mut self,
        proposal: &ControlProposal,
        replies: &Vec<ProposalReply>,
        now_ms: u64,
    ) -> (res: Result<ProposalEnd, String>)
        requires
            log_ordered(old(self)@),
            replies.len() < usize::MAX,
        ensures
            (final(self)@, end_result(res)) == proposal_ended(
                old(self)@,
                *proposal,
                views(replies@),
                now_ms,
            ),
            log_ordered(final(self)@),
    {
        let ghost all = views(replies@);
        proof {
            lemma_proposal_ended(self@, *proposal, all, now_ms);
        }
        let mut accepted: Vec<String> = Vec::new();
        let mut highest: u64 = 0;
        let mut i: usize = 0;
        while i < replies.len()
            invariant
                i <= replies.len(),
                all == views(replies@),
                views(accepted@) == accepting(all.take(i as int)),
                accepted.len() <= i,
                highest == highest_term(all.take(i as int)),
            decreases replies.len() - i,
        {
            assert(all.take(i + 1).drop_last() =~= all.take(i as int));
            assert(all.take(i + 1).last() == replies@[i as int]@);
            if let Some(response) = &replies[i].response {
                if response.term > highest {
                    highest = response.term;
                }
                if response.success {
                    accepted.push(replies[i].node_id.clone());
                }
            }
            i += 1;
        }
        assert(all.take(i as int) =~= all);
        assert(views(accepted@).len() == accepted.len());
        let acknowledged: usize = accepted.len() + 1;
        if highest > proposal.term {
            self.current_term = highest;
            self.unsaved_log = true;
        }
        if highest > proposal.term || acknowledged < proposal.quorum {
            let peers: Vec<ClusterNode> = Vec::new();
            assert(views(peers@) =~= Seq::<ClusterNodeView>::empty());
            return Ok(
                ProposalEnd {
                    outcome: ProposeOutcome::Pending { required: proposal.quorum, acknowledged },
                    notice: None,
                    peers,
                },
            );
        }
        if self.commit_index < proposal.index {
            self.commit_index = proposal.index;
        }
        self.note_next_indexes(&accepted, proposal.index.saturating_add(1));
        match self.apply_committed_entries(now_ms) {
            Ok(()) => {},
            Err(message) => {
                return Err(message);
            },
        }
        if self.is_local_control_leader() {
            self.last_leader_contact_unix_ms = now_ms;
        }
        self.unsaved_log = true;
        let entries: Vec<InternalControlLogEntry> = Vec::new();
        assert(views(entries@) =~= Seq::<EntryView>::empty());
        let notice = InternalControlAppendRequest {
            term: proposal.term,
            leader_node_id: self.local_node_id.clone(),
            prev_log_index: proposal.index,
            prev_log_term: proposal.term,
            entries,
            leader_commit: self.commit_index,
        };
        proof {
            lemma_local_kept(
                ConsensusView {
                    commit_index: if old(self)@.commit_index < proposal.index {
                        proposal.index
                    } else {
                        old(self)@.commit_index
                    },
                    peer_next_index: next_after(
                        old(self)@.peer_next_index,
                        accepting(all),
                        bumped(proposal.index),
                    ),
                    ..old(self)@
                },
                now_ms,
            );
        }
        Ok(
            ProposalEnd {
                outcome: ProposeOutcome::Committed { index: proposal.index, term: proposal.term },
                notice: Some(notice),
                peers: self.control_peer_nodes(),
            },
        )
    }

    /// Ends a proposal now with the answers of its peers.
    pub fn finish_proposal(&mut self, proposal: &ControlProposal, replies: &Vec<ProposalReply>) -> (res:
        Result<ProposalEnd, String>)
        requires
            log_ordered(old(self)@),
            replies.len() < usize::MAX,
        ensures
            exists|now_ms: u64|
                (final(self)@, end_result(res)) == #[trigger] proposal_ended(
                    old(self)@,
                    *proposal,
                    views(replies@),
                    now_ms,
                ),
            log_ordered(final(self)@),
    {
        self.finish_proposal_at(proposal, replies, unix_timestamp_millis())
    }

    fn note_next_indexes(&mut self, peers: &Vec<String>, next: u64)
        ensures
            final(self)@ == (ConsensusView {
                peer_next_index: next_after(old(self)@.peer_next_index, views(peers@), next),
                ..old(self)@
            }),
    {
        let ghost all = views(peers@);
        let ghost start = self@;
        let mut i: usize = 0;
        while i < peers.len()
            invariant
                i <= peers.len(),
                all == views(peers@),
                start == old(self)@,
                self@ == (ConsensusView {
                    peer_next_index: next_after(start.peer_next_index, all.take(i as int), next),
                    ..start
                }),
            decreases peers.len() - i,
        {
            assert(all.take(i + 1).drop_last() =~= all.take(i as int));
            assert(all.take(i + 1).last() == peers@[i as int]@);
            self.peer_next_index.insert(peers[i].clone(), next);
            i += 1;
        }
        assert(all.take(i as int) =~= all);
    }

    /// Whether this node should propose itself as leader at `now_ms`; one that leads notes that it
    /// still does.
    pub fn check_leader_at(&mut self, now_ms: u64) -> (res: bool)
        ensures
            res == (!leads(old(self)@) && may_propose(old(self)@, now_ms)),
            final(self)@ == (ConsensusView {
                last_leader_contact_unix_ms: if leads(old(self)@) {
                    now_ms
                } else {
                    old(self)@.last_leader_contact_unix_ms
                },
                ..old(self)@
            }),
    {
        if self.is_local_control_leader() {
            self.last_leader_contact_unix_ms = now_ms;
            false
        } else {
            self.can_local_node_propose(now_ms)
        }
    }

    /// What a peer is to be sent.
    pub fn build_peer_plan(&self, node_id: &str) -> (res: Result<PeerPlan, String>)
        ensures
            plan_result(res) == peer_plan(self@, node_id@),
    {
        let next: u64 = match self.peer_next_index.get(node_id) {
            Some(next) => *next,
            None => self.last_log_index().saturating_add(1),
        };
        let term: u64 = if self.current_term == 0 {
            1
        } else {
            self.current_term
        };
        if next <= self.snapshot_last_index {
            return Ok(
                PeerPlan::InstallSnapshot(
                    InternalControlInstallSnapshotRequest {
                        term,
                        leader_node_id: self.local_node_id.clone(),
                        snapshot_last_index: self.snapshot_last_index,
                        snapshot_last_term: self.snapshot_last_term,
                        state: SnapshotPayload::Decoded(self.control_state.clone()),
                    },
                ),
            );
        }
        let before: u64 = next.saturating_sub(1);
        let prev_log_term: u64 = match self.log_term_at(before) {
            Some(term) => term,
            None => {
                return Err(cat2("missing prev log term for index ", &number(before)));
            },
        };
        let mut entries: Vec<InternalControlLogEntry> = Vec::new();
        let ghost all = self@.entries;
        let mut i: usize = 0;
        while i < self.entries.len()
            invariant
                i <= self.entries.len(),
                all == views(self.entries@),
                views(entries@) == entries_from(
                    all.take(i as int),
                    next,
                    self.config.max_append_entries as nat,
                ),
            decreases self.entries.len() - i,
        {
            assert(all.take(i + 1).drop_last() =~= all.take(i as int));
            assert(all.take(i + 1).last() == self.entries@[i as int]@);
            assert(views(entries@).len() == entries.len());
            if self.entries[i].index >= next && entries.len() < self.config.max_append_entries {
                entries.push(self.entries[i].clone());
            }
            i += 1;
        }
        assert(all.take(i as int) =~= all);
        Ok(
            PeerPlan::Append(
                InternalControlAppendRequest {
                    term,
                    leader_node_id: self.local_node_id.clone(),
                    prev_log_index: before,
                    prev_log_term,
                    entries,
                    leader_commit: self.commit_index,
                },
            ),
        )
    }

    /// From where a peer is sent entries after it refused an append: what it says it holds is taken as a
    /// hint.
    pub fn peer_next_index_after_append_reject(
        &self,
        node_id: &str,
        response: &InternalControlAppendResponse,
    ) -> (res: u64)
        ensures
            res == next_after_refusal(self@, node_id@, response@),
    {
        let known: u64 = match self.peer_next_index.get(node_id) {
            Some(next) => *next,
            None => 1,
        };
        let stepped: u64 = if known <= 2 {
            1
        } else {
            known - 1
        };
        let hinted: u64 = response.match_index.saturating_add(1);
        let behind: bool = match &response.message {
            Some(message) => same(message, "snapshot_required"),
            None => false,
        };
        if behind || hinted < stepped {
            hinted
        } else {
            stepped
        }
    }

    fn note_higher_term(&mut self, term: u64)
        ensures
            final(self)@ == outranked(old(self)@, term),
    {
        if term > self.current_term {
            self.current_term = term;
            self.unsaved_log = true;
        }
    }

    fn note_next_index(&mut self, node_id: &str, next: u64)
        ensures
            final(self)@ == with_next(old(self)@, node_id@, next),
    {
        self.peer_next_index.insert(owned(node_id), next);
        self.unsaved_log = true;
    }

    /// Takes in a peer's answer to an append, and says whether the peer is tried again.
    pub fn on_append_reply_at(
        &mut self,
        node_id: &str,
        sent_term: u64,
        reply: &Result<InternalControlAppendResponse, String>,
        attempt: usize,
        now_ms: u64,
    ) -> (res: Result<SyncNext, String>)
        requires
            attempt < CONTROL_SYNC_MAX_ATTEMPTS,
        ensures
            (final(self)@, message_view(res)) == append_answered(
                old(self)@,
                node_id@,
                sent_term,
                crate::consensus_node::append_view(*reply),
                attempt,
                now_ms,
            ),
            final(self)@.entries == old(self)@.entries,
            final(self)@.commit_index == old(self)@.commit_index,
            log_ordered(old(self)@) ==> log_ordered(final(self)@),
    {
        match reply {
            Err(detail) => {
                self.mark_peer_failure(node_id, now_ms);
                if attempt + 1 < CONTROL_SYNC_MAX_ATTEMPTS {
                    return Ok(SyncNext::Again);
                }
                Err(cat4("control append RPC to ", node_id, " failed: ", detail))
            },
            Ok(response) => {
                self.mark_peer_success(node_id, now_ms);
                if response.term > sent_term {
                    self.note_higher_term(response.term);
                    return Ok(SyncNext::Done);
                }
                if response.success {
                    self.note_next_index(node_id, response.match_index.saturating_add(1));
                    return Ok(SyncNext::Done);
                }
                let next: u64 = self.peer_next_index_after_append_reject(node_id, response);
                self.note_next_index(node_id, next);
                Ok(SyncNext::Again)
            },
        }
    }

    /// Takes in a peer's answer to a snapshot, and says whether the peer is tried again.
    pub fn on_install_reply_at(
        &mut self,
        node_id: &str,
        sent_term: u64,
        reply: &Result<InternalControlInstallSnapshotResponse, String>,
        attempt: usize,
        now_ms: u64,
    ) -> (res: Result<SyncNext, String>)
        requires
            attempt < CONTROL_SYNC_MAX_ATTEMPTS,
        ensures
            (final(self)@, message_view(res)) == install_answered(
                old(self)@,
                node_id@,
                sent_term,
                crate::consensus_node::install_view(*reply),
                attempt,
                now_ms,
            ),
            final(self)@.entries == old(self)@.entries,
            final(self)@.commit_index == old(self)@.commit_index,
            log_ordered(old(self)@) ==> log_ordered(final(self)@),
    {
        match reply {
            Err(detail) => {
                self.mark_peer_failure(node_id, now_ms);
                if attempt + 1 < CONTROL_SYNC_MAX_ATTEMPTS {
                    return Ok(SyncNext::Again);
                }
                Err(cat4("control snapshot RPC to ", node_id, " failed: ", detail))
            },
            Ok(response) => {
                self.mark_peer_success(node_id, now_ms);
                if response.term > sent_term {
                    self.note_higher_term(response.term);
                    return Ok(SyncNext::Done);
                }
                if response.success {
                    self.note_next_index(node_id, response.last_index.saturating_add(1));
                    return Ok(SyncNext::Again);
                }
                Ok(SyncNext::Done)
            },
        }
    }

    /// The peers that this node replicates to.
    pub fn replication_targets(&self) -> (res: Vec<ClusterNode>)
        ensures
            views(res@) == peers_of(self@),
    {
        self.control_peer_nodes()
    }
}

/// Reports the peers that could not be brought up to date.
pub fn report_replication(failures: &Vec<String>) -> (res: Result<(), String>)
    ensures
        message_view(res) == replication_report(views(failures@)),
{
    assert(views(failures@).len() == failures.len());
    if failures.len() == 0 {
        return Ok(());
    }
    Err(
        cat4(
            "control follower replication failed for ",
            &number(failures.len() as u64),
            " peer(s): ",
            &join_texts(failures, "; "),
        ),
    )
}

/// Applying what is committed leaves the node's own name and place as they are.
proof fn lemma_local_kept(v: ConsensusView, now_ms: u64)
    requires
        log_ordered(v),
    ensures
        committed_applied(v, now_ms).0.local_node_id == v.local_node_id,
{
    let pending = v.commit_index - v.control.applied_log_index;
    if pending > 0 {
        crate::consensus_rules::lemma_replayed(v, now_ms, pending as nat);
    }
}

/// A step around a circle of `m` places.
proof fn lemma_step_around(x: int, m: int)
    requires
        x >= 0,
        m > 0,
    ensures
        (x + 1) % m == if x % m + 1 == m {
            0
        } else {
            x % m + 1
        },
{
    let q = x / m;
    let r = x % m;
    vstd::arithmetic::div_mod::lemma_fundamental_div_mod(x, m);
    if r + 1 == m {
        assert(x + 1 == m * (q + 1) + 0) by (nonlinear_arith)
            requires
                x == m * q + r,
                r + 1 == m,
        ;
        vstd::arithmetic::div_mod::lemma_fundamental_div_mod_converse(x + 1, m, q + 1, 0);
    } else {
        assert(x + 1 == m * q + (r + 1));
        vstd::arithmetic::div_mod::lemma_fundamental_div_mod_converse(x + 1, m, q, r + 1);
    }
}

} // verus!
