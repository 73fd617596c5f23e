//! What the control log is for: a leader sends its followers what they lack, commits what most of
//! them hold, and every node applies the same entries in the same order.

use vstd::prelude::*;
use crate::consensus::{ConsensusView, PeerHeartbeatState, ProposeOutcome};
use crate::consensus_laws::{quorum_reached, raised_to};
use crate::consensus_leader::{
    accepting, append_answered, entries_from, highest_term, install_answered, next_after, peer_plan,
    proposal_begun, proposal_ended, uncommitted_entry, ControlProposal, PlanView, ReplyView,
    SyncNext,
};
use crate::consensus_rules::{
    append_step, committed_applied, contacted, entries_taken, entry_applied, is_peer, last_index,
    lemma_committed_sound, lemma_entries_taken, log_ordered, log_sound, offset_of, peers_among,
    peers_of, quorum_of, replayed, voters_among, voters_of,
};
use crate::control::{bumped, ControlNodeStatus, NodeView};
use crate::membership::ClusterNodeView;
use crate::rpc_types::{
    AppendRequestView, AppendResponseView, CommandView, EntryView, InstallResponseView, PayloadView,
};
use crate::text::trimmed;

verus! {

/// The entries from an index on that a log in line holds are a piece of it.
proof fn lemma_entries_from(entries: Seq<EntryView>, start: int, index: u64, max: nat)
    requires
        forall|i: int| 0 <= i < entries.len() ==> (#[trigger] entries[i]).index == start + i,
        start <= index,
    ensures
        ({
            let at = index - start;
            let found = entries_from(entries, index, max);
            let lacking = if at >= entries.len() {
                0
            } else {
                entries.len() - at
            };
            &&& found.len() == if lacking < max {
                lacking
            } else {
                max as int
            }
            &&& forall|k: int| 0 <= k < found.len() ==> #[trigger] found[k] == entries[at + k]
        }),
    decreases entries.len(),
{
    if entries.len() > 0 {
        let front = entries.drop_last();
        assert forall|i: int| 0 <= i < front.len() implies (#[trigger] front[i]).index == start
            + i by {
            assert(front[i] == entries[i]);
        }
        lemma_entries_from(front, start, index, max);
        assert(entries.last() == entries[entries.len() - 1]);
    }
}

/// A peer whose next entry the log holds, or would hold next, is sent the entries of the log from
/// there on, one after the other and as many as one message takes: entry `k` of the message is the
/// entry of the log with the index that follows the one before, and none is left out.
pub proof fn law_peer_is_sent_what_it_lacks(v: ConsensusView, peer: Seq<char>)
    requires
        log_ordered(v),
        v.snapshot_last_index + v.entries.len() < u64::MAX,
        v.peer_next_index.dom().contains(peer),
        v.snapshot_last_index < v.peer_next_index[peer] <= v.snapshot_last_index + v.entries.len()
            + 1,
    ensures
        ({
            let next = v.peer_next_index[peer];
            let at = next - v.snapshot_last_index - 1;
            let lacking = v.entries.len() - at;
            peer_plan(v, peer) matches Ok(PlanView::Append(request)) && {
                &&& request.prev_log_index == next - 1
                &&& request.prev_log_term == (if next == 1 {
                    0
                } else if at == 0 {
                    v.snapshot_last_term
                } else {
                    v.entries[at - 1].term
                })
                &&& request.entries.len() == (if lacking < v.config.max_append_entries {
                    lacking
                } else {
                    v.config.max_append_entries as int
                })
                &&& forall|k: int|
                    0 <= k < request.entries.len() ==> (#[trigger] request.entries[k])
                        == v.entries[at + k] && request.entries[k].index
                        == request.prev_log_index + 1 + k
                &&& request.leader_node_id == v.local_node_id
                &&& request.leader_commit == v.commit_index
                &&& request.term == (if v.current_term == 0 {
                    1
                } else {
                    v.current_term
                })
            }
        }),
{
    assert forall|i: int| 0 <= i < v.entries.len() implies (#[trigger] v.entries[i]).index
        == v.snapshot_last_index + 1 + i by {}
    lemma_entries_from(
        v.entries,
        v.snapshot_last_index + 1,
        v.peer_next_index[peer],
        v.config.max_append_entries as nat,
    );
}

/// A peer whose next entry is cut off is sent the snapshot with the control state of the leader, and
/// a peer of which nothing is known is asked whether it holds the whole log.
pub proof fn law_peer_far_behind_is_sent_the_snapshot(v: ConsensusView, peer: Seq<char>)
    requires
        log_ordered(v),
        v.snapshot_last_index + v.entries.len() < u64::MAX,
    ensures
        v.peer_next_index.dom().contains(peer) && v.peer_next_index[peer] <= v.snapshot_last_index
            ==> (peer_plan(v, peer) matches Ok(PlanView::InstallSnapshot(request)) && {
            &&& request.snapshot_last_index == v.snapshot_last_index
            &&& request.snapshot_last_term == v.snapshot_last_term
            &&& request.state == PayloadView::Decoded(v.control)
            &&& request.leader_node_id == v.local_node_id
            &&& request.term >= v.current_term
            &&& v.current_term > 0 ==> request.term == v.current_term
            &&& request.term > 0
        }),
        !v.peer_next_index.dom().contains(peer) ==> (peer_plan(v, peer) matches Ok(
            PlanView::Append(request),
        ) && request.prev_log_index == v.snapshot_last_index + v.entries.len()
            && request.entries.len() == 0),
{
    assert forall|i: int| 0 <= i < v.entries.len() implies (#[trigger] v.entries[i]).index
        == v.snapshot_last_index + 1 + i by {}
    if v.entries.len() > 0 {
        assert(v.entries.last() == v.entries[v.entries.len() - 1]);
    }
    lemma_entries_from(
        v.entries,
        v.snapshot_last_index + 1,
        bumped(last_index(v)),
        v.config.max_append_entries as nat,
    );
}

/// Taking entries that go on from the end of a log adds them all.
proof fn lemma_taken_at_the_end(v: ConsensusView, entries: Seq<EntryView>, n: nat)
    requires
        log_ordered(v),
        v.snapshot_last_index + v.entries.len() + entries.len() < u64::MAX,
        n <= entries.len(),
        forall|k: int|
            0 <= k < entries.len() ==> (#[trigger] entries[k]).index == v.snapshot_last_index
                + v.entries.len() + 1 + k && entries[k].term > 0,
    ensures
        ({
            let prev = (v.snapshot_last_index + v.entries.len()) as u64;
            entries_taken(v, prev, entries, n) == (
                ConsensusView { entries: v.entries + entries.take(n as int), ..v },
                None::<Result<AppendResponseView, Seq<char>>>,
            )
        }),
    decreases n,
{
    let prev = (v.snapshot_last_index + v.entries.len()) as u64;
    if n == 0 {
        assert(v.entries + entries.take(0) =~= v.entries);
    } else {
        lemma_taken_at_the_end(v, entries, (n - 1) as nat);
        let w = entries_taken(v, prev, entries, (n - 1) as nat).0;
        let entry = entries[n - 1];
        if w.entries.len() > 0 {
            assert(w.entries.last() == w.entries[w.entries.len() - 1]);
            if n == 1 {
                assert(w.entries.last() == v.entries[v.entries.len() - 1]);
            } else {
                assert(w.entries.last() == entries[n - 2]);
            }
        }
        assert(w.entries.push(entry) =~= v.entries + entries.take(n as int));
    }
}

/// A follower whose log ends where a message begins, and which accepts its sender as leader, takes
/// every entry of the message and answers that it holds them.
pub proof fn law_follower_takes_what_follows(
    f: ConsensusView,
    request: AppendRequestView,
    now_ms: u64,
)
    requires
        log_sound(f),
        f.snapshot_last_index + f.entries.len() + request.entries.len() < u64::MAX,
        trimmed(request.leader_node_id).len() > 0,
        exists|i: int|
            0 <= i < f.control.nodes.len() && (#[trigger] f.control.nodes[i]).id == trimmed(
                request.leader_node_id,
            ) && f.control.nodes[i].status != ControlNodeStatus::Removed,
        request.term > f.current_term || request.term == f.current_term
            && (f.control.leader_node_id is None || f.control.leader_node_id == Some(
            trimmed(request.leader_node_id),
        )),
        request.prev_log_index == f.snapshot_last_index + f.entries.len(),
        request.prev_log_term == (if request.prev_log_index == 0 {
            0
        } else if f.entries.len() == 0 {
            f.snapshot_last_term
        } else {
            f.entries.last().term
        }),
        forall|k: int|
            0 <= k < request.entries.len() ==> (#[trigger] request.entries[k]).index
                == request.prev_log_index + 1 + k && request.entries[k].term > 0,
    ensures
        append_step(f, request, now_ms).0.entries == f.entries + request.entries,
        append_step(f, request, now_ms).0.current_term == request.term,
        append_step(f, request, now_ms).0.last_leader_contact_unix_ms == now_ms,
        append_step(f, request, now_ms).1 matches Ok(response) ==> response.success
            && response.match_index == request.prev_log_index + request.entries.len()
            && response.term == request.term,
        request.leader_commit <= f.commit_index ==> append_step(f, request, now_ms).1 is Ok,
{
    let leader = trimmed(request.leader_node_id);
    let w = contacted(f, leader, request.term, now_ms);
    let n = request.entries.len();
    assert(log_ordered(w));
    lemma_taken_at_the_end(w, request.entries, n);
    assert(request.entries.take(n as int) =~= request.entries);
    let u = ConsensusView { entries: w.entries + request.entries, ..w };
    assert(u == entries_taken(w, request.prev_log_index, request.entries, n).0);
    if f.entries.len() > 0 {
        assert(f.entries.last() == f.entries[f.entries.len() - 1]);
    }
    lemma_entries_taken(w, request.prev_log_index, request.entries, n);
    if u.entries.len() > 0 {
        assert(u.entries.last() == u.entries[u.entries.len() - 1]);
    }
    assert(last_index(u) == request.prev_log_index + n);
    if request.leader_commit > u.commit_index {
        lemma_committed_sound(raised_to(u, request.leader_commit), now_ms);
        lemma_applying_keeps(raised_to(u, request.leader_commit), now_ms);
    }
}

/// Applying changes nothing of a node but its control state, what it knows of its peers, and what has
/// to be saved.
proof fn lemma_applying_keeps(v: ConsensusView, now_ms: u64)
    ensures
        ({
            let w = committed_applied(v, now_ms).0;
            &&& w.entries == v.entries
            &&& w.current_term == v.current_term
            &&& w.last_leader_contact_unix_ms == v.last_leader_contact_unix_ms
            &&& w.commit_index == v.commit_index
            &&& w.snapshot_last_index == v.snapshot_last_index
            &&& w.local_node_id == v.local_node_id
        }),
{
    let pending = v.commit_index - v.control.applied_log_index;
    if pending > 0 {
        lemma_replay_keeps(v, now_ms, pending as nat);
    }
}

proof fn lemma_replay_keeps(v: ConsensusView, now_ms: u64, n: nat)
    ensures
        replayed(v, now_ms, n).0 == (ConsensusView {
            control: replayed(v, now_ms, n).0.control,
            ..v
        }),
    decreases n,
{
    if n > 0 && v.control.applied_log_index < v.commit_index {
        let next = bumped(v.control.applied_log_index);
        if next > v.snapshot_last_index {
            match offset_of(v, next) {
                None => {},
                Some(i) => {
                    let control = entry_applied(v.control, v.entries[i], now_ms).0;
                    lemma_replay_keeps(
                        ConsensusView { control, ..v },
                        now_ms,
                        (n - 1) as nat,
                    );
                },
            }
        }
    }
}

/// A leader and a follower whose log ends in front of the next entry that the leader has noted for it:
/// the follower takes what the leader plans to send, and once the leader hears of it, the next entry
/// noted is the one after all that was sent.
pub proof fn law_round_brings_a_follower_forward(
    v: ConsensusView,
    f: ConsensusView,
    attempt: usize,
    now_ms: u64,
)
    requires
        log_sound(v),
        log_sound(f),
        v.snapshot_last_index + v.entries.len() < u64::MAX,
        v.peer_next_index.dom().contains(f.local_node_id),
        v.snapshot_last_index < v.peer_next_index[f.local_node_id] <= v.snapshot_last_index
            + v.entries.len() + 1,
        f.snapshot_last_index + f.entries.len() + 1 == v.peer_next_index[f.local_node_id],
        ({
            let at = v.peer_next_index[f.local_node_id] - v.snapshot_last_index - 1;
            v.peer_next_index[f.local_node_id] > 1 ==> (if f.entries.len() == 0 {
                f.snapshot_last_term
            } else {
                f.entries.last().term
            }) == (if at == 0 {
                v.snapshot_last_term
            } else {
                v.entries[at - 1].term
            })
        }),
        trimmed(v.local_node_id) == v.local_node_id,
        v.local_node_id.len() > 0,
        exists|i: int|
            0 <= i < f.control.nodes.len() && (#[trigger] f.control.nodes[i]).id == v.local_node_id
                && f.control.nodes[i].status != ControlNodeStatus::Removed,
        v.current_term > f.current_term || v.current_term == f.current_term
            && f.control.leader_node_id == Some(v.local_node_id),
        v.commit_index <= f.commit_index,
    ensures
        ({
            let at = v.peer_next_index[f.local_node_id] - v.snapshot_last_index - 1;
            let lacking = v.entries.len() - at;
            let sent = if lacking < v.config.max_append_entries {
                lacking
            } else {
                v.config.max_append_entries as int
            };
            peer_plan(v, f.local_node_id) matches Ok(PlanView::Append(request)) && {
                let after = append_step(f, request, now_ms);
                &&& after.0.entries == f.entries + v.entries.subrange(at, at + sent)
                &&& after.1 matches Ok(response) && {
                    let told = append_answered(
                        v,
                        f.local_node_id,
                        request.term,
                        Ok(response),
                        attempt,
                        now_ms,
                    );
                    &&& told.1 == Ok::<SyncNext, Seq<char>>(SyncNext::Done)
                    &&& told.0.peer_next_index == v.peer_next_index.insert(
                        f.local_node_id,
                        (v.peer_next_index[f.local_node_id] + sent) as u64,
                    )
                }
            }
        }),
{
    let peer = f.local_node_id;
    law_peer_is_sent_what_it_lacks(v, peer);
    let request = match peer_plan(v, peer) {
        Ok(PlanView::Append(request)) => request,
        _ => arbitrary(),
    };
    let at = v.peer_next_index[peer] - v.snapshot_last_index - 1;
    let sent = request.entries.len();
    assert(request.entries =~= v.entries.subrange(at, at + sent));
    assert forall|k: int| 0 <= k < request.entries.len() implies (
    #[trigger] request.entries[k]).index == request.prev_log_index + 1 + k
        && request.entries[k].term > 0 by {
        assert(request.entries[k] == v.entries[at + k]);
    }
    law_follower_takes_what_follows(f, request, now_ms);
}

/// A peer that says what it holds is sent what follows next; one that refuses is sent an earlier entry
/// next, and none beyond what it says it holds, until the first entry is reached; one that answers
/// with a later term, or does not answer, is sent what it was to be sent. Nothing changes for other
/// peers.
pub proof fn law_answers_move_one_peer(
    v: ConsensusView,
    peer: Seq<char>,
    sent_term: u64,
    response: AppendResponseView,
    attempt: usize,
    now_ms: u64,
)
    ensures
        ({
            let (w, next) = append_answered(v, peer, sent_term, Ok(response), attempt, now_ms);
            &&& forall|other: Seq<char>|
                other != peer ==> (#[trigger] w.peer_next_index.dom().contains(other)
                    <==> v.peer_next_index.dom().contains(other)) && (
                v.peer_next_index.dom().contains(other) ==> w.peer_next_index[other]
                    == v.peer_next_index[other])
            &&& response.term > sent_term ==> w.peer_next_index == v.peer_next_index && next == Ok::<
                SyncNext,
                Seq<char>,
            >(SyncNext::Done) && w.current_term == (if response.term > v.current_term {
                response.term
            } else {
                v.current_term
            })
            &&& response.term <= sent_term ==> w.current_term == v.current_term
            &&& response.term <= sent_term && response.success && response.match_index < u64::MAX
                ==> next == Ok::<SyncNext, Seq<char>>(SyncNext::Done)
                && w.peer_next_index.dom().contains(peer) && w.peer_next_index[peer]
                == response.match_index + 1
            &&& response.term <= sent_term && !response.success && response.match_index < u64::MAX
                && v.peer_next_index.dom().contains(peer) ==> {
                &&& next == Ok::<SyncNext, Seq<char>>(SyncNext::Again)
                &&& w.peer_next_index.dom().contains(peer)
                &&& w.peer_next_index[peer] >= 1
                &&& w.peer_next_index[peer] <= response.match_index + 1
                &&& response.message == Some("snapshot_required"@) ==> w.peer_next_index[peer]
                    == response.match_index + 1
                &&& response.message != Some("snapshot_required"@) ==> {
                    &&& w.peer_next_index[peer] < v.peer_next_index[peer]
                        || w.peer_next_index[peer] == 1
                    &&& w.peer_next_index[peer] == response.match_index + 1
                        || w.peer_next_index[peer] + 1 == v.peer_next_index[peer]
                        || w.peer_next_index[peer] == 1
                }
            }
        }),
{
}

/// A peer that took over a snapshot is sent what follows it next, and at once.
pub proof fn law_snapshot_answers_move_one_peer(
    v: ConsensusView,
    peer: Seq<char>,
    sent_term: u64,
    response: InstallResponseView,
    attempt: usize,
    now_ms: u64,
)
    ensures
        ({
            let (w, next) = install_answered(v, peer, sent_term, Ok(response), attempt, now_ms);
            &&& response.term <= sent_term && response.success && response.last_index < u64::MAX
                ==> next == Ok::<SyncNext, Seq<char>>(SyncNext::Again) && w.peer_next_index
                == v.peer_next_index.insert(peer, (response.last_index + 1) as u64)
            &&& response.term > sent_term || !response.success ==> next == Ok::<
                SyncNext,
                Seq<char>,
            >(SyncNext::Done) && w.peer_next_index == v.peer_next_index
            &&& w.current_term == (if response.term > sent_term && response.term
                > v.current_term {
                response.term
            } else {
                v.current_term
            })
        }),
{
}

/// A peer is called again after a failure as long as calls are left, and what is to be sent to it
/// stays as it was. Its failures are counted from its last answer on.
pub proof fn law_failures_are_counted(
    v: ConsensusView,
    peer: Seq<char>,
    sent_term: u64,
    detail: Seq<char>,
    response: AppendResponseView,
    attempt: usize,
    now_ms: u64,
)
    ensures
        ({
            let failed = append_answered(v, peer, sent_term, Err(detail), attempt, now_ms);
            let answered = append_answered(v, peer, sent_term, Ok(response), attempt, now_ms);
            let before = if v.peer_heartbeat.dom().contains(peer) {
                v.peer_heartbeat[peer]
            } else {
                PeerHeartbeatState {
                    last_success_unix_ms: None,
                    last_failure_unix_ms: None,
                    consecutive_failures: 0,
                }
            };
            &&& failed.0 == (ConsensusView { peer_heartbeat: failed.0.peer_heartbeat, ..v })
            &&& failed.0.peer_heartbeat == v.peer_heartbeat.insert(
                peer,
                failed.0.peer_heartbeat[peer],
            )
            &&& failed.0.peer_heartbeat[peer].last_failure_unix_ms == Some(now_ms)
            &&& failed.0.peer_heartbeat[peer].last_success_unix_ms == before.last_success_unix_ms
            &&& before.consecutive_failures < u64::MAX
                ==> failed.0.peer_heartbeat[peer].consecutive_failures
                == before.consecutive_failures + 1
            &&& attempt + 1 < crate::consensus::CONTROL_SYNC_MAX_ATTEMPTS ==> failed.1 == Ok::<
                SyncNext,
                Seq<char>,
            >(SyncNext::Again)
            &&& attempt + 1 >= crate::consensus::CONTROL_SYNC_MAX_ATTEMPTS ==> failed.1 is Err
            &&& answered.0.peer_heartbeat == v.peer_heartbeat.insert(
                peer,
                answered.0.peer_heartbeat[peer],
            )
            &&& answered.0.peer_heartbeat[peer].last_success_unix_ms == Some(now_ms)
            &&& answered.0.peer_heartbeat[peer].last_failure_unix_ms
                == before.last_failure_unix_ms
            &&& answered.0.peer_heartbeat[peer].consecutive_failures == 0
        }),
{
}

proof fn lemma_peers_among(local: Seq<char>, nodes: Seq<NodeView>)
    ensures
        peers_among(local, nodes) == nodes.filter(
            |node: NodeView| node.id != local && node.status != ControlNodeStatus::Removed,
        ).map_values(
            |node: NodeView| ClusterNodeView { id: node.id, endpoint: node.endpoint },
        ),
    decreases nodes.len(),
{
    reveal(Seq::filter);
    let wanted = |node: NodeView| node.id != local && node.status != ControlNodeStatus::Removed;
    let shown = |node: NodeView| ClusterNodeView { id: node.id, endpoint: node.endpoint };
    if nodes.len() > 0 {
        lemma_peers_among(local, nodes.drop_last());
    }
    assert(peers_among(local, nodes) =~= nodes.filter(wanted).map_values(shown));
}

/// The peers of a node are the other nodes of the cluster that were not removed, each with its
/// address, in the order of the cluster.
pub proof fn law_peers_are_the_other_members(v: ConsensusView)
    ensures
        peers_of(v) == v.control.nodes.filter(
            |node: NodeView|
                node.id != v.local_node_id && node.status != ControlNodeStatus::Removed,
        ).map_values(
            |node: NodeView| ClusterNodeView { id: node.id, endpoint: node.endpoint },
        ),
{
    lemma_peers_among(v.local_node_id, v.control.nodes);
}

proof fn lemma_voters_among(nodes: Seq<NodeView>)
    ensures
        voters_among(nodes) == nodes.filter(
            |node: NodeView| node.status == ControlNodeStatus::Active,
        ).map_values(|node: NodeView| node.id),
    decreases nodes.len(),
{
    reveal(Seq::filter);
    let wanted = |node: NodeView| node.status == ControlNodeStatus::Active;
    let shown = |node: NodeView| node.id;
    if nodes.len() > 0 {
        lemma_voters_among(nodes.drop_last());
    }
    assert(voters_among(nodes) =~= nodes.filter(wanted).map_values(shown));
}

/// The active nodes vote, in the order of the cluster, and more than half of them are a quorum, with
/// none to spare.
pub proof fn law_most_active_nodes_are_a_quorum(v: ConsensusView)
    ensures
        voters_of(v) == v.control.nodes.filter(
            |node: NodeView| node.status == ControlNodeStatus::Active,
        ).map_values(|node: NodeView| node.id),
        ({
            let active = v.control.nodes.filter(
                |node: NodeView| node.status == ControlNodeStatus::Active,
            ).len();
            2 * quorum_of(v) > active && 2 * (quorum_of(v) - 1) <= active
        }),
{
    lemma_voters_among(v.control.nodes);
}

/// What waits is found where it stands last.
proof fn lemma_uncommitted(entries: Seq<EntryView>, commit_index: u64, command: CommandView)
    ensures
        match uncommitted_entry(entries, commit_index, command) {
            Some(entry) => exists|i: int|
                0 <= i < entries.len() && #[trigger] entries[i] == entry && entry.index
                    > commit_index && entry.command == command && forall|k: int|
                    i < k < entries.len() ==> (#[trigger] entries[k]).index <= commit_index
                        || entries[k].command != command,
            None => forall|k: int|
                0 <= k < entries.len() ==> (#[trigger] entries[k]).index <= commit_index
                    || entries[k].command != command,
        },
    decreases entries.len(),
{
    if entries.len() > 0 {
        let front = entries.drop_last();
        assert(entries.last() == entries[entries.len() - 1]);
        lemma_uncommitted(front, commit_index, command);
        assert forall|k: int| 0 <= k < front.len() implies #[trigger] entries[k] == front[k] by {}
        if !(entries.last().index > commit_index && entries.last().command == command) {
            match uncommitted_entry(front, commit_index, command) {
                Some(entry) => {
                    let i = choose|i: int|
                        0 <= i < front.len() && #[trigger] front[i] == entry && entry.index
                            > commit_index && entry.command == command && forall|k: int|
                            i < k < front.len() ==> (#[trigger] front[k]).index <= commit_index
                                || front[k].command != command;
                    assert(entries[i] == entry);
                },
                None => {},
            }
        }
    }
}

/// A command that a leader proposes, and that does not wait already, becomes the next entry of its
/// log, in a term of its own; the entry is what every other member is asked to take, after the last
/// one. What was in the log stays.
pub proof fn law_proposal_is_the_next_entry(v: ConsensusView, command: CommandView, now_ms: u64)
    requires
        log_sound(v),
        v.snapshot_last_index + v.entries.len() < u64::MAX,
        v.current_term < u64::MAX,
        v.control.leader_node_id == Some(v.local_node_id),
        command matches CommandView::SetLeader { leader_node_id } ==> leader_node_id
            == v.local_node_id,
        forall|k: int|
            0 <= k < v.entries.len() ==> (#[trigger] v.entries[k]).index <= v.commit_index
                || v.entries[k].command != command,
    ensures
        ({
            let last = v.snapshot_last_index + v.entries.len();
            let entry = EntryView {
                index: (last + 1) as u64,
                term: (v.current_term + 1) as u64,
                command,
                created_unix_ms: now_ms,
            };
            let (w, begun) = proposal_begun(v, command, now_ms);
            &&& w.entries == v.entries.push(entry)
            &&& w.current_term == v.current_term + 1
            &&& w.commit_index == v.commit_index
            &&& w.control == v.control
            &&& begun matches Ok(proposal) && {
                &&& proposal.index == last + 1
                &&& proposal.term == v.current_term + 1
                &&& proposal.request.entries == seq![entry]
                &&& proposal.request.term == v.current_term + 1
                &&& proposal.request.prev_log_index == last
                &&& proposal.request.prev_log_term == (if last == 0 {
                    0
                } else if v.entries.len() == 0 {
                    v.snapshot_last_term
                } else {
                    v.entries.last().term
                })
                &&& proposal.request.leader_node_id == v.local_node_id
                &&& proposal.request.leader_commit == v.commit_index
                &&& proposal.peers == peers_of(v)
                &&& proposal.quorum == quorum_of(v)
            }
        }),
{
    lemma_uncommitted(v.entries, v.commit_index, command);
    if v.entries.len() > 0 {
        assert(v.entries.last() == v.entries[v.entries.len() - 1]);
    }
}

/// A command that waits already is proposed again as the entry that waits, after the entry in front
/// of it, and the log stays as it is.
pub proof fn law_waiting_command_is_sent_again(
    v: ConsensusView,
    command: CommandView,
    now_ms: u64,
    i: int,
)
    requires
        log_sound(v),
        v.snapshot_last_index + v.entries.len() < u64::MAX,
        v.control.leader_node_id == Some(v.local_node_id),
        command matches CommandView::SetLeader { leader_node_id } ==> leader_node_id
            == v.local_node_id,
        0 <= i < v.entries.len(),
        v.entries[i].index > v.commit_index,
        v.entries[i].command == command,
        forall|k: int|
            i < k < v.entries.len() ==> (#[trigger] v.entries[k]).command != command,
    ensures
        ({
            let (w, begun) = proposal_begun(v, command, now_ms);
            &&& w.entries == v.entries
            &&& w.current_term == v.current_term
            &&& begun matches Ok(proposal) && {
                &&& proposal.index == v.entries[i].index
                &&& proposal.term == v.entries[i].term
                &&& proposal.request.entries == seq![v.entries[i]]
                &&& proposal.request.prev_log_index == v.snapshot_last_index + i
                &&& proposal.request.prev_log_term == (if v.snapshot_last_index + i == 0 {
                    0
                } else if i == 0 {
                    v.snapshot_last_term
                } else {
                    v.entries[i - 1].term
                })
                &&& proposal.peers == peers_of(v)
                &&& proposal.quorum == quorum_of(v)
            }
        }),
{
    lemma_uncommitted(v.entries, v.commit_index, command);
    let entry = uncommitted_entry(v.entries, v.commit_index, command)->0;
    let at = choose|at: int|
        0 <= at < v.entries.len() && #[trigger] v.entries[at] == entry && entry.index
            > v.commit_index && entry.command == command && forall|k: int|
            at < k < v.entries.len() ==> (#[trigger] v.entries[k]).index <= v.commit_index
                || v.entries[k].command != command;
    assert(v.entries[at].command == command);
    assert(v.entries[i].command == command);
    assert(at == i);
}

/// Whether a peer answered that it took what was proposed.
pub open spec fn reply_took(reply: ReplyView) -> bool {
    reply.response is Some && reply.response->0.success
}

/// Whether a peer answered with a term that is later than another.
pub open spec fn reply_is_later(reply: ReplyView, term: u64) -> bool {
    reply.response is Some && reply.response->0.term > term
}

/// The replies in which a peer took what was proposed.
pub open spec fn taken_replies(replies: Seq<ReplyView>) -> Seq<ReplyView> {
    replies.filter(|reply: ReplyView| reply_took(reply))
}

proof fn lemma_accepting(replies: Seq<ReplyView>, term: u64)
    ensures
        accepting(replies) == taken_replies(replies).map_values(|reply: ReplyView| reply.node_id),
        highest_term(replies) > term <==> exists|i: int|
            0 <= i < replies.len() && #[trigger] reply_is_later(replies[i], term),
    decreases replies.len(),
{
    reveal(Seq::filter);
    if replies.len() > 0 {
        let front = replies.drop_last();
        lemma_accepting(front, term);
        assert forall|i: int| 0 <= i < front.len() implies #[trigger] replies[i] == front[i] by {}
        assert(replies.last() == replies[replies.len() - 1]);
        assert(highest_term(replies) > term <==> exists|i: int|
            0 <= i < replies.len() && #[trigger] reply_is_later(replies[i], term)) by {
            if highest_term(front) > term {
                let i = choose|i: int|
                    0 <= i < front.len() && #[trigger] reply_is_later(front[i], term);
                assert(reply_is_later(replies[i], term));
            }
            if reply_is_later(replies.last(), term) {
                assert(reply_is_later(replies[replies.len() - 1], term));
            }
            if exists|i: int|
                0 <= i < replies.len() && #[trigger] reply_is_later(replies[i], term) {
                let i = choose|i: int|
                    0 <= i < replies.len() && #[trigger] reply_is_later(replies[i], term);
                if i < front.len() {
                    assert(reply_is_later(front[i], term));
                }
            }
        }
    }
    assert(accepting(replies) =~= taken_replies(replies).map_values(
        |reply: ReplyView| reply.node_id,
    ));
}

/// A proposal is committed where this node and the peers that took it make a quorum and no peer
/// answered with a later term, and not otherwise: until then it is pending, with the number of nodes
/// that hold it, and the node holds no more committed than before.
pub proof fn law_quorum_decides(
    v: ConsensusView,
    proposal: ControlProposal,
    replies: Seq<ReplyView>,
    now_ms: u64,
)
    requires
        replies.len() < usize::MAX,
    ensures
        ({
            let held = taken_replies(replies).len() + 1;
            let later = exists|i: int|
                0 <= i < replies.len() && #[trigger] reply_is_later(replies[i], proposal.term);
            let (w, ended) = proposal_ended(v, proposal, replies, now_ms);
            &&& later || held < proposal.quorum ==> {
                &&& ended matches Ok(end) && end.outcome == (ProposeOutcome::Pending {
                    required: proposal.quorum,
                    acknowledged: held as usize,
                }) && end.notice is None && end.peers.len() == 0
                &&& w.commit_index == v.commit_index
                &&& w.control == v.control
                &&& w.entries == v.entries
                &&& w.peer_next_index == v.peer_next_index
                &&& !later ==> w.current_term == v.current_term
                &&& later ==> w.current_term > proposal.term
            }
            &&& !later && held >= proposal.quorum ==> {
                &&& w.commit_index == (if v.commit_index < proposal.index {
                    proposal.index
                } else {
                    v.commit_index
                })
                &&& w.entries == v.entries
                &&& w.current_term == v.current_term
                &&& ended matches Ok(end) ==> {
                    &&& end.outcome == (ProposeOutcome::Committed {
                        index: proposal.index,
                        term: proposal.term,
                    })
                    &&& end.notice matches Some(notice) && notice.prev_log_index
                        == proposal.index && notice.prev_log_term == proposal.term && notice.term
                        == proposal.term && notice.entries.len() == 0 && notice.leader_commit
                        == w.commit_index && notice.leader_node_id == v.local_node_id
                    &&& end.peers == peers_of(w)
                }
            }
        }),
{
    reveal(Seq::filter);
    lemma_accepting(replies, proposal.term);
    replies.lemma_filter_len(|reply: ReplyView| reply_took(reply));
    lemma_applying_keeps(quorum_reached(v, proposal, replies), now_ms);
}

/// After a commit, every member that took the proposal is sent what follows it next; what is sent to
/// the others stays as it was.
pub proof fn law_members_that_took_it_move_on(
    v: ConsensusView,
    proposal: ControlProposal,
    replies: Seq<ReplyView>,
    now_ms: u64,
    peer: Seq<char>,
)
    requires
        replies.len() < usize::MAX,
        0 < proposal.index < u64::MAX,
        proposal_ended(v, proposal, replies, now_ms).1 matches Ok(end) && end.outcome is Committed,
    ensures
        ({
            let w = proposal_ended(v, proposal, replies, now_ms).0;
            let took = exists|i: int|
                0 <= i < replies.len() && (#[trigger] replies[i]).node_id == peer && reply_took(replies[i]);
            let member = exists|i: int|
                0 <= i < w.control.nodes.len() && (#[trigger] w.control.nodes[i]).id == peer && peer
                    != v.local_node_id && w.control.nodes[i].status != ControlNodeStatus::Removed;
            &&& w.peer_next_index.dom().contains(peer) <==> member
            &&& member && took ==> w.peer_next_index[peer] == proposal.index + 1
            &&& member && !took && v.peer_next_index.dom().contains(peer)
                && v.peer_next_index[peer] > 0 ==> w.peer_next_index[peer]
                == v.peer_next_index[peer]
        }),
{
    let agreed = quorum_reached(v, proposal, replies);
    lemma_accepting(replies, proposal.term);
    lemma_applying_keeps(agreed, now_ms);
    lemma_next_after(v.peer_next_index, accepting(replies), bumped(proposal.index), peer);
    let pending = agreed.commit_index - agreed.control.applied_log_index;
    if pending > 0 {
        lemma_replay_keeps(agreed, now_ms, pending as nat);
    }
    let w = proposal_ended(v, proposal, replies, now_ms).0;
    lemma_is_peer(w, peer);
    lemma_took(replies, peer);
}

proof fn lemma_took(replies: Seq<ReplyView>, peer: Seq<char>)
    ensures
        accepting(replies).contains(peer) <==> exists|i: int|
            0 <= i < replies.len() && (#[trigger] replies[i]).node_id == peer && reply_took(replies[i]),
    decreases replies.len(),
{
    if replies.len() > 0 {
        let front = replies.drop_last();
        lemma_took(front, peer);
        assert(replies.last() == replies[replies.len() - 1]);
        assert forall|i: int| 0 <= i < front.len() implies #[trigger] replies[i] == front[i] by {}
        let before = accepting(front);
        if before.contains(peer) {
            let k = choose|k: int| 0 <= k < before.len() && before[k] == peer;
            assert(accepting(replies)[k] == peer);
            let i = choose|i: int|
                0 <= i < front.len() && (#[trigger] front[i]).node_id == peer && reply_took(front[i]);
            assert(replies[i] == front[i]);
        }
        if replies.last().node_id == peer && reply_took(replies.last()) {
            assert(accepting(replies).last() == peer);
            assert(accepting(replies)[accepting(replies).len() - 1] == peer);
        }
        if accepting(replies).contains(peer) && !before.contains(peer) {
            let k = choose|k: int| 0 <= k < accepting(replies).len() && accepting(replies)[k] == peer;
            if k < before.len() {
                assert(before[k] == peer);
            }
        }
        if exists|i: int|
            0 <= i < replies.len() && (#[trigger] replies[i]).node_id == peer && reply_took(replies[i]) {
            let i = choose|i: int|
                0 <= i < replies.len() && (#[trigger] replies[i]).node_id == peer && reply_took(replies[i]);
            if i < front.len() {
                assert(front[i].node_id == peer);
            }
        }
    }
}

proof fn lemma_next_after(
    known: Map<Seq<char>, u64>,
    peers: Seq<Seq<char>>,
    next: u64,
    peer: Seq<char>,
)
    ensures
        peers.contains(peer) ==> next_after(known, peers, next).dom().contains(peer)
            && next_after(known, peers, next)[peer] == next,
        !peers.contains(peer) ==> (next_after(known, peers, next).dom().contains(peer)
            <==> known.dom().contains(peer)) && next_after(known, peers, next)[peer]
            == known[peer],
    decreases peers.len(),
{
    if peers.len() > 0 {
        let front = peers.drop_last();
        lemma_next_after(known, front, next, peer);
        assert(peers.last() == peers[peers.len() - 1]);
        if front.contains(peer) {
            let k = choose|k: int| 0 <= k < front.len() && front[k] == peer;
            assert(peers[k] == peer);
        }
        if peers.contains(peer) && peers.last() != peer {
            let k = choose|k: int| 0 <= k < peers.len() && peers[k] == peer;
            assert(front[k] == peer);
        }
    }
}

proof fn lemma_is_peer(v: ConsensusView, id: Seq<char>)
    ensures
        is_peer(peers_of(v), id) <==> exists|i: int|
            0 <= i < v.control.nodes.len() && (#[trigger] v.control.nodes[i]).id == id && id
                != v.local_node_id && v.control.nodes[i].status != ControlNodeStatus::Removed,
{
    lemma_peer_among(v.local_node_id, v.control.nodes, id);
}

proof fn lemma_peer_among(local: Seq<char>, nodes: Seq<NodeView>, id: Seq<char>)
    ensures
        is_peer(peers_among(local, nodes), id) <==> exists|i: int|
            0 <= i < nodes.len() && (#[trigger] nodes[i]).id == id && id != local
                && nodes[i].status != ControlNodeStatus::Removed,
    decreases nodes.len(),
{
    if nodes.len() > 0 {
        let front = nodes.drop_last();
        let before = peers_among(local, front);
        let all = peers_among(local, nodes);
        lemma_peer_among(local, front, id);
        assert(nodes.last() == nodes[nodes.len() - 1]);
        if is_peer(before, id) {
            let k = choose|k: int| 0 <= k < before.len() && (#[trigger] before[k]).id == id;
            assert(all[k].id == id);
            let i = choose|i: int|
                0 <= i < front.len() && (#[trigger] front[i]).id == id && id != local
                    && front[i].status != ControlNodeStatus::Removed;
            assert(nodes[i].id == id);
        }
        if is_peer(all, id) && !is_peer(before, id) {
            let k = choose|k: int| 0 <= k < all.len() && (#[trigger] all[k]).id == id;
            if k < before.len() {
                assert(before[k].id == id);
            }
        }
        if nodes.last().id == id && id != local && nodes.last().status
            != ControlNodeStatus::Removed {
            assert(all[all.len() - 1].id == id);
        }
        if exists|i: int|
            0 <= i < nodes.len() && (#[trigger] nodes[i]).id == id && id != local
                && nodes[i].status != ControlNodeStatus::Removed {
            let i = choose|i: int|
                0 <= i < nodes.len() && (#[trigger] nodes[i]).id == id && id != local
                    && nodes[i].status != ControlNodeStatus::Removed;
            if i < front.len() {
                assert(front[i].id == id);
            }
        }
    }
}

} // verus!
