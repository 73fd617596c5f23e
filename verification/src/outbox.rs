//! The outbox: writes that wait for peers that could not be reached, and the log that keeps them.
//! Each change is first written to the log and then taken over.

use vstd::prelude::*;
use crate::clock::unix_timestamp_millis;
use crate::consensus::since;
use crate::control::{bumped, saturated};
use crate::lists::{copy_list, group_views, texts_ascending, views, Copied};
use crate::outbox_config::{outbox_config_error, OutboxConfig};
use crate::parsing::{normal_list, normalize_list};
use crate::rpc_types::{InternalIngestRowsRequest, InternalRow, Row, RowView};
use crate::text::{
    cat2, cat3, cat4, cat5, clone_texts, decimal, number, opt_text, owned, same, trim, trimmed,
};
use crate::text_map::TextMap;

verus! {

broadcast use group_views;

/// What the outbox has counted and what it holds.
#[derive(Debug, Clone, Copy, PartialEq, Eq, Structural)]
pub struct OutboxMetricsSnapshot {
    pub enqueued_total: u64,
    pub enqueue_rejected_total: u64,
    pub persistence_failures_total: u64,
    pub replay_attempts_total: u64,
    pub replay_success_total: u64,
    pub replay_failures_total: u64,
    pub queued_entries: u64,
    pub queued_bytes: u64,
    pub log_bytes: u64,
    pub stale_records: u64,
    pub cleanup_runs_total: u64,
    pub cleanup_compactions_total: u64,
    pub cleanup_reclaimed_bytes_total: u64,
    pub cleanup_failures_total: u64,
    pub stalled_alerts_total: u64,
    pub stalled_peers: u64,
    pub stalled_oldest_age_ms: u64,
}

/// Nothing counted and nothing held.
pub open spec fn no_metrics() -> OutboxMetricsSnapshot {
    OutboxMetricsSnapshot {
        enqueued_total: 0,
        enqueue_rejected_total: 0,
        persistence_failures_total: 0,
        replay_attempts_total: 0,
        replay_success_total: 0,
        replay_failures_total: 0,
        queued_entries: 0,
        queued_bytes: 0,
        log_bytes: 0,
        stale_records: 0,
        cleanup_runs_total: 0,
        cleanup_compactions_total: 0,
        cleanup_reclaimed_bytes_total: 0,
        cleanup_failures_total: 0,
        stalled_alerts_total: 0,
        stalled_peers: 0,
        stalled_oldest_age_ms: 0,
    }
}

impl Default for OutboxMetricsSnapshot {
    /// Nothing counted and nothing held.
    fn default() -> (res: Self)
        ensures
            res == no_metrics(),
    {
        OutboxMetricsSnapshot {
            enqueued_total: 0,
            enqueue_rejected_total: 0,
            persistence_failures_total: 0,
            replay_attempts_total: 0,
            replay_success_total: 0,
            replay_failures_total: 0,
            queued_entries: 0,
            queued_bytes: 0,
            log_bytes: 0,
            stale_records: 0,
            cleanup_runs_total: 0,
            cleanup_compactions_total: 0,
            cleanup_reclaimed_bytes_total: 0,
            cleanup_failures_total: 0,
            stalled_alerts_total: 0,
            stalled_peers: 0,
            stalled_oldest_age_ms: 0,
        }
    }
}

/// A counter after some more events; it goes on from zero after the largest number.
pub open spec fn counted(n: u64, events: u64) -> u64 {
    vstd::wrapping::u64_specs::wrapping_add(n, events)
}

/// What waits for a peer.
#[derive(Debug, PartialEq, Eq)]
pub struct OutboxPeerBacklogSnapshot {
    pub node_id: String,
    pub queued_entries: u64,
    pub queued_bytes: u64,
    pub oldest_enqueued_unix_ms: Option<u64>,
}

/// What an [`OutboxPeerBacklogSnapshot`] holds.
pub struct PeerBacklogView {
    pub node_id: Seq<char>,
    pub queued_entries: u64,
    pub queued_bytes: u64,
    pub oldest_enqueued_unix_ms: Option<u64>,
}

impl View for OutboxPeerBacklogSnapshot {
    type V = PeerBacklogView;

    open spec fn view(&self) -> PeerBacklogView {
        PeerBacklogView {
            node_id: self.node_id@,
            queued_entries: self.queued_entries,
            queued_bytes: self.queued_bytes,
            oldest_enqueued_unix_ms: self.oldest_enqueued_unix_ms,
        }
    }
}

/// All that waits.
#[derive(Debug, Clone, Copy, PartialEq, Eq, Structural)]
pub struct OutboxBacklogSnapshot {
    pub queued_entries: u64,
    pub queued_bytes: u64,
    pub log_bytes: u64,
}

/// A peer that writes have waited for too long.
#[derive(Debug, PartialEq, Eq)]
pub struct OutboxStalledPeerSnapshot {
    pub node_id: String,
    pub queued_entries: u64,
    pub queued_bytes: u64,
    pub oldest_enqueued_unix_ms: u64,
    pub oldest_age_ms: u64,
    pub first_stalled_unix_ms: u64,
}

/// What an [`OutboxStalledPeerSnapshot`] holds.
pub struct StalledView {
    pub node_id: Seq<char>,
    pub queued_entries: u64,
    pub queued_bytes: u64,
    pub oldest_enqueued_unix_ms: u64,
    pub oldest_age_ms: u64,
    pub first_stalled_unix_ms: u64,
}

impl View for OutboxStalledPeerSnapshot {
    type V = StalledView;

    open spec fn view(&self) -> StalledView {
        StalledView {
            node_id: self.node_id@,
            queued_entries: self.queued_entries,
            queued_bytes: self.queued_bytes,
            oldest_enqueued_unix_ms: self.oldest_enqueued_unix_ms,
            oldest_age_ms: self.oldest_age_ms,
            first_stalled_unix_ms: self.first_stalled_unix_ms,
        }
    }
}

/// A write that waits for a peer.
#[derive(Debug, PartialEq, Eq)]
pub struct OutboxEntry {
    pub id: u64,
    pub peer_node_id: String,
    pub endpoint: String,
    pub idempotency_key: String,
    pub ring_version: u64,
    pub required_capabilities: Vec<String>,
    pub rows: Vec<InternalRow>,
    pub queue_bytes: u64,
    pub enqueued_unix_ms: u64,
    pub next_attempt_unix_ms: u64,
    pub attempts: u32,
}

/// What an [`OutboxEntry`] holds.
pub struct OutboxEntryView {
    pub id: u64,
    pub peer_node_id: Seq<char>,
    pub endpoint: Seq<char>,
    pub idempotency_key: Seq<char>,
    pub ring_version: u64,
    pub required_capabilities: Seq<Seq<char>>,
    pub rows: Seq<RowView>,
    pub queue_bytes: u64,
    pub enqueued_unix_ms: u64,
    pub next_attempt_unix_ms: u64,
    pub attempts: u32,
}

impl View for OutboxEntry {
    type V = OutboxEntryView;

    open spec fn view(&self) -> OutboxEntryView {
        OutboxEntryView {
            id: self.id,
            peer_node_id: self.peer_node_id@,
            endpoint: self.endpoint@,
            idempotency_key: self.idempotency_key@,
            ring_version: self.ring_version,
            required_capabilities: views(self.required_capabilities@),
            rows: views(self.rows@),
            queue_bytes: self.queue_bytes,
            enqueued_unix_ms: self.enqueued_unix_ms,
            next_attempt_unix_ms: self.next_attempt_unix_ms,
            attempts: self.attempts,
        }
    }
}

impl Copied for OutboxEntry {
    fn copied(&self) -> (res: Self) {
        OutboxEntry {
            id: self.id,
            peer_node_id: self.peer_node_id.clone(),
            endpoint: self.endpoint.clone(),
            idempotency_key: self.idempotency_key.clone(),
            ring_version: self.ring_version,
            required_capabilities: clone_texts(&self.required_capabilities),
            rows: copy_list(&self.rows),
            queue_bytes: self.queue_bytes,
            enqueued_unix_ms: self.enqueued_unix_ms,
            next_attempt_unix_ms: self.next_attempt_unix_ms,
            attempts: self.attempts,
        }
    }
}

/// A record of the log: a write that waits from now on, or one that no longer does.
#[derive(Debug, PartialEq, Eq)]
pub enum OutboxLogRecord {
    Put { entry: OutboxEntry },
    Ack { id: u64 },
}

/// What an [`OutboxLogRecord`] holds.
pub enum RecordView {
    Put { entry: OutboxEntryView },
    Ack { id: u64 },
}

impl View for OutboxLogRecord {
    type V = RecordView;

    open spec fn view(&self) -> RecordView {
        match *self {
            OutboxLogRecord::Put { entry } => RecordView::Put { entry: entry@ },
            OutboxLogRecord::Ack { id } => RecordView::Ack { id },
        }
    }
}

/// A record as it was read, with the size that its write has when it is encoded.
#[derive(Debug, PartialEq, Eq)]
pub struct LoadedRecord {
    pub record: OutboxLogRecord,
    pub encoded_bytes: u64,
}

/// What a [`LoadedRecord`] holds.
pub struct LoadedView {
    pub record: RecordView,
    pub encoded_bytes: u64,
}

impl View for LoadedRecord {
    type V = LoadedView;

    open spec fn view(&self) -> LoadedView {
        LoadedView { record: self.record@, encoded_bytes: self.encoded_bytes }
    }
}

/// Why a write is not taken into the outbox.
#[allow(inconsistent_fields)]
#[derive(Debug, PartialEq, Eq)]
pub enum OutboxEnqueueError {
    InvalidIdempotencyKey { message: String },
    RecordTooLarge { bytes: u64, max_bytes: u64 },
    TotalEntriesLimit { max_entries: usize },
    TotalBytesLimit { max_bytes: u64, queued_bytes: u64, record_bytes: u64 },
    PeerBytesLimit {
        node_id: String,
        max_peer_bytes: u64,
        peer_queued_bytes: u64,
        record_bytes: u64,
    },
    Persistence { message: String },
}

/// What an [`OutboxEnqueueError`] holds.
#[allow(inconsistent_fields)]
pub enum EnqueueErrorView {
    InvalidIdempotencyKey { message: Seq<char> },
    RecordTooLarge { bytes: u64, max_bytes: u64 },
    TotalEntriesLimit { max_entries: usize },
    TotalBytesLimit { max_bytes: u64, queued_bytes: u64, record_bytes: u64 },
    PeerBytesLimit {
        node_id: Seq<char>,
        max_peer_bytes: u64,
        peer_queued_bytes: u64,
        record_bytes: u64,
    },
    Persistence { message: Seq<char> },
}

impl View for OutboxEnqueueError {
    type V = EnqueueErrorView;

    open spec fn view(&self) -> EnqueueErrorView {
        match *self {
            OutboxEnqueueError::InvalidIdempotencyKey { message } => {
                EnqueueErrorView::InvalidIdempotencyKey { message: message@ }
            },
            OutboxEnqueueError::RecordTooLarge { bytes, max_bytes } => {
                EnqueueErrorView::RecordTooLarge { bytes, max_bytes }
            },
            OutboxEnqueueError::TotalEntriesLimit { max_entries } => {
                EnqueueErrorView::TotalEntriesLimit { max_entries }
            },
            OutboxEnqueueError::TotalBytesLimit { max_bytes, queued_bytes, record_bytes } => {
                EnqueueErrorView::TotalBytesLimit { max_bytes, queued_bytes, record_bytes }
            },
            OutboxEnqueueError::PeerBytesLimit {
                node_id,
                max_peer_bytes,
                peer_queued_bytes,
                record_bytes,
            } => EnqueueErrorView::PeerBytesLimit {
                node_id: node_id@,
                max_peer_bytes,
                peer_queued_bytes,
                record_bytes,
            },
            OutboxEnqueueError::Persistence { message } => {
                EnqueueErrorView::Persistence { message: message@ }
            },
        }
    }
}

/// The text of an error.
pub open spec fn enqueue_error_text(error: EnqueueErrorView) -> Seq<char> {
    match error {
        EnqueueErrorView::InvalidIdempotencyKey { message } => {
            "invalid idempotency key for outbox enqueue: "@ + message
        },
        EnqueueErrorView::RecordTooLarge { bytes, max_bytes } => {
            "outbox record exceeds max size: "@ + decimal(bytes as nat) + " bytes > "@ + decimal(
                max_bytes as nat,
            ) + " bytes"@
        },
        EnqueueErrorView::TotalEntriesLimit { max_entries } => {
            "outbox queue entry limit reached: max "@ + decimal(max_entries as nat)
        },
        EnqueueErrorView::TotalBytesLimit { max_bytes, queued_bytes, record_bytes } => {
            "outbox queue byte limit reached: queued "@ + decimal(queued_bytes as nat)
                + " + record "@ + decimal(record_bytes as nat) + " > max "@ + decimal(
                max_bytes as nat,
            )
        },
        EnqueueErrorView::PeerBytesLimit {
            node_id,
            max_peer_bytes,
            peer_queued_bytes,
            record_bytes,
        } => {
            "outbox peer byte limit reached for node '"@ + node_id + "': queued "@ + decimal(
                peer_queued_bytes as nat,
            ) + " + record "@ + decimal(record_bytes as nat) + " > max "@ + decimal(
                max_peer_bytes as nat,
            )
        },
        EnqueueErrorView::Persistence { message } => "outbox persistence failure: "@ + message,
    }
}

impl OutboxEnqueueError {
    /// Whether the write may be tried again as it is.
    pub fn retryable(&self) -> (res: bool)
        ensures
            res == (self@ is Persistence),
    {
        match self {
            OutboxEnqueueError::Persistence { .. } => true,
            _ => false,
        }
    }

    /// The text of the error.
    pub fn message(&self) -> (res: String)
        ensures
            res@ == enqueue_error_text(self@),
    {
        match self {
            OutboxEnqueueError::InvalidIdempotencyKey { message } => cat2(
                "invalid idempotency key for outbox enqueue: ",
                message,
            ),
            OutboxEnqueueError::RecordTooLarge { bytes, max_bytes } => cat5(
                "outbox record exceeds max size: ",
                &number(*bytes),
                " bytes > ",
                &number(*max_bytes),
                " bytes",
            ),
            OutboxEnqueueError::TotalEntriesLimit { max_entries } => cat2(
                "outbox queue entry limit reached: max ",
                &number(*max_entries as u64),
            ),
            OutboxEnqueueError::TotalBytesLimit { max_bytes, queued_bytes, record_bytes } => {
                crate::text::cat6(
                    "outbox queue byte limit reached: queued ",
                    &number(*queued_bytes),
                    " + record ",
                    &number(*record_bytes),
                    " > max ",
                    &number(*max_bytes),
                )
            },
            OutboxEnqueueError::PeerBytesLimit {
                node_id,
                max_peer_bytes,
                peer_queued_bytes,
                record_bytes,
            } => {
                let tail = crate::text::cat6(
                    "': queued ",
                    &number(*peer_queued_bytes),
                    " + record ",
                    &number(*record_bytes),
                    " > max ",
                    &number(*max_peer_bytes),
                );
                let res = cat3("outbox peer byte limit reached for node '", node_id, &tail);
                assert(res@ =~= enqueue_error_text(self@));
                res
            },
            OutboxEnqueueError::Persistence { message } => cat2(
                "outbox persistence failure: ",
                message,
            ),
        }
    }
}

// ---------------------------------------------------------------------------------------------
// The writes that wait, in the order of their numbers
// ---------------------------------------------------------------------------------------------

/// Some writes in the order of their numbers.
pub open spec fn numbered(pending: Seq<OutboxEntryView>) -> bool {
    forall|i: int, k: int|
        0 <= i < k < pending.len() ==> (#[trigger] pending[i]).id < (#[trigger] pending[k]).id
}

/// Some writes with one more, which takes the place of one with the same number.
pub open spec fn with_entry(pending: Seq<OutboxEntryView>, entry: OutboxEntryView) -> Seq<
    OutboxEntryView,
>
    decreases pending.len(),
{
    if pending.len() == 0 || pending.last().id < entry.id {
        pending.push(entry)
    } else if pending.last().id == entry.id {
        pending.drop_last().push(entry)
    } else {
        with_entry(pending.drop_last(), entry).push(pending.last())
    }
}

/// Some writes without the one of a number.
pub open spec fn without_entry(pending: Seq<OutboxEntryView>, id: u64) -> Seq<OutboxEntryView>
    decreases pending.len(),
{
    if pending.len() == 0 {
        pending
    } else if pending.last().id == id {
        without_entry(pending.drop_last(), id)
    } else {
        without_entry(pending.drop_last(), id).push(pending.last())
    }
}

/// Whether a write of a number waits.
pub open spec fn waits(pending: Seq<OutboxEntryView>, id: u64) -> bool {
    exists|i: int| 0 <= i < pending.len() && (#[trigger] pending[i]).id == id
}

/// Where a write goes among others in order.
pub proof fn lemma_with_entry_at(pending: Seq<OutboxEntryView>, entry: OutboxEntryView, k: int)
    requires
        0 <= k <= pending.len(),
        forall|j: int| k <= j < pending.len() ==> (#[trigger] pending[j]).id > entry.id,
        k > 0 ==> pending[k - 1].id <= entry.id,
    ensures
        with_entry(pending, entry) == if k > 0 && pending[k - 1].id == entry.id {
            pending.update(k - 1, entry)
        } else {
            pending.insert(k, entry)
        },
    decreases pending.len() - k,
{
    if k == pending.len() {
        if pending.len() > 0 && pending.last().id == entry.id {
            assert(pending.drop_last().push(entry) =~= pending.update(k - 1, entry));
        } else {
            assert(pending.push(entry) =~= pending.insert(k, entry));
        }
    } else {
        let front = pending.drop_last();
        assert forall|j: int| k <= j < front.len() implies (#[trigger] front[j]).id > entry.id by {
            assert(front[j] == pending[j]);
        }
        lemma_with_entry_at(front, entry, k);
        if k > 0 && pending[k - 1].id == entry.id {
            assert(front.update(k - 1, entry).push(pending.last()) =~= pending.update(
                k - 1,
                entry,
            ));
        } else {
            assert(front.insert(k, entry).push(pending.last()) =~= pending.insert(k, entry));
        }
    }
}

/// Taking out one of some writes in order is taking out the place where it stands.
pub proof fn lemma_without_entry_at(pending: Seq<OutboxEntryView>, id: u64, k: int)
    requires
        numbered(pending),
        0 <= k < pending.len(),
        pending[k].id == id,
    ensures
        without_entry(pending, id) == pending.remove(k),
    decreases pending.len(),
{
    let front = pending.drop_last();
    assert forall|i: int, j: int| 0 <= i < j < front.len() implies (#[trigger] front[i]).id < (
    #[trigger] front[j]).id by {
        assert(front[i] == pending[i] && front[j] == pending[j]);
    }
    if k == pending.len() - 1 {
        assert forall|j: int| 0 <= j < front.len() implies (#[trigger] front[j]).id != id by {
            assert(front[j] == pending[j]);
        }
        lemma_without_absent(front, id);
        assert(front =~= pending.remove(k));
    } else {
        lemma_without_entry_at(front, id, k);
        assert(pending[k].id < pending.last().id);
        assert(front.remove(k).push(pending.last()) =~= pending.remove(k));
    }
}

/// Taking out what does not wait changes nothing.
pub proof fn lemma_without_absent(pending: Seq<OutboxEntryView>, id: u64)
    requires
        forall|j: int| 0 <= j < pending.len() ==> (#[trigger] pending[j]).id != id,
    ensures
        without_entry(pending, id) == pending,
    decreases pending.len(),
{
    if pending.len() > 0 {
        let front = pending.drop_last();
        assert forall|j: int| 0 <= j < front.len() implies (#[trigger] front[j]).id != id by {
            assert(front[j] == pending[j]);
        }
        lemma_without_absent(front, id);
        assert(front.push(pending.last()) =~= pending);
    }
}

/// Writes stay in order when one is put among them or taken out.
pub proof fn lemma_numbered_kept(
    pending: Seq<OutboxEntryView>,
    entry: OutboxEntryView,
    id: u64,
)
    requires
        numbered(pending),
    ensures
        numbered(with_entry(pending, entry)),
        numbered(without_entry(pending, id)),
{
    let k = lemma_place_of(pending, entry.id, pending.len() as int);
    lemma_with_entry_at(pending, entry, k);
    let after = with_entry(pending, entry);
    assert forall|i: int, j: int| 0 <= i < j < after.len() implies (#[trigger] after[i]).id < (
    #[trigger] after[j]).id by {
        if k > 0 && pending[k - 1].id == entry.id {
            assert(after[i].id == pending[i].id && after[j].id == pending[j].id);
        } else {
            let a = if i < k {
                i
            } else {
                i - 1
            };
            let b = if j < k {
                j
            } else {
                j - 1
            };
            if i != k {
                assert(after[i] == pending[a]);
            }
            if j != k {
                assert(after[j] == pending[b]);
            }
        }
    }
    if waits(pending, id) {
        let p = choose|p: int| 0 <= p < pending.len() && (#[trigger] pending[p]).id == id;
        lemma_without_entry_at(pending, id, p);
        let rest = pending.remove(p);
        assert forall|i: int, j: int| 0 <= i < j < rest.len() implies (#[trigger] rest[i]).id < (
        #[trigger] rest[j]).id by {
            let a = if i < p {
                i
            } else {
                i + 1
            };
            let b = if j < p {
                j
            } else {
                j + 1
            };
            assert(rest[i] == pending[a] && rest[j] == pending[b]);
        }
    } else {
        lemma_without_absent(pending, id);
    }
}

pub proof fn lemma_place_of(pending: Seq<OutboxEntryView>, id: u64, n: int) -> (k: int)
    requires
        numbered(pending),
        0 <= n <= pending.len(),
        forall|j: int| n <= j < pending.len() ==> (#[trigger] pending[j]).id > id,
    ensures
        0 <= k <= n,
        forall|j: int| k <= j < pending.len() ==> (#[trigger] pending[j]).id > id,
        k > 0 ==> pending[k - 1].id <= id,
        forall|j: int| 0 <= j < k - 1 ==> (#[trigger] pending[j]).id < id,
    decreases n,
{
    if n == 0 || pending[n - 1].id <= id {
        n
    } else {
        lemma_place_of(pending, id, n - 1)
    }
}

/// Puts a write among others in order.
fn put_entry(pending: &mut Vec<OutboxEntry>, entry: OutboxEntry)
    requires
        numbered(views(old(pending)@)),
    ensures
        views(final(pending)@) == with_entry(views(old(pending)@), entry@),
        numbered(views(final(pending)@)),
{
    let ghost all = views(pending@);
    let mut k: usize = pending.len();
    while k > 0 && pending[k - 1].id > entry.id
        invariant
            k <= pending.len(),
            all == views(pending@),
            *pending == *old(pending),
            forall|j: int| k <= j < all.len() ==> (#[trigger] all[j]).id > entry.id,
        decreases k,
    {
        k -= 1;
        assert(all[k as int] == pending@[k as int]@);
    }
    proof {
        if k > 0 {
            assert(all[k - 1] == pending@[k - 1]@);
        }
        lemma_with_entry_at(all, entry@, k as int);
        lemma_numbered_kept(all, entry@, 0);
    }
    if k > 0 && pending[k - 1].id == entry.id {
        pending.set(k - 1, entry);
    } else {
        pending.insert(k, entry);
    }
}

/// Where the write of a number stands.
fn find_entry(pending: &Vec<OutboxEntry>, id: u64) -> (res: Option<usize>)
    ensures
        match res {
            Some(i) => i < pending.len() && pending@[i as int].id == id && waits(
                views(pending@),
                id,
            ),
            None => !waits(views(pending@), id),
        },
{
    let ghost all = views(pending@);
    let mut i: usize = 0;
    while i < pending.len()
        invariant
            i <= pending.len(),
            all == views(pending@),
            forall|j: int| 0 <= j < i ==> (#[trigger] all[j]).id != id,
        decreases pending.len() - i,
    {
        assert(all[i as int] == pending@[i as int]@);
        if pending[i].id == id {
            return Some(i);
        }
        i += 1;
    }
    None
}

/// Takes out the write of a number, if it waits.
fn take_entry(pending: &mut Vec<OutboxEntry>, id: u64) -> (res: Option<OutboxEntry>)
    requires
        numbered(views(old(pending)@)),
    ensures
        views(final(pending)@) == without_entry(views(old(pending)@), id),
        numbered(views(final(pending)@)),
        match res {
            Some(entry) => waits(views(old(pending)@), id) && entry@ == entry_of(
                views(old(pending)@),
                id,
            ),
            None => !waits(views(old(pending)@), id),
        },
{
    let ghost all = views(pending@);
    proof {
        if all.len() > 0 {
            lemma_numbered_kept(all, all[0], id);
        }
    }
    match find_entry(pending, id) {
        Some(i) => {
            assert(all[i as int] == pending@[i as int]@);
            proof {
                lemma_without_entry_at(all, id, i as int);
            }
            proof {
                let k = choose|k: int| 0 <= k < all.len() && (#[trigger] all[k]).id == id;
                assert(k == i) by {
                    if k < i {
                        assert(all[k].id < all[i as int].id);
                    } else if i < k {
                        assert(all[i as int].id < all[k].id);
                    }
                }
            }
            Some(pending.remove(i))
        },
        None => {
            proof {
                lemma_without_absent(all, id);
            }
            None
        },
    }
}

// ---------------------------------------------------------------------------------------------
// The outbox
// ---------------------------------------------------------------------------------------------

/// The outbox of a node.
#[derive(Debug)]
pub struct HintedHandoffOutbox {
    pub(crate) path: String,
    pub(crate) config: OutboxConfig,
    pub(crate) pending: Vec<OutboxEntry>,
    pub(crate) peer_queued_bytes: TextMap<u64>,
    pub(crate) queued_bytes: u64,
    pub(crate) log_bytes: u64,
    pub(crate) log_records: u64,
    pub(crate) next_id: u64,
    pub(crate) active_stalled_peers: TextMap<u64>,
    pub(crate) metrics: OutboxMetricsSnapshot,
}

/// What a [`HintedHandoffOutbox`] holds.
pub struct OutboxView {
    pub path: Seq<char>,
    pub config: OutboxConfig,
    pub pending: Seq<OutboxEntryView>,
    pub peer_queued_bytes: Map<Seq<char>, u64>,
    pub queued_bytes: u64,
    pub log_bytes: u64,
    pub log_records: u64,
    pub next_id: u64,
    pub active_stalled_peers: Map<Seq<char>, u64>,
    pub metrics: OutboxMetricsSnapshot,
}

impl View for HintedHandoffOutbox {
    type V = OutboxView;

    open(crate) spec fn view(&self) -> OutboxView {
        OutboxView {
            path: self.path@,
            config: self.config,
            pending: views(self.pending@),
            peer_queued_bytes: self.peer_queued_bytes@,
            queued_bytes: self.queued_bytes,
            log_bytes: self.log_bytes,
            log_records: self.log_records,
            next_id: self.next_id,
            active_stalled_peers: self.active_stalled_peers@,
            metrics: self.metrics,
        }
    }
}

/// What some records of a log leave: the writes that wait, the next number, and how many records
/// there were.
pub struct ReplayView {
    pub pending: Seq<OutboxEntryView>,
    pub next_id: u64,
    pub log_records: u64,
}

/// The larger of a number and the one after another.
pub open spec fn after_both(next_id: u64, id: u64) -> u64 {
    if bumped(id) > next_id {
        bumped(id)
    } else {
        next_id
    }
}

/// A write with its size, which is the one given where none is written down.
pub open spec fn sized(entry: OutboxEntryView, bytes: u64) -> OutboxEntryView {
    OutboxEntryView {
        queue_bytes: if entry.queue_bytes == 0 {
            bytes
        } else {
            entry.queue_bytes
        },
        ..entry
    }
}

/// What the first `n` records of a log leave.
pub open spec fn records_replayed(records: Seq<LoadedView>, n: nat) -> ReplayView
    decreases n,
{
    if n == 0 {
        ReplayView { pending: Seq::empty(), next_id: 1, log_records: 0 }
    } else {
        let before = records_replayed(records, (n - 1) as nat);
        let loaded = records[n - 1];
        match loaded.record {
            RecordView::Put { entry } => ReplayView {
                pending: with_entry(before.pending, sized(entry, loaded.encoded_bytes)),
                next_id: after_both(before.next_id, entry.id),
                log_records: bumped(before.log_records),
            },
            RecordView::Ack { id } => ReplayView {
                pending: without_entry(before.pending, id),
                next_id: after_both(before.next_id, id),
                log_records: bumped(before.log_records),
            },
        }
    }
}

/// The size of some writes.
pub open spec fn bytes_of(pending: Seq<OutboxEntryView>) -> u64
    decreases pending.len(),
{
    if pending.len() == 0 {
        0
    } else {
        saturated(bytes_of(pending.drop_last()), pending.last().queue_bytes)
    }
}

/// What is noted for a peer.
pub open spec fn noted(bytes: Map<Seq<char>, u64>, peer: Seq<char>) -> u64 {
    if bytes.dom().contains(peer) {
        bytes[peer]
    } else {
        0
    }
}

/// The size of some writes for each peer.
pub open spec fn peer_bytes_of(pending: Seq<OutboxEntryView>) -> Map<Seq<char>, u64>
    decreases pending.len(),
{
    if pending.len() == 0 {
        Map::empty()
    } else {
        let before = peer_bytes_of(pending.drop_last());
        before.insert(
            pending.last().peer_node_id,
            saturated(noted(before, pending.last().peer_node_id), pending.last().queue_bytes),
        )
    }
}

/// What reading the log came to: its records and its size, or why it could not be read.
pub open spec fn loaded_view(loaded: Result<(Vec<LoadedRecord>, u64), String>) -> Result<
    (Seq<LoadedView>, u64),
    Seq<char>,
> {
    match loaded {
        Ok(found) => Ok((views(found.0@), found.1)),
        Err(message) => Err(message@),
    }
}

/// The outbox that a log makes. It goes on from what was counted before it.
pub open spec fn outbox_opened(
    path: Seq<char>,
    config: OutboxConfig,
    loaded: Result<(Seq<LoadedView>, u64), Seq<char>>,
    former: OutboxMetricsSnapshot,
) -> Result<OutboxView, Seq<char>> {
    match outbox_config_error(config) {
        Some(message) => Err(message),
        None => match loaded {
            Err(message) => Err(message),
            Ok((records, log_bytes)) => {
                let found = records_replayed(records, records.len());
                Ok(
                    OutboxView {
                        path,
                        config,
                        pending: found.pending,
                        peer_queued_bytes: peer_bytes_of(found.pending),
                        queued_bytes: bytes_of(found.pending),
                        log_bytes,
                        log_records: found.log_records,
                        next_id: found.next_id,
                        active_stalled_peers: Map::empty(),
                        metrics: former,
                    },
                )
            },
        },
    }
}

/// What opening came to.
pub open spec fn opened_view(result: Result<HintedHandoffOutbox, String>) -> Result<
    OutboxView,
    Seq<char>,
> {
    match result {
        Ok(outbox) => Ok(outbox@),
        Err(message) => Err(message@),
    }
}

/// A write as it is put together, before it has a number and a size.
pub open spec fn replica_write(
    peer_node_id: Seq<char>,
    endpoint: Seq<char>,
    idempotency_key: Seq<char>,
    ring_version: u64,
    required_capabilities: Seq<Seq<char>>,
    rows: Seq<RowView>,
    now_ms: u64,
) -> OutboxEntryView {
    OutboxEntryView {
        id: 0,
        peer_node_id,
        endpoint,
        idempotency_key,
        ring_version: if ring_version == 0 {
            1
        } else {
            ring_version
        },
        required_capabilities: normal_list(required_capabilities),
        rows,
        queue_bytes: 0,
        enqueued_unix_ms: now_ms,
        next_attempt_unix_ms: now_ms,
        attempts: 0,
    }
}

/// A request sends a write again: under its key, with its rows, by its ring version and asking for what it
/// asked for.
pub open spec fn sends_again(request: InternalIngestRowsRequest, entry: OutboxEntryView) -> bool {
    &&& request.ring_version == (if entry.ring_version == 0 {
        1
    } else {
        entry.ring_version
    })
    &&& opt_text(request.idempotency_key) == Some(entry.idempotency_key)
    &&& views(request.required_capabilities@) == entry.required_capabilities
    &&& views(request.rows@) == entry.rows
}

/// What putting a write together or taking it in came to.
pub open spec fn entry_result(result: Result<OutboxEntry, OutboxEnqueueError>) -> Result<
    OutboxEntryView,
    EnqueueErrorView,
> {
    match result {
        Ok(entry) => Ok(entry@),
        Err(error) => Err(error@),
    }
}

/// Why a write of a size for a peer cannot be taken in.
pub open spec fn limit_error(v: OutboxView, peer: Seq<char>, bytes: u64) -> Option<
    EnqueueErrorView,
> {
    let config = v.config;
    if bytes > config.max_record_bytes {
        Some(
            EnqueueErrorView::RecordTooLarge { bytes, max_bytes: config.max_record_bytes },
        )
    } else if v.pending.len() >= config.max_entries {
        Some(EnqueueErrorView::TotalEntriesLimit { max_entries: config.max_entries })
    } else if saturated(v.queued_bytes, bytes) > config.max_bytes {
        Some(
            EnqueueErrorView::TotalBytesLimit {
                max_bytes: config.max_bytes,
                queued_bytes: v.queued_bytes,
                record_bytes: bytes,
            },
        )
    } else if saturated(noted(v.peer_queued_bytes, peer), bytes) > config.max_peer_bytes {
        Some(
            EnqueueErrorView::PeerBytesLimit {
                node_id: peer,
                max_peer_bytes: config.max_peer_bytes,
                peer_queued_bytes: noted(v.peer_queued_bytes, peer),
                record_bytes: bytes,
            },
        )
    } else {
        None
    }
}

/// What asking for room for a write of a size makes of the outbox: the write gets the next number,
/// unless a limit stands against it.
pub open spec fn admitted(v: OutboxView, entry: OutboxEntryView, bytes: u64) -> (
    OutboxView,
    Result<OutboxEntryView, EnqueueErrorView>,
) {
    match limit_error(v, entry.peer_node_id, bytes) {
        Some(error) => (
            OutboxView {
                metrics: OutboxMetricsSnapshot {
                    enqueue_rejected_total: counted(v.metrics.enqueue_rejected_total, 1),
                    ..v.metrics
                },
                ..v
            },
            Err(error),
        ),
        None => (
            OutboxView { next_id: bumped(v.next_id), ..v },
            Ok(OutboxEntryView { id: v.next_id, queue_bytes: bytes, ..entry }),
        ),
    }
}

/// The outbox after a record of a size was written to its log.
pub open spec fn logged(v: OutboxView, bytes: u64) -> OutboxView {
    OutboxView {
        log_bytes: saturated(v.log_bytes, bytes),
        log_records: bumped(v.log_records),
        ..v
    }
}

/// The outbox after one more failure to write.
pub open spec fn write_failed(v: OutboxView) -> OutboxView {
    OutboxView {
        metrics: OutboxMetricsSnapshot {
            persistence_failures_total: counted(v.metrics.persistence_failures_total, 1),
            ..v.metrics
        },
        ..v
    }
}

/// What writing a record came to: its size, or why it was not written.
pub open spec fn written_view(written: Result<u64, String>) -> Result<u64, Seq<char>> {
    match written {
        Ok(bytes) => Ok(bytes),
        Err(message) => Err(message@),
    }
}

/// What taking in a write makes of the outbox once its record is written or not.
pub open spec fn enqueued(v: OutboxView, entry: OutboxEntryView, written: Result<u64, Seq<char>>) -> (
    OutboxView,
    Result<(), EnqueueErrorView>,
) {
    match written {
        Err(message) => (write_failed(v), Err(EnqueueErrorView::Persistence { message })),
        Ok(bytes) => {
            let w = logged(v, bytes);
            (
                OutboxView {
                    pending: with_entry(v.pending, entry),
                    queued_bytes: saturated(v.queued_bytes, entry.queue_bytes),
                    peer_queued_bytes: v.peer_queued_bytes.insert(
                        entry.peer_node_id,
                        saturated(
                            noted(v.peer_queued_bytes, entry.peer_node_id),
                            entry.queue_bytes,
                        ),
                    ),
                    metrics: OutboxMetricsSnapshot {
                        enqueued_total: counted(v.metrics.enqueued_total, 1),
                        ..v.metrics
                    },
                    ..w
                },
                Ok(()),
            )
        },
    }
}

/// What taking in came to.
pub open spec fn enqueue_result(result: Result<(), OutboxEnqueueError>) -> Result<
    (),
    EnqueueErrorView,
> {
    match result {
        Ok(_) => Ok(()),
        Err(error) => Err(error@),
    }
}

/// What an operation that may fail came to.
pub open spec fn done_view(result: Result<(), String>) -> Result<(), Seq<char>> {
    match result {
        Ok(_) => Ok(()),
        Err(message) => Err(message@),
    }
}

/// The size noted for peers after a write for one is gone: a peer with nothing left is dropped.
pub open spec fn peer_relieved(
    bytes: Map<Seq<char>, u64>,
    peer: Seq<char>,
    gone: u64,
) -> Map<Seq<char>, u64> {
    if !bytes.dom().contains(peer) {
        bytes
    } else if since(bytes[peer], gone) == 0 {
        bytes.remove(peer)
    } else {
        bytes.insert(peer, since(bytes[peer], gone))
    }
}

/// The write of a number.
pub open spec fn entry_of(pending: Seq<OutboxEntryView>, id: u64) -> OutboxEntryView {
    pending[choose|i: int| 0 <= i < pending.len() && (#[trigger] pending[i]).id == id]
}

/// What it makes of the outbox that a peer took a write, once the record of that is written or not.
pub open spec fn acked(v: OutboxView, id: u64, written: Result<u64, Seq<char>>) -> (
    OutboxView,
    Result<(), Seq<char>>,
) {
    if !waits(v.pending, id) {
        (v, Ok(()))
    } else {
        match written {
            Err(message) => (v, Err(message)),
            Ok(bytes) => {
                let entry = entry_of(v.pending, id);
                (
                    OutboxView {
                        pending: without_entry(v.pending, id),
                        queued_bytes: since(v.queued_bytes, entry.queue_bytes),
                        peer_queued_bytes: peer_relieved(
                            v.peer_queued_bytes,
                            entry.peer_node_id,
                            entry.queue_bytes,
                        ),
                        ..logged(v, bytes)
                    },
                    Ok(()),
                )
            },
        }
    }
}

/// Two to the power of `n`.
pub open spec fn doubled(n: nat) -> nat
    decreases n,
{
    if n == 0 {
        1
    } else {
        2 * doubled((n - 1) as nat)
    }
}

/// The seconds to wait after some attempts: twice as long each time, up to a limit.
pub open spec fn backoff_secs(attempts: u32, max_backoff_secs: u64) -> u64 {
    let exponent: nat = if attempts == 0 {
        0
    } else if attempts > 31 {
        30
    } else {
        (attempts - 1) as nat
    };
    let limit = if max_backoff_secs == 0 {
        1
    } else {
        max_backoff_secs
    };
    if doubled(exponent) < limit {
        doubled(exponent) as u64
    } else {
        limit
    }
}

/// A write after one more attempt that failed.
pub open spec fn deferred(entry: OutboxEntryView, max_backoff_secs: u64, now_ms: u64) ->
    OutboxEntryView {
    let attempts = if entry.attempts == u32::MAX {
        u32::MAX
    } else {
        (entry.attempts + 1) as u32
    };
    let wait = backoff_secs(attempts, max_backoff_secs) * 1000;
    OutboxEntryView {
        attempts,
        next_attempt_unix_ms: if now_ms + wait > u64::MAX {
            u64::MAX
        } else {
            (now_ms + wait) as u64
        },
        ..entry
    }
}

/// What putting a write off makes of the outbox, once its record is written or not.
pub open spec fn rescheduled(
    v: OutboxView,
    entry: OutboxEntryView,
    written: Result<u64, Seq<char>>,
) -> (OutboxView, Result<(), Seq<char>>) {
    if !waits(v.pending, entry.id) {
        (v, Ok(()))
    } else {
        match written {
            Err(message) => (v, Err(message)),
            Ok(bytes) => (
                OutboxView { pending: with_entry(v.pending, entry), ..logged(v, bytes) },
                Ok(()),
            ),
        }
    }
}

/// The first `max` writes that are due, in the order of their numbers.
pub open spec fn due_at(pending: Seq<OutboxEntryView>, now_ms: u64, max: nat) -> Seq<
    OutboxEntryView,
>
    decreases pending.len(),
{
    if pending.len() == 0 {
        Seq::empty()
    } else {
        let before = due_at(pending.drop_last(), now_ms, max);
        if pending.last().next_attempt_unix_ms <= now_ms && before.len() < max {
            before.push(pending.last())
        } else {
            before
        }
    }
}

/// How many records of the log no longer say anything.
pub open spec fn stale_records(v: OutboxView) -> u64 {
    since(v.log_records, v.pending.len() as u64)
}

/// Whether the log is written anew when it is cleaned up.
pub open spec fn worth_compacting(v: OutboxView) -> bool {
    stale_records(v) > 0 && (stale_records(v) >= v.config.cleanup_min_stale_records || v.log_bytes
        > v.config.max_log_bytes)
}

/// The outbox after its log was written anew, with a size.
pub open spec fn log_compacted(v: OutboxView, bytes: u64) -> OutboxView {
    OutboxView { log_bytes: bytes, log_records: v.pending.len() as u64, ..v }
}

/// What cleaning up makes of the outbox: the log is written anew, or not, or left as it is.
pub open spec fn cleaned(v: OutboxView, compaction: Option<Result<u64, Seq<char>>>) -> (
    OutboxView,
    Result<(), Seq<char>>,
) {
    match compaction {
        None => (v, Ok(())),
        Some(Err(message)) => (
            OutboxView {
                metrics: OutboxMetricsSnapshot {
                    cleanup_failures_total: counted(v.metrics.cleanup_failures_total, 1),
                    ..write_failed(v).metrics
                },
                ..v
            },
            Err(message),
        ),
        Some(Ok(bytes)) => (
            OutboxView {
                metrics: OutboxMetricsSnapshot {
                    cleanup_compactions_total: counted(v.metrics.cleanup_compactions_total, 1),
                    cleanup_reclaimed_bytes_total: counted(
                        v.metrics.cleanup_reclaimed_bytes_total,
                        since(v.log_bytes, bytes),
                    ),
                    ..v.metrics
                },
                ..log_compacted(v, bytes)
            },
            Ok(()),
        ),
    }
}

/// How many writes wait for a peer.
pub open spec fn peer_entries(pending: Seq<OutboxEntryView>, peer: Seq<char>) -> nat
    decreases pending.len(),
{
    if pending.len() == 0 {
        0
    } else {
        peer_entries(pending.drop_last(), peer) + if pending.last().peer_node_id == peer {
            1nat
        } else {
            0nat
        }
    }
}

/// When the oldest write for a peer came in.
pub open spec fn peer_oldest(pending: Seq<OutboxEntryView>, peer: Seq<char>) -> Option<u64>
    decreases pending.len(),
{
    if pending.len() == 0 {
        None
    } else {
        let before = peer_oldest(pending.drop_last(), peer);
        if pending.last().peer_node_id != peer {
            before
        } else {
            match before {
                Some(oldest) => if pending.last().enqueued_unix_ms < oldest {
                    Some(pending.last().enqueued_unix_ms)
                } else {
                    Some(oldest)
                },
                None => Some(pending.last().enqueued_unix_ms),
            }
        }
    }
}

/// What waits for a peer that something is noted for.
pub open spec fn peer_backlog(v: OutboxView, peer: Seq<char>) -> PeerBacklogView {
    PeerBacklogView {
        node_id: peer,
        queued_entries: peer_entries(v.pending, peer) as u64,
        queued_bytes: v.peer_queued_bytes[peer],
        oldest_enqueued_unix_ms: peer_oldest(v.pending, peer),
    }
}

/// A listing of what waits for each peer, in the order of their names.
pub open spec fn backlog_listing(v: OutboxView, listing: Seq<PeerBacklogView>) -> bool {
    let names = Seq::new(listing.len(), |i: int| listing[i].node_id);
    &&& texts_ascending(names)
    &&& forall|peer: Seq<char>|
        #[trigger] names.contains(peer) <==> v.peer_queued_bytes.dom().contains(peer)
    &&& forall|i: int|
        0 <= i < listing.len() ==> #[trigger] listing[i] == peer_backlog(v, listing[i].node_id)
}

/// The milliseconds after which a peer counts as stalled.
pub open spec fn stalled_after_ms(config: OutboxConfig) -> u64 {
    if config.stalled_peer_age_secs * 1000 > u64::MAX {
        u64::MAX
    } else {
        (config.stalled_peer_age_secs * 1000) as u64
    }
}

/// Whether a peer is stalled at `now_ms`: enough waits for it, and the oldest for too long.
pub open spec fn is_stalled(v: OutboxView, peer: Seq<char>, now_ms: u64) -> bool {
    &&& v.peer_queued_bytes.dom().contains(peer)
    &&& peer_entries(v.pending, peer) > 0
    &&& peer_entries(v.pending, peer) >= v.config.stalled_peer_min_entries
    &&& v.peer_queued_bytes[peer] >= v.config.stalled_peer_min_bytes
    &&& peer_oldest(v.pending, peer) matches Some(oldest) && since(now_ms, oldest)
        >= stalled_after_ms(v.config)
}

/// What is reported of a peer that is stalled.
pub open spec fn stalled_report(v: OutboxView, peer: Seq<char>, now_ms: u64) -> StalledView {
    let oldest = peer_oldest(v.pending, peer)->0;
    StalledView {
        node_id: peer,
        queued_entries: peer_entries(v.pending, peer) as u64,
        queued_bytes: v.peer_queued_bytes[peer],
        oldest_enqueued_unix_ms: oldest,
        oldest_age_ms: since(now_ms, oldest),
        first_stalled_unix_ms: if v.active_stalled_peers.dom().contains(peer) {
            v.active_stalled_peers[peer]
        } else {
            now_ms
        },
    }
}

/// A listing of the peers that are stalled, in the order of their names.
pub open spec fn stalled_listing(v: OutboxView, now_ms: u64, listing: Seq<StalledView>) -> bool {
    let names = Seq::new(listing.len(), |i: int| listing[i].node_id);
    &&& texts_ascending(names)
    &&& forall|peer: Seq<char>| #[trigger] names.contains(peer) <==> is_stalled(v, peer, now_ms)
    &&& forall|i: int|
        0 <= i < listing.len() ==> #[trigger] listing[i] == stalled_report(
            v,
            listing[i].node_id,
            now_ms,
        )
}

/// How many of some stalled peers were not stalled before.
pub open spec fn newly_stalled(listing: Seq<StalledView>, before: Map<Seq<char>, u64>) -> nat
    decreases listing.len(),
{
    if listing.len() == 0 {
        0
    } else {
        newly_stalled(listing.drop_last(), before) + if before.dom().contains(
            listing.last().node_id,
        ) {
            0nat
        } else {
            1nat
        }
    }
}

/// The age of the oldest write for some stalled peers.
pub open spec fn greatest_age(listing: Seq<StalledView>) -> u64
    decreases listing.len(),
{
    if listing.len() == 0 {
        0
    } else {
        let before = greatest_age(listing.drop_last());
        if listing.last().oldest_age_ms > before {
            listing.last().oldest_age_ms
        } else {
            before
        }
    }
}

/// Since when some stalled peers are stalled.
pub open spec fn stalled_since(listing: Seq<StalledView>) -> Map<Seq<char>, u64>
    decreases listing.len(),
{
    if listing.len() == 0 {
        Map::empty()
    } else {
        stalled_since(listing.drop_last()).insert(
            listing.last().node_id,
            listing.last().first_stalled_unix_ms,
        )
    }
}

/// The outbox after its figures were brought up to date, given the peers that are stalled.
pub open spec fn refreshed(v: OutboxView, listing: Seq<StalledView>) -> OutboxView {
    OutboxView {
        active_stalled_peers: stalled_since(listing),
        metrics: OutboxMetricsSnapshot {
            queued_entries: v.pending.len() as u64,
            queued_bytes: v.queued_bytes,
            log_bytes: v.log_bytes,
            stale_records: stale_records(v),
            stalled_alerts_total: counted(
                v.metrics.stalled_alerts_total,
                newly_stalled(listing, v.active_stalled_peers) as u64,
            ),
            stalled_peers: listing.len() as u64,
            stalled_oldest_age_ms: greatest_age(listing),
            ..v.metrics
        },
        ..v
    }
}

/// What is done with a write that was sent again.
#[derive(Debug, PartialEq, Eq)]
pub enum ReplayVerdict {
    Done,
    Defer { reason: String },
}

/// What a [`ReplayVerdict`] holds.
pub enum VerdictView {
    Done,
    Defer { reason: Seq<char> },
}

impl View for ReplayVerdict {
    type V = VerdictView;

    open spec fn view(&self) -> VerdictView {
        match *self {
            ReplayVerdict::Done => VerdictView::Done,
            ReplayVerdict::Defer { reason } => VerdictView::Defer { reason: reason@ },
        }
    }
}

/// What is done with a write of some rows, given how many the peer says it stored, or why the call
/// failed.
pub open spec fn replay_verdict(rows: nat, reply: Result<usize, Seq<char>>) -> VerdictView {
    match reply {
        Ok(inserted) => if inserted == rows {
            VerdictView::Done
        } else {
            VerdictView::Defer {
                reason: "replayed ingest inserted "@ + decimal(inserted as nat)
                    + " rows but expected "@ + decimal(rows),
            }
        },
        Err(message) => VerdictView::Defer { reason: message },
    }
}

/// What a peer answered.
pub open spec fn reply_view(reply: Result<usize, String>) -> Result<usize, Seq<char>> {
    match reply {
        Ok(inserted) => Ok(inserted),
        Err(message) => Err(message@),
    }
}

fn after_id(next_id: u64, id: u64) -> (res: u64)
    ensures
        res == after_both(next_id, id),
{
    let after: u64 = id.saturating_add(1);
    if after > next_id {
        after
    } else {
        next_id
    }
}

fn count_on(n: u64, events: u64) -> (res: u64)
    ensures
        res == counted(n, events),
{
    n.wrapping_add(events)
}

/// Whether a line of the log holds a record.
pub fn holds_record(line: &str) -> (res: bool)
    ensures
        res == (trimmed(line@).len() > 0),
{
    !trim(line).is_empty()
}

/// What the outbox has counted and what it holds.
pub fn outbox_metrics_snapshot(outbox: &HintedHandoffOutbox) -> (res: OutboxMetricsSnapshot)
    ensures
        res == outbox@.metrics,
{
    outbox.metrics
}

/// Puts together a write for a peer at `now_ms`, given whether its key is valid.
pub fn prepare_replica_write(
    peer_node_id: &str,
    endpoint: &str,
    idempotency_key: &str,
    key_check: Result<(), String>,
    ring_version: u64,
    required_capabilities: &Vec<String>,
    rows: &Vec<Row>,
    now_ms: u64,
) -> (res: Result<OutboxEntry, OutboxEnqueueError>)
    ensures
        entry_result(res) == match key_check {
            Err(message) => Err(EnqueueErrorView::InvalidIdempotencyKey { message: message@ }),
            Ok(_) => Ok(
                replica_write(
                    peer_node_id@,
                    endpoint@,
                    idempotency_key@,
                    ring_version,
                    views(required_capabilities@),
                    views(rows@),
                    now_ms,
                ),
            ),
        },
{
    if let Err(message) = key_check {
        return Err(OutboxEnqueueError::InvalidIdempotencyKey { message });
    }
    let ghost all = views(rows@);
    let mut sent: Vec<InternalRow> = Vec::new();
    let mut i: usize = 0;
    while i < rows.len()
        invariant
            i <= rows.len(),
            all == views(rows@),
            views(sent@) =~= all.take(i as int),
        decreases rows.len() - i,
    {
        let row = InternalRow::from_row(&rows[i]);
        assert(row@ == all[i as int]) by {
            assert(views(row.labels@) =~= views(rows@[i as int].labels@));
        }
        sent.push(row);
        assert(views(sent@) =~= all.take(i + 1));
        i += 1;
    }
    assert(all.take(i as int) =~= all);
    Ok(
        OutboxEntry {
            id: 0,
            peer_node_id: owned(peer_node_id),
            endpoint: owned(endpoint),
            idempotency_key: owned(idempotency_key),
            ring_version: if ring_version == 0 {
                1
            } else {
                ring_version
            },
            required_capabilities: normalize_list(required_capabilities),
            rows: sent,
            queue_bytes: 0,
            enqueued_unix_ms: now_ms,
            next_attempt_unix_ms: now_ms,
            attempts: 0,
        },
    )
}

impl OutboxEntry {
    /// The request that sends the write again.
    pub fn replay_request(&self) -> (res: InternalIngestRowsRequest)
        ensures
            res.ring_version == (if self.ring_version == 0 {
                1
            } else {
                self.ring_version
            }),
            opt_text(res.idempotency_key) == Some(self.idempotency_key@),
            views(res.required_capabilities@) == views(self.required_capabilities@),
            views(res.rows@) == views(self.rows@),
            sends_again(res, self@),
    {
        InternalIngestRowsRequest {
            ring_version: if self.ring_version == 0 {
                1
            } else {
                self.ring_version
            },
            idempotency_key: Some(self.idempotency_key.clone()),
            required_capabilities: clone_texts(&self.required_capabilities),
            rows: copy_list(&self.rows),
        }
    }
}

/// Seconds in milliseconds, up to the largest number.
fn millis(secs: u64) -> (res: u64)
    ensures
        res == if secs * 1000 > u64::MAX {
            u64::MAX as int
        } else {
            secs * 1000
        },
{
    match secs.checked_mul(1000) {
        Some(ms) => ms,
        None => u64::MAX,
    }
}

fn backoff(attempts: u32, max_backoff_secs: u64) -> (res: u64)
    ensures
        res == backoff_secs(attempts, max_backoff_secs),
{
    let exponent: u32 = if attempts == 0 {
        0
    } else if attempts > 31 {
        30
    } else {
        attempts - 1
    };
    let limit: u64 = if max_backoff_secs == 0 {
        1
    } else {
        max_backoff_secs
    };
    proof {
        lemma_doubled_bound();
    }
    let mut secs: u64 = 1;
    let mut i: u32 = 0;
    while i < exponent
        invariant
            i <= exponent <= 30,
            secs == doubled(i as nat),
            secs <= 0x4000_0000,
            i < 30 ==> secs <= 0x2000_0000,
            doubled(30) == 0x4000_0000,
            doubled(29) == 0x2000_0000,
            forall|n: nat| n <= 29 ==> #[trigger] doubled(n) <= 0x2000_0000,
        decreases exponent - i,
    {
        secs = secs * 2;
        i += 1;
        proof {
            if i < 30 {
                assert(doubled(i as nat) <= 0x2000_0000);
            }
        }
    }
    if secs < limit {
        secs
    } else {
        limit
    }
}

impl HintedHandoffOutbox {
    /// Opens an outbox on what its log was found to hold. It goes on from `former`, what the outboxes
    /// opened before it have counted.
    pub fn open(
        path: String,
        config: OutboxConfig,
        loaded: Result<(Vec<LoadedRecord>, u64), String>,
        former: OutboxMetricsSnapshot,
    ) -> (res: Result<Self, String>)
        ensures
            opened_view(res) == outbox_opened(path@, config, loaded_view(loaded), former),
            match res {
                Ok(outbox) => numbered(outbox@.pending),
                Err(_) => true,
            },
    {
        if let Err(message) = config.validate() {
            return Err(message);
        }
        let (records, log_bytes) = match loaded {
            Ok(found) => found,
            Err(message) => {
                return Err(message);
            },
        };
        let ghost all = views(records@);
        let mut pending: Vec<OutboxEntry> = Vec::new();
        let mut next_id: u64 = 1;
        let mut log_records: u64 = 0;
        assert(views(pending@) =~= Seq::<OutboxEntryView>::empty());
        let mut i: usize = 0;
        while i < records.len()
            invariant
                i <= records.len(),
                all == views(records@),
                numbered(views(pending@)),
                records_replayed(all, i as nat) == (ReplayView {
                    pending: views(pending@),
                    next_id,
                    log_records,
                }),
            decreases records.len() - i,
        {
            assert(all[i as int] == records@[i as int]@);
            log_records = log_records.saturating_add(1);
            match &records[i].record {
                OutboxLogRecord::Put { entry } => {
                    let mut held = entry.copied();
                    if held.queue_bytes == 0 {
                        held.queue_bytes = records[i].encoded_bytes;
                    }
                    next_id = after_id(next_id, held.id);
                    put_entry(&mut pending, held);
                },
                OutboxLogRecord::Ack { id } => {
                    take_entry(&mut pending, *id);
                    next_id = after_id(next_id, *id);
                },
            }
            i += 1;
        }
        let ghost kept = views(pending@);
        let mut queued_bytes: u64 = 0;
        let mut peer_queued_bytes: TextMap<u64> = TextMap::new();
        let mut k: usize = 0;
        while k < pending.len()
            invariant
                k <= pending.len(),
                kept == views(pending@),
                queued_bytes == bytes_of(kept.take(k as int)),
                peer_queued_bytes@ == peer_bytes_of(kept.take(k as int)),
            decreases pending.len() - k,
        {
            assert(kept.take(k + 1).drop_last() =~= kept.take(k as int));
            assert(kept.take(k + 1).last() == pending@[k as int]@);
            let peer = pending[k].peer_node_id.as_str();
            let known: u64 = match peer_queued_bytes.get(peer) {
                Some(bytes) => *bytes,
                None => 0,
            };
            queued_bytes = queued_bytes.saturating_add(pending[k].queue_bytes);
            peer_queued_bytes.insert(owned(peer), known.saturating_add(pending[k].queue_bytes));
            k += 1;
        }
        assert(kept.take(k as int) =~= kept);
        Ok(
            HintedHandoffOutbox {
                path,
                config,
                pending,
                peer_queued_bytes,
                queued_bytes,
                log_bytes,
                log_records,
                next_id,
                active_stalled_peers: TextMap::new(),
                metrics: former,
            },
        )
    }

    /// Where the log is kept.
    pub fn outbox_path(&self) -> (res: &str)
        ensures
            res@ == self@.path,
    {
        self.path.as_str()
    }

    /// The settings.
    pub fn config(&self) -> (res: OutboxConfig)
        ensures
            res == self@.config,
    {
        self.config
    }

    /// The writes that wait, in the order of their numbers: what a log that is written anew holds.
    pub fn pending(&self) -> (res: &Vec<OutboxEntry>)
        ensures
            views(res@) == self@.pending,
    {
        &self.pending
    }

    /// Whether the log has grown too large.
    pub fn needs_compaction(&self) -> (res: bool)
        ensures
            res == (self@.log_bytes > self@.config.max_log_bytes),
    {
        self.log_bytes > self.config.max_log_bytes
    }

    /// How many records of the log no longer say anything.
    pub fn stale_record_count(&self) -> (res: u64)
        ensures
            res == stale_records(self@),
    {
        assert(views(self.pending@).len() == self.pending.len());
        self.log_records.saturating_sub(self.pending.len() as u64)
    }

    /// Asks for room for a write that takes some bytes.
    pub fn reserve(&mut self, entry: OutboxEntry, encoded_bytes: u64) -> (res: Result<
        OutboxEntry,
        OutboxEnqueueError,
    >)
        ensures
            (final(self)@, entry_result(res)) == admitted(old(self)@, entry@, encoded_bytes),
    {
        let mut entry = entry;
        let ghost given = entry@;
        assert(views(self.pending@).len() == self.pending.len());
        let peer_bytes: u64 = match self.peer_queued_bytes.get(&entry.peer_node_id) {
            Some(bytes) => *bytes,
            None => 0,
        };
        let refused: Option<OutboxEnqueueError> = if encoded_bytes > self.config.max_record_bytes {
            Some(
                OutboxEnqueueError::RecordTooLarge {
                    bytes: encoded_bytes,
                    max_bytes: self.config.max_record_bytes,
                },
            )
        } else if self.pending.len() >= self.config.max_entries {
            Some(
                OutboxEnqueueError::TotalEntriesLimit { max_entries: self.config.max_entries },
            )
        } else if self.queued_bytes.saturating_add(encoded_bytes) > self.config.max_bytes {
            Some(
                OutboxEnqueueError::TotalBytesLimit {
                    max_bytes: self.config.max_bytes,
                    queued_bytes: self.queued_bytes,
                    record_bytes: encoded_bytes,
                },
            )
        } else if peer_bytes.saturating_add(encoded_bytes) > self.config.max_peer_bytes {
            Some(
                OutboxEnqueueError::PeerBytesLimit {
                    node_id: entry.peer_node_id.clone(),
                    max_peer_bytes: self.config.max_peer_bytes,
                    peer_queued_bytes: peer_bytes,
                    record_bytes: encoded_bytes,
                },
            )
        } else {
            None
        };
        if let Some(error) = refused {
            self.metrics.enqueue_rejected_total = count_on(self.metrics.enqueue_rejected_total, 1);
            return Err(error);
        }
        entry.id = self.next_id;
        entry.queue_bytes = encoded_bytes;
        self.next_id = self.next_id.saturating_add(1);
        Ok(entry)
    }

    /// Takes in a write that was given room, once its record is written to the log.
    pub fn finish_enqueue(&mut self, entry: OutboxEntry, written: Result<u64, String>) -> (res: Result<
        (),
        OutboxEnqueueError,
    >)
        requires
            numbered(old(self)@.pending),
        ensures
            (final(self)@, enqueue_result(res)) == enqueued(
                old(self)@,
                entry@,
                written_view(written),
            ),
            numbered(final(self)@.pending),
    {
        let bytes: u64 = match written {
            Ok(bytes) => bytes,
            Err(message) => {
                self.metrics.persistence_failures_total = count_on(
                    self.metrics.persistence_failures_total,
                    1,
                );
                return Err(OutboxEnqueueError::Persistence { message });
            },
        };
        self.log_bytes = self.log_bytes.saturating_add(bytes);
        self.log_records = self.log_records.saturating_add(1);
        self.queued_bytes = self.queued_bytes.saturating_add(entry.queue_bytes);
        let known: u64 = match self.peer_queued_bytes.get(&entry.peer_node_id) {
            Some(bytes) => *bytes,
            None => 0,
        };
        self.peer_queued_bytes.insert(
            entry.peer_node_id.clone(),
            known.saturating_add(entry.queue_bytes),
        );
        put_entry(&mut self.pending, entry);
        self.metrics.enqueued_total = count_on(self.metrics.enqueued_total, 1);
        Ok(())
    }

    /// Notes that the log was written anew, or that this failed, where the outbox goes on either
    /// way.
    pub fn note_compaction(&mut self, written: &Result<u64, String>)
        ensures
            final(self)@ == match *written {
                Ok(bytes) => log_compacted(old(self)@, bytes),
                Err(_) => write_failed(old(self)@),
            },
    {
        assert(views(self.pending@).len() == self.pending.len());
        match written {
            Ok(bytes) => {
                self.log_bytes = *bytes;
                self.log_records = self.pending.len() as u64;
            },
            Err(_) => {
                self.metrics.persistence_failures_total = count_on(
                    self.metrics.persistence_failures_total,
                    1,
                );
            },
        }
    }

    /// Notes that the log was written anew, where a failure ends the operation.
    pub fn finish_compaction(&mut self, written: Result<u64, String>) -> (res: Result<(), String>)
        ensures
            match written {
                Ok(bytes) => res is Ok && final(self)@ == log_compacted(old(self)@, bytes),
                Err(message) => res == Err::<(), String>(message) && final(self)@ == old(self)@,
            },
    {
        assert(views(self.pending@).len() == self.pending.len());
        match written {
            Ok(bytes) => {
                self.log_bytes = bytes;
                self.log_records = self.pending.len() as u64;
                Ok(())
            },
            Err(message) => Err(message),
        }
    }

    /// Whether a write of a number waits, so that a record on it is to be written.
    pub fn is_pending(&self, id: u64) -> (res: bool)
        ensures
            res == waits(self@.pending, id),
    {
        find_entry(&self.pending, id).is_some()
    }

    /// Takes out a write that its peer took, once the record of that is written to the log.
    pub fn ack_entry(&mut self, id: u64, written: Result<u64, String>) -> (res: Result<(), String>)
        requires
            numbered(old(self)@.pending),
        ensures
            (final(self)@, done_view(res)) == acked(old(self)@, id, written_view(written)),
            numbered(final(self)@.pending),
    {
        if !self.is_pending(id) {
            return Ok(());
        }
        let bytes: u64 = match written {
            Ok(bytes) => bytes,
            Err(message) => {
                return Err(message);
            },
        };
        self.log_bytes = self.log_bytes.saturating_add(bytes);
        self.log_records = self.log_records.saturating_add(1);
        if let Some(entry) = take_entry(&mut self.pending, id) {
            self.queued_bytes = self.queued_bytes.saturating_sub(entry.queue_bytes);
            let known: Option<u64> = match self.peer_queued_bytes.get(&entry.peer_node_id) {
                Some(bytes) => Some(*bytes),
                None => None,
            };
            if let Some(bytes) = known {
                let left: u64 = bytes.saturating_sub(entry.queue_bytes);
                if left == 0 {
                    self.peer_queued_bytes.remove(&entry.peer_node_id);
                } else {
                    self.peer_queued_bytes.insert(entry.peer_node_id.clone(), left);
                }
            }
        }
        Ok(())
    }

    /// A write after one more attempt that failed at `now_ms`.
    pub fn defer_entry(&self, entry: &OutboxEntry, now_ms: u64) -> (res: OutboxEntry)
        ensures
            res@ == deferred(entry@, self@.config.max_backoff_secs, now_ms),
    {
        let mut next = entry.copied();
        next.attempts = next.attempts.saturating_add(1);
        let secs: u64 = backoff(next.attempts, self.config.max_backoff_secs);
        next.next_attempt_unix_ms = now_ms.saturating_add(millis(secs));
        next
    }

    /// Puts off a write that was deferred, once its record is written to the log.
    pub fn reschedule_entry(&mut self, entry: OutboxEntry, written: Result<u64, String>) -> (res:
        Result<(), String>)
        requires
            numbered(old(self)@.pending),
        ensures
            (final(self)@, done_view(res)) == rescheduled(
                old(self)@,
                entry@,
                written_view(written),
            ),
            numbered(final(self)@.pending),
    {
        if !self.is_pending(entry.id) {
            return Ok(());
        }
        let bytes: u64 = match written {
            Ok(bytes) => bytes,
            Err(message) => {
                return Err(message);
            },
        };
        self.log_bytes = self.log_bytes.saturating_add(bytes);
        self.log_records = self.log_records.saturating_add(1);
        put_entry(&mut self.pending, entry);
        Ok(())
    }

    /// The writes that are due at `now_ms`, as many as are sent in one round.
    pub fn take_due_entries_at(&self, now_ms: u64) -> (res: Vec<OutboxEntry>)
        ensures
            views(res@) == due_at(
                self@.pending,
                now_ms,
                if self@.config.replay_batch_size == 0 {
                    1
                } else {
                    self@.config.replay_batch_size as nat
                },
            ),
    {
        let max: usize = if self.config.replay_batch_size == 0 {
            1
        } else {
            self.config.replay_batch_size
        };
        let ghost all = self@.pending;
        let mut due: Vec<OutboxEntry> = Vec::new();
        assert(views(due@) =~= Seq::<OutboxEntryView>::empty());
        let mut i: usize = 0;
        while i < self.pending.len()
            invariant
                i <= self.pending.len(),
                all == views(self.pending@),
                views(due@) == due_at(all.take(i as int), now_ms, max as nat),
            decreases self.pending.len() - i,
        {
            assert(all.take(i + 1).drop_last() =~= all.take(i as int));
            assert(all.take(i + 1).last() == self.pending@[i as int]@);
            assert(views(due@).len() == due.len());
            if self.pending[i].next_attempt_unix_ms <= now_ms && due.len() < max {
                due.push(self.pending[i].copied());
            }
            i += 1;
        }
        assert(all.take(i as int) =~= all);
        due
    }

    /// Counts an attempt to send a write again.
    pub fn count_replay_attempt(&mut self)
        ensures
            final(self)@ == (OutboxView {
                metrics: OutboxMetricsSnapshot {
                    replay_attempts_total: counted(old(self)@.metrics.replay_attempts_total, 1),
                    ..old(self)@.metrics
                },
                ..old(self)@
            }),
    {
        self.metrics.replay_attempts_total = count_on(self.metrics.replay_attempts_total, 1);
    }

    /// Says what is done with a write that was sent again; a failure is counted.
    pub fn judge_replay(&mut self, entry: &OutboxEntry, reply: &Result<usize, String>) -> (res:
        ReplayVerdict)
        ensures
            res@ == replay_verdict(entry@.rows.len(), reply_view(*reply)),
            final(self)@ == (OutboxView {
                metrics: OutboxMetricsSnapshot {
                    replay_failures_total: if res@ is Done {
                        old(self)@.metrics.replay_failures_total
                    } else {
                        counted(old(self)@.metrics.replay_failures_total, 1)
                    },
                    ..old(self)@.metrics
                },
                ..old(self)@
            }),
    {
        assert(views(entry.rows@).len() == entry.rows.len());
        let reason = match reply {
            Ok(inserted) => {
                if *inserted == entry.rows.len() {
                    return ReplayVerdict::Done;
                }
                cat4(
                    "replayed ingest inserted ",
                    &number(*inserted as u64),
                    " rows but expected ",
                    &number(entry.rows.len() as u64),
                )
            },
            Err(message) => message.clone(),
        };
        self.metrics.replay_failures_total = count_on(self.metrics.replay_failures_total, 1);
        ReplayVerdict::Defer { reason }
    }

    /// Counts what became of a write that its peer took.
    pub fn count_acknowledged(&mut self, result: &Result<(), String>)
        ensures
            final(self)@ == match *result {
                Ok(_) => OutboxView {
                    metrics: OutboxMetricsSnapshot {
                        replay_success_total: counted(
                            old(self)@.metrics.replay_success_total,
                            1,
                        ),
                        ..old(self)@.metrics
                    },
                    ..old(self)@
                },
                Err(_) => OutboxView {
                    metrics: OutboxMetricsSnapshot {
                        replay_failures_total: counted(
                            old(self)@.metrics.replay_failures_total,
                            1,
                        ),
                        ..write_failed(old(self)@).metrics
                    },
                    ..old(self)@
                },
            },
    {
        match result {
            Ok(_) => {
                self.metrics.replay_success_total = count_on(self.metrics.replay_success_total, 1);
            },
            Err(_) => {
                self.metrics.replay_failures_total = count_on(
                    self.metrics.replay_failures_total,
                    1,
                );
                self.metrics.persistence_failures_total = count_on(
                    self.metrics.persistence_failures_total,
                    1,
                );
            },
        }
    }

    /// Counts a failure to write.
    pub fn count_write_failure(&mut self)
        ensures
            final(self)@ == write_failed(old(self)@),
    {
        self.metrics.persistence_failures_total = count_on(
            self.metrics.persistence_failures_total,
            1,
        );
    }

    /// Begins to clean up, and says whether the log is to be written anew.
    pub fn begin_cleanup(&mut self) -> (res: bool)
        ensures
            res == worth_compacting(old(self)@),
            final(self)@ == (OutboxView {
                metrics: OutboxMetricsSnapshot {
                    cleanup_runs_total: counted(old(self)@.metrics.cleanup_runs_total, 1),
                    ..old(self)@.metrics
                },
                ..old(self)@
            }),
    {
        self.metrics.cleanup_runs_total = count_on(self.metrics.cleanup_runs_total, 1);
        let stale: u64 = self.stale_record_count();
        stale > 0 && (stale >= self.config.cleanup_min_stale_records as u64 || self.log_bytes
            > self.config.max_log_bytes)
    }

    /// Ends cleaning up, with what became of the log if it was written anew.
    pub fn finish_cleanup(&mut self, compaction: Option<Result<u64, String>>) -> (res: Result<
        (),
        String,
    >)
        ensures
            (final(self)@, done_view(res)) == cleaned(
                old(self)@,
                match compaction {
                    Some(written) => Some(written_view(written)),
                    None => None,
                },
            ),
    {
        assert(views(self.pending@).len() == self.pending.len());
        match compaction {
            None => Ok(()),
            Some(Err(message)) => {
                self.metrics.cleanup_failures_total = count_on(
                    self.metrics.cleanup_failures_total,
                    1,
                );
                self.metrics.persistence_failures_total = count_on(
                    self.metrics.persistence_failures_total,
                    1,
                );
                Err(message)
            },
            Some(Ok(bytes)) => {
                let reclaimed: u64 = self.log_bytes.saturating_sub(bytes);
                self.log_bytes = bytes;
                self.log_records = self.pending.len() as u64;
                self.metrics.cleanup_compactions_total = count_on(
                    self.metrics.cleanup_compactions_total,
                    1,
                );
                self.metrics.cleanup_reclaimed_bytes_total = count_on(
                    self.metrics.cleanup_reclaimed_bytes_total,
                    reclaimed,
                );
                Ok(())
            },
        }
    }

    /// All that waits.
    pub fn backlog_snapshot(&self) -> (res: OutboxBacklogSnapshot)
        ensures
            res == (OutboxBacklogSnapshot {
                queued_entries: self@.pending.len() as u64,
                queued_bytes: self@.queued_bytes,
                log_bytes: self@.log_bytes,
            }),
    {
        assert(views(self.pending@).len() == self.pending.len());
        OutboxBacklogSnapshot {
            queued_entries: self.pending.len() as u64,
            queued_bytes: self.queued_bytes,
            log_bytes: self.log_bytes,
        }
    }

    /// How many writes wait for a peer, and since when.
    fn peer_totals(&self, peer: &str) -> (res: (u64, Option<u64>))
        ensures
            res.0 == peer_entries(self@.pending, peer@),
            res.1 == peer_oldest(self@.pending, peer@),
    {
        let ghost all = self@.pending;
        let mut entries: u64 = 0;
        let mut oldest: Option<u64> = None;
        let mut i: usize = 0;
        while i < self.pending.len()
            invariant
                i <= self.pending.len(),
                all == views(self.pending@),
                entries == peer_entries(all.take(i as int), peer@),
                oldest == peer_oldest(all.take(i as int), peer@),
                entries <= i,
            decreases self.pending.len() - i,
        {
            assert(all.take(i + 1).drop_last() =~= all.take(i as int));
            assert(all.take(i + 1).last() == self.pending@[i as int]@);
            if same(&self.pending[i].peer_node_id, peer) {
                let came: u64 = self.pending[i].enqueued_unix_ms;
                entries += 1;
                oldest = match oldest {
                    Some(known) => {
                        if came < known {
                            Some(came)
                        } else {
                            Some(known)
                        }
                    },
                    None => Some(came),
                };
            }
            i += 1;
        }
        assert(all.take(i as int) =~= all);
        (entries, oldest)
    }

    /// What waits for each peer, in the order of their names.
    pub fn peer_backlog_snapshot(&self) -> (res: Vec<OutboxPeerBacklogSnapshot>)
        ensures
            backlog_listing(self@, views(res@)),
    {
        let count: usize = self.peer_queued_bytes.len();
        let ghost keys = self.peer_queued_bytes.keys();
        let mut peers: Vec<OutboxPeerBacklogSnapshot> = Vec::new();
        let mut i: usize = 0;
        while i < count
            invariant
                i <= count,
                count == keys.len(),
                keys == self.peer_queued_bytes.keys(),
                peers.len() == i,
                forall|k: int|
                    0 <= k < i ==> #[trigger] views(peers@)[k] == peer_backlog(self@, keys[k]),
            decreases count - i,
        {
            let name = self.peer_queued_bytes.key_at(i);
            let totals = self.peer_totals(name);
            let peer = OutboxPeerBacklogSnapshot {
                node_id: owned(name),
                queued_entries: totals.0,
                queued_bytes: *self.peer_queued_bytes.value_at(i),
                oldest_enqueued_unix_ms: totals.1,
            };
            let ghost before = views(peers@);
            assert(peer@ == peer_backlog(self@, keys[i as int]));
            peers.push(peer);
            assert forall|k: int| 0 <= k < i + 1 implies #[trigger] views(peers@)[k]
                == peer_backlog(self@, keys[k]) by {
                if k < i {
                    assert(views(peers@)[k] == before[k]);
                }
            }
            i += 1;
        }
        assert(Seq::new(views(peers@).len(), |i: int| views(peers@)[i].node_id) =~= keys);
        peers
    }

    /// Brings the figures up to date at `now_ms`, and lists the peers that are stalled.
    pub fn refresh_observability_at(&mut self, now_ms: u64) -> (res: Vec<OutboxStalledPeerSnapshot>)
        ensures
            stalled_listing(old(self)@, now_ms, views(res@)),
            final(self)@ == refreshed(old(self)@, views(res@)),
    {
        let ghost start = self@;
        let count: usize = self.peer_queued_bytes.len();
        let ghost keys = self.peer_queued_bytes.keys();
        let threshold: u64 = millis(self.config.stalled_peer_age_secs);
        let mut listing: Vec<OutboxStalledPeerSnapshot> = Vec::new();
        let mut active: TextMap<u64> = TextMap::new();
        let mut fresh: u64 = 0;
        let mut greatest: u64 = 0;
        let mut i: usize = 0;
        assert(views(listing@) =~= Seq::<StalledView>::empty());
        proof {
            lemma_names_empty(views(listing@));
        }
        while i < count
            invariant
                i <= count,
                count == keys.len(),
                start == self@,
                start == old(self)@,
                keys == self.peer_queued_bytes.keys(),
                texts_ascending(keys),
                threshold == stalled_after_ms(start.config),
                names_of(views(listing@)) == stalled_names(start, keys.take(i as int), now_ms),
                forall|k: int|
                    0 <= k < listing@.len() ==> #[trigger] views(listing@)[k] == stalled_report(
                        start,
                        views(listing@)[k].node_id,
                        now_ms,
                    ),
                active@ == stalled_since(views(listing@)),
                fresh == newly_stalled(views(listing@), start.active_stalled_peers),
                fresh <= i,
                greatest == greatest_age(views(listing@)),
            decreases count - i,
        {
            let name = self.peer_queued_bytes.key_at(i);
            let bytes: u64 = *self.peer_queued_bytes.value_at(i);
            let totals = self.peer_totals(name);
            assert(keys.take(i + 1).drop_last() =~= keys.take(i as int));
            assert(keys.take(i + 1).last() == name@);
            let age: Option<u64> = match totals.1 {
                Some(oldest) => Some(now_ms.saturating_sub(oldest)),
                None => None,
            };
            let stalled: bool = totals.0 > 0 && totals.0 >= self.config.stalled_peer_min_entries
                && bytes >= self.config.stalled_peer_min_bytes && match age {
                Some(age) => age >= threshold,
                None => false,
            };
            assert(stalled == is_stalled(start, name@, now_ms));
            if stalled {
                if let (Some(oldest), Some(age)) = (totals.1, age) {
                    let known: Option<u64> = match self.active_stalled_peers.get(name) {
                        Some(since) => Some(*since),
                        None => None,
                    };
                    let first: u64 = match known {
                        Some(since) => since,
                        None => now_ms,
                    };
                    if known.is_none() {
                        fresh += 1;
                    }
                    if age > greatest {
                        greatest = age;
                    }
                    active.insert(owned(name), first);
                    let report = OutboxStalledPeerSnapshot {
                        node_id: owned(name),
                        queued_entries: totals.0,
                        queued_bytes: bytes,
                        oldest_enqueued_unix_ms: oldest,
                        oldest_age_ms: age,
                        first_stalled_unix_ms: first,
                    };
                    let ghost before = views(listing@);
                    assert(report@ == stalled_report(start, name@, now_ms));
                    listing.push(report);
                    assert(views(listing@) == before.push(report@));
                    assert(views(listing@).drop_last() =~= before);
                    assert(names_of(views(listing@)) =~= names_of(before).push(name@));
                    assert forall|k: int|
                        0 <= k < listing@.len() implies #[trigger] views(listing@)[k]
                        == stalled_report(start, views(listing@)[k].node_id, now_ms) by {
                        if k < before.len() {
                            assert(views(listing@)[k] == before[k]);
                        }
                    }
                }
            }
            i += 1;
        }
        assert(keys.take(i as int) =~= keys);
        proof {
            lemma_stalled_names(start, keys, now_ms);
            assert(Seq::new(views(listing@).len(), |i: int| views(listing@)[i].node_id) =~= names_of(
                views(listing@),
            ));
        }
        assert(views(self.pending@).len() == self.pending.len());
        let stale: u64 = self.stale_record_count();
        self.active_stalled_peers = active;
        self.metrics.queued_entries = self.pending.len() as u64;
        self.metrics.queued_bytes = self.queued_bytes;
        self.metrics.log_bytes = self.log_bytes;
        self.metrics.stale_records = stale;
        self.metrics.stalled_alerts_total = count_on(self.metrics.stalled_alerts_total, fresh);
        self.metrics.stalled_peers = listing.len() as u64;
        self.metrics.stalled_oldest_age_ms = greatest;
        assert(views(listing@).len() == listing.len());
        listing
    }

    /// Brings the figures up to date, and lists the peers that are stalled now.
    pub fn stalled_peer_snapshot(&mut self) -> (res: Vec<OutboxStalledPeerSnapshot>)
        ensures
            exists|now_ms: u64| #[trigger] stalled_listing(old(self)@, now_ms, views(res@)),
            final(self)@ == refreshed(old(self)@, views(res@)),
    {
        self.refresh_observability_at(unix_timestamp_millis())
    }
}

/// The names of some stalled peers.
spec fn names_of(listing: Seq<StalledView>) -> Seq<Seq<char>> {
    Seq::new(listing.len(), |i: int| listing[i].node_id)
}

/// Those of some names whose peers are stalled.
spec fn stalled_names(v: OutboxView, keys: Seq<Seq<char>>, now_ms: u64) -> Seq<Seq<char>>
    decreases keys.len(),
{
    if keys.len() == 0 {
        Seq::empty()
    } else {
        let before = stalled_names(v, keys.drop_last(), now_ms);
        if is_stalled(v, keys.last(), now_ms) {
            before.push(keys.last())
        } else {
            before
        }
    }
}

proof fn lemma_names_empty(listing: Seq<StalledView>)
    requires
        listing.len() == 0,
    ensures
        names_of(listing) == Seq::<Seq<char>>::empty(),
{
    assert(names_of(listing) =~= Seq::<Seq<char>>::empty());
}

/// The names of the stalled peers, picked from names in order, are in order and complete.
proof fn lemma_stalled_names(v: OutboxView, keys: Seq<Seq<char>>, now_ms: u64)
    requires
        texts_ascending(keys),
    ensures
        texts_ascending(stalled_names(v, keys, now_ms)),
        forall|name: Seq<char>| #[trigger]
            stalled_names(v, keys, now_ms).contains(name) <==> keys.contains(name) && is_stalled(
                v,
                name,
                now_ms,
            ),
    decreases keys.len(),
{
    let found = stalled_names(v, keys, now_ms);
    if keys.len() > 0 {
        let front = keys.drop_last();
        let last = keys.last();
        assert(texts_ascending(front));
        lemma_stalled_names(v, front, now_ms);
        let before = stalled_names(v, front, now_ms);
        assert forall|name: Seq<char>| #[trigger] keys.contains(name) <==> front.contains(name)
            || name == last by {
            if keys.contains(name) {
                let i = choose|i: int| 0 <= i < keys.len() && keys[i] == name;
                if i < front.len() {
                    assert(front[i] == name);
                }
            }
            if front.contains(name) {
                let i = choose|i: int| 0 <= i < front.len() && front[i] == name;
                assert(keys[i] == name);
            }
            if name == last {
                assert(keys[keys.len() - 1] == name);
            }
        }
        if is_stalled(v, last, now_ms) {
            assert forall|i: int, k: int| 0 <= i < k < found.len() implies crate::text::text_less(
                #[trigger] found[i],
                #[trigger] found[k],
            ) by {
                assert(found[i] == before[i]);
                if k < before.len() {
                    assert(found[k] == before[k]);
                } else {
                    assert(before.contains(before[i]));
                    assert(front.contains(before[i]));
                    let p = choose|p: int| 0 <= p < front.len() && front[p] == before[i];
                    assert(keys[p] == before[i]);
                    assert(keys[keys.len() - 1] == last);
                }
            }
            assert forall|name: Seq<char>| #[trigger] found.contains(name) <==> before.contains(
                name,
            ) || name == last by {
                if found.contains(name) {
                    let i = choose|i: int| 0 <= i < found.len() && found[i] == name;
                    if i < before.len() {
                        assert(before[i] == name);
                    }
                }
                if before.contains(name) {
                    let i = choose|i: int| 0 <= i < before.len() && before[i] == name;
                    assert(found[i] == name);
                }
                if name == last {
                    assert(found[found.len() - 1] == name);
                }
            }
        }
    }
}

pub proof fn lemma_doubled_thirty()
    ensures
        doubled(30) == 0x4000_0000,
        doubled(29) == 0x2000_0000,
{
    assert(doubled(10) == 0x400) by {
        reveal_with_fuel(doubled, 11);
    }
    assert(doubled(20) == 0x10_0000) by {
        reveal_with_fuel(doubled, 11);
    }
    assert(doubled(29) == 0x2000_0000) by {
        reveal_with_fuel(doubled, 10);
    }
}

/// Powers of two up to the thirtieth.
proof fn lemma_doubled_bound()
    ensures
        doubled(30) == 0x4000_0000,
        doubled(29) == 0x2000_0000,
        forall|n: nat| n <= 29 ==> #[trigger] doubled(n) <= 0x2000_0000,
{
    lemma_doubled_thirty();
    assert forall|n: nat| n <= 29 implies #[trigger] doubled(n) <= 0x2000_0000 by {
        lemma_doubled_grows(n, 29);
    }
}

pub proof fn lemma_doubled_grows(m: nat, n: nat)
    requires
        m <= n,
    ensures
        doubled(m) <= doubled(n),
        doubled(m) > 0,
    decreases n,
{
    if m < n {
        lemma_doubled_grows(m, (n - 1) as nat);
    } else if m > 0 {
        lemma_doubled_grows((m - 1) as nat, (m - 1) as nat);
    }
}

} // verus!
