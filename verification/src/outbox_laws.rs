//! What holds of the outbox whatever comes in and goes out.

use vstd::prelude::*;
use crate::control::bumped;
use crate::outbox::{
    acked, admitted, backoff_secs, bytes_of, deferred, due_at, enqueued, entry_of,
    lemma_doubled_grows, lemma_doubled_thirty, lemma_numbered_kept, lemma_with_entry_at,
    lemma_without_entry_at, log_compacted, noted, numbered, outbox_opened, peer_bytes_of,
    records_replayed, rescheduled, sized, waits, with_entry, without_entry, LoadedView,
    OutboxEntryView, OutboxMetricsSnapshot, OutboxView, RecordView,
};
use crate::outbox_config::OutboxConfig;

verus! {

/// The size of some writes, without any limit.
pub open spec fn total_bytes(pending: Seq<OutboxEntryView>) -> nat
    decreases pending.len(),
{
    if pending.len() == 0 {
        0
    } else {
        total_bytes(pending.drop_last()) + pending.last().queue_bytes as nat
    }
}

/// The size of some writes for a peer, without any limit.
pub open spec fn total_for(pending: Seq<OutboxEntryView>, peer: Seq<char>) -> nat
    decreases pending.len(),
{
    if pending.len() == 0 {
        0
    } else {
        total_for(pending.drop_last(), peer) + bytes_for(pending.last(), peer)
    }
}

/// The size of a write, if it is for a peer.
pub open spec fn bytes_for(entry: OutboxEntryView, peer: Seq<char>) -> nat {
    if entry.peer_node_id == peer {
        entry.queue_bytes as nat
    } else {
        0
    }
}

/// What is noted of sizes is the size of what waits, in all and for each peer; every number given
/// out is below the next one.
pub open spec fn accounts_hold(v: OutboxView) -> bool {
    &&& numbered(v.pending)
    &&& v.queued_bytes == total_bytes(v.pending)
    &&& forall|peer: Seq<char>| #[trigger]
        noted(v.peer_queued_bytes, peer) == total_for(v.pending, peer)
    &&& forall|i: int| 0 <= i < v.pending.len() ==> (#[trigger] v.pending[i]).id < v.next_id
}

proof fn lemma_totals_push(pending: Seq<OutboxEntryView>, entry: OutboxEntryView, peer: Seq<char>)
    ensures
        total_bytes(pending.push(entry)) == total_bytes(pending) + entry.queue_bytes,
        total_for(pending.push(entry), peer) == total_for(pending, peer) + bytes_for(entry, peer),
{
    assert(pending.push(entry).drop_last() =~= pending);
}

/// A write that comes in adds its size.
proof fn lemma_totals_with(pending: Seq<OutboxEntryView>, entry: OutboxEntryView, peer: Seq<char>)
    requires
        !waits(pending, entry.id),
    ensures
        total_bytes(with_entry(pending, entry)) == total_bytes(pending) + entry.queue_bytes,
        total_for(with_entry(pending, entry), peer) == total_for(pending, peer) + bytes_for(
            entry,
            peer,
        ),
        with_entry(pending, entry).len() == pending.len() + 1,
    decreases pending.len(),
{
    if pending.len() == 0 || pending.last().id < entry.id {
        lemma_totals_push(pending, entry, peer);
    } else {
        let front = pending.drop_last();
        assert(pending.last() == pending[pending.len() - 1]);
        assert(pending.last().id != entry.id);
        if waits(front, entry.id) {
            let i = choose|i: int| 0 <= i < front.len() && (#[trigger] front[i]).id == entry.id;
            assert(pending[i].id == entry.id);
        }
        lemma_totals_with(front, entry, peer);
        lemma_totals_push(with_entry(front, entry), pending.last(), peer);
    }
}

/// A write that takes the place of another of the same size and peer changes no total.
proof fn lemma_totals_replaced(
    pending: Seq<OutboxEntryView>,
    entry: OutboxEntryView,
    peer: Seq<char>,
    k: int,
)
    requires
        numbered(pending),
        0 <= k < pending.len(),
        pending[k].id == entry.id,
        pending[k].queue_bytes == entry.queue_bytes,
        pending[k].peer_node_id == entry.peer_node_id,
    ensures
        total_bytes(with_entry(pending, entry)) == total_bytes(pending),
        total_for(with_entry(pending, entry), peer) == total_for(pending, peer),
        with_entry(pending, entry) == pending.update(k, entry),
    decreases pending.len(),
{
    let front = pending.drop_last();
    assert forall|j: int| k + 1 <= j < pending.len() implies (#[trigger] pending[j]).id
        > entry.id by {
        assert(pending[k].id < pending[j].id);
    }
    lemma_with_entry_at(pending, entry, k + 1);
    if k == pending.len() - 1 {
        lemma_totals_push(front, entry, peer);
        assert(front.push(entry) =~= pending.update(k, entry));
    } else {
        assert forall|i: int, j: int| 0 <= i < j < front.len() implies (#[trigger] front[i]).id < (
        #[trigger] front[j]).id by {
            assert(front[i] == pending[i] && front[j] == pending[j]);
        }
        lemma_totals_replaced(front, entry, peer, k);
        assert(pending.update(k, entry) =~= front.update(k, entry).push(pending.last()));
        lemma_totals_push(front.update(k, entry), pending.last(), peer);
    }
}

/// A write that goes takes its size with it.
proof fn lemma_totals_without(pending: Seq<OutboxEntryView>, peer: Seq<char>, k: int)
    requires
        numbered(pending),
        0 <= k < pending.len(),
    ensures
        total_bytes(pending) == total_bytes(pending.remove(k)) + pending[k].queue_bytes,
        total_for(pending, peer) == total_for(pending.remove(k), peer) + bytes_for(
            pending[k],
            peer,
        ),
    decreases pending.len(),
{
    let front = pending.drop_last();
    if k == pending.len() - 1 {
        assert(pending.remove(k) =~= front);
    } else {
        assert forall|i: int, j: int| 0 <= i < j < front.len() implies (#[trigger] front[i]).id < (
        #[trigger] front[j]).id by {
            assert(front[i] == pending[i] && front[j] == pending[j]);
        }
        lemma_totals_without(front, peer, k);
        assert(pending.remove(k) =~= front.remove(k).push(pending.last()));
        lemma_totals_push(front.remove(k), pending.last(), peer);
    }
}

/// A write that was given room and written to the log leaves the accounts true and every limit
/// kept.
pub proof fn law_enqueue_keeps_accounts_and_limits(
    v: OutboxView,
    entry: OutboxEntryView,
    bytes: u64,
    written: u64,
)
    requires
        accounts_hold(v),
        v.next_id < u64::MAX,
        v.queued_bytes + bytes <= u64::MAX,
        admitted(v, entry, bytes).1 is Ok,
    ensures
        ({
            let (w, taken) = admitted(v, entry, bytes);
            let after = enqueued(w, taken->Ok_0, Ok(written)).0;
            &&& accounts_hold(after)
            &&& after.pending.len() == v.pending.len() + 1
            &&& after.pending.len() <= v.config.max_entries
            &&& after.queued_bytes <= v.config.max_bytes
            &&& noted(after.peer_queued_bytes, entry.peer_node_id) <= v.config.max_peer_bytes
            &&& waits(after.pending, taken->Ok_0.id)
        }),
{
    let (w, taken) = admitted(v, entry, bytes);
    let put = taken->Ok_0;
    let after = enqueued(w, put, Ok(written)).0;
    if waits(v.pending, put.id) {
        let i = choose|i: int| 0 <= i < v.pending.len() && (#[trigger] v.pending[i]).id == put.id;
        assert(v.pending[i].id < v.next_id);
    }
    lemma_numbered_kept(v.pending, put, 0);
    assert forall|j: int| v.pending.len() <= j < v.pending.len() implies (
    #[trigger] v.pending[j]).id > put.id by {}
    lemma_totals_with(v.pending, put, entry.peer_node_id);
    lemma_with_entry_at(v.pending, put, v.pending.len() as int);
    assert(after.pending =~= v.pending.push(put));
    assert(after.pending[v.pending.len() as int].id == put.id);
    lemma_part_of_total(v.pending, entry.peer_node_id);
    assert(noted(v.peer_queued_bytes, entry.peer_node_id) == total_for(
        v.pending,
        entry.peer_node_id,
    ));
    assert forall|peer: Seq<char>| #[trigger] noted(after.peer_queued_bytes, peer) == total_for(
        after.pending,
        peer,
    ) by {
        lemma_totals_with(v.pending, put, peer);
        assert(noted(v.peer_queued_bytes, peer) == total_for(v.pending, peer));
    }
    assert forall|i: int| 0 <= i < after.pending.len() implies (#[trigger] after.pending[i]).id
        < after.next_id by {
        if i < v.pending.len() {
            assert(after.pending[i] == v.pending[i]);
        }
    }
}

/// What waits for a peer is part of what waits.
proof fn lemma_part_of_total(pending: Seq<OutboxEntryView>, peer: Seq<char>)
    ensures
        total_for(pending, peer) <= total_bytes(pending),
    decreases pending.len(),
{
    if pending.len() > 0 {
        lemma_part_of_total(pending.drop_last(), peer);
    }
}

/// A write that its peer took is gone, with its size, and the accounts stay true.
pub proof fn law_ack_keeps_accounts(v: OutboxView, id: u64, written: u64)
    requires
        accounts_hold(v),
        waits(v.pending, id),
    ensures
        accounts_hold(acked(v, id, Ok(written)).0),
        !waits(acked(v, id, Ok(written)).0.pending, id),
        acked(v, id, Ok(written)).0.pending.len() == v.pending.len() - 1,
{
    let after = acked(v, id, Ok(written)).0;
    let k = choose|k: int| 0 <= k < v.pending.len() && (#[trigger] v.pending[k]).id == id;
    let entry = entry_of(v.pending, id);
    assert(entry == v.pending[k]);
    lemma_without_entry_at(v.pending, id, k);
    lemma_numbered_kept(v.pending, entry, id);
    assert(after.pending == v.pending.remove(k));
    lemma_totals_without(v.pending, entry.peer_node_id, k);
    lemma_part_of_total(after.pending, entry.peer_node_id);
    assert(noted(v.peer_queued_bytes, entry.peer_node_id) == total_for(
        v.pending,
        entry.peer_node_id,
    ));
    assert forall|peer: Seq<char>| #[trigger] noted(after.peer_queued_bytes, peer) == total_for(
        after.pending,
        peer,
    ) by {
        lemma_totals_without(v.pending, peer, k);
        assert(noted(v.peer_queued_bytes, peer) == total_for(v.pending, peer));
    }
    assert forall|i: int| 0 <= i < after.pending.len() implies (#[trigger] after.pending[i]).id
        < after.next_id && after.pending[i].id != id by {
        let j = if i < k {
            i
        } else {
            i + 1
        };
        assert(after.pending[i] == v.pending[j]);
        if j < k {
            assert(v.pending[j].id < v.pending[k].id);
        } else {
            assert(v.pending[k].id < v.pending[j].id);
        }
    }
}

/// A write that is put off keeps its number, its peer and its size, and the accounts stay true.
pub proof fn law_deferral_keeps_accounts(
    v: OutboxView,
    id: u64,
    now_ms: u64,
    written: u64,
)
    requires
        accounts_hold(v),
        waits(v.pending, id),
    ensures
        ({
            let entry = deferred(entry_of(v.pending, id), v.config.max_backoff_secs, now_ms);
            let after = rescheduled(v, entry, Ok(written)).0;
            &&& entry.id == id
            &&& accounts_hold(after)
            &&& after.pending.len() == v.pending.len()
            &&& waits(after.pending, id)
            &&& after.queued_bytes == v.queued_bytes
        }),
{
    let k = choose|k: int| 0 <= k < v.pending.len() && (#[trigger] v.pending[k]).id == id;
    let entry = deferred(entry_of(v.pending, id), v.config.max_backoff_secs, now_ms);
    let after = rescheduled(v, entry, Ok(written)).0;
    assert(entry_of(v.pending, id) == v.pending[k]);
    lemma_numbered_kept(v.pending, entry, 0);
    lemma_totals_replaced(v.pending, entry, entry.peer_node_id, k);
    assert(after.pending[k].id == id);
    assert forall|peer: Seq<char>| #[trigger] noted(after.peer_queued_bytes, peer) == total_for(
        after.pending,
        peer,
    ) by {
        lemma_totals_replaced(v.pending, entry, peer, k);
        assert(noted(v.peer_queued_bytes, peer) == total_for(v.pending, peer));
    }
    assert forall|i: int| 0 <= i < after.pending.len() implies (#[trigger] after.pending[i]).id
        < after.next_id by {
        if i != k {
            assert(after.pending[i] == v.pending[i]);
        }
    }
}

/// What goes out right after it came in leaves what waits, and its size, as they were.
pub proof fn law_ack_undoes_enqueue(
    v: OutboxView,
    entry: OutboxEntryView,
    bytes: u64,
    written: u64,
    erased: u64,
)
    requires
        accounts_hold(v),
        v.next_id < u64::MAX,
        v.queued_bytes + bytes <= u64::MAX,
        admitted(v, entry, bytes).1 is Ok,
    ensures
        ({
            let (w, taken) = admitted(v, entry, bytes);
            let held = enqueued(w, taken->Ok_0, Ok(written)).0;
            let after = acked(held, taken->Ok_0.id, Ok(erased)).0;
            &&& after.pending == v.pending
            &&& after.queued_bytes == v.queued_bytes
            &&& forall|peer: Seq<char>| #[trigger]
                noted(after.peer_queued_bytes, peer) == noted(v.peer_queued_bytes, peer)
        }),
{
    let (w, taken) = admitted(v, entry, bytes);
    let put = taken->Ok_0;
    let held = enqueued(w, put, Ok(written)).0;
    law_enqueue_keeps_accounts_and_limits(v, entry, bytes, written);
    law_ack_keeps_accounts(held, put.id, erased);
    lemma_with_entry_at(v.pending, put, v.pending.len() as int);
    assert(held.pending =~= v.pending.push(put));
    lemma_without_entry_at(held.pending, put.id, v.pending.len() as int);
    let after = acked(held, put.id, Ok(erased)).0;
    assert(after.pending =~= v.pending);
    assert forall|peer: Seq<char>| #[trigger] noted(after.peer_queued_bytes, peer) == noted(
        v.peer_queued_bytes,
        peer,
    ) by {
        assert(noted(v.peer_queued_bytes, peer) == total_for(v.pending, peer));
    }
}

/// A log that says what waits.
pub open spec fn log_says(records: Seq<LoadedView>, pending: Seq<OutboxEntryView>) -> bool {
    records_replayed(records, records.len()).pending == pending
}

proof fn lemma_replay_prefix(records: Seq<LoadedView>, more: LoadedView, n: nat)
    requires
        n <= records.len(),
    ensures
        records_replayed(records.push(more), n) == records_replayed(records, n),
    decreases n,
{
    if n > 0 {
        lemma_replay_prefix(records, more, (n - 1) as nat);
        assert(records.push(more)[n - 1] == records[n - 1]);
    }
}

/// With the record of each change written to it, the log says what waits after the change: a
/// restart loses nothing that was taken in and brings back nothing that is gone.
pub proof fn law_log_says_what_waits(
    v: OutboxView,
    records: Seq<LoadedView>,
    entry: OutboxEntryView,
    id: u64,
    written: u64,
)
    requires
        log_says(records, v.pending),
        entry.queue_bytes > 0,
    ensures
        log_says(
            records.push(
                LoadedView { record: RecordView::Put { entry }, encoded_bytes: entry.queue_bytes },
            ),
            enqueued(v, entry, Ok(written)).0.pending,
        ),
        waits(v.pending, entry.id) ==> log_says(
            records.push(
                LoadedView { record: RecordView::Put { entry }, encoded_bytes: entry.queue_bytes },
            ),
            rescheduled(v, entry, Ok(written)).0.pending,
        ),
        waits(v.pending, id) ==> log_says(
            records.push(LoadedView { record: RecordView::Ack { id }, encoded_bytes: 0 }),
            acked(v, id, Ok(written)).0.pending,
        ),
{
    let put = LoadedView { record: RecordView::Put { entry }, encoded_bytes: entry.queue_bytes };
    let ack = LoadedView { record: RecordView::Ack { id }, encoded_bytes: 0 };
    lemma_replay_prefix(records, put, records.len());
    lemma_replay_prefix(records, ack, records.len());
}

/// The records of a log that is written anew.
pub open spec fn compact_records(pending: Seq<OutboxEntryView>) -> Seq<LoadedView> {
    Seq::new(
        pending.len(),
        |i: int|
            LoadedView {
                record: RecordView::Put { entry: pending[i] },
                encoded_bytes: pending[i].queue_bytes,
            },
    )
}

/// A log that is written anew says what waits.
pub proof fn law_compacted_log_says_what_waits(pending: Seq<OutboxEntryView>)
    requires
        numbered(pending),
    ensures
        log_says(compact_records(pending), pending),
    decreases pending.len(),
{
    if pending.len() > 0 {
        let front = pending.drop_last();
        assert forall|i: int, j: int| 0 <= i < j < front.len() implies (#[trigger] front[i]).id < (
        #[trigger] front[j]).id by {
            assert(front[i] == pending[i] && front[j] == pending[j]);
        }
        law_compacted_log_says_what_waits(front);
        let last = LoadedView {
            record: RecordView::Put { entry: pending.last() },
            encoded_bytes: pending.last().queue_bytes,
        };
        assert(compact_records(pending) =~= compact_records(front).push(last));
        lemma_replay_prefix(compact_records(front), last, front.len());
        assert(sized(pending.last(), pending.last().queue_bytes) == pending.last());
        if front.len() > 0 {
            assert(front.last() == pending[front.len() - 1]);
            assert(pending.last() == pending[pending.len() - 1]);
        }
        assert(with_entry(front, pending.last()) =~= pending);
    } else {
        assert(compact_records(pending) =~= Seq::<LoadedView>::empty());
        assert(pending =~= Seq::<OutboxEntryView>::empty());
    }
}

/// Writing the log anew drops no write.
pub proof fn law_compaction_keeps_what_waits(v: OutboxView, bytes: u64)
    ensures
        log_compacted(v, bytes).pending == v.pending,
        log_compacted(v, bytes).queued_bytes == v.queued_bytes,
        crate::outbox::stale_records(log_compacted(v, bytes)) == 0,
{
}

/// The time to wait is at least a second, grows with the attempts, and never goes beyond the limit.
pub proof fn law_backoff_is_bounded(attempts: u32, max_backoff_secs: u64)
    ensures
        1 <= backoff_secs(attempts, max_backoff_secs),
        max_backoff_secs > 0 ==> backoff_secs(attempts, max_backoff_secs) <= max_backoff_secs,
        attempts < u32::MAX ==> backoff_secs(attempts, max_backoff_secs) <= backoff_secs(
            (attempts + 1) as u32,
            max_backoff_secs,
        ),
{
    let exponent: nat = if attempts == 0 {
        0
    } else if attempts > 31 {
        30
    } else {
        (attempts - 1) as nat
    };
    let next: nat = if attempts >= 31 {
        30
    } else {
        attempts as nat
    };
    lemma_doubled_grows(exponent, next);
    lemma_doubled_grows(exponent, 30);
    lemma_doubled_grows(next, 30);
    lemma_doubled_thirty();
}

/// Only writes that wait and whose time has come are sent again, and no more than fit in a round;
/// where there is room left in the round, none of them is passed over.
pub proof fn law_due_writes_wait(pending: Seq<OutboxEntryView>, now_ms: u64, max: nat)
    ensures
        due_at(pending, now_ms, max).len() <= max,
        forall|i: int|
            0 <= i < due_at(pending, now_ms, max).len() ==> pending.contains(
                #[trigger] due_at(pending, now_ms, max)[i],
            ) && due_at(pending, now_ms, max)[i].next_attempt_unix_ms <= now_ms,
        due_at(pending, now_ms, max).len() < max ==> forall|k: int|
            0 <= k < pending.len() && (#[trigger] pending[k]).next_attempt_unix_ms <= now_ms
                ==> due_at(pending, now_ms, max).contains(pending[k]),
    decreases pending.len(),
{
    if pending.len() > 0 {
        let front = pending.drop_last();
        law_due_writes_wait(front, now_ms, max);
        let before = due_at(front, now_ms, max);
        let all = due_at(pending, now_ms, max);
        assert forall|i: int| 0 <= i < all.len() implies pending.contains(#[trigger] all[i])
            && all[i].next_attempt_unix_ms <= now_ms by {
            if i < before.len() {
                assert(all[i] == before[i]);
                assert(front.contains(before[i]));
                let k = choose|k: int| 0 <= k < front.len() && front[k] == before[i];
                assert(pending[k] == before[i]);
            } else {
                assert(pending[pending.len() - 1] == all[i]);
            }
        }
        assert forall|k: int|
            0 <= k < pending.len() && (#[trigger] pending[k]).next_attempt_unix_ms <= now_ms
                && all.len() < max implies all.contains(pending[k]) by {
            if k < front.len() {
                assert(front[k] == pending[k]);
                assert(before.contains(front[k]));
                let m = choose|m: int| 0 <= m < before.len() && before[m] == front[k];
                assert(all[m] == pending[k]);
            } else {
                assert(all[all.len() - 1] == pending[k]);
            }
        }
    }
}

proof fn lemma_with_entry_elements(
    pending: Seq<OutboxEntryView>,
    entry: OutboxEntryView,
    x: OutboxEntryView,
)
    requires
        with_entry(pending, entry).contains(x),
    ensures
        x == entry || pending.contains(x),
    decreases pending.len(),
{
    let out = with_entry(pending, entry);
    let k = choose|k: int| 0 <= k < out.len() && out[k] == x;
    if pending.len() > 0 {
        let front = pending.drop_last();
        if pending.last().id < entry.id {
            if k < pending.len() {
                assert(pending[k] == x);
            }
        } else if pending.last().id == entry.id {
            if k < front.len() {
                assert(pending[k] == x);
            }
        } else {
            let inner = with_entry(front, entry);
            if k < inner.len() {
                assert(inner[k] == x);
                lemma_with_entry_elements(front, entry, x);
                if front.contains(x) {
                    let m = choose|m: int| 0 <= m < front.len() && front[m] == x;
                    assert(pending[m] == x);
                }
            } else {
                assert(pending[pending.len() - 1] == x);
            }
        }
    }
}

proof fn lemma_without_entry_elements(pending: Seq<OutboxEntryView>, id: u64, x: OutboxEntryView)
    requires
        without_entry(pending, id).contains(x),
    ensures
        pending.contains(x),
    decreases pending.len(),
{
    let out = without_entry(pending, id);
    let k = choose|k: int| 0 <= k < out.len() && out[k] == x;
    if pending.len() > 0 {
        let front = pending.drop_last();
        let inner = without_entry(front, id);
        if k < inner.len() {
            assert(inner[k] == x);
            lemma_without_entry_elements(front, id, x);
            let m = choose|m: int| 0 <= m < front.len() && front[m] == x;
            assert(pending[m] == x);
        } else {
            assert(pending[pending.len() - 1] == x);
        }
    }
}

proof fn lemma_replay_numbers(records: Seq<LoadedView>, n: nat)
    requires
        n <= records.len(),
    ensures
        numbered(records_replayed(records, n).pending),
        forall|x: OutboxEntryView| #[trigger]
            records_replayed(records, n).pending.contains(x) ==> bumped(x.id) <= records_replayed(
                records,
                n,
            ).next_id,
    decreases n,
{
    if n > 0 {
        lemma_replay_numbers(records, (n - 1) as nat);
        let before = records_replayed(records, (n - 1) as nat);
        let after = records_replayed(records, n);
        let loaded = records[n - 1];
        match loaded.record {
            RecordView::Put { entry } => {
                let held = sized(entry, loaded.encoded_bytes);
                lemma_numbered_kept(before.pending, held, 0);
                assert forall|x: OutboxEntryView| #[trigger] after.pending.contains(x) implies
                    bumped(x.id) <= after.next_id by {
                    lemma_with_entry_elements(before.pending, held, x);
                }
            },
            RecordView::Ack { id } => {
                if before.pending.len() > 0 {
                    lemma_numbered_kept(before.pending, before.pending[0], id);
                }
                assert forall|x: OutboxEntryView| #[trigger] after.pending.contains(x) implies
                    bumped(x.id) <= after.next_id by {
                    lemma_without_entry_elements(before.pending, id, x);
                }
            },
        }
    }
}

proof fn lemma_sizes_fit(pending: Seq<OutboxEntryView>, peer: Seq<char>)
    requires
        total_bytes(pending) <= u64::MAX,
    ensures
        bytes_of(pending) == total_bytes(pending),
        noted(peer_bytes_of(pending), peer) == total_for(pending, peer),
        total_for(pending, peer) <= total_bytes(pending),
    decreases pending.len(),
{
    if pending.len() > 0 {
        let front = pending.drop_last();
        lemma_sizes_fit(front, peer);
        lemma_sizes_fit(front, pending.last().peer_node_id);
    }
}

/// What an outbox finds in its log when it is opened is what it accounts for, where the sizes and the
/// numbers fit.
pub proof fn law_opened_outbox_accounts_hold(
    path: Seq<char>,
    config: OutboxConfig,
    loaded: Result<(Seq<LoadedView>, u64), Seq<char>>,
    former: OutboxMetricsSnapshot,
)
    ensures
        outbox_opened(path, config, loaded, former) matches Ok(v) ==> (total_bytes(v.pending)
            <= u64::MAX && (forall|i: int|
            0 <= i < v.pending.len() ==> (#[trigger] v.pending[i]).id < u64::MAX)
            ==> accounts_hold(v)),
{
    if let Ok(v) = outbox_opened(path, config, loaded, former) {
        if total_bytes(v.pending) <= u64::MAX && (forall|i: int|
            0 <= i < v.pending.len() ==> (#[trigger] v.pending[i]).id < u64::MAX) {
            let records = loaded->Ok_0.0;
            lemma_replay_numbers(records, records.len());
            lemma_sizes_fit(v.pending, Seq::empty());
            assert forall|peer: Seq<char>| #[trigger]
                noted(v.peer_queued_bytes, peer) == total_for(v.pending, peer) by {
                lemma_sizes_fit(v.pending, peer);
            }
            assert forall|i: int| 0 <= i < v.pending.len() implies (#[trigger] v.pending[i]).id
                < v.next_id by {
                assert(v.pending.contains(v.pending[i]));
            }
        }
    }
}

} // verus!
