//! What the outbox is for: a write waits just as it was asked for, at its peer's address, until it is
//! due and the peer has taken it.

use vstd::prelude::*;
use crate::lists::views;
use crate::outbox::{
    acked, admitted, backoff_secs, cleaned, deferred, doubled, due_at, enqueued, greatest_age,
    is_stalled, lemma_doubled_grows, lemma_doubled_thirty, lemma_numbered_kept, lemma_place_of,
    lemma_with_entry_at, lemma_without_absent, lemma_without_entry_at, log_compacted, newly_stalled,
    noted, numbered, outbox_opened, peer_backlog, peer_entries, peer_oldest, records_replayed,
    refreshed, replay_verdict, replica_write, rescheduled, sends_again, sized, stalled_report,
    stalled_since, waits, with_entry, without_entry, worth_compacting, EnqueueErrorView, LoadedView,
    OutboxEntryView, OutboxMetricsSnapshot, OutboxView, RecordView, StalledView, VerdictView,
};
use crate::outbox_config::{outbox_config_error, OutboxConfig};
use crate::outbox_laws::{compact_records, law_compacted_log_says_what_waits, log_says};
use crate::parsing::law_normal_list;
use crate::rpc_types::{InternalIngestRowsRequest, RowView};
use crate::text::{opt_text, trimmed};

verus! {

/// A write holds what it was asked for: the peer, its address, the key and the rows are each their own
/// argument, and so are the ring version, where there is one, and the time. What the peer must be able
/// to do is what was asked of it.
pub proof fn law_write_holds_what_was_asked_for(
    peer: Seq<char>,
    endpoint: Seq<char>,
    key: Seq<char>,
    ring_version: u64,
    capabilities: Seq<Seq<char>>,
    rows: Seq<RowView>,
    now_ms: u64,
)
    ensures
        ({
            let entry = replica_write(
                peer,
                endpoint,
                key,
                ring_version,
                capabilities,
                rows,
                now_ms,
            );
            &&& entry.peer_node_id == peer
            &&& entry.endpoint == endpoint
            &&& entry.idempotency_key == key
            &&& entry.rows == rows
            &&& ring_version >= 1 ==> entry.ring_version == ring_version
            &&& entry.ring_version >= 1
            &&& entry.enqueued_unix_ms == now_ms
            &&& entry.next_attempt_unix_ms == now_ms
            &&& entry.attempts == 0
            &&& forall|text: Seq<char>| #[trigger]
                entry.required_capabilities.contains(text) <==> text.len() > 0 && exists|i: int|
                    0 <= i < capabilities.len() && trimmed(#[trigger] capabilities[i]) == text
        }),
{
    law_normal_list(capabilities);
}

/// Two writes with the same contents: only when and how often they are sent may differ.
pub open spec fn same_write(a: OutboxEntryView, b: OutboxEntryView) -> bool {
    &&& a.id == b.id
    &&& a.peer_node_id == b.peer_node_id
    &&& a.endpoint == b.endpoint
    &&& a.idempotency_key == b.idempotency_key
    &&& a.ring_version == b.ring_version
    &&& a.required_capabilities == b.required_capabilities
    &&& a.rows == b.rows
    &&& a.queue_bytes == b.queue_bytes
    &&& a.enqueued_unix_ms == b.enqueued_unix_ms
}

/// A write waits.
pub open spec fn write_waits(pending: Seq<OutboxEntryView>, entry: OutboxEntryView) -> bool {
    exists|i: int| 0 <= i < pending.len() && same_write(#[trigger] pending[i], entry)
}

/// A write that is taken in waits under the next number, with the peer, the address, the key and the
/// rows that it was asked for with, and everything that waited before still waits.
pub proof fn law_write_waits_as_asked_for(
    v: OutboxView,
    peer: Seq<char>,
    endpoint: Seq<char>,
    key: Seq<char>,
    ring_version: u64,
    capabilities: Seq<Seq<char>>,
    rows: Seq<RowView>,
    now_ms: u64,
    bytes: u64,
    written: u64,
)
    requires
        forall|i: int| 0 <= i < v.pending.len() ==> (#[trigger] v.pending[i]).id < v.next_id,
        admitted(
            v,
            replica_write(peer, endpoint, key, ring_version, capabilities, rows, now_ms),
            bytes,
        ).1 is Ok,
    ensures
        ({
            let (w, taken) = admitted(
                v,
                replica_write(peer, endpoint, key, ring_version, capabilities, rows, now_ms),
                bytes,
            );
            let after = enqueued(w, taken->Ok_0, Ok(written)).0.pending;
            let held = after[v.pending.len() as int];
            &&& after.len() == v.pending.len() + 1
            &&& forall|i: int| 0 <= i < v.pending.len() ==> #[trigger] after[i] == v.pending[i]
            &&& held.id == v.next_id
            &&& held.peer_node_id == peer
            &&& held.endpoint == endpoint
            &&& held.idempotency_key == key
            &&& held.rows == rows
            &&& held.queue_bytes == bytes
            &&& held.enqueued_unix_ms == now_ms
            &&& held.next_attempt_unix_ms == now_ms
            &&& held.attempts == 0
        }),
{
    let (w, taken) = admitted(
        v,
        replica_write(peer, endpoint, key, ring_version, capabilities, rows, now_ms),
        bytes,
    );
    let put = taken->Ok_0;
    let k = v.pending.len() as int;
    assert forall|j: int| k <= j < v.pending.len() implies (#[trigger] v.pending[j]).id > put.id by {}
    lemma_with_entry_at(v.pending, put, k);
    assert(with_entry(v.pending, put) =~= v.pending.push(put));
}

/// A write that is put off keeps all that it holds but for its next time and the count of attempts.
pub proof fn law_deferral_keeps_the_write(
    entry: OutboxEntryView,
    max_backoff_secs: u64,
    now_ms: u64,
)
    ensures
        same_write(deferred(entry, max_backoff_secs, now_ms), entry),
        entry.attempts < u32::MAX ==> deferred(entry, max_backoff_secs, now_ms).attempts
            == entry.attempts + 1,
        deferred(entry, max_backoff_secs, now_ms).next_attempt_unix_ms >= now_ms,
        now_ms + 1000 <= u64::MAX ==> deferred(entry, max_backoff_secs, now_ms).next_attempt_unix_ms
            >= now_ms + 1000,
        0 < max_backoff_secs && now_ms + max_backoff_secs * 1000 <= u64::MAX ==> deferred(
            entry,
            max_backoff_secs,
            now_ms,
        ).next_attempt_unix_ms <= now_ms + max_backoff_secs * 1000,
{
    lemma_doubled_thirty();
    lemma_doubled_grows(0, 0);
    let exponent: nat = if entry.attempts == u32::MAX || entry.attempts >= 31 {
        30
    } else {
        entry.attempts as nat
    };
    lemma_doubled_grows(0, exponent);
    lemma_doubled_grows(exponent, 30);
}

/// The first wait is a second, and each wait is twice the last, up to the limit.
pub proof fn law_waits_double(attempts: u32, max_backoff_secs: u64)
    requires
        0 < max_backoff_secs,
    ensures
        backoff_secs(0, max_backoff_secs) == 1,
        backoff_secs(1, max_backoff_secs) == 1,
        1 <= attempts <= 30 ==> backoff_secs((attempts + 1) as u32, max_backoff_secs) == (if 2
            * backoff_secs(attempts, max_backoff_secs) < max_backoff_secs {
            2 * backoff_secs(attempts, max_backoff_secs)
        } else {
            max_backoff_secs as int
        }),
        attempts >= 31 ==> backoff_secs(attempts, max_backoff_secs) == backoff_secs(
            31,
            max_backoff_secs,
        ),
{
    lemma_doubled_thirty();
    assert(doubled(0) == 1);
    if 1 <= attempts <= 30 {
        lemma_doubled_grows((attempts - 1) as nat, 30);
        lemma_doubled_grows(attempts as nat, 30);
        assert(doubled(attempts as nat) == 2 * doubled((attempts - 1) as nat));
    }
}

proof fn lemma_with_entry_keeps(
    pending: Seq<OutboxEntryView>,
    entry: OutboxEntryView,
    x: OutboxEntryView,
)
    requires
        numbered(pending),
        write_waits(pending, x),
        x.id == entry.id ==> same_write(entry, x),
    ensures
        write_waits(with_entry(pending, entry), x),
{
    let out = with_entry(pending, entry);
    let i = choose|i: int| 0 <= i < pending.len() && same_write(#[trigger] pending[i], x);
    let k = lemma_place_of(pending, entry.id, pending.len() as int);
    lemma_with_entry_at(pending, entry, k);
    if k > 0 && pending[k - 1].id == entry.id {
        assert(out[i] == if i == k - 1 {
            entry
        } else {
            pending[i]
        });
        assert(same_write(out[i], x));
    } else {
        let moved = if i < k {
            i
        } else {
            i + 1
        };
        assert(out[moved] == pending[i]);
        assert(same_write(out[moved], x));
    }
}

proof fn lemma_with_entry_holds(pending: Seq<OutboxEntryView>, entry: OutboxEntryView)
    requires
        numbered(pending),
    ensures
        with_entry(pending, entry).contains(entry),
{
    let out = with_entry(pending, entry);
    let k = lemma_place_of(pending, entry.id, pending.len() as int);
    lemma_with_entry_at(pending, entry, k);
    if k > 0 && pending[k - 1].id == entry.id {
        assert(out[k - 1] == entry);
    } else {
        assert(out[k] == entry);
    }
}

proof fn lemma_without_entry_keeps(
    pending: Seq<OutboxEntryView>,
    id: u64,
    x: OutboxEntryView,
)
    requires
        numbered(pending),
        write_waits(pending, x),
        x.id != id,
    ensures
        write_waits(without_entry(pending, id), x),
{
    let out = without_entry(pending, id);
    let i = choose|i: int| 0 <= i < pending.len() && same_write(#[trigger] pending[i], x);
    if waits(pending, id) {
        let k = choose|k: int| 0 <= k < pending.len() && (#[trigger] pending[k]).id == id;
        lemma_without_entry_at(pending, id, k);
        let moved = if i < k {
            i
        } else {
            i - 1
        };
        assert(out[moved] == pending[i]);
    } else {
        lemma_without_absent(pending, id);
        assert(same_write(out[i], x));
    }
}

/// What happens to an outbox: a write is taken in, one is put off, a peer takes one, the log is cleaned
/// up, or the outbox is opened anew on a log that was written anew.
pub enum Happening {
    TakenIn { entry: OutboxEntryView, bytes: u64, written: Result<u64, Seq<char>> },
    PutOff { entry: OutboxEntryView, now_ms: u64, written: Result<u64, Seq<char>> },
    Taken { id: u64, written: Result<u64, Seq<char>> },
    CleanedUp { compaction: Option<Result<u64, Seq<char>>> },
    OpenedAnew { log_bytes: u64 },
}

/// The outbox after something happened.
pub open spec fn happened(v: OutboxView, what: Happening) -> OutboxView {
    match what {
        Happening::TakenIn { entry, bytes, written } => match admitted(v, entry, bytes) {
            (w, Ok(taken)) => enqueued(w, taken, written).0,
            (w, Err(_)) => w,
        },
        Happening::PutOff { entry, now_ms, written } => rescheduled(
            v,
            deferred(entry, v.config.max_backoff_secs, now_ms),
            written,
        ).0,
        Happening::Taken { id, written } => acked(v, id, written).0,
        Happening::CleanedUp { compaction } => cleaned(v, compaction).0,
        Happening::OpenedAnew { log_bytes } => match outbox_opened(
            v.path,
            v.config,
            Ok((compact_records(v.pending), log_bytes)),
            v.metrics,
        ) {
            Ok(w) => w,
            Err(_) => v,
        },
    }
}

/// The writes that are put off are those that wait.
pub open spec fn in_turn(v: OutboxView, what: Happening) -> bool {
    match what {
        Happening::TakenIn { .. } => !waits(v.pending, v.next_id),
        Happening::PutOff { entry, .. } => v.pending.contains(entry),
        _ => true,
    }
}

/// A write that waits goes on waiting, with its number, its peer, its address, its key and its rows,
/// whatever happens, until its peer takes it.
pub proof fn law_write_waits_until_it_is_taken(
    v: OutboxView,
    entry: OutboxEntryView,
    what: Happening,
)
    requires
        numbered(v.pending),
        write_waits(v.pending, entry),
        in_turn(v, what),
        !(what matches Happening::Taken { id, .. } && id == entry.id),
    ensures
        numbered(happened(v, what).pending),
        write_waits(happened(v, what).pending, entry),
{
    let x = choose|i: int| 0 <= i < v.pending.len() && same_write(#[trigger] v.pending[i], entry);
    match what {
        Happening::TakenIn { entry: fresh, bytes, written } => {
            if admitted(v, fresh, bytes).1 is Ok {
                let put = admitted(v, fresh, bytes).1->Ok_0;
                assert(v.pending[x].id == entry.id);
                lemma_numbered_kept(v.pending, put, 0);
                lemma_with_entry_keeps(v.pending, put, entry);
            }
        },
        Happening::PutOff { entry: late, now_ms, written } => {
            let put = deferred(late, v.config.max_backoff_secs, now_ms);
            law_deferral_keeps_the_write(late, v.config.max_backoff_secs, now_ms);
            lemma_numbered_kept(v.pending, put, 0);
            let k = choose|k: int| 0 <= k < v.pending.len() && v.pending[k] == late;
            if entry.id == put.id {
                assert(v.pending[k].id == v.pending[x].id);
                assert(k == x);
            }
            lemma_with_entry_keeps(v.pending, put, entry);
        },
        Happening::Taken { id, written } => {
            lemma_numbered_kept(v.pending, entry, id);
            lemma_without_entry_keeps(v.pending, id, entry);
        },
        Happening::CleanedUp { compaction } => {},
        Happening::OpenedAnew { log_bytes } => {
            law_compacted_log_says_what_waits(v.pending);
        },
    }
}

/// A write that its peer took waits no longer, and nothing else is touched.
pub proof fn law_taken_write_is_gone(v: OutboxView, id: u64, written: u64)
    requires
        numbered(v.pending),
        waits(v.pending, id),
    ensures
        !waits(acked(v, id, Ok(written)).0.pending, id),
        acked(v, id, Ok(written)).0.pending.len() == v.pending.len() - 1,
        forall|x: OutboxEntryView| #[trigger]
            v.pending.contains(x) && x.id != id ==> acked(v, id, Ok(written)).0.pending.contains(x),
        acked(v, id, Ok(written)).1 is Ok,
        forall|message: Seq<char>|
            (#[trigger] acked(v, id, Err(message))).0 == v && acked(v, id, Err(message)).1 == Err::<
                (),
                Seq<char>,
            >(message),
{
    let k = choose|k: int| 0 <= k < v.pending.len() && (#[trigger] v.pending[k]).id == id;
    let after = acked(v, id, Ok(written)).0.pending;
    lemma_without_entry_at(v.pending, id, k);
    if waits(after, id) {
        let i = choose|i: int| 0 <= i < after.len() && (#[trigger] after[i]).id == id;
        let from = if i < k {
            i
        } else {
            i + 1
        };
        assert(v.pending[from].id == id);
    }
    assert forall|x: OutboxEntryView| #[trigger]
        v.pending.contains(x) && x.id != id implies after.contains(x) by {
        let i = choose|i: int| 0 <= i < v.pending.len() && v.pending[i] == x;
        let moved = if i < k {
            i
        } else {
            i - 1
        };
        assert(after[moved] == x);
    }
}

/// Tells the writes that are due.
pub open spec fn is_due(now_ms: u64) -> spec_fn(OutboxEntryView) -> bool {
    |entry: OutboxEntryView| entry.next_attempt_unix_ms <= now_ms
}

/// The writes of a round are the first of those that are due, as many as fit in it, in their order and
/// as they wait.
pub proof fn law_round_takes_the_first_due_writes(
    pending: Seq<OutboxEntryView>,
    now_ms: u64,
    max: nat,
)
    ensures
        ({
            let due = pending.filter(is_due(now_ms));
            due_at(pending, now_ms, max) == if due.len() <= max {
                due
            } else {
                due.take(max as int)
            }
        }),
    decreases pending.len(),
{
    reveal(Seq::filter);
    if pending.len() > 0 {
        law_round_takes_the_first_due_writes(pending.drop_last(), now_ms, max);
        let before = pending.drop_last().filter(is_due(now_ms));
        let due = pending.filter(is_due(now_ms));
        if before.len() > max {
            assert(due.take(max as int) =~= before.take(max as int));
        } else if before.len() == max && due.len() > max {
            assert(due.take(max as int) =~= before);
        }
    }
}

/// A write is taken in where it, its peer's writes and all writes together stay within their limits,
/// and refused otherwise, by the first limit that stands against it.
pub proof fn law_limits_decide(v: OutboxView, entry: OutboxEntryView, bytes: u64)
    requires
        v.queued_bytes + bytes <= u64::MAX,
        noted(v.peer_queued_bytes, entry.peer_node_id) + bytes <= u64::MAX,
    ensures
        admitted(v, entry, bytes).1 is Ok <==> bytes <= v.config.max_record_bytes && v.pending.len()
            < v.config.max_entries && v.queued_bytes + bytes <= v.config.max_bytes && noted(
            v.peer_queued_bytes,
            entry.peer_node_id,
        ) + bytes <= v.config.max_peer_bytes,
        admitted(v, entry, bytes).1 matches Ok(taken) ==> taken == (OutboxEntryView {
            id: v.next_id,
            queue_bytes: bytes,
            ..entry
        }),
        admitted(v, entry, bytes).0.pending == v.pending,
        admitted(v, entry, bytes).0.queued_bytes == v.queued_bytes,
        admitted(v, entry, bytes).0.peer_queued_bytes == v.peer_queued_bytes,
        admitted(v, entry, bytes).1 is Ok && v.next_id < u64::MAX ==> admitted(
            v,
            entry,
            bytes,
        ).0.next_id == v.next_id + 1,
{
}

/// Where the record of a write was not written, nothing waits that did not before.
pub proof fn law_unwritten_write_does_not_wait(
    v: OutboxView,
    entry: OutboxEntryView,
    message: Seq<char>,
)
    ensures
        enqueued(v, entry, Err(message)).0.pending == v.pending,
        enqueued(v, entry, Err(message)).0.queued_bytes == v.queued_bytes,
        enqueued(v, entry, Err(message)).1 is Err,
        rescheduled(v, entry, Err(message)).0.pending == v.pending,
{
}

/// The number of a record's write.
pub open spec fn number_of(loaded: LoadedView) -> u64 {
    match loaded.record {
        RecordView::Put { entry } => entry.id,
        RecordView::Ack { id } => id,
    }
}

/// After a restart a write waits as the last record of its number says: as it was put down, or not at
/// all where it was taken.
pub proof fn law_last_record_says_what_waits(records: Seq<LoadedView>, n: nat, r: int)
    requires
        0 <= r < n <= records.len(),
        forall|k: int| r < k < n ==> number_of(#[trigger] records[k]) != number_of(records[r]),
    ensures
        numbered(records_replayed(records, n).pending),
        match records[r].record {
            RecordView::Put { entry } => {
                &&& write_waits(
                    records_replayed(records, n).pending,
                    sized(entry, records[r].encoded_bytes),
                )
                &&& records_replayed(records, n).pending.contains(
                    sized(entry, records[r].encoded_bytes),
                )
            },
            RecordView::Ack { id } => !waits(records_replayed(records, n).pending, id),
        },
    decreases n,
{
    let m = (n - 1) as nat;
    let before = records_replayed(records, m).pending;
    let after = records_replayed(records, n).pending;
    lemma_replay_in_order(records, m);
    lemma_replay_in_order(records, n);
    if r < m {
        law_last_record_says_what_waits(records, m, r);
        let id = number_of(records[r]);
        assert(number_of(records[m as int]) != id);
        match records[m as int].record {
            RecordView::Put { entry: other } => {
                let put = sized(other, records[m as int].encoded_bytes);
                lemma_with_entry_exactly(before, put, id);
            },
            RecordView::Ack { id: other } => {
                lemma_without_entry_exactly(before, other, id);
            },
        }
        match records[r].record {
            RecordView::Put { entry } => {
                let x = sized(entry, records[r].encoded_bytes);
                assert(before.contains(x));
                assert(after.contains(x));
                let i = choose|i: int| 0 <= i < after.len() && after[i] == x;
                assert(same_write(after[i], x));
            },
            RecordView::Ack { .. } => {},
        }
    } else {
        match records[r].record {
            RecordView::Put { entry } => {
                let x = sized(entry, records[r].encoded_bytes);
                lemma_with_entry_holds(before, x);
                let i = choose|i: int| 0 <= i < after.len() && after[i] == x;
                assert(same_write(after[i], x));
            },
            RecordView::Ack { id } => {
                if waits(before, id) {
                    let k = choose|k: int| 0 <= k < before.len() && (#[trigger] before[k]).id == id;
                    lemma_without_entry_at(before, id, k);
                    if waits(after, id) {
                        let i = choose|i: int| 0 <= i < after.len() && (#[trigger] after[i]).id == id;
                        let from = if i < k {
                            i
                        } else {
                            i + 1
                        };
                        assert(before[from].id == id);
                    }
                } else {
                    lemma_without_absent(before, id);
                }
            },
        }
    }
}

proof fn lemma_replay_in_order(records: Seq<LoadedView>, n: nat)
    ensures
        numbered(records_replayed(records, n).pending),
    decreases n,
{
    if n > 0 {
        lemma_replay_in_order(records, (n - 1) as nat);
        let before = records_replayed(records, (n - 1) as nat).pending;
        match records[n - 1].record {
            RecordView::Put { entry } => {
                lemma_numbered_kept(before, sized(entry, records[n - 1].encoded_bytes), 0);
            },
            RecordView::Ack { id } => {
                if before.len() > 0 {
                    lemma_numbered_kept(before, before[0], id);
                }
            },
        }
    }
}

proof fn lemma_with_entry_exactly(
    pending: Seq<OutboxEntryView>,
    entry: OutboxEntryView,
    id: u64,
)
    requires
        numbered(pending),
        entry.id != id,
    ensures
        waits(with_entry(pending, entry), id) <==> waits(pending, id),
        forall|x: OutboxEntryView|
            pending.contains(x) && x.id == id ==> #[trigger] with_entry(pending, entry).contains(x),
{
    let out = with_entry(pending, entry);
    let k = lemma_place_of(pending, entry.id, pending.len() as int);
    lemma_with_entry_at(pending, entry, k);
    let replaced = k > 0 && pending[k - 1].id == entry.id;
    assert forall|i: int| 0 <= i < pending.len() && (#[trigger] pending[i]).id == id implies
        out.contains(pending[i]) by {
        let moved = if replaced || i < k {
            i
        } else {
            i + 1
        };
        assert(out[moved] == pending[i]);
    }
    if waits(pending, id) {
        let i = choose|i: int| 0 <= i < pending.len() && (#[trigger] pending[i]).id == id;
        assert(out.contains(pending[i]));
    }
    if waits(out, id) {
        let i = choose|i: int| 0 <= i < out.len() && (#[trigger] out[i]).id == id;
        let from = if replaced || i < k {
            i
        } else {
            i - 1
        };
        assert(pending[from] == out[i]);
    }
}

proof fn lemma_without_entry_exactly(pending: Seq<OutboxEntryView>, gone: u64, id: u64)
    requires
        numbered(pending),
        gone != id,
    ensures
        waits(without_entry(pending, gone), id) <==> waits(pending, id),
        forall|x: OutboxEntryView|
            pending.contains(x) && x.id == id ==> #[trigger] without_entry(pending, gone).contains(
                x,
            ),
{
    let out = without_entry(pending, gone);
    if waits(pending, gone) {
        let k = choose|k: int| 0 <= k < pending.len() && (#[trigger] pending[k]).id == gone;
        lemma_without_entry_at(pending, gone, k);
        assert forall|i: int| 0 <= i < pending.len() && (#[trigger] pending[i]).id == id implies
            out.contains(pending[i]) by {
            let moved = if i < k {
                i
            } else {
                i - 1
            };
            assert(out[moved] == pending[i]);
        }
        if waits(pending, id) {
            let i = choose|i: int| 0 <= i < pending.len() && (#[trigger] pending[i]).id == id;
            assert(out.contains(pending[i]));
        }
        if waits(out, id) {
            let i = choose|i: int| 0 <= i < out.len() && (#[trigger] out[i]).id == id;
            let from = if i < k {
                i
            } else {
                i + 1
            };
            assert(pending[from] == out[i]);
        }
    } else {
        lemma_without_absent(pending, gone);
    }
}

/// An outbox that is opened holds what the records of its log leave, and goes on from what was counted
/// before. One with settings that cannot hold, or whose log cannot be read, is not opened.
pub proof fn law_opened_outbox_holds_its_log(
    path: Seq<char>,
    config: OutboxConfig,
    records: Seq<LoadedView>,
    log_bytes: u64,
    former: OutboxMetricsSnapshot,
    pending: Seq<OutboxEntryView>,
)
    requires
        log_says(records, pending),
    ensures
        outbox_config_error(config) is None ==> outbox_opened(
            path,
            config,
            Ok((records, log_bytes)),
            former,
        ) is Ok,
        outbox_opened(path, config, Ok((records, log_bytes)), former) matches Ok(v) ==> v.pending
            == pending && v.path == path && v.config == config && v.metrics == former && v.log_bytes
            == log_bytes && v.active_stalled_peers.dom() =~= Set::<Seq<char>>::empty(),
        forall|message: Seq<char>|
            (#[trigger] outbox_opened(path, config, Err(message), former)) is Err,
{
}

/// Tells the writes for a peer.
pub open spec fn is_for(peer: Seq<char>) -> spec_fn(OutboxEntryView) -> bool {
    |entry: OutboxEntryView| entry.peer_node_id == peer
}

/// What is said of the writes for a peer: how many there are, and when the oldest came in.
pub proof fn law_backlog_of_a_peer(pending: Seq<OutboxEntryView>, peer: Seq<char>)
    ensures
        peer_entries(pending, peer) == pending.filter(is_for(peer)).len(),
        match peer_oldest(pending, peer) {
            Some(oldest) => {
                &&& exists|i: int|
                    0 <= i < pending.len() && (#[trigger] pending[i]).peer_node_id == peer
                        && pending[i].enqueued_unix_ms == oldest
                &&& forall|i: int|
                    0 <= i < pending.len() && (#[trigger] pending[i]).peer_node_id == peer
                        ==> oldest <= pending[i].enqueued_unix_ms
            },
            None => forall|i: int|
                0 <= i < pending.len() ==> (#[trigger] pending[i]).peer_node_id != peer,
        },
    decreases pending.len(),
{
    reveal(Seq::filter);
    if pending.len() > 0 {
        let front = pending.drop_last();
        law_backlog_of_a_peer(front, peer);
        assert(pending.last() == pending[pending.len() - 1]);
        assert forall|i: int| 0 <= i < front.len() implies #[trigger] pending[i] == front[i] by {}
        match peer_oldest(front, peer) {
            Some(oldest) => {
                let i = choose|i: int|
                    0 <= i < front.len() && (#[trigger] front[i]).peer_node_id == peer
                        && front[i].enqueued_unix_ms == oldest;
                assert(pending[i] == front[i]);
            },
            None => {},
        }
        assert forall|i: int|
            0 <= i < pending.len() && (#[trigger] pending[i]).peer_node_id == peer
                && peer_oldest(pending, peer) is Some implies peer_oldest(pending, peer)->0
            <= pending[i].enqueued_unix_ms by {
            if i < front.len() {
                assert(front[i].peer_node_id == peer);
            }
        }
    }
}

/// A peer counts as stalled where enough writes and bytes wait for it and the oldest of them for as
/// long as is allowed.
pub proof fn law_when_a_peer_is_stalled(v: OutboxView, peer: Seq<char>, now_ms: u64)
    requires
        v.config.stalled_peer_age_secs * 1000 <= u64::MAX,
    ensures
        is_stalled(v, peer, now_ms) ==> v.peer_queued_bytes.dom().contains(peer)
            && v.peer_queued_bytes[peer] >= v.config.stalled_peer_min_bytes && v.pending.filter(
            is_for(peer),
        ).len() >= v.config.stalled_peer_min_entries && exists|i: int|
            0 <= i < v.pending.len() && (#[trigger] v.pending[i]).peer_node_id == peer
                && v.pending[i].enqueued_unix_ms + v.config.stalled_peer_age_secs * 1000 <= now_ms
            || v.config.stalled_peer_age_secs == 0,
        forall|i: int|
            0 <= i < v.pending.len() && (#[trigger] v.pending[i]).peer_node_id == peer
                && v.pending[i].enqueued_unix_ms + v.config.stalled_peer_age_secs * 1000 <= now_ms
                && v.peer_queued_bytes.dom().contains(peer) && v.peer_queued_bytes[peer]
                >= v.config.stalled_peer_min_bytes && v.pending.filter(is_for(peer)).len()
                >= v.config.stalled_peer_min_entries ==> is_stalled(v, peer, now_ms),
{
    law_backlog_of_a_peer(v.pending, peer);
    assert forall|i: int|
        0 <= i < v.pending.len() && (#[trigger] v.pending[i]).peer_node_id == peer
            && v.pending[i].enqueued_unix_ms + v.config.stalled_peer_age_secs * 1000 <= now_ms
            && v.peer_queued_bytes.dom().contains(peer) && v.peer_queued_bytes[peer]
            >= v.config.stalled_peer_min_bytes && v.pending.filter(is_for(peer)).len()
            >= v.config.stalled_peer_min_entries implies is_stalled(v, peer, now_ms) by {
        lemma_some_for(v.pending, peer, i);
    }
}

proof fn lemma_some_for(pending: Seq<OutboxEntryView>, peer: Seq<char>, i: int)
    requires
        0 <= i < pending.len(),
        pending[i].peer_node_id == peer,
    ensures
        peer_entries(pending, peer) > 0,
    decreases pending.len(),
{
    if i < pending.len() - 1 {
        lemma_some_for(pending.drop_last(), peer, i);
    }
}

/// Bringing the figures up to date changes the figures alone, and they say what is there.
pub proof fn law_figures_say_what_is_there(v: OutboxView, listing: Seq<StalledView>)
    requires
        v.pending.len() <= u64::MAX,
        listing.len() <= u64::MAX,
    ensures
        refreshed(v, listing).pending == v.pending,
        refreshed(v, listing).peer_queued_bytes == v.peer_queued_bytes,
        refreshed(v, listing).next_id == v.next_id,
        refreshed(v, listing).metrics.queued_entries == v.pending.len(),
        refreshed(v, listing).metrics.queued_bytes == v.queued_bytes,
        refreshed(v, listing).metrics.log_bytes == v.log_bytes,
        v.log_records >= v.pending.len() ==> refreshed(v, listing).metrics.stale_records
            == v.log_records - v.pending.len(),
        refreshed(v, listing).metrics.stalled_peers == listing.len(),
        refreshed(v, listing).metrics.enqueued_total == v.metrics.enqueued_total,
        refreshed(v, listing).metrics.replay_success_total == v.metrics.replay_success_total,
        refreshed(v, listing).metrics.replay_failures_total == v.metrics.replay_failures_total,
        forall|i: int|
            0 <= i < listing.len() ==> (#[trigger] listing[i]).oldest_age_ms <= refreshed(
                v,
                listing,
            ).metrics.stalled_oldest_age_ms,
        listing.len() > 0 ==> exists|i: int|
            0 <= i < listing.len() && (#[trigger] listing[i]).oldest_age_ms == refreshed(
                v,
                listing,
            ).metrics.stalled_oldest_age_ms,
        forall|peer: Seq<char>| #[trigger]
            refreshed(v, listing).active_stalled_peers.dom().contains(peer) <==> exists|i: int|
                0 <= i < listing.len() && (#[trigger] listing[i]).node_id == peer,
{
    lemma_greatest_age(listing);
    lemma_stalled_since(listing);
}

proof fn lemma_greatest_age(listing: Seq<StalledView>)
    ensures
        forall|i: int|
            0 <= i < listing.len() ==> (#[trigger] listing[i]).oldest_age_ms <= greatest_age(
                listing,
            ),
        listing.len() > 0 ==> exists|i: int|
            0 <= i < listing.len() && (#[trigger] listing[i]).oldest_age_ms == greatest_age(listing),
    decreases listing.len(),
{
    if listing.len() > 0 {
        let front = listing.drop_last();
        lemma_greatest_age(front);
        assert(listing.last() == listing[listing.len() - 1]);
        assert forall|i: int| 0 <= i < front.len() implies #[trigger] listing[i] == front[i] by {}
        if front.len() > 0 {
            let i = choose|i: int|
                0 <= i < front.len() && (#[trigger] front[i]).oldest_age_ms == greatest_age(front);
            assert(listing[i] == front[i]);
        }
    }
}

proof fn lemma_stalled_since(listing: Seq<StalledView>)
    ensures
        forall|peer: Seq<char>| #[trigger]
            stalled_since(listing).dom().contains(peer) <==> exists|i: int|
                0 <= i < listing.len() && (#[trigger] listing[i]).node_id == peer,
    decreases listing.len(),
{
    if listing.len() > 0 {
        let front = listing.drop_last();
        lemma_stalled_since(front);
        assert(listing.last() == listing[listing.len() - 1]);
        assert forall|peer: Seq<char>| #[trigger] stalled_since(listing).dom().contains(peer)
            <==> exists|i: int| 0 <= i < listing.len() && (#[trigger] listing[i]).node_id == peer by {
            if stalled_since(front).dom().contains(peer) {
                let i = choose|i: int| 0 <= i < front.len() && (#[trigger] front[i]).node_id == peer;
                assert(listing[i] == front[i]);
            }
            if exists|i: int| 0 <= i < listing.len() && (#[trigger] listing[i]).node_id == peer {
                let i = choose|i: int|
                    0 <= i < listing.len() && (#[trigger] listing[i]).node_id == peer;
                if i < front.len() {
                    assert(front[i] == listing[i]);
                }
            }
        }
    }
}

/// An alert is counted for each peer that is stalled and was not before.
pub proof fn law_alerts_are_for_newly_stalled_peers(
    listing: Seq<StalledView>,
    before: Map<Seq<char>, u64>,
)
    ensures
        newly_stalled(listing, before) == listing.filter(
            |stalled: StalledView| !before.dom().contains(stalled.node_id),
        ).len(),
    decreases listing.len(),
{
    reveal(Seq::filter);
    if listing.len() > 0 {
        law_alerts_are_for_newly_stalled_peers(listing.drop_last(), before);
    }
}

/// A write that was sent again is done where the peer stored all its rows, and put off otherwise.
pub proof fn law_all_rows_must_be_stored(rows: nat, inserted: usize, message: Seq<char>)
    ensures
        replay_verdict(rows, Ok(inserted)) is Done <==> inserted == rows,
        replay_verdict(rows, Err(message)) == (VerdictView::Defer { reason: message }),
{
}

/// The log is written anew where it holds records that say nothing any more, and either enough of them
/// or too many bytes.
pub proof fn law_when_the_log_is_written_anew(v: OutboxView)
    requires
        v.pending.len() <= v.log_records,
    ensures
        worth_compacting(v) <==> v.log_records > v.pending.len() && (v.log_records - v.pending.len()
            >= v.config.cleanup_min_stale_records || v.log_bytes > v.config.max_log_bytes),
        forall|bytes: u64|
            !worth_compacting(#[trigger] log_compacted(v, bytes)) && log_compacted(
                v,
                bytes,
            ).log_bytes == bytes && log_compacted(v, bytes).peer_queued_bytes
                == v.peer_queued_bytes && log_compacted(v, bytes).next_id == v.next_id,
{
}

/// What is told of a peer is what waits for it: how many writes, how many bytes, and since when.
pub proof fn law_what_is_told_of_a_peer(v: OutboxView, peer: Seq<char>, now_ms: u64)
    requires
        v.pending.len() <= u64::MAX,
    ensures
        ({
            let told = peer_backlog(v, peer);
            &&& told.node_id == peer
            &&& told.queued_entries == v.pending.filter(is_for(peer)).len()
            &&& told.queued_bytes == v.peer_queued_bytes[peer]
            &&& told.oldest_enqueued_unix_ms == peer_oldest(v.pending, peer)
        }),
        peer_oldest(v.pending, peer) matches Some(oldest) ==> {
            let told = stalled_report(v, peer, now_ms);
            &&& told.node_id == peer
            &&& told.queued_entries == v.pending.filter(is_for(peer)).len()
            &&& told.queued_bytes == v.peer_queued_bytes[peer]
            &&& told.oldest_enqueued_unix_ms == oldest
            &&& oldest <= now_ms ==> told.oldest_age_ms == now_ms - oldest
            &&& v.active_stalled_peers.dom().contains(peer) ==> told.first_stalled_unix_ms
                == v.active_stalled_peers[peer]
            &&& !v.active_stalled_peers.dom().contains(peer) ==> told.first_stalled_unix_ms == now_ms
        },
{
    law_backlog_of_a_peer(v.pending, peer);
    lemma_entries_fit(v.pending, peer);
}

proof fn lemma_entries_fit(pending: Seq<OutboxEntryView>, peer: Seq<char>)
    ensures
        peer_entries(pending, peer) <= pending.len(),
    decreases pending.len(),
{
    if pending.len() > 0 {
        lemma_entries_fit(pending.drop_last(), peer);
    }
}

/// A write that is put off waits in its place from then on as it was put off, with its new time and count
/// of attempts, and nothing else changes; one that no longer waits is not brought back.
pub proof fn law_putting_off_takes_effect(
    v: OutboxView,
    i: int,
    now_ms: u64,
    written: u64,
    gone: OutboxEntryView,
)
    requires
        numbered(v.pending),
        0 <= i < v.pending.len(),
    ensures
        ({
            let late = deferred(v.pending[i], v.config.max_backoff_secs, now_ms);
            let after = rescheduled(v, late, Ok(written)).0;
            &&& after.pending.len() == v.pending.len()
            &&& after.pending[i] == late
            &&& forall|k: int|
                0 <= k < v.pending.len() && k != i ==> #[trigger] after.pending[k] == v.pending[k]
            &&& after.queued_bytes == v.queued_bytes
            &&& after.peer_queued_bytes == v.peer_queued_bytes
            &&& after.next_id == v.next_id
            &&& rescheduled(v, late, Ok(written)).1 is Ok
        }),
        !waits(v.pending, gone.id) ==> rescheduled(v, gone, Ok(written)).0 == v,
{
    let late = deferred(v.pending[i], v.config.max_backoff_secs, now_ms);
    assert(v.pending[i].id == late.id);
    assert(waits(v.pending, late.id));
    lemma_with_entry_at(v.pending, late, i + 1);
}

/// Writing to the log makes it longer by the record; cleaning up makes it as long as what was written anew,
/// and counts what was saved.
pub proof fn law_log_is_as_long_as_what_is_written(
    v: OutboxView,
    entry: OutboxEntryView,
    id: u64,
    written: u64,
)
    requires
        v.log_bytes + written <= u64::MAX,
        v.log_records < u64::MAX,
        v.metrics.cleanup_compactions_total < u64::MAX,
        v.metrics.cleanup_reclaimed_bytes_total + v.log_bytes <= u64::MAX,
        v.metrics.enqueued_total < u64::MAX,
        v.pending.len() <= u64::MAX,
    ensures
        ({
            let after = enqueued(v, entry, Ok(written)).0;
            &&& after.log_bytes == v.log_bytes + written
            &&& after.log_records == v.log_records + 1
            &&& after.metrics == (OutboxMetricsSnapshot {
                enqueued_total: (v.metrics.enqueued_total + 1) as u64,
                ..v.metrics
            })
        }),
        waits(v.pending, id) ==> acked(v, id, Ok(written)).0.log_bytes == v.log_bytes + written
            && acked(v, id, Ok(written)).0.log_records == v.log_records + 1,
        waits(v.pending, entry.id) ==> rescheduled(v, entry, Ok(written)).0.log_bytes == v.log_bytes
            + written && rescheduled(v, entry, Ok(written)).0.log_records == v.log_records + 1,
        ({
            let after = cleaned(v, Some(Ok(written))).0;
            &&& after.pending == v.pending
            &&& after.log_bytes == written
            &&& after.log_records == v.pending.len()
            &&& after.metrics.cleanup_compactions_total == v.metrics.cleanup_compactions_total + 1
            &&& written <= v.log_bytes ==> after.metrics.cleanup_reclaimed_bytes_total
                == v.metrics.cleanup_reclaimed_bytes_total + (v.log_bytes - written)
            &&& written > v.log_bytes ==> after.metrics.cleanup_reclaimed_bytes_total
                == v.metrics.cleanup_reclaimed_bytes_total
        }),
        cleaned(v, None).0 == v,
{
}

/// No number is given twice: after a restart the next number is above every number that the log ever
/// named, of writes that wait and of those that are gone.
pub proof fn law_no_number_is_given_twice(records: Seq<LoadedView>, n: nat, r: int)
    requires
        0 <= r < n <= records.len(),
        number_of(records[r]) < u64::MAX,
    ensures
        number_of(records[r]) < records_replayed(records, n).next_id,
    decreases n,
{
    if r < n - 1 {
        law_no_number_is_given_twice(records, (n - 1) as nat, r);
    }
}

/// Bringing the figures up to date counts one alert for each peer that is stalled and was not before.
pub proof fn law_alerts_are_counted(v: OutboxView, listing: Seq<StalledView>)
    requires
        v.metrics.stalled_alerts_total + listing.len() <= u64::MAX,
    ensures
        refreshed(v, listing).metrics.stalled_alerts_total == v.metrics.stalled_alerts_total
            + listing.filter(
            |stalled: StalledView| !v.active_stalled_peers.dom().contains(stalled.node_id),
        ).len(),
        forall|i: int|
            0 <= i < listing.len() && (forall|k: int|
                i < k < listing.len() ==> (#[trigger] listing[k]).node_id != listing[i].node_id)
                ==> refreshed(v, listing).active_stalled_peers[(#[trigger] listing[i]).node_id]
                == listing[i].first_stalled_unix_ms,
{
    law_alerts_are_for_newly_stalled_peers(listing, v.active_stalled_peers);
    lemma_filter_len(
        listing,
        |stalled: StalledView| !v.active_stalled_peers.dom().contains(stalled.node_id),
    );
    assert forall|i: int|
        0 <= i < listing.len() && (forall|k: int|
            i < k < listing.len() ==> (#[trigger] listing[k]).node_id != listing[i].node_id) implies
        refreshed(v, listing).active_stalled_peers[(#[trigger] listing[i]).node_id]
        == listing[i].first_stalled_unix_ms by {
        lemma_since_when(listing, i);
    }
}

proof fn lemma_since_when(listing: Seq<StalledView>, i: int)
    requires
        0 <= i < listing.len(),
        forall|k: int|
            i < k < listing.len() ==> (#[trigger] listing[k]).node_id != listing[i].node_id,
    ensures
        stalled_since(listing)[listing[i].node_id] == listing[i].first_stalled_unix_ms,
    decreases listing.len(),
{
    if i < listing.len() - 1 {
        let front = listing.drop_last();
        assert(listing.last() == listing[listing.len() - 1]);
        assert forall|k: int| i < k < front.len() implies (#[trigger] front[k]).node_id
            != front[i].node_id by {
            assert(listing[k].node_id != listing[i].node_id);
        }
        lemma_since_when(front, i);
    }
}

proof fn lemma_filter_len<A>(s: Seq<A>, p: spec_fn(A) -> bool)
    ensures
        s.filter(p).len() <= s.len(),
    decreases s.len(),
{
    reveal(Seq::filter);
    if s.len() > 0 {
        lemma_filter_len(s.drop_last(), p);
    }
}

/// A write that is refused is told which limit stands against it, what the limit is, and what there is
/// already; one more refusal is counted, and nothing else changes.
pub proof fn law_what_a_refused_write_is_told(v: OutboxView, entry: OutboxEntryView, bytes: u64)
    requires
        v.queued_bytes + bytes <= u64::MAX,
        noted(v.peer_queued_bytes, entry.peer_node_id) + bytes <= u64::MAX,
        v.metrics.enqueue_rejected_total < u64::MAX,
    ensures
        admitted(v, entry, bytes).1 matches Err(error) ==> {
            let config = v.config;
            &&& admitted(v, entry, bytes).0 == (OutboxView {
                metrics: OutboxMetricsSnapshot {
                    enqueue_rejected_total: (v.metrics.enqueue_rejected_total + 1) as u64,
                    ..v.metrics
                },
                ..v
            })
            &&& match error {
                EnqueueErrorView::RecordTooLarge { bytes: size, max_bytes } => size == bytes
                    && max_bytes == config.max_record_bytes && bytes > config.max_record_bytes,
                EnqueueErrorView::TotalEntriesLimit { max_entries } => max_entries
                    == config.max_entries && v.pending.len() >= config.max_entries,
                EnqueueErrorView::TotalBytesLimit { max_bytes, queued_bytes, record_bytes } =>
                    max_bytes == config.max_bytes && queued_bytes == v.queued_bytes && record_bytes
                    == bytes && v.queued_bytes + bytes > config.max_bytes,
                EnqueueErrorView::PeerBytesLimit {
                    node_id,
                    max_peer_bytes,
                    peer_queued_bytes,
                    record_bytes,
                } => node_id == entry.peer_node_id && max_peer_bytes == config.max_peer_bytes
                    && peer_queued_bytes == noted(v.peer_queued_bytes, entry.peer_node_id)
                    && record_bytes == bytes && noted(v.peer_queued_bytes, entry.peer_node_id)
                    + bytes > config.max_peer_bytes,
                _ => false,
            }
        },
{
}

/// What is sent to a peer when its time has come is the write as it was asked for: under the same key,
/// with all the rows, each in its place, and asking for the same.
pub proof fn law_what_is_sent_again_is_the_write(
    request: InternalIngestRowsRequest,
    entry: OutboxEntryView,
    peer: Seq<char>,
    endpoint: Seq<char>,
    key: Seq<char>,
    ring_version: u64,
    capabilities: Seq<Seq<char>>,
    rows: Seq<RowView>,
    now_ms: u64,
    id: u64,
    bytes: u64,
)
    requires
        same_write(
            entry,
            OutboxEntryView {
                id,
                queue_bytes: bytes,
                ..replica_write(peer, endpoint, key, ring_version, capabilities, rows, now_ms)
            },
        ),
        sends_again(request, entry),
    ensures
        entry.endpoint == endpoint,
        entry.peer_node_id == peer,
        opt_text(request.idempotency_key) == Some(key),
        request.rows@.len() == rows.len(),
        forall|i: int| 0 <= i < rows.len() ==> (#[trigger] request.rows@[i])@ == rows[i],
        ring_version >= 1 ==> request.ring_version == ring_version,
        request.ring_version >= 1,
        forall|text: Seq<char>| #[trigger]
            views(request.required_capabilities@).contains(text) <==> text.len() > 0 && exists|i: int|
                0 <= i < capabilities.len() && trimmed(#[trigger] capabilities[i]) == text,
{
    law_write_holds_what_was_asked_for(
        peer,
        endpoint,
        key,
        ring_version,
        capabilities,
        rows,
        now_ms,
    );
    assert(views(request.rows@).len() == request.rows@.len());
    assert forall|i: int| 0 <= i < rows.len() implies (#[trigger] request.rows@[i])@ == rows[i] by {
        assert(views(request.rows@)[i] == request.rows@[i]@);
    }
}

} // verus!
