//! Walks over maps and sets that are keyed by shard, in the order of the shards.

use std::collections::{BTreeMap, BTreeSet};
use vstd::laws_cmp::obeys_cmp;
use vstd::prelude::*;
use vstd::std_specs::btree::increasing_seq;
use vstd::std_specs::cmp::OrdSpec;
use vstd::std_specs::iter::IteratorSpec;

verus! {

/// Numbers in ascending order.
pub open spec fn shards_ascending(s: Seq<u32>) -> bool {
    forall|i: int, j: int| 0 <= i < j < s.len() ==> #[trigger] s[i] < #[trigger] s[j]
}

/// Whether some numbers are those of a set, each once and in ascending order.
pub open spec fn is_shard_order(order: Seq<u32>, shards: Set<u32>) -> bool {
    &&& shards_ascending(order)
    &&& forall|shard: u32| #[trigger] order.contains(shard) <==> shards.contains(shard)
}

/// The numbers of a set in ascending order.
pub open spec fn shard_order(shards: Set<u32>) -> Seq<u32> {
    choose|order: Seq<u32>| is_shard_order(order, shards)
}

/// There is one ascending order of a set.
pub proof fn law_one_shard_order(a: Seq<u32>, b: Seq<u32>, shards: Set<u32>)
    requires
        is_shard_order(a, shards),
        is_shard_order(b, shards),
    ensures
        a == b,
        shard_order(shards) == a,
{
    lemma_same_order(a, b);
    assert(is_shard_order(shard_order(shards), shards));
    lemma_same_order(shard_order(shards), a);
}

proof fn lemma_same_order(a: Seq<u32>, b: Seq<u32>)
    requires
        shards_ascending(a),
        shards_ascending(b),
        forall|shard: u32|
            #![trigger a.contains(shard)]
            #![trigger b.contains(shard)]
            a.contains(shard) <==> b.contains(shard),
    ensures
        a == b,
    decreases a.len(),
{
    if a.len() == 0 {
        if b.len() > 0 {
            assert(b.contains(b[0]));
        }
        assert(a =~= b);
    } else {
        let last = a.last();
        assert(a.contains(last));
        let k = choose|k: int| 0 <= k < b.len() && b[k] == last;
        assert(b.contains(b.last()));
        let m = choose|m: int| 0 <= m < a.len() && a[m] == b.last();
        assert(b.last() == last) by {
            if m < a.len() - 1 {
                assert(a[m] < a[a.len() - 1]);
            }
            if k < b.len() - 1 {
                assert(b[k] < b[b.len() - 1]);
            }
        }
        let x = a.drop_last();
        let y = b.drop_last();
        assert forall|shard: u32| #[trigger] x.contains(shard) <==> y.contains(shard) by {
            if x.contains(shard) {
                let i = choose|i: int| 0 <= i < x.len() && x[i] == shard;
                assert(a[i] == shard && a[i] < a[a.len() - 1]);
                assert(a.contains(shard));
                let j = choose|j: int| 0 <= j < b.len() && b[j] == shard;
                assert(y[j] == shard);
            }
            if y.contains(shard) {
                let i = choose|i: int| 0 <= i < y.len() && y[i] == shard;
                assert(b[i] == shard && b[i] < b[b.len() - 1]);
                assert(b.contains(shard));
                let j = choose|j: int| 0 <= j < a.len() && a[j] == shard;
                assert(x[j] == shard);
            }
        }
        lemma_same_order(x, y);
        assert(a =~= x.push(last));
        assert(b =~= y.push(last));
    }
}

proof fn lemma_increasing(numbers: Seq<u32>)
    requires
        increasing_seq(numbers),
    ensures
        shards_ascending(numbers),
{
    assert forall|i: int, j: int| 0 <= i < j < numbers.len() implies #[trigger] numbers[i]
        < #[trigger] numbers[j] by {
        assert(numbers[i].cmp_spec(&numbers[j]) is Less);
    }
}

proof fn lemma_increasing_refs(numbers: Seq<&u32>)
    requires
        increasing_seq(numbers),
    ensures
        shards_ascending(numbers.unref()),
{
    assert(obeys_cmp::<&u32>());
    assert forall|i: int, j: int| 0 <= i < j < numbers.len() implies #[trigger] numbers.unref()[i]
        < #[trigger] numbers.unref()[j] by {
        assert(OrdSpec::cmp_spec(&numbers[i], &numbers[j]) is Less);
    }
}

/// The shards of a map in order.
pub(crate) fn shards_in_order<V>(map: &BTreeMap<u32, V>) -> (res: Vec<u32>)
    ensures
        is_shard_order(res@, map@.dom()),
        res@ == shard_order(map@.dom()),
{
    let walk = map.iter();
    let ghost entries = walk.remaining();
    let ghost numbers = entries.map_values(|entry: (&u32, &V)| *entry.0);
    proof {
        lemma_increasing(numbers);
    }
    let mut order: Vec<u32> = Vec::new();
    for entry in it: walk
        invariant
            it.seq() == entries,
            order@ == entries.take(it.index() as int).map_values(|entry: (&u32, &V)| *entry.0),
    {
        order.push(*entry.0);
        assert(order@ =~= entries.take(it.index() + 1).map_values(|entry: (&u32, &V)| *entry.0));
    }
    assert(entries.take(entries.len() as int) =~= entries);
    assert forall|shard: u32| #[trigger] numbers.contains(shard) <==> map@.dom().contains(shard) by {
        if numbers.contains(shard) {
            let i = choose|i: int| 0 <= i < numbers.len() && numbers[i] == shard;
            assert(map@.contains_key(*entries[i].0));
        }
        if map@.contains_key(shard) {
            let i = choose|i: int| 0 <= i < entries.len() && entries[i] == (&shard, &map@[shard]);
            assert(numbers[i] == shard);
        }
    }
    proof {
        law_one_shard_order(numbers, numbers, map@.dom());
    }
    order
}

/// The shards of a set in order.
pub(crate) fn set_in_order(shards: &BTreeSet<u32>) -> (res: Vec<u32>)
    ensures
        is_shard_order(res@, shards@),
        res@ == shard_order(shards@),
{
    let walk = shards.iter();
    let ghost numbers = walk.remaining().unref();
    proof {
        lemma_increasing_refs(walk.remaining());
    }
    let mut order: Vec<u32> = Vec::new();
    for shard in it: walk
        invariant
            it.seq().unref() == numbers,
            order@ == numbers.take(it.index() as int),
    {
        order.push(*shard);
        assert(order@ =~= numbers.take(it.index() + 1));
    }
    assert(numbers.take(numbers.len() as int) =~= numbers);
    assert forall|shard: u32| #[trigger] numbers.contains(shard) <==> shards@.contains(shard) by {
        assert(numbers.to_set().contains(shard) <==> numbers.contains(shard));
    }
    proof {
        law_one_shard_order(numbers, numbers, shards@);
    }
    order
}

} // verus!
