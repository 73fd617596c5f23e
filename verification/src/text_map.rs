//! Maps keyed by text, kept in the order of their keys.

use vstd::prelude::*;
use crate::lists::{
    group_views, lemma_text_less_irreflexive, lemma_text_less_total, lemma_text_less_transitive,
    texts_ascending,
};
use crate::text::{less, same, text_less};

verus! {

broadcast use group_views;

/// A key and its value.
#[derive(Debug, PartialEq, Eq)]
struct TextEntry<V> {
    key: String,
    value: V,
}

/// A map keyed by text.
#[derive(Debug, PartialEq, Eq)]
pub struct TextMap<V> {
    entries: Vec<TextEntry<V>>,
}

spec fn keys_of<V>(entries: Seq<TextEntry<V>>) -> Seq<Seq<char>> {
    Seq::new(entries.len(), |i: int| entries[i].key@)
}

spec fn map_of<V>(entries: Seq<TextEntry<V>>) -> Map<Seq<char>, V> {
    Map::new(
        |key: Seq<char>| keys_of(entries).contains(key),
        |key: Seq<char>| entries[keys_of(entries).index_of(key)].value,
    )
}

proof fn lemma_key_index<V>(entries: Seq<TextEntry<V>>, i: int)
    requires
        texts_ascending(keys_of(entries)),
        0 <= i < entries.len(),
    ensures
        keys_of(entries).contains(entries[i].key@),
        keys_of(entries).index_of(entries[i].key@) == i,
        map_of(entries).dom().contains(entries[i].key@),
        map_of(entries)[entries[i].key@] == entries[i].value,
{
    let keys = keys_of(entries);
    let key = entries[i].key@;
    assert(keys[i] == key);
    assert(keys.contains(key));
    let k = keys.index_of(key);
    assert(0 <= k < keys.len() && keys[k] == key);
    if k < i {
        assert(text_less(keys[k], keys[i]));
        lemma_text_less_irreflexive(key);
    } else if i < k {
        assert(text_less(keys[i], keys[k]));
        lemma_text_less_irreflexive(key);
    }
}

impl<V> View for TextMap<V> {
    type V = Map<Seq<char>, V>;

    closed spec fn view(&self) -> Map<Seq<char>, V> {
        map_of(self.entries@)
    }
}

impl<V> TextMap<V> {
    #[verifier::type_invariant]
    spec fn ordered(self) -> bool {
        texts_ascending(keys_of(self.entries@))
    }

    /// The keys in ascending order.
    pub closed spec fn keys(&self) -> Seq<Seq<char>> {
        keys_of(self.entries@)
    }

    /// The map without entries.
    pub fn new() -> (res: Self)
        ensures
            res@ == Map::<Seq<char>, V>::empty(),
            res.keys() == Seq::<Seq<char>>::empty(),
    {
        let res = TextMap { entries: Vec::new() };
        assert(res@ =~= Map::<Seq<char>, V>::empty());
        assert(res.keys() =~= Seq::<Seq<char>>::empty());
        res
    }

    /// Every key is listed, in order, and nothing else is.
    pub fn len(&self) -> (res: usize)
        ensures
            res == self.keys().len(),
            texts_ascending(self.keys()),
            forall|key: Seq<char>| #[trigger] self.keys().contains(key) <==> self@.dom().contains(key),
    {
        proof {
            use_type_invariant(self);
        }
        self.entries.len()
    }

    /// The key at a place.
    pub fn key_at(&self, i: usize) -> (res: &str)
        requires
            i < self.keys().len(),
        ensures
            res@ == self.keys()[i as int],
            self@.dom().contains(res@),
    {
        proof {
            use_type_invariant(self);
            lemma_key_index(self.entries@, i as int);
        }
        self.entries[i].key.as_str()
    }

    /// The value at a place.
    pub fn value_at(&self, i: usize) -> (res: &V)
        requires
            i < self.keys().len(),
        ensures
            self@.dom().contains(self.keys()[i as int]),
            *res == self@[self.keys()[i as int]],
    {
        proof {
            use_type_invariant(self);
            lemma_key_index(self.entries@, i as int);
        }
        &self.entries[i].value
    }

    fn locate(&self, key: &str) -> (res: Option<usize>)
        ensures
            match res {
                Some(i) => i < self.entries.len() && self.entries@[i as int].key@ == key@
                    && self@.dom().contains(key@) && self@[key@] == self.entries@[i as int].value,
                None => !self@.dom().contains(key@),
            },
    {
        let mut i: usize = 0;
        while i < self.entries.len()
            invariant
                i <= self.entries.len(),
                forall|j: int| 0 <= j < i ==> (#[trigger] self.entries@[j]).key@ != key@,
            decreases self.entries.len() - i,
        {
            if same(&self.entries[i].key, key) {
                proof {
                    use_type_invariant(self);
                    lemma_key_index(self.entries@, i as int);
                }
                return Some(i);
            }
            i += 1;
        }
        assert(!keys_of(self.entries@).contains(key@)) by {
            if keys_of(self.entries@).contains(key@) {
                let k = choose|k: int|
                    0 <= k < self.entries@.len() && keys_of(self.entries@)[k] == key@;
                assert(self.entries@[k].key@ == key@);
            }
        }
        None
    }

    /// The value of a key.
    pub fn get(&self, key: &str) -> (res: Option<&V>)
        ensures
            match res {
                Some(value) => self@.dom().contains(key@) && *value == self@[key@],
                None => !self@.dom().contains(key@),
            },
    {
        match self.locate(key) {
            Some(i) => Some(&self.entries[i].value),
            None => None,
        }
    }

    pub fn contains_key(&self, key: &str) -> (res: bool)
        ensures
            res == self@.dom().contains(key@),
    {
        self.locate(key).is_some()
    }

    /// Gives a key a value.
    pub fn insert(&mut self, key: String, value: V)
        ensures
            final(self)@ == old(self)@.insert(key@, value),
    {
        proof {
            use_type_invariant(&*self);
        }
        let at = self.locate(&key);
        let ghost before = self.entries@;
        let mut entries: Vec<TextEntry<V>> = Vec::new();
        std::mem::swap(&mut entries, &mut self.entries);
        match at {
            Some(i) => {
                entries.set(i, TextEntry { key, value });
                assert(keys_of(entries@) =~= keys_of(before));
                proof {
                    lemma_key_index(before, i as int);
                    assert(map_of(entries@) =~= map_of(before).insert(key@, value)) by {
                        assert forall|k: Seq<char>| map_of(entries@).dom().contains(k) implies
                            #[trigger] map_of(entries@)[k] == map_of(before).insert(key@, value)[k] by {
                            let p = keys_of(before).index_of(k);
                            assert(keys_of(before)[p] == k);
                            if k != key@ {
                                assert(p != i);
                            }
                        }
                    }
                }
            },
            None => {
                let mut p: usize = 0;
                while p < entries.len() && less(&entries[p].key, &key)
                    invariant
                        p <= entries.len(),
                        entries@ == before,
                        forall|j: int| 0 <= j < p ==> text_less((#[trigger] before[j]).key@, key@),
                    decreases entries.len() - p,
                {
                    p += 1;
                }
                let ghost fresh = TextEntry { key, value };
                proof {
                    lemma_place(before, fresh, p as int);
                }
                entries.insert(p, TextEntry { key, value });
            },
        }
        self.entries = entries;
    }

    /// Takes a key out.
    pub fn remove(&mut self, key: &str)
        ensures
            final(self)@ == old(self)@.remove(key@),
    {
        proof {
            use_type_invariant(&*self);
        }
        let at = self.locate(key);
        let ghost before = self.entries@;
        match at {
            Some(i) => {
                let mut entries: Vec<TextEntry<V>> = Vec::new();
                std::mem::swap(&mut entries, &mut self.entries);
                proof {
                    lemma_taken_out(before, i as int);
                }
                entries.remove(i);
                self.entries = entries;
            },
            None => {
                assert(map_of(before) =~= map_of(before).remove(key@));
            },
        }
    }
}

proof fn lemma_taken_out<V>(before: Seq<TextEntry<V>>, p: int)
    requires
        texts_ascending(keys_of(before)),
        0 <= p < before.len(),
    ensures
        texts_ascending(keys_of(before.remove(p))),
        map_of(before.remove(p)) == map_of(before).remove(before[p].key@),
{
    let after = before.remove(p);
    let old_keys = keys_of(before);
    let keys = keys_of(after);
    assert forall|i: int| 0 <= i < keys.len() implies #[trigger] keys[i] == old_keys[if i < p {
        i
    } else {
        i + 1
    }] by {}
    assert forall|k: Seq<char>| #[trigger] keys.contains(k) <==> old_keys.contains(k) && k
        != before[p].key@ by {
        if keys.contains(k) {
            let i = choose|i: int| 0 <= i < keys.len() && keys[i] == k;
            let j = if i < p {
                i
            } else {
                i + 1
            };
            assert(old_keys[j] == k);
            assert(old_keys[p] == before[p].key@);
            if j < p {
                assert(text_less(old_keys[j], old_keys[p]));
            } else {
                assert(text_less(old_keys[p], old_keys[j]));
            }
            lemma_text_less_irreflexive(k);
        }
        if old_keys.contains(k) && k != before[p].key@ {
            let j = choose|j: int| 0 <= j < old_keys.len() && old_keys[j] == k;
            let i = if j < p {
                j
            } else {
                j - 1
            };
            assert(keys[i] == k);
        }
    }
    assert(map_of(after) =~= map_of(before).remove(before[p].key@)) by {
        assert forall|k: Seq<char>| map_of(after).dom().contains(k) implies #[trigger] map_of(
            after,
        )[k] == map_of(before).remove(before[p].key@)[k] by {
            assert(keys.contains(k));
            let i = keys.index_of(k);
            assert(keys[i] == k);
            lemma_key_index(after, i);
            let j = if i < p {
                i
            } else {
                i + 1
            };
            assert(after[i] == before[j]);
            lemma_key_index(before, j);
        }
    }
}

proof fn lemma_place<V>(before: Seq<TextEntry<V>>, fresh: TextEntry<V>, p: int)
    requires
        texts_ascending(keys_of(before)),
        !map_of(before).dom().contains(fresh.key@),
        0 <= p <= before.len(),
        forall|j: int| 0 <= j < p ==> text_less((#[trigger] before[j]).key@, fresh.key@),
        p < before.len() ==> !text_less(before[p].key@, fresh.key@),
    ensures
        texts_ascending(keys_of(before.insert(p, fresh))),
        map_of(before.insert(p, fresh)) == map_of(before).insert(fresh.key@, fresh.value),
{
    let after = before.insert(p, fresh);
    let old_keys = keys_of(before);
    let keys = keys_of(after);
    assert forall|j: int| p <= j < before.len() implies text_less(
        fresh.key@,
        (#[trigger] before[j]).key@,
    ) by {
        assert(old_keys[p] == before[p].key@);
        assert(old_keys[j] == before[j].key@);
        assert(old_keys.contains(old_keys[p]));
        lemma_text_less_total(fresh.key@, before[p].key@);
        if p < j {
            assert(text_less(old_keys[p], old_keys[j]));
            lemma_text_less_transitive(fresh.key@, before[p].key@, before[j].key@);
        }
    }
    assert forall|i: int, j: int| 0 <= i < j < keys.len() implies text_less(
        #[trigger] keys[i],
        #[trigger] keys[j],
    ) by {
        let a = if i < p {
            i
        } else {
            i - 1
        };
        let b = if j < p {
            j
        } else {
            j - 1
        };
        if i != p {
            assert(after[i] == before[a]);
            assert(old_keys[a] == before[a].key@);
        }
        if j != p {
            assert(after[j] == before[b]);
            assert(old_keys[b] == before[b].key@);
        }
        if i != p && j != p {
            assert(text_less(old_keys[a], old_keys[b]));
        }
    }
    assert forall|k: Seq<char>| #[trigger] keys.contains(k) <==> old_keys.contains(k) || k
        == fresh.key@ by {
        if keys.contains(k) {
            let i = choose|i: int| 0 <= i < keys.len() && keys[i] == k;
            if i < p {
                assert(old_keys[i] == k);
            } else if i > p {
                assert(old_keys[i - 1] == k);
            }
        }
        if old_keys.contains(k) {
            let i = choose|i: int| 0 <= i < old_keys.len() && old_keys[i] == k;
            if i < p {
                assert(keys[i] == k);
            } else {
                assert(keys[i + 1] == k);
            }
        }
        if k == fresh.key@ {
            assert(keys[p] == k);
        }
    }
    assert(map_of(after) =~= map_of(before).insert(fresh.key@, fresh.value)) by {
        assert forall|k: Seq<char>| map_of(after).dom().contains(k) implies #[trigger] map_of(
            after,
        )[k] == map_of(before).insert(fresh.key@, fresh.value)[k] by {
            assert(keys.contains(k));
            let i = keys.index_of(k);
            assert(keys[i] == k);
            lemma_key_index(after, i);
            if i < p {
                assert(after[i] == before[i]);
                lemma_key_index(before, i);
            } else if i > p {
                assert(after[i] == before[i - 1]);
                lemma_key_index(before, i - 1);
            }
        }
    }
}

} // verus!
