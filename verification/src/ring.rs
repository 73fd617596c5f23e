//! The shard ring: which nodes own which shard.

use vstd::prelude::*;
use crate::lists::views;
use crate::text::{cat3, cat5, clone_texts, decimal, number, owned};

verus! {

/// The version of the hash that places series on the ring.
pub const CURRENT_RING_HASH_VERSION: u32 = 1;

/// The name of a ring hash version.
pub open spec fn hash_name(version: u32) -> Option<Seq<char>> {
    if version == CURRENT_RING_HASH_VERSION {
        Some("xxh64_seed0"@)
    } else {
        None
    }
}

/// The name of a ring hash version, where the version is known.
pub fn ring_hash_version_name(version: u32) -> (res: Option<&'static str>)
    ensures
        match res {
            Some(name) => hash_name(version) == Some(name@),
            None => hash_name(version) is None,
        },
{
    if version == CURRENT_RING_HASH_VERSION {
        Some("xxh64_seed0")
    } else {
        None
    }
}

/// The views of the rows of `a`.
pub open spec fn rows(a: Seq<Vec<String>>) -> Seq<Seq<Seq<char>>> {
    Seq::new(a.len(), |i: int| views(a[i]@))
}

/// The geometry of a ring and the owners of each shard.
#[derive(Debug, PartialEq, Eq)]
pub struct ShardRingSnapshot {
    pub hash_version: u32,
    pub shard_count: u32,
    pub replication_factor: u16,
    pub virtual_nodes_per_node: u16,
    pub assignments: Vec<Vec<String>>,
}

/// What a [`ShardRingSnapshot`] holds.
pub struct RingView {
    pub hash_version: u32,
    pub shard_count: u32,
    pub replication_factor: u16,
    pub virtual_nodes_per_node: u16,
    pub assignments: Seq<Seq<Seq<char>>>,
}

impl View for ShardRingSnapshot {
    type V = RingView;

    open spec fn view(&self) -> RingView {
        RingView {
            hash_version: self.hash_version,
            shard_count: self.shard_count,
            replication_factor: self.replication_factor,
            virtual_nodes_per_node: self.virtual_nodes_per_node,
            assignments: rows(self.assignments@),
        }
    }
}

impl Clone for ShardRingSnapshot {
    fn clone(&self) -> (res: Self)
        ensures
            res@ == self@,
    {
        let mut assignments: Vec<Vec<String>> = Vec::new();
        let mut i: usize = 0;
        while i < self.assignments.len()
            invariant
                i <= self.assignments.len(),
                assignments.len() == i,
                forall|j: int| 0 <= j < i ==> #[trigger] assignments@[j]@ == self.assignments@[j]@,
            decreases self.assignments.len() - i,
        {
            assignments.push(clone_texts(&self.assignments[i]));
            i += 1;
        }
        assert(rows(assignments@) =~= rows(self.assignments@));
        ShardRingSnapshot {
            hash_version: self.hash_version,
            shard_count: self.shard_count,
            replication_factor: self.replication_factor,
            virtual_nodes_per_node: self.virtual_nodes_per_node,
            assignments,
        }
    }
}

/// Why a ring snapshot cannot be used, if it cannot.
pub open spec fn ring_error(ring: RingView) -> Option<Seq<char>> {
    if hash_name(ring.hash_version) is None {
        Some(
            "unsupported ring hash_version "@ + decimal(ring.hash_version as nat)
                + " (expected 1 xxh64_seed0)"@,
        )
    } else if ring.shard_count == 0 {
        Some("ring snapshot requires shard_count > 0"@)
    } else if ring.assignments.len() != ring.shard_count {
        Some(
            "ring snapshot has "@ + decimal(ring.assignments.len()) + " assignments for "@
                + decimal(ring.shard_count as nat) + " shards"@,
        )
    } else {
        None
    }
}

impl ShardRingSnapshot {
    /// Says why this snapshot cannot be used, if it cannot.
    pub fn problem(&self) -> (res: Option<String>)
        ensures
            match res {
                Some(message) => ring_error(self@) == Some(message@),
                None => ring_error(self@) is None,
            },
    {
        if ring_hash_version_name(self.hash_version).is_none() {
            return Some(
                cat3(
                    "unsupported ring hash_version ",
                    number(self.hash_version as u64).as_str(),
                    " (expected 1 xxh64_seed0)",
                ),
            );
        }
        if self.shard_count == 0 {
            return Some(owned("ring snapshot requires shard_count > 0"));
        }
        if self.assignments.len() as u64 != self.shard_count as u64 {
            return Some(
                cat5(
                    "ring snapshot has ",
                    number(self.assignments.len() as u64).as_str(),
                    " assignments for ",
                    number(self.shard_count as u64).as_str(),
                    " shards",
                ),
            );
        }
        None
    }
}

/// A ring whose snapshot has no problem.
#[derive(Debug, PartialEq, Eq)]
pub struct ShardRing {
    snapshot: ShardRingSnapshot,
}

impl View for ShardRing {
    type V = RingView;

    closed spec fn view(&self) -> RingView {
        self.snapshot@
    }
}

impl Clone for ShardRing {
    fn clone(&self) -> (res: Self)
        ensures
            res@ == self@,
    {
        proof {
            use_type_invariant(self);
        }
        ShardRing { snapshot: self.snapshot.clone() }
    }
}

impl ShardRing {
    #[verifier::type_invariant]
    spec fn usable(self) -> bool {
        ring_error(self.snapshot@) is None
    }

    /// Takes a snapshot as a ring, unless it cannot be used.
    pub fn from_snapshot(snapshot: ShardRingSnapshot) -> (res: Result<Self, String>)
        ensures
            match res {
                Ok(ring) => ring_error(snapshot@) is None && ring@ == snapshot@,
                Err(message) => ring_error(snapshot@) == Some(message@),
            },
    {
        match snapshot.problem() {
            Some(message) => Err(message),
            None => Ok(ShardRing { snapshot }),
        }
    }

    /// The ring as plain values.
    pub fn snapshot(&self) -> (res: ShardRingSnapshot)
        ensures
            res@ == self@,
            ring_error(res@) is None,
    {
        proof {
            use_type_invariant(self);
        }
        self.snapshot.clone()
    }

    pub fn shard_count(&self) -> (res: u32)
        ensures
            res == self@.shard_count,
            res > 0,
    {
        proof {
            use_type_invariant(self);
        }
        self.snapshot.shard_count
    }

    pub fn hash_version(&self) -> (res: u32)
        ensures
            res == self@.hash_version,
    {
        self.snapshot.hash_version
    }

    pub fn replication_factor(&self) -> (res: u16)
        ensures
            res == self@.replication_factor,
    {
        self.snapshot.replication_factor
    }

    pub fn virtual_nodes_per_node(&self) -> (res: u16)
        ensures
            res == self@.virtual_nodes_per_node,
    {
        self.snapshot.virtual_nodes_per_node
    }

    /// The shard that a series belongs to.
    pub fn shard_for_series_id(&self, series_id: u64) -> (res: u32)
        ensures
            res == series_id as int % self@.shard_count as int,
            res < self@.shard_count,
    {
        proof {
            use_type_invariant(self);
        }
        (series_id % self.snapshot.shard_count as u64) as u32
    }

    /// The owners of a shard; none where the ring has no such shard.
    pub fn owners_for_shard(&self, shard: u32) -> (res: Option<&Vec<String>>)
        ensures
            match res {
                Some(owners) => shard < self@.assignments.len() && views(owners@)
                    == self@.assignments[shard as int],
                None => shard >= self@.assignments.len(),
            },
    {
        if (shard as usize) < self.snapshot.assignments.len() {
            Some(&self.snapshot.assignments[shard as usize])
        } else {
            None
        }
    }
}

} // verus!
