//! The cluster membership that a node was started with.

use vstd::prelude::*;

verus! {

/// A node of the cluster and where it listens.
#[derive(Debug, PartialEq, Eq)]
pub struct ClusterNode {
    pub id: String,
    pub endpoint: String,
}

/// What a [`ClusterNode`] holds.
pub struct ClusterNodeView {
    pub id: Seq<char>,
    pub endpoint: Seq<char>,
}

impl View for ClusterNode {
    type V = ClusterNodeView;

    open spec fn view(&self) -> ClusterNodeView {
        ClusterNodeView { id: self.id@, endpoint: self.endpoint@ }
    }
}

impl Clone for ClusterNode {
    fn clone(&self) -> (res: Self)
        ensures
            res == *self,
    {
        ClusterNode { id: self.id.clone(), endpoint: self.endpoint.clone() }
    }
}

/// The nodes known at start, and which of them is this one.
#[derive(Debug, PartialEq, Eq)]
pub struct MembershipView {
    pub local_node_id: String,
    pub nodes: Vec<ClusterNode>,
}

} // verus!
