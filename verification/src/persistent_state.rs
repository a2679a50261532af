use vstd::prelude::*;

use crate::entry::{clone_suffix, LogEntry};
use crate::message::NodeId;
use crate::node::Node;

verus! {

/// What a node keeps on disk: its term, its vote and its log.
#[derive(Debug)]
pub struct PersistentState {
    pub id: NodeId,
    pub current_term: usize,
    pub voted_for: Option<NodeId>,
    pub logs: Vec<LogEntry>,
}

impl PersistentState {
    /// The persistent part of the state of `node`.
    pub fn from_node(node: &Node) -> (res: PersistentState)
        ensures
            res.id == node.id,
            res.current_term == node.current_term,
            res.voted_for == node.voted_for,
            res.logs@ == node.logs@,
    {
        PersistentState {
            id: node.id,
            current_term: node.current_term,
            voted_for: node.voted_for,
            logs: clone_suffix(&node.logs, 0),
        }
    }
}

} // verus!
