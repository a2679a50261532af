//! The decisions of a console client: which server it sends its commands to.
use vstd::prelude::*;

use crate::events::random_u128;
use crate::message::{ClientResponseError, MessageContent, NodeId};

verus! {

/// The leader an answer of the cluster points a client to, if any.
pub open spec fn hinted_leader(content: MessageContent) -> Option<NodeId> {
    match content {
        MessageContent::ClientResponse(Err(ClientResponseError::WrongLeader(Some(id)))) => Some(id),
        _ => None,
    }
}

/// The server a client turns to after an answer: the leader the answer points
/// to, if any; otherwise the client keeps its current server.
pub fn leader_hint(content: &MessageContent) -> (res: Option<NodeId>)
    ensures
        res == hinted_leader(*content),
{
    match content {
        MessageContent::ClientResponse(Err(ClientResponseError::WrongLeader(Some(id)))) => Some(*id),
        _ => None,
    }
}

/// The server a draw `random` picks among `node_count` servers.
pub open spec fn drawn_leader(random: u128, node_count: usize) -> NodeId {
    (random % (node_count as u128)) as usize
}

/// The server the random number `random` picks among `node_count` servers:
/// the draw modulo the number of servers.
pub fn leader_for_draw(random: u128, node_count: usize) -> (res: NodeId)
    requires
        node_count > 0,
    ensures
        res == drawn_leader(random, node_count),
        res < node_count,
{
    (random % (node_count as u128)) as usize
}

/// The server a new client first sends its commands to: one of the
/// `node_count` servers, drawn at random.
pub fn initial_leader(node_count: usize) -> (res: NodeId)
    requires
        node_count > 0,
    ensures
        exists|random: u128| res == drawn_leader(random, node_count),
        res < node_count,
{
    let random = random_u128();
    leader_for_draw(random, node_count)
}

} // verus!
