use vstd::prelude::*;
use std::collections::VecDeque;

use crate::message::{ClientId, ClientResponse};

verus! {

/// What a candidate keeps: the votes it has been granted.
#[derive(Debug, PartialEq, Eq)]
pub struct CandidateData {
    pub votes: usize,
}

/// A client waiting for the log entry of its request to be committed.
#[derive(Debug, PartialEq, Eq)]
pub struct WaitingClient {
    pub client_id: ClientId,
    pub term: usize,
    pub index: usize,
    pub result: ClientResponse,
}

/// What a leader keeps: for each node, the index of the next entry to send it
/// and the index up to which its log is known to match, and the clients
/// waiting for their entries to be committed, oldest first.
#[derive(Debug, PartialEq, Eq)]
pub struct LeaderData {
    pub next_index: Vec<usize>,
    pub match_index: Vec<usize>,
    pub waiters: VecDeque<WaitingClient>,
}

impl LeaderData {
    /// Fresh leader data for `node_count` nodes, each to be sent entries from
    /// `next_index` on and none known to match.
    pub fn new(next_index: usize, node_count: usize) -> (res: Self)
        ensures
            res.next_index@ == Seq::new(node_count as nat, |i: int| next_index),
            res.match_index@ == Seq::new(node_count as nat, |i: int| 0usize),
            res.waiters@.len() == 0,
    {
        let mut next: Vec<usize> = Vec::new();
        let mut matched: Vec<usize> = Vec::new();
        let mut i: usize = 0;
        while i < node_count
            invariant
                i <= node_count,
                next@ == Seq::new(i as nat, |j: int| next_index),
                matched@ == Seq::new(i as nat, |j: int| 0usize),
            decreases node_count - i,
        {
            next.push(next_index);
            matched.push(0);
            i = i + 1;
            assert(next@ =~= Seq::new(i as nat, |j: int| next_index));
            assert(matched@ =~= Seq::new(i as nat, |j: int| 0usize));
        }
        LeaderData { next_index: next, match_index: matched, waiters: VecDeque::new() }
    }
}

/// The role of a node, with the data that only this role keeps.
#[derive(Debug, PartialEq, Eq)]
pub enum Role {
    Follower,
    Candidate(CandidateData),
    Leader(LeaderData),
}

/// The name of each role, as it is displayed.
pub open spec fn role_name(role: Role) -> Seq<char> {
    match role {
        Role::Follower => "Follower"@,
        Role::Candidate(_) => "Candidate"@,
        Role::Leader(_) => "Leader"@,
    }
}

impl Role {
    pub fn is_follower(&self) -> (res: bool)
        ensures
            res == (*self is Follower),
    {
        matches!(self, Role::Follower)
    }

    pub fn is_candidate(&self) -> (res: bool)
        ensures
            res == (*self is Candidate),
    {
        matches!(self, Role::Candidate(_))
    }

    pub fn is_leader(&self) -> (res: bool)
        ensures
            res == (*self is Leader),
    {
        matches!(self, Role::Leader(_))
    }

    /// The name of the role, as it is displayed.
    pub fn to_string(&self) -> (res: &'static str)
        ensures
            res@ == role_name(*self),
    {
        match self {
            Role::Follower => "Follower",
            Role::Candidate(_) => "Candidate",
            Role::Leader(_) => "Leader",
        }
    }
}

/// A node is always exactly one of follower, candidate and leader.
pub proof fn lemma_one_role(role: Role)
    ensures
        role is Follower ==> !(role is Candidate) && !(role is Leader),
        role is Candidate ==> !(role is Follower) && !(role is Leader),
        role is Leader ==> !(role is Follower) && !(role is Candidate),
        role is Follower || role is Candidate || role is Leader,
{
}

} // verus!
