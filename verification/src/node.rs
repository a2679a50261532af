//! A Raft node as a state machine: the library decides, for each message,
//! timeout and operator action, the next state of the node and the effects
//! (messages to send, log to save, state to show) that the event loop performs.
use vstd::prelude::*;

use crate::entry::{clone_suffix, last_term, LogEntry};
use crate::message::{
    plain_content, same_content, ClientResponseError, Message, MessageContent, NodeId, Speed,
};
use crate::persistent_state::PersistentState;
use crate::role::{CandidateData, LeaderData, Role, WaitingClient};
use crate::state::VolatileState;

verus! {

/// A Raft server: its settings, its role, its persistent state (term, vote
/// and log) and its volatile state (the applied store and the commit index).
#[derive(Debug)]
pub struct Node {
    pub id: NodeId,
    pub node_count: usize,
    pub shutdown_requested: bool,
    pub simulate_crash: bool,
    /// Bounds of the election timeout, in nanoseconds.
    pub election_timeout_range: (u128, u128),
    pub leader_id: Option<NodeId>,
    pub speed: Speed,
    pub role: Role,
    // Persistent state (for all server)
    pub current_term: usize,
    pub voted_for: Option<NodeId>,
    pub logs: Vec<LogEntry>,
    // Volatile state (for all servers)
    pub state: VolatileState,
}

/// What the node shows of itself on the console.
#[derive(Debug)]
pub struct Status {
    pub id: NodeId,
    pub current_term: usize,
    pub voted_for: Option<NodeId>,
    pub leader_id: Option<NodeId>,
    pub role: &'static str,
    pub next_index: Option<Vec<usize>>,
    pub match_index: Option<Vec<usize>>,
    pub votes: Option<usize>,
    pub log_count: usize,
    pub commit_index: usize,
    pub last_applied: usize,
}

/// Something the event loop does on behalf of the node.
#[derive(Debug)]
pub enum Effect {
    /// Send `message` to node (or client) `to`.
    Send { to: NodeId, message: Message },
    /// Write this log to the node's file.
    SaveLogs(Vec<LogEntry>),
    /// Show this status on the console.
    Display(Status),
    /// Read the node's file and hand what it holds to [`Node::recover`].
    LoadPersistentState,
}

/// The effect of sending `content` from `from` to `to`.
pub open spec fn send(to: NodeId, content: MessageContent, from: NodeId) -> Effect {
    Effect::Send { to, message: Message { content, from } }
}

/// The `i`-th node other than `id`, counting from 0.
pub open spec fn peer_at(i: int, id: NodeId) -> int {
    if i < id {
        i
    } else {
        i + 1
    }
}

/// How many of the nodes `0..node_count` are not `id`.
pub open spec fn peer_count(node_count: usize, id: NodeId) -> int {
    if id < node_count {
        node_count - 1
    } else {
        node_count as int
    }
}

/// The answer a waiting client gets when its leader steps down.
pub open spec fn wrong_leader_notice(w: WaitingClient, leader_id: Option<NodeId>, from: NodeId) -> Effect {
    send(
        w.client_id,
        MessageContent::ClientResponse(Err(ClientResponseError::WrongLeader(leader_id))),
        from,
    )
}

/// The answers the waiting clients of a node in `role` get when it steps down.
pub open spec fn demotion_notices(role: Role, leader_id: Option<NodeId>, from: NodeId) -> Seq<Effect> {
    match role {
        Role::Leader(l) => l.waiters@.map_values(
            |w: WaitingClient| wrong_leader_notice(w, leader_id, from),
        ),
        _ => Seq::empty(),
    }
}

/// `e` sends to `to` the entries of `n`'s log from index `next` on (indices
/// count from 1), with the index and term of the entry before them.
pub open spec fn is_append_entries(e: Effect, to: int, n: Node, next: int) -> bool {
    &&& e matches Effect::Send { to: t, message }
    &&& t == to
    &&& message.from == n.id
    &&& message.content matches MessageContent::AppendEntries {
        entries,
        prev_log_index,
        prev_log_term,
        leader_commit,
        term,
    }
    &&& prev_log_index == next - 1
    &&& prev_log_term == (if next > 1 {
        n.logs@[next - 2].term
    } else {
        0
    })
    &&& entries@ == n.logs@.subrange(next - 1, n.logs@.len() as int)
    &&& leader_commit == n.state.commit_index
    &&& term == n.current_term
}

/// The settings and run flags of two nodes agree.
pub open spec fn same_settings(a: Node, b: Node) -> bool {
    &&& a.id == b.id
    &&& a.node_count == b.node_count
    &&& a.shutdown_requested == b.shutdown_requested
    &&& a.simulate_crash == b.simulate_crash
    &&& a.election_timeout_range == b.election_timeout_range
    &&& a.speed == b.speed
}

/// A leader keeps one next index and one match index per node.
pub open spec fn leader_sizes_ok(role: Role, node_count: usize) -> bool {
    role matches Role::Leader(l) ==> l.next_index@.len() == node_count && l.match_index@.len()
        == node_count
}

/// `effects` sends each other server, in order, the entries of the log of
/// `n`, a leader, from the server's next index on.
pub open spec fn heartbeat(n: Node, effects: Seq<Effect>) -> bool {
    &&& effects.len() == peer_count(n.node_count, n.id)
    &&& forall|i: int|
        0 <= i < effects.len() ==> is_append_entries(
            #[trigger] effects[i],
            peer_at(i, n.id),
            n,
            n.role->Leader_0.next_index@[peer_at(i, n.id)] as int,
        )
}

/// The step of `pre` to `post` that starts an election: `post` is candidate of
/// the next term with its own vote, and asks each other server for its vote.
pub open spec fn election_step(pre: Node, post: Node, effects: Seq<Effect>) -> bool {
    &&& post.role == Role::Candidate(CandidateData { votes: 1 })
    &&& post.current_term == pre.current_term + 1
    &&& post.voted_for == Some(pre.id)
    &&& post.leader_id == pre.leader_id
    &&& post.logs == pre.logs
    &&& post.state == pre.state
    &&& same_settings(post, pre)
    &&& effects.len() == peer_count(pre.node_count, pre.id)
    &&& forall|i: int|
        0 <= i < effects.len() ==> effects[i] == send(
            peer_at(i, pre.id) as NodeId,
            MessageContent::VoteRequest {
                last_log_index: pre.logs@.len() as usize,
                last_log_term: last_term(pre.logs@),
                term: post.current_term,
            },
            pre.id,
        )
}

impl Node {
    /// The node's store holds no uid twice, and a leader keeps one next index
    /// and one match index per node.
    pub open spec fn wf(&self) -> bool {
        &&& self.state.wf()
        &&& leader_sizes_ok(self.role, self.node_count)
    }

    /// A leader's next indices all point into its log or just past it.
    pub open spec fn send_entries_ok(&self) -> bool {
        self.role matches Role::Leader(l) ==> forall|f: int|
            0 <= f < self.node_count && f != self.id ==> 1 <= #[trigger] l.next_index@[f]
                <= self.logs@.len() + 1
    }

    /// A node that starts as a follower in term 0, with an empty log and store.
    pub fn new(id: NodeId, node_count: usize, election_timeout_range: (u128, u128)) -> (res: Self)
        ensures
            res.wf(),
            res.id == id,
            res.node_count == node_count,
            !res.shutdown_requested,
            !res.simulate_crash,
            res.election_timeout_range == election_timeout_range,
            res.leader_id is None,
            res.speed == Speed::Fast,
            res.role is Follower,
            res.current_term == 0,
            res.voted_for is None,
            res.logs@.len() == 0,
            res.state.files().len() == 0,
            res.state.commit_index == 0,
            res.state.last_applied == 0,
    {
        let state = VolatileState::new();
        proof {
            state.lemma_files_finite();
        }
        Node {
            id,
            node_count,
            shutdown_requested: false,
            simulate_crash: false,
            election_timeout_range,
            leader_id: None,
            speed: Speed::Fast,
            role: Role::Follower,
            current_term: 0,
            voted_for: None,
            logs: Vec::new(),
            state,
        }
    }

    /// Takes the term, vote and log kept on disk.
    pub fn update_persistent(&mut self, persistent: &PersistentState)
        ensures
            final(self).current_term == persistent.current_term,
            final(self).voted_for == persistent.voted_for,
            final(self).logs@ == persistent.logs@,
            same_settings(*final(self), *old(self)),
            final(self).role == old(self).role,
            final(self).leader_id == old(self).leader_id,
            final(self).state == old(self).state,
    {
        self.current_term = persistent.current_term;
        self.voted_for = persistent.voted_for;
        self.logs = clone_suffix(&persistent.logs, 0);
    }

    /// Appends an entry with `mutation` to the log, in the current term.
    pub fn add_log(&mut self, mutation: crate::entry::StateMutation)
        ensures
            final(self).logs@ == old(self).logs@.push(
                LogEntry { term: old(self).current_term, mutation },
            ),
            same_settings(*final(self), *old(self)),
            final(self).role == old(self).role,
            final(self).current_term == old(self).current_term,
            final(self).voted_for == old(self).voted_for,
            final(self).leader_id == old(self).leader_id,
            final(self).state == old(self).state,
    {
        self.logs.push(LogEntry { term: self.current_term, mutation });
    }

    /// Steps down to follower of `leader_id` in `term`; a leader answers each
    /// of its waiting clients that it is no longer the leader.
    pub fn demote_to_follower(&mut self, leader_id: Option<NodeId>, term: usize) -> (effects: Vec<Effect>)
        ensures
            effects@ == demotion_notices(old(self).role, leader_id, old(self).id),
            final(self).role is Follower,
            final(self).current_term == term,
            final(self).leader_id == leader_id,
            final(self).voted_for == old(self).voted_for,
            final(self).logs == old(self).logs,
            final(self).state == old(self).state,
            same_settings(*final(self), *old(self)),
    {
        let mut effects: Vec<Effect> = Vec::new();
        match &self.role {
            Role::Leader(leader) => {
                let n = leader.waiters.len();
                let mut i: usize = 0;
                while i < n
                    invariant
                        n == leader.waiters@.len(),
                        i <= n,
                        effects@ == leader.waiters@.subrange(0, i as int).map_values(
                            |w: WaitingClient| wrong_leader_notice(w, leader_id, self.id),
                        ),
                    decreases n - i,
                {
                    let client_id = leader.waiters[i].client_id;
                    effects.push(
                        Effect::Send {
                            to: client_id,
                            message: Message {
                                content: MessageContent::ClientResponse(
                                    Err(ClientResponseError::WrongLeader(leader_id)),
                                ),
                                from: self.id,
                            },
                        },
                    );
                    proof {
                        assert(leader.waiters@.subrange(0, i + 1) =~= leader.waiters@.subrange(
                            0,
                            i as int,
                        ).push(leader.waiters@[i as int]));
                    }
                    i = i + 1;
                }
                assert(leader.waiters@.subrange(0, n as int) =~= leader.waiters@);
            },
            _ => {},
        }
        self.current_term = term;
        self.leader_id = leader_id;
        self.role = Role::Follower;
        effects
    }

    /// Sends `content` to every other server.
    pub fn broadcast(&self, content: MessageContent) -> (effects: Vec<Effect>)
        ensures
            effects@.len() == peer_count(self.node_count, self.id),
            forall|i: int|
                0 <= i < effects@.len() ==> (#[trigger] effects@[i] matches Effect::Send { to, message }
                    && to == peer_at(i, self.id) && message.from == self.id && same_content(
                    content,
                    message.content,
                ) && (plain_content(content) ==> message.content == content)),
    {
        let mut effects: Vec<Effect> = Vec::new();
        let mut peer: usize = 0;
        while peer < self.node_count
            invariant
                peer <= self.node_count,
                effects@.len() == (if self.id < peer {
                    peer - 1
                } else {
                    peer as int
                }),
                forall|i: int|
                    0 <= i < effects@.len() ==> (#[trigger] effects@[i] matches Effect::Send {
                        to,
                        message,
                    } && to == peer_at(i, self.id) && message.from == self.id && same_content(
                        content,
                        message.content,
                    ) && (plain_content(content) ==> message.content == content)),
            decreases self.node_count - peer,
        {
            if peer != self.id {
                effects.push(
                    Effect::Send { to: peer, message: Message { content: content.clone(), from: self.id } },
                );
            }
            peer = peer + 1;
        }
        effects
    }

    /// As leader, sends each other server the entries of the log from its next
    /// index on, with the commit index.
    pub fn send_entries(&self) -> (effects: Vec<Effect>)
        requires
            self.wf(),
            self.role is Leader,
            self.send_entries_ok(),
        ensures
            heartbeat(*self, effects@),
    {
        let mut effects: Vec<Effect> = Vec::new();
        match &self.role {
            Role::Leader(leader) => {
                let mut follower: usize = 0;
                while follower < self.node_count
                    invariant
                        follower <= self.node_count,
                        self.wf(),
                        self.send_entries_ok(),
                        self.role == Role::Leader(*leader),
                        effects@.len() == (if self.id < follower {
                            follower - 1
                        } else {
                            follower as int
                        }),
                        forall|i: int|
                            0 <= i < effects@.len() ==> is_append_entries(
                                #[trigger] effects@[i],
                                peer_at(i, self.id),
                                *self,
                                leader.next_index@[peer_at(i, self.id)] as int,
                            ),
                    decreases self.node_count - follower,
                {
                    if follower != self.id {
                        let next_index = leader.next_index[follower];
                        let prev_log_term = if next_index > 1 {
                            self.logs[next_index - 2].term
                        } else {
                            0
                        };
                        let entries = clone_suffix(&self.logs, next_index - 1);
                        effects.push(
                            Effect::Send {
                                to: follower,
                                message: Message {
                                    content: MessageContent::AppendEntries {
                                        prev_log_index: next_index - 1,
                                        prev_log_term,
                                        entries,
                                        leader_commit: self.state.commit_index,
                                        term: self.current_term,
                                    },
                                    from: self.id,
                                },
                            },
                        );
                    }
                    follower = follower + 1;
                }
            },
            _ => {},
        }
        effects
    }

    /// Starts an election: becomes candidate of the next term, votes for
    /// itself and asks every other server for its vote.
    pub fn start_election(&mut self) -> (effects: Vec<Effect>)
        requires
            old(self).current_term < usize::MAX,
        ensures
            election_step(*old(self), *final(self), effects@),
    {
        self.role = Role::Candidate(CandidateData { votes: 1 });
        self.current_term = self.current_term + 1;
        self.voted_for = Some(self.id);
        let last_log_term = match self.logs.last() {
            Some(e) => e.term,
            None => 0,
        };
        let content = MessageContent::VoteRequest {
            last_log_index: self.logs.len(),
            last_log_term,
            term: self.current_term,
        };
        let effects = self.broadcast(content);
        assert forall|i: int| 0 <= i < effects@.len() implies effects@[i] == send(
            peer_at(i, self.id) as NodeId,
            content,
            self.id,
        ) by {
            assert(plain_content(content));
        }
        effects
    }

    /// Becomes leader: every other server is to be sent entries from the end
    /// of the log on, and is sent them at once.
    pub fn promote_leader(&mut self) -> (effects: Vec<Effect>)
        requires
            old(self).wf(),
            old(self).logs@.len() < usize::MAX,
        ensures
            final(self).wf(),
            final(self).role == Role::Leader(final(self).role->Leader_0),
            final(self).role->Leader_0.next_index@ == Seq::new(
                old(self).node_count as nat,
                |i: int| (old(self).logs@.len() + 1) as usize,
            ),
            final(self).role->Leader_0.match_index@ == Seq::new(
                old(self).node_count as nat,
                |i: int| 0usize,
            ),
            final(self).role->Leader_0.waiters@.len() == 0,
            final(self).leader_id == Some(old(self).id),
            final(self).current_term == old(self).current_term,
            final(self).voted_for == old(self).voted_for,
            final(self).logs == old(self).logs,
            final(self).state == old(self).state,
            same_settings(*final(self), *old(self)),
            effects@.len() == peer_count(old(self).node_count, old(self).id),
            forall|i: int|
                0 <= i < effects@.len() ==> is_append_entries(
                    #[trigger] effects@[i],
                    peer_at(i, old(self).id),
                    *final(self),
                    old(self).logs@.len() + 1int,
                ),
    {
        self.role = Role::Leader(LeaderData::new(self.logs.len() + 1, self.node_count));
        self.leader_id = Some(self.id);
        self.send_entries()
    }
}

} // verus!
