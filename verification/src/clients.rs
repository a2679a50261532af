//! How a node serves clients: a leader logs their changes and answers once
//! they are committed; it answers reads from its store at once.
use vstd::prelude::*;

use crate::entry::StateMutation;
use crate::message::{ClientCommand, ClientResponse, ClientResponseError, Message, MessageContent, NodeId};
use crate::node::{same_settings, send, Effect, Node};
use crate::role::{Role, WaitingClient};
use crate::state::FileView;
use crate::text::{decimal, push_decimal};

verus! {

/// The uid of the file created by the entry at `index` of the log, logged in
/// `term`: the two numbers in decimal, joined by a dash.
pub open spec fn uid_text(term: usize, index: int) -> Seq<char> {
    decimal(term as nat) + seq!['-'] + decimal(index as nat)
}

/// `post` is `pre`, a leader, with one more entry in its log, whose mutation
/// satisfies `mutation_ok`, and one more waiting client: `from`, waiting for
/// that entry, to be answered with a response satisfying `result_ok`.
pub open spec fn logged_for_client(
    pre: Node,
    post: Node,
    from: NodeId,
    mutation_ok: spec_fn(StateMutation) -> bool,
    result_ok: spec_fn(ClientResponse) -> bool,
) -> bool {
    let l = pre.role->Leader_0;
    &&& post.logs@.len() == pre.logs@.len() + 1
    &&& post.logs@.drop_last() == pre.logs@
    &&& post.logs@.last().term == pre.current_term
    &&& mutation_ok(post.logs@.last().mutation)
    &&& post.role matches Role::Leader(l2)
    &&& l2.next_index == l.next_index
    &&& l2.match_index == l.match_index
    &&& l2.waiters@.len() == l.waiters@.len() + 1
    &&& l2.waiters@.drop_last() == l.waiters@
    &&& l2.waiters@.last().client_id == from
    &&& l2.waiters@.last().term == pre.current_term
    &&& l2.waiters@.last().index == pre.logs@.len() + 1
    &&& result_ok(l2.waiters@.last().result)
    &&& post.current_term == pre.current_term
    &&& post.voted_for == pre.voted_for
    &&& post.leader_id == pre.leader_id
    &&& post.state == pre.state
    &&& same_settings(post, pre)
}

/// The answer to a read of the file `uid` from the files of a store.
pub open spec fn file_answer(files: Map<Seq<char>, FileView>, uid: Seq<char>, content: MessageContent) -> bool {
    if files.contains_key(uid) {
        content matches MessageContent::ClientResponse(Ok(ClientResponse::File(file))) && file@
            == files[uid]
    } else {
        content == MessageContent::ClientResponse(Err(ClientResponseError::FileNotFound))
    }
}

/// The answer to a listing: every uid of the store, each once.
pub open spec fn list_answer(files: Map<Seq<char>, FileView>, content: MessageContent) -> bool {
    &&& content matches MessageContent::ClientResponse(Ok(ClientResponse::List(uids)))
    &&& forall|i: int, j: int| 0 <= i < j < uids@.len() ==> uids@[i]@ != uids@[j]@
    &&& forall|i: int| 0 <= i < uids@.len() ==> files.contains_key(#[trigger] uids@[i]@)
    &&& forall|k: Seq<char>|
        #[trigger] files.contains_key(k) ==> exists|i: int| 0 <= i < uids@.len() && #[trigger] uids@[i]@ == k
}

/// `effects` is the single message to `to` from `from`, whose content satisfies `ok`.
pub open spec fn single_answer(effects: Seq<Effect>, to: NodeId, from: NodeId, ok: spec_fn(MessageContent) -> bool) -> bool {
    &&& effects.len() == 1
    &&& effects[0] matches Effect::Send { to: t, message }
    &&& t == to
    &&& message.from == from
    &&& ok(message.content)
}

/// A client command can be handled without overflow.
pub open spec fn client_command_ok(n: Node, command: ClientCommand) -> bool {
    (n.role is Leader && !(command is List) && !(command is Get)) ==> n.logs@.len() < usize::MAX
}

/// The step of `pre` to `post` on `command` of client `from`.
pub open spec fn client_command_step(
    pre: Node,
    post: Node,
    command: ClientCommand,
    from: NodeId,
    effects: Seq<Effect>,
) -> bool {
    if pre.role is Leader {
        match command {
            ClientCommand::Load { filename } => {
                let uid = uid_text(pre.current_term, pre.logs@.len() + 1int);
                &&& logged_for_client(
                    pre,
                    post,
                    from,
                    |m: StateMutation|
                        m matches StateMutation::Create { uid: u, filename: f } && u@ == uid && f
                            == filename,
                    |r: ClientResponse| r matches ClientResponse::Uid(u) && u@ == uid,
                )
                &&& effects.len() == 0
            },
            ClientCommand::Delete { uid } => {
                &&& logged_for_client(
                    pre,
                    post,
                    from,
                    |m: StateMutation| m == StateMutation::Delete { uid },
                    |r: ClientResponse| r == ClientResponse::Done,
                )
                &&& effects.len() == 0
            },
            ClientCommand::Append { uid, text } => {
                &&& logged_for_client(
                    pre,
                    post,
                    from,
                    |m: StateMutation| m == StateMutation::Append { uid, text },
                    |r: ClientResponse| r == ClientResponse::Done,
                )
                &&& effects.len() == 0
            },
            ClientCommand::List => {
                &&& post == pre
                &&& single_answer(effects, from, pre.id, |c: MessageContent| list_answer(pre.state.files(), c))
            },
            ClientCommand::Get { uid } => {
                &&& post == pre
                &&& single_answer(
                    effects,
                    from,
                    pre.id,
                    |c: MessageContent| file_answer(pre.state.files(), uid@, c),
                )
            },
        }
    } else {
        &&& post == pre
        &&& effects == seq![
            send(
                from,
                MessageContent::ClientResponse(Err(ClientResponseError::WrongLeader(pre.leader_id))),
                pre.id,
            ),
        ]
    }
}

/// The end of the run of waiting clients from `from` on whose entries are
/// committed.
pub open spec fn ready_end(waiters: Seq<WaitingClient>, from: int, commit_index: usize) -> int
    decreases waiters.len() - from,
{
    if 0 <= from < waiters.len() && waiters[from].index <= commit_index {
        ready_end(waiters, from + 1, commit_index)
    } else {
        from
    }
}

pub proof fn lemma_ready_end(waiters: Seq<WaitingClient>, from: int, commit_index: usize)
    requires
        0 <= from <= waiters.len(),
    ensures
        from <= ready_end(waiters, from, commit_index) <= waiters.len(),
        ready_end(waiters, from, commit_index) < waiters.len() ==> waiters[ready_end(waiters, from, commit_index)].index > commit_index,
    decreases waiters.len() - from,
{
    if from < waiters.len() && waiters[from].index <= commit_index {
        lemma_ready_end(waiters, from + 1, commit_index);
    }
}

/// The clients a leader answers can be answered: each waits for an entry of the log.
pub open spec fn notify_ok(n: Node) -> bool {
    n.role is Leader ==> {
        let w = n.role->Leader_0.waiters@;
        forall|i: int|
            0 <= i < ready_end(w, 0, n.state.commit_index) ==> 1 <= #[trigger] w[i].index
                <= n.logs@.len()
    }
}

/// The answer to client `w` once its entry is committed: what it asked for if
/// the log still holds the entry of its term at its index, else that the entry
/// was overridden.
pub open spec fn commit_answer(n: Node, w: WaitingClient) -> Effect {
    send(
        w.client_id,
        MessageContent::ClientResponse(
            if w.term == n.logs@[w.index - 1].term {
                Ok(w.result)
            } else {
                Err(ClientResponseError::EntryOverridden)
            },
        ),
        n.id,
    )
}

impl Node {
    /// Serves `command` of client `from`: a leader logs a change and keeps the
    /// client waiting for it, and answers a read at once; any other node
    /// answers with the leader it knows of.
    pub fn handle_client_command(&mut self, command: ClientCommand, from: NodeId) -> (effects: Vec<Effect>)
        requires
            old(self).wf(),
            client_command_ok(*old(self), command),
        ensures
            final(self).wf(),
            client_command_step(*old(self), *final(self), command, from, effects@),
    {
        let ghost pre = *self;
        let ghost cmd = command;
        let mut effects: Vec<Effect> = Vec::new();
        let current_term = self.current_term;
        let index = if self.role.is_leader() {
            match command {
                ClientCommand::List | ClientCommand::Get { .. } => 0,
                _ => self.logs.len() + 1,
            }
        } else {
            0
        };
        match &mut self.role {
            Role::Leader(leader) => {
                match command {
                    ClientCommand::Load { filename } => {
                        let mut uid = String::new();
                        push_decimal(&mut uid, current_term);
                        uid.push('-');
                        push_decimal(&mut uid, index);
                        assert(uid@ =~= uid_text(current_term, index as int));
                        leader.waiters.push_back(
                            WaitingClient {
                                client_id: from,
                                term: current_term,
                                index,
                                result: ClientResponse::Uid(uid.clone()),
                            },
                        );
                        assert(leader.waiters@.drop_last() =~= pre.role->Leader_0.waiters@);
                        self.add_log(StateMutation::Create { filename, uid });
                        assert(self.logs@.drop_last() =~= pre.logs@);
                        assert(client_command_step(pre, *self, cmd, from, effects@));
                    },
                    ClientCommand::List => {
                        let files = self.state.list_uid();
                        effects.push(
                            Effect::Send {
                                to: from,
                                message: Message {
                                    content: MessageContent::ClientResponse(Ok(ClientResponse::List(files))),
                                    from: self.id,
                                },
                            },
                        );
                        assert(client_command_step(pre, *self, cmd, from, effects@));
                    },
                    ClientCommand::Delete { uid } => {
                        leader.waiters.push_back(
                            WaitingClient {
                                client_id: from,
                                term: current_term,
                                index,
                                result: ClientResponse::Done,
                            },
                        );
                        assert(leader.waiters@.drop_last() =~= pre.role->Leader_0.waiters@);
                        self.add_log(StateMutation::Delete { uid });
                        assert(self.logs@.drop_last() =~= pre.logs@);
                        assert(client_command_step(pre, *self, cmd, from, effects@));
                    },
                    ClientCommand::Append { uid, text } => {
                        leader.waiters.push_back(
                            WaitingClient {
                                client_id: from,
                                term: current_term,
                                index,
                                result: ClientResponse::Done,
                            },
                        );
                        assert(leader.waiters@.drop_last() =~= pre.role->Leader_0.waiters@);
                        self.add_log(StateMutation::Append { uid, text });
                        assert(self.logs@.drop_last() =~= pre.logs@);
                        assert(client_command_step(pre, *self, cmd, from, effects@));
                    },
                    ClientCommand::Get { uid } => {
                        let content = match self.state.get(uid.as_str()) {
                            Some(file) => MessageContent::ClientResponse(
                                Ok(ClientResponse::File(file.clone())),
                            ),
                            None => MessageContent::ClientResponse(
                                Err(ClientResponseError::FileNotFound),
                            ),
                        };
                        effects.push(Effect::Send { to: from, message: Message { content, from: self.id } });
                        assert(client_command_step(pre, *self, cmd, from, effects@));
                    },
                }
            },
            _ => {
                effects.push(
                    Effect::Send {
                        to: from,
                        message: Message {
                            content: MessageContent::ClientResponse(
                                Err(ClientResponseError::WrongLeader(self.leader_id)),
                            ),
                            from: self.id,
                        },
                    },
                );
                assert(client_command_step(pre, *self, cmd, from, effects@));
            },
        }
        effects
    }

    /// As leader, answers the waiting clients whose entries are committed,
    /// oldest first.
    pub fn notify_waiting_clients(&mut self) -> (effects: Vec<Effect>)
        requires
            old(self).wf(),
            notify_ok(*old(self)),
        ensures
            final(self).wf(),
            match old(self).role {
                Role::Leader(l) => {
                    let r = ready_end(l.waiters@, 0, old(self).state.commit_index);
                    &&& final(self).role matches Role::Leader(l2)
                    &&& l2.next_index == l.next_index
                    &&& l2.match_index == l.match_index
                    &&& l2.waiters@ == l.waiters@.subrange(r, l.waiters@.len() as int)
                    &&& effects@ == l.waiters@.subrange(0, r).map_values(
                        |w: WaitingClient| commit_answer(*old(self), w),
                    )
                    &&& final(self).current_term == old(self).current_term
                    &&& final(self).voted_for == old(self).voted_for
                    &&& final(self).leader_id == old(self).leader_id
                    &&& final(self).logs == old(self).logs
                    &&& final(self).state == old(self).state
                    &&& same_settings(*final(self), *old(self))
                },
                _ => *final(self) == *old(self) && effects@.len() == 0,
            },
    {
        let ghost pre = *self;
        let mut effects: Vec<Effect> = Vec::new();
        let commit_index = self.state.commit_index;
        let id = self.id;
        match &mut self.role {
            Role::Leader(leader) => {
                let ghost w0 = leader.waiters@;
                proof {
                    lemma_ready_end(w0, 0, commit_index);
                }
                let ghost r = ready_end(w0, 0, commit_index);
                let n0 = leader.waiters.len();
                let mut taken: usize = 0;
                while leader.waiters.len() > 0 && leader.waiters[0].index <= commit_index
                    invariant
                        pre.role == Role::Leader(pre.role->Leader_0),
                        w0 == pre.role->Leader_0.waiters@,
                        commit_index == pre.state.commit_index,
                        id == pre.id,
                        r == ready_end(w0, 0, commit_index),
                        taken <= r <= w0.len(),
                        w0.len() == n0,
                        ready_end(w0, taken as int, commit_index) == r,
                        leader.waiters@ == w0.subrange(taken as int, w0.len() as int),
                        leader.next_index == pre.role->Leader_0.next_index,
                        leader.match_index == pre.role->Leader_0.match_index,
                        self.logs == pre.logs,
                        notify_ok(pre),
                        effects@ == w0.subrange(0, taken as int).map_values(
                            |w: WaitingClient| commit_answer(pre, w),
                        ),
                    decreases leader.waiters@.len(),
                {
                    let ghost before = leader.waiters@;
                    proof {
                        assert(leader.waiters@[0] == w0[taken as int]);
                        lemma_ready_end(w0, taken + 1, commit_index);
                        assert(ready_end(w0, taken as int, commit_index) == ready_end(w0, taken + 1, commit_index));
                        assert(1 <= w0[taken as int].index <= pre.logs@.len());
                    }
                    match leader.waiters.pop_front() {
                        Some(waiter) => {
                            assert(waiter == w0[taken as int]);
                            let entry_term = self.logs[waiter.index - 1].term;
                            let resp = if waiter.term == entry_term {
                                Ok(waiter.result)
                            } else {
                                Err(ClientResponseError::EntryOverridden)
                            };
                            effects.push(
                                Effect::Send {
                                    to: waiter.client_id,
                                    message: Message { content: MessageContent::ClientResponse(resp), from: id },
                                },
                            );
                            proof {
                                assert(w0.subrange(0, taken + 1) =~= w0.subrange(0, taken as int).push(
                                    w0[taken as int],
                                ));
                                assert(leader.waiters@ =~= w0.subrange(taken + 1, w0.len() as int));
                            }
                            taken = taken + 1;
                        },
                        None => {},
                    }
                }
                assert(taken == r) by {
                    if taken < w0.len() {
                        assert(leader.waiters@[0] == w0[taken as int]);
                    }
                }
            },
            _ => {},
        }
        effects
    }
}

} // verus!
