//! How a node answers the messages of the other servers: vote requests and
//! responses, entries to append and the answers to them.
use vstd::prelude::*;

use crate::entry::{last_term, LogEntry};
use crate::message::{Message, MessageContent, NodeId};
use crate::node::{demotion_notices, is_append_entries, peer_at, peer_count, same_settings, send, Effect, Node};
use crate::quorum::{kth_smallest, kth_smallest_of};
use crate::role::{CandidateData, LeaderData, Role};

verus! {

/// `post` is `pre` stepped down to follower of `leader_id` in `term`.
pub open spec fn demoted(pre: Node, post: Node, leader_id: Option<NodeId>, term: usize) -> bool {
    &&& post.role is Follower
    &&& post.current_term == term
    &&& post.leader_id == leader_id
}

/// The role, term and known leader of `post` are those of `pre`.
pub open spec fn same_standing(pre: Node, post: Node) -> bool {
    &&& post.role == pre.role
    &&& post.current_term == pre.current_term
    &&& post.leader_id == pre.leader_id
}

/// Whether a server grants its vote for a vote request: the candidate's term
/// is newer and its log is at least as up to date.
pub open spec fn grants_vote(n: Node, last_log_index: usize, last_log_term: usize, term: usize) -> bool {
    &&& term > n.current_term
    &&& last_log_term >= last_term(n.logs@)
    &&& last_log_index >= n.logs@.len()
}

/// The step of `pre` to `post` on a vote request from `from`.
pub open spec fn vote_request_step(
    pre: Node,
    post: Node,
    from: NodeId,
    last_log_index: usize,
    last_log_term: usize,
    term: usize,
    granted: bool,
    effects: Seq<Effect>,
) -> bool {
    let notices = if term > pre.current_term {
        demotion_notices(pre.role, None, pre.id)
    } else {
        Seq::empty()
    };
    &&& granted == grants_vote(pre, last_log_index, last_log_term, term)
    &&& if term > pre.current_term {
        demoted(pre, post, None, term)
    } else {
        same_standing(pre, post)
    }
    &&& post.voted_for == (if granted {
        Some(from)
    } else {
        None
    })
    &&& post.logs == pre.logs
    &&& post.state == pre.state
    &&& same_settings(post, pre)
    &&& effects == notices.push(
        send(from, MessageContent::VoteResponse { granted, term: post.current_term }, pre.id),
    )
}

/// A vote response counts for `n`: `n` is candidate in the response's term
/// and the vote is granted.
pub open spec fn vote_counts(n: Node, granted: bool, term: usize) -> bool {
    &&& n.role is Candidate
    &&& term <= n.current_term
    &&& n.current_term == term
    &&& granted
}

/// The step of `pre` to `post` on a vote response.
pub open spec fn vote_response_step(
    pre: Node,
    post: Node,
    granted: bool,
    term: usize,
    effects: Seq<Effect>,
) -> bool {
    &&& post.voted_for == pre.voted_for
    &&& post.logs == pre.logs
    &&& post.state == pre.state
    &&& same_settings(post, pre)
    &&& if term > pre.current_term {
        &&& demoted(pre, post, None, term)
        &&& effects == demotion_notices(pre.role, None, pre.id)
    } else if vote_counts(pre, granted, term) {
        let votes = pre.role->Candidate_0.votes + 1;
        &&& post.current_term == pre.current_term
        &&& if votes > pre.node_count / 2 {
            // a majority: the node becomes leader
            &&& post.role matches Role::Leader(l)
            &&& l.next_index@ == Seq::new(pre.node_count as nat, |i: int| (pre.logs@.len() + 1) as usize)
            &&& l.match_index@ == Seq::new(pre.node_count as nat, |i: int| 0usize)
            &&& l.waiters@.len() == 0
            &&& post.leader_id == Some(pre.id)
            &&& effects.len() == peer_count(pre.node_count, pre.id)
            &&& forall|i: int|
                0 <= i < effects.len() ==> is_append_entries(
                    #[trigger] effects[i],
                    peer_at(i, pre.id),
                    post,
                    pre.logs@.len() + 1int,
                )
        } else {
            &&& post.role == Role::Candidate(CandidateData { votes: votes as usize })
            &&& post.leader_id == pre.leader_id
            &&& effects.len() == 0
        }
    } else {
        &&& same_standing(pre, post)
        &&& effects.len() == 0
    }
}

/// A vote response can be handled without overflow.
pub open spec fn vote_response_ok(n: Node, granted: bool, term: usize) -> bool {
    vote_counts(n, granted, term) ==> {
        &&& n.role->Candidate_0.votes < usize::MAX
        &&& n.logs@.len() < usize::MAX
    }
}

/// The log of `n` holds an entry of term `prev_log_term` at index
/// `prev_log_index` (counting from 1), or `prev_log_index` is 0.
pub open spec fn logs_match(n: Node, prev_log_index: usize, prev_log_term: usize) -> bool {
    prev_log_index == 0 || (prev_log_index - 1 < n.logs@.len() && n.logs@[prev_log_index - 1].term
        == prev_log_term)
}

/// The step of `pre` to `post` on entries to append sent by `from`.
pub open spec fn append_entries_step(
    pre: Node,
    post: Node,
    from: NodeId,
    entries: Seq<LogEntry>,
    prev_log_index: usize,
    prev_log_term: usize,
    leader_commit: usize,
    term: usize,
    success: bool,
    effects: Seq<Effect>,
) -> bool {
    let same_term = term >= pre.current_term;
    let notices = if same_term {
        demotion_notices(pre.role, Some(from), pre.id)
    } else {
        Seq::empty()
    };
    &&& success == (same_term && logs_match(pre, prev_log_index, prev_log_term))
    &&& if same_term {
        demoted(pre, post, Some(from), term)
    } else {
        same_standing(pre, post)
    }
    &&& post.voted_for == pre.voted_for
    &&& same_settings(post, pre)
    &&& post.state.files() == pre.state.files()
    &&& post.state.last_applied == pre.state.last_applied
    &&& post.state.wf()
    &&& if success {
        let last_new = prev_log_index + entries.len();
        &&& post.logs@ == merge_entries(pre.logs@, prev_log_index as int, entries)
        &&& post.state.commit_index == (if leader_commit > pre.state.commit_index && min_int(
            leader_commit as int,
            last_new,
        ) > pre.state.commit_index {
            min_int(leader_commit as int, last_new) as usize
        } else {
            pre.state.commit_index
        })
    } else {
        &&& post.logs == pre.logs
        &&& post.state.commit_index == pre.state.commit_index
    }
    &&& effects.len() == notices.len() + (if success {
        2int
    } else {
        1int
    })
    &&& effects.subrange(0, notices.len() as int) == notices
    &&& success ==> (effects[notices.len() as int] matches Effect::SaveLogs(saved) && saved@
        == post.logs@)
    &&& effects.last() == send(
        from,
        MessageContent::AppendResponse {
            success,
            match_index: (if success {
                prev_log_index + entries.len()
            } else {
                post.logs@.len() as int
            }) as usize,
            term: post.current_term,
        },
        pre.id,
    )
}

/// The smaller of two integers.
pub open spec fn min_int(a: int, b: int) -> int {
    if a <= b {
        a
    } else {
        b
    }
}

/// The log `logs` once the entries `entries` sent for the positions from `at`
/// on are taken in: entries the log already holds with the same term are
/// kept, and at the first position where the log holds nothing or an entry of
/// another term, the log is cut there and the remaining entries appended.
pub open spec fn merge_entries(logs: Seq<LogEntry>, at: int, entries: Seq<LogEntry>) -> Seq<LogEntry>
    decreases entries.len(),
{
    if entries.len() == 0 {
        logs
    } else if 0 <= at < logs.len() && logs[at].term == entries[0].term {
        merge_entries(logs, at + 1, entries.drop_first())
    } else {
        logs.subrange(0, at) + entries
    }
}

/// What merging keeps and takes: the log before `at` is kept, each position
/// sent holds an entry of the term sent, the result reaches at least past the
/// entries, and when no sent term conflicts with the log, the log is kept whole
/// as a prefix.
pub proof fn lemma_merge_entries(logs: Seq<LogEntry>, at: int, entries: Seq<LogEntry>)
    requires
        0 <= at <= logs.len(),
    ensures
        merge_entries(logs, at, entries).len() >= at + entries.len(),
        merge_entries(logs, at, entries).subrange(0, at) == logs.subrange(0, at),
        forall|k: int|
            0 <= k < entries.len() ==> #[trigger] merge_entries(logs, at, entries)[at + k].term
                == entries[k].term,
        (forall|k: int|
            0 <= k < entries.len() && at + k < logs.len() ==> #[trigger] logs[at + k].term
                == entries[k].term) ==> {
            &&& merge_entries(logs, at, entries).len() >= logs.len()
            &&& merge_entries(logs, at, entries).subrange(0, logs.len() as int) == logs
        },
    decreases entries.len(),
{
    let r = merge_entries(logs, at, entries);
    if entries.len() == 0 {
        assert(r.subrange(0, at) =~= logs.subrange(0, at));
        assert(r.subrange(0, logs.len() as int) =~= logs);
    } else if at < logs.len() && logs[at].term == entries[0].term {
        let rest = entries.drop_first();
        lemma_merge_entries(logs, at + 1, rest);
        assert(r.subrange(0, at) =~= r.subrange(0, at + 1).subrange(0, at));
        assert(logs.subrange(0, at) =~= logs.subrange(0, at + 1).subrange(0, at));
        assert forall|k: int| 0 <= k < entries.len() implies #[trigger] r[at + k].term
            == entries[k].term by {
            if k > 0 {
                assert(r[(at + 1) + (k - 1)].term == rest[k - 1].term);
            } else {
                assert(r.subrange(0, at + 1)[at] == r[at]);
                assert(logs.subrange(0, at + 1)[at] == logs[at]);
            }
        }
        if forall|k: int|
            0 <= k < entries.len() && at + k < logs.len() ==> #[trigger] logs[at + k].term
                == entries[k].term {
            assert forall|k: int|
                0 <= k < rest.len() && (at + 1) + k < logs.len() implies #[trigger] logs[(at + 1)
                + k].term == rest[k].term by {
                assert(logs[at + (k + 1)].term == entries[k + 1].term);
            }
        }
    } else {
        assert(r.subrange(0, at) =~= logs.subrange(0, at));
        assert forall|k: int| 0 <= k < entries.len() implies #[trigger] r[at + k].term
            == entries[k].term by {
            assert(r[at + k] == entries[k]);
        }
        if forall|k: int|
            0 <= k < entries.len() && at + k < logs.len() ==> #[trigger] logs[at + k].term
                == entries[k].term {
            if at < logs.len() {
                assert(logs[at + 0].term == entries[0].term);
            }
            assert(at == logs.len());
            assert(r.subrange(0, logs.len() as int) =~= logs);
        }
    }
}

/// Where a sent entry conflicts in term with the entry the log holds at its
/// position, the merged log ends with the last entry sent and holds exactly
/// the sent entries from the conflict on: nothing of the old log survives past
/// a conflict.
pub proof fn lemma_merge_cuts_at_conflict(logs: Seq<LogEntry>, at: int, entries: Seq<LogEntry>, k: int)
    requires
        0 <= at <= logs.len(),
        0 <= k < entries.len(),
        at + k < logs.len(),
        logs[at + k].term != entries[k].term,
    ensures
        merge_entries(logs, at, entries).len() == at + entries.len(),
        forall|i: int|
            k <= i < entries.len() ==> #[trigger] merge_entries(logs, at, entries)[at + i] == entries[i],
    decreases entries.len(),
{
    let r = merge_entries(logs, at, entries);
    if logs[at].term == entries[0].term {
        let rest = entries.drop_first();
        lemma_merge_cuts_at_conflict(logs, at + 1, rest, k - 1);
        assert forall|i: int| k <= i < entries.len() implies #[trigger] r[at + i] == entries[i] by {
            assert(r[(at + 1) + (i - 1)] == rest[i - 1]);
        }
    } else {
        assert forall|i: int| k <= i < entries.len() implies #[trigger] r[at + i] == entries[i] by {
            assert((logs.subrange(0, at) + entries)[at + i] == entries[i]);
        }
    }
}

/// The index a leader may commit once `from` reports a log matching up to
/// `match_index`: the largest value that more than half of the match indices
/// reach, counting its own log as matched in full.
pub open spec fn commit_candidate(n: Node, l: LeaderData, from: NodeId, match_index: usize) -> usize {
    kth_smallest(
        l.match_index@.update(from as int, match_index).update(n.id as int, n.logs@.len() as usize),
        ((n.node_count - 1) / 2) as int,
    )
}

/// Whether a leader commits that index: it is past the commit index and its
/// entry is of the current term.
pub open spec fn commits(n: Node, c: usize) -> bool {
    c > n.state.commit_index && n.logs@[c - 1].term == n.current_term
}

/// An answer to appended entries can be handled without going out of bounds.
pub open spec fn append_response_ok(
    n: Node,
    from: NodeId,
    success: bool,
    match_index: usize,
    term: usize,
) -> bool {
    (n.role is Leader && term <= n.current_term) ==> {
        let l = n.role->Leader_0;
        &&& from < n.node_count
        &&& success ==> {
            &&& match_index < usize::MAX
            &&& n.id < n.node_count
            &&& commit_candidate(n, l, from, match_index) > n.state.commit_index
                ==> commit_candidate(n, l, from, match_index) <= n.logs@.len()
        }
        &&& !success ==> l.next_index@[from as int] > 0
    }
}

/// The step of `pre` to `post` on an answer of `from` to appended entries.
pub open spec fn append_response_step(
    pre: Node,
    post: Node,
    from: NodeId,
    success: bool,
    match_index: usize,
    term: usize,
    res: bool,
    effects: Seq<Effect>,
) -> bool {
    &&& post.voted_for == pre.voted_for
    &&& post.logs == pre.logs
    &&& same_settings(post, pre)
    &&& post.state.files() == pre.state.files()
    &&& post.state.last_applied == pre.state.last_applied
    &&& post.state.wf()
    &&& if term > pre.current_term {
        &&& demoted(pre, post, None, term)
        &&& effects == demotion_notices(pre.role, None, pre.id)
        &&& post.state.commit_index == pre.state.commit_index
        &&& !res
    } else if pre.role is Leader {
        let l = pre.role->Leader_0;
        &&& res
        &&& effects.len() == 0
        &&& post.current_term == pre.current_term
        &&& post.leader_id == pre.leader_id
        &&& post.role matches Role::Leader(l2)
        &&& l2.waiters == l.waiters
        &&& if success {
            let matched = l.match_index@.update(from as int, match_index);
            let next = l.next_index@.update(from as int, (match_index + 1) as usize);
            let c = commit_candidate(pre, l, from, match_index);
            if commits(pre, c) {
                &&& l2.match_index@ == matched.update(pre.id as int, match_index)
                &&& l2.next_index@ == next.update(pre.id as int, (match_index + 1) as usize)
                &&& post.state.commit_index == c
            } else {
                &&& l2.match_index@ == matched
                &&& l2.next_index@ == next
                &&& post.state.commit_index == pre.state.commit_index
            }
        } else {
            &&& l2.match_index@ == l.match_index@
            &&& l2.next_index@ == l.next_index@.update(
                from as int,
                (l.next_index@[from as int] - 1) as usize,
            )
            &&& post.state.commit_index == pre.state.commit_index
        }
    } else {
        &&& same_standing(pre, post)
        &&& post.state.commit_index == pre.state.commit_index
        &&& effects.len() == 0
        &&& !res
    }
}

/// A server message can be handled without overflow or going out of bounds.
pub open spec fn server_message_ok(n: Node, m: Message) -> bool {
    match m.content {
        MessageContent::VoteResponse { granted, term } => vote_response_ok(n, granted, term),
        MessageContent::AppendResponse { success, match_index, term } => append_response_ok(
            n,
            m.from,
            success,
            match_index,
            term,
        ),
        _ => true,
    }
}

/// The step of `pre` to `post` on message `m` of another server; `res` tells
/// whether the message came from a live leader or candidate the node follows
/// (a granted vote, accepted entries, an answer to a leader).
pub open spec fn server_message_step(pre: Node, post: Node, m: Message, res: bool, effects: Seq<Effect>) -> bool {
    match m.content {
        MessageContent::VoteRequest { last_log_index, last_log_term, term } => vote_request_step(
            pre,
            post,
            m.from,
            last_log_index,
            last_log_term,
            term,
            res,
            effects,
        ),
        MessageContent::VoteResponse { granted, term } => !res && vote_response_step(
            pre,
            post,
            granted,
            term,
            effects,
        ),
        MessageContent::AppendEntries {
            entries,
            prev_log_index,
            prev_log_term,
            leader_commit,
            term,
        } => append_entries_step(
            pre,
            post,
            m.from,
            entries@,
            prev_log_index,
            prev_log_term,
            leader_commit,
            term,
            res,
            effects,
        ),
        MessageContent::AppendResponse { success, match_index, term } => append_response_step(
            pre,
            post,
            m.from,
            success,
            match_index,
            term,
            res,
            effects,
        ),
        _ => post == pre && !res && effects.len() == 0,
    }
}

/// Whether handling `m` calls for resetting the election timeout: a granted
/// vote, accepted entries, or an answer to a node still leading.
pub open spec fn server_message_result(n: Node, m: Message) -> bool {
    match m.content {
        MessageContent::VoteRequest { last_log_index, last_log_term, term } => grants_vote(
            n,
            last_log_index,
            last_log_term,
            term,
        ),
        MessageContent::AppendEntries { prev_log_index, prev_log_term, term, .. } => term
            >= n.current_term && logs_match(n, prev_log_index, prev_log_term),
        MessageContent::AppendResponse { term, .. } => term <= n.current_term && n.role is Leader,
        _ => false,
    }
}

/// Takes the entries sent for the positions from `at` on into `logs`, as
/// [`merge_entries`] says.
pub fn merge_into(logs: &mut Vec<LogEntry>, at: usize, entries: Vec<LogEntry>)
    requires
        at <= old(logs)@.len(),
    ensures
        final(logs)@ == merge_entries(old(logs)@, at as int, entries@),
        final(logs)@.len() >= at + entries@.len(),
{
    let ghost old_logs = logs@;
    let ghost entries_seq = entries@;
    let mut entries = entries;
    let n = entries.len();
    let mut j: usize = 0;
    proof {
        assert(entries@.subrange(0, n as int) =~= entries@);
        lemma_merge_entries(old_logs, at as int, entries_seq);
    }
    while j < n && j < logs.len() - at && logs[at + j].term == entries[j].term
        invariant
            at <= old_logs.len(),
            logs@ == old_logs,
            n == entries@.len(),
            entries@ == entries_seq,
            j <= n,
            j <= old_logs.len() - at,
            merge_entries(old_logs, at as int, entries_seq) == merge_entries(
                old_logs,
                at + j,
                entries_seq.subrange(j as int, n as int),
            ),
        decreases n - j,
    {
        proof {
            assert(entries_seq.subrange(j as int, n as int).drop_first() =~= entries_seq.subrange(
                j + 1,
                n as int,
            ));
        }
        j = j + 1;
    }
    if j < n {
        proof {
            let rest = entries_seq.subrange(j as int, n as int);
            assert(rest[0] == entries_seq[j as int]);
            assert(merge_entries(old_logs, at + j, rest) == old_logs.subrange(0, at + j) + rest);
        }
        logs.truncate(at + j);
        let mut rest = entries.split_off(j);
        logs.append(&mut rest);
        proof {
            assert(logs@ =~= old_logs.subrange(0, at + j) + entries_seq.subrange(j as int, n as int));
        }
    } else {
        proof {
            assert(entries_seq.subrange(j as int, n as int) =~= Seq::<LogEntry>::empty());
        }
    }
}

impl Node {
    /// Handles a message of another server; the result tells whether the
    /// election timeout is to be reset.
    pub fn handle_server_message(&mut self, message: Message) -> (res: (bool, Vec<Effect>))
        requires
            old(self).wf(),
            server_message_ok(*old(self), message),
        ensures
            final(self).wf(),
            res.0 == server_message_result(*old(self), message),
            server_message_step(*old(self), *final(self), message, res.0, res.1@),
    {
        let from = message.from;
        match message.content {
            MessageContent::VoteRequest { last_log_index, last_log_term, term } => {
                self.handle_vote_request(from, last_log_index, last_log_term, term)
            },
            MessageContent::VoteResponse { granted, term } => self.handle_vote_response(granted, term),
            MessageContent::AppendEntries {
                entries,
                prev_log_index,
                prev_log_term,
                leader_commit,
                term,
            } => self.handle_append_entries(
                from,
                entries,
                prev_log_index,
                prev_log_term,
                leader_commit,
                term,
            ),
            MessageContent::AppendResponse { success, match_index, term } => {
                self.handle_append_response(from, success, match_index, term)
            },
            MessageContent::ClientRequest(_)
            | MessageContent::ClientResponse(_)
            | MessageContent::Repl(_) => (false, Vec::new()),
        }
    }

    /// Whether [`Node::handle_server_message`] can take `message`: the event
    /// loop checks this first, and stops as the node would fail on it.
    pub fn can_handle_server_message(&self, message: &Message) -> (res: bool)
        requires
            self.wf(),
        ensures
            res == server_message_ok(*self, *message),
    {
        match &message.content {
            MessageContent::VoteResponse { granted, term } => {
                let counts = match &self.role {
                    Role::Candidate(_) => *term <= self.current_term && self.current_term == *term
                        && *granted,
                    _ => false,
                };
                if counts {
                    match &self.role {
                        Role::Candidate(c) => c.votes < usize::MAX && self.logs.len() < usize::MAX,
                        _ => true,
                    }
                } else {
                    true
                }
            },
            MessageContent::AppendResponse { success, match_index, term } => {
                match &self.role {
                    Role::Leader(l) => {
                        if *term > self.current_term {
                            return true;
                        }
                        let from = message.from;
                        if from >= self.node_count {
                            return false;
                        }
                        if *success {
                            if *match_index == usize::MAX || self.id >= self.node_count {
                                return false;
                            }
                            let mut matched = l.match_index.clone();
                            matched.set(from, *match_index);
                            matched.set(self.id, self.logs.len());
                            let c = kth_smallest_of(&matched, (self.node_count - 1) / 2);
                            assert(matched@ == l.match_index@.update(from as int, *match_index).update(
                                self.id as int,
                                self.logs@.len() as usize,
                            ));
                            !(c > self.state.commit_index) || c <= self.logs.len()
                        } else {
                            l.next_index[from] > 0
                        }
                    },
                    _ => true,
                }
            },
            _ => true,
        }
    }

    /// Answers a vote request of `from`.
    pub fn handle_vote_request(
        &mut self,
        from: NodeId,
        last_log_index: usize,
        last_log_term: usize,
        term: usize,
    ) -> (res: (bool, Vec<Effect>))
        requires
            old(self).wf(),
        ensures
            final(self).wf(),
            vote_request_step(
                *old(self),
                *final(self),
                from,
                last_log_index,
                last_log_term,
                term,
                res.0,
                res.1@,
            ),
    {
        let own_last_term = match self.logs.last() {
            Some(e) => e.term,
            None => 0,
        };
        let granted = term > self.current_term && last_log_term >= own_last_term && last_log_index
            >= self.logs.len();
        let mut effects = if term > self.current_term {
            self.demote_to_follower(None, term)
        } else {
            Vec::new()
        };
        self.voted_for = if granted {
            Some(from)
        } else {
            None
        };
        effects.push(
            Effect::Send {
                to: from,
                message: Message {
                    content: MessageContent::VoteResponse { granted, term: self.current_term },
                    from: self.id,
                },
            },
        );
        (granted, effects)
    }

    /// Counts a vote response; a candidate granted a majority becomes leader.
    pub fn handle_vote_response(&mut self, granted: bool, term: usize) -> (res: (bool, Vec<Effect>))
        requires
            old(self).wf(),
            vote_response_ok(*old(self), granted, term),
        ensures
            final(self).wf(),
            !res.0,
            vote_response_step(*old(self), *final(self), granted, term, res.1@),
    {
        if term > self.current_term {
            let effects = self.demote_to_follower(None, term);
            return (false, effects);
        }
        let mut effects: Vec<Effect> = Vec::new();
        let counted = match &self.role {
            Role::Candidate(candidate) => if self.current_term == term && granted {
                Some(candidate.votes + 1)
            } else {
                None
            },
            _ => None,
        };
        match counted {
            Some(votes) => {
                if votes > self.node_count / 2 {
                    effects = self.promote_leader();
                } else {
                    self.role = Role::Candidate(CandidateData { votes });
                }
            },
            None => {},
        }
        (false, effects)
    }

    /// Takes in the entries a leader sent, if the log matches it before them,
    /// keeping what it already holds of them and cutting the log only where a
    /// term conflicts; answers with the index of the last entry sent, or with
    /// the length of the log on a refusal.
    pub fn handle_append_entries(
        &mut self,
        from: NodeId,
        entries: Vec<LogEntry>,
        prev_log_index: usize,
        prev_log_term: usize,
        leader_commit: usize,
        term: usize,
    ) -> (res: (bool, Vec<Effect>))
        requires
            old(self).wf(),
        ensures
            final(self).wf(),
            append_entries_step(
                *old(self),
                *final(self),
                from,
                entries@,
                prev_log_index,
                prev_log_term,
                leader_commit,
                term,
                res.0,
                res.1@,
            ),
    {
        let ghost pre = *self;
        let ghost entries_seq = entries@;
        let same_term = term >= self.current_term;
        let mut effects = if same_term {
            self.demote_to_follower(Some(from), term)
        } else {
            Vec::new()
        };
        let ghost notices = effects@;
        let same_logs = prev_log_index == 0 || (prev_log_index - 1 < self.logs.len()
            && self.logs[prev_log_index - 1].term == prev_log_term);
        let success = same_term && same_logs;
        let mut match_index = self.logs.len();
        if success {
            let n = entries.len();
            merge_into(&mut self.logs, prev_log_index, entries);
            let merged_len = self.logs.len();
            assert(prev_log_index + n <= merged_len);
            let last_new = prev_log_index + n;
            match_index = last_new;
            if leader_commit > self.state.commit_index {
                let c = if leader_commit <= last_new {
                    leader_commit
                } else {
                    last_new
                };
                if c > self.state.commit_index {
                    self.state.set_commit_index(c);
                }
            }
            effects.push(Effect::SaveLogs(crate::entry::clone_suffix(&self.logs, 0)));
            assert(self.logs@.subrange(0, self.logs@.len() as int) =~= self.logs@);
        }
        effects.push(
            Effect::Send {
                to: from,
                message: Message {
                    content: MessageContent::AppendResponse {
                        success,
                        match_index,
                        term: self.current_term,
                    },
                    from: self.id,
                },
            },
        );
        proof {
            assert(effects@.subrange(0, notices.len() as int) =~= notices);
        }
        (success, effects)
    }

    /// Takes in a server's answer to appended entries: as leader, records how
    /// far its log matches and commits what a majority holds, or steps back
    /// its next index after a refusal.
    pub fn handle_append_response(
        &mut self,
        from: NodeId,
        success: bool,
        match_index: usize,
        term: usize,
    ) -> (res: (bool, Vec<Effect>))
        requires
            old(self).wf(),
            append_response_ok(*old(self), from, success, match_index, term),
        ensures
            final(self).wf(),
            append_response_step(*old(self), *final(self), from, success, match_index, term, res.0, res.1@),
    {
        if term > self.current_term {
            let effects = self.demote_to_follower(None, term);
            return (false, effects);
        }
        let ghost pre = *self;
        let logs_len = self.logs.len();
        let id = self.id;
        let node_count = self.node_count;
        let commit_index = self.state.commit_index;
        let current_term = self.current_term;
        let mut new_commit: Option<usize> = None;
        let handled = match &mut self.role {
            Role::Leader(leader) => {
                if success {
                    leader.match_index.set(from, match_index);
                    leader.next_index.set(from, match_index + 1);
                    let mut match_indices = leader.match_index.clone();
                    match_indices.set(id, logs_len);
                    let c = kth_smallest_of(&match_indices, (node_count - 1) / 2);
                    if c > commit_index && self.logs[c - 1].term == current_term {
                        leader.match_index.set(id, match_index);
                        leader.next_index.set(id, match_index + 1);
                        new_commit = Some(c);
                    }
                } else {
                    let n = leader.next_index[from];
                    leader.next_index.set(from, n - 1);
                }
                true
            },
            _ => false,
        };
        match new_commit {
            Some(c) => {
                self.state.set_commit_index(c);
            },
            None => {},
        }
        (handled, Vec::new())
    }
}

} // verus!
