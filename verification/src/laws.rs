//! Properties of the node's steps that hold across calls and states.
use vstd::prelude::*;

use crate::clients::client_command_step;
use crate::entry::LogEntry;
use crate::events::{nanos_per_milli, timeout_nanos, timeout_ok};
use crate::events::message_step;
use crate::message::{ClientCommand, Message, MessageContent, NodeId};
use crate::node::send;
use crate::node::{Effect, Node};
use crate::quorum::{at_least, lemma_kth_smallest_held_by_rest, lemma_majority_reaches_middle};
use crate::server::{
    append_entries_step, append_response_ok, append_response_step, commit_candidate, lemma_merge_cuts_at_conflict,
    lemma_merge_entries, server_message_step, vote_request_step, vote_response_step,
};
use crate::role::{CandidateData, Role};
use crate::state::{apply_entries, FileView};

verus! {

proof fn lemma_apply_entries_concat(
    files: Map<Seq<char>, FileView>,
    a: Seq<LogEntry>,
    b: Seq<LogEntry>,
)
    ensures
        apply_entries(apply_entries(files, a), b) == apply_entries(files, a + b),
    decreases b.len(),
{
    if b.len() == 0 {
        assert(a + b =~= a);
    } else {
        lemma_apply_entries_concat(files, a, b.drop_last());
        assert((a + b).drop_last() =~= a + b.drop_last());
        assert((a + b).last() == b.last());
    }
}

/// The store is the replay of the committed log: if it holds the effect of
/// the first `last_applied` entries of the log on the empty store, applying
/// the entries up to `commit_index` gives the effect of the first
/// `commit_index` entries.
pub proof fn lemma_store_replays_log(
    files: Map<Seq<char>, FileView>,
    logs: Seq<LogEntry>,
    last_applied: int,
    commit_index: int,
)
    requires
        0 <= last_applied <= commit_index <= logs.len(),
        files == apply_entries(Map::empty(), logs.subrange(0, last_applied)),
    ensures
        apply_entries(files, logs.subrange(last_applied, commit_index)) == apply_entries(
            Map::empty(),
            logs.subrange(0, commit_index),
        ),
{
    lemma_apply_entries_concat(
        Map::empty(),
        logs.subrange(0, last_applied),
        logs.subrange(last_applied, commit_index),
    );
    assert(logs.subrange(0, last_applied) + logs.subrange(last_applied, commit_index) =~= logs.subrange(
        0,
        commit_index,
    ));
}

/// A server's term never goes back on a message of another server.
pub proof fn lemma_term_never_decreases(pre: Node, post: Node, m: Message, res: bool, effects: Seq<Effect>)
    requires
        server_message_step(pre, post, m, res, effects),
    ensures
        post.current_term >= pre.current_term,
{
}

/// The term a message of a server carries, if any.
pub open spec fn message_term(content: MessageContent) -> Option<usize> {
    match content {
        MessageContent::VoteRequest { term, .. } => Some(term),
        MessageContent::VoteResponse { term, .. } => Some(term),
        MessageContent::AppendEntries { term, .. } => Some(term),
        MessageContent::AppendResponse { term, .. } => Some(term),
        _ => None,
    }
}

/// On a message of another server carrying term `term`, a server's term
/// becomes the larger of its own and `term`; a newer term makes it a
/// follower, and accepted authority of a leader makes it that leader's follower.
pub proof fn lemma_term_is_max(
    pre: Node,
    post: Node,
    m: Message,
    res: bool,
    effects: Seq<Effect>,
    term: usize,
)
    requires
        server_message_step(pre, post, m, res, effects),
        message_term(m.content) == Some(term),
    ensures
        post.current_term == (if term > pre.current_term {
            term
        } else {
            pre.current_term
        }),
        term > pre.current_term ==> post.role is Follower,
        (m.content is AppendEntries && term >= pre.current_term) ==> (post.role is Follower
            && post.leader_id == Some(m.from)),
{
}

/// A vote request of an older term changes neither the term nor the role of
/// the server and gets no vote; a live server answers it with a refusal in its
/// own term, a crashed one does not answer.
pub proof fn lemma_stale_vote_request(
    pre: Node,
    post: Node,
    m: Message,
    reset: bool,
    effects: Seq<Effect>,
    term: usize,
)
    requires
        message_step(pre, post, m, reset, effects),
        m.content matches MessageContent::VoteRequest { term: t, .. } && t == term,
        term < pre.current_term,
    ensures
        !reset,
        post.current_term == pre.current_term,
        post.role == pre.role,
        pre.simulate_crash ==> effects.len() == 0,
        !pre.simulate_crash ==> effects == seq![
            send(
                m.from,
                MessageContent::VoteResponse { granted: false, term: pre.current_term },
                pre.id,
            ),
        ],
{
    if !pre.simulate_crash {
        assert(Seq::<Effect>::empty().push(
            send(m.from, MessageContent::VoteResponse { granted: false, term: pre.current_term }, pre.id),
        ) =~= seq![
            send(
                m.from,
                MessageContent::VoteResponse { granted: false, term: pre.current_term },
                pre.id,
            ),
        ]);
    }
}

/// A leader's commit index never goes back on an answer to appended entries,
/// and it only moves to an entry of the leader's current term.
pub proof fn lemma_leader_commits_current_term(
    pre: Node,
    post: Node,
    m: Message,
    res: bool,
    effects: Seq<Effect>,
)
    requires
        server_message_step(pre, post, m, res, effects),
        m.content is AppendResponse,
        pre.role is Leader,
    ensures
        post.state.commit_index >= pre.state.commit_index,
        post.state.commit_index > pre.state.commit_index ==> post.logs@[post.state.commit_index
            - 1].term == post.current_term,
{
}

/// A server grants at most one vote per term: once it granted a vote for
/// term `term`, it refuses any other vote request for that term.
pub proof fn lemma_one_vote_per_term(
    n0: Node,
    n1: Node,
    n2: Node,
    first: NodeId,
    second: NodeId,
    index1: usize,
    last_term1: usize,
    index2: usize,
    last_term2: usize,
    term: usize,
    granted2: bool,
    effects1: Seq<Effect>,
    effects2: Seq<Effect>,
)
    requires
        vote_request_step(n0, n1, first, index1, last_term1, term, true, effects1),
        vote_request_step(n1, n2, second, index2, last_term2, term, granted2, effects2),
    ensures
        n1.voted_for == Some(first),
        n1.current_term == term,
        !granted2,
{
}

/// A server becomes leader on a vote response only when the votes it holds
/// reach more than half of the servers.
pub proof fn lemma_leader_by_majority(pre: Node, post: Node, granted: bool, term: usize, effects: Seq<Effect>)
    requires
        vote_response_step(pre, post, granted, term, effects),
        !(pre.role is Leader),
        post.role is Leader,
    ensures
        pre.role is Candidate,
        pre.role->Candidate_0.votes + 1 > pre.node_count / 2,
        post.current_term == pre.current_term,
{
}

/// A follower that accepts entries holds, right after the entry the leader
/// named, an entry of each sent term, keeps its log before that entry, and
/// never lowers its commit index, nor raises it past its log.
pub proof fn lemma_accepted_entries_match(
    pre: Node,
    post: Node,
    from: NodeId,
    entries: Seq<LogEntry>,
    prev_log_index: usize,
    prev_log_term: usize,
    leader_commit: usize,
    term: usize,
    effects: Seq<Effect>,
)
    requires
        append_entries_step(
            pre,
            post,
            from,
            entries,
            prev_log_index,
            prev_log_term,
            leader_commit,
            term,
            true,
            effects,
        ),
    ensures
        post.logs@.len() >= prev_log_index + entries.len(),
        post.logs@.subrange(0, prev_log_index as int) == pre.logs@.subrange(0, prev_log_index as int),
        forall|k: int|
            0 <= k < entries.len() ==> #[trigger] post.logs@[prev_log_index + k].term
                == entries[k].term,
        prev_log_index > 0 ==> post.logs@[prev_log_index - 1].term == prev_log_term,
        post.state.commit_index >= pre.state.commit_index,
        post.state.commit_index > pre.state.commit_index ==> post.state.commit_index
            <= prev_log_index + entries.len(),
{
    lemma_merge_entries(pre.logs@, prev_log_index as int, entries);
    if prev_log_index > 0 {
        assert(post.logs@.subrange(0, prev_log_index as int)[prev_log_index - 1]
            == pre.logs@.subrange(0, prev_log_index as int)[prev_log_index - 1]);
    }
}

/// Entries that agree in term with every entry the follower already holds at
/// their positions, such as a delayed copy of entries it has, never remove an
/// entry: the old log stays a prefix of the new one, so no committed entry is
/// lost, and the commit index does not go back.
pub proof fn lemma_agreeing_entries_keep_log(
    pre: Node,
    post: Node,
    from: NodeId,
    entries: Seq<LogEntry>,
    prev_log_index: usize,
    prev_log_term: usize,
    leader_commit: usize,
    term: usize,
    effects: Seq<Effect>,
)
    requires
        append_entries_step(
            pre,
            post,
            from,
            entries,
            prev_log_index,
            prev_log_term,
            leader_commit,
            term,
            true,
            effects,
        ),
        forall|k: int|
            0 <= k < entries.len() && prev_log_index + k < pre.logs@.len() ==> #[trigger] pre.logs@[prev_log_index
                + k].term == entries[k].term,
    ensures
        post.logs@.len() >= pre.logs@.len(),
        post.logs@.subrange(0, pre.logs@.len() as int) == pre.logs@,
        post.state.commit_index >= pre.state.commit_index,
{
    lemma_merge_entries(pre.logs@, prev_log_index as int, entries);
}

/// An empty append at the end of a matching log, as a heartbeat, leaves the
/// log as it is and reports its length: the match index never goes back.
pub proof fn lemma_heartbeat_keeps_log(
    pre: Node,
    post: Node,
    from: NodeId,
    prev_log_term: usize,
    leader_commit: usize,
    term: usize,
    success: bool,
    effects: Seq<Effect>,
)
    requires
        append_entries_step(
            pre,
            post,
            from,
            Seq::empty(),
            pre.logs@.len() as usize,
            prev_log_term,
            leader_commit,
            term,
            success,
            effects,
        ),
        pre.logs@.len() <= usize::MAX,
    ensures
        post.logs@ == pre.logs@,
{
    if success {
        assert(pre.logs@.subrange(0, pre.logs@.len() as int) + Seq::<LogEntry>::empty() =~= pre.logs@);
    }
}

/// A leader commits an index only when it holds an entry of its own term
/// there and more than half of the servers (itself counted with its whole
/// log) are known to hold the log up to it.
pub proof fn lemma_commit_needs_quorum(
    pre: Node,
    post: Node,
    from: NodeId,
    success: bool,
    match_index: usize,
    term: usize,
    res: bool,
    effects: Seq<Effect>,
)
    requires
        pre.wf(),
        append_response_ok(pre, from, success, match_index, term),
        append_response_step(pre, post, from, success, match_index, term, res, effects),
        post.state.commit_index != pre.state.commit_index,
    ensures
        pre.role is Leader,
        post.state.commit_index > pre.state.commit_index,
        pre.logs@[post.state.commit_index - 1].term == pre.current_term,
        ({
            let held = pre.role->Leader_0.match_index@.update(from as int, match_index).update(
                pre.id as int,
                pre.logs@.len() as usize,
            );
            &&& held.len() == pre.node_count
            &&& at_least(held, post.state.commit_index).len() > pre.node_count / 2
        }),
{
    let l = pre.role->Leader_0;
    let held = l.match_index@.update(from as int, match_index).update(
        pre.id as int,
        pre.logs@.len() as usize,
    );
    assert(post.state.commit_index == commit_candidate(pre, l, from, match_index));
    lemma_kth_smallest_held_by_rest(held, ((pre.node_count - 1) / 2) as int);
}

/// A client command never changes the log a leader already holds: it at
/// most appends one entry.
pub proof fn lemma_client_commands_append_only(
    pre: Node,
    post: Node,
    command: ClientCommand,
    from: NodeId,
    effects: Seq<Effect>,
)
    requires
        client_command_step(pre, post, command, from, effects),
    ensures
        pre.logs@.len() <= post.logs@.len() <= pre.logs@.len() + 1,
        post.logs@.subrange(0, pre.logs@.len() as int) == pre.logs@,
{
    if post.logs@.len() == pre.logs@.len() + 1 {
        assert(post.logs@.subrange(0, pre.logs@.len() as int) =~= post.logs@.drop_last());
    } else {
        assert(post.logs@.subrange(0, pre.logs@.len() as int) =~= pre.logs@);
    }
}

/// A follower or candidate draws its election timeout in the configured
/// range, to the millisecond: from the lower bound's millisecond up to, not
/// including, the upper bound's.
pub proof fn lemma_timeout_in_range(n: Node, random: u128)
    requires
        timeout_ok(n),
        !(n.role is Leader),
        n.election_timeout_range.0 != n.election_timeout_range.1,
        n.election_timeout_range.1 / nanos_per_milli() <= u64::MAX,
    ensures
        (n.election_timeout_range.0 / nanos_per_milli()) * nanos_per_milli() <= timeout_nanos(n, random),
        timeout_nanos(n, random) < (n.election_timeout_range.1 / nanos_per_milli()) * nanos_per_milli(),
{
    let (min, max) = n.election_timeout_range;
    let min_ms = min / nanos_per_milli();
    let max_ms = max / nanos_per_milli();
    let ms = random % ((max_ms - min_ms) as u128) + min_ms;
    assert(min_ms <= ms < max_ms);
    assert((ms as u64) as u128 == ms);
    assert(min_ms * 1_000_000 <= ms * 1_000_000 < max_ms * 1_000_000) by (nonlinear_arith)
        requires
            min_ms <= ms < max_ms,
    ;
}

/// A follower that accepts entries of which one conflicts in term with the
/// entry it holds at that position drops its log from the conflict on: the
/// log then ends with the last entry sent, holds exactly the sent entries from
/// the conflict on, and keeps what it held before the leader's named entry.
pub proof fn lemma_conflicting_entries_replace_tail(
    pre: Node,
    post: Node,
    from: NodeId,
    entries: Seq<LogEntry>,
    prev_log_index: usize,
    prev_log_term: usize,
    leader_commit: usize,
    term: usize,
    effects: Seq<Effect>,
    k: int,
)
    requires
        append_entries_step(
            pre,
            post,
            from,
            entries,
            prev_log_index,
            prev_log_term,
            leader_commit,
            term,
            true,
            effects,
        ),
        0 <= k < entries.len(),
        prev_log_index + k < pre.logs@.len(),
        pre.logs@[prev_log_index + k].term != entries[k].term,
    ensures
        post.logs@.len() == prev_log_index + entries.len(),
        post.logs@.subrange(0, prev_log_index as int) == pre.logs@.subrange(0, prev_log_index as int),
        forall|i: int| k <= i < entries.len() ==> #[trigger] post.logs@[prev_log_index + i] == entries[i],
{
    lemma_merge_entries(pre.logs@, prev_log_index as int, entries);
    lemma_merge_cuts_at_conflict(pre.logs@, prev_log_index as int, entries, k);
}

/// A leader commits whatever a majority holds: on a successful answer, if
/// more than half of the servers (itself counted with its whole log) hold the
/// log up to index `c` past the commit index, and the entry at `c` is of the
/// current term, the commit index reaches at least `c`. The leader's log is
/// taken with terms that never decrease along it nor exceed its current term,
/// as a leader's log always has.
pub proof fn lemma_majority_is_committed(
    pre: Node,
    post: Node,
    from: NodeId,
    match_index: usize,
    term: usize,
    res: bool,
    effects: Seq<Effect>,
    c: usize,
)
    requires
        pre.wf(),
        pre.role is Leader,
        term <= pre.current_term,
        append_response_ok(pre, from, true, match_index, term),
        append_response_step(pre, post, from, true, match_index, term, res, effects),
        forall|i: int, j: int|
            0 <= i <= j < pre.logs@.len() ==> #[trigger] pre.logs@[i].term <= #[trigger] pre.logs@[j].term,
        forall|i: int| 0 <= i < pre.logs@.len() ==> #[trigger] pre.logs@[i].term <= pre.current_term,
        pre.state.commit_index < c <= pre.logs@.len(),
        pre.logs@[c - 1].term == pre.current_term,
        at_least(
            pre.role->Leader_0.match_index@.update(from as int, match_index).update(
                pre.id as int,
                pre.logs@.len() as usize,
            ),
            c,
        ).len() > pre.node_count / 2,
    ensures
        post.state.commit_index >= c,
{
    let l = pre.role->Leader_0;
    let held = l.match_index@.update(from as int, match_index).update(
        pre.id as int,
        pre.logs@.len() as usize,
    );
    lemma_majority_reaches_middle(held, c);
    let m = commit_candidate(pre, l, from, match_index);
    assert(held.len() == pre.node_count);
    assert(m >= c);
    assert(m <= pre.logs@.len());
    assert(pre.logs@[c - 1].term <= pre.logs@[m - 1].term);
}

/// A server grants its vote exactly when the request is of a newer term and
/// the candidate's log is at least as up to date as its own: its last entry
/// is of no older a term, and it is no shorter. The answer carries the vote,
/// and the server records it.
pub proof fn lemma_vote_needs_up_to_date_log(
    pre: Node,
    post: Node,
    from: NodeId,
    last_log_index: usize,
    last_log_term: usize,
    term: usize,
    granted: bool,
    effects: Seq<Effect>,
)
    requires
        vote_request_step(pre, post, from, last_log_index, last_log_term, term, granted, effects),
    ensures
        granted <==> {
            &&& term > pre.current_term
            &&& last_log_term >= (if pre.logs@.len() == 0 {
                0
            } else {
                pre.logs@[pre.logs@.len() - 1].term
            })
            &&& last_log_index >= pre.logs@.len()
        },
        granted ==> post.voted_for == Some(from),
        !granted ==> post.voted_for is None,
        effects.last() == send(
            from,
            MessageContent::VoteResponse { granted, term: post.current_term },
            pre.id,
        ),
{
}

/// A refused vote, or an answer of an older term, changes neither the role,
/// the vote count, the term nor the known leader, and sends nothing.
pub proof fn lemma_refused_vote_not_counted(
    pre: Node,
    post: Node,
    granted: bool,
    term: usize,
    effects: Seq<Effect>,
)
    requires
        vote_response_step(pre, post, granted, term, effects),
        !granted || term < pre.current_term,
        term <= pre.current_term,
    ensures
        post.role == pre.role,
        post.current_term == pre.current_term,
        post.leader_id == pre.leader_id,
        effects.len() == 0,
{
}

/// A vote granted to a candidate in its own term adds exactly one vote: the
/// candidate becomes leader when that vote gives it more than half of the
/// servers, and otherwise stays candidate with one vote more.
pub proof fn lemma_granted_vote_counts_once(
    pre: Node,
    post: Node,
    term: usize,
    effects: Seq<Effect>,
)
    requires
        vote_response_step(pre, post, true, term, effects),
        pre.role is Candidate,
        term == pre.current_term,
    ensures
        post.current_term == pre.current_term,
        post.role is Leader <==> pre.role->Candidate_0.votes + 1 > pre.node_count / 2,
        !(post.role is Leader) ==> post.role == Role::Candidate(
            CandidateData { votes: (pre.role->Candidate_0.votes + 1) as usize },
        ),
{
}

/// A follower that accepts entries moves its commit index to the leader's
/// commit index, capped at the last entry sent, unless it already stood
/// further: it never goes back, and it reaches every index both the leader
/// has committed and the message covers.
pub proof fn lemma_follower_commit_follows_leader(
    pre: Node,
    post: Node,
    from: NodeId,
    entries: Seq<LogEntry>,
    prev_log_index: usize,
    prev_log_term: usize,
    leader_commit: usize,
    term: usize,
    effects: Seq<Effect>,
)
    requires
        append_entries_step(
            pre,
            post,
            from,
            entries,
            prev_log_index,
            prev_log_term,
            leader_commit,
            term,
            true,
            effects,
        ),
    ensures
        post.state.commit_index >= pre.state.commit_index,
        post.state.commit_index >= leader_commit || post.state.commit_index >= prev_log_index
            + entries.len(),
        post.state.commit_index > pre.state.commit_index ==> post.state.commit_index <= leader_commit
            && post.state.commit_index <= prev_log_index + entries.len(),
{
}

} // verus!
