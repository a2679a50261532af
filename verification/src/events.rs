//! The decisions of a node's event loop: what each received message and each
//! expired timer does, and what follows every turn of the loop.
use vstd::prelude::*;

use crate::clients::{
    client_command_ok, client_command_step, commit_answer, lemma_ready_end, notify_ok, ready_end,
};
use crate::message::{Message, MessageContent};
use crate::node::{election_step, heartbeat, same_settings, Effect, Node};
use crate::repl::{repl_ok, repl_step};
use crate::role::{Role, WaitingClient};
use crate::server::{server_message_ok, server_message_result, server_message_step};
use crate::state::apply_entries;

verus! {

/// A received message can be handled without overflow or going out of bounds.
pub open spec fn message_ok(n: Node, m: Message) -> bool {
    match m.content {
        MessageContent::Repl(action) => repl_ok(n, action),
        MessageContent::ClientRequest(command) => n.simulate_crash || client_command_ok(n, command),
        _ => n.simulate_crash || server_message_ok(n, m),
    }
}

/// The step of `pre` to `post` on a received message; `reset` tells whether
/// the election timer starts again.
pub open spec fn message_step(pre: Node, post: Node, m: Message, reset: bool, effects: Seq<Effect>) -> bool {
    match m.content {
        MessageContent::Repl(action) => !reset && repl_step(pre, post, action, effects),
        MessageContent::ClientRequest(command) => !reset && if pre.simulate_crash {
            // a crashed node ignores its clients
            &&& post == pre
            &&& effects.len() == 0
        } else {
            client_command_step(pre, post, command, m.from, effects)
        },
        _ => if pre.simulate_crash {
            // a crashed node ignores the other servers
            &&& post == pre
            &&& !reset
            &&& effects.len() == 0
        } else {
            &&& server_message_step(pre, post, m, server_message_result(pre, m), effects)
            &&& reset == (server_message_result(pre, m) && !(post.role is Candidate))
        },
    }
}

/// The election timer can expire without overflow or going out of bounds.
pub open spec fn timer_ok(n: Node) -> bool {
    !n.simulate_crash ==> if n.role is Leader {
        n.send_entries_ok()
    } else {
        n.current_term < usize::MAX
    }
}

/// The committed entries can be applied and the waiting clients answered.
pub open spec fn turn_end_ok(n: Node) -> bool {
    &&& n.state.commit_index > n.state.last_applied ==> n.state.commit_index <= n.logs@.len()
    &&& notify_ok(n)
}

/// Nanoseconds in a millisecond.
pub open spec fn nanos_per_milli() -> u128 {
    1_000_000
}

/// A timeout can be drawn from the election timeout range: between two
/// distinct bounds, the upper one is a later millisecond than the lower one.
pub open spec fn timeout_ok(n: Node) -> bool {
    let (min, max) = n.election_timeout_range;
    (!(n.role is Leader) && max != min) ==> max / nanos_per_milli() > min / nanos_per_milli()
}

/// The timeout drawn with `random`, in nanoseconds: half the lower bound for
/// a leader's heartbeat, else the lower bound when the range is a single
/// value, else a whole number of milliseconds in the range.
pub open spec fn timeout_nanos(n: Node, random: u128) -> u128 {
    let (min, max) = n.election_timeout_range;
    if n.role is Leader {
        min / 2
    } else if max == min {
        min
    } else {
        let min_ms = min / nanos_per_milli();
        let max_ms = max / nanos_per_milli();
        let ms = random % ((max_ms - min_ms) as u128) + min_ms;
        ((ms as u64) as u128 * nanos_per_milli()) as u128
    }
}

/// Draws a random number: `rand::random` of the `rand` crate, which promises
/// nothing of the value.
#[verifier::external_body]
pub(crate) fn random_u128() -> u128 {
    rand::random::<u128>()
}

impl Node {
    /// Handles a received message: operator actions in any case, client
    /// requests and messages of other servers unless the node is crashed.
    pub fn handle_message(&mut self, message: Message) -> (res: (bool, Vec<Effect>))
        requires
            old(self).wf(),
            message_ok(*old(self), message),
        ensures
            final(self).wf(),
            message_step(*old(self), *final(self), message, res.0, res.1@),
    {
        let from = message.from;
        match message.content {
            MessageContent::Repl(action) => (false, self.handle_repl(action)),
            MessageContent::ClientRequest(command) => {
                if self.simulate_crash {
                    (false, Vec::new())
                } else {
                    (false, self.handle_client_command(command, from))
                }
            },
            content => {
                if self.simulate_crash {
                    (false, Vec::new())
                } else {
                    let (handled, effects) = self.handle_server_message(Message { content, from });
                    let reset = handled && !self.role.is_candidate();
                    (reset, effects)
                }
            },
        }
    }

    /// Whether [`Node::handle_message`] can take `message`: the event loop
    /// checks this first, and stops as the node would fail on it.
    pub fn can_handle_message(&self, message: &Message) -> (res: bool)
        requires
            self.wf(),
        ensures
            res == message_ok(*self, *message),
    {
        match &message.content {
            MessageContent::Repl(action) => match action {
                crate::message::ReplAction::Timeout => self.current_term < usize::MAX,
                _ => true,
            },
            MessageContent::ClientRequest(command) => {
                self.simulate_crash || match command {
                    crate::message::ClientCommand::List | crate::message::ClientCommand::Get { .. } => true,
                    _ => !self.role.is_leader() || self.logs.len() < usize::MAX,
                }
            },
            _ => self.simulate_crash || self.can_handle_server_message(message),
        }
    }

    /// The election timer expired: a leader sends its heartbeat, any other
    /// node starts an election, and the turn goes on to its end. A crashed node
    /// does nothing and the turn stops there (`None`): nothing is applied and
    /// no client is answered.
    pub fn on_timeout(&mut self) -> (res: Option<Vec<Effect>>)
        requires
            old(self).wf(),
            timer_ok(*old(self)),
        ensures
            final(self).wf(),
            if old(self).simulate_crash {
                *final(self) == *old(self) && res is None
            } else if old(self).role is Leader {
                &&& *final(self) == *old(self)
                &&& res matches Some(effects)
                &&& heartbeat(*old(self), effects@)
            } else {
                &&& res matches Some(effects)
                &&& election_step(*old(self), *final(self), effects@)
            },
    {
        if self.simulate_crash {
            None
        } else if !self.role.is_leader() {
            Some(self.start_election())
        } else {
            Some(self.send_entries())
        }
    }

    /// Whether [`Node::on_timeout`] can run now.
    pub fn can_time_out(&self) -> (res: bool)
        requires
            self.wf(),
        ensures
            res == timer_ok(*self),
    {
        if self.simulate_crash {
            return true;
        }
        match &self.role {
            Role::Leader(leader) => {
                let mut f: usize = 0;
                while f < self.node_count
                    invariant
                        f <= self.node_count,
                        self.wf(),
                        !self.simulate_crash,
                        self.role == Role::Leader(*leader),
                        forall|g: int|
                            0 <= g < f && g != self.id ==> 1 <= #[trigger] leader.next_index@[g]
                                <= self.logs@.len() + 1,
                    decreases self.node_count - f,
                {
                    if f != self.id {
                        let n = leader.next_index[f];
                        if n < 1 || n - 1 > self.logs.len() {
                            assert(self.role->Leader_0.next_index@[f as int] == n);
                            assert(!self.send_entries_ok());
                            return false;
                        }
                    }
                    f = f + 1;
                }
                true
            },
            _ => self.current_term < usize::MAX,
        }
    }

    /// The end of a turn of the event loop: applies the committed entries to
    /// the store, then answers the clients whose entries are committed.
    pub fn finish_turn(&mut self) -> (effects: Vec<Effect>)
        requires
            old(self).wf(),
            turn_end_ok(*old(self)),
        ensures
            final(self).wf(),
            final(self).state.commit_index == old(self).state.commit_index,
            if old(self).state.commit_index > old(self).state.last_applied {
                &&& final(self).state.files() == apply_entries(
                    old(self).state.files(),
                    old(self).logs@.subrange(
                        old(self).state.last_applied as int,
                        old(self).state.commit_index as int,
                    ),
                )
                &&& final(self).state.last_applied == old(self).state.commit_index
            } else {
                &&& final(self).state.files() == old(self).state.files()
                &&& final(self).state.last_applied == old(self).state.last_applied
            },
            final(self).logs == old(self).logs,
            final(self).current_term == old(self).current_term,
            final(self).voted_for == old(self).voted_for,
            final(self).leader_id == old(self).leader_id,
            same_settings(*final(self), *old(self)),
            match old(self).role {
                Role::Leader(l) => {
                    let r = ready_end(l.waiters@, 0, old(self).state.commit_index);
                    &&& final(self).role matches Role::Leader(l2)
                    &&& l2.next_index == l.next_index
                    &&& l2.match_index == l.match_index
                    &&& l2.waiters@ == l.waiters@.subrange(r, l.waiters@.len() as int)
                    &&& effects@ == l.waiters@.subrange(0, r).map_values(
                        |w: WaitingClient| commit_answer(*old(self), w),
                    )
                },
                _ => final(self).role == old(self).role && effects@.len() == 0,
            },
    {
        self.state.apply_committed_entries(&self.logs);
        self.notify_waiting_clients()
    }

    /// Whether [`Node::finish_turn`] can run now.
    pub fn can_finish_turn(&self) -> (res: bool)
        requires
            self.wf(),
        ensures
            res == turn_end_ok(*self),
    {
        if self.state.commit_index > self.state.last_applied && self.state.commit_index > self.logs.len() {
            return false;
        }
        match &self.role {
            Role::Leader(leader) => {
                let n = leader.waiters.len();
                let mut i: usize = 0;
                while i < n && leader.waiters[i].index <= self.state.commit_index
                    invariant
                        n == leader.waiters@.len(),
                        i <= n,
                        self.role == Role::Leader(*leader),
                        ready_end(leader.waiters@, i as int, self.state.commit_index) == ready_end(
                            leader.waiters@,
                            0,
                            self.state.commit_index,
                        ),
                        forall|j: int|
                            0 <= j < i ==> 1 <= #[trigger] leader.waiters@[j].index <= self.logs@.len(),
                    decreases n - i,
                {
                    let index = leader.waiters[i].index;
                    proof {
                        lemma_ready_end(leader.waiters@, i + 1, self.state.commit_index);
                    }
                    if index < 1 || index > self.logs.len() {
                        assert(!(1 <= leader.waiters@[i as int].index <= self.logs@.len()));
                        return false;
                    }
                    i = i + 1;
                }
                proof {
                    lemma_ready_end(leader.waiters@, i as int, self.state.commit_index);
                }
                true
            },
            _ => true,
        }
    }

    /// The timeout drawn with the random number `random`, in nanoseconds.
    pub fn timeout_for(&self, random: u128) -> (res: u128)
        requires
            timeout_ok(*self),
        ensures
            res == timeout_nanos(*self, random),
    {
        let (min, max) = self.election_timeout_range;
        if self.role.is_leader() {
            min / 2
        } else if max == min {
            min
        } else {
            let min_ms = min / 1_000_000;
            let max_ms = max / 1_000_000;
            let ms = random % (max_ms - min_ms) + min_ms;
            (ms as u64) as u128 * 1_000_000
        }
    }

    /// Draws the next timeout of the node, in nanoseconds.
    pub fn generate_timeout(&self) -> (res: u128)
        requires
            timeout_ok(*self),
        ensures
            exists|random: u128| res == timeout_nanos(*self, random),
    {
        let random = random_u128();
        self.timeout_for(random)
    }

    /// Whether a timeout can be drawn now.
    pub fn can_generate_timeout(&self) -> (res: bool)
        ensures
            res == timeout_ok(*self),
    {
        let (min, max) = self.election_timeout_range;
        self.role.is_leader() || max == min || max / 1_000_000 > min / 1_000_000
    }
}

} // verus!
