//! How a node obeys the operator console.
use vstd::prelude::*;

use crate::message::ReplAction;
use crate::node::{election_step, Effect, Node, Status};
use crate::persistent_state::PersistentState;
use crate::role::{role_name, Role};
use crate::state::VolatileState;

verus! {

/// `s` shows the state of `n`.
pub open spec fn status_of(n: Node, s: Status) -> bool {
    &&& s.id == n.id
    &&& s.current_term == n.current_term
    &&& s.voted_for == n.voted_for
    &&& s.leader_id == n.leader_id
    &&& s.role@ == role_name(n.role)
    &&& match n.role {
        Role::Leader(l) => {
            &&& s.next_index matches Some(v) && v@ == l.next_index@
            &&& s.match_index matches Some(v) && v@ == l.match_index@
            &&& s.votes is None
        },
        Role::Candidate(c) => {
            &&& s.next_index is None
            &&& s.match_index is None
            &&& s.votes == Some(c.votes)
        },
        Role::Follower => {
            &&& s.next_index is None
            &&& s.match_index is None
            &&& s.votes is None
        },
    }
    &&& s.log_count == n.logs@.len()
    &&& s.commit_index == n.state.commit_index
    &&& s.last_applied == n.state.last_applied
}

/// `effects` is the single display of the state of `n`.
pub open spec fn displays(n: Node, effects: Seq<Effect>) -> bool {
    &&& effects.len() == 1
    &&& effects[0] matches Effect::Display(s)
    &&& status_of(n, s)
}

/// An operator action can be obeyed without overflow.
pub open spec fn repl_ok(n: Node, action: ReplAction) -> bool {
    action == ReplAction::Timeout ==> n.current_term < usize::MAX
}

/// The step of `pre` to `post` on an operator action.
pub open spec fn repl_step(pre: Node, post: Node, action: ReplAction, effects: Seq<Effect>) -> bool {
    match action {
        ReplAction::Crash => {
            &&& post.simulate_crash
            &&& post.state.files().len() == 0
            &&& post.state.commit_index == 0
            &&& post.state.last_applied == 0
            &&& post.logs@.len() == 0
            &&& post.current_term == 0
            &&& post.leader_id is None
            &&& post.voted_for is None
            &&& post.role == pre.role
            &&& post.id == pre.id
            &&& post.node_count == pre.node_count
            &&& post.shutdown_requested == pre.shutdown_requested
            &&& post.election_timeout_range == pre.election_timeout_range
            &&& post.speed == pre.speed
            &&& effects.len() == 0
        },
        ReplAction::Start => post == pre && effects.len() == 0,
        ReplAction::Shutdown => post == Node { shutdown_requested: true, ..pre } && effects.len() == 0,
        ReplAction::Timeout => election_step(pre, post, effects),
        ReplAction::Display => post == pre && displays(pre, effects),
        ReplAction::Recovery => post == pre && effects == seq![Effect::LoadPersistentState],
        ReplAction::Speed(speed) => post == Node { speed, ..pre } && effects.len() == 0,
    }
}

impl Node {
    /// The state of the node as the console shows it.
    pub fn display(&self) -> (res: Status)
        ensures
            status_of(*self, res),
    {
        let (next_index, match_index, votes) = match &self.role {
            Role::Leader(leader) => (
                Some(leader.next_index.clone()),
                Some(leader.match_index.clone()),
                None,
            ),
            Role::Candidate(candidate) => (None, None, Some(candidate.votes)),
            Role::Follower => (None, None, None),
        };
        Status {
            id: self.id,
            current_term: self.current_term,
            voted_for: self.voted_for,
            leader_id: self.leader_id,
            role: self.role.to_string(),
            next_index,
            match_index,
            votes,
            log_count: self.logs.len(),
            commit_index: self.state.commit_index,
            last_applied: self.state.last_applied,
        }
    }

    /// Obeys an operator action. Recovery asks the event loop to read the
    /// node's file first, then to hand it to [`Node::recover`].
    pub fn handle_repl(&mut self, action: ReplAction) -> (effects: Vec<Effect>)
        requires
            old(self).wf(),
            repl_ok(*old(self), action),
        ensures
            final(self).wf(),
            repl_step(*old(self), *final(self), action, effects@),
    {
        match action {
            ReplAction::Crash => {
                self.simulate_crash = true;
                let state = VolatileState::new();
                proof {
                    state.lemma_files_finite();
                }
                self.state = state;
                self.logs.clear();
                self.current_term = 0;
                self.leader_id = None;
                self.voted_for = None;
                Vec::new()
            },
            ReplAction::Start => Vec::new(),
            ReplAction::Shutdown => {
                self.shutdown_requested = true;
                Vec::new()
            },
            ReplAction::Timeout => self.start_election(),
            ReplAction::Display => {
                let mut effects = Vec::new();
                effects.push(Effect::Display(self.display()));
                effects
            },
            ReplAction::Recovery => {
                let mut effects = Vec::new();
                effects.push(Effect::LoadPersistentState);
                effects
            },
            ReplAction::Speed(speed) => {
                self.speed = speed;
                Vec::new()
            },
        }
    }

    /// Finishes a recovery with what the node's file holds: when it could be
    /// read, the node drops its volatile state (an empty store, nothing
    /// committed or applied) and resumes as a follower with the term, vote and
    /// log of the file, knowing no leader, and shows its state.
    pub fn recover(&mut self, loaded: Option<PersistentState>) -> (effects: Vec<Effect>)
        requires
            old(self).wf(),
        ensures
            final(self).wf(),
            match loaded {
                Some(p) => {
                    &&& !final(self).simulate_crash
                    &&& final(self).role is Follower
                    &&& final(self).current_term == p.current_term
                    &&& final(self).voted_for == p.voted_for
                    &&& final(self).logs@ == p.logs@
                    &&& final(self).leader_id is None
                    &&& final(self).state.files().len() == 0
                    &&& final(self).state.commit_index == 0
                    &&& final(self).state.last_applied == 0
                    &&& final(self).id == old(self).id
                    &&& final(self).node_count == old(self).node_count
                    &&& final(self).shutdown_requested == old(self).shutdown_requested
                    &&& final(self).election_timeout_range == old(self).election_timeout_range
                    &&& final(self).speed == old(self).speed
                    &&& displays(*final(self), effects@)
                },
                None => *final(self) == *old(self) && effects@.len() == 0,
            },
    {
        match loaded {
            Some(persistent) => {
                self.simulate_crash = false;
                self.role = Role::Follower;
                let state = VolatileState::new();
                proof {
                    state.lemma_files_finite();
                }
                self.state = state;
                self.update_persistent(&persistent);
                self.leader_id = None;
                let mut effects = Vec::new();
                effects.push(Effect::Display(self.display()));
                effects
            },
            None => Vec::new(),
        }
    }
}

} // verus!
