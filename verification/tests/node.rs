use algorep::entry::{LogEntry, StateMutation};
use algorep::message::{
    ClientCommand, ClientResponse, ClientResponseError, Message, MessageContent, ReplAction,
};
use algorep::node::{Effect, Node};
use algorep::persistent_state::PersistentState;
use algorep::state::File;

const MS: u128 = 1_000_000;

/// Each message the effects send, as (destination, content, sender).
fn sent(effects: &[Effect]) -> Vec<(usize, MessageContent, usize)> {
    effects
        .iter()
        .filter_map(|e| match e {
            Effect::Send { to, message } => Some((*to, message.content.clone(), message.from)),
            _ => None,
        })
        .collect()
}

fn deliver(node: &mut Node, content: MessageContent, from: usize) -> (bool, Vec<Effect>) {
    let message = Message { content, from };
    assert!(node.can_handle_message(&message));
    let (reset, mut effects) = node.handle_message(message);
    assert!(node.can_finish_turn());
    effects.extend(node.finish_turn());
    (reset, effects)
}

fn time_out(node: &mut Node) -> Vec<Effect> {
    assert!(node.can_time_out());
    let mut effects = node.on_timeout().expect("a live node goes on with its turn");
    assert!(node.can_finish_turn());
    effects.extend(node.finish_turn());
    effects
}

fn vote_request(last_log_index: usize, last_log_term: usize, term: usize) -> MessageContent {
    MessageContent::VoteRequest { last_log_index, last_log_term, term }
}

fn empty_append(prev_log_index: usize, prev_log_term: usize, leader_commit: usize, term: usize) -> MessageContent {
    MessageContent::AppendEntries { entries: Vec::new(), prev_log_index, prev_log_term, leader_commit, term }
}

fn create_entry(term: usize, uid: &str, filename: &str) -> LogEntry {
    LogEntry {
        term,
        mutation: StateMutation::Create { uid: uid.to_string(), filename: filename.to_string() },
    }
}

#[test]
fn should_accept_vote() {
    let mut node = Node::new(0, 2, (10 * MS, 10 * MS));
    let (reset, effects) = deliver(&mut node, vote_request(0, 0, 1), 1);
    assert!(reset);
    assert_eq!(
        sent(&effects),
        vec![(1, MessageContent::VoteResponse { granted: true, term: 1 }, 0)]
    );
    assert_eq!(node.voted_for, Some(1));
}

#[test]
fn should_receive_election() {
    let mut node = Node::new(0, 2, (10 * MS, 10 * MS));
    let effects = time_out(&mut node);
    assert_eq!(sent(&effects), vec![(1, vote_request(0, 0, 1), 0)]);
    let (_, effects) = deliver(&mut node, MessageContent::VoteResponse { granted: true, term: 1 }, 1);
    assert!(node.role.is_leader());
    assert_eq!(sent(&effects), vec![(1, empty_append(0, 0, 0, 1), 0)]);
}

#[test]
fn should_retry_election() {
    let mut node = Node::new(0, 2, (10 * MS, 10 * MS));
    let effects = time_out(&mut node);
    assert_eq!(sent(&effects), vec![(1, vote_request(0, 0, 1), 0)]);

    let (reset, effects) = deliver(&mut node, empty_append(0, 0, 0, 1), 1);
    assert!(reset);
    assert!(node.role.is_follower());
    assert_eq!(
        sent(&effects),
        vec![(1, MessageContent::AppendResponse { success: true, match_index: 0, term: 1 }, 0)]
    );

    let effects = time_out(&mut node);
    assert_eq!(sent(&effects), vec![(1, vote_request(0, 0, 2), 0)]);
}

#[test]
fn should_elect_first() {
    // two servers and a third channel standing for another server
    let mut first = Node::new(0, 3, (10 * MS, 10 * MS));
    let mut second = Node::new(1, 3, (100 * MS, 100 * MS));

    let effects = time_out(&mut first);
    let requests = sent(&effects);
    assert_eq!(requests, vec![(1, vote_request(0, 0, 1), 0), (2, vote_request(0, 0, 1), 0)]);

    let (_, effects) = deliver(&mut second, vote_request(0, 0, 1), 0);
    let answers = sent(&effects);
    assert_eq!(answers, vec![(0, MessageContent::VoteResponse { granted: true, term: 1 }, 1)]);

    let (_, effects) = deliver(&mut first, answers[0].1.clone(), 1);
    assert!(first.role.is_leader());
    assert_eq!(
        sent(&effects),
        vec![(1, empty_append(0, 0, 0, 1), 0), (2, empty_append(0, 0, 0, 1), 0)]
    );
}

#[test]
fn client_send_request() {
    // two servers; the client is node 2
    let mut leader = Node::new(0, 2, (100 * MS, 100 * MS));
    let mut follower = Node::new(1, 2, (500 * MS, 500 * MS));

    let effects = time_out(&mut leader);
    let (_, effects) = deliver(&mut follower, sent(&effects)[0].1.clone(), 0);
    let (_, _) = deliver(&mut leader, sent(&effects)[0].1.clone(), 1);
    assert!(leader.role.is_leader());

    let (_, effects) = deliver(
        &mut leader,
        MessageContent::ClientRequest(ClientCommand::Load { filename: "my_file".to_string() }),
        2,
    );
    assert!(sent(&effects).is_empty());

    // the next heartbeat carries the entry to the follower
    let effects = time_out(&mut leader);
    let heartbeat = sent(&effects);
    assert_eq!(
        heartbeat,
        vec![(
            1,
            MessageContent::AppendEntries {
                entries: vec![create_entry(1, "1-1", "my_file")],
                prev_log_index: 0,
                prev_log_term: 0,
                leader_commit: 0,
                term: 1,
            },
            0
        )]
    );
    let (_, effects) = deliver(&mut follower, heartbeat[0].1.clone(), 0);
    let ack = sent(&effects);
    assert_eq!(ack, vec![(0, MessageContent::AppendResponse { success: true, match_index: 1, term: 1 }, 1)]);

    let (reset, effects) = deliver(&mut leader, ack[0].1.clone(), 1);
    assert!(reset);
    assert_eq!(
        sent(&effects),
        vec![(2, MessageContent::ClientResponse(Ok(ClientResponse::Uid("1-1".to_string()))), 0)]
    );
    assert_eq!(leader.state.commit_index, 1);
    assert_eq!(leader.state.get("1-1").unwrap().filename, "my_file");
}

#[test]
fn client_server_should_receive_entry() {
    // node 0 leads a cluster of three, node 2 stands for the other server, node 3 is the client
    let mut leader = Node::new(0, 3, (100 * MS, 100 * MS));
    time_out(&mut leader);
    let (_, effects) = deliver(&mut leader, MessageContent::VoteResponse { granted: true, term: 1 }, 2);
    assert!(leader.role.is_leader());
    assert_eq!(sent(&effects)[1], (2, empty_append(0, 0, 0, 1), 0));

    deliver(
        &mut leader,
        MessageContent::ClientRequest(ClientCommand::Load { filename: "my_file".to_string() }),
        3,
    );
    let effects = time_out(&mut leader);
    assert_eq!(
        sent(&effects)[1],
        (
            2,
            MessageContent::AppendEntries {
                entries: vec![create_entry(1, "1-1", "my_file")],
                prev_log_index: 0,
                prev_log_term: 0,
                leader_commit: 0,
                term: 1,
            },
            0
        )
    );

    let (_, effects) = deliver(
        &mut leader,
        MessageContent::AppendResponse { success: true, match_index: 1, term: 1 },
        2,
    );
    assert_eq!(
        sent(&effects),
        vec![(3, MessageContent::ClientResponse(Ok(ClientResponse::Uid("1-1".to_string()))), 0)]
    );

    let effects = time_out(&mut leader);
    assert_eq!(sent(&effects)[1], (2, empty_append(1, 1, 1, 1), 0));
}

#[test]
fn should_timeout() {
    let mut node = Node::new(0, 2, (100 * MS, 100 * MS));
    let (reset, effects) = deliver(&mut node, vote_request(0, 0, 5), 1);
    assert!(reset);
    assert_eq!(sent(&effects), vec![(1, MessageContent::VoteResponse { term: 5, granted: true }, 0)]);

    // entries of an older term are refused and do not reset the timer
    let (reset, effects) = deliver(&mut node, empty_append(0, 0, 0, 0), 1);
    assert!(!reset);
    assert_eq!(
        sent(&effects),
        vec![(1, MessageContent::AppendResponse { success: false, match_index: 0, term: 5 }, 0)]
    );

    let effects = time_out(&mut node);
    assert_eq!(sent(&effects), vec![(1, vote_request(0, 0, 6), 0)]);
}

#[test]
fn should_handle_append_entries() {
    let mut node = Node::new(0, 2, (50 * MS, 50 * MS));
    let mut previous_count = 0;

    for i in 1..10 {
        let entries = (1..=i)
            .map(|j| create_entry(1, &format!("uid {}", i * 10 + j), &format!("filename {}", i * 10 + j)))
            .collect::<Vec<_>>();
        let (reset, effects) = deliver(
            &mut node,
            MessageContent::AppendEntries {
                entries,
                prev_log_index: previous_count,
                prev_log_term: std::cmp::min(previous_count, 1),
                leader_commit: previous_count,
                term: 1,
            },
            1,
        );
        previous_count += i;
        assert!(reset);
        assert_eq!(
            sent(&effects),
            vec![(1, MessageContent::AppendResponse { success: true, match_index: previous_count, term: 1 }, 0)]
        );
        assert!(effects.iter().any(|e| matches!(e, Effect::SaveLogs(logs) if logs.len() == previous_count)));
    }

    // match_index does not decrement
    for _ in 1..10 {
        let (_, effects) = deliver(&mut node, empty_append(previous_count, 1, previous_count, 1), 1);
        assert_eq!(
            sent(&effects),
            vec![(1, MessageContent::AppendResponse { success: true, match_index: previous_count, term: 1 }, 0)]
        );
    }

    let effects = time_out(&mut node);
    assert_eq!(sent(&effects), vec![(1, vote_request(previous_count, 1, 2), 0)]);

    let (_, effects) = deliver(&mut node, MessageContent::VoteResponse { granted: true, term: 2 }, 1);
    assert_eq!(sent(&effects), vec![(1, empty_append(previous_count, 1, previous_count, 2), 0)]);

    for i in 1..10 {
        for j in 1..=i {
            let uid = i * 10 + j;
            let (_, effects) = deliver(
                &mut node,
                MessageContent::ClientRequest(ClientCommand::Get { uid: format!("uid {}", uid) }),
                2,
            );
            assert_eq!(
                sent(&effects),
                vec![(
                    2,
                    MessageContent::ClientResponse(Ok(ClientResponse::File(File {
                        filename: format!("filename {}", uid),
                        text: "".to_string(),
                    }))),
                    0
                )]
            );
        }
    }
}

#[test]
fn followers_point_clients_to_the_leader() {
    let mut node = Node::new(1, 2, (10 * MS, 10 * MS));
    let (_, effects) = deliver(
        &mut node,
        MessageContent::ClientRequest(ClientCommand::List),
        5,
    );
    assert_eq!(
        sent(&effects),
        vec![(5, MessageContent::ClientResponse(Err(ClientResponseError::WrongLeader(None))), 1)]
    );
    deliver(&mut node, empty_append(0, 0, 0, 3), 0);
    let (_, effects) = deliver(
        &mut node,
        MessageContent::ClientRequest(ClientCommand::Get { uid: "x".to_string() }),
        5,
    );
    assert_eq!(
        sent(&effects),
        vec![(5, MessageContent::ClientResponse(Err(ClientResponseError::WrongLeader(Some(0)))), 1)]
    );
}

fn single_leader(node_count: usize) -> Node {
    let mut node = Node::new(0, node_count, (10 * MS, 10 * MS));
    time_out(&mut node);
    for voter in 1..node_count {
        if !node.role.is_leader() {
            deliver(&mut node, MessageContent::VoteResponse { granted: true, term: 1 }, voter);
        }
    }
    assert!(node.role.is_leader());
    node
}

#[test]
fn a_deposed_leader_answers_waiting_clients() {
    let mut node = single_leader(2);
    deliver(&mut node, MessageContent::ClientRequest(ClientCommand::Delete { uid: "a".to_string() }), 7);
    deliver(&mut node, MessageContent::ClientRequest(ClientCommand::Load { filename: "f".to_string() }), 8);
    assert_eq!(node.logs.len(), 2);
    // a newer leader appears
    let (_, effects) = deliver(&mut node, empty_append(0, 0, 0, 4), 1);
    assert!(node.role.is_follower());
    assert_eq!(node.current_term, 4);
    let answers = sent(&effects);
    assert_eq!(
        answers[..2],
        [
            (7, MessageContent::ClientResponse(Err(ClientResponseError::WrongLeader(Some(1)))), 0),
            (8, MessageContent::ClientResponse(Err(ClientResponseError::WrongLeader(Some(1)))), 0),
        ]
    );
    // an empty append conflicts with nothing: the log is kept
    assert_eq!(node.logs.len(), 2);
}

#[test]
fn overridden_entries_are_reported() {
    let mut node = single_leader(2);
    deliver(&mut node, MessageContent::ClientRequest(ClientCommand::Load { filename: "f".to_string() }), 9);
    deliver(&mut node, MessageContent::ClientRequest(ClientCommand::Load { filename: "g".to_string() }), 9);
    // the entry of the first request is replaced by one of another term
    node.logs[0].term = 0;
    node.state.set_commit_index(2);
    assert!(node.can_finish_turn());
    let effects = node.finish_turn();
    assert_eq!(
        sent(&effects),
        vec![
            (9, MessageContent::ClientResponse(Err(ClientResponseError::EntryOverridden)), 0),
            (9, MessageContent::ClientResponse(Ok(ClientResponse::Uid("1-2".to_string()))), 0),
        ]
    );
}

#[test]
fn a_crashed_node_ignores_clients() {
    let mut node = single_leader(2);
    deliver(&mut node, MessageContent::ClientRequest(ClientCommand::Load { filename: "f".to_string() }), 9);
    deliver(&mut node, MessageContent::Repl(ReplAction::Crash), usize::MAX);
    assert!(node.simulate_crash);
    assert_eq!(node.logs.len(), 0);
    assert_eq!(node.current_term, 0);
    let (reset, effects) = deliver(
        &mut node,
        MessageContent::ClientRequest(ClientCommand::Load { filename: "g".to_string() }),
        9,
    );
    assert!(!reset);
    assert!(effects.is_empty());
    assert_eq!(node.logs.len(), 0);
}

#[test]
fn a_delayed_copy_keeps_committed_entries() {
    let mut node = Node::new(0, 2, (50 * MS, 50 * MS));
    let entries = vec![create_entry(1, "1-1", "a"), create_entry(1, "1-2", "b")];
    deliver(
        &mut node,
        MessageContent::AppendEntries { entries, prev_log_index: 0, prev_log_term: 0, leader_commit: 2, term: 1 },
        1,
    );
    assert_eq!(node.logs.len(), 2);
    assert_eq!(node.state.commit_index, 2);
    // the first append arrives again, late
    let (_, effects) = deliver(
        &mut node,
        MessageContent::AppendEntries {
            entries: vec![create_entry(1, "1-1", "a")],
            prev_log_index: 0,
            prev_log_term: 0,
            leader_commit: 1,
            term: 1,
        },
        1,
    );
    assert_eq!(node.logs.len(), 2);
    assert_eq!(node.state.commit_index, 2);
    assert_eq!(
        sent(&effects),
        vec![(1, MessageContent::AppendResponse { success: true, match_index: 1, term: 1 }, 0)]
    );
    // an entry of another term replaces the conflicting suffix
    deliver(
        &mut node,
        MessageContent::AppendEntries {
            entries: vec![create_entry(2, "2-2", "c")],
            prev_log_index: 1,
            prev_log_term: 1,
            leader_commit: 2,
            term: 2,
        },
        1,
    );
    assert_eq!(node.logs, vec![create_entry(1, "1-1", "a"), create_entry(2, "2-2", "c")]);
}

#[test]
fn an_even_cluster_commits_on_a_strict_majority() {
    let mut node = single_leader(4);
    deliver(&mut node, MessageContent::ClientRequest(ClientCommand::Load { filename: "f".to_string() }), 9);
    // the leader and one follower hold the entry: half of four servers
    deliver(&mut node, MessageContent::AppendResponse { success: true, match_index: 1, term: 1 }, 1);
    assert_eq!(node.state.commit_index, 0);
    // a third server holds it: a majority
    let (_, effects) = deliver(&mut node, MessageContent::AppendResponse { success: true, match_index: 1, term: 1 }, 2);
    assert_eq!(node.state.commit_index, 1);
    assert_eq!(
        sent(&effects),
        vec![(9, MessageContent::ClientResponse(Ok(ClientResponse::Uid("1-1".to_string()))), 0)]
    );
    // with two servers, the leader alone is not enough
    let mut pair = single_leader(2);
    deliver(&mut pair, MessageContent::ClientRequest(ClientCommand::Load { filename: "f".to_string() }), 9);
    deliver(&mut pair, MessageContent::AppendResponse { success: true, match_index: 0, term: 1 }, 1);
    assert_eq!(pair.state.commit_index, 0);
}

#[test]
fn uids_name_term_and_index() {
    let mut node = Node::new(0, 1, (10 * MS, 10 * MS));
    for _ in 0..12 {
        node.current_term += 1;
    }
    node.current_term -= 1;
    time_out(&mut node);
    assert_eq!(node.current_term, 12);
    // a single server has the majority of its own vote once it counts one response
    deliver(&mut node, MessageContent::VoteResponse { granted: true, term: 12 }, 0);
    assert!(node.role.is_leader());
    for k in 0..10 {
        deliver(&mut node, MessageContent::ClientRequest(ClientCommand::Load { filename: format!("f{}", k) }), 1);
    }
    match &node.logs[9].mutation {
        StateMutation::Create { uid, filename } => {
            assert_eq!(uid, "12-10");
            assert_eq!(filename, "f9");
        }
        other => panic!("unexpected entry {:?}", other),
    }
}

#[test]
fn leader_commits_what_a_majority_holds() {
    let mut node = single_leader(3);
    for k in 0..3 {
        deliver(&mut node, MessageContent::ClientRequest(ClientCommand::Load { filename: format!("f{}", k) }), 5);
    }
    // server 1 holds two entries: with the leader, a majority of three
    let (reset, effects) = deliver(
        &mut node,
        MessageContent::AppendResponse { success: true, match_index: 2, term: 1 },
        1,
    );
    assert!(reset);
    assert_eq!(node.state.commit_index, 2);
    assert_eq!(sent(&effects).len(), 2);
    // a refusal steps the next index back
    let before = match &node.role {
        algorep::role::Role::Leader(l) => l.next_index[2],
        _ => unreachable!(),
    };
    deliver(&mut node, MessageContent::AppendResponse { success: false, match_index: 0, term: 1 }, 2);
    match &node.role {
        algorep::role::Role::Leader(l) => assert_eq!(l.next_index[2], before - 1),
        _ => unreachable!(),
    }
}

#[test]
fn stale_answers_are_checked_before_handling() {
    let mut node = single_leader(2);
    // next index of server 1 is 1: a second refusal would take it below 1
    deliver(&mut node, MessageContent::AppendResponse { success: false, match_index: 0, term: 1 }, 1);
    let stale = Message {
        content: MessageContent::AppendResponse { success: false, match_index: 0, term: 1 },
        from: 1,
    };
    assert!(!node.can_handle_message(&stale));
    // and a heartbeat could not be built
    assert!(!node.can_time_out());
}

#[test]
fn repl_actions_change_the_node() {
    let mut node = Node::new(0, 2, (10 * MS, 20 * MS));
    let (_, effects) = deliver(&mut node, MessageContent::Repl(ReplAction::Display), usize::MAX);
    match &effects[..] {
        [Effect::Display(status)] => {
            assert_eq!(status.role, "Follower");
            assert_eq!(status.current_term, 0);
            assert_eq!(status.log_count, 0);
        }
        other => panic!("unexpected effects {:?}", other),
    }
    deliver(&mut node, MessageContent::Repl(ReplAction::Speed(algorep::message::Speed::Slow)), usize::MAX);
    assert_eq!(node.speed, algorep::message::Speed::Slow);
    let (_, effects) = deliver(&mut node, MessageContent::Repl(ReplAction::Timeout), usize::MAX);
    assert_eq!(sent(&effects), vec![(1, vote_request(0, 0, 1), 0)]);
    assert!(node.role.is_candidate());
    let (_, effects) = deliver(&mut node, MessageContent::Repl(ReplAction::Recovery), usize::MAX);
    assert!(matches!(effects[..], [Effect::LoadPersistentState]));
    deliver(&mut node, MessageContent::Repl(ReplAction::Shutdown), usize::MAX);
    assert!(node.shutdown_requested);
}

#[test]
fn recovery_restores_the_saved_state() {
    let mut node = Node::new(3, 4, (10 * MS, 10 * MS));
    deliver(&mut node, MessageContent::Repl(ReplAction::Crash), usize::MAX);
    assert!(node.simulate_crash);
    // a crashed node ignores other servers
    let (reset, effects) = deliver(&mut node, vote_request(0, 0, 3), 1);
    assert!(!reset);
    assert!(effects.is_empty());

    let saved = PersistentState {
        id: 3,
        current_term: 7,
        voted_for: Some(2),
        logs: vec![create_entry(7, "7-1", "f")],
    };
    node.state.set_commit_index(1);
    let effects = node.recover(Some(saved));
    assert!(!node.simulate_crash);
    assert_eq!(node.state.commit_index, 0);
    assert_eq!(node.state.last_applied, 0);
    assert!(node.state.list_uid().is_empty());
    assert!(node.role.is_follower());
    assert_eq!(node.current_term, 7);
    assert_eq!(node.voted_for, Some(2));
    assert_eq!(node.logs, vec![create_entry(7, "7-1", "f")]);
    assert!(matches!(&effects[..], [Effect::Display(s)] if s.current_term == 7 && s.log_count == 1));

    let copy = PersistentState::from_node(&node);
    assert_eq!(copy.id, 3);
    assert_eq!(copy.logs, node.logs);
    assert!(node.recover(None).is_empty());
}

#[test]
fn timeouts_follow_the_configured_range() {
    let follower = Node::new(0, 2, (150 * MS, 300 * MS));
    assert!(follower.can_generate_timeout());
    assert_eq!(follower.timeout_for(0), 150 * MS);
    assert_eq!(follower.timeout_for(149), 299 * MS);
    assert_eq!(follower.timeout_for(150), 150 * MS);
    for _ in 0..20 {
        let t = follower.generate_timeout();
        assert!(150 * MS <= t && t < 300 * MS);
    }
    let fixed = Node::new(0, 2, (42, 42));
    assert_eq!(fixed.generate_timeout(), 42);
    let leader = single_leader(2);
    assert_eq!(leader.generate_timeout(), 5 * MS);
    // bounds less than a millisecond apart cannot be drawn from
    let narrow = Node::new(0, 2, (10 * MS, 10 * MS + 5));
    assert!(!narrow.can_generate_timeout());
}
