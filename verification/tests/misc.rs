use algorep::client::{initial_leader, leader_for_draw, leader_hint};
use algorep::config::{Config, ConfigTime};
use algorep::message::{ClientResponse, ClientResponseError, MessageContent};
use algorep::quorum::{kth_smallest_of, sorted_copy};
use algorep::role::{LeaderData, Role, CandidateData};

#[test]
fn config_times_in_nanoseconds() {
    assert_eq!(ConfigTime::Second(2).to_duration(), 2_000_000_000);
    assert_eq!(ConfigTime::Millisecond(150).to_duration(), 150_000_000);
    assert_eq!(ConfigTime::Microsecond(7).to_duration(), 7_000);
    assert_eq!(ConfigTime::Nanosecond(9).to_duration(), 9);
    assert_eq!(ConfigTime::Minute(1).to_duration(), 60_000_000_000);
    let config = Config {
        node_count: 3,
        election_timeout: (ConfigTime::Millisecond(150), ConfigTime::Second(1)),
        channel_capacity: 64,
    };
    assert_eq!(config.election_timeout_range(), (150_000_000, 1_000_000_000));
}

#[test]
fn roles_and_leader_data() {
    let data = LeaderData::new(4, 3);
    assert_eq!(data.next_index, vec![4, 4, 4]);
    assert_eq!(data.match_index, vec![0, 0, 0]);
    assert!(data.waiters.is_empty());
    let leader = Role::Leader(data);
    assert!(leader.is_leader() && !leader.is_candidate() && !leader.is_follower());
    assert_eq!(leader.to_string(), "Leader");
    let candidate = Role::Candidate(CandidateData { votes: 1 });
    assert!(candidate.is_candidate());
    assert_eq!(candidate.to_string(), "Candidate");
    assert_eq!(Role::Follower.to_string(), "Follower");
}

#[test]
fn order_statistics() {
    let v = vec![5, 1, 4, 1, 9];
    assert_eq!(sorted_copy(&v), vec![1, 1, 4, 5, 9]);
    assert_eq!(kth_smallest_of(&v, 0), 1);
    assert_eq!(kth_smallest_of(&v, 2), 4);
    assert_eq!(kth_smallest_of(&v, 4), 9);
}

#[test]
fn clients_follow_leader_hints() {
    assert_eq!(
        leader_hint(&MessageContent::ClientResponse(Err(ClientResponseError::WrongLeader(Some(2))))),
        Some(2)
    );
    assert_eq!(
        leader_hint(&MessageContent::ClientResponse(Err(ClientResponseError::WrongLeader(None)))),
        None
    );
    assert_eq!(leader_hint(&MessageContent::ClientResponse(Ok(ClientResponse::Done))), None);
    for n in 1..6 {
        assert!(initial_leader(n) < n);
    }
}

#[test]
fn first_server_is_the_draw_modulo_the_cluster_size() {
    assert_eq!(leader_for_draw(7, 3), 1);
    assert_eq!(leader_for_draw(5, 5), 0);
    assert_eq!(leader_for_draw(0, 4), 0);
    assert_eq!(leader_for_draw(u128::MAX, 2), 1);
    assert_eq!(leader_for_draw(1_000_003, 1000), 3);
}
