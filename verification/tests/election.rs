use dcron::config::Config;
use dcron::db::DBError;
use dcron::election::{
    most_recent_heartbeat, role_from_heartbeat, server_name, Role, HEALTH_CHECK_INTERVAL_MS,
    STALENESS_WINDOW,
};
use dcron::heartbeat::Heartbeat;

fn beat(server: &str, timestamp: i64) -> Heartbeat {
    Heartbeat { server: server.to_string(), timestamp }
}

#[test]
fn reference_intervals() {
    assert_eq!(STALENESS_WINDOW, 30);
    assert_eq!(HEALTH_CHECK_INTERVAL_MS, 5000);
}

#[test]
fn leader_arbitration_with_one_stale_heartbeat() {
    let t0: i64 = 1_000;
    let heartbeats = vec![beat("A", t0), beat("B", t0 - 40)];
    let found = most_recent_heartbeat(&heartbeats, t0 + 1, 30);
    assert_eq!(found, Some(beat("A", t0)));
    let answer: Result<Option<Heartbeat>, DBError> = Ok(found);
    assert_eq!(role_from_heartbeat(&answer, "A"), Role::LEADER);
    assert_eq!(role_from_heartbeat(&answer, "B"), Role::FOLLOWER);
}

#[test]
fn leader_arbitration_with_every_heartbeat_stale() {
    let t0: i64 = 1_000;
    let mut heartbeats = vec![beat("A", t0), beat("B", t0 - 40)];
    let found = most_recent_heartbeat(&heartbeats, t0 + 35, 30);
    assert_eq!(found, None);
    let answer: Result<Option<Heartbeat>, DBError> = Ok(found);
    assert_eq!(role_from_heartbeat(&answer, "A"), Role::FOLLOWER);
    assert_eq!(role_from_heartbeat(&answer, "B"), Role::FOLLOWER);
    heartbeats.push(beat("B", t0 + 34));
    let fresher = most_recent_heartbeat(&heartbeats, t0 + 35, 30);
    assert_eq!(fresher, Some(beat("B", t0 + 34)));
    let answer: Result<Option<Heartbeat>, DBError> = Ok(fresher);
    assert_eq!(role_from_heartbeat(&answer, "B"), Role::LEADER);
    assert_eq!(role_from_heartbeat(&answer, "A"), Role::FOLLOWER);
}

#[test]
fn smallest_identity_leads_among_fresh_heartbeats() {
    let heartbeats = vec![beat("b", 100), beat("a", 90), beat("c", 101)];
    assert_eq!(most_recent_heartbeat(&heartbeats, 105, 30), Some(beat("a", 90)));
}

#[test]
fn latest_heartbeat_of_the_leader_is_picked() {
    let heartbeats = vec![beat("a", 90), beat("b", 99), beat("a", 95), beat("a", 92)];
    assert_eq!(most_recent_heartbeat(&heartbeats, 100, 30), Some(beat("a", 95)));
}

#[test]
fn stale_heartbeat_of_a_smaller_identity_does_not_lead() {
    let heartbeats = vec![beat("a", 10), beat("b", 99)];
    assert_eq!(most_recent_heartbeat(&heartbeats, 100, 30), Some(beat("b", 99)));
}

#[test]
fn heartbeat_exactly_one_window_old_is_stale() {
    let heartbeats = vec![beat("a", 70)];
    assert_eq!(most_recent_heartbeat(&heartbeats, 100, 30), None);
    let heartbeats = vec![beat("a", 71)];
    assert_eq!(most_recent_heartbeat(&heartbeats, 100, 30), Some(beat("a", 71)));
}

#[test]
fn no_heartbeat_no_leader() {
    let heartbeats: Vec<Heartbeat> = Vec::new();
    assert_eq!(most_recent_heartbeat(&heartbeats, 100, 30), None);
}

#[test]
fn identities_are_ordered_like_strings() {
    let heartbeats = vec![beat("10.0.0.9", 100), beat("10.0.0.10", 100)];
    assert_eq!(most_recent_heartbeat(&heartbeats, 100, 30), Some(beat("10.0.0.10", 100)));
    let heartbeats = vec![beat("ab", 100), beat("a", 100), beat("B", 100)];
    assert_eq!(most_recent_heartbeat(&heartbeats, 100, 30), Some(beat("B", 100)));
    let heartbeats = vec![beat("é", 100), beat("z", 100)];
    assert_eq!(most_recent_heartbeat(&heartbeats, 100, 30), Some(beat("z", 100)));
}

#[test]
fn extreme_times_do_not_overflow() {
    let heartbeats = vec![beat("a", i64::MIN), beat("b", i64::MAX)];
    assert_eq!(most_recent_heartbeat(&heartbeats, i64::MIN, i64::MAX), Some(beat("a", i64::MIN)));
    assert_eq!(most_recent_heartbeat(&heartbeats, i64::MAX, i64::MIN), None);
    assert_eq!(most_recent_heartbeat(&heartbeats, i64::MAX, 1), Some(beat("b", i64::MAX)));
}

#[test]
fn store_failure_gives_follower() {
    let failed: Result<Option<Heartbeat>, DBError> =
        Err(DBError { message: "store unreachable".to_string() });
    assert_eq!(role_from_heartbeat(&failed, "A"), Role::FOLLOWER);
    let nobody: Result<Option<Heartbeat>, DBError> = Ok(None);
    assert_eq!(role_from_heartbeat(&nobody, "A"), Role::FOLLOWER);
}

#[test]
fn server_name_comes_from_the_configuration() {
    let lone = Config { database: None, minio: None, server_name: None };
    assert_eq!(server_name(&lone), "test");
    let a = Config { database: None, minio: None, server_name: Some("A".to_string()) };
    let b = Config { database: None, minio: None, server_name: Some("B".to_string()) };
    assert_eq!(server_name(&a), "A");
    assert_eq!(server_name(&b), "B");
    assert_ne!(server_name(&a), server_name(&b));
    assert_eq!(server_name(&a), server_name(&a));
}

#[test]
fn role_codes_survive_the_cell() {
    assert_eq!(Role::LEADER.code(), 1);
    assert_eq!(Role::FOLLOWER.code(), 0);
    assert_eq!(Role::from_code(Role::LEADER.code()), Role::LEADER);
    assert_eq!(Role::from_code(Role::FOLLOWER.code()), Role::FOLLOWER);
    assert_eq!(Role::from_code(2), Role::FOLLOWER);
    assert_eq!(Role::from_code(255), Role::FOLLOWER);
}
