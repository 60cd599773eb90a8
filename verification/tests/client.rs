use orion::raft_client::apply_timeout_error;
use orion::raft_client::client_write_error;
use orion::raft_client::forward_transport_error;
use orion::raft_client::leader_endpoint;
use orion::raft_client::next_backoff;
use orion::raft_client::no_raft_node_error;
use orion::raft_client::not_leader_error;
use orion::raft_client::ForwardRetryPolicy;
use orion::raft_client::LeaderHint;
use orion::raft_client::OrionSqliteRaftError;
use orion::raft_client::RetryStep;

#[test]
fn retryable_forwarding_errors_are_classified_narrowly() {
    assert!(
        OrionSqliteRaftError::NotLeader("leader unknown".to_string())
            .is_retryable_forwarding_error()
    );
    assert!(
        OrionSqliteRaftError::Transport("connection refused".to_string())
            .is_retryable_forwarding_error()
    );
    assert!(
        !OrionSqliteRaftError::Write("proposal rejected".to_string())
            .is_retryable_forwarding_error()
    );
    assert!(
        !OrionSqliteRaftError::Unavailable("no raft node".to_string())
            .is_retryable_forwarding_error()
    );
}

#[test]
fn retry_context_preserves_error_class_and_attempt_count() {
    let error = OrionSqliteRaftError::Transport("connection refused".to_string())
        .with_retry_context("SQLite Raft write", 4);
    assert!(matches!(error, OrionSqliteRaftError::Transport(_)));
    assert_eq!(
        error.to_text(),
        "SQLite Raft write could not reach the Raft leader after 4 attempt(s): connection refused"
    );
}

#[test]
fn retry_backoff_caps_at_configured_maximum() {
    assert_eq!(next_backoff(50, 500), 100);
    assert_eq!(next_backoff(400, 500), 500);
}

#[test]
fn other_errors_keep_their_text_through_retries() {
    let error = OrionSqliteRaftError::Write("proposal rejected".to_string())
        .with_retry_context("SQLite Raft write", 4);
    assert_eq!(error.to_text(), "proposal rejected");
    let error = OrionSqliteRaftError::ApplyTimeout("late".to_string())
        .with_retry_context("SQLite Raft write", 2);
    assert!(matches!(error, OrionSqliteRaftError::ApplyTimeout(_)));
}

#[test]
fn a_write_is_retried_until_the_attempts_are_used_up() {
    let policy = ForwardRetryPolicy::default();
    let lost = || OrionSqliteRaftError::Transport("connection refused".to_string());
    match policy.after_failure(1, 50, lost()) {
        RetryStep::Wait { wait_ms, next_ms } => {
            assert_eq!(wait_ms, 50);
            assert_eq!(next_ms, 100);
        }
        RetryStep::Fail(error) => panic!("gave up early: {error:?}"),
    }
    match policy.after_failure(policy.max_attempts, 400, lost()) {
        RetryStep::Fail(error) => assert!(matches!(error, OrionSqliteRaftError::Transport(_))),
        RetryStep::Wait { .. } => panic!("retried too often"),
    }
    match policy.after_failure(1, 50, OrionSqliteRaftError::Write("rejected".to_string())) {
        RetryStep::Fail(error) => assert_eq!(error.to_text(), "rejected"),
        RetryStep::Wait { .. } => panic!("retried a refusal"),
    }
}

#[test]
fn pauses_grow_up_to_the_maximum_and_stay_there() {
    let mut pause = 50;
    for _ in 0..10 {
        pause = next_backoff(pause, 500);
        assert!(pause <= 500);
    }
    assert_eq!(pause, 500);
    assert_eq!(next_backoff(u64::MAX, u64::MAX), u64::MAX);
}

#[test]
fn a_known_leader_is_followed() {
    let hint = LeaderHint {
        leader_id: Some(3),
        leader_addr: Some("127.0.0.1:7003".to_string()),
    };
    assert_eq!(leader_endpoint(&hint), Ok("127.0.0.1:7003".to_string()));
    assert!(matches!(
        client_write_error(&Some(hint), "moved"),
        OrionSqliteRaftError::NotLeader(_)
    ));
    let unknown = LeaderHint { leader_id: None, leader_addr: None };
    assert!(leader_endpoint(&unknown).is_err());
    assert_eq!(
        not_leader_error(&unknown).to_text(),
        "this node is not the Raft leader and could not forward the request; leader is not known yet"
    );
    assert!(matches!(not_leader_error(&unknown), OrionSqliteRaftError::NotLeader(_)));
    assert!(matches!(
        client_write_error(&None, "storage failed"),
        OrionSqliteRaftError::Write(_)
    ));
}

#[test]
fn each_failure_has_its_class() {
    assert!(matches!(no_raft_node_error(), OrionSqliteRaftError::Unavailable(_)));
    assert_eq!(
        forward_transport_error("reset").to_text(),
        "failed to forward write to Raft leader: reset"
    );
    assert!(matches!(forward_transport_error("reset"), OrionSqliteRaftError::Transport(_)));
    assert!(matches!(apply_timeout_error("timeout"), OrionSqliteRaftError::ApplyTimeout(_)));
    assert_eq!(OrionSqliteRaftError::Internal("broken".to_string()).to_text(), "broken");
}
