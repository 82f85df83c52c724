use robosync::parallel_sync::SyncStats;
use robosync::retry::{is_retryable_error, RetryConfig, RetryDecision};

#[test]
fn test_is_retryable_error() {
    // Retryable errors
    assert!(is_retryable_error("Permission denied"));
    assert!(is_retryable_error("Access is denied"));
    assert!(is_retryable_error("Resource temporarily unavailable"));

    // Non-retryable errors
    assert!(!is_retryable_error("File not found"));
    assert!(!is_retryable_error("Invalid argument"));
}

#[test]
fn test_retry_config() {
    let config = RetryConfig::new(3, 1);
    assert_eq!(config.max_retries, 3);
    assert_eq!(config.wait_seconds, 1);
    assert!(config.should_retry());
    assert!(!RetryConfig::new(0, 30).should_retry());
}

// An operation that fails twice and then succeeds completes under a
// three-retry policy, and a single warning records the retries.
#[test]
fn test_retry_success_after_two_failures() {
    let config = RetryConfig::new(3, 0);
    let mut stats = SyncStats::new();

    // outcomes of successive attempts: fail, fail, succeed
    let outcomes = [false, false, true];
    let mut failed_attempts: u32 = 0;
    let mut succeeded = false;
    for ok in outcomes {
        if ok {
            succeeded = true;
            break;
        }
        failed_attempts += 1;
        match config.next_decision(failed_attempts) {
            RetryDecision::Retry { wait_seconds } => assert_eq!(wait_seconds, 0),
            RetryDecision::GiveUp => panic!("gave up too early"),
        }
    }
    assert!(succeeded);
    assert_eq!(failed_attempts, 2);
    stats.add_warning(format!("copy succeeded after {} retries", failed_attempts));
    assert_eq!(stats.warnings.len(), 1);
}

// A policy of two retries gives up after the third failed attempt.
#[test]
fn test_retry_exhaustion() {
    let config = RetryConfig::new(2, 0);
    assert_eq!(config.next_decision(1), RetryDecision::Retry { wait_seconds: 0 });
    assert_eq!(config.next_decision(2), RetryDecision::Retry { wait_seconds: 0 });
    assert_eq!(config.next_decision(3), RetryDecision::GiveUp);
}

#[test]
fn test_retryable_error_case_insensitive() {
    assert!(is_retryable_error("PERMISSION DENIED while opening file"));
    assert!(is_retryable_error("operation timed out: Timeout"));
    assert!(is_retryable_error("Device or resource busy (os error 16)"));
}
