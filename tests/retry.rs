use plugin_registry::retry::{after_connect_failure, ConnectStep, CONNECT_ATTEMPTS, CONNECT_DELAY_MS};

/// Drives the retry policy against a transport that fails `failures` times
/// before it connects; returns (attempts, total delay, connected).
fn run_against_fake(failures: u32) -> (u32, u64, bool) {
    let mut attempts: u32 = 0;
    let mut waited: u64 = 0;
    loop {
        attempts += 1;
        if attempts > failures {
            return (attempts, waited, true);
        }
        match after_connect_failure(attempts) {
            ConnectStep::RetryAfter(ms) => waited += ms,
            ConnectStep::GiveUp => return (attempts, waited, false),
        }
    }
}

#[test]
fn unreachable_endpoint_gives_up_after_all_attempts() {
    let (attempts, waited, connected) = run_against_fake(u32::MAX);
    assert!(!connected);
    assert_eq!(attempts, CONNECT_ATTEMPTS);
    assert_eq!(attempts, 10);
    assert_eq!(waited, 9 * 500);
    assert_eq!(waited, (CONNECT_ATTEMPTS as u64 - 1) * CONNECT_DELAY_MS);
}

#[test]
fn late_endpoint_is_reached() {
    assert_eq!(run_against_fake(3), (4, 1500, true));
    assert_eq!(run_against_fake(0), (1, 0, true));
    assert_eq!(run_against_fake(9), (10, 4500, true));
}

#[test]
fn steps_after_failures() {
    assert_eq!(after_connect_failure(1), ConnectStep::RetryAfter(500));
    assert_eq!(after_connect_failure(9), ConnectStep::RetryAfter(500));
    assert_eq!(after_connect_failure(10), ConnectStep::GiveUp);
    assert_eq!(after_connect_failure(11), ConnectStep::GiveUp);
}
