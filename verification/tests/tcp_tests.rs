//! Tests of the bind-retry policy.

use anes_http::tcp::should_retry;
use anes_http::tcp::RECONNECT_TRIES;

#[test]
fn test_retry_budget_value() {
    assert_eq!(RECONNECT_TRIES, 5);
}

#[test]
fn test_should_retry_until_budget_spent() {
    for failures in 0..RECONNECT_TRIES {
        assert!(
            should_retry(failures, RECONNECT_TRIES),
            "the acceptor must retry while failures stay under the budget"
        );
    }
    assert!(
        !should_retry(RECONNECT_TRIES, RECONNECT_TRIES),
        "the acceptor must give up once the budget is spent"
    );
    assert!(!should_retry(RECONNECT_TRIES + 1, RECONNECT_TRIES));
}
