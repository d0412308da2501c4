use tlq_client::RetryStrategy;

#[test]
fn test_exponential_backoff_calculation() {
    let strategy = RetryStrategy::new(3, 100);

    // Exponential backoff: 100ms, 200ms, 400ms, 800ms.
    assert_eq!(strategy.calculate_delay(0), 100);
    assert_eq!(strategy.calculate_delay(1), 200);
    assert_eq!(strategy.calculate_delay(2), 400);
    assert_eq!(strategy.calculate_delay(3), 800);
}

#[test]
fn test_zero_base_delay() {
    let strategy = RetryStrategy::new(2, 0);

    assert_eq!(strategy.calculate_delay(0), 0);
    assert_eq!(strategy.calculate_delay(1), 0);
    assert_eq!(strategy.calculate_delay(5), 0);
}

#[test]
fn test_immediate_success() {
    let strategy = RetryStrategy::new(3, 10);

    let report = strategy.run(&vec![true, true, true, true]);
    assert!(report.succeeded);
    assert_eq!(report.invocations, 1);
    assert_eq!(report.total_delay_ms, 0);
}

#[test]
fn test_success_after_retries() {
    let strategy = RetryStrategy::new(3, 1);

    // Two failures, then success on the third invocation.
    let report = strategy.run(&vec![false, false, true, false]);
    assert!(report.succeeded);
    assert_eq!(report.invocations, 3);
}

#[test]
fn test_max_retries_exceeded() {
    let strategy = RetryStrategy::new(2, 1);

    let report = strategy.run(&vec![false, false, false]);
    assert!(!report.succeeded);
    // The initial attempt and two retries.
    assert_eq!(report.invocations, 3);
}

#[test]
fn test_zero_max_retries() {
    let strategy = RetryStrategy::new(0, 1);

    let report = strategy.run(&vec![false]);
    assert!(!report.succeeded);
    // Only the initial attempt, no retries.
    assert_eq!(report.invocations, 1);

    let report = strategy.run(&vec![true]);
    assert!(report.succeeded);
    assert_eq!(report.invocations, 1);
}

#[test]
fn test_retry_timing() {
    let strategy = RetryStrategy::new(2, 50);

    let report = strategy.run(&vec![false, false, false]);

    // The engine waits 50ms before the first retry and 100ms before the
    // second: 150ms in all, and exactly three invocations.
    assert_eq!(report.total_delay_ms, 150);
    assert_eq!(report.invocations, 3);
    assert!(!report.succeeded);
}

#[test]
fn test_retry_with_different_error_types() {
    // The engine decides by the attempt counter alone, whatever each
    // failure was: two failures of any kind, then a success.
    let strategy = RetryStrategy::new(3, 1);

    let report = strategy.run(&vec![false, false, true, false]);
    assert!(report.succeeded);
    assert_eq!(report.invocations, 3);
}

#[test]
fn test_after_failure_decisions() {
    let strategy = RetryStrategy::new(2, 50);

    assert_eq!(strategy.after_failure(0), Some(50));
    assert_eq!(strategy.after_failure(1), Some(100));
    assert_eq!(strategy.after_failure(2), None);
    assert_eq!(strategy.after_failure(7), None);

    let no_retries = RetryStrategy::new(0, 50);
    assert_eq!(no_retries.after_failure(0), None);
}
