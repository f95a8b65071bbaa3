use netmon::error::NetworkMonitorError;
use netmon::parsing::parse_hex_u16;
use netmon::recovery::{CircuitBreaker, EnhancedErrorRecovery, ErrorRecovery, RetryState, RetryStep};

fn parse_error(text: &str) -> NetworkMonitorError {
    NetworkMonitorError::ParseError(text.to_string())
}

#[test]
fn test_circuit_breaker() {
    let mut cb = CircuitBreaker::new(2, 100);

    assert!(cb.call(0, || Ok(42)).is_ok());
    assert!(!cb.is_open());

    assert!(cb.call(10, || Err::<i32, _>(parse_error("test"))).is_err());
    assert!(cb.call(20, || Err::<i32, _>(parse_error("test"))).is_err());
    assert!(cb.is_open());

    assert!(cb.call(30, || Ok(42)).is_err());

    assert!(cb.call(170, || Ok(42)).is_ok());
    assert!(!cb.is_open());
}

#[test]
fn open_breaker_does_not_run_the_operation() {
    let mut cb = CircuitBreaker::new(2, 1000);
    let _ = cb.call(0, || Err::<(), _>(parse_error("a")));
    let _ = cb.call(1, || Err::<(), _>(parse_error("b")));
    let runs = std::cell::Cell::new(0);
    let r = cb.call(500, || {
        runs.set(runs.get() + 1);
        Ok(1)
    });
    assert_eq!(runs.get(), 0);
    match r {
        Err(NetworkMonitorError::ParseError(m)) => assert_eq!(m, "Circuit breaker is open"),
        _ => panic!("expected rejection"),
    }
    assert!(cb.is_open());
    let r = cb.call(1002, || {
        runs.set(runs.get() + 1);
        Ok(2)
    });
    assert_eq!(runs.get(), 1);
    assert_eq!(r.ok(), Some(2));
    assert!(!cb.is_open());
}

#[test]
fn half_open_failure_reopens() {
    let mut cb = CircuitBreaker::new(1, 10);
    assert!(cb.call(0, || Err::<(), _>(parse_error("x"))).is_err());
    assert!(cb.is_open());
    assert!(cb.call(11, || Err::<(), _>(parse_error("y"))).is_err());
    assert!(cb.is_open());
    assert!(cb.call(15, || Ok(())).is_err());
}

#[test]
fn default_breaker_needs_five_failures() {
    let mut cb = CircuitBreaker::default();
    for t in 0..4 {
        let _ = cb.call(t, || Err::<(), _>(parse_error("x")));
        assert!(!cb.is_open());
    }
    let _ = cb.call(4, || Err::<(), _>(parse_error("x")));
    assert!(cb.is_open());
    assert!(cb.call(30004, || Ok(())).is_err());
    assert!(cb.call(30005, || Ok(())).is_ok());
}

#[test]
fn test_parse_line_with_fallback() {
    let result = ErrorRecovery::parse_line_with_fallback("invalid", |s: &str| parse_hex_u16(s, "test"), 42);
    assert_eq!(result, 42);
    let result = ErrorRecovery::parse_line_with_fallback("ff", |s: &str| parse_hex_u16(s, "test"), 42);
    assert_eq!(result, 255);
}

#[test]
fn test_retry_with_backoff() {
    let mut attempts = 0;
    let mut waits = Vec::new();
    let mut schedule = RetryState::new(3, 10_000_000);
    let result = loop {
        attempts += 1;
        let outcome: Result<i32, NetworkMonitorError> =
            if attempts < 3 { Err(parse_error("test")) } else { Ok(42) };
        match schedule.after_attempt(outcome.is_ok()) {
            RetryStep::Finish => break outcome,
            RetryStep::Wait(ms) => waits.push(ms),
        }
    };
    assert_eq!(result.unwrap(), 42);
    assert_eq!(attempts, 3);
    assert_eq!(waits, vec![10_000_000, 15_000_000]);
}

#[test]
fn retry_gives_up_after_last_attempt() {
    let mut schedule = RetryState::new(2, 100);
    assert_eq!(schedule.after_attempt(false), RetryStep::Wait(100));
    assert_eq!(schedule.after_attempt(false), RetryStep::Wait(150));
    assert_eq!(schedule.after_attempt(false), RetryStep::Finish);
    let mut none = RetryState::new(0, 100);
    assert_eq!(none.after_attempt(false), RetryStep::Finish);
}

#[test]
fn retry_delays_grow_by_exactly_half() {
    let mut schedule = RetryState::new(12, 1);
    let mut waits = Vec::new();
    while let RetryStep::Wait(d) = schedule.after_attempt(false) {
        waits.push(d);
    }
    assert_eq!(waits, vec![1, 1, 2, 3, 5, 7, 11, 17, 25, 38, 57, 86]);

    let mut ms = RetryState::new(3, 10_000_000);
    let mut waits = Vec::new();
    while let RetryStep::Wait(d) = ms.after_attempt(false) {
        waits.push(d);
    }
    assert_eq!(waits, vec![10_000_000, 15_000_000, 22_500_000]);
}

#[test]
fn retry_delays_saturate() {
    let mut schedule = RetryState::new(300, u64::MAX / 2);
    let mut waits = Vec::new();
    while let RetryStep::Wait(d) = schedule.after_attempt(false) {
        waits.push(d);
    }
    assert_eq!(waits.len(), 300);
    assert_eq!(waits[0], u64::MAX / 2);
    assert_eq!(waits[1], (u64::MAX / 2) / 2 * 3 + 1);
    assert!(waits[2..].iter().all(|&d| d == u64::MAX));
    let mut zero = RetryState::new(200, 0);
    while let RetryStep::Wait(d) = zero.after_attempt(false) {
        assert_eq!(d, 0);
    }
}

#[test]
fn test_try_operations() {
    let operations: Vec<Box<dyn FnOnce() -> Result<i32, NetworkMonitorError>>> = vec![
        Box::new(|| Err(parse_error("first"))),
        Box::new(|| Err(parse_error("second"))),
        Box::new(|| Ok(42)),
        Box::new(|| Ok(99)),
    ];
    let result = EnhancedErrorRecovery::try_operations(operations);
    assert_eq!(result.unwrap(), 42);
}

#[test]
fn try_operations_reports_last_failure() {
    let operations: Vec<Box<dyn FnOnce() -> Result<i32, NetworkMonitorError>>> =
        vec![Box::new(|| Err(parse_error("first"))), Box::new(|| Err(parse_error("second")))];
    match EnhancedErrorRecovery::try_operations(operations) {
        Err(NetworkMonitorError::ParseError(m)) => assert_eq!(m, "second"),
        _ => panic!("expected the last failure"),
    }
    let none: Vec<Box<dyn FnOnce() -> Result<i32, NetworkMonitorError>>> = Vec::new();
    match EnhancedErrorRecovery::try_operations(none) {
        Err(NetworkMonitorError::ParseError(m)) => assert_eq!(m, "All operations failed"),
        _ => panic!("expected a failure"),
    }
}

#[test]
fn test_graceful_degradation() {
    let result = EnhancedErrorRecovery::graceful_degradation(|| Err(parse_error("test")), || 42);
    assert_eq!(result, 42);
    let result = EnhancedErrorRecovery::graceful_degradation(|| Ok(7), || 42);
    assert_eq!(result, 7);
}

#[test]
fn test_batch_with_partial_failure() {
    let items = vec![1, 2, 3, 4, 5];
    let (successful, failed) = EnhancedErrorRecovery::batch_with_partial_failure(items, |item: &i32| {
        if *item % 2 == 0 {
            Ok(())
        } else {
            Err(NetworkMonitorError::ParseError(format!("Failed for item {}", item)))
        }
    });

    assert_eq!(successful.len(), 2);
    assert_eq!(failed.len(), 3);
    assert_eq!(successful, vec![2, 4]);
    match &failed[2] {
        NetworkMonitorError::ParseError(m) => assert_eq!(m, "Failed for item 5"),
        _ => panic!("expected a parse error"),
    }
}

#[test]
fn circuit_breaker_wrapper_delegates() {
    let mut cb = CircuitBreaker::new(1, 50);
    assert!(EnhancedErrorRecovery::with_circuit_breaker(&mut cb, 0, || Err::<(), _>(parse_error("x"))).is_err());
    assert!(EnhancedErrorRecovery::with_circuit_breaker(&mut cb, 10, || Ok(())).is_err());
    assert!(EnhancedErrorRecovery::with_circuit_breaker(&mut cb, 51, || Ok(())).is_ok());
}

#[test]
fn connections_with_fallback_skip_failed_kind() {
    let tcp = || -> Result<Vec<netmon::models::Connection>, NetworkMonitorError> { Err(parse_error("tcp")) };
    let udp = || {
        Ok(vec![netmon::models::Connection::new(
            "udp".to_string(),
            "".to_string(),
            "0.0.0.0:53".to_string(),
            "0.0.0.0:0".to_string(),
            "N/A".to_string(),
            "N/A".to_string(),
            "N/A".to_string(),
        )])
    };
    let all = ErrorRecovery::get_connections_with_fallback(tcp, udp);
    assert_eq!(all.len(), 1);
    assert_eq!(all[0].protocol, "udp");
}

#[test]
fn recovering_line_parser_fills_defaults() {
    let c = ErrorRecovery::parse_proc_net_line_with_recovery(
        "0: 0100007F:ZZZZ 12345:0000 0A 0 0 0 0 0 77",
        "tcp",
        "LISTEN",
    )
    .unwrap();
    assert_eq!(c.local, "127.0.0.1:0");
    assert_eq!(c.remote, "0.0.0.0:0");
    assert_eq!(c.state, "LISTEN");
    assert_eq!(c.program, "Unknown");
    assert_eq!(c.pid, "N/A");
    assert!(ErrorRecovery::parse_proc_net_line_with_recovery("0: a b", "tcp", "LISTEN").is_none());
    assert_eq!(ErrorRecovery::parse_socket_addr_with_fallback("nocolon", "fb"), "fb");
}
