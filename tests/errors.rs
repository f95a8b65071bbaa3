use netmon::error::{MutexResult, NetworkMonitorError, Result};

#[test]
fn test_error_creation() {
    let io_error = std::io::Error::new(std::io::ErrorKind::NotFound, "test error");
    let network_error = NetworkMonitorError::from(io_error);

    match network_error {
        NetworkMonitorError::ProcIo(ref msg) => assert!(msg.contains("test error")),
        _ => panic!("Expected ProcIo error"),
    }
    assert!(network_error.to_string().starts_with("Failed to read /proc filesystem: "));
}

#[test]
fn test_invalid_address_error() {
    let error = NetworkMonitorError::InvalidAddress("bad_address".to_string());
    assert!(error.to_string().contains("Invalid socket address format"));
}

#[test]
fn test_hex_parse_error() {
    let error = NetworkMonitorError::HexParseError("invalid_hex".to_string());
    assert!(error.to_string().contains("Failed to parse hex value"));
}

#[test]
fn test_mutex_poison_error() {
    let error = NetworkMonitorError::MutexPoison("test_mutex".to_string());
    assert!(error.to_string().contains("Mutex lock poisoned"));
}

#[test]
fn test_result_type() {
    fn returns_result() -> Result<String> {
        Ok("test".to_string())
    }

    assert!(returns_result().is_ok());
}

#[test]
fn test_error_context_macro() {
    let result: Result<String> = Err(NetworkMonitorError::ParseError("test error".to_string()));

    match result {
        Err(NetworkMonitorError::ParseError(msg)) => {
            assert!(msg.contains("test error"));
        }
        _ => panic!("Expected ParseError"),
    }
}

#[test]
fn error_messages_are_prefix_and_detail() {
    assert_eq!(
        NetworkMonitorError::ProcessNotFound("42".to_string()).to_string(),
        "Process not found: 42"
    );
    assert_eq!(NetworkMonitorError::InvalidPid("x".to_string()).to_string(), "Invalid PID format: x");
    assert_eq!(
        NetworkMonitorError::ResolutionError("h".to_string()).to_string(),
        "Failed to resolve hostname: h"
    );
    assert_eq!(NetworkMonitorError::GtkInitError.to_string(), "GTK initialization failed");
    assert_eq!(NetworkMonitorError::TerminalError.to_string(), "Terminal initialization failed");
}

#[test]
fn poisoned_lock_maps_to_mutex_error() {
    let ok: std::result::Result<u32, std::sync::PoisonError<u32>> = Ok(7);
    assert_eq!(ok.handle_mutex("cache").ok(), Some(7));
    let bad: std::result::Result<u32, std::sync::PoisonError<u32>> = Err(std::sync::PoisonError::new(7));
    match bad.handle_mutex("cache") {
        Err(NetworkMonitorError::MutexPoison(m)) => assert_eq!(m, "cache"),
        _ => panic!("Expected MutexPoison"),
    }
}
