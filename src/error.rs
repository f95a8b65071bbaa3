//! The library's error type and its messages.
use vstd::prelude::*;
use vstd::string::StringExecFns;

verus! {

/// What can go wrong while observing the host's sockets.
#[derive(Debug)]
pub enum NetworkMonitorError {
    ProcIo(String),
    InvalidAddress(String),
    ProcessNotFound(String),
    ParseError(String),
    HexParseError(String),
    InvalidPid(String),
    MutexPoison(String),
    ResolutionError(String),
    GtkInitError,
    TerminalError,
}

pub type Result<T> = core::result::Result<T, NetworkMonitorError>;

/// The fixed text that opens the message of each kind of error.
pub open spec fn error_prefix(e: NetworkMonitorError) -> Seq<char> {
    match e {
        NetworkMonitorError::ProcIo(_) => "Failed to read /proc filesystem: "@,
        NetworkMonitorError::InvalidAddress(_) => "Invalid socket address format: "@,
        NetworkMonitorError::ProcessNotFound(_) => "Process not found: "@,
        NetworkMonitorError::ParseError(_) => "Failed to parse network data: "@,
        NetworkMonitorError::HexParseError(_) => "Failed to parse hex value: "@,
        NetworkMonitorError::InvalidPid(_) => "Invalid PID format: "@,
        NetworkMonitorError::MutexPoison(_) => "Mutex lock poisoned: "@,
        NetworkMonitorError::ResolutionError(_) => "Failed to resolve hostname: "@,
        NetworkMonitorError::GtkInitError => "GTK initialization failed"@,
        NetworkMonitorError::TerminalError => "Terminal initialization failed"@,
    }
}

/// The detail that an error carries, empty for the kinds without one.
pub open spec fn error_detail(e: NetworkMonitorError) -> Seq<char> {
    match e {
        NetworkMonitorError::ProcIo(s) => s@,
        NetworkMonitorError::InvalidAddress(s) => s@,
        NetworkMonitorError::ProcessNotFound(s) => s@,
        NetworkMonitorError::ParseError(s) => s@,
        NetworkMonitorError::HexParseError(s) => s@,
        NetworkMonitorError::InvalidPid(s) => s@,
        NetworkMonitorError::MutexPoison(s) => s@,
        NetworkMonitorError::ResolutionError(s) => s@,
        NetworkMonitorError::GtkInitError => Seq::empty(),
        NetworkMonitorError::TerminalError => Seq::empty(),
    }
}

impl NetworkMonitorError {
    /// The human-readable message: the kind's text followed by the detail.
    pub fn to_string(&self) -> (r: String)
        ensures
            r@ == error_prefix(*self) + error_detail(*self),
    {
        match self {
            NetworkMonitorError::ProcIo(s) => String::from_str("Failed to read /proc filesystem: ").concat(s.as_str()),
            NetworkMonitorError::InvalidAddress(s) => String::from_str("Invalid socket address format: ").concat(s.as_str()),
            NetworkMonitorError::ProcessNotFound(s) => String::from_str("Process not found: ").concat(s.as_str()),
            NetworkMonitorError::ParseError(s) => String::from_str("Failed to parse network data: ").concat(s.as_str()),
            NetworkMonitorError::HexParseError(s) => String::from_str("Failed to parse hex value: ").concat(s.as_str()),
            NetworkMonitorError::InvalidPid(s) => String::from_str("Invalid PID format: ").concat(s.as_str()),
            NetworkMonitorError::MutexPoison(s) => String::from_str("Mutex lock poisoned: ").concat(s.as_str()),
            NetworkMonitorError::ResolutionError(s) => String::from_str("Failed to resolve hostname: ").concat(s.as_str()),
            NetworkMonitorError::GtkInitError => String::from_str("GTK initialization failed"),
            NetworkMonitorError::TerminalError => String::from_str("Terminal initialization failed"),
        }
    }
}

#[verifier::external_type_specification]
#[verifier::external_body]
pub struct ExIoError(std::io::Error);

/// Relies on the `Display` of `std::io::Error`: its description, which the
/// operating system may word as it likes.
#[verifier::external_body]
fn io_error_text(e: &std::io::Error) -> (r: String) {
    e.to_string()
}

impl From<std::io::Error> for NetworkMonitorError {
    fn from(e: std::io::Error) -> (r: NetworkMonitorError) {
        NetworkMonitorError::ProcIo(io_error_text(&e))
    }
}

/// The message of an I/O error is the operating system's wording, so the
/// conversion is not claimed to follow a specification.
impl vstd::std_specs::convert::FromSpecImpl<std::io::Error> for NetworkMonitorError {
    open spec fn obeys_from_spec() -> bool {
        false
    }

    open spec fn from_spec(e: std::io::Error) -> NetworkMonitorError {
        NetworkMonitorError::ProcIo(arbitrary())
    }
}

#[verifier::external_type_specification]
#[verifier::external_body]
#[verifier::reject_recursive_types(T)]
pub struct ExPoisonError<T>(std::sync::PoisonError<T>);

/// Turns a failed lock into this library's error.
pub trait MutexResult<T>: Sized {
    fn handle_mutex(self, context: &str) -> (r: Result<T>);
}

impl<T> MutexResult<T> for core::result::Result<T, std::sync::PoisonError<T>> {
    fn handle_mutex(self, context: &str) -> (r: Result<T>) {
        match self {
            Ok(v) => Ok(v),
            Err(_) => Err(NetworkMonitorError::MutexPoison(String::from_str(context))),
        }
    }
}

} // verus!
