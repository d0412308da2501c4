//! Failure taxonomy for client operations.

use vstd::prelude::*;
use vstd::string::StringExecFns;
use crate::text::spec_dec;
use crate::text::u64_to_string;

verus! {

/// Every way a client operation can fail.
///
/// `Connection`, `Timeout` and `Io` are transient transport failures and are
/// the retryable kinds; all other kinds are terminal.  Failures that stem
/// from an outside error value carry that error's description as a string.
#[derive(Debug)]
pub enum TlqError {
    /// Failure to reach or keep a connection to the server.
    Connection(String),
    /// The operation did not finish within the deadline, in milliseconds.
    Timeout(u64),
    /// The server answered with a failure status code and a message.
    Server { status: u16, message: String },
    /// An input was rejected before any network activity.
    Validation(String),
    /// A payload could not be encoded or decoded.
    Serialization(String),
    /// A low-level transport read or write failed.
    Io(String),
    /// An operation was retried up to the bound and still failed.
    MaxRetriesExceeded { max_retries: u32 },
    /// A message body was larger than [`crate::client::MAX_MESSAGE_SIZE`] bytes.
    MessageTooLarge { size: usize },
}

impl TlqError {
    /// Exactly the `Connection`, `Timeout` and `Io` kinds are retryable.
    pub open spec fn spec_is_retryable(&self) -> bool {
        match *self {
            TlqError::Connection(_) => true,
            TlqError::Timeout(_) => true,
            TlqError::Io(_) => true,
            _ => false,
        }
    }

    /// Whether re-attempting the same operation may succeed.
    pub fn is_retryable(&self) -> (r: bool)
        ensures
            r == self.spec_is_retryable(),
    {
        match *self {
            TlqError::Connection(_) => true,
            TlqError::Timeout(_) => true,
            TlqError::Io(_) => true,
            _ => false,
        }
    }

    /// The human-readable description of the error.
    pub open spec fn spec_message(&self) -> Seq<char> {
        match *self {
            TlqError::Connection(ref m) => "Connection error: "@ + m@,
            TlqError::Timeout(ms) => "Timeout error after "@ + spec_dec(ms as int) + "ms"@,
            TlqError::Server { status, ref message } => "Server error: "@ + spec_dec(
                status as int,
            ) + " - "@ + message@,
            TlqError::Validation(ref m) => "Validation error: "@ + m@,
            TlqError::Serialization(ref m) => "Serialization error: "@ + m@,
            TlqError::Io(ref m) => "IO error: "@ + m@,
            TlqError::MaxRetriesExceeded { max_retries } => "Max retries exceeded ("@ + spec_dec(
                max_retries as int,
            ) + ") for operation"@,
            TlqError::MessageTooLarge { size } => "Message too large: "@ + spec_dec(size as int)
                + " bytes (max: 65536)"@,
        }
    }

    /// Renders the error as text.
    pub fn message(&self) -> (s: String)
        ensures
            s@ == self.spec_message(),
    {
        match self {
            TlqError::Connection(m) => {
                let mut s = String::from_str("Connection error: ");
                s.append(m.as_str());
                s
            },
            TlqError::Timeout(ms) => {
                let mut s = String::from_str("Timeout error after ");
                let digits = u64_to_string(*ms);
                s.append(digits.as_str());
                s.append("ms");
                s
            },
            TlqError::Server { status, message } => {
                let mut s = String::from_str("Server error: ");
                let digits = u64_to_string(*status as u64);
                s.append(digits.as_str());
                s.append(" - ");
                s.append(message.as_str());
                s
            },
            TlqError::Validation(m) => {
                let mut s = String::from_str("Validation error: ");
                s.append(m.as_str());
                s
            },
            TlqError::Serialization(m) => {
                let mut s = String::from_str("Serialization error: ");
                s.append(m.as_str());
                s
            },
            TlqError::Io(m) => {
                let mut s = String::from_str("IO error: ");
                s.append(m.as_str());
                s
            },
            TlqError::MaxRetriesExceeded { max_retries } => {
                let mut s = String::from_str("Max retries exceeded (");
                let digits = u64_to_string(*max_retries as u64);
                s.append(digits.as_str());
                s.append(") for operation");
                s
            },
            TlqError::MessageTooLarge { size } => {
                let mut s = String::from_str("Message too large: ");
                let digits = u64_to_string(*size as u64);
                s.append(digits.as_str());
                s.append(" bytes (max: 65536)");
                s
            },
        }
    }
}

/// The result of a client operation.
pub type Result<T> = core::result::Result<T, TlqError>;

} // verus!
