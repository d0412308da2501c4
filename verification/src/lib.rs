//! Client library for a tiny message-queue server spoken to over a
//! line-based request/response protocol.
//!
//! The library builds request frames, parses raw responses, classifies
//! failures, and decides retries with exponential backoff.  Every function
//! here carries a contract; the surrounding asynchronous plumbing (sockets,
//! timers) lives outside the library and only moves bytes.

pub mod client;
pub mod codec;
pub mod config;
pub mod error;
pub mod message;
pub mod retry;
pub mod text;

pub use client::TlqClient;
pub use config::Config;
pub use config::ConfigBuilder;
pub use error::Result;
pub use error::TlqError;
pub use message::Message;
pub use message::MessageState;
pub use retry::RetryStrategy;
