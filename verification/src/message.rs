//! The message entity and the per-operation request payloads.

use vstd::prelude::*;

verus! {

/// Processing state of a message in the queue.
///
/// The server owns the transitions (`Ready` to `Processing` when a consumer
/// takes the message, `Processing` to `Failed` when handling fails, `Failed`
/// back to `Ready` on retry); the client only observes them.
#[derive(Debug, Clone, Copy, PartialEq, Eq, Structural)]
pub enum MessageState {
    /// The message waits for a consumer.
    Ready,
    /// A consumer is handling the message.
    Processing,
    /// Handling the message failed; it may be retried.
    Failed,
}

/// One message in the queue.
#[derive(Debug, Clone, PartialEq)]
pub struct Message {
    /// Unique time-ordered identifier, the 128 bits of a version-7 UUID.
    pub id: u128,
    /// The message content.
    pub body: String,
    /// Current processing state.
    pub state: MessageState,
    /// Timestamp text until which the message is locked, if any.
    pub lock_until: Option<String>,
    /// How many times the message was retried after a failure.
    pub retry_count: u32,
}

/// The mathematical content of a [`Message`]: its fields, with text as
/// character sequences.
pub ghost struct MessageView {
    pub id: u128,
    pub body: Seq<char>,
    pub state: MessageState,
    pub lock_until: Option<Seq<char>>,
    pub retry_count: u32,
}

impl View for Message {
    type V = MessageView;

    open spec fn view(&self) -> MessageView {
        MessageView {
            id: self.id,
            body: self.body@,
            state: self.state,
            lock_until: match self.lock_until {
                Some(ref t) => Some(t@),
                None => None,
            },
            retry_count: self.retry_count,
        }
    }
}

/// Relies on `uuid::Uuid::now_v7` and `uuid::Uuid::as_u128`: a fresh
/// time-ordered version-7 identifier as its 128 bits.  The value depends on
/// the clock and a random source, so nothing is promised of it.
#[verifier::external_body]
fn new_v7_id() -> u128 {
    uuid::Uuid::now_v7().as_u128()
}

impl Message {
    /// A fresh message around `body`: a new time-ordered identifier, state
    /// `Ready`, no lock, and a zero retry count.
    pub fn new(body: String) -> (m: Message)
        ensures
            m.body == body,
            m.state == MessageState::Ready,
            m.lock_until is None,
            m.retry_count == 0,
    {
        Message {
            id: new_v7_id(),
            body,
            state: MessageState::Ready,
            lock_until: None,
            retry_count: 0,
        }
    }
}

/// Payload of a request to add one message.
#[derive(Debug)]
pub struct AddMessageRequest {
    /// The body of the message to enqueue.
    pub body: String,
}

/// Payload of a request to fetch up to `count` messages.
#[derive(Debug)]
pub struct GetMessagesRequest {
    /// Maximum number of messages to fetch.
    pub count: u32,
}

/// Payload of a request to delete the given messages.
#[derive(Debug)]
pub struct DeleteMessagesRequest {
    /// Identifiers of the messages to delete.
    pub ids: Vec<u128>,
}

/// Payload of a request to move the given failed messages back to `Ready`.
#[derive(Debug)]
pub struct RetryMessagesRequest {
    /// Identifiers of the messages to retry.
    pub ids: Vec<u128>,
}

} // verus!
