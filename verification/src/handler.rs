//! The polymorphic handler contract that business logic implements.
//!
//! A handler claims one topic and decides the fate of every message that
//! arrives on it: commit it (`Consume`), leave it for redelivery (`Skip`),
//! or discard it permanently (`Reject`). A failing `handle` call is a
//! fourth, involuntary outcome that the dispatch loop treats like a skip
//! but reports as a failure.

use vstd::prelude::*;
use vstd::slice::slice_to_vec;

verus! {

/// The action a handler chooses for a processed message.
#[derive(Debug, Clone, Copy, PartialEq, Eq, Structural)]
pub enum MessageAction {
    /// Processing succeeded: commit the message's offset.
    Consume,
    /// Leave the offset uncommitted; the broker will redeliver.
    Skip,
    /// Permanent failure: commit the offset so the message is not retried.
    Reject,
}

/// Error raised by a handler whose `handle` call itself failed.
#[derive(Debug, Clone)]
pub struct HandlerError {
    /// Human-readable description of the failure.
    pub message: String,
}

/// Result of one handler invocation.
pub type HandlerResult = Result<MessageAction, HandlerError>;

/// The bytes behind an optional borrowed key.
pub open spec fn key_bytes(key: Option<&[u8]>) -> Option<Seq<u8>> {
    match key {
        Some(k) => Some(k@),
        None => None,
    }
}

/// Contract for per-topic message handlers.
///
/// The claimed topic is fixed by `spec_topic` and `topic` must report it on
/// every call, so a registration keyed by `topic()` stays in step with the
/// specification-level registry. Every `handle` call is tied to the
/// handler's own verdict relation `handle_post`, so the dispatch loop's
/// report provably reflects an actual verdict of the routed handler on
/// exactly the delivered message.
pub trait MessageHandler: Send + Sync + Sized {
    /// The topic this handler claims, at the specification level.
    /// Implementations that take part in verified routing override this
    /// with the name they claim; the default claims the empty name.
    open spec fn spec_topic(&self) -> Seq<char> {
        Seq::empty()
    }

    /// The handler's verdict relation: which results `handle` may return
    /// for a given message. The default permits every outcome;
    /// implementations with verified behavior override it with their own
    /// relation.
    open spec fn handle_post(
        &self,
        key: Option<Seq<u8>>,
        payload: Seq<u8>,
        topic: Seq<char>,
        partition: i32,
        offset: i64,
        r: HandlerResult,
    ) -> bool {
        true
    }

    /// Returns the topic this handler is registered for; stable across
    /// calls and never empty.
    fn topic(&self) -> (t: &str)
        ensures
            t@ == self.spec_topic(),
            t@.len() != 0,
    ;

    /// Process one message and choose its fate.
    ///
    /// `key` and `payload` are the message's raw bytes; `topic`, `partition`
    /// and `offset` locate it within the broker's log. Business logic is
    /// free to succeed with any action or to fail, within its own verdict
    /// relation.
    fn handle(
        &self,
        key: Option<&[u8]>,
        payload: &[u8],
        topic: &str,
        partition: i32,
        offset: i64,
    ) -> (r: HandlerResult)
        ensures
            self.handle_post(key_bytes(key), payload@, topic@, partition, offset, r),
    ;

    /// Optional payload pre-processing; the default hands the payload back
    /// unchanged.
    fn transform(&self, payload: &[u8]) -> (r: Result<Vec<u8>, HandlerError>)
        default_ensures
            r matches Ok(v) && v@ == payload@,
    {
        Ok(slice_to_vec(payload))
    }
}

} // verus!
