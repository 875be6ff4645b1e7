//! The message as the dispatch loop sees it.

use vstd::prelude::*;

verus! {

/// One message pulled from the broker, owned transiently by the dispatch
/// loop for the duration of a single handling cycle.
#[derive(Debug, Clone)]
pub struct Message {
    /// Topic the message arrived on.
    pub topic: String,
    /// Partition within the topic; broker-assigned, never negative.
    pub partition: i32,
    /// Offset within the partition; broker-assigned, never negative.
    pub offset: i64,
    /// Optional opaque key bytes.
    pub key: Option<Vec<u8>>,
    /// Opaque payload bytes; a message may arrive without one.
    pub payload: Option<Vec<u8>>,
}

} // verus!
