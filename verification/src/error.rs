//! Engine-level errors.

use vstd::prelude::*;

verus! {

/// Errors surfaced by the engine's construction and publish paths.
#[derive(Debug, Clone)]
pub enum KafkaError {
    /// The configuration was rejected at construction time.
    InvalidConfig { reason: String },
    /// The broker rejected, or timed out, a delivery.
    Delivery { reason: String },
    /// A value could not be serialized for publication.
    Serialization { reason: String },
}

impl KafkaError {
    /// A human-readable description of the error.
    pub fn describe(&self) -> (r: &str)
        ensures
            match self {
                KafkaError::InvalidConfig { reason } => r@ == reason@,
                KafkaError::Delivery { reason } => r@ == reason@,
                KafkaError::Serialization { reason } => r@ == reason@,
            },
    {
        match self {
            KafkaError::InvalidConfig { reason } => reason.as_str(),
            KafkaError::Delivery { reason } => reason.as_str(),
            KafkaError::Serialization { reason } => reason.as_str(),
        }
    }
}

} // verus!
