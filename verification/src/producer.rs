//! The producer core: staging outbound records and interpreting delivery
//! confirmations.
//!
//! Publishing is a synchronous exchange with the broker; the exchange
//! itself is the application's part. This module makes every decision
//! around it: it validates the configuration, stages the exact record to
//! put on the wire — including the fixed per-call delivery timeout — and
//! turns the broker's answer into the caller's result.

use vstd::prelude::*;
use vstd::string::StrSliceExecFns;

use crate::config::KafkaConfig;
use crate::error::KafkaError;

verus! {

/// Contract for values that can serialize themselves to the wire's JSON
/// text; the convenience publish path is generic over it.
pub trait JsonEncode {
    /// Whether this value has a wire encoding.
    spec fn spec_encodes(&self) -> bool;

    /// The wire text, when it has one.
    spec fn spec_json(&self) -> Seq<char>;

    /// Serialize to the wire text; fails exactly when the value has no
    /// encoding, and the failure is a serialization error.
    fn to_json(&self) -> (r: Result<String, crate::error::KafkaError>)
        ensures
            r matches Ok(text) ==> self.spec_encodes() && text@ == self.spec_json(),
            r is Err ==> !self.spec_encodes(),
            r matches Err(e) ==> e is Serialization,
    ;
}

/// A record staged for delivery: everything the transport needs to publish
/// one message.
#[derive(Debug)]
pub struct OutboundRecord {
    /// Destination topic.
    pub topic: String,
    /// Optional message key.
    pub key: Option<String>,
    /// Payload bytes.
    pub payload: Vec<u8>,
    /// How long the transport may wait for the broker's acknowledgement,
    /// in milliseconds.
    pub timeout_ms: u64,
}

/// The broker's answer to one staged record.
#[derive(Debug)]
pub enum DeliveryOutcome {
    /// The broker acknowledged the record at this (partition, offset).
    Delivered(i32, i64),
    /// The broker rejected the record or the timeout elapsed.
    Failed(String),
}

/// The producer core. The publishing client itself lives with the
/// application; this type fixes the delivery policy and the shape of every
/// exchange.
pub struct KafkaProducer {
    /// Fixed per-call delivery timeout, in milliseconds.
    pub timeout_ms: u64,
}

impl KafkaProducer {
    /// Create a producer core from configuration, with the fixed
    /// five-second delivery timeout. Succeeds exactly when at least one
    /// broker is named.
    pub fn new(config: &KafkaConfig) -> (r: Result<KafkaProducer, KafkaError>)
        ensures
            r is Ok <==> config.brokers@.len() > 0,
            r matches Ok(p) ==> p.timeout_ms == 5000,
            r matches Err(e) ==> e is InvalidConfig,
    {
        if config.brokers.as_str().is_empty() {
            return Err(
                KafkaError::InvalidConfig {
                    reason: String::from_str("no brokers configured"),
                },
            );
        }
        Ok(KafkaProducer { timeout_ms: 5000 })
    }

    /// Stage one message for delivery: the returned record carries exactly
    /// the given topic, key and payload, and this producer's delivery
    /// timeout. The transport publishes it and answers with a
    /// [`DeliveryOutcome`] for [`Self::interpret_delivery`].
    pub fn send(&self, topic: &str, key: Option<&str>, payload: &[u8]) -> (r: OutboundRecord)
        ensures
            r.topic@ == topic@,
            r.key is Some <==> key is Some,
            key matches Some(k) ==> r.key matches Some(rk) && rk@ == k@,
            r.payload@ == payload@,
            r.timeout_ms == self.timeout_ms,
    {
        let owned_key: Option<String> = match key {
            Some(k) => Some(k.to_owned()),
            None => None,
        };
        OutboundRecord {
            topic: topic.to_owned(),
            key: owned_key,
            payload: vstd::slice::slice_to_vec(payload),
            timeout_ms: self.timeout_ms,
        }
    }

    /// Stage a JSON-serializable value for delivery: the value is
    /// serialized to its wire text before anything else happens, and a
    /// serialization failure is surfaced as an error with nothing staged —
    /// no record ever reaches the transport for such a value.
    pub fn send_json<T: JsonEncode>(&self, topic: &str, key: Option<&str>, data: &T) -> (r:
        Result<OutboundRecord, KafkaError>)
        ensures
            r is Ok <==> data.spec_encodes(),
            r matches Ok(rec) ==> rec.topic@ == topic@ && (rec.key is Some <==> key is Some) && (
            key matches Some(k) ==> rec.key matches Some(rk) && rk@ == k@) && rec.payload@
                == vstd::utf8::encode_utf8(data.spec_json()) && rec.timeout_ms == self.timeout_ms,
            r matches Err(e) ==> e is Serialization,
    {
        let text: String = match data.to_json() {
            Ok(t) => t,
            Err(e) => {
                return Err(e);
            },
        };
        let payload: Vec<u8> = text.as_str().as_bytes_vec();
        Ok(self.send(topic, key, payload.as_slice()))
    }

    /// Interpret the broker's answer to a staged record: an
    /// acknowledgement becomes the confirmed (partition, offset) pair, a
    /// rejection or timeout becomes a delivery error carrying the
    /// transport's reason, with no retry.
    pub fn interpret_delivery(&self, outcome: DeliveryOutcome) -> (r: Result<
        (i32, i64),
        KafkaError,
    >)
        ensures
            outcome matches DeliveryOutcome::Delivered(p, o) ==> r == Ok::<
                (i32, i64),
                KafkaError,
            >((p, o)),
            outcome matches DeliveryOutcome::Failed(reason) ==> r matches Err(e) && e matches
                KafkaError::Delivery { reason: why } && why@ == reason@,
    {
        match outcome {
            DeliveryOutcome::Delivered(partition, offset) => Ok((partition, offset)),
            DeliveryOutcome::Failed(reason) => Err(KafkaError::Delivery { reason }),
        }
    }
}

} // verus!
