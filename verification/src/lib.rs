//! Topic-routed message dispatch engine for a log-based pub/sub broker.
//!
//! The crate models the decision core of a broker-backed messaging service:
//! handlers are registered per topic, incoming messages are routed to the
//! handler bound to their topic, and the handler's verdict determines whether
//! the message's offset is committed. A companion producer path stages
//! outbound records and interprets delivery confirmations. All broker I/O
//! (connecting, polling, committing, publishing) is performed by the
//! surrounding application; this crate makes every routing and commit
//! decision and proves the commit discipline correct.

pub mod config;
pub mod consumer;
pub mod error;
pub mod handler;
pub mod json;
pub mod manager;
pub mod messages;
pub mod message;
pub mod producer;
mod text;
