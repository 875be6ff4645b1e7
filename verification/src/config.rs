//! Configuration surfaces consumed as plain values.
//!
//! Each struct carries the fields the engine depends on, with a hand-written
//! `Default` giving the documented fallback for every field. Reading
//! overrides from the process environment is the surrounding application's
//! concern; the defaults here are the fixed ones.

use vstd::prelude::*;

verus! {

/// Broker configuration: addresses, group id, topic list, enabled switch,
/// offset-reset policy and session timeout. Immutable once constructed.
#[derive(Debug, Clone)]
pub struct KafkaConfig {
    /// Comma-separated list of broker addresses (e.g., "localhost:9092").
    pub brokers: String,
    /// Consumer group id for consumers.
    pub consumer_group_id: String,
    /// Comma-separated list of topics; informational only, the subscription
    /// set is derived from the registered handlers.
    pub topics: String,
    /// Whether the broker integration is enabled at all.
    pub enabled: bool,
    /// Offset-reset policy for consumers: one of "earliest", "latest", "none".
    pub auto_offset_reset: String,
    /// Session timeout in milliseconds.
    pub session_timeout_ms: u32,
}

impl KafkaConfig {
    /// A configuration is well formed when it names at least one broker and
    /// its offset-reset policy is one of the three recognised words.
    pub open spec fn is_valid(self) -> bool {
        &&& self.brokers@.len() > 0
        &&& (self.auto_offset_reset@ == "earliest"@ || self.auto_offset_reset@ == "latest"@
            || self.auto_offset_reset@ == "none"@)
    }
}

impl Default for KafkaConfig {
    /// The documented fallbacks, used when no override is supplied.
    fn default() -> (c: KafkaConfig)
        ensures
            c.brokers@ == "localhost:9092"@,
            c.consumer_group_id@ == "template-service-group"@,
            c.topics@ == ""@,
            !c.enabled,
            c.auto_offset_reset@ == "latest"@,
            c.session_timeout_ms == 6000,
            c.is_valid(),
    {
        proof {
            reveal_strlit("localhost:9092");
            reveal_strlit("latest");
        }
        KafkaConfig {
            brokers: String::from_str("localhost:9092"),
            consumer_group_id: String::from_str("template-service-group"),
            topics: String::from_str(""),
            enabled: false,
            auto_offset_reset: String::from_str("latest"),
            session_timeout_ms: 6000,
        }
    }
}

/// Structured-logging configuration; consumed by the surrounding
/// application's logging setup, carried here as plain values.
#[derive(Debug, Clone)]
pub struct LoggingConfig {
    /// Log level ("trace", "debug", "info", "warn", "error").
    pub level: String,
    /// Log format: "json" for structured output, anything else for a
    /// human-readable form.
    pub format: String,
    /// Service name included in every log record.
    pub service_name: String,
    /// Environment name included in every log record.
    pub environment: String,
}

impl Default for LoggingConfig {
    fn default() -> (c: LoggingConfig)
        ensures
            c.level@ == "info"@,
            c.format@ == "json"@,
            c.service_name@ == "template-service"@,
            c.environment@ == "production"@,
    {
        LoggingConfig {
            level: String::from_str("info"),
            format: String::from_str("json"),
            service_name: String::from_str("template-service"),
            environment: String::from_str("production"),
        }
    }
}

/// HTTP application configuration carried as plain values.
#[derive(Debug, Clone)]
pub struct AppConfig {
    /// Interface the server binds to.
    pub host: String,
    /// Port the server listens on.
    pub port: i32,
    /// Application environment name.
    pub environment: String,
}

impl Default for AppConfig {
    fn default() -> (c: AppConfig)
        ensures
            c.host@ == "0.0.0.0"@,
            c.port == 3000,
            c.environment@ == "development"@,
    {
        AppConfig {
            host: String::from_str("0.0.0.0"),
            port: 3000,
            environment: String::from_str("development"),
        }
    }
}

/// Database connection configuration carried as plain values.
#[derive(Debug, Clone)]
pub struct DatabaseConfig {
    /// Connection URL.
    pub url: String,
    /// Maximum number of pooled connections.
    pub max_connections: u32,
}

impl Default for DatabaseConfig {
    fn default() -> (c: DatabaseConfig)
        ensures
            c.url@ == "0.0.0.0"@,
            c.max_connections == 5,
    {
        DatabaseConfig { url: String::from_str("0.0.0.0"), max_connections: 5 }
    }
}

} // verus!
