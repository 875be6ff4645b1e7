use kafka_engine::config::{AppConfig, DatabaseConfig, KafkaConfig, LoggingConfig};

#[test]
fn config_test_default_values() {
    let cfg = KafkaConfig::default();
    assert_eq!(cfg.brokers, "localhost:9092");
    assert_eq!(cfg.consumer_group_id, "template-service-group");
    assert_eq!(cfg.topics, "");
    assert!(!cfg.enabled);
    assert_eq!(cfg.auto_offset_reset, "latest");
    assert_eq!(cfg.session_timeout_ms, 6000);
}

#[test]
fn logging_test_default_values() {
    let cfg = LoggingConfig::default();
    assert_eq!(cfg.level, "info");
    assert_eq!(cfg.format, "json");
    assert_eq!(cfg.service_name, "template-service");
    assert_eq!(cfg.environment, "production");
}

#[test]
fn app_test_default_values() {
    let cfg = AppConfig::default();
    assert_eq!(cfg.host, "0.0.0.0");
    assert_eq!(cfg.port, 3000);
    assert_eq!(cfg.environment, "development");
}

#[test]
fn test_defaults() {
    let cfg = DatabaseConfig::default();
    assert_eq!(cfg.url, "0.0.0.0");
    assert_eq!(cfg.max_connections, 5);
}
