use kafka_engine::config::KafkaConfig;
use kafka_engine::handler::{HandlerResult, MessageAction, MessageHandler};
use kafka_engine::manager::KafkaManager;

struct TestHandler {
    topic: String,
}

impl MessageHandler for TestHandler {
    fn topic(&self) -> &str {
        &self.topic
    }

    fn handle(
        &self,
        _key: Option<&[u8]>,
        _payload: &[u8],
        _topic: &str,
        _partition: i32,
        _offset: i64,
    ) -> HandlerResult {
        Ok(MessageAction::Consume)
    }
}

fn config(enabled: bool) -> KafkaConfig {
    KafkaConfig {
        brokers: "localhost:9092".to_string(),
        consumer_group_id: "test-group".to_string(),
        topics: "test-topic".to_string(),
        enabled,
        auto_offset_reset: "latest".to_string(),
        session_timeout_ms: 6000,
    }
}

#[test]
fn test_manager_creation_disabled() {
    let manager = KafkaManager::<TestHandler>::new(config(false)).unwrap();
    assert!(!manager.is_enabled());
    assert!(manager.consumer.is_none());
    assert!(manager.producer.is_none());
}

#[test]
fn test_manager_creation_enabled() {
    let manager = KafkaManager::<TestHandler>::new(config(true)).unwrap();
    assert!(manager.is_enabled());
    assert!(manager.consumer.is_some());
    assert!(manager.producer.is_some());
}

#[test]
fn manager_test_register_handler() {
    let mut manager = KafkaManager::new(config(true)).unwrap();
    let handler = TestHandler { topic: "test-topic".to_string() };

    manager.register_handler(handler);
    assert!(manager.consumer.as_ref().unwrap().has_handler_for("test-topic"));
}

#[test]
fn test_register_handler_when_disabled() {
    let mut manager = KafkaManager::new(config(false)).unwrap();
    let handler = TestHandler { topic: "test-topic".to_string() };

    // Should not panic even when disabled
    manager.register_handler(handler);
}

#[test]
fn disabled_manager_is_inert() {
    // Disabled: no producer, no consumer to start, registration is a safe
    // no-op.
    let mut manager = KafkaManager::<TestHandler>::new(config(false)).unwrap();
    assert!(manager.producer().is_none());
    manager.register_handler(TestHandler { topic: "orders".to_string() });
    assert!(manager.start_consumer().is_none());
    assert!(manager.producer().is_none());
}

#[test]
fn consumer_starts_exactly_once() {
    let mut manager = KafkaManager::new(config(true)).unwrap();
    manager.register_handler(TestHandler { topic: "orders".to_string() });

    let first = manager.start_consumer();
    assert!(first.is_some());
    assert_eq!(first.unwrap().topics(), vec!["orders".to_string()]);

    let second = manager.start_consumer();
    assert!(second.is_none());
}

#[test]
fn manager_construction_fails_on_bad_config() {
    let mut bad = config(true);
    bad.auto_offset_reset = "whenever".to_string();
    assert!(KafkaManager::<TestHandler>::new(bad).is_err());

    let mut bad_disabled = config(false);
    bad_disabled.auto_offset_reset = "whenever".to_string();
    // Disabled managers never touch the broker configuration.
    assert!(KafkaManager::<TestHandler>::new(bad_disabled).is_ok());
}
