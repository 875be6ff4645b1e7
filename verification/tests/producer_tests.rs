use kafka_engine::config::KafkaConfig;
use kafka_engine::error::KafkaError;
use kafka_engine::messages::TemplateMessage;
use kafka_engine::producer::{DeliveryOutcome, KafkaProducer};

fn config() -> KafkaConfig {
    KafkaConfig {
        brokers: "localhost:9092".to_string(),
        consumer_group_id: "test-group".to_string(),
        topics: "test-topic".to_string(),
        enabled: true,
        auto_offset_reset: "latest".to_string(),
        session_timeout_ms: 6000,
    }
}

#[test]
fn test_producer_creation() {
    let result = KafkaProducer::new(&config());
    assert!(result.is_ok());
}

#[test]
fn producer_rejects_empty_brokers() {
    let mut bad = config();
    bad.brokers = "".to_string();
    assert!(matches!(KafkaProducer::new(&bad), Err(KafkaError::InvalidConfig { .. })));
}

#[test]
fn send_stages_exact_record() {
    let producer = KafkaProducer::new(&config()).unwrap();
    let record = producer.send("events", Some("k1"), b"payload");
    assert_eq!(record.topic, "events");
    assert_eq!(record.key, Some("k1".to_string()));
    assert_eq!(record.payload, b"payload".to_vec());
    assert_eq!(record.timeout_ms, 5000);
}

#[test]
fn delivery_confirmation_returns_position() {
    let producer = KafkaProducer::new(&config()).unwrap();
    let confirmed = producer.interpret_delivery(DeliveryOutcome::Delivered(2, 118));
    assert_eq!(confirmed.unwrap(), (2, 118));
}

#[test]
fn delivery_failure_returns_error() {
    let producer = KafkaProducer::new(&config()).unwrap();
    let failed = producer.interpret_delivery(DeliveryOutcome::Failed(
        "Message timed out".to_string(),
    ));
    assert!(matches!(failed, Err(KafkaError::Delivery { .. })));
}

#[test]
fn send_json_stages_encoded_payload() {
    let producer = KafkaProducer::new(&config()).unwrap();
    let msg = TemplateMessage { id: "1".to_string(), content: "hi".to_string(), timestamp: 7 };
    let record = producer.send_json("events", None, &msg).unwrap();
    assert_eq!(record.topic, "events");
    assert_eq!(record.key, None);
    assert_eq!(
        String::from_utf8(record.payload).unwrap(),
        "{\"id\":\"1\",\"content\":\"hi\",\"timestamp\":7}"
    );
}

#[test]
fn send_json_serialization_failure_stages_nothing() {
    // A control character with no wire form cannot be serialized: the
    // error comes back before any record exists for the transport.
    let producer = KafkaProducer::new(&config()).unwrap();
    let msg = TemplateMessage {
        id: "ok".to_string(),
        content: "bad\u{1}byte".to_string(),
        timestamp: 0,
    };
    let staged = producer.send_json("events", None, &msg);
    assert!(matches!(staged, Err(KafkaError::Serialization { .. })));
}

#[test]
fn publish_to_unreachable_broker_errors_without_panic() {
    // Publish {"id":"1"} to "events" by the JSON path; the broker is
    // unreachable, so the transport answers with a failure, which becomes
    // an error rather than a panic.
    let producer = KafkaProducer::new(&config()).unwrap();
    let msg = TemplateMessage { id: "1".to_string(), content: "".to_string(), timestamp: 0 };
    let record = producer.send_json("events", None, &msg).unwrap();
    assert_eq!(record.topic, "events");

    let outcome = DeliveryOutcome::Failed("broker transport failure: connection refused".to_string());
    let result = producer.interpret_delivery(outcome);
    match result {
        Err(KafkaError::Delivery { reason }) => {
            assert!(reason.contains("connection refused"));
        },
        _ => panic!("expected a delivery error"),
    }
}
