use kafka_engine::config::KafkaConfig;
use kafka_engine::consumer::{DispatchOutcome, KafkaConsumer};
use kafka_engine::handler::{HandlerError, HandlerResult, MessageAction, MessageHandler};
use kafka_engine::message::Message;
use kafka_engine::messages::{TemplateByteHandler, TemplateMessageHandler};

struct TestHandler {
    topic: String,
    action: MessageAction,
    fail: bool,
}

impl TestHandler {
    fn consuming(topic: &str) -> TestHandler {
        TestHandler { topic: topic.to_string(), action: MessageAction::Consume, fail: false }
    }

    fn with_action(topic: &str, action: MessageAction) -> TestHandler {
        TestHandler { topic: topic.to_string(), action, fail: false }
    }

    fn failing(topic: &str) -> TestHandler {
        TestHandler { topic: topic.to_string(), action: MessageAction::Consume, fail: true }
    }
}

impl MessageHandler for TestHandler {
    fn topic(&self) -> &str {
        &self.topic
    }

    fn handle(
        &self,
        _key: Option<&[u8]>,
        _payload: &[u8],
        _topic: &str,
        _partition: i32,
        _offset: i64,
    ) -> HandlerResult {
        if self.fail {
            Err(HandlerError { message: "boom".to_string() })
        } else {
            Ok(self.action)
        }
    }
}

fn test_config() -> KafkaConfig {
    KafkaConfig {
        brokers: "localhost:9092".to_string(),
        consumer_group_id: "test-group".to_string(),
        topics: "test-topic".to_string(),
        enabled: true,
        auto_offset_reset: "latest".to_string(),
        session_timeout_ms: 6000,
    }
}

fn message(topic: &str, partition: i32, offset: i64, payload: Option<&[u8]>) -> Message {
    Message {
        topic: topic.to_string(),
        partition,
        offset,
        key: None,
        payload: payload.map(|p| p.to_vec()),
    }
}

#[test]
fn test_consumer_creation() {
    let config = test_config();
    let result = KafkaConsumer::<TestHandler>::new(&config);
    assert!(result.is_ok());
}

#[test]
fn consumer_test_register_handler() {
    let config = test_config();
    let mut consumer = KafkaConsumer::new(&config).unwrap();
    let handler = TestHandler::consuming("test-topic");

    consumer.register_handler(handler);
    assert_eq!(consumer.handlers.len(), 1);
    assert!(consumer.has_handler_for("test-topic"));
}

#[test]
fn rejected_configuration() {
    let mut config = test_config();
    config.auto_offset_reset = "sometimes".to_string();
    assert!(KafkaConsumer::<TestHandler>::new(&config).is_err());
    let mut config2 = test_config();
    config2.brokers = "".to_string();
    assert!(KafkaConsumer::<TestHandler>::new(&config2).is_err());
}

#[test]
fn register_handler_last_write_wins() {
    let config = test_config();
    let mut consumer = KafkaConsumer::new(&config).unwrap();
    consumer.register_handler(TestHandler::with_action("orders", MessageAction::Skip));
    consumer.register_handler(TestHandler::consuming("orders"));
    assert_eq!(consumer.handlers.len(), 1);

    let report = consumer.process_message(&message("orders", 0, 7, Some(b"x")));
    assert!(matches!(report.outcome, DispatchOutcome::Completed(MessageAction::Consume)));
}

#[test]
fn subscribe_lists_registered_topics() {
    let config = test_config();
    let mut consumer = KafkaConsumer::new(&config).unwrap();
    assert!(consumer.subscribe().is_empty());
    consumer.register_handler(TestHandler::consuming("orders"));
    consumer.register_handler(TestHandler::consuming("payments"));
    assert_eq!(consumer.subscribe(), vec!["orders".to_string(), "payments".to_string()]);
}

#[test]
fn consume_commits_exact_offset() {
    // Register handler H for "orders"; deliver offset 42 with a payload; H
    // consumes; exactly one commit at (0, 42) is directed.
    let config = test_config();
    let mut consumer = KafkaConsumer::new(&config).unwrap();
    consumer.register_handler(TestHandler::consuming("orders"));

    let report = consumer.process_message(&message("orders", 0, 42, Some(b"ok")));
    assert_eq!(report.handled_by, Some(0));
    assert!(matches!(report.outcome, DispatchOutcome::Completed(MessageAction::Consume)));
    assert_eq!(report.commit, Some((0, 42)));
}

#[test]
fn unknown_topic_is_dropped_without_commit() {
    // A message on a topic with no registered handler reaches no handler
    // and directs no commit.
    let config = test_config();
    let mut consumer = KafkaConsumer::new(&config).unwrap();
    consumer.register_handler(TestHandler::consuming("orders"));

    let report = consumer.process_message(&message("unknown", 0, 1, Some(b"x")));
    assert_eq!(report.handled_by, None);
    assert!(matches!(report.outcome, DispatchOutcome::NoHandler));
    assert_eq!(report.commit, None);
}

#[test]
fn skip_leaves_offset_uncommitted() {
    // H skips offset 10: no commit is directed, so the broker will
    // redeliver it on a later fetch.
    let config = test_config();
    let mut consumer = KafkaConsumer::new(&config).unwrap();
    consumer.register_handler(TestHandler::with_action("orders", MessageAction::Skip));

    let report = consumer.process_message(&message("orders", 0, 10, Some(b"later")));
    assert_eq!(report.handled_by, Some(0));
    assert!(matches!(report.outcome, DispatchOutcome::Completed(MessageAction::Skip)));
    assert_eq!(report.commit, None);
}

#[test]
fn reject_commits_like_consume() {
    let config = test_config();
    let mut consumer = KafkaConsumer::new(&config).unwrap();
    consumer.register_handler(TestHandler::with_action("orders", MessageAction::Reject));

    let report = consumer.process_message(&message("orders", 3, 9, Some(b"poison")));
    assert_eq!(report.commit, Some((3, 9)));
}

#[test]
fn handler_failure_commits_nothing() {
    let config = test_config();
    let mut consumer = KafkaConsumer::new(&config).unwrap();
    consumer.register_handler(TestHandler::failing("orders"));

    let report = consumer.process_message(&message("orders", 0, 5, Some(b"x")));
    assert_eq!(report.handled_by, Some(0));
    assert!(matches!(report.outcome, DispatchOutcome::Failed(_)));
    assert_eq!(report.commit, None);
}

#[test]
fn missing_payload_is_dropped_without_commit() {
    let config = test_config();
    let mut consumer = KafkaConsumer::new(&config).unwrap();
    consumer.register_handler(TestHandler::consuming("orders"));

    let report = consumer.process_message(&message("orders", 0, 2, None));
    assert_eq!(report.handled_by, None);
    assert!(matches!(report.outcome, DispatchOutcome::NoPayload));
    assert_eq!(report.commit, None);
}

#[test]
fn routing_is_exclusive() {
    // With two handlers bound, a message reaches exactly the handler of
    // its own topic and no other.
    let config = test_config();
    let mut consumer = KafkaConsumer::new(&config).unwrap();
    consumer.register_handler(TestHandler::with_action("orders", MessageAction::Skip));
    consumer.register_handler(TestHandler::consuming("payments"));

    let report = consumer.process_message(&message("payments", 1, 8, Some(b"x")));
    assert_eq!(report.handled_by, Some(1));
    assert!(matches!(report.outcome, DispatchOutcome::Completed(MessageAction::Consume)));

    let report2 = consumer.process_message(&message("orders", 1, 9, Some(b"x")));
    assert_eq!(report2.handled_by, Some(0));
    assert!(matches!(report2.outcome, DispatchOutcome::Completed(MessageAction::Skip)));
}

#[test]
fn batch_reports_one_commit_per_consumed_message() {
    let config = test_config();
    let mut consumer = KafkaConsumer::new(&config).unwrap();
    consumer.register_handler(TestHandler::consuming("orders"));
    let running = consumer.start();

    let batch = vec![
        message("orders", 0, 1, Some(b"a")),
        message("unknown", 0, 2, Some(b"b")),
        message("orders", 0, 3, None),
        message("orders", 0, 4, Some(b"d")),
    ];
    let reports = running.process_batch(&batch);
    assert_eq!(reports.len(), 4);
    assert_eq!(reports[0].commit, Some((0, 1)));
    assert_eq!(reports[1].commit, None);
    assert_eq!(reports[2].commit, None);
    assert_eq!(reports[3].commit, Some((0, 4)));
}

#[test]
fn verified_handler_consumes_and_commits() {
    // The fully specified template handler, routed by the dispatch core:
    // a canonical payload is consumed and exactly one commit is directed
    // at the message's own (partition, offset).
    let config = test_config();
    let mut consumer: KafkaConsumer<TemplateByteHandler> = KafkaConsumer::new(&config).unwrap();
    consumer.register_handler(TemplateByteHandler { inner: TemplateMessageHandler });

    let msg = Message {
        topic: "template.events".to_string(),
        partition: 0,
        offset: 42,
        key: None,
        payload: Some(br#"{"id":"123","content":"test","timestamp":1234567890}"#.to_vec()),
    };
    let report = consumer.process_message(&msg);
    assert_eq!(report.handled_by, Some(0));
    assert!(matches!(report.outcome, DispatchOutcome::Completed(MessageAction::Consume)));
    assert_eq!(report.commit, Some((0, 42)));

    let bad = Message {
        topic: "template.events".to_string(),
        partition: 0,
        offset: 43,
        key: None,
        payload: Some(b"not a template object".to_vec()),
    };
    let report2 = consumer.process_message(&bad);
    assert!(matches!(report2.outcome, DispatchOutcome::Failed(_)));
    assert_eq!(report2.commit, None);
}

#[test]
fn running_consumer_reports_topics() {
    let config = test_config();
    let mut consumer = KafkaConsumer::new(&config).unwrap();
    consumer.register_handler(TestHandler::consuming("orders"));
    let running = consumer.start();
    assert_eq!(running.topics(), vec!["orders".to_string()]);
}
