use kafka_engine::handler::{HandlerResult, MessageAction, MessageHandler};

struct TestHandler {
    topic: String,
}

impl MessageHandler for TestHandler {
    fn topic(&self) -> &str {
        &self.topic
    }

    fn handle(
        &self,
        _key: Option<&[u8]>,
        payload: &[u8],
        _topic: &str,
        _partition: i32,
        _offset: i64,
    ) -> HandlerResult {
        // Simple test: consume if payload is not empty
        if payload.is_empty() {
            Ok(MessageAction::Skip)
        } else {
            Ok(MessageAction::Consume)
        }
    }
}

#[test]
fn test_message_handler_consume() {
    let handler = TestHandler { topic: "test-topic".to_string() };
    assert_eq!(handler.topic(), "test-topic");

    let result = handler
        .handle(None, b"test payload", "test-topic", 0, 1)
        .unwrap();
    assert_eq!(result, MessageAction::Consume);
}

#[test]
fn test_message_handler_skip() {
    let handler = TestHandler { topic: "test-topic".to_string() };

    let result = handler.handle(None, b"", "test-topic", 0, 1).unwrap();
    assert_eq!(result, MessageAction::Skip);
}

#[test]
fn test_transform_default() {
    let handler = TestHandler { topic: "test-topic".to_string() };

    let payload = b"test data";
    let result = handler.transform(payload).unwrap();
    assert_eq!(result, payload.to_vec());
}
