use kafka_engine::handler::{MessageAction, MessageHandler as ByteMessageHandler};
use kafka_engine::json::{encode_template, parse_template};
use kafka_engine::messages::{ExampleTemplateMessage, MessageHandler, TemplateByteHandler,
    TemplateMessage, TemplateMessageHandler};
use kafka_engine::producer::JsonEncode;

#[test]
fn test_template_message_handler() {
    let handler = TemplateMessageHandler;
    let payload = r#"{"id":"123","content":"test","timestamp":1234567890}"#;

    let result = handler.handle(payload);
    assert!(result.is_ok());
}

#[test]
fn handler_claims_template_topic() {
    let handler = TemplateMessageHandler;
    assert_eq!(handler.topic(), "template.events");
}

#[test]
fn handler_rejects_malformed_payload() {
    let handler = TemplateMessageHandler;
    assert!(handler.handle("not json at all").is_err());
    assert!(handler.handle(r#"{"id":"1","content":"x"}"#).is_err());
    assert!(handler.handle(r#"{"id":"1","content":"x","timestamp":01}"#).is_err());
    assert!(handler.handle(r#"{"id":"1","content":"x","timestamp":-0}"#).is_err());
    assert!(handler.handle(r#"{"id":"1","content":"x","timestamp":9223372036854775808}"#).is_err());
    assert!(handler.handle(r#"{"id":"1","content":"x","timestamp":1}extra"#).is_err());
}

#[test]
fn encode_produces_canonical_object() {
    let encoded = encode_template("123", "test", 1234567890).unwrap();
    assert_eq!(encoded, r#"{"id":"123","content":"test","timestamp":1234567890}"#);
}

#[test]
fn encode_escapes_special_characters() {
    let encoded = encode_template("a\"b", "line1\nline2\\end\t", -5).unwrap();
    assert_eq!(
        encoded,
        "{\"id\":\"a\\\"b\",\"content\":\"line1\\nline2\\\\end\\t\",\"timestamp\":-5}"
    );
}

#[test]
fn encode_rejects_bare_control_characters() {
    assert!(encode_template("a\u{1}b", "ok", 0).is_none());
    assert!(encode_template("ok", "a\u{1f}b", 0).is_none());
}

#[test]
fn parse_recovers_encoded_fields() {
    let encoded = encode_template("id-9", "中文 and \"quotes\"", i64::MIN).unwrap();
    let (id, content, ts) = parse_template(&encoded).unwrap();
    assert_eq!(id, "id-9");
    assert_eq!(content, "中文 and \"quotes\"");
    assert_eq!(ts, i64::MIN);
}

#[test]
fn parse_exact_values() {
    let (id, content, ts) =
        parse_template(r#"{"id":"123","content":"test","timestamp":1234567890}"#).unwrap();
    assert_eq!(id, "123");
    assert_eq!(content, "test");
    assert_eq!(ts, 1234567890);

    let (_, _, ts2) =
        parse_template(r#"{"id":"","content":"","timestamp":-9223372036854775808}"#).unwrap();
    assert_eq!(ts2, i64::MIN);
}

#[test]
fn parse_rejects_unescaped_quote_trickery() {
    assert!(parse_template(r#"{"id":"a"b","content":"x","timestamp":1}"#).is_none());
    assert!(parse_template(r#"{"id":"a\qb","content":"x","timestamp":1}"#).is_none());
}

#[test]
fn template_message_serializes_itself() {
    let msg = TemplateMessage {
        id: "123".to_string(),
        content: "test".to_string(),
        timestamp: 1234567890,
    };
    let text = msg.to_json().unwrap();
    assert_eq!(text, r#"{"id":"123","content":"test","timestamp":1234567890}"#);

    let wrapped = ExampleTemplateMessage { inner: msg };
    assert_eq!(wrapped.to_json().unwrap(), text);
}

#[test]
fn byte_handler_consumes_wellformed_objects() {
    let handler = TemplateByteHandler { inner: TemplateMessageHandler };
    assert_eq!(ByteMessageHandler::topic(&handler), "template.events");

    let verdict = handler
        .handle(
            None,
            br#"{"id":"123","content":"test","timestamp":1234567890}"#,
            "template.events",
            0,
            1,
        )
        .unwrap();
    assert_eq!(verdict, MessageAction::Consume);
}

#[test]
fn byte_handler_rejects_non_text_payloads() {
    let handler = TemplateByteHandler { inner: TemplateMessageHandler };
    let verdict = handler
        .handle(None, &[0xff, 0xfe, 0x00], "template.events", 0, 1)
        .unwrap();
    assert_eq!(verdict, MessageAction::Reject);
}

#[test]
fn byte_handler_fails_on_malformed_text() {
    let handler = TemplateByteHandler { inner: TemplateMessageHandler };
    let verdict = handler.handle(None, b"{\"id\":42}", "template.events", 0, 1);
    assert!(verdict.is_err());
}

#[test]
fn handler_accepts_what_messages_serialize_to() {
    let msg = TemplateMessage {
        id: "roundtrip".to_string(),
        content: "tab\there".to_string(),
        timestamp: -42,
    };
    let text = msg.to_json().unwrap();
    let handler = TemplateMessageHandler;
    assert!(handler.handle(&text).is_ok());
}
