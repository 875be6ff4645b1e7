//! Message types of the template topic and the handler that consumes them.

use vstd::prelude::*;

use crate::handler::{HandlerError, HandlerResult, MessageAction};
use crate::json::{encodable, parse_template, template_json};
use crate::producer::JsonEncode;

verus! {

/// Contract for handlers of text payloads: each claims one topic and
/// consumes the payloads that arrive on it.
pub trait MessageHandler: Send + Sync {
    /// The topic this handler is responsible for, at the specification
    /// level. Implementations that take part in verified routing override
    /// this with the name they claim; the default claims the empty name.
    open spec fn spec_topic(&self) -> Seq<char> {
        Seq::empty()
    }

    /// Handle the incoming message payload.
    fn handle(&self, payload: &str) -> (r: Result<(), HandlerError>);

    /// Get the topic this handler is responsible for; stable across calls
    /// and never empty.
    fn topic(&self) -> (t: &str)
        ensures
            t@ == self.spec_topic(),
            t@.len() != 0,
    ;
}

/// The message carried on the template topic.
#[derive(Debug, Clone)]
pub struct TemplateMessage {
    /// Message identity.
    pub id: String,
    /// Message body.
    pub content: String,
    /// Producer-side timestamp.
    pub timestamp: i64,
}

impl TemplateMessage {
    /// Whether both text fields can be carried by the wire format.
    pub open spec fn wire_encodable(self) -> bool {
        encodable(self.id@) && encodable(self.content@)
    }

    /// The canonical wire text of this message.
    pub open spec fn wire_json(self) -> Seq<char> {
        template_json(self.id@, self.content@, self.timestamp as int)
    }
}

impl JsonEncode for TemplateMessage {
    open spec fn spec_encodes(&self) -> bool {
        self.wire_encodable()
    }

    open spec fn spec_json(&self) -> Seq<char> {
        self.wire_json()
    }

    fn to_json(&self) -> (r: Result<String, crate::error::KafkaError>) {
        match crate::json::encode_template(self.id.as_str(), self.content.as_str(),
            self.timestamp) {
            Some(text) => Ok(text),
            None => Err(
                crate::error::KafkaError::Serialization {
                    reason: String::from_str("text field holds a character without a wire form"),
                },
            ),
        }
    }
}

/// The template message as published on the wire; its object carries the
/// inner message's fields directly.
#[derive(Debug, Clone)]
pub struct ExampleTemplateMessage {
    /// The carried message.
    pub inner: TemplateMessage,
}

impl JsonEncode for ExampleTemplateMessage {
    open spec fn spec_encodes(&self) -> bool {
        self.inner.wire_encodable()
    }

    open spec fn spec_json(&self) -> Seq<char> {
        self.inner.wire_json()
    }

    fn to_json(&self) -> (r: Result<String, crate::error::KafkaError>) {
        self.inner.to_json()
    }
}

/// Handler for template messages.
pub struct TemplateMessageHandler;

impl MessageHandler for TemplateMessageHandler {
    open spec fn spec_topic(&self) -> Seq<char> {
        "template.events"@
    }

    /// Accepts exactly the canonical wire encodings of template messages;
    /// everything else is a handler error.
    fn handle(&self, payload: &str) -> (r: Result<(), HandlerError>)
        ensures
            r is Ok <==> crate::json::is_template_wire(payload@),
    {
        match parse_template(payload) {
            Some(parsed) => {
                proof {
                    let (id_s, content_s, ts): (String, String, i64) = parsed;
                    assert(encodable(id_s@) && encodable(content_s@) && payload@ == template_json(
                        id_s@,
                        content_s@,
                        ts as int,
                    ));
                }
                Ok(())
            },
            None => Err(
                HandlerError { message: String::from_str("malformed template message") },
            ),
        }
    }

    fn topic(&self) -> (t: &str) {
        proof {
            reveal_strlit("template.events");
        }
        "template.events"
    }
}

/// The template handler as the byte-level dispatch loop invokes it: it
/// decodes the payload as text and hands it to [`TemplateMessageHandler`].
pub struct TemplateByteHandler {
    /// The text-level handler being adapted.
    pub inner: TemplateMessageHandler,
}

impl crate::handler::MessageHandler for TemplateByteHandler {
    open spec fn spec_topic(&self) -> Seq<char> {
        "template.events"@
    }

    /// The adapter's verdict relation: a payload that is not text can
    /// never become processable and is rejected for good; text that is not
    /// a well-formed template object is a handler error (not committed,
    /// not retried by the engine); a well-formed object is consumed.
    open spec fn handle_post(
        &self,
        key: Option<Seq<u8>>,
        payload: Seq<u8>,
        topic: Seq<char>,
        partition: i32,
        offset: i64,
        r: HandlerResult,
    ) -> bool {
        &&& ((r matches Ok(a) && a == MessageAction::Consume) <==> (vstd::utf8::valid_utf8(
            payload,
        ) && crate::json::is_template_wire(vstd::utf8::decode_utf8(payload))))
        &&& ((r matches Ok(a) && a == MessageAction::Reject) <==> !vstd::utf8::valid_utf8(
            payload,
        ))
        &&& (r is Err <==> (vstd::utf8::valid_utf8(payload) && !crate::json::is_template_wire(
            vstd::utf8::decode_utf8(payload),
        )))
    }

    fn topic(&self) -> (t: &str) {
        proof {
            reveal_strlit("template.events");
        }
        "template.events"
    }

    fn handle(
        &self,
        key: Option<&[u8]>,
        payload: &[u8],
        topic: &str,
        partition: i32,
        offset: i64,
    ) -> (r: HandlerResult) {
        match crate::text::bytes_as_str(payload) {
            Some(text) => match self.inner.handle(text) {
                Ok(()) => Ok(MessageAction::Consume),
                Err(e) => Err(e),
            },
            None => Ok(MessageAction::Reject),
        }
    }
}

} // verus!
