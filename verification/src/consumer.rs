//! The consumer core: per-topic handler registry, routing, and the commit
//! discipline of the dispatch loop.
//!
//! The surrounding application owns the broker connection and the blocking
//! receive loop; every decision the loop makes — which handler a message is
//! routed to, and whether its offset is committed — is made here and
//! returned as a [`DispatchReport`] the application merely executes.

use vstd::prelude::*;

use crate::config::KafkaConfig;
use crate::error::KafkaError;
use crate::handler::{HandlerError, HandlerResult, MessageAction, MessageHandler};
use crate::message::Message;
use crate::text::str_eq;

verus! {

/// What became of one message inside the dispatch loop.
#[derive(Debug)]
pub enum DispatchOutcome {
    /// No handler is bound to the message's topic: logged and dropped.
    NoHandler,
    /// The message carries no payload: logged and dropped.
    NoPayload,
    /// The routed handler ran and chose an action.
    Completed(MessageAction),
    /// The routed handler ran and failed.
    Failed(HandlerError),
}

/// An offset is committed if and only if the handler completed with
/// `Consume` or `Reject`; `Skip`, a handler failure, a missing handler and
/// a missing payload all leave the offset untouched.
pub open spec fn commit_required(outcome: DispatchOutcome) -> bool {
    match outcome {
        DispatchOutcome::Completed(a) => a == MessageAction::Consume || a
            == MessageAction::Reject,
        _ => false,
    }
}

/// The dispatch loop's verdict on one message: which handler (by registry
/// index) was invoked, what happened, and the single commit — if any — the
/// application must issue for the message's exact (partition, offset).
#[derive(Debug)]
pub struct DispatchReport {
    /// Index of the invoked handler in the registry, if one was invoked.
    pub handled_by: Option<usize>,
    /// What happened to the message.
    pub outcome: DispatchOutcome,
    /// The (partition, offset) to commit, if the outcome demands a commit.
    pub commit: Option<(i32, i64)>,
}

/// The consumer core: a registry binding each topic to at most one handler.
///
/// The broker connection itself lives with the application; this type owns
/// the routing table and the dispatch logic.
pub struct KafkaConsumer<H: MessageHandler> {
    /// Registered handlers; well-formed registries bind each topic at most
    /// once.
    pub handlers: Vec<H>,
}

impl<H: MessageHandler> KafkaConsumer<H> {
    /// Topics of the registered handlers, in registration order.
    pub open spec fn spec_topics(self) -> Seq<Seq<char>> {
        self.handlers@.map_values(|h: H| h.spec_topic())
    }

    /// A topic is bound to at most one handler.
    pub open spec fn wf(self) -> bool {
        forall|i: int, j: int|
            0 <= i < j < self.handlers@.len() ==> self.handlers@[i].spec_topic()
                != self.handlers@[j].spec_topic()
    }

    /// Whether some registered handler claims `topic`.
    pub open spec fn has_handler(self, topic: Seq<char>) -> bool {
        exists|i: int|
            0 <= i < self.handlers@.len() && self.handlers@[i].spec_topic() == topic
    }

    /// Which handler a report says was invoked, and what was handed to it:
    /// the report names a registry slot bound to exactly the message's
    /// topic, and the recorded result is one the slot's handler may return
    /// — per its own verdict relation — for exactly the message's key,
    /// payload, topic, partition and offset.
    pub open spec fn invoked_with(self, m: Message, r: DispatchReport, res: HandlerResult) -> bool {
        &&& r.handled_by is Some
        &&& 0 <= r.handled_by->0 < self.handlers@.len()
        &&& self.handlers@[r.handled_by->0 as int].spec_topic() == m.topic@
        &&& self.handlers@[r.handled_by->0 as int].handle_post(
            match m.key {
                Some(k) => Some(k@),
                None => None,
            },
            (m.payload->0)@,
            m.topic@,
            m.partition,
            m.offset,
            res,
        )
    }

    /// Correctness of a dispatch verdict for `m`: the commit discipline is
    /// obeyed, a missing handler or payload drops the message without a
    /// commit, and otherwise exactly the handler bound to `m.topic` ran on
    /// the message itself and the recorded outcome is one of its own
    /// possible verdicts.
    pub open spec fn report_ok(self, m: Message, r: DispatchReport) -> bool {
        &&& r.commit == (if commit_required(r.outcome) {
            Some((m.partition, m.offset))
        } else {
            None::<(i32, i64)>
        })
        &&& match r.outcome {
            DispatchOutcome::NoHandler => !self.has_handler(m.topic@) && r.handled_by is None,
            DispatchOutcome::NoPayload => self.has_handler(m.topic@) && m.payload is None
                && r.handled_by is None,
            DispatchOutcome::Completed(a) => {
                &&& self.has_handler(m.topic@)
                &&& m.payload is Some
                &&& self.invoked_with(m, r, Ok(a))
            },
            DispatchOutcome::Failed(e) => {
                &&& self.has_handler(m.topic@)
                &&& m.payload is Some
                &&& self.invoked_with(m, r, Err(e))
            },
        }
        &&& (!self.has_handler(m.topic@) ==> r.outcome is NoHandler)
        &&& (self.has_handler(m.topic@) && m.payload is None ==> r.outcome is NoPayload)
    }

    /// Create a consumer core from configuration.
    ///
    /// Succeeds exactly on well-formed configurations; establishing the
    /// broker session from the same configuration is the application's
    /// part.
    pub fn new(config: &KafkaConfig) -> (r: Result<KafkaConsumer<H>, KafkaError>)
        ensures
            r is Ok <==> config.is_valid(),
            r matches Ok(c) ==> c.wf() && c.handlers@.len() == 0,
            r matches Err(e) ==> e is InvalidConfig,
    {
        if config.brokers.as_str().is_empty() {
            return Err(
                KafkaError::InvalidConfig {
                    reason: String::from_str("no brokers configured"),
                },
            );
        }
        let reset = config.auto_offset_reset.as_str();
        if !(str_eq(reset, "earliest") || str_eq(reset, "latest") || str_eq(reset, "none")) {
            return Err(
                KafkaError::InvalidConfig {
                    reason: String::from_str("unrecognised offset-reset policy"),
                },
            );
        }
        Ok(KafkaConsumer { handlers: Vec::new() })
    }

    /// Find the registry index of the handler bound to `topic`.
    pub fn route(&self, topic: &str) -> (r: Option<usize>)
        ensures
            r matches Some(i) ==> i < self.handlers@.len() && self.handlers@[i as int].spec_topic()
                == topic@,
            r is None ==> !self.has_handler(topic@),
    {
        let n = self.handlers.len();
        let mut i: usize = 0;
        while i < n
            invariant
                i <= n,
                n == self.handlers@.len(),
                forall|j: int| 0 <= j < i ==> self.handlers@[j].spec_topic() != topic@,
            decreases n - i,
        {
            if str_eq(self.handlers[i].topic(), topic) {
                return Some(i);
            }
            i += 1;
        }
        None
    }

    /// Relation between the registry before and after registering
    /// `handler`: last write wins at the claimed topic's slot, every other
    /// binding is untouched.
    pub open spec fn register_post(pre: KafkaConsumer<H>, post: KafkaConsumer<H>, handler: H) -> bool {
        &&& post.wf()
        &&& post.has_handler(handler.spec_topic())
        &&& (pre.has_handler(handler.spec_topic()) ==> exists|i: int|
            0 <= i < pre.handlers@.len() && #[trigger] pre.handlers@[i].spec_topic()
                == handler.spec_topic() && post.handlers@ == pre.handlers@.update(i, handler))
        &&& (!pre.has_handler(handler.spec_topic()) ==> post.handlers@ == pre.handlers@.push(
            handler,
        ))
    }

    /// Register a handler under the topic it claims; a second registration
    /// for the same topic replaces the first (last write wins).
    pub fn register_handler(&mut self, handler: H)
        requires
            old(self).wf(),
        ensures
            Self::register_post(*old(self), *final(self), handler),
    {
        let found = self.route(handler.topic());
        match found {
            Some(i) => {
                let ghost old_seq = self.handlers@;
                self.handlers.remove(i);
                self.handlers.insert(i, handler);
                proof {
                    assert(self.handlers@ =~= old_seq.update(i as int, handler));
                    assert(self.handlers@[i as int] == handler);
                    assert(self.has_handler(handler.spec_topic()));
                    assert forall|p: int, q: int|
                        0 <= p < q < self.handlers@.len() implies self.handlers@[p].spec_topic()
                        != self.handlers@[q].spec_topic() by {
                        assert(old_seq[p].spec_topic() != old_seq[q].spec_topic());
                    }
                }
            },
            None => {
                self.handlers.push(handler);
                proof {
                    assert(self.handlers@[self.handlers@.len() - 1] == handler);
                    assert(self.has_handler(handler.spec_topic()));
                    assert forall|p: int, q: int|
                        0 <= p < q < self.handlers@.len() implies self.handlers@[p].spec_topic()
                        != self.handlers@[q].spec_topic() by {
                        if q < self.handlers@.len() - 1 {
                            assert(old(self).handlers@[p].spec_topic() != old(
                                self,
                            ).handlers@[q].spec_topic());
                        } else {
                            assert(!old(self).has_handler(handler.spec_topic()));
                        }
                    }
                }
            },
        }
    }

    /// The number of registered handlers.
    pub fn handler_count(&self) -> (n: usize)
        ensures
            n == self.handlers@.len(),
    {
        self.handlers.len()
    }

    /// Whether a handler is currently bound to `topic`.
    pub fn has_handler_for(&self, topic: &str) -> (r: bool)
        ensures
            r == self.has_handler(topic@),
    {
        let found = self.route(topic);
        match found {
            Some(i) => {
                proof {
                    assert(self.has_handler(topic@));
                }
                true
            },
            None => false,
        }
    }

    /// The exact set of topics to subscribe to: those with bound handlers,
    /// in registration order. An empty registry yields an empty
    /// subscription, which the caller treats as a warned no-op rather than
    /// an error.
    pub fn subscribe(&self) -> (topics: Vec<String>)
        ensures
            topics@.len() == self.handlers@.len(),
            forall|i: int| 0 <= i < topics@.len() ==> topics@[i]@ == self.spec_topics()[i],
    {
        let n = self.handlers.len();
        let mut topics: Vec<String> = Vec::new();
        let mut i: usize = 0;
        while i < n
            invariant
                i <= n,
                n == self.handlers@.len(),
                topics@.len() == i,
                forall|j: int| 0 <= j < i ==> topics@[j]@ == self.handlers@[j].spec_topic(),
            decreases n - i,
        {
            topics.push(self.handlers[i].topic().to_owned());
            i += 1;
        }
        topics
    }

    /// Dispatch one message: route it, invoke the bound handler on its
    /// payload, and decide the commit. The returned report is the complete
    /// instruction for the caller: issue exactly the commit it carries,
    /// and nothing else.
    pub fn process_message(&self, message: &Message) -> (r: DispatchReport)
        requires
            self.wf(),
        ensures
            self.report_ok(*message, r),
    {
        let routed = self.route(message.topic.as_str());
        match routed {
            None => DispatchReport { handled_by: None, outcome: DispatchOutcome::NoHandler, commit: None },
            Some(i) => {
                match &message.payload {
                    None => DispatchReport {
                        handled_by: None,
                        outcome: DispatchOutcome::NoPayload,
                        commit: None,
                    },
                    Some(payload) => {
                        let key: Option<&[u8]> = match &message.key {
                            Some(k) => Some(k.as_slice()),
                            None => None,
                        };
                        let verdict = self.handlers[i].handle(
                            key,
                            payload.as_slice(),
                            message.topic.as_str(),
                            message.partition,
                            message.offset,
                        );
                        proof {
                            assert(crate::handler::key_bytes(key) == match message.key {
                                Some(k) => Some::<Seq<u8>>(k@),
                                None => None::<Seq<u8>>,
                            });
                            assert(self.handlers@[i as int].handle_post(
                                match message.key {
                                    Some(k) => Some::<Seq<u8>>(k@),
                                    None => None::<Seq<u8>>,
                                },
                                (message.payload->0)@,
                                message.topic@,
                                message.partition,
                                message.offset,
                                verdict,
                            ));
                        }
                        match verdict {
                            Ok(action) => {
                                let commit: Option<(i32, i64)> = if action
                                    == MessageAction::Consume || action == MessageAction::Reject {
                                    Some((message.partition, message.offset))
                                } else {
                                    None
                                };
                                DispatchReport {
                                    handled_by: Some(i),
                                    outcome: DispatchOutcome::Completed(action),
                                    commit,
                                }
                            },
                            Err(e) => DispatchReport {
                                handled_by: Some(i),
                                outcome: DispatchOutcome::Failed(e),
                                commit: None,
                            },
                        }
                    },
                }
            },
        }
    }

    /// Dispatch a finite run of messages in order, one report per message.
    /// This is the body of the perpetual receive loop, verified over every
    /// finite trace the application can feed it.
    pub fn process_batch(&self, messages: &Vec<Message>) -> (reports: Vec<DispatchReport>)
        requires
            self.wf(),
        ensures
            reports@.len() == messages@.len(),
            forall|i: int|
                0 <= i < messages@.len() ==> self.report_ok(messages@[i], #[trigger] reports@[i]),
    {
        let n = messages.len();
        let mut reports: Vec<DispatchReport> = Vec::new();
        let mut i: usize = 0;
        while i < n
            invariant
                i <= n,
                n == messages@.len(),
                self.wf(),
                reports@.len() == i,
                forall|j: int|
                    0 <= j < i ==> self.report_ok(messages@[j], #[trigger] reports@[j]),
            decreases n - i,
        {
            let report = self.process_message(&messages[i]);
            reports.push(report);
            i += 1;
        }
        reports
    }

    /// Start the consumer: ownership moves into the returned running
    /// handle, so a consumer cannot be started twice. The application
    /// spawns its receive loop around the handle and drives it with
    /// received messages.
    pub fn start(self) -> (r: RunningConsumer<H>)
        ensures
            r.consumer == self,
    {
        RunningConsumer { consumer: self }
    }
}

/// A started consumer: the registry is frozen and dispatch is the only
/// remaining operation. Obtained by [`KafkaConsumer::start`], which
/// consumes the consumer.
pub struct RunningConsumer<H: MessageHandler> {
    /// The consumed consumer core.
    pub consumer: KafkaConsumer<H>,
}

impl<H: MessageHandler> RunningConsumer<H> {
    /// The topics the loop is subscribed to, in registration order.
    pub fn topics(&self) -> (topics: Vec<String>)
        ensures
            topics@.len() == self.consumer.handlers@.len(),
            forall|i: int|
                0 <= i < topics@.len() ==> topics@[i]@ == self.consumer.spec_topics()[i],
    {
        self.consumer.subscribe()
    }

    /// Dispatch one received message; see [`KafkaConsumer::process_message`].
    pub fn process_message(&self, message: &Message) -> (r: DispatchReport)
        requires
            self.consumer.wf(),
        ensures
            self.consumer.report_ok(*message, r),
    {
        self.consumer.process_message(message)
    }

    /// Dispatch a finite run of messages; see [`KafkaConsumer::process_batch`].
    pub fn process_batch(&self, messages: &Vec<Message>) -> (reports: Vec<DispatchReport>)
        requires
            self.consumer.wf(),
        ensures
            reports@.len() == messages@.len(),
            forall|i: int|
                0 <= i < messages@.len() ==> self.consumer.report_ok(
                    messages@[i],
                    #[trigger] reports@[i],
                ),
    {
        self.consumer.process_batch(messages)
    }
}

/// Law: a message is routed to the handler registered for its topic and to
/// no other — any registered handler whose topic matches the message's is
/// exactly the one the report names.
pub proof fn lemma_routed_to_registered_handler<H: MessageHandler>(
    c: KafkaConsumer<H>,
    m: Message,
    r: DispatchReport,
    j: int,
)
    requires
        c.wf(),
        c.report_ok(m, r),
        0 <= j < c.handlers@.len(),
        c.handlers@[j].spec_topic() == m.topic@,
        m.payload is Some,
    ensures
        r.handled_by == Some(j as usize),
{
    assert(c.has_handler(m.topic@));
    let i = r.handled_by->0 as int;
    if i != j {
        if i < j {
            assert(c.handlers@[i].spec_topic() != c.handlers@[j].spec_topic());
        } else {
            assert(c.handlers@[j].spec_topic() != c.handlers@[i].spec_topic());
        }
    }
}

/// Law: a message on a topic with no registered handler is delivered to no
/// handler and causes no commit.
pub proof fn lemma_unregistered_topic_is_dropped<H: MessageHandler>(
    c: KafkaConsumer<H>,
    m: Message,
    r: DispatchReport,
)
    requires
        c.report_ok(m, r),
        !c.has_handler(m.topic@),
    ensures
        r.handled_by is None,
        r.commit is None,
        r.outcome is NoHandler,
{
}

/// Law: a message delivered to a decisive handler is consumed and
/// committed — when the handler registered for the message's topic admits,
/// by its own verdict relation, only `Consume` for this message, dispatch
/// records that verdict and directs exactly one commit, at the message's
/// own (partition, offset).
pub proof fn lemma_decisive_consume_commits<H: MessageHandler>(
    c: KafkaConsumer<H>,
    m: Message,
    r: DispatchReport,
    j: int,
    key: Option<Seq<u8>>,
    payload: Seq<u8>,
)
    requires
        c.wf(),
        c.report_ok(m, r),
        0 <= j < c.handlers@.len(),
        c.handlers@[j].spec_topic() == m.topic@,
        key == (match m.key {
            Some(k) => Some::<Seq<u8>>(k@),
            None => None::<Seq<u8>>,
        }),
        m.payload matches Some(p) && p@ == payload,
        forall|res: HandlerResult|
            #[trigger] c.handlers@[j].handle_post(key, payload, m.topic@, m.partition, m.offset, res)
                ==> res == Ok::<MessageAction, HandlerError>(MessageAction::Consume),
    ensures
        r.handled_by == Some(j as usize),
        r.outcome matches DispatchOutcome::Completed(a) && a == MessageAction::Consume,
        r.commit == Some((m.partition, m.offset)),
{
    lemma_routed_to_registered_handler(c, m, r, j);
    match r.outcome {
        DispatchOutcome::Completed(a) => {
            assert(c.handlers@[j].handle_post(key, payload, m.topic@, m.partition, m.offset, Ok(a)))
                by {
                assert(c.invoked_with(m, r, Ok(a)));
                assert(r.handled_by->0 as int == j);
            }
            assert(Ok::<MessageAction, HandlerError>(a) == Ok::<MessageAction, HandlerError>(
                MessageAction::Consume,
            ));
        },
        DispatchOutcome::Failed(e) => {
            assert(c.handlers@[j].handle_post(key, payload, m.topic@, m.partition, m.offset, Err(e)))
                by {
                assert(c.invoked_with(m, r, Err(e)));
                assert(r.handled_by->0 as int == j);
            }
            assert(false);
        },
        _ => {
            assert(false);
        },
    }
}

/// Law: a handler verdict of `Consume` or `Reject` commits exactly the
/// message's own (partition, offset), once; `Skip`, a handler failure, a
/// missing handler and a missing payload commit nothing.
pub proof fn lemma_commit_discipline<H: MessageHandler>(
    c: KafkaConsumer<H>,
    m: Message,
    r: DispatchReport,
)
    requires
        c.report_ok(m, r),
    ensures
        commit_required(r.outcome) ==> r.commit == Some((m.partition, m.offset)),
        !commit_required(r.outcome) ==> r.commit is None,
        r.outcome matches DispatchOutcome::Completed(a) && a == MessageAction::Skip
            ==> r.commit is None,
        r.outcome matches DispatchOutcome::Failed(_) ==> r.commit is None,
{
}

} // verus!
