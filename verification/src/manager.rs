//! Lifecycle composition root for the consumer and producer cores.
//!
//! The manager respects the configuration's enabled switch: disabled, it
//! holds no consumer and no producer, and every operation degrades to a
//! safe no-op; enabled, it constructs both eagerly and fails construction
//! as a whole if either is rejected. Starting the consumer hands its
//! ownership out exactly once.

use vstd::prelude::*;

use crate::config::KafkaConfig;
use crate::consumer::{KafkaConsumer, RunningConsumer};
use crate::error::KafkaError;
use crate::handler::MessageHandler;
use crate::producer::KafkaProducer;

verus! {

/// Composition root owning the configuration and, while enabled and
/// unstarted, the consumer and producer cores.
pub struct KafkaManager<H: MessageHandler> {
    /// The configuration the manager was constructed from.
    pub config: KafkaConfig,
    /// The consumer core; absent when disabled or already started.
    pub consumer: Option<KafkaConsumer<H>>,
    /// The producer core; absent when disabled.
    pub producer: Option<KafkaProducer>,
}

impl<H: MessageHandler> KafkaManager<H> {
    /// A held consumer registry is always well formed.
    pub open spec fn wf(self) -> bool {
        self.consumer matches Some(c) ==> c.wf()
    }

    /// Create a manager from configuration.
    ///
    /// Disabled configurations yield an inert manager with no consumer and
    /// no producer; enabled ones construct both, failing the whole
    /// construction exactly when the configuration is rejected.
    pub fn new(config: KafkaConfig) -> (r: Result<KafkaManager<H>, KafkaError>)
        ensures
            r is Ok <==> (!config.enabled || config.is_valid()),
            r matches Ok(m) ==> m.wf() && m.config == config && (!config.enabled
                ==> m.consumer is None && m.producer is None) && (config.enabled ==> (
            m.consumer matches Some(c) && c.handlers@.len() == 0) && (m.producer matches Some(p)
                && p.timeout_ms == 5000)),
            r matches Err(e) ==> e is InvalidConfig,
    {
        if !config.enabled {
            return Ok(KafkaManager { config, consumer: None, producer: None });
        }
        let consumer = match KafkaConsumer::<H>::new(&config) {
            Ok(c) => c,
            Err(e) => {
                return Err(e);
            },
        };
        let producer = match KafkaProducer::new(&config) {
            Ok(p) => p,
            Err(e) => {
                return Err(e);
            },
        };
        Ok(KafkaManager { config, consumer: Some(consumer), producer: Some(producer) })
    }

    /// Register a handler with the held consumer; a warned no-op when the
    /// manager is disabled or the consumer has already been started.
    pub fn register_handler(&mut self, handler: H)
        requires
            old(self).wf(),
        ensures
            final(self).wf(),
            final(self).config == old(self).config,
            final(self).producer == old(self).producer,
            old(self).consumer is None ==> final(self).consumer is None,
            old(self).consumer matches Some(c) ==> final(self).consumer matches Some(c2)
                && KafkaConsumer::register_post(c, c2, handler),
    {
        match &mut self.consumer {
            Some(consumer) => {
                consumer.register_handler(handler);
            },
            None => {},
        }
    }

    /// Start the held consumer, transferring its ownership out of the
    /// manager: the first call on an enabled manager returns the running
    /// handle, every later call — and every call on a disabled manager —
    /// returns nothing.
    pub fn start_consumer(&mut self) -> (r: Option<RunningConsumer<H>>)
        requires
            old(self).wf(),
        ensures
            final(self).wf(),
            final(self).config == old(self).config,
            final(self).producer == old(self).producer,
            final(self).consumer is None,
            old(self).consumer is None ==> r is None,
            old(self).consumer matches Some(c) ==> r matches Some(rc) && rc.consumer == c,
    {
        let taken = self.consumer.take();
        match taken {
            Some(consumer) => Some(consumer.start()),
            None => None,
        }
    }

    /// Borrow the producer core; absent when the manager is disabled.
    pub fn producer(&self) -> (r: Option<&KafkaProducer>)
        ensures
            r is Some <==> self.producer is Some,
            r matches Some(p) ==> *p == self.producer->0,
    {
        self.producer.as_ref()
    }

    /// Whether the broker integration is enabled.
    pub fn is_enabled(&self) -> (r: bool)
        ensures
            r == self.config.enabled,
    {
        self.config.enabled
    }
}

} // verus!
