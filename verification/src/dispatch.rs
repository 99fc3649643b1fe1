//! The one entry point through which records leave: whether there is a
//! backend at all, what is handed to it, and what is made of its answer.

use crate::datatypes::LogEntry;
use crate::mqtt::{Message, MessageLoggerBackendMqtt, MqttBackend};
use crate::wire::{wire_form, SerializeError};
use vstd::prelude::*;

verus! {

/// What `send` asks of the transport for one record.
#[derive(Debug)]
pub enum Dispatch {
    /// There is no backend: the record is dropped.
    NotConfigured,
    /// The message is to be published, once.
    Publish(Message),
    /// The record has no wire form: it is dropped.
    Rejected(SerializeError),
}

/// What became of a record. It is told to the log and to nobody else.
#[derive(Clone, Copy, Debug, PartialEq, Eq, Structural)]
pub enum Delivery {
    /// No backend is configured.
    NotConfigured,
    /// The transport took the message.
    Sent,
    /// The record could not be written or the transport refused it.
    Failed,
}

/// `backend` is what start-up makes of `conf`: nothing where no broker
/// address is configured, else the backend that `conf` asks for.
pub open spec fn is_setup_of(backend: Option<MqttBackend>, conf: MessageLoggerBackendMqtt) -> bool {
    &&& conf.servers@.len() == 0 <==> backend is None
    &&& backend matches Some(b) ==> exists|seed: u64| #[trigger] b.follows(conf, seed)
}

/// `action` is what is to be done with `msg` in the state `backend`.
pub open spec fn is_dispatch_of(action: Dispatch, backend: Option<MqttBackend>, msg: LogEntry) -> bool {
    match backend {
        None => action is NotConfigured,
        Some(b) => match wire_form(msg) {
            Ok(bytes) => action matches Dispatch::Publish(m) && b.frames(m, bytes),
            Err(e) => action == Dispatch::Rejected(e),
        },
    }
}

/// `delivery` is what became of a record after `action`, where `published`
/// says whether the transport took the message, if there was one.
pub open spec fn is_conclusion_of(delivery: Delivery, action: Dispatch, published: bool) -> bool {
    match action {
        Dispatch::NotConfigured => delivery == Delivery::NotConfigured,
        Dispatch::Publish(_) => delivery == if published {
            Delivery::Sent
        } else {
            Delivery::Failed
        },
        Dispatch::Rejected(_) => delivery == Delivery::Failed,
    }
}

/// Decides at start-up whether records are delivered at all: without a
/// broker address there is no backend, and none will come later.
pub fn setup(conf: &MessageLoggerBackendMqtt) -> (backend: Option<MqttBackend>)
    ensures
        is_setup_of(backend, *conf),
{
    if conf.servers.len() == 0 {
        None
    } else {
        Some(MqttBackend::new(conf))
    }
}

/// What is to be done with `msg`: nothing where no backend is configured,
/// else one attempt to publish it.
pub fn send(backend: &Option<MqttBackend>, msg: LogEntry) -> (action: Dispatch)
    ensures
        is_dispatch_of(action, *backend, msg),
{
    match backend {
        None => Dispatch::NotConfigured,
        Some(b) => match b.log_message(msg) {
            Ok(m) => Dispatch::Publish(m),
            Err(e) => Dispatch::Rejected(e),
        },
    }
}

/// What became of the record. Whatever the transport answered, the caller
/// of `send` learns nothing of it.
pub fn conclude(action: &Dispatch, published: bool) -> (delivery: Delivery)
    ensures
        is_conclusion_of(delivery, *action, published),
{
    match action {
        Dispatch::NotConfigured => Delivery::NotConfigured,
        Dispatch::Publish(_) => if published {
            Delivery::Sent
        } else {
            Delivery::Failed
        },
        Dispatch::Rejected(_) => Delivery::Failed,
    }
}

/// Without a broker address no record ever reaches a transport: start-up
/// leaves no backend, and every send in that state asks for nothing.
pub proof fn lemma_unconfigured_sends_nothing(
    conf: MessageLoggerBackendMqtt,
    backend: Option<MqttBackend>,
    msg: LogEntry,
    action: Dispatch,
)
    requires
        conf.servers@.len() == 0,
        is_setup_of(backend, conf),
        is_dispatch_of(action, backend, msg),
    ensures
        action is NotConfigured,
        forall|published: bool, delivery: Delivery|
            is_conclusion_of(delivery, action, published) ==> delivery == Delivery::NotConfigured,
{
}

/// With a broker address every record that has a wire form is handed to the
/// transport exactly as it is written, on the configured channel.
pub proof fn lemma_configured_publishes(
    conf: MessageLoggerBackendMqtt,
    backend: Option<MqttBackend>,
    msg: LogEntry,
    action: Dispatch,
)
    requires
        conf.servers@.len() > 0,
        is_setup_of(backend, conf),
        is_dispatch_of(action, backend, msg),
        wire_form(msg) is Ok,
    ensures
        action matches Dispatch::Publish(m) && m.topic@ == conf.log_topic@ && m.qos == conf.qos
            && Ok::<Seq<u8>, SerializeError>(m.payload@) == wire_form(msg),
{
    let b = backend->Some_0;
    let seed = choose|seed: u64| #[trigger] b.follows(conf, seed);
    assert(b.follows(conf, seed));
}

/// A failure of the transport ends in the log and nowhere else: the record
/// counts as failed, whatever it held.
pub proof fn lemma_publish_failure_is_swallowed(action: Dispatch, delivery: Delivery)
    requires
        action is Publish,
        is_conclusion_of(delivery, action, false),
    ensures
        delivery == Delivery::Failed,
{
}

} // verus!
