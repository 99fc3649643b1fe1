//! The delivery backend: what it takes to reach the broker, and the message
//! that carries one record.

use crate::datatypes::LogEntry;
use crate::encoding::{append_hex_min, hex_min};
use crate::wire::{wire_form, SerializeError};
use core::time::Duration;
use vstd::prelude::*;

verus! {

/// Seconds before the first attempt to reconnect after the connection is lost.
pub const MIN_RETRY_INTERVAL: u64 = 1;

/// Longest pause in seconds between two attempts to reconnect.
pub const MAX_RETRY_INTERVAL: u64 = 30;

/// The options of the message logger that the process was started with.
#[derive(Debug)]
pub struct MessageLoggerBackendMqtt {
    pub servers: Vec<String>,
    pub log_topic: String,
    pub qos: usize,
    pub client_id: String,
    pub clean_session: bool,
    pub keep_alive_interval: Duration,
    pub username: String,
    pub password: String,
    pub ca_cert: String,
    pub tls_cert: String,
    pub tls_key: String,
}

/// The files that a TLS connection is set up with. A path that was not
/// configured is absent.
#[derive(Clone, Debug)]
pub struct SslOptions {
    pub trust_store: Option<String>,
    pub key_store: Option<String>,
    pub private_key: Option<String>,
}

/// Everything the transport needs to create its client and connect it.
#[derive(Debug)]
pub struct ConnectOptions {
    pub client_id: String,
    pub server_uris: Vec<String>,
    pub min_retry_interval: u64,
    pub max_retry_interval: u64,
    pub clean_session: bool,
    pub keep_alive_interval: Duration,
    pub user_name: String,
    pub password: String,
    pub ssl_options: Option<SslOptions>,
}

/// The one configured publish endpoint.
#[derive(Debug)]
pub struct MqttBackend {
    pub client: ConnectOptions,
    pub topic: String,
    pub qos: usize,
}

/// One record on its way to the broker.
#[derive(Clone, Debug)]
pub struct Message {
    pub topic: String,
    pub payload: Vec<u8>,
    pub qos: usize,
}

/// The text of an optional string.
pub open spec fn text_of(s: Option<String>) -> Option<Seq<char>> {
    match s {
        Some(t) => Some(t@),
        None => None,
    }
}

/// A configured path, or nothing where the option was left empty.
pub open spec fn configured_path(path: Seq<char>) -> Option<Seq<char>> {
    if path.len() > 0 {
        Some(path)
    } else {
        None
    }
}

/// TLS is on as soon as one of the three paths is configured.
pub open spec fn tls_enabled(conf: MessageLoggerBackendMqtt) -> bool {
    conf.ca_cert@.len() > 0 || conf.tls_cert@.len() > 0 || conf.tls_key@.len() > 0
}

/// The client identifier: the configured one, or the hexadecimal digits of
/// `seed` where none was configured.
pub open spec fn client_id_text(configured: Seq<char>, seed: u64) -> Seq<char> {
    if configured.len() > 0 {
        configured
    } else {
        hex_min(seed as nat)
    }
}

impl SslOptions {
    /// The options hold exactly the configured paths.
    pub open spec fn follows(&self, conf: MessageLoggerBackendMqtt) -> bool {
        &&& text_of(self.trust_store) == configured_path(conf.ca_cert@)
        &&& text_of(self.key_store) == configured_path(conf.tls_cert@)
        &&& text_of(self.private_key) == configured_path(conf.tls_key@)
    }
}

impl ConnectOptions {
    /// The options are those that `conf` asks for, with `seed` standing in
    /// for a client identifier that was not configured.
    pub open spec fn follows(&self, conf: MessageLoggerBackendMqtt, seed: u64) -> bool {
        &&& self.client_id@ == client_id_text(conf.client_id@, seed)
        &&& self.server_uris@ == conf.servers@
        &&& self.min_retry_interval == MIN_RETRY_INTERVAL
        &&& self.max_retry_interval == MAX_RETRY_INTERVAL
        &&& self.clean_session == conf.clean_session
        &&& self.keep_alive_interval == conf.keep_alive_interval
        &&& self.user_name@ == conf.username@
        &&& self.password@ == conf.password@
        &&& tls_enabled(conf) <==> self.ssl_options is Some
        &&& self.ssl_options matches Some(ssl) ==> ssl.follows(conf)
    }
}

/// Draws a 64-bit number from the thread-local generator of `rand`
/// (`rand::thread_rng()`, then `Rng::gen`). Nothing is claimed of the number:
/// two draws need not agree. The generator panics where the operating system
/// cannot seed it.
#[verifier::external_body]
fn random_u64() -> (seed: u64) {
    rand::Rng::gen(&mut rand::thread_rng())
}

fn path_option(path: &String) -> (o: Option<String>)
    ensures
        text_of(o) == configured_path(path@),
{
    if path.as_str().is_empty() {
        None
    } else {
        Some(path.clone())
    }
}

fn clone_texts(texts: &Vec<String>) -> (copy: Vec<String>)
    ensures
        copy@ == texts@,
{
    let mut copy: Vec<String> = Vec::new();
    let mut i: usize = 0;
    while i < texts.len()
        invariant
            i <= texts.len(),
            copy@ == texts@.take(i as int),
        decreases texts.len() - i,
    {
        copy.push(texts[i].clone());
        assert(copy@ =~= texts@.take(i + 1));
        i += 1;
    }
    assert(texts@.take(texts.len() as int) =~= texts@);
    copy
}

impl MqttBackend {
    /// The backend is the one that `conf` asks for, with `seed` standing in
    /// for a client identifier that was not configured.
    pub open spec fn follows(&self, conf: MessageLoggerBackendMqtt, seed: u64) -> bool {
        &&& self.topic@ == conf.log_topic@
        &&& self.qos == conf.qos
        &&& self.client.follows(conf, seed)
    }

    /// The backend for `conf`. Where `conf` names no client identifier, one
    /// is made up from a random number; which one, nobody can say beforehand.
    pub fn new(conf: &MessageLoggerBackendMqtt) -> (backend: MqttBackend)
        ensures
            exists|seed: u64| #[trigger] backend.follows(*conf, seed),
            conf.client_id@.len() > 0 ==> backend.client.client_id@ == conf.client_id@,
    {
        let seed = if conf.client_id.as_str().is_empty() {
            random_u64()
        } else {
            0
        };
        let backend = MqttBackend::with_seed(conf, seed);
        assert(backend.follows(*conf, seed));
        backend
    }

    /// The backend for `conf`, with the hexadecimal digits of `seed` as
    /// client identifier where `conf` names none.
    pub fn with_seed(conf: &MessageLoggerBackendMqtt, seed: u64) -> (backend: MqttBackend)
        ensures
            backend.follows(*conf, seed),
    {
        let topic = conf.log_topic.clone();
        let client_id = if conf.client_id.as_str().is_empty() {
            let mut digits = String::new();
            append_hex_min(&mut digits, seed);
            assert(digits@ =~= hex_min(seed as nat));
            digits
        } else {
            conf.client_id.clone()
        };
        let tls = !conf.ca_cert.as_str().is_empty() || !conf.tls_cert.as_str().is_empty()
            || !conf.tls_key.as_str().is_empty();
        let ssl_options = if tls {
            Some(
                SslOptions {
                    trust_store: path_option(&conf.ca_cert),
                    key_store: path_option(&conf.tls_cert),
                    private_key: path_option(&conf.tls_key),
                },
            )
        } else {
            None
        };
        let client = ConnectOptions {
            client_id,
            server_uris: clone_texts(&conf.servers),
            min_retry_interval: MIN_RETRY_INTERVAL,
            max_retry_interval: MAX_RETRY_INTERVAL,
            clean_session: conf.clean_session,
            keep_alive_interval: conf.keep_alive_interval,
            user_name: conf.username.clone(),
            password: conf.password.clone(),
            ssl_options,
        };
        MqttBackend { client, topic, qos: conf.qos }
    }

    /// The message that carries `payload` to this backend's channel at its
    /// delivery-quality level.
    pub open spec fn frames(&self, m: Message, payload: Seq<u8>) -> bool {
        &&& m.topic@ == self.topic@
        &&& m.payload@ == payload
        &&& m.qos == self.qos
    }

    /// Frames `payload` for this backend.
    pub fn message(&self, payload: Vec<u8>) -> (m: Message)
        ensures
            self.frames(m, payload@),
    {
        Message { topic: self.topic.clone(), payload, qos: self.qos }
    }

    /// The message that publishes `log_entry`: its wire form, framed for this
    /// backend. The record is taken as it is. There is no message where the
    /// record has no wire form.
    pub fn log_message(&self, log_entry: LogEntry) -> (r: Result<Message, SerializeError>)
        ensures
            match r {
                Ok(m) => wire_form(log_entry) matches Ok(bytes) && self.frames(m, bytes),
                Err(e) => wire_form(log_entry) == Err::<Seq<u8>, SerializeError>(e),
            },
    {
        match log_entry.to_vec() {
            Ok(payload) => Ok(self.message(payload)),
            Err(e) => Err(e),
        }
    }
}

} // verus!
