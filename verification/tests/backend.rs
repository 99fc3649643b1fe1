use messagelog::mqtt::{MAX_RETRY_INTERVAL, MIN_RETRY_INTERVAL};
use messagelog::{
    conclude, send, setup, Delivery, Dispatch, LogEntry, MessageLoggerBackendMqtt, MqttBackend,
    SerializeError, Timestamp,
};
use std::time::Duration;

fn conf() -> MessageLoggerBackendMqtt {
    MessageLoggerBackendMqtt {
        servers: vec![],
        log_topic: String::new(),
        qos: 0,
        client_id: String::new(),
        clean_session: false,
        keep_alive_interval: Duration::from_secs(0),
        username: String::new(),
        password: String::new(),
        ca_cert: String::new(),
        tls_cert: String::new(),
        tls_key: String::new(),
    }
}

#[test]
fn test_messagelog() {
    let conf = MessageLoggerBackendMqtt {
        log_topic: "messagelog/testcase".into(),
        servers: vec!["tcp://mosquitto:1883/".into()],
        ..conf()
    };
    let mqtt_backend = MqttBackend::new(&conf);
    assert_eq!(mqtt_backend.client.server_uris, vec!["tcp://mosquitto:1883/".to_string()]);

    let log_entry = LogEntry::default();
    let expected = "{\"CtxID\":\"00000000-0000-0000-0000-000000000000\",\
\"PublishAt\":\"1970-01-01T00:00:00Z\",\
\"CreatedAt\":\"1970-01-01T00:00:00Z\",\
\"LogSource\":\"LOCAL\",\
\"SourceID\":\"\",\
\"LogDestination\":\"LOCAL\",\
\"DestinationID\":\"\",\
\"FrameStatus\":{\"Result\":\"NOK\",\"ErrorDesc\":\"\"},\
\"TimeOnAir\":0.0,\
\"DevAddr\":\"00000000\",\
\"DevEUI\":\"0000000000000000\",\
\"KnownDevice\":false}";
    let msg = mqtt_backend.log_message(log_entry).unwrap();
    assert_eq!(msg.topic, "messagelog/testcase");
    assert_eq!(msg.qos, 0);
    assert_eq!(String::from_utf8(msg.payload).unwrap(), expected);
}

#[test]
fn client_id_is_the_seed_in_hexadecimal_when_none_is_configured() {
    for seed in [0u64, 1, 15, 16, 0xabc, 0xae90_b12b_75ee_7636, u64::MAX] {
        let backend = MqttBackend::with_seed(&conf(), seed);
        assert_eq!(backend.client.client_id, format!("{:x}", seed));
    }
}

#[test]
fn configured_client_id_is_kept() {
    let conf = MessageLoggerBackendMqtt { client_id: "ns-eu-1".into(), ..conf() };
    assert_eq!(MqttBackend::with_seed(&conf, 42).client.client_id, "ns-eu-1");
    assert_eq!(MqttBackend::new(&conf).client.client_id, "ns-eu-1");
}

#[test]
fn made_up_client_id_is_a_hexadecimal_number() {
    for _ in 0..32 {
        let id = MqttBackend::new(&conf()).client.client_id;
        assert!(!id.is_empty() && id.len() <= 16, "{id}");
        assert!(id.chars().all(|c| c.is_ascii_digit() || ('a'..='f').contains(&c)), "{id}");
        assert!(id == "0" || !id.starts_with('0'), "{id}");
    }
}

#[test]
fn made_up_client_ids_differ() {
    let ids: Vec<String> = (0..16).map(|_| MqttBackend::new(&conf()).client.client_id).collect();
    assert!(ids.iter().any(|id| *id != ids[0]), "{ids:?}");
}

#[test]
fn backend_takes_over_the_configuration() {
    let conf = MessageLoggerBackendMqtt {
        servers: vec!["ssl://a:8883".into(), "tcp://b:1883".into()],
        log_topic: "audit/log".into(),
        qos: 2,
        client_id: "id".into(),
        clean_session: true,
        keep_alive_interval: Duration::from_secs(45),
        username: "user".into(),
        password: "SECRET-REDACTED".into(),
        ..conf()
    };
    let backend = MqttBackend::new(&conf);
    assert_eq!(backend.topic, "audit/log");
    assert_eq!(backend.qos, 2);
    assert_eq!(backend.client.server_uris, conf.servers);
    assert_eq!(backend.client.min_retry_interval, 1);
    assert_eq!(backend.client.max_retry_interval, 30);
    assert_eq!(MIN_RETRY_INTERVAL, 1);
    assert_eq!(MAX_RETRY_INTERVAL, 30);
    assert!(backend.client.clean_session);
    assert_eq!(backend.client.keep_alive_interval, Duration::from_secs(45));
    assert_eq!(backend.client.user_name, "user");
    assert_eq!(backend.client.password, "SECRET-REDACTED");
    assert!(backend.client.ssl_options.is_none());
}

#[test]
fn tls_is_on_as_soon_as_one_path_is_configured() {
    let only_ca = MessageLoggerBackendMqtt { ca_cert: "/etc/ca.pem".into(), ..conf() };
    let ssl = MqttBackend::with_seed(&only_ca, 1).client.ssl_options.unwrap();
    assert_eq!(ssl.trust_store.as_deref(), Some("/etc/ca.pem"));
    assert_eq!(ssl.key_store, None);
    assert_eq!(ssl.private_key, None);

    let only_cert = MessageLoggerBackendMqtt { tls_cert: "/etc/cert.pem".into(), ..conf() };
    let ssl = MqttBackend::with_seed(&only_cert, 1).client.ssl_options.unwrap();
    assert_eq!(ssl.trust_store, None);
    assert_eq!(ssl.key_store.as_deref(), Some("/etc/cert.pem"));
    assert_eq!(ssl.private_key, None);

    let only_key = MessageLoggerBackendMqtt { tls_key: "/etc/key.pem".into(), ..conf() };
    let ssl = MqttBackend::with_seed(&only_key, 1).client.ssl_options.unwrap();
    assert_eq!(ssl.trust_store, None);
    assert_eq!(ssl.key_store, None);
    assert_eq!(ssl.private_key.as_deref(), Some("/etc/key.pem"));

    let all = MessageLoggerBackendMqtt {
        ca_cert: "ca".into(),
        tls_cert: "cert".into(),
        tls_key: "key".into(),
        ..conf()
    };
    let ssl = MqttBackend::with_seed(&all, 1).client.ssl_options.unwrap();
    assert_eq!(
        (ssl.trust_store.as_deref(), ssl.key_store.as_deref(), ssl.private_key.as_deref()),
        (Some("ca"), Some("cert"), Some("key"))
    );

    assert!(MqttBackend::with_seed(&conf(), 1).client.ssl_options.is_none());
}

#[test]
fn message_frames_the_payload() {
    let conf = MessageLoggerBackendMqtt { log_topic: "t".into(), qos: 1, ..conf() };
    let m = MqttBackend::with_seed(&conf, 0).message(vec![1, 2, 3]);
    assert_eq!(m.topic, "t");
    assert_eq!(m.qos, 1);
    assert_eq!(m.payload, vec![1, 2, 3]);
}

#[test]
fn without_a_broker_address_nothing_is_sent() {
    let backend = setup(&MessageLoggerBackendMqtt { log_topic: "t".into(), ..conf() });
    assert!(backend.is_none());
    let mut odd = LogEntry::default();
    odd.publish_at = Timestamp { secs: i64::MAX, nanos: 0 };
    for entry in [LogEntry::default(), odd] {
        let action = send(&backend, entry);
        assert!(matches!(action, Dispatch::NotConfigured));
        assert_eq!(conclude(&action, false), Delivery::NotConfigured);
        assert_eq!(conclude(&action, true), Delivery::NotConfigured);
    }
}

#[test]
fn with_a_broker_address_the_record_is_published_once() {
    let conf = MessageLoggerBackendMqtt {
        servers: vec!["tcp://localhost:1883".into()],
        log_topic: "audit".into(),
        qos: 1,
        ..conf()
    };
    let backend = setup(&conf);
    assert!(backend.is_some());
    let want = LogEntry::default().to_vec().unwrap();
    let action = send(&backend, LogEntry::default());
    match &action {
        Dispatch::Publish(m) => {
            assert_eq!(m.topic, "audit");
            assert_eq!(m.qos, 1);
            assert_eq!(m.payload, want);
        }
        other => panic!("{other:?}"),
    }
    assert_eq!(conclude(&action, true), Delivery::Sent);
}

#[test]
fn a_failure_of_the_transport_is_swallowed() {
    let conf = MessageLoggerBackendMqtt { servers: vec!["tcp://down:1883".into()], ..conf() };
    let backend = setup(&conf);
    let action = send(&backend, LogEntry::default());
    assert!(matches!(action, Dispatch::Publish(_)));
    assert_eq!(conclude(&action, false), Delivery::Failed);
    // the backend is still there for the next record
    assert!(matches!(send(&backend, LogEntry::default()), Dispatch::Publish(_)));
}

#[test]
fn a_record_without_wire_form_is_dropped() {
    let conf = MessageLoggerBackendMqtt { servers: vec!["tcp://localhost:1883".into()], ..conf() };
    let backend = setup(&conf);
    let mut entry = LogEntry::default();
    entry.created_at = Timestamp { secs: i64::MIN, nanos: 0 };
    let action = send(&backend, entry);
    assert!(matches!(action, Dispatch::Rejected(SerializeError::CreatedAt)));
    assert_eq!(conclude(&action, false), Delivery::Failed);
    assert_eq!(conclude(&action, true), Delivery::Failed);
    let mut entry = LogEntry::default();
    entry.publish_at = Timestamp { secs: 0, nanos: u32::MAX };
    assert_eq!(
        backend.as_ref().unwrap().log_message(entry).unwrap_err(),
        SerializeError::PublishAt
    );
}
