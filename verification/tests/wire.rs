use messagelog::datatypes::assign;
use messagelog::encoding::{
    append_hex_min, hex_string, push_decimal, push_decimal_signed, push_escaped, push_ratio,
    quoted_text, write_array, write_object, Member,
};
use messagelog::{
    Airtime, Document, Endpoint, FrameStatus, FrameStatusResult, LogEntry, PhyPayload,
    RoamingMetaData, RxPacket, SerializeError, Timestamp, TxPacket,
};

fn text(bytes: Vec<u8>) -> String {
    String::from_utf8(bytes).unwrap()
}

fn document(s: &str) -> Document {
    Document { text: s.as_bytes().to_vec() }
}

fn ratio(numerator: u128, denominator: u64) -> String {
    let mut out = Vec::new();
    push_ratio(&mut out, numerator, denominator);
    text(out)
}

fn bare() -> LogEntry {
    LogEntry::default()
}

const OPTIONAL: [&str; 11] = [
    "RXPacket", "TXPacket", "TXAck", "JoinReq", "JoinAns", "PRStartReq", "PRStartAns",
    "HomeNSReq", "HomeNSAns", "XmitDataReq", "XmitDataAns",
];

const REQUIRED: [&str; 12] = [
    "CtxID", "PublishAt", "CreatedAt", "LogSource", "SourceID", "LogDestination",
    "DestinationID", "FrameStatus", "TimeOnAir", "DevAddr", "DevEUI", "KnownDevice",
];

#[test]
fn strings_are_quoted_as_serde_json_quotes_them() {
    for code in 0u32..=0x2ff {
        let s = char::from_u32(code).unwrap().to_string();
        assert_eq!(text(quoted_text(&s)), serde_json::to_string(&s).unwrap(), "U+{code:04x}");
    }
    for s in ["", "plain", "a\"b", "back\\slash", "line\nbreak\r\n\ttab", "\u{8}\u{c}\u{1f}\u{7f}",
        "gr\u{fc}\u{df}e \u{2603} \u{1f600}", "{\"RXPacket\":null}"]
    {
        assert_eq!(text(quoted_text(s)), serde_json::to_string(s).unwrap());
    }
}

#[test]
fn escaping_exact_values() {
    let mut out = Vec::new();
    push_escaped(&mut out, b"a\"\\\x08\x09\x0a\x0c\x0d\x00\x1f z");
    assert_eq!(text(out), "a\\\"\\\\\\b\\t\\n\\f\\r\\u0000\\u001f z");
}

#[test]
fn decimal_numbers() {
    for v in [0u128, 9, 10, 99, 100, 12345678901234567890, u128::MAX] {
        let mut out = Vec::new();
        push_decimal(&mut out, v);
        assert_eq!(text(out), v.to_string());
    }
    for v in [0i64, 1, -1, 5, -5, 42, -1000, i64::MAX, i64::MIN] {
        let mut out = Vec::new();
        push_decimal_signed(&mut out, v);
        assert_eq!(text(out), v.to_string());
        assert_eq!(text_of_dr(v), serde_json::to_string(&v).unwrap());
    }
}

fn text_of_dr(v: i64) -> String {
    let mut out = Vec::new();
    push_decimal_signed(&mut out, v);
    text(out)
}

#[test]
fn ratios_as_decimal_numbers() {
    assert_eq!(ratio(0, 1), "0.0");
    assert_eq!(ratio(0, 7), "0.0");
    assert_eq!(ratio(10, 1), "10.0");
    assert_eq!(ratio(1, 2), "0.5");
    assert_eq!(ratio(1, 8), "0.125");
    assert_eq!(ratio(1, 3), "0.333333333333333333");
    assert_eq!(ratio(2, 3), "0.666666666666666666");
    assert_eq!(ratio(71 * 4096, 250_000), "1.163264");
    assert_eq!(ratio(14827519999999998, 10_000_000_000_000_000), "1.4827519999999998");
    assert_eq!(ratio(1, 1_000_000_000_000_000_000), "0.000000000000000001");
    assert_eq!(ratio(1, 10_000_000_000_000_000_000), "0.0");
    assert_eq!(ratio(u128::MAX, 1), format!("{}.0", u128::MAX));
    assert_eq!(ratio(u64::MAX as u128 - 1, u64::MAX), "0.999999999999999999");
    assert_eq!(ratio(1001, 1000), "1.001");
}

#[test]
fn ratios_read_back_as_the_same_seconds() {
    for (n, d) in [(71u128 * 4096, 250_000u64), (41 * 64, 1_000_000), (535 * 2048, 500_000), (1, 3)] {
        let read: f64 = ratio(n, d).parse().unwrap();
        assert!((read - n as f64 / d as f64).abs() < 1e-12);
    }
}

#[test]
fn hexadecimal() {
    assert_eq!(hex_string(&[]), "");
    assert_eq!(hex_string(&[0x00, 0x0f, 0xf0, 0xff, 0x1a]), "000ff0ff1a");
    let eui = [0x00, 0x80, 0xe1, 0x15, 0x00, 0x44, 0xbb, 0x7a];
    assert_eq!(hex_string(&eui), lrwn::EUI64::from_be_bytes(eui).to_string());
    assert_eq!(
        format!("\"{}\"", hex_string(&eui)),
        serde_json::to_string(&lrwn::EUI64::from_be_bytes(eui)).unwrap()
    );
    let addr = [0xe0, 0x04, 0x07, 0x50];
    assert_eq!(
        format!("\"{}\"", hex_string(&addr)),
        serde_json::to_string(&lrwn::DevAddr::from_be_bytes(addr)).unwrap()
    );
    for v in [0u64, 1, 9, 10, 15, 16, 255, 256, 0xdead_beef, u64::MAX, 1 << 63, 0x0123_4567_89ab_cdef] {
        let mut s = String::from("id-");
        append_hex_min(&mut s, v);
        assert_eq!(s, format!("id-{:x}", v));
    }
}

#[test]
fn objects_and_arrays() {
    assert_eq!(text(write_array(&vec![])), "[]");
    assert_eq!(text(write_array(&vec![b"1".to_vec()])), "[1]");
    assert_eq!(text(write_array(&vec![b"1".to_vec(), b"{}".to_vec(), b"\"x\"".to_vec()])), "[1,{},\"x\"]");
    assert_eq!(text(write_object(&vec![])), "{}");
    let members = vec![
        Member { key: "a".to_string(), value: b"1".to_vec() },
        Member { key: "b\"c".to_string(), value: b"[true]".to_vec() },
    ];
    assert_eq!(text(write_object(&members)), "{\"a\":1,\"b\\\"c\":[true]}");
}

#[test]
fn times_are_written_as_chrono_writes_them() {
    let cases: [(i64, u32); 12] = [
        (0, 0),
        (1_683_107_921, 210_279_350),
        (1_683_107_921, 204_119_632),
        (1_683_107_921, 500_000_000),
        (1_683_107_921, 123_000),
        (1_683_107_921, 1),
        (-1, 999_999_999),
        (-62_135_596_800, 0),
        (253_402_300_799, 0),
        (253_402_300_800, 0),
        (-62_167_219_201, 0),
        (951_782_400, 0),
    ];
    for (secs, nanos) in cases {
        let want = chrono::DateTime::from_timestamp(secs, nanos).unwrap();
        let got = Timestamp { secs, nanos }.to_rfc3339().unwrap();
        assert_eq!(format!("\"{got}\""), serde_json::to_string(&want).unwrap(), "{secs} {nanos}");
    }
    assert_eq!(Timestamp { secs: 0, nanos: 0 }.to_rfc3339().unwrap(), "1970-01-01T00:00:00Z");
    assert_eq!(
        Timestamp { secs: 1_683_107_921, nanos: 210_279_350 }.to_rfc3339().unwrap(),
        "2023-05-03T09:58:41.210279350Z"
    );
}

#[test]
fn instants_without_a_date_are_not_written() {
    assert_eq!(Timestamp { secs: i64::MAX, nanos: 0 }.to_rfc3339(), None);
    assert_eq!(Timestamp { secs: i64::MIN, nanos: 0 }.to_rfc3339(), None);
    assert_eq!(Timestamp { secs: 0, nanos: 2_000_000_000 }.to_rfc3339(), None);

    let mut entry = bare();
    entry.publish_at = Timestamp { secs: i64::MAX, nanos: 0 };
    entry.created_at = Timestamp { secs: i64::MAX, nanos: 0 };
    assert_eq!(entry.to_vec(), Err(SerializeError::PublishAt));
    entry.publish_at = Timestamp { secs: 0, nanos: 0 };
    assert_eq!(entry.to_vec(), Err(SerializeError::CreatedAt));
    entry.created_at = Timestamp { secs: 1, nanos: 0 };
    assert!(entry.to_vec().is_ok());
}

#[test]
fn render_takes_the_times_as_given() {
    let entry = bare();
    let out = text(entry.render("then", "no\"w"));
    assert!(out.contains("\"PublishAt\":\"then\",\"CreatedAt\":\"no\\\"w\","), "{out}");
    assert_eq!(
        text(entry.to_vec().unwrap()),
        text(entry.render("1970-01-01T00:00:00Z", "1970-01-01T00:00:00Z"))
    );
}

#[test]
fn bare_record_has_the_required_members_only() {
    let out = text(bare().to_vec().unwrap());
    assert_eq!(
        out,
        "{\"CtxID\":\"00000000-0000-0000-0000-000000000000\",\
\"PublishAt\":\"1970-01-01T00:00:00Z\",\
\"CreatedAt\":\"1970-01-01T00:00:00Z\",\
\"LogSource\":\"LOCAL\",\
\"SourceID\":\"\",\
\"LogDestination\":\"LOCAL\",\
\"DestinationID\":\"\",\
\"FrameStatus\":{\"Result\":\"NOK\",\"ErrorDesc\":\"\"},\
\"TimeOnAir\":0.0,\
\"DevAddr\":\"00000000\",\
\"DevEUI\":\"0000000000000000\",\
\"KnownDevice\":false}"
    );
    assert!(!out.contains("null"));
    let value: serde_json::Value = serde_json::from_str(&out).unwrap();
    let object = value.as_object().unwrap();
    assert_eq!(object.len(), REQUIRED.len());
    for key in REQUIRED {
        assert!(object.contains_key(key), "{key}");
    }
    for key in OPTIONAL {
        assert!(!object.contains_key(key), "{key}");
        assert!(!out.contains(&format!("\"{key}\"")), "{key}");
    }
}

#[test]
fn bare_record_with_hostile_texts_still_has_twelve_members() {
    let mut entry = bare();
    entry.source_id = "\",\"RXPacket\":{\"DR\":1},\"x\":\"".to_string();
    entry.destination_id = "\\".to_string();
    entry.frame_status.error_desc = "\"JoinReq\":null}".to_string();
    let out = entry.to_vec().unwrap();
    let value: serde_json::Value = serde_json::from_slice(&out).unwrap();
    let object = value.as_object().unwrap();
    assert_eq!(object.len(), REQUIRED.len());
    assert_eq!(object["SourceID"], entry.source_id.as_str());
    assert_eq!(object["DestinationID"], "\\");
    assert_eq!(object["FrameStatus"]["ErrorDesc"], entry.frame_status.error_desc.as_str());
    for key in OPTIONAL {
        assert!(!object.contains_key(key), "{key}");
    }
}

fn packet(n: u128) -> TxPacket {
    TxPacket {
        phy_payload: PhyPayload { encoded: None, decoded: document("{\"n\":1}") },
        downlink_tx_info: None,
        time_on_air: Airtime::new(n, 4).unwrap(),
    }
}

#[test]
fn each_optional_member_is_written_when_present() {
    let setters: [(&str, fn(&mut LogEntry)); 11] = [
        ("RXPacket", |e| {
            e.rx_packet = Some(RxPacket {
                dr: 0,
                tx_info: None,
                rx_info_set: vec![],
                gateway_is_private: vec![],
                gateway_service_profile: vec![],
                roaming_meta_data: None,
            })
        }),
        ("TXPacket", |e| e.tx_packet = vec![packet(1)]),
        ("TXAck", |e| e.tx_ack = Some(packet(2))),
        ("JoinReq", |e| e.join_req = Some(document("{\"k\":\"JoinReq\"}"))),
        ("JoinAns", |e| e.join_ans = Some(document("{\"k\":\"JoinAns\"}"))),
        ("PRStartReq", |e| e.pr_start_req = Some(document("{\"k\":\"PRStartReq\"}"))),
        ("PRStartAns", |e| e.pr_start_ans = Some(document("{\"k\":\"PRStartAns\"}"))),
        ("HomeNSReq", |e| e.home_ns_req = Some(document("{\"k\":\"HomeNSReq\"}"))),
        ("HomeNSAns", |e| e.home_ns_ans = Some(document("{\"k\":\"HomeNSAns\"}"))),
        ("XmitDataReq", |e| e.xmit_data_req = Some(document("{\"k\":\"XmitDataReq\"}"))),
        ("XmitDataAns", |e| e.xmit_data_ans = Some(document("{\"k\":\"XmitDataAns\"}"))),
    ];
    for (key, set) in setters {
        let mut entry = bare();
        set(&mut entry);
        let value: serde_json::Value = serde_json::from_slice(&entry.to_vec().unwrap()).unwrap();
        let object = value.as_object().unwrap();
        assert_eq!(object.len(), 13, "{key}");
        for other in OPTIONAL {
            assert_eq!(object.contains_key(other), other == key, "{key} {other}");
        }
    }
}

#[test]
fn all_optional_members_in_order() {
    let mut entry = bare();
    entry.rx_packet = Some(RxPacket {
        dr: 5,
        tx_info: None,
        rx_info_set: vec![],
        gateway_is_private: vec![],
        gateway_service_profile: vec![],
        roaming_meta_data: None,
    });
    entry.tx_packet = vec![packet(1), packet(6)];
    entry.tx_ack = Some(TxPacket {
        phy_payload: PhyPayload { encoded: None, decoded: document("\"ack\"") },
        downlink_tx_info: Some(document("{\"power\":14}")),
        time_on_air: Airtime::zero(),
    });
    entry.join_req = Some(document("1"));
    entry.join_ans = Some(document("2"));
    entry.pr_start_req = Some(document("3"));
    entry.pr_start_ans = Some(document("4"));
    entry.home_ns_req = Some(document("5"));
    entry.home_ns_ans = Some(document("6"));
    entry.xmit_data_req = Some(document("7"));
    entry.xmit_data_ans = Some(document("8"));
    let out = text(entry.to_vec().unwrap());
    let tail = "\"KnownDevice\":false,\
\"RXPacket\":{\"DR\":5},\
\"TXPacket\":[{\"PHYPayload\":{\"n\":1},\"TimeOnAir\":0.25},\
{\"PHYPayload\":{\"n\":1},\"TimeOnAir\":1.5}],\
\"TXAck\":{\"PHYPayload\":\"ack\",\"DownlinkTXInfo\":{\"power\":14},\"TimeOnAir\":0.0},\
\"JoinReq\":1,\"JoinAns\":2,\"PRStartReq\":3,\"PRStartAns\":4,\
\"HomeNSReq\":5,\"HomeNSAns\":6,\"XmitDataReq\":7,\"XmitDataAns\":8}";
    assert!(out.ends_with(tail), "{out}");
    let value: serde_json::Value = serde_json::from_str(&out).unwrap();
    assert_eq!(value.as_object().unwrap().len(), 23);
    assert!(!out.contains("null"));
    assert!(!entry.is_wf());
}

#[test]
fn received_packet_in_full() {
    let gateway_a = [1u8, 2, 3, 4, 5, 6, 7, 8];
    let gateway_b = [0xaau8, 0xbb, 0xcc, 0xdd, 0xee, 0xff, 0x00, 0x11];
    let tenant = uuid::Uuid::parse_str("c2864e43-174a-42a9-a8a5-71b0bd87b644").unwrap();
    let rx = RxPacket {
        dr: -3,
        tx_info: Some(document("{\"frequency\":868100000}")),
        rx_info_set: vec![document("{\"rssi\":-60}"), document("{\"rssi\":-97}")],
        gateway_is_private: vec![(gateway_a, true), (gateway_b, false)],
        gateway_service_profile: vec![(gateway_b, tenant.into_bytes())],
        roaming_meta_data: Some(RoamingMetaData {
            base_payload: document("{\"ProtocolVersion\":\"1.0\"}"),
            ul_meta_data: document("{\"DataRate\":5}"),
        }),
    };
    let out = text(rx.to_vec());
    assert_eq!(
        out,
        "{\"DR\":-3,\
\"TXInfo\":{\"frequency\":868100000},\
\"RXInfoSet\":[{\"rssi\":-60},{\"rssi\":-97}],\
\"GatewayIsPrivate\":{\"0102030405060708\":true,\"aabbccddeeff0011\":false},\
\"GatewayServiceProfile\":{\"aabbccddeeff0011\":\"c2864e43-174a-42a9-a8a5-71b0bd87b644\"},\
\"RoamingMetaData\":{\"BasePayload\":{\"ProtocolVersion\":\"1.0\"},\"ULMetaData\":{\"DataRate\":5}}}"
    );
    let value: serde_json::Value = serde_json::from_str(&out).unwrap();
    assert_eq!(value["GatewayIsPrivate"][lrwn::EUI64::from_be_bytes(gateway_b).to_string()], false);
    assert_eq!(value["GatewayServiceProfile"]["aabbccddeeff0011"], tenant.to_string());
}

#[test]
fn received_packet_leaves_out_what_is_empty() {
    let rx = RxPacket {
        dr: 0,
        tx_info: None,
        rx_info_set: vec![],
        gateway_is_private: vec![],
        gateway_service_profile: vec![],
        roaming_meta_data: None,
    };
    assert_eq!(text(rx.to_vec()), "{\"DR\":0}");
}

#[test]
fn status_tokens_and_endpoints() {
    for (result, token) in [(FrameStatusResult::OK, "OK"), (FrameStatusResult::NOK, "NOK"),
        (FrameStatusResult::WARN, "WARN")]
    {
        let status = FrameStatus { result, error_desc: "late \"ack\"".to_string() };
        assert_eq!(
            text(status.to_vec()),
            format!("{{\"Result\":\"{token}\",\"ErrorDesc\":\"late \\\"ack\\\"\"}}")
        );
    }
    for (endpoint, token) in [(Endpoint::Gateway, "GATEWAY"), (Endpoint::Local, "LOCAL"),
        (Endpoint::Roaming, "ROAMING"), (Endpoint::JoinServer, "JOINSERVER")]
    {
        let mut entry = bare();
        entry.log_source = endpoint;
        entry.log_destination = endpoint;
        let out = text(entry.to_vec().unwrap());
        assert!(out.contains(&format!("\"LogSource\":\"{token}\",")), "{out}");
        assert!(out.contains(&format!("\"LogDestination\":\"{token}\",")), "{out}");
    }
}

#[test]
fn transmitted_packet_leaves_out_missing_transmit_information() {
    let mut p = packet(3);
    assert_eq!(text(p.to_vec()), "{\"PHYPayload\":{\"n\":1},\"TimeOnAir\":0.75}");
    p.downlink_tx_info = Some(document("{}"));
    assert_eq!(text(p.to_vec()), "{\"PHYPayload\":{\"n\":1},\"DownlinkTXInfo\":{},\"TimeOnAir\":0.75}");
}

#[test]
fn assigning_a_gateway_replaces_or_appends() {
    let a = [1u8; 8];
    let b = [2u8; 8];
    let c = [1u8, 1, 1, 1, 1, 1, 1, 2];
    let mut entries: Vec<([u8; 8], bool)> = Vec::new();
    assign(&mut entries, a, true);
    assign(&mut entries, b, false);
    assert_eq!(entries, vec![(a, true), (b, false)]);
    assign(&mut entries, a, false);
    assert_eq!(entries, vec![(a, false), (b, false)]);
    assign(&mut entries, c, true);
    assign(&mut entries, b, true);
    assert_eq!(entries, vec![(a, false), (b, true), (c, true)]);
}

#[test]
fn document_reads_back_to_what_the_record_says() {
    let mut entry = bare();
    entry.ctx_id = uuid::Uuid::parse_str("c2864e43-174a-42a9-a8a5-71b0bd87b644").unwrap().into_bytes();
    entry.publish_at = Timestamp { secs: 1_683_107_921, nanos: 210_279_350 };
    entry.created_at = Timestamp { secs: 1_683_107_921, nanos: 204_119_632 };
    entry.log_source = Endpoint::Roaming;
    entry.source_id = "a \"quoted\" \\ name\n\u{1}\u{1f} gr\u{fc}n".to_string();
    entry.log_destination = Endpoint::JoinServer;
    entry.destination_id = "647fdafffe00c7bb".to_string();
    entry.frame_status = FrameStatus { result: FrameStatusResult::WARN, error_desc: "late, {but} \"fine\"".to_string() };
    entry.time_on_air = Airtime::new(71 * 4096, 250_000).unwrap();
    entry.dev_addr = [0xe0, 0x04, 0x07, 0x50];
    entry.dev_eui = [0x00, 0x80, 0xe1, 0x15, 0x00, 0x44, 0xbb, 0x7a];
    entry.known_device = true;

    let doc = entry.to_vec().unwrap();
    // a consumer to whom each of the eleven optional members may be missing
    let value: serde_json::Value = serde_json::from_slice(&doc).unwrap();
    let object = value.as_object().unwrap();
    for key in OPTIONAL {
        assert!(object.get(key).is_none(), "{key}");
    }
    let text = |key: &str| object[key].as_str().unwrap().to_string();
    let instant = |key: &str| {
        let t: chrono::DateTime<chrono::Utc> =
            chrono::DateTime::parse_from_rfc3339(&text(key)).unwrap().into();
        Timestamp { secs: t.timestamp(), nanos: t.timestamp_subsec_nanos() }
    };
    let endpoint = |key: &str| match text(key).as_str() {
        "GATEWAY" => Endpoint::Gateway,
        "LOCAL" => Endpoint::Local,
        "ROAMING" => Endpoint::Roaming,
        "JOINSERVER" => Endpoint::JoinServer,
        other => panic!("{other}"),
    };
    assert_eq!(uuid::Uuid::parse_str(&text("CtxID")).unwrap().into_bytes(), entry.ctx_id);
    assert_eq!(instant("PublishAt"), entry.publish_at);
    assert_eq!(instant("CreatedAt"), entry.created_at);
    assert_eq!(endpoint("LogSource"), entry.log_source);
    assert_eq!(text("SourceID"), entry.source_id);
    assert_eq!(endpoint("LogDestination"), entry.log_destination);
    assert_eq!(text("DestinationID"), entry.destination_id);
    assert_eq!(object["FrameStatus"]["Result"], "WARN");
    assert_eq!(object["FrameStatus"]["ErrorDesc"], entry.frame_status.error_desc.as_str());
    assert_eq!(object["TimeOnAir"].as_f64(), Some(1.163264));
    let addr: lrwn::DevAddr = text("DevAddr").parse().unwrap();
    assert_eq!(addr.to_be_bytes(), entry.dev_addr);
    let eui: lrwn::EUI64 = text("DevEUI").parse().unwrap();
    assert_eq!(eui.to_be_bytes(), entry.dev_eui);
    assert_eq!(object["KnownDevice"], true);
}
