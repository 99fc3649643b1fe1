use messagelog::wire::uuid_string;
use messagelog::{
    Airtime, Document, Endpoint, FrameStatus, FrameStatusResult, LogEntry, LogEntryBuilder,
    PhyPayload, RoamingMetaData, Timestamp, TxPacket,
};
use std::str::FromStr;

fn instant(text: &str) -> Timestamp {
    let t: chrono::DateTime<chrono::Utc> = chrono::DateTime::parse_from_rfc3339(text).unwrap().into();
    Timestamp { secs: t.timestamp(), nanos: t.timestamp_subsec_nanos() }
}

fn example_frame() -> lrwn::PhyPayload {
    let mac_payload = lrwn::MACPayload {
        fhdr: lrwn::FHDR {
            f_ctrl: lrwn::FCtrl { adr: true, ..Default::default() },
            devaddr: lrwn::DevAddr::from_str("e0040750").unwrap(),
            f_cnt: 7486,
            ..Default::default()
        },
        f_port: Some(2),
        frm_payload: None,
    };
    lrwn::PhyPayload {
        mhdr: lrwn::MHDR {
            f_type: lrwn::FType::ConfirmedDataDown,
            major: lrwn::Major::LoRaWANR1,
        },
        mic: Some([0xc7, 0x2f, 0xeb, 0xdf]),
        payload: lrwn::Payload::MACPayload(mac_payload),
    }
}

/// Frequency 869525000, power 27, context 06 bd 34 40, LoRa at 125000 Hz,
/// spreading factor 12, code rate 4/5, inverted polarisation.
const DOWNLINK_TX_INFO: &str = "{\"frequency\":869525000,\"power\":27,\"modulation\":{\"lora\":{\"bandwidth\":125000,\"spreadingFactor\":12,\"codeRate\":\"CR_4_5\",\"polarizationInversion\":true}},\"context\":\"Br00QA==\"}";

fn example_record(with_tx_info: bool) -> LogEntry {
    let frame = example_frame();
    let phy_payload = PhyPayload {
        encoded: frame.to_vec().ok(),
        decoded: Document { text: serde_json::to_vec(&frame).unwrap() },
    };
    let downlink_tx_info = if with_tx_info {
        Some(Document { text: DOWNLINK_TX_INFO.as_bytes().to_vec() })
    } else {
        None
    };
    LogEntry {
        publish_at: instant("2023-05-03T11:58:41.21027935+02:00"),
        dev_addr: lrwn::DevAddr::from_str("00000000").unwrap().to_be_bytes(),
        ctx_id: uuid::Uuid::parse_str("c2864e43-174a-42a9-a8a5-71b0bd87b644").unwrap().into_bytes(),
        known_device: true,
        tx_packet: vec![TxPacket {
            phy_payload,
            downlink_tx_info,
            time_on_air: Airtime::new(14827519999999998, 10_000_000_000_000_000).unwrap(),
        }],
        time_on_air: Airtime::zero(),
        created_at: instant("2023-05-03T11:58:41.204119632+02:00"),
        dev_eui: lrwn::EUI64::from_str("0080e1150044bb7a").unwrap().to_be_bytes(),
        source_id: "600002".into(),
        log_destination: Endpoint::Gateway,
        frame_status: FrameStatus { error_desc: "".to_string(), result: FrameStatusResult::NOK },
        log_source: Endpoint::Local,
        destination_id: "647fdafffe00c7bb".into(),
        home_ns_ans: None,
        home_ns_req: None,
        join_ans: None,
        join_req: None,
        pr_start_ans: None,
        pr_start_req: None,
        rx_packet: None,
        tx_ack: None,
        xmit_data_ans: None,
        xmit_data_req: None,
    }
}

fn expected_document(tx_info: Option<&str>) -> String {
    let frame = serde_json::to_string(&example_frame()).unwrap();
    let tx_info = match tx_info {
        Some(text) => format!("\"DownlinkTXInfo\":{text},"),
        None => String::new(),
    };
    format!(
        "{{\"CtxID\":\"c2864e43-174a-42a9-a8a5-71b0bd87b644\",\
\"PublishAt\":\"2023-05-03T09:58:41.210279350Z\",\
\"CreatedAt\":\"2023-05-03T09:58:41.204119632Z\",\
\"LogSource\":\"LOCAL\",\
\"SourceID\":\"600002\",\
\"LogDestination\":\"GATEWAY\",\
\"DestinationID\":\"647fdafffe00c7bb\",\
\"FrameStatus\":{{\"Result\":\"NOK\",\"ErrorDesc\":\"\"}},\
\"TimeOnAir\":0.0,\
\"DevAddr\":\"00000000\",\
\"DevEUI\":\"0080e1150044bb7a\",\
\"KnownDevice\":true,\
\"TXPacket\":[{{\"PHYPayload\":{frame},{tx_info}\"TimeOnAir\":1.4827519999999998}}]}}"
    )
}

#[test]
fn datatypes_test_json_format() {
    let orig = example_record(true);
    let encoded = String::from_utf8(orig.to_vec().unwrap()).unwrap();
    println!("{encoded}");
    assert_eq!(encoded, expected_document(Some(DOWNLINK_TX_INFO)));
}

#[test]
fn mod_test_json_format() {
    let orig = example_record(false);
    let encoded = String::from_utf8(orig.to_vec().unwrap()).unwrap();
    println!("{encoded}");
    assert_eq!(encoded, expected_document(None));
    assert!(!encoded.contains("DownlinkTXInfo"));
}

#[test]
fn example_document_parses_and_keeps_its_values() {
    let encoded = example_record(true).to_vec().unwrap();
    let value: serde_json::Value = serde_json::from_slice(&encoded).unwrap();
    let object = value.as_object().unwrap();
    assert_eq!(object.len(), 13);
    assert_eq!(object["LogSource"], "LOCAL");
    assert_eq!(object["LogDestination"], "GATEWAY");
    assert_eq!(object["KnownDevice"], true);
    assert_eq!(object["FrameStatus"]["Result"], "NOK");
    assert_eq!(object["TimeOnAir"].as_f64(), Some(0.0));
    let packet = &object["TXPacket"][0];
    assert_eq!(packet["TimeOnAir"].as_f64(), Some(1.4827519999999998));
    assert_eq!(packet["DownlinkTXInfo"]["frequency"], 869525000);
    assert_eq!(packet["PHYPayload"], serde_json::to_value(example_frame()).unwrap());
    for absent in ["RXPacket", "TXAck", "JoinReq", "JoinAns", "PRStartReq", "PRStartAns",
        "HomeNSReq", "HomeNSAns", "XmitDataReq", "XmitDataAns"]
    {
        assert!(!object.contains_key(absent), "{absent}");
    }
}

#[test]
fn example_frame_has_thirteen_bytes() {
    assert_eq!(example_record(true).tx_packet[0].phy_payload.encoded.as_ref().unwrap().len(), 13);
}

#[test]
fn fresh_record_is_fail_closed_and_bare() {
    let before = chrono::Utc::now().timestamp();
    let entry = LogEntryBuilder::new().build();
    let after = chrono::Utc::now().timestamp();
    assert!(before <= entry.created_at.secs && entry.created_at.secs <= after);
    assert!(entry.created_at.nanos < 2_000_000_000);
    assert_eq!(entry.frame_status.result, FrameStatusResult::NOK);
    assert_eq!(entry.frame_status.error_desc, "");
    assert_eq!(entry.log_source, Endpoint::Local);
    assert_eq!(entry.log_destination, Endpoint::Local);
    assert_eq!(entry.source_id, "");
    assert_eq!(entry.destination_id, "");
    assert_eq!(entry.ctx_id, [0u8; 16]);
    assert_eq!(entry.publish_at, Timestamp { secs: 0, nanos: 0 });
    assert_eq!(entry.time_on_air, Airtime::zero());
    assert_eq!(entry.dev_addr, [0u8; 4]);
    assert_eq!(entry.dev_eui, [0u8; 8]);
    assert!(!entry.known_device);
    assert!(entry.rx_packet.is_none());
    assert!(entry.tx_packet.is_empty());
    assert!(entry.tx_ack.is_none());
    assert!(entry.join_req.is_none() && entry.join_ans.is_none());
    assert!(entry.pr_start_req.is_none() && entry.pr_start_ans.is_none());
    assert!(entry.home_ns_req.is_none() && entry.home_ns_ans.is_none());
    assert!(entry.xmit_data_req.is_none() && entry.xmit_data_ans.is_none());
    assert!(entry.is_wf());
}

#[test]
fn builder_keeps_what_it_is_told() {
    let created_at = Timestamp { secs: 1_683_107_921, nanos: 204_119_632 };
    let entry = LogEntryBuilder::at(created_at)
        .log_source(Endpoint::Roaming)
        .source_id("600002".to_string())
        .log_destination(Endpoint::JoinServer)
        .our_desitnation_id([0x60, 0x00, 0x02])
        .build();
    assert_eq!(entry.created_at, created_at);
    assert_eq!(entry.log_source, Endpoint::Roaming);
    assert_eq!(entry.source_id, "600002");
    assert_eq!(entry.log_destination, Endpoint::JoinServer);
    assert_eq!(entry.destination_id, "600002");
    assert_eq!(entry.frame_status.result, FrameStatusResult::NOK);
}

#[test]
fn our_destination_is_the_net_id_as_lrwn_writes_it() {
    for bytes in [[0u8, 0, 0], [0x60, 0x00, 0x02], [0xff, 0xab, 0x0c], [0x01, 0x23, 0x45]] {
        let builder = LogEntryBuilder::at(Timestamp::default()).our_desitnation_id(bytes);
        assert_eq!(builder.destination_id, lrwn::NetID::from_be_bytes(bytes).to_string());
    }
}

#[test]
fn defaults() {
    assert_eq!(Endpoint::default(), Endpoint::Local);
    assert_eq!(FrameStatusResult::default(), FrameStatusResult::NOK);
    let status = FrameStatus::default();
    assert_eq!(status.result, FrameStatusResult::NOK);
    assert_eq!(status.error_desc, "");
    assert_eq!(Timestamp::default(), Timestamp { secs: 0, nanos: 0 });
    let entry = LogEntry::default();
    assert_eq!(entry.created_at, Timestamp { secs: 0, nanos: 0 });
    assert!(entry.tx_packet.is_empty());
    let builder = LogEntryBuilder::default();
    assert_eq!(builder.created_at, Timestamp { secs: 0, nanos: 0 });
    assert_eq!(builder.log_source, Endpoint::Local);
    assert_eq!(builder.log_destination, Endpoint::Local);
    assert_eq!(builder.source_id, "");
    assert_eq!(builder.destination_id, "");
    assert_eq!(Document::default().text, b"{}");
    let roaming = RoamingMetaData::default();
    assert_eq!(roaming.base_payload.text, b"{}");
    assert_eq!(roaming.ul_meta_data.text, b"{}");
    assert_eq!(roaming.to_vec(), b"{\"BasePayload\":{},\"ULMetaData\":{}}");
}

#[test]
fn one_transaction_at_most() {
    let document = || Some(Document { text: b"{}".to_vec() });
    let mut entry = LogEntry::default();
    assert!(entry.is_wf());
    entry.join_req = document();
    entry.join_ans = document();
    assert!(entry.is_wf());
    entry.xmit_data_ans = document();
    assert!(!entry.is_wf());
    entry.join_req = None;
    entry.join_ans = None;
    assert!(entry.is_wf());
    entry.home_ns_req = document();
    entry.pr_start_ans = document();
    assert!(!entry.is_wf());
}

#[test]
fn uuid_is_written_as_the_uuid_crate_writes_it() {
    for text in ["c2864e43-174a-42a9-a8a5-71b0bd87b644", "00000000-0000-0000-0000-000000000000",
        "ffffffff-ffff-ffff-ffff-ffffffffffff", "01234567-89ab-cdef-fedc-ba9876543210"]
    {
        let id = uuid::Uuid::parse_str(text).unwrap();
        assert_eq!(uuid_string(&id.into_bytes()), text);
        assert_eq!(uuid_string(&id.into_bytes()), id.to_string());
    }
}

#[test]
fn the_present_instant_has_a_date() {
    let before = chrono::Utc::now();
    let now = Timestamp::now();
    let after = chrono::Utc::now();
    let text = now.to_rfc3339().unwrap();
    let read: chrono::DateTime<chrono::Utc> =
        chrono::DateTime::parse_from_rfc3339(&text).unwrap().into();
    assert!(before <= read && read <= after, "{before} {text} {after}");
    assert_eq!(read.timestamp(), now.secs);
    assert_eq!(read.timestamp_subsec_nanos(), now.nanos);

    let mut entry = LogEntryBuilder::new().build();
    entry.publish_at = Timestamp::now();
    assert!(entry.to_vec().is_ok());
}
