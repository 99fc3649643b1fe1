//! The wire form of a record: one self-contained document with fixed member
//! names in a fixed order, from which every empty optional member is left
//! out.

use crate::airtime::Airtime;
use crate::datatypes::{
    Document, Endpoint, FrameStatus, FrameStatusResult, LogEntry, RoamingMetaData, RxPacket,
    Timestamp, TxPacket, Uuid, EUI64,
};
use crate::encoding::{
    append_hex, array, decimal_signed, fields_of, hex_lower, hex_string, keys, object,
    push_decimal_signed, push_item, push_ratio, quoted, quoted_text, ratio_text, texts_of,
    write_array, write_object, Field, Member,
};
use vstd::prelude::*;
use vstd::slice::slice_subrange;
use vstd::string::*;
use vstd::utf8::encode_utf8;

verus! {

/// The date and time that `chrono` writes for the instant `secs` seconds and
/// `nanos` nanoseconds after the epoch, in UTC; nothing where `chrono` knows
/// no such instant.
pub uninterp spec fn rfc3339_text(secs: int, nanos: int) -> Option<Seq<char>>;

/// Why a record could not be written.
#[derive(Clone, Copy, Debug, PartialEq, Eq, Structural)]
pub enum SerializeError {
    /// The publish time is no instant that can be written as a date.
    PublishAt,
    /// The creation time is no instant that can be written as a date.
    CreatedAt,
}

/// The token that stands for an endpoint.
pub open spec fn endpoint_token(e: Endpoint) -> Seq<char> {
    match e {
        Endpoint::Gateway => "GATEWAY"@,
        Endpoint::Local => "LOCAL"@,
        Endpoint::Roaming => "ROAMING"@,
        Endpoint::JoinServer => "JOINSERVER"@,
    }
}

/// The token that stands for an outcome.
pub open spec fn result_token(r: FrameStatusResult) -> Seq<char> {
    match r {
        FrameStatusResult::OK => "OK"@,
        FrameStatusResult::NOK => "NOK"@,
        FrameStatusResult::WARN => "WARN"@,
    }
}

/// An identifier of sixteen bytes in groups of 8, 4, 4, 4 and 12 lowercase
/// hexadecimal digits with hyphens between them.
pub open spec fn uuid_text(id: Seq<u8>) -> Seq<char> {
    hex_lower(id.subrange(0, 4)) + "-"@ + hex_lower(id.subrange(4, 6)) + "-"@ + hex_lower(
        id.subrange(6, 8),
    ) + "-"@ + hex_lower(id.subrange(8, 10)) + "-"@ + hex_lower(id.subrange(10, 16))
}

/// A truth value as it is written.
pub open spec fn bool_text(b: bool) -> Seq<u8> {
    if b {
        encode_utf8("true"@)
    } else {
        encode_utf8("false"@)
    }
}

/// A duration as it is written: its seconds as a decimal number.
pub open spec fn airtime_text(t: Airtime) -> Seq<u8> {
    ratio_text(t@.numerator, t@.denominator)
}

/// A member with the key `key` and the value `value`.
pub open spec fn field(key: Seq<char>, value: Seq<u8>) -> Field {
    Field { key, value }
}

/// The members with one more at the end, if there is a value for it.
pub open spec fn with_optional(fields: Seq<Field>, key: Seq<char>, value: Option<Seq<u8>>) -> Seq<
    Field,
> {
    match value {
        Some(v) => fields.push(field(key, v)),
        None => fields,
    }
}

/// The text of a document that may be absent.
pub open spec fn document_value(d: Option<Document>) -> Option<Seq<u8>> {
    match d {
        Some(x) => Some(x@),
        None => None,
    }
}

/// The documents as one array; nothing for an empty list.
pub open spec fn documents_value(documents: Seq<Document>) -> Option<Seq<u8>> {
    if documents.len() == 0 {
        None
    } else {
        Some(array(document_texts(documents)))
    }
}

/// The members as one object; nothing for an empty list.
pub open spec fn members_value(fields: Seq<Field>) -> Option<Seq<u8>> {
    if fields.len() == 0 {
        None
    } else {
        Some(object(fields))
    }
}

/// One member for each gateway: its identifier as key, the flag as value.
pub open spec fn private_fields(entries: Seq<(EUI64, bool)>) -> Seq<Field> {
    entries.map_values(|p: (EUI64, bool)| field(hex_lower(p.0@), bool_text(p.1)))
}

/// One member for each gateway: its identifier as key, the tenant as value.
pub open spec fn profile_fields(entries: Seq<(EUI64, Uuid)>) -> Seq<Field> {
    entries.map_values(|p: (EUI64, Uuid)| field(hex_lower(p.0@), quoted(uuid_text(p.1@))))
}

/// The texts of the documents, in order.
pub open spec fn document_texts(documents: Seq<Document>) -> Seq<Seq<u8>> {
    documents.map_values(|d: Document| d@)
}

/// The members of a status: the outcome, then its description.
pub open spec fn frame_status_fields(s: FrameStatus) -> Seq<Field> {
    seq![
        field("Result"@, quoted(result_token(s.result))),
        field("ErrorDesc"@, quoted(s.error_desc@)),
    ]
}

/// A status as one document.
pub open spec fn frame_status_text(s: FrameStatus) -> Seq<u8> {
    object(frame_status_fields(s))
}

/// The members of the roaming envelopes.
pub open spec fn roaming_fields(r: RoamingMetaData) -> Seq<Field> {
    seq![field("BasePayload"@, r.base_payload@), field("ULMetaData"@, r.ul_meta_data@)]
}

/// The roaming envelopes as one document.
pub open spec fn roaming_text(r: RoamingMetaData) -> Seq<u8> {
    object(roaming_fields(r))
}

/// The roaming envelopes as one document, if there are any.
pub open spec fn roaming_value(r: Option<RoamingMetaData>) -> Option<Seq<u8>> {
    match r {
        Some(x) => Some(roaming_text(x)),
        None => None,
    }
}

/// The members of a transmitted packet: the frame, the transmit information
/// where there is any, and the time on air.
pub open spec fn tx_packet_fields(p: TxPacket) -> Seq<Field> {
    with_optional(
        seq![field("PHYPayload"@, p.phy_payload.decoded@)],
        "DownlinkTXInfo"@,
        document_value(p.downlink_tx_info),
    ).push(field("TimeOnAir"@, airtime_text(p.time_on_air)))
}

/// A transmitted packet as one document.
pub open spec fn tx_packet_text(p: TxPacket) -> Seq<u8> {
    object(tx_packet_fields(p))
}

/// The texts of the packets, in order.
pub open spec fn tx_packet_texts(packets: Seq<TxPacket>) -> Seq<Seq<u8>> {
    packets.map_values(|p: TxPacket| tx_packet_text(p))
}

/// A transmitted packet as one document, if there is one.
pub open spec fn tx_packet_value(p: Option<TxPacket>) -> Option<Seq<u8>> {
    match p {
        Some(x) => Some(tx_packet_text(x)),
        None => None,
    }
}

/// The packets as one array; nothing for an empty list.
pub open spec fn tx_packets_value(packets: Seq<TxPacket>) -> Option<Seq<u8>> {
    if packets.len() == 0 {
        None
    } else {
        Some(array(tx_packet_texts(packets)))
    }
}

/// The members of a received packet: the data rate, then what is there of
/// the rest.
pub open spec fn rx_packet_fields(r: RxPacket) -> Seq<Field> {
    let f0 = seq![field("DR"@, decimal_signed(r.dr as int))];
    let f1 = with_optional(f0, "TXInfo"@, document_value(r.tx_info));
    let f2 = with_optional(f1, "RXInfoSet"@, documents_value(r.rx_info_set@));
    let f3 = with_optional(
        f2,
        "GatewayIsPrivate"@,
        members_value(private_fields(r.gateway_is_private@)),
    );
    let f4 = with_optional(
        f3,
        "GatewayServiceProfile"@,
        members_value(profile_fields(r.gateway_service_profile@)),
    );
    with_optional(f4, "RoamingMetaData"@, roaming_value(r.roaming_meta_data))
}

/// A received packet as one document.
pub open spec fn rx_packet_text(r: RxPacket) -> Seq<u8> {
    object(rx_packet_fields(r))
}

/// A received packet as one document, if there is one.
pub open spec fn rx_packet_value(r: Option<RxPacket>) -> Option<Seq<u8>> {
    match r {
        Some(x) => Some(rx_packet_text(x)),
        None => None,
    }
}

/// The twelve members that every record has, in the order in which they are
/// written.
pub open spec fn required_fields(e: LogEntry, publish_at: Seq<char>, created_at: Seq<char>) -> Seq<
    Field,
> {
    seq![
        field("CtxID"@, quoted(uuid_text(e.ctx_id@))),
        field("PublishAt"@, quoted(publish_at)),
        field("CreatedAt"@, quoted(created_at)),
        field("LogSource"@, quoted(endpoint_token(e.log_source))),
        field("SourceID"@, quoted(e.source_id@)),
        field("LogDestination"@, quoted(endpoint_token(e.log_destination))),
        field("DestinationID"@, quoted(e.destination_id@)),
        field("FrameStatus"@, frame_status_text(e.frame_status)),
        field("TimeOnAir"@, airtime_text(e.time_on_air)),
        field("DevAddr"@, quoted(hex_lower(e.dev_addr@))),
        field("DevEUI"@, quoted(hex_lower(e.dev_eui@))),
        field("KnownDevice"@, bool_text(e.known_device)),
    ]
}

/// The members of a record: the required ones, then each optional one for
/// which there is something to write.
pub open spec fn log_entry_fields(e: LogEntry, publish_at: Seq<char>, created_at: Seq<char>) -> Seq<
    Field,
> {
    let f0 = required_fields(e, publish_at, created_at);
    let f1 = with_optional(f0, "RXPacket"@, rx_packet_value(e.rx_packet));
    let f2 = with_optional(f1, "TXPacket"@, tx_packets_value(e.tx_packet@));
    let f3 = with_optional(f2, "TXAck"@, tx_packet_value(e.tx_ack));
    let f4 = with_optional(f3, "JoinReq"@, document_value(e.join_req));
    let f5 = with_optional(f4, "JoinAns"@, document_value(e.join_ans));
    let f6 = with_optional(f5, "PRStartReq"@, document_value(e.pr_start_req));
    let f7 = with_optional(f6, "PRStartAns"@, document_value(e.pr_start_ans));
    let f8 = with_optional(f7, "HomeNSReq"@, document_value(e.home_ns_req));
    let f9 = with_optional(f8, "HomeNSAns"@, document_value(e.home_ns_ans));
    let f10 = with_optional(f9, "XmitDataReq"@, document_value(e.xmit_data_req));
    with_optional(f10, "XmitDataAns"@, document_value(e.xmit_data_ans))
}

/// The record as one document, with its two times written as `publish_at`
/// and `created_at`.
pub open spec fn log_entry_text(e: LogEntry, publish_at: Seq<char>, created_at: Seq<char>) -> Seq<
    u8,
> {
    object(log_entry_fields(e, publish_at, created_at))
}

/// What is written for a record: its document, or the reason why there is
/// none. The publish time is looked at first.
pub open spec fn wire_form(e: LogEntry) -> Result<Seq<u8>, SerializeError> {
    match rfc3339_text(e.publish_at.secs as int, e.publish_at.nanos as int) {
        None => Err(SerializeError::PublishAt),
        Some(publish_at) => match rfc3339_text(e.created_at.secs as int, e.created_at.nanos as int) {
            None => Err(SerializeError::CreatedAt),
            Some(created_at) => Ok(log_entry_text(e, publish_at, created_at)),
        },
    }
}

/// Writes the instant `secs` seconds and `nanos` nanoseconds after the epoch
/// as `chrono` does for a `DateTime<Utc>` in a document: the instant is made
/// with `DateTime::from_timestamp` and written with `to_rfc3339_opts` with
/// `SecondsFormat::AutoSi` and a `Z` for the offset. The contract gives the
/// result its name and says nothing else of it; the result is `None` exactly
/// where `from_timestamp` knows no such instant.
#[verifier::external_body]
fn format_rfc3339(secs: i64, nanos: u32) -> (text: Option<String>)
    ensures
        text is Some <==> rfc3339_text(secs as int, nanos as int) is Some,
        text matches Some(t) ==> rfc3339_text(secs as int, nanos as int) == Some(t@),
{
    match chrono::DateTime::from_timestamp(secs, nanos) {
        Some(instant) => Some(instant.to_rfc3339_opts(chrono::SecondsFormat::AutoSi, true)),
        None => None,
    }
}

impl Timestamp {
    /// The instant as date and time in UTC, if it is one that can be written
    /// so.
    pub fn to_rfc3339(&self) -> (text: Option<String>)
        ensures
            text is Some <==> rfc3339_text(self.secs as int, self.nanos as int) is Some,
            text matches Some(t) ==> rfc3339_text(self.secs as int, self.nanos as int) == Some(
                t@,
            ),
    {
        format_rfc3339(self.secs, self.nanos)
    }
}

fn put(members: &mut Vec<Member>, key: &str, value: Vec<u8>)
    ensures
        fields_of(final(members)@) == fields_of(old(members)@).push(field(key@, value@)),
{
    let ghost added = field(key@, value@);
    members.push(Member { key: key.to_owned(), value });
    assert(fields_of(members@) =~= fields_of(old(members)@).push(added));
}

fn put_owned(members: &mut Vec<Member>, key: String, value: Vec<u8>)
    ensures
        fields_of(final(members)@) == fields_of(old(members)@).push(field(key@, value@)),
{
    let ghost added = field(key@, value@);
    members.push(Member { key, value });
    assert(fields_of(members@) =~= fields_of(old(members)@).push(added));
}

/// The view of a value that may be absent.
pub open spec fn bytes_of(value: Option<Vec<u8>>) -> Option<Seq<u8>> {
    match value {
        Some(v) => Some(v@),
        None => None,
    }
}

fn put_optional(members: &mut Vec<Member>, key: &str, value: Option<Vec<u8>>)
    ensures
        fields_of(final(members)@) == with_optional(
            fields_of(old(members)@),
            key@,
            bytes_of(value),
        ),
{
    match value {
        Some(v) => {
            put(members, key, v);
        },
        None => {},
    }
}

fn copy_bytes(bytes: &[u8]) -> (copy: Vec<u8>)
    ensures
        copy@ == bytes@,
{
    let mut copy: Vec<u8> = Vec::new();
    copy.extend_from_slice(bytes);
    assert(copy@ =~= bytes@);
    copy
}

fn literal(text: &str) -> (out: Vec<u8>)
    ensures
        out@ == encode_utf8(text@),
{
    copy_bytes(text.as_bytes())
}

fn endpoint_name(e: Endpoint) -> (name: &'static str)
    ensures
        name@ == endpoint_token(e),
{
    match e {
        Endpoint::Gateway => "GATEWAY",
        Endpoint::Local => "LOCAL",
        Endpoint::Roaming => "ROAMING",
        Endpoint::JoinServer => "JOINSERVER",
    }
}

fn result_name(r: FrameStatusResult) -> (name: &'static str)
    ensures
        name@ == result_token(r),
{
    match r {
        FrameStatusResult::OK => "OK",
        FrameStatusResult::NOK => "NOK",
        FrameStatusResult::WARN => "WARN",
    }
}

/// The identifier in groups of lowercase hexadecimal digits with hyphens
/// between them.
pub fn uuid_string(id: &Uuid) -> (text: String)
    ensures
        text@ == uuid_text(id@),
{
    let bytes = id.as_slice();
    let mut text = String::new();
    append_hex(&mut text, slice_subrange(bytes, 0, 4));
    text.append("-");
    append_hex(&mut text, slice_subrange(bytes, 4, 6));
    text.append("-");
    append_hex(&mut text, slice_subrange(bytes, 6, 8));
    text.append("-");
    append_hex(&mut text, slice_subrange(bytes, 8, 10));
    text.append("-");
    append_hex(&mut text, slice_subrange(bytes, 10, 16));
    assert(text@ =~= uuid_text(id@));
    text
}

fn write_bool(b: bool) -> (out: Vec<u8>)
    ensures
        out@ == bool_text(b),
{
    if b {
        literal("true")
    } else {
        literal("false")
    }
}

fn write_airtime(t: &Airtime) -> (out: Vec<u8>)
    ensures
        out@ == airtime_text(*t),
{
    let mut out: Vec<u8> = Vec::new();
    push_ratio(&mut out, t.numerator(), t.denominator());
    assert(out@ =~= airtime_text(*t));
    out
}

fn write_document(d: &Option<Document>) -> (out: Option<Vec<u8>>)
    ensures
        bytes_of(out) == document_value(*d),
{
    match d {
        Some(x) => Some(copy_bytes(x.text.as_slice())),
        None => None,
    }
}

fn write_documents(documents: &Vec<Document>) -> (out: Option<Vec<u8>>)
    ensures
        bytes_of(out) == documents_value(documents@),
{
    if documents.len() == 0 {
        return None;
    }
    let mut items: Vec<Vec<u8>> = Vec::new();
    let mut i: usize = 0;
    assert(texts_of(items@) =~= document_texts(documents@.take(0)));
    while i < documents.len()
        invariant
            i <= documents.len(),
            texts_of(items@) == document_texts(documents@.take(i as int)),
        decreases documents.len() - i,
    {
        push_item(&mut items, copy_bytes(documents[i].text.as_slice()));
        assert(texts_of(items@) =~= document_texts(documents@.take(i + 1)));
        i += 1;
    }
    assert(documents@.take(documents.len() as int) =~= documents@);
    Some(write_array(&items))
}

impl FrameStatus {
    /// The status as one document.
    pub fn to_vec(&self) -> (out: Vec<u8>)
        ensures
            out@ == frame_status_text(*self),
    {
        let mut members: Vec<Member> = Vec::new();
        assert(fields_of(members@) =~= Seq::<Field>::empty());
        put(&mut members, "Result", quoted_text(result_name(self.result)));
        put(&mut members, "ErrorDesc", quoted_text(self.error_desc.as_str()));
        assert(fields_of(members@) =~= frame_status_fields(*self));
        write_object(&members)
    }
}

impl RoamingMetaData {
    /// The two envelopes as one document.
    pub fn to_vec(&self) -> (out: Vec<u8>)
        ensures
            out@ == roaming_text(*self),
    {
        let mut members: Vec<Member> = Vec::new();
        assert(fields_of(members@) =~= Seq::<Field>::empty());
        put(&mut members, "BasePayload", copy_bytes(self.base_payload.text.as_slice()));
        put(&mut members, "ULMetaData", copy_bytes(self.ul_meta_data.text.as_slice()));
        assert(fields_of(members@) =~= roaming_fields(*self));
        write_object(&members)
    }
}

impl TxPacket {
    /// The packet as one document.
    pub fn to_vec(&self) -> (out: Vec<u8>)
        ensures
            out@ == tx_packet_text(*self),
    {
        let mut members: Vec<Member> = Vec::new();
        assert(fields_of(members@) =~= Seq::<Field>::empty());
        put(&mut members, "PHYPayload", copy_bytes(self.phy_payload.decoded.text.as_slice()));
        assert(fields_of(members@) =~= seq![field("PHYPayload"@, self.phy_payload.decoded@)]);
        put_optional(&mut members, "DownlinkTXInfo", write_document(&self.downlink_tx_info));
        put(&mut members, "TimeOnAir", write_airtime(&self.time_on_air));
        write_object(&members)
    }
}

fn write_tx_packet(p: &Option<TxPacket>) -> (out: Option<Vec<u8>>)
    ensures
        bytes_of(out) == tx_packet_value(*p),
{
    match p {
        Some(x) => Some(x.to_vec()),
        None => None,
    }
}

fn write_tx_packets(packets: &Vec<TxPacket>) -> (out: Option<Vec<u8>>)
    ensures
        bytes_of(out) == tx_packets_value(packets@),
{
    if packets.len() == 0 {
        return None;
    }
    let mut items: Vec<Vec<u8>> = Vec::new();
    let mut i: usize = 0;
    assert(texts_of(items@) =~= tx_packet_texts(packets@.take(0)));
    while i < packets.len()
        invariant
            i <= packets.len(),
            texts_of(items@) == tx_packet_texts(packets@.take(i as int)),
        decreases packets.len() - i,
    {
        push_item(&mut items, packets[i].to_vec());
        assert(texts_of(items@) =~= tx_packet_texts(packets@.take(i + 1)));
        i += 1;
    }
    assert(packets@.take(packets.len() as int) =~= packets@);
    Some(write_array(&items))
}

fn write_private(entries: &Vec<(EUI64, bool)>) -> (out: Option<Vec<u8>>)
    ensures
        bytes_of(out) == members_value(private_fields(entries@)),
{
    if entries.len() == 0 {
        return None;
    }
    let mut members: Vec<Member> = Vec::new();
    let mut i: usize = 0;
    assert(fields_of(members@) =~= private_fields(entries@.take(0)));
    while i < entries.len()
        invariant
            i <= entries.len(),
            fields_of(members@) == private_fields(entries@.take(i as int)),
        decreases entries.len() - i,
    {
        let key = hex_string(entries[i].0.as_slice());
        put_owned(&mut members, key, write_bool(entries[i].1));
        assert(fields_of(members@) =~= private_fields(entries@.take(i + 1)));
        i += 1;
    }
    assert(entries@.take(entries.len() as int) =~= entries@);
    Some(write_object(&members))
}

fn write_profiles(entries: &Vec<(EUI64, Uuid)>) -> (out: Option<Vec<u8>>)
    ensures
        bytes_of(out) == members_value(profile_fields(entries@)),
{
    if entries.len() == 0 {
        return None;
    }
    let mut members: Vec<Member> = Vec::new();
    let mut i: usize = 0;
    assert(fields_of(members@) =~= profile_fields(entries@.take(0)));
    while i < entries.len()
        invariant
            i <= entries.len(),
            fields_of(members@) == profile_fields(entries@.take(i as int)),
        decreases entries.len() - i,
    {
        let key = hex_string(entries[i].0.as_slice());
        let tenant = uuid_string(&entries[i].1);
        put_owned(&mut members, key, quoted_text(tenant.as_str()));
        assert(fields_of(members@) =~= profile_fields(entries@.take(i + 1)));
        i += 1;
    }
    assert(entries@.take(entries.len() as int) =~= entries@);
    Some(write_object(&members))
}

impl RxPacket {
    /// The packet as one document.
    pub fn to_vec(&self) -> (out: Vec<u8>)
        ensures
            out@ == rx_packet_text(*self),
    {
        let mut members: Vec<Member> = Vec::new();
        assert(fields_of(members@) =~= Seq::<Field>::empty());
        let mut dr: Vec<u8> = Vec::new();
        push_decimal_signed(&mut dr, self.dr);
        assert(dr@ =~= decimal_signed(self.dr as int));
        put(&mut members, "DR", dr);
        assert(fields_of(members@) =~= seq![field("DR"@, decimal_signed(self.dr as int))]);
        put_optional(&mut members, "TXInfo", write_document(&self.tx_info));
        put_optional(&mut members, "RXInfoSet", write_documents(&self.rx_info_set));
        put_optional(&mut members, "GatewayIsPrivate", write_private(&self.gateway_is_private));
        put_optional(
            &mut members,
            "GatewayServiceProfile",
            write_profiles(&self.gateway_service_profile),
        );
        let roaming = match &self.roaming_meta_data {
            Some(r) => Some(r.to_vec()),
            None => None,
        };
        put_optional(&mut members, "RoamingMetaData", roaming);
        write_object(&members)
    }
}

impl LogEntry {
    /// The record as one document, with its two times written as
    /// `publish_at` and `created_at`.
    pub fn render(&self, publish_at: &str, created_at: &str) -> (out: Vec<u8>)
        ensures
            out@ == log_entry_text(*self, publish_at@, created_at@),
    {
        let mut members: Vec<Member> = Vec::new();
        assert(fields_of(members@) =~= Seq::<Field>::empty());
        let ctx_id = uuid_string(&self.ctx_id);
        put(&mut members, "CtxID", quoted_text(ctx_id.as_str()));
        put(&mut members, "PublishAt", quoted_text(publish_at));
        put(&mut members, "CreatedAt", quoted_text(created_at));
        put(&mut members, "LogSource", quoted_text(endpoint_name(self.log_source)));
        put(&mut members, "SourceID", quoted_text(self.source_id.as_str()));
        put(&mut members, "LogDestination", quoted_text(endpoint_name(self.log_destination)));
        put(&mut members, "DestinationID", quoted_text(self.destination_id.as_str()));
        put(&mut members, "FrameStatus", self.frame_status.to_vec());
        put(&mut members, "TimeOnAir", write_airtime(&self.time_on_air));
        let dev_addr = hex_string(self.dev_addr.as_slice());
        put(&mut members, "DevAddr", quoted_text(dev_addr.as_str()));
        let dev_eui = hex_string(self.dev_eui.as_slice());
        put(&mut members, "DevEUI", quoted_text(dev_eui.as_str()));
        put(&mut members, "KnownDevice", write_bool(self.known_device));
        assert(fields_of(members@) =~= required_fields(*self, publish_at@, created_at@));
        let rx_packet = match &self.rx_packet {
            Some(r) => Some(r.to_vec()),
            None => None,
        };
        put_optional(&mut members, "RXPacket", rx_packet);
        put_optional(&mut members, "TXPacket", write_tx_packets(&self.tx_packet));
        put_optional(&mut members, "TXAck", write_tx_packet(&self.tx_ack));
        put_optional(&mut members, "JoinReq", write_document(&self.join_req));
        put_optional(&mut members, "JoinAns", write_document(&self.join_ans));
        put_optional(&mut members, "PRStartReq", write_document(&self.pr_start_req));
        put_optional(&mut members, "PRStartAns", write_document(&self.pr_start_ans));
        put_optional(&mut members, "HomeNSReq", write_document(&self.home_ns_req));
        put_optional(&mut members, "HomeNSAns", write_document(&self.home_ns_ans));
        put_optional(&mut members, "XmitDataReq", write_document(&self.xmit_data_req));
        put_optional(&mut members, "XmitDataAns", write_document(&self.xmit_data_ans));
        write_object(&members)
    }

    /// The record as one document. It cannot be written where one of its two
    /// times is no instant that has a date.
    pub fn to_vec(&self) -> (out: Result<Vec<u8>, SerializeError>)
        ensures
            out matches Ok(bytes) ==> wire_form(*self) == Ok::<Seq<u8>, SerializeError>(bytes@),
            out matches Err(e) ==> wire_form(*self) == Err::<Seq<u8>, SerializeError>(e),
    {
        let publish_at = match self.publish_at.to_rfc3339() {
            Some(text) => text,
            None => {
                return Err(SerializeError::PublishAt);
            },
        };
        let created_at = match self.created_at.to_rfc3339() {
            Some(text) => text,
            None => {
                return Err(SerializeError::CreatedAt);
            },
        };
        Ok(self.render(publish_at.as_str(), created_at.as_str()))
    }
}

/// The names of the members that every record has, in the order in which
/// they are written.
pub open spec fn required_keys() -> Seq<Seq<char>> {
    seq![
        "CtxID"@,
        "PublishAt"@,
        "CreatedAt"@,
        "LogSource"@,
        "SourceID"@,
        "LogDestination"@,
        "DestinationID"@,
        "FrameStatus"@,
        "TimeOnAir"@,
        "DevAddr"@,
        "DevEUI"@,
        "KnownDevice"@,
    ]
}

/// The names of the members that a record has only where there is something
/// to write for them.
pub open spec fn optional_keys() -> Seq<Seq<char>> {
    seq![
        "RXPacket"@,
        "TXPacket"@,
        "TXAck"@,
        "JoinReq"@,
        "JoinAns"@,
        "PRStartReq"@,
        "PRStartAns"@,
        "HomeNSReq"@,
        "HomeNSAns"@,
        "XmitDataReq"@,
        "XmitDataAns"@,
    ]
}

/// No optional member shares its name with a required one.
pub proof fn lemma_optional_keys_are_not_required()
    ensures
        forall|i: int, j: int|
            0 <= i < optional_keys().len() && 0 <= j < required_keys().len()
                ==> #[trigger] optional_keys()[i] != #[trigger] required_keys()[j],
{
    reveal_strlit("CtxID");
    reveal_strlit("PublishAt");
    reveal_strlit("CreatedAt");
    reveal_strlit("LogSource");
    reveal_strlit("SourceID");
    reveal_strlit("LogDestination");
    reveal_strlit("DestinationID");
    reveal_strlit("FrameStatus");
    reveal_strlit("TimeOnAir");
    reveal_strlit("DevAddr");
    reveal_strlit("DevEUI");
    reveal_strlit("KnownDevice");
    reveal_strlit("RXPacket");
    reveal_strlit("TXPacket");
    reveal_strlit("TXAck");
    reveal_strlit("JoinReq");
    reveal_strlit("JoinAns");
    reveal_strlit("PRStartReq");
    reveal_strlit("PRStartAns");
    reveal_strlit("HomeNSReq");
    reveal_strlit("HomeNSAns");
    reveal_strlit("XmitDataReq");
    reveal_strlit("XmitDataAns");
    assert forall|i: int, j: int|
        0 <= i < optional_keys().len() && 0 <= j < required_keys().len()
            implies #[trigger] optional_keys()[i] != #[trigger] required_keys()[j] by {
        let a = optional_keys()[i];
        let b = required_keys()[j];
        if a.len() == b.len() {
            assert(a[0] != b[0] || a[1] != b[1] || a[2] != b[2]);
        }
    }
}

/// A record that carries no sub-event is written with the twelve required
/// members and nothing else: none of the optional names occurs in it, not
/// even with an empty value.
pub proof fn lemma_bare_record_omits_optional_members(
    e: LogEntry,
    publish_at: Seq<char>,
    created_at: Seq<char>,
)
    requires
        e.is_bare(),
    ensures
        log_entry_fields(e, publish_at, created_at) == required_fields(e, publish_at, created_at),
        keys(log_entry_fields(e, publish_at, created_at)) == required_keys(),
        forall|i: int|
            0 <= i < optional_keys().len() ==> !keys(
                log_entry_fields(e, publish_at, created_at),
            ).contains(#[trigger] optional_keys()[i]),
{
    let fields = log_entry_fields(e, publish_at, created_at);
    assert(fields == required_fields(e, publish_at, created_at));
    assert(keys(fields) =~= required_keys());
    lemma_optional_keys_are_not_required();
}

/// What there is to write for each optional member, in the order of
/// `optional_keys`.
pub open spec fn optional_values(e: LogEntry) -> Seq<Option<Seq<u8>>> {
    seq![
        rx_packet_value(e.rx_packet),
        tx_packets_value(e.tx_packet@),
        tx_packet_value(e.tx_ack),
        document_value(e.join_req),
        document_value(e.join_ans),
        document_value(e.pr_start_req),
        document_value(e.pr_start_ans),
        document_value(e.home_ns_req),
        document_value(e.home_ns_ans),
        document_value(e.xmit_data_req),
        document_value(e.xmit_data_ans),
    ]
}

/// No two optional members share a name.
pub proof fn lemma_optional_keys_are_distinct()
    ensures
        optional_keys().no_duplicates(),
{
    reveal_strlit("RXPacket");
    reveal_strlit("TXPacket");
    reveal_strlit("TXAck");
    reveal_strlit("JoinReq");
    reveal_strlit("JoinAns");
    reveal_strlit("PRStartReq");
    reveal_strlit("PRStartAns");
    reveal_strlit("HomeNSReq");
    reveal_strlit("HomeNSAns");
    reveal_strlit("XmitDataReq");
    reveal_strlit("XmitDataAns");
    assert forall|i: int, j: int|
        0 <= i < optional_keys().len() && 0 <= j < optional_keys().len() && i != j
            implies optional_keys()[i] != optional_keys()[j] by {
        let a = optional_keys()[i];
        let b = optional_keys()[j];
        if a.len() == b.len() {
            assert(a[0] != b[0] || a[4] != b[4] || a[6] != b[6] || a[8] != b[8]);
        }
    }
}

proof fn lemma_with_optional_contains(
    fields: Seq<Field>,
    key: Seq<char>,
    value: Option<Seq<u8>>,
    k: Seq<char>,
)
    ensures
        keys(with_optional(fields, key, value)).contains(k) <==> (keys(fields).contains(k) || (
        value is Some && key == k)),
{
    let after = with_optional(fields, key, value);
    if value is Some {
        assert(keys(after) =~= keys(fields).push(key));
        if keys(fields).contains(k) {
            let j = choose|j: int| 0 <= j < keys(fields).len() && keys(fields)[j] == k;
            assert(keys(after)[j] == k);
        }
        if key == k {
            assert(keys(after)[fields.len() as int] == k);
        }
        if keys(after).contains(k) {
            let j = choose|j: int| 0 <= j < keys(after).len() && keys(after)[j] == k;
            if j < fields.len() {
                assert(keys(fields)[j] == k);
            }
        }
    }
}

/// The required members followed by each optional one for which there is a
/// value, the values taken in the order of `optional_keys`.
pub open spec fn with_optionals(required: Seq<Field>, values: Seq<Option<Seq<u8>>>) -> Seq<Field> {
    let f1 = with_optional(required, "RXPacket"@, values[0]);
    let f2 = with_optional(f1, "TXPacket"@, values[1]);
    let f3 = with_optional(f2, "TXAck"@, values[2]);
    let f4 = with_optional(f3, "JoinReq"@, values[3]);
    let f5 = with_optional(f4, "JoinAns"@, values[4]);
    let f6 = with_optional(f5, "PRStartReq"@, values[5]);
    let f7 = with_optional(f6, "PRStartAns"@, values[6]);
    let f8 = with_optional(f7, "HomeNSReq"@, values[7]);
    let f9 = with_optional(f8, "HomeNSAns"@, values[8]);
    let f10 = with_optional(f9, "XmitDataReq"@, values[9]);
    with_optional(f10, "XmitDataAns"@, values[10])
}

proof fn lemma_with_optionals_contains(
    required: Seq<Field>,
    values: Seq<Option<Seq<u8>>>,
    k: Seq<char>,
)
    requires
        values.len() == optional_keys().len(),
    ensures
        keys(with_optionals(required, values)).contains(k) <==> (keys(required).contains(k)
            || exists|j: int|
            0 <= j < values.len() && #[trigger] optional_keys()[j] == k && values[j] is Some),
{
    let f1 = with_optional(required, "RXPacket"@, values[0]);
    let f2 = with_optional(f1, "TXPacket"@, values[1]);
    let f3 = with_optional(f2, "TXAck"@, values[2]);
    let f4 = with_optional(f3, "JoinReq"@, values[3]);
    let f5 = with_optional(f4, "JoinAns"@, values[4]);
    let f6 = with_optional(f5, "PRStartReq"@, values[5]);
    let f7 = with_optional(f6, "PRStartAns"@, values[6]);
    let f8 = with_optional(f7, "HomeNSReq"@, values[7]);
    let f9 = with_optional(f8, "HomeNSAns"@, values[8]);
    let f10 = with_optional(f9, "XmitDataReq"@, values[9]);
    lemma_with_optional_contains(required, "RXPacket"@, values[0], k);
    lemma_with_optional_contains(f1, "TXPacket"@, values[1], k);
    lemma_with_optional_contains(f2, "TXAck"@, values[2], k);
    lemma_with_optional_contains(f3, "JoinReq"@, values[3], k);
    lemma_with_optional_contains(f4, "JoinAns"@, values[4], k);
    lemma_with_optional_contains(f5, "PRStartReq"@, values[5], k);
    lemma_with_optional_contains(f6, "PRStartAns"@, values[6], k);
    lemma_with_optional_contains(f7, "HomeNSReq"@, values[7], k);
    lemma_with_optional_contains(f8, "HomeNSAns"@, values[8], k);
    lemma_with_optional_contains(f9, "XmitDataReq"@, values[9], k);
    lemma_with_optional_contains(f10, "XmitDataAns"@, values[10], k);
    assert(optional_keys()[0] == "RXPacket"@);
    assert(optional_keys()[1] == "TXPacket"@);
    assert(optional_keys()[2] == "TXAck"@);
    assert(optional_keys()[3] == "JoinReq"@);
    assert(optional_keys()[4] == "JoinAns"@);
    assert(optional_keys()[5] == "PRStartReq"@);
    assert(optional_keys()[6] == "PRStartAns"@);
    assert(optional_keys()[7] == "HomeNSReq"@);
    assert(optional_keys()[8] == "HomeNSAns"@);
    assert(optional_keys()[9] == "XmitDataReq"@);
    assert(optional_keys()[10] == "XmitDataAns"@);
}

proof fn lemma_optional_written_iff_value(
    required: Seq<Field>,
    values: Seq<Option<Seq<u8>>>,
    i: int,
)
    requires
        values.len() == optional_keys().len(),
        0 <= i < optional_keys().len(),
        !keys(required).contains(optional_keys()[i]),
    ensures
        keys(with_optionals(required, values)).contains(optional_keys()[i]) <==> values[i]
            is Some,
{
    let k = optional_keys()[i];
    lemma_with_optionals_contains(required, values, k);
    lemma_optional_keys_are_distinct();
    if values[i] is Some {
        assert(optional_keys()[i] == k && values[i] is Some);
    }
    if keys(with_optionals(required, values)).contains(k) {
        let j = choose|j: int|
            0 <= j < values.len() && #[trigger] optional_keys()[j] == k && values[j] is Some;
        assert(j == i);
    }
}

proof fn lemma_required_fields_have_no_optional_key(
    e: LogEntry,
    publish_at: Seq<char>,
    created_at: Seq<char>,
    i: int,
)
    requires
        0 <= i < optional_keys().len(),
    ensures
        !keys(required_fields(e, publish_at, created_at)).contains(optional_keys()[i]),
{
    let required = required_fields(e, publish_at, created_at);
    let k = optional_keys()[i];
    lemma_optional_keys_are_not_required();
    assert(keys(required) =~= required_keys());
    if keys(required).contains(k) {
        let j = choose|j: int| 0 <= j < keys(required).len() && keys(required)[j] == k;
        assert(optional_keys()[i] != required_keys()[j]);
    }
}

/// The members of a record are the required ones, then the optional ones
/// that have a value.
pub proof fn lemma_fields_are_required_then_optional(
    e: LogEntry,
    publish_at: Seq<char>,
    created_at: Seq<char>,
)
    ensures
        log_entry_fields(e, publish_at, created_at) == with_optionals(
            required_fields(e, publish_at, created_at),
            optional_values(e),
        ),
        optional_values(e).len() == optional_keys().len(),
{
}

/// Each optional member is written exactly where there is something to
/// write for it: a present one is never left out, an absent one never
/// written.
pub proof fn lemma_optional_member_written_iff_present(
    e: LogEntry,
    publish_at: Seq<char>,
    created_at: Seq<char>,
    i: int,
)
    requires
        0 <= i < optional_keys().len(),
    ensures
        keys(log_entry_fields(e, publish_at, created_at)).contains(optional_keys()[i])
            <==> optional_values(e)[i] is Some,
{
    lemma_fields_are_required_then_optional(e, publish_at, created_at);
    lemma_required_fields_have_no_optional_key(e, publish_at, created_at, i);
    lemma_optional_written_iff_value(
        required_fields(e, publish_at, created_at),
        optional_values(e),
        i,
    );
}

} // verus!
