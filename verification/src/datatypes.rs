use crate::airtime::{Airtime, Ratio};
use crate::encoding::{append_hex, hex_lower, member_texts, object, Field};
use crate::wire::rfc3339_text;
use vstd::prelude::*;

verus! {

/// A LoRaWAN device address, most significant byte first.
pub type DevAddr = [u8; 4];

/// A 64-bit extended unique identifier, most significant byte first.
pub type EUI64 = [u8; 8];

/// A LoRaWAN network identifier, most significant byte first.
pub type NetID = [u8; 3];

/// A 128-bit universally unique identifier, most significant byte first.
pub type Uuid = [u8; 16];

/// The logical role that the source or the destination of a record plays.
#[derive(Clone, Copy, Debug, PartialEq, Eq, Structural)]
pub enum Endpoint {
    Gateway,
    Local,
    Roaming,
    JoinServer,
}

impl Default for Endpoint {
    fn default() -> (e: Self)
        ensures
            e == Endpoint::Local,
    {
        Endpoint::Local
    }
}

/// How the logged exchange ended.
#[allow(clippy::upper_case_acronyms)]
#[derive(Clone, Copy, Debug, PartialEq, Eq, Structural)]
pub enum FrameStatusResult {
    OK,
    NOK,
    WARN,
}

impl Default for FrameStatusResult {
    fn default() -> (r: Self)
        ensures
            r == FrameStatusResult::NOK,
    {
        FrameStatusResult::NOK
    }
}

/// Outcome of an exchange with a free-text description.
#[derive(Clone, Debug)]
pub struct FrameStatus {
    pub result: FrameStatusResult,
    pub error_desc: String,
}

impl FrameStatus {
    /// The status that an unfinished record carries: a failure without a
    /// description, so that it never reads as success.
    pub open spec fn is_fail_closed(&self) -> bool {
        self.result == FrameStatusResult::NOK && self.error_desc@.len() == 0
    }
}

impl Default for FrameStatus {
    fn default() -> (s: Self)
        ensures
            s.is_fail_closed(),
    {
        FrameStatus { result: FrameStatusResult::default(), error_desc: String::new() }
    }
}

/// A point in time: whole seconds since 1970-01-01T00:00:00Z and the
/// nanoseconds since the last whole second.
#[derive(Clone, Copy, Debug, PartialEq, Eq, Structural)]
pub struct Timestamp {
    pub secs: i64,
    pub nanos: u32,
}

impl Default for Timestamp {
    fn default() -> (t: Self)
        ensures
            t == (Timestamp { secs: 0, nanos: 0 }),
    {
        Timestamp { secs: 0, nanos: 0 }
    }
}

/// A value that a collaborator has already serialised. The record carries it
/// through unread and places it in the wire form as it stands.
#[derive(Clone, Debug)]
pub struct Document {
    pub text: Vec<u8>,
}

impl View for Document {
    type V = Seq<u8>;

    open spec fn view(&self) -> Seq<u8> {
        self.text@
    }
}

impl Default for Document {
    /// The object without members.
    fn default() -> (d: Self)
        ensures
            d@ == object(Seq::<Field>::empty()),
    {
        let mut text: Vec<u8> = Vec::new();
        text.push(0x7b);
        text.push(0x7d);
        assert(text@ =~= object(Seq::<Field>::empty())) by {
            assert(member_texts(Seq::<Field>::empty()).len() == 0);
        }
        Document { text }
    }
}

/// The two roaming envelopes that accompany a frame exchanged with a partner
/// network.
#[derive(Clone, Debug)]
pub struct RoamingMetaData {
    pub base_payload: Document,
    pub ul_meta_data: Document,
}

impl Default for RoamingMetaData {
    /// Two envelopes that say nothing.
    fn default() -> (r: Self)
        ensures
            r.base_payload@ == object(Seq::<Field>::empty()),
            r.ul_meta_data@ == object(Seq::<Field>::empty()),
    {
        RoamingMetaData { base_payload: Document::default(), ul_meta_data: Document::default() }
    }
}

/// A frame as the record holds it: its encoding, where the codec could
/// produce one, and its decoded form as the codec serialises it.
#[derive(Clone, Debug)]
pub struct PhyPayload {
    pub encoded: Option<Vec<u8>>,
    pub decoded: Document,
}

/// Summary of one received uplink.
#[derive(Clone, Debug)]
pub struct RxPacket {
    pub dr: i64,
    pub tx_info: Option<Document>,
    pub rx_info_set: Vec<Document>,
    /// For each gateway, whether it belongs to a private network. No gateway
    /// occurs twice.
    pub gateway_is_private: Vec<(EUI64, bool)>,
    /// For each gateway, the tenant that owns it. No gateway occurs twice.
    pub gateway_service_profile: Vec<(EUI64, Uuid)>,
    pub roaming_meta_data: Option<RoamingMetaData>,
}

/// The gateways of a list of entries, in order.
pub open spec fn gateway_ids<V>(entries: Seq<(EUI64, V)>) -> Seq<Seq<u8>> {
    entries.map_values(|p: (EUI64, V)| p.0@)
}

/// Whether `gateway` has an entry in the list.
pub open spec fn has_gateway<V>(entries: Seq<(EUI64, V)>, gateway: Seq<u8>) -> bool {
    exists|i: int| 0 <= i < entries.len() && (#[trigger] entries[i]).0@ == gateway
}

impl RxPacket {
    /// No gateway occurs twice in either of the two lists.
    pub open spec fn wf(&self) -> bool {
        &&& gateway_ids(self.gateway_is_private@).no_duplicates()
        &&& gateway_ids(self.gateway_service_profile@).no_duplicates()
    }
}

fn same_bytes(a: &[u8], b: &[u8]) -> (same: bool)
    ensures
        same == (a@ == b@),
{
    if a.len() != b.len() {
        return false;
    }
    let mut i: usize = 0;
    while i < a.len()
        invariant
            i <= a.len(),
            a.len() == b.len(),
            a@.take(i as int) == b@.take(i as int),
        decreases a.len() - i,
    {
        if a[i] != b[i] {
            return false;
        }
        assert(a@.take(i + 1) =~= a@.take(i as int).push(a@[i as int]));
        assert(b@.take(i + 1) =~= b@.take(i as int).push(b@[i as int]));
        i += 1;
    }
    assert(a@.take(a.len() as int) =~= a@);
    assert(b@.take(b.len() as int) =~= b@);
    true
}

/// Gives `gateway` the value `value` in a list that names no gateway twice:
/// the entry of `gateway` is replaced where it stands, and a new entry goes
/// to the end where there was none.
pub fn assign<V>(entries: &mut Vec<(EUI64, V)>, gateway: EUI64, value: V)
    requires
        gateway_ids(old(entries)@).no_duplicates(),
    ensures
        gateway_ids(final(entries)@).no_duplicates(),
        forall|i: int|
            0 <= i < old(entries)@.len() && (#[trigger] old(entries)@[i]).0@ == gateway@
                ==> final(entries)@ == old(entries)@.update(i, (gateway, value)),
        !has_gateway(old(entries)@, gateway@) ==> final(entries)@ == old(entries)@.push(
            (gateway, value),
        ),
{
    let mut i: usize = 0;
    while i < entries.len()
        invariant
            i <= entries.len(),
            entries@ == old(entries)@,
            gateway_ids(entries@).no_duplicates(),
            forall|j: int| 0 <= j < i ==> (#[trigger] entries@[j]).0@ != gateway@,
        decreases entries.len() - i,
    {
        if same_bytes(entries[i].0.as_slice(), gateway.as_slice()) {
            let ghost before = entries@;
            entries[i] = (gateway, value);
            proof {
                let after = entries@;
                assert(after =~= before.update(i as int, (gateway, value)));
                assert(gateway_ids(after) =~= gateway_ids(before));
                assert forall|k: int|
                    0 <= k < before.len() && (#[trigger] before[k]).0@ == gateway@ implies after
                    == before.update(k, (gateway, value)) by {
                    if k != i {
                        assert(gateway_ids(before)[k] == gateway_ids(before)[i as int]);
                    }
                }
                assert(has_gateway(before, gateway@));
            }
            return;
        }
        i += 1;
    }
    let ghost before = entries@;
    entries.push((gateway, value));
    proof {
        let after = entries@;
        assert(gateway_ids(after) =~= gateway_ids(before).push(gateway@));
        assert forall|a: int, b: int|
            0 <= a < gateway_ids(after).len() && 0 <= b < gateway_ids(after).len() && a != b
                implies gateway_ids(after)[a] != gateway_ids(after)[b] by {
            if a < before.len() && b < before.len() {
                assert(gateway_ids(before)[a] != gateway_ids(before)[b]);
            } else if a < before.len() {
                assert(before[a].0@ != gateway@);
            } else {
                assert(before[b].0@ != gateway@);
            }
        }
    }
}

/// Summary of one transmitted or acknowledged downlink.
#[derive(Clone, Debug)]
pub struct TxPacket {
    pub phy_payload: PhyPayload,
    pub downlink_tx_info: Option<Document>,
    pub time_on_air: Airtime,
}

/// One audit record.
#[derive(Clone, Debug)]
pub struct LogEntry {
    pub ctx_id: Uuid,
    pub publish_at: Timestamp,
    pub created_at: Timestamp,
    pub log_source: Endpoint,
    pub source_id: String,
    pub log_destination: Endpoint,
    pub destination_id: String,
    pub frame_status: FrameStatus,
    pub time_on_air: Airtime,
    pub dev_addr: DevAddr,
    pub dev_eui: EUI64,
    pub known_device: bool,
    pub rx_packet: Option<RxPacket>,
    pub tx_packet: Vec<TxPacket>,
    pub tx_ack: Option<TxPacket>,
    pub join_req: Option<Document>,
    pub join_ans: Option<Document>,
    pub pr_start_req: Option<Document>,
    pub pr_start_ans: Option<Document>,
    pub home_ns_req: Option<Document>,
    pub home_ns_ans: Option<Document>,
    pub xmit_data_req: Option<Document>,
    pub xmit_data_ans: Option<Document>,
}

/// One if the condition holds, zero if not.
pub open spec fn count(present: bool) -> nat {
    if present {
        1
    } else {
        0
    }
}

impl LogEntry {
    /// The record carries no sub-event at all: every optional field is
    /// absent and every collection is empty.
    pub open spec fn is_bare(&self) -> bool {
        &&& self.rx_packet is None
        &&& self.tx_packet@.len() == 0
        &&& self.tx_ack is None
        &&& self.join_req is None
        &&& self.join_ans is None
        &&& self.pr_start_req is None
        &&& self.pr_start_ans is None
        &&& self.home_ns_req is None
        &&& self.home_ns_ans is None
        &&& self.xmit_data_req is None
        &&& self.xmit_data_ans is None
    }

    /// Number of kinds of protocol transaction of which the record carries
    /// a request or an answer: join, roaming start, home network server,
    /// data transmission.
    pub open spec fn transactions(&self) -> nat {
        count(self.join_req is Some || self.join_ans is Some) + count(
            self.pr_start_req is Some || self.pr_start_ans is Some,
        ) + count(self.home_ns_req is Some || self.home_ns_ans is Some) + count(
            self.xmit_data_req is Some || self.xmit_data_ans is Some,
        )
    }

    /// A record stands for at most one protocol transaction.
    pub open spec fn wf(&self) -> bool {
        self.transactions() <= 1
    }

    /// Everything but the creation time and the two ends of the exchange
    /// is as in a record that nothing was attached to yet.
    pub open spec fn is_fresh(&self) -> bool {
        &&& self.is_bare()
        &&& self.frame_status.is_fail_closed()
        &&& self.ctx_id@ == Seq::new(16, |i: int| 0u8)
        &&& self.publish_at == (Timestamp { secs: 0, nanos: 0 })
        &&& self.time_on_air@ == (Ratio { numerator: 0, denominator: 1 })
        &&& self.dev_addr@ == Seq::new(4, |i: int| 0u8)
        &&& self.dev_eui@ == Seq::new(8, |i: int| 0u8)
        &&& !self.known_device
    }

    /// Whether the record stands for at most one protocol transaction.
    pub fn is_wf(&self) -> (ok: bool)
        ensures
            ok == self.wf(),
    {
        let join: u8 = if self.join_req.is_some() || self.join_ans.is_some() { 1 } else { 0 };
        let start: u8 = if self.pr_start_req.is_some() || self.pr_start_ans.is_some() {
            1
        } else {
            0
        };
        let home: u8 = if self.home_ns_req.is_some() || self.home_ns_ans.is_some() { 1 } else { 0 };
        let xmit: u8 = if self.xmit_data_req.is_some() || self.xmit_data_ans.is_some() {
            1
        } else {
            0
        };
        join + start + home + xmit <= 1
    }
}

impl Default for LogEntry {
    fn default() -> (e: Self)
        ensures
            e.is_fresh(),
            e.created_at == (Timestamp { secs: 0, nanos: 0 }),
            e.log_source == Endpoint::Local,
            e.log_destination == Endpoint::Local,
            e.source_id@.len() == 0,
            e.destination_id@.len() == 0,
    {
        LogEntryBuilder::at(Timestamp::default()).build()
    }
}

/// Reads the clock through `chrono::Utc::now` and hands the instant back as
/// the seconds and nanoseconds since the epoch (`DateTime::timestamp`,
/// `DateTime::timestamp_subsec_nanos`). Which instant that is, nobody can
/// say beforehand. The contract claims one thing of it: it is an instant
/// that `chrono` knows, since `chrono` documents that these two numbers,
/// taken from any of its instants, give the same instant back through
/// `DateTime::from_timestamp`. `Utc::now` panics where the system clock
/// stands before 1970.
#[verifier::external_body]
fn clock_now() -> (t: Timestamp)
    ensures
        rfc3339_text(t.secs as int, t.nanos as int) is Some,
{
    let now = chrono::Utc::now();
    Timestamp { secs: now.timestamp(), nanos: now.timestamp_subsec_nanos() }
}

impl Timestamp {
    /// The present instant. Whatever the clock says, it is an instant that
    /// has a date, so that a record stamped with it can be written.
    pub fn now() -> (t: Timestamp)
        ensures
            t.has_date(),
    {
        clock_now()
    }

    /// The instant is one that has a date and can be written as such.
    pub open spec fn has_date(&self) -> bool {
        rfc3339_text(self.secs as int, self.nanos as int) is Some
    }
}

/// A record under construction: when it was created, and between which two
/// ends the exchange took place.
#[derive(Debug)]
pub struct LogEntryBuilder {
    pub created_at: Timestamp,
    pub log_source: Endpoint,
    pub source_id: String,
    pub log_destination: Endpoint,
    pub destination_id: String,
}

impl Default for LogEntryBuilder {
    /// A builder whose record was created at the epoch.
    fn default() -> (b: Self)
        ensures
            b.is_initial(),
            b.created_at == (Timestamp { secs: 0, nanos: 0 }),
    {
        LogEntryBuilder::at(Timestamp::default())
    }
}

impl LogEntryBuilder {
    /// The builder says no more than when it was made.
    pub open spec fn is_initial(&self) -> bool {
        &&& self.log_source == Endpoint::Local
        &&& self.log_destination == Endpoint::Local
        &&& self.source_id@.len() == 0
        &&& self.destination_id@.len() == 0
    }

    /// A builder whose record is created now: at an instant that has a date,
    /// whatever the clock says.
    pub fn new() -> (b: Self)
        ensures
            b.is_initial(),
            b.created_at.has_date(),
    {
        LogEntryBuilder::at(Timestamp::now())
    }

    /// A builder whose record was created at `created_at`.
    pub fn at(created_at: Timestamp) -> (b: Self)
        ensures
            b.is_initial(),
            b.created_at == created_at,
    {
        LogEntryBuilder {
            created_at,
            log_source: Endpoint::default(),
            source_id: String::new(),
            log_destination: Endpoint::default(),
            destination_id: String::new(),
        }
    }

    /// Names the role of the source.
    pub fn log_source(self, v: Endpoint) -> (b: Self)
        ensures
            b.log_source == v,
            b.created_at == self.created_at,
            b.source_id == self.source_id,
            b.log_destination == self.log_destination,
            b.destination_id == self.destination_id,
    {
        let mut b = self;
        b.log_source = v;
        b
    }

    /// Names the role of the destination.
    pub fn log_destination(self, v: Endpoint) -> (b: Self)
        ensures
            b.log_destination == v,
            b.created_at == self.created_at,
            b.log_source == self.log_source,
            b.source_id == self.source_id,
            b.destination_id == self.destination_id,
    {
        let mut b = self;
        b.log_destination = v;
        b
    }

    /// Names this network, `net_id`, as the destination: its six lowercase
    /// hexadecimal digits.
    pub fn our_desitnation_id(self, net_id: NetID) -> (b: Self)
        ensures
            b.destination_id@ == hex_lower(net_id@),
            b.created_at == self.created_at,
            b.log_source == self.log_source,
            b.source_id == self.source_id,
            b.log_destination == self.log_destination,
    {
        let mut b = self;
        let mut digits = String::new();
        append_hex(&mut digits, net_id.as_slice());
        assert(digits@ =~= hex_lower(net_id@));
        b.destination_id = digits;
        b
    }

    /// Names the source.
    pub fn source_id(self, v: String) -> (b: Self)
        ensures
            b.source_id == v,
            b.created_at == self.created_at,
            b.log_source == self.log_source,
            b.log_destination == self.log_destination,
            b.destination_id == self.destination_id,
    {
        let mut b = self;
        b.source_id = v;
        b
    }

    /// The record that the builder describes, with nothing attached to it.
    pub fn build(self) -> (e: LogEntry)
        ensures
            e.created_at == self.created_at,
            e.log_source == self.log_source,
            e.source_id == self.source_id,
            e.log_destination == self.log_destination,
            e.destination_id == self.destination_id,
            e.is_fresh(),
            e.wf(),
    {
        let e = LogEntry {
            ctx_id: [0u8; 16],
            publish_at: Timestamp::default(),
            created_at: self.created_at,
            log_source: self.log_source,
            source_id: self.source_id,
            log_destination: self.log_destination,
            destination_id: self.destination_id,
            frame_status: FrameStatus::default(),
            time_on_air: Airtime::zero(),
            dev_addr: [0u8; 4],
            dev_eui: [0u8; 8],
            known_device: false,
            rx_packet: None,
            tx_packet: Vec::new(),
            tx_ack: None,
            join_req: None,
            join_ans: None,
            pr_start_req: None,
            pr_start_ans: None,
            home_ns_req: None,
            home_ns_ans: None,
            xmit_data_req: None,
            xmit_data_ans: None,
        };
        assert(e.ctx_id@ =~= Seq::new(16, |i: int| 0u8));
        assert(e.dev_addr@ =~= Seq::new(4, |i: int| 0u8));
        assert(e.dev_eui@ =~= Seq::new(8, |i: int| 0u8));
        e
    }
}

} // verus!
