use vstd::prelude::*;

use crate::echonet::enums::{EchonetObject, EchonetProperty, EchonetService,
    EchonetSmartMeterProperty, EchonetSuperClassProperty};
use crate::echonet::packet::{packet_wf, spec_dump_packet, spec_parse_packet, EchonetPacket,
    Edata, Property, SpecEdata, SpecPacket, SpecProperty};
use crate::echonet::property_map::PropertyMap;
use crate::ipv6::{lemma_ipv6_ascii, spec_ipv6_chars, Ipv6Addr};
use crate::parser::event::{EventKind, PanDescBody, SpecPanDesc, SpecWiSunEvent, WiSunEvent};
use crate::parser::messages::{ParseResult, SerialMessage, SpecSerialMessage};
use crate::parser::parser::{spec_add_line, WiSunModuleParser};
use crate::serial::errors::Error as SerialError;
use crate::serial::traits::{Connection, ReadEntry};
use crate::text::{ascii_chars_of, hex_nopad_ascii, lemma_hex_nopad_ascii, push_hex4,
    push_hex_nopad};
use crate::wisun_module::errors::{Error, Result};

verus! {

/// The UDP port ECHONET Lite uses.
pub const ECHONET_PORT: u16 = 0x0E1A;

/// Relies on `rand::random`: a fresh transaction id.  Nothing is promised
/// of the drawn value.
#[verifier::external_body]
fn random_u16() -> u16 {
    rand::random()
}

/// Which buffered or arriving message a wait is for.
#[derive(Debug, PartialEq, Eq, Structural, Copy, Clone)]
pub enum MessagePredicate {
    /// The module's `OK` acknowledgement.
    IsAck,
    /// An `EVER` version report.
    IsVersion,
    /// An `EVENT` line of the given kind.
    IsEventOf(EventKind),
    /// A reassembled `EPANDESC` block.
    IsPanDesc,
}

impl MessagePredicate {
    /// Whether the message is what the wait is for.
    pub open spec fn matches(self, m: SpecSerialMessage) -> bool {
        match self {
            MessagePredicate::IsAck => m is Ack,
            MessagePredicate::IsVersion => m matches SpecSerialMessage::Event(
                SpecWiSunEvent::Version(_),
            ),
            MessagePredicate::IsEventOf(k) => m matches SpecSerialMessage::Event(
                SpecWiSunEvent::Event(b),
            ) && b.kind == k,
            MessagePredicate::IsPanDesc => m matches SpecSerialMessage::Event(
                SpecWiSunEvent::PanDesc(_),
            ),
        }
    }

    /// Test a message against the predicate.
    pub fn check(&self, m: &SerialMessage) -> (r: bool)
        ensures
            r == self.matches(m@),
    {
        match self {
            MessagePredicate::IsAck => matches!(m, SerialMessage::Ack),
            MessagePredicate::IsVersion => matches!(
                m,
                SerialMessage::Event(WiSunEvent::Version(_))
            ),
            MessagePredicate::IsEventOf(k) => match m {
                SerialMessage::Event(WiSunEvent::Event(b)) => b.kind.eq_code(*k),
                _ => false,
            },
            MessagePredicate::IsPanDesc => matches!(
                m,
                SerialMessage::Event(WiSunEvent::PanDesc(_))
            ),
        }
    }
}

/// Which interleaved messages abort the current wait.
#[derive(Debug, PartialEq, Eq, Structural, Copy, Clone)]
pub enum ErrPolicy {
    /// Only a `FAIL` reply aborts.
    FailOnly,
    /// A `FAIL` reply or a PANA connection error event aborts.
    FailOrPanaError,
}

impl ErrPolicy {
    /// The reason the message carries when it aborts the wait.
    pub open spec fn spec_trigger(self, m: SpecSerialMessage) -> Option<Seq<char>> {
        match m {
            SpecSerialMessage::Fail(s) => Some(s),
            SpecSerialMessage::Event(SpecWiSunEvent::Event(b)) => if self
                == ErrPolicy::FailOrPanaError && b.kind == EventKind::ErrorOnPanaConnection {
                Some("failed to connect to pana"@)
            } else {
                None
            },
            _ => None,
        }
    }

    /// Test a message against the policy.
    pub fn check(&self, m: &SerialMessage) -> (r: Option<String>)
        ensures
            match r {
                Some(s) => self.spec_trigger(m@) == Some(s@),
                None => self.spec_trigger(m@) is None,
            },
    {
        match m {
            SerialMessage::Fail(s) => Some(s.clone()),
            SerialMessage::Event(WiSunEvent::Event(b)) => {
                let pana = matches!(self, ErrPolicy::FailOrPanaError) && b.kind.eq_code(
                    EventKind::ErrorOnPanaConnection,
                );
                if pana {
                    Some(String::from_str("failed to connect to pana"))
                } else {
                    None
                }
            },
            _ => None,
        }
    }
}

impl EventKind {
    /// Compare two kinds by their wire codes.
    pub fn eq_code(&self, other: EventKind) -> (r: bool)
        ensures
            r == (*self == other),
    {
        match (self, other) {
            (EventKind::FinishedUdpSend, EventKind::FinishedUdpSend) => true,
            (EventKind::FinishedActiveScan, EventKind::FinishedActiveScan) => true,
            (EventKind::ErrorOnPanaConnection, EventKind::ErrorOnPanaConnection) => true,
            (EventKind::EstablishedPanaConnection, EventKind::EstablishedPanaConnection) => true,
            _ => false,
        }
    }
}

/// The index of the first buffered message the predicate accepts.
pub open spec fn spec_first_match(buf: Seq<SpecSerialMessage>, pred: MessagePredicate) -> Option<
    int,
>
    decreases buf.len(),
{
    if buf.len() == 0 {
        None
    } else if pred.matches(buf[0]) {
        Some(0)
    } else {
        match spec_first_match(buf.drop_first(), pred) {
            Some(i) => Some(i + 1),
            None => None,
        }
    }
}

/// What one `get_message` call yields, at the model level.
pub enum GmOutcome {
    /// A finished message was pushed onto the buffer.
    GotMsg(SpecSerialMessage),
    /// The line was empty.
    GotEmpty,
    /// The read failed.
    GotErr(SerialError),
}

/// The model of one `get_message` call: how many entries it consumes, the
/// parser state it leaves, and its outcome.
pub open spec fn spec_get_message(
    pending: Option<Seq<char>>,
    entries: Seq<ReadEntry>,
) -> (nat, Option<Seq<char>>, GmOutcome)
    decreases entries.len(),
{
    if entries.len() == 0 {
        (0, pending, GmOutcome::GotErr(SerialError::Closed))
    } else {
        match entries[0] {
            ReadEntry::Failed(e) => (1, pending, GmOutcome::GotErr(e)),
            ReadEntry::Line(l) => {
                let st = spec_add_line(pending, l);
                match st.1 {
                    crate::parser::messages::SpecParseResult::Done(m) => (
                        1,
                        st.0,
                        GmOutcome::GotMsg(m),
                    ),
                    crate::parser::messages::SpecParseResult::Empty => (
                        1,
                        st.0,
                        GmOutcome::GotEmpty,
                    ),
                    _ => {
                        let rec = spec_get_message(st.0, entries.drop_first());
                        ((rec.0 + 1) as nat, rec.1, rec.2)
                    },
                }
            },
        }
    }
}

/// A `get_message` consumes an entry whenever one is there.
pub proof fn lemma_gm_progress(pending: Option<Seq<char>>, entries: Seq<ReadEntry>)
    ensures
        entries.len() > 0 ==> spec_get_message(pending, entries).0 >= 1,
        entries.len() == 0 ==> spec_get_message(pending, entries) == (
            0nat,
            pending,
            GmOutcome::GotErr(SerialError::Closed),
        ),
        spec_get_message(pending, entries).0 <= entries.len(),
    decreases entries.len(),
{
    if entries.len() > 0 {
        match entries[0] {
            ReadEntry::Failed(_) => {},
            ReadEntry::Line(l) => {
                let st = spec_add_line(pending, l);
                lemma_gm_progress(st.0, entries.drop_first());
            },
        }
    }
}

/// What a whole wait yields, at the model level.
pub enum WaitOutcome {
    /// The first matching message.
    Found(SpecSerialMessage),
    /// A message the abort policy flagged, with its reason.
    Aborted(Seq<char>),
    /// The read failed for good.
    Fatal(SerialError),
    /// The stream ended before a match.
    Exhausted,
}

/// The model of a whole wait: how many entries it consumes, the parser
/// state it leaves, the non-matching messages it leaves buffered in
/// order, and its outcome.
pub open spec fn spec_wait(
    pending: Option<Seq<char>>,
    entries: Seq<ReadEntry>,
    pred: MessagePredicate,
    pol: ErrPolicy,
) -> (nat, Option<Seq<char>>, Seq<SpecSerialMessage>, WaitOutcome)
    decreases entries.len(),
    via spec_wait_decreases
{
    let gm = spec_get_message(pending, entries);
    match gm.2 {
        GmOutcome::GotMsg(m) => if pred.matches(m) {
            (gm.0, gm.1, Seq::empty(), WaitOutcome::Found(m))
        } else if pol.spec_trigger(m) is Some {
            (gm.0, gm.1, seq![m], WaitOutcome::Aborted(pol.spec_trigger(m).unwrap()))
        } else {
            let rec = spec_wait(gm.1, entries.skip(gm.0 as int), pred, pol);
            ((gm.0 + rec.0) as nat, rec.1, seq![m] + rec.2, rec.3)
        },
        GmOutcome::GotEmpty => {
            let rec = spec_wait(gm.1, entries.skip(gm.0 as int), pred, pol);
            ((gm.0 + rec.0) as nat, rec.1, rec.2, rec.3)
        },
        GmOutcome::GotErr(e) => if e == SerialError::Timeout {
            let rec = spec_wait(gm.1, entries.skip(gm.0 as int), pred, pol);
            ((gm.0 + rec.0) as nat, rec.1, rec.2, rec.3)
        } else if e == SerialError::Closed {
            (gm.0, gm.1, Seq::empty(), WaitOutcome::Exhausted)
        } else {
            (gm.0, gm.1, Seq::empty(), WaitOutcome::Fatal(e))
        },
    }
}

#[via_fn]
proof fn spec_wait_decreases(
    pending: Option<Seq<char>>,
    entries: Seq<ReadEntry>,
    pred: MessagePredicate,
    pol: ErrPolicy,
) {
    lemma_gm_progress(pending, entries);
}

/// The model of a whole wait as the client performs it: take the oldest
/// buffered match if one is there, else run the modelled read loop.  The
/// result is the final buffer, the final parser state, the entries
/// consumed, and the outcome.
pub open spec fn spec_wait_full(
    buf: Seq<SpecSerialMessage>,
    pending: Option<Seq<char>>,
    entries: Seq<ReadEntry>,
    pred: MessagePredicate,
    pol: ErrPolicy,
) -> (Seq<SpecSerialMessage>, Option<Seq<char>>, nat, WaitOutcome) {
    match spec_first_match(buf, pred) {
        Some(i) => (buf.remove(i), pending, 0nat, WaitOutcome::Found(buf[i])),
        None => {
            let w = spec_wait(pending, entries, pred, pol);
            (buf + w.2, w.1, w.0, w.3)
        },
    }
}

/// Whether a message is the datagram answering transaction `tid`: an
/// inbound UDP event whose payload decodes as a packet with that id, from
/// the meter to this controller.
pub open spec fn spec_is_reply<P: EchonetProperty>(m: SpecSerialMessage, tid: u16) -> bool {
    m matches SpecSerialMessage::Event(SpecWiSunEvent::RxUdp(u)) && (spec_parse_packet::<P>(
        u.data,
    ) matches Some(p) && p.transaction_id == tid && p.data.source_object
        == EchonetObject::SmartMeter && p.data.destination_object == EchonetObject::HemsController)
}

/// The packet a reply message carries.
pub open spec fn spec_reply_of<P: EchonetProperty>(m: SpecSerialMessage) -> SpecPacket<P>
    recommends
        exists|tid: u16| spec_is_reply::<P>(m, tid),
{
    match m {
        SpecSerialMessage::Event(SpecWiSunEvent::RxUdp(u)) => spec_parse_packet::<P>(
            u.data,
        ).unwrap(),
        _ => vstd::pervasive::arbitrary(),
    }
}

/// The index of the oldest buffered reply to `tid`.
pub open spec fn spec_first_reply<P: EchonetProperty>(
    buf: Seq<SpecSerialMessage>,
    tid: u16,
) -> Option<int>
    decreases buf.len(),
{
    if buf.len() == 0 {
        None
    } else if spec_is_reply::<P>(buf[0], tid) {
        Some(0)
    } else {
        match spec_first_reply::<P>(buf.drop_first(), tid) {
            Some(i) => Some(i + 1),
            None => None,
        }
    }
}

/// What a packet wait yields, at the model level.
pub enum PacketWait<P> {
    /// The decoded answer.
    Got(SpecPacket<P>),
    /// A `FAIL` reply aborted the wait, with its reason.
    Aborted(Seq<char>),
    /// The read failed for good.
    Fatal(SerialError),
    /// The stream ended before an answer.
    Exhausted,
}

/// The model of the read loop of a packet wait: how many entries it
/// consumes, the parser state it leaves, the non-answer messages it
/// leaves buffered in order, and its outcome.
pub open spec fn spec_wait_packet<P: EchonetProperty>(
    pending: Option<Seq<char>>,
    entries: Seq<ReadEntry>,
    tid: u16,
) -> (nat, Option<Seq<char>>, Seq<SpecSerialMessage>, PacketWait<P>)
    decreases entries.len(),
    via spec_wait_packet_decreases::<P>
{
    let gm = spec_get_message(pending, entries);
    match gm.2 {
        GmOutcome::GotMsg(m) => if spec_is_reply::<P>(m, tid) {
            (gm.0, gm.1, Seq::empty(), PacketWait::Got(spec_reply_of::<P>(m)))
        } else if ErrPolicy::FailOnly.spec_trigger(m) is Some {
            (
                gm.0,
                gm.1,
                seq![m],
                PacketWait::Aborted(ErrPolicy::FailOnly.spec_trigger(m).unwrap()),
            )
        } else {
            let rec = spec_wait_packet::<P>(gm.1, entries.skip(gm.0 as int), tid);
            ((gm.0 + rec.0) as nat, rec.1, seq![m] + rec.2, rec.3)
        },
        GmOutcome::GotEmpty => {
            let rec = spec_wait_packet::<P>(gm.1, entries.skip(gm.0 as int), tid);
            ((gm.0 + rec.0) as nat, rec.1, rec.2, rec.3)
        },
        GmOutcome::GotErr(e) => if e == SerialError::Timeout {
            let rec = spec_wait_packet::<P>(gm.1, entries.skip(gm.0 as int), tid);
            ((gm.0 + rec.0) as nat, rec.1, rec.2, rec.3)
        } else if e == SerialError::Closed {
            (gm.0, gm.1, Seq::empty(), PacketWait::Exhausted)
        } else {
            (gm.0, gm.1, Seq::empty(), PacketWait::Fatal(e))
        },
    }
}

#[via_fn]
proof fn spec_wait_packet_decreases<P: EchonetProperty>(
    pending: Option<Seq<char>>,
    entries: Seq<ReadEntry>,
    tid: u16,
) {
    lemma_gm_progress(pending, entries);
}

/// The model of a whole packet wait: the oldest buffered answer if one is
/// there, else the modelled read loop.
pub open spec fn spec_wait_packet_full<P: EchonetProperty>(
    buf: Seq<SpecSerialMessage>,
    pending: Option<Seq<char>>,
    entries: Seq<ReadEntry>,
    tid: u16,
) -> (Seq<SpecSerialMessage>, Option<Seq<char>>, nat, PacketWait<P>) {
    match spec_first_reply::<P>(buf, tid) {
        Some(i) => (buf.remove(i), pending, 0nat, PacketWait::Got(spec_reply_of::<P>(buf[i]))),
        None => {
            let w = spec_wait_packet::<P>(pending, entries, tid);
            (buf + w.2, w.1, w.0, w.3)
        },
    }
}

/// The first buffered reply lies within the buffer and really answers,
/// with none before it.
proof fn lemma_first_reply_bounds<P: EchonetProperty>(buf: Seq<SpecSerialMessage>, tid: u16)
    ensures
        match spec_first_reply::<P>(buf, tid) {
            Some(i) => 0 <= i < buf.len() && spec_is_reply::<P>(buf[i], tid) && forall|j: int|
                0 <= j < i ==> !spec_is_reply::<P>(#[trigger] buf[j], tid),
            None => forall|j: int|
                0 <= j < buf.len() ==> !spec_is_reply::<P>(#[trigger] buf[j], tid),
        },
    decreases buf.len(),
{
    if buf.len() > 0 && !spec_is_reply::<P>(buf[0], tid) {
        lemma_first_reply_bounds::<P>(buf.drop_first(), tid);
        assert(forall|j: int| 1 <= j < buf.len() ==> buf.drop_first()[j - 1] == #[trigger] buf[j]);
    }
}

/// A reply at `i` with no earlier reply is the first reply.
proof fn lemma_first_reply_at<P: EchonetProperty>(buf: Seq<SpecSerialMessage>, tid: u16, i: int)
    requires
        0 <= i < buf.len(),
        spec_is_reply::<P>(buf[i], tid),
        forall|j: int| 0 <= j < i ==> !spec_is_reply::<P>(#[trigger] buf[j], tid),
    ensures
        spec_first_reply::<P>(buf, tid) == Some(i),
    decreases i,
{
    if i == 0 {
    } else {
        assert(forall|j: int|
            0 <= j < i - 1 ==> buf.drop_first()[j] == #[trigger] buf[j + 1]);
        assert(buf.drop_first()[i - 1] == buf[i]);
        lemma_first_reply_at::<P>(buf.drop_first(), tid, i - 1);
    }
}

/// Decode and test one message as the answer to `tid`.
fn reply_check<P: EchonetProperty>(m: &SerialMessage, tid: u16) -> (r: Option<EchonetPacket<P>>)
    ensures
        match r {
            Some(p) => spec_is_reply::<P>(m@, tid) && p@ == spec_reply_of::<P>(m@),
            None => !spec_is_reply::<P>(m@, tid),
        },
{
    match m {
        SerialMessage::Event(WiSunEvent::RxUdp(u)) => {
            match EchonetPacket::<P>::parse(u.data.as_slice()) {
                Ok(pkt) => {
                    let seoj_ok = matches!(pkt.data.source_object, EchonetObject::SmartMeter);
                    let deoj_ok = matches!(
                        pkt.data.destination_object,
                        EchonetObject::HemsController
                    );
                    if pkt.transaction_id == tid && seoj_ok && deoj_ok {
                        Some(pkt)
                    } else {
                        None
                    }
                },
                Err(_) => None,
            }
        },
        _ => None,
    }
}

/// How long a request may wait for its answer, in milliseconds.
pub const REQUEST_TIMEOUT_MILLIS: u64 = 20000;

/// Relies on `std::time::SystemTime::now`: a wall-clock reading in
/// milliseconds.  Nothing is promised of the drawn value.
#[verifier::external_body]
fn now_millis() -> u64 {
    match std::time::SystemTime::now().duration_since(std::time::SystemTime::UNIX_EPOCH) {
        Ok(d) => d.as_millis() as u64,
        Err(_) => 0,
    }
}

/// The read loop never consumes more entries than there are.
proof fn lemma_wait_consumed_bound(
    pending: Option<Seq<char>>,
    entries: Seq<ReadEntry>,
    pred: MessagePredicate,
    pol: ErrPolicy,
)
    ensures
        spec_wait(pending, entries, pred, pol).0 <= entries.len(),
    decreases entries.len(),
{
    lemma_gm_progress(pending, entries);
    let gm = spec_get_message(pending, entries);
    match gm.2 {
        GmOutcome::GotMsg(m) => {
            if !pred.matches(m) && pol.spec_trigger(m) is None {
                lemma_wait_consumed_bound(gm.1, entries.skip(gm.0 as int), pred, pol);
            }
        },
        GmOutcome::GotEmpty => {
            lemma_wait_consumed_bound(gm.1, entries.skip(gm.0 as int), pred, pol);
        },
        GmOutcome::GotErr(e) => {
            if e == SerialError::Timeout {
                lemma_wait_consumed_bound(gm.1, entries.skip(gm.0 as int), pred, pol);
            }
        },
    }
}

/// Neither does the packet-wait read loop.
proof fn lemma_wait_packet_consumed_bound<P: EchonetProperty>(
    pending: Option<Seq<char>>,
    entries: Seq<ReadEntry>,
    tid: u16,
)
    ensures
        spec_wait_packet::<P>(pending, entries, tid).0 <= entries.len(),
    decreases entries.len(),
{
    lemma_gm_progress(pending, entries);
    let gm = spec_get_message(pending, entries);
    match gm.2 {
        GmOutcome::GotMsg(m) => {
            if !spec_is_reply::<P>(m, tid) && ErrPolicy::FailOnly.spec_trigger(m) is None {
                lemma_wait_packet_consumed_bound::<P>(gm.1, entries.skip(gm.0 as int), tid);
            }
        },
        GmOutcome::GotEmpty => {
            lemma_wait_packet_consumed_bound::<P>(gm.1, entries.skip(gm.0 as int), tid);
        },
        GmOutcome::GotErr(e) => {
            if e == SerialError::Timeout {
                lemma_wait_packet_consumed_bound::<P>(gm.1, entries.skip(gm.0 as int), tid);
            }
        },
    }
}

/// Dumped properties with empty payloads take two bytes each.
proof fn lemma_dump_props_len_empty<P: EchonetProperty>(
    ps: Seq<crate::echonet::packet::SpecProperty<P>>,
)
    requires
        forall|i: int| 0 <= i < ps.len() ==> (#[trigger] ps[i]).data.len() == 0,
    ensures
        crate::echonet::packet::spec_dump_props(ps).len() == 2 * ps.len(),
    decreases ps.len(),
{
    if ps.len() > 0 {
        assert(forall|i: int|
            0 <= i < ps.drop_first().len() ==> (#[trigger] ps.drop_first()[i]) == ps[i + 1]);
        lemma_dump_props_len_empty(ps.drop_first());
    }
}

/// A read request is always small: twelve header bytes plus two per code.
proof fn lemma_request_dump_len<P: EchonetProperty>(tid: u16, props: Seq<P>)
    ensures
        spec_dump_packet(spec_read_request(tid, props)).len() == 12 + 2 * props.len(),
{
    let req = spec_read_request(tid, props);
    assert(forall|i: int|
        0 <= i < req.data.properties.len() ==> (#[trigger] req.data.properties[i]).data.len()
            == 0);
    lemma_dump_props_len_empty(req.data.properties);
}

/// The read-request packet for the given property codes: empty payloads,
/// from this controller to the meter.
pub open spec fn spec_read_request<P: EchonetProperty>(tid: u16, props: Seq<P>) -> SpecPacket<P> {
    SpecPacket {
        transaction_id: tid,
        data: SpecEdata {
            source_object: EchonetObject::HemsController,
            destination_object: EchonetObject::SmartMeter,
            echonet_service: EchonetService::ReadPropertyRequest,
            properties: props.map_values(|p: P| SpecProperty { epc: p, data: Seq::<u8>::empty() }),
        },
    }
}

/// The property-map gate: a request passes when it is the single
/// property-map read, or when the stored map covers every code asked for.
pub open spec fn spec_gate_ok<P: EchonetProperty>(props: Seq<P>, pm: Option<Set<u8>>) -> bool {
    (props.len() == 1 && props[0].code() == EchonetSuperClassProperty::GetPropertyMap.code()) || (
    pm matches Some(s) && forall|i: int| 0 <= i < props.len() ==> s.contains(#[trigger] props[i].code()))
}

/// The packet the request protocol yields for the drawn transaction id
/// `tid`, when the acknowledgement and the answer both arrive: wait for
/// `OK` over an empty buffer, then for the answering datagram.
pub open spec fn spec_request_reply<P: EchonetProperty>(
    pending: Option<Seq<char>>,
    entries: Seq<ReadEntry>,
    tid: u16,
) -> Option<SpecPacket<P>> {
    let s = spec_wait_full(
        Seq::<SpecSerialMessage>::empty(),
        pending,
        entries,
        MessagePredicate::IsAck,
        ErrPolicy::FailOnly,
    );
    let q = spec_wait_packet_full::<P>(s.0, s.1, entries.skip(s.2 as int), tid);
    if s.3 is Found && q.3 is Got {
        Some(q.3->Got_0)
    } else {
        None
    }
}

/// One scan round from a given parser state and remaining entries: wait
/// for `OK` over an emptied buffer, then for the scan-finished event; the
/// two wait results are returned in order.
pub open spec fn spec_scan_round(p1: Option<Seq<char>>, e1: Seq<ReadEntry>) -> (
    (Seq<SpecSerialMessage>, Option<Seq<char>>, nat, WaitOutcome),
    (Seq<SpecSerialMessage>, Option<Seq<char>>, nat, WaitOutcome),
) {
    let s = spec_wait_full(
        Seq::<SpecSerialMessage>::empty(),
        p1,
        e1,
        MessagePredicate::IsAck,
        ErrPolicy::FailOnly,
    );
    let t = spec_wait_full(
        s.0,
        s.1,
        e1.skip(s.2 as int),
        MessagePredicate::IsEventOf(EventKind::FinishedActiveScan),
        ErrPolicy::FailOnly,
    );
    (s, t)
}

/// What a whole scan yields, at the model level.
pub enum ScanStep {
    /// The first PAN description of the first fruitful duration.
    FoundPan(SpecPanDesc),
    /// A wait of some round ended otherwise, with that outcome.
    Stopped(WaitOutcome),
    /// Every duration ran out without a PAN description.
    NoPan,
}

/// The PAN description a message carries.
pub open spec fn spec_pan_of(m: SpecSerialMessage) -> SpecPanDesc
    recommends
        MessagePredicate::IsPanDesc.matches(m),
{
    match m {
        SpecSerialMessage::Event(SpecWiSunEvent::PanDesc(b)) => b,
        _ => vstd::pervasive::arbitrary(),
    }
}

/// The model of the scan from duration `d` on: run rounds until one
/// leaves a PAN description in the buffer, a wait ends otherwise, or the
/// durations run out.
pub open spec fn spec_scan_outcome(
    pending: Option<Seq<char>>,
    entries: Seq<ReadEntry>,
    d: int,
) -> ScanStep
    decreases 10 - d,
{
    if d >= 10 {
        ScanStep::NoPan
    } else {
        let s = spec_scan_round(pending, entries).0;
        let t = spec_scan_round(pending, entries).1;
        if !(s.3 is Found) {
            ScanStep::Stopped(s.3)
        } else if !(t.3 is Found) {
            ScanStep::Stopped(t.3)
        } else {
            match spec_first_match(t.0, MessagePredicate::IsPanDesc) {
                Some(i) => ScanStep::FoundPan(spec_pan_of(t.0[i])),
                None => spec_scan_outcome(t.1, entries.skip(s.2 + t.2 as int), d + 1),
            }
        }
    }
}

/// The full wire frame of a read request: the `SKSENDTO` prefix, the
/// dumped packet, and the terminator.
pub open spec fn spec_request_frame<P: EchonetProperty>(
    a: Seq<u16>,
    tid: u16,
    props: Seq<P>,
) -> Seq<u8> {
    let bin = spec_dump_packet(spec_read_request(tid, props));
    vstd::utf8::encode_utf8(spec_send_udp_base(a, 1, bin.len() as int)) + bin + seq![13u8, 10u8]
}

/// The bytes of one command line as it goes over the wire.
pub open spec fn spec_cmd_bytes(line: Seq<char>) -> Seq<u8> {
    vstd::utf8::encode_utf8(line) + seq![13u8, 10u8]
}

/// The link-local address derived from an EUI-64 MAC, as `get_ip` forms
/// it.
pub open spec fn spec_derived_ip(mac: Seq<u8>) -> Seq<u16>
    recommends
        mac.len() == 8,
{
    seq![
        0xFE80u16,
        0u16,
        0u16,
        0u16,
        (((mac[0] ^ 0x02) as u16) * 256 + mac[1]) as u16,
        ((mac[2] as u16) * 256 + mac[3]) as u16,
        ((mac[4] as u16) * 256 + mac[5]) as u16,
        ((mac[6] as u16) * 256 + mac[7]) as u16,
    ]
}

/// The bytes of the scan command for one duration.
pub open spec fn spec_scan_cmd(d: int) -> Seq<u8> {
    vstd::utf8::encode_utf8("SKSCAN 2 FFFFFFFF "@ + ascii_chars_of(hex_nopad_ascii(d as nat)))
        + seq![13u8, 10u8]
}

/// The scan commands for the durations `from` (inclusive) up to `to`.
pub open spec fn spec_scan_cmds(from: int, to: int) -> Seq<u8>
    decreases to - from,
{
    if from >= to {
        Seq::empty()
    } else {
        spec_scan_cmd(from) + spec_scan_cmds(from + 1, to)
    }
}

/// One more duration appends its command.
proof fn lemma_scan_cmds_snoc(from: int, to: int)
    requires
        from <= to,
    ensures
        spec_scan_cmds(from, to + 1) == spec_scan_cmds(from, to) + spec_scan_cmd(to),
    decreases to - from,
{
    if from == to {
        assert(spec_scan_cmds(from, to) =~= Seq::<u8>::empty());
        assert(spec_scan_cmds(from + 1, to + 1) =~= Seq::<u8>::empty());
        assert(spec_scan_cmds(from, to + 1) =~= spec_scan_cmd(from) + Seq::<u8>::empty());
        assert(spec_scan_cmds(from, to + 1) =~= spec_scan_cmds(from, to) + spec_scan_cmd(to));
    } else {
        lemma_scan_cmds_snoc(from + 1, to);
        assert(spec_scan_cmds(from, to + 1) =~= spec_scan_cmd(from) + spec_scan_cmds(
            from + 1,
            to + 1,
        ));
        assert(spec_scan_cmd(from) + (spec_scan_cmds(from + 1, to) + spec_scan_cmd(to)) =~= (
        spec_scan_cmd(from) + spec_scan_cmds(from + 1, to)) + spec_scan_cmd(to));
        assert(spec_scan_cmds(from, to + 1) =~= spec_scan_cmds(from, to) + spec_scan_cmd(to));
    }
}

/// The functional step relation of `get_message`: the post state and
/// result follow `spec_get_message` of the pre state.
pub open spec fn spec_gm_step<T: Connection>(
    pre: WiSunClient<T>,
    post: WiSunClient<T>,
    r: crate::wisun_module::errors::Result<bool>,
) -> bool {
    let gm = spec_get_message(pre.parser_pending(), pre.conn_incoming());
    &&& post.conn_incoming() == pre.conn_incoming().skip(gm.0 as int)
    &&& post.parser_pending() == gm.1
    &&& match gm.2 {
        GmOutcome::GotMsg(m) => r matches Ok(b) && b == true && post.buffer_view()
            == pre.buffer_view().push(m),
        GmOutcome::GotEmpty => r matches Ok(b) && b == false && post.buffer_view()
            == pre.buffer_view(),
        GmOutcome::GotErr(e) => r matches Err(Error::SerialError(e2)) && e2 == e
            && post.buffer_view() == pre.buffer_view(),
    }
}

/// The driver: it owns the serial connection, the line parser, and the
/// FIFO of messages read but not yet consumed.
pub struct WiSunClient<T: Connection> {
    serial_connection: T,
    serial_parser: WiSunModuleParser,
    message_buffer: Vec<SerialMessage>,
    address: Option<Ipv6Addr>,
    property_map: Option<PropertyMap>,
}

impl<T: Connection> WiSunClient<T> {
    /// The connection is in a sound state.
    pub closed spec fn wf(&self) -> bool {
        self.serial_connection.inv()
    }

    /// Whether the connection is sure to serve its model (see
    /// `Connection::reliable`): under it, every wait's outcome is forced.
    pub closed spec fn conn_reliable(&self) -> bool {
        self.serial_connection.reliable()
    }

    /// The lines and failures still to arrive.
    pub closed spec fn conn_incoming(&self) -> Seq<ReadEntry> {
        self.serial_connection.incoming()
    }

    /// Every byte sent so far.
    pub closed spec fn conn_outgoing(&self) -> Seq<u8> {
        self.serial_connection.outgoing()
    }

    /// The parser's pending multi-line block.
    pub closed spec fn parser_pending(&self) -> Option<Seq<char>> {
        self.serial_parser.pending()
    }

    /// The buffered messages, oldest first.
    pub closed spec fn buffer_view(&self) -> Seq<SpecSerialMessage> {
        self.message_buffer@.map_values(|m: SerialMessage| m@)
    }

    /// The joined address, if a PAN has been joined.
    pub closed spec fn address_view(&self) -> Option<Seq<u16>> {
        match self.address {
            Some(a) => Some(a@),
            None => None,
        }
    }

    /// The remote object's property map, once discovered.
    pub closed spec fn property_map_view(&self) -> Option<Set<u8>> {
        match self.property_map {
            Some(ref m) => Some(m@),
            None => None,
        }
    }

    /// A driver over the given connection; echo-back is turned off before
    /// it is handed out.
    pub fn new(serial_connection: T) -> (r: Result<Self>)
        requires
            serial_connection.inv(),
        ensures
            match r {
                Ok(c) => ({
                    let s = spec_wait_full(
                        Seq::<SpecSerialMessage>::empty(),
                        Option::<Seq<char>>::None,
                        serial_connection.incoming(),
                        MessagePredicate::IsAck,
                        ErrPolicy::FailOnly,
                    );
                    &&& c.wf()
                    &&& c.address_view() is None
                    &&& c.property_map_view() is None
                    &&& c.conn_outgoing() == serial_connection.outgoing() + vstd::utf8::encode_utf8(
                        "SKSREG SFE 0"@,
                    ) + seq![13u8, 10u8]
                    &&& s.3 is Found
                    &&& c.buffer_view() == s.0
                    &&& c.parser_pending() == s.1
                    &&& c.conn_incoming() == serial_connection.incoming().skip(s.2 as int)
                }),
                Err(_) => true,
            },
    {
        let mut client = WiSunClient::attach(serial_connection);
        match client.ensure_echoback_off() {
            Ok(_) => Ok(client),
            Err(e) => Err(e),
        }
    }

    /// The underlying connection, for inspection.
    pub fn connection(&self) -> (r: &T)
        ensures
            r.incoming() == self.conn_incoming(),
            r.outgoing() == self.conn_outgoing(),
            r.inv() == self.wf(),
    {
        &self.serial_connection
    }

    /// A driver over the given connection with nothing sent yet; the
    /// caller owes the module any initialization commands.
    pub fn attach(serial_connection: T) -> (r: Self)
        requires
            serial_connection.inv(),
        ensures
            r.wf(),
            r.buffer_view() == Seq::<SpecSerialMessage>::empty(),
            r.address_view() is None,
            r.property_map_view() is None,
            r.conn_incoming() == serial_connection.incoming(),
            r.conn_outgoing() == serial_connection.outgoing(),
            r.parser_pending() is None,
    {
        let r = WiSunClient {
            serial_connection,
            serial_parser: WiSunModuleParser::new(),
            message_buffer: Vec::new(),
            address: None,
            property_map: None,
        };
        proof {
            assert(r.buffer_view() =~= Seq::<SpecSerialMessage>::empty());
        }
        r
    }

    /// Read lines until the parser yields a message (pushed and reported
    /// as `true`), an empty line (`false`), or the read fails.
    fn get_message(&mut self) -> (r: Result<bool>)
        requires
            old(self).wf(),
        ensures
            final(self).wf(),
            final(self).conn_outgoing() == old(self).conn_outgoing(),
            final(self).address_view() == old(self).address_view(),
            final(self).property_map_view() == old(self).property_map_view(),
            spec_gm_step(*old(self), *final(self), r) || ({
                &&& r matches Err(Error::SerialError(SerialError::Closed))
                &&& final(self).buffer_view() == old(self).buffer_view()
                &&& exists|k: nat|
                    k <= old(self).conn_incoming().len() && final(self).conn_incoming() == old(
                        self,
                    ).conn_incoming().skip(k as int)
            }),
            old(self).conn_reliable() ==> ({
                &&& spec_gm_step(*old(self), *final(self), r)
                &&& match r {
                    Ok(_) => final(self).conn_reliable(),
                    Err(Error::SerialError(e)) => e == SerialError::Timeout
                        ==> final(self).conn_reliable(),
                    Err(_) => true,
                }
            }),
    {
        let ghost gm = spec_get_message(old(self).parser_pending(), old(self).conn_incoming());
        let ghost consumed: nat = 0;
        #[verifier::loop_isolation(false)]
        loop
            invariant
                self.wf(),
                self.serial_connection.outgoing() == old(self).conn_outgoing(),
                self.address == old(self).address,
                self.property_map == old(self).property_map,
                self.message_buffer == old(self).message_buffer,
                consumed + self.conn_incoming().len() == old(self).conn_incoming().len(),
                self.conn_incoming() == old(self).conn_incoming().skip(consumed as int),
                spec_get_message(self.parser_pending(), self.conn_incoming()) == (
                    (gm.0 - consumed) as nat,
                    gm.1,
                    gm.2,
                ),
                consumed <= gm.0,
                old(self).conn_reliable() ==> self.conn_reliable(),
            decreases self.conn_incoming().len(),
        {
            proof {
                lemma_gm_progress(self.parser_pending(), self.conn_incoming());
            }
            let ghost entries0 = self.conn_incoming();
            let ghost pending0 = self.parser_pending();
            match self.serial_connection.read_line() {
                Ok(line) => {
                    proof {
                        assert(entries0.len() > 0);
                        assert(entries0[0] matches ReadEntry::Line(l) && l == line@);
                        assert(entries0.skip(1) =~= self.conn_incoming());
                        assert(old(self).conn_incoming().skip(consumed as int).skip(1)
                            =~= old(self).conn_incoming().skip(consumed as int + 1));
                    }
                    match self.serial_parser.add_line(line.as_str()) {
                        ParseResult::Done(m) => {
                            let ghost mview = m@;
                            self.message_buffer.push(m);
                            proof {
                                consumed = consumed + 1;
                                assert(self.buffer_view() =~= old(self).buffer_view().push(mview));
                            }
                            return Ok(true);
                        },
                        ParseResult::Empty => {
                            proof {
                                consumed = consumed + 1;
                                assert(self.buffer_view() =~= old(self).buffer_view());
                            }
                            return Ok(false);
                        },
                        ParseResult::More => {
                            proof {
                                consumed = consumed + 1;
                            }
                        },
                        ParseResult::Rejected(_) => {
                            proof {
                                consumed = consumed + 1;
                            }
                        },
                    }
                },
                Err(e) => {
                    if matches!(e, SerialError::Closed) {
                        proof {
                            assert(self.buffer_view() =~= old(self).buffer_view());
                            assert(self.conn_incoming() == entries0 || self.conn_incoming()
                                == entries0.drop_first());
                            if self.conn_incoming() == entries0 {
                                assert(self.conn_incoming() == old(self).conn_incoming().skip(
                                    consumed as int,
                                ));
                            } else {
                                assert(entries0.len() > 0);
                                assert(entries0.drop_first() =~= old(self).conn_incoming().skip(
                                    consumed as int + 1,
                                ));
                                assert(consumed + 1 <= old(self).conn_incoming().len());
                            }
                            if old(self).conn_reliable() {
                                if entries0.len() == 0 {
                                    assert(gm.2 == GmOutcome::GotErr(SerialError::Closed));
                                    assert(gm.0 == consumed);
                                    assert(self.conn_incoming() == entries0);
                                } else {
                                    assert(entries0[0] matches ReadEntry::Failed(e0) && e0
                                        == SerialError::Closed);
                                    assert(gm.2 == GmOutcome::GotErr(SerialError::Closed));
                                    assert(gm.0 == consumed + 1);
                                    assert(self.conn_incoming() == entries0.drop_first());
                                }
                            }
                        }
                        return Err(Error::SerialError(SerialError::Closed));
                    }
                    proof {
                        assert(entries0.len() > 0);
                        assert(entries0[0] matches ReadEntry::Failed(e0) && e0 == e);
                        assert(entries0.skip(1) =~= self.conn_incoming());
                        assert(old(self).conn_incoming().skip(consumed as int).skip(1)
                            =~= old(self).conn_incoming().skip(consumed as int + 1));
                        consumed = consumed + 1;
                        assert(self.buffer_view() =~= old(self).buffer_view());
                    }
                    return Err(Error::SerialError(e));
                },
            }
        }
    }

    /// Drop every buffered message, so that stale events cannot match a
    /// fresh request's wait.
    pub fn flush_messages(&mut self)
        ensures
            final(self).wf() == old(self).wf(),
            final(self).conn_reliable() == old(self).conn_reliable(),
            final(self).buffer_view() == Seq::<SpecSerialMessage>::empty(),
            final(self).conn_incoming() == old(self).conn_incoming(),
            final(self).conn_outgoing() == old(self).conn_outgoing(),
            final(self).parser_pending() == old(self).parser_pending(),
            final(self).address_view() == old(self).address_view(),
            final(self).property_map_view() == old(self).property_map_view(),
    {
        self.message_buffer.clear();
        proof {
            assert(final(self).buffer_view() =~= Seq::<SpecSerialMessage>::empty());
        }
    }

    /// Remove and return the oldest buffered message the predicate
    /// accepts, if any.
    fn search_on_buffer(&mut self, pred: &MessagePredicate) -> (r: Option<SerialMessage>)
        ensures
            final(self).wf() == old(self).wf(),
            final(self).conn_reliable() == old(self).conn_reliable(),
            final(self).conn_incoming() == old(self).conn_incoming(),
            final(self).conn_outgoing() == old(self).conn_outgoing(),
            final(self).parser_pending() == old(self).parser_pending(),
            final(self).address_view() == old(self).address_view(),
            final(self).property_map_view() == old(self).property_map_view(),
            match spec_first_match(old(self).buffer_view(), *pred) {
                Some(i) => r matches Some(m) && m@ == old(self).buffer_view()[i]
                    && final(self).buffer_view() == old(self).buffer_view().remove(i),
                None => r is None && final(self).buffer_view() == old(self).buffer_view(),
            },
    {
        proof {
            lemma_first_match_bounds(old(self).buffer_view(), *pred);
        }
        let mut i: usize = 0;
        #[verifier::loop_isolation(false)]
        while i < self.message_buffer.len()
            invariant
                i <= self.message_buffer@.len(),
                self.message_buffer == old(self).message_buffer,
                self.serial_connection == old(self).serial_connection,
                self.serial_parser == old(self).serial_parser,
                self.address == old(self).address,
                self.property_map == old(self).property_map,
                forall|j: int| 0 <= j < i ==> !pred.matches(#[trigger] old(self).buffer_view()[j]),
                spec_first_match(old(self).buffer_view(), *pred) matches Some(k) ==> i <= k,
            decreases self.message_buffer@.len() - i,
        {
            proof {
                lemma_first_match_bounds(old(self).buffer_view(), *pred);
            }
            if pred.check(&self.message_buffer[i]) {
                proof {
                    lemma_first_match_at(old(self).buffer_view(), *pred, i as int);
                }
                let m = self.message_buffer.remove(i);
                proof {
                    assert(final(self).buffer_view() =~= old(self).buffer_view().remove(i as int));
                }
                return Some(m);
            }
            i = i + 1;
        }
        proof {
            lemma_first_match_bounds(old(self).buffer_view(), *pred);
            match spec_first_match(old(self).buffer_view(), *pred) {
                Some(k) => {
                    assert(pred.matches(old(self).buffer_view()[k]));
                },
                None => {},
            }
        }
        None
    }

    /// Return the first message the predicate accepts: the oldest buffered
    /// match if one is there, else the first match among newly arriving
    /// messages.  A message the abort policy flags ends the wait with a
    /// command error; non-matching messages stay buffered in order.  The
    /// whole wait is deterministic: its outcome and the state it leaves
    /// are the function `spec_wait` of the buffered messages and the
    /// incoming entries; only on an unreliable connection may an early
    /// end of the stream cut it short with a timeout.
    #[verifier::rlimit(100)]
    #[verifier::spinoff_prover]
    pub fn wait_fn(&mut self, pred: MessagePredicate, err_if: ErrPolicy) -> (r: Result<
        SerialMessage,
    >)
        requires
            old(self).wf(),
        ensures
            final(self).wf(),
            final(self).conn_outgoing() == old(self).conn_outgoing(),
            final(self).address_view() == old(self).address_view(),
            final(self).property_map_view() == old(self).property_map_view(),
            match r {
                Ok(m) => pred.matches(m@),
                Err(Error::CommandError(_)) => true,
                Err(Error::TimeoutError) => true,
                Err(Error::SerialError(e)) => !(e == SerialError::Timeout) && !(e
                    == SerialError::Closed),
                Err(_) => false,
            },
            ({
                let w = spec_wait_full(
                    old(self).buffer_view(),
                    old(self).parser_pending(),
                    old(self).conn_incoming(),
                    pred,
                    err_if,
                );
                &&& final(self).buffer_view() == w.0
                &&& final(self).parser_pending() == w.1
                &&& final(self).conn_incoming() == old(self).conn_incoming().skip(w.2 as int)
                &&& match w.3 {
                    WaitOutcome::Found(m) => r matches Ok(mm) && mm@ == m,
                    WaitOutcome::Aborted(s) => r matches Err(Error::CommandError(ss)) && ss@ == s,
                    WaitOutcome::Fatal(e) => r matches Err(Error::SerialError(e2)) && e2 == e,
                    WaitOutcome::Exhausted => r matches Err(Error::TimeoutError),
                }
            }) || ({
                let w = spec_wait(
                    old(self).parser_pending(),
                    old(self).conn_incoming(),
                    pred,
                    err_if,
                );
                &&& r matches Err(Error::TimeoutError)
                &&& spec_first_match(old(self).buffer_view(), pred) is None
                &&& exists|k: nat|
                    k <= old(self).conn_incoming().len() && final(self).conn_incoming() == old(
                        self,
                    ).conn_incoming().skip(k as int)
                &&& exists|j: nat|
                    j <= w.2.len() && final(self).buffer_view() == old(self).buffer_view()
                        + w.2.take(j as int)
            }),
            old(self).conn_reliable() ==> ({
                let w = spec_wait_full(
                    old(self).buffer_view(),
                    old(self).parser_pending(),
                    old(self).conn_incoming(),
                    pred,
                    err_if,
                );
                &&& final(self).buffer_view() == w.0
                &&& final(self).parser_pending() == w.1
                &&& final(self).conn_incoming() == old(self).conn_incoming().skip(w.2 as int)
                &&& match w.3 {
                    WaitOutcome::Found(m) => (r matches Ok(mm) && mm@ == m)
                        && final(self).conn_reliable(),
                    WaitOutcome::Aborted(s) => r matches Err(Error::CommandError(ss)) && ss@ == s,
                    WaitOutcome::Fatal(e) => r matches Err(Error::SerialError(e2)) && e2 == e,
                    WaitOutcome::Exhausted => r matches Err(Error::TimeoutError),
                }
            }),
    {
        proof {
            lemma_first_match_bounds(old(self).buffer_view(), pred);
        }
        match self.search_on_buffer(&pred) {
            Some(m) => {
                return Ok(m);
            },
            None => {},
        }

        let ghost w0 = spec_wait(
            old(self).parser_pending(),
            old(self).conn_incoming(),
            pred,
            err_if,
        );
        let ghost consumed: nat = 0;
        let ghost buffered: nat = 0;
        #[verifier::loop_isolation(false)]
        loop
            invariant
                self.wf(),
                self.conn_outgoing() == old(self).conn_outgoing(),
                self.address_view() == old(self).address_view(),
                self.property_map_view() == old(self).property_map_view(),
                spec_first_match(old(self).buffer_view(), pred) is None,
                consumed <= w0.0,
                buffered <= w0.2.len(),
                consumed + self.conn_incoming().len() == old(self).conn_incoming().len(),
                self.conn_incoming() == old(self).conn_incoming().skip(consumed as int),
                self.buffer_view() == old(self).buffer_view() + w0.2.take(buffered as int),
                spec_wait(self.parser_pending(), self.conn_incoming(), pred, err_if) == (
                    (w0.0 - consumed) as nat,
                    w0.1,
                    w0.2.skip(buffered as int),
                    w0.3,
                ),
                old(self).conn_reliable() ==> self.conn_reliable(),
            decreases self.conn_incoming().len(),
        {
            let ghost entries0 = self.conn_incoming();
            let ghost pending0 = self.parser_pending();
            let ghost gm = spec_get_message(pending0, entries0);
            proof {
                lemma_gm_progress(pending0, entries0);
            }
            match self.get_message() {
                Ok(true) => {
                    proof {
                        assert(self.buffer_view().len() >= 1);
                        assert(self.message_buffer@.len() == self.buffer_view().len());
                        assert(gm.0 <= entries0.len());
                        assert(entries0.skip(gm.0 as int) =~= old(self).conn_incoming().skip(
                            consumed + gm.0 as int,
                        ));
                        assert(gm.2 is GotMsg);
                        let gmm = gm.2->GotMsg_0;
                        assert(self.buffer_view() == (old(self).buffer_view() + w0.2.take(
                            buffered as int,
                        )).push(gmm));
                        assert(self.buffer_view().last() == gmm);
                    }
                    let idx = self.message_buffer.len() - 1;
                    let ghost prevec = self.message_buffer@;
                    let ghost prebuf = self.buffer_view();
                    if pred.check(&self.message_buffer[idx]) {
                        match self.message_buffer.pop() {
                            Some(m) => {
                                proof {
                                    let gmm = gm.2->GotMsg_0;
                                    assert(pred.matches(gmm));
                                    assert(self.message_buffer@ == prevec.drop_last());
                                    assert forall|j: int|
                                        0 <= j < self.buffer_view().len() implies #[trigger] self.buffer_view()[j]
                                        == prebuf[j] by {
                                        assert(self.message_buffer@[j] == prevec[j]);
                                    }
                                    assert(self.buffer_view() =~= prebuf.drop_last());
                                    assert(prebuf.drop_last() =~= old(self).buffer_view()
                                        + w0.2.take(buffered as int));
                                    assert(spec_wait(pending0, entries0, pred, err_if) == (
                                        gm.0,
                                        gm.1,
                                        Seq::<SpecSerialMessage>::empty(),
                                        WaitOutcome::Found(gmm),
                                    ));
                                    assert(w0.3 == WaitOutcome::Found(gmm));
                                    assert(w0.2.skip(buffered as int) =~= Seq::<
                                        SpecSerialMessage,
                                    >::empty());
                                    assert(w0.2.take(buffered as int) =~= w0.2);
                                    assert(self.buffer_view() =~= old(self).buffer_view()
                                        + w0.2.take(buffered as int));
                                    assert(consumed + gm.0 == w0.0);
                                    assert(m@ == gmm);
                                }
                                return Ok(m);
                            },
                            None => {
                                proof {
                                    assert(false);
                                }
                                return Err(Error::TimeoutError);
                            },
                        }
                    }
                    let trig = err_if.check(&self.message_buffer[idx]);
                    match trig {
                        Some(reason) => {
                            proof {
                                let gmm = gm.2->GotMsg_0;
                                assert(!pred.matches(gmm));
                                assert(err_if.spec_trigger(gmm) == Some(reason@));
                                assert(spec_wait(pending0, entries0, pred, err_if) == (
                                    gm.0,
                                    gm.1,
                                    seq![gmm],
                                    WaitOutcome::Aborted(reason@),
                                ));
                                assert(w0.2.skip(buffered as int) =~= seq![gmm]);
                                assert(w0.2 =~= w0.2.take(buffered as int) + seq![gmm]);
                                assert(self.buffer_view() =~= old(self).buffer_view() + w0.2);
                                assert(consumed + gm.0 == w0.0);
                            }
                            return Err(Error::CommandError(reason));
                        },
                        None => {
                            proof {
                                let gmm = gm.2->GotMsg_0;
                                assert(!pred.matches(gmm));
                                assert(err_if.spec_trigger(gmm) is None);
                                let rec = spec_wait(
                                    self.parser_pending(),
                                    self.conn_incoming(),
                                    pred,
                                    err_if,
                                );
                                assert(self.parser_pending() == gm.1);
                                assert(self.conn_incoming() == entries0.skip(gm.0 as int));
                                assert(spec_wait(pending0, entries0, pred, err_if) == (
                                    (gm.0 + rec.0) as nat,
                                    rec.1,
                                    seq![gmm] + rec.2,
                                    rec.3,
                                ));
                                assert(w0.2.skip(buffered as int) =~= seq![gmm] + rec.2);
                                assert(w0.2.skip(buffered as int).len() >= 1);
                                assert(buffered < w0.2.len());
                                assert(w0.2.skip(buffered as int)[0] == (seq![gmm] + rec.2)[0]);
                                assert(w0.2.skip(buffered as int)[0] == gmm);
                                assert(w0.2[buffered as int] == w0.2.skip(buffered as int)[0]);
                                assert(w0.2[buffered as int] == gmm);
                                assert(w0.2.take(buffered as int + 1) =~= w0.2.take(
                                    buffered as int,
                                ).push(gmm));
                                assert(self.buffer_view() =~= old(self).buffer_view() + w0.2.take(
                                    buffered as int + 1,
                                ));
                                assert(w0.2.skip(buffered as int + 1) =~= w0.2.skip(
                                    buffered as int,
                                ).skip(1));
                                assert((seq![gmm] + rec.2).skip(1) =~= rec.2);
                                assert(w0.2.skip(buffered as int + 1) =~= rec.2);
                                consumed = consumed + gm.0;
                                buffered = buffered + 1;
                            }
                        },
                    }
                },
                Ok(false) => {
                    proof {
                        assert(entries0.skip(gm.0 as int) =~= old(self).conn_incoming().skip(
                            consumed + gm.0 as int,
                        ));
                        consumed = consumed + gm.0;
                    }
                },
                Err(Error::SerialError(e)) => {
                    match e {
                        SerialError::Timeout => {
                            proof {
                                assert(entries0.skip(gm.0 as int) =~= old(
                                    self,
                                ).conn_incoming().skip(consumed + gm.0 as int));
                                consumed = consumed + gm.0;
                            }
                        },
                        SerialError::Closed => {
                            proof {
                                lemma_gm_progress(pending0, entries0);
                                if self.conn_incoming() == entries0.skip(gm.0 as int) {
                                    assert(entries0.skip(gm.0 as int) =~= old(
                                        self,
                                    ).conn_incoming().skip(consumed as int + gm.0 as int));
                                    assert(consumed + gm.0 <= old(self).conn_incoming().len());
                                } else {
                                    let k2 = choose|k2: nat|
                                        k2 <= entries0.len() && self.conn_incoming()
                                            == entries0.skip(k2 as int);
                                    assert(entries0.skip(k2 as int) =~= old(
                                        self,
                                    ).conn_incoming().skip(consumed as int + k2 as int));
                                    assert(consumed + k2 <= old(self).conn_incoming().len());
                                }
                                if old(self).conn_reliable() {
                                    assert(gm.2 == GmOutcome::GotErr(SerialError::Closed));
                                    assert(w0.3 == WaitOutcome::Exhausted);
                                    assert(w0.2.skip(buffered as int) =~= Seq::<
                                        SpecSerialMessage,
                                    >::empty());
                                    assert(w0.2.take(buffered as int) =~= w0.2);
                                    assert(self.buffer_view() =~= old(self).buffer_view() + w0.2);
                                    assert(consumed + gm.0 == w0.0);
                                    assert(self.conn_incoming() == entries0.skip(gm.0 as int));
                                }
                            }
                            return Err(Error::TimeoutError);
                        },
                        _ => {
                            proof {
                                assert(w0.2.skip(buffered as int) =~= Seq::<
                                    SpecSerialMessage,
                                >::empty());
                                assert(w0.2.take(buffered as int) =~= w0.2);
                                assert(self.buffer_view() =~= old(self).buffer_view() + w0.2);
                                assert(consumed + gm.0 == w0.0);
                                assert(entries0.skip(gm.0 as int) =~= old(
                                    self,
                                ).conn_incoming().skip(consumed + gm.0 as int));
                            }
                            return Err(Error::SerialError(e));
                        },
                    }
                },
                Err(e) => {
                    proof {
                        assert(false);
                    }
                    return Err(e);
                },
            }
        }
    }

    /// Wait for the module's `OK` acknowledgement.
    pub fn wait_ok(&mut self) -> (r: Result<()>)
        requires
            old(self).wf(),
        ensures
            final(self).wf(),
            final(self).conn_outgoing() == old(self).conn_outgoing(),
            final(self).address_view() == old(self).address_view(),
            final(self).property_map_view() == old(self).property_map_view(),
            match r {
                Ok(_) => true,
                Err(Error::CommandError(_)) => true,
                Err(Error::TimeoutError) => true,
                Err(Error::SerialError(e)) => !(e == SerialError::Timeout) && !(e
                    == SerialError::Closed),
                Err(_) => false,
            },
            ({
                let w = spec_wait_full(
                    old(self).buffer_view(),
                    old(self).parser_pending(),
                    old(self).conn_incoming(),
                    MessagePredicate::IsAck,
                    ErrPolicy::FailOnly,
                );
                &&& final(self).buffer_view() == w.0
                &&& final(self).parser_pending() == w.1
                &&& final(self).conn_incoming() == old(self).conn_incoming().skip(w.2 as int)
                &&& match w.3 {
                    WaitOutcome::Found(m) => r is Ok,
                    WaitOutcome::Aborted(s) => r matches Err(Error::CommandError(ss)) && ss@ == s,
                    WaitOutcome::Fatal(e) => r matches Err(Error::SerialError(e2)) && e2 == e,
                    WaitOutcome::Exhausted => r matches Err(Error::TimeoutError),
                }
            }) || ({
                let w = spec_wait(
                    old(self).parser_pending(),
                    old(self).conn_incoming(),
                    MessagePredicate::IsAck,
                    ErrPolicy::FailOnly,
                );
                &&& r matches Err(Error::TimeoutError)
                &&& exists|k: nat|
                    k <= old(self).conn_incoming().len() && final(self).conn_incoming() == old(
                        self,
                    ).conn_incoming().skip(k as int)
                &&& exists|j: nat|
                    j <= w.2.len() && final(self).buffer_view() == old(self).buffer_view()
                        + w.2.take(j as int)
            }),
            old(self).conn_reliable() ==> ({
                let w = spec_wait_full(
                    old(self).buffer_view(),
                    old(self).parser_pending(),
                    old(self).conn_incoming(),
                    MessagePredicate::IsAck,
                    ErrPolicy::FailOnly,
                );
                &&& final(self).buffer_view() == w.0
                &&& final(self).parser_pending() == w.1
                &&& final(self).conn_incoming() == old(self).conn_incoming().skip(w.2 as int)
                &&& match w.3 {
                    WaitOutcome::Found(m) => r is Ok && final(self).conn_reliable(),
                    WaitOutcome::Aborted(s) => r matches Err(Error::CommandError(ss)) && ss@ == s,
                    WaitOutcome::Fatal(e) => r matches Err(Error::SerialError(e2)) && e2 == e,
                    WaitOutcome::Exhausted => r matches Err(Error::TimeoutError),
                }
            }),
    {
        match self.wait_fn(MessagePredicate::IsAck, ErrPolicy::FailOnly) {
            Ok(_) => Ok(()),
            Err(e) => Err(e),
        }
    }

    /// Send one command line after dropping stale messages.
    fn send_command(&mut self, line: &String) -> (r: Result<()>)
        requires
            old(self).wf(),
        ensures
            final(self).wf(),
            final(self).address_view() == old(self).address_view(),
            final(self).property_map_view() == old(self).property_map_view(),
            final(self).conn_reliable() == old(self).conn_reliable(),
            final(self).buffer_view() == Seq::<SpecSerialMessage>::empty(),
            final(self).parser_pending() == old(self).parser_pending(),
            final(self).conn_incoming() == old(self).conn_incoming(),
            r is Ok ==> final(self).conn_outgoing() == old(self).conn_outgoing()
                + vstd::utf8::encode_utf8(line@) + seq![13u8, 10u8],
            r matches Err(e) ==> e matches Error::SerialError(_),
            old(self).conn_reliable() ==> r is Ok,
    {
        self.flush_messages();
        match self.serial_connection.write_line(line.as_str()) {
            Ok(_) => Ok(()),
            Err(e) => Err(Error::SerialError(e)),
        }
    }

    /// Turn the module's command echo off and wait for its `OK`.
    fn ensure_echoback_off(&mut self) -> (r: Result<()>)
        requires
            old(self).wf(),
        ensures
            final(self).wf(),
            final(self).address_view() == old(self).address_view(),
            final(self).property_map_view() == old(self).property_map_view(),
            r is Ok ==> final(self).conn_outgoing() == old(self).conn_outgoing()
                + vstd::utf8::encode_utf8("SKSREG SFE 0"@) + seq![13u8, 10u8],
            r is Ok ==> ({
                let s = spec_wait_full(
                    Seq::<SpecSerialMessage>::empty(),
                    old(self).parser_pending(),
                    old(self).conn_incoming(),
                    MessagePredicate::IsAck,
                    ErrPolicy::FailOnly,
                );
                &&& s.3 is Found
                &&& final(self).buffer_view() == s.0
                &&& final(self).parser_pending() == s.1
                &&& final(self).conn_incoming() == old(self).conn_incoming().skip(s.2 as int)
            }),
    {
        let cmd = String::from_str("SKSREG SFE 0");
        match self.send_command(&cmd) {
            Ok(_) => {},
            Err(e) => {
                return Err(e);
            },
        }
        proof {
            assert(spec_first_match(self.buffer_view(), MessagePredicate::IsAck) is None);
            assert(Seq::<SpecSerialMessage>::empty() + spec_wait(
                self.parser_pending(),
                self.conn_incoming(),
                MessagePredicate::IsAck,
                ErrPolicy::FailOnly,
            ).2 =~= spec_wait(
                self.parser_pending(),
                self.conn_incoming(),
                MessagePredicate::IsAck,
                ErrPolicy::FailOnly,
            ).2);
        }
        self.wait_ok()
    }

    /// Ask for the firmware version: send `SKVER`, wait for `OK`, then
    /// return the string of the `EVER` report, in either arrival order.
    #[verifier::rlimit(100)]
    #[verifier::spinoff_prover]
    pub fn get_version(&mut self) -> (r: Result<String>)
        requires
            old(self).wf(),
        ensures
            final(self).wf(),
            final(self).address_view() == old(self).address_view(),
            final(self).property_map_view() == old(self).property_map_view(),
            r is Ok ==> final(self).conn_outgoing() == old(self).conn_outgoing()
                + vstd::utf8::encode_utf8("SKVER"@) + seq![13u8, 10u8],
            r matches Ok(v) ==> ({
                let s = spec_wait_full(
                    Seq::<SpecSerialMessage>::empty(),
                    old(self).parser_pending(),
                    old(self).conn_incoming(),
                    MessagePredicate::IsAck,
                    ErrPolicy::FailOnly,
                );
                let t = spec_wait_full(
                    s.0,
                    s.1,
                    old(self).conn_incoming().skip(s.2 as int),
                    MessagePredicate::IsVersion,
                    ErrPolicy::FailOnly,
                );
                &&& s.3 is Found
                &&& t.3 == WaitOutcome::Found(
                    SpecSerialMessage::Event(SpecWiSunEvent::Version(v@)),
                )
                &&& final(self).buffer_view() == t.0
                &&& final(self).parser_pending() == t.1
                &&& final(self).conn_incoming() == old(self).conn_incoming().skip(
                    s.2 + t.2 as int,
                )
            }),
            old(self).conn_reliable() ==> ({
                let s = spec_wait_full(
                    Seq::<SpecSerialMessage>::empty(),
                    old(self).parser_pending(),
                    old(self).conn_incoming(),
                    MessagePredicate::IsAck,
                    ErrPolicy::FailOnly,
                );
                let t = spec_wait_full(
                    s.0,
                    s.1,
                    old(self).conn_incoming().skip(s.2 as int),
                    MessagePredicate::IsVersion,
                    ErrPolicy::FailOnly,
                );
                match s.3 {
                    WaitOutcome::Found(_) => match t.3 {
                        WaitOutcome::Found(m) => r is Ok,
                        WaitOutcome::Aborted(sa) => r matches Err(Error::CommandError(ss)) && ss@
                            == sa,
                        WaitOutcome::Fatal(e) => r matches Err(Error::SerialError(e2)) && e2 == e,
                        WaitOutcome::Exhausted => r matches Err(Error::TimeoutError),
                    },
                    WaitOutcome::Aborted(sa) => r matches Err(Error::CommandError(ss)) && ss@
                        == sa,
                    WaitOutcome::Fatal(e) => r matches Err(Error::SerialError(e2)) && e2 == e,
                    WaitOutcome::Exhausted => r matches Err(Error::TimeoutError),
                }
            }),
    {
        let cmd = String::from_str("SKVER");
        match self.send_command(&cmd) {
            Ok(_) => {},
            Err(e) => {
                proof {
                    if old(self).conn_reliable() {
                        assert(false);
                    }
                }
                return Err(e);
            },
        }
        proof {
            assert(spec_first_match(self.buffer_view(), MessagePredicate::IsAck) is None);
            assert(Seq::<SpecSerialMessage>::empty() + spec_wait(
                self.parser_pending(),
                self.conn_incoming(),
                MessagePredicate::IsAck,
                ErrPolicy::FailOnly,
            ).2 =~= spec_wait(
                self.parser_pending(),
                self.conn_incoming(),
                MessagePredicate::IsAck,
                ErrPolicy::FailOnly,
            ).2);
        }
        match self.wait_ok() {
            Ok(_) => {},
            Err(e) => {
                return Err(e);
            },
        }
        let msg = match self.wait_fn(MessagePredicate::IsVersion, ErrPolicy::FailOnly) {
            Ok(m) => m,
            Err(e) => {
                return Err(e);
            },
        };
        proof {
            lemma_wait_consumed_bound(
                old(self).parser_pending(),
                old(self).conn_incoming(),
                MessagePredicate::IsAck,
                ErrPolicy::FailOnly,
            );
            let s = spec_wait_full(
                Seq::<SpecSerialMessage>::empty(),
                old(self).parser_pending(),
                old(self).conn_incoming(),
                MessagePredicate::IsAck,
                ErrPolicy::FailOnly,
            );
            assert(s.2 <= old(self).conn_incoming().len());
            let entries1 = old(self).conn_incoming().skip(s.2 as int);
            let t = spec_wait_full(
                s.0,
                s.1,
                entries1,
                MessagePredicate::IsVersion,
                ErrPolicy::FailOnly,
            );
            lemma_wait_consumed_bound(s.1, entries1, MessagePredicate::IsVersion,
                ErrPolicy::FailOnly);
            assert(entries1.skip(t.2 as int) =~= old(self).conn_incoming().skip(s.2 + t.2 as int));
            assert(t.3 matches WaitOutcome::Found(m2) && m2 == msg@);
        }
        match msg {
            SerialMessage::Event(WiSunEvent::Version(ver)) => Ok(ver),
            _ => {
                proof {
                    assert(false);
                }
                Err(Error::CommandError(String::from_str("Unexpected msg")))
            },
        }
    }

    /// Set the PANA password: `SKSETPWD <len:X> <password>`.
    fn set_password(&mut self, password: &str) -> (r: Result<()>)
        requires
            old(self).wf(),
        ensures
            final(self).wf(),
            final(self).address_view() == old(self).address_view(),
            final(self).property_map_view() == old(self).property_map_view(),
            r is Ok ==> final(self).conn_outgoing() == old(self).conn_outgoing()
                + vstd::utf8::encode_utf8(
                "SKSETPWD "@ + ascii_chars_of(
                    hex_nopad_ascii((vstd::utf8::encode_utf8(password@).len() as usize) as nat),
                ) + " "@ + password@,
            ) + seq![13u8, 10u8],
    {
        let n = password.len();
        let mut ascii: Vec<u8> = Vec::new();
        push_hex_nopad(&mut ascii, n as u64);
        proof {
            lemma_hex_nopad_ascii(n as nat);
        }
        let mut cmd = String::from_str("SKSETPWD ");
        let hex = crate::text::ascii_to_string(ascii);
        cmd.append(hex.as_str());
        cmd.append(" ");
        cmd.append(password);
        proof {
            assert(cmd@ =~= "SKSETPWD "@ + ascii_chars_of(
                hex_nopad_ascii((vstd::utf8::encode_utf8(password@).len() as usize) as nat),
            ) + " "@ + password@);
        }
        match self.send_command(&cmd) {
            Ok(_) => {},
            Err(e) => {
                return Err(e);
            },
        }
        self.wait_ok()
    }

    /// Set the route-B identifier: `SKSETRBID <bid>`.
    fn set_bid(&mut self, bid: &str) -> (r: Result<()>)
        requires
            old(self).wf(),
        ensures
            final(self).wf(),
            final(self).address_view() == old(self).address_view(),
            final(self).property_map_view() == old(self).property_map_view(),
            r is Ok ==> final(self).conn_outgoing() == old(self).conn_outgoing()
                + vstd::utf8::encode_utf8("SKSETRBID "@ + bid@) + seq![13u8, 10u8],
    {
        let mut cmd = String::from_str("SKSETRBID ");
        cmd.append(bid);
        match self.send_command(&cmd) {
            Ok(_) => {},
            Err(e) => {
                return Err(e);
            },
        }
        self.wait_ok()
    }

    /// Set a module register: `SKSREG <reg> <value>`.
    fn set_register(&mut self, reg: &str, value: &str) -> (r: Result<()>)
        requires
            old(self).wf(),
        ensures
            final(self).wf(),
            final(self).address_view() == old(self).address_view(),
            final(self).property_map_view() == old(self).property_map_view(),
            r is Ok ==> final(self).conn_outgoing() == old(self).conn_outgoing()
                + vstd::utf8::encode_utf8("SKSREG "@ + reg@ + " "@ + value@) + seq![13u8, 10u8],
    {
        let mut cmd = String::from_str("SKSREG ");
        cmd.append(reg);
        cmd.append(" ");
        cmd.append(value);
        match self.send_command(&cmd) {
            Ok(_) => {},
            Err(e) => {
                return Err(e);
            },
        }
        self.wait_ok()
    }

    /// Scan for a coordinator: for each duration from 4 through 9, start
    /// an active scan, wait for its end event, and take a PAN description
    /// out of the buffer — also one that arrived before the end event.
    pub fn scan(&mut self) -> (r: Result<PanDescBody>)
        requires
            old(self).wf(),
        ensures
            final(self).wf(),
            final(self).address_view() == old(self).address_view(),
            final(self).property_map_view() == old(self).property_map_view(),
            r matches Err(e) ==> (e matches Error::ScanError(_) || e matches Error::CommandError(
                _,
            ) || e matches Error::SerialError(_) || e == Error::TimeoutError),
            r matches Err(Error::ScanError(_)) ==> final(self).conn_outgoing() == old(
                self,
            ).conn_outgoing() + spec_scan_cmds(4, 10),
            r is Ok ==> exists|d: int|
                4 <= d < 10 && final(self).conn_outgoing() == old(self).conn_outgoing()
                    + #[trigger] spec_scan_cmds(4, d + 1),
            r matches Ok(b) ==> exists|p1: Option<Seq<char>>, e1: Seq<ReadEntry>|
                #![trigger spec_scan_round(p1, e1)]
                ({
                    let s = spec_scan_round(p1, e1).0;
                    let t = spec_scan_round(p1, e1).1;
                    &&& exists|k: nat|
                        k <= old(self).conn_incoming().len() && e1 == old(
                            self,
                        ).conn_incoming().skip(k as int)
                    &&& s.3 is Found
                    &&& t.3 is Found
                    &&& spec_first_match(t.0, MessagePredicate::IsPanDesc) matches Some(i)
                        && t.0[i] == SpecSerialMessage::Event(SpecWiSunEvent::PanDesc(b@))
                        && final(self).buffer_view() == t.0.remove(i)
                    &&& final(self).parser_pending() == t.1
                }),
            old(self).conn_reliable() ==> match spec_scan_outcome(
                old(self).parser_pending(),
                old(self).conn_incoming(),
                4,
            ) {
                ScanStep::FoundPan(b) => r matches Ok(bb) && bb@ == b,
                ScanStep::Stopped(w) => match w {
                    WaitOutcome::Found(_) => false,
                    WaitOutcome::Aborted(s) => r matches Err(Error::CommandError(ss)) && ss@ == s,
                    WaitOutcome::Fatal(e) => r matches Err(Error::SerialError(e2)) && e2 == e,
                    WaitOutcome::Exhausted => r matches Err(Error::TimeoutError),
                },
                ScanStep::NoPan => r matches Err(Error::ScanError(_)),
            },
    {
        let mut i: u8 = 4;
        proof {
            assert(old(self).conn_incoming().skip(0) =~= old(self).conn_incoming());
        }
        #[verifier::loop_isolation(false)]
        while i < 10
            invariant
                4 <= i <= 10,
                self.wf(),
                self.address_view() == old(self).address_view(),
                self.property_map_view() == old(self).property_map_view(),
                self.conn_outgoing() == old(self).conn_outgoing() + spec_scan_cmds(4, i as int),
                exists|k: nat|
                    k <= old(self).conn_incoming().len() && self.conn_incoming() == old(
                        self,
                    ).conn_incoming().skip(k as int),
                old(self).conn_reliable() ==> self.conn_reliable(),
                old(self).conn_reliable() ==> spec_scan_outcome(
                    old(self).parser_pending(),
                    old(self).conn_incoming(),
                    4,
                ) == spec_scan_outcome(self.parser_pending(), self.conn_incoming(), i as int),
            decreases 10 - i,
        {
            let ghost p1 = self.parser_pending();
            let ghost e1 = self.conn_incoming();
            let mut cmd = String::from_str("SKSCAN 2 FFFFFFFF ");
            let mut digit: Vec<u8> = Vec::new();
            push_hex_nopad(&mut digit, i as u64);
            proof {
                lemma_hex_nopad_ascii(i as nat);
            }
            let ds = crate::text::ascii_to_string(digit);
            cmd.append(ds.as_str());
            proof {
                assert(cmd@ =~= "SKSCAN 2 FFFFFFFF "@ + ascii_chars_of(hex_nopad_ascii(
                    i as nat,
                )));
            }
            match self.send_command(&cmd) {
                Ok(_) => {},
                Err(e) => {
                    proof {
                        if old(self).conn_reliable() {
                            assert(false);
                        }
                    }
                    return Err(e);
                },
            }
            proof {
                lemma_scan_cmds_snoc(4, i as int);
                assert(self.conn_outgoing() =~= old(self).conn_outgoing() + spec_scan_cmds(
                    4,
                    i as int + 1,
                ));
            }
            proof {
                assert(spec_first_match(self.buffer_view(), MessagePredicate::IsAck) is None);
                assert(Seq::<SpecSerialMessage>::empty() + spec_wait(
                    p1,
                    e1,
                    MessagePredicate::IsAck,
                    ErrPolicy::FailOnly,
                ).2 =~= spec_wait(p1, e1, MessagePredicate::IsAck, ErrPolicy::FailOnly).2);
            }
            match self.wait_ok() {
                Ok(_) => {},
                Err(e) => {
                    proof {
                        if old(self).conn_reliable() {
                            let s = spec_scan_round(p1, e1).0;
                            assert(!(s.3 is Found));
                            assert(spec_scan_outcome(p1, e1, i as int) == ScanStep::Stopped(s.3));
                        }
                    }
                    return Err(e);
                },
            }
            proof {
                if old(self).conn_reliable() {
                    let s = spec_scan_round(p1, e1).0;
                    assert(s.3 is Found);
                    assert(self.conn_reliable());
                }
            }
            match self.wait_fn(
                MessagePredicate::IsEventOf(EventKind::FinishedActiveScan),
                ErrPolicy::FailOnly,
            ) {
                Ok(_) => {},
                Err(e) => {
                    proof {
                        if old(self).conn_reliable() {
                            let s = spec_scan_round(p1, e1).0;
                            let t = spec_scan_round(p1, e1).1;
                            assert(s.3 is Found);
                            assert(!(t.3 is Found));
                            assert(spec_scan_outcome(p1, e1, i as int) == ScanStep::Stopped(t.3));
                        }
                    }
                    return Err(e);
                },
            }
            proof {
                let s = spec_scan_round(p1, e1).0;
                lemma_wait_consumed_bound(p1, e1, MessagePredicate::IsAck, ErrPolicy::FailOnly);
                let entries2 = e1.skip(s.2 as int);
                let t = spec_scan_round(p1, e1).1;
                lemma_wait_consumed_bound(
                    s.1,
                    entries2,
                    MessagePredicate::IsEventOf(EventKind::FinishedActiveScan),
                    ErrPolicy::FailOnly,
                );
                assert(self.buffer_view() == t.0);
                assert(self.parser_pending() == t.1);
                assert(self.conn_incoming() == entries2.skip(t.2 as int));
                let k1 = choose|k: nat|
                    k <= old(self).conn_incoming().len() && e1 == old(self).conn_incoming().skip(
                        k as int,
                    );
                assert(entries2.skip(t.2 as int) =~= old(self).conn_incoming().skip(
                    k1 + s.2 + t.2 as int,
                ));
                assert(k1 + s.2 + t.2 <= old(self).conn_incoming().len());
            }
            let ghost prebuf = self.buffer_view();
            match self.search_on_buffer(&MessagePredicate::IsPanDesc) {
                Some(SerialMessage::Event(WiSunEvent::PanDesc(body))) => {
                    proof {
                        lemma_first_match_bounds(prebuf, MessagePredicate::IsPanDesc);
                        if old(self).conn_reliable() {
                            let t = spec_scan_round(p1, e1).1;
                            let idx = spec_first_match(
                                prebuf,
                                MessagePredicate::IsPanDesc,
                            ).unwrap();
                            assert(spec_scan_outcome(p1, e1, i as int) == ScanStep::FoundPan(
                                spec_pan_of(t.0[idx]),
                            ));
                        }
                    }
                    return Ok(body);
                },
                Some(_) => {
                    proof {
                        lemma_first_match_bounds(prebuf, MessagePredicate::IsPanDesc);
                        assert(false);
                    }
                },
                None => {
                    proof {
                        if old(self).conn_reliable() {
                            let s = spec_scan_round(p1, e1).0;
                            let t = spec_scan_round(p1, e1).1;
                            assert(self.conn_incoming() =~= e1.skip(s.2 + t.2 as int));
                            assert(spec_scan_outcome(p1, e1, i as int) == spec_scan_outcome(
                                t.1,
                                e1.skip(s.2 + t.2 as int),
                                i as int + 1,
                            ));
                        }
                    }
                },
            }
            i = i + 1;
        }
        proof {
            if old(self).conn_reliable() {
                assert(spec_scan_outcome(self.parser_pending(), self.conn_incoming(), 10)
                    == ScanStep::NoPan);
            }
        }
        Err(Error::ScanError(String::from_str("pan not found")))
    }

    /// Join the PAN at the given address: `SKJOIN <ipv6>`, then wait for
    /// the PANA connection to be established; a connection error or a
    /// `FAIL` aborts.
    #[verifier::rlimit(100)]
    #[verifier::spinoff_prover]
    pub fn join(&mut self, addr: &Ipv6Addr) -> (r: Result<()>)
        requires
            old(self).wf(),
        ensures
            final(self).wf(),
            final(self).address_view() == old(self).address_view(),
            final(self).property_map_view() == old(self).property_map_view(),
            r is Ok ==> final(self).conn_outgoing() == old(self).conn_outgoing()
                + vstd::utf8::encode_utf8("SKJOIN "@ + spec_ipv6_chars(addr@)) + seq![
                13u8,
                10u8,
            ],
            match r {
                Ok(_) => true,
                Err(Error::CommandError(_)) => true,
                Err(Error::TimeoutError) => true,
                Err(Error::SerialError(_)) => true,
                Err(_) => false,
            },
            r is Ok ==> ({
                let s = spec_wait_full(
                    old(self).buffer_view(),
                    old(self).parser_pending(),
                    old(self).conn_incoming(),
                    MessagePredicate::IsAck,
                    ErrPolicy::FailOnly,
                );
                let t = spec_wait_full(
                    s.0,
                    s.1,
                    old(self).conn_incoming().skip(s.2 as int),
                    MessagePredicate::IsEventOf(EventKind::EstablishedPanaConnection),
                    ErrPolicy::FailOrPanaError,
                );
                &&& s.3 is Found
                &&& t.3 matches WaitOutcome::Found(m)
                    && MessagePredicate::IsEventOf(EventKind::EstablishedPanaConnection).matches(m)
                &&& final(self).buffer_view() == t.0
                &&& final(self).parser_pending() == t.1
                &&& final(self).conn_incoming() == old(self).conn_incoming().skip(
                    s.2 + t.2 as int,
                )
            }),
            old(self).conn_reliable() ==> ({
                let s = spec_wait_full(
                    old(self).buffer_view(),
                    old(self).parser_pending(),
                    old(self).conn_incoming(),
                    MessagePredicate::IsAck,
                    ErrPolicy::FailOnly,
                );
                let t = spec_wait_full(
                    s.0,
                    s.1,
                    old(self).conn_incoming().skip(s.2 as int),
                    MessagePredicate::IsEventOf(EventKind::EstablishedPanaConnection),
                    ErrPolicy::FailOrPanaError,
                );
                match s.3 {
                    WaitOutcome::Found(_) => match t.3 {
                        WaitOutcome::Found(_) => r is Ok,
                        WaitOutcome::Aborted(sa) => r matches Err(Error::CommandError(ss)) && ss@
                            == sa,
                        WaitOutcome::Fatal(e) => r matches Err(Error::SerialError(e2)) && e2 == e,
                        WaitOutcome::Exhausted => r matches Err(Error::TimeoutError),
                    },
                    WaitOutcome::Aborted(sa) => r matches Err(Error::CommandError(ss)) && ss@
                        == sa,
                    WaitOutcome::Fatal(e) => r matches Err(Error::SerialError(e2)) && e2 == e,
                    WaitOutcome::Exhausted => r matches Err(Error::TimeoutError),
                }
            }),
    {
        let mut cmd = String::from_str("SKJOIN ");
        let full = ipv6_addr_full_string(addr);
        cmd.append(full.as_str());
        match self.serial_connection.write_line(cmd.as_str()) {
            Ok(_) => {},
            Err(e) => {
                proof {
                    if old(self).conn_reliable() {
                        assert(false);
                    }
                }
                return Err(Error::SerialError(e));
            },
        }
        match self.wait_ok() {
            Ok(_) => {},
            Err(e) => {
                return Err(e);
            },
        }
        let r2 = match self.wait_fn(
            MessagePredicate::IsEventOf(EventKind::EstablishedPanaConnection),
            ErrPolicy::FailOrPanaError,
        ) {
            Ok(m) => {
                proof {
                    lemma_wait_consumed_bound(
                        old(self).parser_pending(),
                        old(self).conn_incoming(),
                        MessagePredicate::IsAck,
                        ErrPolicy::FailOnly,
                    );
                    let s = spec_wait_full(
                        old(self).buffer_view(),
                        old(self).parser_pending(),
                        old(self).conn_incoming(),
                        MessagePredicate::IsAck,
                        ErrPolicy::FailOnly,
                    );
                    assert(s.2 <= old(self).conn_incoming().len());
                    let entries1 = old(self).conn_incoming().skip(s.2 as int);
                    lemma_wait_consumed_bound(
                        s.1,
                        entries1,
                        MessagePredicate::IsEventOf(EventKind::EstablishedPanaConnection),
                        ErrPolicy::FailOrPanaError,
                    );
                    let t = spec_wait_full(
                        s.0,
                        s.1,
                        entries1,
                        MessagePredicate::IsEventOf(EventKind::EstablishedPanaConnection),
                        ErrPolicy::FailOrPanaError,
                    );
                    assert(entries1.skip(t.2 as int) =~= old(self).conn_incoming().skip(
                        s.2 + t.2 as int,
                    ));
                    assert(t.3 matches WaitOutcome::Found(m2) && m2 == m@);
                    lemma_first_match_bounds(s.0, MessagePredicate::IsEventOf(
                        EventKind::EstablishedPanaConnection,
                    ));
                }
                Ok(())
            },
            Err(e) => Err(e),
        };
        r2
    }

    /// The link-local address derived from an EUI-64 MAC: `FE80::`, then
    /// the MAC with its universal/local bit flipped.
    pub fn get_ip(&self, addr: &[u8; 8]) -> (r: Ipv6Addr)
        ensures
            r@ == seq![
                0xFE80u16,
                0u16,
                0u16,
                0u16,
                (((addr@[0] ^ 0x02) as u16) * 256 + addr@[1]) as u16,
                ((addr@[2] as u16) * 256 + addr@[3]) as u16,
                ((addr@[4] as u16) * 256 + addr@[5]) as u16,
                ((addr@[6] as u16) * 256 + addr@[7]) as u16,
            ],
    {
        let b0: u8 = addr[0] ^ 0x02;
        let segments: [u16; 8] = [
            0xFE80,
            0,
            0,
            0,
            (b0 as u16) * 256 + (addr[1] as u16),
            (addr[2] as u16) * 256 + (addr[3] as u16),
            (addr[4] as u16) * 256 + (addr[5] as u16),
            (addr[6] as u16) * 256 + (addr[7] as u16),
        ];
        let r = Ipv6Addr { segments };
        proof {
            assert(r@ =~= seq![
                0xFE80u16,
                0u16,
                0u16,
                0u16,
                (((addr@[0] ^ 0x02) as u16) * 256 + addr@[1]) as u16,
                ((addr@[2] as u16) * 256 + addr@[3]) as u16,
                ((addr@[4] as u16) * 256 + addr@[5]) as u16,
                ((addr@[6] as u16) * 256 + addr@[7]) as u16,
            ]);
        }
        r
    }

    /// Connect to the meter: credentials, scan, registers, join, then the
    /// property map.
    /// The address is assigned only once the PANA join has succeeded; a
    /// failure in any earlier step leaves it as it was.
    #[verifier::rlimit(100)]
    #[verifier::spinoff_prover]
    pub fn connect(&mut self, bid: &str, password: &str) -> (r: Result<()>)
        requires
            old(self).wf(),
        ensures
            final(self).wf(),
            r is Ok ==> final(self).address_view() is Some && final(self).property_map_view()
                is Some,
            r matches Err(_) ==> final(self).property_map_view() == old(self).property_map_view(),
            final(self).address_view() == old(self).address_view() || final(self).address_view()
                is Some,
            r is Ok ==> exists|b: SpecPanDesc, d: int, tid: u16|
                #![trigger spec_derived_ip(b.addr), spec_scan_cmds(4, d + 1), spec_request_frame(
                    spec_derived_ip(b.addr),
                    tid,
                    seq![EchonetSuperClassProperty::GetPropertyMap],
                )]
                ({
                    let ip = spec_derived_ip(b.addr);
                    &&& 4 <= d < 10
                    &&& final(self).address_view() == Some(ip)
                    &&& final(self).conn_outgoing() == old(self).conn_outgoing() + spec_cmd_bytes(
                        "SKSETPWD "@ + ascii_chars_of(
                            hex_nopad_ascii(
                                (vstd::utf8::encode_utf8(password@).len() as usize) as nat,
                            ),
                        ) + " "@ + password@,
                    ) + spec_cmd_bytes("SKSETRBID "@ + bid@) + spec_scan_cmds(4, d + 1)
                        + spec_cmd_bytes(
                        "SKSREG "@ + "S2"@ + " "@ + ascii_chars_of(
                            hex_nopad_ascii(b.channel as nat),
                        ),
                    ) + spec_cmd_bytes(
                        "SKSREG "@ + "S3"@ + " "@ + ascii_chars_of(
                            hex_nopad_ascii(b.pan_id as nat),
                        ),
                    ) + spec_cmd_bytes("SKJOIN "@ + spec_ipv6_chars(ip)) + spec_request_frame(
                        ip,
                        tid,
                        seq![EchonetSuperClassProperty::GetPropertyMap],
                    )
                }),
    {
        match self.set_password(password) {
            Ok(_) => {},
            Err(e) => {
                return Err(e);
            },
        }
        let ghost g1 = *self;
        match self.set_bid(bid) {
            Ok(_) => {},
            Err(e) => {
                return Err(e);
            },
        }
        let ghost g2 = *self;
        let pan = match self.scan() {
            Ok(p) => p,
            Err(e) => {
                return Err(e);
            },
        };
        let ghost g3 = *self;
        let ghost d = choose|d: int|
            4 <= d < 10 && g3.conn_outgoing() == g2.conn_outgoing() + #[trigger] spec_scan_cmds(
                4,
                d + 1,
            );
        let mut chan: Vec<u8> = Vec::new();
        push_hex_nopad(&mut chan, pan.channel as u64);
        proof {
            lemma_hex_nopad_ascii(pan.channel as nat);
        }
        let chan_s = crate::text::ascii_to_string(chan);
        match self.set_register("S2", chan_s.as_str()) {
            Ok(_) => {},
            Err(e) => {
                return Err(e);
            },
        }
        let ghost g4 = *self;
        let mut pid: Vec<u8> = Vec::new();
        push_hex_nopad(&mut pid, pan.pan_id as u64);
        proof {
            lemma_hex_nopad_ascii(pan.pan_id as nat);
        }
        let pid_s = crate::text::ascii_to_string(pid);
        match self.set_register("S3", pid_s.as_str()) {
            Ok(_) => {},
            Err(e) => {
                return Err(e);
            },
        }
        let ghost g5 = *self;
        let ip = self.get_ip(&pan.addr);
        proof {
            assert(ip@ =~= spec_derived_ip(pan@.addr));
        }
        match self.join(&ip) {
            Ok(_) => {},
            Err(e) => {
                return Err(e);
            },
        }
        self.address = Some(ip);
        let ghost g6 = *self;
        let r = match self.get_property_map() {
            Ok(_) => Ok(()),
            Err(e) => Err(e),
        };
        proof {
            if r is Ok {
                let tid = choose|tid: u16|
                    ({
                        &&& #[trigger] spec_request_reply::<EchonetSuperClassProperty>(
                            g6.parser_pending(),
                            g6.conn_incoming(),
                            tid,
                        ) is Some
                        &&& g6.address_view() matches Some(a) && final(self).conn_outgoing()
                            == g6.conn_outgoing() + spec_request_frame(
                            a,
                            tid,
                            seq![EchonetSuperClassProperty::GetPropertyMap],
                        )
                    });
                assert(g6.address_view() == Some(ip@));
                assert(spec_cmd_bytes("SKJOIN "@ + spec_ipv6_chars(ip@))
                    == vstd::utf8::encode_utf8("SKJOIN "@ + spec_ipv6_chars(ip@)) + seq![
                    13u8,
                    10u8,
                ]);
                assert(final(self).conn_outgoing() =~= old(self).conn_outgoing() + spec_cmd_bytes(
                    "SKSETPWD "@ + ascii_chars_of(
                        hex_nopad_ascii(
                            (vstd::utf8::encode_utf8(password@).len() as usize) as nat,
                        ),
                    ) + " "@ + password@,
                ) + spec_cmd_bytes("SKSETRBID "@ + bid@) + spec_scan_cmds(4, d + 1)
                    + spec_cmd_bytes(
                    "SKSREG "@ + "S2"@ + " "@ + ascii_chars_of(
                        hex_nopad_ascii(pan@.channel as nat),
                    ),
                ) + spec_cmd_bytes(
                    "SKSREG "@ + "S3"@ + " "@ + ascii_chars_of(
                        hex_nopad_ascii(pan@.pan_id as nat),
                    ),
                ) + spec_cmd_bytes("SKJOIN "@ + spec_ipv6_chars(spec_derived_ip(pan@.addr)))
                    + spec_request_frame(
                    spec_derived_ip(pan@.addr),
                    tid,
                    seq![EchonetSuperClassProperty::GetPropertyMap],
                ));
            }
        }
        r
    }

    /// Send a UDP payload to the joined address on the ECHONET port:
    /// the textual `SKSENDTO` prefix, then the raw payload, then `\r\n`.
    #[verifier::rlimit(100)]
    #[verifier::spinoff_prover]
    pub fn send_udp(&mut self, data: &[u8]) -> (r: Result<()>)
        requires
            old(self).wf(),
            data@.len() <= 0xFFFF,
        ensures
            final(self).wf(),
            final(self).address_view() == old(self).address_view(),
            final(self).property_map_view() == old(self).property_map_view(),
            old(self).address_view() is None ==> ({
                &&& r matches Err(Error::CommandError(_))
                &&& *final(self) == *old(self)
            }),
            r is Ok ==> ({
                &&& old(self).address_view() matches Some(a)
                &&& final(self).conn_outgoing() == old(self).conn_outgoing()
                    + vstd::utf8::encode_utf8(spec_send_udp_base(a, 1, data@.len() as int))
                    + data@ + seq![13u8, 10u8]
            }),
            r is Ok ==> ({
                let s = spec_wait_full(
                    Seq::<SpecSerialMessage>::empty(),
                    old(self).parser_pending(),
                    old(self).conn_incoming(),
                    MessagePredicate::IsAck,
                    ErrPolicy::FailOnly,
                );
                &&& s.3 is Found
                &&& final(self).buffer_view() == s.0
                &&& final(self).parser_pending() == s.1
                &&& final(self).conn_incoming() == old(self).conn_incoming().skip(s.2 as int)
            }),
            old(self).conn_reliable() && old(self).address_view() is Some ==> ({
                let s = spec_wait_full(
                    Seq::<SpecSerialMessage>::empty(),
                    old(self).parser_pending(),
                    old(self).conn_incoming(),
                    MessagePredicate::IsAck,
                    ErrPolicy::FailOnly,
                );
                &&& old(self).address_view() matches Some(a) && final(self).conn_outgoing() == old(
                    self,
                ).conn_outgoing() + vstd::utf8::encode_utf8(
                    spec_send_udp_base(a, 1, data@.len() as int),
                ) + data@ + seq![13u8, 10u8]
                &&& match s.3 {
                    WaitOutcome::Found(_) => r is Ok && final(self).conn_reliable(),
                    WaitOutcome::Aborted(sa) => r matches Err(Error::CommandError(ss)) && ss@
                        == sa,
                    WaitOutcome::Fatal(e) => r matches Err(Error::SerialError(e2)) && e2 == e,
                    WaitOutcome::Exhausted => r matches Err(Error::TimeoutError),
                }
            }),
    {
        let addr = match &self.address {
            Some(a) => *a,
            None => {
                return Err(Error::CommandError(String::from_str("address is not set")));
            },
        };
        self.flush_messages();
        let base = create_send_udp_base(&addr, 1, data.len());
        let mut bin: Vec<u8> = Vec::new();
        let base_bytes = base.as_str().as_bytes_vec();
        bin.extend_from_slice(base_bytes.as_slice());
        bin.extend_from_slice(data);
        bin.push(13);
        bin.push(10);
        proof {
            assert(bin@ =~= vstd::utf8::encode_utf8(spec_send_udp_base(
                addr@,
                1,
                data@.len() as int,
            )) + data@ + seq![13u8, 10u8]);
        }
        match self.serial_connection.write_byte(bin.as_slice()) {
            Ok(_) => {},
            Err(e) => {
                proof {
                    if old(self).conn_reliable() {
                        assert(false);
                    }
                }
                return Err(Error::SerialError(e));
            },
        }
        proof {
            assert(spec_first_match(self.buffer_view(), MessagePredicate::IsAck) is None);
            assert(Seq::<SpecSerialMessage>::empty() + spec_wait(
                self.parser_pending(),
                self.conn_incoming(),
                MessagePredicate::IsAck,
                ErrPolicy::FailOnly,
            ).2 =~= spec_wait(
                self.parser_pending(),
                self.conn_incoming(),
                MessagePredicate::IsAck,
                ErrPolicy::FailOnly,
            ).2);
        }
        self.wait_ok()
    }

    /// Refuse a read of properties the remote object does not support;
    /// the property-map read itself always passes.
    fn check_property_exists<P: EchonetProperty>(&self, props: &[P]) -> (r: Result<()>)
        ensures
            r is Ok <==> spec_gate_ok(props@, self.property_map_view()),
            r matches Err(e) ==> e matches Error::CommandError(_),
    {
        if props.len() == 1 && props[0].to_u8() == EchonetSuperClassProperty::GetPropertyMap.to_u8()
         {
            return Ok(());
        }
        let map = match &self.property_map {
            Some(m) => m,
            None => {
                return Err(Error::CommandError(String::from_str(
                    "property map is not initialized.",
                )));
            },
        };
        let mut i: usize = 0;
        #[verifier::loop_isolation(false)]
        while i < props.len()
            invariant
                i <= props@.len(),
                self.property_map_view() matches Some(s) && forall|j: int|
                    0 <= j < i ==> s.contains(#[trigger] props@[j].code()),
            decreases props@.len() - i,
        {
            if !map.has_property(props[i]) {
                return Err(Error::CommandError(String::from_str(
                    "property is not implemented.",
                )));
            }
            i = i + 1;
        }
        Ok(())
    }

    /// Read properties from the meter: gate on the property map, send a
    /// read request with a fresh transaction id, and wait for the
    /// response packet that answers it.
    #[verifier::rlimit(100)]
    #[verifier::spinoff_prover]
    pub fn get_properties<P: EchonetProperty>(&mut self, props: &[P]) -> (r: Result<
        EchonetPacket<P>,
    >)
        requires
            old(self).wf(),
            props@.len() <= 255,
        ensures
            final(self).wf(),
            final(self).address_view() == old(self).address_view(),
            final(self).property_map_view() == old(self).property_map_view(),
            r matches Ok(p) ==> p@.data.source_object == EchonetObject::SmartMeter
                && p@.data.destination_object == EchonetObject::HemsController,
            !spec_gate_ok(props@, old(self).property_map_view()) ==> ({
                &&& r matches Err(Error::CommandError(_))
                &&& *final(self) == *old(self)
            }),
            r matches Ok(p) ==> exists|tid: u16|
                ({
                    &&& #[trigger] spec_request_reply::<P>(
                        old(self).parser_pending(),
                        old(self).conn_incoming(),
                        tid,
                    ) == Some(p@)
                    &&& old(self).address_view() matches Some(a) && final(self).conn_outgoing()
                        == old(self).conn_outgoing() + spec_request_frame(a, tid, props@)
                }),
            ({
                &&& old(self).conn_reliable()
                &&& spec_gate_ok(props@, old(self).property_map_view())
                &&& old(self).address_view() is Some
            }) ==> exists|tid: u16|
                final(self).conn_outgoing() == old(self).conn_outgoing()
                    + #[trigger] spec_request_frame(
                    old(self).address_view().unwrap(),
                    tid,
                    props@,
                ),
            r matches Ok(p) ==> exists|tid: u16|
                ({
                    let s = spec_wait_full(
                        Seq::<SpecSerialMessage>::empty(),
                        old(self).parser_pending(),
                        old(self).conn_incoming(),
                        MessagePredicate::IsAck,
                        ErrPolicy::FailOnly,
                    );
                    let q = spec_wait_packet_full::<P>(
                        s.0,
                        s.1,
                        old(self).conn_incoming().skip(s.2 as int),
                        tid,
                    );
                    &&& spec_gate_ok(props@, old(self).property_map_view())
                    &&& old(self).address_view() matches Some(a) && final(self).conn_outgoing()
                        == old(self).conn_outgoing() + spec_request_frame(a, tid, props@)
                    &&& s.3 is Found
                    &&& q.3 == PacketWait::Got(p@)
                    &&& #[trigger] spec_request_reply::<P>(
                        old(self).parser_pending(),
                        old(self).conn_incoming(),
                        tid,
                    ) == Some(p@)
                    &&& final(self).buffer_view() == q.0
                    &&& final(self).parser_pending() == q.1
                    &&& final(self).conn_incoming() == old(self).conn_incoming().skip(
                        s.2 + q.2 as int,
                    )
                }),
    {
        match self.check_property_exists(props) {
            Ok(_) => {},
            Err(e) => {
                return Err(e);
            },
        }
        let transaction_id = random_u16();
        let mut plist: Vec<Property<P>> = Vec::new();
        let mut i: usize = 0;
        #[verifier::loop_isolation(false)]
        while i < props.len()
            invariant
                i <= props@.len(),
                plist@.len() == i,
                forall|j: int|
                    0 <= j < i ==> (#[trigger] plist@[j])@ == (SpecProperty::<P> {
                        epc: props@[j],
                        data: Seq::<u8>::empty(),
                    }),
            decreases props@.len() - i,
        {
            plist.push(Property { epc: props[i], data: Vec::new() });
            i = i + 1;
        }
        let packet = EchonetPacket::new(
            transaction_id,
            Edata {
                source_object: EchonetObject::HemsController,
                destination_object: EchonetObject::SmartMeter,
                echonet_service: EchonetService::ReadPropertyRequest,
                properties: plist,
            },
        );
        proof {
            assert(crate::echonet::packet::view_props(packet.data.properties@)
                =~= props@.map_values(
                |p: P| SpecProperty::<P> { epc: p, data: Seq::<u8>::empty() },
            ));
            assert(packet@ == spec_read_request(transaction_id, props@));
            assert(packet_wf(packet@));
        }
        let bin = packet.dump();
        if bin.len() > 0xFFFF {
            proof {
                lemma_request_dump_len(transaction_id, props@);
                assert(false);
            }
            return Err(Error::CommandError(String::from_str("request too long")));
        }
        match self.send_udp(bin.as_slice()) {
            Ok(_) => {},
            Err(e) => {
                proof {
                    if old(self).conn_reliable() && old(self).address_view() is Some {
                        assert(bin@ == spec_dump_packet(spec_read_request(
                            transaction_id,
                            props@,
                        )));
                        let a0 = old(self).address_view().unwrap();
                        assert(final(self).conn_outgoing() == old(self).conn_outgoing()
                            + spec_request_frame(a0, transaction_id, props@));
                    }
                }
                return Err(e);
            },
        }
        let ghost mid = *self;
        let r = self.wait_echonet_packet::<P>(transaction_id);
        proof {
            if old(self).address_view() is Some {
                assert(bin@ == spec_dump_packet(spec_read_request(transaction_id, props@)));
                assert(final(self).conn_outgoing() == mid.conn_outgoing());
                let a0 = old(self).address_view().unwrap();
                if mid.conn_outgoing() == old(self).conn_outgoing() + vstd::utf8::encode_utf8(
                    spec_send_udp_base(a0, 1, bin@.len() as int),
                ) + bin@ + seq![13u8, 10u8] {
                    assert(final(self).conn_outgoing() == old(self).conn_outgoing()
                        + spec_request_frame(a0, transaction_id, props@));
                }
            }
        }
        proof {
            if r is Ok {
                let tid = transaction_id;
                let s = spec_wait_full(
                    Seq::<SpecSerialMessage>::empty(),
                    old(self).parser_pending(),
                    old(self).conn_incoming(),
                    MessagePredicate::IsAck,
                    ErrPolicy::FailOnly,
                );
                lemma_wait_consumed_bound(
                    old(self).parser_pending(),
                    old(self).conn_incoming(),
                    MessagePredicate::IsAck,
                    ErrPolicy::FailOnly,
                );
                assert(mid.buffer_view() == s.0);
                assert(mid.parser_pending() == s.1);
                assert(mid.conn_incoming() == old(self).conn_incoming().skip(s.2 as int));
                let q = spec_wait_packet_full::<P>(
                    s.0,
                    s.1,
                    old(self).conn_incoming().skip(s.2 as int),
                    tid,
                );
                lemma_wait_packet_consumed_bound::<P>(
                    s.1,
                    old(self).conn_incoming().skip(s.2 as int),
                    tid,
                );
                assert(s.2 <= old(self).conn_incoming().len());
                assert(old(self).conn_incoming().skip(s.2 as int).skip(q.2 as int) =~= old(
                    self,
                ).conn_incoming().skip(s.2 + q.2 as int)) by {
                    if spec_first_reply::<P>(s.0, tid) is None {
                        assert(q.2 <= old(self).conn_incoming().skip(s.2 as int).len());
                    }
                }
                assert(final(self).conn_incoming() == old(self).conn_incoming().skip(
                    s.2 + q.2 as int,
                ));
                assert(s.3 is Found);
                assert(q.3 matches PacketWait::Got(pm2) && r matches Ok(pp) && pp@ == pm2);
                let pp = r->Ok_0;
                assert(q.3 == PacketWait::Got(pp@));
                assert(spec_request_reply::<P>(
                    old(self).parser_pending(),
                    old(self).conn_incoming(),
                    tid,
                ) == Some(pp@));
                assert(bin@ == spec_dump_packet(spec_read_request(tid, props@)));
            }
        }
        r
    }

    /// Wait for the inbound UDP datagram answering transaction `tid`, from
    /// the meter to this controller: the oldest buffered answer if one is
    /// already there, else the first to arrive.  A `FAIL` reply aborts;
    /// other messages stay buffered; the wait gives up after the request
    /// timeout.
    #[verifier::rlimit(100)]
    #[verifier::spinoff_prover]
    fn wait_echonet_packet<P: EchonetProperty>(&mut self, tid: u16) -> (r: Result<
        EchonetPacket<P>,
    >)
        requires
            old(self).wf(),
        ensures
            final(self).wf(),
            final(self).conn_outgoing() == old(self).conn_outgoing(),
            final(self).address_view() == old(self).address_view(),
            final(self).property_map_view() == old(self).property_map_view(),
            r matches Ok(p) ==> p@.transaction_id == tid && p@.data.source_object
                == EchonetObject::SmartMeter && p@.data.destination_object
                == EchonetObject::HemsController,
            ({
                let w = spec_wait_packet_full::<P>(
                    old(self).buffer_view(),
                    old(self).parser_pending(),
                    old(self).conn_incoming(),
                    tid,
                );
                &&& final(self).buffer_view() == w.0
                &&& final(self).parser_pending() == w.1
                &&& final(self).conn_incoming() == old(self).conn_incoming().skip(w.2 as int)
                &&& match w.3 {
                    PacketWait::Got(p) => r matches Ok(pp) && pp@ == p,
                    PacketWait::Aborted(s) => r matches Err(Error::CommandError(ss)) && ss@ == s,
                    PacketWait::Fatal(e) => r matches Err(Error::SerialError(e2)) && e2 == e,
                    PacketWait::Exhausted => r matches Err(Error::TimeoutError),
                }
            }) || ({
                let w = spec_wait_packet::<P>(
                    old(self).parser_pending(),
                    old(self).conn_incoming(),
                    tid,
                );
                &&& r matches Err(Error::TimeoutError)
                &&& spec_first_reply::<P>(old(self).buffer_view(), tid) is None
                &&& exists|k: nat|
                    k <= old(self).conn_incoming().len() && final(self).conn_incoming() == old(
                        self,
                    ).conn_incoming().skip(k as int)
                &&& exists|j: nat|
                    j <= w.2.len() && final(self).buffer_view() == old(self).buffer_view()
                        + w.2.take(j as int)
            }),
    {
        proof {
            lemma_first_reply_bounds::<P>(old(self).buffer_view(), tid);
        }
        let mut i: usize = 0;
        #[verifier::loop_isolation(false)]
        while i < self.message_buffer.len()
            invariant
                i <= self.message_buffer@.len(),
                self.message_buffer == old(self).message_buffer,
                self.serial_connection == old(self).serial_connection,
                self.serial_parser == old(self).serial_parser,
                self.address == old(self).address,
                self.property_map == old(self).property_map,
                forall|j: int|
                    0 <= j < i ==> !spec_is_reply::<P>(#[trigger] old(self).buffer_view()[j], tid),
            decreases self.message_buffer@.len() - i,
        {
            match reply_check::<P>(&self.message_buffer[i], tid) {
                Some(pkt) => {
                    proof {
                        lemma_first_reply_at::<P>(old(self).buffer_view(), tid, i as int);
                    }
                    self.message_buffer.remove(i);
                    proof {
                        assert(final(self).buffer_view() =~= old(self).buffer_view().remove(
                            i as int,
                        ));
                        assert(old(self).conn_incoming().skip(0) =~= old(self).conn_incoming());
                    }
                    return Ok(pkt);
                },
                None => {},
            }
            i = i + 1;
        }
        proof {
            lemma_first_reply_bounds::<P>(old(self).buffer_view(), tid);
            match spec_first_reply::<P>(old(self).buffer_view(), tid) {
                Some(k) => {
                    assert(spec_is_reply::<P>(old(self).buffer_view()[k], tid));
                },
                None => {},
            }
        }

        let start = now_millis();
        let ghost w0p = spec_wait_packet::<P>(
            old(self).parser_pending(),
            old(self).conn_incoming(),
            tid,
        );
        let ghost consumed: nat = 0;
        let ghost buffered: nat = 0;
        #[verifier::loop_isolation(false)]
        loop
            invariant
                self.wf(),
                self.conn_outgoing() == old(self).conn_outgoing(),
                self.address_view() == old(self).address_view(),
                self.property_map_view() == old(self).property_map_view(),
                spec_first_reply::<P>(old(self).buffer_view(), tid) is None,
                consumed <= w0p.0,
                buffered <= w0p.2.len(),
                consumed + self.conn_incoming().len() == old(self).conn_incoming().len(),
                self.conn_incoming() == old(self).conn_incoming().skip(consumed as int),
                self.buffer_view() == old(self).buffer_view() + w0p.2.take(buffered as int),
                spec_wait_packet::<P>(self.parser_pending(), self.conn_incoming(), tid) == (
                    (w0p.0 - consumed) as nat,
                    w0p.1,
                    w0p.2.skip(buffered as int),
                    w0p.3,
                ),
            decreases self.conn_incoming().len(),
        {
            let now = now_millis();
            if now >= start && now - start > REQUEST_TIMEOUT_MILLIS {
                return Err(Error::TimeoutError);
            }
            let ghost entries0 = self.conn_incoming();
            let ghost pending0 = self.parser_pending();
            let ghost gm = spec_get_message(pending0, entries0);
            proof {
                lemma_gm_progress(pending0, entries0);
            }
            match self.get_message() {
                Ok(true) => {
                    proof {
                        assert(self.buffer_view().len() >= 1);
                        assert(self.message_buffer@.len() == self.buffer_view().len());
                        assert(gm.0 <= entries0.len());
                        assert(entries0.skip(gm.0 as int) =~= old(self).conn_incoming().skip(
                            consumed as int + gm.0 as int,
                        ));
                        assert(gm.2 is GotMsg);
                        let gmm = gm.2->GotMsg_0;
                        assert(self.buffer_view() == (old(self).buffer_view() + w0p.2.take(
                            buffered as int,
                        )).push(gmm));
                        assert(self.buffer_view().last() == gmm);
                    }
                    let idx = self.message_buffer.len() - 1;
                    let ghost prevec = self.message_buffer@;
                    let ghost prebuf = self.buffer_view();
                    match reply_check::<P>(&self.message_buffer[idx], tid) {
                        Some(pkt) => {
                            match self.message_buffer.pop() {
                                Some(_) => {
                                    proof {
                                        let gmm = gm.2->GotMsg_0;
                                        assert(spec_is_reply::<P>(gmm, tid));
                                        assert(spec_wait_packet::<P>(pending0, entries0, tid) == (
                                            gm.0,
                                            gm.1,
                                            Seq::<SpecSerialMessage>::empty(),
                                            PacketWait::Got(spec_reply_of::<P>(gmm)),
                                        ));
                                        assert(w0p.3 == PacketWait::Got(spec_reply_of::<P>(gmm)));
                                        assert(self.message_buffer@ == prevec.drop_last());
                                        assert forall|j: int|
                                            0 <= j < self.buffer_view().len() implies #[trigger] self.buffer_view()[j]
                                            == prebuf[j] by {
                                            assert(self.message_buffer@[j] == prevec[j]);
                                        }
                                        assert(self.buffer_view() =~= prebuf.drop_last());
                                        assert(w0p.2.skip(buffered as int) =~= Seq::<
                                            SpecSerialMessage,
                                        >::empty());
                                        assert(w0p.2.take(buffered as int) =~= w0p.2);
                                        assert(self.buffer_view() =~= old(self).buffer_view()
                                            + w0p.2.take(buffered as int));
                                        assert(consumed + gm.0 == w0p.0);
                                        assert(pkt@ == spec_reply_of::<P>(gmm));
                                    }
                                    return Ok(pkt);
                                },
                                None => {
                                    proof {
                                        assert(false);
                                    }
                                    return Err(Error::TimeoutError);
                                },
                            }
                        },
                        None => {},
                    }
                    let trig = ErrPolicy::FailOnly.check(&self.message_buffer[idx]);
                    match trig {
                        Some(reason) => {
                            proof {
                                let gmm = gm.2->GotMsg_0;
                                assert(!spec_is_reply::<P>(gmm, tid));
                                assert(ErrPolicy::FailOnly.spec_trigger(gmm) == Some(reason@));
                                assert(spec_wait_packet::<P>(pending0, entries0, tid) == (
                                    gm.0,
                                    gm.1,
                                    seq![gmm],
                                    PacketWait::<P>::Aborted(reason@),
                                ));
                                assert(w0p.2.skip(buffered as int) =~= seq![gmm]);
                                assert(w0p.2 =~= w0p.2.take(buffered as int) + seq![gmm]);
                                assert(self.buffer_view() =~= old(self).buffer_view() + w0p.2);
                                assert(consumed + gm.0 == w0p.0);
                            }
                            return Err(Error::CommandError(reason));
                        },
                        None => {
                            proof {
                                let gmm = gm.2->GotMsg_0;
                                assert(!spec_is_reply::<P>(gmm, tid));
                                assert(ErrPolicy::FailOnly.spec_trigger(gmm) is None);
                                let rec = spec_wait_packet::<P>(
                                    self.parser_pending(),
                                    self.conn_incoming(),
                                    tid,
                                );
                                assert(self.parser_pending() == gm.1);
                                assert(self.conn_incoming() == entries0.skip(gm.0 as int));
                                assert(spec_wait_packet::<P>(pending0, entries0, tid) == (
                                    (gm.0 + rec.0) as nat,
                                    rec.1,
                                    seq![gmm] + rec.2,
                                    rec.3,
                                ));
                                assert(w0p.2.skip(buffered as int) =~= seq![gmm] + rec.2);
                                assert(w0p.2.skip(buffered as int).len() >= 1);
                                assert(buffered < w0p.2.len());
                                assert(w0p.2.skip(buffered as int)[0] == (seq![gmm] + rec.2)[0]);
                                assert(w0p.2.skip(buffered as int)[0] == gmm);
                                assert(w0p.2[buffered as int] == w0p.2.skip(buffered as int)[0]);
                                assert(w0p.2[buffered as int] == gmm);
                                assert(w0p.2.take(buffered as int + 1) =~= w0p.2.take(
                                    buffered as int,
                                ).push(gmm));
                                assert(self.buffer_view() =~= old(self).buffer_view()
                                    + w0p.2.take(buffered as int + 1));
                                assert(w0p.2.skip(buffered as int + 1) =~= w0p.2.skip(
                                    buffered as int,
                                ).skip(1));
                                assert((seq![gmm] + rec.2).skip(1) =~= rec.2);
                                assert(w0p.2.skip(buffered as int + 1) =~= rec.2);
                                consumed = consumed + gm.0;
                                buffered = buffered + 1;
                            }
                        },
                    }
                },
                Ok(false) => {
                    proof {
                        assert(entries0.skip(gm.0 as int) =~= old(self).conn_incoming().skip(
                            consumed as int + gm.0 as int,
                        ));
                        consumed = consumed + gm.0;
                    }
                },
                Err(Error::SerialError(e)) => {
                    match e {
                        SerialError::Timeout => {
                            proof {
                                assert(entries0.skip(gm.0 as int) =~= old(
                                    self,
                                ).conn_incoming().skip(consumed as int + gm.0 as int));
                                consumed = consumed + gm.0;
                            }
                        },
                        SerialError::Closed => {
                            proof {
                                lemma_gm_progress(pending0, entries0);
                                if self.conn_incoming() == entries0.skip(gm.0 as int) {
                                    assert(entries0.skip(gm.0 as int) =~= old(
                                        self,
                                    ).conn_incoming().skip(consumed as int + gm.0 as int));
                                    assert(consumed + gm.0 <= old(self).conn_incoming().len());
                                } else {
                                    let k2 = choose|k2: nat|
                                        k2 <= entries0.len() && self.conn_incoming()
                                            == entries0.skip(k2 as int);
                                    assert(entries0.skip(k2 as int) =~= old(
                                        self,
                                    ).conn_incoming().skip(consumed as int + k2 as int));
                                    assert(consumed + k2 <= old(self).conn_incoming().len());
                                }
                            }
                            return Err(Error::TimeoutError);
                        },
                        _ => {
                            proof {
                                assert(w0p.2.skip(buffered as int) =~= Seq::<
                                    SpecSerialMessage,
                                >::empty());
                                assert(w0p.2.take(buffered as int) =~= w0p.2);
                                assert(self.buffer_view() =~= old(self).buffer_view() + w0p.2);
                                assert(consumed + gm.0 == w0p.0);
                                assert(entries0.skip(gm.0 as int) =~= old(
                                    self,
                                ).conn_incoming().skip(consumed as int + gm.0 as int));
                            }
                            return Err(Error::SerialError(e));
                        },
                    }
                },
                Err(e) => {
                    proof {
                        assert(false);
                    }
                    return Err(e);
                },
            }
        }
    }

    /// Read the instantaneous electric power, in watts.
    pub fn get_power_consumption(&mut self) -> (r: Result<i32>)
        requires
            old(self).wf(),
        ensures
            final(self).wf(),
            final(self).address_view() == old(self).address_view(),
            final(self).property_map_view() == old(self).property_map_view(),
            !spec_gate_ok(
                seq![EchonetSmartMeterProperty::InstantaneousElectricPower],
                old(self).property_map_view(),
            ) ==> ({
                &&& r matches Err(Error::CommandError(_))
                &&& *final(self) == *old(self)
            }),
            r matches Ok(w) ==> exists|tid: u16|
                ({
                    &&& #[trigger] spec_request_reply::<EchonetSmartMeterProperty>(
                        old(self).parser_pending(),
                        old(self).conn_incoming(),
                        tid,
                    ) matches Some(p)
                    &&& crate::echonet::packet::spec_find_property(
                        p.data.properties,
                        EchonetSmartMeterProperty::InstantaneousElectricPower,
                    ) matches Some(prop)
                    &&& prop.data.len() == 4
                    &&& w == crate::echonet::packet::spec_i32_of(prop.data)
                }),
    {
        let props: [EchonetSmartMeterProperty; 1] = [
            EchonetSmartMeterProperty::InstantaneousElectricPower,
        ];
        let ps = props.as_slice();
        proof {
            assert(ps@ =~= seq![EchonetSmartMeterProperty::InstantaneousElectricPower]);
        }
        let packet = match self.get_properties(ps) {
            Ok(p) => p,
            Err(e) => {
                return Err(e);
            },
        };
        let ghost tid = choose|tid: u16|
            #[trigger] spec_request_reply::<EchonetSmartMeterProperty>(
                old(self).parser_pending(),
                old(self).conn_incoming(),
                tid,
            ) == Some(packet@);
        match packet.get_property(EchonetSmartMeterProperty::InstantaneousElectricPower) {
            Some(p) => match p.get_i32() {
                Some(w) => {
                    proof {
                        assert(spec_request_reply::<EchonetSmartMeterProperty>(
                            old(self).parser_pending(),
                            old(self).conn_incoming(),
                            tid,
                        ) == Some(packet@));
                    }
                    Ok(w)
                },
                None => Err(Error::CommandError(String::from_str("malformed property"))),
            },
            None => Err(Error::CommandError(String::from_str("unknown error"))),
        }
    }

    /// Discover which properties the meter supports, and remember them.
    #[verifier::rlimit(100)]
    #[verifier::spinoff_prover]
    pub fn get_property_map(&mut self) -> (r: Result<()>)
        requires
            old(self).wf(),
        ensures
            final(self).wf(),
            final(self).address_view() == old(self).address_view(),
            r is Ok ==> final(self).property_map_view() is Some,
            r matches Err(_) ==> final(self).property_map_view() == old(
                self,
            ).property_map_view(),
            r is Ok ==> exists|tid: u16|
                ({
                    &&& #[trigger] spec_request_reply::<EchonetSuperClassProperty>(
                        old(self).parser_pending(),
                        old(self).conn_incoming(),
                        tid,
                    ) matches Some(p)
                    &&& crate::echonet::packet::spec_find_property(
                        p.data.properties,
                        EchonetSuperClassProperty::GetPropertyMap,
                    ) matches Some(prop)
                    &&& final(self).property_map_view() matches Some(s)
                        && crate::echonet::property_map::spec_parse_property_map(prop.data)
                        == Some(s)
                    &&& old(self).address_view() matches Some(a) && final(self).conn_outgoing()
                        == old(self).conn_outgoing() + spec_request_frame(
                        a,
                        tid,
                        seq![EchonetSuperClassProperty::GetPropertyMap],
                    )
                }),
    {
        let props: [EchonetSuperClassProperty; 1] = [EchonetSuperClassProperty::GetPropertyMap];
        let ps = props.as_slice();
        proof {
            assert(ps@ =~= seq![EchonetSuperClassProperty::GetPropertyMap]);
        }
        let packet = match self.get_properties(ps) {
            Ok(p) => p,
            Err(e) => {
                return Err(e);
            },
        };
        let ghost tid = choose|tid: u16|
            ({
                &&& #[trigger] spec_request_reply::<EchonetSuperClassProperty>(
                    old(self).parser_pending(),
                    old(self).conn_incoming(),
                    tid,
                ) == Some(packet@)
                &&& old(self).address_view() matches Some(a) && self.conn_outgoing() == old(
                    self,
                ).conn_outgoing() + spec_request_frame(
                    a,
                    tid,
                    seq![EchonetSuperClassProperty::GetPropertyMap],
                )
            });
        match packet.get_property(EchonetSuperClassProperty::GetPropertyMap) {
            Some(p) => match PropertyMap::parse(p.data.as_slice()) {
                Ok(m) => {
                    self.property_map = Some(m);
                    proof {
                        assert(spec_request_reply::<EchonetSuperClassProperty>(
                            old(self).parser_pending(),
                            old(self).conn_incoming(),
                            tid,
                        ) == Some(packet@));
                    }
                    Ok(())
                },
                Err(e) => Err(Error::PacketParseError(e)),
            },
            None => Err(Error::CommandError(String::from_str("property not found"))),
        }
    }

    /// Read the parts of the cumulative electric energy: the raw counter,
    /// the validated unit code, and the coefficient.  The product, a
    /// floating-point quantity, is left to the caller.
    pub fn get_cumulative_electric_energy_parts(&mut self) -> (r: Result<CumulativeEnergy>)
        requires
            old(self).wf(),
        ensures
            final(self).wf(),
            final(self).address_view() == old(self).address_view(),
            final(self).property_map_view() == old(self).property_map_view(),
            r matches Ok(c) ==> (c.unit == 0x00 || c.unit == 0x01 || c.unit == 0x02 || c.unit
                == 0x03 || c.unit == 0x04 || c.unit == 0x0A || c.unit == 0x0B || c.unit == 0x0C
                || c.unit == 0x0D),
            !spec_gate_ok(
                seq![
                    EchonetSmartMeterProperty::NormalDirectionCumulativeElectricEnergy,
                    EchonetSmartMeterProperty::UnitForCumulativeElectricEnergy,
                    EchonetSmartMeterProperty::Coefficient,
                ],
                old(self).property_map_view(),
            ) ==> ({
                &&& r matches Err(Error::CommandError(_))
                &&& *final(self) == *old(self)
            }),
            r matches Ok(c) ==> exists|tid: u16|
                ({
                    &&& #[trigger] spec_request_reply::<EchonetSmartMeterProperty>(
                        old(self).parser_pending(),
                        old(self).conn_incoming(),
                        tid,
                    ) matches Some(p)
                    &&& crate::echonet::packet::spec_find_property(
                        p.data.properties,
                        EchonetSmartMeterProperty::NormalDirectionCumulativeElectricEnergy,
                    ) matches Some(pe) && pe.data.len() == 4 && c.base
                        == crate::echonet::packet::spec_u32_of(pe.data)
                    &&& crate::echonet::packet::spec_find_property(
                        p.data.properties,
                        EchonetSmartMeterProperty::UnitForCumulativeElectricEnergy,
                    ) matches Some(pu) && pu.data.len() >= 1 && c.unit == pu.data[0]
                    &&& crate::echonet::packet::spec_find_property(
                        p.data.properties,
                        EchonetSmartMeterProperty::Coefficient,
                    ) matches Some(pc) && pc.data.len() == 4 && c.coefficient
                        == crate::echonet::packet::spec_u32_of(pc.data)
                }),
    {
        let props: [EchonetSmartMeterProperty; 3] = [
            EchonetSmartMeterProperty::NormalDirectionCumulativeElectricEnergy,
            EchonetSmartMeterProperty::UnitForCumulativeElectricEnergy,
            EchonetSmartMeterProperty::Coefficient,
        ];
        let ps = props.as_slice();
        proof {
            assert(ps@ =~= seq![
                EchonetSmartMeterProperty::NormalDirectionCumulativeElectricEnergy,
                EchonetSmartMeterProperty::UnitForCumulativeElectricEnergy,
                EchonetSmartMeterProperty::Coefficient,
            ]);
        }
        let packet = match self.get_properties(ps) {
            Ok(p) => p,
            Err(e) => {
                return Err(e);
            },
        };
        let ghost tid = choose|tid: u16|
            #[trigger] spec_request_reply::<EchonetSmartMeterProperty>(
                old(self).parser_pending(),
                old(self).conn_incoming(),
                tid,
            ) == Some(packet@);
        let base = match packet.get_property(
            EchonetSmartMeterProperty::NormalDirectionCumulativeElectricEnergy,
        ) {
            Some(p) => match p.get_u32() {
                Some(v) => v,
                None => {
                    return Err(Error::CommandError(String::from_str("malformed property")));
                },
            },
            None => {
                return Err(Error::CommandError(String::from_str("unknown error")));
            },
        };
        let unit = match packet.get_property(
            EchonetSmartMeterProperty::UnitForCumulativeElectricEnergy,
        ) {
            Some(p) => {
                if p.data.len() < 1 {
                    return Err(Error::CommandError(String::from_str("malformed property")));
                }
                p.data[0]
            },
            None => {
                return Err(Error::CommandError(String::from_str("unknown error")));
            },
        };
        let unit_ok = unit == 0x00 || unit == 0x01 || unit == 0x02 || unit == 0x03 || unit == 0x04
            || unit == 0x0A || unit == 0x0B || unit == 0x0C || unit == 0x0D;
        if !unit_ok {
            return Err(Error::CommandError(String::from_str("unexpected unit")));
        }
        let coefficient = match packet.get_property(EchonetSmartMeterProperty::Coefficient) {
            Some(p) => match p.get_u32() {
                Some(v) => v,
                None => {
                    return Err(Error::CommandError(String::from_str("malformed property")));
                },
            },
            None => {
                return Err(Error::CommandError(String::from_str("unknown error")));
            },
        };
        proof {
            assert(spec_request_reply::<EchonetSmartMeterProperty>(
                old(self).parser_pending(),
                old(self).conn_incoming(),
                tid,
            ) == Some(packet@));
        }
        Ok(CumulativeEnergy { base, unit, coefficient })
    }
}

/// The parts of a cumulative-energy reading; the unit code maps to a
/// scale factor of `10^(code)` steps per the ECHONET unit table.
#[derive(Debug, PartialEq, Eq, Structural, Copy, Clone)]
pub struct CumulativeEnergy {
    /// The raw counter value.
    pub base: u32,
    /// The validated unit code: `00`..`04` scale down by powers of ten,
    /// `0A`..`0D` scale up.
    pub unit: u8,
    /// The meter's multiplier for the counter.
    pub coefficient: u32,
}

/// The characters of the `SKSENDTO` prefix for an address, security bit,
/// and payload length, with its trailing space.
pub open spec fn spec_send_udp_base(a: Seq<u16>, security: u8, len: int) -> Seq<char> {
    "SKSENDTO 1 "@ + spec_ipv6_chars(a) + " "@ + ascii_chars_of(
        crate::text::hex4_ascii(ECHONET_PORT),
    ) + " "@ + ascii_chars_of(hex_nopad_ascii(security as nat)) + " "@ + ascii_chars_of(
        crate::text::hex4_ascii(len as u16),
    ) + " "@
}

/// The textual prefix written before a UDP payload.
pub fn create_send_udp_base(addr: &Ipv6Addr, security_bit: u8, data_length: usize) -> (r: String)
    requires
        data_length <= 0xFFFF,
    ensures
        r@ == spec_send_udp_base(addr@, security_bit, data_length as int),
{
    let mut s = String::from_str("SKSENDTO 1 ");
    let full = ipv6_addr_full_string(addr);
    s.append(full.as_str());
    s.append(" ");
    let mut port: Vec<u8> = Vec::new();
    push_hex4(&mut port, ECHONET_PORT);
    proof {
        crate::text::lemma_hex4_all_ascii(ECHONET_PORT);
    }
    let ps = crate::text::ascii_to_string(port);
    s.append(ps.as_str());
    s.append(" ");
    let mut sec: Vec<u8> = Vec::new();
    push_hex_nopad(&mut sec, security_bit as u64);
    proof {
        lemma_hex_nopad_ascii(security_bit as nat);
    }
    let ss = crate::text::ascii_to_string(sec);
    s.append(ss.as_str());
    s.append(" ");
    let mut lenv: Vec<u8> = Vec::new();
    push_hex4(&mut lenv, data_length as u16);
    proof {
        crate::text::lemma_hex4_all_ascii(data_length as u16);
    }
    let ls = crate::text::ascii_to_string(lenv);
    s.append(ls.as_str());
    s.append(" ");
    proof {
        assert(s@ =~= spec_send_udp_base(addr@, security_bit, data_length as int));
    }
    s
}

/// The fixed uncompressed uppercase text of an address.
pub fn ipv6_addr_full_string(ip: &Ipv6Addr) -> (r: String)
    ensures
        r@ == spec_ipv6_chars(ip@),
{
    let mut ascii: Vec<u8> = Vec::new();
    ip.push_full_ascii(&mut ascii);
    proof {
        lemma_ipv6_ascii(ip@);
        assert(ascii@ =~= crate::ipv6::spec_ipv6_ascii(ip@));
    }
    crate::text::ascii_to_string(ascii)
}


/// The first match lies within the buffer and really matches, with none
/// before it.
proof fn lemma_first_match_bounds(buf: Seq<SpecSerialMessage>, pred: MessagePredicate)
    ensures
        match spec_first_match(buf, pred) {
            Some(i) => 0 <= i < buf.len() && pred.matches(buf[i]) && forall|j: int|
                0 <= j < i ==> !pred.matches(#[trigger] buf[j]),
            None => forall|j: int| 0 <= j < buf.len() ==> !pred.matches(#[trigger] buf[j]),
        },
    decreases buf.len(),
{
    if buf.len() > 0 && !pred.matches(buf[0]) {
        lemma_first_match_bounds(buf.drop_first(), pred);
        assert(forall|j: int| 1 <= j < buf.len() ==> buf.drop_first()[j - 1] == #[trigger] buf[j]);
    }
}

/// A match at `i` with no earlier match is the first match.
proof fn lemma_first_match_at(buf: Seq<SpecSerialMessage>, pred: MessagePredicate, i: int)
    requires
        0 <= i < buf.len(),
        pred.matches(buf[i]),
        forall|j: int| 0 <= j < i ==> !pred.matches(#[trigger] buf[j]),
    ensures
        spec_first_match(buf, pred) == Some(i),
    decreases i,
{
    if i == 0 {
    } else {
        assert(forall|j: int| 0 <= j < i - 1 ==> buf.drop_first()[j] == #[trigger] buf[j + 1]);
        assert(buf.drop_first()[i - 1] == buf[i]);
        lemma_first_match_at(buf.drop_first(), pred, i - 1);
    }
}

} // verus!
