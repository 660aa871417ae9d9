use vstd::prelude::*;

use crate::ipv6::{spec_parse_ipv6, Ipv6Addr};
use crate::parser::messages::{ParseResult, SpecParseResult};
use crate::text::{
    spec_hex_decode, spec_parse_hex_u16, spec_parse_hex_u8, spec_split, spec_trim, split_str,
    trim_str, SepKind,
};

verus! {

/// The asynchronous event codes of interest on `EVENT` lines.
#[derive(Debug, PartialEq, Eq, Structural, Copy, Clone)]
pub enum EventKind {
    FinishedUdpSend,
    FinishedActiveScan,
    ErrorOnPanaConnection,
    EstablishedPanaConnection,
}

impl EventKind {
    /// The two-digit code of the event on the wire.
    pub open spec fn spec_code(self) -> u8 {
        match self {
            EventKind::FinishedUdpSend => 0x21,
            EventKind::FinishedActiveScan => 0x22,
            EventKind::ErrorOnPanaConnection => 0x24,
            EventKind::EstablishedPanaConnection => 0x25,
        }
    }

    /// The event, if any, that the code stands for.
    pub open spec fn spec_from_code(c: u8) -> Option<EventKind> {
        match c {
            0x21u8 => Some(EventKind::FinishedUdpSend),
            0x22u8 => Some(EventKind::FinishedActiveScan),
            0x24u8 => Some(EventKind::ErrorOnPanaConnection),
            0x25u8 => Some(EventKind::EstablishedPanaConnection),
            _ => None,
        }
    }

    pub fn from_code(c: u8) -> (r: Option<EventKind>)
        ensures
            r == EventKind::spec_from_code(c),
    {
        match c {
            0x21 => Some(EventKind::FinishedUdpSend),
            0x22 => Some(EventKind::FinishedActiveScan),
            0x24 => Some(EventKind::ErrorOnPanaConnection),
            0x25 => Some(EventKind::EstablishedPanaConnection),
            _ => None,
        }
    }
}

/// An `EVENT` line: a recognized kind and the sender address.
#[derive(Debug, PartialEq)]
pub struct EventBody {
    pub kind: EventKind,
    pub sender: Ipv6Addr,
}

/// Mathematical model of an `EventBody`.
pub struct SpecEventBody {
    pub kind: EventKind,
    pub sender: Seq<u16>,
}

impl View for EventBody {
    type V = SpecEventBody;

    open spec fn view(&self) -> SpecEventBody {
        SpecEventBody { kind: self.kind, sender: self.sender@ }
    }
}

/// An `ERXUDP` line: an inbound UDP datagram.
#[derive(Debug, PartialEq)]
pub struct UdpPacket {
    pub sender: Ipv6Addr,
    pub dest: Ipv6Addr,
    pub source_port: u16,
    pub dest_port: u16,
    pub sender_mac: [u8; 8],
    pub secured: u8,
    pub data: Vec<u8>,
}

/// Mathematical model of a `UdpPacket`.
pub struct SpecUdpPacket {
    pub sender: Seq<u16>,
    pub dest: Seq<u16>,
    pub source_port: u16,
    pub dest_port: u16,
    pub sender_mac: Seq<u8>,
    pub secured: u8,
    pub data: Seq<u8>,
}

impl View for UdpPacket {
    type V = SpecUdpPacket;

    open spec fn view(&self) -> SpecUdpPacket {
        SpecUdpPacket {
            sender: self.sender@,
            dest: self.dest@,
            source_port: self.source_port,
            dest_port: self.dest_port,
            sender_mac: self.sender_mac@,
            secured: self.secured,
            data: self.data@,
        }
    }
}

/// An `EPANDESC` block: the coordinator a scan found.
#[derive(Debug, PartialEq, Eq, Copy, Clone)]
pub struct PanDescBody {
    pub channel: u8,
    pub pan_id: u16,
    pub addr: [u8; 8],
}

/// Mathematical model of a `PanDescBody`.
pub struct SpecPanDesc {
    pub channel: u8,
    pub pan_id: u16,
    pub addr: Seq<u8>,
}

impl View for PanDescBody {
    type V = SpecPanDesc;

    open spec fn view(&self) -> SpecPanDesc {
        SpecPanDesc { channel: self.channel, pan_id: self.pan_id, addr: self.addr@ }
    }
}

/// One asynchronous event from the module.
#[derive(Debug, PartialEq)]
pub enum WiSunEvent {
    PanDesc(PanDescBody),
    RxUdp(UdpPacket),
    Event(EventBody),
    Version(String),
}

/// Mathematical model of a `WiSunEvent`.
pub enum SpecWiSunEvent {
    PanDesc(SpecPanDesc),
    RxUdp(SpecUdpPacket),
    Event(SpecEventBody),
    Version(Seq<char>),
}

impl View for WiSunEvent {
    type V = SpecWiSunEvent;

    open spec fn view(&self) -> SpecWiSunEvent {
        match self {
            WiSunEvent::PanDesc(b) => SpecWiSunEvent::PanDesc(b@),
            WiSunEvent::RxUdp(p) => SpecWiSunEvent::RxUdp(p@),
            WiSunEvent::Event(b) => SpecWiSunEvent::Event(b@),
            WiSunEvent::Version(s) => SpecWiSunEvent::Version(s@),
        }
    }
}

/// Classify an `EVENT <hh> <ipv6> [<param>]` line.
pub open spec fn spec_parse_event_body(data: Seq<char>, parts: Seq<Seq<char>>) -> SpecParseResult<
    SpecWiSunEvent,
> {
    if parts.len() < 3 {
        SpecParseResult::Rejected(data)
    } else {
        match spec_parse_hex_u8(parts[1]) {
            None => SpecParseResult::Rejected(data),
            Some(num) => match (EventKind::spec_from_code(num), spec_parse_ipv6(parts[2])) {
                (Some(kind), Some(sender)) => SpecParseResult::Done(
                    SpecWiSunEvent::Event(SpecEventBody { kind, sender }),
                ),
                _ => SpecParseResult::Rejected(data),
            },
        }
    }
}

/// Classify an `ERXUDP <src> <dst> <sport> <dport> <mac> <secured> <len>
/// <hexdata>` line; the data length must match the hex data.
pub open spec fn spec_parse_rx_udp(data: Seq<char>, parts: Seq<Seq<char>>) -> SpecParseResult<
    SpecWiSunEvent,
> {
    if parts.len() != 9 {
        SpecParseResult::Rejected(data)
    } else {
        match (spec_parse_ipv6(parts[1]), spec_parse_ipv6(parts[2])) {
            (Some(sender), Some(dest)) => match (
                spec_parse_hex_u16(parts[3]),
                spec_parse_hex_u16(parts[4]),
            ) {
                (Some(source_port), Some(dest_port)) => match spec_hex_decode(parts[5]) {
                    Some(mac) => if mac.len() != 8 {
                        SpecParseResult::Rejected(data)
                    } else {
                        match spec_parse_hex_u8(parts[6]) {
                            Some(secured) => match spec_parse_hex_u16(parts[7]) {
                                Some(dl) => if dl * 2 != parts[8].len() {
                                    SpecParseResult::Rejected(data)
                                } else {
                                    match spec_hex_decode(parts[8]) {
                                        Some(body) => SpecParseResult::Done(
                                            SpecWiSunEvent::RxUdp(
                                                SpecUdpPacket {
                                                    sender,
                                                    dest,
                                                    source_port,
                                                    dest_port,
                                                    sender_mac: mac,
                                                    secured,
                                                    data: body,
                                                },
                                            ),
                                        ),
                                        None => SpecParseResult::Rejected(data),
                                    }
                                },
                                None => SpecParseResult::Rejected(data),
                            },
                            None => SpecParseResult::Rejected(data),
                        }
                    },
                    None => SpecParseResult::Rejected(data),
                },
                _ => SpecParseResult::Rejected(data),
            },
            _ => SpecParseResult::Rejected(data),
        }
    }
}

/// The trimmed value of the last `key:value` line whose trimmed key is
/// `key`, among lines that each split at a colon into exactly two pieces.
pub open spec fn spec_kv_lookup(lines: Seq<Seq<char>>, key: Seq<char>) -> Option<Seq<char>>
    decreases lines.len(),
{
    if lines.len() == 0 {
        None
    } else {
        let kv = spec_split(SepKind::Colon, lines.last());
        if kv.len() == 2 && spec_trim(kv[0]) == key {
            Some(spec_trim(kv[1]))
        } else {
            spec_kv_lookup(lines.drop_last(), key)
        }
    }
}

/// Every line after the header splits at a colon into exactly two pieces.
pub open spec fn spec_pan_lines_ok(lines: Seq<Seq<char>>) -> bool {
    forall|i: int|
        1 <= i < lines.len() ==> spec_split(SepKind::Colon, #[trigger] lines[i]).len() == 2
}

/// Classify an `EPANDESC` block: reject it as soon as a collected line is
/// no `key:value` continuation, ask for more lines until seven are there,
/// then read `Channel`, `Pan ID` and `Addr` from the `key:value` lines.
pub open spec fn spec_parse_pan_desc(data: Seq<char>) -> SpecParseResult<SpecWiSunEvent> {
    let lines = spec_split(SepKind::Lf, data);
    if !spec_pan_lines_ok(lines) {
        SpecParseResult::Rejected(data)
    } else if lines.len() != 7 {
        SpecParseResult::More
    } else {
        match spec_kv_lookup(lines.skip(1), "Channel"@) {
            None => SpecParseResult::Rejected(data),
            Some(ch) => match spec_parse_hex_u8(ch) {
                None => SpecParseResult::Rejected(data),
                Some(channel) => match spec_kv_lookup(lines.skip(1), "Pan ID"@) {
                    None => SpecParseResult::Rejected(data),
                    Some(pi) => match spec_parse_hex_u16(pi) {
                        None => SpecParseResult::Rejected(data),
                        Some(pan_id) => match spec_kv_lookup(lines.skip(1), "Addr"@) {
                            None => SpecParseResult::Rejected(data),
                            Some(ad) => match spec_hex_decode(ad) {
                                Some(addr) => if addr.len() == 8 {
                                    SpecParseResult::Done(
                                        SpecWiSunEvent::PanDesc(
                                            SpecPanDesc { channel, pan_id, addr },
                                        ),
                                    )
                                } else {
                                    SpecParseResult::Rejected(data)
                                },
                                None => SpecParseResult::Rejected(data),
                            },
                        },
                    },
                },
            },
        }
    }
}

/// Classify an event line or block: empty input is `Empty`, the first
/// token picks the event family, and an unknown token is an error.
pub open spec fn spec_parse_wisun_event(data: Seq<char>) -> SpecParseResult<SpecWiSunEvent> {
    if data.len() == 0 {
        SpecParseResult::Empty
    } else {
        let t = spec_trim(data);
        let parts = spec_split(SepKind::SpaceLf, t);
        if parts[0] == "EVENT"@ {
            spec_parse_event_body(data, parts)
        } else if parts[0] == "ERXUDP"@ {
            spec_parse_rx_udp(data, parts)
        } else if parts[0] == "EPANDESC"@ {
            spec_parse_pan_desc(data)
        } else if parts[0] == "EVER"@ {
            if t.len() >= 5 && t[4] == ' ' {
                SpecParseResult::Done(SpecWiSunEvent::Version(t.skip(5)))
            } else {
                SpecParseResult::Rejected(data)
            }
        } else {
            SpecParseResult::Rejected(data)
        }
    }
}

/// Whether a string equals a literal.
fn str_is(s: &String, lit: &str) -> (r: bool)
    ensures
        r == (s@ == lit@),
{
    let l = lit.to_owned();
    s.eq(&l)
}

impl WiSunEvent {
    /// Classify an `EVENT` line.
    fn parse_event_body(data: &str, parts: &Vec<String>) -> (r: ParseResult<WiSunEvent>)
        requires
            parts@.map_values(|x: String| x@) == spec_split(SepKind::SpaceLf, spec_trim(data@)),
        ensures
            r@ == spec_parse_event_body(data@, parts@.map_values(|x: String| x@)),
    {
        let ghost sparts = parts@.map_values(|x: String| x@);
        if parts.len() < 3 {
            return ParseResult::Rejected(data.to_owned());
        }
        let num = match crate::text::parse_hex_u8(parts[1].as_str()) {
            Some(n) => n,
            None => {
                return ParseResult::Rejected(data.to_owned());
            },
        };
        let kind = match EventKind::from_code(num) {
            Some(k) => k,
            None => {
                return ParseResult::Rejected(data.to_owned());
            },
        };
        match Ipv6Addr::parse(parts[2].as_str()) {
            Some(sender) => ParseResult::Done(WiSunEvent::Event(EventBody { kind, sender })),
            None => ParseResult::Rejected(data.to_owned()),
        }
    }

    /// Classify an `ERXUDP` line.
    fn parse_rx_udp(data: &str, parts: &Vec<String>) -> (r: ParseResult<WiSunEvent>)
        requires
            parts@.map_values(|x: String| x@) == spec_split(SepKind::SpaceLf, spec_trim(data@)),
        ensures
            r@ == spec_parse_rx_udp(data@, parts@.map_values(|x: String| x@)),
    {
        let ghost sparts = parts@.map_values(|x: String| x@);
        if parts.len() != 9 {
            return ParseResult::Rejected(data.to_owned());
        }
        let sender = match Ipv6Addr::parse(parts[1].as_str()) {
            Some(a) => a,
            None => {
                return ParseResult::Rejected(data.to_owned());
            },
        };
        let dest = match Ipv6Addr::parse(parts[2].as_str()) {
            Some(a) => a,
            None => {
                return ParseResult::Rejected(data.to_owned());
            },
        };
        let source_port = match crate::text::parse_hex_u16(parts[3].as_str()) {
            Some(p) => p,
            None => {
                return ParseResult::Rejected(data.to_owned());
            },
        };
        let dest_port = match crate::text::parse_hex_u16(parts[4].as_str()) {
            Some(p) => p,
            None => {
                return ParseResult::Rejected(data.to_owned());
            },
        };
        let mac_bytes = match crate::text::hex_decode(parts[5].as_str()) {
            Some(v) => v,
            None => {
                return ParseResult::Rejected(data.to_owned());
            },
        };
        if mac_bytes.len() != 8 {
            return ParseResult::Rejected(data.to_owned());
        }
        let sender_mac: [u8; 8] = [
            mac_bytes[0],
            mac_bytes[1],
            mac_bytes[2],
            mac_bytes[3],
            mac_bytes[4],
            mac_bytes[5],
            mac_bytes[6],
            mac_bytes[7],
        ];
        proof {
            assert(sender_mac@ =~= mac_bytes@);
        }
        let secured = match crate::text::parse_hex_u8(parts[6].as_str()) {
            Some(v) => v,
            None => {
                return ParseResult::Rejected(data.to_owned());
            },
        };
        let dl = match crate::text::parse_hex_u16(parts[7].as_str()) {
            Some(v) => v,
            None => {
                return ParseResult::Rejected(data.to_owned());
            },
        };
        let dlen8 = parts[8].as_str().unicode_len();
        if (dl as usize) * 2 != dlen8 {
            return ParseResult::Rejected(data.to_owned());
        }
        match crate::text::hex_decode(parts[8].as_str()) {
            Some(body) => ParseResult::Done(
                WiSunEvent::RxUdp(
                    UdpPacket {
                        sender,
                        dest,
                        source_port,
                        dest_port,
                        sender_mac,
                        secured,
                        data: body,
                    },
                ),
            ),
            None => ParseResult::Rejected(data.to_owned()),
        }
    }

    /// Find the trimmed value of the last line carrying `key`.
    fn kv_find(lines: &Vec<String>, key: &str) -> (r: Option<String>)
        requires
            lines@.len() == 7,
            spec_pan_lines_ok(lines@.map_values(|x: String| x@)),
        ensures
            match r {
                Some(v) => spec_kv_lookup(
                    lines@.map_values(|x: String| x@).skip(1),
                    key@,
                ) == Some(v@),
                None => spec_kv_lookup(lines@.map_values(|x: String| x@).skip(1), key@) is None,
            },
    {
        let ghost slines = lines@.map_values(|x: String| x@);
        let mut i: usize = 7;
        #[verifier::loop_isolation(false)]
        while i > 1
            invariant
                1 <= i <= 7,
                spec_kv_lookup(slines.skip(1), key@) == spec_kv_lookup(
                    slines.subrange(1, i as int),
                    key@,
                ),
            decreases i,
        {
            let kv = split_str(lines[i - 1].as_str(), SepKind::Colon);
            let ghost skv = spec_split(SepKind::Colon, slines[i - 1]);
            proof {
                assert(slines.subrange(1, i as int).last() == slines[i - 1]);
                assert(slines.subrange(1, i as int).drop_last() =~= slines.subrange(1, i - 1));
                assert(skv.len() == 2);
            }
            let k0 = trim_str(kv[0].as_str());
            if str_is(&k0, key) {
                let v = trim_str(kv[1].as_str());
                return Some(v);
            }
            i = i - 1;
        }
        proof {
            assert(slines.subrange(1, 1) =~= Seq::<Seq<char>>::empty());
        }
        None
    }

    /// Classify an `EPANDESC` block.
    fn parse_pan_desc(data: &str) -> (r: ParseResult<WiSunEvent>)
        ensures
            r@ == spec_parse_pan_desc(data@),
    {
        let lines = split_str(data, SepKind::Lf);
        let ghost slines = spec_split(SepKind::Lf, data@);
        proof {
            assert(lines@.map_values(|x: String| x@) =~= slines);
        }
        let mut i: usize = 1;
        #[verifier::loop_isolation(false)]
        while i < lines.len()
            invariant
                1 <= i <= lines@.len(),
                forall|j: int|
                    1 <= j < i ==> spec_split(SepKind::Colon, #[trigger] slines[j]).len() == 2,
            decreases lines@.len() - i,
        {
            let kv = split_str(lines[i].as_str(), SepKind::Colon);
            if kv.len() != 2 {
                proof {
                    assert(!spec_pan_lines_ok(slines));
                }
                return ParseResult::Rejected(data.to_owned());
            }
            i = i + 1;
        }
        proof {
            assert(spec_pan_lines_ok(slines));
        }
        if lines.len() != 7 {
            return ParseResult::More;
        }
        let ch = match Self::kv_find(&lines, "Channel") {
            Some(v) => v,
            None => {
                return ParseResult::Rejected(data.to_owned());
            },
        };
        let channel = match crate::text::parse_hex_u8(ch.as_str()) {
            Some(v) => v,
            None => {
                return ParseResult::Rejected(data.to_owned());
            },
        };
        let pi = match Self::kv_find(&lines, "Pan ID") {
            Some(v) => v,
            None => {
                return ParseResult::Rejected(data.to_owned());
            },
        };
        let pan_id = match crate::text::parse_hex_u16(pi.as_str()) {
            Some(v) => v,
            None => {
                return ParseResult::Rejected(data.to_owned());
            },
        };
        let ad = match Self::kv_find(&lines, "Addr") {
            Some(v) => v,
            None => {
                return ParseResult::Rejected(data.to_owned());
            },
        };
        let addr_bytes = match crate::text::hex_decode(ad.as_str()) {
            Some(v) => v,
            None => {
                return ParseResult::Rejected(data.to_owned());
            },
        };
        if addr_bytes.len() != 8 {
            return ParseResult::Rejected(data.to_owned());
        }
        let addr: [u8; 8] = [
            addr_bytes[0],
            addr_bytes[1],
            addr_bytes[2],
            addr_bytes[3],
            addr_bytes[4],
            addr_bytes[5],
            addr_bytes[6],
            addr_bytes[7],
        ];
        proof {
            assert(addr@ =~= addr_bytes@);
        }
        ParseResult::Done(WiSunEvent::PanDesc(PanDescBody { channel, pan_id, addr }))
    }

    /// Classify an event line, or an accumulated multi-line block.
    pub fn parse(data: &str) -> (r: ParseResult<WiSunEvent>)
        ensures
            r@ == spec_parse_wisun_event(data@),
    {
        if data.unicode_len() == 0 {
            return ParseResult::Empty;
        }
        let t = trim_str(data);
        let parts = split_str(t.as_str(), SepKind::SpaceLf);
        proof {
            crate::text::lemma_split_nonempty(SepKind::SpaceLf, t@);
            assert(parts@.map_values(|x: String| x@) =~= spec_split(SepKind::SpaceLf, spec_trim(
                data@,
            )));
        }
        if str_is(&parts[0], "EVENT") {
            Self::parse_event_body(data, &parts)
        } else if str_is(&parts[0], "ERXUDP") {
            Self::parse_rx_udp(data, &parts)
        } else if str_is(&parts[0], "EPANDESC") {
            Self::parse_pan_desc(data)
        } else if str_is(&parts[0], "EVER") {
            let tn = t.as_str().unicode_len();
            if tn >= 5 && t.as_str().get_char(4) == ' ' {
                let v = t.as_str().substring_char(5, tn).to_owned();
                proof {
                    assert(v@ =~= spec_trim(data@).skip(5));
                }
                ParseResult::Done(WiSunEvent::Version(v))
            } else {
                ParseResult::Rejected(data.to_owned())
            }
        } else {
            ParseResult::Rejected(data.to_owned())
        }
    }
}

} // verus!
