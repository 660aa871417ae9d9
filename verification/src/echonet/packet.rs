use vstd::prelude::*;

use crate::echonet::enums::{EchonetObject, EchonetProperty, EchonetService};
use crate::echonet::errors::{Error, Result};

verus! {

/// First header byte of every ECHONET Lite frame.
pub const ECHONET_LITE_EHD1: u8 = 0x10;

/// Second header byte: format 1 (the regular property-list format).
pub const ECHONET_FORMAT_1: u8 = 0x81;

/// One property entry: an EPC together with its payload (EDT).
#[derive(Debug, PartialEq)]
pub struct Property<P: EchonetProperty> {
    pub epc: P,
    pub data: Vec<u8>,
}

/// The application payload of a packet: source and destination objects,
/// a service code, and the property list.
#[derive(Debug, PartialEq)]
pub struct Edata<P: EchonetProperty> {
    pub source_object: EchonetObject,
    pub destination_object: EchonetObject,
    pub echonet_service: EchonetService,
    pub properties: Vec<Property<P>>,
}

/// A whole ECHONET Lite packet: fixed header, big-endian transaction id,
/// and the Edata.
#[derive(Debug, PartialEq)]
pub struct EchonetPacket<P: EchonetProperty> {
    pub transaction_id: u16,
    pub data: Edata<P>,
}

/// Mathematical model of a `Property`.
pub struct SpecProperty<P> {
    pub epc: P,
    pub data: Seq<u8>,
}

/// Mathematical model of an `Edata`.
pub struct SpecEdata<P> {
    pub source_object: EchonetObject,
    pub destination_object: EchonetObject,
    pub echonet_service: EchonetService,
    pub properties: Seq<SpecProperty<P>>,
}

/// Mathematical model of an `EchonetPacket`.
pub struct SpecPacket<P> {
    pub transaction_id: u16,
    pub data: SpecEdata<P>,
}

impl<P: EchonetProperty> View for Property<P> {
    type V = SpecProperty<P>;

    open spec fn view(&self) -> SpecProperty<P> {
        SpecProperty { epc: self.epc, data: self.data@ }
    }
}

/// The models of every property in the vector, in order.
pub open spec fn view_props<P: EchonetProperty>(props: Seq<Property<P>>) -> Seq<SpecProperty<P>> {
    Seq::new(props.len(), |i: int| props[i]@)
}

impl<P: EchonetProperty> View for Edata<P> {
    type V = SpecEdata<P>;

    open spec fn view(&self) -> SpecEdata<P> {
        SpecEdata {
            source_object: self.source_object,
            destination_object: self.destination_object,
            echonet_service: self.echonet_service,
            properties: view_props(self.properties@),
        }
    }
}

impl<P: EchonetProperty> View for EchonetPacket<P> {
    type V = SpecPacket<P>;

    open spec fn view(&self) -> SpecPacket<P> {
        SpecPacket { transaction_id: self.transaction_id, data: self.data@ }
    }
}

/// A property that the wire format can carry: its payload length fits the
/// one-byte PDC field.
pub open spec fn prop_wf<P>(p: SpecProperty<P>) -> bool {
    p.data.len() <= 255
}

/// An Edata that the wire format can carry.
pub open spec fn edata_wf<P>(e: SpecEdata<P>) -> bool {
    &&& e.properties.len() <= 255
    &&& forall|i: int| 0 <= i < e.properties.len() ==> prop_wf(#[trigger] e.properties[i])
}

/// A packet that the wire format can carry.
pub open spec fn packet_wf<P>(p: SpecPacket<P>) -> bool {
    edata_wf(p.data)
}

/// Wire bytes of one property: `epc | pdc | edt`.
pub open spec fn spec_dump_property<P: EchonetProperty>(p: SpecProperty<P>) -> Seq<u8> {
    seq![p.epc.code(), p.data.len() as u8] + p.data
}

/// Wire bytes of a property list, in order.
pub open spec fn spec_dump_props<P: EchonetProperty>(props: Seq<SpecProperty<P>>) -> Seq<u8>
    decreases props.len(),
{
    if props.len() == 0 {
        Seq::empty()
    } else {
        spec_dump_property(props[0]) + spec_dump_props(props.drop_first())
    }
}

/// Wire bytes of an Edata: `seoj | deoj | esv | opc | properties`.
pub open spec fn spec_dump_edata<P: EchonetProperty>(e: SpecEdata<P>) -> Seq<u8> {
    e.source_object.spec_bytes() + e.destination_object.spec_bytes() + seq![
        e.echonet_service.spec_code(),
        e.properties.len() as u8,
    ] + spec_dump_props(e.properties)
}

/// Wire bytes of a whole packet, with the transaction id big-endian.
pub open spec fn spec_dump_packet<P: EchonetProperty>(p: SpecPacket<P>) -> Seq<u8> {
    seq![
        ECHONET_LITE_EHD1,
        ECHONET_FORMAT_1,
        (p.transaction_id / 256) as u8,
        (p.transaction_id % 256) as u8,
    ] + spec_dump_edata(p.data)
}

/// Parse one property from the front of `b`: the consumed length and the
/// property, or `None` when `b` is too short or the EPC is foreign to `P`.
pub open spec fn spec_parse_property<P: EchonetProperty>(b: Seq<u8>) -> Option<
    (int, SpecProperty<P>),
> {
    if b.len() < 2 {
        None
    } else {
        match P::from_code(b[0]) {
            None => None,
            Some(epc) => {
                let pdc = b[1] as int;
                if b.len() < 2 + pdc {
                    None
                } else {
                    Some((2 + pdc, SpecProperty { epc, data: b.subrange(2, 2 + pdc) }))
                }
            },
        }
    }
}

/// Parse exactly `n` properties from the front of `b`; bytes after the last
/// one are ignored.
pub open spec fn spec_parse_props<P: EchonetProperty>(b: Seq<u8>, n: int) -> Option<
    Seq<SpecProperty<P>>,
>
    decreases n,
{
    if n <= 0 {
        Some(Seq::empty())
    } else {
        match spec_parse_property::<P>(b) {
            None => None,
            Some((k, p)) => match spec_parse_props::<P>(b.skip(k), n - 1) {
                None => None,
                Some(rest) => Some(seq![p] + rest),
            },
        }
    }
}

/// Parse an Edata: 8 header bytes, then `opc` properties.
pub open spec fn spec_parse_edata<P: EchonetProperty>(b: Seq<u8>) -> Option<SpecEdata<P>> {
    if b.len() < 8 {
        None
    } else {
        match EchonetObject::spec_from_bytes(b.subrange(0, 3)) {
            None => None,
            Some(seoj) => match EchonetObject::spec_from_bytes(b.subrange(3, 6)) {
                None => None,
                Some(deoj) => match EchonetService::spec_from_code(b[6]) {
                    None => None,
                    Some(esv) => match spec_parse_props::<P>(b.skip(8), b[7] as int) {
                        None => None,
                        Some(props) => Some(
                            SpecEdata {
                                source_object: seoj,
                                destination_object: deoj,
                                echonet_service: esv,
                                properties: props,
                            },
                        ),
                    },
                },
            },
        }
    }
}

/// Parse a whole packet: check the two fixed header bytes, read the
/// big-endian transaction id, then the Edata.
pub open spec fn spec_parse_packet<P: EchonetProperty>(b: Seq<u8>) -> Option<SpecPacket<P>> {
    if b.len() < 4 {
        None
    } else if b[0] != ECHONET_LITE_EHD1 || b[1] != ECHONET_FORMAT_1 {
        None
    } else {
        match spec_parse_edata::<P>(b.skip(4)) {
            None => None,
            Some(e) => Some(
                SpecPacket { transaction_id: (b[2] as u16 * 256 + b[3] as u16) as u16, data: e },
            ),
        }
    }
}

impl<P: EchonetProperty> Property<P> {
    /// Parse one property from the front of `bin`, returning the consumed
    /// length with it; bytes past the property are left alone.
    pub fn parse(bin: &[u8]) -> (r: Result<(usize, Self)>)
        ensures
            match r {
                Ok(np) => spec_parse_property::<P>(bin@) == Some((np.0 as int, np.1@)),
                Err(_) => spec_parse_property::<P>(bin@) is None,
            },
            bin@.len() < 2 ==> r matches Err(Error::ParseError(_)),
            bin@.len() >= 2 && P::from_code(bin@[0]) is None ==> (r matches Err(
                Error::InvalidEchonetProperty(c),
            ) && c == bin@[0]),
            bin@.len() >= 2 && P::from_code(bin@[0]) is Some && bin@.len() < 2 + bin@[1] ==> (
            r matches Err(Error::ParseError(_))),
    {
        if bin.len() < 2 {
            return Err(Error::ParseError(String::from_str("empty data")));
        }
        let epc: P = match P::from_u8(bin[0]) {
            Some(e) => e,
            None => {
                return Err(Error::InvalidEchonetProperty(bin[0]));
            },
        };
        let pdc: usize = bin[1] as usize;
        if bin.len() < 2 + pdc {
            return Err(Error::ParseError(String::from_str("less data length")));
        }
        let data: Vec<u8> = vstd::slice::slice_to_vec(&bin[2..2 + pdc]);
        let ret = Property { epc, data };
        proof {
            assert(ret@.data =~= bin@.subrange(2, 2 + pdc as int));
        }
        Ok((2 + pdc, ret))
    }

    /// Wire bytes of this property.
    pub fn dump(&self) -> (r: Vec<u8>)
        requires
            prop_wf(self@),
        ensures
            r@ == spec_dump_property(self@),
    {
        let mut out: Vec<u8> = Vec::new();
        out.push(self.epc.to_u8());
        out.push(self.data.len() as u8);
        out.extend_from_slice(self.data.as_slice());
        proof {
            assert(out@ =~= spec_dump_property(self@));
        }
        out
    }

    /// The EDT read as a big-endian unsigned 32-bit number, when it is
    /// exactly four bytes long.
    pub fn get_u32(&self) -> (r: Option<u32>)
        ensures
            self.data@.len() == 4 ==> r == Some(spec_u32_of(self.data@)),
            self.data@.len() != 4 ==> r is None,
    {
        if self.data.len() != 4 {
            return None;
        }
        let b0 = self.data[0];
        let b1 = self.data[1];
        let b2 = self.data[2];
        let b3 = self.data[3];
        Some((b0 as u32) * 0x1000000 + (b1 as u32) * 0x10000 + (b2 as u32) * 0x100 + (b3 as u32))
    }

    /// The EDT read as a big-endian signed (two's complement) 32-bit number,
    /// when it is exactly four bytes long.
    pub fn get_i32(&self) -> (r: Option<i32>)
        ensures
            self.data@.len() == 4 ==> r == Some(spec_i32_of(self.data@)),
            self.data@.len() != 4 ==> r is None,
    {
        let u = match self.get_u32() {
            Some(u) => u,
            None => {
                return None;
            },
        };
        if u < 0x8000_0000 {
            Some(u as i32)
        } else {
            Some(-((0xFFFF_FFFFu32 - u) as i32) - 1)
        }
    }
}

/// The value of four bytes read big-endian, unsigned.
pub open spec fn spec_u32_of(b: Seq<u8>) -> u32
    recommends
        b.len() == 4,
{
    (b[0] * 0x1000000 + b[1] * 0x10000 + b[2] * 0x100 + b[3]) as u32
}

/// The value of four bytes read big-endian, as a two's complement signed
/// 32-bit number.
pub open spec fn spec_i32_of(b: Seq<u8>) -> i32
    recommends
        b.len() == 4,
{
    if spec_u32_of(b) < 0x8000_0000 {
        spec_u32_of(b) as i32
    } else {
        (spec_u32_of(b) - 0x1_0000_0000) as i32
    }
}

impl<P: EchonetProperty> Edata<P> {
    /// Parse an Edata from `bin`; bytes after the last declared property are
    /// ignored, as the radio module may pad its payloads.
    pub fn parse(bin: &[u8]) -> (r: Result<Self>)
        ensures
            match r {
                Ok(e) => spec_parse_edata::<P>(bin@) == Some(e@),
                Err(_) => spec_parse_edata::<P>(bin@) is None,
            },
            bin@.len() < 8 ==> r matches Err(Error::ParseError(_)),
    {
        if bin.len() < 8 {
            return Err(Error::ParseError(String::from_str("data length too short")));
        }
        let seoj = match EchonetObject::from_bytes([bin[0], bin[1], bin[2]]) {
            Some(o) => o,
            None => {
                proof {
                    assert([bin@[0], bin@[1], bin@[2]]@ =~= bin@.subrange(0, 3));
                }
                return Err(Error::InvalidEchonetObjectIdError([bin[0], bin[1], bin[2]]));
            },
        };
        let deoj = match EchonetObject::from_bytes([bin[3], bin[4], bin[5]]) {
            Some(o) => o,
            None => {
                proof {
                    assert([bin@[3], bin@[4], bin@[5]]@ =~= bin@.subrange(3, 6));
                }
                return Err(Error::InvalidEchonetObjectIdError([bin[3], bin[4], bin[5]]));
            },
        };
        proof {
            assert([bin@[0], bin@[1], bin@[2]]@ =~= bin@.subrange(0, 3));
            assert([bin@[3], bin@[4], bin@[5]]@ =~= bin@.subrange(3, 6));
        }
        let esv = match EchonetService::from_code(bin[6]) {
            Some(s) => s,
            None => {
                return Err(Error::InvalidEchonetServiceError(bin[6]));
            },
        };
        let opc: usize = bin[7] as usize;
        let ghost target = spec_parse_props::<P>(bin@.skip(8), opc as int);

        let mut properties: Vec<Property<P>> = Vec::new();
        let mut pos: usize = 8;
        let mut i: usize = 0;
        #[verifier::loop_isolation(false)]
        while i < opc
            invariant
                8 <= pos <= bin@.len(),
                i <= opc,
                target == spec_parse_props::<P>(bin@.skip(8), opc as int),
                match spec_parse_props::<P>(bin@.skip(pos as int), opc - i) {
                    Some(rest) => target == Some(view_props(properties@) + rest),
                    None => target is None,
                },
            decreases opc - i,
        {
            match Property::<P>::parse(&bin[pos..bin.len()]) {
                Ok((k, p)) => {
                    proof {
                        let rem = bin@.subrange(pos as int, bin@.len() as int);
                        assert(rem =~= bin@.skip(pos as int));
                        assert(spec_parse_property::<P>(rem) == Some((k as int, p@)));
                        assert(2 + rem[1] <= rem.len());
                        assert(k <= rem.len());
                        assert(bin@.skip(pos as int).skip(k as int) =~= bin@.skip(pos + k));
                    }
                    let ghost old_props = properties@;
                    properties.push(p);
                    proof {
                        assert(view_props(properties@) =~= view_props(old_props) + seq![p@]);
                        match spec_parse_props::<P>(bin@.skip(pos + k), opc - i - 1) {
                            Some(rest2) => {
                                assert(view_props(old_props) + (seq![p@] + rest2) =~= view_props(
                                    properties@,
                                ) + rest2);
                            },
                            None => {},
                        }
                    }
                    pos = pos + k;
                    i = i + 1;
                },
                Err(e) => {
                    proof {
                        assert(bin@.subrange(pos as int, bin@.len() as int) =~= bin@.skip(
                            pos as int,
                        ));
                    }
                    return Err(e);
                },
            }
        }
        let edata = Edata { source_object: seoj, destination_object: deoj, echonet_service: esv, properties };
        proof {
            assert(spec_parse_props::<P>(bin@.skip(pos as int), 0) == Some(Seq::<SpecProperty<P>>::empty()));
            assert(view_props(edata.properties@) + Seq::<SpecProperty<P>>::empty() =~= view_props(
                edata.properties@,
            ));
        }
        Ok(edata)
    }

    /// Wire bytes of this Edata, with `opc` set to the property count.
    pub fn dump(&self) -> (r: Vec<u8>)
        requires
            edata_wf(self@),
        ensures
            r@ == spec_dump_edata(self@),
    {
        let mut out: Vec<u8> = Vec::new();
        let seoj = self.source_object.to_bytes();
        let deoj = self.destination_object.to_bytes();
        out.extend_from_slice(seoj.as_slice());
        out.extend_from_slice(deoj.as_slice());
        out.push(self.echonet_service.code());
        out.push(self.properties.len() as u8);
        proof {
            assert(out@ =~= self@.source_object.spec_bytes() + self@.destination_object.spec_bytes()
                + seq![self@.echonet_service.spec_code(), self@.properties.len() as u8]);
        }
        let ghost header = out@;
        let mut i: usize = 0;
        while i < self.properties.len()
            invariant
                i <= self.properties@.len(),
                edata_wf(self@),
                out@ == header + spec_dump_props(self@.properties.take(i as int)),
            decreases self.properties@.len() - i,
        {
            proof {
                assert(self@.properties[i as int] == self.properties@[i as int]@);
                assert(prop_wf(self@.properties[i as int]));
            }
            let mut d = self.properties[i].dump();
            out.append(&mut d);
            proof {
                lemma_dump_props_snoc(self@.properties, i as int);
                assert(out@ =~= header + spec_dump_props(self@.properties.take(i + 1)));
            }
            i = i + 1;
        }
        proof {
            assert(self@.properties.take(self.properties@.len() as int) =~= self@.properties);
            assert(out@ =~= spec_dump_edata(self@));
        }
        out
    }
}

/// Dumping one more property appends its bytes.
proof fn lemma_dump_props_snoc<P: EchonetProperty>(props: Seq<SpecProperty<P>>, i: int)
    requires
        0 <= i < props.len(),
    ensures
        spec_dump_props(props.take(i + 1)) == spec_dump_props(props.take(i)) + spec_dump_property(
            props[i],
        ),
    decreases i,
{
    if i == 0 {
        assert(props.take(1).drop_first() =~= props.take(0));
        assert(spec_dump_props(props.take(0)) == Seq::<u8>::empty());
        assert(props.take(1)[0] == props[0]);
        assert(spec_dump_props(props.take(1)) =~= spec_dump_props(props.take(0))
            + spec_dump_property(props[0]));
    } else {
        lemma_dump_props_snoc(props.drop_first(), i - 1);
        assert(props.take(i + 1).drop_first() =~= props.drop_first().take(i));
        assert(props.take(i).drop_first() =~= props.drop_first().take(i - 1));
        assert(props.take(i + 1)[0] == props[0]);
        assert(props.take(i)[0] == props[0]);
        assert(props.drop_first()[i - 1] == props[i]);
        assert(spec_dump_props(props.take(i + 1)) =~= spec_dump_props(props.take(i))
            + spec_dump_property(props[i]));
    }
}

/// The first property in the list carrying the given EPC.
pub open spec fn spec_find_property<P: EchonetProperty>(
    props: Seq<SpecProperty<P>>,
    epc: P,
) -> Option<SpecProperty<P>>
    decreases props.len(),
{
    if props.len() == 0 {
        None
    } else if props[0].epc == epc {
        Some(props[0])
    } else {
        spec_find_property(props.drop_first(), epc)
    }
}

/// A carrier at `i` with none before it is the first carrier.
proof fn lemma_find_property_at<P: EchonetProperty>(props: Seq<SpecProperty<P>>, epc: P, i: int)
    requires
        0 <= i < props.len(),
        props[i].epc == epc,
        forall|j: int| 0 <= j < i ==> (#[trigger] props[j]).epc != epc,
    ensures
        spec_find_property(props, epc) == Some(props[i]),
    decreases i,
{
    if i > 0 {
        assert(forall|j: int| 0 <= j < i - 1 ==> props.drop_first()[j] == #[trigger] props[j + 1]);
        assert(props.drop_first()[i - 1] == props[i]);
        lemma_find_property_at(props.drop_first(), epc, i - 1);
    }
}

/// With no carrier at all there is no first carrier.
proof fn lemma_find_property_none<P: EchonetProperty>(props: Seq<SpecProperty<P>>, epc: P)
    requires
        forall|j: int| 0 <= j < props.len() ==> (#[trigger] props[j]).epc != epc,
    ensures
        spec_find_property(props, epc) is None,
    decreases props.len(),
{
    if props.len() > 0 {
        assert(forall|j: int|
            0 <= j < props.len() - 1 ==> props.drop_first()[j] == #[trigger] props[j + 1]);
        lemma_find_property_none(props.drop_first(), epc);
    }
}

impl<P: EchonetProperty> EchonetPacket<P> {
    /// A packet with the fixed ECHONET Lite format-1 header.
    pub fn new(transaction_id: u16, data: Edata<P>) -> (r: Self)
        ensures
            r.transaction_id == transaction_id,
            r.data == data,
    {
        EchonetPacket { transaction_id, data }
    }

    /// Parse a packet; trailing bytes after the declared properties are
    /// ignored.
    pub fn parse(bin: &[u8]) -> (r: Result<Self>)
        ensures
            match r {
                Ok(p) => spec_parse_packet::<P>(bin@) == Some(p@),
                Err(_) => spec_parse_packet::<P>(bin@) is None,
            },
            bin@.len() < 4 ==> r matches Err(Error::ParseError(_)),
            bin@.len() >= 4 && (bin@[0] != ECHONET_LITE_EHD1 || bin@[1] != ECHONET_FORMAT_1)
                ==> r matches Err(Error::InvalidValueError(_)),
    {
        if bin.len() < 4 {
            return Err(Error::ParseError(String::from_str("data length too short")));
        }
        if bin[0] != ECHONET_LITE_EHD1 {
            return Err(Error::InvalidValueError(String::from_str("EHD1 MUST BE 0x10")));
        }
        if bin[1] != ECHONET_FORMAT_1 {
            return Err(Error::InvalidValueError(String::from_str("EHD2 MUST BE 0x81")));
        }
        let tid: u16 = (bin[2] as u16) * 256 + (bin[3] as u16);
        let rest = &bin[4..bin.len()];
        proof {
            assert(rest@ =~= bin@.skip(4));
        }
        match Edata::<P>::parse(rest) {
            Ok(e) => Ok(EchonetPacket { transaction_id: tid, data: e }),
            Err(e) => Err(e),
        }
    }

    /// Wire bytes of this packet, transaction id big-endian.
    pub fn dump(&self) -> (r: Vec<u8>)
        requires
            packet_wf(self@),
        ensures
            r@ == spec_dump_packet(self@),
    {
        let mut out: Vec<u8> = Vec::new();
        out.push(ECHONET_LITE_EHD1);
        out.push(ECHONET_FORMAT_1);
        out.push((self.transaction_id / 256) as u8);
        out.push((self.transaction_id % 256) as u8);
        let mut body = self.data.dump();
        out.append(&mut body);
        proof {
            assert(out@ =~= spec_dump_packet(self@));
        }
        out
    }

    /// The first property in the packet carrying the given EPC, if any.
    pub fn get_property(&self, prop: P) -> (r: Option<&Property<P>>)
        ensures
            match r {
                Some(p) => spec_find_property(self@.data.properties, prop) == Some(p@),
                None => spec_find_property(self@.data.properties, prop) is None,
            },
    {
        let code = prop.to_u8();
        let mut i: usize = 0;
        while i < self.data.properties.len()
            invariant
                i <= self.data.properties@.len(),
                code == prop.code(),
                forall|j: int| 0 <= j < i ==> (#[trigger] self@.data.properties[j]).epc != prop,
            decreases self.data.properties@.len() - i,
        {
            let cand = &self.data.properties[i];
            if cand.epc.to_u8() == code {
                proof {
                    cand.epc.lemma_code_from_code();
                    prop.lemma_code_from_code();
                    assert(self@.data.properties[i as int].epc == prop);
                    lemma_find_property_at(self@.data.properties, prop, i as int);
                }
                return Some(cand);
            }
            proof {
                if self@.data.properties[i as int].epc == prop {
                    assert(cand.epc.code() == prop.code());
                }
            }
            i = i + 1;
        }
        proof {
            lemma_find_property_none(self@.data.properties, prop);
        }
        None
    }
}

/// Parsing the bytes of a dumped property gives the property back, whatever
/// bytes follow it.
proof fn lemma_property_round_trip<P: EchonetProperty>(p: SpecProperty<P>, tail: Seq<u8>)
    requires
        prop_wf(p),
    ensures
        spec_parse_property::<P>(spec_dump_property(p) + tail) == Some(
            (2 + p.data.len() as int, p),
        ),
{
    let b = spec_dump_property(p) + tail;
    p.epc.lemma_code_from_code();
    assert(b[0] == p.epc.code());
    assert(b[1] == p.data.len() as u8);
    assert(b.len() >= 2 + p.data.len());
    assert(b.subrange(2, 2 + p.data.len() as int) =~= p.data);
    assert(spec_parse_property::<P>(b) == Some((2 + p.data.len() as int, p)));
}

/// Parsing `n` properties from the bytes of `n` dumped properties gives the
/// list back, whatever bytes follow it.
proof fn lemma_props_round_trip<P: EchonetProperty>(props: Seq<SpecProperty<P>>, tail: Seq<u8>)
    requires
        forall|i: int| 0 <= i < props.len() ==> prop_wf(#[trigger] props[i]),
    ensures
        spec_parse_props::<P>(spec_dump_props(props) + tail, props.len() as int) == Some(props),
    decreases props.len(),
{
    if props.len() == 0 {
        assert(spec_parse_props::<P>(spec_dump_props(props) + tail, 0) == Some(
            Seq::<SpecProperty<P>>::empty(),
        ));
        assert(props =~= Seq::<SpecProperty<P>>::empty());
    } else {
        let p = props[0];
        let rest = props.drop_first();
        let b = spec_dump_props(props) + tail;
        assert(b =~= spec_dump_property(p) + (spec_dump_props(rest) + tail));
        lemma_property_round_trip(p, spec_dump_props(rest) + tail);
        let k = 2 + p.data.len() as int;
        assert(b.skip(k) =~= spec_dump_props(rest) + tail);
        lemma_props_round_trip(rest, tail);
        assert(spec_parse_props::<P>(b, props.len() as int) == Some(seq![p] + rest));
        assert(seq![p] + rest =~= props);
    }
}

/// Round trip for every well-formed packet: parsing the dumped bytes gives
/// the packet back unchanged.
pub proof fn lemma_packet_round_trip<P: EchonetProperty>(p: SpecPacket<P>)
    requires
        packet_wf(p),
    ensures
        spec_parse_packet::<P>(spec_dump_packet(p)) == Some(p),
{
    let b = spec_dump_packet(p);
    let e = spec_dump_edata(p.data);
    assert(b.skip(4) =~= e);
    assert(b.len() >= 4);
    assert(b[0] == ECHONET_LITE_EHD1 && b[1] == ECHONET_FORMAT_1);
    assert(b[2] == (p.transaction_id / 256) as u8 && b[3] == (p.transaction_id % 256) as u8);
    assert((b[2] as u16 * 256 + b[3] as u16) as u16 == p.transaction_id);

    let seoj = p.data.source_object;
    let deoj = p.data.destination_object;
    assert(e.len() >= 8);
    assert(e.subrange(0, 3) =~= seoj.spec_bytes());
    assert(e.subrange(3, 6) =~= deoj.spec_bytes());
    assert(EchonetObject::spec_from_bytes(seoj.spec_bytes()) == Some(seoj)) by {
        match seoj {
            EchonetObject::SmartMeter => {},
            EchonetObject::HemsController => {},
        }
    }
    assert(EchonetObject::spec_from_bytes(deoj.spec_bytes()) == Some(deoj)) by {
        match deoj {
            EchonetObject::SmartMeter => {},
            EchonetObject::HemsController => {},
        }
    }
    assert(e[6] == p.data.echonet_service.spec_code());
    assert(EchonetService::spec_from_code(p.data.echonet_service.spec_code()) == Some(
        p.data.echonet_service,
    ));
    assert(e[7] == p.data.properties.len() as u8);
    assert(e.skip(8) =~= spec_dump_props(p.data.properties) + Seq::<u8>::empty());
    lemma_props_round_trip(p.data.properties, Seq::<u8>::empty());
    assert(spec_parse_edata::<P>(e) == Some(p.data));
}

} // verus!
