use vstd::prelude::*;

use crate::echonet::enums::EchonetProperty;
use crate::echonet::errors::{Error, Result};

verus! {

/// The set of property codes (EPCs) a remote object declares support for,
/// decoded from its Get-Property-Map descriptor.
#[derive(Debug, PartialEq)]
pub struct PropertyMap {
    props: Vec<u8>,
}

impl View for PropertyMap {
    type V = Set<u8>;

    closed spec fn view(&self) -> Set<u8> {
        self.props@.to_set()
    }
}

/// Whether bit `e / 16 - 8` of bitmap byte `e % 16` is set: the long-form
/// descriptor encodes the EPC `e` at exactly that position.
pub open spec fn pm_bit(m: Seq<u8>, e: u8) -> bool
    recommends
        m.len() == 16,
        e >= 0x80,
{
    (m[(e % 16) as int] >> ((e / 16 - 8) as u8)) & 1 == 1
}

/// The EPCs already decoded once the bitmap scan stands at byte `i`,
/// bit `j`: those whose position was visited and whose bit is set.
pub open spec fn pm_before(m: Seq<u8>, i: int, j: int, e: u8) -> bool {
    e >= 0x80 && ((e % 16) < i || ((e % 16) == i && (e / 16 - 8) < j)) && pm_bit(m, e)
}

/// The set of EPCs a 16-byte long-form bitmap encodes.
pub open spec fn spec_bitmap_set(m: Seq<u8>) -> Set<u8>
    recommends
        m.len() == 16,
{
    Set::new(|e: u8| e >= 0x80 && pm_bit(m, e))
}

/// The set a Get-Property-Map descriptor decodes to, or `None` when the
/// descriptor is malformed.
pub open spec fn spec_parse_property_map(b: Seq<u8>) -> Option<Set<u8>> {
    if b.len() == 0 {
        None
    } else if b[0] < 16 {
        Some(b.skip(1).to_set())
    } else if b.len() != 17 {
        None
    } else {
        let s = spec_bitmap_set(b.skip(1));
        if s.len() == b[0] as nat {
            Some(s)
        } else {
            None
        }
    }
}

impl PropertyMap {
    /// Decode a Get-Property-Map descriptor.  Byte 0 is the property count
    /// `n`; below 16 the EPCs follow verbatim, from 16 upward the remaining
    /// 16 bytes are a bitmap whose decoded cardinality must equal `n`.
    pub fn parse(bin: &[u8]) -> (r: Result<PropertyMap>)
        ensures
            match r {
                Ok(m) => spec_parse_property_map(bin@) == Some(m@),
                Err(_) => spec_parse_property_map(bin@) is None,
            },
    {
        if bin.len() == 0 {
            return Err(Error::ParseError(String::from_str("empty data")));
        }

        if bin[0] < 16 {
            let mut props: Vec<u8> = Vec::new();
            let mut i: usize = 1;
            #[verifier::loop_isolation(false)]
            while i < bin.len()
                invariant
                    1 <= i <= bin@.len(),
                    props@.no_duplicates(),
                    props@.to_set() =~= bin@.subrange(1, i as int).to_set(),
                decreases bin@.len() - i,
            {
                let ghost oldp = props@;
                let b = bin[i];
                if !contains_byte(&props, b) {
                    props.push(b);
                    proof {
                        assert(forall|k: int| 0 <= k < oldp.len() ==> oldp[k] != b);
                        assert(props@ == oldp.push(b));
                        assert(props@[oldp.len() as int] == b);
                        assert(forall|k: int| 0 <= k < oldp.len() ==> props@[k] == oldp[k]);
                        assert(props@.no_duplicates());
                        assert(props@.contains(b));
                        assert forall|x: u8| props@.contains(x) implies oldp.contains(x) || x
                            == b by {
                            let k = choose|k: int| 0 <= k < props@.len() && props@[k] == x;
                            if k < oldp.len() {
                                assert(oldp[k] == x);
                            }
                        }
                        assert forall|x: u8| oldp.contains(x) implies props@.contains(x) by {
                            let k = choose|k: int| 0 <= k < oldp.len() && oldp[k] == x;
                            assert(props@[k] == x);
                        }
                        assert(props@.to_set() =~= oldp.to_set().insert(b));
                    }
                } else {
                    proof {
                        assert(props@.to_set() =~= oldp.to_set().insert(b));
                    }
                }
                proof {
                    assert(bin@.subrange(1, i + 1) =~= bin@.subrange(1, i as int).push(
                        bin@[i as int],
                    ));
                    assert forall|x: u8| bin@.subrange(1, i + 1).contains(x) implies bin@.subrange(
                        1,
                        i as int,
                    ).contains(x) || x == b by {
                        let s = bin@.subrange(1, i + 1);
                        let k = choose|k: int| 0 <= k < s.len() && s[k] == x;
                        if k < i - 1 {
                            assert(bin@.subrange(1, i as int)[k] == x);
                        }
                    }
                    assert forall|x: u8| bin@.subrange(1, i as int).contains(x) implies bin@.subrange(
                        1,
                        i + 1,
                    ).contains(x) by {
                        let k = choose|k: int|
                            0 <= k < i - 1 && bin@.subrange(1, i as int)[k] == x;
                        assert(bin@.subrange(1, i + 1)[k] == x);
                    }
                    assert(bin@.subrange(1, i + 1)[i - 1] == b);
                    assert(bin@.subrange(1, i + 1).contains(b));
                    assert(bin@.subrange(1, i + 1).to_set() =~= bin@.subrange(
                        1,
                        i as int,
                    ).to_set().insert(b));
                }
                i = i + 1;
            }
            proof {
                assert(bin@.subrange(1, bin@.len() as int) =~= bin@.skip(1));
            }
            return Ok(PropertyMap { props });
        }

        if bin.len() != 17 {
            return Err(Error::ParseError(String::from_str("data length MUST be equal to 17")));
        }

        let ghost m = bin@.skip(1);
        let mut props: Vec<u8> = Vec::new();
        let mut i: usize = 0;
        #[verifier::loop_isolation(false)]
        while i < 16
            invariant
                i <= 16,
                props@.no_duplicates(),
                forall|e: u8| #[trigger] props@.contains(e) <==> pm_before(m, i as int, 0, e),
            decreases 16 - i,
        {
            let mut j: u8 = 0;
            #[verifier::loop_isolation(false)]
            while j < 8
                invariant
                    i < 16,
                    j <= 8,
                    props@.no_duplicates(),
                    forall|e: u8| #[trigger] props@.contains(e) <==> pm_before(
                        m,
                        i as int,
                        j as int,
                        e,
                    ),
                decreases 8 - j,
            {
                let byte = bin[1 + i];
                proof {
                    assert(m[i as int] == bin@[1 + i]);
                }
                if (byte >> j) & 1 == 1 {
                    let e0: u8 = ((8 + (j as usize)) * 16 + i) as u8;
                    proof {
                        assert(e0 == (8 + j) * 16 + i as u8) by {
                            assert((8 + (j as usize)) * 16 + i < 256);
                        }
                        assert(e0 / 16 == 8 + j && e0 % 16 == i as u8) by (nonlinear_arith)
                            requires
                                e0 == (8 + j) * 16 + i as u8,
                                i < 16,
                                j < 8,
                        ;
                        assert(e0 >= 0x80);
                        assert(pm_bit(m, e0));
                        assert(!pm_before(m, i as int, j as int, e0));
                        assert(!props@.contains(e0));
                    }
                    let ghost oldp = props@;
                    props.push(e0);
                    proof {
                        assert(forall|k: int| 0 <= k < oldp.len() ==> oldp[k] != e0);
                        assert(props@ == oldp.push(e0));
                        assert(props@[oldp.len() as int] == e0);
                        assert(forall|k: int| 0 <= k < oldp.len() ==> props@[k] == oldp[k]);
                        assert(props@.no_duplicates());
                        assert(props@.contains(e0));
                        assert forall|e: u8| #[trigger] props@.contains(e) <==> pm_before(
                            m,
                            i as int,
                            j + 1,
                            e,
                        ) by {
                            if props@.contains(e) {
                                let k = choose|k: int| 0 <= k < props@.len() && props@[k] == e;
                                if k < oldp.len() {
                                    assert(oldp[k] == e);
                                    assert(oldp.contains(e));
                                    assert(pm_before(m, i as int, j as int, e));
                                }
                            }
                            if pm_before(m, i as int, j + 1, e) {
                                if pm_before(m, i as int, j as int, e) {
                                    assert(oldp.contains(e));
                                    let k = choose|k: int| 0 <= k < oldp.len() && oldp[k] == e;
                                    assert(props@[k] == e);
                                } else {
                                    assert(e >= 0x80 && e % 16 == i && e / 16 - 8 == j);
                                    assert(e == (e / 16) * 16 + e % 16) by (nonlinear_arith);
                                    assert(e == e0);
                                }
                            }
                        }
                    }
                } else {
                    proof {
                        assert forall|e: u8| #[trigger] props@.contains(e) <==> pm_before(
                            m,
                            i as int,
                            j + 1,
                            e,
                        ) by {
                            if pm_before(m, i as int, j + 1, e) && !pm_before(
                                m,
                                i as int,
                                j as int,
                                e,
                            ) {
                                assert(e >= 0x80 && e % 16 == i && e / 16 - 8 == j);
                                assert((m[(e % 16) as int] >> ((e / 16 - 8) as u8)) & 1 != 1);
                                assert(!pm_bit(m, e));
                            }
                        }
                    }
                }
                j = j + 1;
            }
            proof {
                assert forall|e: u8| pm_before(m, i as int, 8, e) == pm_before(
                    m,
                    i + 1,
                    0,
                    e,
                ) by {
                    if e >= 0x80 {
                        assert(8 <= e / 16 <= 15) by (nonlinear_arith)
                            requires
                                0x80 <= e <= 255,
                        ;
                    }
                }
            }
            i = i + 1;
        }
        proof {
            assert forall|e: u8| props@.to_set().contains(e) == spec_bitmap_set(m).contains(
                e,
            ) by {
                assert(props@.to_set().contains(e) == props@.contains(e));
                assert(props@.contains(e) <==> pm_before(m, 16, 0, e));
                assert(e % 16 < 16);
                assert(spec_bitmap_set(m).contains(e) == (e >= 0x80 && pm_bit(m, e)));
            }
            assert(props@.to_set() =~= spec_bitmap_set(m));
            props@.unique_seq_to_set();
        }

        if props.len() != bin[0] as usize {
            return Err(Error::ParseError(String::from_str("property count is wrong")));
        }

        Ok(PropertyMap { props })
    }

    /// Whether the remote object declared support for the given property.
    pub fn has_property<P: EchonetProperty>(&self, prop: P) -> (r: bool)
        ensures
            r == self@.contains(prop.code()),
    {
        let code = prop.to_u8();
        contains_byte(&self.props, code)
    }

    /// The decoded EPCs, in the order the descriptor listed them.
    pub fn property_ids(&self) -> (r: &Vec<u8>)
        ensures
            r@.to_set() == self@,
    {
        &self.props
    }
}

/// Linear search for a byte in a vector.
fn contains_byte(v: &Vec<u8>, b: u8) -> (r: bool)
    ensures
        r == v@.to_set().contains(b),
{
    let mut i: usize = 0;
    while i < v.len()
        invariant
            i <= v@.len(),
            forall|k: int| 0 <= k < i ==> v@[k] != b,
        decreases v@.len() - i,
    {
        if v[i] == b {
            assert(v@.to_set().contains(b));
            return true;
        }
        i = i + 1;
    }
    proof {
        if v@.to_set().contains(b) {
            assert(v@.contains(b));
        }
    }
    false
}

/// The canonical short-form descriptor for a set listed by `q`:
/// a count byte, then the EPCs themselves.
pub open spec fn spec_short_form(q: Seq<u8>) -> Seq<u8> {
    seq![q.len() as u8] + q
}

/// Byte `i` of the canonical long-form bitmap for the set `s`: bit `j` is
/// set exactly when the EPC `(8 + j) * 16 + i` is in `s`.
pub open spec fn spec_long_form_byte(s: Set<u8>, i: int) -> u8 {
    ((if s.contains((8 * 16 + i) as u8) { 1int } else { 0int })
        + (if s.contains((9 * 16 + i) as u8) { 2int } else { 0int })
        + (if s.contains((10 * 16 + i) as u8) { 4int } else { 0int })
        + (if s.contains((11 * 16 + i) as u8) { 8int } else { 0int })
        + (if s.contains((12 * 16 + i) as u8) { 16int } else { 0int })
        + (if s.contains((13 * 16 + i) as u8) { 32int } else { 0int })
        + (if s.contains((14 * 16 + i) as u8) { 64int } else { 0int })
        + (if s.contains((15 * 16 + i) as u8) { 128int } else { 0int })) as u8
}

/// The canonical long-form descriptor for the set `s`: the cardinality,
/// then the 16 bitmap bytes.
pub open spec fn spec_long_form(s: Set<u8>) -> Seq<u8> {
    seq![s.len() as u8] + Seq::new(16, |i: int| spec_long_form_byte(s, i))
}

/// Bit `j` of a long-form byte reads back the membership it encodes.
proof fn lemma_long_form_byte_bit(s: Set<u8>, i: int, j: u8)
    requires
        0 <= i < 16,
        j < 8,
    ensures
        ((spec_long_form_byte(s, i) >> j) & 1 == 1) == s.contains(((8 + j) * 16 + i) as u8),
{
    let t0: u8 = if s.contains((8 * 16 + i) as u8) { 1u8 } else { 0u8 };
    let t1: u8 = if s.contains((9 * 16 + i) as u8) { 1u8 } else { 0u8 };
    let t2: u8 = if s.contains((10 * 16 + i) as u8) { 1u8 } else { 0u8 };
    let t3: u8 = if s.contains((11 * 16 + i) as u8) { 1u8 } else { 0u8 };
    let t4: u8 = if s.contains((12 * 16 + i) as u8) { 1u8 } else { 0u8 };
    let t5: u8 = if s.contains((13 * 16 + i) as u8) { 1u8 } else { 0u8 };
    let t6: u8 = if s.contains((14 * 16 + i) as u8) { 1u8 } else { 0u8 };
    let t7: u8 = if s.contains((15 * 16 + i) as u8) { 1u8 } else { 0u8 };
    let b = spec_long_form_byte(s, i);
    assert(b == t0 + 2 * t1 + 4 * t2 + 8 * t3 + 16 * t4 + 32 * t5 + 64 * t6 + 128 * t7);
    assert((t0 + 2 * t1 + 4 * t2 + 8 * t3 + 16 * t4 + 32 * t5 + 64 * t6 + 128 * t7) as u8 >> j & 1
        == (if j == 0 {
        t0
    } else if j == 1 {
        t1
    } else if j == 2 {
        t2
    } else if j == 3 {
        t3
    } else if j == 4 {
        t4
    } else if j == 5 {
        t5
    } else if j == 6 {
        t6
    } else {
        t7
    })) by (bit_vector)
        requires
            t0 <= 1 && t1 <= 1 && t2 <= 1 && t3 <= 1 && t4 <= 1 && t5 <= 1 && t6 <= 1 && t7 <= 1
                && j < 8,
    ;
}

/// Decoding the canonical long-form bitmap of a set of EPCs at `0x80` and
/// above gives that set back.
proof fn lemma_bitmap_set_long_form(s: Set<u8>)
    requires
        forall|e: u8| s.contains(e) ==> e >= 0x80,
    ensures
        spec_bitmap_set(spec_long_form(s).skip(1)) == s,
{
    let m = spec_long_form(s).skip(1);
    assert(m =~= Seq::new(16, |i: int| spec_long_form_byte(s, i)));
    assert forall|e: u8| spec_bitmap_set(m).contains(e) == s.contains(e) by {
        if e >= 0x80 {
            let i = (e % 16) as int;
            let j = (e / 16 - 8) as u8;
            assert(0 <= i < 16);
            assert(j < 8) by {
                assert(e / 16 < 16);
                assert(e / 16 >= 8);
            }
            lemma_long_form_byte_bit(s, i, j);
            assert(((8 + j) * 16 + i) as u8 == e) by {
                assert(e == (e / 16) * 16 + e % 16) by (nonlinear_arith);
            }
            assert(pm_bit(m, e) == s.contains(e));
        } else {
            assert(!s.contains(e));
            assert(!spec_bitmap_set(m).contains(e));
        }
    }
    assert(spec_bitmap_set(m) =~= s);
}

/// Round trip for the long form: a set of at least 16 EPCs, all `0x80` or
/// above, comes back unchanged from parsing its canonical bitmap descriptor.
pub proof fn lemma_property_map_long_round_trip(s: Set<u8>)
    requires
        s.finite(),
        16 <= s.len() <= 255,
        forall|e: u8| s.contains(e) ==> e >= 0x80,
    ensures
        spec_parse_property_map(spec_long_form(s)) == Some(s),
{
    let b = spec_long_form(s);
    assert(b.len() == 17);
    assert(b[0] == s.len() as u8);
    assert(b[0] >= 16);
    lemma_bitmap_set_long_form(s);
}

/// Round trip for the short form: a list of fewer than 16 EPCs, free of
/// duplicates, comes back as exactly its set of entries.
pub proof fn lemma_property_map_short_round_trip(q: Seq<u8>)
    requires
        q.len() < 16,
    ensures
        spec_parse_property_map(spec_short_form(q)) == Some(q.to_set()),
{
    let b = spec_short_form(q);
    assert(b.len() == q.len() + 1);
    assert(b[0] == q.len() as u8);
    assert(b[0] < 16);
    assert(b.skip(1) =~= q);
}

} // verus!
