use vstd::prelude::*;

use crate::text::{
    all_ascii, ascii_chars_of, hex4_ascii, nibble_ascii, parse_hex_u16, push_hex4,
    spec_parse_hex_u16, spec_split, split_str, SepKind,
};

verus! {

/// An IPv6 address as eight 16-bit groups.
#[derive(Debug, PartialEq, Eq, Copy, Clone)]
pub struct Ipv6Addr {
    pub segments: [u16; 8],
}

impl View for Ipv6Addr {
    type V = Seq<u16>;

    open spec fn view(&self) -> Seq<u16> {
        self.segments@
    }
}

/// The eight groups an address string in full colon-separated hexadecimal
/// form denotes, or `None` when the form is different.
pub open spec fn spec_parse_ipv6(s: Seq<char>) -> Option<Seq<u16>> {
    let parts = spec_split(SepKind::Colon, s);
    if parts.len() == 8 && (forall|i: int|
        0 <= i < 8 ==> spec_parse_hex_u16(#[trigger] parts[i]) is Some) {
        Some(Seq::new(8, |i: int| spec_parse_hex_u16(parts[i]).unwrap()))
    } else {
        None
    }
}

/// The ASCII bytes of the fixed uncompressed uppercase form of an address:
/// eight four-digit groups joined by colons.
pub open spec fn spec_ipv6_ascii(a: Seq<u16>) -> Seq<u8>
    recommends
        a.len() == 8,
{
    hex4_ascii(a[0]) + seq![0x3Au8] + hex4_ascii(a[1]) + seq![0x3Au8] + hex4_ascii(a[2]) + seq![
        0x3Au8,
    ] + hex4_ascii(a[3]) + seq![0x3Au8] + hex4_ascii(a[4]) + seq![0x3Au8] + hex4_ascii(a[5]) + seq![
        0x3Au8,
    ] + hex4_ascii(a[6]) + seq![0x3Au8] + hex4_ascii(a[7])
}

impl Ipv6Addr {
    /// An address from its eight groups.
    pub fn from_segments(segments: [u16; 8]) -> (r: Ipv6Addr)
        ensures
            r@ == segments@,
    {
        Ipv6Addr { segments }
    }

    /// Read an address in full colon-separated hexadecimal form: eight
    /// groups, as the radio module itself prints addresses.  Compressed
    /// forms with `::` are not accepted.
    pub fn parse(s: &str) -> (r: Option<Ipv6Addr>)
        ensures
            match r {
                Some(a) => spec_parse_ipv6(s@) == Some(a@),
                None => spec_parse_ipv6(s@) is None,
            },
    {
        let parts = split_str(s, SepKind::Colon);
        if parts.len() != 8 {
            return None;
        }
        let ghost sparts = spec_split(SepKind::Colon, s@);
        let mut vals: Vec<u16> = Vec::new();
        let mut i: usize = 0;
        #[verifier::loop_isolation(false)]
        while i < 8
            invariant
                0 <= i <= 8,
                vals@.len() == i,
                forall|j: int|
                    0 <= j < i ==> spec_parse_hex_u16(#[trigger] sparts[j]) == Some(vals@[j]),
            decreases 8 - i,
        {
            match parse_hex_u16(parts[i].as_str()) {
                Some(v) => {
                    vals.push(v);
                },
                None => {
                    return None;
                },
            }
            i = i + 1;
        }
        let segments: [u16; 8] = [vals[0], vals[1], vals[2], vals[3], vals[4], vals[5], vals[6], vals[7]];
        let r = Ipv6Addr { segments };
        proof {
            assert(r@ =~= Seq::new(8, |i: int| spec_parse_hex_u16(sparts[i]).unwrap()));
        }
        Some(r)
    }

    /// Append the ASCII bytes of the fixed uncompressed uppercase form.
    pub fn push_full_ascii(&self, out: &mut Vec<u8>)
        ensures
            final(out)@ == old(out)@ + spec_ipv6_ascii(self@),
    {
        push_hex4(out, self.segments[0]);
        out.push(0x3A);
        push_hex4(out, self.segments[1]);
        out.push(0x3A);
        push_hex4(out, self.segments[2]);
        out.push(0x3A);
        push_hex4(out, self.segments[3]);
        out.push(0x3A);
        push_hex4(out, self.segments[4]);
        out.push(0x3A);
        push_hex4(out, self.segments[5]);
        out.push(0x3A);
        push_hex4(out, self.segments[6]);
        out.push(0x3A);
        push_hex4(out, self.segments[7]);
        proof {
            assert(final(out)@ =~= old(out)@ + spec_ipv6_ascii(self@));
        }
    }
}

/// The full form is ASCII throughout.
pub proof fn lemma_ipv6_ascii(a: Seq<u16>)
    requires
        a.len() == 8,
    ensures
        all_ascii(spec_ipv6_ascii(a)),
{
    let c = seq![0x3Au8];
    assert(all_ascii(c)) by {
        assert(c[0] == 0x3A);
    }
    crate::text::lemma_hex4_all_ascii(a[0]);
    crate::text::lemma_hex4_all_ascii(a[1]);
    crate::text::lemma_hex4_all_ascii(a[2]);
    crate::text::lemma_hex4_all_ascii(a[3]);
    crate::text::lemma_hex4_all_ascii(a[4]);
    crate::text::lemma_hex4_all_ascii(a[5]);
    crate::text::lemma_hex4_all_ascii(a[6]);
    crate::text::lemma_hex4_all_ascii(a[7]);
    let s1 = hex4_ascii(a[0]) + c;
    crate::text::lemma_all_ascii_concat(hex4_ascii(a[0]), c);
    let s2 = s1 + hex4_ascii(a[1]);
    crate::text::lemma_all_ascii_concat(s1, hex4_ascii(a[1]));
    let s3 = s2 + c;
    crate::text::lemma_all_ascii_concat(s2, c);
    let s4 = s3 + hex4_ascii(a[2]);
    crate::text::lemma_all_ascii_concat(s3, hex4_ascii(a[2]));
    let s5 = s4 + c;
    crate::text::lemma_all_ascii_concat(s4, c);
    let s6 = s5 + hex4_ascii(a[3]);
    crate::text::lemma_all_ascii_concat(s5, hex4_ascii(a[3]));
    let s7 = s6 + c;
    crate::text::lemma_all_ascii_concat(s6, c);
    let s8 = s7 + hex4_ascii(a[4]);
    crate::text::lemma_all_ascii_concat(s7, hex4_ascii(a[4]));
    let s9 = s8 + c;
    crate::text::lemma_all_ascii_concat(s8, c);
    let s10 = s9 + hex4_ascii(a[5]);
    crate::text::lemma_all_ascii_concat(s9, hex4_ascii(a[5]));
    let s11 = s10 + c;
    crate::text::lemma_all_ascii_concat(s10, c);
    let s12 = s11 + hex4_ascii(a[6]);
    crate::text::lemma_all_ascii_concat(s11, hex4_ascii(a[6]));
    let s13 = s12 + c;
    crate::text::lemma_all_ascii_concat(s12, c);
    let s14 = s13 + hex4_ascii(a[7]);
    crate::text::lemma_all_ascii_concat(s13, hex4_ascii(a[7]));
    assert(spec_ipv6_ascii(a) == s14);
}

/// The characters of the fixed uncompressed uppercase form.
pub open spec fn spec_ipv6_chars(a: Seq<u16>) -> Seq<char>
    recommends
        a.len() == 8,
{
    ascii_chars_of(spec_ipv6_ascii(a))
}

} // verus!
