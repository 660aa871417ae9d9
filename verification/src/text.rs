use vstd::prelude::*;

use vstd::utf8::{decode_utf8, encode_utf8, valid_utf8};

verus! {

broadcast use vstd::string::group_string_axioms;

/// The characters a byte sequence of plain ASCII decodes to.
pub open spec fn ascii_chars_of(b: Seq<u8>) -> Seq<char> {
    Seq::new(b.len(), |i: int| b[i] as char)
}

/// Every byte is ASCII.
pub open spec fn all_ascii(b: Seq<u8>) -> bool {
    forall|i: int| 0 <= i < b.len() ==> b[i] < 0x80
}

/// Relies on `String::from_utf8`: it succeeds exactly on valid UTF-8 and
/// returns the string that decodes those bytes.
#[verifier::external_body]
pub fn utf8_to_string(bytes: Vec<u8>) -> (r: Option<String>)
    ensures
        match r {
            Some(s) => valid_utf8(bytes@) && s@ == decode_utf8(bytes@),
            None => !valid_utf8(bytes@),
        },
{
    match String::from_utf8(bytes) {
        Ok(s) => Some(s),
        Err(_) => None,
    }
}

/// ASCII bytes are valid UTF-8 and decode byte-for-byte.
pub proof fn lemma_ascii_decode(b: Seq<u8>)
    requires
        all_ascii(b),
    ensures
        valid_utf8(b),
        decode_utf8(b) == ascii_chars_of(b),
{
    broadcast use vstd::utf8::group_utf8_lib;

    let c = ascii_chars_of(b);
    assert(vstd::utf8::is_ascii_chars(c)) by {
        assert forall|i: int| 0 <= i < c.len() implies '\0' <= #[trigger] c[i] <= '\u{7f}' by {
            assert(b[i] < 0x80);
        }
    }
    vstd::utf8::is_ascii_chars_encode_utf8(c);
    assert(encode_utf8(c) =~= b);
    vstd::utf8::encode_utf8_valid_utf8(c);
    vstd::utf8::encode_utf8_decode_utf8(c);
}

/// Turn ASCII bytes into a `String` whose characters are those bytes.
pub fn ascii_to_string(bytes: Vec<u8>) -> (r: String)
    requires
        all_ascii(bytes@),
    ensures
        r@ == ascii_chars_of(bytes@),
{
    proof {
        lemma_ascii_decode(bytes@);
    }
    match utf8_to_string(bytes) {
        Some(s) => s,
        None => String::new(),
    }
}

/// The value of a hexadecimal digit character, upper or lower case.
pub open spec fn hex_val(c: char) -> Option<u8> {
    if '0' <= c <= '9' {
        Some((c as u8 - '0' as u8) as u8)
    } else if 'a' <= c <= 'f' {
        Some((c as u8 - 'a' as u8 + 10) as u8)
    } else if 'A' <= c <= 'F' {
        Some((c as u8 - 'A' as u8 + 10) as u8)
    } else {
        None
    }
}

/// Every character is a hexadecimal digit.
pub open spec fn all_hex(s: Seq<char>) -> bool {
    forall|i: int| 0 <= i < s.len() ==> hex_val(s[i]) is Some
}

/// The number a sequence of hexadecimal digits denotes, most significant
/// digit first.
pub open spec fn hex_num_val(s: Seq<char>) -> nat
    recommends
        all_hex(s),
    decreases s.len(),
{
    if s.len() == 0 {
        0
    } else {
        (hex_num_val(s.drop_last()) * 16 + hex_val(s.last()).unwrap_or(0)) as nat
    }
}

/// A digit appended on the right never shrinks the value.
proof fn lemma_hex_num_prefix_le(s: Seq<char>, k: int)
    requires
        0 <= k <= s.len(),
    ensures
        hex_num_val(s.take(k)) <= hex_num_val(s),
    decreases s.len() - k,
{
    if k < s.len() {
        lemma_hex_num_prefix_le(s, k + 1);
        let t = s.take(k + 1);
        assert(t.drop_last() =~= s.take(k));
        assert(hex_num_val(s.take(k)) <= hex_num_val(t)) by {
            assert(hex_num_val(t) == hex_num_val(s.take(k)) * 16 + hex_val(t.last()).unwrap_or(0));
            assert(hex_num_val(s.take(k)) * 16 >= hex_num_val(s.take(k))) by (nonlinear_arith);
        }
    } else {
        assert(s.take(k) =~= s);
    }
}

/// What `u16::from_str_radix(s, 16)` returns: the denoted number when every
/// character is a digit, the string is not empty, and the value fits.
pub open spec fn spec_parse_hex_u16(s: Seq<char>) -> Option<u16> {
    if s.len() == 0 || !all_hex(s) || hex_num_val(s) > 0xFFFF {
        None
    } else {
        Some(hex_num_val(s) as u16)
    }
}

/// What `u8::from_str_radix(s, 16)` returns.
pub open spec fn spec_parse_hex_u8(s: Seq<char>) -> Option<u8> {
    if s.len() == 0 || !all_hex(s) || hex_num_val(s) > 0xFF {
        None
    } else {
        Some(hex_num_val(s) as u8)
    }
}

/// Read an unsigned 16-bit number from hexadecimal digits.
pub fn parse_hex_u16(s: &str) -> (r: Option<u16>)
    ensures
        r == spec_parse_hex_u16(s@),
{
    let n = s.unicode_len();
    if n == 0 {
        return None;
    }
    let mut acc: u32 = 0;
    let mut i: usize = 0;
    proof {
        assert(s@.take(0) =~= Seq::<char>::empty());
    }
    #[verifier::loop_isolation(false)]
    while i < n
        invariant
            0 <= i <= n,
            n == s@.len(),
            all_hex(s@.take(i as int)),
            acc == hex_num_val(s@.take(i as int)),
            acc <= 0xFFFF,
        decreases n - i,
    {
        let c = s.get_char(i);
        let d: u8 = if '0' <= c && c <= '9' {
            (c as u8) - 48
        } else if 'a' <= c && c <= 'f' {
            (c as u8) - 97 + 10
        } else if 'A' <= c && c <= 'F' {
            (c as u8) - 65 + 10
        } else {
            proof {
                assert(hex_val(s@[i as int]) is None);
            }
            return None;
        };
        proof {
            assert(hex_val(s@[i as int]) == Some(d));
            assert(s@.take(i + 1).drop_last() =~= s@.take(i as int));
            assert(s@.take(i + 1).last() == s@[i as int]);
        }
        acc = acc * 16 + (d as u32);
        i = i + 1;
        if acc > 0xFFFF {
            proof {
                lemma_hex_num_prefix_le(s@, i as int);
                assert(s@.take(n as int) =~= s@);
            }
            return None;
        }
    }
    proof {
        assert(s@.take(n as int) =~= s@);
    }
    Some(acc as u16)
}

/// Read an unsigned 8-bit number from hexadecimal digits.
pub fn parse_hex_u8(s: &str) -> (r: Option<u8>)
    ensures
        r == spec_parse_hex_u8(s@),
{
    match parse_hex_u16(s) {
        Some(v) => {
            if v > 0xFF {
                None
            } else {
                Some(v as u8)
            }
        },
        None => None,
    }
}

/// The bytes a string of hexadecimal digit pairs denotes, or `None` on an
/// odd length or a character that is no digit.
pub open spec fn spec_hex_decode(s: Seq<char>) -> Option<Seq<u8>>
    decreases s.len(),
{
    if s.len() % 2 != 0 {
        None
    } else if s.len() == 0 {
        Some(Seq::empty())
    } else {
        match (hex_val(s[0]), hex_val(s[1])) {
            (Some(hi), Some(lo)) => match spec_hex_decode(s.skip(2)) {
                Some(rest) => Some(seq![(hi * 16 + lo) as u8] + rest),
                None => None,
            },
            _ => None,
        }
    }
}

/// Decode a string of hexadecimal digit pairs into bytes.
pub fn hex_decode(s: &str) -> (r: Option<Vec<u8>>)
    ensures
        match r {
            Some(v) => spec_hex_decode(s@) == Some(v@),
            None => spec_hex_decode(s@) is None,
        },
{
    let n = s.unicode_len();
    if n % 2 != 0 {
        return None;
    }
    let mut out: Vec<u8> = Vec::new();
    let mut i: usize = 0;
    proof {
        assert(s@.skip(0) =~= s@);
        match spec_hex_decode(s@) {
            Some(rest) => {
                assert(out@ + rest =~= rest);
            },
            None => {},
        }
    }
    #[verifier::loop_isolation(false)]
    while i < n
        invariant
            0 <= i <= n,
            i % 2 == 0,
            n % 2 == 0,
            n == s@.len(),
            match spec_hex_decode(s@.skip(i as int)) {
                Some(rest) => spec_hex_decode(s@) == Some(out@ + rest),
                None => spec_hex_decode(s@) is None,
            },
        decreases n - i,
    {
        let hi = match hex_char_val(s.get_char(i)) {
            Some(d) => d,
            None => {
                return None;
            },
        };
        let lo = match hex_char_val(s.get_char(i + 1)) {
            Some(d) => d,
            None => {
                return None;
            },
        };
        proof {
            assert(s@.skip(i as int)[0] == s@[i as int]);
            assert(s@.skip(i as int)[1] == s@[i + 1]);
            assert(s@.skip(i as int).skip(2) =~= s@.skip(i + 2));
        }
        let ghost oldout = out@;
        out.push(hi * 16 + lo);
        proof {
            match spec_hex_decode(s@.skip(i + 2)) {
                Some(rest2) => {
                    assert(oldout + (seq![(hi * 16 + lo) as u8] + rest2) =~= out@ + rest2);
                },
                None => {},
            }
        }
        i = i + 2;
    }
    proof {
        assert(s@.skip(n as int) =~= Seq::<char>::empty());
        assert(spec_hex_decode(s@.skip(n as int)) == Some(Seq::<u8>::empty()));
        assert(out@ + Seq::<u8>::empty() =~= out@);
    }
    Some(out)
}

/// The value of one hexadecimal digit character.
pub fn hex_char_val(c: char) -> (r: Option<u8>)
    ensures
        r == hex_val(c),
{
    if '0' <= c && c <= '9' {
        Some((c as u8) - 48)
    } else if 'a' <= c && c <= 'f' {
        Some((c as u8) - 97 + 10)
    } else if 'A' <= c && c <= 'F' {
        Some((c as u8) - 65 + 10)
    } else {
        None
    }
}

/// The ASCII byte of the uppercase hexadecimal digit for `n`.
pub open spec fn nibble_ascii(n: u8) -> u8
    recommends
        n < 16,
{
    if n < 10 {
        (0x30 + n) as u8
    } else {
        (0x37 + n) as u8
    }
}

/// Uppercase hexadecimal digit bytes of `x`, four digits, zero padded.
pub open spec fn hex4_ascii(x: u16) -> Seq<u8> {
    seq![
        nibble_ascii((x / 0x1000 % 16) as u8),
        nibble_ascii((x / 0x100 % 16) as u8),
        nibble_ascii((x / 0x10 % 16) as u8),
        nibble_ascii((x % 16) as u8),
    ]
}

/// Push one uppercase hexadecimal digit.
fn push_nibble(out: &mut Vec<u8>, n: u8)
    requires
        n < 16,
    ensures
        final(out)@ == old(out)@.push(nibble_ascii(n)),
{
    if n < 10 {
        out.push(0x30 + n);
    } else {
        out.push(0x37 + n);
    }
}

/// Append the four-digit uppercase hexadecimal form of `x`.
pub fn push_hex4(out: &mut Vec<u8>, x: u16)
    ensures
        final(out)@ == old(out)@ + hex4_ascii(x),
{
    push_nibble(out, (x / 0x1000 % 16) as u8);
    push_nibble(out, (x / 0x100 % 16) as u8);
    push_nibble(out, (x / 0x10 % 16) as u8);
    push_nibble(out, (x % 16) as u8);
    proof {
        assert(out@ =~= old(out)@ + hex4_ascii(x));
    }
}

/// Uppercase hexadecimal digit bytes of `x` without leading zeros; empty
/// for zero.
pub open spec fn hex_nopad_rec(x: nat) -> Seq<u8>
    decreases x,
{
    if x == 0 {
        Seq::empty()
    } else {
        hex_nopad_rec(x / 16).push(nibble_ascii((x % 16) as u8))
    }
}

/// Uppercase hexadecimal digit bytes of `x` as `{:X}` prints them: no
/// padding, and a single `0` for zero.
pub open spec fn hex_nopad_ascii(x: nat) -> Seq<u8> {
    if x == 0 {
        seq![0x30u8]
    } else {
        hex_nopad_rec(x)
    }
}

/// Append `hex_nopad_rec(x)`.
fn push_hex_rec(out: &mut Vec<u8>, x: u64)
    ensures
        final(out)@ == old(out)@ + hex_nopad_rec(x as nat),
    decreases x,
{
    if x == 0 {
        proof {
            assert(out@ =~= old(out)@ + hex_nopad_rec(0));
        }
        return ;
    }
    push_hex_rec(out, x / 16);
    push_nibble(out, (x % 16) as u8);
    proof {
        assert(out@ =~= old(out)@ + hex_nopad_rec(x as nat));
    }
}

/// Append the unpadded uppercase hexadecimal form of `x`.
pub fn push_hex_nopad(out: &mut Vec<u8>, x: u64)
    ensures
        final(out)@ == old(out)@ + hex_nopad_ascii(x as nat),
{
    if x == 0 {
        out.push(0x30);
        proof {
            assert(out@ =~= old(out)@ + hex_nopad_ascii(0));
        }
    } else {
        push_hex_rec(out, x);
    }
}

/// Every byte `hex_nopad_rec` yields is ASCII.
pub proof fn lemma_hex_nopad_ascii(x: nat)
    ensures
        all_ascii(hex_nopad_ascii(x)),
        all_ascii(hex_nopad_rec(x)),
    decreases x,
{
    if x == 0 {
    } else {
        lemma_hex_nopad_ascii(x / 16);
        let s = hex_nopad_rec(x);
        assert forall|i: int| 0 <= i < s.len() implies s[i] < 0x80 by {
            if i < s.len() - 1 {
                assert(s[i] == hex_nopad_rec(x / 16)[i]);
            }
        }
    }
}

/// Concatenation keeps everything ASCII.
pub proof fn lemma_all_ascii_concat(x: Seq<u8>, y: Seq<u8>)
    requires
        all_ascii(x),
        all_ascii(y),
    ensures
        all_ascii(x + y),
{
    assert forall|i: int| 0 <= i < (x + y).len() implies (x + y)[i] < 0x80 by {
        if i < x.len() {
            assert((x + y)[i] == x[i]);
        } else {
            assert((x + y)[i] == y[i - x.len()]);
        }
    }
}

/// Four hexadecimal digits are ASCII.
pub proof fn lemma_hex4_all_ascii(x: u16)
    ensures
        all_ascii(hex4_ascii(x)),
{
    let s = hex4_ascii(x);
    assert forall|i: int| 0 <= i < s.len() implies s[i] < 0x80 by {
        assert(s.len() == 4);
        assert(s[0] == nibble_ascii((x / 0x1000 % 16) as u8));
        assert(s[1] == nibble_ascii((x / 0x100 % 16) as u8));
        assert(s[2] == nibble_ascii((x / 0x10 % 16) as u8));
        assert(s[3] == nibble_ascii((x % 16) as u8));
    }
}

/// Which separators a split uses.
#[derive(Debug, PartialEq, Eq, Structural, Copy, Clone)]
pub enum SepKind {
    /// Split at spaces and line feeds, as the event lines are tokenized.
    SpaceLf,
    /// Split at colons, as `key:value` lines and IPv6 addresses are.
    Colon,
    /// Split at line feeds, as a multi-line block is cut into lines.
    Lf,
}

/// Whether `c` separates pieces under the given kind.
pub open spec fn is_sep(k: SepKind, c: char) -> bool {
    match k {
        SepKind::SpaceLf => c == ' ' || c == '\n',
        SepKind::Colon => c == ':',
        SepKind::Lf => c == '\n',
    }
}

/// Whitespace as the module's lines use it.
pub open spec fn is_ws(c: char) -> bool {
    c == ' ' || c == '\t' || c == '\r' || c == '\n'
}

/// The pieces of `s` between separators, empty pieces kept, as
/// `str::split` yields them.
pub open spec fn spec_split(k: SepKind, s: Seq<char>) -> Seq<Seq<char>>
    decreases s.len(),
{
    if s.len() == 0 {
        seq![Seq::<char>::empty()]
    } else if is_sep(k, s[0]) {
        seq![Seq::<char>::empty()] + spec_split(k, s.drop_first())
    } else {
        let rest = spec_split(k, s.drop_first());
        seq![seq![s[0]] + rest[0]] + rest.skip(1)
    }
}

/// A split has at least one piece.
pub proof fn lemma_split_nonempty(k: SepKind, s: Seq<char>)
    ensures
        spec_split(k, s).len() >= 1,
    decreases s.len(),
{
    if s.len() > 0 {
        lemma_split_nonempty(k, s.drop_first());
    }
}

/// A string without separators is a single piece.
proof fn lemma_split_no_sep(k: SepKind, s: Seq<char>)
    requires
        forall|j: int| 0 <= j < s.len() ==> !is_sep(k, s[j]),
    ensures
        spec_split(k, s) == seq![s],
    decreases s.len(),
{
    if s.len() == 0 {
        assert(s =~= Seq::<char>::empty());
        assert(spec_split(k, s) =~~= seq![s]);
    } else {
        lemma_split_no_sep(k, s.drop_first());
        let rest = spec_split(k, s.drop_first());
        assert(rest[0] == s.drop_first());
        assert(rest.skip(1) =~= Seq::<Seq<char>>::empty());
        assert(seq![s[0]] + rest[0] =~= s);
        assert(spec_split(k, s) =~~= seq![s]);
    }
}

/// Splitting at the first separator yields the head piece and the split of
/// the remainder.
proof fn lemma_split_at_sep(k: SepKind, s: Seq<char>, n: int)
    requires
        0 <= n < s.len(),
        is_sep(k, s[n]),
        forall|j: int| 0 <= j < n ==> !is_sep(k, s[j]),
    ensures
        spec_split(k, s) == seq![s.take(n)] + spec_split(k, s.skip(n + 1)),
    decreases n,
{
    if n == 0 {
        assert(s.take(0) =~= Seq::<char>::empty());
        assert(s.drop_first() =~= s.skip(1));
        assert(spec_split(k, s) =~= seq![s.take(0)] + spec_split(k, s.skip(1)));
    } else {
        let t = s.drop_first();
        assert(t[n - 1] == s[n]);
        assert(forall|j: int| 0 <= j < n - 1 ==> t[j] == s[j + 1] && !is_sep(k, t[j]));
        lemma_split_at_sep(k, t, n - 1);
        lemma_split_nonempty(k, t.skip(n));
        assert(t.take(n - 1) =~= s.take(n).drop_first());
        assert(t.skip(n) =~= s.skip(n + 1));
        assert(seq![s[0]] + spec_split(k, t)[0] =~= s.take(n));
        assert(spec_split(k, t).skip(1) =~= spec_split(k, s.skip(n + 1)));
        assert(spec_split(k, s) =~= seq![s.take(n)] + spec_split(k, s.skip(n + 1)));
    }
}

/// Split a string at spaces and line feeds, keeping empty pieces.
/// Whether the character at `i` is a separator of kind `k`.
fn sep_at(s: &str, i: usize, k: SepKind) -> (r: bool)
    requires
        i < s@.len(),
    ensures
        r == is_sep(k, s@[i as int]),
{
    let c = s.get_char(i);
    match k {
        SepKind::SpaceLf => c == ' ' || c == '\n',
        SepKind::Colon => c == ':',
        SepKind::Lf => c == '\n',
    }
}

/// Split a string at the separators of kind `k`, keeping empty pieces.
#[verifier::rlimit(50)]
pub fn split_str(s: &str, k: SepKind) -> (r: Vec<String>)
    ensures
        r@.len() == spec_split(k, s@).len(),
        forall|i: int| 0 <= i < r@.len() ==> (#[trigger] r@[i])@ == spec_split(k, s@)[i],
{
    let n = s.unicode_len();
    let mut out: Vec<String> = Vec::new();
    let mut start: usize = 0;
    let mut i: usize = 0;
    proof {
        assert(s@.skip(0) =~= s@);
        assert(out@.map_values(|x: String| x@) + spec_split(k, s@) =~= spec_split(k, s@));
    }
    #[verifier::loop_isolation(false)]
    while i < n
        invariant
            0 <= start <= i <= n,
            n == s@.len(),
            forall|j: int| start <= j < i ==> !is_sep(k, s@[j]),
            spec_split(k, s@) == out@.map_values(|x: String| x@) + spec_split(
                k,
                s@.skip(start as int),
            ),
        decreases n - i,
    {
        if sep_at(s, i, k) {
            let piece = s.substring_char(start, i).to_owned();
            let ghost tail = s@.skip(start as int);
            proof {
                assert(is_sep(k, tail[i - start]));
                assert(forall|j: int|
                    0 <= j < i - start ==> tail[j] == s@[start + j] && !is_sep(k, tail[j]));
                lemma_split_at_sep(k, tail, i - start);
                assert(tail.take(i - start) =~= s@.subrange(start as int, i as int));
                assert(tail.skip(i - start + 1) =~= s@.skip(i + 1));
                assert(spec_split(k, tail) == seq![s@.subrange(start as int, i as int)]
                    + spec_split(k, s@.skip(i + 1)));
            }
            let ghost oldout = out@;
            out.push(piece);
            proof {
                assert(out@.map_values(|x: String| x@) =~= oldout.map_values(|x: String| x@).push(
                    piece@,
                ));
                assert(out@.map_values(|x: String| x@) + spec_split(k, s@.skip(i + 1)) =~=
                    oldout.map_values(|x: String| x@) + (seq![piece@] + spec_split(
                    k,
                    s@.skip(i + 1),
                )));
            }
            start = i + 1;
        }
        i = i + 1;
    }
    let piece = s.substring_char(start, n).to_owned();
    let ghost tail = s@.skip(start as int);
    proof {
        assert(forall|j: int|
            0 <= j < tail.len() ==> tail[j] == s@[start + j] && !is_sep(k, tail[j]));
        lemma_split_no_sep(k, tail);
        assert(piece@ =~= tail);
    }
    let ghost oldout = out@;
    out.push(piece);
    proof {
        assert(out@.map_values(|x: String| x@) =~= oldout.map_values(|x: String| x@).push(piece@));
        assert(out@.map_values(|x: String| x@) =~= oldout.map_values(|x: String| x@) + seq![tail]);
        assert(out@.map_values(|x: String| x@) =~= spec_split(k, s@));
        assert(forall|i2: int|
            0 <= i2 < out@.len() ==> (#[trigger] out@[i2])@ == out@.map_values(|x: String| x@)[i2]);
    }
    out
}

/// `s` with leading whitespace removed.
pub open spec fn spec_trim_start(s: Seq<char>) -> Seq<char>
    decreases s.len(),
{
    if s.len() > 0 && is_ws(s[0]) {
        spec_trim_start(s.drop_first())
    } else {
        s
    }
}

/// `s` with trailing whitespace removed.
pub open spec fn spec_trim_end(s: Seq<char>) -> Seq<char>
    decreases s.len(),
{
    if s.len() > 0 && is_ws(s.last()) {
        spec_trim_end(s.drop_last())
    } else {
        s
    }
}

/// `s` with whitespace removed from both ends.
pub open spec fn spec_trim(s: Seq<char>) -> Seq<char> {
    spec_trim_end(spec_trim_start(s))
}

/// Trimming the start strips exactly the leading run of whitespace.
proof fn lemma_trim_start_at(s: Seq<char>, k: int)
    requires
        0 <= k <= s.len(),
        forall|j: int| 0 <= j < k ==> is_ws(s[j]),
        k < s.len() ==> !is_ws(s[k]),
    ensures
        spec_trim_start(s) == s.skip(k),
    decreases k,
{
    if k == 0 {
        if s.len() > 0 {
            assert(!is_ws(s[0]));
        }
        assert(s.skip(0) =~= s);
    } else {
        assert(is_ws(s[0]));
        let t = s.drop_first();
        assert(forall|j: int| 0 <= j < k - 1 ==> is_ws(t[j]));
        assert(k - 1 < t.len() ==> !is_ws(t[k - 1]));
        lemma_trim_start_at(t, k - 1);
        assert(t.skip(k - 1) =~= s.skip(k));
    }
}

/// Trimming the end strips exactly the trailing run of whitespace.
proof fn lemma_trim_end_at(s: Seq<char>, k: int)
    requires
        0 <= k <= s.len(),
        forall|j: int| k <= j < s.len() ==> is_ws(s[j]),
        k > 0 ==> !is_ws(s[k - 1]),
    ensures
        spec_trim_end(s) == s.take(k),
    decreases s.len() - k,
{
    if k == s.len() {
        if s.len() > 0 {
            assert(!is_ws(s.last()));
        }
        assert(s.take(k) =~= s);
    } else {
        assert(is_ws(s.last()));
        let t = s.drop_last();
        assert(forall|j: int| k <= j < t.len() ==> t[j] == s[j] && is_ws(t[j]));
        lemma_trim_end_at(t, k);
        assert(t.take(k) =~= s.take(k));
    }
}

/// Whether the character at `i` is whitespace.
fn ws_at(s: &str, i: usize) -> (r: bool)
    requires
        i < s@.len(),
    ensures
        r == is_ws(s@[i as int]),
{
    let c = s.get_char(i);
    c == ' ' || c == '\t' || c == '\r' || c == '\n'
}

/// Remove whitespace from both ends of a string.
pub fn trim_str(s: &str) -> (r: String)
    ensures
        r@ == spec_trim(s@),
{
    let n = s.unicode_len();
    let mut a: usize = 0;
    #[verifier::loop_isolation(false)]
    while a < n && ws_at(s, a)
        invariant
            0 <= a <= n,
            n == s@.len(),
            forall|j: int| 0 <= j < a ==> is_ws(s@[j]),
        decreases n - a,
    {
        a = a + 1;
    }
    proof {
        lemma_trim_start_at(s@, a as int);
    }
    let mut b: usize = n;
    #[verifier::loop_isolation(false)]
    while b > a && ws_at(s, b - 1)
        invariant
            a <= b <= n,
            forall|j: int| b <= j < n ==> is_ws(s@[j]),
        decreases b,
    {
        b = b - 1;
    }
    let r = s.substring_char(a, b).to_owned();
    proof {
        let t = s@.skip(a as int);
        assert(forall|j: int| b - a <= j < t.len() ==> is_ws(t[j]));
        assert(b - a > 0 ==> !is_ws(t[b - a - 1]));
        lemma_trim_end_at(t, b - a);
        assert(t.take(b - a) =~= s@.subrange(a as int, b as int));
    }
    r
}

} // verus!
