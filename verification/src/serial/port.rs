use vstd::prelude::*;

use vstd::utf8::{decode_utf8, valid_utf8};

use crate::serial::buffer::{spec_take_line, BufError, Buffer};
use crate::serial::errors::Error;
use crate::serial::traits::{Connection, ReadEntry, ReadEvent, ReadWrite};

verus! {

/// How many empty reads in a row `read_line` tolerates before it reports
/// the stream as ended.
pub const ZERO_READ_LIMIT: usize = 8;

/// `b` with every trailing carriage return and line feed removed.
pub open spec fn spec_trim_line_end(b: Seq<u8>) -> Seq<u8>
    decreases b.len(),
{
    if b.len() > 0 && (b.last() == 13 || b.last() == 10) {
        spec_trim_line_end(b.drop_last())
    } else {
        b
    }
}

/// Trimming strips exactly the trailing run of carriage returns and line
/// feeds.
proof fn lemma_trim_line_end_at(b: Seq<u8>, k: int)
    requires
        0 <= k <= b.len(),
        forall|j: int| k <= j < b.len() ==> b[j] == 13 || b[j] == 10,
        k > 0 ==> !(b[k - 1] == 13 || b[k - 1] == 10),
    ensures
        spec_trim_line_end(b) == b.take(k),
    decreases b.len() - k,
{
    if k == b.len() {
        if b.len() > 0 {
            assert(!(b.last() == 13 || b.last() == 10));
        }
        assert(b.take(k) =~= b);
    } else {
        assert(b.last() == 13 || b.last() == 10);
        let t = b.drop_last();
        assert(forall|j: int| k <= j < t.len() ==> t[j] == b[j] && (t[j] == 13 || t[j] == 10));
        lemma_trim_line_end_at(t, k);
        assert(t.take(k) =~= b.take(k));
    }
}

/// Whether the byte at `i` is a carriage return or a line feed.
fn crlf_at(s: &[u8], i: usize) -> (r: bool)
    requires
        i < s@.len(),
    ensures
        r == (s@[i as int] == 13 || s@[i as int] == 10),
{
    let b = s[i];
    b == 13 || b == 10
}

/// Strip every trailing carriage return and line feed.
pub fn trim_line_end(text_u8: &[u8]) -> (r: &[u8])
    ensures
        r@ == spec_trim_line_end(text_u8@),
{
    let n = text_u8.len();
    let mut e: usize = n;
    #[verifier::loop_isolation(false)]
    while e > 0 && crlf_at(text_u8, e - 1)
        invariant
            0 <= e <= n,
            n == text_u8@.len(),
            forall|j: int| e <= j < n ==> text_u8@[j] == 13 || text_u8@[j] == 10,
        decreases e,
    {
        e = e - 1;
    }
    proof {
        lemma_trim_line_end_at(text_u8@, e as int);
    }
    &text_u8[0..e]
}

/// The complete lines of a byte stream, each up to and including its line
/// feed; bytes after the last line feed are no line.
pub open spec fn spec_stream_lines(b: Seq<u8>) -> Seq<Seq<u8>>
    decreases b.len(),
{
    if b.len() == 0 {
        Seq::empty()
    } else if b[0] == 10 {
        seq![seq![b[0]]] + spec_stream_lines(b.drop_first())
    } else {
        let rest = spec_stream_lines(b.drop_first());
        if rest.len() == 0 {
            Seq::empty()
        } else {
            seq![seq![b[0]] + rest[0]] + rest.skip(1)
        }
    }
}

/// A stream without line feeds holds no complete line.
pub proof fn lemma_stream_lines_no_lf(b: Seq<u8>)
    requires
        forall|j: int| 0 <= j < b.len() ==> b[j] != 10,
    ensures
        spec_stream_lines(b) == Seq::<Seq<u8>>::empty(),
    decreases b.len(),
{
    if b.len() > 0 {
        assert(forall|j: int| 0 <= j < b.len() - 1 ==> b.drop_first()[j] == b[j + 1]);
        lemma_stream_lines_no_lf(b.drop_first());
    }
}

/// A line-feed-terminated line at the front is the stream's first line.
pub proof fn lemma_stream_lines_head(l: Seq<u8>, rest: Seq<u8>)
    requires
        l.len() >= 1,
        l.last() == 10,
        forall|j: int| 0 <= j < l.len() - 1 ==> l[j] != 10,
    ensures
        spec_stream_lines(l + rest) == seq![l] + spec_stream_lines(rest),
    decreases l.len(),
{
    let b = l + rest;
    if l.len() == 1 {
        assert(b[0] == 10);
        assert(b.drop_first() =~= rest);
        assert(seq![b[0]] =~= l);
        assert(spec_stream_lines(b) =~~= seq![l] + spec_stream_lines(rest));
    } else {
        assert(b[0] == l[0]);
        assert(b[0] != 10);
        let l2 = l.drop_first();
        assert(l2.last() == 10);
        assert(forall|j: int| 0 <= j < l2.len() - 1 ==> l2[j] == l[j + 1] && l2[j] != 10);
        lemma_stream_lines_head(l2, rest);
        assert(b.drop_first() =~= l2 + rest);
        let sub = spec_stream_lines(l2 + rest);
        assert(sub == seq![l2] + spec_stream_lines(rest));
        assert(sub.len() >= 1);
        assert(sub[0] == l2);
        assert(seq![b[0]] + sub[0] =~= l);
        assert(sub.skip(1) =~= spec_stream_lines(rest));
        assert(spec_stream_lines(b) =~~= seq![l] + spec_stream_lines(rest));
    }
}


/// A byte stream built by terminating each of the given lines with
/// `\r\n`.
pub open spec fn join_crlf(ls: Seq<Seq<u8>>) -> Seq<u8>
    decreases ls.len(),
{
    if ls.len() == 0 {
        Seq::empty()
    } else {
        (ls[0] + seq![13u8, 10u8]) + join_crlf(ls.drop_first())
    }
}

/// Splitting a stream of `\r\n`-terminated lines gives the lines back,
/// terminators removed: reading line by line loses and invents nothing.
pub proof fn lemma_crlf_lines_round_trip(ls: Seq<Seq<u8>>)
    requires
        forall|i: int, j: int|
            0 <= i < ls.len() && 0 <= j < ls[i].len() ==> #[trigger] ls[i][j] != 10,
        forall|i: int| 0 <= i < ls.len() && (#[trigger] ls[i]).len() > 0 ==> ls[i].last() != 13,
    ensures
        spec_stream_lines(join_crlf(ls)).len() == ls.len(),
        forall|i: int|
            0 <= i < ls.len() ==> spec_trim_line_end(
                #[trigger] spec_stream_lines(join_crlf(ls))[i],
            ) == ls[i],
    decreases ls.len(),
{
    if ls.len() > 0 {
        let l = ls[0] + seq![13u8, 10u8];
        let rest = join_crlf(ls.drop_first());
        assert(l.len() >= 2);
        assert(l.last() == 10);
        assert forall|j: int| 0 <= j < l.len() - 1 implies l[j] != 10 by {
            if j < ls[0].len() {
                assert(l[j] == ls[0][j]);
            } else {
                assert(l[j] == 13);
            }
        }
        assert(join_crlf(ls) == l + rest);
        lemma_stream_lines_head(l, rest);
        assert forall|i: int, j: int|
            0 <= i < ls.drop_first().len() && 0 <= j < ls.drop_first()[i].len() implies #[trigger] ls.drop_first()[i][j]
            != 10 by {
            assert(ls.drop_first()[i] == ls[i + 1]);
            assert(ls[i + 1][j] != 10);
        }
        assert(forall|i: int|
            0 <= i < ls.drop_first().len() && (#[trigger] ls.drop_first()[i]).len() > 0
                ==> ls.drop_first()[i].last() != 13);
        lemma_crlf_lines_round_trip(ls.drop_first());
        assert(spec_trim_line_end(l) == ls[0]) by {
            assert(forall|j: int| ls[0].len() <= j < l.len() ==> l[j] == 13 || l[j] == 10);
            if ls[0].len() > 0 {
                assert(l[ls[0].len() - 1] == ls[0].last());
                assert(!(l[ls[0].len() - 1] == 13 || l[ls[0].len() - 1] == 10));
            }
            lemma_trim_line_end_at(l, ls[0].len() as int);
            assert(l.take(ls[0].len() as int) =~= ls[0]);
        }
        let lines = spec_stream_lines(join_crlf(ls));
        assert(lines == seq![l] + spec_stream_lines(rest));
        assert forall|i: int|
            0 <= i < ls.len() implies spec_trim_line_end(#[trigger] lines[i]) == ls[i] by {
            if i == 0 {
                assert(lines[0] == l);
            } else {
                assert(lines[i] == spec_stream_lines(rest)[i - 1]);
                assert(spec_trim_line_end(spec_stream_lines(rest)[i - 1]) == ls.drop_first()[i
                    - 1]);
            }
        }
    }
}

/// The entry a completed raw line yields: its terminator-free text, or a
/// UTF-8 failure.
pub open spec fn entry_of_line(l: Seq<u8>) -> ReadEntry {
    let t = spec_trim_line_end(l);
    if valid_utf8(t) {
        ReadEntry::Line(decode_utf8(t))
    } else {
        ReadEntry::Failed(Error::Utf8Error)
    }
}

/// The bytes left over once every complete line has been taken.
pub open spec fn spec_line_tail(b: Seq<u8>) -> Seq<u8>
    decreases b.len(),
    via spec_line_tail_decreases
{
    match spec_take_line(b) {
        Some(lr) => spec_line_tail(lr.1),
        None => b,
    }
}

#[via_fn]
proof fn spec_line_tail_decreases(b: Seq<u8>) {
    crate::serial::buffer::lemma_take_line_shape(b);
}

/// Without a line feed nothing is taken.
proof fn lemma_line_tail_no_lf(b: Seq<u8>)
    requires
        forall|j: int| 0 <= j < b.len() ==> b[j] != 10,
    ensures
        spec_line_tail(b) == b,
{
    crate::serial::buffer::lemma_take_line_shape(b);
    if spec_take_line(b) is Some {
        let lr = spec_take_line(b).unwrap();
        assert(lr.0.last() == 10);
        assert(b[lr.0.len() - 1] == 10);
    }
}

/// A complete line at the front is taken first, leaving the rest.
proof fn lemma_take_line_prefix(l: Seq<u8>, b: Seq<u8>)
    requires
        l.len() >= 1,
        l.last() == 10,
        forall|j: int| 0 <= j < l.len() - 1 ==> l[j] != 10,
    ensures
        spec_take_line(l + b) == Some((l, b)),
{
    let c = l + b;
    assert(c[l.len() - 1] == 10);
    assert(forall|j: int| 0 <= j < l.len() - 1 ==> c[j] == l[j] && c[j] != 10);
    crate::serial::buffer::lemma_take_line_at(c, l.len() - 1);
    assert(c.take(l.len() as int) =~= l);
    assert(c.skip(l.len() as int) =~= b);
}

/// A data chunk with no bytes: a read that made no progress.
pub open spec fn spec_is_empty_chunk(ev: ReadEvent) -> bool {
    ev matches ReadEvent::Data(d) && d.len() == 0
}

/// No run of more than `budget` empty chunks stands at the front, nor a
/// run reaching the retry limit anywhere later.
pub open spec fn spec_no_empty_run_from(p: Seq<ReadEvent>, budget: nat) -> bool
    decreases p.len(),
{
    if p.len() == 0 {
        true
    } else if spec_is_empty_chunk(p[0]) {
        budget > 0 && spec_no_empty_run_from(p.drop_first(), (budget - 1) as nat)
    } else {
        spec_no_empty_run_from(p.drop_first(), (ZERO_READ_LIMIT - 1) as nat)
    }
}

/// A larger budget tolerates everything a smaller one does.
proof fn lemma_no_empty_run_mono(p: Seq<ReadEvent>, b1: nat, b2: nat)
    requires
        b1 <= b2,
        spec_no_empty_run_from(p, b1),
    ensures
        spec_no_empty_run_from(p, b2),
    decreases p.len(),
{
    if p.len() > 0 {
        if spec_is_empty_chunk(p[0]) {
            lemma_no_empty_run_mono(p.drop_first(), (b1 - 1) as nat, (b2 - 1) as nat);
        }
    }
}

/// The line entries obtainable from buffered bytes followed by the byte
/// source: chunks accumulate bytes, every completed line is an entry, a
/// timeout is a passing failure entry, and any other failure ends the
/// stream.
pub open spec fn stream_entries(buf: Seq<u8>, p: Seq<ReadEvent>) -> Seq<ReadEntry>
    decreases p.len(),
{
    if p.len() == 0 {
        spec_stream_lines(buf).map_values(|l: Seq<u8>| entry_of_line(l))
    } else {
        match p[0] {
            ReadEvent::Data(d) => stream_entries(buf + d, p.drop_first()),
            ReadEvent::Failed(e) => if e == Error::Timeout {
                spec_stream_lines(buf).map_values(|l: Seq<u8>| entry_of_line(l)) + seq![
                    ReadEntry::Failed(Error::Timeout),
                ] + stream_entries(spec_line_tail(buf), p.drop_first())
            } else {
                spec_stream_lines(buf).map_values(|l: Seq<u8>| entry_of_line(l)) + seq![
                    ReadEntry::Failed(e),
                ]
            },
        }
    }
}

/// A complete line in front of the buffered bytes is the first entry,
/// whatever the source still holds.
proof fn lemma_stream_entries_head(l: Seq<u8>, b: Seq<u8>, p: Seq<ReadEvent>)
    requires
        l.len() >= 1,
        l.last() == 10,
        forall|j: int| 0 <= j < l.len() - 1 ==> l[j] != 10,
    ensures
        stream_entries(l + b, p) == seq![entry_of_line(l)] + stream_entries(b, p),
    decreases p.len(),
{
    lemma_stream_lines_head(l, b);
    let mapped = spec_stream_lines(l + b).map_values(|x: Seq<u8>| entry_of_line(x));
    let tail_map = spec_stream_lines(b).map_values(|x: Seq<u8>| entry_of_line(x));
    assert(mapped =~= seq![entry_of_line(l)] + tail_map) by {
        assert(spec_stream_lines(l + b) == seq![l] + spec_stream_lines(b));
        assert(mapped[0] == entry_of_line(l));
        assert(forall|i: int|
            0 <= i < spec_stream_lines(b).len() ==> spec_stream_lines(l + b)[i + 1]
                == #[trigger] spec_stream_lines(b)[i]);
    }
    if p.len() == 0 {
    } else {
        match p[0] {
            ReadEvent::Data(d) => {
                assert((l + b) + d =~= l + (b + d));
                lemma_stream_entries_head(l, b + d, p.drop_first());
            },
            ReadEvent::Failed(e) => {
                if e == Error::Timeout {
                    lemma_take_line_prefix(l, b);
                    assert(spec_line_tail(l + b) == spec_line_tail(b));
                    assert(stream_entries(l + b, p) =~= seq![entry_of_line(l)] + stream_entries(
                        b,
                        p,
                    ));
                } else {
                    assert(stream_entries(l + b, p) =~= seq![entry_of_line(l)] + stream_entries(
                        b,
                        p,
                    ));
                }
            },
        }
    }
}

/// Loop measure: each pending event weighs one more than its bytes.
pub open spec fn pending_weight(p: Seq<ReadEvent>) -> nat
    decreases p.len(),
{
    if p.len() == 0 {
        0
    } else {
        match p[0] {
            ReadEvent::Data(d) => (1 + d.len() + pending_weight(p.drop_first())) as nat,
            ReadEvent::Failed(_) => (1 + pending_weight(p.drop_first())) as nat,
        }
    }
}

/// Open the serial device at `path` and wrap it in a line-oriented
/// connection.
pub fn new(path: &str, baud_rate: u32) -> (r: Result<ConnectionImpl<crate::serial::wrapper::Wrapper>, Error>)
    ensures
        r matches Ok(c) ==> c.inv(),
{
    match crate::serial::wrapper::Wrapper::open(path, baud_rate) {
        Ok(w) => Ok(ConnectionImpl::new(w, 128)),
        Err(e) => Err(e),
    }
}

/// A line-oriented connection over a byte transport: it reassembles
/// CR/LF-terminated lines out of buffered reads.
pub struct ConnectionImpl<R: ReadWrite> {
    connection: R,
    read_buffer: Buffer,
    closed: bool,
}

impl<R: ReadWrite> ConnectionImpl<R> {
    /// A connection over the given transport, with an empty read buffer.
    pub fn new(connection: R, buf_size: usize) -> (r: ConnectionImpl<R>)
        requires
            connection.inv(),
        ensures
            r.inv(),
            r.incoming() == stream_entries(Seq::<u8>::empty(), connection.pending()),
            r.outgoing() == connection.written(),
    {
        let r = ConnectionImpl { connection, read_buffer: Buffer::new(buf_size), closed: false };
        r
    }

    /// The underlying transport, for inspection.
    pub fn transport(&self) -> (r: &R)
        ensures
            r.written() == self.outgoing(),
    {
        &self.connection
    }
}

impl<R: ReadWrite> Connection for ConnectionImpl<R> {
    closed spec fn inv(&self) -> bool {
        self.read_buffer.wf() && self.connection.inv()
    }

    closed spec fn reliable(&self) -> bool {
        &&& !self.closed
        &&& self.connection.reliable()
        &&& spec_no_empty_run_from(
            self.connection.pending(),
            (ZERO_READ_LIMIT - 1) as nat,
        )
    }

    closed spec fn incoming(&self) -> Seq<ReadEntry> {
        if self.closed {
            Seq::empty()
        } else {
            stream_entries(self.read_buffer.remaining(), self.connection.pending())
        }
    }

    closed spec fn outgoing(&self) -> Seq<u8> {
        self.connection.written()
    }

    fn write_line(&mut self, line: &str) -> (r: Result<(), Error>) {
        let lb = line.as_bytes();
        match self.connection.write(lb) {
            Ok(_) => {},
            Err(e) => {
                return Err(e);
            },
        }
        let mut crlf: Vec<u8> = Vec::new();
        crlf.push(13);
        crlf.push(10);
        match self.connection.write(crlf.as_slice()) {
            Ok(_) => {},
            Err(e) => {
                return Err(e);
            },
        }
        match self.connection.flush() {
            Ok(_) => {},
            Err(e) => {
                return Err(e);
            },
        }
        proof {
            assert(crlf@ =~= seq![13u8, 10u8]);
            assert(final(self).outgoing() =~= old(self).outgoing() + vstd::utf8::encode_utf8(
                line@,
            ) + seq![13u8, 10u8]);
        }
        Ok(())
    }

    fn write_byte(&mut self, data: &[u8]) -> (r: Result<(), Error>) {
        match self.connection.write(data) {
            Ok(_) => {},
            Err(e) => {
                return Err(e);
            },
        }
        match self.connection.flush() {
            Ok(_) => {},
            Err(e) => {
                return Err(e);
            },
        }
        Ok(())
    }

    #[verifier::rlimit(100)]
    fn read_line(&mut self) -> (r: Result<String, Error>) {
        if self.closed {
            return Err(Error::Closed);
        }
        let ghost orig = stream_entries(
            self.read_buffer.remaining(),
            self.connection.pending(),
        );
        let mut txt: Vec<u8> = Vec::new();
        let mut zeros: usize = 0;
        proof {
            assert(txt@ + self.read_buffer.remaining() =~= self.read_buffer.remaining());
        }
        #[verifier::loop_isolation(false)]
        loop
            invariant
                !self.closed,
                self.inv(),
                self.connection.written() == old(self).connection.written(),
                zeros < ZERO_READ_LIMIT,
                forall|j: int| 0 <= j < txt@.len() ==> txt@[j] != 10,
                stream_entries(
                    txt@ + self.read_buffer.remaining(),
                    self.connection.pending(),
                ) == orig,
                orig == old(self).incoming(),
                old(self).reliable() ==> self.connection.reliable(),
                old(self).reliable() ==> spec_no_empty_run_from(
                    self.connection.pending(),
                    (ZERO_READ_LIMIT - 1 - zeros) as nat,
                ),
            decreases
                    pending_weight(self.connection.pending())
                        + self.read_buffer.remaining().len(),
                    ZERO_READ_LIMIT - zeros,
        {
            let ghost pend0 = self.connection.pending();
            let ghost rem0 = self.read_buffer.remaining();
            if !self.read_buffer.has_left() {
                match self.read_buffer.fill_buf(&mut self.connection) {
                    Ok(n) => {
                        if n == 0 {
                            proof {
                                assert(rem0.len() == 0);
                                assert(txt@ + rem0 =~= txt@);
                                if pend0.len() > 0 {
                                    let d = pend0[0]->Data_0;
                                    assert(d.len() == 0);
                                    assert(spec_is_empty_chunk(pend0[0]));
                                    assert(txt@ + d =~= txt@);
                                    assert(stream_entries(txt@, pend0) == stream_entries(
                                        txt@ + d,
                                        pend0.drop_first(),
                                    ));
                                    assert(pending_weight(pend0) == 1 + pending_weight(
                                        pend0.drop_first(),
                                    ));
                                    if old(self).reliable() {
                                        assert(ZERO_READ_LIMIT - 1 - zeros > 0);
                                    }
                                }
                                assert(txt@ + self.read_buffer.remaining() =~= txt@);
                            }
                            zeros = zeros + 1;
                            if zeros >= ZERO_READ_LIMIT {
                                proof {
                                    if old(self).reliable() {
                                        assert(pend0.len() == 0);
                                        lemma_stream_lines_no_lf(txt@);
                                        assert(spec_stream_lines(txt@).map_values(
                                            |x: Seq<u8>| entry_of_line(x),
                                        ) =~= Seq::<ReadEntry>::empty());
                                        assert(orig.len() == 0);
                                    }
                                }
                                self.read_buffer.put_back(txt);
                                proof {
                                    assert(final(self).incoming() == old(self).incoming());
                                    if old(self).reliable() {
                                        lemma_no_empty_run_mono(
                                            self.connection.pending(),
                                            (ZERO_READ_LIMIT - zeros) as nat,
                                            (ZERO_READ_LIMIT - 1) as nat,
                                        );
                                        assert(final(self).reliable());
                                    }
                                }
                                return Err(Error::Closed);
                            }
                            continue ;
                        }
                        proof {
                            assert(rem0.len() == 0);
                            assert(txt@ + rem0 =~= txt@);
                            assert(pend0.len() > 0);
                            let d = pend0[0]->Data_0;
                            assert(stream_entries(txt@, pend0) == stream_entries(
                                txt@ + d,
                                pend0.drop_first(),
                            ));
                            assert(self.read_buffer.remaining() == d);
                            assert(txt@ + self.read_buffer.remaining() =~= txt@ + d);
                            assert(pending_weight(pend0) == 1 + d.len() + pending_weight(
                                pend0.drop_first(),
                            ));
                            if old(self).reliable() {
                                assert(!spec_is_empty_chunk(pend0[0]));
                                assert(spec_no_empty_run_from(
                                    pend0.drop_first(),
                                    (ZERO_READ_LIMIT - 1) as nat,
                                ));
                            }
                        }
                        zeros = 0;
                    },
                    Err(be) => {
                        match be {
                            BufError::IoError(e) => {
                                proof {
                                    assert(rem0.len() == 0);
                                    assert(pend0.len() > 0);
                                    assert(pend0[0] matches ReadEvent::Failed(e0) && e0 == e);
                                    assert(txt@ + rem0 =~= txt@);
                                    lemma_stream_lines_no_lf(txt@);
                                    assert(spec_stream_lines(txt@).map_values(
                                        |x: Seq<u8>| entry_of_line(x),
                                    ) =~= Seq::<ReadEntry>::empty());
                                }
                                if matches!(e, Error::Timeout) {
                                    // a quiet interval: hand back the bytes
                                    // read ahead and let the caller retry
                                    proof {
                                        lemma_line_tail_no_lf(txt@);
                                        assert(orig =~= seq![
                                            ReadEntry::Failed(Error::Timeout),
                                        ] + stream_entries(txt@, pend0.drop_first()));
                                        assert(orig[0] == ReadEntry::Failed(Error::Timeout));
                                        assert(orig.drop_first() =~= stream_entries(
                                            txt@,
                                            pend0.drop_first(),
                                        ));
                                    }
                                    self.read_buffer.put_back(txt);
                                    proof {
                                        assert(final(self).incoming() == orig.drop_first());
                                        if old(self).reliable() {
                                            assert(!spec_is_empty_chunk(pend0[0]));
                                            assert(spec_no_empty_run_from(
                                                pend0.drop_first(),
                                                (ZERO_READ_LIMIT - 1) as nat,
                                            ));
                                            assert(final(self).reliable());
                                        }
                                    }
                                    return Err(Error::Timeout);
                                }
                                proof {
                                    assert(orig =~= seq![ReadEntry::Failed(e)]);
                                    assert(orig.drop_first() =~= Seq::<ReadEntry>::empty());
                                }
                                self.closed = true;
                                return Err(e);
                            },
                            BufError::DataLeftError => {
                                proof {
                                    assert(false);
                                }
                                return Err(Error::Closed);
                            },
                        }
                    },
                }
            }
            let ghost rem1 = self.read_buffer.remaining();
            match self.read_buffer.read_to_lf() {
                Some(mut bin) => {
                    let ghost txt0 = txt@;
                    let ghost l = bin@;
                    txt.append(&mut bin);
                    let ghost full = txt@;
                    let ghost rest = self.read_buffer.remaining();
                    let ghost pend = self.connection.pending();
                    proof {
                        crate::serial::buffer::lemma_take_line_shape(rem1);
                        assert(l.len() >= 1 && l.last() == 10);
                        assert(forall|j: int| 0 <= j < l.len() - 1 ==> l[j] != 10);
                        assert(full == txt0 + l);
                        assert(full.last() == l.last());
                        assert forall|j: int| 0 <= j < full.len() - 1 implies full[j] != 10 by {
                            if j < txt0.len() {
                                assert(full[j] == txt0[j]);
                            } else {
                                assert(full[j] == l[j - txt0.len()]);
                            }
                        }
                        assert(l + rest == rem1);
                        assert(full + rest =~= txt0 + rem1);
                        assert(orig == stream_entries(full + rest, pend));
                        lemma_stream_entries_head(full, rest, pend);
                        assert(orig.len() >= 1);
                        assert(orig[0] == entry_of_line(full));
                        assert(orig.drop_first() =~= stream_entries(rest, pend));
                    }
                    let trimmed = vstd::slice::slice_to_vec(trim_line_end(txt.as_slice()));
                    let ghost tfull = trimmed@;
                    proof {
                        assert(tfull == spec_trim_line_end(full));
                    }
                    proof {
                        if old(self).reliable() {
                            lemma_no_empty_run_mono(
                                self.connection.pending(),
                                (ZERO_READ_LIMIT - 1 - zeros) as nat,
                                (ZERO_READ_LIMIT - 1) as nat,
                            );
                            assert(final(self).reliable());
                        }
                    }
                    match crate::text::utf8_to_string(trimmed) {
                        Some(s) => {
                            proof {
                                assert(entry_of_line(full) == ReadEntry::Line(s@));
                                assert(orig[0] == ReadEntry::Line(s@));
                                assert(final(self).incoming() == orig.drop_first());
                            }
                            return Ok(s);
                        },
                        None => {
                            proof {
                                assert(entry_of_line(full) == ReadEntry::Failed(Error::Utf8Error));
                                assert(orig[0] == ReadEntry::Failed(Error::Utf8Error));
                                assert(final(self).incoming() == orig.drop_first());
                            }
                            return Err(Error::Utf8Error);
                        },
                    }
                },
                None => {
                    match self.read_buffer.get_remain() {
                        Some(mut more) => {
                            let ghost oldtxt = txt@;
                            txt.append(&mut more);
                            proof {
                                assert(txt@ == oldtxt + rem1);
                                assert(self.read_buffer.remaining().len() == 0);
                                assert(txt@ + self.read_buffer.remaining() =~= oldtxt + rem1);
                                assert(rem1.len() > 0);
                                crate::serial::buffer::lemma_take_line_shape(rem1);
                                assert forall|j: int| 0 <= j < txt@.len() implies txt@[j]
                                    != 10 by {
                                    if j >= oldtxt.len() {
                                        assert(txt@[j] == rem1[j - oldtxt.len()]);
                                    }
                                }
                            }
                        },
                        None => {
                            proof {
                                assert(rem1.len() == 0);
                                assert(txt@ + self.read_buffer.remaining() =~= txt@ + rem1);
                            }
                        },
                    }
                },
            }
        }
    }
}

} // verus!
