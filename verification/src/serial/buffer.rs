use vstd::prelude::*;

use crate::serial::errors::Error as SerialError;
use crate::serial::traits::{ReadEvent, ReadWrite};

verus! {

/// Errors of the read buffer.
#[derive(Debug, PartialEq)]
pub enum BufError {
    /// The underlying reader failed.
    IoError(SerialError),
    /// The buffer was refilled while data was still left in it.
    DataLeftError,
}

impl BufError {
    /// Fold a buffer error into a serial error, as callers report it.
    pub fn into_serial(self) -> (r: SerialError)
        ensures
            match self {
                BufError::IoError(e) => r == e,
                BufError::DataLeftError => r matches SerialError::UnknownError(_),
            },
    {
        match self {
            BufError::IoError(e) => e,
            BufError::DataLeftError => SerialError::UnknownError(
                String::from_str("this buffer has data left"),
            ),
        }
    }
}

/// A buffer holding at most one read worth of bytes, consumed from the
/// front up to line feeds.
#[derive(Debug)]
pub struct Buffer {
    pub data: Vec<u8>,
    pub pointer: usize,
    pub end: usize,
    pub capacity: usize,
}

/// The first line of `b` up to and including its line feed, and the rest;
/// `None` when `b` holds no line feed.
pub open spec fn spec_take_line(b: Seq<u8>) -> Option<(Seq<u8>, Seq<u8>)>
    decreases b.len(),
{
    if b.len() == 0 {
        None
    } else if b[0] == 10 {
        Some((seq![b[0]], b.drop_first()))
    } else {
        match spec_take_line(b.drop_first()) {
            Some(lr) => Some((seq![b[0]] + lr.0, lr.1)),
            None => None,
        }
    }
}

/// What a taken line looks like: it ends at the stream's first line feed.
pub proof fn lemma_take_line_shape(b: Seq<u8>)
    ensures
        match spec_take_line(b) {
            Some(lr) => {
                &&& lr.0.len() >= 1
                &&& lr.0.last() == 10
                &&& forall|i: int| 0 <= i < lr.0.len() - 1 ==> lr.0[i] != 10
                &&& lr.0 + lr.1 == b
            },
            None => forall|i: int| 0 <= i < b.len() ==> b[i] != 10,
        },
    decreases b.len(),
{
    if b.len() == 0 {
    } else if b[0] == 10 {
        assert(seq![b[0]] + b.drop_first() =~= b);
    } else {
        lemma_take_line_shape(b.drop_first());
        match spec_take_line(b.drop_first()) {
            Some(lr) => {
                let l0 = lr.0;
                let r0 = lr.1;
                assert(l0 + r0 == b.drop_first());
                let l = seq![b[0]] + l0;
                assert(l.len() == 1 + l0.len());
                assert(l + r0 =~= b) by {
                    assert forall|i: int| 0 <= i < b.len() implies (l + r0)[i] == b[i] by {
                        if i == 0 {
                            assert(l[0] == b[0]);
                        } else if i < l.len() {
                            assert(l[i] == l0[i - 1]);
                            assert((l0 + r0)[i - 1] == b.drop_first()[i - 1]);
                        } else {
                            assert((l + r0)[i] == r0[i - l.len()]);
                            assert((l0 + r0)[i - 1] == b.drop_first()[i - 1]);
                        }
                    }
                }
                assert(l.last() == l0.last());
                assert forall|i: int| 0 <= i < l.len() - 1 implies l[i] != 10 by {
                    if i > 0 {
                        assert(l[i] == l0[i - 1]);
                    }
                }
                assert(spec_take_line(b) == Some((l, r0)));
            },
            None => {
                assert forall|i: int| 0 <= i < b.len() implies b[i] != 10 by {
                    if i > 0 {
                        assert(b.drop_first()[i - 1] == b[i]);
                    }
                }
            },
        }
    }
}

impl Buffer {
    /// Sound internal state: the consumed pointer stays within the data,
    /// which ends at `end`.
    pub open spec fn wf(&self) -> bool {
        self.pointer <= self.end && self.end == self.data@.len()
    }

    /// The bytes not yet consumed.
    pub open spec fn remaining(&self) -> Seq<u8> {
        self.data@.skip(self.pointer as int)
    }

    /// An empty buffer; `buf_size` is kept as a sizing hint.
    pub fn new(buf_size: usize) -> (r: Buffer)
        ensures
            r.wf(),
            r.remaining() == Seq::<u8>::empty(),
            r.pointer == 0,
            r.end == 0,
    {
        let r = Buffer { data: Vec::new(), pointer: 0, end: 0, capacity: buf_size };
        proof {
            assert(r.remaining() =~= Seq::<u8>::empty());
        }
        r
    }

    /// Whether unconsumed bytes remain.
    pub fn has_left(&self) -> (r: bool)
        requires
            self.wf(),
        ensures
            r == (self.remaining().len() > 0),
    {
        self.pointer < self.end
    }

    /// Refill from the reader.  Fails if data is left; otherwise one read
    /// event is consumed and its bytes become the buffer's content.
    pub fn fill_buf<R: ReadWrite>(&mut self, reader: &mut R) -> (r: Result<usize, BufError>)
        requires
            old(self).wf(),
            old(reader).inv(),
        ensures
            final(self).wf(),
            final(reader).inv(),
            final(reader).reliable() == old(reader).reliable(),
            final(reader).written() == old(reader).written(),
            if old(self).remaining().len() > 0 {
                &&& r matches Err(BufError::DataLeftError)
                &&& *final(self) == *old(self)
                &&& *final(reader) == *old(reader)
            } else {
                if old(reader).pending().len() == 0 {
                    &&& final(reader).pending() == old(reader).pending()
                    &&& r matches Ok(n) && n == 0
                    &&& final(self).remaining() == Seq::<u8>::empty()
                } else {
                    &&& final(reader).pending() == old(reader).pending().drop_first()
                    &&& match old(reader).pending()[0] {
                        ReadEvent::Data(d) => r matches Ok(n) && n == d.len()
                            && final(self).remaining() == d,
                        ReadEvent::Failed(e) => r matches Err(e2) && e2 == BufError::IoError(e)
                            && final(self).remaining() == Seq::<u8>::empty(),
                    }
                }
            },
    {
        if self.has_left() {
            return Err(BufError::DataLeftError);
        }

        match reader.read() {
            Ok(chunk) => {
                let n = chunk.len();
                self.data = chunk;
                self.pointer = 0;
                self.end = n;
                proof {
                    assert(self.remaining() =~= self.data@);
                }
                Ok(n)
            },
            Err(e) => {
                self.data = Vec::new();
                self.pointer = 0;
                self.end = 0;
                proof {
                    assert(self.remaining() =~= Seq::<u8>::empty());
                }
                Err(BufError::IoError(e))
            },
        }
    }

    /// The bytes up to and including the next line feed, or `None`, with
    /// the buffer unchanged, when no line feed is left.
    pub fn read_to_lf(&mut self) -> (r: Option<Vec<u8>>)
        requires
            old(self).wf(),
        ensures
            final(self).wf(),
            match r {
                Some(v) => {
                    &&& spec_take_line(old(self).remaining()) matches Some(lr) && v@ == lr.0
                        && final(self).remaining() == lr.1
                },
                None => {
                    &&& spec_take_line(old(self).remaining()) is None
                    &&& *final(self) == *old(self)
                },
            },
    {
        if !self.has_left() {
            proof {
                assert(old(self).remaining().len() == 0);
            }
            return None;
        }

        let ghost rem = self.remaining();
        let mut i: usize = self.pointer;
        #[verifier::loop_isolation(false)]
        while i < self.end
            invariant
                self.wf(),
                self.data == old(self).data,
                self.pointer == old(self).pointer,
                self.end == old(self).end,
                self.capacity == old(self).capacity,
                self.pointer <= i <= self.end,
                forall|j: int| self.pointer <= j < i ==> self.data@[j] != 10,
            decreases self.end - i,
        {
            if self.data[i] == 10 {
                let start = self.pointer;
                self.pointer = i + 1;
                let line = vstd::slice::slice_to_vec(&self.data.as_slice()[start..i + 1]);
                proof {
                    lemma_take_line_shape(rem);
                    lemma_take_line_at(rem, i - start);
                    assert(line@ =~= rem.take(i - start + 1));
                    assert(final(self).remaining() =~= rem.skip(i - start + 1));
                }
                return Some(line);
            }
            i = i + 1;
        }
        proof {
            lemma_take_line_shape(rem);
            if spec_take_line(rem) is Some {
                let lr = spec_take_line(rem).unwrap();
                assert(lr.0.last() == 10);
                assert(rem[lr.0.len() - 1] == 10);
            }
        }
        None
    }

    /// Hand bytes back to the front of an empty buffer, so that nothing
    /// read ahead is lost when a caller stops mid-line.
    pub fn put_back(&mut self, bytes: Vec<u8>)
        requires
            old(self).wf(),
            old(self).remaining().len() == 0,
        ensures
            final(self).wf(),
            final(self).remaining() == bytes@,
    {
        let n = bytes.len();
        self.data = bytes;
        self.pointer = 0;
        self.end = n;
        proof {
            assert(self.remaining() =~= self.data@);
        }
    }

    /// Drain whatever is left, or `None` when nothing is.
    pub fn get_remain(&mut self) -> (r: Option<Vec<u8>>)
        requires
            old(self).wf(),
        ensures
            final(self).wf(),
            final(self).remaining() == Seq::<u8>::empty(),
            match r {
                Some(v) => old(self).remaining().len() > 0 && v@ == old(self).remaining(),
                None => old(self).remaining().len() == 0 && *final(self) == *old(self),
            },
    {
        if !self.has_left() {
            proof {
                assert(final(self).remaining() =~= Seq::<u8>::empty());
            }
            return None;
        }
        let begin = self.pointer;
        self.pointer = self.end;
        let v = vstd::slice::slice_to_vec(&self.data.as_slice()[begin..self.end]);
        proof {
            assert(v@ =~= old(self).remaining());
            assert(final(self).remaining() =~= Seq::<u8>::empty());
        }
        Some(v)
    }
}

/// A line feed at position `k`, with none before it, splits the stream
/// exactly there.
pub proof fn lemma_take_line_at(b: Seq<u8>, k: int)
    requires
        0 <= k < b.len(),
        b[k] == 10,
        forall|j: int| 0 <= j < k ==> b[j] != 10,
    ensures
        spec_take_line(b) == Some((b.take(k + 1), b.skip(k + 1))),
    decreases k,
{
    if k == 0 {
        assert(b.take(1) =~= seq![b[0]]);
        assert(b.skip(1) =~= b.drop_first());
    } else {
        let t = b.drop_first();
        assert(t[k - 1] == b[k]);
        assert(forall|j: int| 0 <= j < k - 1 ==> t[j] == b[j + 1] && t[j] != 10);
        lemma_take_line_at(t, k - 1);
        assert(t.take(k) =~= b.take(k + 1).drop_first());
        assert(seq![b[0]] + t.take(k) =~= b.take(k + 1));
        assert(t.skip(k) =~= b.skip(k + 1));
    }
}

} // verus!
