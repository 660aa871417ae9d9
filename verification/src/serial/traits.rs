use vstd::prelude::*;

use crate::serial::errors::Error;

verus! {

/// One step of a byte source: a chunk of data, or a read failure.
pub enum ReadEvent {
    Data(Seq<u8>),
    Failed(Error),
}

/// A byte transport: reads hand out chunks of a modelled chunk sequence,
/// writes append to a modelled byte log.
pub trait ReadWrite: Sized {
    /// Implementation-specific well-formedness.
    spec fn inv(&self) -> bool;

    /// Whether writes are sure to succeed.  A scripted transport is; a
    /// real port is not.
    spec fn reliable(&self) -> bool;

    /// The chunks and failures still to come, in order.
    spec fn pending(&self) -> Seq<ReadEvent>;

    /// Every byte written so far.
    spec fn written(&self) -> Seq<u8>;

    /// Read the next chunk.  An exhausted source yields an empty chunk and
    /// does not change; otherwise the first pending event is consumed and
    /// delivered as data or as the recorded failure.
    fn read(&mut self) -> (r: Result<Vec<u8>, Error>)
        requires
            old(self).inv(),
        ensures
            final(self).inv(),
            final(self).reliable() == old(self).reliable(),
            final(self).written() == old(self).written(),
            if old(self).pending().len() == 0 {
                &&& final(self).pending() == old(self).pending()
                &&& r matches Ok(v) && v@.len() == 0
            } else {
                &&& final(self).pending() == old(self).pending().drop_first()
                &&& match old(self).pending()[0] {
                    ReadEvent::Data(d) => r matches Ok(v) && v@ == d,
                    ReadEvent::Failed(e) => r matches Err(e2) && e2 == e,
                }
            },
    ;

    /// Write all of `buf`, or fail having written nothing.
    fn write(&mut self, buf: &[u8]) -> (r: Result<usize, Error>)
        requires
            old(self).inv(),
        ensures
            final(self).inv(),
            final(self).reliable() == old(self).reliable(),
            final(self).pending() == old(self).pending(),
            match r {
                Ok(n) => n == buf@.len() && final(self).written() == old(self).written() + buf@,
                Err(_) => final(self).written() == old(self).written(),
            },
            old(self).reliable() ==> r is Ok,
    ;

    /// Push buffered bytes out; neither model changes.
    fn flush(&mut self) -> (r: Result<(), Error>)
        requires
            old(self).inv(),
        ensures
            final(self).inv(),
            final(self).reliable() == old(self).reliable(),
            final(self).pending() == old(self).pending(),
            final(self).written() == old(self).written(),
            old(self).reliable() ==> r is Ok,
    ;
}

/// One entry of a line source: a completed line, or a read failure.
pub enum ReadEntry {
    Line(Seq<char>),
    Failed(Error),
}

/// A line-oriented connection to the radio module: reads hand out entries
/// of a modelled line sequence, writes append to a modelled byte log.
pub trait Connection: Sized {
    /// Implementation-specific well-formedness.
    spec fn inv(&self) -> bool;

    /// Whether the connection is sure to serve its model: writes succeed,
    /// and reads always consume the next entry while one remains.  A
    /// scripted connection is reliable; a real port is not.
    spec fn reliable(&self) -> bool;

    /// The lines and failures still to come, in order.
    spec fn incoming(&self) -> Seq<ReadEntry>;

    /// Every byte sent so far.
    spec fn outgoing(&self) -> Seq<u8>;

    /// Send a line followed by `\r\n`.
    fn write_line(&mut self, line: &str) -> (r: Result<(), Error>)
        requires
            old(self).inv(),
        ensures
            final(self).inv(),
            final(self).reliable() == old(self).reliable(),
            final(self).incoming() == old(self).incoming(),
            match r {
                Ok(u) => final(self).outgoing() == old(self).outgoing()
                    + vstd::utf8::encode_utf8(line@) + seq![13u8, 10u8],
                Err(_) => old(self).outgoing().is_prefix_of(final(self).outgoing()),
            },
            old(self).reliable() ==> r is Ok,
    ;

    /// Send raw bytes, exactly as given.
    fn write_byte(&mut self, data: &[u8]) -> (r: Result<(), Error>)
        requires
            old(self).inv(),
        ensures
            final(self).inv(),
            final(self).reliable() == old(self).reliable(),
            final(self).incoming() == old(self).incoming(),
            match r {
                Ok(u) => final(self).outgoing() == old(self).outgoing() + data@,
                Err(_) => old(self).outgoing().is_prefix_of(final(self).outgoing()),
            },
            old(self).reliable() ==> r is Ok,
    ;

    /// Receive the next line, stripped of its terminator.  Either the
    /// first incoming entry is consumed — a line is returned as it is, a
    /// failure as its error — or nothing is consumed and `Closed` reports
    /// that no further line can be read.  A reliable connection always
    /// consumes the next entry while one remains.
    fn read_line(&mut self) -> (r: Result<String, Error>)
        requires
            old(self).inv(),
        ensures
            final(self).inv(),
            final(self).outgoing() == old(self).outgoing(),
            ({
                &&& old(self).incoming().len() > 0
                &&& final(self).incoming() == old(self).incoming().drop_first()
                &&& match old(self).incoming()[0] {
                    ReadEntry::Line(l) => r matches Ok(s) && s@ == l,
                    ReadEntry::Failed(e) => r matches Err(e2) && e2 == e,
                }
            }) || ({
                &&& r matches Err(Error::Closed)
                &&& final(self).incoming() == old(self).incoming()
            }),
            old(self).reliable() && old(self).incoming().len() > 0 ==> ({
                &&& final(self).incoming() == old(self).incoming().drop_first()
                &&& match old(self).incoming()[0] {
                    ReadEntry::Line(l) => (r matches Ok(s) && s@ == l) && final(self).reliable(),
                    ReadEntry::Failed(e) => (r matches Err(e2) && e2 == e) && (e == Error::Timeout
                        ==> final(self).reliable()),
                }
            }),
            old(self).reliable() && old(self).incoming().len() == 0 ==> final(self).reliable(),
    ;
}

} // verus!
