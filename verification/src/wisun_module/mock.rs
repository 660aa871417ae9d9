use vstd::prelude::*;

use crate::serial::errors::Error;
use crate::serial::traits::{Connection, ReadEntry};

verus! {

/// The entry a scripted read yields.
pub open spec fn entry_view(e: Result<String, Error>) -> ReadEntry {
    match e {
        Ok(s) => ReadEntry::Line(s@),
        Err(e2) => ReadEntry::Failed(e2),
    }
}

/// A scripted connection for tests: each read takes the next prepared
/// line or error, and every write is recorded.
#[derive(Debug)]
pub struct MockSerial {
    script: Vec<Result<String, Error>>,
    pub written: Vec<u8>,
}

impl MockSerial {
    /// A scripted connection over the given read results.
    pub fn new(script: Vec<Result<String, Error>>) -> (r: MockSerial)
        ensures
            r.inv(),
            r.incoming() == script@.map_values(|e: Result<String, Error>| entry_view(e)),
            r.outgoing() == Seq::<u8>::empty(),
    {
        MockSerial { script, written: Vec::new() }
    }

    /// Every byte written so far, for assertions.
    pub fn written_bytes(&self) -> (r: &Vec<u8>)
        ensures
            r@ == self.outgoing(),
    {
        &self.written
    }
}

impl Connection for MockSerial {
    closed spec fn inv(&self) -> bool {
        true
    }

    closed spec fn reliable(&self) -> bool {
        true
    }

    closed spec fn incoming(&self) -> Seq<ReadEntry> {
        self.script@.map_values(|e: Result<String, Error>| entry_view(e))
    }

    closed spec fn outgoing(&self) -> Seq<u8> {
        self.written@
    }

    fn write_line(&mut self, line: &str) -> (r: Result<(), Error>) {
        self.written.extend_from_slice(line.as_bytes());
        self.written.push(13);
        self.written.push(10);
        proof {
            broadcast use vstd::string::group_string_axioms;

            assert(final(self).outgoing() =~= old(self).outgoing() + vstd::utf8::encode_utf8(
                line@,
            ) + seq![13u8, 10u8]);
        }
        Ok(())
    }

    fn write_byte(&mut self, data: &[u8]) -> (r: Result<(), Error>) {
        self.written.extend_from_slice(data);
        Ok(())
    }

    fn read_line(&mut self) -> (r: Result<String, Error>) {
        if self.script.len() == 0 {
            return Err(Error::Closed);
        }
        let entry = self.script.remove(0);
        proof {
            assert(final(self).incoming() =~= old(self).incoming().drop_first());
            assert(old(self).incoming()[0] == entry_view(entry));
        }
        entry
    }
}

} // verus!
