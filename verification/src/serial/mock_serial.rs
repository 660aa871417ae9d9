use vstd::prelude::*;

use crate::serial::errors::Error;
use crate::serial::traits::{ReadEvent, ReadWrite};

verus! {

/// The event a scripted read yields.
pub open spec fn read_event_view(e: Result<Vec<u8>, Error>) -> ReadEvent {
    match e {
        Ok(d) => ReadEvent::Data(d@),
        Err(x) => ReadEvent::Failed(x),
    }
}

/// A scripted transport for tests: reads hand out prepared chunks and
/// failures in order, writes are recorded.
#[derive(Debug)]
pub struct MockReadWrite {
    read_buf: Vec<Result<Vec<u8>, Error>>,
    pub write_buf: Vec<u8>,
}

/// A scripted transport over the given chunks.
pub fn new_mock(data: Vec<Vec<u8>>) -> (r: MockReadWrite)
    ensures
        r.inv(),
        r.pending() == data@.map_values(|d: Vec<u8>| ReadEvent::Data(d@)),
        r.written() == Seq::<u8>::empty(),
{
    let mut events: Vec<Result<Vec<u8>, Error>> = Vec::new();
    let mut rest = data;
    #[verifier::loop_isolation(false)]
    loop
        invariant
            events@.map_values(|e: Result<Vec<u8>, Error>| read_event_view(e))
                + rest@.map_values(|d: Vec<u8>| ReadEvent::Data(d@)) == data@.map_values(
                |d: Vec<u8>| ReadEvent::Data(d@),
            ),
        decreases rest@.len(),
    {
        if rest.len() == 0 {
            proof {
                assert(rest@.map_values(|d: Vec<u8>| ReadEvent::Data(d@)) =~= Seq::<
                    ReadEvent,
                >::empty());
                assert(events@.map_values(|e: Result<Vec<u8>, Error>| read_event_view(e))
                    =~= data@.map_values(|d: Vec<u8>| ReadEvent::Data(d@)));
            }
            return MockReadWrite { read_buf: events, write_buf: Vec::new() };
        }
        let ghost olde = events@;
        let ghost oldr = rest@;
        let d = rest.remove(0);
        events.push(Ok(d));
        proof {
            assert(events@.map_values(|e: Result<Vec<u8>, Error>| read_event_view(e))
                + rest@.map_values(|d2: Vec<u8>| ReadEvent::Data(d2@)) =~= olde.map_values(
                |e: Result<Vec<u8>, Error>| read_event_view(e),
            ) + oldr.map_values(|d2: Vec<u8>| ReadEvent::Data(d2@)));
        }
    }
}

impl MockReadWrite {
    /// A scripted transport over the given chunks.
    pub fn new(data: Vec<Vec<u8>>) -> (r: MockReadWrite)
        ensures
            r.inv(),
            r.pending() == data@.map_values(|d: Vec<u8>| ReadEvent::Data(d@)),
            r.written() == Seq::<u8>::empty(),
    {
        new_mock(data)
    }

    /// A scripted transport over the given read outcomes, failures
    /// included.
    pub fn with_events(events: Vec<Result<Vec<u8>, Error>>) -> (r: MockReadWrite)
        ensures
            r.inv(),
            r.pending() == events@.map_values(|e: Result<Vec<u8>, Error>| read_event_view(e)),
            r.written() == Seq::<u8>::empty(),
    {
        MockReadWrite { read_buf: events, write_buf: Vec::new() }
    }
}

impl ReadWrite for MockReadWrite {
    closed spec fn inv(&self) -> bool {
        true
    }

    closed spec fn reliable(&self) -> bool {
        true
    }

    closed spec fn pending(&self) -> Seq<ReadEvent> {
        self.read_buf@.map_values(|e: Result<Vec<u8>, Error>| read_event_view(e))
    }

    closed spec fn written(&self) -> Seq<u8> {
        self.write_buf@
    }

    fn read(&mut self) -> (r: Result<Vec<u8>, Error>) {
        if self.read_buf.len() == 0 {
            return Ok(Vec::new());
        }
        let entry = self.read_buf.remove(0);
        proof {
            assert(final(self).pending() =~= old(self).pending().drop_first());
            assert(old(self).pending()[0] == read_event_view(entry));
        }
        entry
    }

    fn write(&mut self, buf: &[u8]) -> (r: Result<usize, Error>) {
        self.write_buf.extend_from_slice(buf);
        proof {
            assert(final(self).pending() =~= old(self).pending());
        }
        Ok(buf.len())
    }

    fn flush(&mut self) -> (r: Result<(), Error>) {
        Ok(())
    }
}

} // verus!
