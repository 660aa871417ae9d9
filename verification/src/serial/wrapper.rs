use vstd::prelude::*;

use crate::serial::errors::Error;
use crate::serial::traits::{ReadEvent, ReadWrite};

verus! {

/// A name for what the serial port will deliver: its future chunks,
/// timeouts and failures, in order.  Nothing is assumed of its content;
/// the trusted methods below only say that reads follow it.
pub uninterp spec fn port_pending(w: &Wrapper) -> Seq<ReadEvent>;

/// A name for the bytes of the port's fully completed writes so far, in
/// order; a failed write counts nothing, even if a prefix went out.
pub uninterp spec fn port_written(w: &Wrapper) -> Seq<u8>;

/// A serial port of the operating system.  The handle comes from the
/// serialport crate, which Verus cannot read: the struct is opaque and
/// its methods are trusted.
#[verifier::external_body]
pub struct Wrapper {
    port: Box<dyn serialport::SerialPort>,
}

impl Wrapper {
    /// Relies on `serialport::new` and `SerialPortBuilder::open`: open
    /// the device with a 100 ms read timeout.
    #[verifier::external_body]
    pub fn open(path: &str, baud_rate: u32) -> (r: Result<Wrapper, Error>)
        ensures
            r matches Ok(w) ==> w.inv(),
    {
        match serialport::new(path, baud_rate).timeout(
            core::time::Duration::from_millis(100),
        ).open() {
            Ok(port) => Ok(Wrapper { port }),
            Err(e) => Err(
                match e.kind {
                    serialport::ErrorKind::InvalidInput => Error::InvalidInput(e.description),
                    serialport::ErrorKind::NoDevice => Error::NoDevice(e.description),
                    _ => Error::UnknownError(e.description),
                },
            ),
        }
    }
}

impl Wrapper {
    /// Relies on `std::io::Read::read` through the port: it hands back
    /// the bytes that arrived, or times out after 100 ms.
    #[verifier::external_body]
    fn read_port(&mut self) -> (r: Result<Vec<u8>, Error>)
        ensures
            port_written(final(self)) == port_written(old(self)),
            if port_pending(old(self)).len() == 0 {
                &&& port_pending(final(self)) == port_pending(old(self))
                &&& r matches Ok(v) && v@.len() == 0
            } else {
                &&& port_pending(final(self)) == port_pending(old(self)).drop_first()
                &&& match port_pending(old(self))[0] {
                    ReadEvent::Data(d) => r matches Ok(v) && v@ == d,
                    ReadEvent::Failed(e) => r matches Err(e2) && e2 == e,
                }
            },
    {
        let mut buf = vec![0u8; 128];
        match std::io::Read::read(&mut self.port, buf.as_mut_slice()) {
            Ok(n) => {
                buf.truncate(n);
                Ok(buf)
            },
            Err(e) => {
                if e.kind() == std::io::ErrorKind::TimedOut {
                    Err(Error::Timeout)
                } else {
                    Err(Error::IoError(e.to_string()))
                }
            },
        }
    }

    /// Relies on `std::io::Write::write_all` through the port.
    #[verifier::external_body]
    fn write_port(&mut self, buf: &[u8]) -> (r: Result<usize, Error>)
        ensures
            port_pending(final(self)) == port_pending(old(self)),
            match r {
                Ok(n) => n == buf@.len() && port_written(final(self)) == port_written(old(self)) + buf@,
                Err(_) => port_written(final(self)) == port_written(old(self)),
            },
    {
        match std::io::Write::write_all(&mut self.port, buf) {
            Ok(u) => Ok(buf.len()),
            Err(e) => Err(Error::IoError(e.to_string())),
        }
    }

    /// Relies on `std::io::Write::flush` through the port.
    #[verifier::external_body]
    fn flush_port(&mut self) -> (r: Result<(), Error>)
        ensures
            port_pending(final(self)) == port_pending(old(self)),
            port_written(final(self)) == port_written(old(self)),
    {
        match std::io::Write::flush(&mut self.port) {
            Ok(u) => Ok(()),
            Err(e) => Err(Error::IoError(e.to_string())),
        }
    }
}

impl ReadWrite for Wrapper {
    closed spec fn inv(&self) -> bool {
        true
    }

    closed spec fn reliable(&self) -> bool {
        false
    }

    closed spec fn pending(&self) -> Seq<ReadEvent> {
        port_pending(self)
    }

    closed spec fn written(&self) -> Seq<u8> {
        port_written(self)
    }

    fn read(&mut self) -> (r: Result<Vec<u8>, Error>) {
        self.read_port()
    }

    fn write(&mut self, buf: &[u8]) -> (r: Result<usize, Error>) {
        self.write_port(buf)
    }

    fn flush(&mut self) -> (r: Result<(), Error>) {
        self.flush_port()
    }
}

} // verus!
