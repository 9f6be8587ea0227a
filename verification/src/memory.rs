//! In-memory byte sources and sinks: verified implementations of the
//! collaborator capabilities, used to run the stream backends over plain
//! buffers and to exercise short reads and transient interruptions.

use crate::file::{ByteSink, ByteSource, ReadStep};
use crate::RecordError;
use vstd::prelude::*;
use vstd::slice::{slice_subrange, slice_to_vec};

verus! {

/// A byte source backed by an owned buffer. It can be told to serve at
/// most a fixed number of bytes per read (exercising partial reads) and to
/// report a number of transient interruptions before the first data.
pub struct MemorySource {
    data: Vec<u8>,
    pos: usize,
    serve_cap: usize,
    interrupts: usize,
}

impl MemorySource {
    /// A source that serves `data` and never fails or interrupts.
    pub fn new(data: Vec<u8>) -> (r: MemorySource)
        ensures
            r.remaining() == data@,
            r.infallible(),
            r.retry_budget() == 0,
    {
        Self::with_limits(data, 0, 0)
    }

    /// A source that serves at most `serve_cap` bytes per read (zero means
    /// no limit) and reports `interrupts` transient interruptions before
    /// yielding anything.
    pub fn with_limits(data: Vec<u8>, serve_cap: usize, interrupts: usize) -> (r: MemorySource)
        ensures
            r.remaining() == data@,
            r.infallible(),
            r.retry_budget() == interrupts as nat,
    {
        let ghost d: Seq<u8> = data@;
        let s = MemorySource { data, pos: 0, serve_cap, interrupts };
        proof {
            assert(s.remaining() =~= d);
        }
        s
    }
}

impl ByteSource for MemorySource {
    closed spec fn remaining(&self) -> Seq<u8> {
        if self.pos <= self.data@.len() {
            self.data@.skip(self.pos as int)
        } else {
            Seq::empty()
        }
    }

    closed spec fn infallible(&self) -> bool {
        true
    }

    closed spec fn retry_budget(&self) -> nat {
        self.interrupts as nat
    }

    fn read_some(&mut self, max: usize) -> (r: ReadStep) {
        if self.interrupts > 0 {
            self.interrupts = self.interrupts - 1;
            return ReadStep::Interrupted;
        }
        if self.pos >= self.data.len() {
            let empty: Vec<u8> = Vec::new();
            proof {
                assert(empty@ =~= old(self).remaining().take(0));
            }
            return ReadStep::Data(empty);
        }
        let avail = self.data.len() - self.pos;
        let mut n = if max < avail {
            max
        } else {
            avail
        };
        if self.serve_cap >= 1 && self.serve_cap < n {
            n = self.serve_cap;
        }
        let out = slice_to_vec(slice_subrange(self.data.as_slice(), self.pos, self.pos + n));
        self.pos = self.pos + n;
        proof {
            assert(out@ =~= old(self).remaining().take(n as int));
            assert(self.remaining() =~= old(self).remaining().skip(n as int));
        }
        ReadStep::Data(out)
    }
}

/// A byte sink backed by an owned buffer; it accepts everything.
pub struct MemorySink {
    data: Vec<u8>,
}

impl MemorySink {
    /// An empty sink.
    pub fn new() -> (r: MemorySink)
        ensures
            r.sunk() == Seq::<u8>::empty(),
            r.infallible(),
    {
        MemorySink { data: Vec::new() }
    }

    /// Extracts everything the sink accepted.
    pub fn into_vec(self) -> (r: Vec<u8>)
        ensures
            r@ == self.sunk(),
    {
        self.data
    }
}

impl ByteSink for MemorySink {
    closed spec fn sunk(&self) -> Seq<u8> {
        self.data@
    }

    closed spec fn infallible(&self) -> bool {
        true
    }

    fn write_all(&mut self, data: &[u8]) -> (r: Result<(), RecordError>) {
        self.data.extend_from_slice(data);
        Ok(())
    }

    fn flush(&mut self) -> (r: Result<(), RecordError>) {
        Ok(())
    }
}

} // verus!
