//! The stream-backed reader and writer: they frame records over an abstract
//! blocking byte source or sink, retrying the transient "interrupted"
//! condition and never returning a partial record.

use crate::codec::{
    chunk_cap, encodable, encode_record, encode_records, lemma_encode_records_push,
    lemma_pow256_values, prefix_width, stream_next, ReadSpec,
};
use crate::util::{be_decode, write_record, write_record32};
use crate::{Format, RecordError, RecordReader, RecordWriter};
use vstd::prelude::*;

verus! {

/// One attempt by a byte source to produce data.
pub enum ReadStep {
    /// Some bytes, possibly fewer than asked for; empty exactly at the end
    /// of the stream.
    Data(Vec<u8>),
    /// A transient interruption; the caller retries.
    Interrupted,
    /// A non-transient failure of the source.
    Failed,
}

/// The capability the stream reader needs from the byte source a caller
/// supplies: primitive blocking reads under the usual conventions — a read
/// may return fewer bytes than asked for, returns zero bytes only at the
/// end of the stream, and may be transiently interrupted.
pub trait ByteSource: Sized {
    /// The bytes the source has yet to yield, in order.
    spec fn remaining(&self) -> Seq<u8>;

    /// Whether this source never reports `Failed`.
    spec fn infallible(&self) -> bool;

    /// How many consecutive interruptions the source can still report;
    /// bounds the retry loops of callers.
    spec fn retry_budget(&self) -> nat;

    /// Yields up to `max` of the remaining bytes.
    fn read_some(&mut self, max: usize) -> (r: ReadStep)
        requires
            max >= 1,
        ensures
            final(self).infallible() == old(self).infallible(),
            old(self).infallible() ==> !(r is Failed),
            (r matches ReadStep::Data(v) ==> {
                &&& v@.len() <= max
                &&& v@.len() <= old(self).remaining().len()
                &&& v@ == old(self).remaining().take(v@.len() as int)
                &&& final(self).remaining() == old(self).remaining().skip(v@.len() as int)
                &&& (v@.len() == 0 ==> old(self).remaining().len() == 0)
            }),
            r is Interrupted ==> {
                &&& final(self).remaining() == old(self).remaining()
                &&& final(self).retry_budget() < old(self).retry_budget()
            },
    ;
}

/// The capability the stream writer needs from the byte sink a caller
/// supplies: complete blocking writes (transient interruptions already
/// absorbed) and a flush.
pub trait ByteSink: Sized {
    /// Every byte the sink has accepted so far, in order.
    spec fn sunk(&self) -> Seq<u8>;

    /// Whether this sink never fails.
    spec fn infallible(&self) -> bool;

    /// Appends all of `data` to the sink, or fails; after a failure the
    /// sink's contents are unspecified.
    fn write_all(&mut self, data: &[u8]) -> (r: Result<(), RecordError>)
        ensures
            final(self).infallible() == old(self).infallible(),
            old(self).infallible() ==> r is Ok,
            r is Ok ==> final(self).sunk() == old(self).sunk() + data@,
            r is Err ==> r->Err_0 is Io,
    ;

    /// Forces buffered bytes toward the destination; changes no content.
    fn flush(&mut self) -> (r: Result<(), RecordError>)
        ensures
            final(self).infallible() == old(self).infallible(),
            old(self).infallible() ==> r is Ok,
            r is Ok ==> final(self).sunk() == old(self).sunk(),
            r is Err ==> r->Err_0 is Io,
    ;
}

/// Reads up to `want` bytes from `source`, transparently retrying transient
/// interruptions; returns fewer than `want` bytes exactly when the source
/// ran out. Shared by chunk reads and header reads.
pub fn read_to_end_partial<S: ByteSource>(source: &mut S, want: usize) -> (r: Result<
    Vec<u8>,
    RecordError,
>)
    ensures
        final(source).infallible() == old(source).infallible(),
        old(source).infallible() ==> r is Ok,
        (r matches Ok(v) ==> {
            &&& v@.len() <= want
            &&& v@.len() <= old(source).remaining().len()
            &&& v@ == old(source).remaining().take(v@.len() as int)
            &&& final(source).remaining() == old(source).remaining().skip(v@.len() as int)
            &&& (v@.len() < want ==> final(source).remaining().len() == 0)
        }),
        r is Err ==> r->Err_0 is Io,
{
    let ghost rem0: Seq<u8> = source.remaining();
    let ghost inf0: bool = source.infallible();
    let mut out: Vec<u8> = Vec::new();
    let mut ended = false;
    proof {
        assert(rem0.take(0) =~= Seq::<u8>::empty());
        assert(rem0.skip(0) =~= rem0);
    }
    while !ended && out.len() < want
        invariant
            rem0 == old(source).remaining(),
            inf0 == old(source).infallible(),
            source.infallible() == inf0,
            out@.len() <= want,
            out@.len() <= rem0.len(),
            out@ == rem0.take(out@.len() as int),
            source.remaining() == rem0.skip(out@.len() as int),
            ended ==> source.remaining().len() == 0,
        decreases
                want - out@.len(),
                (if ended {
                    0nat
                } else {
                    source.retry_budget() + 1
                }),
    {
        let step = source.read_some(want - out.len());
        match step {
            ReadStep::Data(mut v) => {
                if v.len() == 0 {
                    ended = true;
                } else {
                    proof {
                        let k = out@.len() as int;
                        let m = v@.len() as int;
                        assert(out@ + v@ =~= rem0.take(k + m));
                        assert(rem0.skip(k).skip(m) =~= rem0.skip(k + m));
                    }
                    out.append(&mut v);
                }
            },
            ReadStep::Interrupted => {},
            ReadStep::Failed => {
                return Err(RecordError::Io);
            },
        }
    }
    Ok(out)
}

/// Reads records from an abstract byte source, one frame per call.
pub struct IoRecordReader<S: ByteSource> {
    fd: S,
    format: Format,
    max_record_size: usize,
    observed: Ghost<Seq<Seq<u8>>>,
}

impl<S: ByteSource> IoRecordReader<S> {
    /// The wrapped byte source.
    pub closed spec fn source(&self) -> S {
        self.fd
    }

    /// The framing in force.
    pub closed spec fn wire_format(&self) -> Format {
        self.format
    }

    /// The configured bound on decoded record lengths.
    pub closed spec fn max_size(&self) -> nat {
        self.max_record_size as nat
    }

    /// Wraps an already-opened byte source.
    pub fn from_read(inner: S, format: Format, max_record_size: usize) -> (r: Self)
        ensures
            r.source() == inner,
            r.wire_format() == format,
            r.max_size() == max_record_size as nat,
            r.observed() == Seq::<Seq<u8>>::empty(),
    {
        IoRecordReader { fd: inner, format, max_record_size, observed: Ghost(Seq::empty()) }
    }

    /// Hands the byte source back.
    pub fn into_inner(self) -> (r: S)
        ensures
            r == self.source(),
    {
        self.fd
    }

    /// The precise guarantee of one stream read: the result and the bytes
    /// consumed are the ones `stream_next` names, except that a fallible
    /// source may fail with `Io` at any point.
    pub open spec fn io_read_outcome(
        pre: Self,
        post: Self,
        r: Result<Option<Vec<u8>>, RecordError>,
    ) -> bool {
        let rem = pre.source().remaining();
        let next = stream_next(rem, pre.max_size(), pre.wire_format());
        &&& post.wire_format() == pre.wire_format()
        &&& post.max_size() == pre.max_size()
        &&& post.source().infallible() == pre.source().infallible()
        &&& (r matches Ok(Some(v)) ==> (next matches ReadSpec::Frame(p, n) && v@ == p
            && post.source().remaining() == rem.skip(n as int)))
        &&& (r matches Ok(None) ==> next is End && post.source().remaining() == rem)
        &&& ((r matches Err(e) && e is TooLarge) ==> next is TooLarge && post.source().remaining()
            == rem.skip(prefix_width(pre.wire_format()) as int))
        &&& ((r matches Err(e) && e is IncompleteHeader) ==> next is ShortHeader
            && post.source().remaining().len() == 0)
        &&& (r is Err ==> (r->Err_0 is TooLarge || r->Err_0 is IncompleteHeader
            || r->Err_0 is Io))
        &&& (pre.source().infallible() ==> ((r matches Err(e) && e is Io) ==> next
            is ShortPayload && post.source().remaining().len() == 0))
    }
}

impl<S: ByteSource> RecordReader for IoRecordReader<S> {
    closed spec fn observed(&self) -> Seq<Seq<u8>> {
        self.observed@
    }

    open spec fn read_outcome(pre: Self, post: Self, r: Result<Option<Vec<u8>>, RecordError>) -> bool {
        Self::io_read_outcome(pre, post, r)
    }

    fn maybe_read_record(&mut self) -> (r: Result<Option<Vec<u8>>, RecordError>) {
        let ghost rem0: Seq<u8> = self.fd.remaining();
        proof {
            assert(rem0.skip(0) =~= rem0);
        }
        match self.format {
            Format::Chunk => {
                let cap = if self.max_record_size < 8192 {
                    self.max_record_size
                } else {
                    8192
                };
                if cap == 0 {
                    return Ok(None);
                }
                let res = read_to_end_partial(&mut self.fd, cap);
                match res {
                    Ok(v) => {
                        if v.len() == 0 {
                            Ok(None)
                        } else {
                            proof {
                                assert(cap as nat == chunk_cap(self.max_record_size as nat));
                                if v@.len() < cap {
                                    assert(rem0.skip(v@.len() as int).len() == 0);
                                }
                            }
                            self.observed = Ghost(self.observed@.push(v@));
                            Ok(Some(v))
                        }
                    },
                    Err(e) => Err(e),
                }
            },
            Format::Record | Format::Record32 => {
                let w: usize = if self.format == Format::Record {
                    8
                } else {
                    4
                };
                let hres = read_to_end_partial(&mut self.fd, w);
                let hdr = match hres {
                    Ok(h) => h,
                    Err(e) => {
                        return Err(e);
                    },
                };
                if hdr.len() == w {
                    proof {
                        assert(hdr@ =~= rem0.take(w as int));
                    }
                    let len64 = be_decode(hdr.as_slice());
                    if len64 > self.max_record_size as u64 {
                        return Err(RecordError::TooLarge);
                    }
                    let len = len64 as usize;
                    let ghost rem1: Seq<u8> = self.fd.remaining();
                    let pres = read_to_end_partial(&mut self.fd, len);
                    let payload = match pres {
                        Ok(p) => p,
                        Err(e) => {
                            return Err(e);
                        },
                    };
                    if payload.len() < len {
                        return Err(RecordError::Io);
                    }
                    proof {
                        assert(payload@ =~= rem0.subrange(w as int, w as int + len as int));
                        assert(rem1.skip(len as int) =~= rem0.skip(w as int + len as int));
                    }
                    self.observed = Ghost(self.observed@.push(payload@));
                    Ok(Some(payload))
                } else if hdr.len() == 0 {
                    Ok(None)
                } else {
                    Err(RecordError::IncompleteHeader)
                }
            },
        }
    }

    fn read_record(&mut self) -> (r: Result<Vec<u8>, RecordError>) {
        let m = self.maybe_read_record();
        match m {
            Ok(Some(v)) => Ok(v),
            Ok(None) => Err(RecordError::UnexpectedEnd),
            Err(e) => Err(e),
        }
    }
}

/// Writes records to an abstract byte sink, one frame per call, with no
/// buffering beyond what the sink itself provides.
pub struct IoRecordWriter<S: ByteSink> {
    fd: S,
    format: Format,
    written: Ghost<Seq<Seq<u8>>>,
    base: Ghost<Seq<u8>>,
}

impl<S: ByteSink> IoRecordWriter<S> {
    /// The wrapped byte sink.
    pub closed spec fn sink(&self) -> S {
        self.fd
    }

    /// The framing in force.
    pub closed spec fn wire_format(&self) -> Format {
        self.format
    }

    /// Whatever the sink already held when this writer was built.
    pub closed spec fn base(&self) -> Seq<u8> {
        self.base@
    }

    /// The sink holds its prior content followed by every accepted record,
    /// framed and in order. Lost only when the sink itself fails.
    pub closed spec fn wf(&self) -> bool {
        &&& self.fd.sunk() == self.base@ + encode_records(self.written@, self.format)
        &&& forall|i: int|
            0 <= i < self.written@.len() ==> encodable(#[trigger] self.written@[i], self.format)
    }

    /// Wraps an already-opened byte sink.
    pub fn new(inner: S, format: Format) -> (r: Self)
        ensures
            r.sink() == inner,
            r.wire_format() == format,
            r.written() == Seq::<Seq<u8>>::empty(),
            r.base() == inner.sunk(),
            r.wf(),
    {
        let ghost b: Seq<u8> = inner.sunk();
        let w = IoRecordWriter { fd: inner, format, written: Ghost(Seq::empty()), base: Ghost(b) };
        proof {
            assert(w.fd.sunk() =~= b + encode_records(Seq::<Seq<u8>>::empty(), format));
        }
        w
    }

    /// Hands the byte sink back.
    pub fn into_inner(self) -> (r: S)
        ensures
            r == self.sink(),
    {
        self.fd
    }

    /// The precise guarantee of one stream write.
    pub open spec fn io_write_outcome(
        pre: Self,
        post: Self,
        data: Seq<u8>,
        r: Result<(), RecordError>,
    ) -> bool {
        &&& post.wire_format() == pre.wire_format()
        &&& post.base() == pre.base()
        &&& post.sink().infallible() == pre.sink().infallible()
        &&& (r is Ok ==> encodable(data, pre.wire_format()) && post.sink().sunk()
            == pre.sink().sunk() + encode_record(data, pre.wire_format()))
        &&& (r is Ok && pre.wf() ==> post.wf())
        &&& ((r matches Err(e) && e is Encoding) <==> !encodable(data, pre.wire_format()))
        &&& ((r matches Err(e) && e is Encoding) ==> post.sink().sunk() == pre.sink().sunk() && (
        pre.wf() ==> post.wf()))
        &&& (r is Err ==> (r->Err_0 is Io || r->Err_0 is Encoding))
        &&& (pre.sink().infallible() && encodable(data, pre.wire_format()) ==> r is Ok)
    }

    /// The precise guarantee of one flush.
    pub open spec fn io_flush_outcome(pre: Self, post: Self, r: Result<(), RecordError>) -> bool {
        &&& post.wire_format() == pre.wire_format()
        &&& post.base() == pre.base()
        &&& post.sink().infallible() == pre.sink().infallible()
        &&& (r is Ok ==> post.sink().sunk() == pre.sink().sunk() && (pre.wf() ==> post.wf()))
        &&& (pre.sink().infallible() ==> r is Ok)
        &&& (r is Err ==> r->Err_0 is Io)
    }
}

impl<S: ByteSink> RecordWriter for IoRecordWriter<S> {
    closed spec fn written(&self) -> Seq<Seq<u8>> {
        self.written@
    }

    open spec fn write_outcome(pre: Self, post: Self, data: Seq<u8>, r: Result<(), RecordError>) -> bool {
        Self::io_write_outcome(pre, post, data, r)
    }

    open spec fn flush_outcome(pre: Self, post: Self, r: Result<(), RecordError>) -> bool {
        Self::io_flush_outcome(pre, post, r)
    }

    fn write_record(&mut self, data: &[u8]) -> (r: Result<(), RecordError>) {
        // Binding the length grounds `data@.len() <= usize::MAX`, which makes
        // every payload encodable under the 8-byte prefix.
        let dlen = data.len();
        proof {
            lemma_pow256_values();
            assert(data@.len() == dlen);
        }
        let res = match self.format {
            Format::Chunk => {
                let rr = self.fd.write_all(data);
                proof {
                    assert(encode_record(data@, Format::Chunk) =~= data@);
                }
                rr
            },
            Format::Record => write_record(&mut self.fd, data),
            Format::Record32 => write_record32(&mut self.fd, data),
        };
        match res {
            Ok(u) => {
                proof {
                    assert(encodable(data@, self.format));
                    lemma_encode_records_push(self.written@, data@, self.format);
                    if old(self).wf() {
                        assert((self.base@ + encode_records(old(self).written@, self.format))
                            + encode_record(data@, self.format) =~= self.base@ + (encode_records(
                            old(self).written@,
                            self.format,
                        ) + encode_record(data@, self.format)));
                    }
                }
                self.written = Ghost(self.written@.push(data@));
                Ok(())
            },
            Err(e) => Err(e),
        }
    }

    fn flush(&mut self) -> (r: Result<(), RecordError>) {
        self.fd.flush()
    }
}

} // verus!
