//! The buffer-backed writer and reader: framing over one in-memory byte
//! sequence. The reader holds its bytes either borrowed or owned and can be
//! converted to an owned form without losing its place.

use crate::codec::{
    encodable, encode_record, encode_records, lemma_encode_records_push, lemma_pow256_values,
};
use crate::util::{be_encode, buffer_read_post, maybe_read_record_from_buffer};
use crate::{Format, RecordError, RecordReader, RecordWriter};
use vstd::prelude::*;
use vstd::slice::slice_to_vec;

verus! {

/// A byte sequence held either as a borrowed view or as an owned copy.
pub enum ByteBuf<'a> {
    Borrowed(&'a [u8]),
    Owned(Vec<u8>),
}

impl<'a> ByteBuf<'a> {
    /// The bytes held, however they are held.
    pub open spec fn bytes(&self) -> Seq<u8> {
        match *self {
            ByteBuf::Borrowed(s) => s@,
            ByteBuf::Owned(ref v) => v@,
        }
    }

    /// A view of the held bytes.
    pub fn as_slice(&self) -> (r: &[u8])
        ensures
            r@ == self.bytes(),
    {
        match self {
            ByteBuf::Borrowed(s) => s,
            ByteBuf::Owned(v) => v.as_slice(),
        }
    }
}

/// Concatenates the frames of all written records into one growable buffer.
pub struct BufferRecordWriter {
    records: Vec<u8>,
    format: Format,
    written: Ghost<Seq<Seq<u8>>>,
}

impl BufferRecordWriter {
    /// The bytes accumulated so far.
    pub closed spec fn bytes(&self) -> Seq<u8> {
        self.records@
    }

    /// The framing in force.
    pub closed spec fn wire_format(&self) -> Format {
        self.format
    }

    /// The buffer holds every accepted record, framed and in order.
    pub closed spec fn wf(&self) -> bool {
        &&& self.records@ == encode_records(self.written@, self.format)
        &&& forall|i: int|
            0 <= i < self.written@.len() ==> encodable(#[trigger] self.written@[i], self.format)
    }

    /// An empty writer for the given format.
    pub fn new(format: Format) -> (r: BufferRecordWriter)
        ensures
            r.wf(),
            r.wire_format() == format,
            r.written() == Seq::<Seq<u8>>::empty(),
            r.bytes() == Seq::<u8>::empty(),
    {
        let w = BufferRecordWriter { records: Vec::new(), format, written: Ghost(Seq::empty()) };
        proof {
            assert(w.records@ =~= encode_records(Seq::<Seq<u8>>::empty(), format));
        }
        w
    }

    /// Extracts the accumulated bytes by value, ending this writer's life.
    pub fn into_cow(self) -> (r: Vec<u8>)
        ensures
            r@ == self.bytes(),
    {
        self.records
    }

    /// A view of the accumulated bytes, valid until the next write.
    pub fn as_slice(&self) -> (r: &[u8])
        ensures
            r@ == self.bytes(),
    {
        self.records.as_slice()
    }

    /// The precise guarantee of one buffered write.
    pub open spec fn buf_write_outcome(
        pre: Self,
        post: Self,
        data: Seq<u8>,
        r: Result<(), RecordError>,
    ) -> bool {
        &&& post.wire_format() == pre.wire_format()
        &&& (r is Ok <==> encodable(data, pre.wire_format()))
        &&& (r is Ok ==> post.bytes() == pre.bytes() + encode_record(data, pre.wire_format()))
        &&& (r is Err ==> r->Err_0 is Encoding && post.bytes() == pre.bytes())
        &&& (pre.wf() ==> post.wf())
    }
}

impl RecordWriter for BufferRecordWriter {
    closed spec fn written(&self) -> Seq<Seq<u8>> {
        self.written@
    }

    open spec fn write_outcome(pre: Self, post: Self, data: Seq<u8>, r: Result<(), RecordError>) -> bool {
        Self::buf_write_outcome(pre, post, data, r)
    }

    open spec fn flush_outcome(pre: Self, post: Self, r: Result<(), RecordError>) -> bool {
        post == pre && r is Ok
    }

    fn write_record(&mut self, data: &[u8]) -> (r: Result<(), RecordError>) {
        proof {
            lemma_pow256_values();
        }
        match self.format {
            Format::Chunk => {
                proof {
                    assert(encode_record(data@, Format::Chunk) =~= data@);
                }
            },
            Format::Record => {
                let mut hdr = be_encode(data.len() as u64, 8);
                self.records.append(&mut hdr);
            },
            Format::Record32 => {
                if data.len() as u64 > 0xFFFF_FFFFu64 {
                    return Err(RecordError::Encoding);
                }
                let mut hdr = be_encode(data.len() as u64, 4);
                self.records.append(&mut hdr);
            },
        }
        self.records.extend_from_slice(data);
        proof {
            assert(self.records@ =~= old(self).records@ + encode_record(data@, self.format));
            lemma_encode_records_push(old(self).written@, data@, self.format);
        }
        self.written = Ghost(self.written@.push(data@));
        Ok(())
    }

    fn flush(&mut self) -> (r: Result<(), RecordError>) {
        Ok(())
    }
}

/// Splits a held byte sequence into records, advancing a cursor.
pub struct BufferRecordReader<'a> {
    records: ByteBuf<'a>,
    offset: usize,
    max_record_size: usize,
    format: Format,
    observed: Ghost<Seq<Seq<u8>>>,
}

impl<'a> BufferRecordReader<'a> {
    /// The full byte sequence this reader holds.
    pub closed spec fn bytes(&self) -> Seq<u8> {
        self.records.bytes()
    }

    /// The current cursor.
    pub closed spec fn cursor(&self) -> nat {
        self.offset as nat
    }

    /// The configured bound on decoded record lengths.
    pub closed spec fn max_size(&self) -> nat {
        self.max_record_size as nat
    }

    /// The framing in force.
    pub closed spec fn wire_format(&self) -> Format {
        self.format
    }

    /// The bytes not yet consumed: everything from the cursor on.
    pub open spec fn remaining(&self) -> Seq<u8> {
        if self.cursor() <= self.bytes().len() {
            self.bytes().skip(self.cursor() as int)
        } else {
            Seq::empty()
        }
    }

    /// A reader over a borrowed byte sequence, starting at its beginning.
    pub fn new(records: &'a [u8], format: Format, max_record_size: usize) -> (r:
        BufferRecordReader<'a>)
        ensures
            r.bytes() == records@,
            r.cursor() == 0,
            r.max_size() == max_record_size as nat,
            r.wire_format() == format,
            r.observed() == Seq::<Seq<u8>>::empty(),
    {
        BufferRecordReader {
            records: ByteBuf::Borrowed(records),
            offset: 0,
            max_record_size,
            format,
            observed: Ghost(Seq::empty()),
        }
    }

    /// A reader that owns its byte sequence, starting at its beginning.
    pub fn from_vec(v: Vec<u8>, format: Format, max_record_size: usize) -> (r: BufferRecordReader<
        'static,
    >)
        ensures
            r.bytes() == v@,
            r.cursor() == 0,
            r.max_size() == max_record_size as nat,
            r.wire_format() == format,
            r.observed() == Seq::<Seq<u8>>::empty(),
    {
        BufferRecordReader {
            records: ByteBuf::Owned(v),
            offset: 0,
            max_record_size,
            format,
            observed: Ghost(Seq::empty()),
        }
    }

    /// Converts this reader into one that owns its bytes, keeping the
    /// cursor where it is, so every later read yields what it would have
    /// yielded on the original. A reader already past its end keeps only an
    /// empty remainder.
    pub fn into_owned(self) -> (r: BufferRecordReader<'static>)
        ensures
            r.remaining() == self.remaining(),
            r.cursor() == self.cursor(),
            r.max_size() == self.max_size(),
            r.wire_format() == self.wire_format(),
            r.observed() == self.observed(),
    {
        let ghost pre = self;
        let BufferRecordReader { records, offset, max_record_size, format, observed } = self;
        let len = match &records {
            ByteBuf::Borrowed(s) => s.len(),
            ByteBuf::Owned(v) => v.len(),
        };
        let held: ByteBuf<'static> = if offset >= len {
            ByteBuf::Owned(Vec::new())
        } else {
            match records {
                ByteBuf::Borrowed(s) => ByteBuf::Owned(slice_to_vec(s)),
                ByteBuf::Owned(v) => ByteBuf::Owned(v),
            }
        };
        let r = BufferRecordReader { records: held, offset, max_record_size, format, observed };
        proof {
            assert(r.remaining() =~= pre.remaining());
        }
        r
    }
}

impl<'a> RecordReader for BufferRecordReader<'a> {
    closed spec fn observed(&self) -> Seq<Seq<u8>> {
        self.observed@
    }

    open spec fn read_outcome(pre: Self, post: Self, r: Result<Option<Vec<u8>>, RecordError>) -> bool {
        &&& post.bytes() == pre.bytes()
        &&& post.wire_format() == pre.wire_format()
        &&& post.max_size() == pre.max_size()
        &&& buffer_read_post(
            pre.bytes(),
            pre.cursor(),
            post.cursor(),
            pre.bytes().len(),
            pre.max_size(),
            pre.wire_format(),
            r,
        )
    }

    fn maybe_read_record(&mut self) -> (r: Result<Option<Vec<u8>>, RecordError>) {
        let buf = self.records.as_slice();
        let size = buf.len();
        let res = maybe_read_record_from_buffer(
            buf,
            &mut self.offset,
            size,
            self.max_record_size,
            self.format,
        );
        if let Ok(Some(v)) = &res {
            self.observed = Ghost(self.observed@.push(v@));
        }
        res
    }

    fn read_record(&mut self) -> (r: Result<Vec<u8>, RecordError>) {
        let m = self.maybe_read_record();
        match m {
            Ok(Some(v)) => Ok(v),
            Ok(None) => Err(RecordError::UnexpectedEnd),
            Err(e) => Err(e),
        }
    }
}

} // verus!
