//! Record framing: a uniform way to write and read sequences of opaque
//! binary records to and from byte buffers or byte streams, under one of
//! three wire formats (raw chunks, 8-byte length prefix, 4-byte length
//! prefix), with a hashing decorator that folds observed payload bytes
//! into an accumulator.

use vstd::prelude::*;

pub mod buffer;
pub mod codec;
pub mod file;
pub mod hash;
pub mod memory;
pub mod util;

pub use buffer::{BufferRecordReader, BufferRecordWriter, ByteBuf};
pub use file::{ByteSink, ByteSource, IoRecordReader, IoRecordWriter, ReadStep};
pub use hash::{HashAccumulator, HashingRecordReader, HashingRecordWriter, PolyAccumulator};
pub use memory::{MemorySink, MemorySource};

verus! {

/// Which framing is in force on the wire; fixed for the lifetime of a
/// reader or writer instance.
#[derive(Clone, Copy, Debug, PartialEq, Eq, Structural)]
pub enum Format {
    /// Plain bytes with no header. Record boundaries are not recoverable
    /// from the data itself; readers impose their own granularity.
    Chunk,
    /// An 8-byte big-endian unsigned length prefix before each payload.
    Record,
    /// A 4-byte big-endian unsigned length prefix before each payload.
    Record32,
}

/// Everything that can go wrong while framing or unframing records.
#[derive(Clone, Copy, Debug, PartialEq, Eq, Structural)]
pub enum RecordError {
    /// A payload's length cannot be represented in the chosen prefix width.
    Encoding,
    /// A decoded length prefix exceeds the configured maximum record size.
    TooLarge,
    /// More than zero but fewer than the required prefix bytes were
    /// available before end of input; distinct from a clean end.
    IncompleteHeader,
    /// A non-transient failure of the underlying byte source or sink, or a
    /// payload cut short before its announced length.
    Io,
    /// `read_record` was asked for a record when none remained.
    UnexpectedEnd,
}

/// The reader capability: pull the next record, or detect a clean end.
///
/// Each returned payload is handed back as an owned copy; `observed`
/// accumulates, in order, the payloads of every completed read, so that
/// decorators can state that they pass records through unchanged.
pub trait RecordReader: Sized {
    /// The payloads of all records this reader has returned so far.
    spec fn observed(&self) -> Seq<Seq<u8>>;

    /// The precise relation an implementation guarantees between the state
    /// before one read, the state after it, and the returned value.
    spec fn read_outcome(pre: Self, post: Self, r: Result<Option<Vec<u8>>, RecordError>) -> bool;

    /// Pulls the next record: a payload, `None` at a clean end of input,
    /// or an error.
    fn maybe_read_record(&mut self) -> (r: Result<Option<Vec<u8>>, RecordError>)
        ensures
            Self::read_outcome(*old(self), *final(self), r),
            (r matches Ok(Some(v)) ==> final(self).observed() == old(self).observed().push(v@)),
            !(r matches Ok(Some(_))) ==> final(self).observed() == old(self).observed(),
    ;

    /// Pulls the next record, turning a clean end of input into an
    /// `UnexpectedEnd` error.
    fn read_record(&mut self) -> (r: Result<Vec<u8>, RecordError>)
        ensures
            (r matches Ok(v) ==> final(self).observed() == old(self).observed().push(v@)),
            (r matches Err(_) ==> final(self).observed() == old(self).observed()),
            exists|m: Result<Option<Vec<u8>>, RecordError>|
                {
                    &&& #[trigger] Self::read_outcome(*old(self), *final(self), m)
                    &&& (m matches Ok(Some(v)) ==> r == Ok::<Vec<u8>, RecordError>(v))
                    &&& (m matches Ok(None) ==> r == Err::<Vec<u8>, RecordError>(
                        RecordError::UnexpectedEnd,
                    ))
                    &&& (m matches Err(e) ==> r == Err::<Vec<u8>, RecordError>(e))
                },
    ;
}

/// The writer capability: append one record per call, flush on demand.
///
/// `written` accumulates, in order, the payloads of every completed write.
pub trait RecordWriter: Sized {
    /// The payloads of all records this writer has accepted so far.
    spec fn written(&self) -> Seq<Seq<u8>>;

    /// The precise relation an implementation guarantees between the state
    /// before one write, the state after it, and the returned value.
    spec fn write_outcome(pre: Self, post: Self, data: Seq<u8>, r: Result<(), RecordError>) -> bool;

    /// The precise relation an implementation guarantees for one flush.
    spec fn flush_outcome(pre: Self, post: Self, r: Result<(), RecordError>) -> bool;

    /// Appends one record holding `data`.
    fn write_record(&mut self, data: &[u8]) -> (r: Result<(), RecordError>)
        ensures
            Self::write_outcome(*old(self), *final(self), data@, r),
            r is Ok ==> final(self).written() == old(self).written().push(data@),
            r is Err ==> final(self).written() == old(self).written(),
    ;

    /// Forces buffered bytes toward the destination; completes no record.
    fn flush(&mut self) -> (r: Result<(), RecordError>)
        ensures
            Self::flush_outcome(*old(self), *final(self), r),
            final(self).written() == old(self).written(),
    ;
}

} // verus!
