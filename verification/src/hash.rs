//! The hashing decorator: wraps any reader or writer and feeds the payload
//! bytes of every completed read or write — in stream order, framing bytes
//! excluded — into an abstract hash accumulator, passing records through
//! unchanged.

use crate::{RecordError, RecordReader, RecordWriter};
use vstd::prelude::*;

verus! {

/// The capability the decorator needs from a hash accumulator: consume
/// bytes incrementally. `consumed` is the ordered concatenation of every
/// byte fed in, so a digest is a function of exactly those bytes.
pub trait HashAccumulator: Sized {
    /// Every byte fed into the accumulator so far, in order.
    spec fn consumed(&self) -> Seq<u8>;

    /// Feeds all of `data` into the accumulator.
    fn update(&mut self, data: &[u8])
        ensures
            final(self).consumed() == old(self).consumed() + data@,
    ;
}

/// The running value of a simple polynomial accumulator over the bytes
/// `s`, in base 31 modulo a fixed 32-bit prime.
pub open spec fn poly_digest(s: Seq<u8>) -> nat
    decreases s.len(),
{
    if s.len() == 0 {
        0
    } else {
        (poly_digest(s.drop_last()) * 31 + (s.last() as nat)) % 0xFFFF_FFFB
    }
}

pub proof fn lemma_poly_digest_bound(s: Seq<u8>)
    ensures
        poly_digest(s) < 0xFFFF_FFFB,
{
    if s.len() == 0 {
    } else {
    }
}

/// Hashing transparency composes across reads and writes: an accumulator
/// that holds some base content followed by the concatenation of the
/// payloads observed so far still does after one more observed payload.
/// Together with the per-call guarantees below, the digest reflects exactly
/// the ordered payload bytes of completed reads or writes — never framing
/// bytes — whatever the format.
pub proof fn lemma_hash_tracks_observed(
    base: Seq<u8>,
    observed: Seq<Seq<u8>>,
    consumed: Seq<u8>,
    payload: Seq<u8>,
)
    requires
        consumed == base + observed.flatten(),
    ensures
        consumed + payload == base + observed.push(payload).flatten(),
{
    observed.lemma_flatten_push(payload);
    assert((base + observed.flatten()) + payload =~= base + (observed.flatten() + payload));
}

/// A verified hash accumulator: a polynomial of the consumed bytes. Order
/// matters, so records observed in a different order digest differently.
pub struct PolyAccumulator {
    state: u64,
    seen: Ghost<Seq<u8>>,
}

impl PolyAccumulator {
    #[verifier::type_invariant]
    closed spec fn inv(&self) -> bool {
        self.state as nat == poly_digest(self.seen@)
    }

    /// A fresh accumulator that has consumed nothing.
    pub fn new() -> (r: PolyAccumulator)
        ensures
            r.consumed() == Seq::<u8>::empty(),
    {
        PolyAccumulator { state: 0, seen: Ghost(Seq::empty()) }
    }

    /// The digest of everything consumed so far.
    pub fn digest(&self) -> (r: u64)
        ensures
            r as nat == poly_digest(self.consumed()),
    {
        proof {
            use_type_invariant(self);
        }
        self.state
    }
}

impl HashAccumulator for PolyAccumulator {
    closed spec fn consumed(&self) -> Seq<u8> {
        self.seen@
    }

    fn update(&mut self, data: &[u8]) {
        proof {
            use_type_invariant(&*self);
        }
        let ghost seen0: Seq<u8> = self.seen@;
        let mut st = self.state;
        let n = data.len();
        let mut i: usize = 0;
        proof {
            assert(seen0 + data@.take(0) =~= seen0);
        }
        while i < n
            invariant
                n == data@.len(),
                i <= n,
                st as nat == poly_digest(seen0 + data@.take(i as int)),
            decreases n - i,
        {
            proof {
                lemma_poly_digest_bound(seen0 + data@.take(i as int));
                assert((seen0 + data@.take(i as int + 1)).drop_last() =~= seen0 + data@.take(
                    i as int,
                ));
                assert((seen0 + data@.take(i as int + 1)).last() == data@[i as int]);
            }
            st = (st * 31 + (data[i] as u64)) % 0xFFFF_FFFBu64;
            i = i + 1;
        }
        proof {
            assert(seen0 + data@.take(n as int) =~= seen0 + data@);
        }
        *self = PolyAccumulator { state: st, seen: Ghost(seen0 + data@) };
    }
}

/// Wraps a reader; every payload a successful read returns is fed into the
/// accumulator before being handed on, and nothing else ever is.
pub struct HashingRecordReader<I: RecordReader, D: HashAccumulator> {
    inner: I,
    hasher: D,
}

impl<I: RecordReader, D: HashAccumulator> HashingRecordReader<I, D> {
    /// The wrapped reader.
    pub closed spec fn inner_reader(&self) -> I {
        self.inner
    }

    /// The wrapped accumulator.
    pub closed spec fn accumulator(&self) -> D {
        self.hasher
    }

    /// Decorates `inner`, feeding observed payloads into `hasher`.
    pub fn new(inner: I, hasher: D) -> (r: Result<HashingRecordReader<I, D>, RecordError>)
        ensures
            (r matches Ok(h) && h.inner_reader() == inner && h.accumulator() == hasher),
    {
        Ok(HashingRecordReader { inner, hasher })
    }

    /// Unwraps into the inner reader and the accumulator.
    pub fn into_parts(self) -> (r: (I, D))
        ensures
            r.0 == self.inner_reader(),
            r.1 == self.accumulator(),
    {
        (self.inner, self.hasher)
    }
}

impl<I: RecordReader, D: HashAccumulator> RecordReader for HashingRecordReader<I, D> {
    closed spec fn observed(&self) -> Seq<Seq<u8>> {
        self.inner.observed()
    }

    /// Transparency: the wrapped reader's own guarantee holds unchanged,
    /// and the accumulator grows by exactly the returned payload.
    open spec fn read_outcome(pre: Self, post: Self, r: Result<Option<Vec<u8>>, RecordError>) -> bool {
        &&& I::read_outcome(pre.inner_reader(), post.inner_reader(), r)
        &&& (r matches Ok(Some(v)) ==> post.accumulator().consumed() == pre.accumulator().consumed()
            + v@)
        &&& (!(r matches Ok(Some(_))) ==> post.accumulator() == pre.accumulator())
    }

    fn maybe_read_record(&mut self) -> (r: Result<Option<Vec<u8>>, RecordError>) {
        let r = self.inner.maybe_read_record();
        if let Ok(Some(v)) = &r {
            self.hasher.update(v.as_slice());
        }
        r
    }

    fn read_record(&mut self) -> (r: Result<Vec<u8>, RecordError>) {
        let m = self.maybe_read_record();
        match m {
            Ok(Some(v)) => Ok(v),
            Ok(None) => Err(RecordError::UnexpectedEnd),
            Err(e) => Err(e),
        }
    }
}

/// Wraps a writer; every payload a successful write accepts is fed into
/// the accumulator after the inner write, and nothing else ever is.
pub struct HashingRecordWriter<O: RecordWriter, D: HashAccumulator> {
    inner: O,
    hasher: D,
}

impl<O: RecordWriter, D: HashAccumulator> HashingRecordWriter<O, D> {
    /// The wrapped writer.
    pub closed spec fn inner_writer(&self) -> O {
        self.inner
    }

    /// The wrapped accumulator.
    pub closed spec fn accumulator(&self) -> D {
        self.hasher
    }

    /// Decorates `inner`, feeding accepted payloads into `hasher`.
    pub fn new(inner: O, hasher: D) -> (r: Result<HashingRecordWriter<O, D>, RecordError>)
        ensures
            (r matches Ok(h) && h.inner_writer() == inner && h.accumulator() == hasher),
    {
        Ok(HashingRecordWriter { inner, hasher })
    }

    /// Unwraps into the inner writer and the accumulator.
    pub fn into_parts(self) -> (r: (O, D))
        ensures
            r.0 == self.inner_writer(),
            r.1 == self.accumulator(),
    {
        (self.inner, self.hasher)
    }
}

impl<O: RecordWriter, D: HashAccumulator> RecordWriter for HashingRecordWriter<O, D> {
    closed spec fn written(&self) -> Seq<Seq<u8>> {
        self.inner.written()
    }

    /// Transparency: the wrapped writer's own guarantee holds unchanged,
    /// and the accumulator grows by exactly the accepted payload.
    open spec fn write_outcome(pre: Self, post: Self, data: Seq<u8>, r: Result<(), RecordError>) -> bool {
        &&& O::write_outcome(pre.inner_writer(), post.inner_writer(), data, r)
        &&& (r is Ok ==> post.accumulator().consumed() == pre.accumulator().consumed() + data)
        &&& (r is Err ==> post.accumulator() == pre.accumulator())
    }

    open spec fn flush_outcome(pre: Self, post: Self, r: Result<(), RecordError>) -> bool {
        &&& O::flush_outcome(pre.inner_writer(), post.inner_writer(), r)
        &&& post.accumulator() == pre.accumulator()
    }

    fn write_record(&mut self, data: &[u8]) -> (r: Result<(), RecordError>) {
        let r = self.inner.write_record(data);
        if r.is_ok() {
            self.hasher.update(data);
        }
        r
    }

    fn flush(&mut self) -> (r: Result<(), RecordError>) {
        self.inner.flush()
    }
}

} // verus!
