//! Shared codec routines: big-endian length prefixes as executable code,
//! reading one record out of a byte buffer, and writing one length-prefixed
//! record to a byte sink. Both backends reuse these, so the framing logic
//! exists once.

use crate::codec::{
    be_bytes, be_value, buffer_next, encodable, encode_record, lemma_be_bytes_head,
    lemma_pow256_increases, lemma_pow256_pos, lemma_pow256_values, pow256, ReadSpec,
};
use crate::file::ByteSink;
use crate::{Format, RecordError};
use vstd::arithmetic::div_mod::{lemma_div_basics_2, lemma_div_denominator};
use vstd::prelude::*;
use vstd::slice::{slice_subrange, slice_to_vec};

verus! {

/// The big-endian encoding of `value` in exactly `width` bytes.
pub fn be_encode(value: u64, width: usize) -> (r: Vec<u8>)
    requires
        width <= 8,
    ensures
        r@ == be_bytes(value as nat, width as nat),
        r@.len() == width,
{
    let mut r: Vec<u8> = vec![0u8; width];
    let mut v: u64 = value;
    let mut i: usize = width;
    proof {
        lemma_div_basics_2(value as int);
        assert(pow256(0) == 1);
        assert(r@.skip(i as int) =~= be_bytes(value as nat, 0));
    }
    while i > 0
        invariant
            i <= width <= 8,
            r@.len() == width,
            v as nat == (value as nat) / pow256((width - i) as nat),
            r@.skip(i as int) == be_bytes(value as nat, (width - i) as nat),
        decreases i,
    {
        i = i - 1;
        let ghost k = (width - i - 1) as nat;
        let ghost prev = r@;
        r[i] = (v % 256) as u8;
        proof {
            lemma_be_bytes_head(value as nat, k);
            lemma_pow256_pos(k);
            lemma_div_denominator(value as int, pow256(k) as int, 256);
            assert(pow256((k + 1) as nat) == 256 * pow256(k));
            assert(r@.skip(i as int) =~= seq![(((value as nat) / pow256(k)) % 256) as u8]
                + prev.skip(i as int + 1));
        }
        v = v / 256;
    }
    proof {
        assert(r@.skip(0) =~= r@);
    }
    r
}

/// The unsigned value of the big-endian bytes in `bytes`.
pub fn be_decode(bytes: &[u8]) -> (r: u64)
    requires
        bytes@.len() <= 8,
    ensures
        r as nat == be_value(bytes@),
{
    let n = bytes.len();
    let mut acc: u64 = 0;
    let mut i: usize = 0;
    proof {
        assert(bytes@.take(0) =~= Seq::<u8>::empty());
    }
    while i < n
        invariant
            n == bytes@.len(),
            n <= 8,
            i <= n,
            acc as nat == be_value(bytes@.take(i as int)),
            (acc as nat) < pow256(i as nat),
        decreases n - i,
    {
        proof {
            lemma_pow256_increases((i + 1) as nat, 8);
            lemma_pow256_values();
            assert(pow256((i + 1) as nat) == 256 * pow256(i as nat));
            assert(bytes@.take(i as int + 1).drop_last() =~= bytes@.take(i as int));
            assert(bytes@.take(i as int + 1).last() == bytes@[i as int]);
        }
        acc = acc * 256 + (bytes[i] as u64);
        i = i + 1;
    }
    proof {
        assert(bytes@.take(n as int) =~= bytes@);
    }
    acc
}

/// The contract of `maybe_read_record_from_buffer`: how the offset after
/// one read and the returned value relate to the state before it.
pub open spec fn buffer_read_post(
    buf: Seq<u8>,
    off0: nat,
    off1: nat,
    size: nat,
    max: nat,
    f: Format,
    r: Result<Option<Vec<u8>>, RecordError>,
) -> bool {
    if off0 >= size {
        (r matches Ok(o) && o is None) && off1 == off0
    } else {
        match buffer_next(buf.skip(off0 as int), max, f) {
            ReadSpec::End => (r matches Ok(o) && o is None) && off1 == off0,
            ReadSpec::Frame(p, n) => {
                &&& (r matches Ok(o) && o matches Some(v) && v@ == p)
                &&& off1 == off0 + n
            },
            ReadSpec::TooLarge => {
                &&& (r matches Err(e) && e is TooLarge)
                &&& off1 == off0
            },
            ReadSpec::ShortHeader => {
                &&& (r matches Err(e) && e is IncompleteHeader)
                &&& off1 == off0
            },
            ReadSpec::ShortPayload => {
                &&& (r matches Err(e) && e is Io)
                &&& off1 == off0
            },
        }
    }
}

/// Reads the next record out of `buf` at `*offset`, advancing the offset
/// past the frame on success. `size` is the logical end of the readable
/// range: at or beyond it, the input has cleanly ended. Kept public so any
/// buffer-holding reader can reuse the framing logic.
pub fn maybe_read_record_from_buffer(
    buf: &[u8],
    offset: &mut usize,
    size: usize,
    max_record_size: usize,
    format: Format,
) -> (r: Result<Option<Vec<u8>>, RecordError>)
    requires
        size <= buf@.len(),
    ensures
        buffer_read_post(
            buf@,
            *old(offset) as nat,
            *final(offset) as nat,
            size as nat,
            max_record_size as nat,
            format,
            r,
        ),
{
    if *offset >= size {
        return Ok(None);
    }
    let off = *offset;
    let ghost suffix = buf@.skip(off as int);
    match format {
        Format::Chunk => {
            let avail = buf.len() - off;
            let n = if max_record_size < avail {
                max_record_size
            } else {
                avail
            };
            let payload = slice_to_vec(slice_subrange(buf, off, off + n));
            proof {
                assert(payload@ =~= suffix.take(n as int));
            }
            *offset = off + n;
            Ok(Some(payload))
        },
        Format::Record | Format::Record32 => {
            let w: usize = if format == Format::Record {
                8
            } else {
                4
            };
            let avail = buf.len() - off;
            if avail < w {
                return Err(RecordError::IncompleteHeader);
            }
            let hdr = slice_subrange(buf, off, off + w);
            proof {
                assert(hdr@ =~= suffix.take(w as int));
            }
            let len64 = be_decode(hdr);
            if len64 > max_record_size as u64 {
                return Err(RecordError::TooLarge);
            }
            let len = len64 as usize;
            if avail - w < len {
                return Err(RecordError::Io);
            }
            let payload = slice_to_vec(slice_subrange(buf, off + w, off + w + len));
            proof {
                assert(payload@ =~= suffix.subrange(w as int, w as int + len as int));
            }
            *offset = off + w + len;
            Ok(Some(payload))
        },
    }
}

/// Frames `data` under the 8-byte big-endian length prefix and writes the
/// header, then the payload, to `stream`; each write fully completes before
/// the next begins.
pub fn write_record<S: ByteSink>(stream: &mut S, data: &[u8]) -> (r: Result<(), RecordError>)
    ensures
        final(stream).infallible() == old(stream).infallible(),
        old(stream).infallible() ==> r is Ok,
        r is Ok ==> final(stream).sunk() == old(stream).sunk() + encode_record(
            data@,
            Format::Record,
        ),
        r is Err ==> r->Err_0 is Io,
{
    proof {
        lemma_pow256_values();
    }
    let hdr = be_encode(data.len() as u64, 8);
    let rh = stream.write_all(hdr.as_slice());
    if let Err(e) = rh {
        return Err(e);
    }
    let rd = stream.write_all(data);
    if let Err(e) = rd {
        return Err(e);
    }
    proof {
        assert((old(stream).sunk() + hdr@) + data@ =~= old(stream).sunk() + (hdr@ + data@));
    }
    Ok(())
}

/// Frames `data` under the 4-byte big-endian length prefix and writes it to
/// `stream`; payloads too long for four bytes are rejected before anything
/// is written.
pub fn write_record32<S: ByteSink>(stream: &mut S, data: &[u8]) -> (r: Result<(), RecordError>)
    ensures
        final(stream).infallible() == old(stream).infallible(),
        (r matches Err(e) && e is Encoding) <==> !encodable(data@, Format::Record32),
        (r matches Err(e) && e is Encoding) ==> final(stream).sunk() == old(stream).sunk(),
        old(stream).infallible() && encodable(data@, Format::Record32) ==> r is Ok,
        r is Ok ==> final(stream).sunk() == old(stream).sunk() + encode_record(
            data@,
            Format::Record32,
        ),
        r is Err ==> (r->Err_0 is Io || r->Err_0 is Encoding),
{
    proof {
        lemma_pow256_values();
    }
    if data.len() as u64 > 0xFFFF_FFFFu64 {
        return Err(RecordError::Encoding);
    }
    let hdr = be_encode(data.len() as u64, 4);
    let rh = stream.write_all(hdr.as_slice());
    if let Err(e) = rh {
        return Err(e);
    }
    let rd = stream.write_all(data);
    if let Err(e) = rd {
        return Err(e);
    }
    proof {
        assert((old(stream).sunk() + hdr@) + data@ =~= old(stream).sunk() + (hdr@ + data@));
    }
    Ok(())
}

} // verus!
