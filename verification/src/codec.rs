//! The mathematical model of the wire formats: big-endian length prefixes,
//! frame encoding and decoding, and the laws the backends share (round trip,
//! chunk reconstruction, cross-backend agreement).

use crate::Format;
use vstd::arithmetic::div_mod::{lemma_div_basics_2, lemma_div_denominator, lemma_fundamental_div_mod};
use vstd::prelude::*;

verus! {

/// 256 raised to `w`: how many values fit in `w` bytes.
pub open spec fn pow256(w: nat) -> nat
    decreases w,
{
    if w == 0 {
        1
    } else {
        256 * pow256((w - 1) as nat)
    }
}

/// Width in bytes of the length prefix under format `f`.
pub open spec fn prefix_width(f: Format) -> nat {
    match f {
        Format::Chunk => 0,
        Format::Record => 8,
        Format::Record32 => 4,
    }
}

/// The big-endian encoding of `n` in exactly `w` bytes (of `n` modulo
/// `pow256(w)` when `n` does not fit).
pub open spec fn be_bytes(n: nat, w: nat) -> Seq<u8>
    decreases w,
{
    if w == 0 {
        Seq::empty()
    } else {
        be_bytes(n / 256, (w - 1) as nat).push((n % 256) as u8)
    }
}

/// The unsigned value of the big-endian byte sequence `s`.
pub open spec fn be_value(s: Seq<u8>) -> nat
    decreases s.len(),
{
    if s.len() == 0 {
        0
    } else {
        be_value(s.drop_last()) * 256 + (s.last() as nat)
    }
}

pub proof fn lemma_pow256_values()
    ensures
        pow256(0) == 1,
        pow256(1) == 0x100,
        pow256(4) == 0x1_0000_0000,
        pow256(7) == 0x100_0000_0000_0000,
        pow256(8) == 0x1_0000_0000_0000_0000,
{
    reveal_with_fuel(pow256, 9);
}

pub proof fn lemma_pow256_pos(w: nat)
    ensures
        pow256(w) >= 1,
    decreases w,
{
    if w > 0 {
        lemma_pow256_pos((w - 1) as nat);
    }
}

pub proof fn lemma_pow256_increases(a: nat, b: nat)
    requires
        a <= b,
    ensures
        pow256(a) <= pow256(b),
    decreases b,
{
    if a < b {
        lemma_pow256_increases(a, (b - 1) as nat);
        assert(pow256(b) == 256 * pow256((b - 1) as nat));
    }
}

pub proof fn lemma_be_bytes_len(n: nat, w: nat)
    ensures
        be_bytes(n, w).len() == w,
    decreases w,
{
    if w > 0 {
        lemma_be_bytes_len(n / 256, (w - 1) as nat);
    }
}

/// Decoding inverts encoding for every value that fits the width.
pub proof fn lemma_be_round_trip(n: nat, w: nat)
    requires
        n < pow256(w),
    ensures
        be_value(be_bytes(n, w)) == n,
    decreases w,
{
    if w == 0 {
    } else {
        let tail = be_bytes(n / 256, (w - 1) as nat);
        lemma_be_bytes_len(n / 256, (w - 1) as nat);
        assert(tail.push((n % 256) as u8).drop_last() =~= tail);
        assert(pow256(w) == 256 * pow256((w - 1) as nat));
        assert(n / 256 < pow256((w - 1) as nat)) by {
            if n / 256 >= pow256((w - 1) as nat) {
                lemma_fundamental_div_mod(n as int, 256);
                assert(n >= 256 * (n / 256));
            }
        }
        lemma_be_round_trip(n / 256, (w - 1) as nat);
        lemma_fundamental_div_mod(n as int, 256);
    }
}

/// The first byte of a non-empty encoding, split off from the rest.
pub proof fn lemma_be_bytes_head(n: nat, k: nat)
    ensures
        be_bytes(n, (k + 1) as nat) == seq![((n / pow256(k)) % 256) as u8] + be_bytes(n, k),
    decreases k,
{
    if k == 0 {
        lemma_div_basics_2(n as int);
        assert(pow256(0) == 1);
        assert(n / pow256(0) == n);
        assert(be_bytes(n, 1) == be_bytes(n / 256, 0).push((n % 256) as u8));
        assert(be_bytes(n, 1) =~= seq![((n / pow256(0)) % 256) as u8] + be_bytes(n, 0));
    } else {
        lemma_be_bytes_head(n / 256, (k - 1) as nat);
        lemma_pow256_pos((k - 1) as nat);
        lemma_div_denominator(n as int, 256, pow256((k - 1) as nat) as int);
        assert(256 * pow256((k - 1) as nat) == pow256(k));
        assert((seq![((n / pow256(k)) % 256) as u8] + be_bytes(n / 256, (k - 1) as nat)).push(
            (n % 256) as u8,
        ) =~= seq![((n / pow256(k)) % 256) as u8] + be_bytes(n / 256, (k - 1) as nat).push(
            (n % 256) as u8,
        ));
    }
}

/// `data` framed under `f`: the length prefix, then the payload.
pub open spec fn encode_record(data: Seq<u8>, f: Format) -> Seq<u8> {
    be_bytes(data.len(), prefix_width(f)) + data
}

/// Whether `data`'s length is representable in `f`'s prefix width.
pub open spec fn encodable(data: Seq<u8>, f: Format) -> bool {
    match f {
        Format::Chunk => true,
        _ => data.len() < pow256(prefix_width(f)),
    }
}

/// All of `records`, framed under `f` and concatenated in order.
pub open spec fn encode_records(records: Seq<Seq<u8>>, f: Format) -> Seq<u8>
    decreases records.len(),
{
    if records.len() == 0 {
        Seq::empty()
    } else {
        encode_record(records[0], f) + encode_records(records.skip(1), f)
    }
}

pub proof fn lemma_encode_records_push(records: Seq<Seq<u8>>, data: Seq<u8>, f: Format)
    ensures
        encode_records(records.push(data), f) == encode_records(records, f) + encode_record(
            data,
            f,
        ),
    decreases records.len(),
{
    if records.len() == 0 {
        assert(records.push(data).skip(1) =~= Seq::<Seq<u8>>::empty());
        assert(encode_records(records.push(data), f) =~= encode_records(records, f)
            + encode_record(data, f));
    } else {
        assert(records.push(data).skip(1) =~= records.skip(1).push(data));
        assert(records.push(data)[0] == records[0]);
        lemma_encode_records_push(records.skip(1), data, f);
        assert(records.push(data).len() != 0);
        assert(encode_records(records.push(data), f) == encode_record(records.push(data)[0], f)
            + encode_records(records.push(data).skip(1), f));
        assert(encode_records(records.push(data).skip(1), f) == encode_records(
            records.skip(1).push(data),
            f,
        ));
        assert(encode_records(records.push(data), f) == encode_record(records[0], f) + (
        encode_records(records.skip(1), f) + encode_record(data, f)));
        assert(encode_record(records[0], f) + (encode_records(records.skip(1), f) + encode_record(
            data,
            f,
        )) =~= encode_records(records, f) + encode_record(data, f));
    }
}

/// What a single read attempt yields from the byte suffix still unread.
pub enum ReadSpec {
    /// Clean end of input: no record, no error.
    End,
    /// A complete frame: the payload, and how many bytes it occupied.
    Frame(Seq<u8>, nat),
    /// The decoded length prefix exceeds the maximum record size.
    TooLarge,
    /// Fewer bytes than the prefix width remain, but more than zero.
    ShortHeader,
    /// A complete header whose payload is cut short before its length.
    ShortPayload,
}

/// One read of a length-prefixed frame out of `data`, bounded by `max`.
pub open spec fn next_prefixed(data: Seq<u8>, max: nat, f: Format) -> ReadSpec
    recommends
        f != Format::Chunk,
{
    let w = prefix_width(f);
    if data.len() == 0 {
        ReadSpec::End
    } else if data.len() < w {
        ReadSpec::ShortHeader
    } else {
        let len = be_value(data.take(w as int));
        if len > max {
            ReadSpec::TooLarge
        } else if data.len() < w + len {
            ReadSpec::ShortPayload
        } else {
            ReadSpec::Frame(data.subrange(w as int, (w + len) as int), w + len)
        }
    }
}

/// One read from the unread suffix of a buffer-backed reader.
pub open spec fn buffer_next(data: Seq<u8>, max: nat, f: Format) -> ReadSpec {
    match f {
        Format::Chunk => {
            if data.len() == 0 {
                ReadSpec::End
            } else {
                let n = if max < data.len() {
                    max
                } else {
                    data.len()
                };
                ReadSpec::Frame(data.take(n as int), n)
            }
        },
        _ => next_prefixed(data, max, f),
    }
}

/// The most bytes one chunk-mode stream read asks its source for: the
/// configured maximum, held to the fixed scratch cap.
pub open spec fn chunk_cap(max: nat) -> nat {
    if max < 8192 {
        max
    } else {
        8192
    }
}

/// One read from a stream-backed reader whose source still holds `data`.
pub open spec fn stream_next(data: Seq<u8>, max: nat, f: Format) -> ReadSpec {
    match f {
        Format::Chunk => {
            let n = if chunk_cap(max) < data.len() {
                chunk_cap(max)
            } else {
                data.len()
            };
            if n == 0 {
                ReadSpec::End
            } else {
                ReadSpec::Frame(data.take(n as int), n)
            }
        },
        _ => next_prefixed(data, max, f),
    }
}

/// Every frame parsed out of `data`, when the whole input is well formed
/// under `f` and bound `max`; `None` as soon as one read would fail.
pub open spec fn decode_all(data: Seq<u8>, max: nat, f: Format) -> Option<Seq<Seq<u8>>>
    decreases data.len(),
{
    match buffer_next(data, max, f) {
        ReadSpec::End => Some(Seq::empty()),
        ReadSpec::Frame(p, n) => {
            if n == 0 || n > data.len() {
                None
            } else {
                match decode_all(data.skip(n as int), max, f) {
                    Some(rest) => Some(seq![p] + rest),
                    None => None,
                }
            }
        },
        _ => None,
    }
}

/// Round trip: a sequence of records written under a length-prefixed
/// format is decoded back exactly, in order, by any reader whose bound
/// admits every record. Holds for the empty sequence and for zero-length
/// records.
pub proof fn lemma_round_trip(records: Seq<Seq<u8>>, max: nat, f: Format)
    requires
        f != Format::Chunk,
        forall|i: int| 0 <= i < records.len() ==> #[trigger] records[i].len() <= max,
        forall|i: int| 0 <= i < records.len() ==> encodable(#[trigger] records[i], f),
    ensures
        decode_all(encode_records(records, f), max, f) == Some(records),
    decreases records.len(),
{
    let w = prefix_width(f);
    if records.len() == 0 {
        assert(encode_records(records, f).len() == 0);
        assert(decode_all(encode_records(records, f), max, f) == Some(Seq::<Seq<u8>>::empty()));
        assert(records =~= Seq::<Seq<u8>>::empty());
    } else {
        let head = records[0];
        let rest = records.skip(1);
        let enc = encode_records(records, f);
        let hdr = be_bytes(head.len(), w);
        lemma_be_bytes_len(head.len(), w);
        assert(enc == (hdr + head) + encode_records(rest, f));
        assert(enc.len() == w + head.len() + encode_records(rest, f).len());
        assert(enc.take(w as int) =~= hdr);
        lemma_be_round_trip(head.len(), w);
        assert(be_value(enc.take(w as int)) == head.len());
        assert(enc.subrange(w as int, (w + head.len()) as int) =~= head);
        assert(buffer_next(enc, max, f) == ReadSpec::Frame(head, (w + head.len()) as nat));
        assert(enc.skip((w + head.len()) as int) =~= encode_records(rest, f));
        assert(forall|i: int| 0 <= i < rest.len() ==> #[trigger] rest[i].len() <= max);
        assert(forall|i: int| 0 <= i < rest.len() ==> encodable(#[trigger] rest[i], f));
        lemma_round_trip(rest, max, f);
        assert(seq![head] + rest =~= records);
    }
}

/// The chunks a reader of capacity `cap` pulls, one per read, out of `data`.
pub open spec fn read_all_chunks(data: Seq<u8>, cap: nat) -> Seq<Seq<u8>>
    decreases data.len(),
    when cap >= 1
{
    if data.len() == 0 {
        Seq::empty()
    } else {
        let n = if cap < data.len() {
            cap
        } else {
            data.len()
        };
        seq![data.take(n as int)] + read_all_chunks(data.skip(n as int), cap)
    }
}

/// Reading chunks at any positive capacity loses and reorders nothing.
pub proof fn lemma_chunks_flatten(data: Seq<u8>, cap: nat)
    requires
        cap >= 1,
    ensures
        read_all_chunks(data, cap).flatten() == data,
    decreases data.len(),
{
    if data.len() == 0 {
        assert(read_all_chunks(data, cap).flatten() =~= data);
    } else {
        let n = if cap < data.len() {
            cap as int
        } else {
            data.len() as int
        };
        let parts = read_all_chunks(data, cap);
        lemma_chunks_flatten(data.skip(n), cap);
        assert(parts.first() == data.take(n));
        assert(parts.drop_first() =~= read_all_chunks(data.skip(n), cap));
        assert(parts.flatten() =~= data.take(n) + data.skip(n));
        assert(data.take(n) + data.skip(n) =~= data);
    }
}

/// Chunk-mode writing appends exactly the payload bytes, nothing more.
pub proof fn lemma_chunk_write_transparent(records: Seq<Seq<u8>>)
    ensures
        encode_records(records, Format::Chunk) == records.flatten(),
    decreases records.len(),
{
    if records.len() == 0 {
        assert(encode_records(records, Format::Chunk) =~= records.flatten());
    } else {
        lemma_chunk_write_transparent(records.skip(1));
        assert(encode_record(records[0], Format::Chunk) =~= records[0]);
        assert(records.drop_first() =~= records.skip(1));
        assert(encode_records(records, Format::Chunk) =~= records.flatten());
    }
}

/// Chunk reconstruction: text written as chunks of any sizes and read back
/// at any positive capacity reassembles to exactly the original bytes.
pub proof fn lemma_chunk_reconstruction(written: Seq<Seq<u8>>, cap: nat)
    requires
        cap >= 1,
    ensures
        read_all_chunks(encode_records(written, Format::Chunk), cap).flatten() == written.flatten(),
{
    lemma_chunk_write_transparent(written);
    lemma_chunks_flatten(written.flatten(), cap);
}

/// Cross-backend agreement: the buffer reader and the stream reader decode
/// any input identically under the length-prefixed formats, and in chunk
/// mode whenever the configured maximum does not exceed the stream reader's
/// scratch cap. The two writers agree by construction: both state their
/// output as `encode_records`.
pub proof fn lemma_cross_backend_read(data: Seq<u8>, max: nat, f: Format)
    requires
        f == Format::Chunk ==> 1 <= max <= 8192,
    ensures
        buffer_next(data, max, f) == stream_next(data, max, f),
{
}

} // verus!
