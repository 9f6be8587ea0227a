//! Hashing decorator behavior: records pass through unchanged, and the
//! final digest depends on exactly the ordered concatenation of observed
//! payload bytes, whatever the framing.

use recframe::{
    BufferRecordReader, BufferRecordWriter, Format, HashAccumulator, HashingRecordReader,
    HashingRecordWriter, PolyAccumulator, RecordReader, RecordWriter,
};

fn digest_of_bytes(bytes: &[u8]) -> u64 {
    let mut acc = PolyAccumulator::new();
    acc.update(bytes);
    acc.digest()
}

#[test]
fn hashing_reader_passes_records_through() {
    let words = ["alpha", "beta", "", "gamma"];
    let mut w = BufferRecordWriter::new(Format::Record32);
    for wrd in words {
        w.write_record(wrd.as_bytes()).unwrap();
    }
    let bytes = w.into_cow();

    let plain: Vec<Vec<u8>> = {
        let mut r = BufferRecordReader::from_vec(bytes.clone(), Format::Record32, 16);
        let mut seen = Vec::new();
        while let Some(rec) = r.maybe_read_record().unwrap() {
            seen.push(rec);
        }
        seen
    };

    let inner = BufferRecordReader::from_vec(bytes, Format::Record32, 16);
    let mut hr = HashingRecordReader::new(inner, PolyAccumulator::new()).unwrap();
    let mut decorated = Vec::new();
    while let Some(rec) = hr.maybe_read_record().unwrap() {
        decorated.push(rec);
    }
    assert_eq!(decorated, plain);
}

#[test]
fn hashing_reader_digest_is_digest_of_payload_concatenation() {
    let words = ["one", "two", "three"];
    let mut w = BufferRecordWriter::new(Format::Record);
    for wrd in words {
        w.write_record(wrd.as_bytes()).unwrap();
    }
    let inner = BufferRecordReader::from_vec(w.into_cow(), Format::Record, 8);
    let mut hr = HashingRecordReader::new(inner, PolyAccumulator::new()).unwrap();
    while hr.maybe_read_record().unwrap().is_some() {}
    let (_, acc) = hr.into_parts();
    // Only payload bytes enter the digest, never the length prefixes.
    assert_eq!(acc.digest(), digest_of_bytes(b"onetwothree"));
}

#[test]
fn hashing_writer_digest_is_digest_of_payload_concatenation() {
    let words = ["pea", "nut"];
    let inner = BufferRecordWriter::new(Format::Record32);
    let mut hw = HashingRecordWriter::new(inner, PolyAccumulator::new()).unwrap();
    for wrd in words {
        hw.write_record(wrd.as_bytes()).unwrap();
    }
    hw.flush().unwrap();
    let (inner, acc) = hw.into_parts();
    assert_eq!(acc.digest(), digest_of_bytes(b"peanut"));

    // The decorated writer produced exactly what the bare writer would.
    let mut bare = BufferRecordWriter::new(Format::Record32);
    for wrd in words {
        bare.write_record(wrd.as_bytes()).unwrap();
    }
    assert_eq!(inner.into_cow(), bare.into_cow());
}

#[test]
fn digest_matches_across_framings() {
    // The accumulator sees only payload bytes, so the framing format does
    // not change the digest.
    let words = ["ab", "cde", "f"];
    let mut digests = Vec::new();
    for format in [Format::Chunk, Format::Record, Format::Record32] {
        let inner = BufferRecordWriter::new(format);
        let mut hw = HashingRecordWriter::new(inner, PolyAccumulator::new()).unwrap();
        for wrd in words {
            hw.write_record(wrd.as_bytes()).unwrap();
        }
        let (_, acc) = hw.into_parts();
        digests.push(acc.digest());
    }
    assert_eq!(digests[0], digests[1]);
    assert_eq!(digests[1], digests[2]);
    assert_eq!(digests[0], digest_of_bytes(b"abcdef"));
}

#[test]
fn digest_depends_on_byte_order() {
    assert_ne!(digest_of_bytes(b"ab"), digest_of_bytes(b"ba"));
}

#[test]
fn end_of_stream_leaves_accumulator_untouched() {
    let inner = BufferRecordReader::from_vec(Vec::new(), Format::Record32, 8);
    let mut hr = HashingRecordReader::new(inner, PolyAccumulator::new()).unwrap();
    assert_eq!(hr.maybe_read_record(), Ok(None));
    assert_eq!(hr.maybe_read_record(), Ok(None));
    let (_, acc) = hr.into_parts();
    assert_eq!(acc.digest(), PolyAccumulator::new().digest());
}

#[test]
fn poly_digest_concrete_value() {
    // One byte: the digest is the byte itself; two bytes: base-31 fold.
    assert_eq!(digest_of_bytes(&[7]), 7);
    assert_eq!(digest_of_bytes(&[2, 5]), 2 * 31 + 5);
    assert_eq!(digest_of_bytes(&[]), 0);
}
