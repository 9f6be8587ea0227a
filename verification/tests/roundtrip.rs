//! Round-trip coverage shared across backends: buffer-to-buffer,
//! memory-stream-to-memory-stream, and every cross-backend pairing.

use recframe::{
    BufferRecordReader, BufferRecordWriter, Format, IoRecordReader, IoRecordWriter, MemorySink,
    MemorySource, RecordReader, RecordWriter,
};

fn test_general<WF, RF, W, R>(format: Format, wf: WF, rf: RF)
where
    WF: Fn(Format) -> W,
    RF: Fn(W, Format, usize) -> R,
    W: RecordWriter,
    R: RecordReader,
{
    match format {
        Format::Chunk => test_chunks(wf, rf),
        Format::Record => test_records(wf, rf, format),
        Format::Record32 => test_records(wf, rf, format),
    }
}

fn test_records_toobig<WF, RF, W, R>(wf: WF, rf: RF)
where
    WF: Fn(Format) -> W,
    RF: Fn(W, Format, usize) -> R,
    W: RecordWriter,
    R: RecordReader,
{
    let words = record_vector(&["123456789"]);
    let mut w = wf(Format::Record);
    write_records(&mut w, &words);
    assert!(rf(w, Format::Record, 5).maybe_read_record().is_err());
}

fn test_records<WF, RF, W, R>(wf: WF, rf: RF, format: Format)
where
    WF: Fn(Format) -> W,
    RF: Fn(W, Format, usize) -> R,
    W: RecordWriter,
    R: RecordReader,
{
    for words in &[
        Vec::new(),
        record_vector(&[""]),
        record_vector(&["so, hi"]),
        record_vector(&["hello", "world", "", " ", "a", "a", "abba"]),
    ] {
        let mut w = wf(format);
        let max_read_size = words.iter().map(String::len).max().unwrap_or(0);
        write_records(&mut w, words);
        assert_eq!(read_records(&mut rf(w, format, max_read_size)), *words);
    }
}

fn test_chunks<WF, RF, W, R>(wf: WF, rf: RF)
where
    WF: Fn(Format) -> W,
    RF: Fn(W, Format, usize) -> R,
    W: RecordWriter,
    R: RecordReader,
{
    for data in &[
        "I am having a good day",
        "",
        " ",
        "\n",
        "a",
        "This is a long string of text to test chunking thoroughly enough and I'm not feeling creative.",
    ] {
        let sizes = &[1, 2, 3, 5, 7, 10, 21, 1000];
        for write_size in sizes {
            for read_size in sizes {
                let mut w = wf(Format::Chunk);
                write_chunks(&mut w, data, *write_size);
                assert_eq!(&read_chunks(&mut rf(w, Format::Chunk, *read_size), *read_size), data);
            }
        }
    }
}

fn write_chunks<RW: RecordWriter>(rw: &mut RW, mut data: &str, max_write_size: usize) {
    while !data.is_empty() {
        let write_size = std::cmp::min(max_write_size, data.len());
        rw.write_record(data[..write_size].as_bytes()).unwrap();
        data = &data[write_size..];
    }
}

fn read_chunks<RR: RecordReader>(rr: &mut RR, max_read_size: usize) -> String {
    let mut s = String::default();
    while let Some(record) = rr.maybe_read_record().unwrap() {
        assert!(record.len() <= max_read_size);
        s.push_str(std::str::from_utf8(&record).unwrap());
    }
    s
}

fn record_vector(records: &[&str]) -> Vec<String> {
    records.iter().map(|s| s.to_string()).collect()
}

fn read_records<RR: RecordReader>(rr: &mut RR) -> Vec<String> {
    let mut records = Vec::new();
    while let Some(record) = rr.maybe_read_record().unwrap() {
        records.push(std::str::from_utf8(&record).unwrap().to_string());
    }
    records
}

fn write_records<RW: RecordWriter>(rw: &mut RW, records: &[String]) {
    for record in records.iter() {
        rw.write_record(record.as_bytes()).unwrap();
    }
}

fn buffer_buffer(format: Format) {
    test_general(
        format,
        |format| BufferRecordWriter::new(format),
        |writer, format, max_read_size| {
            BufferRecordReader::from_vec(writer.into_cow(), format, max_read_size)
        },
    );
}

#[test]
fn buffer_buffer_records() {
    buffer_buffer(Format::Record)
}

#[test]
fn buffer_buffer_chunks() {
    buffer_buffer(Format::Chunk)
}

#[test]
fn buffer_buffer_records32() {
    buffer_buffer(Format::Record32)
}

fn stream_stream(format: Format) {
    test_general(
        format,
        |format| IoRecordWriter::new(MemorySink::new(), format),
        |writer, format, max_read_size| {
            let bytes = writer.into_inner().into_vec();
            IoRecordReader::from_read(MemorySource::new(bytes), format, max_read_size)
        },
    );
}

#[test]
fn stream_stream_records() {
    stream_stream(Format::Record)
}

#[test]
fn stream_stream_chunks() {
    stream_stream(Format::Chunk)
}

fn stream_buffer(format: Format) {
    test_general(
        format,
        |format| IoRecordWriter::new(MemorySink::new(), format),
        |writer, format, max_read_size| {
            BufferRecordReader::from_vec(writer.into_inner().into_vec(), format, max_read_size)
        },
    );
}

#[test]
fn stream_buffer_records() {
    stream_buffer(Format::Record)
}

#[test]
fn stream_buffer_chunks() {
    stream_buffer(Format::Chunk)
}

fn buffer_stream(format: Format) {
    let writer = |format| BufferRecordWriter::new(format);
    let reader = |w: BufferRecordWriter, format, max_read_size| {
        IoRecordReader::from_read(MemorySource::new(w.into_cow()), format, max_read_size)
    };
    test_general(format, writer, reader);
    test_records_toobig(writer, reader);
}

#[test]
fn buffer_stream_records() {
    buffer_stream(Format::Record)
}

#[test]
fn buffer_stream_chunks() {
    buffer_stream(Format::Chunk)
}

/// The two writer backends lay out identical bytes for the same records,
/// and the two reader backends decode those bytes identically, for every
/// format and several record shapes.
#[test]
fn cross_backend_same_bytes_same_records() {
    let cases: &[&[&str]] = &[
        &[],
        &[""],
        &["x"],
        &["hello", "world", "", "  ", "a", "a", "abba"],
    ];
    for format in [Format::Record, Format::Record32, Format::Chunk] {
        for words in cases {
            let mut bw = BufferRecordWriter::new(format);
            let mut sw = IoRecordWriter::new(MemorySink::new(), format);
            for wrd in words.iter() {
                bw.write_record(wrd.as_bytes()).unwrap();
                sw.write_record(wrd.as_bytes()).unwrap();
            }
            let b_bytes = bw.into_cow();
            let s_bytes = sw.into_inner().into_vec();
            assert_eq!(b_bytes, s_bytes);

            let max = words.iter().map(|w| w.len()).max().unwrap_or(1);
            let mut from_buf = read_records(&mut BufferRecordReader::from_vec(
                b_bytes.clone(),
                format,
                max,
            ));
            let from_stream = read_records(&mut IoRecordReader::from_read(
                MemorySource::new(b_bytes),
                format,
                max,
            ));
            assert_eq!(from_buf, from_stream);
            if format != Format::Chunk {
                let expected: Vec<String> = words.iter().map(|s| s.to_string()).collect();
                assert_eq!(from_buf, expected);
            } else {
                let expected: String = words.concat();
                assert_eq!(from_buf.drain(..).collect::<String>(), expected);
            }
        }
    }
}

/// The concrete scenario: seven strings under Record32 through a buffer,
/// read back with a maximum record size of five.
#[test]
fn record32_buffer_scenario() {
    let words = ["hello", "world", "", "  ", "a", "a", "abba"];
    let mut w = BufferRecordWriter::new(Format::Record32);
    for wrd in words {
        w.write_record(wrd.as_bytes()).unwrap();
    }
    let mut r = BufferRecordReader::from_vec(w.into_cow(), Format::Record32, 5);
    for wrd in words {
        let got = r.maybe_read_record().unwrap().unwrap();
        assert_eq!(got, wrd.as_bytes());
    }
    assert!(r.maybe_read_record().unwrap().is_none());
}
