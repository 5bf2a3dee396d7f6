use seqstats::format::{Classification, FileType, MIN_PREFIX_LEN};
use seqstats::record::{parse_record, Record, RecordStream, StreamError, LINE_FEED};
use seqstats::text::{trim, trimmed_bytes, trimmed_len, white_space};

const TWO_READS: &[u8] = b"@r1\nACGT\n+\nIIII\n@r2\nAC\n+\nII\n";

fn record(length: usize, quality: &[u8]) -> Record {
    Record { length, quality: quality.to_vec() }
}

/// Feeds the pieces one by one and takes the records after each.
fn run(pieces: &[&[u8]]) -> (Vec<Record>, usize) {
    let mut stream = RecordStream::with_format(FileType::Fastq);
    let mut all = Vec::new();
    for piece in pieces {
        stream.feed(piece);
        all.extend(stream.drain_complete_records().unwrap());
    }
    (all, stream.pending_len())
}

#[test]
fn two_reads_in_one_piece() {
    let (records, left) = run(&[TWO_READS]);
    assert_eq!(records, vec![record(4, b"IIII"), record(2, b"II")]);
    assert_eq!(left, 0);
    let lengths: Vec<usize> = records.iter().map(|r| r.length).collect();
    assert_eq!(lengths, vec![4, 2]);
}

#[test]
fn every_split_gives_the_same_records() {
    let (whole, left) = run(&[TWO_READS]);
    for i in 0..=TWO_READS.len() {
        let (a, b) = TWO_READS.split_at(i);
        assert_eq!(run(&[a, b]), (whole.clone(), left), "split at {}", i);
    }
}

#[test]
fn every_two_splits_give_the_same_records() {
    let input: &[u8] = b"@r1\nACGT\n+\nIIII\n@r2\nAC\n+\nII\n@r3\nGG";
    let whole = run(&[input]);
    assert_eq!(whole.0.len(), 2);
    assert_eq!(whole.1, 6);
    for i in 0..=input.len() {
        for j in i..=input.len() {
            let pieces = [&input[..i], &input[i..j], &input[j..]];
            assert_eq!(run(&pieces), whole, "splits at {} and {}", i, j);
        }
    }
}

#[test]
fn byte_by_byte() {
    let pieces: Vec<&[u8]> = TWO_READS.chunks(1).collect();
    assert_eq!(run(&pieces), run(&[TWO_READS]));
}

#[test]
fn an_open_record_waits() {
    let mut stream = RecordStream::with_format(FileType::Fastq);
    stream.feed(b"@r1\nACGT\n+\nIII");
    assert_eq!(stream.drain_complete_records(), Ok(vec![]));
    assert_eq!(stream.pending_len(), 14);
    stream.feed(b"I");
    assert_eq!(stream.drain_complete_records(), Ok(vec![]));
    stream.feed(b"\n@r2\nAC");
    assert_eq!(stream.drain_complete_records(), Ok(vec![record(4, b"IIII")]));
    assert_eq!(stream.pending_len(), 6);
    assert_eq!(stream.drain_complete_records(), Ok(vec![]));
    stream.feed(b"\n+\nII\n");
    assert_eq!(stream.drain_complete_records(), Ok(vec![record(2, b"II")]));
    assert_eq!(stream.pending_len(), 0);
}

#[test]
fn lines_are_trimmed() {
    let (records, _) = run(&[b"@r1\r\n  ACGT \r\n+\r\n\tII!I\r\n"]);
    assert_eq!(records, vec![record(4, b"II!I")]);
    let (records, _) = run(&[b"@r\n\n+\n#\n"]);
    assert_eq!(records, vec![record(0, b"#")]);
    let (records, _) = run(&["@r\nA\u{a0}C\u{3000}\n+\n\u{2003}5\u{e9}\u{85}\n".as_bytes()]);
    assert_eq!(records, vec![record(4, "5\u{e9}".as_bytes())]);
}

#[test]
fn header_and_separator_are_not_read() {
    let (records, left) = run(&[b"\xff\xfe\nAC\n\x80\nII\nrest"]);
    assert_eq!(records, vec![record(2, b"II")]);
    assert_eq!(left, 4);
}

#[test]
fn malformed_quality_bytes() {
    let mut stream = RecordStream::with_format(FileType::Fastq);
    stream.feed(b"@r1\nACGT\n+\nII\xffI\n@r2\nAC\n+\nII\n");
    assert_eq!(stream.drain_complete_records(), Err(StreamError::MalformedRecord));
    assert_eq!(stream.pending_len(), 28);
    assert_eq!(stream.drain_complete_records(), Err(StreamError::MalformedRecord));
    assert!(stream.skip_record());
    assert_eq!(stream.pending_len(), 12);
    assert_eq!(stream.drain_complete_records(), Ok(vec![record(2, b"II")]));
    assert!(!stream.skip_record());
}

#[test]
fn malformed_sequence_bytes() {
    let mut stream = RecordStream::with_format(FileType::Fastq);
    stream.feed(b"@r1\nAC\xc3\n+\nIIII\n");
    assert_eq!(stream.drain_complete_records(), Err(StreamError::MalformedRecord));
}

#[test]
fn empty_quality_is_malformed() {
    let mut stream = RecordStream::with_format(FileType::Fastq);
    stream.feed(b"@r1\nACGT\n+\n  \n");
    assert_eq!(stream.drain_complete_records(), Err(StreamError::MalformedRecord));
    let mut stream = RecordStream::with_format(FileType::Fastq);
    stream.feed(b"@r1\nACGT\n+\n\n");
    assert_eq!(stream.drain_complete_records(), Err(StreamError::MalformedRecord));
}

#[test]
fn records_before_a_malformed_one_come_out() {
    let mut stream = RecordStream::with_format(FileType::Fastq);
    stream.feed(b"@r1\nACGT\n+\nIIII\n@r2\nAC\n+\n\n@r3\nA\n+\nI\n");
    assert_eq!(stream.drain_complete_records(), Ok(vec![record(4, b"IIII")]));
    assert_eq!(stream.drain_complete_records(), Err(StreamError::MalformedRecord));
    assert!(stream.skip_record());
    assert_eq!(stream.drain_complete_records(), Ok(vec![record(1, b"I")]));
}

#[test]
fn malformed_does_not_depend_on_the_split() {
    let input: &[u8] = b"@r1\nACGT\n+\nIIII\n@r2\nAC\n+\n\xff\n@r3\nA\n+\nI\n";
    for i in 0..=input.len() {
        let mut stream = RecordStream::with_format(FileType::Fastq);
        let mut records = Vec::new();
        for piece in [&input[..i], &input[i..]] {
            stream.feed(piece);
            if let Ok(found) = stream.drain_complete_records() {
                records.extend(found);
            }
        }
        assert_eq!(records, vec![record(4, b"IIII")]);
        assert_eq!(stream.drain_complete_records(), Err(StreamError::MalformedRecord));
        assert_eq!(stream.pending_len(), 21);
    }
}

#[test]
fn other_formats_are_unsupported() {
    for format in [FileType::Fasta, FileType::Sam, FileType::Bam, FileType::Cram] {
        let mut stream = RecordStream::with_format(format);
        stream.feed(b">r1\nACGT\n>r2\nAC\n+\nII\n");
        assert_eq!(stream.drain_complete_records(), Err(StreamError::UnsupportedFormat));
        assert_eq!(stream.pending_len(), 21);
        assert_eq!(stream.classification(), Classification::Known(format));
    }
}

#[test]
fn format_is_decided_once_enough_has_arrived() {
    let mut stream = RecordStream::new();
    assert_eq!(stream.classification(), Classification::Deferred);
    stream.feed(TWO_READS);
    assert_eq!(stream.drain_complete_records(), Ok(vec![]));
    assert_eq!(stream.classification(), Classification::Deferred);
    assert_eq!(stream.pending_len(), TWO_READS.len());
    stream.feed(TWO_READS);
    stream.feed(TWO_READS);
    assert!(stream.pending_len() < MIN_PREFIX_LEN);
    assert_eq!(stream.drain_complete_records(), Ok(vec![]));
    stream.feed(TWO_READS);
    assert!(stream.pending_len() >= MIN_PREFIX_LEN);
    let records = stream.drain_complete_records().unwrap();
    assert_eq!(records.len(), 8);
    assert_eq!(records[0], record(4, b"IIII"));
    assert_eq!(records[7], record(2, b"II"));
    assert_eq!(stream.classification(), Classification::Known(FileType::Fastq));
    assert_eq!(stream.pending_len(), 0);
    // Decided is decided: what arrives later is not looked at again.
    stream.feed(b">r1\nACGT\n+\nIIII\n");
    assert_eq!(stream.drain_complete_records(), Ok(vec![record(4, b"IIII")]));
    assert_eq!(stream.classification(), Classification::Known(FileType::Fastq));
}

#[test]
fn unknown_format_is_final() {
    let mut stream = RecordStream::new();
    stream.feed(&[b'x'; 100]);
    assert_eq!(stream.drain_complete_records(), Err(StreamError::UnknownFormat));
    assert_eq!(stream.classification(), Classification::Unknown);
    stream.feed(TWO_READS);
    assert_eq!(stream.drain_complete_records(), Err(StreamError::UnknownFormat));
    assert_eq!(stream.pending_len(), 100 + TWO_READS.len());
}

#[test]
fn sniffed_fasta_is_unsupported() {
    let mut stream = RecordStream::new();
    let mut input = b">r1\n".to_vec();
    input.extend(vec![b'A'; 200]);
    stream.feed(&input);
    assert_eq!(stream.drain_complete_records(), Err(StreamError::UnsupportedFormat));
    assert_eq!(stream.classification(), Classification::Known(FileType::Fasta));
    assert_eq!(stream.pending_len(), 204);
}

#[test]
fn parse_one_record() {
    assert_eq!(parse_record(b"ACGT", b"IIII"), Some(record(4, b"IIII")));
    assert_eq!(parse_record(b" ACGT\r", b"II\r"), Some(record(4, b"II")));
    assert_eq!(parse_record(b"", b"I"), Some(record(0, b"I")));
    assert_eq!(parse_record(b"ACGT", b""), None);
    assert_eq!(parse_record(b"ACGT", b" \t"), None);
    assert_eq!(parse_record(b"AC\xff", b"II"), None);
    assert_eq!(parse_record(b"AC", b"\xc0\x80"), None);
    assert_eq!(LINE_FEED, b'\n');
}

#[test]
fn white_space_is_what_std_says() {
    for code in 0..=0x10ffffu32 {
        if let Some(c) = char::from_u32(code) {
            assert_eq!(white_space(c), c.is_whitespace(), "U+{:04X}", code);
        }
    }
}

#[test]
fn trim_is_what_std_does() {
    let samples = [
        "",
        " ",
        "a",
        " a",
        "a ",
        "  a b  ",
        "\t\r\n",
        "\u{b}x\u{c}",
        "\u{a0}\u{1680}x y\u{2000}\u{200a}\u{2028}\u{2029}\u{202f}\u{205f}\u{3000}",
        "\u{200b}x\u{200b}",
        "\u{e9}t\u{e9} ",
        " \u{1f600} ",
        "ACGT\r",
    ];
    for s in samples {
        assert_eq!(trim(s), s.trim(), "{:?}", s);
        assert_eq!(trimmed_len(s.as_bytes()), Some(s.trim().len()));
        assert_eq!(trimmed_bytes(s.as_bytes()), Some(s.trim().as_bytes().to_vec()));
    }
}

#[test]
fn text_that_does_not_decode() {
    for bad in [&b"\xff"[..], b"ab\x80", b"\xc3", b"\xe2\x82", b"\xed\xa0\x80", b"\xc0\xaf"] {
        assert_eq!(trimmed_len(bad), None);
        assert_eq!(trimmed_bytes(bad), None);
    }
}
