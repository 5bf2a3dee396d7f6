use flate2::write::GzEncoder;
use flate2::Compression;
use seqstats::format::{
    classify, classify_with_head, detect_filetype, detect_with_head, Classification,
    FileFormatDetectionError, FileType, MIN_PREFIX_LEN,
};
use std::io::Write;

/// `head` followed by filler bytes up to `len`.
fn padded(head: &[u8], len: usize) -> Vec<u8> {
    let mut v = head.to_vec();
    while v.len() < len {
        v.push(b'A');
    }
    v
}

/// A gzip member that holds `payload` followed by bytes that do not compress.
fn gzipped(payload: &[u8]) -> Vec<u8> {
    let mut data = payload.to_vec();
    let mut x: u32 = 12345;
    for _ in 0..400 {
        x = x.wrapping_mul(1103515245).wrapping_add(12345);
        data.push((x >> 16) as u8);
    }
    let mut encoder = GzEncoder::new(Vec::new(), Compression::default());
    encoder.write_all(&data).unwrap();
    encoder.finish().unwrap()
}

#[test]
fn test_detect_filetype() {
    let fasta = b">test\nACGT";
    let fastq = b"@test\nACGT\n+\nIIII";
    let sam = b"@HD\tVN:1.6";
    let cram = b"CRAM";

    assert_eq!(detect_filetype(fasta).unwrap(), FileType::Fasta);
    assert_eq!(detect_filetype(fastq).unwrap(), FileType::Fastq);
    assert_eq!(detect_filetype(sam).unwrap(), FileType::Sam);
    assert_eq!(detect_filetype(cram).unwrap(), FileType::Cram);
}

#[test]
fn detect_short_signatures() {
    assert_eq!(detect_filetype(b">header\nACGT"), Ok(FileType::Fasta));
    assert_eq!(detect_filetype(b"CRAM...."), Ok(FileType::Cram));
    assert_eq!(detect_filetype(b">"), Ok(FileType::Fasta));
    assert_eq!(detect_filetype(b"@"), Ok(FileType::Fastq));
    assert_eq!(detect_filetype(b"@H"), Ok(FileType::Fastq));
    assert_eq!(detect_filetype(b"@HD"), Ok(FileType::Sam));
    assert_eq!(detect_filetype(b"@HX"), Ok(FileType::Fastq));
}

#[test]
fn detect_nothing_known() {
    let unknown = Err(FileFormatDetectionError::UnknownFileType);
    assert_eq!(detect_filetype(b""), unknown);
    assert_eq!(detect_filetype(b"C"), unknown);
    assert_eq!(detect_filetype(b"CRA"), unknown);
    assert_eq!(detect_filetype(b"hello"), unknown);
    assert_eq!(detect_filetype(&[0u8; 100]), unknown);
    assert_eq!(detect_filetype(&[0u8; 4096]), unknown);
}

#[test]
fn detect_bam_through_gzip() {
    let bam = gzipped(b"BAM\x01");
    assert!(bam.len() >= MIN_PREFIX_LEN);
    assert_eq!(detect_filetype(&bam), Ok(FileType::Bam));
    assert_eq!(classify(&bam), Classification::Known(FileType::Bam));
    assert_eq!(classify(&bam[..MIN_PREFIX_LEN]), Classification::Known(FileType::Bam));
}

#[test]
fn detect_gzip_of_something_else() {
    let other = gzipped(b"BAX\x01");
    assert!(other.len() >= MIN_PREFIX_LEN);
    assert_eq!(detect_filetype(&other), Err(FileFormatDetectionError::UnknownFileType));
    assert_eq!(classify(&other), Classification::Unknown);
}

#[test]
fn detect_bam_needs_enough_bytes() {
    let bam = gzipped(b"BAM\x01");
    assert_eq!(
        detect_filetype(&bam[..MIN_PREFIX_LEN - 1]),
        Err(FileFormatDetectionError::UnknownFileType)
    );
}

#[test]
fn detect_truncated_gzip() {
    // A gzip header and nothing behind it.
    let mut cut = vec![0x1f, 0x8b, 8, 0, 0, 0, 0, 0, 0, 255];
    assert_eq!(detect_filetype(&cut), Err(FileFormatDetectionError::UnknownFileType));
    while cut.len() < 10 {
        cut.push(0);
    }
    let long = {
        let mut v = cut.clone();
        v.truncate(10);
        v
    };
    assert_eq!(detect_filetype(&long), Err(FileFormatDetectionError::UnknownFileType));
}

#[test]
fn detect_with_given_head() {
    let buf = [0u8; 100];
    assert_eq!(detect_with_head(&buf, Some(*b"BAM")), Ok(FileType::Bam));
    assert_eq!(
        detect_with_head(&buf, Some(*b"BAX")),
        Err(FileFormatDetectionError::UnknownFileType)
    );
    assert_eq!(detect_with_head(&buf, None), Err(FileFormatDetectionError::UnknownFileType));
    assert_eq!(
        detect_with_head(&buf[..99], Some(*b"BAM")),
        Err(FileFormatDetectionError::UnknownFileType)
    );
    // The signature bytes come first.
    assert_eq!(detect_with_head(&padded(b">", 100), Some(*b"BAM")), Ok(FileType::Fasta));
    assert_eq!(detect_with_head(&padded(b"@HD", 100), Some(*b"BAM")), Ok(FileType::Sam));
    assert_eq!(detect_with_head(&padded(b"@x", 100), Some(*b"BAM")), Ok(FileType::Fastq));
    assert_eq!(detect_with_head(&padded(b"CRAM", 100), Some(*b"BAM")), Ok(FileType::Cram));
    assert_eq!(classify_with_head(&buf, Some(*b"BAM")), Classification::Known(FileType::Bam));
    assert_eq!(classify_with_head(&buf, None), Classification::Unknown);
    assert_eq!(classify_with_head(&buf[..99], Some(*b"BAM")), Classification::Deferred);
}

#[test]
fn classify_fasta_from_threshold_on() {
    for len in [MIN_PREFIX_LEN, MIN_PREFIX_LEN + 1, 1024, 5000] {
        assert_eq!(classify(&padded(b">seq1\nACGT\n", len)), Classification::Known(FileType::Fasta));
    }
}

#[test]
fn classify_sam_and_fastq() {
    assert_eq!(
        classify(&padded(b"@HD\tVN:1.6\n", MIN_PREFIX_LEN)),
        Classification::Known(FileType::Sam)
    );
    assert_eq!(
        classify(&padded(b"@r1\nACGT\n+\nIIII\n", MIN_PREFIX_LEN)),
        Classification::Known(FileType::Fastq)
    );
    assert_eq!(
        classify(&padded(b"@HC", MIN_PREFIX_LEN)),
        Classification::Known(FileType::Fastq)
    );
    assert_eq!(
        classify(&padded(b"CRAM\x03\x00", MIN_PREFIX_LEN)),
        Classification::Known(FileType::Cram)
    );
}

#[test]
fn classify_short_prefix_is_deferred() {
    assert_eq!(classify(b""), Classification::Deferred);
    assert_eq!(classify(b">header\nACGT"), Classification::Deferred);
    assert_eq!(classify(b"@HD"), Classification::Deferred);
    assert_eq!(classify(b"CRAM...."), Classification::Deferred);
    assert_eq!(classify(&padded(b">", MIN_PREFIX_LEN - 1)), Classification::Deferred);
    assert_eq!(classify(&[0u8; 99]), Classification::Deferred);
}

#[test]
fn classify_unknown_is_final() {
    assert_eq!(classify(&[0u8; 100]), Classification::Unknown);
    assert_eq!(classify(&padded(b"hello", 200)), Classification::Unknown);
}

#[test]
fn classify_leaves_the_prefix_alone() {
    let prefix = padded(b"@r1\nACGT\n", 150);
    let copy = prefix.clone();
    let _ = classify(&prefix);
    assert_eq!(prefix, copy);
}

#[test]
fn threshold_value() {
    assert_eq!(MIN_PREFIX_LEN, 100);
}
