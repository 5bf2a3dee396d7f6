//! Container formats and how a stream's format is recognised from its first bytes.
//!
//! Recognition looks at signature bytes in a fixed order of priority. Only the
//! last rule needs more than a comparison: a binary alignment file is a gzip
//! stream whose decompressed contents start with a magic value.

use flate2::read::GzDecoder;
use std::io::Read;
use vstd::prelude::*;

verus! {

/// The container formats that can be recognised.
#[derive(Debug, Clone, Copy, PartialEq, Eq, Structural)]
pub enum FileType {
    /// Plain-text sequences; the first byte is `>`.
    Fasta,
    /// Plain-text sequences with qualities; the first byte is `@`.
    Fastq,
    /// Text alignments; the first bytes are `@HD`.
    Sam,
    /// Binary alignments in a gzip stream that decompresses to `BAM...`.
    Bam,
    /// Reference-compressed binary alignments; the first bytes are `CRAM`.
    Cram,
}

/// Why a buffer could not be given a format.
#[derive(Debug, Clone, Copy, PartialEq, Eq, Structural)]
pub enum FileFormatDetectionError {
    /// No signature matched.
    UnknownFileType,
}

/// The outcome of looking at a stream's first bytes.
#[derive(Debug, Clone, Copy, PartialEq, Eq, Structural)]
pub enum Classification {
    /// Too few bytes have arrived to decide; ask again with more.
    Deferred,
    /// The stream has this format.
    Known(FileType),
    /// Enough bytes arrived and no signature matched. This is final.
    Unknown,
}

/// The least number of bytes that a prefix must hold before it is classified.
/// A gzip member's header and its first deflate block fit in this many bytes.
pub const MIN_PREFIX_LEN: usize = 100;

/// The first three bytes of a decompressed binary alignment file.
pub open spec fn bam_magic() -> Seq<u8> {
    seq![0x42u8, 0x41u8, 0x4du8]
}

/// The first byte is `>`.
pub open spec fn has_fasta_mark(buf: Seq<u8>) -> bool {
    buf.len() >= 1 && buf[0] == 0x3e
}

/// The first three bytes are `@HD`.
pub open spec fn has_sam_mark(buf: Seq<u8>) -> bool {
    buf.len() >= 3 && buf[0] == 0x40 && buf[1] == 0x48 && buf[2] == 0x44
}

/// The first byte is `@`.
pub open spec fn has_fastq_mark(buf: Seq<u8>) -> bool {
    buf.len() >= 1 && buf[0] == 0x40
}

/// The first four bytes are `CRAM`.
pub open spec fn has_cram_mark(buf: Seq<u8>) -> bool {
    buf.len() >= 4 && buf[0] == 0x43 && buf[1] == 0x52 && buf[2] == 0x41 && buf[3] == 0x4d
}

/// What reading three bytes from `data`, taken as one gzip member, gives:
/// the three bytes, or `None` where the header is not a gzip header or the
/// stream ends or is corrupt before three bytes have come out.
pub uninterp spec fn gz_head(data: Seq<u8>) -> Option<Seq<u8>>;

/// The format that the signature rules give to `buf`, where `head` is what
/// decompressing `buf` yielded. The rules are tried in this order; the
/// decompressed magic counts only for a buffer of at least
/// [`MIN_PREFIX_LEN`] bytes.
pub open spec fn detect_spec(buf: Seq<u8>, head: Option<Seq<u8>>) -> Result<
    FileType,
    FileFormatDetectionError,
> {
    if has_fasta_mark(buf) {
        Ok(FileType::Fasta)
    } else if has_sam_mark(buf) {
        Ok(FileType::Sam)
    } else if has_fastq_mark(buf) {
        Ok(FileType::Fastq)
    } else if has_cram_mark(buf) {
        Ok(FileType::Cram)
    } else if buf.len() >= MIN_PREFIX_LEN && head == Some(bam_magic()) {
        Ok(FileType::Bam)
    } else {
        Err(FileFormatDetectionError::UnknownFileType)
    }
}

/// The classification of a prefix: deferred while it is shorter than
/// [`MIN_PREFIX_LEN`], and by the signature rules from then on.
pub open spec fn classify_spec(prefix: Seq<u8>, head: Option<Seq<u8>>) -> Classification {
    if prefix.len() < MIN_PREFIX_LEN {
        Classification::Deferred
    } else {
        match detect_spec(prefix, head) {
            Ok(t) => Classification::Known(t),
            Err(_) => Classification::Unknown,
        }
    }
}

/// The view of an optional three-byte head.
pub open spec fn head_view(head: Option<[u8; 3]>) -> Option<Seq<u8>> {
    match head {
        Some(h) => Some(h@),
        None => None,
    }
}

/// Calls `flate2::read::GzDecoder::new` on the bytes and `read_exact` for
/// three bytes on the decoder. The contract only names the outcome: the
/// decoder is a function of the bytes it is given, and what it yields is
/// [`gz_head`] of them.
#[verifier::external_body]
fn read_gz_head(data: &[u8]) -> (head: Option<[u8; 3]>)
    ensures
        head_view(head) == gz_head(data@),
{
    let mut out = [0u8; 3];
    match GzDecoder::new(data).read_exact(&mut out) {
        Ok(()) => Some(out),
        Err(_) => None,
    }
}

fn is_fasta(buf: &[u8]) -> (b: bool)
    ensures
        b == has_fasta_mark(buf@),
{
    buf.len() >= 1 && buf[0] == 0x3e
}

fn is_sam(buf: &[u8]) -> (b: bool)
    ensures
        b == has_sam_mark(buf@),
{
    buf.len() >= 3 && buf[0] == 0x40 && buf[1] == 0x48 && buf[2] == 0x44
}

fn is_fastq(buf: &[u8]) -> (b: bool)
    ensures
        b == has_fastq_mark(buf@),
{
    buf.len() >= 1 && buf[0] == 0x40
}

fn is_cram(buf: &[u8]) -> (b: bool)
    ensures
        b == has_cram_mark(buf@),
{
    buf.len() >= 4 && buf[0] == 0x43 && buf[1] == 0x52 && buf[2] == 0x41 && buf[3] == 0x4d
}

fn is_bam_magic(head: &Option<[u8; 3]>) -> (b: bool)
    ensures
        b == (head_view(*head) == Some(bam_magic())),
{
    match head {
        Some(h) => {
            let b = h[0] == 0x42 && h[1] == 0x41 && h[2] == 0x4d;
            proof {
                if b {
                    assert(h@ =~= bam_magic());
                } else {
                    assert(h@[0] != bam_magic()[0] || h@[1] != bam_magic()[1] || h@[2]
                        != bam_magic()[2]);
                }
            }
            b
        },
        None => false,
    }
}

/// Applies the signature rules to `buf`, given what decompressing it yielded.
///
/// This is the whole decision; [`detect_filetype`] only adds the
/// decompression.
pub fn detect_with_head(buf: &[u8], head: Option<[u8; 3]>) -> (r: Result<
    FileType,
    FileFormatDetectionError,
>)
    ensures
        r == detect_spec(buf@, head_view(head)),
{
    if is_fasta(buf) {
        Ok(FileType::Fasta)
    } else if is_sam(buf) {
        Ok(FileType::Sam)
    } else if is_fastq(buf) {
        Ok(FileType::Fastq)
    } else if is_cram(buf) {
        Ok(FileType::Cram)
    } else if buf.len() >= MIN_PREFIX_LEN && is_bam_magic(&head) {
        Ok(FileType::Bam)
    } else {
        Err(FileFormatDetectionError::UnknownFileType)
    }
}

/// Detects the format of a buffer from its first bytes. Nothing is consumed.
///
/// A buffer too short to hold a signature does not match it, so every buffer,
/// the empty one too, gets an answer.
pub fn detect_filetype(buf: &[u8]) -> (r: Result<FileType, FileFormatDetectionError>)
    ensures
        r == detect_spec(buf@, gz_head(buf@)),
        has_fasta_mark(buf@) ==> r == Ok::<FileType, FileFormatDetectionError>(FileType::Fasta),
        has_sam_mark(buf@) ==> r == Ok::<FileType, FileFormatDetectionError>(FileType::Sam),
        has_fastq_mark(buf@) && !has_sam_mark(buf@) ==> r == Ok::<
            FileType,
            FileFormatDetectionError,
        >(FileType::Fastq),
        has_cram_mark(buf@) ==> r == Ok::<FileType, FileFormatDetectionError>(FileType::Cram),
{
    if is_fasta(buf) || is_fastq(buf) || is_cram(buf) || buf.len() < MIN_PREFIX_LEN {
        // No rule that applies here looks at the decompressed head.
        detect_with_head(buf, None)
    } else {
        detect_with_head(buf, read_gz_head(buf))
    }
}

/// Classifies a prefix, given what decompressing it yielded.
pub fn classify_with_head(prefix: &[u8], head: Option<[u8; 3]>) -> (c: Classification)
    ensures
        c == classify_spec(prefix@, head_view(head)),
{
    if prefix.len() < MIN_PREFIX_LEN {
        Classification::Deferred
    } else {
        match detect_with_head(prefix, head) {
            Ok(t) => Classification::Known(t),
            Err(_) => Classification::Unknown,
        }
    }
}

/// Classifies the first bytes of a stream. The prefix is only read.
///
/// A prefix shorter than [`MIN_PREFIX_LEN`] is deferred whatever it holds.
/// From that length on the answer is final: a format, or `Unknown`.
pub fn classify(prefix: &[u8]) -> (c: Classification)
    ensures
        c == classify_spec(prefix@, gz_head(prefix@)),
        prefix@.len() < MIN_PREFIX_LEN <==> c == Classification::Deferred,
        prefix@.len() >= MIN_PREFIX_LEN && prefix@[0] == 0x3e ==> c == Classification::Known(
            FileType::Fasta,
        ),
        prefix@.len() >= MIN_PREFIX_LEN && has_sam_mark(prefix@) ==> c == Classification::Known(
            FileType::Sam,
        ),
        prefix@.len() >= MIN_PREFIX_LEN && prefix@[0] == 0x40 && !has_sam_mark(prefix@) ==> c
            == Classification::Known(FileType::Fastq),
        prefix@.len() >= MIN_PREFIX_LEN && has_cram_mark(prefix@) ==> c == Classification::Known(
            FileType::Cram,
        ),
{
    if prefix.len() < MIN_PREFIX_LEN {
        Classification::Deferred
    } else {
        match detect_filetype(prefix) {
            Ok(t) => Classification::Known(t),
            Err(_) => Classification::Unknown,
        }
    }
}

} // verus!
