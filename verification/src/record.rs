//! Records cut out of a growing buffer.
//!
//! A record is four lines: a header, the sequence, a separator and the
//! qualities, each ended by a line feed. A record is complete once its
//! fourth line feed has arrived. Complete records are taken from the front
//! of the buffer in the order of arrival; whatever follows the last complete
//! record stays in the buffer for the next call.
//!
//! Of a record the sequence and quality lines are read as text. A record is
//! malformed where one of the two is not valid UTF-8 or where the quality
//! line holds only white space. Extraction stops in front of a malformed
//! record and consumes nothing of it.

use crate::format::{classify, classify_spec, gz_head, Classification, FileType, MIN_PREFIX_LEN};
use crate::text::{trimmed_bytes, trimmed_len, trimmed_text};
use vstd::prelude::*;
use vstd::slice::slice_subrange;
use vstd::utf8::valid_utf8;

verus! {

/// The byte that ends a line.
pub const LINE_FEED: u8 = 0x0a;

/// What is kept of one record.
#[derive(Debug, Clone, PartialEq, Eq)]
pub struct Record {
    /// The length in bytes of the sequence line without the white space at
    /// its ends.
    pub length: usize,
    /// The bytes of the quality line without the white space at its ends:
    /// one quality per base, as encoded.
    pub quality: Vec<u8>,
}

/// A record as a value of the model.
pub struct RecordView {
    pub length: nat,
    pub quality: Seq<u8>,
}

impl View for Record {
    type V = RecordView;

    open spec fn view(&self) -> RecordView {
        RecordView { length: self.length as nat, quality: self.quality@ }
    }
}

/// Why no records were handed out.
#[derive(Debug, Clone, Copy, PartialEq, Eq, Structural)]
pub enum StreamError {
    /// The stream's first bytes match no known format. This is final.
    UnknownFormat,
    /// The stream's format is known, and records of it cannot be extracted.
    UnsupportedFormat,
    /// The record at the front of the buffer is complete and malformed.
    MalformedRecord,
}

/// The views of some records.
pub open spec fn views(records: Seq<Record>) -> Seq<RecordView> {
    Seq::new(records.len(), |i: int| records[i]@)
}

/// The number of bytes in front of the first line feed; the length of the
/// buffer where it holds none.
pub open spec fn line_len(buf: Seq<u8>) -> nat
    decreases buf.len(),
{
    if buf.len() == 0 || buf[0] == LINE_FEED {
        0
    } else {
        1 + line_len(buf.drop_first())
    }
}

/// The buffer holds a line feed, and so a whole line.
pub open spec fn has_line(buf: Seq<u8>) -> bool {
    line_len(buf) < buf.len()
}

/// The first line, without its line feed.
pub open spec fn first_line(buf: Seq<u8>) -> Seq<u8> {
    buf.subrange(0, line_len(buf) as int)
}

/// What follows the first line and its line feed.
pub open spec fn after_line(buf: Seq<u8>) -> Seq<u8> {
    buf.subrange(line_len(buf) as int + 1, buf.len() as int)
}

/// The buffer starts with four whole lines.
pub open spec fn has_record(buf: Seq<u8>) -> bool {
    &&& has_line(buf)
    &&& has_line(after_line(buf))
    &&& has_line(after_line(after_line(buf)))
    &&& has_line(after_line(after_line(after_line(buf))))
}

/// The second of the first four lines.
pub open spec fn record_sequence(buf: Seq<u8>) -> Seq<u8> {
    first_line(after_line(buf))
}

/// The fourth of the first four lines.
pub open spec fn record_quality(buf: Seq<u8>) -> Seq<u8> {
    first_line(after_line(after_line(after_line(buf))))
}

/// What follows the first four lines.
pub open spec fn after_record(buf: Seq<u8>) -> Seq<u8> {
    after_line(after_line(after_line(after_line(buf))))
}

/// A sequence line and a quality line make a record: both are text, and the
/// quality line holds more than white space.
pub open spec fn well_formed(sequence: Seq<u8>, quality: Seq<u8>) -> bool {
    valid_utf8(sequence) && valid_utf8(quality) && trimmed_text(quality).len() > 0
}

/// The record that a sequence line and a quality line make.
pub open spec fn record_of(sequence: Seq<u8>, quality: Seq<u8>) -> RecordView {
    RecordView { length: trimmed_text(sequence).len(), quality: trimmed_text(quality) }
}

/// The buffer starts with a complete record that is well formed.
pub open spec fn starts_with_record(buf: Seq<u8>) -> bool {
    has_record(buf) && well_formed(record_sequence(buf), record_quality(buf))
}

/// The buffer starts with a complete record that is malformed.
pub open spec fn starts_malformed(buf: Seq<u8>) -> bool {
    has_record(buf) && !well_formed(record_sequence(buf), record_quality(buf))
}

/// A whole line and what follows it are shorter than the buffer.
pub proof fn lemma_after_line_shorter(buf: Seq<u8>)
    requires
        has_line(buf),
    ensures
        after_line(buf).len() == buf.len() - line_len(buf) - 1,
{
}

/// What follows a record is shorter than the buffer.
pub proof fn lemma_after_record_shorter(buf: Seq<u8>)
    requires
        has_record(buf),
    ensures
        after_record(buf).len() < buf.len(),
{
    lemma_after_line_shorter(buf);
    lemma_after_line_shorter(after_line(buf));
    lemma_after_line_shorter(after_line(after_line(buf)));
    lemma_after_line_shorter(after_line(after_line(after_line(buf))));
}

/// The records at the front of the buffer, in order: every complete record
/// up to the first malformed one or the end.
pub open spec fn records_of(buf: Seq<u8>) -> Seq<RecordView>
    decreases buf.len(),
{
    if starts_with_record(buf) {
        proof {
            lemma_after_record_shorter(buf);
        }
        seq![record_of(record_sequence(buf), record_quality(buf))] + records_of(
            after_record(buf),
        )
    } else {
        Seq::empty()
    }
}

/// What is left of the buffer once the records at its front are taken.
pub open spec fn unconsumed(buf: Seq<u8>) -> Seq<u8>
    decreases buf.len(),
{
    if starts_with_record(buf) {
        proof {
            lemma_after_record_shorter(buf);
        }
        unconsumed(after_record(buf))
    } else {
        buf
    }
}

/// The first line feed is where no byte before is one.
pub proof fn lemma_line_len_is(buf: Seq<u8>, end: int)
    requires
        0 <= end <= buf.len(),
        forall|i: int| 0 <= i < end ==> buf[i] != LINE_FEED,
        end < buf.len() ==> buf[end] == LINE_FEED,
    ensures
        line_len(buf) == end,
    decreases end,
{
    if end > 0 {
        let rest = buf.drop_first();
        assert forall|i: int| 0 <= i < end - 1 implies rest[i] != LINE_FEED by {
            assert(rest[i] == buf[i + 1]);
        }
        lemma_line_len_is(rest, end - 1);
    }
}

/// Bytes that arrive behind a whole line change neither the line nor, but
/// for coming behind it, what follows the line.
pub proof fn lemma_line_concat(a: Seq<u8>, b: Seq<u8>)
    requires
        has_line(a),
    ensures
        has_line(a + b),
        line_len(a + b) == line_len(a),
        first_line(a + b) == first_line(a),
        after_line(a + b) == after_line(a) + b,
    decreases a.len(),
{
    if a[0] != LINE_FEED {
        lemma_line_concat(a.drop_first(), b);
        assert((a + b).drop_first() =~= a.drop_first() + b);
    }
    assert(first_line(a + b) =~= first_line(a));
    assert(after_line(a + b) =~= after_line(a) + b);
}

/// Bytes that arrive behind a complete record change neither the record
/// nor, but for coming behind it, what follows the record.
pub proof fn lemma_record_concat(a: Seq<u8>, b: Seq<u8>)
    requires
        has_record(a),
    ensures
        has_record(a + b),
        record_sequence(a + b) == record_sequence(a),
        record_quality(a + b) == record_quality(a),
        after_record(a + b) == after_record(a) + b,
{
    let a1 = after_line(a);
    let a2 = after_line(a1);
    let a3 = after_line(a2);
    lemma_line_concat(a, b);
    lemma_line_concat(a1, b);
    lemma_line_concat(a2, b);
    lemma_line_concat(a3, b);
}

/// Feeding in two parts, and taking records after each, hands out the same
/// records and leaves the same bytes as feeding the whole at once.
pub proof fn lemma_chunked(a: Seq<u8>, b: Seq<u8>)
    ensures
        records_of(a + b) == records_of(a) + records_of(unconsumed(a) + b),
        unconsumed(a + b) == unconsumed(unconsumed(a) + b),
    decreases a.len(),
{
    if starts_with_record(a) {
        lemma_record_concat(a, b);
        lemma_after_record_shorter(a);
        lemma_chunked(after_record(a), b);
        let first = seq![record_of(record_sequence(a), record_quality(a))];
        assert(records_of(a + b) == first + records_of(after_record(a) + b));
        assert(first + (records_of(after_record(a)) + records_of(unconsumed(a) + b)) =~= (first
            + records_of(after_record(a))) + records_of(unconsumed(a) + b));
    } else {
        assert(Seq::<RecordView>::empty() + records_of(a + b) =~= records_of(a + b));
    }
}

/// Feeding in three parts, cut at any two places, and taking records after
/// each part hands out the same records and leaves the same bytes as feeding
/// the whole at once.
pub proof fn lemma_chunked_twice(a: Seq<u8>, b: Seq<u8>, c: Seq<u8>)
    ensures
        records_of(a + b + c) == records_of(a) + records_of(unconsumed(a) + b) + records_of(
            unconsumed(unconsumed(a) + b) + c,
        ),
        unconsumed(a + b + c) == unconsumed(unconsumed(unconsumed(a) + b) + c),
{
    lemma_chunked(a + b, c);
    lemma_chunked(a, b);
}

/// Taking records a second time, with nothing fed in between, finds none.
pub proof fn lemma_drained(buf: Seq<u8>)
    ensures
        records_of(unconsumed(buf)) == Seq::<RecordView>::empty(),
        unconsumed(unconsumed(buf)) == unconsumed(buf),
        !starts_with_record(unconsumed(buf)),
    decreases buf.len(),
{
    if starts_with_record(buf) {
        lemma_after_record_shorter(buf);
        lemma_drained(after_record(buf));
    }
}

/// The format that a stream has after a look at its buffer: as it was where
/// it had been decided, and else decided by the first [`MIN_PREFIX_LEN`]
/// bytes as soon as that many are there.
pub open spec fn sniffed(format: Classification, pending: Seq<u8>) -> Classification {
    if format is Deferred && pending.len() >= MIN_PREFIX_LEN {
        let prefix = pending.subrange(0, MIN_PREFIX_LEN as int);
        classify_spec(prefix, gz_head(prefix))
    } else {
        format
    }
}

/// What a stream of the given format holds after records were taken.
pub open spec fn pending_after(format: Classification, pending: Seq<u8>) -> Seq<u8> {
    if format == Classification::Known(FileType::Fastq) {
        unconsumed(pending)
    } else {
        pending
    }
}

/// What taking records gives on a stream of the given format.
pub open spec fn outcome(format: Classification, pending: Seq<u8>) -> Result<
    Seq<RecordView>,
    StreamError,
> {
    match format {
        Classification::Deferred => Ok(Seq::empty()),
        Classification::Unknown => Err(StreamError::UnknownFormat),
        Classification::Known(FileType::Fastq) => if starts_malformed(pending) {
            Err(StreamError::MalformedRecord)
        } else {
            Ok(records_of(pending))
        },
        Classification::Known(_) => Err(StreamError::UnsupportedFormat),
    }
}

/// The view of what taking records returned.
pub open spec fn outcome_view(r: Result<Vec<Record>, StreamError>) -> Result<
    Seq<RecordView>,
    StreamError,
> {
    match r {
        Ok(records) => Ok(views(records@)),
        Err(e) => Err(e),
    }
}

/// Once a stream holds enough bytes its format is decided by them alone:
/// bytes that arrive later do not change it, and a decided format stays.
pub proof fn lemma_sniff_stable(a: Seq<u8>, b: Seq<u8>)
    requires
        a.len() >= MIN_PREFIX_LEN,
    ensures
        sniffed(Classification::Deferred, a + b) == sniffed(Classification::Deferred, a),
        !(sniffed(Classification::Deferred, a) is Deferred),
        sniffed(sniffed(Classification::Deferred, a), a + b) == sniffed(
            Classification::Deferred,
            a,
        ),
{
    assert((a + b).subrange(0, MIN_PREFIX_LEN as int) =~= a.subrange(0, MIN_PREFIX_LEN as int));
}

/// The records that an outcome hands out: none where it is an error.
pub open spec fn handed_out(r: Result<Seq<RecordView>, StreamError>) -> Seq<RecordView> {
    match r {
        Ok(records) => records,
        Err(_) => Seq::empty(),
    }
}

/// The format of a stream after bytes were fed to it and records taken.
pub open spec fn fed_format(format: Classification, pending: Seq<u8>, bytes: Seq<u8>) -> Classification {
    sniffed(format, pending + bytes)
}

/// What a stream holds after bytes were fed to it and records taken.
pub open spec fn fed_pending(format: Classification, pending: Seq<u8>, bytes: Seq<u8>) -> Seq<u8> {
    pending_after(fed_format(format, pending, bytes), pending + bytes)
}

/// The records that a stream hands out when bytes are fed to it and
/// records taken.
pub open spec fn fed_records(format: Classification, pending: Seq<u8>, bytes: Seq<u8>) -> Seq<
    RecordView,
> {
    handed_out(outcome(fed_format(format, pending, bytes), pending + bytes))
}

/// Feeding a stream in two parts, and taking records after each, leaves it
/// in the same state and hands out the same records, in the same order, as
/// feeding it the two parts in one piece. This holds of every stream,
/// whatever its format and whatever it holds, and wherever the cut falls.
pub proof fn lemma_feeding_in_parts(
    format: Classification,
    pending: Seq<u8>,
    a: Seq<u8>,
    b: Seq<u8>,
)
    ensures
        fed_format(fed_format(format, pending, a), fed_pending(format, pending, a), b)
            == fed_format(format, pending, a + b),
        fed_pending(fed_format(format, pending, a), fed_pending(format, pending, a), b)
            == fed_pending(format, pending, a + b),
        fed_records(format, pending, a) + fed_records(
            fed_format(format, pending, a),
            fed_pending(format, pending, a),
            b,
        ) == fed_records(format, pending, a + b),
{
    let first = pending + a;
    let whole = pending + (a + b);
    assert(first + b =~= whole);
    let f1 = fed_format(format, pending, a);
    if format is Deferred && first.len() >= MIN_PREFIX_LEN {
        lemma_sniff_stable(first, b);
    }
    assert(fed_format(format, pending, a + b) == sniffed(f1, whole));
    let none = Seq::<RecordView>::empty();
    if f1 == Classification::Known(FileType::Fastq) {
        lemma_chunked(first, b);
    } else {
        assert(none + fed_records(format, pending, a + b) =~= fed_records(
            format,
            pending,
            a + b,
        ));
        assert(fed_records(format, pending, a) == none);
    }
}

/// The end of the line that starts at `from`: the place of its line feed, or
/// the end of the buffer.
fn find_line_end(buf: &[u8], from: usize) -> (end: usize)
    requires
        from <= buf@.len(),
    ensures
        from <= end <= buf@.len(),
        end == from + line_len(buf@.subrange(from as int, buf@.len() as int)),
{
    let mut end = from;
    while end < buf.len() && buf[end] != LINE_FEED
        invariant
            from <= end <= buf@.len(),
            forall|i: int| from <= i < end ==> buf@[i] != LINE_FEED,
        decreases buf@.len() - end,
    {
        end = end + 1;
    }
    proof {
        let tail = buf@.subrange(from as int, buf@.len() as int);
        assert forall|i: int| 0 <= i < end - from implies tail[i] != LINE_FEED by {
            assert(tail[i] == buf@[from + i]);
        }
        lemma_line_len_is(tail, end - from);
    }
    end
}

/// Where the parts of the record at the front of a buffer lie.
struct RecordSpan {
    sequence_start: usize,
    sequence_end: usize,
    quality_start: usize,
    quality_end: usize,
    /// Where the bytes behind the record start.
    next: usize,
}

/// Finds the record that starts at `from`, if a complete one is there.
fn locate_record(buf: &[u8], from: usize) -> (r: Option<RecordSpan>)
    requires
        from <= buf@.len(),
    ensures
        r is Some <==> has_record(buf@.subrange(from as int, buf@.len() as int)),
        r matches Some(span) ==> {
            let tail = buf@.subrange(from as int, buf@.len() as int);
            &&& from <= span.sequence_start <= span.sequence_end < span.quality_start
                <= span.quality_end < span.next <= buf@.len()
            &&& buf@.subrange(span.sequence_start as int, span.sequence_end as int)
                == record_sequence(tail)
            &&& buf@.subrange(span.quality_start as int, span.quality_end as int)
                == record_quality(tail)
            &&& buf@.subrange(span.next as int, buf@.len() as int) == after_record(tail)
        },
{
    let len = buf.len();
    let ghost whole = buf@;
    let ghost t0 = whole.subrange(from as int, len as int);
    let e0 = find_line_end(buf, from);
    if e0 >= len {
        return None;
    }
    let ghost t1 = whole.subrange(e0 + 1, len as int);
    assert(after_line(t0) =~= t1);
    let e1 = find_line_end(buf, e0 + 1);
    if e1 >= len {
        return None;
    }
    let ghost t2 = whole.subrange(e1 + 1, len as int);
    assert(after_line(t1) =~= t2);
    assert(first_line(t1) =~= whole.subrange(e0 + 1, e1 as int));
    let e2 = find_line_end(buf, e1 + 1);
    if e2 >= len {
        return None;
    }
    let ghost t3 = whole.subrange(e2 + 1, len as int);
    assert(after_line(t2) =~= t3);
    let e3 = find_line_end(buf, e2 + 1);
    if e3 >= len {
        return None;
    }
    let ghost t4 = whole.subrange(e3 + 1, len as int);
    assert(after_line(t3) =~= t4);
    assert(first_line(t3) =~= whole.subrange(e2 + 1, e3 as int));
    Some(
        RecordSpan {
            sequence_start: e0 + 1,
            sequence_end: e1,
            quality_start: e2 + 1,
            quality_end: e3,
            next: e3 + 1,
        },
    )
}

/// Reads a sequence line and a quality line as a record.
///
/// Gives a record exactly where the two lines are well formed.
pub fn parse_record(sequence: &[u8], quality: &[u8]) -> (r: Option<Record>)
    ensures
        r is Some <==> well_formed(sequence@, quality@),
        r matches Some(record) ==> record@ == record_of(sequence@, quality@),
{
    let length = match trimmed_len(sequence) {
        Some(n) => n,
        None => { return None; },
    };
    let quality = match trimmed_bytes(quality) {
        Some(q) => q,
        None => { return None; },
    };
    if quality.len() == 0 {
        None
    } else {
        Some(Record { length, quality })
    }
}

/// A buffer of bytes that arrive in pieces, and the records cut from it.
pub struct RecordStream {
    buffer: Vec<u8>,
    format: Classification,
}

impl RecordStream {
    /// The bytes that arrived and belong to no record handed out yet.
    pub closed spec fn pending(&self) -> Seq<u8> {
        self.buffer@
    }

    /// The stream's format: deferred until it has been decided.
    pub closed spec fn format(&self) -> Classification {
        self.format
    }

    /// A stream whose format will be decided by its first bytes.
    pub fn new() -> (stream: RecordStream)
        ensures
            stream.pending() == Seq::<u8>::empty(),
            stream.format() == Classification::Deferred,
    {
        RecordStream { buffer: Vec::new(), format: Classification::Deferred }
    }

    /// A stream of a format that is known beforehand.
    pub fn with_format(format: FileType) -> (stream: RecordStream)
        ensures
            stream.pending() == Seq::<u8>::empty(),
            stream.format() == Classification::Known(format),
    {
        RecordStream { buffer: Vec::new(), format: Classification::Known(format) }
    }

    /// The stream's format as far as it has been decided.
    pub fn classification(&self) -> (c: Classification)
        ensures
            c == self.format(),
    {
        self.format
    }

    /// The number of bytes held back.
    pub fn pending_len(&self) -> (n: usize)
        ensures
            n == self.pending().len(),
    {
        self.buffer.len()
    }

    /// Appends bytes that arrived. Nothing else changes.
    pub fn feed(&mut self, bytes: &[u8])
        ensures
            final(self).pending() == old(self).pending() + bytes@,
            final(self).format() == old(self).format(),
    {
        let mut i: usize = 0;
        while i < bytes.len()
            invariant
                i <= bytes@.len(),
                self.format == old(self).format,
                self.buffer@ == old(self).buffer@ + bytes@.subrange(0, i as int),
            decreases bytes@.len() - i,
        {
            self.buffer.push(bytes[i]);
            i = i + 1;
            assert(self.buffer@ =~= old(self).buffer@ + bytes@.subrange(0, i as int));
        }
        assert(bytes@.subrange(0, i as int) =~= bytes@);
    }

    /// Decides the format where it is still open and enough bytes are there.
    fn sniff(&mut self)
        ensures
            final(self).pending() == old(self).pending(),
            final(self).format() == sniffed(old(self).format(), old(self).pending()),
    {
        match self.format {
            Classification::Deferred => {
                if self.buffer.len() >= MIN_PREFIX_LEN {
                    let prefix = slice_subrange(self.buffer.as_slice(), 0, MIN_PREFIX_LEN);
                    self.format = classify(prefix);
                }
            },
            _ => {},
        }
    }

    /// Takes the complete records from the front of the buffer.
    ///
    /// The format is decided first, once, as soon as [`MIN_PREFIX_LEN`]
    /// bytes are there; until then nothing is handed out and nothing is an
    /// error. On a stream of sequences with qualities every complete record
    /// up to the first malformed one is handed out, in order, and leaves the
    /// buffer; the rest stays. Where the record at the front is malformed
    /// that is the error, and the buffer stays as it is. On any other format
    /// the buffer stays as it is, too.
    pub fn drain_complete_records(&mut self) -> (r: Result<Vec<Record>, StreamError>)
        ensures
            final(self).format() == sniffed(old(self).format(), old(self).pending()),
            final(self).pending() == pending_after(final(self).format(), old(self).pending()),
            outcome_view(r) == outcome(final(self).format(), old(self).pending()),
    {
        self.sniff();
        match self.format {
            Classification::Deferred => {
                let none: Vec<Record> = Vec::new();
                assert(views(none@) =~= Seq::<RecordView>::empty());
                Ok(none)
            },
            Classification::Unknown => Err(StreamError::UnknownFormat),
            Classification::Known(FileType::Fastq) => self.take_records(),
            Classification::Known(_) => Err(StreamError::UnsupportedFormat),
        }
    }

    /// Takes the complete records from the front of the buffer of a stream
    /// of sequences with qualities.
    fn take_records(&mut self) -> (r: Result<Vec<Record>, StreamError>)
        ensures
            final(self).format() == old(self).format(),
            final(self).pending() == unconsumed(old(self).pending()),
            starts_malformed(old(self).pending()) ==> r == Err::<Vec<Record>, StreamError>(
                StreamError::MalformedRecord,
            ),
            !starts_malformed(old(self).pending()) ==> r is Ok && views(r->Ok_0@) == records_of(
                old(self).pending(),
            ),
    {
        let ghost whole = self.buffer@;
        let mut out: Vec<Record> = Vec::new();
        let mut pos: usize = 0;
        let mut open = true;
        let mut malformed = false;
        assert(whole.subrange(0, whole.len() as int) =~= whole);
        assert(views(out@) =~= Seq::<RecordView>::empty());
        assert(Seq::<RecordView>::empty() + records_of(whole) =~= records_of(whole));
        while open
            invariant
                self.buffer@ == whole,
                self.format == old(self).format,
                pos <= whole.len(),
                (pos == 0) == (out@.len() == 0),
                open ==> !malformed,
                views(out@) + records_of(whole.subrange(pos as int, whole.len() as int))
                    == records_of(whole),
                unconsumed(whole.subrange(pos as int, whole.len() as int)) == unconsumed(whole),
                !open ==> !starts_with_record(whole.subrange(pos as int, whole.len() as int)),
                !open ==> (malformed <==> starts_malformed(
                    whole.subrange(pos as int, whole.len() as int),
                )),
            decreases whole.len() - pos, open as int,
        {
            let ghost tail = whole.subrange(pos as int, whole.len() as int);
            let buf = self.buffer.as_slice();
            match locate_record(buf, pos) {
                None => {
                    open = false;
                },
                Some(span) => {
                    let sequence = slice_subrange(buf, span.sequence_start, span.sequence_end);
                    let quality = slice_subrange(buf, span.quality_start, span.quality_end);
                    match parse_record(sequence, quality) {
                        None => {
                            open = false;
                            malformed = true;
                        },
                        Some(record) => {
                            proof {
                                let first = seq![record@];
                                let rest = records_of(after_record(tail));
                                assert(records_of(tail) == first + rest);
                                assert(views(out@.push(record)) =~= views(out@) + first);
                                assert((views(out@) + first) + rest =~= views(out@) + (first
                                    + rest));
                            }
                            out.push(record);
                            pos = span.next;
                        },
                    }
                },
            }
        }
        let ghost tail = whole.subrange(pos as int, whole.len() as int);
        assert(views(out@) + Seq::<RecordView>::empty() =~= views(out@));
        let rest = self.buffer.split_off(pos);
        self.buffer = rest;
        if malformed && pos == 0 {
            Err(StreamError::MalformedRecord)
        } else {
            proof {
                if starts_malformed(whole) {
                    assert(pos > 0);
                    assert(records_of(whole) == Seq::<RecordView>::empty());
                    assert(views(out@).len() == out@.len());
                }
            }
            Ok(out)
        }
    }

    /// Drops the record at the front of the buffer, whatever it holds, if a
    /// complete one is there. This is how a malformed record is passed over.
    /// Tells whether a record was dropped.
    pub fn skip_record(&mut self) -> (skipped: bool)
        ensures
            final(self).format() == old(self).format(),
            skipped == has_record(old(self).pending()),
            skipped ==> final(self).pending() == after_record(old(self).pending()),
            !skipped ==> final(self).pending() == old(self).pending(),
    {
        assert(self.buffer@.subrange(0, self.buffer@.len() as int) =~= self.buffer@);
        match locate_record(self.buffer.as_slice(), 0) {
            None => false,
            Some(span) => {
                let rest = self.buffer.split_off(span.next);
                self.buffer = rest;
                true
            },
        }
    }
}

} // verus!
