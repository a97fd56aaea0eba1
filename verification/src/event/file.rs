//! Reading and writing a recorded session.
//!
//! A reader stops at the first record it cannot trust and reports what it
//! dropped. Three things end a read: a file that stops mid-record, a record
//! that does not decode, and a record whose sequence number is not the one its
//! position implies.
//!
//! Files are bytes here; opening them is the caller's business.
use vstd::prelude::*;

use super::codec::header::append;
use super::codec::{
    decode_record, encode_record, header, record, CodecError, LogHeader, RECORD_LEN,
};
use super::{Event, Record, SeqNo, FORMAT_VERSION};
use crate::text;
use crate::text::{Glyph, Text};

verus! {

/// Records buffered before a write reaches the file: the size of the tail a
/// crash can lose, in records.
pub const BUFFERED_RECORDS: usize = 256;

/// How much of a file is read before its header's length is known.
pub const PROBE_LEN: usize = 4_096;

/// Why a read stopped before the end of the file.
#[derive(Debug, Clone, Copy, PartialEq, Eq)]
pub enum StopReason {
    /// The file ends part-way through a record, because the process died while
    /// writing one.
    TornTail { partial_bytes: u64 },
    /// A record is not decodable: which position in the file, and what the
    /// codec said.
    Corrupt { index: u64, error: CodecError },
    /// A record's sequence number is not the one its position implies. The
    /// record is internally consistent and in the wrong place.
    SequenceGap { expected: SeqNo, found: SeqNo },
}

/// What a read salvaged, and what it could not.
#[derive(Debug, Clone, Copy, PartialEq, Eq)]
#[must_use]
pub struct Recovery {
    /// Records read successfully.
    pub records: u64,
    /// Bytes after the last intact record that were not read.
    pub discarded_bytes: u64,
    /// Why the read stopped, if it stopped early.
    pub stopped: Option<StopReason>,
}

/// What reading or writing a log refused.
#[derive(Debug, Clone, Copy, PartialEq, Eq)]
pub enum LogFileError {
    /// The bytes are not a well-formed log.
    Codec(CodecError),
    /// The file already exists. A recorded session is evidence, and creating a
    /// recorder never overwrites one.
    AlreadyExists,
    /// A read asked for a record past the end of the file.
    NoSuchRecord { seq: SeqNo, available: u64 },
    /// A read found damage and the caller asked for an intact log.
    Damaged(Recovery),
    /// A session's segments skip a number, so a file is missing: the segment
    /// that is not there, and a later one that is.
    MissingSegment { missing: u32, found: u32 },
}

/// A sequence number in words: `#` and the number.
pub open spec fn seq_words(seq: SeqNo) -> Seq<Glyph> {
    text::glyphs_of("#"@) + text::glyphs_of(text::digits(seq.0 as nat))
}

impl SeqNo {
    /// Appends the sequence number's text to `t`.
    pub fn write_to(self, t: &mut Text)
        ensures
            final(t)@ == old(t)@ + seq_words(self),
    {
        t.lit("#");
        t.number(self.raw() as u128);
        assert(t@ =~= old(t)@ + seq_words(self));
    }
}

impl Recovery {
    /// Whether the whole file was read with nothing dropped.
    pub open spec fn clean(self) -> bool {
        self.stopped is None && self.discarded_bytes == 0
    }

    /// Whether the whole file was read with nothing dropped.
    pub fn is_clean(&self) -> (clean: bool)
        ensures
            clean == self.clean(),
    {
        self.stopped.is_none() && self.discarded_bytes == 0
    }

    /// The recovery in words.
    pub open spec fn words(self) -> Seq<Glyph> {
        let count = text::glyphs_of(text::digits(self.records as nat));
        if self.clean() {
            count + text::glyphs_of(" records, intact"@)
        } else {
            count + text::glyphs_of(" records read, "@) + text::glyphs_of(
                text::digits(self.discarded_bytes as nat),
            ) + text::glyphs_of(" bytes discarded"@) + match self.stopped {
                Some(StopReason::TornTail { partial_bytes }) => text::glyphs_of(
                    "; the file ends "@,
                ) + text::glyphs_of(text::digits(partial_bytes as nat)) + text::glyphs_of(
                    " bytes into a record"@,
                ),
                Some(StopReason::Corrupt { index, error }) => text::glyphs_of("; record "@)
                    + text::glyphs_of(text::digits(index as nat)) + text::glyphs_of(
                    " did not decode: "@,
                ) + error.words(),
                Some(StopReason::SequenceGap { expected, found }) => text::glyphs_of(
                    "; expected "@,
                ) + seq_words(expected) + text::glyphs_of(" at that position, found "@)
                    + seq_words(found),
                None => Seq::empty(),
            }
        }
    }

    /// The recovery in words.
    pub fn text(&self) -> (text: Text)
        ensures
            text@ == self.words(),
    {
        let mut t = Text::new();
        t.number(self.records as u128);
        if self.is_clean() {
            t.lit(" records, intact");
            assert(t@ =~= self.words());
            return t;
        }
        t.lit(" records read, ");
        t.number(self.discarded_bytes as u128);
        t.lit(" bytes discarded");
        match &self.stopped {
            Some(StopReason::TornTail { partial_bytes }) => {
                t.lit("; the file ends ");
                t.number(*partial_bytes as u128);
                t.lit(" bytes into a record");
            },
            Some(StopReason::Corrupt { index, error }) => {
                t.lit("; record ");
                t.number(*index as u128);
                t.lit(" did not decode: ");
                t.join(&error.text());
            },
            Some(StopReason::SequenceGap { expected, found }) => {
                t.lit("; expected ");
                expected.write_to(&mut t);
                t.lit(" at that position, found ");
                found.write_to(&mut t);
            },
            None => {},
        }
        assert(t@ =~= self.words());
        t
    }
}

impl LogFileError {
    /// The refusal in words.
    pub open spec fn words(self) -> Seq<Glyph> {
        match self {
            LogFileError::Codec(e) => e.words(),
            LogFileError::AlreadyExists => text::glyphs_of("a log already exists at that path"@),
            LogFileError::NoSuchRecord { seq, available } => text::glyphs_of("no record at "@)
                + seq_words(seq) + text::glyphs_of("; the file holds "@) + text::glyphs_of(
                text::digits(available as nat),
            ),
            LogFileError::Damaged(recovery) => recovery.words(),
            LogFileError::MissingSegment { missing, found } => text::glyphs_of(
                "this session is missing segment "@,
            ) + text::glyphs_of(text::digits(missing as nat)) + text::glyphs_of(", but segment "@)
                + text::glyphs_of(text::digits(found as nat)) + text::glyphs_of(" is present"@),
        }
    }

    /// The refusal in words.
    pub fn text(&self) -> (text: Text)
        ensures
            text@ == self.words(),
    {
        let mut t = Text::new();
        match self {
            LogFileError::Codec(e) => {
                t.join(&e.text());
            },
            LogFileError::AlreadyExists => {
                t.lit("a log already exists at that path");
            },
            LogFileError::NoSuchRecord { seq, available } => {
                t.lit("no record at ");
                seq.write_to(&mut t);
                t.lit("; the file holds ");
                t.number(*available as u128);
            },
            LogFileError::Damaged(recovery) => {
                t.join(&recovery.text());
            },
            LogFileError::MissingSegment { missing, found } => {
                t.lit("this session is missing segment ");
                t.number(*missing as u128);
                t.lit(", but segment ");
                t.number(*found as u128);
                t.lit(" is present");
            },
        }
        assert(t@ =~= self.words());
        t
    }
}

/// The header that opening a file of these bytes finds. A probe is read first,
/// and the whole header once the probe has said how long it is.
#[verifier::opaque]
pub open spec fn opened_header(b: Seq<u8>) -> Result<header::HeaderView, CodecError> {
    let probe = b.take(
        if b.len() < PROBE_LEN {
            b.len() as int
        } else {
            PROBE_LEN as int
        },
    );
    match header::header_of(probe) {
        Err(CodecError::ShortBuffer { needed, found }) => if needed <= b.len() {
            header::header_of(b.take(needed as int))
        } else {
            Err(CodecError::ShortBuffer { needed, found })
        },
        decoded => decoded,
    }
}

/// The bytes of the record at `index`, records starting at `start`.
pub open spec fn slot(b: Seq<u8>, start: int, index: int) -> Seq<u8> {
    b.subrange(start + index * RECORD_LEN, start + index * RECORD_LEN + RECORD_LEN)
}

/// The sequence number that a body's first record carries, where it has one
/// that decodes.
pub open spec fn base_of(b: Seq<u8>, start: int, whole: int) -> Option<SeqNo> {
    if whole > 0 {
        match record::record_of(slot(b, start, 0)) {
            Ok(first) => Some(first.seq),
            Err(_) => None,
        }
    } else {
        None
    }
}

/// Where a file's sequence starts. Zero where that is not known.
pub open spec fn base_number(base: Option<SeqNo>) -> u64 {
    match base {
        Some(seq) => seq.0,
        None => 0,
    }
}

/// The sequence number that the position `index` of a file implies.
pub open spec fn number_at(base: u64, index: int) -> u64 {
    ((base + index) % 0x1_0000_0000_0000_0000) as u64
}

/// How many of the first `upto` records can be trusted: each decodes and
/// carries the sequence number its position implies.
pub open spec fn trusted(b: Seq<u8>, start: int, base: u64, upto: int) -> int
    decreases upto,
{
    if upto <= 0 {
        0
    } else {
        let before = trusted(b, start, base, upto - 1);
        if before < upto - 1 {
            before
        } else {
            match record::record_of(slot(b, start, upto - 1)) {
                Ok(r) => if r.seq.0 == number_at(base, upto - 1) {
                    upto
                } else {
                    before
                },
                Err(_) => before,
            }
        }
    }
}

/// The first `count` records.
pub open spec fn records_at(b: Seq<u8>, start: int, count: int) -> Seq<Record> {
    Seq::new(count as nat, |i: int| record::record_of(slot(b, start, i))->Ok_0)
}

/// Why a read of `whole` records and `partial` further bytes stops after
/// `read` of them.
pub open spec fn stop_after(
    b: Seq<u8>,
    start: int,
    base: u64,
    whole: int,
    partial: u64,
    read: int,
) -> Option<StopReason> {
    if read < whole {
        match record::record_of(slot(b, start, read)) {
            Ok(r) => Some(
                StopReason::SequenceGap { expected: SeqNo(number_at(base, read)), found: r.seq },
            ),
            Err(error) => Some(StopReason::Corrupt { index: read as u64, error }),
        }
    } else if partial > 0 {
        Some(StopReason::TornTail { partial_bytes: partial })
    } else {
        None
    }
}

proof fn trusted_stops(b: Seq<u8>, start: int, base: u64, at: int, upto: int)
    requires
        0 <= at < upto,
        trusted(b, start, base, at + 1) == at,
    ensures
        trusted(b, start, base, upto) == at,
    decreases upto,
{
    if upto > at + 1 {
        trusted_stops(b, start, base, at, upto - 1);
    }
}

/// Reads a recorded session back from the bytes of its file.
#[derive(Debug, Clone)]
pub struct LogReader<'a> {
    pub bytes: &'a [u8],
    pub header: LogHeader,
    /// Records the file has room for, ignoring any partial tail.
    pub whole_records: u64,
    /// Bytes of an incomplete final record, if the file was torn.
    pub partial_bytes: u64,
    /// The sequence number this file's first record carries: zero for a session
    /// that never crashed, something else for a segment continuing one that
    /// did. `None` when there is no honest answer.
    pub base: Option<SeqNo>,
}

/// The record in the 80 bytes from `at`.
fn block_at(bytes: &[u8], at: usize) -> (block: [u8; RECORD_LEN])
    requires
        at + RECORD_LEN <= bytes@.len(),
    ensures
        block@ == bytes@.subrange(at as int, at + RECORD_LEN),
{
    let total: usize = bytes.len();
    let mut block: [u8; RECORD_LEN] = [0;RECORD_LEN];
    let mut i: usize = 0;
    while i < RECORD_LEN
        invariant
            i <= RECORD_LEN,
            total == bytes@.len(),
            at + RECORD_LEN <= total,
            block@.len() == RECORD_LEN,
            forall|k: int| 0 <= k < i ==> block@[k] == bytes@[at + k],
        decreases RECORD_LEN - i,
    {
        block[i] = bytes[at + i];
        i += 1;
    }
    assert(block@ =~= bytes@.subrange(at as int, at + RECORD_LEN));
    block
}

impl<'a> LogReader<'a> {
    /// Where the records start.
    pub open spec fn start(self) -> int {
        header::header_len(self.header@.instruments.len()) as int
    }

    /// That the reader describes its bytes.
    pub open spec fn well_formed(self) -> bool {
        &&& self.header@.fits()
        &&& opened_header(self.bytes@) == Ok::<header::HeaderView, CodecError>(self.header@)
        &&& self.bytes@.len() == self.start() + self.whole_records * RECORD_LEN + self.partial_bytes
        &&& self.partial_bytes < RECORD_LEN
        &&& self.base == base_of(self.bytes@, self.start(), self.whole_records as int)
    }

    /// Opens a log and reads its header.
    pub fn open(bytes: &'a [u8]) -> (reader: Result<LogReader<'a>, LogFileError>)
        ensures
            match reader {
                Ok(r) => r.well_formed() && r.bytes@ == bytes@,
                Err(e) => opened_header(bytes@) matches Err(cause) && e == LogFileError::Codec(
                    cause,
                ),
            },
    {
        proof {
            reveal(opened_header);
        }
        let file_len: usize = bytes.len();
        let probe_len: usize = if file_len < PROBE_LEN {
            file_len
        } else {
            PROBE_LEN
        };
        let probe = vstd::slice::slice_subrange(bytes, 0, probe_len);
        assert(probe@ =~= bytes@.take(probe_len as int));
        let header = match LogHeader::decode(probe) {
            Ok(h) => {
                proof {
                    header::decoded_header_is_whole(probe@);
                }
                h
            },
            Err(CodecError::ShortBuffer { needed, found }) => {
                if needed > file_len {
                    return Err(LogFileError::Codec(CodecError::ShortBuffer { needed, found }));
                }
                let full = vstd::slice::slice_subrange(bytes, 0, needed);
                assert(full@ =~= bytes@.take(needed as int));
                match LogHeader::decode(full) {
                    Ok(h) => {
                        proof {
                            header::decoded_header_is_whole(full@);
                        }
                        h
                    },
                    Err(e) => {
                        return Err(LogFileError::Codec(e));
                    },
                }
            },
            Err(e) => {
                return Err(LogFileError::Codec(e));
            },
        };

        let start: usize = header.encoded_len();
        let body: usize = file_len - start;
        let whole: usize = body / RECORD_LEN;
        let partial: usize = body % RECORD_LEN;
        let base = if whole > 0 {
            let first = block_at(bytes, start);
            match decode_record(&first) {
                Ok(record) => Some(record.seq),
                Err(_) => None,
            }
        } else {
            None
        };
        Ok(
            LogReader {
                bytes,
                header,
                whole_records: whole as u64,
                partial_bytes: partial as u64,
                base,
            },
        )
    }

    /// What the session was recorded under.
    pub fn header(&self) -> (header: &LogHeader)
        ensures
            *header == self.header,
    {
        &self.header
    }

    /// How many whole records the file holds, before any are validated.
    pub fn record_capacity(&self) -> (count: u64)
        ensures
            count == self.whole_records,
    {
        self.whole_records
    }

    /// Where this file's sequence starts. Zero where that is not known.
    pub fn first_number(&self) -> (base: u64)
        ensures
            base == base_number(self.base),
    {
        match self.base {
            Some(seq) => seq.raw(),
            None => 0,
        }
    }

    /// Where the record at `index` stands.
    fn offset(&self, index: u64) -> (at: usize)
        requires
            self.well_formed(),
            index < self.whole_records,
        ensures
            at == self.start() + index * RECORD_LEN,
            at + RECORD_LEN <= self.bytes@.len(),
    {
        let len: usize = self.bytes.len();
        assert(index * RECORD_LEN + RECORD_LEN <= self.whole_records * RECORD_LEN)
            by (nonlinear_arith)
            requires
                index < self.whole_records,
                RECORD_LEN == 80,
        ;
        self.header.offset_of(index) as usize
    }

    /// Reads one record by sequence number: a seek and one read.
    pub fn read_at(&self, seq: SeqNo) -> (record: Result<Record, LogFileError>)
        requires
            self.well_formed(),
        ensures
            ({
                let index = seq.0 - base_number(self.base);
                if 0 <= index < self.whole_records {
                    match record::record_of(slot(self.bytes@, self.start(), index)) {
                        Ok(r) => record == Ok::<Record, LogFileError>(r),
                        Err(e) => record == Err::<Record, LogFileError>(LogFileError::Codec(e)),
                    }
                } else {
                    record == Err::<Record, LogFileError>(
                        LogFileError::NoSuchRecord { seq, available: self.whole_records },
                    )
                }
            }),
    {
        let base: u64 = self.first_number();
        if seq.raw() < base || seq.raw() - base >= self.whole_records {
            return Err(LogFileError::NoSuchRecord { seq, available: self.whole_records });
        }
        let index: u64 = seq.raw() - base;
        let block = block_at(self.bytes, self.offset(index));
        match decode_record(&block) {
            Ok(record) => Ok(record),
            Err(e) => Err(LogFileError::Codec(e)),
        }
    }

    /// Reads every record, stopping at the first one that cannot be trusted.
    ///
    /// Returns what was salvaged beside a [`Recovery`] describing what was not.
    /// A segment continuing a crashed session starts part-way through the
    /// sequence, so what is checked is that records are contiguous from
    /// wherever this file begins.
    pub fn read_all(&self) -> (read: (Vec<Record>, Recovery))
        requires
            self.well_formed(),
        ensures
            ({
                let base = base_number(self.base);
                let whole = self.whole_records as int;
                let count = trusted(self.bytes@, self.start(), base, whole);
                &&& 0 <= count <= whole
                &&& read.0@ == records_at(self.bytes@, self.start(), count)
                &&& read.1.records == count
                &&& read.1.discarded_bytes == (whole - count) * RECORD_LEN + self.partial_bytes
                &&& read.1.stopped == stop_after(
                    self.bytes@,
                    self.start(),
                    base,
                    whole,
                    self.partial_bytes,
                    count,
                )
            }),
    {
        let base: u64 = self.first_number();
        let whole: u64 = self.whole_records;
        let mut records: Vec<Record> = Vec::new();
        let mut stopped: Option<StopReason> = None;
        let mut index: u64 = 0;
        assert(records@ =~= records_at(self.bytes@, self.start(), 0));
        while index < whole && stopped.is_none()
            invariant
                self.well_formed(),
                whole == self.whole_records,
                base == base_number(self.base),
                index <= whole,
                records@.len() == index,
                records@ == records_at(self.bytes@, self.start(), index as int),
                trusted(self.bytes@, self.start(), base, index as int) == index,
                stopped is Some ==> {
                    &&& index < whole
                    &&& trusted(self.bytes@, self.start(), base, index + 1) == index
                    &&& stopped == stop_after(
                        self.bytes@,
                        self.start(),
                        base,
                        whole as int,
                        self.partial_bytes,
                        index as int,
                    )
                },
            decreases whole - index, (if stopped is None { 1int } else { 0int }),
        {
            let block = block_at(self.bytes, self.offset(index));
            match decode_record(&block) {
                Ok(record) => {
                    let expected = SeqNo::new(base.wrapping_add(index));
                    if record.seq != expected {
                        stopped = Some(StopReason::SequenceGap { expected, found: record.seq });
                    } else {
                        records.push(record);
                        index += 1;
                        assert(records@ =~= records_at(self.bytes@, self.start(), index as int));
                    }
                },
                Err(error) => {
                    stopped = Some(StopReason::Corrupt { index, error });
                },
            }
        }
        if stopped.is_none() && self.partial_bytes > 0 {
            stopped = Some(StopReason::TornTail { partial_bytes: self.partial_bytes });
        }
        proof {
            if index < whole {
                trusted_stops(self.bytes@, self.start(), base, index as int, whole as int);
            }
            assert((whole - index) * RECORD_LEN <= whole * RECORD_LEN) by (nonlinear_arith)
                requires
                    0 <= index <= whole,
                    RECORD_LEN == 80,
            ;
            assert((whole - index) * RECORD_LEN >= 0) by (nonlinear_arith)
                requires
                    0 <= index <= whole,
                    RECORD_LEN == 80,
            ;
        }
        let total: usize = self.bytes.len();
        let discarded: u64 = (whole - index) * RECORD_LEN as u64 + self.partial_bytes;
        (records, Recovery { records: index, discarded_bytes: discarded, stopped })
    }

    /// Reads every record, failing if anything had to be dropped.
    pub fn read_all_intact(&self) -> (read: Result<Vec<Record>, LogFileError>)
        requires
            self.well_formed(),
        ensures
            ({
                let base = base_number(self.base);
                let whole = self.whole_records as int;
                let count = trusted(self.bytes@, self.start(), base, whole);
                match read {
                    Ok(records) => {
                        &&& count == whole
                        &&& self.partial_bytes == 0
                        &&& records@ == records_at(self.bytes@, self.start(), whole)
                    },
                    Err(e) => {
                        &&& count < whole || self.partial_bytes > 0
                        &&& e matches LogFileError::Damaged(recovery)
                        &&& recovery.records == count
                        &&& recovery.discarded_bytes == (whole - count) * RECORD_LEN
                            + self.partial_bytes
                        &&& recovery.stopped == stop_after(
                            self.bytes@,
                            self.start(),
                            base,
                            whole,
                            self.partial_bytes,
                            count,
                        )
                    },
                }
            }),
    {
        let (records, recovery) = self.read_all();
        if recovery.is_clean() {
            Ok(records)
        } else {
            Err(LogFileError::Damaged(recovery))
        }
    }
}

/// Takes a session's records and hands out the bytes of its file.
///
/// Buffered: [`LogWriter::append_record`] encodes into memory, and the owner
/// writes the buffer to the file when told to or when it wants to. A crash
/// therefore loses at most [`LogWriter::unflushed`] records.
#[derive(Debug)]
pub struct LogWriter {
    pub header: LogHeader,
    pub next: u64,
    pub buffer: Vec<u8>,
}

impl LogWriter {
    /// That the buffer holds whole records.
    pub open spec fn well_formed(self) -> bool {
        &&& self.header@.fits()
        &&& self.buffer@.len() % RECORD_LEN as nat == 0
    }

    /// A writer for a new log.
    pub fn create(header: LogHeader) -> (writer: LogWriter)
        requires
            header@.fits(),
        ensures
            writer.well_formed(),
            writer.header == header,
            writer.next == 0,
            writer.buffer@ == Seq::<u8>::empty(),
    {
        LogWriter::create_at(header, SeqNo::first())
    }

    /// A writer for a log whose first record carries `first`: a session
    /// continued after a crash starts part-way through its own sequence.
    pub fn create_at(header: LogHeader, first: SeqNo) -> (writer: LogWriter)
        requires
            header@.fits(),
        ensures
            writer.well_formed(),
            writer.header == header,
            writer.next == first.0,
            writer.buffer@ == Seq::<u8>::empty(),
    {
        LogWriter { header, next: first.raw(), buffer: Vec::new() }
    }

    /// The bytes a file starts with.
    pub fn opening(&self) -> (bytes: Vec<u8>)
        requires
            self.well_formed(),
        ensures
            bytes@ == self.header@.encoded(),
    {
        let mut bytes: Vec<u8> = Vec::with_capacity(self.header.encoded_len());
        self.header.encode(&mut bytes);
        assert(bytes@ =~= self.header@.encoded());
        bytes
    }

    /// What the session was recorded under.
    pub fn header(&self) -> (header: &LogHeader)
        ensures
            *header == self.header,
    {
        &self.header
    }

    /// The sequence number the next record will get.
    pub fn records(&self) -> (next: u64)
        ensures
            next == self.next,
    {
        self.next
    }

    /// How many records are buffered and not yet in the file: the size of the
    /// tail a crash would lose right now.
    pub fn unflushed(&self) -> (count: usize)
        requires
            self.well_formed(),
        ensures
            count * RECORD_LEN == self.buffer@.len(),
    {
        self.buffer.len() / RECORD_LEN
    }

    /// Appends a record, returning the sequence number it was given and whether
    /// the buffer is now full and has to reach the file.
    pub fn append_record(&mut self, event: Event) -> (appended: (SeqNo, bool))
        requires
            old(self).well_formed(),
            old(self).next < u64::MAX,
        ensures
            final(self).well_formed(),
            final(self).header == old(self).header,
            final(self).next == old(self).next + 1,
            appended.0.0 == old(self).next,
            final(self).buffer@ == old(self).buffer@ + record::bytes_of(
                (Record { seq: appended.0, version: FORMAT_VERSION, event }),
            ),
            appended.1 == (final(self).buffer@.len() >= BUFFERED_RECORDS * RECORD_LEN),
    {
        let seq = SeqNo::new(self.next);
        let record = Record { seq, version: FORMAT_VERSION, event };
        let mut encoded: [u8; RECORD_LEN] = [0;RECORD_LEN];
        encode_record(&record, &mut encoded);
        append(&mut self.buffer, encoded.as_slice());
        self.next += 1;
        (seq, self.buffer.len() >= BUFFERED_RECORDS * RECORD_LEN)
    }

    /// What has to be written to the file next.
    pub fn unwritten(&self) -> (bytes: &[u8])
        ensures
            bytes@ == self.buffer@,
    {
        self.buffer.as_slice()
    }

    /// Notes whether everything buffered reached the file. Where it did not the
    /// buffer is left alone: a caller that retries still has the records.
    pub fn flushed(&mut self, written: bool)
        requires
            old(self).well_formed(),
        ensures
            final(self).well_formed(),
            final(self).header == old(self).header,
            final(self).next == old(self).next,
            final(self).buffer@ == if written {
                Seq::<u8>::empty()
            } else {
                old(self).buffer@
            },
    {
        if written {
            self.buffer.clear();
        }
    }
}

/// The bytes of several records.
pub open spec fn stream_of(records: Seq<Record>) -> Seq<u8>
    decreases records.len(),
{
    if records.len() == 0 {
        Seq::empty()
    } else {
        stream_of(records.drop_last()) + record::bytes_of(records.last())
    }
}

/// That records are numbered from `first` on without a gap, each of a format
/// this build reads.
pub open spec fn in_sequence(records: Seq<Record>, first: int) -> bool {
    forall|i: int|
        0 <= i < records.len() ==> (#[trigger] records[i]).seq.0 == first + i && records[i].version
            <= FORMAT_VERSION
}

proof fn stream_slot(records: Seq<Record>, i: int)
    requires
        forall|k: int| 0 <= k < records.len() ==> (#[trigger] records[k]).version <= FORMAT_VERSION,
    ensures
        stream_of(records).len() == records.len() * RECORD_LEN,
        0 <= i < records.len() ==> stream_of(records).subrange(
            i * RECORD_LEN,
            i * RECORD_LEN + RECORD_LEN,
        ) == record::bytes_of(records[i]),
    decreases records.len(),
{
    if records.len() > 0 {
        let init = records.drop_last();
        stream_slot(init, i);
        assert(records.last() == records[records.len() - 1]);
        record::record_round_trips(records.last());
        let all = stream_of(records);
        if i == records.len() - 1 {
            assert(all.subrange(i * RECORD_LEN, i * RECORD_LEN + RECORD_LEN) =~= record::bytes_of(
                records[i],
            ));
        } else if 0 <= i < records.len() {
            assert(i * RECORD_LEN + RECORD_LEN <= init.len() * RECORD_LEN);
            assert(all.subrange(i * RECORD_LEN, i * RECORD_LEN + RECORD_LEN) =~= stream_of(
                init,
            ).subrange(i * RECORD_LEN, i * RECORD_LEN + RECORD_LEN));
        }
    }
}

/// The bytes of a file: a header, records, and what a crash left behind them.
pub open spec fn file_of(
    header: header::HeaderView,
    records: Seq<Record>,
    tail: Seq<u8>,
) -> Seq<u8> {
    header.encoded() + stream_of(records) + tail
}

/// Opening a file finds the header it was written with.
pub proof fn written_header_is_found(header: header::HeaderView, rest: Seq<u8>)
    requires
        header::readable(header),
    ensures
        opened_header(header.encoded() + rest) == Ok::<header::HeaderView, CodecError>(header),
{
    reveal(opened_header);
    let b = header.encoded() + rest;
    let len = header::header_len(header.instruments.len()) as int;
    header::header_round_trips(header, rest);
    let probe_len = if b.len() < PROBE_LEN {
        b.len() as int
    } else {
        PROBE_LEN as int
    };
    let probe = b.take(probe_len);
    if len <= probe_len {
        let more = rest.take(probe_len - len);
        header::header_round_trips(header, more);
        assert(probe =~= header.encoded() + more);
    } else {
        assert(probe =~= header.encoded().take(probe_len));
        header::header_prefix_names_its_length(header, probe_len);
        header::header_round_trips(header, Seq::empty());
        assert(b.take(len) =~= header.encoded() + Seq::<u8>::empty());
    }
}

proof fn file_slot(
    header: header::HeaderView,
    records: Seq<Record>,
    tail: Seq<u8>,
    i: int,
)
    requires
        header::readable(header),
        forall|k: int| 0 <= k < records.len() ==> (#[trigger] records[k]).version <= FORMAT_VERSION,
        0 <= i < records.len(),
    ensures
        slot(
            file_of(header, records, tail),
            header::header_len(header.instruments.len()) as int,
            i,
        ) == record::bytes_of(records[i]),
        record::record_of(record::bytes_of(records[i])) == Ok::<Record, CodecError>(records[i]),
{
    header::header_round_trips(header, Seq::empty());
    stream_slot(records, i);
    let b = file_of(header, records, tail);
    let start = header::header_len(header.instruments.len()) as int;
    assert(i * RECORD_LEN + RECORD_LEN <= records.len() * RECORD_LEN);
    assert(slot(b, start, i) =~= stream_of(records).subrange(
        i * RECORD_LEN,
        i * RECORD_LEN + RECORD_LEN,
    ));
    record::record_round_trips(records[i]);
}

proof fn all_trusted(
    header: header::HeaderView,
    records: Seq<Record>,
    tail: Seq<u8>,
    base: u64,
    upto: int,
)
    requires
        header::readable(header),
        in_sequence(records, base as int),
        0 <= upto <= records.len(),
    ensures
        trusted(
            file_of(header, records, tail),
            header::header_len(header.instruments.len()) as int,
            base,
            upto,
        ) == upto,
    decreases upto,
{
    if upto > 0 {
        all_trusted(header, records, tail, base, upto - 1);
        file_slot(header, records, tail, upto - 1);
    }
}

/// What a read gives back of a write: every record, in order, and nothing
/// dropped but the bytes of a record that a crash cut short.
pub proof fn written_log_reads_back(
    reader: LogReader<'_>,
    header: header::HeaderView,
    records: Seq<Record>,
    tail: Seq<u8>,
    first: u64,
)
    requires
        header::readable(header),
        in_sequence(records, first as int),
        tail.len() < RECORD_LEN,
        reader.well_formed(),
        reader.bytes@ == file_of(header, records, tail),
    ensures
        reader.header@ == header,
        reader.whole_records == records.len(),
        reader.partial_bytes == tail.len(),
        reader.base == (if records.len() > 0 {
            Some(SeqNo(first))
        } else {
            None
        }),
        trusted(reader.bytes@, reader.start(), base_number(reader.base), records.len() as int)
            == records.len(),
        records_at(reader.bytes@, reader.start(), records.len() as int) == records,
        stop_after(
            reader.bytes@,
            reader.start(),
            base_number(reader.base),
            records.len() as int,
            reader.partial_bytes,
            records.len() as int,
        ) == (if tail.len() > 0 {
            Some(StopReason::TornTail { partial_bytes: tail.len() as u64 })
        } else {
            None
        }),
{
    let n = records.len() as int;
    written_header_is_found(header, stream_of(records) + tail);
    assert(reader.bytes@ =~= header.encoded() + (stream_of(records) + tail));
    file_shape(
        header,
        records,
        tail,
        reader.whole_records as int,
        reader.partial_bytes as int,
    );
    if n > 0 {
        file_slot(header, records, tail, 0);
        assert(records[0].seq.0 == first);
        all_trusted(header, records, tail, first, n);
    }
    file_records(header, records, tail);
}

/// A file's body is its whole records and what is left of one.
pub proof fn body_is_split(reader: LogReader<'_>)
    requires
        reader.well_formed(),
    ensures
        reader.whole_records == (reader.bytes@.len() - reader.start()) / (
        RECORD_LEN as int),
        reader.partial_bytes == (reader.bytes@.len() - reader.start()) % (
        RECORD_LEN as int),
{
    let body = reader.bytes@.len() - reader.start();
    let whole = reader.whole_records as int;
    let partial = reader.partial_bytes as int;
    assert(body == whole * 80 + partial);
    assert(body / 80 == whole && body % 80 == partial) by (nonlinear_arith)
        requires
            body == whole * 80 + partial,
            0 <= partial < 80,
    ;
}

/// What opens as a header can be written and opened again, and is part of the file.
pub proof fn opened_header_is_readable(b: Seq<u8>)
    requires
        opened_header(b) is Ok,
    ensures
        header::readable(opened_header(b)->Ok_0),
        header::header_len(opened_header(b)->Ok_0.instruments.len()) <= b.len(),
{
    reveal(opened_header);
    let probe_len = if b.len() < PROBE_LEN {
        b.len() as int
    } else {
        PROBE_LEN as int
    };
    let probe = b.take(probe_len);
    match header::header_of(probe) {
        Ok(_) => {
            header::decoded_header_is_whole(probe);
        },
        Err(CodecError::ShortBuffer { needed, .. }) => {
            if needed <= b.len() {
                header::decoded_header_is_whole(b.take(needed as int));
            }
        },
        Err(_) => {},
    }
}

/// What the bytes of a written file are read as: its header, every record, in
/// order, and nothing dropped but the bytes of a record that a crash cut short.
pub proof fn written_bytes_read_back(
    header: header::HeaderView,
    records: Seq<Record>,
    tail: Seq<u8>,
    first: u64,
)
    requires
        header::readable(header),
        in_sequence(records, first as int),
        tail.len() < RECORD_LEN,
    ensures
        ({
            let b = file_of(header, records, tail);
            let start = header::header_len(header.instruments.len()) as int;
            let n = records.len() as int;
            let base = base_of(b, start, n);
            &&& opened_header(b) == Ok::<header::HeaderView, CodecError>(header)
            &&& b.len() == start + n * RECORD_LEN + tail.len()
            &&& (b.len() - start) / (RECORD_LEN as int) == n
            &&& (b.len() - start) % (RECORD_LEN as int) == tail.len()
            &&& n > 0 ==> base == Some(SeqNo(first))
            &&& trusted(b, start, base_number(base), n) == n
            &&& records_at(b, start, n) == records
        }),
{
    let b = file_of(header, records, tail);
    let start = header::header_len(header.instruments.len()) as int;
    let n = records.len() as int;
    let left = tail.len() as int;
    written_header_is_found(header, stream_of(records) + tail);
    assert(b =~= header.encoded() + (stream_of(records) + tail));
    header::header_round_trips(header, Seq::empty());
    stream_slot(records, 0);
    let body = b.len() - start;
    assert(body == n * 80 + left);
    assert(body / 80 == n && body % 80 == left) by (nonlinear_arith)
        requires
            body == n * 80 + left,
            0 <= left < 80,
    ;
    if n > 0 {
        file_slot(header, records, tail, 0);
        assert(records[0].seq.0 == first);
        all_trusted(header, records, tail, first, n);
    }
    file_records(header, records, tail);
}

proof fn file_shape(
    header: header::HeaderView,
    records: Seq<Record>,
    tail: Seq<u8>,
    whole: int,
    partial: int,
)
    requires
        header::readable(header),
        forall|k: int| 0 <= k < records.len() ==> (#[trigger] records[k]).version <= FORMAT_VERSION,
        0 <= partial < RECORD_LEN,
        tail.len() < RECORD_LEN,
        file_of(header, records, tail).len() == header::header_len(header.instruments.len()) + whole
            * RECORD_LEN + partial,
    ensures
        whole == records.len(),
        partial == tail.len(),
{
    header::header_round_trips(header, Seq::empty());
    stream_slot(records, 0);
    let n = records.len() as int;
    assert(whole * RECORD_LEN + partial == n * RECORD_LEN + tail.len());
    assert(whole == n) by (nonlinear_arith)
        requires
            whole * 80 + partial == n * 80 + tail.len(),
            0 <= partial < 80,
            0 <= tail.len() < 80,
    ;
}

proof fn file_records(header: header::HeaderView, records: Seq<Record>, tail: Seq<u8>)
    requires
        header::readable(header),
        forall|k: int| 0 <= k < records.len() ==> (#[trigger] records[k]).version <= FORMAT_VERSION,
    ensures
        records_at(
            file_of(header, records, tail),
            header::header_len(header.instruments.len()) as int,
            records.len() as int,
        ) == records,
{
    let b = file_of(header, records, tail);
    let start = header::header_len(header.instruments.len()) as int;
    let n = records.len() as int;
    assert forall|i: int| 0 <= i < n implies records_at(b, start, n)[i] == records[i] by {
        file_slot(header, records, tail, i);
    }
    assert(records_at(b, start, n) =~= records);
}

/// A file cut anywhere behind its header is a file of the records that are
/// whole in what is left, and the bytes of the one that is not.
pub proof fn cut_file_is_a_shorter_file(
    header: header::HeaderView,
    records: Seq<Record>,
    count: int,
    partial: int,
)
    requires
        header::readable(header),
        forall|k: int| 0 <= k < records.len() ==> (#[trigger] records[k]).version <= FORMAT_VERSION,
        0 <= count,
        0 <= partial < RECORD_LEN,
        count * RECORD_LEN + partial <= records.len() * RECORD_LEN,
    ensures
        ({
            let len = header::header_len(header.instruments.len()) + count * RECORD_LEN + partial;
            let cut = file_of(header, records, Seq::empty()).take(len);
            exists|tail: Seq<u8>|
                tail.len() == partial && cut == #[trigger] file_of(
                    header,
                    records.take(count),
                    tail,
                )
        }),
{
    header::header_round_trips(header, Seq::empty());
    stream_slot(records, 0);
    assert(count <= records.len()) by (nonlinear_arith)
        requires
            count * 80 + partial <= records.len() * 80,
            0 <= partial,
    ;
    stream_prefix(records, count);
    let start = header::header_len(header.instruments.len()) as int;
    let whole = file_of(header, records, Seq::empty());
    let len = start + count * RECORD_LEN + partial;
    let tail = whole.subrange(start + count * RECORD_LEN, len);
    assert(whole.take(len) =~= file_of(header, records.take(count), tail));
}

proof fn stream_prefix(records: Seq<Record>, count: int)
    requires
        0 <= count <= records.len(),
        forall|k: int| 0 <= k < records.len() ==> (#[trigger] records[k]).version <= FORMAT_VERSION,
    ensures
        stream_of(records.take(count)) == stream_of(records).take(count * RECORD_LEN),
        stream_of(records.take(count)).len() == count * RECORD_LEN,
        count * RECORD_LEN <= stream_of(records).len(),
    decreases records.len(),
{
    stream_slot(records, 0);
    if count == records.len() {
        assert(records.take(count) =~= records);
        assert(stream_of(records) =~= stream_of(records).take(count * RECORD_LEN));
    } else {
        let init = records.drop_last();
        stream_prefix(init, count);
        stream_slot(init, 0);
        assert(init.take(count) =~= records.take(count));
        assert(stream_of(init).take(count * RECORD_LEN) =~= stream_of(records).take(
            count * RECORD_LEN,
        ));
    }
}

proof fn trusted_by_slots(b: Seq<u8>, c: Seq<u8>, start: int, base: u64, upto: int)
    requires
        forall|i: int| 0 <= i < upto ==> #[trigger] slot(b, start, i) == slot(c, start, i),
    ensures
        trusted(b, start, base, upto) == trusted(c, start, base, upto),
    decreases upto,
{
    if upto > 0 {
        trusted_by_slots(b, c, start, base, upto - 1);
        assert(slot(b, start, upto - 1) == slot(c, start, upto - 1));
    }
}

/// A file of intact records with one byte of the record `index` changed.
pub open spec fn damaged_file(
    header: header::HeaderView,
    records: Seq<Record>,
    index: int,
    offset: int,
    byte: u8,
) -> Seq<u8> {
    file_of(header, records, Seq::empty()).update(
        header::header_len(header.instruments.len()) + index * RECORD_LEN + offset,
        byte,
    )
}

proof fn damaged_slots(
    header: header::HeaderView,
    records: Seq<Record>,
    index: int,
    offset: int,
    byte: u8,
)
    requires
        header::readable(header),
        forall|k: int| 0 <= k < records.len() ==> (#[trigger] records[k]).version <= FORMAT_VERSION,
        0 <= index < records.len(),
        0 <= offset < RECORD_LEN,
        record::bytes_of(records[index])[offset] != byte,
    ensures
        ({
            let b = file_of(header, records, Seq::empty());
            let c = damaged_file(header, records, index, offset, byte);
            let start = header::header_len(header.instruments.len()) as int;
            &&& c.len() == b.len()
            &&& opened_header(c) == Ok::<header::HeaderView, CodecError>(header)
            &&& forall|i: int|
                0 <= i < index ==> #[trigger] slot(c, start, i) == slot(b, start, i)
            &&& record::record_of(slot(c, start, index)) matches Err(
                CodecError::BadChecksum { .. },
            )
        }),
{
    let none = Seq::<u8>::empty();
    let b = file_of(header, records, none);
    let c = damaged_file(header, records, index, offset, byte);
    let n = records.len() as int;
    let start = header::header_len(header.instruments.len()) as int;
    let at = index * RECORD_LEN + offset;
    header::header_round_trips(header, none);
    stream_slot(records, index);
    let body = stream_of(records) + none;
    assert(c =~= header.encoded() + body.update(at, byte));
    written_header_is_found(header, body.update(at, byte));
    assert forall|i: int| 0 <= i < index implies #[trigger] slot(c, start, i) == slot(
        b,
        start,
        i,
    ) by {
        assert(slot(c, start, i) =~= slot(b, start, i));
    }
    file_slot(header, records, none, index);
    assert(slot(c, start, index) =~= record::bytes_of(records[index]).update(offset, byte));
    record::record_round_trips(records[index]);
    record::damaged_byte_is_caught(record::bytes_of(records[index]), offset, byte);
}

/// Damage to one byte of a record ends the read there: the records before it
/// are salvaged, and it is reported as corrupt.
pub proof fn damaged_record_ends_the_read(
    reader: LogReader<'_>,
    header: header::HeaderView,
    records: Seq<Record>,
    first: u64,
    index: int,
    offset: int,
    byte: u8,
)
    requires
        header::readable(header),
        in_sequence(records, first as int),
        0 <= index < records.len(),
        0 <= offset < RECORD_LEN,
        record::bytes_of(records[index])[offset] != byte,
        reader.well_formed(),
        reader.bytes@ == damaged_file(header, records, index, offset, byte),
    ensures
        reader.whole_records == records.len(),
        trusted(reader.bytes@, reader.start(), base_number(reader.base), records.len() as int)
            == index,
        stop_after(
            reader.bytes@,
            reader.start(),
            base_number(reader.base),
            records.len() as int,
            0,
            index,
        ) matches Some(
            StopReason::Corrupt { index: at, error: CodecError::BadChecksum { .. } },
        ) && at == index,
{
    let none = Seq::<u8>::empty();
    let b = file_of(header, records, none);
    let c = reader.bytes@;
    let start = header::header_len(header.instruments.len()) as int;
    damaged_slots(header, records, index, offset, byte);
    assert(reader.start() == start);
    file_shape(
        header,
        records,
        none,
        reader.whole_records as int,
        reader.partial_bytes as int,
    );
    if index > 0 {
        file_slot(header, records, none, 0);
        assert(slot(c, start, 0) == slot(b, start, 0));
        assert(records[0].seq.0 == first);
        assert(reader.base == Some(SeqNo(first)));
        all_trusted(header, records, none, first, index);
        trusted_by_slots(c, b, start, first, index);
    }
    let base = base_number(reader.base);
    assert(trusted(c, start, base, index) == index);
    assert(trusted(c, start, base, index + 1) == index);
    trusted_stops(c, start, base, index, records.len() as int);
}

} // verus!
