//! A session recorded across one or more files.
//!
//! A crash damages whichever file was open at the time. That file is left as
//! the crash left it, and the session continues in a new one whose first record
//! carries the next sequence number: the chain is the session, no single file
//! is. Every segment is numbered, the first one too, so that a reader that
//! forgets the chain opens a path that does not exist.
use vstd::prelude::*;

use super::codec::{header, CodecError, LogHeader, RECORD_LEN};
use super::file::{LogFileError, LogReader, LogWriter, Recovery, StopReason};
use super::{file, Record, SeqNo};
use crate::text;
use crate::text::{chars_of, number_string};
use crate::words;
use crate::words::{parse_u32, same, string_of};

verus! {

/// The segments of one session. Not a value: a chain lives on disk, and holding
/// a stale list of it in memory is how a resumed session misses a segment.
#[derive(Debug)]
pub struct Segments;

/// Why a session cannot be opened or continued.
#[derive(Debug, Clone, Copy, PartialEq, Eq)]
pub enum SessionError {
    /// There is no session. A resume never quietly becomes a fresh one: that
    /// would lose the position that was to be recovered.
    NoSession,
    /// Its segments are no chain, or one of them cannot be opened.
    Broken(LogFileError),
}

/// Whether the segments that exist are those numbered below `len`, and no others.
pub open spec fn is_chain(existing: Seq<u32>, len: int) -> bool {
    forall|k: u32| #[trigger] existing.contains(k) <==> k < len
}

/// Whether `missing` is the first segment that does not exist, and `found` the
/// first one behind it that does.
pub open spec fn is_hole(existing: Seq<u32>, missing: u32, found: u32) -> bool {
    &&& forall|k: u32| k < missing ==> #[trigger] existing.contains(k)
    &&& !existing.contains(missing)
    &&& missing < found
    &&& existing.contains(found)
    &&& forall|k: u32| missing < k && #[trigger] existing.contains(k) ==> found <= k
}

/// What the numbers of the segments that exist make of a session: a chain of a
/// length, or the hole in it.
pub open spec fn counted(existing: Seq<u32>, count: Result<u64, LogFileError>) -> bool {
    match count {
        Ok(len) => is_chain(existing, len as int) && len <= u32::MAX + 1,
        Err(LogFileError::MissingSegment { missing, found }) => is_hole(existing, missing, found),
        Err(_) => false,
    }
}

/// Every set of numbers is a chain of one length or has one hole, never both.
pub proof fn chain_or_hole(
    existing: Seq<u32>,
    one: Result<u64, LogFileError>,
    other: Result<u64, LogFileError>,
)
    requires
        counted(existing, one),
        counted(existing, other),
    ensures
        one == other,
{
    match (one, other) {
        (Ok(a), Ok(b)) => {
            if a < b {
                assert(existing.contains(a as u32));
            } else if b < a {
                assert(existing.contains(b as u32));
            }
        },
        (
            Err(LogFileError::MissingSegment { missing, found }),
            Err(LogFileError::MissingSegment { missing: m, found: f }),
        ) => {
            if missing < m {
                assert(existing.contains(missing));
            } else if m < missing {
                assert(existing.contains(m));
            }
            assert(existing.contains(found) && existing.contains(f));
        },
        (Ok(a), Err(LogFileError::MissingSegment { missing, found })) => {
            assert(existing.contains(found) && !existing.contains(missing));
        },
        (Err(LogFileError::MissingSegment { missing, found }), Ok(a)) => {
            assert(existing.contains(found) && !existing.contains(missing));
        },
        _ => {},
    }
}

/// The text of a name's extension, dot included.
pub open spec fn dotted(extension: Option<Seq<char>>) -> Seq<char> {
    match extension {
        Some(e) => "."@ + e,
        None => Seq::empty(),
    }
}

/// The text of segment `index`'s file name.
pub open spec fn segment_name(stem: Seq<char>, index: u32, extension: Option<Seq<char>>) -> Seq<
    char,
> {
    stem + "."@ + text::digits(index as nat) + dotted(extension)
}

/// The text of an extension, where there is one.
pub open spec fn text_of(extension: Option<&str>) -> Option<Seq<char>> {
    match extension {
        Some(e) => Some(e@),
        None => None,
    }
}

/// No two segments have one name.
pub proof fn names_are_unique(stem: Seq<char>, a: u32, b: u32, extension: Option<Seq<char>>)
    requires
        segment_name(stem, a, extension) == segment_name(stem, b, extension),
    ensures
        a == b,
{
    name_parts(stem, a, extension);
    name_parts(stem, b, extension);
    words::digits_read_back(a as nat);
    words::digits_read_back(b as nat);
}

/// Between the stem's dot and the extension stands the number.
proof fn name_parts(stem: Seq<char>, index: u32, extension: Option<Seq<char>>)
    ensures
        ({
            let name = segment_name(stem, index, extension);
            let from = stem.len() + 1;
            let to = name.len() - dotted(extension).len();
            &&& from <= to <= name.len()
            &&& name.subrange(from as int, to) == text::digits(index as nat)
        }),
{
    reveal_strlit(".");
    let name = segment_name(stem, index, extension);
    let to = name.len() - dotted(extension).len();
    assert(name.subrange((stem.len() + 1) as int, to) =~= text::digits(index as nat));
}

impl Segments {
    /// The file name of segment `index` for a session whose file name has this
    /// stem and extension: `session`, `2` and `log` give `session.2.log`, and
    /// without an extension `session.2`.
    pub fn path(stem: &str, index: u32, extension: Option<&str>) -> (name: String)
        ensures
            name@ == segment_name(stem@, index, text_of(extension)),
    {
        let mut name = String::new();
        name.append(stem);
        name.append(".");
        let number = number_string(index as u128);
        name.append(number.as_str());
        if let Some(e) = extension {
            name.append(".");
            name.append(e);
            assert(name@ =~= segment_name(stem@, index, Some(e@)));
        } else {
            assert(name@ =~= segment_name(stem@, index, None));
        }
        name
    }

    /// Which segment of a session a file is, by its name. Any other file is none.
    pub fn number_of(name: &str, stem: &str, extension: Option<&str>) -> (index: Option<u32>)
        ensures
            match index {
                Some(k) => name@ == segment_name(stem@, k, text_of(extension)),
                None => forall|k: u32| name@ != #[trigger] segment_name(
                    stem@,
                    k,
                    text_of(extension),
                ),
            },
    {
        let ghost ext = text_of(extension);
        proof {
            reveal_strlit(".");
            assert forall|k: u32| name@ == #[trigger] segment_name(stem@, k, ext) implies {
                let from = stem@.len() + 1;
                let to = name@.len() - dotted(ext).len();
                &&& from <= to <= name@.len()
                &&& words::int_of(name@.subrange(from as int, to), false) == Some(k as int)
            } by {
                name_parts(stem@, k, ext);
                words::digits_read_back(k as nat);
            }
        }
        let chars = chars_of(name);
        let before = chars_of(stem).len();
        let behind: usize = match extension {
            Some(e) => chars_of(e).len(),
            None => 0,
        };
        let dot: usize = if extension.is_some() {
            1
        } else {
            0
        };
        if chars.len() <= before || chars.len() - before - 1 < behind {
            return None;
        }
        if chars.len() - before - 1 - behind < dot {
            return None;
        }
        let middle = string_of(chars.as_slice(), before + 1, chars.len() - behind - dot);
        match parse_u32(middle.as_str()) {
            Some(k) => {
                let expected = Segments::path(stem, k, extension);
                if same(name, expected.as_str()) {
                    Some(k)
                } else {
                    None
                }
            },
            None => None,
        }
    }

    fn is_there(existing: &[u32], index: u32) -> (yes: bool)
        ensures
            yes == existing@.contains(index),
    {
        let mut i: usize = 0;
        while i < existing.len()
            invariant
                i <= existing@.len(),
                forall|k: int| 0 <= k < i ==> existing@[k] != index,
            decreases existing@.len() - i,
        {
            if existing[i] == index {
                return true;
            }
            i += 1;
        }
        false
    }

    /// How long a session's chain is, from the numbers of the segments that
    /// exist, in any order. A gap in the numbering is an error rather than a
    /// stopping point, however wide it is: reading the segments before it would
    /// report part of a session as all of it.
    pub fn count(existing: &[u32]) -> (count: Result<u64, LogFileError>)
        ensures
            counted(existing@, count),
    {
        let mut end: u64 = 0;
        while end <= u32::MAX as u64 && Segments::is_there(existing, end as u32)
            invariant
                end <= u32::MAX + 1,
                forall|k: u32| k < end ==> #[trigger] existing@.contains(k),
            decreases u32::MAX + 1 - end,
        {
            end += 1;
        }
        match Segments::first_beyond(existing, end) {
            Some(found) => Err(LogFileError::MissingSegment { missing: end as u32, found }),
            None => {
                assert forall|k: u32| #[trigger] existing@.contains(k) implies k < end by {
                    if k == end {
                        assert(!existing@.contains(end as u32));
                    }
                }
                Ok(end)
            },
        }
    }

    /// The first segment past `index` that exists.
    fn first_beyond(existing: &[u32], index: u64) -> (found: Option<u32>)
        ensures
            match found {
                Some(f) => {
                    &&& index < f
                    &&& existing@.contains(f)
                    &&& forall|k: u32| index < k && #[trigger] existing@.contains(k) ==> f <= k
                },
                None => forall|k: u32| #[trigger] existing@.contains(k) ==> k <= index,
            },
    {
        let mut found: Option<u32> = None;
        let mut i: usize = 0;
        while i < existing.len()
            invariant
                i <= existing@.len(),
                match found {
                    Some(f) => {
                        &&& index < f
                        &&& existing@.contains(f)
                        &&& forall|k: int| 0 <= k < i && index < existing@[k] ==> f <= existing@[k]
                    },
                    None => forall|k: int| 0 <= k < i ==> existing@[k] <= index,
                },
            decreases existing@.len() - i,
        {
            let here: u32 = existing[i];
            if here as u64 > index {
                found = match found {
                    Some(f) => if f <= here {
                        Some(f)
                    } else {
                        Some(here)
                    },
                    None => Some(here),
                };
            }
            i += 1;
        }
        found
    }

    /// The file names of every segment of a session, oldest first, from the
    /// numbers of those that exist. Empty when the session does not exist.
    pub fn paths(stem: &str, extension: Option<&str>, existing: &[u32]) -> (names: Result<
        Vec<String>,
        LogFileError,
    >)
        ensures
            match names {
                Ok(names) => {
                    &&& is_chain(existing@, names@.len() as int)
                    &&& forall|i: int|
                        0 <= i < names@.len() ==> (#[trigger] names@[i])@ == segment_name(
                            stem@,
                            i as u32,
                            text_of(extension),
                        )
                },
                Err(e) => counted(existing@, Err(e)),
            },
    {
        let count: u64 = match Segments::count(existing) {
            Ok(count) => count,
            Err(e) => {
                return Err(e);
            },
        };
        let mut names: Vec<String> = Vec::new();
        let mut index: u64 = 0;
        while index < count
            invariant
                index <= count <= u32::MAX + 1,
                names@.len() == index,
                forall|i: int|
                    0 <= i < index ==> (#[trigger] names@[i])@ == segment_name(
                        stem@,
                        i as u32,
                        text_of(extension),
                    ),
            decreases count - index,
        {
            names.push(Segments::path(stem, index as u32, extension));
            index += 1;
        }
        Ok(names)
    }

    /// The file name of a fresh session's first segment. Refuses if any segment
    /// exists: a recorded session is evidence, and appending to one by accident
    /// is not possible.
    pub fn create_path(stem: &str, extension: Option<&str>, existing: &[u32]) -> (name: Result<
        String,
        LogFileError,
    >)
        ensures
            match name {
                Ok(name) => {
                    &&& existing@.len() == 0
                    &&& name@ == segment_name(stem@, 0, text_of(extension))
                },
                Err(LogFileError::AlreadyExists) => {
                    exists|len: int| 0 < len && is_chain(existing@, len)
                },
                Err(e) => counted(existing@, Err(e)),
            },
    {
        match Segments::count(existing) {
            Ok(0) => {
                proof {
                    if existing@.len() > 0 {
                        assert(existing@.contains(existing@[0]));
                    }
                }
                Ok(Segments::path(stem, 0, extension))
            },
            Ok(count) => {
                assert(0 < count as int && is_chain(existing@, count as int));
                Err(LogFileError::AlreadyExists)
            },
            Err(e) => Err(e),
        }
    }

    /// A writer for a fresh session's first segment, under the same refusal.
    pub fn create(header: LogHeader, existing: &[u32]) -> (writer: Result<LogWriter, LogFileError>)
        requires
            header@.fits(),
        ensures
            match writer {
                Ok(writer) => {
                    &&& existing@.len() == 0
                    &&& writer.well_formed()
                    &&& writer.header == header
                    &&& writer.next == 0
                    &&& writer.buffer@ == Seq::<u8>::empty()
                },
                Err(LogFileError::AlreadyExists) => {
                    exists|len: int| 0 < len && is_chain(existing@, len)
                },
                Err(e) => counted(existing@, Err(e)),
            },
    {
        match Segments::create_path("", None, existing) {
            Ok(_) => Ok(LogWriter::create(header)),
            Err(e) => Err(e),
        }
    }
}

/// Where the sequence of a session with these records goes on.
pub open spec fn resumes_at(records: Seq<Record>) -> SeqNo {
    if records.len() == 0 {
        SeqNo(0)
    } else {
        SeqNo(file::number_at(records.last().seq.0, 1))
    }
}

/// What reading a chain has salvaged so far.
pub struct ChainView {
    pub all: Seq<Record>,
    pub recovery: Recovery,
    /// Whether the segments behind are to be read too.
    pub open: bool,
}

/// What one segment's read gave.
pub struct SegmentView {
    pub records: Seq<Record>,
    pub recovery: Recovery,
}

/// Whether a segment's records do not continue those before it.
pub open spec fn breaks_chain(all: Seq<Record>, records: Seq<Record>) -> bool {
    all.len() > 0 && records.len() > 0 && records[0].seq.0 != file::number_at(all.last().seq.0, 1)
}

/// What a chain has salvaged once a further segment was read.
///
/// A torn tail in a segment that has a successor is the ordinary shape of a
/// recovered session: whether the next segment continues it is decided by the
/// numbers. Any other damage ends the chain, and nothing beyond it is returned.
pub open spec fn joined(chain: ChainView, segment: SegmentView, is_last: bool) -> ChainView {
    if breaks_chain(chain.all, segment.records) {
        ChainView {
            all: chain.all,
            recovery: Recovery {
                records: chain.all.len() as u64,
                discarded_bytes: chain.recovery.discarded_bytes,
                stopped: Some(
                    StopReason::SequenceGap {
                        expected: SeqNo(file::number_at(chain.all.last().seq.0, 1)),
                        found: segment.records[0].seq,
                    },
                ),
            },
            open: false,
        }
    } else {
        let all = chain.all + segment.records;
        let survives = segment.recovery.stopped is None || (segment.recovery.stopped matches Some(
            StopReason::TornTail { .. },
        ) && !is_last);
        ChainView {
            all,
            recovery: Recovery {
                records: all.len() as u64,
                discarded_bytes: (chain.recovery.discarded_bytes
                    + segment.recovery.discarded_bytes) as u64,
                stopped: if survives {
                    chain.recovery.stopped
                } else {
                    segment.recovery.stopped
                },
            },
            open: survives,
        }
    }
}

/// Reads every segment of a session as one record stream.
#[derive(Debug)]
pub struct ChainReader {
    pub all: Vec<Record>,
    pub recovery: Recovery,
    pub open: bool,
}

impl View for ChainReader {
    type V = ChainView;

    open spec fn view(&self) -> ChainView {
        ChainView { all: self.all@, recovery: self.recovery, open: self.open }
    }
}

/// A chain of which nothing was read yet.
pub open spec fn empty_chain() -> ChainView {
    ChainView {
        all: Seq::empty(),
        recovery: Recovery { records: 0, discarded_bytes: 0, stopped: None },
        open: true,
    }
}

impl ChainReader {
    /// A reader of a chain of which nothing was read yet.
    pub fn new() -> (chain: ChainReader)
        ensures
            chain@ == empty_chain(),
    {
        ChainReader {
            all: Vec::new(),
            recovery: Recovery { records: 0, discarded_bytes: 0, stopped: None },
            open: true,
        }
    }

    /// Takes what reading the next segment gave, and says whether to go on.
    pub fn add_segment(
        &mut self,
        records: Vec<Record>,
        segment: Recovery,
        is_last: bool,
    ) -> (go_on: bool)
        requires
            old(self).recovery.discarded_bytes + segment.discarded_bytes <= u64::MAX,
        ensures
            final(self)@ == joined(
                old(self)@,
                (SegmentView { records: records@, recovery: segment }),
                is_last,
            ),
            go_on == final(self).open,
    {
        if self.all.len() > 0 && records.len() > 0 {
            let previous = self.all[self.all.len() - 1].seq;
            let first = records[0].seq;
            let expected: u64 = previous.raw().wrapping_add(1);
            if first.raw() != expected {
                // The chain does not join up. The numbers are reported.
                self.recovery.stopped = Some(
                    StopReason::SequenceGap { expected: SeqNo::new(expected), found: first },
                );
                self.recovery.records = self.all.len() as u64;
                self.open = false;
                return false;
            }
        }
        let mut records = records;
        self.all.append(&mut records);
        self.recovery.records = self.all.len() as u64;
        self.recovery.discarded_bytes = self.recovery.discarded_bytes + segment.discarded_bytes;
        match segment.stopped {
            None => {
                self.open = true;
            },
            Some(StopReason::TornTail { partial_bytes }) => {
                if is_last {
                    self.recovery.stopped = Some(StopReason::TornTail { partial_bytes });
                    self.open = false;
                } else {
                    self.open = true;
                }
            },
            Some(reason) => {
                self.recovery.stopped = Some(reason);
                self.open = false;
            },
        }
        self.open
    }
}

/// What reading a file of these bytes gives.
pub open spec fn segment_of(b: Seq<u8>) -> Result<SegmentView, LogFileError> {
    match file::opened_header(b) {
        Err(e) => Err(LogFileError::Codec(e)),
        Ok(h) => {
            let start = header::header_len(h.instruments.len()) as int;
            let whole = (b.len() - start) / (RECORD_LEN as int);
            let partial = (b.len() - start) % (RECORD_LEN as int);
            let base = file::base_number(file::base_of(b, start, whole));
            let count = file::trusted(b, start, base, whole);
            Ok(
                SegmentView {
                    records: file::records_at(b, start, count),
                    recovery: Recovery {
                        records: count as u64,
                        discarded_bytes: ((whole - count) * RECORD_LEN + partial) as u64,
                        stopped: file::stop_after(b, start, base, whole, partial as u64, count),
                    },
                },
            )
        },
    }
}

/// What reading the first `upto` of a session's files in turn salvages. Those
/// behind damage are not opened.
pub open spec fn read_chain(files: Seq<Seq<u8>>, upto: int) -> Result<ChainView, LogFileError>
    decreases upto,
{
    if upto <= 0 {
        Ok(empty_chain())
    } else {
        match read_chain(files, upto - 1) {
            Err(e) => Err(e),
            Ok(chain) => if chain.open {
                match segment_of(files[upto - 1]) {
                    Err(e) => Err(e),
                    Ok(segment) => Ok(joined(chain, segment, upto == files.len())),
                }
            } else {
                Ok(chain)
            },
        }
    }
}

/// Files, as their bytes.
pub open spec fn contents(files: Seq<Vec<u8>>) -> Seq<Seq<u8>> {
    files.map_values(|f: Vec<u8>| f@)
}

/// How many bytes the first `upto` files have.
pub open spec fn total_len(files: Seq<Vec<u8>>, upto: int) -> nat
    decreases upto,
{
    if upto <= 0 {
        0
    } else {
        total_len(files, upto - 1) + files[upto - 1]@.len()
    }
}

proof fn total_len_grows(files: Seq<Vec<u8>>, i: int, j: int)
    requires
        i <= j,
    ensures
        total_len(files, i) <= total_len(files, j),
    decreases j - i,
{
    if i < j {
        total_len_grows(files, i, j - 1);
    }
}

proof fn read_end_stays(files: Seq<Seq<u8>>, k: int, n: int)
    requires
        0 <= k <= n,
        match read_chain(files, k) {
            Ok(chain) => !chain.open,
            Err(_) => true,
        },
    ensures
        read_chain(files, n) == read_chain(files, k),
    decreases n - k,
{
    if k < n {
        read_end_stays(files, k, n - 1);
    }
}

impl Segments {
    /// Reads one segment from the bytes of its file.
    fn read_one(bytes: &[u8]) -> (read: Result<(Vec<Record>, Recovery), LogFileError>)
        ensures
            match read {
                Ok((records, recovery)) => {
                    &&& segment_of(bytes@) == Ok::<SegmentView, LogFileError>(
                        SegmentView { records: records@, recovery },
                    )
                    &&& recovery.discarded_bytes <= bytes@.len()
                },
                Err(e) => segment_of(bytes@) == Err::<SegmentView, LogFileError>(e),
            },
    {
        let reader = LogReader::open(bytes)?;
        proof {
            file::body_is_split(reader);
        }
        let (records, recovery) = reader.read_all();
        proof {
            let whole = reader.whole_records as int;
            let count = recovery.records as int;
            assert((whole - count) * 80 <= whole * 80) by (nonlinear_arith)
                requires
                    0 <= count <= whole,
            ;
        }
        Ok((records, recovery))
    }

    /// Reads every segment of a session as one record stream, from the bytes of
    /// its files, oldest first. Stops at the first damage and says so: nothing
    /// beyond it is returned.
    pub fn read_all(files: &[Vec<u8>]) -> (read: Result<(Vec<Record>, Recovery), LogFileError>)
        requires
            total_len(files@, files@.len() as int) <= u64::MAX,
        ensures
            match read_chain(contents(files@), files@.len() as int) {
                Ok(chain) => read matches Ok((records, recovery)) && records@ == chain.all
                    && recovery == chain.recovery,
                Err(e) => read matches Err(fault) && fault == e,
            },
    {
        let ghost all = contents(files@);
        let mut chain = ChainReader::new();
        let mut n: usize = 0;
        while n < files.len() && chain.open
            invariant
                n <= files@.len() == all.len(),
                all == contents(files@),
                total_len(files@, files@.len() as int) <= u64::MAX,
                chain.recovery.discarded_bytes <= total_len(files@, n as int),
                read_chain(all, n as int) == Ok::<ChainView, LogFileError>(chain@),
            decreases files@.len() - n,
        {
            assert(all[n as int] == files@[n as int]@);
            match Segments::read_one(files[n].as_slice()) {
                Err(e) => {
                    proof {
                        read_end_stays(all, n + 1, files@.len() as int);
                    }
                    return Err(e);
                },
                Ok((records, recovery)) => {
                    proof {
                        total_len_grows(files@, n + 1, files@.len() as int);
                    }
                    chain.add_segment(records, recovery, n + 1 == files.len());
                    n += 1;
                },
            }
        }
        proof {
            if !chain.open {
                read_end_stays(all, n as int, files@.len() as int);
            }
        }
        Ok((chain.all, chain.recovery))
    }

    /// The header that a session was recorded under: that of its first segment.
    pub fn header(files: &[Vec<u8>]) -> (header: Result<LogHeader, SessionError>)
        ensures
            match header {
                Ok(h) => files@.len() > 0 && file::opened_header(files@[0]@) == Ok::<
                    header::HeaderView,
                    CodecError,
                >(h@),
                Err(SessionError::NoSession) => files@.len() == 0,
                Err(SessionError::Broken(e)) => files@.len() > 0 && (file::opened_header(
                    files@[0]@,
                ) matches Err(cause) && e == LogFileError::Codec(cause)),
            },
    {
        if files.len() == 0 {
            return Err(SessionError::NoSession);
        }
        match LogReader::open(files[0].as_slice()) {
            Ok(reader) => Ok(reader.header),
            Err(e) => Err(SessionError::Broken(e)),
        }
    }

    /// Opens the next segment of an existing session, under the header it was
    /// recorded with, continuing the sequence of the records that survive: the
    /// number of the new segment, and a writer for it. `existing` is the numbers
    /// of the segments that exist, `files` the bytes of each, oldest first.
    ///
    /// No segment before it is written to. A tail that a crash tore off is
    /// dropped, so the number that record would have had is used again.
    pub fn resume(existing: &[u32], files: &[Vec<u8>]) -> (next: Result<
        (u32, LogWriter),
        SessionError,
    >)
        requires
            forall|len: int| #[trigger] is_chain(existing@, len) ==> files@.len() == len,
            files@.len() <= u32::MAX,
            total_len(files@, files@.len() as int) <= u64::MAX,
        ensures
            match next {
                Ok((index, writer)) => {
                    &&& index > 0
                    &&& is_chain(existing@, index as int)
                    &&& read_chain(contents(files@), files@.len() as int) matches Ok(chain)
                    &&& writer.next == resumes_at(chain.all).0
                    &&& file::opened_header(files@[0]@) == Ok::<header::HeaderView, CodecError>(
                        writer.header@,
                    )
                    &&& writer.well_formed()
                    &&& writer.buffer@ == Seq::<u8>::empty()
                },
                Err(SessionError::NoSession) => existing@.len() == 0,
                Err(SessionError::Broken(e)) => {
                    ||| counted(existing@, Err(e))
                    ||| {
                        &&& is_chain(existing@, files@.len() as int)
                        &&& files@.len() > 0
                        &&& read_chain(contents(files@), files@.len() as int) == Err::<
                            ChainView,
                            LogFileError,
                        >(e)
                    }
                },
            },
    {
        let count: u64 = match Segments::count(existing) {
            Ok(count) => count,
            Err(e) => {
                return Err(SessionError::Broken(e));
            },
        };
        assert(is_chain(existing@, count as int));
        if count == 0 {
            proof {
                if existing@.len() > 0 {
                    assert(existing@.contains(existing@[0]));
                }
            }
            return Err(SessionError::NoSession);
        }
        let records = match Segments::read_all(files) {
            Ok((records, _)) => records,
            Err(e) => {
                return Err(SessionError::Broken(e));
            },
        };
        let reader = match LogReader::open(files[0].as_slice()) {
            Ok(reader) => reader,
            Err(e) => {
                proof {
                    let all = contents(files@);
                    assert(all[0] == files@[0]@);
                    assert(read_chain(all, 0) == Ok::<ChainView, LogFileError>(empty_chain()));
                    read_end_stays(all, 1, files@.len() as int);
                }
                return Err(SessionError::Broken(e));
            },
        };
        let first = if records.len() == 0 {
            SeqNo::first()
        } else {
            SeqNo::new(records[records.len() - 1].seq.raw().wrapping_add(1))
        };
        Ok((count as u32, LogWriter::create_at(reader.header, first)))
    }
}

/// What reading the segments in turn salvages.
pub open spec fn chain_of(segments: Seq<SegmentView>, upto: int) -> ChainView
    decreases upto,
{
    if upto <= 0 {
        empty_chain()
    } else {
        let before = chain_of(segments, upto - 1);
        if before.open {
            joined(before, segments[upto - 1], upto == segments.len())
        } else {
            before
        }
    }
}

/// The records of the first `upto` segments.
pub open spec fn concatenated(segments: Seq<SegmentView>, upto: int) -> Seq<Record>
    decreases upto,
{
    if upto <= 0 {
        Seq::empty()
    } else {
        concatenated(segments, upto - 1) + segments[upto - 1].records
    }
}

/// That a segment gave no damage but, where another follows it, a torn tail.
pub open spec fn continues(segments: Seq<SegmentView>, i: int) -> bool {
    &&& segments[i].recovery.stopped is None || (segments[i].recovery.stopped matches Some(
        StopReason::TornTail { .. },
    ) && i + 1 < segments.len())
    &&& !breaks_chain(concatenated(segments, i), segments[i].records)
}

/// A session that crashed and was continued reads as one: where every segment's
/// numbers go on from the one before and nothing but tails was torn off, the
/// chain is all their records, and the read did not stop.
pub proof fn recovered_session_reads_whole(segments: Seq<SegmentView>, upto: int)
    requires
        0 <= upto <= segments.len(),
        forall|i: int| 0 <= i < upto ==> #[trigger] continues(segments, i),
    ensures
        chain_of(segments, upto).open,
        chain_of(segments, upto).all == concatenated(segments, upto),
        chain_of(segments, upto).recovery.stopped is None,
    decreases upto,
{
    if upto > 0 {
        recovered_session_reads_whole(segments, upto - 1);
        assert(continues(segments, upto - 1));
    }
}

/// Nothing beyond the first damage is returned, though it is sitting there on
/// disk: once a read stopped, the segments behind change nothing.
pub proof fn nothing_beyond_damage(segments: Seq<SegmentView>, at: int, upto: int)
    requires
        0 <= at <= upto <= segments.len(),
        !chain_of(segments, at).open,
    ensures
        chain_of(segments, upto) == chain_of(segments, at),
    decreases upto,
{
    if upto > at {
        nothing_beyond_damage(segments, at, upto - 1);
    }
}

/// Whether a read went to the end, or to where a crash tore off the tail.
pub open spec fn torn_at_most(stopped: Option<StopReason>) -> bool {
    match stopped {
        None => true,
        Some(StopReason::TornTail { .. }) => true,
        Some(_) => false,
    }
}

/// What a resume writes. The one file it creates is the next in the numbering,
/// every segment before it keeps every byte, and the new one opens under the
/// header that the session was recorded with, whatever is appended to it.
pub proof fn resume_adds_one_segment(
    files: Seq<Seq<u8>>,
    existing: Seq<u32>,
    index: u32,
    appended: Seq<Record>,
    tail: Seq<u8>,
)
    requires
        0 < index == files.len(),
        is_chain(existing, index as int),
        file::opened_header(files[0]) is Ok,
    ensures
        ({
            let header = file::opened_header(files[0])->Ok_0;
            let after = files.push(file::file_of(header, appended, tail));
            &&& !existing.contains(index)
            &&& is_chain(existing.push(index), index + 1)
            &&& after.len() == index + 1
            &&& forall|k: int| 0 <= k < index ==> #[trigger] after[k] == files[k]
            &&& file::opened_header(after[index as int]) == file::opened_header(files[0])
        }),
{
    assert(!existing.contains(index));
    assert forall|k: u32| #[trigger] existing.push(index).contains(k) <==> k < index + 1 by {
        let more = existing.push(index);
        if k == index {
            assert(more[existing.len() as int] == k);
        } else if existing.contains(k) {
            let i = existing.index_of(k);
            assert(more[i] == k);
        } else if more.contains(k) {
            let i = more.index_of(k);
            assert(existing[i] == k);
        }
    }
    let header = file::opened_header(files[0])->Ok_0;
    let rest = file::stream_of(appended) + tail;
    file::opened_header_is_readable(files[0]);
    file::written_header_is_found(header, rest);
    assert(file::file_of(header, appended, tail) =~= header.encoded() + rest);
}

/// A session that is resumed goes on where it ended. Where nothing but tails was
/// torn off, its files, read together with the new one, are the records that had
/// survived, then those appended since, numbered from where the session goes on:
/// the number of a record that was torn off is used again.
pub proof fn resumed_session_goes_on(
    files: Seq<Seq<u8>>,
    header: header::HeaderView,
    appended: Seq<Record>,
)
    requires
        files.len() > 0,
        header::readable(header),
        read_chain(files, files.len() as int) is Ok,
        ({
            let chain = read_chain(files, files.len() as int)->Ok_0;
            &&& torn_at_most(chain.recovery.stopped)
            &&& file::in_sequence(appended, resumes_at(chain.all).0 as int)
        }),
    ensures
        ({
            let n = files.len() as int;
            let chain = read_chain(files, n)->Ok_0;
            let more = files.push(file::file_of(header, appended, Seq::empty()));
            &&& read_chain(more, n + 1) matches Ok(again)
            &&& again.all == chain.all + appended
            &&& again.recovery.stopped is None
        }),
{
    let n = files.len() as int;
    let chain = read_chain(files, n)->Ok_0;
    let bytes = file::file_of(header, appended, Seq::empty());
    let more = files.push(bytes);
    file::written_bytes_read_back(header, appended, Seq::empty(), resumes_at(chain.all).0);
    let fresh = segment_of(bytes)->Ok_0;
    assert(fresh.records == appended);
    assert(fresh.recovery.stopped is None);
    torn_only_at_the_end(files, more, n);
    assert(more[n] == bytes);
    assert(!breaks_chain(chain.all, appended)) by {
        if chain.all.len() > 0 && appended.len() > 0 {
            assert(appended[0].seq.0 == resumes_at(chain.all).0);
        }
    }
}

/// A chain that is open has not stopped.
proof fn open_has_not_stopped(files: Seq<Seq<u8>>, upto: int)
    ensures
        read_chain(files, upto) matches Ok(chain) ==> chain.open ==> chain.recovery.stopped is None,
    decreases upto,
{
    if upto > 0 {
        open_has_not_stopped(files, upto - 1);
    }
}

/// A chain that stopped at nothing but a torn tail did so at its end, and is open
/// once another segment follows.
proof fn torn_only_at_the_end(files: Seq<Seq<u8>>, more: Seq<Seq<u8>>, upto: int)
    requires
        0 <= upto <= files.len() < more.len(),
        forall|i: int| 0 <= i < files.len() ==> #[trigger] files[i] == more[i],
        read_chain(files, upto) matches Ok(chain) && torn_at_most(chain.recovery.stopped),
    ensures
        ({
            let chain = read_chain(files, upto)->Ok_0;
            &&& read_chain(more, upto) matches Ok(again)
            &&& again.all == chain.all
            &&& again.recovery.stopped is None
            &&& again.open
            &&& upto < files.len() ==> chain.open && chain.recovery.stopped is None
        }),
    decreases upto,
{
    if upto > 0 {
        open_has_not_stopped(files, upto - 1);
        torn_only_at_the_end(files, more, upto - 1);
    }
}

/// Reading a session's files is reading its segments in turn, where every one of
/// them can be opened.
pub proof fn files_read_as_their_segments(
    files: Seq<Seq<u8>>,
    segments: Seq<SegmentView>,
    upto: int,
)
    requires
        files.len() == segments.len(),
        0 <= upto <= files.len(),
        forall|i: int|
            0 <= i < files.len() ==> segment_of(#[trigger] files[i]) == Ok::<
                SegmentView,
                LogFileError,
            >(segments[i]),
    ensures
        read_chain(files, upto) == Ok::<ChainView, LogFileError>(chain_of(segments, upto)),
    decreases upto,
{
    if upto > 0 {
        files_read_as_their_segments(files, segments, upto - 1);
    }
}

} // verus!
