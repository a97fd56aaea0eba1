//! The log, its sequencing, and the replay cursor.
use std::cmp::Ordering;

use vstd::prelude::*;
use vstd::std_specs::cmp::PartialOrdSpec;

use super::{Event, Inbound, Outbound};

verus! {

/// The record format written by this build. A reader refuses a version
/// greater than it knows and no lower one.
pub const FORMAT_VERSION: u16 = 2;

/// A record's position in the log: monotonic and gap-free, assigned by the log
/// and never by a caller. It is the engine's only ordering key.
#[derive(Debug, Clone, Copy, PartialEq, Eq, Ord, Hash, Structural)]
pub struct SeqNo(pub u64);

impl PartialOrd for SeqNo {
    fn partial_cmp(&self, other: &SeqNo) -> (order: Option<Ordering>) {
        if self.0 < other.0 {
            Some(Ordering::Less)
        } else if self.0 == other.0 {
            Some(Ordering::Equal)
        } else {
            Some(Ordering::Greater)
        }
    }
}

impl vstd::std_specs::cmp::PartialOrdSpecImpl for SeqNo {
    open spec fn obeys_partial_cmp_spec() -> bool {
        true
    }

    open spec fn partial_cmp_spec(&self, other: &SeqNo) -> Option<Ordering> {
        if self.0 < other.0 {
            Some(Ordering::Less)
        } else if self.0 == other.0 {
            Some(Ordering::Equal)
        } else {
            Some(Ordering::Greater)
        }
    }
}

/// Sequence numbers are ordered as their positions are, and are the same where
/// those are.
pub proof fn sequence_order_is_that_of_positions(a: u64, b: u64)
    ensures
        SeqNo(a).partial_cmp_spec(&SeqNo(b)) == Some(Ordering::Less) <==> a < b,
        SeqNo(a).partial_cmp_spec(&SeqNo(b)) == Some(Ordering::Equal) <==> a == b,
        SeqNo(a).partial_cmp_spec(&SeqNo(b)) == Some(Ordering::Greater) <==> a > b,
        SeqNo(a) == SeqNo(b) <==> a == b,
{
}

impl SeqNo {
    /// The first sequence number a log assigns.
    pub fn first() -> (seq: SeqNo)
        ensures
            seq == SeqNo(0),
    {
        SeqNo(0)
    }

    /// Builds a sequence number from its raw position.
    pub fn new(raw: u64) -> (seq: SeqNo)
        ensures
            seq == SeqNo(raw),
    {
        SeqNo(raw)
    }

    /// The underlying position.
    pub fn raw(self) -> (raw: u64)
        ensures
            raw == self.0,
    {
        self.0
    }

    /// The next position.
    pub(crate) fn next(self) -> (seq: SeqNo)
        requires
            self.0 < u64::MAX,
        ensures
            seq == SeqNo((self.0 + 1) as u64),
    {
        SeqNo(self.0 + 1)
    }
}

/// One entry in the log.
#[derive(Debug, Clone, Copy, PartialEq, Eq, Hash, Structural)]
pub struct Record {
    /// Where it sits.
    pub seq: SeqNo,
    /// The format this record was written in.
    pub version: u16,
    /// What happened.
    pub event: Event,
}

/// Why an append failed.
#[derive(Debug, Clone, Copy, PartialEq, Eq, Hash, Structural)]
pub enum LogError {
    /// The log has no room for another record.
    Full,
    /// The underlying store refused the write.
    WriteFailed,
}

impl LogError {
    /// The error in words.
    pub fn text(&self) -> (words: &'static str)
        ensures
            words@ == match *self {
                LogError::Full => "event log is full"@,
                LogError::WriteFailed => "event log write failed"@,
            },
    {
        match self {
            LogError::Full => "event log is full",
            LogError::WriteFailed => "event log write failed",
        }
    }
}

/// Somewhere records can be appended.
///
/// `append` is fallible on purpose: a decision that is not in the log is not
/// replayable, so the engine treats an error here as a halt condition.
pub trait EventLog {
    /// What the log needs to hold of itself between calls.
    spec fn well_formed(&self) -> bool;

    /// Every record accepted so far, in order.
    spec fn entries(&self) -> Seq<Record>;

    /// Appends a record and returns the sequence number it was given.
    fn append(&mut self, event: Event) -> (seq: Result<SeqNo, LogError>)
        requires
            old(self).well_formed(),
        ensures
            final(self).well_formed(),
            seq matches Ok(at) ==> final(self).entries() == old(self).entries().push(
                (Record { seq: at, version: FORMAT_VERSION, event }),
            ),
    ;

    /// How many records are in the log.
    fn len(&self) -> (count: usize)
        requires
            self.well_formed(),
        ensures
            count == self.entries().len(),
    ;

    /// Whether the log is empty.
    fn is_empty(&self) -> (empty: bool)
        requires
            self.well_formed(),
        ensures
            empty == (self.entries().len() == 0),
    {
        self.len() == 0
    }
}

/// The inputs among `records`, in order.
pub open spec fn inputs_of(records: Seq<Record>) -> Seq<Inbound>
    decreases records.len(),
{
    if records.len() == 0 {
        Seq::empty()
    } else {
        let rest = inputs_of(records.drop_last());
        match records.last().event {
            Event::In(i) => rest.push(i),
            Event::Out(_) => rest,
        }
    }
}

/// The decisions among `records`, in order.
pub open spec fn decisions_of(records: Seq<Record>) -> Seq<Outbound>
    decreases records.len(),
{
    if records.len() == 0 {
        Seq::empty()
    } else {
        let rest = decisions_of(records.drop_last());
        match records.last().event {
            Event::Out(o) => rest.push(o),
            Event::In(_) => rest,
        }
    }
}

/// An in-memory log.
///
/// Build it with [`MemoryLog::with_capacity`] sized for the session and appending
/// does not allocate; [`MemoryLog::would_grow`] reports whether the next append
/// would.
#[derive(Debug, Clone)]
pub struct MemoryLog {
    records: Vec<Record>,
    next: u64,
}

/// How many items `items` has room for, by `Vec::capacity`. The standard
/// library promises no more than that it is at least the length: what an
/// allocator handed out beyond that is its own affair.
#[verifier::external_body]
pub(crate) fn capacity_of<T>(items: &Vec<T>) -> (capacity: usize)
    ensures
        capacity >= items@.len(),
{
    items.capacity()
}

/// Whether a store of `len` items with room for `capacity` is full.
pub fn is_full(len: usize, capacity: usize) -> (full: bool)
    ensures
        full == (len == capacity),
{
    len == capacity
}

impl MemoryLog {
    /// An empty log that will allocate on first append.
    pub fn new() -> (log: MemoryLog)
        ensures
            log.well_formed(),
            log.entries() == Seq::<Record>::empty(),
    {
        MemoryLog { records: Vec::new(), next: 0 }
    }

    /// An empty log with room for `capacity` records reserved up front.
    pub fn with_capacity(capacity: usize) -> (log: MemoryLog)
        ensures
            log.well_formed(),
            log.entries() == Seq::<Record>::empty(),
    {
        MemoryLog { records: Vec::with_capacity(capacity), next: 0 }
    }

    /// Whether the next append would grow the backing store, and so allocate.
    /// It is so exactly when [`is_full`] holds of the length and what the
    /// allocator gave, which no clause can name.
    pub fn would_grow(&self) -> bool {
        is_full(self.records.len(), capacity_of(&self.records))
    }

    /// Every record, in order.
    pub fn records(&self) -> (records: &[Record])
        ensures
            records@ == self.entries(),
    {
        self.records.as_slice()
    }

    /// A cursor over the whole log, positioned at the start.
    pub fn cursor(&self) -> (cursor: Cursor<'_>)
        ensures
            cursor.records@ == self.entries(),
            cursor.next == 0,
    {
        Cursor { records: self.records.as_slice(), next: 0 }
    }

    /// Just the decisions, in order: the sequence a replay must reproduce.
    pub fn outbound(&self) -> (decisions: Vec<Outbound>)
        ensures
            decisions@ == decisions_of(self.entries()),
    {
        let mut decisions: Vec<Outbound> = Vec::new();
        let mut i: usize = 0;
        while i < self.records.len()
            invariant
                i <= self.records.len(),
                decisions@ == decisions_of(self.records@.take(i as int)),
            decreases self.records.len() - i,
        {
            assert(self.records@.take(i + 1).drop_last() =~= self.records@.take(i as int));
            if let Event::Out(o) = self.records[i].event {
                decisions.push(o);
            }
            i += 1;
        }
        assert(self.records@.take(i as int) =~= self.records@);
        decisions
    }

    /// Just the inputs, in order: what a replay feeds back.
    pub fn inbound(&self) -> (inputs: Vec<Inbound>)
        ensures
            inputs@ == inputs_of(self.entries()),
    {
        let mut inputs: Vec<Inbound> = Vec::new();
        let mut i: usize = 0;
        while i < self.records.len()
            invariant
                i <= self.records.len(),
                inputs@ == inputs_of(self.records@.take(i as int)),
            decreases self.records.len() - i,
        {
            assert(self.records@.take(i + 1).drop_last() =~= self.records@.take(i as int));
            if let Event::In(input) = self.records[i].event {
                inputs.push(input);
            }
            i += 1;
        }
        assert(self.records@.take(i as int) =~= self.records@);
        inputs
    }
}

impl Default for MemoryLog {
    fn default() -> (log: MemoryLog)
        ensures
            log.well_formed(),
            log.entries() == Seq::<Record>::empty(),
    {
        MemoryLog::new()
    }
}

impl EventLog for MemoryLog {
    /// Record *i* carries sequence number *i* and this build's format.
    closed spec fn well_formed(&self) -> bool {
        &&& self.next == self.records@.len()
        &&& forall|i: int|
            0 <= i < self.records@.len() ==> (#[trigger] self.records@[i]).seq == SeqNo(i as u64)
                && self.records@[i].version == FORMAT_VERSION
    }

    closed spec fn entries(&self) -> Seq<Record> {
        self.records@
    }

    fn append(&mut self, event: Event) -> (seq: Result<SeqNo, LogError>)
        ensures
            seq == Ok::<SeqNo, LogError>(SeqNo(old(self).entries().len() as u64)),
            old(self).entries().len() <= u64::MAX,
    {
        let seq = SeqNo(self.next);
        self.records.push(Record { seq, version: FORMAT_VERSION, event });
        let count: usize = self.records.len();
        assert(count == old(self).records@.len() + 1);
        self.next = seq.next().0;
        Ok(seq)
    }

    fn len(&self) -> (count: usize) {
        self.records.len()
    }
}

/// Every record of a log carries its own position and this build's format.
pub proof fn log_is_gap_free(log: MemoryLog, i: int)
    requires
        log.well_formed(),
        0 <= i < log.entries().len(),
    ensures
        log.entries()[i].seq.0 == i,
        log.entries()[i].version == FORMAT_VERSION,
{
    assert(log.records@[i].seq == SeqNo(i as u64));
}

/// A read position in a log. Borrows the records rather than copying them.
#[derive(Debug, Clone)]
pub struct Cursor<'a> {
    pub records: &'a [Record],
    pub next: usize,
}

impl<'a> Cursor<'a> {
    /// The next record, advancing the cursor.
    pub fn next_record(&mut self) -> (record: Option<&'a Record>)
        ensures
            final(self).records@ == old(self).records@,
            if old(self).next < old(self).records@.len() {
                &&& record == Some(&old(self).records@[old(self).next as int])
                &&& final(self).next == old(self).next + 1
            } else {
                &&& record is None
                &&& final(self).next == old(self).next
            },
    {
        if self.next < self.records.len() {
            let record = &self.records[self.next];
            self.next += 1;
            Some(record)
        } else {
            None
        }
    }

    /// The next record without advancing.
    pub fn peek(&self) -> (record: Option<&'a Record>)
        ensures
            record == if self.next < self.records@.len() {
                Some(&self.records@[self.next as int])
            } else {
                None
            },
    {
        if self.next < self.records.len() {
            Some(&self.records[self.next])
        } else {
            None
        }
    }

    /// Moves the cursor to the given sequence number and returns whether that
    /// position exists. Where it does not, the cursor stays where it was.
    pub fn seek(&mut self, seq: SeqNo) -> (found: bool)
        ensures
            found == (seq.0 <= old(self).records@.len()),
            final(self).records@ == old(self).records@,
            final(self).next == if found {
                seq.0 as int
            } else {
                old(self).next as int
            },
    {
        let count: usize = self.records.len();
        if seq.0 <= count as u64 {
            self.next = seq.0 as usize;
            true
        } else {
            false
        }
    }

    /// The sequence number the next read would return.
    pub fn position(&self) -> (seq: SeqNo)
        ensures
            seq.0 == self.next,
    {
        SeqNo(self.next as u64)
    }

    /// Whether every record has been read.
    pub fn is_exhausted(&self) -> (done: bool)
        ensures
            done == (self.next >= self.records@.len()),
    {
        self.next >= self.records.len()
    }
}

} // verus!
