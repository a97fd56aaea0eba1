//! Recording a session without touching the hot path: the engine hands encoded
//! records to a ring, and a writer drains it.
//!
//! What happens when the writer falls behind is decided here. A full ring
//! refuses the record, and so does a writer that has failed: not dropped,
//! because a decision that is not in the log makes replay a lie, and not
//! blocked, because that is a stall on the hot path.
use vstd::prelude::*;

use super::codec::{bytes, encode_record, record, RECORD_LEN};
use super::{Event, LogError, Record, SeqNo, FORMAT_VERSION};
use vstd::arithmetic::power2;

verus! {

/// Words per record in the ring.
pub const WORDS: usize = 10;

/// The smallest ring worth having.
pub const MIN_CAPACITY: usize = 64;

/// The word at `index` of a record's bytes.
pub open spec fn word_of(block: Seq<u8>, index: int) -> u64 {
    bytes::uint_at(block, index * 8, 8) as u64
}

/// The first `count` words as bytes.
pub open spec fn bytes_of_words(words: Seq<u64>, count: int) -> Seq<u8>
    decreases count,
{
    if count <= 0 {
        Seq::empty()
    } else {
        bytes_of_words(words, count - 1) + bytes::le(words[count - 1] as nat, 8)
    }
}

/// The words of a record's bytes.
pub fn to_words(block: &[u8; RECORD_LEN]) -> (words: [u64; WORDS])
    ensures
        forall|i: int| 0 <= i < WORDS ==> #[trigger] words@[i] == word_of(block@, i),
{
    let mut words: [u64; WORDS] = [0;WORDS];
    let mut r = bytes::Reader::new(block.as_slice());
    let mut i: usize = 0;
    while i < WORDS
        invariant
            i <= WORDS,
            r.at == i * 8,
            r.buf@ == block@,
            words@.len() == WORDS,
            forall|k: int| 0 <= k < i ==> #[trigger] words@[k] == word_of(block@, k),
        decreases WORDS - i,
    {
        if let Ok(word) = r.u64() {
            words[i] = word;
        }
        i += 1;
    }
    words
}

/// The bytes of a record's words.
pub fn from_words(words: &[u64; WORDS]) -> (block: [u8; RECORD_LEN])
    ensures
        block@ == bytes_of_words(words@, WORDS as int),
{
    broadcast use bytes::le_len;

    let mut block: [u8; RECORD_LEN] = [0;RECORD_LEN];
    {
        let mut w = bytes::Writer::new(&mut block);
        fill(words, &mut w);
        assert(w.done() =~= w.buf@);
    }
    block
}

fn fill(words: &[u64; WORDS], w: &mut bytes::Writer<'_>)
    requires
        old(w).well_formed(),
        old(w).at == 0,
        old(w).buf@.len() == RECORD_LEN,
    ensures
        final(w).well_formed(),
        final(w).at == RECORD_LEN,
        final(w).buf@.len() == RECORD_LEN,
        final(w).done() == bytes_of_words(words@, WORDS as int),
        final(final(w).buf)@ == final(old(w).buf)@,
{
    broadcast use bytes::le_len;

    let mut i: usize = 0;
    assert(w.done() =~= bytes_of_words(words@, 0));
    while i < WORDS
        invariant
            i <= WORDS,
            w.well_formed(),
            w.at == i * 8,
            w.buf@.len() == RECORD_LEN,
            w.done() == bytes_of_words(words@, i as int),
            final(w.buf)@ == final(old(w).buf)@,
        decreases WORDS - i,
    {
        w.u64(words[i]);
        proof {
            bytes::le_len(words@[i as int] as nat, 8);
        }
        i += 1;
    }
}

proof fn words_cover(block: Seq<u8>, words: Seq<u64>, count: int)
    requires
        block.len() == RECORD_LEN,
        0 <= count <= WORDS,
        forall|i: int| 0 <= i < WORDS ==> #[trigger] words[i] == word_of(block, i),
    ensures
        bytes_of_words(words, count) == block.take(count * 8),
    decreases count,
{
    if count > 0 {
        words_cover(block, words, count - 1);
        let part = block.subrange((count - 1) * 8, count * 8);
        bytes::le_inverts_of_le(part);
        bytes::spans();
        assert(words[count - 1] == word_of(block, count - 1));
        assert(block.subrange((count - 1) * 8, (count - 1) * 8 + 8) == part);
        assert(block.take((count - 1) * 8) + part =~= block.take(count * 8));
    } else {
        assert(block.take(0) =~= Seq::empty());
    }
}

/// A record goes through the ring's words unchanged.
pub proof fn words_round_trip(block: Seq<u8>, words: Seq<u64>)
    requires
        block.len() == RECORD_LEN,
        forall|i: int| 0 <= i < WORDS ==> #[trigger] words[i] == word_of(block, i),
    ensures
        bytes_of_words(words, WORDS as int) == block,
{
    words_cover(block, words, WORDS as int);
    assert(block.take(80) =~= block);
}

/// Whether `n` is a power of two.
pub open spec fn is_power_of_two(n: nat) -> bool {
    exists|k: nat| n == #[trigger] power2::pow2(k)
}

/// The capacity of a ring that is asked to hold `requested` records: the least
/// power of two that is enough and worth having.
pub fn ring_capacity(requested: usize) -> (capacity: usize)
    requires
        requested <= usize::MAX / 32,
    ensures
        is_power_of_two(capacity as nat),
        capacity >= requested,
        capacity >= MIN_CAPACITY,
        capacity == MIN_CAPACITY || capacity / 2 < requested,
        capacity * WORDS <= usize::MAX,
{
    let mut capacity: usize = MIN_CAPACITY;
    let ghost mut k: nat = 6;
    proof {
        power2::lemma2_to64();
    }
    while capacity < requested
        invariant
            requested <= usize::MAX / 32,
            capacity >= MIN_CAPACITY,
            capacity == power2::pow2(k),
            capacity == MIN_CAPACITY || capacity / 2 < requested,
            capacity == MIN_CAPACITY || capacity < 2 * requested,
        decreases 2 * requested - capacity,
    {
        proof {
            power2::lemma_pow2_unfold(k + 1);
            k = k + 1;
        }
        capacity = capacity * 2;
    }
    assert(is_power_of_two(capacity as nat));
    capacity
}

/// Whether a ring that has taken `head` records and given up `tail` is full.
pub fn ring_is_full(head: u64, tail: u64, capacity: usize) -> (full: bool)
    requires
        tail <= head,
    ensures
        full == (head - tail >= capacity),
{
    head - tail >= capacity as u64
}

/// Where the words of the record number `count` start.
pub fn ring_base(count: u64, capacity: usize) -> (base: usize)
    requires
        capacity > 0,
        capacity * WORDS <= usize::MAX,
    ensures
        base == (count as int % capacity as int) * WORDS,
        base + WORDS <= capacity * WORDS,
{
    let index: u64 = count % capacity as u64;
    assert(index < capacity);
    assert(index * WORDS + WORDS <= capacity * WORDS) by (nonlinear_arith)
        requires
            index < capacity,
            WORDS == 10,
    ;
    index as usize * WORDS
}

/// A queue of encoded records of a fixed capacity, first in, first out.
#[derive(Debug)]
pub struct Ring {
    slots: Vec<u64>,
    capacity: usize,
    head: u64,
    tail: u64,
}

impl Ring {
    /// How many records it holds at most.
    pub closed spec fn room(self) -> nat {
        self.capacity as nat
    }

    /// How many records it has taken in all.
    pub closed spec fn taken(self) -> nat {
        self.head as nat
    }

    /// The words of the record number `count`.
    spec fn words_at(self, count: int) -> Seq<u64> {
        let base = (count % self.capacity as int) * WORDS;
        self.slots@.subrange(base, base + WORDS)
    }

    pub closed spec fn well_formed(self) -> bool {
        &&& self.capacity > 0
        &&& self.slots@.len() == self.capacity * WORDS
        &&& self.tail <= self.head
        &&& self.head - self.tail <= self.capacity
    }

    /// A ring asked to hold `requested` records.
    pub fn new(requested: usize) -> (ring: Ring)
        requires
            requested <= usize::MAX / 32,
        ensures
            ring.well_formed(),
            ring@ == Seq::<Seq<u8>>::empty(),
            ring.taken() == 0,
            is_power_of_two(ring.room()),
            ring.room() >= requested,
            ring.room() >= MIN_CAPACITY,
            ring.room() == MIN_CAPACITY || ring.room() / 2 < requested,
    {
        let capacity: usize = ring_capacity(requested);
        let slots: Vec<u64> = vec![0u64; capacity * WORDS];
        let ring = Ring { slots, capacity, head: 0, tail: 0 };
        assert(ring@ =~= Seq::<Seq<u8>>::empty());
        ring
    }

    /// How many records it holds at most.
    pub fn capacity(&self) -> (capacity: usize)
        ensures
            capacity == self.room(),
    {
        self.capacity
    }

    /// How many records wait in it.
    pub fn pending(&self) -> (count: usize)
        requires
            self.well_formed(),
        ensures
            count == self@.len(),
    {
        (self.head - self.tail) as usize
    }
}

impl Ring {
    /// Whether a call may lead from this ring to `after`.
    pub open spec fn leads_to(self, call: RingCall, after: Ring) -> bool {
        &&& after.room() == self.room()
        &&& match call {
            RingCall::Push { block, taken } => {
                &&& taken == (self@.len() < self.room())
                &&& after@ == if taken {
                    self@.push(block)
                } else {
                    self@
                }
            },
            RingCall::Pop { block: Some(block) } => {
                &&& self@.len() > 0
                &&& block == self@[0]
                &&& after@ == self@.drop_first()
            },
            RingCall::Pop { block: None } => self@.len() == 0 && after@ == self@,
        }
    }
}

impl View for Ring {
    type V = Seq<Seq<u8>>;

    /// The records that wait, oldest first.
    closed spec fn view(&self) -> Seq<Seq<u8>> {
        Seq::new(
            (self.head - self.tail) as nat,
            |i: int| bytes_of_words(self.words_at(self.tail + i), WORDS as int),
        )
    }
}

proof fn apart(a: int, b: int, capacity: int)
    requires
        0 <= a < b,
        b - a < capacity,
    ensures
        a % capacity != b % capacity,
{
    vstd::arithmetic::div_mod::lemma_fundamental_div_mod(a, capacity);
    vstd::arithmetic::div_mod::lemma_fundamental_div_mod(b, capacity);
    let qa = a / capacity;
    let qb = b / capacity;
    if a % capacity == b % capacity {
        assert(b - a == capacity * (qb - qa)) by (nonlinear_arith)
            requires
                a == capacity * qa + a % capacity,
                b == capacity * qb + b % capacity,
                a % capacity == b % capacity,
        ;
        assert(false) by (nonlinear_arith)
            requires
                b - a == capacity * (qb - qa),
                0 < b - a < capacity,
        ;
    }
}

impl Ring {
    /// Takes a record at the end. `false` means that the ring is full, and
    /// nothing changed.
    pub fn push(&mut self, block: &[u8; RECORD_LEN]) -> (taken: bool)
        requires
            old(self).well_formed(),
            old(self).taken() < u64::MAX,
        ensures
            final(self).well_formed(),
            old(self).leads_to(RingCall::Push { block: block@, taken }, *final(self)),
            final(self).taken() == old(self).taken() + (if taken {
                1int
            } else {
                0int
            }),
    {
        if ring_is_full(self.head, self.tail, self.capacity) {
            return false;
        }
        let words = to_words(block);
        let total: usize = self.slots.len();
        let base: usize = ring_base(self.head, self.capacity);
        let mut i: usize = 0;
        while i < WORDS
            invariant
                i <= WORDS,
                words@.len() == WORDS,
                base + WORDS <= total == self.slots@.len() == old(self).slots@.len(),
                self.capacity == old(self).capacity,
                self.head == old(self).head,
                self.tail == old(self).tail,
                forall|k: int| 0 <= k < i ==> self.slots@[base + k] == words@[k],
                forall|k: int|
                    0 <= k < total && !(base <= k < base + WORDS) ==> self.slots@[k]
                        == old(self).slots@[k],
            decreases WORDS - i,
        {
            self.slots.set(base + i, words[i]);
            i += 1;
        }
        self.head += 1;
        proof {
            let was = *old(self);
            let now = *self;
            let cap = was.capacity as int;
            assert forall|j: int| was.tail <= j < was.head implies now.words_at(j)
                == was.words_at(j) by {
                apart(j, was.head as int, cap);
                let other = j % cap;
                let mine = was.head as int % cap;
                assert(0 <= other < cap) by {
                    vstd::arithmetic::div_mod::lemma_mod_bound(j, cap);
                }
                assert(other * WORDS + WORDS <= base || base + WORDS <= other * WORDS)
                    by (nonlinear_arith)
                    requires
                        base == mine * WORDS,
                        other != mine,
                        WORDS == 10,
                ;
                assert(other * WORDS + WORDS <= cap * WORDS) by (nonlinear_arith)
                    requires
                        other < cap,
                        WORDS == 10,
                ;
                assert(now.words_at(j) =~= was.words_at(j));
            }
            assert(now.words_at(was.head as int) =~= words@);
            words_round_trip(block@, words@);
            assert(now@ =~= was@.push(block@));
        }
        true
    }

    /// Gives up the oldest record. `None` means that the ring is empty.
    pub fn pop(&mut self) -> (block: Option<[u8; RECORD_LEN]>)
        requires
            old(self).well_formed(),
        ensures
            final(self).well_formed(),
            final(self).taken() == old(self).taken(),
            old(self).leads_to(
                RingCall::Pop {
                    block: match block {
                        Some(b) => Some(b@),
                        None => None,
                    },
                },
                *final(self),
            ),
    {
        if self.tail == self.head {
            return None;
        }
        let total: usize = self.slots.len();
        let base: usize = ring_base(self.tail, self.capacity);
        let mut words: [u64; WORDS] = [0;WORDS];
        let mut i: usize = 0;
        while i < WORDS
            invariant
                i <= WORDS,
                words@.len() == WORDS,
                base + WORDS <= total == self.slots@.len(),
                *self == *old(self),
                forall|k: int| 0 <= k < i ==> words@[k] == self.slots@[base + k],
            decreases WORDS - i,
        {
            words[i] = self.slots[base + i];
            i += 1;
        }
        assert(words@ =~= self.words_at(self.tail as int));
        let block = from_words(&words);
        self.tail += 1;
        proof {
            let was = *old(self);
            assert(block@ == was@[0]);
            assert forall|j: int| was.tail < j < was.head implies self.words_at(j) == was.words_at(
                j,
            ) by {}
            assert(self@ =~= was@.drop_first());
        }
        Some(block)
    }
}

/// A call on a ring, and what it returned.
pub enum RingCall {
    Push { block: Seq<u8>, taken: bool },
    Pop { block: Option<Seq<u8>> },
}

/// The blocks that these calls handed over and the ring took, in order.
pub open spec fn accepted(calls: Seq<RingCall>) -> Seq<Seq<u8>>
    decreases calls.len(),
{
    if calls.len() == 0 {
        Seq::empty()
    } else {
        let before = accepted(calls.drop_last());
        match calls.last() {
            RingCall::Push { block, taken: true } => before.push(block),
            _ => before,
        }
    }
}

/// The blocks that these calls were given, in order.
pub open spec fn given(calls: Seq<RingCall>) -> Seq<Seq<u8>>
    decreases calls.len(),
{
    if calls.len() == 0 {
        Seq::empty()
    } else {
        let before = given(calls.drop_last());
        match calls.last() {
            RingCall::Pop { block: Some(block) } => before.push(block),
            _ => before,
        }
    }
}

/// Whether `calls` in turn lead from each of `rings` to the next.
pub open spec fn is_history(rings: Seq<Ring>, calls: Seq<RingCall>) -> bool {
    &&& rings.len() == calls.len() + 1
    &&& forall|i: int|
        0 <= i < calls.len() ==> rings[i].leads_to(#[trigger] calls[i], rings[i + 1])
}

/// A ring gives back what it took: over any history of pushes and pops, in
/// whatever order they come and however often it wraps round, what came out is
/// the beginning of what went in, block for block, and what waits is the rest.
/// So the next pop returns the oldest block not yet returned, and `None` exactly
/// when every block was. There is never more waiting than there is room for, and a
/// push is turned away exactly when there is that much.
pub proof fn ring_gives_back_what_it_took(rings: Seq<Ring>, calls: Seq<RingCall>)
    requires
        is_history(rings, calls),
        rings[0]@.len() == 0,
    ensures
        ({
            let now = rings.last();
            let taken = accepted(calls);
            let out = given(calls);
            &&& now.room() == rings[0].room()
            &&& now@.len() <= now.room()
            &&& out.len() <= taken.len()
            &&& out == taken.take(out.len() as int)
            &&& now@ == taken.skip(out.len() as int)
            &&& forall|block: Option<Seq<u8>>, after: Ring|
                #[trigger] now.leads_to(RingCall::Pop { block }, after) ==> block == if out.len()
                    < taken.len() {
                    Some(taken[out.len() as int])
                } else {
                    None
                }
            &&& forall|block: Seq<u8>, took: bool, after: Ring|
                #[trigger] now.leads_to(RingCall::Push { block, taken: took }, after) ==> took == (
                taken.len() - out.len() < now.room())
        }),
    decreases calls.len(),
{
    let now = rings.last();
    if calls.len() > 0 {
        let before = rings.drop_last();
        let earlier = calls.drop_last();
        assert forall|i: int| 0 <= i < earlier.len() implies before[i].leads_to(
            #[trigger] earlier[i],
            before[i + 1],
        ) by {
            assert(rings[i].leads_to(calls[i], rings[i + 1]));
        }
        ring_gives_back_what_it_took(before, earlier);
        let last = calls.last();
        assert(last == calls[calls.len() - 1]);
        assert(before.last().leads_to(last, now));
        let taken = accepted(earlier);
        let out = given(earlier);
        assert(accepted(calls).take(out.len() as int) =~= taken.take(out.len() as int));
        assert(now@ =~= accepted(calls).skip(given(calls).len() as int));
        assert(given(calls) =~= accepted(calls).take(given(calls).len() as int));
    } else {
        assert(now@ =~= accepted(calls).skip(0));
        assert(accepted(calls).take(0) =~= given(calls));
    }
}

/// What a finished recording did.
#[derive(Debug, Clone, Copy, PartialEq, Eq, Structural)]
pub struct WriterReport {
    /// Records the engine handed to the ring.
    pub handed_off: u64,
    /// Records the writer handed to the sink.
    pub written: u64,
    /// The deepest the ring ever got.
    pub high_water: usize,
    /// How many records the ring holds.
    pub capacity: usize,
}

impl WriterReport {
    /// Whether the ring got more than half full: a slower disk would have halted
    /// the session.
    pub fn was_close(&self) -> (close: bool)
        ensures
            close == (self.high_water * 2 > self.capacity),
    {
        self.high_water > self.capacity / 2
    }
}

/// The engine's side of a recording: numbering, encoding, and how deep the ring
/// has been.
#[derive(Debug, Clone, Copy, PartialEq, Eq, Structural)]
pub struct Handoff {
    /// What the first record of this recording carries.
    pub first: u64,
    pub next: u64,
    pub high_water: usize,
}

impl Handoff {
    /// That the numbers have gone up from the first one.
    pub open spec fn well_formed(self) -> bool {
        self.first <= self.next
    }

    /// A recording whose first record carries `first`.
    pub fn new(first: SeqNo) -> (handoff: Handoff)
        ensures
            handoff.well_formed(),
            handoff == (Handoff { first: first.0, next: first.0, high_water: 0 }),
    {
        Handoff { first: first.raw(), next: first.raw(), high_water: 0 }
    }

    /// Records handed to the ring. A recording that continues a session counts
    /// from where it went on.
    pub fn handed_off(&self) -> (count: u64)
        requires
            self.well_formed(),
        ensures
            count == self.next - self.first,
    {
        self.next - self.first
    }

    /// The bytes of the next record. Refused once the writer has failed:
    /// nothing after that reaches the file.
    pub fn prepare(&self, event: Event, failed: bool) -> (block: Result<
        [u8; RECORD_LEN],
        LogError,
    >)
        ensures
            match block {
                Ok(b) => !failed && b@ == record::bytes_of(
                    (Record { seq: SeqNo(self.next), version: FORMAT_VERSION, event }),
                ),
                Err(e) => failed && e == LogError::WriteFailed,
            },
    {
        if failed {
            return Err(LogError::WriteFailed);
        }
        let record = Record { seq: SeqNo::new(self.next), version: FORMAT_VERSION, event };
        let mut block: [u8; RECORD_LEN] = [0;RECORD_LEN];
        encode_record(&record, &mut block);
        Ok(block)
    }

    /// Notes whether the ring took the record, and how many wait in it now.
    pub fn complete(&mut self, taken: bool, pending: usize) -> (seq: Result<SeqNo, LogError>)
        requires
            old(self).well_formed(),
            old(self).next < u64::MAX,
        ensures
            final(self).well_formed(),
            final(self).first == old(self).first,
            if taken {
                &&& seq == Ok::<SeqNo, LogError>(SeqNo(old(self).next))
                &&& final(self).next == old(self).next + 1
                &&& final(self).high_water == if pending > old(self).high_water {
                    pending
                } else {
                    old(self).high_water
                }
            } else {
                &&& seq == Err::<SeqNo, LogError>(LogError::Full)
                &&& *final(self) == *old(self)
            },
    {
        if !taken {
            return Err(LogError::Full);
        }
        let seq = SeqNo::new(self.next);
        self.next += 1;
        if pending > self.high_water {
            self.high_water = pending;
        }
        Ok(seq)
    }

    /// What the recording did.
    pub fn report(&self, written: u64, capacity: usize) -> (report: WriterReport)
        requires
            self.well_formed(),
        ensures
            report == (WriterReport {
                handed_off: (self.next - self.first) as u64,
                written,
                high_water: self.high_water,
                capacity,
            }),
    {
        WriterReport {
            handed_off: self.handed_off(),
            written,
            high_water: self.high_water,
            capacity,
        }
    }
}

/// What the writer does once the ring is empty.
#[derive(Debug, Clone, Copy, PartialEq, Eq, Structural)]
pub enum DrainStep {
    /// Something was moved: flush it, then look again.
    Flush,
    /// Nothing was moved and the recording is over.
    Finish,
    /// Nothing was moved: sleep, then look again.
    Idle,
}

/// What the writer does after a pass over the ring. It never finishes on a pass
/// that moved something, so what was handed off before the stop is written.
pub fn after_pass(moved: bool, stop: bool) -> (step: DrainStep)
    ensures
        step == if moved {
            DrainStep::Flush
        } else if stop {
            DrainStep::Finish
        } else {
            DrainStep::Idle
        },
{
    if moved {
        DrainStep::Flush
    } else if stop {
        DrainStep::Finish
    } else {
        DrainStep::Idle
    }
}

} // verus!
