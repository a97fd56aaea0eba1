//! What is kept of a session across damage, segments and the writer.
use vstd::prelude::*;

use super::background::{after_pass, DrainStep, Handoff, WriterReport};
use super::codec::{record, RECORD_LEN};
use super::segments::{ChainView, SegmentView};
use super::{
    file, segments, Cursor, Event, LogError, LogWriter, Record, SeqNo, StopReason, FORMAT_VERSION,
};

verus! {

/// Whether a block of a file holds the record that belongs at its place: it decodes,
/// and its number is as far from the first one's as its place is from the start.
pub open spec fn belongs_here(b: Seq<u8>, start: int, base: u64, i: int) -> bool {
    let block = b.subrange(start + i * 80, start + i * 80 + 80);
    &&& record::record_of(block) matches Ok(r)
    &&& (r.seq.0 - base - i) % 0x1_0000_0000_0000_0000 == 0
}

/// What a read trusts: every record up to the first that does not belong where it
/// stands, and none from there on.
pub proof fn records_are_trusted_up_to_the_first_misfit(
    b: Seq<u8>,
    start: int,
    base: u64,
    upto: int,
)
    requires
        0 <= upto,
    ensures
        ({
            let count = file::trusted(b, start, base, upto);
            &&& 0 <= count <= upto
            &&& forall|i: int| 0 <= i < count ==> #[trigger] belongs_here(b, start, base, i)
            &&& count < upto ==> !belongs_here(b, start, base, count)
        }),
    decreases upto,
{
    if upto > 0 {
        records_are_trusted_up_to_the_first_misfit(b, start, base, upto - 1);
        let i = upto - 1;
        assert(b.subrange(start + i * 80, start + i * 80 + 80) == file::slot(b, start, i));
        if let Ok(r) = record::record_of(file::slot(b, start, i)) {
            let n = base + i;
            let m = 0x1_0000_0000_0000_0000int;
            assert(n % m == file::number_at(base, i));
            same_number(r.seq.0 as int, n, m);
        }
    }
}

proof fn same_number(a: int, n: int, m: int)
    requires
        0 <= a < m,
        0 <= n,
        m > 0,
    ensures
        a == n % m <==> (a - n) % m == 0,
{
    vstd::arithmetic::div_mod::lemma_fundamental_div_mod(n, m);
    vstd::arithmetic::div_mod::lemma_mod_bound(n, m);
    let q = n / m;
    let r = n % m;
    assert((a - n) % m == (a - r) % m) by {
        vstd::arithmetic::div_mod::lemma_mod_multiples_vanish(-q, a - r, m);
        assert(m * -q + (a - r) == a - n) by (nonlinear_arith)
            requires
                n == m * q + r,
        ;
    }
    if a == r {
        assert(0int % m == 0) by (nonlinear_arith)
            requires
                m > 0,
        ;
    } else if a > r {
        vstd::arithmetic::div_mod::lemma_small_mod((a - r) as nat, m as nat);
    } else {
        vstd::arithmetic::div_mod::lemma_mod_multiples_vanish(1, a - r, m);
        vstd::arithmetic::div_mod::lemma_small_mod((a - r + m) as nat, m as nat);
    }
}

/// Why a read stops short: at a record that does not decode with what is wrong with
/// it and where, at one out of sequence with the number that belonged there and the
/// one that was found; behind the last whole record where bytes are left over; and
/// not at all where nothing is.
pub proof fn reads_say_why_they_stop(
    b: Seq<u8>,
    start: int,
    base: u64,
    whole: int,
    partial: u64,
    read: int,
)
    requires
        0 <= read <= whole <= u64::MAX,
        base + whole <= u64::MAX,
    ensures
        ({
            let stop = file::stop_after(b, start, base, whole, partial, read);
            let block = b.subrange(start + read * 80, start + read * 80 + 80);
            if read == whole {
                &&& partial == 0 <==> stop is None
                &&& partial > 0 ==> stop == Some(StopReason::TornTail { partial_bytes: partial })
            } else {
                match record::record_of(block) {
                    Ok(r) => stop matches Some(StopReason::SequenceGap { expected, found })
                        && expected.0 == base + read && found == r.seq,
                    Err(e) => stop matches Some(StopReason::Corrupt { index, error }) && index
                        == read && error == e,
                }
            }
        }),
{
    assert(b.subrange(start + read * 80, start + read * 80 + 80) == file::slot(b, start, read));
}

/// What a chain of segments keeps as one more is read. Where the segment's numbers do
/// not go on from those before, it is left out and the gap is named. Else its records
/// are added behind the others and its lost bytes to theirs; and the chain goes on
/// exactly where the segment was whole, or ended within a record and was not the
/// last.
pub proof fn segments_join_where_the_numbers_go_on(
    chain: ChainView,
    segment: SegmentView,
    is_last: bool,
)
    requires
        chain.all.len() > 0 ==> chain.all.last().seq.0 < u64::MAX,
        chain.recovery.discarded_bytes + segment.recovery.discarded_bytes <= u64::MAX,
        chain.all.len() + segment.records.len() <= u64::MAX,
    ensures
        ({
            let after = segments::joined(chain, segment, is_last);
            let gap = chain.all.len() > 0 && segment.records.len() > 0 && segment.records[0].seq.0
                != chain.all.last().seq.0 + 1;
            &&& after.recovery.records == after.all.len()
            &&& gap ==> {
                &&& after.all == chain.all
                &&& !after.open
                &&& after.recovery.discarded_bytes == chain.recovery.discarded_bytes
                &&& after.recovery.stopped matches Some(StopReason::SequenceGap { expected, found })
                &&& expected.0 == chain.all.last().seq.0 + 1
                &&& found == segment.records[0].seq
            }
            &&& !gap ==> {
                &&& after.all == chain.all + segment.records
                &&& after.recovery.discarded_bytes == chain.recovery.discarded_bytes
                    + segment.recovery.discarded_bytes
                &&& after.open <==> match segment.recovery.stopped {
                    None => true,
                    Some(StopReason::TornTail { .. }) => !is_last,
                    Some(_) => false,
                }
                &&& !after.open ==> after.recovery.stopped == segment.recovery.stopped
                &&& after.open ==> after.recovery.stopped == chain.recovery.stopped
            }
        }),
{
}

/// A session goes on at the number behind its last record, and at zero where it has
/// none.
pub proof fn sessions_go_on_behind_their_last_record(records: Seq<Record>)
    requires
        records.len() > 0 ==> records.last().seq.0 < u64::MAX,
    ensures
        segments::resumes_at(records).0 == if records.len() == 0 {
            0
        } else {
            records.last().seq.0 + 1
        },
{
}

/// The writer finishes only once the recording is over and a pass moved nothing, so
/// nothing that was handed off is left behind; whatever a pass moved is flushed; and
/// it sleeps only while it may still be handed something.
pub proof fn writers_leave_nothing_behind(moved: bool, stop: bool, step: DrainStep)
    requires
        call_ensures(after_pass, (moved, stop), step),
    ensures
        step == DrainStep::Finish <==> stop && !moved,
        step == DrainStep::Flush <==> moved,
        step == DrainStep::Idle <==> !stop && !moved,
{
}

/// A record that is handed to the writer decodes as what happened, under the next
/// number; once the writer has failed nothing is handed to it.
pub proof fn what_is_handed_off_reads_back(
    handoff: Handoff,
    event: Event,
    failed: bool,
    block: Result<[u8; RECORD_LEN], LogError>,
)
    requires
        call_ensures(Handoff::prepare, (&handoff, event, failed), block),
    ensures
        block is Ok <==> !failed,
        block matches Err(e) ==> e == LogError::WriteFailed,
        block matches Ok(b) ==> record::record_of(b@) == Ok::<Record, super::codec::CodecError>(
            Record { seq: SeqNo(handoff.next), version: FORMAT_VERSION, event },
        ),
{
    record::record_round_trips(
        Record { seq: SeqNo(handoff.next), version: FORMAT_VERSION, event },
    );
}

/// A report counts what was handed off from the first number on, and says that the
/// ring was close to full exactly where more than half of it was taken at once.
pub proof fn reports_count_what_was_handed_off(
    handoff: Handoff,
    written: u64,
    capacity: usize,
    report: WriterReport,
    close: bool,
)
    requires
        handoff.well_formed(),
        call_ensures(Handoff::report, (&handoff, written, capacity), report),
        call_ensures(WriterReport::was_close, (&report,), close),
    ensures
        handoff.first + report.handed_off == handoff.next,
        report.written == written,
        report.high_water == handoff.high_water,
        report.capacity == capacity,
        close <==> handoff.high_water > capacity - handoff.high_water,
{
}

/// A record that the ring took has the number that was next, and the one after it is
/// next now; one that it did not take is refused as too much, and nothing is counted.
pub proof fn what_is_taken_is_counted(
    handoff: &mut Handoff,
    taken: bool,
    pending: usize,
    seq: Result<SeqNo, LogError>,
)
    requires
        old(handoff).well_formed(),
        old(handoff).next < u64::MAX,
        call_ensures(Handoff::complete, (handoff, taken, pending), seq),
    ensures
        taken ==> seq == Ok::<SeqNo, LogError>(SeqNo(old(handoff).next)) && final(handoff).next
            == old(handoff).next + 1 && final(handoff).high_water >= pending
            && final(handoff).high_water >= old(handoff).high_water && (
        final(handoff).high_water == pending || final(handoff).high_water
            == old(handoff).high_water),
        !taken ==> seq == Err::<SeqNo, LogError>(LogError::Full) && *final(handoff)
            == *old(handoff),
        final(handoff).first == old(handoff).first,
{
}

/// What a writer appends decodes as what happened, behind what is buffered already,
/// under the next number; and what reached the file is not kept, what did not is.
pub proof fn what_is_appended_reads_back(
    writer: &mut LogWriter,
    event: Event,
    appended: (SeqNo, bool),
    flushes: &mut LogWriter,
    written: bool,
)
    requires
        old(writer).well_formed(),
        old(writer).next < u64::MAX,
        call_ensures(LogWriter::append_record, (writer, event), appended),
        call_ensures(LogWriter::flushed, (flushes, written), ()),
    ensures
        ({
            let (before, after) = (old(writer).buffer@, final(writer).buffer@);
            let n = before.len() as int;
            &&& appended.0.0 == old(writer).next
            &&& final(writer).next == old(writer).next + 1
            &&& after.len() == n + 80
            &&& after.take(n) == before
            &&& record::record_of(after.skip(n)) == Ok::<Record, super::codec::CodecError>(
                Record { seq: appended.0, version: FORMAT_VERSION, event },
            )
        }),
        written ==> final(flushes).buffer@.len() == 0,
        !written ==> final(flushes).buffer@ == old(flushes).buffer@,
{
    let record = Record { seq: appended.0, version: FORMAT_VERSION, event };
    record::record_round_trips(record);
    let (before, after) = (old(writer).buffer@, final(writer).buffer@);
    let n = before.len() as int;
    assert(after.take(n) =~= before);
    assert(after.skip(n) =~= record::bytes_of(record));
}

/// A cursor reads every record in turn, and goes to the position that it is sent to,
/// where there is one.
pub proof fn cursors_read_in_turn(
    reads: &mut Cursor<'_>,
    record: Option<&Record>,
    seeks: &mut Cursor<'_>,
    seq: SeqNo,
    found: bool,
)
    requires
        call_ensures(Cursor::next_record, (reads,), record),
        call_ensures(Cursor::seek, (seeks, seq), found),
    ensures
        old(reads).next < old(reads).records@.len() ==> record == Some(
            &old(reads).records@[old(reads).next as int],
        ) && final(reads).next == old(reads).next + 1,
        old(reads).next >= old(reads).records@.len() ==> record is None && final(reads).next
            == old(reads).next,
        found <==> seq.0 <= old(seeks).records@.len(),
        found ==> final(seeks).next == seq.0,
        !found ==> final(seeks).next == old(seeks).next,
{
}

} // verus!
