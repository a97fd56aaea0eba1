//! A session recorded across more than one file.
//!
//! What these tests protect is the sequence: a chain that restarts at zero, skips
//! a number, or repeats one is not a session that can be replayed.

use ultra_trade::event::codec::{InstrumentEntry, LogHeader, RECORD_LEN};
use ultra_trade::event::{
    ChainReader, Event, Inbound, LogFileError, LogReader, LogWriter, MarketEvent, MarketKind,
    Record, Recovery, SessionError, Segments, SeqNo, StopReason,
};
use ultra_trade::value::{ExchangeTime, Instrument, InstrumentId, OrderId, Px, Qty, ReceiveTime};

fn header() -> LogHeader {
    let instrument = Instrument {
        id: InstrumentId::new(0),
        tick: Px::from_scaled(10_000_000),
        lot: Qty::from_scaled(1_000_000_000),
        min_qty: Qty::from_scaled(1_000_000_000),
    };
    LogHeader::new(
        42,
        ExchangeTime::from_nanos(1_000),
        OrderId::new(0),
        vec![InstrumentEntry::new(instrument, "AAPL").expect("entry")],
    )
}

fn quote(bid: i64) -> Event {
    Event::In(Inbound::Market(MarketEvent {
        instrument: InstrumentId::new(0),
        exchange_time: ExchangeTime::from_nanos(1_000 + bid),
        receive_time: ReceiveTime::from_nanos(1_000 + bid),
        kind: MarketKind::Quote {
            bid_px: Px::from_scaled(bid),
            bid_qty: Qty::from_scaled(1),
            ask_px: Px::from_scaled(bid + 1),
            ask_qty: Qty::from_scaled(1),
        },
    }))
}

/// A directory in memory: the segments of one session, by number.
struct Dir {
    files: Vec<Vec<u8>>,
}

impl Dir {
    fn new() -> Dir {
        Dir { files: Vec::new() }
    }

    /// The numbers of its segments, as a listing may have them.
    fn existing(&self) -> Vec<u32> {
        (0..self.files.len() as u32).rev().collect()
    }

    fn names(&self) -> Vec<String> {
        Segments::paths("session", Some("log"), &self.existing()).expect("whole")
    }

    fn create(&mut self) -> Result<LogWriter, LogFileError> {
        let name = Segments::create_path("session", Some("log"), &self.existing())?;
        assert_eq!(name, "session.0.log");
        let writer = Segments::create(header(), &self.existing())?;
        self.files.push(writer.opening());
        Ok(writer)
    }

    fn resume(&mut self) -> LogWriter {
        let (index, writer) = Segments::resume(&self.existing(), &self.files).expect("resume");
        assert_eq!(index as usize, self.files.len(), "the next segment");
        self.files.push(writer.opening());
        writer
    }

    fn sync(&mut self, writer: &mut LogWriter) {
        let last = self.files.len() - 1;
        self.files[last].extend_from_slice(writer.unwritten());
        writer.flushed(true);
    }

    fn read_all(&self) -> (Vec<Record>, Recovery) {
        assert_eq!(self.names().len(), self.files.len());
        Segments::read_all(&self.files).expect("open")
    }

    /// Cuts bytes off the end of a segment, which is what a torn tail looks like.
    fn tear(&mut self, index: usize, bytes: usize) {
        let len = self.files[index].len();
        self.files[index].truncate(len - bytes);
    }
}

fn write_first(dir: &mut Dir, count: i64) {
    let mut writer = dir.create().expect("create");
    for n in 0..count {
        writer.append_record(quote(n));
    }
    dir.sync(&mut writer);
}

fn numbers(records: &[Record]) -> Vec<u64> {
    records.iter().map(|r| r.seq.raw()).collect()
}

// ---- naming --------------------------------------------------------------

#[test]
fn the_first_segment_is_numbered_rather_than_bare() {
    assert_eq!(Segments::path("session", 0, Some("log")), "session.0.log");
    assert_eq!(Segments::path("session", 12, Some("log")), "session.12.log");
    assert_eq!(Segments::path("session", 0, None), "session.0");
    let mut dir = Dir::new();
    assert!(dir.names().is_empty());
    write_first(&mut dir, 3);
    assert_eq!(dir.names(), vec!["session.0.log"]);
}

#[test]
fn a_segment_is_known_by_its_name() {
    let number = |name| Segments::number_of(name, "session", Some("log"));
    assert_eq!(number("session.0.log"), Some(0));
    assert_eq!(number("session.4294967295.log"), Some(u32::MAX));
    for other in [
        "session.log",
        "session..log",
        "session.00.log",
        "session.+1.log",
        "session.4294967296.log",
        "session.1.log.bak",
        "other.1.log",
        "session.1",
        "",
    ] {
        assert_eq!(number(other), None, "{other:?}");
    }
    assert_eq!(Segments::number_of("session.7", "session", None), Some(7));
    assert_eq!(Segments::number_of("session.7.log", "session", None), None);
}

#[test]
fn resuming_opens_the_next_segment_and_leaves_the_previous_one_alone() {
    let mut dir = Dir::new();
    write_first(&mut dir, 4);
    let before = dir.files[0].clone();

    let mut writer = dir.resume();
    writer.append_record(quote(99));
    dir.sync(&mut writer);

    assert_eq!(dir.names(), vec!["session.0.log", "session.1.log"]);
    assert_eq!(
        before, dir.files[0],
        "the segment a crash damaged must never be written to again"
    );
}

#[test]
fn a_missing_segment_is_refused() {
    // Segment 1 is gone and segment 2 is there.
    let e = Segments::paths("session", Some("log"), &[2, 0]).expect_err("a hole");
    assert_eq!(
        e,
        LogFileError::MissingSegment {
            missing: 1,
            found: 2
        }
    );
    let text = e.text().plain().expect("only characters");
    assert_eq!(
        text,
        "this session is missing segment 1, but segment 2 is present"
    );
    let broken = Segments::resume(&[2, 0], &[]);
    assert!(matches!(broken, Err(SessionError::Broken(fault)) if fault == e));
    assert_eq!(Segments::create_path("session", None, &[2, 0]), Err(e));
}

#[test]
fn a_gap_is_an_error_however_wide_it_is() {
    let hole = |missing, found| Err(LogFileError::MissingSegment { missing, found });
    assert_eq!(Segments::count(&[0, 17]), hole(1, 17));
    assert_eq!(Segments::count(&[u32::MAX, 0, 1, 900]), hole(2, 900));
    assert_eq!(Segments::count(&[5]), hole(0, 5));
    assert_eq!(Segments::count(&[]), Ok(0));
    assert_eq!(Segments::count(&[2, 0, 1]), Ok(3));
}

// ---- the sequence --------------------------------------------------------

#[test]
fn the_new_segment_continues_the_sequence_rather_than_restarting() {
    let mut dir = Dir::new();
    write_first(&mut dir, 4); // seq 0..=3

    let mut writer = dir.resume();
    let (seq, _) = writer.append_record(quote(99));
    assert_eq!(seq, SeqNo::new(4));
    dir.sync(&mut writer);

    let (records, _) = dir.read_all();
    assert_eq!(numbers(&records), vec![0, 1, 2, 3, 4]);
}

#[test]
fn a_torn_tail_is_dropped_and_the_next_segment_starts_after_what_survived() {
    let mut dir = Dir::new();
    write_first(&mut dir, 4); // seq 0..=3
    dir.tear(0, RECORD_LEN / 2);

    let mut writer = dir.resume();
    assert_eq!(writer.append_record(quote(99)).0, SeqNo::new(3));
    dir.sync(&mut writer);

    let (records, recovery) = dir.read_all();
    assert_eq!(numbers(&records), vec![0, 1, 2, 3]);
    assert!(
        !recovery.is_clean(),
        "the damage is still reported; continuing a session does not repair it"
    );
}

#[test]
fn a_chain_of_several_segments_reads_as_one_gap_free_session() {
    let mut dir = Dir::new();
    write_first(&mut dir, 2);
    for round in 0..3 {
        let mut writer = dir.resume();
        writer.append_record(quote(100 + round));
        writer.append_record(quote(200 + round));
        dir.sync(&mut writer);
    }

    assert_eq!(dir.names().len(), 4);
    assert_eq!(dir.names()[3], "session.3.log");
    let (records, recovery) = dir.read_all();
    assert!(recovery.is_clean());
    assert_eq!(numbers(&records), (0..8).collect::<Vec<_>>());
}

// ---- refusals ------------------------------------------------------------

#[test]
fn creating_a_session_that_already_exists_is_refused() {
    let mut dir = Dir::new();
    write_first(&mut dir, 1);
    assert!(matches!(dir.create(), Err(LogFileError::AlreadyExists)));
    assert_eq!(
        Segments::create_path("session", None, &[0]),
        Err(LogFileError::AlreadyExists)
    );
}

#[test]
fn resuming_a_session_that_was_never_started_is_refused() {
    // A resume that quietly becomes a fresh session loses the position that was
    // to be recovered.
    assert!(matches!(
        Segments::resume(&[], &[]),
        Err(SessionError::NoSession)
    ));
    assert!(matches!(Segments::header(&[]), Err(SessionError::NoSession)));
    let (records, recovery) = Segments::read_all(&[]).expect("nothing to open");
    assert!(records.is_empty() && recovery.is_clean());
}

#[test]
fn a_resumed_segment_carries_the_original_header() {
    let mut dir = Dir::new();
    write_first(&mut dir, 2);

    let mut writer = dir.resume();
    assert_eq!(writer.header(), &header());
    assert_eq!(Segments::header(&dir.files).expect("header"), header());
    writer.append_record(quote(9));
    dir.sync(&mut writer);

    let (_, recovery) = dir.read_all();
    assert!(recovery.is_clean());
}

#[test]
fn damage_in_a_middle_segment_stops_the_read_there() {
    let mut dir = Dir::new();
    write_first(&mut dir, 3);
    let mut writer = dir.resume();
    writer.append_record(quote(50));
    dir.sync(&mut writer);

    dir.tear(0, RECORD_LEN / 2);

    let (records, recovery) = dir.read_all();
    assert_eq!(records.len(), 2, "stopped at the damage in segment 0");
    // The tear took record 2, and segment 1 opens at 3 because it was opened
    // before the tear. The honest report is the hole in the chain.
    assert_eq!(
        recovery.stopped,
        Some(StopReason::SequenceGap {
            expected: SeqNo::new(2),
            found: SeqNo::new(3),
        })
    );
}

#[test]
fn a_segment_that_cannot_be_opened_is_refused() {
    let mut dir = Dir::new();
    write_first(&mut dir, 2);
    let whole = LogReader::open(&dir.files[0]).expect("open").read_all();
    assert_eq!(whole.0.len(), 2);

    dir.files[0][0] ^= 0xFF;
    let fault = Segments::read_all(&dir.files).expect_err("no header");
    assert!(matches!(fault, LogFileError::Codec(_)));
    assert!(matches!(
        Segments::resume(&[0], &dir.files),
        Err(SessionError::Broken(e)) if e == fault
    ));
    assert!(matches!(
        Segments::header(&dir.files),
        Err(SessionError::Broken(e)) if e == fault
    ));
}

#[test]
fn a_chain_is_read_segment_by_segment() {
    let mut dir = Dir::new();
    write_first(&mut dir, 2);
    let mut writer = dir.resume();
    writer.append_record(quote(7));
    dir.sync(&mut writer);

    let mut chain = ChainReader::new();
    for (n, bytes) in dir.files.iter().enumerate() {
        let (records, recovery) = LogReader::open(bytes).expect("open").read_all();
        assert!(chain.add_segment(records, recovery, n == 1));
    }
    assert_eq!((chain.all, chain.recovery), dir.read_all());
}

#[test]
fn the_writer_a_resume_returns_is_an_ordinary_log_writer() {
    let mut dir = Dir::new();
    write_first(&mut dir, 1);
    let writer: LogWriter = dir.resume();
    assert_eq!(writer.records(), 1, "the sequence carries over");
}
