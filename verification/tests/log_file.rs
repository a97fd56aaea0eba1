//! Writing a session down and reading it back, including every way the bytes can
//! be damaged.

use ultra_trade::event::codec::{InstrumentEntry, LogHeader, RECORD_LEN};
use ultra_trade::event::{
    Command, CommandEvent, Event, Inbound, LogFileError, LogReader, LogWriter, MarketEvent,
    MarketKind, Recovery, SeqNo, StopReason,
};
use ultra_trade::value::{
    ExchangeTime, Instrument, InstrumentId, OrderId, Px, Qty, ReceiveTime,
};

const I: u32 = 0;

fn instrument(id: u32) -> Instrument {
    Instrument {
        id: InstrumentId::new(id),
        tick: Px::from_scaled(10_000_000),
        lot: Qty::from_scaled(1_000_000_000),
        min_qty: Qty::from_scaled(1_000_000_000),
    }
}

fn header() -> LogHeader {
    LogHeader::new(
        42,
        ExchangeTime::from_nanos(1_000),
        OrderId::new(0),
        vec![
            InstrumentEntry::new(instrument(0), "AAPL").expect("entry"),
            InstrumentEntry::new(instrument(1), "MSFT").expect("entry"),
        ],
    )
}

fn quote(at: i64, bid: i64) -> Event {
    Event::In(Inbound::Market(MarketEvent {
        instrument: InstrumentId::new(I),
        exchange_time: ExchangeTime::from_nanos(at),
        receive_time: ReceiveTime::from_nanos(at),
        kind: MarketKind::Quote {
            bid_px: Px::from_scaled(bid),
            bid_qty: Qty::from_scaled(1),
            ask_px: Px::from_scaled(bid + 1),
            ask_qty: Qty::from_scaled(1),
        },
    }))
}

/// A file in memory, and the writer that owns it.
struct File {
    writer: LogWriter,
    bytes: Vec<u8>,
}

impl File {
    fn create(header: LogHeader) -> File {
        let writer = LogWriter::create(header);
        let bytes = writer.opening();
        File { writer, bytes }
    }

    fn append(&mut self, event: Event) -> SeqNo {
        let (seq, full) = self.writer.append_record(event);
        if full {
            self.flush();
        }
        seq
    }

    fn flush(&mut self) {
        self.bytes.extend_from_slice(self.writer.unwritten());
        self.writer.flushed(true);
    }
}

/// Writes `count` quotes down.
fn write_session(count: i64) -> (LogHeader, Vec<u8>) {
    let h = header();
    let mut file = File::create(h.clone());
    for n in 0..count {
        file.append(quote(1_000 + n, 100 + n));
    }
    file.flush();
    (h, file.bytes)
}

/// Overwrites bytes at an offset.
fn poke(bytes: &mut [u8], offset: u64, with: &[u8]) {
    let at = offset as usize;
    bytes[at..at + with.len()].copy_from_slice(with);
}

// ---- the happy path ------------------------------------------------------

#[test]
fn a_session_written_to_a_file_reads_back_identically() {
    let (written, bytes) = write_session(50);

    let reader = LogReader::open(&bytes).expect("open");
    assert_eq!(reader.header(), &written);

    let records = reader.read_all_intact().expect("intact");
    assert_eq!(records.len(), 50);
    for (index, record) in records.iter().enumerate() {
        assert_eq!(record.seq, SeqNo::new(index as u64));
        assert_eq!(
            record.event,
            quote(1_000 + index as i64, 100 + index as i64)
        );
    }
}

#[test]
fn a_session_larger_than_the_write_buffer_round_trips() {
    let (_, bytes) = write_session(1_000);

    let reader = LogReader::open(&bytes).expect("open");
    assert_eq!(reader.record_capacity(), 1_000);
    let records = reader.read_all_intact().expect("intact");
    assert_eq!(records.len(), 1_000);
    assert_eq!(records[999].seq, SeqNo::new(999));
}

#[test]
fn a_log_with_no_records_is_clean_rather_than_damaged() {
    let (_, bytes) = write_session(0);

    let reader = LogReader::open(&bytes).expect("open");
    let (records, recovery) = reader.read_all();
    assert!(records.is_empty());
    assert!(recovery.is_clean());
    assert_eq!(recovery.records, 0);
}

#[test]
fn a_record_can_be_read_by_its_sequence_number_without_reading_the_rest() {
    let (_, bytes) = write_session(500);

    let reader = LogReader::open(&bytes).expect("open");
    for seq in [0u64, 1, 250, 499] {
        let record = reader.read_at(SeqNo::new(seq)).expect("read_at");
        assert_eq!(record.seq, SeqNo::new(seq));
        assert_eq!(record.event, quote(1_000 + seq as i64, 100 + seq as i64));
    }
}

#[test]
fn reading_past_the_end_says_what_is_there() {
    let (_, bytes) = write_session(3);

    let reader = LogReader::open(&bytes).expect("open");
    match reader.read_at(SeqNo::new(3)) {
        Err(LogFileError::NoSuchRecord { seq, available }) => {
            assert_eq!(seq, SeqNo::new(3));
            assert_eq!(available, 3);
        }
        other => panic!("expected NoSuchRecord, got {other:?}"),
    }
    let text = LogFileError::NoSuchRecord {
        seq: SeqNo::new(3),
        available: 3,
    }
    .text()
    .plain()
    .expect("only characters");
    assert_eq!(text, "no record at #3; the file holds 3");
}

// ---- damage --------------------------------------------------------------

#[test]
fn a_file_that_ends_mid_record_keeps_what_came_before_it() {
    let (h, mut bytes) = write_session(10);

    // End 30 bytes into what would have been record 10.
    bytes.resize(h.offset_of(10) as usize + 30, 0);

    let reader = LogReader::open(&bytes).expect("open");
    let (records, recovery) = reader.read_all();
    assert_eq!(records.len(), 10, "the intact records must survive");
    assert_eq!(
        recovery.stopped,
        Some(StopReason::TornTail { partial_bytes: 30 })
    );
    assert_eq!(recovery.discarded_bytes, 30);
    assert!(!recovery.is_clean());
}

#[test]
fn a_corrupt_record_stops_the_read_and_names_itself() {
    let (h, mut bytes) = write_session(20);

    // Damage record 7's payload.
    poke(&mut bytes, h.offset_of(7) + 20, &[0xFF]);

    let reader = LogReader::open(&bytes).expect("open");
    let (records, recovery) = reader.read_all();
    assert_eq!(records.len(), 7, "records before the damage must survive");
    assert!(matches!(
        recovery.stopped,
        Some(StopReason::Corrupt { index: 7, .. })
    ));
    // Thirteen records from the corrupt one onward.
    assert_eq!(recovery.discarded_bytes, 13 * RECORD_LEN as u64);
}

#[test]
fn a_record_in_the_wrong_place_is_caught_even_though_its_checksum_is_valid() {
    let (h, mut bytes) = write_session(20);

    // Copy record 15 over record 5, checksum and all.
    let from = h.offset_of(15) as usize;
    let record_15 = bytes[from..from + RECORD_LEN].to_vec();
    poke(&mut bytes, h.offset_of(5), &record_15);

    let reader = LogReader::open(&bytes).expect("open");
    let (records, recovery) = reader.read_all();
    assert_eq!(records.len(), 5);
    assert_eq!(
        recovery.stopped,
        Some(StopReason::SequenceGap {
            expected: SeqNo::new(5),
            found: SeqNo::new(15),
        })
    );
}

#[test]
fn an_intact_read_refuses_a_damaged_file_rather_than_returning_a_short_log() {
    let (h, mut bytes) = write_session(10);
    bytes.truncate(h.offset_of(9) as usize + 1);

    let reader = LogReader::open(&bytes).expect("open");
    match reader.read_all_intact() {
        Err(LogFileError::Damaged(recovery)) => {
            assert_eq!(recovery.records, 9);
            assert!(!recovery.is_clean());
            // The report reads as a sentence.
            let text = recovery.text().plain().expect("only characters");
            assert!(text.contains("9 records read"), "{text}");
            assert!(text.contains("ends 1 bytes into a record"), "{text}");
        }
        other => panic!("expected Damaged, got {other:?}"),
    }
}

#[test]
fn a_file_that_is_not_a_log_is_refused_on_open() {
    let bytes = b"this is not an ultra_trade log at all, really";
    assert!(matches!(
        LogReader::open(bytes),
        Err(LogFileError::Codec(_))
    ));
}

#[test]
fn a_damaged_header_is_refused_before_any_record_is_read() {
    let (_, mut bytes) = write_session(5);
    poke(&mut bytes, 0, b"X");
    assert!(matches!(
        LogReader::open(&bytes),
        Err(LogFileError::Codec(_))
    ));
}

// ---- the bounded tail ----------------------------------------------------

#[test]
fn a_writer_reports_how_much_a_crash_would_lose() {
    let mut file = File::create(header());
    assert_eq!(file.writer.unflushed(), 0);

    for n in 0..10 {
        file.append(quote(n, n));
    }
    assert_eq!(file.writer.unflushed(), 10, "these ten are only in memory");
    assert_eq!(file.writer.records(), 10);

    file.flush();
    assert_eq!(file.writer.unflushed(), 0);
}

#[test]
fn the_buffer_flushes_itself_before_it_grows_without_bound() {
    let mut file = File::create(header());
    for n in 0..1_000 {
        file.append(quote(n, n));
    }
    // 1000 records through a 256-record buffer: at most a partial buffer is
    // still in memory.
    assert!(
        file.writer.unflushed() < 256,
        "{} records buffered — the flush threshold did not fire",
        file.writer.unflushed()
    );
}

#[test]
fn a_flush_that_failed_keeps_the_records() {
    let mut file = File::create(header());
    file.append(quote(1, 1));
    file.append(quote(2, 2));
    file.writer.flushed(false);
    assert_eq!(file.writer.unflushed(), 2);
    file.flush();
    let reader = LogReader::open(&file.bytes).expect("open");
    assert_eq!(reader.read_all_intact().expect("intact").len(), 2);
}

#[test]
fn a_writer_records_operator_commands_like_anything_else() {
    let mut file = File::create(header());
    file.append(quote(1, 1));
    file.append(Event::In(Inbound::Command(CommandEvent {
        command: Command::Kill,
        receive_time: ReceiveTime::from_nanos(2),
    })));
    file.flush();
    let reader = LogReader::open(&file.bytes).expect("open");
    let records = reader.read_all_intact().expect("intact");
    assert!(matches!(
        records[1].event,
        Event::In(Inbound::Command(CommandEvent {
            command: Command::Kill,
            ..
        }))
    ));
}

#[test]
fn the_header_records_what_the_session_could_trade() {
    let (_, bytes) = write_session(1);
    let reader = LogReader::open(&bytes).expect("open");

    let h = reader.header();
    assert_eq!(h.session_id, 42);
    assert_eq!(h.session_start, ExchangeTime::from_nanos(1_000));
    assert_eq!(h.instruments.len(), 2);
    assert_eq!(h.instruments[0].symbol_str(), Some("AAPL"));
    assert_eq!(h.instruments[1].symbol_str(), Some("MSFT"));
    // And it still refuses a session configured differently.
    assert!(h.check_against(&[instrument(0)]).is_err());
    assert!(h.check_against(&[instrument(0), instrument(1)]).is_ok());
}

#[test]
fn a_clean_recovery_says_so_plainly() {
    let (_, bytes) = write_session(4);
    let reader = LogReader::open(&bytes).expect("open");
    let (_, recovery) = reader.read_all();
    assert_eq!(
        recovery,
        Recovery {
            records: 4,
            discarded_bytes: 0,
            stopped: None
        }
    );
    let text = recovery.text().plain().expect("only characters");
    assert_eq!(text, "4 records, intact");
}

#[test]
fn a_recording_written_before_depth_existed_still_reads() {
    let (_, mut bytes) = write_session(5);

    // Rewrite the header's version field to 1, exactly as an older build wrote
    // it. The field sits straight after the eight-byte magic.
    poke(&mut bytes, 8, &1u16.to_le_bytes());

    let reader = LogReader::open(&bytes).expect("a v1 log must still open");
    assert_eq!(reader.header().format_version, 1);
    let records = reader.read_all_intact().expect("and still read");
    assert_eq!(records.len(), 5);
}
