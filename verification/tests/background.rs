//! Handing records over to a writer through a ring.

use ultra_trade::event::background::{
    after_pass, from_words, ring_capacity, to_words, DrainStep, Handoff, Ring, WriterReport,
};
use ultra_trade::event::codec::{InstrumentEntry, LogHeader, RECORD_LEN};
use ultra_trade::event::{
    Event, Inbound, LogError, LogReader, LogWriter, MarketEvent, MarketKind, SeqNo,
};
use ultra_trade::value::{ExchangeTime, Instrument, InstrumentId, OrderId, Px, Qty, ReceiveTime};

fn header() -> LogHeader {
    let instrument = Instrument {
        id: InstrumentId::new(0),
        tick: Px::from_scaled(10_000_000),
        lot: Qty::from_scaled(1_000_000_000),
        min_qty: Qty::from_scaled(1_000_000_000),
    };
    LogHeader::new(
        7,
        ExchangeTime::from_nanos(0),
        OrderId::new(0),
        vec![InstrumentEntry::new(instrument, "AAPL").expect("entry")],
    )
}

fn quote(at: i64) -> Event {
    Event::In(Inbound::Market(MarketEvent {
        instrument: InstrumentId::new(0),
        exchange_time: ExchangeTime::from_nanos(at),
        receive_time: ReceiveTime::from_nanos(at),
        kind: MarketKind::Quote {
            bid_px: Px::from_scaled(at),
            bid_qty: Qty::from_scaled(1),
            ask_px: Px::from_scaled(at + 1),
            ask_qty: Qty::from_scaled(1),
        },
    }))
}

/// The engine's side and the writer's side of one recording.
struct Recording {
    handoff: Handoff,
    ring: Ring,
    file: Vec<u8>,
    written: u64,
    failed: bool,
    budget: usize,
}

impl Recording {
    fn create(capacity: usize) -> Recording {
        let file = LogWriter::create(header()).opening();
        Recording {
            handoff: Handoff::new(SeqNo::first()),
            ring: Ring::new(capacity),
            file,
            written: 0,
            failed: false,
            budget: usize::MAX,
        }
    }

    fn append(&mut self, event: Event) -> Result<SeqNo, LogError> {
        let block = self.handoff.prepare(event, self.failed)?;
        let taken = self.ring.push(&block);
        self.handoff.complete(taken, self.ring.pending())
    }

    fn drain(&mut self) {
        loop {
            let mut moved = false;
            while let Some(block) = self.ring.pop() {
                if self.budget < block.len() {
                    self.failed = true;
                    return;
                }
                self.budget -= block.len();
                self.file.extend_from_slice(&block);
                self.written += 1;
                moved = true;
            }
            match after_pass(moved, true) {
                DrainStep::Flush => {}
                DrainStep::Finish => return,
                DrainStep::Idle => unreachable!(),
            }
        }
    }

    fn shutdown(mut self) -> (WriterReport, Vec<u8>) {
        self.drain();
        (
            self.handoff.report(self.written, self.ring.capacity()),
            self.file,
        )
    }
}

#[test]
fn records_handed_to_the_ring_reach_the_file() {
    let mut log = Recording::create(1_024);
    for n in 0..500 {
        assert_eq!(log.append(quote(n)), Ok(SeqNo::new(n as u64)));
    }
    let (report, file) = log.shutdown();
    assert_eq!(report.handed_off, 500);
    assert_eq!(report.written, 500);

    let reader = LogReader::open(&file).expect("open");
    let records = reader.read_all_intact().expect("intact");
    assert_eq!(records.len(), 500);
    for (n, record) in records.iter().enumerate() {
        assert_eq!(record.seq, SeqNo::new(n as u64));
        assert_eq!(record.event, quote(n as i64));
    }
}

#[test]
fn a_continued_recording_counts_what_it_handed_off_itself() {
    let mut log = Recording::create(64);
    log.handoff = Handoff::new(SeqNo::new(40));
    assert_eq!(log.append(quote(1)), Ok(SeqNo::new(40)));
    assert_eq!(log.append(quote(2)), Ok(SeqNo::new(41)));
    assert_eq!(log.handoff.handed_off(), 2);
    let (report, _) = log.shutdown();
    assert_eq!(report.handed_off, 2);
    assert_eq!(report.written, 2);
}

#[test]
fn a_session_longer_than_the_ring_still_arrives_in_order() {
    // The ring wraps many times over.
    let mut log = Recording::create(64);
    let mut handed = 0i64;
    while handed < 5_000 {
        match log.append(quote(handed)) {
            Ok(_) => handed += 1,
            Err(LogError::Full) => log.drain(),
            Err(e) => panic!("unexpected {e:?}"),
        }
    }
    let (report, file) = log.shutdown();
    assert_eq!(report.written, 5_000);
    assert!(report.capacity >= 64);

    let reader = LogReader::open(&file).expect("open");
    let records = reader.read_all_intact().expect("intact");
    assert_eq!(records.len(), 5_000);
    for (n, record) in records.iter().enumerate() {
        assert_eq!(record.seq, SeqNo::new(n as u64), "out of order at {n}");
    }
}

#[test]
fn the_report_says_how_close_the_ring_came_to_filling() {
    let mut log = Recording::create(512);
    assert_eq!(log.handoff.high_water, 0);
    for n in 0..200 {
        log.append(quote(n)).expect("append");
    }
    let (report, _) = log.shutdown();
    assert_eq!(report.high_water, 200);
    assert!(report.high_water <= report.capacity);
    assert!(!report.was_close());
    let close = WriterReport {
        high_water: 257,
        ..report
    };
    assert!(close.was_close());
}

#[test]
fn a_full_ring_refuses_the_record_rather_than_dropping_it() {
    let mut log = Recording::create(64);
    let capacity = log.ring.capacity();
    assert_eq!(capacity, 64);
    for n in 0..capacity {
        log.append(quote(n as i64)).expect("append");
    }
    assert_eq!(log.append(quote(999)), Err(LogError::Full));
    // What was refused has no number: the next one taken has it.
    log.drain();
    assert_eq!(log.append(quote(1_000)), Ok(SeqNo::new(capacity as u64)));
}

#[test]
fn a_writer_that_hits_an_io_error_stops_the_session() {
    let mut log = Recording::create(256);
    log.budget = RECORD_LEN * 3;
    for n in 0..20 {
        log.append(quote(n)).expect("append");
    }
    log.drain();
    assert!(log.failed);
    assert_eq!(log.append(quote(999)), Err(LogError::WriteFailed));
    assert_eq!(log.append(quote(1_000)), Err(LogError::WriteFailed));
    assert_eq!(log.written, 3);
    assert_eq!(
        LogError::WriteFailed.text(),
        "event log write failed"
    );
}

#[test]
fn a_capacity_is_rounded_up_to_a_power_of_two() {
    assert_eq!(ring_capacity(0), 64);
    assert_eq!(ring_capacity(64), 64);
    assert_eq!(ring_capacity(65), 128);
    assert_eq!(ring_capacity(1 << 16), 1 << 16);
}

#[test]
fn words_and_bytes_are_the_same_record() {
    let mut block = [0u8; RECORD_LEN];
    for (i, b) in block.iter_mut().enumerate() {
        *b = i as u8;
    }
    let words = to_words(&block);
    assert_eq!(words[0], 0x0706_0504_0302_0100);
    assert_eq!(from_words(&words), block);
}

#[test]
fn the_writer_never_finishes_on_a_pass_that_moved_something() {
    assert_eq!(after_pass(true, true), DrainStep::Flush);
    assert_eq!(after_pass(true, false), DrainStep::Flush);
    assert_eq!(after_pass(false, true), DrainStep::Finish);
    assert_eq!(after_pass(false, false), DrainStep::Idle);
}

#[test]
fn a_ring_gives_back_what_it_took_however_often_it_wraps() {
    let mut ring = Ring::new(64);
    let block = |n: u32| {
        let mut b = [0u8; RECORD_LEN];
        b[..4].copy_from_slice(&n.to_le_bytes());
        b[RECORD_LEN - 1] = 0x5A;
        b
    };
    let (mut offered, mut accepted, mut given) = (0u32, Vec::new(), Vec::new());
    // Bursts of every length, so that it is found empty, full and in between.
    for round in 0..200usize {
        for _ in 0..round % 90 {
            let full = ring.pending() == ring.capacity();
            let b = block(offered);
            offered += 1;
            assert_eq!(ring.push(&b), !full);
            if !full {
                accepted.push(b);
            }
        }
        for _ in 0..(round * 7) % 80 {
            match ring.pop() {
                Some(b) => given.push(b),
                None => assert_eq!(given.len(), accepted.len()),
            }
        }
        assert_eq!(ring.pending(), accepted.len() - given.len());
        assert_eq!(given[..], accepted[..given.len()]);
    }
    assert!(given.len() > 20 * ring.capacity(), "it wrapped");
    assert!((offered as usize) > accepted.len(), "it was full at times");
}
