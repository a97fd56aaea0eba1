//! Cutting a recording into a part to choose on and a part to be judged on.

use ultra_trade::config::{InstrumentConfig, LimitBook, SessionConfig};
use ultra_trade::event::codec::{InstrumentEntry, LogHeader};
use ultra_trade::event::{
    Event, Inbound, MarketEvent, MarketKind, OrderKind, Outbound, Record, SeqNo, VenueEvent,
    VenueKind, FORMAT_VERSION,
};
use ultra_trade::harness::{
    check_session, instruments_of, market_events, split_by_market_events, Costs, HarnessError,
};
use ultra_trade::sim::{FillModel, Queue};
use ultra_trade::value::{
    ExchangeTime, Instrument, InstrumentId, OrderId, Px, Qty, ReceiveTime, Side, StrategyId, SCALE,
};

/// Splits by a fraction of the market events.
fn split(records: &[Record], fraction: f64) -> Option<(&[Record], &[Record])> {
    let total = market_events(records);
    let want = ((total as f64) * fraction).round() as usize;
    split_by_market_events(records, want)
}

fn record(seq: u64, event: Event) -> Record {
    Record {
        seq: SeqNo::new(seq),
        version: FORMAT_VERSION,
        event,
    }
}

fn market(seq: u64) -> Record {
    record(
        seq,
        Event::In(Inbound::Market(MarketEvent {
            instrument: InstrumentId::new(0),
            exchange_time: ExchangeTime::from_nanos(seq as i64),
            receive_time: ReceiveTime::from_nanos(seq as i64),
            kind: MarketKind::Quote {
                bid_px: Px::from_scaled(SCALE),
                bid_qty: Qty::from_scaled(SCALE),
                ask_px: Px::from_scaled(2 * SCALE),
                ask_qty: Qty::from_scaled(SCALE),
            },
        })),
    )
}

/// A decision, which is not market data and must not count towards the split.
fn decision(seq: u64) -> Record {
    record(
        seq,
        Event::Out(Outbound::OrderSubmitted {
            caused_by: SeqNo::new(0),
            order: OrderId::new(seq),
            strategy: StrategyId::new(0),
            instrument: InstrumentId::new(0),
            side: Side::Buy,
            qty: Qty::from_scaled(SCALE),
            kind: OrderKind::Market,
            reduce_only: false,
        }),
    )
}

fn venue(seq: u64) -> Record {
    record(
        seq,
        Event::In(Inbound::Venue(VenueEvent {
            order: OrderId::new(seq),
            venue_time: ExchangeTime::from_nanos(seq as i64),
            receive_time: ReceiveTime::from_nanos(seq as i64),
            kind: VenueKind::Accepted,
        })),
    )
}

fn count_market(records: &[Record]) -> usize {
    records
        .iter()
        .filter(|r| matches!(r.event, Event::In(Inbound::Market(_))))
        .count()
}

#[test]
fn a_half_split_puts_half_the_market_on_each_side() {
    let records: Vec<Record> = (0..10).map(market).collect();
    let (a, b) = split(&records, 0.5).expect("split");
    assert_eq!(count_market(a), 5);
    assert_eq!(count_market(b), 5);
}

#[test]
fn the_split_counts_market_events_and_not_records() {
    // The reason it is not a record-index split. Decisions and venue reports
    // cluster around active moments, so cutting on record count hands the
    // busier half of the session to whichever side had more trading in it.
    let mut records = Vec::new();
    // Five quiet market events...
    for seq in 0..5 {
        records.push(market(seq));
    }
    // ...then five more, each buried in a burst of trading activity.
    for seq in 5..10 {
        records.push(market(seq * 10));
        records.push(decision(seq * 10 + 1));
        records.push(venue(seq * 10 + 2));
        records.push(decision(seq * 10 + 3));
        records.push(venue(seq * 10 + 4));
    }

    let (a, b) = split(&records, 0.5).expect("split");
    assert_eq!(count_market(a), 5, "five market events either side");
    assert_eq!(count_market(b), 5);
    assert!(
        a.len() < b.len(),
        "the busy half holds far more records, which is the point"
    );
}

#[test]
fn every_record_ends_up_on_exactly_one_side() {
    let mut records = Vec::new();
    for seq in 0..8 {
        records.push(market(seq * 3));
        records.push(decision(seq * 3 + 1));
    }
    let (a, b) = split(&records, 0.6).expect("split");
    assert_eq!(a.len() + b.len(), records.len(), "nothing lost or doubled");
    assert_eq!(count_market(a) + count_market(b), count_market(&records));
}

#[test]
fn a_split_never_leaves_a_side_with_no_market_at_all() {
    // A fraction near the edge would otherwise produce an out-of-sample column
    // measured on nothing, which reads as "no disagreement" rather than "no
    // evidence".
    let records: Vec<Record> = (0..10).map(market).collect();
    for fraction in [0.001, 0.01, 0.999] {
        let (a, b) = split(&records, fraction).expect("split");
        assert!(count_market(a) >= 1, "in sample is empty at {fraction}");
        assert!(count_market(b) >= 1, "out of sample is empty at {fraction}");
    }
}

#[test]
fn a_recording_with_too_little_market_data_is_refused() {
    // Refusing beats a one-sided split nobody asked for.
    assert!(split(&[], 0.5).is_none());
    assert!(split(&[market(0)], 0.5).is_none());
    let only_decisions: Vec<Record> = (0..10).map(decision).collect();
    assert!(split(&only_decisions, 0.5).is_none());
}

#[test]
fn the_in_sample_side_comes_first() {
    // Order matters to every caller, and getting it backwards would silently
    // train on the future and test on the past.
    let records: Vec<Record> = (0..10).map(market).collect();
    let (a, b) = split(&records, 0.5).expect("split");
    let first_of_b = b
        .iter()
        .find_map(|r| match r.event {
            Event::In(Inbound::Market(m)) => Some(m.exchange_time),
            _ => None,
        })
        .expect("b holds market data");
    let last_of_a = a
        .iter()
        .rev()
        .find_map(|r| match r.event {
            Event::In(Inbound::Market(m)) => Some(m.exchange_time),
            _ => None,
        })
        .expect("a holds market data");
    assert!(
        last_of_a.to_nanos() < first_of_b.to_nanos(),
        "in sample must be the earlier stretch"
    );
}

// ---- the config and the recording must agree -----------------------------

fn recorded() -> Instrument {
    Instrument {
        id: InstrumentId::new(0),
        tick: Px::from_scaled(SCALE / 100),
        lot: Qty::from_scaled(SCALE),
        min_qty: Qty::from_scaled(SCALE),
    }
}

fn recording(symbols: &[&str]) -> LogHeader {
    LogHeader::new(
        1,
        ExchangeTime::from_nanos(0),
        OrderId::new(0),
        symbols
            .iter()
            .map(|s| InstrumentEntry::new(recorded(), s).expect("entry"))
            .collect(),
    )
}

fn session(symbol: &str) -> SessionConfig {
    SessionConfig {
        instruments: vec![InstrumentConfig {
            symbol: symbol.to_string(),
            id: InstrumentId::new(0),
            instrument: recorded(),
        }],
        limits: LimitBook::with_instruments(1),
        strategies: Vec::new(),
    }
}

#[test]
fn a_config_for_a_different_instrument_is_refused() {
    let error = check_session(&recording(&["BTCUSD"]), &session("AAA"))
        .expect_err("the symbols disagree");
    let text = error.text();
    assert!(text.contains("BTCUSD"), "{text}");
    assert!(text.contains("AAA"), "{text}");
    assert!(check_session(&recording(&["BTCUSD"]), &session("BTCUSD")).is_ok());
}

#[test]
fn a_config_with_another_number_of_instruments_is_refused() {
    let error = check_session(&recording(&["BTCUSD", "ETHUSD"]), &session("BTCUSD"))
        .expect_err("the counts disagree");
    assert_eq!(
        error.text(),
        "the recording holds 2 instruments, the config declares 1"
    );
    let error = check_session(&recording(&[]), &session("BTCUSD")).expect_err("nothing there");
    assert_eq!(error.text(), "the recording has no instruments");
}

#[test]
fn instruments_come_from_the_header_unless_they_are_unusable() {
    let header = recording(&["BTCUSD"]);
    assert_eq!(
        instruments_of(&header, &[Ok(())]).expect("usable"),
        vec![recorded()]
    );
    let error = instruments_of(&header, &[Err("NonPositiveTick".to_string())])
        .expect_err("unusable");
    assert_eq!(error.text(), "NonPositiveTick");
    assert_eq!(
        HarnessError::Engine("Oms".to_string()).text(),
        "the session stopped: Oms"
    );
    assert_eq!(
        HarnessError::Report("Oms".to_string()).text(),
        "cannot summarize the run: Oms"
    );
}

#[test]
fn a_run_costs_a_hundredth_per_unit_taken() {
    let costs = Costs::default();
    assert_eq!(costs.maker, Px::from_scaled(0));
    assert_eq!(costs.taker, Px::from_scaled(SCALE / 100));
    assert_eq!(costs.model, FillModel::TouchDisplayed);
    assert_eq!(costs.queue, Queue::Front);
}
