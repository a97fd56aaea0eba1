//! What the tools read from their words, and what they write of a session.

use ultra_trade::backtest::{
    compare_orders, decimal, orders_submitted, plain_strategy, tally_refusals, wide_limits,
};
use ultra_trade::config::{
    content, lines, stem, BarSpec, Outside, SessionConfig, StrategyKind,
};
use ultra_trade::engine::FeedAdapter;
use ultra_trade::event::codec::{InstrumentEntry, LogHeader};
use ultra_trade::event::{
    Command, CommandEvent, EngineState, Event, Inbound, MarketEvent, MarketKind, OrderKind,
    Outbound, PositionReport, Record, Recovery, RejectReason, RiskReason, SeqNo, StateReason,
    StopReason, TimerEvent, TimerToken, VenueEvent, VenueKind, FORMAT_VERSION,
};
use ultra_trade::journal::{
    self, banner, curve, describe, fills_table, millis, report_json, span, symbol_of, symbols,
    totals, trace, Books, Fill, Shown, Standing, Trade,
};
use ultra_trade::json;
use ultra_trade::record::{self, price_at, SyntheticFeed, STEP_NANOS};
use ultra_trade::report::{Holding, Ladder, Lag, Refusal, Summary, Valuation, Working};
use ultra_trade::sim::Level;
use ultra_trade::sweep::{
    self, best_outside, configure, grid, label, rank, report_rank_change, table, table_json, Axis,
    Fraction, Row, Run, Stop, Swept,
};
use ultra_trade::text::{
    int_string, left, number_string, padded_string, right, Glyph, Text,
};
use ultra_trade::timer::{fire, TimerQueue, TimerRequest};
use ultra_trade::value::{
    ExchangeTime, Instrument, InstrumentId, Notional, OrderId, Px, Qty, ReceiveTime, Side,
    StrategyId, SCALE,
};
use ultra_trade::words::{fields, lower_case, parse_i64, parse_u32, parse_u64, pieces, trim};

const I: InstrumentId = InstrumentId(0);

fn px(whole: i64) -> Px {
    Px::from_scaled(whole * SCALE)
}

fn qty(whole: i64) -> Qty {
    Qty::from_scaled(whole * SCALE)
}

fn money(whole: i64) -> Notional {
    Notional::from_scaled(whole as i128 * SCALE as i128)
}

fn words(text: &[&str]) -> Vec<String> {
    text.iter().map(|w| w.to_string()).collect()
}

/// A line with its values in whole units.
fn show(text: &Text) -> String {
    let unit = SCALE as i128;
    let mut out = String::new();
    let mut width = 0;
    for glyph in &text.glyphs {
        let piece = match glyph {
            Glyph::Letter(c) => c.to_string(),
            Glyph::Px(p) => format!("{}", p.to_scaled() / SCALE),
            Glyph::Qty(q) => format!("{}", q.to_scaled() / SCALE),
            Glyph::Money(m) => format!("{}", m.to_scaled() / unit),
            Glyph::Order(o) => format!("o{}", o.raw()),
            Glyph::Instrument(i) => format!("i{}", i.raw()),
            Glyph::Right(w) => {
                width = *w;
                continue;
            }
        };
        out.push_str(&format!("{piece:>width$}"));
        width = 0;
    }
    out
}

fn shown(lines: &[Text]) -> Vec<String> {
    lines.iter().map(show).collect()
}

fn at(seq: u64, event: Event) -> Record {
    Record {
        seq: SeqNo::new(seq),
        version: FORMAT_VERSION,
        event,
    }
}

fn order(seq: u64, id: u64, side: Side, kind: OrderKind, reduce_only: bool) -> Record {
    at(
        seq,
        Event::Out(Outbound::OrderSubmitted {
            caused_by: SeqNo::new(1),
            order: OrderId::new(id),
            strategy: StrategyId::new(0),
            instrument: I,
            side,
            qty: qty(5),
            kind,
            reduce_only,
        }),
    )
}

fn venue(seq: u64, id: u64, kind: VenueKind) -> Record {
    at(
        seq,
        Event::In(Inbound::Venue(VenueEvent {
            order: OrderId::new(id),
            venue_time: ExchangeTime::from_nanos(9),
            receive_time: ReceiveTime::from_nanos(9),
            kind,
        })),
    )
}

fn fill(seq: u64, id: u64) -> Record {
    venue(
        seq,
        id,
        VenueKind::Filled {
            px: px(101),
            qty: qty(5),
            fee: money(1),
        },
    )
}

fn market(seq: u64, time: i64, kind: MarketKind) -> Record {
    at(
        seq,
        Event::In(Inbound::Market(MarketEvent {
            instrument: I,
            exchange_time: ExchangeTime::from_nanos(time),
            receive_time: ReceiveTime::from_nanos(time),
            kind,
        })),
    )
}

fn a_quote() -> MarketKind {
    MarketKind::Quote {
        bid_px: px(99),
        bid_qty: qty(4),
        ask_px: px(101),
        ask_qty: qty(6),
    }
}

fn instrument() -> Instrument {
    Instrument {
        id: I,
        tick: px(1),
        lot: qty(1),
        min_qty: qty(1),
    }
}

fn header() -> LogHeader {
    LogHeader::new(
        7,
        ExchangeTime::from_nanos(0),
        OrderId::new(100),
        vec![InstrumentEntry::new(instrument(), "BTCUSD").expect("entry")],
    )
}

// ---- the journal ---------------------------------------------------------

#[test]
fn the_journal_reads_its_words() {
    let plain = journal::parse_args(&words(&["a.log"])).expect("args");
    assert_eq!(plain.path, "a.log");
    assert_eq!(plain.shown, Shown::Decisions);
    assert_eq!((plain.from, plain.to), (0, u64::MAX));
    assert_eq!((plain.json, plain.tail), (false, 2_000));

    let all = words(&["--from", "#12", "--to", "40", "--json", "--tail", "3", "--all", "a.log"]);
    let all = journal::parse_args(&all).expect("args");
    assert_eq!(all.shown, Shown::All);
    assert_eq!((all.from, all.to), (12, 40));
    assert_eq!((all.json, all.tail), (true, 3));
}

#[test]
fn the_journal_says_which_word_is_wrong() {
    let refusal = |w: &[&str]| journal::parse_args(&words(w)).expect_err("refused");
    assert_eq!(refusal(&["--tail"]), "--tail needs a count");
    assert_eq!(refusal(&["--tail", "ten"]), "--tail wants a count, got \"ten\"");
    assert_eq!(refusal(&["--tail", "a\tb"]), "--tail wants a count, got \"a\\tb\"");
    assert_eq!(refusal(&["--from"]), "--from needs a sequence number");
    assert_eq!(
        refusal(&["--to", "x"]),
        "--to wants a sequence number, got \"x\""
    );
    assert_eq!(refusal(&["--loud"]), "unknown option --loud");
    assert_eq!(refusal(&["a", "b"]), "only one recording at a time");
    assert_eq!(
        refusal(&[]),
        "usage: journal <recorded.log> [--all|--fills|--curve] [--json] [--tail N]"
    );
}

#[test]
fn an_instrument_is_called_by_its_symbol() {
    let mut h = header();
    assert_eq!(symbols(&h), words(&["BTCUSD"]));
    // Bytes that are not text are shown all the same.
    h.instruments[0].symbol[0] = 0xff;
    assert_eq!(symbols(&h), words(&["\u{fffd}TCUSD"]));

    let names = words(&["BTCUSD"]);
    assert_eq!(symbol_of(&names, I), "BTCUSD");
    assert_eq!(symbol_of(&names, InstrumentId::new(4)), "?");
}

#[test]
fn nanoseconds_are_told_in_milliseconds() {
    assert_eq!(millis(1_234_567), "1.234ms");
    assert_eq!(millis(-1_234_567), "-1.234ms");
    assert_eq!(millis(999), "0.000ms");
    assert_eq!(millis(i64::MIN), "-9223372036854.775ms");
}

#[test]
fn a_decision_is_described_with_its_cause() {
    let names = words(&["BTCUSD"]);
    let what = |r: &Record| {
        let line = describe(r, &names, Shown::Decisions).expect("a line");
        (
            line.kind,
            line.instrument,
            show(&line.what),
            line.caused_by.map(|c| c.raw()),
        )
    };
    let name = "BTCUSD".to_string();
    let none = String::new();
    assert_eq!(
        what(&order(2, 0, Side::Buy, OrderKind::Market, false)),
        ("order", name.clone(), "o0 Buy 5 market".to_string(), Some(1))
    );
    assert_eq!(
        what(&order(2, 0, Side::Sell, OrderKind::Limit(px(99)), true)),
        (
            "order",
            name.clone(),
            "o0 Sell 5 limit 99  reduce-only".to_string(),
            Some(1)
        )
    );
    let refused = at(
        3,
        Event::Out(Outbound::IntentRejected {
            caused_by: SeqNo::new(2),
            strategy: StrategyId::new(0),
            instrument: I,
            side: Side::Sell,
            qty: qty(3),
            reason: RiskReason::StaleMarketData,
        }),
    );
    assert_eq!(
        what(&refused),
        (
            "refused",
            name.clone(),
            "Sell 3 — StaleMarketData".to_string(),
            Some(2)
        )
    );
    let state = at(
        4,
        Event::Out(Outbound::StateChanged {
            caused_by: SeqNo::new(3),
            from: EngineState::Running,
            to: EngineState::Halted,
            reason: StateReason::LogWriteFailed,
        }),
    );
    assert_eq!(
        what(&state),
        (
            "state",
            none.clone(),
            "Running -> Halted (LogWriteFailed)".to_string(),
            Some(3)
        )
    );
    let cancel = at(
        5,
        Event::Out(Outbound::CancelSubmitted {
            caused_by: SeqNo::new(4),
            order: OrderId::new(8),
        }),
    );
    assert_eq!(
        what(&cancel),
        ("cancel", none.clone(), "o8".to_string(), Some(4))
    );
    let kill = at(
        6,
        Event::In(Inbound::Command(CommandEvent {
            command: Command::Kill,
            receive_time: ReceiveTime::from_nanos(1),
        })),
    );
    assert_eq!(what(&kill), ("command", none.clone(), "kill".to_string(), None));
    let recon = at(
        7,
        Event::In(Inbound::VenuePosition(PositionReport {
            instrument: I,
            venue_qty: qty(-2),
            venue_time: ExchangeTime::from_nanos(1),
            receive_time: ReceiveTime::from_nanos(1),
        })),
    );
    assert_eq!(
        what(&recon),
        ("recon", name, "venue says -2".to_string(), None)
    );
    assert_eq!(
        what(&fill(8, 0)),
        ("venue", none, "o0 filled 5 @ 101  fee 1".to_string(), None)
    );
}

#[test]
fn every_venue_report_has_its_words() {
    let names = words(&["BTCUSD"]);
    let what = |kind| {
        let line = describe(&venue(0, 1, kind), &names, Shown::Decisions).expect("a line");
        show(&line.what)
    };
    let reason = RejectReason::RateLimited;
    assert_eq!(what(VenueKind::Accepted), "o1 accepted");
    assert_eq!(what(VenueKind::Rejected { reason }), "o1 rejected — RateLimited");
    assert_eq!(what(VenueKind::Cancelled), "o1 cancelled");
    assert_eq!(
        what(VenueKind::CancelRejected { reason }),
        "o1 cancel rejected — RateLimited"
    );
    assert_eq!(what(VenueKind::Expired), "o1 expired");
}

#[test]
fn market_data_stays_out_of_the_way_unless_asked_for() {
    let names = words(&["BTCUSD"]);
    let level = |size| MarketKind::Level {
        side: Side::Buy,
        px: px(99),
        qty: qty(size),
    };
    let timer = at(
        1,
        Event::In(Inbound::Timer(TimerEvent {
            strategy: StrategyId::new(0),
            token: TimerToken::new(4),
            fires_at: ExchangeTime::from_nanos(77),
            receive_time: ReceiveTime::from_nanos(80),
        })),
    );
    let wake = at(
        2,
        Event::Out(Outbound::TimerRequested {
            caused_by: SeqNo::new(1),
            strategy: StrategyId::new(0),
            token: TimerToken::new(4),
            at: ExchangeTime::from_nanos(90),
        }),
    );
    let trade = MarketKind::Trade {
        px: px(100),
        qty: qty(2),
        aggressor: Side::Sell,
    };
    let all = [
        (market(0, 5, a_quote()), "quote 99 x 4  /  101 x 6"),
        (market(0, 5, trade), "trade 2 @ 100, Sell took"),
        (market(0, 5, level(0)), "level Buy 99 removed"),
        (market(0, 5, level(3)), "level Buy 99 x 3"),
        (market(0, 5, MarketKind::BookApplied), "book update applied"),
        (
            market(0, 5, MarketKind::BookReset),
            "book reset, a snapshot follows",
        ),
        (timer, "fired 4 at 77"),
        (wake, "wake at 90"),
    ];
    for (record, what) in &all {
        assert!(describe(record, &names, Shown::Decisions).is_none());
        let line = describe(record, &names, Shown::All).expect("a line");
        assert_eq!(show(&line.what), *what);
    }
}

#[test]
fn a_trace_is_a_table_of_the_records_asked_for() {
    let names = words(&["BTCUSD"]);
    let records = vec![
        market(0, 5, a_quote()),
        order(1, 0, Side::Buy, OrderKind::Market, false),
        fill(2, 0),
    ];
    assert_eq!(
        shown(&trace(&records, &names, Shown::Decisions, 0, u64::MAX)),
        vec![
            "    seq  kind     instrument what",
            "     #1  order    BTCUSD     o0 Buy 5 market   <- #1",
            "     #2  venue               o0 filled 5 @ 101  fee 1",
        ]
    );
    assert_eq!(trace(&records, &names, Shown::All, 0, u64::MAX).len(), 4);
    assert_eq!(trace(&records, &names, Shown::All, 1, 1).len(), 2);
}

#[test]
fn a_session_spans_its_inputs() {
    let records = vec![
        market(0, 50, a_quote()),
        order(1, 0, Side::Buy, OrderKind::Market, false),
        market(2, 20, a_quote()),
        market(3, 90, a_quote()),
    ];
    assert_eq!(span(&[]), None);
    assert_eq!(span(&records[1..2]), None);
    // From the first input that tells the time to the latest time told.
    assert_eq!(span(&records), Some((50, 90)));
    assert_eq!(span(&records[..3]), Some((50, 50)));
}

#[test]
fn a_fill_is_traced_to_the_order_it_belongs_to() {
    let mut books = Books::new();
    let early = books.apply(&fill(0, 3)).expect_err("never submitted");
    assert_eq!(
        show(&early),
        "o3 filled, but this log never recorded it being submitted"
    );
    let sent = order(1, 3, Side::Sell, OrderKind::Market, false);
    assert_eq!(books.apply(&sent), Ok(None));
    assert_eq!(books.order(OrderId::new(3)), Ok((I, Side::Sell)));
    let trade = books.apply(&fill(2, 3)).expect("known").expect("a trade");
    assert_eq!(
        trade,
        Trade {
            instrument: I,
            side: Side::Sell,
            qty: qty(5),
            px: px(101),
            fee: money(1),
        }
    );
    assert_eq!(books.apply(&venue(3, 3, VenueKind::Cancelled)), Ok(None));
}

#[test]
fn an_order_that_was_never_submitted_is_refused_wherever_its_number_lies() {
    let mut books = Books::new();
    let sent = order(0, 5, Side::Buy, OrderKind::Market, false);
    assert_eq!(books.apply(&sent), Ok(None));
    assert!(books.order(OrderId::new(3)).is_err());
    assert!(books.order(OrderId::new(6)).is_err());
    // A later submission under a smaller number leaves the first one alone.
    let late = order(1, 3, Side::Sell, OrderKind::Market, false);
    assert_eq!(books.apply(&late), Ok(None));
    assert_eq!(books.order(OrderId::new(3)), Ok((I, Side::Sell)));
    assert_eq!(books.order(OrderId::new(5)), Ok((I, Side::Buy)));
}

fn a_fill() -> Fill {
    let trade = Trade {
        instrument: I,
        side: Side::Buy,
        qty: qty(5),
        px: px(101),
        fee: money(1),
    };
    Fill {
        seq: SeqNo::new(12),
        trade,
        position: qty(7),
        realized: money(30),
        total_realized: money(50),
    }
}

#[test]
fn a_fill_is_accounted() {
    let f = a_fill();
    let standing = Standing {
        position: qty(7),
        realized: money(30),
        each: vec![money(30), money(20)],
    };
    assert_eq!(Fill::account(f.seq, f.trade, Ok(Some(standing))), Ok(f));
    let refused = Fill::account(f.seq, f.trade, Err("overflow".to_string()));
    assert!(refused.is_err());
    assert!(Fill::account(f.seq, f.trade, Ok(None)).is_err());
}

#[test]
fn fills_are_shown_as_a_table_and_as_a_curve() {
    let names = words(&["BTCUSD"]);
    let table = shown(&fills_table(&[a_fill()], &names, 0, u64::MAX));
    assert_eq!(
        table,
        vec![
            "    seq  instrument side               qty              price            fee         \
             position           realized"
                .to_string(),
            format!(
                "    #12  BTCUSD     Buy   {:>16} {:>18} {:>14} {:>16} {:>18}",
                5, 101, 1, 7, 30
            ),
        ]
    );
    assert_eq!(fills_table(&[a_fill()], &names, 13, u64::MAX).len(), 1);
    assert_eq!(
        shown(&curve(&[a_fill()], &names)),
        vec![
            "seq,instrument,side,qty,price,fee,position,realized,total_realized",
            "12,BTCUSD,Buy,5,101,1,7,30,50",
        ]
    );
}

fn whole(records: u64) -> Recovery {
    Recovery {
        records,
        discarded_bytes: 0,
        stopped: None,
    }
}

#[test]
fn a_reading_says_what_was_lost() {
    let names = words(&["BTCUSD"]);
    let h = header();
    let clean = shown(&banner(&h, &whole(2), 1, &[], &names));
    assert!(clean[0].starts_with("session 7 · format 2 · "), "{clean:?}");
    assert!(clean.contains(&"  first order o100".to_string()), "{clean:?}");
    assert!(!clean.iter().any(|l| l.contains("!!")));

    let cut = Recovery {
        records: 2,
        discarded_bytes: 20,
        stopped: Some(StopReason::TornTail { partial_bytes: 20 }),
    };
    let cut = shown(&banner(&h, &cut, 1, &[], &names));
    assert_eq!(
        cut[1],
        "  !! this session is cut off here — everything below is a partial session"
    );

    let lost = Recovery {
        records: 2,
        discarded_bytes: 20,
        stopped: None,
    };
    let lost = shown(&banner(&h, &lost, 2, &[], &names));
    assert_eq!(
        lost[1],
        "  !! 20 bytes were lost to a crash; the session continued after them"
    );
    assert!(lost.contains(
        &"  2 segments — this session was continued after a crash".to_string()
    ));
}

fn summary() -> Summary {
    Summary {
        records: 4,
        inputs: 2,
        decisions: 2,
        orders_submitted: 1,
        cancels_submitted: 0,
        fills: 1,
        intents_rejected: 1,
        rejections: vec![Refusal {
            reason: RiskReason::PositionLimit,
            count: 1,
        }],
        realized: money(30),
        fees: money(1),
        max_drawdown: money(4),
        valuation: Valuation {
            unrealized: money(5),
            total: money(34),
            rule: "mid".to_string(),
            complete: true,
            unmarked: vec![],
            unrealized_each: vec![Some(money(5))],
            marks: vec![Some(px(100))],
        },
        book_resets: 0,
        book_resyncs: 0,
        feed_lag: Some(Lag {
            events: 2,
            min: 1_000_000,
            p50: 2_000_000,
            p90: 3_000_000,
            p99: 4_000_000,
            max: 5_000_000,
        }),
        final_state: EngineState::Running,
        positions: vec![Holding {
            instrument: I,
            qty: qty(7),
            realized: money(30),
            flat: false,
        }],
        working: vec![Working {
            order: OrderId::new(9),
            instrument: I,
            side: Side::Buy,
            limit: Some(px(98)),
            remaining: qty(2),
        }],
        ladders: vec![Ladder {
            bids: vec![Level {
                px: px(99),
                qty: qty(4),
            }],
            asks: vec![],
        }],
    }
}

#[test]
fn a_session_is_added_up() {
    let lines = shown(&totals(&summary(), &words(&["BTCUSD"])));
    assert_eq!(
        lines,
        vec![
            "",
            "in total",
            "  records            4",
            "  inputs             2",
            "  decisions          2",
            "  orders submitted   1",
            "  fills              1",
            "  intents refused    1",
            "    PositionLimit: 1",
            "  realized           30",
            "  unrealized         5",
            "  fees               1",
            "  TOTAL              34",
            "  marked at          mid",
            "  max drawdown       4",
            "  feed lag           p50 2.000ms  p90 3.000ms  p99 4.000ms  max 5.000ms  over 2 events",
            "  final state        Running",
            "  BTCUSD     position 7  realized 30  unrealized 5  total 35",
        ]
    );
}

#[test]
fn what_makes_a_total_doubtful_is_said_beside_it() {
    let mut doubtful = summary();
    doubtful.valuation.complete = false;
    doubtful.valuation.unmarked = vec![I];
    doubtful.valuation.unrealized_each = vec![None];
    doubtful.book_resets = 2;
    doubtful.book_resyncs = 1;
    doubtful.feed_lag = Some(Lag {
        events: 9,
        min: -1_500_000,
        p50: 3 * journal::A_DAY,
        p90: 3 * journal::A_DAY,
        p99: 3 * journal::A_DAY,
        max: 3 * journal::A_DAY,
    });
    let lines = shown(&totals(&doubtful, &words(&["BTCUSD"])));
    for line in [
        "  !! INCOMPLETE      no mark for:",
        "                       BTCUSD",
        "                     the total above excludes those positions",
        "  book resets        2",
        "  !! BOOK RESYNCS    1 — the venue caught a wrong book that many times",
        "  !! NOT A LIVE FEED these stamps are 3 days apart, so this",
        "                     recording's market data was synthetic or replayed",
        "                     and the lag above measures nothing about a feed",
        "  !! CLOCK SKEW      an event arrived 1.500ms before the venue stamped it",
        "  BTCUSD     position 7  realized 30  unrealized UNKNOWN (no mark)",
    ] {
        assert!(lines.iter().any(|l| l == line), "{line:?} is missing from {lines:?}");
    }
    doubtful.feed_lag = None;
    let lines = shown(&totals(&doubtful, &words(&["BTCUSD"])));
    assert!(lines
        .iter()
        .any(|l| l == "  feed lag           no market events to measure"));
}

#[test]
fn a_report_is_one_json_object() {
    let names = words(&["B\"C"]);
    let args = journal::parse_args(&words(&["a.log", "--json"])).expect("args");
    let records = vec![market(0, 50, a_quote()), fill(1, 0)];
    let lines = shown(&report_json(
        &args,
        &header(),
        &whole(2),
        1,
        &records,
        &[],
        &summary(),
        &names,
    ));
    assert_eq!(
        lines,
        vec![
            "{",
            "  \"session\": {",
            "    \"id\": \"7\",",
            "    \"format\": 2,",
            "    \"segments\": 1,",
            "    \"records\": 4,",
            "    \"intact\": true,",
            "    \"discarded_bytes\": 0,",
            "    \"first_event_nanos\": 50,",
            "    \"last_event_nanos\": 50",
            "  },",
            "  \"instruments\": [",
            "    {\"id\": 0, \"symbol\": \"B\\\"C\", \"tick\": \"1\", \"lot\": \"1\"}",
            "  ],",
            "  \"totals\": {",
            "    \"orders\": 1,",
            "    \"cancels\": 0,",
            "    \"fills\": 1,",
            "    \"refused\": 1,",
            "    \"realized\": \"30\",",
            "    \"unrealized\": \"5\",",
            "    \"fees\": \"1\",",
            "    \"total\": \"34\",",
            "    \"max_drawdown\": \"4\",",
            "    \"mark_rule\": \"mid\",",
            "    \"complete\": true,",
            "    \"state\": \"Running\"",
            "  },",
            "  \"refusals\": [",
            "    {\"reason\": \"PositionLimit\", \"count\": 1}",
            "  ],",
            "  \"positions\": [",
            "    {\"symbol\": \"B\\\"C\", \"position\": \"7\", \"realized\": \"30\", \
             \"unrealized\": \"5\", \"mark\": \"100\"}",
            "  ],",
            "  \"book\": {",
            "    \"resets\": 0,",
            "    \"resyncs\": 0",
            "  },",
            "  \"feed_lag_nanos\": {",
            "    \"events\": 2,",
            "    \"min\": 1000000,",
            "    \"p50\": 2000000,",
            "    \"p90\": 3000000,",
            "    \"p99\": 4000000,",
            "    \"max\": 5000000",
            "  },",
            "  \"ladder\": [",
            "    {\"symbol\": \"B\\\"C\", \"bids\": [{\"px\": \"99\", \"qty\": \"4\"}], \"asks\": [], \
             \"working\": [{\"order\": \"o9\", \"side\": \"Buy\", \"px\": \"98\", \"qty\": \"2\"}]}",
            "  ]",
            "}",
        ]
    );
}

#[test]
fn a_report_trims_its_fills_and_says_how_many() {
    let names = words(&["BTCUSD"]);
    let args = journal::parse_args(&words(&["a.log", "--json", "--fills", "--tail", "1"]));
    let lines = shown(&report_json(
        &args.expect("args"),
        &header(),
        &whole(2),
        1,
        &[],
        &[a_fill(), a_fill(), a_fill()],
        &summary(),
        &names,
    ));
    assert_eq!(
        lines[lines.len() - 5..],
        [
            "  \"fills_omitted\": 2,",
            "  \"fills\": [",
            "    {\"seq\": 12, \"symbol\": \"BTCUSD\", \"side\": \"Buy\", \"qty\": \"5\", \
             \"px\": \"101\", \"fee\": \"1\", \"position\": \"7\", \"realized\": \"30\", \
             \"total_realized\": \"50\"}",
            "  ]",
            "}",
        ]
    );
}

// ---- json ----------------------------------------------------------------

#[test]
fn a_string_in_json_is_tame() {
    assert_eq!(json::quoted("plain"), "\"plain\"");
    assert_eq!(
        json::quoted("a\"b\\c\nd\re\tf\u{1}g"),
        "\"a\\\"b\\\\c\\nd\\re\\tf\\u0001g\""
    );
}

/// Reads a JSON string as JSON has it.
fn unquoted(literal: &str) -> String {
    let inner = literal.strip_prefix('"').and_then(|s| s.strip_suffix('"'));
    let mut chars = inner.expect("quoted").chars();
    let mut text = String::new();
    while let Some(c) = chars.next() {
        if c != '\\' {
            assert!(c != '"' && c >= ' ', "bare {c:?}");
            text.push(c);
            continue;
        }
        text.push(match chars.next() {
            Some('n') => '\n',
            Some('r') => '\r',
            Some('t') => '\t',
            Some('u') => {
                let code: String = chars.by_ref().take(4).collect();
                let n = u32::from_str_radix(&code, 16).expect("hex");
                char::from_u32(n).expect("a character")
            }
            Some(c) => c,
            None => panic!("a backslash at the end"),
        });
    }
    text
}

#[test]
fn a_string_in_json_reads_back() {
    let controls: String = (0u8..0x30).map(char::from).collect();
    for text in ["", "plain", "a\"b\\c", "\\u0041", "\\\\n\"", "\u{7f}\u{e9}\u{1f600}", &controls] {
        assert_eq!(unquoted(&json::quoted(text)), text);
    }
}

#[test]
fn json_values_have_their_forms() {
    assert_eq!(show(&json::number(-5)), "-5");
    assert_eq!(show(&json::truth(true)), "true");
    assert_eq!(show(&json::null()), "null");
    assert_eq!(show(&json::string("x")), "\"x\"");
    assert_eq!(show(&json::exact(Glyph::Px(px(3)))), "\"3\"");
    let row = json::row(&[
        json::Member::new("a", json::number(1)),
        json::Member::new("b", json::null()),
    ]);
    assert_eq!(show(&row), "{\"a\": 1, \"b\": null}");
}

// ---- the sweep -----------------------------------------------------------

fn axis(spec: &str) -> Axis {
    Axis::parse(spec).expect("axis")
}

#[test]
fn an_axis_names_a_setting_and_its_values() {
    let a = axis("BTCUSD.window=10,20");
    assert_eq!((a.symbol.as_str(), a.setting.as_str()), ("BTCUSD", "window"));
    assert_eq!(a.values, words(&["10", "20"]));
    assert!(Axis::parse("BTCUSD.window").is_err());
    assert!(Axis::parse("window=1").is_err());
    assert!(Axis::parse("BTCUSD.window=1,,2").is_err());
}

#[test]
fn the_sweep_reads_its_words() {
    let argv = words(&["a.log", "b.conf", "--vary", "X.window=1,2", "--split", "0.7", "--json"]);
    let mut fractions = vec![Fraction::NotANumber; argv.len()];
    fractions[5] = Fraction::Usable;
    let args = sweep::parse_args(&argv, &fractions).expect("args");
    assert_eq!((args.path.as_str(), args.conf.as_str()), ("a.log", "b.conf"));
    assert_eq!(args.axes, vec![axis("X.window=1,2")]);
    assert_eq!((args.split, args.json), (Some(5), true));

    let stop = |w: &[&str], f: Fraction| {
        let argv = words(w);
        sweep::parse_args(&argv, &vec![f; argv.len()]).expect_err("refused")
    };
    let fail = |context: &str, what: &str| Stop::Fail {
        context: context.to_string(),
        what: what.to_string(),
    };
    let no = Fraction::NotANumber;
    assert_eq!(stop(&["a.log"], no), Stop::Usage);
    assert_eq!(stop(&["a", "b", "--vary"], no), Stop::Usage);
    assert_eq!(
        stop(&["a", "b", "--vary", "X"], no),
        fail("--vary wants SYM.setting=a,b,c", "X")
    );
    assert_eq!(
        stop(&["a", "b", "--vary", "X.y=,1"], no),
        fail("--vary has an empty value", "X.y=,1")
    );
    assert_eq!(
        stop(&["a", "b", "--split", "half"], no),
        fail("--split wants a fraction like 0.7", "half")
    );
    assert_eq!(
        stop(&["a", "b", "--split", "2"], Fraction::OutOfRange),
        fail("--split must be between 0 and 1, exclusive", "2")
    );
    assert_eq!(stop(&["--loud"], no), fail("unknown option", "--loud"));
}

#[test]
fn a_grid_is_every_combination_in_order() {
    let axes = vec![axis("X.a=1,2"), axis("X.b=3,4")];
    let points = grid(&axes);
    assert_eq!(
        points,
        vec![
            words(&["1", "3"]),
            words(&["1", "4"]),
            words(&["2", "3"]),
            words(&["2", "4"]),
        ]
    );
    assert_eq!(label(&axes, &points[1]), "a=1 b=4");
    assert_eq!(grid(&[]), vec![Vec::<String>::new()]);
    assert_eq!(label(&[], &[]), "base");
}

fn base_config() -> SessionConfig {
    config_of(
        "instrument X tick 1 lot 1 min 1\n\
         limits X max-position 5 max-exposure 500 max-order-notional 100 max-orders 60 \
         rate-window 60s max-quote-age 30s\n\
         strategy crossover X window 20 size 1\n",
    )
}

fn config_of(text: &str) -> SessionConfig {
    let read = |word: &str| {
        word.parse::<i64>()
            .map(|n| n * SCALE)
            .map_err(|_| "not a decimal".to_string())
    };
    let outside: Vec<Outside> = lines(text)
        .iter()
        .map(|line| {
            let words = content(line);
            Outside {
                whole: words.iter().map(|w| read(w)).collect(),
                stems: words.iter().map(|w| read(&stem(w))).collect(),
                verdict: Ok(()),
            }
        })
        .collect();
    SessionConfig::parse(text, &outside).expect("config")
}

#[test]
fn a_variation_is_applied_to_the_strategy_that_trades_the_symbol() {
    let base = base_config();
    let readings = vec![Ok(30 * SCALE)];
    let varied = configure(&base, &[axis("X.window=30")], &words(&["30"]), &readings)
        .expect("configured");
    assert!(matches!(
        varied.strategies[0].kind,
        StrategyKind::Crossover { window: 30, .. }
    ));
    let stray = configure(&base, &[axis("Y.window=30")], &words(&["30"]), &readings);
    assert_eq!(
        stray.expect_err("refused"),
        "no strategy in the config trades Y"
    );
    let unknown = configure(&base, &[axis("X.colour=30")], &words(&["30"]), &readings);
    assert!(unknown.expect_err("refused").starts_with("X.colour: "));
}

fn a_run(total: i64) -> Run {
    Run {
        total: money(total),
        max_drawdown: money(2),
        fills: 3,
        refused: 1,
        complete: true,
    }
}

fn a_row(label: &str, inside: i64, outside: Option<i64>) -> Row {
    Row {
        label: label.to_string(),
        inside: a_run(inside),
        outside: outside.map(a_run),
    }
}

#[test]
fn rows_rank_by_what_they_were_worth() {
    let rows = vec![a_row("a", 5, None), a_row("b", 9, None), a_row("c", 5, None)];
    assert_eq!(rank(&rows), vec![1, 0, 2]);
}

#[test]
fn the_last_of_the_best_out_of_sample_is_the_best() {
    let rows = vec![
        a_row("a", 9, Some(4)),
        a_row("b", 8, Some(7)),
        a_row("c", 7, Some(7)),
        a_row("d", 6, None),
    ];
    assert_eq!(best_outside(&rows), Some(2));
    assert_eq!(best_outside(&[]), None);
}

#[test]
fn a_rearranged_ranking_is_said_so() {
    let kept = shown(&report_rank_change(&[a_row("a", 9, Some(8)), a_row("b", 5, Some(3))]));
    assert_eq!(
        kept,
        vec![
            "The best variant in sample was also the best out of sample (a).",
            "That is weak evidence it is real, not proof: one split is one experiment.",
        ]
    );
    let moved = shown(&report_rank_change(&[a_row("a", 9, Some(1)), a_row("b", 5, Some(3))]));
    assert_eq!(
        moved,
        vec![
            "!! The ranking rearranged. In sample the best was a; out of sample it",
            "!! returned 1 and b did better. Choosing on the in-sample column",
            "!! would have picked the wrong one, which is what overfitting looks like.",
        ]
    );
    assert!(report_rank_change(&[]).is_empty());
}

#[test]
fn a_sweep_is_shown_as_a_table() {
    let swept = Swept {
        path: "a.log".to_string(),
        session_id: 7,
        records: 100,
        split: None,
    };
    let lines = shown(&table(&swept, &[a_row("window=1", 9, None)]));
    assert_eq!(lines[0], "sweep over a.log");
    assert_eq!(lines[1], "  session id     7");
    assert_eq!(lines[2], "  records        100");
    assert_eq!(lines[3], "  runs           1");
    assert_eq!(lines[4], "  split          none — see the warning below");
    assert_eq!(lines[5], "");
    assert_eq!(
        lines[6],
        format!("{:<8}  {:>14} {:>12} {:>7} {:>6}", "variant", "total", "drawdown", "fills", "ref")
    );
    assert_eq!(
        lines[7],
        format!("{:<8}  {:>14} {:>12} {:>7} {:>6}", "window=1", 9, 2, 3, 1)
    );

    let split = Swept {
        split: Some((70, 30)),
        ..swept
    };
    let lines = shown(&table(&split, &[a_row("window=1", 9, Some(4))]));
    assert_eq!(lines[4], "  split          70 records in sample, 30 out");
    assert_eq!(
        lines[7],
        format!(
            "{:<8}  {:>14} {:>12} {:>7} {:>6}   {:>14} {:>12}",
            "window=1", 9, 2, 3, 1, 4, 2
        )
    );
}

#[test]
fn a_sweep_is_shown_as_json() {
    let lines = shown(&table_json("a.log", None, &[a_row("w=1", 9, None), a_row("w=2", 8, Some(4))]));
    assert_eq!(lines[0], "{");
    assert_eq!(lines[1], "  \"recording\": \"a.log\",");
    assert_eq!(lines[2], "  \"split\": null,");
    assert_eq!(lines[3], "  \"runs\": [");
    assert!(lines[4].starts_with("    {\"variant\": \"w=1\", \"in_total\": \"9\", \"in_drawdown\": \"2\","));
    assert!(lines[4].ends_with("\"out_drawdown\": null, \"complete\": true},"), "{}", lines[4]);
    assert!(lines[5].ends_with("\"out_drawdown\": \"2\", \"complete\": true}"), "{}", lines[5]);
    assert_eq!(lines[6], "  ]");
    assert_eq!(lines[7], "}");
    let split = shown(&table_json("a.log", Some("0.7"), &[]));
    assert_eq!(split[2], "  \"split\": 0.7,");
}

// ---- the recorder --------------------------------------------------------

#[test]
fn the_synthetic_market_is_a_wave() {
    assert_eq!(price_at(0), 90);
    assert_eq!(price_at(19), 109);
    assert_eq!(price_at(20), 110);
    assert_eq!(price_at(39), 91);
    assert_eq!(price_at(40), 90);
    assert_eq!(price_at(-1), 91);
}

#[test]
fn the_synthetic_feed_quotes_and_trades_at_every_step() {
    let mut feed = SyntheticFeed::new(3, &[instrument()]);
    let mut events = Vec::new();
    while let Some(event) = feed.next_event() {
        events.push(event);
    }
    assert_eq!(events.len(), 6);
    let times: Vec<i64> = events
        .iter()
        .map(|e| e.exchange_time().expect("time").to_nanos())
        .collect();
    assert!(times.windows(2).all(|w| w[0] <= w[1]), "{times:?}");
    assert_eq!(times[2] - times[0], STEP_NANOS);
    match events[2] {
        Inbound::Market(m) => assert_eq!(
            m.kind,
            MarketKind::Quote {
                bid_px: px(price_at(1) - 1),
                bid_qty: qty(500),
                ask_px: px(price_at(1) + 1),
                ask_qty: qty(500),
            }
        ),
        other => panic!("expected a quote, got {other:?}"),
    }
}

#[test]
fn the_recorder_reads_its_words() {
    assert!(record::parse_args(&words(&[])).is_none());
    let args = record::parse_args(&words(&["a.conf", "a.log"])).expect("args");
    assert_eq!((args.config.as_str(), args.path.as_str()), ("a.conf", "a.log"));
    assert_eq!(args.steps, record::DEFAULT_STEPS);
}

// ---- the backtest --------------------------------------------------------

#[test]
fn a_fixed_point_value_is_written_in_full() {
    assert_eq!(decimal(0), "0.000000000");
    assert_eq!(decimal(1_500_000_000), "1.500000000");
    assert_eq!(decimal(-1), "-0.000000001");
    assert_eq!(decimal(i128::MIN), "-170141183460469231731687303715.884105728");
}

#[test]
fn a_run_without_a_config_trades_a_crossover_within_wide_limits() {
    let plain = plain_strategy(I, "BTCUSD");
    assert_eq!(plain.symbol, "BTCUSD");
    assert_eq!(
        plain.kind,
        StrategyKind::Crossover {
            window: 20,
            size: qty(1),
            bars: BarSpec::Tick { threshold: 1 },
        }
    );
    assert_eq!(wide_limits().max_position, qty(1_000));
    assert_eq!(wide_limits().max_orders_in_window, 60);
}

#[test]
fn refusals_are_tallied_in_the_order_they_first_came() {
    let refused = |reason| Outbound::IntentRejected {
        caused_by: SeqNo::new(0),
        strategy: StrategyId::new(0),
        instrument: I,
        side: Side::Buy,
        qty: qty(1),
        reason,
    };
    let cancel = Outbound::CancelSubmitted {
        caused_by: SeqNo::new(0),
        order: OrderId::new(0),
    };
    let decisions = vec![
        refused(RiskReason::Halted),
        cancel,
        refused(RiskReason::PositionLimit),
        refused(RiskReason::Halted),
    ];
    let tally: Vec<(RiskReason, u64)> = tally_refusals(&decisions)
        .iter()
        .map(|r| (r.reason, r.count))
        .collect();
    assert_eq!(
        tally,
        vec![(RiskReason::Halted, 2), (RiskReason::PositionLimit, 1)]
    );
    assert_eq!(orders_submitted(&decisions), 0);
}

#[test]
fn order_counts_are_compared() {
    assert_eq!(compare_orders(3, 3), "  -> same order count as this run");
    assert_eq!(compare_orders(5, 3), "  -> this run submitted 2 order(s) more");
    assert_eq!(compare_orders(3, 5), "  -> this run submitted 2 order(s) fewer");
}

// ---- text and timers -----------------------------------------------------

#[test]
fn numbers_and_columns_are_written() {
    assert_eq!(number_string(0), "0");
    assert_eq!(number_string(u128::MAX), "340282366920938463463374607431768211455");
    assert_eq!(int_string(-12), "-12");
    assert_eq!(int_string(i128::MIN), "-170141183460469231731687303715884105728");
    assert_eq!(padded_string(255, 16, 4), "00ff");
    assert_eq!(left("ab", 4), "ab  ");
    assert_eq!(right("ab", 4), "  ab");
    assert_eq!(right("abcde", 4), "abcde");
}

#[test]
fn words_are_cut_and_read() {
    assert_eq!(fields("  a b\t c "), words(&["a", "b", "c"]));
    assert_eq!(pieces("a,,b", ','), words(&["a", "", "b"]));
    assert_eq!(trim("  a b "), "a b");
    assert_eq!(lower_case("HaLt"), "halt");
    assert_eq!(parse_u64("18446744073709551615"), Some(u64::MAX));
    assert_eq!(parse_u64("18446744073709551616"), None);
    assert_eq!(parse_u64("+7"), Some(7));
    assert_eq!(parse_u64("-7"), None);
    assert_eq!(parse_u32("4294967296"), None);
    assert_eq!(parse_i64("-9223372036854775808"), Some(i64::MIN));
    assert_eq!(parse_i64(""), None);
}

#[test]
fn timers_fire_in_order_of_their_instant() {
    let ask = |at, token| TimerRequest {
        strategy: StrategyId::new(0),
        at: ExchangeTime::from_nanos(at),
        token: TimerToken::new(token),
    };
    let mut queue = TimerQueue::new();
    for request in [ask(30, 1), ask(10, 2), ask(30, 3), ask(20, 4)] {
        queue.schedule(request);
    }
    assert_eq!(queue.len(), 4);
    assert_eq!(queue.take_due_by(ExchangeTime::from_nanos(9)), None);
    assert_eq!(
        queue.take_due_by(ExchangeTime::from_nanos(10)),
        Some(ask(10, 2))
    );
    let order: Vec<u64> = std::iter::from_fn(|| queue.take_first())
        .map(|r| r.token.raw())
        .collect();
    assert_eq!(order, vec![4, 1, 3]);

    let fired = fire(ask(10, 2), ReceiveTime::from_nanos(12));
    assert_eq!(fired.fires_at, ExchangeTime::from_nanos(10));
    assert_eq!(fired.receive_time, ReceiveTime::from_nanos(12));
    assert_eq!(fired.token, TimerToken::new(2));
}
