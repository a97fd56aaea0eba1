//! The live feed: the protocol, the clock, and the merge of market data, operator
//! commands, and timers.

use std::cell::Cell;
use std::rc::Rc;

use ultra_trade::event::{Command, Inbound, MarketEvent, MarketKind, TimerToken};
use ultra_trade::live::{
    command_of, elapsed_time, parse_line, project_exchange_time, wall_time, Arrival, ControlWord,
    FeedError, LiveFeed, ManualClock, Poll, Symbols,
};
use ultra_trade::timer::TimerRequest;
use ultra_trade::value::{ExchangeTime, InstrumentId, Px, Qty, ReceiveTime, Side, StrategyId};
use ultra_trade::words::fields;

fn symbols() -> Symbols {
    let mut s = Symbols::new();
    s.add("BTCUSD", InstrumentId::new(0));
    s
}

fn at(n: i64) -> ReceiveTime {
    ReceiveTime::from_nanos(n)
}

/// Reads a decimal exactly, in billionths.
fn read(text: &str) -> Result<i64, String> {
    let (sign, digits) = match text.strip_prefix('-') {
        Some(rest) => (-1i128, rest),
        None => (1, text),
    };
    let (whole, part) = match digits.split_once('.') {
        Some((w, p)) => (w, p),
        None => (digits, ""),
    };
    if part.len() > 9 {
        return Err("more precision than 9 places".to_string());
    }
    let all = format!("{whole}{part:0<9}");
    if whole.is_empty() || !all.bytes().all(|b| b.is_ascii_digit()) {
        return Err("not a decimal".to_string());
    }
    let scaled: i128 = all.parse().map_err(|_| "out of range".to_string())?;
    i64::try_from(sign * scaled).map_err(|_| "out of range".to_string())
}

fn parse(line: &str, number: u64, receive_time: ReceiveTime) -> Result<Option<MarketEvent>, FeedError> {
    let readings: Vec<Result<i64, String>> = fields(line).iter().map(|w| read(w)).collect();
    parse_line(line, number, &symbols(), receive_time, &readings)
}

/// A feed with a whole source and a console behind it.
struct Session {
    feed: LiveFeed,
    lines: Vec<String>,
    next: usize,
    commands: Vec<Command>,
    clock: ManualClock,
}

impl Session {
    fn over(text: &str, clock: ManualClock, commands: &str) -> Session {
        let commands = commands
            .lines()
            .filter_map(|line| match command_of(line) {
                ControlWord::Command(c) => Some(c),
                _ => None,
            })
            .collect();
        Session {
            feed: LiveFeed::new(),
            lines: text.lines().map(str::to_string).collect(),
            next: 0,
            commands,
            clock,
        }
    }

    fn arrival(&mut self) -> Arrival {
        while self.next < self.lines.len() {
            let line = self.lines[self.next].clone();
            self.next += 1;
            match parse(&line, self.next as u64, self.clock.receive_time()) {
                Ok(Some(event)) => return Arrival::Event(event),
                Ok(None) => {}
                Err(e) => {
                    self.next = self.lines.len();
                    return Arrival::Fault(e);
                }
            }
        }
        Arrival::Closed
    }

    fn next_event(&mut self) -> Option<Inbound> {
        let command = if self.commands.is_empty() {
            None
        } else {
            Some(self.commands.remove(0))
        };
        let mut step = self.feed.poll(command, self.clock.receive_time());
        loop {
            match step {
                Poll::Deliver(event) => return Some(event),
                Poll::Ended => return None,
                Poll::Wait => {
                    let arrival = self.arrival();
                    step = self.feed.arrived(arrival);
                }
            }
        }
    }
}

fn request(at: i64, token: u64) -> TimerRequest {
    TimerRequest {
        strategy: StrategyId::new(0),
        at: ExchangeTime::from_nanos(at),
        token: TimerToken::new(token),
    }
}

// ---- the protocol --------------------------------------------------------

#[test]
fn a_quote_line_becomes_a_quote() {
    let event = parse(
        "Q BTCUSD 1700000000000000000 64000.25 0.5 64000.75 1.25",
        1,
        at(42),
    )
    .expect("parse")
    .expect("an event");

    assert_eq!(event.instrument, InstrumentId::new(0));
    assert_eq!(event.exchange_time.to_nanos(), 1_700_000_000_000_000_000);
    // Stamped by the caller's clock, not taken from the line.
    assert_eq!(event.receive_time, at(42));
    match event.kind {
        MarketKind::Quote {
            bid_px,
            bid_qty,
            ask_px,
            ask_qty,
        } => {
            assert_eq!(bid_px, Px::from_scaled(64_000_250_000_000));
            assert_eq!(bid_qty, Qty::from_scaled(500_000_000));
            assert_eq!(ask_px, Px::from_scaled(64_000_750_000_000));
            assert_eq!(ask_qty, Qty::from_scaled(1_250_000_000));
        }
        other => panic!("expected a quote, got {other:?}"),
    }
}

#[test]
fn a_trade_line_becomes_a_trade() {
    let event = parse("T BTCUSD 1700000000000000001 64000.5 0.1 S", 1, at(1))
        .expect("parse")
        .expect("an event");
    match event.kind {
        MarketKind::Trade { px, qty, aggressor } => {
            assert_eq!(px, Px::from_scaled(64_000_500_000_000));
            assert_eq!(qty, Qty::from_scaled(100_000_000));
            assert_eq!(aggressor, Side::Sell);
        }
        other => panic!("expected a trade, got {other:?}"),
    }
}

#[test]
fn depth_lines_become_levels_and_their_markers() {
    let level = parse("L BTCUSD 5 B 100.5 2", 1, at(1))
        .expect("parse")
        .expect("an event");
    assert_eq!(
        level.kind,
        MarketKind::Level {
            side: Side::Buy,
            px: Px::from_scaled(100_500_000_000),
            qty: Qty::from_scaled(2_000_000_000),
        }
    );
    let applied = parse("A BTCUSD 6", 2, at(1)).expect("parse").expect("one");
    assert_eq!(applied.kind, MarketKind::BookApplied);
    let reset = parse("R BTCUSD 7", 3, at(1)).expect("parse").expect("one");
    assert_eq!(reset.kind, MarketKind::BookReset);
}

#[test]
fn blank_lines_and_comments_are_skipped() {
    for line in ["", "   ", "# a comment", "\t"] {
        assert_eq!(parse(line, 1, at(0)), Ok(None), "{line:?}");
    }
}

#[test]
fn a_malformed_line_is_refused_with_its_line_number() {
    let cases: [(&str, &str); 6] = [
        ("X BTCUSD 1 2 3 4 5", "first field must be Q or T"),
        ("Q BTCUSD", "no exchange timestamp"),
        (
            "Q BTCUSD notanumber 1 1 1 1",
            "exchange timestamp is not an integer number of nanoseconds",
        ),
        ("T BTCUSD 1 1 1 X", "aggressor must be B or S"),
        ("Q BTCUSD 1 1 1 1 1 extra", "trailing fields"),
        ("Q", "no symbol"),
    ];
    for (line, reason) in cases {
        assert_eq!(
            parse(line, 7, at(0)),
            Err(FeedError::Malformed { line: 7, reason }),
            "{line:?}"
        );
    }
}

#[test]
fn an_unknown_symbol_is_refused_rather_than_guessed() {
    let error = parse("Q ETHUSD 1 1 1 1 1", 3, at(0)).expect_err("unknown");
    assert_eq!(
        error,
        FeedError::UnknownSymbol {
            line: 3,
            symbol: "ETHUSD".to_string()
        }
    );
    assert_eq!(error.text(), "line 3: unknown symbol \"ETHUSD\"");
}

#[test]
fn feed_a_price_with_more_precision_than_the_scale_holds_is_refused() {
    assert_eq!(
        parse("Q BTCUSD 1 1.0000000001 1 2 1", 4, at(0)),
        Err(FeedError::BadNumber {
            line: 4,
            error: "more precision than 9 places".to_string()
        })
    );
}

// ---- clocks --------------------------------------------------------------

#[test]
fn a_manual_clock_only_moves_when_told() {
    let mut clock = ManualClock::at(1_000);
    assert_eq!(clock.receive_time().to_nanos(), 1_000);
    clock.advance(500);
    assert_eq!(clock.receive_time().to_nanos(), 1_500);
    assert_eq!(clock.monotonic().to_nanos(), 1_500);
}

#[test]
fn holders_of_one_cell_see_one_time() {
    let clock = Rc::new(Cell::new(ManualClock::at(1_000)));
    let held = Rc::clone(&clock);
    let mut moved = clock.get();
    moved.advance(500);
    clock.set(moved);
    assert_eq!(held.get().receive_time().to_nanos(), 1_500);
}

#[test]
fn both_readings_of_a_manual_clock_agree() {
    let mut clock = ManualClock::default();
    assert_eq!(clock.monotonic().to_nanos(), 0);
    clock.advance(i64::MAX);
    assert_eq!(clock.monotonic().to_nanos(), i64::MAX);
    clock.advance(1);
    assert_eq!(clock.monotonic().to_nanos(), i64::MIN, "it goes round");
    assert_eq!(clock.receive_time().to_nanos(), i64::MIN);
}

#[test]
fn projecting_the_venues_clock_adds_locally_measured_elapsed_time() {
    let projected = project_exchange_time(
        ExchangeTime::from_nanos(1_000_000),
        at(500),
        at(500 + 250_000),
    );
    assert_eq!(projected.to_nanos(), 1_250_000);
}

#[test]
fn projecting_past_the_end_of_time_saturates_rather_than_wrapping() {
    let last = ExchangeTime::from_nanos(i64::MAX);
    assert_eq!(project_exchange_time(last, at(0), at(1_000)), last);
}

#[test]
fn a_wall_clock_is_cut_to_what_can_be_told() {
    assert_eq!(wall_time(None), at(0));
    assert_eq!(wall_time(Some(7)), at(7));
    assert_eq!(wall_time(Some(u128::MAX)), at(i64::MAX));
    assert_eq!(elapsed_time(7).to_nanos(), 7);
    assert_eq!(elapsed_time(u128::MAX).to_nanos(), i64::MAX);
}

// ---- the merge -----------------------------------------------------------

#[test]
fn market_data_arrives_in_order() {
    let mut feed = Session::over(
        "Q BTCUSD 1000 100 1 101 1\nT BTCUSD 2000 100.5 1 B\nQ BTCUSD 3000 99 1 102 1\n",
        ManualClock::at(0),
        "",
    );
    let mut seen = Vec::new();
    while let Some(event) = feed.next_event() {
        seen.push(
            event
                .exchange_time()
                .expect("market data has one")
                .to_nanos(),
        );
    }
    assert_eq!(seen, vec![1_000, 2_000, 3_000]);
    assert_eq!(feed.feed.market_events(), 3);
    assert!(feed.feed.error().is_none());
}

#[test]
fn a_malformed_line_ends_the_session_and_says_why() {
    let mut feed = Session::over(
        "Q BTCUSD 1000 100 1 101 1\nthis is not an event\nQ BTCUSD 3000 99 1 102 1\n",
        ManualClock::at(0),
        "",
    );
    assert!(feed.next_event().is_some(), "the first line is fine");
    assert!(feed.next_event().is_none(), "the second should end it");
    assert!(matches!(
        feed.feed.error(),
        Some(FeedError::Malformed { line: 2, .. })
    ));
    // And it stays ended.
    assert!(feed.next_event().is_none());
}

#[test]
fn an_operator_command_is_delivered_before_waiting_market_data() {
    let mut feed = Session::over(
        "Q BTCUSD 1000 100 1 101 1\n",
        ManualClock::at(7),
        "flatten\n",
    );
    let first = feed.next_event().expect("an event");
    match first {
        Inbound::Command(c) => {
            assert_eq!(c.command, Command::Flatten);
            assert_eq!(c.receive_time.to_nanos(), 7, "stamped from the clock");
        }
        other => panic!("expected the command first, got {other:?}"),
    }
    assert_eq!(feed.feed.commands_seen(), 1);
}

#[test]
fn a_kill_ends_the_session() {
    let mut feed = Session::over(
        "Q BTCUSD 1000 100 1 101 1\nQ BTCUSD 2000 100 1 101 1\n",
        ManualClock::at(0),
        "kill\n",
    );
    assert!(matches!(feed.next_event(), Some(Inbound::Command(_))));
    assert!(
        feed.next_event().is_none(),
        "nothing follows an operator kill"
    );
}

#[test]
fn once_ended_a_feed_stays_ended() {
    let mut feed = Session::over("Q BTCUSD 1000 100 1 101 1\n", ManualClock::at(0), "kill\nhalt\n");
    feed.feed.schedule_timer(request(1, 1));
    assert!(matches!(feed.next_event(), Some(Inbound::Command(_))));
    assert!(feed.feed.has_ended());
    for _ in 0..3 {
        assert!(feed.next_event().is_none(), "whatever waits");
    }
    assert_eq!(feed.feed.commands_seen(), 1);
    assert_eq!(feed.feed.market_events(), 0);
    assert_eq!(feed.feed.pending_timers(), 1);
    assert!(feed.feed.error().is_none());
}

#[test]
fn a_command_goes_before_a_timer_that_is_due() {
    let mut feed = LiveFeed::new();
    let quote = parse("Q BTCUSD 1000 100 1 101 1", 1, at(0))
        .expect("parse")
        .expect("an event");
    assert_eq!(
        feed.arrived(Arrival::Event(quote)),
        Poll::Deliver(Inbound::Market(quote))
    );
    feed.schedule_timer(request(1_500, 1));
    let step = feed.poll(Some(Command::Halt), at(9_000));
    assert!(matches!(step, Poll::Deliver(Inbound::Command(c)) if c.receive_time == at(9_000)));
    assert_eq!(feed.pending_timers(), 1);
    let step = feed.poll(None, at(9_000));
    assert!(matches!(step, Poll::Deliver(Inbound::Timer(_))));
}

#[test]
fn an_unrecognised_command_word_is_ignored_rather_than_guessed() {
    let mut feed = Session::over("", ManualClock::at(0), "wibble\nhalt\n");
    match feed.next_event() {
        Some(Inbound::Command(c)) => assert_eq!(c.command, Command::Halt),
        other => panic!("expected halt, got {other:?}"),
    }
    assert!(matches!(command_of("Wibble"), ControlWord::Unknown(w) if w == "wibble"));
    assert!(matches!(command_of("  "), ControlWord::Blank));
    assert!(matches!(
        command_of(" RESUME \r"),
        ControlWord::Command(Command::Resume)
    ));
}

#[test]
fn a_timer_fires_once_the_projected_venue_clock_reaches_it() {
    let mut feed = Session::over("Q BTCUSD 5000 100 1 101 1\n", ManualClock::at(1_000), "");

    // The quote anchors the projection: exchange 5_000 at receive 1_000.
    let first = feed.next_event().expect("the quote");
    assert!(matches!(first, Inbound::Market(_)));

    feed.feed.schedule_timer(request(6_000, 3));
    assert_eq!(feed.feed.pending_timers(), 1);

    // Not due yet: only 500ns of local time has passed against a 1000ns wait.
    feed.clock.advance(500);
    assert_eq!(feed.feed.pending_timers(), 1);
    // Past it now.
    feed.clock.advance(600);
    match feed.next_event() {
        Some(Inbound::Timer(t)) => {
            assert_eq!(t.token, TimerToken::new(3));
            assert_eq!(t.fires_at.to_nanos(), 6_000);
        }
        other => panic!("expected the timer, got {other:?}"),
    }
}

#[test]
fn a_timer_cannot_be_due_before_any_market_data_has_anchored_the_clock() {
    let mut feed = Session::over("", ManualClock::at(0), "");
    feed.feed.schedule_timer(request(1, 1));
    feed.clock.advance(1_000_000);
    // The source is empty, so the feed ends rather than inventing a firing.
    assert!(feed.next_event().is_none());
    assert_eq!(
        feed.feed.pending_timers(),
        1,
        "the timer never became due"
    );
}

#[test]
fn simultaneous_timers_fire_in_a_stated_order() {
    let mut feed = Session::over("Q BTCUSD 0 100 1 101 1\n", ManualClock::at(0), "");
    feed.next_event().expect("the quote anchors the clock");

    for token in [9u64, 2, 5] {
        feed.feed.schedule_timer(request(10, token));
    }
    feed.clock.advance(100);

    let mut fired = Vec::new();
    while let Some(Inbound::Timer(t)) = feed.next_event() {
        fired.push(t.token.raw());
    }
    // Sorted by (at, strategy, token): a total order, so two runs agree.
    assert_eq!(fired, vec![2, 5, 9]);
}
