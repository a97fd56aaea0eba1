//! Reading a session config, and every way one can be wrong.
//!
//! The refusals matter more than the happy path. A config that is misread without
//! a word is a session trading under limits nobody chose.

use ultra_trade::config::{
    content, lines, stem, BarSpec, ConfigError, Directive, Outside, SessionConfig, StrategyConfig,
    StrategyKind,
};
use ultra_trade::value::{InstrumentId, Notional, Px, Qty};

/// Reads a decimal exactly, in billionths.
fn read(text: &str) -> Result<i64, String> {
    let (sign, digits) = match text.strip_prefix('-') {
        Some(rest) => (-1i128, rest),
        None => (1, text),
    };
    let (whole, part) = match digits.split_once('.') {
        Some((w, p)) => (w, p),
        None => (digits, ""),
    };
    if part.len() > 9 {
        return Err("more precision than 9 places".to_string());
    }
    let all = format!("{whole}{part:0<9}");
    if whole.is_empty() || !all.bytes().all(|b| b.is_ascii_digit()) {
        return Err("not a decimal".to_string());
    }
    let scaled: i128 = all.parse().map_err(|_| "out of range".to_string())?;
    i64::try_from(sign * scaled).map_err(|_| "out of range".to_string())
}

/// Whether what a line declares is usable.
fn judge(directive: &Directive) -> Result<(), String> {
    match directive {
        Directive::Instrument { tick, lot, min, .. } => {
            if tick.to_scaled() <= 0 || lot.to_scaled() <= 0 || min.to_scaled() < 0 {
                return Err("an increment must be positive".to_string());
            }
        }
        Directive::Limits { limits, .. } => {
            if limits.max_position.to_scaled() <= 0 || limits.max_orders_in_window == 0 {
                return Err("NonPositive".to_string());
            }
        }
        Directive::Strategy { .. } => {}
    }
    Ok(())
}

fn outside(text: &str) -> Vec<Outside> {
    lines(text)
        .iter()
        .map(|line| {
            let words = content(line);
            let whole: Vec<Result<i64, String>> = words.iter().map(|w| read(w)).collect();
            let stems: Vec<Result<i64, String>> = words.iter().map(|w| read(&stem(w))).collect();
            let verdict = match Directive::read(line, &whole, &stems) {
                Ok(Some(directive)) => judge(&directive),
                _ => Ok(()),
            };
            Outside {
                whole,
                stems,
                verdict,
            }
        })
        .collect()
}

fn parse(text: &str) -> Result<SessionConfig, ConfigError> {
    SessionConfig::parse(text, &outside(text))
}

const GOOD: &str = "\
# two instruments, both tradable
instrument BTCUSD  tick 0.1   lot 0.00000001  min 0.0001
instrument ETHUSD  tick 0.01  lot 0.001       min 0.01

limits BTCUSD  max-position 5   max-exposure 500000  max-order-notional 100000 max-orders 60 rate-window 60s max-quote-age 30s
limits ETHUSD  max-position 50  max-exposure 200000  max-order-notional 50000  max-orders 30 rate-window 30s max-quote-age 500ms

strategy crossover BTCUSD  window 20  size 0.01
strategy crossover ETHUSD  window 30  size 0.5  bars 4
";

fn good() -> SessionConfig {
    parse(GOOD).expect("the example config should parse")
}

fn err(text: &str) -> ConfigError {
    parse(text).expect_err("this config should have been refused")
}

#[test]
fn it_reads_instruments_in_declaration_order() {
    let c = good();
    assert_eq!(c.instruments.len(), 2);
    assert_eq!(c.instruments[0].symbol, "BTCUSD");
    assert_eq!(c.instruments[0].id, InstrumentId::new(0));
    assert_eq!(c.instruments[1].symbol, "ETHUSD");
    assert_eq!(c.instruments[1].id, InstrumentId::new(1));
}

#[test]
fn neither_order_nor_comments_nor_blank_lines_change_a_config() {
    let shuffled = "\

   # nothing here
instrument BTCUSD  min 0.0001 tick 0.1   lot 0.00000001  # a comment
\t
instrument ETHUSD  lot 0.001  min 0.01 tick 0.01#another
limits BTCUSD  rate-window 60s max-orders 60 max-quote-age 30s max-exposure 500000  max-position 5  max-order-notional 100000
limits ETHUSD  max-quote-age 500ms max-position 50 max-orders 30 max-exposure 200000  max-order-notional 50000  rate-window 30s
strategy crossover BTCUSD  size 0.01 window 20
strategy crossover ETHUSD  bars 4 window 30  size 0.5

# the end";
    let (a, b) = (good(), parse(shuffled).expect("the same config"));
    assert_eq!(a.instruments, b.instruments);
    assert_eq!(a.strategies, b.strategies);
    for i in &a.instruments {
        assert_eq!(a.limits.get(i.id), b.limits.get(i.id));
    }
}

#[test]
fn conventions_are_read_exactly() {
    let c = good();
    let btc = c.by_symbol("BTCUSD").expect("declared");
    assert_eq!(btc.instrument.tick, Px::from_scaled(100_000_000));
    assert_eq!(btc.instrument.lot, Qty::from_scaled(10));
    assert_eq!(btc.instrument.min_qty, Qty::from_scaled(100_000));
}

#[test]
fn limits_land_on_the_right_instrument() {
    let c = good();
    let btc = c.limits.get(InstrumentId::new(0)).expect("BTCUSD limits");
    assert_eq!(btc.max_position, Qty::from_scaled(5_000_000_000));
    assert_eq!(btc.max_orders_in_window, 60);
    assert_eq!(btc.rate_window.to_nanos(), 60_000_000_000);
    assert_eq!(btc.max_quote_age.to_nanos(), 30_000_000_000);

    let eth = c.limits.get(InstrumentId::new(1)).expect("ETHUSD limits");
    assert_eq!(eth.max_orders_in_window, 30);
    // 500ms, not 500 seconds.
    assert_eq!(eth.max_quote_age.to_nanos(), 500_000_000);
}

#[test]
fn strategies_resolve_to_their_instrument() {
    let c = good();
    assert_eq!(c.strategies.len(), 2);
    assert_eq!(c.strategies[0].instrument, InstrumentId::new(0));
    assert_eq!(
        c.strategies[0].kind,
        StrategyKind::Crossover {
            window: 20,
            size: Qty::from_scaled(10_000_000),
            bars: BarSpec::Tick { threshold: 1 },
        }
    );
    assert!(matches!(
        c.strategies[1].kind,
        StrategyKind::Crossover {
            bars: BarSpec::Tick { threshold: 4 },
            ..
        }
    ));
}

#[test]
fn comments_and_blank_lines_are_ignored() {
    let c = parse(
        "\n# a comment\n\ninstrument X tick 1 lot 1 min 1  # trailing comment\n\
         limits X max-position 1 max-exposure 1 max-order-notional 1 max-orders 1 rate-window 1s max-quote-age 1s\n",
    )
    .expect("parse");
    assert_eq!(c.instruments.len(), 1);
}

// ---- refusals ------------------------------------------------------------

#[test]
fn an_instrument_with_no_limits_is_refused_at_startup() {
    // Not discovered one refused order at a time.
    let e = err("instrument BTCUSD tick 0.1 lot 1 min 1\n");
    assert!(e.message.contains("no limits line"), "{}", e.text());
    assert!(e.message.contains("BTCUSD"), "{}", e.text());
}

#[test]
fn a_config_with_no_instruments_is_refused() {
    assert!(err("# nothing here\n").message.contains("no instruments"));
}

#[test]
fn a_misspelled_setting_is_refused_rather_than_ignored() {
    // A limit silently dropped is a limit that is not enforced.
    let e = err("\
instrument X tick 1 lot 1 min 1
limits X max-postion 1 max-exposure 1 max-order-notional 1 max-orders 1 rate-window 1s max-quote-age 1s
");
    assert!(e.message.contains("max-postion"), "{}", e.text());
    assert_eq!(e.line, 2);
}

#[test]
fn a_missing_setting_names_itself() {
    let e = err("instrument X tick 1 lot 1\n");
    assert!(e.message.contains("min"), "{}", e.text());
    assert_eq!(e.line, 1);
}

#[test]
fn a_setting_with_no_value_is_refused() {
    let e = err("instrument X tick 1 lot 1 min\n");
    assert!(e.message.contains("no value"), "{}", e.text());
}

#[test]
fn a_duplicate_instrument_is_refused() {
    let e = err("instrument X tick 1 lot 1 min 1\ninstrument X tick 1 lot 1 min 1\n");
    assert!(e.message.contains("twice"), "{}", e.text());
    assert_eq!(e.line, 2);
}

#[test]
fn duplicate_limits_for_one_instrument_are_refused() {
    let e = err("\
instrument X tick 1 lot 1 min 1
limits X max-position 1 max-exposure 1 max-order-notional 1 max-orders 1 rate-window 1s max-quote-age 1s
limits X max-position 2 max-exposure 1 max-order-notional 1 max-orders 1 rate-window 1s max-quote-age 1s
");
    assert!(e.message.contains("twice"), "{}", e.text());
}

#[test]
fn limits_for_an_undeclared_instrument_are_refused() {
    let e = err("\
instrument X tick 1 lot 1 min 1
limits Y max-position 1 max-exposure 1 max-order-notional 1 max-orders 1 rate-window 1s max-quote-age 1s
");
    assert!(e.message.contains("Y has no instrument declaration"), "{}", e.text());
}

#[test]
fn a_strategy_on_an_undeclared_instrument_is_refused() {
    let e = err("\
instrument X tick 1 lot 1 min 1
limits X max-position 1 max-exposure 1 max-order-notional 1 max-orders 1 rate-window 1s max-quote-age 1s
strategy crossover Z window 5 size 1
");
    assert!(e.message.contains("Z has no instrument declaration"), "{}", e.text());
}

#[test]
fn an_unknown_strategy_is_refused_rather_than_skipped() {
    let e = err("\
instrument X tick 1 lot 1 min 1
limits X max-position 1 max-exposure 1 max-order-notional 1 max-orders 1 rate-window 1s max-quote-age 1s
strategy magic X window 5 size 1
");
    assert!(e.message.contains("not a strategy this build knows"), "{}", e.text());
    assert!(
        e.message.contains("quote"),
        "it must name what it does know: {}", e.text()
    );
}

#[test]
fn an_unusable_convention_is_refused_with_its_reason() {
    let e = err("instrument X tick 0 lot 1 min 1\n");
    assert!(e.message.contains("unusable conventions"), "{}", e.text());
}

#[test]
fn a_limit_that_could_never_bind_is_refused() {
    let e = err("\
instrument X tick 1 lot 1 min 1
limits X max-position 0 max-exposure 1 max-order-notional 1 max-orders 1 rate-window 1s max-quote-age 1s
");
    assert!(e.message.contains("unusable limits"), "{}", e.text());
}

#[test]
fn a_duration_without_a_unit_is_refused() {
    let e = err("\
instrument X tick 1 lot 1 min 1
limits X max-position 1 max-exposure 1 max-order-notional 1 max-orders 1 rate-window 60 max-quote-age 1s
");
    assert!(e.message.contains("needs a unit"), "{}", e.text());
}

#[test]
fn an_unknown_directive_says_what_was_expected() {
    let e = err("wibble X\n");
    assert!(e.message.contains("instrument, limits, or strategy"), "{}", e.text());
    assert_eq!(e.line, 1);
}

#[test]
fn parse_a_price_with_more_precision_than_the_scale_holds_is_refused() {
    let e = err("instrument X tick 0.0000000001 lot 1 min 1\n");
    assert!(e.message.contains("precision"), "{}", e.text());
}

#[test]
fn a_zero_window_or_size_is_refused() {
    let base = "\
instrument X tick 1 lot 1 min 1
limits X max-position 1 max-exposure 1 max-order-notional 1 max-orders 1 rate-window 1s max-quote-age 1s
";
    assert!(
        err(&format!("{base}strategy crossover X window 0 size 1\n"))
            .message
            .contains("at least one bar")
    );
    assert!(
        err(&format!("{base}strategy crossover X window 5 size 0\n"))
            .message
            .contains("size must be positive")
    );
}

#[test]
fn every_error_carries_the_line_it_was_on() {
    let e = err("\
instrument X tick 1 lot 1 min 1
limits X max-position 1 max-exposure 1 max-order-notional 1 max-orders 1 rate-window 1s max-quote-age 1s

wibble
");
    assert_eq!(e.line, 4, "{}", e.text());
    assert_eq!(e.text(), format!("line 4: {}", e.message));
}

// ---- the quoting strategy ------------------------------------------------

#[test]
fn a_quote_strategy_reads_its_own_settings() {
    let c = parse(
        "\
instrument X tick 0.01 lot 1 min 1
limits X max-position 10 max-exposure 1000 max-order-notional 100 max-orders 60 rate-window 60s max-quote-age 30s
strategy quote X half-spread 0.5 size 2 reprice 0.25 max-inventory 10
",
    )
    .expect("parse");
    assert_eq!(
        c.strategies[0].kind,
        StrategyKind::Quote {
            half_spread: Px::from_scaled(500_000_000),
            size: Qty::from_scaled(2_000_000_000),
            reprice: Px::from_scaled(250_000_000),
            max_inventory: Qty::from_scaled(10_000_000_000),
        }
    );
}

#[test]
fn a_quote_strategy_defaults_reprice_to_its_half_spread() {
    // A quote is worth moving once the market has drifted as far as the edge
    // it was trying to earn. That is a defensible default; zero is not.
    let c = parse(
        "\
instrument X tick 0.01 lot 1 min 1
limits X max-position 10 max-exposure 1000 max-order-notional 100 max-orders 60 rate-window 60s max-quote-age 30s
strategy quote X half-spread 0.5 size 2 max-inventory 10
",
    )
    .expect("parse");
    match c.strategies[0].kind {
        StrategyKind::Quote {
            half_spread,
            reprice,
            ..
        } => assert_eq!(reprice, half_spread),
        _ => panic!("expected a quoter"),
    }
}

#[test]
fn a_crossover_setting_on_a_quoter_is_refused_rather_than_ignored() {
    // The reason the settings are an enum. `window` means nothing to a quoter,
    // and silently accepting it would let someone tune a number that does not
    // exist.
    let e = err(
        "\
instrument X tick 0.01 lot 1 min 1
limits X max-position 10 max-exposure 1000 max-order-notional 100 max-orders 60 rate-window 60s max-quote-age 30s
strategy quote X half-spread 0.5 size 2 max-inventory 10 window 20
",
    );
    assert!(e.message.contains("window"), "{}", e.text());
}

#[test]
fn a_quoter_with_no_half_spread_is_refused() {
    let e = err(
        "\
instrument X tick 0.01 lot 1 min 1
limits X max-position 10 max-exposure 1000 max-order-notional 100 max-orders 60 rate-window 60s max-quote-age 30s
strategy quote X size 2 max-inventory 10
",
    );
    assert!(e.message.contains("half-spread"), "{}", e.text());
}

#[test]
fn a_zero_half_spread_is_refused_because_the_quotes_would_cross() {
    let e = err(
        "\
instrument X tick 0.01 lot 1 min 1
limits X max-position 10 max-exposure 1000 max-order-notional 100 max-orders 60 rate-window 60s max-quote-age 30s
strategy quote X half-spread 0 size 2 max-inventory 10
",
    );
    assert!(e.message.contains("cross"), "{}", e.text());
}

#[test]
fn the_two_strategy_kinds_can_run_side_by_side() {
    let c = parse(
        "\
instrument X tick 0.01 lot 1 min 1
instrument Y tick 0.01 lot 1 min 1
limits X max-position 10 max-exposure 1000 max-order-notional 100 max-orders 60 rate-window 60s max-quote-age 30s
limits Y max-position 10 max-exposure 1000 max-order-notional 100 max-orders 60 rate-window 60s max-quote-age 30s
strategy crossover X window 5 size 1
strategy quote Y half-spread 0.1 size 1 max-inventory 5
",
    )
    .expect("parse");
    assert_eq!(c.strategies.len(), 2);
    assert!(matches!(
        c.strategies[0].kind,
        StrategyKind::Crossover { .. }
    ));
    assert!(matches!(c.strategies[1].kind, StrategyKind::Quote { .. }));
}

// ---- overriding one setting, for a sweep ---------------------------------

fn quoter() -> StrategyConfig {
    parse(
        "\
instrument X tick 0.01 lot 1 min 1
limits X max-position 10 max-exposure 1000 max-order-notional 100 max-orders 60 rate-window 60s max-quote-age 30s
strategy quote X half-spread 0.5 size 2 max-inventory 10
",
    )
    .expect("parse")
    .strategies
    .remove(0)
}

fn crossover() -> StrategyConfig {
    parse(
        "\
instrument X tick 0.01 lot 1 min 1
limits X max-position 10 max-exposure 1000 max-order-notional 100 max-orders 60 rate-window 60s max-quote-age 30s
strategy crossover X window 20 size 2
",
    )
    .expect("parse")
    .strategies
    .remove(0)
}

#[test]
fn overriding_a_setting_changes_only_that_setting() {
    let changed = quoter().with("half-spread", "0.25", &read("0.25")).expect("override");
    assert_eq!(
        changed.kind,
        StrategyKind::Quote {
            half_spread: Px::from_scaled(250_000_000),
            size: Qty::from_scaled(2_000_000_000),
            reprice: Px::from_scaled(500_000_000), // as it was
            max_inventory: Qty::from_scaled(10_000_000_000),
        }
    );
    assert_eq!(changed.symbol, "X");
    assert_eq!(changed.instrument, InstrumentId::new(0));
}

#[test]
fn a_setting_the_strategy_does_not_take_is_refused() {
    // A sweep that silently ignored this would print a grid of runs that were
    // all secretly identical and rank them against each other.
    let e = quoter()
        .with("window", "10", &read("10"))
        .expect_err("quote has no window");
    assert!(e.message.contains("not a setting quote takes"), "{}", e.text());

    let e = crossover()
        .with("half-spread", "1", &read("1"))
        .expect_err("crossover has no half-spread");
    assert!(e.message.contains("not a setting crossover takes"), "{}", e.text());
}

#[test]
fn a_value_that_is_not_a_number_is_refused() {
    let e = quoter().with("size", "wide", &read("wide")).expect_err("not a number");
    assert!(e.message.contains("size"), "{}", e.text());

    let e = crossover().with("window", "20.5", &read("20.5")).expect_err("not whole");
    assert!(e.message.contains("whole number"), "{}", e.text());
}

#[test]
fn every_setting_of_both_kinds_can_be_overridden() {
    // The sweep's usefulness is bounded by this list, so it is checked rather
    // than assumed.
    for key in ["window", "size", "bars"] {
        crossover()
            .with(key, "3", &read("3"))
            .unwrap_or_else(|e| panic!("crossover.{key}: {e:?}"));
    }
    for key in ["half-spread", "size", "reprice", "max-inventory"] {
        quoter()
            .with(key, "3", &read("3"))
            .unwrap_or_else(|e| panic!("quote.{key}: {e:?}"));
    }
}

// ---- what the messages say -----------------------------------------------

#[test]
fn a_setting_that_does_not_belong_lists_those_that_do() {
    // A stray `bars` is as unknown to an instrument as any other word.
    let e = err("instrument X tick 1 lot 1 min 1 bars 2\n");
    assert_eq!(
        e.text(),
        "line 1: \"bars\" is not a setting here; expected one of [\"tick\", \"lot\", \"min\"]"
    );
}

#[test]
fn a_setting_given_twice_is_refused() {
    let e = err("instrument X tick 1 lot 1 tick 2 min 1\n");
    assert_eq!(e.text(), "line 1: \"tick\" is given twice");
}

#[test]
fn a_directive_without_a_subject_is_refused() {
    assert_eq!(err("instrument\n").text(), "line 1: expected a symbol");
    assert_eq!(err("limits # none\n").text(), "line 1: expected a symbol");
    assert_eq!(err("strategy\n").text(), "line 1: expected a strategy name");
    assert_eq!(err("strategy quote\n").text(), "line 1: expected a symbol");
}

#[test]
fn a_duration_must_be_positive_and_a_decimal() {
    let line = |window: &str| {
        format!(
            "instrument X tick 1 lot 1 min 1\nlimits X max-position 1 max-exposure 1 \
             max-order-notional 1 max-orders 1 rate-window {window} max-quote-age 1s\n"
        )
    };
    assert_eq!(
        err(&line("0s")).text(),
        "line 2: rate-window must be positive"
    );
    assert_eq!(
        err(&line("xs")).text(),
        "line 2: rate-window \"xs\": not a decimal"
    );
    let c = parse(&line("1.5ms")).expect("parse");
    let limits = c.limits.get(InstrumentId::new(0)).expect("limits");
    assert_eq!(limits.rate_window.to_nanos(), 1_500_000);
    assert_eq!(limits.max_exposure, Notional::from_scaled(1_000_000_000));
    assert_eq!(c.limits.get(InstrumentId::new(1)), None);
    assert_eq!(c.instrument_list().len(), 1);
    assert!(c.by_symbol("Y").is_none());
}
