//! Reads a recording back and says what happened.
//!
//! A pure consumer: it names what each record says, lays the report out, and
//! leaves every figure of the accounting to those who account.
use std::collections::HashMap;
use vstd::prelude::*;

use crate::event::codec::{header, InstrumentEntry, LogHeader};
use crate::event::{
    file, Command, Event, Inbound, MarketKind, OrderKind, Outbound, Record, Recovery, SeqNo,
    VenueEvent, VenueKind,
};
use crate::json;
use crate::json::{Member, MemberView};
use crate::report::{Holding, Lag, Refusal, Summary, Valuation, Working};
use crate::sim::Level;
use crate::text;
use crate::text::{
    debug_string, glue, int_string, left, number_string, padded_string, put, right, said, say,
    Glyph, Text,
};
use crate::value::{InstrumentId, Notional, OrderId, Px, Qty, Side};
use crate::words;
use crate::words::{parse_u64, same, string_of};

verus! {

/// Which view was asked for.
#[derive(Debug, Clone, Copy, PartialEq, Eq, Structural)]
pub enum Shown {
    /// Decisions and venue reports.
    Decisions,
    /// Every record.
    All,
    /// The fills, with running accounting.
    Fills,
    /// The realized-profit curve.
    Curve,
}

/// What was asked for.
#[derive(Debug, Clone, PartialEq, Eq)]
pub struct Args {
    pub path: String,
    pub shown: Shown,
    pub from: u64,
    pub to: u64,
    /// Whether to write JSON instead of a table.
    pub json: bool,
    /// The most fills that JSON output holds.
    pub tail: usize,
}

/// [`Args`] while they are read.
pub struct ArgsView {
    pub path: Option<Seq<char>>,
    pub shown: Shown,
    pub from: u64,
    pub to: u64,
    pub json: bool,
    pub tail: usize,
}

impl View for Args {
    type V = ArgsView;

    open spec fn view(&self) -> ArgsView {
        ArgsView {
            path: Some(self.path@),
            shown: self.shown,
            from: self.from,
            to: self.to,
            json: self.json,
            tail: self.tail,
        }
    }
}

/// Whether a word starts with two dashes.
pub open spec fn is_option(word: Seq<char>) -> bool {
    word.len() >= 2 && word[0] == '-' && word[1] == '-'
}

/// A word without the `#`s it starts with.
pub open spec fn without_marks(word: Seq<char>) -> Seq<char>
    decreases word.len(),
{
    if word.len() > 0 && word[0] == '#' {
        without_marks(word.skip(1))
    } else {
        word
    }
}

/// A whole number up to `most`.
pub open spec fn count_in(word: Seq<char>, most: int) -> Option<int> {
    match words::int_of(word, false) {
        Some(n) if n <= most => Some(n),
        _ => None,
    }
}

/// What the words from the `i`th on make of what was asked for before.
pub open spec fn args_from(words: Seq<Seq<char>>, i: int, args: ArgsView) -> Result<
    ArgsView,
    Seq<char>,
>
    decreases words.len() - i,
{
    if i < 0 || i >= words.len() {
        match args.path {
            Some(_) => Ok(args),
            None => Err(
                "usage: journal <recorded.log> [--all|--fills|--curve] [--json] [--tail N]"@,
            ),
        }
    } else {
        let word = words[i];
        if word == "--all"@ {
            args_from(words, i + 1, ArgsView { shown: Shown::All, ..args })
        } else if word == "--fills"@ {
            args_from(words, i + 1, ArgsView { shown: Shown::Fills, ..args })
        } else if word == "--curve"@ {
            args_from(words, i + 1, ArgsView { shown: Shown::Curve, ..args })
        } else if word == "--json"@ {
            args_from(words, i + 1, ArgsView { json: true, ..args })
        } else if word == "--tail"@ {
            if i + 1 >= words.len() {
                Err("--tail needs a count"@)
            } else {
                match count_in(words[i + 1], usize::MAX as int) {
                    None => Err(
                        "--tail wants a count, got "@ + text::quoted_by_debug(words[i + 1]),
                    ),
                    Some(n) => args_from(words, i + 2, ArgsView { tail: n as usize, ..args }),
                }
            }
        } else if word == "--from"@ || word == "--to"@ {
            if i + 1 >= words.len() {
                Err(word + " needs a sequence number"@)
            } else {
                match count_in(without_marks(words[i + 1]), u64::MAX as int) {
                    None => Err(
                        word + " wants a sequence number, got "@ + text::quoted_by_debug(
                            words[i + 1],
                        ),
                    ),
                    Some(n) => if word == "--from"@ {
                        args_from(words, i + 2, ArgsView { from: n as u64, ..args })
                    } else {
                        args_from(words, i + 2, ArgsView { to: n as u64, ..args })
                    },
                }
            }
        } else if is_option(word) {
            Err("unknown option "@ + word)
        } else if args.path is Some {
            Err("only one recording at a time"@)
        } else {
            args_from(words, i + 1, ArgsView { path: Some(word), ..args })
        }
    }
}

/// What is asked for where nothing is said.
pub open spec fn asked_for() -> ArgsView {
    ArgsView {
        path: None,
        shown: Shown::Decisions,
        from: 0,
        to: u64::MAX,
        json: false,
        tail: 2_000,
    }
}

fn drop_marks(word: &str) -> (rest: String)
    ensures
        rest@ == without_marks(word@),
{
    let chars = text::chars_of(word);
    let mut from: usize = 0;
    assert(chars@.skip(0) =~= chars@);
    while from < chars.len() && chars[from] == '#'
        invariant
            from <= chars@.len(),
            without_marks(chars@) == without_marks(chars@.skip(from as int)),
        decreases chars@.len() - from,
    {
        assert(chars@.skip(from as int).skip(1) =~= chars@.skip(from + 1));
        from += 1;
    }
    let rest = string_of(chars.as_slice(), from, chars.len());
    assert(rest@ =~= chars@.skip(from as int));
    rest
}

fn starts_with_dashes(word: &str) -> (yes: bool)
    ensures
        yes == is_option(word@),
{
    let chars = text::chars_of(word);
    chars.len() >= 2 && chars[0] == '-' && chars[1] == '-'
}

/// Reads the words that the tool was called with.
pub fn parse_args(argv: &[String]) -> (args: Result<Args, String>)
    ensures
        match args {
            Ok(a) => args_from(words::views(argv@), 0, asked_for()) == Ok::<ArgsView, Seq<char>>(
                a@,
            ),
            Err(e) => args_from(words::views(argv@), 0, asked_for()) == Err::<
                ArgsView,
                Seq<char>,
            >(e@),
        },
{
    let ghost w = words::views(argv@);
    let mut path: Option<String> = None;
    let mut shown = Shown::Decisions;
    let mut from: u64 = 0;
    let mut to: u64 = u64::MAX;
    let mut json: bool = false;
    let mut tail: usize = 2_000;
    let mut i: usize = 0;
    while i < argv.len()
        invariant
            i <= argv@.len(),
            w == words::views(argv@),
            args_from(w, 0, asked_for()) == args_from(
                w,
                i as int,
                ArgsView {
                    path: match path {
                        Some(p) => Some(p@),
                        None => None,
                    },
                    shown,
                    from,
                    to,
                    json,
                    tail,
                },
            ),
        decreases argv@.len() - i,
    {
        let word = argv[i].as_str();
        assert(w[i as int] == word@);
        let left_over: usize = argv.len() - i;
        assert(left_over >= 2 ==> w[i + 1] == argv@[i + 1]@);
        if same(word, "--all") {
            shown = Shown::All;
            i += 1;
        } else if same(word, "--fills") {
            shown = Shown::Fills;
            i += 1;
        } else if same(word, "--curve") {
            shown = Shown::Curve;
            i += 1;
        } else if same(word, "--json") {
            json = true;
            i += 1;
        } else if same(word, "--tail") {
            if left_over < 2 {
                return Err(said("--tail needs a count"));
            }
            match parse_u64(argv[i + 1].as_str()) {
                Some(n) if n <= usize::MAX as u64 => {
                    tail = n as usize;
                    i += 2;
                },
                _ => {
                    let raw = debug_string(argv[i + 1].as_str());
                    return Err(glue("--tail wants a count, got ", raw.as_str()));
                },
            }
        } else if same(word, "--from") || same(word, "--to") {
            if left_over < 2 {
                return Err(glue(word, " needs a sequence number"));
            }
            let number = drop_marks(argv[i + 1].as_str());
            match parse_u64(number.as_str()) {
                Some(n) => {
                    if same(word, "--from") {
                        from = n;
                    } else {
                        to = n;
                    }
                    i += 2;
                },
                None => {
                    let raw = debug_string(argv[i + 1].as_str());
                    let wants = glue(word, " wants a sequence number, got ");
                    return Err(glue(wants.as_str(), raw.as_str()));
                },
            }
        } else if starts_with_dashes(word) {
            return Err(glue("unknown option ", word));
        } else {
            if path.is_some() {
                return Err(said("only one recording at a time"));
            }
            path = Some(said(word));
            i += 1;
        }
    }
    match path {
        Some(path) => Ok(Args { path, shown, from, to, json, tail }),
        None => Err(
            said("usage: journal <recorded.log> [--all|--fills|--curve] [--json] [--tail N]"),
        ),
    }
}

/// What an instrument is called.
pub open spec fn symbol_at(symbols: Seq<Seq<char>>, instrument: InstrumentId) -> Seq<char> {
    if instrument.0 < symbols.len() {
        symbols[instrument.0 as int]
    } else {
        "?"@
    }
}

/// What an instrument is called.
pub fn symbol_of(symbols: &[String], instrument: InstrumentId) -> (symbol: &str)
    ensures
        symbol@ == symbol_at(words::views(symbols@), instrument),
{
    let i: usize = instrument.raw() as usize;
    if i < symbols.len() {
        assert(words::views(symbols@)[i as int] == symbols@[i as int]@);
        symbols[i].as_str()
    } else {
        "?"
    }
}

/// The symbols of a recording's instruments, by id: a recording is readable
/// without the config that produced it.
pub fn symbols(header: &LogHeader) -> (symbols: Vec<String>)
    ensures
        symbols@.len() == header.instruments@.len(),
        forall|i: int|
            0 <= i < symbols@.len() ==> {
                let bytes = header.instruments@[i]@.symbol_bytes();
                &&& (#[trigger] symbols@[i])@ == header::lossy_utf8(bytes)
                &&& vstd::utf8::valid_utf8(bytes) ==> symbols@[i]@ == vstd::utf8::decode_utf8(bytes)
            },
{
    let mut symbols: Vec<String> = Vec::new();
    let mut i: usize = 0;
    while i < header.instruments.len()
        invariant
            i <= header.instruments@.len(),
            symbols@.len() == i,
            forall|k: int|
                0 <= k < i ==> {
                    let bytes = header.instruments@[k]@.symbol_bytes();
                    &&& (#[trigger] symbols@[k])@ == header::lossy_utf8(bytes)
                    &&& vstd::utf8::valid_utf8(bytes) ==> symbols@[k]@ == vstd::utf8::decode_utf8(
                        bytes,
                    )
                },
        decreases header.instruments@.len() - i,
    {
        symbols.push(header.instruments[i].symbol_lossy());
        i += 1;
    }
    symbols
}

/// The size of a number.
pub open spec fn size_of(n: int) -> nat {
    if n < 0 {
        (-n) as nat
    } else {
        n as nat
    }
}

/// Nanoseconds as milliseconds, to three places: the lag of a streaming feed is
/// a few milliseconds, and whole ones would print most of it as zero.
pub open spec fn millis_of(nanos: int) -> Seq<char> {
    let n = size_of(nanos);
    (if nanos < 0 {
        "-"@
    } else {
        ""@
    }) + text::digits(n / 1_000_000) + "."@ + text::base_padded((n % 1_000_000) / 1_000, 10, 3)
        + "ms"@
}

/// Nanoseconds as milliseconds, to three places.
pub fn millis(nanos: i64) -> (text: String)
    ensures
        text@ == millis_of(nanos as int),
{
    let n: u128 = if nanos < 0 {
        (-(nanos as i128)) as u128
    } else {
        nanos as u128
    };
    let whole = number_string(n / 1_000_000);
    let part = padded_string((n % 1_000_000) / 1_000, 10, 3);
    let sign = if nanos < 0 {
        "-"
    } else {
        ""
    };
    glue(
        glue(glue(glue(sign, whole.as_str()).as_str(), ".").as_str(), part.as_str()).as_str(),
        "ms",
    )
}

/// What one record says.
#[derive(Debug)]
pub struct Line {
    pub kind: &'static str,
    pub instrument: String,
    pub what: Text,
    pub caused_by: Option<SeqNo>,
}

/// A [`Line`] as characters and glyphs.
pub struct LineView {
    pub kind: Seq<char>,
    pub instrument: Seq<char>,
    pub what: Seq<Glyph>,
    pub caused_by: Option<SeqNo>,
}

impl View for Line {
    type V = LineView;

    open spec fn view(&self) -> LineView {
        LineView {
            kind: self.kind@,
            instrument: self.instrument@,
            what: self.what@,
            caused_by: self.caused_by,
        }
    }
}

/// Characters as they are written.
pub open spec fn written(s: Seq<char>) -> Seq<Glyph> {
    text::glyphs_of(s)
}

/// What a decision says.
pub open spec fn decision_words(out: Outbound) -> Seq<Glyph> {
    match out {
        Outbound::OrderSubmitted { order, side, qty, kind, reduce_only, .. } => seq![
            Glyph::Order(order),
        ] + written(" "@) + written(side.label()) + written(" "@) + seq![Glyph::Qty(qty)]
            + written(" "@) + (match kind {
            OrderKind::Market => written("market"@),
            OrderKind::Limit(px) => written("limit "@) + seq![Glyph::Px(px)],
        }) + (if reduce_only {
            written("  reduce-only"@)
        } else {
            Seq::empty()
        }),
        Outbound::CancelSubmitted { order, .. } => seq![Glyph::Order(order)],
        Outbound::IntentRejected { side, qty, reason, .. } => written(side.label()) + written(" "@)
            + seq![Glyph::Qty(qty)] + written(" — "@) + written(reason.label()),
        Outbound::StateChanged { from, to, reason, .. } => written(from.label()) + written(" -> "@)
            + written(to.label()) + written(" ("@) + written(reason.label()) + written(")"@),
        Outbound::TimerRequested { at, .. } => written("wake at "@) + written(
            text::decimal(at.0 as int),
        ),
    }
}

/// What the venue says.
pub open spec fn venue_words(venue: VenueEvent) -> Seq<Glyph> {
    seq![Glyph::Order(venue.order)] + written(" "@) + match venue.kind {
        VenueKind::Accepted => written("accepted"@),
        VenueKind::Rejected { reason } => written("rejected — "@) + written(reason.label()),
        VenueKind::Filled { px, qty, fee } => written("filled "@) + seq![Glyph::Qty(qty)] + written(
            " @ "@,
        ) + seq![Glyph::Px(px)] + written("  fee "@) + seq![Glyph::Money(fee)],
        VenueKind::Cancelled => written("cancelled"@),
        VenueKind::CancelRejected { reason } => written("cancel rejected — "@) + written(
            reason.label(),
        ),
        VenueKind::Expired => written("expired"@),
    }
}

/// What the market says.
pub open spec fn market_words(kind: MarketKind) -> Seq<Glyph> {
    match kind {
        MarketKind::Quote { bid_px, bid_qty, ask_px, ask_qty } => written("quote "@) + seq![
            Glyph::Px(bid_px),
        ] + written(" x "@) + seq![Glyph::Qty(bid_qty)] + written("  /  "@) + seq![
            Glyph::Px(ask_px),
        ] + written(" x "@) + seq![Glyph::Qty(ask_qty)],
        MarketKind::Trade { px, qty, aggressor } => written("trade "@) + seq![Glyph::Qty(qty)]
            + written(" @ "@) + seq![Glyph::Px(px)] + written(", "@) + written(aggressor.label())
            + written(" took"@),
        MarketKind::Level { side, px, qty } => written("level "@) + written(side.label()) + written(
            " "@,
        ) + seq![Glyph::Px(px)] + (if qty == Qty(0) {
            written(" removed"@)
        } else {
            written(" x "@) + seq![Glyph::Qty(qty)]
        }),
        MarketKind::BookApplied => written("book update applied"@),
        MarketKind::BookReset => written("book reset, a snapshot follows"@),
    }
}

/// What a command says.
pub open spec fn command_word(command: Command) -> Seq<char> {
    match command {
        Command::Halt => "halt"@,
        Command::Resume => "resume"@,
        Command::Kill => "kill"@,
        Command::Flatten => "flatten"@,
    }
}

/// One line's worth of a record, or `None` where the view hides it. Market data
/// and timers are the bulk of any recording, so they show only where every
/// record does; the rest is too rare to hide.
pub open spec fn line_of(event: Event, symbols: Seq<Seq<char>>, shown: Shown) -> Option<LineView> {
    match event {
        Event::Out(out) => match out {
            Outbound::OrderSubmitted { caused_by, instrument, .. } => Some(
                LineView {
                    kind: "order"@,
                    instrument: symbol_at(symbols, instrument),
                    what: decision_words(out),
                    caused_by: Some(caused_by),
                },
            ),
            Outbound::CancelSubmitted { caused_by, .. } => Some(
                LineView {
                    kind: "cancel"@,
                    instrument: ""@,
                    what: decision_words(out),
                    caused_by: Some(caused_by),
                },
            ),
            Outbound::IntentRejected { caused_by, instrument, .. } => Some(
                LineView {
                    kind: "refused"@,
                    instrument: symbol_at(symbols, instrument),
                    what: decision_words(out),
                    caused_by: Some(caused_by),
                },
            ),
            Outbound::StateChanged { caused_by, .. } => Some(
                LineView {
                    kind: "state"@,
                    instrument: ""@,
                    what: decision_words(out),
                    caused_by: Some(caused_by),
                },
            ),
            Outbound::TimerRequested { caused_by, .. } => if shown == Shown::All {
                Some(
                    LineView {
                        kind: "timer"@,
                        instrument: ""@,
                        what: decision_words(out),
                        caused_by: Some(caused_by),
                    },
                )
            } else {
                None
            },
        },
        Event::In(Inbound::Venue(venue)) => Some(
            LineView {
                kind: "venue"@,
                instrument: ""@,
                what: venue_words(venue),
                caused_by: None,
            },
        ),
        Event::In(Inbound::Command(command)) => Some(
            LineView {
                kind: "command"@,
                instrument: ""@,
                what: written(command_word(command.command)),
                caused_by: None,
            },
        ),
        Event::In(Inbound::VenuePosition(report)) => Some(
            LineView {
                kind: "recon"@,
                instrument: symbol_at(symbols, report.instrument),
                what: written("venue says "@) + seq![Glyph::Qty(report.venue_qty)],
                caused_by: None,
            },
        ),
        Event::In(Inbound::Market(market)) => if shown == Shown::All {
            Some(
                LineView {
                    kind: "market"@,
                    instrument: symbol_at(symbols, market.instrument),
                    what: market_words(market.kind),
                    caused_by: None,
                },
            )
        } else {
            None
        },
        Event::In(Inbound::Timer(timer)) => if shown == Shown::All {
            Some(
                LineView {
                    kind: "timer"@,
                    instrument: ""@,
                    what: written("fired "@) + written(text::digits(timer.token.0 as nat))
                        + written(" at "@) + written(text::decimal(timer.fires_at.0 as int)),
                    caused_by: None,
                },
            )
        } else {
            None
        },
    }
}

fn decision_text(out: &Outbound) -> (t: Text)
    ensures
        t@ == decision_words(*out),
{
    let mut t = Text::new();
    match *out {
        Outbound::OrderSubmitted { order, side, qty, kind, reduce_only, .. } => {
            t.order(order);
            t.lit(" ");
            t.lit(side.name());
            t.lit(" ");
            t.qty(qty);
            t.lit(" ");
            match kind {
                OrderKind::Market => t.lit("market"),
                OrderKind::Limit(px) => {
                    t.lit("limit ");
                    t.px(px);
                },
            }
            if reduce_only {
                t.lit("  reduce-only");
            }
        },
        Outbound::CancelSubmitted { order, .. } => t.order(order),
        Outbound::IntentRejected { side, qty, reason, .. } => {
            t.lit(side.name());
            t.lit(" ");
            t.qty(qty);
            t.lit(" — ");
            t.lit(reason.name());
        },
        Outbound::StateChanged { from, to, reason, .. } => {
            t.lit(from.name());
            t.lit(" -> ");
            t.lit(to.name());
            t.lit(" (");
            t.lit(reason.name());
            t.lit(")");
        },
        Outbound::TimerRequested { at, .. } => {
            t.lit("wake at ");
            t.signed(at.to_nanos() as i128);
        },
    }
    assert(t@ =~= decision_words(*out));
    t
}

fn venue_text(venue: &VenueEvent) -> (t: Text)
    ensures
        t@ == venue_words(*venue),
{
    let mut t = Text::new();
    t.order(venue.order);
    t.lit(" ");
    match venue.kind {
        VenueKind::Accepted => t.lit("accepted"),
        VenueKind::Rejected { reason } => {
            t.lit("rejected — ");
            t.lit(reason.name());
        },
        VenueKind::Filled { px, qty, fee } => {
            t.lit("filled ");
            t.qty(qty);
            t.lit(" @ ");
            t.px(px);
            t.lit("  fee ");
            t.money(fee);
        },
        VenueKind::Cancelled => t.lit("cancelled"),
        VenueKind::CancelRejected { reason } => {
            t.lit("cancel rejected — ");
            t.lit(reason.name());
        },
        VenueKind::Expired => t.lit("expired"),
    }
    assert(t@ =~= venue_words(*venue));
    t
}

fn market_text(kind: MarketKind) -> (t: Text)
    ensures
        t@ == market_words(kind),
{
    let mut t = Text::new();
    match kind {
        MarketKind::Quote { bid_px, bid_qty, ask_px, ask_qty } => {
            t.lit("quote ");
            t.px(bid_px);
            t.lit(" x ");
            t.qty(bid_qty);
            t.lit("  /  ");
            t.px(ask_px);
            t.lit(" x ");
            t.qty(ask_qty);
        },
        MarketKind::Trade { px, qty, aggressor } => {
            t.lit("trade ");
            t.qty(qty);
            t.lit(" @ ");
            t.px(px);
            t.lit(", ");
            t.lit(aggressor.name());
            t.lit(" took");
        },
        MarketKind::Level { side, px, qty } => {
            t.lit("level ");
            t.lit(side.name());
            t.lit(" ");
            t.px(px);
            if qty == Qty::zero() {
                t.lit(" removed");
            } else {
                t.lit(" x ");
                t.qty(qty);
            }
        },
        MarketKind::BookApplied => t.lit("book update applied"),
        MarketKind::BookReset => t.lit("book reset, a snapshot follows"),
    }
    assert(t@ =~= market_words(kind));
    t
}

/// One line's worth of a record, or `None` where the view hides it.
pub fn describe(record: &Record, symbols: &[String], shown: Shown) -> (line: Option<Line>)
    ensures
        match line {
            Some(l) => line_of(record.event, words::views(symbols@), shown) == Some(l@),
            None => line_of(record.event, words::views(symbols@), shown) is None,
        },
{
    let all = matches!(shown, Shown::All);
    match record.event {
        Event::Out(out) => {
            let (kind, instrument, caused_by) = match out {
                Outbound::OrderSubmitted { caused_by, instrument, .. } => (
                    "order",
                    said(symbol_of(symbols, instrument)),
                    caused_by,
                ),
                Outbound::CancelSubmitted { caused_by, .. } => ("cancel", said(""), caused_by),
                Outbound::IntentRejected { caused_by, instrument, .. } => (
                    "refused",
                    said(symbol_of(symbols, instrument)),
                    caused_by,
                ),
                Outbound::StateChanged { caused_by, .. } => ("state", said(""), caused_by),
                Outbound::TimerRequested { caused_by, .. } => {
                    if !all {
                        return None;
                    }
                    ("timer", said(""), caused_by)
                },
            };
            Some(Line { kind, instrument, what: decision_text(&out), caused_by: Some(caused_by) })
        },
        Event::In(Inbound::Venue(venue)) => Some(
            Line {
                kind: "venue",
                instrument: said(""),
                what: venue_text(&venue),
                caused_by: None,
            },
        ),
        Event::In(Inbound::Command(command)) => {
            let mut what = Text::new();
            what.lit(
                match command.command {
                    Command::Halt => "halt",
                    Command::Resume => "resume",
                    Command::Kill => "kill",
                    Command::Flatten => "flatten",
                },
            );
            assert(what@ =~= written(command_word(command.command)));
            Some(Line { kind: "command", instrument: said(""), what, caused_by: None })
        },
        Event::In(Inbound::VenuePosition(report)) => {
            let mut what = Text::new();
            what.lit("venue says ");
            what.qty(report.venue_qty);
            assert(what@ =~= written("venue says "@) + seq![Glyph::Qty(report.venue_qty)]);
            Some(
                Line {
                    kind: "recon",
                    instrument: said(symbol_of(symbols, report.instrument)),
                    what,
                    caused_by: None,
                },
            )
        },
        Event::In(Inbound::Market(market)) => {
            if !all {
                return None;
            }
            Some(
                Line {
                    kind: "market",
                    instrument: said(symbol_of(symbols, market.instrument)),
                    what: market_text(market.kind),
                    caused_by: None,
                },
            )
        },
        Event::In(Inbound::Timer(timer)) => {
            if !all {
                return None;
            }
            let mut what = Text::new();
            what.lit("fired ");
            what.number(timer.token.raw() as u128);
            what.lit(" at ");
            what.signed(timer.fires_at.to_nanos() as i128);
            assert(what@ =~= line_of(record.event, words::views(symbols@), shown)->Some_0.what);
            Some(Line { kind: "timer", instrument: said(""), what, caused_by: None })
        },
    }
}

/// A sequence number in characters.
pub open spec fn seq_chars(seq: SeqNo) -> Seq<char> {
    "#"@ + text::digits(seq.0 as nat)
}

/// The line that stands over a trace.
pub open spec fn trace_head() -> Seq<Glyph> {
    written(text::at_right("seq"@, 7)) + written("  "@) + written(text::at_left("kind"@, 8))
        + written(" "@) + written(text::at_left("instrument"@, 10)) + written(" what"@)
}

/// A record's line in a trace.
pub open spec fn trace_row(seq: SeqNo, line: LineView) -> Seq<Glyph> {
    written(text::at_right(seq_chars(seq), 7)) + written("  "@) + written(
        text::at_left(line.kind, 8),
    ) + written(" "@) + written(text::at_left(line.instrument, 10)) + written(" "@) + line.what + (
    match line.caused_by {
        Some(cause) => written("   <- "@) + file::seq_words(cause),
        None => Seq::empty(),
    })
}

/// The lines of the first `n` records that are asked for and shown.
pub open spec fn trace_of(
    records: Seq<Record>,
    n: int,
    symbols: Seq<Seq<char>>,
    shown: Shown,
    from: u64,
    to: u64,
) -> Seq<Seq<Glyph>>
    decreases n,
{
    if n <= 0 {
        seq![trace_head()]
    } else {
        let before = trace_of(records, n - 1, symbols, shown, from, to);
        let record = records[n - 1];
        match line_of(record.event, symbols, shown) {
            Some(line) if from <= record.seq.0 <= to => before.push(trace_row(record.seq, line)),
            _ => before,
        }
    }
}

fn seq_string(seq: SeqNo) -> (s: String)
    ensures
        s@ == seq_chars(seq),
{
    glue("#", number_string(seq.raw() as u128).as_str())
}

fn trace_line(seq: SeqNo, line: &Line) -> (row: Text)
    ensures
        row@ == trace_row(seq, line@),
{
    let mut t = Text::new();
    t.lit(right(seq_string(seq).as_str(), 7).as_str());
    t.lit("  ");
    t.lit(left(line.kind, 8).as_str());
    t.lit(" ");
    t.lit(left(line.instrument.as_str(), 10).as_str());
    t.lit(" ");
    t.join(&line.what);
    if let Some(cause) = line.caused_by {
        t.lit("   <- ");
        cause.write_to(&mut t);
    }
    assert(t@ =~= trace_row(seq, line@));
    t
}

/// Walks the log and writes one line per record, whichever the view shows.
pub fn trace(records: &[Record], symbols: &[String], shown: Shown, from: u64, to: u64) -> (lines:
    Vec<Text>)
    ensures
        text::lines_of(lines@) == trace_of(
            records@,
            records@.len() as int,
            words::views(symbols@),
            shown,
            from,
            to,
        ),
{
    let ghost w = words::views(symbols@);
    let mut lines: Vec<Text> = Vec::new();
    let mut head = Text::new();
    head.lit(right("seq", 7).as_str());
    head.lit("  ");
    head.lit(left("kind", 8).as_str());
    head.lit(" ");
    head.lit(left("instrument", 10).as_str());
    head.lit(" what");
    assert(head@ =~= trace_head());
    lines.push(head);
    assert(text::lines_of(lines@) =~= seq![trace_head()]);
    let mut i: usize = 0;
    while i < records.len()
        invariant
            i <= records@.len(),
            w == words::views(symbols@),
            text::lines_of(lines@) == trace_of(records@, i as int, w, shown, from, to),
        decreases records@.len() - i,
    {
        let seq = records[i].seq;
        if from <= seq.raw() && seq.raw() <= to {
            if let Some(line) = describe(&records[i], symbols, shown) {
                let row = trace_line(seq, &line);
                let ghost before = text::lines_of(lines@);
                lines.push(row);
                assert(text::lines_of(lines@) =~= before.push(row@));
            }
        }
        i += 1;
    }
    lines
}

/// The exchange times that the first `n` records cover: that of the first event
/// that has one, and the latest.
pub open spec fn span_of(records: Seq<Record>, n: int) -> Option<(i64, i64)>
    decreases n,
{
    if n <= 0 {
        None
    } else {
        let before = span_of(records, n - 1);
        let at = match records[n - 1].event {
            Event::In(input) => input.spec_exchange_time(),
            Event::Out(_) => None,
        };
        match at {
            None => before,
            Some(at) => match before {
                None => Some((at.0, at.0)),
                Some((first, last)) => Some(
                    (
                        first,
                        if at.0 > last {
                            at.0
                        } else {
                            last
                        },
                    ),
                ),
            },
        }
    }
}

/// The exchange times that records cover.
pub fn span(records: &[Record]) -> (span: Option<(i64, i64)>)
    ensures
        span == span_of(records@, records@.len() as int),
        span matches Some((first, last)) ==> first <= last,
{
    let mut span: Option<(i64, i64)> = None;
    let mut i: usize = 0;
    while i < records.len()
        invariant
            i <= records@.len(),
            span == span_of(records@, i as int),
            span matches Some((first, last)) ==> first <= last,
        decreases records@.len() - i,
    {
        let at = match records[i].event {
            Event::In(input) => input.exchange_time(),
            Event::Out(_) => None,
        };
        if let Some(at) = at {
            let nanos: i64 = at.to_nanos();
            span = Some(
                match span {
                    None => (nanos, nanos),
                    Some((first, last)) => (
                        first,
                        if nanos > last {
                            nanos
                        } else {
                            last
                        },
                    ),
                },
            );
        }
        i += 1;
    }
    span
}

/// A fill, and what it traded.
#[derive(Debug, Clone, Copy, PartialEq, Eq, Structural)]
pub struct Trade {
    pub instrument: InstrumentId,
    pub side: Side,
    pub qty: Qty,
    pub px: Px,
    pub fee: Notional,
}

/// What orders traded, from the submissions that the log recorded: fill reports
/// name an order and no instrument.
#[derive(Debug)]
pub struct Books {
    submitted: HashMap<u64, (InstrumentId, Side)>,
}

/// What a [`Books`] knows: what each order trades, by the order's number.
pub struct BooksView {
    pub submitted: Map<u64, (InstrumentId, Side)>,
}

impl View for Books {
    type V = BooksView;

    closed spec fn view(&self) -> BooksView {
        BooksView { submitted: self.submitted@ }
    }
}

impl BooksView {
    /// What the log recorded of an order.
    pub open spec fn order(self, order: OrderId) -> Option<(InstrumentId, Side)> {
        if self.submitted.contains_key(order.0) {
            Some(self.submitted[order.0])
        } else {
            None
        }
    }

    /// With a submission taken in.
    pub open spec fn with(self, order: OrderId, instrument: InstrumentId, side: Side) -> BooksView {
        BooksView { submitted: self.submitted.insert(order.0, (instrument, side)) }
    }

    /// With a record taken in.
    pub open spec fn applied(self, record: Record) -> BooksView {
        match record.event {
            Event::Out(Outbound::OrderSubmitted { order, instrument, side, .. }) => self.with(
                order,
                instrument,
                side,
            ),
            _ => self,
        }
    }

    /// What is known once the first `upto` records were taken in.
    pub open spec fn after(records: Seq<Record>, upto: int) -> BooksView
        decreases upto,
    {
        if upto <= 0 {
            BooksView { submitted: Map::empty() }
        } else {
            BooksView::after(records, upto - 1).applied(records[upto - 1])
        }
    }
}

/// Whether a record is the submission of an order.
pub open spec fn submits(record: Record, order: OrderId) -> bool {
    record.event matches Event::Out(Outbound::OrderSubmitted { order: id, .. }) && id == order
}

/// An order is known exactly where the log recorded it being submitted. Any other
/// is refused, not guessed, wherever its number lies.
pub proof fn only_submitted_orders_are_known(records: Seq<Record>, upto: int, order: OrderId)
    requires
        0 <= upto <= records.len(),
    ensures
        BooksView::after(records, upto).order(order) is Some <==> exists|i: int|
            0 <= i < upto && submits(#[trigger] records[i], order),
    decreases upto,
{
    if upto > 0 {
        only_submitted_orders_are_known(records, upto - 1, order);
        let last = records[upto - 1];
        if submits(last, order) {
            assert(BooksView::after(records, upto).order(order) is Some);
        } else if BooksView::after(records, upto - 1).order(order) is Some {
            let i = choose|i: int| 0 <= i < upto - 1 && submits(#[trigger] records[i], order);
            assert(submits(records[i], order));
        }
    }
}

/// What is said of a fill of an order that was never submitted. Guessing would
/// give a number that looks authoritative and is not.
pub open spec fn never_submitted(order: OrderId) -> Seq<Glyph> {
    seq![Glyph::Order(order)] + written(
        " filled, but this log never recorded it being submitted"@,
    )
}

impl Books {
    /// Nothing recorded yet.
    pub fn new() -> (books: Books)
        ensures
            books@ == (BooksView { submitted: Map::empty() }),
    {
        let books = Books { submitted: HashMap::new() };
        assert(books@.submitted =~= Map::empty());
        books
    }

    /// What an order traded.
    pub fn order(&self, order: OrderId) -> (traded: Result<(InstrumentId, Side), Text>)
        ensures
            match self@.order(order) {
                Some(pair) => traded == Ok::<(InstrumentId, Side), Text>(pair),
                None => traded matches Err(e) && e@ == never_submitted(order),
            },
    {
        broadcast use vstd::std_specs::hash::group_hash_axioms;

        let number: u64 = order.raw();
        if let Some(pair) = self.submitted.get(&number) {
            return Ok(*pair);
        }
        let mut t = Text::new();
        t.order(order);
        t.lit(" filled, but this log never recorded it being submitted");
        assert(t@ =~= never_submitted(order));
        Err(t)
    }

    /// Takes a record in, and gives what traded where it is a fill.
    pub fn apply(&mut self, record: &Record) -> (traded: Result<Option<Trade>, Text>)
        ensures
            final(self)@ == old(self)@.applied(*record),
            match record.event {
                Event::In(Inbound::Venue(venue)) => match venue.kind {
                    VenueKind::Filled { px, qty, fee } => match old(self)@.order(venue.order) {
                        Some((instrument, side)) => traded == Ok::<Option<Trade>, Text>(
                            Some(Trade { instrument, side, qty, px, fee }),
                        ),
                        None => traded matches Err(e) && e@ == never_submitted(venue.order),
                    },
                    _ => traded == Ok::<Option<Trade>, Text>(None),
                },
                _ => traded == Ok::<Option<Trade>, Text>(None),
            },
    {
        broadcast use vstd::std_specs::hash::group_hash_axioms;

        match record.event {
            Event::Out(Outbound::OrderSubmitted { order, instrument, side, .. }) => {
                let number: u64 = order.raw();
                self.submitted.insert(number, (instrument, side));
                Ok(None)
            },
            Event::In(Inbound::Venue(venue)) => match venue.kind {
                VenueKind::Filled { px, qty, fee } => {
                    let (instrument, side) = self.order(venue.order)?;
                    Ok(Some(Trade { instrument, side, qty, px, fee }))
                },
                _ => Ok(None),
            },
            _ => Ok(None),
        }
    }
}

/// Where a fill left the accounts: the position in its instrument, what that has
/// realized, and what each position has.
#[derive(Debug, Clone)]
pub struct Standing {
    pub position: Qty,
    pub realized: Notional,
    pub each: Vec<Notional>,
}

/// What one fill did.
#[derive(Debug, Clone, Copy, PartialEq, Eq, Structural)]
pub struct Fill {
    pub seq: SeqNo,
    pub trade: Trade,
    pub position: Qty,
    pub realized: Notional,
    pub total_realized: Notional,
}

/// What the first `n` positions have realized.
pub open spec fn realized_by(each: Seq<Notional>, n: int) -> int
    decreases n,
{
    if n <= 0 {
        0
    } else {
        realized_by(each, n - 1) + each[n - 1].0
    }
}

/// Whether what positions have realized can be added up.
pub open spec fn addable(each: Seq<Notional>) -> bool {
    forall|n: int|
        0 <= n <= each.len() ==> i128::MIN <= #[trigger] realized_by(each, n) <= i128::MAX
}

fn total_realized(each: &[Notional]) -> (total: Notional)
    requires
        addable(each@),
    ensures
        total == Notional(realized_by(each@, each@.len() as int) as i128),
{
    let mut total: i128 = 0;
    let mut i: usize = 0;
    while i < each.len()
        invariant
            i <= each@.len(),
            addable(each@),
            total == realized_by(each@, i as int),
        decreases each@.len() - i,
    {
        assert(realized_by(each@, i + 1) == total + each@[i as int].0);
        total = total + each[i].to_scaled();
        i += 1;
    }
    Notional::from_scaled(total)
}

impl Fill {
    /// What a fill did, from what the accounts say of it: why they refused it, or
    /// that they do not have its instrument, or where it left them.
    pub fn account(seq: SeqNo, trade: Trade, standing: Result<Option<Standing>, String>) -> (fill:
        Result<Fill, Text>)
        requires
            standing matches Ok(Some(s)) ==> addable(s.each@),
        ensures
            match standing {
                Err(e) => fill matches Err(t) && t@ == written("record "@) + file::seq_words(seq)
                    + written(" does not add up: "@) + written(e@),
                Ok(None) => fill matches Err(t) && t@ == written("record "@) + file::seq_words(seq)
                    + written(" names an unknown instrument"@),
                Ok(Some(s)) => fill == Ok::<Fill, Text>(
                    Fill {
                        seq,
                        trade,
                        position: s.position,
                        realized: s.realized,
                        total_realized: Notional(
                            realized_by(s.each@, s.each@.len() as int) as i128,
                        ),
                    },
                ),
            },
    {
        let mut t = Text::new();
        t.lit("record ");
        seq.write_to(&mut t);
        match standing {
            Err(e) => {
                t.lit(" does not add up: ");
                t.lit(e.as_str());
                assert(t@ =~= written("record "@) + file::seq_words(seq) + written(
                    " does not add up: "@,
                ) + written(e@));
                Err(t)
            },
            Ok(None) => {
                t.lit(" names an unknown instrument");
                assert(t@ =~= written("record "@) + file::seq_words(seq) + written(
                    " names an unknown instrument"@,
                ));
                Err(t)
            },
            Ok(Some(standing)) => Ok(
                Fill {
                    seq,
                    trade,
                    position: standing.position,
                    realized: standing.realized,
                    total_realized: total_realized(standing.each.as_slice()),
                },
            ),
        }
    }

    /// A fill's row in the table of fills.
    pub open spec fn row(self, symbols: Seq<Seq<char>>) -> Seq<Glyph> {
        written(text::at_right(seq_chars(self.seq), 7)) + written("  "@) + written(
            text::at_left(symbol_at(symbols, self.trade.instrument), 10),
        ) + written(" "@) + written(text::at_left(self.trade.side.label(), 5)) + written(" "@)
            + seq![Glyph::Right(16), Glyph::Qty(self.trade.qty)] + written(" "@) + seq![
            Glyph::Right(18),
            Glyph::Px(self.trade.px),
        ] + written(" "@) + seq![Glyph::Right(14), Glyph::Money(self.trade.fee)] + written(" "@)
            + seq![Glyph::Right(16), Glyph::Qty(self.position)] + written(" "@) + seq![
            Glyph::Right(18),
            Glyph::Money(self.realized),
        ]
    }

    /// A fill's row in the table of fills.
    pub fn table_row(&self, symbols: &[String]) -> (row: Text)
        ensures
            row@ == self.row(words::views(symbols@)),
    {
        let mut t = Text::new();
        t.lit(right(seq_string(self.seq).as_str(), 7).as_str());
        t.lit("  ");
        t.lit(left(symbol_of(symbols, self.trade.instrument), 10).as_str());
        t.lit(" ");
        t.lit(left(self.trade.side.name(), 5).as_str());
        t.lit(" ");
        t.column(16);
        t.qty(self.trade.qty);
        t.lit(" ");
        t.column(18);
        t.px(self.trade.px);
        t.lit(" ");
        t.column(14);
        t.money(self.trade.fee);
        t.lit(" ");
        t.column(16);
        t.qty(self.position);
        t.lit(" ");
        t.column(18);
        t.money(self.realized);
        assert(t@ =~= self.row(words::views(symbols@)));
        t
    }

    /// A fill's row in the curve of realized profit.
    pub open spec fn point(self, symbols: Seq<Seq<char>>) -> Seq<Glyph> {
        written(text::digits(self.seq.0 as nat)) + written(","@) + written(
            symbol_at(symbols, self.trade.instrument),
        ) + written(","@) + written(self.trade.side.label()) + written(","@) + seq![
            Glyph::Qty(self.trade.qty),
        ] + written(","@) + seq![Glyph::Px(self.trade.px)] + written(","@) + seq![
            Glyph::Money(self.trade.fee),
        ] + written(","@) + seq![Glyph::Qty(self.position)] + written(","@) + seq![
            Glyph::Money(self.realized),
        ] + written(","@) + seq![Glyph::Money(self.total_realized)]
    }

    /// A fill's row in the curve of realized profit.
    pub fn curve_row(&self, symbols: &[String]) -> (row: Text)
        ensures
            row@ == self.point(words::views(symbols@)),
    {
        let mut t = Text::new();
        t.number(self.seq.raw() as u128);
        t.lit(",");
        t.lit(symbol_of(symbols, self.trade.instrument));
        t.lit(",");
        t.lit(self.trade.side.name());
        t.lit(",");
        t.qty(self.trade.qty);
        t.lit(",");
        t.px(self.trade.px);
        t.lit(",");
        t.money(self.trade.fee);
        t.lit(",");
        t.qty(self.position);
        t.lit(",");
        t.money(self.realized);
        t.lit(",");
        t.money(self.total_realized);
        assert(t@ =~= self.point(words::views(symbols@)));
        t
    }
}

/// The line that stands over the table of fills.
pub open spec fn fills_head() -> Seq<Glyph> {
    written(text::at_right("seq"@, 7)) + written("  "@) + written(text::at_left("instrument"@, 10))
        + written(" "@) + written(text::at_left("side"@, 5)) + written(" "@) + written(
        text::at_right("qty"@, 16),
    ) + written(" "@) + written(text::at_right("price"@, 18)) + written(" "@) + written(
        text::at_right("fee"@, 14),
    ) + written(" "@) + written(text::at_right("position"@, 16)) + written(" "@) + written(
        text::at_right("realized"@, 18),
    )
}

/// The table of the first `n` fills, of those that are asked for.
pub open spec fn fills_of(
    fills: Seq<Fill>,
    n: int,
    symbols: Seq<Seq<char>>,
    from: u64,
    to: u64,
) -> Seq<Seq<Glyph>>
    decreases n,
{
    if n <= 0 {
        seq![fills_head()]
    } else {
        let before = fills_of(fills, n - 1, symbols, from, to);
        let fill = fills[n - 1];
        if from <= fill.seq.0 <= to {
            before.push(fill.row(symbols))
        } else {
            before
        }
    }
}

/// The curve of the first `n` fills.
pub open spec fn curve_of(fills: Seq<Fill>, n: int, symbols: Seq<Seq<char>>) -> Seq<Seq<Glyph>>
    decreases n,
{
    if n <= 0 {
        seq![written("seq,instrument,side,qty,price,fee,position,realized,total_realized"@)]
    } else {
        curve_of(fills, n - 1, symbols).push(fills[n - 1].point(symbols))
    }
}

/// Every fill that is asked for, with the position and profit it produced.
pub fn fills_table(fills: &[Fill], symbols: &[String], from: u64, to: u64) -> (lines: Vec<Text>)
    ensures
        text::lines_of(lines@) == fills_of(
            fills@,
            fills@.len() as int,
            words::views(symbols@),
            from,
            to,
        ),
{
    let ghost w = words::views(symbols@);
    let mut t = Text::new();
    t.lit(right("seq", 7).as_str());
    t.lit("  ");
    t.lit(left("instrument", 10).as_str());
    t.lit(" ");
    t.lit(left("side", 5).as_str());
    t.lit(" ");
    t.lit(right("qty", 16).as_str());
    t.lit(" ");
    t.lit(right("price", 18).as_str());
    t.lit(" ");
    t.lit(right("fee", 14).as_str());
    t.lit(" ");
    t.lit(right("position", 16).as_str());
    t.lit(" ");
    t.lit(right("realized", 18).as_str());
    assert(t@ =~= fills_head());
    let mut lines: Vec<Text> = Vec::new();
    lines.push(t);
    assert(text::lines_of(lines@) =~= seq![fills_head()]);
    let mut i: usize = 0;
    while i < fills.len()
        invariant
            i <= fills@.len(),
            w == words::views(symbols@),
            text::lines_of(lines@) == fills_of(fills@, i as int, w, from, to),
        decreases fills@.len() - i,
    {
        let seq: u64 = fills[i].seq.raw();
        if from <= seq && seq <= to {
            let row = fills[i].table_row(symbols);
            put(&mut lines, row);
        }
        i += 1;
    }
    lines
}

/// The realized-profit curve, one row per fill.
pub fn curve(fills: &[Fill], symbols: &[String]) -> (lines: Vec<Text>)
    ensures
        text::lines_of(lines@) == curve_of(fills@, fills@.len() as int, words::views(symbols@)),
{
    let ghost w = words::views(symbols@);
    let mut lines: Vec<Text> = Vec::new();
    assert(text::lines_of(lines@) =~= Seq::empty());
    say(&mut lines, "seq,instrument,side,qty,price,fee,position,realized,total_realized");
    assert(text::lines_of(lines@) =~= curve_of(fills@, 0, w));
    let mut i: usize = 0;
    while i < fills.len()
        invariant
            i <= fills@.len(),
            w == words::views(symbols@),
            text::lines_of(lines@) == curve_of(fills@, i as int, w),
        decreases fills@.len() - i,
    {
        let row = fills[i].curve_row(symbols);
        put(&mut lines, row);
        i += 1;
    }
    lines
}

/// A number as it is written.
pub open spec fn number(n: int) -> Seq<Glyph> {
    written(text::decimal(n))
}

/// An instrument's line in the banner.
pub open spec fn entry_line(entry: InstrumentEntry, symbols: Seq<Seq<char>>) -> Seq<Glyph> {
    written("  "@) + written(text::at_right(text::digits(entry.id.0 as nat), 2)) + written("  "@)
        + written(text::at_left(symbol_at(symbols, entry.id), 10)) + written(" tick "@) + seq![
        Glyph::Px(entry.tick),
    ] + written("  lot "@) + seq![Glyph::Qty(entry.lot)] + written("  min "@) + seq![
        Glyph::Qty(entry.min_qty),
    ]
}

/// The lines of the first `n` instruments.
pub open spec fn entry_lines(
    entries: Seq<InstrumentEntry>,
    n: int,
    symbols: Seq<Seq<char>>,
) -> Seq<Seq<Glyph>>
    decreases n,
{
    if n <= 0 {
        Seq::empty()
    } else {
        entry_lines(entries, n - 1, symbols).push(entry_line(entries[n - 1], symbols))
    }
}

/// What is said of damage. A read that stopped means a partial session; bytes
/// that were lost without one mean a crash after which the session went on.
pub open spec fn damage_lines(recovery: Recovery) -> Seq<Seq<Glyph>> {
    if recovery.stopped is Some {
        seq![
            written(
                "  !! this session is cut off here — everything below is a partial session"@,
            ),
        ]
    } else if recovery.discarded_bytes > 0 {
        seq![
            written("  !! "@) + number(recovery.discarded_bytes as int) + written(
                " bytes were lost to a crash; the session continued after them"@,
            ),
        ]
    } else {
        Seq::empty()
    }
}

/// What is said of the chain of segments.
pub open spec fn chain_lines(segments: usize) -> Seq<Seq<Glyph>> {
    if segments > 1 {
        seq![
            written("  "@) + number(segments as int) + written(
                " segments — this session was continued after a crash"@,
            ),
        ]
    } else {
        Seq::empty()
    }
}

/// What is said of the exchange times that the records cover.
pub open spec fn span_line(span: Option<(i64, i64)>) -> Seq<Glyph> {
    match span {
        Some((first, last)) => written("  exchange clock "@) + number(first as int) + written(
            " .. "@,
        ) + number(last as int) + written("  ("@) + number((last - first) / 1_000_000_000)
            + written(" seconds of market)"@),
        None => written("  no event in this log carries an exchange time"@),
    }
}

/// What stands over a reading of a session.
pub open spec fn banner_of(
    header: &LogHeader,
    recovery: Recovery,
    segments: usize,
    records: Seq<Record>,
    symbols: Seq<Seq<char>>,
) -> Seq<Seq<Glyph>> {
    seq![
        written("session "@) + number(header.session_id as int) + written(" · format "@) + number(
            header.format_version as int,
        ) + written(" · "@) + recovery.words(),
    ] + damage_lines(recovery) + seq![
        written("  first order "@) + seq![Glyph::Order(header.first_order_id)],
    ] + chain_lines(segments) + seq![span_line(span_of(records, records.len() as int))]
        + entry_lines(header.instruments@, header.instruments@.len() as int, symbols) + seq![
        Seq::empty(),
    ]
}

fn put_entries(lines: &mut Vec<Text>, entries: &[InstrumentEntry], symbols: &[String])
    ensures
        text::lines_of(final(lines)@) == text::lines_of(old(lines)@) + entry_lines(
            entries@,
            entries@.len() as int,
            words::views(symbols@),
        ),
{
    let ghost w = words::views(symbols@);
    let ghost had = text::lines_of(lines@);
    let mut i: usize = 0;
    assert(had + entry_lines(entries@, 0, w) =~= had);
    while i < entries.len()
        invariant
            i <= entries@.len(),
            w == words::views(symbols@),
            text::lines_of(lines@) == had + entry_lines(entries@, i as int, w),
        decreases entries@.len() - i,
    {
        let entry = &entries[i];
        let mut t = Text::new();
        t.lit("  ");
        t.lit(right(number_string(entry.id.raw() as u128).as_str(), 2).as_str());
        t.lit("  ");
        t.lit(left(symbol_of(symbols, entry.id), 10).as_str());
        t.lit(" tick ");
        t.px(entry.tick);
        t.lit("  lot ");
        t.qty(entry.lot);
        t.lit("  min ");
        t.qty(entry.min_qty);
        assert(t@ =~= entry_line(entries@[i as int], w));
        put(lines, t);
        i += 1;
        assert(text::lines_of(lines@) =~= had + entry_lines(entries@, i as int, w));
    }
}

/// What stands over a reading of a session.
pub fn banner(
    header: &LogHeader,
    recovery: &Recovery,
    segments: usize,
    records: &[Record],
    symbols: &[String],
) -> (lines: Vec<Text>)
    ensures
        text::lines_of(lines@) == banner_of(
            header,
            *recovery,
            segments,
            records@,
            words::views(symbols@),
        ),
{
    let ghost w = words::views(symbols@);
    let mut lines: Vec<Text> = Vec::new();
    assert(text::lines_of(lines@) =~= Seq::empty());
    let mut t = Text::new();
    t.lit("session ");
    t.signed(header.session_id as i128);
    t.lit(" · format ");
    t.signed(header.format_version as i128);
    t.lit(" · ");
    t.join(&recovery.text());
    let ghost first = written("session "@) + number(header.session_id as int) + written(
        " · format "@,
    ) + number(header.format_version as int) + written(" · "@) + recovery.words();
    assert(t@ =~= first);
    put(&mut lines, t);
    if recovery.stopped.is_some() {
        say(
            &mut lines,
            "  !! this session is cut off here — everything below is a partial session",
        );
    } else if recovery.discarded_bytes > 0 {
        let mut t = Text::new();
        t.lit("  !! ");
        t.signed(recovery.discarded_bytes as i128);
        t.lit(" bytes were lost to a crash; the session continued after them");
        assert(t@ =~= damage_lines(*recovery)[0]);
        put(&mut lines, t);
    }
    assert(text::lines_of(lines@) =~= seq![first] + damage_lines(*recovery));
    let ghost before = text::lines_of(lines@);
    let mut t = Text::new();
    t.lit("  first order ");
    t.order(header.first_order_id);
    let ghost order = written("  first order "@) + seq![Glyph::Order(header.first_order_id)];
    assert(t@ =~= order);
    put(&mut lines, t);
    if segments > 1 {
        let mut t = Text::new();
        t.lit("  ");
        t.signed(segments as i128);
        t.lit(" segments — this session was continued after a crash");
        assert(t@ =~= chain_lines(segments)[0]);
        put(&mut lines, t);
    }
    assert(text::lines_of(lines@) =~= before + seq![order] + chain_lines(segments));
    let ghost before = text::lines_of(lines@);
    let covered = span(records);
    let mut t = Text::new();
    match covered {
        Some((first, last)) => {
            t.lit("  exchange clock ");
            t.signed(first as i128);
            t.lit(" .. ");
            t.signed(last as i128);
            t.lit("  (");
            t.signed((last as i128 - first as i128) / 1_000_000_000);
            t.lit(" seconds of market)");
        },
        None => t.lit("  no event in this log carries an exchange time"),
    }
    assert(t@ =~= span_line(covered));
    put(&mut lines, t);
    assert(text::lines_of(lines@) =~= before + seq![span_line(covered)]);
    put_entries(&mut lines, header.instruments.as_slice(), symbols);
    put(&mut lines, Text::new());
    assert(text::lines_of(lines@) =~= banner_of(header, *recovery, segments, records@, w));
    lines
}

/// A labelled number.
pub open spec fn counted(label: Seq<char>, n: int) -> Seq<Glyph> {
    written(label) + number(n)
}

/// A labelled amount.
pub open spec fn amounting(label: Seq<char>, amount: Notional) -> Seq<Glyph> {
    written(label) + seq![Glyph::Money(amount)]
}

fn put_count(lines: &mut Vec<Text>, label: &str, n: u64)
    ensures
        text::lines_of(final(lines)@) == text::lines_of(old(lines)@).push(
            counted(label@, n as int),
        ),
{
    let mut t = Text::new();
    t.lit(label);
    t.signed(n as i128);
    assert(t@ =~= counted(label@, n as int));
    put(lines, t);
}

fn put_amount(lines: &mut Vec<Text>, label: &str, amount: Notional)
    ensures
        text::lines_of(final(lines)@) == text::lines_of(old(lines)@).push(
            amounting(label@, amount),
        ),
{
    let mut t = Text::new();
    t.lit(label);
    t.money(amount);
    assert(t@ =~= amounting(label@, amount));
    put(lines, t);
}

/// The lines of the first `n` reasons for which the risk gate refused.
pub open spec fn refusal_lines(refusals: Seq<Refusal>, n: int) -> Seq<Seq<Glyph>>
    decreases n,
{
    if n <= 0 {
        Seq::empty()
    } else {
        refusal_lines(refusals, n - 1).push(
            written("    "@) + written(refusals[n - 1].reason.label()) + written(": "@) + number(
                refusals[n - 1].count as int,
            ),
        )
    }
}

/// What a session did.
pub open spec fn activity_lines(summary: &Summary) -> Seq<Seq<Glyph>> {
    seq![
        Seq::empty(),
        written("in total"@),
        counted("  records            "@, summary.records as int),
        counted("  inputs             "@, summary.inputs as int),
        counted("  decisions          "@, summary.decisions as int),
        counted("  orders submitted   "@, summary.orders_submitted as int),
        counted("  fills              "@, summary.fills as int),
        counted("  intents refused    "@, summary.intents_rejected as int),
    ] + refusal_lines(summary.rejections@, summary.rejections@.len() as int)
}

/// The lines of the first `n` instruments that could not be marked.
pub open spec fn unmarked_lines(
    unmarked: Seq<InstrumentId>,
    n: int,
    symbols: Seq<Seq<char>>,
) -> Seq<Seq<Glyph>>
    decreases n,
{
    if n <= 0 {
        Seq::empty()
    } else {
        unmarked_lines(unmarked, n - 1, symbols).push(
            written("                       "@) + written(symbol_at(symbols, unmarked[n - 1])),
        )
    }
}

/// What a session is worth.
pub open spec fn worth_lines(summary: &Summary, symbols: Seq<Seq<char>>) -> Seq<Seq<Glyph>> {
    let v = summary.valuation;
    seq![
        amounting("  realized           "@, summary.realized),
        amounting("  unrealized         "@, v.unrealized),
        amounting("  fees               "@, summary.fees),
        amounting("  TOTAL              "@, v.total),
        written("  marked at          "@) + written(v.rule@),
    ] + (if v.complete {
        Seq::empty()
    } else {
        seq![written("  !! INCOMPLETE      no mark for:"@)] + unmarked_lines(
            v.unmarked@,
            v.unmarked@.len() as int,
            symbols,
        ) + seq![written("                     the total above excludes those positions"@)]
    }) + seq![amounting("  max drawdown       "@, summary.max_drawdown)]
}

/// What is said of the book. A reset after data has flowed means that the
/// decisions before it were made against a wrong book.
pub open spec fn book_lines(summary: &Summary) -> Seq<Seq<Glyph>> {
    (if summary.book_resets > 0 {
        seq![counted("  book resets        "@, summary.book_resets as int)]
    } else {
        Seq::empty()
    }) + (if summary.book_resyncs > 0 {
        seq![
            written("  !! BOOK RESYNCS    "@) + number(summary.book_resyncs as int) + written(
                " — the venue caught a wrong book that many times"@,
            ),
        ]
    } else {
        Seq::empty()
    })
}

/// Nanoseconds in an hour: beyond any feed problem.
pub const AN_HOUR: i64 = 3_600_000_000_000;

/// Nanoseconds in a day.
pub const A_DAY: i64 = 86_400_000_000_000;

/// What is said of how stale the data was. Stamps more than an hour apart did
/// not come from the session that recorded them, and an event from before its
/// stamp makes a lie of every other figure.
pub open spec fn lag_lines(lag: Option<Lag>) -> Seq<Seq<Glyph>> {
    match lag {
        None => seq![written("  feed lag           no market events to measure"@)],
        Some(lag) => seq![
            written("  feed lag           p50 "@) + written(millis_of(lag.p50 as int)) + written(
                "  p90 "@,
            ) + written(millis_of(lag.p90 as int)) + written("  p99 "@) + written(
                millis_of(lag.p99 as int),
            ) + written("  max "@) + written(millis_of(lag.max as int)) + written("  over "@)
                + number(lag.events as int) + written(" events"@),
        ] + (if lag.p50 > AN_HOUR {
            seq![
                written("  !! NOT A LIVE FEED these stamps are "@) + number(
                    lag.p50 as int / A_DAY as int,
                ) + written(" days apart, so this"@),
                written(
                    "                     recording's market data was synthetic or replayed"@,
                ),
                written("                     and the lag above measures nothing about a feed"@),
            ]
        } else {
            Seq::empty()
        }) + (if lag.min < 0 {
            seq![
                written("  !! CLOCK SKEW      an event arrived "@) + written(
                    millis_of(-(lag.min as int)),
                ) + written(" before the venue stamped it"@),
            ]
        } else {
            Seq::empty()
        }),
    }
}

/// A position's line.
pub open spec fn holding_line(
    held: Holding,
    unrealized: Option<Notional>,
    symbols: Seq<Seq<char>>,
) -> Seq<Glyph> {
    written("  "@) + written(text::at_left(symbol_at(symbols, held.instrument), 10)) + written(
        " position "@,
    ) + seq![Glyph::Qty(held.qty)] + written("  realized "@) + seq![Glyph::Money(held.realized)] + (
    match unrealized {
        Some(u) => written("  unrealized "@) + seq![Glyph::Money(u)] + written("  total "@) + seq![
            Glyph::Money(Notional((held.realized.0 + u.0) as i128)),
        ],
        None => written("  unrealized UNKNOWN (no mark)"@),
    })
}

/// The lines of the first `n` positions, of those that are open or realized
/// anything.
pub open spec fn holding_lines(summary: &Summary, n: int, symbols: Seq<Seq<char>>) -> Seq<
    Seq<Glyph>,
>
    decreases n,
{
    if n <= 0 {
        Seq::empty()
    } else {
        let before = holding_lines(summary, n - 1, symbols);
        let held = summary.positions@[n - 1];
        if held.flat && held.realized == Notional(0) {
            before
        } else {
            before.push(
                holding_line(held, summary.valuation.unrealized_of(held.instrument), symbols),
            )
        }
    }
}

/// What a session came to.
pub open spec fn totals_of(summary: &Summary, symbols: Seq<Seq<char>>) -> Seq<Seq<Glyph>> {
    activity_lines(summary) + worth_lines(summary, symbols) + book_lines(summary) + lag_lines(
        summary.feed_lag,
    ) + seq![written("  final state        "@) + written(summary.final_state.label())]
        + holding_lines(summary, summary.positions@.len() as int, symbols)
}

fn put_activity(lines: &mut Vec<Text>, summary: &Summary)
    ensures
        text::lines_of(final(lines)@) == text::lines_of(old(lines)@) + activity_lines(summary),
{
    put(lines, Text::new());
    say(lines, "in total");
    put_count(lines, "  records            ", summary.records);
    put_count(lines, "  inputs             ", summary.inputs);
    put_count(lines, "  decisions          ", summary.decisions);
    put_count(lines, "  orders submitted   ", summary.orders_submitted);
    put_count(lines, "  fills              ", summary.fills);
    put_count(lines, "  intents refused    ", summary.intents_rejected);
    let ghost had = text::lines_of(lines@);
    let ghost refusals = summary.rejections@;
    let mut i: usize = 0;
    assert(had + refusal_lines(refusals, 0) =~= had);
    while i < summary.rejections.len()
        invariant
            i <= summary.rejections@.len(),
            refusals == summary.rejections@,
            text::lines_of(lines@) == had + refusal_lines(refusals, i as int),
        decreases summary.rejections@.len() - i,
    {
        let refusal = summary.rejections[i];
        let mut t = Text::new();
        t.lit("    ");
        t.lit(refusal.reason.name());
        t.lit(": ");
        t.signed(refusal.count as i128);
        let ghost line = written("    "@) + written(refusal.reason.label()) + written(": "@)
            + number(refusal.count as int);
        assert(t@ =~= line);
        put(lines, t);
        i += 1;
        assert(text::lines_of(lines@) =~= had + refusal_lines(refusals, i as int));
    }
    assert(text::lines_of(lines@) =~= text::lines_of(old(lines)@) + activity_lines(summary));
}

fn put_unmarked(lines: &mut Vec<Text>, unmarked: &[InstrumentId], symbols: &[String])
    ensures
        text::lines_of(final(lines)@) == text::lines_of(old(lines)@) + unmarked_lines(
            unmarked@,
            unmarked@.len() as int,
            words::views(symbols@),
        ),
{
    let ghost w = words::views(symbols@);
    let ghost had = text::lines_of(lines@);
    let mut i: usize = 0;
    assert(had + unmarked_lines(unmarked@, 0, w) =~= had);
    while i < unmarked.len()
        invariant
            i <= unmarked@.len(),
            w == words::views(symbols@),
            text::lines_of(lines@) == had + unmarked_lines(unmarked@, i as int, w),
        decreases unmarked@.len() - i,
    {
        let mut t = Text::new();
        t.lit("                       ");
        t.lit(symbol_of(symbols, unmarked[i]));
        assert(t@ =~= written("                       "@) + written(
            symbol_at(w, unmarked@[i as int]),
        ));
        put(lines, t);
        i += 1;
        assert(text::lines_of(lines@) =~= had + unmarked_lines(unmarked@, i as int, w));
    }
}

fn put_worth(lines: &mut Vec<Text>, summary: &Summary, symbols: &[String])
    ensures
        text::lines_of(final(lines)@) == text::lines_of(old(lines)@) + worth_lines(
            summary,
            words::views(symbols@),
        ),
{
    let v = &summary.valuation;
    put_amount(lines, "  realized           ", summary.realized);
    put_amount(lines, "  unrealized         ", v.unrealized);
    put_amount(lines, "  fees               ", summary.fees);
    put_amount(lines, "  TOTAL              ", v.total);
    let mut t = Text::new();
    t.lit("  marked at          ");
    t.lit(v.rule.as_str());
    assert(t@ =~= written("  marked at          "@) + written(v.rule@));
    put(lines, t);
    if !v.complete {
        say(lines, "  !! INCOMPLETE      no mark for:");
        put_unmarked(lines, v.unmarked.as_slice(), symbols);
        say(lines, "                     the total above excludes those positions");
    }
    put_amount(lines, "  max drawdown       ", summary.max_drawdown);
    assert(text::lines_of(lines@) =~= text::lines_of(old(lines)@) + worth_lines(
        summary,
        words::views(symbols@),
    ));
}

fn put_book(lines: &mut Vec<Text>, summary: &Summary)
    ensures
        text::lines_of(final(lines)@) == text::lines_of(old(lines)@) + book_lines(summary),
{
    if summary.book_resets > 0 {
        put_count(lines, "  book resets        ", summary.book_resets);
    }
    if summary.book_resyncs > 0 {
        let mut t = Text::new();
        t.lit("  !! BOOK RESYNCS    ");
        t.signed(summary.book_resyncs as i128);
        t.lit(" — the venue caught a wrong book that many times");
        assert(t@ =~= written("  !! BOOK RESYNCS    "@) + number(summary.book_resyncs as int)
            + written(" — the venue caught a wrong book that many times"@));
        put(lines, t);
    }
    assert(text::lines_of(lines@) =~= text::lines_of(old(lines)@) + book_lines(summary));
}

fn put_lag(lines: &mut Vec<Text>, lag: Option<Lag>)
    requires
        lag matches Some(l) ==> l.min > i64::MIN,
    ensures
        text::lines_of(final(lines)@) == text::lines_of(old(lines)@) + lag_lines(lag),
{
    match lag {
        None => say(lines, "  feed lag           no market events to measure"),
        Some(lag) => {
            let mut t = Text::new();
            t.lit("  feed lag           p50 ");
            t.lit(millis(lag.p50).as_str());
            t.lit("  p90 ");
            t.lit(millis(lag.p90).as_str());
            t.lit("  p99 ");
            t.lit(millis(lag.p99).as_str());
            t.lit("  max ");
            t.lit(millis(lag.max).as_str());
            t.lit("  over ");
            t.signed(lag.events as i128);
            t.lit(" events");
            assert(t@ =~= lag_lines(Some(lag))[0]);
            put(lines, t);
            if lag.p50 > AN_HOUR {
                let mut t = Text::new();
                t.lit("  !! NOT A LIVE FEED these stamps are ");
                t.signed((lag.p50 / A_DAY) as i128);
                t.lit(" days apart, so this");
                assert(t@ =~= lag_lines(Some(lag))[1]);
                put(lines, t);
                say(
                    lines,
                    "                     recording's market data was synthetic or replayed",
                );
                say(
                    lines,
                    "                     and the lag above measures nothing about a feed",
                );
            }
            if lag.min < 0 {
                let mut t = Text::new();
                t.lit("  !! CLOCK SKEW      an event arrived ");
                t.lit(millis(-lag.min).as_str());
                t.lit(" before the venue stamped it");
                assert(t@ =~= written("  !! CLOCK SKEW      an event arrived "@) + written(
                    millis_of(-(lag.min as int)),
                ) + written(" before the venue stamped it"@));
                put(lines, t);
            }
        },
    }
    assert(text::lines_of(lines@) =~= text::lines_of(old(lines)@) + lag_lines(lag));
}

fn put_holdings(lines: &mut Vec<Text>, summary: &Summary, symbols: &[String])
    requires
        summary.in_range(),
    ensures
        text::lines_of(final(lines)@) == text::lines_of(old(lines)@) + holding_lines(
            summary,
            summary.positions@.len() as int,
            words::views(symbols@),
        ),
{
    let ghost w = words::views(symbols@);
    let ghost had = text::lines_of(lines@);
    let mut i: usize = 0;
    assert(had + holding_lines(summary, 0, w) =~= had);
    while i < summary.positions.len()
        invariant
            i <= summary.positions@.len(),
            summary.in_range(),
            w == words::views(symbols@),
            text::lines_of(lines@) == had + holding_lines(summary, i as int, w),
        decreases summary.positions@.len() - i,
    {
        let held = summary.positions[i];
        if !(held.flat && held.realized == Notional::zero()) {
            let unrealized = summary.valuation.unrealized_at(held.instrument);
            let mut t = Text::new();
            t.lit("  ");
            t.lit(left(symbol_of(symbols, held.instrument), 10).as_str());
            t.lit(" position ");
            t.qty(held.qty);
            t.lit("  realized ");
            t.money(held.realized);
            match unrealized {
                Some(u) => {
                    t.lit("  unrealized ");
                    t.money(u);
                    t.lit("  total ");
                    t.money(Notional::from_scaled(held.realized.to_scaled() + u.to_scaled()));
                },
                None => t.lit("  unrealized UNKNOWN (no mark)"),
            }
            assert(t@ =~= holding_line(held, unrealized, w));
            put(lines, t);
        }
        i += 1;
        assert(text::lines_of(lines@) =~= had + holding_lines(summary, i as int, w));
    }
}

/// What a session came to. Every figure is the accounts' own: a second count
/// would be a second answer waiting to disagree with the first.
pub fn totals(summary: &Summary, symbols: &[String]) -> (lines: Vec<Text>)
    requires
        summary.in_range(),
    ensures
        text::lines_of(lines@) == totals_of(summary, words::views(symbols@)),
{
    let mut lines: Vec<Text> = Vec::new();
    assert(text::lines_of(lines@) =~= Seq::empty());
    put_activity(&mut lines, summary);
    put_worth(&mut lines, summary, symbols);
    put_book(&mut lines, summary);
    put_lag(&mut lines, summary.feed_lag);
    let mut t = Text::new();
    t.lit("  final state        ");
    t.lit(summary.final_state.name());
    assert(t@ =~= written("  final state        "@) + written(summary.final_state.label()));
    put(&mut lines, t);
    put_holdings(&mut lines, summary, symbols);
    assert(text::lines_of(lines@) =~= totals_of(summary, words::views(symbols@)));
    lines
}

/// A named value.
pub open spec fn member(key: Seq<char>, value: Seq<Glyph>) -> MemberView {
    MemberView { key, value }
}

/// What a session is, as JSON.
pub open spec fn session_members(
    header: &LogHeader,
    recovery: Recovery,
    segments: usize,
    records: Seq<Record>,
    summary: &Summary,
) -> Seq<MemberView> {
    let span = span_of(records, records.len() as int);
    seq![
        member("id"@, json::string_of(text::digits(header.session_id as nat))),
        member("format"@, json::number_of(header.format_version as int)),
        member("segments"@, json::number_of(segments as int)),
        member("records"@, json::number_of(summary.records as int)),
        member("intact"@, json::truth_of(recovery.clean())),
        member("discarded_bytes"@, json::number_of(recovery.discarded_bytes as int)),
        member(
            "first_event_nanos"@,
            json::number_of(
                match span {
                    Some((first, _)) => first as int,
                    None => 0,
                },
            ),
        ),
        member(
            "last_event_nanos"@,
            json::number_of(
                match span {
                    Some((_, last)) => last as int,
                    None => 0,
                },
            ),
        ),
    ]
}

/// What a session came to, as JSON.
pub open spec fn total_members(summary: &Summary) -> Seq<MemberView> {
    let v = summary.valuation;
    seq![
        member("orders"@, json::number_of(summary.orders_submitted as int)),
        member("cancels"@, json::number_of(summary.cancels_submitted as int)),
        member("fills"@, json::number_of(summary.fills as int)),
        member("refused"@, json::number_of(summary.intents_rejected as int)),
        member("realized"@, json::exact_of(Glyph::Money(summary.realized))),
        member("unrealized"@, json::exact_of(Glyph::Money(v.unrealized))),
        member("fees"@, json::exact_of(Glyph::Money(summary.fees))),
        member("total"@, json::exact_of(Glyph::Money(v.total))),
        member("max_drawdown"@, json::exact_of(Glyph::Money(summary.max_drawdown))),
        member("mark_rule"@, json::string_of(v.rule@)),
        member("complete"@, json::truth_of(v.complete)),
        member("state"@, json::string_of(summary.final_state.label())),
    ]
}

/// An instrument as JSON.
pub open spec fn entry_members(entry: InstrumentEntry, symbols: Seq<Seq<char>>) -> Seq<MemberView> {
    seq![
        member("id"@, json::number_of(entry.id.0 as int)),
        member("symbol"@, json::string_of(symbol_at(symbols, entry.id))),
        member("tick"@, json::exact_of(Glyph::Px(entry.tick))),
        member("lot"@, json::exact_of(Glyph::Qty(entry.lot))),
    ]
}

/// A reason for refusals as JSON.
pub open spec fn refusal_members(refusal: Refusal) -> Seq<MemberView> {
    seq![
        member("reason"@, json::string_of(refusal.reason.label())),
        member("count"@, json::number_of(refusal.count as int)),
    ]
}

/// A position as JSON.
pub open spec fn holding_members(
    held: Holding,
    valuation: Valuation,
    symbols: Seq<Seq<char>>,
) -> Seq<MemberView> {
    seq![
        member("symbol"@, json::string_of(symbol_at(symbols, held.instrument))),
        member("position"@, json::exact_of(Glyph::Qty(held.qty))),
        member("realized"@, json::exact_of(Glyph::Money(held.realized))),
        member(
            "unrealized"@,
            match valuation.unrealized_of(held.instrument) {
                Some(u) => json::exact_of(Glyph::Money(u)),
                None => written("null"@),
            },
        ),
        member(
            "mark"@,
            match valuation.mark_of(held.instrument) {
                Some(px) => json::exact_of(Glyph::Px(px)),
                None => written("null"@),
            },
        ),
    ]
}

/// A price level as JSON.
pub open spec fn level_members(level: Level) -> Seq<MemberView> {
    seq![
        member("px"@, json::exact_of(Glyph::Px(level.px))),
        member("qty"@, json::exact_of(Glyph::Qty(level.qty))),
    ]
}

/// A resting order as JSON.
pub open spec fn working_members(order: Working, px: Px) -> Seq<MemberView> {
    seq![
        member("order"@, json::exact_of(Glyph::Order(order.order))),
        member("side"@, json::string_of(order.side.label())),
        member("px"@, json::exact_of(Glyph::Px(px))),
        member("qty"@, json::exact_of(Glyph::Qty(order.remaining))),
    ]
}

/// A fill as JSON.
pub open spec fn fill_members(fill: Fill, symbols: Seq<Seq<char>>) -> Seq<MemberView> {
    seq![
        member("seq"@, json::number_of(fill.seq.0 as int)),
        member("symbol"@, json::string_of(symbol_at(symbols, fill.trade.instrument))),
        member("side"@, json::string_of(fill.trade.side.label())),
        member("qty"@, json::exact_of(Glyph::Qty(fill.trade.qty))),
        member("px"@, json::exact_of(Glyph::Px(fill.trade.px))),
        member("fee"@, json::exact_of(Glyph::Money(fill.trade.fee))),
        member("position"@, json::exact_of(Glyph::Qty(fill.position))),
        member("realized"@, json::exact_of(Glyph::Money(fill.realized))),
        member("total_realized"@, json::exact_of(Glyph::Money(fill.total_realized))),
    ]
}

/// How stale the data was, as JSON.
pub open spec fn lag_members(lag: Lag) -> Seq<MemberView> {
    seq![
        member("events"@, json::number_of(lag.events as int)),
        member("min"@, json::number_of(lag.min as int)),
        member("p50"@, json::number_of(lag.p50 as int)),
        member("p90"@, json::number_of(lag.p90 as int)),
        member("p99"@, json::number_of(lag.p99 as int)),
        member("max"@, json::number_of(lag.max as int)),
    ]
}

/// The first `n` levels as JSON.
pub open spec fn level_rows(levels: Seq<Level>, n: int) -> Seq<Seq<Glyph>>
    decreases n,
{
    if n <= 0 {
        Seq::empty()
    } else {
        level_rows(levels, n - 1).push(json::row_of(level_members(levels[n - 1])))
    }
}

/// Those of the first `n` working orders that rest in an instrument, as JSON.
pub open spec fn working_rows(orders: Seq<Working>, n: int, instrument: InstrumentId) -> Seq<
    Seq<Glyph>,
>
    decreases n,
{
    if n <= 0 {
        Seq::empty()
    } else {
        let before = working_rows(orders, n - 1, instrument);
        let order = orders[n - 1];
        match order.limit {
            Some(px) if order.instrument == instrument => before.push(
                json::row_of(working_members(order, px)),
            ),
            _ => before,
        }
    }
}

/// The levels of a book on one side.
pub open spec fn levels_of(summary: &Summary, instrument: InstrumentId, side: Side) -> Seq<Level> {
    if instrument.0 < summary.ladders@.len() {
        match side {
            Side::Buy => summary.ladders@[instrument.0 as int].bids@,
            Side::Sell => summary.ladders@[instrument.0 as int].asks@,
        }
    } else {
        Seq::empty()
    }
}

/// The book as the recording leaves it, with the session's own resting orders:
/// where they are against everyone else's.
pub open spec fn ladder_members(
    entry: InstrumentEntry,
    summary: &Summary,
    symbols: Seq<Seq<char>>,
) -> Seq<MemberView> {
    let bids = levels_of(summary, entry.id, Side::Buy);
    let asks = levels_of(summary, entry.id, Side::Sell);
    seq![
        member("symbol"@, json::string_of(symbol_at(symbols, entry.id))),
        member("bids"@, json::array_of(level_rows(bids, bids.len() as int))),
        member("asks"@, json::array_of(level_rows(asks, asks.len() as int))),
        member(
            "working"@,
            json::array_of(
                working_rows(summary.working@, summary.working@.len() as int, entry.id),
            ),
        ),
    ]
}

/// The first `n` instruments as JSON.
pub open spec fn entry_rows(
    entries: Seq<InstrumentEntry>,
    n: int,
    symbols: Seq<Seq<char>>,
) -> Seq<Seq<Glyph>>
    decreases n,
{
    if n <= 0 {
        Seq::empty()
    } else {
        entry_rows(entries, n - 1, symbols).push(
            json::row_of(entry_members(entries[n - 1], symbols)),
        )
    }
}

/// The first `n` reasons for refusals as JSON.
pub open spec fn refusal_rows(refusals: Seq<Refusal>, n: int) -> Seq<Seq<Glyph>>
    decreases n,
{
    if n <= 0 {
        Seq::empty()
    } else {
        refusal_rows(refusals, n - 1).push(json::row_of(refusal_members(refusals[n - 1])))
    }
}

/// The first `n` positions as JSON.
pub open spec fn holding_rows(
    positions: Seq<Holding>,
    n: int,
    valuation: Valuation,
    symbols: Seq<Seq<char>>,
) -> Seq<Seq<Glyph>>
    decreases n,
{
    if n <= 0 {
        Seq::empty()
    } else {
        holding_rows(positions, n - 1, valuation, symbols).push(
            json::row_of(holding_members(positions[n - 1], valuation, symbols)),
        )
    }
}

/// The books of the first `n` instruments as JSON.
pub open spec fn ladder_rows(
    entries: Seq<InstrumentEntry>,
    n: int,
    summary: &Summary,
    symbols: Seq<Seq<char>>,
) -> Seq<Seq<Glyph>>
    decreases n,
{
    if n <= 0 {
        Seq::empty()
    } else {
        ladder_rows(entries, n - 1, summary, symbols).push(
            json::row_of(ladder_members(entries[n - 1], summary, symbols)),
        )
    }
}

/// The fills from `from` up to the `n`th as JSON.
pub open spec fn fill_rows(fills: Seq<Fill>, from: int, n: int, symbols: Seq<Seq<char>>) -> Seq<
    Seq<Glyph>,
>
    decreases n - from,
{
    if n <= from {
        Seq::empty()
    } else {
        fill_rows(fills, from, n - 1, symbols).push(
            json::row_of(fill_members(fills[n - 1], symbols)),
        )
    }
}

/// How many of the fills are left out where at most `tail` are shown.
pub open spec fn omitted(fills: nat, tail: usize) -> int {
    if fills > tail {
        fills - tail
    } else {
        0
    }
}

/// The fills, where they are asked for: the most recent, and how many were left
/// out. An array that was trimmed without a word would look like a session that
/// traded less than it did.
pub open spec fn fill_parts(
    shown: Shown,
    tail: usize,
    fills: Seq<Fill>,
    symbols: Seq<Seq<char>>,
) -> Seq<Seq<Seq<Glyph>>> {
    if shown == Shown::Fills || shown == Shown::Curve {
        let left_out = omitted(fills.len(), tail);
        seq![
            seq![json::head_of("fills_omitted"@, text::decimal(left_out))],
            json::listing_of("fills"@, fill_rows(fills, left_out, fills.len() as int, symbols)),
        ]
    } else {
        Seq::empty()
    }
}

/// The parts of the whole report.
pub open spec fn report_parts(
    args: ArgsView,
    header: &LogHeader,
    recovery: Recovery,
    segments: usize,
    records: Seq<Record>,
    fills: Seq<Fill>,
    summary: &Summary,
    symbols: Seq<Seq<char>>,
) -> Seq<Seq<Seq<Glyph>>> {
    let entries = header.instruments@;
    let n = entries.len() as int;
    seq![
        json::block_of(
            "session"@,
            session_members(header, recovery, segments, records, summary),
        ),
        json::table_of("instruments"@, entry_rows(entries, n, symbols)),
        json::block_of("totals"@, total_members(summary)),
        json::table_of(
            "refusals"@,
            refusal_rows(summary.rejections@, summary.rejections@.len() as int),
        ),
        json::table_of(
            "positions"@,
            holding_rows(
                summary.positions@,
                summary.positions@.len() as int,
                summary.valuation,
                symbols,
            ),
        ),
        json::block_of(
            "book"@,
            seq![
                member("resets"@, json::number_of(summary.book_resets as int)),
                member("resyncs"@, json::number_of(summary.book_resyncs as int)),
            ],
        ),
        match summary.feed_lag {
            Some(lag) => json::block_of("feed_lag_nanos"@, lag_members(lag)),
            None => seq![json::head_of("feed_lag_nanos"@, "null"@)],
        },
        json::listing_of("ladder"@, ladder_rows(entries, n, summary, symbols)),
    ] + fill_parts(args.shown, args.tail, fills, symbols)
}

fn session_list(
    header: &LogHeader,
    recovery: &Recovery,
    segments: usize,
    records: &[Record],
    summary: &Summary,
) -> (members: Vec<Member>)
    ensures
        json::members_of(members@) == session_members(
            header,
            *recovery,
            segments,
            records@,
            summary,
        ),
{
    let (first, last): (i64, i64) = match span(records) {
        Some((first, last)) => (first, last),
        None => (0, 0),
    };
    let id = number_string(header.session_id as u128);
    let members = vec![
        Member::new("id", json::string(id.as_str())),
        Member::new("format", json::number(header.format_version as i128)),
        Member::new("segments", json::number(segments as i128)),
        Member::new("records", json::number(summary.records as i128)),
        Member::new("intact", json::truth(recovery.is_clean())),
        Member::new("discarded_bytes", json::number(recovery.discarded_bytes as i128)),
        Member::new("first_event_nanos", json::number(first as i128)),
        Member::new("last_event_nanos", json::number(last as i128)),
    ];
    assert(json::members_of(members@) =~= session_members(
        header,
        *recovery,
        segments,
        records@,
        summary,
    ));
    members
}

fn total_list(summary: &Summary) -> (members: Vec<Member>)
    ensures
        json::members_of(members@) == total_members(summary),
{
    let v = &summary.valuation;
    let members = vec![
        Member::new("orders", json::number(summary.orders_submitted as i128)),
        Member::new("cancels", json::number(summary.cancels_submitted as i128)),
        Member::new("fills", json::number(summary.fills as i128)),
        Member::new("refused", json::number(summary.intents_rejected as i128)),
        Member::new("realized", json::exact(Glyph::Money(summary.realized))),
        Member::new("unrealized", json::exact(Glyph::Money(v.unrealized))),
        Member::new("fees", json::exact(Glyph::Money(summary.fees))),
        Member::new("total", json::exact(Glyph::Money(v.total))),
        Member::new("max_drawdown", json::exact(Glyph::Money(summary.max_drawdown))),
        Member::new("mark_rule", json::string(v.rule.as_str())),
        Member::new("complete", json::truth(v.complete)),
        Member::new("state", json::string(summary.final_state.name())),
    ];
    assert(json::members_of(members@) =~= total_members(summary));
    members
}

fn lag_list(lag: Lag) -> (members: Vec<Member>)
    ensures
        json::members_of(members@) == lag_members(lag),
{
    let members = vec![
        Member::new("events", json::number(lag.events as i128)),
        Member::new("min", json::number(lag.min as i128)),
        Member::new("p50", json::number(lag.p50 as i128)),
        Member::new("p90", json::number(lag.p90 as i128)),
        Member::new("p99", json::number(lag.p99 as i128)),
        Member::new("max", json::number(lag.max as i128)),
    ];
    assert(json::members_of(members@) =~= lag_members(lag));
    members
}

fn entry_list(entries: &[InstrumentEntry], symbols: &[String]) -> (rows: Vec<Text>)
    ensures
        text::lines_of(rows@) == entry_rows(
            entries@,
            entries@.len() as int,
            words::views(symbols@),
        ),
{
    let ghost w = words::views(symbols@);
    let mut rows: Vec<Text> = Vec::new();
    let mut i: usize = 0;
    assert(text::lines_of(rows@) =~= Seq::empty());
    while i < entries.len()
        invariant
            i <= entries@.len(),
            w == words::views(symbols@),
            text::lines_of(rows@) == entry_rows(entries@, i as int, w),
        decreases entries@.len() - i,
    {
        let entry = &entries[i];
        let members = vec![
            Member::new("id", json::number(entry.id.raw() as i128)),
            Member::new("symbol", json::string(symbol_of(symbols, entry.id))),
            Member::new("tick", json::exact(Glyph::Px(entry.tick))),
            Member::new("lot", json::exact(Glyph::Qty(entry.lot))),
        ];
        assert(json::members_of(members@) =~= entry_members(entries@[i as int], w));
        put(&mut rows, json::row(members.as_slice()));
        i += 1;
    }
    rows
}

fn refusal_list(refusals: &[Refusal]) -> (rows: Vec<Text>)
    ensures
        text::lines_of(rows@) == refusal_rows(refusals@, refusals@.len() as int),
{
    let mut rows: Vec<Text> = Vec::new();
    let mut i: usize = 0;
    assert(text::lines_of(rows@) =~= Seq::empty());
    while i < refusals.len()
        invariant
            i <= refusals@.len(),
            text::lines_of(rows@) == refusal_rows(refusals@, i as int),
        decreases refusals@.len() - i,
    {
        let members = vec![
            Member::new("reason", json::string(refusals[i].reason.name())),
            Member::new("count", json::number(refusals[i].count as i128)),
        ];
        assert(json::members_of(members@) =~= refusal_members(refusals@[i as int]));
        put(&mut rows, json::row(members.as_slice()));
        i += 1;
    }
    rows
}

fn holding_list(summary: &Summary, symbols: &[String]) -> (rows: Vec<Text>)
    ensures
        text::lines_of(rows@) == holding_rows(
            summary.positions@,
            summary.positions@.len() as int,
            summary.valuation,
            words::views(symbols@),
        ),
{
    let ghost w = words::views(symbols@);
    let mut rows: Vec<Text> = Vec::new();
    let mut i: usize = 0;
    assert(text::lines_of(rows@) =~= Seq::empty());
    while i < summary.positions.len()
        invariant
            i <= summary.positions@.len(),
            w == words::views(symbols@),
            text::lines_of(rows@) == holding_rows(
                summary.positions@,
                i as int,
                summary.valuation,
                w,
            ),
        decreases summary.positions@.len() - i,
    {
        let held = summary.positions[i];
        let unrealized = match summary.valuation.unrealized_at(held.instrument) {
            Some(u) => json::exact(Glyph::Money(u)),
            None => json::null(),
        };
        let mark = match summary.valuation.mark_at(held.instrument) {
            Some(px) => json::exact(Glyph::Px(px)),
            None => json::null(),
        };
        let members = vec![
            Member::new("symbol", json::string(symbol_of(symbols, held.instrument))),
            Member::new("position", json::exact(Glyph::Qty(held.qty))),
            Member::new("realized", json::exact(Glyph::Money(held.realized))),
            Member::new("unrealized", unrealized),
            Member::new("mark", mark),
        ];
        assert(json::members_of(members@) =~= holding_members(held, summary.valuation, w));
        put(&mut rows, json::row(members.as_slice()));
        i += 1;
    }
    rows
}

fn level_list(levels: &[Level]) -> (rows: Vec<Text>)
    ensures
        text::lines_of(rows@) == level_rows(levels@, levels@.len() as int),
{
    let mut rows: Vec<Text> = Vec::new();
    let mut i: usize = 0;
    assert(text::lines_of(rows@) =~= Seq::empty());
    while i < levels.len()
        invariant
            i <= levels@.len(),
            text::lines_of(rows@) == level_rows(levels@, i as int),
        decreases levels@.len() - i,
    {
        let members = vec![
            Member::new("px", json::exact(Glyph::Px(levels[i].px))),
            Member::new("qty", json::exact(Glyph::Qty(levels[i].qty))),
        ];
        assert(json::members_of(members@) =~= level_members(levels@[i as int]));
        put(&mut rows, json::row(members.as_slice()));
        i += 1;
    }
    rows
}

fn working_list(orders: &[Working], instrument: InstrumentId) -> (rows: Vec<Text>)
    ensures
        text::lines_of(rows@) == working_rows(orders@, orders@.len() as int, instrument),
{
    let mut rows: Vec<Text> = Vec::new();
    let mut i: usize = 0;
    assert(text::lines_of(rows@) =~= Seq::empty());
    while i < orders.len()
        invariant
            i <= orders@.len(),
            text::lines_of(rows@) == working_rows(orders@, i as int, instrument),
        decreases orders@.len() - i,
    {
        let order = orders[i];
        if order.instrument == instrument {
            if let Some(px) = order.limit {
                let members = vec![
                    Member::new("order", json::exact(Glyph::Order(order.order))),
                    Member::new("side", json::string(order.side.name())),
                    Member::new("px", json::exact(Glyph::Px(px))),
                    Member::new("qty", json::exact(Glyph::Qty(order.remaining))),
                ];
                assert(json::members_of(members@) =~= working_members(order, px));
                put(&mut rows, json::row(members.as_slice()));
            }
        }
        i += 1;
    }
    rows
}

fn side_list(summary: &Summary, instrument: InstrumentId, side: Side) -> (value: Text)
    ensures
        value@ == json::array_of(
            level_rows(
                levels_of(summary, instrument, side),
                levels_of(summary, instrument, side).len() as int,
            ),
        ),
{
    let i: usize = instrument.raw() as usize;
    let rows = if i < summary.ladders.len() {
        match side {
            Side::Buy => level_list(summary.ladders[i].bids.as_slice()),
            Side::Sell => level_list(summary.ladders[i].asks.as_slice()),
        }
    } else {
        let rows: Vec<Text> = Vec::new();
        assert(text::lines_of(rows@) =~= Seq::empty());
        rows
    };
    json::array(rows.as_slice())
}

fn ladder_list(header: &LogHeader, summary: &Summary, symbols: &[String]) -> (rows: Vec<Text>)
    ensures
        text::lines_of(rows@) == ladder_rows(
            header.instruments@,
            header.instruments@.len() as int,
            summary,
            words::views(symbols@),
        ),
{
    let ghost w = words::views(symbols@);
    let mut rows: Vec<Text> = Vec::new();
    let mut i: usize = 0;
    assert(text::lines_of(rows@) =~= Seq::empty());
    while i < header.instruments.len()
        invariant
            i <= header.instruments@.len(),
            w == words::views(symbols@),
            text::lines_of(rows@) == ladder_rows(header.instruments@, i as int, summary, w),
        decreases header.instruments@.len() - i,
    {
        let id = header.instruments[i].id;
        let working = working_list(summary.working.as_slice(), id);
        let members = vec![
            Member::new("symbol", json::string(symbol_of(symbols, id))),
            Member::new("bids", side_list(summary, id, Side::Buy)),
            Member::new("asks", side_list(summary, id, Side::Sell)),
            Member::new("working", json::array(working.as_slice())),
        ];
        assert(json::members_of(members@) =~= ladder_members(
            header.instruments@[i as int],
            summary,
            w,
        ));
        put(&mut rows, json::row(members.as_slice()));
        i += 1;
    }
    rows
}

fn fill_list(fills: &[Fill], from: usize, symbols: &[String]) -> (rows: Vec<Text>)
    requires
        from <= fills@.len(),
    ensures
        text::lines_of(rows@) == fill_rows(
            fills@,
            from as int,
            fills@.len() as int,
            words::views(symbols@),
        ),
{
    let ghost w = words::views(symbols@);
    let mut rows: Vec<Text> = Vec::new();
    let mut i: usize = from;
    assert(text::lines_of(rows@) =~= Seq::empty());
    while i < fills.len()
        invariant
            from <= i <= fills@.len(),
            w == words::views(symbols@),
            text::lines_of(rows@) == fill_rows(fills@, from as int, i as int, w),
        decreases fills@.len() - i,
    {
        let fill = fills[i];
        let members = vec![
            Member::new("seq", json::number(fill.seq.raw() as i128)),
            Member::new("symbol", json::string(symbol_of(symbols, fill.trade.instrument))),
            Member::new("side", json::string(fill.trade.side.name())),
            Member::new("qty", json::exact(Glyph::Qty(fill.trade.qty))),
            Member::new("px", json::exact(Glyph::Px(fill.trade.px))),
            Member::new("fee", json::exact(Glyph::Money(fill.trade.fee))),
            Member::new("position", json::exact(Glyph::Qty(fill.position))),
            Member::new("realized", json::exact(Glyph::Money(fill.realized))),
            Member::new("total_realized", json::exact(Glyph::Money(fill.total_realized))),
        ];
        assert(json::members_of(members@) =~= fill_members(fill, w));
        put(&mut rows, json::row(members.as_slice()));
        i += 1;
    }
    rows
}

/// Appends a part.
fn part(parts: &mut Vec<Vec<Text>>, part: Vec<Text>)
    requires
        part@.len() > 0,
        forall|i: int| 0 <= i < old(parts)@.len() ==> (#[trigger] old(parts)@[i])@.len() > 0,
    ensures
        json::parts_view(final(parts)@) == json::parts_view(old(parts)@).push(
            text::lines_of(part@),
        ),
        forall|i: int| 0 <= i < final(parts)@.len() ==> (#[trigger] final(parts)@[i])@.len() > 0,
{
    parts.push(part);
    assert(json::parts_view(parts@) =~= json::parts_view(old(parts)@).push(text::lines_of(part@)));
}

/// A part of one line.
fn one(head: Text) -> (part: Vec<Text>)
    ensures
        text::lines_of(part@) == seq![head@],
        part@.len() == 1,
{
    let part = vec![head];
    assert(text::lines_of(part@) =~= seq![head@]);
    part
}

/// The whole report as one JSON object.
pub fn report_json(
    args: &Args,
    header: &LogHeader,
    recovery: &Recovery,
    segments: usize,
    records: &[Record],
    fills: &[Fill],
    summary: &Summary,
    symbols: &[String],
) -> (lines: Vec<Text>)
    ensures
        text::lines_of(lines@) == json::document_of(
            report_parts(
                args@,
                header,
                *recovery,
                segments,
                records@,
                fills@,
                summary,
                words::views(symbols@),
            ),
        ),
{
    let ghost w = words::views(symbols@);
    let mut parts: Vec<Vec<Text>> = Vec::new();
    assert(json::parts_view(parts@) =~= Seq::empty());
    let session = session_list(header, recovery, segments, records, summary);
    part(&mut parts, json::block("session", session.as_slice()));
    let entries = entry_list(header.instruments.as_slice(), symbols);
    part(&mut parts, json::table("instruments", entries.as_slice()));
    let totals = total_list(summary);
    part(&mut parts, json::block("totals", totals.as_slice()));
    let refusals = refusal_list(summary.rejections.as_slice());
    part(&mut parts, json::table("refusals", refusals.as_slice()));
    let positions = holding_list(summary, symbols);
    part(&mut parts, json::table("positions", positions.as_slice()));
    let book = vec![
        Member::new("resets", json::number(summary.book_resets as i128)),
        Member::new("resyncs", json::number(summary.book_resyncs as i128)),
    ];
    assert(json::members_of(book@) =~= seq![
        member("resets"@, json::number_of(summary.book_resets as int)),
        member("resyncs"@, json::number_of(summary.book_resyncs as int)),
    ]);
    part(&mut parts, json::block("book", book.as_slice()));
    match summary.feed_lag {
        Some(lag) => {
            let members = lag_list(lag);
            part(&mut parts, json::block("feed_lag_nanos", members.as_slice()));
        },
        None => part(&mut parts, one(json::head("feed_lag_nanos", "null"))),
    }
    let ladder = ladder_list(header, summary, symbols);
    part(&mut parts, json::listing("ladder", ladder.as_slice()));
    if matches!(args.shown, Shown::Fills | Shown::Curve) {
        let left_out: usize = if fills.len() > args.tail {
            fills.len() - args.tail
        } else {
            0
        };
        let count = int_string(left_out as i128);
        part(&mut parts, one(json::head("fills_omitted", count.as_str())));
        let rows = fill_list(fills, left_out, symbols);
        part(&mut parts, json::listing("fills", rows.as_slice()));
    }
    assert(json::parts_view(parts@) =~= report_parts(
        args@,
        header,
        *recovery,
        segments,
        records@,
        fills@,
        summary,
        w,
    ));
    json::document(parts)
}

} // verus!
