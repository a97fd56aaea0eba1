//! A live feed: market data arriving as it happens, on a real clock.
//!
//! One event per line. Blank lines and lines starting with `#` are ignored.
//!
//! ```text
//! Q <symbol> <exchange_nanos> <bid_px> <bid_qty> <ask_px> <ask_qty>
//! T <symbol> <exchange_nanos> <px> <qty> <B|S>
//! L <symbol> <exchange_nanos> <B|S> <px> <qty>
//! A <symbol> <exchange_nanos>
//! R <symbol> <exchange_nanos>
//! ```
//!
//! Prices and quantities are decimals, read exactly. A malformed line ends the
//! session: a feed producing garbage is a feed to stop on.
use vstd::prelude::*;

use crate::event::{Command, CommandEvent, Inbound, MarketEvent, MarketKind};
use crate::text;
use crate::text::{debug_string, number_string};
use crate::timer;
use crate::timer::{fire, TimerQueue, TimerRequest};
use crate::value::{ExchangeTime, InstrumentId, MonotonicTime, Px, Qty, ReceiveTime, Side};
use crate::words;
use crate::words::{fields, lower_case, parse_i64, same, trim};

verus! {

/// A clock a test drives by hand: it only moves when told. It is a plain value, so a
/// copy goes its own way; holders that are to see one time share one clock.
#[derive(Debug, Clone, Copy, PartialEq, Eq, Structural)]
pub struct ManualClock {
    pub nanos: i64,
}

impl Default for ManualClock {
    /// A clock stopped at zero.
    fn default() -> (clock: ManualClock)
        ensures
            clock.nanos == 0,
    {
        ManualClock { nanos: 0 }
    }
}

impl ManualClock {
    /// A clock stopped at `nanos`.
    pub fn at(nanos: i64) -> (clock: ManualClock)
        ensures
            clock.nanos == nanos,
    {
        ManualClock { nanos }
    }

    /// Moves it forward. Past the last instant it goes round.
    pub fn advance(&mut self, nanos: i64)
        ensures
            final(self).nanos == old(self).nanos.wrapping_add(nanos),
            i64::MIN <= old(self).nanos + nanos <= i64::MAX ==> final(self).nanos
                == old(self).nanos + nanos,
    {
        self.nanos = self.nanos.wrapping_add(nanos);
    }

    /// What it shows as a wall clock.
    pub fn receive_time(&self) -> (at: ReceiveTime)
        ensures
            at == ReceiveTime(self.nanos),
    {
        ReceiveTime::from_nanos(self.nanos)
    }

    /// What it shows as a monotonic clock: the same.
    pub fn monotonic(&self) -> (at: MonotonicTime)
        ensures
            at == MonotonicTime(self.nanos),
    {
        MonotonicTime::from_nanos(self.nanos)
    }
}

/// The venue's time when this process's clock shows `now`.
pub open spec fn projected(
    last_exchange: ExchangeTime,
    last_receive: ReceiveTime,
    now: ReceiveTime,
) -> ExchangeTime {
    let at = last_exchange.0 + (now.0 - last_receive.0);
    ExchangeTime(
        if i64::MIN <= at <= i64::MAX {
            at as i64
        } else {
            i64::MAX
        },
    )
}

/// Projects the venue's clock forward by locally measured elapsed time: the one
/// conversion between the two clocks. It drifts the longer the market is quiet,
/// and serves only to decide when a timer is due.
pub fn project_exchange_time(
    last_exchange: ExchangeTime,
    last_receive: ReceiveTime,
    now: ReceiveTime,
) -> (at: ExchangeTime)
    ensures
        at == projected(last_exchange, last_receive, now),
{
    let elapsed: i128 = now.to_nanos() as i128 - last_receive.to_nanos() as i128;
    let at: i128 = last_exchange.to_nanos() as i128 + elapsed;
    if at < i64::MIN as i128 || at > i64::MAX as i128 {
        ExchangeTime::from_nanos(i64::MAX)
    } else {
        ExchangeTime::from_nanos(at as i64)
    }
}

/// Why a line was refused. Lines count from one.
#[derive(Debug, Clone, PartialEq, Eq)]
pub enum FeedError {
    /// The line did not have the shape of an event.
    Malformed { line: u64, reason: &'static str },
    /// The symbol is not one this session is configured to trade.
    UnknownSymbol { line: u64, symbol: String },
    /// A price or quantity could not be read exactly: what its reader said.
    BadNumber { line: u64, error: String },
    /// The source stopped being readable.
    Source(String),
}

/// What a refusal says.
pub enum FaultView {
    Malformed { line: u64, reason: Seq<char> },
    UnknownSymbol { line: u64, symbol: Seq<char> },
    BadNumber { line: u64, error: Seq<char> },
    Source(Seq<char>),
}

impl View for FeedError {
    type V = FaultView;

    open spec fn view(&self) -> FaultView {
        match *self {
            FeedError::Malformed { line, reason } => FaultView::Malformed { line, reason: reason@ },
            FeedError::UnknownSymbol { line, symbol } => FaultView::UnknownSymbol {
                line,
                symbol: symbol@,
            },
            FeedError::BadNumber { line, error } => FaultView::BadNumber { line, error: error@ },
            FeedError::Source(e) => FaultView::Source(e@),
        }
    }
}

/// What symbol means which instrument: a short list searched in order.
#[derive(Debug, Clone)]
pub struct Symbols {
    pub entries: Vec<(String, InstrumentId)>,
}

/// The instrument of the first entry from `from` on with this symbol.
pub open spec fn symbol_lookup(
    entries: Seq<(String, InstrumentId)>,
    symbol: Seq<char>,
    from: int,
) -> Option<InstrumentId>
    decreases entries.len() - from,
{
    if from >= entries.len() {
        None
    } else if entries[from].0@ == symbol {
        Some(entries[from].1)
    } else {
        symbol_lookup(entries, symbol, from + 1)
    }
}

impl Symbols {
    /// An empty table.
    pub fn new() -> (symbols: Symbols)
        ensures
            symbols.entries@.len() == 0,
    {
        Symbols { entries: Vec::new() }
    }

    /// Maps a symbol to an instrument.
    pub fn add(&mut self, symbol: &str, instrument: InstrumentId)
        ensures
            final(self).entries@.len() == old(self).entries@.len() + 1,
            final(self).entries@.drop_last() == old(self).entries@,
            final(self).entries@.last().0@ == symbol@,
            final(self).entries@.last().1 == instrument,
    {
        self.entries.push((symbol.to_owned(), instrument));
        assert(self.entries@.drop_last() =~= old(self).entries@);
    }

    /// Looks a symbol up.
    pub fn get(&self, symbol: &str) -> (instrument: Option<InstrumentId>)
        ensures
            instrument == symbol_lookup(self.entries@, symbol@, 0),
    {
        let mut i: usize = 0;
        while i < self.entries.len()
            invariant
                i <= self.entries@.len(),
                symbol_lookup(self.entries@, symbol@, 0) == symbol_lookup(
                    self.entries@,
                    symbol@,
                    i as int,
                ),
            decreases self.entries@.len() - i,
        {
            if same(self.entries[i].0.as_str(), symbol) {
                return Some(self.entries[i].1);
            }
            i += 1;
        }
        None
    }

    /// How many symbols are mapped.
    pub fn len(&self) -> (count: usize)
        ensures
            count == self.entries@.len(),
    {
        self.entries.len()
    }

    /// Whether nothing is mapped.
    pub fn is_empty(&self) -> (empty: bool)
        ensures
            empty == (self.entries@.len() == 0),
    {
        self.entries.len() == 0
    }
}

/// What an exact reader of decimals made of each word of a line: the number in
/// parts, or what it said.
pub type Readings = Vec<Result<i64, String>>;

/// One such reading.
pub open spec fn reading(r: Result<i64, String>) -> Result<i64, Seq<char>> {
    match r {
        Ok(n) => Ok(n),
        Err(e) => Err(e@),
    }
}

pub open spec fn malformed(line: u64, reason: Seq<char>) -> FaultView {
    FaultView::Malformed { line, reason }
}

/// The number at word `i`: refused where the word is not there, or not a number.
pub open spec fn number_at(
    line: u64,
    count: int,
    readings: Seq<Result<i64, String>>,
    i: int,
    what: Seq<char>,
) -> Result<i64, FaultView> {
    if i >= count {
        Err(malformed(line, what))
    } else {
        match readings[i] {
            Ok(n) => Ok(n),
            Err(e) => Err(FaultView::BadNumber { line, error: e@ }),
        }
    }
}

/// The side at word `i`.
pub open spec fn side_at(
    line: u64,
    words: Seq<Seq<char>>,
    i: int,
    what: Seq<char>,
) -> Result<Side, FaultView> {
    if i < words.len() && words[i] == "B"@ {
        Ok(Side::Buy)
    } else if i < words.len() && words[i] == "S"@ {
        Ok(Side::Sell)
    } else {
        Err(malformed(line, what))
    }
}

/// What happened, from the words behind the timestamp, and how many words the
/// event has.
pub open spec fn kind_of_words(
    line: u64,
    words: Seq<Seq<char>>,
    readings: Seq<Result<i64, String>>,
) -> Result<(MarketKind, int), FaultView> {
    let n = words.len() as int;
    if words[0] == "Q"@ {
        match number_at(line, n, readings, 3, "no bid price"@) {
            Err(e) => Err(e),
            Ok(bid_px) => match number_at(line, n, readings, 4, "no bid quantity"@) {
                Err(e) => Err(e),
                Ok(bid_qty) => match number_at(line, n, readings, 5, "no ask price"@) {
                    Err(e) => Err(e),
                    Ok(ask_px) => match number_at(line, n, readings, 6, "no ask quantity"@) {
                        Err(e) => Err(e),
                        Ok(ask_qty) => Ok(
                            (
                                MarketKind::Quote {
                                    bid_px: Px(bid_px),
                                    bid_qty: Qty(bid_qty),
                                    ask_px: Px(ask_px),
                                    ask_qty: Qty(ask_qty),
                                },
                                7,
                            ),
                        ),
                    },
                },
            },
        }
    } else if words[0] == "T"@ {
        match number_at(line, n, readings, 3, "no trade price"@) {
            Err(e) => Err(e),
            Ok(px) => match number_at(line, n, readings, 4, "no trade quantity"@) {
                Err(e) => Err(e),
                Ok(qty) => match side_at(line, words, 5, "aggressor must be B or S"@) {
                    Err(e) => Err(e),
                    Ok(aggressor) => Ok(
                        (MarketKind::Trade { px: Px(px), qty: Qty(qty), aggressor }, 6),
                    ),
                },
            },
        }
    } else if words[0] == "L"@ {
        match side_at(line, words, 3, "level side must be B or S"@) {
            Err(e) => Err(e),
            Ok(side) => match number_at(line, n, readings, 4, "no level price"@) {
                Err(e) => Err(e),
                Ok(px) => match number_at(line, n, readings, 5, "no level quantity"@) {
                    Err(e) => Err(e),
                    Ok(qty) => Ok((MarketKind::Level { side, px: Px(px), qty: Qty(qty) }, 6)),
                },
            },
        }
    } else if words[0] == "A"@ {
        Ok((MarketKind::BookApplied, 3))
    } else {
        Ok((MarketKind::BookReset, 3))
    }
}

/// Whether a word names a kind of event.
pub open spec fn names_kind(word: Seq<char>) -> bool {
    word == "Q"@ || word == "T"@ || word == "L"@ || word == "A"@ || word == "R"@
}

/// What a line of the protocol says.
pub open spec fn line_of(
    words: Seq<Seq<char>>,
    line: u64,
    symbols: Seq<(String, InstrumentId)>,
    receive_time: ReceiveTime,
    readings: Seq<Result<i64, String>>,
) -> Result<Option<MarketEvent>, FaultView> {
    if words.len() == 0 || words[0][0] == '#' {
        Ok(None)
    } else if !names_kind(words[0]) {
        Err(malformed(line, "first field must be Q or T"@))
    } else if words.len() < 2 {
        Err(malformed(line, "no symbol"@))
    } else {
        match symbol_lookup(symbols, words[1], 0) {
            None => Err(FaultView::UnknownSymbol { line, symbol: words[1] }),
            Some(instrument) => if words.len() < 3 {
                Err(malformed(line, "no exchange timestamp"@))
            } else {
                match words::int_of(words[2], true) {
                    Some(at) if i64::MIN <= at <= i64::MAX => match kind_of_words(
                        line,
                        words,
                        readings,
                    ) {
                        Err(e) => Err(e),
                        Ok((kind, count)) => if words.len() > count {
                            Err(malformed(line, "trailing fields"@))
                        } else {
                            Ok(
                                Some(
                                    MarketEvent {
                                        instrument,
                                        exchange_time: ExchangeTime(at as i64),
                                        receive_time,
                                        kind,
                                    },
                                ),
                            )
                        },
                    },
                    _ => Err(
                        malformed(
                            line,
                            "exchange timestamp is not an integer number of nanoseconds"@,
                        ),
                    ),
                }
            },
        }
    }
}

fn number_word(
    line: u64,
    readings: &[Result<i64, String>],
    i: usize,
    what: &'static str,
) -> (n: Result<i64, FeedError>)
    ensures
        match n {
            Ok(v) => number_at(line, readings@.len() as int, readings@, i as int, what@) == Ok::<
                i64,
                FaultView,
            >(v),
            Err(e) => number_at(line, readings@.len() as int, readings@, i as int, what@) == Err::<
                i64,
                FaultView,
            >(e@),
        },
{
    if i >= readings.len() {
        return Err(FeedError::Malformed { line, reason: what });
    }
    match &readings[i] {
        Ok(v) => Ok(*v),
        Err(error) => Err(FeedError::BadNumber { line, error: error.clone() }),
    }
}

fn side_word(line: u64, words: &[String], i: usize, what: &'static str) -> (side: Result<
    Side,
    FeedError,
>)
    ensures
        match side {
            Ok(v) => side_at(line, words::views(words@), i as int, what@) == Ok::<Side, FaultView>(
                v,
            ),
            Err(e) => side_at(line, words::views(words@), i as int, what@) == Err::<
                Side,
                FaultView,
            >(e@),
        },
{
    if i < words.len() && same(words[i].as_str(), "B") {
        Ok(Side::Buy)
    } else if i < words.len() && same(words[i].as_str(), "S") {
        Ok(Side::Sell)
    } else {
        Err(FeedError::Malformed { line, reason: what })
    }
}

fn kind_words(line: u64, words: &[String], readings: &[Result<i64, String>]) -> (kind: Result<
    (MarketKind, usize),
    FeedError,
>)
    requires
        words@.len() > 0,
        readings@.len() == words@.len(),
        names_kind(words@[0]@),
    ensures
        match kind {
            Ok((k, count)) => kind_of_words(line, words::views(words@), readings@) == Ok::<
                (MarketKind, int),
                FaultView,
            >((k, count as int)),
            Err(e) => kind_of_words(line, words::views(words@), readings@) == Err::<
                (MarketKind, int),
                FaultView,
            >(e@),
        },
{
    let kind = words[0].as_str();
    if same(kind, "Q") {
        let bid_px = Px::from_scaled(number_word(line, readings, 3, "no bid price")?);
        let bid_qty = Qty::from_scaled(number_word(line, readings, 4, "no bid quantity")?);
        let ask_px = Px::from_scaled(number_word(line, readings, 5, "no ask price")?);
        let ask_qty = Qty::from_scaled(number_word(line, readings, 6, "no ask quantity")?);
        Ok((MarketKind::Quote { bid_px, bid_qty, ask_px, ask_qty }, 7))
    } else if same(kind, "T") {
        let px = Px::from_scaled(number_word(line, readings, 3, "no trade price")?);
        let qty = Qty::from_scaled(number_word(line, readings, 4, "no trade quantity")?);
        let aggressor = side_word(line, words, 5, "aggressor must be B or S")?;
        Ok((MarketKind::Trade { px, qty, aggressor }, 6))
    } else if same(kind, "L") {
        let side = side_word(line, words, 3, "level side must be B or S")?;
        let px = Px::from_scaled(number_word(line, readings, 4, "no level price")?);
        // Zero is not missing: it is how a venue removes a level.
        let qty = Qty::from_scaled(number_word(line, readings, 5, "no level quantity")?);
        Ok((MarketKind::Level { side, px, qty }, 6))
    } else if same(kind, "A") {
        Ok((MarketKind::BookApplied, 3))
    } else {
        Ok((MarketKind::BookReset, 3))
    }
}

/// Reads one line of the protocol.
///
/// `Ok(None)` for a blank line or a comment. The receive timestamp is supplied,
/// so the caller decides which clock stamped it; and so are the `readings` of
/// the line's words, as [`fields`] gives them, by an exact reader of decimals.
pub fn parse_line(
    line: &str,
    number: u64,
    symbols: &Symbols,
    receive_time: ReceiveTime,
    readings: &[Result<i64, String>],
) -> (event: Result<Option<MarketEvent>, FeedError>)
    requires
        readings@.len() == words::fields_of(line@).len(),
    ensures
        match event {
            Ok(e) => line_of(
                words::fields_of(line@),
                number,
                symbols.entries@,
                receive_time,
                readings@,
            ) == Ok::<Option<MarketEvent>, FaultView>(e),
            Err(e) => line_of(
                words::fields_of(line@),
                number,
                symbols.entries@,
                receive_time,
                readings@,
            ) == Err::<Option<MarketEvent>, FaultView>(e@),
        },
{
    let words = fields(line);
    assert(words::views(words@).len() == words@.len());
    if words.len() == 0 {
        return Ok(None);
    }
    proof {
        words::fields_are_not_empty(line@);
        assert(words::views(words@)[0] == words@[0]@);
    }
    if words[0].as_str().get_char(0) == '#' {
        return Ok(None);
    }
    let kind = words[0].as_str();
    // Checked before the symbol on purpose: a line that is not an event at all
    // is diagnosed as that.
    if !(same(kind, "Q") || same(kind, "T") || same(kind, "L") || same(kind, "A") || same(
        kind,
        "R",
    )) {
        return Err(FeedError::Malformed { line: number, reason: "first field must be Q or T" });
    }
    if words.len() < 2 {
        return Err(FeedError::Malformed { line: number, reason: "no symbol" });
    }
    assert(words::views(words@)[1] == words@[1]@);
    let instrument = match symbols.get(words[1].as_str()) {
        Some(instrument) => instrument,
        None => {
            return Err(FeedError::UnknownSymbol { line: number, symbol: words[1].clone() });
        },
    };
    if words.len() < 3 {
        return Err(FeedError::Malformed { line: number, reason: "no exchange timestamp" });
    }
    assert(words::views(words@)[2] == words@[2]@);
    let exchange_nanos: i64 = match parse_i64(words[2].as_str()) {
        Some(at) => at,
        None => {
            return Err(
                FeedError::Malformed {
                    line: number,
                    reason: "exchange timestamp is not an integer number of nanoseconds",
                },
            );
        },
    };
    let (kind, count) = kind_words(number, words.as_slice(), readings)?;
    if words.len() > count {
        return Err(FeedError::Malformed { line: number, reason: "trailing fields" });
    }
    Ok(
        Some(
            MarketEvent {
                instrument,
                exchange_time: ExchangeTime::from_nanos(exchange_nanos),
                receive_time,
                kind,
            },
        ),
    )
}

impl FaultView {
    /// The refusal in words.
    pub open spec fn words(self) -> Seq<char> {
        match self {
            FaultView::Malformed { line, reason } => "line "@ + text::digits(line as nat) + ": "@
                + reason,
            FaultView::UnknownSymbol { line, symbol } => "line "@ + text::digits(line as nat)
                + ": unknown symbol "@ + text::quoted_by_debug(symbol),
            FaultView::BadNumber { line, error } => "line "@ + text::digits(line as nat) + ": "@
                + error,
            FaultView::Source(e) => "the feed source failed: "@ + e,
        }
    }
}

impl FeedError {
    /// The refusal in words.
    pub fn text(&self) -> (words: String)
        ensures
            words@ == self@.words(),
    {
        let mut t = String::new();
        match self {
            FeedError::Malformed { line, reason } => {
                t.append("line ");
                t.append(number_string(*line as u128).as_str());
                t.append(": ");
                t.append(reason);
            },
            FeedError::UnknownSymbol { line, symbol } => {
                t.append("line ");
                t.append(number_string(*line as u128).as_str());
                t.append(": unknown symbol ");
                t.append(debug_string(symbol.as_str()).as_str());
            },
            FeedError::BadNumber { line, error } => {
                t.append("line ");
                t.append(number_string(*line as u128).as_str());
                t.append(": ");
                t.append(error.as_str());
            },
            FeedError::Source(e) => {
                t.append("the feed source failed: ");
                t.append(e.as_str());
            },
        }
        assert(t@ =~= self@.words());
        t
    }
}

/// What a line of the control channel says.
#[derive(Debug, Clone, PartialEq, Eq)]
pub enum ControlWord {
    /// A command.
    Command(Command),
    /// Nothing.
    Blank,
    /// Something else, in lower case.
    Unknown(String),
}

/// Characters with their Latin letters in lower case.
pub open spec fn lowered(s: Seq<char>) -> Seq<char> {
    Seq::new(s.len(), |i: int| words::lower(s[i]))
}

/// Reads an operator command: one word on a line, in whatever case.
pub fn command_of(line: &str) -> (word: ControlWord)
    ensures
        ({
            let said = lowered(words::trimmed(line@));
            if said == "halt"@ {
                word == ControlWord::Command(Command::Halt)
            } else if said == "resume"@ {
                word == ControlWord::Command(Command::Resume)
            } else if said == "kill"@ {
                word == ControlWord::Command(Command::Kill)
            } else if said == "flatten"@ {
                word == ControlWord::Command(Command::Flatten)
            } else if said.len() == 0 {
                word == ControlWord::Blank
            } else {
                word matches ControlWord::Unknown(other) && other@ == said
            }
        }),
{
    let said = lower_case(trim(line).as_str());
    assert(said@ =~= lowered(words::trimmed(line@)));
    let word = said.as_str();
    if same(word, "halt") {
        ControlWord::Command(Command::Halt)
    } else if same(word, "resume") {
        ControlWord::Command(Command::Resume)
    } else if same(word, "kill") {
        ControlWord::Command(Command::Kill)
    } else if same(word, "flatten") {
        ControlWord::Command(Command::Flatten)
    } else if word.is_empty() {
        ControlWord::Blank
    } else {
        ControlWord::Unknown(said)
    }
}

/// What a feed does next.
#[derive(Debug, Clone, Copy, PartialEq, Eq, Structural)]
pub enum Poll {
    /// Hand this over.
    Deliver(Inbound),
    /// Wait a little for market data, then say what came.
    Wait,
    /// The session is over.
    Ended,
}

/// What came, its text as characters.
pub enum ArrivalView {
    Event(MarketEvent),
    Fault(FaultView),
    Nothing,
    Closed,
}

impl View for Arrival {
    type V = ArrivalView;

    open spec fn view(&self) -> ArrivalView {
        match *self {
            Arrival::Event(e) => ArrivalView::Event(e),
            Arrival::Fault(e) => ArrivalView::Fault(e@),
            Arrival::Nothing => ArrivalView::Nothing,
            Arrival::Closed => ArrivalView::Closed,
        }
    }
}

/// What came while a feed waited for market data.
#[derive(Debug, Clone, PartialEq, Eq)]
pub enum Arrival {
    /// An event.
    Event(MarketEvent),
    /// A line that could not be read, or a source that failed.
    Fault(FeedError),
    /// Nothing yet.
    Nothing,
    /// Nothing any more: the source has ended.
    Closed,
}

/// Market data as it arrives, merged with operator commands and timers.
#[derive(Debug)]
pub struct LiveFeed {
    timers: TimerQueue,
    last_seen: Option<(ExchangeTime, ReceiveTime)>,
    ended: bool,
    error: Option<FeedError>,
    market_events: u64,
    commands_seen: u64,
}

/// Where a live feed is.
#[verifier::ext_equal]
pub struct LiveView {
    /// In the order they fire.
    pub timers: Seq<TimerRequest>,
    /// The most recent market event's clocks.
    pub last_seen: Option<(ExchangeTime, ReceiveTime)>,
    pub ended: bool,
    /// Why it ended, where that was because of a problem.
    pub error: Option<FaultView>,
    pub market_events: u64,
    pub commands_seen: u64,
}

impl View for LiveFeed {
    type V = LiveView;

    closed spec fn view(&self) -> LiveView {
        LiveView {
            timers: self.timers@,
            last_seen: self.last_seen,
            ended: self.ended,
            error: match self.error {
                Some(e) => Some(e@),
                None => None,
            },
            market_events: self.market_events,
            commands_seen: self.commands_seen,
        }
    }
}

/// The venue's time as far as a feed can tell, once market data has anchored it.
pub open spec fn venue_time(
    last_seen: Option<(ExchangeTime, ReceiveTime)>,
    now: ReceiveTime,
) -> Option<ExchangeTime> {
    match last_seen {
        Some((exchange, receive)) => Some(projected(exchange, receive, now)),
        None => None,
    }
}

impl LiveView {
    /// Whether the earliest timer is due. Before any market data there is nothing
    /// to project from, so a timer cannot be shown to be due.
    pub open spec fn timer_due(self, now: ReceiveTime) -> bool {
        &&& self.timers.len() > 0
        &&& venue_time(self.last_seen, now) matches Some(at)
        &&& self.timers[0].at.0 <= at.0
    }

    /// What a feed does next, and where that leaves it: a command that waits
    /// comes first, then a timer that is due, then market data.
    pub open spec fn polled(self, command: Option<Command>, now: ReceiveTime) -> (LiveView, Poll) {
        if self.ended {
            (self, Poll::Ended)
        } else {
            match command {
                Some(c) => (
                    LiveView {
                        ended: c == Command::Kill,
                        commands_seen: (self.commands_seen + 1) as u64,
                        ..self
                    },
                    Poll::Deliver(
                        Inbound::Command(CommandEvent { command: c, receive_time: now }),
                    ),
                ),
                None => if self.timer_due(now) {
                    (
                        LiveView { timers: self.timers.drop_first(), ..self },
                        Poll::Deliver(Inbound::Timer(timer::firing(self.timers[0], now))),
                    )
                } else {
                    (self, Poll::Wait)
                },
            }
        }
    }

    /// What becomes of a feed that waited, and what it does.
    pub open spec fn reached(self, arrival: ArrivalView) -> (LiveView, Poll) {
        match arrival {
            ArrivalView::Event(e) => (
                LiveView {
                    last_seen: Some((e.exchange_time, e.receive_time)),
                    market_events: (self.market_events + 1) as u64,
                    ..self
                },
                Poll::Deliver(Inbound::Market(e)),
            ),
            ArrivalView::Fault(e) => (
                LiveView { ended: true, error: Some(e), ..self },
                Poll::Ended,
            ),
            ArrivalView::Nothing => (self, Poll::Wait),
            ArrivalView::Closed => (LiveView { ended: true, ..self }, Poll::Ended),
        }
    }
}

impl LiveFeed {
    /// That the timers stand in the order they fire.
    pub closed spec fn well_formed(self) -> bool {
        self.timers.well_formed()
    }

    /// A feed of which nothing was read yet.
    pub fn new() -> (feed: LiveFeed)
        ensures
            feed.well_formed(),
            feed@ == (LiveView {
                timers: Seq::empty(),
                last_seen: None,
                ended: false,
                error: None,
                market_events: 0,
                commands_seen: 0,
            }),
    {
        LiveFeed {
            timers: TimerQueue::new(),
            last_seen: None,
            ended: false,
            error: None,
            market_events: 0,
            commands_seen: 0,
        }
    }

    /// Whether the session is over.
    pub fn has_ended(&self) -> (ended: bool)
        ensures
            ended == self@.ended,
    {
        self.ended
    }

    /// Why the feed stopped, if it stopped because of a problem.
    pub fn error(&self) -> (error: Option<&FeedError>)
        ensures
            match error {
                Some(e) => self@.error == Some(e@),
                None => self@.error is None,
            },
    {
        self.error.as_ref()
    }

    /// Market events delivered.
    pub fn market_events(&self) -> (count: u64)
        ensures
            count == self@.market_events,
    {
        self.market_events
    }

    /// Operator commands delivered.
    pub fn commands_seen(&self) -> (count: u64)
        ensures
            count == self@.commands_seen,
    {
        self.commands_seen
    }

    /// Timers waiting to fire.
    pub fn pending_timers(&self) -> (count: usize)
        ensures
            count == self@.timers.len(),
    {
        self.timers.len()
    }

    /// The earliest timer, taken off, if the venue's clock has reached it.
    fn take_due(&mut self, now: ReceiveTime) -> (due: Option<TimerRequest>)
        requires
            old(self).well_formed(),
        ensures
            final(self).well_formed(),
            if old(self)@.timer_due(now) {
                &&& due == Some(old(self)@.timers[0])
                &&& timer::is_earliest(old(self)@.timers, old(self)@.timers[0])
                &&& final(self)@ == (LiveView {
                    timers: old(self)@.timers.drop_first(),
                    ..old(self)@
                })
            } else {
                due is None && final(self)@ == old(self)@
            },
    {
        match self.last_seen {
            None => None,
            Some((exchange, receive)) => {
                let at = project_exchange_time(exchange, receive, now);
                self.timers.take_due_by(at)
            },
        }
    }

    /// What to do next: a command that waits comes first, then the earliest
    /// timer, if it is due, then market data. A kill is the last thing delivered.
    pub fn poll(&mut self, command: Option<Command>, now: ReceiveTime) -> (next: Poll)
        requires
            old(self).well_formed(),
            old(self)@.commands_seen < u64::MAX,
        ensures
            final(self).well_formed(),
            (final(self)@, next) == old(self)@.polled(command, now),
            next matches Poll::Deliver(Inbound::Timer(_)) ==> timer::is_earliest(
                old(self)@.timers,
                old(self)@.timers[0],
            ),
    {
        if self.ended {
            return Poll::Ended;
        }
        if let Some(c) = command {
            self.commands_seen = self.commands_seen + 1;
            if matches!(c, Command::Kill) {
                self.ended = true;
            }
            return Poll::Deliver(Inbound::Command(CommandEvent { command: c, receive_time: now }));
        }
        match self.take_due(now) {
            Some(due) => Poll::Deliver(Inbound::Timer(fire(due, now))),
            None => Poll::Wait,
        }
    }

    /// What a wait for market data brought. A line that cannot be read, or the
    /// end of the source, ends the session; nothing means to look again for a
    /// command or a timer. A feed that has ended waits for nothing.
    pub fn arrived(&mut self, arrival: Arrival) -> (next: Poll)
        requires
            old(self).well_formed(),
            !old(self)@.ended,
            old(self)@.market_events < u64::MAX,
        ensures
            final(self).well_formed(),
            (final(self)@, next) == old(self)@.reached(arrival@),
    {
        match arrival {
            Arrival::Event(event) => {
                self.last_seen = Some((event.exchange_time, event.receive_time));
                self.market_events = self.market_events + 1;
                Poll::Deliver(Inbound::Market(event))
            },
            Arrival::Fault(e) => {
                self.error = Some(e);
                self.ended = true;
                Poll::Ended
            },
            Arrival::Nothing => Poll::Wait,
            Arrival::Closed => {
                self.ended = true;
                Poll::Ended
            },
        }
    }

    /// Schedules a timer a strategy asked for.
    pub fn schedule_timer(&mut self, request: TimerRequest)
        requires
            old(self).well_formed(),
        ensures
            final(self).well_formed(),
            final(self)@ == (LiveView {
                timers: timer::with_timer(old(self)@.timers, request),
                ..old(self)@
            }),
    {
        self.timers.schedule(request);
    }
}

/// One round of asking a feed for its next event: the command that waits, where
/// one does, what the clock shows, and what a wait for market data would bring.
pub struct Round {
    pub command: Option<Command>,
    pub now: ReceiveTime,
    pub arrival: ArrivalView,
}

impl LiveView {
    /// Where a round leaves a feed, and what it gives.
    pub open spec fn after_round(self, round: Round) -> (LiveView, Poll) {
        let (next, poll) = self.polled(round.command, round.now);
        if poll == Poll::Wait {
            next.reached(round.arrival)
        } else {
            (next, poll)
        }
    }

    /// Where several rounds leave a feed.
    pub open spec fn after_rounds(self, rounds: Seq<Round>) -> LiveView
        decreases rounds.len(),
    {
        if rounds.len() == 0 {
            self
        } else {
            self.after_rounds(rounds.drop_last()).after_round(rounds.last()).0
        }
    }
}

/// An operator's command goes before all else: it is what the round gives, stamped
/// with what the clock shows, whichever timers are due and whatever the market
/// would bring, and nothing but the count of commands moves. Only a kill ends the
/// session.
pub proof fn command_comes_first(feed: LiveView, command: Command, round: Round)
    requires
        !feed.ended,
        round.command == Some(command),
    ensures
        feed.after_round(round).1 == Poll::Deliver(
            Inbound::Command(CommandEvent { command, receive_time: round.now }),
        ),
        feed.after_round(round).0 == (LiveView {
            commands_seen: (feed.commands_seen + 1) as u64,
            ended: command == Command::Kill,
            ..feed
        }),
{
}

/// Once ended, a feed stays ended: after a round that ended it, or that delivered
/// a kill, however many rounds follow, each gives the end again, and no count, no
/// timer and no reason changes.
pub proof fn ended_stays_ended(feed: LiveView, last: Round, rounds: Seq<Round>, more: Round)
    requires
        ({
            let given = feed.after_round(last).1;
            given == Poll::Ended || (given matches Poll::Deliver(Inbound::Command(c)) && c.command
                == Command::Kill)
        }),
    ensures
        ({
            let end = feed.after_round(last).0;
            &&& end.ended
            &&& end.after_rounds(rounds) == end
            &&& end.after_rounds(rounds).after_round(more) == (end, Poll::Ended)
        }),
    decreases rounds.len(),
{
    if rounds.len() > 0 {
        ended_stays_ended(feed, last, rounds.drop_last(), more);
    }
}

/// A quiet market projects the venue's clock by exactly the time that passed
/// here, as far as there is a timestamp for it.
pub proof fn projection_keeps_pace(
    exchange: ExchangeTime,
    receive: ReceiveTime,
    now: ReceiveTime,
)
    ensures
        projected(exchange, receive, receive) == exchange,
        i64::MIN <= exchange.0 + (now.0 - receive.0) <= i64::MAX ==> projected(
            exchange,
            receive,
            now,
        ).0 - exchange.0 == now.0 - receive.0,
        exchange.0 + (now.0 - receive.0) > i64::MAX ==> projected(exchange, receive, now).0
            == i64::MAX,
{
}

/// The monotonic time that so many nanoseconds since its origin stand for: the
/// last instant that can be told where they are beyond that.
pub fn elapsed_time(since_origin: u128) -> (at: MonotonicTime)
    ensures
        at == MonotonicTime(
            if since_origin > i64::MAX {
                i64::MAX
            } else {
                since_origin as i64
            },
        ),
{
    MonotonicTime::from_nanos(
        if since_origin > i64::MAX as u128 {
            i64::MAX
        } else {
            since_origin as i64
        },
    )
}

/// The receive time that a wall clock stands for, from the nanoseconds since the
/// epoch: zero where the clock is before it, and the last instant that can be
/// told where it is beyond that.
pub fn wall_time(since_epoch: Option<u128>) -> (at: ReceiveTime)
    ensures
        at == ReceiveTime(
            match since_epoch {
                None => 0,
                Some(nanos) => if nanos > i64::MAX {
                    i64::MAX
                } else {
                    nanos as i64
                },
            },
        ),
{
    match since_epoch {
        None => ReceiveTime::from_nanos(0),
        Some(nanos) => ReceiveTime::from_nanos(
            if nanos > i64::MAX as u128 {
                i64::MAX
            } else {
                nanos as i64
            },
        ),
    }
}

} // verus!
