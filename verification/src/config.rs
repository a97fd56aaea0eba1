//! What a session trades, under what limits, with which strategies.
//!
//! A config holds one directive to a line. Blank lines and `#` comments are
//! ignored. After the directive and its subject come named `key value` pairs, so
//! order does not matter and a missing one is caught by name:
//!
//! ```text
//! instrument BTCUSD  tick 0.1  lot 0.00000001  min 0.0001
//! limits BTCUSD  max-position 5  max-exposure 500000  max-order-notional 100000  max-orders 60  rate-window 60s  max-quote-age 30s
//! strategy crossover BTCUSD  window 20  size 0.01
//! strategy quote BTCUSD  half-spread 0.5  size 0.01  max-inventory 1
//! ```
//!
//! Decimals are read, and conventions and limits judged, by the caller: what it
//! found goes in as an [`Outside`] for each line.
//!
//! Two rules fail closed. Every instrument needs limits: one with none could not
//! be traded. And ids come from declaration order, which is what ties a config
//! to a recording.
use vstd::prelude::*;

use crate::text;
use crate::text::{debug_string, glue, number_string, said};
use crate::value::{ExchangeSpan, Instrument, InstrumentId, Notional, Px, Qty};
use crate::words;
use crate::words::{end_of, fields, parse_u32, same, string_of};

verus! {

/// Why a config could not be read.
#[derive(Debug, Clone, PartialEq, Eq)]
pub struct ConfigError {
    /// Which line, counting from one. Zero for a whole-file problem.
    pub line: u64,
    /// What was wrong, in words someone can act on.
    pub message: String,
}

/// A [`ConfigError`] with its message as characters.
pub struct Fault {
    pub line: u64,
    pub message: Seq<char>,
}

impl View for ConfigError {
    type V = Fault;

    open spec fn view(&self) -> Fault {
        Fault { line: self.line, message: self.message@ }
    }
}

impl ConfigError {
    /// What is printed of the error.
    pub fn text(&self) -> (text: String)
        ensures
            text@ == if self.line == 0 {
                self.message@
            } else {
                "line "@ + text::digits(self.line as nat) + ": "@ + self.message@
            },
    {
        if self.line == 0 {
            said(self.message.as_str())
        } else {
            let line = number_string(self.line as u128);
            glue(
                glue(glue("line ", line.as_str()).as_str(), ": ").as_str(),
                self.message.as_str(),
            )
        }
    }
}

/// When a bar closes.
#[derive(Debug, Clone, Copy, PartialEq, Eq, Hash, Structural)]
pub enum BarSpec {
    /// After a number of trades.
    Tick { threshold: u32 },
}

/// Bounds on one instrument.
#[derive(Debug, Clone, Copy, PartialEq, Eq, Hash, Structural)]
pub struct Limits {
    pub max_position: Qty,
    pub max_exposure: Notional,
    pub max_order_notional: Notional,
    pub max_orders_in_window: u32,
    pub rate_window: ExchangeSpan,
    pub max_quote_age: ExchangeSpan,
}

/// A strategy and its settings. What means nothing to a strategy has no place in
/// its settings.
#[derive(Debug, Clone, Copy, PartialEq, Eq, Hash, Structural)]
pub enum StrategyKind {
    Crossover {
        /// Bars to average over.
        window: usize,
        /// The position magnitude it holds while a signal is on.
        size: Qty,
        /// Trades per bar.
        bars: BarSpec,
    },
    Quote {
        /// How far from the middle it quotes.
        half_spread: Px,
        /// How much it quotes on each side.
        size: Qty,
        /// How far the market moves before it quotes anew.
        reprice: Px,
        /// The position beyond which it quotes one side only.
        max_inventory: Qty,
    },
}

/// What the caller found about one line: what an exact reader of decimals reads
/// in each of its words, what it reads in each with the unit taken off, and
/// whether the conventions or limits that the line declares are usable.
#[derive(Debug)]
pub struct Outside {
    pub whole: Vec<Result<i64, String>>,
    pub stems: Vec<Result<i64, String>>,
    pub verdict: Result<(), String>,
}

/// What one line declares.
#[derive(Debug, Clone)]
pub enum Directive {
    Instrument { symbol: String, tick: Px, lot: Qty, min: Qty },
    Limits { symbol: String, limits: Limits },
    Strategy { symbol: String, kind: StrategyKind },
}

/// A [`Directive`] with its symbol as characters.
pub enum DirectiveView {
    Instrument { symbol: Seq<char>, tick: Px, lot: Qty, min: Qty },
    Limits { symbol: Seq<char>, limits: Limits },
    Strategy { symbol: Seq<char>, kind: StrategyKind },
}

impl View for Directive {
    type V = DirectiveView;

    open spec fn view(&self) -> DirectiveView {
        match *self {
            Directive::Instrument { symbol, tick, lot, min } => DirectiveView::Instrument {
                symbol: symbol@,
                tick,
                lot,
                min,
            },
            Directive::Limits { symbol, limits } => DirectiveView::Limits {
                symbol: symbol@,
                limits,
            },
            Directive::Strategy { symbol, kind } => DirectiveView::Strategy {
                symbol: symbol@,
                kind,
            },
        }
    }
}

/// Whether a result is the one a model gives.
pub open spec fn agrees<T>(result: Result<T, String>, model: Result<T, Seq<char>>) -> bool {
    match result {
        Ok(value) => model == Ok::<T, Seq<char>>(value),
        Err(message) => model == Err::<T, Seq<char>>(message@),
    }
}

/// The lines of a text.
pub open spec fn lines_of(s: Seq<char>) -> Seq<Seq<char>>
    decreases s.len(),
{
    if s.len() == 0 {
        Seq::empty()
    } else {
        let n = words::before(s, '\n');
        if n < s.len() {
            seq![s.take(n as int)] + lines_of(s.skip(n as int + 1))
        } else {
            seq![s]
        }
    }
}

/// The words of a line up to its comment.
pub open spec fn content_of(line: Seq<char>) -> Seq<Seq<char>> {
    words::fields_of(line.take(words::before(line, '#') as int))
}

/// The lines of a text.
pub fn lines(text: &str) -> (lines: Vec<String>)
    ensures
        words::views(lines@) == lines_of(text@),
{
    let chars = text::chars_of(text);
    let mut lines: Vec<String> = Vec::new();
    let mut at: usize = 0;
    assert(chars@.skip(0) =~= chars@);
    assert(words::views(lines@) + lines_of(chars@) =~= lines_of(chars@));
    while at < chars.len()
        invariant
            at <= chars@.len(),
            chars@ == text@,
            words::views(lines@) + lines_of(chars@.skip(at as int)) == lines_of(text@),
        decreases chars@.len() - at,
    {
        let ghost rest = chars@.skip(at as int);
        let ghost held = words::views(lines@);
        let end: usize = end_of(chars.as_slice(), at, '\n');
        let line = string_of(chars.as_slice(), at, end);
        lines.push(line);
        assert(words::views(lines@) =~= held.push(line@));
        assert(rest.take(end - at) =~= chars@.subrange(at as int, end as int));
        if end < chars.len() {
            assert(rest.skip(end - at + 1) =~= chars@.skip(end + 1));
            assert(held + (seq![line@] + lines_of(chars@.skip(end + 1))) =~= words::views(lines@)
                + lines_of(chars@.skip(end + 1)));
            at = end + 1;
        } else {
            assert(rest.take(end - at) =~= rest);
            assert(chars@.skip(end as int) =~= Seq::empty());
            assert(held + seq![line@] =~= words::views(lines@) + lines_of(
                chars@.skip(end as int),
            ));
            at = end;
        }
    }
    assert(chars@.skip(at as int) =~= Seq::empty());
    assert(words::views(lines@) + lines_of(chars@.skip(at as int)) =~= words::views(lines@));
    lines
}

/// The words of a line up to its comment. A blank line has none.
pub fn content(line: &str) -> (content: Vec<String>)
    ensures
        words::views(content@) == content_of(line@),
        content@.len() < usize::MAX,
{
    let chars = text::chars_of(line);
    assert(chars@.skip(0) =~= chars@);
    let end: usize = end_of(chars.as_slice(), 0, '#');
    let kept = string_of(chars.as_slice(), 0, end);
    assert(kept@ =~= line@.take(words::before(line@, '#') as int));
    let content = fields(kept.as_str());
    proof {
        words::fields_are_few(kept@);
        assert(content@.len() == words::views(content@).len());
    }
    content
}

/// What settings a directive takes.
#[derive(Debug, Clone, Copy, PartialEq, Eq, Structural)]
pub enum Section {
    Instrument,
    Limits,
    Crossover,
    Quote,
}

impl Section {
    /// The settings that must be there, in the order they are asked for.
    pub open spec fn needs(self) -> Seq<Seq<char>> {
        match self {
            Section::Instrument => seq!["tick"@, "lot"@, "min"@],
            Section::Limits => seq![
                "max-position"@,
                "max-exposure"@,
                "max-order-notional"@,
                "max-orders"@,
                "rate-window"@,
                "max-quote-age"@,
            ],
            Section::Crossover => seq!["window"@, "size"@],
            Section::Quote => seq!["half-spread"@, "size"@, "max-inventory"@],
        }
    }

    /// Whether a setting is one of the section's.
    pub open spec fn takes(self, key: Seq<char>) -> bool {
        ||| self.needs().contains(key)
        ||| self == Section::Crossover && key == "bars"@
        ||| self == Section::Quote && key == "reprice"@
    }

    /// How the settings that must be there are listed in a message.
    pub open spec fn listed(self) -> Seq<char> {
        match self {
            Section::Instrument => "[\"tick\", \"lot\", \"min\"]"@,
            Section::Limits =>
                "[\"max-position\", \"max-exposure\", \"max-order-notional\", \"max-orders\", \"rate-window\", \"max-quote-age\"]"@,
            Section::Crossover => "[\"window\", \"size\"]"@,
            Section::Quote => "[\"half-spread\", \"size\", \"max-inventory\"]"@,
        }
    }

    fn required(self) -> (keys: Vec<&'static str>)
        ensures
            keys@.len() == self.needs().len(),
            forall|i: int| 0 <= i < keys@.len() ==> (#[trigger] keys@[i])@ == self.needs()[i],
    {
        match self {
            Section::Instrument => vec!["tick", "lot", "min"],
            Section::Limits => vec![
                "max-position",
                "max-exposure",
                "max-order-notional",
                "max-orders",
                "rate-window",
                "max-quote-age",
            ],
            Section::Crossover => vec!["window", "size"],
            Section::Quote => vec!["half-spread", "size", "max-inventory"],
        }
    }

    fn allows(self, key: &str) -> (yes: bool)
        ensures
            yes == self.takes(key@),
    {
        let keys = self.required();
        let mut i: usize = 0;
        while i < keys.len()
            invariant
                i <= keys@.len() == self.needs().len(),
                forall|k: int| 0 <= k < keys@.len() ==> (#[trigger] keys@[k])@ == self.needs()[k],
                forall|k: int| 0 <= k < i ==> #[trigger] self.needs()[k] != key@,
            decreases keys@.len() - i,
        {
            if same(keys[i], key) {
                assert(self.needs()[i as int] == key@);
                return true;
            }
            i += 1;
        }
        match self {
            Section::Crossover => same(key, "bars"),
            Section::Quote => same(key, "reprice"),
            _ => false,
        }
    }

    fn list(self) -> (list: &'static str)
        ensures
            list@ == self.listed(),
    {
        match self {
            Section::Instrument => "[\"tick\", \"lot\", \"min\"]",
            Section::Limits =>
                "[\"max-position\", \"max-exposure\", \"max-order-notional\", \"max-orders\", \"rate-window\", \"max-quote-age\"]",
            Section::Crossover => "[\"window\", \"size\"]",
            Section::Quote => "[\"half-spread\", \"size\", \"max-inventory\"]",
        }
    }
}

/// Whether `key` is given between the words `from` and `upto`.
pub open spec fn given(words: Seq<Seq<char>>, from: int, upto: int, key: Seq<char>) -> bool
    decreases upto + 1 - from,
{
    if from >= upto {
        false
    } else {
        words[from] == key || given(words, from + 2, upto, key)
    }
}

/// What is wrong with the pairs from the word `at` on, where they start at
/// `from`: a setting without a value, or one given twice.
pub open spec fn pairs_fault(words: Seq<Seq<char>>, from: int, at: int) -> Option<Seq<char>>
    decreases words.len() + 1 - at,
{
    if at >= words.len() {
        None
    } else if at + 1 >= words.len() {
        Some(text::quoted_by_debug(words[at]) + " has no value after it"@)
    } else if given(words, from, at, words[at]) {
        Some(text::quoted_by_debug(words[at]) + " is given twice"@)
    } else {
        pairs_fault(words, from, at + 2)
    }
}

/// Where the value of a setting stands.
pub open spec fn value_at(words: Seq<Seq<char>>, from: int, key: Seq<char>) -> Option<int>
    decreases words.len() - from,
{
    if from + 1 >= words.len() {
        None
    } else if words[from] == key {
        Some(from + 1)
    } else {
        value_at(words, from + 2, key)
    }
}

/// What is wrong with a setting that the section does not take. A misspelled
/// limit that is dropped would be a limit that is not enforced.
pub open spec fn stray_fault(words: Seq<Seq<char>>, at: int, section: Section) -> Option<Seq<char>>
    decreases words.len() + 1 - at,
{
    if at >= words.len() {
        None
    } else if !section.takes(words[at]) {
        Some(
            text::quoted_by_debug(words[at]) + " is not a setting here; expected one of "@
                + section.listed(),
        )
    } else {
        stray_fault(words, at + 2, section)
    }
}

/// What is wrong where a setting from the `k`th on that must be there is not.
pub open spec fn missing_fault(
    words: Seq<Seq<char>>,
    from: int,
    section: Section,
    k: int,
) -> Option<Seq<char>>
    decreases section.needs().len() - k,
{
    if k >= section.needs().len() {
        None
    } else if value_at(words, from, section.needs()[k]) is None {
        Some("missing "@ + text::quoted_by_debug(section.needs()[k]))
    } else {
        missing_fault(words, from, section, k + 1)
    }
}

/// What is wrong with the settings that start at the word `from`.
pub open spec fn settings_fault(
    words: Seq<Seq<char>>,
    from: int,
    section: Section,
) -> Option<Seq<char>> {
    match pairs_fault(words, from, from) {
        Some(message) => Some(message),
        None => match stray_fault(words, from, section) {
            Some(message) => Some(message),
            None => missing_fault(words, from, section, 0),
        },
    }
}

/// Whether a message is the one a model gives, if any.
pub open spec fn tells(said: Option<String>, model: Option<Seq<char>>) -> bool {
    match said {
        Some(message) => model == Some(message@),
        None => model is None,
    }
}

fn is_given(words: &[String], from: usize, upto: usize) -> (yes: bool)
    requires
        from <= upto < words@.len(),
        words@.len() < usize::MAX,
    ensures
        yes == given(words::views(words@), from as int, upto as int, words@[upto as int]@),
{
    let mut i: usize = from;
    let ghost w = words::views(words@);
    while i < upto
        invariant
            upto < words@.len() < usize::MAX,
            w == words::views(words@),
            i <= upto + 1,
            given(w, from as int, upto as int, words@[upto as int]@) == given(
                w,
                i as int,
                upto as int,
                words@[upto as int]@,
            ),
        decreases upto + 2 - i,
    {
        assert(w[i as int] == words@[i as int]@);
        if same(words[i].as_str(), words[upto].as_str()) {
            return true;
        }
        i += 2;
    }
    false
}

fn check_pairs(words: &[String], from: usize) -> (said: Option<String>)
    requires
        from <= words@.len() < usize::MAX,
    ensures
        tells(said, pairs_fault(words::views(words@), from as int, from as int)),
{
    let mut at: usize = from;
    let ghost w = words::views(words@);
    while at < words.len()
        invariant
            words@.len() < usize::MAX,
            w == words::views(words@),
            from <= at <= words@.len() + 1,
            pairs_fault(w, from as int, from as int) == pairs_fault(w, from as int, at as int),
        decreases words@.len() + 1 - at,
    {
        assert(w[at as int] == words@[at as int]@);
        if at + 1 >= words.len() {
            let key = debug_string(words[at].as_str());
            return Some(glue(key.as_str(), " has no value after it"));
        }
        if is_given(words, from, at) {
            let key = debug_string(words[at].as_str());
            return Some(glue(key.as_str(), " is given twice"));
        }
        at += 2;
    }
    None
}

fn find_value(words: &[String], from: usize, key: &str) -> (at: Option<usize>)
    requires
        words@.len() < usize::MAX,
        from <= words@.len(),
    ensures
        match value_at(words::views(words@), from as int, key@) {
            Some(i) => at matches Some(k) && k == i && i < words@.len(),
            None => at is None,
        },
{
    let mut at: usize = from;
    let ghost w = words::views(words@);
    while at < words.len() && at + 1 < words.len()
        invariant
            words@.len() < usize::MAX,
            w == words::views(words@),
            at <= words@.len() + 1,
            value_at(w, from as int, key@) == value_at(w, at as int, key@),
        decreases words@.len() + 1 - at,
    {
        assert(w[at as int] == words@[at as int]@);
        if same(words[at].as_str(), key) {
            return Some(at + 1);
        }
        at += 2;
    }
    None
}

fn check_strays(words: &[String], from: usize, section: Section) -> (said: Option<String>)
    requires
        from <= words@.len() < usize::MAX,
    ensures
        tells(said, stray_fault(words::views(words@), from as int, section)),
{
    let mut at: usize = from;
    let ghost w = words::views(words@);
    while at < words.len()
        invariant
            words@.len() < usize::MAX,
            w == words::views(words@),
            at <= words@.len() + 1,
            stray_fault(w, from as int, section) == stray_fault(w, at as int, section),
        decreases words@.len() + 1 - at,
    {
        assert(w[at as int] == words@[at as int]@);
        if !section.allows(words[at].as_str()) {
            let key = debug_string(words[at].as_str());
            let said = glue(key.as_str(), " is not a setting here; expected one of ");
            return Some(glue(said.as_str(), section.list()));
        }
        at += 2;
    }
    None
}

/// Every expected setting is there, and nothing unexpected is. Unknown settings
/// come first: naming what was written beats telling what is missing.
fn check_settings(words: &[String], from: usize, section: Section) -> (said: Option<String>)
    requires
        from <= words@.len() < usize::MAX,
    ensures
        tells(said, settings_fault(words::views(words@), from as int, section)),
{
    if let Some(message) = check_pairs(words, from) {
        return Some(message);
    }
    if let Some(message) = check_strays(words, from, section) {
        return Some(message);
    }
    let keys = section.required();
    let mut k: usize = 0;
    let ghost w = words::views(words@);
    while k < keys.len()
        invariant
            from <= words@.len() < usize::MAX,
            w == words::views(words@),
            pairs_fault(w, from as int, from as int) is None,
            stray_fault(w, from as int, section) is None,
            k <= keys@.len() == section.needs().len(),
            forall|i: int| 0 <= i < keys@.len() ==> (#[trigger] keys@[i])@ == section.needs()[i],
            missing_fault(w, from as int, section, 0) == missing_fault(
                w,
                from as int,
                section,
                k as int,
            ),
        decreases keys@.len() - k,
    {
        if find_value(words, from, keys[k]).is_none() {
            let key = debug_string(keys[k]);
            return Some(glue("missing ", key.as_str()));
        }
        k += 1;
    }
    None
}

/// A fault about the value of a setting.
pub open spec fn about(key: Seq<char>, word: Seq<char>, fault: Seq<char>) -> Seq<char> {
    key + " "@ + text::quoted_by_debug(word) + fault
}

fn value_fault(key: &str, word: &str, fault: &str) -> (said: String)
    ensures
        said@ == about(key@, word@, fault@),
{
    let quoted = debug_string(word);
    glue(glue(glue(key, " ").as_str(), quoted.as_str()).as_str(), fault)
}

/// The decimal a setting holds.
pub open spec fn decimal_of(
    words: Seq<Seq<char>>,
    from: int,
    key: Seq<char>,
    whole: Seq<Result<i64, String>>,
) -> Result<i64, Seq<char>> {
    match value_at(words, from, key) {
        None => Err("missing "@ + text::quoted_by_debug(key)),
        Some(i) => match whole[i] {
            Ok(scaled) => Ok(scaled),
            Err(e) => Err(about(key, words[i], ": "@ + e@)),
        },
    }
}

/// The whole number a setting holds.
pub open spec fn count_of(words: Seq<Seq<char>>, from: int, key: Seq<char>) -> Result<
    u32,
    Seq<char>,
> {
    match value_at(words, from, key) {
        None => Err("missing "@ + text::quoted_by_debug(key)),
        Some(i) => match words::int_of(words[i], false) {
            Some(n) if n <= u32::MAX => Ok(n as u32),
            _ => Err(about(key, words[i], " is not a whole number"@)),
        },
    }
}

/// How long the unit of a duration is: that of `30s` or of `500ms`.
pub open spec fn unit_of(word: Seq<char>) -> Option<int> {
    let n = word.len() as int;
    if n >= 1 && word[n - 1] == 's' {
        if n >= 2 && word[n - 2] == 'm' {
            Some(2)
        } else {
            Some(1)
        }
    } else {
        None
    }
}

/// The duration a setting holds. A decimal counts billionths, so seconds are
/// nanoseconds already and milliseconds are scaled down.
pub open spec fn span_of(
    words: Seq<Seq<char>>,
    from: int,
    key: Seq<char>,
    stems: Seq<Result<i64, String>>,
) -> Result<ExchangeSpan, Seq<char>> {
    match value_at(words, from, key) {
        None => Err("missing "@ + text::quoted_by_debug(key)),
        Some(i) => match unit_of(words[i]) {
            None => Err(about(key, words[i], " needs a unit: 30s or 500ms"@)),
            Some(unit) => match stems[i] {
                Err(e) => Err(about(key, words[i], ": "@ + e@)),
                Ok(scaled) => if scaled <= 0 {
                    Err(key + " must be positive"@)
                } else if unit == 1 {
                    Ok(ExchangeSpan(scaled as i128))
                } else {
                    Ok(ExchangeSpan((scaled as int / 1_000) as i128))
                },
            },
        },
    }
}

fn unit_len(word: &str) -> (unit: Option<usize>)
    ensures
        match unit_of(word@) {
            Some(n) => unit == Some(n as usize) && n <= word@.len(),
            None => unit is None,
        },
{
    let chars = text::chars_of(word);
    let n: usize = chars.len();
    if n >= 1 && chars[n - 1] == 's' {
        if n >= 2 && chars[n - 2] == 'm' {
            Some(2)
        } else {
            Some(1)
        }
    } else {
        None
    }
}

/// A word without the unit of a duration, where it has one.
pub fn stem(word: &str) -> (stem: String)
    ensures
        stem@ == match unit_of(word@) {
            Some(n) => word@.take(word@.len() - n),
            None => word@,
        },
{
    let chars = text::chars_of(word);
    let unit: usize = match unit_len(word) {
        Some(n) => n,
        None => 0,
    };
    assert(word@.take(word@.len() as int) =~= word@);
    let stem = string_of(chars.as_slice(), 0, chars.len() - unit);
    assert(stem@ =~= word@.take(word@.len() - unit));
    stem
}

fn decimal(words: &[String], from: usize, key: &str, whole: &[Result<i64, String>]) -> (d: Result<
    i64,
    String,
>)
    requires
        from <= words@.len() < usize::MAX,
        whole@.len() == words@.len(),
    ensures
        agrees(d, decimal_of(words::views(words@), from as int, key@, whole@)),
{
    match find_value(words, from, key) {
        None => Err(glue("missing ", debug_string(key).as_str())),
        Some(i) => match &whole[i] {
            Ok(scaled) => Ok(*scaled),
            Err(e) => {
                let fault = glue(": ", e.as_str());
                assert(words::views(words@)[i as int] == words@[i as int]@);
                Err(value_fault(key, words[i].as_str(), fault.as_str()))
            },
        },
    }
}

fn count(words: &[String], from: usize, key: &str) -> (n: Result<u32, String>)
    requires
        from <= words@.len() < usize::MAX,
    ensures
        agrees(n, count_of(words::views(words@), from as int, key@)),
{
    match find_value(words, from, key) {
        None => Err(glue("missing ", debug_string(key).as_str())),
        Some(i) => {
            assert(words::views(words@)[i as int] == words@[i as int]@);
            match parse_u32(words[i].as_str()) {
                Some(n) => Ok(n),
                None => Err(value_fault(key, words[i].as_str(), " is not a whole number")),
            }
        },
    }
}

fn span(words: &[String], from: usize, key: &str, stems: &[Result<i64, String>]) -> (s: Result<
    ExchangeSpan,
    String,
>)
    requires
        from <= words@.len() < usize::MAX,
        stems@.len() == words@.len(),
    ensures
        agrees(s, span_of(words::views(words@), from as int, key@, stems@)),
{
    match find_value(words, from, key) {
        None => Err(glue("missing ", debug_string(key).as_str())),
        Some(i) => {
            assert(words::views(words@)[i as int] == words@[i as int]@);
            match unit_len(words[i].as_str()) {
                None => Err(value_fault(key, words[i].as_str(), " needs a unit: 30s or 500ms")),
                Some(unit) => match &stems[i] {
                    Err(e) => {
                        let fault = glue(": ", e.as_str());
                        Err(value_fault(key, words[i].as_str(), fault.as_str()))
                    },
                    Ok(scaled) => {
                        if *scaled <= 0 {
                            Err(glue(key, " must be positive"))
                        } else if unit == 1 {
                            Ok(ExchangeSpan::from_nanos(*scaled as i128))
                        } else {
                            Ok(ExchangeSpan::from_nanos((*scaled / 1_000) as i128))
                        }
                    },
                },
            }
        },
    }
}

/// A crossover's settings, from the word `from` on.
pub open spec fn crossover_of(
    words: Seq<Seq<char>>,
    from: int,
    whole: Seq<Result<i64, String>>,
) -> Result<StrategyKind, Seq<char>> {
    match count_of(words, from, "window"@) {
        Err(e) => Err(e),
        Ok(window) => if window == 0 {
            Err("window must be at least one bar"@)
        } else {
            match decimal_of(words, from, "size"@, whole) {
                Err(e) => Err(e),
                Ok(size) => if size <= 0 {
                    Err("size must be positive"@)
                } else {
                    let bars: Result<u32, Seq<char>> = if value_at(words, from, "bars"@) is None {
                        Ok(1)
                    } else {
                        count_of(words, from, "bars"@)
                    };
                    match bars {
                        Err(e) => Err(e),
                        Ok(threshold) => Ok(
                            StrategyKind::Crossover {
                                window: window as usize,
                                size: Qty(size),
                                bars: BarSpec::Tick { threshold },
                            },
                        ),
                    }
                },
            }
        },
    }
}

/// A quoter's settings, from the word `from` on. A quote is worth moving once the
/// market has drifted as far as the edge it was to earn, so `reprice` is the
/// half-spread where it is not given.
pub open spec fn quote_of(
    words: Seq<Seq<char>>,
    from: int,
    whole: Seq<Result<i64, String>>,
) -> Result<StrategyKind, Seq<char>> {
    match decimal_of(words, from, "half-spread"@, whole) {
        Err(e) => Err(e),
        Ok(half_spread) => if half_spread <= 0 {
            Err("half-spread must be positive, or the quotes would cross"@)
        } else {
            match decimal_of(words, from, "size"@, whole) {
                Err(e) => Err(e),
                Ok(size) => if size <= 0 {
                    Err("size must be positive"@)
                } else {
                    let reprice: Result<i64, Seq<char>> = if value_at(
                        words,
                        from,
                        "reprice"@,
                    ) is None {
                        Ok(half_spread)
                    } else {
                        decimal_of(words, from, "reprice"@, whole)
                    };
                    match reprice {
                        Err(e) => Err(e),
                        Ok(reprice) => match decimal_of(words, from, "max-inventory"@, whole) {
                            Err(e) => Err(e),
                            Ok(max_inventory) => Ok(
                                StrategyKind::Quote {
                                    half_spread: Px(half_spread),
                                    size: Qty(size),
                                    reprice: Px(reprice),
                                    max_inventory: Qty(max_inventory),
                                },
                            ),
                        },
                    }
                },
            }
        },
    }
}

/// An instrument's limits, from the word `from` on.
pub open spec fn limits_of(
    words: Seq<Seq<char>>,
    from: int,
    whole: Seq<Result<i64, String>>,
    stems: Seq<Result<i64, String>>,
) -> Result<Limits, Seq<char>> {
    match decimal_of(words, from, "max-position"@, whole) {
        Err(e) => Err(e),
        Ok(position) => match decimal_of(words, from, "max-exposure"@, whole) {
            Err(e) => Err(e),
            Ok(exposure) => match decimal_of(words, from, "max-order-notional"@, whole) {
                Err(e) => Err(e),
                Ok(order) => match count_of(words, from, "max-orders"@) {
                    Err(e) => Err(e),
                    Ok(orders) => match span_of(words, from, "rate-window"@, stems) {
                        Err(e) => Err(e),
                        Ok(window) => match span_of(words, from, "max-quote-age"@, stems) {
                            Err(e) => Err(e),
                            Ok(age) => Ok(
                                Limits {
                                    max_position: Qty(position),
                                    max_exposure: Notional(exposure as i128),
                                    max_order_notional: Notional(order as i128),
                                    max_orders_in_window: orders,
                                    rate_window: window,
                                    max_quote_age: age,
                                },
                            ),
                        },
                    },
                },
            },
        },
    }
}

/// What an `instrument` line declares.
pub open spec fn instrument_line(words: Seq<Seq<char>>, whole: Seq<Result<i64, String>>) -> Result<
    DirectiveView,
    Seq<char>,
> {
    if words.len() < 2 {
        Err("expected a symbol"@)
    } else {
        match settings_fault(words, 2, Section::Instrument) {
            Some(e) => Err(e),
            None => match decimal_of(words, 2, "tick"@, whole) {
                Err(e) => Err(e),
                Ok(tick) => match decimal_of(words, 2, "lot"@, whole) {
                    Err(e) => Err(e),
                    Ok(lot) => match decimal_of(words, 2, "min"@, whole) {
                        Err(e) => Err(e),
                        Ok(min) => Ok(
                            DirectiveView::Instrument {
                                symbol: words[1],
                                tick: Px(tick),
                                lot: Qty(lot),
                                min: Qty(min),
                            },
                        ),
                    },
                },
            },
        }
    }
}

/// What a `limits` line declares.
pub open spec fn limits_line(
    words: Seq<Seq<char>>,
    whole: Seq<Result<i64, String>>,
    stems: Seq<Result<i64, String>>,
) -> Result<DirectiveView, Seq<char>> {
    if words.len() < 2 {
        Err("expected a symbol"@)
    } else {
        match settings_fault(words, 2, Section::Limits) {
            Some(e) => Err(e),
            None => match limits_of(words, 2, whole, stems) {
                Err(e) => Err(e),
                Ok(limits) => Ok(DirectiveView::Limits { symbol: words[1], limits }),
            },
        }
    }
}

/// What a `strategy` line declares.
pub open spec fn strategy_line(words: Seq<Seq<char>>, whole: Seq<Result<i64, String>>) -> Result<
    DirectiveView,
    Seq<char>,
> {
    if words.len() < 2 {
        Err("expected a strategy name"@)
    } else if words[1] != "crossover"@ && words[1] != "quote"@ {
        Err(
            text::quoted_by_debug(words[1])
                + " is not a strategy this build knows; try crossover or quote"@,
        )
    } else if words.len() < 3 {
        Err("expected a symbol"@)
    } else {
        let section = if words[1] == "crossover"@ {
            Section::Crossover
        } else {
            Section::Quote
        };
        match settings_fault(words, 3, section) {
            Some(e) => Err(e),
            None => {
                let kind = if words[1] == "crossover"@ {
                    crossover_of(words, 3, whole)
                } else {
                    quote_of(words, 3, whole)
                };
                match kind {
                    Err(e) => Err(e),
                    Ok(kind) => Ok(DirectiveView::Strategy { symbol: words[2], kind }),
                }
            },
        }
    }
}

/// What a line of at least one word declares.
pub open spec fn directive_of(
    words: Seq<Seq<char>>,
    whole: Seq<Result<i64, String>>,
    stems: Seq<Result<i64, String>>,
) -> Result<DirectiveView, Seq<char>> {
    if words[0] == "instrument"@ {
        instrument_line(words, whole)
    } else if words[0] == "limits"@ {
        limits_line(words, whole, stems)
    } else if words[0] == "strategy"@ {
        strategy_line(words, whole)
    } else {
        Err(
            text::quoted_by_debug(words[0])
                + " is not a directive; expected instrument, limits, or strategy"@,
        )
    }
}

fn read_crossover(words: &[String], from: usize, whole: &[Result<i64, String>]) -> (kind: Result<
    StrategyKind,
    String,
>)
    requires
        from <= words@.len() < usize::MAX,
        whole@.len() == words@.len(),
    ensures
        agrees(kind, crossover_of(words::views(words@), from as int, whole@)),
{
    let window: u32 = count(words, from, "window")?;
    if window == 0 {
        return Err(said("window must be at least one bar"));
    }
    let size: i64 = decimal(words, from, "size", whole)?;
    if size <= 0 {
        return Err(said("size must be positive"));
    }
    let threshold: u32 = match find_value(words, from, "bars") {
        None => 1,
        Some(_) => count(words, from, "bars")?,
    };
    Ok(
        StrategyKind::Crossover {
            window: window as usize,
            size: Qty::from_scaled(size),
            bars: BarSpec::Tick { threshold },
        },
    )
}

fn read_quote(words: &[String], from: usize, whole: &[Result<i64, String>]) -> (kind: Result<
    StrategyKind,
    String,
>)
    requires
        from <= words@.len() < usize::MAX,
        whole@.len() == words@.len(),
    ensures
        agrees(kind, quote_of(words::views(words@), from as int, whole@)),
{
    let half_spread: i64 = decimal(words, from, "half-spread", whole)?;
    if half_spread <= 0 {
        return Err(said("half-spread must be positive, or the quotes would cross"));
    }
    let size: i64 = decimal(words, from, "size", whole)?;
    if size <= 0 {
        return Err(said("size must be positive"));
    }
    let reprice: i64 = match find_value(words, from, "reprice") {
        None => half_spread,
        Some(_) => decimal(words, from, "reprice", whole)?,
    };
    let max_inventory: i64 = decimal(words, from, "max-inventory", whole)?;
    Ok(
        StrategyKind::Quote {
            half_spread: Px::from_scaled(half_spread),
            size: Qty::from_scaled(size),
            reprice: Px::from_scaled(reprice),
            max_inventory: Qty::from_scaled(max_inventory),
        },
    )
}

fn read_limits(
    words: &[String],
    from: usize,
    whole: &[Result<i64, String>],
    stems: &[Result<i64, String>],
) -> (limits: Result<Limits, String>)
    requires
        from <= words@.len() < usize::MAX,
        whole@.len() == words@.len(),
        stems@.len() == words@.len(),
    ensures
        agrees(limits, limits_of(words::views(words@), from as int, whole@, stems@)),
{
    let position: i64 = decimal(words, from, "max-position", whole)?;
    let exposure: i64 = decimal(words, from, "max-exposure", whole)?;
    let order: i64 = decimal(words, from, "max-order-notional", whole)?;
    let orders: u32 = count(words, from, "max-orders")?;
    let window = span(words, from, "rate-window", stems)?;
    let age = span(words, from, "max-quote-age", stems)?;
    Ok(
        Limits {
            max_position: Qty::from_scaled(position),
            max_exposure: Notional::from_scaled(exposure as i128),
            max_order_notional: Notional::from_scaled(order as i128),
            max_orders_in_window: orders,
            rate_window: window,
            max_quote_age: age,
        },
    )
}

impl Directive {
    /// What a line declares: nothing where it is blank or a comment.
    pub fn read(
        line: &str,
        whole: &[Result<i64, String>],
        stems: &[Result<i64, String>],
    ) -> (read: Result<Option<Directive>, String>)
        requires
            whole@.len() == content_of(line@).len(),
            stems@.len() == content_of(line@).len(),
        ensures
            match read {
                Ok(None) => content_of(line@).len() == 0,
                Ok(Some(d)) => content_of(line@).len() > 0 && directive_of(
                    content_of(line@),
                    whole@,
                    stems@,
                ) == Ok::<DirectiveView, Seq<char>>(d@),
                Err(e) => content_of(line@).len() > 0 && directive_of(
                    content_of(line@),
                    whole@,
                    stems@,
                ) == Err::<DirectiveView, Seq<char>>(e@),
            },
    {
        let words = content(line);
        assert(words::views(words@).len() == words@.len());
        if words.len() == 0 {
            return Ok(None);
        }
        match Directive::of_words(words.as_slice(), whole, stems) {
            Ok(directive) => Ok(Some(directive)),
            Err(e) => Err(e),
        }
    }

    fn of_words(
        words: &[String],
        whole: &[Result<i64, String>],
        stems: &[Result<i64, String>],
    ) -> (read: Result<Directive, String>)
        requires
            0 < words@.len() < usize::MAX,
            whole@.len() == words@.len(),
            stems@.len() == words@.len(),
        ensures
            match read {
                Ok(d) => directive_of(words::views(words@), whole@, stems@) == Ok::<
                    DirectiveView,
                    Seq<char>,
                >(d@),
                Err(e) => directive_of(words::views(words@), whole@, stems@) == Err::<
                    DirectiveView,
                    Seq<char>,
                >(e@),
            },
    {
        let ghost w = words::views(words@);
        assert(w[0] == words@[0]@);
        assert(words@.len() > 1 ==> w[1] == words@[1]@);
        assert(words@.len() > 2 ==> w[2] == words@[2]@);
        let name = words[0].as_str();
        if same(name, "instrument") {
            if words.len() < 2 {
                return Err(said("expected a symbol"));
            }
            if let Some(e) = check_settings(words, 2, Section::Instrument) {
                return Err(e);
            }
            let tick: i64 = decimal(words, 2, "tick", whole)?;
            let lot: i64 = decimal(words, 2, "lot", whole)?;
            let min: i64 = decimal(words, 2, "min", whole)?;
            Ok(
                Directive::Instrument {
                    symbol: said(words[1].as_str()),
                    tick: Px::from_scaled(tick),
                    lot: Qty::from_scaled(lot),
                    min: Qty::from_scaled(min),
                },
            )
        } else if same(name, "limits") {
            if words.len() < 2 {
                return Err(said("expected a symbol"));
            }
            if let Some(e) = check_settings(words, 2, Section::Limits) {
                return Err(e);
            }
            let limits = read_limits(words, 2, whole, stems)?;
            Ok(Directive::Limits { symbol: said(words[1].as_str()), limits })
        } else if same(name, "strategy") {
            Directive::strategy(words, whole)
        } else {
            let quoted = debug_string(name);
            Err(
                glue(
                    quoted.as_str(),
                    " is not a directive; expected instrument, limits, or strategy",
                ),
            )
        }
    }

    fn strategy(words: &[String], whole: &[Result<i64, String>]) -> (read: Result<
        Directive,
        String,
    >)
        requires
            0 < words@.len() < usize::MAX,
            whole@.len() == words@.len(),
        ensures
            match read {
                Ok(d) => strategy_line(words::views(words@), whole@) == Ok::<
                    DirectiveView,
                    Seq<char>,
                >(d@),
                Err(e) => strategy_line(words::views(words@), whole@) == Err::<
                    DirectiveView,
                    Seq<char>,
                >(e@),
            },
    {
        let ghost w = words::views(words@);
        assert(words@.len() > 1 ==> w[1] == words@[1]@);
        assert(words@.len() > 2 ==> w[2] == words@[2]@);
        if words.len() < 2 {
            return Err(said("expected a strategy name"));
        }
        let name = words[1].as_str();
        let crossover = same(name, "crossover");
        if !crossover && !same(name, "quote") {
            let quoted = debug_string(name);
            return Err(
                glue(
                    quoted.as_str(),
                    " is not a strategy this build knows; try crossover or quote",
                ),
            );
        }
        if words.len() < 3 {
            return Err(said("expected a symbol"));
        }
        let section = if crossover {
            Section::Crossover
        } else {
            Section::Quote
        };
        if let Some(e) = check_settings(words, 3, section) {
            return Err(e);
        }
        let kind = if crossover {
            read_crossover(words, 3, whole)?
        } else {
            read_quote(words, 3, whole)?
        };
        Ok(Directive::Strategy { symbol: said(words[2].as_str()), kind })
    }
}

/// One tradable contract, as configured.
#[derive(Debug, Clone, PartialEq, Eq)]
pub struct InstrumentConfig {
    /// What the feed calls it.
    pub symbol: String,
    /// Its id, from declaration order.
    pub id: InstrumentId,
    /// The venue's conventions.
    pub instrument: Instrument,
}

/// An [`InstrumentConfig`] with its symbol as characters.
pub struct InstrumentView {
    pub symbol: Seq<char>,
    pub id: InstrumentId,
    pub instrument: Instrument,
}

impl View for InstrumentConfig {
    type V = InstrumentView;

    open spec fn view(&self) -> InstrumentView {
        InstrumentView { symbol: self.symbol@, id: self.id, instrument: self.instrument }
    }
}

/// A strategy to run, and what it trades.
#[derive(Debug, Clone, PartialEq, Eq)]
pub struct StrategyConfig {
    /// Which instrument.
    pub instrument: InstrumentId,
    /// The symbol, for messages.
    pub symbol: String,
    /// Which strategy, with its settings.
    pub kind: StrategyKind,
}

/// A [`StrategyConfig`] with its symbol as characters.
pub struct StrategyView {
    pub instrument: InstrumentId,
    pub symbol: Seq<char>,
    pub kind: StrategyKind,
}

impl View for StrategyConfig {
    type V = StrategyView;

    open spec fn view(&self) -> StrategyView {
        StrategyView { instrument: self.instrument, symbol: self.symbol@, kind: self.kind }
    }
}

/// Bounds per instrument.
#[derive(Debug, Clone, PartialEq, Eq)]
pub struct LimitBook {
    entries: Vec<Option<Limits>>,
}

impl View for LimitBook {
    type V = Seq<Option<Limits>>;

    closed spec fn view(&self) -> Seq<Option<Limits>> {
        self.entries@
    }
}

impl LimitBook {
    /// A book that has no bounds yet.
    pub fn with_instruments(count: usize) -> (book: LimitBook)
        ensures
            book@.len() == count,
            forall|i: int| 0 <= i < count ==> #[trigger] book@[i] is None,
    {
        let mut entries: Vec<Option<Limits>> = Vec::new();
        let mut i: usize = 0;
        while i < count
            invariant
                i <= count,
                entries@.len() == i,
                forall|k: int| 0 <= k < i ==> #[trigger] entries@[k] is None,
            decreases count - i,
        {
            entries.push(None);
            i += 1;
        }
        LimitBook { entries }
    }

    fn copy(&self) -> (book: LimitBook)
        ensures
            book@ == self@,
    {
        let mut entries: Vec<Option<Limits>> = Vec::new();
        let mut i: usize = 0;
        while i < self.entries.len()
            invariant
                i <= self.entries@.len(),
                entries@ == self.entries@.take(i as int),
            decreases self.entries@.len() - i,
        {
            entries.push(self.entries[i]);
            i += 1;
            assert(entries@ =~= self.entries@.take(i as int));
        }
        assert(entries@ =~= self.entries@);
        LimitBook { entries }
    }

    /// Bounds an instrument, where there is one of that id.
    pub fn set(&mut self, id: InstrumentId, limits: Limits) -> (known: bool)
        ensures
            known == (id.0 < old(self)@.len()),
            final(self)@ == if known {
                old(self)@.update(id.0 as int, Some(limits))
            } else {
                old(self)@
            },
    {
        let i: usize = id.raw() as usize;
        if i < self.entries.len() {
            self.entries.set(i, Some(limits));
            true
        } else {
            false
        }
    }

    /// The bounds on an instrument.
    pub fn get(&self, id: InstrumentId) -> (limits: Option<Limits>)
        ensures
            limits == if id.0 < self@.len() {
                self@[id.0 as int]
            } else {
                None
            },
    {
        let i: usize = id.raw() as usize;
        if i < self.entries.len() {
            self.entries[i]
        } else {
            None
        }
    }
}

/// Everything a session needs to start.
#[derive(Debug, Clone)]
pub struct SessionConfig {
    /// Every instrument, in id order.
    pub instruments: Vec<InstrumentConfig>,
    /// Bounds per instrument.
    pub limits: LimitBook,
    /// Strategies to run, one per declaration.
    pub strategies: Vec<StrategyConfig>,
}

/// The instruments of a config.
pub open spec fn instruments_of(instruments: Seq<InstrumentConfig>) -> Seq<InstrumentView> {
    Seq::new(instruments.len(), |i: int| instruments[i]@)
}

/// The strategies of a config.
pub open spec fn strategies_of(strategies: Seq<StrategyConfig>) -> Seq<StrategyView> {
    Seq::new(strategies.len(), |i: int| strategies[i]@)
}

/// A [`SessionConfig`] with its symbols as characters.
#[verifier::ext_equal]
pub struct ConfigView {
    pub instruments: Seq<InstrumentView>,
    pub limits: Seq<Option<Limits>>,
    pub strategies: Seq<StrategyView>,
}

impl View for SessionConfig {
    type V = ConfigView;

    open spec fn view(&self) -> ConfigView {
        ConfigView {
            instruments: instruments_of(self.instruments@),
            limits: self.limits@,
            strategies: strategies_of(self.strategies@),
        }
    }
}

/// Which of the instruments from the `i`th on a symbol names.
pub open spec fn found(instruments: Seq<InstrumentView>, symbol: Seq<char>, i: int) -> Option<int>
    decreases instruments.len() - i,
{
    if i < 0 || i >= instruments.len() {
        None
    } else if instruments[i].symbol == symbol {
        Some(i)
    } else {
        found(instruments, symbol, i + 1)
    }
}

fn find(instruments: &[InstrumentConfig], symbol: &str) -> (at: Option<usize>)
    ensures
        match found(instruments_of(instruments@), symbol@, 0) {
            Some(i) => at matches Some(k) && k == i && i < instruments@.len(),
            None => at is None,
        },
{
    let ghost v = instruments_of(instruments@);
    let mut i: usize = 0;
    while i < instruments.len()
        invariant
            i <= instruments@.len(),
            v == instruments_of(instruments@),
            found(v, symbol@, 0) == found(v, symbol@, i as int),
        decreases instruments@.len() - i,
    {
        assert(v[i as int].symbol == instruments@[i as int].symbol@);
        if same(instruments[i].symbol.as_str(), symbol) {
            return Some(i);
        }
        i += 1;
    }
    None
}

/// A declaration that waits for every instrument to be known.
#[derive(Debug, Clone)]
pub struct Waiting<T> {
    pub line: u64,
    pub symbol: String,
    pub value: T,
}

/// A [`Waiting`] with its symbol as characters.
pub struct WaitingView<T> {
    pub line: u64,
    pub symbol: Seq<char>,
    pub value: T,
}

/// Declarations that wait.
pub open spec fn waiting<T>(list: Seq<Waiting<T>>) -> Seq<WaitingView<T>> {
    Seq::new(
        list.len(),
        |i: int| WaitingView { line: list[i].line, symbol: list[i].symbol@, value: list[i].value },
    )
}

/// What was read of a config so far.
#[verifier::ext_equal]
pub struct Draft {
    pub instruments: Seq<InstrumentView>,
    pub limits: Seq<WaitingView<Limits>>,
    pub strategies: Seq<WaitingView<StrategyKind>>,
}

/// What one more line makes of a draft, or what is wrong with it.
pub open spec fn drafted(
    draft: Draft,
    number: u64,
    words: Seq<Seq<char>>,
    whole: Seq<Result<i64, String>>,
    stems: Seq<Result<i64, String>>,
    verdict: Result<(), String>,
) -> Result<Draft, Seq<char>> {
    if words.len() == 0 {
        Ok(draft)
    } else if words.len() >= 2 && words[0] == "instrument"@ && found(
        draft.instruments,
        words[1],
        0,
    ) is Some {
        Err(words[1] + " is declared twice"@)
    } else {
        match directive_of(words, whole, stems) {
            Err(e) => Err(e),
            Ok(DirectiveView::Instrument { symbol, tick, lot, min }) => match verdict {
                Err(e) => Err(symbol + " has unusable conventions: "@ + e@),
                Ok(_) => {
                    let id = InstrumentId(draft.instruments.len() as u32);
                    Ok(
                        Draft {
                            instruments: draft.instruments.push(
                                InstrumentView {
                                    symbol,
                                    id,
                                    instrument: Instrument { id, tick, lot, min_qty: min },
                                },
                            ),
                            ..draft
                        },
                    )
                },
            },
            Ok(DirectiveView::Limits { symbol, limits }) => match verdict {
                Err(e) => Err(symbol + " has unusable limits: "@ + e@),
                Ok(_) => Ok(
                    Draft {
                        limits: draft.limits.push(
                            WaitingView { line: number, symbol, value: limits },
                        ),
                        ..draft
                    },
                ),
            },
            Ok(DirectiveView::Strategy { symbol, kind }) => Ok(
                Draft {
                    strategies: draft.strategies.push(
                        WaitingView { line: number, symbol, value: kind },
                    ),
                    ..draft
                },
            ),
        }
    }
}

/// What the first `n` lines make of a config: its draft, or the first fault.
pub open spec fn draft_of(lines: Seq<Seq<char>>, outside: Seq<Outside>, n: int) -> Result<
    Draft,
    Fault,
>
    decreases n,
{
    if n <= 0 {
        Ok(Draft { instruments: Seq::empty(), limits: Seq::empty(), strategies: Seq::empty() })
    } else {
        match draft_of(lines, outside, n - 1) {
            Err(e) => Err(e),
            Ok(draft) => match drafted(
                draft,
                n as u64,
                content_of(lines[n - 1]),
                outside[n - 1].whole@,
                outside[n - 1].stems@,
                outside[n - 1].verdict,
            ) {
                Err(message) => Err(Fault { line: n as u64, message }),
                Ok(draft) => Ok(draft),
            },
        }
    }
}

/// The book that the first `k` limits make.
pub open spec fn book_of(
    instruments: Seq<InstrumentView>,
    limits: Seq<WaitingView<Limits>>,
    k: int,
) -> Result<Seq<Option<Limits>>, Fault>
    decreases k,
{
    if k <= 0 {
        Ok(Seq::new(instruments.len(), |i: int| None))
    } else {
        match book_of(instruments, limits, k - 1) {
            Err(e) => Err(e),
            Ok(book) => {
                let next = limits[k - 1];
                match found(instruments, next.symbol, 0) {
                    None => Err(
                        Fault {
                            line: next.line,
                            message: next.symbol + " has no instrument declaration"@,
                        },
                    ),
                    Some(i) => if book[i] is Some {
                        Err(
                            Fault {
                                line: next.line,
                                message: next.symbol + " has limits declared twice"@,
                            },
                        )
                    } else {
                        Ok(book.update(i, Some(next.value)))
                    },
                }
            },
        }
    }
}

/// The first instrument from the `i`th on that has no limits.
pub open spec fn unlimited(book: Seq<Option<Limits>>, i: int) -> Option<int>
    decreases book.len() - i,
{
    if i < 0 || i >= book.len() {
        None
    } else if book[i] is None {
        Some(i)
    } else {
        unlimited(book, i + 1)
    }
}

/// The first `k` strategies, each with its instrument.
pub open spec fn resolved(
    instruments: Seq<InstrumentView>,
    strategies: Seq<WaitingView<StrategyKind>>,
    k: int,
) -> Result<Seq<StrategyView>, Fault>
    decreases k,
{
    if k <= 0 {
        Ok(Seq::empty())
    } else {
        match resolved(instruments, strategies, k - 1) {
            Err(e) => Err(e),
            Ok(list) => {
                let next = strategies[k - 1];
                match found(instruments, next.symbol, 0) {
                    None => Err(
                        Fault {
                            line: next.line,
                            message: next.symbol + " has no instrument declaration"@,
                        },
                    ),
                    Some(i) => Ok(
                        list.push(
                            StrategyView {
                                instrument: instruments[i].id,
                                symbol: next.symbol,
                                kind: next.value,
                            },
                        ),
                    ),
                }
            },
        }
    }
}

/// The config that a whole draft makes.
pub open spec fn finished(draft: Draft) -> Result<ConfigView, Fault> {
    if draft.instruments.len() == 0 {
        Err(Fault { line: 0, message: "the config declares no instruments"@ })
    } else {
        match book_of(draft.instruments, draft.limits, draft.limits.len() as int) {
            Err(e) => Err(e),
            Ok(book) => match unlimited(book, 0) {
                Some(i) => Err(
                    Fault {
                        line: 0,
                        message: draft.instruments[i].symbol
                            + " has no limits line, so it could never be traded"@,
                    },
                ),
                None => match resolved(
                    draft.instruments,
                    draft.strategies,
                    draft.strategies.len() as int,
                ) {
                    Err(e) => Err(e),
                    Ok(strategies) => Ok(
                        ConfigView { instruments: draft.instruments, limits: book, strategies },
                    ),
                },
            },
        }
    }
}

/// The config that a text holds, or what is wrong with it.
pub open spec fn config_of(text: Seq<char>, outside: Seq<Outside>) -> Result<ConfigView, Fault> {
    match draft_of(lines_of(text), outside, lines_of(text).len() as int) {
        Err(e) => Err(e),
        Ok(draft) => finished(draft),
    }
}

/// Whether there is an account of every word of every line.
pub open spec fn accounted(text: Seq<char>, outside: Seq<Outside>) -> bool {
    &&& outside.len() == lines_of(text).len()
    &&& forall|i: int|
        0 <= i < outside.len() ==> {
            &&& (#[trigger] outside[i]).whole@.len() == content_of(lines_of(text)[i]).len()
            &&& outside[i].stems@.len() == content_of(lines_of(text)[i]).len()
        }
}

struct Sketch {
    instruments: Vec<InstrumentConfig>,
    limits: Vec<Waiting<Limits>>,
    strategies: Vec<Waiting<StrategyKind>>,
}

impl View for Sketch {
    type V = Draft;

    closed spec fn view(&self) -> Draft {
        Draft {
            instruments: instruments_of(self.instruments@),
            limits: waiting(self.limits@),
            strategies: waiting(self.strategies@),
        }
    }
}

impl Sketch {
    /// Takes one more line.
    fn take(&mut self, number: u64, line: &str, outside: &Outside) -> (said: Option<String>)
        requires
            outside.whole@.len() == content_of(line@).len(),
            outside.stems@.len() == content_of(line@).len(),
        ensures
            ({
                let model = drafted(
                    old(self)@,
                    number,
                    content_of(line@),
                    outside.whole@,
                    outside.stems@,
                    outside.verdict,
                );
                match said {
                    None => model == Ok::<Draft, Seq<char>>(final(self)@),
                    Some(message) => model == Err::<Draft, Seq<char>>(message@),
                }
            }),
    {
        let words = content(line);
        let ghost w = words::views(words@);
        assert(w.len() == words@.len());
        if words.len() == 0 {
            return None;
        }
        assert(w[0] == words@[0]@);
        if words.len() >= 2 && same(words[0].as_str(), "instrument") {
            assert(w[1] == words@[1]@);
            if find(self.instruments.as_slice(), words[1].as_str()).is_some() {
                return Some(glue(words[1].as_str(), " is declared twice"));
            }
        }
        match Directive::of_words(
            words.as_slice(),
            outside.whole.as_slice(),
            outside.stems.as_slice(),
        ) {
            Err(e) => Some(e),
            Ok(Directive::Instrument { symbol, tick, lot, min }) => match &outside.verdict {
                Err(e) => {
                    let said = glue(symbol.as_str(), " has unusable conventions: ");
                    Some(glue(said.as_str(), e.as_str()))
                },
                Ok(_) => {
                    let id = InstrumentId::new(self.instruments.len() as u32);
                    let instrument = Instrument { id, tick, lot, min_qty: min };
                    self.instruments.push(InstrumentConfig { symbol, id, instrument });
                    assert(self@.instruments =~= old(self)@.instruments.push(
                        InstrumentView { symbol: symbol@, id, instrument },
                    ));
                    None
                },
            },
            Ok(Directive::Limits { symbol, limits }) => match &outside.verdict {
                Err(e) => {
                    let said = glue(symbol.as_str(), " has unusable limits: ");
                    Some(glue(said.as_str(), e.as_str()))
                },
                Ok(_) => {
                    self.limits.push(Waiting { line: number, symbol, value: limits });
                    assert(self@.limits =~= old(self)@.limits.push(
                        WaitingView { line: number, symbol: symbol@, value: limits },
                    ));
                    None
                },
            },
            Ok(Directive::Strategy { symbol, kind }) => {
                self.strategies.push(Waiting { line: number, symbol, value: kind });
                assert(self@.strategies =~= old(self)@.strategies.push(
                    WaitingView { line: number, symbol: symbol@, value: kind },
                ));
                None
            },
        }
    }

    /// The book that the limits make.
    fn book(&self) -> (book: Result<LimitBook, ConfigError>)
        ensures
            ({
                let model = book_of(self@.instruments, self@.limits, self@.limits.len() as int);
                match book {
                    Ok(b) => model == Ok::<Seq<Option<Limits>>, Fault>(b@) && b@.len()
                        == self@.instruments.len(),
                    Err(e) => model == Err::<Seq<Option<Limits>>, Fault>(e@),
                }
            }),
    {
        let ghost instruments = self@.instruments;
        let ghost limits = self@.limits;
        let ghost n = limits.len() as int;
        let mut book = LimitBook::with_instruments(self.instruments.len());
        let mut k: usize = 0;
        assert(book@ =~= Seq::new(instruments.len(), |i: int| None));
        while k < self.limits.len()
            invariant
                k <= self.limits@.len(),
                instruments == self@.instruments,
                limits == self@.limits,
                n == limits.len(),
                book@.len() == instruments.len(),
                book_of(instruments, limits, k as int) == Ok::<Seq<Option<Limits>>, Fault>(book@),
            decreases self.limits@.len() - k,
        {
            let next = &self.limits[k];
            assert(limits[k as int].symbol == next.symbol@);
            match find(self.instruments.as_slice(), next.symbol.as_str()) {
                None => {
                    let e = ConfigError {
                        line: next.line,
                        message: glue(next.symbol.as_str(), " has no instrument declaration"),
                    };
                    proof {
                        book_fault_stays(instruments, limits, k + 1, n, e@);
                    }
                    return Err(e);
                },
                Some(i) => {
                    if book.entries[i].is_some() {
                        let e = ConfigError {
                            line: next.line,
                            message: glue(next.symbol.as_str(), " has limits declared twice"),
                        };
                        proof {
                            book_fault_stays(instruments, limits, k + 1, n, e@);
                        }
                        return Err(e);
                    }
                    book.entries.set(i, Some(next.value));
                },
            }
            k += 1;
        }
        Ok(book)
    }

    /// The strategies, each with its instrument.
    fn resolve(&self) -> (list: Result<Vec<StrategyConfig>, ConfigError>)
        ensures
            ({
                let model = resolved(
                    self@.instruments,
                    self@.strategies,
                    self@.strategies.len() as int,
                );
                match list {
                    Ok(l) => model == Ok::<Seq<StrategyView>, Fault>(strategies_of(l@)),
                    Err(e) => model == Err::<Seq<StrategyView>, Fault>(e@),
                }
            }),
    {
        let ghost instruments = self@.instruments;
        let ghost strategies = self@.strategies;
        let ghost n = strategies.len() as int;
        let mut list: Vec<StrategyConfig> = Vec::new();
        let mut k: usize = 0;
        assert(strategies_of(list@) =~= Seq::empty());
        while k < self.strategies.len()
            invariant
                k <= self.strategies@.len(),
                instruments == self@.instruments,
                strategies == self@.strategies,
                n == strategies.len(),
                resolved(instruments, strategies, k as int) == Ok::<Seq<StrategyView>, Fault>(
                    strategies_of(list@),
                ),
            decreases self.strategies@.len() - k,
        {
            let next = &self.strategies[k];
            assert(strategies[k as int].symbol == next.symbol@);
            match find(self.instruments.as_slice(), next.symbol.as_str()) {
                None => {
                    let e = ConfigError {
                        line: next.line,
                        message: glue(next.symbol.as_str(), " has no instrument declaration"),
                    };
                    proof {
                        resolve_fault_stays(instruments, strategies, k + 1, n, e@);
                    }
                    return Err(e);
                },
                Some(i) => {
                    assert(instruments[i as int].id == self.instruments@[i as int].id);
                    let strategy = StrategyConfig {
                        instrument: self.instruments[i].id,
                        symbol: said(next.symbol.as_str()),
                        kind: next.value,
                    };
                    let ghost before = strategies_of(list@);
                    list.push(strategy);
                    assert(strategies_of(list@) =~= before.push(strategy@));
                },
            }
            k += 1;
        }
        Ok(list)
    }
}

proof fn book_fault_stays(
    instruments: Seq<InstrumentView>,
    limits: Seq<WaitingView<Limits>>,
    k: int,
    n: int,
    fault: Fault,
)
    requires
        0 < k <= n,
        book_of(instruments, limits, k) == Err::<Seq<Option<Limits>>, Fault>(fault),
    ensures
        book_of(instruments, limits, n) == Err::<Seq<Option<Limits>>, Fault>(fault),
    decreases n,
{
    if k < n {
        book_fault_stays(instruments, limits, k, n - 1, fault);
    }
}

proof fn resolve_fault_stays(
    instruments: Seq<InstrumentView>,
    strategies: Seq<WaitingView<StrategyKind>>,
    k: int,
    n: int,
    fault: Fault,
)
    requires
        0 < k <= n,
        resolved(instruments, strategies, k) == Err::<Seq<StrategyView>, Fault>(fault),
    ensures
        resolved(instruments, strategies, n) == Err::<Seq<StrategyView>, Fault>(fault),
    decreases n,
{
    if k < n {
        resolve_fault_stays(instruments, strategies, k, n - 1, fault);
    }
}

proof fn draft_fault_stays(
    lines: Seq<Seq<char>>,
    outside: Seq<Outside>,
    k: int,
    n: int,
    fault: Fault,
)
    requires
        0 < k <= n,
        draft_of(lines, outside, k) == Err::<Draft, Fault>(fault),
    ensures
        draft_of(lines, outside, n) == Err::<Draft, Fault>(fault),
    decreases n,
{
    if k < n {
        draft_fault_stays(lines, outside, k, n - 1, fault);
    }
}

fn first_unlimited(book: &LimitBook) -> (at: Option<usize>)
    ensures
        match unlimited(book@, 0) {
            Some(i) => at matches Some(k) && k == i && i < book@.len(),
            None => at is None,
        },
{
    let mut i: usize = 0;
    while i < book.entries.len()
        invariant
            i <= book@.len(),
            unlimited(book@, 0) == unlimited(book@, i as int),
        decreases book@.len() - i,
    {
        if book.entries[i].is_none() {
            return Some(i);
        }
        i += 1;
    }
    None
}

impl SessionConfig {
    /// Reads a config from text, with what the caller found about each line.
    pub fn parse(text: &str, outside: &[Outside]) -> (config: Result<SessionConfig, ConfigError>)
        requires
            accounted(text@, outside@),
        ensures
            match config {
                Ok(c) => config_of(text@, outside@) == Ok::<ConfigView, Fault>(c@),
                Err(e) => config_of(text@, outside@) == Err::<ConfigView, Fault>(e@),
            },
    {
        let lines = lines(text);
        let ghost l = lines_of(text@);
        assert(l.len() == lines@.len());
        let mut sketch = Sketch {
            instruments: Vec::new(),
            limits: Vec::new(),
            strategies: Vec::new(),
        };
        let mut n: usize = 0;
        assert(sketch@ =~= (Draft {
            instruments: Seq::empty(),
            limits: Seq::empty(),
            strategies: Seq::empty(),
        }));
        while n < lines.len()
            invariant
                n <= lines@.len() == l.len(),
                l == lines_of(text@),
                words::views(lines@) == l,
                accounted(text@, outside@),
                draft_of(l, outside@, n as int) == Ok::<Draft, Fault>(sketch@),
            decreases lines@.len() - n,
        {
            assert(l[n as int] == lines@[n as int]@);
            let number: u64 = n as u64 + 1;
            if let Some(message) = sketch.take(number, lines[n].as_str(), &outside[n]) {
                let e = ConfigError { line: number, message };
                proof {
                    draft_fault_stays(l, outside@, n + 1, l.len() as int, e@);
                }
                return Err(e);
            }
            n += 1;
        }
        if sketch.instruments.len() == 0 {
            return Err(
                ConfigError { line: 0, message: said("the config declares no instruments") },
            );
        }
        let limits = sketch.book()?;
        if let Some(i) = first_unlimited(&limits) {
            assert(sketch@.instruments[i as int].symbol == sketch.instruments@[i as int].symbol@);
            return Err(
                ConfigError {
                    line: 0,
                    message: glue(
                        sketch.instruments[i].symbol.as_str(),
                        " has no limits line, so it could never be traded",
                    ),
                },
            );
        }
        let strategies = sketch.resolve()?;
        Ok(SessionConfig { instruments: sketch.instruments, limits, strategies })
    }

    /// The instruments, in the order the engine wants them.
    pub fn instrument_list(&self) -> (list: Vec<Instrument>)
        ensures
            list@.len() == self.instruments@.len(),
            forall|i: int|
                0 <= i < list@.len() ==> #[trigger] list@[i] == self.instruments@[i].instrument,
    {
        let mut list: Vec<Instrument> = Vec::new();
        let mut i: usize = 0;
        while i < self.instruments.len()
            invariant
                i <= self.instruments@.len(),
                list@.len() == i,
                forall|k: int|
                    0 <= k < i ==> #[trigger] list@[k] == self.instruments@[k].instrument,
            decreases self.instruments@.len() - i,
        {
            list.push(self.instruments[i].instrument);
            i += 1;
        }
        list
    }

    /// The same session with other strategies.
    pub fn with_strategies(&self, strategies: Vec<StrategyConfig>) -> (session: SessionConfig)
        ensures
            session@ == (ConfigView { strategies: strategies_of(strategies@), ..self@ }),
    {
        let mut instruments: Vec<InstrumentConfig> = Vec::new();
        let mut i: usize = 0;
        while i < self.instruments.len()
            invariant
                i <= self.instruments@.len(),
                instruments@.len() == i,
                forall|k: int| 0 <= k < i ==> (#[trigger] instruments@[k])@ == self.instruments@[k]@,
            decreases self.instruments@.len() - i,
        {
            let one = &self.instruments[i];
            instruments.push(
                InstrumentConfig {
                    symbol: said(one.symbol.as_str()),
                    id: one.id,
                    instrument: one.instrument,
                },
            );
            i += 1;
        }
        assert(instruments_of(instruments@) =~= instruments_of(self.instruments@));
        let limits = self.limits.copy();
        SessionConfig { instruments, limits, strategies }
    }

    /// Looks an instrument up by the symbol a feed uses.
    pub fn by_symbol(&self, symbol: &str) -> (instrument: Option<&InstrumentConfig>)
        ensures
            match found(self@.instruments, symbol@, 0) {
                Some(i) => instrument matches Some(c) && *c == self.instruments@[i],
                None => instrument is None,
            },
    {
        match find(self.instruments.as_slice(), symbol) {
            Some(i) => Some(&self.instruments[i]),
            None => None,
        }
    }
}

/// The settings of a strategy with one of them changed, where `reading` is what a
/// reader of decimals makes of `value`.
pub open spec fn overridden(
    kind: StrategyKind,
    key: Seq<char>,
    value: Seq<char>,
    reading: Result<i64, String>,
) -> Result<StrategyKind, Seq<char>> {
    let whole: Result<u32, Seq<char>> = match words::int_of(value, false) {
        Some(n) if n <= u32::MAX => Ok(n as u32),
        _ => Err(about(key, value, " is not a whole number"@)),
    };
    let decimal: Result<i64, Seq<char>> = match reading {
        Ok(scaled) => Ok(scaled),
        Err(e) => Err(about(key, value, ": "@ + e@)),
    };
    match kind {
        StrategyKind::Crossover { window, size, bars } => if key == "window"@ {
            match whole {
                Err(e) => Err(e),
                Ok(n) => if n == 0 {
                    Err("window must be at least one bar"@)
                } else {
                    Ok(StrategyKind::Crossover { window: n as usize, size, bars })
                },
            }
        } else if key == "size"@ {
            match decimal {
                Err(e) => Err(e),
                Ok(d) => if d <= 0 {
                    Err("size must be positive"@)
                } else {
                    Ok(StrategyKind::Crossover { window, size: Qty(d), bars })
                },
            }
        } else if key == "bars"@ {
            match whole {
                Err(e) => Err(e),
                Ok(n) => Ok(
                    StrategyKind::Crossover { window, size, bars: BarSpec::Tick { threshold: n } },
                ),
            }
        } else {
            Err(text::quoted_by_debug(key) + " is not a setting crossover takes"@)
        },
        StrategyKind::Quote { half_spread, size, reprice, max_inventory } => if key
            == "half-spread"@ {
            match decimal {
                Err(e) => Err(e),
                Ok(d) => if d <= 0 {
                    Err("half-spread must be positive, or the quotes would cross"@)
                } else {
                    Ok(StrategyKind::Quote { half_spread: Px(d), size, reprice, max_inventory })
                },
            }
        } else if key == "size"@ {
            match decimal {
                Err(e) => Err(e),
                Ok(d) => if d <= 0 {
                    Err("size must be positive"@)
                } else {
                    Ok(StrategyKind::Quote { half_spread, size: Qty(d), reprice, max_inventory })
                },
            }
        } else if key == "reprice"@ {
            match decimal {
                Err(e) => Err(e),
                Ok(d) => Ok(
                    StrategyKind::Quote { half_spread, size, reprice: Px(d), max_inventory },
                ),
            }
        } else if key == "max-inventory"@ {
            match decimal {
                Err(e) => Err(e),
                Ok(d) => Ok(
                    StrategyKind::Quote { half_spread, size, reprice, max_inventory: Qty(d) },
                ),
            }
        } else {
            Err(text::quoted_by_debug(key) + " is not a setting quote takes"@)
        },
    }
}

fn whole_value(key: &str, value: &str) -> (n: Result<u32, String>)
    ensures
        agrees(
            n,
            match words::int_of(value@, false) {
                Some(n) if n <= u32::MAX => Ok(n as u32),
                _ => Err(about(key@, value@, " is not a whole number"@)),
            },
        ),
{
    match parse_u32(value) {
        Some(n) => Ok(n),
        None => Err(value_fault(key, value, " is not a whole number")),
    }
}

fn decimal_value(key: &str, value: &str, reading: &Result<i64, String>) -> (d: Result<i64, String>)
    ensures
        agrees(
            d,
            match *reading {
                Ok(scaled) => Ok(scaled),
                Err(e) => Err(about(key@, value@, ": "@ + e@)),
            },
        ),
{
    match reading {
        Ok(scaled) => Ok(*scaled),
        Err(e) => {
            let fault = glue(": ", e.as_str());
            Err(value_fault(key, value, fault.as_str()))
        },
    }
}

impl StrategyKind {
    /// The settings with one of them changed.
    fn set(&self, key: &str, value: &str, reading: &Result<i64, String>) -> (kind: Result<
        StrategyKind,
        String,
    >)
        ensures
            agrees(kind, overridden(*self, key@, value@, *reading)),
    {
        match *self {
            StrategyKind::Crossover { window, size, bars } => {
                if same(key, "window") {
                    let n: u32 = whole_value(key, value)?;
                    if n == 0 {
                        return Err(said("window must be at least one bar"));
                    }
                    Ok(StrategyKind::Crossover { window: n as usize, size, bars })
                } else if same(key, "size") {
                    let d: i64 = decimal_value(key, value, reading)?;
                    if d <= 0 {
                        return Err(said("size must be positive"));
                    }
                    Ok(StrategyKind::Crossover { window, size: Qty::from_scaled(d), bars })
                } else if same(key, "bars") {
                    let n: u32 = whole_value(key, value)?;
                    Ok(
                        StrategyKind::Crossover {
                            window,
                            size,
                            bars: BarSpec::Tick { threshold: n },
                        },
                    )
                } else {
                    Err(glue(debug_string(key).as_str(), " is not a setting crossover takes"))
                }
            },
            StrategyKind::Quote { half_spread, size, reprice, max_inventory } => {
                if same(key, "half-spread") {
                    let d: i64 = decimal_value(key, value, reading)?;
                    if d <= 0 {
                        return Err(
                            said("half-spread must be positive, or the quotes would cross"),
                        );
                    }
                    Ok(
                        StrategyKind::Quote {
                            half_spread: Px::from_scaled(d),
                            size,
                            reprice,
                            max_inventory,
                        },
                    )
                } else if same(key, "size") {
                    let d: i64 = decimal_value(key, value, reading)?;
                    if d <= 0 {
                        return Err(said("size must be positive"));
                    }
                    Ok(
                        StrategyKind::Quote {
                            half_spread,
                            size: Qty::from_scaled(d),
                            reprice,
                            max_inventory,
                        },
                    )
                } else if same(key, "reprice") {
                    let d: i64 = decimal_value(key, value, reading)?;
                    Ok(
                        StrategyKind::Quote {
                            half_spread,
                            size,
                            reprice: Px::from_scaled(d),
                            max_inventory,
                        },
                    )
                } else if same(key, "max-inventory") {
                    let d: i64 = decimal_value(key, value, reading)?;
                    Ok(
                        StrategyKind::Quote {
                            half_spread,
                            size,
                            reprice,
                            max_inventory: Qty::from_scaled(d),
                        },
                    )
                } else {
                    Err(glue(debug_string(key).as_str(), " is not a setting quote takes"))
                }
            },
        }
    }
}

impl StrategyConfig {
    /// The strategy with one setting changed, for a sweep. A setting it does not
    /// take is refused: ignoring it would rank runs that were all the same.
    pub fn with(&self, key: &str, value: &str, reading: &Result<i64, String>) -> (changed: Result<
        StrategyConfig,
        ConfigError,
    >)
        ensures
            match overridden(self.kind, key@, value@, *reading) {
                Ok(kind) => changed matches Ok(c) && c@ == (StrategyView { kind, ..self@ }),
                Err(message) => changed matches Err(e) && e@ == (Fault { line: 0, message }),
            },
    {
        match self.kind.set(key, value, reading) {
            Ok(kind) => Ok(
                StrategyConfig {
                    instrument: self.instrument,
                    symbol: said(self.symbol.as_str()),
                    kind,
                },
            ),
            Err(message) => Err(ConfigError { line: 0, message }),
        }
    }
}

proof fn found_is_there(instruments: Seq<InstrumentView>, symbol: Seq<char>, i: int)
    ensures
        match found(instruments, symbol, i) {
            Some(k) => i <= k < instruments.len() && instruments[k].symbol == symbol,
            None => forall|k: int|
                0 <= i <= k < instruments.len() ==> (#[trigger] instruments[k]).symbol != symbol,
        },
    decreases instruments.len() - i,
{
    if 0 <= i < instruments.len() && instruments[i].symbol != symbol {
        found_is_there(instruments, symbol, i + 1);
    }
}

proof fn unlimited_is_first(book: Seq<Option<Limits>>, i: int)
    requires
        0 <= i,
        unlimited(book, i) is None,
    ensures
        forall|k: int| i <= k < book.len() ==> #[trigger] book[k] is Some,
    decreases book.len() - i,
{
    if i < book.len() {
        unlimited_is_first(book, i + 1);
    }
}

proof fn book_has_a_place_for_each(
    instruments: Seq<InstrumentView>,
    limits: Seq<WaitingView<Limits>>,
    k: int,
)
    ensures
        book_of(instruments, limits, k) matches Ok(book) ==> book.len() == instruments.len(),
    decreases k,
{
    if k > 0 {
        book_has_a_place_for_each(instruments, limits, k - 1);
        found_is_there(instruments, limits[k - 1].symbol, 0);
    }
}

proof fn strategies_are_resolved(
    instruments: Seq<InstrumentView>,
    strategies: Seq<WaitingView<StrategyKind>>,
    k: int,
)
    ensures
        resolved(instruments, strategies, k) matches Ok(list) ==> forall|j: int|
            0 <= j < list.len() ==> tradable(instruments, #[trigger] list[j]),
    decreases k,
{
    if k > 0 {
        strategies_are_resolved(instruments, strategies, k - 1);
        let next = strategies[k - 1];
        found_is_there(instruments, next.symbol, 0);
        if let Ok(list) = resolved(instruments, strategies, k) {
            let before = resolved(instruments, strategies, k - 1)->Ok_0;
            assert forall|j: int| 0 <= j < list.len() implies tradable(
                instruments,
                #[trigger] list[j],
            ) by {
                if j < before.len() {
                    assert(list[j] == before[j]);
                } else {
                    let i = found(instruments, next.symbol, 0)->Some_0;
                    assert(instruments[i].symbol == list[j].symbol);
                }
            }
        }
    }
}

/// Whether a strategy trades one of the instruments, under its symbol.
pub open spec fn tradable(instruments: Seq<InstrumentView>, strategy: StrategyView) -> bool {
    exists|i: int|
        0 <= i < instruments.len() && (#[trigger] instruments[i]).symbol == strategy.symbol
            && instruments[i].id == strategy.instrument
}

proof fn draft_numbers_instruments(lines: Seq<Seq<char>>, outside: Seq<Outside>, n: int)
    ensures
        draft_of(lines, outside, n) matches Ok(draft) ==> {
            &&& forall|i: int|
                0 <= i < draft.instruments.len() ==> (#[trigger] draft.instruments[i]).id
                    == InstrumentId(i as u32) && draft.instruments[i].instrument.id
                    == InstrumentId(i as u32)
            &&& forall|i: int, j: int|
                0 <= i < j < draft.instruments.len() ==> (#[trigger] draft.instruments[i]).symbol
                    != (#[trigger] draft.instruments[j]).symbol
        },
    decreases n,
{
    if n > 0 {
        draft_numbers_instruments(lines, outside, n - 1);
        if let Ok(draft) = draft_of(lines, outside, n - 1) {
            let words = content_of(lines[n - 1]);
            if words.len() >= 2 {
                found_is_there(draft.instruments, words[1], 0);
            }
        }
    }
}

/// Every instrument of a config has limits, and every strategy trades one of the
/// instruments.
pub proof fn config_is_closed(text: Seq<char>, outside: Seq<Outside>)
    ensures
        config_of(text, outside) matches Ok(config) ==> {
            &&& config.instruments.len() > 0
            &&& config.limits.len() == config.instruments.len()
            &&& forall|i: int| 0 <= i < config.limits.len() ==> #[trigger] config.limits[i] is Some
            &&& forall|j: int|
                0 <= j < config.strategies.len() ==> tradable(
                    config.instruments,
                    #[trigger] config.strategies[j],
                )
        },
{
    if let Ok(draft) = draft_of(lines_of(text), outside, lines_of(text).len() as int) {
        if let Ok(config) = finished(draft) {
            book_has_a_place_for_each(
                draft.instruments,
                draft.limits,
                draft.limits.len() as int,
            );
            unlimited_is_first(config.limits, 0);
            strategies_are_resolved(
                draft.instruments,
                draft.strategies,
                draft.strategies.len() as int,
            );
        }
    }
}

/// Instrument ids come from declaration order, and no symbol is declared twice.
pub proof fn ids_come_from_declaration_order(text: Seq<char>, outside: Seq<Outside>)
    ensures
        config_of(text, outside) matches Ok(config) ==> {
            &&& forall|i: int|
                0 <= i < config.instruments.len() ==> (#[trigger] config.instruments[i]).id
                    == InstrumentId(i as u32) && config.instruments[i].instrument.id
                    == InstrumentId(i as u32)
            &&& forall|i: int, j: int|
                0 <= i < j < config.instruments.len() ==> (#[trigger] config.instruments[i]).symbol
                    != (#[trigger] config.instruments[j]).symbol
        },
{
    draft_numbers_instruments(lines_of(text), outside, lines_of(text).len() as int);
}

proof fn stray_is_a_fault(words: Seq<Seq<char>>, from: int, at: int, section: Section)
    requires
        0 <= from <= at < words.len(),
        (at - from) % 2 == 0,
        !section.takes(words[at]),
    ensures
        stray_fault(words, from, section) is Some,
    decreases at - from,
{
    if from < at {
        stray_is_a_fault(words, from + 2, at, section);
    }
}

/// A setting that its section does not take is refused, wherever it stands.
pub proof fn unknown_setting_is_refused(
    words: Seq<Seq<char>>,
    from: int,
    at: int,
    section: Section,
)
    requires
        0 <= from <= at < words.len(),
        (at - from) % 2 == 0,
        !section.takes(words[at]),
    ensures
        settings_fault(words, from, section) is Some,
{
    stray_is_a_fault(words, from, at, section);
}

} // verus!
