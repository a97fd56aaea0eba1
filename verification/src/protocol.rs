//! What the lines of a live session mean, and what a live feed does with them.
use vstd::prelude::*;

use crate::event::{Command, Inbound, MarketEvent, MarketKind};
use crate::live;
use crate::live::{
    command_of, elapsed_time, parse_line, wall_time, ArrivalView, ControlWord, FaultView,
    FeedError, LiveView, Poll, Symbols,
};
use crate::text;
use crate::timer;
use crate::timer::TimerRequest;
use crate::value::{ExchangeTime, InstrumentId, MonotonicTime, ReceiveTime, Side};
use crate::words;

verus! {

/// The letter of a side.
pub open spec fn side_letter(side: Side) -> Seq<char> {
    match side {
        Side::Buy => seq!['B'],
        Side::Sell => seq!['S'],
    }
}

/// The words that an event is written in, where its instrument goes by `symbol` and
/// its numbers are written by `number`.
pub open spec fn written(
    event: MarketEvent,
    symbol: Seq<char>,
    number: spec_fn(i64) -> Seq<char>,
) -> Seq<Seq<char>> {
    let at = text::decimal(event.exchange_time.0 as int);
    match event.kind {
        MarketKind::Quote { bid_px, bid_qty, ask_px, ask_qty } => seq![
            seq!['Q'],
            symbol,
            at,
            number(bid_px.0),
            number(bid_qty.0),
            number(ask_px.0),
            number(ask_qty.0),
        ],
        MarketKind::Trade { px, qty, aggressor } => seq![
            seq!['T'],
            symbol,
            at,
            number(px.0),
            number(qty.0),
            side_letter(aggressor),
        ],
        MarketKind::Level { side, px, qty } => seq![
            seq!['L'],
            symbol,
            at,
            side_letter(side),
            number(px.0),
            number(qty.0),
        ],
        MarketKind::BookApplied => seq![seq!['A'], symbol, at],
        MarketKind::BookReset => seq![seq!['R'], symbol, at],
    }
}

/// Whether a symbol stands for an instrument: the first entry with it says so.
pub open spec fn stands_for(symbols: Symbols, symbol: Seq<char>, instrument: InstrumentId) -> bool {
    exists|k: int|
        {
            &&& 0 <= k < symbols.entries@.len()
            &&& #[trigger] symbols.entries@[k].0@ == symbol
            &&& symbols.entries@[k].1 == instrument
            &&& forall|j: int| 0 <= j < k ==> (#[trigger] symbols.entries@[j]).0@ != symbol
        }
}

/// Whether no entry has a symbol.
pub open spec fn stands_for_nothing(symbols: Symbols, symbol: Seq<char>) -> bool {
    forall|j: int| 0 <= j < symbols.entries@.len() ==> (#[trigger] symbols.entries@[j]).0@ != symbol
}

/// Whether a word is read as a number.
pub open spec fn reads(readings: Seq<Result<i64, String>>, i: int, n: i64) -> bool {
    0 <= i < readings.len() && readings[i] == Ok::<i64, String>(n)
}

/// Whether the words behind the timestamp say that this happened, and nothing more.
pub open spec fn says(
    words: Seq<Seq<char>>,
    readings: Seq<Result<i64, String>>,
    kind: MarketKind,
) -> bool {
    match kind {
        MarketKind::Quote { bid_px, bid_qty, ask_px, ask_qty } => {
            &&& words.len() == 7
            &&& words[0] == seq!['Q']
            &&& reads(readings, 3, bid_px.0)
            &&& reads(readings, 4, bid_qty.0)
            &&& reads(readings, 5, ask_px.0)
            &&& reads(readings, 6, ask_qty.0)
        },
        MarketKind::Trade { px, qty, aggressor } => {
            &&& words.len() == 6
            &&& words[0] == seq!['T']
            &&& reads(readings, 3, px.0)
            &&& reads(readings, 4, qty.0)
            &&& aggressor == Side::Buy <==> words[5] == seq!['B']
            &&& aggressor == Side::Sell <==> words[5] == seq!['S']
        },
        MarketKind::Level { side, px, qty } => {
            &&& words.len() == 6
            &&& words[0] == seq!['L']
            &&& side == Side::Buy <==> words[3] == seq!['B']
            &&& side == Side::Sell <==> words[3] == seq!['S']
            &&& reads(readings, 4, px.0)
            &&& reads(readings, 5, qty.0)
        },
        MarketKind::BookApplied => words.len() == 3 && words[0] == seq!['A'],
        MarketKind::BookReset => words.len() == 3 && words[0] == seq!['R'],
    }
}

proof fn letters_are_words()
    ensures
        "Q"@ == seq!['Q'],
        "T"@ == seq!['T'],
        "L"@ == seq!['L'],
        "A"@ == seq!['A'],
        "R"@ == seq!['R'],
        "B"@ == seq!['B'],
        "S"@ == seq!['S'],
        seq!['B'] != seq!['S'],
        seq!['Q'] != seq!['T'],
        seq!['Q'] != seq!['L'],
        seq!['Q'] != seq!['A'],
        seq!['Q'] != seq!['R'],
        seq!['T'] != seq!['L'],
        seq!['T'] != seq!['A'],
        seq!['T'] != seq!['R'],
        seq!['L'] != seq!['A'],
        seq!['L'] != seq!['R'],
        seq!['A'] != seq!['R'],
{
    reveal_strlit("Q");
    reveal_strlit("T");
    reveal_strlit("L");
    reveal_strlit("A");
    reveal_strlit("R");
    reveal_strlit("B");
    reveal_strlit("S");
    assert("Q"@ =~= seq!['Q']);
    assert("T"@ =~= seq!['T']);
    assert("L"@ =~= seq!['L']);
    assert("A"@ =~= seq!['A']);
    assert("R"@ =~= seq!['R']);
    assert("B"@ =~= seq!['B']);
    assert("S"@ =~= seq!['S']);
    assert(seq!['Q'][0] == 'Q' && seq!['T'][0] == 'T' && seq!['L'][0] == 'L' && seq!['A'][0] == 'A'
        && seq!['R'][0] == 'R' && seq!['B'][0] == 'B' && seq!['S'][0] == 'S');
}

proof fn lookup_finds_the_first(
    entries: Seq<(String, InstrumentId)>,
    symbol: Seq<char>,
    from: int,
    k: int,
)
    requires
        0 <= from <= k < entries.len(),
        entries[k].0@ == symbol,
        forall|j: int| from <= j < k ==> (#[trigger] entries[j]).0@ != symbol,
    ensures
        live::symbol_lookup(entries, symbol, from) == Some(entries[k].1),
    decreases k - from,
{
    if from < k {
        assert(entries[from].0@ != symbol);
        lookup_finds_the_first(entries, symbol, from + 1, k);
    }
}

proof fn lookup_is_first(entries: Seq<(String, InstrumentId)>, symbol: Seq<char>, from: int) -> (k:
    int)
    requires
        0 <= from <= entries.len(),
    ensures
        live::symbol_lookup(entries, symbol, from) is None ==> forall|j: int|
            from <= j < entries.len() ==> (#[trigger] entries[j]).0@ != symbol,
        live::symbol_lookup(entries, symbol, from) is Some ==> {
            &&& from <= k < entries.len()
            &&& entries[k].0@ == symbol
            &&& Some(entries[k].1) == live::symbol_lookup(entries, symbol, from)
            &&& forall|j: int| from <= j < k ==> (#[trigger] entries[j]).0@ != symbol
        },
    decreases entries.len() - from,
{
    if from >= entries.len() || entries[from].0@ == symbol {
        from
    } else {
        lookup_is_first(entries, symbol, from + 1)
    }
}

/// What a line that was read means: its first word is the letter of the event's
/// kind, the symbol stands for its instrument, the timestamp is its venue time, each
/// number is the one that stands in its place, a side is a sale exactly where its
/// word is `S` and a purchase exactly where it is `B`, no word is left over, and the
/// receive time is the one supplied.
pub proof fn lines_mean_what_they_say(
    line: &str,
    number: u64,
    symbols: &Symbols,
    receive_time: ReceiveTime,
    readings: &[Result<i64, String>],
    event: MarketEvent,
)
    requires
        readings@.len() == words::fields_of(line@).len(),
        call_ensures(
            parse_line,
            (line, number, symbols, receive_time, readings),
            Ok::<Option<MarketEvent>, FeedError>(Some(event)),
        ),
    ensures
        words::fields_of(line@).len() >= 3,
        stands_for(*symbols, words::fields_of(line@)[1], event.instrument),
        words::int_of(words::fields_of(line@)[2], true) == Some(event.exchange_time.0 as int),
        says(words::fields_of(line@), readings@, event.kind),
        event.receive_time == receive_time,
{
    letters_are_words();
    let words = words::fields_of(line@);
    if words.len() >= 2 {
        let k = lookup_is_first(symbols.entries@, words[1], 0);
    }
}

/// Which lines say nothing: those without a word, and those whose first word starts
/// with a number sign; no other.
pub proof fn blank_lines_and_comments_say_nothing(
    line: &str,
    number: u64,
    symbols: &Symbols,
    receive_time: ReceiveTime,
    readings: &[Result<i64, String>],
    event: Result<Option<MarketEvent>, FeedError>,
)
    requires
        readings@.len() == words::fields_of(line@).len(),
        call_ensures(parse_line, (line, number, symbols, receive_time, readings), event),
    ensures
        event matches Ok(None) <==> words::fields_of(line@).len() == 0 || words::fields_of(
            line@,
        )[0][0] == '#',
{
}

/// Every line that says that something happened is read, as that: where its symbol
/// stands for an instrument, its timestamp is a number of nanoseconds that can be
/// told, and its words say what happened and nothing more.
pub proof fn well_formed_lines_are_read(
    line: &str,
    number: u64,
    symbols: &Symbols,
    readings: &[Result<i64, String>],
    event: MarketEvent,
    read: Result<Option<MarketEvent>, FeedError>,
)
    requires
        readings@.len() == words::fields_of(line@).len(),
        words::fields_of(line@).len() >= 3,
        stands_for(*symbols, words::fields_of(line@)[1], event.instrument),
        words::int_of(words::fields_of(line@)[2], true) == Some(event.exchange_time.0 as int),
        says(words::fields_of(line@), readings@, event.kind),
        call_ensures(
            parse_line,
            (line, number, symbols, event.receive_time, readings),
            read,
        ),
    ensures
        read == Ok::<Option<MarketEvent>, FeedError>(Some(event)),
{
    letters_are_words();
    let words = words::fields_of(line@);
    let k = choose|k: int|
        {
            &&& 0 <= k < symbols.entries@.len()
            &&& #[trigger] symbols.entries@[k].0@ == words[1]
            &&& symbols.entries@[k].1 == event.instrument
            &&& forall|j: int| 0 <= j < k ==> (#[trigger] symbols.entries@[j]).0@ != words[1]
        };
    lookup_finds_the_first(symbols.entries@, words[1], 0, k);
    assert(words[0][0] != '#');
}

/// Writing an event in the protocol and reading the line gives the event back,
/// whatever white space its words are set apart by, and whichever way its numbers
/// are written, where they are read as they were written.
pub proof fn written_events_read_back(
    event: MarketEvent,
    symbol: Seq<char>,
    spelled: spec_fn(i64) -> Seq<char>,
    gaps: Seq<Seq<char>>,
    line: &str,
    number: u64,
    symbols: &Symbols,
    readings: &[Result<i64, String>],
    read: Result<Option<MarketEvent>, FeedError>,
)
    requires
        words::is_word(symbol),
        stands_for(*symbols, symbol, event.instrument),
        forall|n: i64| words::is_word(#[trigger] spelled(n)),
        words::keep_apart(gaps, written(event, symbol, spelled).len() as int),
        line@ == words::spread(written(event, symbol, spelled), gaps),
        readings@.len() == written(event, symbol, spelled).len(),
        forall|i: int, n: i64|
            #![trigger readings@[i], spelled(n)]
            3 <= i < readings@.len() && written(event, symbol, spelled)[i] == spelled(n)
                ==> readings@[i] == Ok::<i64, String>(n),
        call_ensures(
            parse_line,
            (line, number, symbols, event.receive_time, readings),
            read,
        ),
    ensures
        read == Ok::<Option<MarketEvent>, FeedError>(Some(event)),
{
    letters_are_words();
    let all = written(event, symbol, spelled);
    words::decimals_read_back(event.exchange_time.0 as int);
    assert forall|i: int| 0 <= i < all.len() implies words::is_word(#[trigger] all[i]) by {
        let w = all[i];
        if i >= 3 {
            if w.len() == 1 && (w[0] == 'B' || w[0] == 'S') {
            }
        }
    }
    words::words_read_back(all, gaps);
    assert(says(all, readings@, event.kind)) by {
        if readings@.len() > 3 {
            assert(readings@[3] == readings@[3] && readings@[4] == readings@[4] && readings@[5]
                == readings@[5]);
        }
    }
    well_formed_lines_are_read(line, number, symbols, readings, event, read);
}

/// Whether a word of an event is to be a number, by the letter of its kind and its
/// place.
pub open spec fn is_number_place(letter: Seq<char>, i: int) -> bool {
    ||| letter == seq!['Q'] && 3 <= i <= 6
    ||| letter == seq!['T'] && 3 <= i <= 4
    ||| letter == seq!['L'] && 4 <= i <= 5
}

/// What a refusal says: always the number of the line, and where a symbol is unknown
/// or a number cannot be read, which: the symbol stands for nothing, and the reader
/// of decimals said so of a word that was to be a number.
pub proof fn refusals_point_at_the_line(
    line: &str,
    number: u64,
    symbols: &Symbols,
    receive_time: ReceiveTime,
    readings: &[Result<i64, String>],
    refusal: FeedError,
)
    requires
        readings@.len() == words::fields_of(line@).len(),
        call_ensures(
            parse_line,
            (line, number, symbols, receive_time, readings),
            Err::<Option<MarketEvent>, FeedError>(refusal),
        ),
    ensures
        match refusal@ {
            FaultView::Malformed { line: at, reason } => at == number,
            FaultView::UnknownSymbol { line: at, symbol } => {
                &&& at == number
                &&& words::fields_of(line@).len() >= 2
                &&& symbol == words::fields_of(line@)[1]
                &&& stands_for_nothing(*symbols, symbol)
            },
            FaultView::BadNumber { line: at, error } => {
                &&& at == number
                &&& exists|i: int|
                    {
                        &&& 0 <= i < readings@.len()
                        &&& is_number_place(words::fields_of(line@)[0], i)
                        &&& #[trigger] readings@[i] matches Err(e)
                        &&& e@ == error
                    }
            },
            FaultView::Source(_) => false,
        },
{
    letters_are_words();
    let words = words::fields_of(line@);
    if words.len() >= 2 {
        let k = lookup_is_first(symbols.entries@, words[1], 0);
    }
    if words.len() >= 3 {
        if words.len() > 3 {
            assert(readings@[3] == readings@[3]);
        }
        if words.len() > 4 {
            assert(readings@[4] == readings@[4]);
        }
        if words.len() > 5 {
            assert(readings@[5] == readings@[5]);
        }
        if words.len() > 6 {
            assert(readings@[6] == readings@[6]);
        }
    }
}

/// A symbol that stands for nothing is refused as that, whatever follows it.
pub proof fn unknown_symbols_are_refused(
    line: &str,
    number: u64,
    symbols: &Symbols,
    receive_time: ReceiveTime,
    readings: &[Result<i64, String>],
    read: Result<Option<MarketEvent>, FeedError>,
)
    requires
        readings@.len() == words::fields_of(line@).len(),
        words::fields_of(line@).len() >= 2,
        ({
            let letter = words::fields_of(line@)[0];
            letter == seq!['Q'] || letter == seq!['T'] || letter == seq!['L'] || letter == seq!['A']
                || letter == seq!['R']
        }),
        stands_for_nothing(*symbols, words::fields_of(line@)[1]),
        call_ensures(parse_line, (line, number, symbols, receive_time, readings), read),
    ensures
        read matches Err(e) && e@ == (FaultView::UnknownSymbol {
            line: number,
            symbol: words::fields_of(line@)[1],
        }),
{
    letters_are_words();
    let words = words::fields_of(line@);
    let k = lookup_is_first(symbols.entries@, words[1], 0);
    assert(words[0][0] != '#');
}

/// What is missing from a quote, a trade or a level that is cut short behind so many
/// words.
pub open spec fn missing(letter: Seq<char>, count: int) -> Seq<char> {
    if letter == seq!['Q'] {
        if count == 3 {
            "no bid price"@
        } else if count == 4 {
            "no bid quantity"@
        } else if count == 5 {
            "no ask price"@
        } else {
            "no ask quantity"@
        }
    } else if letter == seq!['T'] {
        if count == 3 {
            "no trade price"@
        } else if count == 4 {
            "no trade quantity"@
        } else {
            "aggressor must be B or S"@
        }
    } else {
        if count == 3 {
            "level side must be B or S"@
        } else if count == 4 {
            "no level price"@
        } else {
            "no level quantity"@
        }
    }
}

/// A line that is cut short is refused with what it lacks first, and one that goes on
/// with what should not be there: where everything up to there is in order.
pub proof fn lines_of_the_wrong_length_are_refused(
    line: &str,
    number: u64,
    symbols: &Symbols,
    receive_time: ReceiveTime,
    readings: &[Result<i64, String>],
    read: Result<Option<MarketEvent>, FeedError>,
    instrument: InstrumentId,
    at: i64,
)
    requires
        readings@.len() == words::fields_of(line@).len(),
        words::fields_of(line@).len() >= 3,
        stands_for(*symbols, words::fields_of(line@)[1], instrument),
        words::int_of(words::fields_of(line@)[2], true) == Some(at as int),
        forall|i: int|
            0 <= i < readings@.len() && is_number_place(words::fields_of(line@)[0], i)
                ==> #[trigger] readings@[i] is Ok,
        ({
            let words = words::fields_of(line@);
            ||| words[0] == seq!['Q'] && words.len() != 7
            ||| words[0] == seq!['T'] && words.len() != 6 && (words.len() > 5 ==> words[5]
                == seq!['B'] || words[5] == seq!['S'])
            ||| words[0] == seq!['L'] && words.len() != 6 && (words.len() > 3 ==> words[3]
                == seq!['B'] || words[3] == seq!['S'])
            ||| (words[0] == seq!['A'] || words[0] == seq!['R']) && words.len() != 3
        }),
        call_ensures(parse_line, (line, number, symbols, receive_time, readings), read),
    ensures
        ({
            let words = words::fields_of(line@);
            let full = if words[0] == seq!['Q'] {
                7int
            } else if words[0] == seq!['T'] || words[0] == seq!['L'] {
                6
            } else {
                3
            };
            let reason = if words.len() > full {
                "trailing fields"@
            } else {
                missing(words[0], words.len() as int)
            };
            read matches Err(e) && e@ == (FaultView::Malformed { line: number, reason })
        }),
{
    letters_are_words();
    let words = words::fields_of(line@);
    let k = choose|k: int|
        {
            &&& 0 <= k < symbols.entries@.len()
            &&& #[trigger] symbols.entries@[k].0@ == words[1]
            &&& symbols.entries@[k].1 == instrument
            &&& forall|j: int| 0 <= j < k ==> (#[trigger] symbols.entries@[j]).0@ != words[1]
        };
    lookup_finds_the_first(symbols.entries@, words[1], 0, k);
    assert(words[0][0] != '#');
    if words.len() > 3 {
        assert(readings@[3] == readings@[3]);
    }
    if words.len() > 4 {
        assert(readings@[4] == readings@[4]);
    }
    if words.len() > 5 {
        assert(readings@[5] == readings@[5]);
    }
    if words.len() > 6 {
        assert(readings@[6] == readings@[6]);
    }
}

// ---- operator commands -----------------------------------------------------
/// The word of a command.
pub open spec fn command_word(command: Command) -> Seq<char> {
    match command {
        Command::Halt => seq!['h', 'a', 'l', 't'],
        Command::Resume => seq!['r', 'e', 's', 'u', 'm', 'e'],
        Command::Kill => seq!['k', 'i', 'l', 'l'],
        Command::Flatten => seq!['f', 'l', 'a', 't', 't', 'e', 'n'],
    }
}

/// Whether two texts have the same letters, in whatever case.
pub open spec fn same_letters(a: Seq<char>, b: Seq<char>) -> bool {
    &&& a.len() == b.len()
    &&& forall|i: int|
        0 <= i < a.len() ==> {
            ||| #[trigger] a[i] == b[i]
            ||| 'a' as u32 <= b[i] as u32 <= 'z' as u32 && a[i] as u32 - 'A' as u32 == b[i] as u32 - 'a' as u32
        }
}

proof fn command_words()
    ensures
        "halt"@ == command_word(Command::Halt),
        "resume"@ == command_word(Command::Resume),
        "kill"@ == command_word(Command::Kill),
        "flatten"@ == command_word(Command::Flatten),
        command_word(Command::Halt) != command_word(Command::Kill),
        command_word(Command::Halt).len() == 4,
        command_word(Command::Kill).len() == 4,
        command_word(Command::Resume).len() == 6,
        command_word(Command::Flatten).len() == 7,
{
    reveal_strlit("halt");
    reveal_strlit("resume");
    reveal_strlit("kill");
    reveal_strlit("flatten");
    assert("halt"@ =~= command_word(Command::Halt));
    assert("resume"@ =~= command_word(Command::Resume));
    assert("kill"@ =~= command_word(Command::Kill));
    assert("flatten"@ =~= command_word(Command::Flatten));
    assert(command_word(Command::Halt)[0] == 'h');
    assert(command_word(Command::Kill)[0] == 'k');
}

/// An operator's command is read in any case, with any white space around it.
pub proof fn commands_are_read_in_any_case(
    command: Command,
    word: Seq<char>,
    before: Seq<char>,
    behind: Seq<char>,
    line: &str,
    read: ControlWord,
)
    requires
        words::is_blank(before),
        words::is_blank(behind),
        same_letters(word, command_word(command)),
        line@ == before + word + behind,
        call_ensures(command_of, (line,), read),
    ensures
        read == ControlWord::Command(command),
{
    command_words();
    let name = command_word(command);
    assert forall|i: int| 0 <= i < word.len() implies !words::is_space(#[trigger] word[i])
        && words::lower(word[i]) == name[i] by {
        assert('a' as u32 <= name[i] as u32 <= 'z' as u32);
    }
    words::trimming_finds_what_is_inside(before, word, behind);
    assert(live::lowered(word) =~= name);
}

/// Only a command's word is read as that command, only white space as nothing, and
/// anything else is handed back.
pub proof fn only_command_words_command(line: &str, read: ControlWord, inside: Seq<char>)
    requires
        inside == words::trimmed(line@),
        call_ensures(command_of, (line,), read),
    ensures
        match read {
            ControlWord::Command(command) => same_letters(inside, command_word(command)),
            ControlWord::Blank => inside.len() == 0,
            ControlWord::Unknown(other) => {
                &&& inside.len() > 0
                &&& same_letters(inside, other@)
                &&& forall|command: Command| !same_letters(inside, #[trigger] command_word(command))
            },
        },
{
    command_words();
    let said = live::lowered(inside);
    assert forall|i: int| 0 <= i < inside.len() implies ({
        ||| #[trigger] inside[i] == said[i]
        ||| 'a' as u32 <= said[i] as u32 <= 'z' as u32 && inside[i] as u32 - 'A' as u32 == said[i] as u32 - 'a' as u32
    }) by {
        words::lower_case_is_the_same_letter(inside[i]);
    }
    if read is Unknown {
        assert forall|command: Command| !same_letters(inside, #[trigger] command_word(command)) by {
            if same_letters(inside, command_word(command)) {
                let name = command_word(command);
                assert forall|i: int| 0 <= i < said.len() implies said[i] == name[i] by {
                    assert('a' as u32 <= name[i] as u32 <= 'z' as u32);
                    assert(inside[i] == inside[i]);
                }
                assert(said =~= name);
            }
        }
    }
}

// ---- the feed --------------------------------------------------------------
/// A timer is due when the venue's clock, moved on from the last market event by the
/// time that passed here since, has reached it. Before any market event none is.
pub open spec fn is_due(feed: LiveView, request: TimerRequest, now: ReceiveTime) -> bool {
    match feed.last_seen {
        None => false,
        Some((exchange, receive)) => {
            let at = exchange.0 + now.0 - receive.0;
            at >= request.at.0 || at < i64::MIN
        },
    }
}

/// A timer fires when it is due and no command waits, not before: the one in front,
/// as its strategy asked for it, and it is gone then. Where none is due the feed
/// waits for the market.
pub proof fn timers_fire_when_due(feed: LiveView, now: ReceiveTime)
    requires
        !feed.ended,
    ensures
        ({
            let (after, next) = feed.polled(None, now);
            if feed.timers.len() > 0 && is_due(feed, feed.timers[0], now) {
                &&& next matches Poll::Deliver(Inbound::Timer(fired))
                &&& fired.strategy == feed.timers[0].strategy
                &&& fired.token == feed.timers[0].token
                &&& fired.fires_at == feed.timers[0].at
                &&& fired.receive_time == now
                &&& seq![feed.timers[0]] + after.timers == feed.timers
                &&& after == (LiveView { timers: after.timers, ..feed })
            } else {
                &&& next == Poll::Wait
                &&& after == feed
            }
        }),
{
    if feed.timers.len() > 0 {
        assert(seq![feed.timers[0]] + feed.timers.drop_first() =~= feed.timers);
    }
}

/// What the market brings is handed on as it came, counted, and anchors the clocks;
/// what cannot be read ends the session with its reason, the end of the source ends
/// it without one; and where nothing came nothing changes.
pub proof fn arrivals_are_handed_on(feed: LiveView, arrival: ArrivalView)
    requires
        !feed.ended,
        feed.market_events < u64::MAX,
    ensures
        ({
            let (after, next) = feed.reached(arrival);
            &&& after.timers == feed.timers
            &&& after.commands_seen == feed.commands_seen
            &&& match arrival {
                ArrivalView::Event(e) => {
                    &&& next == Poll::Deliver(Inbound::Market(e))
                    &&& after.last_seen == Some((e.exchange_time, e.receive_time))
                    &&& after.market_events == feed.market_events + 1
                    &&& !after.ended && after.error == feed.error
                },
                ArrivalView::Fault(e) => {
                    &&& next == Poll::Ended && after.ended
                    &&& after.error == Some(e)
                    &&& after.market_events == feed.market_events
                },
                ArrivalView::Nothing => next == Poll::Wait && after == feed,
                ArrivalView::Closed => {
                    &&& next == Poll::Ended && after.ended
                    &&& after.error == feed.error
                    &&& after.market_events == feed.market_events
                },
            }
        }),
{
}

/// When a timer comes before another: it is for an earlier instant, or for the same
/// one and a strategy of a lower number, or for both the same and of a lower token.
pub open spec fn comes_before(a: TimerRequest, b: TimerRequest) -> bool {
    ||| a.at.0 < b.at.0
    ||| a.at.0 == b.at.0 && a.strategy.0 < b.strategy.0
    ||| a.at.0 == b.at.0 && a.strategy.0 == b.strategy.0 && a.token.0 < b.token.0
}

/// Timers are told apart and ordered by what was asked for: of two different ones
/// exactly one comes before the other, and that one is the one that fires first.
pub proof fn timers_are_in_one_order(a: TimerRequest, b: TimerRequest)
    ensures
        a == b || comes_before(a, b) || comes_before(b, a),
        comes_before(a, b) ==> timer::no_later(a, b) && !timer::no_later(b, a),
        a == b ==> timer::no_later(a, b),
{
}

/// Of the timers that were asked for, the one that is asked for first in time is the
/// one in front, and each comes out as often as it was asked for.
pub proof fn the_earliest_timer_is_in_front(timers: Seq<TimerRequest>, request: TimerRequest)
    requires
        timer::in_order(timers),
    ensures
        ({
            let after = timer::with_timer(timers, request);
            &&& after.len() == timers.len() + 1
            &&& after.to_multiset() == timers.to_multiset().insert(request)
            &&& forall|i: int| 0 < i < after.len() ==> !comes_before(#[trigger] after[i], after[0])
        }),
{
    timer::scheduling_keeps_order(timers, request);
    let after = timer::with_timer(timers, request);
    assert forall|i: int| 0 < i < after.len() implies !comes_before(#[trigger] after[i], after[0]) by {
        assert(timer::no_later(after[0], after[i]));
        timers_are_in_one_order(after[i], after[0]);
    }
}

/// A clock's reading is told as it is where there is a timestamp for it, and never
/// goes back where the clock does not.
pub proof fn clocks_are_told_as_they_are(
    a: u128,
    b: u128,
    told_a: MonotonicTime,
    told_b: MonotonicTime,
    wall_a: ReceiveTime,
    wall_b: ReceiveTime,
    before_epoch: ReceiveTime,
)
    requires
        a <= b,
        call_ensures(elapsed_time, (a,), told_a),
        call_ensures(elapsed_time, (b,), told_b),
        call_ensures(wall_time, (Some(a),), wall_a),
        call_ensures(wall_time, (Some(b),), wall_b),
        call_ensures(wall_time, (None,), before_epoch),
    ensures
        a <= i64::MAX ==> told_a.0 == a && wall_a.0 == a,
        told_a.0 <= told_b.0 && wall_a.0 <= wall_b.0,
        0 <= told_a.0 && before_epoch.0 == 0 && 0 <= wall_a.0,
{
}

} // verus!
