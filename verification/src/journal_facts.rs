//! What the journal shows of a recording, and under which names.
use vstd::prelude::*;

use crate::event::codec::{InstrumentEntry, LogHeader};
use crate::event::{Event, Inbound, Outbound, Record, Recovery, VenueEvent, VenueKind};
use crate::journal;
use crate::journal::{
    describe, millis, parse_args, Args, ArgsView, Books, BooksView, Fill, Line, Shown, Standing, Trade,
};
use crate::json;
use crate::json::MemberView;
use crate::report::{Holding, Lag, Refusal, Summary, Valuation, Working};
use crate::sim::Level;
use crate::text;
use crate::text::{Glyph, Text};
use crate::value::{ExchangeTime, InstrumentId, Notional, OrderId, Px, Qty, Side};
use crate::words;

verus! {

// ---- what was asked for ----------------------------------------------------
proof fn options_differ()
    ensures
        "--all"@.len() == 5,
        "--fills"@.len() == 7,
        "--curve"@.len() == 7,
        "--json"@.len() == 6,
        "--tail"@.len() == 6,
        "--from"@.len() == 6,
        "--to"@.len() == 4,
        "--fills"@[2] == 'f',
        "--curve"@[2] == 'c',
        "--json"@[2] == 'j',
        "--tail"@[2] == 't',
        "--from"@[2] == 'f',
{
    reveal_strlit("--all");
    reveal_strlit("--fills");
    reveal_strlit("--curve");
    reveal_strlit("--json");
    reveal_strlit("--tail");
    reveal_strlit("--from");
    reveal_strlit("--to");
}

proof fn reading_goes_on(
    words: Seq<Seq<char>>,
    more: Seq<Seq<char>>,
    i: int,
    args: ArgsView,
    read: ArgsView,
)
    requires
        0 <= i <= words.len(),
        journal::args_from(words, i, args) == Ok::<ArgsView, Seq<char>>(read),
    ensures
        journal::args_from(words + more, i, args) == journal::args_from(
            words + more,
            words.len() as int,
            read,
        ),
    decreases words.len() - i,
{
    if i < words.len() {
        let word = words[i];
        assert((words + more)[i] == word);
        if i + 1 < words.len() {
            assert((words + more)[i + 1] == words[i + 1]);
        }
        if word == "--all"@ {
            reading_goes_on(words, more, i + 1, ArgsView { shown: Shown::All, ..args }, read);
        } else if word == "--fills"@ {
            reading_goes_on(words, more, i + 1, ArgsView { shown: Shown::Fills, ..args }, read);
        } else if word == "--curve"@ {
            reading_goes_on(words, more, i + 1, ArgsView { shown: Shown::Curve, ..args }, read);
        } else if word == "--json"@ {
            reading_goes_on(words, more, i + 1, ArgsView { json: true, ..args }, read);
        } else if word == "--tail"@ {
            let n = journal::count_in(words[i + 1], usize::MAX as int)->Some_0;
            reading_goes_on(words, more, i + 2, ArgsView { tail: n as usize, ..args }, read);
        } else if word == "--from"@ {
            let n = journal::count_in(
                journal::without_marks(words[i + 1]),
                u64::MAX as int,
            )->Some_0;
            reading_goes_on(words, more, i + 2, ArgsView { from: n as u64, ..args }, read);
        } else if word == "--to"@ {
            let n = journal::count_in(
                journal::without_marks(words[i + 1]),
                u64::MAX as int,
            )->Some_0;
            reading_goes_on(words, more, i + 2, ArgsView { to: n as u64, ..args }, read);
        } else {
            reading_goes_on(words, more, i + 1, ArgsView { path: Some(word), ..args }, read);
        }
    }
}

proof fn numbers_have_no_marks(n: nat)
    ensures
        journal::without_marks(text::digits(n)) == text::digits(n),
        journal::without_marks(seq!['#'] + text::digits(n)) == text::digits(n),
{
    words::digits_read_back(n);
    let s = text::digits(n);
    assert(words::is_digit(s[0]));
    let marked = seq!['#'] + s;
    assert(marked.skip(1) =~= s);
    assert(marked[0] == '#');
}

/// An option that is added sets what it names, and nothing else: what is shown, that
/// it is JSON, how many fills, from which record on or up to which. A number of a
/// record may have its mark in front. A second recording is refused.
pub proof fn options_set_what_they_name(
    argv: &[String],
    all: &[String],
    more: Seq<Seq<char>>,
    n: u64,
    before: Args,
    read: Result<Args, String>,
)
    requires
        call_ensures(parse_args, (argv,), Ok::<Args, String>(before)),
        words::views(all@) == words::views(argv@) + more,
        call_ensures(parse_args, (all,), read),
    ensures
        more == seq!["--all"@] ==> (read matches Ok(a) && a@ == (ArgsView {
            shown: Shown::All,
            ..before@
        })),
        more == seq!["--fills"@] ==> (read matches Ok(a) && a@ == (ArgsView {
            shown: Shown::Fills,
            ..before@
        })),
        more == seq!["--curve"@] ==> (read matches Ok(a) && a@ == (ArgsView {
            shown: Shown::Curve,
            ..before@
        })),
        more == seq!["--json"@] ==> (read matches Ok(a) && a@ == (ArgsView {
            json: true,
            ..before@
        })),
        more == seq!["--tail"@, text::digits(n as nat)] && n <= usize::MAX ==> (read matches Ok(a)
            && a@ == (ArgsView { tail: n as usize, ..before@ })),
        more == seq!["--from"@, text::digits(n as nat)] || more == seq![
            "--from"@,
            seq!['#'] + text::digits(n as nat),
        ] ==> (read matches Ok(a) && a@ == (ArgsView { from: n, ..before@ })),
        more == seq!["--to"@, text::digits(n as nat)] || more == seq![
            "--to"@,
            seq!['#'] + text::digits(n as nat),
        ] ==> (read matches Ok(a) && a@ == (ArgsView { to: n, ..before@ })),
        more.len() == 1 && !(more[0].len() >= 2 && more[0][0] == '-' && more[0][1] == '-')
            ==> read is Err,
{
    let words = words::views(argv@);
    reading_goes_on(words, more, 0, journal::asked_for(), before@);
    numbers_have_no_marks(n as nat);
    words::digits_read_back(n as nat);
    let at = words.len() as int;
    if more.len() == 1 {
        assert((words + more)[at] == more[0]);
        last_word(words + more, at, before@);
    } else if more.len() == 2 {
        assert((words + more)[at] == more[0]);
        assert((words + more)[at + 1] == more[1]);
        last_pair(words + more, at, before@);
    }
}

proof fn last_word(words: Seq<Seq<char>>, at: int, args: ArgsView)
    requires
        0 <= at,
        words.len() == at + 1,
        args.path is Some,
    ensures
        ({
            let read = journal::args_from(words, at, args);
            let word = words[at];
            &&& word == "--all"@ ==> read == Ok::<ArgsView, Seq<char>>(
                ArgsView { shown: Shown::All, ..args },
            )
            &&& word == "--fills"@ ==> read == Ok::<ArgsView, Seq<char>>(
                ArgsView { shown: Shown::Fills, ..args },
            )
            &&& word == "--curve"@ ==> read == Ok::<ArgsView, Seq<char>>(
                ArgsView { shown: Shown::Curve, ..args },
            )
            &&& word == "--json"@ ==> read == Ok::<ArgsView, Seq<char>>(
                ArgsView { json: true, ..args },
            )
            &&& !journal::is_option(word) ==> read is Err
        }),
{
    options_differ();
    options_are_options();
    reveal_with_fuel(journal::args_from, 2);
}

proof fn last_pair(words: Seq<Seq<char>>, at: int, args: ArgsView)
    requires
        0 <= at,
        words.len() == at + 2,
        args.path is Some,
    ensures
        ({
            let read = journal::args_from(words, at, args);
            let word = words[at];
            let count = journal::count_in(words[at + 1], usize::MAX as int);
            let record = journal::count_in(journal::without_marks(words[at + 1]), u64::MAX as int);
            &&& word == "--tail"@ && count is Some ==> read == Ok::<ArgsView, Seq<char>>(
                ArgsView { tail: count->Some_0 as usize, ..args },
            )
            &&& word == "--from"@ && record is Some ==> read == Ok::<ArgsView, Seq<char>>(
                ArgsView { from: record->Some_0 as u64, ..args },
            )
            &&& word == "--to"@ && record is Some ==> read == Ok::<ArgsView, Seq<char>>(
                ArgsView { to: record->Some_0 as u64, ..args },
            )
        }),
{
    options_differ();
    reveal_with_fuel(journal::args_from, 2);
}

proof fn options_are_options()
    ensures
        journal::is_option("--all"@),
        journal::is_option("--fills"@),
        journal::is_option("--curve"@),
        journal::is_option("--json"@),
        journal::is_option("--tail"@),
        journal::is_option("--from"@),
        journal::is_option("--to"@),
{
    reveal_strlit("--all");
    reveal_strlit("--fills");
    reveal_strlit("--curve");
    reveal_strlit("--json");
    reveal_strlit("--tail");
    reveal_strlit("--from");
    reveal_strlit("--to");
}

/// Where only a recording is named, its decisions are shown, from the first record to
/// the last, as a table; JSON would hold two thousand fills.
pub proof fn a_recording_is_enough(argv: &[String], read: Result<Args, String>)
    requires
        argv@.len() == 1,
        !(argv@[0]@.len() >= 2 && argv@[0]@[0] == '-' && argv@[0]@[1] == '-'),
        call_ensures(parse_args, (argv,), read),
    ensures
        read matches Ok(a) && a.path@ == argv@[0]@ && a.shown == Shown::Decisions && a.from == 0
            && a.to == u64::MAX && !a.json && a.tail == 2_000,
{
    reveal_with_fuel(journal::args_from, 2);
    options_are_options();
    let words = words::views(argv@);
    assert(words[0] == argv@[0]@);
    assert(words.len() == 1);
}

// ---- what a line shows -----------------------------------------------------
/// The values that stand in a line, in order.
pub open spec fn values(line: Seq<Glyph>) -> Seq<Glyph>
    decreases line.len(),
{
    if line.len() == 0 {
        Seq::empty()
    } else {
        let before = values(line.drop_last());
        match line.last() {
            Glyph::Letter(_) | Glyph::Right(_) => before,
            value => before.push(value),
        }
    }
}

proof fn values_are_their_own(g: Glyph)
    ensures
        values(seq![g]) == match g {
            Glyph::Letter(_) | Glyph::Right(_) => Seq::<Glyph>::empty(),
            _ => seq![g],
        },
{
    assert(seq![g].drop_last() =~= Seq::empty());
    assert(values(seq![g].drop_last()) =~= Seq::empty());
    assert(values(seq![g]) =~= match g {
        Glyph::Letter(_) | Glyph::Right(_) => Seq::<Glyph>::empty(),
        _ => seq![g],
    });
}

/// A value in a column is that value.
pub proof fn columns_hold_their_value(width: usize, g: Glyph)
    requires
        !(g is Letter),
        !(g is Right),
    ensures
        values(seq![Glyph::Right(width), g]) == seq![g],
{
    assert(seq![Glyph::Right(width), g] =~= seq![Glyph::Right(width)] + seq![g]);
    values_of_sum(seq![Glyph::Right(width)], seq![g]);
    values_are_their_own(Glyph::Right(width));
    values_are_their_own(g);
    assert(values(seq![Glyph::Right(width), g]) =~= seq![g]);
}

/// Which figures a fill's rows show, and in which order: what traded, at which price
/// and fee, the position that it left, and what was realized; in the curve also in
/// all.
#[verifier::rlimit(60)]
pub proof fn fills_show_their_figures(fill: Fill, symbols: &[String], row: Text, point: Text)
    requires
        call_ensures(Fill::table_row, (&fill, symbols), row),
        call_ensures(Fill::curve_row, (&fill, symbols), point),
    ensures
        values(row@) == seq![
            Glyph::Qty(fill.trade.qty),
            Glyph::Px(fill.trade.px),
            Glyph::Money(fill.trade.fee),
            Glyph::Qty(fill.position),
            Glyph::Money(fill.realized),
        ],
        values(point@) == seq![
            Glyph::Qty(fill.trade.qty),
            Glyph::Px(fill.trade.px),
            Glyph::Money(fill.trade.fee),
            Glyph::Qty(fill.position),
            Glyph::Money(fill.realized),
            Glyph::Money(fill.total_realized),
        ],
{
    broadcast use {values_of_sum, values_of_letters};

    let t = fill.trade;
    columns_hold_their_value(16, Glyph::Qty(t.qty));
    columns_hold_their_value(18, Glyph::Px(t.px));
    columns_hold_their_value(14, Glyph::Money(t.fee));
    columns_hold_their_value(16, Glyph::Qty(fill.position));
    columns_hold_their_value(18, Glyph::Money(fill.realized));
    values_are_their_own(Glyph::Qty(t.qty));
    values_are_their_own(Glyph::Px(t.px));
    values_are_their_own(Glyph::Money(t.fee));
    values_are_their_own(Glyph::Qty(fill.position));
    values_are_their_own(Glyph::Money(fill.realized));
    values_are_their_own(Glyph::Money(fill.total_realized));
    assert(values(row@) =~= seq![
        Glyph::Qty(fill.trade.qty),
        Glyph::Px(fill.trade.px),
        Glyph::Money(fill.trade.fee),
        Glyph::Qty(fill.position),
        Glyph::Money(fill.realized),
    ]);
    assert(values(point@) =~= seq![
        Glyph::Qty(fill.trade.qty),
        Glyph::Px(fill.trade.px),
        Glyph::Money(fill.trade.fee),
        Glyph::Qty(fill.position),
        Glyph::Money(fill.realized),
        Glyph::Money(fill.total_realized),
    ]);
}

pub broadcast proof fn values_of_sum(a: Seq<Glyph>, b: Seq<Glyph>)
    ensures
        #[trigger] values(a + b) == values(a) + values(b),
    decreases b.len(),
{
    if b.len() == 0 {
        assert(a + b =~= a);
        assert(values(a) + values(b) =~= values(a));
    } else {
        values_of_sum(a, b.drop_last());
        assert((a + b).drop_last() =~= a + b.drop_last());
        assert((a + b).last() == b.last());
        assert(values(a + b) =~= values(a) + values(b));
    }
}

broadcast proof fn values_of_letters(s: Seq<char>)
    ensures
        #[trigger] values(journal::written(s)) == Seq::<Glyph>::empty(),
    decreases s.len(),
{
    if s.len() > 0 {
        values_of_letters(s.drop_last());
        assert(journal::written(s.drop_last()) == text::glyphs_of(s.drop_last()));
        let all = text::glyphs_of(s);
        assert(all.drop_last() =~= text::glyphs_of(s.drop_last()));
    }
}

/// The characters that stand in a line, without its values.
pub open spec fn letters(line: Seq<Glyph>) -> Seq<char>
    decreases line.len(),
{
    if line.len() == 0 {
        Seq::empty()
    } else {
        let before = letters(line.drop_last());
        match line.last() {
            Glyph::Letter(c) => before.push(c),
            _ => before,
        }
    }
}

broadcast proof fn letters_of_sum(a: Seq<Glyph>, b: Seq<Glyph>)
    ensures
        #[trigger] letters(a + b) == letters(a) + letters(b),
    decreases b.len(),
{
    if b.len() == 0 {
        assert(a + b =~= a);
        assert(letters(a) + letters(b) =~= letters(a));
    } else {
        letters_of_sum(a, b.drop_last());
        assert((a + b).drop_last() =~= a + b.drop_last());
        assert((a + b).last() == b.last());
        assert(letters(a + b) =~= letters(a) + letters(b));
    }
}

broadcast proof fn letters_of_letters(s: Seq<char>)
    ensures
        #[trigger] letters(journal::written(s)) == s,
    decreases s.len(),
{
    if s.len() > 0 {
        letters_of_letters(s.drop_last());
        let all = text::glyphs_of(s);
        assert(all.drop_last() =~= text::glyphs_of(s.drop_last()));
        assert(letters(all) =~= s);
    } else {
        assert(letters(journal::written(s)) =~= s);
    }
}

pub broadcast proof fn values_of_one(g: Glyph)
    requires
        !(g is Letter),
        !(g is Right),
    ensures
        #[trigger] values(seq![g]) == seq![g],
{
    values_are_their_own(g);
}

broadcast proof fn letters_of_one(g: Glyph)
    requires
        !(g is Letter),
    ensures
        #[trigger] letters(seq![g]) == Seq::<char>::empty(),
{
    assert(seq![g].drop_last() =~= Seq::empty());
    assert(letters(seq![g].drop_last()) =~= Seq::empty());
}

/// Which figures a decision has, in the order that they are shown.
pub open spec fn decision_values(out: Outbound) -> Seq<Glyph> {
    match out {
        Outbound::OrderSubmitted { order, qty, kind, .. } => match kind {
            crate::event::OrderKind::Market => seq![Glyph::Order(order), Glyph::Qty(qty)],
            crate::event::OrderKind::Limit(px) => seq![
                Glyph::Order(order),
                Glyph::Qty(qty),
                Glyph::Px(px),
            ],
        },
        Outbound::CancelSubmitted { order, .. } => seq![Glyph::Order(order)],
        Outbound::IntentRejected { qty, .. } => seq![Glyph::Qty(qty)],
        Outbound::StateChanged { .. } | Outbound::TimerRequested { .. } => Seq::empty(),
    }
}

/// Which figures market data has, in the order that they are shown: the bid before
/// the ask, and a level that is gone without a quantity.
pub open spec fn market_values(kind: crate::event::MarketKind) -> Seq<Glyph> {
    match kind {
        crate::event::MarketKind::Quote { bid_px, bid_qty, ask_px, ask_qty } => seq![
            Glyph::Px(bid_px),
            Glyph::Qty(bid_qty),
            Glyph::Px(ask_px),
            Glyph::Qty(ask_qty),
        ],
        crate::event::MarketKind::Trade { px, qty, .. } => seq![Glyph::Qty(qty), Glyph::Px(px)],
        crate::event::MarketKind::Level { px, qty, .. } => if qty.0 == 0 {
            seq![Glyph::Px(px)]
        } else {
            seq![Glyph::Px(px), Glyph::Qty(qty)]
        },
        crate::event::MarketKind::BookApplied | crate::event::MarketKind::BookReset => Seq::empty(),
    }
}

#[verifier::spinoff_prover]
#[verifier::rlimit(40)]
proof fn decisions_show(out: Outbound)
    ensures
        values(journal::decision_words(out)) == decision_values(out),
        out matches Outbound::StateChanged { from, to, reason, .. } ==> letters(
            journal::decision_words(out),
        ) == from.label() + " -> "@ + to.label() + " ("@ + reason.label() + ")"@,
        out matches Outbound::IntentRejected { side, reason, .. } ==> letters(
            journal::decision_words(out),
        ) == side.label() + " "@ + " — "@ + reason.label(),
        out matches Outbound::OrderSubmitted { side, kind, reduce_only, .. } ==> letters(
            journal::decision_words(out),
        ) == " "@ + side.label() + " "@ + " "@ + (if kind is Market {
            "market"@
        } else {
            "limit "@
        }) + (if reduce_only {
            "  reduce-only"@
        } else {
            ""@
        }),
{
    broadcast use {
        values_of_sum,
        values_of_letters,
        values_of_one,
        letters_of_sum,
        letters_of_letters,
        letters_of_one,
    };

    reveal_strlit("");
    assert(letters(Seq::<Glyph>::empty()) =~= ""@);
    assert(values(journal::decision_words(out)) =~= decision_values(out));
    let l = letters(journal::decision_words(out));
    if let Outbound::StateChanged { from, to, reason, .. } = out {
        assert(l =~= from.label() + " -> "@ + to.label() + " ("@ + reason.label() + ")"@);
    }
    if let Outbound::IntentRejected { side, reason, .. } = out {
        assert(l =~= side.label() + " "@ + " — "@ + reason.label());
    }
    if let Outbound::OrderSubmitted { side, kind, reduce_only, .. } = out {
        assert(l =~= " "@ + side.label() + " "@ + " "@ + (if kind is Market {
            "market"@
        } else {
            "limit "@
        }) + (if reduce_only {
            "  reduce-only"@
        } else {
            ""@
        }));
    }
}

#[verifier::spinoff_prover]
#[verifier::rlimit(40)]
proof fn inputs_show(input: Inbound)
    ensures
        input matches Inbound::Market(m) ==> values(journal::market_words(m.kind))
            == market_values(m.kind),
        input matches Inbound::Venue(v) ==> values(journal::venue_words(v)) == seq![
            Glyph::Order(v.order),
        ] + (match v.kind {
            crate::event::VenueKind::Filled { px, qty, fee } => seq![
                Glyph::Qty(qty),
                Glyph::Px(px),
                Glyph::Money(fee),
            ],
            _ => Seq::empty(),
        }),
        input matches Inbound::VenuePosition(p) ==> values(
            journal::written("venue says "@) + seq![Glyph::Qty(p.venue_qty)],
        ) == seq![Glyph::Qty(p.venue_qty)],
{
    broadcast use {values_of_sum, values_of_letters, values_of_one};

    if let Inbound::Market(m) = input {
        assert(values(journal::market_words(m.kind)) =~= market_values(m.kind));
    }
    if let Inbound::Venue(v) = input {
        assert(values(journal::venue_words(v)) =~= seq![Glyph::Order(v.order)] + (match v.kind {
            crate::event::VenueKind::Filled { px, qty, fee } => seq![
                Glyph::Qty(qty),
                Glyph::Px(px),
                Glyph::Money(fee),
            ],
            _ => Seq::empty(),
        }));
    }
    if let Inbound::VenuePosition(p) = input {
        assert(values(journal::written("venue says "@) + seq![Glyph::Qty(p.venue_qty)]) =~= seq![
            Glyph::Qty(p.venue_qty),
        ]);
    }
}

/// What a record's line says. Market data and timers show only where every record
/// does; anything else always does. A line has the record's own figures, in order,
/// the symbol of its instrument where it has one, and the cause that a decision
/// names.
pub proof fn lines_show_what_was_recorded(
    record: Record,
    symbols: &[String],
    shown: Shown,
    line: Option<Line>,
)
    requires
        call_ensures(describe, (&record, symbols, shown), line),
    ensures
        line is None <==> shown != Shown::All && match record.event {
            Event::In(Inbound::Market(_)) | Event::In(Inbound::Timer(_)) => true,
            Event::Out(Outbound::TimerRequested { .. }) => true,
            _ => false,
        },
        line matches Some(l) ==> match record.event {
            Event::Out(out) => {
                &&& values(l.what@) == decision_values(out)
                &&& l.caused_by == Some(
                    match out {
                        Outbound::OrderSubmitted { caused_by, .. } => caused_by,
                        Outbound::CancelSubmitted { caused_by, .. } => caused_by,
                        Outbound::IntentRejected { caused_by, .. } => caused_by,
                        Outbound::StateChanged { caused_by, .. } => caused_by,
                        Outbound::TimerRequested { caused_by, .. } => caused_by,
                    },
                )
                &&& l.kind@ == match out {
                    Outbound::OrderSubmitted { .. } => "order"@,
                    Outbound::CancelSubmitted { .. } => "cancel"@,
                    Outbound::IntentRejected { .. } => "refused"@,
                    Outbound::StateChanged { .. } => "state"@,
                    Outbound::TimerRequested { .. } => "timer"@,
                }
                &&& match out {
                    Outbound::OrderSubmitted { instrument, .. }
                    | Outbound::IntentRejected { instrument, .. } => instrument.0 < symbols@.len()
                        ==> l.instrument@ == symbols@[instrument.0 as int]@,
                    _ => l.instrument@.len() == 0,
                }
                &&& out matches Outbound::StateChanged { from, to, reason, .. } ==> letters(
                    l.what@,
                ) == from.label() + " -> "@ + to.label() + " ("@ + reason.label() + ")"@
            },
            Event::In(input) => {
                &&& l.caused_by is None
                &&& match input {
                    Inbound::Market(m) => {
                        &&& l.kind@ == "market"@
                        &&& values(l.what@) == market_values(m.kind)
                        &&& m.instrument.0 < symbols@.len() ==> l.instrument@
                            == symbols@[m.instrument.0 as int]@
                    },
                    Inbound::Venue(v) => {
                        &&& l.kind@ == "venue"@
                        &&& values(l.what@) == seq![Glyph::Order(v.order)] + (match v.kind {
                            crate::event::VenueKind::Filled { px, qty, fee } => seq![
                                Glyph::Qty(qty),
                                Glyph::Px(px),
                                Glyph::Money(fee),
                            ],
                            _ => Seq::empty(),
                        })
                    },
                    Inbound::VenuePosition(p) => {
                        &&& l.kind@ == "recon"@
                        &&& values(l.what@) == seq![Glyph::Qty(p.venue_qty)]
                        &&& p.instrument.0 < symbols@.len() ==> l.instrument@
                            == symbols@[p.instrument.0 as int]@
                    },
                    Inbound::Command(_) => l.kind@ == "command"@,
                    Inbound::Timer(_) => l.kind@ == "timer"@,
                }
            },
        },
{
    reveal_strlit("");
    match record.event {
        Event::Out(out) => {
            decisions_show(out);
        },
        Event::In(input) => {
            inputs_show(input);
        },
    }
}

// ---- which records are shown -----------------------------------------------
/// Which records a trace shows: those in the range that was asked for that the view
/// does not hide, each once, in the order they were recorded, under one line of
/// heads.
pub proof fn traces_show_the_range(
    records: Seq<Record>,
    symbols: Seq<Seq<char>>,
    shown: Shown,
    from: u64,
    to: u64,
    n: int,
) -> (which: Seq<int>)
    requires
        0 <= n <= records.len(),
    ensures
        ({
            let rows = journal::trace_of(records, n, symbols, shown, from, to);
            &&& rows.len() == which.len() + 1
            &&& forall|i: int, j: int| 0 <= i < j < which.len() ==> which[i] < which[j]
            &&& forall|k: int|
                0 <= k < which.len() ==> {
                    let record = records[#[trigger] which[k]];
                    &&& 0 <= which[k] < n
                    &&& from <= record.seq.0 <= to
                    &&& journal::line_of(record.event, symbols, shown) matches Some(line)
                    &&& rows[k + 1] == journal::trace_row(record.seq, line)
                }
            &&& forall|i: int|
                0 <= i < n && from <= (#[trigger] records[i]).seq.0 <= to && journal::line_of(
                    records[i].event,
                    symbols,
                    shown,
                ) is Some ==> which.contains(i)
        }),
    decreases n,
{
    if n <= 0 {
        Seq::empty()
    } else {
        let before = traces_show_the_range(records, symbols, shown, from, to, n - 1);
        let record = records[n - 1];
        if from <= record.seq.0 <= to && journal::line_of(record.event, symbols, shown) is Some {
            let which = before.push(n - 1);
            assert forall|i: int|
                0 <= i < n && from <= (#[trigger] records[i]).seq.0 <= to && journal::line_of(
                    records[i].event,
                    symbols,
                    shown,
                ) is Some implies which.contains(i) by {
                if i < n - 1 {
                    let k = before.index_of(i);
                    assert(which[k] == i);
                } else {
                    assert(which[before.len() as int] == i);
                }
            }
            which
        } else {
            before
        }
    }
}

/// When an event happened on the venue's clock, where it says.
pub open spec fn happened_at(event: Event) -> Option<ExchangeTime> {
    match event {
        Event::In(Inbound::Market(m)) => Some(m.exchange_time),
        Event::In(Inbound::Venue(v)) => Some(v.venue_time),
        Event::In(Inbound::VenuePosition(p)) => Some(p.venue_time),
        Event::In(Inbound::Timer(t)) => Some(t.fires_at),
        Event::In(Inbound::Command(_)) | Event::Out(_) => None,
    }
}

/// The times that records cover: from that of the first event that has one to the
/// latest of any; none where no event has one.
pub proof fn the_span_covers_every_event(records: Seq<Record>, n: int)
    requires
        0 <= n <= records.len(),
    ensures
        match journal::span_of(records, n) {
            None => forall|i: int|
                0 <= i < n ==> happened_at(#[trigger] records[i].event) is None,
            Some((first, last)) => {
                &&& exists|i: int|
                    0 <= i < n && happened_at(#[trigger] records[i].event) == Some(
                        ExchangeTime(first),
                    ) && forall|j: int|
                        0 <= j < i ==> happened_at(#[trigger] records[j].event) is None
                &&& exists|i: int|
                    0 <= i < n && happened_at(#[trigger] records[i].event) == Some(
                        ExchangeTime(last),
                    )
                &&& forall|i: int|
                    0 <= i < n && happened_at(#[trigger] records[i].event) is Some ==> happened_at(
                        records[i].event,
                    )->Some_0.0 <= last
            },
        },
    decreases n,
{
    if n > 0 {
        the_span_covers_every_event(records, n - 1);
        let at = happened_at(records[n - 1].event);
        if at is Some {
            match journal::span_of(records, n - 1) {
                None => {
                    assert(happened_at(records[n - 1].event) == Some(ExchangeTime(at->Some_0.0)));
                },
                Some((first, last)) => {
                    let i = choose|i: int|
                        0 <= i < n - 1 && happened_at(#[trigger] records[i].event) == Some(
                            ExchangeTime(first),
                        ) && forall|j: int|
                            0 <= j < i ==> happened_at(#[trigger] records[j].event) is None;
                    assert(happened_at(records[i].event) == Some(ExchangeTime(first)));
                    assert(happened_at(records[n - 1].event) == Some(ExchangeTime(at->Some_0.0)));
                },
            }
        }
    }
}

/// What an order trades is what its last submission says.
pub proof fn the_last_submission_counts(records: Seq<Record>, upto: int, at: int, order: OrderId)
    requires
        0 <= at < upto <= records.len(),
        journal::submits(records[at], order),
        forall|i: int| at < i < upto ==> !journal::submits(#[trigger] records[i], order),
    ensures
        records[at].event matches Event::Out(
            Outbound::OrderSubmitted { instrument, side, .. },
        ) && BooksView::after(records, upto).order(order) == Some((instrument, side)),
    decreases upto,
{
    if at < upto - 1 {
        the_last_submission_counts(records, upto - 1, at, order);
        assert(!journal::submits(records[upto - 1], order));
    }
}

/// A fill is one of the order it names: it trades what that order trades, on its
/// side, at the price, quantity and fee that the venue reported; a fill of an order
/// that was never submitted is refused.
pub proof fn fills_trade_what_was_ordered(
    books: &mut Books,
    record: &Record,
    venue: VenueEvent,
    px: Px,
    qty: Qty,
    fee: Notional,
    traded: Result<Option<Trade>, Text>,
)
    requires
        record.event == Event::In(Inbound::Venue(venue)),
        venue.kind == (VenueKind::Filled { px, qty, fee }),
        call_ensures(Books::apply, (books, record), traded),
    ensures
        match old(books)@.order(venue.order) {
            Some((instrument, side)) => traded matches Ok(Some(t)) && t.instrument == instrument
                && t.side == side && t.qty == qty && t.px == px && t.fee == fee,
            None => traded is Err,
        },
        final(books)@ == old(books)@,
{
}

/// What positions have realized adds up: of none it is nothing, of one it is that
/// one's, and of some and some others it is what both have.
pub proof fn realized_adds_up(some: Seq<Notional>, others: Seq<Notional>, one: Notional)
    ensures
        journal::realized_by(Seq::empty(), 0) == 0,
        journal::realized_by(seq![one], 1) == one.0,
        journal::realized_by(some + others, (some + others).len() as int) == journal::realized_by(
            some,
            some.len() as int,
        ) + journal::realized_by(others, others.len() as int),
{
    reveal_with_fuel(journal::realized_by, 2);
    sums_of_parts(some, others, others.len() as int);
}

proof fn sums_of_parts(some: Seq<Notional>, others: Seq<Notional>, n: int)
    requires
        0 <= n <= others.len(),
    ensures
        journal::realized_by(some + others, some.len() + n) == journal::realized_by(
            some,
            some.len() as int,
        ) + journal::realized_by(others, n),
    decreases n,
{
    if n > 0 {
        sums_of_parts(some, others, n - 1);
        assert((some + others)[some.len() + n - 1] == others[n - 1]);
    } else {
        sums_of_prefix(some, others, some.len() as int);
    }
}

proof fn sums_of_prefix(some: Seq<Notional>, others: Seq<Notional>, n: int)
    requires
        0 <= n <= some.len(),
    ensures
        journal::realized_by(some + others, n) == journal::realized_by(some, n),
    decreases n,
{
    if n > 0 {
        sums_of_prefix(some, others, n - 1);
    }
}

// ---- figures under their names ---------------------------------------------
/// An object's member: a name and what stands under it.
pub open spec fn named(key: Seq<char>, value: Seq<Glyph>) -> MemberView {
    MemberView { key, value }
}

/// An amount, a price or a quantity as JSON writes it.
pub open spec fn exactly(value: Glyph) -> Seq<Glyph> {
    json::exact_of(value)
}

/// The totals of a report stand under their names: how many orders, cancels, fills
/// and refusals there were, and each amount under its own name.
pub proof fn totals_stand_under_their_names(summary: &Summary)
    ensures
        ({
            let all = journal::total_members(summary);
            let v = summary.valuation;
            &&& all.len() == 12
            &&& all.contains(named("orders"@, json::number_of(summary.orders_submitted as int)))
            &&& all.contains(named("cancels"@, json::number_of(summary.cancels_submitted as int)))
            &&& all.contains(named("fills"@, json::number_of(summary.fills as int)))
            &&& all.contains(named("refused"@, json::number_of(summary.intents_rejected as int)))
            &&& all.contains(named("realized"@, exactly(Glyph::Money(summary.realized))))
            &&& all.contains(named("unrealized"@, exactly(Glyph::Money(v.unrealized))))
            &&& all.contains(named("fees"@, exactly(Glyph::Money(summary.fees))))
            &&& all.contains(named("total"@, exactly(Glyph::Money(v.total))))
            &&& all.contains(named("max_drawdown"@, exactly(Glyph::Money(summary.max_drawdown))))
            &&& all.contains(named("mark_rule"@, json::string_of(v.rule@)))
            &&& all.contains(named("complete"@, json::truth_of(v.complete)))
            &&& all.contains(named("state"@, json::string_of(summary.final_state.label())))
        }),
{
    let all = journal::total_members(summary);
    assert(all[0].key == "orders"@ && all[1].key == "cancels"@ && all[2].key == "fills"@
        && all[3].key == "refused"@ && all[4].key == "realized"@ && all[5].key == "unrealized"@
        && all[6].key == "fees"@ && all[7].key == "total"@ && all[8].key == "max_drawdown"@
        && all[9].key == "mark_rule"@ && all[10].key == "complete"@ && all[11].key == "state"@);
}

/// What a report says of the session stands under its names: the events' times are
/// those that the records cover, and it is intact exactly where nothing was lost.
pub proof fn the_session_stands_under_its_names(
    header: &LogHeader,
    recovery: Recovery,
    segments: usize,
    records: Seq<Record>,
    summary: &Summary,
    first: i64,
    last: i64,
)
    requires
        journal::span_of(records, records.len() as int) == Some((first, last)),
    ensures
        ({
            let all = journal::session_members(header, recovery, segments, records, summary);
            &&& all.len() == 8
            &&& all.contains(named("id"@, json::string_of(text::decimal(header.session_id as int))))
            &&& all.contains(named("format"@, json::number_of(header.format_version as int)))
            &&& all.contains(named("segments"@, json::number_of(segments as int)))
            &&& all.contains(named("records"@, json::number_of(summary.records as int)))
            &&& all.contains(
                named(
                    "intact"@,
                    json::truth_of(recovery.discarded_bytes == 0 && recovery.stopped is None),
                ),
            )
            &&& all.contains(
                named("discarded_bytes"@, json::number_of(recovery.discarded_bytes as int)),
            )
            &&& all.contains(named("first_event_nanos"@, json::number_of(first as int)))
            &&& all.contains(named("last_event_nanos"@, json::number_of(last as int)))
        }),
{
    let all = journal::session_members(header, recovery, segments, records, summary);
    assert(all[0].key == "id"@ && all[1].key == "format"@ && all[2].key == "segments"@
        && all[3].key == "records"@ && all[4].key == "intact"@ && all[5].key == "discarded_bytes"@
        && all[6].key == "first_event_nanos"@ && all[7].key == "last_event_nanos"@);
}

/// A fill stands under its names: what traded, on which side, at which price and fee,
/// where that left its position, and what was realized by it and by all.
pub proof fn fills_stand_under_their_names(fill: Fill, symbols: Seq<Seq<char>>)
    requires
        fill.trade.instrument.0 < symbols.len(),
    ensures
        ({
            let all = journal::fill_members(fill, symbols);
            &&& all.len() == 9
            &&& all.contains(named("seq"@, json::number_of(fill.seq.0 as int)))
            &&& all.contains(
                named("symbol"@, json::string_of(symbols[fill.trade.instrument.0 as int])),
            )
            &&& all.contains(named("side"@, json::string_of(fill.trade.side.label())))
            &&& all.contains(named("qty"@, exactly(Glyph::Qty(fill.trade.qty))))
            &&& all.contains(named("px"@, exactly(Glyph::Px(fill.trade.px))))
            &&& all.contains(named("fee"@, exactly(Glyph::Money(fill.trade.fee))))
            &&& all.contains(named("position"@, exactly(Glyph::Qty(fill.position))))
            &&& all.contains(named("realized"@, exactly(Glyph::Money(fill.realized))))
            &&& all.contains(named("total_realized"@, exactly(Glyph::Money(fill.total_realized))))
        }),
{
    let all = journal::fill_members(fill, symbols);
    assert(all[0].key == "seq"@ && all[1].key == "symbol"@ && all[2].key == "side"@ && all[3].key
        == "qty"@ && all[4].key == "px"@ && all[5].key == "fee"@ && all[6].key == "position"@
        && all[7].key == "realized"@ && all[8].key == "total_realized"@);
}

/// A position, an instrument, a level, a resting order, a refusal and the lag of the
/// feed stand under their names.
pub proof fn rows_stand_under_their_names(
    held: Holding,
    valuation: Valuation,
    entry: InstrumentEntry,
    level: Level,
    order: Working,
    px: Px,
    refusal: Refusal,
    lag: Lag,
    symbols: Seq<Seq<char>>,
)
    requires
        held.instrument.0 < symbols.len(),
        entry.id.0 < symbols.len(),
    ensures
        ({
            let all = journal::holding_members(held, valuation, symbols);
            let i = held.instrument.0 as int;
            &&& all.len() == 5
            &&& all.contains(named("symbol"@, json::string_of(symbols[i])))
            &&& all.contains(named("position"@, exactly(Glyph::Qty(held.qty))))
            &&& all.contains(named("realized"@, exactly(Glyph::Money(held.realized))))
            &&& i < valuation.unrealized_each@.len() ==> (
            valuation.unrealized_each@[i] matches Some(u) ==> all.contains(
                named("unrealized"@, exactly(Glyph::Money(u))),
            ))
            &&& i < valuation.marks@.len() ==> (valuation.marks@[i] matches Some(m)
                ==> all.contains(named("mark"@, exactly(Glyph::Px(m)))))
        }),
        ({
            let all = journal::entry_members(entry, symbols);
            &&& all.len() == 4
            &&& all.contains(named("id"@, json::number_of(entry.id.0 as int)))
            &&& all.contains(named("symbol"@, json::string_of(symbols[entry.id.0 as int])))
            &&& all.contains(named("tick"@, exactly(Glyph::Px(entry.tick))))
            &&& all.contains(named("lot"@, exactly(Glyph::Qty(entry.lot))))
        }),
        ({
            let all = journal::level_members(level);
            &&& all.len() == 2
            &&& all.contains(named("px"@, exactly(Glyph::Px(level.px))))
            &&& all.contains(named("qty"@, exactly(Glyph::Qty(level.qty))))
        }),
        ({
            let all = journal::working_members(order, px);
            &&& all.len() == 4
            &&& all.contains(named("order"@, exactly(Glyph::Order(order.order))))
            &&& all.contains(named("side"@, json::string_of(order.side.label())))
            &&& all.contains(named("px"@, exactly(Glyph::Px(px))))
            &&& all.contains(named("qty"@, exactly(Glyph::Qty(order.remaining))))
        }),
        ({
            let all = journal::refusal_members(refusal);
            &&& all.len() == 2
            &&& all.contains(named("reason"@, json::string_of(refusal.reason.label())))
            &&& all.contains(named("count"@, json::number_of(refusal.count as int)))
        }),
        ({
            let all = journal::lag_members(lag);
            &&& all.len() == 6
            &&& all.contains(named("events"@, json::number_of(lag.events as int)))
            &&& all.contains(named("min"@, json::number_of(lag.min as int)))
            &&& all.contains(named("p50"@, json::number_of(lag.p50 as int)))
            &&& all.contains(named("p90"@, json::number_of(lag.p90 as int)))
            &&& all.contains(named("p99"@, json::number_of(lag.p99 as int)))
            &&& all.contains(named("max"@, json::number_of(lag.max as int)))
        }),
{
    let h = journal::holding_members(held, valuation, symbols);
    assert(h[0].key == "symbol"@ && h[1].key == "position"@ && h[2].key == "realized"@ && h[3].key
        == "unrealized"@ && h[4].key == "mark"@);
    let e = journal::entry_members(entry, symbols);
    assert(e[0].key == "id"@ && e[1].key == "symbol"@ && e[2].key == "tick"@ && e[3].key
        == "lot"@);
    let l = journal::level_members(level);
    assert(l[0].key == "px"@ && l[1].key == "qty"@);
    let w = journal::working_members(order, px);
    assert(w[0].key == "order"@ && w[1].key == "side"@ && w[2].key == "px"@ && w[3].key == "qty"@);
    let r = journal::refusal_members(refusal);
    assert(r[0].key == "reason"@ && r[1].key == "count"@);
    let g = journal::lag_members(lag);
    assert(g[0].key == "events"@ && g[1].key == "min"@ && g[2].key == "p50"@ && g[3].key == "p90"@
        && g[4].key == "p99"@ && g[5].key == "max"@);
}

/// A book's bids are those of its ladder's bids and its asks those of its asks; and
/// the orders with it are those that rest in that instrument.
pub proof fn books_keep_their_sides(
    summary: &Summary,
    instrument: InstrumentId,
    n: int,
)
    requires
        instrument.0 < summary.ladders@.len(),
        0 <= n <= summary.working@.len(),
    ensures
        journal::levels_of(summary, instrument, Side::Buy)
            == summary.ladders@[instrument.0 as int].bids@,
        journal::levels_of(summary, instrument, Side::Sell)
            == summary.ladders@[instrument.0 as int].asks@,
        forall|k: int|
            0 <= k < n && (#[trigger] summary.working@[k]).instrument == instrument
                && summary.working@[k].limit is Some ==> journal::working_rows(
                summary.working@,
                n,
                instrument,
            ).contains(
                json::row_of(
                    journal::working_members(
                        summary.working@[k],
                        summary.working@[k].limit->Some_0,
                    ),
                ),
            ),
        journal::working_rows(summary.working@, n, instrument).len() <= n,
    decreases n,
{
    if n > 0 {
        books_keep_their_sides(summary, instrument, n - 1);
        let before = journal::working_rows(summary.working@, n - 1, instrument);
        let rows = journal::working_rows(summary.working@, n, instrument);
        assert forall|k: int|
            0 <= k < n && (#[trigger] summary.working@[k]).instrument == instrument
                && summary.working@[k].limit is Some implies rows.contains(
            json::row_of(
                journal::working_members(summary.working@[k], summary.working@[k].limit->Some_0),
            ),
        ) by {
            let row = json::row_of(
                journal::working_members(summary.working@[k], summary.working@[k].limit->Some_0),
            );
            if k < n - 1 {
                let j = before.index_of(row);
                assert(rows[j] == row);
            } else {
                assert(rows[rows.len() - 1] == row);
            }
        }
    }
}

/// The fills that JSON holds are the last ones: as many as were asked for, or all,
/// and how many were left out is how many are missing.
pub proof fn the_last_fills_are_kept(fills: Seq<Fill>, tail: usize, symbols: Seq<Seq<char>>)
    ensures
        ({
            let left_out = journal::omitted(fills.len(), tail);
            let rows = journal::fill_rows(fills, left_out, fills.len() as int, symbols);
            &&& left_out + rows.len() == fills.len()
            &&& rows.len() <= tail
            &&& left_out > 0 ==> rows.len() == tail
            &&& forall|k: int|
                0 <= k < rows.len() ==> #[trigger] rows[k] == json::row_of(
                    journal::fill_members(fills[fills.len() - rows.len() + k], symbols),
                )
        }),
{
    let left_out = journal::omitted(fills.len(), tail);
    rows_of_fills(fills, left_out, fills.len() as int, symbols);
}

proof fn rows_of_fills(fills: Seq<Fill>, from: int, n: int, symbols: Seq<Seq<char>>)
    requires
        0 <= from <= n <= fills.len(),
    ensures
        ({
            let rows = journal::fill_rows(fills, from, n, symbols);
            &&& rows.len() == n - from
            &&& forall|k: int|
                0 <= k < rows.len() ==> #[trigger] rows[k] == json::row_of(
                    journal::fill_members(fills[from + k], symbols),
                )
        }),
    decreases n - from,
{
    if from < n {
        rows_of_fills(fills, from, n - 1, symbols);
    }
}

/// The totals that are printed stand behind their labels.
pub proof fn printed_totals_stand_behind_their_labels(summary: &Summary, symbols: Seq<Seq<char>>)
    ensures
        ({
            let activity = journal::activity_lines(summary);
            &&& activity.contains(labelled("  records            "@, summary.records as int))
            &&& activity.contains(labelled("  inputs             "@, summary.inputs as int))
            &&& activity.contains(labelled("  decisions          "@, summary.decisions as int))
            &&& activity.contains(
                labelled("  orders submitted   "@, summary.orders_submitted as int),
            )
            &&& activity.contains(labelled("  fills              "@, summary.fills as int))
            &&& activity.contains(
                labelled("  intents refused    "@, summary.intents_rejected as int),
            )
        }),
        ({
            let worth = journal::worth_lines(summary, symbols);
            &&& worth.contains(worth_line("  realized           "@, summary.realized))
            &&& worth.contains(worth_line("  unrealized         "@, summary.valuation.unrealized))
            &&& worth.contains(worth_line("  fees               "@, summary.fees))
            &&& worth.contains(worth_line("  TOTAL              "@, summary.valuation.total))
            &&& worth.last() == worth_line("  max drawdown       "@, summary.max_drawdown)
        }),
{
    let a = journal::activity_lines(summary);
    assert(a[2] == labelled("  records            "@, summary.records as int));
    assert(a[3] == labelled("  inputs             "@, summary.inputs as int));
    assert(a[4] == labelled("  decisions          "@, summary.decisions as int));
    assert(a[5] == labelled("  orders submitted   "@, summary.orders_submitted as int));
    assert(a[6] == labelled("  fills              "@, summary.fills as int));
    assert(a[7] == labelled("  intents refused    "@, summary.intents_rejected as int));
    let w = journal::worth_lines(summary, symbols);
    assert(w[0] == worth_line("  realized           "@, summary.realized));
    assert(w[1] == worth_line("  unrealized         "@, summary.valuation.unrealized));
    assert(w[2] == worth_line("  fees               "@, summary.fees));
    assert(w[3] == worth_line("  TOTAL              "@, summary.valuation.total));
}

/// A label with a number behind it.
pub open spec fn labelled(label: Seq<char>, n: int) -> Seq<Glyph> {
    journal::written(label) + journal::written(text::decimal(n))
}

/// A label with an amount behind it.
pub open spec fn worth_line(label: Seq<char>, amount: Notional) -> Seq<Glyph> {
    journal::written(label) + seq![Glyph::Money(amount)]
}

/// A position's line shows what is held, what it realized, and where it could be
/// marked what it has not realized and both together.
pub proof fn positions_show_their_figures(
    held: Holding,
    unrealized: Option<Notional>,
    symbols: Seq<Seq<char>>,
)
    requires
        unrealized matches Some(u) ==> i128::MIN <= held.realized.0 + u.0 <= i128::MAX,
    ensures
        values(journal::holding_line(held, unrealized, symbols)) == match unrealized {
            Some(u) => seq![
                Glyph::Qty(held.qty),
                Glyph::Money(held.realized),
                Glyph::Money(u),
                Glyph::Money(Notional((held.realized.0 + u.0) as i128)),
            ],
            None => seq![Glyph::Qty(held.qty), Glyph::Money(held.realized)],
        },
{
    broadcast use {values_of_sum, values_of_letters, values_of_one};

    assert(values(journal::holding_line(held, unrealized, symbols)) =~= match unrealized {
        Some(u) => seq![
            Glyph::Qty(held.qty),
            Glyph::Money(held.realized),
            Glyph::Money(u),
            Glyph::Money(Notional((held.realized.0 + u.0) as i128)),
        ],
        None => seq![Glyph::Qty(held.qty), Glyph::Money(held.realized)],
    });
}

/// A fill is accounted for as it stands: it keeps its trade, the position and the
/// realized amount are its standing's, and the total is the sum over every position.
pub proof fn fills_are_accounted_as_they_stand(
    seq: crate::event::SeqNo,
    trade: Trade,
    standing: Standing,
    fill: Result<Fill, Text>,
)
    requires
        journal::addable(standing.each@),
        call_ensures(Fill::account, (seq, trade, Ok::<Option<Standing>, String>(Some(standing))), fill),
    ensures
        fill matches Ok(f) && f.seq == seq && f.trade == trade && f.position == standing.position
            && f.realized == standing.realized && f.total_realized.0 == journal::realized_by(
            standing.each@,
            standing.each@.len() as int,
        ),
{
    let n = standing.each@.len() as int;
    assert(i128::MIN <= journal::realized_by(standing.each@, n) <= i128::MAX);
}

/// A time is written in milliseconds: with a sign where it is negative, its whole
/// milliseconds, a point, exactly three digits and the unit; the digits stand for its
/// whole microseconds.
pub proof fn times_are_written_in_milliseconds(nanos: i64, written: String)
    requires
        call_ensures(millis, (nanos,), written),
    ensures
        exists|sign: Seq<char>, whole: Seq<char>, part: Seq<char>|
            {
                let size = if nanos < 0 {
                    -(nanos as int)
                } else {
                    nanos as int
                };
                let micros = (words::value_of(whole) * 1_000 + words::value_of(part)) as int;
                &&& written@ == #[trigger] (sign + whole + seq!['.'] + part) + seq!['m', 's']
                &&& sign == if nanos < 0 {
                    seq!['-']
                } else {
                    Seq::empty()
                }
                &&& whole.len() > 0 && words::all_digits(whole)
                &&& part.len() == 3 && words::all_digits(part)
                &&& micros * 1_000 <= size < micros * 1_000 + 1_000
            },
{
    let n: nat = if nanos < 0 {
        (-(nanos as int)) as nat
    } else {
        nanos as nat
    };
    let whole = text::digits(n / 1_000_000);
    let part = text::base_padded((n % 1_000_000) / 1_000, 10, 3);
    let sign = if nanos < 0 {
        seq!['-']
    } else {
        Seq::empty()
    };
    words::digits_read_back(n / 1_000_000);
    reveal_with_fuel(words::ten_to, 4);
    words::padded_numbers_read_back((n % 1_000_000) / 1_000, 3);
    reveal_strlit("-");
    reveal_strlit(".");
    reveal_strlit("");
    reveal_strlit("ms");
    assert("-"@ =~= seq!['-']);
    assert("."@ =~= seq!['.']);
    assert(""@ =~= Seq::empty());
    assert("ms"@ =~= seq!['m', 's']);
    assert(written@ == (sign + whole + seq!['.'] + part) + seq!['m', 's']);
}

} // verus!
