//! What each line of a config sets, and what a config is made of.
use vstd::prelude::*;

use crate::config;
use crate::config::{
    BarSpec, ConfigError, Directive, DirectiveView, Draft, InstrumentView, LimitBook, Limits, Outside,
    Section, SessionConfig, StrategyConfig, StrategyKind, WaitingView,
};
use crate::value::InstrumentId;
use crate::words;

verus! {

/// Whether the word `i` is the value of a setting: it stands behind the setting's
/// name, among pairs that start at `from`.
pub open spec fn is_value_of(words: Seq<Seq<char>>, from: int, key: Seq<char>, i: int) -> bool {
    from < i < words.len() && (i - from) % 2 == 1 && words[i - 1] == key
}

/// Whether a setting is on the line.
pub open spec fn is_set(words: Seq<Seq<char>>, from: int, key: Seq<char>) -> bool {
    exists|i: int| is_value_of(words, from, key, i)
}

/// Whether a setting's value is read as a decimal of so many parts.
pub open spec fn sets(
    words: Seq<Seq<char>>,
    from: int,
    key: Seq<char>,
    readings: Seq<Result<i64, String>>,
    n: int,
) -> bool {
    exists|i: int| #[trigger]
        is_value_of(words, from, key, i) && readings[i] is Ok && readings[i]->Ok_0 == n
}

/// Whether a setting's value is a whole number.
pub open spec fn counts(words: Seq<Seq<char>>, from: int, key: Seq<char>, n: int) -> bool {
    exists|i: int| #[trigger]
        is_value_of(words, from, key, i) && words::int_of(words[i], false) == Some(n)
}

/// Whether a word is a number of seconds.
pub open spec fn in_seconds(word: Seq<char>) -> bool {
    word.len() > 0 && word.last() == 's' && !in_milliseconds(word)
}

/// Whether a word is a number of milliseconds.
pub open spec fn in_milliseconds(word: Seq<char>) -> bool {
    word.len() > 1 && word.last() == 's' && word[word.len() - 2] == 'm'
}

/// Whether a setting's value is a time of so many nanoseconds: one in seconds or in
/// milliseconds, more than nothing. A reading counts billionths.
pub open spec fn lasts(
    words: Seq<Seq<char>>,
    from: int,
    key: Seq<char>,
    stems: Seq<Result<i64, String>>,
    nanos: int,
) -> bool {
    exists|i: int|
        {
            &&& #[trigger] is_value_of(words, from, key, i)
            &&& stems[i] is Ok
            &&& stems[i]->Ok_0 > 0
            &&& in_seconds(words[i]) && nanos == stems[i]->Ok_0 || in_milliseconds(words[i]) && nanos
                * 1_000 <= stems[i]->Ok_0 < nanos * 1_000 + 1_000
        }
}

/// What a line's words say, where they say it.
pub open spec fn declares(
    words: Seq<Seq<char>>,
    whole: Seq<Result<i64, String>>,
    stems: Seq<Result<i64, String>>,
    said: DirectiveView,
) -> bool {
    match said {
        DirectiveView::Instrument { symbol, tick, lot, min } => {
            &&& words.len() >= 2
            &&& words[0] == "instrument"@
            &&& words[1] == symbol
            &&& sets(words, 2, "tick"@, whole, tick.0 as int)
            &&& sets(words, 2, "lot"@, whole, lot.0 as int)
            &&& sets(words, 2, "min"@, whole, min.0 as int)
        },
        DirectiveView::Limits { symbol, limits } => {
            &&& words.len() >= 2
            &&& words[0] == "limits"@
            &&& words[1] == symbol
            &&& sets(words, 2, "max-position"@, whole, limits.max_position.0 as int)
            &&& sets(words, 2, "max-exposure"@, whole, limits.max_exposure.0 as int)
            &&& sets(words, 2, "max-order-notional"@, whole, limits.max_order_notional.0 as int)
            &&& counts(words, 2, "max-orders"@, limits.max_orders_in_window as int)
            &&& lasts(words, 2, "rate-window"@, stems, limits.rate_window.0 as int)
            &&& lasts(words, 2, "max-quote-age"@, stems, limits.max_quote_age.0 as int)
        },
        DirectiveView::Strategy { symbol, kind } => {
            &&& words.len() >= 3
            &&& words[0] == "strategy"@
            &&& words[2] == symbol
            &&& match kind {
                StrategyKind::Crossover { window, size, bars: BarSpec::Tick { threshold } } => {
                    &&& words[1] == "crossover"@
                    &&& counts(words, 3, "window"@, window as int)
                    &&& 0 < window <= u32::MAX
                    &&& sets(words, 3, "size"@, whole, size.0 as int)
                    &&& size.0 > 0
                    &&& if is_set(words, 3, "bars"@) {
                        counts(words, 3, "bars"@, threshold as int)
                    } else {
                        threshold == 1
                    }
                },
                StrategyKind::Quote { half_spread, size, reprice, max_inventory } => {
                    &&& words[1] == "quote"@
                    &&& sets(words, 3, "half-spread"@, whole, half_spread.0 as int)
                    &&& half_spread.0 > 0
                    &&& sets(words, 3, "size"@, whole, size.0 as int)
                    &&& size.0 > 0
                    &&& if is_set(words, 3, "reprice"@) {
                        sets(words, 3, "reprice"@, whole, reprice.0 as int)
                    } else {
                        reprice.0 == half_spread.0
                    }
                    &&& sets(words, 3, "max-inventory"@, whole, max_inventory.0 as int)
                },
            }
        },
    }
}

/// Where the settings of what is declared start.
pub open spec fn settings_start(said: DirectiveView) -> int {
    if said is Strategy {
        3
    } else {
        2
    }
}

/// Whether a setting belongs to what is declared.
pub open spec fn belongs(said: DirectiveView, key: Seq<char>) -> bool {
    match said {
        DirectiveView::Instrument { .. } => key == "tick"@ || key == "lot"@ || key == "min"@,
        DirectiveView::Limits { .. } => {
            ||| key == "max-position"@
            ||| key == "max-exposure"@
            ||| key == "max-order-notional"@
            ||| key == "max-orders"@
            ||| key == "rate-window"@
            ||| key == "max-quote-age"@
        },
        DirectiveView::Strategy { kind: StrategyKind::Crossover { .. }, .. } => {
            ||| key == "window"@
            ||| key == "size"@
            ||| key == "bars"@
        },
        DirectiveView::Strategy { kind: StrategyKind::Quote { .. }, .. } => {
            ||| key == "half-spread"@
            ||| key == "size"@
            ||| key == "reprice"@
            ||| key == "max-inventory"@
        },
    }
}

/// Whether the settings of a line are in order: each has a value, none is there
/// twice, and each belongs to what is declared.
pub open spec fn settings_in_order(words: Seq<Seq<char>>, said: DirectiveView) -> bool {
    let from = settings_start(said);
    &&& (words.len() - from) % 2 == 0
    &&& forall|key: Seq<char>, i: int, j: int|
        #![trigger is_value_of(words, from, key, i), is_value_of(words, from, key, j)]
        is_value_of(words, from, key, i) && is_value_of(words, from, key, j) ==> i == j
    &&& forall|key: Seq<char>, i: int| #[trigger]
        is_value_of(words, from, key, i) ==> belongs(said, key)
}

proof fn value_found(words: Seq<Seq<char>>, from: int, key: Seq<char>)
    requires
        0 <= from,
    ensures
        match config::value_at(words, from, key) {
            Some(i) => is_value_of(words, from, key, i),
            None => !is_set(words, from, key),
        },
    decreases words.len() - from,
{
    if from + 1 >= words.len() {
    } else if words[from] == key {
        assert(is_value_of(words, from, key, from + 1));
    } else {
        value_found(words, from + 2, key);
        assert forall|i: int| is_value_of(words, from, key, i) implies is_value_of(
            words,
            from + 2,
            key,
            i,
        ) by {}
    }
}

proof fn given_before(words: Seq<Seq<char>>, from: int, upto: int, key: Seq<char>)
    requires
        0 <= from,
        upto < words.len(),
        (upto - from) % 2 == 0,
    ensures
        config::given(words, from, upto, key) <==> exists|i: int|
            i < upto && #[trigger] is_value_of(words, from, key, i),
    decreases upto - from,
{
    if from < upto {
        given_before(words, from + 2, upto, key);
        if words[from] == key {
            assert(is_value_of(words, from, key, from + 1));
        }
        if config::given(words, from + 2, upto, key) {
            let i = choose|i: int| i < upto && #[trigger] is_value_of(words, from + 2, key, i);
            assert(is_value_of(words, from, key, i));
        }
        if words[from] != key && exists|i: int|
            i < upto && #[trigger] is_value_of(words, from, key, i) {
            let i = choose|i: int| i < upto && #[trigger] is_value_of(words, from, key, i);
            assert(is_value_of(words, from + 2, key, i));
        }
    }
}

/// Whether the pairs from `at` on are no trouble: each has a value and none was there
/// before.
spec fn tidy_from(words: Seq<Seq<char>>, from: int, at: int) -> bool {
    &&& words.len() >= at ==> (words.len() - from) % 2 == 0
    &&& forall|key: Seq<char>, i: int, j: int|
        #![trigger is_value_of(words, from, key, i), is_value_of(words, from, key, j)]
        is_value_of(words, from, key, i) && is_value_of(words, from, key, j) && i < j ==> j < at
}

proof fn pairs_checked(words: Seq<Seq<char>>, from: int, at: int)
    requires
        0 <= from <= at,
        (at - from) % 2 == 0,
    ensures
        config::pairs_fault(words, from, at) is None <==> tidy_from(words, from, at),
    decreases words.len() + 2 - at,
{
    if at >= words.len() {
    } else if at + 1 >= words.len() {
    } else {
        let key = words[at];
        given_before(words, from, at, key);
        pairs_checked(words, from, at + 2);
        assert(is_value_of(words, from, key, at + 1));
        if config::given(words, from, at, key) {
            let i = choose|i: int| i < at && #[trigger] is_value_of(words, from, key, i);
            assert(!tidy_from(words, from, at));
        } else {
            if tidy_from(words, from, at + 2) {
                assert forall|k: Seq<char>, i: int, j: int|
                    #![trigger is_value_of(words, from, k, i), is_value_of(words, from, k, j)]
                    is_value_of(words, from, k, i) && is_value_of(words, from, k, j) && i
                        < j implies j < at by {
                    if j >= at {
                        assert(j == at + 1);
                        assert(k == key);
                        assert(i < at);
                    }
                }
            }
        }
    }
}

proof fn strays_checked(words: Seq<Seq<char>>, from: int, section: Section)
    requires
        0 <= from,
    ensures
        (words.len() - from) % 2 == 0 ==> (config::stray_fault(words, from, section) is None <==> (
        forall|key: Seq<char>, i: int| #[trigger]
            is_value_of(words, from, key, i) ==> section.takes(key))),
    decreases words.len() + 2 - from,
{
    if from < words.len() && (words.len() - from) % 2 == 0 {
        strays_checked(words, from + 2, section);
        assert(is_value_of(words, from, words[from], from + 1));
        assert forall|key: Seq<char>, i: int| is_value_of(words, from + 2, key, i) implies is_value_of(
            words,
            from,
            key,
            i,
        ) by {}
        assert forall|key: Seq<char>, i: int|
            is_value_of(words, from, key, i) && i != from + 1 implies is_value_of(
            words,
            from + 2,
            key,
            i,
        ) by {}
        if section.takes(words[from]) && config::stray_fault(words, from + 2, section) is None {
            assert forall|key: Seq<char>, i: int| #[trigger]
                is_value_of(words, from, key, i) implies section.takes(key) by {
                if i != from + 1 {
                    assert(is_value_of(words, from + 2, key, i));
                }
            }
        }
        if forall|key: Seq<char>, i: int| #[trigger]
            is_value_of(words, from, key, i) ==> section.takes(key) {
            assert forall|key: Seq<char>, i: int| #[trigger]
                is_value_of(words, from + 2, key, i) implies section.takes(key) by {
                assert(is_value_of(words, from, key, i));
            }
        }
    }
}

/// The section of what is declared.
spec fn section_of(said: DirectiveView) -> Section {
    match said {
        DirectiveView::Instrument { .. } => Section::Instrument,
        DirectiveView::Limits { .. } => Section::Limits,
        DirectiveView::Strategy { kind: StrategyKind::Crossover { .. }, .. } => Section::Crossover,
        DirectiveView::Strategy { kind: StrategyKind::Quote { .. }, .. } => Section::Quote,
    }
}

proof fn sections_take_what_belongs(said: DirectiveView, key: Seq<char>)
    ensures
        section_of(said).takes(key) <==> belongs(said, key),
{
    let needs = section_of(said).needs();
    if needs.contains(key) {
        let k = needs.index_of(key);
        assert(needs[k] == key);
    }
    if belongs(said, key) {
        if needs.len() > 0 && needs[0] == key {
        }
        if needs.len() > 1 && needs[1] == key {
        }
        if needs.len() > 2 && needs[2] == key {
        }
        if needs.len() > 3 && needs[3] == key {
        }
        if needs.len() > 4 && needs[4] == key {
        }
        if needs.len() > 5 && needs[5] == key {
        }
    }
}

proof fn directive_words_differ()
    ensures
        "instrument"@.len() == 10,
        "limits"@.len() == 6,
        "strategy"@.len() == 8,
        "crossover"@.len() == 9,
        "quote"@.len() == 5,
{
    reveal_strlit("instrument");
    reveal_strlit("limits");
    reveal_strlit("strategy");
    reveal_strlit("crossover");
    reveal_strlit("quote");
}

/// What a line that was read declares is what its words say: its first word is the
/// directive, its subject the symbol, and each setting is the reading of the word
/// behind its own name. Its settings are in order.
#[verifier::rlimit(40)]
pub proof fn directives_mean_what_they_say(
    line: &str,
    whole: &[Result<i64, String>],
    stems: &[Result<i64, String>],
    read: Directive,
)
    requires
        whole@.len() == config::content_of(line@).len(),
        stems@.len() == config::content_of(line@).len(),
        call_ensures(
            Directive::read,
            (line, whole, stems),
            Ok::<Option<Directive>, String>(Some(read)),
        ),
    ensures
        declares(config::content_of(line@), whole@, stems@, read@),
        settings_in_order(config::content_of(line@), read@),
{
    declared_is_said(config::content_of(line@), whole@, stems@, read@);
}

proof fn declared_is_said(
    words: Seq<Seq<char>>,
    whole: Seq<Result<i64, String>>,
    stems: Seq<Result<i64, String>>,
    said: DirectiveView,
)
    requires
        words.len() > 0,
        config::directive_of(words, whole, stems) == Ok::<DirectiveView, Seq<char>>(said),
    ensures
        declares(words, whole, stems, said),
        settings_in_order(words, said),
{
    directive_words_differ();
    let from = settings_start(said);
    let section = section_of(said);
    assert(config::settings_fault(words, from, section) is None);
    pairs_checked(words, from, from);
    strays_checked(words, from, section);
    assert forall|key: Seq<char>, i: int| #[trigger]
        is_value_of(words, from, key, i) implies belongs(said, key) by {
        sections_take_what_belongs(said, key);
    }
    match said {
        DirectiveView::Instrument { .. } => {
            value_found(words, from, "tick"@);
            value_found(words, from, "lot"@);
            value_found(words, from, "min"@);
        },
        DirectiveView::Limits { .. } => {
            value_found(words, from, "max-position"@);
            value_found(words, from, "max-exposure"@);
            value_found(words, from, "max-order-notional"@);
            value_found(words, from, "max-orders"@);
            value_found(words, from, "rate-window"@);
            value_found(words, from, "max-quote-age"@);
        },
        DirectiveView::Strategy { kind: StrategyKind::Crossover { .. }, .. } => {
            value_found(words, from, "window"@);
            value_found(words, from, "size"@);
            value_found(words, from, "bars"@);
        },
        DirectiveView::Strategy { kind: StrategyKind::Quote { .. }, .. } => {
            value_found(words, from, "half-spread"@);
            value_found(words, from, "size"@);
            value_found(words, from, "reprice"@);
            value_found(words, from, "max-inventory"@);
        },
    }
}

proof fn the_value_is(words: Seq<Seq<char>>, said: DirectiveView, key: Seq<char>)
    requires
        settings_in_order(words, said),
    ensures
        forall|i: int| #[trigger]
            is_value_of(words, settings_start(said), key, i) ==> config::value_at(
                words,
                settings_start(said),
                key,
            ) == Some(i),
        config::value_at(words, settings_start(said), key) is Some <==> is_set(
            words,
            settings_start(said),
            key,
        ),
{
    value_found(words, settings_start(said), key);
}

#[verifier::rlimit(40)]
proof fn said_is_declared(
    words: Seq<Seq<char>>,
    whole: Seq<Result<i64, String>>,
    stems: Seq<Result<i64, String>>,
    said: DirectiveView,
)
    requires
        declares(words, whole, stems, said),
        settings_in_order(words, said),
    ensures
        config::directive_of(words, whole, stems) == Ok::<DirectiveView, Seq<char>>(said),
{
    directive_words_differ();
    let from = settings_start(said);
    let section = section_of(said);
    pairs_checked(words, from, from);
    assert(tidy_from(words, from, from));
    strays_checked(words, from, section);
    assert forall|key: Seq<char>, i: int| #[trigger]
        is_value_of(words, from, key, i) implies section.takes(key) by {
        sections_take_what_belongs(said, key);
    }
    reveal_with_fuel(config::missing_fault, 7);
    match said {
        DirectiveView::Instrument { .. } => {
            the_value_is(words, said, "tick"@);
            the_value_is(words, said, "lot"@);
            the_value_is(words, said, "min"@);
            assert(config::settings_fault(words, from, section) is None);
        },
        DirectiveView::Limits { .. } => {
            the_value_is(words, said, "max-position"@);
            the_value_is(words, said, "max-exposure"@);
            the_value_is(words, said, "max-order-notional"@);
            the_value_is(words, said, "max-orders"@);
            the_value_is(words, said, "rate-window"@);
            the_value_is(words, said, "max-quote-age"@);
            assert(config::settings_fault(words, from, section) is None);
        },
        DirectiveView::Strategy { kind: StrategyKind::Crossover { .. }, .. } => {
            the_value_is(words, said, "window"@);
            the_value_is(words, said, "size"@);
            the_value_is(words, said, "bars"@);
            assert(config::settings_fault(words, from, section) is None);
        },
        DirectiveView::Strategy { kind: StrategyKind::Quote { .. }, .. } => {
            the_value_is(words, said, "half-spread"@);
            the_value_is(words, said, "size"@);
            the_value_is(words, said, "reprice"@);
            the_value_is(words, said, "max-inventory"@);
            assert(config::settings_fault(words, from, section) is None);
        },
    }
}

/// Every line that says something with its settings in order is read, as what it
/// says; and a line is blank or a comment exactly where it is read as nothing.
pub proof fn what_is_said_is_read(
    line: &str,
    whole: &[Result<i64, String>],
    stems: &[Result<i64, String>],
    said: DirectiveView,
    read: Result<Option<Directive>, String>,
)
    requires
        whole@.len() == config::content_of(line@).len(),
        stems@.len() == config::content_of(line@).len(),
        call_ensures(Directive::read, (line, whole, stems), read),
    ensures
        declares(config::content_of(line@), whole@, stems@, said) && settings_in_order(
            config::content_of(line@),
            said,
        ) ==> (read matches Ok(Some(d)) && d@ == said),
        read matches Ok(None) <==> config::content_of(line@).len() == 0,
{
    let words = config::content_of(line@);
    if declares(words, whole@, stems@, said) && settings_in_order(words, said) {
        said_is_declared(words, whole@, stems@, said);
    }
}

/// A word that is changed changes the setting behind whose name it stands, and no
/// other: two lines of limits that differ in that word alone declare the same bounds
/// but for the one of that name.
#[verifier::spinoff_prover]
pub proof fn a_word_changes_one_limit(
    a: &str,
    b: &str,
    whole_a: &[Result<i64, String>],
    whole_b: &[Result<i64, String>],
    stems_a: &[Result<i64, String>],
    stems_b: &[Result<i64, String>],
    symbol_a: String,
    symbol_b: String,
    limits_a: Limits,
    limits_b: Limits,
    at: int,
)
    requires
        whole_a@.len() == config::content_of(a@).len(),
        stems_a@.len() == config::content_of(a@).len(),
        whole_b@.len() == config::content_of(b@).len(),
        stems_b@.len() == config::content_of(b@).len(),
        call_ensures(
            Directive::read,
            (a, whole_a, stems_a),
            Ok::<Option<Directive>, String>(
                Some(Directive::Limits { symbol: symbol_a, limits: limits_a }),
            ),
        ),
        call_ensures(
            Directive::read,
            (b, whole_b, stems_b),
            Ok::<Option<Directive>, String>(
                Some(Directive::Limits { symbol: symbol_b, limits: limits_b }),
            ),
        ),
        config::content_of(a@).len() == config::content_of(b@).len(),
        2 < at < config::content_of(a@).len(),
        (at - 2) % 2 == 1,
        forall|i: int|
            0 <= i < config::content_of(a@).len() && i != at ==> #[trigger] config::content_of(
                a@,
            )[i] == config::content_of(b@)[i] && whole_a@[i] == whole_b@[i] && stems_a@[i]
                == stems_b@[i],
    ensures
        symbol_a@ == symbol_b@,
        ({
            let key = config::content_of(a@)[at - 1];
            &&& key != "max-position"@ ==> limits_a.max_position == limits_b.max_position
            &&& key != "max-exposure"@ ==> limits_a.max_exposure == limits_b.max_exposure
            &&& key != "max-order-notional"@ ==> limits_a.max_order_notional
                == limits_b.max_order_notional
            &&& key != "max-orders"@ ==> limits_a.max_orders_in_window
                == limits_b.max_orders_in_window
            &&& key != "rate-window"@ ==> limits_a.rate_window == limits_b.rate_window
            &&& key != "max-quote-age"@ ==> limits_a.max_quote_age == limits_b.max_quote_age
        }),
{
    let read_a = Directive::Limits { symbol: symbol_a, limits: limits_a };
    let read_b = Directive::Limits { symbol: symbol_b, limits: limits_b };
    directives_mean_what_they_say(a, whole_a, stems_a, read_a);
    directives_mean_what_they_say(b, whole_b, stems_b, read_b);
    let v = config::content_of(a@);
    let w = config::content_of(b@);
    assert(differ_at(v, w, whole_a@, whole_b@, stems_a@, stems_b@, at));
    let key = v[at - 1];
    assert(v[1] == w[1]);
    if key != "max-position"@ {
        same_place(v, w, read_a@, read_b@, whole_a@, whole_b@, stems_a@, stems_b@, at, "max-position"@);
    }
    if key != "max-exposure"@ {
        same_place(v, w, read_a@, read_b@, whole_a@, whole_b@, stems_a@, stems_b@, at, "max-exposure"@);
    }
    if key != "max-order-notional"@ {
        same_place(
            v,
            w,
            read_a@,
            read_b@,
            whole_a@,
            whole_b@,
            stems_a@,
            stems_b@,
            at,
            "max-order-notional"@,
        );
    }
    if key != "max-orders"@ {
        same_place(v, w, read_a@, read_b@, whole_a@, whole_b@, stems_a@, stems_b@, at, "max-orders"@);
    }
    if key != "rate-window"@ {
        same_place(v, w, read_a@, read_b@, whole_a@, whole_b@, stems_a@, stems_b@, at, "rate-window"@);
    }
    if key != "max-quote-age"@ {
        same_place(v, w, read_a@, read_b@, whole_a@, whole_b@, stems_a@, stems_b@, at, "max-quote-age"@);
    }
}

/// Whether two lines, and what was read in them, differ in one word at most.
spec fn differ_at(
    v: Seq<Seq<char>>,
    w: Seq<Seq<char>>,
    whole_v: Seq<Result<i64, String>>,
    whole_w: Seq<Result<i64, String>>,
    stems_v: Seq<Result<i64, String>>,
    stems_w: Seq<Result<i64, String>>,
    at: int,
) -> bool {
    &&& v.len() == w.len()
    &&& forall|i: int|
        0 <= i < v.len() && i != at ==> #[trigger] v[i] == w[i] && whole_v[i] == whole_w[i]
            && stems_v[i] == stems_w[i]
}

#[verifier::spinoff_prover]
proof fn same_place(
    v: Seq<Seq<char>>,
    w: Seq<Seq<char>>,
    said_v: DirectiveView,
    said_w: DirectiveView,
    whole_v: Seq<Result<i64, String>>,
    whole_w: Seq<Result<i64, String>>,
    stems_v: Seq<Result<i64, String>>,
    stems_w: Seq<Result<i64, String>>,
    at: int,
    key: Seq<char>,
)
    requires
        differ_at(v, w, whole_v, whole_w, stems_v, stems_w, at),
        settings_in_order(v, said_v),
        settings_in_order(w, said_w),
        said_v is Limits,
        said_w is Limits,
        2 < at < v.len(),
        (at - 2) % 2 == 1,
        v[at - 1] != key,
    ensures
        forall|m: int, n: int| #[trigger]
            sets(v, 2, key, whole_v, m) && #[trigger] sets(w, 2, key, whole_w, n) ==> m == n,
        forall|m: int, n: int| #[trigger]
            counts(v, 2, key, m) && #[trigger] counts(w, 2, key, n) ==> m == n,
        forall|m: int, n: int| #[trigger]
            lasts(v, 2, key, stems_v, m) && #[trigger] lasts(w, 2, key, stems_w, n) ==> m == n,
{
    assert forall|i: int, j: int|
        #![trigger is_value_of(v, 2, key, i), is_value_of(w, 2, key, j)]
        is_value_of(v, 2, key, i) && is_value_of(w, 2, key, j) implies i == j && v[i] == w[i]
        && whole_v[i] == whole_w[i] && stems_v[i] == stems_w[i] by {
        assert(i != at);
        assert(i - 1 != at);
        assert(v[i - 1] == w[i - 1]);
        assert(is_value_of(w, 2, key, i));
    }
    assert forall|m: int, n: int| #[trigger]
        sets(v, 2, key, whole_v, m) && #[trigger] sets(w, 2, key, whole_w, n) implies m == n by {
        let i = choose|i: int| #[trigger]
            is_value_of(v, 2, key, i) && whole_v[i] is Ok && whole_v[i]->Ok_0 == m;
        let j = choose|j: int| #[trigger]
            is_value_of(w, 2, key, j) && whole_w[j] is Ok && whole_w[j]->Ok_0 == n;
        assert(i == j);
    }
    assert forall|m: int, n: int| #[trigger]
        counts(v, 2, key, m) && #[trigger] counts(w, 2, key, n) implies m == n by {
        let i = choose|i: int| #[trigger]
            is_value_of(v, 2, key, i) && words::int_of(v[i], false) == Some(m);
        let j = choose|j: int| #[trigger]
            is_value_of(w, 2, key, j) && words::int_of(w[j], false) == Some(n);
        assert(i == j);
    }
}

// ---- whole configs ---------------------------------------------------------
/// Which of the first `n` lines start with a word.
pub open spec fn starting_with(lines: Seq<Seq<char>>, word: Seq<char>, n: int) -> Seq<int>
    decreases n,
{
    if n <= 0 {
        Seq::empty()
    } else {
        let before = starting_with(lines, word, n - 1);
        let words = config::content_of(lines[n - 1]);
        if words.len() > 0 && words[0] == word {
            before.push(n - 1)
        } else {
            before
        }
    }
}

/// Whether a line of a config declares something, and with its settings in order.
#[verifier::opaque]
pub open spec fn line_declares(
    lines: Seq<Seq<char>>,
    outside: Seq<Outside>,
    at: int,
    said: DirectiveView,
) -> bool {
    &&& 0 <= at < lines.len()
    &&& declares(
        config::content_of(lines[at]),
        outside[at].whole@,
        outside[at].stems@,
        said,
    )
    &&& settings_in_order(config::content_of(lines[at]), said)
}

spec fn instrument_said(instrument: InstrumentView) -> DirectiveView {
    DirectiveView::Instrument {
        symbol: instrument.symbol,
        tick: instrument.instrument.tick,
        lot: instrument.instrument.lot,
        min: instrument.instrument.min_qty,
    }
}

/// Whether a draft is what the first `n` lines declare.
spec fn draft_declared(lines: Seq<Seq<char>>, outside: Seq<Outside>, n: int, draft: Draft) -> bool {
    let instruments = starting_with(lines, "instrument"@, n);
    let limits = starting_with(lines, "limits"@, n);
    let strategies = starting_with(lines, "strategy"@, n);
    &&& draft.instruments.len() == instruments.len()
    &&& forall|j: int|
        0 <= j < instruments.len() ==> line_declares(
            lines,
            outside,
            #[trigger] instruments[j],
            instrument_said(draft.instruments[j]),
        ) && outside[instruments[j]].verdict is Ok
    &&& draft.limits.len() == limits.len()
    &&& forall|j: int|
        0 <= j < limits.len() ==> line_declares(
            lines,
            outside,
            #[trigger] limits[j],
            DirectiveView::Limits {
                symbol: draft.limits[j].symbol,
                limits: draft.limits[j].value,
            },
        ) && outside[limits[j]].verdict is Ok
    &&& draft.strategies.len() == strategies.len()
    &&& forall|j: int|
        0 <= j < strategies.len() ==> line_declares(
            lines,
            outside,
            #[trigger] strategies[j],
            DirectiveView::Strategy {
                symbol: draft.strategies[j].symbol,
                kind: draft.strategies[j].value,
            },
        )
}

proof fn drafts_are_declared(lines: Seq<Seq<char>>, outside: Seq<Outside>, n: int)
    requires
        0 <= n <= lines.len(),
    ensures
        config::draft_of(lines, outside, n) matches Ok(draft) ==> draft_declared(
            lines,
            outside,
            n,
            draft,
        ),
    decreases n,
{
    directive_words_differ();
    if n > 0 {
        drafts_are_declared(lines, outside, n - 1);
        if config::draft_of(lines, outside, n) is Ok {
            let before = config::draft_of(lines, outside, n - 1)->Ok_0;
            let draft = config::draft_of(lines, outside, n)->Ok_0;
            let words = config::content_of(lines[n - 1]);
            let whole = outside[n - 1].whole@;
            let stems = outside[n - 1].stems@;
            if words.len() > 0 {
                let said = config::directive_of(words, whole, stems)->Ok_0;
                declared_is_said(words, whole, stems, said);
                assert(words[0] == if said is Instrument {
                    "instrument"@
                } else if said is Limits {
                    "limits"@
                } else {
                    "strategy"@
                });
                assert(line_declares(lines, outside, n - 1, said)) by {
                    reveal(line_declares);
                }
            }
        }
    }
}

proof fn found_has_the_symbol(instruments: Seq<InstrumentView>, symbol: Seq<char>, i: int)
    requires
        0 <= i,
    ensures
        match config::found(instruments, symbol, i) {
            Some(k) => i <= k < instruments.len() && instruments[k].symbol == symbol,
            None => forall|k: int|
                i <= k < instruments.len() ==> (#[trigger] instruments[k]).symbol != symbol,
        },
    decreases instruments.len() - i,
{
    if i < instruments.len() && instruments[i].symbol != symbol {
        found_has_the_symbol(instruments, symbol, i + 1);
    }
}

proof fn books_hold_the_limits(
    instruments: Seq<InstrumentView>,
    limits: Seq<WaitingView<Limits>>,
    k: int,
)
    requires
        0 <= k <= limits.len(),
        config::book_of(instruments, limits, k) is Ok,
    ensures
        ({
            let book = config::book_of(instruments, limits, k)->Ok_0;
            &&& book.len() == instruments.len()
            &&& forall|i: int|
                0 <= i < book.len() && (#[trigger] book[i]) is Some ==> exists|m: int|
                    0 <= m < k && (#[trigger] limits[m]).symbol == instruments[i].symbol
                        && book[i] == Some(limits[m].value)
            &&& forall|m: int|
                0 <= m < k ==> exists|i: int|
                    0 <= i < book.len() && (#[trigger] instruments[i]).symbol == (
                    #[trigger] limits[m]).symbol && book[i] == Some(limits[m].value)
        }),
    decreases k,
{
    if k > 0 {
        books_hold_the_limits(instruments, limits, k - 1);
        let before = config::book_of(instruments, limits, k - 1)->Ok_0;
        let book = config::book_of(instruments, limits, k)->Ok_0;
        let next = limits[k - 1];
        found_has_the_symbol(instruments, next.symbol, 0);
        let at = config::found(instruments, next.symbol, 0)->Some_0;
        assert forall|i: int| 0 <= i < book.len() && (#[trigger] book[i]) is Some implies exists|
            m: int,
        |
            0 <= m < k && (#[trigger] limits[m]).symbol == instruments[i].symbol && book[i] == Some(
                limits[m].value,
            ) by {
            if i == at {
                assert(limits[k - 1].symbol == instruments[i].symbol);
            } else {
                assert(before[i] is Some);
            }
        }
        assert forall|m: int| 0 <= m < k implies exists|i: int|
            0 <= i < book.len() && (#[trigger] instruments[i]).symbol == (
            #[trigger] limits[m]).symbol && book[i] == Some(limits[m].value) by {
            if m == k - 1 {
                assert(instruments[at].symbol == limits[m].symbol && book[at] == Some(
                    limits[m].value,
                ));
            } else {
                let i = choose|i: int|
                    0 <= i < before.len() && (#[trigger] instruments[i]).symbol == limits[m].symbol
                        && before[i] == Some(limits[m].value);
                assert(before[i] is Some && before[at] is None);
                assert(instruments[i].symbol == limits[m].symbol && book[i] == Some(
                    limits[m].value,
                ));
            }
        }
    }
}

proof fn resolved_in_order(
    instruments: Seq<InstrumentView>,
    strategies: Seq<WaitingView<StrategyKind>>,
    k: int,
)
    requires
        0 <= k <= strategies.len(),
        config::resolved(instruments, strategies, k) is Ok,
    ensures
        ({
            let list = config::resolved(instruments, strategies, k)->Ok_0;
            &&& list.len() == k
            &&& forall|j: int|
                0 <= j < k ==> {
                    &&& (#[trigger] list[j]).symbol == strategies[j].symbol
                    &&& list[j].kind == strategies[j].value
                }
        }),
    decreases k,
{
    if k > 0 {
        resolved_in_order(instruments, strategies, k - 1);
    }
}

/// What a config is made of. Its instruments are those of its instrument lines, in
/// their order, each with the conventions that its line sets. Its strategies are
/// those of its strategy lines, in their order, each with the settings that its line
/// sets. The bounds of an instrument are those that a limits line of its symbol sets:
/// its greatest exposure is what that line says behind `max-exposure`, the greatest
/// notional of an order what it says behind `max-order-notional`, and so each.
pub proof fn configs_are_made_of_their_lines(
    text: &str,
    outside: &[Outside],
    config: SessionConfig,
)
    requires
        config::accounted(text@, outside@),
        call_ensures(
            SessionConfig::parse,
            (text, outside),
            Ok::<SessionConfig, ConfigError>(config),
        ),
    ensures
        ({
            let lines = config::lines_of(text@);
            let n = lines.len() as int;
            let instruments = starting_with(lines, "instrument"@, n);
            let limits = starting_with(lines, "limits"@, n);
            let strategies = starting_with(lines, "strategy"@, n);
            &&& config.instruments@.len() == instruments.len()
            &&& forall|j: int|
                0 <= j < instruments.len() ==> line_declares(
                    lines,
                    outside@,
                    instruments[j],
                    DirectiveView::Instrument {
                        symbol: (#[trigger] config.instruments@[j]).symbol@,
                        tick: config.instruments@[j].instrument.tick,
                        lot: config.instruments@[j].instrument.lot,
                        min: config.instruments@[j].instrument.min_qty,
                    },
                )
            &&& config.strategies@.len() == strategies.len()
            &&& forall|j: int|
                0 <= j < strategies.len() ==> line_declares(
                    lines,
                    outside@,
                    strategies[j],
                    DirectiveView::Strategy {
                        symbol: (#[trigger] config.strategies@[j]).symbol@,
                        kind: config.strategies@[j].kind,
                    },
                )
            &&& config.limits@.len() == instruments.len()
            &&& forall|j: int|
                0 <= j < instruments.len() ==> {
                    &&& config.limits@[j] is Some
                    &&& exists|k: int|
                        0 <= k < limits.len() && line_declares(
                            lines,
                            outside@,
                            #[trigger] limits[k],
                            DirectiveView::Limits {
                                symbol: (#[trigger] config.instruments@[j]).symbol@,
                                limits: config.limits@[j]->Some_0,
                            },
                        )
                }
            &&& forall|k: int|
                0 <= k < limits.len() ==> exists|j: int|
                    0 <= j < instruments.len() && config.limits@[j] is Some && line_declares(
                        lines,
                        outside@,
                        #[trigger] limits[k],
                        DirectiveView::Limits {
                            symbol: (#[trigger] config.instruments@[j]).symbol@,
                            limits: config.limits@[j]->Some_0,
                        },
                    )
        }),
{
    let lines = config::lines_of(text@);
    let n = lines.len() as int;
    drafts_are_declared(lines, outside@, n);
    let draft = config::draft_of(lines, outside@, n)->Ok_0;
    config::config_is_closed(text@, outside@);
    books_hold_the_limits(draft.instruments, draft.limits, draft.limits.len() as int);
    resolved_in_order(draft.instruments, draft.strategies, draft.strategies.len() as int);
    let instruments = starting_with(lines, "instrument"@, n);
    let limits = starting_with(lines, "limits"@, n);
    let strategies = starting_with(lines, "strategy"@, n);
    let view = config@;
    assert(view.instruments == draft.instruments);
    assert forall|j: int| 0 <= j < instruments.len() implies line_declares(
        lines,
        outside@,
        instruments[j],
        DirectiveView::Instrument {
            symbol: (#[trigger] config.instruments@[j]).symbol@,
            tick: config.instruments@[j].instrument.tick,
            lot: config.instruments@[j].instrument.lot,
            min: config.instruments@[j].instrument.min_qty,
        },
    ) by {
        assert(view.instruments[j] == config.instruments@[j]@);
    }
    assert forall|j: int| 0 <= j < strategies.len() implies line_declares(
        lines,
        outside@,
        strategies[j],
        DirectiveView::Strategy {
            symbol: (#[trigger] config.strategies@[j]).symbol@,
            kind: config.strategies@[j].kind,
        },
    ) by {
        assert(view.strategies[j] == config.strategies@[j]@);
    }
    assert forall|j: int| 0 <= j < instruments.len() implies config.limits@[j] is Some && exists|
        k: int,
    |
        0 <= k < limits.len() && line_declares(
            lines,
            outside@,
            #[trigger] limits[k],
            DirectiveView::Limits {
                symbol: (#[trigger] config.instruments@[j]).symbol@,
                limits: config.limits@[j]->Some_0,
            },
        ) by {
        assert(view.instruments[j] == config.instruments@[j]@);
        assert(view.limits[j] is Some);
        let m = choose|m: int|
            0 <= m < draft.limits.len() && (#[trigger] draft.limits[m]).symbol
                == draft.instruments[j].symbol && view.limits[j] == Some(draft.limits[m].value);
        assert(line_declares(
            lines,
            outside@,
            limits[m],
            DirectiveView::Limits {
                symbol: draft.limits[m].symbol,
                limits: draft.limits[m].value,
            },
        ));
    }
    assert forall|k: int| 0 <= k < limits.len() implies exists|j: int|
        0 <= j < instruments.len() && config.limits@[j] is Some && line_declares(
            lines,
            outside@,
            #[trigger] limits[k],
            DirectiveView::Limits {
                symbol: (#[trigger] config.instruments@[j]).symbol@,
                limits: config.limits@[j]->Some_0,
            },
        ) by {
        assert(draft.limits[k] == draft.limits[k]);
        let j = choose|j: int|
            0 <= j < view.limits.len() && (#[trigger] draft.instruments[j]).symbol
                == draft.limits[k].symbol && view.limits[j] == Some(draft.limits[k].value);
        assert(view.instruments[j] == config.instruments@[j]@);
    }
}

proof fn draft_fault_is_kept(lines: Seq<Seq<char>>, outside: Seq<Outside>, at: int, n: int)
    requires
        0 <= at < n,
        config::draft_of(lines, outside, at + 1) is Err,
    ensures
        config::draft_of(lines, outside, n) == config::draft_of(lines, outside, at + 1),
    decreases n,
{
    if at + 1 < n {
        draft_fault_is_kept(lines, outside, at, n - 1);
    }
}

/// The first line that cannot be read is the one that a refusal names, counted from
/// one, with what is wrong with it, whatever follows: where it does not declare an
/// instrument again.
pub proof fn the_first_bad_line_is_named(
    text: &str,
    outside: &[Outside],
    line: &str,
    whole: &[Result<i64, String>],
    stems: &[Result<i64, String>],
    at: int,
    message: String,
    read: Result<SessionConfig, ConfigError>,
)
    requires
        config::accounted(text@, outside@),
        0 <= at < config::lines_of(text@).len() < u64::MAX,
        line@ == config::lines_of(text@)[at],
        whole@ == outside@[at].whole@,
        stems@ == outside@[at].stems@,
        config::draft_of(config::lines_of(text@), outside@, at) is Ok,
        config::content_of(line@)[0] != "instrument"@,
        call_ensures(
            Directive::read,
            (line, whole, stems),
            Err::<Option<Directive>, String>(message),
        ),
        call_ensures(SessionConfig::parse, (text, outside), read),
    ensures
        read matches Err(e) && e.line == at + 1 && e.message@ == message@,
{
    draft_fault_is_kept(
        config::lines_of(text@),
        outside@,
        at,
        config::lines_of(text@).len() as int,
    );
}

/// What `with` may set, and to what.
pub open spec fn may_be_set(
    kind: StrategyKind,
    key: Seq<char>,
    value: Seq<char>,
    reading: Result<i64, String>,
) -> bool {
    let whole = words::int_of(value, false) matches Some(n) && n <= u32::MAX;
    match kind {
        StrategyKind::Crossover { .. } => {
            ||| key == "window"@ && whole && words::int_of(value, false) != Some(0int)
            ||| key == "bars"@ && whole
            ||| key == "size"@ && reading is Ok && reading->Ok_0 > 0
        },
        StrategyKind::Quote { .. } => {
            ||| (key == "half-spread"@ || key == "size"@) && reading is Ok && reading->Ok_0 > 0
            ||| (key == "reprice"@ || key == "max-inventory"@) && reading is Ok
        },
    }
}

/// Changing a setting of a strategy changes that one, to what the value is read as,
/// and no other, nor what the strategy trades. It is changed exactly where the
/// strategy takes that setting and the value is one that it can have.
pub proof fn a_setting_changes_alone(
    strategy: StrategyConfig,
    key: &str,
    value: &str,
    reading: Result<i64, String>,
    changed: Result<StrategyConfig, ConfigError>,
)
    requires
        call_ensures(StrategyConfig::with, (&strategy, key, value, &reading), changed),
    ensures
        changed is Ok <==> may_be_set(strategy.kind, key@, value@, reading),
        changed matches Ok(c) ==> {
            &&& c.instrument == strategy.instrument
            &&& c.symbol@ == strategy.symbol@
            &&& match (strategy.kind, c.kind) {
                (
                    StrategyKind::Crossover { window, size, bars },
                    StrategyKind::Crossover { window: w, size: s, bars: b },
                ) => {
                    &&& if key@ == "window"@ {
                        words::int_of(value@, false) == Some(w as int)
                    } else {
                        w == window
                    }
                    &&& if key@ == "size"@ {
                        s.0 == reading->Ok_0
                    } else {
                        s == size
                    }
                    &&& if key@ == "bars"@ {
                        words::int_of(value@, false) == Some(b->threshold as int)
                    } else {
                        b == bars
                    }
                },
                (
                    StrategyKind::Quote { half_spread, size, reprice, max_inventory },
                    StrategyKind::Quote {
                        half_spread: h,
                        size: s,
                        reprice: r,
                        max_inventory: m,
                    },
                ) => {
                    &&& if key@ == "half-spread"@ {
                        h.0 == reading->Ok_0
                    } else {
                        h == half_spread
                    }
                    &&& if key@ == "size"@ {
                        s.0 == reading->Ok_0
                    } else {
                        s == size
                    }
                    &&& if key@ == "reprice"@ {
                        r.0 == reading->Ok_0
                    } else {
                        r == reprice
                    }
                    &&& if key@ == "max-inventory"@ {
                        m.0 == reading->Ok_0
                    } else {
                        m == max_inventory
                    }
                },
                _ => false,
            }
        },
{
    reveal_strlit("window");
    reveal_strlit("size");
    reveal_strlit("bars");
    reveal_strlit("half-spread");
    reveal_strlit("reprice");
    reveal_strlit("max-inventory");
    assert("size"@[0] == 's' && "bars"@[0] == 'b');
}

/// The bounds that are set for an instrument are the ones that are got of it, and
/// those of any other stay as they were; there are none for one that there is not.
pub proof fn bounds_are_got_as_set(
    book: &mut LimitBook,
    id: InstrumentId,
    limits: Limits,
    known: bool,
    other: InstrumentId,
    got: Option<Limits>,
    was: Option<Limits>,
    is: Option<Limits>,
)
    requires
        call_ensures(LimitBook::set, (book, id, limits), known),
        call_ensures(LimitBook::get, (final(book), id), got),
        call_ensures(LimitBook::get, (old(book), other), was),
        call_ensures(LimitBook::get, (final(book), other), is),
    ensures
        known <==> id.0 < old(book)@.len(),
        known ==> got == Some(limits),
        !known ==> got is None,
        other != id ==> is == was,
        final(book)@.len() == old(book)@.len(),
{
}

} // verus!
