//! What does not matter about how a config is written: the order of a line's
//! settings, comments, and blank lines.
use vstd::prelude::*;

use crate::config;
use crate::config::{
    DirectiveView, Draft, InstrumentView, Limits, Outside, Section, StrategyKind, WaitingView,
};
use crate::words;

verus! {

/// A reader of words: what it reads in one depends on that word alone.
pub type Reader = spec_fn(Seq<char>) -> Result<i64, String>;

/// Where the settings of a line start: behind the directive and its subject.
pub open spec fn head_of(words: Seq<Seq<char>>) -> int {
    if words.len() > 0 && words[0] == "strategy"@ {
        3
    } else {
        2
    }
}

/// The settings from the word `from` on, each with its value.
pub open spec fn settings_of(words: Seq<Seq<char>>, from: int) -> Seq<(Seq<char>, Seq<char>)> {
    Seq::new(
        if words.len() <= from {
            0
        } else {
            ((words.len() - from) / 2) as nat
        },
        |j: int| (words[from + 2 * j], words[from + 2 * j + 1]),
    )
}

/// Whether `b` is `a` with its settings in some other order, each with its value.
pub open spec fn reordered(a: Seq<Seq<char>>, b: Seq<Seq<char>>) -> bool {
    &&& a.len() == b.len()
    &&& forall|i: int| 0 <= i < a.len() && i < head_of(a) ==> #[trigger] a[i] == b[i]
    &&& settings_of(a, head_of(a)).to_multiset() == settings_of(b, head_of(a)).to_multiset()
}

/// The words of each of the first `n` lines that is not blank.
pub open spec fn statements_of(lines: Seq<Seq<char>>, n: int) -> Seq<Seq<Seq<char>>>
    decreases n,
{
    if n <= 0 {
        Seq::empty()
    } else {
        let before = statements_of(lines, n - 1);
        let words = config::content_of(lines[n - 1]);
        if words.len() == 0 {
            before
        } else {
            before.push(words)
        }
    }
}

/// Every statement of a text, comments and blank lines left out.
pub open spec fn statements(text: Seq<char>) -> Seq<Seq<Seq<char>>> {
    statements_of(config::lines_of(text), config::lines_of(text).len() as int)
}

/// Whether `b` says what `a` says: the same statements in the same order, each
/// with its settings in some order.
pub open spec fn says_the_same(a: Seq<char>, b: Seq<char>) -> bool {
    &&& statements(a).len() == statements(b).len()
    &&& forall|i: int|
        0 <= i < statements(a).len() ==> reordered(#[trigger] statements(a)[i], statements(b)[i])
}

/// What a reader reads in each word.
pub open spec fn readings(words: Seq<Seq<char>>, read: Reader) -> Seq<Result<i64, String>> {
    words.map_values(read)
}

/// Whether what was found about each line is what two readers of its words read,
/// and what is judged of the declaration that it makes.
pub open spec fn found_by(
    text: Seq<char>,
    outside: Seq<Outside>,
    whole: Reader,
    stem: Reader,
    verdict: spec_fn(DirectiveView) -> Result<(), String>,
) -> bool {
    let lines = config::lines_of(text);
    &&& outside.len() == lines.len()
    &&& forall|i: int|
        0 <= i < outside.len() ==> {
            let words = config::content_of(lines[i]);
            &&& (#[trigger] outside[i]).whole@ == readings(words, whole)
            &&& outside[i].stems@ == readings(words, stem)
            &&& config::directive_of(
                words,
                readings(words, whole),
                readings(words, stem),
            ) matches Ok(d) ==> outside[i].verdict == verdict(d)
        }
}

// ---- one line --------------------------------------------------------------
/// Whether every setting has a value, and none is given twice.
spec fn tidy(words: Seq<Seq<char>>, from: int) -> bool {
    &&& from <= words.len()
    &&& (words.len() - from) % 2 == 0
    &&& forall|i: int, j: int|
        0 <= i < j < settings_of(words, from).len() ==> (#[trigger] settings_of(words, from)[i]).0
            != (#[trigger] settings_of(words, from)[j]).0
}

proof fn given_is(words: Seq<Seq<char>>, from: int, k: int, key: Seq<char>)
    requires
        0 <= from,
        0 <= k,
    ensures
        config::given(words, from, from + 2 * k, key) <==> exists|j: int|
            0 <= j < k && #[trigger] words[from + 2 * j] == key,
    decreases k,
{
    if k > 0 {
        given_is(words, from + 2, k - 1, key);
        assert(from + 2 + 2 * (k - 1) == from + 2 * k);
        if words[from] == key {
            assert(words[from + 2 * 0] == key);
        } else if config::given(words, from, from + 2 * k, key) {
            let j = choose|j: int| 0 <= j < k - 1 && #[trigger] words[from + 2 + 2 * j] == key;
            assert(words[from + 2 * (j + 1)] == key);
        } else {
            assert forall|j: int| 0 <= j < k implies #[trigger] words[from + 2 * j] != key by {
                if j > 0 {
                    assert(words[from + 2 + 2 * (j - 1)] != key);
                }
            }
        }
    }
}

proof fn pairs_are_tidy_from(words: Seq<Seq<char>>, from: int, k: int)
    requires
        0 <= from,
        0 <= k,
        from + 2 * k <= words.len(),
    ensures
        config::pairs_fault(words, from, from + 2 * k) is None <==> {
            &&& (words.len() - from) % 2 == 0
            &&& forall|i: int, j: int|
                0 <= i < j < settings_of(words, from).len() && k <= j ==> (
                #[trigger] settings_of(words, from)[i]).0 != (
                #[trigger] settings_of(words, from)[j]).0
        },
    decreases words.len() - from - 2 * k,
{
    let at = from + 2 * k;
    let all = settings_of(words, from);
    if at + 1 < words.len() {
        pairs_are_tidy_from(words, from, k + 1);
        given_is(words, from, k, words[at]);
        assert(k < all.len());
        assert(all[k].0 == words[at]);
        if config::given(words, from, at, words[at]) {
            let j = choose|j: int| 0 <= j < k && #[trigger] words[from + 2 * j] == words[at];
            assert(all[j].0 == all[k].0);
        } else {
            assert forall|i: int| 0 <= i < k implies (#[trigger] all[i]).0 != all[k].0 by {
                assert(words[from + 2 * i] != words[at]);
            }
        }
    }
}

proof fn pairs_are_tidy(words: Seq<Seq<char>>, from: int)
    requires
        0 <= from <= words.len(),
    ensures
        config::pairs_fault(words, from, from) is None <==> tidy(words, from),
{
    pairs_are_tidy_from(words, from, 0);
}

/// A setting's value stands behind it, and one that is not found is not there.
proof fn value_is(words: Seq<Seq<char>>, from: int, key: Seq<char>)
    requires
        0 <= from,
    ensures
        match config::value_at(words, from, key) {
            Some(i) => {
                &&& from < i < words.len()
                &&& (i - from - 1) % 2 == 0
                &&& settings_of(words, from).contains((key, words[i]))
            },
            None => forall|j: int|
                0 <= j < settings_of(words, from).len() ==> (#[trigger] settings_of(
                    words,
                    from,
                )[j]).0 != key,
        },
    decreases words.len() - from,
{
    let all = settings_of(words, from);
    if from + 1 < words.len() {
        if words[from] == key {
            assert(all[0] == (key, words[from + 1]));
        } else {
            value_is(words, from + 2, key);
            let rest = settings_of(words, from + 2);
            assert forall|j: int| 0 <= j < rest.len() implies #[trigger] rest[j] == all[j + 1] by {
                assert(from + 2 + 2 * j == from + 2 * (j + 1));
            }
            match config::value_at(words, from + 2, key) {
                Some(i) => {
                    let j = rest.index_of((key, words[i]));
                    assert(all[j + 1] == rest[j]);
                },
                None => {
                    assert forall|j: int| 0 <= j < all.len() implies (#[trigger] all[j]).0
                        != key by {
                        if j > 0 {
                            assert(all[j] == rest[j - 1]);
                        }
                    }
                },
            }
        }
    }
}

proof fn strays_are(words: Seq<Seq<char>>, from: int, section: Section)
    requires
        0 <= from <= words.len(),
        (words.len() - from) % 2 == 0,
    ensures
        config::stray_fault(words, from, section) is None <==> forall|j: int|
            0 <= j < settings_of(words, from).len() ==> section.takes(
                (#[trigger] settings_of(words, from)[j]).0,
            ),
    decreases words.len() - from,
{
    let all = settings_of(words, from);
    if from < words.len() {
        strays_are(words, from + 2, section);
        let rest = settings_of(words, from + 2);
        assert forall|j: int| 0 <= j < rest.len() implies #[trigger] rest[j] == all[j + 1] by {
            assert(from + 2 + 2 * j == from + 2 * (j + 1));
        }
        assert(all[0].0 == words[from]);
        if config::stray_fault(words, from, section) is None {
            assert forall|j: int| 0 <= j < all.len() implies section.takes(
                (#[trigger] all[j]).0,
            ) by {
                if j > 0 {
                    assert(all[j] == rest[j - 1]);
                }
            }
        } else if section.takes(words[from]) {
            let j = choose|j: int| 0 <= j < rest.len() && !section.takes((#[trigger] rest[j]).0);
            assert(all[j + 1] == rest[j]);
        }
    }
}

/// A setting is among one line's where it is among the other's.
proof fn same_settings(a: Seq<Seq<char>>, b: Seq<Seq<char>>, setting: (Seq<char>, Seq<char>))
    requires
        reordered(a, b),
    ensures
        settings_of(a, head_of(a)).contains(setting) <==> settings_of(b, head_of(a)).contains(
            setting,
        ),
        settings_of(a, head_of(a)).len() == settings_of(b, head_of(a)).len(),
{
    broadcast use vstd::seq_lib::group_to_multiset_ensures;

    let x = settings_of(a, head_of(a));
    let y = settings_of(b, head_of(a));
    assert(x.to_multiset().count(setting) > 0 <==> x.contains(setting));
    assert(y.to_multiset().count(setting) > 0 <==> y.contains(setting));
}

proof fn stays_tidy(a: Seq<Seq<char>>, b: Seq<Seq<char>>)
    requires
        reordered(a, b),
        tidy(a, head_of(a)),
    ensures
        tidy(b, head_of(a)),
{
    broadcast use vstd::seq_lib::group_to_multiset_ensures;

    let from = head_of(a);
    let x = settings_of(a, from);
    let y = settings_of(b, from);
    assert(x.no_duplicates());
    x.lemma_multiset_has_no_duplicates();
    assert forall|s: (Seq<char>, Seq<char>)| y.to_multiset().contains(s) implies
        #[trigger] y.to_multiset().count(s) == 1 by {
        assert(x.to_multiset().contains(s));
    }
    y.lemma_multiset_has_no_duplicates_conv();
    assert forall|i: int, j: int| 0 <= i < j < y.len() implies (#[trigger] y[i]).0 != (
    #[trigger] y[j]).0 by {
        if y[i].0 == y[j].0 {
            assert(y[i] != y[j]);
            assert(y.contains(y[i]) && y.contains(y[j]));
            same_settings(a, b, y[i]);
            same_settings(a, b, y[j]);
            let k = x.index_of(y[i]);
            let l = x.index_of(y[j]);
            assert(x[k].0 == x[l].0);
            if k < l {
                assert(x[k].0 != x[l].0);
            } else {
                assert(x[l].0 != x[k].0);
            }
        }
    }
}

/// A setting has the same value in both lines, or is in neither.
proof fn same_value(a: Seq<Seq<char>>, b: Seq<Seq<char>>, key: Seq<char>)
    requires
        reordered(a, b),
        tidy(a, head_of(a)),
    ensures
        match (config::value_at(a, head_of(a), key), config::value_at(b, head_of(a), key)) {
            (Some(i), Some(j)) => 0 <= i < a.len() && 0 <= j < b.len() && a[i] == b[j],
            (None, None) => true,
            _ => false,
        },
{
    let from = head_of(a);
    let x = settings_of(a, from);
    let y = settings_of(b, from);
    value_is(a, from, key);
    value_is(b, from, key);
    stays_tidy(a, b);
    if let Some(i) = config::value_at(a, from, key) {
        same_settings(a, b, (key, a[i]));
        let k = y.index_of((key, a[i]));
        assert(y[k].0 == key);
        if let Some(j) = config::value_at(b, from, key) {
            let l = y.index_of((key, b[j]));
            assert(y[l].0 == key);
            if k < l {
                assert(y[k].0 != y[l].0);
            } else if l < k {
                assert(y[l].0 != y[k].0);
            }
        }
    } else if let Some(j) = config::value_at(b, from, key) {
        same_settings(a, b, (key, b[j]));
        let k = x.index_of((key, b[j]));
        assert(x[k].0 == key);
    }
}

proof fn same_missing(a: Seq<Seq<char>>, b: Seq<Seq<char>>, section: Section, k: int)
    requires
        reordered(a, b),
        tidy(a, head_of(a)),
        0 <= k,
    ensures
        config::missing_fault(a, head_of(a), section, k) == config::missing_fault(
            b,
            head_of(a),
            section,
            k,
        ),
    decreases section.needs().len() - k,
{
    if k < section.needs().len() {
        same_value(a, b, section.needs()[k]);
        same_missing(a, b, section, k + 1);
    }
}

proof fn settings_stay_in_order(a: Seq<Seq<char>>, b: Seq<Seq<char>>, section: Section)
    requires
        reordered(a, b),
        head_of(a) <= a.len(),
        config::settings_fault(a, head_of(a), section) is None,
    ensures
        tidy(a, head_of(a)),
        config::settings_fault(b, head_of(a), section) is None,
{
    let from = head_of(a);
    let x = settings_of(a, from);
    let y = settings_of(b, from);
    pairs_are_tidy(a, from);
    stays_tidy(a, b);
    pairs_are_tidy(b, from);
    strays_are(a, from, section);
    strays_are(b, from, section);
    assert forall|j: int| 0 <= j < y.len() implies section.takes((#[trigger] y[j]).0) by {
        assert(y.contains(y[j]));
        same_settings(a, b, y[j]);
        let i = x.index_of(y[j]);
        assert(x[i] == y[j]);
    }
    same_missing(a, b, section, 0);
}

proof fn same_readings(
    a: Seq<Seq<char>>,
    b: Seq<Seq<char>>,
    key: Seq<char>,
    whole: Reader,
    stem: Reader,
)
    requires
        reordered(a, b),
        tidy(a, head_of(a)),
    ensures
        config::value_at(a, head_of(a), key) is None <==> config::value_at(
            b,
            head_of(a),
            key,
        ) is None,
        config::decimal_of(a, head_of(a), key, readings(a, whole)) == config::decimal_of(
            b,
            head_of(a),
            key,
            readings(b, whole),
        ),
        config::count_of(a, head_of(a), key) == config::count_of(b, head_of(a), key),
        config::span_of(a, head_of(a), key, readings(a, stem)) == config::span_of(
            b,
            head_of(a),
            key,
            readings(b, stem),
        ),
{
    same_value(a, b, key);
}

/// A line declares the same with its settings in any order.
proof fn same_declaration(
    a: Seq<Seq<char>>,
    b: Seq<Seq<char>>,
    whole: Reader,
    stem: Reader,
    declared: DirectiveView,
)
    requires
        a.len() > 0,
        reordered(a, b),
        config::directive_of(a, readings(a, whole), readings(a, stem)) == Ok::<
            DirectiveView,
            Seq<char>,
        >(declared),
    ensures
        config::directive_of(b, readings(b, whole), readings(b, stem)) == Ok::<
            DirectiveView,
            Seq<char>,
        >(declared),
{
    assert(a[0] == b[0]);
    reveal_strlit("instrument");
    reveal_strlit("limits");
    reveal_strlit("strategy");
    if a[0] == "instrument"@ {
        assert(a[0].len() != "strategy"@.len());
        assert(a[1] == b[1]);
        settings_stay_in_order(a, b, Section::Instrument);
        same_readings(a, b, "tick"@, whole, stem);
        same_readings(a, b, "lot"@, whole, stem);
        same_readings(a, b, "min"@, whole, stem);
    } else if a[0] == "limits"@ {
        assert(a[0].len() != "strategy"@.len());
        assert(a[1] == b[1]);
        settings_stay_in_order(a, b, Section::Limits);
        same_readings(a, b, "max-position"@, whole, stem);
        same_readings(a, b, "max-exposure"@, whole, stem);
        same_readings(a, b, "max-order-notional"@, whole, stem);
        same_readings(a, b, "max-orders"@, whole, stem);
        same_readings(a, b, "rate-window"@, whole, stem);
        same_readings(a, b, "max-quote-age"@, whole, stem);
        assert(config::limits_of(a, 2, readings(a, whole), readings(a, stem)) == config::limits_of(
            b,
            2,
            readings(b, whole),
            readings(b, stem),
        ));
    } else {
        assert(a[1] == b[1] && a[2] == b[2]);
        if a[1] == "crossover"@ {
            settings_stay_in_order(a, b, Section::Crossover);
            same_readings(a, b, "window"@, whole, stem);
            same_readings(a, b, "size"@, whole, stem);
            same_readings(a, b, "bars"@, whole, stem);
            assert(config::crossover_of(a, 3, readings(a, whole)) == config::crossover_of(
                b,
                3,
                readings(b, whole),
            ));
        } else {
            settings_stay_in_order(a, b, Section::Quote);
            same_readings(a, b, "half-spread"@, whole, stem);
            same_readings(a, b, "size"@, whole, stem);
            same_readings(a, b, "reprice"@, whole, stem);
            same_readings(a, b, "max-inventory"@, whole, stem);
            assert(config::quote_of(a, 3, readings(a, whole)) == config::quote_of(
                b,
                3,
                readings(b, whole),
            ));
        }
    }
}

// ---- a whole text ----------------------------------------------------------
/// The verdict on what a statement declares.
spec fn judged(
    words: Seq<Seq<char>>,
    whole: Reader,
    stem: Reader,
    verdict: spec_fn(DirectiveView) -> Result<(), String>,
) -> Result<(), String> {
    match config::directive_of(words, readings(words, whole), readings(words, stem)) {
        Ok(d) => verdict(d),
        Err(_) => Ok(()),
    }
}

/// A draft without the numbers of the lines it was read from.
spec fn unnumbered(draft: Draft) -> Draft {
    Draft {
        instruments: draft.instruments,
        limits: draft.limits.map_values(|w: WaitingView<Limits>| WaitingView { line: 0, ..w }),
        strategies: draft.strategies.map_values(
            |w: WaitingView<StrategyKind>| WaitingView { line: 0, ..w },
        ),
    }
}

/// What the first `n` statements make of a config, no line numbered.
spec fn sketched(
    statements: Seq<Seq<Seq<char>>>,
    whole: Reader,
    stem: Reader,
    verdict: spec_fn(DirectiveView) -> Result<(), String>,
    n: int,
) -> Option<Draft>
    decreases n,
{
    if n <= 0 {
        Some(Draft { instruments: Seq::empty(), limits: Seq::empty(), strategies: Seq::empty() })
    } else {
        match sketched(statements, whole, stem, verdict, n - 1) {
            None => None,
            Some(draft) => {
                let words = statements[n - 1];
                match config::drafted(
                    draft,
                    0,
                    words,
                    readings(words, whole),
                    readings(words, stem),
                    judged(words, whole, stem, verdict),
                ) {
                    Ok(draft) => Some(draft),
                    Err(_) => None,
                }
            },
        }
    }
}

/// One more line makes the same of a draft, numbered or not.
proof fn line_number_is_idle(
    draft: Draft,
    number: u64,
    words: Seq<Seq<char>>,
    whole: Seq<Result<i64, String>>,
    stems: Seq<Result<i64, String>>,
    verdict: Result<(), String>,
)
    requires
        words.len() > 0,
    ensures
        match (
            config::drafted(draft, number, words, whole, stems, verdict),
            config::drafted(unnumbered(draft), 0, words, whole, stems, verdict),
        ) {
            (Ok(a), Ok(b)) => unnumbered(a) == b,
            (Err(_), Err(_)) => true,
            _ => false,
        },
{
    if let Ok(a) = config::drafted(draft, number, words, whole, stems, verdict) {
        if let Ok(b) = config::drafted(unnumbered(draft), 0, words, whole, stems, verdict) {
            assert(unnumbered(a).limits =~= b.limits);
            assert(unnumbered(a).strategies =~= b.strategies);
        }
    }
}

proof fn verdict_matters_only_where_declared(
    draft: Draft,
    words: Seq<Seq<char>>,
    whole: Seq<Result<i64, String>>,
    stems: Seq<Result<i64, String>>,
    one: Result<(), String>,
    other: Result<(), String>,
)
    requires
        config::directive_of(words, whole, stems) is Ok ==> one == other,
    ensures
        config::drafted(draft, 0, words, whole, stems, one) == config::drafted(
            draft,
            0,
            words,
            whole,
            stems,
            other,
        ),
{
}

/// A draft is what its statements make of it.
proof fn draft_is_its_statements(
    text: Seq<char>,
    outside: Seq<Outside>,
    whole: Reader,
    stem: Reader,
    verdict: spec_fn(DirectiveView) -> Result<(), String>,
    n: int,
)
    requires
        found_by(text, outside, whole, stem, verdict),
        0 <= n <= config::lines_of(text).len(),
    ensures
        ({
            let made = statements_of(config::lines_of(text), n);
            match (
                config::draft_of(config::lines_of(text), outside, n),
                sketched(made, whole, stem, verdict, made.len() as int),
            ) {
                (Ok(draft), Some(sketch)) => unnumbered(draft) == sketch,
                (Err(_), None) => true,
                _ => false,
            }
        }),
    decreases n,
{
    let lines = config::lines_of(text);
    let made = statements_of(lines, n);
    if n == 0 {
        let empty = Draft {
            instruments: Seq::empty(),
            limits: Seq::empty(),
            strategies: Seq::empty(),
        };
        assert(unnumbered(empty) =~= empty);
    } else {
        draft_is_its_statements(text, outside, whole, stem, verdict, n - 1);
        let before = statements_of(lines, n - 1);
        let words = config::content_of(lines[n - 1]);
        let line = outside[n - 1];
        if words.len() > 0 {
            assert(made.last() == words);
            prefix_makes_the_same(before, made, whole, stem, verdict, before.len() as int);
            if let Ok(draft) = config::draft_of(lines, outside, n - 1) {
                line_number_is_idle(
                    draft,
                    n as u64,
                    words,
                    line.whole@,
                    line.stems@,
                    line.verdict,
                );
                verdict_matters_only_where_declared(
                    unnumbered(draft),
                    words,
                    line.whole@,
                    line.stems@,
                    line.verdict,
                    judged(words, whole, stem, verdict),
                );
            }
        }
    }
}

proof fn prefix_makes_the_same(
    some: Seq<Seq<Seq<char>>>,
    more: Seq<Seq<Seq<char>>>,
    whole: Reader,
    stem: Reader,
    verdict: spec_fn(DirectiveView) -> Result<(), String>,
    n: int,
)
    requires
        0 <= n <= some.len() <= more.len(),
        forall|i: int| 0 <= i < some.len() ==> #[trigger] some[i] == more[i],
    ensures
        sketched(some, whole, stem, verdict, n) == sketched(more, whole, stem, verdict, n),
    decreases n,
{
    if n > 0 {
        prefix_makes_the_same(some, more, whole, stem, verdict, n - 1);
    }
}

proof fn statements_have_words(lines: Seq<Seq<char>>, n: int)
    ensures
        forall|i: int|
            0 <= i < statements_of(lines, n).len() ==> (#[trigger] statements_of(lines, n)[i]).len()
                > 0,
    decreases n,
{
    if n > 0 {
        statements_have_words(lines, n - 1);
        let before = statements_of(lines, n - 1);
        let made = statements_of(lines, n);
        assert forall|i: int| 0 <= i < made.len() implies (#[trigger] made[i]).len() > 0 by {
            if i < before.len() {
                assert(made[i] == before[i]);
            }
        }
    }
}

/// Reordered statements make the same.
proof fn reordered_make_the_same(
    a: Seq<Seq<Seq<char>>>,
    b: Seq<Seq<Seq<char>>>,
    whole: Reader,
    stem: Reader,
    verdict: spec_fn(DirectiveView) -> Result<(), String>,
    n: int,
)
    requires
        a.len() == b.len(),
        0 <= n <= a.len(),
        forall|i: int| 0 <= i < a.len() ==> reordered(#[trigger] a[i], b[i]) && a[i].len() > 0,
        sketched(a, whole, stem, verdict, n) is Some,
    ensures
        sketched(b, whole, stem, verdict, n) == sketched(a, whole, stem, verdict, n),
    decreases n,
{
    if n > 0 {
        reordered_make_the_same(a, b, whole, stem, verdict, n - 1);
        let x = a[n - 1];
        let y = b[n - 1];
        assert(x[0] == y[0]);
        assert(x.len() > 1 ==> x[1] == y[1]);
        let declared = config::directive_of(x, readings(x, whole), readings(x, stem))->Ok_0;
        same_declaration(x, y, whole, stem, declared);
    }
}

proof fn same_book(
    instruments: Seq<InstrumentView>,
    a: Seq<WaitingView<Limits>>,
    b: Seq<WaitingView<Limits>>,
    k: int,
)
    requires
        0 <= k <= a.len() == b.len(),
        forall|i: int|
            0 <= i < a.len() ==> (#[trigger] a[i]).symbol == b[i].symbol && a[i].value
                == b[i].value,
        config::book_of(instruments, a, k) is Ok,
    ensures
        config::book_of(instruments, b, k) == config::book_of(instruments, a, k),
    decreases k,
{
    if k > 0 {
        same_book(instruments, a, b, k - 1);
        assert(a[k - 1].symbol == b[k - 1].symbol);
    }
}

proof fn same_strategies(
    instruments: Seq<InstrumentView>,
    a: Seq<WaitingView<StrategyKind>>,
    b: Seq<WaitingView<StrategyKind>>,
    k: int,
)
    requires
        0 <= k <= a.len() == b.len(),
        forall|i: int|
            0 <= i < a.len() ==> (#[trigger] a[i]).symbol == b[i].symbol && a[i].value
                == b[i].value,
        config::resolved(instruments, a, k) is Ok,
    ensures
        config::resolved(instruments, b, k) == config::resolved(instruments, a, k),
    decreases k,
{
    if k > 0 {
        same_strategies(instruments, a, b, k - 1);
        assert(a[k - 1].symbol == b[k - 1].symbol);
    }
}

/// Where a draft makes a config, the numbers of its lines do not matter.
proof fn numbers_make_no_config(a: Draft, b: Draft)
    requires
        unnumbered(a) == unnumbered(b),
        config::finished(a) is Ok,
    ensures
        config::finished(b) == config::finished(a),
{
    assert(a.limits.len() == unnumbered(a).limits.len() == unnumbered(b).limits.len());
    assert(a.strategies.len() == unnumbered(a).strategies.len() == unnumbered(
        b,
    ).strategies.len());
    assert forall|i: int| 0 <= i < a.limits.len() implies (#[trigger] a.limits[i]).symbol
        == b.limits[i].symbol && a.limits[i].value == b.limits[i].value by {
        assert(unnumbered(a).limits[i] == WaitingView { line: 0, ..a.limits[i] });
        assert(unnumbered(b).limits[i] == WaitingView { line: 0, ..b.limits[i] });
    }
    assert forall|i: int| 0 <= i < a.strategies.len() implies (#[trigger] a.strategies[i]).symbol
        == b.strategies[i].symbol && a.strategies[i].value == b.strategies[i].value by {
        assert(unnumbered(a).strategies[i] == WaitingView { line: 0, ..a.strategies[i] });
        assert(unnumbered(b).strategies[i] == WaitingView { line: 0, ..b.strategies[i] });
    }
    same_book(a.instruments, a.limits, b.limits, a.limits.len() as int);
    same_strategies(a.instruments, a.strategies, b.strategies, a.strategies.len() as int);
}

/// How a config is laid out does not matter: with the settings of any line in
/// another order, and with comments and blank lines put in or left out, it is
/// the same config. Both texts are taken with what the same readers find in
/// their words, and the same verdicts on what they declare.
pub proof fn layout_does_not_matter(
    a: Seq<char>,
    b: Seq<char>,
    found_in_a: Seq<Outside>,
    found_in_b: Seq<Outside>,
    whole: Reader,
    stem: Reader,
    verdict: spec_fn(DirectiveView) -> Result<(), String>,
)
    requires
        found_by(a, found_in_a, whole, stem, verdict),
        found_by(b, found_in_b, whole, stem, verdict),
        says_the_same(a, b),
        config::config_of(a, found_in_a) is Ok,
    ensures
        config::config_of(b, found_in_b) == config::config_of(a, found_in_a),
{
    let m = config::lines_of(a).len() as int;
    let n = config::lines_of(b).len() as int;
    draft_is_its_statements(a, found_in_a, whole, stem, verdict, m);
    draft_is_its_statements(b, found_in_b, whole, stem, verdict, n);
    statements_have_words(config::lines_of(a), m);
    let s = statements(a);
    let t = statements(b);
    assert forall|i: int| 0 <= i < s.len() implies reordered(#[trigger] s[i], t[i])
        && s[i].len() > 0 by {
        assert(reordered(statements(a)[i], statements(b)[i]));
    }
    reordered_make_the_same(s, t, whole, stem, verdict, s.len() as int);
    numbers_make_no_config(
        config::draft_of(config::lines_of(a), found_in_a, m)->Ok_0,
        config::draft_of(config::lines_of(b), found_in_b, n)->Ok_0,
    );
}

proof fn before_is(s: Seq<char>, mark: char, n: int)
    requires
        0 <= n <= s.len(),
        forall|i: int| 0 <= i < n ==> s[i] != mark,
        n < s.len() ==> s[n] == mark,
    ensures
        words::before(s, mark) == n,
    decreases s.len(),
{
    if n > 0 {
        assert forall|i: int| 0 <= i < n - 1 implies s.skip(1)[i] != mark by {
            assert(s.skip(1)[i] == s[i + 1]);
        }
        before_is(s.skip(1), mark, n - 1);
    }
}

proof fn nothing_before(s: Seq<char>, mark: char)
    ensures
        words::before(s, mark) <= s.len(),
        forall|i: int| 0 <= i < words::before(s, mark) ==> s[i] != mark,
        words::before(s, mark) < s.len() ==> s[words::before(s, mark) as int] == mark,
    decreases s.len(),
{
    if s.len() > 0 && s[0] != mark {
        nothing_before(s.skip(1), mark);
        assert forall|i: int| 0 <= i < words::before(s, mark) implies s[i] != mark by {
            if i > 0 {
                assert(s.skip(1)[i - 1] == s[i]);
            }
        }
    }
}

/// A comment behind a line says nothing.
pub proof fn comment_says_nothing(line: Seq<char>, comment: Seq<char>)
    ensures
        config::content_of(line + seq!['#'] + comment) == config::content_of(line),
{
    let more = line + seq!['#'] + comment;
    let n = words::before(line, '#') as int;
    nothing_before(line, '#');
    assert forall|i: int| 0 <= i < n implies more[i] != '#' by {
        assert(more[i] == line[i]);
    }
    if n < line.len() {
        assert(more[n] == line[n]);
    }
    before_is(more, '#', n);
    assert(more.take(n) =~= line.take(n));
}

/// A line of white space says nothing.
pub proof fn blank_line_says_nothing(line: Seq<char>)
    requires
        forall|i: int| 0 <= i < line.len() ==> words::is_space(#[trigger] line[i]),
    ensures
        config::content_of(line).len() == 0,
{
    nothing_before(line, '#');
    let kept = line.take(words::before(line, '#') as int);
    assert forall|i: int| 0 <= i < kept.len() implies words::is_space(#[trigger] kept[i]) by {
        assert(kept[i] == line[i]);
    }
    spaces_hold_no_word(kept);
}

/// A text of lines, each with its end.
pub open spec fn text_of(lines: Seq<Seq<char>>) -> Seq<char>
    decreases lines.len(),
{
    if lines.len() == 0 {
        Seq::empty()
    } else {
        lines[0].push('\n') + text_of(lines.drop_first())
    }
}

/// Whether no line has another one in it.
pub open spec fn are_lines(lines: Seq<Seq<char>>) -> bool {
    forall|i: int| 0 <= i < lines.len() ==> !(#[trigger] lines[i]).contains('\n')
}

/// The lines of a text are those that it was made of.
pub proof fn lines_read_back(lines: Seq<Seq<char>>)
    requires
        are_lines(lines),
    ensures
        config::lines_of(text_of(lines)) == lines,
    decreases lines.len(),
{
    if lines.len() == 0 {
        assert(lines =~= Seq::empty());
    } else {
        let text = text_of(lines);
        let first = lines[0];
        let n = first.len() as int;
        let rest = lines.drop_first();
        assert forall|i: int| 0 <= i < rest.len() implies !(#[trigger] rest[i]).contains('\n') by {
            assert(rest[i] == lines[i + 1]);
        }
        lines_read_back(rest);
        assert forall|i: int| 0 <= i < n implies text[i] != '\n' by {
            assert(first.contains(first[i]));
        }
        before_is(text, '\n', n);
        assert(text.take(n) =~= first);
        assert(text.skip(n + 1) =~= text_of(rest));
        assert(seq![first] + rest =~= lines);
    }
}

proof fn same_contents_say_the_same(a: Seq<Seq<char>>, b: Seq<Seq<char>>, n: int)
    requires
        0 <= n <= a.len(),
        n <= b.len(),
        forall|i: int|
            0 <= i < n ==> config::content_of(#[trigger] a[i]) == config::content_of(b[i]),
    ensures
        statements_of(a, n) == statements_of(b, n),
    decreases n,
{
    if n > 0 {
        same_contents_say_the_same(a, b, n - 1);
        assert(config::content_of(a[n - 1]) == config::content_of(b[n - 1]));
    }
}

proof fn inserted_says_the_same(lines: Seq<Seq<char>>, at: int, line: Seq<char>, n: int)
    requires
        0 <= at <= n <= lines.len(),
        config::content_of(line).len() == 0,
    ensures
        statements_of(lines.insert(at, line), n + 1) == statements_of(lines, n),
    decreases n,
{
    let more = lines.insert(at, line);
    if n > at {
        inserted_says_the_same(lines, at, line, n - 1);
        assert(more[n] == lines[n - 1]);
    } else {
        assert(more[n] == line);
        same_contents_say_the_same(more, lines, n);
    }
}

/// A line without a word, blank or a comment, can be put in anywhere.
pub proof fn empty_line_changes_nothing(lines: Seq<Seq<char>>, at: int, line: Seq<char>)
    requires
        0 <= at <= lines.len(),
        are_lines(lines.insert(at, line)),
        config::content_of(line).len() == 0,
    ensures
        says_the_same(text_of(lines), text_of(lines.insert(at, line))),
{
    let more = lines.insert(at, line);
    assert forall|i: int| 0 <= i < lines.len() implies !(#[trigger] lines[i]).contains('\n') by {
        assert(lines[i] == more[if i < at {
            i
        } else {
            i + 1
        }]);
    }
    lines_read_back(lines);
    lines_read_back(more);
    inserted_says_the_same(lines, at, line, lines.len() as int);
}

/// A comment can be put behind any line.
pub proof fn comment_changes_nothing(lines: Seq<Seq<char>>, at: int, comment: Seq<char>)
    requires
        0 <= at < lines.len(),
        are_lines(lines),
        !comment.contains('\n'),
    ensures
        says_the_same(
            text_of(lines),
            text_of(lines.update(at, lines[at] + seq!['#'] + comment)),
        ),
{
    let line = lines[at] + seq!['#'] + comment;
    let more = lines.update(at, line);
    assert forall|i: int| 0 <= i < more.len() implies !(#[trigger] more[i]).contains('\n') by {
        assert(!lines[i].contains('\n'));
        if i == at && line.contains('\n') {
            let k = line.index_of('\n');
            if k < lines[at].len() {
                assert(lines[at][k] == '\n');
            } else if k > lines[at].len() {
                assert(comment[k - lines[at].len() - 1] == '\n');
            }
        }
    }
    lines_read_back(lines);
    lines_read_back(more);
    comment_says_nothing(lines[at], comment);
    same_contents_say_the_same(lines, more, lines.len() as int);
}

proof fn spaces_hold_no_word(s: Seq<char>)
    requires
        forall|i: int| 0 <= i < s.len() ==> words::is_space(#[trigger] s[i]),
    ensures
        words::fields_of(s).len() == 0,
    decreases s.len(),
{
    if s.len() > 0 {
        assert(words::is_space(s[0]));
        assert forall|i: int| 0 <= i < s.skip(1).len() implies words::is_space(
            #[trigger] s.skip(1)[i],
        ) by {
            assert(s.skip(1)[i] == s[i + 1]);
        }
        spaces_hold_no_word(s.skip(1));
    }
}

} // verus!
