//! What a sweep tries, how it ranks, and what a run is compared with.
use vstd::prelude::*;

use crate::backtest;
use crate::backtest::{compare_orders, decimal, tally_refusals};
use crate::config;
use crate::config::{ConfigError, SessionConfig, StrategyConfig, StrategyView};
use crate::event::{Outbound, RiskReason};
use crate::journal_facts;
use crate::report::Refusal;
use crate::sweep;
use crate::sweep::{
    best_outside, configure, label, parse_args, rank, Args, ArgsView, Axis, AxisView, Fraction, Row,
    Stop, StopView,
};
use crate::text;
use crate::text::Glyph;
use crate::words;

verus! {

// ---- axes ------------------------------------------------------------------
/// How an axis is written.
pub open spec fn axis_text(axis: AxisView) -> Seq<char> {
    axis.symbol + seq!['.'] + axis.setting + seq!['='] + words::marked(axis.values, ',')
}

/// Whether an axis can be written: its symbol has no dot, neither it nor the setting
/// has an equals sign, and there are values, none empty and none with a comma in it.
pub open spec fn can_be_written(axis: AxisView) -> bool {
    &&& !axis.symbol.contains('.')
    &&& !axis.symbol.contains('=')
    &&& !axis.setting.contains('=')
    &&& axis.values.len() > 0
    &&& forall|i: int|
        0 <= i < axis.values.len() ==> (#[trigger] axis.values[i]).len() > 0
            && !axis.values[i].contains(',')
}

/// An axis reads back from how it is written.
pub proof fn axes_read_back(axis: AxisView, spec: &str, read: Result<Axis, &'static str>)
    requires
        can_be_written(axis),
        spec@ == axis_text(axis),
        call_ensures(Axis::parse, (spec,), read),
    ensures
        read matches Ok(a) && a@ == axis,
{
    let s = spec@;
    let target = axis.symbol + seq!['.'] + axis.setting;
    let n = target.len() as int;
    let d = axis.symbol.len() as int;
    assert forall|i: int| 0 <= i < n implies #[trigger] s[i] != '=' by {
        assert(s[i] == target[i]);
        if i < d {
            assert(axis.symbol.contains(axis.symbol[i]));
        } else if i > d {
            assert(axis.setting.contains(axis.setting[i - d - 1]));
        }
    }
    assert(s[n] == '=');
    words::first_mark_is_at(s, '=', n);
    assert(s.take(n) =~= target);
    assert forall|i: int| 0 <= i < d implies #[trigger] target[i] != '.' by {
        assert(axis.symbol.contains(axis.symbol[i]));
    }
    assert(target[d] == '.');
    words::first_mark_is_at(target, '.', d);
    assert(target.take(d) =~= axis.symbol);
    assert(target.skip(d + 1) =~= axis.setting);
    assert(s.skip(n + 1) =~= words::marked(axis.values, ','));
    words::marked_texts_are_cut_apart(axis.values, ',');
    if let Ok(a) = read {
        assert(a@ =~= axis);
    }
}

/// What is read as an axis is how that axis is written; there is nothing else to it.
pub proof fn axes_are_what_is_written(spec: &str, axis: Axis)
    requires
        call_ensures(Axis::parse, (spec,), Ok::<Axis, &'static str>(axis)),
    ensures
        can_be_written(axis@),
        spec@ == axis_text(axis@),
{
    let s = spec@;
    words::before_is_the_first(s, '=');
    let n = words::before(s, '=') as int;
    let target = s.take(n);
    words::before_is_the_first(target, '.');
    let d = words::before(target, '.') as int;
    let rest = s.skip(n + 1);
    words::pieces_make_the_text(rest, ',');
    let a = axis@;
    assert(target =~= a.symbol + seq!['.'] + a.setting);
    assert(s =~= target + seq!['='] + rest);
    assert(s =~= axis_text(a));
    if a.symbol.contains('.') {
        let i = a.symbol.index_of('.');
        assert(target[i] == '.');
    }
    if a.symbol.contains('=') {
        let i = a.symbol.index_of('=');
        assert(s[i] == '=');
    }
    if a.setting.contains('=') {
        let i = a.setting.index_of('=');
        assert(target[d + 1 + i] == '=');
        assert(s[d + 1 + i] == '=');
    }
    assert forall|i: int| 0 <= i < a.values.len() implies (#[trigger] a.values[i]).len() > 0
        && !a.values[i].contains(',') by {
        assert(a.values == words::pieces_of(rest, ','));
        assert(!words::pieces_of(rest, ',')[i].contains(','));
    }
}

// ---- what was asked for ----------------------------------------------------
proof fn reading_goes_on(
    words: Seq<Seq<char>>,
    more: Seq<Seq<char>>,
    fractions: Seq<Fraction>,
    further: Seq<Fraction>,
    i: int,
    args: ArgsView,
    read: ArgsView,
)
    requires
        0 <= i <= words.len(),
        fractions.len() == words.len(),
        sweep::args_from(words, fractions, i, args) == Ok::<ArgsView, StopView>(read),
    ensures
        sweep::args_from(words + more, fractions + further, i, args) == sweep::args_from(
            words + more,
            fractions + further,
            words.len() as int,
            read,
        ),
    decreases words.len() - i,
{
    if i < words.len() {
        let word = words[i];
        assert((words + more)[i] == word);
        if i + 1 < words.len() {
            assert((words + more)[i + 1] == words[i + 1]);
            assert((fractions + further)[i + 1] == fractions[i + 1]);
        }
        let (step, next) = if word == "--vary"@ {
            let axis = sweep::axis_of(words[i + 1])->Ok_0;
            (2int, ArgsView { axes: args.axes.push(axis), ..args })
        } else if word == "--json"@ {
            (1int, ArgsView { json: true, ..args })
        } else if word == "--split"@ {
            (2int, ArgsView { split: Some(i + 1), ..args })
        } else {
            (1int, ArgsView { positional: args.positional.push(word), ..args })
        };
        reading_goes_on(words, more, fractions, further, i + step, next, read);
    }
}

/// An option that is added to a sweep says what it names, and nothing else: that the
/// output is JSON, one axis more behind those before, or which word says how much of
/// the recording to choose on, where that is a fraction of it. A third file is
/// refused.
pub proof fn sweep_options_set_what_they_name(
    argv: &[String],
    all: &[String],
    fractions: &[Fraction],
    further: &[Fraction],
    more: Seq<Seq<char>>,
    before: Args,
    read: Result<Args, Stop>,
)
    requires
        fractions@.len() == argv@.len(),
        further@.len() == all@.len(),
        further@.take(fractions@.len() as int) == fractions@,
        words::views(all@) == words::views(argv@) + more,
        call_ensures(parse_args, (argv, fractions), Ok::<Args, Stop>(before)),
        call_ensures(parse_args, (all, further), read),
    ensures
        more == seq!["--json"@] ==> (read matches Ok(a) && a@ == (ArgsView {
            json: true,
            ..before@
        })),
        more.len() == 2 && more[0] == "--vary"@ ==> match sweep::axis_of(more[1]) {
            Ok(axis) => read matches Ok(a) && a@ == (ArgsView {
                axes: before@.axes.push(axis),
                ..before@
            }),
            Err(_) => read is Err,
        },
        more.len() == 2 && more[0] == "--split"@ ==> if further@[argv@.len() as int + 1]
            == Fraction::Usable {
            read matches Ok(a) && a@ == (ArgsView { split: Some(argv@.len() as int + 1), ..before@ })
        } else {
            read is Err
        },
        more.len() == 1 && !(more[0].len() >= 2 && more[0][0] == '-' && more[0][1] == '-')
            ==> read is Err,
{
    let w = words::views(argv@);
    let n = w.len() as int;
    let rest = further@.skip(n);
    assert(words::views(all@).len() == all@.len());
    assert(further@ =~= fractions@ + rest);
    reading_goes_on(w, more, fractions@, rest, 0, sweep::asked_for(), before@);
    reveal_strlit("--json");
    reveal_strlit("--vary");
    reveal_strlit("--split");
    assert("--json"@[2] == 'j' && "--vary"@[2] == 'v' && "--split"@[2] == 's');
    if more.len() >= 1 {
        assert((w + more)[n] == more[0]);
    }
    if more.len() >= 2 {
        assert((w + more)[n + 1] == more[1]);
        assert((fractions@ + rest)[n + 1] == further@[n + 1]);
    }
    if more == seq!["--json"@] {
        assert(more.len() == 1);
    }
    reveal_with_fuel(sweep::args_from, 2);
}

// ---- variants --------------------------------------------------------------
proof fn varied_each(
    strategies: Seq<StrategyView>,
    n: int,
    axis: AxisView,
    value: Seq<char>,
    reading: Result<i64, String>,
)
    requires
        0 <= n <= strategies.len(),
    ensures
        sweep::varied(strategies, n, axis, value, reading) matches Ok(list) ==> {
            &&& list.len() == n
            &&& forall|j: int|
                0 <= j < n ==> {
                    let one = strategies[j];
                    if one.symbol == axis.symbol {
                        &&& config::overridden(one.kind, axis.setting, value, reading) matches Ok(kind)
                        &&& #[trigger] list[j] == (StrategyView { kind, ..one })
                    } else {
                        list[j] == one
                    }
                }
        },
    decreases n,
{
    if n > 0 {
        varied_each(strategies, n - 1, axis, value, reading);
    }
}

proof fn traded_is_somewhere(strategies: Seq<StrategyView>, n: int, symbol: Seq<char>)
    requires
        0 <= n <= strategies.len(),
    ensures
        sweep::traded(strategies, n, symbol) <==> exists|j: int|
            0 <= j < n && (#[trigger] strategies[j]).symbol == symbol,
    decreases n,
{
    if n > 0 {
        traded_is_somewhere(strategies, n - 1, symbol);
        if sweep::traded(strategies, n - 1, symbol) {
            let j = choose|j: int| 0 <= j < n - 1 && (#[trigger] strategies[j]).symbol == symbol;
            assert(strategies[j].symbol == symbol);
        }
        if strategies[n - 1].symbol == symbol {
            assert(strategies[n - 1].symbol == symbol);
        }
    }
}

proof fn configured_keeps(
    strategies: Seq<StrategyView>,
    axes: Seq<AxisView>,
    point: Seq<Seq<char>>,
    readings: Seq<Result<i64, String>>,
    n: int,
)
    requires
        0 <= n <= axes.len(),
    ensures
        sweep::configured(strategies, axes, point, readings, n) matches Ok(list) ==> {
            &&& list.len() == strategies.len()
            &&& forall|j: int|
                0 <= j < list.len() ==> {
                    &&& (#[trigger] list[j]).symbol == strategies[j].symbol
                    &&& list[j].instrument == strategies[j].instrument
                    &&& (forall|k: int| 0 <= k < n ==> (#[trigger] axes[k]).symbol
                        != strategies[j].symbol) ==> list[j] == strategies[j]
                }
            &&& forall|k: int|
                0 <= k < n ==> exists|j: int|
                    0 <= j < strategies.len() && (#[trigger] strategies[j]).symbol == (
                    #[trigger] axes[k]).symbol
        },
    decreases n,
{
    if n > 0 {
        configured_keeps(strategies, axes, point, readings, n - 1);
        if sweep::configured(strategies, axes, point, readings, n) is Ok {
            let before = sweep::configured(strategies, axes, point, readings, n - 1)->Ok_0;
            let list = sweep::configured(strategies, axes, point, readings, n)->Ok_0;
            varied_each(before, before.len() as int, axes[n - 1], point[n - 1], readings[n - 1]);
            traded_is_somewhere(before, before.len() as int, axes[n - 1].symbol);
            assert forall|j: int| 0 <= j < list.len() implies {
                &&& (#[trigger] list[j]).symbol == strategies[j].symbol
                &&& list[j].instrument == strategies[j].instrument
                &&& (forall|k: int| 0 <= k < n ==> (#[trigger] axes[k]).symbol
                    != strategies[j].symbol) ==> list[j] == strategies[j]
            } by {
                assert(before[j].symbol == strategies[j].symbol);
                if forall|k: int| 0 <= k < n ==> (#[trigger] axes[k]).symbol
                    != strategies[j].symbol {
                    assert(axes[n - 1].symbol != strategies[j].symbol);
                }
            }
            assert forall|k: int| 0 <= k < n implies exists|j: int|
                0 <= j < strategies.len() && (#[trigger] strategies[j]).symbol == (
                #[trigger] axes[k]).symbol by {
                if k == n - 1 {
                    let j = choose|j: int|
                        0 <= j < before.len() && (#[trigger] before[j]).symbol == axes[n - 1].symbol;
                    assert(strategies[j].symbol == axes[k].symbol);
                }
            }
        }
    }
}

/// A variant is the base config but for what its axes name: the instruments and the
/// bounds are the base's, the strategies trade what they traded, one whose symbol no
/// axis names is as it was, and each axis names a symbol that some strategy trades.
pub proof fn variants_change_what_axes_name(
    base: &SessionConfig,
    axes: &[Axis],
    point: &[String],
    readings: &[Result<i64, String>],
    session: SessionConfig,
)
    requires
        point@.len() == axes@.len(),
        readings@.len() == axes@.len(),
        call_ensures(
            configure,
            (base, axes, point, readings),
            Ok::<SessionConfig, String>(session),
        ),
    ensures
        session@.instruments == base@.instruments,
        session@.limits == base@.limits,
        session@.strategies.len() == base@.strategies.len(),
        forall|j: int|
            0 <= j < base@.strategies.len() ==> {
                let (old_one, new_one) = (base@.strategies[j], #[trigger] session@.strategies[j]);
                &&& new_one.symbol == old_one.symbol
                &&& new_one.instrument == old_one.instrument
                &&& (forall|k: int| 0 <= k < axes@.len() ==> (#[trigger] axes@[k]).symbol@
                    != old_one.symbol) ==> new_one == old_one
            },
        forall|k: int|
            0 <= k < axes@.len() ==> exists|j: int|
                0 <= j < base@.strategies.len() && (#[trigger] base@.strategies[j]).symbol == (
                #[trigger] axes@[k]).symbol@,
{
    let a = sweep::axes_of(axes@);
    configured_keeps(base@.strategies, a, words::views(point@), readings@, axes@.len() as int);
    assert forall|j: int| 0 <= j < base@.strategies.len() implies {
        let (old_one, new_one) = (base@.strategies[j], #[trigger] session@.strategies[j]);
        &&& new_one.symbol == old_one.symbol
        &&& new_one.instrument == old_one.instrument
        &&& (forall|k: int| 0 <= k < axes@.len() ==> (#[trigger] axes@[k]).symbol@
            != old_one.symbol) ==> new_one == old_one
    } by {
        if forall|k: int| 0 <= k < axes@.len() ==> (#[trigger] axes@[k]).symbol@
            != base@.strategies[j].symbol {
            assert forall|k: int| 0 <= k < a.len() implies (#[trigger] a[k]).symbol
                != base@.strategies[j].symbol by {
                assert(axes@[k].symbol@ != base@.strategies[j].symbol);
            }
        }
    }
    assert forall|k: int| 0 <= k < axes@.len() implies exists|j: int|
        0 <= j < base@.strategies.len() && (#[trigger] base@.strategies[j]).symbol == (
        #[trigger] axes@[k]).symbol@ by {
        assert(a[k].symbol == axes@[k].symbol@);
    }
}

/// One axis changes each strategy that trades its symbol as changing that setting of
/// it does.
pub proof fn an_axis_sets_its_setting(
    base: &SessionConfig,
    axes: &[Axis],
    point: &[String],
    readings: &[Result<i64, String>],
    session: SessionConfig,
    setting: &str,
    value: &str,
    j: int,
    changed: Result<StrategyConfig, ConfigError>,
)
    requires
        axes@.len() == 1,
        point@.len() == 1,
        readings@.len() == 1,
        setting@ == axes@[0].setting@,
        value@ == point@[0]@,
        0 <= j < base.strategies@.len(),
        base.strategies@[j].symbol@ == axes@[0].symbol@,
        call_ensures(
            configure,
            (base, axes, point, readings),
            Ok::<SessionConfig, String>(session),
        ),
        call_ensures(
            StrategyConfig::with,
            (&base.strategies@[j], setting, value, &readings@[0]),
            changed,
        ),
    ensures
        changed matches Ok(c) && session.strategies@.len() == base.strategies@.len()
            && session.strategies@[j]@ == c@,
{
    let a = sweep::axes_of(axes@);
    let p = words::views(point@);
    let held = base@.strategies;
    reveal_with_fuel(sweep::configured, 2);
    assert(p[0] == point@[0]@);
    assert(a[0] == axes@[0]@);
    varied_each(held, held.len() as int, a[0], p[0], readings@[0]);
    assert(held[j] == base.strategies@[j]@);
    let list = sweep::varied(held, held.len() as int, a[0], p[0], readings@[0])->Ok_0;
    assert(session@.strategies == list);
    assert(session@.strategies[j] == session.strategies@[j]@);
}

/// A variant on several axes is the variant on all but the last, varied on the last.
pub proof fn axes_are_applied_in_turn(
    base: &SessionConfig,
    some: &[Axis],
    one: &[Axis],
    all: &[Axis],
    some_point: &[String],
    one_point: &[String],
    all_point: &[String],
    some_readings: &[Result<i64, String>],
    one_readings: &[Result<i64, String>],
    all_readings: &[Result<i64, String>],
    between: SessionConfig,
    once: Result<SessionConfig, String>,
    twice: Result<SessionConfig, String>,
)
    requires
        some_point@.len() == some@.len() == some_readings@.len(),
        one@.len() == one_point@.len() == one_readings@.len() == 1,
        all_point@.len() == all@.len() == all_readings@.len() == some@.len() + 1,
        sweep::axes_of(all@) == sweep::axes_of(some@) + sweep::axes_of(one@),
        words::views(all_point@) == words::views(some_point@) + words::views(one_point@),
        all_readings@ == some_readings@ + one_readings@,
        call_ensures(
            configure,
            (base, some, some_point, some_readings),
            Ok::<SessionConfig, String>(between),
        ),
        call_ensures(configure, (&between, one, one_point, one_readings), twice),
        call_ensures(configure, (base, all, all_point, all_readings), once),
    ensures
        once is Ok <==> twice is Ok,
        once matches Ok(a) ==> a@ == twice->Ok_0@,
{
    let a = sweep::axes_of(some@);
    let b = sweep::axes_of(one@);
    let p = words::views(some_point@);
    let q = words::views(one_point@);
    let n = some@.len() as int;
    reveal_with_fuel(sweep::configured, 2);
    configured_goes_on(
        base@.strategies,
        a,
        b,
        p,
        q,
        some_readings@,
        one_readings@,
        n,
    );
    assert((a + b)[n] == b[0]);
    assert((p + q)[n] == q[0]);
    assert((some_readings@ + one_readings@)[n] == one_readings@[0]);
}

proof fn configured_goes_on(
    strategies: Seq<StrategyView>,
    a: Seq<AxisView>,
    b: Seq<AxisView>,
    p: Seq<Seq<char>>,
    q: Seq<Seq<char>>,
    r: Seq<Result<i64, String>>,
    s: Seq<Result<i64, String>>,
    n: int,
)
    requires
        0 <= n <= a.len(),
        p.len() == a.len(),
        r.len() == a.len(),
    ensures
        sweep::configured(strategies, a + b, p + q, r + s, n) == sweep::configured(
            strategies,
            a,
            p,
            r,
            n,
        ),
    decreases n,
{
    if n > 0 {
        configured_goes_on(strategies, a, b, p, q, r, s, n - 1);
    }
}

/// A run is called by its settings and their values, in the order of the axes, with
/// blanks between; one without axes is the base.
pub proof fn labels_name_every_setting(
    axes: &[Axis],
    point: &[String],
    name: String,
    parts: Seq<Seq<char>>,
)
    requires
        point@.len() == axes@.len(),
        parts.len() == axes@.len(),
        forall|i: int|
            0 <= i < parts.len() ==> #[trigger] parts[i] == axes@[i].setting@ + seq!['=']
                + point@[i]@,
        call_ensures(label, (axes, point), name),
    ensures
        axes@.len() == 0 ==> name@ == seq!['b', 'a', 's', 'e'],
        axes@.len() > 0 ==> name@ == words::marked(parts, ' '),
{
    reveal_strlit("base");
    reveal_strlit("=");
    reveal_strlit(" ");
    assert("base"@ =~= seq!['b', 'a', 's', 'e']);
    assert("="@ =~= seq!['=']);
    assert(" "@ =~= seq![' ']);
    if axes@.len() > 0 {
        let a = sweep::axes_of(axes@);
        let p = words::views(point@);
        label_is_marked(a, p, parts, a.len() as int);
        assert(parts.take(parts.len() as int) =~= parts);
    }
}

proof fn label_is_marked(
    axes: Seq<AxisView>,
    point: Seq<Seq<char>>,
    parts: Seq<Seq<char>>,
    n: int,
)
    requires
        0 < n <= axes.len(),
        point.len() == axes.len(),
        parts.len() == axes.len(),
        "="@ == seq!['='],
        " "@ == seq![' '],
        forall|i: int|
            0 <= i < parts.len() ==> #[trigger] parts[i] == axes[i].setting + seq!['='] + point[i],
    ensures
        sweep::label_upto(axes, point, n) == words::marked(parts.take(n), ' '),
    decreases n,
{
    let now = parts.take(n);
    assert(parts[n - 1] == axes[n - 1].setting + seq!['='] + point[n - 1]);
    if n > 1 {
        label_is_marked(axes, point, parts, n - 1);
        marked_one_more(parts.take(n - 1), parts[n - 1], ' ');
        assert(parts.take(n - 1).push(parts[n - 1]) =~= now);
    }
}

proof fn marked_one_more(pieces: Seq<Seq<char>>, one: Seq<char>, mark: char)
    requires
        pieces.len() > 0,
    ensures
        words::marked(pieces.push(one), mark) == words::marked(pieces, mark) + seq![mark] + one,
    decreases pieces.len(),
{
    let all = pieces.push(one);
    assert(all.skip(1) =~= pieces.skip(1).push(one));
    if pieces.len() == 1 {
        assert(all.skip(1)[0] == one);
        assert(words::marked(all.skip(1), mark) == one);
        assert(words::marked(all, mark) =~= words::marked(pieces, mark) + seq![mark] + one);
    } else {
        marked_one_more(pieces.skip(1), one, mark);
        assert(words::marked(all, mark) =~= words::marked(pieces, mark) + seq![mark] + one);
    }
}

// ---- ranking ---------------------------------------------------------------
/// A ranking names every row once, what was worth more in sample before what was
/// worth less, and of two worth the same the one that came first before the other.
pub proof fn the_most_is_first(rows: &[Row], order: Vec<usize>)
    requires
        call_ensures(rank, (rows,), order),
    ensures
        order@.len() == rows@.len(),
        forall|i: int| 0 <= i < order@.len() ==> (#[trigger] order@[i]) < rows@.len(),
        forall|i: int, j: int|
            0 <= i < j < order@.len() ==> {
                let a = #[trigger] order@[i] as int;
                let b = #[trigger] order@[j] as int;
                &&& a != b
                &&& rows@[a].inside.total.0 >= rows@[b].inside.total.0
                &&& rows@[a].inside.total.0 == rows@[b].inside.total.0 ==> a < b
            },
{
}

/// The best row out of sample was measured there, where any was, and none was worth
/// more; of those worth as much it is the last.
pub proof fn the_best_outside_is_not_beaten(rows: &[Row], best: usize, i: int)
    requires
        call_ensures(best_outside, (rows,), Some(best)),
        0 <= i < rows@.len(),
    ensures
        best < rows@.len(),
        rows@[i].outside is Some && rows@[i].outside->Some_0.total.0 > i128::MIN ==> {
            let total = rows@[i].outside->Some_0.total.0;
            &&& rows@[best as int].outside is Some
            &&& total <= rows@[best as int].outside->Some_0.total.0
            &&& total == rows@[best as int].outside->Some_0.total.0 ==> i <= best
        },
{
    assert(sweep::outside_of(rows@[i]) <= sweep::outside_of(rows@[best as int]));
    if i > best {
        assert(sweep::outside_of(rows@[i]) < sweep::outside_of(rows@[best as int]));
    }
}

/// The figures that a row shows, in order: what it was worth and what it lost on the
/// way in sample, and where it was measured out of sample the same there.
pub open spec fn row_figures(row: Row) -> Seq<Glyph> {
    seq![Glyph::Money(row.inside.total), Glyph::Money(row.inside.max_drawdown)] + (
    match row.outside {
        Some(run) => seq![Glyph::Money(run.total), Glyph::Money(run.max_drawdown)],
        None => Seq::empty(),
    })
}

/// A row shows its figures in order, in the table and as JSON.
#[verifier::spinoff_prover]
#[verifier::rlimit(60)]
pub proof fn rows_show_their_figures(row: Row, width: usize, last: bool)
    ensures
        journal_facts::values(sweep::row_of(row, width)) == row_figures(row),
        journal_facts::values(sweep::json_row(row, last)) == row_figures(row),
{
    broadcast use {
        journal_facts::values_of_sum,
        journal_facts::values_of_one,
        letters_have_no_value,
    };

    journal_facts::columns_hold_their_value(14, Glyph::Money(row.inside.total));
    journal_facts::columns_hold_their_value(12, Glyph::Money(row.inside.max_drawdown));
    if let Some(run) = row.outside {
        journal_facts::columns_hold_their_value(14, Glyph::Money(run.total));
        journal_facts::columns_hold_their_value(12, Glyph::Money(run.max_drawdown));
    }

    assert(journal_facts::values(Seq::<Glyph>::empty()) =~= Seq::empty());
    assert(journal_facts::values(sweep::row_of(row, width)) =~= row_figures(row));
    let total = match row.outside {
        Some(run) => Some(run.total),
        None => None,
    };
    let lost = match row.outside {
        Some(run) => Some(run.max_drawdown),
        None => None,
    };
    assert(journal_facts::values(sweep::outside_json(total)) =~= match row.outside {
        Some(run) => seq![Glyph::Money(run.total)],
        None => Seq::empty(),
    });
    assert(journal_facts::values(sweep::outside_json(lost)) =~= match row.outside {
        Some(run) => seq![Glyph::Money(run.max_drawdown)],
        None => Seq::empty(),
    });
    assert(journal_facts::values(sweep::json_row(row, last)) =~= row_figures(row));
}

broadcast proof fn letters_have_no_value(s: Seq<char>)
    ensures
        #[trigger] journal_facts::values(sweep::written(s)) == Seq::<Glyph>::empty(),
    decreases s.len(),
{
    if s.len() > 0 {
        letters_have_no_value(s.drop_last());
        let all = text::glyphs_of(s);
        assert(all.drop_last() =~= text::glyphs_of(s.drop_last()));
        assert(sweep::written(s.drop_last()) == text::glyphs_of(s.drop_last()));
    }
}

// ---- figures of a backtest -------------------------------------------------
/// A fixed-point value is written with a sign where it is negative, its whole part,
/// a point, and exactly nine digits behind it; the digits stand for the value.
pub proof fn decimals_are_exact(scaled: i128, written: String)
    requires
        call_ensures(decimal, (scaled,), written),
    ensures
        exists|sign: Seq<char>, whole: Seq<char>, part: Seq<char>|
            {
                &&& written@ == #[trigger] (sign + whole + seq!['.'] + part)
                &&& sign == if scaled < 0 {
                    seq!['-']
                } else {
                    Seq::empty()
                }
                &&& whole.len() > 0 && words::all_digits(whole)
                &&& part.len() == 9 && words::all_digits(part)
                &&& (words::value_of(whole) * 1_000_000_000 + words::value_of(part)) as int
                    == if scaled < 0 {
                    -(scaled as int)
                } else {
                    scaled as int
                }
            },
{
    let n: nat = if scaled < 0 {
        (-(scaled as int)) as nat
    } else {
        scaled as nat
    };
    let whole = text::digits(n / 1_000_000_000);
    let part = text::base_padded(n % 1_000_000_000, 10, 9);
    let sign = if scaled < 0 {
        seq!['-']
    } else {
        Seq::empty()
    };
    words::digits_read_back(n / 1_000_000_000);
    reveal_with_fuel(words::ten_to, 10);
    words::padded_numbers_read_back(n % 1_000_000_000, 9);
    reveal_strlit("-");
    reveal_strlit(".");
    reveal_strlit("");
    assert("-"@ =~= seq!['-']);
    assert("."@ =~= seq!['.']);
    assert(""@ =~= Seq::empty());
    assert(written@ == sign + whole + seq!['.'] + part);
}

/// Orders are counted one by one: of none there is none, of one decision there is one
/// where it sent an order, and of some and some others there are as many as of both.
pub proof fn orders_add_up(some: Seq<Outbound>, others: Seq<Outbound>, one: Outbound)
    ensures
        backtest::orders_in(Seq::empty(), 0) == 0,
        backtest::orders_in(seq![one], 1) == if one is OrderSubmitted {
            1nat
        } else {
            0nat
        },
        backtest::orders_in(some + others, (some + others).len() as int) == backtest::orders_in(
            some,
            some.len() as int,
        ) + backtest::orders_in(others, others.len() as int),
{
    reveal_with_fuel(backtest::orders_in, 2);
    orders_of_parts(some, others, others.len() as int);
}

proof fn orders_of_parts(some: Seq<Outbound>, others: Seq<Outbound>, n: int)
    requires
        0 <= n <= others.len(),
    ensures
        backtest::orders_in(some + others, some.len() + n) == backtest::orders_in(
            some,
            some.len() as int,
        ) + backtest::orders_in(others, n),
    decreases n,
{
    if n > 0 {
        orders_of_parts(some, others, n - 1);
        assert((some + others)[some.len() + n - 1] == others[n - 1]);
    } else {
        orders_of_prefix(some, others, some.len() as int);
    }
}

proof fn orders_of_prefix(some: Seq<Outbound>, others: Seq<Outbound>, n: int)
    requires
        0 <= n <= some.len(),
    ensures
        backtest::orders_in(some + others, n) == backtest::orders_in(some, n),
    decreases n,
{
    if n > 0 {
        orders_of_prefix(some, others, n - 1);
    }
}

/// Whether a decision refuses an intent for a reason.
pub open spec fn refuses(decision: Outbound, reason: RiskReason) -> bool {
    decision matches Outbound::IntentRejected { reason: r, .. } && r == reason
}

proof fn refusals_are_counted(decisions: Seq<Outbound>, n: int, reason: RiskReason)
    requires
        0 <= n <= decisions.len(),
    ensures
        backtest::refused_for(decisions, n, reason) == decisions.take(n).filter(
            |d: Outbound| refuses(d, reason),
        ).len(),
        backtest::refused_for(decisions, n, reason) > 0 ==> {
            let at = backtest::first_refused(decisions, n, reason);
            &&& 0 <= at < n
            &&& refuses(decisions[at], reason)
            &&& forall|i: int| 0 <= i < at ==> !refuses(#[trigger] decisions[i], reason)
        },
        backtest::refused_for(decisions, n, reason) == 0 ==> forall|i: int|
            0 <= i < n ==> !refuses(#[trigger] decisions[i], reason),
    decreases n,
{
    reveal(Seq::filter);
    if n > 0 {
        refusals_are_counted(decisions, n - 1, reason);
        assert(decisions.take(n).drop_last() =~= decisions.take(n - 1));
        assert(decisions.take(n).last() == decisions[n - 1]);
    }
}

/// A tally of refusals has each reason that was given, once, with how many decisions
/// refused for it, in the order in which the reasons were first given.
pub proof fn tallies_count_every_refusal(decisions: &[Outbound], tally: Vec<Refusal>)
    requires
        call_ensures(tally_refusals, (decisions,), tally),
    ensures
        forall|k: int|
            0 <= k < tally@.len() ==> (#[trigger] tally@[k]).count == decisions@.filter(
                |d: Outbound| refuses(d, tally@[k].reason),
            ).len(),
        forall|i: int, reason: RiskReason|
            0 <= i < decisions@.len() && #[trigger] refuses(decisions@[i], reason) ==> exists|
                k: int,
            |
                0 <= k < tally@.len() && (#[trigger] tally@[k]).reason == reason,
        forall|j: int, k: int|
            0 <= j < k < tally@.len() ==> exists|i: int|
                {
                    &&& 0 <= i < decisions@.len()
                    &&& refuses(#[trigger] decisions@[i], (#[trigger] tally@[j]).reason)
                    &&& forall|m: int|
                        0 <= m <= i ==> !refuses(
                            #[trigger] decisions@[m],
                            (#[trigger] tally@[k]).reason,
                        )
                },
{
    let d = decisions@;
    let n = d.len() as int;
    assert(d.take(n) =~= d);
    assert forall|k: int| 0 <= k < tally@.len() implies (#[trigger] tally@[k]).count == d.filter(
        |x: Outbound| refuses(x, tally@[k].reason),
    ).len() by {
        refusals_are_counted(d, n, tally@[k].reason);
    }
    assert forall|i: int, reason: RiskReason|
        0 <= i < d.len() && #[trigger] refuses(d[i], reason) implies exists|k: int|
        0 <= k < tally@.len() && (#[trigger] tally@[k]).reason == reason by {
        refusals_are_counted(d, n, reason);
        assert(backtest::refused_for(d, n, reason) > 0);
    }
    assert forall|j: int, k: int| 0 <= j < k < tally@.len() implies exists|i: int|
        {
            &&& 0 <= i < d.len()
            &&& refuses(#[trigger] d[i], (#[trigger] tally@[j]).reason)
            &&& forall|m: int|
                0 <= m <= i ==> !refuses(#[trigger] d[m], (#[trigger] tally@[k]).reason)
        } by {
        refusals_are_counted(d, n, tally@[j].reason);
        refusals_are_counted(d, n, tally@[k].reason);
        let i = backtest::first_refused(d, n, tally@[j].reason);
        let m = backtest::first_refused(d, n, tally@[k].reason);
        assert(tally@[j].count > 0 && tally@[k].count > 0);
        assert(i < m);
        assert(refuses(d[i], tally@[j].reason));
    }
}

/// A comparison says by how many orders a run differs and which way, and says the
/// same of the two the other way round but for the way.
pub proof fn comparisons_say_which_way(more: u64, fewer: u64, up: String, down: String, same: String)
    requires
        more > fewer,
        call_ensures(compare_orders, (more, fewer), up),
        call_ensures(compare_orders, (fewer, more), down),
        call_ensures(compare_orders, (more, more), same),
    ensures
        ({
            let start = "  -> this run submitted "@ + text::digits((more - fewer) as nat);
            &&& up@ == start + " order(s) more"@
            &&& down@ == start + " order(s) fewer"@
            &&& same@ == "  -> same order count as this run"@
        }),
{
}

} // verus!
