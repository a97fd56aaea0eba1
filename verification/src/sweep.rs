//! Many configurations over one recording, compared.
//!
//! Picking the best row of a sweep is how strategies get overfitted: run enough
//! variants over one recording and the top one partly measures its noise. So a
//! sweep measures every variant on a stretch it was not chosen on as well, and
//! says when the ranking rearranges between the two.
use vstd::prelude::*;

use crate::config;
use crate::config::{ConfigView, SessionConfig, StrategyConfig, StrategyView};
use crate::text;
use crate::text::{debug_string, glue, left, number_string, put, right, said, say, Glyph, Text};
use crate::value::Notional;
use crate::words;
use crate::words::{end_of, pieces, same, string_of};

verus! {

/// One setting, and the values to try for it.
#[derive(Debug, Clone, PartialEq, Eq)]
pub struct Axis {
    pub symbol: String,
    pub setting: String,
    pub values: Vec<String>,
}

/// An [`Axis`] as characters.
#[verifier::ext_equal]
pub struct AxisView {
    pub symbol: Seq<char>,
    pub setting: Seq<char>,
    pub values: Seq<Seq<char>>,
}

impl View for Axis {
    type V = AxisView;

    open spec fn view(&self) -> AxisView {
        AxisView {
            symbol: self.symbol@,
            setting: self.setting@,
            values: words::views(self.values@),
        }
    }
}

/// Several axes as characters.
pub open spec fn axes_of(axes: Seq<Axis>) -> Seq<AxisView> {
    Seq::new(axes.len(), |i: int| axes[i]@)
}

/// Whether one of several strings is empty.
pub open spec fn any_empty(values: Seq<Seq<char>>) -> bool {
    exists|i: int| 0 <= i < values.len() && (#[trigger] values[i]).len() == 0
}

/// The axis that `SYM.setting=a,b,c` stands for, or what is wrong with it.
pub open spec fn axis_of(spec: Seq<char>) -> Result<AxisView, Seq<char>> {
    let eq = words::before(spec, '=') as int;
    let target = spec.take(eq);
    let dot = words::before(target, '.') as int;
    if eq >= spec.len() || dot >= target.len() {
        Err("--vary wants SYM.setting=a,b,c"@)
    } else {
        let values = words::pieces_of(spec.skip(eq + 1), ',');
        if any_empty(values) {
            Err("--vary has an empty value"@)
        } else {
            Ok(AxisView { symbol: target.take(dot), setting: target.skip(dot + 1), values })
        }
    }
}

fn has_empty(values: &[String]) -> (yes: bool)
    ensures
        yes == any_empty(words::views(values@)),
{
    let mut i: usize = 0;
    while i < values.len()
        invariant
            i <= values@.len(),
            forall|k: int| 0 <= k < i ==> (#[trigger] words::views(values@)[k]).len() > 0,
        decreases values@.len() - i,
    {
        assert(words::views(values@)[i as int] == values@[i as int]@);
        if values[i].as_str().is_empty() {
            return true;
        }
        i += 1;
    }
    false
}

impl Axis {
    /// Reads an axis.
    pub fn parse(spec: &str) -> (axis: Result<Axis, &'static str>)
        ensures
            match axis {
                Ok(a) => axis_of(spec@) == Ok::<AxisView, Seq<char>>(a@),
                Err(e) => axis_of(spec@) == Err::<AxisView, Seq<char>>(e@),
            },
    {
        let chars = text::chars_of(spec);
        assert(chars@.skip(0) =~= chars@);
        let eq: usize = end_of(chars.as_slice(), 0, '=');
        if eq >= chars.len() {
            return Err("--vary wants SYM.setting=a,b,c");
        }
        let target = string_of(chars.as_slice(), 0, eq);
        assert(target@ =~= spec@.take(eq as int));
        let target_chars = text::chars_of(target.as_str());
        assert(target_chars@.skip(0) =~= target_chars@);
        let dot: usize = end_of(target_chars.as_slice(), 0, '.');
        if dot >= target_chars.len() {
            return Err("--vary wants SYM.setting=a,b,c");
        }
        let rest = string_of(chars.as_slice(), eq + 1, chars.len());
        assert(rest@ =~= spec@.skip(eq + 1));
        let values = pieces(rest.as_str(), ',');
        if has_empty(values.as_slice()) {
            return Err("--vary has an empty value");
        }
        let symbol = string_of(target_chars.as_slice(), 0, dot);
        assert(symbol@ =~= target@.take(dot as int));
        let setting = string_of(target_chars.as_slice(), dot + 1, target_chars.len());
        assert(setting@ =~= target@.skip(dot + 1));
        Ok(Axis { symbol, setting, values })
    }
}

/// What a word is worth as a fraction of the recording.
#[derive(Debug, Clone, Copy, PartialEq, Eq, Structural)]
pub enum Fraction {
    /// It is no number.
    NotANumber,
    /// It is not between zero and one.
    OutOfRange,
    /// It leaves something on both sides.
    Usable,
}

/// Why the words that the tool was called with are refused.
#[derive(Debug, Clone, PartialEq, Eq)]
pub enum Stop {
    /// They are not what the tool takes.
    Usage,
    /// One of them is wrong.
    Fail { context: String, what: String },
}

/// A [`Stop`] as characters.
pub enum StopView {
    Usage,
    Fail { context: Seq<char>, what: Seq<char> },
}

impl View for Stop {
    type V = StopView;

    open spec fn view(&self) -> StopView {
        match *self {
            Stop::Usage => StopView::Usage,
            Stop::Fail { context, what } => StopView::Fail { context: context@, what: what@ },
        }
    }
}

/// What was asked for.
#[derive(Debug, Clone, PartialEq, Eq)]
pub struct Args {
    pub path: String,
    pub conf: String,
    pub axes: Vec<Axis>,
    /// Which word says how much of the recording to choose on.
    pub split: Option<usize>,
    pub json: bool,
}

/// [`Args`] while they are read.
#[verifier::ext_equal]
pub struct ArgsView {
    pub positional: Seq<Seq<char>>,
    pub axes: Seq<AxisView>,
    pub split: Option<int>,
    pub json: bool,
}

impl View for Args {
    type V = ArgsView;

    open spec fn view(&self) -> ArgsView {
        ArgsView {
            positional: seq![self.path@, self.conf@],
            axes: axes_of(self.axes@),
            split: match self.split {
                Some(i) => Some(i as int),
                None => None,
            },
            json: self.json,
        }
    }
}

/// Whether a word starts with two dashes.
pub open spec fn is_option(word: Seq<char>) -> bool {
    word.len() >= 2 && word[0] == '-' && word[1] == '-'
}

/// What the words from the `i`th on make of what was asked for before.
pub open spec fn args_from(
    words: Seq<Seq<char>>,
    fractions: Seq<Fraction>,
    i: int,
    args: ArgsView,
) -> Result<ArgsView, StopView>
    decreases words.len() - i,
{
    if i < 0 || i >= words.len() {
        if args.positional.len() == 2 {
            Ok(args)
        } else {
            Err(StopView::Usage)
        }
    } else if words[i] == "--vary"@ {
        if i + 1 >= words.len() {
            Err(StopView::Usage)
        } else {
            match axis_of(words[i + 1]) {
                Err(context) => Err(StopView::Fail { context, what: words[i + 1] }),
                Ok(axis) => args_from(
                    words,
                    fractions,
                    i + 2,
                    ArgsView { axes: args.axes.push(axis), ..args },
                ),
            }
        }
    } else if words[i] == "--json"@ {
        args_from(words, fractions, i + 1, ArgsView { json: true, ..args })
    } else if words[i] == "--split"@ {
        if i + 1 >= words.len() {
            Err(StopView::Usage)
        } else {
            match fractions[i + 1] {
                Fraction::NotANumber => Err(
                    StopView::Fail {
                        context: "--split wants a fraction like 0.7"@,
                        what: words[i + 1],
                    },
                ),
                Fraction::OutOfRange => Err(
                    StopView::Fail {
                        context: "--split must be between 0 and 1, exclusive"@,
                        what: words[i + 1],
                    },
                ),
                Fraction::Usable => args_from(
                    words,
                    fractions,
                    i + 2,
                    ArgsView { split: Some(i + 1), ..args },
                ),
            }
        }
    } else if is_option(words[i]) {
        Err(StopView::Fail { context: "unknown option"@, what: words[i] })
    } else {
        args_from(
            words,
            fractions,
            i + 1,
            ArgsView { positional: args.positional.push(words[i]), ..args },
        )
    }
}

/// What is asked for where nothing is said.
pub open spec fn asked_for() -> ArgsView {
    ArgsView { positional: Seq::empty(), axes: Seq::empty(), split: None, json: false }
}

fn starts_with_dashes(word: &str) -> (yes: bool)
    ensures
        yes == is_option(word@),
{
    let chars = text::chars_of(word);
    chars.len() >= 2 && chars[0] == '-' && chars[1] == '-'
}

/// Reads the words that the tool was called with, where `fractions` says what
/// each is worth as a fraction.
pub fn parse_args(argv: &[String], fractions: &[Fraction]) -> (args: Result<Args, Stop>)
    requires
        fractions@.len() == argv@.len(),
    ensures
        match args {
            Ok(a) => args_from(words::views(argv@), fractions@, 0, asked_for()) == Ok::<
                ArgsView,
                StopView,
            >(a@),
            Err(e) => args_from(words::views(argv@), fractions@, 0, asked_for()) == Err::<
                ArgsView,
                StopView,
            >(e@),
        },
{
    let ghost w = words::views(argv@);
    let mut positional: Vec<String> = Vec::new();
    let mut axes: Vec<Axis> = Vec::new();
    let mut split: Option<usize> = None;
    let mut json: bool = false;
    let mut i: usize = 0;
    assert(words::views(positional@) =~= Seq::empty());
    assert(axes_of(axes@) =~= Seq::empty());
    while i < argv.len()
        invariant
            i <= argv@.len() == fractions@.len(),
            w == words::views(argv@),
            args_from(w, fractions@, 0, asked_for()) == args_from(
                w,
                fractions@,
                i as int,
                ArgsView {
                    positional: words::views(positional@),
                    axes: axes_of(axes@),
                    split: match split {
                        Some(i) => Some(i as int),
                        None => None,
                    },
                    json,
                },
            ),
        decreases argv@.len() - i,
    {
        let word = argv[i].as_str();
        assert(w[i as int] == word@);
        let left_over: usize = argv.len() - i;
        assert(left_over >= 2 ==> w[i + 1] == argv@[i + 1]@);
        if same(word, "--vary") {
            if left_over < 2 {
                return Err(Stop::Usage);
            }
            match Axis::parse(argv[i + 1].as_str()) {
                Err(context) => {
                    return Err(
                        Stop::Fail { context: said(context), what: said(argv[i + 1].as_str()) },
                    );
                },
                Ok(axis) => {
                    let ghost before = axes_of(axes@);
                    axes.push(axis);
                    assert(axes_of(axes@) =~= before.push(axis@));
                },
            }
            i += 2;
        } else if same(word, "--json") {
            json = true;
            i += 1;
        } else if same(word, "--split") {
            if left_over < 2 {
                return Err(Stop::Usage);
            }
            match fractions[i + 1] {
                Fraction::NotANumber => {
                    return Err(
                        Stop::Fail {
                            context: said("--split wants a fraction like 0.7"),
                            what: said(argv[i + 1].as_str()),
                        },
                    );
                },
                Fraction::OutOfRange => {
                    return Err(
                        Stop::Fail {
                            context: said("--split must be between 0 and 1, exclusive"),
                            what: said(argv[i + 1].as_str()),
                        },
                    );
                },
                Fraction::Usable => {
                    split = Some(i + 1);
                },
            }
            i += 2;
        } else if starts_with_dashes(word) {
            return Err(Stop::Fail { context: said("unknown option"), what: said(word) });
        } else {
            let ghost before = words::views(positional@);
            positional.push(said(word));
            assert(words::views(positional@) =~= before.push(word@));
            i += 1;
        }
    }
    if positional.len() != 2 {
        return Err(Stop::Usage);
    }
    let path = said(positional[0].as_str());
    let conf = said(positional[1].as_str());
    assert(words::views(positional@) =~= seq![path@, conf@]);
    Ok(Args { path, conf, axes, split, json })
}

/// A point with each of some values behind it.
pub open spec fn with_each(point: Seq<Seq<char>>, values: Seq<Seq<char>>) -> Seq<Seq<Seq<char>>> {
    Seq::new(values.len(), |j: int| point.push(values[j]))
}

/// The first `n` points with each of some values behind them.
pub open spec fn extended(points: Seq<Seq<Seq<char>>>, n: int, values: Seq<Seq<char>>) -> Seq<
    Seq<Seq<char>>,
>
    decreases n,
{
    if n <= 0 {
        Seq::empty()
    } else {
        extended(points, n - 1, values) + with_each(points[n - 1], values)
    }
}

/// Every combination of the first `n` axes, in a stable order: the last one
/// varies fastest.
pub open spec fn grid_of(axes: Seq<AxisView>, n: int) -> Seq<Seq<Seq<char>>>
    decreases n,
{
    if n <= 0 {
        seq![Seq::empty()]
    } else {
        let before = grid_of(axes, n - 1);
        extended(before, before.len() as int, axes[n - 1].values)
    }
}

/// Several points as characters.
pub open spec fn points_of(points: Seq<Vec<String>>) -> Seq<Seq<Seq<char>>> {
    Seq::new(points.len(), |i: int| words::views(points[i]@))
}

/// A point with one more value.
fn extend(point: &[String], value: &str) -> (longer: Vec<String>)
    ensures
        words::views(longer@) == words::views(point@).push(value@),
{
    let mut longer: Vec<String> = Vec::new();
    let mut i: usize = 0;
    assert(words::views(longer@) =~= words::views(point@).take(0));
    while i < point.len()
        invariant
            i <= point@.len(),
            words::views(longer@) == words::views(point@).take(i as int),
        decreases point@.len() - i,
    {
        let ghost before = words::views(longer@);
        longer.push(said(point[i].as_str()));
        assert(words::views(longer@) =~= before.push(point@[i as int]@));
        i += 1;
        assert(words::views(longer@) =~= words::views(point@).take(i as int));
    }
    let ghost before = words::views(longer@);
    longer.push(said(value));
    assert(words::views(longer@) =~= before.push(value@));
    assert(words::views(longer@) =~= words::views(point@).push(value@));
    longer
}

/// Appends a point with each of some values behind it.
fn put_each(points: &mut Vec<Vec<String>>, point: &[String], values: &[String])
    ensures
        points_of(final(points)@) == points_of(old(points)@) + with_each(
            words::views(point@),
            words::views(values@),
        ),
{
    let ghost had = points_of(points@);
    let ghost all = with_each(words::views(point@), words::views(values@));
    let mut j: usize = 0;
    assert(had + all.take(0) =~= had);
    while j < values.len()
        invariant
            j <= values@.len(),
            all == with_each(words::views(point@), words::views(values@)),
            points_of(points@) == had + all.take(j as int),
        decreases values@.len() - j,
    {
        let longer = extend(point, values[j].as_str());
        assert(words::views(longer@) == all[j as int]);
        let ghost before = points_of(points@);
        points.push(longer);
        assert(points_of(points@) =~= before.push(words::views(longer@)));
        j += 1;
        assert(points_of(points@) =~= had + all.take(j as int));
    }
    assert(all.take(j as int) =~= all);
}

/// Every point with each of some values behind it.
fn extend_all(points: &[Vec<String>], values: &[String]) -> (next: Vec<Vec<String>>)
    ensures
        points_of(next@) == extended(
            points_of(points@),
            points@.len() as int,
            words::views(values@),
        ),
{
    let ghost p = points_of(points@);
    let mut next: Vec<Vec<String>> = Vec::new();
    let mut i: usize = 0;
    assert(points_of(next@) =~= Seq::empty());
    while i < points.len()
        invariant
            i <= points@.len(),
            p == points_of(points@),
            points_of(next@) == extended(p, i as int, words::views(values@)),
        decreases points@.len() - i,
    {
        put_each(&mut next, points[i].as_slice(), values);
        assert(p[i as int] == words::views(points@[i as int]@));
        i += 1;
    }
    next
}

/// Every combination of the axes, in a stable order.
pub fn grid(axes: &[Axis]) -> (points: Vec<Vec<String>>)
    ensures
        points_of(points@) == grid_of(axes_of(axes@), axes@.len() as int),
{
    let ghost a = axes_of(axes@);
    let mut points: Vec<Vec<String>> = Vec::new();
    points.push(Vec::new());
    assert(points_of(points@)[0] =~= Seq::empty());
    assert(points_of(points@) =~= grid_of(a, 0));
    let mut i: usize = 0;
    while i < axes.len()
        invariant
            i <= axes@.len(),
            a == axes_of(axes@),
            points_of(points@) == grid_of(a, i as int),
        decreases axes@.len() - i,
    {
        assert(points_of(points@).len() == points@.len());
        assert(a[i as int].values == words::views(axes@[i as int].values@));
        points = extend_all(points.as_slice(), axes[i].values.as_slice());
        i += 1;
    }
    points
}

/// How many combinations the first `n` axes have.
pub open spec fn combinations(axes: Seq<AxisView>, n: int) -> nat
    decreases n,
{
    if n <= 0 {
        1
    } else {
        combinations(axes, n - 1) * axes[n - 1].values.len()
    }
}

/// Where the combination of the `pick[k]`th value of each of the first `n` axes
/// stands.
pub open spec fn index_of(axes: Seq<AxisView>, pick: Seq<int>, n: int) -> int
    decreases n,
{
    if n <= 0 {
        0
    } else {
        index_of(axes, pick, n - 1) * axes[n - 1].values.len() + pick[n - 1]
    }
}

proof fn extended_at(points: Seq<Seq<Seq<char>>>, n: int, values: Seq<Seq<char>>)
    requires
        0 <= n <= points.len(),
    ensures
        extended(points, n, values).len() == n * values.len(),
        forall|i: int, j: int|
            0 <= i < n && 0 <= j < values.len() ==> 0 <= i * values.len() + j < n * values.len()
                && extended(points, n, values)[#[trigger] (i * values.len() + j)]
                == points[i].push(values[j]),
    decreases n,
{
    if n > 0 {
        extended_at(points, n - 1, values);
        let m = values.len() as int;
        let before = extended(points, n - 1, values);
        assert((n - 1) * m + m == n * m) by (nonlinear_arith);
        assert forall|i: int, j: int| 0 <= i < n && 0 <= j < values.len() implies 0 <= i
            * values.len() + j < n * values.len() && extended(points, n, values)[#[trigger] (i
            * values.len() + j)] == points[i].push(values[j]) by {
            assert(0 <= i * m) by (nonlinear_arith)
                requires
                    0 <= i,
                    0 <= m,
            ;
            if i < n - 1 {
                assert(0 <= i * m + j < (n - 1) * m);
                assert(extended(points, n - 1, values)[i * values.len() + j] == points[i].push(
                    values[j],
                ));
            } else {
                assert(i * m == (n - 1) * m);
                assert(extended(points, n, values)[(n - 1) * m + j] == with_each(
                    points[n - 1],
                    values,
                )[j]);
            }
        }
    } else {
        let m = values.len() as int;
        assert(n * m == 0) by (nonlinear_arith)
            requires
                n == 0,
        ;
    }
}

/// A grid holds as many points as there are combinations, and each combination
/// of values is the point at its place: none is left out, and none comes twice.
pub proof fn grid_is_every_combination(axes: Seq<AxisView>, pick: Seq<int>, n: int)
    requires
        0 <= n <= axes.len(),
        pick.len() == n,
        forall|k: int| 0 <= k < n ==> 0 <= #[trigger] pick[k] < axes[k].values.len(),
    ensures
        grid_of(axes, n).len() == combinations(axes, n),
        0 <= index_of(axes, pick, n) < combinations(axes, n),
        grid_of(axes, n)[index_of(axes, pick, n)] == Seq::new(
            n as nat,
            |k: int| axes[k].values[pick[k]],
        ),
    decreases n,
{
    if n > 0 {
        let shorter = pick.drop_last();
        grid_is_every_combination(axes, shorter, n - 1);
        same_index(axes, pick, shorter, n - 1);
        let before = grid_of(axes, n - 1);
        let values = axes[n - 1].values;
        extended_at(before, before.len() as int, values);
        let i = index_of(axes, shorter, n - 1);
        let j = pick[n - 1];
        assert(0 <= i < before.len() && 0 <= j < values.len());
        assert(extended(before, before.len() as int, values)[i * values.len() + j]
            == before[i].push(values[j]));
        assert(before[i].push(values[j]) =~= Seq::new(n as nat, |k: int| axes[k].values[pick[k]]));
    } else {
        assert(grid_of(axes, n)[0] =~= Seq::new(n as nat, |k: int| axes[k].values[pick[k]]));
    }
}

proof fn same_index(axes: Seq<AxisView>, a: Seq<int>, b: Seq<int>, n: int)
    requires
        n <= a.len(),
        n <= b.len(),
        forall|k: int| 0 <= k < n ==> a[k] == b[k],
    ensures
        index_of(axes, a, n) == index_of(axes, b, n),
    decreases n,
{
    if n > 0 {
        same_index(axes, a, b, n - 1);
    }
}

/// The first `n` strategies with one setting of those that trade a symbol
/// changed.
pub open spec fn varied(
    strategies: Seq<StrategyView>,
    n: int,
    axis: AxisView,
    value: Seq<char>,
    reading: Result<i64, String>,
) -> Result<Seq<StrategyView>, Seq<char>>
    decreases n,
{
    if n <= 0 {
        Ok(Seq::empty())
    } else {
        match varied(strategies, n - 1, axis, value, reading) {
            Err(e) => Err(e),
            Ok(list) => {
                let strategy = strategies[n - 1];
                if strategy.symbol == axis.symbol {
                    match config::overridden(strategy.kind, axis.setting, value, reading) {
                        Err(e) => Err(axis.symbol + "."@ + axis.setting + ": "@ + e),
                        Ok(kind) => Ok(list.push(StrategyView { kind, ..strategy })),
                    }
                } else {
                    Ok(list.push(strategy))
                }
            },
        }
    }
}

/// Whether one of the first `n` strategies trades a symbol.
pub open spec fn traded(strategies: Seq<StrategyView>, n: int, symbol: Seq<char>) -> bool
    decreases n,
{
    n > 0 && (strategies[n - 1].symbol == symbol || traded(strategies, n - 1, symbol))
}

/// The strategies with the settings of the first `n` axes at a point.
pub open spec fn configured(
    strategies: Seq<StrategyView>,
    axes: Seq<AxisView>,
    point: Seq<Seq<char>>,
    readings: Seq<Result<i64, String>>,
    n: int,
) -> Result<Seq<StrategyView>, Seq<char>>
    decreases n,
{
    if n <= 0 {
        Ok(strategies)
    } else {
        match configured(strategies, axes, point, readings, n - 1) {
            Err(e) => Err(e),
            Ok(list) => {
                let axis = axes[n - 1];
                match varied(list, list.len() as int, axis, point[n - 1], readings[n - 1]) {
                    Err(e) => Err(e),
                    Ok(next) => if traded(list, list.len() as int, axis.symbol) {
                        Ok(next)
                    } else {
                        Err("no strategy in the config trades "@ + axis.symbol)
                    },
                }
            },
        }
    }
}

proof fn varied_fault_stays(
    strategies: Seq<StrategyView>,
    k: int,
    n: int,
    axis: AxisView,
    value: Seq<char>,
    reading: Result<i64, String>,
    fault: Seq<char>,
)
    requires
        0 < k <= n,
        varied(strategies, k, axis, value, reading) == Err::<Seq<StrategyView>, Seq<char>>(fault),
    ensures
        varied(strategies, n, axis, value, reading) == Err::<Seq<StrategyView>, Seq<char>>(fault),
    decreases n,
{
    if k < n {
        varied_fault_stays(strategies, k, n - 1, axis, value, reading, fault);
    }
}

proof fn configured_fault_stays(
    strategies: Seq<StrategyView>,
    axes: Seq<AxisView>,
    point: Seq<Seq<char>>,
    readings: Seq<Result<i64, String>>,
    k: int,
    n: int,
    fault: Seq<char>,
)
    requires
        0 < k <= n,
        configured(strategies, axes, point, readings, k) == Err::<Seq<StrategyView>, Seq<char>>(
            fault,
        ),
    ensures
        configured(strategies, axes, point, readings, n) == Err::<Seq<StrategyView>, Seq<char>>(
            fault,
        ),
    decreases n,
{
    if k < n {
        configured_fault_stays(strategies, axes, point, readings, k, n - 1, fault);
    }
}

fn copy_of(strategy: &StrategyConfig) -> (copy: StrategyConfig)
    ensures
        copy@ == strategy@,
{
    StrategyConfig {
        instrument: strategy.instrument,
        symbol: said(strategy.symbol.as_str()),
        kind: strategy.kind,
    }
}

fn vary(
    strategies: &[StrategyConfig],
    axis: &Axis,
    value: &str,
    reading: &Result<i64, String>,
) -> (list: Result<Vec<StrategyConfig>, String>)
    ensures
        ({
            let held = config::strategies_of(strategies@);
            let model = varied(held, held.len() as int, axis@, value@, *reading);
            match list {
                Ok(l) => model == Ok::<Seq<StrategyView>, Seq<char>>(config::strategies_of(l@)),
                Err(e) => model == Err::<Seq<StrategyView>, Seq<char>>(e@),
            }
        }),
{
    let ghost held = config::strategies_of(strategies@);
    let mut list: Vec<StrategyConfig> = Vec::new();
    let mut i: usize = 0;
    assert(config::strategies_of(list@) =~= Seq::empty());
    while i < strategies.len()
        invariant
            i <= strategies@.len() == held.len(),
            held == config::strategies_of(strategies@),
            varied(held, i as int, axis@, value@, *reading) == Ok::<Seq<StrategyView>, Seq<char>>(
                config::strategies_of(list@),
            ),
        decreases strategies@.len() - i,
    {
        let strategy = &strategies[i];
        assert(held[i as int] == strategy@);
        let ghost before = config::strategies_of(list@);
        if same(strategy.symbol.as_str(), axis.symbol.as_str()) {
            match strategy.with(axis.setting.as_str(), value, reading) {
                Ok(changed) => {
                    list.push(changed);
                    assert(config::strategies_of(list@) =~= before.push(changed@));
                },
                Err(e) => {
                    let named = glue(glue(axis.symbol.as_str(), ".").as_str(), axis.setting.as_str());
                    let said = glue(glue(named.as_str(), ": ").as_str(), e.text().as_str());
                    proof {
                        varied_fault_stays(
                            held,
                            i + 1,
                            held.len() as int,
                            axis@,
                            value@,
                            *reading,
                            said@,
                        );
                    }
                    return Err(said);
                },
            }
        } else {
            let copy = copy_of(strategy);
            list.push(copy);
            assert(config::strategies_of(list@) =~= before.push(copy@));
        }
        i += 1;
    }
    Ok(list)
}

fn trades(strategies: &[StrategyConfig], symbol: &str) -> (yes: bool)
    ensures
        yes == traded(config::strategies_of(strategies@), strategies@.len() as int, symbol@),
{
    let ghost held = config::strategies_of(strategies@);
    let mut i: usize = 0;
    let mut yes = false;
    while i < strategies.len()
        invariant
            i <= strategies@.len(),
            held == config::strategies_of(strategies@),
            yes == traded(held, i as int, symbol@),
        decreases strategies@.len() - i,
    {
        assert(held[i as int] == strategies@[i as int]@);
        if same(strategies[i].symbol.as_str(), symbol) {
            yes = true;
        }
        i += 1;
    }
    yes
}

/// The base config with a point's settings applied, where `readings` is what a
/// reader of decimals makes of each value. An axis that no strategy answers to
/// is refused: every run would be the base config, ranked against itself.
pub fn configure(
    base: &SessionConfig,
    axes: &[Axis],
    point: &[String],
    readings: &[Result<i64, String>],
) -> (session: Result<SessionConfig, String>)
    requires
        point@.len() == axes@.len(),
        readings@.len() == axes@.len(),
    ensures
        match configured(
            base@.strategies,
            axes_of(axes@),
            words::views(point@),
            readings@,
            axes@.len() as int,
        ) {
            Ok(strategies) => session matches Ok(s) && s@ == (ConfigView { strategies, ..base@ }),
            Err(e) => session matches Err(m) && m@ == e,
        },
{
    let ghost a = axes_of(axes@);
    let ghost p = words::views(point@);
    let ghost held = base@.strategies;
    let mut list: Vec<StrategyConfig> = Vec::new();
    let mut i: usize = 0;
    while i < base.strategies.len()
        invariant
            i <= base.strategies@.len(),
            held == config::strategies_of(base.strategies@),
            config::strategies_of(list@) == held.take(i as int),
        decreases base.strategies@.len() - i,
    {
        let copy = copy_of(&base.strategies[i]);
        let ghost before = config::strategies_of(list@);
        list.push(copy);
        assert(config::strategies_of(list@) =~= before.push(copy@));
        i += 1;
        assert(config::strategies_of(list@) =~= held.take(i as int));
    }
    assert(config::strategies_of(list@) =~= held);
    let mut k: usize = 0;
    while k < axes.len()
        invariant
            k <= axes@.len() == point@.len() == readings@.len(),
            a == axes_of(axes@),
            p == words::views(point@),
            held == base@.strategies,
            configured(held, a, p, readings@, k as int) == Ok::<Seq<StrategyView>, Seq<char>>(
                config::strategies_of(list@),
            ),
        decreases axes@.len() - k,
    {
        let axis = &axes[k];
        assert(a[k as int] == axis@);
        assert(p[k as int] == point@[k as int]@);
        assert(config::strategies_of(list@).len() == list@.len());
        match vary(list.as_slice(), axis, point[k].as_str(), &readings[k]) {
            Err(e) => {
                proof {
                    configured_fault_stays(held, a, p, readings@, k + 1, a.len() as int, e@);
                }
                return Err(e);
            },
            Ok(next) => {
                if !trades(list.as_slice(), axis.symbol.as_str()) {
                    let e = glue("no strategy in the config trades ", axis.symbol.as_str());
                    proof {
                        configured_fault_stays(held, a, p, readings@, k + 1, a.len() as int, e@);
                    }
                    return Err(e);
                }
                list = next;
            },
        }
        k += 1;
    }
    Ok(base.with_strategies(list))
}

/// What the first `n` axes are at a point, in words.
pub open spec fn label_upto(axes: Seq<AxisView>, point: Seq<Seq<char>>, n: int) -> Seq<char>
    decreases n,
{
    if n <= 0 {
        Seq::empty()
    } else {
        let one = axes[n - 1].setting + "="@ + point[n - 1];
        if n == 1 {
            one
        } else {
            label_upto(axes, point, n - 1) + " "@ + one
        }
    }
}

/// What a run is called.
pub open spec fn label_of(axes: Seq<AxisView>, point: Seq<Seq<char>>) -> Seq<char> {
    if axes.len() == 0 {
        "base"@
    } else {
        label_upto(axes, point, axes.len() as int)
    }
}

/// What a run is called.
pub fn label(axes: &[Axis], point: &[String]) -> (label: String)
    requires
        point@.len() == axes@.len(),
    ensures
        label@ == label_of(axes_of(axes@), words::views(point@)),
{
    if axes.len() == 0 {
        return said("base");
    }
    let ghost a = axes_of(axes@);
    let ghost p = words::views(point@);
    let mut label = String::new();
    let mut i: usize = 0;
    assert(label@ =~= Seq::empty());
    while i < axes.len()
        invariant
            i <= axes@.len() == point@.len(),
            a == axes_of(axes@),
            p == words::views(point@),
            label@ == label_upto(a, p, i as int),
        decreases axes@.len() - i,
    {
        assert(a[i as int].setting == axes@[i as int].setting@);
        assert(p[i as int] == point@[i as int]@);
        let one = glue(glue(axes[i].setting.as_str(), "=").as_str(), point[i].as_str());
        label = if i == 0 {
            one
        } else {
            glue(glue(label.as_str(), " ").as_str(), one.as_str())
        };
        i += 1;
    }
    label
}

/// What a run came to, and how much it hurt getting there.
#[derive(Debug, Clone, Copy, PartialEq, Eq, Structural)]
pub struct Run {
    /// What it was worth, open positions included.
    pub total: Notional,
    pub max_drawdown: Notional,
    pub fills: u64,
    pub refused: u64,
    /// Whether every position could be marked.
    pub complete: bool,
}

/// A variant, on the stretch it was chosen on and on the other.
#[derive(Debug, Clone, PartialEq, Eq)]
pub struct Row {
    pub label: String,
    pub inside: Run,
    pub outside: Option<Run>,
}

/// Whether the `a`th row ranks before the `b`th: it was worth more in sample, or
/// as much and it came first.
pub open spec fn outranks(rows: Seq<Row>, a: int, b: int) -> bool {
    ||| rows[a].inside.total.0 > rows[b].inside.total.0
    ||| rows[a].inside.total == rows[b].inside.total && a < b
}

/// Whether `order` ranks the first `n` rows: it names each of them once, the
/// best first.
pub open spec fn ranked(rows: Seq<Row>, order: Seq<usize>, n: int) -> bool {
    &&& order.len() == n
    &&& forall|i: int| 0 <= i < order.len() ==> #[trigger] order[i] < n
    &&& forall|i: int, j: int|
        0 <= i < j < order.len() ==> outranks(
            rows,
            #[trigger] order[i] as int,
            #[trigger] order[j] as int,
        )
}

/// Ranks rows by what the run was worth, not by realized profit: a variant that
/// ends holding a large position has not finished yet.
pub fn rank(rows: &[Row]) -> (order: Vec<usize>)
    ensures
        ranked(rows@, order@, rows@.len() as int),
{
    let mut order: Vec<usize> = Vec::new();
    let mut k: usize = 0;
    while k < rows.len()
        invariant
            k <= rows@.len(),
            ranked(rows@, order@, k as int),
        decreases rows@.len() - k,
    {
        let total: i128 = rows[k].inside.total.to_scaled();
        let mut p: usize = 0;
        while p < order.len() && rows[order[p]].inside.total.to_scaled() >= total
            invariant
                k < rows@.len(),
                total == rows@[k as int].inside.total.0,
                ranked(rows@, order@, k as int),
                p <= order@.len(),
                forall|i: int|
                    0 <= i < p ==> rows@[#[trigger] order@[i] as int].inside.total.0 >= total,
            decreases order@.len() - p,
        {
            p += 1;
        }
        let ghost before = order@;
        order.insert(p, k);
        proof {
            assert(order@ == before.insert(p as int, k));
            assert forall|i: int, j: int| 0 <= i < j < order@.len() implies outranks(
                rows@,
                #[trigger] order@[i] as int,
                #[trigger] order@[j] as int,
            ) by {
                if j < p {
                    assert(order@[i] == before[i] && order@[j] == before[j]);
                } else if j == p {
                    assert(order@[i] == before[i]);
                    assert(before[i] < k);
                } else if i == p {
                    assert(order@[j] == before[j - 1]);
                    assert(p < before.len());
                    if j - 1 > p {
                        assert(outranks(rows@, before[p as int] as int, before[j - 1] as int));
                    }
                } else if i < p {
                    assert(order@[i] == before[i] && order@[j] == before[j - 1]);
                } else {
                    assert(order@[i] == before[i - 1] && order@[j] == before[j - 1]);
                }
            }
            assert forall|i: int| 0 <= i < order@.len() implies #[trigger] order@[i] < k + 1 by {
                if i < p {
                    assert(order@[i] == before[i]);
                } else if i > p {
                    assert(order@[i] == before[i - 1]);
                }
            }
        }
        k += 1;
    }
    order
}

/// What a row was worth out of sample.
pub open spec fn outside_of(row: Row) -> i128 {
    match row.outside {
        Some(run) => run.total.0,
        None => i128::MIN,
    }
}

/// Whether the `best` of the first `n` rows was worth the most out of sample: the
/// last of those that were.
pub open spec fn is_best_outside(rows: Seq<Row>, best: int, n: int) -> bool {
    &&& 0 <= best < n
    &&& forall|i: int| 0 <= i < n ==> outside_of(#[trigger] rows[i]) <= outside_of(rows[best])
    &&& forall|i: int| best < i < n ==> outside_of(#[trigger] rows[i]) < outside_of(rows[best])
}

fn outside_total(row: &Row) -> (total: i128)
    ensures
        total == outside_of(*row),
{
    match row.outside {
        Some(run) => run.total.to_scaled(),
        None => i128::MIN,
    }
}

/// Which row was worth the most out of sample.
pub fn best_outside(rows: &[Row]) -> (best: Option<usize>)
    ensures
        match best {
            Some(b) => is_best_outside(rows@, b as int, rows@.len() as int),
            None => rows@.len() == 0,
        },
{
    if rows.len() == 0 {
        return None;
    }
    let mut best: usize = 0;
    let mut i: usize = 1;
    while i < rows.len()
        invariant
            1 <= i <= rows@.len(),
            is_best_outside(rows@, best as int, i as int),
        decreases rows@.len() - i,
    {
        if outside_total(&rows[i]) >= outside_total(&rows[best]) {
            best = i;
        }
        i += 1;
    }
    Some(best)
}

/// Characters as they are written.
pub open spec fn written(s: Seq<char>) -> Seq<Glyph> {
    text::glyphs_of(s)
}

/// What is said of whether the best row in sample, the first, was also the best
/// out of sample.
pub open spec fn change_of(rows: Seq<Row>, best: int) -> Seq<Seq<Glyph>> {
    if rows[0].label@ == rows[best].label@ {
        seq![
            written("The best variant in sample was also the best out of sample ("@) + written(
                rows[0].label@,
            ) + written(")."@),
            written(
                "That is weak evidence it is real, not proof: one split is one experiment."@,
            ),
        ]
    } else {
        seq![
            written("!! The ranking rearranged. In sample the best was "@) + written(
                rows[0].label@,
            ) + written("; out of sample it"@),
            written("!! returned "@) + seq![
                Glyph::Money(
                    match rows[0].outside {
                        Some(run) => run.total,
                        None => Notional(0),
                    },
                ),
            ] + written(" and "@) + written(rows[best].label@) + written(
                " did better. Choosing on the in-sample column"@,
            ),
            written("!! would have picked the wrong one, which is what overfitting looks like."@),
        ]
    }
}

/// Says whether the in-sample winner survived out of sample. The rows are ranked.
pub fn report_rank_change(rows: &[Row]) -> (lines: Vec<Text>)
    ensures
        rows@.len() == 0 ==> lines@.len() == 0,
        rows@.len() > 0 ==> exists|best: int|
            is_best_outside(rows@, best, rows@.len() as int) && text::lines_of(lines@)
                == #[trigger] change_of(rows@, best),
{
    let mut lines: Vec<Text> = Vec::new();
    let best: usize = match best_outside(rows) {
        Some(best) => best,
        None => {
            return lines;
        },
    };
    assert(text::lines_of(lines@) =~= Seq::empty());
    let first = &rows[0];
    if same(first.label.as_str(), rows[best].label.as_str()) {
        let mut t = Text::new();
        t.lit("The best variant in sample was also the best out of sample (");
        t.lit(first.label.as_str());
        t.lit(").");
        assert(t@ =~= change_of(rows@, best as int)[0]);
        put(&mut lines, t);
        say(
            &mut lines,
            "That is weak evidence it is real, not proof: one split is one experiment.",
        );
    } else {
        let mut t = Text::new();
        t.lit("!! The ranking rearranged. In sample the best was ");
        t.lit(first.label.as_str());
        t.lit("; out of sample it");
        assert(t@ =~= change_of(rows@, best as int)[0]);
        put(&mut lines, t);
        let returned = match first.outside {
            Some(run) => run.total,
            None => Notional::zero(),
        };
        let mut t = Text::new();
        t.lit("!! returned ");
        t.money(returned);
        t.lit(" and ");
        t.lit(rows[best].label.as_str());
        t.lit(" did better. Choosing on the in-sample column");
        assert(t@ =~= change_of(rows@, best as int)[1]);
        put(&mut lines, t);
        say(
            &mut lines,
            "!! would have picked the wrong one, which is what overfitting looks like.",
        );
    }
    assert(text::lines_of(lines@) =~= change_of(rows@, best as int));
    lines
}

/// How wide the column of labels is: as the longest of the first `n`, in bytes,
/// and no narrower than four.
pub open spec fn width_of(rows: Seq<Row>, n: int) -> usize
    decreases n,
{
    if n <= 0 {
        4
    } else {
        let before = width_of(rows, n - 1);
        let len = vstd::utf8::encode_utf8(rows[n - 1].label@).len() as usize;
        if len > before {
            len
        } else {
            before
        }
    }
}

fn width(rows: &[Row]) -> (width: usize)
    ensures
        width == width_of(rows@, rows@.len() as int),
{
    let mut width: usize = 4;
    let mut i: usize = 0;
    while i < rows.len()
        invariant
            i <= rows@.len(),
            width == width_of(rows@, i as int),
        decreases rows@.len() - i,
    {
        let len: usize = rows[i].label.as_str().len();
        if len > width {
            width = len;
        }
        i += 1;
    }
    width
}

/// A row of the table.
pub open spec fn row_of(row: Row, width: usize) -> Seq<Glyph> {
    written(text::at_left(row.label@, width as nat)) + written("  "@) + seq![
        Glyph::Right(14),
        Glyph::Money(row.inside.total),
    ] + written(" "@) + seq![Glyph::Right(12), Glyph::Money(row.inside.max_drawdown)] + written(
        " "@,
    ) + written(text::at_right(text::digits(row.inside.fills as nat), 7)) + written(" "@) + written(
        text::at_right(text::digits(row.inside.refused as nat), 6),
    ) + (match row.outside {
        Some(run) => written("   "@) + seq![Glyph::Right(14), Glyph::Money(run.total)] + written(
            " "@,
        ) + seq![Glyph::Right(12), Glyph::Money(run.max_drawdown)],
        None => Seq::empty(),
    }) + (if row.inside.complete {
        Seq::empty()
    } else {
        written("  !! unmarked"@)
    })
}

/// The first `n` rows of the table.
pub open spec fn table_rows(rows: Seq<Row>, n: int, width: usize) -> Seq<Seq<Glyph>>
    decreases n,
{
    if n <= 0 {
        Seq::empty()
    } else {
        table_rows(rows, n - 1, width).push(row_of(rows[n - 1], width))
    }
}

/// The line that stands over the table.
pub open spec fn table_head(split: bool, width: usize) -> Seq<Glyph> {
    if split {
        written(text::at_left("variant"@, width as nat)) + written("  "@) + written(
            text::at_right("in total"@, 14),
        ) + written(" "@) + written(text::at_right("in drawdown"@, 12)) + written(" "@) + written(
            text::at_right("fills"@, 7),
        ) + written(" "@) + written(text::at_right("ref"@, 6)) + written("   "@) + written(
            text::at_right("OUT total"@, 14),
        ) + written(" "@) + written(text::at_right("out drawdown"@, 12))
    } else {
        written(text::at_left("variant"@, width as nat)) + written("  "@) + written(
            text::at_right("total"@, 14),
        ) + written(" "@) + written(text::at_right("drawdown"@, 12)) + written(" "@) + written(
            text::at_right("fills"@, 7),
        ) + written(" "@) + written(text::at_right("ref"@, 6))
    }
}

/// What is said where nothing was measured out of sample.
pub open spec fn warning() -> Seq<Seq<Glyph>> {
    seq![
        written("!! No out-of-sample split. Picking the top row of this table is how a"@),
        written("!! strategy gets overfitted: with enough variants the winner is partly"@),
        written("!! measuring the noise in this particular recording. Re-run with"@),
        written("!! --split 0.7 to measure every variant on market it was not chosen on."@),
    ]
}

/// The recording that was swept: how many records there are, and how many in and
/// out of sample where it was split.
#[derive(Debug, Clone)]
pub struct Swept {
    pub path: String,
    pub session_id: u64,
    pub records: u64,
    pub split: Option<(u64, u64)>,
}

/// The table of ranked rows, up to what is said below it.
pub open spec fn table_of(swept: &Swept, rows: Seq<Row>) -> Seq<Seq<Glyph>> {
    let n = rows.len() as int;
    let width = width_of(rows, n);
    seq![
        written("sweep over "@) + written(swept.path@),
        written("  session id     "@) + written(text::digits(swept.session_id as nat)),
        written("  records        "@) + written(text::digits(swept.records as nat)),
        written("  runs           "@) + written(text::digits(rows.len())),
        match swept.split {
            Some((inside, outside)) => written("  split          "@) + written(
                text::digits(inside as nat),
            ) + written(" records in sample, "@) + written(text::digits(outside as nat)) + written(
                " out"@,
            ),
            None => written("  split          none — see the warning below"@),
        },
        Seq::empty(),
        table_head(swept.split is Some, width),
    ] + table_rows(rows, n, width) + seq![Seq::empty()]
}

fn table_line(row: &Row, width: usize) -> (t: Text)
    ensures
        t@ == row_of(*row, width),
{
    let mut t = Text::new();
    t.lit(left(row.label.as_str(), width).as_str());
    t.lit("  ");
    t.column(14);
    t.money(row.inside.total);
    t.lit(" ");
    t.column(12);
    t.money(row.inside.max_drawdown);
    t.lit(" ");
    t.lit(right(number_string(row.inside.fills as u128).as_str(), 7).as_str());
    t.lit(" ");
    t.lit(right(number_string(row.inside.refused as u128).as_str(), 6).as_str());
    if let Some(run) = row.outside {
        t.lit("   ");
        t.column(14);
        t.money(run.total);
        t.lit(" ");
        t.column(12);
        t.money(run.max_drawdown);
    }
    if !row.inside.complete {
        t.lit("  !! unmarked");
    }
    assert(t@ =~= row_of(*row, width));
    t
}

fn head_line(split: bool, width: usize) -> (t: Text)
    ensures
        t@ == table_head(split, width),
{
    let mut t = Text::new();
    t.lit(left("variant", width).as_str());
    t.lit("  ");
    if split {
        t.lit(right("in total", 14).as_str());
        t.lit(" ");
        t.lit(right("in drawdown", 12).as_str());
    } else {
        t.lit(right("total", 14).as_str());
        t.lit(" ");
        t.lit(right("drawdown", 12).as_str());
    }
    t.lit(" ");
    t.lit(right("fills", 7).as_str());
    t.lit(" ");
    t.lit(right("ref", 6).as_str());
    if split {
        t.lit("   ");
        t.lit(right("OUT total", 14).as_str());
        t.lit(" ");
        t.lit(right("out drawdown", 12).as_str());
    }
    assert(t@ =~= table_head(split, width));
    t
}

fn put_fact(lines: &mut Vec<Text>, label: &str, fact: &str)
    ensures
        text::lines_of(final(lines)@) == text::lines_of(old(lines)@).push(
            written(label@) + written(fact@),
        ),
{
    let mut t = Text::new();
    t.lit(label);
    t.lit(fact);
    assert(t@ =~= written(label@) + written(fact@));
    put(lines, t);
}

/// The table of ranked rows. Where nothing was measured out of sample it ends
/// with a warning, else the change of rank is to follow.
pub fn table(swept: &Swept, rows: &[Row]) -> (lines: Vec<Text>)
    ensures
        text::lines_of(lines@) == table_of(swept, rows@) + if swept.split is None {
            warning()
        } else {
            Seq::empty()
        },
{
    let ghost r = rows@;
    let width: usize = width(rows);
    let mut lines: Vec<Text> = Vec::new();
    assert(text::lines_of(lines@) =~= Seq::empty());
    put_fact(&mut lines, "sweep over ", swept.path.as_str());
    put_fact(
        &mut lines,
        "  session id     ",
        number_string(swept.session_id as u128).as_str(),
    );
    put_fact(&mut lines, "  records        ", number_string(swept.records as u128).as_str());
    put_fact(&mut lines, "  runs           ", number_string(rows.len() as u128).as_str());
    match swept.split {
        Some((inside, outside)) => {
            let mut t = Text::new();
            t.lit("  split          ");
            t.lit(number_string(inside as u128).as_str());
            t.lit(" records in sample, ");
            t.lit(number_string(outside as u128).as_str());
            t.lit(" out");
            assert(t@ =~= table_of(swept, r)[4]);
            put(&mut lines, t);
        },
        None => say(&mut lines, "  split          none — see the warning below"),
    }
    put(&mut lines, Text::new());
    put(&mut lines, head_line(swept.split.is_some(), width));
    let ghost had = text::lines_of(lines@);
    assert(had =~= table_of(swept, r).take(7));
    let mut i: usize = 0;
    assert(had + table_rows(r, 0, width) =~= had);
    while i < rows.len()
        invariant
            i <= rows@.len(),
            r == rows@,
            text::lines_of(lines@) == had + table_rows(r, i as int, width),
        decreases rows@.len() - i,
    {
        put(&mut lines, table_line(&rows[i], width));
        i += 1;
        assert(text::lines_of(lines@) =~= had + table_rows(r, i as int, width));
    }
    put(&mut lines, Text::new());
    assert(text::lines_of(lines@) =~= table_of(swept, r));
    if swept.split.is_none() {
        say(&mut lines, "!! No out-of-sample split. Picking the top row of this table is how a");
        say(&mut lines, "!! strategy gets overfitted: with enough variants the winner is partly");
        say(&mut lines, "!! measuring the noise in this particular recording. Re-run with");
        say(&mut lines, "!! --split 0.7 to measure every variant on market it was not chosen on.");
        assert(text::lines_of(lines@) =~= table_of(swept, r) + warning());
    } else {
        assert(text::lines_of(lines@) =~= table_of(swept, r) + Seq::<Seq<Glyph>>::empty());
    }
    lines
}

/// An amount out of sample, as JSON.
pub open spec fn outside_json(amount: Option<Notional>) -> Seq<Glyph> {
    match amount {
        Some(amount) => written("\""@) + seq![Glyph::Money(amount)] + written("\""@),
        None => written("null"@),
    }
}

/// A row as JSON. Money stands in strings.
pub open spec fn json_row(row: Row, last: bool) -> Seq<Glyph> {
    written("    {\"variant\": "@) + written(text::quoted_by_debug(row.label@)) + written(
        ", \"in_total\": \""@,
    ) + seq![Glyph::Money(row.inside.total)] + written("\", \"in_drawdown\": \""@) + seq![
        Glyph::Money(row.inside.max_drawdown),
    ] + written("\",              \"fills\": "@) + written(text::digits(row.inside.fills as nat))
        + written(", \"refused\": "@) + written(text::digits(row.inside.refused as nat)) + written(
        ", \"out_total\": "@,
    ) + outside_json(
        match row.outside {
            Some(run) => Some(run.total),
            None => None,
        },
    ) + written(",              \"out_drawdown\": "@) + outside_json(
        match row.outside {
            Some(run) => Some(run.max_drawdown),
            None => None,
        },
    ) + written(", \"complete\": "@) + written(
        if row.inside.complete {
            "true"@
        } else {
            "false"@
        },
    ) + written("}"@) + (if last {
        Seq::empty()
    } else {
        written(","@)
    })
}

/// The first `n` of the rows as JSON.
pub open spec fn json_rows(rows: Seq<Row>, n: int) -> Seq<Seq<Glyph>>
    decreases n,
{
    if n <= 0 {
        Seq::empty()
    } else {
        json_rows(rows, n - 1).push(json_row(rows[n - 1], n == rows.len()))
    }
}

/// The ranked grid as JSON, where `split` is the fraction as it prints.
pub open spec fn json_of(path: Seq<char>, split: Option<Seq<char>>, rows: Seq<Row>) -> Seq<
    Seq<Glyph>,
> {
    seq![
        written("{"@),
        written("  \"recording\": "@) + written(text::quoted_by_debug(path)) + written(","@),
        written("  \"split\": "@) + written(
            match split {
                Some(fraction) => fraction,
                None => "null"@,
            },
        ) + written(","@),
        written("  \"runs\": ["@),
    ] + json_rows(rows, rows.len() as int) + seq![written("  ]"@), written("}"@)]
}

fn put_outside(t: &mut Text, amount: Option<Notional>)
    ensures
        final(t)@ == old(t)@ + outside_json(amount),
{
    match amount {
        Some(amount) => {
            t.lit("\"");
            t.money(amount);
            t.lit("\"");
        },
        None => t.lit("null"),
    }
    assert(t@ =~= old(t)@ + outside_json(amount));
}

fn json_line(row: &Row, last: bool) -> (t: Text)
    ensures
        t@ == json_row(*row, last),
{
    let (total, drawdown) = match row.outside {
        Some(run) => (Some(run.total), Some(run.max_drawdown)),
        None => (None, None),
    };
    let mut t = Text::new();
    t.lit("    {\"variant\": ");
    t.lit(debug_string(row.label.as_str()).as_str());
    t.lit(", \"in_total\": \"");
    t.money(row.inside.total);
    t.lit("\", \"in_drawdown\": \"");
    t.money(row.inside.max_drawdown);
    t.lit("\",              \"fills\": ");
    t.number(row.inside.fills as u128);
    t.lit(", \"refused\": ");
    t.number(row.inside.refused as u128);
    t.lit(", \"out_total\": ");
    put_outside(&mut t, total);
    t.lit(",              \"out_drawdown\": ");
    put_outside(&mut t, drawdown);
    t.lit(", \"complete\": ");
    t.lit(
        if row.inside.complete {
            "true"
        } else {
            "false"
        },
    );
    t.lit("}");
    if !last {
        t.lit(",");
    }
    assert(t@ =~= json_row(*row, last));
    t
}

/// The ranked grid as JSON, for a caller that sorts it itself.
pub fn table_json(path: &str, split: Option<&str>, rows: &[Row]) -> (lines: Vec<Text>)
    ensures
        text::lines_of(lines@) == json_of(
            path@,
            match split {
                Some(s) => Some(s@),
                None => None,
            },
            rows@,
        ),
{
    let ghost r = rows@;
    let mut lines: Vec<Text> = Vec::new();
    assert(text::lines_of(lines@) =~= Seq::empty());
    say(&mut lines, "{");
    let mut t = Text::new();
    t.lit("  \"recording\": ");
    t.lit(debug_string(path).as_str());
    t.lit(",");
    assert(t@ =~= written("  \"recording\": "@) + written(text::quoted_by_debug(path@)) + written(
        ","@,
    ));
    put(&mut lines, t);
    let fraction = match split {
        Some(fraction) => fraction,
        None => "null",
    };
    let mut t = Text::new();
    t.lit("  \"split\": ");
    t.lit(fraction);
    t.lit(",");
    assert(t@ =~= written("  \"split\": "@) + written(fraction@) + written(","@));
    put(&mut lines, t);
    say(&mut lines, "  \"runs\": [");
    let ghost had = text::lines_of(lines@);
    let mut i: usize = 0;
    assert(had + json_rows(r, 0) =~= had);
    while i < rows.len()
        invariant
            i <= rows@.len(),
            r == rows@,
            text::lines_of(lines@) == had + json_rows(r, i as int),
        decreases rows@.len() - i,
    {
        let last = i + 1 == rows.len();
        put(&mut lines, json_line(&rows[i], last));
        i += 1;
        assert(text::lines_of(lines@) =~= had + json_rows(r, i as int));
    }
    say(&mut lines, "  ]");
    say(&mut lines, "}");
    assert(text::lines_of(lines@) =~= json_of(
        path@,
        match split {
            Some(s) => Some(s@),
            None => None,
        },
        r,
    ));
    lines
}

} // verus!
