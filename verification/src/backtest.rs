//! A run over a recorded session, next to what that session did.
use vstd::prelude::*;

use crate::config::{BarSpec, Limits, StrategyConfig, StrategyKind};
use crate::event::{Outbound, RiskReason};
use crate::report::Refusal;
use crate::text;
use crate::text::{glue, number_string, padded_string, said};
use crate::value::{ExchangeSpan, InstrumentId, Notional, Qty, SCALE};

verus! {

/// A fixed-point value as a decimal, to nine places.
pub open spec fn decimal_of(scaled: int) -> Seq<char> {
    let n = if scaled < 0 {
        (-scaled) as nat
    } else {
        scaled as nat
    };
    (if scaled < 0 {
        "-"@
    } else {
        ""@
    }) + text::digits(n / 1_000_000_000) + "."@ + text::base_padded(n % 1_000_000_000, 10, 9)
}

/// Renders a fixed-point value as a decimal.
pub fn decimal(scaled: i128) -> (text: String)
    ensures
        text@ == decimal_of(scaled as int),
{
    let n: u128 = if scaled == i128::MIN {
        170141183460469231731687303715884105728
    } else if scaled < 0 {
        (-scaled) as u128
    } else {
        scaled as u128
    };
    let unit: u128 = SCALE as u128;
    let sign = if scaled < 0 {
        "-"
    } else {
        ""
    };
    let whole = number_string(n / unit);
    let part = padded_string(n % unit, 10, 9);
    glue(glue(glue(sign, whole.as_str()).as_str(), ".").as_str(), part.as_str())
}

/// Bounds wide enough not to bind by accident, for a run without a config.
pub fn wide_limits() -> (limits: Limits)
    ensures
        limits == (Limits {
            max_position: Qty((1_000 * SCALE) as i64),
            max_exposure: Notional((10_000_000 * SCALE) as i128),
            max_order_notional: Notional((1_000_000 * SCALE) as i128),
            max_orders_in_window: 60,
            rate_window: ExchangeSpan(60_000_000_000),
            max_quote_age: ExchangeSpan(30_000_000_000),
        }),
{
    Limits {
        max_position: Qty::from_scaled(1_000 * SCALE),
        max_exposure: Notional::from_scaled(10_000_000 * (SCALE as i128)),
        max_order_notional: Notional::from_scaled(1_000_000 * (SCALE as i128)),
        max_orders_in_window: 60,
        rate_window: ExchangeSpan::from_nanos(60_000_000_000),
        max_quote_age: ExchangeSpan::from_nanos(30_000_000_000),
    }
}

/// One crossover on an instrument, for a run without a config.
pub fn plain_strategy(instrument: InstrumentId, symbol: &str) -> (strategy: StrategyConfig)
    ensures
        strategy.instrument == instrument,
        strategy.symbol@ == symbol@,
        strategy.kind == (StrategyKind::Crossover {
            window: 20,
            size: Qty(SCALE),
            bars: BarSpec::Tick { threshold: 1 },
        }),
{
    StrategyConfig {
        instrument,
        symbol: said(symbol),
        kind: StrategyKind::Crossover {
            window: 20,
            size: Qty::from_scaled(SCALE),
            bars: BarSpec::Tick { threshold: 1 },
        },
    }
}

/// How many of the first `n` decisions sent an order.
pub open spec fn orders_in(decisions: Seq<Outbound>, n: int) -> nat
    decreases n,
{
    if n <= 0 {
        0
    } else if decisions[n - 1] is OrderSubmitted {
        orders_in(decisions, n - 1) + 1
    } else {
        orders_in(decisions, n - 1)
    }
}

/// How many decisions sent an order.
pub fn orders_submitted(decisions: &[Outbound]) -> (orders: usize)
    ensures
        orders == orders_in(decisions@, decisions@.len() as int),
{
    let mut orders: usize = 0;
    let mut i: usize = 0;
    while i < decisions.len()
        invariant
            orders <= i <= decisions@.len(),
            orders == orders_in(decisions@, i as int),
        decreases decisions@.len() - i,
    {
        if matches!(decisions[i], Outbound::OrderSubmitted { .. }) {
            orders += 1;
        }
        i += 1;
    }
    orders
}

/// How often the first `n` decisions refused an intent for a reason.
pub open spec fn refused_for(decisions: Seq<Outbound>, n: int, reason: RiskReason) -> nat
    decreases n,
{
    if n <= 0 {
        0
    } else {
        let before = refused_for(decisions, n - 1, reason);
        match decisions[n - 1] {
            Outbound::IntentRejected { reason: r, .. } if r == reason => before + 1,
            _ => before,
        }
    }
}

/// When the first `n` decisions first refused for a reason: `n` where they did
/// not.
pub open spec fn first_refused(decisions: Seq<Outbound>, n: int, reason: RiskReason) -> int
    decreases n,
{
    if n <= 0 {
        0
    } else if refused_for(decisions, n - 1, reason) > 0 {
        first_refused(decisions, n - 1, reason)
    } else if refused_for(decisions, n, reason) > 0 {
        n - 1
    } else {
        n
    }
}

/// Whether a tally counts the refusals in the first `n` decisions: each reason
/// that was given once, with how often, in the order they were first given.
pub open spec fn tallies(decisions: Seq<Outbound>, n: int, tally: Seq<Refusal>) -> bool {
    &&& forall|i: int|
        0 <= i < tally.len() ==> (#[trigger] tally[i]).count > 0 && tally[i].count == refused_for(
            decisions,
            n,
            tally[i].reason,
        )
    &&& forall|r: RiskReason| #[trigger]
        refused_for(decisions, n, r) > 0 ==> exists|i: int|
            0 <= i < tally.len() && (#[trigger] tally[i]).reason == r
    &&& forall|i: int, j: int|
        0 <= i < j < tally.len() ==> first_refused(
            decisions,
            n,
            (#[trigger] tally[i]).reason,
        ) < first_refused(decisions, n, (#[trigger] tally[j]).reason)
}

fn find_reason(tally: &[Refusal], reason: RiskReason) -> (at: Option<usize>)
    ensures
        match at {
            Some(i) => i < tally@.len() && tally@[i as int].reason == reason,
            None => forall|i: int| 0 <= i < tally@.len() ==> (#[trigger] tally@[i]).reason != reason,
        },
{
    let mut i: usize = 0;
    while i < tally.len()
        invariant
            i <= tally@.len(),
            forall|k: int| 0 <= k < i ==> (#[trigger] tally@[k]).reason != reason,
        decreases tally@.len() - i,
    {
        if tally[i].reason == reason {
            return Some(i);
        }
        i += 1;
    }
    None
}

proof fn first_refused_bound(decisions: Seq<Outbound>, n: int, reason: RiskReason)
    requires
        0 <= n,
    ensures
        0 <= first_refused(decisions, n, reason) <= n,
        refused_for(decisions, n, reason) > 0 ==> first_refused(decisions, n, reason) < n,
        refused_for(decisions, n, reason) <= n,
    decreases n,
{
    if n > 0 {
        first_refused_bound(decisions, n - 1, reason);
    }
}

proof fn refusals_stay(d: Seq<Outbound>, n: int, r: RiskReason)
    requires
        0 <= n,
        !(d[n] matches Outbound::IntentRejected { reason, .. } && reason == r),
    ensures
        refused_for(d, n + 1, r) == refused_for(d, n, r),
        refused_for(d, n, r) > 0 ==> first_refused(d, n + 1, r) == first_refused(d, n, r),
{
}

proof fn refusals_grow(d: Seq<Outbound>, n: int, r: RiskReason)
    requires
        0 <= n,
        d[n] matches Outbound::IntentRejected { reason, .. } && reason == r,
    ensures
        refused_for(d, n + 1, r) == refused_for(d, n, r) + 1,
        first_refused(d, n + 1, r) == if refused_for(d, n, r) > 0 {
            first_refused(d, n, r)
        } else {
            n
        },
{
}

proof fn reason_is_once(d: Seq<Outbound>, n: int, tally: Seq<Refusal>, i: int, k: int)
    requires
        tallies(d, n, tally),
        0 <= i < tally.len(),
        0 <= k < tally.len(),
        i != k,
    ensures
        tally[i].reason != tally[k].reason,
{
    if i < k {
        assert(first_refused(d, n, tally[i].reason) < first_refused(d, n, tally[k].reason));
    } else {
        assert(first_refused(d, n, tally[k].reason) < first_refused(d, n, tally[i].reason));
    }
}

proof fn tally_counts_on(d: Seq<Outbound>, n: int, tally: Seq<Refusal>, next: Seq<Refusal>, i: int)
    requires
        0 <= n,
        tallies(d, n, tally),
        0 <= i < tally.len(),
        tally[i].count < u64::MAX,
        d[n] matches Outbound::IntentRejected { reason, .. } && reason == tally[i].reason,
        next == tally.update(
            i,
            Refusal { reason: tally[i].reason, count: (tally[i].count + 1) as u64 },
        ),
    ensures
        tallies(d, n + 1, next),
{
    let reason = tally[i].reason;
    refusals_grow(d, n, reason);
    assert forall|k: int| 0 <= k < next.len() implies (#[trigger] next[k]).count > 0
        && next[k].count == refused_for(d, n + 1, next[k].reason) by {
        assert(tally[k].count > 0);
        if k != i {
            reason_is_once(d, n, tally, i, k);
            refusals_stay(d, n, tally[k].reason);
        }
    }
    assert forall|r: RiskReason| #[trigger] refused_for(d, n + 1, r) > 0 implies exists|k: int|
        0 <= k < next.len() && (#[trigger] next[k]).reason == r by {
        if r == reason {
            assert(next[i].reason == r);
        } else {
            refusals_stay(d, n, r);
            let k = choose|k: int| 0 <= k < tally.len() && (#[trigger] tally[k]).reason == r;
            assert(next[k].reason == r);
        }
    }
    assert forall|k: int, j: int| 0 <= k < j < next.len() implies first_refused(
        d,
        n + 1,
        (#[trigger] next[k]).reason,
    ) < first_refused(d, n + 1, (#[trigger] next[j]).reason) by {
        assert(tally[k].count > 0 && tally[j].count > 0);
        assert(next[k].reason == tally[k].reason && next[j].reason == tally[j].reason);
        if tally[k].reason != reason {
            refusals_stay(d, n, tally[k].reason);
        }
        if tally[j].reason != reason {
            refusals_stay(d, n, tally[j].reason);
        }
    }
}

proof fn tally_takes_up(d: Seq<Outbound>, n: int, tally: Seq<Refusal>, reason: RiskReason)
    requires
        0 <= n,
        tallies(d, n, tally),
        forall|k: int| 0 <= k < tally.len() ==> (#[trigger] tally[k]).reason != reason,
        d[n] matches Outbound::IntentRejected { reason: r, .. } && r == reason,
    ensures
        tallies(d, n + 1, tally.push(Refusal { reason, count: 1 })),
{
    let next = tally.push(Refusal { reason, count: 1 });
    let last = tally.len() as int;
    if refused_for(d, n, reason) > 0 {
        let k = choose|k: int| 0 <= k < tally.len() && (#[trigger] tally[k]).reason == reason;
        assert(tally[k].reason == reason);
    }
    refusals_grow(d, n, reason);
    assert(next[last].reason == reason);
    assert forall|k: int| 0 <= k < next.len() implies (#[trigger] next[k]).count > 0
        && next[k].count == refused_for(d, n + 1, next[k].reason) by {
        if k < last {
            assert(tally[k].count > 0);
            refusals_stay(d, n, tally[k].reason);
        }
    }
    assert forall|r: RiskReason| #[trigger] refused_for(d, n + 1, r) > 0 implies exists|k: int|
        0 <= k < next.len() && (#[trigger] next[k]).reason == r by {
        if r != reason {
            refusals_stay(d, n, r);
            let k = choose|k: int| 0 <= k < tally.len() && (#[trigger] tally[k]).reason == r;
            assert(next[k].reason == r);
        }
    }
    assert forall|k: int, j: int| 0 <= k < j < next.len() implies first_refused(
        d,
        n + 1,
        (#[trigger] next[k]).reason,
    ) < first_refused(d, n + 1, (#[trigger] next[j]).reason) by {
        assert(next[k] == tally[k] && tally[k].count > 0);
        refusals_stay(d, n, tally[k].reason);
        first_refused_bound(d, n, tally[k].reason);
        if j < last {
            assert(next[j] == tally[j] && tally[j].count > 0);
            refusals_stay(d, n, tally[j].reason);
        }
    }
}

proof fn tally_stays(d: Seq<Outbound>, n: int, tally: Seq<Refusal>)
    requires
        0 <= n,
        tallies(d, n, tally),
        !(d[n] is IntentRejected),
    ensures
        tallies(d, n + 1, tally),
{
    assert forall|r: RiskReason| #[trigger] refused_for(d, n + 1, r) > 0 implies exists|k: int|
        0 <= k < tally.len() && (#[trigger] tally[k]).reason == r by {
        refusals_stay(d, n, r);
    }
    assert forall|k: int| 0 <= k < tally.len() implies (#[trigger] tally[k]).count > 0
        && tally[k].count == refused_for(d, n + 1, tally[k].reason) by {
        refusals_stay(d, n, tally[k].reason);
    }
    assert forall|k: int, j: int| 0 <= k < j < tally.len() implies first_refused(
        d,
        n + 1,
        (#[trigger] tally[k]).reason,
    ) < first_refused(d, n + 1, (#[trigger] tally[j]).reason) by {
        assert(tally[k].count > 0 && tally[j].count > 0);
        refusals_stay(d, n, tally[k].reason);
        refusals_stay(d, n, tally[j].reason);
    }
}

/// What a session refused, and why: where two runs differ in their orders, the
/// usual cause is that they are under different limits.
pub fn tally_refusals(decisions: &[Outbound]) -> (tally: Vec<Refusal>)
    ensures
        tallies(decisions@, decisions@.len() as int, tally@),
{
    let ghost d = decisions@;
    let mut tally: Vec<Refusal> = Vec::new();
    let mut n: usize = 0;
    while n < decisions.len()
        invariant
            n <= decisions@.len(),
            d == decisions@,
            tallies(d, n as int, tally@),
        decreases decisions@.len() - n,
    {
        let ghost before = tally@;
        if let Outbound::IntentRejected { reason, .. } = decisions[n] {
            match find_reason(tally.as_slice(), reason) {
                Some(i) => {
                    let count: u64 = tally[i].count;
                    proof {
                        first_refused_bound(d, n as int, reason);
                    }
                    tally.set(i, Refusal { reason, count: count + 1 });
                    proof {
                        tally_counts_on(d, n as int, before, tally@, i as int);
                    }
                },
                None => {
                    tally.push(Refusal { reason, count: 1 });
                    proof {
                        tally_takes_up(d, n as int, before, reason);
                    }
                },
            }
        } else {
            proof {
                tally_stays(d, n as int, before);
            }
        }
        n += 1;
    }
    tally
}

/// How a run compares with what was recorded, in words.
pub open spec fn comparison_of(run: nat, recorded: nat) -> Seq<char> {
    if run == recorded {
        "  -> same order count as this run"@
    } else if run > recorded {
        "  -> this run submitted "@ + text::digits((run - recorded) as nat) + " order(s) more"@
    } else {
        "  -> this run submitted "@ + text::digits((recorded - run) as nat) + " order(s) fewer"@
    }
}

/// How a run compares with what was recorded, in words.
pub fn compare_orders(run: u64, recorded: u64) -> (text: String)
    ensures
        text@ == comparison_of(run as nat, recorded as nat),
{
    if run == recorded {
        return said("  -> same order count as this run");
    }
    let (apart, way): (u64, &str) = if run > recorded {
        (run - recorded, " order(s) more")
    } else {
        (recorded - run, " order(s) fewer")
    };
    let submitted = glue("  -> this run submitted ", number_string(apart as u128).as_str());
    glue(submitted.as_str(), way)
}

} // verus!
