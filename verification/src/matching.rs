//! What a simulated venue owes the orders it is sent: who is filled, by how much, at
//! what price and for what fee, and what becomes of the rest.
use vstd::prelude::*;

use crate::event::{
    Inbound, MarketEvent, MarketKind, OrderKind, RejectReason, VenueEvent, VenueKind,
};
use crate::sim;
use crate::sim::{Execution, FillModel, Level, Resting, SimVenue, TopOfBook, VenueError, VenueOrder};
use crate::value::{InstrumentId, Notional, OrderId, Px, Qty, Side, SCALE};

verus! {

/// Whether a buyer at `limit` would pay `px`, or a seller take it.
pub open spec fn within(side: Side, limit: Px, px: Px) -> bool {
    if side == Side::Buy {
        px.0 <= limit.0
    } else {
        px.0 >= limit.0
    }
}

/// The smaller of two numbers.
pub open spec fn least(a: int, b: int) -> int {
    if a <= b {
        a
    } else {
        b
    }
}

/// An order of which a part was executed, where something of it is left.
pub open spec fn remains(r: Resting, take: int) -> Seq<Resting> {
    if take < r.remaining.0 {
        seq![Resting { remaining: Qty((r.remaining.0 - take) as i64), ..r }]
    } else {
        Seq::empty()
    }
}

/// Whether `fee` is what `qty` costs at `rate` a unit, rounded up to a part.
pub open spec fn fair_fee(fee: Notional, rate: Px, qty: Qty) -> bool {
    &&& fee.0 * SCALE >= rate.0 * qty.0
    &&& (fee.0 - 1) * SCALE < rate.0 * qty.0
}

// ---- prints ----------------------------------------------------------------
proof fn unreached_stay(resting: Seq<Resting>, instrument: InstrumentId, px: Px, budget: int)
    requires
        budget <= 0 || forall|i: int|
            0 <= i < resting.len() ==> !((#[trigger] resting[i]).instrument == instrument && within(
                resting[i].side,
                resting[i].limit,
                px,
            )),
    ensures
        sim::print_fills(resting, instrument, px, budget).resting == resting,
        sim::print_fills(resting, instrument, px, budget).executions.len() == 0,
    decreases resting.len(),
{
    if resting.len() > 0 {
        let rest = resting.skip(1);
        assert forall|i: int| 0 <= i < rest.len() implies (#[trigger] rest[i]) == resting[i + 1] by {
        }
        unreached_stay(rest, instrument, px, budget);
        assert(!(resting[0].instrument == instrument && within(
            resting[0].side,
            resting[0].limit,
            px,
        )) || budget <= 0);
        assert(seq![resting[0]] + rest =~= resting);
    } else {
        assert(sim::print_fills(resting, instrument, px, budget).resting =~= resting);
    }
}

proof fn first_reached_fills(
    resting: Seq<Resting>,
    instrument: InstrumentId,
    px: Px,
    budget: int,
    k: int,
)
    requires
        0 < budget <= i64::MAX,
        0 <= k < resting.len(),
        resting[k].remaining.0 > 0,
        resting[k].instrument == instrument,
        within(resting[k].side, resting[k].limit, px),
        forall|i: int|
            0 <= i < k ==> !((#[trigger] resting[i]).instrument == instrument && within(
                resting[i].side,
                resting[i].limit,
                px,
            )),
    ensures
        ({
            let r = resting[k];
            let take = least(budget, r.remaining.0 as int);
            let swept = sim::print_fills(resting, instrument, px, budget);
            let behind = sim::print_fills(resting.skip(k + 1), instrument, px, budget - take);
            &&& swept.executions == seq![
                Execution { order: r.id, px: r.limit, qty: Qty(take as i64), taking: false },
            ] + behind.executions
            &&& swept.resting == resting.take(k) + remains(r, take) + behind.resting
        }),
    decreases k,
{
    let r = resting[k];
    let take = least(budget, r.remaining.0 as int);
    let behind = sim::print_fills(resting.skip(k + 1), instrument, px, budget - take);
    let swept = sim::print_fills(resting, instrument, px, budget);
    if k == 0 {
        assert(resting.take(0) + remains(r, take) + behind.resting =~= remains(r, take)
            + behind.resting);
        assert(swept.resting =~= remains(r, take) + behind.resting);
    } else {
        let rest = resting.skip(1);
        assert forall|i: int| 0 <= i < rest.len() implies (#[trigger] rest[i]) == resting[i + 1] by {
        }
        first_reached_fills(rest, instrument, px, budget, k - 1);
        assert(rest.skip(k) =~= resting.skip(k + 1));
        assert(!(resting[0].instrument == instrument && within(
            resting[0].side,
            resting[0].limit,
            px,
        )));
        assert(swept.resting =~= seq![resting[0]] + sim::print_fills(
            rest,
            instrument,
            px,
            budget,
        ).resting);
        assert(swept.resting =~= resting.take(k) + remains(r, take) + behind.resting);
    }
}

/// A trade print fills the orders it reaches, and no others. A buyer is reached by a
/// print at its limit or below, a seller by one at its limit or above. Where none
/// is reached, nothing happens. Else the first that is reached, in the order they
/// came, executes as much as printed, as far as it wants that much, at the price it
/// asked for; and what is left of the print goes to those behind it in the same
/// way. Those in front stay as they are.
pub proof fn prints_fill_whom_they_reach(
    resting: Seq<Resting>,
    instrument: InstrumentId,
    px: Px,
    budget: int,
    k: int,
)
    requires
        budget <= i64::MAX,
        0 <= k <= resting.len(),
        forall|i: int| 0 <= i < resting.len() ==> (#[trigger] resting[i]).remaining.0 > 0,
        forall|i: int|
            0 <= i < k ==> !((#[trigger] resting[i]).instrument == instrument && within(
                resting[i].side,
                resting[i].limit,
                px,
            )),
        k < resting.len() ==> resting[k].instrument == instrument && within(
            resting[k].side,
            resting[k].limit,
            px,
        ),
    ensures
        ({
            let swept = sim::print_fills(resting, instrument, px, budget);
            if k == resting.len() || budget <= 0 {
                swept.resting == resting && swept.executions.len() == 0
            } else {
                let r = resting[k];
                let take = least(budget, r.remaining.0 as int);
                let behind = sim::print_fills(resting.skip(k + 1), instrument, px, budget - take);
                &&& swept.executions == seq![
                    Execution { order: r.id, px: r.limit, qty: Qty(take as i64), taking: false },
                ] + behind.executions
                &&& swept.resting == resting.take(k) + remains(r, take) + behind.resting
            }
        }),
{
    if k == resting.len() || budget <= 0 {
        unreached_stay(resting, instrument, px, budget);
    } else {
        first_reached_fills(resting, instrument, px, budget, k);
    }
}

/// What a venue says when it sees a trade print: the first order that the print
/// reaches is reported filled, by as much as printed or as it wants, whichever is
/// less, at its own limit, for the fee of an order that rested, stamped with the
/// time of the print. Where the print reaches none, the venue says nothing.
pub proof fn a_print_is_reported_to_whom_it_reaches(
    before: SimVenue,
    after: SimVenue,
    market: MarketEvent,
    top: Option<TopOfBook>,
    k: int,
)
    requires
        before.well_formed(),
        sim::observed(before, after, market, true, top),
        market.kind is Trade,
        0 <= k <= before.resting@.len(),
        market.kind matches MarketKind::Trade { px, .. } && {
            &&& forall|i: int|
                0 <= i < k ==> !((#[trigger] before.resting@[i]).instrument == market.instrument
                    && within(before.resting@[i].side, before.resting@[i].limit, px))
            &&& k < before.resting@.len() ==> before.resting@[k].instrument == market.instrument
                && within(before.resting@[k].side, before.resting@[k].limit, px)
        },
    ensures
        after.now == market.exchange_time,
        market.kind matches MarketKind::Trade { qty, .. } && if k == before.resting@.len()
            || qty.0 <= 0 {
            after.pending@ == before.pending@ && after.resting@ == before.resting@
        } else {
            let r = before.resting@[k];
            let n = before.pending@.len() as int;
            &&& after.pending@.len() > n
            &&& after.pending@.take(n) == before.pending@
            &&& after.pending@[n] matches Inbound::Venue(report)
            &&& report.order == r.id
            &&& report.venue_time == market.exchange_time
            &&& report.kind matches VenueKind::Filled { px, qty: got, fee }
            &&& px == r.limit
            &&& got.0 == least(qty.0 as int, r.remaining.0 as int)
            &&& fair_fee(fee, before.fees.maker, got)
            &&& after.resting@.take(k) == before.resting@.take(k)
        },
{
    if let MarketKind::Trade { px, qty, .. } = market.kind {
        let now = SimVenue { now: market.exchange_time, ..before };
        let swept = sim::print_fills(before.resting@, market.instrument, px, qty.0 as int);
        prints_fill_whom_they_reach(before.resting@, market.instrument, px, qty.0 as int, k);
        if k == before.resting@.len() || qty.0 <= 0 {
            assert(after.pending@ =~= before.pending@);
        } else {
            let e = swept.executions[0];
            sim::fee_rounds_up(before.fees.maker, e.qty);
            assert(now.fill_reports(swept.executions)[0] == now.fill_report(e));
            let n = before.pending@.len() as int;
            assert(after.pending@[n] == now.fill_report(e));
            assert(after.pending@.take(n) =~= before.pending@);
            assert(after.resting@.take(k) =~= before.resting@.take(k));
        }
    }
}

// ---- books that move -------------------------------------------------------
/// What the other side of a book asks of one who trades on `side`: the ask of a
/// buyer, the bid of a seller.
pub open spec fn opposite_px(top: TopOfBook, side: Side) -> Px {
    if side == Side::Buy {
        top.ask_px
    } else {
        top.bid_px
    }
}

/// How much the other side of a book shows to one who trades on `side`.
pub open spec fn opposite_qty(top: TopOfBook, side: Side) -> Qty {
    if side == Side::Buy {
        top.ask_qty
    } else {
        top.bid_qty
    }
}

/// How much of `want` the touch gives: all of it where depth is taken to be without
/// end, else no more than it shows.
pub open spec fn given_at_touch(model: FillModel, top: TopOfBook, side: Side, want: Qty) -> int {
    if model == FillModel::TouchUnlimited {
        want.0 as int
    } else {
        least(want.0 as int, opposite_qty(top, side).0 as int)
    }
}

/// Whether a book gives something to a resting order.
pub open spec fn gives_to(
    model: FillModel,
    r: Resting,
    instrument: InstrumentId,
    top: TopOfBook,
) -> bool {
    &&& r.instrument == instrument
    &&& within(r.side, r.limit, opposite_px(top, r.side))
    &&& given_at_touch(model, top, r.side, r.remaining) > 0
}

/// A book that moves fills the resting orders it has come to meet, and no others: a
/// buyer whose limit the ask has come down to, a seller whose limit the bid has come
/// up to. Each takes at the touch, not at its limit, and as much as the fill model
/// lets through. Those it does not meet stay as they are.
pub proof fn books_fill_whom_they_meet(
    model: FillModel,
    resting: Seq<Resting>,
    instrument: InstrumentId,
    top: TopOfBook,
    k: int,
)
    requires
        0 <= k <= resting.len(),
        forall|i: int| 0 <= i < resting.len() ==> (#[trigger] resting[i]).remaining.0 > 0,
        forall|i: int|
            0 <= i < k ==> !gives_to(model, #[trigger] resting[i], instrument, top),
        k < resting.len() ==> gives_to(model, resting[k], instrument, top),
    ensures
        ({
            let swept = sim::sweep_fills(model, resting, instrument, top);
            if k == resting.len() {
                swept.resting == resting && swept.executions.len() == 0
            } else {
                let r = resting[k];
                let take = given_at_touch(model, top, r.side, r.remaining);
                let behind = sim::sweep_fills(model, resting.skip(k + 1), instrument, top);
                &&& swept.executions == seq![
                    Execution {
                        order: r.id,
                        px: opposite_px(top, r.side),
                        qty: Qty(take as i64),
                        taking: true,
                    },
                ] + behind.executions
                &&& swept.resting == resting.take(k) + remains(r, take) + behind.resting
            }
        }),
    decreases k,
{
    let swept = sim::sweep_fills(model, resting, instrument, top);
    if resting.len() == 0 {
        assert(swept.resting =~= resting);
    } else if k == 0 {
        let r = resting[0];
        let take = given_at_touch(model, top, r.side, r.remaining);
        let behind = sim::sweep_fills(model, resting.skip(1), instrument, top);
        assert(swept.resting =~= resting.take(0) + remains(r, take) + behind.resting);
    } else {
        let rest = resting.skip(1);
        assert forall|i: int| 0 <= i < rest.len() implies (#[trigger] rest[i]) == resting[i + 1] by {
        }
        books_fill_whom_they_meet(model, rest, instrument, top, k - 1);
        assert(!gives_to(model, resting[0], instrument, top));
        let tail = sim::sweep_fills(model, rest, instrument, top);
        assert(swept.resting =~= seq![resting[0]] + tail.resting);
        if k == resting.len() {
            assert(swept.resting =~= resting);
        } else {
            assert(rest.skip(k) =~= resting.skip(k + 1));
            let r = resting[k];
            let take = given_at_touch(model, top, r.side, r.remaining);
            let behind = sim::sweep_fills(model, resting.skip(k + 1), instrument, top);
            assert(swept.resting =~= resting.take(k) + remains(r, take) + behind.resting);
        }
    }
}

/// What a venue says when the book moves: the first resting order that it meets is
/// reported filled at the touch, as far as the model gives, for the fee of one who
/// takes, stamped with the time of the event. Where the book has only one side, or
/// meets none, the venue says nothing; and what the book refused it does not see.
pub proof fn a_moved_book_is_reported_to_whom_it_meets(
    before: SimVenue,
    after: SimVenue,
    market: MarketEvent,
    applied: bool,
    top: Option<TopOfBook>,
    k: int,
)
    requires
        before.well_formed(),
        sim::observed(before, after, market, applied, top),
        !(market.kind is Trade),
        0 <= k <= before.resting@.len(),
        top matches Some(t) ==> {
            &&& forall|i: int|
                0 <= i < k ==> !gives_to(
                    before.model,
                    #[trigger] before.resting@[i],
                    market.instrument,
                    t,
                )
            &&& k < before.resting@.len() ==> gives_to(
                before.model,
                before.resting@[k],
                market.instrument,
                t,
            )
        },
    ensures
        !applied ==> after == before,
        applied ==> after.now == market.exchange_time,
        !applied || top is None || (top matches Some(t) && !t.two_sided) || k
            == before.resting@.len() ==> after.pending@ == before.pending@ && after.resting@
            == before.resting@,
        applied && k < before.resting@.len() && top is Some && top->Some_0.two_sided ==> {
            let t = top->Some_0;
            let r = before.resting@[k];
            let n = before.pending@.len() as int;
            &&& after.pending@.len() > n
            &&& after.pending@.take(n) == before.pending@
            &&& after.pending@[n] matches Inbound::Venue(report)
            &&& report.order == r.id
            &&& report.venue_time == market.exchange_time
            &&& report.kind matches VenueKind::Filled { px, qty, fee }
            &&& px == opposite_px(t, r.side)
            &&& qty.0 == given_at_touch(before.model, t, r.side, r.remaining)
            &&& fair_fee(fee, before.fees.taker, qty)
            &&& after.resting@.take(k) == before.resting@.take(k)
        },
{
    if applied {
        let now = SimVenue { now: market.exchange_time, ..before };
        if top is Some && top->Some_0.two_sided {
            let t = top->Some_0;
            let swept = sim::sweep_fills(before.model, before.resting@, market.instrument, t);
            books_fill_whom_they_meet(before.model, before.resting@, market.instrument, t, k);
            if k == before.resting@.len() {
                assert(after.pending@ =~= before.pending@);
            } else {
                let e = swept.executions[0];
                sim::fee_rounds_up(before.fees.taker, e.qty);
                assert(now.fill_reports(swept.executions)[0] == now.fill_report(e));
                let n = before.pending@.len() as int;
                assert(after.pending@[n] == now.fill_report(e));
                assert(after.pending@.take(n) =~= before.pending@);
                assert(after.resting@.take(k) =~= before.resting@.take(k));
            }
        } else {
            assert(after.pending@ =~= before.pending@);
        }
    }
}

// ---- orders that come in ---------------------------------------------------
/// Whether an order would trade at `px`.
pub open spec fn would_trade_at(order: VenueOrder, px: Px) -> bool {
    match order.kind {
        OrderKind::Market => true,
        OrderKind::Limit(limit) => within(order.side, limit, px),
    }
}

/// An order that comes in takes at the touch where that is good enough for it: the
/// ask for a buyer, the bid for a seller. It takes nothing where a side of the book
/// is missing, or where the touch is beyond its limit. Else it takes at that price,
/// as much as the fill model lets through.
pub proof fn orders_take_at_the_touch(
    model: FillModel,
    order: VenueOrder,
    top: Option<TopOfBook>,
    levels: Seq<Level>,
)
    requires
        order.qty.0 > 0,
        model != FillModel::WalkBook || levels.len() == 0,
    ensures
        ({
            let fills = sim::takes(model, order, top, levels);
            match top {
                None => fills.len() == 0,
                Some(t) => {
                    let px = opposite_px(t, order.side);
                    let take = given_at_touch(model, t, order.side, order.qty);
                    if t.two_sided && would_trade_at(order, px) && take > 0 {
                        &&& fills.len() == 1
                        &&& fills[0] == (Execution {
                            order: order.id,
                            px,
                            qty: Qty(take as i64),
                            taking: true,
                        })
                    } else {
                        fills.len() == 0
                    }
                },
            }
        }),
{
}

/// How much the levels show that an order would trade at, from the best one on as
/// far as its limit goes.
pub open spec fn depth_within(order: VenueOrder, levels: Seq<Level>) -> int
    decreases levels.len(),
{
    if levels.len() == 0 || !would_trade_at(order, levels[0].px) {
        0
    } else {
        (if levels[0].qty.0 > 0 {
            levels[0].qty.0 as int
        } else {
            0
        }) + depth_within(order, levels.skip(1))
    }
}

/// How much executions took at a price.
pub open spec fn taken_at(fills: Seq<Execution>, px: Px) -> int
    decreases fills.len(),
{
    if fills.len() == 0 {
        0
    } else {
        (if fills[0].px == px {
            fills[0].qty.0 as int
        } else {
            0
        }) + taken_at(fills.skip(1), px)
    }
}

/// Whether levels stand best first for one who trades on `side`.
pub open spec fn best_first(levels: Seq<Level>, side: Side) -> bool {
    forall|i: int, j: int|
        0 <= i < j < levels.len() ==> if side == Side::Buy {
            (#[trigger] levels[i]).px.0 < (#[trigger] levels[j]).px.0
        } else {
            levels[i].px.0 > levels[j].px.0
        }
}

proof fn fills_first(e: Execution, rest: Seq<Execution>, px: Px)
    ensures
        taken_at(seq![e] + rest, px) == (if e.px == px {
            e.qty.0 as int
        } else {
            0
        }) + taken_at(rest, px),
        sim::total(seq![e] + rest) == e.qty.0 + sim::total(rest),
{
    assert((seq![e] + rest).skip(1) =~= rest);
}

proof fn nothing_at(fills: Seq<Execution>, px: Px)
    requires
        forall|i: int| 0 <= i < fills.len() ==> (#[trigger] fills[i]).px != px,
    ensures
        taken_at(fills, px) == 0,
    decreases fills.len(),
{
    if fills.len() > 0 {
        let rest = fills.skip(1);
        assert forall|i: int| 0 <= i < rest.len() implies (#[trigger] rest[i]).px != px by {
            assert(rest[i] == fills[i + 1]);
        }
        nothing_at(rest, px);
    }
}

proof fn walk_prices(order: VenueOrder, levels: Seq<Level>, want: int)
    ensures
        forall|i: int|
            0 <= i < sim::walk(order, levels, want).len() ==> exists|j: int|
                0 <= j < levels.len() && (#[trigger] sim::walk(order, levels, want)[i]).px == (
                #[trigger] levels[j]).px,
    decreases levels.len(),
{
    let fills = sim::walk(order, levels, want);
    if fills.len() > 0 {
        let rest = levels.skip(1);
        let take = if levels[0].qty.0 < want {
            levels[0].qty.0 as int
        } else {
            want
        };
        let behind = if take <= 0 {
            sim::walk(order, rest, want)
        } else {
            sim::walk(order, rest, want - take)
        };
        walk_prices(order, rest, want);
        walk_prices(order, rest, want - take);
        assert forall|i: int| 0 <= i < fills.len() implies exists|j: int|
            0 <= j < levels.len() && (#[trigger] fills[i]).px == (#[trigger] levels[j]).px by {
            if take > 0 && i == 0 {
                assert(fills[0].px == levels[0].px);
            } else {
                let at = if take > 0 {
                    i - 1
                } else {
                    i
                };
                assert(fills[i] == behind[at]);
                let j = choose|j: int| 0 <= j < rest.len() && behind[at].px == (#[trigger] rest[j]).px;
                assert(rest[j] == levels[j + 1]);
            }
        }
    }
}

/// How much the levels before the `i`th show.
pub open spec fn depth_before(levels: Seq<Level>, i: int) -> int
    decreases i,
{
    if i <= 0 {
        0
    } else {
        depth_before(levels, i - 1) + if levels[i - 1].qty.0 > 0 {
            levels[i - 1].qty.0 as int
        } else {
            0
        }
    }
}

proof fn depth_before_skips(levels: Seq<Level>, i: int)
    requires
        0 < i <= levels.len(),
    ensures
        depth_before(levels, i) == depth_before(levels.skip(1), i - 1) + if levels[0].qty.0 > 0 {
            levels[0].qty.0 as int
        } else {
            0
        },
    decreases i,
{
    if i > 1 {
        depth_before_skips(levels, i - 1);
        assert(levels.skip(1)[i - 2] == levels[i - 1]);
    } else {
        assert(depth_before(levels, 0) == 0);
        assert(depth_before(levels.skip(1), 0) == 0);
    }
}

proof fn depth_is_positive(levels: Seq<Level>, i: int)
    ensures
        depth_before(levels, i) >= 0,
    decreases i,
{
    if i > 0 {
        depth_is_positive(levels, i - 1);
    }
}

/// An order that walks the book eats it from the best level outwards, and pays each
/// level its own price. Of the level at `i` it takes whatever it still wants once
/// the levels in front are eaten up, as far as the level shows that much and its
/// limit reaches there; and in all it takes what it wants, or all there is within
/// its limit.
pub proof fn walking_eats_from_the_best_level(
    order: VenueOrder,
    levels: Seq<Level>,
    want: int,
    i: int,
)
    requires
        0 <= want <= i64::MAX,
        best_first(levels, order.side),
        0 <= i < levels.len(),
    ensures
        ({
            let fills = sim::walk(order, levels, want);
            let wanted = want - depth_before(levels, i);
            &&& sim::total(fills) == least(want, depth_within(order, levels))
            &&& taken_at(fills, levels[i].px) == if wanted <= 0 || levels[i].qty.0 <= 0
                || !would_trade_at(order, levels[i].px) {
                0
            } else {
                least(wanted, levels[i].qty.0 as int)
            }
        }),
    decreases levels.len(),
{
    let fills = sim::walk(order, levels, want);
    let rest = levels.skip(1);
    depth_is_positive(levels, i);
    depth_within_positive(order, levels);
    assert forall|j: int| 0 <= j < rest.len() implies (#[trigger] rest[j]) == levels[j + 1] by {}
    if want <= 0 || !would_trade_at(order, levels[0].px) {
        assert(fills.len() == 0);
        if i > 0 {
            assert(levels[0].px.0 < levels[i].px.0 || levels[0].px.0 > levels[i].px.0);
        }
    } else {
        let shown = levels[0].qty.0 as int;
        let take = if shown < want {
            shown
        } else {
            want
        };
        let left = if take > 0 {
            want - take
        } else {
            want
        };
        let behind = sim::walk(order, rest, left);
        depth_within_positive(order, rest);
        if i > 0 {
            walking_eats_from_the_best_level(order, rest, left, i - 1);
            depth_before_skips(levels, i);
            assert(levels[0].px != levels[i].px);
            depth_is_positive(rest, i - 1);
        } else {
            walk_prices(order, rest, left);
            assert forall|k: int| 0 <= k < behind.len() implies (#[trigger] behind[k]).px
                != levels[0].px by {
                let j = choose|j: int|
                    0 <= j < rest.len() && behind[k].px == (#[trigger] rest[j]).px;
                assert(rest[j] == levels[j + 1]);
            }
            nothing_at(behind, levels[0].px);
            walk_total(order, rest, left);
        }
        if take > 0 {
            let e = Execution {
                order: order.id,
                px: levels[0].px,
                qty: Qty(take as i64),
                taking: true,
            };
            assert(fills == seq![e] + behind);
            fills_first(e, behind, levels[i].px);
        } else {
            assert(fills == behind);
        }
    }
}

proof fn depth_within_positive(order: VenueOrder, levels: Seq<Level>)
    ensures
        depth_within(order, levels) >= 0,
    decreases levels.len(),
{
    if levels.len() > 0 {
        depth_within_positive(order, levels.skip(1));
    }
}

proof fn walk_total(order: VenueOrder, levels: Seq<Level>, want: int)
    requires
        0 <= want <= i64::MAX,
    ensures
        sim::total(sim::walk(order, levels, want)) == least(want, depth_within(order, levels)),
    decreases levels.len(),
{
    depth_within_positive(order, levels);
    if levels.len() > 0 && want > 0 && would_trade_at(order, levels[0].px) {
        let rest = levels.skip(1);
        depth_within_positive(order, rest);
        let shown = levels[0].qty.0 as int;
        let take = if shown < want {
            shown
        } else {
            want
        };
        if take > 0 {
            walk_total(order, rest, want - take);
            let e = Execution {
                order: order.id,
                px: levels[0].px,
                qty: Qty(take as i64),
                taking: true,
            };
            fills_first(e, sim::walk(order, rest, want - take), e.px);
        } else {
            walk_total(order, rest, want);
        }
    }
}

/// Where depth is recorded, an order that would trade at the touch walks it, under
/// the model that says so.
pub proof fn depth_is_walked(order: VenueOrder, top: TopOfBook, levels: Seq<Level>)
    requires
        order.qty.0 > 0,
        levels.len() > 0,
    ensures
        ({
            let fills = sim::takes(FillModel::WalkBook, order, Some(top), levels);
            if top.two_sided && would_trade_at(order, opposite_px(top, order.side)) {
                fills == sim::walk(order, levels, order.qty.0 as int)
            } else {
                fills.len() == 0
            }
        }),
{
}

/// How much reports say was filled of an order.
pub open spec fn reported_filled(reports: Seq<Inbound>, id: OrderId) -> int
    decreases reports.len(),
{
    if reports.len() == 0 {
        0
    } else {
        reported_filled(reports.drop_last(), id) + match reports.last() {
            Inbound::Venue(VenueEvent { order, kind: VenueKind::Filled { qty, .. }, .. }) => if order
                == id {
                qty.0 as int
            } else {
                0
            },
            _ => 0,
        }
    }
}

proof fn reported_adds_up(a: Seq<Inbound>, b: Seq<Inbound>, id: OrderId)
    ensures
        reported_filled(a + b, id) == reported_filled(a, id) + reported_filled(b, id),
    decreases b.len(),
{
    if b.len() > 0 {
        reported_adds_up(a, b.drop_last(), id);
        assert((a + b).drop_last() =~= a + b.drop_last());
    } else {
        assert(a + b =~= a);
    }
}

proof fn fills_are_reported(venue: SimVenue, fills: Seq<Execution>, id: OrderId)
    requires
        forall|i: int| 0 <= i < fills.len() ==> (#[trigger] fills[i]).order == id,
    ensures
        reported_filled(venue.fill_reports(fills), id) == sim::total(fills),
        venue.fill_reports(fills).len() == fills.len(),
        forall|i: int|
            0 <= i < fills.len() ==> #[trigger] venue.fill_reports(fills)[i] == venue.fill_report(
                fills[i],
            ),
    decreases fills.len(),
{
    if fills.len() > 0 {
        let rest = fills.skip(1);
        let first = seq![venue.fill_report(fills[0])];
        assert forall|i: int| 0 <= i < rest.len() implies (#[trigger] rest[i]).order == id by {
            assert(rest[i] == fills[i + 1]);
        }
        fills_are_reported(venue, rest, id);
        reported_adds_up(first, venue.fill_reports(rest), id);
        assert(first.drop_last() =~= Seq::empty());
        assert(reported_filled(first.drop_last(), id) == 0);
        assert(reported_filled(first, id) == fills[0].qty.0);
        assert forall|i: int| 0 <= i < fills.len() implies #[trigger] venue.fill_reports(fills)[i]
            == venue.fill_report(fills[i]) by {
            if i > 0 {
                assert(venue.fill_reports(fills)[i] == venue.fill_reports(rest)[i - 1]);
                assert(rest[i - 1] == fills[i]);
            }
        }
    }
}

/// An order that a venue takes is accounted for to the last part. The venue says
/// first that it has it. What it then reports filled and what is left add up to what
/// was ordered. What is left of a limit order rests, behind all that rested before,
/// with its side, its limit and its instrument; what is left of a market order is
/// reported cancelled, last of all, and nothing rests. No other order is touched.
pub proof fn accepted_orders_are_accounted_for(
    before: SimVenue,
    after: SimVenue,
    order: VenueOrder,
    top: Option<TopOfBook>,
    levels: Seq<Level>,
)
    requires
        order.qty.0 > 0,
        sim::accepted(before, after, order, top, levels),
    ensures
        ({
            let n = before.pending@.len() as int;
            let said = after.pending@.skip(n);
            let filled = reported_filled(said, order.id);
            let cancelled = said.last() matches Inbound::Venue(report) && report.order == order.id
                && report.kind == VenueKind::Cancelled;
            &&& after.pending@.len() > n
            &&& after.pending@.take(n) == before.pending@
            &&& said[0] matches Inbound::Venue(report)
            &&& report.order == order.id
            &&& report.kind == VenueKind::Accepted
            &&& report.venue_time == before.now
            &&& 0 <= filled <= order.qty.0
            &&& forall|i: int|
                0 <= i < said.len() ==> (#[trigger] said[i] matches Inbound::Venue(report)
                    && report.order == order.id && report.venue_time == before.now)
            &&& cancelled <==> order.kind == OrderKind::Market && filled < order.qty.0
            &&& order.kind is Limit && filled < order.qty.0 ==> after.resting@ == before.resting@.push(
                Resting {
                    id: order.id,
                    instrument: order.instrument,
                    side: order.side,
                    limit: order.kind->Limit_0,
                    remaining: Qty((order.qty.0 - filled) as i64),
                },
            )
            &&& order.kind == OrderKind::Market || filled == order.qty.0 ==> after.resting@
                == before.resting@
        }),
{
    let fills = sim::takes(before.model, order, top, levels);
    sim::order_never_overfills(before.model, order, top, levels);
    let n = before.pending@.len() as int;
    let said = after.pending@.skip(n);
    let first = seq![before.report_of(order.id, VenueKind::Accepted)];
    let told = before.fill_reports(fills);
    fills_are_reported(before, fills, order.id);
    reported_adds_up(first, told, order.id);
    assert(first.drop_last() =~= Seq::empty());
    assert(reported_filled(first.drop_last(), order.id) == 0);
    let left = order.qty.0 - sim::total(fills);
    assert(after.pending@.take(n) =~= before.pending@);
    if left > 0 && order.kind == OrderKind::Market {
        let last = before.report_of(order.id, VenueKind::Cancelled);
        assert(said =~= (first + told).push(last));
        assert(said.drop_last() =~= first + told);
    } else {
        assert(said =~= first + told);
        if fills.len() > 0 {
            assert(said.last() == told[fills.len() - 1]);
            assert(told[fills.len() - 1] == before.fill_report(fills[fills.len() - 1]));
        } else {
            assert(said.last() == first[0]);
        }
    }
    assert forall|i: int| 0 <= i < said.len() implies (#[trigger] said[i] matches Inbound::Venue(
        report,
    ) && report.order == order.id && report.venue_time == before.now) by {
        if 0 < i <= fills.len() {
            assert(said[i] == told[i - 1]);
            assert(told[i - 1] == before.fill_report(fills[i - 1]));
        }
    }
}

/// Every fill of an order that comes in costs what one who takes is charged.
pub proof fn incoming_orders_pay_the_takers_fee(
    before: SimVenue,
    after: SimVenue,
    order: VenueOrder,
    top: Option<TopOfBook>,
    levels: Seq<Level>,
    i: int,
)
    requires
        order.qty.0 > 0,
        sim::accepted(before, after, order, top, levels),
        before.pending@.len() <= i < after.pending@.len(),
    ensures
        after.pending@[i] matches Inbound::Venue(report) && (report.kind matches VenueKind::Filled {
            px,
            qty,
            fee,
        } ==> fair_fee(fee, before.fees.taker, qty) && would_trade_at(order, px) && qty.0 > 0),
{
    let fills = sim::takes(before.model, order, top, levels);
    sim::order_never_overfills(before.model, order, top, levels);
    fills_are_reported(before, fills, order.id);
    let told = before.fill_reports(fills);
    let k = i - before.pending@.len() - 1;
    if 0 <= k < fills.len() {
        assert(after.pending@[i] == told[k]);
        assert(told[k] == before.fill_report(fills[k]));
        sim::fee_rounds_up(before.fees.taker, fills[k].qty);
    }
}

/// A report is seen one latency after the venue stamped it: at once where the latency
/// is none or less, and at the last instant there is where it would be later.
pub proof fn reports_arrive_one_latency_later(venue: SimVenue, id: OrderId, kind: VenueKind)
    ensures
        venue.report_of(id, kind) matches Inbound::Venue(report) && {
            let seen = report.receive_time.0 as int;
            let due = venue.now.0 + venue.latency.0;
            &&& report.order == id
            &&& report.kind == kind
            &&& report.venue_time == venue.now
            &&& venue.latency.0 <= 0 ==> seen == venue.now.0
            &&& 0 <= venue.latency.0 <= i64::MAX ==> seen == least(due, i64::MAX as int)
            &&& seen >= venue.now.0
        },
{
}

/// The order that a cancel takes off is the first of that id, and where there is
/// none, none is taken.
pub proof fn a_cancel_finds_its_order(resting: Seq<Resting>, id: OrderId, from: int)
    requires
        0 <= from,
    ensures
        match sim::position_of(resting, id, from) {
            Some(k) => {
                &&& from <= k < resting.len()
                &&& resting[k].id == id
                &&& forall|j: int| from <= j < k ==> (#[trigger] resting[j]).id != id
            },
            None => forall|j: int| from <= j < resting.len() ==> (#[trigger] resting[j]).id != id,
        },
    decreases resting.len() - from,
{
    if from < resting.len() && resting[from].id != id {
        a_cancel_finds_its_order(resting, id, from + 1);
    }
}

/// Whether a report says this of an order.
pub open spec fn reports(said: Inbound, id: OrderId, kind: VenueKind) -> bool {
    said matches Inbound::Venue(report) && report.order == id && report.kind == kind
}

/// A cancel is answered: where the order rests it is taken off, and the venue says
/// that it is cancelled; where it does not, nothing is taken off, and the venue says
/// that it knows no such order. A venue that cannot be reached does nothing.
pub proof fn cancels_are_answered(
    venue: &mut SimVenue,
    id: OrderId,
    sent: Result<(), VenueError>,
    k: int,
)
    requires
        old(venue).well_formed(),
        call_ensures(SimVenue::cancel, (venue, id), sent),
        0 <= k <= old(venue).resting@.len(),
        forall|j: int| 0 <= j < k ==> (#[trigger] old(venue).resting@[j]).id != id,
        k < old(venue).resting@.len() ==> old(venue).resting@[k].id == id,
    ensures
        !old(venue).connected ==> sent == Err::<(), VenueError>(VenueError::Disconnected)
            && *final(venue) == *old(venue),
        old(venue).connected ==> {
            let (before, after) = (*old(venue), *final(venue));
            let n = before.pending@.len() as int;
            &&& sent == Ok::<(), VenueError>(())
            &&& after.pending@.len() == n + 1
            &&& after.pending@.take(n) == before.pending@
            &&& k < before.resting@.len() ==> {
                &&& after.resting@ == before.resting@.remove(k)
                &&& reports(after.pending@[n], id, VenueKind::Cancelled)
            }
            &&& k == before.resting@.len() ==> {
                &&& after.resting@ == before.resting@
                &&& reports(
                    after.pending@[n],
                    id,
                    VenueKind::CancelRejected { reason: RejectReason::UnknownOrder },
                )
            }
        },
{
    a_cancel_finds_its_order(old(venue).resting@, id, 0);
    if old(venue).connected {
        assert(final(venue).pending@.take(old(venue).pending@.len() as int)
            =~= old(venue).pending@);
    }
}

/// An order is refused where the venue cannot be reached, where it names an
/// instrument that the venue does not have, and where it is for nothing; then the
/// venue is as it was. Any other is taken, and the venue says so before it says
/// anything else of it.
pub proof fn orders_are_answered(
    venue: &mut SimVenue,
    order: &VenueOrder,
    top: Option<TopOfBook>,
    levels: &[Level],
    sent: Result<(), VenueError>,
)
    requires
        old(venue).well_formed(),
        call_ensures(SimVenue::submit, (venue, order, top, levels), sent),
    ensures
        !old(venue).connected ==> sent == Err::<(), VenueError>(VenueError::Disconnected),
        old(venue).connected && order.instrument.0 >= old(venue).instruments ==> sent == Err::<
            (),
            VenueError,
        >(VenueError::Malformed(RejectReason::UnknownInstrument)),
        old(venue).connected && order.instrument.0 < old(venue).instruments && order.qty.0 <= 0
            ==> sent == Err::<(), VenueError>(VenueError::Malformed(RejectReason::InvalidQuantity)),
        sent is Err ==> *final(venue) == *old(venue),
        old(venue).connected && order.instrument.0 < old(venue).instruments && order.qty.0 > 0 ==> {
            let n = old(venue).pending@.len() as int;
            &&& sent is Ok
            &&& final(venue).pending@.len() > n
            &&& final(venue).pending@.take(n) == old(venue).pending@
            &&& reports(final(venue).pending@[n], order.id, VenueKind::Accepted)
        },
{
    if sent is Ok {
        accepted_orders_are_accounted_for(*old(venue), *final(venue), *order, top, levels@);
    }
}

/// What a venue has to say is handed over once, the oldest first, behind what was
/// there.
pub proof fn reports_are_handed_over_once(venue: &mut SimVenue, out: &mut Vec<Inbound>)
    requires
        call_ensures(SimVenue::drain, (venue, out), ()),
    ensures
        final(out)@ == old(out)@ + old(venue).pending@,
        final(venue).pending@.len() == 0,
        final(venue).resting@ == old(venue).resting@,
{
}

} // verus!
