//! A deterministic simulated venue with an explicit fill model.
//!
//! Nothing here reads a clock: venue timestamps come from the market data the
//! venue has observed, plus a configured latency, so two runs over the same
//! input produce the same reports at the same times. The book it fills against
//! is kept by its owner, who hands over what the venue reads of it.
use vstd::prelude::*;

use crate::event::{
    Inbound, MarketEvent, MarketKind, OrderKind, RejectReason, VenueEvent, VenueKind,
};
use crate::value::{
    ExchangeSpan, ExchangeTime, InstrumentId, Notional, OrderId, Px, Qty, ReceiveTime, Side, SCALE,
};

verus! {

/// How the simulated venue decides whether and at what price an order executes.
#[derive(Debug, Clone, Copy, PartialEq, Eq, Hash, Structural)]
pub enum FillModel {
    /// A marketable order fills in full at the opposite touch. Assumes
    /// unlimited depth at the touch and no market impact.
    TouchUnlimited,
    /// A marketable order fills only up to the size displayed at the touch.
    /// Assumes that the displayed size is really available, that we are at the
    /// front of the queue, and that a resting order fills when a trade prints
    /// at or through its price, for up to that print's quantity.
    TouchDisplayed,
    /// A marketable order eats levels outwards and pays each one's own price.
    /// Without recorded depth it is [`FillModel::TouchDisplayed`].
    WalkBook,
}

/// Where a resting order sits in the queue at its price.
#[derive(Debug, Clone, Copy, PartialEq, Eq, Hash, Structural)]
pub enum Queue {
    /// First, which is the optimistic assumption.
    Front,
}

/// Fees, as money per unit traded.
#[derive(Debug, Clone, Copy, PartialEq, Eq, Hash, Structural)]
pub struct Fees {
    /// Charged when an order provides liquidity.
    pub maker: Px,
    /// Charged when an order takes liquidity.
    pub taker: Px,
}

impl Fees {
    /// No fees at all.
    pub fn none() -> (fees: Fees)
        ensures
            fees == (Fees { maker: Px(0), taker: Px(0) }),
    {
        Fees { maker: Px(0), taker: Px(0) }
    }
}

/// The best of a book, and whether both its sides are there.
#[derive(Debug, Clone, Copy, PartialEq, Eq, Hash, Structural)]
pub struct TopOfBook {
    pub bid_px: Px,
    pub bid_qty: Qty,
    pub ask_px: Px,
    pub ask_qty: Qty,
    pub two_sided: bool,
}

/// One price level of a book.
#[derive(Debug, Clone, Copy, PartialEq, Eq, Hash, Structural)]
pub struct Level {
    pub px: Px,
    pub qty: Qty,
}

impl TopOfBook {
    /// The price a taker on `side` pays.
    pub open spec fn touch_px(self, side: Side) -> Px {
        match side {
            Side::Buy => self.ask_px,
            Side::Sell => self.bid_px,
        }
    }

    /// The size displayed to a taker on `side`.
    pub open spec fn touch_qty(self, side: Side) -> Qty {
        match side {
            Side::Buy => self.ask_qty,
            Side::Sell => self.bid_qty,
        }
    }

    /// The price a taker on `side` pays.
    pub fn taker_px(&self, side: Side) -> (px: Px)
        ensures
            px == self.touch_px(side),
    {
        match side {
            Side::Buy => self.ask_px,
            Side::Sell => self.bid_px,
        }
    }

    /// The size displayed to a taker on `side`.
    pub fn taker_qty(&self, side: Side) -> (qty: Qty)
        ensures
            qty == self.touch_qty(side),
    {
        match side {
            Side::Buy => self.ask_qty,
            Side::Sell => self.bid_qty,
        }
    }
}

/// An order as the venue reads it.
#[derive(Debug, Clone, Copy, PartialEq, Eq, Hash, Structural)]
pub struct VenueOrder {
    pub id: OrderId,
    pub instrument: InstrumentId,
    pub side: Side,
    pub qty: Qty,
    pub kind: OrderKind,
}

/// Why the venue did not take a request.
#[derive(Debug, Clone, Copy, PartialEq, Eq, Hash, Structural)]
pub enum VenueError {
    /// The venue cannot be reached.
    Disconnected,
    /// The request makes no sense to the venue.
    Malformed(RejectReason),
}

/// An order the venue is holding.
#[derive(Debug, Clone, Copy, PartialEq, Eq, Structural)]
pub struct Resting {
    pub id: OrderId,
    pub instrument: InstrumentId,
    pub side: Side,
    pub limit: Px,
    pub remaining: Qty,
}

/// Whether an order that pays up to `kind` would take at `px`.
pub open spec fn reaches(kind: OrderKind, side: Side, px: Px) -> bool {
    match kind {
        OrderKind::Market => true,
        OrderKind::Limit(limit) => match side {
            Side::Buy => limit.0 >= px.0,
            Side::Sell => limit.0 <= px.0,
        },
    }
}

/// The fee on `qty` at `rate` a unit, rounded up: a simulated fill never costs
/// less than it would in life.
pub open spec fn fee_of(rate: Px, qty: Qty) -> Notional {
    let exact = rate.0 * qty.0;
    Notional(
        if exact % (SCALE as int) == 0 {
            (exact / (SCALE as int)) as i128
        } else {
            (exact / (SCALE as int) + 1) as i128
        },
    )
}

/// A latency in nanoseconds, clamped into the timestamp's range.
pub open spec fn clamped(span: ExchangeSpan) -> i64 {
    if span.0 < 0 {
        0
    } else if span.0 > i64::MAX {
        i64::MAX
    } else {
        span.0 as i64
    }
}

/// One execution: the price, the quantity, and whether it took liquidity.
pub struct Execution {
    pub order: OrderId,
    pub px: Px,
    pub qty: Qty,
    pub taking: bool,
}

/// The part of `want` that can be had at the touch.
pub open spec fn available_at(model: FillModel, top: TopOfBook, side: Side, want: Qty) -> Qty {
    match model {
        FillModel::TouchUnlimited => want,
        _ => if top.touch_qty(side).0 < want.0 {
            top.touch_qty(side)
        } else {
            want
        },
    }
}

/// What an order of `want` takes of the levels, best first: each at its own
/// price, as far as its limit reaches.
pub open spec fn walk(order: VenueOrder, levels: Seq<Level>, want: int) -> Seq<Execution>
    decreases levels.len(),
{
    if levels.len() == 0 || want <= 0 || !reaches(order.kind, order.side, levels[0].px) {
        Seq::empty()
    } else {
        let size = levels[0].qty.0;
        let take = if size < want {
            size as int
        } else {
            want
        };
        if take <= 0 {
            walk(order, levels.skip(1), want)
        } else {
            seq![
                Execution {
                    order: order.id,
                    px: levels[0].px,
                    qty: Qty(take as i64),
                    taking: true,
                },
            ] + walk(order, levels.skip(1), want - take)
        }
    }
}

/// How much several executions come to.
pub open spec fn total(executions: Seq<Execution>) -> int
    decreases executions.len(),
{
    if executions.len() == 0 {
        0
    } else {
        executions[0].qty.0 + total(executions.skip(1))
    }
}

/// What an incoming order executes right now.
pub open spec fn takes(
    model: FillModel,
    order: VenueOrder,
    top: Option<TopOfBook>,
    levels: Seq<Level>,
) -> Seq<Execution> {
    match top {
        None => Seq::empty(),
        Some(t) => if !t.two_sided || !reaches(order.kind, order.side, t.touch_px(order.side)) {
            Seq::empty()
        } else if model == FillModel::WalkBook && levels.len() > 0 {
            walk(order, levels, order.qty.0 as int)
        } else {
            let take = available_at(model, t, order.side, order.qty);
            if take.0 <= 0 {
                Seq::empty()
            } else {
                seq![
                    Execution {
                        order: order.id,
                        px: t.touch_px(order.side),
                        qty: take,
                        taking: true,
                    },
                ]
            }
        },
    }
}

/// What is left of resting orders, and what they executed.
pub struct Swept {
    pub resting: Seq<Resting>,
    pub executions: Seq<Execution>,
}

/// `take` of the order `r` executed at `px`, before what happened to the orders
/// behind it. An order of which nothing is left is gone.
pub open spec fn executed(r: Resting, px: Px, take: int, taking: bool, behind: Swept) -> Swept {
    if take <= 0 {
        Swept { resting: seq![r] + behind.resting, executions: behind.executions }
    } else {
        let left = r.remaining.0 - take;
        Swept {
            resting: if left <= 0 {
                behind.resting
            } else {
                seq![Resting { remaining: Qty(left as i64), ..r }] + behind.resting
            },
            executions: seq![Execution { order: r.id, px, qty: Qty(take as i64), taking }]
                + behind.executions,
        }
    }
}

/// How much of a resting order a print at `px` of at most `budget` executes.
pub open spec fn printed_take(r: Resting, instrument: InstrumentId, px: Px, budget: int) -> int {
    let touched = r.instrument == instrument && match r.side {
        Side::Buy => px.0 <= r.limit.0,
        Side::Sell => px.0 >= r.limit.0,
    };
    if !touched || budget <= 0 {
        0
    } else if budget < r.remaining.0 {
        budget
    } else {
        r.remaining.0 as int
    }
}

/// What a trade print does to resting orders, in the order they came. Each fills
/// at its own price: the one the venue promised when it accepted it.
pub open spec fn print_fills(
    resting: Seq<Resting>,
    instrument: InstrumentId,
    px: Px,
    budget: int,
) -> Swept
    decreases resting.len(),
{
    if resting.len() == 0 {
        Swept { resting: Seq::empty(), executions: Seq::empty() }
    } else {
        let take = printed_take(resting[0], instrument, px, budget);
        let left = if take > 0 {
            budget - take
        } else {
            budget
        };
        executed(
            resting[0],
            resting[0].limit,
            take,
            false,
            print_fills(resting.skip(1), instrument, px, left),
        )
    }
}

/// How much of a resting order a book with this top executes.
pub open spec fn swept_take(
    model: FillModel,
    r: Resting,
    instrument: InstrumentId,
    top: TopOfBook,
) -> int {
    if r.instrument != instrument || !reaches(
        OrderKind::Limit(r.limit),
        r.side,
        top.touch_px(r.side),
    ) {
        0
    } else {
        available_at(model, top, r.side, r.remaining).0 as int
    }
}

/// What a book that moved does to resting orders: those it has made marketable
/// take at the touch.
pub open spec fn sweep_fills(
    model: FillModel,
    resting: Seq<Resting>,
    instrument: InstrumentId,
    top: TopOfBook,
) -> Swept
    decreases resting.len(),
{
    if resting.len() == 0 {
        Swept { resting: Seq::empty(), executions: Seq::empty() }
    } else {
        executed(
            resting[0],
            top.touch_px(resting[0].side),
            swept_take(model, resting[0], instrument, top),
            true,
            sweep_fills(model, resting.skip(1), instrument, top),
        )
    }
}

/// A simulated venue.
#[derive(Debug, Clone)]
pub struct SimVenue {
    pub model: FillModel,
    pub fees: Fees,
    pub latency: ExchangeSpan,
    pub instruments: usize,
    pub resting: Vec<Resting>,
    pub pending: Vec<Inbound>,
    pub now: ExchangeTime,
    pub connected: bool,
}

impl SimVenue {
    /// The report of `kind` about `order` at the venue's present time. It is
    /// observed one latency later than the venue stamped it.
    pub open spec fn report_of(self, order: OrderId, kind: VenueKind) -> Inbound {
        let at = self.now.0 + clamped(self.latency);
        Inbound::Venue(
            VenueEvent {
                order,
                venue_time: self.now,
                receive_time: ReceiveTime(
                    if at > i64::MAX {
                        i64::MAX
                    } else {
                        at as i64
                    },
                ),
                kind,
            },
        )
    }

    /// The report of an execution.
    pub open spec fn fill_report(self, e: Execution) -> Inbound {
        let rate = if e.taking {
            self.fees.taker
        } else {
            self.fees.maker
        };
        self.report_of(e.order, VenueKind::Filled { px: e.px, qty: e.qty, fee: fee_of(rate, e.qty) })
    }

    /// The reports of executions.
    pub open spec fn fill_reports(self, executions: Seq<Execution>) -> Seq<Inbound>
        decreases executions.len(),
    {
        if executions.len() == 0 {
            Seq::empty()
        } else {
            seq![self.fill_report(executions[0])] + self.fill_reports(executions.skip(1))
        }
    }

    /// That nothing but the reports and the resting orders differ.
    pub open spec fn same_venue(self, other: SimVenue) -> bool {
        &&& self.model == other.model
        &&& self.fees == other.fees
        &&& self.latency == other.latency
        &&& self.instruments == other.instruments
        &&& self.now == other.now
        &&& self.connected == other.connected
    }

    /// That every resting order has something left.
    pub open spec fn well_formed(self) -> bool {
        forall|i: int|
            0 <= i < self.resting@.len() ==> (#[trigger] self.resting@[i]).remaining.0 > 0
    }

    /// Builds a venue for `instruments` instruments. `latency` is added to every
    /// report's timestamp.
    pub fn new(
        instruments: usize,
        model: FillModel,
        fees: Fees,
        latency: ExchangeSpan,
    ) -> (venue: SimVenue)
        ensures
            venue.well_formed(),
            venue.model == model,
            venue.fees == fees,
            venue.latency == latency,
            venue.instruments == instruments,
            venue.resting@ == Seq::<Resting>::empty(),
            venue.pending@ == Seq::<Inbound>::empty(),
            venue.now.0 == 0,
            venue.connected,
    {
        SimVenue {
            model,
            fees,
            latency,
            instruments,
            resting: Vec::with_capacity(256),
            pending: Vec::with_capacity(256),
            now: ExchangeTime::from_nanos(0),
            connected: true,
        }
    }

    /// Whether the venue is reachable.
    pub fn is_connected(&self) -> (connected: bool)
        ensures
            connected == self.connected,
    {
        self.connected
    }

    /// Takes the venue offline, so every request fails.
    pub fn disconnect(&mut self)
        ensures
            *final(self) == (SimVenue { connected: false, ..*old(self) }),
    {
        self.connected = false;
    }

    /// Brings the venue back.
    pub fn reconnect(&mut self)
        ensures
            *final(self) == (SimVenue { connected: true, ..*old(self) }),
    {
        self.connected = true;
    }

    /// How many orders are resting.
    pub fn resting_count(&self) -> (count: usize)
        ensures
            count == self.resting@.len(),
    {
        self.resting.len()
    }

    fn report(&mut self, order: OrderId, kind: VenueKind)
        ensures
            final(self).same_venue(*old(self)),
            final(self).resting@ == old(self).resting@,
            final(self).pending@ == old(self).pending@.push(old(self).report_of(order, kind)),
    {
        let venue_time = self.now;
        let receive: i64 = match venue_time.to_nanos().checked_add(latency_nanos(self.latency)) {
            Some(at) => at,
            None => i64::MAX,
        };
        self.pending.push(
            Inbound::Venue(
                VenueEvent {
                    order,
                    venue_time,
                    receive_time: ReceiveTime::from_nanos(receive),
                    kind,
                },
            ),
        );
    }

    /// The size a taker on `side` may lift at the touch.
    fn available(&self, top: &TopOfBook, side: Side, want: Qty) -> (qty: Qty)
        ensures
            qty == available_at(self.model, *top, side, want),
    {
        match self.model {
            FillModel::TouchUnlimited => want,
            FillModel::TouchDisplayed | FillModel::WalkBook => {
                let displayed = top.taker_qty(side);
                if displayed.to_scaled() < want.to_scaled() {
                    displayed
                } else {
                    want
                }
            },
        }
    }

    fn fee_for(&self, taking: bool, qty: Qty) -> (fee: Notional)
        ensures
            fee == fee_of(
                if taking {
                    self.fees.taker
                } else {
                    self.fees.maker
                },
                qty,
            ),
    {
        let rate = if taking {
            self.fees.taker
        } else {
            self.fees.maker
        };
        notional_up(rate, qty)
    }

    /// Reports an execution.
    fn execute(&mut self, order: OrderId, px: Px, qty: Qty, taking: bool)
        ensures
            final(self).same_venue(*old(self)),
            final(self).resting@ == old(self).resting@,
            final(self).pending@ == old(self).pending@.push(
                old(self).fill_report(Execution { order, px, qty, taking }),
            ),
    {
        let fee = self.fee_for(taking, qty);
        self.report(order, VenueKind::Filled { px, qty, fee });
    }
}

/// Whether an order that pays up to `kind` would take at `px`.
fn is_marketable(kind: OrderKind, side: Side, px: Px) -> (marketable: bool)
    ensures
        marketable == reaches(kind, side, px),
{
    match kind {
        OrderKind::Market => true,
        OrderKind::Limit(limit) => match side {
            Side::Buy => limit.to_scaled() >= px.to_scaled(),
            Side::Sell => limit.to_scaled() <= px.to_scaled(),
        },
    }
}

/// A latency in nanoseconds, clamped into the timestamp's range.
fn latency_nanos(span: ExchangeSpan) -> (nanos: i64)
    ensures
        nanos == clamped(span),
{
    let nanos: i128 = span.to_nanos();
    if nanos < 0 {
        0
    } else if nanos > i64::MAX as i128 {
        i64::MAX
    } else {
        nanos as i64
    }
}

/// `rate` a unit times `qty`, rounded up.
pub fn notional_up(rate: Px, qty: Qty) -> (amount: Notional)
    ensures
        amount == fee_of(rate, qty),
{
    let r: i128 = rate.to_scaled() as i128;
    let q: i128 = qty.to_scaled() as i128;
    proof {
        assert(-0x4000_0000_0000_0000_0000_0000_0000_0000 <= r * q
            <= 0x4000_0000_0000_0000_0000_0000_0000_0000) by (nonlinear_arith)
            requires
                -0x8000_0000_0000_0000 <= r < 0x8000_0000_0000_0000,
                -0x8000_0000_0000_0000 <= q < 0x8000_0000_0000_0000,
        ;
    }
    let exact: i128 = r * q;
    let unit: i128 = SCALE as i128;
    if exact >= 0 {
        let below: i128 = exact / unit;
        if exact % unit == 0 {
            Notional::from_scaled(below)
        } else {
            Notional::from_scaled(below + 1)
        }
    } else {
        let magnitude: i128 = (-exact) / unit;
        Notional::from_scaled(-magnitude)
    }
}

proof fn reports_first(venue: SimVenue, e: Execution, rest: Seq<Execution>)
    ensures
        venue.fill_reports(seq![e] + rest) == seq![venue.fill_report(e)] + venue.fill_reports(rest),
{
    let all = seq![e] + rest;
    assert(all.skip(1) =~= rest);
}

proof fn total_first(e: Execution, rest: Seq<Execution>)
    ensures
        total(seq![e] + rest) == e.qty.0 + total(rest),
{
    let all = seq![e] + rest;
    assert(all.skip(1) =~= rest);
}

impl SimVenue {
    /// Eats the levels an order reaches, best first, and returns what is left.
    fn walk_levels(&mut self, order: &VenueOrder, levels: &[Level]) -> (left: Qty)
        requires
            order.qty.0 > 0,
        ensures
            final(self).same_venue(*old(self)),
            final(self).resting@ == old(self).resting@,
            final(self).pending@ == old(self).pending@ + old(self).fill_reports(
                walk(*order, levels@, order.qty.0 as int),
            ),
            left.0 == order.qty.0 - total(walk(*order, levels@, order.qty.0 as int)),
            left.0 >= 0,
    {
        let ghost whole = walk(*order, levels@, order.qty.0 as int);
        let mut want: i64 = order.qty.to_scaled();
        let mut i: usize = 0;
        assert(levels@.skip(0) =~= levels@);
        while i < levels.len() && want > 0 && is_marketable(order.kind, order.side, levels[i].px)
            invariant
                i <= levels@.len(),
                0 <= want <= order.qty.0,
                self.same_venue(*old(self)),
                self.resting@ == old(self).resting@,
                old(self).pending@ + old(self).fill_reports(whole) == self.pending@ + old(
                    self,
                ).fill_reports(walk(*order, levels@.skip(i as int), want as int)),
                total(whole) == order.qty.0 - want + total(
                    walk(*order, levels@.skip(i as int), want as int),
                ),
            decreases levels@.len() - i,
        {
            let level = levels[i];
            let ghost rest = levels@.skip(i as int);
            assert(rest[0] == level);
            assert(rest.skip(1) =~= levels@.skip(i + 1));
            let take: i64 = if level.qty.to_scaled() < want {
                level.qty.to_scaled()
            } else {
                want
            };
            if take > 0 {
                let ghost before = self.pending@;
                let ghost e = Execution {
                    order: order.id,
                    px: level.px,
                    qty: Qty(take),
                    taking: true,
                };
                let ghost behind = walk(*order, levels@.skip(i + 1), want - take);
                self.execute(order.id, level.px, Qty::from_scaled(take), true);
                proof {
                    reports_first(*old(self), e, behind);
                    total_first(e, behind);
                    assert(before + old(self).fill_reports(seq![e] + behind) =~= self.pending@
                        + old(self).fill_reports(behind));
                }
                want = want - take;
            }
            i += 1;
        }
        proof {
            let last = walk(*order, levels@.skip(i as int), want as int);
            assert(last.len() == 0);
            assert(self.pending@ + old(self).fill_reports(last) =~= self.pending@);
        }
        Qty::from_scaled(want)
    }

    /// Executes whatever an incoming order can take right now, and returns what
    /// is left over.
    fn take_liquidity(
        &mut self,
        order: &VenueOrder,
        top: Option<TopOfBook>,
        levels: &[Level],
    ) -> (left: Qty)
        requires
            order.qty.0 > 0,
        ensures
            final(self).same_venue(*old(self)),
            final(self).resting@ == old(self).resting@,
            final(self).pending@ == old(self).pending@ + old(self).fill_reports(
                takes(old(self).model, *order, top, levels@),
            ),
            left.0 == order.qty.0 - total(takes(old(self).model, *order, top, levels@)),
            left.0 >= 0,
    {
        let ghost none = Seq::<Execution>::empty();
        assert(old(self).pending@ + old(self).fill_reports(none) =~= old(self).pending@);
        let touch = match top {
            Some(t) => t,
            None => {
                return order.qty;
            },
        };
        if !touch.two_sided || !is_marketable(order.kind, order.side, touch.taker_px(order.side)) {
            return order.qty;
        }
        if matches!(self.model, FillModel::WalkBook) && levels.len() > 0 {
            return self.walk_levels(order, levels);
        }
        let take = self.available(&touch, order.side, order.qty);
        if take.to_scaled() <= 0 {
            return order.qty;
        }
        let px = touch.taker_px(order.side);
        self.execute(order.id, px, take, true);
        proof {
            let e = Execution { order: order.id, px, qty: take, taking: true };
            reports_first(*old(self), e, none);
            total_first(e, none);
            assert(seq![e] + none =~= seq![e]);
            assert(seq![old(self).fill_report(e)] + old(self).fill_reports(none) =~= seq![
                old(self).fill_report(e),
            ]);
            assert(self.pending@ =~= old(self).pending@ + old(self).fill_reports(seq![e]));
        }
        Qty::from_scaled(order.qty.to_scaled() - take.to_scaled())
    }

    /// Executes `take` of the resting order at `index`. Returns whether the
    /// order is still there.
    fn execute_resting(&mut self, index: usize, px: Px, take: i64, taking: bool) -> (stays: bool)
        requires
            index < old(self).resting@.len(),
            0 < take <= old(self).resting@[index as int].remaining.0,
        ensures
            final(self).same_venue(*old(self)),
            ({
                let r = old(self).resting@[index as int];
                let left = r.remaining.0 - take;
                &&& stays == (left > 0)
                &&& final(self).resting@ == if stays {
                    old(self).resting@.update(
                        index as int,
                        Resting { remaining: Qty(left as i64), ..r },
                    )
                } else {
                    old(self).resting@.remove(index as int)
                }
                &&& final(self).pending@ == old(self).pending@.push(
                    old(self).fill_report(Execution { order: r.id, px, qty: Qty(take), taking }),
                )
            }),
    {
        let r = self.resting[index];
        self.execute(r.id, px, Qty::from_scaled(take), taking);
        let left: i64 = r.remaining.to_scaled() - take;
        if left <= 0 {
            self.resting.remove(index);
            false
        } else {
            self.resting.set(index, Resting { remaining: Qty::from_scaled(left), ..r });
            true
        }
    }

    /// Fills resting orders against a trade print.
    fn fill_resting(&mut self, instrument: InstrumentId, px: Px, qty: Qty)
        requires
            old(self).well_formed(),
        ensures
            final(self).well_formed(),
            final(self).same_venue(*old(self)),
            ({
                let swept = print_fills(old(self).resting@, instrument, px, qty.0 as int);
                &&& final(self).resting@ == swept.resting
                &&& final(self).pending@ == old(self).pending@ + old(self).fill_reports(
                    swept.executions,
                )
            }),
    {
        let ghost whole = print_fills(self.resting@, instrument, px, qty.0 as int);
        let mut budget: i64 = qty.to_scaled();
        let mut index: usize = 0;
        assert(self.resting@.skip(0) =~= self.resting@);
        assert(self.resting@.take(0) + whole.resting =~= whole.resting);
        while index < self.resting.len()
            invariant
                index <= self.resting@.len(),
                self.well_formed(),
                self.same_venue(*old(self)),
                budget <= qty.0,
                qty.0 >= 0 ==> budget >= 0,
                ({
                    let behind = print_fills(
                        self.resting@.skip(index as int),
                        instrument,
                        px,
                        budget as int,
                    );
                    &&& whole.resting == self.resting@.take(index as int) + behind.resting
                    &&& old(self).pending@ + old(self).fill_reports(whole.executions)
                        == self.pending@ + old(self).fill_reports(behind.executions)
                }),
            decreases self.resting@.len() - index,
        {
            let r = self.resting[index];
            let ghost suffix = self.resting@.skip(index as int);
            let ghost here = *self;
            assert(suffix[0] == r);
            assert(suffix.skip(1) =~= self.resting@.skip(index + 1));
            let touched = r.instrument == instrument && match r.side {
                Side::Buy => px.to_scaled() <= r.limit.to_scaled(),
                Side::Sell => px.to_scaled() >= r.limit.to_scaled(),
            };
            if !touched || budget <= 0 {
                proof {
                    let behind = print_fills(suffix.skip(1), instrument, px, budget as int);
                    assert(self.resting@.take(index as int) + (seq![r] + behind.resting)
                        =~= self.resting@.take(index + 1) + behind.resting);
                }
                index += 1;
                continue ;
            }
            let take: i64 = if budget < r.remaining.to_scaled() {
                budget
            } else {
                r.remaining.to_scaled()
            };
            let stays = self.execute_resting(index, r.limit, take, false);
            budget = budget - take;
            proof {
                let e = Execution { order: r.id, px: r.limit, qty: Qty(take), taking: false };
                let behind = print_fills(suffix.skip(1), instrument, px, budget as int);
                reports_first(*old(self), e, behind.executions);
                assert(here.pending@ + old(self).fill_reports(seq![e] + behind.executions)
                    =~= self.pending@ + old(self).fill_reports(behind.executions));
                if stays {
                    let left = self.resting@[index as int];
                    assert(self.resting@.skip(index + 1) =~= suffix.skip(1));
                    assert(here.resting@.take(index as int) + (seq![left] + behind.resting)
                        =~= self.resting@.take(index + 1) + behind.resting);
                } else {
                    assert(self.resting@.skip(index as int) =~= suffix.skip(1));
                    assert(self.resting@.take(index as int) =~= here.resting@.take(index as int));
                }
            }
            if stays {
                index += 1;
            }
        }
        proof {
            let behind = print_fills(
                self.resting@.skip(index as int),
                instrument,
                px,
                budget as int,
            );
            assert(self.resting@.take(index as int) + behind.resting =~= self.resting@);
            assert(self.pending@ + old(self).fill_reports(behind.executions) =~= self.pending@);
        }
    }

    /// Fills resting orders that a book update has made marketable.
    fn sweep_marketable(&mut self, instrument: InstrumentId, top: &TopOfBook)
        requires
            old(self).well_formed(),
        ensures
            final(self).well_formed(),
            final(self).same_venue(*old(self)),
            ({
                let swept = sweep_fills(old(self).model, old(self).resting@, instrument, *top);
                &&& final(self).resting@ == swept.resting
                &&& final(self).pending@ == old(self).pending@ + old(self).fill_reports(
                    swept.executions,
                )
            }),
    {
        let ghost whole = sweep_fills(self.model, self.resting@, instrument, *top);
        let mut index: usize = 0;
        assert(self.resting@.skip(0) =~= self.resting@);
        assert(self.resting@.take(0) + whole.resting =~= whole.resting);
        while index < self.resting.len()
            invariant
                index <= self.resting@.len(),
                self.well_formed(),
                self.same_venue(*old(self)),
                ({
                    let behind = sweep_fills(
                        self.model,
                        self.resting@.skip(index as int),
                        instrument,
                        *top,
                    );
                    &&& whole.resting == self.resting@.take(index as int) + behind.resting
                    &&& old(self).pending@ + old(self).fill_reports(whole.executions)
                        == self.pending@ + old(self).fill_reports(behind.executions)
                }),
            decreases self.resting@.len() - index,
        {
            let r = self.resting[index];
            let ghost suffix = self.resting@.skip(index as int);
            let ghost here = *self;
            assert(suffix[0] == r);
            assert(suffix.skip(1) =~= self.resting@.skip(index + 1));
            let px = top.taker_px(r.side);
            let take: i64 = if r.instrument != instrument || !is_marketable(
                OrderKind::Limit(r.limit),
                r.side,
                px,
            ) {
                0
            } else {
                self.available(top, r.side, r.remaining).to_scaled()
            };
            if take <= 0 {
                proof {
                    let behind = sweep_fills(self.model, suffix.skip(1), instrument, *top);
                    assert(self.resting@.take(index as int) + (seq![r] + behind.resting)
                        =~= self.resting@.take(index + 1) + behind.resting);
                }
                index += 1;
                continue ;
            }
            let stays = self.execute_resting(index, px, take, true);
            proof {
                let e = Execution { order: r.id, px, qty: Qty(take), taking: true };
                let behind = sweep_fills(self.model, suffix.skip(1), instrument, *top);
                reports_first(*old(self), e, behind.executions);
                assert(here.pending@ + old(self).fill_reports(seq![e] + behind.executions)
                    =~= self.pending@ + old(self).fill_reports(behind.executions));
                if stays {
                    let left = self.resting@[index as int];
                    assert(self.resting@.skip(index + 1) =~= suffix.skip(1));
                    assert(here.resting@.take(index as int) + (seq![left] + behind.resting)
                        =~= self.resting@.take(index + 1) + behind.resting);
                } else {
                    assert(self.resting@.skip(index as int) =~= suffix.skip(1));
                    assert(self.resting@.take(index as int) =~= here.resting@.take(index as int));
                }
            }
            if stays {
                index += 1;
            }
        }
        proof {
            let behind = sweep_fills(
                self.model,
                self.resting@.skip(index as int),
                instrument,
                *top,
            );
            assert(self.resting@.take(index as int) + behind.resting =~= self.resting@);
            assert(self.pending@ + old(self).fill_reports(behind.executions) =~= self.pending@);
        }
    }
}

/// What a venue makes of an order it accepts: the acceptance, the executions,
/// and what becomes of the rest. A market order does not rest: whatever the book
/// could not fill is cancelled. A limit order rests behind those already there.
pub open spec fn accepted(
    before: SimVenue,
    after: SimVenue,
    order: VenueOrder,
    top: Option<TopOfBook>,
    levels: Seq<Level>,
) -> bool {
    let fills = takes(before.model, order, top, levels);
    let left = order.qty.0 - total(fills);
    let reports = before.pending@.push(before.report_of(order.id, VenueKind::Accepted))
        + before.fill_reports(fills);
    &&& after.same_venue(before)
    &&& if left <= 0 {
        after.pending@ == reports && after.resting@ == before.resting@
    } else {
        match order.kind {
            OrderKind::Market => after.pending@ == reports.push(
                before.report_of(order.id, VenueKind::Cancelled),
            ) && after.resting@ == before.resting@,
            OrderKind::Limit(limit) => after.pending@ == reports && after.resting@
                == before.resting@.push(
                Resting {
                    id: order.id,
                    instrument: order.instrument,
                    side: order.side,
                    limit,
                    remaining: Qty(left as i64),
                },
            ),
        }
    }
}

/// The first resting order with this id.
pub open spec fn position_of(resting: Seq<Resting>, id: OrderId, from: int) -> Option<int>
    decreases resting.len() - from,
{
    if from >= resting.len() {
        None
    } else if resting[from].id == id {
        Some(from)
    } else {
        position_of(resting, id, from + 1)
    }
}

impl SimVenue {
    /// Takes an order. `top` and `levels` are what the book shows of its
    /// instrument: the touch, and the depth on the side the order takes from,
    /// best first, where depth is recorded.
    pub fn submit(
        &mut self,
        order: &VenueOrder,
        top: Option<TopOfBook>,
        levels: &[Level],
    ) -> (sent: Result<(), VenueError>)
        requires
            old(self).well_formed(),
        ensures
            final(self).well_formed(),
            if !old(self).connected {
                sent == Err::<(), VenueError>(VenueError::Disconnected) && *final(self) == *old(self)
            } else if order.instrument.0 >= old(self).instruments {
                sent == Err::<(), VenueError>(
                    VenueError::Malformed(RejectReason::UnknownInstrument),
                ) && *final(self) == *old(self)
            } else if order.qty.0 <= 0 {
                sent == Err::<(), VenueError>(VenueError::Malformed(RejectReason::InvalidQuantity))
                    && *final(self) == *old(self)
            } else {
                sent == Ok::<(), VenueError>(()) && accepted(
                    *old(self),
                    *final(self),
                    *order,
                    top,
                    levels@,
                )
            },
    {
        if !self.connected {
            return Err(VenueError::Disconnected);
        }
        if order.instrument.raw() as usize >= self.instruments {
            return Err(VenueError::Malformed(RejectReason::UnknownInstrument));
        }
        if order.qty.to_scaled() <= 0 {
            return Err(VenueError::Malformed(RejectReason::InvalidQuantity));
        }
        self.report(order.id, VenueKind::Accepted);
        let ghost noted = *self;
        let left = self.take_liquidity(order, top, levels);
        proof {
            same_reports(noted, *old(self), takes(self.model, *order, top, levels@));
        }
        if left.to_scaled() <= 0 {
            return Ok(());
        }
        match order.kind {
            OrderKind::Market => self.report(order.id, VenueKind::Cancelled),
            OrderKind::Limit(limit) => self.resting.push(
                Resting {
                    id: order.id,
                    instrument: order.instrument,
                    side: order.side,
                    limit,
                    remaining: left,
                },
            ),
        }
        Ok(())
    }

    /// Cancels a resting order. An order that is not there is answered rather
    /// than met with silence, so that whoever asked can settle.
    pub fn cancel(&mut self, id: OrderId) -> (sent: Result<(), VenueError>)
        requires
            old(self).well_formed(),
        ensures
            final(self).well_formed(),
            if !old(self).connected {
                sent == Err::<(), VenueError>(VenueError::Disconnected) && *final(self) == *old(self)
            } else {
                &&& sent == Ok::<(), VenueError>(())
                &&& final(self).same_venue(*old(self))
                &&& match position_of(old(self).resting@, id, 0) {
                    Some(index) => {
                        &&& final(self).resting@ == old(self).resting@.remove(index)
                        &&& final(self).pending@ == old(self).pending@.push(
                            old(self).report_of(id, VenueKind::Cancelled),
                        )
                    },
                    None => {
                        &&& final(self).resting@ == old(self).resting@
                        &&& final(self).pending@ == old(self).pending@.push(
                            old(self).report_of(
                                id,
                                VenueKind::CancelRejected { reason: RejectReason::UnknownOrder },
                            ),
                        )
                    },
                }
            },
    {
        if !self.connected {
            return Err(VenueError::Disconnected);
        }
        let mut index: usize = 0;
        while index < self.resting.len()
            invariant
                index <= self.resting@.len(),
                *self == *old(self),
                old(self).connected,
                self.well_formed(),
                position_of(self.resting@, id, 0) == position_of(self.resting@, id, index as int),
            decreases self.resting@.len() - index,
        {
            if self.resting[index].id == id {
                self.resting.remove(index);
                self.report(id, VenueKind::Cancelled);
                return Ok(());
            }
            index += 1;
        }
        self.report(id, VenueKind::CancelRejected { reason: RejectReason::UnknownOrder });
        Ok(())
    }

    /// Hands over the reports not yet delivered, oldest first.
    pub fn drain(&mut self, out: &mut Vec<Inbound>)
        ensures
            final(out)@ == old(out)@ + old(self).pending@,
            final(self).pending@ == Seq::<Inbound>::empty(),
            final(self).resting@ == old(self).resting@,
            final(self).same_venue(*old(self)),
    {
        out.append(&mut self.pending);
    }

    /// Sees the market data the engine sees. `applied` says whether the book
    /// accepted it, and `top` what the book shows of that instrument now. What
    /// the book refused the venue does not see.
    pub fn observe_market(&mut self, market: &MarketEvent, applied: bool, top: Option<TopOfBook>)
        requires
            old(self).well_formed(),
        ensures
            final(self).well_formed(),
            observed(*old(self), *final(self), *market, applied, top),
    {
        if !applied {
            return ;
        }
        self.now = market.exchange_time;
        let ghost moved = *self;
        if let MarketKind::Trade { px, qty, .. } = market.kind {
            self.fill_resting(market.instrument, px, qty);
        } else if let Some(t) = top {
            if t.two_sided {
                self.sweep_marketable(market.instrument, &t);
            }
        }
    }
}

proof fn same_reports(a: SimVenue, b: SimVenue, executions: Seq<Execution>)
    requires
        a.same_venue(b),
    ensures
        a.fill_reports(executions) == b.fill_reports(executions),
    decreases executions.len(),
{
    if executions.len() > 0 {
        same_reports(a, b, executions.skip(1));
    }
}

/// What an event the book accepted, or not, does to a venue.
pub open spec fn observed(
    before: SimVenue,
    after: SimVenue,
    market: MarketEvent,
    applied: bool,
    top: Option<TopOfBook>,
) -> bool {
    if !applied {
        after == before
    } else {
        let now = SimVenue { now: market.exchange_time, ..before };
        let swept = match market.kind {
            MarketKind::Trade { px, qty, .. } => print_fills(
                before.resting@,
                market.instrument,
                px,
                qty.0 as int,
            ),
            _ => match top {
                Some(t) => if t.two_sided {
                    sweep_fills(before.model, before.resting@, market.instrument, t)
                } else {
                    Swept { resting: before.resting@, executions: Seq::empty() }
                },
                None => Swept { resting: before.resting@, executions: Seq::empty() },
            },
        };
        &&& after.same_venue(now)
        &&& after.resting@ == swept.resting
        &&& after.pending@ == before.pending@ + now.fill_reports(swept.executions)
    }
}

proof fn walk_is_bounded(order: VenueOrder, levels: Seq<Level>, want: int)
    requires
        0 <= want <= i64::MAX,
    ensures
        0 <= total(walk(order, levels, want)) <= want,
        forall|i: int|
            0 <= i < walk(order, levels, want).len() ==> (#[trigger] walk(
                order,
                levels,
                want,
            )[i]).order == order.id && walk(order, levels, want)[i].taking && walk(
                order,
                levels,
                want,
            )[i].qty.0 > 0 && reaches(
                order.kind,
                order.side,
                walk(order, levels, want)[i].px,
            ),
    decreases levels.len(),
{
    if levels.len() == 0 || want <= 0 || !reaches(order.kind, order.side, levels[0].px) {
    } else {
        let size = levels[0].qty.0;
        let take = if size < want {
            size as int
        } else {
            want
        };
        if take <= 0 {
            walk_is_bounded(order, levels.skip(1), want);
        } else {
            let e = Execution {
                order: order.id,
                px: levels[0].px,
                qty: Qty(take as i64),
                taking: true,
            };
            walk_is_bounded(order, levels.skip(1), want - take);
            total_first(e, walk(order, levels.skip(1), want - take));
        }
    }
}

/// No order executes more than it asked for, at a price past its limit, or in
/// the name of another; and what it takes is never nothing.
pub proof fn order_never_overfills(
    model: FillModel,
    order: VenueOrder,
    top: Option<TopOfBook>,
    levels: Seq<Level>,
)
    requires
        order.qty.0 > 0,
    ensures
        0 <= total(takes(model, order, top, levels)) <= order.qty.0,
        forall|i: int|
            0 <= i < takes(model, order, top, levels).len() ==> {
                let e = #[trigger] takes(model, order, top, levels)[i];
                e.order == order.id && e.qty.0 > 0 && e.taking && reaches(
                    order.kind,
                    order.side,
                    e.px,
                )
            },
{
    walk_is_bounded(order, levels, order.qty.0 as int);
    if let Some(t) = top {
        let take = available_at(model, t, order.side, order.qty);
        let e = Execution {
            order: order.id,
            px: t.touch_px(order.side),
            qty: take,
            taking: true,
        };
        total_first(e, Seq::empty());
        assert(seq![e] + Seq::<Execution>::empty() =~= seq![e]);
    }
}

/// Without recorded depth, walking the book is taking the displayed touch.
pub proof fn walk_without_depth_is_touch(order: VenueOrder, top: Option<TopOfBook>)
    ensures
        takes(FillModel::WalkBook, order, top, Seq::empty()) == takes(
            FillModel::TouchDisplayed,
            order,
            top,
            Seq::empty(),
        ),
{
}

/// A print never fills more than it traded, and no resting order more than it
/// had left.
pub proof fn print_never_overfills(
    resting: Seq<Resting>,
    instrument: InstrumentId,
    px: Px,
    budget: int,
)
    requires
        0 <= budget <= i64::MAX,
        forall|i: int| 0 <= i < resting.len() ==> (#[trigger] resting[i]).remaining.0 > 0,
    ensures
        0 <= total(print_fills(resting, instrument, px, budget).executions) <= budget,
        outstanding(print_fills(resting, instrument, px, budget).resting) + total(
            print_fills(resting, instrument, px, budget).executions,
        ) == outstanding(resting),
    decreases resting.len(),
{
    if resting.len() > 0 {
        let r = resting[0];
        let take = printed_take(r, instrument, px, budget);
        let left = if take > 0 {
            budget - take
        } else {
            budget
        };
        let rest = resting.skip(1);
        let behind = print_fills(rest, instrument, px, left);
        assert forall|i: int| 0 <= i < rest.len() implies (#[trigger] rest[i]).remaining.0 > 0 by {
            assert(rest[i] == resting[i + 1]);
        }
        print_never_overfills(rest, instrument, px, left);
        if take > 0 {
            let e = Execution { order: r.id, px: r.limit, qty: Qty(take as i64), taking: false };
            total_first(e, behind.executions);
            let kept = Resting { remaining: Qty((r.remaining.0 - take) as i64), ..r };
            outstanding_first(kept, behind.resting);
        } else {
            outstanding_first(r, behind.resting);
        }
    }
}

/// How much several resting orders still want.
pub open spec fn outstanding(resting: Seq<Resting>) -> int
    decreases resting.len(),
{
    if resting.len() == 0 {
        0
    } else {
        resting[0].remaining.0 + outstanding(resting.skip(1))
    }
}

proof fn outstanding_first(r: Resting, rest: Seq<Resting>)
    ensures
        outstanding(seq![r] + rest) == r.remaining.0 + outstanding(rest),
{
    assert((seq![r] + rest).skip(1) =~= rest);
}

/// A book that moves executes nothing that was not resting: what is still
/// outstanding and what executed add up to what was outstanding.
pub proof fn sweep_conserves(
    model: FillModel,
    resting: Seq<Resting>,
    instrument: InstrumentId,
    top: TopOfBook,
)
    requires
        forall|i: int| 0 <= i < resting.len() ==> (#[trigger] resting[i]).remaining.0 > 0,
    ensures
        outstanding(sweep_fills(model, resting, instrument, top).resting) + total(
            sweep_fills(model, resting, instrument, top).executions,
        ) == outstanding(resting),
    decreases resting.len(),
{
    if resting.len() > 0 {
        let r = resting[0];
        let take = swept_take(model, r, instrument, top);
        let rest = resting.skip(1);
        let behind = sweep_fills(model, rest, instrument, top);
        assert forall|i: int| 0 <= i < rest.len() implies (#[trigger] rest[i]).remaining.0 > 0 by {
            assert(rest[i] == resting[i + 1]);
        }
        sweep_conserves(model, rest, instrument, top);
        if take > 0 {
            let e = Execution {
                order: r.id,
                px: top.touch_px(r.side),
                qty: Qty(take as i64),
                taking: true,
            };
            total_first(e, behind.executions);
            let kept = Resting { remaining: Qty((r.remaining.0 - take) as i64), ..r };
            outstanding_first(kept, behind.resting);
        } else {
            outstanding_first(r, behind.resting);
        }
    }
}

/// A simulated fill never costs less than its exact fee, and less than one part
/// more.
pub proof fn fee_rounds_up(rate: Px, qty: Qty)
    ensures
        fee_of(rate, qty).0 * SCALE >= rate.0 * qty.0,
        (fee_of(rate, qty).0 - 1) * SCALE < rate.0 * qty.0,
{
    let exact = rate.0 * qty.0;
    assert(-0x4000_0000_0000_0000_0000_0000_0000_0000 <= exact
        <= 0x4000_0000_0000_0000_0000_0000_0000_0000) by (nonlinear_arith)
        requires
            exact == rate.0 * qty.0,
            -0x8000_0000_0000_0000 <= rate.0 < 0x8000_0000_0000_0000,
            -0x8000_0000_0000_0000 <= qty.0 < 0x8000_0000_0000_0000,
    ;
}

} // verus!
