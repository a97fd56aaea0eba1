//! What size costs, once the book below the touch is known.

use ultra_trade::event::{Inbound, MarketEvent, MarketKind, OrderKind, RejectReason, VenueKind};
use ultra_trade::sim::{
    notional_up, Fees, FillModel, Level, SimVenue, TopOfBook, VenueError, VenueOrder,
};
use ultra_trade::value::{
    ExchangeSpan, ExchangeTime, InstrumentId, Notional, OrderId, Px, Qty, ReceiveTime, Side, SCALE,
};

fn px(whole: i64) -> Px {
    Px::from_scaled(whole * SCALE)
}

fn qty(whole: i64) -> Qty {
    Qty::from_scaled(whole * SCALE)
}

fn venue(model: FillModel) -> SimVenue {
    SimVenue::new(1, model, Fees::none(), ExchangeSpan::from_nanos(0))
}

fn market(at: i64, kind: MarketKind) -> MarketEvent {
    MarketEvent {
        instrument: InstrumentId::new(0),
        exchange_time: ExchangeTime::from_nanos(at),
        receive_time: ReceiveTime::from_nanos(at),
        kind,
    }
}

/// 4 at 100 against 2 at 101.
fn top() -> TopOfBook {
    TopOfBook {
        bid_px: px(100),
        bid_qty: qty(4),
        ask_px: px(101),
        ask_qty: qty(2),
        two_sided: true,
    }
}

/// An ask ladder: 2 at 101, 3 at 102, 5 at 103. Bids 4 at 100, 9 at 99.
fn ladder(v: &mut SimVenue) {
    v.observe_market(&market(10, MarketKind::BookApplied), true, Some(top()));
}

fn asks() -> Vec<Level> {
    [(101, 2), (102, 3), (103, 5)]
        .iter()
        .map(|(p, q)| Level { px: px(*p), qty: qty(*q) })
        .collect()
}

fn bids() -> Vec<Level> {
    [(100, 4), (99, 9)]
        .iter()
        .map(|(p, q)| Level { px: px(*p), qty: qty(*q) })
        .collect()
}

fn order(id: u64, side: Side, size: i64, kind: OrderKind) -> VenueOrder {
    VenueOrder {
        id: OrderId::new(id),
        instrument: InstrumentId::new(0),
        side,
        qty: qty(size),
        kind,
    }
}

fn buy(id: u64, size: i64, kind: OrderKind) -> VenueOrder {
    order(id, Side::Buy, size, kind)
}

fn reports(v: &mut SimVenue) -> Vec<VenueKind> {
    let mut out = Vec::new();
    v.drain(&mut out);
    out.iter()
        .filter_map(|e| match e {
            Inbound::Venue(report) => Some(report.kind),
            _ => None,
        })
        .collect()
}

/// Every fill the venue reported, as (price, quantity) in whole units.
fn fills(v: &mut SimVenue) -> Vec<(i64, i64)> {
    reports(v)
        .iter()
        .filter_map(|kind| match kind {
            VenueKind::Filled { px, qty, .. } => {
                Some((px.to_scaled() / SCALE, qty.to_scaled() / SCALE))
            }
            _ => None,
        })
        .collect()
}

// ---- the cost of size ----------------------------------------------------

#[test]
fn an_order_larger_than_the_touch_pays_for_the_levels_it_eats() {
    // 7 units against 2@101, 3@102, 5@103. It should take 2, 3, then 2.
    let mut v = venue(FillModel::WalkBook);
    ladder(&mut v);
    v.submit(&buy(0, 7, OrderKind::Market), Some(top()), &asks())
        .expect("submit");
    assert_eq!(fills(&mut v), vec![(101, 2), (102, 3), (103, 2)]);
}

#[test]
fn the_same_order_under_the_old_model_stops_at_the_touch() {
    let mut v = venue(FillModel::TouchDisplayed);
    ladder(&mut v);
    v.submit(&buy(0, 7, OrderKind::Market), Some(top()), &asks())
        .expect("submit");
    assert_eq!(fills(&mut v), vec![(101, 2)]);
}

#[test]
fn an_order_inside_the_touch_is_unaffected_by_depth() {
    let mut walk = venue(FillModel::WalkBook);
    let mut touch = venue(FillModel::TouchDisplayed);
    ladder(&mut walk);
    ladder(&mut touch);
    walk.submit(&buy(0, 1, OrderKind::Market), Some(top()), &asks())
        .expect("submit");
    touch
        .submit(&buy(0, 1, OrderKind::Market), Some(top()), &asks())
        .expect("submit");
    // Captured once each: draining is destructive.
    let walked = fills(&mut walk);
    let touched = fills(&mut touch);
    assert_eq!(walked, vec![(101, 1)]);
    assert_eq!(walked, touched);
}

#[test]
fn a_limit_order_stops_at_its_own_price_rather_than_paying_through_it() {
    // It may have 2@101 and 3@102 but not 103.
    let mut v = venue(FillModel::WalkBook);
    ladder(&mut v);
    v.submit(&buy(0, 7, OrderKind::Limit(px(102))), Some(top()), &asks())
        .expect("submit");
    assert_eq!(fills(&mut v), vec![(101, 2), (102, 3)]);
}

#[test]
fn an_order_bigger_than_the_whole_book_takes_what_there_is() {
    let mut v = venue(FillModel::WalkBook);
    ladder(&mut v);
    v.submit(&buy(0, 20, OrderKind::Market), Some(top()), &asks())
        .expect("submit");
    assert_eq!(fills(&mut v), vec![(101, 2), (102, 3), (103, 5)]);
}

#[test]
fn selling_walks_the_bids_downwards() {
    // Bids are 4@100 then 9@99, so six units take 4 then 2.
    let mut v = venue(FillModel::WalkBook);
    ladder(&mut v);
    v.submit(
        &order(0, Side::Sell, 6, OrderKind::Market),
        Some(top()),
        &bids(),
    )
    .expect("submit");
    assert_eq!(fills(&mut v), vec![(100, 4), (99, 2)]);
}

// ---- what it refuses to invent -------------------------------------------

#[test]
fn with_no_depth_recorded_it_behaves_exactly_like_the_touch_model() {
    let quote = market(
        10,
        MarketKind::Quote {
            bid_px: px(100),
            bid_qty: qty(4),
            ask_px: px(101),
            ask_qty: qty(2),
        },
    );
    let mut walk = venue(FillModel::WalkBook);
    let mut touch = venue(FillModel::TouchDisplayed);
    walk.observe_market(&quote, true, Some(top()));
    touch.observe_market(&quote, true, Some(top()));
    walk.submit(&buy(0, 7, OrderKind::Market), Some(top()), &[])
        .expect("submit");
    touch
        .submit(&buy(0, 7, OrderKind::Market), Some(top()), &[])
        .expect("submit");

    assert_eq!(fills(&mut walk), vec![(101, 2)], "the touch and no further");
    assert_eq!(fills(&mut touch), vec![(101, 2)]);
}

#[test]
fn a_limit_that_does_not_reach_the_touch_fills_nothing() {
    let mut v = venue(FillModel::WalkBook);
    ladder(&mut v);
    v.submit(&buy(0, 7, OrderKind::Limit(px(100))), Some(top()), &asks())
        .expect("submit");
    assert!(
        fills(&mut v).is_empty(),
        "a bid below the ask takes nothing"
    );
}

// ---- requests and resting orders -----------------------------------------

#[test]
fn a_venue_that_is_away_takes_nothing() {
    let mut v = venue(FillModel::TouchDisplayed);
    v.disconnect();
    assert!(!v.is_connected());
    assert_eq!(
        v.submit(&buy(0, 1, OrderKind::Market), Some(top()), &[]),
        Err(VenueError::Disconnected)
    );
    assert_eq!(v.cancel(OrderId::new(0)), Err(VenueError::Disconnected));
    v.reconnect();
    assert!(v.is_connected());
    assert!(reports(&mut v).is_empty());
}

#[test]
fn an_order_that_makes_no_sense_is_malformed() {
    let mut v = venue(FillModel::TouchDisplayed);
    let nothing = buy(0, 0, OrderKind::Market);
    assert_eq!(
        v.submit(&nothing, Some(top()), &[]),
        Err(VenueError::Malformed(RejectReason::InvalidQuantity))
    );
    let mut elsewhere = buy(0, 1, OrderKind::Market);
    elsewhere.instrument = InstrumentId::new(9);
    assert_eq!(
        v.submit(&elsewhere, Some(top()), &[]),
        Err(VenueError::Malformed(RejectReason::UnknownInstrument))
    );
}

#[test]
fn a_resting_order_can_be_pulled_once() {
    let mut v = venue(FillModel::TouchDisplayed);
    ladder(&mut v);
    v.submit(&buy(3, 1, OrderKind::Limit(px(100))), Some(top()), &[])
        .expect("submit");
    assert_eq!(v.resting_count(), 1);
    assert_eq!(reports(&mut v), vec![VenueKind::Accepted]);
    v.cancel(OrderId::new(3)).expect("cancel");
    assert_eq!(v.resting_count(), 0);
    assert_eq!(reports(&mut v), vec![VenueKind::Cancelled]);
    v.cancel(OrderId::new(3)).expect("cancel");
    assert_eq!(
        reports(&mut v),
        vec![VenueKind::CancelRejected {
            reason: RejectReason::UnknownOrder
        }]
    );
}

#[test]
fn a_print_through_a_resting_price_fills_it_for_no_more_than_was_printed() {
    let mut v = venue(FillModel::TouchDisplayed);
    ladder(&mut v);
    v.submit(&buy(3, 5, OrderKind::Limit(px(100))), Some(top()), &[])
        .expect("submit");
    assert!(fills(&mut v).is_empty());
    let print = market(
        20,
        MarketKind::Trade {
            px: px(99),
            qty: qty(2),
            aggressor: Side::Sell,
        },
    );
    v.observe_market(&print, true, Some(top()));
    assert_eq!(fills(&mut v), vec![(100, 2)]);
    assert_eq!(v.resting_count(), 1);
}

#[test]
fn a_fee_is_charged_per_unit_and_rounded_up() {
    assert_eq!(
        notional_up(Px::from_scaled(SCALE / 100), qty(3)),
        Notional::from_scaled(30_000_000)
    );
    // A third of the smallest amount is charged as one.
    assert_eq!(
        notional_up(Px::from_scaled(1), Qty::from_scaled(SCALE / 3)),
        Notional::from_scaled(1)
    );
    assert_eq!(
        notional_up(Px::from_scaled(-1), Qty::from_scaled(SCALE / 3)),
        Notional::from_scaled(0)
    );
}
