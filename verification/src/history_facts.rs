//! What is fed back of a recording, and what a synthetic market is like.
use vstd::prelude::*;

use crate::event::log;
use crate::event::{
    EngineState, Event, Inbound, MarketKind, Outbound, Record, RejectReason, RiskReason,
    StateReason,
};
use crate::historical;
use crate::historical::{FeedView, HistoricalFeed, Replaying};
use crate::record;
use crate::record::{parse_args, Args};
use crate::text;
use crate::timer;
use crate::timer::{TimerQueue, TimerRequest};
use crate::value::{ExchangeTime, Instrument, ReceiveTime, Side, SCALE};
use crate::words;

verus! {

// ---- inputs and decisions --------------------------------------------------
/// Where each input of some records stands among them: they are the inputs, all of
/// them, in the order they were recorded.
pub proof fn inputs_stand_in_order(records: Seq<Record>) -> (at: Seq<int>)
    ensures
        at.len() == log::inputs_of(records).len(),
        forall|i: int, j: int| 0 <= i < j < at.len() ==> at[i] < at[j],
        forall|k: int|
            0 <= k < at.len() ==> 0 <= #[trigger] at[k] < records.len() && records[at[k]].event
                == Event::In(log::inputs_of(records)[k]),
        forall|i: int|
            0 <= i < records.len() && (#[trigger] records[i]).event is In ==> at.contains(i),
    decreases records.len(),
{
    if records.len() == 0 {
        Seq::empty()
    } else {
        let n = records.len() - 1;
        let before = inputs_stand_in_order(records.drop_last());
        let at = if records.last().event is In {
            before.push(n)
        } else {
            before
        };
        assert forall|k: int| 0 <= k < at.len() implies 0 <= #[trigger] at[k] < records.len()
            && records[at[k]].event == Event::In(log::inputs_of(records)[k]) by {
            if k < before.len() {
                assert(at[k] == before[k]);
                assert(records.drop_last()[before[k]] == records[before[k]]);
            }
        }
        assert forall|i: int|
            0 <= i < records.len() && (#[trigger] records[i]).event is In implies at.contains(i) by {
            if i < n {
                assert(records.drop_last()[i] == records[i]);
                let k = before.index_of(i);
                assert(at[k] == i);
            } else {
                assert(at[before.len() as int] == i);
            }
        }
        at
    }
}

/// Where each decision of some records stands among them: they are the decisions, all
/// of them, in the order they were recorded.
pub proof fn decisions_stand_in_order(records: Seq<Record>) -> (at: Seq<int>)
    ensures
        at.len() == log::decisions_of(records).len(),
        forall|i: int, j: int| 0 <= i < j < at.len() ==> at[i] < at[j],
        forall|k: int|
            0 <= k < at.len() ==> 0 <= #[trigger] at[k] < records.len() && records[at[k]].event
                == Event::Out(log::decisions_of(records)[k]),
        forall|i: int|
            0 <= i < records.len() && (#[trigger] records[i]).event is Out ==> at.contains(i),
    decreases records.len(),
{
    if records.len() == 0 {
        Seq::empty()
    } else {
        let n = records.len() - 1;
        let before = decisions_stand_in_order(records.drop_last());
        let at = if records.last().event is Out {
            before.push(n)
        } else {
            before
        };
        assert forall|k: int| 0 <= k < at.len() implies 0 <= #[trigger] at[k] < records.len()
            && records[at[k]].event == Event::Out(log::decisions_of(records)[k]) by {
            if k < before.len() {
                assert(at[k] == before[k]);
                assert(records.drop_last()[before[k]] == records[before[k]]);
            }
        }
        assert forall|i: int|
            0 <= i < records.len() && (#[trigger] records[i]).event is Out implies at.contains(i) by {
            if i < n {
                assert(records.drop_last()[i] == records[i]);
                let k = before.index_of(i);
                assert(at[k] == i);
            } else {
                assert(at[before.len() as int] == i);
            }
        }
        at
    }
}

/// A backtest feeds back all market data, and a replay every input, each in the order
/// it was recorded.
pub proof fn what_is_read_stands_in_order(mode: Replaying, records: Seq<Record>) -> (at: Seq<int>)
    ensures
        at.len() == historical::inputs_read(mode, records).len(),
        forall|i: int, j: int| 0 <= i < j < at.len() ==> at[i] < at[j],
        forall|k: int|
            0 <= k < at.len() ==> 0 <= #[trigger] at[k] < records.len() && records[at[k]].event
                == Event::In(historical::inputs_read(mode, records)[k]),
        forall|i: int|
            0 <= i < records.len() && match (#[trigger] records[i]).event {
                Event::In(Inbound::Market(_)) => true,
                Event::In(_) => mode == Replaying::EveryInput,
                Event::Out(_) => false,
            } ==> at.contains(i),
    decreases records.len(),
{
    if records.len() == 0 {
        Seq::empty()
    } else {
        let n = records.len() - 1;
        let before = what_is_read_stands_in_order(mode, records.drop_last());
        let read = historical::inputs_read(mode, records);
        let at = if read.len() > before.len() {
            before.push(n)
        } else {
            before
        };
        assert forall|k: int| 0 <= k < at.len() implies 0 <= #[trigger] at[k] < records.len()
            && records[at[k]].event == Event::In(read[k]) by {
            if k < before.len() {
                assert(at[k] == before[k]);
                assert(records.drop_last()[before[k]] == records[before[k]]);
            }
        }
        assert forall|i: int|
            0 <= i < records.len() && match (#[trigger] records[i]).event {
                Event::In(Inbound::Market(_)) => true,
                Event::In(_) => mode == Replaying::EveryInput,
                Event::Out(_) => false,
            } implies at.contains(i) by {
            if i < n {
                assert(records.drop_last()[i] == records[i]);
                let k = before.index_of(i);
                assert(at[k] == i);
            } else {
                assert(at[before.len() as int] == i);
            }
        }
        at
    }
}

/// When an input happened on the venue's clock, where a venue said so.
pub open spec fn venue_said(input: Inbound) -> Option<i64> {
    match input {
        Inbound::Market(m) => Some(m.exchange_time.0),
        Inbound::Venue(v) => Some(v.venue_time.0),
        Inbound::VenuePosition(p) => Some(p.venue_time.0),
        Inbound::Timer(t) => Some(t.fires_at.0),
        Inbound::Command(_) => None,
    }
}

/// What a feed delivers next is its earliest timer or its next input, whichever comes
/// first on the venue's clock, the timer where both do; an input that no venue
/// stamped goes before any timer. It is taken off, nothing else is, and a feed is
/// spent exactly where both are.
pub proof fn feeds_deliver_in_time(feed: FeedView)
    ensures
        ({
            let next = historical::next_of(feed);
            let rest = historical::rest_of(feed);
            let waits = feed.inputs.len() > 0;
            let timed = feed.timers.len() > 0;
            &&& next is None <==> !waits && !timed
            &&& timed && (waits ==> venue_said(feed.inputs[0]) is Some && feed.timers[0].at.0
                <= venue_said(feed.inputs[0])->Some_0) ==> {
                &&& next matches Some(Inbound::Timer(fired))
                &&& fired.strategy == feed.timers[0].strategy
                &&& fired.token == feed.timers[0].token
                &&& fired.fires_at == feed.timers[0].at
                &&& fired.receive_time == ReceiveTime(feed.timers[0].at.0)
                &&& seq![feed.timers[0]] + rest.timers == feed.timers
                &&& rest.inputs == feed.inputs
            }
            &&& waits && (timed ==> venue_said(feed.inputs[0]) is None || feed.timers[0].at.0
                > venue_said(feed.inputs[0])->Some_0) ==> {
                &&& next == Some(feed.inputs[0])
                &&& seq![feed.inputs[0]] + rest.inputs == feed.inputs
                &&& rest.timers == feed.timers
            }
        }),
{
    if feed.timers.len() > 0 {
        assert(seq![feed.timers[0]] + feed.timers.drop_first() =~= feed.timers);
    }
    if feed.inputs.len() > 0 {
        assert(seq![feed.inputs[0]] + feed.inputs.drop_first() =~= feed.inputs);
    }
}

/// Every input was seen at the moment that it carries.
pub proof fn inputs_were_seen_when_they_say(input: Inbound)
    ensures
        input.spec_receive_time() == match input {
            Inbound::Market(m) => m.receive_time,
            Inbound::Venue(v) => v.receive_time,
            Inbound::VenuePosition(p) => p.receive_time,
            Inbound::Timer(t) => t.receive_time,
            Inbound::Command(c) => c.receive_time,
        },
        match input.spec_exchange_time() {
            Some(at) => venue_said(input) == Some(at.0),
            None => venue_said(input) is None,
        },
{
}

/// A backtest takes the timers that are asked for, and a replay none: it has them in
/// the file.
pub proof fn replays_take_no_timers(feed: &mut HistoricalFeed, request: TimerRequest)
    requires
        old(feed).well_formed(),
        call_ensures(HistoricalFeed::schedule_timer, (feed, request), ()),
    ensures
        old(feed).mode == Replaying::EveryInput ==> final(feed)@.timers == old(feed)@.timers,
        old(feed).mode == Replaying::MarketDataOnly ==> final(feed)@.timers.to_multiset()
            == old(feed)@.timers.to_multiset().insert(request),
        final(feed)@.inputs == old(feed)@.inputs,
{
    timers_gain_one(old(feed)@.timers, request);
}

proof fn timers_gain_one(timers: Seq<TimerRequest>, request: TimerRequest)
    ensures
        timer::with_timer(timers, request).to_multiset() == timers.to_multiset().insert(request),
    decreases timers.len(),
{
    broadcast use vstd::seq_lib::group_to_multiset_ensures;

    if timers.len() > 0 && !timer::no_later(timers.last(), request) {
        timers_gain_one(timers.drop_last(), request);
        assert(timers.drop_last().push(timers.last()) =~= timers);
        assert(timer::with_timer(timers, request).to_multiset() =~= timers.to_multiset().insert(
            request,
        ));
    }
}

/// The earliest timer is taken off where it is due, and stays where it is not.
pub proof fn due_timers_are_taken(
    timers: &mut TimerQueue,
    limit: ExchangeTime,
    due: Option<TimerRequest>,
)
    requires
        old(timers).well_formed(),
        call_ensures(TimerQueue::take_due_by, (timers, limit), due),
    ensures
        due is Some <==> old(timers)@.len() > 0 && old(timers)@[0].at.0 <= limit.0,
        due is Some ==> seq![due->Some_0] + final(timers)@ == old(timers)@,
        due is None ==> final(timers)@ == old(timers)@,
{
    if due is Some {
        assert(seq![due->Some_0] + final(timers)@ =~= old(timers)@);
    }
}

// ---- a synthetic market ----------------------------------------------------
/// The price starts at its lowest, is at its highest twenty steps later, and rises in
/// between.
pub proof fn the_wave_starts_at_the_bottom(step: int, turn: int)
    ensures
        record::wave(40 * turn) == 90,
        record::wave(40 * turn + 20) == 110,
        0 <= step < 20 ==> record::wave(40 * turn + step + 1) == record::wave(40 * turn + step) + 1,
        20 <= step < 40 ==> record::wave(40 * turn + step + 1) == record::wave(40 * turn + step)
            - 1,
{
}

proof fn steps_have_two_each(step: int, instruments: Seq<Instrument>, m: int)
    requires
        0 <= m <= instruments.len(),
    ensures
        ({
            let events = record::step_of(step, instruments, m);
            &&& events.len() == 2 * m
            &&& forall|k: int|
                0 <= k < m ==> {
                    &&& #[trigger] events[2 * k] == record::quote_at(step, k, instruments[k].id)
                    &&& events[2 * k + 1] == record::trade_at(step, k, instruments[k].id)
                }
        }),
    decreases m,
{
    if m > 0 {
        steps_have_two_each(step, instruments, m - 1);
    }
}

proof fn markets_have_two_each(n: int, instruments: Seq<Instrument>, step: int, m: int)
    requires
        0 <= step < n,
        0 <= m < instruments.len(),
    ensures
        ({
            let events = record::market_of(n, instruments);
            let width = 2 * instruments.len();
            &&& events.len() == n * width
            &&& 0 <= step * width + 2 * m < events.len() - 1
            &&& events[step * width + 2 * m] == record::quote_at(step, m, instruments[m].id)
            &&& events[step * width + 2 * m + 1] == record::trade_at(step, m, instruments[m].id)
        }),
    decreases n,
{
    let width = 2 * instruments.len() as int;
    let before = record::market_of(n - 1, instruments);
    let last = record::step_of(n - 1, instruments, instruments.len() as int);
    steps_have_two_each(n - 1, instruments, instruments.len() as int);
    market_len(n - 1, instruments);
    assert((n - 1) * width + width == n * width) by (nonlinear_arith);
    if step < n - 1 {
        markets_have_two_each(n - 1, instruments, step, m);
    } else {
        assert(0 <= step * width) by (nonlinear_arith)
            requires
                0 <= step,
                0 <= width,
        ;
        assert(last[2 * m] == record::quote_at(step, m, instruments[m].id));
    }
}

proof fn market_len(n: int, instruments: Seq<Instrument>)
    requires
        0 <= n,
    ensures
        record::market_of(n, instruments).len() == n * (2 * instruments.len()),
    decreases n,
{
    let width = 2 * instruments.len() as int;
    if n > 0 {
        market_len(n - 1, instruments);
        steps_have_two_each(n - 1, instruments, instruments.len() as int);
        assert((n - 1) * width + width == n * width) by (nonlinear_arith);
    } else {
        assert(n * width == 0) by (nonlinear_arith)
            requires
                n == 0,
        ;
    }
}

/// A synthetic market quotes every instrument once a step and trades it half a step
/// later: the quote a whole unit on either side of the price, the trade at it, one
/// unit at a time, with a buyer and a seller taking in turn; each instrument seven
/// steps out of phase with the one before.
pub proof fn markets_quote_then_trade(
    steps: int,
    instruments: Seq<Instrument>,
    step: int,
    m: int,
)
    requires
        0 <= step < steps,
        0 <= m < instruments.len(),
        steps * record::STEP_NANOS + instruments.len() * 7 + record::STEP_NANOS <= i64::MAX,
    ensures
        ({
            let events = record::market_of(steps, instruments);
            let at = step * (2 * instruments.len()) + 2 * m;
            let price = record::wave(step + 7 * m) * 1_000_000_000;
            let when = step * 1_000_000_000 + m;
            &&& events.len() == steps * (2 * instruments.len())
            &&& 0 <= at < events.len() - 1
            &&& events[at] matches Inbound::Market(quote)
            &&& quote.instrument == instruments[m].id
            &&& quote.exchange_time.0 == when && quote.receive_time.0 == when
            &&& quote.kind matches MarketKind::Quote { bid_px, bid_qty, ask_px, ask_qty }
            &&& bid_px.0 + 1_000_000_000 == price && ask_px.0 - 1_000_000_000 == price
            &&& bid_qty == ask_qty && bid_qty.0 == 500_000_000_000
            &&& events[at + 1] matches Inbound::Market(trade)
            &&& trade.instrument == instruments[m].id
            &&& trade.exchange_time.0 == when + 500_000_000 && trade.receive_time.0 == when
                + 500_000_000
            &&& trade.kind matches MarketKind::Trade { px, qty, aggressor }
            &&& px.0 == price && qty.0 == 1_000_000_000
            &&& aggressor == Side::Buy <==> step % 2 == 0
        }),
{
    markets_have_two_each(steps, instruments, step, m);
    record::price_is_a_wave(step + 7 * m);
    assert(step * record::STEP_NANOS + record::STEP_NANOS <= steps * record::STEP_NANOS)
        by (nonlinear_arith)
        requires
            step < steps,
            record::STEP_NANOS > 0,
    ;
    assert(m * 7 == 7 * m);
}

/// What a recording is asked for: the config, the file, how many steps and which
/// session, in that order; where they are left out there are two thousand steps and
/// the session is the first.
pub proof fn recordings_are_asked_for_in_order(
    argv: &[String],
    steps: i64,
    session: u64,
    read: Option<Args>,
)
    requires
        2 <= argv@.len() <= 4,
        argv@.len() > 2 ==> argv@[2]@ == text::digits(steps as nat) && steps > 0,
        argv@.len() > 3 ==> argv@[3]@ == text::digits(session as nat),
        call_ensures(parse_args, (argv,), read),
    ensures
        read matches Some(a) && a.config@ == argv@[0]@ && a.path@ == argv@[1]@ && a.steps
            == if argv@.len() > 2 {
            steps as int
        } else {
            2_000
        } && a.session_id == if argv@.len() > 3 {
            session as int
        } else {
            1
        },
{
    let w = words::views(argv@);
    assert(w[0] == argv@[0]@ && w[1] == argv@[1]@);
    if argv@.len() > 2 {
        assert(w[2] == argv@[2]@);
        words::whole_numbers_read_back(steps as nat, true);
    }
    if argv@.len() > 3 {
        assert(w[3] == argv@[3]@);
        words::whole_numbers_read_back(session as nat, false);
    }
}

// ---- names -----------------------------------------------------------------
/// Sides, states and reasons are called by their own names.
pub proof fn things_go_by_their_names()
    ensures
        Side::Buy.label() == "Buy"@ && Side::Sell.label() == "Sell"@,
        EngineState::Running.label() == "Running"@ && EngineState::Halted.label() == "Halted"@
            && EngineState::Killed.label() == "Killed"@,
        StateReason::OperatorCommand.label() == "OperatorCommand"@
            && StateReason::ReconciliationDivergence.label() == "ReconciliationDivergence"@
            && StateReason::LogWriteFailed.label() == "LogWriteFailed"@,
        RejectReason::UnknownInstrument.label() == "UnknownInstrument"@
            && RejectReason::InvalidPrice.label() == "InvalidPrice"@
            && RejectReason::InvalidQuantity.label() == "InvalidQuantity"@
            && RejectReason::InsufficientFunds.label() == "InsufficientFunds"@
            && RejectReason::RateLimited.label() == "RateLimited"@
            && RejectReason::UnknownOrder.label() == "UnknownOrder"@
            && RejectReason::AlreadyTerminal.label() == "AlreadyTerminal"@
            && RejectReason::Unavailable.label() == "Unavailable"@,
        RiskReason::KillSwitchEngaged.label() == "KillSwitchEngaged"@
            && RiskReason::Halted.label() == "Halted"@ && RiskReason::UnknownInstrument.label()
            == "UnknownInstrument"@ && RiskReason::NoLimitsConfigured.label()
            == "NoLimitsConfigured"@ && RiskReason::StaleMarketData.label() == "StaleMarketData"@
            && RiskReason::NoMarketData.label() == "NoMarketData"@
            && RiskReason::PositionLimit.label() == "PositionLimit"@
            && RiskReason::ExposureLimit.label() == "ExposureLimit"@
            && RiskReason::OrderNotionalLimit.label() == "OrderNotionalLimit"@
            && RiskReason::OrderRateLimit.label() == "OrderRateLimit"@
            && RiskReason::UnreconciledPosition.label() == "UnreconciledPosition"@
            && RiskReason::BelowMinimumQty.label() == "BelowMinimumQty"@
            && RiskReason::NonPositiveQuantity.label() == "NonPositiveQuantity"@
            && RiskReason::NonPositivePrice.label() == "NonPositivePrice"@
            && RiskReason::NotReducing.label() == "NotReducing"@
            && RiskReason::Unrepresentable.label() == "Unrepresentable"@
            && RiskReason::VenueUnreachable.label() == "VenueUnreachable"@,
{
}

} // verus!
