//! What an engine does, told in what it hears and what it asks: positions come to
//! zero when an operator says so, orders are recorded as they were sent, fills are
//! accounted as they were reported, and every change of state is on record.
use vstd::prelude::*;

use crate::engine;
use crate::engine::{
    Applied, ApprovedOrder, Ask, Decision, Engine, EngineView, Notice, OrderBrief, OrderPhase,
    ReplyView, Sent, Task, OPERATOR,
};
use crate::event::{
    Command, CommandEvent, EngineState, Event, Inbound, Intent, MarketEvent, MarketKind, OrderKind,
    Outbound, RiskReason, StateReason, VenueEvent, VenueKind,
};
use crate::timer::TimerRequest;
use crate::value::{InstrumentId, OrderId, Qty, Side, StrategyId};

verus! {

/// What an order of some quantity adds to a position: a buy adds it, a sale takes
/// it away.
pub open spec fn signed(side: Side, qty: Qty) -> int {
    if side == Side::Buy {
        qty.0 as int
    } else {
        -qty.0
    }
}

/// What several intents would add to the position in an instrument.
pub open spec fn net(intents: Seq<Intent>, instrument: InstrumentId) -> int
    decreases intents.len(),
{
    if intents.len() == 0 {
        0
    } else {
        net(intents.drop_last(), instrument) + if intents.last().instrument == instrument {
            signed(intents.last().side, intents.last().qty)
        } else {
            0
        }
    }
}

proof fn flattening_nets_out(held: Seq<Qty>, upto: int, i: int)
    requires
        0 <= upto <= held.len() <= u32::MAX,
        0 <= i < held.len(),
    ensures
        ({
            let raised = engine::flattening(held, upto);
            &&& net(raised, InstrumentId(i as u32)) == if i >= upto {
                0
            } else if held[i].0 == i64::MIN {
                i64::MAX as int
            } else {
                -held[i].0
            }
            &&& forall|k: int|
                0 <= k < raised.len() ==> {
                    &&& (#[trigger] raised[k]).strategy == StrategyId(OPERATOR)
                    &&& raised[k].kind == OrderKind::Market
                    &&& raised[k].reduce_only
                    &&& raised[k].qty.0 > 0
                    &&& raised[k].instrument.0 < upto
                }
            &&& forall|j: int, k: int|
                0 <= j < k < raised.len() ==> (#[trigger] raised[j]).instrument.0 < (
                #[trigger] raised[k]).instrument.0
        }),
    decreases upto,
{
    if upto > 0 {
        flattening_nets_out(held, upto - 1, i);
        let before = engine::flattening(held, upto - 1);
        let raised = engine::flattening(held, upto);
        if held[upto - 1].0 != 0 {
            assert(raised.drop_last() =~= before);
            assert(raised.last().instrument == InstrumentId((upto - 1) as u32));
        }
    }
}

/// An order to flatten brings every position to zero. Whatever is held, the
/// intents that it raises add up, for each instrument, to just what is held there
/// with its sign turned round: a long position is sold and a short one bought
/// back. They are the operator's, to be executed at once and unable to open
/// anything, with at most one for an instrument. The one position whose size no
/// quantity can tell is brought to within one part of zero.
pub proof fn flattening_brings_positions_to_zero(s: EngineView, held: Seq<Qty>, i: int)
    requires
        s.agenda.len() > 0,
        engine::ask_of(s) is Holdings,
        held.len() <= u32::MAX,
        0 <= i < held.len(),
    ensures
        ({
            let after = engine::stepped(s, ReplyView::Held(held));
            let raised = after.intents.skip(s.intents.len() as int);
            &&& s.intents.len() <= after.intents.len()
            &&& after.intents.take(s.intents.len() as int) == s.intents
            &&& held[i].0 > i64::MIN ==> held[i].0 + net(raised, InstrumentId(i as u32)) == 0
            &&& held[i].0 == i64::MIN ==> held[i].0 + net(raised, InstrumentId(i as u32)) == -1
            &&& forall|k: int|
                0 <= k < raised.len() ==> {
                    &&& (#[trigger] raised[k]).strategy == StrategyId(OPERATOR)
                    &&& raised[k].kind == OrderKind::Market
                    &&& raised[k].reduce_only
                    &&& raised[k].qty.0 > 0
                    &&& raised[k].instrument.0 < held.len()
                    &&& raised[k].side == Side::Buy <==> held[raised[k].instrument.0 as int].0 < 0
                    &&& raised[k].side == Side::Sell <==> held[raised[k].instrument.0 as int].0 > 0
                }
            &&& forall|j: int, k: int|
                0 <= j < k < raised.len() ==> (#[trigger] raised[j]).instrument.0 < (
                #[trigger] raised[k]).instrument.0
        }),
{
    let n = held.len() as int;
    let raised = engine::flattening(held, n);
    let after = engine::stepped(s, ReplyView::Held(held));
    assert(s.agenda.last() is Flatten);
    assert(after.intents.skip(s.intents.len() as int) =~= raised);
    assert(after.intents.take(s.intents.len() as int) =~= s.intents);
    flattening_nets_out(held, n, i);
    flattening_sides(held, n);
}

proof fn flattening_sides(held: Seq<Qty>, upto: int)
    requires
        0 <= upto <= held.len() <= u32::MAX,
    ensures
        ({
            let raised = engine::flattening(held, upto);
            forall|k: int|
                0 <= k < raised.len() ==> {
                    &&& (#[trigger] raised[k]).instrument.0 < held.len()
                    &&& raised[k].side == Side::Buy <==> held[raised[k].instrument.0 as int].0 < 0
                    &&& raised[k].side == Side::Sell <==> held[raised[k].instrument.0 as int].0 > 0
                }
        }),
    decreases upto,
{
    if upto > 0 {
        flattening_sides(held, upto - 1);
    }
}

/// What an operator says is done, and nothing else. A halt stops a running engine
/// and no other; a resume is considered in a halted engine and in no other; a kill
/// kills from any state; and a flatten asks for the positions and leaves the state
/// alone. Where the state changes, the first thing to be recorded says from what
/// to what, and that an operator asked.
pub proof fn commands_do_what_they_say(s: EngineView, c: CommandEvent)
    requires
        !s.replaying,
    ensures
        ({
            let after = s.begun(Inbound::Command(c));
            let from = s.state;
            &&& c.command == Command::Halt ==> after.state == if from == EngineState::Running {
                EngineState::Halted
            } else {
                from
            }
            &&& c.command == Command::Kill ==> after.state == EngineState::Killed
            &&& c.command == Command::Resume || c.command == Command::Flatten ==> after.state
                == from
            &&& engine::ask_of(after) is AnyDiverged <==> c.command == Command::Resume && from
                == EngineState::Halted
            &&& engine::ask_of(after) is Holdings <==> c.command == Command::Flatten
            &&& engine::ask_of(after) is LiveOrders <==> c.command == Command::Kill && from
                == EngineState::Killed
            &&& after.state != from <==> engine::ask_of(after) is Record
            &&& after.state != from ==> engine::ask_of(after) == Ask::Record(
                Event::Out(
                    Outbound::StateChanged {
                        caused_by: s.cause,
                        from,
                        to: after.state,
                        reason: StateReason::OperatorCommand,
                    },
                ),
            )
            &&& after.intents == s.intents && after.cancels == s.cancels && after.timers
                == s.timers && after.now == s.now
        }),
{
}

/// A resume leaves a halt exactly when no position diverges from the venue's, and
/// either answer is recorded.
pub proof fn resume_waits_for_the_books(s: EngineView, diverged: bool)
    requires
        s.sound(),
        !s.replaying,
        s.agenda.len() > 0,
        engine::ask_of(s) is AnyDiverged,
    ensures
        ({
            let after = engine::stepped(s, ReplyView::Answer(diverged));
            &&& s.state == EngineState::Halted
            &&& after.state == EngineState::Running <==> !diverged
            &&& after.state == EngineState::Halted <==> diverged
            &&& engine::ask_of(after) == Ask::Record(
                Event::Out(
                    Outbound::StateChanged {
                        caused_by: s.cause,
                        from: EngineState::Halted,
                        to: after.state,
                        reason: if diverged {
                            StateReason::ReconciliationDivergence
                        } else {
                            StateReason::OperatorCommand
                        },
                    },
                ),
            )
        }),
{
    assert(s.agenda.last() == s.agenda[s.agenda.len() - 1]);
}

/// The venue's word on a position halts an engine exactly when the two diverge
/// while it runs, and changes nothing otherwise.
pub proof fn only_a_divergence_halts(s: EngineView, diverged: bool)
    requires
        !s.replaying,
        s.agenda.len() > 0,
        engine::ask_of(s) is ObservePosition,
    ensures
        ({
            let after = engine::stepped(s, ReplyView::Observed(Some(diverged)));
            if diverged && s.state == EngineState::Running {
                &&& after.state == EngineState::Halted
                &&& engine::ask_of(after) == Ask::Record(
                    Event::Out(
                        Outbound::StateChanged {
                            caused_by: s.cause,
                            from: EngineState::Running,
                            to: EngineState::Halted,
                            reason: StateReason::ReconciliationDivergence,
                        },
                    ),
                )
            } else {
                after == s.popped()
            }
        }),
{
}

/// Every change of state is on record: where a reply other than a refusal of the
/// log changes the state of an engine, the next thing it records says what the
/// state was, what it is, and which input caused that.
#[verifier::spinoff_prover]
#[verifier::rlimit(30)]
pub proof fn state_changes_are_recorded(s: EngineView, reply: ReplyView)
    requires
        !s.replaying,
        s.agenda.len() > 0,
        !(reply matches ReplyView::Recorded(Err(_))),
    ensures
        ({
            let after = engine::stepped(s, reply);
            after.state != s.state ==> {
                &&& engine::ask_of(after) matches Ask::Record(Event::Out(out))
                &&& out matches Outbound::StateChanged { caused_by, from, to, .. }
                &&& caused_by == after.cause
                &&& from == s.state
                &&& to == after.state
            }
        }),
{
}

/// Every intent that was raised comes before the risk gate, in turn, with the
/// conventions of its own instrument and the engine's own state and time. One for
/// an instrument that there is not is refused.
pub proof fn every_intent_comes_before_the_gate(s: EngineView, i: usize, reply: ReplyView)
    requires
        s.agenda.len() > 0,
        s.agenda.last() == Task::Gate(i),
        i < s.gated.len(),
        i < usize::MAX,
        !s.replaying,
    ensures
        ({
            let intent = s.gated[i as int];
            let after = engine::stepped(s, reply);
            if intent.instrument.0 < s.instruments.len() {
                &&& engine::ask_of(s) matches Ask::CheckIntent {
                    intent: put,
                    instrument,
                    state,
                    now,
                }
                &&& put == intent
                &&& instrument == s.instruments[intent.instrument.0 as int]
                &&& state == s.state
                &&& now == s.now
            } else {
                engine::ask_of(after) == refusal_record(s, intent, RiskReason::UnknownInstrument)
            }
        }),
        engine::stepped(s, reply).agenda.contains(Task::Gate((i + 1) as usize)),
{
    let after = engine::stepped(s, reply);
    let n = s.agenda.len() - 1;
    assert(after.agenda[n] == Task::Gate((i + 1) as usize));
}

/// What is recorded of an intent that was refused.
pub open spec fn refusal_record(s: EngineView, intent: Intent, reason: RiskReason) -> Ask {
    Ask::Record(
        Event::Out(
            Outbound::IntentRejected {
                caused_by: s.cause,
                strategy: intent.strategy,
                instrument: intent.instrument,
                side: intent.side,
                qty: intent.qty,
                reason,
            },
        ),
    )
}

/// An intent that is too much of a risk, or whose order does not reach the venue, is
/// recorded with its reason, and then its strategy hears of it, in the words it
/// used itself: no order exists, so nothing else would release the quantity.
pub proof fn refusals_are_recorded_and_told(s: EngineView, intent: Intent, reason: RiskReason)
    requires
        !s.replaying,
        s.agenda.len() > 0,
        intent.strategy.0 < s.strategies,
        ({
            ||| {
                &&& engine::ask_of(s) matches Ask::CheckIntent { intent: put, .. }
                &&& put == intent
            }
            ||| {
                &&& s.agenda.last() matches Task::Submit(put, _)
                &&& put == intent
                &&& reason == RiskReason::VenueUnreachable
            }
        }),
    ensures
        ({
            let after = engine::stepped(
                s,
                if engine::ask_of(s) is CheckIntent {
                    ReplyView::Decided(Decision::Rejected(reason))
                } else {
                    ReplyView::Sent(Sent::Unreachable)
                },
            );
            let on = after.popped();
            &&& engine::ask_of(after) == refusal_record(s, intent, reason)
            &&& engine::ask_of(on) == Ask::Tell(
                intent.strategy,
                Notice::IntentRefused {
                    instrument: intent.instrument,
                    side: intent.side,
                    qty: intent.qty,
                    reason,
                },
            )
            &&& forall|seq: crate::event::SeqNo| #[trigger]
                engine::stepped(after, ReplyView::Recorded(Ok(seq))) == on
        }),
{
}

/// An order that the risk checks let through goes to the venue as it came out of
/// them, and once it has left, the log says just that: the same order, under the id
/// it left with.
pub proof fn orders_are_recorded_as_sent(
    s: EngineView,
    intent: Intent,
    order: ApprovedOrder,
    id: OrderId,
)
    requires
        !s.replaying,
        s.agenda.len() > 0,
        engine::ask_of(s) matches Ask::CheckIntent { intent: put, .. } && put == intent,
    ensures
        ({
            let approved = engine::stepped(s, ReplyView::Decided(Decision::Approved(order)));
            let sent = engine::stepped(approved, ReplyView::Sent(Sent::Submitted(id)));
            &&& engine::ask_of(approved) == (Ask::Submit { order, now: s.now })
            &&& engine::ask_of(sent) == Ask::Record(
                Event::Out(
                    Outbound::OrderSubmitted {
                        caused_by: s.cause,
                        order: id,
                        strategy: order.strategy,
                        instrument: order.instrument,
                        side: order.side,
                        qty: order.qty,
                        kind: order.kind,
                        reduce_only: order.reduce_only,
                    },
                ),
            )
        }),
{
    let approved = engine::stepped(s, ReplyView::Decided(Decision::Approved(order)));
    assert(approved.agenda.last() == Task::Submit(intent, order));
}

/// A cancel that the venue took is recorded for the order that was asked about,
/// and one that it did not take is not.
pub proof fn cancels_are_recorded_as_taken(s: EngineView, order: OrderId, taken: bool)
    requires
        !s.replaying,
        s.agenda.len() > 0,
        engine::ask_of(s) matches Ask::Cancel { order: asked, .. } && asked == order,
    ensures
        engine::ask_of(s) == (Ask::Cancel { order, at: s.now }),
        ({
            let after = engine::stepped(s, ReplyView::Answer(taken));
            let said = Ask::Record(
                Event::Out(Outbound::CancelSubmitted { caused_by: s.cause, order }),
            );
            &&& taken ==> engine::ask_of(after) == said
            &&& !taken && s.agenda.last() is CancelOne ==> after == s.popped()
        }),
{
}

/// Timers are passed on as they were asked for: recorded with the strategy, label
/// and instant of the request, and then handed to the feed, in turn.
pub proof fn timers_are_recorded_and_passed_on(
    s: EngineView,
    i: usize,
    seq: crate::event::SeqNo,
)
    requires
        !s.replaying,
        s.agenda.len() > 0,
        s.agenda.last() == Task::Timer(i),
        i < s.requested.len(),
        i < usize::MAX,
    ensures
        ({
            let request = s.requested[i as int];
            let after = engine::stepped(s, ReplyView::Recorded(Ok(seq)));
            &&& engine::ask_of(s) == Ask::Record(
                Event::Out(
                    Outbound::TimerRequested {
                        caused_by: s.cause,
                        strategy: request.strategy,
                        token: request.token,
                        at: request.at,
                    },
                ),
            )
            &&& after.scheduled == s.scheduled.push(request)
            &&& after.agenda.last() == Task::Timer((i + 1) as usize)
        }),
{
}

/// A timer that comes due wakes the strategy that asked for it, with its own label,
/// and at the instant it asked for.
pub proof fn timers_wake_who_asked(s: EngineView, t: crate::event::TimerEvent)
    requires
        t.strategy.0 < s.strategies,
    ensures
        ({
            let after = s.begun(Inbound::Timer(t));
            &&& engine::ask_of(after) == Ask::Tell(t.strategy, Notice::Timer { token: t.token })
            &&& after.now == t.fires_at
        }),
{
}

/// A fill that the venue reports is accounted as it was reported, to the instrument
/// and the side of the order, and then told to the strategy whose order it was:
/// the price, the quantity and the fee reach both unchanged.
pub proof fn fills_are_accounted_as_reported(
    s: EngineView,
    v: VenueEvent,
    before: OrderBrief,
    after: OrderBrief,
)
    requires
        s.agenda.len() > 0,
        engine::ask_of(s) == Ask::ApplyReport(v),
        after.strategy.0 < s.strategies,
        v.kind is Filled,
    ensures
        ({
            let taken = engine::stepped(s, ReplyView::Reported(Ok((before, after))));
            let counted = engine::stepped(taken, ReplyView::Filled(Ok(())));
            &&& v.kind matches VenueKind::Filled { px, qty, fee }
            &&& engine::ask_of(taken) == (Ask::ApplyFill {
                instrument: after.instrument,
                side: after.side,
                qty,
                px,
                fee,
            })
            &&& engine::ask_of(counted) == Ask::Tell(
                after.strategy,
                Notice::Fill {
                    order: after.id,
                    instrument: after.instrument,
                    side: after.side,
                    px,
                    qty,
                    fee,
                },
            )
        }),
{
}

/// A strategy hears once that its order works, and once that it is over and how it
/// ended: a report tells it so exactly when the order passes there with that
/// report. A report that is no fill changes no position.
pub proof fn orders_are_followed_to_their_end(
    s: EngineView,
    v: VenueEvent,
    before: OrderBrief,
    after: OrderBrief,
)
    requires
        s.agenda.len() > 0,
        engine::ask_of(s) == Ask::ApplyReport(v),
        after.strategy.0 < s.strategies,
        !(v.kind is Filled),
    ensures
        ({
            let taken = engine::stepped(s, ReplyView::Reported(Ok((before, after))));
            let live = before.phase == OrderPhase::Pending && after.phase == OrderPhase::Working;
            let over = !(before.phase is Terminal) && after.phase is Terminal;
            &&& live ==> engine::ask_of(taken) == Ask::Tell(
                after.strategy,
                Notice::OrderLive {
                    order: after.id,
                    instrument: after.instrument,
                    side: after.side,
                    qty: after.qty,
                    kind: after.kind,
                },
            ) && taken.popped() == s.popped()
            &&& over ==> (after.phase matches OrderPhase::Terminal(ending) && engine::ask_of(taken)
                == Ask::Tell(
                after.strategy,
                Notice::OrderDone {
                    order: after.id,
                    instrument: after.instrument,
                    side: after.side,
                    state: ending,
                    unfilled: after.remaining,
                },
            )) && taken.popped() == s.popped()
            &&& !live && !over ==> taken == s.popped()
        }),
{
    let taken = engine::stepped(s, ReplyView::Reported(Ok((before, after))));
    if taken.agenda.len() == s.agenda.len() {
        assert(taken.popped().agenda =~= s.popped().agenda);
    }
}

/// An order that a fill finishes is told to be over behind its fill, and one that a
/// fill leaves working is not.
pub proof fn a_last_fill_ends_its_order(
    s: EngineView,
    v: VenueEvent,
    before: OrderBrief,
    after: OrderBrief,
    raised: ReplyView,
)
    requires
        s.agenda.len() > 0,
        engine::ask_of(s) == Ask::ApplyReport(v),
        after.strategy.0 < s.strategies,
        v.kind is Filled,
        before.phase is Working,
        raised is Raised,
    ensures
        ({
            let taken = engine::stepped(s, ReplyView::Reported(Ok((before, after))));
            let counted = engine::stepped(taken, ReplyView::Filled(Ok(())));
            let told = engine::stepped(counted, raised);
            &&& after.phase matches OrderPhase::Terminal(ending) ==> engine::ask_of(told)
                == Ask::Tell(
                after.strategy,
                Notice::OrderDone {
                    order: after.id,
                    instrument: after.instrument,
                    side: after.side,
                    state: ending,
                    unfilled: after.remaining,
                },
            )
            &&& !(after.phase is Terminal) ==> told.agenda == s.popped().agenda
        }),
{
    let taken = engine::stepped(s, ReplyView::Reported(Ok((before, after))));
    let counted = engine::stepped(taken, ReplyView::Filled(Ok(())));
    let told = engine::stepped(counted, raised);
    if !(after.phase is Terminal) {
        assert(told.agenda =~= s.popped().agenda);
    }
}

/// What strategies raise on being shown something is kept in the order it came,
/// behind what was raised before.
pub proof fn what_is_raised_is_kept(
    s: EngineView,
    intents: Seq<Intent>,
    timers: Seq<TimerRequest>,
    cancels: Seq<engine::CancelRequest>,
)
    requires
        s.agenda.len() > 0,
        ({
            let ask = engine::ask_of(s);
            ask is Tell || ask is DispatchBar || ask is DispatchQuote || ask is DispatchTrade
        }),
    ensures
        ({
            let after = engine::stepped(s, ReplyView::Raised { intents, timers, cancels });
            &&& after.intents == s.intents + intents
            &&& after.timers == s.timers + timers
            &&& after.cancels == s.cancels + cancels
            &&& after.state == s.state && after.now == s.now && after.queue == s.queue
        }),
{
}

/// The clock of an engine is that of the last event which a venue stamped: market
/// data, reports and positions by the venue's own stamp, a timer by the instant it
/// stands for. An operator's command leaves it alone.
pub proof fn the_clock_is_the_venues(s: EngineView, event: Inbound)
    ensures
        ({
            let now = s.begun(event).now;
            match event {
                Inbound::Market(m) => now == m.exchange_time,
                Inbound::Venue(v) => now == v.venue_time,
                Inbound::VenuePosition(p) => now == p.venue_time,
                Inbound::Timer(t) => now == t.fires_at,
                Inbound::Command(_) => now == s.now,
            }
        }),
{
}

/// Market data reaches those who read it in one order: the books, then the venue,
/// then the bars that had closed before it, then the strategies. Half an update of
/// a book goes no further than the venue, and what the books refuse goes nowhere.
pub proof fn market_data_flows_in_order(s: EngineView, m: MarketEvent, bars: usize)
    requires
        s.agenda.len() > 0,
        engine::ask_of(s) == Ask::ApplyMarket(m),
    ensures
        ({
            let accepted = engine::stepped(s, ReplyView::Applied(Applied::Accepted));
            let shown = engine::stepped(accepted, ReplyView::Done);
            let closed = engine::stepped(shown, ReplyView::Bars(Ok(bars)));
            let on = engine::stepped(closed, ReplyView::Done);
            &&& engine::stepped(s, ReplyView::Applied(Applied::Refused)) == s.popped()
            &&& engine::ask_of(
                engine::stepped(s, ReplyView::Applied(Applied::UnknownInstrument)),
            ) == Ask::Settled(Err(engine::EngineError::UnknownInstrument))
            &&& engine::ask_of(accepted) == Ask::ShowVenue(m)
            &&& m.kind is Level ==> shown == s.popped()
            &&& !(m.kind is Level) ==> {
                &&& engine::ask_of(shown) == Ask::CloseBars(m.exchange_time)
                &&& bars > 0 ==> engine::ask_of(closed) == Ask::DispatchBar(0)
                &&& bars == 0 ==> {
                    &&& on.agenda.len() > 0
                    &&& m.kind is Quote || m.kind is BookApplied ==> engine::ask_of(on)
                        == Ask::DispatchQuote(m.instrument)
                    &&& m.kind is BookReset ==> engine::ask_of(on) is Proceed
                    &&& m.kind matches MarketKind::Trade { px, qty, aggressor } ==> engine::ask_of(
                        on,
                    ) == (Ask::DispatchTrade { instrument: m.instrument, px, qty, aggressor })
                }
            }
        }),
{
    let accepted = engine::stepped(s, ReplyView::Applied(Applied::Accepted));
    let shown = engine::stepped(accepted, ReplyView::Done);
    if m.kind is Level {
        assert(shown.agenda =~= s.popped().agenda);
    }
    assert(engine::stepped(s, ReplyView::Applied(Applied::Refused)) =~= s.popped());
}

/// A trade that strategies were shown is folded into the bars as it printed, and
/// each bar that it completes is shown, in turn.
pub proof fn trades_are_folded_as_printed(s: EngineView, m: MarketEvent, raised: ReplyView)
    requires
        s.agenda.len() > 0,
        s.agenda.last() == Task::Dispatch(m),
        raised is Raised,
    ensures
        ({
            let after = engine::stepped(s, raised);
            match m.kind {
                MarketKind::Trade { px, qty, .. } => engine::ask_of(after) == (Ask::FoldTrade {
                    instrument: m.instrument,
                    px,
                    qty,
                    at: m.exchange_time,
                }),
                _ => after.agenda == s.popped().agenda,
            }
        }),
{
}

/// Each of the bars that were completed is shown to the strategies, one after the
/// other, and then no more.
pub proof fn bars_are_shown_in_turn(s: EngineView, next: usize, count: usize, raised: ReplyView)
    requires
        s.agenda.len() > 0,
        s.agenda.last() == (Task::Bar { next, count }),
        next < usize::MAX,
        raised is Raised,
    ensures
        next < count ==> engine::ask_of(s) == Ask::DispatchBar(next) && engine::stepped(
            s,
            raised,
        ).agenda.last() == (Task::Bar { next: (next + 1) as usize, count }),
        next >= count ==> engine::stepped(s, ReplyView::Done) == s.popped(),
{
}

/// Events are taken one by one, the one that has waited longest first, each recorded
/// before anything is done about it; and after each the venue is asked what it has to
/// say before the next is taken.
pub proof fn events_are_taken_in_turn(s: EngineView, reply: ReplyView)
    requires
        s.agenda.len() > 0,
        s.agenda.last() == Task::Next,
        s.queue.len() > 0,
        s.steps < engine::MAX_CASCADE,
        !s.replaying,
    ensures
        ({
            let taken = engine::stepped(s, reply);
            &&& engine::ask_of(taken) == Ask::Record(Event::In(s.queue[0]))
            &&& seq![s.queue[0]] + taken.queue == s.queue
            &&& taken.steps == s.steps + 1
            &&& engine::ask_of(taken.popped()) == Ask::DrainVenue
            &&& taken.popped().popped().agenda == s.agenda
        }),
{
    let taken = engine::stepped(s, reply);
    assert(seq![s.queue[0]] + s.queue.drop_first() =~= s.queue);
    let rest = s.agenda.drop_last();
    assert(taken.agenda =~= rest.push(Task::Next).push(Task::Drain).push(Task::Step(s.queue[0])));
    assert(taken.popped().agenda =~= rest.push(Task::Next).push(Task::Drain));
    assert(taken.popped().popped().agenda =~= rest.push(Task::Next));
    assert(rest.push(Task::Next) =~= s.agenda);
}

/// What the venue says waits behind what is waiting already, in the order it was
/// said, and nothing else changes.
pub proof fn reports_wait_their_turn(s: EngineView, reports: Seq<Inbound>)
    requires
        s.agenda.len() > 0,
        s.agenda.last() == Task::Drain,
    ensures
        ({
            let after = engine::stepped(s, ReplyView::Reports(reports));
            &&& after.queue == s.queue + reports
            &&& after == (EngineView { queue: after.queue, agenda: s.agenda.drop_last(), ..s })
        }),
{
}

/// An engine settles, with nothing to complain of, exactly where no event waits.
pub proof fn engines_settle_when_nothing_waits(s: EngineView, reply: ReplyView)
    requires
        s.agenda.len() > 0,
        s.agenda.last() == Task::Next,
        s.steps < engine::MAX_CASCADE,
    ensures
        s.queue.len() == 0 <==> engine::stepped(s, reply).agenda.len() == 0,
        s.queue.len() == 0 ==> {
            &&& engine::ask_of(engine::stepped(s, reply)) == Ask::Settled(Ok(()))
            &&& engine::stepped(s, reply) == (EngineView {
                agenda: Seq::empty(),
                outcome: Ok(()),
                ..s
            })
        },
{
    if s.queue.len() > 0 {
        assert(engine::stepped(s, reply).agenda.last() == Task::Step(s.queue[0]));
    } else {
        assert(engine::stepped(s, reply).agenda =~= Seq::empty());
    }
}

/// Once an event is dealt with, what it made strategies raise is worked through:
/// intents first, then cancels, then timers, each taken up whole and gone from what
/// is waiting.
pub proof fn what_was_raised_is_worked_through(s: EngineView, event: Inbound, reply: ReplyView)
    ensures
        ({
            let begun = s.begun(event);
            let n = s.agenda.len() as int;
            &&& begun.agenda.len() >= n + 3
            &&& begun.agenda.take(n) == s.agenda
            &&& begun.agenda[n] == Task::FlushTimers
            &&& begun.agenda[n + 1] == Task::FlushCancels
            &&& begun.agenda[n + 2] == Task::FlushIntents
        }),
        s.agenda.len() > 0 && s.agenda.last() == Task::FlushIntents ==> {
            let after = engine::stepped(s, reply);
            &&& after.gated == s.intents && after.intents.len() == 0
            &&& after.agenda.last() == Task::Gate(0)
            &&& after.cancels == s.cancels && after.timers == s.timers
        },
        s.agenda.len() > 0 && s.agenda.last() == Task::FlushCancels ==> {
            let after = engine::stepped(s, reply);
            &&& after.pulled == s.cancels && after.cancels.len() == 0
            &&& after.agenda.last() == Task::CheckOwner(0)
            &&& after.intents == s.intents && after.timers == s.timers
        },
        s.agenda.len() > 0 && s.agenda.last() == Task::FlushTimers ==> {
            let after = engine::stepped(s, reply);
            &&& after.requested == s.timers && after.timers.len() == 0
            &&& after.agenda.last() == Task::Timer(0)
            &&& after.intents == s.intents && after.cancels == s.cancels
        },
{
    assert(s.begun(event).agenda.take(s.agenda.len() as int) =~= s.agenda);
}

/// Working through a list leaves nothing out: each item is followed by the next one,
/// and behind the last the work is over.
pub proof fn lists_are_worked_through(s: EngineView, reply: ReplyView, i: usize)
    requires
        s.agenda.len() > 0,
        i < usize::MAX,
        engine::answers(engine::ask_of(s), reply),
        !(reply matches ReplyView::Recorded(Err(_))),
    ensures
        ({
            let after = engine::stepped(s, reply);
            let n = s.agenda.len() - 1;
            &&& s.agenda.last() == Task::Gate(i) ==> if i < s.gated.len() {
                after.agenda.len() > n && after.agenda[n] == Task::Gate((i + 1) as usize)
                    && after.gated == s.gated
            } else {
                after.agenda == s.agenda.drop_last()
            }
            &&& s.agenda.last() == Task::CheckOwner(i) ==> if i < s.pulled.len() {
                after.agenda.len() > n && after.agenda[n] == Task::CheckOwner((i + 1) as usize)
                    && after.pulled == s.pulled
            } else {
                after.agenda == s.agenda.drop_last()
            }
            &&& s.agenda.last() == Task::Timer(i) ==> if i < s.requested.len() {
                after.agenda.len() > n && after.agenda[n] == Task::Timer((i + 1) as usize)
                    && after.requested == s.requested && after.scheduled == s.scheduled.push(
                    s.requested[i as int],
                )
            } else {
                after.agenda == s.agenda.drop_last()
            }
            &&& s.agenda.last() == Task::Sweep(i) ==> if i < s.swept.len() {
                after.agenda.len() > n && after.agenda[n] == Task::Sweep((i + 1) as usize)
                    && after.swept == s.swept
            } else {
                after.agenda == s.agenda.drop_last()
            }
        }),
{
}

/// What the accounts, the books or the bars cannot take ends the input with that
/// complaint, in the words that were used; nothing more is done about it.
pub proof fn complaints_end_the_input(s: EngineView, said: String)
    requires
        s.agenda.len() > 0,
    ensures
        s.agenda.last() is Market ==> engine::ask_of(
            engine::stepped(s, ReplyView::Applied(engine::Applied::UnknownInstrument)),
        ) == Ask::Settled(Err(engine::EngineError::UnknownInstrument)),
        s.agenda.last() is Observe ==> engine::ask_of(
            engine::stepped(s, ReplyView::Observed(None)),
        ) == Ask::Settled(Err(engine::EngineError::UnknownInstrument)),
        s.agenda.last() is Fill ==> engine::ask_of(
            engine::stepped(s, ReplyView::Filled(Err(said))),
        ) == Ask::Settled(Err(engine::EngineError::Position(said))),
        s.agenda.last() is Report ==> engine::ask_of(
            engine::stepped(s, ReplyView::Reported(Err(said))),
        ) == Ask::Settled(Err(engine::EngineError::Oms(said))),
        s.agenda.last() is Submit ==> engine::ask_of(
            engine::stepped(s, ReplyView::Sent(engine::Sent::Refused(said))),
        ) == Ask::Settled(Err(engine::EngineError::Oms(said))),
        s.agenda.last() is Fold ==> engine::ask_of(
            engine::stepped(s, ReplyView::Bars(Err(said))),
        ) == Ask::Settled(Err(engine::EngineError::Aggregate(said))),
{
}

/// Where the log will not take a record the engine halts, or stays killed, and says
/// so.
pub proof fn what_cannot_be_recorded_halts(s: EngineView, error: crate::event::LogError)
    requires
        s.agenda.len() > 0,
        !s.replaying,
        s.agenda.last() is Step || s.agenda.last() is Record,
    ensures
        ({
            let after = engine::stepped(s, ReplyView::Recorded(Err(error)));
            &&& engine::ask_of(after) == Ask::Settled(Err(engine::EngineError::Log(error)))
            &&& s.state == EngineState::Killed ==> after.state == EngineState::Killed
            &&& s.state != EngineState::Killed ==> after.state == EngineState::Halted
        }),
{
}

/// In a replay each input counts one on, and what it causes names that count.
pub proof fn replayed_inputs_are_counted(s: EngineView, reply: ReplyView)
    requires
        s.agenda.len() > 0,
        s.replaying,
        s.agenda.last() is Step,
        s.replay_seq < u64::MAX,
    ensures
        engine::stepped(s, reply).replay_seq == s.replay_seq + 1,
        engine::stepped(s, reply).cause.0 == s.replay_seq + 1,
{
}

/// A strategy hears what is meant for it where it is one of the session's, and no one
/// hears what is meant for another.
pub proof fn only_those_who_take_part_hear(s: EngineView)
    requires
        s.agenda.len() > 0,
        s.agenda.last() is Tell,
    ensures
        s.agenda.last() matches Task::Tell(strategy, notice) ==> engine::ask_of(s) == if strategy.0
            < s.strategies {
            Ask::Tell(strategy, notice)
        } else {
            Ask::Proceed
        },
{
}

/// An input waits behind what is waiting already, and its own cascade is counted from
/// the start.
pub proof fn inputs_wait_their_turn(engine: &mut Engine, inbound: Inbound)
    requires
        old(engine)@.agenda.len() == 0,
        call_ensures(Engine::on_inbound, (engine, inbound), ()),
    ensures
        final(engine)@.queue == old(engine)@.queue.push(inbound),
        final(engine)@.steps == 0,
        engine::ask_of(final(engine)@) == Ask::Proceed,
        final(engine)@.state == old(engine)@.state,
        final(engine)@.now == old(engine)@.now,
{
    assert(final(engine)@.agenda.last() == Task::Next);
}

/// A replay writes nothing while it lasts, changes nothing else as it begins, and
/// leaves the engine halted when it ends, whatever state it had come to.
pub proof fn replays_end_in_a_halt(begins: &mut Engine, ends: &mut Engine)
    requires
        call_ensures(Engine::begin_replay, (begins,), ()),
        call_ensures(Engine::end_replay, (ends,), ()),
    ensures
        final(begins)@.replaying,
        final(begins)@.state == old(begins)@.state,
        final(begins)@.queue == old(begins)@.queue,
        !final(ends)@.replaying,
        final(ends)@.state == EngineState::Halted,
        final(ends)@.now == old(ends)@.now,
        final(ends)@.queue == old(ends)@.queue,
{
}

/// Strategies take part in the order of their numbers: the next one is added, and any
/// other is refused.
pub proof fn strategies_come_in_order(
    engine: &mut Engine,
    id: StrategyId,
    added: Result<(), engine::EngineError>,
)
    requires
        call_ensures(Engine::add_strategy, (engine, id), added),
    ensures
        added is Ok <==> id.0 == old(engine)@.strategies,
        added is Ok ==> final(engine)@.strategies == old(engine)@.strategies + 1,
        added is Err ==> final(engine)@ == old(engine)@ && added->Err_0
            == engine::EngineError::StrategyOutOfOrder,
{
}

/// A restart asks for every live order first, to cancel it, and names its cause.
pub proof fn restarts_cancel_what_rests(engine: &mut Engine, caused_by: crate::event::SeqNo)
    requires
        old(engine)@.agenda.len() == 0,
        call_ensures(Engine::cancel_resting, (engine, caused_by), ()),
    ensures
        engine::ask_of(final(engine)@) == Ask::LiveOrders,
        final(engine)@.cause == caused_by,
        final(engine)@.state == old(engine)@.state,
{
    assert(final(engine)@.agenda.last() == Task::CancelAll);
}

/// Timers are handed out once, in the order they were recorded, behind those that
/// were handed out before.
pub proof fn timers_are_handed_out_once(engine: &mut Engine, out: &mut Vec<TimerRequest>)
    requires
        call_ensures(Engine::take_timer_requests, (engine, out), ()),
    ensures
        final(out)@ == old(out)@ + old(engine)@.scheduled,
        final(engine)@.scheduled.len() == 0,
        final(engine)@.timers == old(engine)@.timers,
{
}

} // verus!
