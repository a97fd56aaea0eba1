//! The loop that wires market data, strategies, risk and orders together.
//!
//! Every inbound event goes the same way: it is recorded before anything reads
//! it, state is updated, strategies see it, every intent goes through the risk
//! gate, and every decision is recorded, naming the record that caused it.
//!
//! The books, orders, positions, gate, strategies, venue and log belong to the
//! engine's owner. The engine decides what is asked of them and in which order:
//! it states one [`Ask`] at a time, and goes on from the owner's [`Reply`].
use vstd::prelude::*;

use crate::event::log::{capacity_of, is_full};
use crate::event::{
    Command, CommandEvent, EngineState, Event, Inbound, Intent, LogError, MarketEvent, MarketKind,
    OrderKind, Outbound, PositionReport, RiskReason, SeqNo, StateReason, TimerToken, VenueEvent,
    VenueKind,
};
use crate::timer::TimerRequest;
use crate::value::{
    ExchangeTime, Instrument, InstrumentId, Notional, OrderId, Px, Qty, Side, StrategyId,
};

verus! {

/// The most events one input may cascade into before the engine calls it a
/// storm. A fill can produce an order, which can produce another fill: that ends
/// in practice, but this is a bound.
pub const MAX_CASCADE: usize = 4_096;

/// The strategy id operator-initiated orders are attributed to.
pub const OPERATOR: u16 = 65_535;

/// How much room to reserve up front. Reservations, not caps.
#[derive(Debug, Clone, Copy, PartialEq, Eq, Hash, Structural)]
pub struct Capacity {
    /// Records the session's log is sized for.
    pub log: usize,
    /// Orders the session is sized for.
    pub orders: usize,
    /// Open lots per instrument.
    pub lots_per_instrument: usize,
    /// Intents, bars, and venue reports one event may produce.
    pub per_step: usize,
}

impl Default for Capacity {
    fn default() -> (capacity: Capacity)
        ensures
            capacity == (Capacity {
                log: 65_536,
                orders: 4_096,
                lots_per_instrument: 64,
                per_step: 64,
            }),
    {
        Capacity { log: 65_536, orders: 4_096, lots_per_instrument: 64, per_step: 64 }
    }
}

/// What an engine is configured with. There is no mode flag: backtest, paper and
/// live differ only in the feed and the venue that are bound.
#[derive(Debug, Clone)]
pub struct EngineConfig {
    /// Every tradable instrument, in id order.
    pub instruments: Vec<Instrument>,
    /// The id the first order of the session receives.
    pub first_order_id: OrderId,
    /// The exchange time the session starts at, until an event carries one.
    pub session_start: ExchangeTime,
    /// How much room to reserve.
    pub capacity: Capacity,
}

impl EngineConfig {
    /// A configuration with default capacities.
    pub fn new(
        instruments: Vec<Instrument>,
        first_order_id: OrderId,
        session_start: ExchangeTime,
    ) -> (config: EngineConfig)
        ensures
            config.instruments == instruments,
            config.first_order_id == first_order_id,
            config.session_start == session_start,
            config.capacity == (Capacity {
                log: 65_536,
                orders: 4_096,
                lots_per_instrument: 64,
                per_step: 64,
            }),
    {
        EngineConfig { instruments, first_order_id, session_start, capacity: Capacity::default() }
    }
}

/// What the engine refused. What an owner's part refused comes with what it said.
#[derive(Debug, Clone, PartialEq, Eq, Hash)]
pub enum EngineError {
    /// The log would not take a record. Nothing after this point is replayable.
    Log(LogError),
    /// The order machine refused a venue report or an order.
    Oms(String),
    /// Position accounting refused a fill.
    Position(String),
    /// Bar aggregation refused a trade.
    Aggregate(String),
    /// An event named an instrument that is not configured.
    UnknownInstrument,
    /// A strategy was registered out of id order.
    StrategyOutOfOrder,
    /// One input cascaded past [`MAX_CASCADE`] events.
    EventStorm,
}

impl EngineError {
    fn copied(&self) -> (error: EngineError)
        ensures
            error == *self,
    {
        match self {
            EngineError::Log(e) => EngineError::Log(*e),
            EngineError::Oms(said) => EngineError::Oms(said.clone()),
            EngineError::Position(said) => EngineError::Position(said.clone()),
            EngineError::Aggregate(said) => EngineError::Aggregate(said.clone()),
            EngineError::UnknownInstrument => EngineError::UnknownInstrument,
            EngineError::StrategyOutOfOrder => EngineError::StrategyOutOfOrder,
            EngineError::EventStorm => EngineError::EventStorm,
        }
    }
}

/// What the books made of a market event.
#[derive(Debug, Clone, Copy, PartialEq, Eq, Structural)]
pub enum Applied {
    /// It is in the books.
    Accepted,
    /// No such instrument.
    UnknownInstrument,
    /// Out of order, or part of an update too large: nothing may see it.
    Refused,
}

/// How an order ended.
#[derive(Debug, Clone, Copy, PartialEq, Eq, Hash, Structural)]
pub enum Ending {
    /// All of it executed.
    Filled,
    /// It was pulled.
    Cancelled,
    /// The venue would not have it.
    Rejected,
    /// Its time ran out.
    Expired,
}

/// How far an order has got.
#[derive(Debug, Clone, Copy, PartialEq, Eq, Structural)]
pub enum OrderPhase {
    /// The venue has not acknowledged it.
    Pending,
    /// It is working at the venue.
    Working,
    /// It is live in some other way.
    Live,
    /// It is over.
    Terminal(Ending),
}

/// An order as the engine reads it.
#[derive(Debug, Clone, Copy, PartialEq, Eq, Structural)]
pub struct OrderBrief {
    pub id: OrderId,
    pub strategy: StrategyId,
    pub instrument: InstrumentId,
    pub side: Side,
    pub qty: Qty,
    pub kind: OrderKind,
    pub remaining: Qty,
    pub phase: OrderPhase,
}

/// What the risk gate lets through: an intent, rounded to the venue's conventions.
#[derive(Debug, Clone, Copy, PartialEq, Eq, Structural)]
pub struct ApprovedOrder {
    pub strategy: StrategyId,
    pub instrument: InstrumentId,
    pub side: Side,
    pub qty: Qty,
    pub kind: OrderKind,
    pub reduce_only: bool,
}

/// What the risk gate decided.
#[derive(Debug, Clone, Copy, PartialEq, Eq, Structural)]
pub enum Decision {
    Approved(ApprovedOrder),
    Rejected(RiskReason),
}

/// How sending an order went.
#[derive(Debug, Clone, PartialEq, Eq)]
pub enum Sent {
    /// It left, under this id, and is among the session's orders.
    Submitted(OrderId),
    /// The venue could not be reached, so no order exists.
    Unreachable,
    /// It left, and the session's orders would not take it: what they said.
    Refused(String),
}

/// What one strategy is told.
#[derive(Debug, Clone, Copy, PartialEq, Eq, Structural)]
pub enum Notice {
    /// One of its orders executed.
    Fill {
        order: OrderId,
        instrument: InstrumentId,
        side: Side,
        px: Px,
        qty: Qty,
        fee: Notional,
    },
    /// One of its orders is working, and can be named.
    OrderLive {
        order: OrderId,
        instrument: InstrumentId,
        side: Side,
        qty: Qty,
        kind: OrderKind,
    },
    /// One of its orders is over, in this way.
    OrderDone {
        order: OrderId,
        instrument: InstrumentId,
        side: Side,
        state: Ending,
        unfilled: Qty,
    },
    /// A timer it asked for came due.
    Timer { token: TimerToken },
    /// An intent of its was refused, so no order exists.
    IntentRefused { instrument: InstrumentId, side: Side, qty: Qty, reason: RiskReason },
}

/// What the engine has to do, and in part where it stands in doing it.
#[derive(Debug, Clone, Copy, PartialEq, Eq, Structural)]
pub enum Task {
    /// Take the next event off the queue.
    Next,
    /// Queue what the venue said back.
    Drain,
    /// Record an event and process it.
    Step(Inbound),
    /// Put a market event to the books.
    Market(MarketEvent),
    /// Let the venue see a market event.
    Show(MarketEvent),
    /// Complete the bars whose window closed by then.
    CloseBars(ExchangeTime),
    /// Hand a completed bar to every strategy.
    Bar { next: usize, count: usize },
    /// Hand a market event to every strategy.
    Dispatch(MarketEvent),
    /// Fold a trade into the bars.
    Fold { instrument: InstrumentId, px: Px, qty: Qty, at: ExchangeTime },
    /// Put a venue report to the orders.
    Report(VenueEvent),
    /// Put a fill to the positions.
    Fill { instrument: InstrumentId, side: Side, qty: Qty, px: Px, fee: Notional },
    /// Tell one strategy something.
    Tell(StrategyId, Notice),
    /// Hold a position against the venue's.
    Observe(PositionReport),
    /// Leave a halt, unless a position diverges.
    Resume,
    /// Find every live order and cancel it.
    CancelAll,
    /// Cancel a live order.
    Sweep(usize),
    /// Find every position and raise an intent against it.
    Flatten,
    /// Take up the intents raised so far.
    FlushIntents,
    /// Put an intent to the risk gate.
    Gate(usize),
    /// Send an approved order.
    Submit(Intent, ApprovedOrder),
    /// Take up the cancels strategies asked for.
    FlushCancels,
    /// See whose live order it is that a strategy wants gone.
    CheckOwner(usize),
    /// Cancel an order its strategy wants gone.
    CancelOne(OrderId),
    /// Take up the timers strategies asked for.
    FlushTimers,
    /// Record a timer request and pass it on.
    Timer(usize),
    /// Record a decision.
    Record(Outbound),
}

/// What the engine needs of its owner.
#[derive(Debug, PartialEq, Eq)]
pub enum Ask {
    /// Nothing: say so and it goes on.
    Proceed,
    /// Append an event to the log.
    Record(Event),
    /// Apply a market event to the books.
    ApplyMarket(MarketEvent),
    /// Let the venue see a market event.
    ShowVenue(MarketEvent),
    /// Complete the bars whose window closed by then, and say how many.
    CloseBars(ExchangeTime),
    /// Hand a completed bar to every strategy.
    DispatchBar(usize),
    /// Hand the instrument's top of book to every strategy, where it has one.
    DispatchQuote(InstrumentId),
    /// Hand a trade to every strategy.
    DispatchTrade { instrument: InstrumentId, px: Px, qty: Qty, aggressor: Side },
    /// Fold a trade into the bars, and say how many it completed.
    FoldTrade { instrument: InstrumentId, px: Px, qty: Qty, at: ExchangeTime },
    /// Apply a venue report to its order, and show the order before and after.
    ApplyReport(VenueEvent),
    /// Apply a fill to the positions.
    ApplyFill { instrument: InstrumentId, side: Side, qty: Qty, px: Px, fee: Notional },
    /// Tell one strategy something.
    Tell(StrategyId, Notice),
    /// Hold the venue's quantity against the position, and say if they diverge.
    ObservePosition(PositionReport),
    /// Whether any position diverges from the venue's.
    AnyDiverged,
    /// Every live order.
    LiveOrders,
    /// Whose order this is, where it exists and is live.
    LiveOwner(OrderId),
    /// Ask the venue to cancel, and where it took that, note it in the order.
    Cancel { order: OrderId, at: ExchangeTime },
    /// The quantity of every position, by instrument.
    Holdings,
    /// Put an intent to the risk gate.
    CheckIntent { intent: Intent, instrument: Instrument, state: EngineState, now: ExchangeTime },
    /// Build an order under the next id and send it.
    Submit { order: ApprovedOrder, now: ExchangeTime },
    /// What the venue has said since it was last asked.
    DrainVenue,
    /// The input is dealt with, or the engine refused it.
    Settled(Result<(), EngineError>),
}

/// A strategy's wish to pull an order.
#[derive(Debug, Clone, Copy, PartialEq, Eq, Hash, Structural)]
pub struct CancelRequest {
    /// The strategy that asks.
    pub strategy: StrategyId,
    /// The order it wants gone.
    pub order: OrderId,
}

/// What strategies raised while they looked at an event.
#[derive(Debug)]
pub struct Raised {
    pub intents: Vec<Intent>,
    pub timers: Vec<TimerRequest>,
    pub cancels: Vec<CancelRequest>,
}

/// What the owner found.
#[derive(Debug)]
pub enum Reply {
    /// It is done.
    Done,
    /// What the log said.
    Recorded(Result<SeqNo, LogError>),
    /// What the books said.
    Applied(Applied),
    /// How many bars there are, or why the trade was refused.
    Bars(Result<usize, String>),
    /// What strategies raised.
    Raised(Raised),
    /// The order before and after, or why the report was refused.
    Reported(Result<(OrderBrief, OrderBrief), String>),
    /// That the fill was accepted, or why not.
    Filled(Result<(), String>),
    /// Whether the position diverges. `None` means that there is none.
    Observed(Option<bool>),
    /// Yes or no.
    Answer(bool),
    /// Whose order it is. `None` means that there is no such live order.
    Owner(Option<StrategyId>),
    /// Orders.
    Orders(Vec<OrderId>),
    /// Quantities.
    Held(Vec<Qty>),
    /// The risk gate's decision.
    Decided(Decision),
    /// How sending went.
    Sent(Sent),
    /// Reports.
    Reports(Vec<Inbound>),
}

/// A reply, its lists as sequences.
pub enum ReplyView {
    Done,
    Recorded(Result<SeqNo, LogError>),
    Applied(Applied),
    Bars(Result<usize, String>),
    Raised { intents: Seq<Intent>, timers: Seq<TimerRequest>, cancels: Seq<CancelRequest> },
    Reported(Result<(OrderBrief, OrderBrief), String>),
    Filled(Result<(), String>),
    Observed(Option<bool>),
    Answer(bool),
    Owner(Option<StrategyId>),
    Orders(Seq<OrderId>),
    Held(Seq<Qty>),
    Decided(Decision),
    Sent(Sent),
    Reports(Seq<Inbound>),
}

impl View for Reply {
    type V = ReplyView;

    open spec fn view(&self) -> ReplyView {
        match *self {
            Reply::Done => ReplyView::Done,
            Reply::Recorded(r) => ReplyView::Recorded(r),
            Reply::Applied(a) => ReplyView::Applied(a),
            Reply::Bars(n) => ReplyView::Bars(n),
            Reply::Raised(r) => ReplyView::Raised {
                intents: r.intents@,
                timers: r.timers@,
                cancels: r.cancels@,
            },
            Reply::Reported(r) => ReplyView::Reported(r),
            Reply::Filled(b) => ReplyView::Filled(b),
            Reply::Observed(d) => ReplyView::Observed(d),
            Reply::Answer(b) => ReplyView::Answer(b),
            Reply::Owner(o) => ReplyView::Owner(o),
            Reply::Orders(o) => ReplyView::Orders(o@),
            Reply::Held(h) => ReplyView::Held(h@),
            Reply::Decided(d) => ReplyView::Decided(d),
            Reply::Sent(s) => ReplyView::Sent(s),
            Reply::Reports(r) => ReplyView::Reports(r@),
        }
    }
}

/// An engine, its lists as sequences.
#[verifier::ext_equal]
pub struct EngineView {
    pub state: EngineState,
    pub now: ExchangeTime,
    pub replaying: bool,
    pub replay_seq: u64,
    pub instruments: Seq<Instrument>,
    pub strategies: nat,
    /// Events not yet processed, next first.
    pub queue: Seq<Inbound>,
    /// Intents, timers and cancels raised and not yet taken up.
    pub intents: Seq<Intent>,
    pub timers: Seq<TimerRequest>,
    pub cancels: Seq<CancelRequest>,
    /// Timers recorded and not yet handed to the feed.
    pub scheduled: Seq<TimerRequest>,
    /// What is being worked through.
    pub gated: Seq<Intent>,
    pub requested: Seq<TimerRequest>,
    pub pulled: Seq<CancelRequest>,
    pub swept: Seq<OrderId>,
    /// How many events the present input has cascaded into.
    pub steps: nat,
    /// The record being processed.
    pub cause: SeqNo,
    /// What is to be done, next last.
    pub agenda: Seq<Task>,
    /// How the last input went.
    pub outcome: Result<(), EngineError>,
}

/// Whether an order that reduces a holding sells or buys.
pub open spec fn reducing(held: Qty) -> Option<Side> {
    if held.0 > 0 {
        Some(Side::Sell)
    } else if held.0 < 0 {
        Some(Side::Buy)
    } else {
        None
    }
}

/// The magnitude of a quantity, as far as it can be had.
pub open spec fn magnitude(held: Qty) -> Qty {
    Qty(
        if held.0 == i64::MIN {
            i64::MAX
        } else if held.0 < 0 {
            (-held.0) as i64
        } else {
            held.0
        },
    )
}

/// A reduce-only intent for every one of the first `upto` instruments that is
/// not flat.
pub open spec fn flattening(held: Seq<Qty>, upto: int) -> Seq<Intent>
    decreases upto,
{
    if upto <= 0 {
        Seq::empty()
    } else {
        let before = flattening(held, upto - 1);
        match reducing(held[upto - 1]) {
            None => before,
            Some(side) => before.push(
                Intent {
                    strategy: StrategyId(OPERATOR),
                    instrument: InstrumentId((upto - 1) as u32),
                    side,
                    qty: magnitude(held[upto - 1]),
                    kind: OrderKind::Market,
                    reduce_only: true,
                },
            ),
        }
    }
}

impl EngineView {
    /// With the present task off the agenda.
    pub open spec fn popped(self) -> EngineView {
        EngineView { agenda: self.agenda.drop_last(), ..self }
    }

    /// With a task to be done before the rest of the agenda.
    pub open spec fn pushed(self, task: Task) -> EngineView {
        EngineView { agenda: self.agenda.push(task), ..self }
    }

    /// The input was refused: nothing more is done about it.
    pub open spec fn failed(self, error: EngineError) -> EngineView {
        EngineView { agenda: Seq::empty(), outcome: Err(error), ..self }
    }

    /// The input is dealt with.
    pub open spec fn settled(self) -> EngineView {
        EngineView { agenda: Seq::empty(), outcome: Ok(()), ..self }
    }

    /// The log would not take a record: the engine halts, unless it is killed.
    pub open spec fn unlogged(self, error: LogError) -> EngineView {
        EngineView {
            state: if self.state == EngineState::Killed {
                EngineState::Killed
            } else {
                EngineState::Halted
            },
            ..self
        }.failed(EngineError::Log(error))
    }

    /// With what strategies raised behind what was raised before.
    pub open spec fn raised(self, reply: ReplyView) -> EngineView {
        match reply {
            ReplyView::Raised { intents, timers, cancels } => EngineView {
                intents: self.intents + intents,
                timers: self.timers + timers,
                cancels: self.cancels + cancels,
                ..self
            },
            _ => self,
        }
    }

    /// In another state, with the decision to be recorded next.
    pub open spec fn moved(self, to: EngineState, reason: StateReason) -> EngineView {
        EngineView { state: to, ..self }.pushed(
            Task::Record(
                Outbound::StateChanged { caused_by: self.cause, from: self.state, to, reason },
            ),
        )
    }

    /// With an intent refused: that is recorded, and its strategy told.
    pub open spec fn refused(self, intent: Intent, reason: RiskReason) -> EngineView {
        self.pushed(
            Task::Tell(
                intent.strategy,
                Notice::IntentRefused {
                    instrument: intent.instrument,
                    side: intent.side,
                    qty: intent.qty,
                    reason,
                },
            ),
        ).pushed(
            Task::Record(
                Outbound::IntentRejected {
                    caused_by: self.cause,
                    strategy: intent.strategy,
                    instrument: intent.instrument,
                    side: intent.side,
                    qty: intent.qty,
                    reason,
                },
            ),
        )
    }

    /// With a recorded input taken up.
    pub open spec fn begun(self, event: Inbound) -> EngineView {
        let s = EngineView {
            now: match event.spec_exchange_time() {
                Some(at) => at,
                None => self.now,
            },
            ..self
        }.pushed(Task::FlushTimers).pushed(Task::FlushCancels).pushed(Task::FlushIntents);
        match event {
            Inbound::Market(m) => s.pushed(Task::Market(m)),
            Inbound::Venue(v) => s.pushed(Task::Report(v)),
            Inbound::VenuePosition(p) => s.pushed(Task::Observe(p)),
            Inbound::Timer(t) => s.pushed(Task::Tell(t.strategy, Notice::Timer { token: t.token })),
            Inbound::Command(c) => match c.command {
                Command::Halt => if s.state == EngineState::Running {
                    s.moved(EngineState::Halted, StateReason::OperatorCommand)
                } else {
                    s
                },
                Command::Resume => if s.state == EngineState::Halted {
                    s.pushed(Task::Resume)
                } else {
                    s
                },
                Command::Kill => if s.state != EngineState::Killed {
                    s.pushed(Task::CancelAll).moved(
                        EngineState::Killed,
                        StateReason::OperatorCommand,
                    )
                } else {
                    s.pushed(Task::CancelAll)
                },
                Command::Flatten => s.pushed(Task::Flatten),
            },
        }
    }

    /// With an applied venue report taken up: the fill is accounted and told,
    /// then that the order is working, then that it is over.
    pub open spec fn reported(
        self,
        report: VenueEvent,
        before: OrderBrief,
        after: OrderBrief,
    ) -> EngineView {
        let over = match (before.phase, after.phase) {
            (OrderPhase::Terminal(_), _) => self,
            (_, OrderPhase::Terminal(state)) => self.pushed(
                Task::Tell(
                    after.strategy,
                    Notice::OrderDone {
                        order: after.id,
                        instrument: after.instrument,
                        side: after.side,
                        state,
                        unfilled: after.remaining,
                    },
                ),
            ),
            _ => self,
        };
        let live = if before.phase == OrderPhase::Pending && after.phase == OrderPhase::Working {
            over.pushed(
                Task::Tell(
                    after.strategy,
                    Notice::OrderLive {
                        order: after.id,
                        instrument: after.instrument,
                        side: after.side,
                        qty: after.qty,
                        kind: after.kind,
                    },
                ),
            )
        } else {
            over
        };
        match report.kind {
            VenueKind::Filled { px, qty, fee } => live.pushed(
                Task::Tell(
                    after.strategy,
                    Notice::Fill {
                        order: after.id,
                        instrument: after.instrument,
                        side: after.side,
                        px,
                        qty,
                        fee,
                    },
                ),
            ).pushed(
                Task::Fill { instrument: after.instrument, side: after.side, qty, px, fee },
            ),
            _ => live,
        }
    }

    /// With a market event that the books accepted taken up. A level on its own
    /// is half an update, so nothing but the venue may see it. Bars whose window
    /// had closed belong before the event.
    pub open spec fn accepted(self, m: MarketEvent) -> EngineView {
        match m.kind {
            MarketKind::Level { .. } => self.pushed(Task::Show(m)),
            _ => self.pushed(Task::Dispatch(m)).pushed(Task::CloseBars(m.exchange_time)).pushed(
                Task::Show(m),
            ),
        }
    }
}

/// What an engine asks next.
pub open spec fn ask_of(s: EngineView) -> Ask {
    if s.agenda.len() == 0 {
        Ask::Settled(s.outcome)
    } else {
        match s.agenda.last() {
            Task::Next => Ask::Proceed,
            Task::Drain => Ask::DrainVenue,
            Task::Step(event) => if s.replaying {
                Ask::Proceed
            } else {
                Ask::Record(Event::In(event))
            },
            Task::Market(m) => Ask::ApplyMarket(m),
            Task::Show(m) => Ask::ShowVenue(m),
            Task::CloseBars(at) => Ask::CloseBars(at),
            Task::Bar { next, count } => if next < count {
                Ask::DispatchBar(next)
            } else {
                Ask::Proceed
            },
            Task::Dispatch(m) => match m.kind {
                MarketKind::Quote { .. } => Ask::DispatchQuote(m.instrument),
                MarketKind::BookApplied => Ask::DispatchQuote(m.instrument),
                MarketKind::Trade { px, qty, aggressor } => Ask::DispatchTrade {
                    instrument: m.instrument,
                    px,
                    qty,
                    aggressor,
                },
                _ => Ask::Proceed,
            },
            Task::Fold { instrument, px, qty, at } => Ask::FoldTrade { instrument, px, qty, at },
            Task::Report(v) => Ask::ApplyReport(v),
            Task::Fill { instrument, side, qty, px, fee } => Ask::ApplyFill {
                instrument,
                side,
                qty,
                px,
                fee,
            },
            Task::Tell(strategy, notice) => if strategy.0 < s.strategies {
                Ask::Tell(strategy, notice)
            } else {
                Ask::Proceed
            },
            Task::Observe(p) => Ask::ObservePosition(p),
            Task::Resume => Ask::AnyDiverged,
            Task::CancelAll => Ask::LiveOrders,
            Task::Sweep(i) => if i < s.swept.len() {
                Ask::Cancel { order: s.swept[i as int], at: s.now }
            } else {
                Ask::Proceed
            },
            Task::Flatten => Ask::Holdings,
            Task::FlushIntents => Ask::Proceed,
            Task::Gate(i) => if i < s.gated.len() && s.gated[i as int].instrument.0
                < s.instruments.len() {
                Ask::CheckIntent {
                    intent: s.gated[i as int],
                    instrument: s.instruments[s.gated[i as int].instrument.0 as int],
                    state: s.state,
                    now: s.now,
                }
            } else {
                Ask::Proceed
            },
            Task::Submit(_, order) => Ask::Submit { order, now: s.now },
            Task::FlushCancels => Ask::Proceed,
            Task::CheckOwner(i) => if i < s.pulled.len() {
                Ask::LiveOwner(s.pulled[i as int].order)
            } else {
                Ask::Proceed
            },
            Task::CancelOne(order) => Ask::Cancel { order, at: s.now },
            Task::FlushTimers => Ask::Proceed,
            Task::Timer(i) => if i < s.requested.len() && !s.replaying {
                Ask::Record(Event::Out(timer_record(s, s.requested[i as int])))
            } else {
                Ask::Proceed
            },
            Task::Record(out) => if s.replaying {
                Ask::Proceed
            } else {
                Ask::Record(Event::Out(out))
            },
        }
    }
}

/// The decision that passes a timer request on.
pub open spec fn timer_record(s: EngineView, request: TimerRequest) -> Outbound {
    Outbound::TimerRequested {
        caused_by: s.cause,
        strategy: request.strategy,
        token: request.token,
        at: request.at,
    }
}

/// Whether a reply is one to what was asked.
pub open spec fn answers(ask: Ask, reply: ReplyView) -> bool {
    match ask {
        Ask::Proceed => reply is Done,
        Ask::Record(_) => reply is Recorded,
        Ask::ApplyMarket(_) => reply is Applied,
        Ask::ShowVenue(_) => reply is Done,
        Ask::CloseBars(_) => reply matches ReplyView::Bars(Ok(_)),
        Ask::DispatchBar(_) => reply is Raised,
        Ask::DispatchQuote(_) => reply is Raised,
        Ask::DispatchTrade { .. } => reply is Raised,
        Ask::FoldTrade { .. } => reply is Bars,
        Ask::ApplyReport(_) => reply is Reported,
        Ask::ApplyFill { .. } => reply is Filled,
        Ask::Tell(_, _) => reply is Raised,
        Ask::ObservePosition(_) => reply is Observed,
        Ask::AnyDiverged => reply is Answer,
        Ask::LiveOrders => reply is Orders,
        Ask::LiveOwner(_) => reply is Owner,
        Ask::Cancel { .. } => reply is Answer,
        Ask::Holdings => reply matches ReplyView::Held(held) && held.len() <= u32::MAX,
        Ask::CheckIntent { .. } => reply is Decided,
        Ask::Submit { .. } => reply is Sent,
        Ask::DrainVenue => reply is Reports,
        Ask::Settled(_) => false,
    }
}

/// What becomes of an engine on a reply.
pub open spec fn stepped(s: EngineView, reply: ReplyView) -> EngineView {
    let p = s.popped();
    match s.agenda.last() {
        Task::Next => if p.queue.len() == 0 {
            p.settled()
        } else if p.steps + 1 > MAX_CASCADE {
            EngineView { queue: Seq::empty(), steps: p.steps + 1, ..p }.failed(
                EngineError::EventStorm,
            )
        } else {
            EngineView { queue: p.queue.drop_first(), steps: p.steps + 1, ..p }.pushed(
                Task::Next,
            ).pushed(Task::Drain).pushed(Task::Step(p.queue[0]))
        },
        Task::Drain => match reply {
            ReplyView::Reports(r) => EngineView { queue: p.queue + r, ..p },
            _ => p,
        },
        Task::Step(event) => if s.replaying {
            EngineView {
                replay_seq: (p.replay_seq + 1) as u64,
                cause: SeqNo((p.replay_seq + 1) as u64),
                ..p
            }.begun(event)
        } else {
            match reply {
                ReplyView::Recorded(Ok(seq)) => EngineView { cause: seq, ..p }.begun(event),
                ReplyView::Recorded(Err(e)) => p.unlogged(e),
                _ => p,
            }
        },
        Task::Market(m) => match reply {
            ReplyView::Applied(Applied::Accepted) => p.accepted(m),
            ReplyView::Applied(Applied::UnknownInstrument) => p.failed(
                EngineError::UnknownInstrument,
            ),
            _ => p,
        },
        Task::Show(_) => p,
        Task::CloseBars(_) => match reply {
            ReplyView::Bars(Ok(count)) => p.pushed(Task::Bar { next: 0, count }),
            _ => p,
        },
        Task::Bar { next, count } => if next < count {
            p.raised(reply).pushed(Task::Bar { next: (next + 1) as usize, count })
        } else {
            p
        },
        Task::Dispatch(m) => match m.kind {
            MarketKind::Trade { px, qty, .. } => p.raised(reply).pushed(
                Task::Fold { instrument: m.instrument, px, qty, at: m.exchange_time },
            ),
            _ => p.raised(reply),
        },
        Task::Fold { .. } => match reply {
            ReplyView::Bars(Ok(count)) => p.pushed(Task::Bar { next: 0, count }),
            ReplyView::Bars(Err(said)) => p.failed(EngineError::Aggregate(said)),
            _ => p,
        },
        Task::Report(v) => match reply {
            ReplyView::Reported(Ok((before, after))) => p.reported(v, before, after),
            ReplyView::Reported(Err(said)) => p.failed(EngineError::Oms(said)),
            _ => p,
        },
        Task::Fill { .. } => match reply {
            ReplyView::Filled(Err(said)) => p.failed(EngineError::Position(said)),
            _ => p,
        },
        Task::Tell(_, _) => p.raised(reply),
        Task::Observe(_) => match reply {
            ReplyView::Observed(Some(diverged)) => if diverged && p.state == EngineState::Running {
                p.moved(EngineState::Halted, StateReason::ReconciliationDivergence)
            } else {
                p
            },
            _ => p.failed(EngineError::UnknownInstrument),
        },
        Task::Resume => match reply {
            ReplyView::Answer(true) => p.moved(
                EngineState::Halted,
                StateReason::ReconciliationDivergence,
            ),
            _ => p.moved(EngineState::Running, StateReason::OperatorCommand),
        },
        Task::CancelAll => match reply {
            ReplyView::Orders(orders) => EngineView { swept: orders, ..p }.pushed(Task::Sweep(0)),
            _ => p,
        },
        Task::Sweep(i) => if i < p.swept.len() {
            let on = p.pushed(Task::Sweep((i + 1) as usize));
            match reply {
                ReplyView::Answer(true) => on.pushed(
                    Task::Record(
                        Outbound::CancelSubmitted {
                            caused_by: p.cause,
                            order: p.swept[i as int],
                        },
                    ),
                ),
                _ => on,
            }
        } else {
            p
        },
        Task::Flatten => match reply {
            ReplyView::Held(held) => EngineView {
                intents: p.intents + flattening(held, held.len() as int),
                ..p
            },
            _ => p,
        },
        Task::FlushIntents => EngineView {
            gated: p.intents,
            intents: Seq::empty(),
            ..p
        }.pushed(Task::Gate(0)),
        Task::Gate(i) => if i < p.gated.len() {
            let on = p.pushed(Task::Gate((i + 1) as usize));
            let intent = p.gated[i as int];
            if intent.instrument.0 < p.instruments.len() {
                match reply {
                    ReplyView::Decided(Decision::Approved(order)) => on.pushed(
                        Task::Submit(intent, order),
                    ),
                    ReplyView::Decided(Decision::Rejected(reason)) => on.refused(intent, reason),
                    _ => on,
                }
            } else {
                on.refused(intent, RiskReason::UnknownInstrument)
            }
        } else {
            p
        },
        Task::Submit(intent, order) => match reply {
            ReplyView::Sent(Sent::Submitted(id)) => p.pushed(
                Task::Record(
                    Outbound::OrderSubmitted {
                        caused_by: p.cause,
                        order: id,
                        strategy: order.strategy,
                        instrument: order.instrument,
                        side: order.side,
                        qty: order.qty,
                        kind: order.kind,
                        reduce_only: order.reduce_only,
                    },
                ),
            ),
            ReplyView::Sent(Sent::Unreachable) => p.refused(intent, RiskReason::VenueUnreachable),
            ReplyView::Sent(Sent::Refused(said)) => p.failed(EngineError::Oms(said)),
            _ => p,
        },
        Task::FlushCancels => EngineView {
            pulled: p.cancels,
            cancels: Seq::empty(),
            ..p
        }.pushed(Task::CheckOwner(0)),
        Task::CheckOwner(i) => if i < p.pulled.len() {
            let on = p.pushed(Task::CheckOwner((i + 1) as usize));
            if reply == ReplyView::Owner(Some(p.pulled[i as int].strategy)) {
                on.pushed(Task::CancelOne(p.pulled[i as int].order))
            } else {
                on
            }
        } else {
            p
        },
        Task::CancelOne(order) => match reply {
            ReplyView::Answer(true) => p.pushed(
                Task::Record(Outbound::CancelSubmitted { caused_by: p.cause, order }),
            ),
            _ => p,
        },
        Task::FlushTimers => EngineView {
            requested: p.timers,
            timers: Seq::empty(),
            ..p
        }.pushed(Task::Timer(0)),
        Task::Timer(i) => if i < p.requested.len() {
            match reply {
                ReplyView::Recorded(Err(e)) => p.unlogged(e),
                _ => EngineView {
                    scheduled: p.scheduled.push(p.requested[i as int]),
                    ..p
                }.pushed(Task::Timer((i + 1) as usize)),
            }
        } else {
            p
        },
        Task::Record(_) => match reply {
            ReplyView::Recorded(Err(e)) => p.unlogged(e),
            _ => p,
        },
    }
}

/// Whether the owner's stores are full, or any buffer among `rooms`, each given as
/// its length and what it has room for.
pub fn any_full(stores_full: bool, rooms: &[(usize, usize)]) -> (full: bool)
    ensures
        full == (stores_full || exists|i: int|
            0 <= i < rooms@.len() && (#[trigger] rooms@[i]).0 == rooms@[i].1),
{
    if stores_full {
        return true;
    }
    let mut i: usize = 0;
    while i < rooms.len()
        invariant
            i <= rooms@.len(),
            forall|k: int| 0 <= k < i ==> (#[trigger] rooms@[k]).0 != rooms@[k].1,
        decreases rooms@.len() - i,
    {
        if is_full(rooms[i].0, rooms[i].1) {
            return true;
        }
        i += 1;
    }
    false
}

/// The trading loop.
#[derive(Debug)]
pub struct Engine {
    state: EngineState,
    now: ExchangeTime,
    replaying: bool,
    replay_seq: u64,
    instruments: Vec<Instrument>,
    strategies: usize,
    queue: Vec<Inbound>,
    intents: Vec<Intent>,
    timers: Vec<TimerRequest>,
    cancels: Vec<CancelRequest>,
    scheduled: Vec<TimerRequest>,
    gated: Vec<Intent>,
    requested: Vec<TimerRequest>,
    pulled: Vec<CancelRequest>,
    swept: Vec<OrderId>,
    steps: usize,
    cause: SeqNo,
    agenda: Vec<Task>,
    outcome: Result<(), EngineError>,
}

impl View for Engine {
    type V = EngineView;

    closed spec fn view(&self) -> EngineView {
        EngineView {
            state: self.state,
            now: self.now,
            replaying: self.replaying,
            replay_seq: self.replay_seq,
            instruments: self.instruments@,
            strategies: self.strategies as nat,
            queue: self.queue@,
            intents: self.intents@,
            timers: self.timers@,
            cancels: self.cancels@,
            scheduled: self.scheduled@,
            gated: self.gated@,
            requested: self.requested@,
            pulled: self.pulled@,
            swept: self.swept@,
            steps: self.steps as nat,
            cause: self.cause,
            agenda: self.agenda@,
            outcome: self.outcome,
        }
    }
}

impl Engine {
    /// Builds an engine from its configuration.
    pub fn new(config: EngineConfig) -> (engine: Engine)
        ensures
            engine@ == (EngineView {
                state: EngineState::Running,
                now: config.session_start,
                replaying: false,
                replay_seq: 0,
                instruments: config.instruments@,
                strategies: 0,
                queue: Seq::empty(),
                intents: Seq::empty(),
                timers: Seq::empty(),
                cancels: Seq::empty(),
                scheduled: Seq::empty(),
                gated: Seq::empty(),
                requested: Seq::empty(),
                pulled: Seq::empty(),
                swept: Seq::empty(),
                steps: 0,
                cause: SeqNo(0),
                agenda: Seq::empty(),
                outcome: Ok(()),
            }),
    {
        let engine = Engine {
            state: EngineState::Running,
            now: config.session_start,
            replaying: false,
            replay_seq: 0,
            instruments: config.instruments,
            strategies: 0,
            queue: Vec::with_capacity(config.capacity.per_step),
            intents: Vec::with_capacity(config.capacity.per_step),
            timers: Vec::with_capacity(config.capacity.per_step),
            cancels: Vec::with_capacity(config.capacity.per_step),
            scheduled: Vec::with_capacity(config.capacity.per_step),
            gated: Vec::new(),
            requested: Vec::new(),
            pulled: Vec::new(),
            swept: Vec::new(),
            steps: 0,
            cause: SeqNo::new(0),
            agenda: Vec::new(),
            outcome: Ok(()),
        };
        assert(engine@.queue =~= Seq::empty());
        engine
    }

    /// Registers a strategy. Strategies must arrive in id order, because the id
    /// is the index their fills are routed by.
    pub fn add_strategy(&mut self, id: StrategyId) -> (added: Result<(), EngineError>)
        ensures
            if id.0 == old(self)@.strategies {
                &&& added == Ok::<(), EngineError>(())
                &&& final(self)@ == (EngineView {
                    strategies: old(self)@.strategies + 1,
                    ..old(self)@
                })
            } else {
                &&& added == Err::<(), EngineError>(EngineError::StrategyOutOfOrder)
                &&& final(self)@ == old(self)@
            },
    {
        if id.raw() as usize != self.strategies {
            return Err(EngineError::StrategyOutOfOrder);
        }
        self.strategies = self.strategies + 1;
        Ok(())
    }

    /// Takes one input. What the venue says in response is processed before the
    /// engine settles.
    pub fn on_inbound(&mut self, inbound: Inbound)
        requires
            old(self)@.agenda.len() == 0,
        ensures
            final(self)@ == (EngineView {
                queue: old(self)@.queue.push(inbound),
                steps: 0,
                agenda: seq![Task::Next],
                ..old(self)@
            }),
            final(self)@.sound(),
    {
        self.queue.push(inbound);
        self.steps = 0;
        self.agenda.push(Task::Next);
        assert(self.agenda@ =~= seq![Task::Next]);
    }

    /// Re-derives state from events that are already in the log: until
    /// [`Engine::end_replay`] events are processed and nothing is written.
    pub fn begin_replay(&mut self)
        ensures
            final(self)@ == (EngineView { replaying: true, ..old(self)@ }),
    {
        self.replaying = true;
    }

    /// Cancels everything still live, as a restart must: orders left resting
    /// would keep filling while the session is halted.
    pub fn cancel_resting(&mut self, caused_by: SeqNo)
        requires
            old(self)@.agenda.len() == 0,
        ensures
            final(self)@ == (EngineView {
                cause: caused_by,
                steps: 0,
                agenda: seq![Task::CancelAll],
                outcome: Ok(()),
                ..old(self)@
            }),
            final(self)@.sound(),
    {
        self.cause = caused_by;
        self.steps = 0;
        self.outcome = Ok(());
        self.agenda.push(Task::CancelAll);
        assert(self.agenda@ =~= seq![Task::CancelAll]);
    }

    /// Ends a replay and halts, which is where a recovered session starts, also
    /// one that had been killed. Leaving the halt is an operator's decision.
    pub fn end_replay(&mut self)
        ensures
            final(self)@ == (EngineView {
                replaying: false,
                state: EngineState::Halted,
                ..old(self)@
            }),
    {
        self.replaying = false;
        self.state = EngineState::Halted;
    }

    /// Whether the engine is re-deriving state rather than trading.
    pub fn is_replaying(&self) -> (replaying: bool)
        ensures
            replaying == self@.replaying,
    {
        self.replaying
    }

    /// Timer requests raised since the last call. The engine records them and
    /// does not fire them: the timer source is bound at the edge.
    pub fn take_timer_requests(&mut self, out: &mut Vec<TimerRequest>)
        ensures
            final(out)@ == old(out)@ + old(self)@.scheduled,
            final(self)@ == (EngineView { scheduled: Seq::empty(), ..old(self)@ }),
    {
        out.append(&mut self.scheduled);
    }

    /// Whether any reserved buffer is full, so that the next event may allocate.
    /// `stores_full` says so of what the owner keeps for the engine: orders,
    /// bars, venue reports and lots. The rest is [`any_full`] of the engine's own
    /// buffers: their lengths, and what the allocator gave, which no clause can
    /// name.
    pub fn would_allocate(&self, stores_full: bool) -> (full: bool)
        ensures
            stores_full ==> full,
    {
        any_full(
            stores_full,
            &[
                (self.queue.len(), capacity_of(&self.queue)),
                (self.intents.len(), capacity_of(&self.intents)),
                (self.timers.len(), capacity_of(&self.timers)),
                (self.scheduled.len(), capacity_of(&self.scheduled)),
            ],
        )
    }

    /// Where the engine is.
    pub fn state(&self) -> (state: EngineState)
        ensures
            state == self@.state,
    {
        self.state
    }

    /// The exchange time of the last event carrying one.
    pub fn now(&self) -> (now: ExchangeTime)
        ensures
            now == self@.now,
    {
        self.now
    }

    fn pop(&mut self)
        ensures
            old(self)@.agenda.len() > 0 ==> final(self)@ == old(self)@.popped(),
    {
        self.agenda.pop();
        assert(old(self)@.agenda.len() > 0 ==> self@ =~= old(self)@.popped());
    }

    fn push(&mut self, task: Task)
        ensures
            final(self)@ == old(self)@.pushed(task),
    {
        self.agenda.push(task);
    }

    fn fail(&mut self, error: EngineError)
        ensures
            final(self)@ == old(self)@.failed(error),
    {
        self.agenda.clear();
        self.outcome = Err(error);
    }

    fn unlogged(&mut self, error: LogError)
        ensures
            final(self)@ == old(self)@.unlogged(error),
    {
        if !matches!(self.state, EngineState::Killed) {
            self.state = EngineState::Halted;
        }
        self.fail(EngineError::Log(error));
    }

    fn absorb(&mut self, reply: Reply)
        ensures
            final(self)@ == old(self)@.raised(reply@),
    {
        if let Reply::Raised(raised) = reply {
            let mut raised = raised;
            self.intents.append(&mut raised.intents);
            self.timers.append(&mut raised.timers);
            self.cancels.append(&mut raised.cancels);
        }
    }

    fn transition(&mut self, to: EngineState, reason: StateReason)
        ensures
            final(self)@ == old(self)@.moved(to, reason),
    {
        let from = self.state;
        self.state = to;
        let caused_by = self.cause;
        self.push(Task::Record(Outbound::StateChanged { caused_by, from, to, reason }));
    }

    fn reject(&mut self, intent: &Intent, reason: RiskReason)
        ensures
            final(self)@ == old(self)@.refused(*intent, reason),
    {
        let caused_by = self.cause;
        self.push(
            Task::Tell(
                intent.strategy,
                Notice::IntentRefused {
                    instrument: intent.instrument,
                    side: intent.side,
                    qty: intent.qty,
                    reason,
                },
            ),
        );
        self.push(
            Task::Record(
                Outbound::IntentRejected {
                    caused_by,
                    strategy: intent.strategy,
                    instrument: intent.instrument,
                    side: intent.side,
                    qty: intent.qty,
                    reason,
                },
            ),
        );
    }

    /// Takes up a recorded input.
    fn begin(&mut self, event: Inbound)
        ensures
            final(self)@ == old(self)@.begun(event),
    {
        if let Some(at) = event.exchange_time() {
            self.now = at;
        }
        self.push(Task::FlushTimers);
        self.push(Task::FlushCancels);
        self.push(Task::FlushIntents);
        match event {
            Inbound::Market(m) => self.push(Task::Market(m)),
            Inbound::Venue(v) => self.push(Task::Report(v)),
            Inbound::VenuePosition(p) => self.push(Task::Observe(p)),
            Inbound::Timer(t) => self.push(
                Task::Tell(t.strategy, Notice::Timer { token: t.token }),
            ),
            Inbound::Command(c) => self.on_command(c.command),
        }
    }

    fn on_command(&mut self, command: Command)
        ensures
            final(self)@ == match command {
                Command::Halt => if old(self)@.state == EngineState::Running {
                    old(self)@.moved(EngineState::Halted, StateReason::OperatorCommand)
                } else {
                    old(self)@
                },
                Command::Resume => if old(self)@.state == EngineState::Halted {
                    old(self)@.pushed(Task::Resume)
                } else {
                    old(self)@
                },
                Command::Kill => if old(self)@.state != EngineState::Killed {
                    old(self)@.pushed(Task::CancelAll).moved(
                        EngineState::Killed,
                        StateReason::OperatorCommand,
                    )
                } else {
                    old(self)@.pushed(Task::CancelAll)
                },
                Command::Flatten => old(self)@.pushed(Task::Flatten),
            },
    {
        match command {
            Command::Halt => {
                if matches!(self.state, EngineState::Running) {
                    self.transition(EngineState::Halted, StateReason::OperatorCommand);
                }
            },
            Command::Resume => {
                if matches!(self.state, EngineState::Halted) {
                    self.push(Task::Resume);
                }
            },
            Command::Kill => {
                // The cancels come behind the record of the kill.
                self.push(Task::CancelAll);
                if !matches!(self.state, EngineState::Killed) {
                    self.transition(EngineState::Killed, StateReason::OperatorCommand);
                }
            },
            Command::Flatten => {
                self.push(Task::Flatten);
            },
        }
    }

    fn on_market(&mut self, m: MarketEvent)
        ensures
            final(self)@ == old(self)@.accepted(m),
    {
        if !matches!(m.kind, MarketKind::Level { .. }) {
            self.push(Task::Dispatch(m));
            self.push(Task::CloseBars(m.exchange_time));
        }
        self.push(Task::Show(m));
    }

    fn on_venue_report(&mut self, report: &VenueEvent, before: &OrderBrief, after: &OrderBrief)
        ensures
            final(self)@ == old(self)@.reported(*report, *before, *after),
    {
        match (before.phase, after.phase) {
            (OrderPhase::Terminal(_), _) => {},
            (_, OrderPhase::Terminal(state)) => self.push(
                Task::Tell(
                    after.strategy,
                    Notice::OrderDone {
                        order: after.id,
                        instrument: after.instrument,
                        side: after.side,
                        state,
                        unfilled: after.remaining,
                    },
                ),
            ),
            _ => {},
        }
        if matches!(before.phase, OrderPhase::Pending) && matches!(after.phase, OrderPhase::Working)
        {
            self.push(
                Task::Tell(
                    after.strategy,
                    Notice::OrderLive {
                        order: after.id,
                        instrument: after.instrument,
                        side: after.side,
                        qty: after.qty,
                        kind: after.kind,
                    },
                ),
            );
        }
        if let VenueKind::Filled { px, qty, fee } = report.kind {
            self.push(
                Task::Tell(
                    after.strategy,
                    Notice::Fill {
                        order: after.id,
                        instrument: after.instrument,
                        side: after.side,
                        px,
                        qty,
                        fee,
                    },
                ),
            );
            self.push(
                Task::Fill { instrument: after.instrument, side: after.side, qty, px, fee },
            );
        }
    }

    /// Raises a reduce-only intent for every instrument that is not flat.
    fn raise_flatten_intents(&mut self, held: &[Qty])
        requires
            held@.len() <= u32::MAX,
        ensures
            final(self)@ == (EngineView {
                intents: old(self)@.intents + flattening(held@, held@.len() as int),
                ..old(self)@
            }),
    {
        let mut i: usize = 0;
        assert(old(self)@.intents + flattening(held@, 0) =~= old(self)@.intents);
        while i < held.len()
            invariant
                i <= held@.len() <= u32::MAX,
                self@ == (EngineView {
                    intents: old(self)@.intents + flattening(held@, i as int),
                    ..old(self)@
                }),
            decreases held@.len() - i,
        {
            let qty: i64 = held[i].to_scaled();
            let ghost before = self@.intents;
            if qty != 0 {
                let side = if qty > 0 {
                    Side::Sell
                } else {
                    Side::Buy
                };
                let size: i64 = if qty == i64::MIN {
                    i64::MAX
                } else if qty < 0 {
                    -qty
                } else {
                    qty
                };
                self.intents.push(
                    Intent {
                        strategy: StrategyId::new(OPERATOR),
                        instrument: InstrumentId::new(i as u32),
                        side,
                        qty: Qty::from_scaled(size),
                        kind: OrderKind::Market,
                        reduce_only: true,
                    },
                );
            }
            i += 1;
            assert(self@.intents =~= old(self)@.intents + flattening(held@, i as int));
        }
    }

    /// Takes the next event off the queue.
    fn next_input(&mut self)
        requires
            old(self)@.steps <= MAX_CASCADE,
        ensures
            final(self)@ == ({
                let p = old(self)@;
                if p.queue.len() == 0 {
                    p.settled()
                } else if p.steps + 1 > MAX_CASCADE {
                    EngineView { queue: Seq::empty(), steps: p.steps + 1, ..p }.failed(
                        EngineError::EventStorm,
                    )
                } else {
                    EngineView { queue: p.queue.drop_first(), steps: p.steps + 1, ..p }.pushed(
                        Task::Next,
                    ).pushed(Task::Drain).pushed(Task::Step(p.queue[0]))
                }
            }),
    {
        if self.queue.len() == 0 {
            self.agenda.clear();
            self.outcome = Ok(());
            return ;
        }
        self.steps = self.steps + 1;
        if self.steps > MAX_CASCADE {
            self.queue.clear();
            self.fail(EngineError::EventStorm);
            return ;
        }
        let event = self.queue.remove(0);
        assert(self.queue@ =~= old(self)@.queue.drop_first());
        self.push(Task::Next);
        self.push(Task::Drain);
        self.push(Task::Step(event));
    }
}

impl EngineView {
    /// What holds of an engine between replies: it is within its bound, an input
    /// is recorded before anything is left to do about another, every decision
    /// on the agenda names the record being processed, an approved order is sent
    /// next, so is the cancel of an order by its owner, and a resume is
    /// considered only while halted.
    pub open spec fn sound(self) -> bool {
        &&& self.agenda.len() > 0 ==> self.steps <= MAX_CASCADE
        &&& forall|i: int|
            0 <= i < self.agenda.len() ==> match #[trigger] self.agenda[i] {
                Task::Next => i == 0,
                Task::Drain => i == 1 && self.agenda[0] == Task::Next,
                Task::Step(_) => self.agenda.len() == 3 && i == 2 && self.agenda[0] == Task::Next
                    && self.agenda[1] == Task::Drain,
                Task::Record(out) => out.cause() == self.cause,
                Task::Submit(_, _) => i == self.agenda.len() - 1,
                Task::CancelOne(_) => i == self.agenda.len() - 1,
                Task::Resume => i == self.agenda.len() - 1 && self.state == EngineState::Halted,
                _ => true,
            }
    }
}

proof fn begun_is_sound(s: EngineView, event: Inbound)
    requires
        s.steps <= MAX_CASCADE,
        s.agenda == seq![Task::Next, Task::Drain],
    ensures
        s.begun(event).sound(),
{
}

proof fn reported_is_sound(
    s: EngineView,
    report: VenueEvent,
    before: OrderBrief,
    after: OrderBrief,
)
    requires
        s.steps <= MAX_CASCADE,
        forall|i: int|
            0 <= i < s.agenda.len() ==> match #[trigger] s.agenda[i] {
                Task::Next => i == 0,
                Task::Drain => i == 1 && s.agenda[0] == Task::Next,
                Task::Step(_) => false,
                Task::Record(out) => out.cause() == s.cause,
                Task::Submit(_, _) => false,
                Task::CancelOne(_) => false,
                Task::Resume => false,
                _ => true,
            },
    ensures
        s.reported(report, before, after).sound(),
{
}

/// Every reply leaves an engine sound: in particular every decision it records
/// names the record that caused it.
pub proof fn replies_keep_engine_sound(s: EngineView, reply: ReplyView)
    requires
        s.sound(),
        s.agenda.len() > 0,
        answers(ask_of(s), reply),
    ensures
        stepped(s, reply).sound(),
{
    let p = s.popped();
    let task = s.agenda.last();
    assert(s.agenda[s.agenda.len() - 1] == task);
    assert forall|i: int| 0 <= i < p.agenda.len() implies match #[trigger] p.agenda[i] {
        Task::Next => i == 0,
        Task::Drain => i == 1 && p.agenda[0] == Task::Next,
        Task::Step(_) => false,
        Task::Record(out) => out.cause() == s.cause,
        Task::Submit(_, _) => false,
        Task::CancelOne(_) => false,
        Task::Resume => false,
        _ => true,
    } by {
        assert(p.agenda[i] == s.agenda[i]);
    }
    match task {
        Task::Step(event) => {
            assert(p.agenda =~= seq![Task::Next, Task::Drain]);
            if s.replaying {
                begun_is_sound(
                    EngineView {
                        replay_seq: (p.replay_seq + 1) as u64,
                        cause: SeqNo((p.replay_seq + 1) as u64),
                        ..p
                    },
                    event,
                );
            } else if let ReplyView::Recorded(Ok(seq)) = reply {
                begun_is_sound(EngineView { cause: seq, ..p }, event);
            }
        },
        Task::Report(v) => {
            if let ReplyView::Reported(Ok((before, after))) = reply {
                reported_is_sound(p, v, before, after);
            }
        },
        Task::Next => {
            assert(p.agenda.len() == 0);
        },
        _ => {},
    }
}

/// A killed engine stays killed, whatever it is told: no reply leads out. Of whole
/// sessions, [`crate::replay::a_killed_session_stays_killed`] says so. What a
/// recovery re-derives is another matter: [`Engine::end_replay`] halts it, whatever
/// state the crashed session was in.
pub proof fn killed_is_terminal(s: EngineView, reply: ReplyView)
    requires
        s.sound(),
        s.state == EngineState::Killed,
        answers(ask_of(s), reply),
    ensures
        stepped(s, reply).state == EngineState::Killed,
{
    assert(s.agenda.last() == s.agenda[s.agenda.len() - 1]);
}

/// A replay writes nothing: every one of its records is in the log already.
pub proof fn replay_writes_nothing(s: EngineView)
    requires
        s.replaying,
    ensures
        ask_of(s) !is Record,
{
}

/// An input is recorded before anything else is asked about it, what follows
/// names that record as its cause, and one that the log would not take goes no
/// further.
pub proof fn input_is_recorded_first(s: EngineView, recorded: Result<SeqNo, LogError>)
    requires
        s.sound(),
        !s.replaying,
        s.agenda == seq![Task::Next],
        s.queue.len() > 0,
        s.steps < MAX_CASCADE,
    ensures
        ({
            let taken = stepped(s, ReplyView::Done);
            let after = stepped(taken, ReplyView::Recorded(recorded));
            &&& ask_of(taken) == Ask::Record(Event::In(s.queue[0]))
            &&& match recorded {
                Ok(seq) => after.cause == seq,
                Err(e) => ask_of(after) == Ask::Settled(Err(EngineError::Log(e))),
            }
        }),
{
    assert(s.agenda.last() == Task::Next);
    let taken = stepped(s, ReplyView::Done);
    assert(taken.agenda.last() == Task::Step(s.queue[0]));
}

/// Every decision that is recorded names the input being processed.
pub proof fn decisions_name_their_cause(s: EngineView)
    requires
        s.sound(),
    ensures
        ask_of(s) matches Ask::Record(Event::Out(out)) ==> out.cause() == s.cause,
{
    if s.agenda.len() > 0 {
        assert(s.agenda.last() == s.agenda[s.agenda.len() - 1]);
    }
}

/// There is one way to an order: the venue is sent one only straight after the
/// risk gate approved that very order.
pub proof fn every_order_passed_the_gate(s: EngineView, reply: ReplyView)
    requires
        s.sound(),
        answers(ask_of(s), reply),
    ensures
        ask_of(stepped(s, reply)) matches Ask::Submit { order, .. } ==> {
            &&& ask_of(s) is CheckIntent
            &&& reply == ReplyView::Decided(Decision::Approved(order))
        },
{
    let after = stepped(s, reply);
    let n = s.agenda.len() as int;
    assert(s.agenda.last() == s.agenda[n - 1]);
    if n > 1 {
        assert(s.agenda[n - 2] !is Submit);
        assert(s.agenda.drop_last().last() == s.agenda[n - 2]);
    }
    if after.agenda.len() > 0 {
        assert(after.agenda.last() == after.agenda[after.agenda.len() - 1]);
    }
}

/// A strategy pulls its own orders and no others. The venue is asked to cancel an
/// order in a sweep of everything that is live, or straight after the order was
/// found live and to belong to the strategy that wants it gone. A request for
/// another's order changes nothing and records nothing.
pub proof fn only_the_owner_pulls_an_order(s: EngineView, reply: ReplyView)
    requires
        s.sound(),
        answers(ask_of(s), reply),
    ensures
        ask_of(stepped(s, reply)) matches Ask::Cancel { order, .. } ==> {
            ||| stepped(s, reply).agenda.last() is Sweep
            ||| {
                &&& s.agenda.last() matches Task::CheckOwner(i)
                &&& i < s.pulled.len()
                &&& ask_of(s) == Ask::LiveOwner(order)
                &&& order == s.pulled[i as int].order
                &&& reply == ReplyView::Owner(Some(s.pulled[i as int].strategy))
            }
        },
        s.agenda.last() matches Task::CheckOwner(i) ==> i < s.pulled.len() && reply
            != ReplyView::Owner(Some(s.pulled[i as int].strategy)) ==> stepped(s, reply)
            == s.popped().pushed(Task::CheckOwner((i + 1) as usize)),
{
    let after = stepped(s, reply);
    let n = s.agenda.len() as int;
    assert(s.agenda.last() == s.agenda[n - 1]);
    if n > 1 {
        assert(s.agenda[n - 2] !is CancelOne);
        assert(s.agenda.drop_last().last() == s.agenda[n - 2]);
    }
    if after.agenda.len() > 0 {
        assert(after.agenda.last() == after.agenda[after.agenda.len() - 1]);
    }
}

/// Once killed, an engine says so to the risk gate whenever it puts an intent to
/// it, reduce-only or not, and where it is refused there no order leaves.
pub proof fn nothing_leaves_after_a_kill(s: EngineView, reply: ReplyView)
    requires
        s.sound(),
        s.state == EngineState::Killed,
        answers(ask_of(s), reply),
        ask_of(s) is CheckIntent ==> reply matches ReplyView::Decided(Decision::Rejected(_)),
    ensures
        ask_of(s) matches Ask::CheckIntent { state, .. } ==> state == EngineState::Killed,
        ask_of(stepped(s, reply)) !is Submit,
        stepped(s, reply).state == EngineState::Killed,
{
    killed_is_terminal(s, reply);
    every_order_passed_the_gate(s, reply);
}

/// The kill switch works from every state: the engine is killed at once, that is
/// recorded unless it was killed before, and every live order is asked for.
pub proof fn kill_works_from_every_state(s: EngineView, command: CommandEvent)
    requires
        command.command == Command::Kill,
    ensures
        ({
            let killed = s.begun(Inbound::Command(command));
            let swept = if s.state == EngineState::Killed {
                killed
            } else {
                killed.popped()
            };
            &&& killed.state == EngineState::Killed
            &&& s.state != EngineState::Killed ==> killed.agenda.last() == Task::Record(
                Outbound::StateChanged {
                    caused_by: s.cause,
                    from: s.state,
                    to: EngineState::Killed,
                    reason: StateReason::OperatorCommand,
                },
            )
            &&& ask_of(swept) == Ask::LiveOrders
        }),
{
    let killed = s.begun(Inbound::Command(command));
    if s.state != EngineState::Killed {
        assert(killed.popped().agenda.last() == Task::CancelAll);
    }
}

/// A sweep asks the venue to cancel the order it is at and moves on to the next
/// one, whether or not the venue took the cancel.
pub proof fn sweep_passes_over_no_order(s: EngineView, i: usize, taken: bool)
    requires
        s.agenda.len() > 0,
        s.agenda.last() == Task::Sweep(i),
        i < s.swept.len(),
        i < usize::MAX,
    ensures
        ask_of(s) == (Ask::Cancel { order: s.swept[i as int], at: s.now }),
        ({
            let after = stepped(s, ReplyView::Answer(taken));
            let on = if taken {
                after.popped()
            } else {
                after
            };
            &&& taken ==> after.agenda.last() == Task::Record(
                Outbound::CancelSubmitted { caused_by: s.cause, order: s.swept[i as int] },
            )
            &&& on == s.popped().pushed(Task::Sweep((i + 1) as usize))
        }),
{
    let after = stepped(s, ReplyView::Answer(taken));
    if taken {
        assert(after.popped() =~= s.popped().pushed(Task::Sweep((i + 1) as usize)));
    }
}

/// A divergence between the books and the venue halts a running engine, and no
/// resume leaves the halt while one is left: the refusal is on record.
pub proof fn divergence_holds_the_engine(s: EngineView, position: PositionReport)
    requires
        s.agenda.len() > 0,
    ensures
        s.agenda.last() == Task::Observe(position) && s.state == EngineState::Running ==> stepped(
            s,
            ReplyView::Observed(Some(true)),
        ).state == EngineState::Halted,
        s.agenda.last() == Task::Resume && s.state == EngineState::Halted ==> {
            let refused = stepped(s, ReplyView::Answer(true));
            &&& refused.state == EngineState::Halted
            &&& refused.agenda.last() == Task::Record(
                Outbound::StateChanged {
                    caused_by: s.cause,
                    from: EngineState::Halted,
                    to: EngineState::Halted,
                    reason: StateReason::ReconciliationDivergence,
                },
            )
        },
{
}

/// A record that the log would not take stops the engine: nothing more is done
/// about the input, and no new risk is taken.
pub proof fn failed_append_halts(s: EngineView, error: LogError)
    requires
        ask_of(s) is Record,
    ensures
        ({
            let after = stepped(s, ReplyView::Recorded(Err(error)));
            &&& ask_of(after) == Ask::Settled(Err(EngineError::Log(error)))
            &&& after.state != EngineState::Running
        }),
{
}

/// One input cascades into a bounded number of events: past the bound the rest
/// is dropped and the storm reported.
pub proof fn storm_is_bounded(s: EngineView, reply: ReplyView)
    requires
        s.sound(),
        answers(ask_of(s), reply),
    ensures
        stepped(s, reply).agenda.len() > 0 ==> stepped(s, reply).steps <= MAX_CASCADE,
        s.agenda.last() == Task::Next && s.queue.len() > 0 && s.steps == MAX_CASCADE ==> {
            &&& stepped(s, reply).queue.len() == 0
            &&& ask_of(stepped(s, reply)) == Ask::Settled(Err(EngineError::EventStorm))
        },
{
    replies_keep_engine_sound(s, reply);
}

impl Engine {
    /// Takes up an input once it is recorded, or is known to be.
    fn step(&mut self, event: Inbound, reply: Reply)
        requires
            old(self)@.replay_seq < u64::MAX,
        ensures
            final(self)@ == ({
                let p = old(self)@;
                if p.replaying {
                    EngineView {
                        replay_seq: (p.replay_seq + 1) as u64,
                        cause: SeqNo((p.replay_seq + 1) as u64),
                        ..p
                    }.begun(event)
                } else {
                    match reply@ {
                        ReplyView::Recorded(Ok(seq)) => EngineView { cause: seq, ..p }.begun(event),
                        ReplyView::Recorded(Err(e)) => p.unlogged(e),
                        _ => p,
                    }
                }
            }),
    {
        if self.replaying {
            self.replay_seq = self.replay_seq + 1;
            self.cause = SeqNo::new(self.replay_seq);
            self.begin(event);
        } else {
            match reply {
                Reply::Recorded(Ok(seq)) => {
                    self.cause = seq;
                    self.begin(event);
                },
                Reply::Recorded(Err(e)) => self.unlogged(e),
                _ => {},
            }
        }
    }

    /// Goes on through the orders that are being cancelled. One that the venue
    /// would not take is moved past: the kill switch works from every state.
    fn sweep(&mut self, i: usize, reply: Reply)
        ensures
            final(self)@ == ({
                let p = old(self)@;
                if i < p.swept.len() {
                    let on = p.pushed(Task::Sweep((i + 1) as usize));
                    match reply@ {
                        ReplyView::Answer(true) => on.pushed(
                            Task::Record(
                                Outbound::CancelSubmitted {
                                    caused_by: p.cause,
                                    order: p.swept[i as int],
                                },
                            ),
                        ),
                        _ => on,
                    }
                } else {
                    p
                }
            }),
    {
        if i < self.swept.len() {
            let order = self.swept[i];
            let caused_by = self.cause;
            self.push(Task::Sweep(i + 1));
            if let Reply::Answer(true) = reply {
                self.push(Task::Record(Outbound::CancelSubmitted { caused_by, order }));
            }
        }
    }

    /// Takes up the intents raised so far. What a strategy raises in response to
    /// a refusal waits for the next event.
    fn flush_intents(&mut self)
        ensures
            final(self)@ == (EngineView {
                gated: old(self)@.intents,
                intents: Seq::empty(),
                ..old(self)@
            }).pushed(Task::Gate(0)),
    {
        self.gated.clear();
        self.gated.append(&mut self.intents);
        assert(self.gated@ =~= old(self)@.intents);
        self.push(Task::Gate(0));
    }

    /// Goes on through the intents. Each goes through the risk gate: there is no
    /// other way to an order.
    fn gate(&mut self, i: usize, reply: Reply)
        ensures
            final(self)@ == ({
                let p = old(self)@;
                if i < p.gated.len() {
                    let on = p.pushed(Task::Gate((i + 1) as usize));
                    let intent = p.gated[i as int];
                    if intent.instrument.0 < p.instruments.len() {
                        match reply@ {
                            ReplyView::Decided(Decision::Approved(order)) => on.pushed(
                                Task::Submit(intent, order),
                            ),
                            ReplyView::Decided(Decision::Rejected(reason)) => on.refused(
                                intent,
                                reason,
                            ),
                            _ => on,
                        }
                    } else {
                        on.refused(intent, RiskReason::UnknownInstrument)
                    }
                } else {
                    p
                }
            }),
    {
        if i < self.gated.len() {
            let intent = self.gated[i];
            self.push(Task::Gate(i + 1));
            if (intent.instrument.raw() as usize) < self.instruments.len() {
                match reply {
                    Reply::Decided(Decision::Approved(order)) => self.push(
                        Task::Submit(intent, order),
                    ),
                    Reply::Decided(Decision::Rejected(reason)) => self.reject(&intent, reason),
                    _ => {},
                }
            } else {
                self.reject(&intent, RiskReason::UnknownInstrument);
            }
        }
    }

    /// Goes on once an approved order was sent, or could not be. The log never
    /// has an order that never went anywhere.
    fn submitted(&mut self, intent: &Intent, order: &ApprovedOrder, reply: Reply)
        ensures
            final(self)@ == ({
                let p = old(self)@;
                match reply@ {
                    ReplyView::Sent(Sent::Submitted(id)) => p.pushed(
                        Task::Record(
                            Outbound::OrderSubmitted {
                                caused_by: p.cause,
                                order: id,
                                strategy: order.strategy,
                                instrument: order.instrument,
                                side: order.side,
                                qty: order.qty,
                                kind: order.kind,
                                reduce_only: order.reduce_only,
                            },
                        ),
                    ),
                    ReplyView::Sent(Sent::Unreachable) => p.refused(
                        *intent,
                        RiskReason::VenueUnreachable,
                    ),
                    ReplyView::Sent(Sent::Refused(said)) => p.failed(EngineError::Oms(said)),
                    _ => p,
                }
            }),
    {
        let caused_by = self.cause;
        match reply {
            Reply::Sent(Sent::Submitted(id)) => self.push(
                Task::Record(
                    Outbound::OrderSubmitted {
                        caused_by,
                        order: id,
                        strategy: order.strategy,
                        instrument: order.instrument,
                        side: order.side,
                        qty: order.qty,
                        kind: order.kind,
                        reduce_only: order.reduce_only,
                    },
                ),
            ),
            Reply::Sent(Sent::Unreachable) => self.reject(intent, RiskReason::VenueUnreachable),
            Reply::Sent(Sent::Refused(said)) => self.fail(EngineError::Oms(said)),
            _ => {},
        }
    }

    /// Takes up the cancels strategies asked for. A cancel is not put to the
    /// gate: pulling an order only ever reduces exposure.
    fn flush_strategy_cancels(&mut self)
        ensures
            final(self)@ == (EngineView {
                pulled: old(self)@.cancels,
                cancels: Seq::empty(),
                ..old(self)@
            }).pushed(Task::CheckOwner(0)),
    {
        self.pulled.clear();
        self.pulled.append(&mut self.cancels);
        assert(self.pulled@ =~= old(self)@.cancels);
        self.push(Task::CheckOwner(0));
    }

    /// Goes on through the cancels. A strategy pulls its own orders and no
    /// others: the log would show a cancel with no honest author. One for an
    /// order that is not live is no error: a fill and a cancel crossed.
    fn check_owner(&mut self, i: usize, reply: Reply)
        ensures
            final(self)@ == ({
                let p = old(self)@;
                if i < p.pulled.len() {
                    let on = p.pushed(Task::CheckOwner((i + 1) as usize));
                    if reply@ == ReplyView::Owner(Some(p.pulled[i as int].strategy)) {
                        on.pushed(Task::CancelOne(p.pulled[i as int].order))
                    } else {
                        on
                    }
                } else {
                    p
                }
            }),
    {
        if i < self.pulled.len() {
            let request = self.pulled[i];
            self.push(Task::CheckOwner(i + 1));
            if let Reply::Owner(Some(owner)) = reply {
                if owner == request.strategy {
                    self.push(Task::CancelOne(request.order));
                }
            }
        }
    }

    /// Takes up the timers strategies asked for.
    fn flush_timer_requests(&mut self)
        ensures
            final(self)@ == (EngineView {
                requested: old(self)@.timers,
                timers: Seq::empty(),
                ..old(self)@
            }).pushed(Task::Timer(0)),
    {
        self.requested.clear();
        self.requested.append(&mut self.timers);
        assert(self.requested@ =~= old(self)@.timers);
        self.push(Task::Timer(0));
    }

    /// Goes on through the timers: each is recorded, then passed on.
    fn pass_timer(&mut self, i: usize, reply: Reply)
        ensures
            final(self)@ == ({
                let p = old(self)@;
                if i < p.requested.len() {
                    match reply@ {
                        ReplyView::Recorded(Err(e)) => p.unlogged(e),
                        _ => EngineView {
                            scheduled: p.scheduled.push(p.requested[i as int]),
                            ..p
                        }.pushed(Task::Timer((i + 1) as usize)),
                    }
                } else {
                    p
                }
            }),
    {
        if i < self.requested.len() {
            if let Reply::Recorded(Err(e)) = reply {
                self.unlogged(e);
                return ;
            }
            let request = self.requested[i];
            self.scheduled.push(request);
            self.push(Task::Timer(i + 1));
        }
    }
}

impl Engine {
    /// What the engine asks next.
    pub fn ask(&self) -> (ask: Ask)
        ensures
            ask == ask_of(self@),
    {
        if self.agenda.len() == 0 {
            return Ask::Settled(
                match &self.outcome {
                    Ok(done) => Ok(*done),
                    Err(e) => Err(e.copied()),
                },
            );
        }
        match self.agenda[self.agenda.len() - 1] {
            Task::Next | Task::FlushIntents | Task::FlushCancels | Task::FlushTimers => {
                Ask::Proceed
            },
            Task::Drain => Ask::DrainVenue,
            Task::Step(event) => if self.replaying {
                Ask::Proceed
            } else {
                Ask::Record(Event::In(event))
            },
            Task::Market(m) => Ask::ApplyMarket(m),
            Task::Show(m) => Ask::ShowVenue(m),
            Task::CloseBars(at) => Ask::CloseBars(at),
            Task::Bar { next, count } => if next < count {
                Ask::DispatchBar(next)
            } else {
                Ask::Proceed
            },
            Task::Dispatch(m) => match m.kind {
                MarketKind::Quote { .. } | MarketKind::BookApplied => Ask::DispatchQuote(
                    m.instrument,
                ),
                MarketKind::Trade { px, qty, aggressor } => Ask::DispatchTrade {
                    instrument: m.instrument,
                    px,
                    qty,
                    aggressor,
                },
                MarketKind::Level { .. } | MarketKind::BookReset => Ask::Proceed,
            },
            Task::Fold { instrument, px, qty, at } => Ask::FoldTrade { instrument, px, qty, at },
            Task::Report(v) => Ask::ApplyReport(v),
            Task::Fill { instrument, side, qty, px, fee } => Ask::ApplyFill {
                instrument,
                side,
                qty,
                px,
                fee,
            },
            Task::Tell(strategy, notice) => if (strategy.raw() as usize) < self.strategies {
                Ask::Tell(strategy, notice)
            } else {
                Ask::Proceed
            },
            Task::Observe(p) => Ask::ObservePosition(p),
            Task::Resume => Ask::AnyDiverged,
            Task::CancelAll => Ask::LiveOrders,
            Task::Sweep(i) => if i < self.swept.len() {
                Ask::Cancel { order: self.swept[i], at: self.now }
            } else {
                Ask::Proceed
            },
            Task::Flatten => Ask::Holdings,
            Task::Gate(i) => if i < self.gated.len() && (self.gated[i].instrument.raw() as usize)
                < self.instruments.len() {
                let intent = self.gated[i];
                Ask::CheckIntent {
                    intent,
                    instrument: self.instruments[intent.instrument.raw() as usize],
                    state: self.state,
                    now: self.now,
                }
            } else {
                Ask::Proceed
            },
            Task::Submit(_, order) => Ask::Submit { order, now: self.now },
            Task::CheckOwner(i) => if i < self.pulled.len() {
                Ask::LiveOwner(self.pulled[i].order)
            } else {
                Ask::Proceed
            },
            Task::CancelOne(order) => Ask::Cancel { order, at: self.now },
            Task::Timer(i) => if i < self.requested.len() && !self.replaying {
                let request = self.requested[i];
                Ask::Record(
                    Event::Out(
                        Outbound::TimerRequested {
                            caused_by: self.cause,
                            strategy: request.strategy,
                            token: request.token,
                            at: request.at,
                        },
                    ),
                )
            } else {
                Ask::Proceed
            },
            Task::Record(out) => if self.replaying {
                Ask::Proceed
            } else {
                Ask::Record(Event::Out(out))
            },
        }
    }

    /// Goes on from a reply to what was asked.
    pub fn advance(&mut self, reply: Reply)
        requires
            old(self)@.sound(),
            answers(ask_of(old(self)@), reply@),
            old(self)@.replay_seq < u64::MAX,
        ensures
            final(self)@ == stepped(old(self)@, reply@),
            final(self)@.sound(),
    {
        proof {
            replies_keep_engine_sound(old(self)@, reply@);
        }
        let task = self.agenda[self.agenda.len() - 1];
        self.pop();
        match task {
            Task::Next => {
                self.next_input();
            },
            Task::Drain => {
                if let Reply::Reports(reports) = reply {
                    let mut reports = reports;
                    self.queue.append(&mut reports);
                }
            },
            Task::Step(event) => {
                self.step(event, reply);
            },
            Task::Market(m) => {
                match reply {
                    Reply::Applied(Applied::Accepted) => self.on_market(m),
                    Reply::Applied(Applied::UnknownInstrument) => self.fail(
                        EngineError::UnknownInstrument,
                    ),
                    _ => {},
                }
            },
            Task::Show(_) => {},
            Task::CloseBars(_) => {
                if let Reply::Bars(Ok(count)) = reply {
                    self.push(Task::Bar { next: 0, count });
                }
            },
            Task::Bar { next, count } => {
                if next < count {
                    self.absorb(reply);
                    self.push(Task::Bar { next: next + 1, count });
                }
            },
            Task::Dispatch(m) => {
                self.absorb(reply);
                if let MarketKind::Trade { px, qty, .. } = m.kind {
                    self.push(
                        Task::Fold { instrument: m.instrument, px, qty, at: m.exchange_time },
                    );
                }
            },
            Task::Fold { .. } => {
                match reply {
                    Reply::Bars(Ok(count)) => self.push(Task::Bar { next: 0, count }),
                    Reply::Bars(Err(said)) => self.fail(EngineError::Aggregate(said)),
                    _ => {},
                }
            },
            Task::Report(v) => {
                match reply {
                    Reply::Reported(Ok((before, after))) => self.on_venue_report(
                        &v,
                        &before,
                        &after,
                    ),
                    Reply::Reported(Err(said)) => self.fail(EngineError::Oms(said)),
                    _ => {},
                }
            },
            Task::Fill { .. } => {
                if let Reply::Filled(Err(said)) = reply {
                    self.fail(EngineError::Position(said));
                }
            },
            Task::Tell(_, _) => {
                self.absorb(reply);
            },
            Task::Observe(_) => {
                match reply {
                    Reply::Observed(Some(diverged)) => {
                        if diverged && matches!(self.state, EngineState::Running) {
                            self.transition(
                                EngineState::Halted,
                                StateReason::ReconciliationDivergence,
                            );
                        }
                    },
                    _ => self.fail(EngineError::UnknownInstrument),
                }
            },
            Task::Resume => {
                match reply {
                    // Resuming out of a divergence is impossible until the books
                    // agree. The refusal is recorded as a transition to the same
                    // state, so that it is in the log.
                    Reply::Answer(true) => self.transition(
                        EngineState::Halted,
                        StateReason::ReconciliationDivergence,
                    ),
                    _ => self.transition(EngineState::Running, StateReason::OperatorCommand),
                }
            },
            Task::CancelAll => {
                if let Reply::Orders(orders) = reply {
                    self.swept = orders;
                    self.push(Task::Sweep(0));
                }
            },
            Task::Sweep(i) => {
                self.sweep(i, reply);
            },
            Task::Flatten => {
                if let Reply::Held(held) = reply {
                    self.raise_flatten_intents(held.as_slice());
                }
            },
            Task::FlushIntents => {
                self.flush_intents();
            },
            Task::Gate(i) => {
                self.gate(i, reply);
            },
            Task::Submit(intent, order) => {
                self.submitted(&intent, &order, reply);
            },
            Task::FlushCancels => {
                self.flush_strategy_cancels();
            },
            Task::CheckOwner(i) => {
                self.check_owner(i, reply);
            },
            Task::CancelOne(order) => {
                if let Reply::Answer(true) = reply {
                    let caused_by = self.cause;
                    self.push(Task::Record(Outbound::CancelSubmitted { caused_by, order }));
                }
            },
            Task::FlushTimers => {
                self.flush_timer_requests();
            },
            Task::Timer(i) => {
                self.pass_timer(i, reply);
            },
            Task::Record(_) => {
                if let Reply::Recorded(Err(e)) = reply {
                    self.unlogged(e);
                }
            },
        }
    }
}

/// Where inputs come from. The feed also owns the timer source: timers fire off
/// recorded time in a backtest and off a real clock live.
pub trait FeedAdapter {
    /// Whether the feed is in order.
    spec fn ready(&self) -> bool;

    /// The next input, or `None` when the feed is exhausted.
    fn next_event(&mut self) -> (event: Option<Inbound>)
        requires
            old(self).ready(),
        ensures
            final(self).ready(),
    ;

    /// Takes a timer request a strategy raised. A feed that cannot produce
    /// timers drops it.
    fn schedule_timer(&mut self, request: TimerRequest)
        requires
            old(self).ready(),
        ensures
            final(self).ready(),
    {
    }
}

} // verus!
