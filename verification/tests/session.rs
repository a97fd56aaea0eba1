//! End-to-end sessions: an engine, and a desk that does what the engine asks.
//!
//! Everything runs offline against scripted inputs and a simulated venue.

use std::cell::RefCell;
use std::collections::hash_map::DefaultHasher;
use std::hash::{Hash, Hasher};
use std::rc::Rc;

use ultra_trade::engine::{
    Applied, ApprovedOrder, Ask, CancelRequest, Decision, Ending, Engine, EngineConfig,
    EngineError, Notice, OrderBrief, OrderPhase, Raised, Reply, Sent, OPERATOR,
};
use ultra_trade::event::codec::{InstrumentEntry, LogHeader};
use ultra_trade::event::{
    Command, CommandEvent, Cursor, EngineState, Event, EventLog, Inbound, Intent, LogError,
    LogFileError, LogReader, LogWriter, MarketEvent, MarketKind, MemoryLog, OrderKind, Outbound,
    PositionReport, Record, RiskReason, SeqNo, StateReason, StopReason, TimerToken, VenueEvent,
    VenueKind,
};
use ultra_trade::historical::{HistoricalFeed, Replaying};
use ultra_trade::live::{
    command_of, parse_line, Arrival, ControlWord, LiveFeed, ManualClock, Poll, Symbols,
};
use ultra_trade::sim::{Fees, FillModel, SimVenue, TopOfBook, VenueOrder};
use ultra_trade::timer::TimerRequest;
use ultra_trade::value::{
    ExchangeSpan, ExchangeTime, Instrument, InstrumentId, OrderId, Px, Qty, ReceiveTime, Side,
    StrategyId, SCALE,
};
use ultra_trade::words::fields;

const I: InstrumentId = InstrumentId(0);

fn px(whole: i64) -> Px {
    Px::from_scaled(whole * SCALE)
}

fn qty(whole: i64) -> Qty {
    Qty::from_scaled(whole * SCALE)
}

fn instrument_at(id: u32) -> Instrument {
    // Tick 0.01, lot 1, minimum 1.
    Instrument {
        id: InstrumentId::new(id),
        tick: Px::from_scaled(10_000_000),
        lot: qty(1),
        min_qty: qty(1),
    }
}

fn config_of(instruments: u32) -> EngineConfig {
    EngineConfig::new(
        (0..instruments).map(instrument_at).collect(),
        OrderId::new(0),
        ExchangeTime::from_nanos(0),
    )
}

fn sim_of(instruments: usize, fees: Fees) -> SimVenue {
    SimVenue::new(
        instruments,
        FillModel::TouchDisplayed,
        fees,
        ExchangeSpan::from_nanos(0),
    )
}

fn sim() -> SimVenue {
    sim_of(1, Fees::none())
}

// ---- inputs --------------------------------------------------------------

fn market_at(instrument: InstrumentId, at: i64, seen: i64, kind: MarketKind) -> Inbound {
    Inbound::Market(MarketEvent {
        instrument,
        exchange_time: ExchangeTime::from_nanos(at),
        receive_time: ReceiveTime::from_nanos(seen),
        kind,
    })
}

fn quote(at: i64, bid: i64, bid_size: i64, ask: i64, ask_size: i64) -> Inbound {
    market_at(
        I,
        at,
        at,
        MarketKind::Quote {
            bid_px: px(bid),
            bid_qty: qty(bid_size),
            ask_px: px(ask),
            ask_qty: qty(ask_size),
        },
    )
}

fn trade(at: i64, price: i64, size: i64, aggressor: Side) -> Inbound {
    market_at(
        I,
        at,
        at,
        MarketKind::Trade {
            px: px(price),
            qty: qty(size),
            aggressor,
        },
    )
}

fn command(at: i64, command: Command) -> Inbound {
    Inbound::Command(CommandEvent {
        command,
        receive_time: ReceiveTime::from_nanos(at),
    })
}

fn venue_position(at: i64, held: i64) -> Inbound {
    Inbound::VenuePosition(PositionReport {
        instrument: I,
        venue_qty: qty(held),
        venue_time: ExchangeTime::from_nanos(at),
        receive_time: ReceiveTime::from_nanos(at),
    })
}

// ---- venues --------------------------------------------------------------

trait Venue {
    fn submit(&mut self, order: &VenueOrder, top: Option<TopOfBook>, at: ExchangeTime) -> bool;
    fn cancel(&mut self, id: OrderId) -> bool;
    fn drain(&mut self, out: &mut Vec<Inbound>);
    fn observe(&mut self, _market: &MarketEvent, _top: Option<TopOfBook>) {}
}

impl Venue for SimVenue {
    fn submit(&mut self, order: &VenueOrder, top: Option<TopOfBook>, _at: ExchangeTime) -> bool {
        SimVenue::submit(self, order, top, &[]).is_ok()
    }

    fn cancel(&mut self, id: OrderId) -> bool {
        SimVenue::cancel(self, id).is_ok()
    }

    fn drain(&mut self, out: &mut Vec<Inbound>) {
        SimVenue::drain(self, out);
    }

    fn observe(&mut self, market: &MarketEvent, top: Option<TopOfBook>) {
        self.observe_market(market, true, top);
    }
}

/// A venue that takes everything and never answers. It holds an order in a state
/// a real venue would move it out of; and in a replay the venue's reports are
/// already among the recorded inputs.
#[derive(Default)]
struct SilentVenue {
    submitted: Vec<OrderId>,
    cancelled: Vec<OrderId>,
}

impl Venue for SilentVenue {
    fn submit(&mut self, order: &VenueOrder, _top: Option<TopOfBook>, _at: ExchangeTime) -> bool {
        self.submitted.push(order.id);
        true
    }

    fn cancel(&mut self, id: OrderId) -> bool {
        self.cancelled.push(id);
        true
    }

    fn drain(&mut self, _out: &mut Vec<Inbound>) {}
}

/// Acknowledges orders, then refuses to be reached.
#[derive(Default)]
struct LinkDrops {
    pending: Vec<Inbound>,
    cancel_attempts: usize,
}

impl Venue for LinkDrops {
    fn submit(&mut self, order: &VenueOrder, _top: Option<TopOfBook>, at: ExchangeTime) -> bool {
        self.pending.push(Inbound::Venue(VenueEvent {
            order: order.id,
            venue_time: at,
            receive_time: ReceiveTime::from_nanos(at.to_nanos()),
            kind: VenueKind::Accepted,
        }));
        true
    }

    fn cancel(&mut self, _id: OrderId) -> bool {
        self.cancel_attempts += 1;
        false
    }

    fn drain(&mut self, out: &mut Vec<Inbound>) {
        out.append(&mut self.pending);
    }
}

// ---- strategies ----------------------------------------------------------

#[derive(Debug, Clone, Copy)]
struct Bar {
    instrument: InstrumentId,
    open_time: ExchangeTime,
    close_time: ExchangeTime,
    close: Px,
}

enum Seen<'a> {
    Quote {
        instrument: InstrumentId,
        top: &'a TopOfBook,
        at: ExchangeTime,
    },
    Trade,
    Bar {
        subscription: usize,
        bar: &'a Bar,
    },
    Notice(&'a Notice),
}

trait Strategy {
    fn on_event(&mut self, event: &Seen<'_>, now: ExchangeTime, out: &mut Raised);
}

fn order_from(id: u16, instrument: InstrumentId, side: Side, size: Qty, kind: OrderKind) -> Intent {
    Intent {
        strategy: StrategyId::new(id),
        instrument,
        side,
        qty: size,
        kind,
        reduce_only: false,
    }
}

/// Buys once, the first time it sees a quote.
struct BuyOnce {
    done: bool,
    size: i64,
    kind: OrderKind,
}

impl BuyOnce {
    /// Takes whatever the touch offers.
    fn market(size: i64) -> Box<BuyOnce> {
        Box::new(BuyOnce {
            done: false,
            size,
            kind: OrderKind::Market,
        })
    }

    /// Rests, if the price is not marketable.
    fn limit(size: i64, price: Px) -> Box<BuyOnce> {
        Box::new(BuyOnce {
            done: false,
            size,
            kind: OrderKind::Limit(price),
        })
    }
}

impl Strategy for BuyOnce {
    fn on_event(&mut self, event: &Seen<'_>, _now: ExchangeTime, out: &mut Raised) {
        if let Seen::Quote { instrument, .. } = event {
            if !self.done {
                self.done = true;
                out.intents
                    .push(order_from(0, *instrument, Side::Buy, qty(self.size), self.kind));
            }
        }
    }
}

/// Wants to trade on every quote, so a session is never quiet by accident.
struct AlwaysWants {
    side: Side,
    kind: OrderKind,
    size: i64,
}

impl AlwaysWants {
    fn to_buy(kind: OrderKind, size: i64) -> Box<AlwaysWants> {
        Box::new(AlwaysWants {
            side: Side::Buy,
            kind,
            size,
        })
    }
}

impl Strategy for AlwaysWants {
    fn on_event(&mut self, event: &Seen<'_>, _now: ExchangeTime, out: &mut Raised) {
        if let Seen::Quote { instrument, .. } = event {
            out.intents
                .push(order_from(0, *instrument, self.side, qty(self.size), self.kind));
        }
    }
}

/// Long above the average of its last closes, short below it.
struct Crossover {
    id: u16,
    instrument: InstrumentId,
    subscription: usize,
    window: usize,
    size: i64,
    closes: Vec<i64>,
    held: i64,
}

impl Crossover {
    fn new(
        id: u16,
        instrument: InstrumentId,
        subscription: usize,
        window: usize,
        size: i64,
    ) -> Crossover {
        Crossover {
            id,
            instrument,
            subscription,
            window,
            size,
            closes: Vec::new(),
            held: 0,
        }
    }
}

impl Strategy for Crossover {
    fn on_event(&mut self, event: &Seen<'_>, _now: ExchangeTime, out: &mut Raised) {
        match event {
            Seen::Notice(Notice::Fill { side, qty, .. }) => {
                let size = qty.to_scaled() / SCALE;
                self.held += if *side == Side::Buy { size } else { -size };
            }
            Seen::Bar { subscription, bar } if *subscription == self.subscription => {
                self.closes.push(bar.close.to_scaled());
                if self.closes.len() > self.window {
                    self.closes.remove(0);
                }
                if self.closes.len() < self.window {
                    return;
                }
                let sum: i64 = self.closes.iter().sum();
                let scaled = bar.close.to_scaled() * self.window as i64;
                let want = if scaled > sum {
                    self.size
                } else if scaled < sum {
                    -self.size
                } else {
                    return;
                };
                let gap = want - self.held;
                if gap != 0 {
                    let side = if gap > 0 { Side::Buy } else { Side::Sell };
                    out.intents.push(order_from(
                        self.id,
                        self.instrument,
                        side,
                        qty(gap.abs()),
                        OrderKind::Market,
                    ));
                }
            }
            _ => {}
        }
    }
}

/// Rests a bid and an ask around the midpoint, and pulls them when it moves.
struct Quoter {
    half_spread: Px,
    size: Qty,
    reprice: Px,
    max_inventory: Qty,
    held: i64,
    mid: i64,
    sides: [QuoteSide; 2],
}

#[derive(Clone, Copy, PartialEq)]
enum QuoteSide {
    Empty,
    Asked,
    Resting(OrderId),
    Pulling,
}

impl Quoter {
    fn new(half_spread: i64, reprice: i64, max_inventory: i64) -> Box<Quoter> {
        Box::new(Quoter {
            half_spread: px(half_spread),
            size: qty(1),
            reprice: px(reprice),
            max_inventory: qty(max_inventory),
            held: 0,
            mid: 0,
            sides: [QuoteSide::Empty; 2],
        })
    }

    fn slot(side: Side) -> usize {
        if side == Side::Buy {
            0
        } else {
            1
        }
    }
}

impl Strategy for Quoter {
    fn on_event(&mut self, event: &Seen<'_>, _now: ExchangeTime, out: &mut Raised) {
        match event {
            Seen::Quote { instrument, top, .. } => {
                let mid = (top.bid_px.to_scaled() + top.ask_px.to_scaled()) / 2;
                let drift = (mid - self.mid).abs();
                let mut moved = false;
                for side in [Side::Buy, Side::Sell] {
                    if let QuoteSide::Resting(order) = self.sides[Quoter::slot(side)] {
                        if drift > self.reprice.to_scaled() {
                            self.sides[Quoter::slot(side)] = QuoteSide::Pulling;
                            out.cancels.push(CancelRequest {
                                strategy: StrategyId::new(0),
                                order,
                            });
                            moved = true;
                        }
                    }
                }
                if moved {
                    return;
                }
                for side in [Side::Buy, Side::Sell] {
                    if self.sides[Quoter::slot(side)] != QuoteSide::Empty {
                        continue;
                    }
                    let signed = if side == Side::Buy { 1 } else { -1 };
                    let after = self.held + signed * self.size.to_scaled();
                    if after.abs() > self.max_inventory.to_scaled() {
                        continue;
                    }
                    self.mid = mid;
                    self.sides[Quoter::slot(side)] = QuoteSide::Asked;
                    let price = Px::from_scaled(mid - signed * self.half_spread.to_scaled());
                    out.intents
                        .push(order_from(0, *instrument, side, self.size, OrderKind::Limit(price)));
                }
            }
            Seen::Notice(Notice::OrderLive { order, side, .. }) => {
                self.sides[Quoter::slot(*side)] = QuoteSide::Resting(*order);
            }
            Seen::Notice(Notice::OrderDone { side, .. }) => {
                self.sides[Quoter::slot(*side)] = QuoteSide::Empty;
            }
            Seen::Notice(Notice::IntentRefused { side, .. }) => {
                self.sides[Quoter::slot(*side)] = QuoteSide::Empty;
            }
            Seen::Notice(Notice::Fill { side, qty, .. }) => {
                self.held += if *side == Side::Buy { qty.to_scaled() } else { -qty.to_scaled() };
            }
            _ => {}
        }
    }
}

/// Keeps every top of book it is shown, in order.
struct BookWatcher {
    inner: Crossover,
    seen: Rc<RefCell<Vec<TopOfBook>>>,
}

impl Strategy for BookWatcher {
    fn on_event(&mut self, event: &Seen<'_>, now: ExchangeTime, out: &mut Raised) {
        if let Seen::Quote { top, .. } = event {
            self.seen.borrow_mut().push(**top);
        }
        self.inner.on_event(event, now, out);
    }
}

// ---- the desk ------------------------------------------------------------

#[derive(Debug, Clone, Copy, PartialEq)]
enum OrderState {
    Pending,
    Working,
    PendingCancel,
    Filled,
    Cancelled,
    Rejected,
}

impl OrderState {
    fn is_terminal(self) -> bool {
        matches!(
            self,
            OrderState::Filled | OrderState::Cancelled | OrderState::Rejected
        )
    }
}

#[derive(Debug, Clone, Copy)]
struct Order {
    id: OrderId,
    strategy: StrategyId,
    instrument: InstrumentId,
    side: Side,
    qty: Qty,
    kind: OrderKind,
    filled: i64,
    state: OrderState,
}

impl Order {
    fn brief(&self) -> OrderBrief {
        OrderBrief {
            id: self.id,
            strategy: self.strategy,
            instrument: self.instrument,
            side: self.side,
            qty: self.qty,
            kind: self.kind,
            remaining: Qty::from_scaled(self.qty.to_scaled() - self.filled),
            phase: match self.state {
                OrderState::Pending => OrderPhase::Pending,
                OrderState::Working => OrderPhase::Working,
                OrderState::PendingCancel => OrderPhase::Live,
                OrderState::Filled => OrderPhase::Terminal(Ending::Filled),
                OrderState::Cancelled => OrderPhase::Terminal(Ending::Cancelled),
                OrderState::Rejected => OrderPhase::Terminal(Ending::Rejected),
            },
        }
    }

    /// `None` refuses the report.
    fn apply(&mut self, kind: VenueKind) -> Option<()> {
        if self.state.is_terminal() {
            // A cancel and a fill can cross.
            return match kind {
                VenueKind::CancelRejected { .. } => Some(()),
                _ => None,
            };
        }
        match kind {
            VenueKind::Accepted => {
                if self.state == OrderState::Pending {
                    self.state = OrderState::Working;
                }
            }
            VenueKind::Rejected { .. } => self.state = OrderState::Rejected,
            VenueKind::Filled { qty, .. } => {
                self.filled += qty.to_scaled();
                if self.filled >= self.qty.to_scaled() {
                    self.state = OrderState::Filled;
                } else if self.state == OrderState::Pending {
                    self.state = OrderState::Working;
                }
            }
            VenueKind::Cancelled | VenueKind::Expired => self.state = OrderState::Cancelled,
            VenueKind::CancelRejected { .. } => self.state = OrderState::Working,
        }
        Some(())
    }
}

enum BarSpec {
    Tick(u32),
    Time(i64),
}

struct Aggregator {
    instrument: InstrumentId,
    spec: BarSpec,
    open: Option<Bar>,
    count: u32,
}

/// A file in memory, and the writer that owns it.
struct File {
    writer: LogWriter,
    bytes: Vec<u8>,
}

impl File {
    fn create(header: LogHeader) -> File {
        let writer = LogWriter::create(header);
        let bytes = writer.opening();
        File { writer, bytes }
    }

    fn append(&mut self, event: Event) -> SeqNo {
        let (seq, full) = self.writer.append_record(event);
        if full {
            self.flush();
        }
        seq
    }

    fn flush(&mut self) {
        self.bytes.extend_from_slice(self.writer.unwritten());
        self.writer.flushed(true);
    }
}

/// Everything an engine asks something of.
struct Desk<V: Venue> {
    engine: Engine,
    venue: V,
    log: MemoryLog,
    file: Option<File>,
    /// The log takes no more than this.
    log_limit: usize,
    tops: Vec<Option<TopOfBook>>,
    last: Vec<i64>,
    last_trade: Vec<Option<Px>>,
    late: usize,
    aggregators: Vec<Aggregator>,
    bars: Vec<(usize, Bar)>,
    orders: Vec<Order>,
    held: Vec<i64>,
    cash: Vec<i128>,
    diverged: Vec<bool>,
    max_position: i64,
    strategies: Vec<Box<dyn Strategy>>,
    checked: usize,
}

impl<V: Venue> Desk<V> {
    fn with(instruments: u32, venue: V, capacity: usize) -> Desk<V> {
        let n = instruments as usize;
        Desk {
            engine: Engine::new(config_of(instruments)),
            venue,
            log: MemoryLog::with_capacity(capacity),
            file: None,
            log_limit: usize::MAX,
            tops: vec![None; n],
            last: vec![i64::MIN; n],
            last_trade: vec![None; n],
            late: 0,
            aggregators: Vec::new(),
            bars: Vec::with_capacity(64),
            orders: Vec::with_capacity(1 << 14),
            held: vec![0; n],
            cash: vec![0; n],
            diverged: vec![false; n],
            max_position: 1_000 * SCALE,
            strategies: Vec::new(),
            checked: 0,
        }
    }

    fn new(venue: V, capacity: usize) -> Desk<V> {
        Desk::with(1, venue, capacity)
    }

    fn add_strategy(&mut self, strategy: Box<dyn Strategy>) {
        let id = StrategyId::new(self.strategies.len() as u16);
        self.engine.add_strategy(id).expect("strategy");
        self.strategies.push(strategy);
    }

    fn add_aggregator(&mut self, instrument: InstrumentId, spec: BarSpec) -> usize {
        self.aggregators.push(Aggregator {
            instrument,
            spec,
            open: None,
            count: 0,
        });
        self.aggregators.len() - 1
    }

    fn position(&self, instrument: InstrumentId) -> Qty {
        Qty::from_scaled(self.held[instrument.raw() as usize])
    }

    fn order(&self, id: OrderId) -> &Order {
        self.orders.iter().find(|o| o.id == id).expect("order")
    }

    fn would_allocate(&self) -> bool {
        let full = self.orders.len() == self.orders.capacity()
            || self.bars.len() == self.bars.capacity();
        self.engine.would_allocate(full)
    }

    fn on_inbound(&mut self, inbound: Inbound) -> Result<(), EngineError> {
        self.engine.on_inbound(inbound);
        self.settle()
    }

    /// Answers the engine until it asks for nothing more.
    fn settle(&mut self) -> Result<(), EngineError> {
        loop {
            let ask = self.engine.ask();
            if let Ask::Settled(outcome) = ask {
                return outcome;
            }
            let reply = self.answer(ask);
            self.engine.advance(reply);
        }
    }

    fn run(&mut self, events: &[Inbound]) -> Result<(), EngineError> {
        for event in events {
            self.on_inbound(*event)?;
        }
        Ok(())
    }

    fn answer(&mut self, ask: Ask) -> Reply {
        match ask {
            Ask::Proceed => Reply::Done,
            Ask::Settled(_) => unreachable!(),
            Ask::Record(event) => Reply::Recorded(self.append(event)),
            Ask::ApplyMarket(m) => Reply::Applied(self.apply(&m)),
            Ask::ShowVenue(m) => {
                let top = self.tops[m.instrument.raw() as usize];
                self.venue.observe(&m, top);
                Reply::Done
            }
            Ask::CloseBars(at) => {
                self.close_bars(at);
                Reply::Bars(Ok(self.bars.len()))
            }
            Ask::DispatchBar(i) => {
                let (subscription, bar) = self.bars[i];
                let raised = self.dispatch(&Seen::Bar {
                    subscription,
                    bar: &bar,
                });
                Reply::Raised(raised)
            }
            Ask::DispatchQuote(instrument) => {
                let index = instrument.raw() as usize;
                match self.tops[index] {
                    Some(top) => {
                        let at = ExchangeTime::from_nanos(self.last[index]);
                        Reply::Raised(self.dispatch(&Seen::Quote {
                            instrument,
                            top: &top,
                            at,
                        }))
                    }
                    None => Reply::Raised(nothing()),
                }
            }
            Ask::DispatchTrade { .. } => Reply::Raised(self.dispatch(&Seen::Trade)),
            Ask::FoldTrade {
                instrument, px, at, ..
            } => {
                self.fold(instrument, px, at);
                Reply::Bars(Ok(self.bars.len()))
            }
            Ask::ApplyReport(report) => {
                let order = self.orders.iter_mut().find(|o| o.id == report.order);
                Reply::Reported(match order {
                    None => Err("UnknownOrder".to_string()),
                    Some(o) => {
                        let before = o.brief();
                        match o.apply(report.kind) {
                            None => Err("AlreadyTerminal".to_string()),
                            Some(()) => Ok((before, o.brief())),
                        }
                    }
                })
            }
            Ask::ApplyFill {
                instrument,
                side,
                qty,
                px,
                fee,
            } => {
                let index = instrument.raw() as usize;
                let signed = if side == Side::Buy { qty.to_scaled() } else { -qty.to_scaled() };
                self.held[index] += signed;
                self.cash[index] -= px.to_scaled() as i128 * signed as i128 / SCALE as i128;
                self.cash[index] -= fee.to_scaled();
                Reply::Filled(Ok(()))
            }
            Ask::Tell(strategy, notice) => {
                let mut out = nothing();
                let now = self.engine.now();
                if let Some(s) = self.strategies.get_mut(strategy.raw() as usize) {
                    s.on_event(&Seen::Notice(&notice), now, &mut out);
                }
                Reply::Raised(out)
            }
            Ask::ObservePosition(p) => {
                let index = p.instrument.raw() as usize;
                if index >= self.held.len() {
                    return Reply::Observed(None);
                }
                self.diverged[index] = self.held[index] != p.venue_qty.to_scaled();
                Reply::Observed(Some(self.diverged[index]))
            }
            Ask::AnyDiverged => Reply::Answer(self.diverged.iter().any(|d| *d)),
            Ask::LiveOrders => Reply::Orders(
                self.orders
                    .iter()
                    .filter(|o| !o.state.is_terminal())
                    .map(|o| o.id)
                    .collect(),
            ),
            Ask::LiveOwner(id) => Reply::Owner(
                self.orders
                    .iter()
                    .find(|o| o.id == id && !o.state.is_terminal())
                    .map(|o| o.strategy),
            ),
            Ask::Cancel { order, .. } => {
                let sent = self.venue.cancel(order);
                if sent {
                    if let Some(o) = self.orders.iter_mut().find(|o| o.id == order) {
                        o.state = OrderState::PendingCancel;
                    }
                }
                Reply::Answer(sent)
            }
            Ask::Holdings => Reply::Held(self.held.iter().map(|h| Qty::from_scaled(*h)).collect()),
            Ask::CheckIntent { intent, state, .. } => {
                self.checked += 1;
                Reply::Decided(self.check(&intent, state))
            }
            Ask::Submit { order, now } => Reply::Sent(self.submit(&order, now)),
            Ask::DrainVenue => {
                let mut out = Vec::new();
                self.venue.drain(&mut out);
                Reply::Reports(out)
            }
        }
    }

    fn append(&mut self, event: Event) -> Result<SeqNo, LogError> {
        if self.log.records().len() >= self.log_limit {
            return Err(LogError::WriteFailed);
        }
        if let Some(file) = &mut self.file {
            file.append(event);
        }
        self.log.append(event)
    }

    fn apply(&mut self, m: &MarketEvent) -> Applied {
        let index = m.instrument.raw() as usize;
        if index >= self.tops.len() {
            return Applied::UnknownInstrument;
        }
        let at = m.exchange_time.to_nanos();
        if at < self.last[index] {
            self.late += 1;
            return Applied::Refused;
        }
        self.last[index] = at;
        match m.kind {
            MarketKind::Quote {
                bid_px,
                bid_qty,
                ask_px,
                ask_qty,
            } => {
                self.tops[index] = Some(TopOfBook {
                    bid_px,
                    bid_qty,
                    ask_px,
                    ask_qty,
                    two_sided: true,
                })
            }
            MarketKind::Trade { px, .. } => self.last_trade[index] = Some(px),
            _ => {}
        }
        Applied::Accepted
    }

    fn close_bars(&mut self, at: ExchangeTime) {
        self.bars.clear();
        for (index, a) in self.aggregators.iter_mut().enumerate() {
            if let (BarSpec::Time(period), Some(bar)) = (&a.spec, a.open) {
                let close = bar.open_time.to_nanos() + period;
                if at.to_nanos() >= close {
                    a.open = None;
                    self.bars.push((
                        index,
                        Bar {
                            close_time: ExchangeTime::from_nanos(close),
                            ..bar
                        },
                    ));
                }
            }
        }
    }

    fn fold(&mut self, instrument: InstrumentId, px: Px, at: ExchangeTime) {
        self.bars.clear();
        for (index, a) in self.aggregators.iter_mut().enumerate() {
            if a.instrument != instrument {
                continue;
            }
            let start = match a.spec {
                BarSpec::Tick(_) => at,
                BarSpec::Time(period) => ExchangeTime::from_nanos(at.to_nanos() / period * period),
            };
            let mut bar = a.open.unwrap_or(Bar {
                instrument,
                open_time: start,
                close_time: at,
                close: px,
            });
            bar.close = px;
            bar.close_time = at;
            a.count += 1;
            a.open = Some(bar);
            if let BarSpec::Tick(threshold) = a.spec {
                if a.count >= threshold {
                    a.count = 0;
                    a.open = None;
                    self.bars.push((index, bar));
                }
            }
        }
    }

    fn dispatch(&mut self, event: &Seen<'_>) -> Raised {
        let mut out = nothing();
        let now = self.engine.now();
        for strategy in &mut self.strategies {
            strategy.on_event(event, now, &mut out);
        }
        out
    }

    fn check(&self, intent: &Intent, state: EngineState) -> Decision {
        if !state.permits_any_order() {
            return Decision::Rejected(RiskReason::KillSwitchEngaged);
        }
        if !intent.reduce_only && !state.permits_risk_increase() {
            return Decision::Rejected(RiskReason::Halted);
        }
        let index = intent.instrument.raw() as usize;
        let size = intent.qty.to_scaled();
        let signed = if intent.side == Side::Buy { size } else { -size };
        if !intent.reduce_only && (self.held[index] + signed).abs() > self.max_position {
            return Decision::Rejected(RiskReason::PositionLimit);
        }
        Decision::Approved(ApprovedOrder {
            strategy: intent.strategy,
            instrument: intent.instrument,
            side: intent.side,
            qty: intent.qty,
            kind: intent.kind,
            reduce_only: intent.reduce_only,
        })
    }

    fn submit(&mut self, order: &ApprovedOrder, now: ExchangeTime) -> Sent {
        let id = OrderId::new(self.orders.len() as u64);
        let venue_order = VenueOrder {
            id,
            instrument: order.instrument,
            side: order.side,
            qty: order.qty,
            kind: order.kind,
        };
        let top = self.tops[order.instrument.raw() as usize];
        if !self.venue.submit(&venue_order, top, now) {
            return Sent::Unreachable;
        }
        self.orders.push(Order {
            id,
            strategy: order.strategy,
            instrument: order.instrument,
            side: order.side,
            qty: order.qty,
            kind: order.kind,
            filled: 0,
            state: OrderState::Pending,
        });
        Sent::Submitted(id)
    }
}

fn nothing() -> Raised {
    Raised {
        intents: Vec::new(),
        timers: Vec::new(),
        cancels: Vec::new(),
    }
}

fn count(log: &MemoryLog, wanted: fn(&Outbound) -> bool) -> usize {
    log.outbound().iter().filter(|o| wanted(o)).count()
}

fn submitted(log: &MemoryLog) -> usize {
    count(log, |o| matches!(o, Outbound::OrderSubmitted { .. }))
}

fn cancels(log: &MemoryLog) -> usize {
    count(log, |o| matches!(o, Outbound::CancelSubmitted { .. }))
}

fn refusals(log: &MemoryLog) -> Vec<RiskReason> {
    log.outbound()
        .iter()
        .filter_map(|o| match o {
            Outbound::IntentRejected { reason, .. } => Some(*reason),
            _ => None,
        })
        .collect()
}

fn cause_of(out: &Outbound) -> SeqNo {
    match out {
        Outbound::OrderSubmitted { caused_by, .. }
        | Outbound::CancelSubmitted { caused_by, .. }
        | Outbound::IntentRejected { caused_by, .. }
        | Outbound::TimerRequested { caused_by, .. }
        | Outbound::StateChanged { caused_by, .. } => *caused_by,
    }
}

// ---- the signal session --------------------------------------------------

/// Enough trades to warm a three-bar average and reverse it.
fn signal_script() -> Vec<Inbound> {
    vec![
        quote(1_000, 99, 100, 101, 100),
        trade(2_000, 100, 1, Side::Buy),
        trade(3_000, 100, 1, Side::Buy),
        trade(4_000, 130, 1, Side::Buy),
        quote(5_000, 99, 100, 101, 100),
        trade(6_000, 1, 1, Side::Sell),
    ]
}

fn with_crossover<V: Venue>(venue: V, capacity: usize) -> Desk<V> {
    let mut desk = Desk::new(venue, capacity);
    let subscription = desk.add_aggregator(I, BarSpec::Tick(1));
    desk.add_strategy(Box::new(Crossover::new(0, I, subscription, 3, 10)));
    desk
}

fn run_signal_session() -> Desk<SimVenue> {
    let mut desk = with_crossover(sim(), 256);
    desk.run(&signal_script()).expect("session");
    desk
}

#[test]
fn a_session_turns_a_signal_into_orders_and_fills() {
    let desk = run_signal_session();
    let decisions = desk.log.outbound();

    let sent: Vec<&Outbound> = decisions
        .iter()
        .filter(|o| matches!(o, Outbound::OrderSubmitted { .. }))
        .collect();
    assert!(
        !sent.is_empty(),
        "the signal should have produced at least one order"
    );

    // The first order is the long the crossover opens once it is warm.
    match sent[0] {
        Outbound::OrderSubmitted { side, qty: q, .. } => {
            assert_eq!(*side, Side::Buy);
            assert_eq!(*q, qty(10));
        }
        other => panic!("expected an order, got {other:?}"),
    }

    // It filled against the simulated book, so the books are no longer flat.
    assert!(desk.position(I) != qty(0) || desk.cash[0] != 0);
}

#[test]
fn replaying_the_recorded_inputs_reproduces_every_decision() {
    let live = run_signal_session();
    let recorded_decisions = live.log.outbound();
    assert!(
        !recorded_decisions.is_empty(),
        "a session with no decisions would prove nothing"
    );

    // Replay binds a venue that says nothing, because the venue's reports are
    // already among the recorded inputs.
    let mut replayed = with_crossover(SilentVenue::default(), 256);
    replayed.run(&live.log.inbound()).expect("replay");

    assert_eq!(replayed.log.outbound(), recorded_decisions);
    // The whole log, not just the decisions: the sequence numbers and the
    // interleaving have to match too.
    assert_eq!(replayed.log.records(), live.log.records());
}

#[test]
fn a_session_with_refused_inputs_replays_too() {
    // A quote for an instrument that is not configured, and a report on an order
    // that does not exist: the engine refuses both, and goes on.
    let unknown = Inbound::Market(MarketEvent {
        instrument: InstrumentId::new(9),
        exchange_time: ExchangeTime::from_nanos(1_500),
        receive_time: ReceiveTime::from_nanos(1_500),
        kind: MarketKind::BookApplied,
    });
    let stray = Inbound::Venue(VenueEvent {
        order: OrderId::new(77),
        venue_time: ExchangeTime::from_nanos(1_600),
        receive_time: ReceiveTime::from_nanos(1_600),
        kind: VenueKind::Accepted,
    });
    let events = [
        quote(1_000, 99, 100, 101, 100),
        unknown,
        stray,
        quote(2_000, 100, 100, 102, 100),
        command(2_500, Command::Kill),
    ];
    let mut live = Desk::new(sim(), 64);
    live.add_strategy(BuyOnce::market(5));
    let outcomes: Vec<_> = events.iter().map(|e| live.on_inbound(*e)).collect();
    assert_eq!(outcomes[1], Err(EngineError::UnknownInstrument));
    assert_eq!(outcomes[2], Err(EngineError::Oms("UnknownOrder".to_string())));
    assert!(!live.log.outbound().is_empty(), "the session traded");

    let mut replayed = Desk::new(SilentVenue::default(), 64);
    replayed.add_strategy(BuyOnce::market(5));
    for input in live.log.inbound() {
        let _ = replayed.on_inbound(input);
    }
    assert_eq!(replayed.log.records(), live.log.records());
    assert_eq!(replayed.engine.state(), live.engine.state());
    assert_eq!(replayed.position(I), live.position(I));
}

#[test]
fn two_identical_runs_produce_identical_logs() {
    let first = run_signal_session();
    let second = run_signal_session();
    assert_eq!(first.log.records(), second.log.records());
    assert_eq!(first.position(I), second.position(I));
}

#[test]
fn a_halt_refuses_new_risk_and_records_the_reason() {
    let mut desk = Desk::new(sim(), 64);
    desk.add_strategy(BuyOnce::market(5));
    desk.run(&[
        command(500, Command::Halt),
        quote(1_000, 99, 100, 101, 100),
    ])
    .expect("session");

    assert_eq!(desk.engine.state(), EngineState::Halted);
    assert_eq!(refusals(&desk.log), vec![RiskReason::Halted]);
    assert!(desk.orders.is_empty(), "no order should exist");
}

#[test]
fn a_kill_cancels_resting_orders_and_refuses_everything_after() {
    let mut desk = Desk::new(sim(), 64);
    // A limit below the offer rests rather than filling. A market order would
    // never rest, so there would be nothing for the kill to cancel.
    desk.add_strategy(BuyOnce::limit(5, px(99)));
    desk.run(&[
        quote(1_000, 99, 100, 101, 100),
        command(2_000, Command::Kill),
    ])
    .expect("session");

    assert_eq!(desk.engine.state(), EngineState::Killed);
    assert_eq!(
        cancels(&desk.log),
        1,
        "the resting order should have been cancelled"
    );

    // Anything after a kill is refused, including a reduce-only order.
    desk.on_inbound(quote(3_000, 99, 100, 101, 100))
        .expect("post-kill");
    assert_eq!(desk.engine.state(), EngineState::Killed);
}

#[test]
fn a_flatten_brings_the_position_back_to_zero() {
    let mut desk = Desk::new(sim(), 128);
    desk.add_strategy(BuyOnce::market(7));
    desk.run(&[
        quote(1_000, 99, 100, 101, 100),
        command(2_000, Command::Flatten),
    ])
    .expect("session");

    let flatten_orders: Vec<Outbound> = desk
        .log
        .outbound()
        .into_iter()
        .filter(|o| {
            matches!(
                o,
                Outbound::OrderSubmitted {
                    reduce_only: true,
                    ..
                }
            )
        })
        .collect();
    assert_eq!(flatten_orders.len(), 1);
    match flatten_orders[0] {
        Outbound::OrderSubmitted {
            side,
            qty: q,
            strategy,
            ..
        } => {
            assert_eq!(side, Side::Sell);
            assert_eq!(q, qty(7));
            // Nobody's strategy asked for it, so it is attributed to the
            // operator rather than left ambiguous.
            assert_eq!(strategy, StrategyId::new(OPERATOR));
        }
        other => panic!("expected a reduce-only order, got {other:?}"),
    }
    assert_eq!(desk.position(I), qty(0));
}

#[test]
fn a_flatten_against_a_flat_book_orders_nothing() {
    // There is nothing to reduce, and "sell" would open a short rather than
    // close anything.
    let mut desk = Desk::new(sim(), 64);
    desk.run(&[
        quote(1_000, 99, 100, 101, 100),
        command(2_000, Command::Flatten),
    ])
    .expect("session");
    assert_eq!(submitted(&desk.log), 0);
}

#[test]
fn a_venue_position_that_disagrees_halts_trading() {
    let mut desk = Desk::new(sim(), 64);
    desk.run(&[quote(1_000, 99, 100, 101, 100), venue_position(2_000, 42)])
        .expect("session");

    assert_eq!(desk.engine.state(), EngineState::Halted);
    let halted_for = desk.log.outbound().iter().find_map(|o| match o {
        Outbound::StateChanged { reason, to, .. } if *to == EngineState::Halted => Some(*reason),
        _ => None,
    });
    assert_eq!(halted_for, Some(StateReason::ReconciliationDivergence));
}

#[test]
fn resume_is_refused_while_the_books_still_disagree() {
    let mut desk = Desk::new(sim(), 64);
    desk.run(&[
        quote(1_000, 99, 100, 101, 100),
        venue_position(2_000, 42),
        command(3_000, Command::Resume),
    ])
    .expect("session");

    assert_eq!(desk.engine.state(), EngineState::Halted);
    // The refusal is in the log as a transition to the state it stayed in,
    // rather than being an absence of a record.
    let refusals = count(&desk.log, |o| {
        matches!(
            o,
            Outbound::StateChanged {
                from: EngineState::Halted,
                to: EngineState::Halted,
                reason: StateReason::ReconciliationDivergence,
                ..
            }
        )
    });
    assert_eq!(refusals, 1);
}

#[test]
fn resume_after_the_books_agree_returns_to_running() {
    let mut desk = Desk::new(sim(), 64);
    desk.run(&[
        quote(1_000, 99, 100, 101, 100),
        venue_position(2_000, 42),
        venue_position(3_000, 0),
        command(4_000, Command::Resume),
    ])
    .expect("session");
    assert_eq!(desk.engine.state(), EngineState::Running);
}

#[test]
fn a_venue_that_cannot_be_reached_produces_no_order_and_says_why() {
    let mut venue = sim();
    venue.disconnect();
    let mut desk = Desk::new(venue, 64);
    desk.add_strategy(BuyOnce::market(5));
    desk.run(&[quote(1_000, 99, 100, 101, 100)])
        .expect("session");

    assert!(
        desk.orders.is_empty(),
        "an order that never left must not exist"
    );
    assert_eq!(refusals(&desk.log), vec![RiskReason::VenueUnreachable]);
}

#[test]
fn an_order_larger_than_the_touch_fills_what_is_there_and_cancels_the_rest() {
    // Five available against an order for twenty.
    let mut desk = Desk::new(sim(), 64);
    desk.add_strategy(BuyOnce::market(20));
    desk.run(&[quote(1_000, 99, 100, 101, 5)]).expect("session");

    let order = desk.orders[0];
    assert_eq!(order.filled, 5 * SCALE);
    assert_eq!(order.state, OrderState::Cancelled);
    assert_eq!(desk.position(I), qty(5));
}

/// Counts what it is shown, so a test can assert what never arrived.
#[derive(Default)]
struct Counting {
    seen: Rc<RefCell<(usize, usize, usize)>>,
}

impl Strategy for Counting {
    fn on_event(&mut self, event: &Seen<'_>, _now: ExchangeTime, _out: &mut Raised) {
        let mut seen = self.seen.borrow_mut();
        match event {
            Seen::Quote { .. } => seen.0 += 1,
            Seen::Trade => seen.1 += 1,
            Seen::Bar { .. } => seen.2 += 1,
            Seen::Notice(_) => {}
        }
    }
}

#[test]
fn a_market_event_that_arrives_late_reaches_nothing_downstream() {
    let seen = Rc::new(RefCell::new((0, 0, 0)));
    let mut desk = Desk::new(sim(), 64);
    desk.add_aggregator(I, BarSpec::Tick(1));
    desk.add_strategy(Box::new(Counting { seen: Rc::clone(&seen) }));
    desk.run(&[
        quote(1_000, 99, 100, 101, 100),
        trade(1_100, 100, 1, Side::Buy),
        // Both of these are stamped before what the book already holds.
        quote(500, 1, 100, 2, 100),
        trade(600, 55, 1, Side::Buy),
    ])
    .expect("session");

    // The book kept the newer prices and counted the two refusals.
    let top = desk.tops[0].expect("quote");
    assert_eq!(top.bid_px, px(99));
    assert_eq!(top.ask_px, px(101));
    assert_eq!(desk.late, 2);
    assert_eq!(desk.last_trade[0].expect("trade"), px(100));
    assert_eq!(*seen.borrow(), (1, 1, 1));
}

#[test]
fn a_late_market_event_is_still_recorded_as_an_input() {
    // It is refused, not erased.
    let mut desk = Desk::new(sim(), 64);
    desk.run(&[quote(1_000, 99, 100, 101, 100), quote(500, 1, 100, 2, 100)])
        .expect("session");

    assert_eq!(desk.log.inbound().len(), 2);
    assert_eq!(desk.late, 1);
}

#[test]
fn refusing_a_late_event_is_reproduced_on_replay() {
    let mut live = with_crossover(sim(), 128);
    live.run(&[
        quote(1_000, 99, 100, 101, 100),
        trade(2_000, 100, 1, Side::Buy),
        trade(1_500, 999, 1, Side::Buy),
        trade(3_000, 100, 1, Side::Buy),
        trade(4_000, 130, 1, Side::Buy),
    ])
    .expect("session");
    assert_eq!(live.late, 1);

    // The refusal is a function of records already in the log: replay reaches
    // the same decision unaided.
    let mut replayed = with_crossover(SilentVenue::default(), 128);
    replayed.run(&live.log.inbound()).expect("replay");
    assert_eq!(replayed.log.records(), live.log.records());
    assert_eq!(replayed.late, 1);
}

#[test]
fn an_event_for_an_unconfigured_instrument_is_refused() {
    let mut desk = Desk::new(sim(), 16);
    let stray = market_at(
        InstrumentId::new(9),
        1_000,
        1_000,
        MarketKind::Quote {
            bid_px: px(1),
            bid_qty: qty(1),
            ask_px: px(2),
            ask_qty: qty(1),
        },
    );
    assert_eq!(desk.on_inbound(stray), Err(EngineError::UnknownInstrument));
}

#[test]
fn every_decision_names_the_record_that_caused_it() {
    let desk = run_signal_session();
    let records = desk.log.records();
    for record in records {
        let Some(out) = record.event.as_outbound() else {
            continue;
        };
        let caused_by = cause_of(out);
        assert!(
            caused_by < record.seq,
            "{out:?} at {:?} claims to be caused by {caused_by:?}, which is not earlier",
            record.seq
        );
        assert!(
            records[caused_by.raw() as usize]
                .event
                .as_inbound()
                .is_some(),
            "a decision must be caused by an input, not by another decision"
        );
    }
}

#[test]
fn a_session_that_never_exceeds_its_reservations_never_needs_to_grow() {
    let mut desk = with_crossover(sim(), 1_024);
    desk.run(&signal_script()).expect("session");

    assert!(!desk.would_allocate());
    assert!(!desk.log.would_grow());
}

// ---- the kill switch, from every state -----------------------------------

/// A monotonic clock for a test, so the book never refuses an event for arriving
/// late.
struct Clock(i64);

impl Clock {
    fn start() -> Clock {
        Clock(1_000_000)
    }

    fn tick(&mut self) -> i64 {
        self.0 += 1_000;
        self.0
    }
}

fn kill_refusals(log: &MemoryLog) -> usize {
    count(log, |o| {
        matches!(
            o,
            Outbound::IntentRejected {
                reason: RiskReason::KillSwitchEngaged,
                ..
            }
        )
    })
}

/// Kills the engine and proves the kill took effect, whatever state it was in.
fn kill_and_prove<V: Venue>(desk: &mut Desk<V>, clock: &mut Clock, state: &str) {
    let orders_before = desk.orders.len();
    let submitted_before = submitted(&desk.log);
    let already_killed = desk.engine.state() == EngineState::Killed;

    desk.on_inbound(command(clock.tick(), Command::Kill))
        .unwrap_or_else(|e| panic!("{state}: the kill itself errored: {e:?}"));

    assert_eq!(
        desk.engine.state(),
        EngineState::Killed,
        "{state}: the kill did not take effect"
    );
    if !already_killed {
        let recorded = count(&desk.log, |o| {
            matches!(
                o,
                Outbound::StateChanged {
                    to: EngineState::Killed,
                    reason: StateReason::OperatorCommand,
                    ..
                }
            )
        });
        assert!(recorded > 0, "{state}: the kill was not recorded");
    }

    // Now push as hard as the interface allows: a quote the strategy will want
    // to trade on, and an explicit operator flatten.
    desk.on_inbound(quote(clock.tick(), 99, 500, 101, 500))
        .unwrap_or_else(|e| panic!("{state}: post-kill quote errored: {e:?}"));
    desk.on_inbound(command(clock.tick(), Command::Flatten))
        .unwrap_or_else(|e| panic!("{state}: post-kill flatten errored: {e:?}"));

    assert_eq!(
        submitted(&desk.log),
        submitted_before,
        "{state}: an order reached the venue after the kill"
    );
    assert_eq!(
        desk.orders.len(),
        orders_before,
        "{state}: an order was created after the kill"
    );
    assert!(
        kill_refusals(&desk.log) > 0,
        "{state}: nothing even tried to trade after the kill, so this proves nothing"
    );
}

/// Every order the session created is either finished or has a cancel out for
/// it.
fn assert_nothing_still_live<V: Venue>(desk: &Desk<V>, state: &str) {
    for order in &desk.orders {
        assert!(
            order.state.is_terminal() || order.state == OrderState::PendingCancel,
            "{state}: order {:?} is still live at {:?} after a kill",
            order.id,
            order.state
        );
    }
}

fn wanting<V: Venue>(venue: V, kind: OrderKind, size: i64) -> Desk<V> {
    let mut desk = Desk::new(venue, 128);
    desk.add_strategy(AlwaysWants::to_buy(kind, size));
    desk
}

#[test]
fn from_running_with_nothing_in_flight() {
    let mut clock = Clock::start();
    let mut desk = wanting(SilentVenue::default(), OrderKind::Market, 1);
    kill_and_prove(&mut desk, &mut clock, "running, nothing in flight");
}

#[test]
fn from_halted() {
    let mut clock = Clock::start();
    let mut desk = wanting(SilentVenue::default(), OrderKind::Market, 1);
    desk.on_inbound(command(clock.tick(), Command::Halt))
        .expect("halt");
    assert_eq!(desk.engine.state(), EngineState::Halted);
    kill_and_prove(&mut desk, &mut clock, "halted");
}

#[test]
fn from_already_killed() {
    // Killing twice must be safe. An operator who is not sure the first one
    // landed will press it again, and that is the correct instinct.
    let mut clock = Clock::start();
    let mut desk = wanting(SilentVenue::default(), OrderKind::Market, 1);
    desk.on_inbound(command(clock.tick(), Command::Kill))
        .expect("kill");
    let to_killed = |o: &Outbound| {
        matches!(
            o,
            Outbound::StateChanged {
                to: EngineState::Killed,
                ..
            }
        )
    };
    let transitions = count(&desk.log, to_killed);

    kill_and_prove(&mut desk, &mut clock, "already killed");

    // The second kill changes nothing, so it records no second transition.
    assert_eq!(count(&desk.log, to_killed), transitions);
}

#[test]
fn while_an_order_is_pending_acknowledgement() {
    let mut clock = Clock::start();
    let mut desk = wanting(SilentVenue::default(), OrderKind::Market, 5);
    desk.on_inbound(quote(clock.tick(), 99, 500, 101, 500))
        .expect("quote");
    assert_eq!(
        desk.orders[0].state,
        OrderState::Pending,
        "the silent venue should have left it unacknowledged"
    );

    kill_and_prove(&mut desk, &mut clock, "order pending acknowledgement");
    assert_nothing_still_live(&desk, "order pending acknowledgement");
    assert!(
        cancels(&desk.log) > 0,
        "the pending order was not cancelled"
    );
}

#[test]
fn while_an_order_is_working_at_the_venue() {
    let mut clock = Clock::start();
    // A limit below the offer rests instead of filling.
    let mut desk = wanting(sim(), OrderKind::Limit(px(99)), 5);
    desk.on_inbound(quote(clock.tick(), 99, 500, 101, 500))
        .expect("quote");
    let order = desk.orders[0].id;
    assert_eq!(desk.order(order).state, OrderState::Working);

    kill_and_prove(&mut desk, &mut clock, "order working at the venue");
    assert_nothing_still_live(&desk, "order working at the venue");
    assert!(
        cancels(&desk.log) > 0,
        "the working order was not cancelled"
    );
    assert!(
        desk.order(order).state.is_terminal(),
        "the venue confirmed the cancel, so the order should be terminal"
    );
}

#[test]
fn while_an_order_is_partly_filled_and_still_working() {
    let mut clock = Clock::start();
    let mut desk = wanting(sim(), OrderKind::Limit(px(99)), 5);
    desk.on_inbound(quote(clock.tick(), 99, 500, 101, 500))
        .expect("quote");
    let order = desk.orders[0].id;
    // A print at the resting price, smaller than the order.
    desk.on_inbound(trade(clock.tick(), 99, 2, Side::Sell))
        .expect("partial fill");

    assert_eq!(desk.order(order).filled, 2 * SCALE);
    assert_eq!(desk.order(order).state, OrderState::Working);

    kill_and_prove(&mut desk, &mut clock, "order partly filled and working");
    assert_nothing_still_live(&desk, "order partly filled and working");
    // What was filled stays filled. A kill stops trading; it does not unwind.
    assert_eq!(desk.order(order).filled, 2 * SCALE);
    assert_eq!(desk.position(I), qty(2));
}

#[test]
fn while_a_cancel_is_already_in_flight() {
    // Kill, the cancel goes unanswered, kill again.
    let mut clock = Clock::start();
    let mut desk = wanting(SilentVenue::default(), OrderKind::Market, 5);
    desk.on_inbound(quote(clock.tick(), 99, 500, 101, 500))
        .expect("quote");
    let order = desk.orders[0].id;
    desk.on_inbound(command(clock.tick(), Command::Kill))
        .expect("first kill");
    assert_eq!(
        desk.order(order).state,
        OrderState::PendingCancel,
        "the silent venue should have left the cancel unanswered"
    );

    kill_and_prove(&mut desk, &mut clock, "cancel already in flight");
    assert_nothing_still_live(&desk, "cancel already in flight");
}

#[test]
fn while_every_order_is_already_terminal() {
    let mut clock = Clock::start();
    let mut desk = wanting(sim(), OrderKind::Market, 5);
    desk.on_inbound(quote(clock.tick(), 99, 500, 101, 500))
        .expect("quote");
    assert_eq!(desk.orders[0].state, OrderState::Filled);
    let cancels_before = cancels(&desk.log);

    kill_and_prove(&mut desk, &mut clock, "every order already terminal");
    // Nothing was live, so nothing was cancelled.
    assert_eq!(cancels(&desk.log), cancels_before);
}

#[test]
fn while_the_venue_is_unreachable() {
    // The order is live at the venue and the link is down when the kill arrives.
    let mut clock = Clock::start();
    let mut desk = wanting(LinkDrops::default(), OrderKind::Limit(px(99)), 5);
    desk.on_inbound(quote(clock.tick(), 99, 500, 101, 500))
        .expect("quote");
    let order = desk.orders[0].id;
    assert_eq!(
        desk.order(order).state,
        OrderState::Working,
        "the order should be live at the venue before the link drops"
    );

    kill_and_prove(&mut desk, &mut clock, "venue unreachable");

    // The cancel could not be sent, so the order is still working at the venue.
    assert_eq!(desk.order(order).state, OrderState::Working);
    assert!(desk.venue.cancel_attempts > 0);
    assert_eq!(
        cancels(&desk.log),
        0,
        "a cancel that never left must not be recorded as sent"
    );
}

#[test]
fn while_the_venue_never_accepted_anything() {
    let mut clock = Clock::start();
    let mut venue = sim();
    venue.disconnect();
    let mut desk = wanting(venue, OrderKind::Market, 5);
    desk.on_inbound(quote(clock.tick(), 99, 500, 101, 500))
        .expect("quote");
    assert!(desk.orders.is_empty());

    kill_and_prove(&mut desk, &mut clock, "venue never reachable");
    assert_nothing_still_live(&desk, "venue never reachable");
}

#[test]
fn while_the_position_disagrees_with_the_venue() {
    let mut clock = Clock::start();
    let mut desk = wanting(sim(), OrderKind::Market, 5);
    desk.on_inbound(quote(clock.tick(), 99, 500, 101, 500))
        .expect("quote");
    desk.on_inbound(venue_position(clock.tick(), 9_999))
        .expect("divergence");
    assert_eq!(desk.engine.state(), EngineState::Halted);

    kill_and_prove(&mut desk, &mut clock, "position diverged from the venue");
}

#[test]
fn while_holding_a_long_position() {
    let mut clock = Clock::start();
    let mut desk = wanting(sim(), OrderKind::Market, 5);
    desk.on_inbound(quote(clock.tick(), 99, 500, 101, 500))
        .expect("quote");
    assert_eq!(desk.position(I), qty(5));

    kill_and_prove(&mut desk, &mut clock, "holding a long position");
    // The position is still there: the flatten sent afterwards was refused.
    assert_eq!(desk.position(I), qty(5));
}

#[test]
fn while_holding_a_short_position() {
    let mut clock = Clock::start();
    let mut desk = Desk::new(sim(), 128);
    desk.add_strategy(Box::new(AlwaysWants {
        side: Side::Sell,
        kind: OrderKind::Market,
        size: 4,
    }));
    desk.on_inbound(quote(clock.tick(), 99, 500, 101, 500))
        .expect("quote");
    assert_eq!(desk.position(I), qty(-4));

    kill_and_prove(&mut desk, &mut clock, "holding a short position");
    assert_eq!(desk.position(I), qty(-4));
}

#[test]
fn before_any_market_data_has_arrived() {
    let mut clock = Clock::start();
    let mut desk = wanting(SilentVenue::default(), OrderKind::Market, 1);
    assert!(desk.tops[0].is_none());
    kill_and_prove(&mut desk, &mut clock, "no market data yet");
}

#[test]
fn while_the_market_data_is_stale() {
    let mut clock = Clock::start();
    let mut desk = wanting(SilentVenue::default(), OrderKind::Market, 1);
    desk.on_inbound(quote(clock.tick(), 99, 500, 101, 500))
        .expect("quote");
    // Jump far ahead without a new quote.
    clock.0 += 1_000_000_000;
    kill_and_prove(&mut desk, &mut clock, "market data stale");
}

// ---- quoting -------------------------------------------------------------

fn quoting(half_spread: i64, reprice: i64, max_inventory: i64) -> Desk<SimVenue> {
    let mut desk = Desk::new(sim(), 1 << 14);
    desk.add_strategy(Quoter::new(half_spread, reprice, max_inventory));
    desk
}

fn book(desk: &mut Desk<SimVenue>, at: i64, bid: i64, ask: i64) {
    desk.on_inbound(quote(at, bid, 10, ask, 10)).expect("quote");
}

fn rested(desk: &Desk<SimVenue>) -> Vec<(OrderId, Side, Px)> {
    desk.log
        .outbound()
        .iter()
        .filter_map(|o| match o {
            Outbound::OrderSubmitted {
                order, side, kind, ..
            } => kind.limit_px().map(|px| (*order, *side, px)),
            _ => None,
        })
        .collect()
}

fn pulled(desk: &Desk<SimVenue>) -> Vec<OrderId> {
    desk.log
        .outbound()
        .iter()
        .filter_map(|o| match o {
            Outbound::CancelSubmitted { order, .. } => Some(*order),
            _ => None,
        })
        .collect()
}

#[test]
fn a_quoter_rests_a_bid_and_an_ask_around_the_midpoint() {
    let mut desk = quoting(2, 1, 100);
    book(&mut desk, 1_000, 100, 102); // mid 101

    let orders = rested(&desk);
    assert_eq!(orders.len(), 2, "one order each side: {orders:?}");
    let bid = orders
        .iter()
        .find(|(_, s, _)| *s == Side::Buy)
        .expect("bid");
    let ask = orders
        .iter()
        .find(|(_, s, _)| *s == Side::Sell)
        .expect("ask");
    assert_eq!(bid.2, px(99), "mid 101 less a half-spread of 2");
    assert_eq!(ask.2, px(103), "mid 101 plus a half-spread of 2");
}

#[test]
fn the_orders_it_rests_are_limit_orders_that_stay_live() {
    let mut desk = quoting(2, 1, 100);
    book(&mut desk, 1_000, 100, 102);

    assert_eq!(desk.venue.resting_count(), 2);
    for order in &desk.orders {
        assert_eq!(order.state, OrderState::Working, "{order:?}");
    }
}

#[test]
fn a_book_that_has_not_moved_does_not_produce_a_second_pair() {
    let mut desk = quoting(2, 1, 100);
    for n in 0..10 {
        book(&mut desk, 1_000 + n, 100, 102);
    }
    assert_eq!(rested(&desk).len(), 2);
    assert!(pulled(&desk).is_empty());
}

#[test]
fn a_book_that_moves_far_enough_gets_the_resting_orders_pulled() {
    let mut desk = quoting(2, 1, 100);
    book(&mut desk, 1_000, 100, 102); // mid 101
    let before = rested(&desk);

    book(&mut desk, 2_000, 110, 112); // mid 111, well past the reprice band
    let gone = pulled(&desk);
    assert_eq!(gone.len(), 2, "both sides pulled: {gone:?}");
    for (order, _, _) in &before {
        assert!(gone.contains(order), "{order:?} should have been cancelled");
    }
}

#[test]
fn a_pulled_quote_is_reposted_only_after_the_venue_confirms_it_is_gone() {
    let mut desk = quoting(2, 1, 100);
    book(&mut desk, 1_000, 100, 102);
    assert_eq!(desk.venue.resting_count(), 2);

    // The move pulls both sides. Nothing replaces them in this event.
    book(&mut desk, 2_000, 110, 112);
    assert_eq!(rested(&desk).len(), 2, "no replacement yet");
    assert_eq!(desk.venue.resting_count(), 0, "and the old pair is gone");

    // The next quote is where it comes back, at the new midpoint.
    book(&mut desk, 3_000, 110, 112);
    let orders = rested(&desk);
    assert_eq!(orders.len(), 4, "two pairs in total: {orders:?}");
    assert_eq!(desk.venue.resting_count(), 2, "one live pair, never two");

    let live: Vec<Px> = desk
        .orders
        .iter()
        .filter(|o| !o.state.is_terminal())
        .filter_map(|o| o.kind.limit_px())
        .collect();
    assert!(live.contains(&px(109)), "new bid at mid 111 - 2: {live:?}");
    assert!(live.contains(&px(113)), "new ask at mid 111 + 2: {live:?}");
}

#[test]
fn one_side_never_has_two_orders_resting_at_once() {
    let mut desk = quoting(2, 1, 100);
    for n in 0..40i64 {
        let level = 100 + (n % 7) * 4;
        book(&mut desk, 1_000 + n, level, level + 2);
        assert!(
            desk.venue.resting_count() <= 2,
            "step {n}: {} resting",
            desk.venue.resting_count()
        );
        let per_side = |want: Side| {
            desk.orders
                .iter()
                .filter(|o| o.state == OrderState::Working && o.side == want)
                .count()
        };
        assert!(per_side(Side::Buy) <= 1, "step {n}: two bids resting");
        assert!(per_side(Side::Sell) <= 1, "step {n}: two asks resting");
    }
}

#[test]
fn a_flicker_smaller_than_the_reprice_band_is_ignored() {
    let mut desk = quoting(2, 5, 100);
    book(&mut desk, 1_000, 100, 102); // mid 101
    book(&mut desk, 2_000, 101, 103); // mid 102, drift of 1 < band of 5
    assert!(
        pulled(&desk).is_empty(),
        "a small move should not cost a round trip"
    );
    assert_eq!(rested(&desk).len(), 2);
}

#[test]
fn it_stops_adding_on_the_side_that_would_break_its_inventory_cap() {
    let mut desk = quoting(2, 1, 0);
    book(&mut desk, 1_000, 100, 102);
    assert!(
        rested(&desk).is_empty(),
        "an inventory cap of zero leaves nothing to quote with"
    );
}

#[test]
fn a_cancel_a_strategy_asks_for_is_recorded_as_its_own_decision() {
    let mut desk = quoting(2, 1, 100);
    book(&mut desk, 1_000, 100, 102);
    book(&mut desk, 2_000, 110, 112);

    let has_cancel = desk
        .log
        .records()
        .iter()
        .any(|r| matches!(r.event, Event::Out(Outbound::CancelSubmitted { .. })));
    assert!(has_cancel, "the cancel must be in the log");
}

#[test]
fn cancelling_an_order_that_has_already_gone_is_not_an_error() {
    // A fill and a cancel can cross.
    let mut desk = quoting(2, 1, 100);
    book(&mut desk, 1_000, 100, 102);
    let (bid, _, _) = rested(&desk)
        .into_iter()
        .find(|(_, s, _)| *s == Side::Buy)
        .expect("bid");

    // Take the resting bid out with a trade through it, then move the book.
    desk.on_inbound(trade(1_500, 98, 5, Side::Sell))
        .expect("trade");
    assert_eq!(desk.order(bid).state, OrderState::Filled);

    book(&mut desk, 2_000, 110, 112);
    assert_eq!(desk.engine.state(), EngineState::Running, "no halt, no error");
}

#[test]
fn a_refused_intent_frees_the_side_rather_than_wedging_it() {
    let mut desk = quoting(2, 1, 100);
    book(&mut desk, 1_000, 100, 102);
    assert_eq!(rested(&desk).len(), 2);

    // Halt, so the next intents are refused rather than filled.
    desk.on_inbound(command(1_100, Command::Halt))
        .expect("halt");
    book(&mut desk, 2_000, 110, 112);
    book(&mut desk, 3_000, 110, 112);
    assert!(
        !refusals(&desk.log).is_empty(),
        "the halt should have refused the re-post"
    );

    // Resume, and it must be quoting again rather than stuck.
    desk.on_inbound(command(3_100, Command::Resume))
        .expect("resume");
    let before = rested(&desk).len();
    book(&mut desk, 4_000, 120, 122);
    assert!(
        rested(&desk).len() > before,
        "a refused side must quote again once it can"
    );
}

#[test]
fn a_fill_on_a_resting_order_moves_the_position() {
    let mut desk = quoting(2, 1, 100);
    book(&mut desk, 1_000, 100, 102);
    desk.on_inbound(trade(1_500, 98, 5, Side::Sell))
        .expect("trade");

    assert_eq!(desk.position(I), qty(1), "the resting bid was hit");
    let filled = desk.log.records().iter().any(|r| {
        matches!(r.event, Event::In(Inbound::Venue(v)) if matches!(v.kind, VenueKind::Filled { .. }))
    });
    assert!(filled, "the fill must be in the log");
}

// ---- looking ahead -------------------------------------------------------

const GUARDED_STEPS: i64 = 600;

/// What the guard saw, shared with the test.
#[derive(Default)]
struct Watched {
    quotes: usize,
    bars: usize,
    violations: Vec<String>,
}

/// Keeps any timestamp it is shown that sits after the event in hand.
struct LookAheadGuard {
    seen: Rc<RefCell<Watched>>,
    dispatches: usize,
}

impl LookAheadGuard {
    fn hold(&self, what: &str, observed: ExchangeTime, now: ExchangeTime) {
        if observed > now {
            self.seen.borrow_mut().violations.push(format!(
                "{what}: observed {} while processing an event at {}",
                observed.to_nanos(),
                now.to_nanos()
            ));
        }
    }
}

impl Strategy for LookAheadGuard {
    fn on_event(&mut self, event: &Seen<'_>, now: ExchangeTime, out: &mut Raised) {
        match event {
            Seen::Quote { at, .. } => {
                self.hold("quote", *at, now);
                self.seen.borrow_mut().quotes += 1;
            }
            Seen::Bar { bar, .. } => {
                self.hold("bar close", bar.close_time, now);
                self.hold("bar open", bar.open_time, now);
                assert_eq!(bar.instrument, I);
                self.seen.borrow_mut().bars += 1;
            }
            _ => {}
        }
        // Trade occasionally, so the session carries orders and fills rather
        // than being a pure read.
        self.dispatches += 1;
        if self.dispatches % 97 == 0 {
            out.intents
                .push(order_from(0, I, Side::Buy, qty(1), OrderKind::Market));
        }
    }
}

/// Quotes and trades on a deterministic zigzag, unevenly spaced so that window
/// boundaries do not line up with events.
fn zigzag() -> Vec<Inbound> {
    let mut events = Vec::new();
    let mut clock = 0i64;
    for step in 0..GUARDED_STEPS {
        clock += 1_000_000 + (step % 7) * 130_000;
        let mid = 100 + (step % 20) - 10;
        events.push(quote(clock, mid - 1, 500, mid + 1, 500));
        clock += 250_000;
        events.push(trade(clock, mid, 1, Side::Buy));
    }
    events
}

#[test]
fn a_strategy_never_observes_a_timestamp_later_than_the_event_in_hand() {
    let seen = Rc::new(RefCell::new(Watched::default()));
    let mut desk = Desk::new(sim(), 1 << 14);

    // Both bar conventions. The time bar is the one that could look ahead: it
    // closes on the strength of a later event.
    let tick = desk.add_aggregator(I, BarSpec::Tick(4));
    let timed = desk.add_aggregator(I, BarSpec::Time(3_000_000));
    assert_eq!(tick, 0);
    assert_eq!(timed, 1);
    desk.add_strategy(Box::new(LookAheadGuard {
        seen: Rc::clone(&seen),
        dispatches: 0,
    }));
    desk.run(&zigzag()).expect("session");

    let seen = seen.borrow();
    assert!(
        seen.violations.is_empty(),
        "a strategy saw the future {} times:\n{}",
        seen.violations.len(),
        seen.violations.join("\n")
    );

    // The session has to have shown it enough for the absence to mean
    // something.
    assert!(
        seen.quotes >= GUARDED_STEPS as usize,
        "only {} quotes",
        seen.quotes
    );
    assert!(seen.bars > 100, "only {} bars", seen.bars);
    assert!(
        !desk.orders.is_empty(),
        "the session never traded, so the order path went unexercised"
    );
}

// ---- recorded sessions ---------------------------------------------------

/// A deterministic triangular path, with an operator halt and resume at the
/// steps given.
fn triangle(steps: i64, pause: Option<(i64, i64)>) -> Vec<Inbound> {
    let mut events = Vec::new();
    let mut clock = 0i64;
    for step in 0..steps {
        clock += 1_000_000;
        let phase = step.rem_euclid(40);
        let mid = if phase < 20 {
            90 + phase
        } else {
            110 - (phase - 20)
        };
        events.push(quote(clock, mid - 1, 200, mid + 1, 200));
        clock += 500_000;
        events.push(trade(clock, mid, 1, Side::Buy));
        if let Some((halt, resume)) = pause {
            if step == halt {
                events.push(command(clock, Command::Halt));
            }
            if step == resume {
                events.push(command(clock, Command::Resume));
            }
        }
    }
    events
}

fn header_for(session_id: u64) -> LogHeader {
    LogHeader::new(
        session_id,
        ExchangeTime::from_nanos(0),
        OrderId::new(0),
        vec![InstrumentEntry::new(instrument_at(0), "TEST").expect("entry")],
    )
}

fn six_bar_desk<V: Venue>(venue: V) -> Desk<V> {
    let mut desk = Desk::new(venue, 1 << 13);
    let subscription = desk.add_aggregator(I, BarSpec::Tick(2));
    assert_eq!(subscription, 0);
    desk.add_strategy(Box::new(Crossover::new(0, I, subscription, 6, 10)));
    desk
}

/// Runs the session, to memory alone or to a file as well.
fn run_session(file: Option<File>) -> Desk<SimVenue> {
    let mut desk = six_bar_desk(sim());
    desk.file = file;
    desk.run(&triangle(400, Some((200, 250)))).expect("session");
    desk
}

fn recorded_bytes() -> Vec<u8> {
    let mut desk = run_session(Some(File::create(header_for(0xA11CE))));
    let mut file = desk.file.take().expect("file");
    file.flush();
    file.bytes
}

#[test]
fn a_session_recorded_to_a_file_reads_back_exactly() {
    // The same session twice: once to memory, once straight to the file.
    let in_memory = run_session(None);
    let expected = in_memory.log.records().to_vec();

    let mut recorded = run_session(Some(File::create(header_for(0xA11CE))));
    let mut file = recorded.file.take().expect("file");
    assert_eq!(file.writer.records(), expected.len() as u64);
    file.flush();

    let reader = LogReader::open(&file.bytes).expect("open");
    let from_disk = reader.read_all_intact().expect("intact");
    assert_eq!(from_disk.len(), expected.len());
    for (a, b) in expected.iter().zip(&from_disk) {
        assert_eq!(a, b, "record {:?} changed on the way to disk", a.seq);
    }

    // The session did enough for this to mean something.
    let orders = expected
        .iter()
        .filter(|r| matches!(r.event, Event::Out(Outbound::OrderSubmitted { .. })))
        .count();
    assert!(orders > 10, "only {orders} orders in the recorded session");
    assert!(expected.len() > 800, "only {} records", expected.len());
}

#[test]
fn a_recorded_session_carries_its_instrument_table() {
    let bytes = recorded_bytes();
    let reader = LogReader::open(&bytes).expect("open");
    let header = reader.header();
    assert_eq!(header.session_id, 0xA11CE);
    assert_eq!(header.instruments[0].symbol_str(), Some("TEST"));

    // The recorded conventions have to be the ones the session is configured
    // with, or instrument 0 means a different contract.
    assert!(header.check_against(&[instrument_at(0)]).is_ok());
    let different = Instrument {
        tick: Px::from_scaled(50_000_000),
        ..instrument_at(0)
    };
    assert!(header.check_against(&[different]).is_err());
}

#[test]
fn a_recorded_session_can_be_replayed_from_the_file() {
    let bytes = recorded_bytes();
    let reader = LogReader::open(&bytes).expect("open");
    let recorded = reader.read_all_intact().expect("intact");

    let mut replayed = six_bar_desk(SilentVenue::default());
    for record in &recorded {
        if let Some(inbound) = record.event.as_inbound() {
            replayed.on_inbound(*inbound).expect("replay");
        }
    }
    assert_eq!(replayed.log.records(), recorded.as_slice());
}

#[test]
fn a_recorded_session_can_be_read_one_record_at_a_time() {
    let bytes = recorded_bytes();
    let reader = LogReader::open(&bytes).expect("open");
    let total = reader.record_capacity();
    assert!(total > 800);

    // Seeking straight to the end without walking there.
    let last = reader.read_at(SeqNo::new(total - 1)).expect("read_at");
    assert_eq!(last.seq, SeqNo::new(total - 1));
    let first = reader.read_at(SeqNo::first()).expect("read_at");
    assert_eq!(first.seq, SeqNo::first());
}

// ---- ten thousand events -------------------------------------------------

/// How many inputs the feed produces.
const EVENTS: usize = 10_000;
const INSTRUMENTS: usize = 3;

/// Fixed, so the fixture is the same everywhere.
const SEED: u64 = 0x5eed_1234_abcd_0001;

/// A linear congruential generator.
struct Lcg(u64);

impl Lcg {
    fn next(&mut self) -> u64 {
        self.0 = self
            .0
            .wrapping_mul(6_364_136_223_846_793_005)
            .wrapping_add(1_442_695_040_888_963_407);
        // The high bits are the well-behaved ones.
        self.0 >> 16
    }

    fn below(&mut self, bound: u64) -> u64 {
        self.next() % bound
    }
}

/// Builds the fixture: `EVENTS` inputs across `INSTRUMENTS` instruments.
fn build_fixture() -> Vec<Inbound> {
    let mut rng = Lcg(SEED);
    let mut events = Vec::with_capacity(EVENTS);
    // A bounded random walk per instrument, in whole units.
    let mut mid = [100i64; INSTRUMENTS];
    let mut clock: i64 = 1_000_000;

    for step in 0..EVENTS {
        clock += 1_000 + rng.below(1_000) as i64;
        let which = rng.below(INSTRUMENTS as u64) as usize;
        let instrument = InstrumentId::new(which as u32);

        mid[which] += match rng.below(3) {
            0 => -1,
            1 => 0,
            _ => 1,
        };
        mid[which] = mid[which].clamp(50, 200);
        let m = mid[which];

        // A divergence near the end: the last stretch of the session runs
        // halted.
        if step == EVENTS * 95 / 100 {
            events.push(Inbound::VenuePosition(PositionReport {
                instrument,
                venue_qty: qty(9_999),
                venue_time: ExchangeTime::from_nanos(clock),
                receive_time: ReceiveTime::from_nanos(clock),
            }));
            continue;
        }

        match rng.below(100) {
            // Quotes dominate, as they do in life.
            0..=64 => {
                let bid_qty = qty(50 + rng.below(200) as i64);
                let ask_qty = qty(50 + rng.below(200) as i64);
                events.push(market_at(
                    instrument,
                    clock,
                    clock,
                    MarketKind::Quote {
                        bid_px: px(m - 1),
                        bid_qty,
                        ask_px: px(m + 1),
                        ask_qty,
                    },
                ));
            }
            65..=89 => {
                let size = qty(1 + rng.below(5) as i64);
                let aggressor = if rng.below(2) == 0 {
                    Side::Buy
                } else {
                    Side::Sell
                };
                events.push(market_at(
                    instrument,
                    clock,
                    clock,
                    MarketKind::Trade {
                        px: px(m),
                        qty: size,
                        aggressor,
                    },
                ));
            }
            // Backdated: the book must refuse these rather than move backwards.
            90..=94 => events.push(market_at(
                instrument,
                clock - 500_000,
                clock,
                MarketKind::Quote {
                    bid_px: px(1),
                    bid_qty: qty(1),
                    ask_px: px(2),
                    ask_qty: qty(1),
                },
            )),
            // Operator commands. Kill is terminal, so it has its own tests.
            _ => {
                let asked = match rng.below(3) {
                    0 => Command::Halt,
                    1 => Command::Resume,
                    _ => Command::Flatten,
                };
                events.push(command(clock, asked));
            }
        }
    }
    events
}

/// Wires three crossovers, one per instrument, each on its own bar stream.
fn wire_three<V: Venue>(venue: V) -> Desk<V> {
    let mut desk = Desk::with(INSTRUMENTS as u32, venue, 1 << 17);
    for i in 0..INSTRUMENTS {
        let instrument = InstrumentId::new(i as u32);
        let subscription = desk.add_aggregator(instrument, BarSpec::Tick(3));
        assert_eq!(subscription, i);
        desk.add_strategy(Box::new(Crossover::new(
            i as u16,
            instrument,
            subscription,
            8,
            20,
        )));
    }
    desk
}

fn digest(records: &[Record]) -> u64 {
    let mut hasher = DefaultHasher::new();
    records.len().hash(&mut hasher);
    for record in records {
        record.hash(&mut hasher);
    }
    hasher.finish()
}

fn run_live(events: &[Inbound]) -> Desk<SimVenue> {
    let fees = Fees {
        maker: Px::zero(),
        taker: Px::from_scaled(SCALE / 100),
    };
    let mut desk = wire_three(sim_of(INSTRUMENTS, fees));
    desk.run(events)
        .expect("the fixture session must not error");
    desk
}

#[test]
fn a_ten_thousand_event_session_replays_identically() {
    let fixture = build_fixture();
    assert_eq!(fixture.len(), EVENTS);

    let live = run_live(&fixture);
    let live_records = live.log.records().to_vec();

    // The session has to have actually done something, or this proves nothing.
    let orders = submitted(&live.log);
    let refused = refusals(&live.log).len();
    assert!(
        orders > 100,
        "only {orders} orders — the fixture is too tame"
    );
    assert!(refused > 0, "no refusals — the limits never bound");
    assert!(
        live.late > 100,
        "the backdated events were not exercised"
    );
    assert_eq!(
        live.engine.state(),
        EngineState::Halted,
        "the divergence should halt"
    );

    // Replay binds a venue that says nothing: the venue's reports are already
    // among the recorded inputs.
    let mut replayed = wire_three(SilentVenue::default());
    for record in &live_records {
        if let Some(inbound) = record.event.as_inbound() {
            replayed.on_inbound(*inbound).expect("replay");
        }
    }

    let replay_records = replayed.log.records();
    assert_eq!(
        replay_records.len(),
        live_records.len(),
        "replay produced a different number of records"
    );
    // Field by field, so a mismatch names the record rather than a hash.
    for (a, b) in live_records.iter().zip(replay_records) {
        assert_eq!(a, b, "records diverge at {:?}", a.seq);
    }
    assert_eq!(digest(&live_records), digest(replay_records));

    // The derived state has to match too, not just the log.
    assert_eq!(replayed.engine.state(), live.engine.state());
    assert_eq!(replayed.late, live.late);
    for i in 0..INSTRUMENTS {
        assert_eq!(live.held[i], replayed.held[i], "position diverges on {i}");
        assert_eq!(live.cash[i], replayed.cash[i], "cash diverges on {i}");
    }
}

#[test]
fn two_live_runs_over_the_fixture_agree() {
    let first = run_live(&build_fixture());
    let second = run_live(&build_fixture());
    assert_eq!(digest(first.log.records()), digest(second.log.records()));
}

#[test]
fn the_cursor_walks_seeks_and_exhausts_a_large_log() {
    let live = run_live(&build_fixture());
    let log = &live.log;
    let total = log.records().len();
    assert!(total > EVENTS, "the log holds decisions as well as inputs");

    // A full walk visits every record once, in sequence order.
    let mut cursor: Cursor<'_> = log.cursor();
    let mut seen = 0usize;
    let mut expected = SeqNo::first();
    while let Some(record) = cursor.next_record() {
        assert_eq!(record.seq, expected);
        expected = SeqNo::new(expected.raw() + 1);
        seen += 1;
    }
    assert_eq!(seen, total);
    assert!(cursor.is_exhausted());

    // Seeking into the middle resumes from exactly there.
    let middle = SeqNo::new((total / 2) as u64);
    let mut cursor = log.cursor();
    assert!(cursor.seek(middle));
    assert_eq!(cursor.position(), middle);
    assert_eq!(cursor.next_record().expect("record").seq, middle);

    // Seeking to the end is legal and leaves nothing to read; past it is not.
    let mut cursor = log.cursor();
    assert!(cursor.seek(SeqNo::new(total as u64)));
    assert!(cursor.is_exhausted());
    assert!(!cursor.seek(SeqNo::new(total as u64 + 1)));
}

#[test]
fn a_ten_thousand_event_session_stays_within_its_reservations() {
    let live = run_live(&build_fixture());
    assert!(
        !live.would_allocate(),
        "a buffer filled: orders={} log={}",
        live.orders.len(),
        live.log.records().len()
    );
    assert!(!live.log.would_grow());
}

// ---- backtesting and replaying a recording -------------------------------

type Books = Rc<RefCell<Vec<TopOfBook>>>;

fn watching<V: Venue>(venue: V, seen: &Books) -> Desk<V> {
    let mut desk = Desk::new(venue, 1 << 13);
    let subscription = desk.add_aggregator(I, BarSpec::Tick(2));
    desk.add_strategy(Box::new(BookWatcher {
        inner: Crossover::new(0, I, subscription, 6, 10),
        seen: Rc::clone(seen),
    }));
    desk
}

/// Records a session and returns the file, the books its strategy saw, and the
/// records.
fn record(commands: bool) -> (Vec<u8>, Vec<TopOfBook>, Vec<Record>) {
    let seen: Books = Rc::new(RefCell::new(Vec::new()));
    let mut desk = watching(sim(), &seen);
    desk.file = Some(File::create(header_for(7)));
    let pause = if commands { Some((150, 180)) } else { None };
    desk.run(&triangle(300, pause)).expect("session");
    let mut file = desk.file.take().expect("file");
    file.flush();

    let records = LogReader::open(&file.bytes)
        .expect("open")
        .read_all_intact()
        .expect("intact");
    let books = seen.borrow().clone();
    (file.bytes, books, records)
}

fn open(bytes: &[u8], mode: Replaying) -> HistoricalFeed {
    HistoricalFeed::open(bytes, &[instrument_at(0)], mode).expect("open")
}

fn over<V: Venue>(desk: &mut Desk<V>, feed: &mut HistoricalFeed) {
    let mut requests = Vec::new();
    while let Some(event) = feed.next_event() {
        desk.on_inbound(event).expect("session");
        desk.engine.take_timer_requests(&mut requests);
        for request in requests.drain(..) {
            feed.schedule_timer(request);
        }
    }
}

fn decisions_in(records: &[Record]) -> Vec<Outbound> {
    records
        .iter()
        .filter_map(|r| r.event.as_outbound().copied())
        .collect()
}

#[test]
fn book_building_reproduces_a_recorded_sessions_top_of_book_exactly() {
    let (bytes, recorded_books, _) = record(true);
    assert!(
        recorded_books.len() >= 300,
        "only {} books observed",
        recorded_books.len()
    );

    let replayed_books: Books = Rc::new(RefCell::new(Vec::new()));
    let mut feed = open(&bytes, Replaying::MarketDataOnly);
    let mut desk = watching(sim(), &replayed_books);
    over(&mut desk, &mut feed);

    let replayed = replayed_books.borrow();
    assert_eq!(
        replayed.len(),
        recorded_books.len(),
        "a different number of book updates reached the strategy"
    );
    for (index, (a, b)) in recorded_books.iter().zip(replayed.iter()).enumerate() {
        assert_eq!(a, b, "top of book diverges at update {index}");
    }
}

#[test]
fn a_backtest_with_the_same_strategy_reproduces_the_recorded_decisions() {
    // No operator actions in this recording. Same market, same strategy, same
    // venue — so the decisions must come out identical even though the venue
    // reports were regenerated rather than replayed.
    let (bytes, _, recorded) = record(false);
    let recorded_decisions = decisions_in(&recorded);
    assert!(
        recorded_decisions.len() > 10,
        "only {} decisions — the recording is too tame to prove anything",
        recorded_decisions.len()
    );

    let seen: Books = Rc::new(RefCell::new(Vec::new()));
    let mut feed = open(&bytes, Replaying::MarketDataOnly);
    let mut desk = watching(sim(), &seen);
    over(&mut desk, &mut feed);
    assert_eq!(desk.log.outbound(), recorded_decisions);
}

#[test]
fn a_backtest_over_a_session_that_had_operator_actions_diverges_from_it() {
    // The recorded operator halted trading; this run never sees that command, so
    // it keeps trading through the window the recorded session sat out.
    let (bytes, _, recorded) = record(true);
    let recorded_decisions = decisions_in(&recorded);

    let seen: Books = Rc::new(RefCell::new(Vec::new()));
    let mut feed = open(&bytes, Replaying::MarketDataOnly);
    let mut desk = watching(sim(), &seen);
    over(&mut desk, &mut feed);
    let fresh = desk.log.outbound();

    assert_ne!(fresh, recorded_decisions);
    // And it diverges exactly where the operator acted.
    let at = fresh
        .iter()
        .zip(&recorded_decisions)
        .position(|(a, b)| a != b)
        .expect("they must differ somewhere");
    assert!(
        matches!(
            recorded_decisions[at],
            Outbound::StateChanged {
                to: EngineState::Halted,
                reason: StateReason::OperatorCommand,
                ..
            }
        ),
        "expected the divergence to start at the operator's halt, got {:?}",
        recorded_decisions[at]
    );
    // A replay, by contrast, does reproduce it.
    let mut replay = open(&bytes, Replaying::EveryInput);
    let seen2: Books = Rc::new(RefCell::new(Vec::new()));
    let mut replayed = watching(SilentVenue::default(), &seen2);
    over(&mut replayed, &mut replay);
    assert_eq!(replayed.log.outbound(), recorded_decisions);
}

#[test]
fn a_backtest_replays_market_data_and_nothing_else() {
    let (bytes, _, recorded) = record(true);
    let feed = open(&bytes, Replaying::MarketDataOnly);
    let market_records = recorded
        .iter()
        .filter(|r| matches!(r.event, Event::In(Inbound::Market(_))))
        .count();
    assert_eq!(feed.len(), market_records);

    // The recorded session definitely held other inputs, or this proves nothing.
    let other = recorded
        .iter()
        .filter(|r| matches!(r.event, Event::In(i) if !matches!(i, Inbound::Market(_))))
        .count();
    assert!(other > 0, "the recording had no venue reports or commands");
}

#[test]
fn a_replay_feeds_back_every_input() {
    let (bytes, _, recorded) = record(true);
    let inputs = recorded
        .iter()
        .filter(|r| r.event.as_inbound().is_some())
        .count();
    assert_eq!(open(&bytes, Replaying::EveryInput).len(), inputs);
}

#[test]
fn a_replay_against_a_silent_venue_reproduces_the_whole_log() {
    let (bytes, _, recorded) = record(true);
    let seen: Books = Rc::new(RefCell::new(Vec::new()));
    let mut feed = open(&bytes, Replaying::EveryInput);
    let mut desk = watching(SilentVenue::default(), &seen);
    over(&mut desk, &mut feed);
    assert_eq!(desk.log.records(), recorded.as_slice());
}

#[test]
fn the_recorded_decisions_are_kept_but_never_replayed() {
    let (bytes, _, recorded) = record(true);
    let mut feed = open(&bytes, Replaying::MarketDataOnly);
    assert_eq!(feed.recorded_decisions(), decisions_in(&recorded));
    // And none of them are among what the feed will hand out.
    while let Some(event) = feed.next_event() {
        assert!(matches!(event, Inbound::Market(_)));
    }
}

#[test]
fn a_session_recorded_under_different_conventions_is_refused() {
    let (bytes, _, _) = record(true);
    let different = Instrument {
        tick: Px::from_scaled(50_000_000),
        ..instrument_at(0)
    };
    assert!(matches!(
        HistoricalFeed::open(&bytes, &[different], Replaying::MarketDataOnly),
        Err(LogFileError::Codec(_))
    ));
}

#[test]
fn a_damaged_recording_is_refused_unless_the_caller_asks_to_salvage_it() {
    let (mut bytes, _, recorded) = record(true);

    // Cut the file part-way through the last record.
    let keep = header_for(7).offset_of(recorded.len() as u64 - 1) + 20;
    bytes.truncate(keep as usize);

    assert!(matches!(
        HistoricalFeed::open(&bytes, &[instrument_at(0)], Replaying::MarketDataOnly),
        Err(LogFileError::Damaged(_))
    ));

    let salvaged =
        HistoricalFeed::open_salvaged(&bytes, &[instrument_at(0)], Replaying::MarketDataOnly)
            .expect("salvage");
    let recovery = salvaged.recovery();
    assert!(!recovery.is_clean(), "the caller must be able to see this");
    assert!(matches!(
        recovery.stopped,
        Some(StopReason::TornTail { partial_bytes: 20 })
    ));
    assert_eq!(recovery.records, recorded.len() as u64 - 1);
}

#[test]
fn a_file_that_is_not_a_recording_is_refused() {
    assert!(matches!(
        HistoricalFeed::open(
            b"not a log, just some bytes sitting in a file",
            &[instrument_at(0)],
            Replaying::MarketDataOnly
        ),
        Err(LogFileError::Codec(_))
    ));
}

fn timer_at(at: i64, token: u64) -> TimerRequest {
    TimerRequest {
        strategy: StrategyId::new(0),
        at: ExchangeTime::from_nanos(at),
        token: TimerToken::new(token),
    }
}

#[test]
fn a_backtest_fires_the_timers_a_strategy_asks_for() {
    let (bytes, _, _) = record(true);
    let mut feed = open(&bytes, Replaying::MarketDataOnly);
    let first = feed.next_event().expect("an input");
    let after = first.exchange_time().expect("market data has one");

    feed.schedule_timer(timer_at(after.to_nanos() + 1, 9));

    let next = feed.next_event().expect("an input");
    assert!(
        matches!(next, Inbound::Timer(t) if t.token == TimerToken::new(9)),
        "the timer should have fired before the next market event, got {next:?}"
    );
}

#[test]
fn a_replay_ignores_timer_requests_because_the_firings_are_already_recorded() {
    let (bytes, _, _) = record(true);
    let mut feed = open(&bytes, Replaying::EveryInput);
    let before = feed.remaining();
    feed.schedule_timer(timer_at(1, 1));
    // Nothing was added, and the first input is still a recorded one.
    assert_eq!(feed.remaining(), before);
    assert!(!matches!(feed.next_event(), Some(Inbound::Timer(_))));
}

#[test]
fn the_header_travels_with_the_feed() {
    let (bytes, _, _) = record(true);
    let feed = open(&bytes, Replaying::MarketDataOnly);
    assert_eq!(feed.header().session_id, 7);
    assert_eq!(feed.header().instruments[0].symbol_str(), Some("TEST"));
    assert_eq!(feed.mode(), Replaying::MarketDataOnly);
}

// ---- a paper session -----------------------------------------------------

/// Reads a price with two places or a whole size, in billionths.
fn read_decimal(text: &str) -> Result<i64, String> {
    let (whole, part) = text.split_once('.').unwrap_or((text, ""));
    format!("{whole}{part:0<9}")
        .parse()
        .map_err(|_| "not a decimal".to_string())
}

/// A wandering market in the feed's own protocol.
fn market_lines(steps: i64) -> String {
    let mut text = String::from("# a bridge would print these\n");
    for step in 0..steps {
        let phase = step % 40;
        let mid = 100 + if phase < 20 { phase } else { 40 - phase };
        let at = 1_700_000_000_000_000_000i64 + step * 100_000_000;
        text.push_str(&format!("Q SYNTH {at} {}.00 5 {}.00 5\n", mid - 1, mid + 1));
        text.push_str(&format!(
            "T SYNTH {} {mid}.00 1 {}\n",
            at + 50_000_000,
            if step % 2 == 0 { "B" } else { "S" }
        ));
    }
    text
}

/// A live feed over a whole source, with a console that has spoken.
struct Paper {
    feed: LiveFeed,
    lines: Vec<String>,
    next: usize,
    commands: Vec<Command>,
    clock: ManualClock,
    symbols: Symbols,
}

impl Paper {
    fn over(lines: String, console: &str) -> Paper {
        let mut symbols = Symbols::new();
        symbols.add("SYNTH", I);
        Paper {
            feed: LiveFeed::new(),
            lines: lines.lines().map(str::to_string).collect(),
            next: 0,
            commands: console
                .lines()
                .filter_map(|line| match command_of(line) {
                    ControlWord::Command(c) => Some(c),
                    _ => None,
                })
                .collect(),
            clock: ManualClock::at(1_000),
            symbols,
        }
    }

    fn next_event(&mut self) -> Option<Inbound> {
        let asked = if self.commands.is_empty() {
            None
        } else {
            Some(self.commands.remove(0))
        };
        let mut step = self.feed.poll(asked, self.clock.receive_time());
        loop {
            match step {
                Poll::Deliver(event) => return Some(event),
                Poll::Ended => return None,
                Poll::Wait => {
                    let arrival = self.arrival();
                    step = self.feed.arrived(arrival);
                }
            }
        }
    }

    fn arrival(&mut self) -> Arrival {
        while let Some(line) = self.lines.get(self.next) {
            self.next += 1;
            let readings: Vec<Result<i64, String>> =
                fields(line).iter().map(|w| read_decimal(w)).collect();
            let at = self.clock.receive_time();
            match parse_line(line, self.next as u64, &self.symbols, at, &readings) {
                Ok(Some(event)) => return Arrival::Event(event),
                Ok(None) => {}
                Err(e) => return Arrival::Fault(e),
            }
        }
        Arrival::Closed
    }
}

fn paper_desk() -> Desk<SimVenue> {
    let mut desk = Desk::new(sim(), 1 << 14);
    let subscription = desk.add_aggregator(I, BarSpec::Tick(1));
    desk.add_strategy(Box::new(Crossover::new(0, I, subscription, 10, 5)));
    desk
}

fn pump(paper: &mut Paper, desk: &mut Desk<SimVenue>) {
    let mut requests = Vec::new();
    while let Some(event) = paper.next_event() {
        desk.on_inbound(event).expect("session");
        desk.engine.take_timer_requests(&mut requests);
        for request in requests.drain(..) {
            paper.feed.schedule_timer(request);
        }
        if desk.engine.state() == EngineState::Killed {
            break;
        }
    }
}

#[test]
fn a_paper_session_trades_against_a_live_feed() {
    let mut paper = Paper::over(market_lines(300), "");
    let mut desk = paper_desk();
    pump(&mut paper, &mut desk);

    assert_eq!(paper.feed.market_events(), 600);
    let orders = submitted(&desk.log);
    assert!(orders > 5, "only {orders} orders over 300 market steps");
    assert_eq!(desk.engine.state(), EngineState::Running);
    // Every decision is still caused by a recorded input, live feed or not.
    for record in desk.log.records() {
        if let Some(out) = record.event.as_outbound() {
            assert!(cause_of(out) < record.seq);
        }
    }
}

#[test]
fn an_operator_can_halt_and_resume_a_running_session() {
    let mut paper = Paper::over(market_lines(300), "halt\n");
    let mut desk = paper_desk();
    pump(&mut paper, &mut desk);

    assert_eq!(desk.engine.state(), EngineState::Halted);
    let halts = count(&desk.log, |o| {
        matches!(
            o,
            Outbound::StateChanged {
                to: EngineState::Halted,
                ..
            }
        )
    });
    assert!(halts > 0, "the halt should be in the log");
    // And it actually stopped the trading it would otherwise have done.
    let halted = refusals(&desk.log)
        .iter()
        .filter(|r| **r == RiskReason::Halted)
        .count();
    assert!(
        halted > 0,
        "the halt refused nothing, so it proves nothing"
    );
}

#[test]
fn an_operator_kill_stops_a_running_session() {
    let mut paper = Paper::over(market_lines(300), "kill\n");
    let mut desk = paper_desk();
    pump(&mut paper, &mut desk);

    assert_eq!(desk.engine.state(), EngineState::Killed);
    assert!(
        paper.feed.market_events() < 600,
        "the kill should have ended it early, saw all {} events",
        paper.feed.market_events()
    );
    assert_eq!(paper.feed.commands_seen(), 1);
}

// ---- after a crash -------------------------------------------------------

#[test]
fn a_session_re_derived_after_a_crash_arrives_where_it_was() {
    let inputs = triangle(300, Some((150, 180)));
    let mut crashed = six_bar_desk(sim());
    crashed.run(&inputs).expect("session");
    assert!(!crashed.orders.is_empty());

    // The same inputs through the same venue, into a log that is not written.
    let mut recovered = six_bar_desk(sim());
    recovered.engine.begin_replay();
    recovered.run(&inputs).expect("replay");
    assert!(recovered.log.is_empty());
    assert_eq!(recovered.held, crashed.held);
    assert_eq!(recovered.cash, crashed.cash);
    assert_eq!(recovered.orders.len(), crashed.orders.len());
    assert_eq!(recovered.engine.state(), crashed.engine.state());
    assert_eq!(recovered.engine.now(), crashed.engine.now());

    // It starts halted, whatever it was.
    recovered.engine.end_replay();
    assert_eq!(recovered.engine.state(), EngineState::Halted);
}

#[test]
fn a_log_that_fills_up_halts_the_session() {
    let mut desk = wanting(sim(), OrderKind::Market, 5);
    desk.log_limit = 1;
    let outcome = desk.on_inbound(quote(1_000, 99, 500, 101, 500));
    assert_eq!(outcome, Err(EngineError::Log(LogError::WriteFailed)));
    assert_eq!(desk.engine.state(), EngineState::Halted);
    assert_eq!(desk.log.records().len(), 1, "the input, and no decision");
}
