//! Everything that happens *to* the system. An inbound event is an input to
//! the session, and a replay feeds exactly this set back.
use vstd::prelude::*;

use crate::value::{
    ExchangeTime, InstrumentId, Notional, OrderId, Px, Qty, ReceiveTime, Side, StrategyId,
};

verus! {

/// An input to the session.
#[derive(Debug, Clone, Copy, PartialEq, Eq, Hash, Structural)]
pub enum Inbound {
    /// The market moved.
    Market(MarketEvent),
    /// The venue said something about an order.
    Venue(VenueEvent),
    /// The venue reported its own view of a position.
    VenuePosition(PositionReport),
    /// A timer a strategy asked for came due.
    Timer(TimerEvent),
    /// An operator acted.
    Command(CommandEvent),
}

impl Inbound {
    pub open spec fn spec_receive_time(self) -> ReceiveTime {
        match self {
            Inbound::Market(e) => e.receive_time,
            Inbound::Venue(e) => e.receive_time,
            Inbound::VenuePosition(e) => e.receive_time,
            Inbound::Timer(e) => e.receive_time,
            Inbound::Command(e) => e.receive_time,
        }
    }

    pub open spec fn spec_exchange_time(self) -> Option<ExchangeTime> {
        match self {
            Inbound::Market(e) => Some(e.exchange_time),
            Inbound::Venue(e) => Some(e.venue_time),
            Inbound::VenuePosition(e) => Some(e.venue_time),
            Inbound::Timer(e) => Some(e.fires_at),
            Inbound::Command(_) => None,
        }
    }

    /// When the process observed this event. Every input has such a moment.
    pub fn receive_time(&self) -> (at: ReceiveTime)
        ensures
            at == self.spec_receive_time(),
    {
        match self {
            Inbound::Market(e) => e.receive_time,
            Inbound::Venue(e) => e.receive_time,
            Inbound::VenuePosition(e) => e.receive_time,
            Inbound::Timer(e) => e.receive_time,
            Inbound::Command(e) => e.receive_time,
        }
    }

    /// The venue's timestamp, where a venue assigned one. `None` for an
    /// operator command, because no venue was involved.
    pub fn exchange_time(&self) -> (at: Option<ExchangeTime>)
        ensures
            at == self.spec_exchange_time(),
    {
        match self {
            Inbound::Market(e) => Some(e.exchange_time),
            Inbound::Venue(e) => Some(e.venue_time),
            Inbound::VenuePosition(e) => Some(e.venue_time),
            Inbound::Timer(e) => Some(e.fires_at),
            Inbound::Command(_) => None,
        }
    }
}

/// A market-data event for one instrument. It carries both clocks: the venue
/// said when it happened, and the process observed it later.
#[derive(Debug, Clone, Copy, PartialEq, Eq, Hash, Structural)]
pub struct MarketEvent {
    /// Which instrument moved.
    pub instrument: InstrumentId,
    /// When the venue says it happened.
    pub exchange_time: ExchangeTime,
    /// When this process saw it.
    pub receive_time: ReceiveTime,
    /// What happened.
    pub kind: MarketKind,
}

/// What kind of market event this is.
#[derive(Debug, Clone, Copy, PartialEq, Eq, Hash, Structural)]
pub enum MarketKind {
    /// Top of book changed.
    Quote { bid_px: Px, bid_qty: Qty, ask_px: Px, ask_qty: Qty },
    /// One price level of the order book changed. A book update is a run of
    /// these followed by [`MarketKind::BookApplied`], and nothing downstream
    /// sees a level on its own. A quantity of zero removes the level.
    Level { side: Side, px: Px, qty: Qty },
    /// Every level of the update just before this one is now in force.
    BookApplied,
    /// Discard the book; a snapshot follows.
    BookReset,
    /// A trade printed.
    Trade { px: Px, qty: Qty, aggressor: Side },
}

/// Something the venue said about one of our orders.
#[derive(Debug, Clone, Copy, PartialEq, Eq, Hash, Structural)]
pub struct VenueEvent {
    /// The order this concerns.
    pub order: OrderId,
    /// The venue's timestamp.
    pub venue_time: ExchangeTime,
    /// When this process saw it.
    pub receive_time: ReceiveTime,
    /// What the venue said.
    pub kind: VenueKind,
}

/// What the venue said.
#[derive(Debug, Clone, Copy, PartialEq, Eq, Hash, Structural)]
pub enum VenueKind {
    /// The order is live.
    Accepted,
    /// The order never became live.
    Rejected { reason: RejectReason },
    /// Part or all of the order executed. The fee is signed: positive is paid,
    /// negative is a rebate.
    Filled { px: Px, qty: Qty, fee: Notional },
    /// The order is no longer live and will not execute further.
    Cancelled,
    /// A cancel request did not take effect.
    CancelRejected { reason: RejectReason },
    /// The order reached its expiry without fully executing.
    Expired,
}

/// Why a venue refused something. A closed set with no free-text arm.
#[derive(Debug, Clone, Copy, PartialEq, Eq, Hash, Structural)]
pub enum RejectReason {
    /// The venue does not know this instrument.
    UnknownInstrument,
    /// The price was off-tick, outside bands, or otherwise unacceptable.
    InvalidPrice,
    /// The quantity was off-lot, below minimum, or otherwise unacceptable.
    InvalidQuantity,
    /// Not enough margin or buying power.
    InsufficientFunds,
    /// We sent too fast.
    RateLimited,
    /// The venue has no record of this order.
    UnknownOrder,
    /// The order was already terminal when the request arrived.
    AlreadyTerminal,
    /// The venue is not accepting orders right now.
    Unavailable,
}

/// The venue's own view of a position, for reconciliation.
#[derive(Debug, Clone, Copy, PartialEq, Eq, Hash, Structural)]
pub struct PositionReport {
    /// Which instrument.
    pub instrument: InstrumentId,
    /// The venue's signed net quantity.
    pub venue_qty: Qty,
    /// The venue's timestamp.
    pub venue_time: ExchangeTime,
    /// When this process saw it.
    pub receive_time: ReceiveTime,
}

/// A wake-up a strategy asked for, now due.
#[derive(Debug, Clone, Copy, PartialEq, Eq, Hash, Structural)]
pub struct TimerEvent {
    /// Who asked.
    pub strategy: StrategyId,
    /// The strategy's own label for this timer, returned unchanged.
    pub token: TimerToken,
    /// The instant this timer represents, on the exchange clock.
    pub fires_at: ExchangeTime,
    /// When this process saw it.
    pub receive_time: ReceiveTime,
}

/// A strategy's opaque label for one of its timers.
#[derive(Debug, Clone, Copy, PartialEq, Eq, PartialOrd, Ord, Hash, Structural)]
pub struct TimerToken(pub u64);

impl TimerToken {
    /// Builds a token from its raw number.
    pub fn new(raw: u64) -> (token: TimerToken)
        ensures
            token == TimerToken(raw),
    {
        TimerToken(raw)
    }

    /// The underlying number.
    pub fn raw(self) -> (raw: u64)
        ensures
            raw == self.0,
    {
        self.0
    }
}

/// An operator action, recorded as an input to the session, so that a replay
/// reproduces it.
#[derive(Debug, Clone, Copy, PartialEq, Eq, Hash, Structural)]
pub struct CommandEvent {
    /// What was asked for.
    pub command: Command,
    /// When this process saw it.
    pub receive_time: ReceiveTime,
}

/// The control surface, in full: exactly four.
#[derive(Debug, Clone, Copy, PartialEq, Eq, Hash, Structural)]
pub enum Command {
    /// Stop taking new risk. Reduce-only orders still pass the risk gate.
    Halt,
    /// Leave a halt. Never automatic.
    Resume,
    /// Stop everything, and cancel what is resting. Terminal for the session.
    Kill,
    /// Drive every position to zero with reduce-only orders.
    Flatten,
}

impl RejectReason {
    /// What it is called.
    pub open spec fn label(self) -> Seq<char> {
        match self {
            RejectReason::UnknownInstrument => "UnknownInstrument"@,
            RejectReason::InvalidPrice => "InvalidPrice"@,
            RejectReason::InvalidQuantity => "InvalidQuantity"@,
            RejectReason::InsufficientFunds => "InsufficientFunds"@,
            RejectReason::RateLimited => "RateLimited"@,
            RejectReason::UnknownOrder => "UnknownOrder"@,
            RejectReason::AlreadyTerminal => "AlreadyTerminal"@,
            RejectReason::Unavailable => "Unavailable"@,
        }
    }

    /// What it is called.
    pub fn name(self) -> (name: &'static str)
        ensures
            name@ == self.label(),
    {
        match self {
            RejectReason::UnknownInstrument => "UnknownInstrument",
            RejectReason::InvalidPrice => "InvalidPrice",
            RejectReason::InvalidQuantity => "InvalidQuantity",
            RejectReason::InsufficientFunds => "InsufficientFunds",
            RejectReason::RateLimited => "RateLimited",
            RejectReason::UnknownOrder => "UnknownOrder",
            RejectReason::AlreadyTerminal => "AlreadyTerminal",
            RejectReason::Unavailable => "Unavailable",
        }
    }
}

} // verus!
