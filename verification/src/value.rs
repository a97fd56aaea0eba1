//! The values a session is made of: prices, quantities, money, identities and
//! the two clocks. Every one is a plain integer with a name of its own, so a
//! price can not be read as a quantity nor one clock as the other.
use vstd::prelude::*;

verus! {

/// How many parts one unit of a price, a quantity or an amount divides into.
pub const SCALE: i64 = 1_000_000_000;

/// A price in parts of [`SCALE`].
#[derive(Debug, Clone, Copy, PartialEq, Eq, PartialOrd, Ord, Hash, Structural)]
pub struct Px(pub i64);

impl Px {
    /// Nothing.
    pub fn zero() -> (zero: Px)
        ensures
            zero == Px(0),
    {
        Px(0)
    }

    /// The price of `scaled` parts.
    pub fn from_scaled(scaled: i64) -> (px: Px)
        ensures
            px == Px(scaled),
    {
        Px(scaled)
    }

    /// The price in parts.
    pub fn to_scaled(self) -> (scaled: i64)
        ensures
            scaled == self.0,
    {
        self.0
    }
}

/// A quantity in parts of [`SCALE`]. A position's quantity is signed.
#[derive(Debug, Clone, Copy, PartialEq, Eq, PartialOrd, Ord, Hash, Structural)]
pub struct Qty(pub i64);

impl Qty {
    /// Nothing.
    pub fn zero() -> (zero: Qty)
        ensures
            zero == Qty(0),
    {
        Qty(0)
    }

    /// The quantity of `scaled` parts.
    pub fn from_scaled(scaled: i64) -> (qty: Qty)
        ensures
            qty == Qty(scaled),
    {
        Qty(scaled)
    }

    /// The quantity in parts.
    pub fn to_scaled(self) -> (scaled: i64)
        ensures
            scaled == self.0,
    {
        self.0
    }
}

/// An amount of money in parts of [`SCALE`].
#[derive(Debug, Clone, Copy, PartialEq, Eq, PartialOrd, Ord, Hash, Structural)]
pub struct Notional(pub i128);

impl Notional {
    /// Nothing.
    pub fn zero() -> (zero: Notional)
        ensures
            zero == Notional(0),
    {
        Notional(0)
    }

    /// The amount of `scaled` parts.
    pub fn from_scaled(scaled: i128) -> (amount: Notional)
        ensures
            amount == Notional(scaled),
    {
        Notional(scaled)
    }

    /// The amount in parts.
    pub fn to_scaled(self) -> (scaled: i128)
        ensures
            scaled == self.0,
    {
        self.0
    }
}

/// Which way an order trades, or which side of a book a level rests on.
#[derive(Debug, Clone, Copy, PartialEq, Eq, Hash, Structural)]
pub enum Side {
    Buy,
    Sell,
}

impl Side {
    /// What it is called.
    pub open spec fn label(self) -> Seq<char> {
        match self {
            Side::Buy => "Buy"@,
            Side::Sell => "Sell"@,
        }
    }

    /// What it is called.
    pub fn name(self) -> (name: &'static str)
        ensures
            name@ == self.label(),
    {
        match self {
            Side::Buy => "Buy",
            Side::Sell => "Sell",
        }
    }
}

/// Names an instrument. Ids are dense from zero within a session.
#[derive(Debug, Clone, Copy, PartialEq, Eq, PartialOrd, Ord, Hash, Structural)]
pub struct InstrumentId(pub u32);

impl InstrumentId {
    pub fn new(raw: u32) -> (id: InstrumentId)
        ensures
            id == InstrumentId(raw),
    {
        InstrumentId(raw)
    }

    pub fn raw(self) -> (raw: u32)
        ensures
            raw == self.0,
    {
        self.0
    }
}

/// Names an order.
#[derive(Debug, Clone, Copy, PartialEq, Eq, PartialOrd, Ord, Hash, Structural)]
pub struct OrderId(pub u64);

impl OrderId {
    pub fn new(raw: u64) -> (id: OrderId)
        ensures
            id == OrderId(raw),
    {
        OrderId(raw)
    }

    pub fn raw(self) -> (raw: u64)
        ensures
            raw == self.0,
    {
        self.0
    }
}

/// Names a strategy.
#[derive(Debug, Clone, Copy, PartialEq, Eq, PartialOrd, Ord, Hash, Structural)]
pub struct StrategyId(pub u16);

impl StrategyId {
    pub fn new(raw: u16) -> (id: StrategyId)
        ensures
            id == StrategyId(raw),
    {
        StrategyId(raw)
    }

    pub fn raw(self) -> (raw: u16)
        ensures
            raw == self.0,
    {
        self.0
    }
}

/// An instant on the venue's clock, in nanoseconds. The only clock that orders
/// market events.
#[derive(Debug, Clone, Copy, PartialEq, Eq, PartialOrd, Ord, Hash, Structural)]
pub struct ExchangeTime(pub i64);

impl ExchangeTime {
    pub fn from_nanos(nanos: i64) -> (at: ExchangeTime)
        ensures
            at == ExchangeTime(nanos),
    {
        ExchangeTime(nanos)
    }

    pub fn to_nanos(self) -> (nanos: i64)
        ensures
            nanos == self.0,
    {
        self.0
    }
}

/// An instant on this process's clock, in nanoseconds. For measuring latency,
/// never for market logic.
#[derive(Debug, Clone, Copy, PartialEq, Eq, PartialOrd, Ord, Hash, Structural)]
pub struct ReceiveTime(pub i64);

impl ReceiveTime {
    pub fn from_nanos(nanos: i64) -> (at: ReceiveTime)
        ensures
            at == ReceiveTime(nanos),
    {
        ReceiveTime(nanos)
    }

    pub fn to_nanos(self) -> (nanos: i64)
        ensures
            nanos == self.0,
    {
        self.0
    }
}

/// An instant on this process's monotonic clock, in nanoseconds from an origin of
/// its own: it never goes back, and tells no time of day.
#[derive(Debug, Clone, Copy, PartialEq, Eq, PartialOrd, Ord, Hash, Structural)]
pub struct MonotonicTime(pub i64);

impl MonotonicTime {
    pub fn from_nanos(nanos: i64) -> (at: MonotonicTime)
        ensures
            at == MonotonicTime(nanos),
    {
        MonotonicTime(nanos)
    }

    pub fn to_nanos(self) -> (nanos: i64)
        ensures
            nanos == self.0,
    {
        self.0
    }
}

/// A length of time on the venue's clock, in nanoseconds.
#[derive(Debug, Clone, Copy, PartialEq, Eq, PartialOrd, Ord, Hash, Structural)]
pub struct ExchangeSpan(pub i128);

impl ExchangeSpan {
    pub fn from_nanos(nanos: i128) -> (span: ExchangeSpan)
        ensures
            span == ExchangeSpan(nanos),
    {
        ExchangeSpan(nanos)
    }

    pub fn to_nanos(self) -> (nanos: i128)
        ensures
            nanos == self.0,
    {
        self.0
    }
}

/// An instrument's trading conventions.
#[derive(Debug, Clone, Copy, PartialEq, Eq, Hash, Structural)]
pub struct Instrument {
    pub id: InstrumentId,
    /// The venue's price increment.
    pub tick: Px,
    /// The venue's quantity increment.
    pub lot: Qty,
    /// The smallest quantity the venue accepts.
    pub min_qty: Qty,
}

} // verus!
