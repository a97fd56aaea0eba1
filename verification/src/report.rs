//! What a session's accounts come to, as plain values.
use vstd::prelude::*;

use crate::event::{EngineState, RiskReason};
use crate::sim::Level;
use crate::value::{InstrumentId, Notional, OrderId, Px, Qty, Side};

verus! {

/// How stale market data was when it arrived, in nanoseconds.
#[derive(Debug, Clone, Copy, PartialEq, Eq, Structural)]
pub struct Lag {
    pub events: u64,
    pub min: i64,
    pub p50: i64,
    pub p90: i64,
    pub p99: i64,
    pub max: i64,
}

/// How often the risk gate refused for one reason.
#[derive(Debug, Clone, Copy, PartialEq, Eq, Structural)]
pub struct Refusal {
    pub reason: RiskReason,
    pub count: u64,
}

/// What is held of one instrument.
#[derive(Debug, Clone, Copy, PartialEq, Eq, Structural)]
pub struct Holding {
    pub instrument: InstrumentId,
    pub qty: Qty,
    pub realized: Notional,
    pub flat: bool,
}

/// An order that is still working.
#[derive(Debug, Clone, Copy, PartialEq, Eq, Structural)]
pub struct Working {
    pub order: OrderId,
    pub instrument: InstrumentId,
    pub side: Side,
    pub limit: Option<Px>,
    pub remaining: Qty,
}

/// The levels of one instrument's book, best first.
#[derive(Debug, Clone)]
pub struct Ladder {
    pub bids: Vec<Level>,
    pub asks: Vec<Level>,
}

/// What open positions are worth.
#[derive(Debug, Clone)]
pub struct Valuation {
    pub unrealized: Notional,
    pub total: Notional,
    /// How positions were marked, in words.
    pub rule: String,
    /// Whether every position could be marked.
    pub complete: bool,
    pub unmarked: Vec<InstrumentId>,
    /// By instrument id.
    pub unrealized_each: Vec<Option<Notional>>,
    /// By instrument id.
    pub marks: Vec<Option<Px>>,
}

/// What a session did and what it came to.
#[derive(Debug, Clone)]
pub struct Summary {
    pub records: u64,
    pub inputs: u64,
    pub decisions: u64,
    pub orders_submitted: u64,
    pub cancels_submitted: u64,
    pub fills: u64,
    pub intents_rejected: u64,
    pub rejections: Vec<Refusal>,
    pub realized: Notional,
    pub fees: Notional,
    pub max_drawdown: Notional,
    pub valuation: Valuation,
    pub book_resets: u64,
    pub book_resyncs: u64,
    pub feed_lag: Option<Lag>,
    pub final_state: EngineState,
    pub positions: Vec<Holding>,
    pub working: Vec<Working>,
    /// By instrument id.
    pub ladders: Vec<Ladder>,
}

impl Valuation {
    /// What is not realized of an instrument, where it could be marked.
    pub open spec fn unrealized_of(&self, instrument: InstrumentId) -> Option<Notional> {
        if instrument.0 < self.unrealized_each@.len() {
            self.unrealized_each@[instrument.0 as int]
        } else {
            None
        }
    }

    /// The price an instrument is marked at.
    pub open spec fn mark_of(&self, instrument: InstrumentId) -> Option<Px> {
        if instrument.0 < self.marks@.len() {
            self.marks@[instrument.0 as int]
        } else {
            None
        }
    }

    /// What is not realized of an instrument, where it could be marked.
    pub fn unrealized_at(&self, instrument: InstrumentId) -> (amount: Option<Notional>)
        ensures
            amount == self.unrealized_of(instrument),
    {
        let i: usize = instrument.raw() as usize;
        if i < self.unrealized_each.len() {
            self.unrealized_each[i]
        } else {
            None
        }
    }

    /// The price an instrument is marked at.
    pub fn mark_at(&self, instrument: InstrumentId) -> (mark: Option<Px>)
        ensures
            mark == self.mark_of(instrument),
    {
        let i: usize = instrument.raw() as usize;
        if i < self.marks.len() {
            self.marks[i]
        } else {
            None
        }
    }
}

impl Summary {
    /// Whether every figure that is worked out of these can be held: what each
    /// marked position comes to, and the size of the least lag.
    pub open spec fn in_range(&self) -> bool {
        &&& forall|i: int|
            0 <= i < self.positions@.len() ==> {
                let held = #[trigger] self.positions@[i];
                self.valuation.unrealized_of(held.instrument) matches Some(u) ==> i128::MIN
                    <= held.realized.0 + u.0 <= i128::MAX
            }
        &&& self.feed_lag matches Some(lag) ==> lag.min > i64::MIN
    }
}

} // verus!
