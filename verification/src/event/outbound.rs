//! Everything the system *decided*. Every decision names the record that
//! caused it.
use vstd::prelude::*;

use super::{SeqNo, TimerToken};
use crate::value::{ExchangeTime, InstrumentId, OrderId, Px, Qty, Side, StrategyId};

verus! {

/// A decision the engine made. `caused_by` is the sequence number of the
/// inbound record being processed when the decision was taken.
#[derive(Debug, Clone, Copy, PartialEq, Eq, Hash, Structural)]
pub enum Outbound {
    /// Risk approved an intent and an order left for the venue. The quantity is
    /// rounded to the venue's lot and a limit price to its tick.
    OrderSubmitted {
        caused_by: SeqNo,
        order: OrderId,
        strategy: StrategyId,
        instrument: InstrumentId,
        side: Side,
        qty: Qty,
        kind: OrderKind,
        reduce_only: bool,
    },
    /// A cancel left for the venue.
    CancelSubmitted { caused_by: SeqNo, order: OrderId },
    /// The risk gate refused an intent, so no order exists. The quantity is
    /// what was asked for, before any rounding.
    IntentRejected {
        caused_by: SeqNo,
        strategy: StrategyId,
        instrument: InstrumentId,
        side: Side,
        qty: Qty,
        reason: RiskReason,
    },
    /// A strategy asked to be woken at a future instant.
    TimerRequested { caused_by: SeqNo, strategy: StrategyId, token: TimerToken, at: ExchangeTime },
    /// The engine moved between running, halted, and killed.
    StateChanged { caused_by: SeqNo, from: EngineState, to: EngineState, reason: StateReason },
}

impl Outbound {
    /// The inbound record being processed when this was decided.
    pub open spec fn cause(self) -> SeqNo {
        match self {
            Outbound::OrderSubmitted { caused_by, .. } => caused_by,
            Outbound::CancelSubmitted { caused_by, .. } => caused_by,
            Outbound::IntentRejected { caused_by, .. } => caused_by,
            Outbound::TimerRequested { caused_by, .. } => caused_by,
            Outbound::StateChanged { caused_by, .. } => caused_by,
        }
    }
}

/// What a strategy wants to do, before any risk check. It has no venue
/// identity and no id: those exist only after the risk gate approves it.
#[derive(Debug, Clone, Copy, PartialEq, Eq, Hash, Structural)]
pub struct Intent {
    /// Who is asking.
    pub strategy: StrategyId,
    /// What to trade.
    pub instrument: InstrumentId,
    /// Which way.
    pub side: Side,
    /// How much, not yet rounded to a lot.
    pub qty: Qty,
    /// Market or limit.
    pub kind: OrderKind,
    /// Whether this may only decrease the position's magnitude.
    pub reduce_only: bool,
}

/// Market or limit.
#[derive(Debug, Clone, Copy, PartialEq, Eq, Hash, Structural)]
pub enum OrderKind {
    /// Take whatever the book offers. Carries no price.
    Market,
    /// Rest at this price, or take through it.
    Limit(Px),
}

impl OrderKind {
    /// The limit price, if there is one.
    pub fn limit_px(self) -> (px: Option<Px>)
        ensures
            px == match self {
                OrderKind::Market => None,
                OrderKind::Limit(p) => Some(p),
            },
    {
        match self {
            OrderKind::Market => None,
            OrderKind::Limit(px) => Some(px),
        }
    }
}

/// Which risk check refused an intent.
#[derive(Debug, Clone, Copy, PartialEq, Eq, Hash, Structural)]
pub enum RiskReason {
    /// The kill switch is engaged. Refuses everything, including reduce-only.
    KillSwitchEngaged,
    /// The engine is halted and this order would increase risk.
    Halted,
    /// No instrument with this id is configured.
    UnknownInstrument,
    /// No configured limits for this instrument.
    NoLimitsConfigured,
    /// The last quote is older than the configured staleness bound.
    StaleMarketData,
    /// There is no market data for this instrument at all yet.
    NoMarketData,
    /// The resulting position would exceed the configured bound.
    PositionLimit,
    /// The resulting exposure would exceed the configured bound.
    ExposureLimit,
    /// This single order's notional exceeds the configured bound.
    OrderNotionalLimit,
    /// Too many orders in the configured window.
    OrderRateLimit,
    /// The system's position and the venue's disagree.
    UnreconciledPosition,
    /// Below the venue's minimum, or rounded to nothing by the lot size.
    BelowMinimumQty,
    /// A quantity of zero or less.
    NonPositiveQuantity,
    /// A limit price of zero or less.
    NonPositivePrice,
    /// Marked reduce-only but would not reduce the position.
    NotReducing,
    /// The order could not be sent to the venue, so none exists: the
    /// fail-closed answer to an ambiguity.
    VenueUnreachable,
    /// A price or quantity left the representable range while being prepared.
    Unrepresentable,
}

/// Where the engine is.
#[derive(Debug, Clone, Copy, PartialEq, Eq, PartialOrd, Ord, Hash, Structural)]
pub enum EngineState {
    /// Processing normally.
    Running,
    /// Taking no new risk. Reduce-only orders still pass.
    Halted,
    /// Refusing everything. Terminal for the session.
    Killed,
}

impl EngineState {
    /// Whether this state permits any new order at all.
    pub fn permits_any_order(self) -> (permits: bool)
        ensures
            permits == (self != EngineState::Killed),
    {
        !matches!(self, EngineState::Killed)
    }

    /// Whether this state permits an order that increases risk.
    pub fn permits_risk_increase(self) -> (permits: bool)
        ensures
            permits == (self == EngineState::Running),
    {
        matches!(self, EngineState::Running)
    }
}

/// Why the engine changed state.
#[derive(Debug, Clone, Copy, PartialEq, Eq, Hash, Structural)]
pub enum StateReason {
    /// An operator asked for it.
    OperatorCommand,
    /// The system's position and the venue's disagreed.
    ReconciliationDivergence,
    /// The log refused a write, so the next decision would not be replayable.
    LogWriteFailed,
}

impl RiskReason {
    /// What it is called.
    pub open spec fn label(self) -> Seq<char> {
        match self {
            RiskReason::KillSwitchEngaged => "KillSwitchEngaged"@,
            RiskReason::Halted => "Halted"@,
            RiskReason::UnknownInstrument => "UnknownInstrument"@,
            RiskReason::NoLimitsConfigured => "NoLimitsConfigured"@,
            RiskReason::StaleMarketData => "StaleMarketData"@,
            RiskReason::NoMarketData => "NoMarketData"@,
            RiskReason::PositionLimit => "PositionLimit"@,
            RiskReason::ExposureLimit => "ExposureLimit"@,
            RiskReason::OrderNotionalLimit => "OrderNotionalLimit"@,
            RiskReason::OrderRateLimit => "OrderRateLimit"@,
            RiskReason::UnreconciledPosition => "UnreconciledPosition"@,
            RiskReason::BelowMinimumQty => "BelowMinimumQty"@,
            RiskReason::NonPositiveQuantity => "NonPositiveQuantity"@,
            RiskReason::NonPositivePrice => "NonPositivePrice"@,
            RiskReason::NotReducing => "NotReducing"@,
            RiskReason::VenueUnreachable => "VenueUnreachable"@,
            RiskReason::Unrepresentable => "Unrepresentable"@,
        }
    }

    /// What it is called.
    pub fn name(self) -> (name: &'static str)
        ensures
            name@ == self.label(),
    {
        match self {
            RiskReason::KillSwitchEngaged => "KillSwitchEngaged",
            RiskReason::Halted => "Halted",
            RiskReason::UnknownInstrument => "UnknownInstrument",
            RiskReason::NoLimitsConfigured => "NoLimitsConfigured",
            RiskReason::StaleMarketData => "StaleMarketData",
            RiskReason::NoMarketData => "NoMarketData",
            RiskReason::PositionLimit => "PositionLimit",
            RiskReason::ExposureLimit => "ExposureLimit",
            RiskReason::OrderNotionalLimit => "OrderNotionalLimit",
            RiskReason::OrderRateLimit => "OrderRateLimit",
            RiskReason::UnreconciledPosition => "UnreconciledPosition",
            RiskReason::BelowMinimumQty => "BelowMinimumQty",
            RiskReason::NonPositiveQuantity => "NonPositiveQuantity",
            RiskReason::NonPositivePrice => "NonPositivePrice",
            RiskReason::NotReducing => "NotReducing",
            RiskReason::VenueUnreachable => "VenueUnreachable",
            RiskReason::Unrepresentable => "Unrepresentable",
        }
    }
}

impl EngineState {
    /// What it is called.
    pub open spec fn label(self) -> Seq<char> {
        match self {
            EngineState::Running => "Running"@,
            EngineState::Halted => "Halted"@,
            EngineState::Killed => "Killed"@,
        }
    }

    /// What it is called.
    pub fn name(self) -> (name: &'static str)
        ensures
            name@ == self.label(),
    {
        match self {
            EngineState::Running => "Running",
            EngineState::Halted => "Halted",
            EngineState::Killed => "Killed",
        }
    }
}

impl StateReason {
    /// What it is called.
    pub open spec fn label(self) -> Seq<char> {
        match self {
            StateReason::OperatorCommand => "OperatorCommand"@,
            StateReason::ReconciliationDivergence => "ReconciliationDivergence"@,
            StateReason::LogWriteFailed => "LogWriteFailed"@,
        }
    }

    /// What it is called.
    pub fn name(self) -> (name: &'static str)
        ensures
            name@ == self.label(),
    {
        match self {
            StateReason::OperatorCommand => "OperatorCommand",
            StateReason::ReconciliationDivergence => "ReconciliationDivergence",
            StateReason::LogWriteFailed => "LogWriteFailed",
        }
    }
}

} // verus!
