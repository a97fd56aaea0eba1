//! Wire values.
//!
//! Every number is assigned by hand, never derived from an enum's declaration
//! order, and every mapping starts at 1: zeroed bytes never decode as a valid
//! value, so a truncated or wiped record fails instead of reading as the first
//! variant of everything.
use vstd::prelude::*;

use super::CodecError;
use crate::event::{Command, EngineState, RejectReason, RiskReason, StateReason};
use crate::value::Side;

verus! {

// Inbound kinds occupy 1 to 63, outbound kinds start at 64.
pub const QUOTE: u8 = 1;
pub const TRADE: u8 = 2;
pub const VENUE_ACCEPTED: u8 = 3;
pub const VENUE_REJECTED: u8 = 4;
pub const VENUE_FILLED: u8 = 5;
pub const VENUE_CANCELLED: u8 = 6;
pub const VENUE_CANCEL_REJECTED: u8 = 7;
pub const VENUE_EXPIRED: u8 = 8;
pub const VENUE_POSITION: u8 = 9;
pub const TIMER: u8 = 10;
pub const COMMAND: u8 = 11;
/// A single book level.
pub const BOOK_LEVEL: u8 = 12;
/// The end of a book update.
pub const BOOK_APPLIED: u8 = 13;
/// Discard the book; a snapshot follows.
pub const BOOK_RESET: u8 = 14;
pub const ORDER_SUBMITTED: u8 = 64;
pub const CANCEL_SUBMITTED: u8 = 65;
pub const INTENT_REJECTED: u8 = 66;
pub const TIMER_REQUESTED: u8 = 67;
pub const STATE_CHANGED: u8 = 68;

/// Bit 0 of the record's flag byte.
pub const FLAG_REDUCE_ONLY: u8 = 1;

/// Market or limit, as a payload tag.
pub const ORDER_KIND_MARKET: u8 = 1;
pub const ORDER_KIND_LIMIT: u8 = 2;

/// The wire value of each [`Side`].
pub open spec fn side_wire(value: Side) -> u8 {
    match value {
        Side::Buy => 1,
        Side::Sell => 2,
    }
}

/// The [`Side`] with a wire value, where one has it.
pub open spec fn side_of_wire(value: u8) -> Result<Side, CodecError> {
    if 1 <= value <= 2 {
        Ok(
            match value {
                1 => Side::Buy,
                _ => Side::Sell,
            },
        )
    } else {
        Err(CodecError::UnknownEnumValue { field: "side", value })
    }
}

pub fn side_to_wire(value: Side) -> (wire: u8)
    ensures
        wire == side_wire(value),
{
    match value {
        Side::Buy => 1,
        Side::Sell => 2,
    }
}

pub fn side_from_wire(value: u8) -> (read: Result<Side, CodecError>)
    ensures
        read == side_of_wire(value),
{
    match value {
        1 => Ok(Side::Buy),
        2 => Ok(Side::Sell),
        _ => Err(CodecError::UnknownEnumValue { field: "side", value }),
    }
}

/// The wire value of each [`Command`].
pub open spec fn command_wire(value: Command) -> u8 {
    match value {
        Command::Halt => 1,
        Command::Resume => 2,
        Command::Kill => 3,
        Command::Flatten => 4,
    }
}

/// The [`Command`] with a wire value, where one has it.
pub open spec fn command_of_wire(value: u8) -> Result<Command, CodecError> {
    if 1 <= value <= 4 {
        Ok(
            match value {
                1 => Command::Halt,
                2 => Command::Resume,
                3 => Command::Kill,
                _ => Command::Flatten,
            },
        )
    } else {
        Err(CodecError::UnknownEnumValue { field: "command", value })
    }
}

pub fn command_to_wire(value: Command) -> (wire: u8)
    ensures
        wire == command_wire(value),
{
    match value {
        Command::Halt => 1,
        Command::Resume => 2,
        Command::Kill => 3,
        Command::Flatten => 4,
    }
}

pub fn command_from_wire(value: u8) -> (read: Result<Command, CodecError>)
    ensures
        read == command_of_wire(value),
{
    match value {
        1 => Ok(Command::Halt),
        2 => Ok(Command::Resume),
        3 => Ok(Command::Kill),
        4 => Ok(Command::Flatten),
        _ => Err(CodecError::UnknownEnumValue { field: "command", value }),
    }
}

/// The wire value of each [`EngineState`].
pub open spec fn engine_state_wire(value: EngineState) -> u8 {
    match value {
        EngineState::Running => 1,
        EngineState::Halted => 2,
        EngineState::Killed => 3,
    }
}

/// The [`EngineState`] with a wire value, where one has it.
pub open spec fn engine_state_of_wire(value: u8) -> Result<EngineState, CodecError> {
    if 1 <= value <= 3 {
        Ok(
            match value {
                1 => EngineState::Running,
                2 => EngineState::Halted,
                _ => EngineState::Killed,
            },
        )
    } else {
        Err(CodecError::UnknownEnumValue { field: "engine state", value })
    }
}

pub fn engine_state_to_wire(value: EngineState) -> (wire: u8)
    ensures
        wire == engine_state_wire(value),
{
    match value {
        EngineState::Running => 1,
        EngineState::Halted => 2,
        EngineState::Killed => 3,
    }
}

pub fn engine_state_from_wire(value: u8) -> (read: Result<EngineState, CodecError>)
    ensures
        read == engine_state_of_wire(value),
{
    match value {
        1 => Ok(EngineState::Running),
        2 => Ok(EngineState::Halted),
        3 => Ok(EngineState::Killed),
        _ => Err(CodecError::UnknownEnumValue { field: "engine state", value }),
    }
}

/// The wire value of each [`StateReason`].
pub open spec fn state_reason_wire(value: StateReason) -> u8 {
    match value {
        StateReason::OperatorCommand => 1,
        StateReason::ReconciliationDivergence => 2,
        StateReason::LogWriteFailed => 3,
    }
}

/// The [`StateReason`] with a wire value, where one has it.
pub open spec fn state_reason_of_wire(value: u8) -> Result<StateReason, CodecError> {
    if 1 <= value <= 3 {
        Ok(
            match value {
                1 => StateReason::OperatorCommand,
                2 => StateReason::ReconciliationDivergence,
                _ => StateReason::LogWriteFailed,
            },
        )
    } else {
        Err(CodecError::UnknownEnumValue { field: "state reason", value })
    }
}

pub fn state_reason_to_wire(value: StateReason) -> (wire: u8)
    ensures
        wire == state_reason_wire(value),
{
    match value {
        StateReason::OperatorCommand => 1,
        StateReason::ReconciliationDivergence => 2,
        StateReason::LogWriteFailed => 3,
    }
}

pub fn state_reason_from_wire(value: u8) -> (read: Result<StateReason, CodecError>)
    ensures
        read == state_reason_of_wire(value),
{
    match value {
        1 => Ok(StateReason::OperatorCommand),
        2 => Ok(StateReason::ReconciliationDivergence),
        3 => Ok(StateReason::LogWriteFailed),
        _ => Err(CodecError::UnknownEnumValue { field: "state reason", value }),
    }
}

/// The wire value of each [`RejectReason`].
pub open spec fn reject_reason_wire(value: RejectReason) -> u8 {
    match value {
        RejectReason::UnknownInstrument => 1,
        RejectReason::InvalidPrice => 2,
        RejectReason::InvalidQuantity => 3,
        RejectReason::InsufficientFunds => 4,
        RejectReason::RateLimited => 5,
        RejectReason::UnknownOrder => 6,
        RejectReason::AlreadyTerminal => 7,
        RejectReason::Unavailable => 8,
    }
}

/// The [`RejectReason`] with a wire value, where one has it.
pub open spec fn reject_reason_of_wire(value: u8) -> Result<RejectReason, CodecError> {
    if 1 <= value <= 8 {
        Ok(
            match value {
                1 => RejectReason::UnknownInstrument,
                2 => RejectReason::InvalidPrice,
                3 => RejectReason::InvalidQuantity,
                4 => RejectReason::InsufficientFunds,
                5 => RejectReason::RateLimited,
                6 => RejectReason::UnknownOrder,
                7 => RejectReason::AlreadyTerminal,
                _ => RejectReason::Unavailable,
            },
        )
    } else {
        Err(CodecError::UnknownEnumValue { field: "reject reason", value })
    }
}

pub fn reject_reason_to_wire(value: RejectReason) -> (wire: u8)
    ensures
        wire == reject_reason_wire(value),
{
    match value {
        RejectReason::UnknownInstrument => 1,
        RejectReason::InvalidPrice => 2,
        RejectReason::InvalidQuantity => 3,
        RejectReason::InsufficientFunds => 4,
        RejectReason::RateLimited => 5,
        RejectReason::UnknownOrder => 6,
        RejectReason::AlreadyTerminal => 7,
        RejectReason::Unavailable => 8,
    }
}

pub fn reject_reason_from_wire(value: u8) -> (read: Result<RejectReason, CodecError>)
    ensures
        read == reject_reason_of_wire(value),
{
    match value {
        1 => Ok(RejectReason::UnknownInstrument),
        2 => Ok(RejectReason::InvalidPrice),
        3 => Ok(RejectReason::InvalidQuantity),
        4 => Ok(RejectReason::InsufficientFunds),
        5 => Ok(RejectReason::RateLimited),
        6 => Ok(RejectReason::UnknownOrder),
        7 => Ok(RejectReason::AlreadyTerminal),
        8 => Ok(RejectReason::Unavailable),
        _ => Err(CodecError::UnknownEnumValue { field: "reject reason", value }),
    }
}

/// The wire value of each [`RiskReason`].
pub open spec fn risk_reason_wire(value: RiskReason) -> u8 {
    match value {
        RiskReason::KillSwitchEngaged => 1,
        RiskReason::Halted => 2,
        RiskReason::UnknownInstrument => 3,
        RiskReason::NoLimitsConfigured => 4,
        RiskReason::StaleMarketData => 5,
        RiskReason::NoMarketData => 6,
        RiskReason::PositionLimit => 7,
        RiskReason::ExposureLimit => 8,
        RiskReason::OrderNotionalLimit => 9,
        RiskReason::OrderRateLimit => 10,
        RiskReason::UnreconciledPosition => 11,
        RiskReason::BelowMinimumQty => 12,
        RiskReason::NonPositiveQuantity => 13,
        RiskReason::NonPositivePrice => 14,
        RiskReason::NotReducing => 15,
        RiskReason::Unrepresentable => 16,
        RiskReason::VenueUnreachable => 17,
    }
}

/// The [`RiskReason`] with a wire value, where one has it.
pub open spec fn risk_reason_of_wire(value: u8) -> Result<RiskReason, CodecError> {
    if 1 <= value <= 17 {
        Ok(
            match value {
                1 => RiskReason::KillSwitchEngaged,
                2 => RiskReason::Halted,
                3 => RiskReason::UnknownInstrument,
                4 => RiskReason::NoLimitsConfigured,
                5 => RiskReason::StaleMarketData,
                6 => RiskReason::NoMarketData,
                7 => RiskReason::PositionLimit,
                8 => RiskReason::ExposureLimit,
                9 => RiskReason::OrderNotionalLimit,
                10 => RiskReason::OrderRateLimit,
                11 => RiskReason::UnreconciledPosition,
                12 => RiskReason::BelowMinimumQty,
                13 => RiskReason::NonPositiveQuantity,
                14 => RiskReason::NonPositivePrice,
                15 => RiskReason::NotReducing,
                16 => RiskReason::Unrepresentable,
                _ => RiskReason::VenueUnreachable,
            },
        )
    } else {
        Err(CodecError::UnknownEnumValue { field: "risk reason", value })
    }
}

pub fn risk_reason_to_wire(value: RiskReason) -> (wire: u8)
    ensures
        wire == risk_reason_wire(value),
{
    match value {
        RiskReason::KillSwitchEngaged => 1,
        RiskReason::Halted => 2,
        RiskReason::UnknownInstrument => 3,
        RiskReason::NoLimitsConfigured => 4,
        RiskReason::StaleMarketData => 5,
        RiskReason::NoMarketData => 6,
        RiskReason::PositionLimit => 7,
        RiskReason::ExposureLimit => 8,
        RiskReason::OrderNotionalLimit => 9,
        RiskReason::OrderRateLimit => 10,
        RiskReason::UnreconciledPosition => 11,
        RiskReason::BelowMinimumQty => 12,
        RiskReason::NonPositiveQuantity => 13,
        RiskReason::NonPositivePrice => 14,
        RiskReason::NotReducing => 15,
        RiskReason::Unrepresentable => 16,
        RiskReason::VenueUnreachable => 17,
    }
}

pub fn risk_reason_from_wire(value: u8) -> (read: Result<RiskReason, CodecError>)
    ensures
        read == risk_reason_of_wire(value),
{
    match value {
        1 => Ok(RiskReason::KillSwitchEngaged),
        2 => Ok(RiskReason::Halted),
        3 => Ok(RiskReason::UnknownInstrument),
        4 => Ok(RiskReason::NoLimitsConfigured),
        5 => Ok(RiskReason::StaleMarketData),
        6 => Ok(RiskReason::NoMarketData),
        7 => Ok(RiskReason::PositionLimit),
        8 => Ok(RiskReason::ExposureLimit),
        9 => Ok(RiskReason::OrderNotionalLimit),
        10 => Ok(RiskReason::OrderRateLimit),
        11 => Ok(RiskReason::UnreconciledPosition),
        12 => Ok(RiskReason::BelowMinimumQty),
        13 => Ok(RiskReason::NonPositiveQuantity),
        14 => Ok(RiskReason::NonPositivePrice),
        15 => Ok(RiskReason::NotReducing),
        16 => Ok(RiskReason::Unrepresentable),
        17 => Ok(RiskReason::VenueUnreachable),
        _ => Err(CodecError::UnknownEnumValue { field: "risk reason", value }),
    }
}

/// Every enum reads back from its wire value.
pub proof fn wire_values_round_trip(
    side: Side,
    command: Command,
    state: EngineState,
    state_reason: StateReason,
    reject: RejectReason,
    risk: RiskReason,
)
    ensures
        side_of_wire(side_wire(side)) == Ok::<Side, CodecError>(side),
        command_of_wire(command_wire(command)) == Ok::<Command, CodecError>(command),
        engine_state_of_wire(engine_state_wire(state)) == Ok::<EngineState, CodecError>(state),
        state_reason_of_wire(state_reason_wire(state_reason)) == Ok::<StateReason, CodecError>(
            state_reason,
        ),
        reject_reason_of_wire(reject_reason_wire(reject)) == Ok::<RejectReason, CodecError>(reject),
        risk_reason_of_wire(risk_reason_wire(risk)) == Ok::<RiskReason, CodecError>(risk),
{
}

/// No enum has zero as a wire value, so wiped bytes read as nothing.
pub proof fn no_wire_value_is_zero()
    ensures
        side_of_wire(0) is Err,
        forall|v: Side| #[trigger] side_wire(v) != 0,
        command_of_wire(0) is Err,
        forall|v: Command| #[trigger] command_wire(v) != 0,
        engine_state_of_wire(0) is Err,
        forall|v: EngineState| #[trigger] engine_state_wire(v) != 0,
        state_reason_of_wire(0) is Err,
        forall|v: StateReason| #[trigger] state_reason_wire(v) != 0,
        reject_reason_of_wire(0) is Err,
        forall|v: RejectReason| #[trigger] reject_reason_wire(v) != 0,
        risk_reason_of_wire(0) is Err,
        forall|v: RiskReason| #[trigger] risk_reason_wire(v) != 0,
{
}

/// A value that reads is written back as the byte it was read from: no two
/// wire values stand for one thing.
pub proof fn wire_values_are_unique(value: u8)
    ensures
        side_of_wire(value) matches Ok(v) ==> side_wire(v) == value,
        command_of_wire(value) matches Ok(v) ==> command_wire(v) == value,
        engine_state_of_wire(value) matches Ok(v) ==> engine_state_wire(v) == value,
        state_reason_of_wire(value) matches Ok(v) ==> state_reason_wire(v) == value,
        reject_reason_of_wire(value) matches Ok(v) ==> reject_reason_wire(v) == value,
        risk_reason_of_wire(value) matches Ok(v) ==> risk_reason_wire(v) == value,
{
}

} // verus!
