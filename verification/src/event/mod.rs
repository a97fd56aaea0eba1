//! The event alphabet, the durable log, and the replay cursor.
//!
//! Everything that influences an order is a record here: feed the [`Inbound`]
//! records of a session back through a fresh engine and the [`Outbound`]
//! records come out identical.
use vstd::prelude::*;

pub mod background;
pub mod codec;
pub mod continuity;
pub mod file;
pub mod inbound;
pub mod log;
pub mod outbound;
pub mod segments;

pub use inbound::{
    Command, CommandEvent, Inbound, MarketEvent, MarketKind, PositionReport, RejectReason,
    TimerEvent, TimerToken, VenueEvent, VenueKind,
};
pub use file::{LogFileError, LogReader, LogWriter, Recovery, StopReason};
pub use log::{Cursor, EventLog, LogError, MemoryLog, Record, SeqNo, FORMAT_VERSION};
pub use segments::{ChainReader, Segments, SessionError};
pub use outbound::{EngineState, Intent, OrderKind, Outbound, RiskReason, StateReason};

verus! {

/// One entry in the log: something that happened to the system, or something
/// the system decided. Inputs are fed back in a replay, decisions compared.
#[derive(Debug, Clone, Copy, PartialEq, Eq, Hash, Structural)]
pub enum Event {
    /// Something happened to the system.
    In(Inbound),
    /// The system decided something.
    Out(Outbound),
}

impl Event {
    /// The input, if this is one.
    pub fn as_inbound(&self) -> (input: Option<&Inbound>)
        ensures
            input == match *self {
                Event::In(i) => Some(&i),
                Event::Out(_) => None,
            },
    {
        match self {
            Event::In(i) => Some(i),
            Event::Out(_) => None,
        }
    }

    /// The decision, if this is one.
    pub fn as_outbound(&self) -> (decision: Option<&Outbound>)
        ensures
            decision == match *self {
                Event::Out(o) => Some(&o),
                Event::In(_) => None,
            },
    {
        match self {
            Event::Out(o) => Some(o),
            Event::In(_) => None,
        }
    }
}

impl From<Inbound> for Event {
    fn from(inbound: Inbound) -> (event: Event) {
        Event::In(inbound)
    }
}

impl vstd::std_specs::convert::FromSpecImpl<Inbound> for Event {
    open spec fn obeys_from_spec() -> bool {
        true
    }

    open spec fn from_spec(inbound: Inbound) -> Event {
        Event::In(inbound)
    }
}

impl From<Outbound> for Event {
    fn from(outbound: Outbound) -> (event: Event) {
        Event::Out(outbound)
    }
}

impl vstd::std_specs::convert::FromSpecImpl<Outbound> for Event {
    open spec fn obeys_from_spec() -> bool {
        true
    }

    open spec fn from_spec(outbound: Outbound) -> Event {
        Event::Out(outbound)
    }
}

} // verus!
