//! Encoding and decoding one 80-byte record.
//!
//! A record is its sequence number (8 bytes), its format version (2), a kind
//! byte, a flag byte, a payload padded with zeros to 56 bytes, 8 reserved zero
//! bytes, and the checksum (4) of everything before it.
use vstd::prelude::*;

use super::bytes::{Reader, Writer};
use super::wire::{
    command_from_wire, command_to_wire, engine_state_from_wire, engine_state_to_wire,
    reject_reason_from_wire, reject_reason_to_wire, risk_reason_from_wire, risk_reason_to_wire,
    side_from_wire, side_to_wire, state_reason_from_wire, state_reason_to_wire, BOOK_APPLIED,
    BOOK_LEVEL, BOOK_RESET, CANCEL_SUBMITTED, COMMAND, FLAG_REDUCE_ONLY, INTENT_REJECTED,
    ORDER_KIND_LIMIT, ORDER_KIND_MARKET, ORDER_SUBMITTED, QUOTE, STATE_CHANGED, TIMER,
    TIMER_REQUESTED, TRADE, VENUE_ACCEPTED, VENUE_CANCELLED, VENUE_CANCEL_REJECTED, VENUE_EXPIRED,
    VENUE_FILLED, VENUE_POSITION, VENUE_REJECTED,
};
use super::{bytes, crc32, wire, CodecError, RECORD_LEN};
use crate::event::{
    CommandEvent, Event, Inbound, MarketEvent, MarketKind, OrderKind, Outbound, PositionReport,
    Record, SeqNo, TimerEvent, TimerToken, VenueEvent, VenueKind, FORMAT_VERSION,
};
use crate::value::{
    ExchangeTime, InstrumentId, Notional, OrderId, Px, Qty, ReceiveTime, StrategyId,
};

verus! {

/// Where the payload starts.
const PAYLOAD_AT: usize = 12;

/// How much room a payload has. The widest is a fill.
pub const PAYLOAD_LEN: usize = 56;

/// Reserved bytes, which must be zero.
const RESERVED_AT: usize = 68;

/// The checksum covers everything before it.
const CRC_AT: usize = 76;

/// `len` zero bytes.
pub open spec fn zeros(len: nat) -> Seq<u8> {
    Seq::new(len, |i: int| 0u8)
}

/// The kind byte of an event.
pub open spec fn kind_of(event: Event) -> u8 {
    match event {
        Event::In(Inbound::Market(m)) => match m.kind {
            MarketKind::Quote { .. } => QUOTE,
            MarketKind::Trade { .. } => TRADE,
            MarketKind::Level { .. } => BOOK_LEVEL,
            MarketKind::BookApplied => BOOK_APPLIED,
            MarketKind::BookReset => BOOK_RESET,
        },
        Event::In(Inbound::Venue(v)) => match v.kind {
            VenueKind::Accepted => VENUE_ACCEPTED,
            VenueKind::Rejected { .. } => VENUE_REJECTED,
            VenueKind::Filled { .. } => VENUE_FILLED,
            VenueKind::Cancelled => VENUE_CANCELLED,
            VenueKind::CancelRejected { .. } => VENUE_CANCEL_REJECTED,
            VenueKind::Expired => VENUE_EXPIRED,
        },
        Event::In(Inbound::VenuePosition(_)) => VENUE_POSITION,
        Event::In(Inbound::Timer(_)) => TIMER,
        Event::In(Inbound::Command(_)) => COMMAND,
        Event::Out(Outbound::OrderSubmitted { .. }) => ORDER_SUBMITTED,
        Event::Out(Outbound::CancelSubmitted { .. }) => CANCEL_SUBMITTED,
        Event::Out(Outbound::IntentRejected { .. }) => INTENT_REJECTED,
        Event::Out(Outbound::TimerRequested { .. }) => TIMER_REQUESTED,
        Event::Out(Outbound::StateChanged { .. }) => STATE_CHANGED,
    }
}

/// The flag byte of an event.
pub open spec fn flags_of(event: Event) -> u8 {
    match event {
        Event::Out(Outbound::OrderSubmitted { reduce_only: true, .. }) => FLAG_REDUCE_ONLY,
        _ => 0,
    }
}

/// The payload bytes of an event, before padding.
pub open spec fn payload_of(event: Event) -> Seq<u8> {
    match event {
        Event::In(Inbound::Market(m)) => {
            let head = bytes::le(m.instrument.0 as nat, 4) + bytes::i64_le(m.exchange_time.0)
                + bytes::i64_le(m.receive_time.0);
            match m.kind {
                MarketKind::Quote { bid_px, bid_qty, ask_px, ask_qty } => head
                    + bytes::i64_le(bid_px.0) + bytes::i64_le(bid_qty.0) + bytes::i64_le(ask_px.0)
                    + bytes::i64_le(ask_qty.0),
                MarketKind::Level { side, px, qty } => head + seq![wire::side_wire(side)]
                    + bytes::i64_le(px.0) + bytes::i64_le(qty.0),
                MarketKind::BookApplied => head,
                MarketKind::BookReset => head,
                MarketKind::Trade { px, qty, aggressor } => head + bytes::i64_le(px.0)
                    + bytes::i64_le(qty.0) + seq![wire::side_wire(aggressor)],
            }
        },
        Event::In(Inbound::Venue(v)) => {
            let head = bytes::le(v.order.0 as nat, 8) + bytes::i64_le(v.venue_time.0)
                + bytes::i64_le(v.receive_time.0);
            match v.kind {
                VenueKind::Accepted => head,
                VenueKind::Cancelled => head,
                VenueKind::Expired => head,
                VenueKind::Rejected { reason } => head + seq![wire::reject_reason_wire(reason)],
                VenueKind::CancelRejected { reason } => head
                    + seq![wire::reject_reason_wire(reason)],
                VenueKind::Filled { px, qty, fee } => head + bytes::i64_le(px.0)
                    + bytes::i64_le(qty.0) + bytes::i128_le(fee.0),
            }
        },
        Event::In(Inbound::VenuePosition(p)) => bytes::le(p.instrument.0 as nat, 4)
            + bytes::i64_le(p.venue_qty.0) + bytes::i64_le(p.venue_time.0)
            + bytes::i64_le(p.receive_time.0),
        Event::In(Inbound::Timer(t)) => bytes::le(t.strategy.0 as nat, 2)
            + bytes::le(t.token.0 as nat, 8) + bytes::i64_le(t.fires_at.0)
            + bytes::i64_le(t.receive_time.0),
        Event::In(Inbound::Command(c)) => seq![wire::command_wire(c.command)]
            + bytes::i64_le(c.receive_time.0),
        Event::Out(
            Outbound::OrderSubmitted { caused_by, order, strategy, instrument, side, qty, kind, .. },
        ) => bytes::le(caused_by.0 as nat, 8) + bytes::le(order.0 as nat, 8) + bytes::le(
            strategy.0 as nat,
            2,
        ) + bytes::le(instrument.0 as nat, 4) + seq![wire::side_wire(side)] + bytes::i64_le(qty.0)
            + match kind {
                OrderKind::Market => seq![ORDER_KIND_MARKET] + bytes::i64_le(0),
                OrderKind::Limit(px) => seq![ORDER_KIND_LIMIT] + bytes::i64_le(px.0),
            },
        Event::Out(Outbound::CancelSubmitted { caused_by, order }) => bytes::le(caused_by.0 as nat, 8)
            + bytes::le(order.0 as nat, 8),
        Event::Out(
            Outbound::IntentRejected { caused_by, strategy, instrument, side, qty, reason },
        ) => bytes::le(caused_by.0 as nat, 8) + bytes::le(strategy.0 as nat, 2)
            + bytes::le(instrument.0 as nat, 4) + seq![wire::side_wire(side)]
            + bytes::i64_le(qty.0) + seq![wire::risk_reason_wire(reason)],
        Event::Out(Outbound::TimerRequested { caused_by, strategy, token, at }) => bytes::le(
            caused_by.0 as nat,
            8,
        ) + bytes::le(strategy.0 as nat, 2) + bytes::le(token.0 as nat, 8) + bytes::i64_le(at.0),
        Event::Out(Outbound::StateChanged { caused_by, from, to, reason }) => bytes::le(
            caused_by.0 as nat,
            8,
        ) + seq![wire::engine_state_wire(from)] + seq![wire::engine_state_wire(to)] + seq![
            wire::state_reason_wire(reason),
        ],
    }
}

/// Everything the checksum covers.
pub open spec fn body_of(record: Record) -> Seq<u8> {
    let payload = payload_of(record.event);
    bytes::le(record.seq.0 as nat, 8) + bytes::le(record.version as nat, 2) + seq![
        kind_of(record.event),
        flags_of(record.event),
    ] + payload + zeros((64 - payload.len()) as nat)
}

/// The bytes of a record.
pub open spec fn bytes_of(record: Record) -> Seq<u8> {
    body_of(record) + bytes::le(crc32::crc32_of(body_of(record)) as nat, 4)
}

broadcast proof fn concat_left(a: Seq<u8>, b: Seq<u8>, c: Seq<u8>)
    ensures
        #[trigger] (a + (b + c)) == a + b + c,
{
    assert(a + (b + c) =~= a + b + c);
}

proof fn payload_fits(event: Event)
    ensures
        payload_of(event).len() <= PAYLOAD_LEN,
{
    broadcast use bytes::le_len;

}

pub fn kind_and_flags(event: &Event) -> (pair: (u8, u8))
    ensures
        pair == (kind_of(*event), flags_of(*event)),
{
    match event {
        Event::In(Inbound::Market(m)) => (
            match m.kind {
                MarketKind::Quote { .. } => QUOTE,
                MarketKind::Trade { .. } => TRADE,
                MarketKind::Level { .. } => BOOK_LEVEL,
                MarketKind::BookApplied => BOOK_APPLIED,
                MarketKind::BookReset => BOOK_RESET,
            },
            0,
        ),
        Event::In(Inbound::Venue(v)) => (
            match v.kind {
                VenueKind::Accepted => VENUE_ACCEPTED,
                VenueKind::Rejected { .. } => VENUE_REJECTED,
                VenueKind::Filled { .. } => VENUE_FILLED,
                VenueKind::Cancelled => VENUE_CANCELLED,
                VenueKind::CancelRejected { .. } => VENUE_CANCEL_REJECTED,
                VenueKind::Expired => VENUE_EXPIRED,
            },
            0,
        ),
        Event::In(Inbound::VenuePosition(_)) => (VENUE_POSITION, 0),
        Event::In(Inbound::Timer(_)) => (TIMER, 0),
        Event::In(Inbound::Command(_)) => (COMMAND, 0),
        Event::Out(Outbound::OrderSubmitted { reduce_only, .. }) => (
            ORDER_SUBMITTED,
            if *reduce_only {
                FLAG_REDUCE_ONLY
            } else {
                0
            },
        ),
        Event::Out(Outbound::CancelSubmitted { .. }) => (CANCEL_SUBMITTED, 0),
        Event::Out(Outbound::IntentRejected { .. }) => (INTENT_REJECTED, 0),
        Event::Out(Outbound::TimerRequested { .. }) => (TIMER_REQUESTED, 0),
        Event::Out(Outbound::StateChanged { .. }) => (STATE_CHANGED, 0),
    }
}

fn write_market(m: &MarketEvent, w: &mut Writer<'_>)
    requires
        old(w).well_formed(),
        old(w).room() >= PAYLOAD_LEN,
    ensures
        old(w).wrote(*final(w), payload_of(Event::In(Inbound::Market(*m)))),
        old(w).kept_rest(*final(w)),
        final(final(w).buf)@ == final(old(w).buf)@,
{
    broadcast use {bytes::le_len, concat_left};

    w.u32(m.instrument.raw());
    w.i64(m.exchange_time.to_nanos());
    w.i64(m.receive_time.to_nanos());
    match m.kind {
        MarketKind::Quote { bid_px, bid_qty, ask_px, ask_qty } => {
            w.i64(bid_px.to_scaled());
            w.i64(bid_qty.to_scaled());
            w.i64(ask_px.to_scaled());
            w.i64(ask_qty.to_scaled());
        },
        MarketKind::Level { side, px, qty } => {
            w.u8(side_to_wire(side));
            w.i64(px.to_scaled());
            w.i64(qty.to_scaled());
        },
        MarketKind::BookApplied | MarketKind::BookReset => {},
        MarketKind::Trade { px, qty, aggressor } => {
            w.i64(px.to_scaled());
            w.i64(qty.to_scaled());
            w.u8(side_to_wire(aggressor));
        },
    }
}

fn write_venue(v: &VenueEvent, w: &mut Writer<'_>)
    requires
        old(w).well_formed(),
        old(w).room() >= PAYLOAD_LEN,
    ensures
        old(w).wrote(*final(w), payload_of(Event::In(Inbound::Venue(*v)))),
        old(w).kept_rest(*final(w)),
        final(final(w).buf)@ == final(old(w).buf)@,
{
    broadcast use {bytes::le_len, concat_left};

    w.u64(v.order.raw());
    w.i64(v.venue_time.to_nanos());
    w.i64(v.receive_time.to_nanos());
    match v.kind {
        VenueKind::Accepted | VenueKind::Cancelled | VenueKind::Expired => {},
        VenueKind::Rejected { reason } | VenueKind::CancelRejected { reason } => {
            w.u8(reject_reason_to_wire(reason));
        },
        VenueKind::Filled { px, qty, fee } => {
            w.i64(px.to_scaled());
            w.i64(qty.to_scaled());
            w.i128(fee.to_scaled());
        },
    }
}

fn write_decision(out: &Outbound, w: &mut Writer<'_>)
    requires
        old(w).well_formed(),
        old(w).room() >= PAYLOAD_LEN,
    ensures
        old(w).wrote(*final(w), payload_of(Event::Out(*out))),
        old(w).kept_rest(*final(w)),
        final(final(w).buf)@ == final(old(w).buf)@,
{
    broadcast use {bytes::le_len, concat_left};

    match out {
        Outbound::OrderSubmitted { caused_by, order, strategy, instrument, side, qty, kind, .. } => {
            w.u64(caused_by.raw());
            w.u64(order.raw());
            w.u16(strategy.raw());
            w.u32(instrument.raw());
            w.u8(side_to_wire(*side));
            w.i64(qty.to_scaled());
            match kind {
                OrderKind::Market => {
                    w.u8(ORDER_KIND_MARKET);
                    w.i64(0);
                },
                OrderKind::Limit(px) => {
                    w.u8(ORDER_KIND_LIMIT);
                    w.i64(px.to_scaled());
                },
            }
        },
        Outbound::CancelSubmitted { caused_by, order } => {
            w.u64(caused_by.raw());
            w.u64(order.raw());
        },
        Outbound::IntentRejected { caused_by, strategy, instrument, side, qty, reason } => {
            w.u64(caused_by.raw());
            w.u16(strategy.raw());
            w.u32(instrument.raw());
            w.u8(side_to_wire(*side));
            w.i64(qty.to_scaled());
            w.u8(risk_reason_to_wire(*reason));
        },
        Outbound::TimerRequested { caused_by, strategy, token, at } => {
            w.u64(caused_by.raw());
            w.u16(strategy.raw());
            w.u64(token.raw());
            w.i64(at.to_nanos());
        },
        Outbound::StateChanged { caused_by, from, to, reason } => {
            w.u64(caused_by.raw());
            w.u8(engine_state_to_wire(*from));
            w.u8(engine_state_to_wire(*to));
            w.u8(state_reason_to_wire(*reason));
        },
    }
}

/// Writes an event's payload, and nothing behind it.
pub fn write_payload(event: &Event, w: &mut Writer<'_>)
    requires
        old(w).well_formed(),
        old(w).room() >= PAYLOAD_LEN,
    ensures
        old(w).wrote(*final(w), payload_of(*event)),
        old(w).kept_rest(*final(w)),
        final(final(w).buf)@ == final(old(w).buf)@,
{
    broadcast use {bytes::le_len, concat_left};

    match event {
        Event::In(Inbound::Market(m)) => {
            write_market(m, w);
        },
        Event::In(Inbound::Venue(v)) => {
            write_venue(v, w);
        },
        Event::In(Inbound::VenuePosition(p)) => {
            w.u32(p.instrument.raw());
            w.i64(p.venue_qty.to_scaled());
            w.i64(p.venue_time.to_nanos());
            w.i64(p.receive_time.to_nanos());
        },
        Event::In(Inbound::Timer(t)) => {
            w.u16(t.strategy.raw());
            w.u64(t.token.raw());
            w.i64(t.fires_at.to_nanos());
            w.i64(t.receive_time.to_nanos());
        },
        Event::In(Inbound::Command(c)) => {
            w.u8(command_to_wire(c.command));
            w.i64(c.receive_time.to_nanos());
        },
        Event::Out(out) => {
            write_decision(out, w);
        },
    }
}

/// The market event of a kind that has a payload.
pub open spec fn market_of(kind: u8, p: Seq<u8>) -> Result<Event, CodecError> {
    let of = |k: MarketKind| Event::In(
        Inbound::Market(
            MarketEvent {
                instrument: InstrumentId(bytes::uint_at(p, 0, 4) as u32),
                exchange_time: ExchangeTime(bytes::i64_at(p, 4)),
                receive_time: ReceiveTime(bytes::i64_at(p, 12)),
                kind: k,
            },
        ),
    );
    if kind == QUOTE {
        Ok(
            of(
                MarketKind::Quote {
                    bid_px: Px(bytes::i64_at(p, 20)),
                    bid_qty: Qty(bytes::i64_at(p, 28)),
                    ask_px: Px(bytes::i64_at(p, 36)),
                    ask_qty: Qty(bytes::i64_at(p, 44)),
                },
            ),
        )
    } else if kind == TRADE {
        match wire::side_of_wire(p[36]) {
            Ok(aggressor) => Ok(
                of(
                    MarketKind::Trade {
                        px: Px(bytes::i64_at(p, 20)),
                        qty: Qty(bytes::i64_at(p, 28)),
                        aggressor,
                    },
                ),
            ),
            Err(e) => Err(e),
        }
    } else if kind == BOOK_LEVEL {
        match wire::side_of_wire(p[20]) {
            Ok(side) => Ok(
                of(
                    MarketKind::Level {
                        side,
                        px: Px(bytes::i64_at(p, 21)),
                        qty: Qty(bytes::i64_at(p, 29)),
                    },
                ),
            ),
            Err(e) => Err(e),
        }
    } else if kind == BOOK_RESET {
        Ok(of(MarketKind::BookReset))
    } else {
        Ok(of(MarketKind::BookApplied))
    }
}

/// The venue report of a kind that has a payload.
pub open spec fn venue_of(kind: u8, p: Seq<u8>) -> Result<Event, CodecError> {
    let of = |k: VenueKind| Event::In(
        Inbound::Venue(
            VenueEvent {
                order: OrderId(bytes::uint_at(p, 0, 8) as u64),
                venue_time: ExchangeTime(bytes::i64_at(p, 8)),
                receive_time: ReceiveTime(bytes::i64_at(p, 16)),
                kind: k,
            },
        ),
    );
    if kind == VENUE_ACCEPTED {
        Ok(of(VenueKind::Accepted))
    } else if kind == VENUE_CANCELLED {
        Ok(of(VenueKind::Cancelled))
    } else if kind == VENUE_EXPIRED {
        Ok(of(VenueKind::Expired))
    } else if kind == VENUE_REJECTED {
        match wire::reject_reason_of_wire(p[24]) {
            Ok(reason) => Ok(of(VenueKind::Rejected { reason })),
            Err(e) => Err(e),
        }
    } else if kind == VENUE_CANCEL_REJECTED {
        match wire::reject_reason_of_wire(p[24]) {
            Ok(reason) => Ok(of(VenueKind::CancelRejected { reason })),
            Err(e) => Err(e),
        }
    } else {
        Ok(
            of(
                VenueKind::Filled {
                    px: Px(bytes::i64_at(p, 24)),
                    qty: Qty(bytes::i64_at(p, 32)),
                    fee: Notional(bytes::i128_at(p, 40)),
                },
            ),
        )
    }
}

/// The submission in a payload. A market order's price is not read.
pub open spec fn submission_of(flags: u8, p: Seq<u8>) -> Result<Event, CodecError> {
    match wire::side_of_wire(p[22]) {
        Err(e) => Err(e),
        Ok(side) => {
            let of = |kind: OrderKind| Event::Out(
                Outbound::OrderSubmitted {
                    caused_by: SeqNo(bytes::uint_at(p, 0, 8) as u64),
                    order: OrderId(bytes::uint_at(p, 8, 8) as u64),
                    strategy: StrategyId(bytes::uint_at(p, 16, 2) as u16),
                    instrument: InstrumentId(bytes::uint_at(p, 18, 4) as u32),
                    side,
                    qty: Qty(bytes::i64_at(p, 23)),
                    kind,
                    reduce_only: flags & FLAG_REDUCE_ONLY != 0,
                },
            );
            if p[31] == ORDER_KIND_MARKET {
                Ok(of(OrderKind::Market))
            } else if p[31] == ORDER_KIND_LIMIT {
                Ok(of(OrderKind::Limit(Px(bytes::i64_at(p, 32)))))
            } else {
                Err(CodecError::UnknownEnumValue { field: "order kind", value: p[31] })
            }
        },
    }
}

/// The refusal in a payload.
pub open spec fn refusal_of(p: Seq<u8>) -> Result<Event, CodecError> {
    match wire::side_of_wire(p[14]) {
        Err(e) => Err(e),
        Ok(side) => match wire::risk_reason_of_wire(p[23]) {
            Err(e) => Err(e),
            Ok(reason) => Ok(
                Event::Out(
                    Outbound::IntentRejected {
                        caused_by: SeqNo(bytes::uint_at(p, 0, 8) as u64),
                        strategy: StrategyId(bytes::uint_at(p, 8, 2) as u16),
                        instrument: InstrumentId(bytes::uint_at(p, 10, 4) as u32),
                        side,
                        qty: Qty(bytes::i64_at(p, 15)),
                        reason,
                    },
                ),
            ),
        },
    }
}

/// The state change in a payload.
pub open spec fn state_change_of(p: Seq<u8>) -> Result<Event, CodecError> {
    match wire::engine_state_of_wire(p[8]) {
        Err(e) => Err(e),
        Ok(from) => match wire::engine_state_of_wire(p[9]) {
            Err(e) => Err(e),
            Ok(to) => match wire::state_reason_of_wire(p[10]) {
                Err(e) => Err(e),
                Ok(reason) => Ok(
                    Event::Out(
                        Outbound::StateChanged {
                            caused_by: SeqNo(bytes::uint_at(p, 0, 8) as u64),
                            from,
                            to,
                            reason,
                        },
                    ),
                ),
            },
        },
    }
}

/// What a payload says, its flags not yet judged.
pub open spec fn contents_of(kind: u8, flags: u8, p: Seq<u8>) -> Result<Event, CodecError> {
    if kind == QUOTE || kind == TRADE || BOOK_LEVEL <= kind <= BOOK_RESET {
        market_of(kind, p)
    } else if VENUE_ACCEPTED <= kind <= VENUE_EXPIRED {
        venue_of(kind, p)
    } else if kind == VENUE_POSITION {
        Ok(
            Event::In(
                Inbound::VenuePosition(
                    PositionReport {
                        instrument: InstrumentId(bytes::uint_at(p, 0, 4) as u32),
                        venue_qty: Qty(bytes::i64_at(p, 4)),
                        venue_time: ExchangeTime(bytes::i64_at(p, 12)),
                        receive_time: ReceiveTime(bytes::i64_at(p, 20)),
                    },
                ),
            ),
        )
    } else if kind == TIMER {
        Ok(
            Event::In(
                Inbound::Timer(
                    TimerEvent {
                        strategy: StrategyId(bytes::uint_at(p, 0, 2) as u16),
                        token: TimerToken(bytes::uint_at(p, 2, 8) as u64),
                        fires_at: ExchangeTime(bytes::i64_at(p, 10)),
                        receive_time: ReceiveTime(bytes::i64_at(p, 18)),
                    },
                ),
            ),
        )
    } else if kind == COMMAND {
        match wire::command_of_wire(p[0]) {
            Ok(command) => Ok(
                Event::In(
                    Inbound::Command(
                        CommandEvent { command, receive_time: ReceiveTime(bytes::i64_at(p, 1)) },
                    ),
                ),
            ),
            Err(e) => Err(e),
        }
    } else if kind == ORDER_SUBMITTED {
        submission_of(flags, p)
    } else if kind == CANCEL_SUBMITTED {
        Ok(
            Event::Out(
                Outbound::CancelSubmitted {
                    caused_by: SeqNo(bytes::uint_at(p, 0, 8) as u64),
                    order: OrderId(bytes::uint_at(p, 8, 8) as u64),
                },
            ),
        )
    } else if kind == INTENT_REJECTED {
        refusal_of(p)
    } else if kind == TIMER_REQUESTED {
        Ok(
            Event::Out(
                Outbound::TimerRequested {
                    caused_by: SeqNo(bytes::uint_at(p, 0, 8) as u64),
                    strategy: StrategyId(bytes::uint_at(p, 8, 2) as u16),
                    token: TimerToken(bytes::uint_at(p, 10, 8) as u64),
                    at: ExchangeTime(bytes::i64_at(p, 18)),
                },
            ),
        )
    } else if kind == STATE_CHANGED {
        state_change_of(p)
    } else {
        Err(CodecError::UnknownKind(kind))
    }
}

/// The event that a kind, flags and a payload make. A flag this build does not
/// know means that the writer said something the reader would drop.
pub open spec fn event_of(kind: u8, flags: u8, p: Seq<u8>) -> Result<Event, CodecError> {
    match contents_of(kind, flags, p) {
        Err(e) => Err(e),
        Ok(event) => if flags & !FLAG_REDUCE_ONLY != 0 {
            Err(CodecError::UnknownFlags(flags))
        } else {
            Ok(event)
        },
    }
}

/// What 80 bytes decode as. The checksum comes first, because a corrupt
/// record's fields are not worth complaining about one by one.
#[verifier::opaque]
pub open spec fn record_of(b: Seq<u8>) -> Result<Record, CodecError> {
    let expected = crc32::crc32_of(b.take(76));
    let found = bytes::uint_at(b, 76, 4) as u32;
    let version = bytes::uint_at(b, 8, 2) as u16;
    if found != expected {
        Err(CodecError::BadChecksum { expected, found })
    } else if b.subrange(68, 76) != zeros(8) {
        Err(CodecError::ReservedNotZero)
    } else if version > FORMAT_VERSION {
        Err(CodecError::UnsupportedVersion(version))
    } else {
        match event_of(b[10], b[11], b.subrange(12, 68)) {
            Ok(event) => Ok(
                Record { seq: SeqNo(bytes::uint_at(b, 0, 8) as u64), version, event },
            ),
            Err(e) => Err(e),
        }
    }
}

fn read_market(kind: u8, r: &mut Reader<'_>) -> (event: Result<Event, CodecError>)
    requires
        old(r).at == 0,
        old(r).buf@.len() == PAYLOAD_LEN,
    ensures
        event == market_of(kind, old(r).buf@),
        final(r).buf@ == old(r).buf@,
        event matches Ok(e) ==> final(r).at == payload_of(e).len(),
{
    broadcast use bytes::le_len;

    let instrument = InstrumentId::new(r.u32()?);
    let exchange_time = ExchangeTime::from_nanos(r.i64()?);
    let receive_time = ReceiveTime::from_nanos(r.i64()?);
    let market_kind = match kind {
        QUOTE => MarketKind::Quote {
            bid_px: Px::from_scaled(r.i64()?),
            bid_qty: Qty::from_scaled(r.i64()?),
            ask_px: Px::from_scaled(r.i64()?),
            ask_qty: Qty::from_scaled(r.i64()?),
        },
        TRADE => MarketKind::Trade {
            px: Px::from_scaled(r.i64()?),
            qty: Qty::from_scaled(r.i64()?),
            aggressor: side_from_wire(r.u8()?)?,
        },
        BOOK_LEVEL => MarketKind::Level {
            side: side_from_wire(r.u8()?)?,
            px: Px::from_scaled(r.i64()?),
            qty: Qty::from_scaled(r.i64()?),
        },
        BOOK_RESET => MarketKind::BookReset,
        _ => MarketKind::BookApplied,
    };
    Ok(
        Event::In(
            Inbound::Market(
                MarketEvent { instrument, exchange_time, receive_time, kind: market_kind },
            ),
        ),
    )
}

fn read_venue(kind: u8, r: &mut Reader<'_>) -> (event: Result<Event, CodecError>)
    requires
        old(r).at == 0,
        old(r).buf@.len() == PAYLOAD_LEN,
    ensures
        event == venue_of(kind, old(r).buf@),
        final(r).buf@ == old(r).buf@,
        event matches Ok(e) ==> final(r).at == payload_of(e).len(),
{
    broadcast use bytes::le_len;

    let order = OrderId::new(r.u64()?);
    let venue_time = ExchangeTime::from_nanos(r.i64()?);
    let receive_time = ReceiveTime::from_nanos(r.i64()?);
    let venue_kind = match kind {
        VENUE_ACCEPTED => VenueKind::Accepted,
        VENUE_CANCELLED => VenueKind::Cancelled,
        VENUE_EXPIRED => VenueKind::Expired,
        VENUE_REJECTED => VenueKind::Rejected { reason: reject_reason_from_wire(r.u8()?)? },
        VENUE_CANCEL_REJECTED => VenueKind::CancelRejected {
            reason: reject_reason_from_wire(r.u8()?)?,
        },
        _ => VenueKind::Filled {
            px: Px::from_scaled(r.i64()?),
            qty: Qty::from_scaled(r.i64()?),
            fee: Notional::from_scaled(r.i128()?),
        },
    };
    Ok(Event::In(Inbound::Venue(VenueEvent { order, venue_time, receive_time, kind: venue_kind })))
}

fn read_submission(flags: u8, r: &mut Reader<'_>) -> (event: Result<Event, CodecError>)
    requires
        old(r).at == 0,
        old(r).buf@.len() == PAYLOAD_LEN,
    ensures
        event == submission_of(flags, old(r).buf@),
        final(r).buf@ == old(r).buf@,
        event matches Ok(e) ==> final(r).at == payload_of(e).len(),
{
    broadcast use bytes::le_len;

    let caused_by = SeqNo::new(r.u64()?);
    let order = OrderId::new(r.u64()?);
    let strategy = StrategyId::new(r.u16()?);
    let instrument = InstrumentId::new(r.u32()?);
    let side = side_from_wire(r.u8()?)?;
    let qty = Qty::from_scaled(r.i64()?);
    let tag: u8 = r.u8()?;
    let px = Px::from_scaled(r.i64()?);
    let order_kind = match tag {
        ORDER_KIND_MARKET => OrderKind::Market,
        ORDER_KIND_LIMIT => OrderKind::Limit(px),
        value => {
            return Err(CodecError::UnknownEnumValue { field: "order kind", value });
        },
    };
    Ok(
        Event::Out(
            Outbound::OrderSubmitted {
                caused_by,
                order,
                strategy,
                instrument,
                side,
                qty,
                kind: order_kind,
                reduce_only: flags & FLAG_REDUCE_ONLY != 0,
            },
        ),
    )
}

/// Reads the event of a kind byte, a flag byte and a payload.
pub fn read_payload(kind: u8, flags: u8, r: &mut Reader<'_>) -> (event: Result<Event, CodecError>)
    requires
        old(r).at == 0,
        old(r).buf@.len() == PAYLOAD_LEN,
    ensures
        event == event_of(kind, flags, old(r).buf@),
        final(r).buf@ == old(r).buf@,
        event matches Ok(e) ==> final(r).at == payload_of(e).len(),
{
    broadcast use bytes::le_len;

    let event = match kind {
        QUOTE | TRADE | BOOK_LEVEL | BOOK_APPLIED | BOOK_RESET => read_market(kind, r)?,
        VENUE_ACCEPTED
        | VENUE_REJECTED
        | VENUE_FILLED
        | VENUE_CANCELLED
        | VENUE_CANCEL_REJECTED
        | VENUE_EXPIRED => read_venue(kind, r)?,
        VENUE_POSITION => Event::In(
            Inbound::VenuePosition(
                PositionReport {
                    instrument: InstrumentId::new(r.u32()?),
                    venue_qty: Qty::from_scaled(r.i64()?),
                    venue_time: ExchangeTime::from_nanos(r.i64()?),
                    receive_time: ReceiveTime::from_nanos(r.i64()?),
                },
            ),
        ),
        TIMER => Event::In(
            Inbound::Timer(
                TimerEvent {
                    strategy: StrategyId::new(r.u16()?),
                    token: TimerToken::new(r.u64()?),
                    fires_at: ExchangeTime::from_nanos(r.i64()?),
                    receive_time: ReceiveTime::from_nanos(r.i64()?),
                },
            ),
        ),
        COMMAND => Event::In(
            Inbound::Command(
                CommandEvent {
                    command: command_from_wire(r.u8()?)?,
                    receive_time: ReceiveTime::from_nanos(r.i64()?),
                },
            ),
        ),
        ORDER_SUBMITTED => read_submission(flags, r)?,
        CANCEL_SUBMITTED => Event::Out(
            Outbound::CancelSubmitted {
                caused_by: SeqNo::new(r.u64()?),
                order: OrderId::new(r.u64()?),
            },
        ),
        INTENT_REJECTED => Event::Out(
            Outbound::IntentRejected {
                caused_by: SeqNo::new(r.u64()?),
                strategy: StrategyId::new(r.u16()?),
                instrument: InstrumentId::new(r.u32()?),
                side: side_from_wire(r.u8()?)?,
                qty: Qty::from_scaled(r.i64()?),
                reason: risk_reason_from_wire(r.u8()?)?,
            },
        ),
        TIMER_REQUESTED => Event::Out(
            Outbound::TimerRequested {
                caused_by: SeqNo::new(r.u64()?),
                strategy: StrategyId::new(r.u16()?),
                token: TimerToken::new(r.u64()?),
                at: ExchangeTime::from_nanos(r.i64()?),
            },
        ),
        STATE_CHANGED => Event::Out(
            Outbound::StateChanged {
                caused_by: SeqNo::new(r.u64()?),
                from: engine_state_from_wire(r.u8()?)?,
                to: engine_state_from_wire(r.u8()?)?,
                reason: state_reason_from_wire(r.u8()?)?,
            },
        ),
        unknown => {
            return Err(CodecError::UnknownKind(unknown));
        },
    };

    if flags & !FLAG_REDUCE_ONLY != 0 {
        return Err(CodecError::UnknownFlags(flags));
    }
    Ok(event)
}

/// Whether every byte is zero.
pub(crate) fn all_zero(bytes: &[u8]) -> (zero: bool)
    ensures
        zero == (bytes@ == zeros(bytes@.len())),
{
    let mut i: usize = 0;
    while i < bytes.len()
        invariant
            i <= bytes@.len(),
            forall|k: int| 0 <= k < i ==> bytes@[k] == 0,
        decreases bytes@.len() - i,
    {
        if bytes[i] != 0 {
            assert(zeros(bytes@.len())[i as int] == 0);
            return false;
        }
        i += 1;
    }
    assert(bytes@ =~= zeros(bytes@.len()));
    true
}

/// Writes zeros up to `to`.
fn pad(w: &mut Writer<'_>, to: usize)
    requires
        old(w).well_formed(),
        old(w).at <= to <= old(w).buf@.len(),
    ensures
        old(w).wrote(*final(w), zeros((to - old(w).at) as nat)),
        old(w).kept_rest(*final(w)),
        final(final(w).buf)@ == final(old(w).buf)@,
{
    assert(old(w).done() + zeros(0) =~= old(w).done());
    while w.at < to
        invariant
            w.well_formed(),
            w.buf@.len() == old(w).buf@.len(),
            old(w).at <= w.at <= to <= w.buf@.len(),
            w.done() == old(w).done() + zeros((w.at - old(w).at) as nat),
            old(w).kept_rest(*w),
            final(w.buf)@ == final(old(w).buf)@,
        decreases to - w.at,
    {
        w.u8(0);
        assert(w.done() =~= old(w).done() + zeros((w.at - old(w).at) as nat));
    }
}

/// Encodes a record into exactly [`RECORD_LEN`] bytes.
///
/// The encoding is canonical: every byte of the buffer is written, so the same
/// record always produces the same bytes whatever stood there before.
pub fn encode_record(record: &Record, out: &mut [u8; RECORD_LEN])
    ensures
        final(out)@ == bytes_of(*record),
{
    broadcast use {bytes::le_len, concat_left};

    proof {
        payload_fits(record.event);
    }
    let (kind, flags) = kind_and_flags(&record.event);
    let ghost head = bytes::le(record.seq.0 as nat, 8) + bytes::le(record.version as nat, 2)
        + seq![kind, flags];
    {
        let mut w = Writer::new(out);
        w.u64(record.seq.raw());
        w.u16(record.version);
        w.u8(kind);
        w.u8(flags);
        assert(w.done() =~= head);
        write_payload(&record.event, &mut w);
        pad(&mut w, CRC_AT);
    }
    assert(out@.take(76) =~= body_of(*record));
    let checksum: u32 = crc32::crc32(vstd::slice::slice_subrange(out.as_slice(), 0, CRC_AT));
    {
        let mut w = Writer { buf: out, at: CRC_AT };
        w.u32(checksum);
        assert(w.done() =~= w.buf@);
    }
}

/// Decodes a record from exactly [`RECORD_LEN`] bytes.
pub fn decode_record(bytes: &[u8; RECORD_LEN]) -> (record: Result<Record, CodecError>)
    ensures
        record == record_of(bytes@),
{
    proof {
        reveal(record_of);
    }
    let all = bytes.as_slice();
    let mut tail = Reader::new(vstd::slice::slice_subrange(all, CRC_AT, RECORD_LEN));
    let found: u32 = tail.u32()?;
    assert(all@.subrange(76, 80).subrange(0, 4) =~= all@.subrange(76, 80));
    let expected: u32 = crc32::crc32(vstd::slice::slice_subrange(all, 0, CRC_AT));
    assert(all@.subrange(0, 76) =~= all@.take(76));
    if found != expected {
        return Err(CodecError::BadChecksum { expected, found });
    }
    if !all_zero(vstd::slice::slice_subrange(all, RESERVED_AT, CRC_AT)) {
        return Err(CodecError::ReservedNotZero);
    }
    let mut head = Reader::new(vstd::slice::slice_subrange(all, 0, PAYLOAD_AT));
    let seq = SeqNo::new(head.u64()?);
    let version: u16 = head.u16()?;
    assert(all@.subrange(0, 12).subrange(0, 8) =~= all@.subrange(0, 8));
    assert(all@.subrange(0, 12).subrange(8, 10) =~= all@.subrange(8, 10));
    // Per record, not just per file: a log may span an upgrade, and a record
    // of a newer format may lay its payload out differently.
    if version > FORMAT_VERSION {
        return Err(CodecError::UnsupportedVersion(version));
    }
    let kind: u8 = head.u8()?;
    let flags: u8 = head.u8()?;

    let mut body = Reader::new(vstd::slice::slice_subrange(all, PAYLOAD_AT, RESERVED_AT));
    let event = read_payload(kind, flags, &mut body)?;
    Ok(Record { seq, version, event })
}

/// `payload` with zeros up to the room a payload has.
pub open spec fn padded(payload: Seq<u8>) -> Seq<u8> {
    payload + zeros((PAYLOAD_LEN - payload.len()) as nat)
}

proof fn market_reads_back(m: MarketEvent)
    ensures
        ({
            let event = Event::In(Inbound::Market(m));
            market_of(kind_of(event), padded(payload_of(event))) == Ok::<Event, CodecError>(event)
        }),
{
    broadcast use bytes::le_len;

    bytes::spans();
    let event = Event::In(Inbound::Market(m));
    let p = padded(payload_of(event));
    payload_fits(event);
    assert(p.subrange(0, 4) =~= bytes::le(m.instrument.0 as nat, 4));
    bytes::uint_reads_back(p, 0, m.instrument.0 as nat, 4);
    assert(p.subrange(4, 12) =~= bytes::i64_le(m.exchange_time.0));
    bytes::i64_reads_back(p, 4, m.exchange_time.0);
    assert(p.subrange(12, 20) =~= bytes::i64_le(m.receive_time.0));
    bytes::i64_reads_back(p, 12, m.receive_time.0);
    match m.kind {
        MarketKind::Quote { bid_px, bid_qty, ask_px, ask_qty } => {
            assert(p.subrange(20, 28) =~= bytes::i64_le(bid_px.0));
            bytes::i64_reads_back(p, 20, bid_px.0);
            assert(p.subrange(28, 36) =~= bytes::i64_le(bid_qty.0));
            bytes::i64_reads_back(p, 28, bid_qty.0);
            assert(p.subrange(36, 44) =~= bytes::i64_le(ask_px.0));
            bytes::i64_reads_back(p, 36, ask_px.0);
            assert(p.subrange(44, 52) =~= bytes::i64_le(ask_qty.0));
            bytes::i64_reads_back(p, 44, ask_qty.0);
        },
        MarketKind::Trade { px, qty, aggressor } => {
            assert(p.subrange(20, 28) =~= bytes::i64_le(px.0));
            bytes::i64_reads_back(p, 20, px.0);
            assert(p.subrange(28, 36) =~= bytes::i64_le(qty.0));
            bytes::i64_reads_back(p, 28, qty.0);
            assert(p[36] == wire::side_wire(aggressor));
        },
        MarketKind::Level { side, px, qty } => {
            assert(p[20] == wire::side_wire(side));
            assert(p.subrange(21, 29) =~= bytes::i64_le(px.0));
            bytes::i64_reads_back(p, 21, px.0);
            assert(p.subrange(29, 37) =~= bytes::i64_le(qty.0));
            bytes::i64_reads_back(p, 29, qty.0);
        },
        _ => {},
    }
}

proof fn venue_reads_back(v: VenueEvent)
    ensures
        ({
            let event = Event::In(Inbound::Venue(v));
            venue_of(kind_of(event), padded(payload_of(event))) == Ok::<Event, CodecError>(event)
        }),
{
    broadcast use bytes::le_len;

    bytes::spans();
    let event = Event::In(Inbound::Venue(v));
    let p = padded(payload_of(event));
    payload_fits(event);
    assert(p.subrange(0, 8) =~= bytes::le(v.order.0 as nat, 8));
    bytes::uint_reads_back(p, 0, v.order.0 as nat, 8);
    assert(p.subrange(8, 16) =~= bytes::i64_le(v.venue_time.0));
    bytes::i64_reads_back(p, 8, v.venue_time.0);
    assert(p.subrange(16, 24) =~= bytes::i64_le(v.receive_time.0));
    bytes::i64_reads_back(p, 16, v.receive_time.0);
    match v.kind {
        VenueKind::Rejected { reason } => {
            assert(p[24] == wire::reject_reason_wire(reason));
        },
        VenueKind::CancelRejected { reason } => {
            assert(p[24] == wire::reject_reason_wire(reason));
        },
        VenueKind::Filled { px, qty, fee } => {
            assert(p.subrange(24, 32) =~= bytes::i64_le(px.0));
            bytes::i64_reads_back(p, 24, px.0);
            assert(p.subrange(32, 40) =~= bytes::i64_le(qty.0));
            bytes::i64_reads_back(p, 32, qty.0);
            assert(p.subrange(40, 56) =~= bytes::i128_le(fee.0));
            bytes::i128_reads_back(p, 40, fee.0);
        },
        _ => {},
    }
}

proof fn decision_reads_back(o: Outbound)
    ensures
        ({
            let event = Event::Out(o);
            contents_of(kind_of(event), flags_of(event), padded(payload_of(event))) == Ok::<
                Event,
                CodecError,
            >(event)
        }),
{
    broadcast use {bytes::le_len, concat_left};

    bytes::spans();
    assert(FLAG_REDUCE_ONLY & FLAG_REDUCE_ONLY != 0 && 0u8 & FLAG_REDUCE_ONLY == 0)
        by (bit_vector);
    let event = Event::Out(o);
    let p = padded(payload_of(event));
    payload_fits(event);
    match o {
        Outbound::OrderSubmitted {
            caused_by,
            order,
            strategy,
            instrument,
            side,
            qty,
            kind,
            reduce_only,
        } => {
            assert(p.subrange(0, 8) =~= bytes::le(caused_by.0 as nat, 8));
            bytes::uint_reads_back(p, 0, caused_by.0 as nat, 8);
            assert(p.subrange(8, 16) =~= bytes::le(order.0 as nat, 8));
            bytes::uint_reads_back(p, 8, order.0 as nat, 8);
            assert(p.subrange(16, 18) =~= bytes::le(strategy.0 as nat, 2));
            bytes::uint_reads_back(p, 16, strategy.0 as nat, 2);
            assert(p.subrange(18, 22) =~= bytes::le(instrument.0 as nat, 4));
            bytes::uint_reads_back(p, 18, instrument.0 as nat, 4);
            assert(p[22] == wire::side_wire(side));
            assert(p.subrange(23, 31) =~= bytes::i64_le(qty.0));
            bytes::i64_reads_back(p, 23, qty.0);
            match kind {
                OrderKind::Market => {
                    assert(p[31] == ORDER_KIND_MARKET);
                },
                OrderKind::Limit(px) => {
                    assert(p[31] == ORDER_KIND_LIMIT);
                    assert(p.subrange(32, 40) =~= bytes::i64_le(px.0));
                    bytes::i64_reads_back(p, 32, px.0);
                },
            }
        },
        Outbound::CancelSubmitted { caused_by, order } => {
            assert(p.subrange(0, 8) =~= bytes::le(caused_by.0 as nat, 8));
            bytes::uint_reads_back(p, 0, caused_by.0 as nat, 8);
            assert(p.subrange(8, 16) =~= bytes::le(order.0 as nat, 8));
            bytes::uint_reads_back(p, 8, order.0 as nat, 8);
        },
        Outbound::IntentRejected { caused_by, strategy, instrument, side, qty, reason } => {
            assert(p.subrange(0, 8) =~= bytes::le(caused_by.0 as nat, 8));
            bytes::uint_reads_back(p, 0, caused_by.0 as nat, 8);
            assert(p.subrange(8, 10) =~= bytes::le(strategy.0 as nat, 2));
            bytes::uint_reads_back(p, 8, strategy.0 as nat, 2);
            assert(p.subrange(10, 14) =~= bytes::le(instrument.0 as nat, 4));
            bytes::uint_reads_back(p, 10, instrument.0 as nat, 4);
            assert(p[14] == wire::side_wire(side));
            assert(p.subrange(15, 23) =~= bytes::i64_le(qty.0));
            bytes::i64_reads_back(p, 15, qty.0);
            assert(p[23] == wire::risk_reason_wire(reason));
        },
        Outbound::TimerRequested { caused_by, strategy, token, at } => {
            assert(p.subrange(0, 8) =~= bytes::le(caused_by.0 as nat, 8));
            bytes::uint_reads_back(p, 0, caused_by.0 as nat, 8);
            assert(p.subrange(8, 10) =~= bytes::le(strategy.0 as nat, 2));
            bytes::uint_reads_back(p, 8, strategy.0 as nat, 2);
            assert(p.subrange(10, 18) =~= bytes::le(token.0 as nat, 8));
            bytes::uint_reads_back(p, 10, token.0 as nat, 8);
            assert(p.subrange(18, 26) =~= bytes::i64_le(at.0));
            bytes::i64_reads_back(p, 18, at.0);
        },
        Outbound::StateChanged { caused_by, from, to, reason } => {
            assert(p.subrange(0, 8) =~= bytes::le(caused_by.0 as nat, 8));
            bytes::uint_reads_back(p, 0, caused_by.0 as nat, 8);
            assert(p[8] == wire::engine_state_wire(from));
            assert(p[9] == wire::engine_state_wire(to));
            assert(p[10] == wire::state_reason_wire(reason));
        },
    }
}

proof fn input_reads_back(i: Inbound)
    ensures
        ({
            let event = Event::In(i);
            contents_of(kind_of(event), flags_of(event), padded(payload_of(event))) == Ok::<
                Event,
                CodecError,
            >(event)
        }),
{
    broadcast use bytes::le_len;

    bytes::spans();
    let event = Event::In(i);
    let p = padded(payload_of(event));
    payload_fits(event);
    match i {
        Inbound::Market(m) => {
            market_reads_back(m);
        },
        Inbound::Venue(v) => {
            venue_reads_back(v);
        },
        Inbound::VenuePosition(r) => {
            assert(p.subrange(0, 4) =~= bytes::le(r.instrument.0 as nat, 4));
            bytes::uint_reads_back(p, 0, r.instrument.0 as nat, 4);
            assert(p.subrange(4, 12) =~= bytes::i64_le(r.venue_qty.0));
            bytes::i64_reads_back(p, 4, r.venue_qty.0);
            assert(p.subrange(12, 20) =~= bytes::i64_le(r.venue_time.0));
            bytes::i64_reads_back(p, 12, r.venue_time.0);
            assert(p.subrange(20, 28) =~= bytes::i64_le(r.receive_time.0));
            bytes::i64_reads_back(p, 20, r.receive_time.0);
        },
        Inbound::Timer(t) => {
            assert(p.subrange(0, 2) =~= bytes::le(t.strategy.0 as nat, 2));
            bytes::uint_reads_back(p, 0, t.strategy.0 as nat, 2);
            assert(p.subrange(2, 10) =~= bytes::le(t.token.0 as nat, 8));
            bytes::uint_reads_back(p, 2, t.token.0 as nat, 8);
            assert(p.subrange(10, 18) =~= bytes::i64_le(t.fires_at.0));
            bytes::i64_reads_back(p, 10, t.fires_at.0);
            assert(p.subrange(18, 26) =~= bytes::i64_le(t.receive_time.0));
            bytes::i64_reads_back(p, 18, t.receive_time.0);
        },
        Inbound::Command(c) => {
            assert(p[0] == wire::command_wire(c.command));
            assert(p.subrange(1, 9) =~= bytes::i64_le(c.receive_time.0));
            bytes::i64_reads_back(p, 1, c.receive_time.0);
        },
    }
}

/// A payload reads back as the event it was written for, every field intact: it
/// fits its room, and with its kind and flags, the rest of the room zero, it makes
/// that event and no other.
pub proof fn payload_round_trips(event: Event)
    ensures
        payload_of(event).len() <= PAYLOAD_LEN,
        event_of(kind_of(event), flags_of(event), padded(payload_of(event))) == Ok::<
            Event,
            CodecError,
        >(event),
{
    payload_fits(event);
    match event {
        Event::In(i) => input_reads_back(i),
        Event::Out(o) => decision_reads_back(o),
    }
    assert(0u8 & !FLAG_REDUCE_ONLY == 0 && FLAG_REDUCE_ONLY & !FLAG_REDUCE_ONLY == 0)
        by (bit_vector);
}

/// A record reads back as what was written, whatever it says, where its format
/// is not newer than this build's.
pub proof fn record_round_trips(record: Record)
    requires
        record.version <= FORMAT_VERSION,
    ensures
        bytes_of(record).len() == RECORD_LEN,
        record_of(bytes_of(record)) == Ok::<Record, CodecError>(record),
{
    broadcast use bytes::le_len;

    reveal(record_of);
    bytes::spans();
    payload_round_trips(record.event);
    let b = bytes_of(record);
    let checksum = crc32::crc32_of(body_of(record));
    assert(b.take(76) =~= body_of(record));
    assert(b.subrange(76, 80) =~= bytes::le(checksum as nat, 4));
    bytes::uint_reads_back(b, 76, checksum as nat, 4);
    assert(b.subrange(68, 76) =~= zeros(8));
    assert(b.subrange(0, 8) =~= bytes::le(record.seq.0 as nat, 8));
    bytes::uint_reads_back(b, 0, record.seq.0 as nat, 8);
    assert(b.subrange(8, 10) =~= bytes::le(record.version as nat, 2));
    bytes::uint_reads_back(b, 8, record.version as nat, 2);
    assert(b.subrange(12, 68) =~= padded(payload_of(record.event)));
    assert(b[10] == kind_of(record.event));
    assert(b[11] == flags_of(record.event));
}

/// Two records of a format this build reads never share an encoding.
pub proof fn encoding_is_injective(a: Record, b: Record)
    requires
        a.version <= FORMAT_VERSION,
        b.version <= FORMAT_VERSION,
        bytes_of(a) == bytes_of(b),
    ensures
        a == b,
{
    record_round_trips(a);
    record_round_trips(b);
}

/// A wiped record decodes as nothing.
pub proof fn zeros_decode_as_nothing()
    ensures
        record_of(zeros(RECORD_LEN as nat)) is Err,
{
    reveal(record_of);
    let b = zeros(RECORD_LEN as nat);
    assert(b[10] == 0);
}

/// Damage to any one byte of a record, in whatever bits, is caught by its
/// checksum.
pub proof fn damaged_byte_is_caught(b: Seq<u8>, at: int, byte: u8)
    requires
        b.len() == RECORD_LEN,
        record_of(b) is Ok,
        0 <= at < RECORD_LEN,
        b[at] != byte,
    ensures
        record_of(b.update(at, byte)) matches Err(CodecError::BadChecksum { .. }),
{
    reveal(record_of);
    let d = b.update(at, byte);
    if at < 76 {
        assert(d.take(76) =~= b.take(76).update(at, byte));
        crc32::changed_byte_changes_checksum(b.take(76), at, byte);
        assert(d.subrange(76, 80) =~= b.subrange(76, 80));
    } else {
        assert(d.take(76) =~= b.take(76));
        let old_tail = b.subrange(76, 80);
        let new_tail = d.subrange(76, 80);
        assert(new_tail[at - 76] != old_tail[at - 76]);
        bytes::le_inverts_of_le(old_tail);
        bytes::le_inverts_of_le(new_tail);
        bytes::spans();
    }
}

} // verus!
