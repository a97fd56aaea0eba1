//! Where each field of a recorded session stands in its bytes.
use vstd::prelude::*;

use super::header::{EntryView, HeaderView};
use super::{bytes, crc32, header, record, wire, CodecError, LogHeader};
use crate::event::{
    Command, EngineState, Event, Inbound, MarketKind, OrderKind, Outbound, Record, RejectReason,
    RiskReason, StateReason, VenueKind,
};
use crate::value::{Instrument, Side};

verus! {

/// The byte of a number that counts two hundred and fifty-six to the power of `i`.
pub open spec fn byte_of(n: int, i: nat) -> int
    decreases i,
{
    if i == 0 {
        n % 256
    } else {
        byte_of(n / 256, (i - 1) as nat)
    }
}

/// Whether a number that is not negative stands in the `len` bytes from `at`, its
/// least significant byte first.
pub open spec fn holds(b: Seq<u8>, at: int, len: nat, n: int) -> bool {
    &&& 0 <= at
    &&& at + len <= b.len()
    &&& forall|i: nat| i < len ==> b[at + i] == #[trigger] byte_of(n, i)
}

/// Whether a number stands in the eight bytes from `at`, in two's complement.
pub open spec fn holds_i64(b: Seq<u8>, at: int, n: i64) -> bool {
    holds(
        b,
        at,
        8,
        if n < 0 {
            n + 0x1_0000_0000_0000_0000
        } else {
            n as int
        },
    )
}

/// Whether a number stands in the sixteen bytes from `at`, in two's complement.
pub open spec fn holds_i128(b: Seq<u8>, at: int, n: i128) -> bool {
    holds(
        b,
        at,
        16,
        if n < 0 {
            n + 0x1_0000_0000_0000_0000_0000_0000_0000_0000
        } else {
            n as int
        },
    )
}

/// Whether bytes are zero.
pub open spec fn is_clear(b: Seq<u8>, from: int, to: int) -> bool {
    forall|i: int| from <= i < to ==> #[trigger] b[i] == 0
}

proof fn byte_by_byte(value: nat, len: nat, i: nat)
    requires
        i < len,
    ensures
        bytes::le(value, len).len() == len,
        bytes::le(value, len)[i as int] == byte_of(value as int, i),
    decreases i,
{
    bytes::le_len(value, len);
    bytes::le_len(value / 256, (len - 1) as nat);
    if i > 0 {
        byte_by_byte(value / 256, (len - 1) as nat, (i - 1) as nat);
        assert(bytes::le(value, len)[i as int] == bytes::le(
            value / 256,
            (len - 1) as nat,
        )[i - 1]);
    }
}

proof fn stands(b: Seq<u8>, at: int, len: nat, value: nat)
    requires
        0 <= at,
        at + len <= b.len(),
        b.subrange(at, at + len) == bytes::le(value, len),
    ensures
        holds(b, at, len, value as int),
{
    assert forall|i: nat| i < len implies b[at + i] == #[trigger] byte_of(value as int, i) by {
        byte_by_byte(value, len, i);
        assert(b.subrange(at, at + len)[i as int] == b[at + i]);
    }
}

proof fn stands_i64(b: Seq<u8>, at: int, value: i64)
    requires
        0 <= at,
        at + 8 <= b.len(),
        b.subrange(at, at + 8) == bytes::i64_le(value),
    ensures
        holds_i64(b, at, value),
{
    stands(b, at, 8, bytes::pattern64(value));
}

/// The number of an event's kind.
pub open spec fn kind_number(event: Event) -> u8 {
    match event {
        Event::In(Inbound::Market(m)) => match m.kind {
            MarketKind::Quote { .. } => 1,
            MarketKind::Trade { .. } => 2,
            MarketKind::Level { .. } => 12,
            MarketKind::BookApplied => 13,
            MarketKind::BookReset => 14,
        },
        Event::In(Inbound::Venue(v)) => match v.kind {
            VenueKind::Accepted => 3,
            VenueKind::Rejected { .. } => 4,
            VenueKind::Filled { .. } => 5,
            VenueKind::Cancelled => 6,
            VenueKind::CancelRejected { .. } => 7,
            VenueKind::Expired => 8,
        },
        Event::In(Inbound::VenuePosition(_)) => 9,
        Event::In(Inbound::Timer(_)) => 10,
        Event::In(Inbound::Command(_)) => 11,
        Event::Out(Outbound::OrderSubmitted { .. }) => 64,
        Event::Out(Outbound::CancelSubmitted { .. }) => 65,
        Event::Out(Outbound::IntentRejected { .. }) => 66,
        Event::Out(Outbound::TimerRequested { .. }) => 67,
        Event::Out(Outbound::StateChanged { .. }) => 68,
    }
}

/// The number of a side.
pub open spec fn side_number(side: Side) -> u8 {
    if side == Side::Buy {
        1
    } else {
        2
    }
}

/// Whether an input stands in a record's bytes.
pub open spec fn input_stands(b: Seq<u8>, input: Inbound) -> bool {
    match input {
        Inbound::Market(m) => {
            &&& holds(b, 12, 4, m.instrument.0 as int)
            &&& holds_i64(b, 16, m.exchange_time.0)
            &&& holds_i64(b, 24, m.receive_time.0)
            &&& match m.kind {
                MarketKind::Quote { bid_px, bid_qty, ask_px, ask_qty } => {
                    &&& holds_i64(b, 32, bid_px.0)
                    &&& holds_i64(b, 40, bid_qty.0)
                    &&& holds_i64(b, 48, ask_px.0)
                    &&& holds_i64(b, 56, ask_qty.0)
                    &&& is_clear(b, 64, 76)
                },
                MarketKind::Trade { px, qty, aggressor } => {
                    &&& holds_i64(b, 32, px.0)
                    &&& holds_i64(b, 40, qty.0)
                    &&& b[48] == side_number(aggressor)
                    &&& is_clear(b, 49, 76)
                },
                MarketKind::Level { side, px, qty } => {
                    &&& b[32] == side_number(side)
                    &&& holds_i64(b, 33, px.0)
                    &&& holds_i64(b, 41, qty.0)
                    &&& is_clear(b, 49, 76)
                },
                MarketKind::BookApplied | MarketKind::BookReset => is_clear(b, 32, 76),
            }
        },
        Inbound::Venue(v) => {
            &&& holds(b, 12, 8, v.order.0 as int)
            &&& holds_i64(b, 20, v.venue_time.0)
            &&& holds_i64(b, 28, v.receive_time.0)
            &&& match v.kind {
                VenueKind::Filled { px, qty, fee } => {
                    &&& holds_i64(b, 36, px.0)
                    &&& holds_i64(b, 44, qty.0)
                    &&& holds_i128(b, 52, fee.0)
                    &&& is_clear(b, 68, 76)
                },
                VenueKind::Rejected { reason } | VenueKind::CancelRejected { reason } => {
                    &&& b[36] == wire::reject_reason_wire(reason)
                    &&& is_clear(b, 37, 76)
                },
                _ => is_clear(b, 36, 76),
            }
        },
        Inbound::VenuePosition(p) => {
            &&& holds(b, 12, 4, p.instrument.0 as int)
            &&& holds_i64(b, 16, p.venue_qty.0)
            &&& holds_i64(b, 24, p.venue_time.0)
            &&& holds_i64(b, 32, p.receive_time.0)
            &&& is_clear(b, 40, 76)
        },
        Inbound::Timer(t) => {
            &&& holds(b, 12, 2, t.strategy.0 as int)
            &&& holds(b, 14, 8, t.token.0 as int)
            &&& holds_i64(b, 22, t.fires_at.0)
            &&& holds_i64(b, 30, t.receive_time.0)
            &&& is_clear(b, 38, 76)
        },
        Inbound::Command(c) => {
            &&& b[12] == wire::command_wire(c.command)
            &&& holds_i64(b, 13, c.receive_time.0)
            &&& is_clear(b, 21, 76)
        },
    }
}

/// Whether a decision stands in a record's bytes.
pub open spec fn decision_stands(b: Seq<u8>, out: Outbound) -> bool {
    match out {
        Outbound::OrderSubmitted {
            caused_by,
            order,
            strategy,
            instrument,
            side,
            qty,
            kind,
            reduce_only,
        } => {
            &&& holds(b, 12, 8, caused_by.0 as int)
            &&& holds(b, 20, 8, order.0 as int)
            &&& holds(b, 28, 2, strategy.0 as int)
            &&& holds(b, 30, 4, instrument.0 as int)
            &&& b[34] == side_number(side)
            &&& holds_i64(b, 35, qty.0)
            &&& match kind {
                OrderKind::Market => b[43] == 1 && is_clear(b, 44, 76),
                OrderKind::Limit(px) => b[43] == 2 && holds_i64(b, 44, px.0) && is_clear(b, 52, 76),
            }
        },
        Outbound::CancelSubmitted { caused_by, order } => {
            &&& holds(b, 12, 8, caused_by.0 as int)
            &&& holds(b, 20, 8, order.0 as int)
            &&& is_clear(b, 28, 76)
        },
        Outbound::IntentRejected { caused_by, strategy, instrument, side, qty, reason } => {
            &&& holds(b, 12, 8, caused_by.0 as int)
            &&& holds(b, 20, 2, strategy.0 as int)
            &&& holds(b, 22, 4, instrument.0 as int)
            &&& b[26] == side_number(side)
            &&& holds_i64(b, 27, qty.0)
            &&& b[35] == wire::risk_reason_wire(reason)
            &&& is_clear(b, 36, 76)
        },
        Outbound::TimerRequested { caused_by, strategy, token, at } => {
            &&& holds(b, 12, 8, caused_by.0 as int)
            &&& holds(b, 20, 2, strategy.0 as int)
            &&& holds(b, 22, 8, token.0 as int)
            &&& holds_i64(b, 30, at.0)
            &&& is_clear(b, 38, 76)
        },
        Outbound::StateChanged { caused_by, from, to, reason } => {
            &&& holds(b, 12, 8, caused_by.0 as int)
            &&& b[20] == wire::engine_state_wire(from)
            &&& b[21] == wire::engine_state_wire(to)
            &&& b[22] == wire::state_reason_wire(reason)
            &&& is_clear(b, 23, 76)
        },
    }
}

proof fn input_is_laid_out(record: Record, input: Inbound)
    requires
        record.event == Event::In(input),
    ensures
        input_stands(record::bytes_of(record), input),
{
    broadcast use bytes::le_len;

    let b = record::bytes_of(record);
    match input {
        Inbound::Market(m) => {
            assert(b.subrange(12, 16) =~= bytes::le(m.instrument.0 as nat, 4));
            stands(b, 12, 4, m.instrument.0 as nat);
            assert(b.subrange(16, 24) =~= bytes::i64_le(m.exchange_time.0));
            stands_i64(b, 16, m.exchange_time.0);
            assert(b.subrange(24, 32) =~= bytes::i64_le(m.receive_time.0));
            stands_i64(b, 24, m.receive_time.0);
            match m.kind {
                MarketKind::Quote { bid_px, bid_qty, ask_px, ask_qty } => {
                    assert(b.subrange(32, 40) =~= bytes::i64_le(bid_px.0));
                    stands_i64(b, 32, bid_px.0);
                    assert(b.subrange(40, 48) =~= bytes::i64_le(bid_qty.0));
                    stands_i64(b, 40, bid_qty.0);
                    assert(b.subrange(48, 56) =~= bytes::i64_le(ask_px.0));
                    stands_i64(b, 48, ask_px.0);
                    assert(b.subrange(56, 64) =~= bytes::i64_le(ask_qty.0));
                    stands_i64(b, 56, ask_qty.0);
                },
                MarketKind::Trade { px, qty, .. } => {
                    assert(b.subrange(32, 40) =~= bytes::i64_le(px.0));
                    stands_i64(b, 32, px.0);
                    assert(b.subrange(40, 48) =~= bytes::i64_le(qty.0));
                    stands_i64(b, 40, qty.0);
                },
                MarketKind::Level { px, qty, .. } => {
                    assert(b.subrange(33, 41) =~= bytes::i64_le(px.0));
                    stands_i64(b, 33, px.0);
                    assert(b.subrange(41, 49) =~= bytes::i64_le(qty.0));
                    stands_i64(b, 41, qty.0);
                },
                _ => {},
            }
        },
        Inbound::Venue(v) => {
            assert(b.subrange(12, 20) =~= bytes::le(v.order.0 as nat, 8));
            stands(b, 12, 8, v.order.0 as nat);
            assert(b.subrange(20, 28) =~= bytes::i64_le(v.venue_time.0));
            stands_i64(b, 20, v.venue_time.0);
            assert(b.subrange(28, 36) =~= bytes::i64_le(v.receive_time.0));
            stands_i64(b, 28, v.receive_time.0);
            if let VenueKind::Filled { px, qty, fee } = v.kind {
                assert(b.subrange(36, 44) =~= bytes::i64_le(px.0));
                stands_i64(b, 36, px.0);
                assert(b.subrange(44, 52) =~= bytes::i64_le(qty.0));
                stands_i64(b, 44, qty.0);
                assert(b.subrange(52, 68) =~= bytes::i128_le(fee.0));
                stands(b, 52, 16, bytes::pattern128(fee.0));
            }
        },
        Inbound::VenuePosition(p) => {
            assert(b.subrange(12, 16) =~= bytes::le(p.instrument.0 as nat, 4));
            stands(b, 12, 4, p.instrument.0 as nat);
            assert(b.subrange(16, 24) =~= bytes::i64_le(p.venue_qty.0));
            stands_i64(b, 16, p.venue_qty.0);
            assert(b.subrange(24, 32) =~= bytes::i64_le(p.venue_time.0));
            stands_i64(b, 24, p.venue_time.0);
            assert(b.subrange(32, 40) =~= bytes::i64_le(p.receive_time.0));
            stands_i64(b, 32, p.receive_time.0);
        },
        Inbound::Timer(t) => {
            assert(b.subrange(12, 14) =~= bytes::le(t.strategy.0 as nat, 2));
            stands(b, 12, 2, t.strategy.0 as nat);
            assert(b.subrange(14, 22) =~= bytes::le(t.token.0 as nat, 8));
            stands(b, 14, 8, t.token.0 as nat);
            assert(b.subrange(22, 30) =~= bytes::i64_le(t.fires_at.0));
            stands_i64(b, 22, t.fires_at.0);
            assert(b.subrange(30, 38) =~= bytes::i64_le(t.receive_time.0));
            stands_i64(b, 30, t.receive_time.0);
        },
        Inbound::Command(c) => {
            assert(b.subrange(13, 21) =~= bytes::i64_le(c.receive_time.0));
            stands_i64(b, 13, c.receive_time.0);
        },
    }
}

proof fn zero_is_clear(b: Seq<u8>, at: int)
    requires
        0 <= at,
        at + 8 <= b.len(),
        b.subrange(at, at + 8) == bytes::i64_le(0),
    ensures
        is_clear(b, at, at + 8),
{
    reveal_with_fuel(bytes::le, 9);
    assert forall|i: int| at <= i < at + 8 implies #[trigger] b[i] == 0 by {
        assert(b.subrange(at, at + 8)[i - at] == b[i]);
    }
}

proof fn decision_is_laid_out(record: Record, out: Outbound)
    requires
        record.event == Event::Out(out),
    ensures
        decision_stands(record::bytes_of(record), out),
{
    broadcast use bytes::le_len;

    let b = record::bytes_of(record);
    match out {
        Outbound::OrderSubmitted { caused_by, order, strategy, instrument, side, qty, kind, .. } => {
            assert(b.subrange(12, 20) =~= bytes::le(caused_by.0 as nat, 8));
            stands(b, 12, 8, caused_by.0 as nat);
            assert(b.subrange(20, 28) =~= bytes::le(order.0 as nat, 8));
            stands(b, 20, 8, order.0 as nat);
            assert(b.subrange(28, 30) =~= bytes::le(strategy.0 as nat, 2));
            stands(b, 28, 2, strategy.0 as nat);
            assert(b.subrange(30, 34) =~= bytes::le(instrument.0 as nat, 4));
            stands(b, 30, 4, instrument.0 as nat);
            assert(b.subrange(35, 43) =~= bytes::i64_le(qty.0));
            stands_i64(b, 35, qty.0);
            match kind {
                OrderKind::Market => {
                    assert(b.subrange(44, 52) =~= bytes::i64_le(0));
                    zero_is_clear(b, 44);
                },
                OrderKind::Limit(px) => {
                    assert(b.subrange(44, 52) =~= bytes::i64_le(px.0));
                    stands_i64(b, 44, px.0);
                },
            }
        },
        Outbound::CancelSubmitted { caused_by, order } => {
            assert(b.subrange(12, 20) =~= bytes::le(caused_by.0 as nat, 8));
            stands(b, 12, 8, caused_by.0 as nat);
            assert(b.subrange(20, 28) =~= bytes::le(order.0 as nat, 8));
            stands(b, 20, 8, order.0 as nat);
        },
        Outbound::IntentRejected { caused_by, strategy, instrument, qty, .. } => {
            assert(b.subrange(12, 20) =~= bytes::le(caused_by.0 as nat, 8));
            stands(b, 12, 8, caused_by.0 as nat);
            assert(b.subrange(20, 22) =~= bytes::le(strategy.0 as nat, 2));
            stands(b, 20, 2, strategy.0 as nat);
            assert(b.subrange(22, 26) =~= bytes::le(instrument.0 as nat, 4));
            stands(b, 22, 4, instrument.0 as nat);
            assert(b.subrange(27, 35) =~= bytes::i64_le(qty.0));
            stands_i64(b, 27, qty.0);
        },
        Outbound::TimerRequested { caused_by, strategy, token, at } => {
            assert(b.subrange(12, 20) =~= bytes::le(caused_by.0 as nat, 8));
            stands(b, 12, 8, caused_by.0 as nat);
            assert(b.subrange(20, 22) =~= bytes::le(strategy.0 as nat, 2));
            stands(b, 20, 2, strategy.0 as nat);
            assert(b.subrange(22, 30) =~= bytes::le(token.0 as nat, 8));
            stands(b, 22, 8, token.0 as nat);
            assert(b.subrange(30, 38) =~= bytes::i64_le(at.0));
            stands_i64(b, 30, at.0);
        },
        Outbound::StateChanged { caused_by, .. } => {
            assert(b.subrange(12, 20) =~= bytes::le(caused_by.0 as nat, 8));
            stands(b, 12, 8, caused_by.0 as nat);
        },
    }
}

/// Where each field of a record stands: the sequence number in the first eight bytes,
/// the version in the next two, the number of the kind, the flag that is set exactly
/// for an order that may only reduce, then what the event says, each field in its own
/// place, zeros up to the last four bytes, and in those the checksum of all before.
pub proof fn records_are_laid_out(record: Record)
    ensures
        ({
            let b = record::bytes_of(record);
            &&& b.len() == 80
            &&& holds(b, 0, 8, record.seq.0 as int)
            &&& holds(b, 8, 2, record.version as int)
            &&& b[10] == kind_number(record.event)
            &&& b[11] == if record.event matches Event::Out(
                Outbound::OrderSubmitted { reduce_only, .. },
            ) && reduce_only {
                1u8
            } else {
                0u8
            }
            &&& match record.event {
                Event::In(input) => input_stands(b, input),
                Event::Out(out) => decision_stands(b, out),
            }
            &&& holds(b, 76, 4, crc32::crc32_of(b.take(76)) as int)
        }),
{
    broadcast use bytes::le_len;

    let b = record::bytes_of(record);
    record::payload_round_trips(record.event);
    assert(b.len() == 80);
    assert(b.subrange(0, 8) =~= bytes::le(record.seq.0 as nat, 8));
    stands(b, 0, 8, record.seq.0 as nat);
    assert(b.subrange(8, 10) =~= bytes::le(record.version as nat, 2));
    stands(b, 8, 2, record.version as nat);
    match record.event {
        Event::In(input) => input_is_laid_out(record, input),
        Event::Out(out) => decision_is_laid_out(record, out),
    }
    assert(b.take(76) =~= record::body_of(record));
    assert(b.subrange(76, 80) =~= bytes::le(crc32::crc32_of(b.take(76)) as nat, 4));
    stands(b, 76, 4, crc32::crc32_of(b.take(76)) as nat);
}

/// The numbers that stand for each command, state and reason: they are what is on
/// disk, so they stay.
pub proof fn wire_numbers_stay()
    ensures
        wire::side_wire(Side::Buy) == 1 && wire::side_wire(Side::Sell) == 2,
        wire::command_wire(Command::Halt) == 1 && wire::command_wire(Command::Resume) == 2
            && wire::command_wire(Command::Kill) == 3 && wire::command_wire(Command::Flatten) == 4,
        wire::engine_state_wire(EngineState::Running) == 1 && wire::engine_state_wire(
            EngineState::Halted,
        ) == 2 && wire::engine_state_wire(EngineState::Killed) == 3,
        wire::state_reason_wire(StateReason::OperatorCommand) == 1 && wire::state_reason_wire(
            StateReason::ReconciliationDivergence,
        ) == 2 && wire::state_reason_wire(StateReason::LogWriteFailed) == 3,
        wire::reject_reason_wire(RejectReason::UnknownInstrument) == 1 && wire::reject_reason_wire(
            RejectReason::InvalidPrice,
        ) == 2 && wire::reject_reason_wire(RejectReason::InvalidQuantity) == 3
            && wire::reject_reason_wire(RejectReason::InsufficientFunds) == 4
            && wire::reject_reason_wire(RejectReason::RateLimited) == 5 && wire::reject_reason_wire(
            RejectReason::UnknownOrder,
        ) == 6 && wire::reject_reason_wire(RejectReason::AlreadyTerminal) == 7
            && wire::reject_reason_wire(RejectReason::Unavailable) == 8,
        wire::risk_reason_wire(RiskReason::KillSwitchEngaged) == 1 && wire::risk_reason_wire(
            RiskReason::Halted,
        ) == 2 && wire::risk_reason_wire(RiskReason::UnknownInstrument) == 3
            && wire::risk_reason_wire(RiskReason::NoLimitsConfigured) == 4
            && wire::risk_reason_wire(RiskReason::StaleMarketData) == 5 && wire::risk_reason_wire(
            RiskReason::NoMarketData,
        ) == 6 && wire::risk_reason_wire(RiskReason::PositionLimit) == 7 && wire::risk_reason_wire(
            RiskReason::ExposureLimit,
        ) == 8 && wire::risk_reason_wire(RiskReason::OrderNotionalLimit) == 9
            && wire::risk_reason_wire(RiskReason::OrderRateLimit) == 10 && wire::risk_reason_wire(
            RiskReason::UnreconciledPosition,
        ) == 11 && wire::risk_reason_wire(RiskReason::BelowMinimumQty) == 12
            && wire::risk_reason_wire(RiskReason::NonPositiveQuantity) == 13
            && wire::risk_reason_wire(RiskReason::NonPositivePrice) == 14 && wire::risk_reason_wire(
            RiskReason::NotReducing,
        ) == 15 && wire::risk_reason_wire(RiskReason::Unrepresentable) == 16
            && wire::risk_reason_wire(RiskReason::VenueUnreachable) == 17,
{
}

/// Where each field of a header stands: the eight letters of the file type, the
/// version, the length of a record, that of the header, the session, its start, its
/// first order, and how many instruments follow, forty-eight bytes each.
pub proof fn headers_are_laid_out(head: HeaderView, i: int)
    requires
        head.fits(),
        forall|k: int| 0 <= k < head.instruments.len() ==> (#[trigger] head.instruments[k]).symbol.len()
            == 16,
        0 <= i < head.instruments.len(),
    ensures
        ({
            let b = head.encoded();
            let entry = head.instruments[i];
            let at = 48 + i * 48;
            &&& b.len() == 48 + head.instruments.len() * 48
            &&& b.take(8) == seq![
                'U' as u8,
                'L' as u8,
                'T' as u8,
                'R' as u8,
                'A' as u8,
                'L' as u8,
                'O' as u8,
                'G' as u8,
            ]
            &&& holds(b, 8, 2, head.format_version as int)
            &&& holds(b, 10, 2, 80)
            &&& holds(b, 12, 4, b.len() as int)
            &&& holds(b, 16, 8, head.session_id as int)
            &&& holds_i64(b, 24, head.session_start.0)
            &&& holds(b, 32, 8, head.first_order_id.0 as int)
            &&& holds(b, 40, 4, head.instruments.len() as int)
            &&& is_clear(b, 44, 48)
            &&& holds(b, at, 4, entry.id.0 as int)
            &&& b.subrange(at + 4, at + 20) == entry.symbol
            &&& holds_i64(b, at + 20, entry.tick.0)
            &&& holds_i64(b, at + 28, entry.lot.0)
            &&& holds_i64(b, at + 36, entry.min_qty.0)
            &&& is_clear(b, at + 44, at + 48)
        }),
{
    broadcast use bytes::le_len;

    let b = head.encoded();
    let n = head.instruments.len() as int;
    entry_stands(head.instruments, i);
    let fixed = head.fixed_bytes();
    let entries = header::entries_bytes(head.instruments);
    assert(fixed.len() == 48);
    assert(b.take(8) =~= seq![85u8, 76u8, 84u8, 82u8, 65u8, 76u8, 79u8, 71u8]);
    assert(b.subrange(8, 10) =~= bytes::le(head.format_version as nat, 2));
    stands(b, 8, 2, head.format_version as nat);
    assert(b.subrange(10, 12) =~= bytes::le(80, 2));
    stands(b, 10, 2, 80);
    assert(b.subrange(12, 16) =~= bytes::le(header::header_len(head.instruments.len()), 4));
    stands(b, 12, 4, header::header_len(head.instruments.len()));
    assert(b.subrange(16, 24) =~= bytes::le(head.session_id as nat, 8));
    stands(b, 16, 8, head.session_id as nat);
    assert(b.subrange(24, 32) =~= bytes::i64_le(head.session_start.0));
    stands_i64(b, 24, head.session_start.0);
    assert(b.subrange(32, 40) =~= bytes::le(head.first_order_id.0 as nat, 8));
    stands(b, 32, 8, head.first_order_id.0 as nat);
    assert(b.subrange(40, 44) =~= bytes::le(head.instruments.len(), 4));
    stands(b, 40, 4, head.instruments.len());
    let at = 48 + i * 48;
    let entry = head.instruments[i];
    let one = header::entry_bytes(entry);
    assert(i * 48 + 48 <= n * 48);
    assert(b.subrange(at, at + 48) =~= entries.subrange(i * 48, i * 48 + 48));
    let w = b.subrange(at, at + 48);
    assert(b.subrange(at, at + 4) =~= w.subrange(0, 4));
    assert(w.subrange(0, 4) =~= bytes::le(entry.id.0 as nat, 4));
    stands(b, at, 4, entry.id.0 as nat);
    assert(b.subrange(at + 4, at + 20) =~= w.subrange(4, 20));
    assert(w.subrange(4, 20) =~= entry.symbol);
    assert(b.subrange(at + 20, at + 28) =~= w.subrange(20, 28));
    assert(w.subrange(20, 28) =~= bytes::i64_le(entry.tick.0));
    stands_i64(b, at + 20, entry.tick.0);
    assert(b.subrange(at + 28, at + 36) =~= w.subrange(28, 36));
    assert(w.subrange(28, 36) =~= bytes::i64_le(entry.lot.0));
    stands_i64(b, at + 28, entry.lot.0);
    assert(b.subrange(at + 36, at + 44) =~= w.subrange(36, 44));
    assert(w.subrange(36, 44) =~= bytes::i64_le(entry.min_qty.0));
    stands_i64(b, at + 36, entry.min_qty.0);
    assert forall|k: int| at + 44 <= k < at + 48 implies #[trigger] b[k] == 0 by {
        assert(w[k - at] == b[k]);
        assert(w[k - at] == one[k - at]);
    }
}

proof fn entry_stands(entries: Seq<EntryView>, i: int)
    requires
        forall|k: int| 0 <= k < entries.len() ==> (#[trigger] entries[k]).symbol.len() == 16,
        0 <= i < entries.len(),
    ensures
        header::entries_bytes(entries).len() == entries.len() * 48,
        header::entries_bytes(entries).subrange(i * 48, i * 48 + 48) == header::entry_bytes(
            entries[i],
        ),
    decreases entries.len(),
{
    broadcast use bytes::le_len;

    let init = entries.drop_last();
    let all = header::entries_bytes(entries);
    assert(entries.last() == entries[entries.len() - 1]);
    if init.len() > 0 {
        let j = if i < init.len() {
            i
        } else {
            0
        };
        entry_stands(init, j);
    } else {
        assert(header::entries_bytes(init).len() == 0);
    }
    if i == entries.len() - 1 {
        assert(all.subrange(i * 48, i * 48 + 48) =~= header::entry_bytes(entries[i]));
    } else {
        assert(i * 48 + 48 <= init.len() * 48);
        assert(all.subrange(i * 48, i * 48 + 48) =~= header::entries_bytes(init).subrange(
            i * 48,
            i * 48 + 48,
        ));
        assert(init[i] == entries[i]);
    }
}

/// A recording goes with a configuration exactly where both have as many instruments
/// and each is the same contract: the same number, increments and least quantity.
/// Where one differs, the first that does is named.
pub proof fn recordings_go_with_their_configuration(
    head: LogHeader,
    instruments: &[Instrument],
    checked: Result<(), CodecError>,
)
    requires
        call_ensures(LogHeader::check_against, (&head, instruments), checked),
    ensures
        checked is Ok <==> head.instruments@.len() == instruments@.len() && forall|i: int|
            0 <= i < instruments@.len() ==> {
                let (entry, wanted) = (#[trigger] head.instruments@[i], instruments@[i]);
                &&& entry.id == wanted.id
                &&& entry.tick == wanted.tick
                &&& entry.lot == wanted.lot
                &&& entry.min_qty == wanted.min_qty
            },
        checked matches Err(CodecError::InstrumentMismatch { id }) ==> exists|i: int|
            {
                &&& 0 <= i < instruments@.len()
                &&& (#[trigger] instruments@[i]).id == id
                &&& !head@.instruments[i].describes(instruments@[i])
                &&& forall|k: int|
                    0 <= k < i ==> head@.instruments[k].describes(#[trigger] instruments@[k])
            },
{
    let entries = head@.instruments;
    let at = mismatch_is_first(entries, instruments@, 0);
    assert forall|i: int| 0 <= i < head.instruments@.len() implies #[trigger] entries[i]
        == head.instruments@[i]@ by {}
    if checked is Ok {
        assert forall|i: int| 0 <= i < instruments@.len() implies {
            let (entry, wanted) = (#[trigger] head.instruments@[i], instruments@[i]);
            &&& entry.id == wanted.id
            &&& entry.tick == wanted.tick
            &&& entry.lot == wanted.lot
            &&& entry.min_qty == wanted.min_qty
        } by {
            assert(entries[i].describes(instruments@[i]));
        }
    } else if head.instruments@.len() == instruments@.len() {
        assert(!entries[at].describes(instruments@[at]));
        assert(head.instruments@[at]@ == entries[at]);
        assert(instruments@[at].id == instruments@[at].id);
    }
}

proof fn mismatch_is_first(entries: Seq<EntryView>, instruments: Seq<Instrument>, from: int) -> (at:
    int)
    requires
        entries.len() == instruments.len() ==> 0 <= from <= entries.len(),
    ensures
        entries.len() == instruments.len() ==> match header::first_mismatch(
            entries,
            instruments,
            from,
        ) {
            None => forall|i: int|
                from <= i < entries.len() ==> (#[trigger] entries[i]).describes(instruments[i]),
            Some(i) => {
                &&& i == at
                &&& from <= at < entries.len()
                &&& !entries[at].describes(instruments[at])
                &&& forall|k: int|
                    from <= k < at ==> entries[k].describes(#[trigger] instruments[k])
            },
        },
    decreases entries.len() - from,
{
    if entries.len() != instruments.len() || from >= entries.len() || !entries[from].describes(
        instruments[from],
    ) {
        from
    } else {
        mismatch_is_first(entries, instruments, from + 1)
    }
}

} // verus!
