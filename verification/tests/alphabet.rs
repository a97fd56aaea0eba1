//! The event alphabet, its wire values, and the in-memory log.

use ultra_trade::event::codec::bytes::{Reader, Writer};
use ultra_trade::event::codec::crc32::crc32;
use ultra_trade::event::codec::wire::{
    command_from_wire, command_to_wire, engine_state_from_wire, engine_state_to_wire,
    reject_reason_from_wire, reject_reason_to_wire, risk_reason_from_wire, risk_reason_to_wire,
    side_from_wire, side_to_wire, state_reason_from_wire, state_reason_to_wire, ORDER_SUBMITTED,
    QUOTE, STATE_CHANGED, VENUE_FILLED,
};
use ultra_trade::event::codec::CodecError;
use ultra_trade::event::{
    Command, CommandEvent, EngineState, Event, EventLog, Inbound, MarketEvent, MarketKind,
    MemoryLog, OrderKind, Outbound, RejectReason, RiskReason, SeqNo, StateReason, FORMAT_VERSION,
};
use ultra_trade::value::{ExchangeTime, InstrumentId, Px, Qty, ReceiveTime, Side};

#[test]
fn it_matches_the_published_check_value() {
    assert_eq!(crc32(b"123456789"), 0xCBF4_3926);
}

#[test]
fn an_empty_input_has_a_zero_checksum() {
    assert_eq!(crc32(b""), 0);
}

#[test]
fn a_single_flipped_bit_changes_the_checksum() {
    let mut bytes = [0u8; 80];
    let before = crc32(&bytes);
    bytes[40] ^= 0x01;
    assert_ne!(crc32(&bytes), before);
}

#[test]
fn a_trailing_zero_is_not_invisible() {
    assert_ne!(crc32(b"abc"), crc32(b"abc\0"));
}

#[test]
fn no_wire_value_is_zero() {
    assert!(side_from_wire(0).is_err());
    assert!(command_from_wire(0).is_err());
    assert!(engine_state_from_wire(0).is_err());
    assert!(state_reason_from_wire(0).is_err());
    assert!(reject_reason_from_wire(0).is_err());
    assert!(risk_reason_from_wire(0).is_err());
}

#[test]
fn every_enum_round_trips_through_its_wire_value() {
    for side in [Side::Buy, Side::Sell] {
        assert_eq!(side_from_wire(side_to_wire(side)), Ok(side));
    }
    for c in [Command::Halt, Command::Resume, Command::Kill, Command::Flatten] {
        assert_eq!(command_from_wire(command_to_wire(c)), Ok(c));
    }
    for s in [EngineState::Running, EngineState::Halted, EngineState::Killed] {
        assert_eq!(engine_state_from_wire(engine_state_to_wire(s)), Ok(s));
    }
    for r in [
        StateReason::OperatorCommand,
        StateReason::ReconciliationDivergence,
        StateReason::LogWriteFailed,
    ] {
        assert_eq!(state_reason_from_wire(state_reason_to_wire(r)), Ok(r));
    }
    for r in [
        RejectReason::UnknownInstrument,
        RejectReason::InvalidPrice,
        RejectReason::InvalidQuantity,
        RejectReason::InsufficientFunds,
        RejectReason::RateLimited,
        RejectReason::UnknownOrder,
        RejectReason::AlreadyTerminal,
        RejectReason::Unavailable,
    ] {
        assert_eq!(reject_reason_from_wire(reject_reason_to_wire(r)), Ok(r));
    }
    for r in [
        RiskReason::KillSwitchEngaged,
        RiskReason::Halted,
        RiskReason::UnknownInstrument,
        RiskReason::NoLimitsConfigured,
        RiskReason::StaleMarketData,
        RiskReason::NoMarketData,
        RiskReason::PositionLimit,
        RiskReason::ExposureLimit,
        RiskReason::OrderNotionalLimit,
        RiskReason::OrderRateLimit,
        RiskReason::UnreconciledPosition,
        RiskReason::BelowMinimumQty,
        RiskReason::NonPositiveQuantity,
        RiskReason::NonPositivePrice,
        RiskReason::NotReducing,
        RiskReason::Unrepresentable,
        RiskReason::VenueUnreachable,
    ] {
        assert_eq!(risk_reason_from_wire(risk_reason_to_wire(r)), Ok(r));
    }
}

#[test]
fn wire_values_are_pinned_to_their_numbers() {
    assert_eq!(side_to_wire(Side::Buy), 1);
    assert_eq!(side_to_wire(Side::Sell), 2);
    assert_eq!(command_to_wire(Command::Kill), 3);
    assert_eq!(engine_state_to_wire(EngineState::Killed), 3);
    assert_eq!(risk_reason_to_wire(RiskReason::KillSwitchEngaged), 1);
    assert_eq!(risk_reason_to_wire(RiskReason::VenueUnreachable), 17);
    assert_eq!(QUOTE, 1);
    assert_eq!(VENUE_FILLED, 5);
    assert_eq!(ORDER_SUBMITTED, 64);
    assert_eq!(STATE_CHANGED, 68);
}

#[test]
fn a_reader_refuses_to_run_past_its_buffer() {
    let buf = [0u8; 4];
    let mut reader = Reader::new(&buf);
    assert_eq!(reader.u32(), Ok(0));
    assert!(matches!(reader.u8(), Err(CodecError::ShortBuffer { .. })));
}

#[test]
fn a_writer_and_reader_agree_on_little_endian() {
    let mut buf = [0u8; 16];
    let mut w = Writer::new(&mut buf);
    w.u16(0x0102);
    w.i64(-2);
    assert_eq!(buf[0], 0x02, "least significant byte first");
    assert_eq!(buf[1], 0x01);

    let mut r = Reader::new(&buf);
    assert_eq!(r.u16(), Ok(0x0102));
    assert_eq!(r.i64(), Ok(-2));
}

#[test]
fn every_input_reports_when_the_process_saw_it() {
    let command = Inbound::Command(CommandEvent {
        command: Command::Halt,
        receive_time: ReceiveTime::from_nanos(99),
    });
    assert_eq!(command.receive_time(), ReceiveTime::from_nanos(99));
}

#[test]
fn a_command_has_no_exchange_time() {
    // No venue was involved, so there is no honest exchange timestamp.
    let command = Inbound::Command(CommandEvent {
        command: Command::Kill,
        receive_time: ReceiveTime::from_nanos(5),
    });
    assert_eq!(command.exchange_time(), None);
}

#[test]
fn a_market_event_reports_both_clocks_separately() {
    let quote = Inbound::Market(MarketEvent {
        instrument: InstrumentId::new(0),
        exchange_time: ExchangeTime::from_nanos(1_000),
        receive_time: ReceiveTime::from_nanos(1_200),
        kind: MarketKind::Quote {
            bid_px: Px::from_scaled(1),
            bid_qty: Qty::from_scaled(1),
            ask_px: Px::from_scaled(2),
            ask_qty: Qty::from_scaled(1),
        },
    });
    assert_eq!(quote.exchange_time(), Some(ExchangeTime::from_nanos(1_000)));
    assert_eq!(quote.receive_time(), ReceiveTime::from_nanos(1_200));
}

fn command(n: i64) -> Event {
    Event::In(Inbound::Command(CommandEvent {
        command: Command::Halt,
        receive_time: ReceiveTime::from_nanos(n),
    }))
}

#[test]
fn sequence_numbers_start_at_zero_and_are_gap_free() {
    let mut log = MemoryLog::new();
    assert_eq!(log.append(command(1)), Ok(SeqNo::first()));
    assert_eq!(log.append(command(2)), Ok(SeqNo::new(1)));
    assert_eq!(log.append(command(3)), Ok(SeqNo::new(2)));
    assert_eq!(log.len(), 3);
}

#[test]
fn an_empty_log_reads_as_empty() {
    let log = MemoryLog::new();
    assert!(log.is_empty());
    assert!(log.cursor().is_exhausted());
    assert_eq!(log.cursor().peek(), None);
}

#[test]
fn every_record_carries_the_format_version() {
    let mut log = MemoryLog::new();
    log.append(command(1)).expect("append");
    assert_eq!(log.records()[0].version, FORMAT_VERSION);
}

#[test]
fn a_cursor_walks_records_in_order() {
    let mut log = MemoryLog::new();
    for n in 0..4 {
        log.append(command(n)).expect("append");
    }
    let mut seen = Vec::new();
    let mut cursor = log.cursor();
    while let Some(record) = cursor.next_record() {
        seen.push(record.seq);
    }
    assert_eq!(
        seen,
        vec![SeqNo::new(0), SeqNo::new(1), SeqNo::new(2), SeqNo::new(3)]
    );
}

#[test]
fn seeking_past_the_end_fails_rather_than_silently_landing_elsewhere() {
    let mut log = MemoryLog::new();
    log.append(command(1)).expect("append");
    let mut cursor = log.cursor();
    assert!(cursor.seek(SeqNo::new(1)));
    assert!(cursor.is_exhausted());
    assert!(!cursor.seek(SeqNo::new(9)));
    // The failed seek left the position untouched.
    assert_eq!(cursor.position(), SeqNo::new(1));
}

#[test]
fn a_reserved_log_reports_when_the_next_append_would_allocate() {
    let mut log = MemoryLog::with_capacity(2);
    assert!(!log.would_grow());
    log.append(command(1)).expect("append");
    log.append(command(2)).expect("append");
    assert!(log.would_grow());
}

#[test]
fn inputs_and_decisions_can_be_read_separately() {
    let mut log = MemoryLog::new();
    log.append(command(1)).expect("append");
    log.append(Event::Out(Outbound::StateChanged {
        caused_by: SeqNo::first(),
        from: EngineState::Running,
        to: EngineState::Halted,
        reason: StateReason::OperatorCommand,
    }))
    .expect("append");
    assert_eq!(log.inbound().len(), 1);
    assert_eq!(log.outbound().len(), 1);
}

#[test]
fn a_market_order_carries_no_price() {
    assert_eq!(OrderKind::Market.limit_px(), None);
    assert_eq!(
        OrderKind::Limit(Px::from_scaled(7)).limit_px(),
        Some(Px::from_scaled(7))
    );
}

#[test]
fn a_halt_stops_new_risk_but_still_permits_getting_out() {
    assert!(EngineState::Halted.permits_any_order());
    assert!(!EngineState::Halted.permits_risk_increase());
}

#[test]
fn a_kill_stops_everything() {
    assert!(!EngineState::Killed.permits_any_order());
    assert!(!EngineState::Killed.permits_risk_increase());
}

#[test]
fn running_permits_both() {
    assert!(EngineState::Running.permits_any_order());
    assert!(EngineState::Running.permits_risk_increase());
}

#[test]
fn sequence_numbers_are_ordered_as_their_positions() {
    let (a, b) = (SeqNo::new(3), SeqNo::new(4));
    assert!(a < b && b > a && a <= a && a >= a);
    assert!(a != b && a == SeqNo::new(3));
    assert_eq!(a.max(b), b);
    assert_eq!(SeqNo::first().raw(), 0);
}
