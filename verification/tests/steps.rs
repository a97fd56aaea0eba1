//! The engine one question at a time: what it asks, and what it does with the
//! answer.

use ultra_trade::engine::{
    any_full, Applied, ApprovedOrder, Ask, CancelRequest, Decision, Ending, Engine, EngineConfig,
    EngineError, Notice, OrderBrief, OrderPhase, Raised, Reply, Sent, MAX_CASCADE,
};
use ultra_trade::event::{
    Command, CommandEvent, EngineState, Event, Inbound, Intent, LogError, MarketEvent, MarketKind,
    OrderKind, Outbound, PositionReport, RiskReason, SeqNo, StateReason, TimerEvent, TimerToken,
    VenueEvent, VenueKind,
};
use ultra_trade::timer::TimerRequest;
use ultra_trade::value::{
    ExchangeTime, Instrument, InstrumentId, Notional, OrderId, Px, Qty, ReceiveTime, Side,
    StrategyId,
};

const I: InstrumentId = InstrumentId(0);

fn engine() -> Engine {
    let instrument = Instrument {
        id: I,
        tick: Px::from_scaled(1),
        lot: Qty::from_scaled(1),
        min_qty: Qty::from_scaled(1),
    };
    let config = EngineConfig::new(
        vec![instrument],
        OrderId::new(0),
        ExchangeTime::from_nanos(5),
    );
    let mut engine = Engine::new(config);
    engine.add_strategy(StrategyId::new(0)).expect("strategy");
    engine
}

fn market(kind: MarketKind) -> Inbound {
    Inbound::Market(MarketEvent {
        instrument: I,
        exchange_time: ExchangeTime::from_nanos(100),
        receive_time: ReceiveTime::from_nanos(100),
        kind,
    })
}

fn a_quote() -> Inbound {
    market(MarketKind::Quote {
        bid_px: Px::from_scaled(9),
        bid_qty: Qty::from_scaled(1),
        ask_px: Px::from_scaled(11),
        ask_qty: Qty::from_scaled(1),
    })
}

fn command(command: Command) -> Inbound {
    Inbound::Command(CommandEvent {
        command,
        receive_time: ReceiveTime::from_nanos(100),
    })
}

fn report(kind: VenueKind) -> Inbound {
    Inbound::Venue(VenueEvent {
        order: OrderId::new(3),
        venue_time: ExchangeTime::from_nanos(100),
        receive_time: ReceiveTime::from_nanos(100),
        kind,
    })
}

fn brief(phase: OrderPhase, remaining: i64) -> OrderBrief {
    OrderBrief {
        id: OrderId::new(3),
        strategy: StrategyId::new(0),
        instrument: I,
        side: Side::Buy,
        qty: Qty::from_scaled(4),
        kind: OrderKind::Market,
        remaining: Qty::from_scaled(remaining),
        phase,
    }
}

fn nothing() -> Raised {
    Raised {
        intents: Vec::new(),
        timers: Vec::new(),
        cancels: Vec::new(),
    }
}

fn an_intent(instrument: u32) -> Intent {
    Intent {
        strategy: StrategyId::new(0),
        instrument: InstrumentId::new(instrument),
        side: Side::Buy,
        qty: Qty::from_scaled(4),
        kind: OrderKind::Market,
        reduce_only: false,
    }
}

/// An answer under which nothing goes wrong and nobody wants anything.
fn quiet(ask: &Ask, next: &mut u64) -> Reply {
    match ask {
        Ask::Record(_) => {
            *next += 1;
            Reply::Recorded(Ok(SeqNo::new(*next - 1)))
        }
        Ask::ApplyMarket(_) => Reply::Applied(Applied::Accepted),
        Ask::CloseBars(_) | Ask::FoldTrade { .. } => Reply::Bars(Ok(0)),
        Ask::DispatchBar(_)
        | Ask::DispatchQuote(_)
        | Ask::DispatchTrade { .. }
        | Ask::Tell(_, _) => Reply::Raised(nothing()),
        Ask::ApplyReport(_) => Reply::Reported(Ok((
            brief(OrderPhase::Working, 4),
            brief(OrderPhase::Working, 4),
        ))),
        Ask::ApplyFill { .. } => Reply::Filled(Ok(())),
        Ask::ObservePosition(_) => Reply::Observed(Some(false)),
        Ask::AnyDiverged | Ask::Cancel { .. } => Reply::Answer(false),
        Ask::LiveOwner(_) => Reply::Owner(None),
        Ask::LiveOrders => Reply::Orders(Vec::new()),
        Ask::Holdings => Reply::Held(Vec::new()),
        Ask::CheckIntent { .. } => Reply::Decided(Decision::Rejected(RiskReason::NoMarketData)),
        Ask::Submit { .. } => Reply::Sent(Sent::Unreachable),
        Ask::DrainVenue => Reply::Reports(Vec::new()),
        Ask::Proceed | Ask::ShowVenue(_) => Reply::Done,
        Ask::Settled(_) => unreachable!(),
    }
}

/// Runs one input to its end. `answer` speaks first; what it leaves is answered
/// quietly. Everything asked comes back, but for the steps that ask nothing.
fn drive(
    engine: &mut Engine,
    input: Inbound,
    answer: &mut dyn FnMut(&Ask) -> Option<Reply>,
) -> (Vec<Ask>, Result<(), EngineError>) {
    engine.on_inbound(input);
    settle(engine, answer)
}

fn settle(
    engine: &mut Engine,
    answer: &mut dyn FnMut(&Ask) -> Option<Reply>,
) -> (Vec<Ask>, Result<(), EngineError>) {
    let mut asked = Vec::new();
    let mut next = 0;
    loop {
        let ask = engine.ask();
        if let Ask::Settled(outcome) = ask {
            return (asked, outcome);
        }
        let reply = answer(&ask).unwrap_or_else(|| quiet(&ask, &mut next));
        if ask != Ask::Proceed {
            asked.push(ask);
        }
        engine.advance(reply);
    }
}

fn quietly(engine: &mut Engine, input: Inbound) -> (Vec<Ask>, Result<(), EngineError>) {
    drive(engine, input, &mut |_| None)
}

fn recorded(asked: &[Ask]) -> Vec<Outbound> {
    asked
        .iter()
        .filter_map(|a| match a {
            Ask::Record(Event::Out(out)) => Some(*out),
            _ => None,
        })
        .collect()
}

#[test]
fn an_input_is_recorded_before_anything_reads_it() {
    let mut e = engine();
    let (asked, outcome) = quietly(&mut e, a_quote());
    assert_eq!(outcome, Ok(()));
    assert_eq!(asked[0], Ask::Record(Event::In(a_quote())));
    let Inbound::Market(m) = a_quote() else {
        unreachable!()
    };
    assert_eq!(
        asked[1..],
        [
            Ask::ApplyMarket(m),
            Ask::ShowVenue(m),
            Ask::CloseBars(ExchangeTime::from_nanos(100)),
            Ask::DispatchQuote(I),
            Ask::DrainVenue,
        ]
    );
    assert_eq!(e.now(), ExchangeTime::from_nanos(100));
}

#[test]
fn a_level_on_its_own_is_shown_to_the_venue_alone() {
    let mut e = engine();
    let level = market(MarketKind::Level {
        side: Side::Buy,
        px: Px::from_scaled(9),
        qty: Qty::from_scaled(1),
    });
    let (asked, _) = quietly(&mut e, level);
    assert_eq!(asked.len(), 4);
    assert!(matches!(asked[2], Ask::ShowVenue(_)));
    assert_eq!(asked[3], Ask::DrainVenue);
}

#[test]
fn a_book_reset_dispatches_nothing() {
    let mut e = engine();
    let (asked, outcome) = quietly(&mut e, market(MarketKind::BookReset));
    assert_eq!(outcome, Ok(()));
    assert!(!asked.iter().any(|a| matches!(a, Ask::DispatchQuote(_))));
}

#[test]
fn a_log_that_refuses_an_input_halts_the_engine() {
    let mut e = engine();
    let (asked, outcome) = drive(&mut e, a_quote(), &mut |a| match a {
        Ask::Record(_) => Some(Reply::Recorded(Err(LogError::Full))),
        _ => None,
    });
    assert_eq!(outcome, Err(EngineError::Log(LogError::Full)));
    assert_eq!(asked.len(), 1, "nothing may follow: {asked:?}");
    assert_eq!(e.state(), EngineState::Halted);
}

#[test]
fn a_log_that_refuses_a_decision_halts_the_engine() {
    let mut e = engine();
    let (_, outcome) = drive(&mut e, a_quote(), &mut |a| match a {
        Ask::DispatchQuote(_) => Some(Reply::Raised(Raised {
            intents: vec![an_intent(0)],
            ..nothing()
        })),
        Ask::Record(Event::Out(_)) => Some(Reply::Recorded(Err(LogError::WriteFailed))),
        _ => None,
    });
    assert_eq!(outcome, Err(EngineError::Log(LogError::WriteFailed)));
    assert_eq!(e.state(), EngineState::Halted);
}

#[test]
fn a_killed_engine_stays_killed_when_the_log_fails() {
    let mut e = engine();
    quietly(&mut e, command(Command::Kill)).1.expect("kill");
    let (_, outcome) = drive(&mut e, a_quote(), &mut |a| match a {
        Ask::Record(_) => Some(Reply::Recorded(Err(LogError::Full))),
        _ => None,
    });
    assert!(outcome.is_err());
    assert_eq!(e.state(), EngineState::Killed);
}

#[test]
fn a_killed_engine_cannot_be_resumed() {
    let mut e = engine();
    quietly(&mut e, command(Command::Kill)).1.expect("kill");
    for c in [Command::Resume, Command::Halt, Command::Kill] {
        quietly(&mut e, command(c)).1.expect("command");
        assert_eq!(e.state(), EngineState::Killed);
    }
}

#[test]
fn every_order_passes_the_risk_gate_first() {
    let mut e = engine();
    let approved = ApprovedOrder {
        strategy: StrategyId::new(0),
        instrument: I,
        side: Side::Buy,
        qty: Qty::from_scaled(3),
        kind: OrderKind::Market,
        reduce_only: false,
    };
    let (asked, outcome) = drive(&mut e, a_quote(), &mut |a| match a {
        Ask::DispatchQuote(_) => Some(Reply::Raised(Raised {
            intents: vec![an_intent(0)],
            ..nothing()
        })),
        Ask::CheckIntent { .. } => Some(Reply::Decided(Decision::Approved(approved))),
        Ask::Submit { .. } => Some(Reply::Sent(Sent::Submitted(OrderId::new(7)))),
        _ => None,
    });
    assert_eq!(outcome, Ok(()));
    let gate = asked
        .iter()
        .position(|a| matches!(a, Ask::CheckIntent { .. }))
        .expect("a check");
    let Ask::CheckIntent {
        intent, state, now, ..
    } = asked[gate]
    else {
        unreachable!()
    };
    assert_eq!(intent, an_intent(0));
    assert_eq!(state, EngineState::Running);
    assert_eq!(now, ExchangeTime::from_nanos(100));
    assert_eq!(
        asked[gate + 1],
        Ask::Submit {
            order: approved,
            now
        }
    );
    // What left is what was approved, and it names its cause.
    assert_eq!(
        recorded(&asked),
        vec![Outbound::OrderSubmitted {
            caused_by: SeqNo::new(0),
            order: OrderId::new(7),
            strategy: StrategyId::new(0),
            instrument: I,
            side: Side::Buy,
            qty: Qty::from_scaled(3),
            kind: OrderKind::Market,
            reduce_only: false,
        }]
    );
}

#[test]
fn an_intent_for_an_unknown_instrument_never_reaches_the_gate() {
    let mut e = engine();
    let (asked, _) = drive(&mut e, a_quote(), &mut |a| match a {
        Ask::DispatchQuote(_) => Some(Reply::Raised(Raised {
            intents: vec![an_intent(9)],
            ..nothing()
        })),
        _ => None,
    });
    assert!(!asked.iter().any(|a| matches!(a, Ask::CheckIntent { .. })));
    assert!(matches!(
        recorded(&asked)[0],
        Outbound::IntentRejected {
            reason: RiskReason::UnknownInstrument,
            ..
        }
    ));
    // Its strategy hears of it.
    assert!(asked.iter().any(|a| matches!(
        a,
        Ask::Tell(
            _,
            Notice::IntentRefused {
                reason: RiskReason::UnknownInstrument,
                ..
            }
        )
    )));
}

#[test]
fn what_is_raised_in_answer_to_a_refusal_waits_for_the_next_event() {
    let mut e = engine();
    let raise = |a: &Ask| match a {
        Ask::DispatchQuote(_) => Some(Reply::Raised(Raised {
            intents: vec![an_intent(0)],
            ..nothing()
        })),
        Ask::Tell(_, Notice::IntentRefused { .. }) => Some(Reply::Raised(Raised {
            intents: vec![an_intent(0)],
            ..nothing()
        })),
        _ => None,
    };
    let checks = |asked: &[Ask]| {
        asked
            .iter()
            .filter(|a| matches!(a, Ask::CheckIntent { .. }))
            .count()
    };
    let (asked, _) = drive(&mut e, a_quote(), &mut raise.clone());
    assert_eq!(checks(&asked), 1);
    let (asked, _) = drive(&mut e, a_quote(), &mut raise.clone());
    assert_eq!(checks(&asked), 2);
}

#[test]
fn an_order_the_orders_would_not_take_is_an_error() {
    let mut e = engine();
    let approved = ApprovedOrder {
        strategy: StrategyId::new(0),
        instrument: I,
        side: Side::Buy,
        qty: Qty::from_scaled(3),
        kind: OrderKind::Market,
        reduce_only: false,
    };
    let (_, outcome) = drive(&mut e, a_quote(), &mut |a| match a {
        Ask::DispatchQuote(_) => Some(Reply::Raised(Raised {
            intents: vec![an_intent(0)],
            ..nothing()
        })),
        Ask::CheckIntent { .. } => Some(Reply::Decided(Decision::Approved(approved))),
        Ask::Submit { .. } => {
            Some(Reply::Sent(Sent::Refused("DuplicateOrder".to_string())))
        }
        _ => None,
    });
    assert_eq!(outcome, Err(EngineError::Oms("DuplicateOrder".to_string())));
}

#[test]
fn a_fill_is_accounted_before_its_strategy_hears_of_it() {
    let mut e = engine();
    let filled = report(VenueKind::Filled {
        px: Px::from_scaled(11),
        qty: Qty::from_scaled(4),
        fee: Notional::from_scaled(1),
    });
    let (asked, outcome) = drive(&mut e, filled, &mut |a| match a {
        Ask::ApplyReport(_) => Some(Reply::Reported(Ok((
            brief(OrderPhase::Working, 4),
            brief(OrderPhase::Terminal(Ending::Filled), 0),
        )))),
        _ => None,
    });
    assert_eq!(outcome, Ok(()));
    assert!(matches!(asked[2], Ask::ApplyFill { .. }));
    assert!(matches!(asked[3], Ask::Tell(_, Notice::Fill { .. })));
    assert_eq!(
        asked[4],
        Ask::Tell(
            StrategyId::new(0),
            Notice::OrderDone {
                order: OrderId::new(3),
                instrument: I,
                side: Side::Buy,
                state: Ending::Filled,
                unfilled: Qty::from_scaled(0),
            },
        )
    );
}

#[test]
fn a_strategy_is_told_how_its_order_ended() {
    for state in [
        Ending::Filled,
        Ending::Cancelled,
        Ending::Rejected,
        Ending::Expired,
    ] {
        let mut e = engine();
        let (asked, _) = drive(&mut e, report(VenueKind::Cancelled), &mut |a| match a {
            Ask::ApplyReport(_) => Some(Reply::Reported(Ok((
                brief(OrderPhase::Working, 4),
                brief(OrderPhase::Terminal(state), 4),
            )))),
            _ => None,
        });
        let told = asked.iter().find_map(|a| match a {
            Ask::Tell(_, Notice::OrderDone { state, .. }) => Some(*state),
            _ => None,
        });
        assert_eq!(told, Some(state));
    }
    // Once: not again on a report that finds the order over.
    let mut e = engine();
    let (asked, _) = drive(&mut e, report(VenueKind::Cancelled), &mut |a| match a {
        Ask::ApplyReport(_) => Some(Reply::Reported(Ok((
            brief(OrderPhase::Terminal(Ending::Filled), 0),
            brief(OrderPhase::Terminal(Ending::Filled), 0),
        )))),
        _ => None,
    });
    assert!(!asked.iter().any(|a| matches!(a, Ask::Tell(_, _))));
}

#[test]
fn an_acknowledged_order_can_be_named() {
    let mut e = engine();
    let (asked, _) = drive(&mut e, report(VenueKind::Accepted), &mut |a| match a {
        Ask::ApplyReport(_) => Some(Reply::Reported(Ok((
            brief(OrderPhase::Pending, 4),
            brief(OrderPhase::Working, 4),
        )))),
        _ => None,
    });
    assert!(matches!(asked[2], Ask::Tell(_, Notice::OrderLive { .. })));
}

#[test]
fn what_the_stores_refuse_is_an_error_of_its_own() {
    let fill = VenueKind::Filled {
        px: Px::from_scaled(11),
        qty: Qty::from_scaled(4),
        fee: Notional::from_scaled(1),
    };
    let mut e = engine();
    let refuse_report = |a: &Ask| match a {
        Ask::ApplyReport(_) => Some(Reply::Reported(Err("UnknownOrder".to_string()))),
        _ => None,
    };
    let (_, outcome) = drive(&mut e, report(fill), &mut refuse_report.clone());
    assert_eq!(outcome, Err(EngineError::Oms("UnknownOrder".to_string())));

    let (_, outcome) = drive(&mut e, report(fill), &mut |a| match a {
        Ask::ApplyFill { .. } => Some(Reply::Filled(Err("Overflow".to_string()))),
        _ => None,
    });
    assert_eq!(outcome, Err(EngineError::Position("Overflow".to_string())));

    let trade = market(MarketKind::Trade {
        px: Px::from_scaled(11),
        qty: Qty::from_scaled(1),
        aggressor: Side::Buy,
    });
    let (_, outcome) = drive(&mut e, trade, &mut |a| match a {
        Ask::FoldTrade { .. } => Some(Reply::Bars(Err("OutOfRange".to_string()))),
        _ => None,
    });
    assert_eq!(outcome, Err(EngineError::Aggregate("OutOfRange".to_string())));

    let position = Inbound::VenuePosition(PositionReport {
        instrument: I,
        venue_qty: Qty::from_scaled(1),
        venue_time: ExchangeTime::from_nanos(1),
        receive_time: ReceiveTime::from_nanos(1),
    });
    let (_, outcome) = drive(&mut e, position, &mut |a| match a {
        Ask::ObservePosition(_) => Some(Reply::Observed(None)),
        _ => None,
    });
    assert_eq!(outcome, Err(EngineError::UnknownInstrument));
}

#[test]
fn bars_are_handed_out_before_the_event_that_closed_them() {
    let mut e = engine();
    let (asked, _) = drive(&mut e, a_quote(), &mut |a| match a {
        Ask::CloseBars(_) => Some(Reply::Bars(Ok(2))),
        _ => None,
    });
    assert_eq!(
        asked[4..7],
        [Ask::DispatchBar(0), Ask::DispatchBar(1), Ask::DispatchQuote(I)]
    );
}

#[test]
fn strategies_are_registered_in_id_order() {
    let mut e = engine();
    assert_eq!(
        e.add_strategy(StrategyId::new(5)),
        Err(EngineError::StrategyOutOfOrder)
    );
    assert_eq!(e.add_strategy(StrategyId::new(1)), Ok(()));
}

#[test]
fn a_notice_for_a_strategy_that_is_not_there_is_dropped() {
    let mut e = engine();
    let timer = |strategy| {
        Inbound::Timer(TimerEvent {
            strategy: StrategyId::new(strategy),
            token: TimerToken::new(1),
            fires_at: ExchangeTime::from_nanos(7),
            receive_time: ReceiveTime::from_nanos(7),
        })
    };
    let told = |asked: &[Ask]| asked.iter().any(|a| matches!(a, Ask::Tell(_, _)));
    assert!(!told(&quietly(&mut e, timer(9)).0));
    assert!(told(&quietly(&mut e, timer(0)).0));
}

#[test]
fn a_timer_request_is_recorded_and_passed_on() {
    let mut e = engine();
    let request = TimerRequest {
        strategy: StrategyId::new(0),
        at: ExchangeTime::from_nanos(500),
        token: TimerToken::new(3),
    };
    let (asked, _) = drive(&mut e, a_quote(), &mut |a| match a {
        Ask::DispatchQuote(_) => Some(Reply::Raised(Raised {
            timers: vec![request],
            ..nothing()
        })),
        _ => None,
    });
    assert_eq!(
        recorded(&asked),
        vec![Outbound::TimerRequested {
            caused_by: SeqNo::new(0),
            strategy: StrategyId::new(0),
            token: TimerToken::new(3),
            at: ExchangeTime::from_nanos(500),
        }]
    );
    let mut out = Vec::new();
    e.take_timer_requests(&mut out);
    assert_eq!(out, vec![request]);
    e.take_timer_requests(&mut out);
    assert_eq!(out.len(), 1, "each is handed over once");
}

#[test]
fn a_cancel_for_an_order_that_is_over_goes_nowhere() {
    let mut e = engine();
    let owner = StrategyId::new(0);
    let wants = |a: &Ask, live: bool| match a {
        Ask::DispatchQuote(_) => Some(Reply::Raised(Raised {
            cancels: vec![CancelRequest {
                strategy: owner,
                order: OrderId::new(3),
            }],
            ..nothing()
        })),
        Ask::LiveOwner(_) => Some(Reply::Owner(if live { Some(owner) } else { None })),
        Ask::Cancel { .. } => Some(Reply::Answer(true)),
        _ => None,
    };
    let (asked, _) = drive(&mut e, a_quote(), &mut |a| wants(a, false));
    assert!(recorded(&asked).is_empty());
    let (asked, _) = drive(&mut e, a_quote(), &mut |a| wants(a, true));
    assert_eq!(
        recorded(&asked),
        vec![Outbound::CancelSubmitted {
            caused_by: SeqNo::new(0),
            order: OrderId::new(3),
        }]
    );
}

#[test]
fn a_strategy_pulls_its_own_orders_and_no_others() {
    let mut e = engine();
    // Strategy 1 wants order 3 gone, which belongs to strategy 0, and order 4,
    // which is its own.
    let asker = StrategyId::new(1);
    let want = |order| CancelRequest {
        strategy: asker,
        order: OrderId::new(order),
    };
    let (asked, outcome) = drive(&mut e, a_quote(), &mut |a| match a {
        Ask::DispatchQuote(_) => Some(Reply::Raised(Raised {
            cancels: vec![want(3), want(4)],
            ..nothing()
        })),
        Ask::LiveOwner(order) => Some(Reply::Owner(Some(if *order == OrderId::new(3) {
            StrategyId::new(0)
        } else {
            asker
        }))),
        Ask::Cancel { .. } => Some(Reply::Answer(true)),
        _ => None,
    });
    assert_eq!(outcome, Ok(()));
    let cancelled: Vec<OrderId> = asked
        .iter()
        .filter_map(|a| match a {
            Ask::Cancel { order, .. } => Some(*order),
            _ => None,
        })
        .collect();
    assert_eq!(cancelled, vec![OrderId::new(4)]);
    assert_eq!(
        recorded(&asked),
        vec![Outbound::CancelSubmitted {
            caused_by: SeqNo::new(0),
            order: OrderId::new(4),
        }]
    );
}

#[test]
fn a_kill_tries_every_live_order() {
    let mut e = engine();
    let orders = vec![OrderId::new(1), OrderId::new(2), OrderId::new(3)];
    let (asked, outcome) = drive(&mut e, command(Command::Kill), &mut |a| match a {
        Ask::LiveOrders => Some(Reply::Orders(orders.clone())),
        // The venue would not take the second.
        Ask::Cancel { order, .. } => Some(Reply::Answer(*order != OrderId::new(2))),
        _ => None,
    });
    assert_eq!(outcome, Ok(()));
    let tried: Vec<OrderId> = asked
        .iter()
        .filter_map(|a| match a {
            Ask::Cancel { order, .. } => Some(*order),
            _ => None,
        })
        .collect();
    assert_eq!(tried, orders);
    assert_eq!(recorded(&asked).len(), 3, "the kill, and two cancels");
}

#[test]
fn a_storm_is_bounded() {
    let mut e = engine();
    // A venue that answers every event with another.
    let mut steps = 0usize;
    let (_, outcome) = drive(&mut e, report(VenueKind::Accepted), &mut |a| match a {
        Ask::DrainVenue => {
            steps += 1;
            Some(Reply::Reports(vec![report(VenueKind::Accepted)]))
        }
        _ => None,
    });
    assert_eq!(outcome, Err(EngineError::EventStorm));
    assert_eq!(steps, MAX_CASCADE);
    // What was left of the storm is gone.
    let (asked, outcome) = quietly(&mut e, a_quote());
    assert_eq!(outcome, Ok(()));
    assert_eq!(asked[0], Ask::Record(Event::In(a_quote())));
}

#[test]
fn a_replay_writes_nothing_and_ends_halted() {
    let mut e = engine();
    e.begin_replay();
    assert!(e.is_replaying());
    let (asked, outcome) = drive(&mut e, a_quote(), &mut |a| match a {
        Ask::DispatchQuote(_) => Some(Reply::Raised(Raised {
            intents: vec![an_intent(0)],
            ..nothing()
        })),
        _ => None,
    });
    assert_eq!(outcome, Ok(()));
    assert!(!asked.iter().any(|a| matches!(a, Ask::Record(_))));
    e.end_replay();
    assert!(!e.is_replaying());
    assert_eq!(e.state(), EngineState::Halted);

    // A restart cancels what is still resting.
    e.cancel_resting(SeqNo::new(40));
    let (asked, outcome) = settle(&mut e, &mut |a| match a {
        Ask::LiveOrders => Some(Reply::Orders(vec![OrderId::new(3)])),
        Ask::Cancel { .. } => Some(Reply::Answer(true)),
        _ => None,
    });
    assert_eq!(outcome, Ok(()));
    assert_eq!(
        recorded(&asked),
        vec![Outbound::CancelSubmitted {
            caused_by: SeqNo::new(40),
            order: OrderId::new(3),
        }]
    );
    let (asked, _) = quietly(&mut e, command(Command::Resume));
    assert_eq!(
        recorded(&asked),
        vec![Outbound::StateChanged {
            caused_by: SeqNo::new(0),
            from: EngineState::Halted,
            to: EngineState::Running,
            reason: StateReason::OperatorCommand,
        }]
    );
}

#[test]
fn full_stores_are_reported() {
    let e = engine();
    assert!(!e.would_allocate(false));
    assert!(e.would_allocate(true));
}

#[test]
fn one_full_buffer_is_enough() {
    let roomy = [(0, 4), (3, 4), (1, 2), (0, 1)];
    assert!(!any_full(false, &roomy));
    assert!(any_full(true, &roomy));
    assert!(!any_full(false, &[]));
    for i in 0..roomy.len() {
        let mut rooms = roomy;
        rooms[i].0 = rooms[i].1;
        assert!(any_full(false, &rooms), "buffer {i}");
    }
}

#[test]
fn a_killed_engine_stays_killed_whatever_follows() {
    let mut e = engine();
    let killed = Inbound::Command(CommandEvent {
        command: Command::Kill,
        receive_time: ReceiveTime::from_nanos(1),
    });
    quietly(&mut e, killed).1.expect("kill");
    for command in [
        Command::Resume,
        Command::Halt,
        Command::Flatten,
        Command::Kill,
    ] {
        let next = Inbound::Command(CommandEvent {
            command,
            receive_time: ReceiveTime::from_nanos(2),
        });
        quietly(&mut e, next).1.expect("command");
        quietly(&mut e, a_quote()).1.expect("quote");
        assert_eq!(e.state(), EngineState::Killed);
    }
    // A recovery halts, whatever it re-derived.
    e.begin_replay();
    e.end_replay();
    assert_eq!(e.state(), EngineState::Halted);
}
