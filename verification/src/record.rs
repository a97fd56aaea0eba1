//! A session over a synthetic market, to be recorded.
//!
//! The market is deterministic by construction rather than by a seed: a recording
//! that cannot be reproduced is evidence of nothing.
use vstd::prelude::*;

use crate::engine::FeedAdapter;
use crate::event::{Inbound, MarketEvent, MarketKind};
use crate::text::said;
use crate::value::{ExchangeTime, Instrument, InstrumentId, Px, Qty, ReceiveTime, Side, SCALE};
use crate::words;
use crate::words::{parse_i64, parse_u64};

verus! {

/// Nanoseconds in one step of the market.
pub const STEP_NANOS: i64 = 1_000_000_000;

/// How many steps there are where nothing is said.
pub const DEFAULT_STEPS: i64 = 2_000;

/// What was asked for.
#[derive(Debug, Clone, PartialEq, Eq)]
pub struct Args {
    pub config: String,
    pub path: String,
    pub steps: i64,
    pub session_id: u64,
}

/// [`Args`] as characters.
pub struct ArgsView {
    pub config: Seq<char>,
    pub path: Seq<char>,
    pub steps: i64,
    pub session_id: u64,
}

impl View for Args {
    type V = ArgsView;

    open spec fn view(&self) -> ArgsView {
        ArgsView {
            config: self.config@,
            path: self.path@,
            steps: self.steps,
            session_id: self.session_id,
        }
    }
}

/// How many steps are asked for.
pub open spec fn steps_of(words: Seq<Seq<char>>) -> Option<i64> {
    if words.len() <= 2 {
        Some(DEFAULT_STEPS)
    } else {
        match words::int_of(words[2], true) {
            Some(n) if 0 < n <= i64::MAX => Some(n as i64),
            _ => None,
        }
    }
}

/// Which session id is asked for.
pub open spec fn session_of(words: Seq<Seq<char>>) -> Option<u64> {
    if words.len() <= 3 {
        Some(1)
    } else {
        match words::int_of(words[3], false) {
            Some(n) if n <= u64::MAX => Some(n as u64),
            _ => None,
        }
    }
}

/// What words ask for, where they are what the tool takes.
pub open spec fn args_of(words: Seq<Seq<char>>) -> Option<ArgsView> {
    if words.len() < 2 || words.len() > 4 {
        None
    } else {
        match (steps_of(words), session_of(words)) {
            (Some(steps), Some(session_id)) => Some(
                ArgsView { config: words[0], path: words[1], steps, session_id },
            ),
            _ => None,
        }
    }
}

/// Reads the words that the tool was called with.
pub fn parse_args(argv: &[String]) -> (args: Option<Args>)
    ensures
        match args {
            Some(a) => args_of(words::views(argv@)) == Some(a@),
            None => args_of(words::views(argv@)) is None,
        },
{
    let ghost w = words::views(argv@);
    if argv.len() < 2 || argv.len() > 4 {
        return None;
    }
    assert(w[0] == argv@[0]@);
    assert(w[1] == argv@[1]@);
    let steps: i64 = if argv.len() > 2 {
        assert(w[2] == argv@[2]@);
        match parse_i64(argv[2].as_str()) {
            Some(n) if n > 0 => n,
            _ => {
                return None;
            },
        }
    } else {
        DEFAULT_STEPS
    };
    let session_id: u64 = if argv.len() > 3 {
        assert(w[3] == argv@[3]@);
        match parse_u64(argv[3].as_str()) {
            Some(n) => n,
            None => {
                return None;
            },
        }
    } else {
        1
    };
    Some(
        Args { config: said(argv[0].as_str()), path: said(argv[1].as_str()), steps, session_id },
    )
}

/// The price at a step: a triangular wave between 90 and 110.
pub open spec fn wave(step: int) -> int {
    let phase = step % 40;
    if phase < 20 {
        90 + phase
    } else {
        110 - (phase - 20)
    }
}

/// The price at a step.
pub fn price_at(step: i64) -> (price: i64)
    ensures
        price == wave(step as int),
{
    let phase: i64 = if step >= 0 {
        step % 40
    } else {
        39 - (-(step + 1)) % 40
    };
    if phase < 20 {
        90 + phase
    } else {
        110 - (phase - 20)
    }
}

/// The price stays between 90 and 110, moves by one at every step, and comes back
/// after forty.
pub proof fn price_is_a_wave(step: int)
    ensures
        90 <= wave(step) <= 110,
        wave(step + 1) - wave(step) == 1 || wave(step + 1) - wave(step) == -1,
        wave(step + 40) == wave(step),
{
}

/// The quote of the `offset`th instrument at a step. Each walks the same shape
/// out of phase, so several are not one market copied.
pub open spec fn quote_at(step: int, offset: int, id: InstrumentId) -> Inbound {
    let mid = wave(step + offset * 7);
    let at = (step * STEP_NANOS + offset) as i64;
    Inbound::Market(
        MarketEvent {
            instrument: id,
            exchange_time: ExchangeTime(at),
            receive_time: ReceiveTime(at),
            kind: MarketKind::Quote {
                bid_px: Px(((mid - 1) * SCALE) as i64),
                bid_qty: Qty((500 * SCALE) as i64),
                ask_px: Px(((mid + 1) * SCALE) as i64),
                ask_qty: Qty((500 * SCALE) as i64),
            },
        },
    )
}

/// The trade of the `offset`th instrument at a step, half a step after its quote.
pub open spec fn trade_at(step: int, offset: int, id: InstrumentId) -> Inbound {
    let at = (step * STEP_NANOS + offset + STEP_NANOS / 2) as i64;
    Inbound::Market(
        MarketEvent {
            instrument: id,
            exchange_time: ExchangeTime(at),
            receive_time: ReceiveTime(at),
            kind: MarketKind::Trade {
                px: Px((wave(step + offset * 7) * SCALE) as i64),
                qty: Qty(SCALE),
                aggressor: if step % 2 == 0 {
                    Side::Buy
                } else {
                    Side::Sell
                },
            },
        },
    )
}

/// The events of the first `m` instruments at a step.
pub open spec fn step_of(step: int, instruments: Seq<Instrument>, m: int) -> Seq<Inbound>
    decreases m,
{
    if m <= 0 {
        Seq::empty()
    } else {
        step_of(step, instruments, m - 1).push(
            quote_at(step, m - 1, instruments[m - 1].id),
        ).push(trade_at(step, m - 1, instruments[m - 1].id))
    }
}

/// The events of the first `n` steps.
pub open spec fn market_of(n: int, instruments: Seq<Instrument>) -> Seq<Inbound>
    decreases n,
{
    if n <= 0 {
        Seq::empty()
    } else {
        market_of(n - 1, instruments) + step_of(
            n - 1,
            instruments,
            instruments.len() as int,
        )
    }
}

/// One quote and one trade per step and instrument.
#[derive(Debug, Clone)]
pub struct SyntheticFeed {
    pub events: Vec<Inbound>,
    pub next: usize,
}

fn put_step(events: &mut Vec<Inbound>, step: i64, instruments: &[Instrument])
    requires
        0 <= step,
        step * STEP_NANOS + instruments@.len() + STEP_NANOS <= i64::MAX,
        step + instruments@.len() * 7 <= i64::MAX,
    ensures
        final(events)@ == old(events)@ + step_of(
            step as int,
            instruments@,
            instruments@.len() as int,
        ),
{
    let ghost had = events@;
    let base: i64 = step * STEP_NANOS;
    let mut m: usize = 0;
    assert(had + step_of(step as int, instruments@, 0) =~= had);
    while m < instruments.len()
        invariant
            m <= instruments@.len(),
            0 <= step,
            base == step * STEP_NANOS,
            base + instruments@.len() + STEP_NANOS <= i64::MAX,
            step + instruments@.len() * 7 <= i64::MAX,
            events@ == had + step_of(step as int, instruments@, m as int),
        decreases instruments@.len() - m,
    {
        let offset: i64 = m as i64;
        let mid: i64 = price_at(step + offset * 7);
        let id = instruments[m].id;
        let at: i64 = base + offset;
        proof {
            price_is_a_wave(step + offset * 7);
        }
        let quote = Inbound::Market(
            MarketEvent {
                instrument: id,
                exchange_time: ExchangeTime::from_nanos(at),
                receive_time: ReceiveTime::from_nanos(at),
                kind: MarketKind::Quote {
                    bid_px: Px::from_scaled((mid - 1) * SCALE),
                    bid_qty: Qty::from_scaled(500 * SCALE),
                    ask_px: Px::from_scaled((mid + 1) * SCALE),
                    ask_qty: Qty::from_scaled(500 * SCALE),
                },
            },
        );
        events.push(quote);
        let later: i64 = at + STEP_NANOS / 2;
        let aggressor = if step % 2 == 0 {
            Side::Buy
        } else {
            Side::Sell
        };
        let trade = Inbound::Market(
            MarketEvent {
                instrument: id,
                exchange_time: ExchangeTime::from_nanos(later),
                receive_time: ReceiveTime::from_nanos(later),
                kind: MarketKind::Trade {
                    px: Px::from_scaled(mid * SCALE),
                    qty: Qty::from_scaled(SCALE),
                    aggressor,
                },
            },
        );
        events.push(trade);
        assert(quote == quote_at(step as int, m as int, id));
        assert(trade == trade_at(step as int, m as int, id));
        m += 1;
        assert(events@ =~= had + step_of(step as int, instruments@, m as int));
    }
}

impl SyntheticFeed {
    /// A market of some steps, whose last instant can be told.
    pub fn new(steps: i64, instruments: &[Instrument]) -> (feed: SyntheticFeed)
        requires
            0 <= steps,
            steps * STEP_NANOS + instruments@.len() * 7 + STEP_NANOS <= i64::MAX,
        ensures
            feed.events@ == market_of(steps as int, instruments@),
            feed.next == 0,
    {
        let mut events: Vec<Inbound> = Vec::new();
        let mut step: i64 = 0;
        while step < steps
            invariant
                0 <= step <= steps,
                steps * STEP_NANOS + instruments@.len() * 7 + STEP_NANOS <= i64::MAX,
                events@ == market_of(step as int, instruments@),
            decreases steps - step,
        {
            put_step(&mut events, step, instruments);
            step += 1;
        }
        SyntheticFeed { events, next: 0 }
    }
}

impl FeedAdapter for SyntheticFeed {
    open spec fn ready(&self) -> bool {
        self.next <= self.events@.len()
    }

    fn next_event(&mut self) -> (event: Option<Inbound>)
        ensures
            final(self).events@ == old(self).events@,
            if old(self).next < old(self).events@.len() {
                &&& event == Some(old(self).events@[old(self).next as int])
                &&& final(self).next == old(self).next + 1
            } else {
                &&& event is None
                &&& final(self).next == old(self).next
            },
    {
        if self.next < self.events.len() {
            let event = self.events[self.next];
            self.next = self.next + 1;
            Some(event)
        } else {
            None
        }
    }
}

} // verus!
