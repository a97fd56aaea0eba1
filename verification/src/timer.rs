//! Timers a strategy asked for, in the order they fire.
use vstd::prelude::*;

use crate::event::{TimerEvent, TimerToken};
use crate::value::{ExchangeTime, ReceiveTime, StrategyId};

verus! {

/// A wake-up a strategy asks for.
#[derive(Debug, Clone, Copy, PartialEq, Eq, Hash, Structural)]
pub struct TimerRequest {
    /// Who asks.
    pub strategy: StrategyId,
    /// When, on the exchange clock.
    pub at: ExchangeTime,
    /// The strategy's own label for it.
    pub token: TimerToken,
}

/// Whether `a` fires no later than `b`: by instant, then strategy, then token.
/// A total order, so two runs fire simultaneous timers in the same sequence.
pub open spec fn no_later(a: TimerRequest, b: TimerRequest) -> bool {
    a.at.0 < b.at.0 || (a.at.0 == b.at.0 && (a.strategy.0 < b.strategy.0 || (a.strategy.0
        == b.strategy.0 && a.token.0 <= b.token.0)))
}

/// That timers stand in the order they fire.
pub open spec fn in_order(timers: Seq<TimerRequest>) -> bool {
    forall|i: int, j: int| 0 <= i <= j < timers.len() ==> no_later(timers[i], timers[j])
}

/// `timers` with `request` behind all that fire no later.
pub open spec fn with_timer(timers: Seq<TimerRequest>, request: TimerRequest) -> Seq<TimerRequest>
    decreases timers.len(),
{
    if timers.len() == 0 || no_later(timers.last(), request) {
        timers.push(request)
    } else {
        with_timer(timers.drop_last(), request).push(timers.last())
    }
}

/// Scheduling a timer keeps the order, adds that timer and no other.
pub proof fn scheduling_keeps_order(timers: Seq<TimerRequest>, request: TimerRequest)
    requires
        in_order(timers),
    ensures
        in_order(with_timer(timers, request)),
        with_timer(timers, request).len() == timers.len() + 1,
        with_timer(timers, request).to_multiset() == timers.to_multiset().insert(request),
    decreases timers.len(),
{
    broadcast use vstd::seq_lib::group_to_multiset_ensures;

    if timers.len() == 0 || no_later(timers.last(), request) {
        let all = timers.push(request);
        assert forall|i: int, j: int| 0 <= i <= j < all.len() implies no_later(all[i], all[j]) by {
            if j == all.len() - 1 && i < j {
                assert(no_later(timers[i], timers.last()));
            }
        }
    } else {
        let init = timers.drop_last();
        let rest = with_timer(init, request);
        let last = timers.last();
        scheduling_keeps_order(init, request);
        let all = rest.push(last);
        assert forall|i: int| 0 <= i < rest.len() implies no_later(#[trigger] rest[i], last) by {
            assert(rest.to_multiset().contains(rest[i]));
            if rest[i] != request {
                assert(init.to_multiset().contains(rest[i]));
                let k = init.index_of(rest[i]);
                assert(init.contains(rest[i]));
                assert(timers[k] == rest[i]);
                assert(no_later(timers[k], timers[timers.len() - 1]));
            }
        }
        assert forall|i: int, j: int| 0 <= i <= j < all.len() implies no_later(all[i], all[j]) by {
            if j == all.len() - 1 && i < j {
                assert(no_later(rest[i], last));
            }
        }
        assert(init.push(last) =~= timers);
    }
}

/// Whether `request` is among `timers`, and fires no later than any of them.
pub open spec fn is_earliest(timers: Seq<TimerRequest>, request: TimerRequest) -> bool {
    &&& timers.contains(request)
    &&& forall|i: int| 0 <= i < timers.len() ==> no_later(request, #[trigger] timers[i])
}

/// The timer in front is the earliest, and without it the rest stand in order.
pub proof fn front_is_earliest(timers: Seq<TimerRequest>)
    requires
        in_order(timers),
        timers.len() > 0,
    ensures
        is_earliest(timers, timers[0]),
        in_order(timers.drop_first()),
{
    assert(timers.contains(timers[0]));
}

/// The timers waiting to fire, in the order they do.
#[derive(Debug)]
pub struct TimerQueue {
    timers: Vec<TimerRequest>,
}

impl View for TimerQueue {
    type V = Seq<TimerRequest>;

    closed spec fn view(&self) -> Seq<TimerRequest> {
        self.timers@
    }
}

fn fires_no_later(a: &TimerRequest, b: &TimerRequest) -> (yes: bool)
    ensures
        yes == no_later(*a, *b),
{
    a.at.to_nanos() < b.at.to_nanos() || (a.at.to_nanos() == b.at.to_nanos() && (a.strategy.raw()
        < b.strategy.raw() || (a.strategy.raw() == b.strategy.raw() && a.token.raw()
        <= b.token.raw())))
}

impl TimerQueue {
    /// That the timers stand in the order they fire.
    pub open spec fn well_formed(self) -> bool {
        in_order(self@)
    }

    /// No timers.
    pub fn new() -> (queue: TimerQueue)
        ensures
            queue.well_formed(),
            queue@ == Seq::<TimerRequest>::empty(),
    {
        TimerQueue { timers: Vec::new() }
    }

    /// How many timers wait.
    pub fn len(&self) -> (count: usize)
        ensures
            count == self@.len(),
    {
        self.timers.len()
    }

    /// Adds a timer where it fires.
    pub fn schedule(&mut self, request: TimerRequest)
        requires
            old(self).well_formed(),
        ensures
            final(self).well_formed(),
            final(self)@ == with_timer(old(self)@, request),
    {
        let mut at: usize = self.timers.len();
        let ghost all = self@;
        assert(all.take(at as int) =~= all);
        assert(all.skip(at as int) =~= Seq::empty());
        assert(with_timer(all, request) =~= with_timer(all.take(at as int), request) + all.skip(
            at as int,
        ));
        while at > 0 && !fires_no_later(&self.timers[at - 1], &request)
            invariant
                at <= all.len(),
                self@ == all,
                with_timer(all, request) == with_timer(all.take(at as int), request) + all.skip(
                    at as int,
                ),
            decreases at,
        {
            proof {
                let here = all.take(at as int);
                assert(here.last() == all[at - 1]);
                assert(here.drop_last() =~= all.take(at - 1));
                assert(with_timer(here, request) + all.skip(at as int) =~= with_timer(
                    all.take(at - 1),
                    request,
                ) + all.skip(at - 1));
            }
            at -= 1;
        }
        proof {
            let here = all.take(at as int);
            if at > 0 {
                assert(here.last() == all[at - 1]);
            }
            assert(here.push(request) + all.skip(at as int) =~= all.insert(at as int, request));
        }
        proof {
            scheduling_keeps_order(all, request);
        }
        self.timers.insert(at, request);
    }

    /// The earliest timer, taken off.
    pub fn take_first(&mut self) -> (first: Option<TimerRequest>)
        requires
            old(self).well_formed(),
        ensures
            final(self).well_formed(),
            first matches Some(request) ==> is_earliest(old(self)@, request),
            if old(self)@.len() == 0 {
                first is None && final(self)@ == old(self)@
            } else {
                first == Some(old(self)@[0]) && final(self)@ == old(self)@.drop_first()
            },
    {
        if self.timers.len() == 0 {
            return None;
        }
        proof {
            front_is_earliest(self@);
        }
        let first = self.timers.remove(0);
        assert(self@ =~= old(self)@.drop_first());
        Some(first)
    }

    /// The earliest timer, taken off, if it is due at or before `limit`.
    pub fn take_due_by(&mut self, limit: ExchangeTime) -> (due: Option<TimerRequest>)
        requires
            old(self).well_formed(),
        ensures
            final(self).well_formed(),
            due matches Some(request) ==> is_earliest(old(self)@, request),
            if old(self)@.len() == 0 || old(self)@[0].at.0 > limit.0 {
                due is None && final(self)@ == old(self)@
            } else {
                due == Some(old(self)@[0]) && final(self)@ == old(self)@.drop_first()
            },
    {
        if self.timers.len() == 0 || self.timers[0].at.to_nanos() > limit.to_nanos() {
            return None;
        }
        self.take_first()
    }
}

/// The firing of a timer, seen at `receive_time`.
pub open spec fn firing(request: TimerRequest, receive_time: ReceiveTime) -> TimerEvent {
    TimerEvent {
        strategy: request.strategy,
        token: request.token,
        fires_at: request.at,
        receive_time,
    }
}

/// The firing of a timer, seen at `receive_time`.
pub fn fire(request: TimerRequest, receive_time: ReceiveTime) -> (event: TimerEvent)
    ensures
        event == firing(request, receive_time),
{
    TimerEvent {
        strategy: request.strategy,
        token: request.token,
        fires_at: request.at,
        receive_time,
    }
}

} // verus!
