//! What holds of whole sessions: the inputs of a recording, fed back to an engine
//! that starts where the recorded one started, bring out the recorded session; a
//! session re-derived after a crash arrives where it was; a log accounts for
//! every decision in it; and a kill is final.
//!
//! A session is an engine, what it asks something of, and the log. Here what it
//! asks is any function of its own state and of what is asked; only the log, and
//! what the venue says back, stand apart. Live the venue may say anything. In a
//! replay it says nothing, because what it said is among the inputs.
use vstd::prelude::*;

use crate::engine;
use crate::engine::{Ask, EngineError, EngineView, ReplyView, Task, MAX_CASCADE};
use crate::event::log;
use crate::event::{EngineState, Event, Inbound, Record, SeqNo, FORMAT_VERSION};

verus! {

/// A session under way.
pub struct Session<D> {
    pub engine: EngineView,
    /// Books, orders, positions, strategies: what answers the engine.
    pub desk: D,
    pub log: Seq<Record>,
    /// How often the venue was asked what it has to say.
    pub drains: nat,
}

/// A session in which one more thing that the engine asked is done.
#[verifier::opaque]
pub open spec fn moved<D>(
    answer: spec_fn(D, Ask) -> (D, ReplyView),
    said: spec_fn(nat) -> Seq<Inbound>,
    c: Session<D>,
) -> Session<D> {
    if c.engine.agenda.len() == 0 {
        c
    } else {
        match engine::ask_of(c.engine) {
            Ask::Proceed => Session {
                engine: engine::stepped(c.engine, ReplyView::Done),
                ..c
            },
            Ask::Record(event) => {
                let seq = SeqNo(c.log.len() as u64);
                Session {
                    engine: engine::stepped(c.engine, ReplyView::Recorded(Ok(seq))),
                    log: c.log.push(Record { seq, version: FORMAT_VERSION, event }),
                    ..c
                }
            },
            Ask::DrainVenue => Session {
                engine: engine::stepped(c.engine, ReplyView::Reports(said(c.drains))),
                drains: c.drains + 1,
                ..c
            },
            ask => Session {
                engine: engine::stepped(c.engine, answer(c.desk, ask).1),
                desk: answer(c.desk, ask).0,
                ..c
            },
        }
    }
}

/// A session after `n` more such things, or once the engine has settled.
pub open spec fn ran<D>(
    answer: spec_fn(D, Ask) -> (D, ReplyView),
    said: spec_fn(nat) -> Seq<Inbound>,
    c: Session<D>,
    n: nat,
) -> Session<D>
    decreases n,
{
    if n == 0 {
        c
    } else {
        ran(answer, said, moved(answer, said, c), (n - 1) as nat)
    }
}

/// A session whose engine was just handed an input.
pub open spec fn fed<D>(c: Session<D>, input: Inbound) -> Session<D> {
    Session {
        engine: EngineView {
            queue: c.engine.queue.push(input),
            steps: 0,
            agenda: seq![Task::Next],
            ..c.engine
        },
        ..c
    }
}

/// Whether an engine is waiting for an input.
pub open spec fn at_rest(s: EngineView) -> bool {
    s.agenda.len() == 0 && s.queue.len() == 0
}

/// A session after inputs were handed to it in turn, each within `n` steps.
pub open spec fn lived<D>(
    answer: spec_fn(D, Ask) -> (D, ReplyView),
    said: spec_fn(nat) -> Seq<Inbound>,
    c: Session<D>,
    inputs: Seq<Inbound>,
    n: nat,
) -> Session<D>
    decreases inputs.len(),
{
    if inputs.len() == 0 {
        c
    } else {
        lived(
            answer,
            said,
            ran(answer, said, fed(c, inputs[0]), n),
            inputs.drop_first(),
            n,
        )
    }
}

/// Whether each of these inputs was dealt with, well or not, before the next one.
pub open spec fn kept_up<D>(
    answer: spec_fn(D, Ask) -> (D, ReplyView),
    said: spec_fn(nat) -> Seq<Inbound>,
    c: Session<D>,
    inputs: Seq<Inbound>,
    n: nat,
) -> bool
    decreases inputs.len(),
{
    inputs.len() > 0 ==> {
        let after = ran(answer, said, fed(c, inputs[0]), n);
        &&& after.engine.agenda.len() == 0
        &&& kept_up(answer, said, after, inputs.drop_first(), n)
    }
}

/// A venue that never says anything.
pub open spec fn silence() -> spec_fn(nat) -> Seq<Inbound> {
    |drain: nat| Seq::empty()
}

/// Whether two sessions are the same but for what is left in the queue and how
/// the present input goes.
spec fn alike<D>(a: Session<D>, b: Session<D>) -> bool {
    &&& a.desk == b.desk
    &&& a.log == b.log
    &&& same_but_queue(a.engine, b.engine)
}

/// Whether a task is part of dealing with one event.
spec fn inner(task: Task) -> bool {
    !(task is Next || task is Drain || task is Step)
}

/// Whether an agenda is that of an engine dealing with one event.
spec fn amid(agenda: Seq<Task>) -> bool {
    &&& agenda.len() >= 2
    &&& agenda[0] == Task::Next
    &&& agenda[1] == Task::Drain
    &&& forall|i: int| 2 <= i < agenda.len() ==> inner(#[trigger] agenda[i])
}

proof fn rests<D>(
    answer: spec_fn(D, Ask) -> (D, ReplyView),
    said: spec_fn(nat) -> Seq<Inbound>,
    c: Session<D>,
    n: nat,
)
    requires
        c.engine.agenda.len() == 0,
    ensures
        ran(answer, said, c, n) == c,
    decreases n,
{
    reveal(moved);
    if n > 0 {
        rests(answer, said, c, (n - 1) as nat);
    }
}

proof fn ran_on<D>(
    answer: spec_fn(D, Ask) -> (D, ReplyView),
    said: spec_fn(nat) -> Seq<Inbound>,
    c: Session<D>,
    n: nat,
    m: nat,
)
    ensures
        ran(answer, said, c, n + m) == ran(answer, said, ran(answer, said, c, n), m),
    decreases n,
{
    if n > 0 {
        ran_on(answer, said, moved(answer, said, c), (n - 1) as nat, m);
        assert((n + m - 1) as nat == (n - 1) as nat + m);
    }
}

/// Whether two engines are the same but for what is left in the queue and how the
/// present input goes.
spec fn same_but_queue(s: EngineView, t: EngineView) -> bool {
    s == (EngineView { queue: s.queue, steps: s.steps, outcome: s.outcome, ..t })
}

/// A step within an event leaves what is beneath it alone, and puts only inner
/// tasks on top.
#[verifier::spinoff_prover]
#[verifier::rlimit(20)]
proof fn inner_step_stays_amid(s: EngineView, reply: ReplyView)
    requires
        amid(s.agenda),
        s.agenda.len() > 2,
    ensures
        ({
            let a = engine::stepped(s, reply);
            &&& a.queue == s.queue
            &&& a.replaying == s.replaying
            &&& amid(a.agenda) || a.agenda.len() == 0 && a.outcome is Err
        }),
{
    let n = s.agenda.len() as int;
    assert(inner(s.agenda[n - 1]));
    assert(amid(s.agenda.drop_last())) by {
        assert forall|i: int| 2 <= i < n - 1 implies inner(#[trigger] s.agenda.drop_last()[i]) by {
            assert(s.agenda.drop_last()[i] == s.agenda[i]);
        }
    }
}

/// A step within an event is the same whatever waits in the queue.
#[verifier::spinoff_prover]
#[verifier::rlimit(20)]
proof fn inner_step_ignores_queue(s: EngineView, t: EngineView, reply: ReplyView)
    requires
        s.agenda.len() > 0,
        inner(s.agenda.last()),
        same_but_queue(s, t),
    ensures
        engine::ask_of(s) == engine::ask_of(t),
        same_but_queue(engine::stepped(s, reply), engine::stepped(t, reply)),
        engine::stepped(t, reply).queue == t.queue,
{
}

proof fn inner_step(s: EngineView, t: EngineView, reply: ReplyView)
    requires
        amid(s.agenda),
        s.agenda.len() > 2,
        same_but_queue(s, t),
    ensures
        engine::ask_of(s) == engine::ask_of(t),
        same_but_queue(engine::stepped(s, reply), engine::stepped(t, reply)),
        engine::stepped(t, reply).queue == t.queue,
        engine::stepped(s, reply).replaying == s.replaying,
        ({
            let a = engine::stepped(s, reply);
            amid(a.agenda) || a.agenda.len() == 0 && a.outcome is Err
        }),
{
    assert(inner(s.agenda[s.agenda.len() - 1]));
    inner_step_stays_amid(s, reply);
    inner_step_ignores_queue(s, t, reply);
}

/// An engine takes up an event that was recorded the same way whatever else waits.
#[verifier::spinoff_prover]
proof fn first_step(s: EngineView, t: EngineView, event: Inbound, seq: SeqNo)
    requires
        s.agenda == seq![Task::Next, Task::Drain, Task::Step(event)],
        same_but_queue(s, t),
        !s.replaying,
    ensures
        ({
            let a = engine::stepped(s, ReplyView::Recorded(Ok(seq)));
            let b = engine::stepped(t, ReplyView::Recorded(Ok(seq)));
            &&& engine::ask_of(s) == Ask::Record(Event::In(event))
            &&& engine::ask_of(t) == Ask::Record(Event::In(event))
            &&& same_but_queue(a, b)
            &&& b.queue == t.queue
            &&& !a.replaying
            &&& amid(a.agenda)
        }),
{
    assert(s.agenda.last() == Task::Step(event));
    assert(s.agenda.drop_last() =~= seq![Task::Next, Task::Drain]);
}

/// Whether `b` rests where `a` stands, before `a` takes up what waits.
spec fn rested<D>(a: Session<D>, b: Session<D>) -> bool {
    &&& a.desk == b.desk
    &&& a.log == b.log
    &&& b.engine == (EngineView {
        queue: Seq::empty(),
        steps: b.engine.steps,
        outcome: b.engine.outcome,
        agenda: Seq::empty(),
        ..a.engine
    })
}

/// Whether a session gets to the end of its input.
spec fn ends<D>(
    answer: spec_fn(D, Ask) -> (D, ReplyView),
    said: spec_fn(nat) -> Seq<Inbound>,
    c: Session<D>,
    n: nat,
) -> bool {
    ran(answer, said, c, n).engine.agenda.len() == 0
}

/// Whether `a` is through with an event as `b` is: either both are ready for the
/// next one, or neither does anything more about its input.
spec fn through<D>(a: Session<D>, b: Session<D>) -> bool {
    &&& !a.engine.replaying
    &&& rested(a, b)
    &&& {
        ||| a.engine.agenda == seq![Task::Next] && b.engine.outcome == Ok::<(), EngineError>(())
        ||| a.engine.agenda.len() == 0 && a.engine.outcome is Err
    }
}

/// A step within an event goes the same way with a silent venue.
#[verifier::spinoff_prover]
proof fn event_step<D>(
    answer: spec_fn(D, Ask) -> (D, ReplyView),
    said: spec_fn(nat) -> Seq<Inbound>,
    a: Session<D>,
    b: Session<D>,
)
    requires
        alike(a, b),
        amid(a.engine.agenda),
        a.engine.agenda.len() > 2,
        !a.engine.replaying,
        b.engine.queue.len() == 0,
    ensures
        ({
            let a1 = moved(answer, said, a);
            let b1 = moved(answer, silence(), b);
            &&& alike(a1, b1)
            &&& !a1.engine.replaying
            &&& b1.engine.queue.len() == 0
            &&& log::inputs_of(a1.log) == log::inputs_of(a.log)
            &&& amid(a1.engine.agenda) || a1.engine.agenda.len() == 0 && a1.engine.outcome is Err
        }),
{
    reveal(moved);
    assert(inner(a.engine.agenda[a.engine.agenda.len() - 1]));
    let ask = engine::ask_of(a.engine);
    inner_step(a.engine, b.engine, ReplyView::Done);
    inner_step(a.engine, b.engine, ReplyView::Recorded(Ok(SeqNo(a.log.len() as u64))));
    inner_step(a.engine, b.engine, answer(a.desk, ask).1);
    assert(ask !is DrainVenue);
    if ask is Record {
        assert(moved(answer, said, a).log.drop_last() =~= a.log);
    }
}

/// Once an event is dealt with, what the venue says is queued, and a silent
/// session is at rest.
#[verifier::spinoff_prover]
proof fn drain_step<D>(
    answer: spec_fn(D, Ask) -> (D, ReplyView),
    said: spec_fn(nat) -> Seq<Inbound>,
    a: Session<D>,
    b: Session<D>,
)
    requires
        alike(a, b),
        amid(a.engine.agenda),
        a.engine.agenda.len() == 2,
        !a.engine.replaying,
        b.engine.queue.len() == 0,
    ensures
        ({
            let a1 = moved(answer, said, a);
            let b2 = moved(answer, silence(), moved(answer, silence(), b));
            &&& through(a1, b2)
            &&& a1.engine.agenda == seq![Task::Next]
            &&& a1.log == a.log
        }),
{
    reveal(moved);
    assert(a.engine.agenda.last() == Task::Drain);
    assert(a.engine.agenda.drop_last() =~= seq![Task::Next]);
    let b1 = moved(answer, silence(), b);
    assert(b1.engine.queue =~= Seq::empty());
    assert(b1.engine.agenda.last() == Task::Next);
    assert(b1.engine.agenda.drop_last() =~= Seq::empty());
}

/// The rest of an event goes the same way with a silent venue, and there the
/// input ends with it. Says after how many moves each is through.
proof fn through_event<D>(
    answer: spec_fn(D, Ask) -> (D, ReplyView),
    said: spec_fn(nat) -> Seq<Inbound>,
    a: Session<D>,
    b: Session<D>,
    n: nat,
) -> (moves: (nat, nat))
    requires
        alike(a, b),
        amid(a.engine.agenda),
        !a.engine.replaying,
        b.engine.queue.len() == 0,
        ends(answer, said, a, n),
    ensures
        moves.0 <= n,
        moves.1 <= n,
        ({
            let after = ran(answer, said, a, moves.0);
            &&& log::inputs_of(after.log) == log::inputs_of(a.log)
            &&& through(after, ran(answer, silence(), b, moves.1))
        }),
    decreases n,
{
    assert(n > 0);
    let a1 = moved(answer, said, a);
    let b1 = moved(answer, silence(), b);
    assert(ran(answer, said, a, 1) == a1) by {
        assert(ran(answer, said, a1, 0) == a1);
    }
    if a.engine.agenda.len() == 2 {
        drain_step(answer, said, a, b);
        two_moves(answer, silence(), b, 0);
        (1, 2)
    } else {
        event_step(answer, said, a, b);
        if a1.engine.agenda.len() == 0 {
            assert(b1.engine.agenda =~= Seq::empty());
            assert(b1.engine.queue =~= Seq::empty());
            assert(ran(answer, silence(), b, 1) == b1) by {
                assert(ran(answer, silence(), b1, 0) == b1);
            }
            (1, 1)
        } else {
            let (live, silent) = through_event(answer, said, a1, b1, (n - 1) as nat);
            assert(ran(answer, said, a, live + 1) == ran(answer, said, a1, live));
            assert(ran(answer, silence(), b, silent + 1) == ran(answer, silence(), b1, silent));
            (live + 1, silent + 1)
        }
    }
}

/// An engine takes the next event off its queue the same way as one that is
/// handed that event.
proof fn next_step(s: EngineView, t: EngineView)
    requires
        s.agenda == seq![Task::Next],
        t.agenda == seq![Task::Next],
        s.queue.len() > 0,
        t.queue == seq![s.queue[0]],
        t.steps == 0,
        same_but_queue(s, t),
    ensures
        ({
            let a = engine::stepped(s, ReplyView::Done);
            let b = engine::stepped(t, ReplyView::Done);
            &&& engine::ask_of(s) == Ask::Proceed
            &&& engine::ask_of(t) == Ask::Proceed
            &&& s.steps + 1 > MAX_CASCADE ==> {
                &&& a.agenda.len() == 0
                &&& a.outcome is Err
                &&& same_but_queue(a, EngineView { agenda: a.agenda, ..s })
            }
            &&& s.steps + 1 <= MAX_CASCADE ==> {
                &&& a.agenda == seq![Task::Next, Task::Drain, Task::Step(s.queue[0])]
                &&& same_but_queue(a, b)
                &&& b.queue.len() == 0
                &&& a.replaying == s.replaying
            }
        }),
{
    assert(s.agenda.last() == Task::Next);
    assert(s.agenda.drop_last() =~= Seq::empty());
    assert(t.queue.drop_first() =~= Seq::empty());
    if s.steps + 1 <= MAX_CASCADE {
        assert(engine::stepped(s, ReplyView::Done).agenda =~= seq![
            Task::Next,
            Task::Drain,
            Task::Step(s.queue[0]),
        ]);
    }
}

/// An event is taken off the queue and recorded the same way as one that a silent
/// session is handed as an input.
proof fn taken_up<D>(
    answer: spec_fn(D, Ask) -> (D, ReplyView),
    said: spec_fn(nat) -> Seq<Inbound>,
    a: Session<D>,
    b: Session<D>,
)
    requires
        a.engine.agenda == seq![Task::Next],
        a.engine.queue.len() > 0,
        a.engine.steps + 1 <= MAX_CASCADE,
        !a.engine.replaying,
        rested(a, b),
    ensures
        ({
            let event = a.engine.queue[0];
            let a1 = moved(answer, said, a);
            let a2 = moved(answer, said, a1);
            let b2 = moved(answer, silence(), moved(answer, silence(), fed(b, event)));
            &&& a1.engine.agenda.len() > 0
            &&& alike(a2, b2)
            &&& amid(a2.engine.agenda)
            &&& !a2.engine.replaying
            &&& b2.engine.queue.len() == 0
            &&& log::inputs_of(a2.log) == log::inputs_of(a.log).push(event)
        }),
{
    reveal(moved);
    let event = a.engine.queue[0];
    let b0 = fed(b, event);
    assert(b0.engine.queue =~= seq![event]);
    next_step(a.engine, b0.engine);
    let a1 = moved(answer, said, a);
    let b1 = moved(answer, silence(), b0);
    assert(alike(a1, b1));
    first_step(a1.engine, b1.engine, event, SeqNo(a1.log.len() as u64));
    assert(alike(moved(answer, said, a1), moved(answer, silence(), b1)));
    assert(moved(answer, said, a1).log.drop_last() =~= a.log);
}

proof fn two_moves<D>(
    answer: spec_fn(D, Ask) -> (D, ReplyView),
    said: spec_fn(nat) -> Seq<Inbound>,
    c: Session<D>,
    n: nat,
)
    ensures
        ran(answer, said, c, n + 2) == ran(
            answer,
            said,
            moved(answer, said, moved(answer, said, c)),
            n,
        ),
{
    let next = moved(answer, said, c);
    assert(ran(answer, said, c, n + 2) == ran(answer, said, next, n + 1));
    assert(ran(answer, said, next, n + 1) == ran(answer, said, moved(answer, said, next), n));
}

proof fn settled_stays<D>(
    answer: spec_fn(D, Ask) -> (D, ReplyView),
    said: spec_fn(nat) -> Seq<Inbound>,
    c: Session<D>,
    n: nat,
    fuel: nat,
)
    requires
        n <= fuel,
        ran(answer, said, c, n).engine.agenda.len() == 0,
    ensures
        ran(answer, said, c, fuel) == ran(answer, said, c, n),
{
    ran_on(answer, said, c, n, (fuel - n) as nat);
    rests(answer, said, ran(answer, said, c, n), (fuel - n) as nat);
}

/// A storm ends the input where it is.
proof fn storm<D>(
    answer: spec_fn(D, Ask) -> (D, ReplyView),
    said: spec_fn(nat) -> Seq<Inbound>,
    a: Session<D>,
    b: Session<D>,
    n: nat,
)
    requires
        a.engine.agenda == seq![Task::Next],
        a.engine.queue.len() > 0,
        a.engine.steps + 1 > MAX_CASCADE,
        !a.engine.replaying,
        rested(a, b),
        n > 0,
    ensures
        ({
            let end = ran(answer, said, a, n);
            &&& end.log == a.log
            &&& end.engine.agenda.len() == 0
            &&& through(end, b)
        }),
{
    let b0 = fed(b, a.engine.queue[0]);
    let a1 = moved(answer, said, a);
    assert(b0.engine.queue =~= seq![a.engine.queue[0]]);
    next_step(a.engine, b0.engine);
    assert(a1 == (Session { engine: engine::stepped(a.engine, ReplyView::Done), ..a })) by {
        reveal(moved);
    }
    rests(answer, said, a1, (n - 1) as nat);
}

/// An event that waits in the queue goes the same way when a silent session is
/// handed it as an input.
proof fn through_queue<D>(
    answer: spec_fn(D, Ask) -> (D, ReplyView),
    said: spec_fn(nat) -> Seq<Inbound>,
    a: Session<D>,
    b: Session<D>,
    n: nat,
    fuel: nat,
) -> (m: nat)
    requires
        a.engine.agenda == seq![Task::Next],
        a.engine.queue.len() > 0,
        a.engine.steps + 1 <= MAX_CASCADE,
        !a.engine.replaying,
        rested(a, b),
        ends(answer, said, a, n),
        n <= fuel,
    ensures
        0 < m <= n,
        ({
            let event = a.engine.queue[0];
            let after = ran(answer, said, a, m);
            &&& log::inputs_of(after.log) == log::inputs_of(a.log).push(event)
            &&& through(after, ran(answer, silence(), fed(b, event), fuel))
        }),
{
    let b0 = fed(b, a.engine.queue[0]);
    taken_up(answer, said, a, b);
    let a1 = moved(answer, said, a);
    let a2 = moved(answer, said, a1);
    let b2 = moved(answer, silence(), moved(answer, silence(), b0));
    assert(n >= 2) by {
        assert(n == 1 ==> ran(answer, said, a1, 0) == a1);
    }
    let left = (n - 2) as nat;
    two_moves(answer, said, a, left);
    let (live, silent) = through_event(answer, said, a2, b2, left);
    two_moves(answer, said, a, live);
    two_moves(answer, silence(), b0, silent);
    settled_stays(answer, silence(), b0, silent + 2, fuel);
    live + 2
}

/// Handing inputs over in two lots is handing them over in one.
proof fn lived_on<D>(
    answer: spec_fn(D, Ask) -> (D, ReplyView),
    said: spec_fn(nat) -> Seq<Inbound>,
    c: Session<D>,
    first: Seq<Inbound>,
    rest: Seq<Inbound>,
    n: nat,
)
    ensures
        lived(answer, said, c, first + rest, n) == lived(
            answer,
            said,
            lived(answer, said, c, first, n),
            rest,
            n,
        ),
    decreases first.len(),
{
    if first.len() == 0 {
        assert(first + rest =~= rest);
    } else {
        let next = ran(answer, said, fed(c, first[0]), n);
        assert((first + rest).drop_first() =~= first.drop_first() + rest);
        lived_on(answer, said, next, first.drop_first(), rest, n);
    }
}

/// One input, with everything the venue says back, goes the same way when a silent
/// session is handed what was recorded of it.
proof fn through_input<D>(
    answer: spec_fn(D, Ask) -> (D, ReplyView),
    said: spec_fn(nat) -> Seq<Inbound>,
    a: Session<D>,
    b: Session<D>,
    n: nat,
    fuel: nat,
) -> (fresh: Seq<Inbound>)
    requires
        a.engine.agenda == seq![Task::Next],
        a.engine.queue.len() == 0 ==> b.engine.outcome == Ok::<(), EngineError>(()),
        !a.engine.replaying,
        rested(a, b),
        ends(answer, said, a, n),
        n <= fuel,
    ensures
        ({
            let end = ran(answer, said, a, n);
            let again = lived(answer, silence(), b, fresh, fuel);
            &&& log::inputs_of(end.log) == log::inputs_of(a.log) + fresh
            &&& !end.engine.replaying
            &&& rested(end, again)
            &&& end.engine.outcome == Ok::<(), EngineError>(()) ==> {
                &&& end.engine.queue.len() == 0
                &&& again.engine.outcome == Ok::<(), EngineError>(())
            }
        }),
    decreases n,
{
    assert(n > 0);
    if a.engine.queue.len() == 0 {
        reveal(moved);
        assert(a.engine.agenda.last() == Task::Next);
        assert(a.engine.agenda.drop_last() =~= Seq::empty());
        let end = moved(answer, said, a);
        rests(answer, said, end, (n - 1) as nat);
        assert(log::inputs_of(end.log) =~= log::inputs_of(a.log) + Seq::<Inbound>::empty());
        Seq::empty()
    } else if a.engine.steps + 1 > MAX_CASCADE {
        storm(answer, said, a, b, n);
        assert(log::inputs_of(a.log) =~= log::inputs_of(a.log) + Seq::<Inbound>::empty());
        Seq::empty()
    } else {
        let event = a.engine.queue[0];
        let m = through_queue(answer, said, a, b, n, fuel);
        let a1 = ran(answer, said, a, m);
        let b1 = ran(answer, silence(), fed(b, event), fuel);
        ran_on(answer, said, a, m, (n - m) as nat);
        let rest = if a1.engine.agenda.len() == 0 {
            rests(answer, said, a1, (n - m) as nat);
            assert(log::inputs_of(a1.log) =~= log::inputs_of(a1.log) + Seq::<Inbound>::empty());
            Seq::empty()
        } else {
            through_input(answer, said, a1, b1, (n - m) as nat, fuel)
        };
        let fresh = seq![event] + rest;
        assert(fresh.drop_first() =~= rest);
        assert(lived(answer, silence(), b, fresh, fuel) == lived(
            answer,
            silence(),
            b1,
            rest,
            fuel,
        ));
        assert(log::inputs_of(a.log).push(event) + rest =~= log::inputs_of(a.log) + fresh);
        fresh
    }
}

/// A whole session goes the same way.
proof fn through_session<D>(
    answer: spec_fn(D, Ask) -> (D, ReplyView),
    said: spec_fn(nat) -> Seq<Inbound>,
    a: Session<D>,
    b: Session<D>,
    inputs: Seq<Inbound>,
    n: nat,
) -> (fresh: Seq<Inbound>)
    requires
        a.engine.agenda.len() == 0,
        !a.engine.replaying,
        rested(a, b),
        a.engine.outcome == Ok::<(), EngineError>(()) ==> {
            &&& a.engine.queue.len() == 0
            &&& b.engine.outcome == Ok::<(), EngineError>(())
        },
        kept_up(answer, said, a, inputs, n),
    ensures
        ({
            let end = lived(answer, said, a, inputs, n);
            let again = lived(answer, silence(), b, fresh, n);
            &&& log::inputs_of(end.log) == log::inputs_of(a.log) + fresh
            &&& rested(end, again)
            &&& end.engine.agenda.len() == 0
            &&& end.engine.outcome == Ok::<(), EngineError>(()) ==> {
                &&& end.engine.queue.len() == 0
                &&& again.engine.outcome == Ok::<(), EngineError>(())
            }
        }),
    decreases inputs.len(),
{
    if inputs.len() == 0 {
        assert(log::inputs_of(a.log) =~= log::inputs_of(a.log) + Seq::<Inbound>::empty());
        Seq::empty()
    } else {
        let start = fed(a, inputs[0]);
        let next = ran(answer, said, start, n);
        let first = through_input(answer, said, start, b, n, n);
        let replayed = lived(answer, silence(), b, first, n);
        let rest = through_session(answer, said, next, replayed, inputs.drop_first(), n);
        lived_on(answer, silence(), b, first, rest, n);
        assert(log::inputs_of(a.log) + first + rest =~= log::inputs_of(a.log) + (first + rest));
        first + rest
    }
}

/// The inputs of a recording, fed back through a fresh session with a venue that
/// says nothing, reproduce it: every record in its place and under its number,
/// and the state that everything was left in. This holds whatever the venue said
/// while the session was recorded, and however its inputs went: one that the
/// engine refused is refused again at the same point. The engines differ only in
/// what waits in the queue, in the count of events, and, where the last input was
/// refused, in how that went.
pub proof fn replay_reproduces_the_session<D>(
    answer: spec_fn(D, Ask) -> (D, ReplyView),
    said: spec_fn(nat) -> Seq<Inbound>,
    start: Session<D>,
    inputs: Seq<Inbound>,
    n: nat,
)
    requires
        at_rest(start.engine),
        !start.engine.replaying,
        start.log.len() == 0,
        kept_up(answer, said, start, inputs, n),
    ensures
        ({
            let recorded = lived(answer, said, start, inputs, n);
            let again = lived(answer, silence(), start, log::inputs_of(recorded.log), n);
            &&& again.log == recorded.log
            &&& again.desk == recorded.desk
            &&& again.engine == (EngineView {
                queue: again.engine.queue,
                steps: again.engine.steps,
                outcome: again.engine.outcome,
                ..recorded.engine
            })
            &&& recorded.engine.outcome == Ok::<(), EngineError>(()) ==> {
                again.engine == (EngineView { steps: again.engine.steps, ..recorded.engine })
            }
        }),
{
    assert(start.engine.agenda =~= Seq::empty());
    assert(start.engine.queue =~= Seq::empty());
    let fresh = through_session(answer, said, start, start, inputs, n);
    let recorded = lived(answer, said, start, inputs, n);
    assert(log::inputs_of(recorded.log) =~= fresh);
    assert(recorded.engine.agenda =~= Seq::empty());
    if recorded.engine.outcome == Ok::<(), EngineError>(()) {
        assert(recorded.engine.queue =~= Seq::empty());
    }
}

/// Whether two tasks are the same but for what they record.
spec fn kin(a: Task, b: Task) -> bool {
    a == b || a is Record && b is Record
}

/// Whether two agendas are the same but for what they record.
#[verifier::opaque]
spec fn akin(a: Seq<Task>, b: Seq<Task>) -> bool {
    a.len() == b.len() && forall|i: int| 0 <= i < a.len() ==> kin(#[trigger] a[i], b[i])
}

broadcast proof fn akin_grows(a: Seq<Task>, b: Seq<Task>, x: Task, y: Task)
    requires
        akin(a, b),
        kin(x, y),
    ensures
        #[trigger] akin(a.push(x), b.push(y)),
{
    reveal(akin);
}

broadcast proof fn none_are_akin()
    ensures
        #[trigger] akin(Seq::empty(), Seq::empty()),
{
    reveal(akin);
}

proof fn tops_are_kin(a: Seq<Task>, b: Seq<Task>)
    requires
        akin(a, b),
    ensures
        a.len() == b.len(),
        a.len() > 0 ==> kin(a.last(), b.last()) && akin(a.drop_last(), b.drop_last()),
{
    reveal(akin);
    if a.len() > 0 {
        assert(kin(a[a.len() - 1], b[a.len() - 1]));
    }
}

/// Whether `t` re-derives what `s` decides.
spec fn mirrors(s: EngineView, t: EngineView) -> bool {
    &&& !s.replaying
    &&& t.replaying
    &&& akin(s.agenda, t.agenda)
    &&& t == (EngineView {
        replaying: true,
        replay_seq: t.replay_seq,
        cause: t.cause,
        agenda: t.agenda,
        ..s
    })
}

#[verifier::spinoff_prover]
#[verifier::rlimit(20)]
proof fn mirrored_step(s: EngineView, t: EngineView, reply: ReplyView)
    requires
        mirrors(s, t),
        s.agenda.len() > 0,
        engine::ask_of(s) !is Record,
    ensures
        engine::ask_of(t) == engine::ask_of(s),
        mirrors(engine::stepped(s, reply), engine::stepped(t, reply)),
{
    broadcast use {akin_grows, none_are_akin};

    tops_are_kin(s.agenda, t.agenda);
}

#[verifier::spinoff_prover]
#[verifier::rlimit(20)]
proof fn mirrored_record(s: EngineView, t: EngineView, seq: SeqNo)
    requires
        mirrors(s, t),
        s.agenda.len() > 0,
        engine::ask_of(s) is Record,
    ensures
        engine::ask_of(t) == Ask::Proceed,
        mirrors(
            engine::stepped(s, ReplyView::Recorded(Ok(seq))),
            engine::stepped(t, ReplyView::Done),
        ),
{
    broadcast use {akin_grows, none_are_akin};

    tops_are_kin(s.agenda, t.agenda);
}

proof fn mirrored_run<D>(
    answer: spec_fn(D, Ask) -> (D, ReplyView),
    said: spec_fn(nat) -> Seq<Inbound>,
    a: Session<D>,
    b: Session<D>,
    n: nat,
)
    requires
        mirrors(a.engine, b.engine),
        a.desk == b.desk,
        a.drains == b.drains,
    ensures
        ({
            let x = ran(answer, said, a, n);
            let y = ran(answer, said, b, n);
            &&& mirrors(x.engine, y.engine)
            &&& x.desk == y.desk
            &&& x.drains == y.drains
            &&& y.log == b.log
        }),
    decreases n,
{
    reveal(akin);
    reveal(moved);
    if n > 0 {
        if a.engine.agenda.len() > 0 {
            let ask = engine::ask_of(a.engine);
            if ask is Record {
                mirrored_record(a.engine, b.engine, SeqNo(a.log.len() as u64));
            } else {
                mirrored_step(a.engine, b.engine, ReplyView::Done);
                mirrored_step(a.engine, b.engine, ReplyView::Reports(said(a.drains)));
                mirrored_step(a.engine, b.engine, answer(a.desk, ask).1);
            }
        }
        mirrored_run(
            answer,
            said,
            moved(answer, said, a),
            moved(answer, said, b),
            (n - 1) as nat,
        );
    }
}

proof fn mirrored_session<D>(
    answer: spec_fn(D, Ask) -> (D, ReplyView),
    said: spec_fn(nat) -> Seq<Inbound>,
    a: Session<D>,
    b: Session<D>,
    inputs: Seq<Inbound>,
    n: nat,
)
    requires
        mirrors(a.engine, b.engine),
        a.desk == b.desk,
        a.drains == b.drains,
    ensures
        ({
            let x = lived(answer, said, a, inputs, n);
            let y = lived(answer, said, b, inputs, n);
            &&& mirrors(x.engine, y.engine)
            &&& x.desk == y.desk
            &&& y.log == b.log
        }),
    decreases inputs.len(),
{
    reveal(akin);
    if inputs.len() > 0 {
        let x = fed(a, inputs[0]);
        let y = fed(b, inputs[0]);
        mirrored_run(answer, said, x, y, n);
        mirrored_session(
            answer,
            said,
            ran(answer, said, x, n),
            ran(answer, said, y, n),
            inputs.drop_first(),
            n,
        );
    }
}

/// A session that is re-derived after a crash, between `begin_replay` and
/// `end_replay`, arrives at the state it had and writes nothing: handed the same
/// inputs, with a venue that says the same, it leaves everything that it asks
/// something of as it was, and the engine with it, but for the record that it
/// names as the present one.
pub proof fn recovery_rebuilds_the_state<D>(
    answer: spec_fn(D, Ask) -> (D, ReplyView),
    said: spec_fn(nat) -> Seq<Inbound>,
    start: Session<D>,
    inputs: Seq<Inbound>,
    n: nat,
)
    requires
        !start.engine.replaying,
    ensures
        ({
            let recorded = lived(answer, said, start, inputs, n);
            let begun = Session {
                engine: EngineView { replaying: true, ..start.engine },
                ..start
            };
            let again = lived(answer, said, begun, inputs, n);
            &&& again.log == start.log
            &&& again.desk == recorded.desk
            &&& again.engine.agenda.len() == recorded.engine.agenda.len()
            &&& again.engine == (EngineView {
                replaying: true,
                replay_seq: again.engine.replay_seq,
                cause: again.engine.cause,
                agenda: again.engine.agenda,
                ..recorded.engine
            })
        }),
{
    reveal(akin);
    let begun = Session { engine: EngineView { replaying: true, ..start.engine }, ..start };
    mirrored_session(answer, said, start, begun, inputs, n);
}

/// Whether everything that is asked of a desk is answered to the point.
pub open spec fn to_the_point<D>(answer: spec_fn(D, Ask) -> (D, ReplyView)) -> bool {
    forall|desk: D, ask: Ask|
        !(ask is Proceed || ask is Record || ask is DrainVenue || ask is Settled)
            ==> engine::answers(ask, (#[trigger] answer(desk, ask)).1)
}

/// Whether records are numbered as they stand, and every decision among them
/// names an input that stands before it.
pub open spec fn accounts_for_itself(records: Seq<Record>) -> bool {
    forall|i: int|
        0 <= i < records.len() ==> {
            &&& (#[trigger] records[i]).seq.0 == i
            &&& records[i].event matches Event::Out(out) ==> {
                &&& out.cause().0 < i
                &&& records[out.cause().0 as int].event is In
            }
        }
}

/// Whether the record that an engine names as the present one is an input.
spec fn has_cause<D>(c: Session<D>) -> bool {
    c.engine.cause.0 < c.log.len() && c.log[c.engine.cause.0 as int].event is In
}

/// Whether an engine has decisions to make: it is past recording an event.
spec fn deciding(agenda: Seq<Task>) -> bool {
    exists|i: int| 0 <= i < agenda.len() && inner(#[trigger] agenda[i])
}

spec fn orderly<D>(c: Session<D>) -> bool {
    &&& c.engine.sound()
    &&& !c.engine.replaying
    &&& accounts_for_itself(c.log)
    &&& has_cause(c) || !deciding(c.engine.agenda)
}

/// Only recording an input changes what is being processed, and nothing is to be
/// decided before.
#[verifier::spinoff_prover]
#[verifier::rlimit(20)]
proof fn cause_stays(s: EngineView, reply: ReplyView)
    requires
        s.agenda.len() > 0,
        s.agenda.last() !is Step,
    ensures
        engine::stepped(s, reply).cause == s.cause,
        engine::stepped(s, reply).replaying == s.replaying,
        !deciding(s.agenda) ==> !deciding(engine::stepped(s, reply).agenda),
{
    let after = engine::stepped(s, reply).agenda;
    if !deciding(s.agenda) {
        assert(!inner(s.agenda[s.agenda.len() - 1]));
        assert forall|i: int| 0 <= i < after.len() implies !inner(#[trigger] after[i]) by {
            if i < s.agenda.len() - 1 {
                assert(!inner(s.agenda[i]));
            }
        }
    }
}

proof fn stays_orderly<D>(
    answer: spec_fn(D, Ask) -> (D, ReplyView),
    said: spec_fn(nat) -> Seq<Inbound>,
    c: Session<D>,
)
    requires
        to_the_point(answer),
        orderly(c),
        c.log.len() < u64::MAX,
    ensures
        orderly(moved(answer, said, c)),
        c.log.len() <= moved(answer, said, c).log.len(),
{
    reveal(moved);
    if c.engine.agenda.len() > 0 {
        let s = c.engine;
        let top = s.agenda.last();
        assert(s.agenda[s.agenda.len() - 1] == top);
        let ask = engine::ask_of(s);
        let after = moved(answer, said, c);
        if ask is Record {
            let seq = SeqNo(c.log.len() as u64);
            engine::replies_keep_engine_sound(s, ReplyView::Recorded(Ok(seq)));
            if top is Step {
                assert(after.engine.cause == seq);
            } else {
                cause_stays(s, ReplyView::Recorded(Ok(seq)));
                engine::decisions_name_their_cause(s);
                assert(inner(s.agenda[s.agenda.len() - 1]));
            }
            assert forall|i: int| 0 <= i < after.log.len() implies {
                &&& (#[trigger] after.log[i]).seq.0 == i
                &&& after.log[i].event matches Event::Out(out) ==> {
                    &&& out.cause().0 < i
                    &&& after.log[out.cause().0 as int].event is In
                }
            } by {
                if i < c.log.len() {
                    assert(after.log[i] == c.log[i]);
                }
            }
        } else {
            let reply = match ask {
                Ask::Proceed => ReplyView::Done,
                Ask::DrainVenue => ReplyView::Reports(said(c.drains)),
                _ => answer(c.desk, ask).1,
            };
            assert(top !is Step);
            engine::replies_keep_engine_sound(s, reply);
            cause_stays(s, reply);
        }
    }
}

proof fn log_grows<D>(
    answer: spec_fn(D, Ask) -> (D, ReplyView),
    said: spec_fn(nat) -> Seq<Inbound>,
    c: Session<D>,
    n: nat,
)
    ensures
        c.log.len() <= ran(answer, said, c, n).log.len(),
    decreases n,
{
    reveal(moved);
    if n > 0 {
        log_grows(answer, said, moved(answer, said, c), (n - 1) as nat);
    }
}

proof fn session_log_grows<D>(
    answer: spec_fn(D, Ask) -> (D, ReplyView),
    said: spec_fn(nat) -> Seq<Inbound>,
    c: Session<D>,
    inputs: Seq<Inbound>,
    n: nat,
)
    ensures
        c.log.len() <= lived(answer, said, c, inputs, n).log.len(),
    decreases inputs.len(),
{
    if inputs.len() > 0 {
        let next = ran(answer, said, fed(c, inputs[0]), n);
        log_grows(answer, said, fed(c, inputs[0]), n);
        session_log_grows(answer, said, next, inputs.drop_first(), n);
    }
}

proof fn runs_orderly<D>(
    answer: spec_fn(D, Ask) -> (D, ReplyView),
    said: spec_fn(nat) -> Seq<Inbound>,
    c: Session<D>,
    n: nat,
)
    requires
        to_the_point(answer),
        orderly(c),
        ran(answer, said, c, n).log.len() < u64::MAX,
    ensures
        orderly(ran(answer, said, c, n)),
    decreases n,
{
    if n > 0 {
        log_grows(answer, said, c, n);
        stays_orderly(answer, said, c);
        runs_orderly(answer, said, moved(answer, said, c), (n - 1) as nat);
    }
}

proof fn lives_orderly<D>(
    answer: spec_fn(D, Ask) -> (D, ReplyView),
    said: spec_fn(nat) -> Seq<Inbound>,
    c: Session<D>,
    inputs: Seq<Inbound>,
    n: nat,
)
    requires
        to_the_point(answer),
        orderly(c),
        lived(answer, said, c, inputs, n).log.len() < u64::MAX,
    ensures
        orderly(lived(answer, said, c, inputs, n)),
    decreases inputs.len(),
{
    if inputs.len() > 0 {
        let handed = fed(c, inputs[0]);
        let next = ran(answer, said, handed, n);
        session_log_grows(answer, said, next, inputs.drop_first(), n);
        assert(orderly(handed));
        runs_orderly(answer, said, handed, n);
        lives_orderly(answer, said, next, inputs.drop_first(), n);
    }
}

/// The log of a session accounts for itself: records are numbered without a gap,
/// and every decision names an input that was recorded before it, never another
/// decision. This holds at every moment, of failed inputs too.
pub proof fn every_decision_has_a_recorded_cause<D>(
    answer: spec_fn(D, Ask) -> (D, ReplyView),
    said: spec_fn(nat) -> Seq<Inbound>,
    start: Session<D>,
    inputs: Seq<Inbound>,
    n: nat,
)
    requires
        to_the_point(answer),
        start.engine.agenda.len() == 0,
        !start.engine.replaying,
        start.log.len() == 0,
        lived(answer, said, start, inputs, n).log.len() < u64::MAX,
    ensures
        accounts_for_itself(lived(answer, said, start, inputs, n).log),
{
    lives_orderly(answer, said, start, inputs, n);
}

proof fn runs_on_killed<D>(
    answer: spec_fn(D, Ask) -> (D, ReplyView),
    said: spec_fn(nat) -> Seq<Inbound>,
    c: Session<D>,
    n: nat,
)
    requires
        to_the_point(answer),
        c.engine.sound(),
        c.engine.state == EngineState::Killed,
    ensures
        ran(answer, said, c, n).engine.sound(),
        ran(answer, said, c, n).engine.state == EngineState::Killed,
    decreases n,
{
    reveal(moved);
    if n > 0 {
        let s = c.engine;
        if s.agenda.len() > 0 {
            let ask = engine::ask_of(s);
            let reply = match ask {
                Ask::Proceed => ReplyView::Done,
                Ask::Record(_) => ReplyView::Recorded(Ok(SeqNo(c.log.len() as u64))),
                Ask::DrainVenue => ReplyView::Reports(said(c.drains)),
                _ => answer(c.desk, ask).1,
            };
            engine::replies_keep_engine_sound(s, reply);
            engine::killed_is_terminal(s, reply);
        }
        runs_on_killed(answer, said, moved(answer, said, c), (n - 1) as nat);
    }
}

/// A kill is final for the session: whatever inputs follow, whatever the venue
/// says and however far the engine gets with them, it stays killed.
pub proof fn a_killed_session_stays_killed<D>(
    answer: spec_fn(D, Ask) -> (D, ReplyView),
    said: spec_fn(nat) -> Seq<Inbound>,
    start: Session<D>,
    inputs: Seq<Inbound>,
    n: nat,
)
    requires
        to_the_point(answer),
        start.engine.sound(),
        start.engine.state == EngineState::Killed,
    ensures
        lived(answer, said, start, inputs, n).engine.state == EngineState::Killed,
    decreases inputs.len(),
{
    if inputs.len() > 0 {
        let handed = fed(start, inputs[0]);
        runs_on_killed(answer, said, handed, n);
        a_killed_session_stays_killed(
            answer,
            said,
            ran(answer, said, handed, n),
            inputs.drop_first(),
            n,
        );
    }
}

} // verus!
