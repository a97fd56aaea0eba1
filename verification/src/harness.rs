//! What one configured run over a recording is made with.
//!
//! Nothing here decides anything: what makes a run a backtest is a recorded feed
//! and a simulated venue, and two runs that are compared meet the same ones.
use vstd::prelude::*;

use crate::config::{InstrumentConfig, SessionConfig};
use crate::event::codec::{header, InstrumentEntry, LogHeader};
use crate::event::{Event, Inbound, Record};
use crate::sim::{FillModel, Queue};
use crate::text;
use crate::text::{glue, number_string, said};
use crate::value::{Instrument, Px};
use crate::words::same;

verus! {

/// What a run charges and how it fills. It describes the venue, not the policy:
/// two policies compared over one recording must meet the same venue.
#[derive(Debug, Clone, Copy)]
pub struct Costs {
    /// Charged per unit on a resting fill.
    pub maker: Px,
    /// Charged per unit on a taking fill.
    pub taker: Px,
    /// Where a resting order sits in the queue at its price.
    pub queue: Queue,
    /// How much of an order the book lets through.
    pub model: FillModel,
}

impl Default for Costs {
    /// Nothing to rest, a hundredth per unit to take: a strategy evaluated at
    /// zero cost is one nobody can run. Fills stop at the displayed touch, since
    /// walking a book without depth is the same and would not say so.
    fn default() -> (costs: Costs)
        ensures
            costs == (Costs {
                maker: Px(0),
                taker: Px(10_000_000),
                queue: Queue::Front,
                model: FillModel::TouchDisplayed,
            }),
    {
        Costs {
            maker: Px::zero(),
            taker: Px::from_scaled(10_000_000),
            queue: Queue::Front,
            model: FillModel::TouchDisplayed,
        }
    }
}

/// Why a run could not be made.
#[derive(Debug, Clone)]
pub enum HarnessError {
    /// The recording and the config disagree about what exists.
    Mismatch(String),
    /// The recording's instrument table is not usable.
    Instrument(String),
    /// The engine refused an event.
    Engine(String),
    /// The run could not be summarized.
    Report(String),
}

impl HarnessError {
    /// The refusal in words.
    pub open spec fn words(self) -> Seq<char> {
        match self {
            HarnessError::Mismatch(m) => m@,
            HarnessError::Instrument(e) => e@,
            HarnessError::Engine(m) => "the session stopped: "@ + m@,
            HarnessError::Report(m) => "cannot summarize the run: "@ + m@,
        }
    }

    /// The refusal in words.
    pub fn text(&self) -> (text: String)
        ensures
            text@ == self.words(),
    {
        match self {
            HarnessError::Mismatch(m) => said(m.as_str()),
            HarnessError::Instrument(e) => said(e.as_str()),
            HarnessError::Engine(m) => glue("the session stopped: ", m.as_str()),
            HarnessError::Report(m) => glue("cannot summarize the run: ", m.as_str()),
        }
    }
}

/// The first of the verdicts from the `i`th on that is a refusal.
pub open spec fn refused(verdicts: Seq<Result<(), String>>, i: int) -> Option<String>
    decreases verdicts.len() - i,
{
    if i < 0 || i >= verdicts.len() {
        None
    } else {
        match verdicts[i] {
            Err(e) => Some(e),
            Ok(_) => refused(verdicts, i + 1),
        }
    }
}

/// The contract that an entry of a header describes.
pub open spec fn contract_of(entry: InstrumentEntry) -> Instrument {
    Instrument { id: entry.id, tick: entry.tick, lot: entry.lot, min_qty: entry.min_qty }
}

/// The instruments a recording was made under, where `verdicts` says of each
/// whether its conventions are usable. They come from the header rather than
/// from a config: a run with tick and lot sizes of its own could disagree with
/// what was recorded.
pub fn instruments_of(header: &LogHeader, verdicts: &[Result<(), String>]) -> (instruments: Result<
    Vec<Instrument>,
    HarnessError,
>)
    requires
        verdicts@.len() == header.instruments@.len(),
    ensures
        match refused(verdicts@, 0) {
            Some(e) => instruments matches Err(HarnessError::Instrument(m)) && m@ == e@,
            None => instruments matches Ok(list) && {
                &&& list@.len() == header.instruments@.len()
                &&& forall|i: int|
                    0 <= i < list@.len() ==> #[trigger] list@[i] == contract_of(
                        header.instruments@[i],
                    )
            },
        },
{
    let mut list: Vec<Instrument> = Vec::new();
    let mut i: usize = 0;
    while i < header.instruments.len()
        invariant
            i <= header.instruments@.len() == verdicts@.len(),
            list@.len() == i,
            forall|k: int|
                0 <= k < i ==> #[trigger] list@[k] == contract_of(header.instruments@[k]),
            refused(verdicts@, 0) == refused(verdicts@, i as int),
        decreases header.instruments@.len() - i,
    {
        if let Err(e) = &verdicts[i] {
            return Err(HarnessError::Instrument(said(e.as_str())));
        }
        let entry = &header.instruments[i];
        list.push(
            Instrument { id: entry.id, tick: entry.tick, lot: entry.lot, min_qty: entry.min_qty },
        );
        i += 1;
    }
    Ok(list)
}

/// Whether an instrument goes by the same symbol in a recording and in a config.
pub open spec fn same_symbol(entry: InstrumentEntry, configured: InstrumentConfig) -> bool {
    vstd::utf8::valid_utf8(entry@.symbol_bytes()) && vstd::utf8::decode_utf8(
        entry@.symbol_bytes(),
    ) == configured.symbol@
}

/// The first instrument from the `i`th on that goes by another symbol.
pub open spec fn renamed(
    entries: Seq<InstrumentEntry>,
    configured: Seq<InstrumentConfig>,
    i: int,
) -> Option<int>
    decreases entries.len() - i,
{
    if i < 0 || i >= entries.len() {
        None
    } else if !same_symbol(entries[i], configured[i]) {
        Some(i)
    } else {
        renamed(entries, configured, i + 1)
    }
}

/// Why a config cannot run over a recording: they disagree about what exists.
pub open spec fn disagreement(
    entries: Seq<InstrumentEntry>,
    configured: Seq<InstrumentConfig>,
) -> Option<Seq<char>> {
    if entries.len() == 0 {
        Some("the recording has no instruments"@)
    } else if configured.len() != entries.len() {
        Some(
            "the recording holds "@ + text::digits(entries.len())
                + " instruments, the config declares "@ + text::digits(configured.len()),
        )
    } else {
        match renamed(entries, configured, 0) {
            Some(i) => Some(
                "instrument "@ + text::digits(i as nat) + " is "@ + header::lossy_utf8(
                    entries[i]@.symbol_bytes(),
                ) + " in the recording, the config calls it "@ + configured[i].symbol@,
            ),
            None => None,
        }
    }
}

/// Refuses a config that disagrees with a recording about what exists. The tick
/// and lot come from the recording, so a config that names another symbol would
/// otherwise trade the recording's instrument under the config's name.
pub fn check_session(header: &LogHeader, session: &SessionConfig) -> (checked: Result<
    (),
    HarnessError,
>)
    ensures
        match disagreement(header.instruments@, session.instruments@) {
            Some(m) => checked matches Err(HarnessError::Mismatch(e)) && e@ == m,
            None => checked == Ok::<(), HarnessError>(()),
        },
{
    let count: usize = header.instruments.len();
    if count == 0 {
        return Err(HarnessError::Mismatch(said("the recording has no instruments")));
    }
    if session.instruments.len() != count {
        let holds = glue("the recording holds ", number_string(count as u128).as_str());
        let declares = glue(holds.as_str(), " instruments, the config declares ");
        let configured = number_string(session.instruments.len() as u128);
        return Err(HarnessError::Mismatch(glue(declares.as_str(), configured.as_str())));
    }
    let ghost entries = header.instruments@;
    let ghost configured = session.instruments@;
    let mut i: usize = 0;
    while i < count
        invariant
            i <= count == entries.len() == configured.len(),
            entries == header.instruments@,
            configured == session.instruments@,
            renamed(entries, configured, 0) == renamed(entries, configured, i as int),
        decreases count - i,
    {
        let entry = &header.instruments[i];
        let named = session.instruments[i].symbol.as_str();
        let agrees = match entry.symbol_str() {
            Some(symbol) => same(symbol, named),
            None => false,
        };
        if !agrees {
            let at = glue("instrument ", number_string(i as u128).as_str());
            let recorded = glue(glue(at.as_str(), " is ").as_str(), entry.symbol_lossy().as_str());
            let calls = glue(recorded.as_str(), " in the recording, the config calls it ");
            return Err(HarnessError::Mismatch(glue(calls.as_str(), named)));
        }
        i += 1;
    }
    Ok(())
}

/// Whether a record is market data.
pub open spec fn is_market(record: Record) -> bool {
    record.event matches Event::In(Inbound::Market(_))
}

/// How many of the first `n` records are market data.
pub open spec fn market_in(records: Seq<Record>, n: int) -> nat
    decreases n,
{
    if n <= 0 {
        0
    } else if is_market(records[n - 1]) {
        market_in(records, n - 1) + 1
    } else {
        market_in(records, n - 1)
    }
}

/// How many records are market data.
pub fn market_events(records: &[Record]) -> (total: usize)
    ensures
        total == market_in(records@, records@.len() as int),
        total <= records@.len(),
{
    let mut total: usize = 0;
    let mut i: usize = 0;
    while i < records.len()
        invariant
            i <= records@.len(),
            total <= i,
            total == market_in(records@, i as int),
        decreases records@.len() - i,
    {
        if matches!(records[i].event, Event::In(Inbound::Market(_))) {
            total += 1;
        }
        i += 1;
    }
    total
}

/// How many market events go in sample, of `total`, where `want` are wanted: at
/// least one is on each side.
pub open spec fn in_sample(want: nat, total: nat) -> nat {
    if want < 1 {
        1
    } else if want > total - 1 {
        (total - 1) as nat
    } else {
        want
    }
}

/// Splits a recording's records after the `want`th market event.
///
/// The split is by market event, not by record: decisions and venue reports
/// cluster around active moments. There is none where there is not enough market
/// data for two sides.
pub fn split_by_market_events(records: &[Record], want: usize) -> (sides: Option<
    (&[Record], &[Record]),
>)
    ensures
        ({
            let total = market_in(records@, records@.len() as int);
            match sides {
                None => total < 2,
                Some((inside, outside)) => {
                    &&& total >= 2
                    &&& inside@ + outside@ == records@
                    &&& inside@.len() > 0 && is_market(inside@.last())
                    &&& market_in(records@, inside@.len() as int) == in_sample(want as nat, total)
                },
            }
        }),
{
    let total: usize = market_events(records);
    if total < 2 {
        return None;
    }
    let cut: usize = if want < 1 {
        1
    } else if want > total - 1 {
        total - 1
    } else {
        want
    };
    let mut seen: usize = 0;
    let mut i: usize = 0;
    while i < records.len()
        invariant
            i <= records@.len(),
            1 <= cut <= total - 1,
            cut == in_sample(want as nat, total as nat),
            total == market_in(records@, records@.len() as int),
            seen == market_in(records@, i as int),
            seen < cut,
        decreases records@.len() - i,
    {
        i += 1;
        if matches!(records[i - 1].event, Event::In(Inbound::Market(_))) {
            seen += 1;
            if seen == cut {
                let inside = vstd::slice::slice_subrange(records, 0, i);
                let outside = vstd::slice::slice_subrange(records, i, records.len());
                assert(inside@ + outside@ =~= records@);
                assert(inside@.last() == records@[i - 1]);
                return Some((inside, outside));
            }
        }
    }
    None
}

proof fn market_is_additive(a: Seq<Record>, b: Seq<Record>, n: int)
    requires
        0 <= n <= b.len(),
    ensures
        market_in(a + b, a.len() + n) == market_in(a, a.len() as int) + market_in(b, n),
    decreases n,
{
    if n > 0 {
        market_is_additive(a, b, n - 1);
        assert((a + b)[a.len() + n - 1] == b[n - 1]);
    } else {
        market_prefix(a, b, a.len() as int);
    }
}

proof fn market_prefix(a: Seq<Record>, b: Seq<Record>, n: int)
    requires
        n <= a.len(),
    ensures
        market_in(a + b, n) == market_in(a, n),
    decreases n,
{
    if n > 0 {
        market_prefix(a, b, n - 1);
        assert((a + b)[n - 1] == a[n - 1]);
    }
}

/// A split leaves market data on both sides, and every market event on one:
/// neither column of a comparison is measured on nothing.
pub proof fn split_leaves_market_on_both_sides(
    inside: Seq<Record>,
    outside: Seq<Record>,
    want: nat,
)
    requires
        ({
            let records = inside + outside;
            let total = market_in(records, records.len() as int);
            total >= 2 && market_in(records, inside.len() as int) == in_sample(want, total)
        }),
    ensures
        market_in(inside, inside.len() as int) >= 1,
        market_in(outside, outside.len() as int) >= 1,
        market_in(inside, inside.len() as int) + market_in(outside, outside.len() as int)
            == market_in(inside + outside, (inside + outside).len() as int),
{
    market_prefix(inside, outside, inside.len() as int);
    market_is_additive(inside, outside, outside.len() as int);
}

/// Recording an instrument and taking it out of the recording again gives the same
/// instrument, field by field, under whatever symbol it was recorded.
pub proof fn recorded_contracts_come_back(
    instrument: Instrument,
    symbol: &str,
    entry: InstrumentEntry,
)
    requires
        call_ensures(InstrumentEntry::new, (instrument, symbol), Ok(entry)),
    ensures
        contract_of(entry) == instrument,
        entry.id == instrument.id,
        entry.tick == instrument.tick,
        entry.lot == instrument.lot,
        entry.min_qty == instrument.min_qty,
{
}

/// A run trades the contracts that its recording was made with: whatever
/// instruments a header was made of, in whatever number, those and no others come
/// out of it, each in its place, as long as their conventions are usable.
pub proof fn a_run_trades_what_was_recorded(
    header: &LogHeader,
    verdicts: &[Result<(), String>],
    instruments: Seq<Instrument>,
    symbols: Seq<&str>,
    list: Vec<Instrument>,
)
    requires
        header.instruments@.len() == instruments.len() == symbols.len() == verdicts@.len(),
        forall|i: int|
            0 <= i < instruments.len() ==> call_ensures(
                InstrumentEntry::new,
                (#[trigger] instruments[i], symbols[i]),
                Ok(header.instruments@[i]),
            ),
        call_ensures(instruments_of, (header, verdicts), Ok(list)),
    ensures
        list@ == instruments,
{
    assert forall|i: int| 0 <= i < instruments.len() implies list@[i] == instruments[i] by {
        recorded_contracts_come_back(instruments[i], symbols[i], header.instruments@[i]);
    }
    assert(list@ =~= instruments);
}

proof fn refused_is_first(verdicts: Seq<Result<(), String>>, i: int)
    requires
        0 <= i,
    ensures
        match refused(verdicts, i) {
            None => forall|k: int| i <= k < verdicts.len() ==> #[trigger] verdicts[k] is Ok,
            Some(e) => exists|k: int|
                #![trigger verdicts[k]]
                i <= k < verdicts.len() && verdicts[k] == Err::<(), String>(e) && forall|j: int|
                    i <= j < k ==> #[trigger] verdicts[j] is Ok,
        },
    decreases verdicts.len() - i,
{
    if i < verdicts.len() && verdicts[i] is Ok {
        refused_is_first(verdicts, i + 1);
        if let Some(e) = refused(verdicts, i + 1) {
            let k = choose|k: int|
                #![trigger verdicts[k]]
                i + 1 <= k < verdicts.len() && verdicts[k] == Err::<(), String>(e) && forall|j: int|
                    i + 1 <= j < k ==> #[trigger] verdicts[j] is Ok;
            assert(verdicts[k] == Err::<(), String>(e));
        }
    } else if i < verdicts.len() {
        assert(verdicts[i] is Err);
    }
}

/// A recording can be run exactly when each of its instruments is usable, and where
/// one is not, the first such one says why.
pub proof fn an_unusable_instrument_stops_a_run(
    header: &LogHeader,
    verdicts: &[Result<(), String>],
    instruments: Result<Vec<Instrument>, HarnessError>,
)
    requires
        verdicts@.len() == header.instruments@.len(),
        call_ensures(instruments_of, (header, verdicts), instruments),
    ensures
        instruments is Ok <==> forall|k: int|
            0 <= k < verdicts@.len() ==> #[trigger] verdicts@[k] is Ok,
        instruments matches Err(e) ==> exists|k: int|
            #![trigger verdicts@[k]]
            0 <= k < verdicts@.len() && (verdicts@[k] matches Err(why) && e.words() == why@)
                && forall|j: int| 0 <= j < k ==> #[trigger] verdicts@[j] is Ok,
{
    refused_is_first(verdicts@, 0);
    if let Some(e) = refused(verdicts@, 0) {
        let k = choose|k: int|
            #![trigger verdicts@[k]]
            0 <= k < verdicts@.len() && verdicts@[k] == Err::<(), String>(e) && forall|j: int|
                0 <= j < k ==> #[trigger] verdicts@[j] is Ok;
        assert(!(verdicts@[k] is Ok));
    }
}

proof fn renamed_is_first(
    entries: Seq<InstrumentEntry>,
    configured: Seq<InstrumentConfig>,
    i: int,
)
    requires
        0 <= i,
    ensures
        match renamed(entries, configured, i) {
            None => forall|k: int|
                i <= k < entries.len() ==> same_symbol(#[trigger] entries[k], configured[k]),
            Some(k) => {
                &&& i <= k < entries.len()
                &&& !same_symbol(entries[k], configured[k])
            },
        },
    decreases entries.len() - i,
{
    if i < entries.len() && same_symbol(entries[i], configured[i]) {
        renamed_is_first(entries, configured, i + 1);
    }
}

/// A config runs over a recording exactly when there is something to trade and the
/// two name the same instruments in the same places: the symbol that a config gives
/// in each place is the one whose bytes the recording holds there.
pub proof fn configs_run_where_the_names_agree(
    header: &LogHeader,
    session: &SessionConfig,
    checked: Result<(), HarnessError>,
)
    requires
        call_ensures(check_session, (header, session), checked),
    ensures
        checked is Ok <==> {
            &&& header.instruments@.len() > 0
            &&& header.instruments@.len() == session.instruments@.len()
            &&& forall|i: int|
                #![trigger header.instruments@[i]]
                0 <= i < header.instruments@.len() ==> {
                    let bytes = header::before_nul(header.instruments@[i].symbol@);
                    &&& vstd::utf8::valid_utf8(bytes)
                    &&& vstd::utf8::decode_utf8(bytes) == session.instruments@[i].symbol@
                }
        },
{
    let entries = header.instruments@;
    let configured = session.instruments@;
    renamed_is_first(entries, configured, 0);
    if entries.len() > 0 && entries.len() == configured.len() {
        match renamed(entries, configured, 0) {
            None => {
                assert forall|i: int| #![trigger header.instruments@[i]] 0 <= i < entries.len() implies {
                    let bytes = header::before_nul(header.instruments@[i].symbol@);
                    &&& vstd::utf8::valid_utf8(bytes)
                    &&& vstd::utf8::decode_utf8(bytes) == session.instruments@[i].symbol@
                } by {
                    assert(same_symbol(entries[i], configured[i]));
                }
            },
            Some(k) => {
                assert(!same_symbol(entries[k], configured[k]));
                assert(header.instruments@[k] == entries[k]);
            },
        }
    }
}

proof fn market_in_counts(records: Seq<Record>, n: int)
    requires
        0 <= n <= records.len(),
    ensures
        market_in(records, n) == records.take(n).filter(
            |r: Record| r.event matches Event::In(Inbound::Market(_)),
        ).len(),
    decreases n,
{
    let p = |r: Record| r.event matches Event::In(Inbound::Market(_));
    reveal(Seq::filter);
    if n > 0 {
        market_in_counts(records, n - 1);
        assert(records.take(n).drop_last() =~= records.take(n - 1));
        assert(records.take(n).last() == records[n - 1]);
    }
}

/// A split puts as many market events in sample as are wanted, as far as that leaves
/// one on each side, and cuts right behind the last of them: no record is lost, none
/// comes twice, and none changes its place.
pub proof fn a_split_is_where_it_was_wanted(
    records: &[Record],
    want: usize,
    inside: &[Record],
    outside: &[Record],
)
    requires
        call_ensures(split_by_market_events, (records, want), Some((inside, outside))),
    ensures
        inside@ + outside@ == records@,
        ({
            let market = |r: Record| r.event matches Event::In(Inbound::Market(_));
            let total = records@.filter(market).len();
            let chosen = inside@.filter(market).len();
            &&& total >= 2
            &&& 1 <= want <= total - 1 ==> chosen == want
            &&& want == 0 ==> chosen == 1
            &&& want >= total ==> chosen == total - 1
            &&& market(inside@.last())
        }),
{
    let n = inside@.len() as int;
    market_in_counts(records@, records@.len() as int);
    market_in_counts(records@, n);
    assert(records@.take(records@.len() as int) =~= records@);
    assert(records@.take(n) =~= inside@);
}

} // verus!
