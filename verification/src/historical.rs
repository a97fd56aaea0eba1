//! A recorded session, replayed as a feed.
//!
//! A backtest feeds back the market data and nothing else: the strategy trades
//! afresh, and the recorded session's fills, commands and timers stay in the
//! file. A replay feeds back every input and reproduces the session, and only
//! makes sense with a venue that says nothing back.
//!
//! In a backtest the feed schedules the timers a strategy asks for. In a replay
//! it ignores the requests, because the firings are records in the file.
use vstd::prelude::*;

use crate::engine::FeedAdapter;
use crate::event::codec::{header, LogHeader, RECORD_LEN};
use crate::event::file;
use crate::event::{Event, Inbound, LogFileError, LogReader, Outbound, Record, Recovery};
use crate::timer;
use crate::timer::{fire, TimerQueue, TimerRequest};
use crate::value::{Instrument, ReceiveTime};

verus! {

/// Which of the two readings of a recorded session this is.
#[derive(Debug, Clone, Copy, PartialEq, Eq, Hash, Structural)]
pub enum Replaying {
    /// Market data only: a backtest.
    MarketDataOnly,
    /// Every recorded input: a replay.
    EveryInput,
}

impl Replaying {
    /// Whether this reading has an input in it.
    pub open spec fn reads(self, inbound: Inbound) -> bool {
        self == Replaying::EveryInput || inbound is Market
    }

    /// Whether this reading has an input in it.
    pub fn includes(self, inbound: &Inbound) -> (yes: bool)
        ensures
            yes == self.reads(*inbound),
    {
        match self {
            Replaying::EveryInput => true,
            Replaying::MarketDataOnly => matches!(inbound, Inbound::Market(_)),
        }
    }
}

/// The inputs of `records` that a reading has in it, in recorded order.
pub open spec fn inputs_read(mode: Replaying, records: Seq<Record>) -> Seq<Inbound>
    decreases records.len(),
{
    if records.len() == 0 {
        Seq::empty()
    } else {
        let rest = inputs_read(mode, records.drop_last());
        match records.last().event {
            Event::In(i) => if mode.reads(i) {
                rest.push(i)
            } else {
                rest
            },
            Event::Out(_) => rest,
        }
    }
}

/// A recorded session, presented as a feed.
#[derive(Debug)]
pub struct HistoricalFeed {
    pub header: LogHeader,
    /// Inputs this reading has in it, in recorded order.
    pub inputs: Vec<Inbound>,
    /// What the recorded session decided. Not replayed: kept so that a new run
    /// can be compared with the old one.
    pub decisions: Vec<Outbound>,
    pub next: usize,
    pub mode: Replaying,
    pub recovery: Recovery,
    /// In the order they fire.
    pub timers: TimerQueue,
}

/// What a feed has yet to deliver, and what it delivers next.
pub struct FeedView {
    pub inputs: Seq<Inbound>,
    pub timers: Seq<timer::TimerRequest>,
}

/// Whether the earliest timer comes before the next input. A timer due at
/// exactly the next input's timestamp fires first, no timer can be shown to be
/// due before an input without an exchange time, and once the session is spent
/// nothing can come before a timer.
pub open spec fn timer_is_next(feed: FeedView) -> bool {
    &&& feed.timers.len() > 0
    &&& feed.inputs.len() > 0 ==> match feed.inputs[0].spec_exchange_time() {
        Some(limit) => feed.timers[0].at.0 <= limit.0,
        None => false,
    }
}

/// The next event of a feed.
pub open spec fn next_of(feed: FeedView) -> Option<Inbound> {
    if timer_is_next(feed) {
        let due = feed.timers[0];
        Some(Inbound::Timer(timer::firing(due, ReceiveTime(due.at.0))))
    } else if feed.inputs.len() > 0 {
        Some(feed.inputs[0])
    } else {
        None
    }
}

/// What a feed has left once it delivered its next event.
pub open spec fn rest_of(feed: FeedView) -> FeedView {
    if timer_is_next(feed) {
        FeedView { inputs: feed.inputs, timers: feed.timers.drop_first() }
    } else if feed.inputs.len() > 0 {
        FeedView { inputs: feed.inputs.drop_first(), timers: feed.timers }
    } else {
        feed
    }
}

impl View for HistoricalFeed {
    type V = FeedView;

    open spec fn view(&self) -> FeedView {
        FeedView { inputs: self.inputs@.skip(self.next as int), timers: self.timers@ }
    }
}

impl HistoricalFeed {
    /// That the feed is somewhere in its inputs, and its timers stand in the order
    /// they fire.
    pub open spec fn well_formed(self) -> bool {
        &&& self.next <= self.inputs@.len()
        &&& self.timers.well_formed()
    }

    /// A feed over salvaged records.
    pub fn from_parts(
        header: LogHeader,
        records: Vec<Record>,
        mode: Replaying,
        recovery: Recovery,
    ) -> (feed: HistoricalFeed)
        ensures
            feed.well_formed(),
            feed.header == header,
            feed.inputs@ == inputs_read(mode, records@),
            feed.decisions@ == crate::event::log::decisions_of(records@),
            feed.next == 0,
            feed.mode == mode,
            feed.recovery == recovery,
            feed.timers@.len() == 0,
    {
        let mut inputs: Vec<Inbound> = Vec::new();
        let mut decisions: Vec<Outbound> = Vec::new();
        let mut i: usize = 0;
        while i < records.len()
            invariant
                i <= records@.len(),
                inputs@ == inputs_read(mode, records@.take(i as int)),
                decisions@ == crate::event::log::decisions_of(records@.take(i as int)),
            decreases records@.len() - i,
        {
            assert(records@.take(i + 1).drop_last() =~= records@.take(i as int));
            match records[i].event {
                Event::In(inbound) => {
                    if mode.includes(&inbound) {
                        inputs.push(inbound);
                    }
                },
                Event::Out(outbound) => {
                    decisions.push(outbound);
                },
            }
            i += 1;
        }
        assert(records@.take(i as int) =~= records@);
        HistoricalFeed {
            header,
            inputs,
            decisions,
            next: 0,
            mode,
            recovery,
            timers: TimerQueue::new(),
        }
    }

    /// A feed over records of which nothing was lost.
    pub fn from_records(header: LogHeader, records: Vec<Record>, mode: Replaying) -> (feed:
        HistoricalFeed)
        ensures
            feed.well_formed(),
            feed.header == header,
            feed.inputs@ == inputs_read(mode, records@),
            feed.decisions@ == crate::event::log::decisions_of(records@),
            feed.next == 0,
            feed.mode == mode,
            feed.recovery == (Recovery {
                records: records@.len() as u64,
                discarded_bytes: 0,
                stopped: None,
            }),
            feed.timers@.len() == 0,
    {
        let recovery = Recovery {
            records: records.len() as u64,
            discarded_bytes: 0,
            stopped: None,
        };
        HistoricalFeed::from_parts(header, records, mode, recovery)
    }

    /// Opens a recorded session, refusing a damaged file.
    ///
    /// `instruments` is the configuration this session will run under, and must
    /// be what the file was recorded with.
    pub fn open(bytes: &[u8], instruments: &[Instrument], mode: Replaying) -> (feed: Result<
        HistoricalFeed,
        LogFileError,
    >)
        ensures
            match file::opened_header(bytes@) {
                Err(e) => feed matches Err(fault) && fault == LogFileError::Codec(e),
                Ok(h) => match header::matches_configured(h.instruments, instruments@) {
                    Err(e) => feed matches Err(fault) && fault == LogFileError::Codec(e),
                    Ok(()) => {
                        let start = header::header_len(h.instruments.len()) as int;
                        let whole = (bytes@.len() - start) / (RECORD_LEN as int);
                        let partial = (bytes@.len() - start) % (
                        RECORD_LEN as int);
                        let base = file::base_number(file::base_of(bytes@, start, whole));
                        let count = file::trusted(bytes@, start, base, whole);
                        match feed {
                            Ok(f) => {
                                &&& count == whole && partial == 0
                                &&& f.well_formed() && f.header@ == h && f.mode == mode && f.next
                                    == 0 && f.timers@.len() == 0
                                &&& f.inputs@ == inputs_read(
                                    mode,
                                    file::records_at(bytes@, start, whole),
                                )
                                &&& f.decisions@ == crate::event::log::decisions_of(
                                    file::records_at(bytes@, start, whole),
                                )
                                &&& f.recovery == (Recovery {
                                    records: whole as u64,
                                    discarded_bytes: 0,
                                    stopped: None,
                                })
                            },
                            Err(fault) => {
                                &&& count < whole || partial > 0
                                &&& fault matches LogFileError::Damaged(recovery)
                                &&& recovery.records == count
                                &&& recovery.discarded_bytes == (whole - count)
                                    * crate::event::codec::RECORD_LEN + partial
                                &&& recovery.stopped == file::stop_after(
                                    bytes@,
                                    start,
                                    base,
                                    whole,
                                    partial as u64,
                                    count,
                                )
                            },
                        }
                    },
                },
            },
    {
        let reader = LogReader::open(bytes)?;
        match reader.header().check_against(instruments) {
            Ok(()) => {},
            Err(e) => {
                return Err(LogFileError::Codec(e));
            },
        }
        proof {
            file::body_is_split(reader);
        }
        let records = reader.read_all_intact()?;
        Ok(HistoricalFeed::from_records(reader.header, records, mode))
    }

    /// Opens a recorded session, accepting a damaged one. The caller gets the
    /// [`Recovery`] and is expected to say so in whatever it reports.
    pub fn open_salvaged(
        bytes: &[u8],
        instruments: &[Instrument],
        mode: Replaying,
    ) -> (feed: Result<HistoricalFeed, LogFileError>)
        ensures
            match file::opened_header(bytes@) {
                Err(e) => feed matches Err(fault) && fault == LogFileError::Codec(e),
                Ok(h) => match header::matches_configured(h.instruments, instruments@) {
                    Err(e) => feed matches Err(fault) && fault == LogFileError::Codec(e),
                    Ok(()) => {
                        let start = header::header_len(h.instruments.len()) as int;
                        let whole = (bytes@.len() - start) / (RECORD_LEN as int);
                        let partial = (bytes@.len() - start) % (
                        RECORD_LEN as int);
                        let base = file::base_number(file::base_of(bytes@, start, whole));
                        let count = file::trusted(bytes@, start, base, whole);
                        &&& feed matches Ok(f)
                        &&& f.well_formed() && f.header@ == h && f.mode == mode && f.next == 0
                            && f.timers@.len() == 0
                        &&& f.inputs@ == inputs_read(mode, file::records_at(bytes@, start, count))
                        &&& f.decisions@ == crate::event::log::decisions_of(
                            file::records_at(bytes@, start, count),
                        )
                        &&& f.recovery.records == count
                        &&& f.recovery.discarded_bytes == (whole - count)
                            * crate::event::codec::RECORD_LEN + partial
                        &&& f.recovery.stopped == file::stop_after(
                            bytes@,
                            start,
                            base,
                            whole,
                            partial as u64,
                            count,
                        )
                    },
                },
            },
    {
        let reader = LogReader::open(bytes)?;
        match reader.header().check_against(instruments) {
            Ok(()) => {},
            Err(e) => {
                return Err(LogFileError::Codec(e));
            },
        }
        proof {
            file::body_is_split(reader);
        }
        let (records, recovery) = reader.read_all();
        Ok(HistoricalFeed::from_parts(reader.header, records, mode, recovery))
    }

    /// What the session was recorded under.
    pub fn header(&self) -> (header: &LogHeader)
        ensures
            *header == self.header,
    {
        &self.header
    }

    /// Which reading this feed is.
    pub fn mode(&self) -> (mode: Replaying)
        ensures
            mode == self.mode,
    {
        self.mode
    }

    /// What the file gave up, if anything.
    pub fn recovery(&self) -> (recovery: Recovery)
        ensures
            recovery == self.recovery,
    {
        self.recovery
    }

    /// How many inputs this reading will deliver in total.
    pub fn len(&self) -> (count: usize)
        ensures
            count == self.inputs@.len(),
    {
        self.inputs.len()
    }

    /// Whether the recorded session held nothing this reading wants.
    pub fn is_empty(&self) -> (empty: bool)
        ensures
            empty == (self.inputs@.len() == 0),
    {
        self.inputs.len() == 0
    }

    /// How many inputs are left.
    pub fn remaining(&self) -> (count: usize)
        requires
            self.well_formed(),
        ensures
            count == self@.inputs.len(),
    {
        self.inputs.len() - self.next
    }

    /// What the recorded session decided. Never replayed.
    pub fn recorded_decisions(&self) -> (decisions: &[Outbound])
        ensures
            decisions@ == self.decisions@,
    {
        self.decisions.as_slice()
    }

    /// The next event, or `None` once nothing is left.
    pub fn next_event(&mut self) -> (event: Option<Inbound>)
        requires
            old(self).well_formed(),
        ensures
            final(self).well_formed(),
            event == next_of(old(self)@),
            final(self)@ == rest_of(old(self)@),
            timer_is_next(old(self)@) ==> timer::is_earliest(
                old(self)@.timers,
                old(self)@.timers[0],
            ),
            final(self).mode == old(self).mode,
            final(self).inputs@ == old(self).inputs@,
            final(self).header == old(self).header,
            final(self).decisions@ == old(self).decisions@,
            final(self).recovery == old(self).recovery,
    {
        let due = if self.next >= self.inputs.len() {
            self.timers.take_first()
        } else {
            match self.inputs[self.next].exchange_time() {
                Some(limit) => self.timers.take_due_by(limit),
                None => None,
            }
        };
        if let Some(request) = due {
            // There is no network between a replayed timer and the process, so
            // the two clocks coincide.
            let receive_time = ReceiveTime::from_nanos(request.at.to_nanos());
            return Some(Inbound::Timer(fire(request, receive_time)));
        }
        if self.next >= self.inputs.len() {
            return None;
        }
        let event = self.inputs[self.next];
        self.next += 1;
        assert(self@.inputs =~= old(self)@.inputs.drop_first());
        Some(event)
    }

    /// Schedules a timer a strategy asked for. A replay has the firings in the
    /// file already, so it takes none.
    pub fn schedule_timer(&mut self, request: TimerRequest)
        requires
            old(self).well_formed(),
        ensures
            final(self).well_formed(),
            final(self)@.inputs == old(self)@.inputs,
            final(self).mode == old(self).mode,
            final(self).inputs@ == old(self).inputs@,
            final(self).next == old(self).next,
            final(self).header == old(self).header,
            final(self).decisions@ == old(self).decisions@,
            final(self).recovery == old(self).recovery,
            final(self)@.timers == match old(self).mode {
                Replaying::EveryInput => old(self)@.timers,
                Replaying::MarketDataOnly => timer::with_timer(old(self)@.timers, request),
            },
    {
        if matches!(self.mode, Replaying::EveryInput) {
            return ;
        }
        self.timers.schedule(request);
    }
}

impl FeedAdapter for HistoricalFeed {
    open spec fn ready(&self) -> bool {
        self.well_formed()
    }

    fn next_event(&mut self) -> (event: Option<Inbound>)
        ensures
            event == next_of(old(self)@),
            final(self)@ == rest_of(old(self)@),
            timer_is_next(old(self)@) ==> timer::is_earliest(
                old(self)@.timers,
                old(self)@.timers[0],
            ),
            final(self).mode == old(self).mode,
            final(self).inputs@ == old(self).inputs@,
            final(self).header == old(self).header,
            final(self).decisions@ == old(self).decisions@,
            final(self).recovery == old(self).recovery,
    {
        HistoricalFeed::next_event(self)
    }

    fn schedule_timer(&mut self, request: TimerRequest)
        ensures
            final(self)@.inputs == old(self)@.inputs,
            final(self).mode == old(self).mode,
            final(self).inputs@ == old(self).inputs@,
            final(self).next == old(self).next,
            final(self).header == old(self).header,
            final(self).decisions@ == old(self).decisions@,
            final(self).recovery == old(self).recovery,
            final(self)@.timers == match old(self).mode {
                Replaying::EveryInput => old(self)@.timers,
                Replaying::MarketDataOnly => timer::with_timer(old(self)@.timers, request),
            },
    {
        HistoricalFeed::schedule_timer(self, request)
    }
}

/// A backtest never sees a recorded fill, command, position or timer: whatever
/// the file holds, its inputs are market data.
pub proof fn backtest_reads_market_data_only(records: Seq<Record>, i: int)
    requires
        0 <= i < inputs_read(Replaying::MarketDataOnly, records).len(),
    ensures
        inputs_read(Replaying::MarketDataOnly, records)[i] is Market,
    decreases records.len(),
{
    let rest = inputs_read(Replaying::MarketDataOnly, records.drop_last());
    if i < rest.len() {
        backtest_reads_market_data_only(records.drop_last(), i);
    }
}

/// A replay feeds back every recorded input, in order.
pub proof fn replay_reads_every_input(records: Seq<Record>)
    ensures
        inputs_read(Replaying::EveryInput, records) == crate::event::log::inputs_of(records),
    decreases records.len(),
{
    if records.len() > 0 {
        replay_reads_every_input(records.drop_last());
    }
}

} // verus!
