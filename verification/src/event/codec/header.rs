//! The file header: what a recorded session was recorded under.
//!
//! 48 fixed bytes (magic, format version, record length, header length, session
//! id, session start, first order id, instrument count, 4 reserved) and 48 for
//! each instrument (id, symbol, tick, lot, minimum, 4 reserved).
use vstd::prelude::*;

use super::bytes::{Reader, Writer};
use super::record::all_zero;
use super::{bytes, record, CodecError, RECORD_LEN};
use crate::event::FORMAT_VERSION;
use crate::value::{ExchangeTime, Instrument, InstrumentId, OrderId, Px, Qty};

verus! {

/// Bytes before the first instrument entry.
pub const FIXED_LEN: usize = 48;

/// Bytes per instrument entry.
pub const ENTRY_LEN: usize = 48;

/// A symbol is fixed width and NUL-padded, so entries stay a constant size.
pub const SYMBOL_LEN: usize = 16;

/// More than this and the header stops being a header.
pub const MAX_INSTRUMENTS: usize = 4_096;

/// The bytes that identify the file type.
pub open spec fn magic_bytes() -> Seq<u8> {
    seq![85u8, 76u8, 84u8, 82u8, 65u8, 76u8, 79u8, 71u8]
}

/// `ULTRALOG`: a mistyped path fails on the first read.
pub fn magic() -> (magic: [u8; 8])
    ensures
        magic@ == magic_bytes(),
{
    let magic: [u8; 8] = [85, 76, 84, 82, 65, 76, 79, 71];
    assert(magic@ =~= magic_bytes());
    magic
}

/// One instrument, as the session was configured with it. It carries a symbol,
/// which [`Instrument`] does not.
#[derive(Debug, Clone, Copy, PartialEq, Eq, Hash)]
pub struct InstrumentEntry {
    /// Which instrument.
    pub id: InstrumentId,
    /// NUL-padded venue symbol.
    pub symbol: [u8; SYMBOL_LEN],
    /// The venue's price increment.
    pub tick: Px,
    /// The venue's quantity increment.
    pub lot: Qty,
    /// The smallest quantity the venue accepts.
    pub min_qty: Qty,
}

/// What an entry says.
pub struct EntryView {
    pub id: InstrumentId,
    pub symbol: Seq<u8>,
    pub tick: Px,
    pub lot: Qty,
    pub min_qty: Qty,
}

impl View for InstrumentEntry {
    type V = EntryView;

    open spec fn view(&self) -> EntryView {
        EntryView {
            id: self.id,
            symbol: self.symbol@,
            tick: self.tick,
            lot: self.lot,
            min_qty: self.min_qty,
        }
    }
}

impl EntryView {
    /// Whether this entry describes the same contract as `instrument`. The
    /// symbol is not compared, because an [`Instrument`] does not carry one.
    pub open spec fn describes(self, instrument: Instrument) -> bool {
        &&& self.id == instrument.id
        &&& self.tick == instrument.tick
        &&& self.lot == instrument.lot
        &&& self.min_qty == instrument.min_qty
    }

    /// The symbol's bytes before the first NUL.
    pub open spec fn symbol_bytes(self) -> Seq<u8> {
        before_nul(self.symbol)
    }
}

/// The bytes before the first zero.
pub open spec fn before_nul(bytes: Seq<u8>) -> Seq<u8>
    decreases bytes.len(),
{
    if bytes.len() == 0 || bytes[0] == 0 {
        Seq::empty()
    } else {
        seq![bytes[0]] + before_nul(bytes.skip(1))
    }
}

/// The text of `bytes`, by `core::str::from_utf8`: the characters they encode
/// where they are valid UTF-8, else nothing.
#[verifier::external_body]
pub(crate) fn utf8_text(bytes: &[u8]) -> (text: Option<&str>)
    ensures
        match text {
            Some(s) => vstd::utf8::valid_utf8(bytes@) && s@ == vstd::utf8::decode_utf8(bytes@),
            None => !vstd::utf8::valid_utf8(bytes@),
        },
{
    core::str::from_utf8(bytes).ok()
}

/// What `String::from_utf8_lossy` makes of bytes.
pub uninterp spec fn lossy_utf8(bytes: Seq<u8>) -> Seq<char>;

/// The text of `bytes`, by `String::from_utf8_lossy`: the characters they encode
/// where they are valid UTF-8. What stands for an invalid sequence is the
/// standard library's to say, so of other bytes the result only has a name.
#[verifier::external_body]
pub(crate) fn lossy_text(bytes: &[u8]) -> (text: String)
    ensures
        text@ == lossy_utf8(bytes@),
        vstd::utf8::valid_utf8(bytes@) ==> text@ == vstd::utf8::decode_utf8(bytes@),
{
    String::from_utf8_lossy(bytes).into_owned()
}

proof fn before_nul_is_prefix(bytes: Seq<u8>, end: int)
    requires
        0 <= end <= bytes.len(),
        forall|i: int| 0 <= i < end ==> bytes[i] != 0,
        end < bytes.len() ==> bytes[end] == 0,
    ensures
        before_nul(bytes) == bytes.take(end),
    decreases bytes.len(),
{
    if end == 0 {
        assert(before_nul(bytes) =~= bytes.take(0));
    } else {
        let rest = bytes.skip(1);
        assert forall|i: int| 0 <= i < end - 1 implies rest[i] != 0 by {
            assert(rest[i] == bytes[i + 1]);
        }
        before_nul_is_prefix(rest, end - 1);
        assert(seq![bytes[0]] + rest.take(end - 1) =~= bytes.take(end));
    }
}

/// `bytes` with zeros up to the width of a symbol.
pub open spec fn symbol_field(bytes: Seq<u8>) -> Seq<u8> {
    bytes + record::zeros((SYMBOL_LEN - bytes.len()) as nat)
}

impl InstrumentEntry {
    /// Builds an entry from an instrument and a symbol.
    pub fn new(instrument: Instrument, symbol: &str) -> (entry: Result<InstrumentEntry, CodecError>)
        ensures
            match entry {
                Ok(e) => {
                    &&& vstd::utf8::encode_utf8(symbol@).len() <= SYMBOL_LEN
                    &&& e@ == (EntryView {
                        id: instrument.id,
                        symbol: symbol_field(vstd::utf8::encode_utf8(symbol@)),
                        tick: instrument.tick,
                        lot: instrument.lot,
                        min_qty: instrument.min_qty,
                    })
                },
                Err(e) => {
                    &&& vstd::utf8::encode_utf8(symbol@).len() > SYMBOL_LEN
                    &&& e == (CodecError::SymbolTooLong {
                        len: vstd::utf8::encode_utf8(symbol@).len() as usize,
                        max: SYMBOL_LEN,
                    })
                },
            },
    {
        let bytes = symbol.as_bytes();
        if bytes.len() > SYMBOL_LEN {
            return Err(CodecError::SymbolTooLong { len: bytes.len(), max: SYMBOL_LEN });
        }
        let mut padded: [u8; SYMBOL_LEN] = [0;SYMBOL_LEN];
        let mut i: usize = 0;
        while i < bytes.len()
            invariant
                i <= bytes@.len() <= SYMBOL_LEN,
                padded@.len() == SYMBOL_LEN,
                forall|k: int| 0 <= k < i ==> padded@[k] == bytes@[k],
                forall|k: int| i <= k < SYMBOL_LEN ==> padded@[k] == 0,
            decreases bytes@.len() - i,
        {
            padded[i] = bytes[i];
            i += 1;
        }
        assert(padded@ =~= symbol_field(vstd::utf8::encode_utf8(symbol@)));
        Ok(
            InstrumentEntry {
                id: instrument.id,
                symbol: padded,
                tick: instrument.tick,
                lot: instrument.lot,
                min_qty: instrument.min_qty,
            },
        )
    }

    /// How many bytes the symbol has before its padding.
    pub(crate) fn symbol_end(&self) -> (end: usize)
        ensures
            end <= SYMBOL_LEN,
            self.symbol@.take(end as int) == self@.symbol_bytes(),
    {
        let mut end: usize = 0;
        while end < SYMBOL_LEN && self.symbol[end] != 0
            invariant
                end <= SYMBOL_LEN,
                forall|i: int| 0 <= i < end ==> self.symbol@[i] != 0,
            decreases SYMBOL_LEN - end,
        {
            end += 1;
        }
        proof {
            before_nul_is_prefix(self.symbol@, end as int);
        }
        end
    }

    /// The symbol with its padding removed. `None` if the recorded bytes are
    /// not UTF-8, which is a corrupt header rather than an odd symbol.
    pub fn symbol_str(&self) -> (symbol: Option<&str>)
        ensures
            match symbol {
                Some(s) => vstd::utf8::valid_utf8(self@.symbol_bytes()) && s@
                    == vstd::utf8::decode_utf8(self@.symbol_bytes()),
                None => !vstd::utf8::valid_utf8(self@.symbol_bytes()),
            },
    {
        let end: usize = self.symbol_end();
        utf8_text(vstd::slice::slice_subrange(self.symbol.as_slice(), 0, end))
    }

    /// The symbol, with what is not text in it replaced.
    pub fn symbol_lossy(&self) -> (symbol: String)
        ensures
            symbol@ == lossy_utf8(self@.symbol_bytes()),
            vstd::utf8::valid_utf8(self@.symbol_bytes()) ==> symbol@ == vstd::utf8::decode_utf8(
                self@.symbol_bytes(),
            ),
    {
        let end: usize = self.symbol_end();
        lossy_text(vstd::slice::slice_subrange(self.symbol.as_slice(), 0, end))
    }

    /// Whether this entry describes the same contract as `instrument`.
    pub(crate) fn describes(&self, instrument: Instrument) -> (same: bool)
        ensures
            same == self@.describes(instrument),
    {
        self.id == instrument.id && self.tick == instrument.tick && self.lot == instrument.lot
            && self.min_qty == instrument.min_qty
    }
}

/// What a recorded session was recorded under.
#[derive(Debug, Clone, PartialEq, Eq)]
pub struct LogHeader {
    /// The format the file was written in.
    pub format_version: u16,
    /// Which session this is. Supplied by the caller, never by a clock or a
    /// random source.
    pub session_id: u64,
    /// The exchange time the session started at.
    pub session_start: ExchangeTime,
    /// The id the session's first order received.
    pub first_order_id: OrderId,
    /// Every instrument the session could trade, in id order.
    pub instruments: Vec<InstrumentEntry>,
}

/// What a header says.
#[verifier::ext_equal]
pub struct HeaderView {
    pub format_version: u16,
    pub session_id: u64,
    pub session_start: ExchangeTime,
    pub first_order_id: OrderId,
    pub instruments: Seq<EntryView>,
}

impl View for LogHeader {
    type V = HeaderView;

    open spec fn view(&self) -> HeaderView {
        HeaderView {
            format_version: self.format_version,
            session_id: self.session_id,
            session_start: self.session_start,
            first_order_id: self.first_order_id,
            instruments: entry_views(self.instruments@),
        }
    }
}

/// What each of several entries says.
pub open spec fn entry_views(entries: Seq<InstrumentEntry>) -> Seq<EntryView> {
    entries.map_values(|e: InstrumentEntry| e@)
}

/// The bytes of an entry.
pub open spec fn entry_bytes(entry: EntryView) -> Seq<u8> {
    bytes::le(entry.id.0 as nat, 4) + entry.symbol + bytes::i64_le(entry.tick.0) + bytes::i64_le(
        entry.lot.0,
    ) + bytes::i64_le(entry.min_qty.0) + record::zeros(4)
}

/// The bytes of several entries.
pub open spec fn entries_bytes(entries: Seq<EntryView>) -> Seq<u8>
    decreases entries.len(),
{
    if entries.len() == 0 {
        Seq::empty()
    } else {
        entries_bytes(entries.drop_last()) + entry_bytes(entries.last())
    }
}

/// How long a header of `count` instruments is.
pub open spec fn header_len(count: nat) -> nat {
    FIXED_LEN as nat + count * (ENTRY_LEN as nat)
}

impl HeaderView {
    /// The bytes before the entries.
    pub open spec fn fixed_bytes(self) -> Seq<u8> {
        magic_bytes() + bytes::le(self.format_version as nat, 2) + bytes::le(RECORD_LEN as nat, 2)
            + bytes::le(header_len(self.instruments.len()), 4) + bytes::le(self.session_id as nat, 8)
            + bytes::i64_le(self.session_start.0) + bytes::le(self.first_order_id.0 as nat, 8)
            + bytes::le(self.instruments.len(), 4) + record::zeros(4)
    }

    /// The bytes of a header.
    pub open spec fn encoded(self) -> Seq<u8> {
        self.fixed_bytes() + entries_bytes(self.instruments)
    }

    /// Whether the header has the size that its length fields can state.
    pub open spec fn fits(self) -> bool {
        header_len(self.instruments.len()) <= u32::MAX
    }
}

/// The entry in the bytes of `b` from `at`, and whether its reserved bytes are
/// zero.
pub open spec fn entry_at(b: Seq<u8>, at: int) -> EntryView {
    EntryView {
        id: InstrumentId(bytes::uint_at(b, at, 4) as u32),
        symbol: b.subrange(at + 4, at + 20),
        tick: Px(bytes::i64_at(b, at + 20)),
        lot: Qty(bytes::i64_at(b, at + 28)),
        min_qty: Qty(bytes::i64_at(b, at + 36)),
    }
}

/// Whether the reserved bytes of the entry at `at` are zero.
pub open spec fn entry_reserved_ok(b: Seq<u8>, at: int) -> bool {
    b.subrange(at + 44, at + 48) == record::zeros(4)
}

/// Where the entry `index` stands.
pub open spec fn entry_offset(index: int) -> int {
    FIXED_LEN + index * ENTRY_LEN
}

/// What the start of `b` decodes as.
pub open spec fn header_of(b: Seq<u8>) -> Result<HeaderView, CodecError> {
    let version = bytes::uint_at(b, 8, 2) as u16;
    let record_len = bytes::uint_at(b, 10, 2) as u16;
    let declared = bytes::uint_at(b, 12, 4) as usize;
    let count = bytes::uint_at(b, 40, 4) as usize;
    let computed = header_len(count as nat) as usize;
    if b.len() < FIXED_LEN {
        Err(CodecError::ShortBuffer { needed: FIXED_LEN, found: b.len() as usize })
    } else if b.take(8) != magic_bytes() {
        Err(CodecError::BadMagic)
    } else if version > FORMAT_VERSION {
        Err(CodecError::UnsupportedVersion(version))
    } else if record_len != RECORD_LEN {
        Err(CodecError::UnexpectedRecordLen(record_len))
    } else if count > MAX_INSTRUMENTS {
        Err(CodecError::TooManyInstruments { count, max: MAX_INSTRUMENTS })
    } else if b.subrange(44, 48) != record::zeros(4) {
        Err(CodecError::ReservedNotZero)
    } else if declared != computed {
        Err(CodecError::HeaderLengthMismatch { declared, computed })
    } else if b.len() < computed {
        Err(CodecError::ShortBuffer { needed: computed, found: b.len() as usize })
    } else if exists|i: int| 0 <= i < count && !#[trigger] entry_reserved_ok(b, entry_offset(i)) {
        Err(CodecError::ReservedNotZero)
    } else {
        Ok(
            HeaderView {
                format_version: version,
                session_id: bytes::uint_at(b, 16, 8) as u64,
                session_start: ExchangeTime(bytes::i64_at(b, 24)),
                first_order_id: OrderId(bytes::uint_at(b, 32, 8) as u64),
                instruments: Seq::new(count as nat, |i: int| entry_at(b, entry_offset(i))),
            },
        )
    }
}

impl LogHeader {
    /// A header for a session about to be recorded.
    pub fn new(
        session_id: u64,
        session_start: ExchangeTime,
        first_order_id: OrderId,
        instruments: Vec<InstrumentEntry>,
    ) -> (header: LogHeader)
        ensures
            header@ == (HeaderView {
                format_version: FORMAT_VERSION,
                session_id,
                session_start,
                first_order_id,
                instruments: entry_views(instruments@),
            }),
    {
        LogHeader {
            format_version: FORMAT_VERSION,
            session_id,
            session_start,
            first_order_id,
            instruments,
        }
    }

    /// How many bytes this header occupies, and therefore where record 0 sits.
    pub fn encoded_len(&self) -> (len: usize)
        requires
            self@.fits(),
        ensures
            len == header_len(self@.instruments.len()),
    {
        FIXED_LEN + self.instruments.len() * ENTRY_LEN
    }

    /// The byte offset of the record at `index`: seeking is arithmetic.
    pub fn offset_of(&self, index: u64) -> (offset: u64)
        requires
            self@.fits(),
            header_len(self@.instruments.len()) + index * RECORD_LEN <= u64::MAX,
        ensures
            offset == header_len(self@.instruments.len()) + index * RECORD_LEN,
    {
        self.encoded_len() as u64 + index * RECORD_LEN as u64
    }

    /// Appends the encoded header to `out`.
    pub fn encode(&self, out: &mut Vec<u8>)
        requires
            self@.fits(),
        ensures
            final(out)@ == old(out)@ + self@.encoded(),
    {
        broadcast use bytes::le_len;

        let len: usize = self.encoded_len();
        let count: usize = self.instruments.len();
        let mut fixed: [u8; FIXED_LEN] = [0;FIXED_LEN];
        {
            let mut w = Writer::new(&mut fixed);
            w.bytes(magic().as_slice());
            w.u16(self.format_version);
            w.u16(RECORD_LEN as u16);
            w.u32(len as u32);
            w.u64(self.session_id);
            w.i64(self.session_start.to_nanos());
            w.u64(self.first_order_id.raw());
            w.u32(count as u32);
            w.u32(0);
            assert(bytes::le(0, 4) =~= record::zeros(4)) by {
                reveal_with_fuel(bytes::le, 5);
            }
            assert(w.done() =~= self@.fixed_bytes());
            assert(w.done() =~= w.buf@);
        }
        append(out, fixed.as_slice());

        let mut i: usize = 0;
        assert(self@.instruments.take(0) =~= Seq::empty());
        assert(out@ =~= old(out)@ + self@.fixed_bytes() + entries_bytes(Seq::empty()));
        while i < count
            invariant
                i <= count == self.instruments@.len(),
                out@ == old(out)@ + self@.fixed_bytes() + entries_bytes(
                    self@.instruments.take(i as int),
                ),
            decreases count - i,
        {
            let block = entry_block(&self.instruments[i]);
            append(out, block.as_slice());
            proof {
                let next = self@.instruments.take(i + 1);
                assert(next.drop_last() =~= self@.instruments.take(i as int));
                assert(next.last() == self.instruments@[i as int]@);
            }
            i += 1;
        }
        assert(self@.instruments.take(i as int) =~= self@.instruments);
        assert(out@ =~= old(out)@ + self@.encoded());
    }
}

/// The bytes of one entry.
fn entry_block(entry: &InstrumentEntry) -> (block: [u8; ENTRY_LEN])
    ensures
        block@ == entry_bytes(entry@),
{
    broadcast use bytes::le_len;

    let mut block: [u8; ENTRY_LEN] = [0;ENTRY_LEN];
    {
        let mut e = Writer::new(&mut block);
        e.u32(entry.id.raw());
        e.bytes(entry.symbol.as_slice());
        e.i64(entry.tick.to_scaled());
        e.i64(entry.lot.to_scaled());
        e.i64(entry.min_qty.to_scaled());
        e.u32(0);
        assert(bytes::le(0, 4) =~= record::zeros(4)) by {
            reveal_with_fuel(bytes::le, 5);
        }
        assert(e.done() =~= entry_bytes(entry@));
        assert(e.done() =~= e.buf@);
    }
    block
}

/// Appends `bytes` to `out`.
pub(crate) fn append(out: &mut Vec<u8>, bytes: &[u8])
    ensures
        final(out)@ == old(out)@ + bytes@,
{
    out.extend_from_slice(bytes);
    assert(out@ =~= old(out)@ + bytes@);
}

/// Reads the entry at `at`, refusing reserved bytes that are not zero.
fn read_entry(bytes: &[u8], at: usize) -> (entry: Result<InstrumentEntry, CodecError>)
    requires
        at + ENTRY_LEN <= bytes@.len(),
    ensures
        match entry {
            Ok(e) => entry_reserved_ok(bytes@, at as int) && e@ == entry_at(bytes@, at as int),
            Err(e) => !entry_reserved_ok(bytes@, at as int) && e == CodecError::ReservedNotZero,
        },
{
    let total: usize = bytes.len();
    assert(at + ENTRY_LEN <= total);
    let window = vstd::slice::slice_subrange(bytes, at, at + ENTRY_LEN);
    let mut e = Reader::new(window);
    let id = InstrumentId::new(e.u32()?);
    let recorded = e.bytes(SYMBOL_LEN)?;
    let mut symbol: [u8; SYMBOL_LEN] = [0;SYMBOL_LEN];
    let mut i: usize = 0;
    while i < SYMBOL_LEN
        invariant
            i <= SYMBOL_LEN,
            recorded@.len() == SYMBOL_LEN,
            symbol@.len() == SYMBOL_LEN,
            forall|k: int| 0 <= k < i ==> symbol@[k] == recorded@[k],
        decreases SYMBOL_LEN - i,
    {
        symbol[i] = recorded[i];
        i += 1;
    }
    let tick = Px::from_scaled(e.i64()?);
    let lot = Qty::from_scaled(e.i64()?);
    let min_qty = Qty::from_scaled(e.i64()?);
    proof {
        let w = window@;
        let a = at as int;
        assert(w.subrange(0, 4) =~= bytes@.subrange(a, a + 4));
        assert(symbol@ =~= bytes@.subrange(a + 4, a + 20));
        assert(w.subrange(20, 28) =~= bytes@.subrange(a + 20, a + 28));
        assert(w.subrange(28, 36) =~= bytes@.subrange(a + 28, a + 36));
        assert(w.subrange(36, 44) =~= bytes@.subrange(a + 36, a + 44));
        assert(w.subrange(44, 48) =~= bytes@.subrange(a + 44, a + 48));
    }
    if !all_zero(vstd::slice::slice_subrange(window, e.position(), ENTRY_LEN)) {
        return Err(CodecError::ReservedNotZero);
    }
    Ok(InstrumentEntry { id, symbol, tick, lot, min_qty })
}

/// Whether two byte slices are the same.
fn same_bytes(a: &[u8], b: &[u8]) -> (same: bool)
    ensures
        same == (a@ == b@),
{
    if a.len() != b.len() {
        return false;
    }
    let mut i: usize = 0;
    while i < a.len()
        invariant
            i <= a@.len() == b@.len(),
            forall|k: int| 0 <= k < i ==> a@[k] == b@[k],
        decreases a@.len() - i,
    {
        if a[i] != b[i] {
            return false;
        }
        i += 1;
    }
    assert(a@ =~= b@);
    true
}

impl LogHeader {
    /// Reads a header from the start of `bytes`.
    pub fn decode(bytes: &[u8]) -> (header: Result<LogHeader, CodecError>)
        ensures
            match header {
                Ok(h) => header_of(bytes@) == Ok::<HeaderView, CodecError>(h@),
                Err(e) => header_of(bytes@) == Err::<HeaderView, CodecError>(e),
            },
    {
        if bytes.len() < FIXED_LEN {
            return Err(CodecError::ShortBuffer { needed: FIXED_LEN, found: bytes.len() });
        }
        let fixed = vstd::slice::slice_subrange(bytes, 0, FIXED_LEN);
        proof {
            let b = bytes@;
            let f = fixed@;
            assert(f.subrange(0, 8) =~= b.take(8));
            assert(f.subrange(8, 10) =~= b.subrange(8, 10));
            assert(f.subrange(10, 12) =~= b.subrange(10, 12));
            assert(f.subrange(12, 16) =~= b.subrange(12, 16));
            assert(f.subrange(16, 24) =~= b.subrange(16, 24));
            assert(f.subrange(24, 32) =~= b.subrange(24, 32));
            assert(f.subrange(32, 40) =~= b.subrange(32, 40));
            assert(f.subrange(40, 44) =~= b.subrange(40, 44));
            assert(f.subrange(44, 48) =~= b.subrange(44, 48));
        }
        let mut r = Reader::new(fixed);
        if !same_bytes(r.bytes(8)?, magic().as_slice()) {
            return Err(CodecError::BadMagic);
        }
        let format_version: u16 = r.u16()?;
        if format_version > FORMAT_VERSION {
            return Err(CodecError::UnsupportedVersion(format_version));
        }
        let record_len: u16 = r.u16()?;
        if record_len as usize != RECORD_LEN {
            return Err(CodecError::UnexpectedRecordLen(record_len));
        }
        let declared: usize = r.u32()? as usize;
        let session_id: u64 = r.u64()?;
        let session_start = ExchangeTime::from_nanos(r.i64()?);
        let first_order_id = OrderId::new(r.u64()?);
        let count: usize = r.u32()? as usize;
        if count > MAX_INSTRUMENTS {
            return Err(CodecError::TooManyInstruments { count, max: MAX_INSTRUMENTS });
        }
        if !all_zero(vstd::slice::slice_subrange(fixed, r.position(), FIXED_LEN)) {
            return Err(CodecError::ReservedNotZero);
        }
        let computed: usize = FIXED_LEN + count * ENTRY_LEN;
        if declared != computed {
            return Err(CodecError::HeaderLengthMismatch { declared, computed });
        }
        if bytes.len() < computed {
            return Err(CodecError::ShortBuffer { needed: computed, found: bytes.len() });
        }
        let mut instruments: Vec<InstrumentEntry> = Vec::with_capacity(count);
        let mut index: usize = 0;
        while index < count
            invariant
                index <= count <= MAX_INSTRUMENTS,
                computed == FIXED_LEN + count * ENTRY_LEN,
                computed <= bytes@.len(),
                instruments@.len() == index,
                forall|i: int|
                    0 <= i < index ==> #[trigger] entry_reserved_ok(bytes@, entry_offset(i)),
                forall|i: int|
                    0 <= i < index ==> (#[trigger] instruments@[i])@ == entry_at(
                        bytes@,
                        entry_offset(i),
                    ),
                bytes@.len() >= FIXED_LEN,
                header_prefix_ok(bytes@, count as int),
            decreases count - index,
        {
            let at: usize = FIXED_LEN + index * ENTRY_LEN;
            assert(at == entry_offset(index as int));
            match read_entry(bytes, at) {
                Ok(entry) => {
                    instruments.push(entry);
                },
                Err(e) => {
                    assert(!entry_reserved_ok(bytes@, entry_offset(index as int)));
                    return Err(e);
                },
            }
            index += 1;
        }
        let header = LogHeader {
            format_version,
            session_id,
            session_start,
            first_order_id,
            instruments,
        };
        assert(header@.instruments =~= Seq::new(
            count as nat,
            |i: int| entry_at(bytes@, entry_offset(i)),
        ));
        Ok(header)
    }

    /// Checks this header against the instruments a session is configured
    /// with. Without it an instrument id in the file would silently mean
    /// whatever that id is in the current configuration.
    pub fn check_against(&self, instruments: &[Instrument]) -> (checked: Result<(), CodecError>)
        ensures
            checked == matches_configured(self@.instruments, instruments@),
    {
        if self.instruments.len() != instruments.len() {
            return Err(
                CodecError::InstrumentCountMismatch {
                    recorded: self.instruments.len(),
                    configured: instruments.len(),
                },
            );
        }
        let mut i: usize = 0;
        while i < instruments.len()
            invariant
                i <= instruments@.len() == self.instruments@.len(),
                first_mismatch(self@.instruments, instruments@, 0) == first_mismatch(
                    self@.instruments,
                    instruments@,
                    i as int,
                ),
            decreases instruments@.len() - i,
        {
            assert(self@.instruments[i as int] == self.instruments@[i as int]@);
            if !self.instruments[i].describes(instruments[i]) {
                return Err(CodecError::InstrumentMismatch { id: instruments[i].id });
            }
            i += 1;
        }
        Ok(())
    }
}

/// That every check before the entries passes for `count` of them.
spec fn header_prefix_ok(b: Seq<u8>, count: int) -> bool {
    &&& b.take(8) == magic_bytes()
    &&& bytes::uint_at(b, 8, 2) as u16 <= FORMAT_VERSION
    &&& bytes::uint_at(b, 10, 2) as u16 == RECORD_LEN
    &&& bytes::uint_at(b, 40, 4) as usize == count
    &&& b.subrange(44, 48) == record::zeros(4)
    &&& bytes::uint_at(b, 12, 4) as usize == header_len(count as nat)
}

/// The first position from `from` on where an entry does not describe the
/// instrument configured there.
pub open spec fn first_mismatch(
    entries: Seq<EntryView>,
    instruments: Seq<Instrument>,
    from: int,
) -> Option<int>
    decreases entries.len() - from,
{
    if from >= entries.len() || from >= instruments.len() {
        None
    } else if !entries[from].describes(instruments[from]) {
        Some(from)
    } else {
        first_mismatch(entries, instruments, from + 1)
    }
}

/// Whether a recording's entries are the instruments configured, and how they
/// first differ.
pub open spec fn matches_configured(
    entries: Seq<EntryView>,
    instruments: Seq<Instrument>,
) -> Result<(), CodecError> {
    if entries.len() != instruments.len() {
        Err(
            CodecError::InstrumentCountMismatch {
                recorded: entries.len() as usize,
                configured: instruments.len() as usize,
            },
        )
    } else {
        match first_mismatch(entries, instruments, 0) {
            None => Ok(()),
            Some(i) => Err(CodecError::InstrumentMismatch { id: instruments[i].id }),
        }
    }
}

proof fn entries_bytes_at(entries: Seq<EntryView>, i: int)
    requires
        forall|k: int| 0 <= k < entries.len() ==> (#[trigger] entries[k]).symbol.len() == SYMBOL_LEN,
    ensures
        entries_bytes(entries).len() == entries.len() * ENTRY_LEN,
        0 <= i < entries.len() ==> entries_bytes(entries).subrange(
            i * ENTRY_LEN,
            i * ENTRY_LEN + ENTRY_LEN,
        ) == entry_bytes(entries[i]),
    decreases entries.len(),
{
    broadcast use bytes::le_len;

    if entries.len() > 0 {
        let init = entries.drop_last();
        entries_bytes_at(init, i);
        assert(entries.last() == entries[entries.len() - 1]);
        let all = entries_bytes(entries);
        if i == entries.len() - 1 {
            assert(all.subrange(i * ENTRY_LEN, i * ENTRY_LEN + ENTRY_LEN) =~= entry_bytes(
                entries[i],
            ));
        } else if 0 <= i < entries.len() {
            assert(i * ENTRY_LEN + ENTRY_LEN <= init.len() * ENTRY_LEN);
            assert(all.subrange(i * ENTRY_LEN, i * ENTRY_LEN + ENTRY_LEN) =~= entries_bytes(
                init,
            ).subrange(i * ENTRY_LEN, i * ENTRY_LEN + ENTRY_LEN));
        }
    }
}

proof fn entry_reads_back(b: Seq<u8>, at: int, entry: EntryView)
    requires
        0 <= at,
        at + ENTRY_LEN <= b.len(),
        entry.symbol.len() == SYMBOL_LEN,
        b.subrange(at, at + ENTRY_LEN) == entry_bytes(entry),
    ensures
        entry_at(b, at) == entry,
        entry_reserved_ok(b, at),
{
    broadcast use bytes::le_len;

    bytes::spans();
    let w = b.subrange(at, at + ENTRY_LEN);
    assert(b.subrange(at, at + 4) =~= w.subrange(0, 4));
    assert(w.subrange(0, 4) =~= bytes::le(entry.id.0 as nat, 4));
    bytes::uint_reads_back(b, at, entry.id.0 as nat, 4);
    assert(b.subrange(at + 4, at + 20) =~= w.subrange(4, 20));
    assert(w.subrange(4, 20) =~= entry.symbol);
    assert(b.subrange(at + 20, at + 28) =~= w.subrange(20, 28));
    assert(w.subrange(20, 28) =~= bytes::i64_le(entry.tick.0));
    bytes::i64_reads_back(b, at + 20, entry.tick.0);
    assert(b.subrange(at + 28, at + 36) =~= w.subrange(28, 36));
    assert(w.subrange(28, 36) =~= bytes::i64_le(entry.lot.0));
    bytes::i64_reads_back(b, at + 28, entry.lot.0);
    assert(b.subrange(at + 36, at + 44) =~= w.subrange(36, 44));
    assert(w.subrange(36, 44) =~= bytes::i64_le(entry.min_qty.0));
    bytes::i64_reads_back(b, at + 36, entry.min_qty.0);
    assert(b.subrange(at + 44, at + 48) =~= w.subrange(44, 48));
    assert(w.subrange(44, 48) =~= record::zeros(4));
}

/// What the fields before the entries say.
spec fn fixed_reads(b: Seq<u8>, header: HeaderView) -> bool {
    &&& b.take(8) == magic_bytes()
    &&& bytes::uint_at(b, 8, 2) == header.format_version
    &&& bytes::uint_at(b, 10, 2) == RECORD_LEN
    &&& bytes::uint_at(b, 12, 4) == header_len(header.instruments.len())
    &&& bytes::uint_at(b, 16, 8) == header.session_id
    &&& bytes::i64_at(b, 24) == header.session_start.0
    &&& bytes::uint_at(b, 32, 8) == header.first_order_id.0
    &&& bytes::uint_at(b, 40, 4) == header.instruments.len()
    &&& b.subrange(44, 48) == record::zeros(4)
}

proof fn fixed_reads_back(b: Seq<u8>, header: HeaderView)
    requires
        header.instruments.len() <= MAX_INSTRUMENTS,
        b.len() >= FIXED_LEN,
        b.take(FIXED_LEN as int) == header.fixed_bytes(),
    ensures
        fixed_reads(b, header),
{
    broadcast use bytes::le_len;

    bytes::spans();
    let count = header.instruments.len();
    let f = b.take(FIXED_LEN as int);
    assert(b.take(8) =~= f.take(8));
    assert(f.take(8) =~= magic_bytes());
    assert(b.subrange(8, 10) =~= f.subrange(8, 10));
    assert(f.subrange(8, 10) =~= bytes::le(header.format_version as nat, 2));
    bytes::uint_reads_back(b, 8, header.format_version as nat, 2);
    assert(b.subrange(10, 12) =~= f.subrange(10, 12));
    assert(f.subrange(10, 12) =~= bytes::le(RECORD_LEN as nat, 2));
    bytes::uint_reads_back(b, 10, RECORD_LEN as nat, 2);
    assert(b.subrange(12, 16) =~= f.subrange(12, 16));
    assert(f.subrange(12, 16) =~= bytes::le(header_len(count), 4));
    bytes::uint_reads_back(b, 12, header_len(count), 4);
    assert(b.subrange(16, 24) =~= f.subrange(16, 24));
    assert(f.subrange(16, 24) =~= bytes::le(header.session_id as nat, 8));
    bytes::uint_reads_back(b, 16, header.session_id as nat, 8);
    assert(b.subrange(24, 32) =~= f.subrange(24, 32));
    assert(f.subrange(24, 32) =~= bytes::i64_le(header.session_start.0));
    bytes::i64_reads_back(b, 24, header.session_start.0);
    assert(b.subrange(32, 40) =~= f.subrange(32, 40));
    assert(f.subrange(32, 40) =~= bytes::le(header.first_order_id.0 as nat, 8));
    bytes::uint_reads_back(b, 32, header.first_order_id.0 as nat, 8);
    assert(b.subrange(40, 44) =~= f.subrange(40, 44));
    assert(f.subrange(40, 44) =~= bytes::le(count, 4));
    bytes::uint_reads_back(b, 40, count, 4);
    assert(b.subrange(44, 48) =~= f.subrange(44, 48));
    assert(f.subrange(44, 48) =~= record::zeros(4));
}

/// Whether a header is one that this build writes and reads: not of a newer
/// format, not too long, every symbol of the field's width.
pub open spec fn readable(header: HeaderView) -> bool {
    &&& header.format_version <= FORMAT_VERSION
    &&& header.instruments.len() <= MAX_INSTRUMENTS
    &&& forall|i: int|
        0 <= i < header.instruments.len() ==> (#[trigger] header.instruments[i]).symbol.len()
            == SYMBOL_LEN
}

/// A header reads back as what was written, whatever follows it in the file.
pub proof fn header_round_trips(header: HeaderView, rest: Seq<u8>)
    requires
        readable(header),
    ensures
        header.encoded().len() == header_len(header.instruments.len()),
        header_of(header.encoded() + rest) == Ok::<HeaderView, CodecError>(header),
{
    broadcast use bytes::le_len;

    let entries = header.instruments;
    let count = entries.len();
    let b = header.encoded() + rest;
    entries_bytes_at(entries, 0);
    assert(header.fixed_bytes().len() == FIXED_LEN);
    assert(b.take(FIXED_LEN as int) =~= header.fixed_bytes());
    fixed_reads_back(b, header);
    assert forall|i: int| 0 <= i < count implies #[trigger] entry_reserved_ok(b, entry_offset(i))
        && entry_at(b, entry_offset(i)) == entries[i] by {
        let at = entry_offset(i);
        entries_bytes_at(entries, i);
        assert(at + ENTRY_LEN <= FIXED_LEN + count * ENTRY_LEN);
        assert(b.subrange(at, at + ENTRY_LEN) =~= entries_bytes(entries).subrange(
            i * ENTRY_LEN,
            i * ENTRY_LEN + ENTRY_LEN,
        ));
        entry_reads_back(b, at, entries[i]);
    }
    let read = Seq::new(count, |i: int| entry_at(b, entry_offset(i)));
    assert forall|i: int| 0 <= i < count implies read[i] == entries[i] by {
        assert(entry_reserved_ok(b, entry_offset(i)));
    }
    assert(read =~= entries);
}

/// The start of a header that has its fixed part and not all its entries is
/// refused with the length that the whole header needs.
pub proof fn header_prefix_names_its_length(header: HeaderView, len: int)
    requires
        readable(header),
        FIXED_LEN <= len < header_len(header.instruments.len()),
    ensures
        header_of(header.encoded().take(len)) == Err::<HeaderView, CodecError>(
            CodecError::ShortBuffer {
                needed: header_len(header.instruments.len()) as usize,
                found: len as usize,
            },
        ),
{
    broadcast use bytes::le_len;

    entries_bytes_at(header.instruments, 0);
    let b = header.encoded().take(len);
    assert(header.fixed_bytes().len() == FIXED_LEN);
    assert(b.take(FIXED_LEN as int) =~= header.fixed_bytes());
    fixed_reads_back(b, header);
}

/// What decodes as a header holds all of it.
pub proof fn decoded_header_is_whole(b: Seq<u8>)
    requires
        header_of(b) is Ok,
    ensures
        header_len(header_of(b)->Ok_0.instruments.len()) <= b.len(),
        header_of(b)->Ok_0.instruments.len() <= MAX_INSTRUMENTS,
        header_of(b)->Ok_0.fits(),
{
}

/// A symbol of at most the field's width with no NUL in it is read back as it
/// was given.
pub proof fn symbol_round_trips(symbol: Seq<char>)
    requires
        vstd::utf8::encode_utf8(symbol).len() <= SYMBOL_LEN,
        !vstd::utf8::encode_utf8(symbol).contains(0u8),
    ensures
        before_nul(symbol_field(vstd::utf8::encode_utf8(symbol))) == vstd::utf8::encode_utf8(symbol),
        vstd::utf8::valid_utf8(vstd::utf8::encode_utf8(symbol)),
        vstd::utf8::decode_utf8(vstd::utf8::encode_utf8(symbol)) == symbol,
{
    broadcast use {vstd::utf8::encode_utf8_valid_utf8, vstd::utf8::encode_utf8_decode_utf8};

    let text = vstd::utf8::encode_utf8(symbol);
    let field = symbol_field(text);
    assert forall|i: int| 0 <= i < text.len() implies field[i] != 0 by {
        assert(text.contains(text[i]));
    }
    before_nul_is_prefix(field, text.len() as int);
    assert(field.take(text.len() as int) =~= text);
}

} // verus!
