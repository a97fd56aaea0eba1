//! The on-disk format for a recorded session: a header carrying the instrument
//! table the session ran under, followed by fixed-size records. Record *n* sits
//! at `header length + n * 80`, so seeking to a sequence number is arithmetic
//! and a torn tail is visible in the file length alone.
//!
//! The format is canonical: a record always encodes to the same bytes. Zeroed
//! bytes decode as nothing, and an unknown kind, flag or value is an error.
//!
//! Nothing here does I/O.
use vstd::prelude::*;

pub mod bytes;
pub mod crc32;
pub mod header;
pub mod layout;
pub mod record;
pub mod wire;

pub use crc32::crc32;
use crate::text;
use crate::text::{padded_string, Glyph, Text};
use crate::value::InstrumentId;
pub use header::{InstrumentEntry, LogHeader, SYMBOL_LEN};
pub use record::{decode_record, encode_record};

verus! {

/// Bytes per record. A fill's fee takes sixteen bytes, so the widest payload
/// needs 56 beside 16 of framing; the remaining 8 are reserved.
pub const RECORD_LEN: usize = 80;

/// What the codec refused. Every arm is a refusal to guess.
#[derive(Debug, Clone, Copy, PartialEq, Eq, Hash)]
pub enum CodecError {
    /// The buffer ran out before the fields did.
    ShortBuffer { needed: usize, found: usize },
    /// The record's checksum does not match its contents: what they hash to,
    /// and what the record claims.
    BadChecksum { expected: u32, found: u32 },
    /// A reserved field was not zero.
    ReservedNotZero,
    /// The record kind byte is not one this build knows.
    UnknownKind(u8),
    /// A flag bit is set that this build does not know.
    UnknownFlags(u8),
    /// A field's value is not a member of its enum.
    UnknownEnumValue { field: &'static str, value: u8 },
    /// The file does not start with the magic bytes.
    BadMagic,
    /// The file was written by a newer format than this build understands.
    UnsupportedVersion(u16),
    /// The header declares a record size this build cannot read.
    UnexpectedRecordLen(u16),
    /// The header's declared length does not match what its instrument count
    /// implies.
    HeaderLengthMismatch { declared: usize, computed: usize },
    /// The header claims more instruments than a header can hold.
    TooManyInstruments { count: usize, max: usize },
    /// A symbol does not fit the fixed-width field.
    SymbolTooLong { len: usize, max: usize },
    /// The recorded session and the configured one disagree on how many
    /// instruments there are.
    InstrumentCountMismatch { recorded: usize, configured: usize },
    /// The recorded session and the configured one disagree about an
    /// instrument's conventions.
    InstrumentMismatch { id: InstrumentId },
}

impl CodecError {
    /// The refusal in words.
    pub open spec fn words(self) -> Seq<Glyph> {
        match self {
            CodecError::ShortBuffer { needed, found } => text::glyphs_of("buffer holds "@)
                + text::glyphs_of(text::digits(found as nat)) + text::glyphs_of(" bytes, needed "@)
                + text::glyphs_of(text::digits(needed as nat)),
            CodecError::BadChecksum { expected, found } => text::glyphs_of("checksum 0x"@)
                + text::glyphs_of(text::base_padded(found as nat, 16, 8))
                + text::glyphs_of(" does not match 0x"@)
                + text::glyphs_of(text::base_padded(expected as nat, 16, 8)),
            CodecError::ReservedNotZero => text::glyphs_of("a reserved field was not zero"@),
            CodecError::UnknownKind(kind) => text::glyphs_of("unknown record kind "@)
                + text::glyphs_of(text::digits(kind as nat)),
            CodecError::UnknownFlags(flags) => text::glyphs_of("unknown flag bits 0b"@)
                + text::glyphs_of(text::base_padded(flags as nat, 2, 8)),
            CodecError::UnknownEnumValue { field, value } => text::glyphs_of(text::digits(value as nat))
                + text::glyphs_of(" is not a valid "@) + text::glyphs_of(field@),
            CodecError::BadMagic => text::glyphs_of("not an ultra_trade log"@),
            CodecError::UnsupportedVersion(v) => text::glyphs_of("format version "@)
                + text::glyphs_of(text::digits(v as nat))
                + text::glyphs_of(" is newer than this build"@),
            CodecError::UnexpectedRecordLen(len) => text::glyphs_of("record length "@)
                + text::glyphs_of(text::digits(len as nat)) + text::glyphs_of(" is not supported"@),
            CodecError::HeaderLengthMismatch { declared, computed } => text::glyphs_of("header declares "@)
                + text::glyphs_of(text::digits(declared as nat))
                + text::glyphs_of(" bytes, its contents imply "@)
                + text::glyphs_of(text::digits(computed as nat)),
            CodecError::TooManyInstruments { count, max } => text::glyphs_of(text::digits(count as nat))
                + text::glyphs_of(" instruments exceeds the maximum of "@)
                + text::glyphs_of(text::digits(max as nat)),
            CodecError::SymbolTooLong { len, max } => text::glyphs_of("symbol of "@)
                + text::glyphs_of(text::digits(len as nat))
                + text::glyphs_of(" bytes exceeds the maximum of "@)
                + text::glyphs_of(text::digits(max as nat)),
            CodecError::InstrumentCountMismatch { recorded, configured } => text::glyphs_of(
                "the log records "@,
            )
                + text::glyphs_of(text::digits(recorded as nat))
                + text::glyphs_of(" instruments, the session is configured with "@)
                + text::glyphs_of(text::digits(configured as nat)),
            CodecError::InstrumentMismatch { id } => text::glyphs_of("instrument "@)
                + seq![Glyph::Instrument(id)]
                + text::glyphs_of(" does not match the recorded conventions"@),
        }
    }

    /// The refusal in words.
    pub fn text(&self) -> (text: Text)
        ensures
            text@ == self.words(),
    {
        let mut t = Text::new();
        match self {
            CodecError::ShortBuffer { needed, found } => {
                t.lit("buffer holds ");
                t.number(*found as u128);
                t.lit(" bytes, needed ");
                t.number(*needed as u128);
            },
            CodecError::BadChecksum { expected, found } => {
                t.lit("checksum 0x");
                t.lit(padded_string(*found as u128, 16, 8).as_str());
                t.lit(" does not match 0x");
                t.lit(padded_string(*expected as u128, 16, 8).as_str());
            },
            CodecError::ReservedNotZero => {
                t.lit("a reserved field was not zero");
            },
            CodecError::UnknownKind(kind) => {
                t.lit("unknown record kind ");
                t.number(*kind as u128);
            },
            CodecError::UnknownFlags(flags) => {
                t.lit("unknown flag bits 0b");
                t.lit(padded_string(*flags as u128, 2, 8).as_str());
            },
            CodecError::UnknownEnumValue { field, value } => {
                t.number(*value as u128);
                t.lit(" is not a valid ");
                t.lit(field);
            },
            CodecError::BadMagic => {
                t.lit("not an ultra_trade log");
            },
            CodecError::UnsupportedVersion(v) => {
                t.lit("format version ");
                t.number(*v as u128);
                t.lit(" is newer than this build");
            },
            CodecError::UnexpectedRecordLen(len) => {
                t.lit("record length ");
                t.number(*len as u128);
                t.lit(" is not supported");
            },
            CodecError::HeaderLengthMismatch { declared, computed } => {
                t.lit("header declares ");
                t.number(*declared as u128);
                t.lit(" bytes, its contents imply ");
                t.number(*computed as u128);
            },
            CodecError::TooManyInstruments { count, max } => {
                t.number(*count as u128);
                t.lit(" instruments exceeds the maximum of ");
                t.number(*max as u128);
            },
            CodecError::SymbolTooLong { len, max } => {
                t.lit("symbol of ");
                t.number(*len as u128);
                t.lit(" bytes exceeds the maximum of ");
                t.number(*max as u128);
            },
            CodecError::InstrumentCountMismatch { recorded, configured } => {
                t.lit("the log records ");
                t.number(*recorded as u128);
                t.lit(" instruments, the session is configured with ");
                t.number(*configured as u128);
            },
            CodecError::InstrumentMismatch { id } => {
                t.lit("instrument ");
                t.instrument(*id);
                t.lit(" does not match the recorded conventions");
            },
        }
        assert(t@ =~= self.words());
        t
    }
}

} // verus!
