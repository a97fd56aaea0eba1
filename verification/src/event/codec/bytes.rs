//! Little-endian integers as byte sequences, and the cursors that write and
//! read them field by field.
use vstd::prelude::*;

use super::CodecError;

verus! {

/// `value` in `len` bytes, least significant first.
pub open spec fn le(value: nat, len: nat) -> Seq<u8>
    decreases len,
{
    if len == 0 {
        Seq::empty()
    } else {
        seq![(value % 256) as u8] + le(value / 256, (len - 1) as nat)
    }
}

/// The number whose bytes, least significant first, are `bytes`.
pub open spec fn of_le(bytes: Seq<u8>) -> nat
    decreases bytes.len(),
{
    if bytes.len() == 0 {
        0
    } else {
        bytes[0] as nat + 256 * of_le(bytes.skip(1))
    }
}

/// How many numbers `len` bytes can hold.
pub open spec fn span(len: nat) -> nat
    decreases len,
{
    if len == 0 {
        1
    } else {
        256 * span((len - 1) as nat)
    }
}

/// The two's-complement pattern of a 64-bit number.
pub open spec fn pattern64(value: i64) -> nat {
    if value < 0 {
        (value + 0x1_0000_0000_0000_0000) as nat
    } else {
        value as nat
    }
}

/// The 64-bit number of a two's-complement pattern.
pub open spec fn signed64(pattern: nat) -> i64 {
    if pattern >= 0x8000_0000_0000_0000 {
        (pattern - 0x1_0000_0000_0000_0000) as i64
    } else {
        pattern as i64
    }
}

/// The two's-complement pattern of a 128-bit number.
pub open spec fn pattern128(value: i128) -> nat {
    if value < 0 {
        (value + 0x1_0000_0000_0000_0000_0000_0000_0000_0000) as nat
    } else {
        value as nat
    }
}

/// The 128-bit number of a two's-complement pattern.
pub open spec fn signed128(pattern: nat) -> i128 {
    if pattern >= 0x8000_0000_0000_0000_0000_0000_0000_0000 {
        (pattern - 0x1_0000_0000_0000_0000_0000_0000_0000_0000) as i128
    } else {
        pattern as i128
    }
}

/// A signed 64-bit number in eight bytes.
pub open spec fn i64_le(value: i64) -> Seq<u8> {
    le(pattern64(value), 8)
}

/// A signed 128-bit number in sixteen bytes.
pub open spec fn i128_le(value: i128) -> Seq<u8> {
    le(pattern128(value), 16)
}

pub broadcast proof fn le_len(value: nat, len: nat)
    ensures
        #[trigger] le(value, len).len() == len,
    decreases len,
{
    if len > 0 {
        le_len(value / 256, (len - 1) as nat);
    }
}

/// Reading back what was written gives the number written, where it fits.
pub proof fn of_le_inverts_le(value: nat, len: nat)
    requires
        value < span(len),
    ensures
        of_le(le(value, len)) == value,
    decreases len,
{
    if len > 0 {
        let rest = le(value / 256, (len - 1) as nat);
        assert(value / 256 < span((len - 1) as nat));
        of_le_inverts_le(value / 256, (len - 1) as nat);
        assert(le(value, len).skip(1) =~= rest);
    }
}

/// Writing what was read gives the bytes read.
pub proof fn le_inverts_of_le(bytes: Seq<u8>)
    ensures
        le(of_le(bytes), bytes.len()) == bytes,
        of_le(bytes) < span(bytes.len()),
    decreases bytes.len(),
{
    if bytes.len() > 0 {
        let tail = bytes.skip(1);
        le_inverts_of_le(tail);
        let value = of_le(bytes);
        assert(value % 256 == bytes[0]);
        assert(value / 256 == of_le(tail));
        assert(seq![bytes[0]] + tail =~= bytes);
    } else {
        assert(le(of_le(bytes), 0) =~= bytes);
    }
}

/// The capacities of the widths in use.
pub proof fn spans()
    ensures
        span(1) == 0x100,
        span(2) == 0x1_0000,
        span(4) == 0x1_0000_0000,
        span(8) == 0x1_0000_0000_0000_0000,
        span(16) == 0x1_0000_0000_0000_0000_0000_0000_0000_0000,
{
    reveal_with_fuel(span, 9);
    assert(span(16) == 0x1_0000_0000_0000_0000 * span(8)) by {
        assert(span(16) == 256 * span(15));
        assert(span(15) == 256 * span(14));
        assert(span(14) == 256 * span(13));
        assert(span(13) == 256 * span(12));
        assert(span(12) == 256 * span(11));
        assert(span(11) == 256 * span(10));
        assert(span(10) == 256 * span(9));
        assert(span(9) == 256 * span(8));
    }
}

/// The unsigned number in the `len` bytes of `buf` from `at`.
pub open spec fn uint_at(buf: Seq<u8>, at: int, len: int) -> nat {
    of_le(buf.subrange(at, at + len))
}

/// The signed 64-bit number in the eight bytes of `buf` from `at`.
pub open spec fn i64_at(buf: Seq<u8>, at: int) -> i64 {
    signed64(uint_at(buf, at, 8))
}

/// The signed 128-bit number in the sixteen bytes of `buf` from `at`.
pub open spec fn i128_at(buf: Seq<u8>, at: int) -> i128 {
    signed128(uint_at(buf, at, 16))
}

/// An unsigned field reads back where its bytes stand.
pub proof fn uint_reads_back(buf: Seq<u8>, at: int, value: nat, len: nat)
    requires
        buf.subrange(at, at + len) == le(value, len),
        value < span(len),
    ensures
        uint_at(buf, at, len as int) == value,
{
    of_le_inverts_le(value, len);
}

/// A signed 64-bit field reads back where its bytes stand.
pub proof fn i64_reads_back(buf: Seq<u8>, at: int, value: i64)
    requires
        buf.subrange(at, at + 8) == i64_le(value),
    ensures
        i64_at(buf, at) == value,
{
    spans();
    of_le_inverts_le(pattern64(value), 8);
}

/// A signed 128-bit field reads back where its bytes stand.
pub proof fn i128_reads_back(buf: Seq<u8>, at: int, value: i128)
    requires
        buf.subrange(at, at + 16) == i128_le(value),
    ensures
        i128_at(buf, at) == value,
{
    spans();
    of_le_inverts_le(pattern128(value), 16);
}

proof fn span_grows(a: nat, b: nat)
    requires
        a <= b,
    ensures
        1 <= span(a) <= span(b),
    decreases b,
{
    if a < b {
        span_grows(a, (b - 1) as nat);
    } else if a > 0 {
        span_grows((a - 1) as nat, (b - 1) as nat);
    }
}

/// The number of at most sixteen bytes, least significant first.
fn value_of(bytes: &[u8]) -> (value: u128)
    requires
        bytes@.len() <= 16,
    ensures
        value == of_le(bytes@),
{
    let mut value: u128 = 0;
    let mut i: usize = bytes.len();
    assert(bytes@.skip(i as int) =~= Seq::empty());
    while i > 0
        invariant
            i <= bytes@.len() <= 16,
            value == of_le(bytes@.skip(i as int)),
        decreases i,
    {
        i -= 1;
        proof {
            assert(bytes@.skip(i as int).skip(1) =~= bytes@.skip(i + 1));
            le_inverts_of_le(bytes@.skip(i as int));
            span_grows((bytes@.len() - i) as nat, 16);
            spans();
        }
        value = value * 256 + bytes[i] as u128;
    }
    assert(bytes@.skip(0) =~= bytes@);
    value
}

/// Writes fields little-endian into a fixed buffer.
pub struct Writer<'a> {
    pub buf: &'a mut [u8],
    pub at: usize,
}

impl<'a> Writer<'a> {
    /// What stands in the buffer before the cursor.
    pub open spec fn done(self) -> Seq<u8> {
        self.buf@.take(self.at as int)
    }

    pub open spec fn well_formed(self) -> bool {
        self.at <= self.buf@.len()
    }

    /// That `after` is `self` once `bytes` were written.
    pub open spec fn wrote(self, after: Writer<'a>, bytes: Seq<u8>) -> bool {
        &&& after.well_formed()
        &&& after.buf@.len() == self.buf@.len()
        &&& after.at == self.at + bytes.len()
        &&& after.done() == self.done() + bytes
    }

    /// That `after` differs from `self` only before its cursor.
    pub open spec fn kept_rest(self, after: Writer<'a>) -> bool {
        forall|i: int|
            after.at <= i < self.buf@.len() ==> #[trigger] after.buf@[i] == self.buf@[i]
    }

    /// How many bytes are left to write.
    pub open spec fn room(self) -> int {
        self.buf@.len() - self.at
    }

    /// A cursor at the start of `buf`.
    pub fn new(buf: &'a mut [u8]) -> (writer: Writer<'a>)
        ensures
            writer.at == 0,
            writer.well_formed(),
            writer.buf@ == old(buf)@,
            final(writer.buf)@ == final(buf)@,
    {
        Writer { buf, at: 0 }
    }

    /// How many bytes were written.
    pub fn position(&self) -> (at: usize)
        ensures
            at == self.at,
    {
        self.at
    }

    /// Writes one byte.
    pub fn u8(&mut self, v: u8)
        requires
            old(self).well_formed(),
            old(self).room() >= 1,
        ensures
            old(self).wrote(*final(self), seq![v]),
            old(self).kept_rest(*final(self)),
            final(final(self).buf)@ == final(old(self).buf)@,
    {
        let at: usize = self.at;
        self.buf[at] = v;
        self.at = at + 1;
        assert(self.done() =~= old(self).done() + seq![v]);
    }

    /// Writes the low `len` bytes of a number.
    fn uint(&mut self, value: u128, len: usize)
        requires
            old(self).well_formed(),
            old(self).room() >= len,
        ensures
            old(self).wrote(*final(self), le(value as nat, len as nat)),
            old(self).kept_rest(*final(self)),
            final(final(self).buf)@ == final(old(self).buf)@,
    {
        let mut left: u128 = value;
        let mut i: usize = 0;
        while i < len
            invariant
                i <= len,
                self.well_formed(),
                old(self).done() + le(value as nat, len as nat) == self.done() + le(
                    left as nat,
                    (len - i) as nat,
                ),
                old(self).room() >= len,
                self.buf@.len() == old(self).buf@.len(),
                self.at == old(self).at + i,
                old(self).kept_rest(*self),
                final(self.buf)@ == final(old(self).buf)@,
            decreases len - i,
        {
            let ghost before = *self;
            let ghost was = left as nat;
            self.u8((left % 256) as u8);
            left = left / 256;
            i += 1;
            assert(before.done() + le(was, (len - i + 1) as nat) =~= self.done() + le(
                left as nat,
                (len - i) as nat,
            ));
        }
        assert(self.done() + le(left as nat, 0) =~= self.done());
        proof {
            le_len(value as nat, len as nat);
        }
    }

    pub fn u16(&mut self, v: u16)
        requires
            old(self).well_formed(),
            old(self).room() >= 2,
        ensures
            old(self).wrote(*final(self), le(v as nat, 2)),
            old(self).kept_rest(*final(self)),
            final(final(self).buf)@ == final(old(self).buf)@,
    {
        self.uint(v as u128, 2);
    }

    pub fn u32(&mut self, v: u32)
        requires
            old(self).well_formed(),
            old(self).room() >= 4,
        ensures
            old(self).wrote(*final(self), le(v as nat, 4)),
            old(self).kept_rest(*final(self)),
            final(final(self).buf)@ == final(old(self).buf)@,
    {
        self.uint(v as u128, 4);
    }

    pub fn u64(&mut self, v: u64)
        requires
            old(self).well_formed(),
            old(self).room() >= 8,
        ensures
            old(self).wrote(*final(self), le(v as nat, 8)),
            old(self).kept_rest(*final(self)),
            final(final(self).buf)@ == final(old(self).buf)@,
    {
        self.uint(v as u128, 8);
    }

    pub fn i64(&mut self, v: i64)
        requires
            old(self).well_formed(),
            old(self).room() >= 8,
        ensures
            old(self).wrote(*final(self), i64_le(v)),
            old(self).kept_rest(*final(self)),
            final(final(self).buf)@ == final(old(self).buf)@,
    {
        let pattern: u64 = v as u64;
        assert(pattern == if v < 0 {
            v + 0x1_0000_0000_0000_0000
        } else {
            v as int
        }) by (bit_vector)
            requires
                pattern == v as u64,
        ;
        self.uint(pattern as u128, 8);
    }

    pub fn i128(&mut self, v: i128)
        requires
            old(self).well_formed(),
            old(self).room() >= 16,
        ensures
            old(self).wrote(*final(self), i128_le(v)),
            old(self).kept_rest(*final(self)),
            final(final(self).buf)@ == final(old(self).buf)@,
    {
        let pattern: u128 = v as u128;
        assert(pattern == if v < 0 {
            v + 0x1_0000_0000_0000_0000_0000_0000_0000_0000
        } else {
            v as int
        }) by (bit_vector)
            requires
                pattern == v as u128,
        ;
        self.uint(pattern, 16);
    }

    pub fn bytes(&mut self, v: &[u8])
        requires
            old(self).well_formed(),
            old(self).room() >= v@.len(),
        ensures
            old(self).wrote(*final(self), v@),
            old(self).kept_rest(*final(self)),
            final(final(self).buf)@ == final(old(self).buf)@,
    {
        let mut i: usize = 0;
        assert(old(self).done() + v@.take(0) =~= old(self).done());
        while i < v.len()
            invariant
                i <= v@.len(),
                self.well_formed(),
                self.done() == old(self).done() + v@.take(i as int),
                old(self).room() >= v@.len(),
                self.buf@.len() == old(self).buf@.len(),
                self.at == old(self).at + i,
                old(self).kept_rest(*self),
                final(self.buf)@ == final(old(self).buf)@,
            decreases v@.len() - i,
        {
            self.u8(v[i]);
            i += 1;
            assert(self.done() =~= old(self).done() + v@.take(i as int));
        }
        assert(v@.take(i as int) =~= v@);
    }
}

/// Reads fields little-endian from a fixed buffer.
pub struct Reader<'a> {
    pub buf: &'a [u8],
    pub at: usize,
}

/// That a read of `len` bytes from `before` left `after`: past the field where
/// the buffer holds it, else where it was.
pub open spec fn read_moved(before: Reader<'_>, after: Reader<'_>, len: int) -> bool {
    &&& after.buf@ == before.buf@
    &&& after.at == if before.at + len <= before.buf@.len() {
        before.at + len
    } else {
        before.at as int
    }
}

/// The refusal of a read of `len` bytes.
pub open spec fn short_read(before: Reader<'_>, len: int) -> CodecError {
    CodecError::ShortBuffer { needed: (before.at + len) as usize, found: before.buf@.len() as usize }
}

impl<'a> Reader<'a> {
    /// A cursor at the start of `buf`.
    pub fn new(buf: &'a [u8]) -> (reader: Reader<'a>)
        ensures
            reader.at == 0,
            reader.buf@ == buf@,
    {
        Reader { buf, at: 0 }
    }

    /// How many bytes were read.
    pub fn position(&self) -> (at: usize)
        ensures
            at == self.at,
    {
        self.at
    }

    /// The next `len` bytes.
    pub fn bytes(&mut self, len: usize) -> (taken: Result<&'a [u8], CodecError>)
        requires
            old(self).at + len <= usize::MAX,
        ensures
            read_moved(*old(self), *final(self), len as int),
            match taken {
                Ok(bytes) => old(self).at + len <= old(self).buf@.len() && bytes@
                    == old(self).buf@.subrange(old(self).at as int, old(self).at + len),
                Err(e) => old(self).at + len > old(self).buf@.len() && e == short_read(
                    *old(self),
                    len as int,
                ),
            },
    {
        let end: usize = self.at + len;
        if end > self.buf.len() {
            return Err(CodecError::ShortBuffer { needed: end, found: self.buf.len() });
        }
        let taken = vstd::slice::slice_subrange(self.buf, self.at, end);
        self.at = end;
        Ok(taken)
    }

    /// The next `len` bytes as a number.
    fn uint(&mut self, len: usize) -> (value: Result<u128, CodecError>)
        requires
            len <= 16,
            old(self).at + len <= usize::MAX,
        ensures
            read_moved(*old(self), *final(self), len as int),
            match value {
                Ok(v) => {
                    &&& old(self).at + len <= old(self).buf@.len()
                    &&& v == uint_at(old(self).buf@, old(self).at as int, len as int)
                    &&& v < span(len as nat)
                },
                Err(e) => old(self).at + len > old(self).buf@.len() && e == short_read(
                    *old(self),
                    len as int,
                ),
            },
    {
        match self.bytes(len) {
            Ok(bytes) => {
                proof {
                    le_inverts_of_le(bytes@);
                }
                Ok(value_of(bytes))
            },
            Err(e) => Err(e),
        }
    }

    pub fn u8(&mut self) -> (value: Result<u8, CodecError>)
        requires
            old(self).at + 1 <= usize::MAX,
        ensures
            read_moved(*old(self), *final(self), 1),
            match value {
                Ok(v) => old(self).at + 1 <= old(self).buf@.len() && v
                    == old(self).buf@[old(self).at as int],
                Err(e) => old(self).at + 1 > old(self).buf@.len() && e == short_read(
                    *old(self),
                    1,
                ),
            },
    {
        match self.bytes(1) {
            Ok(bytes) => Ok(bytes[0]),
            Err(e) => Err(e),
        }
    }

    pub fn u16(&mut self) -> (value: Result<u16, CodecError>)
        requires
            old(self).at + 2 <= usize::MAX,
        ensures
            read_moved(*old(self), *final(self), 2),
            match value {
                Ok(v) => old(self).at + 2 <= old(self).buf@.len() && v == uint_at(
                    old(self).buf@,
                    old(self).at as int,
                    2,
                ),
                Err(e) => old(self).at + 2 > old(self).buf@.len() && e == short_read(
                    *old(self),
                    2,
                ),
            },
    {
        proof {
            spans();
        }
        match self.uint(2) {
            Ok(v) => Ok(v as u16),
            Err(e) => Err(e),
        }
    }

    pub fn u32(&mut self) -> (value: Result<u32, CodecError>)
        requires
            old(self).at + 4 <= usize::MAX,
        ensures
            read_moved(*old(self), *final(self), 4),
            match value {
                Ok(v) => old(self).at + 4 <= old(self).buf@.len() && v == uint_at(
                    old(self).buf@,
                    old(self).at as int,
                    4,
                ),
                Err(e) => old(self).at + 4 > old(self).buf@.len() && e == short_read(
                    *old(self),
                    4,
                ),
            },
    {
        proof {
            spans();
        }
        match self.uint(4) {
            Ok(v) => Ok(v as u32),
            Err(e) => Err(e),
        }
    }

    pub fn u64(&mut self) -> (value: Result<u64, CodecError>)
        requires
            old(self).at + 8 <= usize::MAX,
        ensures
            read_moved(*old(self), *final(self), 8),
            match value {
                Ok(v) => old(self).at + 8 <= old(self).buf@.len() && v == uint_at(
                    old(self).buf@,
                    old(self).at as int,
                    8,
                ),
                Err(e) => old(self).at + 8 > old(self).buf@.len() && e == short_read(
                    *old(self),
                    8,
                ),
            },
    {
        proof {
            spans();
        }
        match self.uint(8) {
            Ok(v) => Ok(v as u64),
            Err(e) => Err(e),
        }
    }

    pub fn i64(&mut self) -> (value: Result<i64, CodecError>)
        requires
            old(self).at + 8 <= usize::MAX,
        ensures
            read_moved(*old(self), *final(self), 8),
            match value {
                Ok(v) => old(self).at + 8 <= old(self).buf@.len() && v == i64_at(
                    old(self).buf@,
                    old(self).at as int,
                ),
                Err(e) => old(self).at + 8 > old(self).buf@.len() && e == short_read(
                    *old(self),
                    8,
                ),
            },
    {
        match self.u64() {
            Ok(pattern) => {
                let v: i64 = pattern as i64;
                assert(v == if pattern >= 0x8000_0000_0000_0000 {
                    pattern - 0x1_0000_0000_0000_0000
                } else {
                    pattern as int
                }) by (bit_vector)
                    requires
                        v == pattern as i64,
                ;
                Ok(v)
            },
            Err(e) => Err(e),
        }
    }

    pub fn i128(&mut self) -> (value: Result<i128, CodecError>)
        requires
            old(self).at + 16 <= usize::MAX,
        ensures
            read_moved(*old(self), *final(self), 16),
            match value {
                Ok(v) => old(self).at + 16 <= old(self).buf@.len() && v == i128_at(
                    old(self).buf@,
                    old(self).at as int,
                ),
                Err(e) => old(self).at + 16 > old(self).buf@.len() && e == short_read(
                    *old(self),
                    16,
                ),
            },
    {
        match self.uint(16) {
            Ok(pattern) => {
                let v: i128 = pattern as i128;
                assert(v == if pattern >= 0x8000_0000_0000_0000_0000_0000_0000_0000 {
                    pattern - 0x1_0000_0000_0000_0000_0000_0000_0000_0000
                } else {
                    pattern as int
                }) by (bit_vector)
                    requires
                        v == pattern as i128,
                ;
                Ok(v)
            },
            Err(e) => Err(e),
        }
    }
}

} // verus!
