//! CRC32, the IEEE reflected variant.
use vstd::prelude::*;

verus! {

/// Reflected IEEE 802.3 polynomial.
pub const POLY: u32 = 0xEDB8_8320;

/// One bit shifted out of the remainder.
pub open spec fn shift_bit(crc: u32) -> u32 {
    if crc & 1 != 0 {
        (crc >> 1) ^ POLY
    } else {
        crc >> 1
    }
}

/// Eight bits shifted out of the remainder.
pub open spec fn shift_byte(crc: u32) -> u32 {
    shift_bit(
        shift_bit(shift_bit(shift_bit(shift_bit(shift_bit(shift_bit(shift_bit(crc))))))),
    )
}

/// The remainder after `bytes`, starting from all ones.
pub open spec fn remainder(bytes: Seq<u8>) -> u32
    decreases bytes.len(),
{
    if bytes.len() == 0 {
        0xFFFF_FFFFu32
    } else {
        shift_byte(remainder(bytes.drop_last()) ^ (bytes.last() as u32))
    }
}

/// The checksum of `bytes`.
pub open spec fn crc32_of(bytes: Seq<u8>) -> u32 {
    !remainder(bytes)
}

fn step(crc: u32) -> (next: u32)
    ensures
        next == shift_bit(crc),
{
    if crc & 1 != 0 {
        (crc >> 1) ^ POLY
    } else {
        crc >> 1
    }
}

/// The checksum of `bytes`.
pub fn crc32(bytes: &[u8]) -> (checksum: u32)
    ensures
        checksum == crc32_of(bytes@),
{
    let mut crc: u32 = 0xFFFF_FFFF;
    let mut i: usize = 0;
    while i < bytes.len()
        invariant
            i <= bytes@.len(),
            crc == remainder(bytes@.take(i as int)),
        decreases bytes@.len() - i,
    {
        assert(bytes@.take(i + 1).drop_last() =~= bytes@.take(i as int));
        crc = crc ^ (bytes[i] as u32);
        crc = step(step(step(step(step(step(step(step(crc))))))));
        i += 1;
    }
    assert(bytes@.take(i as int) =~= bytes@);
    !crc
}

proof fn shift_bit_is_injective(a: u32, b: u32)
    requires
        shift_bit(a) == shift_bit(b),
    ensures
        a == b,
{
    assert((if a & 1 != 0 {
        (a >> 1) ^ 0xEDB8_8320u32
    } else {
        a >> 1
    }) == (if b & 1 != 0 {
        (b >> 1) ^ 0xEDB8_8320u32
    } else {
        b >> 1
    }) ==> a == b) by (bit_vector);
}

proof fn shift_byte_is_injective(a: u32, b: u32)
    requires
        shift_byte(a) == shift_byte(b),
    ensures
        a == b,
{
    let a1 = shift_bit(a);
    let b1 = shift_bit(b);
    let a2 = shift_bit(a1);
    let b2 = shift_bit(b1);
    let a3 = shift_bit(a2);
    let b3 = shift_bit(b2);
    let a4 = shift_bit(a3);
    let b4 = shift_bit(b3);
    let a5 = shift_bit(a4);
    let b5 = shift_bit(b4);
    let a6 = shift_bit(a5);
    let b6 = shift_bit(b5);
    let a7 = shift_bit(a6);
    let b7 = shift_bit(b6);
    shift_bit_is_injective(a7, b7);
    shift_bit_is_injective(a6, b6);
    shift_bit_is_injective(a5, b5);
    shift_bit_is_injective(a4, b4);
    shift_bit_is_injective(a3, b3);
    shift_bit_is_injective(a2, b2);
    shift_bit_is_injective(a1, b1);
    shift_bit_is_injective(a, b);
}

proof fn changed_byte_changes_remainder(bytes: Seq<u8>, at: int, byte: u8)
    requires
        0 <= at < bytes.len(),
        bytes[at] != byte,
    ensures
        remainder(bytes.update(at, byte)) != remainder(bytes),
    decreases bytes.len(),
{
    let changed = bytes.update(at, byte);
    let before = remainder(bytes.drop_last());
    let after = remainder(changed.drop_last());
    let old_last = bytes.last() as u32;
    let new_last = changed.last() as u32;
    if remainder(changed) == remainder(bytes) {
        shift_byte_is_injective(after ^ new_last, before ^ old_last);
        if at == bytes.len() - 1 {
            assert(changed.drop_last() =~= bytes.drop_last());
            assert(before ^ new_last == before ^ old_last ==> new_last == old_last)
                by (bit_vector);
        } else {
            assert(changed.drop_last() =~= bytes.drop_last().update(at, byte));
            changed_byte_changes_remainder(bytes.drop_last(), at, byte);
            assert(after ^ old_last == before ^ old_last ==> after == before) by (bit_vector);
        }
    }
}

/// Changing any one byte of an input, in whatever bits, changes its checksum.
pub proof fn changed_byte_changes_checksum(bytes: Seq<u8>, at: int, byte: u8)
    requires
        0 <= at < bytes.len(),
        bytes[at] != byte,
    ensures
        crc32_of(bytes.update(at, byte)) != crc32_of(bytes),
{
    changed_byte_changes_remainder(bytes, at, byte);
    let a = remainder(bytes.update(at, byte));
    let b = remainder(bytes);
    assert(a != b ==> !a != !b) by (bit_vector);
}

} // verus!
