//! Bit fields of hardware registers, stated arithmetically.
use vstd::prelude::*;
use vstd::arithmetic::power2::{pow2, lemma_pow2_pos, lemma2_to64};
use vstd::bits::{
    low_bits_mask, lemma_low_bits_mask_values, lemma_u32_low_bits_mask_is_mod,
    lemma_u32_shr_is_div, lemma_u32_pow2_no_overflow,
    lemma_u16_low_bits_mask_is_mod, lemma_u16_shr_is_div, lemma_u16_pow2_no_overflow,
};
use vstd::arithmetic::div_mod::lemma_mod_bound;

verus! {

/// The `width` bits of `raw` that start at bit `lo` (bit 0 is the least
/// significant), read as an unsigned number.
pub open spec fn bits_of(raw: int, lo: nat, width: nat) -> int {
    (raw / (pow2(lo) as int)) % (pow2(width) as int)
}

/// Whether bit `n` of `raw` is set.
pub open spec fn flag_of(raw: int, n: nat) -> bool {
    bits_of(raw, n, 1) == 1
}

/// The little-endian value of two bytes.
pub open spec fn le16(b0: u8, b1: u8) -> int {
    b0 as int + 256 * (b1 as int)
}

/// The little-endian value of four bytes.
pub open spec fn le32(b0: u8, b1: u8, b2: u8, b3: u8) -> int {
    b0 as int + 256 * (b1 as int) + 65536 * (b2 as int) + 16777216 * (b3 as int)
}

pub proof fn lemma_bits_of_bound(raw: int, lo: nat, width: nat)
    requires
        raw >= 0,
    ensures
        0 <= bits_of(raw, lo, width) < pow2(width),
{
    lemma_pow2_pos(lo);
    lemma_pow2_pos(width);
    lemma_mod_bound(raw / (pow2(lo) as int), pow2(width) as int);
}

/// The low bits of a number are at most the number itself.
pub proof fn lemma_low_bits_le(raw: int, width: nat)
    requires
        raw >= 0,
    ensures
        bits_of(raw, 0, width) <= raw,
{
    lemma_pow2_pos(width);
    vstd::arithmetic::power2::lemma2_to64();
    assert(raw / (pow2(0) as int) == raw);
    vstd::arithmetic::div_mod::lemma_mod_decreases(raw as nat, pow2(width));
}

/// A field of a 16-bit register is the register shifted right by `lo`
/// and masked to its low `width` bits.
pub proof fn lemma_field16_shift_mask(raw: u16, lo: u16, width: nat)
    requires
        lo < 16,
        width < 16,
    ensures
        bits_of(raw as int, lo as nat, width) == ((raw >> lo) & (low_bits_mask(width) as u16)) as int,
        0 <= bits_of(raw as int, lo as nat, width) < pow2(width),
        lo == 0 ==> bits_of(raw as int, lo as nat, width) == (raw & (low_bits_mask(width) as u16)) as int,
{
    assert(raw >> 0u16 == raw) by (bit_vector);
    lemma_bits_of_bound(raw as int, lo as nat, width);
    lemma_u16_shr_is_div(raw, lo);
    lemma_u16_low_bits_mask_is_mod(raw >> lo, width);
    lemma_u16_pow2_no_overflow(width);
    lemma_pow2_pos(lo as nat);
    lemma_pow2_pos(width);
}

/// A field of a 32-bit register is the register shifted right by `lo`
/// and masked to its low `width` bits.
pub proof fn lemma_field32_shift_mask(raw: u32, lo: u32, width: nat)
    requires
        lo < 32,
        width < 32,
    ensures
        bits_of(raw as int, lo as nat, width) == ((raw >> lo) & (low_bits_mask(width) as u32)) as int,
        0 <= bits_of(raw as int, lo as nat, width) < pow2(width),
        lo == 0 ==> bits_of(raw as int, lo as nat, width) == (raw & (low_bits_mask(width) as u32)) as int,
{
    assert(raw >> 0u32 == raw) by (bit_vector);
    lemma_bits_of_bound(raw as int, lo as nat, width);
    lemma_u32_shr_is_div(raw, lo);
    lemma_u32_low_bits_mask_is_mod(raw >> lo, width);
    lemma_u32_pow2_no_overflow(width);
    lemma_pow2_pos(lo as nat);
    lemma_pow2_pos(width);
}

/// Bit `n` of a 16-bit register is set exactly when the register and the
/// mask `1 << n` have a bit in common.
pub proof fn lemma_flag16_mask(raw: u16, n: u16)
    requires
        n < 16,
    ensures
        flag_of(raw as int, n as nat) == (raw & (1u16 << n) != 0),
{
    lemma_field16_shift_mask(raw, n, 1);
    lemma_low_bits_mask_values();
    assert(((raw >> n) & 1u16 == 1u16) == (raw & (1u16 << n) != 0u16)) by (bit_vector)
        requires
            n < 16u16,
    ;
}

/// Bit `n` of a 32-bit register is set exactly when the register and the
/// mask `1 << n` have a bit in common.
pub proof fn lemma_flag32_mask(raw: u32, n: u32)
    requires
        n < 32,
    ensures
        flag_of(raw as int, n as nat) == (raw & (1u32 << n) != 0),
{
    lemma_field32_shift_mask(raw, n, 1);
    lemma_low_bits_mask_values();
    assert(((raw >> n) & 1u32 == 1u32) == (raw & (1u32 << n) != 0u32)) by (bit_vector)
        requires
            n < 32u32,
    ;
}

/// The single-bit masks of a 16-bit register.
pub proof fn lemma_masks16()
    ensures
        1u16 << 0u16 == 0x0001u16, 1u16 << 1u16 == 0x0002u16, 1u16 << 2u16 == 0x0004u16, 1u16 << 3u16 == 0x0008u16,
        1u16 << 4u16 == 0x0010u16, 1u16 << 5u16 == 0x0020u16, 1u16 << 6u16 == 0x0040u16, 1u16 << 7u16 == 0x0080u16,
        1u16 << 8u16 == 0x0100u16, 1u16 << 9u16 == 0x0200u16, 1u16 << 10u16 == 0x0400u16, 1u16 << 11u16 == 0x0800u16,
        1u16 << 12u16 == 0x1000u16, 1u16 << 13u16 == 0x2000u16, 1u16 << 14u16 == 0x4000u16, 1u16 << 15u16 == 0x8000u16,
{
    assert(1u16 << 0u16 == 0x0001u16 && 1u16 << 1u16 == 0x0002u16 && 1u16 << 2u16 == 0x0004u16 && 1u16 << 3u16 == 0x0008u16
        && 1u16 << 4u16 == 0x0010u16 && 1u16 << 5u16 == 0x0020u16 && 1u16 << 6u16 == 0x0040u16 && 1u16 << 7u16 == 0x0080u16
        && 1u16 << 8u16 == 0x0100u16 && 1u16 << 9u16 == 0x0200u16 && 1u16 << 10u16 == 0x0400u16 && 1u16 << 11u16 == 0x0800u16
        && 1u16 << 12u16 == 0x1000u16 && 1u16 << 13u16 == 0x2000u16 && 1u16 << 14u16 == 0x4000u16 && 1u16 << 15u16 == 0x8000u16)
        by (bit_vector);
}

/// The single-bit masks of a 32-bit register.
pub proof fn lemma_masks32()
    ensures
        1u32 << 0u32 == 0x00000001u32, 1u32 << 1u32 == 0x00000002u32, 1u32 << 2u32 == 0x00000004u32, 1u32 << 3u32 == 0x00000008u32,
        1u32 << 4u32 == 0x00000010u32, 1u32 << 5u32 == 0x00000020u32, 1u32 << 6u32 == 0x00000040u32, 1u32 << 7u32 == 0x00000080u32,
        1u32 << 8u32 == 0x00000100u32, 1u32 << 9u32 == 0x00000200u32, 1u32 << 10u32 == 0x00000400u32, 1u32 << 11u32 == 0x00000800u32,
        1u32 << 12u32 == 0x00001000u32, 1u32 << 13u32 == 0x00002000u32, 1u32 << 14u32 == 0x00004000u32, 1u32 << 15u32 == 0x00008000u32,
        1u32 << 16u32 == 0x00010000u32, 1u32 << 17u32 == 0x00020000u32, 1u32 << 18u32 == 0x00040000u32, 1u32 << 19u32 == 0x00080000u32,
        1u32 << 20u32 == 0x00100000u32, 1u32 << 21u32 == 0x00200000u32, 1u32 << 22u32 == 0x00400000u32, 1u32 << 23u32 == 0x00800000u32,
        1u32 << 24u32 == 0x01000000u32, 1u32 << 25u32 == 0x02000000u32, 1u32 << 26u32 == 0x04000000u32, 1u32 << 27u32 == 0x08000000u32,
        1u32 << 28u32 == 0x10000000u32, 1u32 << 29u32 == 0x20000000u32, 1u32 << 30u32 == 0x40000000u32, 1u32 << 31u32 == 0x80000000u32,
{
    assert(1u32 << 0u32 == 0x00000001u32 && 1u32 << 1u32 == 0x00000002u32 && 1u32 << 2u32 == 0x00000004u32 && 1u32 << 3u32 == 0x00000008u32
        && 1u32 << 4u32 == 0x00000010u32 && 1u32 << 5u32 == 0x00000020u32 && 1u32 << 6u32 == 0x00000040u32 && 1u32 << 7u32 == 0x00000080u32
        && 1u32 << 8u32 == 0x00000100u32 && 1u32 << 9u32 == 0x00000200u32 && 1u32 << 10u32 == 0x00000400u32 && 1u32 << 11u32 == 0x00000800u32
        && 1u32 << 12u32 == 0x00001000u32 && 1u32 << 13u32 == 0x00002000u32 && 1u32 << 14u32 == 0x00004000u32 && 1u32 << 15u32 == 0x00008000u32
        && 1u32 << 16u32 == 0x00010000u32 && 1u32 << 17u32 == 0x00020000u32 && 1u32 << 18u32 == 0x00040000u32 && 1u32 << 19u32 == 0x00080000u32
        && 1u32 << 20u32 == 0x00100000u32 && 1u32 << 21u32 == 0x00200000u32 && 1u32 << 22u32 == 0x00400000u32 && 1u32 << 23u32 == 0x00800000u32
        && 1u32 << 24u32 == 0x01000000u32 && 1u32 << 25u32 == 0x02000000u32 && 1u32 << 26u32 == 0x04000000u32 && 1u32 << 27u32 == 0x08000000u32
        && 1u32 << 28u32 == 0x10000000u32 && 1u32 << 29u32 == 0x20000000u32 && 1u32 << 30u32 == 0x40000000u32 && 1u32 << 31u32 == 0x80000000u32)
        by (bit_vector);
}

/// Two 32-bit halves put together: the low half, or'ed with the high half
/// shifted up by 32, is the low half plus the high half times 2^32.
pub proof fn lemma_u64_from_halves(low: u32, high: u32)
    ensures
        ((low as u64) | ((high as u64) << 32u64)) as int == low as int + high as int * 0x1_0000_0000,
{
    let lo: u64 = low as u64;
    let hi: u64 = high as u64;
    assert(lo | (hi << 32u64) == lo + hi * 0x1_0000_0000u64) by (bit_vector)
        requires
            lo < 0x1_0000_0000u64,
            hi < 0x1_0000_0000u64,
    ;
}

/// Extracts `width` bits of `raw` starting at bit `lo`.
pub fn field32(raw: u32, lo: u32, width: u32) -> (r: u32)
    requires
        lo < 32,
        0 < width < 32,
    ensures
        r == bits_of(raw as int, lo as nat, width as nat),
        r < pow2(width as nat),
{
    let shifted = raw >> lo;
    proof {
        lemma_u32_shr_is_div(raw, lo);
        lemma_u32_low_bits_mask_is_mod(shifted, width as nat);
        lemma_u32_pow2_no_overflow(width as nat);
        lemma_bits_of_bound(raw as int, lo as nat, width as nat);
    }
    let mask = low_mask(width);
    shifted & mask
}

/// The mask with the low `width` bits set.
fn low_mask(width: u32) -> (m: u32)
    requires
        0 < width < 32,
    ensures
        m == low_bits_mask(width as nat),
{
    proof {
        lemma_low_bits_mask_values();
    }
    let mut m: u32 = 0;
    let mut i: u32 = 0;
    while i < width
        invariant
            i <= width < 32,
            m == low_bits_mask(i as nat),
        decreases width - i,
    {
        proof {
            vstd::bits::lemma_low_bits_mask_unfold((i + 1) as nat);
            lemma_u32_pow2_no_overflow((i + 1) as nat);
            lemma_pow2_pos((i + 1) as nat);
        }
        m = 2 * m + 1;
        i = i + 1;
    }
    m
}

/// Whether bit `n` of `raw` is set.
pub fn flag32(raw: u32, n: u32) -> (r: bool)
    requires
        n < 32,
    ensures
        r == flag_of(raw as int, n as nat),
{
    field32(raw, n, 1) == 1
}

/// Extracts `width` bits of the 16-bit register `raw` starting at bit `lo`.
pub fn field16(raw: u16, lo: u32, width: u32) -> (r: u16)
    requires
        lo < 16,
        0 < width <= 16,
    ensures
        r == bits_of(raw as int, lo as nat, width as nat),
        r < pow2(width as nat),
{
    proof {
        lemma2_to64();
        lemma_pow2_pos(width as nat);
        if width < 16 {
            vstd::arithmetic::power2::lemma_pow2_strictly_increases(width as nat, 16);
        }
    }
    let v = field32(raw as u32, lo, width);
    v as u16
}

/// Whether bit `n` of the 16-bit register `raw` is set.
pub fn flag16(raw: u16, n: u32) -> (r: bool)
    requires
        n < 16,
    ensures
        r == flag_of(raw as int, n as nat),
{
    flag32(raw as u32, n)
}

/// Extracts at most 8 bits of `raw` as a byte.
pub fn byte_field32(raw: u32, lo: u32, width: u32) -> (r: u8)
    requires
        lo < 32,
        0 < width <= 8,
    ensures
        r == bits_of(raw as int, lo as nat, width as nat),
{
    proof {
        lemma2_to64();
        if width < 8 {
            vstd::arithmetic::power2::lemma_pow2_strictly_increases(width as nat, 8);
        }
    }
    let v = field32(raw, lo, width);
    v as u8
}

/// Extracts at most 8 bits of the 16-bit register `raw` as a byte.
pub fn byte_field16(raw: u16, lo: u32, width: u32) -> (r: u8)
    requires
        lo < 16,
        0 < width <= 8,
    ensures
        r == bits_of(raw as int, lo as nat, width as nat),
{
    byte_field32(raw as u32, lo, width)
}

/// Extracts at most 16 bits of `raw`.
pub fn word_field32(raw: u32, lo: u32, width: u32) -> (r: u16)
    requires
        lo < 32,
        0 < width <= 16,
    ensures
        r == bits_of(raw as int, lo as nat, width as nat),
{
    proof {
        lemma2_to64();
        if width < 16 {
            vstd::arithmetic::power2::lemma_pow2_strictly_increases(width as nat, 16);
        }
    }
    let v = field32(raw, lo, width);
    v as u16
}

/// Assembles two little-endian bytes into a word.
pub fn word_from_le(b0: u8, b1: u8) -> (r: u16)
    ensures
        r == le16(b0, b1),
{
    (b0 as u16) + (b1 as u16) * 256
}

/// Assembles four little-endian bytes into a double word.
pub fn dword_from_le(b0: u8, b1: u8, b2: u8, b3: u8) -> (r: u32)
    ensures
        r == le32(b0, b1, b2, b3),
{
    (b0 as u32) + (b1 as u32) * 256 + (b2 as u32) * 65536 + (b3 as u32) * 16777216
}

} // verus!
