//! Bit-level utilities: power-of-two tests and alignment rounding.

use vstd::prelude::*;

verus! {

use vstd::arithmetic::div_mod::lemma_fundamental_div_mod;
use vstd::arithmetic::power2::pow2;
use vstd::arithmetic::power2::lemma_pow2_strictly_increases;
use vstd::arithmetic::power2::lemma_pow2_unfold;
use vstd::arithmetic::power2::lemma2_to64;
use vstd::bits::lemma_u32_low_bits_mask_is_mod;
use vstd::bits::lemma_u64_low_bits_mask_is_mod;
use vstd::bits::low_bits_mask;

/// Index into a byte buffer, and the width of the values the record format
/// stores: lengths and type ids are signed 32-bit integers.
pub type Index = i32;

pub const CACHE_LINE_LENGTH: Index = 64;

/// A positive integer that is a power of two.
pub open spec fn spec_is_power_of_two(v: int) -> bool
    decreases v,
{
    if v == 1 {
        true
    } else if v < 1 {
        false
    } else {
        v % 2 == 0 && spec_is_power_of_two(v / 2)
    }
}

/// `value` rounded up to the next multiple of `alignment`.
pub open spec fn spec_align(value: int, alignment: int) -> int {
    ((value + alignment - 1) / alignment) * alignment
}

/// Rounding up to a multiple of a positive `alignment` lands in
/// `[value, value + alignment)`, on a multiple of `alignment`.
pub proof fn lemma_align_properties(value: int, alignment: int)
    requires
        0 <= value,
        0 < alignment,
    ensures
        value <= spec_align(value, alignment) <= value + alignment - 1,
        spec_align(value, alignment) % alignment == 0,
{
    let w = value + alignment - 1;
    lemma_fundamental_div_mod(w, alignment);
    let q = w / alignment;
    assert(spec_align(value, alignment) == w - w % alignment) by (nonlinear_arith)
        requires
            w == alignment * q + w % alignment,
            q == w / alignment,
            spec_align(value, alignment) == q * alignment,
    ;
    assert((q * alignment) % alignment == 0) by (nonlinear_arith)
        requires
            0 < alignment,
    ;
}

/// Two multiples of `alignment` within distance `alignment` of each other are
/// the same number.
pub proof fn lemma_aligned_unique(a: int, b: int, alignment: int)
    requires
        0 < alignment,
        a % alignment == 0,
        b % alignment == 0,
        -alignment < a - b < alignment,
    ensures
        a == b,
{
    lemma_fundamental_div_mod(a, alignment);
    lemma_fundamental_div_mod(b, alignment);
    assert(a == b) by (nonlinear_arith)
        requires
            0 < alignment,
            a == alignment * (a / alignment),
            b == alignment * (b / alignment),
            -alignment < a - b < alignment,
    ;
}

/// The record alignment, eight, is a power of two.
pub proof fn lemma_eight_is_power_of_two()
    ensures
        spec_is_power_of_two(8),
{
    reveal_with_fuel(spec_is_power_of_two, 4);
}

/// The bitwise test `v & (v - 1) == 0` recognises exactly the powers of two
/// among the positive numbers.
proof fn lemma_mask_test_is_power_of_two(v: i32)
    requires
        v > 0,
    ensures
        (v & (v - 1) as i32) == 0 <==> spec_is_power_of_two(v as int),
    decreases v,
{
    let vm1: i32 = (v - 1) as i32;
    if v == 1 {
        assert((1i32 & 0i32) == 0) by (bit_vector);
    } else {
        assert(spec_is_power_of_two(2)) by {
            reveal_with_fuel(spec_is_power_of_two, 2);
        }
        lemma_mask_is_mod32(v, 2);
        if v % 2 == 1 {
            assert((v & vm1) != 0) by (bit_vector)
                requires
                    v > 1,
                    (v & 1) == 1,
                    vm1 == vstd::prelude::sub(v, 1),
            ;
        } else {
            let h: i32 = (v / 2) as i32;
            let hm1: i32 = (h - 1) as i32;
            assert(v == 2 * (v / 2));
            assert({
                &&& ((v & vm1) == 0 <==> (h & hm1) == 0)
                &&& h > 0
            }) by (bit_vector)
                requires
                    v > 1,
                    h >= 1,
                    (v & 1) == 0,
                    v == vstd::prelude::add(h, h),
                    vm1 == vstd::prelude::sub(v, 1),
                    hm1 == vstd::prelude::sub(h, 1),
            ;
            lemma_mask_test_is_power_of_two(h);
        }
    }
}

/// A power of two that fits in an `i32` has an exponent at most 30, so it is
/// at most `0x4000_0000`.
pub proof fn lemma_power_of_two_exponent(v: int)
    requires
        0 < v <= 0x7fff_ffff,
        spec_is_power_of_two(v),
    ensures
        exists|n: nat| n <= 30 && v == pow2(n),
        v <= 0x4000_0000,
    decreases v,
{
    lemma2_to64();
    if v == 1 {
        assert(v == pow2(0));
    } else {
        lemma_power_of_two_exponent(v / 2);
        let n = choose|n: nat| n <= 30 && v / 2 == pow2(n);
        lemma_pow2_unfold(n + 1);
        if n + 1 > 30 {
            if n + 1 > 31 {
                lemma_pow2_strictly_increases(31, n + 1);
            }
            assert(false);
        }
        assert(n + 1 <= 30 && v == pow2(n + 1));
        if n + 1 < 30 {
            lemma_pow2_strictly_increases(n + 1, 30);
        }
    }
}

/// For a non-negative position and a power-of-two capacity, masking with
/// `capacity - 1` is reduction modulo `capacity`.
pub proof fn lemma_mask_is_mod(pos: i64, capacity: i64)
    requires
        0 <= pos,
        0 < capacity <= 0x4000_0000,
        spec_is_power_of_two(capacity as int),
    ensures
        pos & (capacity - 1) as i64 == pos % capacity,
        0 <= pos % capacity < capacity,
{
    lemma_power_of_two_exponent(capacity as int);
    let n = choose|n: nat| n <= 30 && capacity == pow2(n);
    let x: u64 = pos as u64;
    let c: u64 = capacity as u64;
    let m: u64 = (c - 1) as u64;
    let mi: i64 = (capacity - 1) as i64;
    lemma_u64_low_bits_mask_is_mod(x, n);
    assert(low_bits_mask(n) == (pow2(n) - 1) as nat);
    assert(x & m == x % c);
    assert(pos & mi == (x & m) as i64) by (bit_vector)
        requires
            0 <= pos,
            x == pos as u64,
            m == mi as u64,
            0 <= mi < 0x4000_0000i64,
    ;
}

/// The 32-bit sibling of [`lemma_mask_is_mod`].
pub proof fn lemma_mask_is_mod32(pos: i32, capacity: i32)
    requires
        0 <= pos,
        0 < capacity <= 0x4000_0000,
        spec_is_power_of_two(capacity as int),
    ensures
        pos & (capacity - 1) as i32 == pos % capacity,
        0 <= pos % capacity < capacity,
{
    lemma_power_of_two_exponent(capacity as int);
    let n = choose|n: nat| n <= 30 && capacity == pow2(n);
    let x: u32 = pos as u32;
    let c: u32 = capacity as u32;
    let m: u32 = (c - 1) as u32;
    let mi: i32 = (capacity - 1) as i32;
    lemma_u32_low_bits_mask_is_mod(x, n);
    assert(low_bits_mask(n) == (pow2(n) - 1) as nat);
    assert(x & m == x % c);
    assert(pos & mi == (x & m) as i32) by (bit_vector)
        requires
            0 <= pos,
            x == pos as u32,
            m == mi as u32,
            0 <= mi < 0x4000_0000i32,
    ;
}

/// True when `value` is a positive power of two.
pub fn is_power_of_two(value: Index) -> (r: bool)
    ensures
        r == spec_is_power_of_two(value as int),
{
    if value > 0 {
        let inverted = !value;
        proof {
            assert(i32::MIN <= inverted < 0) by (bit_vector)
                requires
                    value > 0,
                    inverted == !value,
            ;
        }
        let r = (value & (inverted + 1)) == value;
        proof {
            let neg: i32 = (inverted + 1) as i32;
            let vm1: i32 = (value - 1) as i32;
            assert((value & neg) == value <==> (value & vm1) == 0) by (bit_vector)
                requires
                    value > 0,
                    neg == vstd::prelude::add(!value, 1),
                    vm1 == vstd::prelude::sub(value, 1),
            ;
            lemma_mask_test_is_power_of_two(value);
        }
        r
    } else {
        false
    }
}

/// Round `value` up to the next multiple of `alignment`, which must be a
/// positive power of two.
pub fn align(value: Index, alignment: Index) -> (r: Index)
    requires
        0 <= value,
        spec_is_power_of_two(alignment as int),
        value + alignment <= i32::MAX,
    ensures
        r == spec_align(value as int, alignment as int),
        0 <= value <= r,
{
    let r = (value + (alignment - 1)) & !(alignment - 1);
    proof {
        lemma_power_of_two_exponent(alignment as int);
        let am1: i32 = (alignment - 1) as i32;
        let sum: i32 = (value + am1) as i32;
        assert(r == (sum & !am1));
        assert(((sum & !am1) & am1) == 0 && sum - am1 <= (sum & !am1) <= sum) by (bit_vector)
            requires
                0 <= sum,
                0 <= am1,
        ;
        lemma_mask_is_mod32(r, alignment);
        lemma_align_properties(value as int, alignment as int);
        lemma_aligned_unique(spec_align(value as int, alignment as int), r as int, alignment as int);
    }
    r
}

} // verus!
