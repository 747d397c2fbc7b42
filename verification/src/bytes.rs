//! The byte-level view of the buffer: little-endian 32- and 64-bit words
//! read out of a byte sequence, and how word-sized stores relate to it.

use vstd::prelude::*;

verus! {

/// The unsigned 32-bit word encoded little-endian at `s[i..i + 4]`.
pub open spec fn le32_at(s: Seq<u8>, i: int) -> u32
    recommends
        0 <= i,
        i + 4 <= s.len(),
{
    (s[i] as u32) | ((s[i + 1] as u32) << 8) | ((s[i + 2] as u32) << 16) | ((s[i + 3] as u32)
        << 24)
}

/// The unsigned 64-bit word encoded little-endian at `s[i..i + 8]`.
pub open spec fn le64_at(s: Seq<u8>, i: int) -> u64
    recommends
        0 <= i,
        i + 8 <= s.len(),
{
    (s[i] as u64) | ((s[i + 1] as u64) << 8) | ((s[i + 2] as u64) << 16) | ((s[i + 3] as u64)
        << 24) | ((s[i + 4] as u64) << 32) | ((s[i + 5] as u64) << 40) | ((s[i + 6] as u64) << 48)
        | ((s[i + 7] as u64) << 56)
}

/// The signed 32-bit integer at `s[i..i + 4]`.
pub open spec fn i32_at(s: Seq<u8>, i: int) -> i32 {
    le32_at(s, i) as i32
}

/// The signed 64-bit integer at `s[i..i + 8]`.
pub open spec fn i64_at(s: Seq<u8>, i: int) -> i64 {
    le64_at(s, i) as i64
}

/// Reassembling the eight truncated bytes of `x == v as u64` gives back `x`,
/// and reading `x` as signed gives back `v`.
pub proof fn lemma_le64_recompose(v: i64, x: u64)
    by (bit_vector)
    requires
        x == v as u64,
    ensures
        ((x as u8) as u64) | ((((x >> 8) as u8) as u64) << 8) | ((((x >> 16) as u8) as u64) << 16)
            | ((((x >> 24) as u8) as u64) << 24) | ((((x >> 32) as u8) as u64) << 32) | ((((x
            >> 40) as u8) as u64) << 40) | ((((x >> 48) as u8) as u64) << 48) | ((((x
            >> 56) as u8) as u64) << 56) == x,
        x as i64 == v,
{
}

/// Reassembling the four truncated bytes of `x == v as u32` gives back `x`,
/// and reading `x` as signed gives back `v`.
pub proof fn lemma_le32_recompose(v: i32, x: u32)
    by (bit_vector)
    requires
        x == v as u32,
    ensures
        ((x as u8) as u32) | ((((x >> 8) as u8) as u32) << 8) | ((((x >> 16) as u8) as u32) << 16)
            | ((((x >> 24) as u8) as u32) << 24) == x,
        x as i32 == v,
{
}

/// The low and high halves of a little-endian 64-bit word are the 32-bit
/// words formed by its first and last four bytes.
proof fn lemma_le64_halves(b0: u8, b1: u8, b2: u8, b3: u8, b4: u8, b5: u8, b6: u8, b7: u8)
    by (bit_vector)
    ensures
        (((b0 as u64) | ((b1 as u64) << 8) | ((b2 as u64) << 16) | ((b3 as u64) << 24) | ((
        b4 as u64) << 32) | ((b5 as u64) << 40) | ((b6 as u64) << 48) | ((b7 as u64)
            << 56)) as i64) as i32 == ((b0 as u32) | ((b1 as u32) << 8) | ((b2 as u32) << 16) | ((
        b3 as u32) << 24)) as i32,
        ((((b0 as u64) | ((b1 as u64) << 8) | ((b2 as u64) << 16) | ((b3 as u64) << 24) | ((
        b4 as u64) << 32) | ((b5 as u64) << 40) | ((b6 as u64) << 48) | ((b7 as u64)
            << 56)) as i64) >> 32) as i32 == ((b4 as u32) | ((b5 as u32) << 8) | ((b6 as u32)
            << 16) | ((b7 as u32) << 24)) as i32,
{
}

/// Truncating a 64-bit word at `i` gives the 32-bit word at `i`; shifting it
/// right by 32 gives the 32-bit word at `i + 4`.
pub proof fn lemma_i64_at_halves(s: Seq<u8>, i: int)
    requires
        0 <= i,
        i + 8 <= s.len(),
    ensures
        i64_at(s, i) as i32 == i32_at(s, i),
        (i64_at(s, i) >> 32) as i32 == i32_at(s, i + 4),
{
    lemma_le64_halves(s[i], s[i + 1], s[i + 2], s[i + 3], s[i + 4], s[i + 5], s[i + 6], s[i + 7]);
}

/// A 32-bit store over the low half of a 64-bit word replaces exactly that
/// half: the stored word becomes the low 32 bits, the high 32 bits stay.
pub proof fn lemma_le64_low_store(s1: Seq<u8>, s2: Seq<u8>, i: int)
    requires
        0 <= i,
        i + 8 <= s1.len(),
        i + 8 <= s2.len(),
        forall|j: int| i + 4 <= j < i + 8 ==> s1[j] == s2[j],
    ensures
        i64_at(s2, i) == ((i64_at(s1, i) >> 32) << 32) | (le32_at(s2, i) as i64),
{
    let c0 = s2[i];
    let c1 = s2[i + 1];
    let c2 = s2[i + 2];
    let c3 = s2[i + 3];
    let b4 = s1[i + 4];
    let b5 = s1[i + 5];
    let b6 = s1[i + 6];
    let b7 = s1[i + 7];
    assert(((c0 as u64) | ((c1 as u64) << 8) | ((c2 as u64) << 16) | ((c3 as u64) << 24) | ((
    b4 as u64) << 32) | ((b5 as u64) << 40) | ((b6 as u64) << 48) | ((b7 as u64) << 56)) as i64
        == (((((b4 as u64) << 32) | ((b5 as u64) << 40) | ((b6 as u64) << 48) | ((b7 as u64)
        << 56)) as i64 >> 32) << 32) | (((c0 as u32) | ((c1 as u32) << 8) | ((c2 as u32) << 16) | ((
    c3 as u32) << 24)) as i64)) by (bit_vector);
    let a0 = s1[i];
    let a1 = s1[i + 1];
    let a2 = s1[i + 2];
    let a3 = s1[i + 3];
    assert((((a0 as u64) | ((a1 as u64) << 8) | ((a2 as u64) << 16) | ((a3 as u64) << 24) | ((
    b4 as u64) << 32) | ((b5 as u64) << 40) | ((b6 as u64) << 48) | ((b7 as u64) << 56)) as i64
        >> 32) == ((((b4 as u64) << 32) | ((b5 as u64) << 40) | ((b6 as u64) << 48) | ((b7 as u64)
        << 56)) as i64 >> 32)) by (bit_vector);
}

/// Two byte sequences that agree on `s[i..i + 8]` hold the same 64-bit word
/// at `i`.
pub proof fn lemma_i64_at_equal(s1: Seq<u8>, s2: Seq<u8>, i: int)
    requires
        0 <= i,
        i + 8 <= s1.len(),
        i + 8 <= s2.len(),
        forall|j: int| i <= j < i + 8 ==> s1[j] == s2[j],
    ensures
        i64_at(s1, i) == i64_at(s2, i),
{
}

} // verus!
