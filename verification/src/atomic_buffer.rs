//! A bounds-checked byte region with aligned 32- and 64-bit accessors.
//!
//! This is the memory the ring buffers operate on. Loads and stores are
//! specified against the little-endian word view in [`crate::bytes`]. The
//! buffer is a single-owner region here, so the acquire/release and
//! sequentially-consistent accessors coincide with the plain ones; the
//! distinct entry points are kept because the ring-buffer protocol is
//! defined in terms of them.

use vstd::prelude::*;

verus! {

use crate::bit_util::Index;
use crate::bytes::i32_at;
use crate::bytes::i64_at;
use crate::bytes::le32_at;
use crate::bytes::le64_at;
use crate::bytes::lemma_le32_recompose;
use crate::bytes::lemma_le64_recompose;

pub struct AtomicBuffer {
    data: Vec<u8>,
}

impl View for AtomicBuffer {
    type V = Seq<u8>;

    closed spec fn view(&self) -> Seq<u8> {
        self.data@
    }
}

impl AtomicBuffer {
    /// Take ownership of a byte region. The length must fit in an `Index`.
    pub fn wrap(buffer: Vec<u8>) -> (r: AtomicBuffer)
        requires
            buffer@.len() <= 0x7fff_ffff,
        ensures
            r@ == buffer@,
    {
        AtomicBuffer { data: buffer }
    }

    /// Give the region back to the caller.
    pub fn unwrap(self) -> (r: Vec<u8>)
        ensures
            r@ == self@,
    {
        self.data
    }

    pub fn capacity(&self) -> (r: Index)
        requires
            self@.len() <= 0x7fff_ffff,
        ensures
            r == self@.len(),
    {
        self.data.len() as Index
    }

    pub fn get_u8(&self, index: Index) -> (r: u8)
        requires
            0 <= index,
            index < self@.len(),
        ensures
            r == self@[index as int],
    {
        self.data[index as usize]
    }

    pub fn get_i32(&self, index: Index) -> (r: i32)
        requires
            0 <= index,
            index + 4 <= self@.len(),
        ensures
            r == i32_at(self@, index as int),
    {
        let i: usize = index as usize;
        let w: u32 = (self.data[i] as u32) | ((self.data[i + 1] as u32) << 8) | ((self.data[i
            + 2] as u32) << 16) | ((self.data[i + 3] as u32) << 24);
        w as i32
    }

    pub fn get_i64(&self, index: Index) -> (r: i64)
        requires
            0 <= index,
            index + 8 <= self@.len(),
        ensures
            r == i64_at(self@, index as int),
    {
        let i: usize = index as usize;
        let w: u64 = (self.data[i] as u64) | ((self.data[i + 1] as u64) << 8) | ((self.data[i
            + 2] as u64) << 16) | ((self.data[i + 3] as u64) << 24) | ((self.data[i + 4] as u64)
            << 32) | ((self.data[i + 5] as u64) << 40) | ((self.data[i + 6] as u64) << 48) | ((
        self.data[i + 7] as u64) << 56);
        w as i64
    }

    /// Acquire-ordered load; one owner here, so it is the plain load.
    pub fn get_i32_volatile(&self, index: Index) -> (r: i32)
        requires
            0 <= index,
            index + 4 <= self@.len(),
        ensures
            r == i32_at(self@, index as int),
    {
        self.get_i32(index)
    }

    /// Acquire-ordered load; one owner here, so it is the plain load.
    pub fn get_i64_volatile(&self, index: Index) -> (r: i64)
        requires
            0 <= index,
            index + 8 <= self@.len(),
        ensures
            r == i64_at(self@, index as int),
    {
        self.get_i64(index)
    }

    pub fn put_i32(&mut self, index: Index, value: i32)
        requires
            0 <= index,
            index + 4 <= old(self)@.len(),
        ensures
            final(self)@.len() == old(self)@.len(),
            i32_at(final(self)@, index as int) == value,
            forall|j: int|
                0 <= j < old(self)@.len() && !(index <= j < index + 4) ==> final(self)@[j] == old(
                    self,
                )@[j],
    {
        let i: usize = index as usize;
        let x: u32 = #[verifier::truncate] (value as u32);
        self.data[i] = #[verifier::truncate] (x as u8);
        self.data[i + 1] = #[verifier::truncate] ((x >> 8) as u8);
        self.data[i + 2] = #[verifier::truncate] ((x >> 16) as u8);
        self.data[i + 3] = #[verifier::truncate] ((x >> 24) as u8);
        proof {
            lemma_le32_recompose(value, x);
            assert(le32_at(self@, index as int) == x);
        }
    }

    pub fn put_i64(&mut self, index: Index, value: i64)
        requires
            0 <= index,
            index + 8 <= old(self)@.len(),
        ensures
            final(self)@.len() == old(self)@.len(),
            i64_at(final(self)@, index as int) == value,
            forall|j: int|
                0 <= j < old(self)@.len() && !(index <= j < index + 8) ==> final(self)@[j] == old(
                    self,
                )@[j],
    {
        let i: usize = index as usize;
        let x: u64 = #[verifier::truncate] (value as u64);
        self.data[i] = #[verifier::truncate] (x as u8);
        self.data[i + 1] = #[verifier::truncate] ((x >> 8) as u8);
        self.data[i + 2] = #[verifier::truncate] ((x >> 16) as u8);
        self.data[i + 3] = #[verifier::truncate] ((x >> 24) as u8);
        self.data[i + 4] = #[verifier::truncate] ((x >> 32) as u8);
        self.data[i + 5] = #[verifier::truncate] ((x >> 40) as u8);
        self.data[i + 6] = #[verifier::truncate] ((x >> 48) as u8);
        self.data[i + 7] = (x >> 56) as u8;
        proof {
            lemma_le64_recompose(value, x);
            assert(le64_at(self@, index as int) == x);
        }
    }

    /// Release-ordered store; one owner here, so it is the plain store.
    pub fn put_i32_ordered(&mut self, index: Index, value: i32)
        requires
            0 <= index,
            index + 4 <= old(self)@.len(),
        ensures
            final(self)@.len() == old(self)@.len(),
            i32_at(final(self)@, index as int) == value,
            forall|j: int|
                0 <= j < old(self)@.len() && !(index <= j < index + 4) ==> final(self)@[j] == old(
                    self,
                )@[j],
    {
        self.put_i32(index, value);
    }

    /// Release-ordered store; one owner here, so it is the plain store.
    pub fn put_i64_ordered(&mut self, index: Index, value: i64)
        requires
            0 <= index,
            index + 8 <= old(self)@.len(),
        ensures
            final(self)@.len() == old(self)@.len(),
            i64_at(final(self)@, index as int) == value,
            forall|j: int|
                0 <= j < old(self)@.len() && !(index <= j < index + 8) ==> final(self)@[j] == old(
                    self,
                )@[j],
    {
        self.put_i64(index, value);
    }

    /// Atomically add `increment` to the 64-bit cell at `index` with wrapping
    /// on overflow, returning the previous value.
    pub fn get_and_add_i64(&mut self, index: Index, increment: i64) -> (r: i64)
        requires
            0 <= index,
            index + 8 <= old(self)@.len(),
        ensures
            r == i64_at(old(self)@, index as int),
            final(self)@.len() == old(self)@.len(),
            i64_at(final(self)@, index as int) == vstd::wrapping::i64_specs::wrapping_add(
                r,
                increment,
            ),
            forall|j: int|
                0 <= j < old(self)@.len() && !(index <= j < index + 8) ==> final(self)@[j] == old(
                    self,
                )@[j],
    {
        let current: i64 = self.get_i64(index);
        self.put_i64(index, current.wrapping_add(increment));
        current
    }

    /// Atomically replace the 64-bit cell at `index` with `updated_value`
    /// when it currently holds `expected_value`; report whether it did.
    pub fn compare_and_set_i64(&mut self, index: Index, expected_value: i64, updated_value: i64)
        -> (r: bool)
        requires
            0 <= index,
            index + 8 <= old(self)@.len(),
        ensures
            r == (i64_at(old(self)@, index as int) == expected_value),
            final(self)@.len() == old(self)@.len(),
            r ==> i64_at(final(self)@, index as int) == updated_value,
            r ==> forall|j: int|
                0 <= j < old(self)@.len() && !(index <= j < index + 8) ==> final(self)@[j] == old(
                    self,
                )@[j],
            !r ==> final(self)@ == old(self)@,
    {
        let original: i64 = self.get_i64(index);
        if original == expected_value {
            self.put_i64(index, updated_value);
            true
        } else {
            false
        }
    }

    /// Copy `length` bytes from `src_buffer[src_index..]` to `self[index..]`.
    pub fn put_bytes(&mut self, index: Index, src_buffer: &AtomicBuffer, src_index: Index, length: Index)
        requires
            0 <= index,
            index + length <= old(self)@.len(),
            0 <= src_index,
            src_index + length <= src_buffer@.len(),
            0 <= length,
        ensures
            final(self)@.len() == old(self)@.len(),
            forall|k: int|
                0 <= k < length ==> #[trigger] final(self)@[index + k] == src_buffer@[src_index
                    + k],
            forall|j: int|
                0 <= j < old(self)@.len() && !(index <= j < index + length) ==> final(self)@[j]
                    == old(self)@[j],
    {
        let n: usize = length as usize;
        let d: usize = index as usize;
        let s: usize = src_index as usize;
        let mut k: usize = 0;
        while k < n
            invariant
                n == length,
                d == index,
                s == src_index,
                k <= n,
                d + n <= self@.len(),
                s + n <= src_buffer@.len(),
                self@.len() == old(self)@.len(),
                forall|m: int| 0 <= m < k ==> #[trigger] self@[d + m] == src_buffer@[s + m],
                forall|j: int|
                    0 <= j < old(self)@.len() && !(d <= j < d + k) ==> self@[j] == old(self)@[j],
            decreases n - k,
        {
            let b: u8 = src_buffer.data[s + k];
            self.data[d + k] = b;
            k += 1;
        }
    }

    /// Fill `length` bytes starting at `index` with `value`.
    pub fn set_memory(&mut self, index: Index, length: Index, value: u8)
        requires
            0 <= index,
            index + length <= old(self)@.len(),
            0 <= length,
        ensures
            final(self)@.len() == old(self)@.len(),
            forall|k: int| 0 <= k < length ==> #[trigger] final(self)@[index + k] == value,
            forall|j: int|
                0 <= j < old(self)@.len() && !(index <= j < index + length) ==> final(self)@[j]
                    == old(self)@[j],
    {
        let n: usize = length as usize;
        let d: usize = index as usize;
        let mut k: usize = 0;
        while k < n
            invariant
                n == length,
                d == index,
                k <= n,
                d + n <= self@.len(),
                self@.len() == old(self)@.len(),
                forall|m: int| 0 <= m < k ==> #[trigger] self@[d + m] == value,
                forall|j: int|
                    0 <= j < old(self)@.len() && !(d <= j < d + k) ==> self@[j] == old(self)@[j],
            decreases n - k,
        {
            self.data[d + k] = value;
            k += 1;
        }
    }
}

} // verus!
