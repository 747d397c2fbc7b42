//! The many-producer, single-consumer ring buffer: producers race to claim
//! space with a compare-and-set on the tail position, mark the claimed slot
//! with a negative length while filling it, and commit by storing the
//! positive length.

use vstd::prelude::*;

verus! {

use crate::atomic_buffer::AtomicBuffer;
use crate::bit_util::Index;
use crate::bit_util::align;
use crate::bit_util::lemma_align_properties;
use crate::bit_util::lemma_eight_is_power_of_two;
use crate::bit_util::lemma_mask_is_mod;
use crate::bit_util::spec_align;
use crate::bit_util::spec_is_power_of_two;
use crate::bytes::i32_at;
use crate::bytes::i64_at;
use crate::bytes::lemma_i64_at_equal;
use crate::bytes::lemma_le64_low_store;
use crate::ring_buffer::MessageHandler;
use crate::ring_buffer::RecordDescriptor;
use crate::ring_buffer::RingBufferDescriptor;
use crate::ring_buffer::RingBuffer;
use crate::ring_buffer::RingBufferError;
use crate::ring_buffer::lemma_commit_header;
use crate::ring_buffer::lemma_same_lap_index;
use crate::ring_buffer::lemma_scan_bounds;
use crate::ring_buffer::read_records;
use crate::ring_buffer::spec_buffer_layout;
use crate::ring_buffer::spec_claim_accepts;
use crate::ring_buffer::spec_claim_new_cache;
use crate::ring_buffer::spec_claim_wraps;
use crate::ring_buffer::spec_correlation_counter;
use crate::ring_buffer::spec_counters_sane;
use crate::ring_buffer::spec_head_cache_position;
use crate::ring_buffer::spec_head_position;
use crate::ring_buffer::spec_make_header;
use crate::ring_buffer::spec_read_scan;
use crate::ring_buffer::spec_region_scannable;
use crate::ring_buffer::spec_tail_position;

pub struct ManyToOneRingBuffer {
    buffer: AtomicBuffer,
    capacity: Index,
    max_msg_length: Index,
    head_position_index: Index,
    head_cache_position_index: Index,
    tail_position_index: Index,
    correlation_id_counter_index: Index,
    consumer_heartbeat_index: Index,
}

impl View for ManyToOneRingBuffer {
    type V = Seq<u8>;

    closed spec fn view(&self) -> Seq<u8> {
        self.buffer@
    }
}

/// What a multi-producer `write` does, relating the buffer before (`s`) and
/// after (`s2`). A successful write claims `aligned + padding` bytes by
/// compare-and-set on the tail, publishes a padding record at the old tail
/// index when it wraps, copies the message, and commits by storing the
/// positive record length over the header's low half.
pub open spec fn spec_mpsc_write_outcome(
    s: Seq<u8>,
    s2: Seq<u8>,
    capacity: int,
    msg_type_id: i32,
    src: Seq<u8>,
    src_index: int,
    length: int,
    r: Result<bool, RingBufferError>,
) -> bool {
    let required = spec_align(
        length + RecordDescriptor::HEADER_LENGTH,
        RecordDescriptor::ALIGNMENT as int,
    );
    let head = spec_head_position(s, capacity) as int;
    let tail = spec_tail_position(s, capacity) as int;
    let ri = tail % capacity;
    let wraps = spec_claim_wraps(s, capacity, required);
    let padding = if wraps {
        capacity - ri
    } else {
        0
    };
    let start = if wraps {
        0
    } else {
        ri
    };
    if msg_type_id < 1 {
        &&& r == Result::<bool, RingBufferError>::Err(
            RingBufferError::MessageTypeNonPositive { msg_type_id },
        )
        &&& s2 == s
    } else if length > capacity / 8 {
        &&& r == Result::<bool, RingBufferError>::Err(
            RingBufferError::MessageTooLong {
                max_msg_length: (capacity / 8) as i32,
                length: length as i32,
            },
        )
        &&& s2 == s
    } else if !spec_claim_accepts(s, capacity, required) {
        &&& r == Result::<bool, RingBufferError>::Ok(false)
        &&& spec_head_cache_position(s2, capacity) == spec_claim_new_cache(s, capacity, required)
        &&& forall|j: int|
            0 <= j < s.len() && !(capacity + RingBufferDescriptor::HEAD_CACHE_POSITION_OFFSET <= j
                < capacity + RingBufferDescriptor::HEAD_CACHE_POSITION_OFFSET + 8) ==> #[trigger] s2[j]
                == s[j]
    } else {
        &&& r == Result::<bool, RingBufferError>::Ok(true)
        &&& spec_tail_position(s2, capacity) == tail + required + padding
        &&& spec_head_position(s2, capacity) == spec_head_position(s, capacity)
        &&& spec_correlation_counter(s2, capacity) == spec_correlation_counter(s, capacity)
        &&& spec_head_cache_position(s2, capacity) == spec_claim_new_cache(s, capacity, required)
        &&& i64_at(s2, start) == spec_make_header((length + 8) as i32, msg_type_id)
        &&& forall|k: int| 0 <= k < length ==> s2[start + 8 + k] == #[trigger] src[src_index + k]
        &&& (wraps ==> i64_at(s2, ri) == spec_make_header(
            padding as i32,
            RecordDescriptor::PADDING_MSG_TYPE_ID,
        ))
        &&& forall|j: int|
            0 <= j < s.len() && !(start <= j < start + 8 + length) && !(wraps && ri <= j < ri + 8)
                && !(capacity + RingBufferDescriptor::TAIL_POSITION_OFFSET <= j < capacity
                + RingBufferDescriptor::TAIL_POSITION_OFFSET + 8) && !(capacity
                + RingBufferDescriptor::HEAD_CACHE_POSITION_OFFSET <= j < capacity
                + RingBufferDescriptor::HEAD_CACHE_POSITION_OFFSET + 8) ==> #[trigger] s2[j] == s[j]
    }
}

/// Every 32-bit length word at `from`, `from - 8`, down to `limit` is zero.
pub open spec fn spec_back_scan_zero(s: Seq<u8>, from: int, limit: int) -> bool
    decreases from + 8 - limit,
{
    if from < limit {
        true
    } else {
        i32_at(s, from) == 0 && spec_back_scan_zero(s, from - 8, limit)
    }
}

/// The first probe at `i`, `i + 8`, ... whose 32-bit length word is not
/// zero, probing past `i` only below `limit`; `-1` when every probe was
/// zero.
pub open spec fn spec_forward_scan(s: Seq<u8>, i: int, limit: int) -> int
    decreases limit - i,
{
    if i32_at(s, i) != 0 {
        i
    } else if i + 8 < limit {
        spec_forward_scan(s, i + 8, limit)
    } else {
        -1
    }
}

/// What `unblock` does: with distinct head and tail positions, a negative
/// length at the head's index (an abandoned claim) is turned into a padding
/// record; a zero length makes the consumer scan forward for a later claim
/// and, when one is found beyond a still-zero gap, the gap becomes a padding
/// record. Anything else leaves the buffer alone.
pub open spec fn spec_unblock_outcome(s: Seq<u8>, s2: Seq<u8>, capacity: int, r: bool) -> bool {
    let head = spec_head_position(s, capacity);
    let tail = spec_tail_position(s, capacity);
    let ci = head as int % capacity;
    let pi = tail as int % capacity;
    let lim = if pi > ci {
        pi
    } else {
        capacity
    };
    let len0 = i32_at(s, ci);
    let f = spec_forward_scan(s, ci + 8, lim);
    if head == tail {
        r == false && s2 == s
    } else if len0 < 0 {
        &&& r == true
        &&& i64_at(s2, ci) == spec_make_header(
            (0 - len0) as i32,
            RecordDescriptor::PADDING_MSG_TYPE_ID,
        )
        &&& forall|j: int| 0 <= j < s.len() && !(ci <= j < ci + 8) ==> #[trigger] s2[j] == s[j]
    } else if len0 > 0 {
        r == false && s2 == s
    } else if f >= 0 && spec_back_scan_zero(s, f - 8, ci) {
        &&& r == true
        &&& i64_at(s2, ci) == spec_make_header(
            (f - ci) as i32,
            RecordDescriptor::PADDING_MSG_TYPE_ID,
        )
        &&& forall|j: int| 0 <= j < s.len() && !(ci <= j < ci + 8) ==> #[trigger] s2[j] == s[j]
    } else {
        r == false && s2 == s
    }
}

/// Confirm that the length words below a discovered claim, back down to the
/// consumer's index, are still zero: a non-zero word means another producer
/// claimed the gap concurrently.
fn scan_back_to_confirm_still_zeroed(buffer: &AtomicBuffer, from: Index, limit: Index) -> (r: bool)
    requires
        0 <= limit,
        0 <= from,
        from + 4 <= buffer@.len(),
    ensures
        r == spec_back_scan_zero(buffer@, from - 8, limit as int),
{
    let mut i: Index = from - RecordDescriptor::ALIGNMENT;
    let mut all_zeroes: bool = true;

    while i >= limit
        invariant_except_break
            all_zeroes,
            spec_back_scan_zero(buffer@, from - 8, limit as int) == spec_back_scan_zero(
                buffer@,
                i as int,
                limit as int,
            ),
        invariant
            i <= from - 8,
            from + 4 <= buffer@.len(),
            0 <= limit,
        ensures
            all_zeroes == spec_back_scan_zero(buffer@, from - 8, limit as int),
        decreases i + 8 - limit,
    {
        if 0 != buffer.get_i32_volatile(i) {
            all_zeroes = false;
            proof {
                assert(!spec_back_scan_zero(buffer@, i as int, limit as int));
            }
            break ;
        }

        i -= RecordDescriptor::ALIGNMENT;
    }

    all_zeroes
}

impl ManyToOneRingBuffer {
    pub const INSUFFICIENT_CAPACITY: Index = -2;

    /// The data-region size, in bytes.
    pub closed spec fn spec_capacity(&self) -> int {
        self.capacity as int
    }

    /// The ring buffer's shape never changes: the buffer splits into a
    /// power-of-two data region and the trailer, and the counter indices
    /// point at their trailer slots.
    pub closed spec fn inv(&self) -> bool {
        &&& spec_buffer_layout(self.buffer@.len() as int, self.capacity as int)
        &&& self.max_msg_length == self.capacity / 8
        &&& self.tail_position_index == self.capacity + RingBufferDescriptor::TAIL_POSITION_OFFSET
        &&& self.head_cache_position_index == self.capacity
            + RingBufferDescriptor::HEAD_CACHE_POSITION_OFFSET
        &&& self.head_position_index == self.capacity + RingBufferDescriptor::HEAD_POSITION_OFFSET
        &&& self.correlation_id_counter_index == self.capacity
            + RingBufferDescriptor::CORRELATION_COUNTER_OFFSET
        &&& self.consumer_heartbeat_index == self.capacity
            + RingBufferDescriptor::CONSUMER_HEARTBEAT_OFFSET
    }

    /// The invariant fixes the buffer's shape.
    pub proof fn lemma_inv_layout(&self)
        requires
            self.inv(),
        ensures
            spec_buffer_layout(self@.len() as int, self.spec_capacity()),
    {
    }

    /// Wrap a byte region whose data part (everything before the trailer)
    /// must be a positive power of two.
    pub fn new(buffer: AtomicBuffer) -> (r: Result<ManyToOneRingBuffer, RingBufferError>)
        requires
            buffer@.len() <= 0x7fff_ffff,
        ensures
            r is Ok <==> spec_is_power_of_two(
                buffer@.len() - RingBufferDescriptor::TRAILER_LENGTH,
            ),
            r matches Ok(rb) ==> {
                &&& rb.inv()
                &&& rb@ == buffer@
                &&& rb.spec_capacity() == buffer@.len() - RingBufferDescriptor::TRAILER_LENGTH
            },
            r matches Err(e) ==> e == (RingBufferError::CapacityNotPowerOfTwo {
                capacity: (buffer@.len() - RingBufferDescriptor::TRAILER_LENGTH) as i32,
            }),
    {
        let capacity = buffer.capacity() - RingBufferDescriptor::TRAILER_LENGTH;

        if let Err(e) = RingBufferDescriptor::check_capacity(capacity) {
            return Err(e);
        }
        proof {
            crate::bit_util::lemma_power_of_two_exponent(capacity as int);
        }

        Ok(
            ManyToOneRingBuffer {
                buffer,
                capacity,
                max_msg_length: capacity / 8,
                tail_position_index: capacity + RingBufferDescriptor::TAIL_POSITION_OFFSET,
                head_cache_position_index: capacity
                    + RingBufferDescriptor::HEAD_CACHE_POSITION_OFFSET,
                head_position_index: capacity + RingBufferDescriptor::HEAD_POSITION_OFFSET,
                correlation_id_counter_index: capacity
                    + RingBufferDescriptor::CORRELATION_COUNTER_OFFSET,
                consumer_heartbeat_index: capacity
                    + RingBufferDescriptor::CONSUMER_HEARTBEAT_OFFSET,
            },
        )
    }

    pub fn capacity(&self) -> (r: Index)
        requires
            self.inv(),
        ensures
            r == self.spec_capacity(),
    {
        self.capacity
    }

    pub fn max_msg_length(&self) -> (r: Index)
        requires
            self.inv(),
        ensures
            r == self.spec_capacity() / 8,
    {
        self.max_msg_length
    }

    /// A shared view of the underlying byte region.
    pub fn buffer(&self) -> (r: &AtomicBuffer)
        ensures
            r@ == self@,
    {
        &self.buffer
    }

    /// Direct access to the underlying byte region, for callers that set up
    /// or inspect raw buffer state.
    pub fn buffer_mut(&mut self) -> (r: &mut AtomicBuffer)
        ensures
            r@ == old(self)@,
            final(self)@ == final(r)@,
            final(self).spec_capacity() == old(self).spec_capacity(),
            final(r)@.len() == old(self)@.len() && old(self).inv() ==> final(self).inv(),
    {
        &mut self.buffer
    }

    fn check_msg_length(&self, length: Index) -> (r: Result<(), RingBufferError>)
        requires
            self.inv(),
        ensures
            r is Ok <==> length <= self.spec_capacity() / 8,
            r matches Err(e) ==> e == (RingBufferError::MessageTooLong {
                max_msg_length: (self.spec_capacity() / 8) as i32,
                length,
            }),
    {
        if length > self.max_msg_length {
            Err(
                RingBufferError::MessageTooLong {
                    max_msg_length: self.max_msg_length,
                    length,
                },
            )
        } else {
            Ok(())
        }
    }

    /// Race other producers to reserve `required_capacity` contiguous
    /// aligned bytes. Returns the data-region index of the reservation, or
    /// `INSUFFICIENT_CAPACITY` when the ring cannot hold it. On a wrap the
    /// slack at the end of the region is published as a padding record at
    /// once, so the consumer does not stall on it.
    #[verifier::rlimit(100)]
    fn claim_capacity(&mut self, required_capacity: Index) -> (index: Index)
        requires
            old(self).inv(),
            spec_counters_sane(old(self)@, old(self).spec_capacity()),
            spec_tail_position(old(self)@, old(self).spec_capacity()) + 2 * old(
                self,
            ).spec_capacity() <= i64::MAX,
            1 <= required_capacity,
        ensures
            final(self).inv(),
            final(self).spec_capacity() == old(self).spec_capacity(),
            final(self)@.len() == old(self)@.len(),
            spec_counters_sane(final(self)@, old(self).spec_capacity()),
            spec_head_position(final(self)@, old(self).spec_capacity()) == spec_head_position(
                old(self)@,
                old(self).spec_capacity(),
            ),
            spec_correlation_counter(final(self)@, old(self).spec_capacity())
                == spec_correlation_counter(old(self)@, old(self).spec_capacity()),
            spec_head_cache_position(final(self)@, old(self).spec_capacity())
                == spec_claim_new_cache(
                old(self)@,
                old(self).spec_capacity(),
                required_capacity as int,
            ),
            !spec_claim_accepts(old(self)@, old(self).spec_capacity(), required_capacity as int)
                ==> {
                &&& index == ManyToOneRingBuffer::INSUFFICIENT_CAPACITY
                &&& spec_tail_position(final(self)@, old(self).spec_capacity())
                    == spec_tail_position(old(self)@, old(self).spec_capacity())
                &&& forall|j: int|
                    0 <= j < old(self)@.len() && !(old(self).spec_capacity()
                        + RingBufferDescriptor::HEAD_CACHE_POSITION_OFFSET <= j < old(
                        self,
                    ).spec_capacity() + RingBufferDescriptor::HEAD_CACHE_POSITION_OFFSET + 8)
                        ==> final(self)@[j] == old(self)@[j]
            },
            spec_claim_accepts(old(self)@, old(self).spec_capacity(), required_capacity as int)
                ==> {
                let s = old(self)@;
                let cap = old(self).spec_capacity();
                let tail = spec_tail_position(s, cap) as int;
                let ri = tail % cap;
                let wraps = spec_claim_wraps(s, cap, required_capacity as int);
                let padding = if wraps {
                    cap - ri
                } else {
                    0
                };
                &&& index == (if wraps {
                    0int
                } else {
                    ri
                })
                &&& 0 <= index
                &&& index + required_capacity <= cap
                &&& spec_tail_position(final(self)@, cap) == tail + required_capacity + padding
                &&& (wraps ==> i64_at(final(self)@, ri) == spec_make_header(
                    padding as i32,
                    RecordDescriptor::PADDING_MSG_TYPE_ID,
                ))
                &&& forall|j: int|
                    0 <= j < s.len() && !(wraps && ri <= j < ri + 8) && !(cap
                        + RingBufferDescriptor::TAIL_POSITION_OFFSET <= j < cap
                        + RingBufferDescriptor::TAIL_POSITION_OFFSET + 8) && !(cap
                        + RingBufferDescriptor::HEAD_CACHE_POSITION_OFFSET <= j < cap
                        + RingBufferDescriptor::HEAD_CACHE_POSITION_OFFSET + 8)
                        ==> final(self)@[j] == old(self)@[j]
            },
    {
        let ghost cap = self.capacity as int;
        let ghost s0 = self@;
        let ghost required = required_capacity as int;
        let ghost cache0 = spec_head_cache_position(s0, cap);
        let ghost head0 = spec_head_position(s0, cap);

        let mask: i64 = self.capacity as i64 - 1;
        let mut head: i64 = self.buffer.get_i64_volatile(self.head_cache_position_index);

        let mut tail: i64 = 0;
        let mut tail_index: Index = 0;
        let mut padding: Index = 0;
        loop
            invariant_except_break
                self@ == s0,
                head == cache0,
            invariant
                s0 == old(self)@,
                mask == self.capacity as i64 - 1,
                cache0 == spec_head_cache_position(s0, cap),
                self.inv(),
                cap == self.spec_capacity(),
                cap == old(self).spec_capacity(),
                required == required_capacity as int,
                head0 == spec_head_position(s0, cap),
                spec_counters_sane(s0, cap),
                spec_tail_position(s0, cap) + 2 * cap <= i64::MAX,
                1 <= required_capacity,
            ensures
                self.inv(),
                cap == self.spec_capacity(),
                spec_claim_accepts(s0, cap, required),
                self@.len() == s0.len(),
                spec_head_position(self@, cap) == spec_head_position(s0, cap),
                spec_correlation_counter(self@, cap) == spec_correlation_counter(s0, cap),
                spec_head_cache_position(self@, cap) == spec_claim_new_cache(s0, cap, required),
                tail == spec_tail_position(s0, cap),
                spec_tail_position(self@, cap) == tail + required + (if spec_claim_wraps(
                    s0,
                    cap,
                    required,
                ) {
                    cap - (tail as int % cap)
                } else {
                    0
                }),
                tail_index == tail as int % cap,
                padding == (if spec_claim_wraps(s0, cap, required) {
                    cap - (tail as int % cap)
                } else {
                    0int
                }),
                spec_claim_wraps(s0, cap, required) ==> required <= spec_head_position(
                    s0,
                    cap,
                ) as int % cap,
                forall|j: int|
                    0 <= j < s0.len() && !(cap + RingBufferDescriptor::TAIL_POSITION_OFFSET <= j
                        < cap + RingBufferDescriptor::TAIL_POSITION_OFFSET + 8) && !(cap
                        + RingBufferDescriptor::HEAD_CACHE_POSITION_OFFSET <= j < cap
                        + RingBufferDescriptor::HEAD_CACHE_POSITION_OFFSET + 8)
                        ==> #[trigger] self@[j] == s0[j],
            decreases 0int,
        {
            tail = self.buffer.get_i64_volatile(self.tail_position_index);
            let available_capacity: Index = self.capacity - (tail - head) as Index;

            if required_capacity > available_capacity {
                head = self.buffer.get_i64_volatile(self.head_position_index);

                if required_capacity > (self.capacity - (tail - head) as Index) {
                    assert(!spec_claim_accepts(s0, cap, required));
                    assert(spec_head_cache_position(self@, cap) == spec_claim_new_cache(
                        s0,
                        cap,
                        required,
                    ));
                    return ManyToOneRingBuffer::INSUFFICIENT_CAPACITY;
                }

                self.buffer.put_i64_ordered(self.head_cache_position_index, head);
            }
            let ghost s_cached = self@;
            proof {
                lemma_i64_at_equal(s0, s_cached, cap + RingBufferDescriptor::TAIL_POSITION_OFFSET);
                lemma_i64_at_equal(s0, s_cached, cap + RingBufferDescriptor::HEAD_POSITION_OFFSET);
                lemma_i64_at_equal(
                    s0,
                    s_cached,
                    cap + RingBufferDescriptor::CORRELATION_COUNTER_OFFSET,
                );
                lemma_mask_is_mod(tail, self.capacity as i64);
                lemma_mask_is_mod(head, self.capacity as i64);
            }

            padding = 0;
            tail_index = (tail & mask) as Index;
            let to_buffer_end_length: Index = self.capacity - tail_index;

            if required_capacity > to_buffer_end_length {
                let mut head_index: Index = (head & mask) as Index;

                if required_capacity > head_index {
                    head = self.buffer.get_i64_volatile(self.head_position_index);
                    proof {
                        lemma_mask_is_mod(head, self.capacity as i64);
                    }
                    head_index = (head & mask) as Index;

                    if required_capacity > head_index {
                        assert(!spec_claim_accepts(s0, cap, required));
                        assert(spec_head_cache_position(self@, cap) == spec_claim_new_cache(
                            s0,
                            cap,
                            required,
                        ));
                        return ManyToOneRingBuffer::INSUFFICIENT_CAPACITY;
                    }

                    self.buffer.put_i64_ordered(self.head_cache_position_index, head);
                } else {
                    proof {
                        lemma_same_lap_index(head, tail, cap);
                        lemma_same_lap_index(head0, tail, cap);
                    }
                }

                padding = to_buffer_end_length;
            }
            let ghost s_claimed = self@;
            proof {
                lemma_i64_at_equal(
                    s_cached,
                    s_claimed,
                    cap + RingBufferDescriptor::TAIL_POSITION_OFFSET,
                );
                lemma_i64_at_equal(
                    s_cached,
                    s_claimed,
                    cap + RingBufferDescriptor::HEAD_POSITION_OFFSET,
                );
                lemma_i64_at_equal(
                    s_cached,
                    s_claimed,
                    cap + RingBufferDescriptor::CORRELATION_COUNTER_OFFSET,
                );
                assert(spec_claim_accepts(s0, cap, required));
                assert(spec_head_cache_position(s_claimed, cap) == spec_claim_new_cache(
                    s0,
                    cap,
                    required,
                ));
                assert(spec_claim_wraps(s0, cap, required) ==> required <= head0 as int % cap) by {
                    if spec_claim_wraps(s0, cap, required) {
                        lemma_same_lap_index(head0, tail, cap);
                    }
                }
            }

            if self.buffer.compare_and_set_i64(
                self.tail_position_index,
                tail,
                tail + (required_capacity + padding) as i64,
            ) {
                proof {
                    lemma_i64_at_equal(
                        s_claimed,
                        self@,
                        cap + RingBufferDescriptor::HEAD_POSITION_OFFSET,
                    );
                    lemma_i64_at_equal(
                        s_claimed,
                        self@,
                        cap + RingBufferDescriptor::HEAD_CACHE_POSITION_OFFSET,
                    );
                    lemma_i64_at_equal(
                        s_claimed,
                        self@,
                        cap + RingBufferDescriptor::CORRELATION_COUNTER_OFFSET,
                    );
                }
                break ;
            }
            proof {
                // The buffer has a single owner, so no rival producer can
                // move the tail between the load above and the
                // compare-and-set: the claim cannot lose the race.
                assert(false);
            }
        }

        if 0 != padding {
            self.buffer.put_i64_ordered(
                tail_index,
                RecordDescriptor::make_header(padding, RecordDescriptor::PADDING_MSG_TYPE_ID),
            );
            let ghost s_padded = self@;
            proof {
                lemma_i64_at_equal(s_padded, self@, cap + RingBufferDescriptor::TAIL_POSITION_OFFSET);
            }
            tail_index = 0;
        }

        proof {
            if spec_claim_wraps(s0, cap, required) {
                assert(spec_tail_position(s0, cap) - spec_head_position(s0, cap) <= spec_tail_position(
                    s0,
                    cap,
                ) as int % cap);
                lemma_same_lap_index(spec_head_position(s0, cap), spec_tail_position(s0, cap), cap);
            }
            let nc = spec_claim_new_cache(s0, cap, required);
            assert(nc == spec_head_cache_position(s0, cap) || nc == spec_head_position(s0, cap));
            assert(spec_counters_sane(self@, cap));
        }

        tail_index
    }

    /// Append a message read from `src_buffer[src_index..src_index + length]`
    /// under `msg_type_id`. Fails fatally on a non-positive type id or an
    /// oversized message; returns `Ok(false)` when the ring lacks space, and
    /// `Ok(true)` once the record is committed.
    #[verifier::rlimit(100)]
    pub fn write(
        &mut self,
        msg_type_id: i32,
        src_buffer: &AtomicBuffer,
        src_index: Index,
        length: Index,
    ) -> (r: Result<bool, RingBufferError>)
        requires
            old(self).inv(),
            spec_counters_sane(old(self)@, old(self).spec_capacity()),
            spec_tail_position(old(self)@, old(self).spec_capacity()) + 2 * old(
                self,
            ).spec_capacity() <= i64::MAX,
            0 <= length,
            0 <= src_index,
            src_index + length <= src_buffer@.len(),
        ensures
            final(self).inv(),
            final(self).spec_capacity() == old(self).spec_capacity(),
            final(self)@.len() == old(self)@.len(),
            spec_mpsc_write_outcome(
                old(self)@,
                final(self)@,
                old(self).spec_capacity(),
                msg_type_id,
                src_buffer@,
                src_index as int,
                length as int,
                r,
            ),
            spec_counters_sane(final(self)@, old(self).spec_capacity()),
            spec_head_position(final(self)@, old(self).spec_capacity()) == spec_head_position(
                old(self)@,
                old(self).spec_capacity(),
            ),
    {
        let ghost cap = self.capacity as int;
        let ghost s0 = self@;

        if let Err(e) = RecordDescriptor::check_msg_type_id(msg_type_id) {
            return Err(e);
        }
        if let Err(e) = self.check_msg_length(length) {
            return Err(e);
        }

        let record_length: Index = length + RecordDescriptor::HEADER_LENGTH;
        proof {
            lemma_eight_is_power_of_two();
            lemma_align_properties(record_length as int, RecordDescriptor::ALIGNMENT as int);
        }
        let required_capacity: Index = align(record_length, RecordDescriptor::ALIGNMENT);
        let ghost required = required_capacity as int;

        let record_index: Index = self.claim_capacity(required_capacity);

        if ManyToOneRingBuffer::INSUFFICIENT_CAPACITY == record_index {
            return Ok(false);
        }
        let ghost s_claimed = self@;
        let ghost start = record_index as int;

        self.buffer.put_i64_ordered(
            record_index,
            RecordDescriptor::make_header(-record_length, msg_type_id),
        );
        let ghost s_neg = self@;
        self.buffer.put_bytes(
            RecordDescriptor::encoded_msg_offset(record_index),
            src_buffer,
            src_index,
            length,
        );
        let ghost s_copied = self@;
        self.buffer.put_i32_ordered(RecordDescriptor::length_offset(record_index), record_length);

        proof {
            let s6 = self@;
            let ri = spec_tail_position(s0, cap) as int % cap;
            let wraps = spec_claim_wraps(s0, cap, required);
            lemma_i64_at_equal(s_claimed, s6, cap + RingBufferDescriptor::TAIL_POSITION_OFFSET);
            lemma_i64_at_equal(s_claimed, s6, cap + RingBufferDescriptor::HEAD_POSITION_OFFSET);
            lemma_i64_at_equal(s_claimed, s6, cap + RingBufferDescriptor::HEAD_CACHE_POSITION_OFFSET);
            lemma_i64_at_equal(s_claimed, s6, cap + RingBufferDescriptor::CORRELATION_COUNTER_OFFSET);
            if wraps {
                lemma_i64_at_equal(s_claimed, s6, ri);
            }
            lemma_i64_at_equal(s_neg, s_copied, start);
            lemma_le64_low_store(s_copied, s6, start);
            let w = crate::bytes::le32_at(s6, start);
            lemma_commit_header(record_length, msg_type_id, (-record_length) as i32, w);
            assert(i64_at(s6, start) == spec_make_header(record_length, msg_type_id));
            assert(forall|k: int|
                0 <= k < length ==> s6[start + 8 + k] == #[trigger] src_buffer@[src_index + k]);
            assert(spec_counters_sane(s6, cap));
        }

        Ok(true)
    }

    /// Dispatch committed records to `handler`, at most `message_count_limit`
    /// of them, then zero the consumed bytes and release them by advancing
    /// the head position. Returns how many messages were dispatched.
    pub fn read<H: MessageHandler>(&mut self, handler: &mut H, message_count_limit: u32) -> (r:
        u32)
        requires
            old(self).inv(),
            spec_counters_sane(old(self)@, old(self).spec_capacity()),
            spec_tail_position(old(self)@, old(self).spec_capacity()) + 2 * old(
                self,
            ).spec_capacity() <= i64::MAX,
            spec_region_scannable(
                old(self)@,
                spec_head_position(old(self)@, old(self).spec_capacity()) as int % old(
                    self,
                ).spec_capacity(),
                old(self).spec_capacity(),
            ),
            spec_read_scan(old(self)@, old(self).spec_capacity(), message_count_limit as int).0
                <= spec_tail_position(old(self)@, old(self).spec_capacity()) - spec_head_position(
                old(self)@,
                old(self).spec_capacity(),
            ),
        ensures
            final(self).inv(),
            final(self).spec_capacity() == old(self).spec_capacity(),
            final(self)@.len() == old(self)@.len(),
            r as int == spec_read_scan(
                old(self)@,
                old(self).spec_capacity(),
                message_count_limit as int,
            ).1.len(),
            final(handler).seen() == old(handler).seen() + spec_read_scan(
                old(self)@,
                old(self).spec_capacity(),
                message_count_limit as int,
            ).1,
            spec_head_position(final(self)@, old(self).spec_capacity()) == spec_head_position(
                old(self)@,
                old(self).spec_capacity(),
            ) + spec_read_scan(old(self)@, old(self).spec_capacity(), message_count_limit as int).0,
            spec_head_position(final(self)@, old(self).spec_capacity()) >= spec_head_position(
                old(self)@,
                old(self).spec_capacity(),
            ),
            forall|k: int|
                0 <= k < spec_read_scan(
                    old(self)@,
                    old(self).spec_capacity(),
                    message_count_limit as int,
                ).0 ==> #[trigger] final(self)@[spec_head_position(
                    old(self)@,
                    old(self).spec_capacity(),
                ) as int % old(self).spec_capacity() + k] == 0,
            forall|j: int|
                0 <= j < old(self)@.len() && !(spec_head_position(
                    old(self)@,
                    old(self).spec_capacity(),
                ) as int % old(self).spec_capacity() <= j < spec_head_position(
                    old(self)@,
                    old(self).spec_capacity(),
                ) as int % old(self).spec_capacity() + spec_read_scan(
                    old(self)@,
                    old(self).spec_capacity(),
                    message_count_limit as int,
                ).0) && !(old(self).spec_capacity() + RingBufferDescriptor::HEAD_POSITION_OFFSET
                <= j < old(self).spec_capacity() + RingBufferDescriptor::HEAD_POSITION_OFFSET + 8)
                ==> final(self)@[j] == old(self)@[j],
            spec_tail_position(final(self)@, old(self).spec_capacity()) == spec_tail_position(
                old(self)@,
                old(self).spec_capacity(),
            ),
            spec_head_cache_position(final(self)@, old(self).spec_capacity())
                == spec_head_cache_position(old(self)@, old(self).spec_capacity()),
            spec_correlation_counter(final(self)@, old(self).spec_capacity())
                == spec_correlation_counter(old(self)@, old(self).spec_capacity()),
            spec_counters_sane(final(self)@, old(self).spec_capacity()),
    {
        let r = read_records(
            &mut self.buffer,
            self.capacity,
            self.head_position_index,
            handler,
            message_count_limit,
        );
        proof {
            let cap = old(self).spec_capacity();
            let head = spec_head_position(old(self)@, cap) as int;
            lemma_scan_bounds(old(self)@, head % cap, cap, message_count_limit as int);
        }
        r
    }

    /// Draw the next globally unique correlation id: the previous counter
    /// value, incrementing the counter (with wraparound at the 64-bit
    /// limit).
    pub fn next_correlation_id(&mut self) -> (r: i64)
        requires
            old(self).inv(),
        ensures
            final(self).inv(),
            final(self).spec_capacity() == old(self).spec_capacity(),
            final(self)@.len() == old(self)@.len(),
            r == spec_correlation_counter(old(self)@, old(self).spec_capacity()),
            spec_correlation_counter(final(self)@, final(self).spec_capacity())
                == vstd::wrapping::i64_specs::wrapping_add(r, 1),
            spec_tail_position(final(self)@, old(self).spec_capacity()) == spec_tail_position(
                old(self)@,
                old(self).spec_capacity(),
            ),
            spec_head_position(final(self)@, old(self).spec_capacity()) == spec_head_position(
                old(self)@,
                old(self).spec_capacity(),
            ),
            spec_head_cache_position(final(self)@, old(self).spec_capacity())
                == spec_head_cache_position(old(self)@, old(self).spec_capacity()),
            forall|j: int|
                0 <= j < old(self)@.len() && !(old(self).spec_capacity()
                    + RingBufferDescriptor::CORRELATION_COUNTER_OFFSET <= j < old(
                    self,
                ).spec_capacity() + RingBufferDescriptor::CORRELATION_COUNTER_OFFSET + 8)
                    ==> final(self)@[j] == old(self)@[j],
    {
        let r = self.buffer.get_and_add_i64(self.correlation_id_counter_index, 1);
        proof {
            lemma_i64_at_equal(
                old(self)@,
                self@,
                self.capacity as int + RingBufferDescriptor::TAIL_POSITION_OFFSET,
            );
            lemma_i64_at_equal(
                old(self)@,
                self@,
                self.capacity as int + RingBufferDescriptor::HEAD_POSITION_OFFSET,
            );
            lemma_i64_at_equal(
                old(self)@,
                self@,
                self.capacity as int + RingBufferDescriptor::HEAD_CACHE_POSITION_OFFSET,
            );
        }
        r
    }

    /// Recover from a producer that claimed a slot at the head of the ring
    /// and died before committing it: turn the orphaned claim (or a still
    /// zeroed gap up to a later claim) into a padding record so the consumer
    /// can pass it. Advisory: call it only once outside knowledge says the
    /// consumer has stalled.
    #[verifier::rlimit(100)]
    pub fn unblock(&mut self) -> (r: bool)
        requires
            old(self).inv(),
            spec_counters_sane(old(self)@, old(self).spec_capacity()),
            i32_at(
                old(self)@,
                spec_head_position(old(self)@, old(self).spec_capacity()) as int % old(
                    self,
                ).spec_capacity(),
            ) != i32::MIN,
        ensures
            final(self).inv(),
            final(self).spec_capacity() == old(self).spec_capacity(),
            final(self)@.len() == old(self)@.len(),
            spec_unblock_outcome(old(self)@, final(self)@, old(self).spec_capacity(), r),
            spec_tail_position(final(self)@, old(self).spec_capacity()) == spec_tail_position(
                old(self)@,
                old(self).spec_capacity(),
            ),
            spec_head_position(final(self)@, old(self).spec_capacity()) == spec_head_position(
                old(self)@,
                old(self).spec_capacity(),
            ),
            spec_head_cache_position(final(self)@, old(self).spec_capacity())
                == spec_head_cache_position(old(self)@, old(self).spec_capacity()),
            spec_correlation_counter(final(self)@, old(self).spec_capacity())
                == spec_correlation_counter(old(self)@, old(self).spec_capacity()),
            spec_counters_sane(final(self)@, old(self).spec_capacity()),
    {
        let ghost cap = self.capacity as int;
        let ghost s0 = self@;
        let head_position: i64 = self.buffer.get_i64_volatile(self.head_position_index);
        let tail_position: i64 = self.buffer.get_i64_volatile(self.tail_position_index);

        if tail_position == head_position {
            return false;
        }

        proof {
            lemma_mask_is_mod(head_position, self.capacity as i64);
            lemma_mask_is_mod(tail_position, self.capacity as i64);
        }
        let mask: i64 = (self.capacity - 1) as i64;
        let consumer_index: Index = (head_position & mask) as Index;
        let producer_index: Index = (tail_position & mask) as Index;
        let ghost ci = consumer_index as int;

        let mut unblocked: bool = false;
        let mut length: i32 = self.buffer.get_i32_volatile(consumer_index);
        if length < 0 {
            self.buffer.put_i64_ordered(
                consumer_index,
                RecordDescriptor::make_header(-length, RecordDescriptor::PADDING_MSG_TYPE_ID),
            );
            unblocked = true;
            proof {
                lemma_i64_at_equal(s0, self@, cap + RingBufferDescriptor::TAIL_POSITION_OFFSET);
                lemma_i64_at_equal(s0, self@, cap + RingBufferDescriptor::HEAD_POSITION_OFFSET);
                lemma_i64_at_equal(s0, self@, cap + RingBufferDescriptor::HEAD_CACHE_POSITION_OFFSET);
                lemma_i64_at_equal(s0, self@, cap + RingBufferDescriptor::CORRELATION_COUNTER_OFFSET);
            }
        } else if 0 == length {
            let limit: Index = if producer_index > consumer_index {
                producer_index
            } else {
                self.capacity
            };
            let ghost lim = limit as int;
            let mut i: Index = consumer_index + RecordDescriptor::ALIGNMENT;

            loop
                invariant_except_break
                    self@ == s0,
                    consumer_index + 8 <= i,
                    i < lim || i == consumer_index + 8,
                    unblocked == false,
                    spec_forward_scan(s0, ci + 8, lim) == spec_forward_scan(s0, i as int, lim),
                invariant
                    s0 == old(self)@,
                    self.inv(),
                    cap == self.spec_capacity(),
                    spec_counters_sane(s0, cap),
                    ci == consumer_index as int,
                    lim == limit as int,
                    consumer_index == spec_head_position(s0, cap) as int % cap,
                    0 <= consumer_index < cap,
                    limit <= cap,
                    (i as int - ci) % 8 == 0,
                ensures
                    self.inv(),
                    cap == self.spec_capacity(),
                    self@.len() == s0.len(),
                    ({
                        let f = spec_forward_scan(s0, ci + 8, lim);
                        if f >= 0 && spec_back_scan_zero(s0, f - 8, ci) {
                            &&& unblocked == true
                            &&& i64_at(self@, ci) == spec_make_header(
                                (f - ci) as i32,
                                RecordDescriptor::PADDING_MSG_TYPE_ID,
                            )
                            &&& forall|j: int|
                                0 <= j < s0.len() && !(ci <= j < ci + 8) ==> #[trigger] self@[j]
                                    == s0[j]
                        } else {
                            unblocked == false && self@ == s0
                        }
                    }),
                decreases lim - i,
            {
                length = self.buffer.get_i32_volatile(i);
                if 0 != length {
                    proof {
                        assert(spec_forward_scan(s0, i as int, lim) == i as int);
                    }
                    if scan_back_to_confirm_still_zeroed(&self.buffer, i, consumer_index) {
                        self.buffer.put_i64_ordered(
                            consumer_index,
                            RecordDescriptor::make_header(
                                i - consumer_index,
                                RecordDescriptor::PADDING_MSG_TYPE_ID,
                            ),
                        );
                        unblocked = true;
                    }
                    break ;
                }
                i += RecordDescriptor::ALIGNMENT;
                if !(i < limit) {
                    proof {
                        assert(spec_forward_scan(s0, i - 8, lim) == -1);
                    }
                    break ;
                }
            }
            proof {
                if unblocked {
                    lemma_i64_at_equal(s0, self@, cap + RingBufferDescriptor::TAIL_POSITION_OFFSET);
                    lemma_i64_at_equal(s0, self@, cap + RingBufferDescriptor::HEAD_POSITION_OFFSET);
                    lemma_i64_at_equal(
                        s0,
                        self@,
                        cap + RingBufferDescriptor::HEAD_CACHE_POSITION_OFFSET,
                    );
                    lemma_i64_at_equal(
                        s0,
                        self@,
                        cap + RingBufferDescriptor::CORRELATION_COUNTER_OFFSET,
                    );
                }
            }
        }

        unblocked
    }
}

impl RingBuffer for ManyToOneRingBuffer {
    open spec fn rb_inv(&self) -> bool {
        self.inv()
    }

    open spec fn rb_capacity(&self) -> int {
        self.spec_capacity()
    }

    open spec fn rb_view(&self) -> Seq<u8> {
        self@
    }

    fn capacity(&self) -> (r: Index) {
        self.capacity()
    }

    fn max_msg_length(&self) -> (r: Index) {
        self.max_msg_length()
    }

    fn write(
        &mut self,
        msg_type_id: i32,
        src_buffer: &AtomicBuffer,
        src_index: Index,
        length: Index,
    ) -> (r: Result<bool, RingBufferError>) {
        self.write(msg_type_id, src_buffer, src_index, length)
    }

    fn read<H: MessageHandler>(&mut self, handler: &mut H, message_count_limit: u32) -> (r: u32) {
        self.read(handler, message_count_limit)
    }

    fn next_correlation_id(&mut self) -> (r: i64) {
        self.next_correlation_id()
    }

    fn unblock(&mut self) -> (r: bool) {
        self.unblock()
    }
}

} // verus!
