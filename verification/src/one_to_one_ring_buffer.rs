//! The single-producer, single-consumer ring buffer: wait-free on the
//! producer side.

use vstd::prelude::*;

verus! {

use crate::atomic_buffer::AtomicBuffer;
use crate::bit_util::Index;
use crate::bit_util::align;
use crate::bit_util::lemma_eight_is_power_of_two;
use crate::bit_util::lemma_align_properties;
use crate::bit_util::lemma_mask_is_mod;
use crate::bit_util::spec_align;
use crate::bit_util::spec_is_power_of_two;
use crate::bytes::i64_at;
use crate::bytes::lemma_i64_at_equal;
use crate::ring_buffer::MessageHandler;
use crate::ring_buffer::RecordDescriptor;
use crate::ring_buffer::RingBufferDescriptor;
use crate::ring_buffer::RingBuffer;
use crate::ring_buffer::RingBufferError;
use crate::ring_buffer::lemma_scan_bounds;
use crate::ring_buffer::read_records;
use crate::ring_buffer::spec_buffer_layout;
use crate::ring_buffer::spec_claim_accepts;
use crate::ring_buffer::spec_claim_new_cache;
use crate::ring_buffer::spec_claim_wraps;
use crate::ring_buffer::spec_correlation_counter;
use crate::ring_buffer::spec_counters_sane;
use crate::ring_buffer::spec_head_cache_position;
use crate::ring_buffer::spec_head_position;
use crate::ring_buffer::spec_make_header;
use crate::ring_buffer::spec_read_scan;
use crate::ring_buffer::spec_region_scannable;
use crate::ring_buffer::spec_tail_position;
use crate::ring_buffer::lemma_same_lap_index;

pub struct OneToOneRingBuffer {
    buffer: AtomicBuffer,
    capacity: Index,
    max_msg_length: Index,
    head_position_index: Index,
    head_cache_position_index: Index,
    tail_position_index: Index,
    correlation_id_counter_index: Index,
    consumer_heartbeat_index: Index,
}

impl View for OneToOneRingBuffer {
    type V = Seq<u8>;

    closed spec fn view(&self) -> Seq<u8> {
        self.buffer@
    }
}

/// What a single-producer `write` does, relating the buffer before (`s`) and
/// after (`s2`). A successful write claims `aligned + padding` bytes (the
/// claim check also demands one spare header for pre-zeroing), publishes a
/// padding record at the old tail index when it wraps, pre-zeroes the header
/// slot after the new record, copies the message, and commits the header.
pub open spec fn spec_spsc_write_outcome(
    s: Seq<u8>,
    s2: Seq<u8>,
    capacity: int,
    msg_type_id: i32,
    src: Seq<u8>,
    src_index: int,
    length: int,
    r: Result<bool, RingBufferError>,
) -> bool {
    let aligned = spec_align(length + RecordDescriptor::HEADER_LENGTH, RecordDescriptor::ALIGNMENT as int);
    let required = aligned + RecordDescriptor::HEADER_LENGTH;
    let head = spec_head_position(s, capacity) as int;
    let tail = spec_tail_position(s, capacity) as int;
    let ri = tail % capacity;
    let wraps = spec_claim_wraps(s, capacity, required);
    let padding = if wraps {
        capacity - ri
    } else {
        0
    };
    let start = if wraps {
        0
    } else {
        ri
    };
    if msg_type_id < 1 {
        &&& r == Result::<bool, RingBufferError>::Err(
            RingBufferError::MessageTypeNonPositive { msg_type_id },
        )
        &&& s2 == s
    } else if length > capacity / 8 {
        &&& r == Result::<bool, RingBufferError>::Err(
            RingBufferError::MessageTooLong {
                max_msg_length: (capacity / 8) as i32,
                length: length as i32,
            },
        )
        &&& s2 == s
    } else if !spec_claim_accepts(s, capacity, required) {
        &&& r == Result::<bool, RingBufferError>::Ok(false)
        &&& spec_head_cache_position(s2, capacity) == spec_claim_new_cache(s, capacity, required)
        &&& forall|j: int|
            0 <= j < s.len() && !(capacity + RingBufferDescriptor::HEAD_CACHE_POSITION_OFFSET <= j
                < capacity + RingBufferDescriptor::HEAD_CACHE_POSITION_OFFSET + 8) ==> #[trigger] s2[j]
                == s[j]
    } else {
        &&& r == Result::<bool, RingBufferError>::Ok(true)
        &&& spec_tail_position(s2, capacity) == tail + aligned + padding
        &&& spec_head_position(s2, capacity) == spec_head_position(s, capacity)
        &&& spec_correlation_counter(s2, capacity) == spec_correlation_counter(s, capacity)
        &&& spec_head_cache_position(s2, capacity) == spec_claim_new_cache(s, capacity, required)
        &&& i64_at(s2, start) == spec_make_header((length + 8) as i32, msg_type_id)
        &&& forall|k: int| 0 <= k < length ==> s2[start + 8 + k] == #[trigger] src[src_index + k]
        &&& i64_at(s2, start + aligned) == 0
        &&& (wraps ==> i64_at(s2, ri) == spec_make_header(
            padding as i32,
            RecordDescriptor::PADDING_MSG_TYPE_ID,
        ))
        &&& forall|j: int|
            0 <= j < s.len() && !(start <= j < start + 8 + length) && !(start + aligned <= j < start
                + aligned + 8) && !(wraps && ri <= j < ri + 8) && !(capacity
                + RingBufferDescriptor::TAIL_POSITION_OFFSET <= j < capacity
                + RingBufferDescriptor::TAIL_POSITION_OFFSET + 8) && !(capacity
                + RingBufferDescriptor::HEAD_CACHE_POSITION_OFFSET <= j < capacity
                + RingBufferDescriptor::HEAD_CACHE_POSITION_OFFSET + 8) ==> #[trigger] s2[j] == s[j]
    }
}

impl OneToOneRingBuffer {
    /// The data-region size, in bytes.
    pub closed spec fn spec_capacity(&self) -> int {
        self.capacity as int
    }

    /// The ring buffer's shape never changes: the buffer splits into a
    /// power-of-two data region and the trailer, and the counter indices
    /// point at their trailer slots.
    pub closed spec fn inv(&self) -> bool {
        &&& spec_buffer_layout(self.buffer@.len() as int, self.capacity as int)
        &&& self.max_msg_length == self.capacity / 8
        &&& self.tail_position_index == self.capacity + RingBufferDescriptor::TAIL_POSITION_OFFSET
        &&& self.head_cache_position_index == self.capacity
            + RingBufferDescriptor::HEAD_CACHE_POSITION_OFFSET
        &&& self.head_position_index == self.capacity + RingBufferDescriptor::HEAD_POSITION_OFFSET
        &&& self.correlation_id_counter_index == self.capacity
            + RingBufferDescriptor::CORRELATION_COUNTER_OFFSET
        &&& self.consumer_heartbeat_index == self.capacity
            + RingBufferDescriptor::CONSUMER_HEARTBEAT_OFFSET
    }

    /// The invariant fixes the buffer's shape.
    pub proof fn lemma_inv_layout(&self)
        requires
            self.inv(),
        ensures
            spec_buffer_layout(self@.len() as int, self.spec_capacity()),
    {
    }

    /// Wrap a byte region whose data part (everything before the trailer)
    /// must be a positive power of two.
    pub fn new(buffer: AtomicBuffer) -> (r: Result<OneToOneRingBuffer, RingBufferError>)
        requires
            buffer@.len() <= 0x7fff_ffff,
        ensures
            r is Ok <==> spec_is_power_of_two(
                buffer@.len() - RingBufferDescriptor::TRAILER_LENGTH,
            ),
            r matches Ok(rb) ==> {
                &&& rb.inv()
                &&& rb@ == buffer@
                &&& rb.spec_capacity() == buffer@.len() - RingBufferDescriptor::TRAILER_LENGTH
            },
            r matches Err(e) ==> e == (RingBufferError::CapacityNotPowerOfTwo {
                capacity: (buffer@.len() - RingBufferDescriptor::TRAILER_LENGTH) as i32,
            }),
    {
        let capacity = buffer.capacity() - RingBufferDescriptor::TRAILER_LENGTH;

        if let Err(e) = RingBufferDescriptor::check_capacity(capacity) {
            return Err(e);
        }
        proof {
            crate::bit_util::lemma_power_of_two_exponent(capacity as int);
        }

        Ok(
            OneToOneRingBuffer {
                buffer,
                capacity,
                max_msg_length: capacity / 8,
                tail_position_index: capacity + RingBufferDescriptor::TAIL_POSITION_OFFSET,
                head_cache_position_index: capacity
                    + RingBufferDescriptor::HEAD_CACHE_POSITION_OFFSET,
                head_position_index: capacity + RingBufferDescriptor::HEAD_POSITION_OFFSET,
                correlation_id_counter_index: capacity
                    + RingBufferDescriptor::CORRELATION_COUNTER_OFFSET,
                consumer_heartbeat_index: capacity
                    + RingBufferDescriptor::CONSUMER_HEARTBEAT_OFFSET,
            },
        )
    }

    pub fn capacity(&self) -> (r: Index)
        requires
            self.inv(),
        ensures
            r == self.spec_capacity(),
    {
        self.capacity
    }

    pub fn max_msg_length(&self) -> (r: Index)
        requires
            self.inv(),
        ensures
            r == self.spec_capacity() / 8,
    {
        self.max_msg_length
    }

    /// A shared view of the underlying byte region.
    pub fn buffer(&self) -> (r: &AtomicBuffer)
        ensures
            r@ == self@,
    {
        &self.buffer
    }

    /// Direct access to the underlying byte region, for callers that set up
    /// or inspect raw buffer state.
    pub fn buffer_mut(&mut self) -> (r: &mut AtomicBuffer)
        ensures
            r@ == old(self)@,
            final(self)@ == final(r)@,
            final(self).spec_capacity() == old(self).spec_capacity(),
            final(r)@.len() == old(self)@.len() && old(self).inv() ==> final(self).inv(),
    {
        &mut self.buffer
    }

    fn check_msg_length(&self, length: Index) -> (r: Result<(), RingBufferError>)
        requires
            self.inv(),
        ensures
            r is Ok <==> length <= self.spec_capacity() / 8,
            r matches Err(e) ==> e == (RingBufferError::MessageTooLong {
                max_msg_length: (self.spec_capacity() / 8) as i32,
                length,
            }),
    {
        if length > self.max_msg_length {
            Err(
                RingBufferError::MessageTooLong {
                    max_msg_length: self.max_msg_length,
                    length,
                },
            )
        } else {
            Ok(())
        }
    }

    /// Draw the next globally unique correlation id: the previous counter
    /// value, incrementing the counter (with wraparound at the 64-bit
    /// limit).
    pub fn next_correlation_id(&mut self) -> (r: i64)
        requires
            old(self).inv(),
        ensures
            final(self).inv(),
            final(self).spec_capacity() == old(self).spec_capacity(),
            final(self)@.len() == old(self)@.len(),
            r == spec_correlation_counter(old(self)@, old(self).spec_capacity()),
            spec_correlation_counter(final(self)@, final(self).spec_capacity())
                == vstd::wrapping::i64_specs::wrapping_add(r, 1),
            spec_tail_position(final(self)@, old(self).spec_capacity()) == spec_tail_position(
                old(self)@,
                old(self).spec_capacity(),
            ),
            spec_head_position(final(self)@, old(self).spec_capacity()) == spec_head_position(
                old(self)@,
                old(self).spec_capacity(),
            ),
            spec_head_cache_position(final(self)@, old(self).spec_capacity())
                == spec_head_cache_position(old(self)@, old(self).spec_capacity()),
            forall|j: int|
                0 <= j < old(self)@.len() && !(old(self).spec_capacity()
                    + RingBufferDescriptor::CORRELATION_COUNTER_OFFSET <= j < old(
                    self,
                ).spec_capacity() + RingBufferDescriptor::CORRELATION_COUNTER_OFFSET + 8)
                    ==> final(self)@[j] == old(self)@[j],
    {
        let r = self.buffer.get_and_add_i64(self.correlation_id_counter_index, 1);
        proof {
            lemma_i64_at_equal(
                old(self)@,
                self@,
                self.capacity as int + RingBufferDescriptor::TAIL_POSITION_OFFSET,
            );
            lemma_i64_at_equal(
                old(self)@,
                self@,
                self.capacity as int + RingBufferDescriptor::HEAD_POSITION_OFFSET,
            );
            lemma_i64_at_equal(
                old(self)@,
                self@,
                self.capacity as int + RingBufferDescriptor::HEAD_CACHE_POSITION_OFFSET,
            );
        }
        r
    }

    /// Append a message read from `src_buffer[src_index..src_index + length]`
    /// under `msg_type_id`. Fails fatally on a non-positive type id or an
    /// oversized message; returns `Ok(false)` when the ring lacks space, and
    /// `Ok(true)` once the record is committed.
    #[verifier::rlimit(100)]
    pub fn write(
        &mut self,
        msg_type_id: i32,
        src_buffer: &AtomicBuffer,
        src_index: Index,
        length: Index,
    ) -> (r: Result<bool, RingBufferError>)
        requires
            old(self).inv(),
            spec_counters_sane(old(self)@, old(self).spec_capacity()),
            spec_tail_position(old(self)@, old(self).spec_capacity()) + 2 * old(
                self,
            ).spec_capacity() <= i64::MAX,
            0 <= length,
            0 <= src_index,
            src_index + length <= src_buffer@.len(),
        ensures
            final(self).inv(),
            final(self).spec_capacity() == old(self).spec_capacity(),
            final(self)@.len() == old(self)@.len(),
            spec_spsc_write_outcome(
                old(self)@,
                final(self)@,
                old(self).spec_capacity(),
                msg_type_id,
                src_buffer@,
                src_index as int,
                length as int,
                r,
            ),
            spec_counters_sane(final(self)@, old(self).spec_capacity()),
            spec_head_position(final(self)@, old(self).spec_capacity()) == spec_head_position(
                old(self)@,
                old(self).spec_capacity(),
            ),
    {
        let ghost cap = self.capacity as int;
        let ghost s0 = self@;

        if let Err(e) = RecordDescriptor::check_msg_type_id(msg_type_id) {
            return Err(e);
        }
        if let Err(e) = self.check_msg_length(length) {
            return Err(e);
        }

        let record_length: Index = length + RecordDescriptor::HEADER_LENGTH;
        proof {
            lemma_eight_is_power_of_two();
            lemma_align_properties(record_length as int, RecordDescriptor::ALIGNMENT as int);
        }
        let aligned_record_length: Index = align(record_length, RecordDescriptor::ALIGNMENT);
        let required_capacity: Index = aligned_record_length + RecordDescriptor::HEADER_LENGTH;
        let ghost required = required_capacity as int;
        let mask: i64 = self.capacity as i64 - 1;

        let mut head: i64 = self.buffer.get_i64(self.head_cache_position_index);
        let tail: i64 = self.buffer.get_i64(self.tail_position_index);
        let ghost cache0 = spec_head_cache_position(s0, cap);
        let ghost head0 = spec_head_position(s0, cap);
        let available_capacity: Index = self.capacity - (tail - head) as Index;

        if required_capacity > available_capacity {
            head = self.buffer.get_i64_volatile(self.head_position_index);

            if required_capacity > (self.capacity - (tail - head) as Index) {
                assert(!spec_claim_accepts(s0, cap, required));
                assert(spec_head_cache_position(self@, cap) == spec_claim_new_cache(
                    s0,
                    cap,
                    required,
                ));
                return Ok(false);
            }
            self.buffer.put_i64(self.head_cache_position_index, head);
        }
        let ghost s_cached = self@;
        proof {
            lemma_i64_at_equal(s0, s_cached, cap + RingBufferDescriptor::TAIL_POSITION_OFFSET);
            lemma_i64_at_equal(s0, s_cached, cap + RingBufferDescriptor::HEAD_POSITION_OFFSET);
            lemma_i64_at_equal(
                s0,
                s_cached,
                cap + RingBufferDescriptor::CORRELATION_COUNTER_OFFSET,
            );
            lemma_mask_is_mod(tail, self.capacity as i64);
            lemma_mask_is_mod(head, self.capacity as i64);
        }

        let mut padding: Index = 0;
        let mut record_index: Index = (tail & mask) as Index;
        let to_buffer_end_length: Index = self.capacity - record_index;
        let ghost ri = tail as int % cap;
        let ghost wraps = spec_claim_wraps(s0, cap, required);

        if required_capacity > to_buffer_end_length {
            let mut head_index: Index = (head & mask) as Index;

            if required_capacity > head_index {
                head = self.buffer.get_i64_volatile(self.head_position_index);
                proof {
                    lemma_mask_is_mod(head, self.capacity as i64);
                }
                head_index = (head & mask) as Index;

                if required_capacity > head_index {
                    assert(!spec_claim_accepts(s0, cap, required));
                    assert(spec_head_cache_position(self@, cap) == spec_claim_new_cache(
                        s0,
                        cap,
                        required,
                    ));
                    return Ok(false);
                }

                self.buffer.put_i64_ordered(self.head_cache_position_index, head);
            } else {
                proof {
                    lemma_same_lap_index(head, tail, cap);
                    lemma_same_lap_index(head0, tail, cap);
                }
            }
            padding = to_buffer_end_length;
        }
        let ghost s_claimed = self@;
        proof {
            lemma_i64_at_equal(s_cached, s_claimed, cap + RingBufferDescriptor::TAIL_POSITION_OFFSET);
            lemma_i64_at_equal(s_cached, s_claimed, cap + RingBufferDescriptor::HEAD_POSITION_OFFSET);
            lemma_i64_at_equal(
                s_cached,
                s_claimed,
                cap + RingBufferDescriptor::CORRELATION_COUNTER_OFFSET,
            );
            assert(spec_claim_accepts(s0, cap, required));
            assert(spec_head_cache_position(s_claimed, cap) == spec_claim_new_cache(
                s0,
                cap,
                required,
            ));
            assert(wraps ==> required <= head0 as int % cap) by {
                if wraps {
                    lemma_same_lap_index(head0, tail, cap);
                }
            }
            assert(forall|j: int|
                0 <= j < s0.len() && !(cap + RingBufferDescriptor::HEAD_CACHE_POSITION_OFFSET <= j
                    < cap + RingBufferDescriptor::HEAD_CACHE_POSITION_OFFSET + 8)
                    ==> #[trigger] s_claimed[j] == s0[j]);
        }

        self.buffer.put_i64_ordered(
            self.tail_position_index,
            tail + (aligned_record_length + padding) as i64,
        );
        let ghost s_tail = self@;

        if 0 != padding {
            self.buffer.put_i64(0, 0);
            self.buffer.put_i64_ordered(
                record_index,
                RecordDescriptor::make_header(padding, RecordDescriptor::PADDING_MSG_TYPE_ID),
            );
            record_index = 0;
        }
        let ghost s_padded = self@;

        self.buffer.put_i64(record_index + aligned_record_length, 0);
        let ghost s_zeroed = self@;

        self.buffer.put_bytes(
            RecordDescriptor::encoded_msg_offset(record_index),
            src_buffer,
            src_index,
            length,
        );
        let ghost s_copied = self@;

        self.buffer.put_i64_ordered(
            record_index,
            RecordDescriptor::make_header(record_length, msg_type_id),
        );

        proof {
            let s6 = self@;
            let start = if wraps { 0int } else { ri };
            let aligned = aligned_record_length as int;
            lemma_i64_at_equal(s_tail, s6, cap + RingBufferDescriptor::TAIL_POSITION_OFFSET);
            lemma_i64_at_equal(s_claimed, s6, cap + RingBufferDescriptor::HEAD_POSITION_OFFSET);
            lemma_i64_at_equal(s_claimed, s6, cap + RingBufferDescriptor::HEAD_CACHE_POSITION_OFFSET);
            lemma_i64_at_equal(s_claimed, s6, cap + RingBufferDescriptor::CORRELATION_COUNTER_OFFSET);
            if wraps {
                assert(tail - head0 <= tail as int % cap);
                lemma_same_lap_index(head0, tail, cap);
                assert(required <= ri);
                lemma_i64_at_equal(s_padded, s6, ri);
            }
            lemma_i64_at_equal(s_zeroed, s6, start + aligned);
            assert(forall|k: int|
                0 <= k < length ==> s6[start + 8 + k] == #[trigger] src_buffer@[src_index + k]);
            assert(spec_tail_position(s6, cap) == tail + aligned + padding as int);
            assert(spec_head_position(s6, cap) == head0);
            let cache2 = spec_claim_new_cache(s0, cap, required);
            assert(cache2 == cache0 || cache2 == head0);
            assert(spec_head_cache_position(s6, cap) == cache2);
            assert(spec_tail_position(s6, cap) - spec_head_position(s6, cap) <= cap);
            if cache2 == cache0 && required <= cap - (tail - cache0) {
                assert(tail + aligned + padding - cache0 < 2 * cap);
            }
            assert(spec_counters_sane(s6, cap));
        }

        Ok(true)
    }

    /// Dispatch committed records to `handler`, at most `message_count_limit`
    /// of them, then zero the consumed bytes and release them by advancing
    /// the head position. Returns how many messages were dispatched.
    pub fn read<H: MessageHandler>(&mut self, handler: &mut H, message_count_limit: u32) -> (r:
        u32)
        requires
            old(self).inv(),
            spec_counters_sane(old(self)@, old(self).spec_capacity()),
            spec_tail_position(old(self)@, old(self).spec_capacity()) + 2 * old(
                self,
            ).spec_capacity() <= i64::MAX,
            spec_region_scannable(
                old(self)@,
                spec_head_position(old(self)@, old(self).spec_capacity()) as int % old(
                    self,
                ).spec_capacity(),
                old(self).spec_capacity(),
            ),
            spec_read_scan(old(self)@, old(self).spec_capacity(), message_count_limit as int).0
                <= spec_tail_position(old(self)@, old(self).spec_capacity()) - spec_head_position(
                old(self)@,
                old(self).spec_capacity(),
            ),
        ensures
            final(self).inv(),
            final(self).spec_capacity() == old(self).spec_capacity(),
            final(self)@.len() == old(self)@.len(),
            r as int == spec_read_scan(
                old(self)@,
                old(self).spec_capacity(),
                message_count_limit as int,
            ).1.len(),
            final(handler).seen() == old(handler).seen() + spec_read_scan(
                old(self)@,
                old(self).spec_capacity(),
                message_count_limit as int,
            ).1,
            spec_head_position(final(self)@, old(self).spec_capacity()) == spec_head_position(
                old(self)@,
                old(self).spec_capacity(),
            ) + spec_read_scan(old(self)@, old(self).spec_capacity(), message_count_limit as int).0,
            spec_head_position(final(self)@, old(self).spec_capacity()) >= spec_head_position(
                old(self)@,
                old(self).spec_capacity(),
            ),
            forall|k: int|
                0 <= k < spec_read_scan(
                    old(self)@,
                    old(self).spec_capacity(),
                    message_count_limit as int,
                ).0 ==> #[trigger] final(self)@[spec_head_position(
                    old(self)@,
                    old(self).spec_capacity(),
                ) as int % old(self).spec_capacity() + k] == 0,
            forall|j: int|
                0 <= j < old(self)@.len() && !(spec_head_position(
                    old(self)@,
                    old(self).spec_capacity(),
                ) as int % old(self).spec_capacity() <= j < spec_head_position(
                    old(self)@,
                    old(self).spec_capacity(),
                ) as int % old(self).spec_capacity() + spec_read_scan(
                    old(self)@,
                    old(self).spec_capacity(),
                    message_count_limit as int,
                ).0) && !(old(self).spec_capacity() + RingBufferDescriptor::HEAD_POSITION_OFFSET
                <= j < old(self).spec_capacity() + RingBufferDescriptor::HEAD_POSITION_OFFSET + 8)
                ==> final(self)@[j] == old(self)@[j],
            spec_tail_position(final(self)@, old(self).spec_capacity()) == spec_tail_position(
                old(self)@,
                old(self).spec_capacity(),
            ),
            spec_head_cache_position(final(self)@, old(self).spec_capacity())
                == spec_head_cache_position(old(self)@, old(self).spec_capacity()),
            spec_correlation_counter(final(self)@, old(self).spec_capacity())
                == spec_correlation_counter(old(self)@, old(self).spec_capacity()),
            spec_counters_sane(final(self)@, old(self).spec_capacity()),
    {
        let r = read_records(
            &mut self.buffer,
            self.capacity,
            self.head_position_index,
            handler,
            message_count_limit,
        );
        proof {
            let cap = old(self).spec_capacity();
            let head = spec_head_position(old(self)@, cap) as int;
            lemma_scan_bounds(old(self)@, head % cap, cap, message_count_limit as int);
        }
        r
    }

    /// Nothing to unblock with a single producer: a claimed slot is always
    /// committed before the producer returns.
    pub fn unblock(&mut self) -> (r: bool)
        ensures
            r == false,
            *final(self) == *old(self),
    {
        false
    }
}

impl RingBuffer for OneToOneRingBuffer {
    open spec fn rb_inv(&self) -> bool {
        self.inv()
    }

    open spec fn rb_capacity(&self) -> int {
        self.spec_capacity()
    }

    open spec fn rb_view(&self) -> Seq<u8> {
        self@
    }

    fn capacity(&self) -> (r: Index) {
        self.capacity()
    }

    fn max_msg_length(&self) -> (r: Index) {
        self.max_msg_length()
    }

    fn write(
        &mut self,
        msg_type_id: i32,
        src_buffer: &AtomicBuffer,
        src_index: Index,
        length: Index,
    ) -> (r: Result<bool, RingBufferError>) {
        self.write(msg_type_id, src_buffer, src_index, length)
    }

    fn read<H: MessageHandler>(&mut self, handler: &mut H, message_count_limit: u32) -> (r: u32) {
        self.read(handler, message_count_limit)
    }

    fn next_correlation_id(&mut self) -> (r: i64) {
        self.next_correlation_id()
    }

    fn unblock(&mut self) -> (r: bool) {
        self.unblock()
    }
}

} // verus!
