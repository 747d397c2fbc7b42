//! The record format, the trailer layout, the errors, the handler contract,
//! and the consumer-side scan shared by both ring-buffer engines.

use vstd::prelude::*;

verus! {

use crate::atomic_buffer::AtomicBuffer;
use crate::bit_util::CACHE_LINE_LENGTH;
use crate::bit_util::Index;
use crate::bit_util::align;
use crate::bit_util::is_power_of_two;
use crate::bit_util::lemma_align_properties;
use crate::bit_util::lemma_eight_is_power_of_two;
use crate::bit_util::lemma_mask_is_mod;
use crate::bit_util::spec_align;
use crate::bit_util::spec_is_power_of_two;
use crate::bytes::i64_at;
use crate::bytes::lemma_i64_at_equal;

/// How an operation on a ring buffer fails. Each variant carries the values
/// the failure is about.
#[derive(Debug, Clone, Copy, PartialEq, Eq, Structural)]
pub enum RingBufferError {
    /// The byte region's data part is not a positive power of two.
    CapacityNotPowerOfTwo { capacity: Index },
    /// `write` was given a message type id below 1.
    MessageTypeNonPositive { msg_type_id: i32 },
    /// `write` was given a message longer than `max_msg_length`.
    MessageTooLong { max_msg_length: Index, length: Index },
}

/// The trailer: control counters placed after the data region, each on its
/// own cache-line-padded slot. Offsets are relative to the trailer start.
pub struct RingBufferDescriptor;

impl RingBufferDescriptor {
    pub const TAIL_POSITION_OFFSET: Index = CACHE_LINE_LENGTH * 2;
    pub const HEAD_CACHE_POSITION_OFFSET: Index = CACHE_LINE_LENGTH * 4;
    pub const HEAD_POSITION_OFFSET: Index = CACHE_LINE_LENGTH * 6;
    pub const CORRELATION_COUNTER_OFFSET: Index = CACHE_LINE_LENGTH * 8;
    pub const CONSUMER_HEARTBEAT_OFFSET: Index = CACHE_LINE_LENGTH * 10;

    /// Total length of the trailer in bytes.
    pub const TRAILER_LENGTH: Index = CACHE_LINE_LENGTH * 12;

    /// A data region must be a positive power of two in size.
    pub fn check_capacity(capacity: Index) -> (r: Result<(), RingBufferError>)
        ensures
            r is Ok <==> spec_is_power_of_two(capacity as int),
            r matches Err(e) ==> e == (RingBufferError::CapacityNotPowerOfTwo { capacity }),
    {
        if is_power_of_two(capacity) {
            Ok(())
        } else {
            Err(RingBufferError::CapacityNotPowerOfTwo { capacity })
        }
    }
}

/// A record: an 8-byte header (32-bit length, then 32-bit type id, both
/// signed and little-endian) followed by the encoded message. The length
/// counts header plus message; a negative length marks a record that is
/// claimed but not yet committed. Record starts are 8-byte aligned.
pub struct RecordDescriptor;

/// The 64-bit header word holding `length` in its low half and
/// `msg_type_id` in its high half.
pub open spec fn spec_make_header(length: i32, msg_type_id: i32) -> i64 {
    (((msg_type_id as i64) & 0xFFFF_FFFFi64) << 32) | ((length as i64) & 0xFFFF_FFFFi64)
}

/// The record length held in the low half of a header word.
pub open spec fn spec_record_length(header: i64) -> i32 {
    header as i32
}

/// The message type id held in the high half of a header word.
pub open spec fn spec_message_type_id(header: i64) -> i32 {
    (header >> 32) as i32
}

/// A header word assembled from a length and a type id gives them back.
pub proof fn lemma_make_header_parts(length: i32, msg_type_id: i32)
    by (bit_vector)
    ensures
        spec_record_length(spec_make_header(length, msg_type_id)) == length,
        spec_message_type_id(spec_make_header(length, msg_type_id)) == msg_type_id,
{
}

/// Committing a claimed record by storing its positive length over the low
/// half of the header leaves exactly the header that `spec_make_header`
/// would build from that length: the type id in the high half does not
/// depend on the length the slot was claimed with.
pub proof fn lemma_commit_header(length: i32, msg_type_id: i32, claimed_length: i32, w: u32)
    by (bit_vector)
    requires
        w as i32 == length,
    ensures
        ((spec_make_header(claimed_length, msg_type_id) >> 32) << 32) | (w as i64)
            == spec_make_header(length, msg_type_id),
{
}

impl RecordDescriptor {
    pub const HEADER_LENGTH: Index = 8;
    pub const ALIGNMENT: Index = 8;
    pub const PADDING_MSG_TYPE_ID: i32 = -1;

    /// Offset of the 32-bit length field within the buffer.
    pub fn length_offset(record_offset: Index) -> (r: Index)
        ensures
            r == record_offset,
    {
        record_offset
    }

    /// Offset of the 32-bit type-id field within the buffer.
    pub fn type_offset(record_offset: Index) -> (r: Index)
        requires
            record_offset + 4 <= i32::MAX,
        ensures
            r == record_offset + 4,
    {
        record_offset + 4
    }

    /// Offset of the encoded message within the buffer.
    pub fn encoded_msg_offset(record_offset: Index) -> (r: Index)
        requires
            record_offset + 8 <= i32::MAX,
        ensures
            r == record_offset + 8,
    {
        record_offset + RecordDescriptor::HEADER_LENGTH
    }

    pub fn make_header(length: i32, msg_type_id: i32) -> (r: i64)
        ensures
            r == spec_make_header(length, msg_type_id),
    {
        (((msg_type_id as i64) & 0xFFFF_FFFF) << 32) | (length as i64 & 0xFFFF_FFFF)
    }

    pub fn record_length(header: i64) -> (r: i32)
        ensures
            r == spec_record_length(header),
    {
        #[verifier::truncate] (header as i32)
    }

    pub fn message_type_id(header: i64) -> (r: i32)
        ensures
            r == spec_message_type_id(header),
    {
        #[verifier::truncate] ((header >> 32) as i32)
    }

    /// User message type ids must be at least 1; everything below is
    /// reserved (`-1` marks padding).
    pub fn check_msg_type_id(msg_type_id: i32) -> (r: Result<(), RingBufferError>)
        ensures
            r is Ok <==> msg_type_id >= 1,
            r matches Err(e) ==> e == (RingBufferError::MessageTypeNonPositive { msg_type_id }),
    {
        if msg_type_id < 1 {
            Err(RingBufferError::MessageTypeNonPositive { msg_type_id })
        } else {
            Ok(())
        }
    }
}

/// The producer-side byte count of claimed space.
pub open spec fn spec_tail_position(s: Seq<u8>, capacity: int) -> i64 {
    i64_at(s, capacity + RingBufferDescriptor::TAIL_POSITION_OFFSET)
}

/// The producer's cached copy of the last observed head position.
pub open spec fn spec_head_cache_position(s: Seq<u8>, capacity: int) -> i64 {
    i64_at(s, capacity + RingBufferDescriptor::HEAD_CACHE_POSITION_OFFSET)
}

/// The consumer-side byte count of released space.
pub open spec fn spec_head_position(s: Seq<u8>, capacity: int) -> i64 {
    i64_at(s, capacity + RingBufferDescriptor::HEAD_POSITION_OFFSET)
}

/// The unique-id dispenser.
pub open spec fn spec_correlation_counter(s: Seq<u8>, capacity: int) -> i64 {
    i64_at(s, capacity + RingBufferDescriptor::CORRELATION_COUNTER_OFFSET)
}

/// The layout every ring buffer relies on: a power-of-two data region
/// followed by the trailer.
pub open spec fn spec_buffer_layout(len: int, capacity: int) -> bool {
    &&& spec_is_power_of_two(capacity)
    &&& 1 <= capacity <= 0x4000_0000
    &&& len == capacity + RingBufferDescriptor::TRAILER_LENGTH
}

/// The counters are in the state the protocol maintains: positions do not
/// run backwards, at most `capacity` bytes are outstanding, and the
/// producer's cached head is never ahead of the real head nor more than a
/// claim round behind the tail.
pub open spec fn spec_counters_sane(s: Seq<u8>, capacity: int) -> bool {
    let cache = spec_head_cache_position(s, capacity);
    let head = spec_head_position(s, capacity);
    let tail = spec_tail_position(s, capacity);
    &&& 0 <= cache <= head <= tail
    &&& tail - head <= capacity
    &&& tail - cache < 2 * capacity
}

/// Whether a claim of `required` contiguous bytes succeeds against the
/// counters in `s`: the bytes must be free, and on a wrap the space below
/// the head's data index must hold them.
pub open spec fn spec_claim_accepts(s: Seq<u8>, capacity: int, required: int) -> bool {
    let head = spec_head_position(s, capacity) as int;
    let tail = spec_tail_position(s, capacity) as int;
    &&& required <= capacity - (tail - head)
    &&& (!spec_claim_wraps(s, capacity, required) || required <= head % capacity)
}

/// Whether a claim of `required` bytes has to wrap: it does not fit between
/// the tail's data index and the end of the data region.
pub open spec fn spec_claim_wraps(s: Seq<u8>, capacity: int, required: int) -> bool {
    required > capacity - (spec_tail_position(s, capacity) as int % capacity)
}

/// The value a claim attempt leaves in the head-cache slot: the cache is
/// kept when it alone shows enough space, and refreshed from the head
/// position whenever the producer had to consult it.
pub open spec fn spec_claim_new_cache(s: Seq<u8>, capacity: int, required: int) -> i64 {
    let cache = spec_head_cache_position(s, capacity);
    let head = spec_head_position(s, capacity);
    let tail = spec_tail_position(s, capacity) as int;
    let fits_by_cache = required <= capacity - (tail - cache);
    let wraps = spec_claim_wraps(s, capacity, required);
    if fits_by_cache && (!wraps || required <= cache as int % capacity) {
        cache
    } else if spec_claim_accepts(s, capacity, required) {
        head
    } else if !fits_by_cache && required <= capacity - (tail - head) {
        head
    } else {
        cache
    }
}

/// Two positions at most one ring apart index into the same lap of the data
/// region: the earlier one's index is the later one's, shifted back by their
/// distance.
pub proof fn lemma_same_lap_index(earlier: i64, later: i64, capacity: int)
    requires
        1 <= capacity,
        0 <= earlier <= later,
        later - earlier <= later as int % capacity,
    ensures
        earlier as int % capacity == later as int % capacity - (later - earlier),
{
    let q = later as int / capacity;
    vstd::arithmetic::div_mod::lemma_fundamental_div_mod(later as int, capacity);
    vstd::arithmetic::div_mod::lemma_fundamental_div_mod_converse(
        earlier as int,
        capacity,
        q,
        later as int % capacity - (later - earlier),
    );
}

/// The operations both ring-buffer engines offer. The engines' own methods
/// carry exact byte-level contracts; what the trait states is the part they
/// share: validation fails exactly on a bad type id or an oversized message,
/// the counter discipline is kept, a producer never moves the head, and a
/// read pass dispatches and releases exactly what the committed records
/// ahead of the head hold.
pub trait RingBuffer: Sized {
    /// The engine's structural invariant.
    spec fn rb_inv(&self) -> bool;

    /// The data-region size in bytes.
    spec fn rb_capacity(&self) -> int;

    /// The bytes of the underlying region.
    spec fn rb_view(&self) -> Seq<u8>;

    fn capacity(&self) -> (r: Index)
        requires
            self.rb_inv(),
        ensures
            r == self.rb_capacity(),
    ;

    fn max_msg_length(&self) -> (r: Index)
        requires
            self.rb_inv(),
        ensures
            r == self.rb_capacity() / 8,
    ;

    fn write(
        &mut self,
        msg_type_id: i32,
        src_buffer: &AtomicBuffer,
        src_index: Index,
        length: Index,
    ) -> (r: Result<bool, RingBufferError>)
        requires
            old(self).rb_inv(),
            spec_counters_sane(old(self).rb_view(), old(self).rb_capacity()),
            spec_tail_position(old(self).rb_view(), old(self).rb_capacity()) + 2 * old(
                self,
            ).rb_capacity() <= i64::MAX,
            0 <= length,
            0 <= src_index,
            src_index + length <= src_buffer@.len(),
        ensures
            final(self).rb_inv(),
            final(self).rb_capacity() == old(self).rb_capacity(),
            final(self).rb_view().len() == old(self).rb_view().len(),
            spec_counters_sane(final(self).rb_view(), old(self).rb_capacity()),
            spec_head_position(final(self).rb_view(), old(self).rb_capacity())
                == spec_head_position(old(self).rb_view(), old(self).rb_capacity()),
            r is Err <==> (msg_type_id < 1 || length > old(self).rb_capacity() / 8),
    ;

    fn read<H: MessageHandler>(&mut self, handler: &mut H, message_count_limit: u32) -> (r: u32)
        requires
            old(self).rb_inv(),
            spec_counters_sane(old(self).rb_view(), old(self).rb_capacity()),
            spec_tail_position(old(self).rb_view(), old(self).rb_capacity()) + 2 * old(
                self,
            ).rb_capacity() <= i64::MAX,
            spec_region_scannable(
                old(self).rb_view(),
                spec_head_position(old(self).rb_view(), old(self).rb_capacity()) as int % old(
                    self,
                ).rb_capacity(),
                old(self).rb_capacity(),
            ),
            spec_read_scan(
                old(self).rb_view(),
                old(self).rb_capacity(),
                message_count_limit as int,
            ).0 <= spec_tail_position(old(self).rb_view(), old(self).rb_capacity())
                - spec_head_position(old(self).rb_view(), old(self).rb_capacity()),
        ensures
            final(self).rb_inv(),
            final(self).rb_capacity() == old(self).rb_capacity(),
            final(self).rb_view().len() == old(self).rb_view().len(),
            r as int == spec_read_scan(
                old(self).rb_view(),
                old(self).rb_capacity(),
                message_count_limit as int,
            ).1.len(),
            final(handler).seen() == old(handler).seen() + spec_read_scan(
                old(self).rb_view(),
                old(self).rb_capacity(),
                message_count_limit as int,
            ).1,
            spec_head_position(final(self).rb_view(), old(self).rb_capacity())
                == spec_head_position(old(self).rb_view(), old(self).rb_capacity())
                + spec_read_scan(
                old(self).rb_view(),
                old(self).rb_capacity(),
                message_count_limit as int,
            ).0,
            spec_counters_sane(final(self).rb_view(), old(self).rb_capacity()),
    ;

    fn next_correlation_id(&mut self) -> (r: i64)
        requires
            old(self).rb_inv(),
        ensures
            final(self).rb_inv(),
            final(self).rb_capacity() == old(self).rb_capacity(),
            r == spec_correlation_counter(old(self).rb_view(), old(self).rb_capacity()),
            spec_correlation_counter(final(self).rb_view(), final(self).rb_capacity())
                == vstd::wrapping::i64_specs::wrapping_add(r, 1),
    ;

    fn unblock(&mut self) -> (r: bool)
        requires
            old(self).rb_inv(),
            spec_counters_sane(old(self).rb_view(), old(self).rb_capacity()),
            crate::bytes::i32_at(
                old(self).rb_view(),
                spec_head_position(old(self).rb_view(), old(self).rb_capacity()) as int % old(
                    self,
                ).rb_capacity(),
            ) != i32::MIN,
        ensures
            final(self).rb_inv(),
            final(self).rb_capacity() == old(self).rb_capacity(),
            final(self).rb_view().len() == old(self).rb_view().len(),
            spec_counters_sane(final(self).rb_view(), old(self).rb_capacity()),
            spec_head_position(final(self).rb_view(), old(self).rb_capacity())
                == spec_head_position(old(self).rb_view(), old(self).rb_capacity()),
            spec_tail_position(final(self).rb_view(), old(self).rb_capacity())
                == spec_tail_position(old(self).rb_view(), old(self).rb_capacity()),
    ;
}

/// A consumer of dispatched messages. `seen` is the abstract log of what the
/// handler has been given; `on_message` appends the message it is handed.
pub trait MessageHandler {
    spec fn seen(&self) -> Seq<(i32, Seq<u8>)>;

    fn on_message(&mut self, msg_type_id: i32, buffer: &AtomicBuffer, index: Index, length: Index)
        requires
            0 <= index,
            0 <= length,
            index + length <= buffer@.len(),
            index + length <= i32::MAX,
        ensures
            final(self).seen() == old(self).seen().push(
                (msg_type_id, buffer@.subrange(index as int, index + length)),
            ),
    ;
}

/// What one `read` pass dispatches and consumes, scanning records from `i`
/// up to `end` with `limit` messages still allowed: the consumed byte count
/// and the dispatched messages in order. The scan stops at the first header
/// whose length is not strictly positive and skips padding records.
pub open spec fn spec_scan(s: Seq<u8>, i: int, end: int, limit: int) -> (int, Seq<(i32, Seq<u8>)>)
    decreases end - i,
    via spec_scan_decreases
{
    if i >= end || limit <= 0 {
        (0, Seq::empty())
    } else {
        let rlen = spec_record_length(i64_at(s, i));
        if rlen <= 0 {
            (0, Seq::empty())
        } else {
            let adv = spec_align(rlen as int, RecordDescriptor::ALIGNMENT as int);
            if spec_message_type_id(i64_at(s, i)) == RecordDescriptor::PADDING_MSG_TYPE_ID {
                let rest = if i + adv < end {
                    spec_scan(s, i + adv, end, limit)
                } else {
                    (0, Seq::empty())
                };
                (adv + rest.0, rest.1)
            } else {
                let rest = if i + adv < end {
                    spec_scan(s, i + adv, end, limit - 1)
                } else {
                    (0, Seq::empty())
                };
                (
                    adv + rest.0,
                    seq![
                        (
                            spec_message_type_id(i64_at(s, i)),
                            s.subrange(i + RecordDescriptor::HEADER_LENGTH, i + rlen),
                        ),
                    ] + rest.1,
                )
            }
        }
    }
}

#[via_fn]
proof fn spec_scan_decreases(s: Seq<u8>, i: int, end: int, limit: int) {
    if !(i >= end || limit <= 0) {
        let rlen = spec_record_length(i64_at(s, i));
        if rlen > 0 {
            lemma_align_properties(rlen as int, RecordDescriptor::ALIGNMENT as int);
        }
    }
}

/// Every committed record between `i` and `end` lies whole inside that
/// range and is at least a header long; scanning stops at the first header
/// whose length is not strictly positive.
pub open spec fn spec_region_scannable(s: Seq<u8>, i: int, end: int) -> bool
    decreases end - i,
    via spec_region_scannable_decreases
{
    if i >= end {
        true
    } else {
        let rlen = spec_record_length(i64_at(s, i));
        ||| rlen <= 0
        ||| {
            &&& rlen >= RecordDescriptor::HEADER_LENGTH
            &&& i + spec_align(rlen as int, RecordDescriptor::ALIGNMENT as int) <= end
            &&& spec_region_scannable(
                s,
                i + spec_align(rlen as int, RecordDescriptor::ALIGNMENT as int),
                end,
            )
        }
    }
}

#[via_fn]
proof fn spec_region_scannable_decreases(s: Seq<u8>, i: int, end: int) {
    if i < end {
        let rlen = spec_record_length(i64_at(s, i));
        if rlen > 0 {
            lemma_align_properties(rlen as int, RecordDescriptor::ALIGNMENT as int);
        }
    }
}

/// What `spec_scan` makes of the committed records ahead of `head`: the scan
/// starts at the head's data index and runs to the end of the data region.
pub open spec fn spec_read_scan(s: Seq<u8>, capacity: int, limit: int) -> (int, Seq<(i32, Seq<u8>)>) {
    spec_scan(s, spec_head_position(s, capacity) as int % capacity, capacity, limit)
}

/// One consumer pass, shared by both engines: dispatch committed records
/// from the head onward, then zero the consumed bytes and release them by
/// advancing the head position.
pub(crate) fn read_records<H: MessageHandler>(
    buffer: &mut AtomicBuffer,
    capacity: Index,
    head_position_index: Index,
    handler: &mut H,
    message_count_limit: u32,
) -> (r: u32)
    requires
        spec_buffer_layout(old(buffer)@.len() as int, capacity as int),
        head_position_index == capacity + RingBufferDescriptor::HEAD_POSITION_OFFSET,
        0 <= spec_head_position(old(buffer)@, capacity as int),
        spec_head_position(old(buffer)@, capacity as int) + capacity <= i64::MAX,
        spec_region_scannable(
            old(buffer)@,
            spec_head_position(old(buffer)@, capacity as int) as int % (capacity as int),
            capacity as int,
        ),
    ensures
        final(buffer)@.len() == old(buffer)@.len(),
        r as int == spec_read_scan(old(buffer)@, capacity as int, message_count_limit as int).1.len(),
        final(handler).seen() == old(handler).seen() + spec_read_scan(
            old(buffer)@,
            capacity as int,
            message_count_limit as int,
        ).1,
        spec_head_position(final(buffer)@, capacity as int) == spec_head_position(
            old(buffer)@,
            capacity as int,
        ) + spec_read_scan(old(buffer)@, capacity as int, message_count_limit as int).0,
        forall|k: int|
            0 <= k < spec_read_scan(old(buffer)@, capacity as int, message_count_limit as int).0
                ==> #[trigger] final(buffer)@[spec_head_position(old(buffer)@, capacity as int) as int
                % (capacity as int) + k] == 0,
        forall|j: int|
            0 <= j < old(buffer)@.len() && !(spec_head_position(old(buffer)@, capacity as int) as int % (
            capacity as int) <= j < spec_head_position(old(buffer)@, capacity as int) as int % (
            capacity as int) + spec_read_scan(
                old(buffer)@,
                capacity as int,
                message_count_limit as int,
            ).0) && !(capacity + RingBufferDescriptor::HEAD_POSITION_OFFSET <= j < capacity
            + RingBufferDescriptor::HEAD_POSITION_OFFSET + 8) ==> final(buffer)@[j] == old(
            buffer,
        )@[j],
        spec_tail_position(final(buffer)@, capacity as int) == spec_tail_position(
            old(buffer)@,
            capacity as int,
        ),
        spec_head_cache_position(final(buffer)@, capacity as int) == spec_head_cache_position(
            old(buffer)@,
            capacity as int,
        ),
        spec_correlation_counter(final(buffer)@, capacity as int) == spec_correlation_counter(
            old(buffer)@,
            capacity as int,
        ),
{
    let ghost cap = capacity as int;
    let head: i64 = buffer.get_i64(head_position_index);
    proof {
        lemma_mask_is_mod(head, capacity as i64);
    }
    let head_index: Index = (head & (capacity - 1) as i64) as Index;
    let contiguous_block_length: Index = capacity - head_index;
    let mut messages_read: u32 = 0;
    let mut bytes_read: Index = 0;
    let ghost s0 = buffer@;
    let ghost limit = message_count_limit as int;
    let ghost total = spec_scan(s0, head_index as int, cap, limit);
    let ghost seen0 = handler.seen();
    let ghost mut dispatched: Seq<(i32, Seq<u8>)> = Seq::empty();
    proof {
        lemma_scan_bounds(s0, head_index as int, cap, limit);
    }
    while bytes_read < contiguous_block_length && messages_read < message_count_limit
        invariant
            buffer@ == s0,
            handler.seen() == seen0 + dispatched,
            spec_buffer_layout(s0.len() as int, cap),
            cap == capacity as int,
            limit == message_count_limit as int,
            0 <= head_index < capacity,
            contiguous_block_length == capacity - head_index,
            0 <= bytes_read <= contiguous_block_length,
            0 <= messages_read <= message_count_limit,
            messages_read as int == dispatched.len(),
            spec_region_scannable(s0, head_index + bytes_read, cap),
            total == {
                let rest = spec_scan(s0, head_index + bytes_read, cap, limit - messages_read);
                (bytes_read + rest.0, dispatched + rest.1)
            },
        ensures
            buffer@ == s0,
            handler.seen() == seen0 + dispatched,
            0 <= bytes_read <= contiguous_block_length,
            messages_read as int == dispatched.len(),
            total == (bytes_read as int, dispatched),
        decreases contiguous_block_length - bytes_read,
    {
        let record_index: Index = head_index + bytes_read;
        let header: i64 = buffer.get_i64_volatile(record_index);
        let record_length: Index = RecordDescriptor::record_length(header);
        let ghost rest = spec_scan(s0, record_index as int, cap, limit - messages_read);

        if record_length <= 0 {
            break ;
        }
        proof {
            lemma_eight_is_power_of_two();
            lemma_align_properties(record_length as int, RecordDescriptor::ALIGNMENT as int);
        }
        let aligned: Index = align(record_length, RecordDescriptor::ALIGNMENT);
        bytes_read = bytes_read + aligned;

        let msg_type_id: i32 = RecordDescriptor::message_type_id(header);
        proof {
            lemma_scan_bounds(s0, head_index + bytes_read, cap, limit - messages_read);
        }
        if RecordDescriptor::PADDING_MSG_TYPE_ID == msg_type_id {
            proof {
                if record_index + aligned >= cap {
                    assert(spec_scan(s0, head_index + bytes_read, cap, limit - messages_read)
                        == (0int, Seq::<(i32, Seq<u8>)>::empty()));
                }
            }
            continue ;
        }

        messages_read += 1;
        let ghost payload = s0.subrange(
            record_index + RecordDescriptor::HEADER_LENGTH,
            record_index + record_length,
        );
        handler.on_message(
            msg_type_id,
            buffer,
            RecordDescriptor::encoded_msg_offset(record_index),
            record_length - RecordDescriptor::HEADER_LENGTH,
        );
        proof {
            dispatched = dispatched.push((msg_type_id, payload));
            assert(handler.seen() == seen0 + dispatched) by {
                assert((seen0 + dispatched.drop_last()).push((msg_type_id, payload)) =~= seen0
                    + dispatched);
            }
            if record_index + aligned >= cap {
                assert(spec_scan(s0, head_index + bytes_read, cap, limit - messages_read) == (
                0int,
                Seq::<(i32, Seq<u8>)>::empty(),
                ));
            }
            let rest2 = spec_scan(s0, head_index + bytes_read, cap, limit - messages_read);
            assert(dispatched.drop_last() + (seq![(msg_type_id, payload)] + rest2.1) =~= dispatched
                + rest2.1);
        }
    }
    if bytes_read != 0 {
        buffer.set_memory(head_index, bytes_read, 0);
        buffer.put_i64_ordered(head_position_index, head + bytes_read as i64);
        proof {
            lemma_i64_at_equal(s0, buffer@, cap + RingBufferDescriptor::TAIL_POSITION_OFFSET);
            lemma_i64_at_equal(s0, buffer@, cap + RingBufferDescriptor::HEAD_CACHE_POSITION_OFFSET);
            lemma_i64_at_equal(
                s0,
                buffer@,
                cap + RingBufferDescriptor::CORRELATION_COUNTER_OFFSET,
            );
        }
    }
    messages_read
}

/// A scan consumes a non-negative number of bytes, stays inside the region,
/// and dispatches at most `limit` messages.
pub proof fn lemma_scan_bounds(s: Seq<u8>, i: int, end: int, limit: int)
    requires
        0 <= i <= end,
        spec_region_scannable(s, i, end),
    ensures
        0 <= spec_scan(s, i, end, limit).0,
        i + spec_scan(s, i, end, limit).0 <= end,
        spec_scan(s, i, end, limit).1.len() <= if limit >= 0 {
            limit
        } else {
            0
        },
    decreases end - i,
{
    if i >= end || limit <= 0 {
    } else {
        let rlen = spec_record_length(i64_at(s, i));
        if rlen > 0 {
            let adv = spec_align(rlen as int, RecordDescriptor::ALIGNMENT as int);
            lemma_align_properties(rlen as int, RecordDescriptor::ALIGNMENT as int);
            if spec_message_type_id(i64_at(s, i)) == RecordDescriptor::PADDING_MSG_TYPE_ID {
                lemma_scan_bounds(s, i + adv, end, limit);
            } else {
                lemma_scan_bounds(s, i + adv, end, limit - 1);
            }
        }
    }
}

} // verus!
