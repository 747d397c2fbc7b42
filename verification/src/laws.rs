//! Laws relating the producer and consumer sides: what a reader gets back
//! for what a writer put in, and what the id dispenser hands out.

use vstd::prelude::*;

verus! {

use crate::bit_util::lemma_align_properties;
use crate::bit_util::spec_align;
use crate::bytes::i64_at;
use crate::ring_buffer::RecordDescriptor;
use crate::ring_buffer::RingBufferDescriptor;
use crate::ring_buffer::RingBufferError;
use crate::ring_buffer::lemma_make_header_parts;
use crate::ring_buffer::spec_claim_accepts;
use crate::ring_buffer::spec_claim_wraps;
use crate::ring_buffer::spec_counters_sane;
use crate::ring_buffer::spec_head_cache_position;
use crate::ring_buffer::spec_head_position;
use crate::ring_buffer::spec_read_scan;
use crate::ring_buffer::spec_message_type_id;
use crate::ring_buffer::spec_record_length;
use crate::ring_buffer::spec_tail_position;
use crate::one_to_one_ring_buffer::spec_spsc_write_outcome;
use crate::many_to_one_ring_buffer::spec_mpsc_write_outcome;

/// Round trip through the single-producer ring: a message written into a
/// quiescent ring (head and tail equal, no wrap needed) is exactly what the
/// next read pass dispatches — one message, with the written type id and the
/// written payload bytes — and the pass consumes the record's aligned
/// length.
pub proof fn lemma_spsc_round_trip(
    s: Seq<u8>,
    s2: Seq<u8>,
    capacity: int,
    msg_type_id: i32,
    src: Seq<u8>,
    src_index: int,
    length: int,
    limit: int,
)
    requires
        1 <= capacity <= 0x4000_0000,
        s.len() == capacity + RingBufferDescriptor::TRAILER_LENGTH,
        s2.len() == s.len(),
        spec_counters_sane(s, capacity),
        spec_head_position(s, capacity) == spec_tail_position(s, capacity),
        msg_type_id >= 1,
        0 <= length <= capacity / 8,
        0 <= src_index,
        src_index + length <= src.len(),
        !spec_claim_wraps(
            s,
            capacity,
            spec_align(length + 8, RecordDescriptor::ALIGNMENT as int) + 8,
        ),
        spec_spsc_write_outcome(
            s,
            s2,
            capacity,
            msg_type_id,
            src,
            src_index,
            length,
            Result::<bool, RingBufferError>::Ok(true),
        ),
        1 <= limit,
    ensures
        spec_read_scan(s2, capacity, limit) == (
            spec_align(length + 8, RecordDescriptor::ALIGNMENT as int),
            seq![(msg_type_id, src.subrange(src_index, src_index + length))],
        ),
{
    let aligned = spec_align(length + 8, RecordDescriptor::ALIGNMENT as int);
    let required = aligned + 8;
    let tail = spec_tail_position(s, capacity) as int;
    let ri = tail % capacity;
    lemma_align_properties(length + 8, RecordDescriptor::ALIGNMENT as int);
    assert(spec_claim_accepts(s, capacity, required));
    lemma_make_header_parts((length + 8) as i32, msg_type_id);
    assert(spec_record_length(i64_at(s2, ri)) == length + 8);
    assert(spec_head_position(s2, capacity) as int % capacity == ri);
    assert(ri + aligned + 8 <= capacity);
    assert(spec_record_length(i64_at(s2, ri + aligned)) == 0);
    let rest = crate::ring_buffer::spec_scan(s2, ri + aligned, capacity, limit - 1);
    assert(rest == (0int, Seq::<(i32, Seq<u8>)>::empty()));
    let payload = s2.subrange(ri + RecordDescriptor::HEADER_LENGTH, ri + length + 8);
    assert(payload =~= src.subrange(src_index, src_index + length)) by {
        assert forall|q: int| 0 <= q < length implies payload[q] == src.subrange(
            src_index,
            src_index + length,
        )[q] by {
            assert(s2[ri + 8 + q] == src[src_index + q]);
        }
    }
    assert(seq![(msg_type_id, payload)] + rest.1 =~= seq![(msg_type_id, payload)]);
}

/// Round trip through the multi-producer ring: as
/// [`lemma_spsc_round_trip`], with one extra premise — the header slot just
/// past the claim holds no committed record in the starting state (the
/// multi-producer writer does not pre-zero it).
pub proof fn lemma_mpsc_round_trip(
    s: Seq<u8>,
    s2: Seq<u8>,
    capacity: int,
    msg_type_id: i32,
    src: Seq<u8>,
    src_index: int,
    length: int,
    limit: int,
)
    requires
        1 <= capacity <= 0x4000_0000,
        s.len() == capacity + RingBufferDescriptor::TRAILER_LENGTH,
        s2.len() == s.len(),
        spec_counters_sane(s, capacity),
        spec_head_position(s, capacity) == spec_tail_position(s, capacity),
        msg_type_id >= 1,
        0 <= length <= capacity / 8,
        0 <= src_index,
        src_index + length <= src.len(),
        !spec_claim_wraps(s, capacity, spec_align(length + 8, RecordDescriptor::ALIGNMENT as int)),
        spec_tail_position(s, capacity) as int % capacity + spec_align(
            length + 8,
            RecordDescriptor::ALIGNMENT as int,
        ) < capacity ==> spec_record_length(
            i64_at(
                s,
                spec_tail_position(s, capacity) as int % capacity + spec_align(
                    length + 8,
                    RecordDescriptor::ALIGNMENT as int,
                ),
            ),
        ) <= 0,
        spec_mpsc_write_outcome(
            s,
            s2,
            capacity,
            msg_type_id,
            src,
            src_index,
            length,
            Result::<bool, RingBufferError>::Ok(true),
        ),
        1 <= limit,
    ensures
        spec_read_scan(s2, capacity, limit) == (
            spec_align(length + 8, RecordDescriptor::ALIGNMENT as int),
            seq![(msg_type_id, src.subrange(src_index, src_index + length))],
        ),
{
    let aligned = spec_align(length + 8, RecordDescriptor::ALIGNMENT as int);
    let tail = spec_tail_position(s, capacity) as int;
    let ri = tail % capacity;
    lemma_align_properties(length + 8, RecordDescriptor::ALIGNMENT as int);
    assert(spec_claim_accepts(s, capacity, aligned));
    lemma_make_header_parts((length + 8) as i32, msg_type_id);
    assert(spec_record_length(i64_at(s2, ri)) == length + 8);
    assert(spec_head_position(s2, capacity) as int % capacity == ri);
    assert(ri + aligned <= capacity);
    if ri + aligned < capacity {
        assert(forall|j: int|
            ri + aligned <= j < ri + aligned + 8 ==> #[trigger] s2[j] == s[j]);
        crate::bytes::lemma_i64_at_equal(s, s2, ri + aligned);
        assert(spec_record_length(i64_at(s2, ri + aligned)) <= 0);
    }
    let rest = crate::ring_buffer::spec_scan(s2, ri + aligned, capacity, limit - 1);
    assert(rest == (0int, Seq::<(i32, Seq<u8>)>::empty()));
    let payload = s2.subrange(ri + RecordDescriptor::HEADER_LENGTH, ri + length + 8);
    assert(payload =~= src.subrange(src_index, src_index + length)) by {
        assert forall|q: int| 0 <= q < length implies payload[q] == src.subrange(
            src_index,
            src_index + length,
        )[q] by {
            assert(s2[ri + 8 + q] == src[src_index + q]);
        }
    }
    assert(seq![(msg_type_id, payload)] + rest.1 =~= seq![(msg_type_id, payload)]);
}

/// First-in-first-out order through the single-producer ring: two messages
/// written in turn into a quiescent ring that holds both without wrapping
/// are dispatched by the next read pass in exactly the order they were
/// written, each with its own type id and payload.
pub proof fn lemma_spsc_fifo_order(
    s: Seq<u8>,
    s2: Seq<u8>,
    s3: Seq<u8>,
    capacity: int,
    t1: i32,
    src1: Seq<u8>,
    i1: int,
    len1: int,
    t2: i32,
    src2: Seq<u8>,
    i2: int,
    len2: int,
    limit: int,
)
    requires
        1 <= capacity <= 0x4000_0000,
        s.len() == capacity + RingBufferDescriptor::TRAILER_LENGTH,
        s2.len() == s.len(),
        s3.len() == s.len(),
        spec_counters_sane(s, capacity),
        spec_head_position(s, capacity) == spec_tail_position(s, capacity),
        t1 >= 1,
        t2 >= 1,
        0 <= len1 <= capacity / 8,
        0 <= len2 <= capacity / 8,
        0 <= i1,
        i1 + len1 <= src1.len(),
        0 <= i2,
        i2 + len2 <= src2.len(),
        spec_tail_position(s, capacity) as int % capacity + spec_align(
            len1 + 8,
            RecordDescriptor::ALIGNMENT as int,
        ) + spec_align(len2 + 8, RecordDescriptor::ALIGNMENT as int) + 8 <= capacity,
        spec_spsc_write_outcome(
            s,
            s2,
            capacity,
            t1,
            src1,
            i1,
            len1,
            Result::<bool, RingBufferError>::Ok(true),
        ),
        spec_spsc_write_outcome(
            s2,
            s3,
            capacity,
            t2,
            src2,
            i2,
            len2,
            Result::<bool, RingBufferError>::Ok(true),
        ),
        2 <= limit,
    ensures
        spec_read_scan(s3, capacity, limit) == (
            spec_align(len1 + 8, RecordDescriptor::ALIGNMENT as int) + spec_align(
                len2 + 8,
                RecordDescriptor::ALIGNMENT as int,
            ),
            seq![
                (t1, src1.subrange(i1, i1 + len1)),
                (t2, src2.subrange(i2, i2 + len2)),
            ],
        ),
{
    let a1 = spec_align(len1 + 8, RecordDescriptor::ALIGNMENT as int);
    let a2 = spec_align(len2 + 8, RecordDescriptor::ALIGNMENT as int);
    let tail = spec_tail_position(s, capacity) as int;
    let ri = tail % capacity;
    lemma_align_properties(len1 + 8, RecordDescriptor::ALIGNMENT as int);
    lemma_align_properties(len2 + 8, RecordDescriptor::ALIGNMENT as int);
    assert(!spec_claim_wraps(s, capacity, a1 + 8));
    assert(spec_claim_accepts(s, capacity, a1 + 8));

    // The second write starts exactly where the first record ends.
    let tail2 = spec_tail_position(s2, capacity) as int;
    assert(tail2 == tail + a1);
    let q = tail / capacity;
    vstd::arithmetic::div_mod::lemma_fundamental_div_mod(tail, capacity);
    vstd::arithmetic::div_mod::lemma_fundamental_div_mod_converse(
        tail2,
        capacity,
        q,
        ri + a1,
    );
    let ri2 = tail2 % capacity;
    assert(ri2 == ri + a1);
    assert(!spec_claim_wraps(s2, capacity, a2 + 8));
    assert(spec_claim_accepts(s2, capacity, a2 + 8));

    lemma_make_header_parts((len1 + 8) as i32, t1);
    lemma_make_header_parts((len2 + 8) as i32, t2);

    // The second write leaves the first record untouched.
    assert(forall|j: int| ri <= j < ri + 8 + len1 ==> #[trigger] s3[j] == s2[j]);
    crate::bytes::lemma_i64_at_equal(s2, s3, ri);
    assert(spec_record_length(i64_at(s3, ri)) == len1 + 8);
    assert(spec_record_length(i64_at(s3, ri2)) == len2 + 8);
    assert(spec_record_length(i64_at(s3, ri2 + a2)) == 0);
    assert(spec_head_position(s3, capacity) as int % capacity == ri);

    let payload1 = s3.subrange(ri + RecordDescriptor::HEADER_LENGTH, ri + len1 + 8);
    assert(payload1 =~= src1.subrange(i1, i1 + len1)) by {
        assert forall|k: int| 0 <= k < len1 implies payload1[k] == src1.subrange(i1, i1 + len1)[k]
            by {
            assert(s2[ri + 8 + k] == src1[i1 + k]);
            assert(s3[ri + 8 + k] == s2[ri + 8 + k]);
        }
    }
    let payload2 = s3.subrange(ri2 + RecordDescriptor::HEADER_LENGTH, ri2 + len2 + 8);
    assert(payload2 =~= src2.subrange(i2, i2 + len2)) by {
        assert forall|k: int| 0 <= k < len2 implies payload2[k] == src2.subrange(i2, i2 + len2)[k]
            by {
            assert(s3[ri2 + 8 + k] == src2[i2 + k]);
        }
    }

    let rest2 = crate::ring_buffer::spec_scan(s3, ri2 + a2, capacity, limit - 2);
    assert(rest2 == (0int, Seq::<(i32, Seq<u8>)>::empty()));
    let scan1 = crate::ring_buffer::spec_scan(s3, ri2, capacity, limit - 1);
    assert(scan1 == (a2 + rest2.0, seq![(t2, payload2)] + rest2.1));
    assert(seq![(t2, payload2)] + rest2.1 =~= seq![(t2, payload2)]);
    assert(seq![(t1, payload1)] + seq![(t2, payload2)] =~= seq![(t1, payload1), (t2, payload2)]);
}

/// First-in-first-out order through the multi-producer ring: as
/// [`lemma_spsc_fifo_order`], with the extra premise that the header slot
/// just past the second claim holds no committed record in the starting
/// state (the multi-producer writer does not pre-zero it).
pub proof fn lemma_mpsc_fifo_order(
    s: Seq<u8>,
    s2: Seq<u8>,
    s3: Seq<u8>,
    capacity: int,
    t1: i32,
    src1: Seq<u8>,
    i1: int,
    len1: int,
    t2: i32,
    src2: Seq<u8>,
    i2: int,
    len2: int,
    limit: int,
)
    requires
        1 <= capacity <= 0x4000_0000,
        s.len() == capacity + RingBufferDescriptor::TRAILER_LENGTH,
        s2.len() == s.len(),
        s3.len() == s.len(),
        spec_counters_sane(s, capacity),
        spec_head_position(s, capacity) == spec_tail_position(s, capacity),
        t1 >= 1,
        t2 >= 1,
        0 <= len1 <= capacity / 8,
        0 <= len2 <= capacity / 8,
        0 <= i1,
        i1 + len1 <= src1.len(),
        0 <= i2,
        i2 + len2 <= src2.len(),
        spec_tail_position(s, capacity) as int % capacity + spec_align(
            len1 + 8,
            RecordDescriptor::ALIGNMENT as int,
        ) + spec_align(len2 + 8, RecordDescriptor::ALIGNMENT as int) <= capacity,
        spec_tail_position(s, capacity) as int % capacity + spec_align(
            len1 + 8,
            RecordDescriptor::ALIGNMENT as int,
        ) + spec_align(len2 + 8, RecordDescriptor::ALIGNMENT as int) < capacity
            ==> spec_record_length(
            i64_at(
                s,
                spec_tail_position(s, capacity) as int % capacity + spec_align(
                    len1 + 8,
                    RecordDescriptor::ALIGNMENT as int,
                ) + spec_align(len2 + 8, RecordDescriptor::ALIGNMENT as int),
            ),
        ) <= 0,
        spec_mpsc_write_outcome(
            s,
            s2,
            capacity,
            t1,
            src1,
            i1,
            len1,
            Result::<bool, RingBufferError>::Ok(true),
        ),
        spec_mpsc_write_outcome(
            s2,
            s3,
            capacity,
            t2,
            src2,
            i2,
            len2,
            Result::<bool, RingBufferError>::Ok(true),
        ),
        2 <= limit,
    ensures
        spec_read_scan(s3, capacity, limit) == (
            spec_align(len1 + 8, RecordDescriptor::ALIGNMENT as int) + spec_align(
                len2 + 8,
                RecordDescriptor::ALIGNMENT as int,
            ),
            seq![
                (t1, src1.subrange(i1, i1 + len1)),
                (t2, src2.subrange(i2, i2 + len2)),
            ],
        ),
{
    let a1 = spec_align(len1 + 8, RecordDescriptor::ALIGNMENT as int);
    let a2 = spec_align(len2 + 8, RecordDescriptor::ALIGNMENT as int);
    let tail = spec_tail_position(s, capacity) as int;
    let ri = tail % capacity;
    lemma_align_properties(len1 + 8, RecordDescriptor::ALIGNMENT as int);
    lemma_align_properties(len2 + 8, RecordDescriptor::ALIGNMENT as int);
    assert(!spec_claim_wraps(s, capacity, a1));
    assert(spec_claim_accepts(s, capacity, a1));

    let tail2 = spec_tail_position(s2, capacity) as int;
    assert(tail2 == tail + a1);
    let q = tail / capacity;
    vstd::arithmetic::div_mod::lemma_fundamental_div_mod(tail, capacity);
    vstd::arithmetic::div_mod::lemma_fundamental_div_mod_converse(
        tail2,
        capacity,
        q,
        ri + a1,
    );
    let ri2 = tail2 % capacity;
    assert(ri2 == ri + a1);
    assert(!spec_claim_wraps(s2, capacity, a2));
    assert(spec_claim_accepts(s2, capacity, a2));

    lemma_make_header_parts((len1 + 8) as i32, t1);
    lemma_make_header_parts((len2 + 8) as i32, t2);

    assert(forall|j: int| ri <= j < ri + 8 + len1 ==> #[trigger] s3[j] == s2[j]);
    crate::bytes::lemma_i64_at_equal(s2, s3, ri);
    assert(spec_record_length(i64_at(s3, ri)) == len1 + 8);
    assert(spec_record_length(i64_at(s3, ri2)) == len2 + 8);
    if ri2 + a2 < capacity {
        assert(forall|j: int|
            ri2 + a2 <= j < ri2 + a2 + 8 ==> #[trigger] s2[j] == s[j]);
        assert(forall|j: int|
            ri2 + a2 <= j < ri2 + a2 + 8 ==> #[trigger] s3[j] == s2[j]);
        crate::bytes::lemma_i64_at_equal(s, s2, ri2 + a2);
        crate::bytes::lemma_i64_at_equal(s2, s3, ri2 + a2);
        assert(spec_record_length(i64_at(s3, ri2 + a2)) <= 0);
    }
    assert(spec_head_position(s3, capacity) as int % capacity == ri);

    let payload1 = s3.subrange(ri + RecordDescriptor::HEADER_LENGTH, ri + len1 + 8);
    assert(payload1 =~= src1.subrange(i1, i1 + len1)) by {
        assert forall|k: int| 0 <= k < len1 implies payload1[k] == src1.subrange(i1, i1 + len1)[k]
            by {
            assert(s2[ri + 8 + k] == src1[i1 + k]);
            assert(s3[ri + 8 + k] == s2[ri + 8 + k]);
        }
    }
    let payload2 = s3.subrange(ri2 + RecordDescriptor::HEADER_LENGTH, ri2 + len2 + 8);
    assert(payload2 =~= src2.subrange(i2, i2 + len2)) by {
        assert forall|k: int| 0 <= k < len2 implies payload2[k] == src2.subrange(i2, i2 + len2)[k]
            by {
            assert(s3[ri2 + 8 + k] == src2[i2 + k]);
        }
    }

    let rest2 = crate::ring_buffer::spec_scan(s3, ri2 + a2, capacity, limit - 2);
    assert(rest2 == (0int, Seq::<(i32, Seq<u8>)>::empty()));
    let scan1 = crate::ring_buffer::spec_scan(s3, ri2, capacity, limit - 1);
    assert(scan1 == (a2 + rest2.0, seq![(t2, payload2)] + rest2.1));
    assert(seq![(t2, payload2)] + rest2.1 =~= seq![(t2, payload2)]);
    assert(seq![(t1, payload1)] + seq![(t2, payload2)] =~= seq![(t1, payload1), (t2, payload2)]);
}

/// The total aligned length of the records that carry the messages `ms`.
pub open spec fn spec_records_bytes(ms: Seq<(i32, Seq<u8>)>) -> int
    decreases ms.len(),
{
    if ms.len() == 0 {
        0
    } else {
        spec_align(ms[0].1.len() as int + 8, RecordDescriptor::ALIGNMENT as int) + spec_records_bytes(
            ms.drop_first(),
        )
    }
}

/// The bytes from `i` on hold, one after the other, committed records
/// carrying exactly the messages `ms`.
pub open spec fn spec_region_holds(s: Seq<u8>, i: int, ms: Seq<(i32, Seq<u8>)>) -> bool
    decreases ms.len(),
{
    if ms.len() == 0 {
        true
    } else {
        let msg_type_id = ms[0].0;
        let payload = ms[0].1;
        let rlen = payload.len() as int + 8;
        &&& msg_type_id >= 1
        &&& rlen <= 0x7fff_ffff
        &&& spec_record_length(i64_at(s, i)) == rlen
        &&& spec_message_type_id(i64_at(s, i)) == msg_type_id
        &&& s.subrange(i + 8, i + rlen) == payload
        &&& spec_region_holds(
            s,
            i + spec_align(rlen, RecordDescriptor::ALIGNMENT as int),
            ms.drop_first(),
        )
    }
}

/// Records take at least one aligned header each.
pub proof fn lemma_records_bytes_bounds(ms: Seq<(i32, Seq<u8>)>)
    ensures
        spec_records_bytes(ms) >= 8 * ms.len(),
    decreases ms.len(),
{
    if ms.len() > 0 {
        lemma_align_properties(ms[0].1.len() as int + 8, RecordDescriptor::ALIGNMENT as int);
        lemma_records_bytes_bounds(ms.drop_first());
    }
}

/// Appending a message adds its record's aligned length.
pub proof fn lemma_records_bytes_push(ms: Seq<(i32, Seq<u8>)>, m: (i32, Seq<u8>))
    ensures
        spec_records_bytes(ms.push(m)) == spec_records_bytes(ms) + spec_align(
            m.1.len() as int + 8,
            RecordDescriptor::ALIGNMENT as int,
        ),
    decreases ms.len(),
{
    if ms.len() == 0 {
        assert(ms.push(m).drop_first() =~= ms);
    } else {
        assert(ms.push(m).drop_first() =~= ms.drop_first().push(m));
        lemma_records_bytes_push(ms.drop_first(), m);
    }
}

/// A region of records is untouched by writes outside its bytes.
pub proof fn lemma_region_holds_frame(s: Seq<u8>, s2: Seq<u8>, i: int, ms: Seq<(i32, Seq<u8>)>)
    requires
        0 <= i,
        i + spec_records_bytes(ms) <= s.len(),
        s2.len() == s.len(),
        spec_region_holds(s, i, ms),
        forall|j: int| i <= j < i + spec_records_bytes(ms) ==> s2[j] == s[j],
    ensures
        spec_region_holds(s2, i, ms),
    decreases ms.len(),
{
    if ms.len() > 0 {
        let rlen = ms[0].1.len() as int + 8;
        let adv = spec_align(rlen, RecordDescriptor::ALIGNMENT as int);
        lemma_align_properties(rlen, RecordDescriptor::ALIGNMENT as int);
        lemma_records_bytes_bounds(ms.drop_first());
        crate::bytes::lemma_i64_at_equal(s, s2, i);
        assert(s2.subrange(i + 8, i + rlen) =~= s.subrange(i + 8, i + rlen));
        lemma_region_holds_frame(s, s2, i + adv, ms.drop_first());
    }
}

/// Two runs of records placed end to end hold their messages end to end.
pub proof fn lemma_region_holds_concat(
    s: Seq<u8>,
    i: int,
    ms1: Seq<(i32, Seq<u8>)>,
    ms2: Seq<(i32, Seq<u8>)>,
)
    requires
        spec_region_holds(s, i, ms1),
        spec_region_holds(s, i + spec_records_bytes(ms1), ms2),
    ensures
        spec_region_holds(s, i, ms1 + ms2),
    decreases ms1.len(),
{
    if ms1.len() == 0 {
        assert(ms1 + ms2 =~= ms2);
    } else {
        let adv = spec_align(ms1[0].1.len() as int + 8, RecordDescriptor::ALIGNMENT as int);
        assert((ms1 + ms2).drop_first() =~= ms1.drop_first() + ms2);
        lemma_region_holds_concat(s, i + adv, ms1.drop_first(), ms2);
    }
}

/// A read pass over a region that holds exactly the records of `ms`,
/// stopped past them by an uncommitted header or the region's end,
/// dispatches `ms` in order and consumes their total aligned length: the
/// round-trip and first-in-first-out laws for any number of messages.
pub proof fn lemma_scan_of_records(
    s: Seq<u8>,
    i: int,
    end: int,
    ms: Seq<(i32, Seq<u8>)>,
    limit: int,
)
    requires
        0 <= i,
        i + spec_records_bytes(ms) <= end,
        end <= s.len(),
        spec_region_holds(s, i, ms),
        ms.len() <= limit,
        i + spec_records_bytes(ms) >= end || spec_record_length(
            i64_at(s, i + spec_records_bytes(ms)),
        ) <= 0,
    ensures
        crate::ring_buffer::spec_scan(s, i, end, limit) == (spec_records_bytes(ms), ms),
    decreases ms.len(),
{
    if ms.len() == 0 {
        assert(crate::ring_buffer::spec_scan(s, i, end, limit) == (
            0int,
            Seq::<(i32, Seq<u8>)>::empty(),
        ));
        assert(ms =~= Seq::<(i32, Seq<u8>)>::empty());
    } else {
        let payload = ms[0].1;
        let rlen = payload.len() as int + 8;
        let adv = spec_align(rlen, RecordDescriptor::ALIGNMENT as int);
        lemma_align_properties(rlen, RecordDescriptor::ALIGNMENT as int);
        lemma_records_bytes_bounds(ms.drop_first());
        lemma_scan_of_records(s, i + adv, end, ms.drop_first(), limit - 1);
        let rest = crate::ring_buffer::spec_scan(s, i + adv, end, limit - 1);
        assert(seq![(ms[0].0, payload)] + rest.1 =~= ms);
    }
}

/// A successful non-wrapping single-producer write appends its message to
/// the run of records between head and tail, leaves the head and the
/// earlier records alone, and pre-zeroes the header slot after the new
/// record, so a read pass stops there.
pub proof fn lemma_spsc_write_appends(
    s: Seq<u8>,
    s2: Seq<u8>,
    capacity: int,
    msg_type_id: i32,
    src: Seq<u8>,
    src_index: int,
    length: int,
    ms: Seq<(i32, Seq<u8>)>,
)
    requires
        1 <= capacity <= 0x4000_0000,
        s.len() == capacity + RingBufferDescriptor::TRAILER_LENGTH,
        s2.len() == s.len(),
        spec_counters_sane(s, capacity),
        spec_head_position(s, capacity) + spec_records_bytes(ms) == spec_tail_position(
            s,
            capacity,
        ),
        spec_region_holds(s, spec_head_position(s, capacity) as int % capacity, ms),
        spec_head_position(s, capacity) as int % capacity + spec_records_bytes(ms) + spec_align(
            length + 8,
            RecordDescriptor::ALIGNMENT as int,
        ) + 8 <= capacity,
        msg_type_id >= 1,
        0 <= length <= capacity / 8,
        0 <= src_index,
        src_index + length <= src.len(),
        spec_spsc_write_outcome(
            s,
            s2,
            capacity,
            msg_type_id,
            src,
            src_index,
            length,
            Result::<bool, RingBufferError>::Ok(true),
        ),
    ensures
        spec_head_position(s2, capacity) == spec_head_position(s, capacity),
        spec_head_position(s2, capacity) + spec_records_bytes(
            ms.push((msg_type_id, src.subrange(src_index, src_index + length))),
        ) == spec_tail_position(s2, capacity),
        spec_region_holds(
            s2,
            spec_head_position(s2, capacity) as int % capacity,
            ms.push((msg_type_id, src.subrange(src_index, src_index + length))),
        ),
        spec_record_length(
            i64_at(
                s2,
                spec_head_position(s2, capacity) as int % capacity + spec_records_bytes(
                    ms.push((msg_type_id, src.subrange(src_index, src_index + length))),
                ),
            ),
        ) == 0,
        spec_counters_sane(s2, capacity),
{
    let head = spec_head_position(s, capacity) as int;
    let tail = spec_tail_position(s, capacity) as int;
    let base = head % capacity;
    let total = spec_records_bytes(ms);
    let aligned = spec_align(length + 8, RecordDescriptor::ALIGNMENT as int);
    let payload = src.subrange(src_index, src_index + length);
    let m = (msg_type_id, payload);
    lemma_align_properties(length + 8, RecordDescriptor::ALIGNMENT as int);
    lemma_records_bytes_bounds(ms);
    lemma_records_bytes_push(ms, m);

    // The tail's data index continues the run that starts at the head's.
    let q = head / capacity;
    vstd::arithmetic::div_mod::lemma_fundamental_div_mod(head, capacity);
    vstd::arithmetic::div_mod::lemma_fundamental_div_mod_converse(
        tail,
        capacity,
        q,
        base + total,
    );
    let ri = tail % capacity;
    assert(ri == base + total);
    assert(!spec_claim_wraps(s, capacity, aligned + 8));
    assert(spec_claim_accepts(s, capacity, aligned + 8));
    lemma_make_header_parts((length + 8) as i32, msg_type_id);

    // Earlier records survive: the write touches nothing below the tail's
    // index.
    assert(forall|j: int| base <= j < base + total ==> #[trigger] s2[j] == s[j]);
    lemma_region_holds_frame(s, s2, base, ms);

    // The new record stands at the tail's index.
    assert(s2.subrange(ri + 8, ri + (length + 8)) =~= payload) by {
        assert forall|k: int| 0 <= k < length implies s2.subrange(ri + 8, ri + (length + 8))[k]
            == payload[k] by {
            assert(s2[ri + 8 + k] == src[src_index + k]);
        }
    }
    assert(payload.len() == length);
    assert(spec_region_holds(s2, ri + aligned, seq![m].drop_first()));
    assert(spec_region_holds(s2, ri, seq![m]));
    lemma_region_holds_concat(s2, base, ms, seq![m]);
    assert(ms + seq![m] =~= ms.push(m));

    let cache0 = spec_head_cache_position(s, capacity);
    let cache2 = crate::ring_buffer::spec_claim_new_cache(s, capacity, aligned + 8);
    assert(cache2 == cache0 || cache2 == spec_head_position(s, capacity));
    assert(spec_head_cache_position(s2, capacity) == cache2);
    assert(spec_counters_sane(s2, capacity));
}

/// Chaining single-producer writes: when the records between head and tail
/// carry `ms0`, a run of successful non-wrapping writes — `states[k]` is the
/// buffer before the write of `ms[k]` — extends the run to `ms0 + ms`,
/// leaves the head where it was, and pre-zeroes the header slot after the
/// last record.
#[verifier::rlimit(100)]
pub proof fn lemma_spsc_write_chain(
    states: Seq<Seq<u8>>,
    capacity: int,
    ms0: Seq<(i32, Seq<u8>)>,
    ms: Seq<(i32, Seq<u8>)>,
)
    requires
        1 <= capacity <= 0x4000_0000,
        states.len() == ms.len() + 1,
        forall|k: int|
            0 <= k < states.len() ==> #[trigger] states[k].len() == capacity
                + RingBufferDescriptor::TRAILER_LENGTH,
        spec_counters_sane(states[0], capacity),
        spec_head_position(states[0], capacity) + spec_records_bytes(ms0) == spec_tail_position(
            states[0],
            capacity,
        ),
        spec_region_holds(
            states[0],
            spec_head_position(states[0], capacity) as int % capacity,
            ms0,
        ),
        spec_head_position(states[0], capacity) as int % capacity + spec_records_bytes(ms0)
            + spec_records_bytes(ms) + 8 <= capacity,
        forall|k: int| 0 <= k < ms.len() ==> (#[trigger] ms[k]).0 >= 1,
        forall|k: int| 0 <= k < ms.len() ==> (#[trigger] ms[k]).1.len() <= capacity / 8,
        forall|k: int|
            0 <= k < ms.len() ==> spec_spsc_write_outcome(
                #[trigger] states[k],
                states[k + 1],
                capacity,
                ms[k].0,
                ms[k].1,
                0,
                ms[k].1.len() as int,
                Result::<bool, RingBufferError>::Ok(true),
            ),
    ensures
        spec_head_position(states.last(), capacity) == spec_head_position(states[0], capacity),
        spec_head_position(states.last(), capacity) + spec_records_bytes(ms0 + ms)
            == spec_tail_position(states.last(), capacity),
        spec_region_holds(
            states.last(),
            spec_head_position(states[0], capacity) as int % capacity,
            ms0 + ms,
        ),
        spec_counters_sane(states.last(), capacity),
        ms.len() > 0 ==> spec_record_length(
            i64_at(
                states.last(),
                spec_head_position(states[0], capacity) as int % capacity + spec_records_bytes(
                    ms0 + ms,
                ),
            ),
        ) == 0,
    decreases ms.len(),
{
    if ms.len() == 0 {
        assert(states.last() == states[0]);
        assert(ms0 + ms =~= ms0);
    } else {
        let m = ms[0];
        let payload_len = m.1.len() as int;
        lemma_records_bytes_bounds(ms.drop_first());
        lemma_align_properties(payload_len + 8, RecordDescriptor::ALIGNMENT as int);
        assert(m.1.subrange(0, payload_len) =~= m.1);
        assert(spec_records_bytes(ms) == spec_align(
            payload_len + 8,
            RecordDescriptor::ALIGNMENT as int,
        ) + spec_records_bytes(ms.drop_first()));
        lemma_spsc_write_appends(
            states[0],
            states[1],
            capacity,
            m.0,
            m.1,
            0,
            payload_len,
            ms0,
        );
        lemma_records_bytes_push(ms0, m);

        let states2 = states.drop_first();
        let ms2 = ms.drop_first();
        assert(forall|k: int|
            0 <= k < states2.len() ==> #[trigger] states2[k].len() == capacity
                + RingBufferDescriptor::TRAILER_LENGTH);
        assert forall|k: int| 0 <= k < ms2.len() implies spec_spsc_write_outcome(
            #[trigger] states2[k],
            states2[k + 1],
            capacity,
            ms2[k].0,
            ms2[k].1,
            0,
            ms2[k].1.len() as int,
            Result::<bool, RingBufferError>::Ok(true),
        ) by {
            assert(states2[k] == states[k + 1]);
            assert(states2[k + 1] == states[k + 2]);
            assert(ms2[k] == ms[k + 1]);
        }
        assert(forall|k: int| 0 <= k < ms2.len() ==> (#[trigger] ms2[k]).0 >= 1) by {
            assert(forall|k: int| 0 <= k < ms2.len() ==> ms2[k] == ms[k + 1]);
        }
        assert(forall|k: int| 0 <= k < ms2.len() ==> (#[trigger] ms2[k]).1.len() <= capacity / 8)
            by {
            assert(forall|k: int| 0 <= k < ms2.len() ==> ms2[k] == ms[k + 1]);
        }
        lemma_spsc_write_chain(states2, capacity, ms0.push(m), ms2);
        assert(states2.last() == states.last());
        assert(ms0.push(m) + ms2 =~= ms0 + ms);
        lemma_records_bytes_push(ms0, m);
    }
}

/// Round trip and first-in-first-out order for a whole run of messages: from
/// a quiescent ring (head and tail equal) that holds them all without
/// wrapping, the successful writes of `ms` followed by one read pass with a
/// limit of at least their number dispatch exactly `ms`, in order, and
/// consume exactly their records' bytes.
pub proof fn lemma_spsc_round_trip_many(
    states: Seq<Seq<u8>>,
    capacity: int,
    ms: Seq<(i32, Seq<u8>)>,
    limit: int,
)
    requires
        1 <= capacity <= 0x4000_0000,
        states.len() == ms.len() + 1,
        1 <= ms.len() <= limit,
        forall|k: int|
            0 <= k < states.len() ==> #[trigger] states[k].len() == capacity
                + RingBufferDescriptor::TRAILER_LENGTH,
        spec_counters_sane(states[0], capacity),
        spec_head_position(states[0], capacity) == spec_tail_position(states[0], capacity),
        spec_head_position(states[0], capacity) as int % capacity + spec_records_bytes(ms) + 8
            <= capacity,
        forall|k: int| 0 <= k < ms.len() ==> (#[trigger] ms[k]).0 >= 1,
        forall|k: int| 0 <= k < ms.len() ==> (#[trigger] ms[k]).1.len() <= capacity / 8,
        forall|k: int|
            0 <= k < ms.len() ==> spec_spsc_write_outcome(
                #[trigger] states[k],
                states[k + 1],
                capacity,
                ms[k].0,
                ms[k].1,
                0,
                ms[k].1.len() as int,
                Result::<bool, RingBufferError>::Ok(true),
            ),
    ensures
        spec_read_scan(states.last(), capacity, limit) == (spec_records_bytes(ms), ms),
{
    let base = spec_head_position(states[0], capacity) as int % capacity;
    lemma_spsc_write_chain(states, capacity, Seq::empty(), ms);
    assert(Seq::<(i32, Seq<u8>)>::empty() + ms =~= ms);
    lemma_records_bytes_bounds(ms);
    lemma_scan_of_records(states.last(), base, capacity, ms, limit);
}

/// No torn reads: a record whose length word is not yet strictly positive —
/// claimed but uncommitted, or not claimed at all — is never dispatched, and
/// a read pass stops at it.
pub proof fn lemma_uncommitted_record_stops_read(s: Seq<u8>, i: int, end: int, limit: int)
    requires
        spec_record_length(i64_at(s, i)) <= 0,
    ensures
        crate::ring_buffer::spec_scan(s, i, end, limit) == (0int, Seq::<(i32, Seq<u8>)>::empty()),
{
}

/// The ids a dispenser starting at `first` hands out over `m` draws: each
/// draw returns the counter and steps it by one.
pub open spec fn spec_correlation_ids(first: i64, m: int) -> Seq<i64> {
    Seq::new(m as nat, |i: int| (first + i) as i64)
}

/// Correlation-id uniqueness: while the 64-bit counter has room, the ids of
/// `m` successive draws are `first`, `first + 1`, …, `first + m - 1`, all
/// distinct.
pub proof fn lemma_correlation_ids_unique(first: i64, m: int)
    requires
        0 <= m,
        first + m <= i64::MAX,
    ensures
        forall|i: int|
            0 <= i < m ==> #[trigger] spec_correlation_ids(first, m)[i] == first + i,
        forall|i: int, j: int|
            0 <= i < m && 0 <= j < m && i != j ==> spec_correlation_ids(first, m)[i]
                != spec_correlation_ids(first, m)[j],
{
    assert forall|i: int| 0 <= i < m implies #[trigger] spec_correlation_ids(first, m)[i] == first
        + i by {
        assert((first + i) as i64 == first + i);
    }
}

} // verus!
