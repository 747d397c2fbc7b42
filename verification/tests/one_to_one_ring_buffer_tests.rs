use ring_buffer::atomic_buffer::AtomicBuffer;
use ring_buffer::handlers::RecordingMessageHandler;
use ring_buffer::one_to_one_ring_buffer::OneToOneRingBuffer;
use ring_buffer::ring_buffer::{RecordDescriptor, RingBufferDescriptor, RingBufferError};

const CAPACITY: i32 = 1024;
const BUFFER_SZ: usize = (CAPACITY + RingBufferDescriptor::TRAILER_LENGTH) as usize;
const ODD_BUFFER_SZ: usize = (CAPACITY - 1) as usize + RingBufferDescriptor::TRAILER_LENGTH as usize;

const MSG_TYPE_ID: i32 = 101;
const HEAD_COUNTER_INDEX: i32 = 1024 + RingBufferDescriptor::HEAD_POSITION_OFFSET;
const TAIL_COUNTER_INDEX: i32 = 1024 + RingBufferDescriptor::TAIL_POSITION_OFFSET;

fn align(value: i32, alignment: i32) -> i32 {
    ring_buffer::bit_util::align(value, alignment)
}

struct OneToOneRingBufferTest {
    src_ab: AtomicBuffer,
    ring_buffer: OneToOneRingBuffer,
}

impl OneToOneRingBufferTest {
    fn new(buffer_size: usize) -> OneToOneRingBufferTest {
        let ab = AtomicBuffer::wrap(vec![0u8; buffer_size]);
        let src_ab = AtomicBuffer::wrap(vec![0u8; buffer_size]);
        let ring_buffer = OneToOneRingBuffer::new(ab).unwrap();

        OneToOneRingBufferTest { src_ab, ring_buffer }
    }
}

impl Default for OneToOneRingBufferTest {
    fn default() -> Self {
        Self::new(BUFFER_SZ)
    }
}

#[test]
fn one_to_one_ring_buffer_should_calculate_capacity_for_buffer() {
    let ab = AtomicBuffer::wrap(vec![0u8; BUFFER_SZ]);
    assert_eq!(ab.capacity(), BUFFER_SZ as i32);
    let ring_buffer = OneToOneRingBuffer::new(ab).unwrap();
    assert_eq!(
        ring_buffer.capacity(),
        BUFFER_SZ as i32 - RingBufferDescriptor::TRAILER_LENGTH
    );
}

#[test]
fn one_to_one_new_rejects_capacity_not_power_of_two() {
    let ab = AtomicBuffer::wrap(vec![0u8; ODD_BUFFER_SZ]);
    let result = OneToOneRingBuffer::new(ab);
    assert_eq!(
        result.err().unwrap(),
        RingBufferError::CapacityNotPowerOfTwo { capacity: 1023 }
    );
}

#[test]
fn one_to_one_write_rejects_message_exceeding_max_length() {
    let mut context = OneToOneRingBufferTest::default();
    let max = context.ring_buffer.max_msg_length();
    let result = context
        .ring_buffer
        .write(MSG_TYPE_ID, &context.src_ab, 0, max + 1);
    assert_eq!(
        result.err().unwrap(),
        RingBufferError::MessageTooLong {
            max_msg_length: 128,
            length: 129
        }
    );
}

#[test]
fn one_to_one_write_rejects_non_positive_message_type() {
    let mut context = OneToOneRingBufferTest::default();
    let result = context.ring_buffer.write(0, &context.src_ab, 0, 8);
    assert_eq!(
        result.err().unwrap(),
        RingBufferError::MessageTypeNonPositive { msg_type_id: 0 }
    );
}

#[test]
fn one_to_one_ring_buffer_should_write_to_empty_buffer() {
    let mut context = OneToOneRingBufferTest::default();
    let tail = 0;
    let tail_index = 0;
    let length = 8;
    let record_length = length + RecordDescriptor::HEADER_LENGTH;
    let src_index = 0;
    let aligned_record_length = align(record_length, RecordDescriptor::ALIGNMENT);

    assert!(context
        .ring_buffer
        .write(MSG_TYPE_ID, &context.src_ab, src_index, length)
        .unwrap());

    let ab = context.ring_buffer.buffer();
    assert_eq!(
        ab.get_i32(RecordDescriptor::length_offset(tail_index)),
        record_length
    );
    assert_eq!(
        ab.get_i32(RecordDescriptor::type_offset(tail_index)),
        MSG_TYPE_ID
    );
    assert_eq!(ab.get_i32(TAIL_COUNTER_INDEX), tail + aligned_record_length);
}

#[test]
fn one_to_one_ring_buffer_should_reject_write_when_insufficient_space() {
    let mut context = OneToOneRingBufferTest::default();
    let length = 100;
    let head: i64 = 0;
    let tail: i64 = head
        + (CAPACITY
            - align(
                length - RecordDescriptor::ALIGNMENT,
                RecordDescriptor::ALIGNMENT,
            )) as i64;
    let src_index = 0;

    context.ring_buffer.buffer_mut().put_i64(HEAD_COUNTER_INDEX, head);
    assert_eq!(head, context.ring_buffer.buffer().get_i64(HEAD_COUNTER_INDEX));

    context.ring_buffer.buffer_mut().put_i64(TAIL_COUNTER_INDEX, tail);
    assert_eq!(tail, context.ring_buffer.buffer().get_i64(TAIL_COUNTER_INDEX));
    assert!(!context
        .ring_buffer
        .write(MSG_TYPE_ID, &context.src_ab, src_index, length)
        .unwrap());

    assert_eq!(context.ring_buffer.buffer().get_i64(TAIL_COUNTER_INDEX), tail);
}

#[test]
fn one_to_one_ring_buffer_should_reject_write_when_buffer_full() {
    let mut context = OneToOneRingBufferTest::default();
    let length = 8;
    let head: i64 = 0;
    let tail: i64 = head + CAPACITY as i64;
    let src_index = 0;

    context.ring_buffer.buffer_mut().put_i64(HEAD_COUNTER_INDEX, head);
    context.ring_buffer.buffer_mut().put_i64(TAIL_COUNTER_INDEX, tail);

    assert!(!context
        .ring_buffer
        .write(MSG_TYPE_ID, &context.src_ab, src_index, length)
        .unwrap());
    assert_eq!(context.ring_buffer.buffer().get_i64(TAIL_COUNTER_INDEX), tail);
}

#[test]
fn one_to_one_ring_buffer_should_insert_padding_record_plus_message_on_buffer_wrap() {
    let mut context = OneToOneRingBufferTest::default();
    let length = 100;
    let record_length = length + RecordDescriptor::HEADER_LENGTH;
    let aligned_record_length = align(record_length, RecordDescriptor::ALIGNMENT);
    let tail = CAPACITY - RecordDescriptor::ALIGNMENT;
    let head = tail - (RecordDescriptor::ALIGNMENT * 4);
    let src_index = 0;

    context.ring_buffer.buffer_mut().put_i64(HEAD_COUNTER_INDEX, head as i64);
    context.ring_buffer.buffer_mut().put_i64(TAIL_COUNTER_INDEX, tail as i64);

    assert!(context
        .ring_buffer
        .write(MSG_TYPE_ID, &context.src_ab, src_index, length)
        .unwrap());

    let ab = context.ring_buffer.buffer();
    assert_eq!(
        ab.get_i32(RecordDescriptor::type_offset(tail)),
        RecordDescriptor::PADDING_MSG_TYPE_ID
    );
    assert_eq!(
        ab.get_i32(RecordDescriptor::length_offset(tail)),
        RecordDescriptor::ALIGNMENT
    );

    assert_eq!(ab.get_i32(RecordDescriptor::length_offset(0)), record_length);
    assert_eq!(ab.get_i32(RecordDescriptor::type_offset(0)), MSG_TYPE_ID);
    assert_eq!(
        ab.get_i64(TAIL_COUNTER_INDEX) as i32,
        tail + aligned_record_length + RecordDescriptor::ALIGNMENT
    );
}

#[test]
fn one_to_one_ring_buffer_should_insert_padding_record_plus_message_on_buffer_wrap_with_head_equal_to_tail(
) {
    let mut context = OneToOneRingBufferTest::default();
    let length = 100;
    let record_length = length + RecordDescriptor::HEADER_LENGTH;
    let aligned_record_length = align(record_length, RecordDescriptor::ALIGNMENT);
    let tail = CAPACITY - RecordDescriptor::ALIGNMENT;
    let head = tail;
    let src_index = 0;

    context.ring_buffer.buffer_mut().put_i64(HEAD_COUNTER_INDEX, head as i64);
    context.ring_buffer.buffer_mut().put_i64(TAIL_COUNTER_INDEX, tail as i64);

    assert!(context
        .ring_buffer
        .write(MSG_TYPE_ID, &context.src_ab, src_index, length)
        .unwrap());

    let ab = context.ring_buffer.buffer();
    assert_eq!(
        ab.get_i32(RecordDescriptor::type_offset(tail)),
        RecordDescriptor::PADDING_MSG_TYPE_ID
    );
    assert_eq!(
        ab.get_i32(RecordDescriptor::length_offset(tail)),
        RecordDescriptor::ALIGNMENT
    );

    assert_eq!(ab.get_i32(RecordDescriptor::length_offset(0)), record_length);
    assert_eq!(ab.get_i32(RecordDescriptor::type_offset(0)), MSG_TYPE_ID);
    assert_eq!(
        ab.get_i32(TAIL_COUNTER_INDEX),
        tail + aligned_record_length + RecordDescriptor::ALIGNMENT
    );
}

#[test]
fn one_to_one_ring_buffer_should_read_nothing_from_empty_buffer() {
    let mut context = OneToOneRingBufferTest::default();
    let tail: i64 = 0;
    let head: i64 = 0;

    context.ring_buffer.buffer_mut().put_i64(HEAD_COUNTER_INDEX, head);
    context.ring_buffer.buffer_mut().put_i64(TAIL_COUNTER_INDEX, tail);

    let mut handler = RecordingMessageHandler::new();
    let messages_read = context.ring_buffer.read(&mut handler, u32::MAX);

    assert_eq!(messages_read, 0);
    assert_eq!(handler.count(), 0);
}

#[test]
fn one_to_one_ring_buffer_should_read_single_message() {
    let mut context = OneToOneRingBufferTest::default();
    let length = 8;
    let head: i64 = 0;
    let record_length = length + RecordDescriptor::HEADER_LENGTH;
    let aligned_record_length = align(record_length, RecordDescriptor::ALIGNMENT);
    let tail = aligned_record_length;

    context.ring_buffer.buffer_mut().put_i64(HEAD_COUNTER_INDEX, head);
    context.ring_buffer.buffer_mut().put_i64(TAIL_COUNTER_INDEX, tail as i64);

    context
        .ring_buffer
        .buffer_mut()
        .put_i32(RecordDescriptor::type_offset(0), MSG_TYPE_ID);
    context
        .ring_buffer
        .buffer_mut()
        .put_i32(RecordDescriptor::length_offset(0), record_length);

    let mut handler = RecordingMessageHandler::new();
    let messages_read = context.ring_buffer.read(&mut handler, u32::MAX);
    assert_eq!(messages_read, 1);
    assert_eq!(handler.count(), 1);
    assert_eq!(
        context.ring_buffer.buffer().get_i64(HEAD_COUNTER_INDEX),
        head + aligned_record_length as i64
    );

    for i in (0..RecordDescriptor::ALIGNMENT).step_by(4) {
        assert_eq!(
            context.ring_buffer.buffer().get_i32(i),
            0,
            "buffer has not been zeroed between indexes {} - {}",
            i,
            i + 3
        );
    }
}

#[test]
fn one_to_one_ring_buffer_should_not_read_single_message_part_way_through_writing() {
    let mut context = OneToOneRingBufferTest::default();
    let length = 8;
    let head: i64 = 0;
    let record_length = length + RecordDescriptor::HEADER_LENGTH;
    let aligned_record_length = align(record_length, RecordDescriptor::ALIGNMENT);
    let end_tail = aligned_record_length;

    context.ring_buffer.buffer_mut().put_i64(TAIL_COUNTER_INDEX, end_tail as i64);
    context
        .ring_buffer
        .buffer_mut()
        .put_i32(RecordDescriptor::type_offset(0), MSG_TYPE_ID);
    context
        .ring_buffer
        .buffer_mut()
        .put_i32(RecordDescriptor::length_offset(0), -record_length);

    let mut handler = RecordingMessageHandler::new();
    let messages_read = context.ring_buffer.read(&mut handler, u32::MAX);

    assert_eq!(messages_read, 0);
    assert_eq!(handler.count(), 0);
    assert_eq!(context.ring_buffer.buffer().get_i64(HEAD_COUNTER_INDEX), head);
}

#[test]
fn one_to_one_ring_buffer_should_read_two_messages() {
    let mut context = OneToOneRingBufferTest::default();
    let length = 8;
    let head: i64 = 0;
    let record_length = length + RecordDescriptor::HEADER_LENGTH;
    let aligned_record_length = align(record_length, RecordDescriptor::ALIGNMENT);
    let tail = aligned_record_length * 2;

    context.ring_buffer.buffer_mut().put_i64(HEAD_COUNTER_INDEX, head);
    context.ring_buffer.buffer_mut().put_i64(TAIL_COUNTER_INDEX, tail as i64);

    context
        .ring_buffer
        .buffer_mut()
        .put_i32(RecordDescriptor::type_offset(0), MSG_TYPE_ID);
    context
        .ring_buffer
        .buffer_mut()
        .put_i32(RecordDescriptor::length_offset(0), record_length);

    context
        .ring_buffer
        .buffer_mut()
        .put_i32(RecordDescriptor::type_offset(aligned_record_length), MSG_TYPE_ID);
    context
        .ring_buffer
        .buffer_mut()
        .put_i32(RecordDescriptor::length_offset(aligned_record_length), record_length);

    let mut handler = RecordingMessageHandler::new();
    let messages_read = context.ring_buffer.read(&mut handler, u32::MAX);

    assert_eq!(messages_read, 2);
    assert_eq!(handler.count(), 2);
    assert_eq!(
        context.ring_buffer.buffer().get_i64(HEAD_COUNTER_INDEX),
        head + (aligned_record_length + aligned_record_length) as i64
    );

    for i in (0..RecordDescriptor::ALIGNMENT * 2).step_by(4) {
        assert_eq!(
            context.ring_buffer.buffer().get_i32(i),
            0,
            "buffer has not been zeroed between indexes {} - {}",
            i,
            i + 3
        );
    }
}

#[test]
fn one_to_one_ring_buffer_should_limit_read_of_messages() {
    let mut context = OneToOneRingBufferTest::default();
    let length = 8;
    let head: i64 = 0;
    let record_length = length + RecordDescriptor::HEADER_LENGTH;
    let aligned_record_length = align(record_length, RecordDescriptor::ALIGNMENT);
    let tail = aligned_record_length * 2;

    context.ring_buffer.buffer_mut().put_i64(HEAD_COUNTER_INDEX, head);
    context.ring_buffer.buffer_mut().put_i64(TAIL_COUNTER_INDEX, tail as i64);

    context
        .ring_buffer
        .buffer_mut()
        .put_i32(RecordDescriptor::type_offset(0), MSG_TYPE_ID);
    context
        .ring_buffer
        .buffer_mut()
        .put_i32(RecordDescriptor::length_offset(0), record_length);

    context
        .ring_buffer
        .buffer_mut()
        .put_i32(RecordDescriptor::type_offset(aligned_record_length), MSG_TYPE_ID);
    context
        .ring_buffer
        .buffer_mut()
        .put_i32(RecordDescriptor::length_offset(aligned_record_length), record_length);

    let mut handler = RecordingMessageHandler::new();
    let messages_read = context.ring_buffer.read(&mut handler, 1);

    assert_eq!(messages_read, 1);
    assert_eq!(handler.count(), 1);
    assert_eq!(
        context.ring_buffer.buffer().get_i64(HEAD_COUNTER_INDEX),
        head + aligned_record_length as i64
    );

    for i in (0..RecordDescriptor::ALIGNMENT).step_by(4) {
        assert_eq!(
            context.ring_buffer.buffer().get_i32(i),
            0,
            "buffer has not been zeroed between indexes {} - {}",
            i,
            i + 3
        );
    }
    assert_eq!(
        context
            .ring_buffer
            .buffer()
            .get_i32(RecordDescriptor::length_offset(aligned_record_length)),
        record_length
    );
}

#[test]
fn one_to_one_round_trip_preserves_payload_and_order() {
    let mut context = OneToOneRingBufferTest::default();
    context.src_ab.put_i32(0, 0x0403_0201);
    context.src_ab.put_i32(4, 0x0807_0605);
    assert!(context.ring_buffer.write(7, &context.src_ab, 0, 8).unwrap());
    context.src_ab.put_i32(0, 0x1413_1211);
    assert!(context.ring_buffer.write(9, &context.src_ab, 0, 4).unwrap());

    let mut handler = RecordingMessageHandler::new();
    let messages_read = context.ring_buffer.read(&mut handler, u32::MAX);

    assert_eq!(messages_read, 2);
    assert_eq!(handler.messages[0].msg_type_id, 7);
    assert_eq!(
        handler.messages[0].payload,
        vec![0x01, 0x02, 0x03, 0x04, 0x05, 0x06, 0x07, 0x08]
    );
    assert_eq!(handler.messages[1].msg_type_id, 9);
    assert_eq!(handler.messages[1].payload, vec![0x11, 0x12, 0x13, 0x14]);

    let mut second = RecordingMessageHandler::new();
    assert_eq!(context.ring_buffer.read(&mut second, u32::MAX), 0);
    assert_eq!(second.count(), 0);
}

#[test]
fn one_to_one_unblock_reports_nothing_to_do() {
    let mut context = OneToOneRingBufferTest::default();
    assert!(!context.ring_buffer.unblock());
}

#[test]
fn one_to_one_sequential_correlation_ids_are_consecutive() {
    let mut context = OneToOneRingBufferTest::default();
    let rounds: i64 = 1_000_000;
    for _ in 0..2 * rounds {
        context.ring_buffer.next_correlation_id();
    }
    assert_eq!(context.ring_buffer.next_correlation_id(), 2 * rounds);
}
