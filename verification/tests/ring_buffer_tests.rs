use ring_buffer::atomic_buffer::AtomicBuffer;
use ring_buffer::bit_util;
use ring_buffer::handlers::RecordingMessageHandler;
use ring_buffer::one_to_one_ring_buffer::OneToOneRingBuffer;
use ring_buffer::ring_buffer::{RecordDescriptor, RingBufferDescriptor};

const CAPACITY: i32 = 1024;
const MSG_TYPE_ID: i32 = 101;
const HEAD_COUNTER_INDEX: i32 = 1024 + RingBufferDescriptor::HEAD_POSITION_OFFSET;
const TAIL_COUNTER_INDEX: i32 = 1024 + RingBufferDescriptor::TAIL_POSITION_OFFSET;

#[test]
fn one_to_one_rb_test() {
    let buf = vec![0u8; 1024];
    let buffer = AtomicBuffer::wrap(buf);
    let mut ring_buffer = OneToOneRingBuffer::new(buffer).unwrap();

    let mut src_buffer = AtomicBuffer::wrap(vec![0u8; 128]);
    src_buffer.put_i64(0, 42);

    assert!(ring_buffer.write(1, &src_buffer, 0, 8).unwrap());
    assert!(ring_buffer.write(1, &src_buffer, 0, 8).unwrap());

    let mut handler = RecordingMessageHandler::new();
    let messages_read = ring_buffer.read(&mut handler, 10);

    assert_eq!(messages_read as usize, handler.count());
    assert_eq!(2, handler.count());
}

#[test]
fn lib_should_reject_write_when_insufficient_space() {
    let length: i32 = 100;
    let head: i64 = 0;
    let tail: i64 = head
        + (CAPACITY
            - bit_util::align(
                length - RecordDescriptor::ALIGNMENT,
                RecordDescriptor::ALIGNMENT,
            )) as i64;
    let src_index: i32 = 0;

    let buffer_sz = (CAPACITY + RingBufferDescriptor::TRAILER_LENGTH) as usize;
    let ab = AtomicBuffer::wrap(vec![0u8; buffer_sz]);
    let src_ab = AtomicBuffer::wrap(vec![0u8; buffer_sz]);

    let mut ring_buffer = OneToOneRingBuffer::new(ab).unwrap();

    ring_buffer.buffer_mut().put_i64(HEAD_COUNTER_INDEX, head);
    assert_eq!(head, ring_buffer.buffer().get_i64(HEAD_COUNTER_INDEX));

    ring_buffer.buffer_mut().put_i64(TAIL_COUNTER_INDEX, tail);
    assert_eq!(tail, ring_buffer.buffer().get_i64(TAIL_COUNTER_INDEX));

    assert!(!ring_buffer
        .write(MSG_TYPE_ID, &src_ab, src_index, length)
        .unwrap());

    assert_eq!(ring_buffer.buffer().get_i64(TAIL_COUNTER_INDEX), tail);
}

#[test]
fn is_power_of_two_recognises_powers_and_rejects_the_rest() {
    assert!(bit_util::is_power_of_two(1));
    assert!(bit_util::is_power_of_two(2));
    assert!(bit_util::is_power_of_two(1024));
    assert!(bit_util::is_power_of_two(0x4000_0000));
    assert!(!bit_util::is_power_of_two(0));
    assert!(!bit_util::is_power_of_two(-4));
    assert!(!bit_util::is_power_of_two(3));
    assert!(!bit_util::is_power_of_two(1023));
}

#[test]
fn align_rounds_up_to_the_next_multiple() {
    assert_eq!(bit_util::align(0, 8), 0);
    assert_eq!(bit_util::align(1, 8), 8);
    assert_eq!(bit_util::align(8, 8), 8);
    assert_eq!(bit_util::align(9, 8), 16);
    assert_eq!(bit_util::align(100, 8), 104);
    assert_eq!(bit_util::align(92, 8), 96);
    assert_eq!(bit_util::align(13, 16), 16);
}

#[test]
fn header_packs_length_and_type() {
    let header = RecordDescriptor::make_header(108, MSG_TYPE_ID);
    assert_eq!(RecordDescriptor::record_length(header), 108);
    assert_eq!(RecordDescriptor::message_type_id(header), MSG_TYPE_ID);

    let padding = RecordDescriptor::make_header(8, RecordDescriptor::PADDING_MSG_TYPE_ID);
    assert_eq!(RecordDescriptor::record_length(padding), 8);
    assert_eq!(RecordDescriptor::message_type_id(padding), -1);

    let claimed = RecordDescriptor::make_header(-108, MSG_TYPE_ID);
    assert_eq!(RecordDescriptor::record_length(claimed), -108);
    assert_eq!(RecordDescriptor::message_type_id(claimed), MSG_TYPE_ID);
}

#[test]
fn check_msg_type_id_accepts_exactly_positive_ids() {
    assert!(RecordDescriptor::check_msg_type_id(1).is_ok());
    assert!(RecordDescriptor::check_msg_type_id(i32::MAX).is_ok());
    assert!(RecordDescriptor::check_msg_type_id(0).is_err());
    assert!(RecordDescriptor::check_msg_type_id(-1).is_err());
}

#[test]
fn atomic_buffer_round_trips_words() {
    let mut ab = AtomicBuffer::wrap(vec![0u8; 64]);
    ab.put_i64(0, -1);
    assert_eq!(ab.get_i64(0), -1);
    ab.put_i64(8, 0x0102_0304_0506_0708);
    assert_eq!(ab.get_i64(8), 0x0102_0304_0506_0708);
    assert_eq!(ab.get_i32(8), 0x0506_0708);
    assert_eq!(ab.get_i32(12), 0x0102_0304);
    ab.put_i32(16, -42);
    assert_eq!(ab.get_i32(16), -42);
    assert_eq!(ab.get_and_add_i64(24, 5), 0);
    assert_eq!(ab.get_and_add_i64(24, 5), 5);
    assert_eq!(ab.get_i64(24), 10);
    assert!(ab.compare_and_set_i64(24, 10, 11));
    assert!(!ab.compare_and_set_i64(24, 10, 12));
    assert_eq!(ab.get_i64(24), 11);
    ab.set_memory(8, 16, 0);
    assert_eq!(ab.get_i64(8), 0);
    assert_eq!(ab.get_i64(16), 0);
}
