//! Lock-free, fixed-capacity ring buffers for exchanging variable-length
//! typed messages between producers and a single consumer.
//!
//! Two engines are provided: a wait-free single-producer buffer
//! ([`one_to_one_ring_buffer::OneToOneRingBuffer`]) and a multi-producer
//! buffer ([`many_to_one_ring_buffer::ManyToOneRingBuffer`]). Both operate
//! over a caller-supplied byte region whose layout is byte-exact: a data
//! region holding length-prefixed records followed by a trailer of control
//! counters.

pub mod atomic_buffer;
pub mod atomic;
pub mod bit_util;
pub mod concurrent;
pub mod handlers;
pub mod laws;
pub mod mem;
pub mod bytes;
pub mod many_to_one_ring_buffer;
pub mod one_to_one_ring_buffer;
pub mod ring_buffer;
