//! Ready-made message handlers.

use vstd::prelude::*;

verus! {

use crate::atomic_buffer::AtomicBuffer;
use crate::bit_util::Index;
use crate::ring_buffer::MessageHandler;

/// One dispatched message, copied out of the ring.
pub struct RecordedMessage {
    pub msg_type_id: i32,
    pub payload: Vec<u8>,
}

/// A handler that keeps every message it is given, in dispatch order.
pub struct RecordingMessageHandler {
    pub messages: Vec<RecordedMessage>,
}

impl RecordingMessageHandler {
    pub fn new() -> (r: RecordingMessageHandler)
        ensures
            r.seen() == Seq::<(i32, Seq<u8>)>::empty(),
    {
        RecordingMessageHandler { messages: Vec::new() }
    }

    /// How many messages have been dispatched to this handler.
    pub fn count(&self) -> (r: usize)
        ensures
            r == self.seen().len(),
    {
        self.messages.len()
    }
}

impl MessageHandler for RecordingMessageHandler {
    open spec fn seen(&self) -> Seq<(i32, Seq<u8>)> {
        self.messages@.map(|k: int, m: RecordedMessage| (m.msg_type_id, m.payload@))
    }

    fn on_message(&mut self, msg_type_id: i32, buffer: &AtomicBuffer, index: Index, length: Index) {
        let mut payload: Vec<u8> = Vec::new();
        let mut k: Index = 0;
        while k < length
            invariant
                0 <= k <= length,
                0 <= index,
                index + length <= buffer@.len(),
                index + length <= i32::MAX,
                payload@ == buffer@.subrange(index as int, index + k),
            decreases length - k,
        {
            payload.push(buffer.get_u8(index + k));
            proof {
                assert(payload@ =~= buffer@.subrange(index as int, index + k + 1));
            }
            k += 1;
        }
        proof {
            assert(payload@ == buffer@.subrange(index as int, index + length));
        }
        self.messages.push(RecordedMessage { msg_type_id, payload });
        proof {
            assert(self.seen() =~= old(self).seen().push(
                (msg_type_id, buffer@.subrange(index as int, index + length)),
            ));
        }
    }
}

} // verus!
