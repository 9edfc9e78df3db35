//! Framing discipline: one message from an unframed byte stream.
//!
//! The pipe carries no length prefix. The reader fills a fixed-capacity
//! buffer repeatedly: a read that fills the whole buffer may be a partial
//! message, so one more read must follow; a read shorter than the buffer
//! ends the message; a zero-byte read means the peer closed the pipe. The
//! accumulated bytes then decode as exactly one value.
//!
//! Known tension, kept rather than silently fixed: a message whose length
//! is an exact multiple of the capacity cannot be told from a longer one
//! until the next read, so the reader always issues that read. The
//! capacity is transport tuning, invisible to callers: both ends only ever
//! see whole messages.

use vstd::prelude::*;

verus! {

/// How many bytes one pipe read may hand over at most.
pub const READ_CAPACITY: usize = 100;

/// What one pipe read meant for the message being accumulated.
#[derive(Debug)]
pub enum FrameStep {
    /// The read filled the buffer: the message may continue, read again.
    NeedMore,
    /// A short, non-empty read: the message is complete.
    Complete,
    /// A zero-byte read: the peer closed the pipe.
    Closed,
}

/// Account one pipe read of at most `capacity` bytes: append what was read
/// and say whether the message continues, is complete, or the peer is
/// gone.
pub fn frame_push(acc: &mut Vec<u8>, chunk: &[u8], capacity: usize) -> (step: FrameStep)
    requires
        capacity >= 1,
        chunk@.len() <= capacity,
    ensures
        step is Closed <==> chunk@.len() == 0,
        step is NeedMore <==> chunk@.len() == capacity,
        step is Complete <==> 0 < chunk@.len() < capacity,
        step is Closed ==> final(acc)@ == old(acc)@,
        !(step is Closed) ==> final(acc)@ == old(acc)@ + chunk@,
{
    if chunk.len() == 0 {
        FrameStep::Closed
    } else {
        let mut taken = vstd::slice::slice_to_vec(chunk);
        let full = chunk.len() == capacity;
        acc.append(&mut taken);
        if full {
            FrameStep::NeedMore
        } else {
            FrameStep::Complete
        }
    }
}

} // verus!
