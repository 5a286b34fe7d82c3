//! Microphone capture: what is asked of it, and what is made of its buffers.
use vstd::prelude::*;

verus! {

/// Capture is mono.
pub const CHANNELS: u32 = 1;

/// Buffers of 20 ms, in samples over samples per second.
pub const NODE_LATENCY: &'static str = "320/16000";

/// How many bytes of a buffer were captured: as many as it says, as far as it
/// goes.
pub open spec fn filled(size: u32, buffer: Seq<u8>) -> int {
    if size < buffer.len() {
        size as int
    } else {
        buffer.len() as int
    }
}

/// The audio captured in a buffer that says it holds `size` bytes, or nothing
/// where it holds none.
pub fn captured(size: u32, buffer: &[u8]) -> (audio: Option<Vec<u8>>)
    ensures
        match audio {
            Some(audio) => filled(size, buffer@) > 0 && audio@ == buffer@.take(
                filled(size, buffer@),
            ),
            None => filled(size, buffer@) == 0,
        },
{
    let n: usize = if (size as u64) < buffer.len() as u64 {
        size as usize
    } else {
        buffer.len()
    };
    if n > 0 {
        let audio = vstd::slice::slice_to_vec(vstd::slice::slice_subrange(buffer, 0, n));
        Some(audio)
    } else {
        None
    }
}

/// What is taken of a buffer: no more than it says, no more than there is, and no less
/// than either allows.
pub proof fn law_a_buffer_is_taken_as_far_as_it_is_filled(size: u32, buffer: Seq<u8>)
    ensures
        0 <= filled(size, buffer),
        filled(size, buffer) <= size,
        filled(size, buffer) <= buffer.len(),
        filled(size, buffer) == size || filled(size, buffer) == buffer.len(),
{
}

/// Capture is mono, and its buffers are a fiftieth of a second.
pub proof fn law_what_is_asked_of_capture()
    ensures
        CHANNELS == 1,
        NODE_LATENCY@ == "320/16000"@,
{
}

/// Whether the capture stream came up, given what its thread reported: its own
/// error where it reports one, and where it ends without a report, that.
pub fn came_up(report: Option<Result<(), String>>) -> (result: Result<(), String>)
    ensures
        match report {
            Some(reported) => result == reported,
            None => result matches Err(err) && err@
                == "dictation audio thread died during setup"@,
        },
{
    match report {
        Some(reported) => reported,
        None => Err("dictation audio thread died during setup".to_owned()),
    }
}

} // verus!
