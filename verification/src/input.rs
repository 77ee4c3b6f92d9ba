//! The line buffer the driver loop hands to the statement layer.
//!
//! Filling the buffer from a terminal is the driver's business; the buffer
//! itself only holds the line and can be emptied again.

use vstd::prelude::*;

verus! {

/// Holds one line of input for the statement layer to read.
pub struct InputBuffer {
    pub buffer: String,
}

impl InputBuffer {
    /// An empty input buffer.
    pub fn new() -> (b: InputBuffer)
        ensures
            b.buffer@ == Seq::<char>::empty(),
    {
        InputBuffer { buffer: String::new() }
    }

    /// Release the held line.
    pub fn close(&mut self)
        ensures
            final(self).buffer@ == Seq::<char>::empty(),
    {
        self.buffer = String::new();
    }
}

} // verus!
