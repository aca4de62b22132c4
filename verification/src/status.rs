//! Where the status line keeps its texts.

use crate::buffer::BufferId;
use vstd::prelude::*;

verus! {

/// The two buffers of the status line: one shows the mode, the other
/// messages.
#[derive(Debug, Clone, Copy, PartialEq, Eq, Structural)]
pub struct Status {
    pub mode_buffer_id: BufferId,
    pub msg_buffer_id: BufferId,
}

} // verus!
