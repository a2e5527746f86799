use vstd::prelude::*;

verus! {

/// The recoverable failures of the editing core.
#[derive(Clone, Copy, Debug, PartialEq, Eq, Structural)]
pub enum EditorError {
    /// A character index past the end of a line (the index given).
    IndexOutOfRange(usize),
    /// No background buffer has this id.
    BufferNotFound(u32),
}

} // verus!
