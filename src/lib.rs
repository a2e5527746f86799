//! The core of a modal text editor: a line-oriented text buffer, and per-mode
//! key-sequence tries that turn key presses into editing commands.
use vstd::prelude::*;

pub mod buffer;
pub mod display;
pub mod editor;
pub mod error;
pub mod fonts;
pub mod highlighter;
pub mod keymaps;
pub mod line;

verus! {

} // verus!
