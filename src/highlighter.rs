//! A per-line cache of style ranges for a buffer. No highlighting rules
//! belong to this core, so the highlighter's passes leave the cache as it is.
use vstd::prelude::*;

use crate::buffer::Buffer;
use crate::fonts::Font;

verus! {

/// A range of character columns drawn in one style.
pub struct Highlight {
    pub start: usize,
    pub end: usize,
    pub font: Font,
}

pub struct Highlighter {
    cache: Vec<Vec<Highlight>>,
}

impl Highlighter {
    /// A highlighter with an empty cache.
    pub fn new() -> (r: Highlighter)
        ensures
            r.cached_lines() == 0,
    {
        Highlighter { cache: Vec::new() }
    }

    /// The number of lines the cache holds ranges for.
    pub closed spec fn cached_lines(&self) -> nat {
        self.cache@.len()
    }

    pub fn cached_line_count(&self) -> (r: usize)
        ensures
            r == self.cached_lines(),
    {
        self.cache.len()
    }

    /// Runs the highlighter over the whole buffer.
    pub fn highlight_buffer(&mut self, buffer: &Buffer)
        ensures
            *final(self) == *old(self),
    {
    }

    /// Runs the highlighter over one line of the buffer.
    pub fn highlight_line(&mut self, buffer: &Buffer, line: usize)
        ensures
            *final(self) == *old(self),
    {
    }
}

} // verus!
