//! Style tags that text can carry; their rendering attributes live with the renderer.
use vstd::prelude::*;

verus! {

#[derive(Clone, Copy, Debug, PartialEq, Eq, Structural)]
pub enum TypeFace {
    Monospace,
    Serif,
    SansSerif,
}

/// A style tag, the key of a theme.
#[derive(Clone, Copy, Debug, PartialEq, Eq, Structural, Hash)]
pub enum Font {
    Normal,
    Bold,
    Italic,
    BoldItalic,
    Comment,
    Number,
    String,
    Keyword,
    Variable,
    Function,
    Structure,
}

} // verus!
