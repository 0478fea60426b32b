use vstd::prelude::*;

verus! {

/// Palette used for entity glyphs; the presentation layer maps these onto
/// whatever colours the terminal offers.
#[derive(Clone, Copy, Debug, PartialEq, Eq, Structural)]
pub enum Colour {
    White,
    Green,
    Red,
    Cyan,
    Magenta,
    DarkCyan,
    DarkYellow,
}

/// How an entity is drawn: a single-character glyph and its colour.
#[derive(Clone, Debug)]
pub struct Render {
    pub colour: Colour,
    pub glyph: String,
}

} // verus!
