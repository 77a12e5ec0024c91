//! Text with attributes, for a text renderer.
use vstd::prelude::*;

verus! {

/// How a part of a text looks.
#[derive(Clone, Copy, Debug, PartialEq, Eq, Structural)]
pub enum AttributeKind {
    Background { red: u16, green: u16, blue: u16 },
    BackgroundAlpha(u16),
    Foreground { red: u16, green: u16, blue: u16 },
    ForegroundAlpha(u16),
    Underline(bool),
    Italic,
}

/// How the bytes from `start` up to `end` of a text look.
#[derive(Clone, Copy, Debug, PartialEq, Eq, Structural)]
pub struct Attribute {
    pub kind: AttributeKind,
    pub start: usize,
    pub end: usize,
}

/// The end of an attribute that reaches up to the end of the text, whatever that is.
pub const TEXT_END: usize = 0xffff_ffff;

} // verus!
