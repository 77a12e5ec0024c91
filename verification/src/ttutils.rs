//! Timed text.
use crate::cea608::Cea608Mode;
use crate::cea608utils::TextStyle;
use vstd::prelude::*;

verus! {

/// A piece of text that looks the same throughout.
#[derive(Clone, Debug)]
pub struct Chunk {
    pub style: TextStyle,
    pub underline: bool,
    pub text: String,
}

/// A line of text.
#[derive(Clone, Debug)]
pub struct Line {
    pub column: Option<u32>,
    pub row: Option<u32>,
    pub chunks: Vec<Chunk>,
    pub carriage_return: Option<bool>,
}

/// Lines of text.
#[derive(Clone, Debug)]
pub struct Lines {
    pub lines: Vec<Line>,
    pub mode: Option<Cea608Mode>,
    pub clear: Option<bool>,
}

/// A piece of text that looks the same throughout.
#[verifier::ext_equal]
pub struct ChunkView {
    pub style: TextStyle,
    pub underline: bool,
    pub text: Seq<char>,
}

/// A line of text.
#[verifier::ext_equal]
pub struct LineView {
    pub column: Option<u32>,
    pub row: Option<u32>,
    pub chunks: Seq<ChunkView>,
    pub carriage_return: Option<bool>,
}

/// Lines of text.
#[verifier::ext_equal]
pub struct LinesView {
    pub lines: Seq<LineView>,
    pub mode: Option<Cea608Mode>,
    pub clear: Option<bool>,
}

impl View for Chunk {
    type V = ChunkView;

    open spec fn view(&self) -> ChunkView {
        ChunkView { style: self.style, underline: self.underline, text: self.text@ }
    }
}

/// The pieces of a line.
pub open spec fn chunk_views(chunks: Seq<Chunk>) -> Seq<ChunkView> {
    chunks.map_values(|c: Chunk| c@)
}

impl View for Line {
    type V = LineView;

    open spec fn view(&self) -> LineView {
        LineView {
            column: self.column,
            row: self.row,
            chunks: chunk_views(self.chunks@),
            carriage_return: self.carriage_return,
        }
    }
}

/// The lines of a text.
pub open spec fn line_views(lines: Seq<Line>) -> Seq<LineView> {
    lines.map_values(|l: Line| l@)
}

impl View for Lines {
    type V = LinesView;

    open spec fn view(&self) -> LinesView {
        LinesView { lines: line_views(self.lines@), mode: self.mode, clear: self.clear }
    }
}

} // verus!
