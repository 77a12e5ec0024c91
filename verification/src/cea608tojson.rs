//! CEA-608 captions as timed text.
use crate::cea608::{
    decode, new_decoder, CaptionCode, Cea608Mode, Channel, CaptionCommand, MidRow, PreambleAddressCode,
    Text, MAX_COLUMN, MAX_ROW,
};
use crate::cea608utils::TextStyle;
use crate::clock::FlowError;
use crate::ttutils::{Chunk, ChunkView, Line, LineView, Lines, LinesView};
use vstd::prelude::*;

pub mod laws;

verus! {

/// How many rows a screen has.
pub const ROWS: usize = 15;

/// How many columns a screen has.
pub const COLUMNS: usize = 32;

/// Lines with their time.
#[derive(Clone, Debug)]
pub struct TimestampedLines {
    pub lines: Lines,
    pub pts: Option<u64>,
    pub duration: Option<u64>,
}

/// Lines with their time.
#[verifier::ext_equal]
pub struct TimestampedView {
    pub lines: LinesView,
    pub pts: Option<u64>,
    pub duration: Option<u64>,
}

impl View for TimestampedLines {
    type V = TimestampedView;

    open spec fn view(&self) -> TimestampedView {
        TimestampedView { lines: self.lines@, pts: self.pts, duration: self.duration }
    }
}

/// Lines, if there are any.
pub open spec fn lines_view(lines: Option<TimestampedLines>) -> Option<TimestampedView> {
    match lines {
        Some(l) => Some(l@),
        None => None,
    }
}

/// Where text is written, and how it looks.
#[derive(Clone, Copy, Debug, PartialEq, Eq, Structural)]
pub struct Cursor {
    pub row: u32,
    pub col: usize,
    pub style: TextStyle,
    pub underline: bool,
}

/// A place on screen.
#[derive(Clone, Copy, Debug, PartialEq, Eq, Structural)]
pub enum Cell {
    Char { c: char, style: TextStyle, underline: bool },
    Empty,
}

/// A row of the screen.
#[derive(Debug)]
pub struct Row {
    pub cells: Vec<Cell>,
    pub row: u32,
}

/// What of a row was put into pieces.
#[verifier::ext_equal]
pub struct Pieces {
    pub done: Seq<ChunkView>,
    pub current: Option<ChunkView>,
    pub indent: int,
    pub trailing: int,
}

/// A number of spaces.
pub open spec fn spaces(n: int) -> Seq<char> {
    Seq::new(n as nat, |i: int| ' ')
}

/// The pieces with a cell behind them. A gap, or another look, begins a new piece.
pub open spec fn add_cell(p: Pieces, cell: Cell) -> Pieces {
    match (cell, p.current) {
        (Cell::Char { c, style, underline }, Some(chunk)) => if style != chunk.style || underline
            != chunk.underline || p.trailing > 0 {
            Pieces {
                done: p.done.push(chunk),
                current: Some(
                    ChunkView { style, underline, text: spaces(p.trailing).push(c) },
                ),
                trailing: 0,
                ..p
            }
        } else {
            Pieces { current: Some(ChunkView { text: chunk.text.push(c), ..chunk }), ..p }
        },
        (Cell::Char { c, style, underline }, None) => Pieces {
            current: Some(ChunkView { style, underline, text: seq![c] }),
            ..p
        },
        (Cell::Empty, Some(_)) => Pieces { trailing: p.trailing + 1, ..p },
        (Cell::Empty, None) => Pieces { indent: p.indent + 1, ..p },
    }
}

/// The pieces of the first `n` cells.
pub open spec fn pieces(cells: Seq<Cell>, n: int) -> Pieces
    decreases n,
{
    if n <= 0 {
        Pieces { done: Seq::empty(), current: None, indent: 0, trailing: 0 }
    } else {
        add_cell(pieces(cells, n - 1), cells[n - 1])
    }
}

/// The line of text in a row.
pub open spec fn line_of(cells: Seq<Cell>, row: u32) -> LineView {
    let p = pieces(cells, cells.len() as int);
    LineView {
        column: Some(p.indent as u32),
        row: Some(row),
        chunks: match p.current {
            Some(chunk) => p.done.push(chunk),
            None => p.done,
        },
        carriage_return: None,
    }
}

/// A row without text.
pub open spec fn empty_cells() -> Seq<Cell> {
    Seq::new(COLUMNS as nat, |i: int| Cell::Empty)
}

/// Whether a row holds no text.
pub open spec fn is_blank(cells: Seq<Cell>) -> bool {
    forall|i: int| 0 <= i < cells.len() ==> #[trigger] cells[i] == Cell::Empty
}

/// The next column. The last one stays.
pub open spec fn next_col(col: usize) -> usize {
    if col < MAX_COLUMN {
        (col + 1) as usize
    } else {
        col
    }
}

impl Row {
    /// Whether the row has all columns.
    pub open spec fn wf(&self) -> bool {
        self.cells@.len() == COLUMNS
    }

    fn new(row: u32) -> (r: Self)
        ensures
            r.wf(),
            r.cells@ == empty_cells(),
            r.row == row,
    {
        let mut cells: Vec<Cell> = Vec::new();
        let mut i: usize = 0;
        while i < COLUMNS
            invariant
                i <= COLUMNS,
                cells@ == empty_cells().take(i as int),
            decreases COLUMNS - i,
        {
            cells.push(Cell::Empty);
            i += 1;
            assert(cells@ =~= empty_cells().take(i as int));
        }
        assert(empty_cells().take(i as int) =~= empty_cells());
        Row { cells, row }
    }

    fn push(&mut self, cursor: &mut Cursor, c: char)
        requires
            old(self).wf(),
            old(cursor).col <= MAX_COLUMN,
        ensures
            final(self).wf(),
            final(self).row == old(self).row,
            final(self).cells@ == old(self).cells@.update(
                old(cursor).col as int,
                Cell::Char { c, style: old(cursor).style, underline: old(cursor).underline },
            ),
            *final(cursor) == (Cursor { col: next_col(old(cursor).col), ..*old(cursor) }),
    {
        self.cells.set(
            cursor.col,
            Cell::Char { c, style: cursor.style, underline: cursor.underline },
        );
        if cursor.col < MAX_COLUMN {
            cursor.col = cursor.col + 1;
        }
    }

    fn push_midrow(&mut self, cursor: &mut Cursor, style: TextStyle, underline: bool)
        requires
            old(self).wf(),
            old(cursor).col <= MAX_COLUMN,
        ensures
            final(self).wf(),
            final(self).row == old(self).row,
            final(self).cells@ == old(self).cells@.update(old(cursor).col as int, Cell::Empty),
            *final(cursor) == (Cursor {
                col: next_col(old(cursor).col),
                style,
                underline,
                ..*old(cursor)
            }),
    {
        self.cells.set(cursor.col, Cell::Empty);
        cursor.style = style;
        cursor.underline = underline;
        if cursor.col < MAX_COLUMN {
            cursor.col = cursor.col + 1;
        }
    }

    fn pop(&mut self, cursor: &mut Cursor)
        requires
            old(self).wf(),
            old(cursor).col <= MAX_COLUMN,
        ensures
            final(self).wf(),
            final(self).row == old(self).row,
            final(self).cells@ == popped_cells(old(self).cells@, old(cursor).col),
            *final(cursor) == popped_cursor(*old(cursor)),
    {
        if cursor.col > 0 {
            self.cells.set(cursor.col, Cell::Empty);
            cursor.col = cursor.col - 1;
        }
    }

    fn is_empty(&self) -> (r: bool)
        ensures
            r == is_blank(self.cells@),
    {
        let mut i: usize = 0;
        while i < self.cells.len()
            invariant
                i <= self.cells@.len(),
                forall|j: int| 0 <= j < i ==> #[trigger] self.cells@[j] == Cell::Empty,
            decreases self.cells@.len() - i,
        {
            if self.cells[i] != Cell::Empty {
                return false;
            }
            i += 1;
        }
        true
    }

    /// The line of text in the row.
    fn line(&self) -> (r: Line)
        requires
            self.wf(),
        ensures
            r@ == line_of(self.cells@, self.row),
    {
        let mut chunks: Vec<Chunk> = Vec::new();
        let mut current_chunk: Option<Chunk> = None;
        let mut indent: u32 = 0;
        let mut trailing: usize = 0;
        let mut i: usize = 0;
        assert(crate::ttutils::chunk_views(chunks@) =~= Seq::<ChunkView>::empty());
        while i < self.cells.len()
            invariant
                self.wf(),
                i <= self.cells@.len(),
                indent <= i,
                trailing <= i,
                pieces(self.cells@, i as int) == (Pieces {
                    done: crate::ttutils::chunk_views(chunks@),
                    current: match current_chunk {
                        Some(c) => Some(c@),
                        None => None,
                    },
                    indent: indent as int,
                    trailing: trailing as int,
                }),
            decreases self.cells@.len() - i,
        {
            let ghost before = chunks@;
            match self.cells[i] {
                Cell::Char { c, style, underline } => {
                    match current_chunk {
                        Some(mut chunk) => {
                            if style != chunk.style || underline != chunk.underline || trailing
                                > 0 {
                                let mut text: String = String::new();
                                push_spaces(&mut text, trailing);
                                assert(text@ =~= spaces(trailing as int));
                                trailing = 0;
                                text.push(c);
                                chunks.push(chunk);
                                assert(crate::ttutils::chunk_views(chunks@)
                                    =~= crate::ttutils::chunk_views(before).push(chunk@));
                                current_chunk = Some(Chunk { style, underline, text });
                            } else {
                                chunk.text.push(c);
                                current_chunk = Some(chunk);
                            }
                        },
                        None => {
                            let mut text: String = String::new();
                            text.push(c);
                            assert(text@ =~= seq![c]);
                            current_chunk = Some(Chunk { style, underline, text });
                        },
                    }
                },
                Cell::Empty => {
                    if current_chunk.is_none() {
                        indent = indent + 1;
                    } else {
                        trailing = trailing + 1;
                    }
                },
            }
            i += 1;
        }
        let ghost before = chunks@;
        if let Some(chunk) = current_chunk {
            chunks.push(chunk);
            assert(crate::ttutils::chunk_views(chunks@) =~= crate::ttutils::chunk_views(
                before,
            ).push(chunk@));
        }
        Line { column: Some(indent), row: Some(self.row), chunks, carriage_return: None }
    }
}

fn push_spaces(text: &mut String, n: usize)
    ensures
        final(text)@ == old(text)@ + spaces(n as int),
{
    let mut i: usize = 0;
    assert(text@ + spaces(0) =~= text@);
    while i < n
        invariant
            i <= n,
            text@ == old(text)@ + spaces(i as int),
        decreases n - i,
    {
        text.push(' ');
        i += 1;
        assert(text@ =~= old(text)@ + spaces(i as int));
    }
}

/// Cells once the one at the cursor was cleared.
pub open spec fn popped_cells(cells: Seq<Cell>, col: usize) -> Seq<Cell> {
    if col > 0 {
        cells.update(col as int, Cell::Empty)
    } else {
        cells
    }
}

/// The cursor one column back.
pub open spec fn popped_cursor(cursor: Cursor) -> Cursor {
    if cursor.col > 0 {
        Cursor { col: (cursor.col - 1) as usize, ..cursor }
    } else {
        cursor
    }
}

/// What is known of the captions.
pub struct Cea608ToJson {
    pub mode: Option<Cea608Mode>,
    /// The rows that text can be written to, by their numbers.
    pub rows: Vec<Option<Row>>,
    pub first_pts: Option<u64>,
    pub current_pts: Option<u64>,
    pub current_duration: Option<u64>,
    pub carriage_return: Option<bool>,
    pub clear: Option<bool>,
    pub cursor: Cursor,
    pub pending_lines: Option<TimestampedLines>,
    /// Whether text goes out as it comes, instead of when its duration is known.
    pub unbuffered: bool,
    pub cea608_state: cea608_types::Cea608State,
}

/// What is known of the captions.
#[verifier::ext_equal]
pub struct JsonView {
    pub mode: Option<Cea608Mode>,
    pub rows: Seq<Option<Seq<Cell>>>,
    pub first_pts: Option<u64>,
    pub current_pts: Option<u64>,
    pub current_duration: Option<u64>,
    pub carriage_return: Option<bool>,
    pub clear: Option<bool>,
    pub cursor: Cursor,
    pub pending: Option<TimestampedView>,
    pub unbuffered: bool,
}

/// The text of a row, if there is such a row.
pub open spec fn row_view(row: Option<Row>) -> Option<Seq<Cell>> {
    match row {
        Some(r) => Some(r.cells@),
        None => None,
    }
}

/// The text of all rows.
pub open spec fn row_views(rows: Seq<Option<Row>>) -> Seq<Option<Seq<Cell>>> {
    rows.map_values(|r: Option<Row>| row_view(r))
}

/// The lines of the first `n` rows that hold text. The first one takes the carriage return.
pub open spec fn drained_lines(
    rows: Seq<Option<Seq<Cell>>>,
    n: int,
    carriage_return: Option<bool>,
) -> (Seq<LineView>, Option<bool>)
    decreases n,
{
    if n <= 0 {
        (Seq::empty(), carriage_return)
    } else {
        let (lines, cr) = drained_lines(rows, n - 1, carriage_return);
        match rows[n - 1] {
            Some(cells) => if is_blank(cells) {
                (lines, cr)
            } else {
                (
                    lines.push(
                        LineView {
                            carriage_return: cr,
                            ..line_of(cells, (n - 1) as u32)
                        },
                    ),
                    None,
                )
            },
            None => (lines, cr),
        }
    }
}

/// No rows.
pub open spec fn no_rows() -> Seq<Option<Seq<Cell>>> {
    Seq::new(ROWS as nat, |i: int| None)
}

/// The rows from `from` up to `to`, each moved by `diff` rows where it stays on screen, one after
/// the other.
pub open spec fn moved_rows(rows: Seq<Option<Seq<Cell>>>, from: int, to: int, diff: int) -> Seq<
    Option<Seq<Cell>>,
>
    decreases to - from,
{
    if from >= to {
        rows
    } else {
        let before = moved_rows(rows, from, to - 1, diff);
        let i = to - 1;
        match before[i] {
            Some(cells) => {
                let without = before.update(i, None);
                if i + diff >= 0 {
                    without.update(i + diff, Some(cells))
                } else {
                    without
                }
            },
            None => before,
        }
    }
}

/// How many rows lie above the last one where lines roll up.
pub open spec fn rows_above(mode: Cea608Mode) -> int {
    mode.rows() - 1
}

/// The first row where lines roll up.
pub open spec fn top_row(row: u32, mode: Cea608Mode) -> int {
    if row >= rows_above(mode) {
        row - rows_above(mode)
    } else {
        0
    }
}

/// The style of a preamble.
pub open spec fn preamble_style(preamble: PreambleAddressCode) -> TextStyle {
    if preamble.code is WhiteItalics {
        TextStyle::ItalicWhite
    } else {
        crate::cea608utils::style_of_color(preamble.in_color())
    }
}

/// Whether the end of what lasts that long is a time.
pub open spec fn ends_in_time(pts: Option<u64>, duration: Option<u64>) -> bool {
    match (pts, duration) {
        (Some(p), Some(d)) => p + d < u64::MAX,
        _ => true,
    }
}

impl JsonView {
    /// Whether the cursor is on screen, and the current time is one.
    pub open spec fn wf(&self) -> bool {
        &&& self.rows.len() == ROWS
        &&& forall|i: int|
            0 <= i < ROWS ==> (#[trigger] self.rows[i] matches Some(cells) ==> cells.len()
                == COLUMNS)
        &&& self.cursor.row <= MAX_ROW
        &&& self.cursor.col <= MAX_COLUMN
        &&& ends_in_time(self.current_pts, self.current_duration)
    }

    /// When the current pair ends.
    pub open spec fn current_end(&self) -> Option<int> {
        match (self.current_pts, self.current_duration) {
            (Some(p), Some(d)) => Some(p + d),
            _ => None,
        }
    }

    /// How long it is from a time up to the end of the current pair.
    pub open spec fn since(&self, start: Option<u64>) -> Option<u64> {
        match (self.current_end(), start) {
            (Some(e), Some(s)) => if s <= e {
                Some((e - s) as u64)
            } else {
                None
            },
            _ => None,
        }
    }

    /// Takes what is on screen as lines. On flush the screen is emptied.
    pub open spec fn drain(&self, flush: bool) -> (JsonView, Option<TimestampedView>) {
        let (lines, carriage_return) = drained_lines(
            self.rows,
            ROWS as int,
            self.carriage_return,
        );
        let after = JsonView {
            first_pts: None,
            rows: if flush {
                no_rows()
            } else {
                self.rows
            },
            carriage_return,
            clear: None,
            ..*self
        };
        let text = LinesView { lines, mode: self.mode, clear: self.clear };
        let out = if lines.len() > 0 {
            Some(
                TimestampedView {
                    lines: text,
                    pts: if self.unbuffered {
                        self.current_pts
                    } else {
                        self.first_pts
                    },
                    duration: if self.unbuffered {
                        self.current_duration
                    } else if self.mode == Some(Cea608Mode::PopOn) {
                        None
                    } else {
                        self.since(self.first_pts)
                    },
                },
            )
        } else if self.clear == Some(true) {
            Some(TimestampedView { lines: text, pts: self.current_pts, duration: Some(0) })
        } else {
            None
        };
        (after, out)
    }

    /// Takes the lines that were held back. They last up to the end of the current pair.
    pub open spec fn drain_pending(&self) -> (JsonView, Option<TimestampedView>) {
        (
            JsonView { pending: None, ..*self },
            match self.pending {
                Some(p) => Some(TimestampedView { duration: self.since(p.pts), ..p }),
                None => None,
            },
        )
    }

    /// Chooses a mode. A change takes what there is.
    pub open spec fn update_mode(&self, mode: Cea608Mode) -> (JsonView, Option<TimestampedView>) {
        let was_popon = self.mode == Some(Cea608Mode::PopOn);
        let v1 = if mode.rolls_up() && was_popon {
            self.drain(true).0
        } else {
            *self
        };
        let (v2, out) = if self.mode != Some(mode) {
            if was_popon {
                v1.drain_pending()
            } else {
                v1.drain(true)
            }
        } else {
            (v1, None)
        };
        let v3 = if mode.rolls_up() && !(self.mode matches Some(m) && m.rolls_up()) {
            JsonView {
                cursor: Cursor { row: MAX_ROW as u32, col: 0, ..v2.cursor },
                rows: v2.rows.update(MAX_ROW as int, Some(empty_cells())),
                ..v2
            }
        } else {
            v2
        };
        (JsonView { mode: Some(mode), ..v3 }, out)
    }

    /// The rows with one for the cursor.
    pub open spec fn with_row(&self) -> JsonView {
        let row = self.cursor.row as int;
        if self.rows[row] is None {
            JsonView { rows: self.rows.update(row, Some(empty_cells())), ..*self }
        } else {
            *self
        }
    }

    /// The rows with a new one for the cursor.
    pub open spec fn with_new_row(&self) -> JsonView {
        JsonView {
            rows: self.rows.update(self.cursor.row as int, Some(empty_cells())),
            ..*self
        }
    }

    /// A preamble: moves the cursor. Where lines roll up they are moved too.
    pub open spec fn preamble(&self, preamble: PreambleAddressCode) -> (
        JsonView,
        Option<TimestampedView>,
    ) {
        let is_moved = self.cursor.row != preamble.row;
        let v1 = match self.mode {
            Some(mode) => if self.unbuffered && mode.rolls_up() && is_moved {
                JsonView {
                    rows: moved_rows(
                        self.rows,
                        top_row(self.cursor.row, mode),
                        self.cursor.row as int,
                        preamble.row - self.cursor.row,
                    ),
                    ..*self
                }
            } else {
                *self
            },
            None => *self,
        };
        let v2 = JsonView {
            cursor: Cursor {
                row: preamble.row as u32,
                col: preamble.at_column() as usize,
                style: preamble_style(preamble),
                underline: preamble.underline,
            },
            ..v1
        };
        match self.mode {
            None => (v2, None),
            Some(Cea608Mode::PopOn) => (v2.with_row(), None),
            Some(_) => if self.unbuffered {
                let (v3, out) = if is_moved {
                    v2.drain(true)
                } else {
                    (v2, None)
                };
                (v3.with_row(), out)
            } else {
                let (v3, out) = v2.drain(true);
                (v3.with_new_row(), out)
            },
        }
    }

    /// The row of the cursor with a character written, if there is such a row.
    pub open spec fn push_char(&self, c: Option<char>) -> JsonView {
        let row = self.cursor.row as int;
        match (self.rows[row], c) {
            (Some(cells), Some(c)) => JsonView {
                rows: self.rows.update(
                    row,
                    Some(
                        cells.update(
                            self.cursor.col as int,
                            Cell::Char {
                                c,
                                style: self.cursor.style,
                                underline: self.cursor.underline,
                            },
                        ),
                    ),
                ),
                cursor: Cursor { col: next_col(self.cursor.col), ..self.cursor },
                ..*self
            },
            _ => *self,
        }
    }

    /// The row of the cursor with a character taken away, if there is such a row.
    pub open spec fn backspace(&self) -> JsonView {
        let row = self.cursor.row as int;
        match self.rows[row] {
            Some(cells) => JsonView {
                rows: self.rows.update(row, Some(popped_cells(cells, self.cursor.col))),
                cursor: popped_cursor(self.cursor),
                ..*self
            },
            None => *self,
        }
    }

    /// Writes text to the row of the cursor, if there is such a row.
    pub open spec fn text(&self, text: Text) -> JsonView {
        if self.rows[self.cursor.row as int] is None {
            *self
        } else {
            let v1 = if text.needs_backspace {
                self.backspace()
            } else {
                *self
            };
            let begins = (text.char1 is Some || text.char2 is Some) && self.first_pts is None
                && self.mode is Some && self.mode != Some(Cea608Mode::PopOn);
            let v2 = JsonView {
                first_pts: if begins {
                    self.current_pts
                } else {
                    self.first_pts
                },
                ..v1
            };
            v2.push_char(text.char1).push_char(text.char2)
        }
    }

    /// A mid-row code: changes how text looks, and takes a column.
    pub open spec fn midrow(&self, midrow: MidRow) -> JsonView {
        let row = self.cursor.row as int;
        match self.rows[row] {
            Some(cells) => JsonView {
                rows: self.rows.update(
                    row,
                    Some(cells.update(self.cursor.col as int, Cell::Empty)),
                ),
                cursor: Cursor {
                    col: next_col(self.cursor.col),
                    style: crate::cea608utils::style_of_midrow(midrow),
                    underline: midrow.underline,
                    ..self.cursor
                },
                ..*self
            },
            None => *self,
        }
    }

    /// The rows once lines rolled up by one, with a new one for the cursor.
    pub open spec fn rolled_up(&self, mode: Cea608Mode) -> JsonView {
        let top = top_row(self.cursor.row, mode);
        JsonView {
            rows: moved_rows(self.rows.update(top, None), top + 1, self.cursor.row + 1, -1),
            ..*self
        }.with_new_row()
    }

    /// Ends a line, where lines roll up.
    pub open spec fn carriage_return(&self) -> (JsonView, Option<TimestampedView>) {
        match self.mode {
            Some(mode) => if !mode.rolls_up() {
                (*self, None)
            } else if self.unbuffered {
                self.rolled_up(mode).drain(false)
            } else {
                let (v, out) = self.drain(true);
                (JsonView { carriage_return: Some(true), ..v }, out)
            },
            None => (*self, None),
        }
    }

    /// Clears what is shown.
    pub open spec fn erase_display(&self) -> (JsonView, Option<TimestampedView>) {
        if self.mode == Some(Cea608Mode::PopOn) {
            JsonView { clear: Some(true), ..*self }.drain_pending()
        } else {
            let (v, out) = self.drain(true);
            (JsonView { clear: Some(true), ..v }, out)
        }
    }

    /// Shows what was prepared.
    pub open spec fn end_of_caption(&self) -> (JsonView, Option<TimestampedView>) {
        let v = self.update_mode(Cea608Mode::PopOn).0;
        let v1 = JsonView { first_pts: v.current_pts, ..v };
        if self.unbuffered {
            v1.drain(true)
        } else {
            let (v2, out) = v1.drain_pending();
            let (v3, pending) = v2.drain(true);
            (JsonView { pending, ..v3 }, out)
        }
    }

    /// Carries out a command.
    pub open spec fn run(&self, command: CaptionCommand) -> (JsonView, Option<TimestampedView>) {
        match command {
            CaptionCommand::EraseDisplay => self.erase_display(),
            CaptionCommand::NewMode(mode) => self.update_mode(mode),
            CaptionCommand::CarriageReturn => self.carriage_return(),
            CaptionCommand::Backspace => (self.backspace(), None),
            CaptionCommand::EraseNonDisplay => (
                if self.mode == Some(Cea608Mode::PopOn) {
                    JsonView { rows: no_rows(), ..*self }
                } else {
                    *self
                },
                None,
            ),
            CaptionCommand::EndOfCaption => self.end_of_caption(),
            CaptionCommand::TabOffset(n) => (
                JsonView {
                    cursor: Cursor {
                        col: if self.cursor.col + n <= MAX_COLUMN {
                            (self.cursor.col + n) as usize
                        } else {
                            MAX_COLUMN
                        },
                        ..self.cursor
                    },
                    ..*self
                },
                None,
            ),
            CaptionCommand::Text(text) => match self.mode {
                Some(mode) => if mode.rolls_up() && self.unbuffered {
                    self.text(text).drain(false)
                } else {
                    (self.text(text), None)
                },
                None => (*self, None),
            },
            CaptionCommand::DeleteToEndOfRow => (*self, None),
            CaptionCommand::Preamble(preamble) => self.preamble(preamble),
            CaptionCommand::MidRowChange(midrow) => (self.midrow(midrow), None),
        }
    }

    /// Carries out a code of the first channel, which comes at the given time.
    pub open spec fn handle(&self, code: CaptionCode, pts: Option<u64>, duration: Option<u64>) -> (
        JsonView,
        Option<TimestampedView>,
    ) {
        let v = JsonView { current_pts: pts, current_duration: duration, ..*self };
        if code.channel == Channel::One {
            v.run(code.command)
        } else {
            (v, None)
        }
    }

    /// Nothing is known yet.
    pub open spec fn empty(unbuffered: bool) -> JsonView {
        JsonView {
            mode: None,
            rows: no_rows(),
            first_pts: None,
            current_pts: None,
            current_duration: None,
            carriage_return: None,
            clear: None,
            cursor: Cursor {
                row: MAX_ROW as u32,
                col: 0,
                style: TextStyle::White,
                underline: false,
            },
            pending: None,
            unbuffered,
        }
    }
}

impl View for Cea608ToJson {
    type V = JsonView;

    open spec fn view(&self) -> JsonView {
        JsonView {
            mode: self.mode,
            rows: row_views(self.rows@),
            first_pts: self.first_pts,
            current_pts: self.current_pts,
            current_duration: self.current_duration,
            carriage_return: self.carriage_return,
            clear: self.clear,
            cursor: self.cursor,
            pending: lines_view(self.pending_lines),
            unbuffered: self.unbuffered,
        }
    }
}

/// What is to be done with a buffer.
#[derive(Debug)]
pub enum Action {
    /// Nothing.
    Pass,
    /// Lines go out.
    Output(TimestampedLines),
    /// It is told that nothing comes for this time.
    Gap { pts: u64, duration: u64 },
}

fn empty_rows() -> (r: Vec<Option<Row>>)
    ensures
        row_views(r@) == no_rows(),
        r@.len() == ROWS,
        forall|i: int| 0 <= i < ROWS ==> #[trigger] r@[i] is None,
{
    let mut rows: Vec<Option<Row>> = Vec::new();
    let mut i: usize = 0;
    while i < ROWS
        invariant
            i <= ROWS,
            rows@.len() == i,
            forall|j: int| 0 <= j < i ==> #[trigger] rows@[j] is None,
        decreases ROWS - i,
    {
        rows.push(None);
        i += 1;
    }
    assert(row_views(rows@) =~= no_rows());
    rows
}

impl Cea608ToJson {
    /// Whether each row knows its number.
    pub open spec fn wf(&self) -> bool {
        &&& self@.wf()
        &&& self.rows@.len() == ROWS
        &&& forall|i: int|
            0 <= i < ROWS ==> (#[trigger] self.rows@[i] matches Some(r) ==> r.wf() && r.row == i)
    }

    /// Nothing is known yet.
    pub fn new(unbuffered: bool) -> (r: Self)
        ensures
            r.wf(),
            r@ == JsonView::empty(unbuffered),
            crate::cea608::decoder_view(r.cea608_state) == crate::cea608::empty_decoder(),
    {
        let r = Cea608ToJson {
            mode: None,
            rows: empty_rows(),
            first_pts: None,
            current_pts: None,
            current_duration: None,
            carriage_return: None,
            clear: None,
            cursor: Cursor {
                row: MAX_ROW as u32,
                col: 0,
                style: TextStyle::White,
                underline: false,
            },
            pending_lines: None,
            unbuffered,
            cea608_state: new_decoder(),
        };
        assert(r@ =~= JsonView::empty(unbuffered));
        r
    }

    /// Forgets everything.
    pub fn flush(&mut self)
        ensures
            final(self).wf(),
            final(self)@ == JsonView::empty(old(self).unbuffered),
            crate::cea608::decoder_view(final(self).cea608_state)
                == crate::cea608::empty_decoder(),
    {
        *self = Cea608ToJson::new(self.unbuffered);
    }

    fn since(&self, start: Option<u64>) -> (r: Option<u64>)
        requires
            self@.wf(),
        ensures
            r == self@.since(start),
    {
        match (self.current_pts, self.current_duration) {
            (Some(p), Some(d)) => match start {
                Some(s) => (p + d).checked_sub(s),
                None => None,
            },
            _ => None,
        }
    }

    fn line_at(&self, i: usize) -> (r: Option<Line>)
        requires
            self.wf(),
            i < ROWS,
        ensures
            match r {
                Some(line) => self@.rows[i as int] matches Some(cells) && !is_blank(cells) && line@
                    == line_of(cells, i as u32),
                None => self@.rows[i as int] matches Some(cells) ==> is_blank(cells),
            },
    {
        assert(self@.rows[i as int] == row_view(self.rows@[i as int]));
        match &self.rows[i] {
            Some(row) => if row.is_empty() {
                None
            } else {
                Some(row.line())
            },
            None => None,
        }
    }

    fn drain(&mut self, flush: bool) -> (r: Option<TimestampedLines>)
        requires
            old(self).wf(),
        ensures
            final(self).wf(),
            final(self)@ == old(self)@.drain(flush).0,
            lines_view(r) == old(self)@.drain(flush).1,
            final(self).cea608_state == old(self).cea608_state,
    {
        let ghost was = self@;
        let pts: Option<u64> = if self.unbuffered {
            self.current_pts
        } else {
            self.first_pts
        };
        let is_popon: bool = match self.mode {
            Some(m) => m == Cea608Mode::PopOn,
            None => false,
        };
        let duration: Option<u64> = if self.unbuffered {
            self.current_duration
        } else if is_popon {
            None
        } else {
            self.since(self.first_pts)
        };
        self.first_pts = None;
        let mut lines: Vec<Line> = Vec::new();
        let mut i: usize = 0;
        assert(crate::ttutils::line_views(lines@) =~= Seq::<LineView>::empty());
        while i < ROWS
            invariant
                i <= ROWS,
                self.wf(),
                self@ == (JsonView {
                    first_pts: None,
                    carriage_return: self.carriage_return,
                    ..was
                }),
                drained_lines(was.rows, i as int, was.carriage_return) == (
                    crate::ttutils::line_views(lines@),
                    self.carriage_return,
                ),
                self.cea608_state == old(self).cea608_state,
            decreases ROWS - i,
        {
            let ghost before = lines@;
            if let Some(mut line) = self.line_at(i) {
                let ghost plain = line@;
                line.carriage_return = self.carriage_return;
                self.carriage_return = None;
                lines.push(line);
                assert(crate::ttutils::line_views(lines@) =~= crate::ttutils::line_views(
                    before,
                ).push(LineView { carriage_return: line.carriage_return, ..plain }));
            }
            i += 1;
        }
        if flush {
            self.rows = empty_rows();
        }
        let clear: Option<bool> = self.clear;
        self.clear = None;
        assert(self@ =~= was.drain(flush).0);
        if lines.len() > 0 {
            Some(
                TimestampedLines {
                    lines: Lines { lines, mode: self.mode, clear },
                    pts,
                    duration,
                },
            )
        } else {
            match clear {
                Some(true) => Some(
                    TimestampedLines {
                        lines: Lines { lines, mode: self.mode, clear },
                        pts: self.current_pts,
                        duration: Some(0),
                    },
                ),
                _ => None,
            }
        }
    }

    fn drain_pending(&mut self) -> (r: Option<TimestampedLines>)
        requires
            old(self).wf(),
        ensures
            final(self).wf(),
            final(self)@ == old(self)@.drain_pending().0,
            lines_view(r) == old(self)@.drain_pending().1,
            final(self).cea608_state == old(self).cea608_state,
    {
        match self.pending_lines.take() {
            Some(mut pending) => {
                pending.duration = self.since(pending.pts);
                Some(pending)
            },
            None => None,
        }
    }

    /// Puts a new row in the place of the cursor.
    fn insert_row(&mut self)
        requires
            old(self).wf(),
        ensures
            final(self).wf(),
            final(self)@ == old(self)@.with_new_row(),
            final(self).cea608_state == old(self).cea608_state,
    {
        let i: usize = self.cursor.row as usize;
        self.rows.set(i, Some(Row::new(self.cursor.row)));
        assert(self@.rows =~= old(self)@.with_new_row().rows);
    }

    fn ensure_row(&mut self)
        requires
            old(self).wf(),
        ensures
            final(self).wf(),
            final(self)@ == old(self)@.with_row(),
            final(self).cea608_state == old(self).cea608_state,
    {
        let i: usize = self.cursor.row as usize;
        assert(self@.rows[i as int] == row_view(self.rows@[i as int]));
        if self.rows[i].is_none() {
            self.insert_row();
        }
    }

    fn update_mode(&mut self, mode: Cea608Mode) -> (r: Option<TimestampedLines>)
        requires
            old(self).wf(),
        ensures
            final(self).wf(),
            final(self)@ == old(self)@.update_mode(mode).0,
            lines_view(r) == old(self)@.update_mode(mode).1,
            final(self).cea608_state == old(self).cea608_state,
    {
        let was: Option<Cea608Mode> = self.mode;
        let was_popon: bool = match was {
            Some(m) => m == Cea608Mode::PopOn,
            None => false,
        };
        let was_rollup: bool = match was {
            Some(m) => m.is_rollup(),
            None => false,
        };
        let is_same: bool = match was {
            Some(m) => m == mode,
            None => false,
        };
        if mode.is_rollup() && was_popon {
            let _ = self.drain(true);
        }
        let ret: Option<TimestampedLines> = if !is_same {
            if was_popon {
                self.drain_pending()
            } else {
                self.drain(true)
            }
        } else {
            None
        };
        if mode.is_rollup() && !was_rollup {
            self.cursor.row = MAX_ROW as u32;
            self.cursor.col = 0;
            self.insert_row();
        }
        self.mode = Some(mode);
        ret
    }

    /// Moves rows, one after the other.
    fn move_rows(&mut self, from: usize, to: usize, diff: i32)
        requires
            old(self).wf(),
            from <= to <= ROWS,
            -(ROWS as int) <= diff <= ROWS,
            to + diff <= ROWS,
            diff != 0,
        ensures
            final(self).wf(),
            final(self)@ == (JsonView {
                rows: moved_rows(old(self)@.rows, from as int, to as int, diff as int),
                ..old(self)@
            }),
            final(self).cea608_state == old(self).cea608_state,
    {
        let ghost was = self@;
        let mut i: usize = from;
        while i < to
            invariant
                from <= i <= to <= ROWS,
                -(ROWS as int) <= diff <= ROWS,
                to + diff <= ROWS,
                diff != 0,
                self.wf(),
                self@ == (JsonView {
                    rows: moved_rows(was.rows, from as int, i as int, diff as int),
                    ..was
                }),
                self.cea608_state == old(self).cea608_state,
            decreases to - i,
        {
            let ghost before = self@.rows;
            let ghost rows_before = self.rows@;
            assert(before[i as int] == row_view(rows_before[i as int]));
            let mut slot: Option<Row> = None;
            std::mem::swap(&mut slot, &mut self.rows[i]);
            if let Some(row) = slot {
                let new_row: i32 = i as i32 + diff;
                if new_row >= 0 {
                    self.rows.set(
                        new_row as usize,
                        Some(Row { cells: row.cells, row: new_row as u32 }),
                    );
                }
            }
            proof {
                let now = moved_rows(was.rows, from as int, i + 1, diff as int);
                assert(self@.rows =~= now) by {
                    assert forall|j: int| 0 <= j < ROWS implies self@.rows[j] == now[j] by {
                        assert(before[j] == row_view(rows_before[j]));
                    }
                }
                assert forall|j: int| 0 <= j < ROWS implies (#[trigger] self@.rows[j] matches Some(
                    cells,
                ) ==> cells.len() == COLUMNS) by {
                    assert(self@.rows[j] == row_view(self.rows@[j]));
                }
            }
            i += 1;
        }
    }

    fn handle_preamble(&mut self, preamble: PreambleAddressCode) -> (r: Option<TimestampedLines>)
        requires
            old(self).wf(),
            crate::cea608::is_preamble(preamble),
        ensures
            final(self).wf(),
            final(self)@ == old(self)@.preamble(preamble).0,
            lines_view(r) == old(self)@.preamble(preamble).1,
            final(self).cea608_state == old(self).cea608_state,
    {
        let drain_roll_up: bool = self.cursor.row != preamble.row as u32;
        if self.unbuffered {
            if let Some(mode) = self.mode {
                if let Some(rows) = mode.rollup_rows() {
                    if drain_roll_up {
                        let row: usize = self.cursor.row as usize;
                        let above: usize = rows as usize - 1;
                        let top: usize = if row >= above {
                            row - above
                        } else {
                            0
                        };
                        let diff: i32 = preamble.row as i32 - self.cursor.row as i32;
                        self.move_rows(top, row, diff);
                    }
                }
            }
        }
        self.cursor.row = preamble.row as u32;
        self.cursor.col = preamble.column() as usize;
        self.cursor.underline = preamble.underline;
        self.cursor.style = if preamble.italics() {
            TextStyle::ItalicWhite
        } else {
            TextStyle::from(preamble.color())
        };
        match self.mode {
            None => None,
            Some(Cea608Mode::PopOn) => {
                self.ensure_row();
                None
            },
            Some(_) => {
                if self.unbuffered {
                    // what is shown only goes out where it was moved
                    let ret: Option<TimestampedLines> = if drain_roll_up {
                        self.drain(true)
                    } else {
                        None
                    };
                    self.ensure_row();
                    ret
                } else {
                    // the move may overwrite what is shown
                    let ret: Option<TimestampedLines> = self.drain(true);
                    self.insert_row();
                    ret
                }
            },
        }
    }

    fn push_char(&mut self, c: Option<char>)
        requires
            old(self).wf(),
        ensures
            final(self).wf(),
            final(self)@ == old(self)@.push_char(c),
            final(self).cea608_state == old(self).cea608_state,
    {
        let i: usize = self.cursor.row as usize;
        let ghost before = self.rows@;
        assert(self@.rows[i as int] == row_view(before[i as int]));
        let c: char = match c {
            Some(c) => c,
            None => return,
        };
        let mut slot: Option<Row> = None;
        std::mem::swap(&mut slot, &mut self.rows[i]);
        if let Some(mut row) = slot {
            row.push(&mut self.cursor, c);
            self.rows.set(i, Some(row));
        }
        proof {
            assert(self@.rows =~= old(self)@.push_char(Some(c)).rows) by {
                assert forall|j: int| 0 <= j < ROWS implies self@.rows[j] == old(self)@.push_char(
                    Some(c),
                ).rows[j] by {
                    assert(old(self)@.rows[j] == row_view(before[j]));
                }
            }
        }
    }

    fn backspace(&mut self)
        requires
            old(self).wf(),
        ensures
            final(self).wf(),
            final(self)@ == old(self)@.backspace(),
            final(self).cea608_state == old(self).cea608_state,
    {
        let i: usize = self.cursor.row as usize;
        let ghost before = self.rows@;
        assert(self@.rows[i as int] == row_view(before[i as int]));
        let mut slot: Option<Row> = None;
        std::mem::swap(&mut slot, &mut self.rows[i]);
        if let Some(mut row) = slot {
            row.pop(&mut self.cursor);
            self.rows.set(i, Some(row));
        }
        proof {
            assert(self@.rows =~= old(self)@.backspace().rows) by {
                assert forall|j: int| 0 <= j < ROWS implies self@.rows[j] == old(
                    self,
                )@.backspace().rows[j] by {
                    assert(old(self)@.rows[j] == row_view(before[j]));
                }
            }
        }
    }

    fn handle_text(&mut self, text: Text)
        requires
            old(self).wf(),
        ensures
            final(self).wf(),
            final(self)@ == old(self)@.text(text),
            final(self).cea608_state == old(self).cea608_state,
    {
        let i: usize = self.cursor.row as usize;
        assert(self@.rows[i as int] == row_view(self.rows@[i as int]));
        if self.rows[i].is_none() {
            return;
        }
        let begins: bool = (text.char1.is_some() || text.char2.is_some())
            && self.first_pts.is_none() && match self.mode {
            Some(mode) => mode != Cea608Mode::PopOn,
            None => false,
        };
        if text.needs_backspace {
            self.backspace();
        }
        if begins {
            self.first_pts = self.current_pts;
        }
        self.push_char(text.char1);
        self.push_char(text.char2);
    }

    fn handle_midrowchange(&mut self, midrow: MidRow)
        requires
            old(self).wf(),
        ensures
            final(self).wf(),
            final(self)@ == old(self)@.midrow(midrow),
            final(self).cea608_state == old(self).cea608_state,
    {
        let i: usize = self.cursor.row as usize;
        let ghost before = self.rows@;
        assert(self@.rows[i as int] == row_view(before[i as int]));
        let mut slot: Option<Row> = None;
        std::mem::swap(&mut slot, &mut self.rows[i]);
        if let Some(mut row) = slot {
            row.push_midrow(&mut self.cursor, TextStyle::from(midrow), midrow.underline);
            self.rows.set(i, Some(row));
        }
        proof {
            assert(self@.rows =~= old(self)@.midrow(midrow).rows) by {
                assert forall|j: int| 0 <= j < ROWS implies self@.rows[j] == old(self)@.midrow(
                    midrow,
                ).rows[j] by {
                    assert(old(self)@.rows[j] == row_view(before[j]));
                }
            }
        }
    }

    fn handle_carriage_return(&mut self) -> (r: Option<TimestampedLines>)
        requires
            old(self).wf(),
        ensures
            final(self).wf(),
            final(self)@ == old(self)@.carriage_return().0,
            lines_view(r) == old(self)@.carriage_return().1,
            final(self).cea608_state == old(self).cea608_state,
    {
        let mode: Cea608Mode = match self.mode {
            Some(m) => m,
            None => return None,
        };
        let rows: u8 = match mode.rollup_rows() {
            Some(n) => n,
            None => return None,
        };
        if self.unbuffered {
            let row: usize = self.cursor.row as usize;
            let above: usize = rows as usize - 1;
            let top: usize = if row >= above {
                row - above
            } else {
                0
            };
            self.rows.set(top, None);
            assert(self@.rows =~= old(self)@.rows.update(top as int, None));
            self.move_rows(top + 1, row + 1, -1);
            self.insert_row();
            self.drain(false)
        } else {
            let ret: Option<TimestampedLines> = self.drain(true);
            self.carriage_return = Some(true);
            ret
        }
    }

    fn handle_erase_display(&mut self) -> (r: Option<TimestampedLines>)
        requires
            old(self).wf(),
        ensures
            final(self).wf(),
            final(self)@ == old(self)@.erase_display().0,
            lines_view(r) == old(self)@.erase_display().1,
            final(self).cea608_state == old(self).cea608_state,
    {
        match self.mode {
            Some(Cea608Mode::PopOn) => {
                self.clear = Some(true);
                self.drain_pending()
            },
            _ => {
                let ret: Option<TimestampedLines> = self.drain(true);
                self.clear = Some(true);
                ret
            },
        }
    }

    fn handle_end_of_caption(&mut self) -> (r: Option<TimestampedLines>)
        requires
            old(self).wf(),
        ensures
            final(self).wf(),
            final(self)@ == old(self)@.end_of_caption().0,
            lines_view(r) == old(self)@.end_of_caption().1,
            final(self).cea608_state == old(self).cea608_state,
    {
        let _ = self.update_mode(Cea608Mode::PopOn);
        self.first_pts = self.current_pts;
        if self.unbuffered {
            self.drain(true)
        } else {
            let ret: Option<TimestampedLines> = self.drain_pending();
            let pending: Option<TimestampedLines> = self.drain(true);
            self.pending_lines = pending;
            ret
        }
    }

    /// Carries out a code that comes at the given time. Lines may go out.
    pub fn handle_code(
        &mut self,
        code: CaptionCode,
        pts: Option<u64>,
        duration: Option<u64>,
    ) -> (r: Option<TimestampedLines>)
        requires
            old(self).wf(),
            crate::cea608::is_command(code.command),
            ends_in_time(pts, duration),
        ensures
            final(self).wf(),
            final(self)@ == old(self)@.handle(code, pts, duration).0,
            lines_view(r) == old(self)@.handle(code, pts, duration).1,
            final(self).cea608_state == old(self).cea608_state,
    {
        self.current_pts = pts;
        self.current_duration = duration;
        if code.channel != Channel::One {
            return None;
        }
        match code.command {
            CaptionCommand::EraseDisplay => self.handle_erase_display(),
            CaptionCommand::NewMode(mode) => self.update_mode(mode),
            CaptionCommand::CarriageReturn => self.handle_carriage_return(),
            CaptionCommand::Backspace => {
                self.backspace();
                None
            },
            CaptionCommand::EraseNonDisplay => {
                if let Some(Cea608Mode::PopOn) = self.mode {
                    self.rows = empty_rows();
                }
                None
            },
            CaptionCommand::EndOfCaption => self.handle_end_of_caption(),
            CaptionCommand::TabOffset(count) => {
                if self.cursor.col + count as usize <= MAX_COLUMN {
                    self.cursor.col = self.cursor.col + count as usize;
                } else {
                    self.cursor.col = MAX_COLUMN;
                }
                None
            },
            CaptionCommand::Text(text) => {
                match self.mode {
                    Some(mode) => {
                        self.handle_text(text);
                        if mode.is_rollup() && self.unbuffered {
                            self.drain(false)
                        } else {
                            None
                        }
                    },
                    None => None,
                }
            },
            CaptionCommand::DeleteToEndOfRow => None,
            CaptionCommand::Preamble(preamble) => self.handle_preamble(preamble),
            CaptionCommand::MidRowChange(change) => {
                self.handle_midrowchange(change);
                None
            },
        }
    }

    /// Reads a pair of bytes that comes at the given time. Lines may go out.
    pub fn handle_cc_data(
        &mut self,
        pts: Option<u64>,
        duration: Option<u64>,
        cc_data: [u8; 2],
    ) -> (r: Option<TimestampedLines>)
        requires
            old(self).wf(),
            ends_in_time(pts, duration),
        ensures
            final(self).wf(),
            ({
                let view = crate::cea608::decoder_view(old(self).cea608_state);
                let is_pair = crate::cea608::odd_parity(cc_data@[0]) && crate::cea608::odd_parity(
                    cc_data@[1],
                );
                let code = crate::cea608::decoded(view, cc_data@[0], cc_data@[1]);
                let (after, out) = if is_pair && code is Some {
                    old(self)@.handle(code->0, pts, duration)
                } else {
                    (old(self)@, None)
                };
                &&& final(self)@ == after
                &&& lines_view(r) == out
                &&& crate::cea608::decoder_view(final(self).cea608_state) == if is_pair {
                    crate::cea608::after_pair(view, cc_data@[0], cc_data@[1])
                } else {
                    view
                }
            }),
    {
        match decode(&mut self.cea608_state, cc_data[0], cc_data[1]) {
            Ok(Some(code)) => self.handle_code(code, pts, duration),
            _ => None,
        }
    }

    /// What is to be done with a buffer: it has to be timed. Only its first two bytes count.
    pub fn sink_chain(&mut self, pts: Option<u64>, duration: Option<u64>, data: &[u8]) -> (r: Result<
        Action,
        FlowError,
    >)
        requires
            old(self).wf(),
            ends_in_time(pts, duration),
        ensures
            final(self).wf(),
            match r {
                Err(e) => (pts is None || duration is None) && e == FlowError::Error
                    && final(self)@ == old(self)@ && final(self).cea608_state == old(
                    self,
                ).cea608_state,
                Ok(action) => {
                    let view = crate::cea608::decoder_view(old(self).cea608_state);
                    let is_code = data@.len() >= 2 && crate::cea608::odd_parity(data@[0])
                        && crate::cea608::odd_parity(data@[1]);
                    let code = crate::cea608::decoded(view, data@[0], data@[1]);
                    let (after, out) = if is_code && code is Some {
                        old(self)@.handle(code->0, pts, duration)
                    } else {
                        (old(self)@, None)
                    };
                    &&& pts is Some && duration is Some
                    &&& final(self)@ == after
                    &&& crate::cea608::decoder_view(final(self).cea608_state) == if is_code {
                        crate::cea608::after_pair(view, data@[0], data@[1])
                    } else {
                        view
                    }
                    &&& match action {
                        Action::Output(lines) => out == Some(lines@),
                        Action::Gap { pts: p, duration: d } => out is None && data@.len() >= 2
                            && old(self)@.unbuffered && pts == Some(p) && duration == Some(d),
                        Action::Pass => out is None && (data@.len() < 2 || !old(
                            self,
                        )@.unbuffered),
                    }
                },
            },
    {
        let p: u64 = match pts {
            Some(p) => p,
            None => return Err(FlowError::Error),
        };
        let d: u64 = match duration {
            Some(d) => d,
            None => return Err(FlowError::Error),
        };
        if data.len() < 2 {
            return Ok(Action::Pass);
        }
        let cc_data: [u8; 2] = [data[0], data[1]];
        let unbuffered: bool = self.unbuffered;
        match self.handle_cc_data(pts, duration, cc_data) {
            Some(lines) => Ok(Action::Output(lines)),
            None => if unbuffered {
                Ok(Action::Gap { pts: p, duration: d })
            } else {
                Ok(Action::Pass)
            },
        }
    }

    /// Takes all that is left: what was held back, and what is on screen.
    pub fn eos(&mut self) -> (r: (Option<TimestampedLines>, Option<TimestampedLines>))
        requires
            old(self).wf(),
        ensures
            final(self).wf(),
            ({
                let (v, pending) = old(self)@.drain_pending();
                let (after, shown) = v.drain(true);
                &&& final(self)@ == after
                &&& lines_view(r.0) == pending
                &&& lines_view(r.1) == shown
            }),
            final(self).cea608_state == old(self).cea608_state,
    {
        let pending: Option<TimestampedLines> = self.drain_pending();
        let shown: Option<TimestampedLines> = self.drain(true);
        (pending, shown)
    }
}

/// Lines come out from the top of the screen to its bottom, and only for rows with text. Only
/// the first one tells of a carriage return.
pub proof fn law_lines_are_in_order(
    rows: Seq<Option<Seq<Cell>>>,
    n: int,
    carriage_return: Option<bool>,
)
    requires
        0 <= n <= ROWS,
        rows.len() == ROWS,
    ensures
        ({
            let lines = drained_lines(rows, n, carriage_return).0;
            &&& forall|i: int, j: int|
                0 <= i < j < lines.len() ==> (#[trigger] lines[i]).row->0 < (
                #[trigger] lines[j]).row->0
            &&& forall|i: int|
                0 <= i < lines.len() ==> {
                    &&& (#[trigger] lines[i]).row is Some
                    &&& lines[i].row->0 < n
                    &&& rows[lines[i].row->0 as int] matches Some(cells) && !is_blank(cells)
                    &&& lines[i].carriage_return == if i == 0 {
                        carriage_return
                    } else {
                        None
                    }
                }
        }),
        drained_lines(rows, n, carriage_return).1 == if drained_lines(
            rows,
            n,
            carriage_return,
        ).0.len() == 0 {
            carriage_return
        } else {
            None
        },
    decreases n,
{
    if n > 0 {
        law_lines_are_in_order(rows, n - 1, carriage_return);
    }
}

/// Every row with text comes out as a line.
pub proof fn law_no_row_is_lost(
    rows: Seq<Option<Seq<Cell>>>,
    n: int,
    carriage_return: Option<bool>,
    row: int,
)
    requires
        0 <= row < n <= ROWS,
        rows.len() == ROWS,
        rows[row] matches Some(cells) && !is_blank(cells),
    ensures
        exists|i: int|
            0 <= i < drained_lines(rows, n, carriage_return).0.len() && (#[trigger] drained_lines(
                rows,
                n,
                carriage_return,
            ).0[i]).chunks == line_of(rows[row]->0, row as u32).chunks && drained_lines(
                rows,
                n,
                carriage_return,
            ).0[i].row == Some(row as u32),
    decreases n,
{
    let lines = drained_lines(rows, n, carriage_return).0;
    if row == n - 1 {
        assert(lines[lines.len() - 1].row == Some(row as u32));
    } else {
        law_no_row_is_lost(rows, n - 1, carriage_return, row);
        let before = drained_lines(rows, n - 1, carriage_return).0;
        let i = choose|i: int|
            0 <= i < before.len() && (#[trigger] before[i]).chunks == line_of(
                rows[row]->0,
                row as u32,
            ).chunks && before[i].row == Some(row as u32);
        assert(lines[i] == before[i]);
    }
}

/// Pop-on text is not shown before its end: nothing goes out, and it is held back then until
/// the next captions tell how long it lasts.
pub proof fn law_popon_is_held_back(view: JsonView, text: Text)
    requires
        view.wf(),
        view.mode == Some(Cea608Mode::PopOn),
        !view.unbuffered,
    ensures
        view.run(CaptionCommand::Text(text)).1 is None,
        ({
            let (after, out) = view.run(CaptionCommand::EndOfCaption);
            &&& out == view.drain_pending().1
            &&& after.rows == no_rows()
            &&& after.pending == JsonView { first_pts: view.current_pts, ..view }.drain(true).1
            &&& after.pending matches Some(p) ==> p.pts == view.current_pts
        }),
{
}

/// Nothing goes out in a mode that is chosen again.
pub proof fn law_same_mode_keeps_text(view: JsonView, mode: Cea608Mode)
    requires
        view.wf(),
        view.mode == Some(mode),
    ensures
        view.run(CaptionCommand::NewMode(mode)) == (view, None::<TimestampedView>),
{
}

} // verus!
