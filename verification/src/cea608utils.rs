//! The screen that CEA-608 captions are shown on.
use crate::cea608::{
    CaptionCode, Cea608Mode, Channel, Color, CaptionCommand, MidRow, PreambleAddressCode, PreambleType,
    MAX_COLUMN, MAX_ROW,
};
use crate::pango::{Attribute, AttributeKind, TEXT_END};
use crate::text::size_of_text;
use vstd::prelude::*;

pub mod laws;

verus! {

/// How text looks.
#[derive(Clone, Copy, Debug, PartialEq, Eq, Structural)]
pub enum TextStyle {
    White,
    Green,
    Blue,
    Cyan,
    Red,
    Yellow,
    Magenta,
    ItalicWhite,
}

/// The style of upright text in the given color.
pub open spec fn style_of_color(color: Color) -> TextStyle {
    match color {
        Color::White => TextStyle::White,
        Color::Green => TextStyle::Green,
        Color::Blue => TextStyle::Blue,
        Color::Cyan => TextStyle::Cyan,
        Color::Red => TextStyle::Red,
        Color::Yellow => TextStyle::Yellow,
        Color::Magenta => TextStyle::Magenta,
    }
}

/// The style with the given number. What has no style is white.
pub open spec fn style_of_number(val: u32) -> TextStyle {
    if val == 1 {
        TextStyle::Green
    } else if val == 2 {
        TextStyle::Blue
    } else if val == 3 {
        TextStyle::Cyan
    } else if val == 4 {
        TextStyle::Red
    } else if val == 5 {
        TextStyle::Yellow
    } else if val == 6 {
        TextStyle::Magenta
    } else if val == 7 {
        TextStyle::ItalicWhite
    } else {
        TextStyle::White
    }
}

/// The style that a mid-row code gives.
pub open spec fn style_of_midrow(midrow: MidRow) -> TextStyle {
    match midrow.color {
        Some(c) => style_of_color(c),
        None => TextStyle::ItalicWhite,
    }
}

impl TextStyle {
    /// Whether text is in italics.
    pub fn is_italics(&self) -> (r: bool)
        ensures
            r == (self == TextStyle::ItalicWhite),
    {
        *self == TextStyle::ItalicWhite
    }

    /// The color of upright text.
    pub fn to_cea608_color(self) -> (r: Option<Color>)
        ensures
            r is None <==> self == TextStyle::ItalicWhite,
            r matches Some(c) ==> style_of_color(c) == self,
    {
        match self {
            TextStyle::White => Some(Color::White),
            TextStyle::Green => Some(Color::Green),
            TextStyle::Blue => Some(Color::Blue),
            TextStyle::Cyan => Some(Color::Cyan),
            TextStyle::Red => Some(Color::Red),
            TextStyle::Yellow => Some(Color::Yellow),
            TextStyle::Magenta => Some(Color::Magenta),
            TextStyle::ItalicWhite => None,
        }
    }
}

impl Default for TextStyle {
    fn default() -> (r: TextStyle)
        ensures
            r == TextStyle::White,
    {
        TextStyle::White
    }
}

impl From<Color> for TextStyle {
    fn from(value: Color) -> (r: Self) {
        match value {
            Color::White => TextStyle::White,
            Color::Green => TextStyle::Green,
            Color::Blue => TextStyle::Blue,
            Color::Cyan => TextStyle::Cyan,
            Color::Red => TextStyle::Red,
            Color::Yellow => TextStyle::Yellow,
            Color::Magenta => TextStyle::Magenta,
        }
    }
}

impl vstd::std_specs::convert::FromSpecImpl<Color> for TextStyle {
    open spec fn obeys_from_spec() -> bool {
        true
    }

    open spec fn from_spec(value: Color) -> Self {
        style_of_color(value)
    }
}

impl From<PreambleAddressCode> for TextStyle {
    fn from(value: PreambleAddressCode) -> (r: Self) {
        TextStyle::from(value.color())
    }
}

impl vstd::std_specs::convert::FromSpecImpl<PreambleAddressCode> for TextStyle {
    open spec fn obeys_from_spec() -> bool {
        true
    }

    open spec fn from_spec(value: PreambleAddressCode) -> Self {
        style_of_color(value.in_color())
    }
}

impl From<MidRow> for TextStyle {
    fn from(value: MidRow) -> (r: Self) {
        match value.color {
            Some(c) => TextStyle::from(c),
            None => TextStyle::ItalicWhite,
        }
    }
}

impl vstd::std_specs::convert::FromSpecImpl<MidRow> for TextStyle {
    open spec fn obeys_from_spec() -> bool {
        true
    }

    open spec fn from_spec(value: MidRow) -> Self {
        style_of_midrow(value)
    }
}

impl From<u32> for TextStyle {
    fn from(val: u32) -> (r: Self) {
        match val {
            1 => TextStyle::Green,
            2 => TextStyle::Blue,
            3 => TextStyle::Cyan,
            4 => TextStyle::Red,
            5 => TextStyle::Yellow,
            6 => TextStyle::Magenta,
            7 => TextStyle::ItalicWhite,
            _ => TextStyle::White,
        }
    }
}

impl vstd::std_specs::convert::FromSpecImpl<u32> for TextStyle {
    open spec fn obeys_from_spec() -> bool {
        true
    }

    open spec fn from_spec(val: u32) -> Self {
        style_of_number(val)
    }
}

/// A place on screen.
#[derive(Clone, Copy, Debug, PartialEq, Eq, Structural)]
pub enum Cea608Cell {
    Empty,
    Char(char),
    MidRow(MidRow),
}

/// A row with text.
#[derive(Debug)]
pub struct Cea608Line {
    pub no: usize,
    pub line: Vec<Cea608Cell>,
    pub initial_preamble: Option<PreambleAddressCode>,
}

/// A row with text.
#[verifier::ext_equal]
pub struct LineView {
    pub no: int,
    pub cells: Seq<Cea608Cell>,
    pub initial: Option<PreambleAddressCode>,
}

impl View for Cea608Line {
    type V = LineView;

    open spec fn view(&self) -> LineView {
        LineView { no: self.no as int, cells: self.line@, initial: self.initial_preamble }
    }
}

/// The rows of a screen.
pub open spec fn views(lines: Seq<Cea608Line>) -> Seq<LineView> {
    lines.map_values(|line: Cea608Line| line@)
}

/// What is shown, and what is prepared.
#[derive(Debug)]
pub struct Cea608Frame {
    pub display_lines: Vec<Cea608Line>,
    pub undisplay_lines: Vec<Cea608Line>,
    pub mode: Option<Cea608Mode>,
    pub selected_channel: Option<Channel>,
    pub column: usize,
    pub row: usize,
    pub base_row: u8,
    pub preamble: PreambleAddressCode,
}

/// What is shown, and what is prepared.
#[verifier::ext_equal]
pub struct FrameView {
    pub display: Seq<LineView>,
    pub hidden: Seq<LineView>,
    pub mode: Option<Cea608Mode>,
    pub channel: Option<Channel>,
    pub column: int,
    pub row: int,
    pub base_row: int,
    pub preamble: PreambleAddressCode,
}

impl View for Cea608Frame {
    type V = FrameView;

    open spec fn view(&self) -> FrameView {
        FrameView {
            display: views(self.display_lines@),
            hidden: views(self.undisplay_lines@),
            mode: self.mode,
            channel: self.selected_channel,
            column: self.column as int,
            row: self.row as int,
            base_row: self.base_row as int,
            preamble: self.preamble,
        }
    }
}

/// The preamble that rows begin with where none was given.
pub open spec fn default_preamble() -> PreambleAddressCode {
    PreambleAddressCode { row: 0, underline: false, code: PreambleType::Indent(0) }
}

fn no_preamble() -> (r: PreambleAddressCode)
    ensures
        r == default_preamble(),
{
    PreambleAddressCode { row: 0, underline: false, code: PreambleType::Indent(0) }
}

/// The place of the line with the given row, or the number of lines where there is none.
pub open spec fn line_index(lines: Seq<LineView>, row: int) -> int
    decreases lines.len(),
{
    if lines.len() == 0 {
        0
    } else if lines[0].no == row {
        0
    } else {
        1 + line_index(lines.drop_first(), row)
    }
}

/// Cells with room for the given column.
pub open spec fn with_column(cells: Seq<Cea608Cell>, column: int) -> Seq<Cea608Cell> {
    if cells.len() > column {
        cells
    } else {
        Seq::new(
            (column + 1) as nat,
            |i: int|
                if i < cells.len() {
                    cells[i]
                } else {
                    Cea608Cell::Empty
                },
        )
    }
}

/// Lines with room for the given row and column.
pub open spec fn with_cell(lines: Seq<LineView>, row: int, column: int) -> Seq<LineView> {
    let i = line_index(lines, row);
    if i < lines.len() {
        lines.update(i, LineView { cells: with_column(lines[i].cells, column), ..lines[i] })
    } else {
        lines.push(
            LineView { no: row, cells: with_column(Seq::empty(), column), initial: None },
        )
    }
}

/// Lines with a cell in the given row and column. A row that begins at its first column takes the
/// preamble.
pub open spec fn put_cell(
    lines: Seq<LineView>,
    row: int,
    column: int,
    cell: Cea608Cell,
    preamble: Option<PreambleAddressCode>,
) -> Seq<LineView> {
    let room = with_cell(lines, row, column);
    let i = line_index(lines, row);
    room.update(
        i,
        LineView {
            cells: room[i].cells.update(column, cell),
            initial: match preamble {
                Some(p) => Some(p),
                None => room[i].initial,
            },
            ..room[i]
        },
    )
}

/// The lines that can be moved by `diff` rows and stay on screen, so moved.
pub open spec fn moved_lines(lines: Seq<LineView>, diff: int) -> Seq<LineView>
    decreases lines.len(),
{
    if lines.len() == 0 {
        Seq::empty()
    } else {
        let before = moved_lines(lines.drop_last(), diff);
        let line = lines.last();
        if 0 <= line.no + diff <= MAX_ROW {
            before.push(LineView { no: line.no + diff, ..line })
        } else {
            before
        }
    }
}

/// The lines below the given row, moved up by one.
pub open spec fn rolled_lines(lines: Seq<LineView>, above: int) -> Seq<LineView>
    decreases lines.len(),
{
    if lines.len() == 0 {
        Seq::empty()
    } else {
        let before = rolled_lines(lines.drop_last(), above);
        let line = lines.last();
        if line.no > above {
            before.push(LineView { no: line.no - 1, ..line })
        } else {
            before
        }
    }
}

/// The next column. The last one stays.
pub open spec fn next_column(column: int) -> int {
    if column + 1 <= MAX_COLUMN {
        column + 1
    } else {
        MAX_COLUMN as int
    }
}

/// Whether all lines are on screen, and no two of them in one row.
pub open spec fn is_screen(lines: Seq<LineView>) -> bool {
    &&& forall|i: int| 0 <= i < lines.len() ==> 0 <= (#[trigger] lines[i]).no <= MAX_ROW
    &&& forall|i: int, j: int|
        0 <= i < j < lines.len() ==> (#[trigger] lines[i]).no != (#[trigger] lines[j]).no
}

/// An empty screen.
pub open spec fn empty_frame() -> FrameView {
    FrameView {
        display: Seq::empty(),
        hidden: Seq::empty(),
        mode: None,
        channel: None,
        column: 0,
        row: MAX_ROW as int,
        base_row: MAX_ROW as int,
        preamble: default_preamble(),
    }
}

impl FrameView {
    /// Whether the cursor and all lines are on screen.
    pub open spec fn wf(&self) -> bool {
        &&& 0 <= self.column <= MAX_COLUMN
        &&& 0 <= self.row <= MAX_ROW
        &&& 0 <= self.base_row <= MAX_ROW
        &&& is_screen(self.display)
        &&& is_screen(self.hidden)
    }

    /// The lines that are written to.
    pub open spec fn written(&self) -> Seq<LineView> {
        if self.mode == Some(Cea608Mode::PopOn) {
            self.hidden
        } else {
            self.display
        }
    }

    /// The screen with other lines in place of those that are written to.
    pub open spec fn with_written(&self, lines: Seq<LineView>) -> FrameView {
        if self.mode == Some(Cea608Mode::PopOn) {
            FrameView { hidden: lines, ..*self }
        } else {
            FrameView { display: lines, ..*self }
        }
    }

    /// An empty screen. Only the place of the cursor's row stays.
    pub open spec fn reset(&self) -> FrameView {
        FrameView {
            display: Seq::empty(),
            hidden: Seq::empty(),
            mode: None,
            column: 0,
            channel: None,
            ..*self
        }
    }

    /// The screen once another channel was chosen.
    pub open spec fn set_channel(&self, channel: Channel) -> FrameView {
        if self.channel == Some(channel) {
            *self
        } else {
            FrameView { channel: Some(channel), ..self.reset() }
        }
    }

    /// Whether lines roll up.
    pub open spec fn rolls_up(&self) -> bool {
        self.mode matches Some(m) && m.rolls_up()
    }

    /// The screen once a character was written.
    pub open spec fn push_char(&self, c: char) -> FrameView {
        if self.mode is None {
            *self
        } else {
            let row = if self.rolls_up() {
                self.base_row
            } else {
                self.row
            };
            let preamble = if self.column == 0 {
                Some(self.preamble)
            } else {
                None
            };
            FrameView {
                column: next_column(self.column),
                ..self.with_written(
                    put_cell(self.written(), row, self.column, Cea608Cell::Char(c), preamble),
                )
            }
        }
    }

    /// The screen once a mode was chosen. A change to lines that roll up begins anew.
    pub open spec fn new_mode(&self, mode: Cea608Mode) -> FrameView {
        if self.mode == Some(mode) {
            *self
        } else {
            let was = if mode.rolls_up() && !self.rolls_up() {
                FrameView { base_row: MAX_ROW as int, ..self.reset() }
            } else {
                *self
            };
            FrameView {
                mode: Some(mode),
                column: if mode.rolls_up() {
                    0
                } else {
                    was.column
                },
                ..was
            }
        }
    }

    /// The row that a preamble moves rolling lines to. There is room for all lines above it.
    pub open spec fn base_for(&self, preamble: PreambleAddressCode) -> int {
        let least = (self.mode->0).rows() - 1;
        if preamble.row < least {
            least
        } else {
            preamble.row as int
        }
    }

    /// The screen once a preamble came.
    pub open spec fn new_preamble(&self, preamble: PreambleAddressCode) -> FrameView {
        let moved = FrameView { preamble, column: preamble.at_column() as int, ..*self };
        if self.rolls_up() {
            let base = self.base_for(preamble);
            if self.base_row != base {
                FrameView {
                    display: moved_lines(self.display, base - self.base_row),
                    base_row: preamble.row as int,
                    ..moved
                }
            } else {
                moved
            }
        } else {
            FrameView { row: preamble.row as int, ..moved }
        }
    }

    /// The screen once a mid-row code came.
    pub open spec fn new_midrow(&self, midrow: MidRow) -> FrameView {
        if self.mode is None {
            *self
        } else {
            FrameView {
                column: next_column(self.column),
                ..self.with_written(
                    put_cell(
                        self.written(),
                        self.row,
                        self.column,
                        Cea608Cell::MidRow(midrow),
                        None,
                    ),
                )
            }
        }
    }

    /// Whether all rows that roll up are on screen.
    pub open spec fn can_roll(&self) -> bool {
        self.rolls_up() ==> self.base_row + 1 >= (self.mode->0).rows()
    }

    /// The screen once lines rolled up, if they do.
    pub open spec fn carriage_return(&self) -> FrameView {
        if self.rolls_up() {
            FrameView {
                display: rolled_lines(self.display, self.base_row + 1 - (self.mode->0).rows()),
                column: 0,
                ..*self
            }
        } else {
            *self
        }
    }

    /// The screen once the cell before the cursor was cleared.
    pub open spec fn backspace(&self) -> FrameView {
        if self.column == 0 || self.mode is None {
            *self
        } else {
            FrameView {
                column: self.column - 1,
                ..self.with_written(
                    put_cell(self.written(), self.row, self.column - 1, Cea608Cell::Empty, None),
                )
            }
        }
    }

    /// Whether there is a line at the cursor.
    pub open spec fn has_line(&self) -> bool {
        self.mode is Some && line_index(self.written(), self.row) < self.written().len()
    }

    /// The screen once the cells from the cursor on were taken away.
    pub open spec fn delete_to_end_of_row(&self) -> FrameView {
        if self.has_line() {
            let i = line_index(self.written(), self.row);
            let line = self.written()[i];
            self.with_written(
                self.written().update(
                    i,
                    LineView {
                        cells: if line.cells.len() > self.column {
                            line.cells.take(self.column)
                        } else {
                            line.cells
                        },
                        ..line
                    },
                ),
            )
        } else {
            *self
        }
    }

    /// The screen once text came.
    pub open spec fn push_text(&self, text: crate::cea608::Text) -> FrameView {
        let f0 = if text.needs_backspace {
            self.backspace()
        } else {
            *self
        };
        let f1 = match text.char1 {
            Some(c) => f0.push_char(c),
            None => f0,
        };
        match text.char2 {
            Some(c) => f1.push_char(c),
            None => f1,
        }
    }

    /// The screen once a command was carried out.
    pub open spec fn run(&self, command: CaptionCommand) -> FrameView {
        match command {
            CaptionCommand::Text(text) => self.push_text(text),
            CaptionCommand::NewMode(mode) => self.new_mode(mode),
            CaptionCommand::Preamble(preamble) => self.new_preamble(preamble),
            CaptionCommand::EraseDisplay => FrameView { display: Seq::empty(), ..*self },
            CaptionCommand::EraseNonDisplay => FrameView { hidden: Seq::empty(), ..*self },
            CaptionCommand::EndOfCaption => FrameView {
                display: self.hidden,
                hidden: self.display,
                ..*self
            }.new_mode(Cea608Mode::PopOn),
            CaptionCommand::Backspace => self.backspace(),
            CaptionCommand::TabOffset(n) => FrameView {
                column: if self.column + n <= MAX_COLUMN {
                    self.column + n
                } else {
                    MAX_COLUMN as int
                },
                ..*self
            },
            CaptionCommand::MidRowChange(midrow) => self.new_midrow(midrow),
            CaptionCommand::CarriageReturn => self.carriage_return(),
            CaptionCommand::DeleteToEndOfRow => self.delete_to_end_of_row(),
        }
    }

    /// Whether a command may change what is shown.
    pub open spec fn is_changed_by(&self, command: CaptionCommand) -> bool {
        match command {
            CaptionCommand::Text(text) => {
                ||| text.needs_backspace && self.column > 0 && self.mode is Some
                ||| (text.char1 is Some || text.char2 is Some) && self.mode is Some
            },
            CaptionCommand::NewMode(mode) => self.mode != Some(mode),
            CaptionCommand::Preamble(_) => self.mode is Some,
            CaptionCommand::EraseDisplay => true,
            CaptionCommand::EraseNonDisplay => false,
            CaptionCommand::EndOfCaption => true,
            CaptionCommand::Backspace => self.column > 0 && self.mode is Some,
            CaptionCommand::TabOffset(_) => false,
            CaptionCommand::MidRowChange(_) => self.mode is Some,
            CaptionCommand::CarriageReturn => self.rolls_up(),
            CaptionCommand::DeleteToEndOfRow => self.has_line(),
        }
    }

    /// The screen with the channel of a code chosen, if none was.
    pub open spec fn tuned(&self, code: CaptionCode) -> FrameView {
        if self.channel is None {
            FrameView { channel: Some(code.channel), ..*self }
        } else {
            *self
        }
    }

    /// Whether a code can be carried out: lines cannot roll off the top of the screen.
    pub open spec fn takes(&self, code: CaptionCode) -> bool {
        self.tuned(code).channel == Some(code.channel) && code.command is CarriageReturn
            ==> self.can_roll()
    }

    /// The screen once a code came. What is for another channel is passed over.
    pub open spec fn push_code(&self, code: CaptionCode) -> FrameView {
        let tuned = self.tuned(code);
        if tuned.channel == Some(code.channel) {
            tuned.run(code.command)
        } else {
            tuned
        }
    }
}

pub(crate) proof fn lemma_line_index(lines: Seq<LineView>, row: int)
    ensures
        0 <= line_index(lines, row) <= lines.len(),
        forall|j: int| 0 <= j < line_index(lines, row) ==> (#[trigger] lines[j]).no != row,
        line_index(lines, row) < lines.len() ==> lines[line_index(lines, row)].no == row,
    decreases lines.len(),
{
    if lines.len() > 0 && lines[0].no != row {
        let rest = lines.drop_first();
        lemma_line_index(rest, row);
        assert forall|j: int| 0 <= j < line_index(lines, row) implies (#[trigger] lines[j]).no
            != row by {
            if j > 0 {
                assert(rest[j - 1] == lines[j]);
            }
        }
    }
}

proof fn lemma_index_is(lines: Seq<LineView>, row: int, i: int)
    requires
        0 <= i <= lines.len(),
        forall|j: int| 0 <= j < i ==> (#[trigger] lines[j]).no != row,
        i < lines.len() ==> lines[i].no == row,
    ensures
        line_index(lines, row) == i,
{
    lemma_line_index(lines, row);
    let k = line_index(lines, row);
    if k < i {
        assert(lines[k].no == row);
    } else if i < k {
        assert(lines[i].no != row);
    }
}

proof fn lemma_put_cell(
    lines: Seq<LineView>,
    row: int,
    column: int,
    cell: Cea608Cell,
    preamble: Option<PreambleAddressCode>,
)
    requires
        is_screen(lines),
        0 <= row <= MAX_ROW,
    ensures
        is_screen(put_cell(lines, row, column, cell, preamble)),
{
    lemma_line_index(lines, row);
    let now = put_cell(lines, row, column, cell, preamble);
    assert(forall|i: int| 0 <= i < lines.len() ==> (#[trigger] now[i]).no == lines[i].no);
}

proof fn lemma_moved_lines(lines: Seq<LineView>, diff: int)
    requires
        is_screen(lines),
    ensures
        is_screen(moved_lines(lines, diff)),
        forall|j: int|
            0 <= j < moved_lines(lines, diff).len() ==> exists|i: int|
                0 <= i < lines.len() && (#[trigger] lines[i]).no + diff == (
                #[trigger] moved_lines(lines, diff)[j]).no,
    decreases lines.len(),
{
    if lines.len() > 0 {
        let rest = lines.drop_last();
        lemma_moved_lines(rest, diff);
        let before = moved_lines(rest, diff);
        let now = moved_lines(lines, diff);
        assert forall|j: int| 0 <= j < now.len() implies exists|i: int|
            0 <= i < lines.len() && (#[trigger] lines[i]).no + diff == (#[trigger] now[j]).no by {
            if j < before.len() {
                let i = choose|i: int|
                    0 <= i < rest.len() && (#[trigger] rest[i]).no + diff == before[j].no;
                assert(lines[i].no + diff == now[j].no);
            } else {
                assert(lines[lines.len() - 1].no + diff == now[j].no);
            }
        }
        assert forall|j: int| 0 <= j < before.len() implies (#[trigger] before[j]).no
            != lines.last().no + diff by {
            let i = choose|i: int|
                0 <= i < rest.len() && (#[trigger] rest[i]).no + diff == before[j].no;
            assert(lines[i].no != lines[lines.len() - 1].no);
        }
    }
}

proof fn lemma_rolled_lines(lines: Seq<LineView>, above: int)
    requires
        is_screen(lines),
        above >= 0,
    ensures
        is_screen(rolled_lines(lines, above)),
        forall|j: int|
            0 <= j < rolled_lines(lines, above).len() ==> above <= (#[trigger] rolled_lines(
                lines,
                above,
            )[j]).no && exists|i: int|
                0 <= i < lines.len() && (#[trigger] lines[i]).no - 1 == rolled_lines(
                    lines,
                    above,
                )[j].no,
    decreases lines.len(),
{
    if lines.len() > 0 {
        let rest = lines.drop_last();
        lemma_rolled_lines(rest, above);
        let before = rolled_lines(rest, above);
        let now = rolled_lines(lines, above);
        assert forall|j: int| 0 <= j < now.len() implies above <= (#[trigger] now[j]).no && exists|
            i: int,
        |
            0 <= i < lines.len() && (#[trigger] lines[i]).no - 1 == now[j].no by {
            if j < before.len() {
                let i = choose|i: int|
                    0 <= i < rest.len() && (#[trigger] rest[i]).no - 1 == before[j].no;
                assert(lines[i].no - 1 == now[j].no);
            } else {
                assert(lines[lines.len() - 1].no - 1 == now[j].no);
            }
        }
        assert forall|j: int| 0 <= j < before.len() implies (#[trigger] before[j]).no
            != lines.last().no - 1 by {
            let i = choose|i: int|
                0 <= i < rest.len() && (#[trigger] rest[i]).no - 1 == before[j].no;
            assert(lines[i].no != lines[lines.len() - 1].no);
        }
    }
}

fn find_line(lines: &Vec<Cea608Line>, row: usize) -> (r: usize)
    ensures
        r == line_index(views(lines@), row as int),
        r <= lines@.len(),
{
    let mut i: usize = 0;
    let ghost v = views(lines@);
    while i < lines.len() && lines[i].no != row
        invariant
            v == views(lines@),
            i <= lines@.len(),
            forall|j: int| 0 <= j < i ==> (#[trigger] v[j]).no != row,
        decreases lines@.len() - i,
    {
        assert(v[i as int] == lines@[i as int]@);
        i += 1;
    }
    proof {
        if i < lines@.len() {
            assert(v[i as int] == lines@[i as int]@);
        }
        lemma_index_is(v, row as int, i as int);
    }
    i
}

fn fill_cells(cells: &mut Vec<Cea608Cell>, column: usize)
    ensures
        final(cells)@ == with_column(old(cells)@, column as int),
{
    let ghost all = with_column(cells@, column as int);
    while cells.len() <= column
        invariant
            old(cells)@.len() <= cells@.len(),
            cells@.len() <= old(cells)@.len() || cells@.len() <= column + 1,
            all == with_column(old(cells)@, column as int),
            cells@ == all.take(cells@.len() as int),
            cells@.len() <= all.len(),
        decreases column + 1 - cells@.len(),
    {
        cells.push(Cea608Cell::Empty);
        assert(cells@ =~= all.take(cells@.len() as int));
    }
    assert(all.take(cells@.len() as int) =~= all);
}

/// Writes a cell.
fn write_cell(
    lines: &mut Vec<Cea608Line>,
    row: usize,
    column: usize,
    cell: Cea608Cell,
    preamble: Option<PreambleAddressCode>,
)
    ensures
        views(final(lines)@) == put_cell(
            views(old(lines)@),
            row as int,
            column as int,
            cell,
            preamble,
        ),
{
    let ghost v = views(lines@);
    let i: usize = find_line(lines, row);
    if i == lines.len() {
        let line: Vec<Cea608Cell> = Vec::new();
        assert(line@ =~= Seq::<Cea608Cell>::empty());
        lines.push(Cea608Line { no: row, line, initial_preamble: None });
    }
    let ghost before = lines@;
    fill_cells(&mut lines[i].line, column);
    lines[i].line.set(column, cell);
    if let Some(p) = preamble {
        lines[i].initial_preamble = Some(p);
    }
    proof {
        let room = with_cell(v, row as int, column as int);
        assert forall|j: int| 0 <= j < lines@.len() implies views(lines@)[j] == put_cell(
            v,
            row as int,
            column as int,
            cell,
            preamble,
        )[j] by {
            if j != i {
                assert(lines@[j] == before[j]);
                assert(v[j] == before[j]@);
            }
        }
        assert(views(lines@) =~= put_cell(v, row as int, column as int, cell, preamble));
    }
}

/// Moves lines by a number of rows. What does not stay on screen is dropped.
fn move_lines(lines: &mut Vec<Cea608Line>, diff: isize)
    requires
        -(MAX_ROW as int) <= diff <= MAX_ROW,
    ensures
        views(final(lines)@) == moved_lines(views(old(lines)@), diff as int),
{
    let ghost v = views(lines@);
    let mut rest: Vec<Cea608Line> = Vec::new();
    std::mem::swap(&mut rest, lines);
    let mut kept: Vec<Cea608Line> = Vec::new();
    let ghost mut n: int = 0;
    assert(v.take(0) =~= Seq::<LineView>::empty());
    assert(views(kept@) =~= Seq::<LineView>::empty());
    assert(views(rest@) =~= v.skip(0));
    while rest.len() > 0
        invariant
            -(MAX_ROW as int) <= diff <= MAX_ROW,
            0 <= n <= v.len(),
            views(rest@) == v.skip(n),
            views(kept@) == moved_lines(v.take(n), diff as int),
        decreases rest@.len(),
    {
        let ghost before = rest@;
        let line: Cea608Line = rest.remove(0);
        proof {
            assert(views(before).len() == before.len() && v.skip(n).len() == v.len() - n);
            assert(views(before)[0] == line@);
            assert(v.skip(n)[0] == v[n]);
            assert(views(rest@) =~= v.skip(n + 1)) by {
                assert forall|j: int| 0 <= j < rest@.len() implies views(rest@)[j] == v.skip(n
                    + 1)[j] by {
                    assert(rest@[j] == before[j + 1]);
                    assert(views(before)[j + 1] == v.skip(n)[j + 1]);
                }
            }
            assert(v.take(n + 1).drop_last() =~= v.take(n));
            n = n + 1;
        }
        let ghost was = kept@;
        if line.no <= 2 * MAX_ROW {
            let no: isize = line.no as isize + diff;
            if 0 <= no && no <= MAX_ROW as isize {
                kept.push(
                    Cea608Line {
                        no: no as usize,
                        line: line.line,
                        initial_preamble: line.initial_preamble,
                    },
                );
                assert(views(kept@) =~= views(was).push(
                    LineView { no: line.no + diff, ..line@ },
                ));
            }
        }
    }
    assert(v.take(n) =~= v);
    *lines = kept;
}

/// Moves lines below a row up by one, and drops the others.
fn roll_lines(lines: &mut Vec<Cea608Line>, above: usize)
    ensures
        views(final(lines)@) == rolled_lines(views(old(lines)@), above as int),
{
    let ghost v = views(lines@);
    let mut rest: Vec<Cea608Line> = Vec::new();
    std::mem::swap(&mut rest, lines);
    let mut kept: Vec<Cea608Line> = Vec::new();
    let ghost mut n: int = 0;
    assert(v.take(0) =~= Seq::<LineView>::empty());
    assert(views(kept@) =~= Seq::<LineView>::empty());
    assert(views(rest@) =~= v.skip(0));
    while rest.len() > 0
        invariant
            0 <= n <= v.len(),
            views(rest@) == v.skip(n),
            views(kept@) == rolled_lines(v.take(n), above as int),
        decreases rest@.len(),
    {
        let ghost before = rest@;
        let line: Cea608Line = rest.remove(0);
        proof {
            assert(views(before).len() == before.len() && v.skip(n).len() == v.len() - n);
            assert(views(before)[0] == line@);
            assert(v.skip(n)[0] == v[n]);
            assert(views(rest@) =~= v.skip(n + 1)) by {
                assert forall|j: int| 0 <= j < rest@.len() implies views(rest@)[j] == v.skip(n
                    + 1)[j] by {
                    assert(rest@[j] == before[j + 1]);
                    assert(views(before)[j + 1] == v.skip(n)[j + 1]);
                }
            }
            assert(v.take(n + 1).drop_last() =~= v.take(n));
            n = n + 1;
        }
        let ghost was = kept@;
        if line.no > above {
            kept.push(
                Cea608Line {
                    no: line.no - 1,
                    line: line.line,
                    initial_preamble: line.initial_preamble,
                },
            );
            assert(views(kept@) =~= views(was).push(LineView { no: line.no - 1, ..line@ }));
        }
    }
    assert(v.take(n) =~= v);
    *lines = kept;
}

impl Cea608Line {
    /// The preamble that the row begins with.
    pub fn initial_preamble(&self) -> (r: PreambleAddressCode)
        ensures
            r == match self.initial_preamble {
                Some(p) => p,
                None => default_preamble(),
            },
    {
        match self.initial_preamble {
            Some(p) => p,
            None => no_preamble(),
        }
    }

    /// The cells of the row.
    pub fn display_iter(&self) -> (r: &[Cea608Cell])
        ensures
            r@ == self@.cells,
    {
        self.line.as_slice()
    }
}

impl Cea608Frame {
    /// An empty screen with the cursor in the last row.
    pub fn new() -> (r: Self)
        ensures
            r@ == empty_frame(),
            r@.wf(),
    {
        let r = Cea608Frame {
            display_lines: Vec::new(),
            undisplay_lines: Vec::new(),
            mode: None,
            selected_channel: None,
            column: 0,
            row: MAX_ROW,
            base_row: MAX_ROW as u8,
            preamble: no_preamble(),
        };
        assert(r@.display =~= Seq::<LineView>::empty());
        assert(r@.hidden =~= Seq::<LineView>::empty());
        r
    }

    /// Empties the screen and forgets mode and channel.
    pub fn reset(&mut self)
        ensures
            final(self)@ == old(self)@.reset(),
    {
        self.display_lines.clear();
        self.undisplay_lines.clear();
        self.mode = None;
        self.column = 0;
        self.selected_channel = None;
        assert(self@ =~= old(self)@.reset());
    }

    /// Chooses a channel. If that is another one the screen is emptied.
    pub fn set_channel(&mut self, channel: Channel)
        ensures
            final(self)@ == old(self)@.set_channel(channel),
    {
        let is_same: bool = match self.selected_channel {
            Some(c) => c == channel,
            None => false,
        };
        if !is_same {
            self.reset();
            self.selected_channel = Some(channel);
            assert(self@ =~= old(self)@.set_channel(channel));
        }
    }

    fn is_popon(&self) -> (r: bool)
        ensures
            r == (self.mode == Some(Cea608Mode::PopOn)),
    {
        match self.mode {
            Some(m) => m == Cea608Mode::PopOn,
            None => false,
        }
    }

    fn is_rollup(&self) -> (r: bool)
        ensures
            r == self@.rolls_up(),
    {
        match self.mode {
            Some(m) => m.is_rollup(),
            None => false,
        }
    }

    /// Writes a cell to the lines that are written to.
    fn put(
        &mut self,
        row: usize,
        column: usize,
        cell: Cea608Cell,
        preamble: Option<PreambleAddressCode>,
    )
        requires
            old(self)@.wf(),
            row <= MAX_ROW,
        ensures
            final(self)@.wf(),
            final(self)@ == old(self)@.with_written(
                put_cell(old(self)@.written(), row as int, column as int, cell, preamble),
            ),
    {
        proof {
            lemma_put_cell(self@.written(), row as int, column as int, cell, preamble);
        }
        if self.is_popon() {
            write_cell(&mut self.undisplay_lines, row, column, cell, preamble);
        } else {
            write_cell(&mut self.display_lines, row, column, cell, preamble);
        }
        assert(self@ =~= old(self)@.with_written(
            put_cell(old(self)@.written(), row as int, column as int, cell, preamble),
        ));
    }

    fn advance(&mut self)
        requires
            old(self)@.wf(),
        ensures
            final(self)@ == (FrameView { column: next_column(old(self)@.column), ..old(self)@ }),
    {
        if self.column + 1 <= MAX_COLUMN {
            self.column = self.column + 1;
        } else {
            self.column = MAX_COLUMN;
        }
    }

    fn push_char(&mut self, c: char) -> (r: bool)
        requires
            old(self)@.wf(),
        ensures
            final(self)@ == old(self)@.push_char(c),
            r == (old(self)@.mode is Some),
            final(self)@.wf(),
    {
        if self.mode.is_none() {
            return false;
        }
        let row: usize = if self.is_rollup() {
            self.base_row as usize
        } else {
            self.row
        };
        let preamble: Option<PreambleAddressCode> = if self.column == 0 {
            Some(self.preamble)
        } else {
            None
        };
        self.put(row, self.column, Cea608Cell::Char(c), preamble);
        self.advance();
        true
    }

    fn new_mode(&mut self, new_mode: Cea608Mode) -> (r: bool)
        requires
            old(self)@.wf(),
        ensures
            final(self)@ == old(self)@.new_mode(new_mode),
            r == (old(self)@.mode != Some(new_mode)),
            final(self)@.wf(),
    {
        if let Some(m) = self.mode {
            if m == new_mode {
                return false;
            }
        }
        if new_mode.is_rollup() && !self.is_rollup() {
            self.base_row = MAX_ROW as u8;
            self.reset();
        }
        self.mode = Some(new_mode);
        if new_mode.is_rollup() {
            self.column = 0;
        }
        assert(self@ =~= old(self)@.new_mode(new_mode));
        true
    }

    fn preamble(&mut self, preamble: PreambleAddressCode) -> (r: bool)
        requires
            old(self)@.wf(),
            crate::cea608::is_preamble(preamble),
        ensures
            final(self)@ == old(self)@.new_preamble(preamble),
            r == (old(self)@.mode is Some),
            final(self)@.wf(),
    {
        self.preamble = preamble;
        self.column = preamble.column() as usize;
        let mode: Cea608Mode = match self.mode {
            Some(m) => m,
            None => {
                self.row = preamble.row as usize;
                return false;
            },
        };
        match mode.rollup_rows() {
            None => {
                self.row = preamble.row as usize;
            },
            Some(rows) => {
                let base_row: u8 = if preamble.row < rows - 1 {
                    rows - 1
                } else {
                    preamble.row
                };
                if self.base_row != base_row {
                    let diff: isize = base_row as isize - self.base_row as isize;
                    proof {
                        lemma_moved_lines(self@.display, diff as int);
                    }
                    move_lines(&mut self.display_lines, diff);
                    self.base_row = preamble.row;
                }
            },
        }
        assert(self@ =~= old(self)@.new_preamble(preamble));
        true
    }

    fn midrow(&mut self, midrow: MidRow) -> (r: bool)
        requires
            old(self)@.wf(),
        ensures
            final(self)@ == old(self)@.new_midrow(midrow),
            r == (old(self)@.mode is Some),
            final(self)@.wf(),
    {
        if self.mode.is_none() {
            return false;
        }
        self.put(self.row, self.column, Cea608Cell::MidRow(midrow), None);
        self.advance();
        true
    }

    fn carriage_return(&mut self) -> (r: bool)
        requires
            old(self)@.wf(),
            old(self)@.can_roll(),
        ensures
            final(self)@ == old(self)@.carriage_return(),
            r == old(self)@.rolls_up(),
            final(self)@.wf(),
    {
        let rows: Option<u8> = match self.mode {
            Some(m) => m.rollup_rows(),
            None => None,
        };
        match rows {
            Some(n_rows) => {
                let above: usize = self.base_row as usize + 1 - n_rows as usize;
                proof {
                    lemma_rolled_lines(self@.display, above as int);
                }
                roll_lines(&mut self.display_lines, above);
                self.column = 0;
                assert(self@ =~= old(self)@.carriage_return());
                true
            },
            // nothing rolls up
            None => false,
        }
    }

    fn backspace(&mut self) -> (r: bool)
        requires
            old(self)@.wf(),
        ensures
            final(self)@ == old(self)@.backspace(),
            r == (old(self)@.column > 0 && old(self)@.mode is Some),
            final(self)@.wf(),
    {
        if self.column == 0 || self.mode.is_none() {
            return false;
        }
        self.put(self.row, self.column - 1, Cea608Cell::Empty, None);
        self.column = self.column - 1;
        true
    }

    fn delete_to_end_of_row(&mut self) -> (r: bool)
        requires
            old(self)@.wf(),
        ensures
            final(self)@ == old(self)@.delete_to_end_of_row(),
            r == old(self)@.has_line(),
            final(self)@.wf(),
    {
        if self.mode.is_none() {
            return false;
        }
        proof {
            lemma_line_index(self@.written(), self@.row);
        }
        let found: bool = if self.is_popon() {
            truncate_line(&mut self.undisplay_lines, self.row, self.column)
        } else {
            truncate_line(&mut self.display_lines, self.row, self.column)
        };
        proof {
            let was = old(self)@.written();
            let now = self@.written();
            assert(forall|i: int| 0 <= i < now.len() ==> (#[trigger] now[i]).no == was[i].no);
        }
        found
    }

    /// Whether a code can be carried out.
    pub fn takes(&self, code: &CaptionCode) -> (r: bool)
        requires
            self@.wf(),
        ensures
            r == self@.takes(*code),
    {
        if let Some(c) = self.selected_channel {
            if c != code.channel {
                return true;
            }
        }
        if !matches!(code.command, CaptionCommand::CarriageReturn) {
            return true;
        }
        match self.mode {
            Some(m) => match m.rollup_rows() {
                Some(n) => self.base_row + 1 >= n,
                None => true,
            },
            None => true,
        }
    }

    /// Carries out a code. Says whether what is shown may have changed.
    pub fn push_code(&mut self, code: CaptionCode) -> (r: bool)
        requires
            old(self)@.wf(),
            crate::cea608::is_command(code.command),
            old(self)@.takes(code),
        ensures
            final(self)@ == old(self)@.push_code(code),
            r == (old(self)@.tuned(code).channel == Some(code.channel) && old(self)@.tuned(
                code,
            ).is_changed_by(code.command)),
            final(self)@.wf(),
    {
        if self.selected_channel.is_none() {
            self.selected_channel = Some(code.channel);
        }
        let ghost tuned = self@;
        assert(tuned =~= old(self)@.tuned(code));
        if let Some(c) = self.selected_channel {
            if c != code.channel {
                return false;
            }
        }
        match code.command {
            CaptionCommand::Text(text) => {
                let mut ret: bool = false;
                if text.needs_backspace {
                    ret = self.backspace();
                }
                if let Some(c) = text.char1 {
                    let changed: bool = self.push_char(c);
                    ret = ret || changed;
                }
                if let Some(c) = text.char2 {
                    let changed: bool = self.push_char(c);
                    ret = ret || changed;
                }
                ret
            },
            CaptionCommand::NewMode(mode) => self.new_mode(mode),
            CaptionCommand::Preamble(preamble) => self.preamble(preamble),
            CaptionCommand::EraseDisplay => {
                self.display_lines.clear();
                assert(self@ =~= tuned.run(code.command));
                true
            },
            CaptionCommand::EraseNonDisplay => {
                self.undisplay_lines.clear();
                assert(self@ =~= tuned.run(code.command));
                false
            },
            CaptionCommand::EndOfCaption => {
                std::mem::swap(&mut self.display_lines, &mut self.undisplay_lines);
                let _ = self.new_mode(Cea608Mode::PopOn);
                true
            },
            CaptionCommand::Backspace => self.backspace(),
            CaptionCommand::TabOffset(n_tabs) => {
                if self.column + n_tabs as usize <= MAX_COLUMN {
                    self.column = self.column + n_tabs as usize;
                } else {
                    self.column = MAX_COLUMN;
                }
                false
            },
            CaptionCommand::MidRowChange(midrow) => self.midrow(midrow),
            CaptionCommand::CarriageReturn => self.carriage_return(),
            CaptionCommand::DeleteToEndOfRow => self.delete_to_end_of_row(),
        }
    }

    /// The lines that are shown, in the order in which they were begun.
    pub fn iter(&self) -> (r: &[Cea608Line])
        ensures
            views(r@) == self@.display,
    {
        self.display_lines.as_slice()
    }

    /// The mode.
    pub fn mode(&self) -> (r: Option<Cea608Mode>)
        ensures
            r == self@.mode,
    {
        self.mode
    }
}

fn truncate_line(lines: &mut Vec<Cea608Line>, row: usize, column: usize) -> (r: bool)
    ensures
        ({
            let v = views(old(lines)@);
            let i = line_index(v, row as int);
            &&& r == (i < v.len())
            &&& views(final(lines)@) == if i < v.len() {
                v.update(
                    i,
                    LineView {
                        cells: if v[i].cells.len() > column {
                            v[i].cells.take(column as int)
                        } else {
                            v[i].cells
                        },
                        ..v[i]
                    },
                )
            } else {
                v
            }
        }),
{
    let ghost v = views(lines@);
    let ghost before = lines@;
    let i: usize = find_line(lines, row);
    if i == lines.len() {
        return false;
    }
    lines[i].line.truncate(column);
    proof {
        let now = v.update(
            i as int,
            LineView {
                cells: if v[i as int].cells.len() > column {
                    v[i as int].cells.take(column as int)
                } else {
                    v[i as int].cells
                },
                ..v[i as int]
            },
        );
        assert forall|j: int| 0 <= j < lines@.len() implies views(lines@)[j] == now[j] by {
            if j != i {
                assert(lines@[j] == before[j]);
                assert(v[j] == before[j]@);
            }
        }
        assert(views(lines@) =~= now);
    }
    true
}

/// Whether one of the first `n` cells shows something.
pub open spec fn shows_text(cells: Seq<Cea608Cell>, n: int) -> bool {
    exists|i: int|
        0 <= i < n && (#[trigger] cells[i] matches Cea608Cell::Char(c) && c != ' ')
}

/// The text of the first `n` cells. Cells without a character are left out up to the first one
/// that shows something.
pub open spec fn cells_text(cells: Seq<Cea608Cell>, n: int) -> Seq<char>
    decreases n,
{
    if n <= 0 {
        Seq::empty()
    } else {
        match cells[n - 1] {
            Cea608Cell::Char(c) => cells_text(cells, n - 1).push(c),
            _ => if shows_text(cells, n - 1) {
                cells_text(cells, n - 1).push(' ')
            } else {
                cells_text(cells, n - 1)
            },
        }
    }
}

/// The text of the first `n` lines, with line ends between them.
pub open spec fn lines_text(lines: Seq<LineView>, n: int) -> Seq<char>
    decreases n,
{
    if n <= 0 {
        Seq::empty()
    } else {
        let before = if n == 1 {
            Seq::empty()
        } else {
            lines_text(lines, n - 1).push('\r').push('\n')
        };
        before + cells_text(lines[n - 1].cells, lines[n - 1].cells.len() as int)
    }
}

impl Cea608Frame {
    /// The text that is shown.
    pub fn get_text(&self) -> (r: String)
        ensures
            r@ == lines_text(self@.display, self@.display.len() as int),
    {
        let mut text: String = String::new();
        let ghost v = self@.display;
        let mut i: usize = 0;
        assert(text@ =~= lines_text(v, 0));
        while i < self.display_lines.len()
            invariant
                v == self@.display,
                i <= v.len(),
                v.len() == self.display_lines@.len(),
                text@ == lines_text(v, i as int),
            decreases v.len() - i,
        {
            if i != 0 {
                text.push('\r');
                text.push('\n');
            }
            let ghost before = text@;
            let cells: &[Cea608Cell] = self.display_lines[i].display_iter();
            assert(v[i as int] == self.display_lines@[i as int]@);
            let mut seen_non_space: bool = false;
            let mut j: usize = 0;
            assert(before + cells_text(cells@, 0) =~= before);
            while j < cells.len()
                invariant
                    j <= cells@.len(),
                    text@ == before + cells_text(cells@, j as int),
                    seen_non_space == shows_text(cells@, j as int),
                decreases cells@.len() - j,
            {
                let ghost was = text@;
                match cells[j] {
                    Cea608Cell::Char(c) => {
                        if c != ' ' {
                            seen_non_space = true;
                        }
                        text.push(c);
                    },
                    _ => {
                        if seen_non_space {
                            text.push(' ');
                        }
                    },
                }
                assert(text@ =~= before + cells_text(cells@, j + 1));
                proof {
                    if seen_non_space {
                        if !shows_text(cells@, j as int) {
                            assert(cells@[j as int] matches Cea608Cell::Char(c) && c != ' ');
                        }
                    }
                }
                j += 1;
            }
            i += 1;
        }
        text
    }
}

/// The text and the attributes of captions, and the row that they begin in.
#[derive(Debug)]
pub struct Layout {
    pub text: String,
    pub attributes: Vec<Attribute>,
    pub first_row: usize,
}

/// How text is written, and where in the text that begins.
#[derive(Clone, Copy, Debug, PartialEq, Eq, Structural)]
pub struct Pen {
    pub color: Color,
    pub color_start: usize,
    pub underline: bool,
    pub underline_start: usize,
    pub italic_start: Option<usize>,
}

/// Text with the attributes of what is done with.
#[verifier::ext_equal]
pub struct Drawn {
    pub text: Seq<char>,
    pub attributes: Seq<Attribute>,
}

/// The attribute of text in the given color.
pub open spec fn foreground_of(color: Color) -> AttributeKind {
    match color {
        Color::White => AttributeKind::Foreground {
            red: u16::MAX,
            green: u16::MAX,
            blue: u16::MAX,
        },
        Color::Green => AttributeKind::Foreground { red: 0, green: u16::MAX, blue: 0 },
        Color::Blue => AttributeKind::Foreground { red: 0, green: 0, blue: u16::MAX },
        Color::Cyan => AttributeKind::Foreground { red: 0, green: u16::MAX, blue: u16::MAX },
        Color::Red => AttributeKind::Foreground { red: u16::MAX, green: 0, blue: 0 },
        Color::Yellow => AttributeKind::Foreground { red: u16::MAX, green: u16::MAX, blue: 0 },
        Color::Magenta => AttributeKind::Foreground { red: u16::MAX, green: 0, blue: u16::MAX },
    }
}

fn pango_foreground_color_from_608(color: Color) -> (r: AttributeKind)
    ensures
        r == foreground_of(color),
{
    let (red, green, blue): (u16, u16, u16) = match color {
        Color::White => (u16::MAX, u16::MAX, u16::MAX),
        Color::Green => (0, u16::MAX, 0),
        Color::Blue => (0, 0, u16::MAX),
        Color::Cyan => (0, u16::MAX, u16::MAX),
        Color::Red => (u16::MAX, 0, 0),
        Color::Yellow => (u16::MAX, u16::MAX, 0),
        Color::Magenta => (u16::MAX, 0, u16::MAX),
    };
    AttributeKind::Foreground { red, green, blue }
}

/// How text is written at the beginning of a line.
pub open spec fn first_pen(preamble: PreambleAddressCode, at: usize) -> Pen {
    Pen {
        color: preamble.in_color(),
        color_start: at,
        underline: preamble.underline,
        underline_start: at,
        italic_start: if preamble.code is WhiteItalics {
            Some(at)
        } else {
            None
        },
    }
}

/// How text is written behind a mid-row code.
pub open spec fn next_pen(pen: Pen, midrow: MidRow, at: usize) -> Pen {
    Pen {
        color: match midrow.color {
            Some(c) => c,
            None => pen.color,
        },
        color_start: if midrow.color is Some && midrow.color != Some(pen.color) {
            at
        } else {
            pen.color_start
        },
        underline: midrow.underline,
        underline_start: if midrow.underline != pen.underline {
            at
        } else {
            pen.underline_start
        },
        italic_start: if midrow.color is Some {
            None
        } else if pen.italic_start is None {
            Some(at)
        } else {
            pen.italic_start
        },
    }
}

/// The attributes that end with a mid-row code.
pub open spec fn ended_attributes(pen: Pen, midrow: MidRow, at: usize) -> Seq<Attribute> {
    let underline = if midrow.underline != pen.underline {
        seq![
            Attribute {
                kind: AttributeKind::Underline(pen.underline),
                start: pen.underline_start,
                end: at,
            },
        ]
    } else {
        Seq::empty()
    };
    let italic = match pen.italic_start {
        Some(start) => if midrow.color is Some {
            seq![Attribute { kind: AttributeKind::Italic, start, end: at }]
        } else {
            Seq::empty()
        },
        None => Seq::empty(),
    };
    let color = if midrow.color is Some && midrow.color != Some(pen.color) {
        seq![Attribute { kind: foreground_of(pen.color), start: pen.color_start, end: at }]
    } else {
        Seq::empty()
    };
    underline + italic + color
}

/// The attributes that end with a line.
pub open spec fn last_attributes(pen: Pen, at: usize) -> Seq<Attribute> {
    let both = seq![
        Attribute { kind: foreground_of(pen.color), start: pen.color_start, end: at },
        Attribute {
            kind: AttributeKind::Underline(pen.underline),
            start: pen.underline_start,
            end: at,
        },
    ];
    match pen.italic_start {
        Some(start) => both.push(Attribute { kind: AttributeKind::Italic, start, end: at }),
        None => both,
    }
}

/// Text with the first `n` cells of a line behind it, and how it is written there.
pub open spec fn draw_cells(
    was: Drawn,
    first: PreambleAddressCode,
    cells: Seq<Cea608Cell>,
    n: int,
) -> (Drawn, Pen)
    decreases n,
{
    if n <= 0 {
        (was, first_pen(first, crate::text::byte_size(was.text)))
    } else {
        let (drawn, pen) = draw_cells(was, first, cells, n - 1);
        match cells[n - 1] {
            Cea608Cell::Char(c) => (Drawn { text: drawn.text.push(c), ..drawn }, pen),
            Cea608Cell::Empty => (Drawn { text: drawn.text.push(' '), ..drawn }, pen),
            Cea608Cell::MidRow(midrow) => {
                let text = drawn.text.push(' ');
                let at = crate::text::byte_size(text);
                (
                    Drawn {
                        text,
                        attributes: drawn.attributes + ended_attributes(pen, midrow, at),
                    },
                    next_pen(pen, midrow, at),
                )
            },
        }
    }
}

/// Text with a line behind it.
pub open spec fn draw_line(was: Drawn, line: LineView) -> Drawn {
    let first = match line.initial {
        Some(p) => p,
        None => default_preamble(),
    };
    let (drawn, pen) = draw_cells(was, first, line.cells, line.cells.len() as int);
    Drawn {
        attributes: drawn.attributes + last_attributes(
            pen,
            crate::text::byte_size(drawn.text),
        ),
        ..drawn
    }
}

/// A number of line ends.
pub open spec fn newlines(n: int) -> Seq<char> {
    Seq::new(n as nat, |i: int| '\n')
}

/// The first `n` lines. Each begins as many lines below the one before it as its row is.
pub open spec fn draw_lines(lines: Seq<LineView>, n: int, black_background: bool) -> Drawn
    decreases n,
{
    if n <= 0 {
        Drawn {
            text: Seq::empty(),
            attributes: if black_background {
                seq![
                    Attribute {
                        kind: AttributeKind::Background { red: 0, green: 0, blue: 0 },
                        start: 0,
                        end: TEXT_END,
                    },
                ]
            } else {
                Seq::empty()
            },
        }
    } else {
        let before = draw_lines(lines, n - 1, black_background);
        let skip = if n == 1 {
            0
        } else {
            lines[n - 1].no - lines[n - 2].no
        };
        draw_line(Drawn { text: before.text + newlines(skip), ..before }, lines[n - 1])
    }
}

/// Whether the lines go down the screen in their order.
pub open spec fn in_order(lines: Seq<LineView>) -> bool {
    forall|i: int, j: int|
        0 <= i < j < lines.len() ==> (#[trigger] lines[i]).no <= (#[trigger] lines[j]).no
}

/// Ends lines.
pub(crate) fn push_newlines(text: &mut String, n: usize)
    ensures
        final(text)@ == old(text)@ + newlines(n as int),
{
    let mut i: usize = 0;
    assert(text@ + newlines(0) =~= text@);
    while i < n
        invariant
            i <= n,
            text@ == old(text)@ + newlines(i as int),
        decreases n - i,
    {
        text.push('\n');
        i += 1;
        assert(text@ =~= old(text)@ + newlines(i as int));
    }
}

/// Changes how text is written.
fn change_pen(pen: Pen, midrow: MidRow, at: usize, attributes: &mut Vec<Attribute>) -> (r: Pen)
    ensures
        r == next_pen(pen, midrow, at),
        final(attributes)@ == old(attributes)@ + ended_attributes(pen, midrow, at),
{
    let mut next: Pen = pen;
    if pen.underline != midrow.underline {
        attributes.push(
            Attribute {
                kind: AttributeKind::Underline(pen.underline),
                start: pen.underline_start,
                end: at,
            },
        );
        next.underline_start = at;
        next.underline = midrow.underline;
    }
    if !midrow.italics() {
        if let Some(start) = pen.italic_start {
            attributes.push(Attribute { kind: AttributeKind::Italic, start, end: at });
        }
        next.italic_start = None;
    } else if pen.italic_start.is_none() {
        next.italic_start = Some(at);
    }
    if let Some(c) = midrow.color {
        if c != pen.color {
            attributes.push(
                Attribute {
                    kind: pango_foreground_color_from_608(pen.color),
                    start: pen.color_start,
                    end: at,
                },
            );
            next.color_start = at;
            next.color = c;
        }
    }
    assert(attributes@ =~= old(attributes)@ + ended_attributes(pen, midrow, at));
    next
}

/// Ends a line.
fn end_pen(pen: Pen, at: usize, attributes: &mut Vec<Attribute>)
    ensures
        final(attributes)@ == old(attributes)@ + last_attributes(pen, at),
{
    attributes.push(
        Attribute {
            kind: pango_foreground_color_from_608(pen.color),
            start: pen.color_start,
            end: at,
        },
    );
    attributes.push(
        Attribute {
            kind: AttributeKind::Underline(pen.underline),
            start: pen.underline_start,
            end: at,
        },
    );
    if let Some(start) = pen.italic_start {
        attributes.push(Attribute { kind: AttributeKind::Italic, start, end: at });
    }
    assert(attributes@ =~= old(attributes)@ + last_attributes(pen, at));
}

/// Writes a line behind a text.
fn draw(text: &mut String, attributes: &mut Vec<Attribute>, line: &Cea608Line)
    ensures
        draw_line(Drawn { text: old(text)@, attributes: old(attributes)@ }, line@) == (Drawn {
            text: final(text)@,
            attributes: final(attributes)@,
        }),
{
    let ghost was = Drawn { text: text@, attributes: attributes@ };
    let initial: PreambleAddressCode = line.initial_preamble();
    let at: usize = size_of_text(text);
    let mut pen: Pen = Pen {
        color: initial.color(),
        color_start: at,
        underline: initial.underline,
        underline_start: at,
        italic_start: if initial.italics() {
            Some(at)
        } else {
            None
        },
    };
    let cells: &[Cea608Cell] = line.display_iter();
    let mut i: usize = 0;
    while i < cells.len()
        invariant
            i <= cells@.len(),
            draw_cells(was, initial, cells@, i as int) == (
                Drawn { text: text@, attributes: attributes@ },
                pen,
            ),
        decreases cells@.len() - i,
    {
        match cells[i] {
            Cea608Cell::MidRow(midrow) => {
                text.push(' ');
                let at: usize = size_of_text(text);
                pen = change_pen(pen, midrow, at, attributes);
            },
            Cea608Cell::Empty => text.push(' '),
            Cea608Cell::Char(c) => text.push(c),
        }
        i += 1;
    }
    let at: usize = size_of_text(text);
    end_pen(pen, at, attributes);
}

/// Where text is shown.
#[derive(Clone, Copy, Debug, PartialEq, Eq, Structural)]
pub struct Rectangle {
    pub x: i32,
    pub y: i32,
    pub width: u32,
    pub height: u32,
}

/// What is to be done to show text.
#[derive(Debug)]
pub enum Rendering {
    /// Nothing: it was rendered before.
    Ready(Rectangle),
    /// The text is to be rendered, and then placed.
    Draw(Layout),
}

/// Shows CEA-608 captions.
pub struct Cea608Renderer {
    pub frame: Cea608Frame,
    pub state: cea608_types::Cea608State,
    pub rectangle: Option<Rectangle>,
    pub video_width: u32,
    pub video_height: u32,
    pub left_alignment: i32,
    pub black_background: bool,
}

/// A half, rounded towards zero.
pub open spec fn half(v: int) -> int {
    if v >= 0 {
        v / 2
    } else {
        -((-v) / 2)
    }
}

/// How far from the top captions stand that begin in the given row.
pub open spec fn row_position(video_height: u32, first_row: int) -> int {
    crate::clock::scaled_round(
        crate::clock::scaled_floor(video_height as int, 80, 100),
        first_row,
        MAX_ROW + 1,
    ) + video_height as int / 10
}

impl Cea608Renderer {
    /// Whether the parts of the renderer are in order.
    pub open spec fn wf(&self) -> bool {
        &&& self.frame@.wf()
        &&& self.video_width <= i32::MAX
        &&& self.video_height <= i32::MAX
    }

    /// Whether the renderer has seen nothing, neither captions nor a video.
    pub open spec fn is_new(&self) -> bool {
        &&& self.frame@ == empty_frame()
        &&& crate::cea608::decoder_view(self.state) == crate::cea608::empty_decoder()
        &&& self.rectangle is None
        &&& self.video_width == 0
        &&& self.video_height == 0
        &&& self.left_alignment == 0
    }

    /// A renderer that has seen nothing, for a video without size.
    pub fn new() -> (r: Self)
        ensures
            r.wf(),
            r.is_new(),
            !r.black_background,
    {
        Cea608Renderer {
            frame: Cea608Frame::new(),
            state: crate::cea608::new_decoder(),
            rectangle: None,
            video_width: 0,
            video_height: 0,
            left_alignment: 0,
            black_background: false,
        }
    }

    /// The code that a pair of bytes stands for.
    pub open spec fn code_for(&self, pair: Seq<u8>) -> Option<CaptionCode> {
        crate::cea608::decoded(crate::cea608::decoder_view(self.state), pair[0], pair[1])
    }

    /// Decodes a pair of bytes. What it says is carried out by `push_code`. A control code that
    /// comes twice in a row counts once.
    pub fn decode(&mut self, pair: [u8; 2]) -> (r: Result<
        Option<CaptionCode>,
        crate::cea608::InvalidParity,
    >)
        ensures
            r == if crate::cea608::odd_parity(pair@[0]) && crate::cea608::odd_parity(pair@[1]) {
                Ok(old(self).code_for(pair@))
            } else {
                Err(crate::cea608::InvalidParity)
            },
            r matches Ok(Some(code)) ==> crate::cea608::is_command(code.command),
            crate::cea608::decoder_view(final(self).state) == if r is Ok {
                crate::cea608::after_pair(
                    crate::cea608::decoder_view(old(self).state),
                    pair@[0],
                    pair@[1],
                )
            } else {
                crate::cea608::decoder_view(old(self).state)
            },
            r is Ok && crate::cea608::is_repeated(
                crate::cea608::decoder_view(old(self).state),
                pair@[0],
                pair@[1],
            ) ==> r->Ok_0 is None,
            r is Ok ==> crate::cea608::decoder_view(final(self).state).last_data
                == if crate::cea608::is_repeated(
                crate::cea608::decoder_view(old(self).state),
                pair@[0],
                pair@[1],
            ) {
                None
            } else {
                Some((pair@[0], pair@[1]))
            },
            final(self).same_but_state(*old(self)),
    {
        crate::cea608::decode(&mut self.state, pair[0], pair[1])
    }

    /// Whether nothing but the decoder differs.
    pub open spec fn same_but_state(&self, other: Self) -> bool {
        &&& self.frame == other.frame
        &&& self.rectangle == other.rectangle
        &&& self.video_width == other.video_width
        &&& self.video_height == other.video_height
        &&& self.left_alignment == other.left_alignment
        &&& self.black_background == other.black_background
    }

    /// Whether neither size nor background differ.
    pub open spec fn same_video(&self, other: Self) -> bool {
        &&& self.video_width == other.video_width
        &&& self.video_height == other.video_height
        &&& self.left_alignment == other.left_alignment
        &&& self.black_background == other.black_background
    }

    /// Carries out a code. Says whether what is shown has to be rendered anew.
    pub fn push_code(&mut self, code: CaptionCode) -> (r: bool)
        requires
            old(self).wf(),
            crate::cea608::is_command(code.command),
            old(self).frame@.takes(code),
        ensures
            final(self).wf(),
            final(self).frame@ == old(self).frame@.push_code(code),
            final(self).state == old(self).state,
            final(self).same_video(*old(self)),
            r == (old(self).frame@.tuned(code).channel == Some(code.channel)
                && old(self).frame@.tuned(code).is_changed_by(code.command)),
            final(self).rectangle == if r {
                None
            } else {
                old(self).rectangle
            },
    {
        if self.frame.push_code(code) {
            self.rectangle = None;
            return true;
        }
        false
    }

    /// Whether a pair of bytes leads to the given state and result.
    pub open spec fn took_pair(
        &self,
        after: Self,
        pair: Seq<u8>,
        r: Option<Result<bool, crate::cea608::InvalidParity>>,
    ) -> bool {
        let is_pair = crate::cea608::odd_parity(pair[0]) && crate::cea608::odd_parity(pair[1]);
        let code = self.code_for(pair);
        let was = self.frame@;
        &&& crate::cea608::decoder_view(after.state) == if is_pair {
            crate::cea608::after_pair(crate::cea608::decoder_view(self.state), pair[0], pair[1])
        } else {
            crate::cea608::decoder_view(self.state)
        }
        &&& match r {
            Some(Err(_)) => !is_pair,
            Some(Ok(changed)) => is_pair && (code is None || was.takes(code->0)) && changed == (
            code matches Some(c) && was.tuned(c).channel == Some(c.channel) && was.tuned(
                c,
            ).is_changed_by(c.command)),
            None => is_pair && code is Some && !was.takes(code->0),
        }
        &&& after.frame@ == if r matches Some(Ok(_)) {
            match code {
                Some(c) => was.push_code(c),
                None => was,
            }
        } else {
            was
        }
        &&& after.rectangle == if r matches Some(Ok(true)) {
            None
        } else {
            self.rectangle
        }
        &&& after.same_video(*self)
    }

    /// Decodes a pair of bytes and carries out what it says, unless lines would have to roll off
    /// the top of the screen: there is no result where a carriage return cannot be carried out.
    pub fn push_pair(&mut self, pair: [u8; 2]) -> (r: Option<
        Result<bool, crate::cea608::InvalidParity>,
    >)
        requires
            old(self).wf(),
        ensures
            final(self).wf(),
            old(self).took_pair(*final(self), pair@, r),
    {
        match self.decode(pair) {
            Err(e) => Some(Err(e)),
            Ok(None) => Some(Ok(false)),
            Ok(Some(code)) => {
                if !self.frame.takes(&code) {
                    return None;
                }
                Some(Ok(self.push_code(code)))
            },
        }
    }

    /// Whether choosing a channel leads to the given state.
    pub open spec fn tuned(&self, after: Self, channel: Channel) -> bool {
        &&& after.frame@ == self.frame@.set_channel(channel)
        &&& after.rectangle == if self.frame@.channel == Some(channel) {
            self.rectangle
        } else {
            None
        }
        &&& after.state == self.state
        &&& after.same_video(*self)
    }

    /// Chooses a channel.
    pub fn set_channel(&mut self, channel: Channel)
        requires
            old(self).wf(),
        ensures
            final(self).wf(),
            old(self).tuned(*final(self), channel),
    {
        let is_same: bool = match self.frame.selected_channel {
            Some(c) => c == channel,
            None => false,
        };
        if !is_same {
            self.frame.set_channel(channel);
            self.rectangle = None;
        }
    }

    /// The channel.
    pub fn channel(&self) -> (r: Option<Channel>)
        ensures
            r == self.frame@.channel,
    {
        self.frame.selected_channel
    }

    /// Whether a video of another size needs another layout.
    pub fn needs_layout(&self, width: u32, height: u32) -> (r: bool)
        ensures
            r == (width != self.video_width || height != self.video_height),
    {
        width != self.video_width || height != self.video_height
    }

    /// Whether a video of the given size, and with the given width of 32 characters in it, leads to
    /// the given state.
    pub open spec fn resized(&self, after: Self, width: u32, height: u32, layout: int) -> bool {
        &&& after.video_width == width
        &&& after.video_height == height
        &&& after.frame == self.frame
        &&& after.state == self.state
        &&& after.black_background == self.black_background
        &&& if width != self.video_width || height != self.video_height {
            &&& after.left_alignment == half(width - layout) + width as int / 10
            &&& after.rectangle is None
        } else {
            &&& after.left_alignment == self.left_alignment
            &&& after.rectangle == self.rectangle
        }
    }

    /// Takes the size of the video, and the width of 32 characters in the largest font that fits.
    /// Text stands in the middle of what is left of the border.
    pub fn set_video_size(&mut self, width: u32, height: u32, max_layout_width: i32)
        requires
            old(self).wf(),
            width <= i32::MAX,
            height <= i32::MAX,
            0 <= max_layout_width,
        ensures
            final(self).wf(),
            old(self).resized(*final(self), width, height, max_layout_width as int),
    {
        if self.needs_layout(width, height) {
            self.video_width = width;
            self.video_height = height;
            let left: i32 = width as i32 - max_layout_width;
            let middle: i32 = if left >= 0 {
                left / 2
            } else {
                -((-left) / 2)
            };
            self.left_alignment = middle + (width / 10) as i32;
            self.rectangle = None;
        }
    }

    /// Whether choosing the background leads to the given state.
    pub open spec fn backed(&self, after: Self, bg: bool) -> bool {
        &&& after.black_background == bg
        &&& after.rectangle is None
        &&& after.frame == self.frame
        &&& after.state == self.state
        &&& after.video_width == self.video_width
        &&& after.video_height == self.video_height
        &&& after.left_alignment == self.left_alignment
    }

    /// Chooses whether text stands on black.
    pub fn set_black_background(&mut self, bg: bool)
        ensures
            old(self).backed(*final(self), bg),
    {
        self.black_background = bg;
        self.rectangle = None;
    }

    /// The text that is shown, with its attributes.
    fn layout(&self) -> (r: Layout)
        requires
            self.wf(),
            in_order(self.frame@.display),
        ensures
            r.first_row <= MAX_ROW,
            draw_lines(
                self.frame@.display,
                self.frame@.display.len() as int,
                self.black_background,
            ) == (Drawn { text: r.text@, attributes: r.attributes@ }),
            r.first_row == if self.frame@.display.len() == 0 {
                0
            } else {
                self.frame@.display[0].no
            },
    {
        let mut text: String = String::new();
        let mut attributes: Vec<Attribute> = Vec::new();
        if self.black_background {
            attributes.push(
                Attribute {
                    kind: AttributeKind::Background { red: 0, green: 0, blue: 0 },
                    start: 0,
                    end: TEXT_END,
                },
            );
        }
        let ghost v = self.frame@.display;
        let lines: &[Cea608Line] = self.frame.iter();
        let mut first_row: usize = 0;
        let mut last_row: usize = 0;
        let mut i: usize = 0;
        assert(draw_lines(v, 0, self.black_background) =~= (Drawn {
            text: text@,
            attributes: attributes@,
        }));
        while i < lines.len()
            invariant
                v == views(lines@),
                in_order(v),
                i <= lines@.len(),
                i > 0 ==> last_row == v[i - 1].no && first_row == v[0].no,
                i == 0 ==> first_row == 0,
                draw_lines(v, i as int, self.black_background) == (Drawn {
                    text: text@,
                    attributes: attributes@,
                }),
            decreases lines@.len() - i,
        {
            let line: &Cea608Line = &lines[i];
            assert(v[i as int] == line@);
            if i == 0 {
                first_row = line.no;
                assert(text@ + newlines(0) =~= text@);
            } else {
                push_newlines(&mut text, line.no - last_row);
            }
            last_row = line.no;
            draw(&mut text, &mut attributes, line);
            i += 1;
        }
        Layout { text, attributes, first_row }
    }

    /// Whether the text can be shown: it was placed before, or its lines are in order.
    pub fn can_show(&self) -> (r: bool)
        ensures
            r == (self.rectangle is None ==> in_order(self.frame@.display)),
    {
        if self.rectangle.is_some() {
            return true;
        }
        let ghost v = self.frame@.display;
        let lines: &[Cea608Line] = self.frame.iter();
        let mut i: usize = 1;
        while i < lines.len()
            invariant
                v == views(lines@),
                v == self.frame@.display,
                self.rectangle is None,
                v.len() == lines@.len(),
                1 <= i,
                forall|j: int, k: int|
                    0 <= j < k < i && k < v.len() ==> (#[trigger] v[j]).no <= (
                    #[trigger] v[k]).no,
            decreases lines@.len() - i,
        {
            assert(v[i - 1].no == lines@[i - 1].no);
            assert(v[i as int].no == lines@[i as int].no);
            if lines[i - 1].no > lines[i].no {
                return false;
            }
            i += 1;
        }
        true
    }

    /// Whether this is what is to be done to show the text.
    pub open spec fn is_rendering(&self, r: Rendering) -> bool {
        match r {
            Rendering::Ready(rectangle) => self.rectangle == Some(rectangle),
            Rendering::Draw(layout) => {
                &&& self.rectangle is None
                &&& draw_lines(
                    self.frame@.display,
                    self.frame@.display.len() as int,
                    self.black_background,
                ) == (Drawn { text: layout.text@, attributes: layout.attributes@ })
                &&& layout.first_row <= MAX_ROW
                &&& layout.first_row == if self.frame@.display.len() == 0 {
                    0
                } else {
                    self.frame@.display[0].no
                }
            },
        }
    }

    /// What is to be done to show the text: it is rendered where it changed since it was placed.
    pub fn generate_rectangle(&self) -> (r: Rendering)
        requires
            self.wf(),
            self.rectangle is None ==> in_order(self.frame@.display),
        ensures
            self.is_rendering(r),
    {
        if let Some(rectangle) = self.rectangle {
            return Rendering::Ready(rectangle);
        }
        Rendering::Draw(self.layout())
    }

    /// Whether placing text that takes the given space leads to the given state and result.
    pub open spec fn placed(
        &self,
        after: Self,
        first_row: int,
        width: i32,
        height: i32,
        r: Option<Rectangle>,
    ) -> bool {
        &&& r == if width == 0 || height == 0 {
            None
        } else {
            Some(
                Rectangle {
                    x: self.left_alignment,
                    y: row_position(self.video_height, first_row) as i32,
                    width: width as u32,
                    height: height as u32,
                },
            )
        }
        &&& after.rectangle == if r is Some {
            r
        } else {
            self.rectangle
        }
        &&& after.frame == self.frame
        &&& after.state == self.state
        &&& after.same_video(*self)
    }

    /// Places text that takes the given space. Nothing is shown where it takes none.
    pub fn place(&mut self, first_row: usize, width: i32, height: i32) -> (r: Option<Rectangle>)
        requires
            old(self).wf(),
            first_row <= MAX_ROW,
            width >= 0,
            height >= 0,
        ensures
            0 <= row_position(old(self).video_height, first_row as int) <= i32::MAX,
            old(self).placed(*final(self), first_row as int, width, height, r),
    {
        let vertical_padding: u32 = self.video_height / 10;
        let safe_height: u64 = self.video_height as u64 * 80 / 100;
        assert(0 <= safe_height * first_row <= 14 * safe_height) by (nonlinear_arith)
            requires
                first_row <= 14,
        ;
        let position: u64 = (safe_height * first_row as u64 + 7) / 15;
        if width == 0 || height == 0 {
            return None;
        }
        let rectangle: Rectangle = Rectangle {
            x: self.left_alignment,
            y: position as i32 + vertical_padding as i32,
            width: width as u32,
            height: height as u32,
        };
        self.rectangle = Some(rectangle);
        Some(rectangle)
    }

    /// Begins anew on the same channel.
    pub fn clear(&mut self)
        requires
            old(self).wf(),
        ensures
            final(self).wf(),
            crate::cea608::decoder_view(final(self).state) == crate::cea608::empty_decoder(),
            final(self).frame@ == (FrameView {
                channel: old(self).frame@.channel,
                ..old(self).frame@.reset()
            }),
            final(self).rectangle == if old(self).frame@.channel is Some {
                None
            } else {
                old(self).rectangle
            },
            final(self).same_video(*old(self)),
    {
        crate::cea608::reset_decoder(&mut self.state);
        let channel: Option<Channel> = self.channel();
        self.frame.reset();
        if let Some(channel) = channel {
            self.set_channel(channel);
        }
        assert(self.frame@ =~= (FrameView {
            channel: old(self).frame@.channel,
            ..old(self).frame@.reset()
        }));
    }
}

/// Text that was placed is not rendered again: the same rectangle is shown. It stands between
/// borders of a tenth of the video, as far down as its first row does among all rows.
pub proof fn law_placed_text_is_ready(
    before: Cea608Renderer,
    after: Cea608Renderer,
    layout: Layout,
    width: i32,
    height: i32,
    r: Option<Rectangle>,
    again: Rendering,
)
    requires
        before.wf(),
        before.is_rendering(Rendering::Draw(layout)),
        width > 0,
        height > 0,
        before.placed(after, layout.first_row as int, width, height, r),
        after.is_rendering(again),
    ensures
        r matches Some(rectangle) && again == Rendering::Ready(rectangle) && {
            let safe = before.video_height as int * 80 / 100;
            &&& rectangle.x == before.left_alignment
            &&& rectangle.y == before.video_height as int / 10 + (safe * layout.first_row + 7) / 15
            &&& rectangle.width == width
            &&& rectangle.height == height
        },
{
    let safe = before.video_height as int * 80 / 100;
    assert(0 <= safe * layout.first_row <= 14 * safe) by (nonlinear_arith)
        requires
            layout.first_row <= 14,
            safe >= 0,
    ;
}

/// What was placed is rendered anew once a pair of bytes changed what is shown, or another channel,
/// another size of the video or a background was chosen.
pub proof fn law_changed_text_is_drawn_anew(
    before: Cea608Renderer,
    after: Cea608Renderer,
    pair: Seq<u8>,
    channel: Channel,
    width: u32,
    height: u32,
    layout: int,
    bg: bool,
    again: Rendering,
)
    requires
        before.took_pair(after, pair, Some(Ok(true))) || (before.frame@.channel != Some(channel)
            && before.tuned(after, channel)) || ((width, height) != (
            before.video_width,
            before.video_height,
        ) && before.resized(after, width, height, layout)) || before.backed(after, bg),
        after.is_rendering(again),
    ensures
        again is Draw,
{
}

/// Text that is written in pop-on mode is not shown before the end of the caption, and then just
/// what was prepared is shown.
pub proof fn law_popon_is_hidden(frame: FrameView, text: crate::cea608::Text)
    requires
        frame.mode == Some(Cea608Mode::PopOn),
    ensures
        frame.run(CaptionCommand::Text(text)).display == frame.display,
        frame.run(CaptionCommand::EndOfCaption).display == frame.hidden,
        frame.run(CaptionCommand::EndOfCaption).hidden == frame.display,
{
}

/// In paint-on mode, and where lines roll up, what is prepared stays as it is when text comes.
pub proof fn law_text_is_shown_at_once(frame: FrameView, text: crate::cea608::Text)
    requires
        frame.mode != Some(Cea608Mode::PopOn),
    ensures
        frame.run(CaptionCommand::Text(text)).hidden == frame.hidden,
{
}

/// Once lines rolled up, those that are shown lie in the rows that roll up, above the row that is
/// written to next.
pub proof fn law_rolled_lines_fit(frame: FrameView, i: int)
    requires
        frame.wf(),
        frame.rolls_up(),
        frame.can_roll(),
        forall|j: int|
            0 <= j < frame.display.len() ==> (#[trigger] frame.display[j]).no <= frame.base_row,
        0 <= i < frame.run(CaptionCommand::CarriageReturn).display.len(),
    ensures
        frame.base_row + 1 - (frame.mode->0).rows() <= frame.run(
            CaptionCommand::CarriageReturn,
        ).display[i].no < frame.base_row,
{
    lemma_rolled_lines(frame.display, frame.base_row + 1 - (frame.mode->0).rows());
}

/// What is for another channel than the chosen one changes nothing.
pub proof fn law_other_channel_is_ignored(frame: FrameView, code: CaptionCode)
    requires
        frame.channel is Some,
        frame.channel != Some(code.channel),
    ensures
        frame.push_code(code) == frame,
{
}

} // verus!
