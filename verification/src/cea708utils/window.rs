//! The windows of a CEA-708 service.
use crate::cea608utils::Rectangle;
use crate::cea708::{
    pen_attributes_from, pen_color_from, window_attributes_from, Anchor, ColorValue,
    DefineWindowArgs, Direction, Opacity, ServiceCommand, SetPenAttributesArgs, SetPenColorArgs,
    SetPenLocationArgs, SetWindowAttributesArgs,
};
use crate::clock::mul_div_round;
use crate::dtvcc::{
    predefined_pen_attributes, predefined_pen_color, predefined_window_attributes,
};
use crate::pango::{Attribute, AttributeKind};
use crate::text::size_of_text;
use vstd::prelude::*;

verus! {

/// A size or a place, in pixels.
#[derive(Clone, Copy, Debug, PartialEq, Eq, Structural)]
pub struct Dimensions {
    pub w: u32,
    pub h: u32,
}

/// Where something stands along one axis.
#[derive(Clone, Copy, Debug, PartialEq, Eq, Structural)]
pub enum Align {
    First,
    Center,
    Last,
}

/// A place in a window.
#[derive(Clone, Copy, Debug, PartialEq, Eq, Structural)]
pub struct Cell {
    pub character: Option<char>,
    pub pen_attrs: SetPenAttributesArgs,
    pub pen_color: SetPenColorArgs,
}

/// A row of a window.
#[derive(Debug)]
pub struct WindowLine {
    pub no: usize,
    pub line: Vec<Cell>,
}

/// A row of a window.
#[verifier::ext_equal]
pub struct WindowLineView {
    pub no: int,
    pub cells: Seq<Cell>,
}

impl View for WindowLine {
    type V = WindowLineView;

    open spec fn view(&self) -> WindowLineView {
        WindowLineView { no: self.no as int, cells: self.line@ }
    }
}

/// The rows of a window.
pub open spec fn views(lines: Seq<WindowLine>) -> Seq<WindowLineView> {
    lines.map_values(|line: WindowLine| line@)
}

/// A window.
#[derive(Debug)]
pub struct Window {
    pub visible: bool,
    pub define: DefineWindowArgs,
    pub attrs: SetWindowAttributesArgs,
    pub pen_attrs: SetPenAttributesArgs,
    pub pen_color: SetPenColorArgs,
    pub pen_location: SetPenLocationArgs,
    pub lines: Vec<WindowLine>,
    pub window_position: Dimensions,
    pub video_dims: Dimensions,
    pub window_dims: Dimensions,
    pub max_layout_dims: Dimensions,
    pub rectangle: Option<Rectangle>,
}

/// A window.
#[verifier::ext_equal]
pub struct WindowView {
    pub visible: bool,
    pub define: DefineWindowArgs,
    pub attrs: SetWindowAttributesArgs,
    pub pen_attrs: SetPenAttributesArgs,
    pub pen_color: SetPenColorArgs,
    pub pen_location: SetPenLocationArgs,
    pub lines: Seq<WindowLineView>,
    pub window_position: Dimensions,
    pub video_dims: Dimensions,
    pub window_dims: Dimensions,
    pub max_layout_dims: Dimensions,
    pub rectangle: Option<Rectangle>,
}

impl View for Window {
    type V = WindowView;

    open spec fn view(&self) -> WindowView {
        WindowView {
            visible: self.visible,
            define: self.define,
            attrs: self.attrs,
            pen_attrs: self.pen_attrs,
            pen_color: self.pen_color,
            pen_location: self.pen_location,
            lines: views(self.lines@),
            window_position: self.window_position,
            video_dims: self.video_dims,
            window_dims: self.window_dims,
            max_layout_dims: self.max_layout_dims,
            rectangle: self.rectangle,
        }
    }
}

/// How an anchor stands from left to right.
pub open spec fn horizontal_align(anchor: Anchor) -> Align {
    if anchor is TopLeft || anchor is CenterLeft || anchor is BottomLeft {
        Align::First
    } else if anchor is TopRight || anchor is CenterRight || anchor is BottomRight {
        Align::Last
    } else {
        Align::Center
    }
}

/// How an anchor stands from top to bottom.
pub open spec fn vertical_align(anchor: Anchor) -> Align {
    if anchor is TopLeft || anchor is TopMiddle || anchor is TopRight {
        Align::First
    } else if anchor is CenterLeft || anchor is CenterMiddle || anchor is CenterRight {
        Align::Center
    } else {
        Align::Last
    }
}

impl Align {
    /// How an anchor stands from left to right.
    pub fn horizontal_from_anchor(anchor: Anchor) -> (r: Self)
        ensures
            r == horizontal_align(anchor),
    {
        match anchor {
            Anchor::TopLeft | Anchor::CenterLeft | Anchor::BottomLeft => Align::First,
            Anchor::TopRight | Anchor::CenterRight | Anchor::BottomRight => Align::Last,
            _ => Align::Center,
        }
    }

    /// How an anchor stands from top to bottom.
    pub fn vertical_from_anchor(anchor: Anchor) -> (r: Self)
        ensures
            r == vertical_align(anchor),
    {
        match anchor {
            Anchor::TopLeft | Anchor::TopMiddle | Anchor::TopRight => Align::First,
            Anchor::CenterLeft | Anchor::CenterMiddle | Anchor::CenterRight => Align::Center,
            _ => Align::Last,
        }
    }
}

/// The larger of two numbers.
pub open spec fn max(a: int, b: int) -> int {
    if a >= b {
        a
    } else {
        b
    }
}

/// The smaller of two numbers.
pub open spec fn min(a: int, b: int) -> int {
    if a <= b {
        a
    } else {
        b
    }
}

/// The place of the line with the given row, or the number of lines where there is none.
pub open spec fn line_index(lines: Seq<WindowLineView>, row: int) -> int
    decreases lines.len(),
{
    if lines.len() == 0 {
        0
    } else if lines[0].no == row {
        0
    } else {
        1 + line_index(lines.drop_first(), row)
    }
}

/// Cells with room for the given column.
pub open spec fn with_column(cells: Seq<Cell>, column: int, empty: Cell) -> Seq<Cell> {
    if cells.len() > column {
        cells
    } else {
        Seq::new(
            (column + 1) as nat,
            |i: int|
                if i < cells.len() {
                    cells[i]
                } else {
                    empty
                },
        )
    }
}

/// Lines with room for the given row and column.
pub open spec fn with_cell(
    lines: Seq<WindowLineView>,
    row: int,
    column: int,
    empty: Cell,
) -> Seq<WindowLineView> {
    let i = line_index(lines, row);
    if i < lines.len() {
        lines.update(
            i,
            WindowLineView { cells: with_column(lines[i].cells, column, empty), ..lines[i] },
        )
    } else {
        lines.push(WindowLineView { no: row, cells: with_column(Seq::empty(), column, empty) })
    }
}

/// Lines with a character in the given row and column, or with none there. The cell keeps its look
/// where there was one.
pub open spec fn set_char(
    lines: Seq<WindowLineView>,
    row: int,
    column: int,
    character: Option<char>,
    empty: Cell,
) -> Seq<WindowLineView> {
    let room = with_cell(lines, row, column, empty);
    let i = line_index(lines, row);
    room.update(
        i,
        WindowLineView {
            cells: room[i].cells.update(column, Cell { character, ..room[i].cells[column] }),
            ..room[i]
        },
    )
}

/// The character in the given row and column, if there is one.
pub open spec fn char_at(lines: Seq<WindowLineView>, row: int, column: int) -> Option<char> {
    let i = line_index(lines, row);
    if i < lines.len() && column < lines[i].cells.len() {
        lines[i].cells[column].character
    } else {
        None
    }
}

/// Lines without characters in `n` columns of a row.
pub open spec fn clear_columns(
    lines: Seq<WindowLineView>,
    row: int,
    column: int,
    n: int,
    empty: Cell,
) -> Seq<WindowLineView>
    decreases n,
{
    if n <= 0 {
        lines
    } else {
        set_char(
            clear_columns(lines, row, column, n - 1, empty),
            row,
            column + n - 1,
            None,
            empty,
        )
    }
}

/// Lines without characters in `n` columns of `rows` rows.
pub open spec fn clear_rows(
    lines: Seq<WindowLineView>,
    row: int,
    rows: int,
    column: int,
    n: int,
    empty: Cell,
) -> Seq<WindowLineView>
    decreases rows,
{
    if rows <= 0 {
        lines
    } else {
        clear_columns(
            clear_rows(lines, row, rows - 1, column, n, empty),
            row + rows - 1,
            column,
            n,
            empty,
        )
    }
}

/// The lines from row `first` to row `last`, moved by `diff` rows.
pub open spec fn moved_lines(
    lines: Seq<WindowLineView>,
    first: int,
    last: int,
    diff: int,
) -> Seq<WindowLineView>
    decreases lines.len(),
{
    if lines.len() == 0 {
        Seq::empty()
    } else {
        let before = moved_lines(lines.drop_last(), first, last, diff);
        let line = lines.last();
        if first <= line.no <= last {
            before.push(WindowLineView { no: line.no + diff, ..line })
        } else {
            before
        }
    }
}

/// The ways to write and to scroll that go together.
pub open spec fn can_scroll(attrs: SetWindowAttributesArgs) -> bool {
    let print = attrs.print_direction;
    let scroll = attrs.scroll_direction;
    let is_horizontal = print is LeftToRight || print is RightToLeft;
    if is_horizontal {
        scroll is TopToBottom || scroll is BottomToTop
    } else {
        scroll is LeftToRight || scroll is RightToLeft
    }
}

impl WindowView {
    /// Whether all parts of the window are within their bounds.
    pub open spec fn wf(&self) -> bool {
        &&& crate::cea708::is_window(self.define)
        &&& self.pen_location.row <= 64
        &&& self.pen_location.column <= 64
        &&& self.video_dims.w <= i32::MAX
        &&& self.video_dims.h <= i32::MAX
        &&& self.max_layout_dims.w <= i32::MAX
        &&& self.max_layout_dims.h <= i32::MAX
        &&& self.window_position.w <= i32::MAX
        &&& self.window_position.h <= i32::MAX
    }

    /// How many rows there are.
    pub open spec fn rows(&self) -> int {
        self.define.row_count + 1
    }

    /// How many columns there are.
    pub open spec fn columns(&self) -> int {
        self.define.column_count + 1
    }

    /// A cell without a character.
    pub open spec fn empty_cell(&self) -> Cell {
        Cell { character: None, pen_attrs: self.pen_attrs, pen_color: self.pen_color }
    }

    /// The window with the pen in another row.
    pub open spec fn at_row(&self, row: int) -> WindowView {
        WindowView {
            pen_location: SetPenLocationArgs { row: row as u8, ..self.pen_location },
            ..*self
        }
    }

    /// The window with the pen in another column.
    pub open spec fn at_column(&self, column: int) -> WindowView {
        WindowView {
            pen_location: SetPenLocationArgs { column: column as u8, ..self.pen_location },
            ..*self
        }
    }

    /// The window with the pen one place further.
    pub open spec fn forward(&self) -> WindowView {
        let row = self.pen_location.row as int;
        let column = self.pen_location.column as int;
        match self.attrs.print_direction {
            Direction::LeftToRight => self.at_column(min(column + 1, self.columns())),
            Direction::RightToLeft => self.at_column(max(column, 1) - 1),
            Direction::TopToBottom => self.at_row(min(row + 1, self.rows())),
            Direction::BottomToTop => self.at_row(max(row, 1) - 1),
        }
    }

    /// The window with the pen one place back.
    pub open spec fn back(&self) -> WindowView {
        let row = self.pen_location.row as int;
        let column = self.pen_location.column as int;
        match self.attrs.print_direction {
            Direction::LeftToRight => self.at_column(max(column, 1) - 1),
            Direction::RightToLeft => self.at_column(min(column + 1, self.columns())),
            Direction::TopToBottom => self.at_row(max(row, 1) - 1),
            Direction::BottomToTop => self.at_row(min(row + 1, self.rows())),
        }
    }

    /// The window once the character before the pen was taken away.
    pub open spec fn backspace(&self) -> WindowView {
        let b = self.back();
        let row = b.pen_location.row as int;
        let column = b.pen_location.column as int;
        WindowView {
            lines: set_char(b.lines, row, column, None, b.empty_cell()),
            rectangle: if char_at(b.lines, row, column) is Some {
                None
            } else {
                b.rectangle
            },
            ..b
        }
    }

    /// The window with the pen at the beginning of the line.
    pub open spec fn line_beginning(&self) -> WindowView {
        match self.attrs.print_direction {
            Direction::LeftToRight => self.at_column(0),
            Direction::RightToLeft => self.at_column(self.define.column_count as int),
            Direction::TopToBottom => self.at_row(0),
            Direction::BottomToTop => self.at_row(self.rows()),
        }
    }

    /// The window with the pen in the next line. What is in the way is moved.
    pub open spec fn next_line(&self) -> WindowView {
        let row = self.pen_location.row as int;
        let column = self.pen_location.column as int;
        match self.attrs.scroll_direction {
            Direction::TopToBottom => if row == 0 {
                WindowView { lines: moved_lines(self.lines, 0, self.rows() - 1, 1), ..*self }
            } else {
                self.at_row(row - 1)
            },
            Direction::BottomToTop => if row >= self.define.row_count {
                WindowView { lines: moved_lines(self.lines, 1, self.rows(), -1), ..*self }
            } else {
                self.at_row(row + 1)
            },
            Direction::LeftToRight => if column == 0 {
                *self
            } else {
                self.at_column(column - 1)
            },
            Direction::RightToLeft => if column >= self.columns() {
                *self
            } else {
                self.at_column(column + 1)
            },
        }
    }

    /// The window once a line was ended.
    pub open spec fn carriage_return(&self) -> WindowView {
        if can_scroll(self.attrs) {
            WindowView { rectangle: None, ..self.next_line().line_beginning() }
        } else {
            *self
        }
    }

    /// The window once the line up to the pen was taken away.
    pub open spec fn horizontal_carriage_return(&self) -> WindowView {
        let row = self.pen_location.row as int;
        let column = self.pen_location.column as int;
        let e = self.empty_cell();
        let w = match self.attrs.print_direction {
            Direction::LeftToRight => WindowView {
                lines: clear_rows(self.lines, row, 1, 0, column + 1, e),
                ..self.at_column(0)
            },
            Direction::RightToLeft => WindowView {
                lines: clear_rows(self.lines, row, 1, column, self.rows() - column + 1, e),
                ..self.at_column(self.rows())
            },
            Direction::TopToBottom => WindowView {
                lines: clear_rows(self.lines, row, 1 - row, column, 1, e),
                ..self.at_row(0)
            },
            Direction::BottomToTop => WindowView {
                lines: clear_rows(self.lines, row, self.columns() - row + 1, column, 1, e),
                ..self.at_row(self.columns())
            },
        };
        WindowView { rectangle: None, ..w }
    }

    /// The window once a character was written. There is no place for it outside the window.
    pub open spec fn push_char(&self, ch: char) -> WindowView {
        let row = self.pen_location.row as int;
        let column = self.pen_location.column as int;
        if row > self.rows() || column > self.columns() {
            *self
        } else {
            WindowView {
                lines: set_char(self.lines, row, column, Some(ch), self.empty_cell()),
                rectangle: None,
                ..*self
            }.forward()
        }
    }

    /// Where a point at the given hundredth of the safe area lies along an axis of the video.
    pub open spec fn on_axis(video: u32, hundredth: u8) -> int {
        crate::clock::scaled_round(video - video as int / 5, min(hundredth as int, 100), 100)
    }

    /// The window once its size and its place were calculated from the size that 32 by 15
    /// characters take.
    pub open spec fn placed(&self, max_layout: Dimensions) -> WindowView {
        let width = self.columns() * (max_layout.w / 32);
        let height = self.rows() * (max_layout.h / 15);
        let x = Self::on_axis(self.video_dims.w, self.define.anchor_horizontal);
        let y = Self::on_axis(self.video_dims.h, self.define.anchor_vertical);
        let left = match horizontal_align(self.define.anchor_point) {
            Align::First => x,
            Align::Center => max(x, max_layout.w as int / 2) - max_layout.w as int / 2,
            Align::Last => max(x, width) - width,
        };
        let top = match vertical_align(self.define.anchor_point) {
            Align::First => y,
            Align::Center => max(y, max_layout.h as int / 2),
            Align::Last => max(y, height) - height,
        };
        WindowView {
            rectangle: None,
            max_layout_dims: max_layout,
            window_dims: Dimensions { w: width as u32, h: height as u32 },
            window_position: if self.define.relative_positioning {
                Dimensions {
                    w: (self.video_dims.w as int / 10 + left) as u32,
                    h: (self.video_dims.h as int / 10 + top) as u32,
                }
            } else {
                Dimensions { w: self.video_dims.w / 10, h: self.video_dims.h / 10 }
            },
            ..*self
        }
    }

    /// The window in a video of the given size.
    pub open spec fn sized(&self, video: Dimensions, max_layout: Dimensions) -> WindowView {
        if video == self.video_dims {
            *self
        } else {
            WindowView { video_dims: video, ..*self }.placed(max_layout)
        }
    }

    /// The window without text.
    pub open spec fn cleared(&self) -> WindowView {
        WindowView {
            pen_location: SetPenLocationArgs { row: 0, column: 0 },
            lines: Seq::empty(),
            rectangle: None,
            ..*self
        }
    }
}

pub(crate) proof fn lemma_line_index(lines: Seq<WindowLineView>, row: int)
    ensures
        0 <= line_index(lines, row) <= lines.len(),
        forall|j: int| 0 <= j < line_index(lines, row) ==> (#[trigger] lines[j]).no != row,
        line_index(lines, row) < lines.len() ==> lines[line_index(lines, row)].no == row,
    decreases lines.len(),
{
    if lines.len() > 0 && lines[0].no != row {
        let rest = lines.drop_first();
        lemma_line_index(rest, row);
        assert forall|j: int| 0 <= j < line_index(lines, row) implies (#[trigger] lines[j]).no
            != row by {
            if j > 0 {
                assert(rest[j - 1] == lines[j]);
            }
        }
    }
}

fn find_line(lines: &Vec<WindowLine>, row: usize) -> (r: usize)
    ensures
        r == line_index(views(lines@), row as int),
        r <= lines@.len(),
{
    let mut i: usize = 0;
    let ghost v = views(lines@);
    while i < lines.len() && lines[i].no != row
        invariant
            v == views(lines@),
            i <= lines@.len(),
            forall|j: int| 0 <= j < i ==> (#[trigger] v[j]).no != row,
        decreases lines@.len() - i,
    {
        assert(v[i as int] == lines@[i as int]@);
        i += 1;
    }
    proof {
        lemma_line_index(v, row as int);
        let k = line_index(v, row as int);
        if i < lines@.len() {
            assert(v[i as int] == lines@[i as int]@);
        }
        if k < i {
            assert(v[k].no == row);
        } else if i < k {
            assert(v[i as int].no != row);
        }
    }
    i
}

fn fill_cells(cells: &mut Vec<Cell>, column: usize, empty: Cell)
    ensures
        final(cells)@ == with_column(old(cells)@, column as int, empty),
{
    let ghost all = with_column(cells@, column as int, empty);
    while cells.len() <= column
        invariant
            old(cells)@.len() <= cells@.len(),
            cells@.len() <= old(cells)@.len() || cells@.len() <= column + 1,
            all == with_column(old(cells)@, column as int, empty),
            cells@ == all.take(cells@.len() as int),
            cells@.len() <= all.len(),
        decreases column + 1 - cells@.len(),
    {
        cells.push(empty);
        assert(cells@ =~= all.take(cells@.len() as int));
    }
    assert(all.take(cells@.len() as int) =~= all);
}

/// Writes a character or takes it away. Says whether there was one.
fn write_char(
    lines: &mut Vec<WindowLine>,
    row: usize,
    column: usize,
    character: Option<char>,
    empty: Cell,
) -> (r: bool)
    requires
        empty.character is None,
    ensures
        views(final(lines)@) == set_char(
            views(old(lines)@),
            row as int,
            column as int,
            character,
            empty,
        ),
        r == (char_at(views(old(lines)@), row as int, column as int) is Some),
{
    let ghost v = views(lines@);
    let i: usize = find_line(lines, row);
    if i == lines.len() {
        let line: Vec<Cell> = Vec::new();
        assert(line@ =~= Seq::<Cell>::empty());
        lines.push(WindowLine { no: row, line });
    }
    let ghost before = lines@;
    fill_cells(&mut lines[i].line, column, empty);
    let cell: Cell = lines[i].line[column];
    lines[i].line.set(
        column,
        Cell { character, pen_attrs: cell.pen_attrs, pen_color: cell.pen_color },
    );
    proof {
        let now = set_char(v, row as int, column as int, character, empty);
        assert forall|j: int| 0 <= j < lines@.len() implies views(lines@)[j] == now[j] by {
            if j != i {
                assert(lines@[j] == before[j]);
                assert(v[j] == before[j]@);
            }
        }
        assert(views(lines@) =~= now);
    }
    cell.character.is_some()
}

/// Moves lines down by one row, or up.
fn move_lines(lines: &mut Vec<WindowLine>, first: usize, last: usize, down: bool)
    requires
        last < usize::MAX,
        !down ==> first > 0,
    ensures
        views(final(lines)@) == moved_lines(
            views(old(lines)@),
            first as int,
            last as int,
            if down {
                1
            } else {
                -1
            },
        ),
{
    let ghost v = views(lines@);
    let ghost diff: int = if down {
        1
    } else {
        -1
    };
    let mut rest: Vec<WindowLine> = Vec::new();
    std::mem::swap(&mut rest, lines);
    let mut kept: Vec<WindowLine> = Vec::new();
    let ghost mut n: int = 0;
    assert(v.take(0) =~= Seq::<WindowLineView>::empty());
    assert(views(kept@) =~= Seq::<WindowLineView>::empty());
    assert(views(rest@) =~= v.skip(0));
    while rest.len() > 0
        invariant
            last < usize::MAX,
            !down ==> first > 0,
            diff == if down {
                1int
            } else {
                -1int
            },
            0 <= n <= v.len(),
            views(rest@) == v.skip(n),
            views(kept@) == moved_lines(v.take(n), first as int, last as int, diff),
        decreases rest@.len(),
    {
        let ghost before = rest@;
        let line: WindowLine = rest.remove(0);
        proof {
            assert(views(before).len() == before.len() && v.skip(n).len() == v.len() - n);
            assert(views(before)[0] == line@);
            assert(v.skip(n)[0] == v[n]);
            assert(views(rest@) =~= v.skip(n + 1)) by {
                assert forall|j: int| 0 <= j < rest@.len() implies views(rest@)[j] == v.skip(n
                    + 1)[j] by {
                    assert(rest@[j] == before[j + 1]);
                    assert(views(before)[j + 1] == v.skip(n)[j + 1]);
                }
            }
            assert(v.take(n + 1).drop_last() =~= v.take(n));
            n = n + 1;
        }
        let ghost was = kept@;
        if first <= line.no && line.no <= last {
            let no: usize = if down {
                line.no + 1
            } else {
                line.no - 1
            };
            kept.push(WindowLine { no, line: line.line });
            assert(views(kept@) =~= views(was).push(
                WindowLineView { no: line.no + diff, ..line@ },
            ));
        }
    }
    assert(v.take(n) =~= v);
    *lines = kept;
}

impl Window {
    fn empty_cell(&self) -> (r: Cell)
        ensures
            r == self@.empty_cell(),
    {
        Cell { character: None, pen_attrs: self.pen_attrs, pen_color: self.pen_color }
    }

    fn row_count(&self) -> (r: u8)
        requires
            self@.wf(),
        ensures
            r == self@.rows(),
    {
        self.define.row_count + 1
    }

    fn column_count(&self) -> (r: u8)
        requires
            self@.wf(),
        ensures
            r == self@.columns(),
    {
        self.define.column_count + 1
    }

    fn move_forward(&mut self)
        requires
            old(self)@.wf(),
        ensures
            final(self)@ == old(self)@.forward(),
            final(self)@.wf(),
    {
        let rows: u8 = self.row_count();
        let columns: u8 = self.column_count();
        match self.attrs.print_direction {
            Direction::LeftToRight => {
                self.pen_location.column = min_u8(self.pen_location.column + 1, columns);
            },
            Direction::RightToLeft => {
                self.pen_location.column = less_one(self.pen_location.column);
            },
            Direction::TopToBottom => {
                self.pen_location.row = min_u8(self.pen_location.row + 1, rows);
            },
            Direction::BottomToTop => {
                self.pen_location.row = less_one(self.pen_location.row);
            },
        }
    }

    fn move_back(&mut self)
        requires
            old(self)@.wf(),
        ensures
            final(self)@ == old(self)@.back(),
            final(self)@.wf(),
    {
        let rows: u8 = self.row_count();
        let columns: u8 = self.column_count();
        match self.attrs.print_direction {
            Direction::LeftToRight => {
                self.pen_location.column = less_one(self.pen_location.column);
            },
            Direction::RightToLeft => {
                self.pen_location.column = min_u8(self.pen_location.column + 1, columns);
            },
            Direction::TopToBottom => {
                self.pen_location.row = less_one(self.pen_location.row);
            },
            Direction::BottomToTop => {
                self.pen_location.row = min_u8(self.pen_location.row + 1, rows);
            },
        }
    }

    /// Takes the character before the pen away.
    pub fn backspace(&mut self)
        requires
            old(self)@.wf(),
        ensures
            final(self)@ == old(self)@.backspace(),
            final(self)@.wf(),
    {
        self.move_back();
        let empty: Cell = self.empty_cell();
        if write_char(
            &mut self.lines,
            self.pen_location.row as usize,
            self.pen_location.column as usize,
            None,
            empty,
        ) {
            self.rectangle = None;
        }
        assert(self@ =~= old(self)@.backspace());
    }

    fn move_to_line_beginning(&mut self)
        requires
            old(self)@.wf(),
        ensures
            final(self)@ == old(self)@.line_beginning(),
            final(self)@.wf(),
    {
        match self.attrs.print_direction {
            Direction::LeftToRight => {
                self.pen_location.column = 0;
            },
            Direction::RightToLeft => {
                self.pen_location.column = self.define.column_count;
            },
            Direction::TopToBottom => {
                self.pen_location.row = 0;
            },
            Direction::BottomToTop => {
                self.pen_location.row = self.row_count();
            },
        }
    }

    fn scroll(&mut self)
        requires
            old(self)@.wf(),
        ensures
            final(self)@ == old(self)@.next_line(),
            final(self)@.wf(),
    {
        let rows: usize = self.row_count() as usize;
        match self.attrs.scroll_direction {
            Direction::TopToBottom => {
                if self.pen_location.row == 0 {
                    move_lines(&mut self.lines, 0, rows - 1, true);
                } else {
                    self.pen_location.row = self.pen_location.row - 1;
                }
            },
            Direction::BottomToTop => {
                if self.pen_location.row >= self.define.row_count {
                    move_lines(&mut self.lines, 1, rows, false);
                } else {
                    self.pen_location.row = self.pen_location.row + 1;
                }
            },
            Direction::LeftToRight => {
                if self.pen_location.column > 0 {
                    self.pen_location.column = self.pen_location.column - 1;
                }
            },
            Direction::RightToLeft => {
                if self.pen_location.column < self.column_count() {
                    self.pen_location.column = self.pen_location.column + 1;
                }
            },
        }
        assert(self@ =~= old(self)@.next_line());
    }

    /// Ends a line. Directions that do not go together change nothing.
    pub fn carriage_return(&mut self)
        requires
            old(self)@.wf(),
        ensures
            final(self)@ == old(self)@.carriage_return(),
            final(self)@.wf(),
    {
        let can_scroll: bool = match (self.attrs.print_direction, self.attrs.scroll_direction) {
            (Direction::LeftToRight, Direction::TopToBottom) => true,
            (Direction::LeftToRight, Direction::BottomToTop) => true,
            (Direction::RightToLeft, Direction::TopToBottom) => true,
            (Direction::RightToLeft, Direction::BottomToTop) => true,
            (Direction::TopToBottom, Direction::LeftToRight) => true,
            (Direction::TopToBottom, Direction::RightToLeft) => true,
            (Direction::BottomToTop, Direction::LeftToRight) => true,
            (Direction::BottomToTop, Direction::RightToLeft) => true,
            _ => false,
        };
        if can_scroll {
            self.scroll();
            self.move_to_line_beginning();
            self.rectangle = None;
        }
        assert(self@ =~= old(self)@.carriage_return());
    }

    /// Takes the characters of an area away.
    fn clear_area(&mut self, row: usize, rows: usize, column: usize, columns: usize)
        requires
            row + rows <= 1000,
            column + columns <= 1000,
        ensures
            final(self)@ == (WindowView {
                lines: clear_rows(
                    old(self)@.lines,
                    row as int,
                    rows as int,
                    column as int,
                    columns as int,
                    old(self)@.empty_cell(),
                ),
                ..old(self)@
            }),
    {
        let empty: Cell = self.empty_cell();
        let ghost was = self@;
        let mut i: usize = 0;
        while i < rows
            invariant
                i <= rows,
                row + rows <= 1000,
                column + columns <= 1000,
                empty == was.empty_cell(),
                self@ == (WindowView {
                    lines: clear_rows(
                        was.lines,
                        row as int,
                        i as int,
                        column as int,
                        columns as int,
                        empty,
                    ),
                    ..was
                }),
            decreases rows - i,
        {
            let ghost before = self@.lines;
            let mut j: usize = 0;
            while j < columns
                invariant
                    i < rows,
                    j <= columns,
                    row + rows <= 1000,
                    column + columns <= 1000,
                    empty == was.empty_cell(),
                    self@ == (WindowView {
                        lines: clear_columns(before, row + i, column as int, j as int, empty),
                        ..was
                    }),
                decreases columns - j,
            {
                let _ = write_char(&mut self.lines, row + i, column + j, None, empty);
                j += 1;
            }
            i += 1;
        }
    }

    /// Takes the characters from the beginning of the line up to the pen away, and moves the pen
    /// there.
    pub fn horizontal_carriage_return(&mut self)
        requires
            old(self)@.wf(),
        ensures
            final(self)@ == old(self)@.horizontal_carriage_return(),
            final(self)@.wf(),
    {
        let row: usize = self.pen_location.row as usize;
        let column: usize = self.pen_location.column as usize;
        let rows: u8 = self.row_count();
        let columns: u8 = self.column_count();
        let ghost e = self@.empty_cell();
        let ghost v = self@.lines;
        match self.attrs.print_direction {
            Direction::LeftToRight => {
                self.clear_area(row, 1, 0, column + 1);
                self.pen_location.column = 0;
            },
            Direction::RightToLeft => {
                let n: usize = if column <= rows as usize {
                    rows as usize - column + 1
                } else {
                    0
                };
                self.clear_area(row, 1, column, n);
                self.pen_location.column = rows;
                proof {
                    reveal_with_fuel(clear_rows, 2);
                    assert(clear_columns(v, row as int, column as int, n as int, e)
                        == clear_columns(v, row as int, column as int, rows - column + 1, e));
                }
            },
            Direction::TopToBottom => {
                let n: usize = if row == 0 {
                    1
                } else {
                    0
                };
                self.clear_area(row, n, column, 1);
                self.pen_location.row = 0;
                assert(clear_rows(v, row as int, n as int, column as int, 1, e) == clear_rows(
                    v,
                    row as int,
                    1 - row,
                    column as int,
                    1,
                    e,
                ));
            },
            Direction::BottomToTop => {
                let n: usize = if row <= columns as usize {
                    columns as usize - row + 1
                } else {
                    0
                };
                self.clear_area(row, n, column, 1);
                self.pen_location.row = columns;
                assert(clear_rows(v, row as int, n as int, column as int, 1, e) == clear_rows(
                    v,
                    row as int,
                    columns - row + 1,
                    column as int,
                    1,
                    e,
                ));
            },
        }
        self.rectangle = None;
        assert(self@ =~= old(self)@.horizontal_carriage_return());
    }

    /// Writes a character, if the pen is not outside the window.
    pub fn push_char(&mut self, ch: char)
        requires
            old(self)@.wf(),
        ensures
            final(self)@ == old(self)@.push_char(ch),
            final(self)@.wf(),
    {
        if self.pen_location.row > self.row_count() {
            return;
        }
        if self.pen_location.column > self.column_count() {
            return;
        }
        let empty: Cell = self.empty_cell();
        let _ = write_char(
            &mut self.lines,
            self.pen_location.row as usize,
            self.pen_location.column as usize,
            Some(ch),
            empty,
        );
        self.rectangle = None;
        self.move_forward();
        assert(self@ =~= old(self)@.push_char(ch));
    }

    /// Calculates the size and the place of the window from the size that 32 by 15 characters
    /// take.
    pub fn recalculate_window_position(&mut self, max_layout: Dimensions)
        requires
            old(self)@.wf(),
            max_layout.w <= i32::MAX,
            max_layout.h <= i32::MAX,
        ensures
            final(self)@ == old(self)@.placed(max_layout),
            final(self)@.wf(),
    {
        self.rectangle = None;
        self.max_layout_dims = max_layout;
        let char_width: u32 = max_layout.w / 32;
        let char_height: u32 = max_layout.h / 15;
        let columns: u32 = self.column_count() as u32;
        let rows: u32 = self.row_count() as u32;
        assert(0 <= columns * char_width <= 64 * char_width) by (nonlinear_arith)
            requires
                columns <= 64,
        ;
        assert(0 <= rows * char_height <= 16 * char_height) by (nonlinear_arith)
            requires
                rows <= 16,
        ;
        let width: u32 = columns * char_width;
        let height: u32 = rows * char_height;
        self.window_dims = Dimensions { w: width, h: height };
        let padding: Dimensions = Dimensions {
            w: self.video_dims.w / 10,
            h: self.video_dims.h / 10,
        };
        if self.define.relative_positioning {
            let halign: Align = Align::horizontal_from_anchor(self.define.anchor_point);
            let valign: Align = Align::vertical_from_anchor(self.define.anchor_point);
            let x: u32 = axis_point(self.video_dims.w, self.define.anchor_horizontal);
            let left: u32 = match halign {
                Align::First => x,
                Align::Center => max_u32(x, max_layout.w / 2) - max_layout.w / 2,
                Align::Last => max_u32(x, width) - width,
            };
            let y: u32 = axis_point(self.video_dims.h, self.define.anchor_vertical);
            let top: u32 = match valign {
                Align::First => y,
                Align::Center => max_u32(y, max_layout.h / 2),
                Align::Last => max_u32(y, height) - height,
            };
            self.window_position = Dimensions { w: padding.w + left, h: padding.h + top };
        } else {
            self.window_position = padding;
        }
        assert(self@ =~= old(self)@.placed(max_layout));
    }

    /// Takes the size of the video.
    pub fn set_video_size(&mut self, video: Dimensions, max_layout: Dimensions)
        requires
            old(self)@.wf(),
            video.w <= i32::MAX,
            video.h <= i32::MAX,
            max_layout.w <= i32::MAX,
            max_layout.h <= i32::MAX,
        ensures
            final(self)@ == old(self)@.sized(video, max_layout),
            final(self)@.wf(),
    {
        if video == self.video_dims {
            return;
        }
        self.video_dims = video;
        self.recalculate_window_position(max_layout);
    }
}

fn min_u8(a: u8, b: u8) -> (r: u8)
    ensures
        r == min(a as int, b as int),
{
    if a <= b {
        a
    } else {
        b
    }
}

fn less_one(a: u8) -> (r: u8)
    ensures
        r == max(a as int, 1) - 1,
{
    if a >= 1 {
        a - 1
    } else {
        0
    }
}

fn max_u32(a: u32, b: u32) -> (r: u32)
    ensures
        r == max(a as int, b as int),
{
    if a >= b {
        a
    } else {
        b
    }
}

fn axis_point(video: u32, hundredth: u8) -> (r: u32)
    requires
        video <= i32::MAX,
    ensures
        r == WindowView::on_axis(video, hundredth),
        r <= video - video / 5,
{
    let safe: u32 = video - video / 5;
    let n: u64 = if hundredth <= 100 {
        hundredth as u64
    } else {
        100
    };
    assert(0 <= safe * n <= safe * 100) by (nonlinear_arith)
        requires
            n <= 100,
    ;
    match mul_div_round(safe as u64, n, 100) {
        Some(v) => v as u32,
        None => {
            assert(false);
            0
        },
    }
}

/// How much of a basic color there is, in 16 bits.
pub open spec fn color_value_u16(val: ColorValue) -> u16 {
    match val {
        ColorValue::Zero => 0,
        ColorValue::OneThird => 0x5555,
        ColorValue::TwoThirds => 0xaaaa,
        ColorValue::Full => 0xffff,
    }
}

/// An opacity in 16 bits. What flashes is shown at two thirds.
pub open spec fn opacity_u16(val: Opacity) -> u16 {
    match val {
        Opacity::Transparent => 0,
        Opacity::Translucent => 0x5555,
        Opacity::Flash => 0xaaaa,
        Opacity::Solid => 0xffff,
    }
}

fn color_value_as_u16(val: ColorValue) -> (r: u16)
    ensures
        r == color_value_u16(val),
{
    match val {
        ColorValue::Zero => 0,
        ColorValue::OneThird => u16::MAX / 3,
        ColorValue::TwoThirds => u16::MAX / 3 * 2,
        ColorValue::Full => u16::MAX,
    }
}

fn opacity_as_u16(val: Opacity) -> (r: u16)
    ensures
        r == opacity_u16(val),
{
    match val {
        Opacity::Transparent => 0,
        Opacity::Translucent => u16::MAX / 3,
        Opacity::Flash => u16::MAX / 3 * 2,
        Opacity::Solid => u16::MAX,
    }
}

/// The attributes of text in a color.
#[derive(Clone, Copy, Debug, PartialEq, Eq, Structural)]
pub struct Paint {
    pub background: AttributeKind,
    pub background_alpha: AttributeKind,
    pub foreground: AttributeKind,
    pub foreground_alpha: AttributeKind,
}

/// The attributes of text in a color.
pub open spec fn paint_of(color: SetPenColorArgs) -> Paint {
    Paint {
        background: AttributeKind::Background {
            red: color_value_u16(color.background_color.r),
            green: color_value_u16(color.background_color.g),
            blue: color_value_u16(color.background_color.b),
        },
        background_alpha: AttributeKind::BackgroundAlpha(opacity_u16(color.background_opacity)),
        foreground: AttributeKind::Foreground {
            red: color_value_u16(color.foreground_color.r),
            green: color_value_u16(color.foreground_color.g),
            blue: color_value_u16(color.foreground_color.b),
        },
        foreground_alpha: AttributeKind::ForegroundAlpha(opacity_u16(color.foreground_opacity)),
    }
}

fn paint_from(color: &SetPenColorArgs) -> (r: Paint)
    ensures
        r == paint_of(*color),
{
    Paint {
        background: AttributeKind::Background {
            red: color_value_as_u16(color.background_color.r),
            green: color_value_as_u16(color.background_color.g),
            blue: color_value_as_u16(color.background_color.b),
        },
        background_alpha: AttributeKind::BackgroundAlpha(
            opacity_as_u16(color.background_opacity),
        ),
        foreground: AttributeKind::Foreground {
            red: color_value_as_u16(color.foreground_color.r),
            green: color_value_as_u16(color.foreground_color.g),
            blue: color_value_as_u16(color.foreground_color.b),
        },
        foreground_alpha: AttributeKind::ForegroundAlpha(
            opacity_as_u16(color.foreground_opacity),
        ),
    }
}

/// How text is written, and where in the text that begins.
#[derive(Clone, Copy, Debug, PartialEq, Eq, Structural)]
pub struct Brush {
    pub last_color: Option<SetPenColorArgs>,
    pub paint: Paint,
    pub paint_start: usize,
    pub last_attrs: Option<SetPenAttributesArgs>,
    pub underline: bool,
    pub underline_start: usize,
    pub italic_start: Option<usize>,
}

/// How text is written before the first cell: without a background of its own.
pub open spec fn first_brush() -> Brush {
    Brush {
        last_color: None,
        paint: Paint {
            background: AttributeKind::Background { red: 0, green: 0, blue: 0 },
            background_alpha: AttributeKind::BackgroundAlpha(0),
            foreground: AttributeKind::Background { red: 0xffff, green: 0xffff, blue: 0xffff },
            foreground_alpha: AttributeKind::BackgroundAlpha(0xffff),
        },
        paint_start: 0,
        last_attrs: None,
        underline: false,
        underline_start: 0,
        italic_start: None,
    }
}

/// The attributes of text up to `at` in the colors of a brush.
pub open spec fn painted(brush: Brush, at: usize) -> Seq<Attribute> {
    seq![
        Attribute { kind: brush.paint.background, start: brush.paint_start, end: at },
        Attribute { kind: brush.paint.background_alpha, start: brush.paint_start, end: at },
        Attribute { kind: brush.paint.foreground, start: brush.paint_start, end: at },
        Attribute { kind: brush.paint.foreground_alpha, start: brush.paint_start, end: at },
    ]
}

/// The attribute that ends underlined text, or text without a line, at `at`.
pub open spec fn underlined(brush: Brush, at: usize) -> Seq<Attribute> {
    seq![
        Attribute {
            kind: AttributeKind::Underline(brush.underline),
            start: brush.underline_start,
            end: at,
        },
    ]
}

/// The attribute that ends text in italics at `at`.
pub open spec fn slanted(brush: Brush, at: usize) -> Seq<Attribute> {
    match brush.italic_start {
        Some(start) => seq![Attribute { kind: AttributeKind::Italic, start, end: at }],
        None => Seq::empty(),
    }
}

/// How text is written from a cell on.
pub open spec fn next_brush(brush: Brush, cell: Cell, at: usize) -> Brush {
    let new_color = brush.last_color != Some(cell.pen_color);
    let new_attrs = brush.last_attrs != Some(cell.pen_attrs);
    Brush {
        last_color: Some(cell.pen_color),
        paint: if new_color {
            paint_of(cell.pen_color)
        } else {
            brush.paint
        },
        paint_start: if new_color {
            at
        } else {
            brush.paint_start
        },
        last_attrs: Some(cell.pen_attrs),
        underline: if new_attrs {
            cell.pen_attrs.underline
        } else {
            brush.underline
        },
        underline_start: if new_attrs {
            at
        } else {
            brush.underline_start
        },
        italic_start: if !new_attrs {
            brush.italic_start
        } else if !cell.pen_attrs.italics {
            None
        } else if brush.italic_start is None {
            Some(at)
        } else {
            brush.italic_start
        },
    }
}

/// The attributes that end before a cell.
pub open spec fn ended(brush: Brush, cell: Cell, at: usize) -> Seq<Attribute> {
    let color = if brush.last_color != Some(cell.pen_color) {
        painted(brush, at)
    } else {
        Seq::empty()
    };
    let attrs = if brush.last_attrs != Some(cell.pen_attrs) {
        underlined(brush, at) + if cell.pen_attrs.italics {
            Seq::empty()
        } else {
            slanted(brush, at)
        }
    } else {
        Seq::empty()
    };
    color + attrs
}

/// Text with the attributes of what is done with, and how it is written on.
#[verifier::ext_equal]
pub struct Drawing {
    pub text: Seq<char>,
    pub attributes: Seq<Attribute>,
    pub brush: Brush,
}

/// Text with the first `n` cells of a line behind it. A cell without a character is a space.
pub open spec fn draw_cells(was: Drawing, cells: Seq<Cell>, n: int) -> Drawing
    decreases n,
{
    if n <= 0 {
        was
    } else {
        let d = draw_cells(was, cells, n - 1);
        let cell = cells[n - 1];
        let at = crate::text::byte_size(d.text);
        Drawing {
            text: d.text.push(
                match cell.character {
                    Some(c) => c,
                    None => ' ',
                },
            ),
            attributes: d.attributes + ended(d.brush, cell, at),
            brush: next_brush(d.brush, cell, at),
        }
    }
}

/// The first `n` lines, each in its row.
pub open spec fn draw_lines(lines: Seq<WindowLineView>, n: int) -> Drawing
    decreases n,
{
    if n <= 0 {
        Drawing { text: Seq::empty(), attributes: Seq::empty(), brush: first_brush() }
    } else {
        let d = draw_lines(lines, n - 1);
        let last_row = if n == 1 {
            0
        } else {
            lines[n - 2].no
        };
        draw_cells(
            Drawing {
                text: d.text + crate::cea608utils::newlines(lines[n - 1].no - last_row),
                ..d
            },
            lines[n - 1].cells,
            lines[n - 1].cells.len() as int,
        )
    }
}

/// The attributes of all lines.
pub open spec fn all_attributes(lines: Seq<WindowLineView>) -> Seq<Attribute> {
    let d = draw_lines(lines, lines.len() as int);
    let at = crate::text::byte_size(d.text);
    d.attributes + (painted(d.brush, at) + underlined(d.brush, at) + slanted(d.brush, at))
}

/// Whether the lines go down the window in their order.
pub open spec fn in_order(lines: Seq<WindowLineView>) -> bool {
    forall|i: int, j: int|
        0 <= i < j < lines.len() ==> (#[trigger] lines[i]).no <= (#[trigger] lines[j]).no
}

fn push_painted(attributes: &mut Vec<Attribute>, brush: &Brush, at: usize)
    ensures
        final(attributes)@ == old(attributes)@ + painted(*brush, at),
{
    let start: usize = brush.paint_start;
    attributes.push(Attribute { kind: brush.paint.background, start, end: at });
    attributes.push(Attribute { kind: brush.paint.background_alpha, start, end: at });
    attributes.push(Attribute { kind: brush.paint.foreground, start, end: at });
    attributes.push(Attribute { kind: brush.paint.foreground_alpha, start, end: at });
    assert(attributes@ =~= old(attributes)@ + painted(*brush, at));
}

fn push_underlined(attributes: &mut Vec<Attribute>, brush: &Brush, at: usize)
    ensures
        final(attributes)@ == old(attributes)@ + underlined(*brush, at),
{
    attributes.push(
        Attribute {
            kind: AttributeKind::Underline(brush.underline),
            start: brush.underline_start,
            end: at,
        },
    );
    assert(attributes@ =~= old(attributes)@ + underlined(*brush, at));
}

fn push_slanted(attributes: &mut Vec<Attribute>, brush: &Brush, at: usize)
    ensures
        final(attributes)@ == old(attributes)@ + slanted(*brush, at),
{
    if let Some(start) = brush.italic_start {
        attributes.push(Attribute { kind: AttributeKind::Italic, start, end: at });
    }
    assert(attributes@ =~= old(attributes)@ + slanted(*brush, at));
}

/// Changes how text is written.
fn change_brush(brush: Brush, cell: &Cell, at: usize, attributes: &mut Vec<Attribute>) -> (r: Brush)
    ensures
        r == next_brush(brush, *cell, at),
        final(attributes)@ == old(attributes)@ + ended(brush, *cell, at),
{
    let mut next: Brush = brush;
    let ghost was = attributes@;
    let new_color: bool = match brush.last_color {
        Some(c) => c != cell.pen_color,
        None => true,
    };
    if new_color {
        push_painted(attributes, &brush, at);
        next.paint = paint_from(&cell.pen_color);
        next.paint_start = at;
        next.last_color = Some(cell.pen_color);
    }
    let ghost mid = attributes@;
    let new_attrs: bool = match brush.last_attrs {
        Some(a) => a != cell.pen_attrs,
        None => true,
    };
    if new_attrs {
        push_underlined(attributes, &brush, at);
        next.underline = cell.pen_attrs.underline;
        next.underline_start = at;
        if !cell.pen_attrs.italics {
            push_slanted(attributes, &brush, at);
            next.italic_start = None;
        } else if brush.italic_start.is_none() {
            next.italic_start = Some(at);
        }
        next.last_attrs = Some(cell.pen_attrs);
    }
    assert(attributes@ =~= was + ended(brush, *cell, at));
    next
}

fn draw_line(
    line: &WindowLine,
    text: &mut String,
    attributes: &mut Vec<Attribute>,
    brush: Brush,
) -> (r: Brush)
    ensures
        draw_cells(
            Drawing { text: old(text)@, attributes: old(attributes)@, brush },
            line@.cells,
            line@.cells.len() as int,
        ) == (Drawing { text: final(text)@, attributes: final(attributes)@, brush: r }),
{
    let ghost was = Drawing { text: text@, attributes: attributes@, brush };
    let mut brush: Brush = brush;
    let mut i: usize = 0;
    while i < line.line.len()
        invariant
            i <= line.line@.len(),
            draw_cells(was, line@.cells, i as int) == (Drawing {
                text: text@,
                attributes: attributes@,
                brush,
            }),
        decreases line.line@.len() - i,
    {
        let cell: Cell = line.line[i];
        let at: usize = size_of_text(text);
        brush = change_brush(brush, &cell, at, attributes);
        match cell.character {
            Some(c) => text.push(c),
            None => text.push(' '),
        }
        i += 1;
    }
    brush
}

/// The text and the attributes of a window.
#[derive(Debug)]
pub struct WindowLayout {
    pub text: String,
    pub attributes: Vec<Attribute>,
}

/// What is to be done to show a window.
#[derive(Debug)]
pub enum WindowRendering {
    /// Nothing: the window is not shown.
    Hidden,
    /// Nothing: it was rendered before.
    Ready(Rectangle),
    /// The text is to be rendered, and then placed.
    Draw(WindowLayout),
}

impl Window {
    fn layout(&self) -> (r: WindowLayout)
        requires
            in_order(self@.lines),
            forall|i: int| 0 <= i < self@.lines.len() ==> (#[trigger] self@.lines[i]).no >= 0,
        ensures
            r.text@ == draw_lines(self@.lines, self@.lines.len() as int).text,
            r.attributes@ == all_attributes(self@.lines),
    {
        let mut text: String = String::new();
        let mut attributes: Vec<Attribute> = Vec::new();
        let mut brush: Brush = Brush {
            last_color: None,
            paint: Paint {
                background: AttributeKind::Background { red: 0, green: 0, blue: 0 },
                background_alpha: AttributeKind::BackgroundAlpha(0),
                foreground: AttributeKind::Background {
                    red: u16::MAX,
                    green: u16::MAX,
                    blue: u16::MAX,
                },
                foreground_alpha: AttributeKind::BackgroundAlpha(u16::MAX),
            },
            paint_start: 0,
            last_attrs: None,
            underline: false,
            underline_start: 0,
            italic_start: None,
        };
        let ghost v = self@.lines;
        let mut last_row: usize = 0;
        let mut i: usize = 0;
        assert(draw_lines(v, 0) =~= (Drawing { text: text@, attributes: attributes@, brush }));
        while i < self.lines.len()
            invariant
                v == self@.lines,
                v.len() == self.lines@.len(),
                in_order(v),
                i <= v.len(),
                i > 0 ==> last_row == v[i - 1].no,
                i == 0 ==> last_row == 0,
                draw_lines(v, i as int) == (Drawing {
                    text: text@,
                    attributes: attributes@,
                    brush,
                }),
            decreases v.len() - i,
        {
            let line: &WindowLine = &self.lines[i];
            assert(v[i as int] == line@);
            crate::cea608utils::push_newlines(&mut text, line.no - last_row);
            last_row = line.no;
            brush = draw_line(line, &mut text, &mut attributes, brush);
            i += 1;
        }
        let at: usize = size_of_text(&text);
        let ghost before = attributes@;
        push_painted(&mut attributes, &brush, at);
        push_underlined(&mut attributes, &brush, at);
        push_slanted(&mut attributes, &brush, at);
        assert(attributes@ =~= before + (painted(brush, at) + underlined(brush, at) + slanted(
            brush,
            at,
        )));
        WindowLayout { text, attributes }
    }

    /// Whether the window can be shown: it is hidden, was placed before, or its lines are in order.
    pub fn can_show(&self) -> (r: bool)
        ensures
            r == (self.visible && self.rectangle is None ==> in_order(self@.lines)),
    {
        if !self.visible || self.rectangle.is_some() {
            return true;
        }
        let ghost v = self@.lines;
        let mut i: usize = 1;
        while i < self.lines.len()
            invariant
                v == self@.lines,
                v.len() == self.lines@.len(),
                self.visible && self.rectangle is None,
                1 <= i,
                forall|a: int, b: int|
                    0 <= a < b < i && b < v.len() ==> (#[trigger] v[a]).no <= (#[trigger] v[b]).no,
            decreases self.lines@.len() - i,
        {
            assert(v[i - 1] == self.lines@[i - 1]@);
            assert(v[i as int] == self.lines@[i as int]@);
            if self.lines[i - 1].no > self.lines[i].no {
                return false;
            }
            i += 1;
        }
        true
    }

    /// What is to be done to show the window: its text is rendered where it changed since it was
    /// placed.
    pub fn generate_rectangle(&self) -> (r: WindowRendering)
        requires
            self.visible && self.rectangle is None ==> in_order(self@.lines),
        ensures
            self@.is_rendering(r),
    {
        if !self.visible {
            return WindowRendering::Hidden;
        }
        if let Some(rectangle) = self.rectangle {
            return WindowRendering::Ready(rectangle);
        }
        proof {
            assert forall|i: int| 0 <= i < self@.lines.len() implies (#[trigger] self@.lines[i]).no
                >= 0 by {
                assert(self@.lines[i] == self.lines@[i]@);
            }
        }
        WindowRendering::Draw(self.layout())
    }

    /// Places text that takes the given space.
    pub fn place(&mut self, width: u32, height: u32) -> (r: Rectangle)
        requires
            old(self)@.wf(),
        ensures
            final(self)@ == old(self)@.with_text(width, height),
            final(self)@.wf(),
            final(self).rectangle == Some(r),
    {
        let rectangle: Rectangle = Rectangle {
            x: self.window_position.w as i32,
            y: self.window_position.h as i32,
            width,
            height,
        };
        self.rectangle = Some(rectangle);
        assert(self@ =~= (WindowView { rectangle: Some(rectangle), ..old(self)@ }));
        rectangle
    }
}

impl WindowView {
    /// Whether this is what is to be done to show the window.
    pub open spec fn is_rendering(&self, r: WindowRendering) -> bool {
        match r {
            WindowRendering::Hidden => !self.visible,
            WindowRendering::Ready(rectangle) => self.visible && self.rectangle == Some(rectangle),
            WindowRendering::Draw(layout) => {
                &&& self.visible
                &&& self.rectangle is None
                &&& layout.text@ == draw_lines(self.lines, self.lines.len() as int).text
                &&& layout.attributes@ == all_attributes(self.lines)
            },
        }
    }

    /// The window once its text was rendered and takes the given space.
    pub open spec fn with_text(&self, width: u32, height: u32) -> WindowView {
        WindowView {
            rectangle: Some(
                Rectangle {
                    x: self.window_position.w as i32,
                    y: self.window_position.h as i32,
                    width,
                    height,
                },
            ),
            ..*self
        }
    }
}

/// A window whose text was rendered is not rendered again: the same rectangle is shown, in the place
/// of the window.
pub proof fn law_placed_window_is_ready(
    window: WindowView,
    width: u32,
    height: u32,
    again: WindowRendering,
)
    requires
        window.visible,
        window.wf(),
        window.with_text(width, height).is_rendering(again),
    ensures
        again matches WindowRendering::Ready(r) && {
            &&& r.x == window.window_position.w
            &&& r.y == window.window_position.h
            &&& r.width == width
            &&& r.height == height
        },
{
}

/// A window is rendered anew once a character was written in it, its lines were moved, or the video
/// has another size.
pub proof fn law_changed_window_is_drawn_anew(
    window: WindowView,
    after: WindowView,
    ch: char,
    video: Dimensions,
    max_layout: Dimensions,
    again: WindowRendering,
)
    requires
        window.visible,
        ({
            ||| after == window.push_char(ch) && window.pen_location.row <= window.rows()
                && window.pen_location.column <= window.columns()
            ||| after == window.carriage_return() && can_scroll(window.attrs)
            ||| after == window.sized(video, max_layout) && video != window.video_dims
        }),
        after.is_rendering(again),
    ensures
        again is Draw,
{
}

/// The windows of a service.
#[derive(Debug)]
pub struct ServiceState {
    pub windows: Vec<Window>,
    pub current_window: usize,
    pub video: Dimensions,
    /// The size that 32 by 15 characters take in the largest font that fits in the video.
    pub max_layout: Dimensions,
    /// The same without a video.
    pub no_video_layout: Dimensions,
}

/// The windows of a service.
#[verifier::ext_equal]
pub struct ServiceStateView {
    pub windows: Seq<WindowView>,
    pub current: int,
    pub video: Dimensions,
    pub max_layout: Dimensions,
    pub no_video_layout: Dimensions,
}

/// All windows.
pub open spec fn window_views(windows: Seq<Window>) -> Seq<WindowView> {
    windows.map_values(|w: Window| w@)
}

impl View for ServiceState {
    type V = ServiceStateView;

    open spec fn view(&self) -> ServiceStateView {
        ServiceStateView {
            windows: window_views(self.windows@),
            current: self.current_window as int,
            video: self.video,
            max_layout: self.max_layout,
            no_video_layout: self.no_video_layout,
        }
    }
}

/// Whether the bit of a window is set.
pub open spec fn has_window(windows: u8, id: u8) -> bool {
    windows & (1u8 << id) != 0
}

/// The place of the window with the given number, or the number of windows where there is none.
pub open spec fn window_index(windows: Seq<WindowView>, id: int) -> int
    decreases windows.len(),
{
    if windows.len() == 0 {
        0
    } else if windows[0].define.window_id == id {
        0
    } else {
        1 + window_index(windows.drop_first(), id)
    }
}

/// The windows whose bits are not set.
pub open spec fn kept_windows(windows: Seq<WindowView>, bits: u8) -> Seq<WindowView>
    decreases windows.len(),
{
    if windows.len() == 0 {
        Seq::empty()
    } else {
        let before = kept_windows(windows.drop_last(), bits);
        if has_window(bits, windows.last().define.window_id) {
            before
        } else {
            before.push(windows.last())
        }
    }
}

/// A change of what windows show.
pub enum WindowChange {
    Clear,
    Display,
    Hide,
    Toggle,
}

/// A window once it was changed.
pub open spec fn changed_window(window: WindowView, change: WindowChange) -> WindowView {
    match change {
        WindowChange::Clear => window.cleared(),
        WindowChange::Display => WindowView { visible: true, ..window },
        WindowChange::Hide => WindowView { visible: false, ..window },
        WindowChange::Toggle => WindowView { visible: !window.visible, ..window },
    }
}

/// The windows once those whose bits are set were changed.
pub open spec fn changed_windows(
    windows: Seq<WindowView>,
    bits: u8,
    change: WindowChange,
) -> Seq<WindowView> {
    windows.map_values(
        |w: WindowView|
            if has_window(bits, w.define.window_id) {
                changed_window(w, change)
            } else {
                w
            },
    )
}

/// The window attributes of a predefined style.
pub open spec fn style_attributes(style: u8) -> SetWindowAttributesArgs {
    crate::cea708::window_attributes_of(crate::dtvcc::window_style(style), 0)
}

/// The pen attributes of a predefined style.
pub open spec fn style_pen(style: u8) -> SetPenAttributesArgs {
    crate::cea708::pen_attributes_of(crate::dtvcc::pen_style(style), 0)
}

/// The pen colors of a predefined style.
pub open spec fn style_color(style: u8) -> SetPenColorArgs {
    crate::cea708::pen_color_of(crate::dtvcc::pen_style_color(style), 0)
}

/// No size.
pub open spec fn no_size() -> Dimensions {
    Dimensions { w: 0, h: 0 }
}

/// A new window without text, in a video without size.
pub open spec fn new_window(args: DefineWindowArgs) -> WindowView {
    WindowView {
        visible: args.visible,
        define: args,
        attrs: style_attributes(args.window_style_id),
        pen_attrs: style_pen(args.pen_style_id),
        pen_color: style_color(args.pen_style_id),
        pen_location: SetPenLocationArgs { row: 0, column: 0 },
        lines: Seq::empty(),
        window_position: no_size(),
        video_dims: no_size(),
        window_dims: no_size(),
        max_layout_dims: no_size(),
        rectangle: None,
    }
}

/// A window once it was defined anew. Only another definition brings back the predefined styles.
pub open spec fn redefined(
    window: WindowView,
    args: DefineWindowArgs,
    max_layout: Dimensions,
) -> WindowView {
    let w = if window.define != args {
        WindowView {
            attrs: style_attributes(args.window_style_id),
            pen_attrs: style_pen(args.pen_style_id),
            pen_color: style_color(args.pen_style_id),
            ..window
        }
    } else {
        window
    };
    WindowView { define: args, ..w }.placed(max_layout)
}

impl ServiceStateView {
    /// Whether all windows are in order.
    pub open spec fn wf(&self) -> bool {
        &&& forall|i: int| 0 <= i < self.windows.len() ==> (#[trigger] self.windows[i]).wf()
        &&& self.video.w <= i32::MAX
        &&& self.video.h <= i32::MAX
        &&& self.max_layout.w <= i32::MAX
        &&& self.max_layout.h <= i32::MAX
        &&& self.no_video_layout.w <= i32::MAX
        &&& self.no_video_layout.h <= i32::MAX
    }

    /// No windows, and no video.
    pub open spec fn empty(no_video_layout: Dimensions) -> ServiceStateView {
        ServiceStateView {
            windows: Seq::empty(),
            current: usize::MAX as int,
            video: no_size(),
            max_layout: no_video_layout,
            no_video_layout,
        }
    }

    /// The windows once one was defined. It is the one that text goes to.
    pub open spec fn define_window(&self, args: DefineWindowArgs) -> ServiceStateView {
        let i = window_index(self.windows, args.window_id as int);
        ServiceStateView {
            windows: if i < self.windows.len() {
                self.windows.update(i, redefined(self.windows[i], args, self.max_layout))
            } else {
                self.windows.push(new_window(args).sized(self.video, self.max_layout))
            },
            current: args.window_id as int,
            ..*self
        }
    }

    /// The windows with another one in place of the one that text goes to.
    pub open spec fn with_current(&self, window: WindowView) -> ServiceStateView {
        ServiceStateView {
            windows: self.windows.update(self.index(), window),
            ..*self
        }
    }

    /// The place of the window that text goes to.
    pub open spec fn index(&self) -> int {
        window_index(self.windows, self.current)
    }

    /// The windows once some were changed.
    pub open spec fn change(&self, bits: u8, change: WindowChange) -> ServiceStateView {
        ServiceStateView { windows: changed_windows(self.windows, bits, change), ..*self }
    }

    /// What a command does to the window that text goes to.
    pub open spec fn on_current(&self, command: ServiceCommand) -> WindowView {
        let w = self.windows[self.index()];
        match command {
            ServiceCommand::SetWindowAttributes(attrs) => if w.attrs != attrs {
                WindowView { attrs, lines: Seq::empty(), rectangle: None, ..w }
            } else {
                w
            },
            ServiceCommand::SetPenAttributes(pen_attrs) => WindowView { pen_attrs, ..w },
            ServiceCommand::SetPenColor(pen_color) => WindowView { pen_color, ..w },
            ServiceCommand::SetPenLocation(pen_location) => WindowView { pen_location, ..w },
            ServiceCommand::Backspace => w.backspace(),
            ServiceCommand::CarriageReturn => w.carriage_return(),
            ServiceCommand::HorizontalCarriageReturn => w.horizontal_carriage_return(),
            ServiceCommand::Char(c) => w.push_char(c),
            _ => w,
        }
    }

    /// The windows once the one that text goes to was cleared.
    pub open spec fn form_feed(&self) -> ServiceStateView {
        let cleared = self.change(1u8 << (self.current as u8), WindowChange::Clear);
        if cleared.index() < cleared.windows.len() {
            cleared.with_current(
                cleared.on_current(
                    ServiceCommand::SetPenLocation(SetPenLocationArgs { row: 0, column: 0 }),
                ),
            )
        } else {
            cleared
        }
    }

    /// The windows once a command was carried out.
    pub open spec fn run(&self, command: ServiceCommand) -> ServiceStateView {
        match command {
            ServiceCommand::DefineWindow(args) => self.define_window(args),
            ServiceCommand::SetCurrentWindow(id) => ServiceStateView { current: id as int, ..*self },
            ServiceCommand::ClearWindows(bits) => self.change(bits, WindowChange::Clear),
            ServiceCommand::DisplayWindows(bits) => self.change(bits, WindowChange::Display),
            ServiceCommand::HideWindows(bits) => self.change(bits, WindowChange::Hide),
            ServiceCommand::ToggleWindows(bits) => self.change(bits, WindowChange::Toggle),
            ServiceCommand::DeleteWindows(bits) => ServiceStateView {
                windows: kept_windows(self.windows, bits),
                ..*self
            },
            ServiceCommand::FormFeed => self.form_feed(),
            ServiceCommand::Reset => Self::empty(self.no_video_layout),
            ServiceCommand::EndOfText => *self,
            ServiceCommand::Other => *self,
            _ => if self.index() < self.windows.len() {
                self.with_current(self.on_current(command))
            } else {
                *self
            },
        }
    }
}

pub(crate) proof fn lemma_window_index(windows: Seq<WindowView>, id: int)
    ensures
        0 <= window_index(windows, id) <= windows.len(),
        forall|j: int|
            0 <= j < window_index(windows, id) ==> (#[trigger] windows[j]).define.window_id != id,
        window_index(windows, id) < windows.len() ==> windows[window_index(
            windows,
            id,
        )].define.window_id == id,
    decreases windows.len(),
{
    if windows.len() > 0 && windows[0].define.window_id != id {
        let rest = windows.drop_first();
        lemma_window_index(rest, id);
        assert forall|j: int| 0 <= j < window_index(windows, id) implies (
        #[trigger] windows[j]).define.window_id != id by {
            if j > 0 {
                assert(rest[j - 1] == windows[j]);
            }
        }
    }
}

/// Whether a command is one that can be read.
pub open spec fn is_command(command: ServiceCommand) -> bool {
    match command {
        ServiceCommand::DefineWindow(args) => crate::cea708::is_window(args),
        ServiceCommand::SetPenLocation(args) => args.row < 16 && args.column < 64,
        ServiceCommand::SetCurrentWindow(id) => id < 8,
        _ => true,
    }
}

/// The attributes and the pen of the predefined styles that a definition names.
fn predefined_styles(args: &DefineWindowArgs) -> (r: (
    SetWindowAttributesArgs,
    SetPenAttributesArgs,
    SetPenColorArgs,
))
    requires
        crate::cea708::is_window(*args),
    ensures
        r.0 == style_attributes(args.window_style_id),
        r.1 == style_pen(args.pen_style_id),
        r.2 == style_color(args.pen_style_id),
{
    let attrs_bytes: [u8; 4] = predefined_window_attributes(8 * args.window_style_id);
    let pen_bytes: [u8; 2] = predefined_pen_attributes(args.pen_style_id);
    let color_bytes: [u8; 3] = predefined_pen_color(args.pen_style_id);
    (
        window_attributes_from(&attrs_bytes, 0),
        pen_attributes_from(&pen_bytes, 0),
        pen_color_from(&color_bytes, 0),
    )
}

impl Window {
    /// A new window without text, in a video without size.
    fn from_definition(args: &DefineWindowArgs) -> (r: Window)
        requires
            crate::cea708::is_window(*args),
        ensures
            r@ == new_window(*args),
            r@.wf(),
    {
        let (attrs, pen_attrs, pen_color) = predefined_styles(args);
        let window: Window = Window {
            visible: args.visible,
            define: *args,
            attrs,
            pen_attrs,
            pen_color,
            pen_location: SetPenLocationArgs { row: 0, column: 0 },
            lines: Vec::new(),
            window_position: Dimensions { w: 0, h: 0 },
            video_dims: Dimensions { w: 0, h: 0 },
            window_dims: Dimensions { w: 0, h: 0 },
            max_layout_dims: Dimensions { w: 0, h: 0 },
            rectangle: None,
        };
        assert(window@ =~= new_window(*args));
        window
    }

    /// Defines the window anew. The predefined styles come back only where the definition is
    /// another one.
    fn redefine(&mut self, args: &DefineWindowArgs, max_layout: Dimensions)
        requires
            old(self)@.wf(),
            crate::cea708::is_window(*args),
            max_layout.w <= i32::MAX,
            max_layout.h <= i32::MAX,
        ensures
            final(self)@ == redefined(old(self)@, *args, max_layout),
            final(self)@.wf(),
    {
        if self.define != *args {
            let (attrs, pen_attrs, pen_color) = predefined_styles(args);
            self.attrs = attrs;
            self.pen_attrs = pen_attrs;
            self.pen_color = pen_color;
        }
        self.define = *args;
        self.recalculate_window_position(max_layout);
    }
}

impl ServiceState {
    /// No windows. The layout size is that of 32 by 15 characters without a video.
    pub fn new(no_video_layout: Dimensions) -> (r: Self)
        requires
            no_video_layout.w <= i32::MAX,
            no_video_layout.h <= i32::MAX,
        ensures
            r@ == ServiceStateView::empty(no_video_layout),
            r@.wf(),
    {
        let r = ServiceState {
            windows: Vec::new(),
            current_window: usize::MAX,
            video: Dimensions { w: 0, h: 0 },
            max_layout: no_video_layout,
            no_video_layout,
        };
        assert(r@ =~= ServiceStateView::empty(no_video_layout));
        r
    }

    fn find_window(&self, id: usize) -> (r: usize)
        ensures
            r == window_index(self@.windows, id as int),
            r <= self.windows@.len(),
    {
        let mut i: usize = 0;
        let ghost v = self@.windows;
        while i < self.windows.len() && self.windows[i].define.window_id as usize != id
            invariant
                v == self@.windows,
                i <= self.windows@.len(),
                forall|j: int| 0 <= j < i ==> (#[trigger] v[j]).define.window_id != id,
            decreases self.windows@.len() - i,
        {
            assert(v[i as int] == self.windows@[i as int]@);
            i += 1;
        }
        proof {
            lemma_window_index(v, id as int);
            let k = window_index(v, id as int);
            if i < self.windows@.len() {
                assert(v[i as int] == self.windows@[i as int]@);
            }
            if k < i {
                assert(v[k].define.window_id == id);
            } else if i < k {
                assert(v[i as int].define.window_id != id);
            }
        }
        i
    }

    /// Defines a window.
    fn define_window(&mut self, args: &DefineWindowArgs)
        requires
            old(self)@.wf(),
            crate::cea708::is_window(*args),
        ensures
            final(self)@ == old(self)@.define_window(*args),
            final(self)@.wf(),
    {
        let i: usize = self.find_window(args.window_id as usize);
        let ghost v = self@.windows;
        let max_layout: Dimensions = self.max_layout;
        if i < self.windows.len() {
            let ghost before = self.windows@;
            assert(v[i as int] == before[i as int]@);
            self.windows[i].redefine(args, max_layout);
            proof {
                let now = v.update(i as int, redefined(v[i as int], *args, max_layout));
                assert forall|j: int| 0 <= j < now.len() implies self@.windows[j] == now[j] by {
                    if j != i {
                        assert(self.windows@[j] == before[j]);
                        assert(v[j] == before[j]@);
                    }
                }
                assert(self@.windows =~= now);
            }
        } else {
            let mut window: Window = Window::from_definition(args);
            window.set_video_size(self.video, max_layout);
            self.windows.push(window);
            assert(self@.windows =~= v.push(
                new_window(*args).sized(self.video, self.max_layout),
            ));
        }
        self.current_window = args.window_id as usize;
        assert(self@ =~= old(self)@.define_window(*args));
    }

    /// Changes the windows whose bits are set.
    fn change_windows(&mut self, bits: u8, clear: bool, visible: Option<bool>)
        requires
            old(self)@.wf(),
        ensures
            final(self)@ == old(self)@.change(
                bits,
                if clear {
                    WindowChange::Clear
                } else {
                    match visible {
                        Some(true) => WindowChange::Display,
                        Some(false) => WindowChange::Hide,
                        None => WindowChange::Toggle,
                    }
                },
            ),
            final(self)@.wf(),
    {
        let ghost change = if clear {
            WindowChange::Clear
        } else {
            match visible {
                Some(true) => WindowChange::Display,
                Some(false) => WindowChange::Hide,
                None => WindowChange::Toggle,
            }
        };
        let ghost was = self.windows@;
        let ghost v = self@.windows;
        let ghost all = changed_windows(v, bits, change);
        let mut i: usize = 0;
        while i < self.windows.len()
            invariant
                v == window_views(was),
                all == changed_windows(v, bits, change),
                change == if clear {
                    WindowChange::Clear
                } else {
                    match visible {
                        Some(true) => WindowChange::Display,
                        Some(false) => WindowChange::Hide,
                        None => WindowChange::Toggle,
                    }
                },
                self.windows@.len() == was.len(),
                i <= was.len(),
                forall|j: int| 0 <= j < was.len() ==> (#[trigger] v[j]).wf(),
                forall|j: int| 0 <= j < i ==> (#[trigger] self.windows@[j])@ == all[j],
                forall|j: int| i <= j < was.len() ==> #[trigger] self.windows@[j] == was[j],
                self.current_window == old(self).current_window,
                self.video == old(self).video,
                self.max_layout == old(self).max_layout,
                self.no_video_layout == old(self).no_video_layout,
            decreases was.len() - i,
        {
            assert(v[i as int] == was[i as int]@);
            let id: u8 = self.windows[i].define.window_id;
            if bits & (1u8 << id) != 0 {
                if clear {
                    self.windows[i].pen_location = SetPenLocationArgs { row: 0, column: 0 };
                    self.windows[i].lines.clear();
                    self.windows[i].rectangle = None;
                } else {
                    match visible {
                        Some(b) => {
                            self.windows[i].visible = b;
                        },
                        None => {
                            self.windows[i].visible = !self.windows[i].visible;
                        },
                    }
                }
            }
            assert(self.windows@[i as int]@ =~= all[i as int]);
            i += 1;
        }
        assert(self@.windows =~= all);
        proof {
            assert forall|j: int| 0 <= j < all.len() implies (#[trigger] all[j]).wf() by {
                assert(v[j].wf());
            }
        }
        assert(self@ =~= old(self)@.change(bits, change));
    }

    /// Deletes the windows whose bits are set.
    fn delete_windows(&mut self, bits: u8)
        requires
            old(self)@.wf(),
        ensures
            final(self)@ == (ServiceStateView {
                windows: kept_windows(old(self)@.windows, bits),
                ..old(self)@
            }),
            final(self)@.wf(),
    {
        let ghost v = self@.windows;
        let mut rest: Vec<Window> = Vec::new();
        std::mem::swap(&mut rest, &mut self.windows);
        let mut kept: Vec<Window> = Vec::new();
        let ghost mut n: int = 0;
        assert(v.take(0) =~= Seq::<WindowView>::empty());
        assert(window_views(kept@) =~= Seq::<WindowView>::empty());
        assert(window_views(rest@) =~= v.skip(0));
        while rest.len() > 0
            invariant
                0 <= n <= v.len(),
                forall|j: int| 0 <= j < v.len() ==> (#[trigger] v[j]).wf(),
                window_views(rest@) == v.skip(n),
                window_views(kept@) == kept_windows(v.take(n), bits),
                forall|j: int|
                    0 <= j < kept_windows(v.take(n), bits).len() ==> (#[trigger] kept_windows(
                        v.take(n),
                        bits,
                    )[j]).wf(),
            decreases rest@.len(),
        {
            let ghost before = rest@;
            let window: Window = rest.remove(0);
            proof {
                assert(window_views(before).len() == before.len() && v.skip(n).len() == v.len()
                    - n);
                assert(window_views(before)[0] == window@);
                assert(v.skip(n)[0] == v[n]);
                assert(window_views(rest@) =~= v.skip(n + 1)) by {
                    assert forall|j: int| 0 <= j < rest@.len() implies window_views(rest@)[j]
                        == v.skip(n + 1)[j] by {
                        assert(rest@[j] == before[j + 1]);
                        assert(window_views(before)[j + 1] == v.skip(n)[j + 1]);
                    }
                }
                assert(v.take(n + 1).drop_last() =~= v.take(n));
                assert(v[n].wf());
                n = n + 1;
            }
            let ghost was = kept@;
            let id: u8 = window.define.window_id;
            if bits & (1u8 << id) == 0 {
                kept.push(window);
                assert(window_views(kept@) =~= window_views(was).push(window@));
            }
        }
        assert(v.take(n) =~= v);
        self.windows = kept;
        assert(self@ =~= (ServiceStateView {
            windows: kept_windows(old(self)@.windows, bits),
            ..old(self)@
        }));
    }

    /// Carries out a command on the window that text goes to, if there is one.
    fn change_current(&mut self, command: &ServiceCommand)
        requires
            old(self)@.wf(),
            is_command(*command),
        ensures
            final(self)@ == if old(self)@.index() < old(self)@.windows.len() {
                old(self)@.with_current(old(self)@.on_current(*command))
            } else {
                old(self)@
            },
            final(self)@.wf(),
    {
        let i: usize = self.find_window(self.current_window);
        if i >= self.windows.len() {
            return;
        }
        let ghost v = self@.windows;
        let ghost before = self.windows@;
        assert(v[i as int] == before[i as int]@);
        match command {
            ServiceCommand::SetWindowAttributes(attrs) => {
                if self.windows[i].attrs != *attrs {
                    self.windows[i].lines.clear();
                    self.windows[i].attrs = *attrs;
                    self.windows[i].rectangle = None;
                }
            },
            ServiceCommand::SetPenAttributes(attrs) => {
                self.windows[i].pen_attrs = *attrs;
            },
            ServiceCommand::SetPenColor(color) => {
                self.windows[i].pen_color = *color;
            },
            ServiceCommand::SetPenLocation(location) => {
                self.windows[i].pen_location = *location;
            },
            ServiceCommand::Backspace => self.windows[i].backspace(),
            ServiceCommand::CarriageReturn => self.windows[i].carriage_return(),
            ServiceCommand::HorizontalCarriageReturn => {
                self.windows[i].horizontal_carriage_return();
            },
            ServiceCommand::Char(c) => self.windows[i].push_char(*c),
            _ => {},
        }
        proof {
            let w = old(self)@.on_current(*command);
            let now = v.update(i as int, w);
            assert(self.windows@[i as int]@ =~= w);
            assert(w.wf());
            assert forall|j: int| 0 <= j < now.len() implies self@.windows[j] == now[j] by {
                if j != i {
                    assert(self.windows@[j] == before[j]);
                    assert(v[j] == before[j]@);
                }
            }
            assert(self@.windows =~= now);
            assert(self@ =~= old(self)@.with_current(w));
        }
    }

    /// Clears the window that text goes to.
    fn form_feed(&mut self)
        requires
            old(self)@.wf(),
            old(self)@.current < 8,
        ensures
            final(self)@ == old(self)@.form_feed(),
            final(self)@.wf(),
    {
        let id: u8 = self.current_window as u8;
        self.change_windows(1u8 << id, true, None);
        let beginning: ServiceCommand = ServiceCommand::SetPenLocation(
            SetPenLocationArgs { row: 0, column: 0 },
        );
        self.change_current(&beginning);
    }

    /// Carries out a command.
    #[verifier::spinoff_prover]
    pub fn handle_code(&mut self, command: &ServiceCommand)
        requires
            old(self)@.wf(),
            is_command(*command),
            command is FormFeed ==> old(self)@.current < 8,
        ensures
            final(self)@ == old(self)@.run(*command),
            final(self)@.wf(),
    {
        match command {
            ServiceCommand::DefineWindow(args) => self.define_window(args),
            ServiceCommand::SetCurrentWindow(id) => {
                self.current_window = *id as usize;
            },
            ServiceCommand::ClearWindows(bits) => self.change_windows(*bits, true, None),
            ServiceCommand::DeleteWindows(bits) => self.delete_windows(*bits),
            ServiceCommand::DisplayWindows(bits) => self.change_windows(*bits, false, Some(true)),
            ServiceCommand::HideWindows(bits) => self.change_windows(*bits, false, Some(false)),
            ServiceCommand::ToggleWindows(bits) => self.change_windows(*bits, false, None),
            ServiceCommand::FormFeed => self.form_feed(),
            ServiceCommand::Reset => {
                let no_video_layout: Dimensions = self.no_video_layout;
                *self = ServiceState::new(no_video_layout);
            },
            ServiceCommand::EndOfText => {},
            ServiceCommand::Other => {},
            _ => self.change_current(command),
        }
    }

    /// Takes the size of the video, and the size that 32 by 15 characters take in the largest font
    /// that fits in it.
    pub fn set_video_size(&mut self, video: Dimensions, max_layout: Dimensions)
        requires
            old(self)@.wf(),
            video.w <= i32::MAX,
            video.h <= i32::MAX,
            max_layout.w <= i32::MAX,
            max_layout.h <= i32::MAX,
        ensures
            final(self)@ == (ServiceStateView {
                windows: old(self)@.windows.map_values(|w: WindowView| w.sized(video, max_layout)),
                video,
                max_layout,
                ..old(self)@
            }),
            final(self)@.wf(),
    {
        let ghost was = self.windows@;
        let ghost v = self@.windows;
        let ghost all = v.map_values(|w: WindowView| w.sized(video, max_layout));
        let mut i: usize = 0;
        while i < self.windows.len()
            invariant
                v == window_views(was),
                all == v.map_values(|w: WindowView| w.sized(video, max_layout)),
                video.w <= i32::MAX,
                video.h <= i32::MAX,
                max_layout.w <= i32::MAX,
                max_layout.h <= i32::MAX,
                self.windows@.len() == was.len(),
                i <= was.len(),
                forall|j: int| 0 <= j < was.len() ==> (#[trigger] v[j]).wf(),
                forall|j: int|
                    0 <= j < i ==> (#[trigger] self.windows@[j])@ == all[j] && all[j].wf(),
                forall|j: int| i <= j < was.len() ==> #[trigger] self.windows@[j] == was[j],
                self.current_window == old(self).current_window,
                self.no_video_layout == old(self).no_video_layout,
            decreases was.len() - i,
        {
            assert(v[i as int] == was[i as int]@);
            self.windows[i].set_video_size(video, max_layout);
            i += 1;
        }
        self.video = video;
        self.max_layout = max_layout;
        assert(self@.windows =~= all);
        proof {
            assert forall|j: int| 0 <= j < self@.windows.len() implies (
            #[trigger] self@.windows[j]).wf() by {
                assert(self.windows@[j]@ == all[j]);
            }
        }
    }
}

} // verus!
