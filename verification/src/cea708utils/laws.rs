//! What codes do to the windows of a service.
use crate::cea708::{DefineWindowArgs, ServiceCommand, SetPenLocationArgs};
use crate::cea708utils::window::{Cell, ServiceStateView, WindowLineView, WindowView};
use vstd::prelude::*;

verus! {

/// Whether a code names a window.
pub open spec fn names(bits: u8, id: u8) -> bool {
    (bits >> id) & 1 == 1
}

proof fn lemma_names(bits: u8, id: u8)
    requires
        id < 8,
    ensures
        crate::cea708utils::window::has_window(bits, id) == names(bits, id),
{
    assert((bits & (1u8 << id) != 0) == ((bits >> id) & 1 == 1)) by (bit_vector)
        requires
            id < 8,
    ;
}

/// Whether the windows have numbers that a code can name.
pub open spec fn are_numbered(state: ServiceStateView) -> bool {
    forall|i: int|
        0 <= i < state.windows.len() ==> (#[trigger] state.windows[i]).define.window_id < 8
}

/// Whether windows differ in nothing but in whether they are shown.
pub open spec fn same_but_shown(a: WindowView, b: WindowView) -> bool {
    &&& a.define == b.define
    &&& a.attrs == b.attrs
    &&& a.pen_attrs == b.pen_attrs
    &&& a.pen_color == b.pen_color
    &&& a.pen_location == b.pen_location
    &&& a.lines == b.lines
    &&& a.window_position == b.window_position
    &&& a.video_dims == b.video_dims
    &&& a.window_dims == b.window_dims
    &&& a.max_layout_dims == b.max_layout_dims
    &&& a.rectangle == b.rectangle
}

/// Windows that are named by a code are shown by `DisplayWindows`, hidden by `HideWindows`, and
/// shown by `ToggleWindows` where they were hidden and the other way round. The others stay as they
/// are, and nothing else of any window changes.
pub proof fn law_windows_are_shown_and_hidden(state: ServiceStateView, bits: u8, i: int)
    requires
        are_numbered(state),
        0 <= i < state.windows.len(),
    ensures
        ({
            let shown = state.run(ServiceCommand::DisplayWindows(bits));
            let hidden = state.run(ServiceCommand::HideWindows(bits));
            let toggled = state.run(ServiceCommand::ToggleWindows(bits));
            let w = state.windows[i];
            let named = names(bits, w.define.window_id);
            &&& shown.windows.len() == state.windows.len()
            &&& hidden.windows.len() == state.windows.len()
            &&& toggled.windows.len() == state.windows.len()
            &&& same_but_shown(w, shown.windows[i])
            &&& same_but_shown(w, hidden.windows[i])
            &&& same_but_shown(w, toggled.windows[i])
            &&& named ==> shown.windows[i].visible
            &&& named ==> !hidden.windows[i].visible
            &&& named ==> toggled.windows[i].visible == !w.visible
            &&& !named ==> shown.windows[i].visible == w.visible
            &&& !named ==> hidden.windows[i].visible == w.visible
            &&& !named ==> toggled.windows[i].visible == w.visible
            &&& shown.current == state.current
            &&& hidden.current == state.current
            &&& toggled.current == state.current
        }),
{
    lemma_names(bits, state.windows[i].define.window_id);
}

/// Windows that are named lose their text, and the pen goes to their beginning. They stay as
/// visible as they were. The others keep everything.
pub proof fn law_windows_are_cleared(state: ServiceStateView, bits: u8, i: int)
    requires
        are_numbered(state),
        0 <= i < state.windows.len(),
    ensures
        ({
            let after = state.run(ServiceCommand::ClearWindows(bits));
            let w = state.windows[i];
            let named = names(bits, w.define.window_id);
            &&& after.windows.len() == state.windows.len()
            &&& after.current == state.current
            &&& after.windows[i].define == w.define
            &&& after.windows[i].visible == w.visible
            &&& named ==> after.windows[i].lines.len() == 0
            &&& named ==> after.windows[i].rectangle is None
            &&& named ==> after.windows[i].pen_location.row == 0
            &&& named ==> after.windows[i].pen_location.column == 0
            &&& named ==> after.windows[i].pen_color == w.pen_color
            &&& named ==> after.windows[i].pen_attrs == w.pen_attrs
            &&& !named ==> after.windows[i] == w
        }),
{
    lemma_names(bits, state.windows[i].define.window_id);
}

proof fn lemma_kept(windows: Seq<WindowView>, bits: u8)
    requires
        forall|i: int| 0 <= i < windows.len() ==> (#[trigger] windows[i]).define.window_id < 8,
    ensures
        crate::cea708utils::window::kept_windows(windows, bits) == windows.filter(
            |w: WindowView| !names(bits, w.define.window_id),
        ),
    decreases windows.len(),
{
    reveal(Seq::filter);
    if windows.len() > 0 {
        lemma_kept(windows.drop_last(), bits);
        lemma_names(bits, windows.last().define.window_id);
    }
}

/// Windows that are named are no more. The others stay as they are, in their order.
pub proof fn law_windows_are_deleted(state: ServiceStateView, bits: u8)
    requires
        are_numbered(state),
    ensures
        ({
            let after = state.run(ServiceCommand::DeleteWindows(bits));
            &&& after.windows == state.windows.filter(
                |w: WindowView| !names(bits, w.define.window_id),
            )
            &&& after.current == state.current
        }),
{
    lemma_kept(state.windows, bits);
}

/// Whether no two windows have the same number.
pub open spec fn are_distinct(state: ServiceStateView) -> bool {
    forall|i: int, j: int|
        0 <= i < j < state.windows.len() ==> (#[trigger] state.windows[i]).define.window_id != (
        #[trigger] state.windows[j]).define.window_id
}

proof fn lemma_index(state: ServiceStateView, id: int, i: int)
    requires
        are_distinct(state),
        0 <= i < state.windows.len(),
        state.windows[i].define.window_id == id,
    ensures
        crate::cea708utils::window::window_index(state.windows, id) == i,
{
    crate::cea708utils::window::lemma_window_index(state.windows, id);
}

/// A window that is defined is the one that text goes to. One that was not there has no text, is
/// shown as its definition says, and comes behind the others. One that was there keeps its text and
/// stays as visible as it was. The others stay as they are.
pub proof fn law_window_is_defined(state: ServiceStateView, args: DefineWindowArgs, i: int)
    requires
        are_numbered(state),
        crate::cea708::is_window(args),
        are_distinct(state),
        0 <= i <= state.windows.len(),
        i < state.windows.len() ==> state.windows[i].define.window_id == args.window_id,
        i == state.windows.len() ==> forall|j: int|
            0 <= j < i ==> (#[trigger] state.windows[j]).define.window_id != args.window_id,
    ensures
        ({
            let after = state.run(ServiceCommand::DefineWindow(args));
            &&& after.current == args.window_id
            &&& are_distinct(after)
            &&& after.windows.len() == if i < state.windows.len() {
                state.windows.len()
            } else {
                state.windows.len() + 1
            }
            &&& after.windows[i].define == args
            &&& i < state.windows.len() ==> after.windows[i].visible == state.windows[i].visible
            &&& i < state.windows.len() ==> after.windows[i].lines == state.windows[i].lines
            &&& i < state.windows.len() ==> after.windows[i].pen_location
                == state.windows[i].pen_location
            &&& i < state.windows.len() && state.windows[i].define == args
                ==> after.windows[i].pen_color == state.windows[i].pen_color
                && after.windows[i].pen_attrs == state.windows[i].pen_attrs
                && after.windows[i].attrs == state.windows[i].attrs
            &&& i == state.windows.len() ==> after.windows[i].visible == args.visible
            &&& i == state.windows.len() ==> after.windows[i].lines.len() == 0
            &&& i == state.windows.len() ==> after.windows[i].pen_location.row == 0
                && after.windows[i].pen_location.column == 0
            &&& forall|j: int|
                0 <= j < state.windows.len() && j != i ==> #[trigger] after.windows[j]
                    == state.windows[j]
        }),
{
    crate::cea708utils::window::lemma_window_index(state.windows, args.window_id as int);
    let after = state.run(ServiceCommand::DefineWindow(args));
    assert forall|j: int| 0 <= j < after.windows.len() && j != i implies #[trigger] after.windows[j]
        == state.windows[j] by {}
    assert forall|j: int, k: int| 0 <= j < k < after.windows.len() implies (
    #[trigger] after.windows[j]).define.window_id != (
    #[trigger] after.windows[k]).define.window_id by {
        if j != i && k != i {
            assert(state.windows[j].define.window_id != state.windows[k].define.window_id);
        } else if j == i {
            assert(state.windows[k].define.window_id != state.windows[i].define.window_id);
        } else if i < state.windows.len() {
            assert(state.windows[j].define.window_id != state.windows[i].define.window_id);
        }
    }
}

/// What is for the window that text goes to leaves the others as they are. Without such a window
/// nothing changes. The pen is set as the code says.
pub proof fn law_current_window_is_written_to(
    state: ServiceStateView,
    command: ServiceCommand,
    i: int,
    j: int,
)
    requires
        are_numbered(state),
        are_distinct(state),
        command is SetPenAttributes || command is SetPenColor || command is SetPenLocation
            || command is Char || command is Backspace || command is CarriageReturn || command
            is HorizontalCarriageReturn || command is SetWindowAttributes,
        0 <= i < state.windows.len(),
        0 <= j < state.windows.len(),
        state.windows[i].define.window_id == state.current,
    ensures
        ({
            let after = state.run(command);
            let w = state.windows[i];
            let a = after.windows[i];
            &&& after.windows.len() == state.windows.len()
            &&& after.current == state.current
            &&& j != i ==> after.windows[j] == state.windows[j]
            &&& a.define == w.define
            &&& a.visible == w.visible
            &&& command matches ServiceCommand::SetPenAttributes(p) ==> a == (WindowView {
                pen_attrs: p,
                ..w
            })
            &&& command matches ServiceCommand::SetPenColor(p) ==> a == (WindowView {
                pen_color: p,
                ..w
            })
            &&& command matches ServiceCommand::SetPenLocation(p) ==> a == (WindowView {
                pen_location: p,
                ..w
            })
            &&& command matches ServiceCommand::SetWindowAttributes(p) ==> a.attrs == p && (p
                != w.attrs ==> a.lines.len() == 0 && a.rectangle is None) && (p == w.attrs ==> a
                == w)
        }),
{
    lemma_index(state, state.current, i);
}

/// Whether a character stands in a row and column.
pub open spec fn has_char(lines: Seq<WindowLineView>, row: int, column: int, c: char) -> bool {
    exists|k: int|
        0 <= k < lines.len() && (#[trigger] lines[k]).no == row && column < lines[k].cells.len()
            && lines[k].cells[column].character == Some(c)
}

/// Whether no two lines have the same row.
pub open spec fn are_rows(lines: Seq<WindowLineView>) -> bool {
    forall|i: int, j: int|
        0 <= i < j < lines.len() ==> (#[trigger] lines[i]).no != (#[trigger] lines[j]).no
}

proof fn lemma_set_char(
    lines: Seq<WindowLineView>,
    row: int,
    column: int,
    character: Option<char>,
    empty: Cell,
)
    requires
        are_rows(lines),
        column >= 0,
        empty.character is None,
    ensures
        ({
            let after = crate::cea708utils::window::set_char(lines, row, column, character, empty);
            &&& are_rows(after)
            &&& character matches Some(c) ==> has_char(after, row, column, c)
            &&& forall|r: int, n: int, c: char|
                0 <= n && (r != row || n != column) ==> #[trigger] has_char(after, r, n, c)
                    == has_char(lines, r, n, c)
            &&& character is None ==> forall|c: char| !#[trigger] has_char(after, row, column, c)
        }),
{
    crate::cea708utils::window::lemma_line_index(lines, row);
    let i = crate::cea708utils::window::line_index(lines, row);
    let after = crate::cea708utils::window::set_char(lines, row, column, character, empty);
    assert(after[i].no == row);
    assert(after[i].cells[column].character == character);
    assert forall|k: int| 0 <= k < after.len() && k != i implies #[trigger] after[k]
        == lines[k] by {}
    assert forall|k: int| 0 <= k < after.len() && #[trigger] after[k].no == row implies k == i by {
        if k != i && i < lines.len() {
            assert(lines[k].no != lines[i].no);
        }
    }
    assert forall|j: int, k: int| 0 <= j < k < after.len() implies (#[trigger] after[j]).no != (
    #[trigger] after[k]).no by {
        if j != i && k != i {
            assert(lines[j].no != lines[k].no);
        }
    }
    assert forall|r: int, n: int, c: char|
        0 <= n && (r != row || n != column) implies #[trigger] has_char(after, r, n, c) == has_char(
        lines,
        r,
        n,
        c,
    ) by {
        if has_char(after, r, n, c) {
            let k = choose|k: int|
                0 <= k < after.len() && (#[trigger] after[k]).no == r && n < after[k].cells.len()
                    && after[k].cells[n].character == Some(c);
            if k != i {
                assert(lines[k].no == r);
            } else {
                assert(i < lines.len() && n < lines[i].cells.len());
                assert(lines[i].cells[n].character == Some(c));
            }
        }
        if has_char(lines, r, n, c) {
            let k = choose|k: int|
                0 <= k < lines.len() && (#[trigger] lines[k]).no == r && n < lines[k].cells.len()
                    && lines[k].cells[n].character == Some(c);
            assert(after[k].no == r);
            assert(after[k].cells[n].character == Some(c));
        }
    }
}

/// A character that comes stands where the pen was, and the pen moves on by one column where text
/// runs from left to right. All other places keep what they had. The window is drawn anew.
pub proof fn law_character_is_written(state: ServiceStateView, c: char, i: int)
    requires
        state.wf(),
        are_distinct(state),
        0 <= i < state.windows.len(),
        state.windows[i].define.window_id == state.current,
        are_rows(state.windows[i].lines),
        state.windows[i].pen_location.row <= state.windows[i].define.row_count,
        state.windows[i].pen_location.column <= state.windows[i].define.column_count,
    ensures
        ({
            let w = state.windows[i];
            let a = state.run(ServiceCommand::Char(c)).windows[i];
            let row = w.pen_location.row as int;
            let column = w.pen_location.column as int;
            &&& has_char(a.lines, row, column, c)
            &&& are_rows(a.lines)
            &&& a.rectangle is None
            &&& forall|r: int, n: int, d: char|
                0 <= n && (r != row || n != column) ==> #[trigger] has_char(a.lines, r, n, d)
                    == has_char(w.lines, r, n, d)
            &&& w.attrs.print_direction is LeftToRight ==> a.pen_location == (SetPenLocationArgs {
                row: w.pen_location.row,
                column: (column + 1) as u8,
            })
            &&& w.attrs.print_direction is RightToLeft && column > 0 ==> a.pen_location == (
            SetPenLocationArgs { row: w.pen_location.row, column: (column - 1) as u8 })
            &&& w.attrs.print_direction is TopToBottom ==> a.pen_location == (SetPenLocationArgs {
                row: (row + 1) as u8,
                column: w.pen_location.column,
            })
            &&& w.attrs.print_direction is BottomToTop && row > 0 ==> a.pen_location == (
            SetPenLocationArgs { row: (row - 1) as u8, column: w.pen_location.column })
        }),
{
    let w = state.windows[i];
    lemma_index(state, state.current, i);
    lemma_set_char(
        w.lines,
        w.pen_location.row as int,
        w.pen_location.column as int,
        Some(c),
        w.empty_cell(),
    );
}

/// A backspace moves the pen back by one place and takes away what stands there. All other places
/// keep what they had.
pub proof fn law_backspace_takes_away(state: ServiceStateView, i: int, c: char)
    requires
        state.wf(),
        are_distinct(state),
        0 <= i < state.windows.len(),
        state.windows[i].define.window_id == state.current,
        are_rows(state.windows[i].lines),
        state.windows[i].attrs.print_direction is LeftToRight,
        state.windows[i].pen_location.column > 0,
    ensures
        ({
            let w = state.windows[i];
            let a = state.run(ServiceCommand::Backspace).windows[i];
            let row = w.pen_location.row as int;
            let column = w.pen_location.column - 1;
            &&& a.pen_location == (SetPenLocationArgs {
                row: w.pen_location.row,
                column: column as u8,
            })
            &&& !has_char(a.lines, row, column, c)
            &&& has_char(w.lines, row, column, c) ==> a.rectangle is None
            &&& forall|r: int, n: int, d: char|
                0 <= n && (r != row || n != column) ==> #[trigger] has_char(a.lines, r, n, d)
                    == has_char(w.lines, r, n, d)
        }),
{
    let w = state.windows[i];
    let row = w.pen_location.row as int;
    let column = w.pen_location.column - 1;
    lemma_index(state, state.current, i);
    lemma_set_char(w.lines, row, column, None, w.empty_cell());
    if has_char(w.lines, row, column, c) {
        let k = choose|k: int|
            0 <= k < w.lines.len() && (#[trigger] w.lines[k]).no == row && column
                < w.lines[k].cells.len() && w.lines[k].cells[column].character == Some(c);
        crate::cea708utils::window::lemma_line_index(w.lines, row);
        let m = crate::cea708utils::window::line_index(w.lines, row);
        if m != k {
            if m < k {
                assert(w.lines[m].no != w.lines[k].no);
            } else {
                assert(w.lines[k].no != row);
            }
        }
    }
}

proof fn lemma_one_more_line(
    lines: Seq<WindowLineView>,
    line: WindowLineView,
    row: int,
    column: int,
    c: char,
)
    ensures
        has_char(lines.push(line), row, column, c) == (has_char(lines, row, column, c) || (line.no
            == row && column < line.cells.len() && line.cells[column].character == Some(c))),
{
    let all = lines.push(line);
    if has_char(lines, row, column, c) {
        let k = choose|k: int|
            0 <= k < lines.len() && (#[trigger] lines[k]).no == row && column
                < lines[k].cells.len() && lines[k].cells[column].character == Some(c);
        assert(all[k] == lines[k]);
    }
    assert(all[lines.len() as int] == line);
}

proof fn lemma_moved_chars(
    lines: Seq<WindowLineView>,
    last: int,
    row: int,
    column: int,
    c: char,
)
    requires
        forall|k: int| 0 <= k < lines.len() ==> (#[trigger] lines[k]).no <= last,
        row >= 0,
    ensures
        has_char(
            crate::cea708utils::window::moved_lines(lines, 1, last, -1),
            row,
            column,
            c,
        ) == has_char(lines, row + 1, column, c),
    decreases lines.len(),
{
    if lines.len() > 0 {
        let rest = lines.drop_last();
        let line = lines.last();
        assert forall|k: int| 0 <= k < rest.len() implies (#[trigger] rest[k]).no <= last by {
            assert(rest[k] == lines[k]);
        }
        lemma_moved_chars(rest, last, row, column, c);
        assert(rest.push(line) =~= lines);
        lemma_one_more_line(rest, line, row + 1, column, c);
        lemma_one_more_line(
            crate::cea708utils::window::moved_lines(rest, 1, last, -1),
            WindowLineView { no: line.no - 1, ..line },
            row,
            column,
            c,
        );
    }
}

/// A carriage return in the last row of a window whose lines roll up moves all text up by one row.
/// What stood in the first row is gone. The pen goes to the first column. In a row before the last
/// one the pen goes down instead, and all text stays.
pub proof fn law_lines_roll_up(state: ServiceStateView, i: int, row: int, column: int, c: char)
    requires
        state.wf(),
        are_distinct(state),
        0 <= i < state.windows.len(),
        state.windows[i].define.window_id == state.current,
        are_rows(state.windows[i].lines),
        state.windows[i].attrs.print_direction is LeftToRight,
        state.windows[i].attrs.scroll_direction is BottomToTop,
        forall|k: int|
            0 <= k < state.windows[i].lines.len() ==> 0 <= (#[trigger] state.windows[i].lines[k]).no
                <= state.windows[i].define.row_count + 1,
        0 <= column,
    ensures
        ({
            let w = state.windows[i];
            let a = state.run(ServiceCommand::CarriageReturn).windows[i];
            &&& a.rectangle is None
            &&& a.pen_location.column == 0
            &&& w.pen_location.row >= w.define.row_count ==> a.pen_location.row
                == w.pen_location.row && (row >= 0 ==> has_char(a.lines, row, column, c)
                == has_char(w.lines, row + 1, column, c))
            &&& w.pen_location.row < w.define.row_count ==> a.pen_location.row == w.pen_location.row
                + 1 && a.lines == w.lines
        }),
{
    let w = state.windows[i];
    lemma_index(state, state.current, i);
    if row >= 0 {
        lemma_moved_chars(w.lines, w.define.row_count + 1, row, column, c);
    }
}

/// Which window text goes to is changed by nothing but by what says so, and changes nothing else. A
/// reset leaves no window.
pub proof fn law_current_window_is_chosen(state: ServiceStateView, id: u8)
    requires
        are_numbered(state),
    ensures
        state.run(ServiceCommand::SetCurrentWindow(id)).current == id,
        state.run(ServiceCommand::SetCurrentWindow(id)).windows == state.windows,
        state.run(ServiceCommand::Reset).windows.len() == 0,
        state.run(ServiceCommand::EndOfText) == state,
        state.run(ServiceCommand::Other) == state,
{
}

/// A form feed clears the window that text goes to, and no other one.
pub proof fn law_form_feed_clears(state: ServiceStateView, i: int, j: int)
    requires
        are_numbered(state),
        are_distinct(state),
        state.current < 8,
        0 <= i < state.windows.len(),
        0 <= j < state.windows.len(),
        state.windows[i].define.window_id == state.current,
    ensures
        ({
            let after = state.run(ServiceCommand::FormFeed);
            &&& after.windows.len() == state.windows.len()
            &&& after.windows[i].lines.len() == 0
            &&& after.windows[i].pen_location.row == 0
            &&& after.windows[i].pen_location.column == 0
            &&& after.windows[i].visible == state.windows[i].visible
            &&& after.windows[i].define == state.windows[i].define
            &&& j != i ==> after.windows[j] == state.windows[j]
        }),
{
    let bits = 1u8 << (state.current as u8);
    let id = state.current as u8;
    let cleared = state.run(ServiceCommand::ClearWindows(bits));
    law_windows_are_cleared(state, bits, i);
    law_windows_are_cleared(state, bits, j);
    assert(((1u8 << id) >> id) & 1 == 1) by (bit_vector)
        requires
            id < 8,
    ;
    let other = state.windows[j].define.window_id;
    if other != id {
        assert(((1u8 << id) >> other) & 1 != 1) by (bit_vector)
            requires
                id < 8,
                other < 8,
                other != id,
        ;
    }
    assert forall|k: int| 0 <= k < cleared.windows.len() implies (
    #[trigger] cleared.windows[k]).define == state.windows[k].define by {
        law_windows_are_cleared(state, bits, k);
    }
    assert(are_distinct(cleared)) by {
        assert forall|k: int, m: int| 0 <= k < m < cleared.windows.len() implies (
        #[trigger] cleared.windows[k]).define.window_id != (
        #[trigger] cleared.windows[m]).define.window_id by {
            assert(state.windows[k].define.window_id != state.windows[m].define.window_id);
        }
    }
    lemma_index(cleared, state.current, i);
    if j != i {
        if i < j {
            assert(state.windows[i].define.window_id != state.windows[j].define.window_id);
        } else {
            assert(state.windows[j].define.window_id != state.windows[i].define.window_id);
        }
    }
}

/// What a cell shows: its character, or a space.
pub open spec fn shown(cell: Cell) -> char {
    match cell.character {
        Some(c) => c,
        None => ' ',
    }
}

proof fn lemma_drawn_cells(was: crate::cea708utils::window::Drawing, cells: Seq<Cell>, n: int)
    requires
        0 <= n <= cells.len(),
    ensures
        crate::cea708utils::window::draw_cells(was, cells, n).text == was.text + Seq::new(
            n as nat,
            |i: int| shown(cells[i]),
        ),
    decreases n,
{
    let row = Seq::new(n as nat, |i: int| shown(cells[i]));
    if n > 0 {
        lemma_drawn_cells(was, cells, n - 1);
        let before = Seq::new((n - 1) as nat, |i: int| shown(cells[i]));
        assert(row =~= before.push(shown(cells[n - 1])));
        assert((was.text + before).push(shown(cells[n - 1])) =~= was.text + row);
    } else {
        assert(was.text + row =~= was.text);
    }
}

proof fn lemma_drawn_before(a: Seq<WindowLineView>, b: Seq<WindowLineView>, n: int)
    requires
        0 <= n <= a.len(),
        n <= b.len(),
        forall|i: int| 0 <= i < n ==> #[trigger] a[i] == b[i],
    ensures
        crate::cea708utils::window::draw_lines(a, n) == crate::cea708utils::window::draw_lines(
            b,
            n,
        ),
    decreases n,
{
    if n > 0 {
        lemma_drawn_before(a, b, n - 1);
        assert(a[n - 1] == b[n - 1]);
        if n > 1 {
            assert(a[n - 2] == b[n - 2]);
        }
    }
}

/// The text that is drawn is that of all rows in order: each row begins as many lines below the one
/// before it, or below the top, as it stands below it, and shows all its cells.
pub proof fn law_all_rows_are_drawn(lines: Seq<WindowLineView>, line: WindowLineView)
    requires
        lines.len() > 0 ==> lines.last().no <= line.no,
        line.no >= 0,
    ensures
        ({
            let n = lines.len() as int;
            let below = if n == 0 {
                line.no
            } else {
                line.no - lines.last().no
            };
            &&& crate::cea708utils::window::draw_lines(lines.push(line), n + 1).text
                == crate::cea708utils::window::draw_lines(lines, n).text + Seq::new(
                below as nat,
                |i: int| '\n',
            ) + Seq::new(line.cells.len(), |i: int| shown(line.cells[i]))
            &&& crate::cea708utils::window::draw_lines(lines, 0).text.len() == 0
        }),
{
    let n = lines.len() as int;
    let all = lines.push(line);
    lemma_drawn_before(all, lines, n);
    assert(all[n] == line);
    let below = if n == 0 {
        line.no
    } else {
        assert(all[n - 1] == lines.last());
        line.no - lines.last().no
    };
    let d = crate::cea708utils::window::draw_lines(all, n);
    let was = crate::cea708utils::window::Drawing {
        text: d.text + crate::cea608utils::newlines(below),
        ..d
    };
    lemma_drawn_cells(was, line.cells, line.cells.len() as int);
    assert(crate::cea608utils::newlines(below) =~= Seq::new(below as nat, |i: int| '\n'));
}

/// A window is as large as its rows and columns are in the font of the video. Its left border is at
/// its anchor, or its right border where the anchor is on that side; so are its upper and its lower
/// border. The anchor lies in the part of the video between borders of a tenth, at the given
/// hundredth of it.
pub proof fn law_window_stands_at_its_anchor(
    window: WindowView,
    layout: crate::cea708utils::window::Dimensions,
    x: int,
    y: int,
)
    requires
        window.wf(),
        layout.w <= i32::MAX,
        layout.h <= i32::MAX,
        window.define.relative_positioning,
        window.define.anchor_horizontal <= 100,
        window.define.anchor_vertical <= 100,
        x == ((window.video_dims.w - window.video_dims.w as int / 5)
            * window.define.anchor_horizontal + 50) / 100,
        y == ((window.video_dims.h - window.video_dims.h as int / 5) * window.define.anchor_vertical
            + 50) / 100,
    ensures
        ({
            let a = window.placed(layout);
            let left = a.window_position.w - window.video_dims.w as int / 10;
            let top = a.window_position.h - window.video_dims.h as int / 10;
            let width = (window.define.column_count + 1) * (layout.w as int / 32);
            let height = (window.define.row_count + 1) * (layout.h as int / 15);
            let anchor = window.define.anchor_point;
            let is_left = anchor is TopLeft || anchor is CenterLeft || anchor is BottomLeft;
            let is_right = anchor is TopRight || anchor is CenterRight || anchor is BottomRight;
            let is_top = anchor is TopLeft || anchor is TopMiddle || anchor is TopRight;
            let is_bottom = anchor is BottomLeft || anchor is BottomMiddle || anchor is BottomRight;
            &&& a.window_dims.w == width
            &&& a.window_dims.h == height
            &&& a.rectangle is None
            &&& a.lines == window.lines
            &&& is_left ==> left == x
            &&& is_right && x >= width ==> left + width == x
            &&& is_top ==> top == y
            &&& is_bottom && y >= height ==> top + height == y
        }),
{
    let safe_w = window.video_dims.w - window.video_dims.w as int / 5;
    let safe_h = window.video_dims.h - window.video_dims.h as int / 5;
    let hw = window.define.anchor_horizontal as int;
    let hh = window.define.anchor_vertical as int;
    assert(0 <= safe_w * hw <= safe_w * 100) by (nonlinear_arith)
        requires
            0 <= hw <= 100,
            safe_w >= 0,
    ;
    assert(0 <= safe_h * hh <= safe_h * 100) by (nonlinear_arith)
        requires
            0 <= hh <= 100,
            safe_h >= 0,
    ;
    let columns = window.columns();
    let rows = window.rows();
    let cw = layout.w as int / 32;
    let ch = layout.h as int / 15;
    assert(0 <= columns * cw <= 64 * cw) by (nonlinear_arith)
        requires
            0 <= columns <= 64,
            cw >= 0,
    ;
    assert(0 <= rows * ch <= 16 * ch) by (nonlinear_arith)
        requires
            0 <= rows <= 16,
            ch >= 0,
    ;
}

/// Each color is mixed of full basic colors: white of all, yellow, cyan and magenta of two, and the
/// others of themselves.
pub proof fn law_colors_are_mixed(color: crate::cea608::Color)
    ensures
        ({
            let mixed = crate::cea708utils::foreground_color(color);
            &&& mixed.r is Full <==> color is White || color is Red || color is Yellow || color
                is Magenta
            &&& mixed.g is Full <==> color is White || color is Green || color is Yellow || color
                is Cyan
            &&& mixed.b is Full <==> color is White || color is Blue || color is Cyan || color
                is Magenta
            &&& mixed.r is Full || mixed.r is Zero
            &&& mixed.g is Full || mixed.g is Zero
            &&& mixed.b is Full || mixed.b is Zero
        }),
{
}

} // verus!
