//! What commands do to the screen.
use super::{Cea608Cell, FrameView, LineView};
use crate::cea608::{
    CaptionCommand, Cea608Mode, MidRow, PreambleAddressCode, PreambleType, Text,
};
use vstd::prelude::*;

verus! {

/// One character.
pub open spec fn one(c: char) -> Text {
    Text { needs_backspace: false, char1: Some(c), char2: None }
}

/// Whether a character stands in a row and column.
pub open spec fn has_char(lines: Seq<LineView>, row: int, column: int, c: char) -> bool {
    exists|k: int|
        0 <= k < lines.len() && (#[trigger] lines[k]).no == row && column < lines[k].cells.len()
            && lines[k].cells[column] == Cea608Cell::Char(c)
}

proof fn lemma_put_cell(
    lines: Seq<LineView>,
    row: int,
    column: int,
    cell: Cea608Cell,
    preamble: Option<PreambleAddressCode>,
)
    requires
        super::is_screen(lines),
        column >= 0,
    ensures
        ({
            let after = super::put_cell(lines, row, column, cell, preamble);
            &&& cell matches Cea608Cell::Char(c) ==> has_char(after, row, column, c)
            &&& forall|c: char|
                cell != Cea608Cell::Char(c) ==> !#[trigger] has_char(after, row, column, c)
            &&& forall|r: int, n: int, c: char|
                0 <= n && (r != row || n != column) ==> #[trigger] has_char(after, r, n, c)
                    == has_char(lines, r, n, c)
        }),
{
    super::lemma_line_index(lines, row);
    let i = super::line_index(lines, row);
    let after = super::put_cell(lines, row, column, cell, preamble);
    assert(after[i].no == row);
    assert(after[i].cells[column] == cell);
    assert forall|k: int| 0 <= k < after.len() && k != i implies #[trigger] after[k]
        == lines[k] by {}
    assert forall|k: int| 0 <= k < after.len() && #[trigger] after[k].no == row implies k == i by {
        if k != i && i < lines.len() {
            if i < k {
                assert(lines[i].no != lines[k].no);
            } else {
                assert(lines[k].no != lines[i].no);
            }
        }
    }
    assert forall|r: int, n: int, c: char|
        0 <= n && (r != row || n != column) implies #[trigger] has_char(after, r, n, c) == has_char(
        lines,
        r,
        n,
        c,
    ) by {
        if has_char(after, r, n, c) {
            let k = choose|k: int|
                0 <= k < after.len() && (#[trigger] after[k]).no == r && n < after[k].cells.len()
                    && after[k].cells[n] == Cea608Cell::Char(c);
            if k != i {
                assert(lines[k].no == r);
            } else {
                assert(i < lines.len() && n < lines[i].cells.len());
                assert(lines[i].cells[n] == Cea608Cell::Char(c));
            }
        }
        if has_char(lines, r, n, c) {
            let k = choose|k: int|
                0 <= k < lines.len() && (#[trigger] lines[k]).no == r && n < lines[k].cells.len()
                    && lines[k].cells[n] == Cea608Cell::Char(c);
            assert(after[k].no == r);
            assert(after[k].cells[n] == Cea608Cell::Char(c));
        }
    }
}

/// A character stands where the cursor was: on the hidden screen in pop-on mode, else on the one
/// that is shown; in the last of the rows that roll up where they do. All other places keep what
/// they had, and the cursor goes on by one column.
pub proof fn law_character_is_written(frame: FrameView, c: char, mode: Cea608Mode)
    requires
        frame.wf(),
        frame.mode == Some(mode),
    ensures
        ({
            let after = frame.run(CaptionCommand::Text(one(c)));
            let row = match mode {
                Cea608Mode::PopOn => frame.row,
                Cea608Mode::PaintOn => frame.row,
                _ => frame.base_row,
            };
            &&& mode == Cea608Mode::PopOn ==> after.display == frame.display && has_char(
                after.hidden,
                row,
                frame.column,
                c,
            )
            &&& mode != Cea608Mode::PopOn ==> after.hidden == frame.hidden && has_char(
                after.display,
                row,
                frame.column,
                c,
            )
            &&& forall|r: int, n: int, d: char|
                0 <= n && (r != row || n != frame.column) ==> #[trigger] has_char(
                    after.display,
                    r,
                    n,
                    d,
                ) == has_char(frame.display, r, n, d)
            &&& forall|r: int, n: int, d: char|
                0 <= n && (r != row || n != frame.column) ==> #[trigger] has_char(
                    after.hidden,
                    r,
                    n,
                    d,
                ) == has_char(frame.hidden, r, n, d)
            &&& after.row == frame.row
            &&& after.base_row == frame.base_row
            &&& frame.column < 31 ==> after.column == frame.column + 1
            &&& frame.column == 31 ==> after.column == 31
        }),
{
    let row = if frame.rolls_up() {
        frame.base_row
    } else {
        frame.row
    };
    let preamble = if frame.column == 0 {
        Some(frame.preamble)
    } else {
        None
    };
    lemma_put_cell(frame.written(), row, frame.column, Cea608Cell::Char(c), preamble);
}

/// A preamble moves the cursor to its row and column. Nothing on screen changes, unless lines roll
/// up. A tab offset moves the cursor by that many columns, but not off the screen.
pub proof fn law_cursor_is_moved(frame: FrameView, preamble: PreambleAddressCode, n: u8)
    requires
        frame.wf(),
        crate::cea608::is_preamble(preamble),
        1 <= n <= 3,
    ensures
        ({
            let after = frame.run(CaptionCommand::Preamble(preamble));
            let tab = frame.run(CaptionCommand::TabOffset(n));
            &&& preamble.code matches PreambleType::Indent(k) ==> after.column == k
            &&& !(preamble.code is Indent) ==> after.column == 0
            &&& after.preamble == preamble
            &&& after.hidden == frame.hidden
            &&& !frame.rolls_up() ==> after.row == preamble.row && after.display == frame.display
            &&& frame.column + n <= 31 ==> tab.column == frame.column + n
            &&& frame.column + n > 31 ==> tab.column == 31
            &&& tab == (FrameView { column: tab.column, ..frame })
        }),
{
}

proof fn lemma_one_more_line(
    lines: Seq<LineView>,
    line: LineView,
    row: int,
    column: int,
    c: char,
)
    ensures
        has_char(lines.push(line), row, column, c) == (has_char(lines, row, column, c) || (line.no
            == row && column < line.cells.len() && line.cells[column] == Cea608Cell::Char(c))),
{
    let all = lines.push(line);
    if has_char(lines, row, column, c) {
        let k = choose|k: int|
            0 <= k < lines.len() && (#[trigger] lines[k]).no == row && column
                < lines[k].cells.len() && lines[k].cells[column] == Cea608Cell::Char(c);
        assert(all[k] == lines[k]);
    }
    assert(all[lines.len() as int] == line);
}

proof fn lemma_rolled_chars(lines: Seq<LineView>, above: int, row: int, column: int, c: char)
    ensures
        has_char(super::rolled_lines(lines, above), row, column, c) == (row >= above && has_char(
            lines,
            row + 1,
            column,
            c,
        )),
    decreases lines.len(),
{
    if lines.len() > 0 {
        let rest = lines.drop_last();
        let line = lines.last();
        lemma_rolled_chars(rest, above, row, column, c);
        assert(rest.push(line) =~= lines);
        lemma_one_more_line(rest, line, row + 1, column, c);
        lemma_one_more_line(
            super::rolled_lines(rest, above),
            LineView { no: line.no - 1, ..line },
            row,
            column,
            c,
        );
    }
}

proof fn lemma_moved_chars(lines: Seq<LineView>, diff: int, row: int, column: int, c: char)
    ensures
        has_char(super::moved_lines(lines, diff), row, column, c) == (0 <= row <= 14 && has_char(
            lines,
            row - diff,
            column,
            c,
        )),
    decreases lines.len(),
{
    if lines.len() > 0 {
        let rest = lines.drop_last();
        let line = lines.last();
        lemma_moved_chars(rest, diff, row, column, c);
        assert(rest.push(line) =~= lines);
        lemma_one_more_line(rest, line, row - diff, column, c);
        lemma_one_more_line(
            super::moved_lines(rest, diff),
            LineView { no: line.no + diff, ..line },
            row,
            column,
            c,
        );
    }
}

/// Where lines roll up, a carriage return moves what is shown up by one row, within the rows that
/// roll up, and the cursor to the first column. What was in the first of these rows is gone. In other
/// modes nothing changes.
pub proof fn law_carriage_return_rolls_up(frame: FrameView, row: int, column: int, c: char)
    requires
        frame.wf(),
    ensures
        ({
            let after = frame.run(CaptionCommand::CarriageReturn);
            let count = match frame.mode {
                Some(Cea608Mode::RollUp2) => 2int,
                Some(Cea608Mode::RollUp3) => 3,
                Some(Cea608Mode::RollUp4) => 4,
                _ => 0,
            };
            &&& count == 0 ==> after == frame
            &&& count > 0 ==> after.column == 0 && after.hidden == frame.hidden && after.base_row
                == frame.base_row
            &&& count > 0 && frame.base_row - count + 1 <= row ==> has_char(
                after.display,
                row,
                column,
                c,
            ) == has_char(frame.display, row + 1, column, c)
            &&& count > 0 && row < frame.base_row - count + 1 ==> !has_char(
                after.display,
                row,
                column,
                c,
            )
        }),
{
    if let Some(mode) = frame.mode {
        lemma_rolled_chars(frame.display, frame.base_row + 1 - mode.rows(), row, column, c);
    }
}

/// Where lines roll up, a preamble for another last row takes what is shown along: it keeps its
/// distance from the last row.
pub proof fn law_preamble_moves_rolling_lines(
    frame: FrameView,
    preamble: PreambleAddressCode,
    row: int,
    column: int,
    c: char,
)
    requires
        frame.wf(),
        crate::cea608::is_preamble(preamble),
        frame.rolls_up(),
        preamble.row + 1 >= (frame.mode->0).rows(),
        0 <= row <= 14,
    ensures
        ({
            let after = frame.run(CaptionCommand::Preamble(preamble));
            &&& after.base_row == preamble.row
            &&& after.hidden == frame.hidden
            &&& has_char(after.display, row, column, c) == has_char(
                frame.display,
                row - (preamble.row - frame.base_row),
                column,
                c,
            )
        }),
{
    lemma_moved_chars(frame.display, preamble.row - frame.base_row, row, column, c);
}

/// Erasing what is shown leaves an empty screen, and what is prepared as it was. Erasing what is
/// prepared does it the other way round.
pub proof fn law_screens_are_erased(frame: FrameView)
    ensures
        frame.run(CaptionCommand::EraseDisplay).display.len() == 0,
        frame.run(CaptionCommand::EraseDisplay).hidden == frame.hidden,
        frame.run(CaptionCommand::EraseDisplay).mode == frame.mode,
        frame.run(CaptionCommand::EraseNonDisplay).hidden.len() == 0,
        frame.run(CaptionCommand::EraseNonDisplay).display == frame.display,
        frame.run(CaptionCommand::EraseNonDisplay).mode == frame.mode,
{
}

/// The end of a caption shows what was prepared, and prepares on what was shown. Text is prepared
/// from then on.
pub proof fn law_caption_is_shown_at_its_end(frame: FrameView, row: int, column: int, c: char)
    requires
        frame.wf(),
    ensures
        ({
            let after = frame.run(CaptionCommand::EndOfCaption);
            &&& after.mode == Some(Cea608Mode::PopOn)
            &&& has_char(after.display, row, column, c) == has_char(frame.hidden, row, column, c)
            &&& has_char(after.hidden, row, column, c) == has_char(frame.display, row, column, c)
        }),
{
}

/// A backspace takes away what stands before the cursor, and nothing else.
pub proof fn law_backspace_takes_away(frame: FrameView, c: char)
    requires
        frame.wf(),
        frame.mode is Some,
        frame.column > 0,
    ensures
        ({
            let after = frame.run(CaptionCommand::Backspace);
            &&& after.column == frame.column - 1
            &&& !has_char(after.written(), frame.row, frame.column - 1, c)
            &&& forall|r: int, n: int, d: char|
                0 <= n && (r != frame.row || n != frame.column - 1) ==> #[trigger] has_char(
                    after.written(),
                    r,
                    n,
                    d,
                ) == has_char(frame.written(), r, n, d)
        }),
{
    lemma_put_cell(frame.written(), frame.row, frame.column - 1, Cea608Cell::Empty, None);
}

/// Deleting to the end of the row takes away what stands from the cursor on, and nothing else.
pub proof fn law_end_of_row_is_deleted(frame: FrameView, row: int, column: int, c: char)
    requires
        frame.wf(),
        frame.mode is Some,
        column >= 0,
    ensures
        ({
            let after = frame.run(CaptionCommand::DeleteToEndOfRow);
            has_char(after.written(), row, column, c) == (has_char(
                frame.written(),
                row,
                column,
                c,
            ) && !(row == frame.row && column >= frame.column))
        }),
{
    let lines = frame.written();
    let after = frame.run(CaptionCommand::DeleteToEndOfRow).written();
    super::lemma_line_index(lines, frame.row);
    let i = super::line_index(lines, frame.row);
    assert(after.len() == lines.len());
    assert forall|k: int| 0 <= k < lines.len() && k != i implies #[trigger] after[k]
        == lines[k] by {}
    assert forall|k: int| 0 <= k < lines.len() && #[trigger] lines[k].no == frame.row implies k
        == i by {
        if k != i && i < lines.len() {
            if i < k {
                assert(lines[i].no != lines[k].no);
            } else {
                assert(lines[k].no != lines[i].no);
            }
        }
    }
    if has_char(after, row, column, c) {
        let k = choose|k: int|
            0 <= k < after.len() && (#[trigger] after[k]).no == row && column < after[k].cells.len()
                && after[k].cells[column] == Cea608Cell::Char(c);
        assert(lines[k].no == row);
    }
    if has_char(lines, row, column, c) {
        let k = choose|k: int|
            0 <= k < lines.len() && (#[trigger] lines[k]).no == row && column < lines[k].cells.len()
                && lines[k].cells[column] == Cea608Cell::Char(c);
        assert(after[k].no == row);
    }
}

/// The change of a mode: lines that begin to roll up begin on an empty screen, in the last row.
/// Otherwise all text stays.
pub proof fn law_mode_is_chosen(frame: FrameView, mode: Cea608Mode)
    requires
        frame.wf(),
    ensures
        ({
            let after = frame.run(CaptionCommand::NewMode(mode));
            &&& after.mode == Some(mode)
            &&& frame.mode == Some(mode) ==> after == frame
            &&& mode.rolls_up() && !frame.rolls_up() ==> after.display.len() == 0
                && after.hidden.len() == 0 && after.base_row == 14 && after.column == 0
            &&& !(mode.rolls_up() && !frame.rolls_up()) ==> after.display == frame.display
                && after.hidden == frame.hidden
        }),
{
}

/// A mid-row code takes a column in the row of the cursor, and leaves all characters elsewhere.
pub proof fn law_midrow_takes_a_column(frame: FrameView, midrow: MidRow, c: char)
    requires
        frame.wf(),
        frame.mode is Some,
    ensures
        ({
            let after = frame.run(CaptionCommand::MidRowChange(midrow));
            &&& !has_char(after.written(), frame.row, frame.column, c)
            &&& frame.column < 31 ==> after.column == frame.column + 1
            &&& forall|r: int, n: int, d: char|
                0 <= n && (r != frame.row || n != frame.column) ==> #[trigger] has_char(
                    after.written(),
                    r,
                    n,
                    d,
                ) == has_char(frame.written(), r, n, d)
        }),
{
    lemma_put_cell(
        frame.written(),
        frame.row,
        frame.column,
        Cea608Cell::MidRow(midrow),
        None,
    );
}

/// Whatever changes what is shown is told to be a change.
pub proof fn law_change_is_told(frame: FrameView, command: CaptionCommand)
    requires
        frame.wf(),
        frame.run(command).display != frame.display,
    ensures
        frame.is_changed_by(command),
{
    if let CaptionCommand::Text(text) = command {
        if !frame.is_changed_by(command) {
            assert(frame.run(command).display =~= frame.display);
        }
    }
}

/// What a cell shows: its character, or a space.
pub open spec fn shown(cell: Cea608Cell) -> char {
    match cell {
        Cea608Cell::Char(c) => c,
        _ => ' ',
    }
}

proof fn lemma_cells_text(cells: Seq<Cea608Cell>, first: int, n: int)
    requires
        0 <= first < cells.len(),
        cells[first] matches Cea608Cell::Char(c) && c != ' ',
        forall|i: int| 0 <= i < first ==> !(#[trigger] cells[i] is Char),
        first < n <= cells.len(),
    ensures
        super::cells_text(cells, n) == Seq::new(
            (n - first) as nat,
            |i: int| shown(cells[first + i]),
        ),
    decreases n,
{
    let all = Seq::new((n - first) as nat, |i: int| shown(cells[first + i]));
    if n == first + 1 {
        lemma_no_text(cells, first);
        assert(super::cells_text(cells, n) =~= all);
    } else {
        lemma_cells_text(cells, first, n - 1);
        assert(super::shows_text(cells, n - 1)) by {
            assert(cells[first] is Char);
        }
        assert(super::cells_text(cells, n) =~= all);
    }
}

proof fn lemma_no_text(cells: Seq<Cea608Cell>, n: int)
    requires
        0 <= n <= cells.len(),
        forall|i: int| 0 <= i < n ==> !(#[trigger] cells[i] is Char),
    ensures
        super::cells_text(cells, n).len() == 0,
    decreases n,
{
    if n > 0 {
        lemma_no_text(cells, n - 1);
        assert(!(cells[n - 1] is Char));
    }
}

/// The text of a row is what its cells show from the first character on. A row without characters
/// has no text.
pub proof fn law_row_reads_as_its_cells(cells: Seq<Cea608Cell>, first: int)
    requires
        0 <= first <= cells.len(),
        first < cells.len() ==> (cells[first] matches Cea608Cell::Char(c) && c != ' '),
        forall|i: int| 0 <= i < first ==> !(#[trigger] cells[i] is Char),
    ensures
        super::cells_text(cells, cells.len() as int) == Seq::new(
            (cells.len() - first) as nat,
            |i: int| shown(cells[first + i]),
        ),
{
    if first < cells.len() {
        lemma_cells_text(cells, first, cells.len() as int);
    } else {
        lemma_no_text(cells, first);
        assert(super::cells_text(cells, cells.len() as int) =~= Seq::new(
            (cells.len() - first) as nat,
            |i: int| shown(cells[first + i]),
        ));
    }
}

/// The text of a screen is that of its lines in order, with line ends between them: a line more adds
/// a line end and its own text, and one line alone gives its text.
pub proof fn law_screen_reads_as_its_lines(lines: Seq<LineView>, line: LineView)
    ensures
        lines.len() == 0 ==> super::lines_text(lines.push(line), 1) == super::cells_text(
            line.cells,
            line.cells.len() as int,
        ),
        lines.len() > 0 ==> super::lines_text(lines.push(line), lines.len() as int + 1)
            == super::lines_text(lines, lines.len() as int) + seq!['\r', '\n'] + super::cells_text(
            line.cells,
            line.cells.len() as int,
        ),
        super::lines_text(Seq::<LineView>::empty(), 0).len() == 0,
{
    let all = lines.push(line);
    let n = lines.len() as int;
    lemma_same_lines(all, lines, n);
    assert(all[n] == line);
    assert(super::lines_text(all, n).push('\r').push('\n') =~= super::lines_text(all, n) + seq![
        '\r',
        '\n',
    ]);
    if n == 0 {
        assert(super::lines_text(all, 1) =~= super::cells_text(
            line.cells,
            line.cells.len() as int,
        ));
    }
}

proof fn lemma_same_lines(a: Seq<LineView>, b: Seq<LineView>, n: int)
    requires
        0 <= n <= a.len(),
        n <= b.len(),
        forall|i: int| 0 <= i < n ==> #[trigger] a[i] == b[i],
    ensures
        super::lines_text(a, n) == super::lines_text(b, n),
    decreases n,
{
    if n > 0 {
        lemma_same_lines(a, b, n - 1);
        assert(a[n - 1] == b[n - 1]);
    }
}

proof fn lemma_drawn_cells(
    was: super::Drawn,
    first: PreambleAddressCode,
    cells: Seq<Cea608Cell>,
    n: int,
)
    requires
        0 <= n <= cells.len(),
    ensures
        super::draw_cells(was, first, cells, n).0.text == was.text + Seq::new(
            n as nat,
            |i: int| shown(cells[i]),
        ),
    decreases n,
{
    let row = Seq::new(n as nat, |i: int| shown(cells[i]));
    if n > 0 {
        lemma_drawn_cells(was, first, cells, n - 1);
        let before = Seq::new((n - 1) as nat, |i: int| shown(cells[i]));
        assert(row =~= before.push(shown(cells[n - 1])));
        assert((was.text + before).push(shown(cells[n - 1])) =~= was.text + row);
    } else {
        assert(was.text + row =~= was.text);
    }
}

proof fn lemma_drawn_before(a: Seq<LineView>, b: Seq<LineView>, n: int, black: bool)
    requires
        0 <= n <= a.len(),
        n <= b.len(),
        forall|i: int| 0 <= i < n ==> #[trigger] a[i] == b[i],
    ensures
        super::draw_lines(a, n, black) == super::draw_lines(b, n, black),
    decreases n,
{
    if n > 0 {
        lemma_drawn_before(a, b, n - 1, black);
        assert(a[n - 1] == b[n - 1]);
        if n > 1 {
            assert(a[n - 2] == b[n - 2]);
        }
    }
}

/// The text that is drawn is that of all rows in order: each row but the first begins as many lines
/// below the one before it as it stands below it, and shows all its cells.
pub proof fn law_all_rows_are_drawn(lines: Seq<LineView>, line: LineView, black: bool)
    requires
        lines.len() > 0 ==> lines.last().no <= line.no,
    ensures
        ({
            let n = lines.len() as int;
            let below = if n == 0 {
                0
            } else {
                line.no - lines.last().no
            };
            &&& super::draw_lines(lines.push(line), n + 1, black).text == super::draw_lines(
                lines,
                n,
                black,
            ).text + Seq::new(below as nat, |i: int| '\n') + Seq::new(
                line.cells.len(),
                |i: int| shown(line.cells[i]),
            )
            &&& super::draw_lines(lines, 0, black).text.len() == 0
        }),
{
    let n = lines.len() as int;
    let all = lines.push(line);
    lemma_drawn_before(all, lines, n, black);
    assert(all[n] == line);
    let below = if n == 0 {
        0
    } else {
        assert(all[n - 1] == lines.last());
        line.no - lines.last().no
    };
    let d = super::draw_lines(all, n, black);
    let was = super::Drawn { text: d.text + super::newlines(below), ..d };
    let first = match line.initial {
        Some(p) => p,
        None => super::default_preamble(),
    };
    lemma_drawn_cells(was, first, line.cells, line.cells.len() as int);
    assert(super::newlines(below) =~= Seq::new(below as nat, |i: int| '\n'));
}

} // verus!
