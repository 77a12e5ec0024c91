//! What holds of timed text as a whole.
use super::{Cell, JsonView, Pieces, TimestampedView, COLUMNS, ROWS};
use crate::cea608::{
    CaptionCode, CaptionCommand, Cea608Mode, Channel, MidRow, PreambleAddressCode, PreambleType,
    Text,
};
use crate::cea608utils::TextStyle;
use crate::jsontovtt::laws::whole_line;
use crate::ttutils::{ChunkView, LineView};
use vstd::prelude::*;

verus! {

/// One character.
pub open spec fn one(c: char) -> Text {
    Text { needs_backspace: false, char1: Some(c), char2: None }
}

/// What a cell shows: its character, or a space.
pub open spec fn shown(cell: Cell) -> char {
    match cell {
        Cell::Char { c, .. } => c,
        Cell::Empty => ' ',
    }
}

/// Whether text begins in a column: there is text in it, and none before it.
pub open spec fn begins_at(cells: Seq<Cell>, first: int) -> bool {
    &&& 0 <= first < cells.len()
    &&& cells[first] is Char
    &&& forall|i: int| 0 <= i < first ==> #[trigger] cells[i] is Empty
}

/// Whether text ends in a column: there is text in it, and none behind it.
pub open spec fn ends_at(cells: Seq<Cell>, last: int) -> bool {
    &&& 0 <= last < cells.len()
    &&& cells[last] is Char
    &&& forall|i: int| last < i < cells.len() ==> #[trigger] cells[i] is Empty
}

/// The texts of pieces, one behind the other.
spec fn joined(chunks: Seq<ChunkView>) -> Seq<char>
    decreases chunks.len(),
{
    if chunks.len() == 0 {
        Seq::empty()
    } else {
        joined(chunks.drop_last()) + chunks.last().text
    }
}

proof fn lemma_joined(line: LineView)
    ensures
        joined(line.chunks) == whole_line(line),
    decreases line.chunks.len(),
{
    let parts = Seq::new(line.chunks.len(), |i: int| line.chunks[i].text);
    if line.chunks.len() > 0 {
        let less = LineView { chunks: line.chunks.drop_last(), ..line };
        lemma_joined(less);
        let before = Seq::new(less.chunks.len(), |i: int| less.chunks[i].text);
        before.lemma_flatten_and_flatten_alt_are_equivalent();
        parts.lemma_flatten_and_flatten_alt_are_equivalent();
        assert(parts.drop_last() =~= before);
    } else {
        assert(parts =~= Seq::<Seq<char>>::empty());
    }
}

/// All pieces so far.
spec fn all_pieces(p: Pieces) -> Seq<ChunkView> {
    match p.current {
        Some(chunk) => p.done.push(chunk),
        None => p.done,
    }
}

proof fn lemma_pieces(cells: Seq<Cell>, n: int)
    requires
        0 <= n <= cells.len(),
    ensures
        ({
            let p = super::pieces(cells, n);
            let text = joined(all_pieces(p));
            &&& p.indent >= 0
            &&& p.trailing >= 0
            &&& p.indent + text.len() + p.trailing == n
            &&& p.current is None ==> p.done.len() == 0 && p.trailing == 0
            &&& p.current is Some ==> text.len() > 0
            &&& forall|i: int| 0 <= i < p.indent ==> #[trigger] cells[i] is Empty
            &&& forall|i: int| n - p.trailing <= i < n ==> #[trigger] cells[i] is Empty
            &&& forall|i: int|
                0 <= i < text.len() ==> #[trigger] text[i] == shown(cells[p.indent + i])
            &&& p.current is Some ==> cells[p.indent] is Char && cells[n - p.trailing - 1] is Char
        }),
    decreases n,
{
    if n > 0 {
        lemma_pieces(cells, n - 1);
        let q = super::pieces(cells, n - 1);
        let p = super::pieces(cells, n);
        let was = joined(all_pieces(q));
        let text = joined(all_pieces(p));
        match (cells[n - 1], q.current) {
            (Cell::Char { c, style, underline }, Some(chunk)) => {
                assert(all_pieces(q).drop_last() =~= q.done);
                assert(all_pieces(p).drop_last() =~= p.done);
                if style != chunk.style || underline != chunk.underline || q.trailing > 0 {
                    assert(p.done =~= all_pieces(q));
                    assert(text =~= was + super::spaces(q.trailing).push(c));
                    assert forall|i: int| 0 <= i < text.len() implies #[trigger] text[i] == shown(
                        cells[p.indent + i],
                    ) by {
                        if i < was.len() {
                            assert(text[i] == was[i]);
                        } else if i < was.len() + q.trailing {
                            assert(cells[p.indent + i] is Empty);
                        }
                    }
                } else {
                    assert(text =~= was.push(c));
                }
            },
            (Cell::Char { c, style, underline }, None) => {
                assert(all_pieces(p).drop_last() =~= p.done);
                assert(joined(p.done) =~= Seq::<char>::empty());
                assert(text =~= seq![c]);
            },
            (Cell::Empty, Some(chunk)) => {},
            (Cell::Empty, None) => {
                assert(joined(p.done) =~= Seq::<char>::empty());
            },
        }
    }
}

/// The line for a row begins in the column of the first character, and its text is what the cells
/// show from there to the last character: gaps are spaces.
pub proof fn law_line_reads_as_the_row(cells: Seq<Cell>, row: u32, first: int, last: int)
    requires
        cells.len() == COLUMNS,
        begins_at(cells, first),
        ends_at(cells, last),
    ensures
        ({
            let line = super::line_of(cells, row);
            &&& line.row == Some(row)
            &&& line.column == Some(first as u32)
            &&& whole_line(line) == Seq::new(
                (last - first + 1) as nat,
                |i: int| shown(cells[first + i]),
            )
        }),
{
    let p = super::pieces(cells, cells.len() as int);
    let line = super::line_of(cells, row);
    lemma_pieces(cells, cells.len() as int);
    lemma_joined(line);
    assert(line.chunks =~= all_pieces(p));
    assert(cells[first] is Char && cells[last] is Char);
    if p.current is None {
        assert(cells[first] is Empty);
    }
    if p.indent < first {
        assert(cells[p.indent] is Empty);
    } else if p.indent > first {
        assert(cells[first] is Empty);
    }
    let end = cells.len() - p.trailing - 1;
    if end < last {
        assert(cells[last] is Empty);
    } else if end > last {
        assert(cells[end] is Empty);
    }
    assert(whole_line(line) =~= Seq::new(
        (last - first + 1) as nat,
        |i: int| shown(cells[first + i]),
    ));
}

/// Whether a piece looks as a cell does.
pub open spec fn looks_as(chunk: ChunkView, cell: Cell) -> bool {
    cell matches Cell::Char { style, underline, .. } && chunk.style == style && chunk.underline
        == underline
}

proof fn lemma_look_of_piece(cells: Seq<Cell>, n: int, k: int)
    requires
        0 <= n <= cells.len(),
        0 <= k < all_pieces(super::pieces(cells, n)).len(),
    ensures
        exists|i: int|
            0 <= i < n && #[trigger] looks_as(all_pieces(super::pieces(cells, n))[k], cells[i]),
    decreases n,
{
    if n > 0 {
        let was = all_pieces(super::pieces(cells, n - 1));
        let all = all_pieces(super::pieces(cells, n));
        if k < was.len() {
            lemma_look_of_piece(cells, n - 1, k);
            let i = choose|i: int| 0 <= i < n - 1 && #[trigger] looks_as(was[k], cells[i]);
            assert(looks_as(all[k], cells[i]));
        } else {
            assert(looks_as(all[k], cells[n - 1]));
        }
    }
}

proof fn lemma_look_of_cell(cells: Seq<Cell>, n: int, i: int)
    requires
        0 <= i < n <= cells.len(),
        cells[i] is Char,
    ensures
        exists|k: int|
            0 <= k < all_pieces(super::pieces(cells, n)).len() && #[trigger] looks_as(
                all_pieces(super::pieces(cells, n))[k],
                cells[i],
            ),
    decreases n,
{
    let was = all_pieces(super::pieces(cells, n - 1));
    let all = all_pieces(super::pieces(cells, n));
    if i < n - 1 {
        lemma_look_of_cell(cells, n - 1, i);
        let k = choose|k: int| 0 <= k < was.len() && #[trigger] looks_as(was[k], cells[i]);
        assert(looks_as(all[k], cells[i]));
    } else {
        assert(looks_as(all[all.len() - 1], cells[i]));
    }
}

/// Each piece of a line looks as one of the cells does.
pub proof fn law_piece_looks_as_a_cell(cells: Seq<Cell>, row: u32, k: int)
    requires
        0 <= k < super::line_of(cells, row).chunks.len(),
    ensures
        exists|i: int|
            0 <= i < cells.len() && #[trigger] looks_as(
                super::line_of(cells, row).chunks[k],
                cells[i],
            ),
{
    assert(super::line_of(cells, row).chunks =~= all_pieces(
        super::pieces(cells, cells.len() as int),
    ));
    lemma_look_of_piece(cells, cells.len() as int, k);
}

/// Each cell with a character looks as one of the pieces of the line does.
pub proof fn law_cell_looks_as_a_piece(cells: Seq<Cell>, row: u32, i: int)
    requires
        0 <= i < cells.len(),
        cells[i] is Char,
    ensures
        exists|k: int|
            0 <= k < super::line_of(cells, row).chunks.len() && #[trigger] looks_as(
                super::line_of(cells, row).chunks[k],
                cells[i],
            ),
{
    assert(super::line_of(cells, row).chunks =~= all_pieces(
        super::pieces(cells, cells.len() as int),
    ));
    lemma_look_of_cell(cells, cells.len() as int, i);
}

/// Whether lines tell of a row.
pub open spec fn tell_of(lines: Seq<LineView>, row: int) -> bool {
    exists|i: int| 0 <= i < lines.len() && (#[trigger] lines[i]).row == Some(row as u32)
}

proof fn lemma_row_comes_out(view: JsonView, row: int, col: int)
    requires
        view.wf(),
        0 <= row < ROWS,
        0 <= col < COLUMNS,
        view.rows[row] matches Some(cells) && cells[col] is Char,
    ensures
        view.drain(true).1 matches Some(t) && tell_of(t.lines.lines, row),
        view.drain(false).1 matches Some(t) && tell_of(t.lines.lines, row),
{
    super::law_no_row_is_lost(view.rows, ROWS as int, view.carriage_return, row);
    let lines = super::drained_lines(view.rows, ROWS as int, view.carriage_return).0;
    let i = choose|i: int|
        0 <= i < lines.len() && (#[trigger] lines[i]).chunks == super::line_of(
            view.rows[row]->0,
            row as u32,
        ).chunks && lines[i].row == Some(row as u32);
    assert(lines[i].row == Some(row as u32));
}

/// Text that comes after a preamble stands in the row of the preamble, beginning at its column, in
/// its color, in each mode. When the screen is taken as lines, one of them tells of this row.
pub proof fn law_text_goes_where_the_preamble_says(
    view: JsonView,
    preamble: PreambleAddressCode,
    c: char,
)
    requires
        view.wf(),
        view.mode is Some,
        crate::cea608::is_preamble(preamble),
    ensures
        ({
            let at = view.run(CaptionCommand::Preamble(preamble)).0;
            let after = at.run(CaptionCommand::Text(one(c))).0;
            let row = preamble.row as int;
            let col = match preamble.code {
                PreambleType::Indent(n) => n as int,
                _ => 0,
            };
            let style = match preamble.code {
                PreambleType::WhiteItalics => TextStyle::ItalicWhite,
                PreambleType::Indent(_) => TextStyle::White,
                PreambleType::Color(color) => crate::cea608utils::style_of_color(color),
            };
            &&& at.cursor.row == row
            &&& at.cursor.col == col
            &&& at.mode == view.mode
            &&& after.rows[row] matches Some(cells) && cells[col] == (Cell::Char {
                c,
                style,
                underline: preamble.underline,
            })
            &&& after.cursor.row == row
            &&& after.cursor.col == if col < 31 {
                col + 1
            } else {
                31
            }
            &&& after.drain(true).1 matches Some(t) && tell_of(t.lines.lines, row)
            &&& forall|r: int| 0 <= r < ROWS && r != row ==> #[trigger] after.rows[r] == at.rows[r]
            &&& forall|i: int|
                0 <= i < COLUMNS && i != col ==> #[trigger] (after.rows[row]->0)[i] == (
                at.rows[row]->0)[i]
        }),
{
    lemma_wf(view, CaptionCommand::Preamble(preamble));
    let at = view.run(CaptionCommand::Preamble(preamble)).0;
    lemma_wf(at, CaptionCommand::Text(one(c)));
    let after = at.run(CaptionCommand::Text(one(c))).0;
    let col = preamble.at_column() as int;
    assert(at.rows[preamble.row as int] is Some);
    lemma_row_comes_out(after, preamble.row as int, col);
}

/// A preamble in pop-on mode gives out nothing, and takes away no text that was written.
pub proof fn law_preamble_keeps_prepared_text(view: JsonView, preamble: PreambleAddressCode)
    requires
        view.wf(),
        view.mode == Some(Cea608Mode::PopOn),
        crate::cea608::is_preamble(preamble),
    ensures
        ({
            let (after, out) = view.run(CaptionCommand::Preamble(preamble));
            &&& out is None
            &&& after.pending == view.pending
            &&& forall|r: int|
                0 <= r < ROWS && view.rows[r] is Some ==> #[trigger] after.rows[r] == view.rows[r]
        }),
{
}

/// Texts that are written in pop-on mode after preambles for two rows both come out at the end of
/// the caption, each one with its row: at once where text is not held back, else once it is known
/// how long it lasts.
pub proof fn law_two_rows_come_out(
    view: JsonView,
    p: PreambleAddressCode,
    c: char,
    q: PreambleAddressCode,
    d: char,
)
    requires
        view.wf(),
        view.mode == Some(Cea608Mode::PopOn),
        crate::cea608::is_preamble(p),
        crate::cea608::is_preamble(q),
        p.row != q.row,
    ensures
        ({
            let v1 = view.run(CaptionCommand::Preamble(p)).0;
            let v2 = v1.run(CaptionCommand::Text(one(c))).0;
            let v3 = v2.run(CaptionCommand::Preamble(q)).0;
            let v4 = v3.run(CaptionCommand::Text(one(d))).0;
            let (v5, out) = v4.run(CaptionCommand::EndOfCaption);
            let shown = if view.unbuffered {
                out
            } else {
                v5.pending
            };
            &&& shown matches Some(t) && tell_of(t.lines.lines, p.row as int) && tell_of(
                t.lines.lines,
                q.row as int,
            ) && t.pts == view.current_pts
        }),
{
    let v1 = view.run(CaptionCommand::Preamble(p)).0;
    let v2 = v1.run(CaptionCommand::Text(one(c))).0;
    let v3 = v2.run(CaptionCommand::Preamble(q)).0;
    let v4 = v3.run(CaptionCommand::Text(one(d))).0;
    lemma_wf(view, CaptionCommand::Preamble(p));
    lemma_wf(v1, CaptionCommand::Text(one(c)));
    lemma_wf(v2, CaptionCommand::Preamble(q));
    lemma_wf(v3, CaptionCommand::Text(one(d)));
    law_text_goes_where_the_preamble_says(view, p, c);
    law_preamble_keeps_prepared_text(v2, q);
    law_text_goes_where_the_preamble_says(v2, q, d);
    assert(v3.rows[p.row as int] == v2.rows[p.row as int]);
    assert(v4.rows[p.row as int] == v3.rows[p.row as int]);
    let same = JsonView { first_pts: v4.current_pts, ..v4 };
    lemma_row_comes_out(same, p.row as int, p.at_column() as int);
    lemma_row_comes_out(same, q.row as int, q.at_column() as int);
    if !view.unbuffered {
        let held = JsonView { pending: None, ..same };
        lemma_row_comes_out(held, p.row as int, p.at_column() as int);
        lemma_row_comes_out(held, q.row as int, q.at_column() as int);
    }
}

/// What is prepared in pop-on mode is shown from the end of the caption to the end of the code that
/// erases it, and then goes out as it was.
pub proof fn law_popon_lasts_until_it_is_erased(
    view: JsonView,
    begin: u64,
    length: u64,
    pts: u64,
    duration: u64,
)
    requires
        view.wf(),
        view.mode == Some(Cea608Mode::PopOn),
        !view.unbuffered,
        begin <= pts + duration,
        pts + duration < u64::MAX,
        begin + length < u64::MAX,
    ensures
        ({
            let end = CaptionCode { channel: Channel::One, command: CaptionCommand::EndOfCaption };
            let erase = CaptionCode {
                channel: Channel::One,
                command: CaptionCommand::EraseDisplay,
            };
            let v = view.handle(end, Some(begin), Some(length)).0;
            let (after, out) = v.handle(erase, Some(pts), Some(duration));
            let lines = super::drained_lines(view.rows, ROWS as int, view.carriage_return).0;
            &&& lines.len() > 0 ==> (out matches Some(t) && t.lines.lines == lines && t.pts == Some(
                begin,
            ) && t.duration == Some((pts + duration - begin) as u64))
            &&& after.pending is None
            &&& after.clear == Some(true)
        }),
{
}

/// Where text is not held back by a mode, what is on screen goes out once it is erased. It began
/// with its first character and lasts until then, and the screen is empty.
pub proof fn law_shown_text_goes_out_when_erased(
    view: JsonView,
    pts: u64,
    duration: u64,
    row: int,
    col: int,
)
    requires
        view.wf(),
        view.mode is Some,
        view.mode != Some(Cea608Mode::PopOn),
        !view.unbuffered,
        view.first_pts matches Some(p) && p <= pts + duration,
        pts + duration < u64::MAX,
        0 <= row < ROWS,
        0 <= col < COLUMNS,
        view.rows[row] matches Some(cells) && cells[col] is Char,
    ensures
        ({
            let erase = CaptionCode {
                channel: Channel::One,
                command: CaptionCommand::EraseDisplay,
            };
            let (after, out) = view.handle(erase, Some(pts), Some(duration));
            &&& out matches Some(t) && tell_of(t.lines.lines, row) && t.pts == view.first_pts
                && t.duration == Some((pts + duration - view.first_pts->0) as u64)
            &&& forall|r: int| 0 <= r < ROWS ==> #[trigger] after.rows[r] is None
            &&& after.first_pts is None
            &&& after.clear == Some(true)
        }),
{
    let v = JsonView { current_pts: Some(pts), current_duration: Some(duration), ..view };
    lemma_row_comes_out(v, row, col);
}

proof fn lemma_moved(rows: Seq<Option<Seq<Cell>>>, from: int, to: int)
    requires
        1 <= from <= to <= rows.len(),
        rows[from - 1] is None,
    ensures
        ({
            let after = super::moved_rows(rows, from, to, -1);
            &&& after.len() == rows.len()
            &&& forall|i: int| from - 1 <= i < to - 1 ==> #[trigger] after[i] == rows[i + 1]
            &&& after[to - 1] is None
            &&& forall|i: int|
                0 <= i < rows.len() && (i < from - 1 || i >= to) ==> #[trigger] after[i] == rows[i]
        }),
    decreases to - from,
{
    if from < to {
        lemma_moved(rows, from, to - 1);
        let before = super::moved_rows(rows, from, to - 1, -1);
        let after = super::moved_rows(rows, from, to, -1);
        assert(before[to - 1] == rows[to - 1]);
        assert forall|i: int| from - 1 <= i < to - 1 implies #[trigger] after[i] == rows[i + 1] by {
            if i < to - 2 {
                assert(before[i] == rows[i + 1]);
            } else {
                assert(before[to - 2] is None);
            }
        }
        assert forall|i: int|
            0 <= i < rows.len() && (i < from - 1 || i >= to) implies #[trigger] after[i]
            == rows[i] by {
            assert(before[i] == rows[i]);
        }
    }
}

/// Where lines roll up and go out as they come, a carriage return moves each row that rolls up by
/// one, empties the row of the cursor, and gives out what is on screen then.
pub proof fn law_lines_roll_up(view: JsonView, mode: Cea608Mode, row: int)
    requires
        view.wf(),
        view.mode == Some(mode),
        mode.rolls_up(),
        view.unbuffered,
        0 <= row < ROWS,
    ensures
        ({
            let (after, out) = view.run(CaptionCommand::CarriageReturn);
            let count = match mode {
                Cea608Mode::RollUp2 => 2int,
                Cea608Mode::RollUp3 => 3,
                _ => 4,
            };
            let last = view.cursor.row as int;
            let first = if last - count + 1 >= 0 {
                last - count + 1
            } else {
                0
            };
            &&& first <= row < last ==> after.rows[row] == view.rows[row + 1]
            &&& row == last ==> after.rows[row] == Some(super::empty_cells())
            &&& row < first || row > last ==> after.rows[row] == view.rows[row]
            &&& after.cursor == view.cursor
            &&& (first <= row < last && (view.rows[row + 1] matches Some(cells)
                && !super::is_blank(cells))) ==> (out matches Some(t) && tell_of(
                t.lines.lines,
                row,
            ))
        }),
{
    let top = super::top_row(view.cursor.row, mode);
    let last = view.cursor.row as int;
    let cleared = view.rows.update(top, None);
    lemma_moved(cleared, top + 1, last + 1);
    let (after, out) = view.run(CaptionCommand::CarriageReturn);
    if top <= row < last && (view.rows[row + 1] matches Some(cells) && !super::is_blank(cells)) {
        let rolled = view.rolled_up(mode);
        assert(rolled.rows[row] == view.rows[row + 1]);
        super::law_no_row_is_lost(rolled.rows, ROWS as int, rolled.carriage_return, row);
    }
}

/// Where lines roll up and are held back, a carriage return gives out the line that was written, and
/// the next line tells that it came behind a carriage return.
pub proof fn law_line_goes_out_at_its_end(view: JsonView, mode: Cea608Mode, row: int, col: int)
    requires
        view.wf(),
        view.mode == Some(mode),
        mode.rolls_up(),
        !view.unbuffered,
        0 <= row < ROWS,
        0 <= col < COLUMNS,
        view.rows[row] matches Some(cells) && cells[col] is Char,
    ensures
        ({
            let (after, out) = view.run(CaptionCommand::CarriageReturn);
            &&& out matches Some(t) && tell_of(t.lines.lines, row) && t.pts == view.first_pts
                && t.lines.mode == Some(mode)
            &&& after.carriage_return == Some(true)
            &&& forall|r: int| 0 <= r < ROWS ==> #[trigger] after.rows[r] is None
        }),
{
    lemma_row_comes_out(view, row, col);
}

/// The first character that is shown at once tells when text begins. Those that follow do not
/// change that.
pub proof fn law_text_begins_with_its_first_character(
    view: JsonView,
    c: char,
    pts: u64,
    duration: u64,
)
    requires
        view.wf(),
        view.mode is Some,
        view.mode != Some(Cea608Mode::PopOn),
        !view.unbuffered,
        view.rows[view.cursor.row as int] is Some,
        pts + duration < u64::MAX,
    ensures
        ({
            let code = CaptionCode { channel: Channel::One, command: CaptionCommand::Text(one(c)) };
            let (after, out) = view.handle(code, Some(pts), Some(duration));
            &&& view.first_pts is None ==> after.first_pts == Some(pts)
            &&& view.first_pts is Some ==> after.first_pts == view.first_pts
            &&& out is None
        }),
{
}

/// Another mode takes what is on screen, or what was held back in pop-on mode. Where lines begin to
/// roll up, the cursor goes to the beginning of the last row.
pub proof fn law_another_mode_takes_the_text(view: JsonView, mode: Cea608Mode, row: int, col: int)
    requires
        view.wf(),
        view.mode is Some,
        view.mode != Some(mode),
        0 <= row < ROWS,
        0 <= col < COLUMNS,
    ensures
        ({
            let (after, out) = view.run(CaptionCommand::NewMode(mode));
            &&& after.mode == Some(mode)
            &&& view.mode == Some(Cea608Mode::PopOn) ==> after.pending is None && (match (
                view.pending,
                out,
            ) {
                (Some(p), Some(t)) => t.lines == p.lines && t.pts == p.pts,
                (None, None) => true,
                _ => false,
            })
            &&& view.mode != Some(Cea608Mode::PopOn) && (view.rows[row] matches Some(cells)
                && cells[col] is Char) ==> (out matches Some(t) && tell_of(t.lines.lines, row))
            &&& mode.rolls_up() && !(view.mode->0).rolls_up() ==> after.cursor.row == 14
                && after.cursor.col == 0 && after.rows[14] is Some
        }),
{
    if view.mode != Some(Cea608Mode::PopOn) && (view.rows[row] matches Some(cells) && cells[col]
        is Char) {
        lemma_row_comes_out(view, row, col);
    }
}

/// A mid-row code takes a column, and text behind it looks as the code says. A tab offset moves the
/// cursor by that many columns, but not off the screen. A backspace takes the cursor back.
pub proof fn law_cursor_moves(view: JsonView, midrow: MidRow, n: u8, c: char)
    requires
        view.wf(),
        view.mode is Some,
        view.rows[view.cursor.row as int] is Some,
        1 <= n <= 3,
    ensures
        ({
            let m = view.run(CaptionCommand::MidRowChange(midrow)).0;
            let t = view.run(CaptionCommand::TabOffset(n)).0;
            let b = view.run(CaptionCommand::Backspace).0;
            &&& m.cursor.row == view.cursor.row
            &&& view.cursor.col < 31 ==> m.cursor.col == view.cursor.col + 1
            &&& m.cursor.underline == midrow.underline
            &&& midrow.color is None ==> m.cursor.style == TextStyle::ItalicWhite
            &&& midrow.color matches Some(color) ==> m.cursor.style
                == crate::cea608utils::style_of_color(color)
            &&& m.rows[view.cursor.row as int] matches Some(cells) && cells[view.cursor.col as int]
                == Cell::Empty
            &&& view.cursor.col + n <= 31 ==> t.cursor.col == view.cursor.col + n
            &&& view.cursor.col + n > 31 ==> t.cursor.col == 31
            &&& t.rows == view.rows
            &&& view.cursor.col > 0 ==> b.cursor.col == view.cursor.col - 1
            &&& view.cursor.col > 0 ==> (b.rows[view.cursor.row as int] matches Some(cells)
                && cells[view.cursor.col as int] == Cell::Empty)
        }),
{
}

/// What is for the second channel changes nothing but the time.
pub proof fn law_second_channel_is_ignored(
    view: JsonView,
    command: CaptionCommand,
    pts: Option<u64>,
    duration: Option<u64>,
)
    ensures
        view.handle(CaptionCode { channel: Channel::Two, command }, pts, duration) == (
            JsonView { current_pts: pts, current_duration: duration, ..view },
            None::<TimestampedView>,
        ),
{
}

/// What was prepared in pop-on mode is gone once it is erased, and is not shown. Otherwise nothing is
/// prepared.
pub proof fn law_prepared_text_is_erased(view: JsonView, row: int)
    requires
        view.wf(),
        0 <= row < ROWS,
    ensures
        ({
            let (after, out) = view.run(CaptionCommand::EraseNonDisplay);
            &&& out is None
            &&& after.pending == view.pending
            &&& view.mode == Some(Cea608Mode::PopOn) ==> after.rows[row] is None
            &&& view.mode != Some(Cea608Mode::PopOn) ==> after == view
        }),
{
}

proof fn lemma_moved_rows(rows: Seq<Option<Seq<Cell>>>, from: int, to: int, diff: int)
    requires
        0 <= from,
        to <= rows.len(),
        to + diff <= rows.len(),
        forall|i: int|
            0 <= i < rows.len() ==> (#[trigger] rows[i] matches Some(cells) ==> cells.len()
                == COLUMNS),
    ensures
        ({
            let after = super::moved_rows(rows, from, to, diff);
            &&& after.len() == rows.len()
            &&& forall|i: int|
                0 <= i < rows.len() ==> (#[trigger] after[i] matches Some(cells) ==> cells.len()
                    == COLUMNS)
        }),
    decreases to - from,
{
    if from < to {
        lemma_moved_rows(rows, from, to - 1, diff);
        let before = super::moved_rows(rows, from, to - 1, diff);
        assert(before[to - 1] matches Some(cells) ==> cells.len() == COLUMNS);
    }
}

proof fn lemma_wf(view: JsonView, command: CaptionCommand)
    requires
        view.wf(),
        view.mode is Some,
        crate::cea608::is_command(command),
        command is Preamble || command is Text,
    ensures
        view.run(command).0.wf(),
        view.run(command).0.mode == view.mode,
        view.run(command).0.unbuffered == view.unbuffered,
        view.run(command).0.current_pts == view.current_pts,
{
    let after = view.run(command).0;
    if let CaptionCommand::Preamble(preamble) = command {
        if let Some(mode) = view.mode {
            if view.unbuffered && mode.rolls_up() && view.cursor.row != preamble.row {
                lemma_moved_rows(
                    view.rows,
                    super::top_row(view.cursor.row, mode),
                    view.cursor.row as int,
                    preamble.row - view.cursor.row,
                );
            }
        }
        assert(after.cursor.row <= 14 && after.cursor.col <= 31);
        assert(after.rows.len() == ROWS);
        assert forall|i: int| 0 <= i < ROWS implies (#[trigger] after.rows[i] matches Some(cells)
            ==> cells.len() == COLUMNS) by {}
    }
    if let CaptionCommand::Text(text) = command {
        let v1 = if text.needs_backspace {
            view.backspace()
        } else {
            view
        };
        assert(v1.wf()) by {
            assert(view.rows[view.cursor.row as int] matches Some(cells) ==> cells.len()
                == COLUMNS);
        }
        let begins = (text.char1 is Some || text.char2 is Some) && view.first_pts is None
            && view.mode is Some && view.mode != Some(Cea608Mode::PopOn);
        let v2 = JsonView {
            first_pts: if begins {
                view.current_pts
            } else {
                view.first_pts
            },
            ..v1
        };
        assert(v2.wf());
        lemma_push_char(v2, text.char1);
        lemma_push_char(v2.push_char(text.char1), text.char2);
    }
}

spec fn are_rows(rows: Seq<Option<Seq<Cell>>>) -> bool {
    rows.len() == ROWS && forall|i: int|
        0 <= i < ROWS ==> (#[trigger] rows[i] matches Some(cells) ==> cells.len() == COLUMNS)
}

proof fn lemma_update_rows(rows: Seq<Option<Seq<Cell>>>, row: int, col: int, cell: Cell)
    requires
        are_rows(rows),
        0 <= row < ROWS,
        0 <= col < COLUMNS,
        rows[row] is Some,
    ensures
        are_rows(rows.update(row, Some((rows[row]->0).update(col, cell)))),
{
    let cells = rows[row]->0;
    assert(cells.len() == COLUMNS);
    let after = rows.update(row, Some(cells.update(col, cell)));
    assert forall|i: int| 0 <= i < ROWS implies (#[trigger] after[i] matches Some(cells)
        ==> cells.len() == COLUMNS) by {
        assert(rows[i] matches Some(cells) ==> cells.len() == COLUMNS);
    }
}

proof fn lemma_push_one(view: JsonView, c: char)
    requires
        view.wf(),
    ensures
        view.push_char(Some(c)).wf(),
{
    let row = view.cursor.row as int;
    assert(are_rows(view.rows));
    if view.rows[row] is Some {
        lemma_update_rows(
            view.rows,
            row,
            view.cursor.col as int,
            Cell::Char { c, style: view.cursor.style, underline: view.cursor.underline },
        );
        assert(are_rows(view.push_char(Some(c)).rows));
    }
}

proof fn lemma_push_char(view: JsonView, c: Option<char>)
    requires
        view.wf(),
    ensures
        view.push_char(c).wf(),
{
    if let Some(ch) = c {
        lemma_push_one(view, ch);
    }
}

/// Text that goes out after the screen was erased tells of that, once, and of the mode. Where text is
/// not held back it has the time of the code that made it go out.
pub proof fn law_next_text_tells_of_the_erasure(view: JsonView, row: int, col: int, flush: bool)
    requires
        view.wf(),
        0 <= row < ROWS,
        0 <= col < COLUMNS,
        view.rows[row] matches Some(cells) && cells[col] is Char,
    ensures
        ({
            let (after, out) = view.drain(flush);
            &&& out matches Some(t) && tell_of(t.lines.lines, row) && t.lines.clear == view.clear
                && t.lines.mode == view.mode && (view.unbuffered ==> t.pts == view.current_pts
                && t.duration == view.current_duration) && (!view.unbuffered ==> t.pts
                == view.first_pts)
            &&& after.clear is None
            &&& flush ==> forall|r: int| 0 <= r < ROWS ==> #[trigger] after.rows[r] is None
            &&& !flush ==> after.rows == view.rows
        }),
{
    lemma_row_comes_out(view, row, col);
}

} // verus!
