//! What a terminal shows after each sequence, cell by cell.
use vstd::prelude::*;
use crate::session::text::{
    blank_row, cut, row_moved, rows_moved, trimmed_rows, ActionView, HistoryView, ScreenView,
    TextView,
};
use crate::strings::{drop_empty_end, join, trim_end};

verus! {

// === What is on the screen ===

/// The cells that are shown: those of the alternate screen while it is shown.
pub open spec fn cells_of(t: TextView) -> Seq<Seq<char>> {
    if t.screen.in_alt {
        t.screen.alt_cells
    } else {
        t.screen.cells
    }
}

/// The row and the column of the cursor that is shown.
pub open spec fn cursor_of(t: TextView) -> (int, int) {
    if t.screen.in_alt {
        t.screen.alt_cursor
    } else {
        t.screen.cursor
    }
}

/// Whether nothing changed but, where it is said so, the cells that are shown, the cursor that is
/// shown and the history.
pub open spec fn changes_only(
    before: TextView,
    after: TextView,
    cells: bool,
    cursor: bool,
    history: bool,
) -> bool {
    let b = before.screen;
    let a = after.screen;
    &&& after.fed == before.fed
    &&& a.rows == b.rows
    &&& a.cols == b.cols
    &&& a.in_alt == b.in_alt
    &&& a.saved == b.saved
    &&& a.top == b.top
    &&& a.bottom == b.bottom
    &&& a.saved_cursor == b.saved_cursor
    &&& history || after.history == before.history
    &&& b.in_alt ==> a.cells == b.cells && a.cursor == b.cursor
    &&& !b.in_alt ==> a.alt_cells == b.alt_cells && a.alt_cursor == b.alt_cursor
    &&& cells || cells_of(after) == cells_of(before)
    &&& cursor || cursor_of(after) == cursor_of(before)
}

/// The last row or column of so many, or a smaller one.
pub open spec fn at_most_last(i: int, size: int) -> int {
    if i < size {
        i
    } else if size > 0 {
        size - 1
    } else {
        0
    }
}

pub open spec fn at_least_first(i: int) -> int {
    if i > 0 {
        i
    } else {
        0
    }
}

/// The first number of a control sequence; one if it is left out or zero.
pub open spec fn count_of(params: Seq<Seq<u16>>) -> int {
    if params.len() > 0 && params[0].len() > 0 && params[0][0] > 0 {
        params[0][0] as int
    } else {
        1
    }
}

/// The first number of a control sequence; zero if it is left out.
pub open spec fn choice_of(params: Seq<Seq<u16>>) -> int {
    if params.len() > 0 && params[0].len() > 0 {
        params[0][0] as int
    } else {
        0
    }
}

/// The second number of a control sequence; one if it is left out or zero.
pub open spec fn second_of(params: Seq<Seq<u16>>) -> int {
    if params.len() > 1 && params[1].len() > 0 && params[1][0] > 0 {
        params[1][0] as int
    } else {
        1
    }
}

pub open spec fn csi(params: Seq<Seq<u16>>, action: char) -> ActionView {
    ActionView::Csi { params, intermediates: Seq::empty(), action }
}

pub open spec fn escape(byte: u8) -> ActionView {
    ActionView::Esc { intermediates: Seq::empty(), byte }
}

/// The cursor goes to a place and nothing else changes.
pub open spec fn moves_to(t: TextView, action: ActionView, row: int, col: int) -> bool {
    &&& changes_only(t, t.perform(action), false, true, false)
    &&& cursor_of(t.perform(action)) == (
        at_most_last(row, t.screen.rows),
        at_most_last(col, t.screen.cols),
    )
}

// === Moving the cursor ===

/// CSI A, B, C and D move the cursor up, down, right and left by so many cells, E and F to the
/// start of a row so many below or above, and all stop at the edge of the screen. Each of e and a
/// does as B and C do.
pub proof fn law_the_cursor_moves_by(t: TextView, params: Seq<Seq<u16>>)
    requires
        t.wf(),
    ensures
        ({
            let (row, col) = cursor_of(t);
            let n = count_of(params);
            &&& moves_to(t, csi(params, 'A'), at_least_first(row - n), col)
            &&& moves_to(t, csi(params, 'B'), row + n, col)
            &&& moves_to(t, csi(params, 'e'), row + n, col)
            &&& moves_to(t, csi(params, 'C'), row, col + n)
            &&& moves_to(t, csi(params, 'a'), row, col + n)
            &&& moves_to(t, csi(params, 'D'), row, at_least_first(col - n))
            &&& moves_to(t, csi(params, 'E'), row + n, 0)
            &&& moves_to(t, csi(params, 'F'), at_least_first(row - n), 0)
        }),
{
}

/// CSI H and f put the cursor in a row and a column, d in a row, G and ` in a column, all counted
/// from one.
pub proof fn law_the_cursor_moves_to(t: TextView, params: Seq<Seq<u16>>)
    requires
        t.wf(),
    ensures
        ({
            let (row, col) = cursor_of(t);
            let n = count_of(params) - 1;
            &&& moves_to(t, csi(params, 'H'), n, second_of(params) - 1)
            &&& moves_to(t, csi(params, 'f'), n, second_of(params) - 1)
            &&& moves_to(t, csi(params, 'd'), n, col)
            &&& moves_to(t, csi(params, 'G'), row, n)
            &&& moves_to(t, csi(params, '`'), row, n)
        }),
{
}

/// A backspace goes one column to the left, a tab to the next multiple of eight, and a carriage
/// return to the first column. Other control characters but a line feed do nothing.
pub proof fn law_control_characters(t: TextView, byte: u8)
    requires
        t.wf(),
    ensures
        ({
            let (row, col) = cursor_of(t);
            &&& byte == 8 ==> moves_to(t, ActionView::Execute(byte), row, at_least_first(col - 1))
            &&& byte == 9 ==> moves_to(t, ActionView::Execute(byte), row, col + 8 - col % 8)
            &&& byte == 13 ==> moves_to(t, ActionView::Execute(byte), row, 0)
            &&& byte != 8 && byte != 9 && byte != 10 && byte != 13 ==> t.perform(
                ActionView::Execute(byte),
            ) == t
        }),
{
}

/// CSI s and ESC 7 note where the cursor is; CSI u and ESC 8 put it there again, and do nothing
/// where nothing was noted.
pub proof fn law_the_cursor_is_saved(t: TextView, params: Seq<Seq<u16>>)
    requires
        t.wf(),
    ensures
        ({
            let noted = TextView {
                screen: ScreenView {
                    saved_cursor: Some(cursor_of(t)),
                    ..t.screen
                },
                ..t
            };
            &&& t.perform(csi(params, 's')) == noted
            &&& t.perform(escape(0x37)) == noted
            &&& match t.screen.saved_cursor {
                Some((row, col)) => moves_to(t, csi(params, 'u'), row, col) && moves_to(
                    t,
                    escape(0x38),
                    row,
                    col,
                ),
                None => t.perform(csi(params, 'u')) == t && t.perform(escape(0x38)) == t,
            }
        }),
{
}

// === Drawing and erasing ===

/// Whether the cells that are shown are, at each place, what a function gives for that place.
pub open spec fn each_cell(t: TextView, cell: spec_fn(int, int) -> char) -> bool {
    let cells = cells_of(t);
    forall|r: int, c: int|
        0 <= r < cells.len() && 0 <= c < cells[r].len() ==> #[trigger] cells[r][c] == cell(r, c)
}

/// Whether two terminals show as many cells.
pub open spec fn same_extent(a: TextView, b: TextView) -> bool {
    let x = cells_of(a);
    let y = cells_of(b);
    &&& x.len() == y.len()
    &&& forall|r: int| 0 <= r < x.len() ==> (#[trigger] x[r]).len() == y[r].len()
}

/// A character is drawn where the cursor is, which then moves on by one column and stays in the
/// last one. No other cell changes.
pub proof fn law_a_character_is_drawn(t: TextView, c: char)
    requires
        t.wf(),
        t.has_cells(),
        cursor_of(t).0 <= t.screen.bottom,
    ensures
        ({
            let after = t.perform(ActionView::Print(c));
            let (row, col) = cursor_of(t);
            let old_cells = cells_of(t);
            &&& changes_only(t, after, true, true, false)
            &&& same_extent(after, t)
            &&& each_cell(
                after,
                |r: int, k: int|
                    if r == row && k == col {
                        c
                    } else {
                        old_cells[r][k]
                    },
            )
            &&& cursor_of(after) == (row, at_most_last(col + 1, t.screen.cols))
        }),
{
    let (row, col) = cursor_of(t);
    assert(cells_of(t)[row].len() == t.screen.cols);
}

/// Below the rows that scroll, a character makes them scroll and is drawn in the last of them.
pub proof fn law_a_character_below_the_region_scrolls_it(t: TextView, c: char)
    requires
        t.wf(),
        t.has_cells(),
        cursor_of(t).0 > t.screen.bottom,
    ensures
        ({
            let after = t.perform(ActionView::Print(c));
            let bottom = t.screen.bottom;
            let col = cursor_of(t).1;
            let (top, old_cells) = (t.screen.top, cells_of(t));
            &&& changes_only(t, after, true, true, true)
            &&& same_extent(after, t)
            &&& each_cell(
                after,
                |r: int, k: int|
                    if r == bottom && k == col {
                        c
                    } else if r == bottom {
                        ' '
                    } else if top <= r < bottom {
                        old_cells[r + 1][k]
                    } else {
                        old_cells[r][k]
                    },
            )
            &&& cursor_of(after) == (bottom, at_most_last(col + 1, t.screen.cols))
            &&& after.history == t.perform(csi(seq![seq![1u16]], 'S')).history
        }),
{
    law_scrolling_up(t, 1);
    let up = t.perform(csi(seq![seq![1u16]], 'S'));
    assert(cells_of(up)[t.screen.bottom].len() == t.screen.cols);
    assert(cells_of(t)[0].len() == t.screen.cols);
    reveal_with_fuel(TextView::scroll_up_by, 2);
}

/// CSI J blanks, on the screen that is shown, the main one or the alternate one, the cells from
/// the cursor on (0), up to the cursor (1) or all of them (2). All other cells stay. The cursor
/// stays. Only where all of the main screen is erased something goes to the history.
pub proof fn law_the_display_is_erased(t: TextView, params: Seq<Seq<u16>>)
    requires
        t.wf(),
        t.has_cells(),
    ensures
        ({
            let after = t.perform(csi(params, 'J'));
            let mode = choice_of(params);
            let (row, col) = cursor_of(t);
            let old_cells = cells_of(t);
            &&& changes_only(t, after, true, false, mode == 2 && !t.screen.in_alt)
            &&& same_extent(after, t)
            &&& each_cell(
                after,
                |r: int, c: int|
                    if mode == 0 && (r > row || r == row && c >= col) || mode == 1 && (r < row || r
                        == row && c <= col) || mode == 2 {
                        ' '
                    } else {
                        old_cells[r][c]
                    },
            )
        }),
{
    let (row, col) = cursor_of(t);
    let old_cells = cells_of(t);
    assert forall|r: int| 0 <= r < old_cells.len() implies (#[trigger] old_cells[r]).len()
        == t.screen.cols by {}
    if choice_of(params) == 2 && !t.screen.in_alt {
        lemma_rows_go_to_history(t, (row + 1) as nat);
    }
}

proof fn lemma_rows_go_to_history(t: TextView, n: nat)
    ensures
        t.rows_to_history(n).screen == t.screen,
        t.rows_to_history(n).fed == t.fed,
    decreases n,
{
    if n > 0 {
        lemma_rows_go_to_history(t, (n - 1) as nat);
    }
}

/// After all of the display was erased, nothing is shown.
pub proof fn law_an_erased_display_shows_nothing(t: TextView, params: Seq<Seq<u16>>)
    requires
        t.wf(),
        t.has_cells(),
        choice_of(params) == 2,
    ensures
        t.perform(csi(params, 'J')).screen_text() == Seq::<char>::empty(),
{
    law_the_display_is_erased(t, params);
    let after = t.perform(csi(params, 'J'));
    lemma_blank_screen_shows_nothing(after);
}

proof fn lemma_blank_screen_shows_nothing(t: TextView)
    requires
        t.screen.rows <= cells_of(t).len(),
        0 <= t.screen.rows,
        each_cell(t, |r: int, c: int| ' '),
    ensures
        t.screen_text() == Seq::<char>::empty(),
{
    let cells = cells_of(t);
    let lines = trimmed_rows(t.screen.shown());
    assert forall|i: int| 0 <= i < lines.len() implies (#[trigger] lines[i]).len() == 0 by {
        let row = cells[i];
        assert forall|c: int| 0 <= c < row.len() implies #[trigger] row[c] == ' ' by {
            assert(cells[i][c] == ' ');
        }
        lemma_trim_spaces(row);
    }
    lemma_drop_all_empty(lines);
}

proof fn lemma_trim_spaces(row: Seq<char>)
    requires
        forall|c: int| 0 <= c < row.len() ==> #[trigger] row[c] == ' ',
    ensures
        trim_end(row).len() == 0,
    decreases row.len(),
{
    if row.len() > 0 {
        assert(row[row.len() - 1] == ' ');
        assert forall|c: int| 0 <= c < row.drop_last().len() implies #[trigger] row.drop_last()[c]
            == ' ' by {
            assert(row[c] == ' ');
        }
        lemma_trim_spaces(row.drop_last());
    }
}

proof fn lemma_drop_all_empty(lines: Seq<Seq<char>>)
    requires
        forall|i: int| 0 <= i < lines.len() ==> (#[trigger] lines[i]).len() == 0,
    ensures
        drop_empty_end(lines) == Seq::<Seq<char>>::empty(),
    decreases lines.len(),
{
    if lines.len() > 0 {
        assert(lines[lines.len() - 1].len() == 0);
        assert forall|i: int| 0 <= i < lines.drop_last().len() implies (
        #[trigger] lines.drop_last()[i]).len() == 0 by {
            assert(lines[i].len() == 0);
        }
        lemma_drop_all_empty(lines.drop_last());
    }
}

/// CSI K blanks, in the row of the cursor, the cells from the cursor on (0), up to the cursor (1)
/// or all of them (2). CSI X blanks so many from the cursor on. No other cell changes.
pub proof fn law_a_line_is_erased(t: TextView, params: Seq<Seq<u16>>)
    requires
        t.wf(),
        t.has_cells(),
    ensures
        ({
            let after = t.perform(csi(params, 'K'));
            let mode = choice_of(params);
            let (row, col) = cursor_of(t);
            let old_cells = cells_of(t);
            &&& changes_only(t, after, true, false, false)
            &&& same_extent(after, t)
            &&& each_cell(
                after,
                |r: int, c: int|
                    if r == row && (mode == 0 && c >= col || mode == 1 && c <= col || mode == 2) {
                        ' '
                    } else {
                        old_cells[r][c]
                    },
            )
        }),
        ({
            let after = t.perform(csi(params, 'X'));
            let (row, col) = cursor_of(t);
            let n = count_of(params);
            let old_cells = cells_of(t);
            &&& changes_only(t, after, true, false, false)
            &&& same_extent(after, t)
            &&& each_cell(
                after,
                |r: int, c: int|
                    if r == row && col <= c < col + n {
                        ' '
                    } else {
                        old_cells[r][c]
                    },
            )
        }),
{
    let (row, col) = cursor_of(t);
    assert(cells_of(t)[row].len() == t.screen.cols);
}

/// CSI @ puts blanks in at the cursor and moves the rest of the row to the right; CSI P takes cells
/// out there and moves the rest to the left, with blanks behind it.
pub proof fn law_cells_are_put_in_and_taken_out(t: TextView, params: Seq<Seq<u16>>)
    requires
        t.wf(),
        t.has_cells(),
    ensures
        ({
            let after = t.perform(csi(params, '@'));
            let (row, col) = cursor_of(t);
            let n = count_of(params);
            let old_cells = cells_of(t);
            &&& changes_only(t, after, true, false, false)
            &&& same_extent(after, t)
            &&& each_cell(
                after,
                |r: int, c: int|
                    if r == row && c >= col + n {
                        old_cells[r][c - n]
                    } else if r == row && c >= col {
                        ' '
                    } else {
                        old_cells[r][c]
                    },
            )
        }),
        ({
            let after = t.perform(csi(params, 'P'));
            let (row, col) = cursor_of(t);
            let n = count_of(params);
            let old_cells = cells_of(t);
            &&& changes_only(t, after, true, false, false)
            &&& same_extent(after, t)
            &&& each_cell(
                after,
                |r: int, c: int|
                    if r == row && c >= col && c + n < t.screen.cols {
                        old_cells[r][c + n]
                    } else if r == row && c >= col {
                        ' '
                    } else {
                        old_cells[r][c]
                    },
            )
        }),
{
    let (row, col) = cursor_of(t);
    assert(cells_of(t)[row].len() == t.screen.cols);
}

// === Scrolling ===

/// Rows that moved up or down within a region of the screen, with blank rows where others left.
/// Row `r` shows what row `r + by` showed, as far as that is in the region.
pub open spec fn rows_shifted(
    before: TextView,
    after: TextView,
    first: int,
    last: int,
    by: int,
) -> bool {
    let old_cells = cells_of(before);
    &&& same_extent(after, before)
    &&& each_cell(
        after,
        |r: int, c: int|
            if r < first || r > last {
                old_cells[r][c]
            } else if first <= r + by <= last {
                old_cells[r + by][c]
            } else {
                ' '
            },
    )
}

proof fn lemma_scroll_once(t: TextView)
    requires
        t.wf(),
        t.has_cells(),
    ensures
        rows_shifted(t, t.scroll_up(), t.screen.top, t.screen.bottom, 1),
        rows_shifted(t, t.scroll_down(), t.screen.top, t.screen.bottom, -1),
        changes_only(t, t.scroll_up(), true, false, true),
        changes_only(t, t.scroll_down(), true, false, false),
        t.scroll_up().wf(),
        t.scroll_down().wf(),
{
    let old_cells = cells_of(t);
    assert forall|r: int| 0 <= r < old_cells.len() implies (#[trigger] old_cells[r]).len()
        == t.screen.cols by {}
    lemma_row_moved(old_cells, t.screen.top, t.screen.bottom, t.screen.cols);
    lemma_row_moved(old_cells, t.screen.bottom, t.screen.top, t.screen.cols);
    let up = cells_of(t.scroll_up());
    let down = cells_of(t.scroll_down());
    assert(up == row_moved(
        old_cells,
        t.screen.top,
        t.screen.bottom,
        t.screen.cols,
    ));
    assert(down == row_moved(
        old_cells,
        t.screen.bottom,
        t.screen.top,
        t.screen.cols,
    ));
}

/// Which row each row was before one row was taken out and a blank one put in.
proof fn lemma_row_moved(cells: Seq<Seq<char>>, out: int, at: int, cols: int)
    requires
        0 <= out < cells.len(),
        0 <= at < cells.len(),
        0 <= cols,
        forall|r: int| 0 <= r < cells.len() ==> (#[trigger] cells[r]).len() == cols,
    ensures
        ({
            let moved = row_moved(cells, out, at, cols);
            &&& moved.len() == cells.len()
            &&& forall|r: int|
                0 <= r < moved.len() ==> #[trigger] moved[r] == if r == at {
                    Seq::new(cols as nat, |i: int| ' ')
                } else if out <= r < at {
                    cells[r + 1]
                } else if at < r <= out {
                    cells[r - 1]
                } else {
                    cells[r]
                }
            &&& forall|r: int| 0 <= r < moved.len() ==> (#[trigger] moved[r]).len() == cols
        }),
{
    let moved = row_moved(cells, out, at, cols);
    let left = cells.remove(out);
    assert(blank_row(cols) =~= Seq::new(cols as nat, |i: int| ' '));
    assert forall|r: int| 0 <= r < moved.len() implies #[trigger] moved[r] == if r == at {
        Seq::new(cols as nat, |i: int| ' ')
    } else if out <= r < at {
        cells[r + 1]
    } else if at < r <= out {
        cells[r - 1]
    } else {
        cells[r]
    } by {
        if r < at {
            assert(moved[r] == left[r]);
        } else if r > at {
            assert(moved[r] == left[r - 1]);
        }
    }
    assert forall|r: int| 0 <= r < moved.len() implies (#[trigger] moved[r]).len() == cols by {
        if r != at {
            let from = if out <= r < at {
                r + 1
            } else if at < r <= out {
                r - 1
            } else {
                r
            };
            assert(cells[from].len() == cols);
        }
    }
}

/// CSI S moves the rows that scroll up by so many, and CSI T down. The cursor stays.
pub proof fn law_scrolling_up(t: TextView, n: u16)
    requires
        t.wf(),
        t.has_cells(),
        n > 0,
    ensures
        ({
            let after = t.perform(csi(seq![seq![n]], 'S'));
            &&& rows_shifted(t, after, t.screen.top, t.screen.bottom, n as int)
            &&& changes_only(t, after, true, false, true)
        }),
        ({
            let after = t.perform(csi(seq![seq![n]], 'T'));
            &&& rows_shifted(t, after, t.screen.top, t.screen.bottom, -n)
            &&& changes_only(t, after, true, false, false)
        }),
{
    lemma_scroll_by(t, n as nat);
}

proof fn lemma_scroll_by(t: TextView, n: nat)
    requires
        t.wf(),
        t.has_cells(),
    ensures
        rows_shifted(t, t.scroll_up_by(n), t.screen.top, t.screen.bottom, n as int),
        rows_shifted(t, t.scroll_down_by(n), t.screen.top, t.screen.bottom, -n),
        changes_only(t, t.scroll_up_by(n), true, false, true),
        changes_only(t, t.scroll_down_by(n), true, false, false),
        t.scroll_up_by(n).wf(),
        t.scroll_down_by(n).wf(),
    decreases n,
{
    if n > 0 {
        lemma_scroll_by(t, (n - 1) as nat);
        let up = t.scroll_up_by((n - 1) as nat);
        let down = t.scroll_down_by((n - 1) as nat);
        lemma_scroll_once(up);
        lemma_scroll_once(down);
        lemma_shifted_twice(
            t,
            up,
            up.scroll_up(),
            t.screen.top,
            t.screen.bottom,
            n - 1,
            1,
        );
        lemma_shifted_twice(
            t,
            down,
            down.scroll_down(),
            t.screen.top,
            t.screen.bottom,
            -(n - 1),
            -1,
        );
    }
}

proof fn lemma_shifted_twice(
    a: TextView,
    b: TextView,
    c: TextView,
    first: int,
    last: int,
    x: int,
    y: int,
)
    requires
        rows_shifted(a, b, first, last, x),
        rows_shifted(b, c, first, last, y),
        forall|r: int, k: int|
            0 <= r < cells_of(a).len() && 0 <= k < cells_of(a).len() ==> (
            #[trigger] cells_of(a)[r]).len() == (#[trigger] cells_of(a)[k]).len(),
        0 <= first,
        last < cells_of(a).len(),
        x >= 0 && y >= 0 || x <= 0 && y <= 0,
    ensures
        rows_shifted(a, c, first, last, x + y),
{
    let p = cells_of(a);
    let q = cells_of(b);
    let s = cells_of(c);
    assert forall|r: int| 0 <= r < s.len() implies (#[trigger] s[r]).len() == p[r].len() by {
        assert(q[r].len() == p[r].len());
    }
    assert forall|r: int, k: int| 0 <= r < s.len() && 0 <= k < s[r].len() implies #[trigger] s[r][k]
        == (if r < first || r > last {
        p[r][k]
    } else if first <= r + (x + y) <= last {
        p[r + (x + y)][k]
    } else {
        ' '
    }) by {
        assert(q[r].len() == p[r].len());
        assert(s[r].len() == q[r].len());
        if r < first || r > last {
            assert(q[r][k] == p[r][k]);
        } else if first <= r + y <= last {
            assert(p[r + y].len() == p[r].len());
            assert(q[r + y].len() == p[r + y].len());
            assert(s[r][k] == q[r + y][k]);
        }
    }
}

/// A line feed, ESC E and ESC D go to the next row, ESC E to its start. In the last row that
/// scrolls, or below it, the rows scroll up instead and the cursor is put in that last row; only
/// ESC D leaves it where it is.
pub proof fn law_the_next_row(t: TextView)
    requires
        t.wf(),
        t.has_cells(),
    ensures
        ({
            let (row, col) = cursor_of(t);
            let bottom = t.screen.bottom;
            let scrolled = t.perform(csi(seq![seq![1u16]], 'S'));
            let feed = ActionView::Execute(10);
            if row < bottom {
                &&& moves_to(t, feed, row + 1, col)
                &&& moves_to(t, escape(0x45), row + 1, 0)
                &&& moves_to(t, escape(0x44), row + 1, col)
            } else {
                &&& changes_only(scrolled, t.perform(feed), false, true, false)
                &&& cursor_of(t.perform(feed)) == (bottom, col)
                &&& changes_only(scrolled, t.perform(escape(0x45)), false, true, false)
                &&& cursor_of(t.perform(escape(0x45))) == (bottom, 0int)
                &&& t.perform(escape(0x44)) == scrolled
            }
        }),
{
    reveal_with_fuel(TextView::scroll_up_by, 2);
}

/// ESC M goes to the row above. In the first row that scrolls, or above it, the rows scroll down
/// instead.
pub proof fn law_the_row_above(t: TextView)
    requires
        t.wf(),
        t.has_cells(),
    ensures
        ({
            let (row, col) = cursor_of(t);
            if row > t.screen.top {
                moves_to(t, escape(0x4d), row - 1, col)
            } else {
                t.perform(escape(0x4d)) == t.perform(csi(seq![seq![1u16]], 'T'))
            }
        }),
{
    reveal_with_fuel(TextView::scroll_down_by, 2);
}

/// What leaves the top of the main screen is kept: with each row that scrolls off its first row,
/// one line is added to the history, without the blanks at its end. Nothing is kept of the
/// alternate screen, nor where the first row does not scroll.
pub proof fn law_what_scrolls_off_is_kept(t: TextView)
    requires
        t.wf(),
        t.has_cells(),
    ensures
        ({
            let after = t.perform(csi(seq![seq![1u16]], 'S')).history;
            if t.screen.in_alt || t.screen.top > 0 {
                after == t.history
            } else {
                one_more_line(t.history, after, trim_end(t.screen.cells[0]))
            }
        }),
{
    reveal_with_fuel(TextView::scroll_up_by, 2);
}

/// Whether a line was added at the end of a history. One that is full loses its first line.
pub open spec fn one_more_line(before: HistoryView, after: HistoryView, line: Seq<char>) -> bool {
    let old_lines = before.lines;
    &&& after.max_lines == before.max_lines
    &&& before.lines.len() < before.max_lines ==> {
        &&& after.lines.len() == before.lines.len() + 1
        &&& after.lines[old_lines.len() as int] == line
        &&& forall|i: int| 0 <= i < old_lines.len() ==> #[trigger] after.lines[i] == old_lines[i]
    }
    &&& before.lines.len() == before.max_lines ==> {
        &&& after.lines.len() == before.lines.len()
        &&& old_lines.len() > 0 ==> after.lines[old_lines.len() - 1] == line
        &&& forall|i: int|
            0 <= i < old_lines.len() - 1 ==> #[trigger] after.lines[i] == old_lines[i + 1]
    }
}

/// Where all of the main screen is erased, its rows down to the cursor go to the history, in
/// order and without the blanks at their ends.
pub proof fn law_an_erased_screen_is_kept(t: TextView, params: Seq<Seq<u16>>)
    requires
        t.wf(),
        t.has_cells(),
        !t.screen.in_alt,
        choice_of(params) == 2,
        t.history.lines.len() + t.screen.cursor.0 + 1 <= t.history.max_lines,
    ensures
        t.perform(csi(params, 'J')).history.lines == t.history.lines + Seq::new(
            (t.screen.cursor.0 + 1) as nat,
            |i: int| trim_end(t.screen.cells[i]),
        ),
{
    lemma_kept_rows(t, (t.screen.cursor.0 + 1) as nat);
}

proof fn lemma_kept_rows(t: TextView, n: nat)
    requires
        n <= t.screen.cells.len(),
        t.history.lines.len() + n <= t.history.max_lines,
    ensures
        t.rows_to_history(n).history.lines == t.history.lines + Seq::new(
            n,
            |i: int| trim_end(t.screen.cells[i]),
        ),
        t.rows_to_history(n).history.max_lines == t.history.max_lines,
    decreases n,
{
    let kept = Seq::new(n, |i: int| trim_end(t.screen.cells[i]));
    if n > 0 {
        lemma_kept_rows(t, (n - 1) as nat);
        let before = Seq::new((n - 1) as nat, |i: int| trim_end(t.screen.cells[i]));
        assert(kept =~= before.push(trim_end(t.screen.cells[n - 1])));
        assert(t.history.lines + kept =~= (t.history.lines + before).push(
            trim_end(t.screen.cells[n - 1]),
        ));
    } else {
        assert(t.history.lines + kept =~= t.history.lines);
    }
}

/// CSI L puts blank rows in at the cursor and CSI M takes rows out there. The rows from the cursor
/// to the last one that scrolls move down or up; all others stay. Below the rows that scroll, the
/// rows from the last of these to the cursor move the other way.
pub proof fn law_lines_are_put_in_and_taken_out(t: TextView, n: u16)
    requires
        t.wf(),
        t.has_cells(),
        n > 0,
    ensures
        ({
            let after = t.perform(csi(seq![seq![n]], 'L'));
            let (row, bottom) = (cursor_of(t).0, t.screen.bottom);
            &&& changes_only(t, after, true, false, false)
            &&& row <= bottom ==> rows_shifted(t, after, row, bottom, if row < bottom {
                -n
            } else {
                n as int
            })
            &&& row > bottom ==> rows_shifted(t, after, bottom, row, n as int)
        }),
        ({
            let after = t.perform(csi(seq![seq![n]], 'M'));
            let (row, bottom) = (cursor_of(t).0, t.screen.bottom);
            &&& changes_only(t, after, true, false, false)
            &&& row <= bottom ==> rows_shifted(t, after, row, bottom, n as int)
            &&& row > bottom ==> rows_shifted(t, after, bottom, row, -n)
        }),
{
    let row = cursor_of(t).0;
    let bottom = t.screen.bottom;
    let cells = cells_of(t);
    lemma_rows_moved(t, n as nat, bottom, row);
    lemma_rows_moved(t, n as nat, row, bottom);
    assert(cells_of(t.perform(csi(seq![seq![n]], 'L'))) == rows_moved(
        cells,
        n as nat,
        bottom,
        row,
        t.screen.cols,
    ));
    assert(cells_of(t.perform(csi(seq![seq![n]], 'M'))) == rows_moved(
        cells,
        n as nat,
        row,
        bottom,
        t.screen.cols,
    ));
}

/// A terminal that shows other cells.
spec fn showing(t: TextView, cells: Seq<Seq<char>>) -> TextView {
    TextView {
        screen: if t.screen.in_alt {
            ScreenView { alt_cells: cells, ..t.screen }
        } else {
            ScreenView { cells, ..t.screen }
        },
        ..t
    }
}

proof fn lemma_rows_moved(t: TextView, n: nat, out: int, at: int)
    requires
        t.wf(),
        t.has_cells(),
        0 <= out < t.screen.rows,
        0 <= at < t.screen.rows,
    ensures
        ({
            let moved = rows_moved(cells_of(t), n, out, at, t.screen.cols);
            let by = if out <= at {
                n as int
            } else {
                -n
            };
            &&& rows_shifted(
                t,
                showing(t, moved),
                if out < at {
                    out
                } else {
                    at
                },
                if out < at {
                    at
                } else {
                    out
                },
                by,
            )
            &&& moved.len() == t.screen.rows
            &&& forall|r: int| 0 <= r < moved.len() ==> (#[trigger] moved[r]).len() == t.screen.cols
        }),
    decreases n,
{
    let cells = cells_of(t);
    assert forall|r: int| 0 <= r < cells.len() implies (#[trigger] cells[r]).len()
        == t.screen.cols by {}
    if n > 0 {
        lemma_rows_moved(t, (n - 1) as nat, out, at);
        let before = rows_moved(cells, (n - 1) as nat, out, at, t.screen.cols);
        let moved = rows_moved(cells, n, out, at, t.screen.cols);
        lemma_row_moved(before, out, at, t.screen.cols);
        let first = if out < at {
            out
        } else {
            at
        };
        let last = if out < at {
            at
        } else {
            out
        };
        let step: int = if out <= at {
            1
        } else {
            -1
        };
        assert(rows_shifted(showing(t, before), showing(t, moved), first, last, step));
        lemma_shifted_twice(
            t,
            showing(t, before),
            showing(t, moved),
            first,
            last,
            if out <= at {
                n - 1
            } else {
                -(n - 1)
            },
            step,
        );
    }
}

/// A number that is left out or zero counts as one.
pub proof fn law_a_missing_number_is_one(t: TextView, params: Seq<Seq<u16>>)
    ensures
        ({
            let n = seq![seq![count_of(params) as u16]];
            &&& t.perform(csi(params, 'S')) == t.perform(csi(n, 'S'))
            &&& t.perform(csi(params, 'T')) == t.perform(csi(n, 'T'))
            &&& t.perform(csi(params, 'L')) == t.perform(csi(n, 'L'))
            &&& t.perform(csi(params, 'M')) == t.perform(csi(n, 'M'))
        }),
{
}

/// Actions are done one after the other.
pub proof fn law_actions_are_done_in_order(t: TextView, a: Seq<ActionView>, b: Seq<ActionView>)
    ensures
        t.perform_all(a + b) == t.perform_all(a).perform_all(b),
        a.len() == 0 ==> t.perform_all(a) == t,
        a.len() == 1 ==> t.perform_all(a) == t.perform(a[0]),
    decreases b.len(),
{
    if b.len() == 0 {
        assert(a + b =~= a);
    } else {
        law_actions_are_done_in_order(t, a, b.drop_last());
        assert((a + b).drop_last() =~= a + b.drop_last());
    }
    if a.len() == 1 {
        assert(a.drop_last() =~= Seq::<ActionView>::empty());
        assert(t.perform_all(a.drop_last()) == t);
    }
}

/// CSI r sets the rows that scroll, counted from one, if they are at least two; the last row is
/// the last one of the screen if it is left out. The cursor goes to the first cell.
pub proof fn law_the_rows_that_scroll_are_set(t: TextView, params: Seq<Seq<u16>>)
    requires
        t.wf(),
        t.has_cells(),
    ensures
        ({
            let after = t.perform(csi(params, 'r'));
            let top = at_most_last(count_of(params) - 1, t.screen.rows);
            let given = params.len() > 1 && params[1].len() > 0 && params[1][0] > 0;
            let bottom = if given {
                at_most_last(params[1][0] - 1, t.screen.rows)
            } else {
                t.screen.rows - 1
            };
            &&& cells_of(after) == cells_of(t)
            &&& after.history == t.history
            &&& cursor_of(after) == (0int, 0int)
            &&& after.screen.in_alt == t.screen.in_alt
            &&& after.screen.saved == t.screen.saved
            &&& after.screen.saved_cursor == t.screen.saved_cursor
            &&& (after.screen.top, after.screen.bottom) == if top < bottom {
                (top, bottom)
            } else {
                (t.screen.top, t.screen.bottom)
            }
        }),
{
}

/// CSI ? 1049 h (and 47, 1047) shows a blank alternate screen with the cursor in its first cell;
/// with l the main screen is shown again. Other modes do nothing, and neither does going to the
/// screen that is shown already.
pub proof fn law_the_alternate_screen(t: TextView, params: Seq<Seq<u16>>, private: Seq<u8>)
    requires
        t.wf(),
        private.len() > 0,
        private[0] == 0x3f,
    ensures
        ({
            let on = t.perform(ActionView::Csi { params, intermediates: private, action: 'h' });
            let off = t.perform(ActionView::Csi { params, intermediates: private, action: 'l' });
            let mode = choice_of(params);
            let meant = mode == 1049 || mode == 1047 || mode == 47;
            &&& !meant || t.screen.in_alt ==> on == t
            &&& !meant || !t.screen.in_alt ==> off == t
            &&& meant && !t.screen.in_alt ==> {
                &&& on.screen.in_alt
                &&& on.screen.saved == Some((t.screen.cells, t.screen.cursor))
                &&& cursor_of(on) == (0int, 0int)
                &&& cells_of(on).len() == t.screen.rows
                &&& forall|r: int|
                    0 <= r < cells_of(on).len() ==> (#[trigger] cells_of(on)[r]).len()
                        == t.screen.cols
                &&& each_cell(on, |r: int, c: int| ' ')
                &&& on.history == t.history
                &&& on.screen.saved_cursor == t.screen.saved_cursor
                &&& (on.screen.top, on.screen.bottom) == (t.screen.top, t.screen.bottom)
            }
            &&& meant && t.screen.in_alt ==> {
                &&& !off.screen.in_alt
                &&& t.screen.saved == Some((off.screen.cells, off.screen.cursor))
                &&& off.history == t.history
                &&& off.screen.saved_cursor == t.screen.saved_cursor
                &&& (off.screen.top, off.screen.bottom) == (t.screen.top, t.screen.bottom)
            }
        }),
{
}

/// Whether the action of a control sequence is one that moves, erases, scrolls or the like.
pub open spec fn is_known(action: char) -> bool {
    'A' <= action <= 'H' || action == 'J' || action == 'K' || action == 'L' || action == 'M'
        || action == 'P' || action == 'S' || action == 'T' || action == 'X' || action == '@'
        || action == '`' || action == 'a' || 'd' <= action <= 'f' || action == 'h' || action == 'l'
        || action == 'r' || action == 's' || action == 'u'
}

/// All other sequences, colours and styles among them, change nothing.
pub proof fn law_other_sequences_do_nothing(
    t: TextView,
    params: Seq<Seq<u16>>,
    intermediates: Seq<u8>,
    action: char,
    byte: u8,
)
    ensures
        !is_known(action) ==> t.perform(ActionView::Csi { params, intermediates, action }) == t,
        intermediates.len() > 0 && (action == 's' || action == 'u' || action == 'T' || action
            == 'r') ==> t.perform(ActionView::Csi { params, intermediates, action }) == t,
        (intermediates.len() == 0 || intermediates[0] != 0x3f) && (action == 'h' || action == 'l')
            ==> t.perform(
            ActionView::Csi { params, intermediates, action },
        ) == t,
        intermediates.len() > 0 || byte != 0x37 && byte != 0x38 && byte != 0x44 && byte != 0x45
            && byte != 0x4d ==> t.perform(ActionView::Esc { intermediates, byte }) == t,
{
}

// === Another size ===

/// On a screen of another size every cell that is still on it stays where it is, new cells are
/// blank, cursors stay on the screen, and all rows scroll. The history stays.
pub proof fn law_a_screen_of_another_size(t: TextView, rows: int, cols: int)
    requires
        t.wf(),
        0 < rows,
        0 < cols,
    ensures
        ({
            let after = TextView { screen: t.screen.resize(rows, cols), ..t };
            let old_cells = cells_of(t);
            let (row, col) = cursor_of(t);
            &&& after.screen.rows == rows
            &&& after.screen.cols == cols
            &&& cells_of(after).len() == rows
            &&& forall|r: int|
                0 <= r < cells_of(after).len() ==> (#[trigger] cells_of(after)[r]).len() == cols
            &&& each_cell(
                after,
                |r: int, c: int|
                    if r < old_cells.len() && c < old_cells[r].len() {
                        old_cells[r][c]
                    } else {
                        ' '
                    },
            )
            &&& cursor_of(after) == (at_most_last(row, rows), at_most_last(col, cols))
            &&& after.screen.in_alt == t.screen.in_alt
            &&& after.screen.top == 0
            &&& after.screen.bottom == rows - 1
            &&& t.screen.saved_cursor is Some == after.screen.saved_cursor is Some
            &&& after.screen.saved_cursor matches Some(p) ==> p == (
                at_most_last(t.screen.saved_cursor->Some_0.0, rows),
                at_most_last(t.screen.saved_cursor->Some_0.1, cols),
            )
            &&& t.screen.saved is Some == after.screen.saved is Some
            &&& after.screen.saved matches Some((kept, p)) ==> {
                let old_kept = t.screen.saved->Some_0.0;
                let old_p = t.screen.saved->Some_0.1;
                &&& p == (at_most_last(old_p.0, rows), at_most_last(old_p.1, cols))
                &&& kept.len() == rows
                &&& forall|r: int| 0 <= r < kept.len() ==> (#[trigger] kept[r]).len() == cols
                &&& forall|r: int, c: int|
                    0 <= r < rows && 0 <= c < cols ==> #[trigger] kept[r][c] == if r
                        < old_kept.len() && c < old_kept[r].len() {
                        old_kept[r][c]
                    } else {
                        ' '
                    }
            }
        }),
{
}

// === What is read of a terminal ===

/// The text of a screen is that of its rows, from the first to the last that is not blank, each
/// without the blanks at its end, with newlines between them. While the alternate screen is shown,
/// it is that of the alternate screen.
pub proof fn law_the_text_of_a_screen(t: TextView, n: int)
    requires
        t.wf(),
        t.has_cells(),
        0 <= n <= t.screen.rows,
        n > 0 ==> trim_end(cells_of(t)[n - 1]).len() > 0,
        forall|r: int|
            n <= r < t.screen.rows ==> (trim_end(#[trigger] cells_of(t)[r])).len() == 0,
    ensures
        t.screen_text() == join(
            Seq::new(n as nat, |r: int| trim_end(cells_of(t)[r])),
            seq!['\n'],
        ),
{
    let lines = trimmed_rows(t.screen.shown());
    reveal_strlit("\n");
    assert("\n"@ =~= seq!['\n']);
    assert forall|r: int| 0 <= r < lines.len() implies #[trigger] lines[r] == trim_end(
        cells_of(t)[r],
    ) by {}
    lemma_drop_to(lines, n);
    assert(lines.take(n) =~= Seq::new(n as nat, |r: int| trim_end(cells_of(t)[r])));
}

proof fn lemma_drop_to(lines: Seq<Seq<char>>, n: int)
    requires
        0 <= n <= lines.len(),
        n > 0 ==> lines[n - 1].len() > 0,
        forall|r: int| n <= r < lines.len() ==> (#[trigger] lines[r]).len() == 0,
    ensures
        drop_empty_end(lines) == lines.take(n),
    decreases lines.len(),
{
    if n < lines.len() {
        assert(lines[lines.len() - 1].len() == 0);
        let before = lines.drop_last();
        assert forall|r: int| n <= r < before.len() implies (#[trigger] before[r]).len() == 0 by {
            assert(lines[r].len() == 0);
        }
        if n > 0 {
            assert(before[n - 1] == lines[n - 1]);
        }
        lemma_drop_to(before, n);
        assert(before.take(n) =~= lines.take(n));
    } else {
        assert(lines.take(n) =~= lines);
        if n > 0 {
            assert(lines.last() == lines[n - 1]);
        }
    }
}

/// The lines that can be read back: those of the history and then those of the main screen, down
/// to the cursor, or all of them while the alternate screen is shown.
pub open spec fn readable(t: TextView) -> Seq<Seq<char>> {
    t.history.lines + if t.screen.in_alt {
        let kept = t.screen.saved->Some_0.0;
        Seq::new(kept.len(), |r: int| trim_end(kept[r]))
    } else {
        Seq::new((t.screen.cursor.0 + 1) as nat, |r: int| trim_end(t.screen.cells[r]))
    }
}

/// Reading back gives, of those lines, the last `count` ones before the last `offset` ones, in
/// order: all of them without a count, up to the very last one without an offset. Empty lines at
/// the end are left out.
pub proof fn law_lines_are_read_back(t: TextView, count: Option<usize>, offset: Option<usize>)
    requires
        t.wf(),
        t.has_cells(),
    ensures
        ({
            let all = readable(t);
            let skipped: int = if offset is Some {
                offset->Some_0 as int
            } else {
                0
            };
            let end = at_least_first(all.len() - skipped);
            let start = if count is Some {
                at_least_first(end - count->Some_0)
            } else {
                0
            };
            t.history_text(count, offset) == join(
                drop_empty_end(all.subrange(start, end)),
                seq!['\n'],
            )
        }),
{
    let all = readable(t);
    let lines = t.all_lines();
    reveal_strlit("\n");
    assert("\n"@ =~= seq!['\n']);
    let skipped: int = if offset is Some {
        offset->Some_0 as int
    } else {
        0
    };
    let end = at_least_first(all.len() - skipped);
    let start = if count is Some {
        at_least_first(end - count->Some_0)
    } else {
        0
    };
    assert(all.len() <= lines.len());
    assert forall|i: int| 0 <= i < all.len() implies #[trigger] all[i] == lines[i] by {}
    if skipped < all.len() {
        assert(cut(lines, start, end) =~= all.subrange(start, end));
    } else {
        assert(all.subrange(start, end) =~= Seq::<Seq<char>>::empty());
    }
}

/// Only drawing a character and erasing up to the cursor touch cells that may not be there: drawing
/// needs a row and a column, erasing a column if there is a row.
pub proof fn law_what_needs_cells(
    t: TextView,
    c: char,
    byte: u8,
    params: Seq<Seq<u16>>,
    intermediates: Seq<u8>,
    action: char,
)
    ensures
        t.fits(ActionView::Print(c)) == (cells_of(t).len() > 0 && t.screen.cols > 0),
        t.fits(ActionView::Execute(byte)),
        t.fits(ActionView::Esc { intermediates, byte }),
        action != 'J' && action != 'K' || choice_of(params) != 1 ==> t.fits(
            ActionView::Csi { params, intermediates, action },
        ),
        (action == 'J' || action == 'K') && choice_of(params) == 1 ==> t.fits(
            ActionView::Csi { params, intermediates, action },
        ) == (cells_of(t).len() == 0 || t.screen.cols > 0),
{
}

/// What stands between the introducer and the action matters only where it says so: for saving and
/// restoring the cursor, scrolling down, the rows that scroll, and modes.
pub proof fn law_intermediates_do_not_matter(
    t: TextView,
    params: Seq<Seq<u16>>,
    intermediates: Seq<u8>,
    action: char,
)
    requires
        action != 's',
        action != 'u',
        action != 'T',
        action != 'r',
        action != 'h',
        action != 'l',
    ensures
        t.perform(ActionView::Csi { params, intermediates, action }) == t.perform(
            csi(params, action),
        ),
{
}

} // verus!
