//! Plain text terminal model for history tracking.
use std::collections::VecDeque;
use vstd::prelude::*;
use vstd::utf8::encode_utf8;
use crate::strings::{
    drop_empty_end, join, join_strings, pop_empty_lines, texts, trim_end, trimmed_end,
};

verus! {

// === History ===

/// The lines that scrolled off the screen, the oldest first.
pub struct HistoryBuffer {
    lines: VecDeque<String>,
    max_lines: usize,
    base_index: usize,
}

/// The lines, how many of them are kept, and how many were dropped so far.
#[verifier::ext_equal]
pub struct HistoryView {
    pub lines: Seq<Seq<char>>,
    pub max_lines: int,
    pub base_index: usize,
}

/// One more line. If there is no room for it, the oldest line goes.
pub open spec fn history_push(h: HistoryView, line: Seq<char>) -> HistoryView {
    let lines = h.lines.push(line);
    if lines.len() > h.max_lines {
        HistoryView {
            lines: lines.skip(1),
            base_index: h.base_index.wrapping_add(1),
            ..h
        }
    } else {
        HistoryView { lines, ..h }
    }
}

/// Lines are numbered on: the number of the next line grows by one with every line, whether or not
/// there is room for it, as long as it can be counted.
pub proof fn law_lines_are_numbered_on(h: HistoryView, line: Seq<char>)
    requires
        h.lines.len() <= h.max_lines,
        h.lines.len() == h.max_lines ==> h.base_index < usize::MAX,
    ensures
        ({
            let after = history_push(h, line);
            after.base_index + after.lines.len() == h.base_index + h.lines.len() + 1
        }),
{
}

impl View for HistoryBuffer {
    type V = HistoryView;

    closed spec fn view(&self) -> HistoryView {
        HistoryView {
            lines: texts(self.lines@),
            max_lines: self.max_lines as int,
            base_index: self.base_index,
        }
    }
}

impl HistoryBuffer {
    pub fn new(max_lines: usize) -> (h: Self)
        ensures
            h@ == (HistoryView { lines: Seq::empty(), max_lines: max_lines as int, base_index: 0 }),
    {
        let h = HistoryBuffer { lines: VecDeque::new(), max_lines, base_index: 0 };
        assert(h@.lines =~= Seq::empty());
        h
    }

    pub fn push(&mut self, line: String)
        ensures
            final(self)@ == history_push(old(self)@, line@),
    {
        let ghost before = self.lines@;
        self.lines.push_back(line);
        assert(texts(self.lines@) =~= texts(before).push(line@));
        if self.lines.len() > self.max_lines {
            self.lines.pop_front();
            self.base_index = self.base_index.wrapping_add(1);
            assert(texts(self.lines@) =~= texts(before).push(line@).skip(1));
        }
    }

    /// Forgets the lines. `base_index` stays, so that indices given out later remain valid.
    pub fn clear(&mut self)
        ensures
            final(self)@ == (HistoryView { lines: Seq::empty(), ..old(self)@ }),
    {
        self.lines.clear();
        assert(texts(self.lines@) =~= Seq::empty());
    }

    fn len(&self) -> (n: usize)
        ensures
            n == self@.lines.len(),
    {
        self.lines.len()
    }

    fn line(&self, i: usize) -> (s: &String)
        requires
            i < self@.lines.len(),
        ensures
            s@ == self@.lines[i as int],
    {
        &self.lines[i]
    }
}

// === Screen ===

struct SavedScreen {
    cells: Vec<Vec<char>>,
    cursor_row: usize,
    cursor_col: usize,
}

pub struct Screen {
    cells: Vec<Vec<char>>,
    cursor_row: usize,
    cursor_col: usize,
    rows: usize,
    cols: usize,
    alt_cells: Vec<Vec<char>>,
    alt_cursor_row: usize,
    alt_cursor_col: usize,
    in_alt_screen: bool,
    saved_screen: Option<SavedScreen>,
    scroll_top: usize,
    scroll_bottom: usize,
    saved_cursor: Option<(usize, usize)>,
}

/// A screen: the cells and the cursor of the main and of the alternate screen, which of the two
/// is shown, what the main screen was when the alternate one was entered, the rows between which
/// it scrolls (both included), and the cursor that was saved.
#[verifier::ext_equal]
pub struct ScreenView {
    pub rows: int,
    pub cols: int,
    pub cells: Seq<Seq<char>>,
    pub cursor: (int, int),
    pub alt_cells: Seq<Seq<char>>,
    pub alt_cursor: (int, int),
    pub in_alt: bool,
    pub saved: Option<(Seq<Seq<char>>, (int, int))>,
    pub top: int,
    pub bottom: int,
    pub saved_cursor: Option<(int, int)>,
}

/// The cells of a screen.
pub open spec fn grid(cells: Seq<Vec<char>>) -> Seq<Seq<char>> {
    cells.map_values(|row: Vec<char>| row@)
}

/// A number cut to the last index below a size.
pub open spec fn clamp(i: int, size: int) -> int {
    if size == 0 {
        0
    } else if i < size {
        i
    } else {
        size - 1
    }
}

pub open spec fn blank_row(cols: int) -> Seq<char> {
    Seq::new(cols as nat, |i: int| ' ')
}

pub open spec fn blank_grid(rows: int, cols: int) -> Seq<Seq<char>> {
    Seq::new(rows as nat, |i: int| blank_row(cols))
}

/// Whether every row is there and has every column. A screen without rows can hold one that was
/// put in by scrolling; it is not shown.
pub open spec fn has_size(cells: Seq<Seq<char>>, rows: int, cols: int) -> bool {
    &&& cells.len() == rows || rows == 0 && cells.len() == 1
    &&& forall|i: int| 0 <= i < cells.len() ==> (#[trigger] cells[i]).len() == cols
}

pub open spec fn within(cursor: (int, int), rows: int, cols: int) -> bool {
    0 <= cursor.0 <= clamp(rows, rows) && 0 <= cursor.1 <= clamp(cols, cols)
}

impl ScreenView {
    /// The cells that are shown.
    pub open spec fn active(self) -> Seq<Seq<char>> {
        if self.in_alt {
            self.alt_cells
        } else {
            self.cells
        }
    }

    /// The rows that are shown.
    pub open spec fn shown(self) -> Seq<Seq<char>> {
        self.active().take(self.rows)
    }

    pub open spec fn set_active(self, cells: Seq<Seq<char>>) -> ScreenView {
        if self.in_alt {
            ScreenView { alt_cells: cells, ..self }
        } else {
            ScreenView { cells, ..self }
        }
    }

    /// The cursor that is shown.
    pub open spec fn position(self) -> (int, int) {
        if self.in_alt {
            self.alt_cursor
        } else {
            self.cursor
        }
    }

    /// The cursor put at a place, or at the edge of the screen.
    pub open spec fn move_to(self, row: int, col: int) -> ScreenView {
        let place = (clamp(row, self.rows), clamp(col, self.cols));
        if self.in_alt {
            ScreenView { alt_cursor: place, ..self }
        } else {
            ScreenView { cursor: place, ..self }
        }
    }

    pub open spec fn save_cursor(self) -> ScreenView {
        ScreenView { saved_cursor: Some(self.position()), ..self }
    }

    pub open spec fn restore_cursor(self) -> ScreenView {
        match self.saved_cursor {
            Some((row, col)) => self.move_to(row, col),
            None => self,
        }
    }

    /// Only a region of two rows or more is taken.
    pub open spec fn set_scroll_region(self, top: int, bottom: int) -> ScreenView {
        let top = clamp(top, self.rows);
        let bottom = clamp(bottom, self.rows);
        if top < bottom {
            ScreenView { top, bottom, ..self }
        } else {
            self
        }
    }

    /// Shows a blank alternate screen and keeps the main one for later.
    pub open spec fn enter_alt_screen(self) -> ScreenView {
        if self.in_alt {
            self
        } else {
            ScreenView {
                saved: Some((self.cells, self.cursor)),
                alt_cells: blank_grid(self.rows, self.cols),
                alt_cursor: (0, 0),
                in_alt: true,
                ..self
            }
        }
    }

    /// Shows the main screen as it was kept.
    pub open spec fn leave_alt_screen(self) -> ScreenView {
        if !self.in_alt {
            self
        } else {
            match self.saved {
                Some((cells, cursor)) => ScreenView {
                    cells,
                    cursor,
                    saved: None,
                    in_alt: false,
                    ..self
                },
                None => ScreenView { in_alt: false, ..self },
            }
        }
    }

    /// Another size: cells are cut off or filled with blanks on the right and at the bottom,
    /// cursors stay on the screen, and all rows scroll.
    pub open spec fn resize(self, rows: int, cols: int) -> ScreenView {
        let on_screen = |p: (int, int)| (clamp(p.0, rows), clamp(p.1, cols));
        ScreenView {
            rows,
            cols,
            cells: fitted(self.cells, rows, cols),
            cursor: on_screen(self.cursor),
            alt_cells: fitted(self.alt_cells, rows, cols),
            alt_cursor: on_screen(self.alt_cursor),
            saved: match self.saved {
                Some((cells, cursor)) => Some((fitted(cells, rows, cols), on_screen(cursor))),
                None => None,
            },
            top: 0,
            bottom: clamp(rows, rows),
            saved_cursor: match self.saved_cursor {
                Some(cursor) => Some(on_screen(cursor)),
                None => None,
            },
            in_alt: self.in_alt,
        }
    }

    /// What every operation keeps: all cells are there, the cursors are on the screen, the rows
    /// that scroll are rows of the screen, and the main screen is saved exactly while the
    /// alternate one is shown.
    pub open spec fn wf(self) -> bool {
        &&& 0 <= self.rows <= usize::MAX
        &&& 0 <= self.cols <= usize::MAX
        &&& has_size(self.cells, self.rows, self.cols)
        &&& has_size(self.alt_cells, self.rows, self.cols)
        &&& within(self.cursor, self.rows, self.cols)
        &&& within(self.alt_cursor, self.rows, self.cols)
        &&& self.saved is Some <==> self.in_alt
        &&& self.saved matches Some((cells, cursor)) ==> has_size(cells, self.rows, self.cols)
            && within(cursor, self.rows, self.cols)
        &&& 0 <= self.top <= self.bottom <= clamp(self.rows, self.rows)
        &&& self.saved_cursor matches Some(cursor) ==> within(cursor, self.rows, self.cols)
    }
}

pub open spec fn blank_screen(rows: int, cols: int) -> ScreenView {
    ScreenView {
        rows,
        cols,
        cells: blank_grid(rows, cols),
        cursor: (0, 0),
        alt_cells: blank_grid(rows, cols),
        alt_cursor: (0, 0),
        in_alt: false,
        saved: None,
        top: 0,
        bottom: clamp(rows, rows),
        saved_cursor: None,
    }
}

impl View for Screen {
    type V = ScreenView;

    closed spec fn view(&self) -> ScreenView {
        ScreenView {
            rows: self.rows as int,
            cols: self.cols as int,
            cells: grid(self.cells@),
            cursor: (self.cursor_row as int, self.cursor_col as int),
            alt_cells: grid(self.alt_cells@),
            alt_cursor: (self.alt_cursor_row as int, self.alt_cursor_col as int),
            in_alt: self.in_alt_screen,
            saved: match self.saved_screen {
                Some(s) => Some((grid(s.cells@), (s.cursor_row as int, s.cursor_col as int))),
                None => None,
            },
            top: self.scroll_top as int,
            bottom: self.scroll_bottom as int,
            saved_cursor: match self.saved_cursor {
                Some((row, col)) => Some((row as int, col as int)),
                None => None,
            },
        }
    }
}

fn new_row(cols: usize) -> (row: Vec<char>)
    ensures
        row@ == blank_row(cols as int),
{
    let row: Vec<char> = vec![' '; cols];
    assert(row@ =~= blank_row(cols as int));
    row
}

fn new_grid(rows: usize, cols: usize) -> (cells: Vec<Vec<char>>)
    ensures
        grid(cells@) == blank_grid(rows as int, cols as int),
{
    let mut cells: Vec<Vec<char>> = Vec::new();
    for i in 0..rows
        invariant
            grid(cells@) == blank_grid(i as int, cols as int),
    {
        let ghost before = cells@;
        cells.push(new_row(cols));
        proof {
            assert(grid(cells@) =~= grid(before).push(blank_row(cols as int)));
            assert(grid(cells@) =~= blank_grid(i + 1, cols as int));
        }
    }
    cells
}

impl Screen {
    pub fn new(rows: usize, cols: usize) -> (s: Self)
        ensures
            s@ == blank_screen(rows as int, cols as int),
            s@.wf(),
    {
        Screen {
            cells: new_grid(rows, cols),
            cursor_row: 0,
            cursor_col: 0,
            rows,
            cols,
            alt_cells: new_grid(rows, cols),
            alt_cursor_row: 0,
            alt_cursor_col: 0,
            in_alt_screen: false,
            saved_screen: None,
            scroll_top: 0,
            scroll_bottom: rows.saturating_sub(1),
            saved_cursor: None,
        }
    }

    pub fn cursor(&self) -> (p: (usize, usize))
        ensures
            p.0 == self@.position().0,
            p.1 == self@.position().1,
    {
        if self.in_alt_screen {
            (self.alt_cursor_row, self.alt_cursor_col)
        } else {
            (self.cursor_row, self.cursor_col)
        }
    }

    /// Puts the cursor at a place, or at the edge of the screen.
    pub fn set_cursor(&mut self, row: usize, col: usize)
        ensures
            final(self)@ == old(self)@.move_to(row as int, col as int),
    {
        let row = min(row, self.rows.saturating_sub(1));
        let col = min(col, self.cols.saturating_sub(1));
        if self.in_alt_screen {
            self.alt_cursor_row = row;
            self.alt_cursor_col = col;
        } else {
            self.cursor_row = row;
            self.cursor_col = col;
        }
    }

    pub fn save_cursor(&mut self)
        ensures
            final(self)@ == old(self)@.save_cursor(),
    {
        self.saved_cursor = Some(self.cursor());
    }

    pub fn restore_cursor(&mut self)
        ensures
            final(self)@ == old(self)@.restore_cursor(),
    {
        if let Some((row, col)) = self.saved_cursor {
            self.set_cursor(row, col);
        }
    }

    pub fn scroll_region(&self) -> (r: (usize, usize))
        ensures
            r.0 == self@.top,
            r.1 == self@.bottom,
    {
        (self.scroll_top, self.scroll_bottom)
    }

    pub fn set_scroll_region(&mut self, top: usize, bottom: usize)
        ensures
            final(self)@ == old(self)@.set_scroll_region(top as int, bottom as int),
    {
        let top = min(top, self.rows.saturating_sub(1));
        let bottom = min(bottom, self.rows.saturating_sub(1));
        if top < bottom {
            self.scroll_top = top;
            self.scroll_bottom = bottom;
        }
    }

    /// The text of a row without the white space at its end; empty below the last row.
    pub fn row_to_string(&self, row: usize) -> (s: String)
        ensures
            s@ == row_line(self@.active(), row as int),
    {
        let cells = if self.in_alt_screen {
            &self.alt_cells
        } else {
            &self.cells
        };
        assert(grid(cells@) == self@.active());
        if row < cells.len() {
            row_text(&cells[row])
        } else {
            String::new()
        }
    }

    pub fn enter_alt_screen(&mut self)
        ensures
            final(self)@ == old(self)@.enter_alt_screen(),
    {
        if self.in_alt_screen {
            return;
        }
        let cells = copy_cells(&self.cells);
        self.saved_screen = Some(
            SavedScreen { cells, cursor_row: self.cursor_row, cursor_col: self.cursor_col },
        );
        self.alt_cells = new_grid(self.rows, self.cols);
        self.alt_cursor_row = 0;
        self.alt_cursor_col = 0;
        self.in_alt_screen = true;
    }

    pub fn leave_alt_screen(&mut self)
        ensures
            final(self)@ == old(self)@.leave_alt_screen(),
    {
        if !self.in_alt_screen {
            return;
        }
        if let Some(saved) = self.saved_screen.take() {
            self.cells = saved.cells;
            self.cursor_row = saved.cursor_row;
            self.cursor_col = saved.cursor_col;
        }
        self.in_alt_screen = false;
    }

    pub fn resize(&mut self, rows: usize, cols: usize)
        ensures
            final(self)@ == old(self)@.resize(rows as int, cols as int),
    {
        let last_row = rows.saturating_sub(1);
        let last_col = cols.saturating_sub(1);
        self.rows = rows;
        self.cols = cols;
        fit_cells(&mut self.cells, rows, cols);
        fit_cells(&mut self.alt_cells, rows, cols);
        if let Some(mut saved) = self.saved_screen.take() {
            fit_cells(&mut saved.cells, rows, cols);
            saved.cursor_row = min(saved.cursor_row, last_row);
            saved.cursor_col = min(saved.cursor_col, last_col);
            self.saved_screen = Some(saved);
        }
        self.cursor_row = min(self.cursor_row, last_row);
        self.cursor_col = min(self.cursor_col, last_col);
        self.alt_cursor_row = min(self.alt_cursor_row, last_row);
        self.alt_cursor_col = min(self.alt_cursor_col, last_col);
        if let Some((row, col)) = self.saved_cursor {
            self.saved_cursor = Some((min(row, last_row), min(col, last_col)));
        }
        self.scroll_top = 0;
        self.scroll_bottom = last_row;
    }

    fn active_cells(&mut self) -> (cells: &mut Vec<Vec<char>>)
        ensures
            grid(cells@) == old(self)@.active(),
            final(self)@ == old(self)@.set_active(grid(final(cells)@)),
    {
        if self.in_alt_screen {
            &mut self.alt_cells
        } else {
            &mut self.cells
        }
    }
}

// === Operations on cells ===

/// A row with blanks in the columns `from..to`.
pub open spec fn blanked(row: Seq<char>, from: int, to: int) -> Seq<char> {
    Seq::new(
        row.len(),
        |i: int|
            if from <= i < to {
                ' '
            } else {
                row[i]
            },
    )
}

/// A row with `n` blanks put in at `col`. What leaves the row on the right is lost.
pub open spec fn moved_right(row: Seq<char>, col: int, n: int) -> Seq<char> {
    Seq::new(
        row.len(),
        |i: int|
            if i < col {
                row[i]
            } else if i < col + n {
                ' '
            } else {
                row[i - n]
            },
    )
}

/// A row with `n` cells taken out at `col`, and blanks on the right in their place.
pub open spec fn moved_left(row: Seq<char>, col: int, n: int) -> Seq<char> {
    Seq::new(
        row.len(),
        |i: int|
            if i < col {
                row[i]
            } else if i + n < row.len() {
                row[i + n]
            } else {
                ' '
            },
    )
}

/// The text of a row without the white space at its end; empty below the last row.
pub open spec fn row_line(cells: Seq<Seq<char>>, row: int) -> Seq<char> {
    if row < cells.len() {
        trim_end(cells[row])
    } else {
        Seq::empty()
    }
}

/// The cells with the row `out` taken out, if there is one, and a blank row put in, so that it is
/// row `at`, or the last one if there are not so many.
pub open spec fn row_moved(cells: Seq<Seq<char>>, out: int, at: int, cols: int) -> Seq<Seq<char>> {
    let left = if out < cells.len() {
        cells.remove(out)
    } else {
        cells
    };
    left.insert(
        if at < left.len() {
            at
        } else {
            left.len() as int
        },
        blank_row(cols),
    )
}

/// `row_moved`, so many times.
pub open spec fn rows_moved(
    cells: Seq<Seq<char>>,
    n: nat,
    out: int,
    at: int,
    cols: int,
) -> Seq<Seq<char>>
    decreases n,
{
    if n == 0 {
        cells
    } else {
        row_moved(rows_moved(cells, (n - 1) as nat, out, at, cols), out, at, cols)
    }
}

/// A row erased from the cursor on, up to the cursor, or all of it.
pub open spec fn erased_row(row: Seq<char>, col: int, mode: int) -> Seq<char> {
    if mode == 0 {
        blanked(row, col, row.len() as int)
    } else if mode == 1 {
        blanked(row, 0, col + 1)
    } else if mode == 2 {
        blanked(row, 0, row.len() as int)
    } else {
        row
    }
}

/// The cells erased from the cursor on, up to the cursor, or all of them.
pub open spec fn erased_cells(
    cells: Seq<Seq<char>>,
    cursor: (int, int),
    mode: int,
) -> Seq<Seq<char>> {
    Seq::new(
        cells.len(),
        |i: int|
            if mode == 2 || mode == 0 && i > cursor.0 || mode == 1 && i < cursor.0 {
                blank_row(cells[i].len() as int)
            } else if i == cursor.0 && mode < 2 {
                erased_row(cells[i], cursor.1, mode)
            } else {
                cells[i]
            },
    )
}

/// A row cut or filled with blanks to a number of columns.
pub open spec fn fitted_row(row: Seq<char>, cols: int) -> Seq<char> {
    Seq::new(
        cols as nat,
        |i: int|
            if i < row.len() {
                row[i]
            } else {
                ' '
            },
    )
}

/// Cells cut or filled with blanks to a size.
pub open spec fn fitted(cells: Seq<Seq<char>>, rows: int, cols: int) -> Seq<Seq<char>> {
    Seq::new(
        rows as nat,
        |i: int|
            if i < cells.len() {
                fitted_row(cells[i], cols)
            } else {
                blank_row(cols)
            },
    )
}

fn set_row(cells: &mut Vec<Vec<char>>, row: usize, new: Vec<char>)
    requires
        row < old(cells)@.len(),
    ensures
        grid(final(cells)@) == grid(old(cells)@).update(row as int, new@),
{
    let ghost before = cells@;
    cells[row] = new;
    assert(grid(cells@) =~= grid(before).update(row as int, new@));
}

fn blank_cells(row: &Vec<char>, from: usize, to: usize) -> (r: Vec<char>)
    ensures
        r@ == blanked(row@, from as int, to as int),
{
    let mut r: Vec<char> = Vec::new();
    for i in 0..row.len()
        invariant
            r@ == blanked(row@, from as int, to as int).take(i as int),
    {
        r.push(
            if from <= i && i < to {
                ' '
            } else {
                row[i]
            },
        );
        assert(r@ =~= blanked(row@, from as int, to as int).take(i + 1));
    }
    assert(r@ =~= blanked(row@, from as int, to as int));
    r
}

fn move_right(row: &Vec<char>, col: usize, n: usize) -> (r: Vec<char>)
    ensures
        r@ == moved_right(row@, col as int, n as int),
{
    let mut r: Vec<char> = Vec::new();
    for i in 0..row.len()
        invariant
            r@ == moved_right(row@, col as int, n as int).take(i as int),
    {
        r.push(
            if i < col {
                row[i]
            } else if i - col < n {
                ' '
            } else {
                row[i - n]
            },
        );
        assert(r@ =~= moved_right(row@, col as int, n as int).take(i + 1));
    }
    assert(r@ =~= moved_right(row@, col as int, n as int));
    r
}

fn move_left(row: &Vec<char>, col: usize, n: usize) -> (r: Vec<char>)
    ensures
        r@ == moved_left(row@, col as int, n as int),
{
    let mut r: Vec<char> = Vec::new();
    for i in 0..row.len()
        invariant
            r@ == moved_left(row@, col as int, n as int).take(i as int),
    {
        r.push(
            if i < col {
                row[i]
            } else if n < row.len() - i {
                row[i + n]
            } else {
                ' '
            },
        );
        assert(r@ =~= moved_left(row@, col as int, n as int).take(i + 1));
    }
    assert(r@ =~= moved_left(row@, col as int, n as int));
    r
}

fn fit_row(row: &mut Vec<char>, cols: usize)
    ensures
        final(row)@ == fitted_row(old(row)@, cols as int),
{
    let ghost before = row@;
    row.resize(cols, ' ');
    assert(row@ =~= fitted_row(before, cols as int));
}

fn fit_cells(cells: &mut Vec<Vec<char>>, rows: usize, cols: usize)
    ensures
        grid(final(cells)@) == fitted(grid(old(cells)@), rows as int, cols as int),
{
    let ghost all = grid(cells@);
    let mut r: Vec<Vec<char>> = Vec::new();
    for i in 0..rows
        invariant
            all == grid(cells@),
            grid(r@) == fitted(all, rows as int, cols as int).take(i as int),
    {
        let ghost before = grid(r@);
        if i < cells.len() {
            let mut row = cells[i].clone();
            fit_row(&mut row, cols);
            r.push(row);
        } else {
            r.push(new_row(cols));
        }
        proof {
            assert(grid(r@) =~= before.push(fitted(all, rows as int, cols as int)[i as int]));
            assert(grid(r@) =~= fitted(all, rows as int, cols as int).take(i + 1));
        }
    }
    *cells = r;
    assert(grid(cells@) =~= fitted(all, rows as int, cols as int));
}

fn copy_cells(cells: &Vec<Vec<char>>) -> (r: Vec<Vec<char>>)
    ensures
        grid(r@) == grid(cells@),
{
    let mut r: Vec<Vec<char>> = Vec::new();
    for i in 0..cells.len()
        invariant
            grid(r@) == grid(cells@).take(i as int),
    {
        let ghost before = grid(r@);
        r.push(cells[i].clone());
        proof {
            assert(grid(r@) =~= before.push(grid(cells@)[i as int]));
            assert(grid(r@) =~= grid(cells@).take(i + 1));
        }
    }
    assert(grid(r@) =~= grid(cells@));
    r
}

fn move_row(cells: &mut Vec<Vec<char>>, out: usize, at: usize, cols: usize)
    ensures
        grid(final(cells)@) == row_moved(
            grid(old(cells)@),
            out as int,
            at as int,
            cols as int,
        ),
{
    let ghost before = cells@;
    if out < cells.len() {
        cells.remove(out);
        assert(grid(cells@) =~= grid(before).remove(out as int));
    }
    let ghost left = cells@;
    let at = min(at, cells.len());
    cells.insert(at, new_row(cols));
    assert(grid(cells@) =~= grid(left).insert(at as int, blank_row(cols as int)));
}

fn move_rows(cells: &mut Vec<Vec<char>>, n: usize, out: usize, at: usize, cols: usize)
    ensures
        grid(final(cells)@) == rows_moved(
            grid(old(cells)@),
            n as nat,
            out as int,
            at as int,
            cols as int,
        ),
{
    for i in 0..n
        invariant
            grid(cells@) == rows_moved(
                grid(old(cells)@),
                i as nat,
                out as int,
                at as int,
                cols as int,
            ),
    {
        move_row(cells, out, at, cols);
    }
}

fn row_text(row: &Vec<char>) -> (s: String)
    ensures
        s@ == trim_end(row@),
{
    trimmed_end(row.as_slice())
}

fn min(a: usize, b: usize) -> (m: usize)
    ensures
        m == if a < b {
            a
        } else {
            b
        },
{
    if a < b {
        a
    } else {
        b
    }
}

// === Actions ===

/// What a terminal sequence asks for.
pub enum Action {
    /// Draw a character.
    Print(char),
    /// A control character.
    Execute(u8),
    /// A control sequence: its parameters, each with its subparameters.
    Csi { params: Vec<Vec<u16>>, intermediates: Vec<u8>, action: char },
    /// An escape sequence.
    Esc { intermediates: Vec<u8>, byte: u8 },
}

#[verifier::ext_equal]
pub enum ActionView {
    Print(char),
    Execute(u8),
    Csi { params: Seq<Seq<u16>>, intermediates: Seq<u8>, action: char },
    Esc { intermediates: Seq<u8>, byte: u8 },
}

impl View for Action {
    type V = ActionView;

    open spec fn view(&self) -> ActionView {
        match *self {
            Action::Print(c) => ActionView::Print(c),
            Action::Execute(b) => ActionView::Execute(b),
            Action::Csi { params, intermediates, action } => ActionView::Csi {
                params: param_views(params@),
                intermediates: intermediates@,
                action,
            },
            Action::Esc { intermediates, byte } => ActionView::Esc {
                intermediates: intermediates@,
                byte,
            },
        }
    }
}

pub open spec fn action_views(actions: Seq<Action>) -> Seq<ActionView> {
    actions.map_values(|a: Action| a@)
}

/// The parameters of a control sequence, each with its subparameters.
pub open spec fn param_views(params: Seq<Vec<u16>>) -> Seq<Seq<u16>> {
    params.map_values(|p: Vec<u16>| p@)
}

/// A parameter of a control sequence. One that is left out or zero has its default value.
pub open spec fn param(params: Seq<Seq<u16>>, i: int, default: int) -> int {
    if i < params.len() && params[i].len() > 0 && params[i][0] != 0 {
        params[i][0] as int
    } else {
        default
    }
}

fn get_param(params: &Vec<Vec<u16>>, i: usize, default: usize) -> (n: usize)
    ensures
        n == param(param_views(params@), i as int, default as int),
{
    if i < params.len() && params[i].len() > 0 && params[i][0] != 0 {
        params[i][0] as usize
    } else {
        default
    }
}

// === What actions do ===

/// A terminal: what it shows, what scrolled off, and the data that it was given.
#[verifier::ext_equal]
pub struct TextView {
    pub screen: ScreenView,
    pub history: HistoryView,
    pub fed: Seq<Seq<u8>>,
}

impl TextView {
    /// What every operation keeps: the screen's own invariant, and no more lines in the history
    /// than it may hold.
    pub open spec fn wf(self) -> bool {
        &&& self.screen.wf()
        &&& self.history.lines.len() <= self.history.max_lines
    }

    /// Whether there is a cell to draw in.
    pub open spec fn has_cells(self) -> bool {
        self.screen.rows > 0 && self.screen.cols > 0
    }

    /// Whether an action finds the cells that it touches. Where there are none, characters cannot
    /// be drawn, and nothing can be erased up to the cursor in a row that has no columns.
    pub open spec fn fits(self, action: ActionView) -> bool {
        let has_row = self.screen.active().len() > 0;
        match action {
            ActionView::Print(_) => has_row && self.screen.cols > 0,
            ActionView::Csi { params, action, .. } => (action == 'J' || action == 'K') && param(
                params,
                0,
                0,
            ) == 1 && has_row ==> self.screen.cols > 0,
            _ => true,
        }
    }

    /// Whether each action finds the cells that it touches, one action after the other.
    pub open spec fn fits_all(self, actions: Seq<ActionView>) -> bool
        decreases actions.len(),
    {
        actions.len() == 0 || self.fits_all(actions.drop_last()) && self.perform_all(
            actions.drop_last(),
        ).fits(actions.last())
    }

    /// A terminal that was given one more piece of data, of which nothing is done yet.
    pub open spec fn given(self, data: Seq<u8>) -> TextView {
        TextView { fed: self.fed.push(data), ..self }
    }

    pub open spec fn on_screen(self, screen: ScreenView) -> TextView {
        TextView { screen, ..self }
    }

    pub open spec fn move_to(self, row: int, col: int) -> TextView {
        self.on_screen(self.screen.move_to(row, col))
    }

    /// The rows that scroll move up by one. A row that leaves the top of the main screen goes to
    /// the history.
    pub open spec fn scroll_up(self) -> TextView {
        let s = self.screen;
        TextView {
            screen: s.set_active(row_moved(s.active(), s.top, s.bottom, s.cols)),
            history: if s.top == 0 && !s.in_alt {
                history_push(self.history, row_line(s.cells, 0))
            } else {
                self.history
            },
            ..self
        }
    }

    /// The rows that scroll move down by one. The last of them is lost.
    pub open spec fn scroll_down(self) -> TextView {
        let s = self.screen;
        self.on_screen(s.set_active(row_moved(s.active(), s.bottom, s.top, s.cols)))
    }

    pub open spec fn scroll_up_by(self, n: nat) -> TextView
        decreases n,
    {
        if n == 0 {
            self
        } else {
            self.scroll_up_by((n - 1) as nat).scroll_up()
        }
    }

    pub open spec fn scroll_down_by(self, n: nat) -> TextView
        decreases n,
    {
        if n == 0 {
            self
        } else {
            self.scroll_down_by((n - 1) as nat).scroll_down()
        }
    }

    /// Blank rows are put in at the cursor, and as many are lost at the bottom of those that
    /// scroll.
    pub open spec fn insert_lines(self, n: nat) -> TextView {
        let s = self.screen;
        self.on_screen(
            s.set_active(rows_moved(s.active(), n, s.bottom, s.position().0, s.cols)),
        )
    }

    /// Rows are taken out at the cursor, and as many blank ones are put in at the bottom of those
    /// that scroll.
    pub open spec fn delete_lines(self, n: nat) -> TextView {
        let s = self.screen;
        self.on_screen(
            s.set_active(rows_moved(s.active(), n, s.position().0, s.bottom, s.cols)),
        )
    }

    /// The row of the cursor, if there is one, replaced by another one.
    pub open spec fn set_cursor_row(self, row: Seq<char>) -> TextView {
        let s = self.screen;
        if s.position().0 < s.active().len() {
            self.on_screen(s.set_active(s.active().update(s.position().0, row)))
        } else {
            self
        }
    }

    pub open spec fn cursor_row(self) -> Seq<char> {
        self.screen.active()[self.screen.position().0]
    }

    pub open spec fn erase_chars(self, n: int) -> TextView {
        let col = self.screen.position().1;
        self.set_cursor_row(blanked(self.cursor_row(), col, col + n))
    }

    pub open spec fn insert_chars(self, n: int) -> TextView {
        self.set_cursor_row(moved_right(self.cursor_row(), self.screen.position().1, n))
    }

    pub open spec fn delete_chars(self, n: int) -> TextView {
        self.set_cursor_row(moved_left(self.cursor_row(), self.screen.position().1, n))
    }

    pub open spec fn erase_line(self, mode: int) -> TextView {
        self.set_cursor_row(erased_row(self.cursor_row(), self.screen.position().1, mode))
    }

    /// The first rows of the screen go to the history.
    pub open spec fn rows_to_history(self, n: nat) -> TextView
        decreases n,
    {
        if n == 0 {
            self
        } else {
            let before = self.rows_to_history((n - 1) as nat);
            TextView {
                history: history_push(before.history, row_line(self.screen.cells, n - 1)),
                ..before
            }
        }
    }

    /// Erases the screen. Where all of the main screen is erased, its rows down to the cursor go
    /// to the history. Erasing the scrollback leaves the history alone.
    pub open spec fn erase_display(self, mode: int) -> TextView {
        let s = self.screen;
        let kept = if mode == 2 && !s.in_alt {
            self.rows_to_history((s.cursor.0 + 1) as nat)
        } else {
            self
        };
        kept.on_screen(s.set_active(erased_cells(s.active(), s.position(), mode)))
    }

    /// Draws a character at the cursor and moves on by one column. Below the rows that scroll,
    /// they scroll first and the character is drawn in the last of them.
    pub open spec fn print(self, c: char) -> TextView {
        let (row, col) = self.screen.position();
        let bottom = self.screen.bottom;
        let (t, at) = if row > bottom {
            (self.scroll_up(), bottom)
        } else {
            (self, row)
        };
        let cells = t.screen.active();
        t.on_screen(t.screen.set_active(cells.update(at, cells[at].update(col, c)))).move_to(
            at,
            col + 1,
        )
    }

    /// The next row, with scrolling at the bottom of the rows that scroll.
    pub open spec fn line_feed(self, col: int) -> TextView {
        let row = self.screen.position().0;
        let bottom = self.screen.bottom;
        if row >= bottom {
            self.scroll_up().move_to(bottom, col)
        } else {
            self.move_to(row + 1, col)
        }
    }

    pub open spec fn execute(self, byte: u8) -> TextView {
        let (row, col) = self.screen.position();
        if byte == 0x08 {
            if col > 0 {
                self.move_to(row, col - 1)
            } else {
                self
            }
        } else if byte == 0x09 {
            self.move_to(row, (col / 8 + 1) * 8)
        } else if byte == 0x0a {
            self.line_feed(col)
        } else if byte == 0x0d {
            self.move_to(row, 0)
        } else {
            self
        }
    }

    pub open spec fn esc(self, intermediates: Seq<u8>, byte: u8) -> TextView {
        let (row, col) = self.screen.position();
        if intermediates.len() > 0 {
            self
        } else if byte == 0x37 {
            self.on_screen(self.screen.save_cursor())
        } else if byte == 0x38 {
            self.on_screen(self.screen.restore_cursor())
        } else if byte == 0x44 {
            if row >= self.screen.bottom {
                self.scroll_up()
            } else {
                self.move_to(row + 1, col)
            }
        } else if byte == 0x4d {
            if row <= self.screen.top {
                self.scroll_down()
            } else {
                self.move_to(row - 1, col)
            }
        } else if byte == 0x45 {
            self.line_feed(0)
        } else {
            self
        }
    }

    pub open spec fn csi(
        self,
        params: Seq<Seq<u16>>,
        intermediates: Seq<u8>,
        action: char,
    ) -> TextView {
        let (row, col) = self.screen.position();
        let n = param(params, 0, 1);
        let mode = param(params, 0, 0);
        let plain = intermediates.len() == 0;
        let private = intermediates.len() > 0 && intermediates[0] == 0x3f;
        let alt_screen = mode == 1049 || mode == 47 || mode == 1047;
        match action {
            'A' => self.move_to(if n < row { row - n } else { 0 }, col),
            'B' | 'e' => self.move_to(row + n, col),
            'C' | 'a' => self.move_to(row, col + n),
            'D' => self.move_to(row, if n < col { col - n } else { 0 }),
            'E' => self.move_to(row + n, 0),
            'F' => self.move_to(if n < row { row - n } else { 0 }, 0),
            'G' | '`' => self.move_to(row, n - 1),
            'H' | 'f' => self.move_to(n - 1, param(params, 1, 1) - 1),
            'd' => self.move_to(n - 1, col),
            's' if plain => self.on_screen(self.screen.save_cursor()),
            'u' if plain => self.on_screen(self.screen.restore_cursor()),
            'J' => self.erase_display(mode),
            'K' => self.erase_line(mode),
            'S' => self.scroll_up_by(n as nat),
            'T' if plain => self.scroll_down_by(n as nat),
            'L' => self.insert_lines(n as nat),
            'M' => self.delete_lines(n as nat),
            'X' => self.erase_chars(n),
            '@' => self.insert_chars(n),
            'P' => self.delete_chars(n),
            'r' if plain => self.on_screen(
                self.screen.set_scroll_region(n - 1, param(params, 1, self.screen.rows) - 1),
            ).move_to(0, 0),
            'h' if private && alt_screen => self.on_screen(self.screen.enter_alt_screen()),
            'l' if private && alt_screen => self.on_screen(self.screen.leave_alt_screen()),
            _ => self,
        }
    }

    pub open spec fn perform(self, action: ActionView) -> TextView {
        match action {
            ActionView::Print(c) => self.print(c),
            ActionView::Execute(b) => self.execute(b),
            ActionView::Csi { params, intermediates, action } => self.csi(
                params,
                intermediates,
                action,
            ),
            ActionView::Esc { intermediates, byte } => self.esc(intermediates, byte),
        }
    }

    /// How many rows of the screen count as content: all of the main screen while the alternate
    /// one is shown, else those down to the cursor.
    pub open spec fn content_height(self) -> int {
        match self.screen.saved {
            Some((cells, _)) if self.screen.in_alt => cells.len() as int,
            _ => self.screen.position().0 + 1,
        }
    }

    /// The lines of the history and then those of the main screen.
    pub open spec fn all_lines(self) -> Seq<Seq<char>> {
        self.history.lines + match self.screen.saved {
            Some((cells, _)) if self.screen.in_alt => trimmed_rows(cells),
            _ => trimmed_rows(self.screen.shown()),
        }
    }

    /// The text on the screen, without the empty lines at its end.
    pub open spec fn screen_text(self) -> Seq<char> {
        join(drop_empty_end(trimmed_rows(self.screen.shown())), "\n"@)
    }

    /// The `count` lines before the last `offset` ones (all of them, the very last ones where
    /// these are not given), without the empty lines at their end.
    pub open spec fn history_text(self, count: Option<usize>, offset: Option<usize>) -> Seq<char> {
        let lines = self.all_lines();
        let total = self.history.lines.len() + self.content_height();
        let skipped = match offset {
            Some(n) => n as int,
            None => 0,
        };
        let wanted = match count {
            Some(n) => n as int,
            None => total,
        };
        let end = total - skipped;
        let start = if wanted < end {
            end - wanted
        } else {
            0
        };
        if skipped >= total {
            Seq::empty()
        } else {
            join(drop_empty_end(cut(lines, start, end)), "\n"@)
        }
    }

    /// One action after the other.
    pub open spec fn perform_all(self, actions: Seq<ActionView>) -> TextView
        decreases actions.len(),
    {
        if actions.len() == 0 {
            self
        } else {
            self.perform_all(actions.drop_last()).perform(actions.last())
        }
    }
}

/// Whether a terminal is as the actions left it that come before the first one that does not find
/// the cells that it touches.
pub open spec fn stopped(start: TextView, actions: Seq<ActionView>, end: TextView) -> bool {
    exists|n: int|
        {
            &&& 0 <= n < actions.len()
            &&& start.fits_all(#[trigger] actions.take(n))
            &&& !start.perform_all(actions.take(n)).fits(actions[n])
            &&& end == start.perform_all(actions.take(n))
        }
}

/// The text of each row without the white space at its end.
pub open spec fn trimmed_rows(cells: Seq<Seq<char>>) -> Seq<Seq<char>> {
    cells.map_values(|row: Seq<char>| trim_end(row))
}

/// Those of the lines `start..end` that there are.
pub open spec fn cut(lines: Seq<Seq<char>>, start: int, end: int) -> Seq<Seq<char>> {
    let n = lines.len() as int;
    lines.subrange(
        if start < n {
            start
        } else {
            n
        },
        if end < n {
            end
        } else {
            n
        },
    )
}

// === The invariant is kept ===

proof fn lemma_update_size(cells: Seq<Seq<char>>, row: int, new: Seq<char>, rows: int, cols: int)
    requires
        has_size(cells, rows, cols),
        0 <= row < cells.len(),
        new.len() == cols,
    ensures
        has_size(cells.update(row, new), rows, cols),
{
    assert forall|i: int| 0 <= i < cells.len() implies (#[trigger] cells.update(row, new)[i]).len()
        == cols by {
        assert(cells[i].len() == cols);
    }
}

proof fn lemma_row_moved_size(
    cells: Seq<Seq<char>>,
    out: int,
    at: int,
    rows: int,
    cols: int,
)
    requires
        has_size(cells, rows, cols),
        0 <= out <= clamp(rows, rows),
        0 <= at <= clamp(rows, rows),
        0 <= rows,
        0 <= cols,
    ensures
        has_size(row_moved(cells, out, at, cols), rows, cols),
{
    let left = if out < cells.len() {
        cells.remove(out)
    } else {
        cells
    };
    let r = row_moved(cells, out, at, cols);
    assert forall|i: int| 0 <= i < left.len() implies (#[trigger] left[i]).len() == cols by {
        if out < cells.len() {
            assert(left[i] == cells[if i < out {
                i
            } else {
                i + 1
            }]);
        }
    }
    assert forall|i: int| 0 <= i < r.len() implies (#[trigger] r[i]).len() == cols by {
        let p = if at < left.len() {
            at
        } else {
            left.len() as int
        };
        if i < p {
            assert(r[i] == left[i]);
        } else if i > p {
            assert(r[i] == left[i - 1]);
        }
    }
}

proof fn lemma_rows_moved_size(
    cells: Seq<Seq<char>>,
    n: nat,
    out: int,
    at: int,
    rows: int,
    cols: int,
)
    requires
        has_size(cells, rows, cols),
        0 <= out <= clamp(rows, rows),
        0 <= at <= clamp(rows, rows),
        0 <= rows,
        0 <= cols,
    ensures
        has_size(rows_moved(cells, n, out, at, cols), rows, cols),
    decreases n,
{
    if n > 0 {
        lemma_rows_moved_size(cells, (n - 1) as nat, out, at, rows, cols);
        lemma_row_moved_size(
            rows_moved(cells, (n - 1) as nat, out, at, cols),
            out,
            at,
            rows,
            cols,
        );
    }
}

impl TextView {
    /// What stays of a terminal over every action: its size and the data that it was given.
    pub open spec fn same_terminal(self, other: TextView) -> bool {
        &&& self.screen.rows == other.screen.rows
        &&& self.screen.cols == other.screen.cols
        &&& self.history.max_lines == other.history.max_lines
        &&& self.fed == other.fed
    }

    pub open spec fn same_size(self, other: TextView) -> bool {
        self.screen.rows == other.screen.rows && self.screen.cols == other.screen.cols
    }

    /// Whether an operation kept the invariant.
    pub open spec fn kept(self, before: TextView) -> bool {
        self.wf() && self.same_terminal(before)
    }

    proof fn lemma_scroll_up(self)
        requires
            self.wf(),
        ensures
            self.scroll_up().kept(self),
            self.scroll_up().screen.position() == self.screen.position(),
            self.scroll_up().screen.top == self.screen.top,
            self.scroll_up().screen.bottom == self.screen.bottom,
            self.scroll_up().screen.in_alt == self.screen.in_alt,
    {
        let s = self.screen;
        lemma_row_moved_size(s.active(), s.top, s.bottom, s.rows, s.cols);
    }

    proof fn lemma_scroll_down(self)
        requires
            self.wf(),
        ensures
            self.scroll_down().kept(self),
    {
        let s = self.screen;
        lemma_row_moved_size(s.active(), s.bottom, s.top, s.rows, s.cols);
    }

    proof fn lemma_scroll_up_by(self, n: nat)
        requires
            self.wf(),
        ensures
            self.scroll_up_by(n).kept(self),
        decreases n,
    {
        if n > 0 {
            self.lemma_scroll_up_by((n - 1) as nat);
            self.scroll_up_by((n - 1) as nat).lemma_scroll_up();
        }
    }

    proof fn lemma_scroll_down_by(self, n: nat)
        requires
            self.wf(),
        ensures
            self.scroll_down_by(n).kept(self),
        decreases n,
    {
        if n > 0 {
            self.lemma_scroll_down_by((n - 1) as nat);
            self.scroll_down_by((n - 1) as nat).lemma_scroll_down();
        }
    }

    proof fn lemma_set_cursor_row(self, row: Seq<char>)
        requires
            self.wf(),
            row.len() == self.screen.cols,
        ensures
            self.set_cursor_row(row).kept(self),
            self.screen.position().0 < self.screen.active().len() ==> self.cursor_row().len()
                == self.screen.cols,
    {
        let s = self.screen;
        if s.position().0 < s.active().len() {
            assert(s.active()[s.position().0].len() == s.cols);
            lemma_update_size(s.active(), s.position().0, row, s.rows, s.cols);
        }
    }

    proof fn lemma_rows_to_history(self, n: nat)
        requires
            self.wf(),
        ensures
            self.rows_to_history(n).kept(self),
            self.rows_to_history(n).screen == self.screen,
        decreases n,
    {
        if n > 0 {
            self.lemma_rows_to_history((n - 1) as nat);
        }
    }

    proof fn lemma_erase_display(self, mode: int)
        requires
            self.wf(),
        ensures
            self.erase_display(mode).kept(self),
    {
        let s = self.screen;
        let cells = erased_cells(s.active(), s.position(), mode);
        assert forall|i: int| 0 <= i < cells.len() implies (#[trigger] cells[i]).len()
            == s.cols by {
            assert(s.active()[i].len() == s.cols);
        }
        assert(has_size(cells, s.rows, s.cols));
        self.lemma_rows_to_history((s.cursor.0 + 1) as nat);
    }

    proof fn lemma_print(self, c: char)
        requires
            self.wf(),
            self.fits(ActionView::Print(c)),
        ensures
            self.print(c).kept(self),
    {
        self.lemma_scroll_up();
        let (row, col) = self.screen.position();
        let bottom = self.screen.bottom;
        let (t, at) = if row > bottom {
            (self.scroll_up(), bottom)
        } else {
            (self, row)
        };
        let cells = t.screen.active();
        assert(cells[at].len() == t.screen.cols);
        lemma_update_size(
            cells,
            at,
            cells[at].update(col, c),
            t.screen.rows,
            t.screen.cols,
        );
    }

    proof fn lemma_move_to(self, row: int, col: int)
        requires
            self.wf(),
            0 <= row,
            0 <= col,
        ensures
            self.move_to(row, col).kept(self),
    {
    }

    proof fn lemma_insert_lines(self, n: nat)
        requires
            self.wf(),
        ensures
            self.insert_lines(n).kept(self),
    {
        let s = self.screen;
        lemma_rows_moved_size(s.active(), n, s.bottom, s.position().0, s.rows, s.cols);
    }

    proof fn lemma_delete_lines(self, n: nat)
        requires
            self.wf(),
        ensures
            self.delete_lines(n).kept(self),
    {
        let s = self.screen;
        lemma_rows_moved_size(s.active(), n, s.position().0, s.bottom, s.rows, s.cols);
    }

    proof fn lemma_cursor_row(self, n: int)
        requires
            self.wf(),
        ensures
            self.erase_chars(n).kept(self),
            self.insert_chars(n).kept(self),
            self.delete_chars(n).kept(self),
            self.erase_line(n).kept(self),
    {
        let row = self.cursor_row();
        let col = self.screen.position().1;
        if self.screen.position().0 < self.screen.active().len() {
            self.lemma_set_cursor_row(blank_row(self.screen.cols));
            self.lemma_set_cursor_row(blanked(row, col, col + n));
            self.lemma_set_cursor_row(moved_right(row, col, n));
            self.lemma_set_cursor_row(moved_left(row, col, n));
            self.lemma_set_cursor_row(erased_row(row, col, n));
        }
    }

    proof fn lemma_screen(self, top: int, bottom: int)
        requires
            self.wf(),
            0 <= top,
            0 <= bottom || self.screen.rows == 0,
        ensures
            self.on_screen(self.screen.save_cursor()).kept(self),
            self.on_screen(self.screen.restore_cursor()).kept(self),
            self.on_screen(self.screen.set_scroll_region(top, bottom)).kept(self),
            self.on_screen(self.screen.enter_alt_screen()).kept(self),
            self.on_screen(self.screen.leave_alt_screen()).kept(self),
    {
    }

    #[verifier::spinoff_prover]
    #[verifier::rlimit(30)]
    proof fn lemma_csi(self, params: Seq<Seq<u16>>, intermediates: Seq<u8>, action: char)
        requires
            self.wf(),
        ensures
            self.csi(params, intermediates, action).kept(self),
    {
        let s = self.screen;
        let (row, col) = s.position();
        let n = param(params, 0, 1);
        let mode = param(params, 0, 0);
        let last = param(params, 1, s.rows) - 1;
        if action == 'J' {
            self.lemma_erase_display(mode);
        } else if action == 'K' {
            self.lemma_cursor_row(mode);
        } else if action == 'S' {
            self.lemma_scroll_up_by(n as nat);
        } else if action == 'T' {
            self.lemma_scroll_down_by(n as nat);
        } else if action == 'L' {
            self.lemma_insert_lines(n as nat);
        } else if action == 'M' {
            self.lemma_delete_lines(n as nat);
        } else if action == 'X' || action == '@' || action == 'P' {
            self.lemma_cursor_row(n);
        } else if action == 'r' {
            self.lemma_screen(n - 1, last);
            self.on_screen(s.set_scroll_region(n - 1, last)).lemma_move_to(0, 0);
        } else if action == 's' || action == 'u' || action == 'h' || action == 'l' {
            self.lemma_screen(0, 0);
        } else {
            self.lemma_move_to(if n < row { row - n } else { 0 }, col);
            self.lemma_move_to(row + n, col);
            self.lemma_move_to(row, col + n);
            self.lemma_move_to(row, if n < col { col - n } else { 0 });
            self.lemma_move_to(row + n, 0);
            self.lemma_move_to(if n < row { row - n } else { 0 }, 0);
            self.lemma_move_to(row, n - 1);
            self.lemma_move_to(n - 1, param(params, 1, 1) - 1);
            self.lemma_move_to(n - 1, col);
        }
    }

    proof fn lemma_line_feed(self, col: int)
        requires
            self.wf(),
            0 <= col,
        ensures
            self.line_feed(col).kept(self),
    {
        self.lemma_scroll_up();
        self.scroll_up().lemma_move_to(self.screen.bottom, col);
        self.lemma_move_to(self.screen.position().0 + 1, col);
    }

    #[verifier::spinoff_prover]
    proof fn lemma_execute(self, byte: u8)
        requires
            self.wf(),
        ensures
            self.execute(byte).kept(self),
    {
        let (row, col) = self.screen.position();
        self.lemma_line_feed(col);
        self.lemma_move_to(row, (col / 8 + 1) * 8);
        self.lemma_move_to(row, 0);
        if col > 0 {
            self.lemma_move_to(row, col - 1);
        }
    }

    #[verifier::spinoff_prover]
    proof fn lemma_esc(self, intermediates: Seq<u8>, byte: u8)
        requires
            self.wf(),
        ensures
            self.esc(intermediates, byte).kept(self),
    {
        let (row, col) = self.screen.position();
        self.lemma_line_feed(0);
        self.lemma_screen(0, 0);
        self.lemma_scroll_up();
        self.lemma_scroll_down();
        self.lemma_move_to(row + 1, col);
        if row > 0 {
            self.lemma_move_to(row - 1, col);
        }
    }

    /// Every action keeps the invariant, the size of the terminal and the room in its history.
    pub proof fn law_actions_keep_the_invariant(self, action: ActionView)
        requires
            self.wf(),
            self.fits(action),
        ensures
            self.perform(action).wf(),
            self.perform(action).same_terminal(self),
    {
        match action {
            ActionView::Print(c) => self.lemma_print(c),
            ActionView::Execute(b) => self.lemma_execute(b),
            ActionView::Csi { params, intermediates, action } => self.lemma_csi(
                params,
                intermediates,
                action,
            ),
            ActionView::Esc { intermediates, byte } => self.lemma_esc(intermediates, byte),
        }
    }

    /// Where all actions find their cells, the first ones do.
    proof fn lemma_fits_first(self, actions: Seq<ActionView>, n: int)
        requires
            self.fits_all(actions),
            0 <= n <= actions.len(),
        ensures
            self.fits_all(actions.take(n)),
        decreases actions.len(),
    {
        if n == actions.len() {
            assert(actions.take(n) =~= actions);
        } else {
            self.lemma_fits_first(actions.drop_last(), n);
            assert(actions.drop_last().take(n) =~= actions.take(n));
        }
    }

    /// On a screen with cells every action finds the cells that it touches, and so does what
    /// follows it.
    pub proof fn law_cells_are_found(self, actions: Seq<ActionView>)
        requires
            self.wf(),
            self.has_cells(),
        ensures
            self.fits_all(actions),
            self.perform_all(actions).wf(),
            self.perform_all(actions).same_terminal(self),
        decreases actions.len(),
    {
        if actions.len() > 0 {
            let before = actions.drop_last();
            self.law_cells_are_found(before);
            self.perform_all(before).law_actions_keep_the_invariant(actions.last());
        }
    }
}

// === The parser of terminal sequences ===

/// `alacritty_terminal::vte::Parser`, the state machine that splits terminal data into actions.
#[verifier::external_type_specification]
#[verifier::external_body]
pub struct ExParser<const N: usize>(alacritty_terminal::vte::Parser<N>);

/// `alacritty_terminal::vte::Params`, the parameters of a control sequence.
#[verifier::external_type_specification]
#[verifier::external_body]
pub struct ExParams(alacritty_terminal::vte::Params);

/// The pieces of data that a parser was given, in order. A parser holds nothing else: its state
/// follows from them.
pub uninterp spec fn fed(parser: alacritty_terminal::vte::Parser) -> Seq<Seq<u8>>;

/// The actions that a parser calls for when it is given a piece of data after others.
pub uninterp spec fn vte_actions(fed: Seq<Seq<u8>>, data: Seq<u8>) -> Seq<ActionView>;

/// The parameters that a list of them holds, each with its subparameters.
pub uninterp spec fn param_values(params: alacritty_terminal::vte::Params) -> Seq<Seq<u16>>;

/// Whether a piece of data is text in UTF-8 without escape characters.
pub open spec fn is_text(data: Seq<u8>, text: Seq<char>) -> bool {
    &&& data == encode_utf8(text)
    &&& forall|i: int| 0 <= i < text.len() ==> #[trigger] text[i] != '\u{1b}'
}

/// Whether all pieces of data are text without escape characters.
pub open spec fn all_text(fed: Seq<Seq<u8>>) -> bool {
    forall|i: int| 0 <= i < fed.len() ==> exists|text: Seq<char>| is_text(#[trigger] fed[i], text)
}

/// The action of a character: control characters are executed, all others are printed.
pub open spec fn char_action(c: char) -> ActionView {
    if c <= '\u{1f}' || '\u{80}' <= c <= '\u{9f}' {
        ActionView::Execute(c as u8)
    } else {
        ActionView::Print(c)
    }
}

pub open spec fn text_actions(text: Seq<char>) -> Seq<ActionView> {
    text.map_values(|c: char| char_action(c))
}

/// Notes down the actions that the parser calls for, in order. Those that have no bearing on
/// plain text are left out.
struct Recorder {
    actions: Vec<Action>,
}

/// `Params::iter` walks the parameters, each a slice of its subparameters. The list holds all of
/// them, in order.
#[verifier::external_body]
fn param_list(params: &alacritty_terminal::vte::Params) -> (list: Vec<Vec<u16>>)
    ensures
        param_views(list@) == param_values(*params),
{
    params.iter().map(|p| p.to_vec()).collect()
}

fn copy_bytes(bytes: &[u8]) -> (v: Vec<u8>)
    ensures
        v@ == bytes@,
{
    let mut v: Vec<u8> = Vec::new();
    v.extend_from_slice(bytes);
    assert(v@ =~= bytes@);
    v
}

impl Recorder {
    /// The actions so far.
    pub closed spec fn recorded(self) -> Seq<ActionView> {
        action_views(self.actions@)
    }

    fn record(&mut self, action: Action)
        ensures
            final(self).recorded() == old(self).recorded().push(action@),
    {
        self.actions.push(action);
        assert(self.recorded() =~= old(self).recorded().push(action@));
    }
}

impl alacritty_terminal::vte::Perform for Recorder {
    fn print(&mut self, c: char)
        ensures
            final(self).recorded() == old(self).recorded().push(ActionView::Print(c)),
    {
        self.record(Action::Print(c));
    }

    fn execute(&mut self, byte: u8)
        ensures
            final(self).recorded() == old(self).recorded().push(ActionView::Execute(byte)),
    {
        self.record(Action::Execute(byte));
    }

    fn csi_dispatch(
        &mut self,
        params: &alacritty_terminal::vte::Params,
        intermediates: &[u8],
        _ignore: bool,
        action: char,
    )
        ensures
            final(self).recorded() == old(self).recorded().push(
                (ActionView::Csi {
                    params: param_values(*params),
                    intermediates: intermediates@,
                    action,
                }),
            ),
    {
        self.record(
            Action::Csi {
                params: param_list(params),
                intermediates: copy_bytes(intermediates),
                action,
            },
        );
    }

    fn esc_dispatch(&mut self, intermediates: &[u8], _ignore: bool, byte: u8)
        ensures
            final(self).recorded() == old(self).recorded().push(
                (ActionView::Esc { intermediates: intermediates@, byte }),
            ),
    {
        self.record(Action::Esc { intermediates: copy_bytes(intermediates), byte });
    }
}

/// `Parser::new` makes a parser that was given no data yet.
#[verifier::external_body]
fn new_parser() -> (parser: alacritty_terminal::vte::Parser)
    ensures
        fed(parser) == Seq::<Seq<u8>>::empty(),
{
    alacritty_terminal::vte::Parser::new()
}

/// `Parser::advance` hands the actions that a piece of data calls for to a performer. They follow
/// from that data and the data before it. As long as all of it is text without escape
/// characters, they are those of its characters.
#[verifier::external_body]
fn run_parser(parser: &mut alacritty_terminal::vte::Parser, data: &[u8]) -> (actions: Vec<Action>)
    ensures
        action_views(actions@) == vte_actions(fed(*old(parser)), data@),
        fed(*final(parser)) == fed(*old(parser)).push(data@),
        forall|text: Seq<char>|
            all_text(fed(*old(parser))) && #[trigger] is_text(data@, text) ==> action_views(
                actions@,
            ) == text_actions(text),
{
    let mut recorder = Recorder { actions: Vec::new() };
    parser.advance(&mut recorder, data);
    recorder.actions
}

// === Text parser ===

/// Follows the output of a terminal and keeps its text.
pub struct TextParser {
    screen: Screen,
    history: HistoryBuffer,
    vte_parser: alacritty_terminal::vte::Parser,
}

impl View for TextParser {
    type V = TextView;

    closed spec fn view(&self) -> TextView {
        TextView { screen: self.screen@, history: self.history@, fed: fed(self.vte_parser) }
    }
}

/// A terminal that was given nothing yet.
pub open spec fn new_text(rows: int, cols: int, history_size: int) -> TextView {
    TextView {
        screen: blank_screen(rows, cols),
        history: HistoryView { lines: Seq::empty(), max_lines: history_size, base_index: 0 },
        fed: Seq::empty(),
    }
}

impl TextParser {
    pub fn new(rows: usize, cols: usize, history_size: usize) -> (t: Self)
        ensures
            t@ == new_text(rows as int, cols as int, history_size as int),
            t@.wf(),
    {
        TextParser {
            screen: Screen::new(rows, cols),
            history: HistoryBuffer::new(history_size),
            vte_parser: new_parser(),
        }
    }

    fn scroll_up(&mut self)
        requires
            old(self)@.wf(),
        ensures
            final(self)@ == old(self)@.scroll_up(),
            final(self)@.kept(old(self)@),
    {
        proof {
            self@.lemma_scroll_up();
        }
        let (top, bottom) = self.screen.scroll_region();
        let cols = self.screen.cols;
        if top == 0 && !self.screen.in_alt_screen {
            let line = self.screen.row_to_string(0);
            self.history.push(line);
        }
        let cells = self.screen.active_cells();
        move_row(cells, top, bottom, cols);
    }

    fn scroll_down(&mut self)
        requires
            old(self)@.wf(),
        ensures
            final(self)@ == old(self)@.scroll_down(),
            final(self)@.kept(old(self)@),
    {
        proof {
            self@.lemma_scroll_down();
        }
        let (top, bottom) = self.screen.scroll_region();
        let cols = self.screen.cols;
        let cells = self.screen.active_cells();
        move_row(cells, bottom, top, cols);
    }

    fn scroll_up_by(&mut self, n: usize)
        requires
            old(self)@.wf(),
        ensures
            final(self)@ == old(self)@.scroll_up_by(n as nat),
    {
        for i in 0..n
            invariant
                self@.wf(),
                self@ == old(self)@.scroll_up_by(i as nat),
        {
            self.scroll_up();
        }
    }

    fn scroll_down_by(&mut self, n: usize)
        requires
            old(self)@.wf(),
        ensures
            final(self)@ == old(self)@.scroll_down_by(n as nat),
    {
        for i in 0..n
            invariant
                self@.wf(),
                self@ == old(self)@.scroll_down_by(i as nat),
        {
            self.scroll_down();
        }
    }

    fn insert_lines(&mut self, n: usize)
        requires
            old(self)@.wf(),
        ensures
            final(self)@ == old(self)@.insert_lines(n as nat),
    {
        let (cursor_row, _) = self.screen.cursor();
        let (_, bottom) = self.screen.scroll_region();
        let cols = self.screen.cols;
        let cells = self.screen.active_cells();
        move_rows(cells, n, bottom, cursor_row, cols);
    }

    fn delete_lines(&mut self, n: usize)
        requires
            old(self)@.wf(),
        ensures
            final(self)@ == old(self)@.delete_lines(n as nat),
    {
        let (cursor_row, _) = self.screen.cursor();
        let (_, bottom) = self.screen.scroll_region();
        let cols = self.screen.cols;
        let cells = self.screen.active_cells();
        move_rows(cells, n, cursor_row, bottom, cols);
    }

    fn erase_chars(&mut self, n: usize)
        requires
            old(self)@.wf(),
        ensures
            final(self)@ == old(self)@.erase_chars(n as int),
    {
        let (row, col) = self.screen.cursor();
        let ghost before = self@.cursor_row();
        let cells = self.screen.active_cells();
        if row >= cells.len() {
            return;
        }
        let new = blank_cells(&cells[row], col, col.saturating_add(n));
        proof {
            assert(new@ =~= blanked(before, col as int, col + n));
        }
        set_row(cells, row, new);
    }

    fn insert_chars(&mut self, n: usize)
        requires
            old(self)@.wf(),
        ensures
            final(self)@ == old(self)@.insert_chars(n as int),
    {
        let (row, col) = self.screen.cursor();
        let cells = self.screen.active_cells();
        if row >= cells.len() {
            return;
        }
        let new = move_right(&cells[row], col, n);
        set_row(cells, row, new);
    }

    fn delete_chars(&mut self, n: usize)
        requires
            old(self)@.wf(),
        ensures
            final(self)@ == old(self)@.delete_chars(n as int),
    {
        let (row, col) = self.screen.cursor();
        let cells = self.screen.active_cells();
        if row >= cells.len() {
            return;
        }
        let new = move_left(&cells[row], col, n);
        set_row(cells, row, new);
    }

    fn erase_line(&mut self, mode: usize)
        requires
            old(self)@.wf(),
        ensures
            final(self)@ == old(self)@.erase_line(mode as int),
    {
        let (row, col) = self.screen.cursor();
        proof {
            if row < self@.screen.active().len() {
                assert(self@.screen.active()[row as int].len() == self@.screen.cols);
            }
        }
        let cells = self.screen.active_cells();
        if row >= cells.len() {
            return;
        }
        let new = erase_row(&cells[row], col, mode);
        set_row(cells, row, new);
    }
}

fn erase_row(row: &Vec<char>, col: usize, mode: usize) -> (r: Vec<char>)
    requires
        col <= row@.len(),
    ensures
        r@ == erased_row(row@, col as int, mode as int),
{
    if mode == 0 {
        blank_cells(row, col, row.len())
    } else if mode == 1 {
        let end = if col < row.len() {
            col + 1
        } else {
            row.len()
        };
        let r = blank_cells(row, 0, end);
        assert(r@ =~= blanked(row@, 0, col + 1));
        r
    } else if mode == 2 {
        blank_cells(row, 0, row.len())
    } else {
        row.clone()
    }
}

fn erase_cells(cells: &mut Vec<Vec<char>>, row: usize, col: usize, mode: usize)
    requires
        row < old(cells)@.len() ==> col <= old(cells)@[row as int]@.len(),
    ensures
        grid(final(cells)@) == erased_cells(
            grid(old(cells)@),
            (row as int, col as int),
            mode as int,
        ),
{
    let ghost all = grid(cells@);
    let ghost want = erased_cells(all, (row as int, col as int), mode as int);
    let mut r: Vec<Vec<char>> = Vec::new();
    for i in 0..cells.len()
        invariant
            all == grid(cells@),
            row < cells@.len() ==> col <= cells@[row as int]@.len(),
            want == erased_cells(all, (row as int, col as int), mode as int),
            grid(r@) == want.take(i as int),
    {
        let ghost before = grid(r@);
        let old_row = &cells[i];
        let new = if mode == 2 || mode == 0 && i > row || mode == 1 && i < row {
            new_row(old_row.len())
        } else if i == row && mode < 2 {
            erase_row(old_row, col, mode)
        } else {
            old_row.clone()
        };
        assert(new@ == want[i as int]);
        r.push(new);
        proof {
            assert(grid(r@) =~= before.push(want[i as int]));
            assert(grid(r@) =~= want.take(i + 1));
        }
    }
    *cells = r;
    assert(grid(cells@) =~= want);
}

fn set_cell(cells: &mut Vec<Vec<char>>, row: usize, col: usize, c: char)
    requires
        row < old(cells)@.len(),
        col < old(cells)@[row as int]@.len(),
    ensures
        grid(final(cells)@) == grid(old(cells)@).update(
            row as int,
            grid(old(cells)@)[row as int].update(col as int, c),
        ),
{
    let ghost before = grid(cells@);
    let line = &mut cells[row];
    line[col] = c;
    assert(grid(cells@) =~= before.update(row as int, before[row as int].update(col as int, c)));
}

impl TextParser {
    fn rows_to_history(&mut self, n: usize)
        requires
            old(self)@.wf(),
            !old(self)@.screen.in_alt,
        ensures
            final(self)@ == old(self)@.rows_to_history(n as nat),
            final(self)@.screen == old(self)@.screen,
    {
        for i in 0..n
            invariant
                old(self)@.wf(),
                !old(self)@.screen.in_alt,
                self@ == old(self)@.rows_to_history(i as nat),
                self@.screen == old(self)@.screen,
        {
            let line = self.screen.row_to_string(i);
            self.history.push(line);
        }
    }

    fn erase_display(&mut self, mode: usize)
        requires
            old(self)@.wf(),
        ensures
            final(self)@ == old(self)@.erase_display(mode as int),
    {
        let (row, col) = self.screen.cursor();
        proof {
            if row < self@.screen.active().len() {
                assert(self@.screen.active()[row as int].len() == self@.screen.cols);
            }
        }
        if mode == 2 && !self.screen.in_alt_screen {
            self.rows_to_history(row + 1);
        }
        let cells = self.screen.active_cells();
        erase_cells(cells, row, col, mode);
    }

    fn print(&mut self, c: char)
        requires
            old(self)@.wf(),
            old(self)@.fits(ActionView::Print(c)),
        ensures
            final(self)@ == old(self)@.print(c),
    {
        proof {
            self@.lemma_scroll_up();
        }
        let (row, col) = self.screen.cursor();
        let (_, bottom) = self.screen.scroll_region();
        let at = if row > bottom {
            self.scroll_up();
            bottom
        } else {
            row
        };
        proof {
            assert(self@.screen.active()[at as int].len() == self@.screen.cols);
        }
        let cells = self.screen.active_cells();
        set_cell(cells, at, col, c);
        self.screen.set_cursor(at, col + 1);
    }

    fn line_feed(&mut self, col: usize)
        requires
            old(self)@.wf(),
        ensures
            final(self)@ == old(self)@.line_feed(col as int),
    {
        proof {
            self@.lemma_scroll_up();
        }
        let (row, _) = self.screen.cursor();
        let (_, bottom) = self.screen.scroll_region();
        if row >= bottom {
            self.scroll_up();
            self.screen.set_cursor(bottom, col);
        } else {
            self.screen.set_cursor(row + 1, col);
        }
    }

    fn execute(&mut self, byte: u8)
        requires
            old(self)@.wf(),
        ensures
            final(self)@ == old(self)@.execute(byte),
    {
        let (row, col) = self.screen.cursor();
        if byte == 0x08 {
            if col > 0 {
                self.screen.set_cursor(row, col - 1);
            }
        } else if byte == 0x09 {
            self.screen.set_cursor(row, col.saturating_add(8 - col % 8));
        } else if byte == 0x0a {
            self.line_feed(col);
        } else if byte == 0x0d {
            self.screen.set_cursor(row, 0);
        }
    }

    fn esc_dispatch(&mut self, intermediates: &Vec<u8>, byte: u8)
        requires
            old(self)@.wf(),
        ensures
            final(self)@ == old(self)@.esc(intermediates@, byte),
    {
        if intermediates.len() > 0 {
            return;
        }
        let (row, col) = self.screen.cursor();
        let (top, bottom) = self.screen.scroll_region();
        if byte == 0x37 {
            self.screen.save_cursor();
        } else if byte == 0x38 {
            self.screen.restore_cursor();
        } else if byte == 0x44 {
            if row >= bottom {
                self.scroll_up();
            } else {
                self.screen.set_cursor(row + 1, col);
            }
        } else if byte == 0x4d {
            if row <= top {
                self.scroll_down();
            } else {
                self.screen.set_cursor(row - 1, col);
            }
        } else if byte == 0x45 {
            self.line_feed(0);
        }
    }

    fn csi_dispatch(&mut self, params: &Vec<Vec<u16>>, intermediates: &Vec<u8>, action: char)
        requires
            old(self)@.wf(),
        ensures
            final(self)@ == old(self)@.csi(
                param_views(params@),
                intermediates@,
                action,
            ),
    {
        let (row, col) = self.screen.cursor();
        let n = get_param(params, 0, 1);
        let mode = get_param(params, 0, 0);
        let plain = intermediates.len() == 0;
        let private = intermediates.len() > 0 && intermediates[0] == 0x3f;
        let alt_screen = mode == 1049 || mode == 47 || mode == 1047;
        if action == 'A' {
            self.screen.set_cursor(row.saturating_sub(n), col);
        } else if action == 'B' || action == 'e' {
            self.screen.set_cursor(row.saturating_add(n), col);
        } else if action == 'C' || action == 'a' {
            self.screen.set_cursor(row, col.saturating_add(n));
        } else if action == 'D' {
            self.screen.set_cursor(row, col.saturating_sub(n));
        } else if action == 'E' {
            self.screen.set_cursor(row.saturating_add(n), 0);
        } else if action == 'F' {
            self.screen.set_cursor(row.saturating_sub(n), 0);
        } else if action == 'G' || action == '`' {
            self.screen.set_cursor(row, n - 1);
        } else if action == 'H' || action == 'f' {
            self.screen.set_cursor(n - 1, get_param(params, 1, 1) - 1);
        } else if action == 'd' {
            self.screen.set_cursor(n - 1, col);
        } else if action == 's' && plain {
            self.screen.save_cursor();
        } else if action == 'u' && plain {
            self.screen.restore_cursor();
        } else if action == 'J' {
            self.erase_display(mode);
        } else if action == 'K' {
            self.erase_line(mode);
        } else if action == 'S' {
            self.scroll_up_by(n);
        } else if action == 'T' && plain {
            self.scroll_down_by(n);
        } else if action == 'L' {
            self.insert_lines(n);
        } else if action == 'M' {
            self.delete_lines(n);
        } else if action == 'X' {
            self.erase_chars(n);
        } else if action == '@' {
            self.insert_chars(n);
        } else if action == 'P' {
            self.delete_chars(n);
        } else if action == 'r' && plain {
            let bottom = get_param(params, 1, self.screen.rows).saturating_sub(1);
            self.screen.set_scroll_region(n - 1, bottom);
            self.screen.set_cursor(0, 0);
        } else if action == 'h' && private && alt_screen {
            self.screen.enter_alt_screen();
        } else if action == 'l' && private && alt_screen {
            self.screen.leave_alt_screen();
        }
    }

    /// Does what a terminal sequence asks for.
    pub fn perform(&mut self, action: &Action)
        requires
            old(self)@.wf(),
            old(self)@.fits(action@),
        ensures
            final(self)@ == old(self)@.perform(action@),
            final(self)@.wf(),
            final(self)@.same_terminal(old(self)@),
    {
        proof {
            self@.law_actions_keep_the_invariant(action@);
        }
        match action {
            Action::Print(c) => self.print(*c),
            Action::Execute(b) => self.execute(*b),
            Action::Csi { params, intermediates, action } => self.csi_dispatch(
                params,
                intermediates,
                *action,
            ),
            Action::Esc { intermediates, byte } => self.esc_dispatch(intermediates, *byte),
        }
    }

    /// Whether an action finds the cells that it touches.
    pub fn can_perform(&self, action: &Action) -> (r: bool)
        ensures
            r == self@.fits(action@),
    {
        let rows = if self.screen.in_alt_screen {
            self.screen.alt_cells.len()
        } else {
            self.screen.cells.len()
        };
        match action {
            Action::Print(_) => rows > 0 && self.screen.cols > 0,
            Action::Csi { params, action, .. } => {
                let erases = *action == 'J' || *action == 'K';
                self.screen.cols > 0 || rows == 0 || !erases || get_param(params, 0, 0) != 1
            },
            _ => true,
        }
    }

    /// Does what terminal sequences ask for, one after the other.
    pub fn perform_all(&mut self, actions: &[Action])
        requires
            old(self)@.wf(),
            old(self)@.fits_all(action_views(actions@)),
        ensures
            final(self)@ == old(self)@.perform_all(action_views(actions@)),
            final(self)@.wf(),
            final(self)@.same_terminal(old(self)@),
    {
        let ghost all = action_views(actions@);
        let n = self.try_perform_all(actions);
        proof {
            if n < actions@.len() {
                old(self)@.lemma_fits_first(all, n + 1);
                assert(all.take(n + 1).drop_last() =~= all.take(n as int));
                assert(all.take(n + 1).last() == all[n as int]);
            }
            assert(all.take(all.len() as int) =~= all);
        }
    }

    /// Does what terminal sequences ask for, one after the other, up to the first that does not
    /// find the cells that it touches. Tells how many were done.
    pub fn try_perform_all(&mut self, actions: &[Action]) -> (n: usize)
        requires
            old(self)@.wf(),
        ensures
            n <= actions@.len(),
            old(self)@.fits_all(action_views(actions@).take(n as int)),
            n < actions@.len() ==> !final(self)@.fits(actions@[n as int]@),
            final(self)@ == old(self)@.perform_all(action_views(actions@).take(n as int)),
            final(self)@.wf(),
            final(self)@.same_terminal(old(self)@),
    {
        for i in 0..actions.len()
            invariant
                self@.wf(),
                self@.same_terminal(old(self)@),
                old(self)@.fits_all(action_views(actions@).take(i as int)),
                self@ == old(self)@.perform_all(action_views(actions@).take(i as int)),
        {
            proof {
                let done = action_views(actions@).take(i + 1);
                assert(done.drop_last() =~= action_views(actions@).take(i as int));
                assert(done.last() == actions@[i as int]@);
            }
            if !self.can_perform(&actions[i]) {
                return i;
            }
            self.perform(&actions[i]);
        }
        actions.len()
    }

    /// Takes in output of the terminal.
    pub fn advance(&mut self, data: &[u8])
        requires
            old(self)@.wf(),
            old(self)@.has_cells() || old(self)@.given(data@).fits_all(
                vte_actions(old(self)@.fed, data@),
            ),
        ensures
            final(self)@ == old(self)@.given(data@).perform_all(
                vte_actions(old(self)@.fed, data@),
            ),
            forall|text: Seq<char>|
                all_text(old(self)@.fed) && #[trigger] is_text(data@, text) ==> final(self)@
                    == old(self)@.given(data@).perform_all(text_actions(text)),
            final(self)@.wf(),
            final(self)@.same_size(old(self)@),
    {
        let actions = run_parser(&mut self.vte_parser, data);
        proof {
            if self@.has_cells() {
                self@.law_cells_are_found(action_views(actions@));
            }
        }
        self.perform_all(actions.as_slice());
    }

    /// Takes in output of the terminal, up to the first sequence that does not find the cells that
    /// it touches. Tells whether all of it was taken in.
    pub fn try_advance(&mut self, data: &[u8]) -> (r: bool)
        requires
            old(self)@.wf(),
        ensures
            ({
                let start = old(self)@.given(data@);
                let actions = vte_actions(old(self)@.fed, data@);
                &&& r == start.fits_all(actions)
                &&& r ==> final(self)@ == start.perform_all(actions)
                &&& !r ==> stopped(start, actions, final(self)@)
            }),
            forall|text: Seq<char>|
                r && all_text(old(self)@.fed) && #[trigger] is_text(data@, text) ==> final(self)@
                    == old(self)@.given(data@).perform_all(text_actions(text)),
            old(self)@.has_cells() ==> r,
            final(self)@.wf(),
            final(self)@.same_size(old(self)@),
    {
        let ghost start = self@.given(data@);
        let ghost all = vte_actions(self@.fed, data@);
        if self.screen.rows > 0 && self.screen.cols > 0 {
            proof {
                start.law_cells_are_found(all);
            }
            self.advance(data);
            return true;
        }
        let actions = run_parser(&mut self.vte_parser, data);
        let n = self.try_perform_all(actions.as_slice());
        proof {
            assert(all.take(all.len() as int) =~= all);
            if n < actions@.len() {
                assert(all[n as int] == actions@[n as int]@);
                if start.fits_all(all) {
                    start.lemma_fits_first(all, n + 1);
                    assert(all.take(n + 1).drop_last() =~= all.take(n as int));
                    assert(all.take(n + 1).last() == all[n as int]);
                }
            }
        }
        n == actions.len()
    }

    pub fn resize(&mut self, rows: usize, cols: usize)
        requires
            old(self)@.wf(),
        ensures
            final(self)@ == old(self)@.on_screen(
                old(self)@.screen.resize(rows as int, cols as int),
            ),
            final(self)@.wf(),
    {
        self.screen.resize(rows, cols);
        proof {
            law_resize_keeps_the_invariant(old(self)@.screen, rows as int, cols as int);
        }
    }

    /// The text on the screen.
    pub fn render_screen(&self) -> (s: String)
        requires
            self@.wf(),
        ensures
            s@ == self@.screen_text(),
    {
        let mut lines = self.screen_lines();
        pop_empty_lines(&mut lines);
        join_strings(lines.as_slice(), "\n")
    }

    fn screen_lines(&self) -> (lines: Vec<String>)
        requires
            self@.wf(),
        ensures
            texts(lines@) == trimmed_rows(self@.screen.shown()),
    {
        let mut lines: Vec<String> = Vec::new();
        let ghost want = trimmed_rows(self@.screen.shown());
        for i in 0..self.screen.rows
            invariant
                self@.wf(),
                want == trimmed_rows(self@.screen.shown()),
                texts(lines@) == want.take(i as int),
        {
            let ghost before = texts(lines@);
            lines.push(self.screen.row_to_string(i));
            proof {
                assert(texts(lines@) =~= before.push(want[i as int]));
                assert(texts(lines@) =~= want.take(i + 1));
            }
        }
        assert(texts(lines@) =~= want);
        lines
    }

    /// The lines of the main screen: those that were kept while the alternate one is shown.
    fn main_screen_lines(&self) -> (lines: Vec<String>)
        requires
            self@.wf(),
        ensures
            self@.history.lines + texts(lines@) == self@.all_lines(),
    {
        if self.screen.in_alt_screen {
            if let Some(saved) = &self.screen.saved_screen {
                return cells_text(&saved.cells);
            }
        }
        self.screen_lines()
    }

    /// The `count` lines before the last `offset` ones.
    pub fn get_history(&self, count: Option<usize>, offset: Option<usize>) -> (s: String)
        requires
            self@.wf(),
        ensures
            s@ == self@.history_text(count, offset),
    {
        let height: u128 = match &self.screen.saved_screen {
            Some(saved) if self.screen.in_alt_screen => saved.cells.len() as u128,
            _ => self.screen.cursor().0 as u128 + 1,
        };
        let scrollback: u128 = self.history.len() as u128;
        let total: u128 = scrollback + height;
        let skipped: u128 = match offset {
            Some(n) => n as u128,
            None => 0,
        };
        let wanted: u128 = match count {
            Some(n) => n as u128,
            None => total,
        };
        if skipped >= total {
            return String::new();
        }
        let end: u128 = total - skipped;
        let start: u128 = if wanted < end {
            end - wanted
        } else {
            0
        };
        let screen_lines = if end > scrollback {
            self.main_screen_lines()
        } else {
            Vec::new()
        };
        let mut lines: Vec<String> = Vec::new();
        let ghost all = self@.all_lines();
        let ghost want = cut(all, start as int, end as int);
        let mut i: u128 = start;
        while i < end
            invariant
                start <= i <= end,
                scrollback == self@.history.lines.len() <= usize::MAX,
                end > scrollback ==> self@.history.lines + texts(screen_lines@) == all,
                all == self@.all_lines(),
                texts(lines@) == cut(all, start as int, i as int),
            decreases end - i,
        {
            let ghost before = texts(lines@);
            if i < scrollback {
                lines.push(self.history.line(i as usize).clone());
                proof {
                    assert(texts(lines@) =~= before.push(all[i as int]));
                }
            } else if i - scrollback < screen_lines.len() as u128 {
                lines.push(screen_lines[(i - scrollback) as usize].clone());
                proof {
                    assert(all[i as int] == texts(screen_lines@)[i - scrollback]);
                    assert(texts(lines@) =~= before.push(all[i as int]));
                }
            }
            i = i + 1;
            proof {
                assert(texts(lines@) =~= cut(all, start as int, i as int));
            }
        }
        pop_empty_lines(&mut lines);
        join_strings(lines.as_slice(), "\n")
    }

    /// Forgets the lines that scrolled off the screen.
    pub fn clear(&mut self)
        requires
            old(self)@.wf(),
        ensures
            final(self)@ == (TextView {
                history: HistoryView { lines: Seq::empty(), ..old(self)@.history },
                ..old(self)@
            }),
            final(self)@.wf(),
    {
        self.history.clear();
    }

    pub fn in_alt_screen(&self) -> (r: bool)
        ensures
            r == self@.screen.in_alt,
    {
        self.screen.in_alt_screen
    }

    /// Current cursor position (row, column).
    pub fn cursor(&self) -> (p: (usize, usize))
        ensures
            p.0 == self@.screen.position().0,
            p.1 == self@.screen.position().1,
    {
        self.screen.cursor()
    }

    /// Screen dimensions (rows, columns).
    pub fn dimensions(&self) -> (d: (usize, usize))
        ensures
            d.0 == self@.screen.rows,
            d.1 == self@.screen.cols,
    {
        (self.screen.rows, self.screen.cols)
    }
}

fn cells_text(cells: &Vec<Vec<char>>) -> (lines: Vec<String>)
    ensures
        texts(lines@) == trimmed_rows(grid(cells@)),
{
    let mut lines: Vec<String> = Vec::new();
    let ghost want = trimmed_rows(grid(cells@));
    for i in 0..cells.len()
        invariant
            want == trimmed_rows(grid(cells@)),
            texts(lines@) == want.take(i as int),
    {
        let ghost before = texts(lines@);
        lines.push(row_text(&cells[i]));
        proof {
            assert(texts(lines@) =~= before.push(want[i as int]));
            assert(texts(lines@) =~= want.take(i + 1));
        }
    }
    assert(texts(lines@) =~= want);
    lines
}

// === Laws ===

/// A screen keeps its invariant when it gets another size.
pub proof fn law_resize_keeps_the_invariant(s: ScreenView, rows: int, cols: int)
    requires
        s.wf(),
        0 <= rows <= usize::MAX,
        0 <= cols <= usize::MAX,
    ensures
        s.resize(rows, cols).wf(),
{
    assert(has_size(fitted(s.cells, rows, cols), rows, cols));
    assert(has_size(fitted(s.alt_cells, rows, cols), rows, cols));
    if let Some((cells, _)) = s.saved {
        assert(has_size(fitted(cells, rows, cols), rows, cols));
    }
}

/// What the alternate screen leaves alone: the history, the main screen and what was kept of it.
pub open spec fn same_main_screen(a: TextView, b: TextView) -> bool {
    &&& a.history == b.history
    &&& a.screen.cells == b.screen.cells
    &&& a.screen.cursor == b.screen.cursor
    &&& a.screen.saved == b.screen.saved
}

proof fn lemma_alt_scroll(t: TextView, n: nat)
    requires
        t.screen.in_alt,
    ensures
        t.scroll_up_by(n).screen.in_alt,
        same_main_screen(t.scroll_up_by(n), t),
        t.scroll_down_by(n).screen.in_alt,
        same_main_screen(t.scroll_down_by(n), t),
    decreases n,
{
    if n > 0 {
        lemma_alt_scroll(t, (n - 1) as nat);
    }
}

#[verifier::spinoff_prover]
#[verifier::rlimit(30)]
proof fn lemma_alt_action(t: TextView, action: ActionView)
    requires
        t.screen.in_alt,
        t.perform(action).screen.in_alt,
    ensures
        same_main_screen(t.perform(action), t),
{
    if let ActionView::Csi { params, intermediates, action } = action {
        let n = param(params, 0, 1);
        lemma_alt_scroll(t, n as nat);
    }
}

/// Whatever happens on the alternate screen, neither the history nor the main screen changes:
/// when the alternate screen is left again, the main screen and its cursor are as they were.
pub proof fn law_leaving_the_alternate_screen_restores_the_main_screen(
    t: TextView,
    actions: Seq<ActionView>,
)
    requires
        !t.screen.in_alt,
        forall|n: int|
            0 <= n <= actions.len() ==> t.on_screen(t.screen.enter_alt_screen()).perform_all(
                #[trigger] actions.take(n),
            ).screen.in_alt,
    ensures
        ({
            let after = t.on_screen(t.screen.enter_alt_screen()).perform_all(actions);
            let left = after.screen.leave_alt_screen();
            &&& after.history == t.history
            &&& !left.in_alt
            &&& left.cells == t.screen.cells
            &&& left.cursor == t.screen.cursor
        }),
    decreases actions.len(),
{
    let entered = t.on_screen(t.screen.enter_alt_screen());
    assert(actions.take(actions.len() as int) =~= actions);
    lemma_alt_actions(entered, actions);
}

proof fn lemma_alt_actions(t: TextView, actions: Seq<ActionView>)
    requires
        t.screen.in_alt,
        forall|n: int|
            0 <= n <= actions.len() ==> t.perform_all(
                #[trigger] actions.take(n),
            ).screen.in_alt,
    ensures
        same_main_screen(t.perform_all(actions), t),
    decreases actions.len(),
{
    if actions.len() > 0 {
        let before = actions.drop_last();
        assert forall|n: int| 0 <= n <= before.len() implies t.perform_all(
            #[trigger] before.take(n),
        ).screen.in_alt by {
            assert(before.take(n) =~= actions.take(n));
        }
        lemma_alt_actions(t, before);
        assert(actions.take(actions.len() as int) =~= actions);
        assert(actions.take(actions.len() - 1) =~= before);
        lemma_alt_action(t.perform_all(before), actions.last());
    }
}

/// Scrolling the whole main screen loses nothing as long as the history has room: the lines of
/// the history and the screen are the same as before, with a blank one more at the end.
pub proof fn law_scrolling_keeps_all_lines(t: TextView)
    requires
        t.wf(),
        t.has_cells(),
        !t.screen.in_alt,
        t.screen.top == 0,
        t.screen.bottom == t.screen.rows - 1,
        t.history.lines.len() < t.history.max_lines,
    ensures
        t.scroll_up().all_lines() == t.all_lines().push(Seq::empty()),
{
    let s = t.screen;
    let cells = row_moved(s.cells, 0, s.bottom, s.cols);
    lemma_trim_blank(s.cols);
    assert(s.shown() =~= s.cells);
    assert(t.scroll_up().screen.shown() =~= cells);
    assert(trimmed_rows(cells) =~= trimmed_rows(s.cells).skip(1).push(Seq::empty()));
    assert(t.scroll_up().all_lines() =~= t.all_lines().push(Seq::empty()));
}

proof fn lemma_trim_blank(cols: int)
    requires
        0 <= cols,
    ensures
        trim_end(blank_row(cols)) == Seq::<char>::empty(),
    decreases cols,
{
    if cols > 0 {
        assert(blank_row(cols).drop_last() =~= blank_row(cols - 1));
        lemma_trim_blank(cols - 1);
    } else {
        assert(blank_row(cols) =~= Seq::<char>::empty());
    }
}

/// A saved cursor is where it was, wherever it went in between.
pub proof fn law_restoring_the_cursor_undoes_moves(s: ScreenView, row: int, col: int)
    requires
        s.wf(),
    ensures
        s.save_cursor().move_to(row, col).restore_cursor().position() == s.position(),
{
}

/// A screen that was made larger and then gets its old size again shows what it showed.
pub proof fn law_growing_and_shrinking_restores_the_cells(s: ScreenView, rows: int, cols: int)
    requires
        s.wf(),
        s.rows <= rows,
        s.cols <= cols,
    ensures
        s.resize(rows, cols).resize(s.rows, s.cols).shown() == s.shown(),
        s.resize(rows, cols).resize(s.rows, s.cols).position() == s.position(),
{
    let cells = s.active();
    let back = fitted(fitted(cells, rows, cols), s.rows, s.cols);
    assert forall|i: int| 0 <= i < s.rows implies #[trigger] back[i] == cells[i] by {
        assert(cells[i].len() == s.cols);
        assert(back[i] =~= cells[i]);
    }
    assert(s.resize(rows, cols).resize(s.rows, s.cols).shown() =~= s.shown());
}

proof fn lemma_rows_outside(
    cells: Seq<Seq<char>>,
    n: nat,
    out: int,
    at: int,
    cols: int,
    row: int,
)
    requires
        0 <= out < cells.len(),
        0 <= at < cells.len(),
        0 <= row < cells.len(),
        row < out && row < at || row > out && row > at,
    ensures
        rows_moved(cells, n, out, at, cols).len() == cells.len(),
        rows_moved(cells, n, out, at, cols)[row] == cells[row],
    decreases n,
{
    if n > 0 {
        lemma_rows_outside(cells, (n - 1) as nat, out, at, cols, row);
    }
}

/// Putting lines in or taking them out changes only the rows from the cursor to the bottom of
/// those that scroll.
pub proof fn law_lines_outside_the_region_stay(t: TextView, n: nat, row: int)
    requires
        t.wf(),
        t.has_cells(),
        0 <= row < t.screen.rows,
        row < t.screen.position().0 <= t.screen.bottom || t.screen.position().0 <= t.screen.bottom
            < row,
    ensures
        t.insert_lines(n).screen.active()[row] == t.screen.active()[row],
        t.delete_lines(n).screen.active()[row] == t.screen.active()[row],
{
    let s = t.screen;
    lemma_rows_outside(s.active(), n, s.bottom, s.position().0, s.cols, row);
    lemma_rows_outside(s.active(), n, s.position().0, s.bottom, s.cols, row);
}

/// Whether a text holds no control characters.
pub open spec fn is_printable(text: Seq<char>) -> bool {
    forall|i: int| 0 <= i < text.len() ==> char_action(#[trigger] text[i]) is Print
}

proof fn lemma_text_is_drawn(rows: int, cols: int, history_size: int, text: Seq<char>)
    requires
        0 < rows <= usize::MAX,
        0 < cols <= usize::MAX,
        text.len() <= cols,
        is_printable(text),
    ensures
        ({
            let t = new_text(rows, cols, history_size).perform_all(text_actions(text));
            &&& t.screen.active() == blank_grid(rows, cols).update(0, fitted_row(text, cols))
            &&& t.screen.position() == (0int, clamp(text.len() as int, cols))
            &&& t.screen.bottom == rows - 1
            &&& t.screen.rows == rows
            &&& t.screen.cols == cols
            &&& t.history == new_text(rows, cols, history_size).history
        }),
    decreases text.len(),
{
    let start = new_text(rows, cols, history_size);
    if text.len() == 0 {
        assert(text_actions(text) =~= Seq::<ActionView>::empty());
        assert(fitted_row(text, cols) =~= blank_row(cols));
        assert(blank_grid(rows, cols).update(0, fitted_row(text, cols)) =~= blank_grid(
            rows,
            cols,
        ));
    } else {
        let before = text.drop_last();
        let c = text.last();
        assert forall|i: int| 0 <= i < before.len() implies char_action(
            #[trigger] before[i],
        ) is Print by {
            assert(char_action(text[i]) is Print);
        }
        lemma_text_is_drawn(rows, cols, history_size, before);
        assert(text_actions(text).drop_last() =~= text_actions(before));
        assert(text_actions(text).last() == char_action(c));
        assert(char_action(text[text.len() - 1]) is Print);
        assert(fitted_row(before, cols).update(text.len() - 1, c) =~= fitted_row(text, cols));
        let t = start.perform_all(text_actions(before));
        let after = t.print(c);
        assert(after.screen.active() =~= blank_grid(rows, cols).update(
            0,
            fitted_row(text, cols),
        ));
    }
}

proof fn lemma_trim_fitted(text: Seq<char>, cols: int)
    requires
        text.len() <= cols,
    ensures
        trim_end(fitted_row(text, cols)) == trim_end(text),
    decreases cols - text.len(),
{
    if text.len() == cols {
        assert(fitted_row(text, cols) =~= text);
    } else {
        assert(fitted_row(text, cols).drop_last() =~= fitted_row(text, cols - 1));
        lemma_trim_fitted(text, cols - 1);
    }
}

/// A line and then empty ones.
spec fn line_and_blanks(first: Seq<char>, n: nat) -> Seq<Seq<char>> {
    seq![first] + Seq::new(n, |i: int| Seq::<char>::empty())
}

proof fn lemma_drop_blank_rows(first: Seq<char>, n: nat)
    ensures
        join(drop_empty_end(line_and_blanks(first, n)), "\n"@) == first,
    decreases n,
{
    let lines = line_and_blanks(first, n);
    if n > 0 {
        assert(lines.drop_last() =~= line_and_blanks(first, (n - 1) as nat));
        lemma_drop_blank_rows(first, (n - 1) as nat);
    } else {
        assert(lines =~= seq![first]);
        if first.len() == 0 {
            assert(lines.drop_last() =~= Seq::<Seq<char>>::empty());
            assert(drop_empty_end(lines.drop_last()) =~= Seq::<Seq<char>>::empty());
            assert(first =~= Seq::<char>::empty());
        }
    }
}

/// A line of text that fits on the screen of a new terminal is what that screen shows.
pub proof fn law_a_line_of_text_is_shown(rows: int, cols: int, history_size: int, text: Seq<char>)
    requires
        0 < rows <= usize::MAX,
        0 < cols <= usize::MAX,
        text.len() <= cols,
        is_printable(text),
    ensures
        new_text(rows, cols, history_size).perform_all(text_actions(text)).screen_text()
            == trim_end(text),
{
    lemma_text_is_drawn(rows, cols, history_size, text);
    lemma_trim_fitted(text, cols);
    lemma_trim_blank(cols);
    let first = trim_end(text);
    let cells = blank_grid(rows, cols).update(0, fitted_row(text, cols));
    let t = new_text(rows, cols, history_size).perform_all(text_actions(text));
    assert(t.screen.shown() =~= cells);
    assert(trimmed_rows(cells) =~= line_and_blanks(first, (rows - 1) as nat));
    lemma_drop_blank_rows(first, (rows - 1) as nat);
}

} // verus!
