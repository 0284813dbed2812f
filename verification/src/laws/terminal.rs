//! The bytes of typed keys and of the mouse, and what the mouse does to the screen.
use vstd::prelude::*;
use vstd::utf8::encode_utf8;
use crate::keys::{alt_prefix, csi_key, csi_tilde, decimal_bytes, modifier, ss3_or_csi};
use crate::laws::keys::modifier_digit;
use crate::session::terminal::{
    cursor_key_bytes, drag_tick, key_event_bytes, look_of_cell, mouse_action, mouse_bytes,
    style_of_cursor, text_of_cell, AnsiColor, CellFlags, Click, Color, CursorShape, CursorStyle,
    DragEdge, GridState, KeyCode, KeyEvent, Modifiers, MouseAction, MouseButton, MouseEvent,
    MouseEventKind, NamedColor, Point, SelectionState, SelectionType, TermMode, TerminalView,
};

verus! {

// === Typed keys ===

pub open spec fn types(code: KeyCode, m: Modifiers, app_cursor: bool, bytes: Seq<u8>) -> bool {
    forall|press: bool|
        #[trigger] key_event_bytes(KeyEvent { code, modifiers: m, press }, app_cursor) == Some(
            bytes,
        )
}

/// Whether some modifier is held.
pub open spec fn any(m: Modifiers) -> bool {
    m.ctrl || m.shift || m.alt
}

pub open spec fn digit_of(m: Modifiers) -> u8 {
    modifier_digit(m.ctrl, m.shift, m.alt)
}

/// The bytes of an arrow key: `ESC [ X`, `ESC O X` if the application asked for that, and
/// `ESC [ 1 ; m X` with modifiers.
pub open spec fn arrow(letter: u8, m: Modifiers, app_cursor: bool) -> Seq<u8> {
    if any(m) {
        seq![0x1b, 0x5b, 0x31, 0x3b, digit_of(m), letter]
    } else if app_cursor {
        seq![0x1b, 0x4f, letter]
    } else {
        seq![0x1b, 0x5b, letter]
    }
}

pub open spec fn tilde(number: Seq<u8>, m: Modifiers) -> Seq<u8> {
    if any(m) {
        seq![0x1bu8, 0x5b] + number + seq![0x3bu8, digit_of(m), 0x7e]
    } else {
        seq![0x1bu8, 0x5b] + number + seq![0x7eu8]
    }
}

/// One byte, with ESC in front where Alt is held.
pub open spec fn single(byte: u8, m: Modifiers) -> Seq<u8> {
    if m.alt {
        seq![0x1b, byte]
    } else {
        seq![byte]
    }
}

/// Up, Down, Right and Left are A, B, C and D, Home is H and End is F.
pub proof fn law_typed_arrow_keys(m: Modifiers, app_cursor: bool)
    ensures
        types(KeyCode::Up, m, app_cursor, arrow(0x41, m, app_cursor)),
        types(KeyCode::Down, m, app_cursor, arrow(0x42, m, app_cursor)),
        types(KeyCode::Right, m, app_cursor, arrow(0x43, m, app_cursor)),
        types(KeyCode::Left, m, app_cursor, arrow(0x44, m, app_cursor)),
        types(KeyCode::Home, m, app_cursor, arrow(0x48, m, app_cursor)),
        types(KeyCode::End, m, app_cursor, arrow(0x46, m, app_cursor)),
{
    lemma_arrow(0x41, m, app_cursor);
    lemma_arrow(0x42, m, app_cursor);
    lemma_arrow(0x43, m, app_cursor);
    lemma_arrow(0x44, m, app_cursor);
    lemma_arrow(0x48, m, app_cursor);
    lemma_arrow(0x46, m, app_cursor);
}

proof fn lemma_arrow(letter: u8, m: Modifiers, app_cursor: bool)
    ensures
        cursor_key_bytes(letter, app_cursor, modifier(m.ctrl, m.shift, m.alt)) == arrow(
            letter,
            m,
            app_cursor,
        ),
{
    assert(cursor_key_bytes(letter, app_cursor, modifier(m.ctrl, m.shift, m.alt)) =~= arrow(
        letter,
        m,
        app_cursor,
    ));
}

proof fn lemma_tilde(number: Seq<u8>, m: Modifiers)
    requires
        number.len() > 0,
    ensures
        csi_key(number.push(0x7e), modifier(m.ctrl, m.shift, m.alt)) == tilde(
            number,
            m,
        ),
{
    assert(number.push(0x7eu8).drop_last() =~= number);
    assert(csi_key(number.push(0x7e), modifier(m.ctrl, m.shift, m.alt)) =~= tilde(
        number,
        m,
    ));
}

/// Insert, Delete, PageUp and PageDown have the numbers 2, 3, 5 and 6.
pub proof fn law_typed_editing_keys(m: Modifiers, app_cursor: bool)
    ensures
        types(KeyCode::Insert, m, app_cursor, tilde(seq![0x32], m)),
        types(KeyCode::Delete, m, app_cursor, tilde(seq![0x33], m)),
        types(KeyCode::PageUp, m, app_cursor, tilde(seq![0x35], m)),
        types(KeyCode::PageDown, m, app_cursor, tilde(seq![0x36], m)),
{
    lemma_tilde(seq![0x32], m);
    lemma_tilde(seq![0x33], m);
    lemma_tilde(seq![0x35], m);
    lemma_tilde(seq![0x36], m);
    assert(seq![0x32u8].push(0x7e) =~= seq![0x32u8, 0x7e]);
    assert(seq![0x33u8].push(0x7e) =~= seq![0x33u8, 0x7e]);
    assert(seq![0x35u8].push(0x7e) =~= seq![0x35u8, 0x7e]);
    assert(seq![0x36u8].push(0x7e) =~= seq![0x36u8, 0x7e]);
}

/// F1 to F4 are `ESC O` with P to S, or `ESC [ 1 ; m` with these; F5 to F12 have the numbers 15, 17
/// to 21, 23 and 24. There are no others.
pub proof fn law_typed_function_keys(m: Modifiers, app_cursor: bool, n: u8)
    ensures
        1 <= n <= 4 ==> types(
            KeyCode::F(n),
            m,
            app_cursor,
            if any(m) {
                seq![0x1b, 0x5b, 0x31, 0x3b, digit_of(m), (0x4f + n) as u8]
            } else {
                seq![0x1b, 0x4f, (0x4f + n) as u8]
            },
        ),
        types(KeyCode::F(5), m, app_cursor, tilde(seq![0x31, 0x35], m)),
        types(KeyCode::F(6), m, app_cursor, tilde(seq![0x31, 0x37], m)),
        types(KeyCode::F(7), m, app_cursor, tilde(seq![0x31, 0x38], m)),
        types(KeyCode::F(8), m, app_cursor, tilde(seq![0x31, 0x39], m)),
        types(KeyCode::F(9), m, app_cursor, tilde(seq![0x32, 0x30], m)),
        types(KeyCode::F(10), m, app_cursor, tilde(seq![0x32, 0x31], m)),
        types(KeyCode::F(11), m, app_cursor, tilde(seq![0x32, 0x33], m)),
        types(KeyCode::F(12), m, app_cursor, tilde(seq![0x32, 0x34], m)),
        forall|press: bool|
            n == 0 || n > 12 ==> #[trigger] key_event_bytes(
                KeyEvent { code: KeyCode::F(n), modifiers: m, press },
                app_cursor,
            ) is None,
{
    if 1 <= n <= 4 {
        let m1 = modifier(m.ctrl, m.shift, m.alt);
        assert(ss3_or_csi((0x4f + n) as u8, m1) =~= if any(m) {
            seq![0x1b, 0x5b, 0x31, 0x3b, digit_of(m), (0x4f + n) as u8]
        } else {
            seq![0x1b, 0x4f, (0x4f + n) as u8]
        });
    }
    lemma_number(15, 0x31, 0x35, m);
    lemma_number(17, 0x31, 0x37, m);
    lemma_number(18, 0x31, 0x38, m);
    lemma_number(19, 0x31, 0x39, m);
    lemma_number(20, 0x32, 0x30, m);
    lemma_number(21, 0x32, 0x31, m);
    lemma_number(23, 0x32, 0x33, m);
    lemma_number(24, 0x32, 0x34, m);
}

proof fn lemma_number(n: nat, a: u8, b: u8, m: Modifiers)
    requires
        10 <= n < 100,
        a == 48 + n / 10,
        b == 48 + n % 10,
    ensures
        csi_tilde(n, modifier(m.ctrl, m.shift, m.alt)) == tilde(seq![a, b], m),
{
    reveal_with_fuel(decimal_bytes, 3);
    assert(decimal_bytes(n) =~= seq![a, b]);
    lemma_tilde(seq![a, b], m);
}

/// Enter is a carriage return, Backspace is DEL, Tab is a tab, Shift+Tab is `ESC [ Z` and Escape
/// is ESC; Alt puts ESC in front of each.
pub proof fn law_typed_single_keys(m: Modifiers, app_cursor: bool)
    ensures
        types(KeyCode::Enter, m, app_cursor, single(0x0d, m)),
        types(KeyCode::Backspace, m, app_cursor, single(0x7f, m)),
        types(KeyCode::Tab, m, app_cursor, single(0x09, m)),
        types(KeyCode::Esc, m, app_cursor, single(0x1b, m)),
        types(
            KeyCode::BackTab,
            m,
            app_cursor,
            if m.alt {
                seq![0x1b, 0x1b, 0x5b, 0x5a]
            } else {
                seq![0x1b, 0x5b, 0x5a]
            },
        ),
{
    let alt = alt_prefix(m.alt);
    assert(alt.push(0x0d) =~= single(0x0d, m));
    assert(alt.push(0x7f) =~= single(0x7f, m));
    assert(alt.push(0x09) =~= single(0x09, m));
    assert(alt.push(0x1b) =~= single(0x1b, m));
    assert(alt + seq![0x1bu8, 0x5bu8, 0x5au8] =~= if m.alt {
        seq![0x1b, 0x1b, 0x5b, 0x5a]
    } else {
        seq![0x1b, 0x5b, 0x5a]
    });
}

/// A character is sent in UTF-8, as it was typed. A letter with Ctrl is its place in the alphabet.
/// Alt puts ESC in front.
pub proof fn law_typed_characters(c: char, m: Modifiers, app_cursor: bool)
    ensures
        ({
            let letter = 'a' <= c <= 'z' || 'A' <= c <= 'Z';
            let body = if m.ctrl && letter {
                seq![(c as u8 % 32) as u8]
            } else {
                encode_utf8(seq![c])
            };
            types(
                KeyCode::Char(c),
                m,
                app_cursor,
                if m.alt {
                    seq![0x1bu8] + body
                } else {
                    body
                },
            )
        }),
{
    let letter = 'a' <= c <= 'z' || 'A' <= c <= 'Z';
    let body = if m.ctrl && letter {
        seq![(c as u8 % 32) as u8]
    } else {
        encode_utf8(seq![c])
    };
    assert(alt_prefix(m.alt) + body =~= if m.alt {
        seq![0x1bu8] + body
    } else {
        body
    });
}

// === The mouse, for the child ===

/// The number of what the mouse did: 0, 1 and 2 for the left, middle and right button, 32 more for
/// a drag, 35 for a move, 64 to 67 for the wheel; 4 more with Shift, 8 with Alt and 16 with Ctrl.
pub open spec fn number_of(kind: MouseEventKind, m: Modifiers) -> int {
    (match kind {
        MouseEventKind::Down(MouseButton::Left) | MouseEventKind::Up(MouseButton::Left) => 0int,
        MouseEventKind::Down(MouseButton::Middle) | MouseEventKind::Up(MouseButton::Middle) => 1,
        MouseEventKind::Down(MouseButton::Right) | MouseEventKind::Up(MouseButton::Right) => 2,
        MouseEventKind::Drag(MouseButton::Left) => 32,
        MouseEventKind::Drag(MouseButton::Middle) => 33,
        MouseEventKind::Drag(MouseButton::Right) => 34,
        MouseEventKind::Moved => 35,
        MouseEventKind::ScrollUp => 64,
        MouseEventKind::ScrollDown => 65,
        MouseEventKind::ScrollLeft => 66,
        MouseEventKind::ScrollRight => 67,
    }) + (if m.shift {
        4int
    } else {
        0
    }) + (if m.alt {
        8int
    } else {
        0
    }) + (if m.ctrl {
        16int
    } else {
        0
    })
}

/// Whether the child asked for an event: for none unless it asked for the mouse, for drags only if
/// it asked for these or for all motion, for moves only if it asked for all motion.
pub open spec fn is_asked_for(kind: MouseEventKind, mode: TermMode) -> bool {
    if kind is Moved {
        mode.mouse_motion
    } else if kind is Drag {
        mode.mouse_drag || mode.mouse_motion
    } else {
        mode.mouse_report_click || mode.mouse_drag || mode.mouse_motion
    }
}

/// The child gets what it asked for, with the column and the row counted from one: in the SGR
/// encoding `ESC [ < number ; column ; row` with M, or m for a release; in the old one `ESC [ M`
/// and three bytes, each 32 more, no releases and nothing beyond 223.
pub proof fn law_the_mouse_is_reported(mouse: MouseEvent, mode: TermMode)
    requires
        mouse.column < u16::MAX,
        mouse.row < u16::MAX,
    ensures
        ({
            let n = number_of(mouse.kind, mouse.modifiers);
            let col = mouse.column + 1;
            let row = mouse.row + 1;
            let bytes = mouse_bytes(mouse, mode);
            if !is_asked_for(mouse.kind, mode) {
                bytes is None
            } else if mode.sgr_mouse {
                bytes == Some(
                    seq![0x1bu8, 0x5b, 0x3c] + decimal_bytes(n as nat) + seq![0x3bu8]
                        + decimal_bytes(col as nat) + seq![0x3bu8] + decimal_bytes(row as nat)
                        + seq![
                        if mouse.kind is Up {
                            0x6du8
                        } else {
                            0x4d
                        },
                    ],
                )
            } else if mouse.kind is Up || col > 223 || row > 223 {
                bytes is None
            } else {
                bytes == Some(
                    seq![
                        0x1bu8,
                        0x5b,
                        0x4d,
                        (n + 32) as u8,
                        (col + 32) as u8,
                        (row + 32) as u8,
                    ],
                )
            }
        }),
{
}

/// The number that decimal digits in ASCII spell.
pub open spec fn spelled(digits: Seq<u8>) -> nat
    decreases digits.len(),
{
    if digits.len() == 0 {
        0
    } else {
        10 * spelled(digits.drop_last()) + (digits.last() - 48) as nat
    }
}

/// A number is written in decimal digits, without zeros in front.
pub proof fn law_numbers_are_written_in_digits(n: nat)
    ensures
        spelled(decimal_bytes(n)) == n,
        decimal_bytes(n).len() > 0,
        forall|i: int|
            0 <= i < decimal_bytes(n).len() ==> 48 <= #[trigger] decimal_bytes(n)[i] <= 57,
        n > 0 ==> decimal_bytes(n)[0] > 48,
    decreases n,
{
    if n >= 10 {
        law_numbers_are_written_in_digits(n / 10);
        assert(decimal_bytes(n).drop_last() =~= decimal_bytes(n / 10));
    } else {
        assert(decimal_bytes(n).drop_last() =~= Seq::<u8>::empty());
        assert(spelled(decimal_bytes(n).drop_last()) == 0);
    }
}

// === The mouse, for the selection ===

/// The place under the mouse: its column, at most the last one, and its row, counted from the
/// first line that is not scrolled off.
pub open spec fn place(v: TerminalView, mouse: MouseEvent, grid: GridState) -> Point {
    Point {
        line: (mouse.row - grid.display_offset) as i64,
        column: if mouse.column >= v.size.cols {
            (v.size.cols - 1) as usize
        } else {
            mouse.column as usize
        },
    }
}

/// A left click begins a selection where it is: of characters with one click, of words with two
/// and of lines with three within half a second at the same place. With Shift it extends the
/// selection that there is.
pub proof fn law_clicks_select(v: TerminalView, mouse: MouseEvent, grid: GridState, now: u64)
    requires
        mouse.kind == MouseEventKind::Down(MouseButton::Left),
        v.size.cols > 0,
    ensures
        ({
            let (after, action) = mouse_action(v, mouse, grid, now);
            let at = place(v, mouse, grid);
            let again = v.selection.last_click is Some && v.selection.last_click->Some_0.point == at
                && now < v.selection.last_click->Some_0.time + 500_000_000;
            if mouse.modifiers.shift && grid.has_selection {
                &&& action == MouseAction::Extend(at)
                &&& after.selection == v.selection
            } else {
                let n: int = if again {
                    v.selection.click_count % 3 + 1
                } else {
                    1
                };
                &&& after.selection.last_click == Some(Click { time: now, point: at })
                &&& after.selection.click_count == n
                &&& after.selection.drag_edge == v.selection.drag_edge
                &&& action == (MouseAction::Start {
                    kind: if n == 1 {
                        SelectionType::Simple
                    } else if n == 2 {
                        SelectionType::Semantic
                    } else {
                        SelectionType::Lines
                    },
                    point: at,
                    whole: n > 1,
                })
            }
        }),
        mouse_action(v, mouse, grid, now).0.size == v.size,
        mouse_action(v, mouse, grid, now).0.dirty,
{
}

/// How many rows at each edge scroll the screen while the mouse is dragged there: a quarter of
/// them, at most three.
pub open spec fn edge_rows(rows: u16) -> int {
    if rows >= 12 {
        3
    } else {
        (rows / 4) as int
    }
}

/// A drag moves the end of the selection to where the mouse is. Where it comes to the rows at the
/// upper edge the screen scrolls up by a line, at the lower edge down; away from them it stops.
pub proof fn law_drags_select(v: TerminalView, mouse: MouseEvent, grid: GridState, now: u64)
    requires
        mouse.kind == MouseEventKind::Drag(MouseButton::Left),
        v.size.cols > 0,
    ensures
        ({
            let (after, action) = mouse_action(v, mouse, grid, now);
            let edge = edge_rows(v.size.rows);
            let upper = mouse.row < edge;
            let lower = edge > 0 && mouse.row >= v.size.rows - edge;
            let before = v.selection.drag_edge;
            &&& action == (MouseAction::Drag {
                point: place(v, mouse, grid),
                scroll: if before is Some || !upper && !lower {
                    0i32
                } else if upper {
                    1i32
                } else {
                    -1i32
                },
            })
            &&& after.selection.last_click == v.selection.last_click
            &&& after.selection.click_count == v.selection.click_count
            &&& after.selection.drag_edge == (if !upper && !lower {
                None
            } else if before is Some {
                Some(DragEdge { row: mouse.row, ..before->Some_0 })
            } else {
                Some(DragEdge { row: mouse.row, column: mouse.column as usize, last_scroll: now })
            })
            &&& after.size == v.size
        }),
{
}

/// A release ends the drag; an empty selection goes and any other is copied. The wheel scrolls by
/// three lines. Anything else does nothing.
pub proof fn law_releases_and_the_wheel(
    v: TerminalView,
    mouse: MouseEvent,
    grid: GridState,
    now: u64,
)
    ensures
        ({
            let (after, action) = mouse_action(v, mouse, grid, now);
            match mouse.kind {
                MouseEventKind::Up(MouseButton::Left) => {
                    &&& action == if grid.selection_is_empty {
                        MouseAction::Clear
                    } else {
                        MouseAction::Copy
                    }
                    &&& after == (TerminalView {
                        selection: SelectionState { drag_edge: None, ..v.selection },
                        ..v
                    })
                },
                MouseEventKind::ScrollUp => action == MouseAction::Scroll(3) && after == (
                TerminalView { dirty: true, ..v }),
                MouseEventKind::ScrollDown => action == MouseAction::Scroll(-3i32) && after == (
                TerminalView { dirty: true, ..v }),
                MouseEventKind::Down(MouseButton::Left) => true,
                MouseEventKind::Drag(MouseButton::Left) => true,
                _ => action == MouseAction::Nothing && after == v,
            }
        }),
{
}

/// While the mouse stays at an edge the screen goes on scrolling by a line, the sooner the nearer
/// the mouse is to the edge: after 120 milliseconds in the innermost row, 30 in the next and 8 in
/// the outermost.
pub proof fn law_scrolling_at_the_edge(v: TerminalView, now: u64)
    requires
        v.size.rows >= 4,
        v.selection.drag_edge matches Some(edge) ==> edge.row < v.size.rows,
    ensures
        match v.selection.drag_edge {
            None => drag_tick(v, now) is None,
            Some(edge) => {
                let zone = edge_rows(v.size.rows);
                let upper = edge.row < zone;
                let lower = edge.row >= v.size.rows - zone;
                let inward = if upper {
                    zone - 1 - edge.row
                } else {
                    edge.row - (v.size.rows - zone)
                };
                let wait: int = if inward == 0 {
                    120_000_000
                } else if inward == 1 {
                    30_000_000
                } else {
                    8_000_000
                };
                if !upper && !lower || now < edge.last_scroll + wait {
                    drag_tick(v, now) is None
                } else {
                    drag_tick(v, now) == Some(
                        (
                            DragEdge { last_scroll: now, ..edge },
                            if upper {
                                1i32
                            } else {
                                -1i32
                            },
                        ),
                    )
                }
            },
        },
{
}

// === Looks ===

/// The eight colours and their dim forms are drawn as these colours, the bright ones as the bright
/// ones; a colour with a number or of its own is drawn as it is, and anything else in the default
/// colour. Selected cells have their colours swapped, with black on white for default colours. A
/// hidden character has the colour of its background.
pub proof fn law_colours(fg: AnsiColor, bg: AnsiColor, flags: CellFlags, selected: bool)
    requires
        !flags.spacer,
    ensures
        ({
            let look = look_of_cell(fg, bg, flags, selected);
            let f = colour_of(fg);
            let b = colour_of(bg);
            let back = if !selected {
                b
            } else if f == Color::Reset {
                Color::White
            } else {
                f
            };
            let fore = if !selected {
                f
            } else if b == Color::Reset {
                Color::Black
            } else {
                b
            };
            &&& look is Some
            &&& look->Some_0.bg == back
            &&& look->Some_0.fg == if flags.hidden {
                back
            } else {
                fore
            }
            &&& look->Some_0.bold == flags.bold
            &&& look->Some_0.dim == flags.dim
            &&& look->Some_0.italic == flags.italic
            &&& look->Some_0.underlined == flags.underline
            &&& look->Some_0.crossed_out == flags.strikeout
            &&& look->Some_0.reversed == flags.inverse
        }),
{
}

pub open spec fn colour_of(c: AnsiColor) -> Color {
    match c {
        AnsiColor::Spec(r, g, b) => Color::Rgb(r, g, b),
        AnsiColor::Indexed(i) => Color::Indexed(i),
        AnsiColor::Named(NamedColor::Black) => Color::Black,
        AnsiColor::Named(NamedColor::DimBlack) => Color::Black,
        AnsiColor::Named(NamedColor::Red) => Color::Red,
        AnsiColor::Named(NamedColor::DimRed) => Color::Red,
        AnsiColor::Named(NamedColor::Green) => Color::Green,
        AnsiColor::Named(NamedColor::DimGreen) => Color::Green,
        AnsiColor::Named(NamedColor::Yellow) => Color::Yellow,
        AnsiColor::Named(NamedColor::DimYellow) => Color::Yellow,
        AnsiColor::Named(NamedColor::Blue) => Color::Blue,
        AnsiColor::Named(NamedColor::DimBlue) => Color::Blue,
        AnsiColor::Named(NamedColor::Magenta) => Color::Magenta,
        AnsiColor::Named(NamedColor::DimMagenta) => Color::Magenta,
        AnsiColor::Named(NamedColor::Cyan) => Color::Cyan,
        AnsiColor::Named(NamedColor::DimCyan) => Color::Cyan,
        AnsiColor::Named(NamedColor::White) => Color::White,
        AnsiColor::Named(NamedColor::DimWhite) => Color::White,
        AnsiColor::Named(NamedColor::BrightBlack) => Color::DarkGray,
        AnsiColor::Named(NamedColor::BrightRed) => Color::LightRed,
        AnsiColor::Named(NamedColor::BrightGreen) => Color::LightGreen,
        AnsiColor::Named(NamedColor::BrightYellow) => Color::LightYellow,
        AnsiColor::Named(NamedColor::BrightBlue) => Color::LightBlue,
        AnsiColor::Named(NamedColor::BrightMagenta) => Color::LightMagenta,
        AnsiColor::Named(NamedColor::BrightCyan) => Color::LightCyan,
        AnsiColor::Named(NamedColor::BrightWhite) => Color::White,
        AnsiColor::Named(NamedColor::BrightForeground) => Color::White,
        AnsiColor::Named(NamedColor::Other) => Color::Reset,
    }
}

/// A spacer behind a wide character is not drawn. An empty cell is a space, any other its
/// character, with the marks on it.
pub proof fn law_cells(
    fg: AnsiColor,
    bg: AnsiColor,
    flags: CellFlags,
    selected: bool,
    c: char,
    marks: Seq<char>,
)
    ensures
        flags.spacer ==> look_of_cell(fg, bg, flags, selected) is None,
        text_of_cell(c, marks).len() == 1 + marks.len(),
        text_of_cell(c, marks)[0] == if c == '\0' {
            ' '
        } else {
            c
        },
        text_of_cell(c, marks).skip(1) == marks,
{
    assert(text_of_cell(c, marks).skip(1) =~= marks);
}

/// The cursor blinks where the application asked for that, and has the shape that it asked for.
pub proof fn law_cursor_styles()
    ensures
        style_of_cursor(CursorShape::Block, true) == CursorStyle::BlinkingBlock,
        style_of_cursor(CursorShape::Block, false) == CursorStyle::SteadyBlock,
        style_of_cursor(CursorShape::Underline, true) == CursorStyle::BlinkingUnderScore,
        style_of_cursor(CursorShape::Underline, false) == CursorStyle::SteadyUnderScore,
        style_of_cursor(CursorShape::Beam, true) == CursorStyle::BlinkingBar,
        style_of_cursor(CursorShape::Beam, false) == CursorStyle::SteadyBar,
{
}

} // verus!
