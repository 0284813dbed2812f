//! Terminal view: input encoding, mouse selection and what a cell looks like.
//!
//! The terminal grid itself is drawn and scrolled elsewhere. This module decides what an input
//! event does to it and which bytes go to the PTY. Times are nanoseconds since the session
//! started.
use vstd::prelude::*;
use vstd::utf8::encode_utf8;
use crate::keys::{
    alt_prefix, csi_key, csi_tilde, decimal_bytes, encode_csi_key, encode_csi_tilde,
    encode_simple_key, encode_ss3_or_csi, is_lower, is_upper, modifier, named_key, number_bytes,
    ss3_or_csi,
};
use crate::strings::{bytes_of, pasted, pasted_text};

verus! {

// === Input events ===

#[derive(Debug, Clone, Copy, PartialEq, Eq, Structural)]
pub enum KeyCode {
    Char(char),
    Enter,
    Backspace,
    Tab,
    BackTab,
    Esc,
    Insert,
    Delete,
    Up,
    Down,
    Left,
    Right,
    Home,
    End,
    PageUp,
    PageDown,
    F(u8),
    /// A key that has no bytes of its own.
    Other,
}

#[derive(Debug, Clone, Copy, PartialEq, Eq, Structural)]
pub struct Modifiers {
    pub shift: bool,
    pub ctrl: bool,
    pub alt: bool,
}

#[derive(Debug, Clone, Copy, PartialEq, Eq, Structural)]
pub struct KeyEvent {
    pub code: KeyCode,
    pub modifiers: Modifiers,
    /// Whether the key went down, as opposed to a repeat or a release.
    pub press: bool,
}

#[derive(Debug, Clone, Copy, PartialEq, Eq, Structural)]
pub enum MouseButton {
    Left,
    Middle,
    Right,
}

#[derive(Debug, Clone, Copy, PartialEq, Eq, Structural)]
pub enum MouseEventKind {
    Down(MouseButton),
    Up(MouseButton),
    Drag(MouseButton),
    Moved,
    ScrollUp,
    ScrollDown,
    ScrollLeft,
    ScrollRight,
}

#[derive(Debug, Clone, Copy, PartialEq, Eq, Structural)]
pub struct MouseEvent {
    pub kind: MouseEventKind,
    pub column: u16,
    pub row: u16,
    pub modifiers: Modifiers,
}

/// What the child application asked of the terminal.
#[derive(Debug, Clone, Copy, PartialEq, Eq, Structural)]
pub struct TermMode {
    /// Report clicks.
    pub mouse_report_click: bool,
    /// Report drags too.
    pub mouse_drag: bool,
    /// Report all motion too.
    pub mouse_motion: bool,
    /// Report the mouse in the SGR encoding.
    pub sgr_mouse: bool,
    /// Application cursor keys (DECCKM).
    pub app_cursor: bool,
    pub bracketed_paste: bool,
    /// Focus events (DECSET 1004).
    pub focus_in_out: bool,
}

// === Key encoding ===

/// Arrow keys, Home and End: SS3 for an unmodified key in application cursor mode, else CSI.
pub open spec fn cursor_key_bytes(last: u8, app_cursor: bool, m: nat) -> Seq<u8> {
    if app_cursor && m == 1 {
        seq![0x1bu8, 0x4fu8, last]
    } else {
        csi_key(seq![last], m)
    }
}

/// The number of F5 to F12 in their CSI sequence.
pub open spec fn function_key_number(n: u8) -> nat {
    if n == 5 {
        15
    } else if n <= 10 {
        (n + 11) as nat
    } else {
        (n + 12) as nat
    }
}

/// The bytes of a key, if it has any.
pub open spec fn key_event_bytes(key: KeyEvent, app_cursor: bool) -> Option<Seq<u8>> {
    let ctrl = key.modifiers.ctrl;
    let alt = key.modifiers.alt;
    let m = modifier(ctrl, key.modifiers.shift, alt);
    match key.code {
        KeyCode::Char(c) => Some(
            alt_prefix(alt) + if ctrl && is_lower(c) {
                seq![(c as u8 - 96) as u8]
            } else if ctrl && is_upper(c) {
                seq![(c as u8 - 64) as u8]
            } else {
                encode_utf8(seq![c])
            },
        ),
        KeyCode::Enter => Some(alt_prefix(alt).push(0x0d)),
        KeyCode::Backspace => Some(alt_prefix(alt).push(0x7f)),
        KeyCode::Tab => Some(alt_prefix(alt).push(0x09)),
        KeyCode::BackTab => Some(alt_prefix(alt) + seq![0x1bu8, 0x5bu8, 0x5au8]),
        KeyCode::Esc => Some(alt_prefix(alt).push(0x1b)),
        KeyCode::Insert => Some(csi_key(seq![0x32u8, 0x7eu8], m)),
        KeyCode::Delete => Some(csi_key(seq![0x33u8, 0x7eu8], m)),
        KeyCode::PageUp => Some(csi_key(seq![0x35u8, 0x7eu8], m)),
        KeyCode::PageDown => Some(csi_key(seq![0x36u8, 0x7eu8], m)),
        KeyCode::Up => Some(cursor_key_bytes(0x41, app_cursor, m)),
        KeyCode::Down => Some(cursor_key_bytes(0x42, app_cursor, m)),
        KeyCode::Right => Some(cursor_key_bytes(0x43, app_cursor, m)),
        KeyCode::Left => Some(cursor_key_bytes(0x44, app_cursor, m)),
        KeyCode::Home => Some(cursor_key_bytes(0x48, app_cursor, m)),
        KeyCode::End => Some(cursor_key_bytes(0x46, app_cursor, m)),
        KeyCode::F(n) => if 1 <= n <= 4 {
            Some(ss3_or_csi((0x4f + n) as u8, m))
        } else if 5 <= n <= 12 {
            Some(csi_tilde(function_key_number(n), m))
        } else {
            None
        },
        KeyCode::Other => None,
    }
}

/// Encode an arrow/Home/End key, respecting application cursor mode (DECCKM).
pub fn cursor_key(last: u8, app_cursor: bool, modifiers: Modifiers) -> (bytes: Vec<u8>)
    ensures
        bytes@ == cursor_key_bytes(
            last,
            app_cursor,
            modifier(modifiers.ctrl, modifiers.shift, modifiers.alt),
        ),
{
    if app_cursor && !modifiers.ctrl && !modifiers.shift && !modifiers.alt {
        vec![0x1b, 0x4f, last]
    } else {
        let suffix: Vec<u8> = vec![last];
        encode_csi_key(suffix.as_slice(), modifiers.ctrl, modifiers.shift, modifiers.alt)
    }
}

fn with_alt(alt: bool, rest: &[u8]) -> (bytes: Vec<u8>)
    ensures
        bytes@ == alt_prefix(alt) + rest@,
{
    let mut bytes: Vec<u8> = Vec::new();
    if alt {
        bytes.push(0x1b);
    }
    bytes.extend_from_slice(rest);
    assert(bytes@ =~= alt_prefix(alt) + rest@);
    bytes
}

fn char_key_bytes(c: char, ctrl: bool, alt: bool) -> (bytes: Vec<u8>)
    ensures
        bytes@ == alt_prefix(alt) + if ctrl && is_lower(c) {
            seq![(c as u8 - 96) as u8]
        } else if ctrl && is_upper(c) {
            seq![(c as u8 - 64) as u8]
        } else {
            encode_utf8(seq![c])
        },
{
    if ctrl && 'a' <= c && c <= 'z' {
        let rest: Vec<u8> = vec![c as u8 - 96];
        with_alt(alt, rest.as_slice())
    } else if ctrl && 'A' <= c && c <= 'Z' {
        let rest: Vec<u8> = vec![c as u8 - 64];
        with_alt(alt, rest.as_slice())
    } else {
        let mut s = String::new();
        s.push(c);
        assert(s@ =~= seq![c]);
        let utf8 = bytes_of(s.as_str());
        with_alt(alt, utf8.as_slice())
    }
}

/// Encode a key event to PTY bytes.
///
/// When `app_cursor` is true (child enabled DECCKM), unmodified arrow and Home/End keys emit SS3
/// sequences instead of CSI. Modified keys always use CSI with modifier parameters.
pub fn encode_key_event(key: &KeyEvent, app_cursor: bool) -> (r: Option<Vec<u8>>)
    ensures
        match key_event_bytes(*key, app_cursor) {
            Some(b) => r matches Some(v) && v@ == b,
            None => r is None,
        },
{
    let ctrl = key.modifiers.ctrl;
    let shift = key.modifiers.shift;
    let alt = key.modifiers.alt;
    match key.code {
        KeyCode::Char(c) => Some(char_key_bytes(c, ctrl, alt)),
        KeyCode::Enter => Some(encode_simple_key(0x0d, alt)),
        KeyCode::Backspace => Some(encode_simple_key(0x7f, alt)),
        KeyCode::Tab => Some(encode_simple_key(0x09, alt)),
        KeyCode::BackTab => Some(with_alt(alt, vec![0x1b, 0x5b, 0x5a].as_slice())),
        KeyCode::Esc => Some(encode_simple_key(0x1b, alt)),
        KeyCode::Insert => Some(encode_csi_key(vec![0x32, 0x7e].as_slice(), ctrl, shift, alt)),
        KeyCode::Delete => Some(encode_csi_key(vec![0x33, 0x7e].as_slice(), ctrl, shift, alt)),
        KeyCode::PageUp => Some(encode_csi_key(vec![0x35, 0x7e].as_slice(), ctrl, shift, alt)),
        KeyCode::PageDown => Some(encode_csi_key(vec![0x36, 0x7e].as_slice(), ctrl, shift, alt)),
        KeyCode::Up => Some(cursor_key(0x41, app_cursor, key.modifiers)),
        KeyCode::Down => Some(cursor_key(0x42, app_cursor, key.modifiers)),
        KeyCode::Right => Some(cursor_key(0x43, app_cursor, key.modifiers)),
        KeyCode::Left => Some(cursor_key(0x44, app_cursor, key.modifiers)),
        KeyCode::Home => Some(cursor_key(0x48, app_cursor, key.modifiers)),
        KeyCode::End => Some(cursor_key(0x46, app_cursor, key.modifiers)),
        KeyCode::F(n) => if 1 <= n && n <= 4 {
            Some(encode_ss3_or_csi(0x4f + n, ctrl, shift, alt))
        } else if 5 <= n && n <= 12 {
            let num: u8 = if n == 5 {
                15
            } else if n <= 10 {
                n + 11
            } else {
                n + 12
            };
            Some(encode_csi_tilde(num, ctrl, shift, alt))
        } else {
            None
        },
        KeyCode::Other => None,
    }
}

// === Mouse encoding ===

/// Whether the terminal is in any mouse reporting mode.
pub open spec fn mouse_wanted(mode: TermMode) -> bool {
    mode.mouse_report_click || mode.mouse_drag || mode.mouse_motion
}

/// Whether a mouse event is reported. Clicks and scrolling are in every mouse mode, drags and
/// plain motion only in the modes that ask for them.
pub open spec fn mouse_reported(kind: MouseEventKind, mode: TermMode) -> bool {
    mouse_wanted(mode) && match kind {
        MouseEventKind::Drag(_) => mode.mouse_drag || mode.mouse_motion,
        MouseEventKind::Moved => mode.mouse_motion,
        _ => true,
    }
}

pub open spec fn button_code(b: MouseButton) -> nat {
    match b {
        MouseButton::Left => 0,
        MouseButton::Middle => 1,
        MouseButton::Right => 2,
    }
}

/// The number of a mouse event: its button or wheel, 32 more for motion, and its modifiers.
pub open spec fn mouse_code(kind: MouseEventKind, m: Modifiers) -> nat {
    let base: nat = match kind {
        MouseEventKind::Down(b) => button_code(b),
        MouseEventKind::Up(b) => button_code(b),
        MouseEventKind::Drag(b) => button_code(b) + 32,
        MouseEventKind::Moved => 35,
        MouseEventKind::ScrollUp => 64,
        MouseEventKind::ScrollDown => 65,
        MouseEventKind::ScrollLeft => 66,
        MouseEventKind::ScrollRight => 67,
    };
    base + (if m.shift {
        4nat
    } else {
        0
    }) + (if m.alt {
        8nat
    } else {
        0
    }) + (if m.ctrl {
        16nat
    } else {
        0
    })
}

/// The bytes of a mouse event, where the terminal wants it and can write it. Columns and rows
/// count from one. SGR writes decimal numbers; the older encoding has one byte for each, no
/// releases, and nothing beyond 223.
pub open spec fn mouse_bytes(mouse: MouseEvent, mode: TermMode) -> Option<Seq<u8>> {
    let code = mouse_code(mouse.kind, mouse.modifiers);
    let col = (mouse.column + 1) as nat;
    let row = (mouse.row + 1) as nat;
    let release = mouse.kind is Up;
    if !mouse_reported(mouse.kind, mode) {
        None
    } else if mode.sgr_mouse {
        Some(
            seq![0x1bu8, 0x5bu8, 0x3cu8] + decimal_bytes(code) + seq![0x3bu8] + decimal_bytes(col)
                + seq![0x3bu8] + decimal_bytes(row) + seq![
                if release {
                    0x6du8
                } else {
                    0x4du8
                },
            ],
        )
    } else if release || col > 223 || row > 223 {
        None
    } else {
        Some(
            seq![
                0x1bu8,
                0x5bu8,
                0x4du8,
                (code + 32) as u8,
                (col + 32) as u8,
                (row + 32) as u8,
            ],
        )
    }
}

/// Check if the terminal is in any mouse reporting mode.
pub fn wants_mouse(mode: &TermMode) -> (r: bool)
    ensures
        r == mouse_wanted(*mode),
{
    mode.mouse_report_click || mode.mouse_drag || mode.mouse_motion
}

pub fn button_number(b: MouseButton) -> (n: u8)
    ensures
        n == button_code(b),
        n <= 2,
{
    match b {
        MouseButton::Left => 0,
        MouseButton::Middle => 1,
        MouseButton::Right => 2,
    }
}

fn mouse_number(kind: MouseEventKind, m: Modifiers) -> (n: u8)
    ensures
        n == mouse_code(kind, m),
        n <= 95,
{
    let base: u8 = match kind {
        MouseEventKind::Down(b) => button_number(b),
        MouseEventKind::Up(b) => button_number(b),
        MouseEventKind::Drag(b) => button_number(b) + 32,
        MouseEventKind::Moved => 35,
        MouseEventKind::ScrollUp => 64,
        MouseEventKind::ScrollDown => 65,
        MouseEventKind::ScrollLeft => 66,
        MouseEventKind::ScrollRight => 67,
    };
    base + (if m.shift {
        4u8
    } else {
        0
    }) + (if m.alt {
        8u8
    } else {
        0
    }) + (if m.ctrl {
        16u8
    } else {
        0
    })
}

/// Encode a mouse event as bytes to send to the PTY.
pub fn mouse_to_bytes(mouse: &MouseEvent, mode: &TermMode) -> (r: Option<Vec<u8>>)
    requires
        mouse_reported(mouse.kind, *mode) ==> mouse.column < u16::MAX && mouse.row < u16::MAX,
    ensures
        match mouse_bytes(*mouse, *mode) {
            Some(b) => r matches Some(v) && v@ == b,
            None => r is None,
        },
{
    if !wants_mouse(mode) {
        return None;
    }
    let (reported, release) = match mouse.kind {
        MouseEventKind::Drag(_) => (mode.mouse_drag || mode.mouse_motion, false),
        MouseEventKind::Moved => (mode.mouse_motion, false),
        MouseEventKind::Up(_) => (true, true),
        _ => (true, false),
    };
    if !reported {
        return None;
    }
    let code = mouse_number(mouse.kind, mouse.modifiers);
    let col: u16 = mouse.column + 1;
    let row: u16 = mouse.row + 1;
    if mode.sgr_mouse {
        let mut bytes: Vec<u8> = vec![0x1b, 0x5b, 0x3c];
        bytes.extend_from_slice(number_bytes(code as usize).as_slice());
        bytes.push(0x3b);
        bytes.extend_from_slice(number_bytes(col as usize).as_slice());
        bytes.push(0x3b);
        bytes.extend_from_slice(number_bytes(row as usize).as_slice());
        bytes.push(
            if release {
                0x6d
            } else {
                0x4d
            },
        );
        proof {
            assert(bytes@ =~= mouse_bytes(*mouse, *mode)->0);
        }
        Some(bytes)
    } else if release || col > 223 || row > 223 {
        None
    } else {
        Some(vec![0x1b, 0x5b, 0x4d, code + 32, (col + 32) as u8, (row + 32) as u8])
    }
}

// === Paste ===

/// Pasted text as bytes, between markers where the child asked for them.
pub open spec fn paste_bytes(text: Seq<char>, bracketed: bool) -> Seq<u8> {
    let body = encode_utf8(pasted(text));
    if bracketed {
        seq![0x1bu8, 0x5bu8, 0x32u8, 0x30u8, 0x30u8, 0x7eu8] + body + seq![
            0x1bu8,
            0x5bu8,
            0x32u8,
            0x30u8,
            0x31u8,
            0x7eu8,
        ]
    } else {
        body
    }
}

/// Encode pasted text for the PTY.
pub fn pasted_bytes(text: &str, bracketed: bool) -> (bytes: Vec<u8>)
    ensures
        bytes@ == paste_bytes(text@, bracketed),
{
    let body = bytes_of(pasted_text(text).as_str());
    if !bracketed {
        return body;
    }
    let mut bytes: Vec<u8> = vec![0x1b, 0x5b, 0x32, 0x30, 0x30, 0x7e];
    bytes.extend_from_slice(body.as_slice());
    bytes.extend_from_slice(vec![0x1b, 0x5b, 0x32, 0x30, 0x31, 0x7e].as_slice());
    proof {
        assert(bytes@ =~= paste_bytes(text@, bracketed));
    }
    bytes
}

// === Size ===

#[derive(Debug, Clone, Copy, PartialEq, Eq, Structural)]
pub struct Size {
    pub cols: u16,
    pub rows: u16,
}

impl Size {
    /// The size that the outer terminal reports (columns, rows), or 80 by 24.
    pub fn reported(size: Option<(u16, u16)>) -> (r: Self)
        ensures
            r == match size {
                Some((cols, rows)) => Size { cols, rows },
                None => Size { cols: 80, rows: 24 },
            },
    {
        match size {
            Some((cols, rows)) => Size { cols, rows },
            None => Size { cols: 80, rows: 24 },
        }
    }
}

// === Selection ===

/// Rows from each viewport edge that trigger auto-scroll during drag selection. Fewer in small
/// terminals, so that the scroll zones do not overlap.
pub open spec fn margin_of(rows: u16) -> u16 {
    if rows / 4 < 3 {
        rows / 4
    } else {
        3
    }
}

/// Compute the scroll margin for the current terminal height.
pub fn scroll_margin(rows: u16) -> (m: u16)
    ensures
        m == margin_of(rows),
        m <= rows,
{
    if rows / 4 < 3 {
        rows / 4
    } else {
        3
    }
}

/// A place in the grid. Lines above the screen are negative.
#[derive(Debug, Clone, Copy, PartialEq, Eq, Structural)]
pub struct Point {
    pub line: i64,
    pub column: usize,
}

#[derive(Debug, Clone, Copy, PartialEq, Eq, Structural)]
pub enum SelectionType {
    Simple,
    Semantic,
    Lines,
}

/// Active auto-scroll state when dragging inside a scroll margin.
#[derive(Debug, Clone, Copy, PartialEq, Eq, Structural)]
pub struct DragEdge {
    /// Current mouse row in the viewport.
    pub row: u16,
    /// Mouse column when drag entered the scroll zone. Stays fixed to prevent the selection
    /// endpoint from drifting during auto-scroll ticks.
    pub column: usize,
    /// Last time we scrolled. Used for throttling.
    pub last_scroll: u64,
}

/// When and where the mouse was clicked.
#[derive(Debug, Clone, Copy, PartialEq, Eq, Structural)]
pub struct Click {
    pub time: u64,
    pub point: Point,
}

/// Mouse selection interaction state: click detection and auto-scroll at viewport edges.
#[derive(Debug, Clone, Copy, PartialEq, Eq, Structural)]
pub struct SelectionState {
    /// When and where the last click was, for double/triple click detection.
    pub last_click: Option<Click>,
    /// Click counter: 1=single, 2=double, 3=triple. Cycles on repeated clicks.
    pub click_count: u8,
    /// Auto-scroll state when dragging inside a scroll margin.
    pub drag_edge: Option<DragEdge>,
}

impl Default for SelectionState {
    fn default() -> (r: Self)
        ensures
            r == (SelectionState { last_click: None, click_count: 0, drag_edge: None }),
    {
        SelectionState { last_click: None, click_count: 0, drag_edge: None }
    }
}

/// Two clicks belong together if less than this time passes between them.
pub const CLICK_INTERVAL: u64 = 500_000_000;

/// How far the mouse wheel scrolls.
pub const SCROLL_LINES: i32 = 3;

/// What is to be known of the grid.
#[derive(Debug, Clone, Copy, PartialEq, Eq, Structural)]
pub struct GridState {
    pub has_selection: bool,
    /// Whether there is a selection with nothing in it.
    pub selection_is_empty: bool,
    /// How many lines the view is scrolled up.
    pub display_offset: u32,
    pub mode: TermMode,
}

/// What a mouse event does to the grid.
#[derive(Debug, Clone, Copy, PartialEq, Eq, Structural)]
pub enum MouseAction {
    Nothing,
    /// Move the end of the selection.
    Extend(Point),
    /// Begin a selection; `whole` words or lines are selected at once.
    Start { kind: SelectionType, point: Point, whole: bool },
    /// Move the end of the selection, where there is one, and then scroll by so many lines.
    Drag { point: Point, scroll: i32 },
    /// Drop the selection.
    Clear,
    /// Copy the selection, where there is one.
    Copy,
    /// Scroll by so many lines.
    Scroll(i32),
}

/// What a key does to the grid, and the bytes that it sends.
pub struct KeyOutcome {
    pub clear_selection: bool,
    pub scroll_to_bottom: bool,
    pub bytes: Option<Vec<u8>>,
}

// === Terminal view ===

/// The state of the view around the grid.
#[derive(Debug, Clone, Copy, PartialEq, Eq, Structural)]
pub struct TerminalView {
    pub size: Size,
    pub selection: SelectionState,
    /// Whether there is something to draw.
    pub dirty: bool,
}

/// The place in the grid under the mouse.
pub open spec fn mouse_point_of(v: TerminalView, mouse: MouseEvent, display_offset: u32) -> Point {
    Point {
        line: (mouse.row - display_offset) as i64,
        column: if mouse.column < v.size.cols {
            mouse.column as usize
        } else {
            (v.size.cols - 1) as usize
        },
    }
}

/// How often the same place was clicked in a row, from one to three.
pub open spec fn clicks(s: SelectionState, point: Point, now: u64) -> u8 {
    match s.last_click {
        Some(c) => if now - c.time < CLICK_INTERVAL && c.point == point {
            (s.click_count % 3 + 1) as u8
        } else {
            1
        },
        None => 1,
    }
}

/// The left button goes down: with Shift the selection is extended, else one is begun, by words
/// on a double click and by lines on a triple one.
pub open spec fn mouse_down(
    v: TerminalView,
    mouse: MouseEvent,
    grid: GridState,
    now: u64,
) -> (TerminalView, MouseAction) {
    let point = mouse_point_of(v, mouse, grid.display_offset);
    if mouse.modifiers.shift && grid.has_selection {
        (TerminalView { dirty: true, ..v }, MouseAction::Extend(point))
    } else {
        let n = clicks(v.selection, point, now);
        (
            TerminalView {
                selection: SelectionState {
                    last_click: Some(Click { time: now, point }),
                    click_count: n,
                    ..v.selection
                },
                dirty: true,
                ..v
            },
            MouseAction::Start {
                kind: if n == 2 {
                    SelectionType::Semantic
                } else if n == 3 {
                    SelectionType::Lines
                } else {
                    SelectionType::Simple
                },
                point,
                whole: n >= 2,
            },
        )
    }
}

/// Whether a row is in the zone at the top or bottom where dragging scrolls.
pub open spec fn in_scroll_zone(row: u16, rows: u16) -> bool {
    margin_of(rows) > 0 && (row < margin_of(rows) || row >= rows - margin_of(rows))
}

/// The mouse is dragged. Where it enters a scroll zone, the view scrolls by one line at once.
pub open spec fn mouse_drag(
    v: TerminalView,
    mouse: MouseEvent,
    grid: GridState,
    now: u64,
) -> (TerminalView, MouseAction) {
    let point = mouse_point_of(v, mouse, grid.display_offset);
    let (edge, scroll): (Option<DragEdge>, i32) = if !in_scroll_zone(mouse.row, v.size.rows) {
        (None, 0)
    } else {
        match v.selection.drag_edge {
            Some(edge) => (Some(DragEdge { row: mouse.row, ..edge }), 0),
            None => (
                Some(
                    DragEdge { row: mouse.row, column: mouse.column as usize, last_scroll: now },
                ),
                if mouse.row < margin_of(v.size.rows) {
                    1i32
                } else {
                    -1i32
                },
            ),
        }
    };
    (
        TerminalView {
            selection: SelectionState { drag_edge: edge, ..v.selection },
            dirty: true,
            ..v
        },
        MouseAction::Drag { point, scroll },
    )
}

/// What a mouse event does that the child application does not want.
pub open spec fn mouse_action(
    v: TerminalView,
    mouse: MouseEvent,
    grid: GridState,
    now: u64,
) -> (TerminalView, MouseAction) {
    match mouse.kind {
        MouseEventKind::Down(MouseButton::Left) => mouse_down(v, mouse, grid, now),
        MouseEventKind::Drag(MouseButton::Left) => mouse_drag(v, mouse, grid, now),
        MouseEventKind::Up(MouseButton::Left) => (
            TerminalView {
                selection: SelectionState { drag_edge: None, ..v.selection },
                ..v
            },
            if grid.selection_is_empty {
                MouseAction::Clear
            } else {
                MouseAction::Copy
            },
        ),
        MouseEventKind::ScrollUp => (
            TerminalView { dirty: true, ..v },
            MouseAction::Scroll(SCROLL_LINES),
        ),
        MouseEventKind::ScrollDown => (
            TerminalView { dirty: true, ..v },
            MouseAction::Scroll((-SCROLL_LINES) as i32),
        ),
        _ => (v, MouseAction::Nothing),
    }
}

/// Whether a mouse event can be handled: its coordinates can be counted from one where they are
/// reported, and there is a column to select in where they are not.
pub open spec fn mouse_fits(v: TerminalView, mouse: MouseEvent, mode: TermMode) -> bool {
    &&& mouse_reported(mouse.kind, mode) ==> mouse.column < u16::MAX && mouse.row < u16::MAX
    &&& mouse_bytes(mouse, mode) is None && (mouse.kind == MouseEventKind::Down(MouseButton::Left)
        || mouse.kind == MouseEventKind::Drag(MouseButton::Left)) ==> v.size.cols > 0
}

/// How deep in the scroll zone at the top (`true`) or at the bottom a drag is.
pub open spec fn drag_depth(row: u16, rows: u16) -> Option<(int, bool)> {
    let margin = margin_of(rows);
    if row < margin {
        Some((margin - row, true))
    } else if row >= rows - margin {
        Some((row - (rows - margin - 1), false))
    } else {
        None
    }
}

/// The time between two lines of auto-scroll: shorter the deeper the drag is.
pub open spec fn drag_interval(depth: int) -> u64 {
    if depth == 1 {
        120_000_000
    } else if depth == 2 {
        30_000_000
    } else {
        8_000_000
    }
}

/// The direction in which a drag scrolls now, if it is time.
pub open spec fn drag_tick(v: TerminalView, now: u64) -> Option<(DragEdge, i32)> {
    match v.selection.drag_edge {
        None => None,
        Some(edge) => match drag_depth(edge.row, v.size.rows) {
            None => None,
            Some((depth, up)) => if now - edge.last_scroll < drag_interval(depth) {
                None
            } else {
                Some(
                    (
                        DragEdge { last_scroll: now, ..edge },
                        if up {
                            1i32
                        } else {
                            -1i32
                        },
                    ),
                )
            },
        },
    }
}

impl TerminalView {
    /// A view of the given size.
    pub fn new(size: Size) -> (v: Self)
        ensures
            v == (TerminalView {
                size,
                selection: SelectionState { last_click: None, click_count: 0, drag_edge: None },
                dirty: true,
            }),
    {
        TerminalView { size, selection: SelectionState::default(), dirty: true }
    }

    pub fn size(&self) -> (s: Size)
        ensures
            s == self.size,
    {
        self.size
    }

    pub fn is_dirty(&self) -> (r: bool)
        ensures
            r == self.dirty,
    {
        self.dirty
    }

    pub fn mark_dirty(&mut self)
        ensures
            *final(self) == (TerminalView { dirty: true, ..*old(self) }),
    {
        self.dirty = true;
    }

    /// The view was drawn.
    pub fn mark_drawn(&mut self)
        ensures
            *final(self) == (TerminalView { dirty: false, ..*old(self) }),
    {
        self.dirty = false;
    }

    /// Update terminal size.
    pub fn resize(&mut self, size: Size)
        ensures
            *final(self) == (TerminalView { size, dirty: true, ..*old(self) }),
    {
        self.size = size;
        self.dirty = true;
    }

    /// Process a key event. A key press clears the selection and shows the bottom of the screen.
    pub fn handle_key(&mut self, key: &KeyEvent, grid: &GridState) -> (r: KeyOutcome)
        ensures
            !key.press ==> *final(self) == *old(self) && !r.clear_selection && !r.scroll_to_bottom
                && r.bytes is None,
            key.press ==> {
                &&& r.clear_selection == grid.has_selection
                &&& r.scroll_to_bottom == (grid.display_offset != 0)
                &&& *final(self) == (TerminalView {
                    dirty: old(self).dirty || grid.has_selection || grid.display_offset != 0,
                    ..*old(self)
                })
                &&& match key_event_bytes(*key, grid.mode.app_cursor) {
                    Some(b) => r.bytes matches Some(v) && v@ == b,
                    None => r.bytes is None,
                }
            },
    {
        if !key.press {
            return KeyOutcome { clear_selection: false, scroll_to_bottom: false, bytes: None };
        }
        let scrolled = grid.display_offset != 0;
        if grid.has_selection || scrolled {
            self.dirty = true;
        }
        KeyOutcome {
            clear_selection: grid.has_selection,
            scroll_to_bottom: scrolled,
            bytes: encode_key_event(key, grid.mode.app_cursor),
        }
    }

    /// Encode pasted text for the PTY. Like a key press, a paste clears the selection and shows
    /// the bottom of the screen.
    pub fn encode_paste(&mut self, text: &str, grid: &GridState) -> (r: KeyOutcome)
        ensures
            r.clear_selection == grid.has_selection,
            r.scroll_to_bottom == (grid.display_offset != 0),
            r.bytes matches Some(v) && v@ == paste_bytes(text@, grid.mode.bracketed_paste),
            *final(self) == (TerminalView {
                dirty: old(self).dirty || grid.has_selection || grid.display_offset != 0,
                ..*old(self)
            }),
    {
        let scrolled = grid.display_offset != 0;
        if grid.has_selection || scrolled {
            self.dirty = true;
        }
        KeyOutcome {
            clear_selection: grid.has_selection,
            scroll_to_bottom: scrolled,
            bytes: Some(pasted_bytes(text, grid.mode.bracketed_paste)),
        }
    }

    fn mouse_point(&self, mouse: &MouseEvent, display_offset: u32) -> (p: Point)
        requires
            self.size.cols > 0,
        ensures
            p == mouse_point_of(*self, *mouse, display_offset),
    {
        let column: usize = if mouse.column < self.size.cols {
            mouse.column as usize
        } else {
            self.size.cols as usize - 1
        };
        Point { line: mouse.row as i64 - display_offset as i64, column }
    }

    /// Handle left mouse button down: start or extend selection.
    pub fn handle_mouse_down(&mut self, mouse: &MouseEvent, grid: &GridState, now: u64) -> (r:
        MouseAction)
        requires
            old(self).size.cols > 0,
        ensures
            (*final(self), r) == mouse_down(*old(self), *mouse, *grid, now),
    {
        let point = self.mouse_point(mouse, grid.display_offset);
        self.dirty = true;
        if mouse.modifiers.shift && grid.has_selection {
            return MouseAction::Extend(point);
        }
        let again = match self.selection.last_click {
            Some(c) => now.saturating_sub(c.time) < CLICK_INTERVAL && c.point == point,
            None => false,
        };
        let n: u8 = if again {
            self.selection.click_count % 3 + 1
        } else {
            1
        };
        self.selection.click_count = n;
        self.selection.last_click = Some(Click { time: now, point });
        let kind = if n == 2 {
            SelectionType::Semantic
        } else if n == 3 {
            SelectionType::Lines
        } else {
            SelectionType::Simple
        };
        MouseAction::Start { kind, point, whole: n >= 2 }
    }

    /// Handle left mouse button drag: update selection and auto-scroll.
    pub fn handle_mouse_drag(&mut self, mouse: &MouseEvent, grid: &GridState, now: u64) -> (r:
        MouseAction)
        requires
            old(self).size.cols > 0,
        ensures
            (*final(self), r) == mouse_drag(*old(self), *mouse, *grid, now),
    {
        let point = self.mouse_point(mouse, grid.display_offset);
        let margin = scroll_margin(self.size.rows);
        let in_zone = margin > 0 && (mouse.row < margin || mouse.row >= self.size.rows - margin);
        let mut scroll: i32 = 0;
        if in_zone {
            match self.selection.drag_edge {
                Some(edge) => {
                    self.selection.drag_edge = Some(DragEdge { row: mouse.row, ..edge });
                },
                None => {
                    self.selection.drag_edge = Some(
                        DragEdge {
                            row: mouse.row,
                            column: mouse.column as usize,
                            last_scroll: now,
                        },
                    );
                    scroll = if mouse.row < margin {
                        1
                    } else {
                        -1
                    };
                },
            }
        } else {
            self.selection.drag_edge = None;
        }
        self.dirty = true;
        MouseAction::Drag { point, scroll }
    }

    /// Handle left mouse button up: an empty selection (a single click without a drag) is dropped,
    /// any other is copied and stays visible.
    pub fn handle_mouse_up(&mut self, grid: &GridState) -> (r: MouseAction)
        ensures
            *final(self) == (TerminalView {
                selection: SelectionState { drag_edge: None, ..old(self).selection },
                ..*old(self)
            }),
            r == if grid.selection_is_empty {
                MouseAction::Clear
            } else {
                MouseAction::Copy
            },
    {
        self.selection.drag_edge = None;
        if grid.selection_is_empty {
            MouseAction::Clear
        } else {
            MouseAction::Copy
        }
    }

    /// Process a mouse event: bytes to write to the PTY where the child application wants it,
    /// else what it does to the selection and the scrollback.
    pub fn handle_mouse(&mut self, mouse: &MouseEvent, grid: &GridState, now: u64) -> (r: (
        Option<Vec<u8>>,
        MouseAction,
    ))
        requires
            mouse_fits(*old(self), *mouse, grid.mode),
        ensures
            match mouse_bytes(*mouse, grid.mode) {
                Some(b) => {
                    &&& r.0 matches Some(v) && v@ == b
                    &&& r.1 == MouseAction::Nothing
                    &&& *final(self) == *old(self)
                },
                None => {
                    &&& r.0 is None
                    &&& (*final(self), r.1) == mouse_action(*old(self), *mouse, *grid, now)
                },
            },
    {
        if let Some(bytes) = mouse_to_bytes(mouse, &grid.mode) {
            return (Some(bytes), MouseAction::Nothing);
        }
        let action = match mouse.kind {
            MouseEventKind::Down(MouseButton::Left) => self.handle_mouse_down(mouse, grid, now),
            MouseEventKind::Drag(MouseButton::Left) => self.handle_mouse_drag(mouse, grid, now),
            MouseEventKind::Up(MouseButton::Left) => self.handle_mouse_up(grid),
            MouseEventKind::ScrollUp => {
                self.dirty = true;
                MouseAction::Scroll(SCROLL_LINES)
            },
            MouseEventKind::ScrollDown => {
                self.dirty = true;
                MouseAction::Scroll(-SCROLL_LINES)
            },
            _ => MouseAction::Nothing,
        };
        (None, action)
    }

    /// Auto-scroll while dragging inside the scroll margin: the direction to scroll in by one
    /// line, if it is time, and the row and column of the drag.
    pub fn tick_scroll_drag(&mut self, now: u64) -> (r: Option<(i32, u16, usize)>)
        requires
            old(self).selection.drag_edge is Some ==> old(self).size.rows > 0,
        ensures
            match drag_tick(*old(self), now) {
                Some((edge, delta)) => {
                    &&& r == Some((delta, edge.row, edge.column))
                    &&& *final(self) == (TerminalView {
                        selection: SelectionState {
                            drag_edge: Some(edge),
                            ..old(self).selection
                        },
                        ..*old(self)
                    })
                },
                None => r is None && *final(self) == *old(self),
            },
    {
        let edge = match self.selection.drag_edge {
            Some(edge) => edge,
            None => {
                return None;
            },
        };
        let rows = self.size.rows;
        let margin = scroll_margin(rows);
        let (depth, up): (u16, bool) = if edge.row < margin {
            (margin - edge.row, true)
        } else if edge.row >= rows - margin {
            (edge.row - (rows - margin - 1), false)
        } else {
            return None;
        };
        let interval: u64 = if depth == 1 {
            120_000_000
        } else if depth == 2 {
            30_000_000
        } else {
            8_000_000
        };
        if now.saturating_sub(edge.last_scroll) < interval {
            return None;
        }
        self.selection.drag_edge = Some(DragEdge { last_scroll: now, ..edge });
        Some(
            (
                if up {
                    1
                } else {
                    -1
                },
                edge.row,
                edge.column,
            ),
        )
    }

    /// The view scrolled under a drag: where the selection now ends. Nothing is done where there
    /// was no more history to scroll into.
    pub fn dragged_to(&mut self, row: u16, column: usize, old_offset: u32, new_offset: u32) -> (r:
        Option<Point>)
        ensures
            old_offset == new_offset ==> r is None && *final(self) == *old(self),
            old_offset != new_offset ==> {
                &&& r == Some(Point { line: (row - new_offset) as i64, column })
                &&& *final(self) == (TerminalView { dirty: true, ..*old(self) })
            },
    {
        if old_offset == new_offset {
            return None;
        }
        self.dirty = true;
        Some(Point { line: row as i64 - new_offset as i64, column })
    }
}

// === Cells ===

#[derive(Debug, Clone, Copy, PartialEq, Eq, Structural)]
pub enum NamedColor {
    Black,
    Red,
    Green,
    Yellow,
    Blue,
    Magenta,
    Cyan,
    White,
    BrightBlack,
    BrightRed,
    BrightGreen,
    BrightYellow,
    BrightBlue,
    BrightMagenta,
    BrightCyan,
    BrightWhite,
    DimBlack,
    DimRed,
    DimGreen,
    DimYellow,
    DimBlue,
    DimMagenta,
    DimCyan,
    DimWhite,
    BrightForeground,
    /// The default colors and the cursor's.
    Other,
}

/// A color as the child application gives it.
#[derive(Debug, Clone, Copy, PartialEq, Eq, Structural)]
pub enum AnsiColor {
    Spec(u8, u8, u8),
    Indexed(u8),
    Named(NamedColor),
}

/// A color as it is drawn.
#[derive(Debug, Clone, Copy, PartialEq, Eq, Structural)]
pub enum Color {
    Reset,
    Black,
    Red,
    Green,
    Yellow,
    Blue,
    Magenta,
    Cyan,
    White,
    DarkGray,
    LightRed,
    LightGreen,
    LightYellow,
    LightBlue,
    LightMagenta,
    LightCyan,
    Rgb(u8, u8, u8),
    Indexed(u8),
}

/// A dim color is drawn like the plain one, a bright color as the light one.
pub open spec fn drawn_color(c: AnsiColor) -> Color {
    match c {
        AnsiColor::Spec(r, g, b) => Color::Rgb(r, g, b),
        AnsiColor::Indexed(i) => Color::Indexed(i),
        AnsiColor::Named(n) => match n {
            NamedColor::Black | NamedColor::DimBlack => Color::Black,
            NamedColor::Red | NamedColor::DimRed => Color::Red,
            NamedColor::Green | NamedColor::DimGreen => Color::Green,
            NamedColor::Yellow | NamedColor::DimYellow => Color::Yellow,
            NamedColor::Blue | NamedColor::DimBlue => Color::Blue,
            NamedColor::Magenta | NamedColor::DimMagenta => Color::Magenta,
            NamedColor::Cyan | NamedColor::DimCyan => Color::Cyan,
            NamedColor::White | NamedColor::DimWhite => Color::White,
            NamedColor::BrightBlack => Color::DarkGray,
            NamedColor::BrightRed => Color::LightRed,
            NamedColor::BrightGreen => Color::LightGreen,
            NamedColor::BrightYellow => Color::LightYellow,
            NamedColor::BrightBlue => Color::LightBlue,
            NamedColor::BrightMagenta => Color::LightMagenta,
            NamedColor::BrightCyan => Color::LightCyan,
            NamedColor::BrightWhite | NamedColor::BrightForeground => Color::White,
            NamedColor::Other => Color::Reset,
        },
    }
}

/// The color in which a color of the child application is drawn.
pub fn ansi_color(c: AnsiColor) -> (r: Color)
    ensures
        r == drawn_color(c),
{
    match c {
        AnsiColor::Spec(r, g, b) => Color::Rgb(r, g, b),
        AnsiColor::Indexed(i) => Color::Indexed(i),
        AnsiColor::Named(n) => match n {
            NamedColor::Black | NamedColor::DimBlack => Color::Black,
            NamedColor::Red | NamedColor::DimRed => Color::Red,
            NamedColor::Green | NamedColor::DimGreen => Color::Green,
            NamedColor::Yellow | NamedColor::DimYellow => Color::Yellow,
            NamedColor::Blue | NamedColor::DimBlue => Color::Blue,
            NamedColor::Magenta | NamedColor::DimMagenta => Color::Magenta,
            NamedColor::Cyan | NamedColor::DimCyan => Color::Cyan,
            NamedColor::White | NamedColor::DimWhite => Color::White,
            NamedColor::BrightBlack => Color::DarkGray,
            NamedColor::BrightRed => Color::LightRed,
            NamedColor::BrightGreen => Color::LightGreen,
            NamedColor::BrightYellow => Color::LightYellow,
            NamedColor::BrightBlue => Color::LightBlue,
            NamedColor::BrightMagenta => Color::LightMagenta,
            NamedColor::BrightCyan => Color::LightCyan,
            NamedColor::BrightWhite | NamedColor::BrightForeground => Color::White,
            NamedColor::Other => Color::Reset,
        },
    }
}

/// The colors of a cell. A selected cell has them swapped, with white on black in place of the
/// default colors; a hidden one shows its background only.
pub open spec fn colors_of_cell(
    fg: AnsiColor,
    bg: AnsiColor,
    selected: bool,
    hidden: bool,
) -> (Color, Color) {
    let f = drawn_color(fg);
    let b = drawn_color(bg);
    let (f, b) = if !selected {
        (f, b)
    } else {
        (
            if b == Color::Reset {
                Color::Black
            } else {
                b
            },
            if f == Color::Reset {
                Color::White
            } else {
                f
            },
        )
    };
    (
        if hidden {
            b
        } else {
            f
        },
        b,
    )
}

pub fn cell_colors(fg: AnsiColor, bg: AnsiColor, selected: bool, hidden: bool) -> (r: (
    Color,
    Color,
))
    ensures
        r == colors_of_cell(fg, bg, selected, hidden),
{
    let mut f = ansi_color(fg);
    let mut b = ansi_color(bg);
    if selected {
        if f == Color::Reset {
            f = Color::White;
        }
        if b == Color::Reset {
            b = Color::Black;
        }
        std::mem::swap(&mut f, &mut b);
    }
    if hidden {
        f = b;
    }
    (f, b)
}

/// How a cell of the grid is marked.
#[derive(Debug, Clone, Copy, PartialEq, Eq, Structural)]
pub struct CellFlags {
    /// Covered by a wide character beside it.
    pub spacer: bool,
    pub inverse: bool,
    pub bold: bool,
    pub dim: bool,
    pub underline: bool,
    pub italic: bool,
    pub strikeout: bool,
    pub hidden: bool,
}

/// How a cell is drawn.
#[derive(Debug, Clone, Copy, PartialEq, Eq, Structural)]
pub struct CellLook {
    pub fg: Color,
    pub bg: Color,
    pub reversed: bool,
    pub bold: bool,
    pub dim: bool,
    pub underlined: bool,
    pub italic: bool,
    pub crossed_out: bool,
}

/// How a cell of the grid is drawn. Spacer cells are not: they are covered by a wide character.
pub open spec fn look_of_cell(
    fg: AnsiColor,
    bg: AnsiColor,
    flags: CellFlags,
    selected: bool,
) -> Option<CellLook> {
    if flags.spacer {
        None
    } else {
        let (f, b) = colors_of_cell(fg, bg, selected, flags.hidden);
        Some(
            CellLook {
                fg: f,
                bg: b,
                reversed: flags.inverse,
                bold: flags.bold,
                dim: flags.dim,
                underlined: flags.underline,
                italic: flags.italic,
                crossed_out: flags.strikeout,
            },
        )
    }
}

pub fn cell_look(fg: AnsiColor, bg: AnsiColor, flags: CellFlags, selected: bool) -> (r: Option<
    CellLook,
>)
    ensures
        r == look_of_cell(fg, bg, flags, selected),
{
    // Skip spacer cells: they are covered by the preceding wide character.
    if flags.spacer {
        return None;
    }
    let (f, b) = cell_colors(fg, bg, selected, flags.hidden);
    Some(
        CellLook {
            fg: f,
            bg: b,
            reversed: flags.inverse,
            bold: flags.bold,
            dim: flags.dim,
            underlined: flags.underline,
            italic: flags.italic,
            crossed_out: flags.strikeout,
        },
    )
}

/// A selection can be seen: a selected cell is drawn in other colors than the same cell when it is
/// not selected, the default colors included, unless text and background have one color.
pub proof fn law_a_selection_is_visible(fg: AnsiColor, bg: AnsiColor)
    requires
        drawn_color(fg) != drawn_color(bg) || drawn_color(fg) == Color::Reset,
    ensures
        colors_of_cell(fg, bg, true, false) != colors_of_cell(fg, bg, false, false),
{
}

/// The text of a cell: its character, a space where it has none, and the zero-width ones on it.
pub open spec fn text_of_cell(c: char, zerowidth: Seq<char>) -> Seq<char> {
    seq![if c == '\0' {
        ' '
    } else {
        c
    }] + zerowidth
}

pub fn cell_text(c: char, zerowidth: &[char]) -> (s: String)
    ensures
        s@ == text_of_cell(c, zerowidth@),
{
    let mut s = String::new();
    s.push(
        if c == '\0' {
            ' '
        } else {
            c
        },
    );
    for i in 0..zerowidth.len()
        invariant
            s@ == text_of_cell(c, zerowidth@.take(i as int)),
    {
        s.push(zerowidth[i]);
        assert(s@ =~= text_of_cell(c, zerowidth@.take(i + 1)));
    }
    assert(zerowidth@.take(zerowidth@.len() as int) =~= zerowidth@);
    s
}

// === Cursor ===

#[derive(Debug, Clone, Copy, PartialEq, Eq, Structural)]
pub enum CursorShape {
    Block,
    Underline,
    Beam,
    HollowBlock,
    Hidden,
}

#[derive(Debug, Clone, Copy, PartialEq, Eq, Structural)]
pub enum CursorStyle {
    BlinkingBlock,
    SteadyBlock,
    BlinkingUnderScore,
    SteadyUnderScore,
    BlinkingBar,
    SteadyBar,
}

pub open spec fn style_of_cursor(shape: CursorShape, blinking: bool) -> CursorStyle {
    match (shape, blinking) {
        (CursorShape::Block, true) => CursorStyle::BlinkingBlock,
        (CursorShape::Underline, true) => CursorStyle::BlinkingUnderScore,
        (CursorShape::Underline, false) => CursorStyle::SteadyUnderScore,
        (CursorShape::Beam, true) => CursorStyle::BlinkingBar,
        (CursorShape::Beam, false) => CursorStyle::SteadyBar,
        _ => CursorStyle::SteadyBlock,
    }
}

/// The row in which the cursor is drawn and how, unless it is hidden or scrolled out of view.
pub fn cursor_display(
    line: u32,
    display_offset: u32,
    screen_lines: u32,
    show: bool,
    shape: CursorShape,
    blinking: bool,
) -> (r: Option<(u32, CursorStyle)>)
    ensures
        r == if line + display_offset < screen_lines && show && shape != CursorShape::Hidden {
            Some(((line + display_offset) as u32, style_of_cursor(shape, blinking)))
        } else {
            None
        },
{
    if line as u64 + display_offset as u64 >= screen_lines as u64 {
        return None;
    }
    if !show || shape == CursorShape::Hidden {
        return None;
    }
    let style = match (shape, blinking) {
        (CursorShape::Block, true) => CursorStyle::BlinkingBlock,
        (CursorShape::Underline, true) => CursorStyle::BlinkingUnderScore,
        (CursorShape::Underline, false) => CursorStyle::SteadyUnderScore,
        (CursorShape::Beam, true) => CursorStyle::BlinkingBar,
        (CursorShape::Beam, false) => CursorStyle::SteadyBar,
        _ => CursorStyle::SteadyBlock,
    };
    Some((line + display_offset, style))
}

// === Laws ===

/// The bytes of a typed key, where the child application asked for nothing special.
pub open spec fn typed_key(code: KeyCode, m: Modifiers) -> Option<Seq<u8>> {
    key_event_bytes(KeyEvent { code, modifiers: m, press: true }, false)
}

/// The function keys are none of the other named keys.
proof fn lemma_function_key_names(m: Modifiers)
    ensures
        named_key("f1"@, m.ctrl, m.shift, m.alt) == Some(
            ss3_or_csi(0x50u8, modifier(m.ctrl, m.shift, m.alt)),
        ),
        named_key("f2"@, m.ctrl, m.shift, m.alt) == Some(
            ss3_or_csi(0x51u8, modifier(m.ctrl, m.shift, m.alt)),
        ),
        named_key("f3"@, m.ctrl, m.shift, m.alt) == Some(
            ss3_or_csi(0x52u8, modifier(m.ctrl, m.shift, m.alt)),
        ),
        named_key("f4"@, m.ctrl, m.shift, m.alt) == Some(
            ss3_or_csi(0x53u8, modifier(m.ctrl, m.shift, m.alt)),
        ),
        named_key("f5"@, m.ctrl, m.shift, m.alt) == Some(
            csi_tilde(15, modifier(m.ctrl, m.shift, m.alt)),
        ),
        named_key("f6"@, m.ctrl, m.shift, m.alt) == Some(
            csi_tilde(17, modifier(m.ctrl, m.shift, m.alt)),
        ),
        named_key("f7"@, m.ctrl, m.shift, m.alt) == Some(
            csi_tilde(18, modifier(m.ctrl, m.shift, m.alt)),
        ),
        named_key("f8"@, m.ctrl, m.shift, m.alt) == Some(
            csi_tilde(19, modifier(m.ctrl, m.shift, m.alt)),
        ),
        named_key("f9"@, m.ctrl, m.shift, m.alt) == Some(
            csi_tilde(20, modifier(m.ctrl, m.shift, m.alt)),
        ),
        named_key("f10"@, m.ctrl, m.shift, m.alt) == Some(
            csi_tilde(21, modifier(m.ctrl, m.shift, m.alt)),
        ),
        named_key("f11"@, m.ctrl, m.shift, m.alt) == Some(
            csi_tilde(23, modifier(m.ctrl, m.shift, m.alt)),
        ),
        named_key("f12"@, m.ctrl, m.shift, m.alt) == Some(
            csi_tilde(24, modifier(m.ctrl, m.shift, m.alt)),
        ),
{
    reveal_strlit("cr");
    reveal_strlit("enter");
    reveal_strlit("esc");
    reveal_strlit("tab");
    reveal_strlit("bs");
    reveal_strlit("backspace");
    reveal_strlit("space");
    reveal_strlit("nul");
    reveal_strlit("del");
    reveal_strlit("delete");
    reveal_strlit("up");
    reveal_strlit("down");
    reveal_strlit("right");
    reveal_strlit("left");
    reveal_strlit("home");
    reveal_strlit("end");
    reveal_strlit("insert");
    reveal_strlit("pageup");
    reveal_strlit("pagedown");
    reveal_strlit("f1");
    reveal_strlit("f2");
    reveal_strlit("f3");
    reveal_strlit("f4");
    reveal_strlit("f5");
    reveal_strlit("f6");
    reveal_strlit("f7");
    reveal_strlit("f8");
    reveal_strlit("f9");
    reveal_strlit("f10");
    reveal_strlit("f11");
    reveal_strlit("f12");
    assert("cr"@[0] == 'c');
    assert("enter"@[0] == 'e');
    assert("esc"@[0] == 'e');
    assert("tab"@[0] == 't');
    assert("bs"@[0] == 'b');
    assert("backspace"@[0] == 'b');
    assert("space"@[0] == 's');
    assert("nul"@[0] == 'n');
    assert("del"@[0] == 'd');
    assert("delete"@[0] == 'd');
    assert("up"@[0] == 'u');
    assert("down"@[0] == 'd');
    assert("right"@[0] == 'r');
    assert("left"@[0] == 'l');
    assert("home"@[0] == 'h');
    assert("end"@[0] == 'e');
    assert("insert"@[0] == 'i');
    assert("pageup"@[0] == 'p');
    assert("pagedown"@[0] == 'p');
    assert("f1"@.len() == 2);
    assert("f1"@[0] == 'f');
    assert("f1"@[1] == '1');
    assert("f2"@.len() == 2);
    assert("f2"@[0] == 'f');
    assert("f2"@[1] == '2');
    assert("f3"@.len() == 2);
    assert("f3"@[0] == 'f');
    assert("f3"@[1] == '3');
    assert("f4"@.len() == 2);
    assert("f4"@[0] == 'f');
    assert("f4"@[1] == '4');
    assert("f5"@.len() == 2);
    assert("f5"@[0] == 'f');
    assert("f5"@[1] == '5');
    assert("f6"@.len() == 2);
    assert("f6"@[0] == 'f');
    assert("f6"@[1] == '6');
    assert("f7"@.len() == 2);
    assert("f7"@[0] == 'f');
    assert("f7"@[1] == '7');
    assert("f8"@.len() == 2);
    assert("f8"@[0] == 'f');
    assert("f8"@[1] == '8');
    assert("f9"@.len() == 2);
    assert("f9"@[0] == 'f');
    assert("f9"@[1] == '9');
    assert("f10"@.len() == 3);
    assert("f10"@[0] == 'f');
    assert("f10"@[1] == '1');
    assert("f10"@[2] == '0');
    assert("f11"@.len() == 3);
    assert("f11"@[0] == 'f');
    assert("f11"@[1] == '1');
    assert("f11"@[2] == '1');
    assert("f12"@.len() == 3);
    assert("f12"@[0] == 'f');
    assert("f12"@[1] == '1');
    assert("f12"@[2] == '2');
}

/// A key that is typed and the same key sent by its name give the same bytes, with any modifiers.
/// Shift+Tab is typed as a key of its own. Escape is sent without Alt.
pub proof fn law_typed_keys_match_named_keys(m: Modifiers)
    ensures
        typed_key(KeyCode::Up, m) == named_key("up"@, m.ctrl, m.shift, m.alt),
        typed_key(KeyCode::Down, m) == named_key("down"@, m.ctrl, m.shift, m.alt),
        typed_key(KeyCode::Right, m) == named_key("right"@, m.ctrl, m.shift, m.alt),
        typed_key(KeyCode::Left, m) == named_key("left"@, m.ctrl, m.shift, m.alt),
        typed_key(KeyCode::Home, m) == named_key("home"@, m.ctrl, m.shift, m.alt),
        typed_key(KeyCode::End, m) == named_key("end"@, m.ctrl, m.shift, m.alt),
        typed_key(KeyCode::Insert, m) == named_key("insert"@, m.ctrl, m.shift, m.alt),
        typed_key(KeyCode::Delete, m) == named_key("delete"@, m.ctrl, m.shift, m.alt),
        typed_key(KeyCode::PageUp, m) == named_key("pageup"@, m.ctrl, m.shift, m.alt),
        typed_key(KeyCode::PageDown, m) == named_key("pagedown"@, m.ctrl, m.shift, m.alt),
        typed_key(KeyCode::Enter, m) == named_key("enter"@, m.ctrl, m.shift, m.alt),
        typed_key(KeyCode::Backspace, m) == named_key("backspace"@, m.ctrl, m.shift, m.alt),
        !m.alt ==> typed_key(KeyCode::Esc, m) == named_key("esc"@, m.ctrl, m.shift, m.alt),
        !m.shift || m.ctrl || m.alt ==> typed_key(KeyCode::Tab, m) == named_key(
            "tab"@,
            m.ctrl,
            m.shift,
            m.alt,
        ),
        m.shift && !m.ctrl && !m.alt ==> typed_key(KeyCode::BackTab, m) == named_key(
            "tab"@,
            m.ctrl,
            m.shift,
            m.alt,
        ),
        typed_key(KeyCode::F(1), m) == named_key("f1"@, m.ctrl, m.shift, m.alt),
        typed_key(KeyCode::F(2), m) == named_key("f2"@, m.ctrl, m.shift, m.alt),
        typed_key(KeyCode::F(3), m) == named_key("f3"@, m.ctrl, m.shift, m.alt),
        typed_key(KeyCode::F(4), m) == named_key("f4"@, m.ctrl, m.shift, m.alt),
        typed_key(KeyCode::F(5), m) == named_key("f5"@, m.ctrl, m.shift, m.alt),
        typed_key(KeyCode::F(6), m) == named_key("f6"@, m.ctrl, m.shift, m.alt),
        typed_key(KeyCode::F(7), m) == named_key("f7"@, m.ctrl, m.shift, m.alt),
        typed_key(KeyCode::F(8), m) == named_key("f8"@, m.ctrl, m.shift, m.alt),
        typed_key(KeyCode::F(9), m) == named_key("f9"@, m.ctrl, m.shift, m.alt),
        typed_key(KeyCode::F(10), m) == named_key("f10"@, m.ctrl, m.shift, m.alt),
        typed_key(KeyCode::F(11), m) == named_key("f11"@, m.ctrl, m.shift, m.alt),
        typed_key(KeyCode::F(12), m) == named_key("f12"@, m.ctrl, m.shift, m.alt),
{
    lemma_function_key_names(m);
    reveal_strlit("cr");
    reveal_strlit("enter");
    reveal_strlit("esc");
    reveal_strlit("tab");
    reveal_strlit("bs");
    reveal_strlit("backspace");
    reveal_strlit("space");
    reveal_strlit("nul");
    reveal_strlit("del");
    reveal_strlit("delete");
    reveal_strlit("up");
    reveal_strlit("down");
    reveal_strlit("right");
    reveal_strlit("left");
    reveal_strlit("home");
    reveal_strlit("end");
    reveal_strlit("insert");
    reveal_strlit("pageup");
    reveal_strlit("pagedown");
    assert("cr"@.len() == 2);
    assert("enter"@.len() == 5);
    assert("esc"@.len() == 3);
    assert("tab"@.len() == 3);
    assert("bs"@.len() == 2);
    assert("backspace"@.len() == 9);
    assert("space"@.len() == 5);
    assert("nul"@.len() == 3);
    assert("del"@.len() == 3);
    assert("delete"@.len() == 6);
    assert("up"@.len() == 2);
    assert("down"@.len() == 4);
    assert("right"@.len() == 5);
    assert("left"@.len() == 4);
    assert("home"@.len() == 4);
    assert("end"@.len() == 3);
    assert("insert"@.len() == 6);
    assert("pageup"@.len() == 6);
    assert("pagedown"@.len() == 8);
    assert("cr"@[0] == 'c');
    assert("enter"@[0] == 'e');
    assert("tab"@[0] == 't');
    assert("bs"@[0] == 'b');
    assert("backspace"@[0] == 'b');
    assert("space"@[0] == 's');
    assert("nul"@[0] == 'n');
    assert("del"@[0] == 'd');
    assert("delete"@[0] == 'd');
    assert("up"@[0] == 'u');
    assert("down"@[0] == 'd');
    assert("right"@[0] == 'r');
    assert("left"@[0] == 'l');
    assert("home"@[0] == 'h');
    assert("insert"@[0] == 'i');
    assert("pageup"@[0] == 'p');
    assert("pagedown"@[0] == 'p');
    assert("esc"@[1] == 's');
    assert("end"@[1] == 'n');
    assert("esc"@[0] == 'e');
    assert("end"@[0] == 'e');
}

/// Clicking one place again and again counts one, two, three and then one again.
pub proof fn law_clicks_cycle(s: SelectionState, point: Point, now: u64)
    requires
        s.last_click matches Some(c) && c.point == point && now - c.time < CLICK_INTERVAL,
        1 <= s.click_count <= 3,
    ensures
        clicks(s, point, now) == if s.click_count == 3 {
            1
        } else {
            s.click_count + 1
        },
{
}

} // verus!
