use tv::keys::encode_key;
use tv::session::terminal::{
    ansi_color, button_number, cell_colors, cell_look, cell_text, cursor_display, cursor_key,
    encode_key_event, mouse_to_bytes, pasted_bytes, scroll_margin, wants_mouse, AnsiColor,
    CellFlags, Color, CursorShape, CursorStyle, GridState, KeyCode, KeyEvent, Modifiers,
    MouseAction, MouseButton, MouseEvent, MouseEventKind, NamedColor, Point, SelectionState,
    SelectionType, Size, TermMode, TerminalView, CLICK_INTERVAL, SCROLL_LINES,
};

const PLAIN: Modifiers = Modifiers { shift: false, ctrl: false, alt: false };
const CTRL: Modifiers = Modifiers { shift: false, ctrl: true, alt: false };
const ALT: Modifiers = Modifiers { shift: false, ctrl: false, alt: true };
const SHIFT: Modifiers = Modifiers { shift: true, ctrl: false, alt: false };

fn mode() -> TermMode {
    TermMode {
        mouse_report_click: false,
        mouse_drag: false,
        mouse_motion: false,
        sgr_mouse: false,
        app_cursor: false,
        bracketed_paste: false,
        focus_in_out: false,
    }
}

fn grid() -> GridState {
    GridState { has_selection: false, selection_is_empty: false, display_offset: 0, mode: mode() }
}

fn typed(code: KeyCode, modifiers: Modifiers) -> Option<Vec<u8>> {
    encode_key_event(&KeyEvent { code, modifiers, press: true }, false)
}

fn event(kind: MouseEventKind, column: u16, row: u16) -> MouseEvent {
    MouseEvent { kind, column, row, modifiers: PLAIN }
}

fn down(column: u16, row: u16) -> MouseEvent {
    event(MouseEventKind::Down(MouseButton::Left), column, row)
}

fn drag(column: u16, row: u16) -> MouseEvent {
    event(MouseEventKind::Drag(MouseButton::Left), column, row)
}

fn view() -> TerminalView {
    TerminalView::new(Size { cols: 80, rows: 24 })
}

#[test]
fn typed_characters() {
    assert_eq!(typed(KeyCode::Char('a'), PLAIN).unwrap(), b"a");
    assert_eq!(typed(KeyCode::Char('é'), PLAIN).unwrap(), "é".as_bytes());
    assert_eq!(typed(KeyCode::Char('c'), CTRL).unwrap(), b"\x03");
    assert_eq!(typed(KeyCode::Char('Z'), CTRL).unwrap(), b"\x1a");
    assert_eq!(typed(KeyCode::Char('1'), CTRL).unwrap(), b"1");
    assert_eq!(typed(KeyCode::Char('x'), ALT).unwrap(), b"\x1bx");
    assert_eq!(typed(KeyCode::Char('A'), SHIFT).unwrap(), b"A");
}

#[test]
fn typed_special_keys() {
    assert_eq!(typed(KeyCode::Enter, ALT).unwrap(), b"\x1b\r");
    assert_eq!(typed(KeyCode::Backspace, PLAIN).unwrap(), b"\x7f");
    assert_eq!(typed(KeyCode::Tab, PLAIN).unwrap(), b"\t");
    assert_eq!(typed(KeyCode::BackTab, SHIFT).unwrap(), b"\x1b[Z");
    assert_eq!(typed(KeyCode::Esc, PLAIN).unwrap(), b"\x1b");
    assert_eq!(typed(KeyCode::Insert, PLAIN).unwrap(), b"\x1b[2~");
    assert_eq!(typed(KeyCode::Delete, CTRL).unwrap(), b"\x1b[3;5~");
    assert_eq!(typed(KeyCode::PageUp, PLAIN).unwrap(), b"\x1b[5~");
    assert_eq!(typed(KeyCode::PageDown, SHIFT).unwrap(), b"\x1b[6;2~");
    assert_eq!(typed(KeyCode::F(1), PLAIN).unwrap(), b"\x1bOP");
    assert_eq!(typed(KeyCode::F(12), PLAIN).unwrap(), b"\x1b[24~");
    assert_eq!(typed(KeyCode::F(13), PLAIN), None);
    assert_eq!(typed(KeyCode::F(0), PLAIN), None);
    assert_eq!(typed(KeyCode::Other, PLAIN), None);
}

#[test]
fn application_cursor_keys() {
    let up = KeyEvent { code: KeyCode::Up, modifiers: PLAIN, press: true };
    assert_eq!(encode_key_event(&up, true).unwrap(), b"\x1bOA");
    assert_eq!(encode_key_event(&up, false).unwrap(), b"\x1b[A");
    assert_eq!(cursor_key(b'F', true, PLAIN), b"\x1bOF");
    assert_eq!(cursor_key(b'D', true, CTRL), b"\x1b[1;5D");
}

#[test]
fn typed_keys_match_named_keys() {
    let keys = [
        (KeyCode::Up, "up"),
        (KeyCode::Down, "down"),
        (KeyCode::Left, "left"),
        (KeyCode::Right, "right"),
        (KeyCode::Home, "home"),
        (KeyCode::End, "end"),
        (KeyCode::Insert, "insert"),
        (KeyCode::Delete, "delete"),
        (KeyCode::PageUp, "pageup"),
        (KeyCode::PageDown, "pagedown"),
        (KeyCode::F(3), "f3"),
        (KeyCode::F(5), "f5"),
        (KeyCode::F(11), "f11"),
    ];
    for m in [PLAIN, CTRL, ALT, SHIFT, Modifiers { shift: true, ctrl: true, alt: true }] {
        for (code, name) in keys {
            assert_eq!(typed(code, m), encode_key(name, m.ctrl, m.shift, m.alt).ok());
        }
    }
}

#[test]
fn mouse_events_are_reported() {
    let mut m = mode();
    let press = down(4, 9);
    assert!(!wants_mouse(&m));
    assert_eq!(mouse_to_bytes(&press, &m), None);
    m.mouse_report_click = true;
    assert!(wants_mouse(&m));
    assert_eq!(mouse_to_bytes(&press, &m).unwrap(), [0x1b, b'[', b'M', 32, 37, 42]);
    let release = event(MouseEventKind::Up(MouseButton::Right), 4, 9);
    assert_eq!(mouse_to_bytes(&release, &m), None);
    assert_eq!(mouse_to_bytes(&drag(4, 9), &m), None);
    assert_eq!(mouse_to_bytes(&event(MouseEventKind::Moved, 4, 9), &m), None);
    let wheel = event(MouseEventKind::ScrollUp, 4, 9);
    assert_eq!(mouse_to_bytes(&wheel, &m).unwrap(), [0x1b, b'[', b'M', 96, 37, 42]);
    assert_eq!(mouse_to_bytes(&down(223, 9), &m), None);
    assert_eq!(mouse_to_bytes(&down(222, 222), &m).unwrap()[4..], [255, 255]);
    m.sgr_mouse = true;
    assert_eq!(mouse_to_bytes(&release, &m).unwrap(), b"\x1b[<2;5;10m");
    assert_eq!(mouse_to_bytes(&down(499, 9), &m).unwrap(), b"\x1b[<0;500;10M");
    m.mouse_drag = true;
    assert_eq!(mouse_to_bytes(&drag(0, 0), &m).unwrap(), b"\x1b[<32;1;1M");
    m.mouse_motion = true;
    let moved = event(MouseEventKind::Moved, 0, 0);
    assert_eq!(mouse_to_bytes(&moved, &m).unwrap(), b"\x1b[<35;1;1M");
    let all = MouseEvent {
        modifiers: Modifiers { shift: true, ctrl: true, alt: true },
        ..event(MouseEventKind::ScrollRight, 0, 0)
    };
    assert_eq!(mouse_to_bytes(&all, &m).unwrap(), b"\x1b[<95;1;1M");
    assert_eq!(
        mouse_to_bytes(&event(MouseEventKind::ScrollDown, 0, 0), &m).unwrap(),
        b"\x1b[<65;1;1M"
    );
    assert_eq!(
        mouse_to_bytes(&event(MouseEventKind::ScrollLeft, 0, 0), &m).unwrap(),
        b"\x1b[<66;1;1M"
    );
}

#[test]
fn button_numbers() {
    assert_eq!(button_number(MouseButton::Left), 0);
    assert_eq!(button_number(MouseButton::Middle), 1);
    assert_eq!(button_number(MouseButton::Right), 2);
}

#[test]
fn pastes() {
    assert_eq!(pasted_bytes("a\r\nb\n", false), b"a\rb\r");
    assert_eq!(pasted_bytes("é", true), "\x1b[200~é\x1b[201~".as_bytes());
    assert_eq!(pasted_bytes("", false), b"");
}

#[test]
fn sizes_and_margins() {
    assert_eq!(Size::reported(Some((100, 30))), Size { cols: 100, rows: 30 });
    assert_eq!(Size::reported(None), Size { cols: 80, rows: 24 });
    assert_eq!(scroll_margin(3), 0);
    assert_eq!(scroll_margin(8), 2);
    assert_eq!(scroll_margin(24), 3);
    assert_eq!(
        SelectionState::default(),
        SelectionState { last_click: None, click_count: 0, drag_edge: None }
    );
}

#[test]
fn keys_clear_the_selection() {
    let mut v = view();
    assert!(v.is_dirty());
    v.mark_drawn();
    let g = GridState { has_selection: true, display_offset: 5, ..grid() };
    let key = KeyEvent { code: KeyCode::Char('x'), modifiers: PLAIN, press: true };
    let out = v.handle_key(&key, &g);
    assert!(out.clear_selection && out.scroll_to_bottom && v.is_dirty());
    assert_eq!(out.bytes.unwrap(), b"x");
    v.mark_drawn();
    let out = v.handle_key(&key, &grid());
    assert!(!out.clear_selection && !out.scroll_to_bottom && !v.is_dirty());
    let out = v.handle_key(&KeyEvent { press: false, ..key }, &g);
    assert!(!out.clear_selection && out.bytes.is_none() && !v.is_dirty());
    let out = v.encode_paste("p", &g);
    assert!(out.clear_selection && out.scroll_to_bottom && v.is_dirty());
    assert_eq!(out.bytes.unwrap(), b"p");
}

#[test]
fn clicks_cycle() {
    let mut v = view();
    let point = Point { line: 5, column: 3 };
    let kinds = [
        (SelectionType::Simple, false),
        (SelectionType::Semantic, true),
        (SelectionType::Lines, true),
        (SelectionType::Simple, false),
    ];
    let mut now = 1_000_000_000;
    for (kind, whole) in kinds {
        let action = v.handle_mouse_down(&down(3, 5), &grid(), now);
        assert_eq!(action, MouseAction::Start { kind, point, whole });
        now += CLICK_INTERVAL - 1;
    }
    let action = v.handle_mouse_down(&down(3, 5), &grid(), now + 1);
    assert_eq!(
        action,
        MouseAction::Start { kind: SelectionType::Simple, point, whole: false }
    );
    let elsewhere = v.handle_mouse_down(&down(4, 5), &grid(), now + 2);
    assert!(matches!(
        elsewhere,
        MouseAction::Start { kind: SelectionType::Simple, point: Point { line: 5, column: 4 }, .. }
    ));
}

#[test]
fn selections_are_extended() {
    let mut v = view();
    let g = GridState { has_selection: true, display_offset: 10, ..grid() };
    let shifted = MouseEvent { modifiers: SHIFT, ..down(200, 5) };
    assert_eq!(
        v.handle_mouse_down(&shifted, &g, 0),
        MouseAction::Extend(Point { line: -5, column: 79 })
    );
    assert!(matches!(v.handle_mouse_down(&shifted, &grid(), 0), MouseAction::Start { .. }));
}

#[test]
fn mouse_events_are_handled() {
    let mut v = view();
    let mut g = grid();
    v.mark_drawn();
    let wheel = event(MouseEventKind::ScrollUp, 0, 0);
    assert_eq!(v.handle_mouse(&wheel, &g, 0), (None, MouseAction::Scroll(SCROLL_LINES)));
    assert!(v.is_dirty());
    let wheel = event(MouseEventKind::ScrollDown, 0, 0);
    assert_eq!(v.handle_mouse(&wheel, &g, 0), (None, MouseAction::Scroll(-SCROLL_LINES)));
    let release = event(MouseEventKind::Up(MouseButton::Left), 0, 0);
    assert_eq!(v.handle_mouse(&release, &g, 0), (None, MouseAction::Copy));
    let clicked = GridState { selection_is_empty: true, ..g };
    assert_eq!(v.handle_mouse(&release, &clicked, 0), (None, MouseAction::Clear));
    let right = event(MouseEventKind::Down(MouseButton::Right), 0, 0);
    assert_eq!(v.handle_mouse(&right, &g, 0), (None, MouseAction::Nothing));
    assert!(matches!(v.handle_mouse(&down(0, 0), &g, 0).1, MouseAction::Start { .. }));
    assert!(matches!(v.handle_mouse(&drag(0, 10), &g, 0).1, MouseAction::Drag { scroll: 0, .. }));
    g.mode.mouse_report_click = true;
    g.mode.sgr_mouse = true;
    assert_eq!(
        v.handle_mouse(&down(0, 0), &g, 0),
        (Some(b"\x1b[<0;1;1M".to_vec()), MouseAction::Nothing)
    );
}

#[test]
fn drags_scroll_at_the_edges() {
    let mut v = view();
    let top = v.handle_mouse_drag(&drag(7, 2), &grid(), 0);
    assert_eq!(top, MouseAction::Drag { point: Point { line: 2, column: 7 }, scroll: 1 });
    assert_eq!(v.handle_mouse_drag(&drag(9, 1), &grid(), 5), MouseAction::Drag {
        point: Point { line: 1, column: 9 },
        scroll: 0,
    });
    assert_eq!(v.tick_scroll_drag(29_999_999), None);
    assert_eq!(v.tick_scroll_drag(30_000_000), Some((1, 1, 7)));
    assert_eq!(v.tick_scroll_drag(30_000_001), None);
    v.handle_mouse_drag(&drag(9, 12), &grid(), 5);
    assert_eq!(v.tick_scroll_drag(u64::MAX), None);
    let bottom = v.handle_mouse_drag(&drag(7, 21), &grid(), 0);
    assert_eq!(bottom, MouseAction::Drag { point: Point { line: 21, column: 7 }, scroll: -1 });
    assert_eq!(v.tick_scroll_drag(119_999_999), None);
    assert_eq!(v.tick_scroll_drag(120_000_000), Some((-1, 21, 7)));
    v.mark_drawn();
    assert_eq!(v.dragged_to(21, 7, 4, 4), None);
    assert!(!v.is_dirty());
    assert_eq!(v.dragged_to(21, 7, 4, 3), Some(Point { line: 18, column: 7 }));
    assert!(v.is_dirty());
}

#[test]
fn resizing_the_view() {
    let mut v = view();
    v.mark_drawn();
    v.resize(Size { cols: 10, rows: 5 });
    assert_eq!(v.size(), Size { cols: 10, rows: 5 });
    assert!(v.is_dirty());
    v.mark_drawn();
    v.mark_dirty();
    assert!(v.is_dirty());
}

#[test]
fn colors() {
    assert_eq!(ansi_color(AnsiColor::Spec(1, 2, 3)), Color::Rgb(1, 2, 3));
    assert_eq!(ansi_color(AnsiColor::Indexed(9)), Color::Indexed(9));
    assert_eq!(ansi_color(AnsiColor::Named(NamedColor::DimRed)), Color::Red);
    assert_eq!(ansi_color(AnsiColor::Named(NamedColor::BrightBlack)), Color::DarkGray);
    assert_eq!(ansi_color(AnsiColor::Named(NamedColor::BrightForeground)), Color::White);
    assert_eq!(ansi_color(AnsiColor::Named(NamedColor::Other)), Color::Reset);
}

#[test]
fn a_selection_is_visible() {
    let default = AnsiColor::Named(NamedColor::Other);
    let red = AnsiColor::Named(NamedColor::Red);
    assert_eq!(cell_colors(default, default, false, false), (Color::Reset, Color::Reset));
    assert_eq!(cell_colors(default, default, true, false), (Color::Black, Color::White));
    assert_eq!(cell_colors(red, default, true, false), (Color::Black, Color::Red));
    assert_eq!(cell_colors(red, default, false, true), (Color::Reset, Color::Reset));
    assert_eq!(cell_colors(red, default, true, true), (Color::Red, Color::Red));
}

#[test]
fn cells() {
    let plain = CellFlags {
        spacer: false,
        inverse: false,
        bold: true,
        dim: false,
        underline: true,
        italic: false,
        strikeout: false,
        hidden: false,
    };
    let red = AnsiColor::Named(NamedColor::Red);
    let look = cell_look(red, AnsiColor::Indexed(3), plain, false).unwrap();
    assert_eq!((look.fg, look.bg), (Color::Red, Color::Indexed(3)));
    assert!(look.bold && look.underlined && !look.italic && !look.reversed);
    let look = cell_look(red, red, CellFlags { inverse: true, strikeout: true, ..plain }, false);
    assert!(look.unwrap().reversed && look.unwrap().crossed_out);
    assert_eq!(cell_look(red, red, CellFlags { spacer: true, ..plain }, false), None);
    assert_eq!(cell_text('a', &[]), "a");
    assert_eq!(cell_text('\0', &[]), " ");
    assert_eq!(cell_text('e', &['\u{301}']), "e\u{301}");
}

#[test]
fn the_cursor() {
    let at = |shape, blinking| cursor_display(3, 2, 24, true, shape, blinking);
    assert_eq!(at(CursorShape::Block, true), Some((5, CursorStyle::BlinkingBlock)));
    assert_eq!(at(CursorShape::Block, false), Some((5, CursorStyle::SteadyBlock)));
    assert_eq!(at(CursorShape::Underline, true), Some((5, CursorStyle::BlinkingUnderScore)));
    assert_eq!(at(CursorShape::Underline, false), Some((5, CursorStyle::SteadyUnderScore)));
    assert_eq!(at(CursorShape::Beam, true), Some((5, CursorStyle::BlinkingBar)));
    assert_eq!(at(CursorShape::Beam, false), Some((5, CursorStyle::SteadyBar)));
    assert_eq!(at(CursorShape::HollowBlock, true), Some((5, CursorStyle::SteadyBlock)));
    assert_eq!(at(CursorShape::Hidden, false), None);
    assert_eq!(cursor_display(23, 1, 24, true, CursorShape::Block, false), None);
    assert_eq!(cursor_display(3, 0, 24, false, CursorShape::Block, false), None);
}
