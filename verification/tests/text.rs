use tv::session::text::{Action, HistoryBuffer, Screen, TextParser};

fn parser(rows: usize, cols: usize) -> TextParser {
    TextParser::new(rows, cols, 100)
}

fn shown(rows: usize, cols: usize, data: &str) -> String {
    let mut p = parser(rows, cols);
    p.advance(data.as_bytes());
    p.render_screen()
}

fn filled() -> TextParser {
    let mut p = parser(4, 6);
    p.advance(b"one\r\ntwo\r\nthree\r\nfour");
    p
}

fn csi(params: &[u16], action: char) -> Action {
    Action::Csi {
        params: params.iter().map(|p| vec![*p]).collect(),
        intermediates: vec![],
        action,
    }
}

#[test]
fn a_line_of_text_is_shown() {
    assert_eq!(shown(3, 20, "hello wörld"), "hello wörld");
    assert_eq!(shown(3, 20, "a\r\nb"), "a\nb");
    assert_eq!(shown(3, 20, "a\nb"), "a\n b");
    assert_eq!(shown(3, 20, ""), "");
    assert_eq!(shown(3, 20, "x  \r\n\r\n"), "x");
}

#[test]
fn the_last_column_is_overwritten() {
    assert_eq!(shown(3, 4, "abcdefg"), "abcg");
}

#[test]
fn control_characters() {
    assert_eq!(shown(3, 20, "ab\x08c"), "ac");
    assert_eq!(shown(3, 20, "\x08\x08x"), "x");
    assert_eq!(shown(3, 20, "a\tb"), "a       b");
    assert_eq!(shown(3, 10, "a\t\tb"), "a        b");
    assert_eq!(shown(3, 20, "abc\rx"), "xbc");
    assert_eq!(shown(3, 20, "a\x07b"), "ab");
}

#[test]
fn scrolling_keeps_all_lines() {
    let mut p = parser(2, 10);
    p.advance(b"1\r\n2\r\n3\r\n4");
    assert_eq!(p.render_screen(), "3\n4");
    assert_eq!(p.get_history(None, None), "1\n2\n3\n4");
    assert_eq!(p.cursor(), (1, 1));
}

#[test]
fn parts_of_the_history() {
    let mut p = parser(2, 10);
    p.advance(b"1\r\n2\r\n3\r\n4");
    assert_eq!(p.get_history(Some(2), None), "3\n4");
    assert_eq!(p.get_history(Some(2), Some(1)), "2\n3");
    assert_eq!(p.get_history(Some(1), Some(3)), "1");
    assert_eq!(p.get_history(None, Some(2)), "1\n2");
    assert_eq!(p.get_history(Some(9), Some(4)), "");
    assert_eq!(p.get_history(Some(0), None), "");
    p.clear();
    assert_eq!(p.get_history(None, None), "3\n4");
}

#[test]
fn history_is_limited() {
    let mut p = TextParser::new(2, 10, 2);
    p.advance(b"1\r\n2\r\n3\r\n4\r\n5\r\n6");
    assert_eq!(p.get_history(None, None), "3\n4\n5\n6");
    let mut none = TextParser::new(2, 10, 0);
    none.advance(b"1\r\n2\r\n3");
    assert_eq!(none.get_history(None, None), "2\n3");
    let mut h = HistoryBuffer::new(1);
    h.push("a".to_string());
    h.push("b".to_string());
    h.clear();
    h.push("c".to_string());
}

#[test]
fn cursor_moves() {
    let mut p = parser(10, 20);
    p.advance(b"\x1b[5;7H");
    assert_eq!(p.cursor(), (4, 6));
    p.advance(b"\x1b[A");
    assert_eq!(p.cursor(), (3, 6));
    p.advance(b"\x1b[2B\x1b[e");
    assert_eq!(p.cursor(), (6, 6));
    p.advance(b"\x1b[3C\x1b[a");
    assert_eq!(p.cursor(), (6, 10));
    p.advance(b"\x1b[4D");
    assert_eq!(p.cursor(), (6, 6));
    p.advance(b"\x1b[E");
    assert_eq!(p.cursor(), (7, 0));
    p.advance(b"\x1b[2F");
    assert_eq!(p.cursor(), (5, 0));
    p.advance(b"\x1b[9G");
    assert_eq!(p.cursor(), (5, 8));
    p.advance(b"\x1b[3`");
    assert_eq!(p.cursor(), (5, 2));
    p.advance(b"\x1b[2d");
    assert_eq!(p.cursor(), (1, 2));
    p.advance(b"\x1b[f");
    assert_eq!(p.cursor(), (0, 0));
    p.advance(b"\x1b[0;0H\x1b[9A\x1b[9D");
    assert_eq!(p.cursor(), (0, 0));
    p.advance(b"\x1b[99;99H\x1b[9B\x1b[9C");
    assert_eq!(p.cursor(), (9, 19));
    assert_eq!(p.dimensions(), (10, 20));
}

#[test]
fn restoring_the_cursor_undoes_moves() {
    let mut p = parser(10, 20);
    p.advance(b"\x1b[5;7H\x1b7\x1b[2;2H\x1b8");
    assert_eq!(p.cursor(), (4, 6));
    p.advance(b"\x1b[3;3H\x1b[s\x1b[9;9H\x1b[u");
    assert_eq!(p.cursor(), (2, 2));
    let mut fresh = parser(3, 3);
    fresh.advance(b"\x1b[2;2H\x1b8");
    assert_eq!(fresh.cursor(), (1, 1));
}

#[test]
fn erasing() {
    let mut p = filled();
    p.advance(b"\x1b[2;2H\x1b[K");
    assert_eq!(p.render_screen(), "one\nt\nthree\nfour");
    let mut p = filled();
    p.advance(b"\x1b[3;2H\x1b[1K");
    assert_eq!(p.render_screen(), "one\ntwo\n  ree\nfour");
    let mut p = filled();
    p.advance(b"\x1b[3;2H\x1b[2K");
    assert_eq!(p.render_screen(), "one\ntwo\n\nfour");
    let mut p = filled();
    p.advance(b"\x1b[2;2H\x1b[J");
    assert_eq!(p.render_screen(), "one\nt");
    let mut p = filled();
    p.advance(b"\x1b[3;2H\x1b[1J");
    assert_eq!(p.render_screen(), "\n\n  ree\nfour");
    let mut p = filled();
    p.advance(b"\x1b[2;2H\x1b[2J");
    assert_eq!(p.render_screen(), "");
    assert_eq!(p.get_history(None, None), "one\ntwo");
    let mut p = filled();
    p.advance(b"\x1b[3J\x1b[9J\x1b[9K");
    assert_eq!(p.render_screen(), "one\ntwo\nthree\nfour");
}

#[test]
fn characters_are_inserted_and_deleted() {
    let mut p = filled();
    p.advance(b"\x1b[3;2H\x1b[2@");
    assert_eq!(p.render_screen(), "one\ntwo\nt  hre\nfour");
    let mut p = filled();
    p.advance(b"\x1b[3;2H\x1b[2P");
    assert_eq!(p.render_screen(), "one\ntwo\ntee\nfour");
    let mut p = filled();
    p.advance(b"\x1b[3;2H\x1b[2X");
    assert_eq!(p.render_screen(), "one\ntwo\nt  ee\nfour");
    let mut p = filled();
    p.advance(b"\x1b[3;2H\x1b[99P");
    assert_eq!(p.render_screen(), "one\ntwo\nt\nfour");
}

#[test]
fn lines_are_inserted_and_deleted() {
    let mut p = filled();
    p.advance(b"\x1b[2;1H\x1b[L");
    assert_eq!(p.render_screen(), "one\n\ntwo\nthree");
    let mut p = filled();
    p.advance(b"\x1b[2;1H\x1b[2M");
    assert_eq!(p.render_screen(), "one\nfour");
    assert_eq!(p.dimensions(), (4, 6));
}

#[test]
fn scrolling() {
    let mut p = filled();
    p.advance(b"\x1b[2S");
    assert_eq!(p.render_screen(), "three\nfour");
    assert_eq!(p.get_history(None, None), "one\ntwo\nthree\nfour");
    let mut p = filled();
    p.advance(b"\x1b[T");
    assert_eq!(p.render_screen(), "\none\ntwo\nthree");
    let mut p = filled();
    p.advance(b"\x1b[1;1H\x1bM");
    assert_eq!(p.render_screen(), "\none\ntwo\nthree");
    let mut p = filled();
    p.advance(b"\x1bDx");
    assert_eq!(p.render_screen(), "two\nthree\nfour\n    x");
    let mut p = filled();
    p.advance(b"\x1bEx");
    assert_eq!(p.render_screen(), "two\nthree\nfour\nx");
    let mut p = filled();
    p.advance(b"\x1b[1;3H\x1bEx\x1b[3;3H\x1bDy\x1b[2;2H\x1bMz");
    assert_eq!(p.render_screen(), "oze\nxwo\nthree\nfoyr");
}

#[test]
fn lines_outside_the_region_stay() {
    let mut p = filled();
    p.advance(b"\x1b[2;3r");
    assert_eq!(p.cursor(), (0, 0));
    p.advance(b"\x1b[S");
    assert_eq!(p.render_screen(), "one\nthree\n\nfour");
    assert_eq!(p.get_history(None, None), "one");
    p.advance(b"\x1b[2T");
    assert_eq!(p.render_screen(), "one\n\n\nfour");
    let mut p = filled();
    p.advance(b"\x1b[3;2r\x1b[S");
    assert_eq!(p.render_screen(), "two\nthree\nfour");
}

#[test]
fn leaving_the_alternate_screen_restores_the_main_screen() {
    let mut p = filled();
    let cursor = p.cursor();
    p.advance(b"\x1b[?1049h");
    assert!(p.in_alt_screen());
    assert_eq!(p.render_screen(), "");
    p.advance(b"\x1b[2J\x1b[2;2Hvim\r\n\n\n\n\n\x1b[1;1Hx");
    assert_eq!(p.get_history(None, None), "one\ntwo\nthree\nfour");
    p.advance(b"\x1b[?1049l");
    assert!(!p.in_alt_screen());
    assert_eq!(p.render_screen(), "one\ntwo\nthree\nfour");
    assert_eq!(p.cursor(), cursor);
    for mode in ["47", "1047"] {
        p.advance(format!("\x1b[?{mode}h").as_bytes());
        assert!(p.in_alt_screen());
        p.advance(format!("\x1b[?{mode}l").as_bytes());
        assert!(!p.in_alt_screen());
    }
    p.advance(b"\x1b[?25h\x1b[1049h");
    assert!(!p.in_alt_screen());
}

#[test]
fn growing_and_shrinking_restores_the_cells() {
    let mut p = filled();
    p.resize(8, 12);
    assert_eq!(p.dimensions(), (8, 12));
    assert_eq!(p.render_screen(), "one\ntwo\nthree\nfour");
    p.resize(4, 6);
    assert_eq!(p.render_screen(), "one\ntwo\nthree\nfour");
    p.resize(2, 2);
    assert_eq!(p.render_screen(), "on\ntw");
    assert_eq!(p.cursor(), (1, 1));
    p.resize(4, 6);
    assert_eq!(p.render_screen(), "on\ntw");
}

#[test]
fn sequences_can_be_cut_anywhere() {
    let data = "a\x1b[31mré\x1b[0m\x1b]2;title\x07\x1b[2;3Hx\x1bP1q#\x1b\\y".as_bytes();
    let mut whole = parser(4, 10);
    whole.advance(data);
    assert_eq!(whole.render_screen(), "aré\n  xy");
    for n in 0..data.len() {
        let mut p = parser(4, 10);
        p.advance(&data[..n]);
        p.advance(&data[n..]);
        assert_eq!(p.render_screen(), whole.render_screen());
        assert_eq!(p.cursor(), whole.cursor());
    }
}

#[test]
fn actions_are_performed() {
    let mut p = parser(3, 8);
    p.perform_all(&[
        Action::Print('a'),
        Action::Execute(0x0d),
        Action::Execute(0x0a),
        csi(&[], 'C'),
        Action::Print('b'),
        Action::Esc { intermediates: vec![], byte: b'7' },
        csi(&[3, 4], 'H'),
        Action::Print('c'),
        Action::Esc { intermediates: vec![], byte: b'8' },
        Action::Print('d'),
    ]);
    assert_eq!(p.render_screen(), "a\n bd\n   c");
    p.perform(&csi(&[2], 'J'));
    assert_eq!(p.render_screen(), "");
    p.perform(&Action::Csi {
        params: vec![vec![1049]],
        intermediates: vec![b'?'],
        action: 'h',
    });
    assert!(p.in_alt_screen());
    p.perform(&Action::Esc { intermediates: vec![b'('], byte: b'7' });
    p.perform(&csi(&[38, 5], 'm'));
    assert_eq!(p.cursor(), (0, 0));
}

#[test]
fn a_screen_without_rows() {
    let mut p = parser(0, 5);
    assert!(p.try_advance(b"\x1b[3;3H\x1b7\x1b8\r\t\x1b[r\x1b[K\x1b[1K\x1b[2J\x1b[3X"));
    assert_eq!(p.cursor(), (0, 0));
    assert!(!p.try_advance(b"a"));
    assert!(p.try_advance(b"\r\na"));
    assert_eq!(p.cursor(), (0, 1));
    assert_eq!(p.render_screen(), "");
    assert!(p.try_advance(b"\n\n"));
    assert_eq!(p.get_history(None, None), "\n\na");
    p.resize(2, 5);
    assert!(p.try_advance(b"\rb"));
    assert_eq!(p.render_screen(), "b");
    let mut alt = parser(0, 5);
    assert!(alt.try_advance(b"\n\x1b[?1049h\x1b[L\x1b[MX\x1b[?1049l\x1b[?1049h"));
    assert!(!alt.try_advance(b"x"));
}

#[test]
fn a_screen_without_columns() {
    let mut p = parser(2, 0);
    assert!(p.try_advance(b"\n\n\x1b[2J\x1b[K\x1b[2K\x1b[3@\x1b[3P\x1b[L\x1bM"));
    assert_eq!(p.cursor(), (0, 0));
    assert!(!p.try_advance(b"\x1b[1K"));
    assert!(!p.try_advance(b"\x1b[1J"));
    assert!(!p.try_advance(b"x"));
    assert!(p.can_perform(&csi(&[0], 'K')));
    assert!(!p.can_perform(&csi(&[1], 'K')));
    assert!(!p.can_perform(&Action::Print('x')));
    let mut none = parser(0, 0);
    assert!(none.try_advance(b"\x1b[1K\x1b[1J"));
    assert!(!none.try_advance(b"x"));
}

#[test]
fn output_is_taken_in_up_to_a_missing_cell() {
    let mut p = parser(2, 0);
    assert!(!p.try_advance(b"\nx\x1b[H"));
    assert_eq!(p.cursor(), (1, 0));
    let mut full = parser(2, 3);
    assert!(full.try_advance(b"ab\x1b[1K"));
}

#[test]
fn a_bare_screen() {
    let mut s = Screen::new(3, 5);
    assert_eq!(s.scroll_region(), (0, 2));
    s.set_cursor(9, 9);
    assert_eq!(s.cursor(), (2, 4));
    s.set_scroll_region(1, 9);
    assert_eq!(s.scroll_region(), (1, 2));
    s.set_scroll_region(2, 2);
    assert_eq!(s.scroll_region(), (1, 2));
    s.save_cursor();
    s.set_cursor(0, 0);
    s.restore_cursor();
    assert_eq!(s.cursor(), (2, 4));
    s.enter_alt_screen();
    assert_eq!(s.cursor(), (0, 0));
    s.leave_alt_screen();
    assert_eq!(s.cursor(), (2, 4));
    s.resize(2, 2);
    assert_eq!(s.cursor(), (1, 1));
    assert_eq!(s.scroll_region(), (0, 1));
    assert_eq!(s.row_to_string(0), "");
    assert_eq!(s.row_to_string(9), "");
}
