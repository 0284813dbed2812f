use tv::session::dispatch::PermissionType;
use tv::session::prompt::{
    action_verb, base_popup_height, blocked_overlay, border_cell, bottom_label, can_show_prompt,
    can_show_resize_message, centered_rect, extract_keys, format_source, handle_prompt_key,
    highlight_line, horizontal_buttons, is_horizontal, layout_collapsed, layout_expanded,
    max_scroll_offset, popup_rect, prompt_title, resize_message, word_wrap, wrap_key_preview,
    BlockedOverlay, PromptKeyResult, PromptResult, Rect, Span, SpanStyle,
};
use tv::session::terminal::{KeyCode, KeyEvent, Modifiers};
use tv::types::Request;

fn key(code: KeyCode) -> KeyEvent {
    let modifiers = Modifiers { shift: false, ctrl: false, alt: false };
    KeyEvent { code, modifiers, press: true }
}

fn press(code: KeyCode, selected: usize, expanded: bool) -> PromptKeyResult {
    handle_prompt_key(&key(code), selected, expanded, 80, 24)
}

fn exec(keys: &[&str], stdin: Option<&str>) -> Request {
    Request::Exec {
        selector: None,
        keys: keys.iter().map(|k| k.to_string()).collect(),
        stdin: stdin.map(String::from),
    }
}

fn strings(v: &[&str]) -> Vec<String> {
    v.iter().map(|s| s.to_string()).collect()
}

fn shown(spans: &[Span]) -> String {
    spans.iter().map(|s| s.text.as_str()).collect()
}

#[test]
fn keys_in_a_prompt() {
    let cases = [
        (KeyCode::Enter, 0, PromptResult::Allow, 0),
        (KeyCode::Enter, 1, PromptResult::AlwaysAllow, 1),
        (KeyCode::Enter, 2, PromptResult::Deny, 2),
        (KeyCode::Esc, 0, PromptResult::Deny, 0),
        (KeyCode::Left, 1, PromptResult::Navigate, 0),
        (KeyCode::Char('h'), 0, PromptResult::Navigate, 0),
        (KeyCode::Up, 2, PromptResult::Navigate, 1),
        (KeyCode::BackTab, 2, PromptResult::Navigate, 1),
        (KeyCode::Char('k'), 1, PromptResult::Navigate, 0),
        (KeyCode::Right, 0, PromptResult::Navigate, 1),
        (KeyCode::Char('l'), 2, PromptResult::Navigate, 2),
        (KeyCode::Down, 1, PromptResult::Navigate, 2),
        (KeyCode::Tab, 0, PromptResult::Navigate, 1),
        (KeyCode::Char('j'), 0, PromptResult::Navigate, 1),
        (KeyCode::Char('x'), 1, PromptResult::Navigate, 1),
    ];
    for (code, before, result, selected) in cases {
        let expected =
            PromptKeyResult { result, selected, toggle_expanded: false, scroll_delta: 0 };
        assert_eq!(press(code, before, false), expected);
    }
    assert!(press(KeyCode::Char(' '), 1, false).toggle_expanded);
}

#[test]
fn keys_in_an_expanded_prompt() {
    for (code, toggle, delta) in [
        (KeyCode::Esc, true, 0),
        (KeyCode::Char(' '), true, 0),
        (KeyCode::Up, false, -1),
        (KeyCode::Char('k'), false, -1),
        (KeyCode::Down, false, 1),
        (KeyCode::Char('j'), false, 1),
        (KeyCode::Enter, false, 0),
    ] {
        let expected = PromptKeyResult {
            result: PromptResult::Navigate,
            selected: 1,
            toggle_expanded: toggle,
            scroll_delta: delta,
        };
        assert_eq!(press(code, 1, true), expected);
    }
}

#[test]
fn an_unseen_prompt_is_not_answered() {
    for (width, height) in [(27, 24), (80, 6)] {
        assert!(!can_show_prompt(width, height));
        for code in [KeyCode::Enter, KeyCode::Esc, KeyCode::Char(' ')] {
            let r = handle_prompt_key(&key(code), 0, false, width, height);
            assert_eq!(r.result, PromptResult::Navigate);
            assert!(r.selected == 0 && !r.toggle_expanded);
        }
    }
    assert!(can_show_prompt(28, 7));
    assert!(can_show_resize_message(14, 3));
    assert!(!can_show_resize_message(13, 3));
    assert!(!can_show_resize_message(14, 2));
}

#[test]
fn words_are_wrapped() {
    assert_eq!(word_wrap("ab cd ef", 5), ["ab cd", "ef"]);
    assert_eq!(word_wrap("  ab   cd ", 10), ["ab cd"]);
    assert_eq!(word_wrap("abcdefgh ij", 5), ["abcd…", "ij"]);
    assert_eq!(word_wrap("ij abcdefgh kl", 5), ["ij", "abcd…", "kl"]);
    assert_eq!(word_wrap("abcde", 5), ["abcde"]);
    assert_eq!(word_wrap("", 5), Vec::<String>::new());
    assert_eq!(word_wrap("ab", 0), Vec::<String>::new());
    assert_eq!(word_wrap("ab", 1), ["…"]);
}

#[test]
fn wrapped_lines_fit_and_keep_all_words() {
    let text = "the quick brown fox jumps over the lazy dog";
    for width in 5..50 {
        let lines = word_wrap(text, width);
        assert!(lines.iter().all(|l| l.chars().count() <= width));
        assert_eq!(lines.join(" "), text);
    }
    assert_eq!(word_wrap(text, 4).join(" "), "the qui… bro… fox jum… over the lazy dog");
}

#[test]
fn previews_are_cut() {
    assert_eq!(wrap_key_preview(&strings(&["ab", "cd", "ef"]), 5, 2), ["ab cd", "ef"]);
    assert_eq!(wrap_key_preview(&strings(&["ab", "cd", "ef"]), 5, 1), ["ab c…"]);
    assert_eq!(wrap_key_preview(&strings(&["ab", "cde", "ef"]), 5, 1), ["ab…"]);
    assert!(wrap_key_preview(&strings(&["ab"]), 0, 1).is_empty());
    assert!(wrap_key_preview(&strings(&["ab"]), 5, 0).is_empty());
}

#[test]
fn keys_are_shown_with_stdin() {
    let request = exec(&["cat", "{stdin}", "{stdin}"], Some("text"));
    assert_eq!(extract_keys(&request).unwrap(), ["cat", "text", "text"]);
    let cases = [
        ("echo {stdin}", "echo hi"),
        ("{stdin}{cr}", "hi{cr}"),
        ("a{stdin}b{stdin}", "ahibhi"),
        ("{{stdin}}", "{{stdin}}"),
        ("{{{stdin}}}", "{{hi}}"),
        ("{c-c}x}}", "{c-c}x}}"),
        ("{sleep:5}é", "{sleep:5}é"),
        ("a}{stdin}", "a}{stdin}"),
        ("{stdin}{", "hi{"),
        ("", ""),
    ];
    for (key, shown) in cases {
        assert_eq!(extract_keys(&exec(&[key], Some("hi"))).unwrap(), [shown]);
    }
    assert_eq!(extract_keys(&exec(&["{stdin}"], None)).unwrap(), ["{stdin}"]);
    assert!(extract_keys(&Request::Peek { selector: None }).is_none());
}

#[test]
fn places() {
    assert_eq!(centered_rect(10, 4, 21, 10), Rect { x: 5, y: 3, width: 10, height: 4 });
    assert_eq!(centered_rect(10, 4, 5, 2), Rect { x: 0, y: 0, width: 10, height: 4 });
    assert_eq!(base_popup_height(true, 24), 6);
    assert_eq!(base_popup_height(false, 24), 8);
    assert_eq!(base_popup_height(false, 7), 5);
    assert_eq!(base_popup_height(true, 1), 0);
    assert!(is_horizontal(48));
    assert!(!is_horizontal(47));
    assert_eq!(popup_rect(true, 80, 24), Rect { x: 14, y: 7, width: 52, height: 9 });
    assert_eq!(popup_rect(false, 40, 24), Rect { x: 2, y: 8, width: 36, height: 8 });
}

#[test]
fn scroll_limits() {
    let words: Vec<&str> = vec!["0123456789012345678901234567890123456789012345678"; 10];
    assert_eq!(max_scroll_offset(&exec(&words, None), 80, 24), 3);
    assert_eq!(max_scroll_offset(&exec(&["ls"], None), 80, 24), 0);
    assert_eq!(max_scroll_offset(&exec(&words, None), 4, 24), 0);
    assert_eq!(max_scroll_offset(&Request::Stop, 80, 24), 0);
}

#[test]
fn highlighting_keeps_the_text() {
    for s in ["ls {cr} x", "{a}{b}", "x{y", "", "}{", "{é}ñ"] {
        assert_eq!(shown(&highlight_line(s)), s);
    }
    let spans = highlight_line("ls {cr} x");
    let parts: Vec<(&str, SpanStyle)> = spans.iter().map(|s| (s.text.as_str(), s.style)).collect();
    assert_eq!(
        parts,
        [("ls ", SpanStyle::Text), ("{cr}", SpanStyle::Token), (" x", SpanStyle::Text)]
    );
}

#[test]
fn labels() {
    assert_eq!(format_source("3f2a", Some("work")), "@work");
    assert_eq!(format_source("3f2a", None), "[3f2a]");
    assert_eq!(action_verb(&Request::Peek { selector: None }), "peek:");
    let history = Request::History { selector: None, count: None, offset: None };
    assert_eq!(action_verb(&history), "read history:");
    assert_eq!(action_verb(&exec(&[], None)), "execute:");
    assert_eq!(action_verb(&Request::Stop), "access");
    assert_eq!(prompt_title(PermissionType::Read), " Read Request ");
    assert_eq!(prompt_title(PermissionType::Write), " Write Request ");
    assert_eq!(bottom_label(true, false), Some(" space: show "));
    assert_eq!(bottom_label(true, true), Some(" space: hide "));
    assert_eq!(bottom_label(false, true), None);
}

#[test]
fn buttons() {
    let spans = horizontal_buttons(1);
    assert_eq!(shown(&spans), " Allow Once    Allow Session    Deny ");
    assert_eq!(spans[2].style, SpanStyle::Button { index: 1, selected: true });
    assert_eq!(spans[4].style, SpanStyle::Button { index: 2, selected: false });
}

#[test]
fn collapsed_prompts() {
    let keys = strings(&["ls", "{cr}"]);
    let lines = layout_collapsed("@w", "execute:", Some(&keys), 0, 50, 7, true);
    let texts: Vec<String> = lines.iter().map(|l| shown(l)).collect();
    assert_eq!(
        texts,
        [
            "",
            "@w wants to execute:",
            "",
            "ls {cr}",
            "",
            " Allow Once    Allow Session    Deny ",
        ]
    );
    let lines = layout_collapsed("[3f2a]", "peek:", None, 2, 20, 6, false);
    let texts: Vec<String> = lines.iter().map(|l| shown(l)).collect();
    assert_eq!(
        texts,
        [
            "",
            " [3f2a] wants to peek:",
            "",
            "  Allow Once       ",
            "  Allow Session    ",
            "  Deny             ",
        ]
    );
    assert_eq!(lines[5][1].style, SpanStyle::Button { index: 2, selected: true });
}

#[test]
fn expanded_prompts() {
    let keys = strings(&["aaaa", "bbbb", "cccc", "dddd", "{cr}"]);
    let view = layout_expanded(&keys, 0, 6, 2).unwrap();
    let texts: Vec<String> = view.lines.iter().map(|l| shown(l)).collect();
    assert_eq!(texts, ["aaaa", "bbbb"]);
    assert_eq!((view.text_width, view.thumb), (5, Some((0, 1))));
    let view = layout_expanded(&keys, 99, 6, 2).unwrap();
    let texts: Vec<String> = view.lines.iter().map(|l| shown(l)).collect();
    assert_eq!(texts, ["dddd", "{cr}"]);
    assert_eq!(view.thumb, Some((1, 1)));
    assert_eq!(layout_expanded(&keys, 0, 6, 5).unwrap().thumb, None);
    assert!(layout_expanded(&keys, 0, 1, 5).is_none());
    assert!(layout_expanded(&keys, 0, 6, 0).is_none());
}

#[test]
fn small_terminals() {
    assert_eq!(blocked_overlay(1, 5), BlockedOverlay::Nothing);
    assert_eq!(blocked_overlay(13, 5), BlockedOverlay::Border);
    assert_eq!(
        blocked_overlay(20, 6),
        BlockedOverlay::Resize(Rect { x: 2, y: 1, width: 16, height: 3 })
    );
    assert_eq!(
        blocked_overlay(20, 4),
        BlockedOverlay::Resize(Rect { x: 2, y: 1, width: 16, height: 2 })
    );
    assert_eq!(resize_message(14, 1), Some((2, 0)));
    assert_eq!(resize_message(6, 1), Some((0, 0)));
    assert_eq!(resize_message(5, 1), None);
    assert_eq!(resize_message(14, 0), None);
}

#[test]
fn borders() {
    let cell = |x, y| border_cell(x, y, 4, 3);
    assert_eq!(cell(0, 0), Some('╭'));
    assert_eq!(cell(3, 0), Some('╮'));
    assert_eq!(cell(0, 2), Some('╰'));
    assert_eq!(cell(3, 2), Some('╯'));
    assert_eq!(cell(1, 0), Some('─'));
    assert_eq!(cell(2, 2), Some('─'));
    assert_eq!(cell(0, 1), Some('│'));
    assert_eq!(cell(3, 1), Some('│'));
    assert_eq!(cell(1, 1), None);
}

#[test]
fn the_selection_stays_on_a_button() {
    for expanded in [false, true] {
        for selected in 0..3 {
            for code in [KeyCode::Left, KeyCode::Right, KeyCode::Enter, KeyCode::Esc] {
                assert!(press(code, selected, expanded).selected < 3);
            }
        }
    }
}
