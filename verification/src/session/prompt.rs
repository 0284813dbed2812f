//! Permission prompt UI.
//!
//! Self-contained popup dialog for requesting user permission when a session receives read/write
//! requests. Handles its own input and layout; what it lays out is drawn elsewhere.
use vstd::prelude::*;
use vstd::slice::slice_subrange;
use crate::keys::{show_arg, shown_arg};
use crate::session::dispatch::PermissionType;
use crate::session::terminal::{KeyCode, KeyEvent};
use crate::strings::{
    chars_of, concat, concat3, join, join_strings, lemma_position, position, position_of,
    string_of, string_of_range, text, text_opt, texts,
};
use crate::types::Request;

verus! {

// === Types ===

/// Prompt information for drawing.
pub struct PromptInfo<'a> {
    pub source_id: &'a str,
    pub source_tag: Option<&'a str>,
    pub permission_type: PermissionType,
    pub request: &'a Request,
    pub selected: usize,
    pub expanded: bool,
    pub scroll_offset: usize,
}

#[derive(Debug, Clone, Copy, PartialEq, Eq, Structural)]
pub enum PromptResult {
    Allow,
    AlwaysAllow,
    Deny,
    Navigate,
}

// === Constants ===

pub const MIN_PROMPT_WIDTH: u16 = 28;

pub const MIN_PROMPT_HEIGHT: u16 = 7;

pub const MIN_RESIZE_WIDTH: u16 = 14;

pub const MIN_RESIZE_HEIGHT: u16 = 3;

pub const MAX_PROMPT_WIDTH: u16 = 52;

pub const HORIZONTAL_THRESHOLD: u16 = 44;

pub const BUTTON_COUNT: usize = 3;

// === Input Handling ===

#[derive(Debug, Clone, Copy, PartialEq, Eq, Structural)]
pub struct PromptKeyResult {
    pub result: PromptResult,
    pub selected: usize,
    pub toggle_expanded: bool,
    pub scroll_delta: i32,
}

pub open spec fn prompt_fits(width: u16, height: u16) -> bool {
    width >= MIN_PROMPT_WIDTH && height >= MIN_PROMPT_HEIGHT
}

/// The answer that a button stands for.
pub open spec fn button_result(selected: usize) -> PromptResult {
    if selected == 0 {
        PromptResult::Allow
    } else if selected == 1 {
        PromptResult::AlwaysAllow
    } else {
        PromptResult::Deny
    }
}

/// A key that answers nothing.
pub open spec fn navigate(selected: usize) -> PromptKeyResult {
    PromptKeyResult {
        result: PromptResult::Navigate,
        selected,
        toggle_expanded: false,
        scroll_delta: 0,
    }
}

/// In expanded mode: scroll with j/k/Up/Down, Space/Esc to collapse.
pub open spec fn expanded_key(code: KeyCode, selected: usize) -> PromptKeyResult {
    match code {
        KeyCode::Esc | KeyCode::Char(' ') => PromptKeyResult {
            toggle_expanded: true,
            ..navigate(selected)
        },
        KeyCode::Up | KeyCode::Char('k') => PromptKeyResult {
            scroll_delta: -1i32,
            ..navigate(selected)
        },
        KeyCode::Down | KeyCode::Char('j') => PromptKeyResult {
            scroll_delta: 1,
            ..navigate(selected)
        },
        _ => navigate(selected),
    }
}

/// In collapsed mode: navigate buttons, Enter to select, Space to expand, Esc to deny.
pub open spec fn collapsed_key(code: KeyCode, selected: usize) -> PromptKeyResult {
    match code {
        KeyCode::Esc => PromptKeyResult { result: PromptResult::Deny, ..navigate(selected) },
        KeyCode::Enter => PromptKeyResult {
            result: button_result(selected),
            ..navigate(selected)
        },
        KeyCode::Char(' ') => PromptKeyResult { toggle_expanded: true, ..navigate(selected) },
        KeyCode::Left
        | KeyCode::Char('h')
        | KeyCode::Up
        | KeyCode::BackTab
        | KeyCode::Char('k') => navigate(
            if selected == 0 {
                0
            } else {
                (selected - 1) as usize
            },
        ),
        KeyCode::Right
        | KeyCode::Char('l')
        | KeyCode::Down
        | KeyCode::Tab
        | KeyCode::Char('j') => navigate(
            if selected < BUTTON_COUNT - 1 {
                (selected + 1) as usize
            } else {
                (BUTTON_COUNT - 1) as usize
            },
        ),
        _ => navigate(selected),
    }
}

/// What a key does to the prompt. While the prompt does not fit on the screen, keys do nothing.
pub open spec fn prompt_key(
    code: KeyCode,
    selected: usize,
    expanded: bool,
    width: u16,
    height: u16,
) -> PromptKeyResult {
    if !prompt_fits(width, height) {
        navigate(selected)
    } else if expanded {
        expanded_key(code, selected)
    } else {
        collapsed_key(code, selected)
    }
}

pub fn can_show_prompt(width: u16, height: u16) -> (r: bool)
    ensures
        r == prompt_fits(width, height),
{
    width >= MIN_PROMPT_WIDTH && height >= MIN_PROMPT_HEIGHT
}

pub fn can_show_resize_message(width: u16, height: u16) -> (r: bool)
    ensures
        r == (width >= MIN_RESIZE_WIDTH && height >= MIN_RESIZE_HEIGHT),
{
    width >= MIN_RESIZE_WIDTH && height >= MIN_RESIZE_HEIGHT
}

fn select_result(selected: usize) -> (r: PromptResult)
    ensures
        r == button_result(selected),
{
    if selected == 0 {
        PromptResult::Allow
    } else if selected == 1 {
        PromptResult::AlwaysAllow
    } else {
        PromptResult::Deny
    }
}

fn prev_button(selected: usize) -> (r: usize)
    ensures
        r == if selected == 0 {
            0
        } else {
            selected - 1
        },
{
    selected.saturating_sub(1)
}

fn next_button(selected: usize) -> (r: usize)
    ensures
        r == if selected < BUTTON_COUNT - 1 {
            selected + 1
        } else {
            BUTTON_COUNT - 1
        },
{
    if selected < BUTTON_COUNT - 1 {
        selected + 1
    } else {
        BUTTON_COUNT - 1
    }
}

fn stay(selected: usize) -> (r: PromptKeyResult)
    ensures
        r == navigate(selected),
{
    PromptKeyResult {
        result: PromptResult::Navigate,
        selected,
        toggle_expanded: false,
        scroll_delta: 0,
    }
}

fn handle_expanded_key(key: &KeyEvent, selected: usize) -> (r: PromptKeyResult)
    ensures
        r == expanded_key(key.code, selected),
{
    match key.code {
        KeyCode::Esc | KeyCode::Char(' ') => PromptKeyResult {
            toggle_expanded: true,
            ..stay(selected)
        },
        KeyCode::Up | KeyCode::Char('k') => PromptKeyResult { scroll_delta: -1, ..stay(selected) },
        KeyCode::Down | KeyCode::Char('j') => PromptKeyResult { scroll_delta: 1, ..stay(selected) },
        _ => stay(selected),
    }
}

fn handle_collapsed_key(key: &KeyEvent, selected: usize) -> (r: PromptKeyResult)
    ensures
        r == collapsed_key(key.code, selected),
{
    match key.code {
        KeyCode::Esc => PromptKeyResult { result: PromptResult::Deny, ..stay(selected) },
        KeyCode::Enter => PromptKeyResult { result: select_result(selected), ..stay(selected) },
        KeyCode::Char(' ') => PromptKeyResult { toggle_expanded: true, ..stay(selected) },
        KeyCode::Left
        | KeyCode::Char('h')
        | KeyCode::Up
        | KeyCode::BackTab
        | KeyCode::Char('k') => stay(prev_button(selected)),
        KeyCode::Right
        | KeyCode::Char('l')
        | KeyCode::Down
        | KeyCode::Tab
        | KeyCode::Char('j') => stay(next_button(selected)),
        _ => stay(selected),
    }
}

pub fn handle_prompt_key(
    key: &KeyEvent,
    selected: usize,
    expanded: bool,
    term_width: u16,
    term_height: u16,
) -> (r: PromptKeyResult)
    ensures
        r == prompt_key(key.code, selected, expanded, term_width, term_height),
{
    if !can_show_prompt(term_width, term_height) {
        return stay(selected);
    }
    if expanded {
        return handle_expanded_key(key, selected);
    }
    handle_collapsed_key(key, selected)
}

// === Words ===

/// The words of a text: what stands between spaces.
pub open spec fn words(s: Seq<char>) -> Seq<Seq<char>>
    decreases s.len(),
{
    let n = position(s, ' ') as int;
    if s.len() == 0 {
        Seq::empty()
    } else if n == s.len() {
        seq![s]
    } else {
        proof {
            lemma_position(s, ' ');
        }
        (if n == 0 {
            Seq::empty()
        } else {
            seq![s.take(n)]
        }) + words(s.skip(n + 1))
    }
}

fn split_words(v: &[char]) -> (r: Vec<String>)
    ensures
        texts(r@) == words(v@),
{
    let mut r: Vec<String> = Vec::new();
    let mut i: usize = 0;
    proof {
        assert(v@.skip(0) =~= v@);
        assert(texts(r@) + words(v@) =~= words(v@));
    }
    while i < v.len()
        invariant
            i <= v@.len(),
            texts(r@) + words(v@.skip(i as int)) == words(v@),
        decreases v@.len() - i,
    {
        let ghost rest = v@.skip(i as int);
        let ghost before = texts(r@);
        let tail = slice_subrange(v, i, v.len());
        proof {
            assert(tail@ =~= rest);
        }
        let n = position_of(tail, ' ');
        if n > 0 {
            r.push(string_of_range(tail, 0, n));
            proof {
                assert(texts(r@) =~= before.push(rest.subrange(0, n as int)));
            }
        }
        proof {
            if n < rest.len() {
                assert(rest.skip(n + 1) =~= v@.skip(i + n + 1));
                assert(rest.take(n as int) =~= rest.subrange(0, n as int));
                assert(texts(r@) + words(v@.skip(i + n + 1)) =~= before + words(rest));
            } else {
                assert(rest.subrange(0, n as int) =~= rest);
                assert(v@.skip(v@.len() as int) =~= Seq::<char>::empty());
                assert(texts(r@) + words(Seq::<char>::empty()) =~= before + words(rest));
            }
        }
        i = if n < tail.len() {
            i + n + 1
        } else {
            v.len()
        };
    }
    proof {
        assert(v@.skip(i as int) =~= Seq::<char>::empty());
        assert(texts(r@) + words(Seq::<char>::empty()) =~= texts(r@));
    }
    r
}

/// A word that is too long for a line, cut and marked.
pub open spec fn cut_word(word: Seq<char>, width: int) -> Seq<char> {
    word.take(width - 1).push('…')
}

/// Lines of words, as many words on each as fit; `current` is the line begun so far.
pub open spec fn wrapped_words(
    words: Seq<Seq<char>>,
    width: int,
    current: Seq<char>,
) -> Seq<Seq<char>>
    decreases words.len(), current.len(),
{
    if words.len() == 0 {
        if current.len() == 0 {
            Seq::empty()
        } else {
            seq![current]
        }
    } else if current.len() > 0 {
        if current.len() + 1 + words[0].len() <= width {
            wrapped_words(words.skip(1), width, current.push(' ') + words[0])
        } else {
            seq![current] + wrapped_words(words, width, Seq::empty())
        }
    } else if words[0].len() <= width {
        wrapped_words(words.skip(1), width, words[0])
    } else {
        seq![cut_word(words[0], width)] + wrapped_words(words.skip(1), width, Seq::empty())
    }
}

/// A text in lines of at most `width` characters. Words are never broken; one that is too long
/// has a line of its own and is cut.
pub open spec fn wrapped(s: Seq<char>, width: int) -> Seq<Seq<char>> {
    if width == 0 {
        Seq::empty()
    } else {
        wrapped_words(words(s), width, Seq::empty())
    }
}

fn cut_to(word: &str, width: usize) -> (s: String)
    requires
        0 < width <= word@.len(),
    ensures
        s@ == cut_word(word@, width as int),
{
    let v = chars_of(word);
    let mut s = string_of_range(v.as_slice(), 0, width - 1);
    s.push('…');
    proof {
        assert(s@ =~= cut_word(word@, width as int));
    }
    s
}

/// Word-wrap text to fit within `max_width` characters.
pub fn word_wrap(s: &str, max_width: usize) -> (r: Vec<String>)
    ensures
        texts(r@) == wrapped(s@, max_width as int),
{
    let mut lines: Vec<String> = Vec::new();
    if max_width == 0 {
        proof {
            assert(texts(lines@) =~= Seq::empty());
        }
        return lines;
    }
    let v = chars_of(s);
    let list = split_words(v.as_slice());
    let mut current = String::new();
    let mut current_len: usize = 0;
    let ghost all = words(s@);
    let ghost want = wrapped(s@, max_width as int);
    let mut i: usize = 0;
    proof {
        assert(all.skip(0) =~= all);
        assert(texts(lines@) + want =~= want);
        assert(current@ =~= Seq::empty());
    }
    while i < list.len()
        invariant
            i <= list@.len(),
            0 < max_width,
            texts(list@) == all,
            current_len == current@.len() <= max_width,
            texts(lines@) + wrapped_words(all.skip(i as int), max_width as int, current@) == want,
        decreases list@.len() - i, current_len,
    {
        let ghost rest = all.skip(i as int);
        let ghost before = texts(lines@);
        let word = list[i].as_str();
        proof {
            assert(rest[0] == word@);
            assert(rest.skip(1) =~= all.skip(i + 1));
        }
        let len = word.unicode_len();
        if current_len > 0 {
            if len < max_width - current_len {
                current.push(' ');
                current.append(word);
                current_len = current_len + 1 + len;
                i = i + 1;
            } else {
                let mut line = String::new();
                std::mem::swap(&mut line, &mut current);
                lines.push(line);
                current_len = 0;
                proof {
                    assert(current@ =~= Seq::empty());
                    assert(texts(lines@) =~= before.push(line@));
                    assert(texts(lines@) + wrapped_words(rest, max_width as int, Seq::empty())
                        =~= before + wrapped_words(rest, max_width as int, line@));
                }
            }
        } else if len <= max_width {
            current = text(word);
            current_len = len;
            i = i + 1;
        } else {
            let line = cut_to(word, max_width);
            lines.push(line);
            proof {
                assert(current@ =~= Seq::empty());
                assert(texts(lines@) =~= before.push(line@));
                assert(texts(lines@) + wrapped_words(
                    rest.skip(1),
                    max_width as int,
                    Seq::empty(),
                ) =~= before + wrapped_words(rest, max_width as int, Seq::empty()));
            }
            i = i + 1;
        }
    }
    let ghost before = texts(lines@);
    if current_len > 0 {
        lines.push(current);
        proof {
            assert(texts(lines@) =~= before + seq![current@]);
        }
    } else {
        proof {
            assert(before + Seq::<Seq<char>>::empty() =~= before);
        }
    }
    lines
}

/// Lines cut to a number of them, the last one marked if there were more.
pub open spec fn preview(s: Seq<char>, width: int, max_lines: int) -> Seq<Seq<char>> {
    let lines = wrapped(s, width);
    if width == 0 || max_lines == 0 {
        Seq::empty()
    } else if lines.len() <= max_lines {
        lines
    } else {
        let last = lines[max_lines - 1];
        lines.take(max_lines - 1).push(
            if last.len() >= width {
                cut_word(last, width)
            } else {
                last.push('…')
            },
        )
    }
}

/// Word-wrap key args for the collapsed preview area.
/// Returns at most `max_lines` lines. If the text overflows, the last line ends with `…`.
pub fn wrap_key_preview(keys: &[String], max_width: usize, max_lines: usize) -> (r: Vec<String>)
    ensures
        texts(r@) == preview(join(texts(keys@), " "@), max_width as int, max_lines as int),
{
    if max_width == 0 || max_lines == 0 {
        let none: Vec<String> = Vec::new();
        proof {
            assert(texts(none@) =~= Seq::empty());
        }
        return none;
    }
    let joined = join_strings(keys, " ");
    let mut lines = word_wrap(joined.as_str(), max_width);
    let ghost all = texts(lines@);
    if lines.len() <= max_lines {
        return lines;
    }
    lines.truncate(max_lines);
    proof {
        assert(texts(lines@) =~= all.take(max_lines as int));
    }
    let ghost cut = lines@;
    if let Some(mut last) = lines.pop() {
        proof {
            assert(texts(lines@) =~= all.take(max_lines - 1));
            assert(last@ == all[max_lines - 1]);
        }
        if last.as_str().unicode_len() >= max_width {
            last = cut_to(last.as_str(), max_width);
        } else {
            last.push('…');
        }
        let ghost before = texts(lines@);
        lines.push(last);
        proof {
            assert(texts(lines@) =~= before.push(last@));
        }
    }
    lines
}

// === Keys of a request ===

/// The keys as the user is to see them: the text from stdin where it goes, not the placeholder.
pub open spec fn shown_keys(keys: Seq<Seq<char>>, stdin: Option<Seq<char>>) -> Seq<Seq<char>> {
    match stdin {
        Some(t) => keys.map_values(|k: Seq<char>| shown_arg(k, t)),
        None => keys,
    }
}

/// The keys of a request to execute some.
pub open spec fn request_keys(request: Request) -> Option<Seq<Seq<char>>> {
    match request {
        Request::Exec { keys, stdin, .. } => Some(shown_keys(texts(keys@), text_opt(stdin))),
        _ => None,
    }
}

fn show_keys(keys: &[String], stdin: &Option<String>) -> (r: Vec<String>)
    ensures
        texts(r@) == shown_keys(texts(keys@), text_opt(*stdin)),
{
    let ghost all = shown_keys(texts(keys@), text_opt(*stdin));
    let mut r: Vec<String> = Vec::new();
    proof {
        assert(texts(r@) =~= all.take(0));
    }
    for i in 0..keys.len()
        invariant
            all == shown_keys(texts(keys@), text_opt(*stdin)),
            texts(r@) == all.take(i as int),
    {
        let shown = match stdin {
            Some(t) => show_arg(keys[i].as_str(), t.as_str()),
            None => keys[i].clone(),
        };
        let ghost before = texts(r@);
        r.push(shown);
        proof {
            assert(shown@ == all[i as int]);
            assert(texts(r@) =~= before.push(shown@));
            assert(texts(r@) =~= all.take(i + 1));
        }
    }
    proof {
        assert(all.take(keys@.len() as int) =~= all);
    }
    r
}

/// Extract display keys from request, resolving {stdin} to actual content.
/// This ensures the permission prompt shows the real text, not the placeholder.
pub fn extract_keys(request: &Request) -> (r: Option<Vec<String>>)
    ensures
        match request_keys(*request) {
            Some(keys) => r matches Some(v) && texts(v@) == keys,
            None => r is None,
        },
{
    match request {
        Request::Exec { keys, stdin, .. } => Some(show_keys(keys.as_slice(), stdin)),
        _ => None,
    }
}

// === Layout ===

#[derive(Debug, Clone, Copy, PartialEq, Eq, Structural)]
pub struct Rect {
    pub x: u16,
    pub y: u16,
    pub width: u16,
    pub height: u16,
}

/// A difference, or zero.
pub open spec fn minus(a: int, b: int) -> int {
    if a > b {
        a - b
    } else {
        0
    }
}

pub open spec fn smaller(a: int, b: int) -> int {
    if a < b {
        a
    } else {
        b
    }
}

/// The middle of an area, as far as there is room.
pub open spec fn centered(width: u16, height: u16, area_width: u16, area_height: u16) -> Rect {
    Rect {
        x: (minus(area_width as int, width as int) / 2) as u16,
        y: (minus(area_height as int, height as int) / 2) as u16,
        width,
        height,
    }
}

pub open spec fn popup_width_of(term_width: int) -> int {
    smaller(MAX_PROMPT_WIDTH as int, minus(term_width, 4))
}

pub open spec fn base_height(horizontal: bool, term_height: int) -> int {
    smaller(
        if horizontal {
            6
        } else {
            8
        },
        minus(term_height, 2),
    )
}

/// The height of the popup: three lines more where it shows keys, whether or not they are
/// expanded.
pub open spec fn popup_height_of(has_keys: bool, term_width: int, term_height: int) -> int {
    base_height(popup_width_of(term_width) >= HORIZONTAL_THRESHOLD, term_height) + if has_keys {
        3int
    } else {
        0
    }
}

pub fn centered_rect(width: u16, height: u16, area_width: u16, area_height: u16) -> (r: Rect)
    ensures
        r == centered(width, height, area_width, area_height),
{
    Rect {
        x: area_width.saturating_sub(width) / 2,
        y: area_height.saturating_sub(height) / 2,
        width,
        height,
    }
}

pub fn base_popup_height(horizontal: bool, max_height: u16) -> (h: u16)
    ensures
        h == base_height(horizontal, max_height as int),
        h <= 8,
{
    let desired: u16 = if horizontal {
        6
    } else {
        8
    };
    let room = max_height.saturating_sub(2);
    if desired < room {
        desired
    } else {
        room
    }
}

fn popup_width(term_width: u16) -> (w: u16)
    ensures
        w == popup_width_of(term_width as int),
{
    let room = term_width.saturating_sub(4);
    if MAX_PROMPT_WIDTH < room {
        MAX_PROMPT_WIDTH
    } else {
        room
    }
}

/// Whether the buttons stand side by side.
pub fn is_horizontal(term_width: u16) -> (r: bool)
    ensures
        r == (popup_width_of(term_width as int) >= HORIZONTAL_THRESHOLD),
{
    popup_width(term_width) >= HORIZONTAL_THRESHOLD
}

/// Where the popup is.
pub fn popup_rect(has_keys: bool, term_width: u16, term_height: u16) -> (r: Rect)
    ensures
        r == centered(
            popup_width_of(term_width as int) as u16,
            popup_height_of(has_keys, term_width as int, term_height as int) as u16,
            term_width,
            term_height,
        ),
{
    let width = popup_width(term_width);
    let base = base_popup_height(width >= HORIZONTAL_THRESHOLD, term_height);
    let height: u16 = if has_keys {
        base + 3
    } else {
        base
    };
    centered_rect(width, height, term_width, term_height)
}

// === Scroll Clamping ===

/// How far the expanded keys can be scrolled: as many lines as do not fit in the popup.
pub open spec fn scroll_limit(request: Request, term_width: int, term_height: int) -> int {
    let text_width = minus(minus(popup_width_of(term_width), 2), 1);
    let height = minus(popup_height_of(true, term_width, term_height), 2);
    match request_keys(request) {
        None => 0,
        Some(keys) => if text_width == 0 || height == 0 {
            0
        } else {
            minus(wrapped(join(keys, " "@), text_width).len() as int, height)
        },
    }
}

/// Compute the maximum valid scroll offset for the expanded key view.
pub fn max_scroll_offset(request: &Request, term_width: u16, term_height: u16) -> (n: usize)
    ensures
        n == scroll_limit(*request, term_width as int, term_height as int),
{
    let keys = match extract_keys(request) {
        Some(k) => k,
        None => {
            return 0;
        },
    };
    let rect = popup_rect(true, term_width, term_height);
    let text_width = rect.width.saturating_sub(2).saturating_sub(1);
    let height = rect.height.saturating_sub(2);
    if text_width == 0 || height == 0 {
        return 0;
    }
    let joined = join_strings(keys.as_slice(), " ");
    let lines = word_wrap(joined.as_str(), text_width as usize);
    proof {
        assert(texts(lines@).len() == lines@.len());
    }
    lines.len().saturating_sub(height as usize)
}

// === Styled lines ===

#[derive(Debug, Clone, Copy, PartialEq, Eq, Structural)]
pub enum SpanStyle {
    Plain,
    /// Who asks.
    Source,
    /// What for.
    Action,
    /// Keys.
    Text,
    /// A `{...}` token among the keys.
    Token,
    Button { index: usize, selected: bool },
}

/// A piece of a line in one style.
#[derive(Debug)]
pub struct Span {
    pub text: String,
    pub style: SpanStyle,
}

#[verifier::ext_equal]
pub struct SpanView {
    pub text: Seq<char>,
    pub style: SpanStyle,
}

impl View for Span {
    type V = SpanView;

    open spec fn view(&self) -> SpanView {
        SpanView { text: self.text@, style: self.style }
    }
}

pub open spec fn span_views(spans: Seq<Span>) -> Seq<SpanView> {
    spans.map_values(|s: Span| s@)
}

pub open spec fn line_views(lines: Seq<Vec<Span>>) -> Seq<Seq<SpanView>> {
    lines.map_values(|l: Vec<Span>| span_views(l@))
}

/// A text with its `{...}` tokens apart.
pub open spec fn highlighted(s: Seq<char>) -> Seq<SpanView>
    decreases s.len(),
{
    let open = position(s, '{') as int;
    let rest = s.skip(open);
    let close = position(rest, '}') as int;
    let before = if open > 0 {
        seq![SpanView { text: s.take(open), style: SpanStyle::Text }]
    } else {
        Seq::empty()
    };
    proof {
        lemma_position(s, '{');
        lemma_position(rest, '}');
    }
    if s.len() == 0 {
        Seq::empty()
    } else if open == s.len() {
        seq![SpanView { text: s, style: SpanStyle::Text }]
    } else if close == rest.len() {
        before.push(SpanView { text: rest, style: SpanStyle::Text })
    } else {
        before.push(SpanView { text: rest.take(close + 1), style: SpanStyle::Token })
            + highlighted(rest.skip(close + 1))
    }
}

fn push_span(spans: &mut Vec<Span>, text: String, style: SpanStyle)
    ensures
        span_views(final(spans)@) == span_views(old(spans)@).push(SpanView { text: text@, style }),
{
    let ghost before = span_views(spans@);
    spans.push(Span { text, style });
    proof {
        assert(span_views(spans@) =~= before.push(SpanView { text: text@, style }));
    }
}

/// Convert a plain string into a line with highlighted `{...}` tokens.
pub fn highlight_line(s: &str) -> (spans: Vec<Span>)
    ensures
        span_views(spans@) == highlighted(s@),
{
    let v = chars_of(s);
    let mut spans: Vec<Span> = Vec::new();
    let mut i: usize = 0;
    proof {
        assert(v@.skip(0) =~= v@);
        assert(span_views(spans@) + highlighted(v@) =~= highlighted(v@));
    }
    while i < v.len()
        invariant
            i <= v@.len(),
            v@ == s@,
            span_views(spans@) + highlighted(v@.skip(i as int)) == highlighted(s@),
        decreases v@.len() - i,
    {
        let ghost all = v@.skip(i as int);
        let ghost done = span_views(spans@);
        let tail = slice_subrange(v.as_slice(), i, v.len());
        proof {
            assert(tail@ =~= all);
        }
        let open = position_of(tail, '{');
        if open == tail.len() {
            push_span(&mut spans, string_of(tail), SpanStyle::Text);
            proof {
                assert(done + highlighted(all) =~= span_views(spans@));
            }
            return spans;
        }
        if open > 0 {
            push_span(&mut spans, string_of_range(tail, 0, open), SpanStyle::Text);
            proof {
                assert(tail@.subrange(0, open as int) =~= all.take(open as int));
            }
        }
        let rest = slice_subrange(tail, open, tail.len());
        proof {
            assert(rest@ =~= all.skip(open as int));
        }
        let close = position_of(rest, '}');
        if close == rest.len() {
            push_span(&mut spans, string_of(rest), SpanStyle::Text);
            proof {
                assert(done + highlighted(all) =~= span_views(spans@));
            }
            return spans;
        }
        push_span(&mut spans, string_of_range(rest, 0, close + 1), SpanStyle::Token);
        proof {
            assert(rest@.subrange(0, close + 1) =~= all.skip(open as int).take(close + 1));
            assert(all.skip(open as int).skip(close + 1) =~= v@.skip(i + open + close + 1));
            assert(done + highlighted(all) =~= span_views(spans@) + highlighted(
                v@.skip(i + open + close + 1),
            ));
        }
        i = i + open + close + 1;
    }
    proof {
        assert(v@.skip(i as int) =~= Seq::<char>::empty());
        assert(span_views(spans@) + highlighted(Seq::<char>::empty()) =~= span_views(spans@));
    }
    spans
}

// === Texts ===

/// Who asks: its tag, or its id where it has none.
pub open spec fn source_text(id: Seq<char>, tag: Option<Seq<char>>) -> Seq<char> {
    match tag {
        Some(t) => "@"@ + t,
        None => "["@ + id + "]"@,
    }
}

pub fn format_source(id: &str, tag: Option<&str>) -> (s: String)
    ensures
        s@ == source_text(
            id@,
            match tag {
                Some(t) => Some(t@),
                None => None,
            },
        ),
{
    match tag {
        Some(t) => concat("@", t),
        None => concat3("[", id, "]"),
    }
}

/// What a request asks for.
pub open spec fn verb_of(request: Request) -> Seq<char> {
    match request {
        Request::Peek { .. } => "peek:"@,
        Request::History { .. } => "read history:"@,
        Request::Exec { .. } => "execute:"@,
        _ => "access"@,
    }
}

pub fn action_verb(request: &Request) -> (s: &'static str)
    ensures
        s@ == verb_of(*request),
{
    match request {
        Request::Peek { .. } => "peek:",
        Request::History { .. } => "read history:",
        Request::Exec { .. } => "execute:",
        _ => "access",
    }
}

pub fn prompt_title(permission: PermissionType) -> (s: &'static str)
    ensures
        s@ == match permission {
            PermissionType::Read => " Read Request "@,
            PermissionType::Write => " Write Request "@,
        },
{
    match permission {
        PermissionType::Read => " Read Request ",
        PermissionType::Write => " Write Request ",
    }
}

/// The label at the bottom of the popup, where there are keys to show or hide.
pub fn bottom_label(has_keys: bool, expanded: bool) -> (r: Option<&'static str>)
    ensures
        r is Some <==> has_keys,
        r matches Some(s) ==> s@ == if expanded {
            " space: hide "@
        } else {
            " space: show "@
        },
{
    if !has_keys {
        None
    } else if expanded {
        Some(" space: hide ")
    } else {
        Some(" space: show ")
    }
}

// === Buttons ===

pub open spec fn button_label(i: int) -> Seq<char> {
    if i == 0 {
        "Allow Once"@
    } else if i == 1 {
        "Allow Session"@
    } else {
        "Deny"@
    }
}

fn label_of(i: usize) -> (s: &'static str)
    ensures
        s@ == button_label(i as int),
{
    if i == 0 {
        "Allow Once"
    } else if i == 1 {
        "Allow Session"
    } else {
        "Deny"
    }
}

pub open spec fn button_span(text: Seq<char>, i: int, selected: usize) -> SpanView {
    SpanView {
        text,
        style: SpanStyle::Button { index: i as usize, selected: i == selected },
    }
}

pub open spec fn plain_span(text: Seq<char>) -> SpanView {
    SpanView { text, style: SpanStyle::Plain }
}

/// The buttons side by side, two spaces apart.
pub open spec fn button_row(selected: usize) -> Seq<SpanView> {
    seq![
        button_span(" "@ + button_label(0) + " "@, 0, selected),
        plain_span("  "@),
        button_span(" "@ + button_label(1) + " "@, 1, selected),
        plain_span("  "@),
        button_span(" "@ + button_label(2) + " "@, 2, selected),
    ]
}

/// So many spaces.
pub open spec fn spaces(n: nat) -> Seq<char> {
    Seq::new(n, |i: int| ' ')
}

/// One button on a line of its own, filled with spaces to a width.
pub open spec fn button_line(i: int, selected: usize, width: int) -> Seq<SpanView> {
    let label = button_label(i);
    seq![
        plain_span(" "@),
        button_span(
            " "@ + label + spaces(minus(width, (label.len() + 1) as int) as nat),
            i,
            selected,
        ),
    ]
}

pub fn horizontal_buttons(selected: usize) -> (spans: Vec<Span>)
    ensures
        span_views(spans@) == button_row(selected),
{
    let mut spans: Vec<Span> = Vec::new();
    push_span(
        &mut spans,
        concat3(" ", label_of(0), " "),
        SpanStyle::Button { index: 0, selected: 0 == selected },
    );
    push_span(&mut spans, text("  "), SpanStyle::Plain);
    push_span(
        &mut spans,
        concat3(" ", label_of(1), " "),
        SpanStyle::Button { index: 1, selected: 1 == selected },
    );
    push_span(&mut spans, text("  "), SpanStyle::Plain);
    push_span(
        &mut spans,
        concat3(" ", label_of(2), " "),
        SpanStyle::Button { index: 2, selected: 2 == selected },
    );
    proof {
        assert(span_views(spans@) =~= button_row(selected));
    }
    spans
}

fn push_spaces(s: &mut String, n: usize)
    ensures
        final(s)@ == old(s)@ + spaces(n as nat),
{
    for i in 0..n
        invariant
            s@ == old(s)@ + spaces(i as nat),
    {
        s.push(' ');
        proof {
            assert(s@ =~= old(s)@ + spaces((i + 1) as nat));
        }
    }
}

fn vertical_button(i: usize, selected: usize, width: usize) -> (spans: Vec<Span>)
    ensures
        span_views(spans@) == button_line(i as int, selected, width as int),
{
    let label = label_of(i);
    proof {
        reveal_strlit("Allow Once");
        reveal_strlit("Allow Session");
        reveal_strlit("Deny");
    }
    let pad = width.saturating_sub(label.unicode_len() + 1);
    let mut s = concat(" ", label);
    push_spaces(&mut s, pad);
    let mut spans: Vec<Span> = Vec::new();
    push_span(&mut spans, text(" "), SpanStyle::Plain);
    push_span(&mut spans, s, SpanStyle::Button { index: i, selected: i == selected });
    proof {
        assert(span_views(spans@) =~= button_line(i as int, selected, width as int));
    }
    spans
}

// === Collapsed view ===

/// The lines of the collapsed prompt: who wants to do what, a preview of the keys, the buttons.
pub open spec fn collapsed_lines(
    source: Seq<char>,
    action: Seq<char>,
    keys: Option<Seq<Seq<char>>>,
    selected: usize,
    width: int,
    height: int,
    horizontal: bool,
) -> Seq<Seq<SpanView>> {
    let empty = Seq::<SpanView>::empty();
    let margin = if horizontal {
        empty
    } else {
        seq![plain_span(" "@)]
    };
    let who = margin + seq![
        SpanView { text: source, style: SpanStyle::Source },
        plain_span(" wants to "@),
        SpanView { text: action, style: SpanStyle::Action },
    ];
    let shown = match keys {
        None => Seq::empty(),
        Some(k) => seq![empty] + preview(
            join(k, " "@),
            minus(
                width,
                if horizontal {
                    2
                } else {
                    4
                },
            ),
            minus(
                height,
                if horizontal {
                    5
                } else {
                    4 + BUTTON_COUNT
                },
            ),
        ).map_values(|line: Seq<char>| margin + highlighted(line)),
    };
    let buttons = if horizontal {
        seq![button_row(selected)]
    } else {
        Seq::new(BUTTON_COUNT as nat, |i: int| button_line(i, selected, minus(width, 2)))
    };
    seq![empty, who] + shown + seq![empty] + buttons
}

fn push_line(lines: &mut Vec<Vec<Span>>, line: Vec<Span>)
    ensures
        line_views(final(lines)@) == line_views(old(lines)@).push(span_views(line@)),
{
    let ghost before = line_views(lines@);
    lines.push(line);
    proof {
        assert(line_views(lines@) =~= before.push(span_views(line@)));
    }
}

fn empty_line() -> (line: Vec<Span>)
    ensures
        span_views(line@) == Seq::<SpanView>::empty(),
{
    let line: Vec<Span> = Vec::new();
    proof {
        assert(span_views(line@) =~= Seq::<SpanView>::empty());
    }
    line
}

/// A line with a space in front where the buttons stand below each other.
fn with_margin(horizontal: bool, rest: Vec<Span>) -> (line: Vec<Span>)
    ensures
        span_views(line@) == (if horizontal {
            Seq::empty()
        } else {
            seq![plain_span(" "@)]
        }) + span_views(rest@),
{
    let mut line = empty_line();
    if !horizontal {
        push_span(&mut line, text(" "), SpanStyle::Plain);
    }
    let mut rest = rest;
    let ghost before = span_views(line@);
    let ghost more = span_views(rest@);
    line.append(&mut rest);
    proof {
        assert(span_views(line@) =~= before + more);
        assert(span_views(line@) =~= (if horizontal {
            Seq::empty()
        } else {
            seq![plain_span(" "@)]
        }) + more);
    }
    line
}

/// Lay out the collapsed prompt in an area of the given size.
pub fn layout_collapsed(
    source: &str,
    action: &str,
    keys: Option<&[String]>,
    selected: usize,
    width: u16,
    height: u16,
    horizontal: bool,
) -> (lines: Vec<Vec<Span>>)
    ensures
        line_views(lines@) == collapsed_lines(
            source@,
            action@,
            match keys {
                Some(k) => Some(texts(k@)),
                None => None,
            },
            selected,
            width as int,
            height as int,
            horizontal,
        ),
{
    let ghost margin = if horizontal {
        Seq::<SpanView>::empty()
    } else {
        seq![plain_span(" "@)]
    };
    let mut lines: Vec<Vec<Span>> = Vec::new();
    proof {
        assert(line_views(lines@) =~= Seq::empty());
    }
    push_line(&mut lines, empty_line());
    let mut who = empty_line();
    push_span(&mut who, text(source), SpanStyle::Source);
    push_span(&mut who, text(" wants to "), SpanStyle::Plain);
    push_span(&mut who, text(action), SpanStyle::Action);
    proof {
        assert(span_views(who@) =~= seq![
            SpanView { text: source@, style: SpanStyle::Source },
            plain_span(" wants to "@),
            SpanView { text: action@, style: SpanStyle::Action },
        ]);
    }
    push_line(&mut lines, with_margin(horizontal, who));
    let ghost head = line_views(lines@);
    let ghost mut shown: Seq<Seq<SpanView>> = Seq::empty();
    if let Some(k) = keys {
        push_line(&mut lines, empty_line());
        let max_w = width.saturating_sub(
            if horizontal {
                2
            } else {
                4
            },
        );
        let room = height.saturating_sub(
            if horizontal {
                5
            } else {
                7
            },
        );
        let rows = wrap_key_preview(k, max_w as usize, room as usize);
        let ghost styled = texts(rows@).map_values(|line: Seq<char>| margin + highlighted(line));
        let ghost before = line_views(lines@);
        for i in 0..rows.len()
            invariant
                margin == if horizontal {
                    Seq::<SpanView>::empty()
                } else {
                    seq![plain_span(" "@)]
                },
                styled == texts(rows@).map_values(|line: Seq<char>| margin + highlighted(line)),
                line_views(lines@) == before + styled.take(i as int),
        {
            let line = with_margin(horizontal, highlight_line(rows[i].as_str()));
            proof {
                assert(span_views(line@) == styled[i as int]);
            }
            push_line(&mut lines, line);
            proof {
                assert(line_views(lines@) =~= before + styled.take(i + 1));
            }
        }
        proof {
            assert(styled.take(rows@.len() as int) =~= styled);
            shown = seq![Seq::<SpanView>::empty()] + styled;
        }
    }
    proof {
        assert(line_views(lines@) =~= head + shown);
    }
    push_line(&mut lines, empty_line());
    if horizontal {
        push_line(&mut lines, horizontal_buttons(selected));
    } else {
        let button_width = width.saturating_sub(2) as usize;
        push_line(&mut lines, vertical_button(0, selected, button_width));
        push_line(&mut lines, vertical_button(1, selected, button_width));
        push_line(&mut lines, vertical_button(2, selected, button_width));
    }
    proof {
        let want = collapsed_lines(
            source@,
            action@,
            match keys {
                Some(k) => Some(texts(k@)),
                None => None,
            },
            selected,
            width as int,
            height as int,
            horizontal,
        );
        assert(line_views(lines@) =~= want);
    }
    lines
}

// === Expanded view ===

/// The expanded keys: the lines that are visible, and where the scrollbar's thumb begins and how
/// long it is, if there is one.
pub struct ExpandedView {
    pub lines: Vec<Vec<Span>>,
    pub text_width: u16,
    pub thumb: Option<(usize, usize)>,
}

/// The first visible line: as far as was scrolled, but no further than needed.
pub open spec fn first_line(total: int, height: int, scroll_offset: int) -> int {
    smaller(scroll_offset, minus(total, height))
}

/// The visible part of the keys.
pub open spec fn visible_lines(
    lines: Seq<Seq<char>>,
    height: int,
    scroll_offset: int,
) -> Seq<Seq<char>> {
    let first = first_line(lines.len() as int, height, scroll_offset);
    lines.subrange(first, first + smaller(height, lines.len() - first))
}

/// The thumb is as long a part of the track as the part of the lines that is visible, and as far
/// down as was scrolled.
pub open spec fn thumb_of(total: int, height: int, scroll_offset: int) -> Option<(int, int)> {
    if total <= height {
        None
    } else {
        let share = height * height / total;
        let len = if share < 1 {
            1
        } else {
            share
        };
        Some((first_line(total, height, scroll_offset) * (height - len) / (total - height), len))
    }
}

fn scrollbar(total: usize, height: usize, first: usize) -> (r: Option<(usize, usize)>)
    requires
        0 < height <= u16::MAX,
        first <= minus(total as int, height as int),
    ensures
        match thumb_of(total as int, height as int, first as int) {
            Some((start, len)) => r == Some((start as usize, len as usize)) && 0 <= start && start
                + len <= height,
            None => r is None,
        },
{
    if total <= height {
        return None;
    }
    let h: u128 = height as u128;
    let t: u128 = total as u128;
    proof {
        assert(height * height <= u16::MAX * u16::MAX) by (nonlinear_arith)
            requires
                0 < height <= u16::MAX,
        ;
    }
    let share: u128 = h * h / t;
    let len: u128 = if share < 1 {
        1
    } else {
        share
    };
    proof {
        let a = height as int;
        let b = total as int;
        assert(a * a / b <= a) by (nonlinear_arith)
            requires
                0 < a < b,
        ;
        assert(share == a * a / b);
        assert(first * (height - len) <= u64::MAX * u16::MAX) by (nonlinear_arith)
            requires
                0 <= first <= u64::MAX,
                0 <= height - len <= u16::MAX,
        ;
    }
    let start: u128 = first as u128 * (h - len) / (t - h);
    proof {
        let a = first as int;
        let b = height - len;
        let d = total - height;
        assert(a * b / d <= b) by (nonlinear_arith)
            requires
                0 <= a <= d,
                0 <= b,
                0 < d,
        ;
        assert(a * b / d >= 0) by (nonlinear_arith)
            requires
                0 <= a,
                0 <= b,
                0 < d,
        ;
    }
    Some((start as usize, len as usize))
}

/// Lay out the expanded keys in an area of the given size: word-wrapped, with a scrollbar in the
/// last column. There is nothing to lay out where the area is too small.
pub fn layout_expanded(keys: &[String], scroll_offset: usize, width: u16, height: u16) -> (r:
    Option<ExpandedView>)
    ensures
        r is None <==> width < 2 || height < 1,
        r matches Some(view) ==> {
            let lines = wrapped(join(texts(keys@), " "@), width - 1);
            &&& view.text_width == width - 1
            &&& line_views(view.lines@) == visible_lines(
                lines,
                height as int,
                scroll_offset as int,
            ).map_values(|line: Seq<char>| highlighted(line))
            &&& match thumb_of(
                lines.len() as int,
                height as int,
                first_line(lines.len() as int, height as int, scroll_offset as int),
            ) {
                Some((start, len)) => view.thumb == Some((start as usize, len as usize)),
                None => view.thumb is None,
            }
        },
{
    if width < 2 || height < 1 {
        return None;
    }
    let joined = join_strings(keys, " ");
    let text_width: u16 = width - 1;
    let rows = word_wrap(joined.as_str(), text_width as usize);
    let ghost all = texts(rows@);
    proof {
        assert(all.len() == rows@.len());
    }
    let total = rows.len();
    let limit = total.saturating_sub(height as usize);
    let first: usize = if scroll_offset < limit {
        scroll_offset
    } else {
        limit
    };
    let count: usize = if (height as usize) < total - first {
        height as usize
    } else {
        total - first
    };
    let ghost visible = visible_lines(all, height as int, scroll_offset as int);
    let ghost styled = visible.map_values(|line: Seq<char>| highlighted(line));
    let mut lines: Vec<Vec<Span>> = Vec::new();
    proof {
        assert(line_views(lines@) =~= styled.take(0));
    }
    for i in 0..count
        invariant
            all == texts(rows@),
            first + count <= total == rows@.len(),
            visible == all.subrange(first as int, first + count),
            styled == visible.map_values(|line: Seq<char>| highlighted(line)),
            line_views(lines@) == styled.take(i as int),
    {
        assert(first + i < rows.len());
        push_line(&mut lines, highlight_line(rows[first + i].as_str()));
        proof {
            assert(line_views(lines@) =~= styled.take(i + 1));
        }
    }
    proof {
        assert(styled.take(count as int) =~= styled);
    }
    Some(ExpandedView { lines, text_width, thumb: scrollbar(total, height as usize, first) })
}

// === Blocked Overlay (terminal too small) ===

/// What covers a terminal in which the prompt does not fit.
#[derive(Debug, Clone, Copy, PartialEq, Eq, Structural)]
pub enum BlockedOverlay {
    Nothing,
    /// A popup that asks for a larger terminal.
    Resize(Rect),
    /// A border and nothing else.
    Border,
}

pub open spec fn overlay_of(width: u16, height: u16) -> BlockedOverlay {
    if width < 2 || height < 2 {
        BlockedOverlay::Nothing
    } else if width >= MIN_RESIZE_WIDTH && height >= MIN_RESIZE_HEIGHT {
        BlockedOverlay::Resize(
            centered(
                popup_width_of(width as int) as u16,
                smaller(3, minus(height as int, 2)) as u16,
                width,
                height,
            ),
        )
    } else {
        BlockedOverlay::Border
    }
}

pub fn blocked_overlay(width: u16, height: u16) -> (r: BlockedOverlay)
    ensures
        r == overlay_of(width, height),
{
    if width < 2 || height < 2 {
        BlockedOverlay::Nothing
    } else if can_show_resize_message(width, height) {
        let room = height.saturating_sub(2);
        let h: u16 = if 3 < room {
            3
        } else {
            room
        };
        BlockedOverlay::Resize(centered_rect(popup_width(width), h, width, height))
    } else {
        BlockedOverlay::Border
    }
}

/// Where in the popup the message to resize stands (column, row), if there is room for it.
pub fn resize_message(inner_width: u16, inner_height: u16) -> (r: Option<(u16, u16)>)
    ensures
        r == if inner_height >= 1 && inner_width >= 6 {
            Some(
                (
                    minus(minus(inner_width as int, 6) / 2, 2) as u16,
                    (inner_height / 2) as u16,
                ),
            )
        } else {
            None
        },
{
    if inner_height >= 1 && inner_width >= 6 {
        let x = inner_width.saturating_sub(6) / 2;
        Some((x.saturating_sub(2), inner_height / 2))
    } else {
        None
    }
}

/// The border around an area: its character at a place, if that is on it.
pub open spec fn border_of(x: u16, y: u16, width: u16, height: u16) -> Option<char> {
    let left = x == 0;
    let right = x == width - 1;
    let top = y == 0;
    let bottom = y == height - 1;
    if top && left {
        Some('╭')
    } else if top && right {
        Some('╮')
    } else if bottom && left {
        Some('╰')
    } else if bottom && right {
        Some('╯')
    } else if top || bottom {
        Some('─')
    } else if left || right {
        Some('│')
    } else {
        None
    }
}

pub fn border_cell(x: u16, y: u16, width: u16, height: u16) -> (r: Option<char>)
    requires
        x < width,
        y < height,
    ensures
        r == border_of(x, y, width, height),
{
    let left = x == 0;
    let right = x == width - 1;
    let top = y == 0;
    let bottom = y == height - 1;
    if top && left {
        Some('╭')
    } else if top && right {
        Some('╮')
    } else if bottom && left {
        Some('╰')
    } else if bottom && right {
        Some('╯')
    } else if top || bottom {
        Some('─')
    } else if left || right {
        Some('│')
    } else {
        None
    }
}

// === Laws ===

proof fn lemma_wrapped_lines_fit(list: Seq<Seq<char>>, width: int, current: Seq<char>)
    requires
        0 < width,
        current.len() <= width,
    ensures
        forall|i: int|
            0 <= i < wrapped_words(list, width, current).len() ==> (#[trigger] wrapped_words(
                list,
                width,
                current,
            )[i]).len() <= width,
    decreases list.len(), current.len(),
{
    let lines = wrapped_words(list, width, current);
    if list.len() == 0 {
        assert forall|i: int| 0 <= i < lines.len() implies (#[trigger] lines[i]).len()
            <= width by {
            assert(lines[i] == current);
        }
    } else {
        if current.len() > 0 {
            if current.len() + 1 + list[0].len() <= width {
                let longer = current.push(' ') + list[0];
                lemma_wrapped_lines_fit(list.skip(1), width, longer);
                assert(lines == wrapped_words(list.skip(1), width, longer));
            } else {
                lemma_wrapped_lines_fit(list, width, Seq::empty());
                let rest = wrapped_words(list, width, Seq::empty());
                assert forall|i: int| 0 <= i < lines.len() implies (#[trigger] lines[i]).len()
                    <= width by {
                    if i > 0 {
                        assert(lines[i] == rest[i - 1]);
                    }
                }
            }
        } else if list[0].len() <= width {
            lemma_wrapped_lines_fit(list.skip(1), width, list[0]);
            assert(lines == wrapped_words(list.skip(1), width, list[0]));
        } else {
            lemma_wrapped_lines_fit(list.skip(1), width, Seq::empty());
            let rest = wrapped_words(list.skip(1), width, Seq::empty());
            assert forall|i: int| 0 <= i < lines.len() implies (#[trigger] lines[i]).len()
                <= width by {
                if i > 0 {
                    assert(lines[i] == rest[i - 1]);
                }
            }
        }
    }
}

/// No wrapped line is wider than asked.
pub proof fn law_wrapped_lines_fit(s: Seq<char>, width: int)
    requires
        0 <= width,
    ensures
        forall|i: int|
            0 <= i < wrapped(s, width).len() ==> (#[trigger] wrapped(s, width)[i]).len() <= width,
{
    if width > 0 {
        lemma_wrapped_lines_fit(words(s), width, Seq::empty());
    }
}

/// Lines put together, each with a space in front.
pub open spec fn spaced(lines: Seq<Seq<char>>) -> Seq<char>
    decreases lines.len(),
{
    if lines.len() == 0 {
        Seq::empty()
    } else {
        seq![' '] + lines[0] + spaced(lines.skip(1))
    }
}

/// A word as a line shows it: one that is too long is cut.
pub open spec fn fitted(word: Seq<char>, width: int) -> Seq<char> {
    if word.len() <= width {
        word
    } else {
        cut_word(word, width)
    }
}

pub open spec fn all_fitted(list: Seq<Seq<char>>, width: int) -> Seq<Seq<char>> {
    list.map_values(|w: Seq<char>| fitted(w, width))
}

proof fn lemma_wrapping_keeps_words(list: Seq<Seq<char>>, width: int, current: Seq<char>)
    requires
        forall|i: int| 0 <= i < list.len() ==> 0 < (#[trigger] list[i]).len(),
    ensures
        spaced(wrapped_words(list, width, current)) == (if current.len() > 0 {
            seq![' '] + current
        } else {
            Seq::empty()
        }) + spaced(all_fitted(list, width)),
    decreases list.len(), current.len(),
{
    let lines = wrapped_words(list, width, current);
    let shown = all_fitted(list, width);
    if list.len() == 0 {
        if current.len() > 0 {
            assert(seq![current].skip(1) =~= Seq::<Seq<char>>::empty());
            assert(spaced(seq![current].skip(1)) =~= Seq::<char>::empty());
            assert(spaced(lines) =~= seq![' '] + current + spaced(shown));
        }
    } else {
        let tail = list.skip(1);
        assert forall|i: int| 0 <= i < tail.len() implies 0 < (#[trigger] tail[i]).len() by {
            assert(0 < list[i + 1].len());
        }
        assert(0 < list[0].len());
        assert(shown.skip(1) =~= all_fitted(tail, width));
        if current.len() > 0 {
            if current.len() + 1 + list[0].len() <= width {
                let longer = current.push(' ') + list[0];
                lemma_wrapping_keeps_words(tail, width, longer);
                assert(spaced(lines) =~= seq![' '] + current + spaced(shown));
            } else {
                lemma_wrapping_keeps_words(list, width, Seq::empty());
                let rest = wrapped_words(list, width, Seq::empty());
                assert(lines.skip(1) =~= rest);
                assert(spaced(lines) =~= seq![' '] + current + spaced(shown));
            }
        } else if list[0].len() <= width {
            lemma_wrapping_keeps_words(tail, width, list[0]);
            assert(lines == wrapped_words(tail, width, list[0]));
            assert(spaced(lines) =~= Seq::empty() + spaced(shown));
        } else {
            lemma_wrapping_keeps_words(tail, width, Seq::empty());
            assert(lines.skip(1) =~= wrapped_words(tail, width, Seq::empty()));
            assert(spaced(lines) =~= Seq::empty() + spaced(shown));
        }
    }
}

proof fn lemma_words_not_empty(s: Seq<char>)
    ensures
        forall|i: int| 0 <= i < words(s).len() ==> (#[trigger] words(s)[i]).len() > 0,
    decreases s.len(),
{
    lemma_position(s, ' ');
    let n = position(s, ' ') as int;
    if s.len() > 0 && n < s.len() {
        lemma_words_not_empty(s.skip(n + 1));
        let shift: int = if n == 0 {
            0
        } else {
            1
        };
        assert forall|i: int| 0 <= i < words(s).len() implies (#[trigger] words(s)[i]).len() > 0 by {
            if i >= shift {
                assert(words(s)[i] == words(s.skip(n + 1))[i - shift]);
            }
        }
    }
}

/// Wrapping keeps every word, in order. Only those that are wider than a line are cut.
pub proof fn law_wrapping_keeps_all_words(s: Seq<char>, width: int)
    requires
        0 < width,
    ensures
        spaced(wrapped(s, width)) == spaced(all_fitted(words(s), width)),
{
    let shown = all_fitted(words(s), width);
    lemma_words_not_empty(s);
    lemma_wrapping_keeps_words(words(s), width, Seq::empty());
    assert(Seq::<char>::empty() + spaced(shown) =~= spaced(shown));
}

/// The texts of spans put together.
pub open spec fn spans_text(spans: Seq<SpanView>) -> Seq<char>
    decreases spans.len(),
{
    if spans.len() == 0 {
        Seq::empty()
    } else {
        spans[0].text + spans_text(spans.skip(1))
    }
}

proof fn lemma_spans_text_concat(a: Seq<SpanView>, b: Seq<SpanView>)
    ensures
        spans_text(a + b) == spans_text(a) + spans_text(b),
    decreases a.len(),
{
    if a.len() == 0 {
        assert(a + b =~= b);
        assert(spans_text(a) + spans_text(b) =~= spans_text(b));
    } else {
        assert((a + b).skip(1) =~= a.skip(1) + b);
        lemma_spans_text_concat(a.skip(1), b);
        assert(spans_text(a + b) =~= spans_text(a) + spans_text(b));
    }
}

proof fn lemma_one_span(span: SpanView)
    ensures
        spans_text(seq![span]) == span.text,
{
    assert(seq![span].skip(1) =~= Seq::<SpanView>::empty());
    assert(spans_text(Seq::<SpanView>::empty()) == Seq::<char>::empty());
    assert(span.text + Seq::<char>::empty() =~= span.text);
}

/// Highlighting changes no character: the spans put together are the text.
pub proof fn law_highlighting_keeps_the_text(s: Seq<char>)
    ensures
        spans_text(highlighted(s)) == s,
    decreases s.len(),
{
    lemma_position(s, '{');
    let open = position(s, '{') as int;
    let rest = s.skip(open);
    lemma_position(rest, '}');
    let close = position(rest, '}') as int;
    if s.len() == 0 {
        assert(s =~= Seq::<char>::empty());
    } else if open == s.len() {
        lemma_one_span(SpanView { text: s, style: SpanStyle::Text });
    } else {
        let before = if open > 0 {
            seq![SpanView { text: s.take(open), style: SpanStyle::Text }]
        } else {
            Seq::empty()
        };
        assert(spans_text(before) =~= s.take(open)) by {
            if open > 0 {
                lemma_one_span(SpanView { text: s.take(open), style: SpanStyle::Text });
            }
        }
        assert(s =~= s.take(open) + rest);
        if close == rest.len() {
            let last = SpanView { text: rest, style: SpanStyle::Text };
            assert(before.push(last) =~= before + seq![last]);
            lemma_spans_text_concat(before, seq![last]);
            lemma_one_span(last);
        } else {
            let token = SpanView { text: rest.take(close + 1), style: SpanStyle::Token };
            let tail = rest.skip(close + 1);
            assert(before.push(token) =~= before + seq![token]);
            lemma_spans_text_concat(before, seq![token]);
            lemma_one_span(token);
            lemma_spans_text_concat(before.push(token), highlighted(tail));
            law_highlighting_keeps_the_text(tail);
            assert(rest =~= rest.take(close + 1) + tail);
            assert(s =~= s.take(open) + rest.take(close + 1) + tail);
        }
    }
}

/// A prompt that does not fit on the screen cannot be answered.
pub proof fn law_an_unseen_prompt_is_not_answered(
    code: KeyCode,
    selected: usize,
    expanded: bool,
    width: u16,
    height: u16,
)
    requires
        !prompt_fits(width, height),
    ensures
        prompt_key(code, selected, expanded, width, height) == navigate(selected),
{
}

/// Moving among the buttons never leaves them.
pub proof fn law_selection_stays_on_a_button(
    code: KeyCode,
    selected: usize,
    expanded: bool,
    width: u16,
    height: u16,
)
    requires
        selected < BUTTON_COUNT,
    ensures
        prompt_key(code, selected, expanded, width, height).selected < BUTTON_COUNT,
{
}

} // verus!
