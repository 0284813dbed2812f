//! What the prompt shows, and what its keys do.
use vstd::prelude::*;
use crate::keys::shown_arg;
use crate::session::dispatch::{DispatchView, PromptState};
use crate::session::prompt::{
    border_of, button_line, centered, collapsed_lines, cut_word, first_line, fitted, highlighted,
    overlay_of, popup_height_of, popup_width_of, preview, prompt_key, request_keys, scroll_limit,
    source_text, thumb_of, verb_of, visible_lines, words, wrapped, wrapped_words, BlockedOverlay,
    PromptKeyResult, PromptResult, SpanStyle, SpanView,
};
use crate::session::terminal::{KeyCode, KeyEvent};
use crate::session::SessionView;
use crate::strings::{join, lemma_position, position};
use crate::types::Request;

verus! {

// === Keys ===

pub open spec fn answered(result: PromptResult, selected: usize) -> PromptKeyResult {
    PromptKeyResult { result, selected, toggle_expanded: false, scroll_delta: 0 }
}

/// Escape denies and Enter takes the button that is selected: the first allows once, the second
/// for the session, the third denies. The arrows, Tab and `hjkl` go from button to button and stop
/// at the ends. Space expands. Any other key does nothing.
pub proof fn law_keys_of_a_prompt(code: KeyCode, selected: usize, width: u16, height: u16)
    requires
        width >= 28,
        height >= 7,
        selected < 3,
    ensures
        ({
            let r = prompt_key(code, selected, false, width, height);
            let back = code is Left || code is Up || code is BackTab || code == KeyCode::Char('h')
                || code == KeyCode::Char('k');
            let on = code is Right || code is Down || code is Tab || code == KeyCode::Char('l')
                || code == KeyCode::Char('j');
            if code is Esc {
                r == answered(PromptResult::Deny, selected)
            } else if code is Enter {
                r == answered(
                    if selected == 0 {
                        PromptResult::Allow
                    } else if selected == 1 {
                        PromptResult::AlwaysAllow
                    } else {
                        PromptResult::Deny
                    },
                    selected,
                )
            } else if code == KeyCode::Char(' ') {
                r == (PromptKeyResult {
                    toggle_expanded: true,
                    ..answered(PromptResult::Navigate, selected)
                })
            } else if back && selected > 0 {
                r == answered(PromptResult::Navigate, (selected - 1) as usize)
            } else if on && selected < 2 {
                r == answered(PromptResult::Navigate, (selected + 1) as usize)
            } else {
                r == answered(PromptResult::Navigate, selected)
            }
        }),
{
}

/// Expanded, a prompt cannot be answered: Escape and Space collapse it, Up and `k` scroll up by a
/// line, Down and `j` down. A prompt that there is no room for takes no keys at all.
pub proof fn law_keys_of_an_expanded_prompt(
    code: KeyCode,
    selected: usize,
    expanded: bool,
    width: u16,
    height: u16,
)
    ensures
        width < 28 || height < 7 ==> prompt_key(code, selected, expanded, width, height)
            == answered(PromptResult::Navigate, selected),
        width >= 28 && height >= 7 ==> {
            let r = prompt_key(code, selected, true, width, height);
            let up = code is Up || code == KeyCode::Char('k');
            let down = code is Down || code == KeyCode::Char('j');
            r == (PromptKeyResult {
                result: PromptResult::Navigate,
                selected,
                toggle_expanded: code is Esc || code == KeyCode::Char(' '),
                scroll_delta: if up {
                    -1i32
                } else if down {
                    1i32
                } else {
                    0i32
                },
            })
        },
{
}

/// A key that does not answer the prompt changes only what is selected, whether it is expanded and
/// how far it is scrolled, which stays between nothing and the limit.
pub proof fn law_moving_around_in_a_prompt(
    s: SessionView,
    key: KeyEvent,
    cols: u16,
    rows: u16,
    now: u64,
)
    requires
        s.dispatch.prompt_state matches PromptState::Pending { selected, expanded, .. }
            && prompt_key(key.code, selected, expanded, cols, rows).result
            == PromptResult::Navigate,
        scroll_limit(
            s.dispatch.prompt_state->request.request,
            cols as int,
            rows as int,
        ) <= usize::MAX,
    ensures
        ({
            let after = s.prompt_resolution(key, cols, rows, now);
            let before = s.dispatch.prompt_state;
            let r = prompt_key(key.code, before->selected, before->expanded, cols, rows);
            let limit = scroll_limit(before->request.request, cols as int, rows as int);
            let wanted = before->scroll_offset + r.scroll_delta;
            &&& after.dispatch.prompt_state is Pending
            &&& after.dispatch.prompt_state->request == before->request
            &&& after.dispatch.prompt_state->permission_type == before->permission_type
            &&& after.dispatch.prompt_state->selected == r.selected
            &&& after.dispatch.prompt_state->expanded == (before->expanded != r.toggle_expanded)
            &&& 0 <= wanted <= limit ==> after.dispatch.prompt_state->scroll_offset == wanted
            &&& wanted < 0 && limit >= 0 ==> after.dispatch.prompt_state->scroll_offset == 0
            &&& 0 <= limit < wanted ==> after.dispatch.prompt_state->scroll_offset == limit
            &&& after.pty == s.pty
            &&& after.outbox == s.outbox
            &&& after.dispatch == (DispatchView {
                prompt_state: after.dispatch.prompt_state,
                ..s.dispatch
            })
        }),
{
}

/// A key that answers the prompt is the answer to the request that is shown.
pub proof fn law_answering_a_prompt(
    s: SessionView,
    key: KeyEvent,
    cols: u16,
    rows: u16,
    now: u64,
)
    requires
        s.dispatch.prompt_state matches PromptState::Pending { selected, expanded, .. }
            && prompt_key(key.code, selected, expanded, cols, rows).result
            != PromptResult::Navigate,
    ensures
        ({
            let before = s.dispatch.prompt_state;
            s.prompt_resolution(key, cols, rows, now) == (SessionView {
                dispatch: DispatchView { prompt_state: PromptState::Idle, ..s.dispatch },
                ..s
            }).resolve_prompt(
                before->request,
                before->permission_type,
                prompt_key(key.code, before->selected, before->expanded, cols, rows).result,
                now,
            )
        }),
{
}

// === Words and lines ===

/// Words stand between spaces; there are no empty ones.
pub proof fn law_words(a: Seq<char>, b: Seq<char>)
    ensures
        words(a + seq![' '] + b) == words(a) + words(b),
        a.len() > 0 && !a.contains(' ') ==> words(a) == seq![a],
        words(Seq::empty()) == Seq::<Seq<char>>::empty(),
    decreases a.len(),
{
    let s = a + seq![' '] + b;
    lemma_position(a, ' ');
    lemma_position(s, ' ');
    let n = position(a, ' ') as int;
    assert(s[a.len() as int] == ' ');
    let m = position(s, ' ') as int;
    assert(m == n) by {
        if m < n {
            assert(s[m] == a[m]);
        }
        if n < m {
            if n < a.len() {
                assert(s[n] == a[n]);
            }
        }
    }
    if n == a.len() {
        assert(s.take(n) =~= a);
        assert(s.skip(n + 1) =~= b);
        if a.len() == 0 {
            assert(words(s) =~= words(a) + words(b));
        } else {
            assert(words(s) =~= words(a) + words(b));
        }
    } else {
        assert(a.contains(a[n]));
        law_words(a.skip(n + 1), b);
        assert(s.take(n) =~= a.take(n));
        assert(s.skip(n + 1) =~= a.skip(n + 1) + seq![' '] + b);
        assert(words(s) =~= words(a) + words(b));
    }
}

proof fn lemma_words_have_no_space(s: Seq<char>)
    ensures
        forall|i: int| 0 <= i < words(s).len() ==> !(#[trigger] words(s)[i]).contains(' ') && words(
            s,
        )[i].len() > 0,
    decreases s.len(),
{
    lemma_position(s, ' ');
    let n = position(s, ' ') as int;
    if s.len() > 0 && n < s.len() {
        let rest = s.skip(n + 1);
        lemma_words_have_no_space(rest);
        let shift: int = if n == 0 {
            0
        } else {
            1
        };
        assert forall|i: int| 0 <= i < words(s).len() implies !(#[trigger] words(s)[i]).contains(
            ' ',
        ) && words(s)[i].len() > 0 by {
            if i >= shift {
                assert(words(s)[i] == words(rest)[i - shift]);
            } else {
                let w = s.take(n);
                if w.contains(' ') {
                    let j = choose|j: int| 0 <= j < w.len() && w[j] == ' ';
                    assert(s[j] == ' ');
                }
            }
        }
    } else if s.len() > 0 {
        if s.contains(' ') {
            let j = choose|j: int| 0 <= j < s.len() && s[j] == ' ';
            assert(s[j] == ' ');
        }
    }
}

/// The length of the first word of a line.
pub open spec fn first_word(line: Seq<char>) -> nat {
    position(line, ' ')
}

/// Whether no line could have taken the first word of the next one.
pub open spec fn is_full(lines: Seq<Seq<char>>, width: int) -> bool {
    forall|i: int, j: int|
        0 <= i < lines.len() && j == i + 1 && j < lines.len() ==> (#[trigger] lines[i]).len() + 1
            + first_word(#[trigger] lines[j]) > width
}

proof fn lemma_starts_with(line: Seq<char>, word: Seq<char>)
    requires
        !word.contains(' '),
        word.len() <= line.len(),
        line.take(word.len() as int) == word,
        line.len() > word.len() ==> line[word.len() as int] == ' ',
    ensures
        first_word(line) == word.len(),
{
    lemma_position(line, ' ');
    let n = position(line, ' ') as int;
    if n < word.len() {
        assert(line.take(word.len() as int)[n] == ' ');
        assert(word.contains(word[n]));
    }
}

/// Whether a line begins with a text that is a word or goes on behind a space.
spec fn begins(line: Seq<char>, start: Seq<char>) -> bool {
    &&& start.len() <= line.len()
    &&& line.take(start.len() as int) == start
    &&& line.len() > start.len() ==> line[start.len() as int] == ' '
}

proof fn lemma_greedy(list: Seq<Seq<char>>, width: int, current: Seq<char>)
    requires
        width > 0,
        current.len() <= width,
        forall|i: int|
            0 <= i < list.len() ==> !(#[trigger] list[i]).contains(' ') && list[i].len() > 0,
    ensures
        ({
            let lines = wrapped_words(list, width, current);
            &&& is_full(lines, width)
            &&& current.len() > 0 ==> lines.len() > 0 && begins(lines[0], current)
            &&& current.len() == 0 && list.len() > 0 ==> lines.len() > 0 && begins(
                lines[0],
                fitted(list[0], width),
            )
            &&& current.len() == 0 && list.len() == 0 ==> lines.len() == 0
        }),
    decreases list.len(), current.len(),
{
    let lines = wrapped_words(list, width, current);
    if list.len() == 0 {
        if current.len() > 0 {
            assert(current.take(current.len() as int) =~= current);
        }
    } else {
        let tail = list.skip(1);
        assert forall|i: int| 0 <= i < tail.len() implies !(#[trigger] tail[i]).contains(' ')
            && tail[i].len() > 0 by {
            assert(!list[i + 1].contains(' '));
        }
        let w = list[0];
        assert(!w.contains(' ') && w.len() > 0);
        if current.len() > 0 {
            if current.len() + 1 + w.len() <= width {
                let longer = current.push(' ') + w;
                lemma_greedy(tail, width, longer);
                let line = lines[0];
                assert(line.take(current.len() as int) =~= current) by {
                    assert forall|i: int| 0 <= i < current.len() implies line[i] == current[i] by {
                        assert(line.take(longer.len() as int)[i] == longer[i]);
                    }
                }
                assert(line.take(longer.len() as int)[current.len() as int] == ' ');
            } else {
                lemma_greedy(list, width, Seq::empty());
                let rest = wrapped_words(list, width, Seq::empty());
                assert(lines =~= seq![current] + rest);
                assert(current.take(current.len() as int) =~= current);
                let word = fitted(w, width);
                lemma_fitted(w, width);
                lemma_starts_with(rest[0], word);
                assert forall|i: int, j: int|
                    0 <= i < lines.len() && j == i + 1 && j < lines.len() implies (
                #[trigger] lines[i]).len() + 1 + first_word(#[trigger] lines[j]) > width by {
                    if i > 0 {
                        assert(lines[i] == rest[i - 1]);
                        assert(lines[j] == rest[j - 1]);
                    }
                }
            }
        } else if w.len() <= width {
            lemma_greedy(tail, width, w);
        } else {
            lemma_greedy(tail, width, Seq::empty());
            let rest = wrapped_words(tail, width, Seq::empty());
            let cut = cut_word(w, width);
            assert(lines =~= seq![cut] + rest);
            assert(cut.take(cut.len() as int) =~= cut);
            if tail.len() > 0 {
                lemma_fitted(tail[0], width);
                lemma_starts_with(rest[0], fitted(tail[0], width));
            }
            assert forall|i: int, j: int|
                0 <= i < lines.len() && j == i + 1 && j < lines.len() implies (
            #[trigger] lines[i]).len() + 1 + first_word(#[trigger] lines[j]) > width by {
                if i > 0 {
                    assert(lines[i] == rest[i - 1]);
                    assert(lines[j] == rest[j - 1]);
                }
            }
        }
    }
}

proof fn lemma_fitted(w: Seq<char>, width: int)
    requires
        width > 0,
        w.len() > 0,
        !w.contains(' '),
    ensures
        !fitted(w, width).contains(' '),
        fitted(w, width).len() == if w.len() <= width {
            w.len() as int
        } else {
            width
        },
{
    let f = fitted(w, width);
    if f.contains(' ') {
        let j = choose|j: int| 0 <= j < f.len() && f[j] == ' ';
        if w.len() > width && j < width - 1 {
            assert(w[j] == f[j]);
            assert(w.contains(w[j]));
        }
    }
}

/// Each line takes as many words as fit: none could have taken the first word of the next line.
/// A word that is too long keeps its beginning and ends in an ellipsis.
pub proof fn law_lines_are_full(s: Seq<char>, width: int)
    requires
        width > 0,
    ensures
        is_full(wrapped(s, width), width),
        s.len() > width && !s.contains(' ') ==> wrapped(s, width) == seq![
            s.take(width - 1).push('…'),
        ],
        0 < s.len() <= width && !s.contains(' ') ==> wrapped(s, width) == seq![s],
{
    lemma_words_have_no_space(s);
    lemma_greedy(words(s), width, Seq::empty());
    if s.len() > 0 && !s.contains(' ') {
        law_words(s, Seq::empty());
        let list = seq![s];
        let none = Seq::<Seq<char>>::empty();
        assert(list.skip(1) =~= none);
        reveal_with_fuel(wrapped_words, 3);
        assert(wrapped(s, width) =~= if s.len() <= width {
            seq![s]
        } else {
            seq![s.take(width - 1).push('…')]
        });
    }
}

/// A preview shows the first lines, all of them if there is room; else the last one that is shown
/// ends in an ellipsis and is no longer than the others may be.
pub proof fn law_previews(s: Seq<char>, width: int, max_lines: int)
    requires
        width > 0,
        max_lines > 0,
    ensures
        ({
            let lines = wrapped(s, width);
            let shown = preview(s, width, max_lines);
            &&& lines.len() <= max_lines ==> shown == lines
            &&& lines.len() > max_lines ==> {
                &&& shown.len() == max_lines
                &&& forall|i: int| 0 <= i < max_lines - 1 ==> #[trigger] shown[i] == lines[i]
                &&& shown[max_lines - 1].len() > 0
                &&& shown[max_lines - 1].last() == '…'
                &&& lines[max_lines - 1].len() < width ==> shown[max_lines - 1].drop_last()
                    == lines[max_lines - 1]
                &&& lines[max_lines - 1].len() >= width ==> shown[max_lines - 1].drop_last()
                    == lines[max_lines - 1].take(width - 1)
            }
        }),
{
    let lines = wrapped(s, width);
    if lines.len() > max_lines {
        let last = lines[max_lines - 1];
        let shown = preview(s, width, max_lines);
        if last.len() < width {
            assert(last.push('…').drop_last() =~= last);
        } else {
            assert(cut_word(last, width).drop_last() =~= last.take(width - 1));
        }
    }
}

/// What stands in braces is highlighted, braces and all; everything else is not.
pub proof fn law_braces_are_highlighted(a: Seq<char>, b: Seq<char>, rest: Seq<char>)
    requires
        !a.contains('{'),
        !b.contains('}'),
    ensures
        ({
            let before = if a.len() > 0 {
                seq![SpanView { text: a, style: SpanStyle::Text }]
            } else {
                Seq::empty()
            };
            &&& highlighted(a) == before
            &&& highlighted(a + (seq!['{'] + b + seq!['}'] + rest)) == before + seq![
                SpanView { text: seq!['{'] + b + seq!['}'], style: SpanStyle::Token },
            ] + highlighted(rest)
            &&& highlighted(a + (seq!['{'] + b)) == before + seq![
                SpanView { text: seq!['{'] + b, style: SpanStyle::Text },
            ]
        }),
{
    let token = seq!['{'] + b + seq!['}'];
    let s = a + (token + rest);
    let open = a + (seq!['{'] + b);
    let before = if a.len() > 0 {
        seq![SpanView { text: a, style: SpanStyle::Text }]
    } else {
        Seq::empty()
    };
    lemma_position(a, '{');
    if position(a, '{') < a.len() {
        assert(a.contains(a[position(a, '{') as int]));
    }
    lemma_at(a, token + rest, '{');
    lemma_at(a, seq!['{'] + b, '{');
    assert(s =~= a + (seq!['{'] + b + seq!['}'] + rest));
    assert(s.skip(a.len() as int) =~= token + rest);
    assert(open.skip(a.len() as int) =~= seq!['{'] + b);
    assert(s.take(a.len() as int) =~= a);
    assert(open.take(a.len() as int) =~= a);
    let head = seq!['{'] + b;
    assert(!head.contains('}')) by {
        if head.contains('}') {
            let j = choose|j: int| 0 <= j < head.len() && head[j] == '}';
            assert(b[j - 1] == '}');
            assert(b.contains(b[j - 1]));
        }
    }
    lemma_at(head, seq!['}'] + rest, '}');
    assert(head + (seq!['}'] + rest) =~= token + rest);
    lemma_position(head, '}');
    if position(head, '}') < head.len() {
        assert(head.contains(head[position(head, '}') as int]));
    }
    assert((token + rest).take(token.len() as int) =~= token);
    assert((token + rest).skip(token.len() as int) =~= rest);
    assert(highlighted(a) =~= before);
    assert(highlighted(s) =~= before + seq![SpanView { text: token, style: SpanStyle::Token }]
        + highlighted(rest));
    assert(highlighted(open) =~= before + seq![
        SpanView { text: seq!['{'] + b, style: SpanStyle::Text },
    ]);
}

proof fn lemma_at(a: Seq<char>, rest: Seq<char>, c: char)
    requires
        !a.contains(c),
        rest.len() > 0,
        rest[0] == c,
    ensures
        position(a + rest, c) == a.len(),
{
    let s = a + rest;
    lemma_position(s, c);
    let n = position(s, c) as int;
    assert(s[a.len() as int] == c);
    if n < a.len() {
        assert(s[n] == a[n]);
        assert(a.contains(a[n]));
    }
}

// === What is asked ===

/// The keys of an exec are shown one by one, with the piped text in place of its placeholder; no
/// other request has keys.
pub proof fn law_the_keys_that_are_shown(request: Request)
    ensures
        request is Exec == request_keys(request) is Some,
        request is Exec ==> {
            let keys = request->keys@;
            let shown = request_keys(request)->Some_0;
            &&& shown.len() == keys.len()
            &&& forall|i: int|
                0 <= i < shown.len() ==> #[trigger] shown[i] == if request->stdin is Some {
                    shown_arg(keys[i]@, request->stdin->Some_0@)
                } else {
                    keys[i]@
                }
        },
{
}

/// Who asks is shown by the tag, or by the id if there is none; and what for.
pub proof fn law_who_asks_for_what(id: Seq<char>, tag: Seq<char>, request: Request)
    ensures
        source_text(id, Some(tag)) == seq!['@'] + tag,
        source_text(id, None) == seq!['['] + id + seq![']'],
        request is Peek ==> verb_of(request) == "peek:"@,
        request is History ==> verb_of(request) == "read history:"@,
        request is Exec ==> verb_of(request) == "execute:"@,
{
    reveal_strlit("@");
    reveal_strlit("[");
    reveal_strlit("]");
    assert("@"@ =~= seq!['@']);
    assert("["@ =~= seq!['[']);
    assert("]"@ =~= seq![']']);
}

pub open spec fn plain(text: Seq<char>) -> SpanView {
    SpanView { text, style: SpanStyle::Plain }
}

proof fn lemma_labels(selected: usize, width: int)
    ensures
        ({
            let room = if width > 2 {
                width - 2
            } else {
                0
            };
            &&& (" "@ + "Allow Once"@).is_prefix_of(button_line(0, selected, room)[1].text)
            &&& (" "@ + "Allow Session"@).is_prefix_of(button_line(1, selected, room)[1].text)
            &&& (" "@ + "Deny"@).is_prefix_of(button_line(2, selected, room)[1].text)
        }),
{
    let room = if width > 2 {
        width - 2
    } else {
        0
    };
    lemma_prefix(" "@ + "Allow Once"@, button_line(0, selected, room)[1].text);
    lemma_prefix(" "@ + "Allow Session"@, button_line(1, selected, room)[1].text);
    lemma_prefix(" "@ + "Deny"@, button_line(2, selected, room)[1].text);
}

proof fn lemma_prefix(a: Seq<char>, s: Seq<char>)
    requires
        a.len() <= s.len(),
        forall|i: int| 0 <= i < a.len() ==> #[trigger] a[i] == s[i],
    ensures
        a.is_prefix_of(s),
{
    assert(s.subrange(0, a.len() as int) =~= a);
}

/// A prompt shows in its second line who wants to do what, then the keys, and in its last lines the
/// buttons: allow once, allow for the session and deny, with the selected one marked. Side by side
/// they stand in one line, else each in one of its own.
pub proof fn law_what_a_prompt_shows(
    source: Seq<char>,
    action: Seq<char>,
    keys: Option<Seq<Seq<char>>>,
    selected: usize,
    width: int,
    height: int,
)
    ensures
        ({
            let lines = collapsed_lines(source, action, keys, selected, width, height, true);
            let n = lines.len() as int;
            &&& n >= 4
            &&& lines[0].len() == 0
            &&& lines[1] == seq![
                SpanView { text: source, style: SpanStyle::Source },
                plain(" wants to "@),
                SpanView { text: action, style: SpanStyle::Action },
            ]
            &&& lines[n - 2].len() == 0
            &&& lines[n - 1].len() == 5
            &&& forall|i: int|
                0 <= i < 3 ==> (#[trigger] lines[n - 1][2 * i]).style == (SpanStyle::Button {
                    index: i as usize,
                    selected: i == selected,
                })
            &&& lines[n - 1][0].text == " "@ + "Allow Once"@ + " "@
            &&& lines[n - 1][2].text == " "@ + "Allow Session"@ + " "@
            &&& lines[n - 1][4].text == " "@ + "Deny"@ + " "@
            &&& keys is None ==> n == 4
            &&& keys is Some ==> lines.subrange(3, n - 2) == preview(
                join(keys->Some_0, " "@),
                if width > 2 {
                    width - 2
                } else {
                    0
                },
                if height > 5 {
                    height - 5
                } else {
                    0
                },
            ).map_values(|line: Seq<char>| highlighted(line))
        }),
        ({
            let lines = collapsed_lines(source, action, keys, selected, width, height, false);
            let n = lines.len() as int;
            &&& n >= 6
            &&& lines[1] == seq![
                plain(" "@),
                SpanView { text: source, style: SpanStyle::Source },
                plain(" wants to "@),
                SpanView { text: action, style: SpanStyle::Action },
            ]
            &&& forall|i: int|
                0 <= i < 3 ==> (#[trigger] lines[n - 3 + i]).len() == 2 && lines[n - 3 + i][1].style
                    == (SpanStyle::Button { index: i as usize, selected: i == selected })
            &&& (" "@ + "Allow Once"@).is_prefix_of(lines[n - 3][1].text)
            &&& (" "@ + "Allow Session"@).is_prefix_of(lines[n - 2][1].text)
            &&& (" "@ + "Deny"@).is_prefix_of(lines[n - 1][1].text)
        }),
{
    lemma_labels(selected, width);
    let empty = Seq::<SpanView>::empty();
    let lines = collapsed_lines(source, action, keys, selected, width, height, true);
    let n = lines.len() as int;
    let who = seq![
        SpanView { text: source, style: SpanStyle::Source },
        plain(" wants to "@),
        SpanView { text: action, style: SpanStyle::Action },
    ];
    assert(empty + who =~= who);
    assert(seq![plain(" "@)] + who =~= seq![
        plain(" "@),
        SpanView { text: source, style: SpanStyle::Source },
        plain(" wants to "@),
        SpanView { text: action, style: SpanStyle::Action },
    ]);
    if keys is Some {
        let shown = preview(
            join(keys->Some_0, " "@),
            if width > 2 {
                width - 2
            } else {
                0
            },
            if height > 5 {
                height - 5
            } else {
                0
            },
        ).map_values(|line: Seq<char>| highlighted(line));
        assert forall|i: int| 0 <= i < shown.len() implies #[trigger] shown[i] == lines[3 + i] by {
            assert(empty + shown[i] =~= shown[i]);
        }
        assert(lines.subrange(3, n - 2) =~= shown);
    }
}

/// Of the expanded keys as many lines are shown as there is room for, from the one that it is
/// scrolled to; never past the last one.
pub proof fn law_the_lines_that_are_shown(
    lines: Seq<Seq<char>>,
    height: int,
    scroll_offset: int,
)
    requires
        0 < height,
        0 <= scroll_offset,
    ensures
        ({
            let shown = visible_lines(lines, height, scroll_offset);
            let n = lines.len();
            &&& n <= height ==> shown == lines
            &&& n > height ==> {
                let first = if scroll_offset <= n - height {
                    scroll_offset
                } else {
                    n - height
                };
                &&& shown.len() == height
                &&& forall|i: int| 0 <= i < height ==> #[trigger] shown[i] == lines[first + i]
            }
        }),
{
    if lines.len() <= height {
        assert(visible_lines(lines, height, scroll_offset) =~= lines);
    }
}

/// The mark in the scroll bar is there only where not all lines are shown; it is at the top when
/// nothing is scrolled, at the bottom when all is, and always inside.
pub proof fn law_the_scroll_bar(total: int, height: int, scroll_offset: int)
    requires
        0 < height,
        0 <= total,
        0 <= scroll_offset,
    ensures
        (total <= height) == (thumb_of(total, height, scroll_offset) is None),
        thumb_of(total, height, scroll_offset) matches Some((at, len)) ==> {
            &&& 1 <= len <= height
            &&& scroll_offset == 0 ==> at == 0
            &&& scroll_offset >= total - height ==> at + len == height
            &&& 0 <= at
            &&& at + len <= height
        },
{
    if total > height {
        let share = height * height / total;
        assert(0 <= share < height) by (nonlinear_arith)
            requires
                share == height * height / total,
                0 < height < total,
        ;
        let len = if share < 1 {
            1
        } else {
            share
        };
        let first = first_line(total, height, scroll_offset);
        let room = height - len;
        let span = total - height;
        assert(0 <= first <= span);
        assert(0 <= first * room / span <= room) by (nonlinear_arith)
            requires
                0 <= first <= span,
                0 < span,
                0 <= room,
        ;
        assert(span * room / span == room) by (nonlinear_arith)
            requires
                0 < span,
        ;
        assert(0 * room / span == 0) by (nonlinear_arith)
            requires
                0 < span,
        ;
    }
}

// === Places ===

/// The popup is at most 52 columns wide and leaves two on each side; it stands in the middle.
pub proof fn law_where_the_popup_is(has_keys: bool, width: u16, height: u16)
    requires
        width >= 28,
        height >= 7,
    ensures
        ({
            let w = popup_width_of(width as int);
            let h = popup_height_of(has_keys, width as int, height as int);
            let r = centered(w as u16, h as u16, width, height);
            let base: int = if w >= 44 {
                6
            } else {
                8
            };
            &&& w == (if width < 56 {
                width - 4
            } else {
                52
            })
            &&& h == (if base < height - 2 {
                base
            } else {
                height - 2
            }) + if has_keys {
                3int
            } else {
                0
            }
            &&& r.width == w
            &&& r.height == h
            &&& r.x == (width - w) / 2
            &&& h <= height ==> r.y == (height - h) / 2
            &&& h > height ==> r.y == 0
        }),
{
}

/// Expanded keys can be scrolled by as many lines as do not fit.
pub proof fn law_how_far_keys_scroll(request: Request, width: u16, height: u16)
    requires
        width >= 28,
        height >= 7,
        request is Exec,
    ensures
        ({
            let text_width = popup_width_of(width as int) - 3;
            let room = popup_height_of(true, width as int, height as int) - 2;
            let n = wrapped(join(request_keys(request)->Some_0, " "@), text_width).len();
            scroll_limit(request, width as int, height as int) == if n > room {
                n - room
            } else {
                0
            }
        }),
{
}

/// Where there is no room for the prompt, the user is told to make room, or sees a red border, or
/// nothing where there is no room for that either.
pub proof fn law_where_there_is_no_room(width: u16, height: u16)
    ensures
        width < 2 || height < 2 ==> overlay_of(width, height) == BlockedOverlay::Nothing,
        width >= 14 && height >= 3 ==> overlay_of(width, height) is Resize,
        width >= 2 && height >= 2 && (width < 14 || height < 3) ==> overlay_of(width, height)
            == BlockedOverlay::Border,
{
}

/// The border has round corners and lines between them; nothing is inside.
pub proof fn law_the_border(x: u16, y: u16, width: u16, height: u16)
    requires
        x < width,
        y < height,
        width >= 2,
        height >= 2,
    ensures
        x == 0 && y == 0 ==> border_of(x, y, width, height) == Some('╭'),
        x == width - 1 && y == 0 ==> border_of(x, y, width, height) == Some('╮'),
        x == 0 && y == height - 1 ==> border_of(x, y, width, height) == Some('╰'),
        x == width - 1 && y == height - 1 ==> border_of(x, y, width, height) == Some('╯'),
        0 < x < width - 1 && (y == 0 || y == height - 1) ==> border_of(x, y, width, height) == Some(
            '─',
        ),
        0 < y < height - 1 && (x == 0 || x == width - 1) ==> border_of(x, y, width, height) == Some(
            '│',
        ),
        0 < x < width - 1 && 0 < y < height - 1 ==> border_of(x, y, width, height) is None,
{
}

} // verus!
