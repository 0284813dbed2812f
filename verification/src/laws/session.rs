//! What a session answers, and what becomes of what the user types.
use vstd::prelude::*;
use vstd::utf8::encode_utf8;
use crate::config::{Config, DefaultVisibility};
use crate::laws::text::{cells_of, cursor_of};
use crate::session::dispatch::{pause_over, prompts_without, DispatchView, PromptState};
use crate::session::terminal::{
    key_event_bytes, mouse_action, mouse_bytes, GridState, KeyEvent, MouseAction, MouseEvent, Size,
    TerminalView,
};
use crate::session::text::{new_text, HistoryView, TextView};
use crate::session::{new_session, InputEvent, SessionView};
use crate::strings::pasted;
use crate::types::{MessageView, PayloadView, ResponseView, SessionRequest};

verus! {

/// The id of a session; empty before it has one.
pub open spec fn id_of(s: SessionView) -> Seq<char> {
    if s.id is Some {
        s.id->Some_0
    } else {
        Seq::empty()
    }
}

pub open spec fn ok(data: PayloadView) -> ResponseView {
    ResponseView { ok: true, data: Some(data), error: None, code: None }
}

/// Whether a request is answered at once: its one answer is sent, and besides the fields that are
/// given nothing changes but that the screen is drawn again.
pub open spec fn answers(
    s: SessionView,
    req: SessionRequest,
    now: u64,
    data: PayloadView,
    tag: Option<Seq<char>>,
    visible: bool,
    text: TextView,
) -> bool {
    let after = s.route(req, now);
    &&& after == (SessionView {
        tag,
        visible,
        text,
        view: after.view,
        outbox: s.outbox.push(MessageView::Response { id: req.id, result: ok(data) }),
        ..s
    })
    &&& after.view == (TerminalView { dirty: after.view.dirty, ..s.view })
}

/// Show and hide set whether the session is listed, and say so.
pub proof fn law_show_and_hide(s: SessionView, req: SessionRequest, now: u64)
    requires
        s.dispatch.current_read != Some(req.id),
        req.request is Show || req.request is Hide,
    ensures
        answers(
            s,
            req,
            now,
            PayloadView::State { id: id_of(s), tag: s.tag, visible: Some(req.request is Show) },
            s.tag,
            req.request is Show,
            s.text,
        ),
{
}

/// Tagging sets the tag, deleting takes it away, and the answer is the tag as it is now.
pub proof fn law_tagging(s: SessionView, req: SessionRequest, now: u64)
    requires
        s.dispatch.current_read != Some(req.id),
        req.request is Tag,
    ensures
        ({
            let new_tag = req.request->new_tag;
            let tag = if req.request->delete {
                None
            } else if new_tag is Some {
                Some(new_tag->Some_0@)
            } else {
                s.tag
            };
            answers(
                s,
                req,
                now,
                PayloadView::State { id: id_of(s), tag, visible: None },
                tag,
                s.visible,
                s.text,
            )
        }),
{
}

/// Clearing forgets the lines that scrolled off and leaves the screen as it is.
pub proof fn law_clearing(s: SessionView, req: SessionRequest, now: u64)
    requires
        s.dispatch.current_read != Some(req.id),
        req.request is Clear,
    ensures
        answers(
            s,
            req,
            now,
            PayloadView::State { id: id_of(s), tag: None, visible: None },
            s.tag,
            s.visible,
            TextView {
                history: HistoryView { lines: Seq::empty(), ..s.text.history },
                ..s.text
            },
        ),
{
}

/// A peek gives the text, the size and the cursor of the screen that is shown, and whether that is
/// the alternate one. Reading the history gives the lines that are asked for. Neither changes
/// anything.
pub proof fn law_reads_change_nothing(s: SessionView, req: SessionRequest, now: u64)
    requires
        s.dispatch.current_read is None,
        s.dispatch.read_queue.len() == 0,
    ensures
        req.request is Peek ==> answers(
            s,
            req,
            now,
            PayloadView::Peek {
                content: s.text.screen_text(),
                in_alt_screen: s.text.screen.in_alt,
                rows: s.text.screen.rows,
                cols: s.text.screen.cols,
                cursor_row: cursor_of(s.text).0,
                cursor_col: cursor_of(s.text).1,
            },
            s.tag,
            s.visible,
            s.text,
        ),
        req.request is History ==> answers(
            s,
            req,
            now,
            PayloadView::Text {
                content: s.text.history_text(req.request->count, req.request->offset),
            },
            s.tag,
            s.visible,
            s.text,
        ),
{
    let d = s.dispatch;
    let t = s.with_dispatch(DispatchView { current_read: Some(req.id), ..d });
    let a = t.answer(req);
    let b = a.with_dispatch(DispatchView { current_read: None, ..a.dispatch });
    if req.request is Peek || req.request is History {
        assert(b.dispatch =~= s.dispatch);
        assert(s.route(req, now) == b.next_read());
        assert(b.next_read() == b);
    }
}

// === What the user does ===

/// Bytes for the child go behind all others; there are no empty pieces.
pub open spec fn queued(s: SessionView, bytes: Seq<u8>) -> Seq<Seq<u8>> {
    if bytes.len() == 0 {
        s.pty
    } else {
        s.pty.push(bytes)
    }
}

/// The view, to be drawn again where a selection goes or the screen scrolls.
pub open spec fn redrawn(s: SessionView, grid: GridState) -> TerminalView {
    if grid.has_selection || grid.display_offset > 0 {
        TerminalView { dirty: true, ..s.view }
    } else {
        s.view
    }
}

/// A key that is pressed sends its bytes to the child, takes a selection away and scrolls to the
/// bottom. A key that is released does nothing.
pub proof fn law_keys_go_to_the_child(s: SessionView, key: KeyEvent, grid: GridState, now: u64)
    requires
        s.dispatch.prompt_state is Idle,
    ensures
        ({
            let (after, change) = s.input(InputEvent::Key(key), grid, now);
            let bytes = key_event_bytes(key, grid.mode.app_cursor);
            if !key.press {
                &&& after == s
                &&& !change.clear_selection
                &&& !change.scroll_to_bottom
                &&& change.mouse == MouseAction::Nothing
            } else {
                &&& after.pty == (if bytes is Some {
                    queued(s, bytes->Some_0)
                } else {
                    s.pty
                })
                &&& after == (SessionView { pty: after.pty, view: after.view, ..s })
                &&& after.view == redrawn(s, grid)
                &&& change.clear_selection == grid.has_selection
                &&& change.scroll_to_bottom == (grid.display_offset > 0)
                &&& change.mouse == MouseAction::Nothing
            }
        }),
{
}

/// A paste goes to the child with its newlines as Enter, between `ESC [ 200 ~` and `ESC [ 201 ~`
/// if the child asked for that.
pub proof fn law_pastes_go_to_the_child(s: SessionView, text: String, grid: GridState, now: u64)
    requires
        s.dispatch.prompt_state is Idle,
    ensures
        ({
            let (after, change) = s.input(InputEvent::Paste(text), grid, now);
            let body = encode_utf8(pasted(text@));
            let bytes = if grid.mode.bracketed_paste {
                seq![0x1bu8, 0x5b, 0x32, 0x30, 0x30, 0x7e] + body + seq![
                    0x1bu8,
                    0x5b,
                    0x32,
                    0x30,
                    0x31,
                    0x7e,
                ]
            } else {
                body
            };
            &&& after.pty == queued(s, bytes)
            &&& after == (SessionView { pty: after.pty, view: after.view, ..s })
            &&& after.view == redrawn(s, grid)
            &&& change.clear_selection == grid.has_selection
            &&& change.scroll_to_bottom == (grid.display_offset > 0)
        }),
{
}

/// The child is told of the focus, with `ESC [ I` and `ESC [ O`, if it asked for that, also while
/// a prompt is shown.
pub proof fn law_focus_is_reported(s: SessionView, grid: GridState, now: u64)
    ensures
        s.input(InputEvent::FocusGained, grid, now).0 == (SessionView {
            pty: if grid.mode.focus_in_out {
                s.pty.push(seq![0x1bu8, 0x5b, 0x49])
            } else {
                s.pty
            },
            ..s
        }),
        s.input(InputEvent::FocusLost, grid, now).0 == (SessionView {
            pty: if grid.mode.focus_in_out {
                s.pty.push(seq![0x1bu8, 0x5b, 0x4f])
            } else {
                s.pty
            },
            ..s
        }),
{
}

// === The daemon ===

/// A session takes the id that it is offered if it has none, and then says what its state is.
pub proof fn law_authentication(s: SessionView, offered: Seq<char>, now: u64)
    ensures
        ({
            let after = s.authenticate(offered, now);
            &&& after.authenticated
            &&& after.id == (if id_of(s).len() == 0 {
                Some(offered)
            } else {
                s.id
            })
            &&& after.tag == s.tag
            &&& after.visible == s.visible
            &&& after.pty == s.pty
            &&& after.outbox == s.outbox.push(
                MessageView::Status { cwd: s.cwd, in_alt_screen: s.text.screen.in_alt },
            )
            &&& after.dispatch.last_status_push == now
        }),
{
}

/// The state is sent at most every two seconds, and only to a daemon that the session is known to.
pub proof fn law_the_state_is_sent_now_and_then(s: SessionView, now: u64)
    ensures
        s.status_due(now) == (s.authenticated && now >= s.dispatch.last_status_push
            + 2_000_000_000),
        !s.authenticated ==> s.push_status(now) == s,
        s.authenticated ==> s.push_status(now).outbox == s.outbox.push(
            MessageView::Status { cwd: s.cwd, in_alt_screen: s.text.screen.in_alt },
        ) && s.push_status(now).dispatch.last_status_push == now,
{
}

/// When the daemon is lost, all that waits or is in progress is dropped; what was granted stays,
/// and so do the id, the tag, the screen and what is to be written to the child.
pub proof fn law_a_lost_daemon(s: SessionView)
    ensures
        ({
            let after = s.disconnect();
            let d = after.dispatch;
            &&& !after.authenticated
            &&& !after.registered
            &&& d.prompt_queue.len() == 0
            &&& d.read_queue.len() == 0
            &&& d.exec_queue.len() == 0
            &&& d.current_read is None
            &&& d.current_exec is None
            &&& d.pending_exec is None
            &&& d.prompt_state is Idle
            &&& d.permissions == s.dispatch.permissions
            &&& d.default_permission == s.dispatch.default_permission
            &&& after.id == s.id
            &&& after.tag == s.tag
            &&& after.visible == s.visible
            &&& after.text == s.text
            &&& after.pty == s.pty
        }),
{
}

/// Cancelling the request that the user is asked about takes the question away; the next one is
/// shown, and nothing is answered or sent.
pub proof fn law_a_cancelled_question(s: SessionView, id: u64)
    requires
        s.dispatch.prompt_state matches PromptState::Pending { request, .. } && request.id == id,
    ensures
        ({
            let queue = prompts_without(s.dispatch.prompt_queue, id);
            let after = s.cancel_prompts(id);
            &&& after.outbox == s.outbox
            &&& after.pty == s.pty
            &&& after.dispatch.exec_queue == s.dispatch.exec_queue
            &&& after.dispatch.read_queue == s.dispatch.read_queue
            &&& after.dispatch.pending_exec == s.dispatch.pending_exec
            &&& after.dispatch.permissions == s.dispatch.permissions
            &&& queue.len() == 0 ==> after.dispatch.prompt_state is Idle
                && after.dispatch.prompt_queue == queue
            &&& queue.len() > 0 ==> after.dispatch.prompt_queue == queue.skip(1)
                && after.dispatch.prompt_state == (PromptState::Pending {
                request: queue[0].0,
                permission_type: queue[0].1,
                selected: 0,
                expanded: false,
                scroll_offset: 0,
            })
        }),
{
}

/// A new session has no id, has granted nothing to anyone, and runs, asks and sends nothing. It is
/// listed and asks as the configuration says.
pub proof fn law_a_new_session(
    config: Config,
    tag: Option<Seq<char>>,
    size: Size,
    cwd: Option<Seq<char>>,
    now: u64,
)
    ensures
        ({
            let s = new_session(config, tag, size, cwd, now);
            let d = s.dispatch;
            &&& s.id is None
            &&& s.tag == tag
            &&& s.visible == (config.default_visibility == DefaultVisibility::Visible)
            &&& s.pty.len() == 0
            &&& s.outbox.len() == 0
            &&& !s.authenticated
            &&& s.cwd == cwd
            &&& s.text.screen.rows == size.rows
            &&& s.text.screen.cols == size.cols
            &&& s.text.history.lines.len() == 0
            &&& s.text.history.max_lines == config.history_size
            &&& d.default_permission == config.default_permission
            &&& d.send_delay_ms == config.send_delay_ms
            &&& d.idle_threshold_ms == config.idle_threshold_ms
            &&& d.prompt_state is Idle
            &&& d.prompt_queue.len() == 0
            &&& d.exec_queue.len() == 0
            &&& d.current_exec is None
            &&& forall|source: Seq<char>|
                !d.permissions.read.contains(source) && !#[trigger] d.permissions.write.contains(
                    source,
                )
        }),
{
}

/// A new screen is blank, with the cursor in its first cell, and all of its rows scroll.
pub proof fn law_a_new_screen(rows: int, cols: int, history_size: int)
    requires
        0 < rows,
        0 < cols,
    ensures
        ({
            let t = new_text(rows, cols, history_size);
            &&& !t.screen.in_alt
            &&& cells_of(t).len() == rows
            &&& forall|r: int| 0 <= r < rows ==> (#[trigger] cells_of(t)[r]).len() == cols
            &&& forall|r: int, c: int|
                0 <= r < rows && 0 <= c < cols ==> #[trigger] cells_of(t)[r][c] == ' '
            &&& cursor_of(t) == (0int, 0int)
            &&& t.screen.top == 0
            &&& t.screen.bottom == rows - 1
            &&& t.screen.saved_cursor is None
        }),
{
}

/// A session of another size shows its screen in that size.
pub proof fn law_another_size(s: SessionView, size: Size)
    ensures
        ({
            let after = s.resize(size);
            &&& after.view.size == size
            &&& after.view.dirty
            &&& after.view.selection == s.view.selection
            &&& after.text.screen == s.text.screen.resize(size.rows as int, size.cols as int)
            &&& after.text.history == s.text.history
            &&& after == (SessionView { view: after.view, text: after.text, ..s })
        }),
{
}

/// As time passes, an exec that waits for its pause goes on once the pause is over, and nothing
/// else happens.
pub proof fn law_time_passes(s: SessionView, now: u64)
    ensures
        s.dispatch.pending_exec is None ==> s.tick(now) == s,
        s.dispatch.pending_exec matches Some(p) ==> {
            let free = SessionView {
                dispatch: DispatchView { pending_exec: None, ..s.dispatch },
                ..s
            };
            &&& p.pause is None ==> s.tick(now) == free.run_exec(p.request_id, p.rest, now)
            &&& p.pause matches Some(pause) ==> s.tick(now) == if pause_over(
                pause,
                now,
                s.dispatch.last_pty_activity,
            ) {
                free.run_exec(p.request_id, p.rest, now)
            } else {
                s
            }
        },
{
}

/// What the mouse does goes to the child if it asked for it, and else to the selection and the
/// view.
pub proof fn law_the_mouse(s: SessionView, mouse: MouseEvent, grid: GridState, now: u64)
    requires
        s.dispatch.prompt_state is Idle,
    ensures
        ({
            let (after, change) = s.input(InputEvent::Mouse(mouse), grid, now);
            &&& !change.clear_selection
            &&& !change.scroll_to_bottom
            &&& match mouse_bytes(mouse, grid.mode) {
                Some(bytes) => after == (SessionView { pty: queued(s, bytes), ..s })
                    && change.mouse == MouseAction::Nothing,
                None => {
                    let (view, action) = mouse_action(s.view, mouse, grid, now);
                    after == (SessionView { view, ..s }) && change.mouse == action
                },
            }
        }),
{
}

} // verus!
