use tv::config::{Config, DefaultPermission, DefaultVisibility};
use tv::keys::KeyGroup;
use tv::session::dispatch::{
    classify_request, count_stdin, insert_exec_delays, permission_for_category, prepare_exec,
    PendingExec, PendingPause, Permissions, PermissionType, PromptState, RequestCategory,
};
use tv::session::terminal::{
    GridState, KeyCode, KeyEvent, Modifiers, MouseAction, MouseButton, MouseEvent, MouseEventKind,
    Size, TermMode,
};
use tv::session::{FlushStep, InputEvent, PtyWrite, Session, TerminalEvent};
use tv::types::{
    AuthRequest, AuthResponse, DaemonMessage, ErrorCode, Payload, Request, Response,
    SessionMessage, SessionRequest,
};

const MS: u64 = 1_000_000;
const PLAIN: Modifiers = Modifiers { shift: false, ctrl: false, alt: false };

fn config(permission: DefaultPermission) -> Config {
    Config { default_permission: permission, ..Config::default() }
}

fn session(permission: DefaultPermission) -> Session {
    let size = Size { cols: 80, rows: 24 };
    let tag = Some("work".to_string());
    let mut s = Session::new(&config(permission), tag, size, Some("/home".to_string()), 0);
    s.connected();
    s.authenticate(AuthRequest { id: "3f2a".to_string() }, 7, 0);
    s.take_messages();
    s
}

fn allowed() -> Session {
    session(DefaultPermission::Allow)
}

fn grid() -> GridState {
    let mode = TermMode {
        mouse_report_click: false,
        mouse_drag: false,
        mouse_motion: false,
        sgr_mouse: false,
        app_cursor: false,
        bracketed_paste: false,
        focus_in_out: false,
    };
    GridState { has_selection: false, selection_is_empty: false, display_offset: 0, mode }
}

fn request(id: u64, request: Request) -> SessionRequest {
    SessionRequest { id, source_id: "aaaa".to_string(), source_tag: None, request }
}

fn exec(keys: &[&str], stdin: Option<&str>) -> Request {
    Request::Exec {
        selector: None,
        keys: keys.iter().map(|k| k.to_string()).collect(),
        stdin: stdin.map(String::from),
    }
}

fn peek() -> Request {
    Request::Peek { selector: None }
}

fn key(code: KeyCode) -> InputEvent {
    InputEvent::Key(KeyEvent { code, modifiers: PLAIN, press: true })
}

fn press(s: &mut Session, code: KeyCode, now: u64) {
    s.handle_event(&key(code), &grid(), now);
}

fn written(s: &mut Session) -> Vec<u8> {
    let mut out = Vec::new();
    while let Some(bytes) = s.next_pty_write() {
        let n = bytes.len();
        out.extend_from_slice(bytes);
        assert_eq!(s.pty_written(PtyWrite::Wrote(n)), FlushStep::Continue);
    }
    out
}

fn answers(s: &mut Session) -> Vec<(u64, Response)> {
    s.take_messages()
        .into_iter()
        .filter_map(|m| match m {
            SessionMessage::Response { id, result } => Some((id, result)),
            SessionMessage::Status { .. } => None,
        })
        .collect()
}

fn answered(s: &mut Session) -> Vec<(u64, bool)> {
    answers(s).iter().map(|(id, r)| (*id, r.ok)).collect()
}

fn refusal(s: &mut Session) -> (u64, ErrorCode, String) {
    let mut all = answers(s);
    assert_eq!(all.len(), 1);
    let (id, r) = all.pop().unwrap();
    assert!(!r.ok);
    (id, r.code.unwrap(), r.error.unwrap())
}

#[test]
fn categories_and_permissions() {
    assert_eq!(classify_request(&peek()), RequestCategory::Read);
    assert_eq!(classify_request(&exec(&[], None)), RequestCategory::Exec);
    assert_eq!(classify_request(&Request::Show { selector: None }), RequestCategory::Instant);
    assert_eq!(permission_for_category(RequestCategory::Instant), None);
    assert_eq!(permission_for_category(RequestCategory::Read), Some(PermissionType::Read));
    assert_eq!(permission_for_category(RequestCategory::Exec), Some(PermissionType::Write));
    let mut p = Permissions::new();
    assert!(!p.is_allowed("a", PermissionType::Read));
    p.allow("a".to_string(), PermissionType::Read);
    assert!(p.is_allowed("a", PermissionType::Read));
    assert!(!p.is_allowed("a", PermissionType::Write));
    assert!(!p.is_allowed("b", PermissionType::Read));
    p.allow("a".to_string(), PermissionType::Write);
    assert!(p.is_allowed("a", PermissionType::Write));
    assert!(!PromptState::Idle.is_pending());
}

#[test]
fn delays_stand_between_bytes() {
    let b = |s: &[u8]| KeyGroup::Bytes(s.to_vec());
    let groups = vec![b(b"a"), b(b"b"), KeyGroup::Sleep(9), b(b"c")];
    assert_eq!(
        insert_exec_delays(groups, 50),
        [b(b"a"), KeyGroup::Sleep(50), b(b"b"), KeyGroup::Sleep(9), b(b"c")]
    );
    let groups = vec![b(b"a"), b(b"b")];
    assert_eq!(insert_exec_delays(groups, 0), [b(b"a"), b(b"b")]);
}

#[test]
fn execs_are_prepared() {
    let keys = ["cat".to_string(), "{stdin}".to_string(), "{cr}".to_string()];
    assert_eq!(
        prepare_exec(&keys, &Some("x\ny".to_string()), 0).unwrap(),
        [
            KeyGroup::Bytes(b"cat".to_vec()),
            KeyGroup::Bytes(b"x\ry".to_vec()),
            KeyGroup::Bytes(b"\r".to_vec()),
        ]
    );
    assert_eq!(
        prepare_exec(&keys, &None, 0).unwrap_err(),
        "{stdin} used but no stdin data provided"
    );
    assert_eq!(prepare_exec(&["{".to_string()], &None, 0).unwrap_err(), "unclosed key expression: {");
    assert_eq!(count_stdin(&[KeyGroup::Stdin, KeyGroup::Sleep(1), KeyGroup::Stdin]), 2);
    let twice = ["{stdin}{stdin}".to_string()];
    assert_eq!(
        prepare_exec(&twice, &Some("a".to_string()), 0).unwrap_err(),
        "{stdin} can only appear once"
    );
    assert_eq!(
        prepare_exec(&twice, &None, 0).unwrap_err(),
        "{stdin} used but no stdin data provided"
    );
}

#[test]
fn running_an_exec_loses_no_bytes() {
    let groups = vec![
        KeyGroup::Bytes(b"a".to_vec()),
        KeyGroup::Bytes(b"b".to_vec()),
        KeyGroup::Sleep(10),
        KeyGroup::Bytes(b"c".to_vec()),
        KeyGroup::Wait { timeout: 20, idle_threshold: None },
    ];
    let mut p = PendingExec::new(4, groups);
    assert_eq!(p.request_id(), 4);
    assert_eq!(p.advance(0, 5), b"ab");
    assert!(!p.is_done());
    assert!(p.is_paused(9 * MS, 0));
    assert!(!p.is_paused(10 * MS, 10 * MS));
    assert_eq!(p.advance(10 * MS, 5), b"c");
    assert!(p.is_paused(12 * MS, 10 * MS));
    assert!(!p.is_paused(15 * MS, 10 * MS));
    assert!(!p.is_paused(30 * MS, 29 * MS));
}

#[test]
fn a_wait_ends_when_output_settles() {
    let wait = PendingPause::Wait { deadline: 100 * MS as u128, idle_threshold: 5 };
    assert!(!wait.is_over(10 * MS, 6 * MS));
    assert!(wait.is_over(11 * MS, 6 * MS));
    assert!(wait.is_over(100 * MS, 99 * MS));
    assert!(!wait.is_over(10 * MS, 20 * MS));
    let sleep = PendingPause::Sleep { resume_at: 50 };
    assert!(!sleep.is_over(49, 0));
    assert!(sleep.is_over(50, 50));
}

#[test]
fn a_new_session() {
    let size = Size { cols: 80, rows: 24 };
    let hidden = Config { default_visibility: DefaultVisibility::Hidden, ..Config::default() };
    let mut s = Session::new(&hidden, Some("t".to_string()), size, Some("/x".to_string()), 0);
    assert!(!s.is_registered() && !s.is_authenticated() && s.is_dirty());
    assert_eq!(s.size(), size);
    s.push_status(1);
    assert!(s.take_messages().is_empty());
    s.connected();
    assert!(s.is_registered());
    let r = s.authenticate(AuthRequest { id: "3f2a".to_string() }, 7, 5);
    assert!(matches!(
        r,
        AuthResponse::Session { id, pid: 7, tag: Some(t), visible: false }
            if id == "3f2a" && t == "t"
    ));
    assert!(s.is_authenticated());
    assert!(matches!(
        &s.take_messages()[..],
        [SessionMessage::Status { update }]
            if update.cwd.as_deref() == Some("/x") && !update.in_alt_screen
    ));
}

#[test]
fn a_session_keeps_its_id() {
    let mut s = allowed();
    s.disconnected();
    assert!(!s.is_registered() && !s.is_authenticated());
    s.connected();
    let r = s.authenticate(AuthRequest { id: "ffff".to_string() }, 7, 0);
    assert!(matches!(r, AuthResponse::Session { id, .. } if id == "3f2a"));
}

#[test]
fn status_is_pushed_every_two_seconds() {
    let mut s = allowed();
    assert!(!s.status_due(1_999 * MS));
    assert!(s.status_due(2_000 * MS));
    s.update_cwd(None);
    s.pty_output(b"\x1b[?1049h", 1);
    s.push_status(2_000 * MS);
    assert!(matches!(
        &s.take_messages()[..],
        [SessionMessage::Status { update }]
            if update.cwd.as_deref() == Some("/home") && update.in_alt_screen
    ));
    assert!(!s.status_due(3_999 * MS));
    s.update_cwd(Some("/tmp".to_string()));
    s.push_status(4_000 * MS);
    assert!(matches!(
        &s.take_messages()[..],
        [SessionMessage::Status { update }] if update.cwd.as_deref() == Some("/tmp")
    ));
    s.disconnected();
    assert!(!s.status_due(u64::MAX));
}

#[test]
fn pty_writes_stay_in_order() {
    let mut s = allowed();
    assert!(!s.has_pending_pty_writes());
    s.queue_pty_write(b"");
    assert!(!s.has_pending_pty_writes());
    s.queue_pty_write(b"hello");
    s.queue_pty_write(b"world");
    assert_eq!(s.pty_written(PtyWrite::Wrote(2)), FlushStep::Continue);
    assert_eq!(s.next_pty_write(), Some(&b"llo"[..]));
    assert_eq!(s.pty_written(PtyWrite::WouldBlock), FlushStep::Stop);
    assert_eq!(s.pty_written(PtyWrite::Interrupted), FlushStep::Continue);
    assert_eq!(s.pty_written(PtyWrite::Wrote(0)), FlushStep::Stop);
    assert_eq!(s.pty_written(PtyWrite::Failed), FlushStep::Fail);
    assert_eq!(written(&mut s), b"lloworld");
    assert!(!s.has_pending_pty_writes());
}

#[test]
fn terminal_events() {
    let mut s = allowed();
    let title = s.handle_terminal_event(TerminalEvent::Title("é".to_string()));
    assert_eq!(title.unwrap(), "\x1b]2;é\x1b\\".as_bytes());
    let reset = s.handle_terminal_event(TerminalEvent::ResetTitle);
    assert_eq!(reset.unwrap(), b"\x1b]2;\x1b\\");
    assert_eq!(s.handle_terminal_event(TerminalEvent::Bell).unwrap(), b"\x07");
    assert_eq!(s.handle_terminal_event(TerminalEvent::PtyWrite(b"r".to_vec())), None);
    assert_eq!(written(&mut s), b"r");
}

#[test]
fn instant_requests() {
    let mut s = session(DefaultPermission::Deny);
    s.dispatch_request(request(1, Request::Hide { selector: None }), 0);
    s.dispatch_request(request(2, Request::Show { selector: None }), 0);
    let set = Request::Tag { selector: None, new_tag: Some("n".to_string()), delete: false };
    s.dispatch_request(request(3, set), 0);
    let delete = Request::Tag { selector: None, new_tag: None, delete: true };
    s.dispatch_request(request(4, delete), 0);
    let states: Vec<(u64, String, Option<String>, Option<bool>)> = answers(&mut s)
        .into_iter()
        .map(|(id, r)| match r.data {
            Some(Payload::State(st)) => (id, st.id, st.tag, st.visible),
            other => panic!("{:?}", other),
        })
        .collect();
    assert_eq!(states[0].3, Some(false));
    assert_eq!(states[1].3, Some(true));
    assert_eq!(states[2].2.as_deref(), Some("n"));
    assert_eq!(states[3].2, None);
    assert!(states.iter().all(|st| st.1 == "3f2a"));
}

#[test]
fn reads_are_answered_at_once() {
    let mut s = allowed();
    s.pty_output(b"hello\r\nworld", 1);
    s.dispatch_request(request(1, peek()), 2);
    let history = Request::History { selector: None, count: Some(1), offset: Some(1) };
    s.dispatch_request(request(2, history), 2);
    let all = answers(&mut s);
    match &all[0] {
        (1, Response { data: Some(Payload::Peek(p)), .. }) => {
            assert_eq!(p.content, "hello\nworld");
            assert_eq!((p.rows, p.cols, p.cursor_row, p.cursor_col), (24, 80, 1, 5));
            assert!(!p.in_alt_screen);
        }
        other => panic!("{:?}", other),
    }
    assert!(matches!(
        &all[1],
        (2, Response { data: Some(Payload::Text(t)), .. }) if t.content == "hello"
    ));
    s.dispatch_request(request(3, Request::Clear { selector: None }), 3);
    assert_eq!(answered(&mut s), [(3, true)]);
}

#[test]
fn output_needs_cells() {
    assert!(allowed().pty_output(b"x", 1));
    let size = Size { cols: 0, rows: 24 };
    let mut s = Session::new(&config(DefaultPermission::Allow), None, size, None, 0);
    assert!(s.pty_output(b"\x1b[2;1H\r\n", 1));
    assert!(!s.pty_output(b"x", 2));
}

#[test]
fn refused_by_policy() {
    let mut s = session(DefaultPermission::Deny);
    s.dispatch_request(request(1, peek()), 0);
    assert_eq!(
        refusal(&mut s),
        (1, ErrorCode::PermissionDenied, "denied by policy".to_string())
    );
    s.handle_message(DaemonMessage::Request(request(2, exec(&["ls"], None))), 0);
    assert_eq!(refusal(&mut s).0, 2);
    assert!(written(&mut s).is_empty());
}

#[test]
fn unexpected_requests() {
    let mut s = allowed();
    s.dispatch_request(request(1, Request::Stop), 0);
    assert_eq!(refusal(&mut s), (1, ErrorCode::Internal, "unexpected request".to_string()));
}

#[test]
fn execs_run_with_pauses() {
    let mut s = allowed();
    s.dispatch_request(request(1, exec(&["ls", "{cr}", "{wait:5s:100ms}"], None)), 0);
    assert_eq!(written(&mut s), b"ls");
    s.tick_pending_exec(49 * MS);
    assert!(written(&mut s).is_empty());
    s.tick_pending_exec(50 * MS);
    assert_eq!(written(&mut s), b"\r");
    assert!(answered(&mut s).is_empty());
    s.pty_output(b"out", 60 * MS);
    s.tick_pending_exec(159 * MS);
    assert!(answered(&mut s).is_empty());
    s.tick_pending_exec(160 * MS);
    let all = answers(&mut s);
    assert!(matches!(
        &all[..],
        [(1, Response { ok: true, data: Some(Payload::Exec(e)), .. })] if e.id == "3f2a"
    ));
}

#[test]
fn execs_wait_for_each_other() {
    let mut s = allowed();
    s.dispatch_request(request(1, exec(&["a", "{sleep:1s}", "b"], None)), 0);
    s.dispatch_request(request(2, exec(&["c"], None)), 0);
    s.dispatch_request(request(3, exec(&[], None)), 0);
    assert_eq!(written(&mut s), b"a");
    s.tick_pending_exec(1_000 * MS);
    assert_eq!(written(&mut s), b"bc");
    assert_eq!(answered(&mut s), [(1, true), (2, true), (3, true)]);
}

#[test]
fn bad_execs_are_answered() {
    let mut s = allowed();
    s.dispatch_request(request(1, exec(&["{"], None)), 0);
    assert_eq!(
        refusal(&mut s),
        (1, ErrorCode::Internal, "unclosed key expression: {".to_string())
    );
    s.dispatch_request(request(2, exec(&["{stdin}"], None)), 0);
    assert_eq!(
        refusal(&mut s),
        (2, ErrorCode::Internal, "{stdin} used but no stdin data provided".to_string())
    );
}

#[test]
fn nothing_happens_without_permission() {
    let mut s = session(DefaultPermission::Prompt);
    s.mark_drawn();
    s.dispatch_request(request(1, exec(&["rm", "{cr}"], None)), 0);
    assert!(s.is_prompting() && s.is_dirty());
    assert!(written(&mut s).is_empty());
    assert!(s.take_messages().is_empty());
    {
        let info = s.prompt_info().unwrap();
        assert_eq!(info.source_id, "aaaa");
        assert_eq!(info.permission_type, PermissionType::Write);
        assert!(matches!(info.request, Request::Exec { .. }));
        assert_eq!((info.selected, info.expanded, info.scroll_offset), (0, false, 0));
    }
    press(&mut s, KeyCode::Esc, 0);
    assert!(!s.is_prompting());
    assert_eq!(
        refusal(&mut s),
        (1, ErrorCode::PermissionDenied, "denied by user".to_string())
    );
    assert!(written(&mut s).is_empty());
}

#[test]
fn allowed_once_is_asked_again() {
    let mut s = session(DefaultPermission::Prompt);
    s.dispatch_request(request(1, peek()), 0);
    press(&mut s, KeyCode::Enter, 0);
    assert_eq!(answered(&mut s), [(1, true)]);
    s.dispatch_request(request(2, peek()), 0);
    assert!(s.is_prompting());
}

#[test]
fn allowed_for_the_session_is_not_asked_again() {
    let mut s = session(DefaultPermission::Prompt);
    s.dispatch_request(request(1, peek()), 0);
    press(&mut s, KeyCode::Right, 0);
    assert_eq!(s.prompt_info().unwrap().selected, 1);
    press(&mut s, KeyCode::Enter, 0);
    assert_eq!(answered(&mut s), [(1, true)]);
    s.dispatch_request(request(2, peek()), 0);
    assert_eq!(answered(&mut s), [(2, true)]);
    assert!(!s.is_prompting());
    s.dispatch_request(request(3, exec(&["x"], None)), 0);
    assert!(s.is_prompting());
}

#[test]
fn prompts_are_shown_one_after_the_other() {
    let mut s = session(DefaultPermission::Prompt);
    s.dispatch_request(request(1, peek()), 0);
    s.dispatch_request(request(2, exec(&["x"], None)), 0);
    assert_eq!(s.prompt_info().unwrap().permission_type, PermissionType::Read);
    press(&mut s, KeyCode::Enter, 0);
    assert_eq!(s.prompt_info().unwrap().permission_type, PermissionType::Write);
    press(&mut s, KeyCode::Enter, 0);
    assert!(!s.is_prompting());
    assert_eq!(answered(&mut s), [(1, true), (2, true)]);
    assert_eq!(written(&mut s), b"x");
}

#[test]
fn a_second_stdin_is_put_before_the_user() {
    for (code, expected) in [
        (KeyCode::Esc, (ErrorCode::PermissionDenied, "denied by user")),
        (KeyCode::Enter, (ErrorCode::Internal, "{stdin} can only appear once")),
    ] {
        let mut s = session(DefaultPermission::Prompt);
        let twice = exec(&["{stdin}", "{stdin}"], Some("a"));
        s.handle_message(DaemonMessage::Request(request(1, twice)), 0);
        assert!(s.is_prompting());
        assert!(s.take_messages().is_empty());
        press(&mut s, code, 0);
        assert!(!s.is_prompting());
        let (id, code, error) = refusal(&mut s);
        assert_eq!((id, (code, error.as_str())), (1, expected));
        assert!(written(&mut s).is_empty());
    }
}

#[test]
fn a_prompt_keeps_input_from_the_child() {
    let mut s = session(DefaultPermission::Prompt);
    s.dispatch_request(request(1, exec(&["x"], None)), 0);
    press(&mut s, KeyCode::Char('q'), 0);
    s.handle_event(&InputEvent::Paste("p".to_string()), &grid(), 0);
    let click = MouseEvent {
        kind: MouseEventKind::Down(MouseButton::Left),
        column: 1,
        row: 1,
        modifiers: PLAIN,
    };
    let change = s.handle_event(&InputEvent::Mouse(click), &grid(), 0);
    assert_eq!(change.mouse, MouseAction::Nothing);
    assert!(written(&mut s).is_empty());
    assert!(s.is_prompting());
    press(&mut s, KeyCode::Char(' '), 0);
    assert!(s.prompt_info().unwrap().expanded);
}

#[test]
fn a_cancelled_request_is_forgotten() {
    let mut s = session(DefaultPermission::Prompt);
    s.dispatch_request(request(1, peek()), 0);
    s.dispatch_request(request(2, peek()), 0);
    s.handle_message(DaemonMessage::Cancel { id: 1 }, 0);
    assert!(s.is_prompting());
    s.handle_cancel(2, 0);
    assert!(!s.is_prompting());
    assert!(s.take_messages().is_empty());
    let mut s = allowed();
    s.dispatch_request(request(1, exec(&["a", "{sleep:1s}", "b"], None)), 0);
    s.dispatch_request(request(2, exec(&["c"], None)), 0);
    s.dispatch_request(request(3, exec(&["d"], None)), 0);
    s.handle_cancel(2, 0);
    s.handle_cancel(1, 0);
    assert_eq!(written(&mut s), b"ad");
    assert_eq!(answered(&mut s), [(3, true)]);
    s.tick_pending_exec(2_000 * MS);
    assert!(written(&mut s).is_empty());
}

#[test]
fn a_lost_daemon_clears_all_requests() {
    let mut s = session(DefaultPermission::Prompt);
    s.dispatch_request(request(1, peek()), 0);
    s.mark_drawn();
    s.disconnected();
    assert!(!s.is_prompting() && s.is_dirty());
    assert!(s.take_messages().is_empty());
}

#[test]
fn input_reaches_the_child() {
    let mut s = allowed();
    press(&mut s, KeyCode::Char('x'), 0);
    s.handle_event(&InputEvent::Paste("a\nb".to_string()), &grid(), 0);
    s.handle_event(&InputEvent::FocusGained, &grid(), 0);
    assert_eq!(written(&mut s), b"xa\rb");
    let mut g = grid();
    g.mode.focus_in_out = true;
    s.handle_event(&InputEvent::FocusGained, &g, 0);
    s.handle_event(&InputEvent::FocusLost, &g, 0);
    assert_eq!(written(&mut s), b"\x1b[I\x1b[O");
    let g = GridState { has_selection: true, display_offset: 3, ..grid() };
    let change = s.handle_event(&key(KeyCode::Enter), &g, 0);
    assert!(change.clear_selection && change.scroll_to_bottom);
    let wheel = MouseEvent {
        kind: MouseEventKind::ScrollUp,
        column: 0,
        row: 0,
        modifiers: PLAIN,
    };
    let change = s.handle_event(&InputEvent::Mouse(wheel), &grid(), 0);
    assert_eq!(change.mouse, MouseAction::Scroll(3));
}

#[test]
fn dragging_in_a_session() {
    let mut s = allowed();
    let drag = MouseEvent {
        kind: MouseEventKind::Drag(MouseButton::Left),
        column: 5,
        row: 0,
        modifiers: PLAIN,
    };
    s.handle_event(&InputEvent::Mouse(drag), &grid(), 0);
    assert_eq!(s.tick_scroll_drag(7 * MS), None);
    assert_eq!(s.tick_scroll_drag(8 * MS), Some((1, 0, 5)));
    assert!(s.dragged_to(0, 5, 0, 1).is_some());
    assert!(s.dragged_to(0, 5, 1, 1).is_none());
}

#[test]
fn resizing_a_session() {
    let mut s = allowed();
    s.pty_output(b"hello", 0);
    s.mark_drawn();
    assert!(!s.is_dirty());
    s.handle_resize(Size { cols: 3, rows: 2 });
    assert_eq!(s.size(), Size { cols: 3, rows: 2 });
    assert!(s.is_dirty());
    match s.cmd_peek() {
        Response { data: Some(Payload::Peek(p)), .. } => {
            assert_eq!((p.content.as_str(), p.rows, p.cols), ("hel", 2, 3));
        }
        other => panic!("{:?}", other),
    }
}

#[test]
fn commands_of_a_session() {
    let mut s = allowed();
    s.pty_output(b"1\r\n2", 0);
    assert!(matches!(
        s.cmd_history(None, None),
        Response { data: Some(Payload::Text(t)), .. } if t.content == "1\n2"
    ));
    assert!(s.cmd_clear().ok && s.cmd_hide().ok && s.cmd_show().ok);
    assert!(s.cmd_tag(Some("q".to_string()), false).ok);
    assert!(matches!(
        s.build_exec_response(),
        Response { data: Some(Payload::Exec(e)), .. } if e.id == "3f2a"
    ));
    let r = s.execute_request(&request(1, peek()));
    assert!(r.ok);
    s.send_response(9, r);
    assert_eq!(answered(&mut s), [(9, true)]);
}

#[test]
fn nothing_sent_is_taken_back() {
    let mut s = session(DefaultPermission::Prompt);
    s.queue_pty_write(b"first");
    s.send_response(1, Response::ok_empty());
    s.dispatch_request(request(2, exec(&["x"], None)), 0);
    press(&mut s, KeyCode::Enter, 0);
    s.dispatch_request(request(3, peek()), 0);
    s.handle_cancel(3, 0);
    s.tick_pending_exec(1_000 * MS);
    assert_eq!(answered(&mut s), [(1, true), (2, true)]);
    assert_eq!(written(&mut s), b"firstx");
}

#[test]
fn an_exec_is_answered_when_its_keys_are_sent() {
    let mut s = allowed();
    s.dispatch_request(request(1, exec(&["a", "{sleep:20ms}"], None)), 0);
    assert_eq!(written(&mut s), b"a");
    assert!(answered(&mut s).is_empty());
    s.tick_pending_exec(19 * MS);
    assert!(answered(&mut s).is_empty());
    s.tick_pending_exec(20 * MS);
    assert_eq!(answered(&mut s), [(1, true)]);
}

#[test]
fn text_is_sent_as_it_stands() {
    let mut s = Session::new(
        &Config { send_delay_ms: 0, ..config(DefaultPermission::Allow) },
        None,
        Size { cols: 80, rows: 24 },
        None,
        0,
    );
    s.dispatch_request(request(1, exec(&["a{{b}}", "", "é }}{{"], None)), 0);
    assert_eq!(written(&mut s), "a{b}é }{".as_bytes());
    s.dispatch_request(request(2, exec(&["{stdin}"], Some("x {cr}\r\ny\n"))), 0);
    assert_eq!(written(&mut s), b"x {cr}\ry\r");
}
