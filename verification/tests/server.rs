use tv::server::{
    check_auth, command_message, extract_selector, session_message, Admission, Effect,
    ServerMessage, ServerState, SessionCommand, SETTLING_DURATION,
};
use tv::types::{
    AuthResponse, DaemonMessage, ErrorCode, Payload, Request, Response, Selector, SessionInfo,
    SessionMessage, SessionRequest, StatusUpdate,
};

fn settled() -> ServerState {
    let mut s = ServerState::new(0);
    assert!(s.drain_deferred(&vec![]).is_empty());
    s
}

fn with_sessions() -> ServerState {
    let mut s = settled();
    s.register_session(10, "3f2a".to_string(), 100, Some("work".to_string()), true, 5);
    s.register_session(11, "3f99".to_string(), 200, None, true, 6);
    s.register_session(12, "0001".to_string(), 300, Some("dup".to_string()), false, 7);
    s.register_session(13, "0002".to_string(), 400, Some("dup".to_string()), true, 8);
    s
}

fn id(s: &str) -> Selector {
    Selector::Id(s.to_string())
}

fn tag(s: &str) -> Selector {
    Selector::Tag(s.to_string())
}

fn peek(selector: Option<Selector>) -> Request {
    Request::Peek { selector }
}

fn listed(s: &ServerState, selector: Option<&Selector>, all: bool) -> Vec<SessionInfo> {
    match s.handle_list(selector, all) {
        Response { ok: true, data: Some(Payload::Sessions(v)), .. } => v,
        other => panic!("{:?}", other),
    }
}

fn ids(infos: &[SessionInfo]) -> Vec<&str> {
    infos.iter().map(|i| i.id.as_str()).collect()
}

fn respond(effects: &[Effect]) -> (u64, &Response) {
    match effects {
        [Effect::Respond { conn_id, response }] => (*conn_id, response),
        other => panic!("{:?}", other),
    }
}

fn refusal(effects: &[Effect]) -> (u64, ErrorCode, &str) {
    let (conn_id, response) = respond(effects);
    assert!(!response.ok);
    (conn_id, response.code.unwrap(), response.error.as_deref().unwrap())
}

fn sent(effects: &[Effect]) -> (u64, u64) {
    match effects {
        [Effect::Command { conn_id, command: SessionCommand::SendRequest(r) }] => (*conn_id, r.id),
        other => panic!("{:?}", other),
    }
}

#[test]
fn connections_are_admitted() {
    let client = |pid| AuthResponse::Client { id: "x".to_string(), pid, request: Request::Stop };
    let session = |id: &str, pid| AuthResponse::Session {
        id: id.to_string(),
        pid,
        tag: Some("t".to_string()),
        visible: true,
    };
    assert!(matches!(
        check_auth(client(7), 7, "abcd".to_string()),
        Admission::Client { pid: 7, request: Request::Stop }
    ));
    assert!(matches!(
        check_auth(client(7), 8, "abcd".to_string()),
        Admission::Reject(Response { ok: false, code: Some(ErrorCode::AuthFailed), error: Some(e), .. })
            if e == "pid mismatch"
    ));
    assert!(matches!(
        check_auth(session("", 7), 7, "abcd".to_string()),
        Admission::Session { id, pid: 7, tag: Some(t), visible: true } if id == "abcd" && t == "t"
    ));
    assert!(matches!(
        check_auth(session("3f2a", 7), 7, "abcd".to_string()),
        Admission::Session { id, .. } if id == "3f2a"
    ));
    assert!(matches!(check_auth(session("", 7), 9, "abcd".to_string()), Admission::Reject(_)));
}

#[test]
fn selectors_of_requests() {
    let request = Request::History { selector: Some(id("3f")), count: None, offset: None };
    assert!(matches!(extract_selector(&request), Some(Selector::Id(s)) if s == "3f"));
    assert!(extract_selector(&Request::Stop).is_none());
    assert!(extract_selector(&Request::List { selector: Some(id("3")), all: true }).is_none());
}

#[test]
fn connections_are_numbered() {
    let mut s = ServerState::new(0);
    assert_eq!(s.next_conn_id(), 1);
    assert_eq!(s.next_conn_id(), 2);
    assert_eq!(s.conn_ids_left(), u64::MAX - 3);
    assert_eq!(s.request_ids_left(), u64::MAX - 1);
}

#[test]
fn sessions_are_selected() {
    let s = with_sessions();
    assert_eq!(s.resolve_selector(Some(&id("3f2")), &[]), Ok("3f2a".to_string()));
    assert_eq!(s.resolve_selector(Some(&id("3f")), &[]), Err(ErrorCode::AmbiguousSelector));
    assert_eq!(s.resolve_selector(Some(&id("9")), &[]), Err(ErrorCode::SessionNotFound));
    assert_eq!(s.resolve_selector(Some(&tag("work")), &[]), Ok("3f2a".to_string()));
    assert_eq!(s.resolve_selector(Some(&tag("dup")), &[]), Err(ErrorCode::AmbiguousSelector));
    assert_eq!(s.resolve_selector(Some(&tag("wor")), &[]), Err(ErrorCode::SessionNotFound));
    assert_eq!(s.resolve_selector(None, &[999, 200, 100, 1]), Ok("3f99".to_string()));
    assert_eq!(s.resolve_selector(None, &[999, 1]), Err(ErrorCode::SessionNotFound));
}

#[test]
fn a_whole_id_is_not_ambiguous() {
    let s = with_sessions();
    for whole in ["3f2a", "3f99", "0001", "0002"] {
        assert_eq!(s.resolve_selector(Some(&id(whole)), &[]), Ok(whole.to_string()));
    }
}

#[test]
fn hidden_sessions_are_not_listed() {
    let s = with_sessions();
    assert_eq!(ids(&listed(&s, None, false)), ["3f2a", "3f99", "0002"]);
    assert_eq!(ids(&listed(&s, None, true)), ["3f2a", "3f99", "0001", "0002"]);
    assert_eq!(ids(&listed(&s, Some(&tag("dup")), true)), ["0001", "0002"]);
    assert_eq!(ids(&listed(&s, Some(&tag("dup")), false)), ["0002"]);
    assert_eq!(ids(&listed(&s, Some(&id("3")), false)), ["3f2a", "3f99"]);
    let first = &listed(&s, None, false)[0];
    assert_eq!((first.created_at, first.last_activity, first.pid), (5, 5, 100));
}

#[test]
fn tags_are_queried() {
    let s = with_sessions();
    let r = s.handle_tag_query(Some(&id("3f2a")), &[]);
    assert!(matches!(
        r.data,
        Some(Payload::State(st)) if st.id == "3f2a" && st.tag.as_deref() == Some("work")
            && st.visible.is_none()
    ));
    let r = s.handle_tag_query(Some(&id("9")), &[]);
    assert_eq!(r.code, Some(ErrorCode::SessionNotFound));
    assert_eq!(r.error.as_deref(), Some("session not found"));
    let r = s.handle_tag_query(Some(&tag("dup")), &[]);
    assert_eq!(r.error.as_deref(), Some("selector matches multiple sessions"));
}

#[test]
fn strangers_are_refused() {
    let mut s = with_sessions();
    let effects = s.handle_client_request(50, 999, peek(Some(id("3f2a"))), &[999, 1]);
    assert_eq!(refusal(&effects), (50, ErrorCode::AuthFailed, "not inside a tv session"));
    let effects =
        s.handle_client_request(51, 999, Request::List { selector: None, all: false }, &[999, 1]);
    let (conn_id, response) = respond(&effects);
    assert!(conn_id == 51 && response.ok);
}

#[test]
fn requests_are_routed() {
    let mut s = with_sessions();
    let request = Request::Tag { selector: None, new_tag: None, delete: false };
    let effects = s.handle_client_request(50, 999, request, &[999, 100]);
    assert!(respond(&effects).1.ok);
    let effects = s.handle_client_request(51, 999, peek(Some(id("3f"))), &[999, 100]);
    assert_eq!(
        refusal(&effects),
        (51, ErrorCode::AmbiguousSelector, "selector matches multiple sessions")
    );
    let effects = s.handle_client_request(52, 999, peek(Some(id("3f99"))), &[999, 100]);
    match &effects[..] {
        [Effect::Command { conn_id: 11, command: SessionCommand::SendRequest(r) }] => {
            assert_eq!((r.id, r.source_id.as_str()), (1, "3f2a"));
            assert_eq!(r.source_tag.as_deref(), Some("work"));
            assert!(matches!(r.request, Request::Peek { .. }));
        }
        other => panic!("{:?}", other),
    }
    let effects = s.route_client_request(53, peek(None), &[999, 100]);
    assert_eq!(sent(&effects), (10, 2));
}

#[test]
fn answers_reach_who_asked() {
    let mut s = with_sessions();
    let first = s.route_client_request(50, peek(Some(id("3f99"))), &[100]);
    let second = s.route_client_request(51, peek(Some(id("3f99"))), &[100]);
    assert_eq!((sent(&first), sent(&second)), ((11, 1), (11, 2)));
    let effects = s.handle_session_response(11, 2, Response::ok_empty());
    assert_eq!(respond(&effects).0, 51);
    assert!(s.handle_session_response(11, 2, Response::ok_empty()).is_empty());
    assert!(s.handle_session_response(99, 1, Response::ok_empty()).is_empty());
    let effects = s.handle_session_response(
        11,
        1,
        Response::err(ErrorCode::PermissionDenied, "denied by user".to_string()),
    );
    assert_eq!(refusal(&effects), (50, ErrorCode::PermissionDenied, "denied by user"));
}

#[test]
fn done_requests_change_the_cache() {
    let mut s = with_sessions();
    let hide = || Request::Hide { selector: Some(id("3f99")) };
    let request_id = sent(&s.route_client_request(50, hide(), &[100])).1;
    s.handle_session_response(
        11,
        request_id,
        Response::err(ErrorCode::PermissionDenied, String::new()),
    );
    assert!(ids(&listed(&s, None, false)).contains(&"3f99"));
    let request_id = sent(&s.route_client_request(50, hide(), &[100])).1;
    s.handle_session_response(11, request_id, Response::ok_empty());
    assert!(!ids(&listed(&s, None, false)).contains(&"3f99"));
    let show = Request::Show { selector: Some(id("3f99")) };
    let request_id = sent(&s.route_client_request(50, show, &[100])).1;
    s.handle_session_response(11, request_id, Response::ok_empty());
    assert!(ids(&listed(&s, None, false)).contains(&"3f99"));
    let set = Request::Tag {
        selector: Some(id("3f99")),
        new_tag: Some("n".to_string()),
        delete: false,
    };
    let request_id = sent(&s.route_client_request(50, set, &[100])).1;
    s.handle_session_response(11, request_id, Response::ok_empty());
    assert_eq!(ids(&listed(&s, Some(&tag("n")), false)), ["3f99"]);
    let delete = Request::Tag { selector: Some(tag("n")), new_tag: None, delete: true };
    let request_id = sent(&s.route_client_request(50, delete, &[100])).1;
    s.handle_session_response(11, request_id, Response::ok_empty());
    assert!(listed(&s, Some(&tag("n")), false).is_empty());
}

#[test]
fn status_changes_the_cache() {
    let mut s = with_sessions();
    let update = StatusUpdate { cwd: Some("/x".to_string()), in_alt_screen: true };
    s.handle_session_status(11, &update, 77);
    s.handle_session_status(99, &update, 88);
    let info = &listed(&s, Some(&id("3f99")), false)[0];
    assert_eq!(info.cwd.as_deref(), Some("/x"));
    assert!(info.in_alt_screen);
    assert_eq!((info.created_at, info.last_activity), (6, 77));
    assert_eq!(listed(&s, Some(&id("3f2a")), false)[0].last_activity, 5);
}

#[test]
fn a_lost_client_cancels_its_request() {
    let mut s = with_sessions();
    let request_id = sent(&s.route_client_request(50, peek(Some(id("3f99"))), &[100])).1;
    let effects = s.handle_disconnect(50);
    assert!(matches!(
        &effects[..],
        [Effect::Command { conn_id: 11, command: SessionCommand::CancelRequest(r) }]
            if *r == request_id
    ));
    assert!(s.handle_session_response(11, request_id, Response::ok_empty()).is_empty());
    assert!(s.handle_disconnect(50).is_empty());
}

#[test]
fn a_lost_session_fails_its_clients() {
    let mut s = with_sessions();
    s.route_client_request(50, peek(Some(id("3f99"))), &[100]);
    s.route_client_request(51, peek(Some(id("3f2a"))), &[100]);
    let effects = s.handle_disconnect(11);
    assert_eq!(refusal(&effects), (50, ErrorCode::Internal, "session disconnected"));
    assert!(!ids(&listed(&s, None, true)).contains(&"3f99"));
    assert!(matches!(&s.handle_disconnect(51)[..], [Effect::Command { conn_id: 10, .. }]));
}

#[test]
fn a_reconnected_session_stays() {
    let mut s = with_sessions();
    s.register_session(20, "3f99".to_string(), 200, None, true, 50);
    assert!(s.handle_disconnect(11).is_empty());
    assert_eq!(ids(&listed(&s, None, true)), ["3f2a", "3f99", "0001", "0002"]);
    assert_eq!(sent(&s.route_client_request(50, peek(Some(id("3f99"))), &[100])).0, 20);
    s.handle_disconnect(20);
    assert!(!ids(&listed(&s, None, true)).contains(&"3f99"));
}

#[test]
fn requests_wait_while_sessions_reconnect() {
    let mut s = ServerState::new(7);
    assert_eq!(s.settling_deadline(), Some(7 + SETTLING_DURATION));
    assert!(s.handle_client_request(50, 999, peek(Some(id("3f2a"))), &[999]).is_empty());
    assert!(s.handle_client_request(51, 998, peek(Some(id("3f2a"))), &[998]).is_empty());
    assert!(s.handle_client_request(52, 997, peek(None), &[997]).is_empty());
    assert_eq!(s.deferred_pids(), [999, 998, 997]);
    assert!(s.handle_disconnect(51).is_empty());
    assert_eq!(s.deferred_pids(), [999, 997]);
    s.register_session(10, "3f2a".to_string(), 100, None, true, 5);
    let effects = s.drain_deferred(&vec![vec![999, 100], vec![997]]);
    assert_eq!(s.settling_deadline(), None);
    assert!(s.deferred_pids().is_empty());
    assert_eq!(effects.len(), 2);
    assert_eq!(sent(&effects[..1]), (10, 1));
    assert_eq!(refusal(&effects[1..]).0, 52);
}

#[test]
fn a_stop_is_done_at_once() {
    let mut s = ServerState::new(0);
    s.register_session(10, "3f2a".to_string(), 100, None, true, 5);
    s.handle_client_request(50, 999, peek(None), &[100]);
    let effects = s.handle_client_request(51, 999, Request::Stop, &[]);
    assert!(respond(&effects[..1]).1.ok);
    assert_eq!(respond(&effects[..1]).0, 51);
    assert!(matches!(effects[1], Effect::Abandon { conn_id: 50 }));
    assert!(matches!(
        effects[2],
        Effect::Command { conn_id: 10, command: SessionCommand::Close }
    ));
    assert!(matches!(effects[3], Effect::Exit));
    assert_eq!(effects.len(), 4);
    assert!(listed(&s, None, true).is_empty());
}

#[test]
fn a_shutdown_abandons_waiting_clients() {
    let mut s = with_sessions();
    s.route_client_request(50, peek(Some(id("3f99"))), &[100]);
    let effects = s.shutdown();
    assert_eq!(effects.len(), 6);
    assert!(matches!(effects[4], Effect::Abandon { conn_id: 50 }));
    assert!(matches!(effects[5], Effect::Exit));
}

#[test]
fn messages_are_handled() {
    let mut s = settled();
    let ready = ServerMessage::SessionReady {
        conn_id: 10,
        id: "3f2a".to_string(),
        pid: 100,
        tag: None,
        visible: true,
    };
    assert!(s.handle_message(ready, &[], 9).is_empty());
    let ask = ServerMessage::ClientReady { conn_id: 50, pid: 999, request: peek(None) };
    let request_id = sent(&s.handle_message(ask, &[999, 100], 9)).1;
    let update = StatusUpdate { cwd: None, in_alt_screen: true };
    assert!(s
        .handle_message(ServerMessage::SessionStatus { conn_id: 10, update }, &[], 12)
        .is_empty());
    assert_eq!(listed(&s, None, true)[0].last_activity, 12);
    let answer = ServerMessage::SessionResponse {
        conn_id: 10,
        request_id,
        result: Response::ok_empty(),
    };
    assert_eq!(respond(&s.handle_message(answer, &[], 13)).0, 50);
    assert!(s.handle_message(ServerMessage::Disconnected { conn_id: 10 }, &[], 14).is_empty());
    assert!(listed(&s, None, true).is_empty());
}

#[test]
fn session_ids() {
    let mut s = settled();
    assert_eq!(s.pick_session_id(0x03, 0xff, 0x12, 0x0a), Some("3f2a".to_string()));
    s.register_session(10, "3f2a".to_string(), 100, None, true, 5);
    assert_eq!(s.pick_session_id(0x03, 0xff, 0x12, 0x0a), None);
    let empty = settled();
    let mut seen = Vec::new();
    for _ in 0..20 {
        let id = empty.generate_session_id().unwrap();
        assert_eq!(id.len(), 4);
        assert!(id.chars().all(|c| c.is_ascii_hexdigit() && !c.is_ascii_uppercase()));
        seen.push(id);
    }
    seen.sort();
    seen.dedup();
    assert!(seen.len() > 1);
}

#[test]
fn ids_are_drawn_until_one_is_free() {
    let mut s = settled();
    let mut taken = Vec::new();
    for n in 0..200 {
        let id = s.generate_session_id().unwrap();
        assert!(!taken.contains(&id));
        s.register_session(n, id.clone(), 100, None, true, 5);
        taken.push(id);
    }
}

#[test]
fn a_request_has_one_effect() {
    let mut s = with_sessions();
    for (n, request) in [
        peek(None),
        peek(Some(id("3f"))),
        Request::List { selector: None, all: true },
        Request::Tag { selector: None, new_tag: None, delete: false },
        Request::Show { selector: Some(tag("work")) },
    ]
    .into_iter()
    .enumerate()
    {
        assert_eq!(s.route_client_request(60 + n as u64, request, &[100]).len(), 1);
    }
}

#[test]
fn session_info_follows_the_clock() {
    let before = tv::types::epoch_secs();
    let mut info = SessionInfo::new("3f2a".to_string(), 1, None, true);
    assert!(info.created_at >= before && info.last_activity == info.created_at);
    info.update_status(&StatusUpdate { cwd: Some("/".to_string()), in_alt_screen: true });
    assert!(info.last_activity >= before && info.in_alt_screen);
    assert!(before > 1_600_000_000);
}

#[test]
fn messages_to_and_from_sessions() {
    let request = SessionRequest {
        id: 4,
        source_id: "aaaa".to_string(),
        source_tag: None,
        request: Request::Stop,
    };
    assert!(matches!(
        command_message(SessionCommand::SendRequest(request)),
        Some(DaemonMessage::Request(r)) if r.id == 4
    ));
    assert!(matches!(
        command_message(SessionCommand::CancelRequest(5)),
        Some(DaemonMessage::Cancel { id: 5 })
    ));
    assert!(command_message(SessionCommand::Close).is_none());
    let answer = SessionMessage::Response { id: 6, result: Response::ok_empty() };
    assert!(matches!(
        session_message(9, answer),
        ServerMessage::SessionResponse { conn_id: 9, request_id: 6, .. }
    ));
    let status = SessionMessage::Status {
        update: StatusUpdate { cwd: None, in_alt_screen: true },
    };
    assert!(matches!(
        session_message(9, status),
        ServerMessage::SessionStatus { conn_id: 9, update } if update.in_alt_screen
    ));
}

#[test]
fn sessions_survive_their_clients() {
    let mut s = with_sessions();
    s.route_client_request(50, peek(None), &[100]);
    s.handle_disconnect(50);
    s.handle_disconnect(77);
    assert_eq!(ids(&listed(&s, None, true)), ["3f2a", "3f99", "0001", "0002"]);
}
