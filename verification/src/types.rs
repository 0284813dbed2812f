//! Message types for IPC communication between daemon, client, and session.
use vstd::prelude::*;
use crate::strings::text_opt;

verus! {

/// Server sends this to any new connection.
#[derive(Debug)]
pub struct AuthRequest {
    /// Generated 4-char hex ID.
    pub id: String,
}

/// Response to `AuthRequest`: identifies as client or session.
#[derive(Debug)]
pub enum AuthResponse {
    /// Client: acks id and sends request.
    Client { id: String, pid: u32, request: Request },
    /// Session: acks or overrides id.
    Session { id: String, pid: u32, tag: Option<String>, visible: bool },
}

/// Session selector for requests.
#[derive(Debug)]
pub enum Selector {
    Id(String),
    Tag(String),
}

impl Clone for Selector {
    fn clone(&self) -> (r: Selector)
        ensures
            r == *self,
    {
        match self {
            Selector::Id(id) => Selector::Id(id.clone()),
            Selector::Tag(tag) => Selector::Tag(tag.clone()),
        }
    }
}

/// Request from client to daemon.
#[derive(Debug)]
pub enum Request {
    Stop,
    Show { selector: Option<Selector> },
    Hide { selector: Option<Selector> },
    Tag { selector: Option<Selector>, new_tag: Option<String>, delete: bool },
    Clear { selector: Option<Selector> },
    List { selector: Option<Selector>, all: bool },
    Peek { selector: Option<Selector> },
    History { selector: Option<Selector>, count: Option<usize>, offset: Option<usize> },
    Exec {
        selector: Option<Selector>,
        /// Pre-parsed key arguments as raw strings (validated at CLI time).
        keys: Vec<String>,
        /// Raw text from stdin, injected where {stdin} appears in keys.
        stdin: Option<String>,
    },
}

// === Responses ===

/// Response payload for text content (history).
#[derive(Debug)]
pub struct TextContent {
    pub content: String,
}

/// Response payload for peek command: includes screen content and cursor info.
#[derive(Debug)]
pub struct PeekResponse {
    pub content: String,
    pub in_alt_screen: bool,
    pub rows: usize,
    pub cols: usize,
    pub cursor_row: usize,
    pub cursor_col: usize,
}

/// Response payload for exec command.
#[derive(Debug)]
pub struct ExecResponse {
    pub id: String,
}

/// Response payload for session state changes (tag, show, hide, clear).
#[derive(Debug)]
pub struct SessionStateResponse {
    pub id: String,
    pub tag: Option<String>,
    pub visible: Option<bool>,
}

/// What a successful response carries.
#[derive(Debug)]
pub enum Payload {
    State(SessionStateResponse),
    Peek(PeekResponse),
    Text(TextContent),
    Exec(ExecResponse),
    Sessions(Vec<SessionInfo>),
    /// A payload as it came in over a connection, in JSON.
    Json(String),
}

#[verifier::ext_equal]
pub enum PayloadView {
    State { id: Seq<char>, tag: Option<Seq<char>>, visible: Option<bool> },
    Peek {
        content: Seq<char>,
        in_alt_screen: bool,
        rows: int,
        cols: int,
        cursor_row: int,
        cursor_col: int,
    },
    Text { content: Seq<char> },
    Exec { id: Seq<char> },
    Sessions(Seq<SessionInfo>),
    Json(Seq<char>),
}

impl View for Payload {
    type V = PayloadView;

    open spec fn view(&self) -> PayloadView {
        match *self {
            Payload::State(s) => PayloadView::State {
                id: s.id@,
                tag: text_opt(s.tag),
                visible: s.visible,
            },
            Payload::Peek(p) => PayloadView::Peek {
                content: p.content@,
                in_alt_screen: p.in_alt_screen,
                rows: p.rows as int,
                cols: p.cols as int,
                cursor_row: p.cursor_row as int,
                cursor_col: p.cursor_col as int,
            },
            Payload::Text(t) => PayloadView::Text { content: t.content@ },
            Payload::Exec(e) => PayloadView::Exec { id: e.id@ },
            Payload::Sessions(s) => PayloadView::Sessions(s@),
            Payload::Json(s) => PayloadView::Json(s@),
        }
    }
}

/// Response from daemon to client.
#[derive(Debug)]
pub struct Response {
    pub ok: bool,
    pub data: Option<Payload>,
    pub error: Option<String>,
    pub code: Option<ErrorCode>,
}

#[verifier::ext_equal]
pub struct ResponseView {
    pub ok: bool,
    pub data: Option<PayloadView>,
    pub error: Option<Seq<char>>,
    pub code: Option<ErrorCode>,
}

impl View for Response {
    type V = ResponseView;

    open spec fn view(&self) -> ResponseView {
        ResponseView {
            ok: self.ok,
            data: match self.data {
                Some(d) => Some(d@),
                None => None,
            },
            error: text_opt(self.error),
            code: self.code,
        }
    }
}

/// A response that carries something.
pub open spec fn ok_response(data: PayloadView) -> ResponseView {
    ResponseView { ok: true, data: Some(data), error: None, code: None }
}

/// A response that carries nothing.
pub open spec fn ok_empty_response() -> ResponseView {
    ResponseView { ok: true, data: None, error: None, code: None }
}

/// A response that says what went wrong.
pub open spec fn err_response(code: ErrorCode, message: Seq<char>) -> ResponseView {
    ResponseView { ok: false, data: None, error: Some(message), code: Some(code) }
}

impl Response {
    pub fn ok(data: Payload) -> (r: Self)
        ensures
            r@ == ok_response(data@),
    {
        Response { ok: true, data: Some(data), error: None, code: None }
    }

    pub fn ok_empty() -> (r: Self)
        ensures
            r@ == ok_empty_response(),
    {
        Response { ok: true, data: None, error: None, code: None }
    }

    pub fn err(code: ErrorCode, message: String) -> (r: Self)
        ensures
            r@ == err_response(code, message@),
    {
        Response { ok: false, data: None, error: Some(message), code: Some(code) }
    }
}

#[derive(Debug, Clone, Copy, PartialEq, Eq, Structural)]
pub enum ErrorCode {
    SessionNotFound,
    AmbiguousSelector,
    PermissionDenied,
    AuthFailed,
    SessionHidden,
    Internal,
}

/// What an error code says to the user.
pub open spec fn error_text(code: ErrorCode) -> Seq<char> {
    match code {
        ErrorCode::SessionNotFound => "session not found"@,
        ErrorCode::AmbiguousSelector => "selector matches multiple sessions"@,
        ErrorCode::PermissionDenied => "permission denied"@,
        ErrorCode::AuthFailed => "authentication failed"@,
        ErrorCode::SessionHidden => "session is hidden"@,
        ErrorCode::Internal => "internal server error"@,
    }
}

impl ErrorCode {
    pub fn to_string(&self) -> (s: String)
        ensures
            s@ == error_text(*self),
    {
        let s = match self {
            ErrorCode::SessionNotFound => "session not found",
            ErrorCode::AmbiguousSelector => "selector matches multiple sessions",
            ErrorCode::PermissionDenied => "permission denied",
            ErrorCode::AuthFailed => "authentication failed",
            ErrorCode::SessionHidden => "session is hidden",
            ErrorCode::Internal => "internal server error",
        };
        s.to_string()
    }
}

// === Daemon and session ===

/// Request forwarded from daemon to session.
#[derive(Debug)]
pub struct SessionRequest {
    /// Unique request ID for matching responses.
    pub id: u64,
    /// Source session ID (who's making the request).
    pub source_id: String,
    /// Source session tag (if any).
    pub source_tag: Option<String>,
    /// The actual request.
    pub request: Request,
}

/// Message from daemon to session.
#[derive(Debug)]
pub enum DaemonMessage {
    /// Forward a client request.
    Request(SessionRequest),
    /// Cancel a pending request (client disconnected).
    Cancel { id: u64 },
}

/// Message from session to server.
#[derive(Debug)]
pub enum SessionMessage {
    /// Response to a `SessionRequest`.
    Response { id: u64, result: Response },
    /// Unsolicited status push.
    Status { update: StatusUpdate },
}

#[verifier::ext_equal]
pub enum MessageView {
    Response { id: u64, result: ResponseView },
    Status { cwd: Option<Seq<char>>, in_alt_screen: bool },
}

impl View for SessionMessage {
    type V = MessageView;

    open spec fn view(&self) -> MessageView {
        match *self {
            SessionMessage::Response { id, result } => MessageView::Response { id, result: result@ },
            SessionMessage::Status { update } => MessageView::Status {
                cwd: text_opt(update.cwd),
                in_alt_screen: update.in_alt_screen,
            },
        }
    }
}

/// Dynamic terminal state (pushed by session on PTY activity, debounced).
#[derive(Debug)]
pub struct StatusUpdate {
    pub cwd: Option<String>,
    pub in_alt_screen: bool,
}

/// Full session information for tv list command.
/// Server composes this from auth data + status updates.
#[derive(Debug)]
pub struct SessionInfo {
    // From auth
    pub id: String,
    pub tag: Option<String>,
    pub pid: u32,
    pub visible: bool,
    // From status updates
    pub cwd: Option<String>,
    pub in_alt_screen: bool,
    // Timestamps (epoch seconds, set by daemon)
    pub created_at: u64,
    pub last_activity: u64,
}

impl Clone for SessionInfo {
    fn clone(&self) -> (r: SessionInfo)
        ensures
            r == *self,
    {
        SessionInfo {
            id: self.id.clone(),
            tag: self.tag.clone(),
            pid: self.pid,
            visible: self.visible,
            cwd: self.cwd.clone(),
            in_alt_screen: self.in_alt_screen,
            created_at: self.created_at,
            last_activity: self.last_activity,
        }
    }
}

impl SessionInfo {
    /// Create a new `SessionInfo` from auth data with default status.
    pub fn new(id: String, pid: u32, tag: Option<String>, visible: bool) -> (r: Self)
        ensures
            r == (SessionInfo {
                id,
                tag,
                pid,
                visible,
                cwd: None,
                in_alt_screen: false,
                created_at: r.created_at,
                last_activity: r.created_at,
            }),
    {
        SessionInfo::new_at(id, pid, tag, visible, epoch_secs())
    }

    /// A new `SessionInfo` at a given time.
    pub fn new_at(id: String, pid: u32, tag: Option<String>, visible: bool, now: u64) -> (r: Self)
        ensures
            r == (SessionInfo {
                id,
                tag,
                pid,
                visible,
                cwd: None,
                in_alt_screen: false,
                created_at: now,
                last_activity: now,
            }),
    {
        SessionInfo {
            id,
            tag,
            pid,
            visible,
            cwd: None,
            in_alt_screen: false,
            created_at: now,
            last_activity: now,
        }
    }

    /// Update from a `StatusUpdate`.
    pub fn update_status(&mut self, update: &StatusUpdate)
        ensures
            *final(self) == (SessionInfo {
                cwd: update.cwd,
                in_alt_screen: update.in_alt_screen,
                last_activity: final(self).last_activity,
                ..*old(self)
            }),
    {
        self.update_status_at(update, epoch_secs());
    }

    /// Update from a `StatusUpdate` that came in at a given time.
    pub fn update_status_at(&mut self, update: &StatusUpdate, now: u64)
        ensures
            *final(self) == (SessionInfo {
                cwd: update.cwd,
                in_alt_screen: update.in_alt_screen,
                last_activity: now,
                ..*old(self)
            }),
    {
        self.cwd = update.cwd.clone();
        self.in_alt_screen = update.in_alt_screen;
        self.last_activity = now;
    }
}

/// Current time as Unix epoch seconds, read by `SystemTime::now`. Nothing is claimed of it.
#[verifier::external_body]
pub fn epoch_secs() -> u64 {
    std::time::SystemTime::now()
        .duration_since(std::time::UNIX_EPOCH)
        .unwrap_or_default()
        .as_secs()
}

} // verus!
