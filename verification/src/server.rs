//! Server module: the state of the daemon.
//!
//! The server
//! 1. Admits connections as clients or sessions
//! 2. Routes requests between clients and sessions
//! 3. Caches session info for tv list
//!
//! The server is a pure router: all queuing happens session-side. Connections are served
//! elsewhere; each message that comes in is handed to the state, and what is to be sent comes back
//! as a list of effects. Times are nanoseconds since the daemon started.
use std::collections::HashMap;
use vstd::prelude::*;
use crate::auth::{find_ancestor_pid, first_wanted, lemma_first_wanted, listed};
use crate::cli::is_id;
use crate::seqs::{
    first_index, kept, lemma_first_index, lemma_is_first_index, lemma_kept,
    lemma_kept_no_duplicates,
};
use crate::strings::{chars_of, strip_prefix, text, text_opt};
use crate::types::{
    err_response, error_text, ok_empty_response, ok_response, AuthResponse, DaemonMessage,
    ErrorCode, Payload, PayloadView, Request, Response, ResponseView, Selector, SessionInfo,
    SessionMessage, SessionRequest, SessionStateResponse, StatusUpdate,
};

verus! {

broadcast use vstd::std_specs::hash::group_hash_axioms;

/// Grace period after daemon startup during which client requests are deferred, giving existing
/// sessions time to reconnect after a daemon restart.
pub const SETTLING_DURATION: u64 = 500_000_000;

// === Data Structures ===

/// A session that is connected.
#[derive(Debug)]
pub struct SessionEntry {
    pub conn_id: u64,
    pub info: SessionInfo,
}

/// What a request changes of the cached session info once the session has done it.
#[derive(Debug)]
pub enum CacheUpdate {
    Nothing,
    Visible(bool),
    Tag(Option<String>),
}

/// A client that waits for a session to answer.
#[derive(Debug)]
pub struct ClientEntry {
    pub conn_id: u64,
    pub session_id: String,
    pub request_id: u64,
    pub update: CacheUpdate,
}

/// A client request deferred during the settling window.
#[derive(Debug)]
pub struct DeferredClient {
    pub conn_id: u64,
    pub pid: u32,
    pub request: Request,
}

#[derive(Debug)]
pub enum SessionCommand {
    SendRequest(SessionRequest),
    CancelRequest(u64),
    Close,
}

/// What comes in from a connection.
#[derive(Debug)]
pub enum ServerMessage {
    ClientReady { conn_id: u64, pid: u32, request: Request },
    SessionReady { conn_id: u64, id: String, pid: u32, tag: Option<String>, visible: bool },
    SessionResponse { conn_id: u64, request_id: u64, result: Response },
    SessionStatus { conn_id: u64, update: StatusUpdate },
    Disconnected { conn_id: u64 },
}

/// What the server is to do.
#[derive(Debug)]
pub enum Effect {
    /// Answer a client.
    Respond { conn_id: u64, response: Response },
    /// Give a session something to do.
    Command { conn_id: u64, command: SessionCommand },
    /// Close a client's connection without an answer.
    Abandon { conn_id: u64 },
    /// Remove the socket and end.
    Exit,
}

#[verifier::ext_equal]
pub enum EffectView {
    Respond { conn_id: u64, response: ResponseView },
    Command { conn_id: u64, command: SessionCommand },
    Abandon { conn_id: u64 },
    Exit,
}

impl View for Effect {
    type V = EffectView;

    open spec fn view(&self) -> EffectView {
        match *self {
            Effect::Respond { conn_id, response } => EffectView::Respond {
                conn_id,
                response: response@,
            },
            Effect::Command { conn_id, command } => EffectView::Command { conn_id, command },
            Effect::Abandon { conn_id } => EffectView::Abandon { conn_id },
            Effect::Exit => EffectView::Exit,
        }
    }
}

/// Clients are told that the session that they waited on is gone.
pub open spec fn failures(clients: Seq<ClientEntry>) -> Seq<EffectView> {
    clients.map_values(
        |c: ClientEntry|
            EffectView::Respond {
                conn_id: c.conn_id,
                response: err_response(ErrorCode::Internal, "session disconnected"@),
            },
    )
}

pub open spec fn effect_views(effects: Seq<Effect>) -> Seq<EffectView> {
    effects.map_values(|e: Effect| e@)
}

// === Admission ===

/// What becomes of a connection that said who it is.
#[derive(Debug)]
pub enum Admission {
    /// It is not who it claims to be.
    Reject(Response),
    Client { pid: u32, request: Request },
    Session { id: String, pid: u32, tag: Option<String>, visible: bool },
}

/// Decide on a connection: the process that it claims to be must be the one at the other end of
/// the socket. A session may bring an id of its own, else it gets the assigned one.
pub fn check_auth(auth: AuthResponse, peer_pid: u32, assigned_id: String) -> (r: Admission)
    ensures
        match auth {
            AuthResponse::Client { pid, request, .. } => if pid == peer_pid {
                r == (Admission::Client { pid, request })
            } else {
                r matches Admission::Reject(e) && e@ == err_response(
                    ErrorCode::AuthFailed,
                    "pid mismatch"@,
                )
            },
            AuthResponse::Session { id, pid, tag, visible } => if pid == peer_pid {
                r == (Admission::Session {
                    id: if id@.len() > 0 {
                        id
                    } else {
                        assigned_id
                    },
                    pid,
                    tag,
                    visible,
                })
            } else {
                r matches Admission::Reject(e) && e@ == err_response(
                    ErrorCode::AuthFailed,
                    "pid mismatch"@,
                )
            },
        },
{
    let claimed = match &auth {
        AuthResponse::Client { pid, .. } => *pid,
        AuthResponse::Session { pid, .. } => *pid,
    };
    if claimed != peer_pid {
        return Admission::Reject(Response::err(ErrorCode::AuthFailed, text("pid mismatch")));
    }
    match auth {
        AuthResponse::Client { pid, request, .. } => Admission::Client { pid, request },
        AuthResponse::Session { id, pid, tag, visible } => {
            let id = if id.as_str().is_empty() {
                assigned_id
            } else {
                id
            };
            Admission::Session { id, pid, tag, visible }
        },
    }
}

/// What a session's connection sends for a command; nothing to close it.
pub fn command_message(command: SessionCommand) -> (r: Option<DaemonMessage>)
    ensures
        r == match command {
            SessionCommand::SendRequest(req) => Some(DaemonMessage::Request(req)),
            SessionCommand::CancelRequest(id) => Some(DaemonMessage::Cancel { id }),
            SessionCommand::Close => None,
        },
{
    match command {
        SessionCommand::SendRequest(req) => Some(DaemonMessage::Request(req)),
        SessionCommand::CancelRequest(id) => Some(DaemonMessage::Cancel { id }),
        SessionCommand::Close => None,
    }
}

/// What a message of a session is to the server.
pub fn session_message(conn_id: u64, message: SessionMessage) -> (r: ServerMessage)
    ensures
        r == match message {
            SessionMessage::Response { id, result } => ServerMessage::SessionResponse {
                conn_id,
                request_id: id,
                result,
            },
            SessionMessage::Status { update } => ServerMessage::SessionStatus { conn_id, update },
        },
{
    match message {
        SessionMessage::Response { id, result } => ServerMessage::SessionResponse {
            conn_id,
            request_id: id,
            result,
        },
        SessionMessage::Status { update } => ServerMessage::SessionStatus { conn_id, update },
    }
}

// === Server state ===

pub struct ServerState {
    sessions: Vec<SessionEntry>,
    clients: Vec<ClientEntry>,
    conn_to_session: HashMap<u64, String>,
    next_conn_id: u64,
    next_request_id: u64,
    /// Deadline for the settling window. `Some` means we're still settling.
    settling_deadline: Option<u64>,
    /// Client requests deferred during the settling window.
    deferred: Vec<DeferredClient>,
}

#[verifier::ext_equal]
pub struct ServerView {
    pub sessions: Seq<SessionEntry>,
    pub clients: Seq<ClientEntry>,
    pub conns: Map<u64, String>,
    pub next_conn_id: u64,
    pub next_request_id: u64,
    pub settling: Option<u64>,
    pub deferred: Seq<DeferredClient>,
}

impl View for ServerState {
    type V = ServerView;

    closed spec fn view(&self) -> ServerView {
        ServerView {
            sessions: self.sessions@,
            clients: self.clients@,
            conns: self.conn_to_session@,
            next_conn_id: self.next_conn_id,
            next_request_id: self.next_request_id,
            settling: self.settling_deadline,
            deferred: self.deferred@,
        }
    }
}

pub open spec fn has_id(id: Seq<char>) -> spec_fn(SessionEntry) -> bool {
    |s: SessionEntry| s.info.id@ == id
}

pub open spec fn has_pid(pid: u32) -> spec_fn(SessionEntry) -> bool {
    |s: SessionEntry| s.info.pid == pid
}

pub open spec fn has_conn(conn_id: u64) -> spec_fn(ClientEntry) -> bool {
    |c: ClientEntry| c.conn_id == conn_id
}

pub open spec fn has_request(request_id: u64) -> spec_fn(ClientEntry) -> bool {
    |c: ClientEntry| c.request_id == request_id
}

pub open spec fn waits_on(session_id: Seq<char>) -> spec_fn(ClientEntry) -> bool {
    |c: ClientEntry| c.session_id@ == session_id
}

pub open spec fn waits_on_another(session_id: Seq<char>) -> spec_fn(ClientEntry) -> bool {
    |c: ClientEntry| c.session_id@ != session_id
}

pub open spec fn other_conn(conn_id: u64) -> spec_fn(DeferredClient) -> bool {
    |d: DeferredClient| d.conn_id != conn_id
}

/// Whether a selector picks a session: by its tag, or by the start of its id.
pub open spec fn selects(selector: Selector) -> spec_fn(SessionEntry) -> bool {
    |s: SessionEntry|
        match selector {
            Selector::Tag(tag) => s.info.tag matches Some(t) && t@ == tag@,
            Selector::Id(id) => id@.is_prefix_of(s.info.id@),
        }
}

/// Whether a session is listed.
pub open spec fn is_listed(selector: Option<Selector>, all: bool) -> spec_fn(SessionEntry) -> bool {
    |s: SessionEntry|
        (all || s.info.visible) && match selector {
            Some(sel) => selects(sel)(s),
            None => true,
        }
}

/// The process ids of sessions.
pub open spec fn pids_of(sessions: Seq<SessionEntry>) -> Seq<u32> {
    sessions.map_values(|s: SessionEntry| s.info.pid)
}

impl ServerView {
    /// What every operation keeps: no two sessions have one id, no two clients one connection or
    /// one request, requests are numbered below the next number, every client waits on a session
    /// that is there, and requests are deferred only while sessions reconnect.
    pub open spec fn wf(self) -> bool {
        &&& forall|i: int, j: int|
            0 <= i < j < self.sessions.len() ==> (#[trigger] self.sessions[i]).info.id@ != (
            #[trigger] self.sessions[j]).info.id@
        &&& forall|i: int, j: int|
            0 <= i < j < self.clients.len() ==> (#[trigger] self.clients[i]).conn_id != (
            #[trigger] self.clients[j]).conn_id
        &&& forall|i: int, j: int|
            0 <= i < j < self.clients.len() ==> (#[trigger] self.clients[i]).request_id != (
            #[trigger] self.clients[j]).request_id
        &&& forall|i: int|
            0 <= i < self.clients.len() ==> (#[trigger] self.clients[i]).request_id
                < self.next_request_id
        &&& forall|i: int|
            0 <= i < self.clients.len() ==> self.session_at(
                (#[trigger] self.clients[i]).session_id@,
            ) is Some
        &&& self.deferred.len() > 0 ==> self.settling is Some
    }

    /// The place of the session with an id.
    pub open spec fn session_at(self, id: Seq<char>) -> Option<int> {
        let n = first_index(self.sessions, has_id(id)) as int;
        if n < self.sessions.len() {
            Some(n)
        } else {
            None
        }
    }

    /// The place of the session that a client runs in: that of the nearest ancestor that is one.
    pub open spec fn owner(self, ancestry: Seq<u32>) -> Option<int> {
        let n = first_wanted(ancestry, listed(pids_of(self.sessions))) as int;
        if n < ancestry.len() {
            Some(first_index(self.sessions, has_pid(ancestry[n])) as int)
        } else {
            None
        }
    }

    /// The id of the session that is meant: the one that the selector picks, if there is just one,
    /// and without a selector the one that the client runs in.
    pub open spec fn resolve(self, selector: Option<Selector>, ancestry: Seq<u32>) -> Result<
        Seq<char>,
        ErrorCode,
    > {
        match selector {
            Some(sel) => {
                let found = kept(self.sessions, selects(sel));
                if found.len() == 0 {
                    Err(ErrorCode::SessionNotFound)
                } else if found.len() == 1 {
                    Ok(found[0].info.id@)
                } else {
                    Err(ErrorCode::AmbiguousSelector)
                }
            },
            None => match self.owner(ancestry) {
                Some(i) => Ok(self.sessions[i].info.id@),
                None => Err(ErrorCode::SessionNotFound),
            },
        }
    }

    /// A session is there, in place of one with the same id.
    pub open spec fn register(self, conn_id: u64, info: SessionInfo, key: String) -> ServerView {
        let entry = SessionEntry { conn_id, info };
        ServerView {
            sessions: match self.session_at(info.id@) {
                Some(i) => self.sessions.update(i, entry),
                None => self.sessions.push(entry),
            },
            conns: self.conns.insert(conn_id, key),
            ..self
        }
    }

    pub open spec fn list(self, selector: Option<Selector>, all: bool) -> ResponseView {
        ok_response(
            PayloadView::Sessions(
                kept(self.sessions, is_listed(selector, all)).map_values(
                    |s: SessionEntry| s.info,
                ),
            ),
        )
    }

    /// The tag of a session.
    pub open spec fn tag_query(self, selector: Option<Selector>, ancestry: Seq<u32>) -> ResponseView {
        match self.resolve(selector, ancestry) {
            Err(code) => err_response(code, error_text(code)),
            Ok(id) => match self.session_at(id) {
                Some(i) => ok_response(
                    PayloadView::State {
                        id: self.sessions[i].info.id@,
                        tag: text_opt(self.sessions[i].info.tag),
                        visible: None,
                    },
                ),
                None => err_response(ErrorCode::SessionNotFound, "session not found"@),
            },
        }
    }

    pub open spec fn remove_client(self, i: int) -> ServerView {
        ServerView { clients: self.clients.remove(i), ..self }
    }
}

/// The selector of a request.
pub open spec fn selector_of(request: Request) -> Option<Selector> {
    match request {
        Request::Show { selector } => selector,
        Request::Hide { selector } => selector,
        Request::Tag { selector, .. } => selector,
        Request::Clear { selector } => selector,
        Request::Peek { selector } => selector,
        Request::History { selector, .. } => selector,
        Request::Exec { selector, .. } => selector,
        _ => None,
    }
}

pub fn extract_selector(request: &Request) -> (r: Option<&Selector>)
    ensures
        match selector_of(*request) {
            Some(sel) => r matches Some(s) && *s == sel,
            None => r is None,
        },
{
    match request {
        Request::Show { selector } => selector.as_ref(),
        Request::Hide { selector } => selector.as_ref(),
        Request::Tag { selector, .. } => selector.as_ref(),
        Request::Clear { selector } => selector.as_ref(),
        Request::Peek { selector } => selector.as_ref(),
        Request::History { selector, .. } => selector.as_ref(),
        Request::Exec { selector, .. } => selector.as_ref(),
        _ => None,
    }
}

/// What a request changes of the cached info.
pub open spec fn update_of(request: Request) -> CacheUpdate {
    match request {
        Request::Show { .. } => CacheUpdate::Visible(true),
        Request::Hide { .. } => CacheUpdate::Visible(false),
        Request::Tag { new_tag, delete, .. } => CacheUpdate::Tag(
            if delete {
                None
            } else {
                new_tag
            },
        ),
        _ => CacheUpdate::Nothing,
    }
}

fn cache_update(request: &Request) -> (r: CacheUpdate)
    ensures
        r == update_of(*request),
{
    match request {
        Request::Show { .. } => CacheUpdate::Visible(true),
        Request::Hide { .. } => CacheUpdate::Visible(false),
        Request::Tag { new_tag, delete, .. } => CacheUpdate::Tag(
            if *delete {
                None
            } else {
                new_tag.clone()
            },
        ),
        _ => CacheUpdate::Nothing,
    }
}

/// Session info after a change.
pub open spec fn updated(info: SessionInfo, update: CacheUpdate) -> SessionInfo {
    match update {
        CacheUpdate::Nothing => info,
        CacheUpdate::Visible(visible) => SessionInfo { visible, ..info },
        CacheUpdate::Tag(tag) => SessionInfo { tag, ..info },
    }
}

fn matches_selector(s: &SessionEntry, selector: &Selector) -> (r: bool)
    ensures
        r == selects(*selector)(*s),
{
    match selector {
        Selector::Tag(tag) => match &s.info.tag {
            Some(t) => t.as_str().eq(tag.as_str()),
            None => false,
        },
        Selector::Id(id) => {
            let v = chars_of(s.info.id.as_str());
            strip_prefix(v.as_slice(), id.as_str()).is_some()
        },
    }
}

impl ServerState {
    /// What every operation keeps.
    pub closed spec fn wf(&self) -> bool {
        self@.wf()
    }

    /// A daemon that was just started. Client requests wait until sessions have reconnected.
    pub fn new(now: u64) -> (s: Self)
        ensures
            s.wf(),
            s@ == (ServerView {
                sessions: Seq::empty(),
                clients: Seq::empty(),
                conns: Map::empty(),
                next_conn_id: 1,
                next_request_id: 1,
                settling: Some(
                    if now + SETTLING_DURATION <= u64::MAX {
                        (now + SETTLING_DURATION) as u64
                    } else {
                        u64::MAX
                    },
                ),
                deferred: Seq::empty(),
            }),
    {
        ServerState {
            sessions: Vec::new(),
            clients: Vec::new(),
            conn_to_session: HashMap::new(),
            next_conn_id: 1,
            next_request_id: 1,
            settling_deadline: Some(now.saturating_add(SETTLING_DURATION)),
            deferred: Vec::new(),
        }
    }

    pub fn settling_deadline(&self) -> (r: Option<u64>)
        ensures
            r == self@.settling,
    {
        self.settling_deadline
    }

    /// The number of a new connection.
    pub fn next_conn_id(&mut self) -> (id: u64)
        requires
            old(self).wf(),
            old(self)@.next_conn_id < u64::MAX,
        ensures
            final(self).wf(),
            id == old(self)@.next_conn_id,
            final(self)@ == (ServerView { next_conn_id: (id + 1) as u64, ..old(self)@ }),
    {
        let id = self.next_conn_id;
        self.next_conn_id = self.next_conn_id + 1;
        id
    }

    /// How many connections can still be numbered.
    pub fn conn_ids_left(&self) -> (n: u64)
        ensures
            n == u64::MAX - self@.next_conn_id,
    {
        u64::MAX - self.next_conn_id
    }

    /// How many requests can still be numbered.
    pub fn request_ids_left(&self) -> (n: u64)
        ensures
            n == u64::MAX - self@.next_request_id,
    {
        u64::MAX - self.next_request_id
    }

    fn find_session(&self, id: &str) -> (r: Option<usize>)
        ensures
            match self@.session_at(id@) {
                Some(i) => r matches Some(n) && n == i && 0 <= i < self@.sessions.len(),
                None => r is None,
            },
    {
        for i in 0..self.sessions.len()
            invariant
                forall|j: int| 0 <= j < i ==> !has_id(id@)(#[trigger] self.sessions@[j]),
        {
            if self.sessions[i].info.id.as_str().eq(id) {
                proof {
                    lemma_is_first_index(self.sessions@, has_id(id@), i as int);
                }
                return Some(i);
            }
        }
        proof {
            lemma_is_first_index(self.sessions@, has_id(id@), self.sessions@.len() as int);
        }
        None
    }

    fn find_pid(&self, pid: u32) -> (n: usize)
        ensures
            n == first_index(self@.sessions, has_pid(pid)),
            n <= self@.sessions.len(),
    {
        for i in 0..self.sessions.len()
            invariant
                forall|j: int| 0 <= j < i ==> !has_pid(pid)(#[trigger] self.sessions@[j]),
        {
            if self.sessions[i].info.pid == pid {
                proof {
                    lemma_is_first_index(self.sessions@, has_pid(pid), i as int);
                }
                return i;
            }
        }
        proof {
            lemma_is_first_index(self.sessions@, has_pid(pid), self.sessions@.len() as int);
        }
        self.sessions.len()
    }

    /// The session that a client runs in, from the process ids of the client and its ancestors.
    fn find_owner(&self, ancestry: &[u32]) -> (r: Option<usize>)
        ensures
            match self@.owner(ancestry@) {
                Some(i) => r matches Some(n) && n == i && 0 <= i < self@.sessions.len(),
                None => r is None,
            },
    {
        let mut pids: Vec<u32> = Vec::new();
        for i in 0..self.sessions.len()
            invariant
                pids@ == pids_of(self.sessions@).take(i as int),
        {
            pids.push(self.sessions[i].info.pid);
            proof {
                assert(pids@ =~= pids_of(self.sessions@).take(i + 1));
            }
        }
        proof {
            assert(pids@ =~= pids_of(self.sessions@));
            lemma_first_wanted(ancestry@, listed(pids@));
        }
        match find_ancestor_pid(ancestry, pids.as_slice()) {
            Some(pid) => {
                let n = self.find_pid(pid);
                proof {
                    lemma_first_index(self.sessions@, has_pid(pid));
                    let k = choose|k: int| 0 <= k < pids@.len() && pids@[k] == pid;
                    assert(has_pid(pid)(self.sessions@[k]));
                }
                Some(n)
            },
            None => None,
        }
    }

    /// The session that is meant by a selector.
    pub fn resolve_selector(&self, selector: Option<&Selector>, ancestry: &[u32]) -> (r: Result<
        String,
        ErrorCode,
    >)
        ensures
            match self@.resolve(
                match selector {
                    Some(s) => Some(*s),
                    None => None,
                },
                ancestry@,
            ) {
                Ok(id) => r matches Ok(s) && s@ == id,
                Err(code) => r == Err::<String, ErrorCode>(code),
            },
    {
        match selector {
            Some(sel) => {
                let mut found: usize = 0;
                let mut place: usize = 0;
                let ghost wanted = selects(*sel);
                for i in 0..self.sessions.len()
                    invariant
                        wanted == selects(*sel),
                        found == kept(self.sessions@.take(i as int), wanted).len(),
                        found <= i,
                        found == 1 ==> place < self.sessions@.len() && kept(
                            self.sessions@.take(i as int),
                            wanted,
                        )[0] == self.sessions@[place as int],
                {
                    proof {
                        let done = self.sessions@.take(i + 1);
                        assert(done.drop_last() =~= self.sessions@.take(i as int));
                        assert(done.last() == self.sessions@[i as int]);
                    }
                    if matches_selector(&self.sessions[i], sel) {
                        if found == 0 {
                            place = i;
                        }
                        found = found + 1;
                    }
                }
                proof {
                    assert(self.sessions@.take(self.sessions@.len() as int) =~= self.sessions@);
                }
                if found == 0 {
                    Err(ErrorCode::SessionNotFound)
                } else if found == 1 {
                    Ok(self.sessions[place].info.id.clone())
                } else {
                    Err(ErrorCode::AmbiguousSelector)
                }
            },
            None => match self.find_owner(ancestry) {
                Some(i) => Ok(self.sessions[i].info.id.clone()),
                None => Err(ErrorCode::SessionNotFound),
            },
        }
    }

    /// The sessions for tv list.
    pub fn handle_list(&self, selector: Option<&Selector>, all: bool) -> (r: Response)
        ensures
            r@ == self@.list(
                match selector {
                    Some(s) => Some(*s),
                    None => None,
                },
                all,
            ),
    {
        let ghost sel = match selector {
            Some(s) => Some(*s),
            None => None,
        };
        let ghost wanted = is_listed(sel, all);
        let mut infos: Vec<SessionInfo> = Vec::new();
        for i in 0..self.sessions.len()
            invariant
                sel == match selector {
                    Some(s) => Some(*s),
                    None => None,
                },
                wanted == is_listed(sel, all),
                infos@ == kept(self.sessions@.take(i as int), wanted).map_values(
                    |s: SessionEntry| s.info,
                ),
        {
            let ghost before = kept(self.sessions@.take(i as int), wanted);
            proof {
                let done = self.sessions@.take(i + 1);
                assert(done.drop_last() =~= self.sessions@.take(i as int));
                assert(done.last() == self.sessions@[i as int]);
            }
            let s = &self.sessions[i];
            let picked = match selector {
                Some(sel) => matches_selector(s, sel),
                None => true,
            };
            if (all || s.info.visible) && picked {
                infos.push(s.info.clone());
                proof {
                    assert(infos@ =~= before.push(*s).map_values(|s: SessionEntry| s.info));
                }
            }
        }
        proof {
            assert(self.sessions@.take(self.sessions@.len() as int) =~= self.sessions@);
        }
        Response::ok(Payload::Sessions(infos))
    }

    /// The tag of a session.
    pub fn handle_tag_query(&self, selector: Option<&Selector>, ancestry: &[u32]) -> (r: Response)
        ensures
            r@ == self@.tag_query(
                match selector {
                    Some(s) => Some(*s),
                    None => None,
                },
                ancestry@,
            ),
    {
        match self.resolve_selector(selector, ancestry) {
            Ok(id) => match self.find_session(id.as_str()) {
                Some(i) => {
                    let info = &self.sessions[i].info;
                    Response::ok(
                        Payload::State(
                            SessionStateResponse {
                                id: info.id.clone(),
                                tag: info.tag.clone(),
                                visible: None,
                            },
                        ),
                    )
                },
                None => Response::err(ErrorCode::SessionNotFound, text("session not found")),
            },
            Err(code) => Response::err(code, code.to_string()),
        }
    }
}

// === What messages do ===

pub open spec fn respond(conn_id: u64, response: ResponseView) -> Seq<EffectView> {
    seq![EffectView::Respond { conn_id, response }]
}

/// Whether a request only asks for a tag.
pub open spec fn is_tag_query(request: Request) -> bool {
    request matches Request::Tag { new_tag, delete, .. } && new_tag is None && !delete
}

impl ServerView {
    /// A client waits for an answer, in place of one on the same connection.
    pub open spec fn add_client(self, entry: ClientEntry) -> ServerView {
        let n = first_index(self.clients, has_conn(entry.conn_id)) as int;
        ServerView {
            clients: if n < self.clients.len() {
                self.clients.update(n, entry)
            } else {
                self.clients.push(entry)
            },
            ..self
        }
    }

    /// A request goes to a session, and its client waits for the answer.
    pub open spec fn forward(
        self,
        conn_id: u64,
        target: int,
        source: int,
        request: Request,
    ) -> (ServerView, Seq<EffectView>) {
        let id = self.next_request_id;
        let to = self.sessions[target];
        let from = self.sessions[source].info;
        (
            ServerView { next_request_id: (id + 1) as u64, ..self }.add_client(
                ClientEntry {
                    conn_id,
                    session_id: to.info.id,
                    request_id: id,
                    update: update_of(request),
                },
            ),
            seq![
                EffectView::Command {
                    conn_id: to.conn_id,
                    command: SessionCommand::SendRequest(
                        SessionRequest {
                            id,
                            source_id: from.id,
                            source_tag: from.tag,
                            request,
                        },
                    ),
                },
            ],
        )
    }

    /// A request is answered, or goes to the session that it is for. Only a list is for
    /// everybody; all else is for clients that run in a session.
    pub open spec fn route(self, conn_id: u64, request: Request, ancestry: Seq<u32>) -> (
        ServerView,
        Seq<EffectView>,
    ) {
        match request {
            Request::List { selector, all } => (self, respond(conn_id, self.list(selector, all))),
            _ => match self.owner(ancestry) {
                None => (
                    self,
                    respond(
                        conn_id,
                        err_response(ErrorCode::AuthFailed, "not inside a tv session"@),
                    ),
                ),
                Some(source) => if is_tag_query(request) {
                    (self, respond(conn_id, self.tag_query(selector_of(request), ancestry)))
                } else {
                    match self.resolve(selector_of(request), ancestry) {
                        Err(code) => (
                            self,
                            respond(conn_id, err_response(code, error_text(code))),
                        ),
                        Ok(id) => self.forward(
                            conn_id,
                            first_index(self.sessions, has_id(id)) as int,
                            source,
                            request,
                        ),
                    }
                },
            },
        }
    }

    /// Requests are routed in order, each with the process ids of its client and its ancestors.
    pub open spec fn route_all(
        self,
        clients: Seq<DeferredClient>,
        ancestries: Seq<Vec<u32>>,
    ) -> (ServerView, Seq<EffectView>)
        decreases clients.len(),
    {
        if clients.len() == 0 {
            (self, Seq::empty())
        } else {
            let client = clients.last();
            let (before, effects) = self.route_all(clients.drop_last(), ancestries);
            let (after, more) = before.route(
                client.conn_id,
                client.request,
                ancestries[clients.len() - 1]@,
            );
            (after, effects + more)
        }
    }

    /// Sessions have had their time to reconnect: what was deferred is routed.
    pub open spec fn drain(self, ancestries: Seq<Vec<u32>>) -> (ServerView, Seq<EffectView>) {
        (ServerView { settling: None, deferred: Seq::empty(), ..self }).route_all(
            self.deferred,
            ancestries,
        )
    }

    /// Nothing is left. Sessions are closed, clients get no answer, and the server ends.
    pub open spec fn shutdown(self) -> (ServerView, Seq<EffectView>) {
        (
            ServerView {
                sessions: Seq::empty(),
                clients: Seq::empty(),
                conns: Map::empty(),
                settling: None,
                deferred: Seq::empty(),
                ..self
            },
            self.deferred.map_values(
                |d: DeferredClient| EffectView::Abandon { conn_id: d.conn_id },
            ) + self.sessions.map_values(
                |s: SessionEntry|
                    EffectView::Command { conn_id: s.conn_id, command: SessionCommand::Close },
            ) + self.clients.map_values(
                |c: ClientEntry| EffectView::Abandon { conn_id: c.conn_id },
            ) + seq![EffectView::Exit],
        )
    }

    /// A client asked for something. A stop is done at once; all else waits while sessions
    /// reconnect.
    pub open spec fn client_request(
        self,
        conn_id: u64,
        pid: u32,
        request: Request,
        ancestry: Seq<u32>,
    ) -> (ServerView, Seq<EffectView>) {
        if request is Stop {
            let (after, effects) = self.shutdown();
            (after, respond(conn_id, ok_empty_response()) + effects)
        } else if self.settling is Some {
            (
                ServerView {
                    deferred: self.deferred.push(DeferredClient { conn_id, pid, request }),
                    ..self
                },
                Seq::empty(),
            )
        } else {
            self.route(conn_id, request, ancestry)
        }
    }

    pub open spec fn set_info(self, i: int, info: SessionInfo) -> ServerView {
        ServerView {
            sessions: self.sessions.update(i, SessionEntry { info, ..self.sessions[i] }),
            ..self
        }
    }

    /// The cached info follows what a session has done.
    pub open spec fn update_cache(self, session_id: Seq<char>, update: CacheUpdate) -> ServerView {
        match self.session_at(session_id) {
            Some(i) => self.set_info(i, updated(self.sessions[i].info, update)),
            None => self,
        }
    }

    /// A session answered: the client that waits gets the answer.
    pub open spec fn session_response(
        self,
        conn_id: u64,
        request_id: u64,
        result: ResponseView,
    ) -> (ServerView, Seq<EffectView>) {
        let n = first_index(self.clients, has_request(request_id)) as int;
        if !self.conns.contains_key(conn_id) || n >= self.clients.len() {
            (self, Seq::empty())
        } else {
            let after = self.remove_client(n);
            (
                if result.ok {
                    after.update_cache(self.conns[conn_id]@, self.clients[n].update)
                } else {
                    after
                },
                respond(self.clients[n].conn_id, result),
            )
        }
    }

    /// A session told of its state.
    pub open spec fn session_status(self, conn_id: u64, update: StatusUpdate, now: u64) -> ServerView {
        if !self.conns.contains_key(conn_id) {
            self
        } else {
            match self.session_at(self.conns[conn_id]@) {
                Some(i) => self.set_info(
                    i,
                    SessionInfo {
                        cwd: update.cwd,
                        in_alt_screen: update.in_alt_screen,
                        last_activity: now,
                        ..self.sessions[i].info
                    },
                ),
                None => self,
            }
        }
    }

    /// A session is gone, and the clients that waited on it are told so.
    pub open spec fn drop_session(self, i: int) -> (ServerView, Seq<EffectView>) {
        let id = self.sessions[i].info.id@;
        (
            ServerView {
                sessions: self.sessions.remove(i),
                clients: kept(self.clients, waits_on_another(id)),
                ..self
            },
            failures(kept(self.clients, waits_on(id))),
        )
    }

    /// The connection of a session was lost. If the session is back on another one, it stays.
    pub open spec fn session_disconnect(self, conn_id: u64) -> (ServerView, Seq<EffectView>) {
        if !self.conns.contains_key(conn_id) {
            (self, Seq::empty())
        } else {
            let after = ServerView { conns: self.conns.remove(conn_id), ..self };
            match self.session_at(self.conns[conn_id]@) {
                Some(i) if self.sessions[i].conn_id == conn_id => after.drop_session(i),
                _ => (after, Seq::empty()),
            }
        }
    }

    /// The connection of a client was lost: the session is told to drop its request.
    pub open spec fn client_disconnect(self, conn_id: u64) -> (ServerView, Seq<EffectView>) {
        let n = first_index(self.clients, has_conn(conn_id)) as int;
        if n >= self.clients.len() {
            (self, Seq::empty())
        } else {
            let client = self.clients[n];
            (
                self.remove_client(n),
                match self.session_at(client.session_id@) {
                    Some(i) => seq![
                        EffectView::Command {
                            conn_id: self.sessions[i].conn_id,
                            command: SessionCommand::CancelRequest(client.request_id),
                        },
                    ],
                    None => Seq::empty(),
                },
            )
        }
    }

    pub open spec fn drop_deferred(self, conn_id: u64) -> ServerView {
        ServerView { deferred: kept(self.deferred, other_conn(conn_id)), ..self }
    }

    /// A connection was lost.
    pub open spec fn disconnect(self, conn_id: u64) -> (ServerView, Seq<EffectView>) {
        let (a, failed) = self.session_disconnect(conn_id);
        let (b, cancelled) = a.drop_deferred(conn_id).client_disconnect(conn_id);
        (b, failed + cancelled)
    }
}

// === The invariant is kept ===

proof fn lemma_session_there(v: ServerView, id: Seq<char>, i: int)
    requires
        0 <= i < v.sessions.len(),
        v.sessions[i].info.id@ == id,
    ensures
        v.session_at(id) is Some,
{
    lemma_first_index(v.sessions, has_id(id));
    assert(has_id(id)(v.sessions[i]));
}

proof fn lemma_session_at(v: ServerView, id: Seq<char>)
    ensures
        v.session_at(id) matches Some(i) ==> 0 <= i < v.sessions.len() && v.sessions[i].info.id@
            == id,
{
    lemma_first_index(v.sessions, has_id(id));
}

/// Sessions with the same ids as before keep every client's session in place.
proof fn lemma_clients_keep_sessions(before: ServerView, after: ServerView)
    requires
        before.wf(),
        after.clients == before.clients,
        forall|i: int|
            0 <= i < before.sessions.len() ==> exists|j: int|
                0 <= j < after.sessions.len() && (#[trigger] after.sessions[j]).info.id@ == (
                #[trigger] before.sessions[i]).info.id@,
    ensures
        forall|i: int|
            0 <= i < after.clients.len() ==> after.session_at(
                (#[trigger] after.clients[i]).session_id@,
            ) is Some,
{
    assert forall|i: int| 0 <= i < after.clients.len() implies after.session_at(
        (#[trigger] after.clients[i]).session_id@,
    ) is Some by {
        let id = before.clients[i].session_id@;
        lemma_session_at(before, id);
        let k = before.session_at(id)->0;
        assert(before.sessions[k].info.id@ == id);
        let j = choose|j: int|
            0 <= j < after.sessions.len() && (#[trigger] after.sessions[j]).info.id@
                == before.sessions[k].info.id@;
        lemma_session_there(after, id, j);
    }
}

proof fn lemma_set_info(v: ServerView, i: int, info: SessionInfo)
    requires
        v.wf(),
        0 <= i < v.sessions.len(),
        info.id@ == v.sessions[i].info.id@,
    ensures
        v.set_info(i, info).wf(),
{
    let after = v.set_info(i, info);
    assert forall|k: int| 0 <= k < v.sessions.len() implies exists|j: int|
        0 <= j < after.sessions.len() && (#[trigger] after.sessions[j]).info.id@ == (
        #[trigger] v.sessions[k]).info.id@ by {
        assert(after.sessions[k].info.id@ == v.sessions[k].info.id@);
    }
    lemma_clients_keep_sessions(v, after);
}

proof fn lemma_register(v: ServerView, conn_id: u64, info: SessionInfo, key: String)
    requires
        v.wf(),
    ensures
        v.register(conn_id, info, key).wf(),
{
    let after = v.register(conn_id, info, key);
    let id = info.id@;
    lemma_first_index(v.sessions, has_id(id));
    let n = first_index(v.sessions, has_id(id)) as int;
    assert forall|k: int| 0 <= k < v.sessions.len() implies exists|j: int|
        0 <= j < after.sessions.len() && (#[trigger] after.sessions[j]).info.id@ == (
        #[trigger] v.sessions[k]).info.id@ by {
        assert(after.sessions[k].info.id@ == v.sessions[k].info.id@);
    }
    lemma_clients_keep_sessions(v, after);
    if n == v.sessions.len() {
        assert forall|i: int, j: int| 0 <= i < j < after.sessions.len() implies (
        #[trigger] after.sessions[i]).info.id@ != (#[trigger] after.sessions[j]).info.id@ by {
            assert(after.sessions[i] == v.sessions[i]);
            if j == v.sessions.len() {
                assert(!has_id(id)(v.sessions[i]));
            }
        }
    }
}

proof fn lemma_add_client(v: ServerView, entry: ClientEntry)
    requires
        v.wf(),
        v.session_at(entry.session_id@) is Some,
        entry.request_id == v.next_request_id,
        v.next_request_id < u64::MAX,
    ensures
        (ServerView { next_request_id: (v.next_request_id + 1) as u64, ..v }).add_client(
            entry,
        ).wf(),
{
    let b = ServerView { next_request_id: (v.next_request_id + 1) as u64, ..v };
    let after = b.add_client(entry);
    lemma_first_index(v.clients, has_conn(entry.conn_id));
    let n = first_index(v.clients, has_conn(entry.conn_id)) as int;
    assert forall|i: int, j: int| 0 <= i < j < after.clients.len() implies (
    #[trigger] after.clients[i]).conn_id != (#[trigger] after.clients[j]).conn_id by {
        if i < v.clients.len() {
            assert(after.clients[i].conn_id == v.clients[i].conn_id);
        }
        if j < v.clients.len() {
            assert(after.clients[j].conn_id == v.clients[j].conn_id);
        } else {
            assert(!has_conn(entry.conn_id)(v.clients[i]));
        }
    }
    assert forall|i: int| 0 <= i < after.clients.len() implies after.session_at(
        (#[trigger] after.clients[i]).session_id@,
    ) is Some by {
        if after.clients[i] != entry {
            assert(after.clients[i] == v.clients[i]);
            assert(v.session_at(v.clients[i].session_id@) is Some);
        }
        assert(after.session_at(after.clients[i].session_id@) == v.session_at(
            after.clients[i].session_id@,
        ));
    }
}

proof fn lemma_remove_client(v: ServerView, i: int)
    requires
        v.wf(),
        0 <= i < v.clients.len(),
    ensures
        v.remove_client(i).wf(),
{
    let after = v.remove_client(i);
    assert forall|k: int| 0 <= k < after.clients.len() implies after.session_at(
        (#[trigger] after.clients[k]).session_id@,
    ) is Some by {
        let m = if k < i {
            k
        } else {
            k + 1
        };
        assert(after.clients[k] == v.clients[m]);
        assert(after.session_at(v.clients[m].session_id@) == v.session_at(
            v.clients[m].session_id@,
        ));
    }
}

proof fn lemma_drop_session(v: ServerView, i: int)
    requires
        v.wf(),
        0 <= i < v.sessions.len(),
    ensures
        v.drop_session(i).0.wf(),
{
    let after = v.drop_session(i).0;
    let id = v.sessions[i].info.id@;
    let wanted = waits_on_another(id);
    lemma_kept(v.clients, wanted);
    lemma_kept_no_duplicates(v.clients, wanted, |c: ClientEntry| c.conn_id);
    lemma_kept_no_duplicates(v.clients, wanted, |c: ClientEntry| c.request_id);
    assert forall|k: int| 0 <= k < after.clients.len() implies after.session_at(
        (#[trigger] after.clients[k]).session_id@,
    ) is Some && after.clients[k].request_id < after.next_request_id by {
        let c = after.clients[k];
        assert(wanted(kept(v.clients, wanted)[k]));
        let m = choose|m: int| 0 <= m < v.clients.len() && v.clients[m] == c;
        assert(v.session_at(v.clients[m].session_id@) is Some);
        lemma_session_at(v, c.session_id@);
        let j = v.session_at(c.session_id@)->0;
        assert(j != i);
        let moved = if j < i {
            j
        } else {
            j - 1
        };
        assert(after.sessions[moved] == v.sessions[j]);
        lemma_session_there(after, c.session_id@, moved);
    }
    assert forall|a: int, b: int| 0 <= a < b < after.clients.len() implies (
    #[trigger] after.clients[a]).conn_id != (#[trigger] after.clients[b]).conn_id by {
        let key = |c: ClientEntry| c.conn_id;
        assert(key(kept(v.clients, wanted)[a]) != key(kept(v.clients, wanted)[b]));
    }
    assert forall|a: int, b: int| 0 <= a < b < after.clients.len() implies (
    #[trigger] after.clients[a]).request_id != (#[trigger] after.clients[b]).request_id by {
        let key = |c: ClientEntry| c.request_id;
        assert(key(kept(v.clients, wanted)[a]) != key(kept(v.clients, wanted)[b]));
    }
}

proof fn lemma_resolved_is_there(v: ServerView, selector: Option<Selector>, ancestry: Seq<u32>)
    ensures
        v.resolve(selector, ancestry) matches Ok(id) ==> v.session_at(id) is Some,
        v.owner(ancestry) matches Some(i) ==> 0 <= i < v.sessions.len(),
{
    lemma_first_wanted(ancestry, listed(pids_of(v.sessions)));
    if let Some(i) = v.owner(ancestry) {
        let n = first_wanted(ancestry, listed(pids_of(v.sessions))) as int;
        let pid = ancestry[n];
        lemma_first_index(v.sessions, has_pid(pid));
        let k = choose|k: int|
            0 <= k < pids_of(v.sessions).len() && pids_of(v.sessions)[k] == pid;
        assert(has_pid(pid)(v.sessions[k]));
        lemma_session_there(v, v.sessions[i].info.id@, i);
    }
    if let Some(sel) = selector {
        let found = kept(v.sessions, selects(sel));
        lemma_kept(v.sessions, selects(sel));
        if found.len() == 1 {
            assert(v.sessions.contains(found[0]));
            let k = choose|k: int| 0 <= k < v.sessions.len() && v.sessions[k] == found[0];
            lemma_session_there(v, found[0].info.id@, k);
        }
    }
}

// === Messages ===

fn effect(e: Effect) -> (r: Vec<Effect>)
    ensures
        effect_views(r@) == seq![e@],
{
    let mut r: Vec<Effect> = Vec::new();
    r.push(e);
    proof {
        assert(effect_views(r@) =~= seq![e@]);
    }
    r
}

fn no_effects() -> (r: Vec<Effect>)
    ensures
        effect_views(r@) == Seq::<EffectView>::empty(),
{
    let r: Vec<Effect> = Vec::new();
    proof {
        assert(effect_views(r@) =~= Seq::<EffectView>::empty());
    }
    r
}

fn push_effect(effects: &mut Vec<Effect>, e: Effect)
    ensures
        effect_views(final(effects)@) == effect_views(old(effects)@).push(e@),
{
    let ghost before = effect_views(effects@);
    effects.push(e);
    proof {
        assert(effect_views(effects@) =~= before.push(e@));
    }
}

fn append_effects(a: Vec<Effect>, b: Vec<Effect>) -> (r: Vec<Effect>)
    ensures
        effect_views(r@) == effect_views(a@) + effect_views(b@),
{
    let mut r = a;
    let mut b = b;
    let ghost x = effect_views(r@);
    let ghost y = effect_views(b@);
    r.append(&mut b);
    proof {
        assert(effect_views(r@) =~= x + y);
    }
    r
}

impl ServerState {
    /// A session is ready.
    pub fn register_session(
        &mut self,
        conn_id: u64,
        id: String,
        pid: u32,
        tag: Option<String>,
        visible: bool,
        now: u64,
    )
        requires
            old(self).wf(),
        ensures
            final(self).wf(),
            final(self)@ == old(self)@.register(
                conn_id,
                SessionInfo {
                    id,
                    tag,
                    pid,
                    visible,
                    cwd: None,
                    in_alt_screen: false,
                    created_at: now,
                    last_activity: now,
                },
                id,
            ),
    {
        let key = id.clone();
        let info = SessionInfo::new_at(id, pid, tag, visible, now);
        proof {
            lemma_register(self@, conn_id, info, key);
        }
        let place = self.find_session(info.id.as_str());
        let entry = SessionEntry { conn_id, info };
        match place {
            Some(i) => {
                self.sessions[i] = entry;
            },
            None => {
                self.sessions.push(entry);
            },
        }
        self.conn_to_session.insert(conn_id, key);
    }

    fn find_client(&self, conn_id: u64) -> (n: usize)
        ensures
            n == first_index(self@.clients, has_conn(conn_id)),
            n <= self@.clients.len(),
    {
        for i in 0..self.clients.len()
            invariant
                forall|j: int| 0 <= j < i ==> !has_conn(conn_id)(#[trigger] self.clients@[j]),
        {
            if self.clients[i].conn_id == conn_id {
                proof {
                    lemma_is_first_index(self.clients@, has_conn(conn_id), i as int);
                }
                return i;
            }
        }
        proof {
            lemma_is_first_index(self.clients@, has_conn(conn_id), self.clients@.len() as int);
        }
        self.clients.len()
    }

    fn find_request(&self, request_id: u64) -> (n: usize)
        ensures
            n == first_index(self@.clients, has_request(request_id)),
            n <= self@.clients.len(),
    {
        for i in 0..self.clients.len()
            invariant
                forall|j: int| 0 <= j < i ==> !has_request(request_id)(#[trigger] self.clients@[j]),
        {
            if self.clients[i].request_id == request_id {
                proof {
                    lemma_is_first_index(self.clients@, has_request(request_id), i as int);
                }
                return i;
            }
        }
        proof {
            lemma_is_first_index(
                self.clients@,
                has_request(request_id),
                self.clients@.len() as int,
            );
        }
        self.clients.len()
    }

    /// Forward a request immediately to the session. Session handles all queuing.
    fn forward_request(&mut self, conn_id: u64, target: usize, source: usize, request: Request) -> (r:
        Vec<Effect>)
        requires
            old(self).wf(),
            old(self)@.next_request_id < u64::MAX,
            target < old(self)@.sessions.len(),
            source < old(self)@.sessions.len(),
        ensures
            final(self).wf(),
            (final(self)@, effect_views(r@)) == old(self)@.forward(
                conn_id,
                target as int,
                source as int,
                request,
            ),
    {
        let ghost before = self@;
        let request_id = self.next_request_id;
        let session_id = self.sessions[target].info.id.clone();
        let entry = ClientEntry { conn_id, session_id, request_id, update: cache_update(&request) };
        proof {
            lemma_session_there(before, session_id@, target as int);
            lemma_add_client(before, entry);
        }
        let n = self.find_client(conn_id);
        self.next_request_id = request_id + 1;
        if n < self.clients.len() {
            self.clients[n] = entry;
        } else {
            self.clients.push(entry);
        }
        let req = SessionRequest {
            id: request_id,
            source_id: self.sessions[source].info.id.clone(),
            source_tag: self.sessions[source].info.tag.clone(),
            request,
        };
        effect(
            Effect::Command {
                conn_id: self.sessions[target].conn_id,
                command: SessionCommand::SendRequest(req),
            },
        )
    }

    /// Route an authenticated client request. `ancestry` holds the process ids of the client and
    /// its ancestors: a client can only act from within a session that it descends from.
    pub fn route_client_request(&mut self, conn_id: u64, request: Request, ancestry: &[u32]) -> (r:
        Vec<Effect>)
        requires
            old(self).wf(),
            old(self)@.next_request_id < u64::MAX,
        ensures
            final(self).wf(),
            (final(self)@, effect_views(r@)) == old(self)@.route(conn_id, request, ancestry@),
    {
        // List is exempt from auth: it's a global query, not session-specific
        if let Request::List { selector, all } = &request {
            let response = self.handle_list(selector.as_ref(), *all);
            return effect(Effect::Respond { conn_id, response });
        }
        let source = match self.find_owner(ancestry) {
            Some(i) => i,
            None => {
                let response = Response::err(
                    ErrorCode::AuthFailed,
                    text("not inside a tv session"),
                );
                return effect(Effect::Respond { conn_id, response });
            },
        };
        let query = match &request {
            Request::Tag { new_tag, delete, .. } => new_tag.is_none() && !*delete,
            _ => false,
        };
        let selector = extract_selector(&request);
        if query {
            let response = self.handle_tag_query(selector, ancestry);
            return effect(Effect::Respond { conn_id, response });
        }
        proof {
            lemma_resolved_is_there(self@, selector_of(request), ancestry@);
        }
        let resolved = self.resolve_selector(selector, ancestry);
        match resolved {
            Ok(id) => match self.find_session(id.as_str()) {
                Some(target) => self.forward_request(conn_id, target, source, request),
                None => no_effects(),
            },
            Err(code) => {
                let response = Response::err(code, code.to_string());
                effect(Effect::Respond { conn_id, response })
            },
        }
    }

    /// A client asked for something.
    pub fn handle_client_request(
        &mut self,
        conn_id: u64,
        pid: u32,
        request: Request,
        ancestry: &[u32],
    ) -> (r: Vec<Effect>)
        requires
            old(self).wf(),
            old(self)@.next_request_id < u64::MAX,
        ensures
            final(self).wf(),
            (final(self)@, effect_views(r@)) == old(self)@.client_request(
                conn_id,
                pid,
                request,
                ancestry@,
            ),
    {
        // Stop is always handled immediately: daemon management command
        if matches!(request, Request::Stop) {
            let answer = effect(Effect::Respond { conn_id, response: Response::ok_empty() });
            let closing = self.shutdown();
            return append_effects(answer, closing);
        }
        // During settling, defer all requests until sessions have reconnected
        if self.settling_deadline.is_some() {
            self.deferred.push(DeferredClient { conn_id, pid, request });
            proof {
                lemma_same_clients(old(self)@, self@);
            }
            return no_effects();
        }
        self.route_client_request(conn_id, request, ancestry)
    }

    /// The process ids of the clients whose requests are deferred.
    pub fn deferred_pids(&self) -> (r: Vec<u32>)
        ensures
            r@ == self@.deferred.map_values(|d: DeferredClient| d.pid),
    {
        let mut pids: Vec<u32> = Vec::new();
        for i in 0..self.deferred.len()
            invariant
                pids@ == self.deferred@.map_values(|d: DeferredClient| d.pid).take(i as int),
        {
            pids.push(self.deferred[i].pid);
            proof {
                let all = self.deferred@.map_values(|d: DeferredClient| d.pid);
                assert(pids@ =~= all.take(i + 1));
            }
        }
        proof {
            let all = self.deferred@.map_values(|d: DeferredClient| d.pid);
            assert(all.take(all.len() as int) =~= all);
        }
        pids
    }

    /// Process all deferred client requests. Called when the settling window expires, with the
    /// process ids of each client and its ancestors.
    pub fn drain_deferred(&mut self, ancestries: &Vec<Vec<u32>>) -> (r: Vec<Effect>)
        requires
            old(self).wf(),
            ancestries@.len() == old(self)@.deferred.len(),
            old(self)@.next_request_id + old(self)@.deferred.len() <= u64::MAX,
        ensures
            final(self).wf(),
            (final(self)@, effect_views(r@)) == old(self)@.drain(ancestries@),
    {
        let ghost start = self@;
        let ghost all = self.deferred@;
        self.settling_deadline = None;
        let mut deferred: Vec<DeferredClient> = Vec::new();
        std::mem::swap(&mut deferred, &mut self.deferred);
        let ghost before = self@;
        proof {
            assert(before == (ServerView { settling: None, deferred: Seq::empty(), ..start }));
            lemma_same_clients(start, before);
        }
        let mut effects = no_effects();
        let n = ancestries.len();
        let mut i: usize = 0;
        for client in it: deferred
            invariant
                self.wf(),
                n == all.len(),
                it.seq() == all,
                i == it.index(),
                ancestries@.len() == all.len(),
                before.next_request_id + all.len() <= u64::MAX,
                self@.next_request_id <= before.next_request_id + i,
                (self@, effect_views(effects@)) == before.route_all(all.take(i as int), ancestries@),
        {
            proof {
                assert(client == all[i as int]);
                assert(all.take(i + 1).drop_last() =~= all.take(i as int));
                assert(all.take(i + 1).last() == client);
            }
            let more = self.route_client_request(
                client.conn_id,
                client.request,
                ancestries[i].as_slice(),
            );
            effects = append_effects(effects, more);
            i = i + 1;
        }
        proof {
            assert(all.take(all.len() as int) =~= all);
        }
        effects
    }

    fn update_cache_from_request(&mut self, session_id: &str, update: CacheUpdate)
        requires
            old(self).wf(),
        ensures
            final(self).wf(),
            final(self)@ == old(self)@.update_cache(session_id@, update),
    {
        if let Some(i) = self.find_session(session_id) {
            proof {
                lemma_set_info(self@, i as int, updated(self.sessions@[i as int].info, update));
            }
            let ghost before = self.sessions@;
            let entry = &mut self.sessions[i];
            match update {
                CacheUpdate::Nothing => {},
                CacheUpdate::Visible(visible) => {
                    entry.info.visible = visible;
                },
                CacheUpdate::Tag(tag) => {
                    entry.info.tag = tag;
                },
            }
            proof {
                assert(self.sessions@ =~= old(self)@.update_cache(session_id@, update).sessions);
            }
        }
    }

    /// Handle response from session: find client and relay.
    pub fn handle_session_response(&mut self, conn_id: u64, request_id: u64, result: Response) -> (r:
        Vec<Effect>)
        requires
            old(self).wf(),
        ensures
            final(self).wf(),
            (final(self)@, effect_views(r@)) == old(self)@.session_response(
                conn_id,
                request_id,
                result@,
            ),
    {
        let session_id = match self.conn_to_session.get(&conn_id) {
            Some(id) => id.clone(),
            None => {
                return no_effects();
            },
        };
        let n = self.find_request(request_id);
        if n == self.clients.len() {
            return no_effects();
        }
        proof {
            lemma_remove_client(self@, n as int);
        }
        let client = self.clients.remove(n);
        let to = client.conn_id;
        if result.ok {
            self.update_cache_from_request(session_id.as_str(), client.update);
        }
        effect(Effect::Respond { conn_id: to, response: result })
    }

    /// A session told of its state.
    pub fn handle_session_status(&mut self, conn_id: u64, update: &StatusUpdate, now: u64)
        requires
            old(self).wf(),
        ensures
            final(self).wf(),
            final(self)@ == old(self)@.session_status(conn_id, *update, now),
    {
        let session_id = match self.conn_to_session.get(&conn_id) {
            Some(id) => id.clone(),
            None => {
                return;
            },
        };
        if let Some(i) = self.find_session(session_id.as_str()) {
            let ghost info = SessionInfo {
                cwd: update.cwd,
                in_alt_screen: update.in_alt_screen,
                last_activity: now,
                ..self.sessions@[i as int].info
            };
            proof {
                lemma_set_info(self@, i as int, info);
            }
            let entry = &mut self.sessions[i];
            entry.info.update_status_at(update, now);
            proof {
                assert(self.sessions@ =~= old(self)@.session_status(
                    conn_id,
                    *update,
                    now,
                ).sessions);
            }
        }
    }

    fn drop_session(&mut self, i: usize) -> (r: Vec<Effect>)
        requires
            old(self).wf(),
            i < old(self)@.sessions.len(),
        ensures
            final(self).wf(),
            (final(self)@, effect_views(r@)) == old(self)@.drop_session(i as int),
    {
        proof {
            lemma_drop_session(self@, i as int);
        }
        let gone = self.sessions.remove(i);
        let ghost id = gone.info.id@;
        let ghost all = self.clients@;
        let mut waiting: Vec<ClientEntry> = Vec::new();
        std::mem::swap(&mut waiting, &mut self.clients);
        let mut effects = no_effects();
        let mut left: Vec<ClientEntry> = Vec::new();
        proof {
            assert(effect_views(effects@) =~= failures(kept(all.take(0), waits_on(id))));
        }
        for client in it: waiting
            invariant
                id == gone.info.id@,
                it.seq() == all,
                left@ == kept(all.take(it.index()), waits_on_another(id)),
                effect_views(effects@) == failures(kept(all.take(it.index()), waits_on(id))),
        {
            let ghost before = kept(all.take(it.index()), waits_on(id));
            proof {
                assert(client == all[it.index()]);
                assert(all.take(it.index() + 1).drop_last() =~= all.take(it.index()));
                assert(all.take(it.index() + 1).last() == client);
            }
            if client.session_id.as_str().eq(gone.info.id.as_str()) {
                push_effect(
                    &mut effects,
                    Effect::Respond {
                        conn_id: client.conn_id,
                        response: Response::err(ErrorCode::Internal, text("session disconnected")),
                    },
                );
                proof {
                    assert(effect_views(effects@) =~= failures(before.push(client)));
                }
            } else {
                left.push(client);
            }
        }
        proof {
            assert(all.take(all.len() as int) =~= all);
        }
        self.clients = left;
        effects
    }

    fn session_disconnect(&mut self, conn_id: u64) -> (r: Vec<Effect>)
        requires
            old(self).wf(),
        ensures
            final(self).wf(),
            (final(self)@, effect_views(r@)) == old(self)@.session_disconnect(conn_id),
    {
        let session_id = match self.conn_to_session.remove(&conn_id) {
            Some(id) => id,
            None => {
                proof {
                    assert(self@ =~= old(self)@);
                }
                return no_effects();
            },
        };
        proof {
            lemma_same_clients(old(self)@, self@);
        }
        match self.find_session(session_id.as_str()) {
            Some(i) => if self.sessions[i].conn_id == conn_id {
                self.drop_session(i)
            } else {
                no_effects()
            },
            None => no_effects(),
        }
    }

    fn drop_deferred(&mut self, conn_id: u64)
        requires
            old(self).wf(),
        ensures
            final(self).wf(),
            final(self)@ == old(self)@.drop_deferred(conn_id),
    {
        let ghost all = self.deferred@;
        let mut waiting: Vec<DeferredClient> = Vec::new();
        std::mem::swap(&mut waiting, &mut self.deferred);
        let mut left: Vec<DeferredClient> = Vec::new();
        proof {
            lemma_kept(all, other_conn(conn_id));
        }
        for client in it: waiting
            invariant
                it.seq() == all,
                left@ == kept(all.take(it.index()), other_conn(conn_id)),
        {
            proof {
                assert(client == all[it.index()]);
                assert(all.take(it.index() + 1).drop_last() =~= all.take(it.index()));
                assert(all.take(it.index() + 1).last() == client);
            }
            if client.conn_id != conn_id {
                left.push(client);
            }
        }
        proof {
            assert(all.take(all.len() as int) =~= all);
        }
        self.deferred = left;
        proof {
            lemma_same_clients(old(self)@, self@);
        }
    }

    fn client_disconnect(&mut self, conn_id: u64) -> (r: Vec<Effect>)
        requires
            old(self).wf(),
        ensures
            final(self).wf(),
            (final(self)@, effect_views(r@)) == old(self)@.client_disconnect(conn_id),
    {
        let n = self.find_client(conn_id);
        if n == self.clients.len() {
            return no_effects();
        }
        proof {
            lemma_remove_client(self@, n as int);
        }
        let client = self.clients.remove(n);
        match self.find_session(client.session_id.as_str()) {
            Some(i) => effect(
                Effect::Command {
                    conn_id: self.sessions[i].conn_id,
                    command: SessionCommand::CancelRequest(client.request_id),
                },
            ),
            None => no_effects(),
        }
    }

    /// A connection was lost.
    pub fn handle_disconnect(&mut self, conn_id: u64) -> (r: Vec<Effect>)
        requires
            old(self).wf(),
        ensures
            final(self).wf(),
            (final(self)@, effect_views(r@)) == old(self)@.disconnect(conn_id),
    {
        let failed = self.session_disconnect(conn_id);
        self.drop_deferred(conn_id);
        let cancelled = self.client_disconnect(conn_id);
        append_effects(failed, cancelled)
    }

    /// Close all sessions, leave all clients without an answer, and end.
    pub fn shutdown(&mut self) -> (r: Vec<Effect>)
        requires
            old(self).wf(),
        ensures
            final(self).wf(),
            (final(self)@, effect_views(r@)) == old(self)@.shutdown(),
    {
        let mut deferred = no_effects();
        for i in 0..self.deferred.len()
            invariant
                effect_views(deferred@) == self.deferred@.take(i as int).map_values(
                    |d: DeferredClient| EffectView::Abandon { conn_id: d.conn_id },
                ),
        {
            push_effect(&mut deferred, Effect::Abandon { conn_id: self.deferred[i].conn_id });
            proof {
                assert(effect_views(deferred@) =~= self.deferred@.take(i + 1).map_values(
                    |d: DeferredClient| EffectView::Abandon { conn_id: d.conn_id },
                ));
            }
        }
        let mut closed = no_effects();
        for i in 0..self.sessions.len()
            invariant
                effect_views(closed@) == self.sessions@.take(i as int).map_values(
                    |s: SessionEntry|
                        EffectView::Command { conn_id: s.conn_id, command: SessionCommand::Close },
                ),
        {
            push_effect(
                &mut closed,
                Effect::Command {
                    conn_id: self.sessions[i].conn_id,
                    command: SessionCommand::Close,
                },
            );
            proof {
                assert(effect_views(closed@) =~= self.sessions@.take(i + 1).map_values(
                    |s: SessionEntry|
                        EffectView::Command { conn_id: s.conn_id, command: SessionCommand::Close },
                ));
            }
        }
        let mut abandoned = no_effects();
        for i in 0..self.clients.len()
            invariant
                effect_views(abandoned@) == self.clients@.take(i as int).map_values(
                    |c: ClientEntry| EffectView::Abandon { conn_id: c.conn_id },
                ),
        {
            push_effect(&mut abandoned, Effect::Abandon { conn_id: self.clients[i].conn_id });
            proof {
                assert(effect_views(abandoned@) =~= self.clients@.take(i + 1).map_values(
                    |c: ClientEntry| EffectView::Abandon { conn_id: c.conn_id },
                ));
            }
        }
        proof {
            assert(self.deferred@.take(self.deferred@.len() as int) =~= self.deferred@);
            assert(self.sessions@.take(self.sessions@.len() as int) =~= self.sessions@);
            assert(self.clients@.take(self.clients@.len() as int) =~= self.clients@);
        }
        self.deferred.clear();
        self.settling_deadline = None;
        self.sessions.clear();
        self.conn_to_session.clear();
        self.clients.clear();
        let effects = append_effects(deferred, closed);
        let effects = append_effects(effects, abandoned);
        append_effects(effects, effect(Effect::Exit))
    }
}

impl ServerState {
    /// Handle a message. `ancestry` holds the process ids of a client and its ancestors, `now` is
    /// the time in seconds since the epoch.
    pub fn handle_message(&mut self, msg: ServerMessage, ancestry: &[u32], now: u64) -> (r: Vec<
        Effect,
    >)
        requires
            old(self).wf(),
            old(self)@.next_request_id < u64::MAX,
        ensures
            final(self).wf(),
            match msg {
                ServerMessage::ClientReady { conn_id, pid, request } => (
                    final(self)@,
                    effect_views(r@),
                ) == old(self)@.client_request(conn_id, pid, request, ancestry@),
                ServerMessage::SessionReady { conn_id, id, pid, tag, visible } => {
                    &&& effect_views(r@) == Seq::<EffectView>::empty()
                    &&& final(self)@ == old(self)@.register(
                        conn_id,
                        SessionInfo {
                            id,
                            tag,
                            pid,
                            visible,
                            cwd: None,
                            in_alt_screen: false,
                            created_at: now,
                            last_activity: now,
                        },
                        id,
                    )
                },
                ServerMessage::SessionResponse { conn_id, request_id, result } => (
                    final(self)@,
                    effect_views(r@),
                ) == old(self)@.session_response(conn_id, request_id, result@),
                ServerMessage::SessionStatus { conn_id, update } => {
                    &&& effect_views(r@) == Seq::<EffectView>::empty()
                    &&& final(self)@ == old(self)@.session_status(conn_id, update, now)
                },
                ServerMessage::Disconnected { conn_id } => (
                    final(self)@,
                    effect_views(r@),
                ) == old(self)@.disconnect(conn_id),
            },
    {
        match msg {
            ServerMessage::ClientReady { conn_id, pid, request } => {
                self.handle_client_request(conn_id, pid, request, ancestry)
            },
            ServerMessage::SessionReady { conn_id, id, pid, tag, visible } => {
                self.register_session(conn_id, id, pid, tag, visible, now);
                no_effects()
            },
            ServerMessage::SessionResponse { conn_id, request_id, result } => {
                self.handle_session_response(conn_id, request_id, result)
            },
            ServerMessage::SessionStatus { conn_id, update } => {
                self.handle_session_status(conn_id, &update, now);
                no_effects()
            },
            ServerMessage::Disconnected { conn_id } => self.handle_disconnect(conn_id),
        }
    }
}

proof fn lemma_same_clients(before: ServerView, after: ServerView)
    requires
        before.wf(),
        after.sessions == before.sessions,
        after.clients == before.clients,
        after.next_request_id == before.next_request_id,
        after.deferred.len() > 0 ==> after.settling is Some,
    ensures
        after.wf(),
{
    assert forall|i: int| 0 <= i < after.clients.len() implies after.session_at(
        (#[trigger] after.clients[i]).session_id@,
    ) is Some by {
        let id = before.clients[i].session_id@;
        assert(before.session_at(id) is Some);
        assert(after.session_at(id) == before.session_at(id));
    }
}

// === Session ids ===

/// A hexadecimal digit.
pub open spec fn hex_char(n: nat) -> char {
    if n < 10 {
        (48 + n) as char
    } else {
        (87 + n) as char
    }
}

/// The id that four bytes make: the lower half of each as a hexadecimal digit.
pub open spec fn id_of_bytes(a: u8, b: u8, c: u8, d: u8) -> Seq<char> {
    seq![
        hex_char((a % 16) as nat),
        hex_char((b % 16) as nat),
        hex_char((c % 16) as nat),
        hex_char((d % 16) as nat),
    ]
}

/// How many ids of four hexadecimal digits there are.
pub const ID_COUNT: u32 = 65_536;

/// The id that a number below `ID_COUNT` is in hexadecimal digits.
pub open spec fn id_of_number(n: int) -> Seq<char> {
    id_of_bytes(
        (n / 4096 % 16) as u8,
        (n / 256 % 16) as u8,
        (n / 16 % 16) as u8,
        (n % 16) as u8,
    )
}

/// Every id is that of a number.
proof fn lemma_number_of_id(a: u8, b: u8, c: u8, d: u8)
    ensures
        exists|m: int| 0 <= m < ID_COUNT && #[trigger] id_of_number(m) == id_of_bytes(a, b, c, d),
{
    let w = (a % 16) as int;
    let x = (b % 16) as int;
    let y = (c % 16) as int;
    let z = (d % 16) as int;
    let m = w * 4096 + x * 256 + y * 16 + z;
    assert(m / 4096 == w);
    assert(m / 256 == w * 16 + x);
    assert(m / 16 == w * 256 + x * 16 + y);
    assert(m / 256 % 16 == x);
    assert(m / 16 % 16 == y);
    assert(m % 16 == z);
    assert(id_of_number(m) =~= id_of_bytes(a, b, c, d));
}

fn hex_digit(b: u8) -> (c: char)
    ensures
        c == hex_char((b % 16) as nat),
{
    let n: u8 = b % 16;
    if n < 10 {
        (48 + n) as char
    } else {
        (87 + n) as char
    }
}

/// A random byte from `rand::rng`. Nothing is claimed of it.
#[verifier::external_body]
fn random_byte() -> u8 {
    rand::Rng::random::<u8>(&mut rand::rng())
}

impl ServerState {
    /// The id that four bytes make, if no session has it.
    pub fn pick_session_id(&self, a: u8, b: u8, c: u8, d: u8) -> (r: Option<String>)
        ensures
            match r {
                Some(id) => id@ == id_of_bytes(a, b, c, d) && self@.session_at(id@) is None,
                None => self@.session_at(id_of_bytes(a, b, c, d)) is Some,
            },
    {
        let mut id = String::new();
        id.push(hex_digit(a));
        id.push(hex_digit(b));
        id.push(hex_digit(c));
        id.push(hex_digit(d));
        proof {
            assert(id@ =~= id_of_bytes(a, b, c, d));
        }
        if self.find_session(id.as_str()).is_some() {
            None
        } else {
            Some(id)
        }
    }

    /// A random id that no session has: ids are drawn until one is free. After as many draws as
    /// there are ids the first free one is taken. There is none only if all ids are taken.
    pub fn generate_session_id(&self) -> (r: Option<String>)
        ensures
            match r {
                Some(id) => is_id(id@) && id@.len() == 4 && self@.session_at(id@) is None,
                None => forall|a: u8, b: u8, c: u8, d: u8|
                    self@.session_at(#[trigger] id_of_bytes(a, b, c, d)) is Some,
            },
    {
        for _i in 0..ID_COUNT {
            let a = random_byte();
            let b = random_byte();
            let c = random_byte();
            let d = random_byte();
            if let Some(id) = self.pick_session_id(a, b, c, d) {
                return Some(id);
            }
        }
        self.first_free_id()
    }

    fn first_free_id(&self) -> (r: Option<String>)
        ensures
            match r {
                Some(id) => is_id(id@) && id@.len() == 4 && self@.session_at(id@) is None,
                None => forall|a: u8, b: u8, c: u8, d: u8|
                    self@.session_at(#[trigger] id_of_bytes(a, b, c, d)) is Some,
            },
    {
        for n in 0..ID_COUNT
            invariant
                forall|m: int| 0 <= m < n ==> self@.session_at(#[trigger] id_of_number(m)) is Some,
        {
            let a = (n / 4096 % 16) as u8;
            let b = (n / 256 % 16) as u8;
            let c = (n / 16 % 16) as u8;
            let d = (n % 16) as u8;
            if let Some(id) = self.pick_session_id(a, b, c, d) {
                return Some(id);
            }
        }
        proof {
            assert forall|a: u8, b: u8, c: u8, d: u8|
                self@.session_at(#[trigger] id_of_bytes(a, b, c, d)) is Some by {
                lemma_number_of_id(a, b, c, d);
            }
        }
        None
    }
}

// === Laws ===

/// A client that does not run in a session is told so, unless it asks for a list: nothing is
/// forwarded and nothing changes.
pub proof fn law_strangers_are_refused(
    v: ServerView,
    conn_id: u64,
    request: Request,
    ancestry: Seq<u32>,
)
    requires
        v.owner(ancestry) is None,
        !(request is List),
    ensures
        v.route(conn_id, request, ancestry) == (
            v,
            respond(conn_id, err_response(ErrorCode::AuthFailed, "not inside a tv session"@)),
        ),
{
}

/// A hidden session is not listed unless all are asked for, and a listed one is there and, if a
/// selector is given, picked by it.
pub proof fn law_listed_sessions(v: ServerView, selector: Option<Selector>, all: bool, i: int)
    requires
        0 <= i < kept(v.sessions, is_listed(selector, all)).len(),
    ensures
        ({
            let s = kept(v.sessions, is_listed(selector, all))[i];
            &&& v.sessions.contains(s)
            &&& all || s.info.visible
            &&& selector matches Some(sel) ==> selects(sel)(s)
        }),
{
    lemma_kept(v.sessions, is_listed(selector, all));
    assert(is_listed(selector, all)(kept(v.sessions, is_listed(selector, all))[i]));
}

/// What a session answers goes to the client that asked, and to it alone: a request that was
/// forwarded is answered on the connection that it came from, and nobody waits for it any more.
pub proof fn law_answers_reach_who_asked(
    v: ServerView,
    conn_id: u64,
    target: int,
    source: int,
    request: Request,
    session_conn: u64,
    result: ResponseView,
)
    requires
        v.wf(),
        v.next_request_id < u64::MAX,
        0 <= target < v.sessions.len(),
        0 <= source < v.sessions.len(),
        v.conns.contains_key(session_conn),
    ensures
        ({
            let id = v.next_request_id;
            let forwarded = v.forward(conn_id, target, source, request).0;
            let (after, effects) = forwarded.session_response(session_conn, id, result);
            &&& effects == respond(conn_id, result)
            &&& first_index(after.clients, has_request(id)) == after.clients.len()
        }),
{
    let id = v.next_request_id;
    let forwarded = v.forward(conn_id, target, source, request).0;
    let n = first_index(v.clients, has_conn(conn_id)) as int;
    lemma_first_index(v.clients, has_conn(conn_id));
    assert forall|i: int| 0 <= i < forwarded.clients.len() && i != n implies !has_request(id)(
        #[trigger] forwarded.clients[i],
    ) by {
        assert(forwarded.clients[i] == v.clients[i]);
    }
    assert(has_request(id)(forwarded.clients[n]));
    lemma_is_first_index(forwarded.clients, has_request(id), n);
    let after = forwarded.session_response(session_conn, id, result).0;
    assert(after.clients == forwarded.clients.remove(n));
    assert forall|i: int| 0 <= i < after.clients.len() implies !has_request(id)(
        #[trigger] after.clients[i],
    ) by {
        let j = if i < n {
            i
        } else {
            i + 1
        };
        assert(after.clients[i] == forwarded.clients[j]);
    }
    lemma_is_first_index(after.clients, has_request(id), after.clients.len() as int);
}

/// A client that goes away before it is answered has its request cancelled: the session that it
/// went to is told, and nobody waits for it any more.
pub proof fn law_a_lost_client_cancels_its_request(
    v: ServerView,
    conn_id: u64,
    target: int,
    source: int,
    request: Request,
)
    requires
        v.wf(),
        v.next_request_id < u64::MAX,
        0 <= target < v.sessions.len(),
        0 <= source < v.sessions.len(),
    ensures
        ({
            let forwarded = v.forward(conn_id, target, source, request).0;
            let (after, effects) = forwarded.client_disconnect(conn_id);
            &&& effects == seq![
                EffectView::Command {
                    conn_id: v.sessions[target].conn_id,
                    command: SessionCommand::CancelRequest(v.next_request_id),
                },
            ]
            &&& first_index(after.clients, has_conn(conn_id)) == after.clients.len()
        }),
{
    let forwarded = v.forward(conn_id, target, source, request).0;
    let n = first_index(v.clients, has_conn(conn_id)) as int;
    lemma_first_index(v.clients, has_conn(conn_id));
    let id = v.sessions[target].info.id@;
    assert forall|i: int| 0 <= i < n implies !has_conn(conn_id)(
        #[trigger] forwarded.clients[i],
    ) by {
        assert(forwarded.clients[i] == v.clients[i]);
    }
    assert(has_conn(conn_id)(forwarded.clients[n]));
    lemma_is_first_index(forwarded.clients, has_conn(conn_id), n);
    assert forall|i: int| 0 <= i < target implies !has_id(id)(#[trigger] v.sessions[i]) by {}
    lemma_is_first_index(v.sessions, has_id(id), target);
    let after = forwarded.client_disconnect(conn_id).0;
    assert forall|i: int| 0 <= i < after.clients.len() implies !has_conn(conn_id)(
        #[trigger] after.clients[i],
    ) by {
        let j = if i < n {
            i
        } else {
            i + 1
        };
        assert(after.clients[i] == forwarded.clients[j]);
        assert(forwarded.clients[j] == v.clients[j]);
        if n < v.clients.len() {
            assert(v.clients[n].conn_id == conn_id);
        }
    }
    lemma_is_first_index(after.clients, has_conn(conn_id), after.clients.len() as int);
}

/// A session that is lost is gone, and every client that waited on it is told so.
pub proof fn law_a_lost_session_fails_its_clients(v: ServerView, conn_id: u64, i: int, c: int)
    requires
        v.wf(),
        v.conns.contains_key(conn_id),
        v.session_at(v.conns[conn_id]@) == Some(i),
        v.sessions[i].conn_id == conn_id,
        0 <= c < v.clients.len(),
        v.clients[c].session_id@ == v.conns[conn_id]@,
    ensures
        ({
            let (after, effects) = v.session_disconnect(conn_id);
            &&& after.session_at(v.conns[conn_id]@) is None
            &&& effects.contains(
                EffectView::Respond {
                    conn_id: v.clients[c].conn_id,
                    response: err_response(ErrorCode::Internal, "session disconnected"@),
                },
            )
        }),
{
    let id = v.conns[conn_id]@;
    lemma_session_at(v, id);
    let after = v.session_disconnect(conn_id).0;
    let effects = v.session_disconnect(conn_id).1;
    assert forall|k: int| 0 <= k < after.sessions.len() implies !has_id(id)(
        #[trigger] after.sessions[k],
    ) by {
        let j = if k < i {
            k
        } else {
            k + 1
        };
        assert(after.sessions[k] == v.sessions[j]);
        assert(v.sessions[i].info.id@ == id);
    }
    lemma_is_first_index(after.sessions, has_id(id), after.sessions.len() as int);
    let wanted = waits_on(id);
    lemma_kept(v.clients, wanted);
    assert(wanted(v.clients[c]));
    let m = choose|m: int|
        0 <= m < kept(v.clients, wanted).len() && kept(v.clients, wanted)[m] == v.clients[c];
    assert(effects[m] == (EffectView::Respond {
        conn_id: v.clients[c].conn_id,
        response: err_response(ErrorCode::Internal, "session disconnected"@),
    }));
}

/// Sessions survive their clients: a connection that is lost takes no session with it, unless it
/// was a session's own.
pub proof fn law_sessions_survive_their_clients(v: ServerView, conn_id: u64)
    requires
        !v.conns.contains_key(conn_id),
    ensures
        v.disconnect(conn_id).0.sessions == v.sessions,
        v.disconnect(conn_id).0.conns == v.conns,
{
}

/// A session that reconnected before its old connection was seen to be lost stays.
pub proof fn law_a_reconnected_session_stays(
    v: ServerView,
    old_conn: u64,
    new_conn: u64,
    info: SessionInfo,
    key: String,
)
    requires
        v.wf(),
        old_conn != new_conn,
        key@ == info.id@,
        v.conns.contains_key(old_conn),
        v.conns[old_conn]@ == info.id@,
    ensures
        ({
            let registered = v.register(new_conn, info, key);
            let (after, effects) = registered.session_disconnect(old_conn);
            &&& after.sessions == registered.sessions
            &&& after.clients == registered.clients
            &&& effects.len() == 0
        }),
{
    let registered = v.register(new_conn, info, key);
    let id = info.id@;
    lemma_first_index(v.sessions, has_id(id));
    let n = first_index(v.sessions, has_id(id)) as int;
    assert forall|k: int| 0 <= k < n implies !has_id(id)(#[trigger] registered.sessions[k]) by {
        assert(registered.sessions[k] == v.sessions[k]);
        assert(!has_id(id)(v.sessions[k]));
    }
    assert(has_id(id)(registered.sessions[n]));
    lemma_is_first_index(registered.sessions, has_id(id), n);
}

/// A request that comes while sessions reconnect is kept, and routed once they have.
pub proof fn law_a_deferred_request_is_routed(
    v: ServerView,
    conn_id: u64,
    pid: u32,
    request: Request,
    ancestries: Seq<Vec<u32>>,
)
    requires
        v.settling is Some,
        !(request is Stop),
        ancestries.len() == v.deferred.len() + 1,
    ensures
        ({
            let (waiting, nothing) = v.client_request(conn_id, pid, request, ancestries.last()@);
            let (before, effects) = v.drain(ancestries);
            let (after, answer) = before.route(conn_id, request, ancestries.last()@);
            &&& nothing.len() == 0
            &&& waiting.drain(ancestries) == (after, effects + answer)
        }),
{
    let waiting = v.client_request(conn_id, pid, request, ancestries.last()@).0;
    assert(waiting.deferred.drop_last() =~= v.deferred);
}

/// A client is answered, forwarded or left without an answer, but never more than one of these:
/// routing a request has exactly one effect.
pub proof fn law_a_request_has_one_effect(
    v: ServerView,
    conn_id: u64,
    request: Request,
    ancestry: Seq<u32>,
)
    requires
        v.wf(),
    ensures
        v.route(conn_id, request, ancestry).1.len() == 1,
{
    lemma_resolved_is_there(v, selector_of(request), ancestry);
}

/// A stop is answered first and ends the server last, also while sessions reconnect. Nothing else
/// that a client asks for ends it.
pub proof fn law_only_a_stop_ends_the_server(
    v: ServerView,
    conn_id: u64,
    pid: u32,
    request: Request,
    ancestry: Seq<u32>,
)
    requires
        v.wf(),
    ensures
        ({
            let effects = v.client_request(conn_id, pid, request, ancestry).1;
            &&& request is Stop ==> effects.first() == respond(conn_id, ok_empty_response()).first()
                && effects.last() == EffectView::Exit
            &&& effects.contains(EffectView::Exit) ==> request is Stop
        }),
{
    law_a_request_has_one_effect(v, conn_id, request, ancestry);
}

/// A session is found by its whole id, whatever other sessions there are, unless its id is the
/// start of another one.
pub proof fn law_a_whole_id_is_not_ambiguous(v: ServerView, i: int, id: String, ancestry: Seq<u32>)
    requires
        v.wf(),
        0 <= i < v.sessions.len(),
        v.sessions[i].info.id@ == id@,
        forall|j: int|
            0 <= j < v.sessions.len() && j != i ==> !id@.is_prefix_of(
                (#[trigger] v.sessions[j]).info.id@,
            ),
    ensures
        v.resolve(Some(Selector::Id(id)), ancestry) == Ok::<Seq<char>, ErrorCode>(id@),
{
    let wanted = selects(Selector::Id(id));
    assert(id@.is_prefix_of(id@));
    lemma_single(v.sessions, wanted, i);
}

/// If just one element is wanted, it is all that is kept.
pub proof fn lemma_single(s: Seq<SessionEntry>, wanted: spec_fn(SessionEntry) -> bool, i: int)
    requires
        0 <= i < s.len(),
        forall|j: int| 0 <= j < s.len() ==> (wanted(#[trigger] s[j]) <==> j == i),
    ensures
        kept(s, wanted) == seq![s[i]],
    decreases s.len(),
{
    let rest = s.drop_last();
    if i == s.len() - 1 {
        lemma_nothing_kept(rest, wanted);
    } else {
        lemma_single(rest, wanted, i);
    }
    assert(kept(s, wanted) =~= seq![s[i]]);
}

pub proof fn lemma_nothing_kept(s: Seq<SessionEntry>, wanted: spec_fn(SessionEntry) -> bool)
    requires
        forall|j: int| 0 <= j < s.len() ==> !wanted(#[trigger] s[j]),
    ensures
        kept(s, wanted) == Seq::<SessionEntry>::empty(),
    decreases s.len(),
{
    if s.len() > 0 {
        lemma_nothing_kept(s.drop_last(), wanted);
    }
}

} // verus!
