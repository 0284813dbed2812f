//! Session module: the state of a terminal session.
//!
//! A session
//! 1. Follows the output of the user's shell (screen, scrollback)
//! 2. Receives requests from the daemon
//! 3. Handles permission prompts
//! 4. Collects what goes to the PTY, to the daemon and to the outer terminal
//!
//! The PTY, the connection to the daemon and the screen are driven from outside: events come in
//! as method calls, and what is to be sent waits in queues. Times are nanoseconds since the
//! session started.
use std::collections::VecDeque;
use vstd::prelude::*;
use vstd::slice::slice_subrange;
use vstd::utf8::encode_utf8;
use crate::config::{Config, DefaultVisibility};
use crate::session::dispatch::{new_dispatch, DispatchState, DispatchView, PromptState};
use crate::session::prompt::{prompt_key, PromptInfo, PromptResult};
use crate::session::terminal::{
    drag_tick, key_event_bytes, mouse_action, mouse_bytes, mouse_fits, paste_bytes, GridState,
    KeyEvent, MouseAction, MouseEvent, Point, SelectionState, Size, TerminalView,
};
use crate::session::text::{
    all_text, is_text, new_text, stopped, text_actions, vte_actions, TextParser, TextView,
};
use crate::strings::{bytes_of, concat3, text_opt};
use crate::types::{
    AuthRequest, AuthResponse, DaemonMessage, MessageView, Response, ResponseView, SessionMessage,
    StatusUpdate,
};

pub mod commands;
pub mod dispatch;
pub mod laws;
pub mod prompt;
pub mod terminal;
pub mod text;

verus! {

// === PTY Write Buffer ===

/// A pending PTY write with partial-write tracking.
pub struct PtyWriteBuf {
    data: Vec<u8>,
    written: usize,
}

impl PtyWriteBuf {
    closed spec fn wf(&self) -> bool {
        self.written < self.data@.len()
    }

    /// What is still to be written.
    closed spec fn left(&self) -> Seq<u8> {
        self.data@.skip(self.written as int)
    }

    fn remaining(&self) -> (r: &[u8])
        requires
            self.wf(),
        ensures
            r@ == self.left(),
    {
        let r = slice_subrange(self.data.as_slice(), self.written, self.data.len());
        proof {
            assert(r@ =~= self.left());
        }
        r
    }
}

/// What came of a write to the PTY.
#[derive(Debug, Clone, Copy, PartialEq, Eq, Structural)]
pub enum PtyWrite {
    Wrote(usize),
    WouldBlock,
    Interrupted,
    Failed,
}

/// What to do after a write to the PTY.
#[derive(Debug, Clone, Copy, PartialEq, Eq, Structural)]
pub enum FlushStep {
    /// Write what is next, if there is anything.
    Continue,
    /// Wait until the PTY takes more.
    Stop,
    /// Give up.
    Fail,
}

/// What is left to write once the first `n` bytes are written.
pub open spec fn after_writing(pty: Seq<Seq<u8>>, n: int) -> Seq<Seq<u8>> {
    if n >= pty[0].len() {
        pty.skip(1)
    } else {
        pty.update(0, pty[0].skip(n))
    }
}

// === Terminal Events ===

/// Events from the terminal that need to be forwarded.
pub enum TerminalEvent {
    /// Data to write to the PTY (e.g., device attribute replies).
    PtyWrite(Vec<u8>),
    /// Child application set the window title (OSC 2).
    Title(String),
    /// Child application reset the window title.
    ResetTitle,
    /// Terminal bell.
    Bell,
}

// === Input Events ===

#[derive(Debug)]
pub enum InputEvent {
    Key(KeyEvent),
    Mouse(MouseEvent),
    Paste(String),
    FocusGained,
    FocusLost,
}

/// What an event does to the grid.
#[derive(Debug, Clone, Copy, PartialEq, Eq, Structural)]
pub struct GridChange {
    pub clear_selection: bool,
    pub scroll_to_bottom: bool,
    pub mouse: MouseAction,
}

/// The grid stays as it is.
pub open spec fn unchanged() -> GridChange {
    GridChange {
        clear_selection: false,
        scroll_to_bottom: false,
        mouse: MouseAction::Nothing,
    }
}

fn no_change() -> (r: GridChange)
    ensures
        r == unchanged(),
{
    GridChange {
        clear_selection: false,
        scroll_to_bottom: false,
        mouse: MouseAction::Nothing,
    }
}

// === Session State ===

pub struct Session {
    // Identity
    session_id: Option<String>,
    tag: Option<String>,
    visible: bool,
    // PTY
    pty_write_queue: VecDeque<PtyWriteBuf>,
    // Terminal view (input, selection)
    view: TerminalView,
    // Text parsing for history
    text_parser: TextParser,
    // IPC
    outbox: Vec<SessionMessage>,
    ipc_authenticated: bool,
    ipc_registered: bool,
    // Request dispatch (queues, permissions, prompts)
    dispatch: DispatchState,
    // Status tracking (for pushing to server)
    cwd: Option<String>,
}

/// A session: who it is, what it shows, what it was asked for, and what it is to send.
#[verifier::ext_equal]
pub struct SessionView {
    pub id: Option<Seq<char>>,
    pub tag: Option<Seq<char>>,
    pub visible: bool,
    /// What is still to be written to the PTY, piece by piece.
    pub pty: Seq<Seq<u8>>,
    pub view: TerminalView,
    pub text: TextView,
    /// What is to be sent to the daemon.
    pub outbox: Seq<MessageView>,
    pub authenticated: bool,
    pub registered: bool,
    pub dispatch: DispatchView,
    pub cwd: Option<Seq<char>>,
}

pub open spec fn messages(outbox: Seq<SessionMessage>) -> Seq<MessageView> {
    outbox.map_values(|m: SessionMessage| m@)
}

closed spec fn left_of(queue: Seq<PtyWriteBuf>) -> Seq<Seq<u8>> {
    queue.map_values(|b: PtyWriteBuf| b.left())
}

impl View for Session {
    type V = SessionView;

    closed spec fn view(&self) -> SessionView {
        SessionView {
            id: text_opt(self.session_id),
            tag: text_opt(self.tag),
            visible: self.visible,
            pty: left_of(self.pty_write_queue@),
            view: self.view,
            text: self.text_parser@,
            outbox: messages(self.outbox@),
            authenticated: self.ipc_authenticated,
            registered: self.ipc_registered,
            dispatch: self.dispatch@,
            cwd: text_opt(self.cwd),
        }
    }
}

impl SessionView {
    /// What every operation keeps.
    pub open spec fn wf(self) -> bool {
        &&& self.text.wf()
        &&& self.dispatch.wf()
        &&& forall|i: int| 0 <= i < self.pty.len() ==> (#[trigger] self.pty[i]).len() > 0
    }

    pub open spec fn mark_dirty(self) -> SessionView {
        SessionView { view: TerminalView { dirty: true, ..self.view }, ..self }
    }

    /// Bytes for the PTY. Nothing is queued where there are none.
    pub open spec fn write(self, bytes: Seq<u8>) -> SessionView {
        if bytes.len() == 0 {
            self
        } else {
            SessionView { pty: self.pty.push(bytes), ..self }
        }
    }

    pub open spec fn send(self, message: MessageView) -> SessionView {
        SessionView { outbox: self.outbox.push(message), ..self }
    }

    /// An answer to a request.
    pub open spec fn respond(self, id: u64, result: ResponseView) -> SessionView {
        self.send(MessageView::Response { id, result })
    }

    /// The id that the session goes by: none before the daemon gave it one.
    pub open spec fn id_text(self) -> Seq<char> {
        match self.id {
            Some(id) => id,
            None => Seq::empty(),
        }
    }

    /// The current status goes to the daemon, if there is a connection.
    pub open spec fn push_status(self, now: u64) -> SessionView {
        if !self.authenticated {
            self
        } else {
            SessionView {
                dispatch: DispatchView { last_status_push: now, ..self.dispatch },
                ..self
            }.send(
                MessageView::Status { cwd: self.cwd, in_alt_screen: self.text.screen.in_alt },
            )
        }
    }

    /// Status is pushed at most every two seconds.
    pub open spec fn status_due(self, now: u64) -> bool {
        self.authenticated && now - self.dispatch.last_status_push >= 2_000_000_000
    }

    /// The connection to the daemon is gone, and with it all that the daemon asked for.
    pub open spec fn disconnect(self) -> SessionView {
        SessionView {
            registered: false,
            authenticated: false,
            dispatch: self.dispatch.cleared(),
            ..self
        }.mark_dirty()
    }

    /// Whether the session takes the id that the daemon offers: only if it has none yet.
    pub open spec fn takes_offered_id(self) -> bool {
        self.id_text().len() == 0
    }

    /// The daemon asked who this is.
    pub open spec fn authenticate(self, offered: Seq<char>, now: u64) -> SessionView {
        SessionView {
            id: if self.takes_offered_id() {
                Some(offered)
            } else {
                self.id
            },
            authenticated: true,
            ..self
        }.mark_dirty().push_status(now)
    }

    /// A key or a paste drops the selection and shows the bottom of the screen.
    pub open spec fn typed(self, grid: GridState) -> (SessionView, GridChange) {
        (
            SessionView {
                view: TerminalView {
                    dirty: self.view.dirty || grid.has_selection || grid.display_offset != 0,
                    ..self.view
                },
                ..self
            },
            GridChange {
                clear_selection: grid.has_selection,
                scroll_to_bottom: grid.display_offset != 0,
                mouse: MouseAction::Nothing,
            },
        )
    }

    /// What an input event does. While a prompt is shown, it gets the keys, and the mouse and
    /// pastes are ignored.
    pub open spec fn input(self, event: InputEvent, grid: GridState, now: u64) -> (
        SessionView,
        GridChange,
    ) {
        let prompting = self.dispatch.prompt_state is Pending;
        let (after, change) = self.typed(grid);
        match event {
            InputEvent::Key(key) => if prompting {
                (
                    self.prompt_resolution(key, self.view.size.cols, self.view.size.rows, now),
                    unchanged(),
                )
            } else if !key.press {
                (self, unchanged())
            } else {
                match key_event_bytes(key, grid.mode.app_cursor) {
                    Some(bytes) => (after.write(bytes), change),
                    None => (after, change),
                }
            },
            InputEvent::Mouse(mouse) => if prompting {
                (self, unchanged())
            } else {
                match mouse_bytes(mouse, grid.mode) {
                    Some(bytes) => (self.write(bytes), unchanged()),
                    None => {
                        let (view, action) = mouse_action(self.view, mouse, grid, now);
                        (SessionView { view, ..self }, GridChange { mouse: action, ..unchanged() })
                    },
                }
            },
            InputEvent::Paste(text) => if prompting {
                (self, unchanged())
            } else {
                (after.write(paste_bytes(text@, grid.mode.bracketed_paste)), change)
            },
            InputEvent::FocusGained => if grid.mode.focus_in_out {
                (self.write(seq![0x1bu8, 0x5bu8, 0x49u8]), unchanged())
            } else {
                (self, unchanged())
            },
            InputEvent::FocusLost => if grid.mode.focus_in_out {
                (self.write(seq![0x1bu8, 0x5bu8, 0x4fu8]), unchanged())
            } else {
                (self, unchanged())
            },
        }
    }

    /// The terminal has another size.
    pub open spec fn resize(self, size: Size) -> SessionView {
        SessionView {
            view: TerminalView { size, dirty: true, ..self.view },
            text: self.text.on_screen(self.text.screen.resize(size.rows as int, size.cols as int)),
            ..self
        }
    }
}

/// A session that has not been connected yet.
pub open spec fn new_session(
    config: Config,
    tag: Option<Seq<char>>,
    size: Size,
    cwd: Option<Seq<char>>,
    now: u64,
) -> SessionView {
    SessionView {
        id: None,
        tag,
        visible: config.default_visibility == DefaultVisibility::Visible,
        pty: Seq::empty(),
        view: TerminalView {
            size,
            selection: SelectionState {
                last_click: None,
                click_count: 0,
                drag_edge: None,
            },
            dirty: true,
        },
        text: new_text(size.rows as int, size.cols as int, config.history_size as int),
        outbox: Seq::empty(),
        authenticated: false,
        registered: false,
        dispatch: new_dispatch(config, now),
        cwd,
    }
}

impl Session {
    /// What every operation keeps.
    pub closed spec fn wf(&self) -> bool {
        &&& self@.wf()
        &&& self.dispatch.wf()
        &&& forall|i: int| 0 <= i < self.pty_write_queue@.len() ==> (
        #[trigger] self.pty_write_queue@[i]).wf()
    }

    pub fn new(config: &Config, tag: Option<String>, size: Size, cwd: Option<String>, now: u64) -> (s:
        Self)
        ensures
            s.wf(),
            s@ == new_session(*config, text_opt(tag), size, text_opt(cwd), now),
    {
        let s = Session {
            session_id: None,
            tag,
            visible: config.default_visibility == DefaultVisibility::Visible,
            pty_write_queue: VecDeque::new(),
            view: TerminalView::new(size),
            text_parser: TextParser::new(
                size.rows as usize,
                size.cols as usize,
                config.history_size,
            ),
            outbox: Vec::new(),
            ipc_authenticated: false,
            ipc_registered: false,
            dispatch: DispatchState::new(config, now),
            cwd,
        };
        proof {
            assert(s@.pty =~= Seq::empty());
            assert(s@.outbox =~= Seq::empty());
        }
        s
    }

    // === PTY I/O ===

    /// Queue bytes to write to the PTY. Never blocks.
    pub fn queue_pty_write(&mut self, bytes: &[u8])
        requires
            old(self).wf(),
        ensures
            final(self).wf(),
            final(self)@ == old(self)@.write(bytes@),
    {
        if bytes.len() == 0 {
            return;
        }
        let ghost before = self.pty_write_queue@;
        let mut data: Vec<u8> = Vec::new();
        data.extend_from_slice(bytes);
        let buf = PtyWriteBuf { data, written: 0 };
        proof {
            assert(buf.left() =~= bytes@);
        }
        self.pty_write_queue.push_back(buf);
        proof {
            assert(left_of(self.pty_write_queue@) =~= left_of(before).push(bytes@));
        }
    }

    /// What is to be written to the PTY next.
    pub fn next_pty_write(&self) -> (r: Option<&[u8]>)
        requires
            self.wf(),
        ensures
            match r {
                Some(bytes) => self@.pty.len() > 0 && bytes@ == self@.pty[0],
                None => self@.pty.len() == 0,
            },
    {
        if self.pty_write_queue.len() == 0 {
            None
        } else {
            Some(self.pty_write_queue[0].remaining())
        }
    }

    /// Take in what came of writing `next_pty_write` to the PTY. Writing stops when the PTY takes
    /// no more; what is left stays queued.
    pub fn pty_written(&mut self, result: PtyWrite) -> (step: FlushStep)
        requires
            old(self).wf(),
            old(self)@.pty.len() > 0,
            result matches PtyWrite::Wrote(n) ==> n <= old(self)@.pty[0].len(),
        ensures
            final(self).wf(),
            match result {
                PtyWrite::Wrote(n) => if n == 0 {
                    step == FlushStep::Stop && final(self)@ == old(self)@
                } else {
                    &&& step == FlushStep::Continue
                    &&& final(self)@ == (SessionView {
                        pty: after_writing(old(self)@.pty, n as int),
                        ..old(self)@
                    })
                },
                PtyWrite::WouldBlock => step == FlushStep::Stop && final(self)@ == old(self)@,
                PtyWrite::Interrupted => step == FlushStep::Continue && final(self)@ == old(self)@,
                PtyWrite::Failed => step == FlushStep::Fail && final(self)@ == old(self)@,
            },
    {
        let n = match result {
            PtyWrite::Wrote(n) => n,
            PtyWrite::WouldBlock => {
                return FlushStep::Stop;
            },
            PtyWrite::Interrupted => {
                return FlushStep::Continue;
            },
            PtyWrite::Failed => {
                return FlushStep::Fail;
            },
        };
        if n == 0 {
            return FlushStep::Stop;
        }
        let ghost before = self.pty_write_queue@;
        let ghost pieces = self@.pty;
        if let Some(mut buf) = self.pty_write_queue.pop_front() {
            proof {
                assert(buf == before[0]);
                assert(pieces[0] == buf.left());
                assert(buf.written + n <= buf.data.len());
            }
            let ghost rest = self.pty_write_queue@;
            buf.written = buf.written + n;
            if buf.written < buf.data.len() {
                proof {
                    assert(buf.left() =~= pieces[0].skip(n as int));
                }
                self.pty_write_queue.push_front(buf);
                proof {
                    assert(self.pty_write_queue@ =~= seq![buf] + rest);
                    assert(left_of(self.pty_write_queue@) =~= pieces.update(
                        0,
                        pieces[0].skip(n as int),
                    ));
                }
            } else {
                proof {
                    assert(left_of(self.pty_write_queue@) =~= pieces.skip(1));
                }
            }
        }
        FlushStep::Continue
    }

    /// Whether there are pending PTY writes waiting to be flushed.
    pub fn has_pending_pty_writes(&self) -> (r: bool)
        ensures
            r == (self@.pty.len() > 0),
    {
        self.pty_write_queue.len() > 0
    }

    /// Output of the child process goes to the text parser, up to the first sequence that does not
    /// find the cells that it touches. Tells whether all of it was taken in; on a screen with
    /// cells it is.
    pub fn pty_output(&mut self, data: &[u8], now: u64) -> (r: bool)
        requires
            old(self).wf(),
        ensures
            final(self).wf(),
            final(self)@ == (SessionView {
                text: final(self)@.text,
                dispatch: DispatchView { last_pty_activity: now, ..old(self)@.dispatch },
                ..old(self)@
            }).mark_dirty(),
            ({
                let start = old(self)@.text.given(data@);
                let actions = vte_actions(old(self)@.text.fed, data@);
                &&& r == start.fits_all(actions)
                &&& r ==> final(self)@.text == start.perform_all(actions)
                &&& !r ==> stopped(start, actions, final(self)@.text)
            }),
            forall|text: Seq<char>|
                r && all_text(old(self)@.text.fed) && #[trigger] is_text(data@, text)
                    ==> final(self)@.text == old(self)@.text.given(data@).perform_all(
                    text_actions(text),
                ),
            old(self)@.text.has_cells() ==> r,
            final(self)@.text.same_size(old(self)@.text),
    {
        let r = self.text_parser.try_advance(data);
        self.dispatch.last_pty_activity = now;
        self.view.mark_dirty();
        r
    }

    /// Bytes for the outer terminal that an event calls for. Those for the PTY are queued.
    pub fn handle_terminal_event(&mut self, event: TerminalEvent) -> (r: Option<Vec<u8>>)
        requires
            old(self).wf(),
        ensures
            final(self).wf(),
            match event {
                TerminalEvent::PtyWrite(b) => r is None && final(self)@ == old(self)@.write(b@),
                TerminalEvent::Title(t) => {
                    &&& r matches Some(v) && v@ == encode_utf8("\x1b]2;"@ + t@ + "\x1b\\"@)
                    &&& final(self)@ == old(self)@
                },
                TerminalEvent::ResetTitle => {
                    &&& r matches Some(v) && v@ == encode_utf8("\x1b]2;\x1b\\"@)
                    &&& final(self)@ == old(self)@
                },
                TerminalEvent::Bell => {
                    &&& r matches Some(v) && v@ == seq![0x07u8]
                    &&& final(self)@ == old(self)@
                },
            },
    {
        match event {
            TerminalEvent::PtyWrite(bytes) => {
                self.queue_pty_write(bytes.as_slice());
                None
            },
            TerminalEvent::Title(title) => Some(
                bytes_of(concat3("\x1b]2;", title.as_str(), "\x1b\\").as_str()),
            ),
            TerminalEvent::ResetTitle => Some(bytes_of("\x1b]2;\x1b\\")),
            TerminalEvent::Bell => Some(vec![0x07]),
        }
    }

    // === Status Push ===

    fn send(&mut self, message: SessionMessage)
        requires
            old(self).wf(),
        ensures
            final(self).wf(),
            final(self)@ == old(self)@.send(message@),
    {
        let ghost before = messages(self.outbox@);
        self.outbox.push(message);
        proof {
            assert(messages(self.outbox@) =~= before.push(message@));
        }
    }

    /// Whether status should be pushed to the daemon (debounced ~2s).
    pub fn status_due(&self, now: u64) -> (r: bool)
        ensures
            r == self@.status_due(now),
    {
        self.ipc_authenticated && now.saturating_sub(self.dispatch.last_status_push)
            >= 2_000_000_000
    }

    /// The working directory of the foreground process, where it is known.
    pub fn update_cwd(&mut self, cwd: Option<String>)
        requires
            old(self).wf(),
        ensures
            final(self).wf(),
            final(self)@ == match text_opt(cwd) {
                Some(dir) => (SessionView { cwd: Some(dir), ..old(self)@ }),
                None => old(self)@,
            },
    {
        if cwd.is_some() {
            self.cwd = cwd;
        }
    }

    /// Push current status to the server.
    pub fn push_status(&mut self, now: u64)
        requires
            old(self).wf(),
        ensures
            final(self).wf(),
            final(self)@ == old(self)@.push_status(now),
    {
        if !self.ipc_authenticated {
            return;
        }
        self.dispatch.last_status_push = now;
        let update = StatusUpdate {
            cwd: self.cwd.clone(),
            in_alt_screen: self.text_parser.in_alt_screen(),
        };
        self.send(SessionMessage::Status { update });
    }

    // === Resize ===

    /// Handle terminal resize.
    pub fn handle_resize(&mut self, size: Size)
        requires
            old(self).wf(),
        ensures
            final(self).wf(),
            final(self)@ == old(self)@.resize(size),
    {
        self.view.resize(size);
        self.text_parser.resize(size.rows as usize, size.cols as usize);
    }

    // === IPC ===

    /// The connection to the daemon was lost.
    pub fn disconnected(&mut self)
        requires
            old(self).wf(),
        ensures
            final(self).wf(),
            final(self)@ == old(self)@.disconnect(),
    {
        self.ipc_registered = false;
        self.ipc_authenticated = false;
        self.dispatch.clear();
        self.view.mark_dirty();
    }

    /// There is a connection to the daemon.
    pub fn connected(&mut self)
        requires
            old(self).wf(),
        ensures
            final(self).wf(),
            final(self)@ == (SessionView {
                registered: true,
                authenticated: false,
                ..old(self)@
            }).mark_dirty(),
    {
        self.ipc_registered = true;
        self.ipc_authenticated = false;
        self.view.mark_dirty();
    }

    pub fn is_registered(&self) -> (r: bool)
        ensures
            r == self@.registered,
    {
        self.ipc_registered
    }

    pub fn is_authenticated(&self) -> (r: bool)
        ensures
            r == self@.authenticated,
    {
        self.ipc_authenticated
    }

    /// Answer the daemon's question who this is. On the first connection the session takes the id
    /// that the daemon offers; on later ones it keeps its own.
    pub fn authenticate(&mut self, request: AuthRequest, pid: u32, now: u64) -> (r: AuthResponse)
        requires
            old(self).wf(),
        ensures
            final(self).wf(),
            final(self)@ == old(self)@.authenticate(request.id@, now),
            r matches AuthResponse::Session { id, pid: p, tag, visible } && id@ == (
            if old(self)@.takes_offered_id() {
                request.id@
            } else {
                old(self)@.id_text()
            }) && p == pid && text_opt(tag) == old(self)@.tag && visible == old(self)@.visible,
    {
        let own = match &self.session_id {
            Some(id) => if id.as_str().is_empty() {
                None
            } else {
                Some(id.clone())
            },
            None => None,
        };
        let id = match own {
            Some(id) => id,
            None => {
                self.session_id = Some(request.id.clone());
                request.id
            },
        };
        let response = AuthResponse::Session {
            id,
            pid,
            tag: self.tag.clone(),
            visible: self.visible,
        };
        self.ipc_authenticated = true;
        self.view.mark_dirty();
        self.push_status(now);
        response
    }

    /// Send response back to daemon.
    pub fn send_response(&mut self, id: u64, result: Response)
        requires
            old(self).wf(),
        ensures
            final(self).wf(),
            final(self)@ == old(self)@.respond(id, result@),
    {
        self.send(SessionMessage::Response { id, result });
    }

    /// The messages that are to be sent to the daemon.
    pub fn take_messages(&mut self) -> (r: Vec<SessionMessage>)
        requires
            old(self).wf(),
        ensures
            final(self).wf(),
            final(self)@ == (SessionView { outbox: Seq::empty(), ..old(self)@ }),
            messages(r@) == old(self)@.outbox,
    {
        let mut r: Vec<SessionMessage> = Vec::new();
        std::mem::swap(&mut r, &mut self.outbox);
        proof {
            assert(messages(self.outbox@) =~= Seq::empty());
        }
        r
    }

    /// A message from the daemon. Requests are dispatched, cancelled ones dropped.
    pub fn handle_message(&mut self, message: DaemonMessage, now: u64)
        requires
            old(self).wf(),
        ensures
            final(self).wf(),
            final(self)@ == match message {
                DaemonMessage::Request(req) => old(self)@.dispatch_request(req, now),
                DaemonMessage::Cancel { id } => old(self)@.cancel(id, now),
            },
    {
        match message {
            DaemonMessage::Request(req) => self.dispatch_request(req, now),
            DaemonMessage::Cancel { id } => self.handle_cancel(id, now),
        }
    }

    // === Input ===

    /// Whether the user is asked for a permission.
    pub fn is_prompting(&self) -> (r: bool)
        ensures
            r == (self@.dispatch.prompt_state is Pending),
    {
        self.dispatch.prompt_state.is_pending()
    }

    /// Handle keyboard, mouse, paste and focus events. While a prompt is shown, it gets the keys,
    /// and the mouse and pastes are ignored.
    pub fn handle_event(&mut self, event: &InputEvent, grid: &GridState, now: u64) -> (r: GridChange)
        requires
            old(self).wf(),
            event matches InputEvent::Mouse(mouse) ==> old(self)@.dispatch.prompt_state is Pending
                || mouse_fits(old(self)@.view, *mouse, grid.mode),
        ensures
            final(self).wf(),
            (final(self)@, r) == old(self)@.input(*event, *grid, now),
    {
        let prompting = self.dispatch.prompt_state.is_pending();
        match event {
            InputEvent::Key(key) => {
                if prompting {
                    let size = self.view.size();
                    self.handle_prompt_resolution(key, size.cols, size.rows, now);
                    return no_change();
                }
                let out = self.view.handle_key(key, grid);
                if let Some(bytes) = &out.bytes {
                    self.queue_pty_write(bytes.as_slice());
                }
                GridChange {
                    clear_selection: out.clear_selection,
                    scroll_to_bottom: out.scroll_to_bottom,
                    mouse: MouseAction::Nothing,
                }
            },
            InputEvent::Mouse(mouse) => {
                if prompting {
                    return no_change();
                }
                let (bytes, action) = self.view.handle_mouse(mouse, grid, now);
                if let Some(bytes) = &bytes {
                    self.queue_pty_write(bytes.as_slice());
                }
                GridChange { clear_selection: false, scroll_to_bottom: false, mouse: action }
            },
            InputEvent::Paste(text) => {
                if prompting {
                    return no_change();
                }
                let out = self.view.encode_paste(text.as_str(), grid);
                if let Some(bytes) = &out.bytes {
                    self.queue_pty_write(bytes.as_slice());
                }
                GridChange {
                    clear_selection: out.clear_selection,
                    scroll_to_bottom: out.scroll_to_bottom,
                    mouse: MouseAction::Nothing,
                }
            },
            InputEvent::FocusGained => {
                if grid.mode.focus_in_out {
                    self.queue_pty_write(vec![0x1b, 0x5b, 0x49].as_slice());
                }
                no_change()
            },
            InputEvent::FocusLost => {
                if grid.mode.focus_in_out {
                    self.queue_pty_write(vec![0x1b, 0x5b, 0x4f].as_slice());
                }
                no_change()
            },
        }
    }

    /// Auto-scroll while dragging at the edge of the screen: the direction to scroll in by one
    /// line, if it is time, and the row and column of the drag.
    pub fn tick_scroll_drag(&mut self, now: u64) -> (r: Option<(i32, u16, usize)>)
        requires
            old(self).wf(),
            old(self)@.view.selection.drag_edge is Some ==> old(self)@.view.size.rows > 0,
        ensures
            final(self).wf(),
            match drag_tick(old(self)@.view, now) {
                Some((edge, delta)) => {
                    &&& r == Some((delta, edge.row, edge.column))
                    &&& final(self)@ == (SessionView {
                        view: TerminalView {
                            selection: SelectionState {
                                drag_edge: Some(edge),
                                ..old(self)@.view.selection
                            },
                            ..old(self)@.view
                        },
                        ..old(self)@
                    })
                },
                None => r is None && final(self)@ == old(self)@,
            },
    {
        self.view.tick_scroll_drag(now)
    }

    /// The view scrolled under a drag: where the selection now ends, if it scrolled at all.
    pub fn dragged_to(&mut self, row: u16, column: usize, old_offset: u32, new_offset: u32) -> (r:
        Option<Point>)
        requires
            old(self).wf(),
        ensures
            final(self).wf(),
            old_offset == new_offset ==> r is None && final(self)@ == old(self)@,
            old_offset != new_offset ==> {
                &&& r == Some(Point { line: (row - new_offset) as i64, column })
                &&& final(self)@ == old(self)@.mark_dirty()
            },
    {
        self.view.dragged_to(row, column, old_offset, new_offset)
    }

    // === Drawing ===

    /// What the prompt shows, if there is one.
    pub fn prompt_info(&self) -> (r: Option<PromptInfo<'_>>)
        ensures
            match self@.dispatch.prompt_state {
                PromptState::Pending {
                    request,
                    permission_type,
                    selected,
                    expanded,
                    scroll_offset,
                } => {
                    &&& r matches Some(info)
                    &&& info.source_id@ == request.source_id@
                    &&& match request.source_tag {
                        Some(tag) => info.source_tag matches Some(t) && t@ == tag@,
                        None => info.source_tag is None,
                    }
                    &&& info.permission_type == permission_type
                    &&& *info.request == request.request
                    &&& info.selected == selected
                    &&& info.expanded == expanded
                    &&& info.scroll_offset == scroll_offset
                },
                PromptState::Idle => r is None,
            },
    {
        match &self.dispatch.prompt_state {
            PromptState::Pending {
                request,
                permission_type,
                selected,
                expanded,
                scroll_offset,
            } => Some(
                PromptInfo {
                    source_id: request.source_id.as_str(),
                    source_tag: match &request.source_tag {
                        Some(tag) => Some(tag.as_str()),
                        None => None,
                    },
                    permission_type: *permission_type,
                    request: &request.request,
                    selected: *selected,
                    expanded: *expanded,
                    scroll_offset: *scroll_offset,
                },
            ),
            PromptState::Idle => None,
        }
    }

    pub fn size(&self) -> (s: Size)
        ensures
            s == self@.view.size,
    {
        self.view.size()
    }

    pub fn is_dirty(&self) -> (r: bool)
        ensures
            r == self@.view.dirty,
    {
        self.view.is_dirty()
    }

    /// The view was drawn.
    pub fn mark_drawn(&mut self)
        requires
            old(self).wf(),
        ensures
            final(self).wf(),
            final(self)@ == (SessionView {
                view: TerminalView { dirty: false, ..old(self)@.view },
                ..old(self)@
            }),
    {
        self.view.mark_drawn();
    }
}

// === Laws ===

/// While a prompt is shown nothing that the user types, pastes or does with the mouse reaches the
/// child application past it: a key that does not answer the prompt, the mouse and pastes leave
/// what is to be written to the PTY alone.
pub proof fn law_a_prompt_keeps_input_from_the_child(
    s: SessionView,
    event: InputEvent,
    grid: GridState,
    now: u64,
)
    requires
        s.dispatch.prompt_state is Pending,
        match event {
            InputEvent::Key(key) => s.dispatch.prompt_state matches PromptState::Pending {
                selected,
                expanded,
                ..
            } && prompt_key(key.code, selected, expanded, s.view.size.cols, s.view.size.rows).result
                == PromptResult::Navigate,
            InputEvent::Mouse(_) => true,
            InputEvent::Paste(_) => true,
            _ => false,
        },
    ensures
        s.input(event, grid, now).0.pty == s.pty,
        s.input(event, grid, now).0.outbox == s.outbox,
{
}

/// All that is still to be written to the PTY.
pub open spec fn pty_bytes(pty: Seq<Seq<u8>>) -> Seq<u8>
    decreases pty.len(),
{
    if pty.len() == 0 {
        Seq::empty()
    } else {
        pty[0] + pty_bytes(pty.skip(1))
    }
}

/// Writing takes bytes off the front and keeps all others, in order.
pub proof fn law_pty_writes_stay_in_order(pty: Seq<Seq<u8>>, n: int)
    requires
        pty.len() > 0,
        0 <= n <= pty[0].len(),
    ensures
        pty_bytes(after_writing(pty, n)) == pty_bytes(pty).skip(n),
{
    if n < pty[0].len() {
        let after = after_writing(pty, n);
        assert(after.skip(1) =~= pty.skip(1));
        assert(pty_bytes(after) =~= pty_bytes(pty).skip(n));
    } else {
        assert(pty_bytes(pty.skip(1)) =~= pty_bytes(pty).skip(n));
    }
}

/// What is queued for the PTY goes behind all that is queued already.
pub proof fn law_queued_bytes_come_last(s: SessionView, bytes: Seq<u8>)
    ensures
        pty_bytes(s.write(bytes).pty) == pty_bytes(s.pty) + bytes,
{
    if bytes.len() > 0 {
        lemma_pty_bytes_push(s.pty, bytes);
    } else {
        assert(pty_bytes(s.pty) + bytes =~= pty_bytes(s.pty));
    }
}

proof fn lemma_pty_bytes_push(pty: Seq<Seq<u8>>, bytes: Seq<u8>)
    ensures
        pty_bytes(pty.push(bytes)) == pty_bytes(pty) + bytes,
    decreases pty.len(),
{
    if pty.len() == 0 {
        assert(pty.push(bytes).skip(1) =~= Seq::<Seq<u8>>::empty());
        assert(pty_bytes(pty.push(bytes).skip(1)) =~= Seq::<u8>::empty());
        assert(pty_bytes(pty.push(bytes)) =~= pty_bytes(pty) + bytes);
    } else {
        lemma_pty_bytes_push(pty.skip(1), bytes);
        assert(pty.push(bytes).skip(1) =~= pty.skip(1).push(bytes));
        assert(pty_bytes(pty.push(bytes)) =~= pty_bytes(pty) + bytes);
    }
}

/// A session that was given an id keeps it over every reconnection.
pub proof fn law_a_session_keeps_its_id(
    s: SessionView,
    offered: Seq<char>,
    again: Seq<char>,
    t1: u64,
    t2: u64,
)
    requires
        offered.len() > 0,
    ensures
        s.authenticate(offered, t1).id_text().len() > 0,
        s.authenticate(offered, t1).disconnect().authenticate(again, t2).id_text()
            == s.authenticate(offered, t1).id_text(),
{
}

} // verus!
