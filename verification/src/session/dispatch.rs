//! Request dispatching and queue management for sessions.
//!
//! This module handles:
//! - Request classification (instant, read, exec)
//! - Permission checking and prompt queue management
//! - Read and exec queue management
//! - Cancellation handling
//! - Tick-based execution of keys with sleep/wait support
//!
//! Times are nanoseconds since the session started.
use std::collections::VecDeque;
use vstd::prelude::*;
use vstd::utf8::encode_utf8;
use crate::config::{Config, DefaultPermission};
use crate::keys::{args_groups, parse_exec_args, views, KeyGroup, KeyGroupView};
use crate::session::prompt::{
    handle_prompt_key, max_scroll_offset, prompt_key, scroll_limit, PromptKeyResult,
    PromptResult,
};
use crate::session::terminal::KeyEvent;
use crate::session::{Session, SessionView};
use crate::strings::{bytes_of, pasted, pasted_text, text, text_opt, texts};
use crate::types::{
    err_response, ErrorCode, MessageView, Request, Response, ResponseView, SessionRequest,
};

verus! {

/// Nanoseconds in a millisecond.
pub const MILLI: u128 = 1_000_000;

// === Permission Types ===

#[derive(Debug, Clone, Copy, PartialEq, Eq, Structural)]
pub enum PermissionType {
    Read,
    Write,
}

#[derive(Debug, Clone, Copy, PartialEq, Eq, Structural)]
pub enum RequestCategory {
    Instant,
    Read,
    Exec,
}

/// Peeks and histories are reads, keys are executed, everything else is done at once.
pub open spec fn category_of(request: Request) -> RequestCategory {
    match request {
        Request::Peek { .. } | Request::History { .. } => RequestCategory::Read,
        Request::Exec { .. } => RequestCategory::Exec,
        _ => RequestCategory::Instant,
    }
}

pub fn classify_request(request: &Request) -> (c: RequestCategory)
    ensures
        c == category_of(*request),
{
    match request {
        // Instant: no permission, no queue
        Request::Show { .. }
        | Request::Hide { .. }
        | Request::Tag { .. }
        | Request::Clear { .. } => RequestCategory::Instant,
        // Read: read permission, read queue
        Request::Peek { .. } | Request::History { .. } => RequestCategory::Read,
        // Exec: write permission, exec queue
        Request::Exec { .. } => RequestCategory::Exec,
        // Server-side, should not reach session
        Request::List { .. } | Request::Stop => RequestCategory::Instant,
    }
}

/// The permission that a request needs.
pub open spec fn permission_of(category: RequestCategory) -> Option<PermissionType> {
    match category {
        RequestCategory::Instant => None,
        RequestCategory::Read => Some(PermissionType::Read),
        RequestCategory::Exec => Some(PermissionType::Write),
    }
}

pub fn permission_for_category(category: RequestCategory) -> (p: Option<PermissionType>)
    ensures
        p == permission_of(category),
{
    match category {
        RequestCategory::Instant => None,
        RequestCategory::Read => Some(PermissionType::Read),
        RequestCategory::Exec => Some(PermissionType::Write),
    }
}

// === Permissions Tracking ===

/// Who was allowed what for the rest of the session.
pub struct Permissions {
    read_allowed: Vec<String>,
    write_allowed: Vec<String>,
}

#[verifier::ext_equal]
pub struct PermissionsView {
    pub read: Set<Seq<char>>,
    pub write: Set<Seq<char>>,
}

impl PermissionsView {
    pub open spec fn allowed(self, source: Seq<char>, ptype: PermissionType) -> bool {
        match ptype {
            PermissionType::Read => self.read.contains(source),
            PermissionType::Write => self.write.contains(source),
        }
    }

    pub open spec fn allow(self, source: Seq<char>, ptype: PermissionType) -> PermissionsView {
        match ptype {
            PermissionType::Read => PermissionsView { read: self.read.insert(source), ..self },
            PermissionType::Write => PermissionsView { write: self.write.insert(source), ..self },
        }
    }
}

/// The set of the texts of a list.
pub open spec fn text_set(v: Seq<String>) -> Set<Seq<char>> {
    Set::new(|t: Seq<char>| exists|i: int| 0 <= i < v.len() && #[trigger] v[i]@ == t)
}

fn contains(v: &Vec<String>, s: &str) -> (r: bool)
    ensures
        r == text_set(v@).contains(s@),
{
    for i in 0..v.len()
        invariant
            forall|j: int| 0 <= j < i ==> #[trigger] v@[j]@ != s@,
    {
        if v[i].as_str().eq(s) {
            return true;
        }
    }
    false
}

fn insert(v: &mut Vec<String>, s: String)
    ensures
        text_set(final(v)@) == text_set(old(v)@).insert(s@),
{
    let ghost before = v@;
    if contains(v, s.as_str()) {
        proof {
            assert(text_set(v@) =~= text_set(before).insert(s@));
        }
        return;
    }
    v.push(s);
    proof {
        assert forall|t: Seq<char>| text_set(v@).contains(t) == text_set(before).insert(
            s@,
        ).contains(t) by {
            assert(v@[before.len() as int]@ == s@);
            if text_set(before).contains(t) {
                let i = choose|i: int| 0 <= i < before.len() && #[trigger] before[i]@ == t;
                assert(v@[i]@ == t);
            }
            if text_set(v@).contains(t) {
                let i = choose|i: int| 0 <= i < v@.len() && #[trigger] v@[i]@ == t;
                if i < before.len() {
                    assert(before[i]@ == t);
                }
            }
        }
        assert(text_set(v@) =~= text_set(before).insert(s@));
    }
}

impl View for Permissions {
    type V = PermissionsView;

    closed spec fn view(&self) -> PermissionsView {
        PermissionsView {
            read: text_set(self.read_allowed@),
            write: text_set(self.write_allowed@),
        }
    }
}

impl Permissions {
    pub fn new() -> (p: Self)
        ensures
            p@ == (PermissionsView { read: Set::empty(), write: Set::empty() }),
    {
        let p = Permissions { read_allowed: Vec::new(), write_allowed: Vec::new() };
        proof {
            assert(p@.read =~= Set::empty());
            assert(p@.write =~= Set::empty());
        }
        p
    }

    pub fn is_allowed(&self, source_id: &str, ptype: PermissionType) -> (r: bool)
        ensures
            r == self@.allowed(source_id@, ptype),
    {
        match ptype {
            PermissionType::Read => contains(&self.read_allowed, source_id),
            PermissionType::Write => contains(&self.write_allowed, source_id),
        }
    }

    pub fn allow(&mut self, source_id: String, ptype: PermissionType)
        ensures
            final(self)@ == old(self)@.allow(source_id@, ptype),
    {
        match ptype {
            PermissionType::Read => insert(&mut self.read_allowed, source_id),
            PermissionType::Write => insert(&mut self.write_allowed, source_id),
        }
    }
}

// === Prompt State ===

pub enum PromptState {
    /// No prompt is shown.
    Idle,
    Pending {
        request: SessionRequest,
        permission_type: PermissionType,
        /// 0=Allow, 1=Session, 2=Deny
        selected: usize,
        expanded: bool,
        scroll_offset: usize,
    },
}

impl PromptState {
    pub fn is_pending(&self) -> (r: bool)
        ensures
            r == (self is Pending),
    {
        matches!(self, PromptState::Pending { .. })
    }
}

// === Groups of an exec ===

/// How many placeholders for stdin there are.
pub open spec fn stdin_count(groups: Seq<KeyGroupView>) -> nat
    decreases groups.len(),
{
    if groups.len() == 0 {
        0
    } else {
        stdin_count(groups.drop_last()) + if groups.last() is Stdin {
            1nat
        } else {
            0
        }
    }
}

/// Whether no placeholder is left.
pub open spec fn no_stdin(groups: Seq<KeyGroupView>) -> bool {
    forall|i: int| 0 <= i < groups.len() ==> !(#[trigger] groups[i] is Stdin)
}

/// The first placeholder for stdin: how many groups stand before it.
pub open spec fn first_stdin(groups: Seq<KeyGroupView>) -> nat
    decreases groups.len(),
{
    if groups.len() == 0 || groups[0] is Stdin {
        0
    } else {
        1 + first_stdin(groups.skip(1))
    }
}

/// The groups with the text from stdin in place of the placeholder, its newlines as Enter.
pub open spec fn with_stdin(
    groups: Seq<KeyGroupView>,
    stdin: Option<Seq<char>>,
) -> Option<Seq<KeyGroupView>> {
    let n = first_stdin(groups);
    if n >= groups.len() {
        Some(groups)
    } else {
        match stdin {
            Some(t) => Some(
                groups.update(n as int, KeyGroupView::Bytes(encode_utf8(pasted(t)))),
            ),
            None => None,
        }
    }
}

/// The groups with a pause between adjacent bytes.
pub open spec fn delayed_groups(groups: Seq<KeyGroupView>, delay: u64) -> Seq<KeyGroupView>
    decreases groups.len(),
{
    if groups.len() == 0 {
        Seq::empty()
    } else {
        let before = delayed_groups(groups.drop_last(), delay);
        if groups.len() > 1 && groups[groups.len() - 2] is Bytes && groups.last() is Bytes {
            before.push(KeyGroupView::Sleep(delay)).push(groups.last())
        } else {
            before.push(groups.last())
        }
    }
}

pub open spec fn delayed(groups: Seq<KeyGroupView>, delay: u64) -> Seq<KeyGroupView> {
    if delay == 0 {
        groups
    } else {
        delayed_groups(groups, delay)
    }
}

/// The groups that an exec sends, or what is wrong with it.
pub open spec fn exec_groups(
    keys: Seq<Seq<char>>,
    stdin: Option<Seq<char>>,
    delay: u64,
) -> Result<Seq<KeyGroupView>, Seq<char>> {
    match args_groups(keys) {
        Err(e) => Err(e),
        Ok(groups) => match with_stdin(groups, stdin) {
            None => Err("{stdin} used but no stdin data provided"@),
            Some(g) => if stdin_count(groups) > 1 {
                Err("{stdin} can only appear once"@)
            } else {
                Ok(delayed(g, delay))
            },
        },
    }
}

proof fn lemma_first_stdin(groups: Seq<KeyGroupView>)
    ensures
        first_stdin(groups) <= groups.len(),
        first_stdin(groups) < groups.len() ==> groups[first_stdin(groups) as int] is Stdin,
        forall|i: int| 0 <= i < first_stdin(groups) ==> !(#[trigger] groups[i] is Stdin),
    decreases groups.len(),
{
    if groups.len() > 0 && !(groups[0] is Stdin) {
        lemma_first_stdin(groups.skip(1));
        assert forall|i: int| 0 <= i < first_stdin(groups) implies !(#[trigger] groups[i]
            is Stdin) by {
            if i > 0 {
                assert(groups.skip(1)[i - 1] == groups[i]);
            }
        }
    }
}

proof fn lemma_stdin_count(groups: Seq<KeyGroupView>, i: int)
    requires
        0 <= i < groups.len(),
        groups[i] is Stdin,
    ensures
        stdin_count(groups) >= 1,
        forall|j: int| 0 <= j < groups.len() && j != i && #[trigger] groups[j] is Stdin ==>
            stdin_count(groups) >= 2,
    decreases groups.len(),
{
    let before = groups.drop_last();
    assert forall|j: int|
        0 <= j < groups.len() && j != i && #[trigger] groups[j] is Stdin implies stdin_count(
        groups,
    ) >= 2 by {
        if i < groups.len() - 1 {
            lemma_stdin_count(before, i);
            if j < groups.len() - 1 {
                assert(before[j] is Stdin);
            }
        } else {
            lemma_stdin_count(before, j);
        }
    }
    if i < groups.len() - 1 {
        lemma_stdin_count(before, i);
    }
}

/// Placeholders can be filled where there is a text for them.
pub proof fn lemma_stdin_is_resolved(groups: Seq<KeyGroupView>, stdin: Option<Seq<char>>)
    requires
        stdin_count(groups) > 0 ==> stdin is Some,
    ensures
        with_stdin(groups, stdin) is Some,
{
    lemma_first_stdin(groups);
    let n = first_stdin(groups) as int;
    if n < groups.len() {
        lemma_stdin_count(groups, n);
    }
}

/// Groups without a placeholder stay as they are.
pub proof fn lemma_no_stdin_stays(groups: Seq<KeyGroupView>, stdin: Option<Seq<char>>)
    requires
        no_stdin(groups),
    ensures
        with_stdin(groups, stdin) == Some(groups),
{
    lemma_first_stdin(groups);
}

proof fn lemma_delayed_no_stdin(groups: Seq<KeyGroupView>, delay: u64)
    requires
        no_stdin(groups),
    ensures
        no_stdin(delayed(groups, delay)),
    decreases groups.len(),
{
    if delay != 0 && groups.len() > 0 {
        let before = groups.drop_last();
        assert forall|i: int| 0 <= i < before.len() implies !(#[trigger] before[i] is Stdin) by {
            assert(!(groups[i] is Stdin));
        }
        lemma_delayed_no_stdin(before, delay);
        assert(!(groups[groups.len() - 1] is Stdin));
    }
}

/// Groups without a placeholder hold none that counts.
pub proof fn lemma_no_stdin_count(groups: Seq<KeyGroupView>)
    requires
        no_stdin(groups),
    ensures
        stdin_count(groups) == 0,
    decreases groups.len(),
{
    if groups.len() > 0 {
        let before = groups.drop_last();
        assert forall|i: int| 0 <= i < before.len() implies !(#[trigger] before[i] is Stdin) by {
            assert(!(groups[i] is Stdin));
        }
        lemma_no_stdin_count(before);
        assert(!(groups[groups.len() - 1] is Stdin));
    }
}

/// An exec that can be carried out leaves no placeholder.
proof fn lemma_exec_groups_no_stdin(
    keys: Seq<Seq<char>>,
    stdin: Option<Seq<char>>,
    delay: u64,
)
    ensures
        exec_groups(keys, stdin, delay) matches Ok(g) ==> no_stdin(g),
{
    if exec_groups(keys, stdin, delay) is Ok {
        let groups = args_groups(keys)->Ok_0;
        let g = with_stdin(groups, stdin)->Some_0;
        let n = first_stdin(groups) as int;
        lemma_first_stdin(groups);
        assert forall|i: int| 0 <= i < g.len() implies !(#[trigger] g[i] is Stdin) by {
            if n < groups.len() && i != n && groups[i] is Stdin {
                lemma_stdin_count(groups, n);
            }
        }
        lemma_delayed_no_stdin(g, delay);
    }
}

fn resolve_stdin(groups: &mut Vec<KeyGroup>, stdin: &Option<String>) -> (ok: bool)
    ensures
        match with_stdin(views(old(groups)@), text_opt(*stdin)) {
            Some(g) => ok && views(final(groups)@) == g,
            None => !ok,
        },
{
    let ghost all = views(groups@);
    let mut n: usize = 0;
    proof {
        assert(all.skip(0) =~= all);
    }
    while n < groups.len() && !matches!(groups[n], KeyGroup::Stdin)
        invariant
            n <= groups@.len(),
            all == views(groups@),
            first_stdin(all) == n + first_stdin(all.skip(n as int)),
        decreases groups@.len() - n,
    {
        proof {
            assert(all.skip(n as int).skip(1) =~= all.skip(n + 1));
        }
        n = n + 1;
    }
    if n == groups.len() {
        return true;
    }
    proof {
        assert(all.skip(n as int)[0] == groups@[n as int]@);
    }
    match stdin {
        Some(t) => {
            groups[n] = KeyGroup::Bytes(bytes_of(pasted_text(t.as_str()).as_str()));
            proof {
                assert(views(groups@) =~= all.update(
                    n as int,
                    KeyGroupView::Bytes(encode_utf8(pasted(t@))),
                ));
            }
            true
        },
        None => false,
    }
}

/// Insert a sleep between adjacent `Bytes` groups. Gives target applications time to process each
/// chunk of input. No-op if delay is zero. Doesn't insert next to existing sleep/wait groups.
pub fn insert_exec_delays(groups: Vec<KeyGroup>, delay: u64) -> (r: Vec<KeyGroup>)
    ensures
        views(r@) == delayed(views(groups@), delay),
{
    if delay == 0 {
        return groups;
    }
    let ghost all = views(groups@);
    let mut groups = groups;
    let ghost values = groups@;
    let mut r: Vec<KeyGroup> = Vec::new();
    let mut prev_was_bytes = false;
    proof {
        assert(views(r@) =~= Seq::empty());
        assert(all.take(0) =~= Seq::empty());
    }
    let n = groups.len();
    for i in 0..n
        invariant
            n == groups@.len() == values.len(),
            all == views(values),
            delay != 0,
            forall|j: int| i <= j < n ==> #[trigger] groups@[j] == values[j],
            views(r@) == delayed_groups(all.take(i as int), delay),
            prev_was_bytes == (i > 0 && all[i - 1] is Bytes),
    {
        let mut group = KeyGroup::Stdin;
        std::mem::swap(&mut group, &mut groups[i]);
        let is_bytes = matches!(group, KeyGroup::Bytes(_));
        let ghost before = views(r@);
        proof {
            assert(group == values[i as int]);
            assert(all.take(i + 1).drop_last() =~= all.take(i as int));
        }
        if is_bytes && prev_was_bytes {
            r.push(KeyGroup::Sleep(delay));
            proof {
                assert(views(r@) =~= before.push(KeyGroupView::Sleep(delay)));
            }
        }
        prev_was_bytes = is_bytes;
        let ghost middle = views(r@);
        r.push(group);
        proof {
            assert(views(r@) =~= middle.push(group@));
        }
    }
    proof {
        assert(all.take(n as int) =~= all);
    }
    r
}

/// The groups that an exec sends.
pub fn prepare_exec(keys: &[String], stdin: &Option<String>, delay: u64) -> (r: Result<
    Vec<KeyGroup>,
    String,
>)
    ensures
        match exec_groups(texts(keys@), text_opt(*stdin), delay) {
            Ok(g) => r matches Ok(v) && views(v@) == g,
            Err(e) => r matches Err(m) && m@ == e,
        },
{
    // Parse keys (already validated at CLI time, but could come from other sources)
    let mut groups = match parse_exec_args(keys) {
        Ok(groups) => groups,
        Err(e) => {
            return Err(e);
        },
    };
    // Resolve {stdin} to bytes with newline conversion (terminal paste behavior)
    let count = count_stdin(groups.as_slice());
    if !resolve_stdin(&mut groups, stdin) {
        return Err(text("{stdin} used but no stdin data provided"));
    }
    if count > 1 {
        return Err(text("{stdin} can only appear once"));
    }
    // Insert configured delay between adjacent byte groups
    Ok(insert_exec_delays(groups, delay))
}

// === Pending Exec State ===

/// What an exec that is in progress is blocked on.
#[derive(Debug, Clone, Copy, PartialEq, Eq, Structural)]
pub enum PendingPause {
    /// Hard sleep: resume at this time.
    Sleep { resume_at: u128 },
    /// Soft wait: go on early if output settles, or at the deadline. The threshold is in
    /// milliseconds.
    Wait { deadline: u128, idle_threshold: u64 },
}

/// Whether a pause is over. A wait is over once there was no output for its threshold.
pub open spec fn pause_over(pause: PendingPause, now: u64, last_activity: u64) -> bool {
    match pause {
        PendingPause::Sleep { resume_at } => now >= resume_at,
        PendingPause::Wait { deadline, idle_threshold } => {
            let idle = if now > last_activity {
                now - last_activity
            } else {
                0
            };
            idle >= idle_threshold * MILLI || now >= deadline
        },
    }
}

impl PendingPause {
    pub fn is_over(&self, now: u64, last_activity: u64) -> (r: bool)
        ensures
            r == pause_over(*self, now, last_activity),
    {
        match self {
            PendingPause::Sleep { resume_at } => now as u128 >= *resume_at,
            PendingPause::Wait { deadline, idle_threshold } => {
                let idle: u128 = now.saturating_sub(last_activity) as u128;
                let threshold: u128 = *idle_threshold as u128 * MILLI;
                idle >= threshold || now as u128 >= *deadline
            },
        }
    }
}

/// State for an in-progress exec that may have sleep/wait pauses.
pub struct PendingExec {
    request_id: u64,
    groups: Vec<KeyGroup>,
    index: usize,
    pause: Option<PendingPause>,
}

/// An exec in progress: the groups that are still to be sent, and what it waits for.
#[verifier::ext_equal]
pub struct PendingView {
    pub request_id: u64,
    pub rest: Seq<KeyGroupView>,
    pub pause: Option<PendingPause>,
}

impl View for PendingExec {
    type V = PendingView;

    closed spec fn view(&self) -> PendingView {
        PendingView {
            request_id: self.request_id,
            rest: views(self.groups@).skip(self.index as int),
            pause: self.pause,
        }
    }
}

/// The bytes up to the next pause, the groups behind it, and the pause.
pub open spec fn run_groups(groups: Seq<KeyGroupView>, now: u64, idle_threshold_ms: u64) -> (
    Seq<u8>,
    Seq<KeyGroupView>,
    Option<PendingPause>,
)
    decreases groups.len(),
{
    if groups.len() == 0 {
        (Seq::empty(), groups, None)
    } else {
        let rest = groups.skip(1);
        match groups[0] {
            KeyGroupView::Bytes(b) => {
                let (bytes, left, pause) = run_groups(rest, now, idle_threshold_ms);
                (b + bytes, left, pause)
            },
            KeyGroupView::Sleep(ms) => (
                Seq::empty(),
                rest,
                Some(PendingPause::Sleep { resume_at: (now + ms * MILLI) as u128 }),
            ),
            KeyGroupView::Wait { timeout, idle_threshold } => (
                Seq::empty(),
                rest,
                Some(
                    PendingPause::Wait {
                        deadline: (now + timeout * MILLI) as u128,
                        idle_threshold: match idle_threshold {
                            Some(ms) => ms,
                            None => idle_threshold_ms,
                        },
                    },
                ),
            ),
            KeyGroupView::Stdin => (Seq::empty(), groups, None),
        }
    }
}

pub open spec fn is_done(pending: PendingView) -> bool {
    pending.rest.len() == 0 && pending.pause is None
}

impl PendingExec {
    /// What every operation keeps.
    pub closed spec fn wf(&self) -> bool {
        self.index <= self.groups@.len()
    }

    pub fn new(request_id: u64, groups: Vec<KeyGroup>) -> (p: Self)
        ensures
            p.wf(),
            p@ == (PendingView { request_id, rest: views(groups@), pause: None }),
    {
        let p = PendingExec { request_id, groups, index: 0, pause: None };
        proof {
            assert(p@.rest =~= views(groups@));
        }
        p
    }

    pub fn request_id(&self) -> (id: u64)
        ensures
            id == self@.request_id,
    {
        self.request_id
    }

    /// Whether this exec is fully complete (all groups processed, no pending pause).
    pub fn is_done(&self) -> (r: bool)
        requires
            self.wf(),
        ensures
            r == is_done(self@),
    {
        self.index >= self.groups.len() && self.pause.is_none()
    }

    pub fn is_paused(&self, now: u64, last_activity: u64) -> (r: bool)
        ensures
            r == (self@.pause matches Some(p) && !pause_over(p, now, last_activity)),
    {
        match &self.pause {
            Some(pause) => !pause.is_over(now, last_activity),
            None => false,
        }
    }

    /// Advance past a pause that is over: collect bytes until the next pause or the end. Returns
    /// bytes to write to the PTY.
    pub fn advance(&mut self, now: u64, idle_threshold_ms: u64) -> (bytes: Vec<u8>)
        requires
            old(self).wf(),
            no_stdin(old(self)@.rest),
        ensures
            final(self).wf(),
            final(self)@.request_id == old(self)@.request_id,
            (bytes@, final(self)@.rest, final(self)@.pause) == run_groups(
                old(self)@.rest,
                now,
                idle_threshold_ms,
            ),
    {
        let ghost all = views(self.groups@);
        let ghost start = self@.rest;
        let mut bytes: Vec<u8> = Vec::new();
        self.pause = None;
        proof {
            let (b, left, pause) = run_groups(start, now, idle_threshold_ms);
            assert(Seq::<u8>::empty() + b =~= b);
        }
        while self.index < self.groups.len()
            invariant
                self.index <= self.groups@.len(),
                all == views(self.groups@),
                start == old(self)@.rest,
                self.request_id == old(self)@.request_id,
                self.pause is None,
                no_stdin(all.skip(self.index as int)),
                ({
                    let (b, left, pause) = run_groups(
                        all.skip(self.index as int),
                        now,
                        idle_threshold_ms,
                    );
                    (bytes@ + b, left, pause) == run_groups(start, now, idle_threshold_ms)
                }),
            decreases self.groups@.len() - self.index,
        {
            let ghost rest = all.skip(self.index as int);
            let ghost before = bytes@;
            proof {
                assert(rest[0] == self.groups@[self.index as int]@);
                assert(rest.skip(1) =~= all.skip(self.index + 1));
                assert(!(rest[0] is Stdin));
                assert forall|i: int| 0 <= i < rest.skip(1).len() implies !(
                #[trigger] rest.skip(1)[i] is Stdin) by {
                    assert(!(rest[i + 1] is Stdin));
                }
                assert(before + Seq::<u8>::empty() =~= before);
            }
            match &self.groups[self.index] {
                KeyGroup::Bytes(b) => {
                    bytes.extend_from_slice(b.as_slice());
                    proof {
                        let (more, left, pause) = run_groups(
                            rest.skip(1),
                            now,
                            idle_threshold_ms,
                        );
                        assert(bytes@ + more =~= before + (b@ + more));
                    }
                    self.index = self.index + 1;
                },
                KeyGroup::Sleep(ms) => {
                    self.pause = Some(
                        PendingPause::Sleep { resume_at: now as u128 + *ms as u128 * MILLI },
                    );
                    self.index = self.index + 1;
                    return bytes;
                },
                KeyGroup::Wait { timeout, idle_threshold } => {
                    let threshold = match idle_threshold {
                        Some(ms) => *ms,
                        None => idle_threshold_ms,
                    };
                    self.pause = Some(
                        PendingPause::Wait {
                            deadline: now as u128 + *timeout as u128 * MILLI,
                            idle_threshold: threshold,
                        },
                    );
                    self.index = self.index + 1;
                    return bytes;
                },
                KeyGroup::Stdin => {
                    return bytes;
                },
            }
        }
        proof {
            assert(bytes@ + Seq::<u8>::empty() =~= bytes@);
        }
        bytes
    }
}

// === Dispatch State ===

/// Request dispatch state: queues, permissions, and in-flight request tracking.
///
/// Groups all fields related to dispatching client requests through the
/// permission, queue and execution stages.
pub struct DispatchState {
    pub prompt_queue: VecDeque<(SessionRequest, PermissionType)>,
    pub read_queue: VecDeque<SessionRequest>,
    pub exec_queue: VecDeque<SessionRequest>,
    pub current_read: Option<u64>,
    pub current_exec: Option<u64>,
    pub pending_exec: Option<PendingExec>,
    pub send_delay_ms: u64,
    pub idle_threshold_ms: u64,
    pub last_pty_activity: u64,
    pub last_status_push: u64,
    pub permissions: Permissions,
    pub prompt_state: PromptState,
    pub default_permission: DefaultPermission,
}

#[verifier::ext_equal]
pub struct DispatchView {
    pub prompt_queue: Seq<(SessionRequest, PermissionType)>,
    pub read_queue: Seq<SessionRequest>,
    pub exec_queue: Seq<SessionRequest>,
    pub current_read: Option<u64>,
    pub current_exec: Option<u64>,
    pub pending_exec: Option<PendingView>,
    pub send_delay_ms: u64,
    pub idle_threshold_ms: u64,
    pub last_pty_activity: u64,
    pub last_status_push: u64,
    pub permissions: PermissionsView,
    pub prompt_state: PromptState,
    pub default_permission: DefaultPermission,
}

impl View for DispatchState {
    type V = DispatchView;

    open spec fn view(&self) -> DispatchView {
        DispatchView {
            prompt_queue: self.prompt_queue@,
            read_queue: self.read_queue@,
            exec_queue: self.exec_queue@,
            current_read: self.current_read,
            current_exec: self.current_exec,
            pending_exec: match self.pending_exec {
                Some(p) => Some(p@),
                None => None,
            },
            send_delay_ms: self.send_delay_ms,
            idle_threshold_ms: self.idle_threshold_ms,
            last_pty_activity: self.last_pty_activity,
            last_status_push: self.last_status_push,
            permissions: self.permissions@,
            prompt_state: self.prompt_state,
            default_permission: self.default_permission,
        }
    }
}

impl DispatchView {
    /// What every operation keeps: only execs are queued as such, an exec is current exactly while
    /// it is in progress, and no placeholder is left in what it is to send.
    pub open spec fn wf(self) -> bool {
        &&& forall|i: int|
            0 <= i < self.exec_queue.len() ==> (#[trigger] self.exec_queue[i]).request is Exec
        &&& match self.pending_exec {
            Some(p) => {
                &&& self.current_exec == Some(p.request_id)
                &&& no_stdin(p.rest)
            },
            None => self.current_exec is None,
        }
    }

    /// Nothing waits and nothing is in progress.
    pub open spec fn cleared(self) -> DispatchView {
        DispatchView {
            prompt_queue: Seq::empty(),
            read_queue: Seq::empty(),
            exec_queue: Seq::empty(),
            current_read: None,
            current_exec: None,
            pending_exec: None,
            prompt_state: PromptState::Idle,
            ..self
        }
    }
}

/// The state of a session that was asked for nothing yet.
pub open spec fn new_dispatch(config: Config, now: u64) -> DispatchView {
    DispatchView {
        prompt_queue: Seq::empty(),
        read_queue: Seq::empty(),
        exec_queue: Seq::empty(),
        current_read: None,
        current_exec: None,
        pending_exec: None,
        send_delay_ms: config.send_delay_ms,
        idle_threshold_ms: config.idle_threshold_ms,
        last_pty_activity: now,
        last_status_push: now,
        permissions: PermissionsView { read: Set::empty(), write: Set::empty() },
        prompt_state: PromptState::Idle,
        default_permission: config.default_permission,
    }
}

impl DispatchState {
    /// What every operation keeps.
    pub open spec fn wf(&self) -> bool {
        &&& self@.wf()
        &&& self.pending_exec matches Some(p) ==> p.wf()
    }

    pub fn new(config: &Config, now: u64) -> (d: Self)
        ensures
            d.wf(),
            d@ == new_dispatch(*config, now),
    {
        DispatchState {
            prompt_queue: VecDeque::new(),
            read_queue: VecDeque::new(),
            exec_queue: VecDeque::new(),
            current_read: None,
            current_exec: None,
            pending_exec: None,
            send_delay_ms: config.send_delay_ms,
            idle_threshold_ms: config.idle_threshold_ms,
            last_pty_activity: now,
            last_status_push: now,
            permissions: Permissions::new(),
            prompt_state: PromptState::Idle,
            default_permission: config.default_permission,
        }
    }

    /// Clear all dispatch state (on disconnect).
    pub fn clear(&mut self)
        ensures
            final(self).wf(),
            final(self)@ == old(self)@.cleared(),
    {
        self.prompt_queue.clear();
        self.read_queue.clear();
        self.exec_queue.clear();
        self.current_read = None;
        self.current_exec = None;
        self.pending_exec = None;
        self.prompt_state = PromptState::Idle;
    }
}

// === What requests do ===

/// The requests that do not have the given id.
pub open spec fn without(queue: Seq<SessionRequest>, id: u64) -> Seq<SessionRequest>
    decreases queue.len(),
{
    if queue.len() == 0 {
        Seq::empty()
    } else if queue.last().id == id {
        without(queue.drop_last(), id)
    } else {
        without(queue.drop_last(), id).push(queue.last())
    }
}

/// The prompts for requests that do not have the given id.
pub open spec fn prompts_without(queue: Seq<(SessionRequest, PermissionType)>, id: u64) -> Seq<
    (SessionRequest, PermissionType),
>
    decreases queue.len(),
{
    if queue.len() == 0 {
        Seq::empty()
    } else if queue.last().0.id == id {
        prompts_without(queue.drop_last(), id)
    } else {
        prompts_without(queue.drop_last(), id).push(queue.last())
    }
}

impl SessionView {
    pub open spec fn with_dispatch(self, dispatch: DispatchView) -> SessionView {
        SessionView { dispatch, ..self }
    }

    /// An exec is current: others wait for it.
    pub open spec fn with_current_exec(self, id: u64) -> SessionView {
        self.with_dispatch(DispatchView { current_exec: Some(id), ..self.dispatch })
    }

    /// The answer to a request that is done at once.
    pub open spec fn execute(self, request: Request) -> (SessionView, ResponseView) {
        match request {
            Request::Show { .. } => (self.set_visible(true), self.state(self.tag, Some(true))),
            Request::Hide { .. } => (self.set_visible(false), self.state(self.tag, Some(false))),
            Request::Tag { new_tag, delete, .. } => {
                let s = self.set_tag(text_opt(new_tag), delete);
                (s, s.state(s.tag, None))
            },
            Request::Clear { .. } => (self.clear_history(), self.state(None, None)),
            Request::Peek { .. } => (self, self.peek()),
            Request::History { count, offset, .. } => (self, self.history(count, offset)),
            _ => (self, err_response(ErrorCode::Internal, "unexpected request"@)),
        }
    }

    /// A request is done and answered.
    pub open spec fn answer(self, req: SessionRequest) -> SessionView {
        let (s, response) = self.execute(req.request);
        s.respond(req.id, response)
    }

    /// The queued reads are answered, one after the other, if none is current.
    pub open spec fn next_read(self) -> SessionView
        decreases self.dispatch.read_queue.len(),
    {
        let d = self.dispatch;
        if d.current_read is Some || d.read_queue.len() == 0 {
            self
        } else {
            self.with_dispatch(
                DispatchView { read_queue: d.read_queue.skip(1), ..d },
            ).answer(d.read_queue[0]).next_read()
        }
    }

    /// A request is done and answered. If it was the current read, the next ones follow.
    pub open spec fn execute_and_respond(self, req: SessionRequest) -> SessionView {
        let s = self.answer(req);
        if s.dispatch.current_read == Some(req.id) {
            s.with_dispatch(DispatchView { current_read: None, ..s.dispatch }).next_read()
        } else {
            s
        }
    }

    /// The keys of an exec are sent, up to its first pause. What is wrong with them is answered.
    pub open spec fn start_exec(self, req: SessionRequest, now: u64) -> SessionView
        decreases self.dispatch.exec_queue.len(), 2nat,
    {
        let d = self.dispatch;
        match req.request {
            Request::Exec { keys, stdin, .. } => match exec_groups(
                texts(keys@),
                text_opt(stdin),
                d.send_delay_ms,
            ) {
                Err(e) => self.respond(req.id, err_response(ErrorCode::Internal, e)),
                Ok(groups) => self.with_current_exec(req.id).run_exec(req.id, groups, now),
            },
            _ => self,
        }
    }

    /// The groups of an exec are sent, up to the next pause. At the end it is answered and the
    /// next exec follows.
    pub open spec fn run_exec(self, id: u64, groups: Seq<KeyGroupView>, now: u64) -> SessionView
        decreases self.dispatch.exec_queue.len(), 1nat,
    {
        let (bytes, rest, pause) = run_groups(groups, now, self.dispatch.idle_threshold_ms);
        let s = self.write(bytes);
        let pending = PendingView { request_id: id, rest, pause };
        if is_done(pending) {
            s.finish_exec(id, now)
        } else {
            s.with_dispatch(DispatchView { pending_exec: Some(pending), ..s.dispatch })
        }
    }

    /// An exec is answered, and the next one follows.
    pub open spec fn finish_exec(self, id: u64, now: u64) -> SessionView
        decreases self.dispatch.exec_queue.len(), 0nat,
    {
        let s = self.respond(id, self.exec_response());
        let d = DispatchView { current_exec: None, ..s.dispatch };
        if d.exec_queue.len() == 0 {
            s.with_dispatch(d)
        } else {
            s.with_dispatch(DispatchView { exec_queue: d.exec_queue.skip(1), ..d }).start_exec(
                d.exec_queue[0],
                now,
            )
        }
    }

    /// The next exec follows, if none is current.
    pub open spec fn next_exec(self, now: u64) -> SessionView {
        let d = self.dispatch;
        if d.current_exec is Some || d.exec_queue.len() == 0 {
            self
        } else {
            self.with_dispatch(DispatchView { exec_queue: d.exec_queue.skip(1), ..d }).start_exec(
                d.exec_queue[0],
                now,
            )
        }
    }

    /// A request that is permitted is done, or waits for others of its kind.
    pub open spec fn route(self, req: SessionRequest, now: u64) -> SessionView {
        let d = self.dispatch;
        match category_of(req.request) {
            RequestCategory::Instant => self.execute_and_respond(req),
            RequestCategory::Read => if d.current_read is None {
                self.with_dispatch(
                    DispatchView { current_read: Some(req.id), ..d },
                ).execute_and_respond(req)
            } else {
                self.with_dispatch(DispatchView { read_queue: d.read_queue.push(req), ..d })
            },
            RequestCategory::Exec => if d.current_exec is None {
                self.start_exec(req, now)
            } else {
                self.with_dispatch(DispatchView { exec_queue: d.exec_queue.push(req), ..d })
            },
        }
    }

    /// The next prompt is shown, if none is.
    pub open spec fn show_prompt(self) -> SessionView {
        let d = self.dispatch;
        if d.prompt_state is Pending || d.prompt_queue.len() == 0 {
            self
        } else {
            self.with_dispatch(
                DispatchView {
                    prompt_state: PromptState::Pending {
                        request: d.prompt_queue[0].0,
                        permission_type: d.prompt_queue[0].1,
                        selected: 0,
                        expanded: false,
                        scroll_offset: 0,
                    },
                    prompt_queue: d.prompt_queue.skip(1),
                    ..d
                },
            ).mark_dirty()
        }
    }

    /// Whether the user is to be asked before a request is done.
    pub open spec fn must_ask(self, req: SessionRequest) -> Option<PermissionType> {
        match permission_of(category_of(req.request)) {
            Some(p) if self.dispatch.default_permission == DefaultPermission::Prompt
                && !self.dispatch.permissions.allowed(req.source_id@, p) => Some(p),
            _ => None,
        }
    }

    /// Whether a request is refused without asking.
    pub open spec fn must_refuse(self, req: SessionRequest) -> bool {
        permission_of(category_of(req.request)) is Some && self.dispatch.default_permission
            == DefaultPermission::Deny
    }

    /// A request came in: it is refused, put before the user, or done.
    pub open spec fn dispatch_request(self, req: SessionRequest, now: u64) -> SessionView {
        let d = self.dispatch;
        if self.must_refuse(req) {
            self.respond(req.id, err_response(ErrorCode::PermissionDenied, "denied by policy"@))
        } else {
            match self.must_ask(req) {
                Some(p) => self.with_dispatch(
                    DispatchView { prompt_queue: d.prompt_queue.push((req, p)), ..d },
                ).show_prompt(),
                None => self.route(req, now),
            }
        }
    }

    /// The prompt is closed and the next one is shown.
    pub open spec fn close_prompt(self) -> SessionView {
        self.with_dispatch(
            DispatchView { prompt_state: PromptState::Idle, ..self.dispatch },
        ).mark_dirty().show_prompt()
    }

    /// The scroll offset of the expanded keys after a key.
    pub open spec fn scrolled(offset: usize, delta: i32, limit: int) -> int {
        let wanted = if offset + delta > 0 {
            offset + delta
        } else {
            0
        };
        if wanted < limit {
            wanted
        } else {
            limit
        }
    }

    /// The user answered a prompt.
    pub open spec fn resolve_prompt(
        self,
        request: SessionRequest,
        ptype: PermissionType,
        result: PromptResult,
        now: u64,
    ) -> SessionView {
        let d = self.dispatch;
        match result {
            PromptResult::Allow => self.route(request, now),
            PromptResult::AlwaysAllow => self.with_dispatch(
                DispatchView { permissions: d.permissions.allow(request.source_id@, ptype), ..d },
            ).route(request, now),
            PromptResult::Deny => self.respond(
                request.id,
                err_response(ErrorCode::PermissionDenied, "denied by user"@),
            ),
            PromptResult::Navigate => self,
        }.close_prompt()
    }

    /// The user moved around in a prompt.
    pub open spec fn navigate_prompt(
        self,
        request: SessionRequest,
        permission_type: PermissionType,
        r: PromptKeyResult,
        expanded: bool,
        scroll_offset: usize,
        cols: u16,
        rows: u16,
    ) -> SessionView {
        self.with_dispatch(
            DispatchView {
                prompt_state: PromptState::Pending {
                    request,
                    permission_type,
                    selected: r.selected,
                    expanded: expanded != r.toggle_expanded,
                    scroll_offset: SessionView::scrolled(
                        scroll_offset,
                        r.scroll_delta,
                        scroll_limit(request.request, cols as int, rows as int),
                    ) as usize,
                },
                ..self.dispatch
            },
        ).mark_dirty()
    }

    /// The user pressed a key while a prompt is shown.
    pub open spec fn prompt_resolution(self, key: KeyEvent, cols: u16, rows: u16, now: u64) -> SessionView {
        let d = self.dispatch;
        let open = self.with_dispatch(DispatchView { prompt_state: PromptState::Idle, ..d });
        match d.prompt_state {
            PromptState::Idle => self,
            PromptState::Pending { request, permission_type, selected, expanded, scroll_offset } => {
                let r = prompt_key(key.code, selected, expanded, cols, rows);
                if r.result == PromptResult::Navigate {
                    open.navigate_prompt(
                        request,
                        permission_type,
                        r,
                        expanded,
                        scroll_offset,
                        cols,
                        rows,
                    )
                } else {
                    open.resolve_prompt(request, permission_type, r.result, now)
                }
            },
        }
    }

    /// Time passed: an exec goes on once its pause is over.
    pub open spec fn tick(self, now: u64) -> SessionView {
        let d = self.dispatch;
        match d.pending_exec {
            None => self,
            Some(p) => if p.pause matches Some(pause) && !pause_over(
                pause,
                now,
                d.last_pty_activity,
            ) {
                self
            } else {
                self.with_dispatch(DispatchView { pending_exec: None, ..d }).run_exec(
                    p.request_id,
                    p.rest,
                    now,
                )
            },
        }
    }

    /// No prompt for a request that was cancelled is shown or waits.
    pub open spec fn cancel_prompts(self, id: u64) -> SessionView {
        let s = self.with_dispatch(
            DispatchView {
                prompt_queue: prompts_without(self.dispatch.prompt_queue, id),
                ..self.dispatch
            },
        );
        if s.dispatch.prompt_state matches PromptState::Pending { request, .. } && request.id
            == id {
            s.close_prompt()
        } else {
            s
        }
    }

    pub open spec fn cancel_reads(self, id: u64) -> SessionView {
        let s = self.with_dispatch(
            DispatchView { read_queue: without(self.dispatch.read_queue, id), ..self.dispatch },
        );
        if s.dispatch.current_read == Some(id) {
            s.with_dispatch(DispatchView { current_read: None, ..s.dispatch }).next_read()
        } else {
            s
        }
    }

    pub open spec fn cancel_execs(self, id: u64, now: u64) -> SessionView {
        let s = self.with_dispatch(
            DispatchView { exec_queue: without(self.dispatch.exec_queue, id), ..self.dispatch },
        );
        if s.dispatch.current_exec == Some(id) {
            s.with_dispatch(
                DispatchView { current_exec: None, pending_exec: None, ..s.dispatch },
            ).next_exec(now)
        } else {
            s
        }
    }

    /// A request was cancelled. Wherever it is, it goes, and what waited for it goes on.
    pub open spec fn cancel(self, id: u64, now: u64) -> SessionView {
        self.cancel_prompts(id).cancel_reads(id).cancel_execs(id, now)
    }
}

// === Session Dispatch Methods ===

fn remove_requests(queue: &mut VecDeque<SessionRequest>, id: u64)
    ensures
        final(queue)@ == without(old(queue)@, id),
{
    let ghost all = queue@;
    let n = queue.len();
    proof {
        assert(all.skip(0) + without(all.take(0), id) =~= all);
    }
    for i in 0..n
        invariant
            n == all.len(),
            queue@ == all.skip(i as int) + without(all.take(i as int), id),
    {
        let ghost kept = without(all.take(i as int), id);
        if let Some(req) = queue.pop_front() {
            proof {
                assert(req == all[i as int]);
                assert(all.take(i + 1).drop_last() =~= all.take(i as int));
                assert(queue@ =~= all.skip(i + 1) + kept);
            }
            if req.id != id {
                queue.push_back(req);
                proof {
                    assert(queue@ =~= all.skip(i + 1) + kept.push(req));
                }
            }
        }
    }
    proof {
        assert(all.take(n as int) =~= all);
        assert(queue@ =~= without(all, id));
    }
}

fn remove_prompts(queue: &mut VecDeque<(SessionRequest, PermissionType)>, id: u64)
    ensures
        final(queue)@ == prompts_without(old(queue)@, id),
{
    let ghost all = queue@;
    let n = queue.len();
    proof {
        assert(all.skip(0) + prompts_without(all.take(0), id) =~= all);
    }
    for i in 0..n
        invariant
            n == all.len(),
            queue@ == all.skip(i as int) + prompts_without(all.take(i as int), id),
    {
        let ghost kept = prompts_without(all.take(i as int), id);
        if let Some(entry) = queue.pop_front() {
            proof {
                assert(entry == all[i as int]);
                assert(all.take(i + 1).drop_last() =~= all.take(i as int));
                assert(queue@ =~= all.skip(i + 1) + kept);
            }
            if entry.0.id != id {
                queue.push_back(entry);
                proof {
                    assert(queue@ =~= all.skip(i + 1) + kept.push(entry));
                }
            }
        }
    }
    proof {
        assert(all.take(n as int) =~= all);
        assert(queue@ =~= prompts_without(all, id));
    }
}

proof fn lemma_without(queue: Seq<SessionRequest>, id: u64)
    ensures
        forall|i: int|
            0 <= i < without(queue, id).len() ==> (#[trigger] without(queue, id)[i]).id != id
                && queue.contains(without(queue, id)[i]),
    decreases queue.len(),
{
    if queue.len() > 0 {
        let before = queue.drop_last();
        lemma_without(before, id);
        assert forall|i: int| 0 <= i < without(queue, id).len() implies (#[trigger] without(
            queue,
            id,
        )[i]).id != id && queue.contains(without(queue, id)[i]) by {
            let r = without(queue, id)[i];
            if i < without(before, id).len() {
                assert(r == without(before, id)[i]);
                let j = choose|j: int| 0 <= j < before.len() && before[j] == r;
                assert(queue[j] == r);
            } else {
                assert(queue[queue.len() - 1] == r);
            }
        }
    }
}

proof fn lemma_prompts_without(queue: Seq<(SessionRequest, PermissionType)>, id: u64)
    ensures
        forall|i: int|
            0 <= i < prompts_without(queue, id).len() ==> (#[trigger] prompts_without(
                queue,
                id,
            )[i]).0.id != id && queue.contains(prompts_without(queue, id)[i]),
    decreases queue.len(),
{
    if queue.len() > 0 {
        let before = queue.drop_last();
        lemma_prompts_without(before, id);
        assert forall|i: int| 0 <= i < prompts_without(queue, id).len() implies (
        #[trigger] prompts_without(queue, id)[i]).0.id != id && queue.contains(
            prompts_without(queue, id)[i],
        ) by {
            let r = prompts_without(queue, id)[i];
            if i < prompts_without(before, id).len() {
                assert(r == prompts_without(before, id)[i]);
                let j = choose|j: int| 0 <= j < before.len() && before[j] == r;
                assert(queue[j] == r);
            } else {
                assert(queue[queue.len() - 1] == r);
            }
        }
    }
}

/// How many placeholders for stdin there are.
pub fn count_stdin(groups: &[KeyGroup]) -> (n: usize)
    ensures
        n == stdin_count(views(groups@)),
{
    let mut n: usize = 0;
    let ghost all = views(groups@);
    for i in 0..groups.len()
        invariant
            all == views(groups@),
            n == stdin_count(all.take(i as int)),
            n <= i,
    {
        proof {
            assert(all.take(i + 1).drop_last() =~= all.take(i as int));
            assert(all.take(i + 1).last() == groups@[i as int]@);
        }
        if matches!(groups[i], KeyGroup::Stdin) {
            n = n + 1;
        }
    }
    proof {
        assert(all.take(groups@.len() as int) =~= all);
    }
    n
}

impl Session {
    /// Execute a request and return response.
    pub fn execute_request(&mut self, req: &SessionRequest) -> (r: Response)
        requires
            old(self).wf(),
        ensures
            final(self).wf(),
            (final(self)@, r@) == old(self)@.execute(req.request),
    {
        match &req.request {
            Request::Show { .. } => self.cmd_show(),
            Request::Hide { .. } => self.cmd_hide(),
            Request::Tag { new_tag, delete, .. } => self.cmd_tag(new_tag.clone(), *delete),
            Request::Clear { .. } => self.cmd_clear(),
            Request::Peek { .. } => self.cmd_peek(),
            Request::History { count, offset, .. } => self.cmd_history(*count, *offset),
            // Exec is handled by execute_exec(), not here
            _ => Response::err(ErrorCode::Internal, text("unexpected request")),
        }
    }

    fn answer(&mut self, req: &SessionRequest)
        requires
            old(self).wf(),
        ensures
            final(self).wf(),
            final(self)@ == old(self)@.answer(*req),
    {
        let response = self.execute_request(req);
        self.send_response(req.id, response);
    }

    /// Try to advance the read queue.
    #[verifier::spinoff_prover]
    fn try_advance_read_queue(&mut self)
        requires
            old(self).wf(),
        ensures
            final(self).wf(),
            final(self)@ == old(self)@.next_read(),
    {
        while self.dispatch.current_read.is_none() && self.dispatch.read_queue.len() > 0
            invariant
                self.wf(),
                self@.next_read() == old(self)@.next_read(),
            decreases self@.dispatch.read_queue.len(),
        {
            let ghost before = self@;
            if let Some(req) = self.dispatch.read_queue.pop_front() {
                proof {
                    assert(self.dispatch@.read_queue =~= before.dispatch.read_queue.skip(1));
                }
                self.answer(&req);
            }
        }
    }

    /// Execute a request and send response (for instant/read).
    fn execute_and_respond(&mut self, req: SessionRequest)
        requires
            old(self).wf(),
        ensures
            final(self).wf(),
            final(self)@ == old(self)@.execute_and_respond(req),
    {
        self.answer(&req);
        // If it was a read, clear and try advance
        if self.dispatch.current_read == Some(req.id) {
            self.dispatch.current_read = None;
            self.try_advance_read_queue();
        }
    }

    /// Execute an exec request: parse keys, write to PTY, handle sleeps/waits.
    #[verifier::spinoff_prover]
    fn execute_exec(&mut self, req: SessionRequest, now: u64)
        requires
            old(self).wf(),
            old(self)@.dispatch.current_exec is None,
            req.request is Exec,
        ensures
            final(self).wf(),
            final(self)@ == old(self)@.start_exec(req, now),
        decreases old(self)@.dispatch.exec_queue.len(), 2nat,
    {
        let groups = match &req.request {
            Request::Exec { keys, stdin, .. } => {
                proof {
                    lemma_exec_groups_no_stdin(
                        texts(keys@),
                        text_opt(*stdin),
                        self.dispatch.send_delay_ms,
                    );
                }
                prepare_exec(keys.as_slice(), stdin, self.dispatch.send_delay_ms)
            },
            _ => {
                return;
            },
        };
        match groups {
            Err(e) => self.send_response(req.id, Response::err(ErrorCode::Internal, e)),
            Ok(groups) => self.run_pending(PendingExec::new(req.id, groups), now),
        }
    }

    /// Write up to the next pause. At the end, respond and advance the queue.
    #[verifier::spinoff_prover]
    fn run_pending(&mut self, pending: PendingExec, now: u64)
        requires
            old(self).wf(),
            old(self)@.dispatch.current_exec is None,
            pending.wf(),
            no_stdin(pending@.rest),
        ensures
            final(self).wf(),
            final(self)@ == old(self)@.with_current_exec(pending@.request_id).run_exec(
                pending@.request_id,
                pending@.rest,
                now,
            ),
        decreases old(self)@.dispatch.exec_queue.len(), 1nat,
    {
        let mut pending = pending;
        proof {
            lemma_run_groups_no_stdin(pending@.rest, now, self.dispatch.idle_threshold_ms);
        }
        let id = pending.request_id();
        let bytes = pending.advance(now, self.dispatch.idle_threshold_ms);
        self.queue_pty_write(bytes.as_slice());
        if pending.is_done() {
            self.finish_exec(id, now);
        } else {
            self.dispatch.current_exec = Some(id);
            self.dispatch.pending_exec = Some(pending);
        }
    }

    /// Complete an exec: respond to client and advance the queue.
    #[verifier::spinoff_prover]
    fn finish_exec(&mut self, request_id: u64, now: u64)
        requires
            old(self).wf(),
            old(self)@.dispatch.current_exec is None,
        ensures
            final(self).wf(),
            final(self)@ == old(self)@.with_current_exec(request_id).finish_exec(request_id, now),
        decreases old(self)@.dispatch.exec_queue.len(), 0nat,
    {
        let response = self.build_exec_response();
        self.send_response(request_id, response);
        let ghost before = self@;
        if let Some(req) = self.dispatch.exec_queue.pop_front() {
            proof {
                assert(self.dispatch@.exec_queue =~= before.dispatch.exec_queue.skip(1));
                assert(req == before.dispatch.exec_queue[0]);
            }
            self.execute_exec(req, now);
        }
    }

    /// Try to advance the exec queue.
    #[verifier::spinoff_prover]
    fn try_advance_exec_queue(&mut self, now: u64)
        requires
            old(self).wf(),
        ensures
            final(self).wf(),
            final(self)@ == old(self)@.next_exec(now),
    {
        if self.dispatch.current_exec.is_none() {
            let ghost before = self@;
            if let Some(req) = self.dispatch.exec_queue.pop_front() {
                proof {
                    assert(self.dispatch@.exec_queue =~= before.dispatch.exec_queue.skip(1));
                    assert(req == before.dispatch.exec_queue[0]);
                }
                self.execute_exec(req, now);
            }
        }
    }

    /// Called every event loop tick. Advances pending execs past pauses.
    #[verifier::spinoff_prover]
    pub fn tick_pending_exec(&mut self, now: u64)
        requires
            old(self).wf(),
        ensures
            final(self).wf(),
            final(self)@ == old(self)@.tick(now),
    {
        let pending = match self.dispatch.pending_exec.take() {
            Some(p) => p,
            None => {
                return;
            },
        };
        if pending.is_paused(now, self.dispatch.last_pty_activity) {
            self.dispatch.pending_exec = Some(pending);
            return;
        }
        self.dispatch.current_exec = None;
        self.run_pending(pending, now);
    }

    /// Route a permitted request to execution based on its category.
    #[verifier::spinoff_prover]
    fn route_to_execution(&mut self, req: SessionRequest, now: u64)
        requires
            old(self).wf(),
        ensures
            final(self).wf(),
            final(self)@ == old(self)@.route(req, now),
    {
        match classify_request(&req.request) {
            RequestCategory::Instant => self.execute_and_respond(req),
            RequestCategory::Read => if self.dispatch.current_read.is_none() {
                self.dispatch.current_read = Some(req.id);
                self.execute_and_respond(req);
            } else {
                self.dispatch.read_queue.push_back(req);
            },
            RequestCategory::Exec => if self.dispatch.current_exec.is_none() {
                self.execute_exec(req, now);
            } else {
                self.dispatch.exec_queue.push_back(req);
            },
        }
    }

    /// Try to show the next prompt if none is active.
    #[verifier::spinoff_prover]
    fn try_show_prompt(&mut self)
        requires
            old(self).wf(),
        ensures
            final(self).wf(),
            final(self)@ == old(self)@.show_prompt(),
    {
        if self.dispatch.prompt_state.is_pending() {
            return;
        }
        let ghost before = self@;
        if let Some((request, permission_type)) = self.dispatch.prompt_queue.pop_front() {
            proof {
                assert(self.dispatch@.prompt_queue =~= before.dispatch.prompt_queue.skip(1));
                assert((request, permission_type) == before.dispatch.prompt_queue[0]);
            }
            self.dispatch.prompt_state = PromptState::Pending {
                request,
                permission_type,
                selected: 0,  // Default to Allow
                expanded: false,
                scroll_offset: 0,
            };
            self.view.mark_dirty();
        }
    }

    /// Dispatch an incoming request: classify, check permissions, queue or execute.
    #[verifier::spinoff_prover]
    pub fn dispatch_request(&mut self, req: SessionRequest, now: u64)
        requires
            old(self).wf(),
        ensures
            final(self).wf(),
            final(self)@ == old(self)@.dispatch_request(req, now),
    {
        let category = classify_request(&req.request);
        // Check if permission is needed and granted
        let prompt_type = match permission_for_category(category) {
            None => None,
            Some(ptype) => match self.dispatch.default_permission {
                DefaultPermission::Allow => None,
                DefaultPermission::Deny => {
                    // Denied by policy: respond immediately
                    self.send_response(
                        req.id,
                        Response::err(ErrorCode::PermissionDenied, text("denied by policy")),
                    );
                    return;
                },
                DefaultPermission::Prompt => if self.dispatch.permissions.is_allowed(
                    req.source_id.as_str(),
                    ptype,
                ) {
                    None
                } else {
                    Some(ptype)
                },
            },
        };
        match prompt_type {
            Some(ptype) => {
                self.dispatch.prompt_queue.push_back((req, ptype));
                self.try_show_prompt();
            },
            None => self.route_to_execution(req, now),
        }
    }

    fn close_prompt(&mut self)
        requires
            old(self).wf(),
        ensures
            final(self).wf(),
            final(self)@ == old(self)@.close_prompt(),
    {
        self.dispatch.prompt_state = PromptState::Idle;
        self.view.mark_dirty();
        self.try_show_prompt();
    }

    /// Handle prompt keyboard input and resolution.
    #[verifier::spinoff_prover]
    pub fn handle_prompt_resolution(&mut self, key: &KeyEvent, cols: u16, rows: u16, now: u64)
        requires
            old(self).wf(),
        ensures
            final(self).wf(),
            final(self)@ == old(self)@.prompt_resolution(*key, cols, rows, now),
    {
        let mut state = PromptState::Idle;
        std::mem::swap(&mut state, &mut self.dispatch.prompt_state);
        let (request, permission_type, selected, expanded, scroll_offset) = match state {
            PromptState::Pending {
                request,
                permission_type,
                selected,
                expanded,
                scroll_offset,
            } => (request, permission_type, selected, expanded, scroll_offset),
            PromptState::Idle => {
                return;
            },
        };
        let r = handle_prompt_key(key, selected, expanded, cols, rows);
        if r.result == PromptResult::Navigate {
            self.navigate_prompt(request, permission_type, r, expanded, scroll_offset, cols, rows);
        } else {
            self.resolve_prompt(request, permission_type, r.result, now);
        }
    }

    #[verifier::spinoff_prover]
    fn navigate_prompt(
        &mut self,
        request: SessionRequest,
        permission_type: PermissionType,
        r: PromptKeyResult,
        expanded: bool,
        scroll_offset: usize,
        cols: u16,
        rows: u16,
    )
        requires
            old(self).wf(),
        ensures
            final(self).wf(),
            final(self)@ == old(self)@.navigate_prompt(
                request,
                permission_type,
                r,
                expanded,
                scroll_offset,
                cols,
                rows,
            ),
    {
        // Clamp scroll to max (preserve position across hide/show)
        let limit = max_scroll_offset(&request.request, cols, rows);
        let scroll_offset = scroll_by(scroll_offset, r.scroll_delta, limit);
        self.dispatch.prompt_state = PromptState::Pending {
            request,
            permission_type,
            selected: r.selected,
            expanded: expanded != r.toggle_expanded,
            scroll_offset,
        };
        self.view.mark_dirty();
    }

    #[verifier::spinoff_prover]
    fn resolve_prompt(
        &mut self,
        request: SessionRequest,
        ptype: PermissionType,
        result: PromptResult,
        now: u64,
    )
        requires
            old(self).wf(),
        ensures
            final(self).wf(),
            final(self)@ == old(self)@.resolve_prompt(request, ptype, result, now),
    {
        match result {
            PromptResult::Allow => self.route_to_execution(request, now),
            PromptResult::AlwaysAllow => {
                self.dispatch.permissions.allow(request.source_id.clone(), ptype);
                self.route_to_execution(request, now);
            },
            PromptResult::Deny => self.send_response(
                request.id,
                Response::err(ErrorCode::PermissionDenied, text("denied by user")),
            ),
            PromptResult::Navigate => {},
        }
        self.close_prompt();
    }

    /// Handle a cancel message from daemon.
    #[verifier::spinoff_prover]
    pub fn handle_cancel(&mut self, request_id: u64, now: u64)
        requires
            old(self).wf(),
        ensures
            final(self).wf(),
            final(self)@ == old(self)@.cancel(request_id, now),
    {
        self.cancel_prompts(request_id);
        self.cancel_reads(request_id);
        self.cancel_execs(request_id, now);
    }

    #[verifier::spinoff_prover]
    fn cancel_prompts(&mut self, request_id: u64)
        requires
            old(self).wf(),
        ensures
            final(self).wf(),
            final(self)@ == old(self)@.cancel_prompts(request_id),
    {
        proof {
            lemma_prompts_without(self.dispatch.prompt_queue@, request_id);
        }
        remove_prompts(&mut self.dispatch.prompt_queue, request_id);
        let shown = match &self.dispatch.prompt_state {
            PromptState::Pending { request, .. } => request.id == request_id,
            PromptState::Idle => false,
        };
        if shown {
            self.close_prompt();
        }
    }

    #[verifier::spinoff_prover]
    fn cancel_reads(&mut self, request_id: u64)
        requires
            old(self).wf(),
        ensures
            final(self).wf(),
            final(self)@ == old(self)@.cancel_reads(request_id),
    {
        remove_requests(&mut self.dispatch.read_queue, request_id);
        if self.dispatch.current_read == Some(request_id) {
            self.dispatch.current_read = None;
            self.try_advance_read_queue();
        }
    }

    #[verifier::spinoff_prover]
    fn cancel_execs(&mut self, request_id: u64, now: u64)
        requires
            old(self).wf(),
        ensures
            final(self).wf(),
            final(self)@ == old(self)@.cancel_execs(request_id, now),
    {
        proof {
            lemma_without(self.dispatch.exec_queue@, request_id);
        }
        remove_requests(&mut self.dispatch.exec_queue, request_id);
        if self.dispatch.current_exec == Some(request_id) {
            self.dispatch.current_exec = None;
            self.dispatch.pending_exec = None;
            self.try_advance_exec_queue(now);
        }
    }
}

fn scroll_by(offset: usize, delta: i32, limit: usize) -> (n: usize)
    ensures
        n == SessionView::scrolled(offset, delta, limit as int),
{
    let wanted: i128 = offset as i128 + delta as i128;
    if wanted <= 0 {
        0
    } else if wanted < limit as i128 {
        wanted as usize
    } else {
        limit
    }
}

proof fn lemma_run_groups_no_stdin(groups: Seq<KeyGroupView>, now: u64, idle_threshold_ms: u64)
    requires
        no_stdin(groups),
    ensures
        no_stdin(run_groups(groups, now, idle_threshold_ms).1),
    decreases groups.len(),
{
    if groups.len() > 0 {
        let rest = groups.skip(1);
        assert forall|i: int| 0 <= i < rest.len() implies !(#[trigger] rest[i] is Stdin) by {
            assert(!(groups[i + 1] is Stdin));
        }
        lemma_run_groups_no_stdin(rest, now, idle_threshold_ms);
    }
}

// === Laws ===

/// All bytes of a list of groups.
pub open spec fn all_bytes(groups: Seq<KeyGroupView>) -> Seq<u8>
    decreases groups.len(),
{
    if groups.len() == 0 {
        Seq::empty()
    } else {
        (match groups[0] {
            KeyGroupView::Bytes(b) => b,
            _ => Seq::empty(),
        }) + all_bytes(groups.skip(1))
    }
}

proof fn lemma_all_bytes_push(groups: Seq<KeyGroupView>, g: KeyGroupView)
    ensures
        all_bytes(groups.push(g)) == all_bytes(groups) + match g {
            KeyGroupView::Bytes(b) => b,
            _ => Seq::empty(),
        },
    decreases groups.len(),
{
    let more = match g {
        KeyGroupView::Bytes(b) => b,
        _ => Seq::empty(),
    };
    if groups.len() == 0 {
        assert(groups.push(g).skip(1) =~= Seq::<KeyGroupView>::empty());
        assert(all_bytes(groups.push(g).skip(1)) =~= Seq::<u8>::empty());
        assert(all_bytes(groups.push(g)) =~= all_bytes(groups) + more);
    } else {
        lemma_all_bytes_push(groups.skip(1), g);
        assert(groups.push(g).skip(1) =~= groups.skip(1).push(g));
        assert(all_bytes(groups.push(g)) =~= all_bytes(groups) + more);
    }
}

proof fn lemma_delays_change_no_bytes(groups: Seq<KeyGroupView>, delay: u64)
    ensures
        all_bytes(delayed_groups(groups, delay)) == all_bytes(groups),
    decreases groups.len(),
{
    if groups.len() > 0 {
        let before = groups.drop_last();
        let done = delayed_groups(before, delay);
        lemma_delays_change_no_bytes(before, delay);
        assert(groups =~= before.push(groups.last()));
        lemma_all_bytes_push(before, groups.last());
        lemma_all_bytes_push(done, KeyGroupView::Sleep(delay));
        lemma_all_bytes_push(done.push(KeyGroupView::Sleep(delay)), groups.last());
        lemma_all_bytes_push(done, groups.last());
        assert(all_bytes(done) + Seq::<u8>::empty() =~= all_bytes(done));
    }
}

/// Pauses between keys change no byte of what is sent.
pub proof fn law_delays_change_no_bytes(groups: Seq<KeyGroupView>, delay: u64)
    ensures
        all_bytes(delayed(groups, delay)) == all_bytes(groups),
{
    lemma_delays_change_no_bytes(groups, delay);
}

/// Running an exec up to a pause loses nothing: what is sent now and what is left to send are,
/// together, what there was to send.
pub proof fn law_running_an_exec_loses_no_bytes(
    groups: Seq<KeyGroupView>,
    now: u64,
    idle_threshold_ms: u64,
)
    ensures
        ({
            let (bytes, rest, pause) = run_groups(groups, now, idle_threshold_ms);
            bytes + all_bytes(rest) == all_bytes(groups)
        }),
    decreases groups.len(),
{
    let (bytes, rest, pause) = run_groups(groups, now, idle_threshold_ms);
    if groups.len() > 0 {
        law_running_an_exec_loses_no_bytes(groups.skip(1), now, idle_threshold_ms);
    }
    assert(bytes + all_bytes(rest) =~= all_bytes(groups));
}

/// A wait is over at its deadline at the latest, and before that exactly when there was no output
/// for its threshold.
pub proof fn law_a_wait_ends_when_output_settles(
    groups: Seq<KeyGroupView>,
    timeout: u64,
    idle_threshold: Option<u64>,
    start: u64,
    now: u64,
    last_activity: u64,
    default_threshold: u64,
)
    requires
        groups.len() > 0,
        groups[0] == (KeyGroupView::Wait { timeout, idle_threshold }),
        last_activity <= now,
    ensures
        ({
            let threshold = match idle_threshold {
                Some(ms) => ms,
                None => default_threshold,
            };
            let (bytes, rest, pause) = run_groups(groups, start, default_threshold);
            &&& bytes.len() == 0
            &&& pause matches Some(p) && pause_over(p, now, last_activity) == (now >= start
                + timeout * MILLI || now - last_activity >= threshold * MILLI)
        }),
{
    assert(start + timeout * MILLI <= u128::MAX) by (nonlinear_arith)
        requires
            start <= u64::MAX,
            timeout <= u64::MAX,
            MILLI == 1_000_000,
    ;
}

/// A request that the user has yet to permit does nothing but wait: nothing is sent to the PTY,
/// nothing is answered, and what the session shows and is called stays as it is. The user is asked
/// at once if nothing else is asked, and else after all that is.
pub proof fn law_nothing_happens_without_permission(s: SessionView, req: SessionRequest, now: u64)
    requires
        s.must_ask(req) is Some,
    ensures
        ({
            let after = s.dispatch_request(req, now);
            &&& after.pty == s.pty
            &&& after.outbox == s.outbox
            &&& after.text == s.text
            &&& after.id == s.id
            &&& after.tag == s.tag
            &&& after.visible == s.visible
            &&& after.dispatch.pending_exec == s.dispatch.pending_exec
            &&& s.dispatch.prompt_state is Pending ==> {
                &&& after.dispatch.prompt_state == s.dispatch.prompt_state
                &&& after.dispatch.prompt_queue == s.dispatch.prompt_queue.push(
                    (req, s.must_ask(req)->Some_0),
                )
            }
            &&& s.dispatch.prompt_state is Idle && s.dispatch.prompt_queue.len() == 0 ==> {
                &&& after.dispatch.prompt_state == (PromptState::Pending {
                    request: req,
                    permission_type: s.must_ask(req)->Some_0,
                    selected: 0,
                    expanded: false,
                    scroll_offset: 0,
                })
                &&& after.dispatch.prompt_queue.len() == 0
            }
        }),
{
}

/// A request that is refused, by policy or by the user, sends nothing to the PTY, and its one
/// answer is that permission was denied.
pub proof fn law_a_refused_request_is_only_answered(
    s: SessionView,
    req: SessionRequest,
    ptype: PermissionType,
    now: u64,
)
    ensures
        s.must_refuse(req) ==> s.dispatch_request(req, now) == s.respond(
            req.id,
            err_response(ErrorCode::PermissionDenied, "denied by policy"@),
        ),
        ({
            let after = s.resolve_prompt(req, ptype, PromptResult::Deny, now);
            &&& after.pty == s.pty
            &&& after.text == s.text
            &&& after.outbox == s.respond(
                req.id,
                err_response(ErrorCode::PermissionDenied, "denied by user"@),
            ).outbox
            &&& after.dispatch.permissions == s.dispatch.permissions
        }),
{
}

/// What routing a request leaves alone.
pub open spec fn same_prompts(a: SessionView, b: SessionView) -> bool {
    &&& a.dispatch.permissions == b.dispatch.permissions
    &&& a.dispatch.default_permission == b.dispatch.default_permission
    &&& a.dispatch.prompt_queue == b.dispatch.prompt_queue
    &&& a.dispatch.prompt_state == b.dispatch.prompt_state
}

proof fn lemma_next_read_frame(s: SessionView)
    ensures
        same_prompts(s.next_read(), s),
        s.next_read().dispatch.exec_queue == s.dispatch.exec_queue,
        s.next_read().dispatch.current_exec == s.dispatch.current_exec,
        s.next_read().dispatch.pending_exec == s.dispatch.pending_exec,
    decreases s.dispatch.read_queue.len(),
{
    let d = s.dispatch;
    if d.current_read is None && d.read_queue.len() > 0 {
        let t = s.with_dispatch(DispatchView { read_queue: d.read_queue.skip(1), ..d });
        lemma_next_read_frame(t.answer(d.read_queue[0]));
    }
}

proof fn lemma_start_exec_frame(s: SessionView, req: SessionRequest, now: u64)
    ensures
        same_prompts(s.start_exec(req, now), s),
    decreases s.dispatch.exec_queue.len(), 2nat,
{
    if let Request::Exec { keys, stdin, .. } = req.request {
        if let Ok(groups) = exec_groups(texts(keys@), text_opt(stdin), s.dispatch.send_delay_ms) {
            lemma_run_exec_frame(s.with_current_exec(req.id), req.id, groups, now);
        }
    }
}

proof fn lemma_run_exec_frame(s: SessionView, id: u64, groups: Seq<KeyGroupView>, now: u64)
    ensures
        same_prompts(s.run_exec(id, groups, now), s),
    decreases s.dispatch.exec_queue.len(), 1nat,
{
    let (bytes, rest, pause) = run_groups(groups, now, s.dispatch.idle_threshold_ms);
    lemma_finish_exec_frame(s.write(bytes), id, now);
}

proof fn lemma_finish_exec_frame(s: SessionView, id: u64, now: u64)
    ensures
        same_prompts(s.finish_exec(id, now), s),
    decreases s.dispatch.exec_queue.len(), 0nat,
{
    let t = s.respond(id, s.exec_response());
    let d = DispatchView { current_exec: None, ..t.dispatch };
    if d.exec_queue.len() > 0 {
        lemma_start_exec_frame(
            t.with_dispatch(DispatchView { exec_queue: d.exec_queue.skip(1), ..d }),
            d.exec_queue[0],
            now,
        );
    }
}

pub proof fn lemma_route_frame(s: SessionView, req: SessionRequest, now: u64)
    ensures
        same_prompts(s.route(req, now), s),
{
    let d = s.dispatch;
    lemma_start_exec_frame(s, req, now);
    let t = if category_of(req.request) == RequestCategory::Read {
        s.with_dispatch(DispatchView { current_read: Some(req.id), ..d })
    } else {
        s
    };
    let a = t.answer(req);
    lemma_next_read_frame(a.with_dispatch(DispatchView { current_read: None, ..a.dispatch }));
}

/// Whoever was allowed something for the session is not asked for it again.
pub proof fn law_allowed_for_the_session_is_not_asked_again(
    s: SessionView,
    req: SessionRequest,
    ptype: PermissionType,
    now: u64,
    later: SessionRequest,
)
    requires
        later.source_id@ == req.source_id@,
        permission_of(category_of(later.request)) == Some(ptype),
    ensures
        s.resolve_prompt(req, ptype, PromptResult::AlwaysAllow, now).must_ask(later) is None,
{
    let d = s.dispatch;
    let t = s.with_dispatch(
        DispatchView { permissions: d.permissions.allow(req.source_id@, ptype), ..d },
    );
    lemma_route_frame(t, req, now);
}

/// A permission that is given once permits nothing later: who is to be asked stays as it was.
pub proof fn law_allowed_once_is_asked_again(
    s: SessionView,
    req: SessionRequest,
    ptype: PermissionType,
    now: u64,
    later: SessionRequest,
)
    ensures
        s.resolve_prompt(req, ptype, PromptResult::Allow, now).must_ask(later) == s.must_ask(later),
{
    lemma_route_frame(s, req, now);
}

/// Reads never wait for one another: each is answered before the next one comes.
pub proof fn law_reads_are_answered_at_once(s: SessionView, req: SessionRequest, now: u64)
    requires
        category_of(req.request) == RequestCategory::Read,
        s.dispatch.current_read is None,
        s.dispatch.read_queue.len() == 0,
    ensures
        s.route(req, now) == s.answer(req),
{
    let d = s.dispatch;
    let t = s.with_dispatch(DispatchView { current_read: Some(req.id), ..d });
    let a = t.answer(req);
    assert(s.route(req, now) =~= s.answer(req));
}

// === What a cancelled request leaves behind ===

/// Whether none of the messages answers a request.
pub open spec fn unanswered(messages: Seq<MessageView>, id: u64) -> bool {
    forall|i: int|
        0 <= i < messages.len() ==> !(#[trigger] messages[i] matches MessageView::Response {
            id: answered,
            ..
        } && answered == id)
}

/// Whether no queue holds a request.
spec fn not_queued(queue: Seq<SessionRequest>, id: u64) -> bool {
    forall|i: int| 0 <= i < queue.len() ==> (#[trigger] queue[i]).id != id
}

/// Whether a session knows nothing of a request.
pub open spec fn forgotten(s: SessionView, id: u64) -> bool {
    let d = s.dispatch;
    &&& forall|i: int| 0 <= i < d.prompt_queue.len() ==> (#[trigger] d.prompt_queue[i]).0.id != id
    &&& !(d.prompt_state matches PromptState::Pending { request, .. } && request.id == id)
    &&& forall|i: int| 0 <= i < d.read_queue.len() ==> (#[trigger] d.read_queue[i]).id != id
    &&& forall|i: int| 0 <= i < d.exec_queue.len() ==> (#[trigger] d.exec_queue[i]).id != id
    &&& d.current_read != Some(id)
    &&& d.current_exec != Some(id)
    &&& !(d.pending_exec matches Some(p) && p.request_id == id)
}

proof fn lemma_answer_other(s: SessionView, req: SessionRequest, id: u64)
    requires
        req.id != id,
        unanswered(s.outbox, id),
    ensures
        unanswered(s.answer(req).outbox, id),
{
    let before = s.outbox;
    let after = s.answer(req).outbox;
    assert(after == before.push(after.last()));
}

proof fn lemma_next_read_other(s: SessionView, id: u64)
    requires
        not_queued(s.dispatch.read_queue, id),
        unanswered(s.outbox, id),
        s.dispatch.current_read is None,
    ensures
        unanswered(s.next_read().outbox, id),
        not_queued(s.next_read().dispatch.read_queue, id),
        s.next_read().dispatch.current_read is None,
    decreases s.dispatch.read_queue.len(),
{
    let d = s.dispatch;
    if d.read_queue.len() > 0 {
        let t = s.with_dispatch(DispatchView { read_queue: d.read_queue.skip(1), ..d });
        let rest = d.read_queue.skip(1);
        assert forall|i: int| 0 <= i < rest.len() implies (#[trigger] rest[i]).id != id by {
            assert(d.read_queue[i + 1].id != id);
        }
        lemma_answer_other(t, d.read_queue[0], id);
        lemma_next_read_other(t.answer(d.read_queue[0]), id);
    }
}

/// Whether execs go on without ever touching a request.
spec fn exec_other(s: SessionView, id: u64) -> bool {
    &&& not_queued(s.dispatch.exec_queue, id)
    &&& unanswered(s.outbox, id)
    &&& s.dispatch.current_exec != Some(id)
    &&& !(s.dispatch.pending_exec matches Some(p) && p.request_id == id)
}

/// What execs leave alone.
spec fn same_reads(a: SessionView, b: SessionView) -> bool {
    &&& a.dispatch.read_queue == b.dispatch.read_queue
    &&& a.dispatch.current_read == b.dispatch.current_read
}

proof fn lemma_start_exec_other(s: SessionView, req: SessionRequest, now: u64, id: u64)
    requires
        exec_other(s, id),
        req.id != id,
    ensures
        exec_other(s.start_exec(req, now), id),
        same_reads(s.start_exec(req, now), s),
    decreases s.dispatch.exec_queue.len(), 2nat,
{
    if let Request::Exec { keys, stdin, .. } = req.request {
        match exec_groups(texts(keys@), text_opt(stdin), s.dispatch.send_delay_ms) {
            Ok(groups) => lemma_run_exec_other(
                s.with_current_exec(req.id),
                req.id,
                groups,
                now,
                id,
            ),
            Err(_) => {},
        }
    }
}

proof fn lemma_run_exec_other(
    s: SessionView,
    current: u64,
    groups: Seq<KeyGroupView>,
    now: u64,
    id: u64,
)
    requires
        exec_other(s, id),
        current != id,
    ensures
        exec_other(s.run_exec(current, groups, now), id),
        same_reads(s.run_exec(current, groups, now), s),
    decreases s.dispatch.exec_queue.len(), 1nat,
{
    let (bytes, rest, pause) = run_groups(groups, now, s.dispatch.idle_threshold_ms);
    lemma_finish_exec_other(s.write(bytes), current, now, id);
}

proof fn lemma_finish_exec_other(s: SessionView, current: u64, now: u64, id: u64)
    requires
        exec_other(s, id),
        current != id,
    ensures
        exec_other(s.finish_exec(current, now), id),
        same_reads(s.finish_exec(current, now), s),
    decreases s.dispatch.exec_queue.len(), 0nat,
{
    let t = s.respond(current, s.exec_response());
    let d = DispatchView { current_exec: None, ..t.dispatch };
    assert(t.outbox == s.outbox.push(t.outbox.last()));
    if d.exec_queue.len() > 0 {
        let rest = d.exec_queue.skip(1);
        assert forall|i: int| 0 <= i < rest.len() implies (#[trigger] rest[i]).id != id by {
            assert(d.exec_queue[i + 1].id != id);
        }
        assert(d.exec_queue[0].id != id);
        lemma_start_exec_other(
            t.with_dispatch(DispatchView { exec_queue: rest, ..d }),
            d.exec_queue[0],
            now,
            id,
        );
    }
}

/// A cancelled request leaves no trace: it is not shown, not queued and not in progress any more,
/// and cancelling does not answer it.
pub proof fn law_a_cancelled_request_is_forgotten(s: SessionView, id: u64, now: u64)
    requires
        s.wf(),
        unanswered(s.outbox, id),
    ensures
        forgotten(s.cancel(id, now), id),
        unanswered(s.cancel(id, now).outbox, id),
{
    let d = s.dispatch;
    lemma_prompts_without(d.prompt_queue, id);
    let a = s.cancel_prompts(id);
    assert(a.dispatch.read_queue == d.read_queue);
    assert(a.outbox == s.outbox);
    let prompts = prompts_without(d.prompt_queue, id);
    assert(forall|i: int|
        0 <= i < a.dispatch.prompt_queue.len() ==> (#[trigger] a.dispatch.prompt_queue[i]).0.id
            != id) by {
        assert forall|i: int| 0 <= i < a.dispatch.prompt_queue.len() implies (
        #[trigger] a.dispatch.prompt_queue[i]).0.id != id by {
            if a.dispatch.prompt_queue.len() == prompts.len() {
                assert(a.dispatch.prompt_queue[i] == prompts[i]);
            } else {
                assert(a.dispatch.prompt_queue[i] == prompts[i + 1]);
            }
        }
    }
    assert(!(a.dispatch.prompt_state matches PromptState::Pending { request, .. } && request.id
        == id)) by {
        if prompts.len() > 0 {
            assert(prompts[0].0.id != id);
        }
    }
    lemma_without(d.read_queue, id);
    let b = a.cancel_reads(id);
    let b0 = a.with_dispatch(
        DispatchView { read_queue: without(d.read_queue, id), ..a.dispatch },
    );
    assert(same_prompts(b, a) && b.dispatch.exec_queue == d.exec_queue && b.dispatch.current_exec
        == d.current_exec && b.dispatch.pending_exec == d.pending_exec && unanswered(
        b.outbox,
        id,
    ) && not_queued(b.dispatch.read_queue, id) && b.dispatch.current_read != Some(id)) by {
        if b0.dispatch.current_read == Some(id) {
            let b1 = b0.with_dispatch(DispatchView { current_read: None, ..b0.dispatch });
            lemma_next_read_other(b1, id);
            lemma_next_read_frame(b1);
        }
    }
    lemma_without(d.exec_queue, id);
    let c = b.cancel_execs(id, now);
    let c0 = b.with_dispatch(
        DispatchView { exec_queue: without(d.exec_queue, id), ..b.dispatch },
    );
    if c0.dispatch.current_exec == Some(id) {
        let queue = without(d.exec_queue, id);
        let c1 = c0.with_dispatch(
            DispatchView { current_exec: None, pending_exec: None, ..c0.dispatch },
        );
        if queue.len() > 0 {
            let rest = queue.skip(1);
            assert forall|i: int| 0 <= i < rest.len() implies (#[trigger] rest[i]).id != id by {
                assert(queue[i + 1].id != id);
            }
            assert(queue[0].id != id);
            let c2 = c1.with_dispatch(DispatchView { exec_queue: rest, ..c1.dispatch });
            lemma_start_exec_other(c2, queue[0], now, id);
            lemma_start_exec_frame(c2, queue[0], now);
        }
    }
}

} // verus!
