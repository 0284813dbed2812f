//! Where requests go, and what the daemon knows of sessions.
use vstd::prelude::*;
use crate::auth::{first_wanted, lemma_first_wanted, listed};
use crate::laws::exec::refused;
use crate::laws::session::ok;
use crate::seqs::{first_index, kept, lemma_first_index, lemma_is_first_index, lemma_kept};
use crate::server::{
    has_conn, has_id, has_pid, has_request, id_of_bytes, is_listed, lemma_nothing_kept,
    lemma_single, other_conn, pids_of, selects, waits_on, waits_on_another, EffectView, ServerView,
    SessionCommand, SessionEntry,
};
use crate::types::{
    ErrorCode, PayloadView, Request, ResponseView, Selector, SessionInfo, SessionRequest,
    StatusUpdate,
};

verus! {

// === Which session is meant ===

/// Whether a selector picks a session: by its tag, or by the start of its id.
pub open spec fn picks(sel: Selector, s: SessionEntry) -> bool {
    match sel {
        Selector::Tag(tag) => s.info.tag is Some && s.info.tag->Some_0@ == tag@,
        Selector::Id(id) => id@.len() <= s.info.id@.len() && s.info.id@.take(id@.len() as int)
            == id@,
    }
}

/// Whether a selector picks one session and no other.
pub open spec fn picks_only(v: ServerView, sel: Selector, i: int) -> bool {
    &&& 0 <= i < v.sessions.len()
    &&& forall|j: int|
        0 <= j < v.sessions.len() ==> (picks(sel, #[trigger] v.sessions[j]) <==> j == i)
}

/// Whether a client runs in a session: the nearest of its ancestors that is a session is that one.
pub open spec fn runs_in(v: ServerView, ancestry: Seq<u32>, me: int, k: int) -> bool {
    &&& 0 <= me < v.sessions.len()
    &&& 0 <= k < ancestry.len()
    &&& v.sessions[me].info.pid == ancestry[k]
    &&& forall|j: int, m: int|
        0 <= j < k && 0 <= m < v.sessions.len() ==> (#[trigger] v.sessions[m]).info.pid
            != #[trigger] ancestry[j]
    &&& forall|m: int| 0 <= m < me ==> (#[trigger] v.sessions[m]).info.pid != ancestry[k]
}

/// Whether a request is for a session to do and names it with a selector, or names none.
pub open spec fn names(request: Request, selector: Option<Selector>) -> bool {
    match request {
        Request::Show { selector: s } => s == selector,
        Request::Hide { selector: s } => s == selector,
        Request::Clear { selector: s } => s == selector,
        Request::Peek { selector: s } => s == selector,
        Request::History { selector: s, .. } => s == selector,
        Request::Exec { selector: s, .. } => s == selector,
        Request::Tag { selector: s, new_tag, delete } => s == selector && (new_tag is Some
            || delete),
        _ => false,
    }
}

/// Whether a request asks for a tag.
pub open spec fn asks_tag(request: Request, selector: Option<Selector>) -> bool {
    match request {
        Request::Tag { selector: s, new_tag, delete } => s == selector && new_tag is None
            && !delete,
        _ => false,
    }
}

pub open spec fn answer(conn_id: u64, response: ResponseView) -> Seq<EffectView> {
    seq![EffectView::Respond { conn_id, response }]
}

proof fn lemma_selects(sel: Selector, s: SessionEntry)
    ensures
        selects(sel)(s) == picks(sel, s),
{
    if let Selector::Id(id) = sel {
        let whole = s.info.id@;
        if id@.len() <= whole.len() {
            assert(whole.take(id@.len() as int) =~= whole.subrange(0, id@.len() as int));
        }
    }
}

/// Sessions have ids of their own.
proof fn lemma_at(v: ServerView, i: int)
    requires
        v.wf(),
        0 <= i < v.sessions.len(),
    ensures
        first_index(v.sessions, has_id(v.sessions[i].info.id@)) == i,
        v.session_at(v.sessions[i].info.id@) == Some(i),
{
    let id = v.sessions[i].info.id@;
    assert forall|j: int| 0 <= j < i implies !has_id(id)(#[trigger] v.sessions[j]) by {
        assert(v.sessions[j].info.id@ != v.sessions[i].info.id@);
    }
    lemma_is_first_index(v.sessions, has_id(id), i);
}

proof fn lemma_picks_only(v: ServerView, sel: Selector, i: int)
    requires
        picks_only(v, sel, i),
    ensures
        kept(v.sessions, selects(sel)) == seq![v.sessions[i]],
{
    assert forall|j: int| 0 <= j < v.sessions.len() implies (selects(sel)(
        #[trigger] v.sessions[j],
    ) <==> j == i) by {
        lemma_selects(sel, v.sessions[j]);
    }
    lemma_single(v.sessions, selects(sel), i);
}

proof fn lemma_owner(v: ServerView, ancestry: Seq<u32>, me: int, k: int)
    requires
        runs_in(v, ancestry, me, k),
    ensures
        v.owner(ancestry) == Some(me),
{
    let pids = pids_of(v.sessions);
    let wanted = listed(pids);
    assert forall|j: int| 0 <= j < k implies !wanted.contains(#[trigger] ancestry[j]) by {
        if wanted.contains(ancestry[j]) {
            let m = choose|m: int| 0 <= m < pids.len() && pids[m] == ancestry[j];
            assert(v.sessions[m].info.pid == ancestry[j]);
        }
    }
    assert(pids[me] == ancestry[k]);
    lemma_first_of(ancestry, wanted, k);
    assert forall|m: int| 0 <= m < me implies !has_pid(ancestry[k])(#[trigger] v.sessions[m]) by {}
    lemma_is_first_index(v.sessions, has_pid(ancestry[k]), me);
}

proof fn lemma_first_of(pids: Seq<u32>, wanted: Set<u32>, k: int)
    requires
        0 <= k < pids.len(),
        wanted.contains(pids[k]),
        forall|j: int| 0 <= j < k ==> !wanted.contains(#[trigger] pids[j]),
    ensures
        first_wanted(pids, wanted) == k,
    decreases pids.len(),
{
    if k > 0 {
        assert(!wanted.contains(pids[0]));
        assert forall|j: int| 0 <= j < k - 1 implies !wanted.contains(
            #[trigger] pids.skip(1)[j],
        ) by {
            assert(!wanted.contains(pids[j + 1]));
        }
        lemma_first_of(pids.skip(1), wanted, k - 1);
    }
}

// === Where requests go ===

/// Whether a request goes to a session: on its connection, unchanged, with the next number and with
/// who asks. The client is noted, and no session and no other client changes.
pub open spec fn goes_to(
    v: ServerView,
    conn_id: u64,
    request: Request,
    ancestry: Seq<u32>,
    me: int,
    target: int,
) -> bool {
    let (after, effects) = v.route(conn_id, request, ancestry);
    &&& effects == seq![
        EffectView::Command {
            conn_id: v.sessions[target].conn_id,
            command: SessionCommand::SendRequest(
                SessionRequest {
                    id: v.next_request_id,
                    source_id: v.sessions[me].info.id,
                    source_tag: v.sessions[me].info.tag,
                    request,
                },
            ),
        },
    ]
    &&& after.sessions == v.sessions
    &&& after.conns == v.conns
    &&& after.deferred == v.deferred
    &&& after.settling == v.settling
    &&& after.next_request_id == v.next_request_id + 1
    &&& exists|n: int|
        {
            &&& 0 <= n < after.clients.len()
            &&& (#[trigger] after.clients[n]).conn_id == conn_id
            &&& after.clients[n].session_id == v.sessions[target].info.id
            &&& after.clients[n].request_id == v.next_request_id
            &&& forall|c: int|
                0 <= c < v.clients.len() && (#[trigger] v.clients[c]).conn_id != conn_id
                    ==> after.clients.contains(v.clients[c])
            &&& after.clients.len() <= v.clients.len() + 1
        }
}

proof fn lemma_forwarded(
    v: ServerView,
    conn_id: u64,
    request: Request,
    ancestry: Seq<u32>,
    me: int,
    target: int,
)
    requires
        v.wf(),
        v.next_request_id < u64::MAX,
        0 <= target < v.sessions.len(),
        0 <= me < v.sessions.len(),
        v.route(conn_id, request, ancestry) == v.forward(conn_id, target, me, request),
    ensures
        goes_to(v, conn_id, request, ancestry, me, target),
{
    let (after, effects) = v.forward(conn_id, target, me, request);
    let n = first_index(v.clients, has_conn(conn_id)) as int;
    lemma_first_index(v.clients, has_conn(conn_id));
    assert(after.clients[n].conn_id == conn_id);
    assert forall|c: int|
        0 <= c < v.clients.len() && (#[trigger] v.clients[c]).conn_id
            != conn_id implies after.clients.contains(v.clients[c]) by {
        assert(after.clients[c] == v.clients[c]);
    }
}

/// A request that names a session with a selector goes to that session, and to no other, whoever
/// asks; one that names none goes to the session that the client runs in.
pub proof fn law_requests_reach_the_session_they_name(
    v: ServerView,
    conn_id: u64,
    request: Request,
    sel: Selector,
    i: int,
    ancestry: Seq<u32>,
    me: int,
    k: int,
)
    requires
        v.wf(),
        v.next_request_id < u64::MAX,
        runs_in(v, ancestry, me, k),
    ensures
        names(request, Some(sel)) && picks_only(v, sel, i) ==> goes_to(
            v,
            conn_id,
            request,
            ancestry,
            me,
            i,
        ),
        names(request, None) ==> goes_to(v, conn_id, request, ancestry, me, me),
{
    lemma_owner(v, ancestry, me, k);
    if names(request, Some(sel)) && picks_only(v, sel, i) {
        lemma_picks_only(v, sel, i);
        lemma_at(v, i);
        lemma_forwarded(v, conn_id, request, ancestry, me, i);
    }
    if names(request, None) {
        lemma_at(v, me);
        lemma_forwarded(v, conn_id, request, ancestry, me, me);
    }
}

/// A selector that picks no session, or more than one, is answered so, and nothing is forwarded.
pub proof fn law_selectors_that_pick_no_single_session(
    v: ServerView,
    conn_id: u64,
    request: Request,
    sel: Selector,
    ancestry: Seq<u32>,
    me: int,
    k: int,
    a: int,
    b: int,
)
    requires
        runs_in(v, ancestry, me, k),
        names(request, Some(sel)) || asks_tag(request, Some(sel)),
    ensures
        (forall|j: int| 0 <= j < v.sessions.len() ==> !picks(sel, #[trigger] v.sessions[j]))
            ==> v.route(conn_id, request, ancestry) == (
            v,
            answer(conn_id, refused(ErrorCode::SessionNotFound, "session not found"@)),
        ),
        0 <= a < b < v.sessions.len() && picks(sel, v.sessions[a]) && picks(sel, v.sessions[b])
            ==> v.route(conn_id, request, ancestry) == (
            v,
            answer(
                conn_id,
                refused(ErrorCode::AmbiguousSelector, "selector matches multiple sessions"@),
            ),
        ),
{
    lemma_owner(v, ancestry, me, k);
    if forall|j: int| 0 <= j < v.sessions.len() ==> !picks(sel, #[trigger] v.sessions[j]) {
        assert forall|j: int| 0 <= j < v.sessions.len() implies !selects(sel)(
            #[trigger] v.sessions[j],
        ) by {
            lemma_selects(sel, v.sessions[j]);
            assert(!picks(sel, v.sessions[j]));
        }
        lemma_nothing_kept(v.sessions, selects(sel));
    }
    if 0 <= a < b < v.sessions.len() && picks(sel, v.sessions[a]) && picks(sel, v.sessions[b]) {
        lemma_selects(sel, v.sessions[a]);
        lemma_selects(sel, v.sessions[b]);
        lemma_two_kept(v.sessions, selects(sel), a, b);
    }
}

proof fn lemma_two_kept(
    s: Seq<SessionEntry>,
    wanted: spec_fn(SessionEntry) -> bool,
    a: int,
    b: int,
)
    requires
        0 <= a < b < s.len(),
        wanted(s[a]),
        wanted(s[b]),
    ensures
        kept(s, wanted).len() >= 2,
    decreases s.len(),
{
    let t = s.drop_last();
    if b < s.len() - 1 {
        lemma_two_kept(t, wanted, a, b);
    } else {
        lemma_kept(t, wanted);
        assert(t[a] == s[a]);
        assert(kept(t, wanted).contains(t[a]));
    }
}

/// A query for a tag is answered at once, for the session that is named or the client's own.
pub proof fn law_a_tag_is_told(
    v: ServerView,
    conn_id: u64,
    request: Request,
    sel: Selector,
    i: int,
    ancestry: Seq<u32>,
    me: int,
    k: int,
)
    requires
        v.wf(),
        runs_in(v, ancestry, me, k),
    ensures
        asks_tag(request, Some(sel)) && picks_only(v, sel, i) ==> v.route(
            conn_id,
            request,
            ancestry,
        ) == (v, answer(conn_id, tag_answer(v.sessions[i].info))),
        asks_tag(request, None) ==> v.route(conn_id, request, ancestry) == (
            v,
            answer(conn_id, tag_answer(v.sessions[me].info)),
        ),
{
    lemma_owner(v, ancestry, me, k);
    if asks_tag(request, Some(sel)) && picks_only(v, sel, i) {
        lemma_picks_only(v, sel, i);
        lemma_at(v, i);
    }
    if asks_tag(request, None) {
        lemma_at(v, me);
    }
}

pub open spec fn tag_answer(info: SessionInfo) -> ResponseView {
    ok(
        PayloadView::State {
            id: info.id@,
            tag: if info.tag is Some {
                Some(info.tag->Some_0@)
            } else {
                None
            },
            visible: None,
        },
    )
}

// === Listing ===

/// The sessions that a list holds.
pub open spec fn list_of(sessions: Seq<SessionEntry>, selector: Option<Selector>, all: bool) -> Seq<
    SessionInfo,
>
    decreases sessions.len(),
{
    if sessions.len() == 0 {
        Seq::empty()
    } else {
        let s = sessions.last();
        let before = list_of(sessions.drop_last(), selector, all);
        if (all || s.info.visible) && (selector is Some ==> picks(selector->Some_0, s)) {
            before.push(s.info)
        } else {
            before
        }
    }
}

/// A list holds every session that is visible, or all of them where these are asked for, and that
/// the selector picks, where there is one; each as it is known, in the order in which they came.
/// Anyone may ask, and nothing changes.
pub proof fn law_sessions_are_listed(
    v: ServerView,
    conn_id: u64,
    selector: Option<Selector>,
    all: bool,
    ancestry: Seq<u32>,
)
    ensures
        v.route(conn_id, Request::List { selector, all }, ancestry) == (
            v,
            answer(conn_id, ok(PayloadView::Sessions(list_of(v.sessions, selector, all)))),
        ),
{
    lemma_list(v.sessions, selector, all);
}

proof fn lemma_list(sessions: Seq<SessionEntry>, selector: Option<Selector>, all: bool)
    ensures
        kept(sessions, is_listed(selector, all)).map_values(|s: SessionEntry| s.info) == list_of(
            sessions,
            selector,
            all,
        ),
    decreases sessions.len(),
{
    let listed = kept(sessions, is_listed(selector, all)).map_values(|s: SessionEntry| s.info);
    if sessions.len() > 0 {
        let t = sessions.drop_last();
        lemma_list(t, selector, all);
        if selector is Some {
            lemma_selects(selector->Some_0, sessions.last());
        }
        assert(listed =~= list_of(sessions, selector, all));
    } else {
        assert(listed =~= list_of(sessions, selector, all));
    }
}

// === What is known of sessions ===

/// A session that registers is known by what it said. It takes the place of one with its id; all
/// others stay as they are.
pub proof fn law_a_session_registers(v: ServerView, conn_id: u64, info: SessionInfo, key: String)
    requires
        v.wf(),
    ensures
        ({
            let after = v.register(conn_id, info, key);
            let entry = SessionEntry { conn_id, info };
            &&& after.sessions.contains(entry)
            &&& after.conns == v.conns.insert(conn_id, key)
            &&& after.clients == v.clients
            &&& after.deferred == v.deferred
            &&& forall|i: int|
                0 <= i < v.sessions.len() && (#[trigger] v.sessions[i]).info.id@ != info.id@
                    ==> after.sessions.len() > i && after.sessions[i] == v.sessions[i]
            &&& forall|i: int|
                0 <= i < after.sessions.len() ==> #[trigger] after.sessions[i] == entry
                    || after.sessions[i].info.id@ != info.id@
        }),
{
    let after = v.register(conn_id, info, key);
    let n = first_index(v.sessions, has_id(info.id@)) as int;
    lemma_first_index(v.sessions, has_id(info.id@));
    assert(after.sessions[n] == (SessionEntry { conn_id, info }));
    assert forall|i: int| 0 <= i < after.sessions.len() implies #[trigger] after.sessions[i]
        == (SessionEntry { conn_id, info }) || after.sessions[i].info.id@ != info.id@ by {
        if i != n {
            assert(after.sessions[i] == v.sessions[i]);
            if i < n {
                assert(!has_id(info.id@)(v.sessions[i]));
            } else {
                assert(v.sessions[n].info.id@ == info.id@);
            }
        }
    }
}

/// What a session says of its state is noted, with the time, for that session alone.
pub proof fn law_a_state_is_noted(
    v: ServerView,
    conn_id: u64,
    update: StatusUpdate,
    now: u64,
    i: int,
)
    requires
        v.wf(),
        v.conns.contains_key(conn_id),
        0 <= i < v.sessions.len(),
        v.sessions[i].info.id@ == v.conns[conn_id]@,
    ensures
        ({
            let after = v.session_status(conn_id, update, now);
            let old_info = v.sessions[i].info;
            &&& after == (ServerView { sessions: after.sessions, ..v })
            &&& after.sessions.len() == v.sessions.len()
            &&& forall|j: int|
                0 <= j < v.sessions.len() && j != i ==> #[trigger] after.sessions[j]
                    == v.sessions[j]
            &&& after.sessions[i].conn_id == v.sessions[i].conn_id
            &&& after.sessions[i].info == (SessionInfo {
                cwd: update.cwd,
                in_alt_screen: update.in_alt_screen,
                last_activity: now,
                id: old_info.id,
                tag: old_info.tag,
                pid: old_info.pid,
                visible: old_info.visible,
                created_at: old_info.created_at,
            })
        }),
{
    lemma_at(v, i);
}

/// What a request changes of a session's entry once the session has done it.
pub open spec fn after_request(info: SessionInfo, request: Request) -> SessionInfo {
    match request {
        Request::Show { .. } => SessionInfo { visible: true, ..info },
        Request::Hide { .. } => SessionInfo { visible: false, ..info },
        Request::Tag { new_tag, delete, .. } => SessionInfo {
            tag: if delete {
                None
            } else {
                new_tag
            },
            ..info
        },
        _ => info,
    }
}

/// When the session that a request went to answers, its answer goes to the client that asked, who
/// then waits no more. Once the session has shown or hidden itself or changed its tag, its entry
/// says so; nothing else of any session changes, and nothing at all where it refused.
pub proof fn law_an_answer_is_relayed(
    v: ServerView,
    conn_id: u64,
    request: Request,
    target: int,
    source: int,
    result: ResponseView,
)
    requires
        v.wf(),
        v.next_request_id < u64::MAX,
        0 <= target < v.sessions.len(),
        0 <= source < v.sessions.len(),
        v.conns.contains_key(v.sessions[target].conn_id),
        v.conns[v.sessions[target].conn_id]@ == v.sessions[target].info.id@,
    ensures
        ({
            let sent = v.forward(conn_id, target, source, request).0;
            let (after, effects) = sent.session_response(
                v.sessions[target].conn_id,
                v.next_request_id,
                result,
            );
            &&& effects == answer(conn_id, result)
            &&& after.sessions.len() == v.sessions.len()
            &&& forall|j: int|
                0 <= j < v.sessions.len() && j != target ==> #[trigger] after.sessions[j]
                    == v.sessions[j]
            &&& after.sessions[target].conn_id == v.sessions[target].conn_id
            &&& after.sessions[target].info == if result.ok {
                after_request(v.sessions[target].info, request)
            } else {
                v.sessions[target].info
            }
            &&& forall|c: int|
                0 <= c < after.clients.len() ==> (#[trigger] after.clients[c]).conn_id != conn_id
        }),
{
    let id = v.next_request_id;
    let sent = v.forward(conn_id, target, source, request).0;
    let n = first_index(v.clients, has_conn(conn_id)) as int;
    lemma_first_index(v.clients, has_conn(conn_id));
    assert forall|c: int| 0 <= c < sent.clients.len() && c != n implies (
    #[trigger] sent.clients[c]).conn_id != conn_id && sent.clients[c].request_id != id by {
        assert(sent.clients[c] == v.clients[c]);
        assert(v.clients[c].request_id < id);
        if c < n {
            assert(!has_conn(conn_id)(v.clients[c]));
        } else if n < v.clients.len() {
            assert(v.clients[n].conn_id == conn_id);
            assert(v.clients[n].conn_id != v.clients[c].conn_id);
        }
    }
    assert forall|c: int| 0 <= c < n implies !has_request(id)(#[trigger] sent.clients[c]) by {}
    lemma_is_first_index(sent.clients, has_request(id), n);
    assert(sent.sessions == v.sessions);
    lemma_at(v, target);
    let after = sent.remove_client(n);
    assert(after.session_at(v.sessions[target].info.id@) == v.session_at(
        v.sessions[target].info.id@,
    ));
    assert forall|c: int| 0 <= c < after.clients.len() implies (#[trigger] after.clients[c]).conn_id
        != conn_id by {
        let j = if c < n {
            c
        } else {
            c + 1
        };
        assert(after.clients[c] == sent.clients[j]);
    }
}

/// An answer that nobody waits for is dropped.
pub proof fn law_an_answer_to_nobody(
    v: ServerView,
    session_conn: u64,
    request_id: u64,
    result: ResponseView,
)
    requires
        forall|c: int|
            0 <= c < v.clients.len() ==> (#[trigger] v.clients[c]).request_id != request_id,
    ensures
        v.session_response(session_conn, request_id, result) == (v, Seq::<EffectView>::empty()),
{
    assert forall|c: int| 0 <= c < v.clients.len() implies !has_request(request_id)(
        #[trigger] v.clients[c],
    ) by {}
    lemma_is_first_index(v.clients, has_request(request_id), v.clients.len() as int);
}

// === Leaving ===

/// A session that is lost goes; every client that waits for it is told, nobody else is, and nobody
/// else goes.
pub proof fn law_a_session_leaves(v: ServerView, conn_id: u64, i: int)
    requires
        v.wf(),
        v.conns.contains_key(conn_id),
        0 <= i < v.sessions.len(),
        v.sessions[i].conn_id == conn_id,
        v.sessions[i].info.id@ == v.conns[conn_id]@,
    ensures
        ({
            let (after, effects) = v.session_disconnect(conn_id);
            let id = v.sessions[i].info.id@;
            &&& after.sessions == v.sessions.remove(i)
            &&& after.conns == v.conns.remove(conn_id)
            &&& after.deferred == v.deferred
            &&& forall|c: int|
                0 <= c < v.clients.len() ==> (after.clients.contains(#[trigger] v.clients[c])
                    <==> v.clients[c].session_id@ != id)
            &&& forall|c: int|
                0 <= c < after.clients.len() ==> v.clients.contains(#[trigger] after.clients[c])
            &&& forall|c: int|
                0 <= c < v.clients.len() && (#[trigger] v.clients[c]).session_id@ == id
                    ==> effects.contains(
                    EffectView::Respond {
                        conn_id: v.clients[c].conn_id,
                        response: refused(ErrorCode::Internal, "session disconnected"@),
                    },
                )
            &&& forall|e: int|
                0 <= e < effects.len() ==> exists|c: int|
                    0 <= c < v.clients.len() && (#[trigger] v.clients[c]).session_id@ == id
                        && #[trigger] effects[e] == (EffectView::Respond {
                        conn_id: v.clients[c].conn_id,
                        response: refused(ErrorCode::Internal, "session disconnected"@),
                    })
        }),
{
    let id = v.sessions[i].info.id@;
    lemma_at(v, i);
    let stay = waits_on_another(id);
    let go = waits_on(id);
    lemma_kept(v.clients, stay);
    lemma_kept(v.clients, go);
    let (after, effects) = v.session_disconnect(conn_id);
    let gone = kept(v.clients, go);
    assert forall|c: int| 0 <= c < v.clients.len() implies (after.clients.contains(
        #[trigger] v.clients[c],
    ) <==> v.clients[c].session_id@ != id) by {
        if after.clients.contains(v.clients[c]) {
            let j = choose|j: int| 0 <= j < after.clients.len() && after.clients[j] == v.clients[c];
            assert(stay(after.clients[j]));
        } else {
            assert(!stay(v.clients[c]));
        }
    }
    assert forall|c: int| 0 <= c < v.clients.len() && (#[trigger] v.clients[c]).session_id@
        == id implies effects.contains(
        EffectView::Respond {
            conn_id: v.clients[c].conn_id,
            response: refused(ErrorCode::Internal, "session disconnected"@),
        },
    ) by {
        assert(go(v.clients[c]));
        let j = choose|j: int| 0 <= j < gone.len() && gone[j] == v.clients[c];
        assert(effects[j] == (EffectView::Respond {
            conn_id: v.clients[c].conn_id,
            response: refused(ErrorCode::Internal, "session disconnected"@),
        }));
    }
    assert forall|e: int| 0 <= e < effects.len() implies exists|c: int|
        0 <= c < v.clients.len() && (#[trigger] v.clients[c]).session_id@ == id
            && #[trigger] effects[e] == (EffectView::Respond {
            conn_id: v.clients[c].conn_id,
            response: refused(ErrorCode::Internal, "session disconnected"@),
        }) by {
        assert(go(gone[e]));
        assert(v.clients.contains(gone[e]));
        let c = choose|c: int| 0 <= c < v.clients.len() && v.clients[c] == gone[e];
        assert(v.clients[c].session_id@ == id);
    }
}

/// A client that leaves while it waits cancels its request at the session that has it, and nobody
/// else waits less for that.
pub proof fn law_a_client_leaves(v: ServerView, conn_id: u64, c: int, i: int)
    requires
        v.wf(),
        0 <= c < v.clients.len(),
        v.clients[c].conn_id == conn_id,
        0 <= i < v.sessions.len(),
        v.sessions[i].info.id@ == v.clients[c].session_id@,
    ensures
        ({
            let (after, effects) = v.client_disconnect(conn_id);
            &&& effects == seq![
                EffectView::Command {
                    conn_id: v.sessions[i].conn_id,
                    command: SessionCommand::CancelRequest(v.clients[c].request_id),
                },
            ]
            &&& after == (ServerView { clients: v.clients.remove(c), ..v })
        }),
{
    assert forall|j: int| 0 <= j < c implies !has_conn(conn_id)(#[trigger] v.clients[j]) by {
        assert(v.clients[j].conn_id != v.clients[c].conn_id);
    }
    lemma_is_first_index(v.clients, has_conn(conn_id), c);
    lemma_at(v, i);
}

/// While sessions reconnect, requests are kept, in order, and nothing is sent; who leaves in the
/// meantime is forgotten, and nobody else.
pub proof fn law_requests_wait_while_sessions_reconnect(
    v: ServerView,
    conn_id: u64,
    pid: u32,
    request: Request,
    ancestry: Seq<u32>,
    gone: u64,
)
    requires
        v.settling is Some,
        !(request is Stop),
    ensures
        ({
            let (after, effects) = v.client_request(conn_id, pid, request, ancestry);
            &&& effects.len() == 0
            &&& after.deferred.len() == v.deferred.len() + 1
            &&& after.deferred.drop_last() == v.deferred
            &&& after.deferred.last().conn_id == conn_id
            &&& after.deferred.last().request == request
            &&& after.deferred.last().pid == pid
            &&& after.sessions == v.sessions
            &&& after.clients == v.clients
        }),
        forall|d: int|
            0 <= d < v.deferred.len() ==> (v.drop_deferred(gone).deferred.contains(
                #[trigger] v.deferred[d],
            ) <==> v.deferred[d].conn_id != gone),
{
    let after = v.client_request(conn_id, pid, request, ancestry).0;
    assert(after.deferred.drop_last() =~= v.deferred);
    let stay = other_conn(gone);
    lemma_kept(v.deferred, stay);
    assert forall|d: int| 0 <= d < v.deferred.len() implies (v.drop_deferred(
        gone,
    ).deferred.contains(#[trigger] v.deferred[d]) <==> v.deferred[d].conn_id != gone) by {
        let left = v.drop_deferred(gone).deferred;
        if left.contains(v.deferred[d]) {
            let j = choose|j: int| 0 <= j < left.len() && left[j] == v.deferred[d];
            assert(stay(left[j]));
        } else {
            assert(!stay(v.deferred[d]));
        }
    }
}

/// A client none of whose ancestors is a session is told so, whatever it asks for but a list, and
/// nothing is forwarded.
pub proof fn law_strangers_are_told(
    v: ServerView,
    conn_id: u64,
    request: Request,
    ancestry: Seq<u32>,
)
    requires
        forall|j: int, m: int|
            0 <= j < ancestry.len() && 0 <= m < v.sessions.len() ==> (
            #[trigger] v.sessions[m]).info.pid != #[trigger] ancestry[j],
        !(request is List),
    ensures
        v.route(conn_id, request, ancestry) == (
            v,
            answer(conn_id, refused(ErrorCode::AuthFailed, "not inside a tv session"@)),
        ),
{
    let pids = pids_of(v.sessions);
    let wanted = listed(pids);
    assert forall|j: int| 0 <= j < ancestry.len() implies !wanted.contains(
        #[trigger] ancestry[j],
    ) by {
        if wanted.contains(ancestry[j]) {
            let m = choose|m: int| 0 <= m < pids.len() && pids[m] == ancestry[j];
            assert(v.sessions[m].info.pid == ancestry[j]);
        }
    }
    lemma_first_wanted(ancestry, wanted);
}

/// When the sessions have reconnected nothing is kept back any more; without requests that waited
/// nothing else happens.
pub proof fn law_settled(v: ServerView, ancestries: Seq<Vec<u32>>)
    requires
        v.deferred.len() == 0,
    ensures
        v.drain(ancestries) == (
            ServerView { settling: None, deferred: Seq::empty(), ..v },
            Seq::<EffectView>::empty(),
        ),
{
}

/// A shutdown closes every session, leaves every client without an answer, those that wait for the
/// sessions to reconnect too, and ends the server. Nothing is left.
pub proof fn law_a_shutdown(v: ServerView, i: int)
    ensures
        ({
            let (after, effects) = v.shutdown();
            &&& after.sessions.len() == 0
            &&& after.clients.len() == 0
            &&& after.deferred.len() == 0
            &&& after.settling is None
            &&& effects.len() == v.deferred.len() + v.sessions.len() + v.clients.len() + 1
            &&& effects.last() == EffectView::Exit
            &&& 0 <= i < v.sessions.len() ==> effects.contains(
                EffectView::Command {
                    conn_id: v.sessions[i].conn_id,
                    command: SessionCommand::Close,
                },
            )
            &&& 0 <= i < v.clients.len() ==> effects.contains(
                EffectView::Abandon { conn_id: v.clients[i].conn_id },
            )
            &&& 0 <= i < v.deferred.len() ==> effects.contains(
                EffectView::Abandon { conn_id: v.deferred[i].conn_id },
            )
        }),
{
    let effects = v.shutdown().1;
    let d = v.deferred.len() as int;
    let s = v.sessions.len() as int;
    if 0 <= i < s {
        assert(effects[d + i] == (EffectView::Command {
            conn_id: v.sessions[i].conn_id,
            command: SessionCommand::Close,
        }));
    }
    if 0 <= i < v.clients.len() {
        assert(effects[d + s + i] == (EffectView::Abandon { conn_id: v.clients[i].conn_id }));
    }
    if 0 <= i < d {
        assert(effects[i] == (EffectView::Abandon { conn_id: v.deferred[i].conn_id }));
    }
}

/// An id is four hexadecimal digits, each for the lower half of a byte.
pub proof fn law_ids(a: u8, b: u8, c: u8, d: u8)
    ensures
        ({
            let digits = seq![
                '0', '1', '2', '3', '4', '5', '6', '7', '8', '9', 'a', 'b', 'c', 'd', 'e', 'f',
            ];
            let id = id_of_bytes(a, b, c, d);
            &&& id.len() == 4
            &&& id[0] == digits[(a % 16) as int]
            &&& id[1] == digits[(b % 16) as int]
            &&& id[2] == digits[(c % 16) as int]
            &&& id[3] == digits[(d % 16) as int]
        }),
{
}

/// Once the sessions have reconnected, a request is routed as soon as it comes.
pub proof fn law_requests_are_routed_at_once(
    v: ServerView,
    conn_id: u64,
    pid: u32,
    request: Request,
    ancestry: Seq<u32>,
)
    requires
        v.settling is None,
        !(request is Stop),
    ensures
        v.client_request(conn_id, pid, request, ancestry) == v.route(conn_id, request, ancestry),
{
}

/// When a connection is lost, whatever it was goes: the request of a client that waits is
/// cancelled, one that was kept back is forgotten, and a session's clients are told.
pub proof fn law_a_connection_is_lost(v: ServerView, conn_id: u64, c: int, i: int)
    requires
        v.wf(),
    ensures
        !v.conns.contains_key(conn_id) && 0 <= c < v.clients.len() && v.clients[c].conn_id
            == conn_id && 0 <= i < v.sessions.len() && v.sessions[i].info.id@
            == v.clients[c].session_id@ ==> v.disconnect(conn_id) == (
            ServerView {
                clients: v.clients.remove(c),
                deferred: v.drop_deferred(conn_id).deferred,
                ..v
            },
            seq![
                EffectView::Command {
                    conn_id: v.sessions[i].conn_id,
                    command: SessionCommand::CancelRequest(v.clients[c].request_id),
                },
            ],
        ),
        !v.conns.contains_key(conn_id) && (forall|j: int|
            0 <= j < v.clients.len() ==> (#[trigger] v.clients[j]).conn_id != conn_id)
            ==> v.disconnect(conn_id) == (
            ServerView { deferred: v.drop_deferred(conn_id).deferred, ..v },
            Seq::<EffectView>::empty(),
        ),
        v.conns.contains_key(conn_id) && 0 <= i < v.sessions.len() && v.sessions[i].conn_id
            == conn_id && v.sessions[i].info.id@ == v.conns[conn_id]@ && (forall|j: int|
            0 <= j < v.clients.len() ==> (#[trigger] v.clients[j]).conn_id != conn_id) ==> {
            let (gone, told) = v.session_disconnect(conn_id);
            v.disconnect(conn_id) == (
                ServerView { deferred: v.drop_deferred(conn_id).deferred, ..gone },
                told,
            )
        },
{
    let none = Seq::<EffectView>::empty();
    let kept_back = v.drop_deferred(conn_id);
    if !v.conns.contains_key(conn_id) && 0 <= c < v.clients.len() && v.clients[c].conn_id
        == conn_id && 0 <= i < v.sessions.len() && v.sessions[i].info.id@
        == v.clients[c].session_id@ {
        law_a_client_leaves(v, conn_id, c, i);
        assert(kept_back.session_at(v.clients[c].session_id@) == v.session_at(
            v.clients[c].session_id@,
        ));
        assert(none + v.client_disconnect(conn_id).1 =~= v.client_disconnect(conn_id).1);
    }
    if forall|j: int| 0 <= j < v.clients.len() ==> (#[trigger] v.clients[j]).conn_id != conn_id {
        assert forall|j: int| 0 <= j < v.clients.len() implies !has_conn(conn_id)(
            #[trigger] v.clients[j],
        ) by {}
        lemma_is_first_index(v.clients, has_conn(conn_id), v.clients.len() as int);
        assert(none + none =~= none);
        if v.conns.contains_key(conn_id) && 0 <= i < v.sessions.len() && v.sessions[i].conn_id
            == conn_id && v.sessions[i].info.id@ == v.conns[conn_id]@ {
            lemma_at(v, i);
            let (gone, told) = v.session_disconnect(conn_id);
            lemma_kept(v.clients, waits_on_another(v.sessions[i].info.id@));
            assert forall|j: int| 0 <= j < gone.clients.len() implies !has_conn(conn_id)(
                #[trigger] gone.clients[j],
            ) by {
                assert(v.clients.contains(gone.clients[j]));
                let k = choose|k: int| 0 <= k < v.clients.len() && v.clients[k] == gone.clients[j];
                assert(v.clients[k].conn_id != conn_id);
            }
            lemma_is_first_index(gone.clients, has_conn(conn_id), gone.clients.len() as int);
            assert(told + none =~= told);
        }
    }
}

} // verus!
