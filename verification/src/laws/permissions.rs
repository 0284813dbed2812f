//! Who is asked for what, and what an answer changes.
use vstd::prelude::*;
use crate::config::DefaultPermission;
use crate::laws::exec::refused;
use crate::session::dispatch::{
    lemma_route_frame, DispatchView, PermissionType, PermissionsView, PromptState,
};
use crate::session::prompt::PromptResult;
use crate::session::terminal::TerminalView;
use crate::session::SessionView;
use crate::types::{ErrorCode, MessageView, Request, SessionRequest};

verus! {

/// Granting something to someone changes the answer for that pair alone.
pub proof fn law_a_grant_is_for_one_source_and_one_kind(
    p: PermissionsView,
    source: Seq<char>,
    ptype: PermissionType,
    other: Seq<char>,
    kind: PermissionType,
)
    ensures
        p.allow(source, ptype).allowed(other, kind) == (p.allowed(other, kind) || other == source
            && kind == ptype),
        p.allowed(other, PermissionType::Read) == p.read.contains(other),
        p.allowed(other, PermissionType::Write) == p.write.contains(other),
{
}

/// Whether a request reads the session.
pub open spec fn reads(request: Request) -> bool {
    request is Peek || request is History
}

/// Whether nobody is asked for a request.
pub open spec fn is_free(request: Request) -> bool {
    request is Show || request is Hide || request is Tag || request is Clear
}

/// Whether the user has granted a request to its source for the session.
pub open spec fn is_granted(s: SessionView, req: SessionRequest) -> bool {
    ||| reads(req.request) && s.dispatch.permissions.read.contains(req.source_id@)
    ||| req.request is Exec && s.dispatch.permissions.write.contains(req.source_id@)
}

/// A message that refuses a request.
pub open spec fn refusal(req: SessionRequest, why: Seq<char>) -> MessageView {
    MessageView::Response { id: req.id, result: refused(ErrorCode::PermissionDenied, why) }
}

/// A session that denies by default refuses all reads and execs, and does nothing else.
pub proof fn law_denied_by_default(s: SessionView, req: SessionRequest, now: u64)
    requires
        s.dispatch.default_permission == DefaultPermission::Deny,
        reads(req.request) || req.request is Exec,
    ensures
        s.dispatch_request(req, now) == (SessionView {
            outbox: s.outbox.push(refusal(req, "denied by policy"@)),
            ..s
        }),
{
}

/// What needs no permission, what is allowed by default and what was granted for the session goes
/// on without a question.
pub proof fn law_permitted_without_a_question(s: SessionView, req: SessionRequest, now: u64)
    requires
        is_free(req.request) || s.dispatch.default_permission == DefaultPermission::Allow
            || s.dispatch.default_permission == DefaultPermission::Prompt && is_granted(s, req),
    ensures
        s.dispatch_request(req, now) == s.route(req, now),
{
}

/// The question that a request is put to the user with.
pub open spec fn question(req: SessionRequest) -> PromptState {
    PromptState::Pending {
        request: req,
        permission_type: if req.request is Exec {
            PermissionType::Write
        } else {
            PermissionType::Read
        },
        selected: 0,
        expanded: false,
        scroll_offset: 0,
    }
}

/// A session that asks by default puts every read and every exec that was not granted before the
/// user: a read asks to read, an exec to write. If a question is shown already, the new one waits
/// behind all others. Nothing else changes.
pub proof fn law_the_user_is_asked(s: SessionView, req: SessionRequest, now: u64)
    requires
        s.dispatch.default_permission == DefaultPermission::Prompt,
        reads(req.request) || req.request is Exec,
        !is_granted(s, req),
    ensures
        s.dispatch.prompt_state is Pending ==> s.dispatch_request(req, now) == (SessionView {
            dispatch: DispatchView {
                prompt_queue: s.dispatch.prompt_queue.push(
                    (req, question(req)->permission_type),
                ),
                ..s.dispatch
            },
            ..s
        }),
        s.dispatch.prompt_state is Idle && s.dispatch.prompt_queue.len() == 0
            ==> s.dispatch_request(req, now) == (SessionView {
            dispatch: DispatchView { prompt_state: question(req), ..s.dispatch },
            view: TerminalView { dirty: true, ..s.view },
            ..s
        }),
{
    let queue = s.dispatch.prompt_queue.push((req, question(req)->permission_type));
    if s.dispatch.prompt_state is Idle && s.dispatch.prompt_queue.len() == 0 {
        assert(queue.skip(1) =~= s.dispatch.prompt_queue);
    }
}

/// The next question, in the order in which the requests came.
pub proof fn law_questions_come_in_order(s: SessionView)
    ensures
        ({
            let after = s.close_prompt();
            let queue = s.dispatch.prompt_queue;
            &&& queue.len() == 0 ==> after.dispatch.prompt_state is Idle
            &&& queue.len() > 0 ==> after.dispatch.prompt_queue == queue.skip(1)
                && after.dispatch.prompt_state == (PromptState::Pending {
                request: queue[0].0,
                permission_type: queue[0].1,
                selected: 0,
                expanded: false,
                scroll_offset: 0,
            })
            &&& after.pty == s.pty
            &&& after.outbox == s.outbox
            &&& after.dispatch.permissions == s.dispatch.permissions
        }),
{
}

/// What each answer does: allowing once does the request and grants nothing, allowing for the
/// session does it and grants its kind to its source, and denying refuses it. Then the next
/// question is shown.
pub proof fn law_what_answers_do(
    s: SessionView,
    req: SessionRequest,
    ptype: PermissionType,
    now: u64,
)
    ensures
        s.resolve_prompt(req, ptype, PromptResult::Allow, now) == s.route(req, now).close_prompt(),
        s.resolve_prompt(req, ptype, PromptResult::Deny, now) == (SessionView {
            outbox: s.outbox.push(refusal(req, "denied by user"@)),
            ..s
        }).close_prompt(),
        ({
            let after = s.resolve_prompt(req, ptype, PromptResult::AlwaysAllow, now);
            let p = s.dispatch.permissions;
            &&& ptype == PermissionType::Read ==> after.dispatch.permissions.read == p.read.insert(
                req.source_id@,
            ) && after.dispatch.permissions.write == p.write
            &&& ptype == PermissionType::Write ==> after.dispatch.permissions.write
                == p.write.insert(req.source_id@) && after.dispatch.permissions.read == p.read
            &&& after == (SessionView {
                dispatch: DispatchView {
                    permissions: after.dispatch.permissions,
                    ..s.dispatch
                },
                ..s
            }).route(req, now).close_prompt()
        }),
        s.resolve_prompt(req, ptype, PromptResult::Allow, now).dispatch.permissions
            == s.dispatch.permissions,
        s.resolve_prompt(req, ptype, PromptResult::Deny, now).dispatch.permissions
            == s.dispatch.permissions,
{
    let d = s.dispatch;
    let t = s.with_dispatch(
        DispatchView { permissions: d.permissions.allow(req.source_id@, ptype), ..d },
    );
    lemma_route_frame(t, req, now);
    lemma_route_frame(s, req, now);
}

/// After something was allowed for the session, everyone else, and everything of another kind, is
/// asked for as before.
pub proof fn law_a_grant_changes_no_other_question(
    s: SessionView,
    req: SessionRequest,
    ptype: PermissionType,
    now: u64,
    later: SessionRequest,
)
    requires
        later.source_id@ != req.source_id@ || reads(later.request) != (ptype
            == PermissionType::Read),
    ensures
        s.resolve_prompt(req, ptype, PromptResult::AlwaysAllow, now).must_ask(later) == s.must_ask(
            later,
        ),
        is_granted(s.resolve_prompt(req, ptype, PromptResult::AlwaysAllow, now), later)
            == is_granted(s, later),
{
    law_what_answers_do(s, req, ptype, now);
    let d = s.dispatch;
    let t = s.with_dispatch(
        DispatchView { permissions: d.permissions.allow(req.source_id@, ptype), ..d },
    );
    lemma_route_frame(t, req, now);
}

} // verus!
