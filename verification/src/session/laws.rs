//! What holds of a session over all requests: what was sent is not taken back, and an exec is
//! answered when its keys are sent.
use vstd::prelude::*;
use vstd::utf8::encode_utf8;
use crate::keys::{
    arg_groups, args_groups, escaped, glue, law_escaped_text_is_literal, lemma_stdin_token,
    KeyGroupView,
};
use crate::session::dispatch::{
    all_bytes, category_of, delayed, delayed_groups, exec_groups, is_done,
    law_delays_change_no_bytes, law_running_an_exec_loses_no_bytes, lemma_no_stdin_count,
    lemma_no_stdin_stays, no_stdin, run_groups, stdin_count, with_stdin, without, DispatchView,
    PendingView, PermissionType, PromptState, RequestCategory,
};
use crate::session::prompt::{prompt_key, PromptResult};
use crate::session::terminal::KeyEvent;
use crate::session::SessionView;
use crate::strings::{pasted, text_opt, texts};
use crate::types::{Request, SessionRequest};

verus! {

/// Whether all that a session was to send is still to be sent, first and in order.
pub open spec fn continues(before: SessionView, after: SessionView) -> bool {
    &&& before.outbox.is_prefix_of(after.outbox)
    &&& before.pty.is_prefix_of(after.pty)
}

proof fn lemma_continues(a: SessionView, b: SessionView, c: SessionView)
    requires
        continues(a, b),
        continues(b, c),
    ensures
        continues(a, c),
{
    assert(a.outbox =~= c.outbox.subrange(0, a.outbox.len() as int)) by {
        assert forall|i: int| 0 <= i < a.outbox.len() implies a.outbox[i] == c.outbox[i] by {
            assert(a.outbox[i] == b.outbox.subrange(0, a.outbox.len() as int)[i]);
            assert(b.outbox[i] == c.outbox.subrange(0, b.outbox.len() as int)[i]);
        }
    }
    assert(a.pty =~= c.pty.subrange(0, a.pty.len() as int)) by {
        assert forall|i: int| 0 <= i < a.pty.len() implies a.pty[i] == c.pty[i] by {
            assert(a.pty[i] == b.pty.subrange(0, a.pty.len() as int)[i]);
            assert(b.pty[i] == c.pty.subrange(0, b.pty.len() as int)[i]);
        }
    }
}

proof fn lemma_prefix_of_self<T>(s: Seq<T>)
    ensures
        s.is_prefix_of(s),
{
    assert(s =~= s.subrange(0, s.len() as int));
}

proof fn lemma_same_output(a: SessionView, b: SessionView)
    requires
        a.outbox == b.outbox,
        a.pty == b.pty,
    ensures
        continues(a, b),
{
    lemma_prefix_of_self(a.outbox);
    lemma_prefix_of_self(a.pty);
}

proof fn lemma_write_continues(s: SessionView, bytes: Seq<u8>)
    ensures
        continues(s, s.write(bytes)),
{
    lemma_prefix_of_self(s.outbox);
    lemma_prefix_of_self(s.pty);
    assert(s.pty =~= s.pty.push(bytes).subrange(0, s.pty.len() as int));
}

proof fn lemma_send_continues(s: SessionView, t: SessionView)
    requires
        t.pty == s.pty,
        t.outbox.len() == s.outbox.len() + 1,
        t.outbox.drop_last() == s.outbox,
    ensures
        continues(s, t),
{
    lemma_prefix_of_self(s.pty);
    assert(s.outbox =~= t.outbox.subrange(0, s.outbox.len() as int));
}

proof fn lemma_answer_continues(s: SessionView, req: SessionRequest)
    ensures
        continues(s, s.answer(req)),
{
    let t = s.answer(req);
    assert(t.outbox.drop_last() =~= s.outbox);
    lemma_send_continues(s, t);
}

proof fn lemma_next_read_continues(s: SessionView)
    ensures
        continues(s, s.next_read()),
    decreases s.dispatch.read_queue.len(),
{
    let d = s.dispatch;
    if d.current_read is None && d.read_queue.len() > 0 {
        let t = s.with_dispatch(DispatchView { read_queue: d.read_queue.skip(1), ..d });
        let u = t.answer(d.read_queue[0]);
        lemma_same_output(s, t);
        lemma_answer_continues(t, d.read_queue[0]);
        lemma_continues(s, t, u);
        lemma_next_read_continues(u);
        lemma_continues(s, u, s.next_read());
    } else {
        lemma_same_output(s, s.next_read());
    }
}

proof fn lemma_execute_continues(s: SessionView, req: SessionRequest)
    ensures
        continues(s, s.execute_and_respond(req)),
{
    let t = s.answer(req);
    lemma_answer_continues(s, req);
    if t.dispatch.current_read == Some(req.id) {
        let u = t.with_dispatch(DispatchView { current_read: None, ..t.dispatch });
        lemma_same_output(t, u);
        lemma_next_read_continues(u);
        lemma_continues(t, u, u.next_read());
        lemma_continues(s, t, u.next_read());
    }
}

proof fn lemma_start_exec_continues(s: SessionView, req: SessionRequest, now: u64)
    ensures
        continues(s, s.start_exec(req, now)),
    decreases s.dispatch.exec_queue.len(), 2nat,
{
    let after = s.start_exec(req, now);
    if let Request::Exec { keys, stdin, .. } = req.request {
        match exec_groups(texts(keys@), text_opt(stdin), s.dispatch.send_delay_ms) {
            Ok(groups) => {
                let t = s.with_current_exec(req.id);
                lemma_same_output(s, t);
                lemma_run_exec_continues(t, req.id, groups, now);
                lemma_continues(s, t, after);
            },
            Err(_) => {
                assert(after.outbox.drop_last() =~= s.outbox);
                lemma_send_continues(s, after);
            },
        }
    } else {
        lemma_same_output(s, after);
    }
}

proof fn lemma_run_exec_continues(s: SessionView, id: u64, groups: Seq<KeyGroupView>, now: u64)
    ensures
        continues(s, s.run_exec(id, groups, now)),
    decreases s.dispatch.exec_queue.len(), 1nat,
{
    let (bytes, rest, pause) = run_groups(groups, now, s.dispatch.idle_threshold_ms);
    let t = s.write(bytes);
    let after = s.run_exec(id, groups, now);
    lemma_write_continues(s, bytes);
    if is_done(PendingView { request_id: id, rest, pause }) {
        lemma_finish_exec_continues(t, id, now);
    } else {
        lemma_same_output(t, after);
    }
    lemma_continues(s, t, after);
}

proof fn lemma_finish_exec_continues(s: SessionView, id: u64, now: u64)
    ensures
        continues(s.respond(id, s.exec_response()), s.finish_exec(id, now)),
        continues(s, s.finish_exec(id, now)),
    decreases s.dispatch.exec_queue.len(), 0nat,
{
    let t = s.respond(id, s.exec_response());
    let d = DispatchView { current_exec: None, ..t.dispatch };
    let after = s.finish_exec(id, now);
    assert(t.outbox.drop_last() =~= s.outbox);
    lemma_send_continues(s, t);
    if d.exec_queue.len() == 0 {
        lemma_same_output(t, after);
    } else {
        let u = t.with_dispatch(DispatchView { exec_queue: d.exec_queue.skip(1), ..d });
        lemma_same_output(t, u);
        lemma_start_exec_continues(u, d.exec_queue[0], now);
        lemma_continues(t, u, after);
    }
    lemma_continues(s, t, after);
}

proof fn lemma_route_continues(s: SessionView, req: SessionRequest, now: u64)
    ensures
        continues(s, s.route(req, now)),
{
    let d = s.dispatch;
    let after = s.route(req, now);
    match category_of(req.request) {
        RequestCategory::Instant => lemma_execute_continues(s, req),
        RequestCategory::Read => {
            if d.current_read is None {
                let t = s.with_dispatch(DispatchView { current_read: Some(req.id), ..d });
                lemma_same_output(s, t);
                lemma_execute_continues(t, req);
                lemma_continues(s, t, after);
            } else {
                lemma_same_output(s, after);
            }
        },
        RequestCategory::Exec => {
            if d.current_exec is None {
                lemma_start_exec_continues(s, req, now);
            } else {
                lemma_same_output(s, after);
            }
        },
    }
}

proof fn lemma_close_prompt_continues(s: SessionView)
    ensures
        continues(s, s.close_prompt()),
{
    lemma_same_output(s, s.close_prompt());
}

proof fn lemma_resolve_continues(
    s: SessionView,
    request: SessionRequest,
    ptype: PermissionType,
    result: PromptResult,
    now: u64,
)
    ensures
        continues(s, s.resolve_prompt(request, ptype, result, now)),
{
    let d = s.dispatch;
    let after = s.resolve_prompt(request, ptype, result, now);
    match result {
        PromptResult::Allow => {
            lemma_route_continues(s, request, now);
            lemma_close_prompt_continues(s.route(request, now));
            lemma_continues(s, s.route(request, now), after);
        },
        PromptResult::AlwaysAllow => {
            let t = s.with_dispatch(
                DispatchView { permissions: d.permissions.allow(request.source_id@, ptype), ..d },
            );
            lemma_same_output(s, t);
            lemma_route_continues(t, request, now);
            lemma_continues(s, t, t.route(request, now));
            lemma_close_prompt_continues(t.route(request, now));
            lemma_continues(s, t.route(request, now), after);
        },
        PromptResult::Deny => {
            assert(after.outbox.drop_last() =~= s.outbox);
            lemma_send_continues(s, after);
        },
        PromptResult::Navigate => lemma_close_prompt_continues(s),
    }
}

/// Nothing that is to be sent is taken back: whatever is asked, answered, typed at a prompt or
/// cancelled, and however time passes, messages and bytes that were queued stay queued, in order.
pub proof fn law_nothing_sent_is_taken_back(
    s: SessionView,
    req: SessionRequest,
    key: KeyEvent,
    cols: u16,
    rows: u16,
    id: u64,
    now: u64,
)
    ensures
        continues(s, s.dispatch_request(req, now)),
        continues(s, s.prompt_resolution(key, cols, rows, now)),
        continues(s, s.tick(now)),
        continues(s, s.cancel(id, now)),
{
    let d = s.dispatch;
    // A request
    let asked = s.dispatch_request(req, now);
    if s.must_refuse(req) {
        assert(asked.outbox.drop_last() =~= s.outbox);
        lemma_send_continues(s, asked);
    } else if s.must_ask(req) is Some {
        lemma_same_output(s, asked);
    } else {
        lemma_route_continues(s, req, now);
    }
    // A key at a prompt
    let typed = s.prompt_resolution(key, cols, rows, now);
    match d.prompt_state {
        PromptState::Idle => lemma_same_output(s, typed),
        PromptState::Pending { request, permission_type, selected, expanded, scroll_offset } => {
            let open = s.with_dispatch(DispatchView { prompt_state: PromptState::Idle, ..d });
            let r = prompt_key(key.code, selected, expanded, cols, rows);
            lemma_same_output(s, open);
            if r.result == PromptResult::Navigate {
                lemma_same_output(s, typed);
            } else {
                lemma_resolve_continues(open, request, permission_type, r.result, now);
                lemma_continues(s, open, typed);
            }
        },
    }
    // Time
    let ticked = s.tick(now);
    lemma_same_output(s, s);
    if let Some(p) = d.pending_exec {
        let t = s.with_dispatch(DispatchView { pending_exec: None, ..d });
        lemma_same_output(s, t);
        lemma_run_exec_continues(t, p.request_id, p.rest, now);
        lemma_continues(s, t, t.run_exec(p.request_id, p.rest, now));
    }
    // A cancellation
    let a = s.cancel_prompts(id);
    lemma_same_output(s, a);
    let b = a.cancel_reads(id);
    let b0 = a.with_dispatch(
        DispatchView { read_queue: without(a.dispatch.read_queue, id), ..a.dispatch },
    );
    lemma_same_output(a, b0);
    if b0.dispatch.current_read == Some(id) {
        let b1 = b0.with_dispatch(DispatchView { current_read: None, ..b0.dispatch });
        lemma_same_output(a, b1);
        lemma_next_read_continues(b1);
        lemma_continues(a, b1, b);
    }
    lemma_continues(s, a, b);
    let c = b.cancel_execs(id, now);
    let queue = without(b.dispatch.exec_queue, id);
    let c0 = b.with_dispatch(DispatchView { exec_queue: queue, ..b.dispatch });
    lemma_same_output(b, c0);
    if c0.dispatch.current_exec == Some(id) {
        let c1 = c0.with_dispatch(
            DispatchView { current_exec: None, pending_exec: None, ..c0.dispatch },
        );
        lemma_same_output(b, c1);
        if queue.len() > 0 {
            let c2 = c1.with_dispatch(DispatchView { exec_queue: queue.skip(1), ..c1.dispatch });
            lemma_same_output(b, c2);
            lemma_start_exec_continues(c2, queue[0], now);
            lemma_continues(b, c2, c);
        }
    }
    lemma_continues(s, b, c);
}

/// An exec is answered once all its keys are sent, and not before: while a pause or keys are left,
/// running it answers nothing; when none are, all its bytes were sent and its answer is next.
pub proof fn law_an_exec_is_answered_when_its_keys_are_sent(
    s: SessionView,
    id: u64,
    groups: Seq<KeyGroupView>,
    now: u64,
)
    ensures
        ({
            let (bytes, rest, pause) = run_groups(groups, now, s.dispatch.idle_threshold_ms);
            let after = s.run_exec(id, groups, now);
            if rest.len() == 0 && pause is None {
                &&& bytes == all_bytes(groups)
                &&& continues(s.write(bytes).respond(id, s.exec_response()), after)
            } else {
                &&& after.outbox == s.outbox
                &&& after.pty == s.write(bytes).pty
            }
        }),
{
    let (bytes, rest, pause) = run_groups(groups, now, s.dispatch.idle_threshold_ms);
    if rest.len() == 0 && pause is None {
        law_running_an_exec_loses_no_bytes(groups, now, s.dispatch.idle_threshold_ms);
        assert(bytes + all_bytes(rest) =~= bytes);
        lemma_finish_exec_continues(s.write(bytes), id, now);
    }
}

/// Execs do not mix: one that comes while another is in progress sends nothing and waits behind
/// those that wait already.
pub proof fn law_execs_wait_for_each_other(s: SessionView, req: SessionRequest, now: u64)
    requires
        category_of(req.request) == RequestCategory::Exec,
        s.dispatch.current_exec is Some,
    ensures
        ({
            let after = s.route(req, now);
            &&& after.pty == s.pty
            &&& after.outbox == s.outbox
            &&& after.dispatch.exec_queue == s.dispatch.exec_queue.push(req)
            &&& after.dispatch.pending_exec == s.dispatch.pending_exec
        }),
{
}

// === What an exec sends ===

/// Texts in UTF-8, one after the other.
pub open spec fn all_utf8(list: Seq<Seq<char>>) -> Seq<u8>
    decreases list.len(),
{
    if list.len() == 0 {
        Seq::empty()
    } else {
        all_utf8(list.drop_last()) + encode_utf8(list.last())
    }
}

proof fn lemma_all_bytes_concat(a: Seq<KeyGroupView>, b: Seq<KeyGroupView>)
    ensures
        all_bytes(a + b) == all_bytes(a) + all_bytes(b),
    decreases a.len(),
{
    if a.len() == 0 {
        assert(a + b =~= b);
        assert(all_bytes(a) + all_bytes(b) =~= all_bytes(b));
    } else {
        lemma_all_bytes_concat(a.skip(1), b);
        assert((a + b).skip(1) =~= a.skip(1) + b);
        assert(all_bytes(a + b) =~= all_bytes(a) + all_bytes(b));
    }
}

proof fn lemma_bytes_of_texts(list: Seq<Seq<char>>)
    ensures
        ({
            let keys = list.map_values(|t: Seq<char>| escaped(t));
            &&& args_groups(keys) matches Ok(groups)
            &&& all_bytes(groups) == all_utf8(list)
            &&& no_stdin(groups)
        }),
    decreases list.len(),
{
    let keys = list.map_values(|t: Seq<char>| escaped(t));
    if list.len() > 0 {
        let before = list.drop_last();
        lemma_bytes_of_texts(before);
        assert(keys.drop_last() =~= before.map_values(|t: Seq<char>| escaped(t)));
        law_escaped_text_is_literal(list.last());
        let first = args_groups(keys.drop_last())->Ok_0;
        let last = arg_groups(keys.last())->Ok_0;
        lemma_all_bytes_concat(first, last);
        reveal_with_fuel(all_bytes, 2);
        assert(all_bytes(last) =~= encode_utf8(list.last()));
    }
}

/// Text is sent to the session as it stands: of arguments that are texts with their braces
/// doubled, an exec sends exactly the texts, in order.
pub proof fn law_text_is_sent_as_it_stands(
    list: Seq<Seq<char>>,
    stdin: Option<Seq<char>>,
    delay: u64,
)
    ensures
        ({
            let keys = list.map_values(|t: Seq<char>| escaped(t));
            &&& exec_groups(keys, stdin, delay) matches Ok(groups)
            &&& all_bytes(groups) == all_utf8(list)
        }),
{
    let keys = list.map_values(|t: Seq<char>| escaped(t));
    lemma_bytes_of_texts(list);
    let groups = args_groups(keys)->Ok_0;
    lemma_no_stdin_stays(groups, stdin);
    lemma_no_stdin_count(groups);
    law_delays_change_no_bytes(groups, delay);
}

/// Piped text is sent to the session with its newlines as Enter and nothing else changed.
pub proof fn law_piped_text_is_sent(t: Seq<char>, delay: u64)
    ensures
        exec_groups(seq!["{stdin}"@], Some(t), delay) == Ok::<Seq<KeyGroupView>, Seq<char>>(
            seq![KeyGroupView::Bytes(encode_utf8(pasted(t)))],
        ),
{
    let arg = "{stdin}"@;
    lemma_stdin_token(Seq::empty());
    assert(arg + Seq::<char>::empty() =~= arg);
    reveal(glue);
    let stdin = seq![KeyGroupView::Stdin];
    assert(glue(stdin, Seq::empty()) =~= stdin);
    reveal_with_fuel(arg_groups, 2);
    assert(arg_groups(arg) == Ok::<Seq<KeyGroupView>, Seq<char>>(stdin));
    reveal_with_fuel(args_groups, 2);
    assert(seq![arg].drop_last() =~= Seq::<Seq<char>>::empty());
    assert(seq![arg].last() == arg);
    assert(Seq::<KeyGroupView>::empty() + stdin =~= stdin);
    assert(args_groups(seq![arg]) == Ok::<Seq<KeyGroupView>, Seq<char>>(stdin));
    assert(stdin_count(stdin) <= 1) by {
        reveal_with_fuel(stdin_count, 2);
        assert(stdin.drop_last() =~= Seq::<KeyGroupView>::empty());
    }
    let sent = seq![KeyGroupView::Bytes(encode_utf8(pasted(t)))];
    assert(with_stdin(stdin, Some(t)) == Some(sent)) by {
        assert(stdin[0] is Stdin);
        assert(stdin.update(0, sent[0]) =~= sent);
    }
    assert(delayed(sent, delay) =~= sent) by {
        reveal_with_fuel(delayed_groups, 2);
        assert(sent.drop_last() =~= Seq::<KeyGroupView>::empty());
    }
}

} // verus!
