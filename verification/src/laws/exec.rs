//! How keys are sent: what goes out when, how long pauses last, and what is answered.
use vstd::prelude::*;
use vstd::utf8::encode_utf8;
use crate::keys::{args_groups, KeyGroupView};
use crate::session::dispatch::{
    delayed, delayed_groups, exec_groups, first_stdin, pause_over, prompts_without, run_groups,
    stdin_count, without, DispatchView, PendingView, PermissionType, PromptState,
};
use crate::session::SessionView;
use crate::strings::{pasted, text_opt, texts};
use crate::types::{ErrorCode, MessageView, PayloadView, Request, ResponseView, SessionRequest};

verus! {

// === Pauses ===

/// A sleep lasts as many milliseconds as it says: nothing is sent, what follows is left, and the
/// pause is over at a time exactly when that many have passed, whatever the output did.
pub proof fn law_a_sleep_lasts_its_time(
    groups: Seq<KeyGroupView>,
    ms: u64,
    start: u64,
    default_threshold: u64,
    now: u64,
    last_activity: u64,
)
    requires
        groups.len() > 0,
        groups[0] == KeyGroupView::Sleep(ms),
    ensures
        ({
            let (bytes, rest, pause) = run_groups(groups, start, default_threshold);
            &&& bytes.len() == 0
            &&& rest == groups.skip(1)
            &&& pause matches Some(p) && pause_over(p, now, last_activity) == (now >= start + ms
                * 1_000_000)
        }),
{
    assert(start + ms * 1_000_000 <= u128::MAX) by (nonlinear_arith)
        requires
            start <= u64::MAX,
            ms <= u64::MAX,
    ;
}

/// A wait lasts until there was no output for its threshold, and at most as many milliseconds as
/// its timeout says. Nothing is sent, and what follows is left.
pub proof fn law_a_wait_lasts_until_output_settles(
    groups: Seq<KeyGroupView>,
    timeout: u64,
    idle_threshold: Option<u64>,
    start: u64,
    default_threshold: u64,
    now: u64,
    last_activity: u64,
)
    requires
        groups.len() > 0,
        groups[0] == (KeyGroupView::Wait { timeout, idle_threshold }),
    ensures
        ({
            let threshold: int = if idle_threshold is Some {
                idle_threshold->Some_0 as int
            } else {
                default_threshold as int
            };
            let idle: int = if now > last_activity {
                now - last_activity
            } else {
                0
            };
            let (bytes, rest, pause) = run_groups(groups, start, default_threshold);
            &&& bytes.len() == 0
            &&& rest == groups.skip(1)
            &&& pause matches Some(p) && pause_over(p, now, last_activity) == (now >= start
                + timeout * 1_000_000 || idle >= threshold * 1_000_000)
        }),
{
    assert(start + timeout * 1_000_000 <= u128::MAX) by (nonlinear_arith)
        requires
            start <= u64::MAX,
            timeout <= u64::MAX,
    ;
}

/// An exec that sleeps goes on when its time has come, and not before.
pub proof fn law_an_exec_sleeps(
    s: SessionView,
    id: u64,
    rest: Seq<KeyGroupView>,
    ms: u64,
    start: u64,
    now: u64,
)
    ensures
        ({
            let sleeping = s.run_exec(id, seq![KeyGroupView::Sleep(ms)] + rest, start);
            let awake = SessionView {
                dispatch: DispatchView { pending_exec: None, ..sleeping.dispatch },
                ..sleeping
            };
            &&& sleeping.pty == s.pty
            &&& sleeping.outbox == s.outbox
            &&& sleeping.tick(now) == if now < start + ms * 1_000_000 {
                sleeping
            } else {
                awake.run_exec(id, rest, now)
            }
        }),
{
    let groups = seq![KeyGroupView::Sleep(ms)] + rest;
    assert(groups.skip(1) =~= rest);
    law_a_sleep_lasts_its_time(
        groups,
        ms,
        start,
        s.dispatch.idle_threshold_ms,
        now,
        s.dispatch.last_pty_activity,
    );
}

// === Sending ===

/// Bytes one after the other.
pub open spec fn joined(pieces: Seq<Seq<u8>>) -> Seq<u8>
    decreases pieces.len(),
{
    if pieces.len() == 0 {
        Seq::empty()
    } else {
        joined(pieces.drop_last()) + pieces.last()
    }
}

pub open spec fn byte_groups(pieces: Seq<Seq<u8>>) -> Seq<KeyGroupView> {
    pieces.map_values(|b: Seq<u8>| KeyGroupView::Bytes(b))
}

/// All bytes up to the first pause are sent at once, in order, and nothing behind it. Without a
/// pause all are, and nothing is left.
pub proof fn law_keys_are_sent_up_to_a_pause(
    pieces: Seq<Seq<u8>>,
    rest: Seq<KeyGroupView>,
    now: u64,
    threshold: u64,
)
    requires
        rest.len() > 0 ==> rest[0] is Sleep || rest[0] is Wait,
    ensures
        ({
            let (bytes, left, pause) = run_groups(byte_groups(pieces) + rest, now, threshold);
            &&& bytes == joined(pieces)
            &&& rest.len() == 0 ==> left.len() == 0 && pause is None
            &&& rest.len() > 0 ==> left == rest.skip(1) && pause is Some && pause == run_groups(
                rest,
                now,
                threshold,
            ).2
        }),
    decreases pieces.len(),
{
    let groups = byte_groups(pieces) + rest;
    if pieces.len() == 0 {
        assert(groups =~= rest);
    } else {
        let tail = pieces.skip(1);
        assert(groups.skip(1) =~= byte_groups(tail) + rest);
        assert(groups[0] == KeyGroupView::Bytes(pieces[0]));
        law_keys_are_sent_up_to_a_pause(tail, rest, now, threshold);
        lemma_joined_first(pieces);
    }
}

proof fn lemma_joined_first(pieces: Seq<Seq<u8>>)
    requires
        pieces.len() > 0,
    ensures
        joined(pieces) == pieces[0] + joined(pieces.skip(1)),
    decreases pieces.len(),
{
    if pieces.len() == 1 {
        assert(pieces.drop_last() =~= Seq::<Seq<u8>>::empty());
        assert(pieces.skip(1) =~= Seq::<Seq<u8>>::empty());
        assert(joined(pieces) =~= pieces[0] + joined(pieces.skip(1)));
    } else {
        lemma_joined_first(pieces.drop_last());
        assert(pieces.drop_last().skip(1) =~= pieces.skip(1).drop_last());
        assert(joined(pieces) =~= pieces[0] + joined(pieces.skip(1)));
    }
}

/// Between two groups of bytes that stand side by side there is one sleep of the delay, and nowhere
/// else: two lists of groups, one behind the other, are delayed each for itself, with a sleep
/// between them where bytes meet. A single group has no delay, and with no delay nothing changes.
pub proof fn law_delays_stand_between_bytes(
    a: Seq<KeyGroupView>,
    b: Seq<KeyGroupView>,
    g: KeyGroupView,
    delay: u64,
)
    ensures
        delayed(a, 0) == a,
        delayed(seq![g], delay) == seq![g],
        a.len() > 0 && b.len() > 0 && delay > 0 ==> delayed(a + b, delay) == delayed(a, delay) + (
        if a.last() is Bytes && b[0] is Bytes {
            seq![KeyGroupView::Sleep(delay)]
        } else {
            Seq::empty()
        }) + delayed(b, delay),
    decreases b.len(),
{
    let none = Seq::<KeyGroupView>::empty();
    assert(seq![g].drop_last() =~= none);
    reveal_with_fuel(delayed_groups, 2);
    assert(delayed(seq![g], delay) =~= seq![g]);
    if a.len() > 0 && b.len() > 0 && delay > 0 {
        let between = if a.last() is Bytes && b[0] is Bytes {
            seq![KeyGroupView::Sleep(delay)]
        } else {
            none
        };
        let all = a + b;
        assert(all.drop_last() =~= a + b.drop_last());
        assert(all.last() == b.last());
        if b.len() == 1 {
            assert(b =~= seq![b[0]]);
            assert(b.drop_last() =~= none);
            assert(a + b.drop_last() =~= a);
            assert(all[all.len() - 2] == a.last());
            assert(delayed(b, delay) =~= b);
            assert(delayed(all, delay) =~= delayed(a, delay) + between + delayed(b, delay));
        } else {
            law_delays_stand_between_bytes(a, b.drop_last(), g, delay);
            assert(all[all.len() - 2] == b[b.len() - 2]);
            assert(delayed(all, delay) =~= delayed(a, delay) + between + delayed(b, delay));
        }
    }
}

/// The placeholder becomes the piped text, with its newlines as Enter, and the groups around it
/// stay. Without a text for it, or with a second placeholder, the exec is refused. Keys without a
/// placeholder stay as they are.
pub proof fn law_the_placeholder_is_filled(
    keys: Seq<Seq<char>>,
    a: Seq<KeyGroupView>,
    b: Seq<KeyGroupView>,
    stdin: Option<Seq<char>>,
)
    requires
        forall|i: int| 0 <= i < a.len() ==> !(#[trigger] a[i] is Stdin),
    ensures
        args_groups(keys) == Ok::<Seq<KeyGroupView>, Seq<char>>(a) ==> exec_groups(keys, stdin, 0)
            == Ok::<Seq<KeyGroupView>, Seq<char>>(a),
        args_groups(keys) == Ok::<Seq<KeyGroupView>, Seq<char>>(a + seq![KeyGroupView::Stdin] + b)
            ==> match stdin {
            Some(t) => if forall|i: int| 0 <= i < b.len() ==> !(#[trigger] b[i] is Stdin) {
                exec_groups(keys, stdin, 0) == Ok::<Seq<KeyGroupView>, Seq<char>>(
                    a + seq![KeyGroupView::Bytes(encode_utf8(pasted(t)))] + b,
                )
            } else {
                exec_groups(keys, stdin, 0) is Err
            },
            None => exec_groups(keys, stdin, 0) is Err,
        },
        args_groups(keys) is Err ==> exec_groups(keys, stdin, 0) is Err,
{
    let all = a + seq![KeyGroupView::Stdin] + b;
    lemma_first(a, Seq::empty());
    assert(a + Seq::<KeyGroupView>::empty() =~= a);
    lemma_first(a, seq![KeyGroupView::Stdin] + b);
    assert(a + (seq![KeyGroupView::Stdin] + b) =~= all);
    lemma_count(a);
    lemma_count_concat(a, seq![KeyGroupView::Stdin]);
    lemma_count_concat(a + seq![KeyGroupView::Stdin], b);
    lemma_count_one();
    if let Some(t) = stdin {
        let sent = KeyGroupView::Bytes(encode_utf8(pasted(t)));
        assert(all.update(a.len() as int, sent) =~= a + seq![sent] + b);
    }
    if forall|i: int| 0 <= i < b.len() ==> !(#[trigger] b[i] is Stdin) {
        lemma_count(b);
    } else {
        let i = choose|i: int| 0 <= i < b.len() && b[i] is Stdin;
        lemma_count_some(b, i);
    }
}

proof fn lemma_first(a: Seq<KeyGroupView>, rest: Seq<KeyGroupView>)
    requires
        forall|i: int| 0 <= i < a.len() ==> !(#[trigger] a[i] is Stdin),
        rest.len() > 0 ==> rest[0] is Stdin,
    ensures
        first_stdin(a + rest) == a.len(),
    decreases a.len(),
{
    if a.len() == 0 {
        assert(a + rest =~= rest);
    } else {
        assert(!(a[0] is Stdin));
        assert((a + rest).skip(1) =~= a.skip(1) + rest);
        assert forall|i: int| 0 <= i < a.skip(1).len() implies !(#[trigger] a.skip(1)[i]
            is Stdin) by {
            assert(!(a[i + 1] is Stdin));
        }
        lemma_first(a.skip(1), rest);
    }
}

proof fn lemma_count_one()
    ensures
        stdin_count(seq![KeyGroupView::Stdin]) == 1,
{
    reveal_with_fuel(stdin_count, 2);
    assert(seq![KeyGroupView::Stdin].drop_last() =~= Seq::<KeyGroupView>::empty());
}

proof fn lemma_count(a: Seq<KeyGroupView>)
    requires
        forall|i: int| 0 <= i < a.len() ==> !(#[trigger] a[i] is Stdin),
    ensures
        stdin_count(a) == 0,
    decreases a.len(),
{
    if a.len() > 0 {
        assert(!(a[a.len() - 1] is Stdin));
        assert forall|i: int| 0 <= i < a.drop_last().len() implies !(#[trigger] a.drop_last()[i]
            is Stdin) by {
            assert(!(a[i] is Stdin));
        }
        lemma_count(a.drop_last());
    }
}

proof fn lemma_count_some(a: Seq<KeyGroupView>, i: int)
    requires
        0 <= i < a.len(),
        a[i] is Stdin,
    ensures
        stdin_count(a) > 0,
    decreases a.len(),
{
    if i < a.len() - 1 {
        lemma_count_some(a.drop_last(), i);
    }
}

proof fn lemma_count_concat(a: Seq<KeyGroupView>, b: Seq<KeyGroupView>)
    ensures
        stdin_count(a + b) == stdin_count(a) + stdin_count(b),
    decreases b.len(),
{
    if b.len() == 0 {
        assert(a + b =~= a);
    } else {
        assert((a + b).drop_last() =~= a + b.drop_last());
        lemma_count_concat(a, b.drop_last());
    }
}

// === Answers ===

/// The answer to an exec that is done: the id of the session.
pub open spec fn done_answer(s: SessionView) -> ResponseView {
    ResponseView {
        ok: true,
        data: Some(
            PayloadView::Exec {
                id: if s.id is Some {
                    s.id->Some_0
                } else {
                    Seq::empty()
                },
            },
        ),
        error: None,
        code: None,
    }
}

pub open spec fn refused(code: ErrorCode, message: Seq<char>) -> ResponseView {
    ResponseView { ok: false, data: None, error: Some(message), code: Some(code) }
}

/// An exec without pauses, in a session that runs no other, sends all its bytes at once and is
/// answered; nothing else changes.
pub proof fn law_an_exec_without_pauses(
    s: SessionView,
    req: SessionRequest,
    pieces: Seq<Seq<u8>>,
    now: u64,
)
    requires
        req.request matches Request::Exec { keys, stdin, .. } && exec_groups(
            texts(keys@),
            text_opt(stdin),
            s.dispatch.send_delay_ms,
        ) == Ok::<Seq<KeyGroupView>, Seq<char>>(byte_groups(pieces)),
        s.dispatch.current_exec is None,
        s.dispatch.exec_queue.len() == 0,
    ensures
        s.route(req, now) == (SessionView {
            pty: if joined(pieces).len() > 0 {
                s.pty.push(joined(pieces))
            } else {
                s.pty
            },
            outbox: s.outbox.push(
                MessageView::Response { id: req.id, result: done_answer(s) },
            ),
            ..s
        }),
{
    let groups = byte_groups(pieces);
    law_keys_are_sent_up_to_a_pause(pieces, Seq::empty(), now, s.dispatch.idle_threshold_ms);
    assert(groups + Seq::<KeyGroupView>::empty() =~= groups);
    let d = s.dispatch;
    assert(DispatchView { current_exec: None, ..d } == d);
    reveal_with_fuel(SessionView::finish_exec, 2);
}

/// An exec whose keys are wrong sends nothing and is answered with what is wrong.
pub proof fn law_bad_keys_are_answered(s: SessionView, req: SessionRequest, e: Seq<char>, now: u64)
    requires
        req.request matches Request::Exec { keys, stdin, .. } && exec_groups(
            texts(keys@),
            text_opt(stdin),
            s.dispatch.send_delay_ms,
        ) == Err::<Seq<KeyGroupView>, Seq<char>>(e),
        s.dispatch.current_exec is None,
    ensures
        s.route(req, now) == (SessionView {
            outbox: s.outbox.push(
                MessageView::Response { id: req.id, result: refused(ErrorCode::Internal, e) },
            ),
            ..s
        }),
{
}

/// When an exec is done it is answered, and the exec that waits longest begins at once.
pub proof fn law_the_next_exec_begins(s: SessionView, id: u64, now: u64)
    requires
        s.dispatch.exec_queue.len() > 0 ==> s.dispatch.exec_queue[0].request is Exec,
    ensures
        ({
            let answered = SessionView {
                outbox: s.outbox.push(MessageView::Response { id, result: done_answer(s) }),
                ..s
            };
            let queue = s.dispatch.exec_queue;
            if queue.len() == 0 {
                s.finish_exec(id, now) == (SessionView {
                    dispatch: DispatchView { current_exec: None, ..s.dispatch },
                    ..answered
                })
            } else {
                s.finish_exec(id, now) == (SessionView {
                    dispatch: DispatchView {
                        current_exec: None,
                        exec_queue: queue.skip(1),
                        ..s.dispatch
                    },
                    ..answered
                }).route(queue[0], now)
            }
        }),
{
}

/// An exec with a pause keeps what it has still to send, and nothing else of the session's state of
/// requests changes.
pub proof fn law_a_paused_exec_is_current(
    s: SessionView,
    id: u64,
    groups: Seq<KeyGroupView>,
    now: u64,
)
    ensures
        ({
            let (bytes, rest, pause) = run_groups(groups, now, s.dispatch.idle_threshold_ms);
            let after = s.run_exec(id, groups, now);
            rest.len() > 0 || pause is Some ==> after.dispatch == (DispatchView {
                pending_exec: Some(PendingView { request_id: id, rest, pause }),
                ..s.dispatch
            })
        }),
{
}

// === Cancelling ===

/// Cancelling takes out the requests with that id and keeps all others, in order.
pub proof fn law_only_the_cancelled_request_goes(
    a: Seq<SessionRequest>,
    b: Seq<SessionRequest>,
    r: SessionRequest,
    id: u64,
)
    ensures
        without(a + b, id) == without(a, id) + without(b, id),
        without(seq![r], id) == if r.id == id {
            Seq::<SessionRequest>::empty()
        } else {
            seq![r]
        },
        without(Seq::<SessionRequest>::empty(), id) == Seq::<SessionRequest>::empty(),
    decreases b.len(),
{
    let none = Seq::<SessionRequest>::empty();
    reveal_with_fuel(without, 2);
    assert(seq![r].drop_last() =~= none);
    assert(without(seq![r], id) =~= if r.id == id {
        none
    } else {
        seq![r]
    });
    if b.len() == 0 {
        assert(a + b =~= a);
        assert(without(a, id) + none =~= without(a, id));
    } else {
        law_only_the_cancelled_request_goes(a, b.drop_last(), r, id);
        assert((a + b).drop_last() =~= a + b.drop_last());
        assert(without(a + b, id) =~= without(a, id) + without(b, id));
    }
}

pub proof fn law_only_the_cancelled_prompt_goes(
    a: Seq<(SessionRequest, PermissionType)>,
    b: Seq<(SessionRequest, PermissionType)>,
    r: (SessionRequest, PermissionType),
    id: u64,
)
    ensures
        prompts_without(a + b, id) == prompts_without(a, id) + prompts_without(b, id),
        prompts_without(seq![r], id) == if r.0.id == id {
            Seq::<(SessionRequest, PermissionType)>::empty()
        } else {
            seq![r]
        },
        prompts_without(Seq::<(SessionRequest, PermissionType)>::empty(), id) == Seq::<
            (SessionRequest, PermissionType),
        >::empty(),
    decreases b.len(),
{
    let none = Seq::<(SessionRequest, PermissionType)>::empty();
    reveal_with_fuel(prompts_without, 2);
    assert(seq![r].drop_last() =~= none);
    assert(prompts_without(seq![r], id) =~= if r.0.id == id {
        none
    } else {
        seq![r]
    });
    if b.len() == 0 {
        assert(a + b =~= a);
        assert(prompts_without(a, id) + none =~= prompts_without(a, id));
    } else {
        law_only_the_cancelled_prompt_goes(a, b.drop_last(), r, id);
        assert((a + b).drop_last() =~= a + b.drop_last());
        assert(prompts_without(a + b, id) =~= prompts_without(a, id) + prompts_without(b, id));
    }
}

/// Cancelling a request that is only queued changes nothing but the queues. Cancelling the exec
/// that is in progress stops it, and the exec that waits longest begins.
pub proof fn law_cancelling(s: SessionView, id: u64, now: u64)
    requires
        !(s.dispatch.prompt_state matches PromptState::Pending { request, .. } && request.id == id),
        s.dispatch.current_read is None,
    ensures
        ({
            let queue = without(s.dispatch.exec_queue, id);
            let left = SessionView {
                dispatch: DispatchView {
                    prompt_queue: prompts_without(s.dispatch.prompt_queue, id),
                    read_queue: without(s.dispatch.read_queue, id),
                    exec_queue: queue,
                    ..s.dispatch
                },
                ..s
            };
            let stopped = SessionView {
                dispatch: DispatchView { current_exec: None, pending_exec: None, ..left.dispatch },
                ..left
            };
            s.cancel(id, now) == if s.dispatch.current_exec != Some(id) {
                left
            } else if queue.len() == 0 {
                stopped
            } else {
                (SessionView {
                    dispatch: DispatchView { exec_queue: queue.skip(1), ..stopped.dispatch },
                    ..stopped
                }).start_exec(queue[0], now)
            }
        }),
{
}

/// Reads that wait are answered in the order in which they came.
pub proof fn law_reads_are_answered_in_order(s: SessionView)
    requires
        s.dispatch.current_read is None,
        s.dispatch.read_queue.len() > 0,
    ensures
        ({
            let queue = s.dispatch.read_queue;
            let (after, response) = (SessionView {
                dispatch: DispatchView { read_queue: queue.skip(1), ..s.dispatch },
                ..s
            }).execute(queue[0].request);
            s.next_read() == (SessionView {
                outbox: after.outbox.push(
                    MessageView::Response { id: queue[0].id, result: response },
                ),
                ..after
            }).next_read()
        }),
{
}

/// An exec that may begin is the current one and runs its groups, with the session's delay between
/// its arguments.
pub proof fn law_an_exec_begins(
    s: SessionView,
    req: SessionRequest,
    groups: Seq<KeyGroupView>,
    now: u64,
)
    requires
        req.request matches Request::Exec { keys, stdin, .. } && exec_groups(
            texts(keys@),
            text_opt(stdin),
            0,
        ) == Ok::<Seq<KeyGroupView>, Seq<char>>(groups),
        s.dispatch.current_exec is None,
    ensures
        s.route(req, now) == (SessionView {
            dispatch: DispatchView { current_exec: Some(req.id), ..s.dispatch },
            ..s
        }).run_exec(req.id, delayed(groups, s.dispatch.send_delay_ms), now),
{
}

/// The delay changes nothing of what is refused.
pub proof fn law_the_delay_is_added(
    keys: Seq<Seq<char>>,
    stdin: Option<Seq<char>>,
    delay: u64,
)
    ensures
        match exec_groups(keys, stdin, 0) {
            Ok(groups) => exec_groups(keys, stdin, delay) == Ok::<Seq<KeyGroupView>, Seq<char>>(
                delayed(groups, delay),
            ),
            Err(e) => exec_groups(keys, stdin, delay) == Err::<Seq<KeyGroupView>, Seq<char>>(e),
        },
{
}

} // verus!
