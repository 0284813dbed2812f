//! What the parts of a value are called in contracts.
use vstd::prelude::*;
use crate::client::{Output, OutputView};
use crate::keys::{KeyGroup, KeyGroupView};
use crate::server::{Effect, EffectView};
use crate::session::prompt::{Span, SpanView};
use crate::session::text::{Action, ActionView};
use crate::types::{
    err_response, ok_empty_response, ok_response, ErrorCode, MessageView, Payload, PayloadView,
    Response, ResponseView, SessionMessage,
};

verus! {

/// An answer that all went well has no error, and one that something went wrong has no data.
pub proof fn law_answers(data: PayloadView, code: ErrorCode, message: Seq<char>)
    ensures
        ok_response(data) == (ResponseView {
            ok: true,
            data: Some(data),
            error: None,
            code: None,
        }),
        ok_empty_response() == (ResponseView { ok: true, data: None, error: None, code: None }),
        err_response(code, message) == (ResponseView {
            ok: false,
            data: None,
            error: Some(message),
            code: Some(code),
        }),
{
}

/// An answer says whether all went well, what is asked for, and what went wrong.
pub proof fn law_the_parts_of_an_answer(r: Response)
    ensures
        r@.ok == r.ok,
        r@.code == r.code,
        r@.data is Some == r.data is Some,
        r.data matches Some(d) ==> r@.data == Some(d@),
        r@.error is Some == r.error is Some,
        r.error matches Some(e) ==> r@.error == Some(e@),
{
}

/// What an answer holds.
pub proof fn law_the_parts_of_data(d: Payload)
    ensures
        match d {
            Payload::State(s) => {
                &&& d@ matches PayloadView::State { id, tag, visible }
                &&& id == s.id@
                &&& visible == s.visible
                &&& tag is Some == s.tag is Some
                &&& s.tag matches Some(t) ==> tag == Some(t@)
            },
            Payload::Peek(p) => d@ == (PayloadView::Peek {
                content: p.content@,
                in_alt_screen: p.in_alt_screen,
                rows: p.rows as int,
                cols: p.cols as int,
                cursor_row: p.cursor_row as int,
                cursor_col: p.cursor_col as int,
            }),
            Payload::Text(t) => d@ == (PayloadView::Text { content: t.content@ }),
            Payload::Exec(e) => d@ == (PayloadView::Exec { id: e.id@ }),
            Payload::Sessions(s) => d@ == PayloadView::Sessions(s@),
            Payload::Json(s) => d@ == PayloadView::Json(s@),
        },
{
}

/// What a session tells the daemon.
pub proof fn law_the_parts_of_a_message(m: SessionMessage)
    ensures
        match m {
            SessionMessage::Response { id, result } => m@ == (MessageView::Response {
                id,
                result: result@,
            }),
            SessionMessage::Status { update } => {
                &&& m@ matches MessageView::Status { cwd, in_alt_screen }
                &&& in_alt_screen == update.in_alt_screen
                &&& cwd is Some == update.cwd is Some
                &&& update.cwd matches Some(c) ==> cwd == Some(c@)
            },
        },
{
}

/// What the daemon does.
pub proof fn law_the_parts_of_an_effect(e: Effect)
    ensures
        match e {
            Effect::Respond { conn_id, response } => e@ == (EffectView::Respond {
                conn_id,
                response: response@,
            }),
            Effect::Command { conn_id, command } => e@ == (EffectView::Command {
                conn_id,
                command,
            }),
            Effect::Abandon { conn_id } => e@ == (EffectView::Abandon { conn_id }),
            Effect::Exit => e@ == EffectView::Exit,
        },
{
}

/// What keys stand for.
pub proof fn law_the_parts_of_a_group(g: KeyGroup)
    ensures
        match g {
            KeyGroup::Bytes(b) => g@ == KeyGroupView::Bytes(b@),
            KeyGroup::Sleep(ms) => g@ == KeyGroupView::Sleep(ms),
            KeyGroup::Wait { timeout, idle_threshold } => g@ == (KeyGroupView::Wait {
                timeout,
                idle_threshold,
            }),
            KeyGroup::Stdin => g@ == KeyGroupView::Stdin,
        },
{
}

/// What a terminal sequence asks for.
pub proof fn law_the_parts_of_an_action(a: Action)
    ensures
        match a {
            Action::Print(c) => a@ == ActionView::Print(c),
            Action::Execute(b) => a@ == ActionView::Execute(b),
            Action::Csi { params, intermediates, action } => {
                &&& a@ matches ActionView::Csi { params: p, intermediates: i, action: c }
                &&& c == action
                &&& i == intermediates@
                &&& p.len() == params@.len()
                &&& forall|k: int| 0 <= k < p.len() ==> #[trigger] p[k] == params@[k]@
            },
            Action::Esc { intermediates, byte } => a@ == (ActionView::Esc {
                intermediates: intermediates@,
                byte,
            }),
        },
{
}

/// What is printed and what is drawn.
pub proof fn law_the_parts_of_output(o: Output, s: Span)
    ensures
        match o {
            Output::Nothing => o@ == OutputView::Nothing,
            Output::Text(t) => o@ == OutputView::Text(t@),
            Output::Error(t) => o@ == OutputView::Error(t@),
            Output::Sessions(t) => o@ == OutputView::Sessions(t@),
        },
        s@ == (SpanView { text: s.text@, style: s.style }),
{
}

} // verus!
