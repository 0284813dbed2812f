//! Command implementations for session requests.
use vstd::prelude::*;
use crate::session::text::{HistoryView, TextView};
use crate::session::{Session, SessionView};
use crate::strings::text_opt;
use crate::types::{
    ok_response, ExecResponse, Payload, PayloadView, PeekResponse, Response, ResponseView,
    SessionStateResponse, TextContent,
};

verus! {

impl SessionView {
    /// What a command reports of the session.
    pub open spec fn state(self, tag: Option<Seq<char>>, visible: Option<bool>) -> ResponseView {
        ok_response(PayloadView::State { id: self.id_text(), tag, visible })
    }

    pub open spec fn set_visible(self, visible: bool) -> SessionView {
        SessionView { visible, ..self }.mark_dirty()
    }

    /// A tag is deleted, set, or left as it is.
    pub open spec fn set_tag(self, new_tag: Option<Seq<char>>, delete: bool) -> SessionView {
        SessionView {
            tag: if delete {
                None
            } else if new_tag is Some {
                new_tag
            } else {
                self.tag
            },
            ..self
        }.mark_dirty()
    }

    pub open spec fn clear_history(self) -> SessionView {
        SessionView {
            text: TextView {
                history: HistoryView { lines: Seq::empty(), ..self.text.history },
                ..self.text
            },
            ..self
        }
    }

    /// What a peek reports: the text on the screen, the cursor and the size.
    pub open spec fn peek(self) -> ResponseView {
        let screen = self.text.screen;
        ok_response(
            PayloadView::Peek {
                content: self.text.screen_text(),
                in_alt_screen: screen.in_alt,
                rows: screen.rows,
                cols: screen.cols,
                cursor_row: screen.position().0,
                cursor_col: screen.position().1,
            },
        )
    }

    pub open spec fn history(self, count: Option<usize>, offset: Option<usize>) -> ResponseView {
        ok_response(PayloadView::Text { content: self.text.history_text(count, offset) })
    }

    pub open spec fn exec_response(self) -> ResponseView {
        ok_response(PayloadView::Exec { id: self.id_text() })
    }
}

impl Session {
    fn session_id(&self) -> (s: String)
        ensures
            s@ == self@.id_text(),
    {
        match &self.session_id {
            Some(id) => id.clone(),
            None => String::new(),
        }
    }

    pub fn cmd_show(&mut self) -> (r: Response)
        requires
            old(self).wf(),
        ensures
            final(self).wf(),
            final(self)@ == old(self)@.set_visible(true),
            r@ == old(self)@.state(old(self)@.tag, Some(true)),
    {
        self.visible = true;
        self.view.mark_dirty();
        let state = SessionStateResponse {
            id: self.session_id(),
            tag: self.tag.clone(),
            visible: Some(true),
        };
        Response::ok(Payload::State(state))
    }

    pub fn cmd_hide(&mut self) -> (r: Response)
        requires
            old(self).wf(),
        ensures
            final(self).wf(),
            final(self)@ == old(self)@.set_visible(false),
            r@ == old(self)@.state(old(self)@.tag, Some(false)),
    {
        self.visible = false;
        self.view.mark_dirty();
        let state = SessionStateResponse {
            id: self.session_id(),
            tag: self.tag.clone(),
            visible: Some(false),
        };
        Response::ok(Payload::State(state))
    }

    pub fn cmd_tag(&mut self, new_tag: Option<String>, delete: bool) -> (r: Response)
        requires
            old(self).wf(),
        ensures
            final(self).wf(),
            final(self)@ == old(self)@.set_tag(text_opt(new_tag), delete),
            r@ == final(self)@.state(final(self)@.tag, None),
    {
        if delete {
            self.tag = None;
        } else if new_tag.is_some() {
            self.tag = new_tag;
        }
        self.view.mark_dirty();
        let state = SessionStateResponse {
            id: self.session_id(),
            tag: self.tag.clone(),
            visible: None,
        };
        Response::ok(Payload::State(state))
    }

    pub fn cmd_clear(&mut self) -> (r: Response)
        requires
            old(self).wf(),
        ensures
            final(self).wf(),
            final(self)@ == old(self)@.clear_history(),
            r@ == old(self)@.state(None, None),
    {
        self.text_parser.clear();
        let state = SessionStateResponse { id: self.session_id(), tag: None, visible: None };
        Response::ok(Payload::State(state))
    }

    pub fn cmd_peek(&self) -> (r: Response)
        requires
            self.wf(),
        ensures
            r@ == self@.peek(),
    {
        let content = self.text_parser.render_screen();
        let (cursor_row, cursor_col) = self.text_parser.cursor();
        let (rows, cols) = self.text_parser.dimensions();
        let in_alt_screen = self.text_parser.in_alt_screen();
        Response::ok(
            Payload::Peek(
                PeekResponse { content, in_alt_screen, rows, cols, cursor_row, cursor_col },
            ),
        )
    }

    pub fn cmd_history(&self, count: Option<usize>, offset: Option<usize>) -> (r: Response)
        requires
            self.wf(),
        ensures
            r@ == self@.history(count, offset),
    {
        let content = self.text_parser.get_history(count, offset);
        Response::ok(Payload::Text(TextContent { content }))
    }

    pub fn build_exec_response(&self) -> (r: Response)
        ensures
            r@ == self@.exec_response(),
    {
        Response::ok(Payload::Exec(ExecResponse { id: self.session_id() }))
    }
}

} // verus!
