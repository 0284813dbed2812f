//! What commands ask for, and what is printed of the answers.
use vstd::prelude::*;
use crate::cli;
use crate::cli::{Tag, TagArgs};
use crate::client::{
    active_at, by_activity, converted, converted_opt, exec_stdin, format_of, json_contents,
    law_list_is_sorted, list_header, list_row, list_rows, relative_time, response_output,
    shortened, tag_request, with_tilde, without_newline, OutputView,
};
use crate::config::{Config, OutputFormat};
use crate::keys::{args_groups, KeyGroupView};
use crate::seqs::{kept, lemma_kept};
use crate::session::dispatch::stdin_count;
use crate::strings::decimal;
use crate::types::{PayloadView, Request, ResponseView, Selector, SessionInfo};

verus! {

// === Commands ===

/// A selector is sent as it was written: an id as an id and a tag as a tag.
pub proof fn law_selectors_are_sent_as_written(id: String, tag: String)
    ensures
        converted(cli::Selector::Id(id)) == Selector::Id(id),
        converted(cli::Selector::Tag(tag)) == Selector::Tag(tag),
        converted_opt(Some(cli::Selector::Id(id))) == Some(Selector::Id(id)),
        converted_opt(Some(cli::Selector::Tag(tag))) == Some(Selector::Tag(tag)),
        converted_opt(None) == None::<Selector>,
{
}

/// JSON is printed where it is asked for, else what people read where that is asked for, else what
/// the configuration says.
pub proof fn law_formats(json: bool, pretty: bool, config: Config)
    ensures
        json ==> format_of(json, pretty, config) == OutputFormat::Json,
        !json && pretty ==> format_of(json, pretty, config) == OutputFormat::Pretty,
        !json && !pretty ==> format_of(json, pretty, config) == config.output_format,
{
}

/// `tv tag` asks for the own tag, `tv tag @x` sets it, `tv tag SEL @x` sets that of another
/// session, and `-d` deletes the own one or that of another. An id alone makes no sense.
pub proof fn law_tag_commands(args: TagArgs, tag: String, id: String, sel: cli::Selector)
    ensures
        args.selector is None && args.new_tag is None && !args.delete ==> tag_request(args) == Some(
            Request::Tag { selector: None, new_tag: None, delete: false },
        ),
        args.selector == Some(cli::Selector::Tag(tag)) && args.new_tag is None && !args.delete
            ==> tag_request(args) == Some(
            Request::Tag { selector: None, new_tag: Some(tag), delete: false },
        ),
        args.selector == Some(cli::Selector::Id(id)) && args.new_tag is None && !args.delete
            ==> tag_request(args) is None,
        args.selector == Some(sel) && args.new_tag == Some(Tag(tag)) ==> tag_request(args) == Some(
            Request::Tag {
                selector: Some(converted(sel)),
                new_tag: Some(tag),
                delete: args.delete,
            },
        ),
        args.selector is None && args.new_tag is None && args.delete ==> tag_request(args) == Some(
            Request::Tag { selector: None, new_tag: None, delete: true },
        ),
        args.selector == Some(sel) && args.new_tag is None && args.delete ==> tag_request(args)
            == Some(
            Request::Tag { selector: Some(converted(sel)), new_tag: None, delete: true },
        ),
{
}

/// One newline at the end of what is piped in is taken off, with a carriage return in front of it
/// or not. Nothing else is.
pub proof fn law_one_newline_is_taken_off(s: Seq<char>)
    ensures
        s.len() == 0 || s.last() != '\r' ==> without_newline(s.push('\n')) == s,
        without_newline(s.push('\r').push('\n')) == s,
        s.len() == 0 || s.last() != '\n' ==> without_newline(s) == s,
{
    if s.len() == 0 || s.last() != '\r' {
        assert(s.push('\n').drop_last() =~= s);
    }
    let t = s.push('\r').push('\n');
    assert(t.take(t.len() - 2) =~= s);
}

/// Keys need what is piped in exactly if they hold the placeholder; they may hold it once.
pub proof fn law_what_needs_piped_input(
    keys: Seq<Seq<char>>,
    groups: Seq<KeyGroupView>,
    piped: Option<Seq<char>>,
)
    requires
        args_groups(keys) == Ok::<Seq<KeyGroupView>, Seq<char>>(groups),
    ensures
        (forall|i: int| 0 <= i < groups.len() ==> !(#[trigger] groups[i] is Stdin)) ==> exec_stdin(
            keys,
            piped,
        ) == Ok::<Option<Seq<char>>, Seq<char>>(None),
        forall|i: int|
            0 <= i < groups.len() && (#[trigger] groups[i] is Stdin) && (forall|j: int|
                0 <= j < groups.len() && j != i ==> !(#[trigger] groups[j] is Stdin))
                ==> match piped {
                Some(s) => exec_stdin(keys, piped) == Ok::<Option<Seq<char>>, Seq<char>>(
                    Some(without_newline(s)),
                ),
                None => exec_stdin(keys, piped) is Err,
            },
        forall|i: int, j: int|
            0 <= i < j < groups.len() && (#[trigger] groups[i] is Stdin) && (#[trigger] groups[j]
                is Stdin) ==> exec_stdin(keys, piped) is Err,
{
    lemma_count(groups);
    assert forall|i: int|
        0 <= i < groups.len() && (#[trigger] groups[i] is Stdin) && (forall|j: int|
            0 <= j < groups.len() && j != i ==> !(#[trigger] groups[j] is Stdin)) implies match piped {
        Some(s) => exec_stdin(keys, piped) == Ok::<Option<Seq<char>>, Seq<char>>(
            Some(without_newline(s)),
        ),
        None => exec_stdin(keys, piped) is Err,
    } by {
        lemma_count_one(groups, i);
    }
    assert forall|i: int, j: int|
        0 <= i < j < groups.len() && (#[trigger] groups[i] is Stdin) && (#[trigger] groups[j]
            is Stdin) implies exec_stdin(keys, piped) is Err by {
        lemma_count_two(groups, i, j);
    }
}

proof fn lemma_count(g: Seq<KeyGroupView>)
    ensures
        (forall|i: int| 0 <= i < g.len() ==> !(#[trigger] g[i] is Stdin)) ==> stdin_count(g) == 0,
    decreases g.len(),
{
    if g.len() > 0 {
        lemma_count(g.drop_last());
        if forall|i: int| 0 <= i < g.len() ==> !(#[trigger] g[i] is Stdin) {
            assert(!(g[g.len() - 1] is Stdin));
            assert forall|i: int| 0 <= i < g.drop_last().len() implies !(#[trigger] g.drop_last()[i]
                is Stdin) by {
                assert(!(g[i] is Stdin));
            }
        }
    }
}

proof fn lemma_count_one(g: Seq<KeyGroupView>, i: int)
    requires
        0 <= i < g.len(),
        g[i] is Stdin,
        forall|j: int| 0 <= j < g.len() && j != i ==> !(#[trigger] g[j] is Stdin),
    ensures
        stdin_count(g) == 1,
    decreases g.len(),
{
    let t = g.drop_last();
    if i == g.len() - 1 {
        assert forall|j: int| 0 <= j < t.len() implies !(#[trigger] t[j] is Stdin) by {
            assert(!(g[j] is Stdin));
        }
        lemma_count(t);
    } else {
        assert(!(g[g.len() - 1] is Stdin));
        assert forall|j: int| 0 <= j < t.len() && j != i implies !(#[trigger] t[j] is Stdin) by {
            assert(!(g[j] is Stdin));
        }
        lemma_count_one(t, i);
    }
}

proof fn lemma_count_some(g: Seq<KeyGroupView>, i: int)
    requires
        0 <= i < g.len(),
        g[i] is Stdin,
    ensures
        stdin_count(g) >= 1,
    decreases g.len(),
{
    if i < g.len() - 1 {
        lemma_count_some(g.drop_last(), i);
    }
}

proof fn lemma_count_two(g: Seq<KeyGroupView>, i: int, j: int)
    requires
        0 <= i < j < g.len(),
        g[i] is Stdin,
        g[j] is Stdin,
    ensures
        stdin_count(g) >= 2,
    decreases g.len(),
{
    let t = g.drop_last();
    if j == g.len() - 1 {
        lemma_count_some(t, i);
    } else {
        lemma_count_two(t, i, j);
    }
}

// === Lists ===

/// How long ago something was: in seconds for less than a minute, in minutes for less than an hour,
/// in hours for less than a day, then `yesterday`, then in days.
pub proof fn law_how_long_ago(then: u64, now: u64, n: nat, rest: nat)
    requires
        then > 0,
    ensures
        now == then + n && n < 60 ==> relative_time(now, then) == decimal(n) + "s ago"@,
        now == then + n * 60 + rest && 0 < n < 60 && rest < 60 ==> relative_time(now, then)
            == decimal(n) + "m ago"@,
        now == then + n * 3600 + rest && 0 < n < 24 && rest < 3600 ==> relative_time(now, then)
            == decimal(n) + "h ago"@,
        now == then + 86400 + rest && rest < 86400 ==> relative_time(now, then) == "yesterday"@,
        now == then + n * 86400 + rest && n > 1 && rest < 86400 ==> relative_time(now, then)
            == decimal(n) + "d ago"@,
        now < then ==> relative_time(now, then) == decimal(0) + "s ago"@,
        relative_time(now, 0) == "-"@,
{
}

/// The home directory is shown as `~`, with all that lies in it behind that. What only begins with
/// the same characters does not lie in it.
pub proof fn law_home_is_a_tilde(home: Seq<char>, rest: Seq<char>, c: char, path: Seq<char>)
    requires
        home.len() > 0,
        home.last() != '/',
    ensures
        with_tilde(home, Some(home)) == seq!['~'],
        with_tilde(home + seq!['/'] + rest, Some(home)) == seq!['~', '/'] + rest,
        c != '/' ==> with_tilde(home + seq![c] + rest, Some(home)) == home + seq![c] + rest,
        with_tilde(path, None) == path,
        !home.is_prefix_of(path) ==> with_tilde(path, Some(home)) == path,
{
    reveal_strlit("~");
    assert("~"@ =~= seq!['~']);
    assert(home.subrange(0, home.len() as int) =~= home);
    assert("~"@ + home.skip(home.len() as int) =~= seq!['~']);
    let inside = home + seq!['/'] + rest;
    let beside = home + seq![c] + rest;
    assert(inside.subrange(0, home.len() as int) =~= home);
    assert("~"@ + inside.skip(home.len() as int) =~= seq!['~', '/'] + rest);
    assert(beside[home.len() as int] == c);
}

/// A path that is too long keeps its end, behind an ellipsis, and is as long as it may be.
pub proof fn law_long_paths_are_cut(s: Seq<char>, max_len: nat)
    ensures
        s.len() <= max_len ==> shortened(s, max_len) == s,
        s.len() > max_len && max_len > 0 ==> {
            let cut = shortened(s, max_len);
            &&& cut.len() == max_len
            &&& cut[0] == '…'
            &&& forall|i: int|
                1 <= i < max_len ==> #[trigger] cut[i] == s[s.len() - max_len + i]
        },
        s.len() > 0 && max_len == 0 ==> shortened(s, max_len) == seq!['…'],
{
    reveal_strlit("…");
    assert("…"@ =~= seq!['…']);
}

/// A row of the list shows the id, the tag behind an `@`, when the session was last active, when it
/// was created, and its directory; a dash stands for what is not known. The directory has at most
/// thirty characters.
pub proof fn law_rows_of_the_list(s: SessionInfo, now: u64, home: Option<Seq<char>>)
    ensures
        ({
            let row = list_row(s, now, home);
            &&& row.len() == 5
            &&& row[0] == s.id@
            &&& row[1] == (if s.tag is Some {
                "@"@ + s.tag->Some_0@
            } else {
                "-"@
            })
            &&& row[2] == relative_time(now, s.last_activity)
            &&& row[3] == relative_time(now, s.created_at)
            &&& row[4] == shortened(
                with_tilde(
                    if s.cwd is Some {
                        s.cwd->Some_0@
                    } else {
                        "-"@
                    },
                    home,
                ),
                30,
            )
        }),
        list_header().len() == 5,
        list_header()[0] == "ID"@,
        list_header()[1] == "TAG"@,
        list_header()[2] == "ACTIVITY"@,
        list_header()[3] == "CREATED"@,
        list_header()[4] == "CWD"@,
{
}

/// The list has one row for each session, the most recently active first.
pub proof fn law_the_most_recent_comes_first(
    sessions: Seq<SessionInfo>,
    now: u64,
    home: Option<Seq<char>>,
    s: SessionInfo,
)
    ensures
        ({
            let sorted = by_activity(sessions);
            let rows = list_rows(sorted, now, home);
            &&& rows.len() == sessions.len()
            &&& forall|i: int|
                0 <= i < rows.len() ==> #[trigger] rows[i] == list_row(sorted[i], now, home)
            &&& forall|i: int, j: int|
                0 <= i < j < sorted.len() ==> (#[trigger] sorted[i]).last_activity >= (
                #[trigger] sorted[j]).last_activity
            &&& sorted.contains(s) <==> sessions.contains(s)
        }),
{
    law_list_is_sorted(sessions, s.last_activity);
    let sorted = by_activity(sessions);
    let at = active_at(s.last_activity);
    lemma_kept(sorted, at);
    lemma_kept(sessions, at);
    assert(at(s));
    if sorted.contains(s) {
        let i = choose|i: int| 0 <= i < sorted.len() && sorted[i] == s;
        assert(at(sorted[i]));
        assert(kept(sorted, at).contains(s));
        let j = choose|j: int| 0 <= j < kept(sessions, at).len() && kept(sessions, at)[j] == s;
        assert(sessions.contains(kept(sessions, at)[j]));
    }
    if sessions.contains(s) {
        let i = choose|i: int| 0 <= i < sessions.len() && sessions[i] == s;
        assert(at(sessions[i]));
        assert(kept(sessions, at).contains(s));
        let j = choose|j: int| 0 <= j < kept(sorted, at).len() && kept(sorted, at)[j] == s;
        assert(sorted.contains(kept(sorted, at)[j]));
    }
}

// === Answers ===

/// An answer that came as JSON.
pub open spec fn in_json(json: Seq<char>) -> ResponseView {
    ResponseView { ok: true, data: Some(PayloadView::Json(json)), error: None, code: None }
}

pub open spec fn prints(
    json: Seq<char>,
    request: Request,
    format: OutputFormat,
    text: Seq<char>,
) -> bool {
    response_output(in_json(json), request, format) == OutputView::Text(text)
}

/// A refusal is told, with its message.
pub proof fn law_refusals_are_told(
    response: ResponseView,
    request: Request,
    format: OutputFormat,
)
    requires
        !response.ok,
    ensures
        response_output(response, request, format) == OutputView::Error(
            "error: "@ + if response.error is Some {
                response.error->Some_0
            } else {
                "unknown error"@
            },
        ),
{
}

/// In JSON, what was read and what a tag command answers is printed as it came, with a newline.
/// Else the content of a screen or a history is printed, with a newline where it has none at its
/// end, and the tag for a query. What only does something prints nothing.
pub proof fn law_what_is_printed(
    json: Seq<char>,
    request: Request,
    strings: Map<Seq<Seq<char>>, Seq<char>>,
    content: Seq<char>,
)
    ensures
        request is Peek || request is History || request is Tag ==> prints(
            json,
            request,
            OutputFormat::Json,
            json.push('\n'),
        ),
        (request is Peek || request is History) && json_contents(json) == Some(strings)
            && strings.contains_key(seq!["content"@]) && strings[seq!["content"@]] == content
            ==> prints(
            json,
            request,
            OutputFormat::Pretty,
            if content.len() > 0 && content.last() == '\n' {
                content
            } else {
                content.push('\n')
            },
        ),
        request is Show || request is Hide || request is Clear || request is Exec
            ==> response_output(in_json(json), request, OutputFormat::Pretty)
            == OutputView::Nothing && response_output(in_json(json), request, OutputFormat::Json)
            == OutputView::Nothing,
        request is List ==> response_output(in_json(json), request, OutputFormat::Pretty)
            == OutputView::Sessions(json) && response_output(
            in_json(json),
            request,
            OutputFormat::Json,
        ) == OutputView::Sessions(json),
        request is Tag && (request->new_tag is Some || request->delete) ==> response_output(
            in_json(json),
            request,
            OutputFormat::Pretty,
        ) == OutputView::Nothing,
{
}

/// A query for a tag prints the id in brackets and the tag behind an `@`, where there is one.
pub proof fn law_a_tag_is_printed(
    json: Seq<char>,
    request: Request,
    strings: Map<Seq<Seq<char>>, Seq<char>>,
)
    requires
        request is Tag,
        request->new_tag is None,
        !request->delete,
        json_contents(json) == Some(strings),
        strings.contains_key(seq!["id"@]),
    ensures
        strings.contains_key(seq!["tag"@]) ==> prints(
            json,
            request,
            OutputFormat::Pretty,
            seq!['['] + strings[seq!["id"@]] + seq![']', ' ', '@'] + strings[seq!["tag"@]] + seq![
                '\n',
            ],
        ),
        !strings.contains_key(seq!["tag"@]) ==> prints(
            json,
            request,
            OutputFormat::Pretty,
            seq!['['] + strings[seq!["id"@]] + seq![']', '\n'],
        ),
{
    reveal_strlit("[");
    reveal_strlit("]");
    reveal_strlit("] @");
    assert("["@ =~= seq!['[']);
    assert("]"@ =~= seq![']']);
    assert("] @"@ =~= seq![']', ' ', '@']);
    let id = strings[seq!["id"@]];
    let tag = strings[seq!["tag"@]];
    assert(("["@ + id + "] @"@ + tag).push('\n') =~= seq!['['] + id + seq![']', ' ', '@'] + tag
        + seq!['\n']);
    assert(("["@ + id + "]"@).push('\n') =~= seq!['['] + id + seq![']', '\n']);
}

} // verus!
