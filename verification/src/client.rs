//! Client module: what the CLI asks of the daemon and how it shows the answers.
//!
//! The client is a simple one-shot process:
//! 1. Receive AuthRequest, respond with AuthResponse::Client
//! 2. Receive Response
//! 3. Print result and exit
use vstd::prelude::*;
use crate::cli;
use crate::cli::{Commands, TagArgs};
use crate::config::{Config, OutputFormat};
use crate::keys::{args_groups, parse_exec_args};
use crate::seqs::kept;
use crate::session::dispatch::{
    count_stdin, exec_groups, lemma_stdin_is_resolved, stdin_count,
};
use crate::strings::{
    chars_of, concat, concat3, decimal, decimal_string, string_of_range, strip_prefix, text,
    text_opt, texts,
};
use crate::types::{PayloadView, Payload, Request, Response, ResponseView, Selector, SessionInfo};

verus! {

// === Selectors ===

/// A selector of the command line, for a request.
pub open spec fn converted(sel: cli::Selector) -> Selector {
    match sel {
        cli::Selector::Id(id) => Selector::Id(id),
        cli::Selector::Tag(tag) => Selector::Tag(tag),
    }
}

pub open spec fn converted_opt(sel: Option<cli::Selector>) -> Option<Selector> {
    match sel {
        Some(s) => Some(converted(s)),
        None => None,
    }
}

pub fn convert_selector(sel: cli::Selector) -> (r: Selector)
    ensures
        r == converted(sel),
{
    match sel {
        cli::Selector::Id(id) => Selector::Id(id),
        cli::Selector::Tag(tag) => Selector::Tag(tag),
    }
}

fn convert_optional(sel: Option<cli::Selector>) -> (r: Option<Selector>)
    ensures
        r == converted_opt(sel),
{
    match sel {
        Some(s) => Some(convert_selector(s)),
        None => None,
    }
}

// === Output Formatting ===

/// The output format: a flag wins over the configuration.
pub open spec fn format_of(json_flag: bool, pretty_flag: bool, config: Config) -> OutputFormat {
    if json_flag {
        OutputFormat::Json
    } else if pretty_flag {
        OutputFormat::Pretty
    } else {
        config.output_format
    }
}

pub fn resolve_format(json_flag: bool, pretty_flag: bool, config: &Config) -> (r: OutputFormat)
    ensures
        r == format_of(json_flag, pretty_flag, *config),
{
    if json_flag {
        OutputFormat::Json
    } else if pretty_flag {
        OutputFormat::Pretty
    } else {
        config.output_format
    }
}

/// A timestamp relative to now in human-friendly form.
pub open spec fn relative_time(now: u64, timestamp: u64) -> Seq<char> {
    let delta: int = if now > timestamp {
        now - timestamp
    } else {
        0
    };
    if timestamp == 0 {
        "-"@
    } else if delta < 60 {
        decimal(delta as nat) + "s ago"@
    } else if delta < 3600 {
        decimal((delta / 60) as nat) + "m ago"@
    } else if delta < 86400 {
        decimal((delta / 3600) as nat) + "h ago"@
    } else if delta < 172800 {
        "yesterday"@
    } else {
        decimal((delta / 86400) as nat) + "d ago"@
    }
}

/// Format a timestamp relative to now in human-friendly form.
/// "3s ago", "2m ago", "1h ago", "3h ago", "yesterday", "2d ago"
pub fn format_relative_time(now: u64, timestamp: u64) -> (s: String)
    ensures
        s@ == relative_time(now, timestamp),
{
    if timestamp == 0 {
        return text("-");
    }
    let delta = now.saturating_sub(timestamp);
    if delta < 60 {
        concat(decimal_string(delta).as_str(), "s ago")
    } else if delta < 3600 {
        concat(decimal_string(delta / 60).as_str(), "m ago")
    } else if delta < 86400 {
        concat(decimal_string(delta / 3600).as_str(), "h ago")
    } else if delta < 172800 {
        text("yesterday")
    } else {
        concat(decimal_string(delta / 86400).as_str(), "d ago")
    }
}

/// Whether a path is a directory or lies in it.
pub open spec fn lies_in(path: Seq<char>, dir: Seq<char>) -> bool {
    &&& dir.is_prefix_of(path)
    &&& {
        ||| path.len() == dir.len()
        ||| path[dir.len() as int] == '/'
        ||| dir.len() > 0 && dir.last() == '/'
    }
}

/// A path with the home directory as `~`.
pub open spec fn with_tilde(path: Seq<char>, home: Option<Seq<char>>) -> Seq<char> {
    match home {
        Some(h) if lies_in(path, h) => "~"@ + path.skip(h.len() as int),
        _ => path,
    }
}

/// What follows a directory in a path that lies in it.
fn strip_dir<'a>(path: &'a [char], dir: &str) -> (r: Option<&'a [char]>)
    ensures
        match r {
            Some(rest) => lies_in(path@, dir@) && rest@ == path@.skip(dir@.len() as int),
            None => !lies_in(path@, dir@),
        },
{
    let rest = match strip_prefix(path, dir) {
        Some(rest) => rest,
        None => {
            return None;
        },
    };
    let n = path.len() - rest.len();
    proof {
        assert(path@.subrange(0, n as int) =~= dir@);
    }
    if rest.len() == 0 || rest[0] == '/' || n > 0 && path[n - 1] == '/' {
        Some(rest)
    } else {
        None
    }
}

/// The end of a text that is too long, behind an ellipsis.
pub open spec fn shortened(s: Seq<char>, max_len: nat) -> Seq<char> {
    if s.len() <= max_len {
        s
    } else if max_len == 0 {
        "…"@
    } else {
        "…"@ + s.skip(s.len() - max_len + 1)
    }
}

/// Truncate path from left, keeping end. Replace home dir with ~.
pub fn truncate_path(path: &str, max_len: usize, home: Option<&str>) -> (s: String)
    ensures
        s@ == shortened(
            with_tilde(
                path@,
                match home {
                    Some(h) => Some(h@),
                    None => None,
                },
            ),
            max_len as nat,
        ),
{
    let v = chars_of(path);
    let path = match home {
        Some(h) => match strip_dir(v.as_slice(), h) {
            Some(rest) => concat("~", string_of_range(rest, 0, rest.len()).as_str()),
            None => text(path),
        },
        None => text(path),
    };
    let shown = chars_of(path.as_str());
    let n = shown.len();
    if n <= max_len {
        return path;
    }
    if max_len == 0 {
        return text("…");
    }
    concat("…", string_of_range(shown.as_slice(), n - (max_len - 1), n).as_str())
}

// === Lists ===

/// Sessions by their last activity, the latest first. Those of one time keep their order.
pub open spec fn by_activity(sessions: Seq<SessionInfo>) -> Seq<SessionInfo>
    decreases sessions.len(),
{
    if sessions.len() == 0 {
        Seq::empty()
    } else {
        let before = by_activity(sessions.drop_last());
        before.insert(place_of(before, sessions.last().last_activity) as int, sessions.last())
    }
}

/// How many sessions at the start were active at a time or later.
pub open spec fn place_of(sessions: Seq<SessionInfo>, time: u64) -> nat
    decreases sessions.len(),
{
    if sessions.len() == 0 || sessions[0].last_activity < time {
        0
    } else {
        1 + place_of(sessions.skip(1), time)
    }
}

proof fn lemma_place_of(sessions: Seq<SessionInfo>, time: u64)
    ensures
        place_of(sessions, time) <= sessions.len(),
        forall|i: int|
            0 <= i < place_of(sessions, time) ==> (#[trigger] sessions[i]).last_activity >= time,
        place_of(sessions, time) < sessions.len() ==> sessions[place_of(
            sessions,
            time,
        ) as int].last_activity < time,
    decreases sessions.len(),
{
    if sessions.len() > 0 && sessions[0].last_activity >= time {
        let rest = sessions.skip(1);
        lemma_place_of(rest, time);
        assert forall|i: int| 0 <= i < place_of(sessions, time) implies (
        #[trigger] sessions[i]).last_activity >= time by {
            if i > 0 {
                assert(rest[i - 1] == sessions[i]);
            }
        }
    }
}

fn find_place(sessions: &Vec<SessionInfo>, time: u64) -> (n: usize)
    ensures
        n == place_of(sessions@, time),
        n <= sessions@.len(),
{
    let mut n: usize = 0;
    proof {
        assert(sessions@.skip(0) =~= sessions@);
    }
    while n < sessions.len() && sessions[n].last_activity >= time
        invariant
            n <= sessions@.len(),
            place_of(sessions@, time) == n + place_of(sessions@.skip(n as int), time),
        decreases sessions@.len() - n,
    {
        proof {
            assert(sessions@.skip(n as int).skip(1) =~= sessions@.skip(n + 1));
        }
        n = n + 1;
    }
    n
}

fn sort_by_activity(sessions: &Vec<SessionInfo>) -> (r: Vec<SessionInfo>)
    ensures
        r@ == by_activity(sessions@),
{
    let mut sorted: Vec<SessionInfo> = Vec::new();
    for i in 0..sessions.len()
        invariant
            sorted@ == by_activity(sessions@.take(i as int)),
    {
        proof {
            let done = sessions@.take(i + 1);
            assert(done.drop_last() =~= sessions@.take(i as int));
            assert(done.last() == sessions@[i as int]);
        }
        let n = find_place(&sorted, sessions[i].last_activity);
        sorted.insert(n, sessions[i].clone());
    }
    proof {
        assert(sessions@.take(sessions@.len() as int) =~= sessions@);
    }
    sorted
}

/// Whether a session was last active at a time.
pub open spec fn active_at(time: u64) -> spec_fn(SessionInfo) -> bool {
    |s: SessionInfo| s.last_activity == time
}

proof fn lemma_kept_insert(s: Seq<SessionInfo>, n: int, x: SessionInfo, time: u64)
    requires
        0 <= n <= s.len(),
        forall|i: int| n <= i < s.len() ==> (#[trigger] s[i]).last_activity != x.last_activity,
    ensures
        kept(s.insert(n, x), active_at(time)) == if x.last_activity == time {
            kept(s, active_at(time)).push(x)
        } else {
            kept(s, active_at(time))
        },
    decreases s.len() - n,
{
    let t = s.insert(n, x);
    if n == s.len() {
        assert(t.drop_last() =~= s);
    } else {
        assert(t.drop_last() =~= s.drop_last().insert(n, x));
        assert(t.last() == s.last());
        assert forall|i: int| n <= i < s.drop_last().len() implies (
        #[trigger] s.drop_last()[i]).last_activity != x.last_activity by {
            assert(s[i].last_activity != x.last_activity);
        }
        assert(s[s.len() - 1].last_activity != x.last_activity);
        lemma_kept_insert(s.drop_last(), n, x, time);
    }
}

/// A list shows the sessions with the latest activity first, each as often as it is there, and
/// those of one time in the order in which they came.
pub proof fn law_list_is_sorted(sessions: Seq<SessionInfo>, time: u64)
    ensures
        by_activity(sessions).len() == sessions.len(),
        forall|i: int, j: int|
            0 <= i < j < by_activity(sessions).len() ==> (#[trigger] by_activity(
                sessions,
            )[i]).last_activity >= (#[trigger] by_activity(sessions)[j]).last_activity,
        kept(by_activity(sessions), active_at(time)) == kept(sessions, active_at(time)),
    decreases sessions.len(),
{
    if sessions.len() > 0 {
        let x = sessions.last();
        let before = by_activity(sessions.drop_last());
        let n = place_of(before, x.last_activity) as int;
        law_list_is_sorted(sessions.drop_last(), time);
        lemma_place_of(before, x.last_activity);
        assert forall|i: int| n <= i < before.len() implies (#[trigger] before[i]).last_activity
            != x.last_activity by {
            assert(before[n].last_activity < x.last_activity);
            if i > n {
                assert(before[n].last_activity >= before[i].last_activity);
            }
        }
        lemma_kept_insert(before, n, x, time);
        let after = by_activity(sessions);
        assert forall|i: int, j: int| 0 <= i < j < after.len() implies (
        #[trigger] after[i]).last_activity >= (#[trigger] after[j]).last_activity by {
            if j < n {
                assert(after[i] == before[i] && after[j] == before[j]);
            } else if j == n {
                assert(after[i] == before[i]);
            } else {
                assert(after[j] == before[j - 1]);
                if i < n {
                    assert(after[i] == before[i]);
                } else if i > n {
                    assert(after[i] == before[i - 1]);
                } else {
                    assert(before[n].last_activity < x.last_activity);
                    if j - 1 > n {
                        assert(before[n].last_activity >= before[j - 1].last_activity);
                    }
                }
            }
        }
    }
}

/// The columns of the list.
pub open spec fn list_header() -> Seq<Seq<char>> {
    seq!["ID"@, "TAG"@, "ACTIVITY"@, "CREATED"@, "CWD"@]
}

/// How many characters of the working directory are shown.
pub const CWD_WIDTH: usize = 30;

/// What the list says of a session.
pub open spec fn list_row(s: SessionInfo, now: u64, home: Option<Seq<char>>) -> Seq<Seq<char>> {
    seq![
        s.id@,
        match s.tag {
            Some(t) => "@"@ + t@,
            None => "-"@,
        },
        relative_time(now, s.last_activity),
        relative_time(now, s.created_at),
        shortened(
            with_tilde(
                match s.cwd {
                    Some(cwd) => cwd@,
                    None => "-"@,
                },
                home,
            ),
            CWD_WIDTH as nat,
        ),
    ]
}

pub open spec fn list_rows(sessions: Seq<SessionInfo>, now: u64, home: Option<Seq<char>>) -> Seq<
    Seq<Seq<char>>,
> {
    sessions.map_values(|s: SessionInfo| list_row(s, now, home))
}

/// Rows of texts.
pub open spec fn row_texts(rows: Seq<Vec<String>>) -> Seq<Seq<Seq<char>>> {
    rows.map_values(|r: Vec<String>| texts(r@))
}

fn format_row(s: &SessionInfo, now: u64, home: Option<&str>) -> (r: Vec<String>)
    ensures
        texts(r@) == list_row(
            *s,
            now,
            match home {
                Some(h) => Some(h@),
                None => None,
            },
        ),
{
    let mut row: Vec<String> = Vec::new();
    row.push(s.id.clone());
    row.push(
        match &s.tag {
            Some(t) => concat("@", t.as_str()),
            None => text("-"),
        },
    );
    row.push(format_relative_time(now, s.last_activity));
    row.push(format_relative_time(now, s.created_at));
    row.push(
        match &s.cwd {
            Some(cwd) => truncate_path(cwd.as_str(), CWD_WIDTH, home),
            None => truncate_path("-", CWD_WIDTH, home),
        },
    );
    proof {
        assert(texts(row@) =~= list_row(
            *s,
            now,
            match home {
                Some(h) => Some(h@),
                None => None,
            },
        ));
    }
    row
}

/// The rows of the list, in the order of the sessions.
pub fn table_rows(sessions: &Vec<SessionInfo>, now: u64, home: Option<&str>) -> (r: Vec<Vec<String>>)
    ensures
        row_texts(r@) == list_rows(
            sessions@,
            now,
            match home {
                Some(h) => Some(h@),
                None => None,
            },
        ),
{
    let ghost h = match home {
        Some(h) => Some(h@),
        None => None,
    };
    let mut rows: Vec<Vec<String>> = Vec::new();
    for i in 0..sessions.len()
        invariant
            h == match home {
                Some(h) => Some(h@),
                None => None,
            },
            row_texts(rows@) == list_rows(sessions@.take(i as int), now, h),
    {
        let ghost before = row_texts(rows@);
        rows.push(format_row(&sessions[i], now, home));
        proof {
            assert(row_texts(rows@) =~= before.push(list_row(sessions@[i as int], now, h)));
            assert(list_rows(sessions@.take(i + 1), now, h) =~= before.push(
                list_row(sessions@[i as int], now, h),
            ));
        }
    }
    proof {
        assert(sessions@.take(sessions@.len() as int) =~= sessions@);
    }
    rows
}

/// A table as `comfy_table` lays it out: a header and rows without borders, arranged to fit into
/// a width where there is one.
pub uninterp spec fn table_text(
    header: Seq<Seq<char>>,
    rows: Seq<Seq<Seq<char>>>,
    width: Option<u16>,
) -> Seq<char>;

/// The text of a `comfy_table::Table` with the preset `NOTHING` and the arrangement `Dynamic`. It
/// is a function of the header, the rows and the width that was set: without the crate's terminal
/// support nothing else is looked at. Nothing is said of the layout.
#[verifier::external_body]
fn render_table(header: &Vec<String>, rows: &Vec<Vec<String>>, width: Option<u16>) -> (s: String)
    ensures
        s@ == table_text(texts(header@), row_texts(rows@), width),
{
    let mut table = comfy_table::Table::new();
    table
        .load_preset(comfy_table::presets::NOTHING)
        .set_content_arrangement(comfy_table::ContentArrangement::Dynamic)
        .set_header(header)
        .add_rows(rows);
    if let Some(w) = width {
        table.set_width(w);
    }
    table.to_string()
}

/// The list of sessions as a table, in their order.
pub fn format_list_table(
    sessions: &Vec<SessionInfo>,
    now: u64,
    home: Option<&str>,
    width: Option<u16>,
) -> (s: String)
    ensures
        s@ == if sessions@.len() == 0 {
            "No sessions"@
        } else {
            table_text(
                list_header(),
                list_rows(
                    sessions@,
                    now,
                    match home {
                        Some(h) => Some(h@),
                        None => None,
                    },
                ),
                width,
            )
        },
{
    if sessions.len() == 0 {
        return text("No sessions");
    }
    let mut header: Vec<String> = Vec::new();
    header.push(text("ID"));
    header.push(text("TAG"));
    header.push(text("ACTIVITY"));
    header.push(text("CREATED"));
    header.push(text("CWD"));
    proof {
        assert(texts(header@) =~= list_header());
    }
    let rows = table_rows(sessions, now, home);
    render_table(&header, &rows, width)
}

/// The list of sessions for people: a table, sorted by activity.
pub fn format_list(
    sessions: &Vec<SessionInfo>,
    now: u64,
    home: Option<&str>,
    width: Option<u16>,
) -> (s: String)
    ensures
        s@ == if sessions@.len() == 0 {
            "No sessions"@
        } else {
            table_text(
                list_header(),
                list_rows(
                    by_activity(sessions@),
                    now,
                    match home {
                        Some(h) => Some(h@),
                        None => None,
                    },
                ),
                width,
            )
        },
{
    proof {
        law_list_is_sorted(sessions@, 0);
    }
    let sorted = sort_by_activity(sessions);
    format_list_table(&sorted, now, home, width)
}

// === Requests ===

/// What a tag command asks for, if it makes sense:
/// - No args: query own tag
/// - Just @tag: set own tag
/// - selector @tag: set other's tag
/// - -d: delete own tag
/// - selector -d: delete other's tag
pub open spec fn tag_request(args: TagArgs) -> Option<Request> {
    if args.new_tag is None && !args.delete {
        match args.selector {
            None => Some(Request::Tag { selector: None, new_tag: None, delete: false }),
            Some(cli::Selector::Tag(tag)) => Some(
                Request::Tag { selector: None, new_tag: Some(tag), delete: false },
            ),
            Some(cli::Selector::Id(_)) => None,
        }
    } else {
        Some(
            Request::Tag {
                selector: converted_opt(args.selector),
                new_tag: match args.new_tag {
                    Some(t) => Some(t.0),
                    None => None,
                },
                delete: args.delete,
            },
        )
    }
}

fn convert_tag(args: TagArgs) -> (r: Option<Request>)
    ensures
        r == tag_request(args),
{
    if args.new_tag.is_none() && !args.delete {
        match args.selector {
            None => Some(Request::Tag { selector: None, new_tag: None, delete: false }),
            Some(cli::Selector::Tag(tag)) => Some(
                Request::Tag { selector: None, new_tag: Some(tag), delete: false },
            ),
            Some(cli::Selector::Id(_)) => None,
        }
    } else {
        Some(
            Request::Tag {
                selector: convert_optional(args.selector),
                new_tag: match args.new_tag {
                    Some(t) => Some(t.0),
                    None => None,
                },
                delete: args.delete,
            },
        )
    }
}

/// Whether keys need the text from stdin, or what is wrong with them.
pub open spec fn needs_stdin(keys: Seq<Seq<char>>) -> Result<bool, Seq<char>> {
    match args_groups(keys) {
        Err(e) => Err("invalid key syntax: "@ + e),
        Ok(groups) => if stdin_count(groups) > 1 {
            Err("{stdin} can only appear once"@)
        } else {
            Ok(stdin_count(groups) == 1)
        },
    }
}

/// Validate key syntax at CLI time, to fail early with a clear error. Tells whether the keys need
/// the text from stdin.
pub fn exec_needs_stdin(keys: &Vec<String>) -> (r: Result<bool, String>)
    ensures
        match needs_stdin(texts(keys@)) {
            Ok(b) => r == Ok::<bool, String>(b),
            Err(e) => r matches Err(m) && m@ == e,
        },
{
    match parse_exec_args(keys.as_slice()) {
        Err(e) => Err(concat("invalid key syntax: ", e.as_str())),
        Ok(groups) => {
            let n = count_stdin(groups.as_slice());
            if n > 1 {
                Err(text("{stdin} can only appear once"))
            } else {
                Ok(n == 1)
            }
        },
    }
}

/// A text without one newline at its end.
pub open spec fn without_newline(s: Seq<char>) -> Seq<char> {
    if s.len() > 0 && s.last() == '\n' {
        if s.len() > 1 && s[s.len() - 2] == '\r' {
            s.take(s.len() - 2)
        } else {
            s.drop_last()
        }
    } else {
        s
    }
}

/// Strip trailing newline added by echo, heredocs, etc.
/// The user controls line endings with explicit keys like {cr}.
fn strip_newline(s: &str) -> (r: String)
    ensures
        r@ == without_newline(s@),
{
    let v = chars_of(s);
    let mut n: usize = v.len();
    if n > 0 && v[n - 1] == '\n' {
        n = n - 1;
        if n > 0 && v[n - 1] == '\r' {
            n = n - 1;
        }
    }
    let r = string_of_range(v.as_slice(), 0, n);
    proof {
        assert(r@ =~= without_newline(s@));
    }
    r
}

/// The text that goes with the keys of an exec, or what is wrong: what was piped in, if the keys
/// need it.
pub open spec fn exec_stdin(keys: Seq<Seq<char>>, piped: Option<Seq<char>>) -> Result<
    Option<Seq<char>>,
    Seq<char>,
> {
    match needs_stdin(keys) {
        Err(e) => Err(e),
        Ok(false) => Ok(None),
        Ok(true) => match piped {
            None => Err("{stdin} requires piped input"@),
            Some(s) => Ok(Some(without_newline(s))),
        },
    }
}

/// Convert CLI command to IPC Request and determine output format. `piped` is what was read from
/// stdin, if that is no terminal.
pub fn command_to_request(cmd: Commands, config: &Config, piped: Option<String>) -> (r: Result<
    (Request, OutputFormat),
    String,
>)
    requires
        !(cmd is New),
        !(cmd is Daemon),
        !(cmd is Llms),
    ensures
        match cmd {
            Commands::Show { selector } => r == Ok::<(Request, OutputFormat), String>(
                (Request::Show { selector: converted_opt(selector) }, config.output_format),
            ),
            Commands::Hide { selector } => r == Ok::<(Request, OutputFormat), String>(
                (Request::Hide { selector: converted_opt(selector) }, config.output_format),
            ),
            Commands::Clear { selector } => r == Ok::<(Request, OutputFormat), String>(
                (Request::Clear { selector: converted_opt(selector) }, config.output_format),
            ),
            Commands::Tag(args) => match tag_request(args) {
                Some(request) => r == Ok::<(Request, OutputFormat), String>(
                    (request, format_of(args.json, args.pretty, *config)),
                ),
                None => r matches Err(e) && e@ == "specify a tag to set or use -d to delete"@,
            },
            Commands::List(args) => r == Ok::<(Request, OutputFormat), String>(
                (
                    Request::List { selector: converted_opt(args.selector), all: args.all },
                    format_of(args.json, args.pretty, *config),
                ),
            ),
            Commands::Peek(args) => r == Ok::<(Request, OutputFormat), String>(
                (
                    Request::Peek { selector: converted_opt(args.selector) },
                    format_of(args.json, args.pretty, *config),
                ),
            ),
            Commands::History(args) => r == Ok::<(Request, OutputFormat), String>(
                (
                    Request::History {
                        selector: converted_opt(args.selector),
                        count: args.count,
                        offset: args.offset,
                    },
                    format_of(args.json, args.pretty, *config),
                ),
            ),
            Commands::Exec(args) => match exec_stdin(texts(args.keys@), text_opt(piped)) {
                Err(m) => r matches Err(e) && e@ == m,
                Ok(wanted) => {
                    &&& r matches Ok((Request::Exec { selector, keys, stdin }, format))
                    &&& selector == Some(converted(args.selector))
                    &&& keys == args.keys
                    &&& text_opt(stdin) == wanted
                    &&& format == config.output_format
                },
            },
            _ => true,
        },
{
    match cmd {
        Commands::Show { selector } => Ok(
            (Request::Show { selector: convert_optional(selector) }, config.output_format),
        ),
        Commands::Hide { selector } => Ok(
            (Request::Hide { selector: convert_optional(selector) }, config.output_format),
        ),
        Commands::Clear { selector } => Ok(
            (Request::Clear { selector: convert_optional(selector) }, config.output_format),
        ),
        Commands::Tag(args) => {
            let format = resolve_format(args.json, args.pretty, config);
            match convert_tag(args) {
                Some(request) => Ok((request, format)),
                None => Err(text("specify a tag to set or use -d to delete")),
            }
        },
        Commands::List(args) => {
            let format = resolve_format(args.json, args.pretty, config);
            let selector = convert_optional(args.selector);
            Ok((Request::List { selector, all: args.all }, format))
        },
        Commands::Peek(args) => {
            let format = resolve_format(args.json, args.pretty, config);
            Ok((Request::Peek { selector: convert_optional(args.selector) }, format))
        },
        Commands::History(args) => {
            let format = resolve_format(args.json, args.pretty, config);
            let selector = convert_optional(args.selector);
            Ok((Request::History { selector, count: args.count, offset: args.offset }, format))
        },
        Commands::Exec(args) => {
            let stdin = match exec_needs_stdin(&args.keys) {
                Err(e) => {
                    return Err(e);
                },
                Ok(false) => None,
                Ok(true) => match piped {
                    None => {
                        return Err(text("{stdin} requires piped input"));
                    },
                    Some(s) => Some(strip_newline(s.as_str())),
                },
            };
            let selector = Some(convert_selector(args.selector));
            Ok((Request::Exec { selector, keys: args.keys, stdin }, config.output_format))
        },
        _ => Err(String::new()),
    }
}

/// What the CLI lets through, a session can carry out: the keys of an exec that the client
/// accepts are valid, and {stdin} has a text to stand for.
pub proof fn law_accepted_keys_can_be_run(
    keys: Seq<Seq<char>>,
    piped: Option<Seq<char>>,
    delay: u64,
)
    requires
        exec_stdin(keys, piped) is Ok,
    ensures
        exec_groups(keys, exec_stdin(keys, piped)->Ok_0, delay) is Ok,
{
    let groups = args_groups(keys)->Ok_0;
    lemma_stdin_is_resolved(groups, exec_stdin(keys, piped)->Ok_0);
}

// === Responses ===

/// What the CLI prints.
#[derive(Debug, PartialEq)]
pub enum Output {
    Nothing,
    /// A text for stdout, as it stands.
    Text(String),
    /// A line for stderr. The command failed.
    Error(String),
    /// Sessions, in JSON, to be listed on stdout.
    Sessions(String),
}

#[verifier::ext_equal]
pub enum OutputView {
    Nothing,
    Text(Seq<char>),
    Error(Seq<char>),
    Sessions(Seq<char>),
}

impl View for Output {
    type V = OutputView;

    open spec fn view(&self) -> OutputView {
        match *self {
            Output::Nothing => OutputView::Nothing,
            Output::Text(s) => OutputView::Text(s@),
            Output::Error(s) => OutputView::Error(s@),
            Output::Sessions(s) => OutputView::Sessions(s@),
        }
    }
}

/// `serde_json::Value`, a JSON value.
#[verifier::external_type_specification]
#[verifier::external_body]
pub struct ExValue(serde_json::Value);

/// The strings that a JSON value holds, each by the keys that lead to it through objects. A value
/// that is a string holds itself, under no key.
pub uninterp spec fn json_strings(value: serde_json::Value) -> Map<Seq<Seq<char>>, Seq<char>>;

/// The strings that the value of a JSON text holds, if the text is one.
pub uninterp spec fn json_contents(json: Seq<char>) -> Option<Map<Seq<Seq<char>>, Seq<char>>>;

/// `serde_json::from_str` reads a value. Whether it can, and what the value holds, is a function
/// of the text. Nothing is said of how JSON is read.
#[verifier::external_body]
fn parse_json(json: &str) -> (r: Option<serde_json::Value>)
    ensures
        match r {
            Some(v) => json_contents(json@) == Some(json_strings(v)),
            None => json_contents(json@) is None,
        },
{
    serde_json::from_str(json).ok()
}

/// `Value::get` gives the value of a key, if the value is an object that has it. What the one
/// holds, the other holds behind that key.
#[verifier::external_body]
fn json_field<'a>(value: &'a serde_json::Value, key: &str) -> (r: Option<&'a serde_json::Value>)
    ensures
        match r {
            Some(f) => forall|path: Seq<Seq<char>>|
                {
                    &&& #[trigger] json_strings(*f).contains_key(path) <==> json_strings(
                        *value,
                    ).contains_key(seq![key@] + path)
                    &&& json_strings(*f).contains_key(path) ==> json_strings(*f)[path]
                        == json_strings(*value)[seq![key@] + path]
                },
            None => forall|path: Seq<Seq<char>>|
                !json_strings(*value).contains_key(#[trigger] (seq![key@] + path)),
        },
{
    value.get(key)
}

/// `Value::as_str` gives the text of a value that is a string.
#[verifier::external_body]
fn json_text<'a>(value: &'a serde_json::Value) -> (r: Option<&'a str>)
    ensures
        match r {
            Some(s) => {
                &&& json_strings(*value).contains_key(Seq::<Seq<char>>::empty())
                &&& json_strings(*value)[Seq::<Seq<char>>::empty()] == s@
            },
            None => !json_strings(*value).contains_key(Seq::<Seq<char>>::empty()),
        },
{
    value.as_str()
}

/// The string in a field of a JSON object, if there is one.
pub open spec fn json_string(json: Seq<char>, key: Seq<char>) -> Option<Seq<char>> {
    match json_contents(json) {
        Some(strings) if strings.contains_key(seq![key]) => Some(strings[seq![key]]),
        _ => None,
    }
}

fn json_string_field(json: &str, key: &str) -> (r: Option<String>)
    ensures
        text_opt(r) == json_string(json@, key@),
{
    let ghost none = Seq::<Seq<char>>::empty();
    proof {
        assert(seq![key@] + none =~= seq![key@]);
    }
    let value = match parse_json(json) {
        Some(value) => value,
        None => {
            return None;
        },
    };
    let field = match json_field(&value, key) {
        Some(field) => field,
        None => {
            proof {
                assert(!json_strings(value).contains_key(seq![key@] + none));
            }
            return None;
        },
    };
    proof {
        assert(json_strings(*field).contains_key(none) <==> json_strings(value).contains_key(
            seq![key@] + none,
        ));
    }
    match json_text(field) {
        Some(s) => Some(text(s)),
        None => None,
    }
}

/// A line of output.
pub open spec fn line_output(s: Seq<char>) -> OutputView {
    OutputView::Text(s.push('\n'))
}

fn line(s: &str) -> (r: Output)
    ensures
        r@ == line_output(s@),
{
    let mut s = text(s);
    s.push('\n');
    Output::Text(s)
}

/// Content with a newline at its end.
pub open spec fn content_output(content: Option<Seq<char>>) -> OutputView {
    match content {
        Some(c) => if c.len() > 0 && c.last() == '\n' {
            OutputView::Text(c)
        } else {
            line_output(c)
        },
        None => OutputView::Nothing,
    }
}

/// Print content as it stands, with a newline at its end.
pub fn print_content(content: Option<String>) -> (r: Output)
    ensures
        r@ == content_output(text_opt(content)),
{
    match content {
        Some(c) => {
            let v = chars_of(c.as_str());
            if v.len() > 0 && v[v.len() - 1] == '\n' {
                Output::Text(c)
            } else {
                line(c.as_str())
            }
        },
        None => Output::Nothing,
    }
}

/// The tag of a session.
pub open spec fn tag_output(id: Option<Seq<char>>, tag: Option<Seq<char>>) -> OutputView {
    let id = match id {
        Some(id) => id,
        None => "????"@,
    };
    line_output(
        match tag {
            Some(t) => "["@ + id + "] @"@ + t,
            None => "["@ + id + "]"@,
        },
    )
}

/// Print the answer to a tag query.
pub fn print_tag(id: Option<String>, tag: Option<String>) -> (r: Output)
    ensures
        r@ == tag_output(text_opt(id), text_opt(tag)),
{
    let id = match id {
        Some(id) => id,
        None => text("????"),
    };
    match tag {
        Some(t) => line(concat(concat3("[", id.as_str(), "] @").as_str(), t.as_str()).as_str()),
        None => line(concat3("[", id.as_str(), "]").as_str()),
    }
}

/// What is printed of an answer. An error is told, a query is answered, an action is silent.
pub open spec fn response_output(
    response: ResponseView,
    request: Request,
    format: OutputFormat,
) -> OutputView {
    if !response.ok {
        OutputView::Error(
            "error: "@ + match response.error {
                Some(msg) => msg,
                None => "unknown error"@,
            },
        )
    } else {
        match response.data {
            Some(PayloadView::Json(json)) => match request {
                Request::List { .. } => OutputView::Sessions(json),
                Request::Peek { .. } | Request::History { .. } => match format {
                    OutputFormat::Json => line_output(json),
                    OutputFormat::Pretty => content_output(json_string(json, "content"@)),
                },
                Request::Tag { new_tag, delete, .. } => match format {
                    OutputFormat::Json => line_output(json),
                    OutputFormat::Pretty => if new_tag is None && !delete {
                        tag_output(json_string(json, "id"@), json_string(json, "tag"@))
                    } else {
                        OutputView::Nothing
                    },
                },
                Request::Show { .. }
                | Request::Hide { .. }
                | Request::Clear { .. }
                | Request::Exec { .. } => OutputView::Nothing,
                Request::Stop => line_output(json),
            },
            _ => OutputView::Nothing,
        }
    }
}

/// Print response based on format and request type. What the response carries is the JSON that
/// came from the daemon.
pub fn print_response(response: Response, request: &Request, format: OutputFormat) -> (r: Output)
    requires
        response@.data matches Some(data) ==> data is Json,
    ensures
        r@ == response_output(response@, *request, format),
{
    if !response.ok {
        let msg = match response.error {
            Some(msg) => msg,
            None => text("unknown error"),
        };
        return Output::Error(concat("error: ", msg.as_str()));
    }
    let json = match response.data {
        Some(Payload::Json(json)) => json,
        _ => {
            return Output::Nothing;
        },
    };
    match request {
        // Query commands: output data
        Request::List { .. } => Output::Sessions(json),
        Request::Peek { .. } | Request::History { .. } => match format {
            OutputFormat::Json => line(json.as_str()),
            OutputFormat::Pretty => print_content(json_string_field(json.as_str(), "content")),
        },
        Request::Tag { new_tag, delete, .. } => match format {
            OutputFormat::Json => line(json.as_str()),
            OutputFormat::Pretty => if new_tag.is_none() && !*delete {
                print_tag(
                    json_string_field(json.as_str(), "id"),
                    json_string_field(json.as_str(), "tag"),
                )
            } else {
                // Set/delete mode: silent success
                Output::Nothing
            },
        },
        // Action commands: silent success, no output
        Request::Show { .. }
        | Request::Hide { .. }
        | Request::Clear { .. }
        | Request::Exec { .. } => Output::Nothing,
        Request::Stop => line(json.as_str()),
    }
}

/// A refusal is never silent: whatever was asked, an answer that is not ok is shown as an error.
pub proof fn law_errors_are_shown(response: ResponseView, request: Request, format: OutputFormat)
    requires
        !response.ok,
    ensures
        response_output(response, request, format) is Error,
{
}

} // verus!
