//! Frames, connections, processes, selectors and paths.
use vstd::prelude::*;
use vstd::utf8::{encode_utf8, is_ascii_chars_encode_utf8};
use crate::auth::{ancestor_of, first_wanted};
use crate::cli;
use crate::cli::{selector_of, startup_of, tag_of, Cli, Commands, SelectorView, Startup, Tag};
use crate::config::{config_dir, config_path};
use crate::ipc::session::ConnectionView;
use crate::ipc::{backoff, framed, unframed};
use crate::strings::alphanumeric;
use crate::types::{error_text, ErrorCode};

verus! {

// === Frames ===

/// A frame is four bytes, which spell the length of the message with the highest byte first, and
/// the message.
pub proof fn law_a_frame(message: Seq<u8>)
    requires
        message.len() <= u32::MAX,
    ensures
        ({
            let f = framed(message);
            &&& f.len() == 4 + message.len()
            &&& f[0] * 0x100_0000 + f[1] * 0x1_0000 + f[2] * 0x100 + f[3] == message.len()
            &&& f.skip(4) == message
        }),
{
    assert(framed(message).skip(4) =~= message);
}

/// What is read is the message of the length that the first four bytes spell; nothing is read while
/// bytes are missing, and a message of more than 16 MiB is refused.
pub proof fn law_reading_a_frame(buf: Seq<u8>)
    ensures
        buf.len() < 4 ==> unframed(buf) == Ok::<Option<(Seq<u8>, int)>, Seq<char>>(None),
        buf.len() >= 4 ==> {
            let n = buf[0] * 0x100_0000 + buf[1] * 0x1_0000 + buf[2] * 0x100 + buf[3];
            if n > 16 * 1024 * 1024 {
                unframed(buf) is Err
            } else if buf.len() < 4 + n {
                unframed(buf) == Ok::<Option<(Seq<u8>, int)>, Seq<char>>(None)
            } else {
                unframed(buf) == Ok::<Option<(Seq<u8>, int)>, Seq<char>>(
                    Some((buf.subrange(4, 4 + n), 4 + n)),
                )
            }
        },
{
}

/// A daemon that was started is tried ten times, after 50 milliseconds, 100 and so on.
pub proof fn law_ten_attempts(attempt: int)
    ensures
        1 <= attempt <= 10 ==> backoff(attempt) == Some((attempt * 50) as u64),
        attempt < 1 || attempt > 10 ==> backoff(attempt) is None,
{
}

// === Connections ===

/// A connection that is lost forgets what was read and what was to be written, and is tried again
/// after a tenth of a second.
pub proof fn law_a_lost_connection(c: ConnectionView, lost: u64, now: u64)
    requires
        lost <= u64::MAX - 100_000_000,
    ensures
        ({
            let after = c.disconnect(lost);
            &&& !after.connected
            &&& after.input.len() == 0
            &&& after.output.len() == 0
            &&& after.should_retry(now) == (now >= lost + 100_000_000)
        }),
        c.schedule_retry(lost).should_retry(now) == (!c.connected && now >= lost + 100_000_000),
        c.schedule_retry(lost).output == c.output,
        c.connected ==> !c.should_retry(now),
{
}

/// What was written goes off the front of what is to be written: a part of the first piece, or all
/// of it.
pub proof fn law_what_was_written_goes(c: ConnectionView, n: int)
    requires
        c.output.len() > 0,
        0 < n,
    ensures
        n >= c.output[0].len() ==> c.written(n) == (ConnectionView {
            output: c.output.skip(1),
            ..c
        }),
        n < c.output[0].len() ==> {
            let after = c.written(n);
            &&& after == (ConnectionView { output: after.output, ..c })
            &&& after.output.len() == c.output.len()
            &&& after.output[0] == c.output[0].skip(n)
            &&& forall|i: int|
                1 <= i < c.output.len() ==> #[trigger] after.output[i] == c.output[i]
        },
{
}

// === Processes ===

/// The parent of a process is its ancestor unless the process is the first one, is its own parent
/// or has none.
pub proof fn law_ancestors(current: u32, parent: u32)
    ensures
        current > 1 && parent > 0 && parent != current ==> ancestor_of(current, Some(parent))
            == Some(parent),
        current <= 1 || parent == 0 || parent == current ==> ancestor_of(
            current,
            Some(parent),
        ) is None,
        ancestor_of(current, None) is None,
{
}

/// The nearest ancestor that is wanted is found: none that is wanted comes before it.
pub proof fn law_the_nearest_ancestor(pids: Seq<u32>, wanted: Set<u32>)
    ensures
        first_wanted(pids, wanted) <= pids.len(),
        first_wanted(pids, wanted) < pids.len() ==> wanted.contains(
            pids[first_wanted(pids, wanted) as int],
        ),
        forall|i: int| 0 <= i < first_wanted(pids, wanted) ==> !wanted.contains(#[trigger] pids[i]),
    decreases pids.len(),
{
    if pids.len() > 0 && !wanted.contains(pids[0]) {
        law_the_nearest_ancestor(pids.skip(1), wanted);
        assert forall|i: int| 0 <= i < first_wanted(pids, wanted) implies !wanted.contains(
            #[trigger] pids[i],
        ) by {
            if i > 0 {
                assert(pids.skip(1)[i - 1] == pids[i]);
            }
        }
    }
}

// === Selectors and tags ===

/// Whether a character is a hexadecimal digit.
pub open spec fn is_hex(c: char) -> bool {
    seq![
        '0', '1', '2', '3', '4', '5', '6', '7', '8', '9',
        'a', 'b', 'c', 'd', 'e', 'f', 'A', 'B', 'C', 'D', 'E', 'F',
    ].contains(c)
}

proof fn lemma_hex(c: char)
    ensures
        cli::is_hex_digit(c) ==> is_hex(c),
        is_hex(c) ==> cli::is_hex_digit(c),
{
    let all = seq![
        '0', '1', '2', '3', '4', '5', '6', '7', '8', '9',
        'a', 'b', 'c', 'd', 'e', 'f', 'A', 'B', 'C', 'D', 'E', 'F',
    ];
    if cli::is_hex_digit(c) {
        let i = if c <= '9' {
            c as int - '0' as int
        } else if c >= 'a' {
            10 + (c as int - 'a' as int)
        } else {
            16 + (c as int - 'A' as int)
        };
        assert(all[i] == c);
    }
}

/// A selector is a tag behind an `@`, or one to four hexadecimal digits. Anything else is refused.
pub proof fn law_selectors(s: Seq<char>)
    ensures
        s.len() > 1 && s[0] == '@' ==> selector_of(s) == Ok::<SelectorView, Seq<char>>(
            SelectorView::Tag(s.skip(1)),
        ),
        1 <= s.len() <= 4 && (forall|i: int| 0 <= i < s.len() ==> is_hex(#[trigger] s[i]))
            ==> selector_of(s) == Ok::<SelectorView, Seq<char>>(SelectorView::Id(s)),
        s.len() == 0 || s[0] != '@' && s.len() > 4 ==> selector_of(s) is Err,
        s.len() > 0 && s[0] != '@' && (exists|i: int| 0 <= i < s.len() && !is_hex(#[trigger] s[i]))
            ==> selector_of(s) is Err,
        s == seq!['@'] ==> selector_of(s) is Err,
{
    reveal_strlit("@");
    assert("@"@ =~= seq!['@']);
    if s.len() > 0 {
        assert(s.subrange(0, 1)[0] == s[0]);
        assert(s.subrange(0, 1) =~= seq![s[0]]);
        lemma_hex(s[0]);
    }
    assert forall|i: int| 0 <= i < s.len() implies (is_hex(#[trigger] s[i]) <==> cli::is_hex_digit(
        s[i],
    )) by {
        lemma_hex(s[i]);
    }
    if 1 <= s.len() <= 4 && (forall|i: int| 0 <= i < s.len() ==> is_hex(#[trigger] s[i])) {
        assert(is_hex(s[0]));
        assert(s[0] != '@');
        assert(cli::is_id(s));
    }
}

/// A tag is `@` and a name of letters, digits, dashes and underscores.
pub proof fn law_tags(s: Seq<char>)
    ensures
        s.len() > 1 && s[0] == '@' && (forall|i: int|
            1 <= i < s.len() ==> alphanumeric(#[trigger] s[i]) || s[i] == '-' || s[i] == '_')
            ==> tag_of(s) == Ok::<Seq<char>, Seq<char>>(s.skip(1)),
        s.len() <= 1 || s[0] != '@' ==> tag_of(s) is Err,
        (exists|i: int|
            1 <= i < s.len() && !alphanumeric(#[trigger] s[i]) && s[i] != '-' && s[i] != '_')
            ==> tag_of(s) is Err,
{
    reveal_strlit("@");
    assert("@"@ =~= seq!['@']);
    if s.len() > 0 {
        assert(s.subrange(0, 1)[0] == s[0]);
        assert(s.subrange(0, 1) =~= seq![s[0]]);
        let name = s.skip(1);
        if forall|i: int|
            1 <= i < s.len() ==> alphanumeric(#[trigger] s[i]) || s[i] == '-' || s[i] == '_' {
            assert forall|i: int| 0 <= i < name.len() implies cli::is_tag_char(
                #[trigger] name[i],
            ) by {
                assert(alphanumeric(s[i + 1]) || s[i + 1] == '-' || s[i + 1] == '_');
            }
        } else {
            let i = choose|i: int|
                1 <= i < s.len() && !alphanumeric(#[trigger] s[i]) && s[i] != '-' && s[i] != '_';
            assert(!cli::is_tag_char(name[i - 1]));
        }
    }
}

/// Without a command, and with `new`, a session is started, with the tag that is given; any other
/// command but those for the daemon and the reference goes to the daemon.
pub proof fn law_what_is_started(cli: Cli, tag: Tag, cmd: Commands)
    ensures
        cli.command is None && cli.tag == Some(tag) ==> startup_of(cli) == (Startup::Session {
            tag: Some(tag.0),
        }),
        cli.command is None && cli.tag is None ==> startup_of(cli) == (Startup::Session {
            tag: None,
        }),
        cli.command == Some(Commands::New { tag: Some(tag) }) ==> startup_of(cli) == (
        Startup::Session { tag: Some(tag.0) }),
        cli.command == Some(Commands::New { tag: None }) && cli.tag is None ==> startup_of(cli) == (
        Startup::Session { tag: None }),
        cli.command == Some(cmd) && !(cmd is New) && !(cmd is Daemon) && !(cmd is Llms)
            ==> startup_of(cli) == Startup::Client(cmd),
        cli.command == Some(cmd) && cmd is Llms ==> startup_of(cli) == Startup::Reference,
        cli.command == Some(cmd) && cmd is Daemon ==> startup_of(cli) == Startup::Daemon(
            cmd->action,
        ),
{
}

// === Paths ===

/// The configuration is `tv/config.toml` in the directory for configurations, or else in
/// `.config` in the home directory.
pub proof fn law_where_the_configuration_is(dir: Seq<u8>)
    requires
        dir.len() > 0,
        dir.last() != 0x2f,
    ensures
        ({
            let slash = seq![0x2fu8];
            let tv = encode_utf8("tv"@);
            let dot_config = encode_utf8(".config"@);
            let file = encode_utf8("config.toml"@);
            &&& config_dir(Some(dir), None) == Some(dir + slash + tv)
            &&& forall|home: Option<Seq<u8>>|
                #[trigger] config_dir(Some(dir), home) == Some(dir + slash + tv)
            &&& config_dir(None, Some(dir)) == Some(dir + slash + dot_config + slash + tv)
            &&& config_dir(None, None) is None
            &&& config_path(Some(dir), None) == Some(dir + slash + tv + slash + file)
            &&& config_path(None, Some(dir)) == Some(
                dir + slash + dot_config + slash + tv + slash + file,
            )
            &&& config_path(None, None) is None
        }),
{
    let slash = seq![0x2fu8];
    let tv = encode_utf8("tv"@);
    let dot_config = encode_utf8(".config"@);
    let file = encode_utf8("config.toml"@);
    lemma_names();
    assert(dir.push(0x2f) + tv =~= dir + slash + tv);
    assert(dir.push(0x2f) + dot_config =~= dir + slash + dot_config);
    let config = dir + slash + dot_config;
    assert(config.push(0x2f) + tv =~= config + slash + tv);
    let a = dir + slash + tv;
    let b = config + slash + tv;
    assert(a.last() == tv.last());
    assert(b.last() == tv.last());
    assert(a.push(0x2f) + file =~= a + slash + file);
    assert(b.push(0x2f) + file =~= b + slash + file);
}

/// The names end in letters.
proof fn lemma_names()
    ensures
        encode_utf8("tv"@).len() > 0,
        encode_utf8("tv"@).last() == 0x76,
        encode_utf8(".config"@).len() > 0,
        encode_utf8(".config"@).last() == 0x67,
{
    reveal_strlit("tv");
    reveal_strlit(".config");
    is_ascii_chars_encode_utf8("tv"@);
    is_ascii_chars_encode_utf8(".config"@);
    assert("tv"@[1] == 'v');
    assert(".config"@[6] == 'g');
}

/// What each error is called.
pub proof fn law_errors()
    ensures
        error_text(ErrorCode::SessionNotFound) == "session not found"@,
        error_text(ErrorCode::AmbiguousSelector) == "selector matches multiple sessions"@,
        error_text(ErrorCode::PermissionDenied) == "permission denied"@,
        error_text(ErrorCode::AuthFailed) == "authentication failed"@,
        error_text(ErrorCode::SessionHidden) == "session is hidden"@,
        error_text(ErrorCode::Internal) == "internal server error"@,
{
}

} // verus!
