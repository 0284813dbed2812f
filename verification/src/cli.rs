//! CLI types and the texts that they are read from.
use vstd::prelude::*;
use crate::strings::{alphanumeric, chars_of, concat, concat3, string_of, strip_prefix, text};

verus! {

/// The command line.
pub struct Cli {
    /// Tag for the new session (e.g. @work)
    pub tag: Option<Tag>,
    pub command: Option<Commands>,
}

pub enum Commands {
    /// Daemon management
    Daemon { action: DaemonAction },
    /// Start a new terminal session
    New { tag: Option<Tag> },
    /// Make session visible to tv ls
    Show { selector: Option<Selector> },
    /// Hide session from tv ls
    Hide { selector: Option<Selector> },
    /// Clear scrollback and command history
    Clear { selector: Option<Selector> },
    /// List active sessions
    List(ListArgs),
    /// Get, set, or delete a session tag
    Tag(TagArgs),
    /// View current screen content of a session
    Peek(PeekArgs),
    /// View scrollback history
    History(HistoryArgs),
    /// Print full reference for AI agents / LLMs
    Llms,
    /// Execute keystrokes in a session
    Exec(ExecArgs),
}

#[derive(Debug, Clone, Copy, PartialEq, Eq, Structural)]
pub enum DaemonAction {
    /// Start the daemon (foreground)
    Start,
    /// Stop the daemon
    Stop,
    /// Restart the daemon
    Restart,
}

/// What the program is started for.
pub enum Startup {
    /// A new terminal session.
    Session { tag: Option<String> },
    Daemon(DaemonAction),
    /// Print the reference.
    Reference,
    /// A command for the daemon.
    Client(Commands),
}

/// The name of a tag.
pub open spec fn tag_name(tag: Option<Tag>) -> Option<String> {
    match tag {
        Some(t) => Some(t.0),
        None => None,
    }
}

/// What a command line starts. Without a command it is a new session.
pub open spec fn startup_of(cli: Cli) -> Startup {
    match cli.command {
        None => Startup::Session { tag: tag_name(cli.tag) },
        Some(Commands::New { tag: Some(t) }) => Startup::Session { tag: Some(t.0) },
        Some(Commands::New { tag: None }) => Startup::Session { tag: tag_name(cli.tag) },
        Some(Commands::Daemon { action }) => Startup::Daemon(action),
        Some(Commands::Llms) => Startup::Reference,
        Some(cmd) => Startup::Client(cmd),
    }
}

impl Cli {
    /// What the program is to do.
    pub fn startup(self) -> (r: Startup)
        ensures
            r == startup_of(self),
            r matches Startup::Client(cmd) ==> !(cmd is New) && !(cmd is Daemon) && !(cmd is Llms),
    {
        let own = match self.tag {
            Some(t) => Some(t.0),
            None => None,
        };
        match self.command {
            None => Startup::Session { tag: own },
            Some(cmd) => match cmd {
                Commands::New { tag } => match tag {
                    Some(t) => Startup::Session { tag: Some(t.0) },
                    None => Startup::Session { tag: own },
                },
                Commands::Daemon { action } => Startup::Daemon(action),
                Commands::Llms => Startup::Reference,
                other => Startup::Client(other),
            },
        }
    }
}

#[derive(Debug)]
pub struct ListArgs {
    /// Filter by session (hex id or @tag)
    pub selector: Option<Selector>,
    /// Also list hidden sessions
    pub all: bool,
    /// (noop)
    pub long: bool,
    /// Output as JSON
    pub json: bool,
    /// Output as human-readable
    pub pretty: bool,
}

#[derive(Debug)]
pub struct TagArgs {
    /// Target session (hex id or @tag), defaults to own session
    pub selector: Option<Selector>,
    /// New tag to assign (e.g. @work)
    pub new_tag: Option<Tag>,
    /// Remove tag from session
    pub delete: bool,
    /// Output as JSON
    pub json: bool,
    /// Output as human-readable
    pub pretty: bool,
}

#[derive(Debug)]
pub struct PeekArgs {
    /// Target session (hex id or @tag), defaults to own session
    pub selector: Option<Selector>,
    /// Output as JSON (with cursor position and dimensions)
    pub json: bool,
    /// Output as human-readable
    pub pretty: bool,
}

#[derive(Debug)]
pub struct HistoryArgs {
    /// Target session (hex id or @tag), defaults to own session
    pub selector: Option<Selector>,
    /// Number of lines to return
    pub count: Option<usize>,
    /// Skip N lines from the end
    pub offset: Option<usize>,
    /// Output as JSON
    pub json: bool,
    /// Output as human-readable
    pub pretty: bool,
}

#[derive(Debug)]
pub struct ExecArgs {
    /// Target session (hex id or @tag)
    pub selector: Selector,
    /// Keys to execute (see 'tv exec --help' for syntax)
    pub keys: Vec<String>,
}

// === Selectors ===

/// Session selector: 1-4 hex chars (id) or @tag
#[derive(Debug)]
pub enum Selector {
    Id(String),
    Tag(String),
}

#[verifier::ext_equal]
pub enum SelectorView {
    Id(Seq<char>),
    Tag(Seq<char>),
}

impl View for Selector {
    type V = SelectorView;

    open spec fn view(&self) -> SelectorView {
        match *self {
            Selector::Id(id) => SelectorView::Id(id@),
            Selector::Tag(tag) => SelectorView::Tag(tag@),
        }
    }
}

pub open spec fn is_hex_digit(c: char) -> bool {
    '0' <= c <= '9' || 'a' <= c <= 'f' || 'A' <= c <= 'F'
}

/// Whether a text can be a session id or the start of one.
pub open spec fn is_id(s: Seq<char>) -> bool {
    &&& 1 <= s.len() <= 4
    &&& forall|i: int| 0 <= i < s.len() ==> is_hex_digit(#[trigger] s[i])
}

/// The selector that a text stands for: `@` and a tag, or up to four hex digits.
pub open spec fn selector_of(s: Seq<char>) -> Result<SelectorView, Seq<char>> {
    if "@"@.is_prefix_of(s) {
        let tag = s.skip("@"@.len() as int);
        if tag.len() == 0 {
            Err("tag name cannot be empty"@)
        } else {
            Ok(SelectorView::Tag(tag))
        }
    } else if is_id(s) {
        Ok(SelectorView::Id(s))
    } else {
        Err("expected 1-4 hex chars or @tag, got '"@ + s + "'"@)
    }
}

/// The text of a selector.
pub open spec fn selector_text(s: SelectorView) -> Seq<char> {
    match s {
        SelectorView::Id(id) => id,
        SelectorView::Tag(tag) => "@"@ + tag,
    }
}

fn all_hex_digits(v: &[char]) -> (r: bool)
    ensures
        r == forall|i: int| 0 <= i < v@.len() ==> is_hex_digit(#[trigger] v@[i]),
{
    for i in 0..v.len()
        invariant
            forall|j: int| 0 <= j < i ==> is_hex_digit(#[trigger] v@[j]),
    {
        let c = v[i];
        let hex = ('0' <= c && c <= '9') || ('a' <= c && c <= 'f') || ('A' <= c && c <= 'F');
        if !hex {
            assert(!is_hex_digit(v@[i as int]));
            return false;
        }
    }
    true
}

impl Selector {
    pub fn from_str(s: &str) -> (r: Result<Selector, String>)
        ensures
            match selector_of(s@) {
                Ok(v) => r matches Ok(sel) && sel@ == v,
                Err(e) => r matches Err(m) && m@ == e,
            },
    {
        let v = chars_of(s);
        if let Some(tag) = strip_prefix(v.as_slice(), "@") {
            if tag.len() == 0 {
                return Err(text("tag name cannot be empty"));
            }
            return Ok(Selector::Tag(string_of(tag)));
        }
        if v.len() >= 1 && v.len() <= 4 && all_hex_digits(v.as_slice()) {
            Ok(Selector::Id(text(s)))
        } else {
            Err(concat3("expected 1-4 hex chars or @tag, got '", s, "'"))
        }
    }

    pub fn to_string(&self) -> (s: String)
        ensures
            s@ == selector_text(self@),
    {
        match self {
            Selector::Id(id) => text(id.as_str()),
            Selector::Tag(tag) => concat("@", tag.as_str()),
        }
    }
}

// === Tags ===

/// Tag name, stored without @ prefix.
#[derive(Debug)]
pub struct Tag(pub String);

pub open spec fn is_tag_char(c: char) -> bool {
    alphanumeric(c) || c == '-' || c == '_'
}

/// The tag that a text stands for: `@` and a name.
pub open spec fn tag_of(s: Seq<char>) -> Result<Seq<char>, Seq<char>> {
    if !"@"@.is_prefix_of(s) {
        Err("tag must start with @"@)
    } else {
        let name = s.skip("@"@.len() as int);
        if name.len() == 0 {
            Err("tag name cannot be empty"@)
        } else if exists|i: int| 0 <= i < name.len() && !is_tag_char(#[trigger] name[i]) {
            Err("tag must be alphanumeric (with - or _)"@)
        } else {
            Ok(name)
        }
    }
}

fn all_tag_chars(v: &[char]) -> (r: bool)
    ensures
        r == forall|i: int| 0 <= i < v@.len() ==> is_tag_char(#[trigger] v@[i]),
{
    for i in 0..v.len()
        invariant
            forall|j: int| 0 <= j < i ==> is_tag_char(#[trigger] v@[j]),
    {
        let c = v[i];
        if !(c.is_alphanumeric() || c == '-' || c == '_') {
            assert(!is_tag_char(v@[i as int]));
            return false;
        }
    }
    true
}

impl Tag {
    pub fn from_str(s: &str) -> (r: Result<Tag, String>)
        ensures
            match tag_of(s@) {
                Ok(name) => r matches Ok(tag) && tag.0@ == name,
                Err(e) => r matches Err(m) && m@ == e,
            },
    {
        let v = chars_of(s);
        match strip_prefix(v.as_slice(), "@") {
            None => Err(text("tag must start with @")),
            Some(name) => if name.len() == 0 {
                Err(text("tag name cannot be empty"))
            } else if !all_tag_chars(name) {
                Err(text("tag must be alphanumeric (with - or _)"))
            } else {
                Ok(Tag(string_of(name)))
            },
        }
    }

    pub fn to_string(&self) -> (s: String)
        ensures
            s@ == "@"@ + self.0@,
    {
        concat("@", self.0.as_str())
    }
}

// === Laws ===

/// A selector that was read from a text has that text, and a tag reads back as itself.
pub proof fn law_selector_text_reads_back(s: Seq<char>)
    ensures
        selector_of(s) matches Ok(v) ==> selector_text(v) == s && selector_of(selector_text(v))
            == Ok::<SelectorView, Seq<char>>(v),
{
    reveal_strlit("@");
    if "@"@.is_prefix_of(s) {
        assert("@"@ + s.skip(1) =~= s);
    }
}

/// A name that is a tag selects by that tag: `@name` is a selector whenever it is a tag.
pub proof fn law_every_tag_is_a_selector(s: Seq<char>)
    ensures
        tag_of(s) matches Ok(name) ==> selector_of(s) == Ok::<SelectorView, Seq<char>>(
            SelectorView::Tag(name),
        ),
{
}

} // verus!
