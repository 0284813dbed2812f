use tv::cli;
use tv::cli::{
    Commands, ExecArgs, HistoryArgs, ListArgs, PeekArgs, Tag, TagArgs,
};
use tv::client::{
    command_to_request, convert_selector, exec_needs_stdin, format_list, format_list_table,
    format_relative_time, print_content, print_response, print_tag, resolve_format, table_rows,
    truncate_path, Output,
};
use tv::config::{Config, OutputFormat};
use tv::session::dispatch::prepare_exec;
use tv::types::{ErrorCode, Payload, Request, Response, Selector, SessionInfo};

fn info(id: &str, tag: Option<&str>, last: u64, created: u64, cwd: Option<&str>) -> SessionInfo {
    SessionInfo {
        id: id.to_string(),
        tag: tag.map(String::from),
        pid: 1,
        visible: true,
        cwd: cwd.map(String::from),
        in_alt_screen: false,
        created_at: created,
        last_activity: last,
    }
}

fn request(cmd: Commands) -> String {
    format!("{:?}", command_to_request(cmd, &Config::default(), None))
}

fn tag_command(selector: Option<cli::Selector>, new_tag: Option<&str>, delete: bool) -> String {
    request(Commands::Tag(TagArgs {
        selector,
        new_tag: new_tag.map(|t| Tag(t.to_string())),
        delete,
        json: false,
        pretty: false,
    }))
}

fn exec(keys: &[&str], piped: Option<&str>) -> Result<(Request, OutputFormat), String> {
    let args = ExecArgs {
        selector: cli::Selector::Tag("work".to_string()),
        keys: keys.iter().map(|k| k.to_string()).collect(),
    };
    command_to_request(Commands::Exec(args), &Config::default(), piped.map(String::from))
}

fn json_response(json: &str) -> Response {
    Response::ok(Payload::Json(json.to_string()))
}

fn text(s: &str) -> Output {
    Output::Text(s.to_string())
}

fn tag_query() -> Request {
    Request::Tag { selector: None, new_tag: None, delete: false }
}

#[test]
fn selectors_are_converted() {
    assert!(matches!(
        convert_selector(cli::Selector::Id("3f".to_string())),
        Selector::Id(id) if id == "3f"
    ));
    assert!(matches!(
        convert_selector(cli::Selector::Tag("x".to_string())),
        Selector::Tag(tag) if tag == "x"
    ));
}

#[test]
fn formats() {
    let mut config = Config::default();
    assert_eq!(resolve_format(true, true, &config), OutputFormat::Json);
    assert_eq!(resolve_format(false, false, &config), OutputFormat::Pretty);
    config.output_format = OutputFormat::Json;
    assert_eq!(resolve_format(false, true, &config), OutputFormat::Pretty);
    assert_eq!(resolve_format(false, false, &config), OutputFormat::Json);
}

#[test]
fn relative_times() {
    let now = 1_000_000;
    let cases = [
        (now, "0s ago"),
        (now + 5, "0s ago"),
        (now - 3, "3s ago"),
        (now - 59, "59s ago"),
        (now - 60, "1m ago"),
        (now - 3599, "59m ago"),
        (now - 3600, "1h ago"),
        (now - 86_399, "23h ago"),
        (now - 86_400, "yesterday"),
        (now - 172_799, "yesterday"),
        (now - 172_800, "2d ago"),
        (0, "-"),
    ];
    for (time, expected) in cases {
        assert_eq!(format_relative_time(now, time), expected);
    }
}

#[test]
fn paths_are_truncated() {
    assert_eq!(truncate_path("/home/u/src", 30, Some("/home/u")), "~/src");
    assert_eq!(truncate_path("/home/u", 30, Some("/home/u")), "~");
    assert_eq!(truncate_path("/home/user2", 30, Some("/home/u")), "/home/user2");
    assert_eq!(truncate_path("/home/user/x", 30, Some("/home/u")), "/home/user/x");
    assert_eq!(truncate_path("/home/u/src", 30, Some("/home/u/")), "~src");
    assert_eq!(truncate_path("/home", 30, Some("/home/u")), "/home");
    assert_eq!(truncate_path("/opt/x", 30, Some("/home/u")), "/opt/x");
    assert_eq!(truncate_path("/opt/x", 30, None), "/opt/x");
    assert_eq!(truncate_path("abcdef", 6, None), "abcdef");
    assert_eq!(truncate_path("abcdef", 5, None), "…cdef");
    assert_eq!(truncate_path("abcdef", 1, None), "…");
    assert_eq!(truncate_path("abcdef", 0, None), "…");
    assert_eq!(truncate_path("", 0, None), "");
}

#[test]
fn rows_of_the_list() {
    let sessions = vec![
        info("3f2a", Some("work"), 990, 400, Some("/home/u/p")),
        info("0001", None, 0, 1000, None),
    ];
    let rows = table_rows(&sessions, 1000, Some("/home/u"));
    assert_eq!(rows[0], ["3f2a", "@work", "10s ago", "10m ago", "~/p"]);
    assert_eq!(rows[1], ["0001", "-", "-", "0s ago", "-"]);
}

#[test]
fn the_list_is_a_table() {
    assert_eq!(format_list(&vec![], 1000, None, None), "No sessions");
    assert_eq!(format_list_table(&vec![], 1000, None, Some(80)), "No sessions");
    let sessions = vec![info("3f2a", Some("work"), 990, 400, Some("/p"))];
    let table = format_list_table(&sessions, 1000, None, None);
    let lines: Vec<Vec<&str>> =
        table.split('\n').map(|l| l.split_whitespace().collect()).collect();
    assert_eq!(lines.len(), 2);
    assert_eq!(lines[0], ["ID", "TAG", "ACTIVITY", "CREATED", "CWD"]);
    assert_eq!(lines[1], ["3f2a", "@work", "10s", "ago", "10m", "ago", "/p"]);
    assert_eq!(format_list_table(&sessions, 1000, None, Some(200)), table);
    assert_ne!(format_list_table(&sessions, 1000, None, Some(20)), table);
}

#[test]
fn the_list_is_sorted_by_activity() {
    let sessions = vec![
        info("000a", None, 10, 1, None),
        info("000b", None, 30, 1, None),
        info("000c", None, 10, 1, None),
        info("000d", None, 30, 1, None),
        info("000e", None, 20, 1, None),
    ];
    let table = format_list(&sessions, 1000, None, None);
    let ids: Vec<&str> =
        table.split('\n').skip(1).map(|l| l.split_whitespace().next().unwrap()).collect();
    assert_eq!(ids, ["000b", "000d", "000e", "000a", "000c"]);
}

#[test]
fn simple_commands() {
    let id = || Some(cli::Selector::Id("3f".to_string()));
    assert_eq!(
        request(Commands::Show { selector: id() }),
        "Ok((Show { selector: Some(Id(\"3f\")) }, Pretty))"
    );
    assert_eq!(request(Commands::Hide { selector: None }), "Ok((Hide { selector: None }, Pretty))");
    assert_eq!(
        request(Commands::Clear { selector: id() }),
        "Ok((Clear { selector: Some(Id(\"3f\")) }, Pretty))"
    );
    assert_eq!(
        request(Commands::List(ListArgs {
            selector: id(),
            all: true,
            long: true,
            json: true,
            pretty: false,
        })),
        "Ok((List { selector: Some(Id(\"3f\")), all: true }, Json))"
    );
    assert_eq!(
        request(Commands::Peek(PeekArgs { selector: None, json: true, pretty: false })),
        "Ok((Peek { selector: None }, Json))"
    );
    assert_eq!(
        request(Commands::History(HistoryArgs {
            selector: id(),
            count: Some(5),
            offset: None,
            json: false,
            pretty: true,
        })),
        "Ok((History { selector: Some(Id(\"3f\")), count: Some(5), offset: None }, Pretty))"
    );
}

#[test]
fn tag_commands() {
    let id = || Some(cli::Selector::Id("3f".to_string()));
    let tag = || Some(cli::Selector::Tag("w".to_string()));
    assert_eq!(
        tag_command(None, None, false),
        "Ok((Tag { selector: None, new_tag: None, delete: false }, Pretty))"
    );
    assert_eq!(
        tag_command(tag(), None, false),
        "Ok((Tag { selector: None, new_tag: Some(\"w\"), delete: false }, Pretty))"
    );
    assert_eq!(
        tag_command(id(), Some("n"), false),
        "Ok((Tag { selector: Some(Id(\"3f\")), new_tag: Some(\"n\"), delete: false }, Pretty))"
    );
    assert_eq!(
        tag_command(None, None, true),
        "Ok((Tag { selector: None, new_tag: None, delete: true }, Pretty))"
    );
    assert_eq!(
        tag_command(tag(), None, true),
        "Ok((Tag { selector: Some(Tag(\"w\")), new_tag: None, delete: true }, Pretty))"
    );
    assert_eq!(
        tag_command(id(), None, false),
        "Err(\"specify a tag to set or use -d to delete\")"
    );
}

#[test]
fn exec_commands() {
    assert_eq!(
        format!("{:?}", exec(&["ls", "{cr}"], Some("ignored"))),
        "Ok((Exec { selector: Some(Tag(\"work\")), keys: [\"ls\", \"{cr}\"], stdin: None }, Pretty))"
    );
    assert_eq!(exec(&["{x"], None).unwrap_err(), "invalid key syntax: unclosed key expression: {x");
    assert_eq!(exec(&["{stdin}{stdin}"], Some("a")).unwrap_err(), "{stdin} can only appear once");
    assert_eq!(exec(&["{stdin}"], None).unwrap_err(), "{stdin} requires piped input");
    for (piped, expected) in [
        ("a\n", "a"),
        ("a\r\n", "a"),
        ("a\n\n", "a\n"),
        ("a\r", "a\r"),
        ("\n", ""),
        ("", ""),
        ("\r\n", ""),
    ] {
        match exec(&["{stdin}"], Some(piped)) {
            Ok((Request::Exec { stdin: Some(s), .. }, _)) => assert_eq!(s, expected),
            other => panic!("{:?}", other),
        }
    }
}

#[test]
fn keys_tell_whether_they_need_stdin() {
    assert_eq!(exec_needs_stdin(&vec!["ls".to_string()]), Ok(false));
    assert_eq!(exec_needs_stdin(&vec!["a".to_string(), "{stdin}".to_string()]), Ok(true));
    assert!(exec_needs_stdin(&vec!["}".to_string()]).is_err());
}

#[test]
fn accepted_keys_can_be_run() {
    for (keys, piped) in [(vec!["{stdin}", "{cr}"], Some("x\ny\n")), (vec!["ls{cr}"], None)] {
        let (request, _) = exec(&keys, piped).unwrap();
        match request {
            Request::Exec { keys, stdin, .. } => assert!(prepare_exec(&keys, &stdin, 50).is_ok()),
            other => panic!("{:?}", other),
        }
    }
}

#[test]
fn errors_are_shown() {
    let refused = Response::err(ErrorCode::PermissionDenied, "denied by user".to_string());
    let request = Request::Show { selector: None };
    assert_eq!(
        print_response(refused, &request, OutputFormat::Pretty),
        Output::Error("error: denied by user".to_string())
    );
    let bare = Response { ok: false, data: None, error: None, code: None };
    assert_eq!(
        print_response(bare, &tag_query(), OutputFormat::Json),
        Output::Error("error: unknown error".to_string())
    );
}

#[test]
fn content_is_shown() {
    let peek = Request::Peek { selector: None };
    let history = Request::History { selector: None, count: None, offset: None };
    let json = "{\"content\":\"a\\nb\",\"rows\":2}";
    for request in [&peek, &history] {
        assert_eq!(
            print_response(json_response(json), request, OutputFormat::Pretty),
            text("a\nb\n")
        );
        assert_eq!(
            print_response(json_response(json), request, OutputFormat::Json),
            text(&format!("{json}\n"))
        );
        assert_eq!(
            print_response(json_response("{\"content\":3}"), request, OutputFormat::Pretty),
            Output::Nothing
        );
        assert_eq!(
            print_response(json_response("[]"), request, OutputFormat::Pretty),
            Output::Nothing
        );
    }
    assert_eq!(
        print_response(Response::ok_empty(), &peek, OutputFormat::Pretty),
        Output::Nothing
    );
    assert_eq!(print_content(Some("a\n".to_string())), text("a\n"));
    assert_eq!(print_content(Some("".to_string())), text("\n"));
    assert_eq!(print_content(None), Output::Nothing);
}

#[test]
fn tags_are_shown() {
    let json = "{\"id\":\"3f2a\",\"tag\":\"work\"}";
    assert_eq!(
        print_response(json_response(json), &tag_query(), OutputFormat::Pretty),
        text("[3f2a] @work\n")
    );
    assert_eq!(
        print_response(json_response("{\"tag\":null}"), &tag_query(), OutputFormat::Pretty),
        text("[????]\n")
    );
    assert_eq!(
        print_response(json_response(json), &tag_query(), OutputFormat::Json),
        text(&format!("{json}\n"))
    );
    let set = Request::Tag { selector: None, new_tag: Some("x".to_string()), delete: false };
    assert_eq!(print_response(json_response(json), &set, OutputFormat::Pretty), Output::Nothing);
    assert_eq!(print_tag(Some("1".to_string()), None), text("[1]\n"));
    assert_eq!(print_tag(None, Some("t".to_string())), text("[????] @t\n"));
}

#[test]
fn other_answers() {
    let list = Request::List { selector: None, all: false };
    assert_eq!(
        print_response(json_response("[]"), &list, OutputFormat::Pretty),
        Output::Sessions("[]".to_string())
    );
    let hide = Request::Hide { selector: None };
    assert_eq!(print_response(json_response("{}"), &hide, OutputFormat::Json), Output::Nothing);
    assert_eq!(
        print_response(json_response("{}"), &Request::Stop, OutputFormat::Pretty),
        text("{}\n")
    );
    assert_eq!(
        print_response(Response::ok_empty(), &Request::Stop, OutputFormat::Pretty),
        Output::Nothing
    );
}
