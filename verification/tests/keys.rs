use tv::duration::parse_duration;
use tv::keys::{
    encode_char_key, encode_csi_key, encode_csi_tilde, encode_key, encode_simple_key,
    encode_ss3_or_csi, merge_bytes, number_bytes, parse_arg, parse_exec_args,
    parse_key_expression, xterm_modifier, KeyGroup,
};

fn bytes(b: &[u8]) -> KeyGroup {
    KeyGroup::Bytes(b.to_vec())
}

fn arg_error(arg: &str) -> String {
    parse_arg(arg).unwrap_err()
}

fn key(name: &str) -> Vec<u8> {
    match parse_key_expression(name).unwrap() {
        KeyGroup::Bytes(b) => b,
        other => panic!("{:?}", other),
    }
}

#[test]
fn text_and_keys_in_one_argument_are_one_group() {
    let groups = parse_exec_args(&["ls{cr}".to_string()]).unwrap();
    assert_eq!(groups, vec![bytes(b"ls\r")]);
    assert_eq!(parse_arg("hello{cr}").unwrap(), vec![bytes(b"hello\r")]);
}

#[test]
fn arguments_stay_apart() {
    let args = ["ls -la".to_string(), "{cr}".to_string(), "{wait:5s}".to_string()];
    assert_eq!(
        parse_exec_args(&args).unwrap(),
        vec![
            bytes(b"ls -la"),
            bytes(b"\r"),
            KeyGroup::Wait { timeout: 5000, idle_threshold: None },
        ]
    );
    assert_eq!(parse_exec_args(&[]).unwrap(), vec![]);
}

#[test]
fn a_bad_argument_fails_all() {
    let args = ["a".to_string(), "{nope}".to_string(), "}".to_string()];
    assert_eq!(parse_exec_args(&args).unwrap_err(), "unknown key name: 'nope'");
}

#[test]
fn escaped_braces_are_literal() {
    assert_eq!(parse_arg("{{cr}}").unwrap(), vec![bytes(b"{cr}")]);
    assert_eq!(parse_arg("a{{b}}c").unwrap(), vec![bytes(b"a{b}c")]);
    assert_eq!(parse_arg("héé").unwrap(), vec![bytes("héé".as_bytes())]);
    assert_eq!(parse_arg("").unwrap(), vec![]);
}

#[test]
fn pauses_split_an_argument() {
    assert_eq!(
        parse_arg("a{sleep:500}b{c-c}").unwrap(),
        vec![bytes(b"a"), KeyGroup::Sleep(500), bytes(b"b\x03")]
    );
    assert_eq!(parse_arg("{stdin}").unwrap(), vec![KeyGroup::Stdin]);
    assert_eq!(
        parse_arg("{wait:30s:2s}").unwrap(),
        vec![KeyGroup::Wait { timeout: 30_000, idle_threshold: Some(2000) }]
    );
}

#[test]
fn argument_errors() {
    assert_eq!(arg_error("{cr"), "unclosed key expression: {cr");
    assert_eq!(arg_error("{}"), "empty key expression: {}");
    assert_eq!(arg_error("a}b"), "unexpected '}' without matching '{'");
    assert_eq!(arg_error("{sleep}"), "sleep requires a duration, e.g. {sleep:500ms}");
    assert_eq!(
        arg_error("{wait}"),
        "wait requires a duration and is used to wait for terminal output to settle, e.g. {wait:5s}"
    );
    assert_eq!(arg_error("{sleep:x}"), "invalid sleep: invalid duration: 'x'");
    assert_eq!(arg_error("{wait:}"), "invalid wait timeout: empty duration");
    assert_eq!(arg_error("{wait:1s:y}"), "invalid idle threshold: invalid duration: 'y'");
    assert_eq!(arg_error("{wait:1s:2s:3s}"), "invalid idle threshold: invalid duration: '2s:3s'");
    assert_eq!(arg_error("{c-c-x}"), "duplicate ctrl modifier in: c-c-x");
    assert_eq!(arg_error("{s-s-x}"), "duplicate shift modifier in: s-s-x");
    assert_eq!(arg_error("{a-c-a-x}"), "duplicate alt modifier in: a-c-a-x");
    assert_eq!(arg_error("{c-}"), "missing key name in: c-");
    assert_eq!(arg_error("{bogus}"), "unknown key name: 'bogus'");
    assert_eq!(arg_error("{c-1}"), "ctrl+1 is not a valid control character combination");
    assert_eq!(arg_error("{é}"), "unknown key name: 'é'");
}

#[test]
fn non_ascii_keys_are_refused() {
    assert_eq!(
        encode_char_key('é', false, false, false).unwrap_err(),
        "non-ASCII character 'é' not supported in key expressions"
    );
}

#[test]
fn named_keys() {
    assert_eq!(key("cr"), b"\r");
    assert_eq!(key("enter"), b"\r");
    assert_eq!(key("a-cr"), b"\x1b\r");
    assert_eq!(key("c-cr"), b"\r");
    assert_eq!(key("esc"), b"\x1b");
    assert_eq!(key("tab"), b"\t");
    assert_eq!(key("s-tab"), b"\x1b[Z");
    assert_eq!(key("a-tab"), b"\x1b\t");
    assert_eq!(key("c-s-tab"), b"\t");
    assert_eq!(key("bs"), b"\x7f");
    assert_eq!(key("space"), b" ");
    assert_eq!(key("nul"), b"\0");
    assert_eq!(key("del"), b"\x1b[3~");
    assert_eq!(key("c-delete"), b"\x1b[3;5~");
    assert_eq!(key("up"), b"\x1b[A");
    assert_eq!(key("c-s-up"), b"\x1b[1;6A");
    assert_eq!(key("home"), b"\x1b[H");
    assert_eq!(key("end"), b"\x1b[F");
    assert_eq!(key("insert"), b"\x1b[2~");
    assert_eq!(key("pageup"), b"\x1b[5~");
    assert_eq!(key("s-pagedown"), b"\x1b[6;2~");
    assert_eq!(key("f1"), b"\x1bOP");
    assert_eq!(key("a-f4"), b"\x1b[1;3S");
    assert_eq!(key("f5"), b"\x1b[15~");
    assert_eq!(key("f6"), b"\x1b[17~");
    assert_eq!(key("f11"), b"\x1b[23~");
    assert_eq!(key("c-f12"), b"\x1b[24;5~");
}

#[test]
fn character_keys() {
    assert_eq!(key("c-c"), b"\x03");
    assert_eq!(key("c-C"), b"\x03");
    assert_eq!(key("c-a-z"), b"\x1b\x1a");
    assert_eq!(key("c-["), b"\x1b");
    assert_eq!(key("c-\\"), b"\x1c");
    assert_eq!(key("c-]"), b"\x1d");
    assert_eq!(key("c-^"), b"\x1e");
    assert_eq!(key("c-_"), b"\x1f");
    assert_eq!(key("a-c-@"), b"\x1b\0");
    assert_eq!(key("s-x"), b"X");
    assert_eq!(key("s-1"), b"1");
    assert_eq!(key("a-x"), b"\x1bx");
    assert_eq!(key("x"), b"x");
    assert_eq!(encode_key("x", false, true, true).unwrap(), b"\x1bX");
}

#[test]
fn modifiers_commute() {
    for name in ["up", "f3", "f7", "x", "del"] {
        let forms = ["c-s-a-", "c-a-s-", "s-c-a-", "s-a-c-", "a-c-s-", "a-s-c-"];
        for form in forms {
            assert_eq!(key(&format!("{form}{name}")), key(&format!("c-s-a-{name}")));
        }
    }
    for form in ["c-s-", "s-c-"] {
        let unknown = parse_key_expression(&format!("{form}nokey")).unwrap_err();
        assert_eq!(unknown, "unknown key name: 'nokey'");
        let missing = parse_key_expression(form).unwrap_err();
        assert_eq!(missing, format!("missing key name in: {form}"));
    }
    for form in ["c-c-s-", "c-s-c-", "s-c-c-"] {
        let twice = parse_key_expression(&format!("{form}x")).unwrap_err();
        assert_eq!(twice, format!("duplicate ctrl modifier in: {form}x"));
    }
}

#[test]
fn modifier_parameters() {
    assert_eq!(xterm_modifier(false, false, false), 1);
    assert_eq!(xterm_modifier(false, true, false), 2);
    assert_eq!(xterm_modifier(false, false, true), 3);
    assert_eq!(xterm_modifier(false, true, true), 4);
    assert_eq!(xterm_modifier(true, false, false), 5);
    assert_eq!(xterm_modifier(true, true, false), 6);
    assert_eq!(xterm_modifier(true, false, true), 7);
    assert_eq!(xterm_modifier(true, true, true), 8);
}

#[test]
fn key_sequences() {
    assert_eq!(encode_simple_key(b' ', true), b"\x1b ");
    assert_eq!(encode_simple_key(b' ', false), b" ");
    assert_eq!(encode_csi_key(b"A", false, false, false), b"\x1b[A");
    assert_eq!(encode_csi_key(b"A", true, false, false), b"\x1b[1;5A");
    assert_eq!(encode_csi_key(b"3~", true, true, true), b"\x1b[3;8~");
    assert_eq!(encode_csi_key(b"~", false, true, false), b"\x1b[1;2~");
    assert_eq!(encode_ss3_or_csi(b'Q', false, false, false), b"\x1bOQ");
    assert_eq!(encode_ss3_or_csi(b'Q', false, false, true), b"\x1b[1;3Q");
    assert_eq!(encode_csi_tilde(20, false, false, false), b"\x1b[20~");
    assert_eq!(encode_csi_tilde(20, false, true, false), b"\x1b[20;2~");
    assert_eq!(number_bytes(0), b"0");
    assert_eq!(number_bytes(1205), b"1205");
}

#[test]
fn adjacent_bytes_are_merged() {
    let groups = vec![
        bytes(b"a"),
        bytes(b"b"),
        KeyGroup::Sleep(1),
        KeyGroup::Sleep(2),
        bytes(b"c"),
        KeyGroup::Stdin,
        bytes(b""),
        bytes(b"d"),
    ];
    assert_eq!(
        merge_bytes(groups),
        vec![
            bytes(b"ab"),
            KeyGroup::Sleep(1),
            KeyGroup::Sleep(2),
            bytes(b"c"),
            KeyGroup::Stdin,
            bytes(b"d"),
        ]
    );
}

#[test]
fn groups_can_be_cloned() {
    let group = KeyGroup::Wait { timeout: 3, idle_threshold: Some(4) };
    assert_eq!(group.clone(), group);
    assert_eq!(bytes(b"xy").clone(), bytes(b"xy"));
}

#[test]
fn durations() {
    assert_eq!(parse_duration("500"), Ok(500));
    assert_eq!(parse_duration("500ms"), Ok(500));
    assert_eq!(parse_duration("2s"), Ok(2000));
    assert_eq!(parse_duration("1.5s"), Ok(1500));
    assert_eq!(parse_duration("1m"), Ok(60_000));
    assert_eq!(parse_duration("1h"), Ok(3_600_000));
    assert_eq!(parse_duration("1m30s"), Ok(90_000));
    assert_eq!(parse_duration("1h10m"), Ok(4_200_000));
    assert_eq!(parse_duration("2m500ms"), Ok(120_500));
    assert_eq!(parse_duration("0.25"), Ok(0));
    assert_eq!(parse_duration("0.5"), Ok(1));
    assert_eq!(parse_duration(".5s"), Ok(500));
    assert_eq!(parse_duration("3.s"), Ok(3000));
    assert_eq!(parse_duration("0.0004s0.0002s"), Ok(1));
    assert_eq!(parse_duration("99999999999999999999h"), Ok(u64::MAX));
}

#[test]
fn bad_durations() {
    assert_eq!(parse_duration(""), Err("empty duration".to_string()));
    for s in ["s", ".", "1.2.3", "1x", "1m30", "-1", "1 s", "..s", "1s2"] {
        assert_eq!(parse_duration(s), Err(format!("invalid duration: '{s}'")));
    }
}

#[test]
fn durations_agree_with_decimal_numbers() {
    for s in ["0.1", "1.4999", "2.5", "12.75", "1000000.5"] {
        let ms: f64 = s.parse().unwrap();
        assert_eq!(parse_duration(s), Ok(ms.round() as u64));
        assert_eq!(parse_duration(&format!("{s}s")), Ok((ms * 1000.0).round() as u64));
        assert_eq!(parse_duration(&format!("{s}m")), Ok((ms * 60_000.0).round() as u64));
    }
}
