use tv::cli::{Cli, Commands, DaemonAction, Selector, Startup, Tag};
use tv::config::{
    Config, DefaultPermission, DefaultVisibility, LogLevel, OutputFormat, DEFAULT_CONFIG,
};

fn selector(s: &str) -> String {
    format!("{:?}", Selector::from_str(s))
}

#[test]
fn selectors() {
    assert_eq!(selector("@work"), "Ok(Tag(\"work\"))");
    assert_eq!(selector("@a b"), "Ok(Tag(\"a b\"))");
    assert_eq!(selector("3"), "Ok(Id(\"3\"))");
    assert_eq!(selector("aF09"), "Ok(Id(\"aF09\"))");
    assert_eq!(selector("@"), "Err(\"tag name cannot be empty\")");
    assert_eq!(selector(""), "Err(\"expected 1-4 hex chars or @tag, got ''\")");
    assert_eq!(selector("12345"), "Err(\"expected 1-4 hex chars or @tag, got '12345'\")");
    assert_eq!(selector("xyz"), "Err(\"expected 1-4 hex chars or @tag, got 'xyz'\")");
}

#[test]
fn selectors_read_back() {
    for s in ["@work", "3", "aF09", "@@x"] {
        assert_eq!(Selector::from_str(s).unwrap().to_string(), s);
    }
}

#[test]
fn tags() {
    assert_eq!(Tag::from_str("@work").unwrap().0, "work");
    assert_eq!(Tag::from_str("@a-b_9").unwrap().0, "a-b_9");
    assert_eq!(Tag::from_str("@ñu").unwrap().0, "ñu");
    assert_eq!(Tag::from_str("work").unwrap_err(), "tag must start with @");
    assert_eq!(Tag::from_str("@").unwrap_err(), "tag name cannot be empty");
    assert_eq!(Tag::from_str("@a b").unwrap_err(), "tag must be alphanumeric (with - or _)");
    assert_eq!(Tag::from_str("@@x").unwrap_err(), "tag must be alphanumeric (with - or _)");
    assert_eq!(Tag("x".to_string()).to_string(), "@x");
}

#[test]
fn every_tag_is_a_selector() {
    for s in ["@work", "@a-b_9", "@12"] {
        let tag = Tag::from_str(s).unwrap();
        assert!(matches!(Selector::from_str(s), Ok(Selector::Tag(t)) if t == tag.0));
    }
}

#[test]
fn default_configuration() {
    let config = Config::default();
    assert_eq!(config.default_visibility, DefaultVisibility::Visible);
    assert_eq!(config.default_permission, DefaultPermission::Prompt);
    assert_eq!(config.output_format, OutputFormat::Pretty);
    assert_eq!(config.history_size, 10000);
    assert_eq!(config.send_delay_ms, 50);
    assert_eq!(config.idle_threshold_ms, 1000);
    assert_eq!(config.log_level, LogLevel::Info);
}

#[test]
fn the_default_file_sets_the_defaults() {
    let file: toml::Table = DEFAULT_CONFIG.parse().unwrap();
    assert_eq!(file["default_visibility"].as_str(), Some("visible"));
    assert_eq!(file["default_permission"].as_str(), Some("prompt"));
    assert_eq!(file["output_format"].as_str(), Some("pretty"));
    assert_eq!(file["history_size"].as_integer(), Some(10000));
    assert_eq!(file["send_delay_ms"].as_integer(), Some(50));
    assert_eq!(file["idle_threshold_ms"].as_integer(), Some(1000));
    assert_eq!(file["log_level"].as_str(), Some("info"));
    assert_eq!(file.len(), 7);
}

#[test]
fn configuration_paths() {
    let xdg = || Some(b"/x".to_vec());
    let home = || Some(b"/home/u/".to_vec());
    assert_eq!(Config::dir(xdg(), home()), Some(b"/x/tv".to_vec()));
    assert_eq!(Config::dir(None, home()), Some(b"/home/u/.config/tv".to_vec()));
    assert_eq!(Config::dir(Some(vec![]), None), Some(b"tv".to_vec()));
    assert_eq!(Config::dir(None, None), None);
    assert_eq!(Config::path(xdg(), None), Some(b"/x/tv/config.toml".to_vec()));
    assert_eq!(Config::path(None, home()), Some(b"/home/u/.config/tv/config.toml".to_vec()));
    assert_eq!(Config::path(None, None), None);
}

#[test]
fn startups() {
    let tag = |s: &str| Some(Tag(s.to_string()));
    let run = |tag, command| Cli { tag, command }.startup();
    assert!(matches!(run(None, None), Startup::Session { tag: None }));
    assert!(matches!(run(tag("a"), None), Startup::Session { tag: Some(t) } if t == "a"));
    let new = Commands::New { tag: tag("b") };
    assert!(matches!(run(tag("a"), Some(new)), Startup::Session { tag: Some(t) } if t == "b"));
    let new = Commands::New { tag: None };
    assert!(matches!(run(tag("a"), Some(new)), Startup::Session { tag: Some(t) } if t == "a"));
    let daemon = Commands::Daemon { action: DaemonAction::Stop };
    assert!(matches!(run(None, Some(daemon)), Startup::Daemon(DaemonAction::Stop)));
    assert!(matches!(run(None, Some(Commands::Llms)), Startup::Reference));
    let show = Commands::Show { selector: None };
    assert!(matches!(run(None, Some(show)), Startup::Client(Commands::Show { selector: None })));
}
