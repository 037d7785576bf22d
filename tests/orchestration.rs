use bro::{decimal, is_blank, Action, Cli, Config, FetchError, Mode, Pager, SearchRecord, SyntaxHighlight};

fn cli(query: &str, search: bool, list_themes: bool) -> Cli {
    Cli {
        list_themes,
        no_color: false,
        no_paging: false,
        query: query.to_string(),
        search,
        theme: None,
        themes: vec!["OneHalfDark".to_string(), "Nord".to_string()],
    }
}

fn found(names: &[&str]) -> Vec<SearchRecord> {
    names.iter().map(|n| SearchRecord { command: n.to_string() }).collect()
}

#[test]
fn search_with_no_matches_has_header_only() {
    let action = cli("zzz", true, false).search(Ok(Vec::new()));
    assert_eq!(
        action,
        Action::Render { document: "# Total 0 matches for the term 'zzz':\n".to_string() }
    );
}

#[test]
fn search_lists_matches_after_header() {
    let action = cli("ta", true, false).search(Ok(found(&["tar", "tail"])));
    assert_eq!(
        action,
        Action::Render {
            document: "# Total 2 matches for the term 'ta':\ntar\ntail\n".to_string()
        }
    );
}

#[test]
fn search_failure_reports_each_cause() {
    let c = cli("x", true, false);
    assert_eq!(
        c.search(Err(FetchError::Transport("connection refused".to_string()))),
        Action::Fail {
            message: "Unable to find because of:\n  - transport error: connection refused"
                .to_string()
        }
    );
    assert_eq!(
        c.search(Err(FetchError::Decode("expected an array".to_string()))),
        Action::Fail {
            message: "Unable to find because of:\n  - malformed response: expected an array"
                .to_string()
        }
    );
    let status = c.search(Err(FetchError::Status(404)));
    assert_eq!(
        status,
        Action::Fail { message: "Unable to find because of:\n  - status code 404".to_string() }
    );
    assert_eq!(status.exit_code(), 1);
}

#[test]
fn error_detail_names_the_status_code() {
    assert_eq!(FetchError::Status(503).detail(), "status code 503");
    assert_eq!(FetchError::Status(0).detail(), "status code 0");
}

#[test]
fn run_fetches_lookup_path() {
    assert_eq!(
        cli("tar", false, false).run(),
        Action::Fetch { mode: Mode::Lookup, path: "/tar.json".to_string() }
    );
}

#[test]
fn run_fetches_search_path() {
    assert_eq!(
        cli("tar", true, false).run(),
        Action::Fetch { mode: Mode::Search, path: "/search/tar.json".to_string() }
    );
}

#[test]
fn run_lists_themes_before_anything_else() {
    assert_eq!(cli("", true, true).run(), Action::ListThemes);
    assert_eq!(cli("tar", false, true).mode(), Mode::ListThemes);
}

#[test]
fn run_rejects_blank_query() {
    let message = "Query cannot be empty, please input something.\nEg: bro tar".to_string();
    for query in ["", "   ", "\t\n", "\u{3000}"] {
        let action = cli(query, false, false).run();
        assert_eq!(action, Action::Reject { message: message.clone() });
        assert_eq!(action.exit_code(), 1);
    }
}

#[test]
fn render_fallback_prints_plain_text() {
    assert_eq!(
        Cli::after_render("ls\n".to_string(), false),
        Action::PrintPlain { document: "ls\n".to_string() }
    );
    let done = Cli::after_render("ls\n".to_string(), true);
    assert_eq!(done, Action::Done);
    assert_eq!(done.exit_code(), 0);
    assert_eq!(Action::PrintPlain { document: String::new() }.exit_code(), 0);
}

#[test]
fn defaults_resolve_the_same_every_time() {
    for _ in 0..3 {
        let config = Config::resolve(false, false, &None, false);
        assert_eq!(config.syntax, SyntaxHighlight::On);
        assert_eq!(config.pager, Pager::On);
        assert_eq!(config.theme, "OneHalfDark");
        assert!(config.color_enabled());
        assert!(config.paging_enabled());
    }
}

#[test]
fn either_no_color_signal_turns_colour_off() {
    assert_eq!(Config::resolve(true, false, &None, false).syntax, SyntaxHighlight::Off);
    assert_eq!(Config::resolve(false, false, &None, true).syntax, SyntaxHighlight::Off);
    assert_eq!(Config::resolve(true, false, &None, true).syntax, SyntaxHighlight::Off);
}

#[test]
fn paging_flag_and_theme_are_applied() {
    let config = Config::resolve(false, true, &Some("Nord".to_string()), false);
    assert_eq!(config.pager, Pager::Off);
    assert!(!config.paging_enabled());
    assert_eq!(config.theme, "Nord");
    let mut c = cli("tar", false, false);
    c.no_color = true;
    c.theme = Some("gruvbox".to_string());
    let from_cli = c.config(false);
    assert_eq!(from_cli.syntax, SyntaxHighlight::Off);
    assert_eq!(from_cli.theme, "gruvbox");
}

#[test]
fn decimal_writes_digits() {
    assert_eq!(decimal(0), "0");
    assert_eq!(decimal(7), "7");
    assert_eq!(decimal(1234), "1234");
    assert_eq!(decimal(u64::MAX), u64::MAX.to_string());
}

#[test]
fn blank_text_is_white_space_only() {
    assert!(is_blank(""));
    assert!(is_blank(" \t\r\n\u{a0}\u{2003}"));
    assert!(!is_blank(" a "));
}
