use bro::{rank, Cli, FetchError, LookupRecord};
use bro::Action;

fn record(command: &str, message: &str, popularity: i32) -> LookupRecord {
    LookupRecord { command: command.to_string(), message: message.to_string(), popularity }
}

#[test]
fn ranking_is_stable_and_ascending() {
    let input = vec![
        record("a", "first three", 3),
        record("b", "one", 1),
        record("c", "second three", 3),
        record("d", "two", 2),
    ];
    let out = rank(&input);
    let messages: Vec<&str> = out.iter().map(|r| r.message.as_str()).collect();
    assert_eq!(messages, vec!["one", "two", "first three", "second three"]);
    let popularity: Vec<i32> = out.iter().map(|r| r.popularity).collect();
    assert_eq!(popularity, vec![1, 2, 3, 3]);
}

#[test]
fn ranking_nothing_gives_nothing() {
    assert!(rank(&Vec::new()).is_empty());
}

#[test]
fn ranking_handles_negative_and_extreme_popularity() {
    let input = vec![
        record("x", "max", i32::MAX),
        record("y", "min", i32::MIN),
        record("z", "zero", 0),
        record("w", "minus", -5),
    ];
    let out = rank(&input);
    let messages: Vec<&str> = out.iter().map(|r| r.message.as_str()).collect();
    assert_eq!(messages, vec!["min", "minus", "zero", "max"]);
}

#[test]
fn lookup_renders_messages_in_ranked_order() {
    let cli = cli_for("tar");
    let fetched = Ok(vec![
        record("tar", "# extract\ntar xf a.tar", 5),
        record("tar", "# create\ntar cf a.tar dir", 2),
    ]);
    match cli.lookup(fetched) {
        Action::Render { document } => {
            assert_eq!(document, "# create\ntar cf a.tar dir\n\n# extract\ntar xf a.tar\n");
        }
        other => panic!("unexpected {:?}", other),
    }
}

#[test]
fn lookup_failure_with_status_renders_nothing_and_fails() {
    let cli = cli_for("tar");
    let action = cli.lookup(Err(FetchError::Status(500)));
    assert_eq!(
        action,
        Action::Fail { message: "Unable to find because of:\n  - status code 500".to_string() }
    );
    assert_ne!(action.exit_code(), 0);
}

fn cli_for(query: &str) -> Cli {
    Cli {
        list_themes: false,
        no_color: false,
        no_paging: false,
        query: query.to_string(),
        search: false,
        theme: None,
        themes: Vec::new(),
    }
}
