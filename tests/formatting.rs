use bro::Cli;

fn strings(items: &[&str]) -> Vec<String> {
    items.iter().map(|s| s.to_string()).collect()
}

#[test]
fn heading_then_command_as_one_body() {
    let out = Cli::format_to_string(&strings(&["# heading\ndo-a-thing"]));
    assert_eq!(out, "# heading\ndo-a-thing\n");
}

#[test]
fn heading_then_command_as_two_bodies() {
    let out = Cli::format_to_string(&strings(&["# heading", "do-a-thing"]));
    assert_eq!(out, "# heading\ndo-a-thing\n");
}

#[test]
fn no_bodies_give_an_empty_document() {
    assert_eq!(Cli::format_to_string(&Vec::new()), "");
}

#[test]
fn bodies_of_empty_lines_contribute_nothing() {
    let out = Cli::format_to_string(&strings(&["", "\n\n", "\n"]));
    assert_eq!(out, "");
    let with_blanks = Cli::format_to_string(&strings(&["\n# a\n\n\nls\n", "", "\n# b\n"]));
    let without = Cli::format_to_string(&strings(&["# a\nls", "# b"]));
    assert_eq!(with_blanks, without);
}

#[test]
fn first_command_line_stands_alone() {
    let out = Cli::format_to_string(&strings(&["ls -la\ncat file"]));
    assert_eq!(out, "ls -la\ncat file\n");
}

#[test]
fn single_command_has_no_line_break() {
    assert_eq!(Cli::format_to_string(&strings(&["ls"])), "ls");
    assert_eq!(Cli::format_to_string(&strings(&["\n\nls\n"])), "ls");
}

#[test]
fn first_kept_line_may_come_from_a_later_body() {
    let out = Cli::format_to_string(&strings(&["\n", "ls\n# next"]));
    assert_eq!(out, "ls\n# next");
}

#[test]
fn heading_after_command_is_separated_by_one_blank_line() {
    let out = Cli::format_to_string(&strings(&["# list\nls", "# show\ncat x"]));
    assert_eq!(out, "# list\nls\n\n# show\ncat x\n");
}

#[test]
fn formatting_twice_gives_identical_output() {
    let input = strings(&["# one\nfirst", "\n# two\nsecond\n\n"]);
    let a = Cli::format_to_string(&input);
    let b = Cli::format_to_string(&input);
    assert_eq!(a, b);
    assert_eq!(a.as_bytes(), b.as_bytes());
}

#[test]
fn headings_only_leave_no_empty_line() {
    let out = Cli::format_to_string(&strings(&["# a\n\n# b", "\n\n# c"]));
    assert_eq!(out, "# a\n# b\n# c");
    assert!(out.split('\n').all(|line| !line.is_empty()));
}

#[test]
fn multibyte_text_is_kept_whole() {
    let out = Cli::format_to_string(&strings(&["# café\nécho ünïcode"]));
    assert_eq!(out, "# café\nécho ünïcode\n");
}

#[test]
fn non_empty_document_lines_are_the_kept_lines() {
    let input = strings(&["\n# a\nls -l\n\n", "", "cat x\n# b\n\n"]);
    let out = Cli::format_to_string(&input);
    let lines: Vec<&str> = out.split('\n').filter(|l| !l.is_empty()).collect();
    assert_eq!(lines, vec!["# a", "ls -l", "cat x", "# b"]);
}
