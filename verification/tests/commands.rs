use todo_list::parse::{parse_line, Command};

#[test]
fn parse_bare_keywords() {
    assert!(matches!(parse_line("list\n", 0), Command::ListAll));
    assert!(matches!(parse_line("help\n", 0), Command::Help));
    assert!(matches!(parse_line("new\n", 0), Command::New));
    assert!(matches!(parse_line("exit\n", 0), Command::Exit));
}

#[test]
fn parse_tolerates_surrounding_whitespace() {
    assert!(matches!(parse_line("  list  \n", 0), Command::ListAll));
    assert!(matches!(parse_line("\texit\t\n", 0), Command::Exit));
}

#[test]
fn parse_is_case_sensitive() {
    match parse_line("List\n", 0) {
        Command::Error(m) => assert!(m.starts_with("Input not recognized")),
        _ => panic!("an unknown keyword must give an error"),
    }
}

#[test]
fn parse_add_takes_the_text() {
    match parse_line("add -buy milk\n", 0) {
        Command::Add(t) => assert_eq!(t, "buy milk"),
        _ => panic!("add with text must parse"),
    }
}

#[test]
fn parse_add_without_text_is_an_error() {
    match parse_line("add\n", 0) {
        Command::Error(m) => assert_eq!(m, "[add] requires a non-empty text parameter [-text]"),
        _ => panic!("add without text must give an error"),
    }
    match parse_line("add -   \n", 0) {
        Command::Error(m) => assert_eq!(m, "[add] requires a non-empty text parameter [-text]"),
        _ => panic!("add with blank text must give an error"),
    }
}

#[test]
fn parse_update_takes_index_and_text() {
    match parse_line("update -1 -new text\n", 2) {
        Command::UpdateText(i, t) => {
            assert_eq!(i, 1);
            assert_eq!(t, "new text");
        }
        _ => panic!("update with index and text must parse"),
    }
}

#[test]
fn parse_update_rejects_a_bad_number() {
    match parse_line("update -one -text\n", 9) {
        Command::Error(m) => assert!(m.starts_with("The first parameter should be a positive integer")),
        _ => panic!("a word is no index"),
    }
}

#[test]
fn parse_update_rejects_an_oversized_number() {
    match parse_line("update -99999999999 -text\n", 9) {
        Command::Error(m) => assert!(m.starts_with("The first parameter should be a positive integer")),
        _ => panic!("a number past the id type is no index"),
    }
}

#[test]
fn parse_update_rejects_an_index_out_of_range() {
    match parse_line("update -5 -text\n", 2) {
        Command::Error(m) => assert!(m.starts_with("The specified index is outside")),
        _ => panic!("an index above the counter is out of range"),
    }
}

#[test]
fn parse_complete_takes_the_index() {
    assert!(matches!(parse_line("complete -0\n", 1), Command::Complete(0)));
    match parse_line("complete -abc\n", 1) {
        Command::Error(m) => assert!(m.starts_with("The first parameter should be a positive integer")),
        _ => panic!("a word is no index"),
    }
    match parse_line("complete -9\n", 1) {
        Command::Error(m) => assert!(m.starts_with("The specified index is outside")),
        _ => panic!("an index above the counter is out of range"),
    }
}

#[test]
fn parse_save_and_load_take_the_filename() {
    match parse_line("save -mylist\n", 0) {
        Command::Save(f) => assert_eq!(f, "mylist"),
        _ => panic!("save with a name must parse"),
    }
    match parse_line("load -mylist\n", 0) {
        Command::Load(f) => assert_eq!(f, "mylist"),
        _ => panic!("load with a name must parse"),
    }
    match parse_line("save\n", 0) {
        Command::Error(m) => assert!(m.starts_with("A filename parameter is required")),
        _ => panic!("save without a name must give an error"),
    }
}

#[test]
fn parse_unknown_keyword_is_an_error() {
    match parse_line("remove -1\n", 5) {
        Command::Error(m) => assert!(m.contains("Use command [help]")),
        _ => panic!("an unknown keyword must give an error"),
    }
}

#[test]
fn parse_takes_only_the_expected_tokens() {
    // A dash inside later text starts a new token; update reads the third
    // token and leaves the rest.
    match parse_line("update -1 -new-text\n", 2) {
        Command::UpdateText(i, t) => {
            assert_eq!(i, 1);
            assert_eq!(t, "new");
        }
        _ => panic!("update with extra dashes still parses"),
    }
    match parse_line("add -a-b\n", 0) {
        Command::Add(t) => assert_eq!(t, "a"),
        _ => panic!("add with extra dashes still parses"),
    }
}

#[test]
fn parse_empty_line_is_an_error() {
    match parse_line("\n", 0) {
        Command::Error(m) => assert!(m.contains("Use command [help]")),
        _ => panic!("an empty line names no command"),
    }
    match parse_line("", 0) {
        Command::Error(m) => assert!(m.contains("Use command [help]")),
        _ => panic!("an empty line names no command"),
    }
}

#[test]
fn parse_line_without_newline_still_parses() {
    assert!(matches!(parse_line("list", 0), Command::ListAll));
    match parse_line("add -x", 0) {
        Command::Add(t) => assert_eq!(t, "x"),
        _ => panic!("a line without a break still parses"),
    }
}
