use todo_list::list::TodoList;
use todo_list::parse::parse_line;
use todo_list::repl::{help, Action};

fn run(list: &mut TodoList, line: &str) -> Action {
    let limit = list.index;
    list.step(parse_line(line, limit))
}

#[test]
fn help_shows_every_command() {
    let lines = help();
    assert_eq!(lines.len(), 10);
    assert_eq!(lines[0], "Commands:");
    assert!(lines.iter().any(|l| l.starts_with("add")));
    assert!(lines.iter().any(|l| l.starts_with("exit")));
}

#[test]
fn step_prints_parse_errors() {
    let mut list = TodoList::new();
    match run(&mut list, "frobnicate\n") {
        Action::Print(lines) => {
            assert_eq!(lines.len(), 1);
            assert!(lines[0].contains("Use command [help]"));
        }
        _ => panic!("an unknown command only prints"),
    }
    assert_eq!(list.entries.len(), 0);
}

#[test]
fn step_update_of_absent_id_prints_range_error() {
    let mut list = TodoList::new();
    run(&mut list, "add -a\n");
    match run(&mut list, "update -1 -b\n") {
        Action::Print(lines) => {
            assert_eq!(lines.len(), 1);
            assert!(lines[0].starts_with("The specified index is outside"));
        }
        _ => panic!("an absent id only prints"),
    }
    assert_eq!(list.entries[0].text, "a");
}

#[test]
fn session_add_list_complete_save_new_load() {
    let mut list = TodoList::new();

    assert!(matches!(run(&mut list, "add -buy milk\n"), Action::Print(v) if v.is_empty()));
    assert!(matches!(run(&mut list, "add -walk dog\n"), Action::Print(v) if v.is_empty()));

    match run(&mut list, "list\n") {
        Action::Print(lines) => {
            assert_eq!(lines.len(), 2);
            assert_eq!(lines[0], "Id: 0 - Status: [Uncompleted]\nTask: buy milk");
            assert_eq!(lines[1], "Id: 1 - Status: [Uncompleted]\nTask: walk dog");
        }
        _ => panic!("list only prints"),
    }

    assert!(matches!(run(&mut list, "complete -0\n"), Action::Print(v) if v.is_empty()));

    match run(&mut list, "list\n") {
        Action::Print(lines) => {
            assert_eq!(lines[0], "Id: 0 - Status: [Completed]\nTask: buy milk");
            assert_eq!(lines[1], "Id: 1 - Status: [Uncompleted]\nTask: walk dog");
        }
        _ => panic!("list only prints"),
    }

    let saved = match run(&mut list, "save -a.json\n") {
        Action::Save(name, content) => {
            assert_eq!(name, "a.json");
            content
        }
        _ => panic!("save hands the file out"),
    };

    assert!(matches!(run(&mut list, "new\n"), Action::Print(v) if v.is_empty()));
    assert_eq!(list.entries.len(), 0);
    assert_eq!(list.index, 0);

    let name = match run(&mut list, "load -a.json\n") {
        Action::Load(name) => name,
        _ => panic!("load asks for the file"),
    };
    assert_eq!(name, "a.json");
    let messages = list.load_text(&saved);
    assert!(messages.is_empty());

    match run(&mut list, "list\n") {
        Action::Print(lines) => {
            assert_eq!(lines.len(), 2);
            assert_eq!(lines[0], "Id: 0 - Status: [Completed]\nTask: buy milk");
            assert_eq!(lines[1], "Id: 1 - Status: [Uncompleted]\nTask: walk dog");
        }
        _ => panic!("list only prints"),
    }
    assert_eq!(list.index, 2);
}

#[test]
fn step_exit_stops_the_loop() {
    let mut list = TodoList::new();
    assert!(matches!(run(&mut list, "exit\n"), Action::Exit));
}

#[test]
fn load_text_of_bad_content_keeps_the_store() {
    let mut list = TodoList::new();
    run(&mut list, "add -keep me\n");
    let messages = list.load_text("not a stored list");
    assert_eq!(messages.len(), 1);
    assert_eq!(
        messages[0],
        "Unable to read Todo list, are you sure the file exists?"
    );
    assert_eq!(list.entries.len(), 1);
    assert_eq!(list.entries[0].text, "keep me");
}
