use todo_list::list::{TodoElement, TodoError, TodoList};

fn sample(text: &str) -> String {
    String::from(text)
}

#[test]
fn add_assigns_sequential_ids() {
    let mut list = TodoList::new();
    assert_eq!(list.add(sample("buy milk")), Ok(0));
    assert_eq!(list.add(sample("walk dog")), Ok(1));
    assert_eq!(list.add(sample("water plants")), Ok(2));
    assert_eq!(list.index, 3);
    assert_eq!(list.entries.len(), 3);
    for (k, e) in list.entries.iter().enumerate() {
        assert_eq!(e.id, k as u32);
        assert!(!e.done);
    }
    assert_eq!(list.entries[0].text, "buy milk");
    assert_eq!(list.entries[1].text, "walk dog");
    assert_eq!(list.entries[2].text, "water plants");
}

#[test]
fn add_empty_text_rejected() {
    let mut list = TodoList::new();
    assert_eq!(list.add(sample("a")), Ok(0));
    assert_eq!(list.add(sample("")), Err(TodoError::EmptyText));
    assert_eq!(list.entries.len(), 1);
    assert_eq!(list.index, 1);
    assert_eq!(list.entries[0].text, "a");
}

#[test]
fn add_with_spent_counter_rejected() {
    let text = "{\"entries\":[],\"index\":4294967295}";
    let mut list = TodoList::from_storage(text).expect("a spent counter is well-formed");
    assert_eq!(list.add(sample("one more")), Err(TodoError::CounterFull));
    assert_eq!(list.entries.len(), 0);
    assert_eq!(list.index, 4294967295);
}

#[test]
fn update_text_follows_id_not_position() {
    let text = "{\"entries\":[{\"id\":2,\"text\":\"b\",\"done\":false},{\"id\":0,\"text\":\"a\",\"done\":true},{\"id\":1,\"text\":\"c\",\"done\":false}],\"index\":3}";
    let mut list = TodoList::from_storage(text).expect("well-formed storage text");
    assert_eq!(list.update_text(0, sample("renamed")), Ok(()));
    assert_eq!(list.entries[0].text, "b");
    assert_eq!(list.entries[1].text, "renamed");
    assert!(list.entries[1].done);
    assert_eq!(list.entries[2].text, "c");
}

#[test]
fn complete_follows_id_not_position() {
    let text = "{\"entries\":[{\"id\":2,\"text\":\"b\",\"done\":false},{\"id\":0,\"text\":\"a\",\"done\":false},{\"id\":1,\"text\":\"c\",\"done\":false}],\"index\":3}";
    let mut list = TodoList::from_storage(text).expect("well-formed storage text");
    assert_eq!(list.complete(1), Ok(()));
    assert!(!list.entries[0].done);
    assert!(!list.entries[1].done);
    assert!(list.entries[2].done);
    assert_eq!(list.entries[2].text, "c");
}

#[test]
fn update_absent_id_leaves_list_unchanged() {
    let mut list = TodoList::new();
    list.add(sample("a")).unwrap();
    list.add(sample("b")).unwrap();
    assert_eq!(list.update_text(5, sample("x")), Err(TodoError::NotFound));
    assert_eq!(list.complete(7), Err(TodoError::NotFound));
    assert_eq!(list.entries.len(), 2);
    assert_eq!(list.entries[0].text, "a");
    assert_eq!(list.entries[1].text, "b");
    assert!(!list.entries[0].done);
    assert!(!list.entries[1].done);
    assert_eq!(list.index, 2);
}

#[test]
fn counter_not_tied_to_entry_count() {
    let text = "{\"entries\":[{\"id\":4,\"text\":\"kept\",\"done\":false}],\"index\":5}";
    let mut list = TodoList::from_storage(text).expect("well-formed storage text");
    assert_eq!(list.add(sample("fresh")), Ok(5));
    assert_eq!(list.index, 6);
    assert_eq!(list.entries[1].id, 5);
}

#[test]
fn element_new_keeps_fields() {
    let e = TodoElement::new(7, sample("thing"), true);
    assert_eq!(e.id, 7);
    assert_eq!(e.text, "thing");
    assert!(e.done);
}

#[test]
fn list_all_renders_each_task() {
    let mut list = TodoList::new();
    list.add(sample("buy milk")).unwrap();
    list.add(sample("walk dog")).unwrap();
    list.complete(1).unwrap();
    let lines = list.list_all();
    assert_eq!(lines.len(), 2);
    assert_eq!(lines[0], "Id: 0 - Status: [Uncompleted]\nTask: buy milk");
    assert_eq!(lines[1], "Id: 1 - Status: [Completed]\nTask: walk dog");
}
