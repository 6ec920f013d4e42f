use todo_list::list::TodoList;

#[test]
fn to_storage_of_empty_list() {
    let list = TodoList::new();
    assert_eq!(list.to_storage(), "{\"entries\":[],\"index\":0}");
}

#[test]
fn to_storage_of_one_task() {
    let mut list = TodoList::new();
    list.add(String::from("buy milk")).unwrap();
    assert_eq!(
        list.to_storage(),
        "{\"entries\":[{\"id\":0,\"text\":\"buy milk\",\"done\":false}],\"index\":1}"
    );
}

#[test]
fn to_storage_escapes_quote_and_backslash() {
    let mut list = TodoList::new();
    list.add(String::from("say \"hi\" \\ wave")).unwrap();
    assert_eq!(
        list.to_storage(),
        "{\"entries\":[{\"id\":0,\"text\":\"say \\\"hi\\\" \\\\ wave\",\"done\":false}],\"index\":1}"
    );
}

#[test]
fn round_trip_keeps_entries_and_counter() {
    let mut list = TodoList::new();
    list.add(String::from("buy milk")).unwrap();
    list.add(String::from("walk dog")).unwrap();
    list.complete(0).unwrap();
    let text = list.to_storage();
    let back = TodoList::from_storage(&text).expect("the writer's text reads back");
    assert_eq!(back.index, list.index);
    assert_eq!(back.entries.len(), list.entries.len());
    for (a, b) in list.entries.iter().zip(back.entries.iter()) {
        assert_eq!(a.id, b.id);
        assert_eq!(a.text, b.text);
        assert_eq!(a.done, b.done);
    }
}

#[test]
fn round_trip_keeps_escaped_text() {
    let mut list = TodoList::new();
    list.add(String::from("a \\ b \" c")).unwrap();
    let text = list.to_storage();
    let back = TodoList::from_storage(&text).expect("the writer's text reads back");
    assert_eq!(back.entries[0].text, "a \\ b \" c");
}

#[test]
fn from_storage_rejects_garbage() {
    assert!(TodoList::from_storage("hello").is_none());
    assert!(TodoList::from_storage("").is_none());
    assert!(TodoList::from_storage("{\"entries\":[").is_none());
}

#[test]
fn from_storage_rejects_duplicate_ids() {
    let text = "{\"entries\":[{\"id\":1,\"text\":\"a\",\"done\":false},{\"id\":1,\"text\":\"b\",\"done\":false}],\"index\":2}";
    assert!(TodoList::from_storage(text).is_none());
}

#[test]
fn from_storage_rejects_id_at_counter() {
    let text = "{\"entries\":[{\"id\":3,\"text\":\"a\",\"done\":false}],\"index\":3}";
    assert!(TodoList::from_storage(text).is_none());
}

#[test]
fn from_storage_rejects_trailing_text() {
    let text = "{\"entries\":[],\"index\":0} ";
    assert!(TodoList::from_storage(text).is_none());
}

#[test]
fn from_storage_rejects_oversized_counter() {
    let text = "{\"entries\":[],\"index\":4294967296}";
    assert!(TodoList::from_storage(text).is_none());
}

#[test]
fn from_storage_accepts_sparse_ids() {
    let text = "{\"entries\":[{\"id\":0,\"text\":\"a\",\"done\":true},{\"id\":2,\"text\":\"b\",\"done\":false}],\"index\":5}";
    let list = TodoList::from_storage(text).expect("sparse ids below the counter are well-formed");
    assert_eq!(list.index, 5);
    assert_eq!(list.entries.len(), 2);
    assert_eq!(list.entries[0].id, 0);
    assert!(list.entries[0].done);
    assert_eq!(list.entries[1].id, 2);
    assert_eq!(list.entries[1].text, "b");
}
