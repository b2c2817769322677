//! Tests of the store protocol: lenient load, strict append and remove, and
//! the round trip through the backing file's text.

use todo_cli::Db;
use todo_cli::model::Error;
use todo_cli::model::InputStates;
use todo_cli::model::TodoItem;

fn chars(s: &str) -> Vec<char> {
    s.chars().collect()
}

fn text(v: &Vec<char>) -> String {
    v.iter().collect()
}

fn inputs(name: &str, category: &str, text: &str) -> InputStates {
    InputStates { name: chars(name), category: chars(category), text: chars(text) }
}

#[test]
fn load_missing_file_initializes_empty() {
    let mut db = Db::new(None);
    let items = db.load();
    assert_eq!(items.len(), 0);
    assert_eq!(db.content, Some(chars("[]")));
}

#[test]
fn load_unparsable_file_is_empty_and_untouched() {
    let mut db = Db::new(Some(chars("this is not a list")));
    let items = db.load();
    assert_eq!(items.len(), 0);
    assert_eq!(db.content, Some(chars("this is not a list")));
}

#[test]
fn load_empty_array() {
    let mut db = Db::new(Some(chars("[]")));
    let items = db.load();
    assert_eq!(items.len(), 0);
}

#[test]
fn append_on_missing_file_fails() {
    let mut db = Db::new(None);
    let r = db.append(&inputs("a", "b", "c"));
    assert_eq!(r.unwrap_err(), Error::ReadDBError);
    assert_eq!(db.content, None);
}

#[test]
fn append_on_unparsable_file_fails() {
    let mut db = Db::new(Some(chars("{broken")));
    let r = db.append(&inputs("a", "b", "c"));
    assert_eq!(r.unwrap_err(), Error::ParseDBError);
    assert_eq!(db.content, Some(chars("{broken")));
}

#[test]
fn append_uppercases_category_and_draws_small_id() {
    let mut db = Db::new(Some(chars("[]")));
    let list = db.append(&inputs("Milk", "shopping", "buy milk")).unwrap();
    assert_eq!(list.len(), 1);
    assert_eq!(text(&list[0].name), "Milk");
    assert_eq!(text(&list[0].category), "SHOPPING");
    assert_eq!(text(&list[0].text), "buy milk");
    assert!(list[0].id < 9999999);
}

#[test]
fn append_then_load_round_trips_field_for_field() {
    let mut db = Db::new(Some(chars("[]")));
    let written = db.append(&inputs("Quote\"s \\and\nlines", "mixedCase", "x\t\r")).unwrap();
    let loaded = db.load();
    assert_eq!(loaded.len(), written.len());
    for (w, l) in written.iter().zip(loaded.iter()) {
        assert_eq!(w.id, l.id);
        assert_eq!(w.name, l.name);
        assert_eq!(w.category, l.category);
        assert_eq!(w.text, l.text);
        assert_eq!(w.created_at, l.created_at);
    }
}

#[test]
fn two_appends_keep_insertion_order() {
    let mut db = Db::new(Some(chars("[]")));
    db.append(&inputs("first", "a", "1")).unwrap();
    db.append(&inputs("second", "b", "2")).unwrap();
    let loaded = db.load();
    assert_eq!(loaded.len(), 2);
    assert_eq!(text(&loaded[0].name), "first");
    assert_eq!(text(&loaded[1].name), "second");
}

#[test]
fn remove_at_drops_exactly_the_indexed_item() {
    let mut db = Db::new(Some(chars("[]")));
    db.append(&inputs("first", "a", "1")).unwrap();
    db.append(&inputs("second", "b", "2")).unwrap();
    db.append(&inputs("third", "c", "3")).unwrap();
    db.remove_at(1).unwrap();
    let loaded = db.load();
    assert_eq!(loaded.len(), 2);
    assert_eq!(text(&loaded[0].name), "first");
    assert_eq!(text(&loaded[1].name), "third");
}

#[test]
fn remove_at_out_of_bounds_fails() {
    let mut db = Db::new(Some(chars("[]")));
    db.append(&inputs("only", "a", "1")).unwrap();
    let before = db.content.clone();
    assert_eq!(db.remove_at(1).unwrap_err(), Error::IndexOutOfBounds);
    assert_eq!(db.content, before);
}

#[test]
fn remove_at_on_missing_file_fails() {
    let mut db = Db::new(None);
    assert_eq!(db.remove_at(0).unwrap_err(), Error::ReadDBError);
}

#[test]
fn remove_at_on_unparsable_file_fails() {
    let mut db = Db::new(Some(chars("nonsense")));
    assert_eq!(db.remove_at(0).unwrap_err(), Error::ParseDBError);
}

#[test]
fn encode_has_exact_canonical_shape() {
    let items = vec![TodoItem {
        id: 42,
        name: chars("Milk"),
        category: chars("SHOPPING"),
        text: chars("buy milk"),
        created_at: chars("2023-01-02T03:04:05+00:00"),
    }];
    let encoded: String = todo_cli::encode_todos(&items).iter().collect();
    assert_eq!(
        encoded,
        "[{\"id\":42,\"name\":\"Milk\",\"category\":\"SHOPPING\",\"text\":\"buy milk\",\
         \"created_at\":\"2023-01-02T03:04:05+00:00\"}]"
    );
}

#[test]
fn parse_inverts_encode_with_escapes() {
    let items = vec![
        TodoItem {
            id: 0,
            name: chars("a\"b"),
            category: chars("C\\D"),
            text: chars("line\nbreak\ttab\rret"),
            created_at: chars(""),
        },
        TodoItem {
            id: 9999998,
            name: chars(""),
            category: chars(""),
            text: chars(""),
            created_at: chars("t"),
        },
    ];
    let encoded = todo_cli::encode_todos(&items);
    let parsed = todo_cli::parse_todos(&encoded).unwrap();
    assert_eq!(parsed.len(), 2);
    for (a, b) in items.iter().zip(parsed.iter()) {
        assert_eq!(a.id, b.id);
        assert_eq!(a.name, b.name);
        assert_eq!(a.category, b.category);
        assert_eq!(a.text, b.text);
        assert_eq!(a.created_at, b.created_at);
    }
}

#[test]
fn parse_rejects_trailing_text_and_bad_numbers() {
    assert!(todo_cli::parse_todos(&chars("[]x")).is_none());
    assert!(todo_cli::parse_todos(&chars("")).is_none());
    assert!(todo_cli::parse_todos(&chars("{")).is_none());
    assert!(
        todo_cli::parse_todos(
            &chars("[{\"id\":99999999999999999999,\"name\":\"\",\"category\":\"\",\"text\":\"\",\"created_at\":\"\"}]")
        )
        .is_none()
    );
}
