//! Tests of the dispatcher: the focus cycle, navigation wraparound,
//! deletion, submit, and the whole Add-a-record scenario.

use todo_cli::App;
use todo_cli::Db;
use todo_cli::Outcome;
use todo_cli::dispatch;
use todo_cli::model::FocusedInput;
use todo_cli::model::Key;
use todo_cli::model::MenuItem;
use todo_cli::remaining_timeout;
use todo_cli::selected_todo;
use todo_cli::tick_due;

fn chars(s: &str) -> Vec<char> {
    s.chars().collect()
}

fn text(v: &Vec<char>) -> String {
    v.iter().collect()
}

fn empty_db() -> Db {
    Db::new(Some(chars("[]")))
}

fn type_text(app: &mut App, db: &mut Db, s: &str) {
    for c in s.chars() {
        assert_eq!(dispatch(app, db, Key::Char(c)), Outcome::Continue);
    }
}

fn db_with(names: &[&str]) -> Db {
    let mut db = empty_db();
    for n in names {
        let inputs = todo_cli::model::InputStates {
            name: chars(n),
            category: chars("cat"),
            text: chars("body"),
        };
        db.append(&inputs).unwrap();
    }
    db
}

#[test]
fn add_one_record_scenario() {
    let mut db = empty_db();
    let mut app = App::new(0);
    assert_eq!(dispatch(&mut app, &mut db, Key::Char('a')), Outcome::Continue);
    assert_eq!(app.active_menu_item, MenuItem::Add);
    assert_eq!(dispatch(&mut app, &mut db, Key::Tab), Outcome::Continue);
    assert_eq!(app.focused_input, FocusedInput::Name);
    type_text(&mut app, &mut db, "Milk");
    assert_eq!(dispatch(&mut app, &mut db, Key::Tab), Outcome::Continue);
    assert_eq!(app.focused_input, FocusedInput::Category);
    type_text(&mut app, &mut db, "shopping");
    assert_eq!(dispatch(&mut app, &mut db, Key::Tab), Outcome::Continue);
    assert_eq!(app.focused_input, FocusedInput::Text);
    type_text(&mut app, &mut db, "buy milk");
    assert_eq!(dispatch(&mut app, &mut db, Key::Enter), Outcome::Continue);
    assert_eq!(app.focused_input, FocusedInput::NoFocus);
    assert_eq!(app.inputs.name.len(), 0);
    assert_eq!(app.inputs.category.len(), 0);
    assert_eq!(app.inputs.text.len(), 0);
    let items = db.load();
    assert_eq!(items.len(), 1);
    assert_eq!(text(&items[0].name), "Milk");
    assert_eq!(text(&items[0].category), "SHOPPING");
    assert_eq!(text(&items[0].text), "buy milk");
}

#[test]
fn submit_grows_list_by_one() {
    let mut db = db_with(&["a", "b"]);
    let mut app = App::new(2);
    dispatch(&mut app, &mut db, Key::Char('a'));
    dispatch(&mut app, &mut db, Key::Tab);
    type_text(&mut app, &mut db, "c");
    assert_eq!(dispatch(&mut app, &mut db, Key::Enter), Outcome::Continue);
    assert_eq!(db.load().len(), 3);
}

#[test]
fn enter_off_the_add_tab_is_a_no_op() {
    let mut db = empty_db();
    let before = db.content.clone();
    let mut app = App::new(0);
    dispatch(&mut app, &mut db, Key::Tab);
    type_text(&mut app, &mut db, "typed");
    assert_eq!(dispatch(&mut app, &mut db, Key::Enter), Outcome::Continue);
    assert_eq!(db.content, before);
    assert_eq!(text(&app.inputs.name), "typed");
    assert_eq!(db.load().len(), 0);
}

#[test]
fn enter_on_add_with_missing_file_is_fatal() {
    let mut db = Db::new(None);
    let mut app = App::new(0);
    dispatch(&mut app, &mut db, Key::Char('a'));
    let r = dispatch(&mut app, &mut db, Key::Enter);
    assert_eq!(r, Outcome::Fatal(todo_cli::model::Error::ReadDBError));
}

#[test]
fn enter_on_add_with_unparsable_file_is_fatal() {
    let mut db = Db::new(Some(chars("garbage")));
    let mut app = App::new(0);
    dispatch(&mut app, &mut db, Key::Char('a'));
    let r = dispatch(&mut app, &mut db, Key::Enter);
    assert_eq!(r, Outcome::Fatal(todo_cli::model::Error::ParseDBError));
}

#[test]
fn tab_cycles_name_category_text_name_regardless_of_tab() {
    let mut db = empty_db();
    let mut app = App::new(0);
    assert_eq!(app.active_menu_item, MenuItem::Home);
    let expect = [
        FocusedInput::Name,
        FocusedInput::Category,
        FocusedInput::Text,
        FocusedInput::Name,
        FocusedInput::Category,
    ];
    for f in expect {
        dispatch(&mut app, &mut db, Key::Tab);
        assert_eq!(app.focused_input, f);
    }
}

#[test]
fn esc_unfocuses_but_keeps_buffer() {
    let mut db = empty_db();
    let mut app = App::new(0);
    dispatch(&mut app, &mut db, Key::Tab);
    type_text(&mut app, &mut db, "kept");
    dispatch(&mut app, &mut db, Key::Esc);
    assert_eq!(app.focused_input, FocusedInput::NoFocus);
    assert_eq!(text(&app.inputs.name), "kept");
}

#[test]
fn backspace_edits_focused_buffer_only() {
    let mut db = empty_db();
    let mut app = App::new(0);
    dispatch(&mut app, &mut db, Key::Backspace);
    dispatch(&mut app, &mut db, Key::Tab);
    type_text(&mut app, &mut db, "ab");
    dispatch(&mut app, &mut db, Key::Backspace);
    assert_eq!(text(&app.inputs.name), "a");
    dispatch(&mut app, &mut db, Key::Backspace);
    dispatch(&mut app, &mut db, Key::Backspace);
    assert_eq!(text(&app.inputs.name), "");
}

#[test]
fn quit_only_in_navigation_mode() {
    let mut db = empty_db();
    let mut app = App::new(0);
    dispatch(&mut app, &mut db, Key::Tab);
    assert_eq!(dispatch(&mut app, &mut db, Key::Char('q')), Outcome::Continue);
    assert_eq!(text(&app.inputs.name), "q");
    dispatch(&mut app, &mut db, Key::Esc);
    assert_eq!(dispatch(&mut app, &mut db, Key::Char('q')), Outcome::Quit);
}

#[test]
fn down_wraps_after_len_presses() {
    let mut db = db_with(&["a", "b", "c"]);
    let mut app = App::new(3);
    app.cursor = Some(1);
    for _ in 0..3 {
        dispatch(&mut app, &mut db, Key::Down);
    }
    assert_eq!(app.cursor, Some(1));
    dispatch(&mut app, &mut db, Key::Down);
    assert_eq!(app.cursor, Some(2));
    dispatch(&mut app, &mut db, Key::Down);
    assert_eq!(app.cursor, Some(0));
}

#[test]
fn up_wraps_after_len_presses() {
    let mut db = db_with(&["a", "b", "c"]);
    let mut app = App::new(3);
    for _ in 0..3 {
        dispatch(&mut app, &mut db, Key::Up);
    }
    assert_eq!(app.cursor, Some(0));
    dispatch(&mut app, &mut db, Key::Up);
    assert_eq!(app.cursor, Some(2));
}

#[test]
fn delete_moves_cursor_up_and_drops_item() {
    let mut db = db_with(&["a", "b", "c"]);
    let mut app = App::new(3);
    app.cursor = Some(1);
    assert_eq!(dispatch(&mut app, &mut db, Key::Char('d')), Outcome::Continue);
    assert_eq!(app.cursor, Some(0));
    let items = db.load();
    assert_eq!(items.len(), 2);
    assert_eq!(text(&items[0].name), "a");
    assert_eq!(text(&items[1].name), "c");
}

#[test]
fn delete_last_item_clears_cursor_and_nav_is_noop() {
    let mut db = db_with(&["only"]);
    let mut app = App::new(1);
    assert_eq!(app.cursor, Some(0));
    dispatch(&mut app, &mut db, Key::Char('d'));
    assert_eq!(app.cursor, None);
    assert_eq!(db.load().len(), 0);
    dispatch(&mut app, &mut db, Key::Down);
    assert_eq!(app.cursor, None);
    dispatch(&mut app, &mut db, Key::Up);
    assert_eq!(app.cursor, None);
}

#[test]
fn delete_without_cursor_is_noop() {
    let mut db = db_with(&["kept"]);
    let mut app = App::new(1);
    app.cursor = None;
    assert_eq!(dispatch(&mut app, &mut db, Key::Char('d')), Outcome::Continue);
    assert_eq!(db.load().len(), 1);
}

#[test]
fn other_characters_do_nothing_in_navigation_mode() {
    let mut db = db_with(&["x"]);
    let before = db.content.clone();
    let mut app = App::new(1);
    dispatch(&mut app, &mut db, Key::Char('z'));
    dispatch(&mut app, &mut db, Key::Other);
    assert_eq!(app.cursor, Some(0));
    assert_eq!(app.active_menu_item, MenuItem::Home);
    assert_eq!(db.content, before);
}

#[test]
fn tab_switch_keys() {
    let mut db = empty_db();
    let mut app = App::new(0);
    dispatch(&mut app, &mut db, Key::Char('t'));
    assert_eq!(app.active_menu_item, MenuItem::TODOs);
    dispatch(&mut app, &mut db, Key::Char('a'));
    assert_eq!(app.active_menu_item, MenuItem::Add);
    dispatch(&mut app, &mut db, Key::Char('h'));
    assert_eq!(app.active_menu_item, MenuItem::Home);
    assert_eq!(usize::from(MenuItem::Home), 0);
    assert_eq!(usize::from(MenuItem::TODOs), 1);
    assert_eq!(usize::from(MenuItem::Add), 2);
}

#[test]
fn selected_todo_falls_back_to_placeholder() {
    let mut db = db_with(&["a"]);
    let items = db.load();
    let sel = selected_todo(&items, Some(0));
    assert_eq!(text(&sel.name), "a");
    let none = selected_todo(&items, None);
    assert_eq!(none.id, 0);
    assert_eq!(none.name.len(), 0);
    let past = selected_todo(&items, Some(5));
    assert_eq!(past.id, 0);
    assert_eq!(past.name.len(), 0);
}

#[test]
fn event_source_timing() {
    assert_eq!(remaining_timeout(0), 200);
    assert_eq!(remaining_timeout(150), 50);
    assert_eq!(remaining_timeout(200), 0);
    assert_eq!(remaining_timeout(250), 0);
    assert!(!tick_due(199));
    assert!(tick_due(200));
    assert!(tick_due(201));
}
