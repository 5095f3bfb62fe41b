use todotxt::date::Date;
use todotxt::editor::Key;
use todotxt::session::{Input, same_text, save_failed, turn};
use todotxt::store::Store;
use todotxt::todo::Todo;
use todotxt::tui::App;

const TODAY: Date = Date { year: 2026, month: 9, day: 26 };

fn app_of(lines: &[&str]) -> App {
    App::new(Store::new(lines.iter().map(|l| Todo::from_line(l)).collect()))
}

fn lines(app: &App) -> Vec<String> {
    app.store.todos.iter().map(Todo::to_line).collect()
}

#[test]
fn a_key_that_changes_the_list_gives_the_text_to_write() {
    let mut app = app_of(&["one", "two"]);
    let mut known = "one\ntwo\n".to_string();

    let written = turn(&mut app, &mut known, Some("one\ntwo\n".to_string()), Input::Key(Key::char('x')), TODAY);

    assert_eq!(written.as_deref(), Some("x 2026-09-26 one\ntwo\n"));
    assert_eq!(known, "one\ntwo\n");
}

#[test]
fn a_key_that_changes_nothing_writes_nothing() {
    let mut app = app_of(&["one", "two"]);
    let mut known = "one\ntwo\n".to_string();

    assert_eq!(turn(&mut app, &mut known, None, Input::Key(Key::char('j')), TODAY), None);
    assert_eq!(app.cursor, 1);
    assert_eq!(turn(&mut app, &mut known, None, Input::Nothing, TODAY), None);
}

#[test]
fn a_file_changed_on_disk_is_reloaded_and_the_key_ignored() {
    let mut app = app_of(&["one", "two"]);
    let mut known = "one\ntwo\n".to_string();

    let written = turn(&mut app, &mut known, Some("one\nfour\n".to_string()), Input::Key(Key::char('x')), TODAY);

    assert_eq!(written, None);
    assert_eq!(lines(&app), ["one", "four"]);
    assert_eq!(known, "one\nfour\n");
    assert_eq!(app.message.as_deref(), Some("reloaded"));
}

#[test]
fn a_paste_goes_to_the_search() {
    let mut app = app_of(&["one", "two"]);
    let mut known = String::new();
    turn(&mut app, &mut known, None, Input::Key(Key::char('/')), TODAY);

    turn(&mut app, &mut known, None, Input::Paste("tw\no".to_string()), TODAY);

    assert_eq!(app.search, "tw o");
}

#[test]
fn a_failed_save_reloads_the_file_and_says_it_was_left_unchanged() {
    let mut app = app_of(&["one"]);

    save_failed(&mut app, Some("one\ntwo\n".to_string()), "disk full");

    assert_eq!(lines(&app), ["one", "two"]);
    assert_eq!(app.message.as_deref(), Some("could not save: disk full (file left unchanged)"));

    save_failed(&mut app, None, "gone");
    assert_eq!(lines(&app), ["one", "two"]);
}

#[test]
fn texts_are_compared_character_by_character() {
    assert!(same_text("Été", "Été"));
    assert!(!same_text("Été", "Ete"));
    assert!(!same_text("a", "ab"));
}
