use todotxt::date::Date;
use todotxt::editor::{Key, KeyCode};
use todotxt::store::Store;
use todotxt::todo::Todo;
use todotxt::tui::App;

const TODAY: Date = Date { year: 2026, month: 9, day: 26 };

fn app_of(lines: &[&str]) -> App {
    App::new(Store::new(lines.iter().map(|l| Todo::from_line(l)).collect()))
}

fn lines(app: &App) -> Vec<String> {
    app.store.todos.iter().map(Todo::to_line).collect()
}

#[test]
fn undo_then_redo_brings_the_list_and_its_history_back() {
    let mut app = app_of(&["(A) one", "two"]);
    app.handle_key(Key::char('x'), TODAY);
    app.handle_key(Key::char('j'), TODAY);
    app.handle_key(Key::char('x'), TODAY);
    let changed = lines(&app);

    assert!(app.handle_key(Key::char('u'), TODAY));
    assert_eq!(app.redo.len(), 1);
    assert!(app.handle_key(Key::ctrl('r'), TODAY));

    assert_eq!(lines(&app), changed);
    assert_eq!(app.undo.len(), 2);
    assert!(app.redo.is_empty());
}

#[test]
fn every_change_but_undo_and_redo_can_be_undone_at_once() {
    let changes: [&[Key]; 4] = [
        &[Key::char('x')],
        &[Key::char('d'), Key::char('d')],
        &[Key::char('p'), Key::char('c')],
        &[Key::char('o'), Key::char('N'), Key::char('e'), Key::char('w'), Key::new(KeyCode::Enter)],
    ];
    for keys in changes {
        let mut app = app_of(&["one", "two"]);
        let before = lines(&app);
        let mut wrote = false;
        for key in keys {
            wrote = app.handle_key(*key, TODAY);
        }
        assert!(wrote);
        assert_ne!(lines(&app), before);
        assert!(app.handle_key(Key::char('u'), TODAY));
        assert_eq!(lines(&app), before);
    }
}

#[test]
fn a_key_that_writes_nothing_leaves_the_list_and_history_alone() {
    let mut app = app_of(&["one", "two"]);
    app.handle_key(Key::char('x'), TODAY);
    let (todos, undo) = (lines(&app), app.undo.len());

    for key in [Key::char('j'), Key::char('H'), Key::char('/'), Key::char('z'), Key::new(KeyCode::Esc)] {
        assert!(!app.handle_key(key, TODAY));
        assert_eq!(lines(&app), todos);
        assert_eq!(app.undo.len(), undo);
    }
}

#[test]
fn the_cursor_stays_on_a_row_after_any_key() {
    let mut app = app_of(&["one", "two", "three"]);
    for c in ['G', 'x', 'x', 'x', 'j', 'k', 'u', 'G'] {
        app.handle_key(Key::char(c), TODAY);
        assert!(app.cursor < app.rows().len().max(1));
    }
}

#[test]
fn the_screen_lists_the_tasks_of_todo_list_for_the_search() {
    let mut app = app_of(&["Call the bank", "(B) Pay rent", "x Call mom", "(A) Call back"]);
    app.search = "call".to_string();
    let store = Store::new(["Call the bank", "(B) Pay rent", "x Call mom", "(A) Call back"].iter().map(|l| Todo::from_line(l)).collect());

    let on_screen: Vec<usize> = app.tasks().into_iter().map(|(n, _)| n).collect();
    let listed: Vec<usize> = store.list(false, &["call".to_string()]).into_iter().map(|(n, _)| n).collect();

    assert_eq!(on_screen, listed);
    assert_eq!(on_screen, [4, 1]);
}

#[test]
fn a_key_writes_exactly_when_the_lines_change() {
    let mut app = app_of(&["(A) one", "two"]);
    let keys = [
        Key::char('x'),
        Key::char('u'),
        Key::ctrl('r'),
        Key::char('u'),
        Key::char('j'),
        Key::new(KeyCode::Enter),
        Key::new(KeyCode::Enter),
        Key::char('u'),
        Key::char('u'),
    ];
    for key in keys {
        let before = lines(&app);
        let wrote = app.handle_key(key, TODAY);
        assert_eq!(wrote, lines(&app) != before, "{key:?}");
    }
}

#[test]
fn redo_then_undo_brings_the_list_back() {
    let mut app = app_of(&["one", "two"]);
    app.handle_key(Key::char('x'), TODAY);
    app.handle_key(Key::char('u'), TODAY);
    let before = lines(&app);

    assert!(app.handle_key(Key::ctrl('r'), TODAY));
    assert!(app.handle_key(Key::char('u'), TODAY));

    assert_eq!(lines(&app), before);
}
