use todotxt::repository::{parse_todos, render};
use todotxt::todo::Todo;

#[test]
fn save_then_load_round_trips_the_list() {
    let todos = vec![Todo::from_line("(A) Lorem ipsum dolor"), Todo::from_line("x Consectetur adipiscing")];

    let written = render(&todos);
    let loaded = parse_todos(&written);

    let lines: Vec<String> = loaded.iter().map(Todo::to_line).collect();
    assert_eq!(lines, ["(A) Lorem ipsum dolor", "x Consectetur adipiscing"]);
    assert_eq!(render(&loaded), written);
}

#[test]
fn load_drops_blank_lines_from_the_tasks_but_not_from_the_raw_text() {
    let text = "Lorem ipsum\n\n   \nConsectetur adipiscing\n";

    let todos = parse_todos(text);

    assert_eq!(todos.len(), 2);
    assert_eq!(text, "Lorem ipsum\n\n   \nConsectetur adipiscing\n");
}

#[test]
fn an_empty_text_holds_no_task() {
    assert_eq!(parse_todos("").len(), 0);
    assert_eq!(render(&[]), "");
}

#[test]
fn each_task_is_written_on_its_own_line() {
    let todos = vec![Todo::from_line("x 2026-09-03 2026-09-01 Buy milk"), Todo::from_line("(B) Pay rent +home")];

    assert_eq!(render(&todos), "x 2026-09-03 2026-09-01 Buy milk\n(B) Pay rent +home\n");
}

#[test]
fn a_windows_line_ending_and_a_last_line_without_one_are_read() {
    let todos = parse_todos("Lorem ipsum\r\nDolor sit");

    let lines: Vec<String> = todos.iter().map(Todo::to_line).collect();
    assert_eq!(lines, ["Lorem ipsum", "Dolor sit"]);
}
