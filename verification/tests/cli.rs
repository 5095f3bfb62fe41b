use todotxt::cli::{Commands, build_task, empty_listing_message, execute, no_task_numbered, parse_priority};
use todotxt::date::Date;
use todotxt::store::Store;
use todotxt::todo::Todo;

const TODAY: Date = Date { year: 2026, month: 9, day: 26 };

#[test]
fn a_priority_must_be_a_single_letter_from_a_to_e() {
    assert!(parse_priority("A").is_ok());
    assert!(parse_priority("Z").is_err());
    assert!(parse_priority("AB").is_err());
}

#[test]
fn a_refused_priority_says_which_letters_are_allowed() {
    assert_eq!(parse_priority("E"), Ok('E'));
    assert_eq!(parse_priority(""), Err("priority must be a single letter from A to E".to_string()));
    assert_eq!(parse_priority("a"), Err("priority must be a single letter from A to E".to_string()));
}

#[test]
fn build_task_dates_the_task_and_takes_the_flag_priority() {
    let todo = build_task("Buy milk", Some('B'), TODAY).unwrap();
    assert_eq!(todo.to_line(), "(B) 2026-09-26 Buy milk");

    let todo = build_task("2026-09-02 Buy milk", None, TODAY).unwrap();
    assert_eq!(todo.to_line(), "2026-09-02 Buy milk");
}

#[test]
fn build_task_refuses_a_priority_given_twice_and_an_empty_description() {
    assert_eq!(build_task("(A) Buy bread", Some('B'), TODAY).err(), Some("priority given twice".to_string()));
    assert_eq!(build_task("(A)  ", None, TODAY).err(), Some("a task needs a description".to_string()));
}

#[test]
fn a_number_that_names_no_task_is_said_with_its_digits() {
    assert_eq!(no_task_numbered(9), "no task numbered 9");
    assert_eq!(no_task_numbered(120), "no task numbered 120");
    assert_eq!(no_task_numbered(0), "no task numbered 0");
}

#[test]
fn an_empty_listing_says_whether_terms_filtered_it() {
    assert_eq!(empty_listing_message(false), "nothing to do");
    assert_eq!(empty_listing_message(true), "no matching task");
}

fn lines(store: &Store) -> Vec<String> {
    store.todos.iter().map(Todo::to_line).collect()
}

#[test]
fn add_do_and_remove_change_the_list_and_a_refused_command_leaves_it_alone() {
    let mut store = Store::new(vec![Todo::from_line("2026-09-01 Call the bank"), Todo::from_line("Pay rent")]);
    let add = Commands::Add { text: "2026-09-02 Buy milk".to_string(), priority: Some('B') };

    assert_eq!(execute(&mut store, &add, TODAY), Ok(true));
    assert_eq!(execute(&mut store, &Commands::Do { number: 1 }, TODAY), Ok(true));
    assert_eq!(execute(&mut store, &Commands::Remove { number: 2 }, TODAY), Ok(true));
    let before = lines(&store);

    let twice = Commands::Add { text: "(A) Buy bread".to_string(), priority: Some('B') };
    assert_eq!(execute(&mut store, &twice, TODAY), Err("priority given twice".to_string()));
    assert_eq!(execute(&mut store, &Commands::Do { number: 9 }, TODAY), Err("no task numbered 9".to_string()));
    assert_eq!(execute(&mut store, &Commands::Remove { number: 9 }, TODAY), Err("no task numbered 9".to_string()));
    assert_eq!(lines(&store), before);
    assert_eq!(lines(&store), ["x 2026-09-26 2026-09-01 Call the bank", "(B) 2026-09-02 Buy milk"]);
}

#[test]
fn a_listing_changes_nothing() {
    let mut store = Store::new(vec![Todo::from_line("Pay rent")]);
    let list = Commands::List { all: true, terms: vec!["rent".to_string()] };

    assert_eq!(execute(&mut store, &list, TODAY), Ok(false));
    assert_eq!(lines(&store), ["Pay rent"]);
}
