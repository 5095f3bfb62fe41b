use todotxt::date::Date;
use todotxt::todo::Todo;

#[test]
fn from_line_extracts_the_marker_priority_and_description() {
    let task = Todo::from_line("x (C) Lorem ipsum dolor sit amet");
    assert_eq!(task.description, "Lorem ipsum dolor sit amet");
    assert!(task.done);
    assert_eq!(task.priority, Some('C'));
}

#[test]
fn a_plain_line_is_just_the_description() {
    let task = Todo::from_line("Lorem ipsum dolor sit amet");
    assert_eq!(task.description, "Lorem ipsum dolor sit amet");
    assert!(!task.done);
    assert_eq!(task.priority, None);
    assert_eq!(task.to_line(), "Lorem ipsum dolor sit amet");
}

#[test]
fn an_out_of_range_priority_stays_in_the_description() {
    let task = Todo::from_line("(Z) Lorem ipsum dolor sit amet");
    assert_eq!(task.description, "(Z) Lorem ipsum dolor sit amet");
    assert_eq!(task.priority, None);
}

#[test]
fn a_canonical_line_with_unrecognised_tokens_survives_a_round_trip() {
    let line = "x 2026-09-03 2026-09-01 Lorem ipsum +consectetur @adipiscing due:2026-01-01";
    assert_eq!(Todo::from_line(line).to_line(), line);
}

#[test]
fn serialising_a_done_task_drops_its_priority() {
    assert_eq!(Todo::from_line("x (A) Lorem ipsum").to_line(), "x Lorem ipsum");
}

#[test]
fn from_line_reads_the_creation_date_after_the_priority() {
    let task = Todo::from_line("(A) 2026-09-01 Lorem ipsum");
    assert_eq!(task.priority, Some('A'));
    assert_eq!(task.created, Some(Date { year: 2026, month: 9, day: 1 }));
    assert_eq!(task.description, "Lorem ipsum");
}

#[test]
fn from_line_reads_the_completion_then_the_creation_date_on_a_done_line() {
    let task = Todo::from_line("x 2026-09-03 2026-09-01 Lorem ipsum");
    assert!(task.done);
    assert_eq!(task.completed, Some(Date { year: 2026, month: 9, day: 3 }));
    assert_eq!(task.created, Some(Date { year: 2026, month: 9, day: 1 }));
    assert_eq!(task.description, "Lorem ipsum");
}

#[test]
fn a_done_line_may_carry_only_a_completion_date() {
    let task = Todo::from_line("x 2026-09-03 Lorem ipsum");
    assert_eq!(task.completed, Some(Date { year: 2026, month: 9, day: 3 }));
    assert_eq!(task.created, None);
    assert_eq!(task.description, "Lorem ipsum");
}

#[test]
fn an_invalid_date_stays_in_the_description() {
    let task = Todo::from_line("2026-99-99 Lorem ipsum");
    assert_eq!(task.created, None);
    assert_eq!(task.description, "2026-99-99 Lorem ipsum");
}

#[test]
fn a_signed_year_is_read_but_written_without_its_plus() {
    let task = Todo::from_line("+2026-09-01 Lorem ipsum");
    assert_eq!(task.created, Some(Date { year: 2026, month: 9, day: 1 }));
    assert_eq!(task.to_line(), "2026-09-01 Lorem ipsum");
}

#[test]
fn a_date_without_its_zeros_stays_in_the_description() {
    let task = Todo::from_line("2026-9-1 Lorem ipsum");
    assert_eq!(task.created, None);
    assert_eq!(task.description, "2026-9-1 Lorem ipsum");
}

#[test]
fn a_canonical_pending_line_survives_a_round_trip() {
    let line = "(B) 2026-09-01 Call the bank +finance @phone due:2026-09-15";
    assert_eq!(Todo::from_line(line).to_line(), line);
}
