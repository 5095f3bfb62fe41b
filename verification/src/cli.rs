//! The commands of the command line and what each does to the list.

use vstd::prelude::*;

use crate::date::Date;
use crate::messages::{
    msg_no_matching_task, msg_no_task_numbered, msg_nothing_to_do, msg_priority_letter,
    msg_priority_twice, no_matching_task_message, no_task_numbered_message, nothing_to_do_message,
    priority_letter_message, priority_twice_message,
};
use crate::store::Store;
use crate::text::{chars_of, push_decimal, spec_decimal};
use crate::todo::{
    Todo, TodoView, has_text, no_description_message, spec_from_line, spec_is_valid_priority,
};

verus! {

/// The command line: a command, or none to open the interactive list.
pub struct Cli {
    /// The command to execute.
    pub command: Option<Commands>,
}

/// The commands of the command line.
pub enum Commands {
    /// Lists the pending tasks (all of them with `all`), filtered by terms.
    List {
        /// Whether done tasks are listed too.
        all: bool,
        /// Case-insensitive terms every listed task contains, or lacks with a leading `-`.
        terms: Vec<String>,
    },
    /// Adds a task, given as a todo.txt fragment.
    Add {
        /// The task's text, optionally with its priority and dates.
        text: String,
        /// A priority letter given apart from the text.
        priority: Option<char>,
    },
    /// Removes the task with this number.
    Remove {
        /// The task's number.
        number: usize,
    },
    /// Marks the task with this number done.
    Do {
        /// The task's number.
        number: usize,
    },
}

/// Reads a priority given by flag: one letter from `A` to `E`.
pub fn parse_priority(input: &str) -> (r: Result<char, String>)
    ensures
        r is Ok <==> input@.len() == 1 && spec_is_valid_priority(input@[0]),
        r matches Ok(c) ==> c == input@[0],
        r matches Err(e) ==> e@ == msg_priority_letter(),
{
    let cs = chars_of(input);
    if cs.len() == 1 && Todo::is_valid_priority(cs[0]) {
        Ok(cs[0])
    } else {
        Err(priority_letter_message())
    }
}

/// The task that `todo add` appends for `text` and the flag's priority: `text` read as a
/// todo.txt line, dated `today` when it has no creation date, and given the flag's priority
/// when it has none of its own.
pub open spec fn added_task(text: Seq<char>, flag_priority: Option<char>, today: Date) -> TodoView {
    let v = spec_from_line(text);
    TodoView {
        created: if v.created is Some { v.created } else { Some(today) },
        priority: if v.priority is Some { v.priority } else { flag_priority },
        ..v
    }
}

/// The task `todo add` appends keeps what its text says: its description, its done marker
/// and completion date, its own priority (the flag's only when the text has none), and its own
/// creation date (today's only when the text has none).
pub proof fn law_added_task_keeps_its_text(text: Seq<char>, flag_priority: Option<char>, today: Date)
    ensures
        added_task(text, flag_priority, today).description == spec_from_line(text).description,
        added_task(text, flag_priority, today).done == spec_from_line(text).done,
        added_task(text, flag_priority, today).completed == spec_from_line(text).completed,
        spec_from_line(text).priority is Some ==> added_task(text, flag_priority, today).priority
            == spec_from_line(text).priority,
        spec_from_line(text).priority is None ==> added_task(text, flag_priority, today).priority
            == flag_priority,
        spec_from_line(text).created is Some ==> added_task(text, flag_priority, today).created
            == spec_from_line(text).created,
        spec_from_line(text).created is None ==> added_task(text, flag_priority, today).created
            == Some(today),
{
}

/// Builds the task to add from its text and the priority given by flag; a text without a
/// description, or with a priority of its own beside the flag's, is refused.
pub fn build_task(text: &str, flag_priority: Option<char>, today: Date) -> (r: Result<Todo, String>)
    requires
        today.valid(),
    ensures
        ({
            let v = spec_from_line(text@);
            if !has_text(v.description) {
                r matches Err(e) && e@ == no_description_message()
            } else if v.priority is Some && flag_priority is Some {
                r matches Err(e) && e@ == msg_priority_twice()
            } else {
                r matches Ok(t) && t@ == added_task(text@, flag_priority, today) && t.wf()
            }
        }),
{
    let mut todo = match Todo::new_from_input(text, today) {
        Ok(t) => t,
        Err(e) => return Err(e),
    };
    match (todo.priority, flag_priority) {
        (Some(_), Some(_)) => return Err(priority_twice_message()),
        (None, Some(p)) => todo.priority = Some(p),
        _ => {},
    }
    Ok(todo)
}

/// The message of a number that names no task: `no task numbered` and the number.
pub open spec fn no_task_message(number: nat) -> Seq<char> {
    msg_no_task_numbered() + spec_decimal(number)
}

/// The message of a number that names no task.
pub fn no_task_numbered(number: usize) -> (r: String)
    ensures
        r@ == no_task_message(number as nat),
{
    let mut r = no_task_numbered_message();
    push_decimal(&mut r, number);
    r
}

/// What an empty listing says: `nothing to do`, or `no matching task` when terms filter it.
pub fn empty_listing_message(filtered: bool) -> (r: String)
    ensures
        r@ == (if filtered { msg_no_matching_task() } else { msg_nothing_to_do() }),
{
    if filtered {
        no_matching_task_message()
    } else {
        nothing_to_do_message()
    }
}

/// Carries out a command that changes the list, dated `today`, and tells whether the file is
/// to be written; a listing changes nothing. A refused command leaves the list as it was and
/// says why.
pub fn execute(store: &mut Store, command: &Commands, today: Date) -> (r: Result<bool, String>)
    requires
        old(store).wf(),
        today.valid(),
    ensures
        final(store).wf(),
        match command {
            Commands::List { .. } => r == Ok::<bool, String>(false) && final(store).todos@
                == old(store).todos@,
            Commands::Add { text, priority } => {
                let v = spec_from_line(text@);
                if !has_text(v.description) {
                    &&& r matches Err(e) && e@ == no_description_message()
                    &&& final(store).todos@ == old(store).todos@
                } else if v.priority is Some && priority is Some {
                    &&& r matches Err(e) && e@ == msg_priority_twice()
                    &&& final(store).todos@ == old(store).todos@
                } else {
                    &&& r == Ok::<bool, String>(true)
                    &&& final(store).todos@.len() == old(store).todos@.len() + 1
                    &&& final(store).todos@.drop_last() == old(store).todos@
                    &&& final(store).todos@.last()@ == added_task(text@, *priority, today)
                }
            },
            Commands::Remove { number } => if 1 <= *number <= old(store).todos@.len() {
                &&& r == Ok::<bool, String>(true)
                &&& final(store).todos@ == old(store).todos@.remove(*number - 1)
            } else {
                &&& r matches Err(e) && e@ == no_task_message(*number as nat)
                &&& final(store).todos@ == old(store).todos@
            },
            Commands::Do { number } => if 1 <= *number <= old(store).todos@.len() {
                &&& r == Ok::<bool, String>(true)
                &&& final(store).todos@ == old(store).todos@.update(
                    *number - 1,
                    final(store).todos@[*number - 1],
                )
                &&& final(store).todos@[*number - 1]@ == (TodoView {
                    done: true,
                    completed: Some(today),
                    priority: None,
                    ..old(store).todos@[*number - 1]@
                })
            } else {
                &&& r matches Err(e) && e@ == no_task_message(*number as nat)
                &&& final(store).todos@ == old(store).todos@
            },
        },
{
    match command {
        Commands::List { .. } => Ok(false),
        Commands::Add { text, priority } => match build_task(text.as_str(), *priority, today) {
            Ok(todo) => {
                store.add(todo);
                assert(store.todos@.drop_last() =~= old(store).todos@);
                Ok(true)
            },
            Err(e) => Err(e),
        },
        Commands::Remove { number } => {
            if store.remove(*number) {
                assert forall|i: int| 0 <= i < store.todos@.len() implies (#[trigger] store.todos@[i]).wf() by {
                    if i < *number - 1 {
                        assert(store.todos@[i] == old(store).todos@[i]);
                    } else {
                        assert(store.todos@[i] == old(store).todos@[i + 1]);
                    }
                }
                Ok(true)
            } else {
                Err(no_task_numbered(*number))
            }
        },
        Commands::Do { number } => {
            if store.done(*number, today) {
                assert(store.todos@ =~= old(store).todos@.update(*number - 1, store.todos@[*number - 1]));
                Ok(true)
            } else {
                assert(store.todos@ =~= old(store).todos@);
                Err(no_task_numbered(*number))
            }
        },
    }
}

} // verus!
