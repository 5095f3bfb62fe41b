//! A small editor for a todo.txt file: the task line format and the file's text, the task
//! list with its filtered and sorted listing, the commands of the command line, the one-line
//! vim-like editor of the popup, the state machine of the interactive list, what its screen
//! shows, and the decisions of its loop.

pub mod text;
pub mod date;
pub mod todo;
pub mod store;
pub mod editor;
pub mod messages;
pub mod order;
pub mod tui;
pub mod repository;
pub mod cli;
pub mod history;
pub mod view;
pub mod session;
