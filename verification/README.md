# todotxt

A small editor for a [todo.txt](https://github.com/todotxt/todo.txt) file: a command line
(`todo add`, `list`, `do`, `remove`) and a full-screen interactive list with a vim-like popup
editor, undo and redo, priority groups and a filter panel.

The library under `src/` holds the logic, each function with a contract proved by Verus:

- `todo`, `date`: one task as a todo.txt line, read and written; a task that reads back is
  read back from its line, and a canonical line is written back as it was read.
- `repository`: the file's text and the tasks it holds; a list whose tasks are each one line
  that reads back is read back from its text as the same list.
- `store`, `order`: the list, its filtered and sorted listing.
- `cli`: the commands and what each does to the list.
- `editor`: the one-line editor of the popup.
- `tui`, `history`: the interactive list as a state machine, and what holds of every key
  (changes can be undone and redone, a key writes exactly when the lines change, the cursor
  and the folds stay on screen, the screen shows what `todo list` shows).
- `view`: what the screen shows, as pieces of text with their colours.
- `session`: the decisions of the interactive loop.
- `text`, `messages`: character-level helpers and the texts shown to the user.

`app/` is the program around it: argument parsing with `clap`, the file, the clock, and
drawing with `ratatui`.
