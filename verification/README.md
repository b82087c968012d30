# don

The decisions behind don's terminal interface and its file watcher, written in
Verus: what the log pane shows and where a scroll lands, what a key or a click
does, which rows the tables hold, and which rebuild a changed file asks for.
Every function states what it returns or changes, and Verus proves it.

- `src/` is the verified library. It reads no terminal, draws nothing and
  touches no file: a handler changes the state and returns what is to be done
  (`effects.rs`), and a view function returns what is to be drawn.
- `app/` is the program around it: the terminal and its writer thread, the
  drawing, the main loop, the watch backend.
- `tests/` runs the library on concrete values.

Where to start reading:

| | |
|---|---|
| the log | `log_store.rs`, `view_index.rs`, `logs.rs`, `search.rs`, `selection.rs` |
| the state | `app.rs`, `filter.rs`, `form.rs`, `rows.rs`, `counts.rs` |
| keys, clicks and events | `dispatch.rs`, `normal_input.rs`, `input.rs`, `form_input.rs`, `pointer.rs`, `session.rs` |
| what is drawn | `screen.rs`, `bar.rs`, `tables.rs`, `form_view.rs`, `attach_view.rs` |
| the watcher | `watch.rs`, `watch_setup.rs`, `coverage.rs`, `walk.rs`, `globs.rs`, `paths.rs` |

A property that spans several functions is a public proof function beside
them, with its statement in words above it.

What other crates do is believed, not proved: the functions marked
`external_body` and the `assume_specification` items say, each in its comment,
which outside function it stands for and what is claimed of it.
