# cxsh

A small interactive shell. The library (`src/`) holds its logic, verified
with Verus; `app/` is the program around it (terminal, processes, pipes).

- `parser`: the command-line grammar (words, quoted strings with escapes,
  `|` and `>`), stated as spec functions, and the parsing functions proved
  to follow it. `parser_laws` proves what the grammar promises for all
  inputs: plain words and pipelines of them parse as written, quoted text
  is one argument, escaped text reads back, every stage has an argument.
  `blank_laws`: blanks before a line change nothing, blanks after a whole
  line are taken in.
- `execute`: the executor as a state machine. `execute` starts a command
  line and `resume` takes what happened; each answer is the next action
  (open a pipe, run a stage, done). The pipe stack is restored when a line
  finishes, whatever the pipes and stages give (`law_pipes_restored`). It
  also decides builtins and the descriptor plumbing of a forked stage.
- `termio`, `input`: two line editors as state machines from key to new
  line, cursor and terminal output. `editor_laws` follows whole key
  sequences: both editors follow a plain editing model on characters and
  agree with each other, and a read starts from an empty line.
- `builtin`, `prompt`, `text`, `width`: the `cd` and `help` answers, the prompt,
  character slicing, and display widths from `unicode-width`.
