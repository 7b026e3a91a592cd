# composer

A prompt composer for a terminal multiplexer: the editor that stands below a
terminal's grid and takes the keys while the shell is at a prompt, with
completion, recall, history search and a queue of submissions; the rules by
which it arms, yields and covers rows of the grid; and what the terminal card
and the dashboard around it decide.

## Layout

- `src/` is the library, verified with Verus. Every public function states what
  it returns and changes. The state of a composer is viewed as a `Composer`
  (`src/model.rs`), whose spec functions name each transition.
  - arming: `gate`, `prompt`, `term`, `tick`, `state`, `model`
  - submitting: `encode`, `keyrecord`, `state`
  - completing: `lexer`, `paths`, `quote`, `candidates`, `tab`, `complete`
  - recalling and searching: `recall`, `history`, `search`, `fuzzy`
  - one frame: `frame`, `play`, `strip`, `lane`, `card`, `dashboard`
  - keys: `keys`, `bindings`
  - trackers: `consent`
  - `laws` relates the operations to one another; other modules state the laws
    of their own operations beside them.
- `app/` draws it with egui, lists directories, installs trackers and talks to
  the host application through the traits in `app/host.rs`.
- `tests/` runs the library on terminal sessions, frames and values.

## What is trusted

A few functions of the standard library, of `egui` and of `alacritty_terminal`
are called with contracts that are believed: through wrappers marked
`external_body`, or by an `assume_specification`. Each says in its doc comment
what it claims of the function that is called.
