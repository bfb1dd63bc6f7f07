# nexus

A verified library for Nexus, a terminal session manager that keeps coding-agent
sessions in tmux, groups them by project, and shows a live preview of each.

The library (`src/`) holds the logic, each function with a contract that Verus proves:
the session tree and its cursor, the dialogs and their key handling, the mouse and the
main loop's decisions, path completion, git branch and hook resolution, the tmux command
lines and key mapping, the reading of session logs, timestamps, glob rules, the update
check, the finder and the layout of the screen. The laws the library keeps (round trips,
inverses, invariants) are public proof functions beside the functions they speak of.

Where the logic meets the outside (files, processes, the clock, the terminal, JSON), a
small trusted item makes the call and its contract says what the library relies on.

`app/` is the program around the library: `main`, the terminal user interface, the
database, running tmux and git, and reading files. `tests/` runs the library.
