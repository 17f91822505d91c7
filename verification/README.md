# gartop

A system monitor for the gar desktop: a daemon samples CPU, memory,
network, disk and process statistics from `/proc` and `/sys`, keeps a
bounded history of them, and answers clients over a Unix socket; a GUI
window and the `gartopctl` command-line client show them.

## Layout

- `src/` — the library, verified with Verus. It holds the logic of the
  monitor, each function with its contract:
  - `history`: the bounded sample history;
  - `text`: line and field splitting, number parsing and decimal rendering;
  - `cpu`, `memory`, `network`, `disk`: the collectors' parsers and rate
    bookkeeping;
  - `socket`, `process`, `order`: the socket table, the per-process records
    and their ordering by PID, name or socket counts;
  - `diag`: decoding of the kernel's INET_DIAG socket replies;
  - `gpu`, `temperature`: reading sysfs values;
  - `protocol`, `subscriptions`, `daemon`: the IPC values and what the
    daemon does for each command;
  - `gui`: geometry, tab bar, process list and input handling;
  - `format`, `config`, `error`, `marks`.
- `app/` — the program around it: reading files and the process table,
  netlink queries, the daemon's loops and socket, the GUI's drawing, the
  command-line client, and the rates and percentages, which are floating
  point.
- `tests/` — tests of the library.

Invoked as `gartopctl`, the program is the command-line client; otherwise
`gartop daemon` starts the daemon and `gartop` (or `gartop gui`) opens the
window.
