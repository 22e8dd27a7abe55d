# aerotag

Tag-based workspace management for AeroSpace: windows carry tags (up to 32 per monitor), each
monitor shows a selection of tags, and windows on no shown tag are parked on their own hidden
workspace `h-<window id>`. Monitor `n` shows workspace `n`.

The logic is a Verus-verified library; the program around it is ordinary Rust.

## Layout

- `src/` — the verified library.
  - `state.rs`: monitors, tags and windows, with their mathematical views and the model of each
    basic operation.
  - `server.rs`: the state manager's commands (tag view/toggle/last/set, window
    move/toggle/set/move-monitor), each a step from state to new state and a list of actions.
  - `sync.rs`: bringing the state in line with what AeroSpace reports (monitors added and removed,
    windows closed and opened, focus stuck on a hidden workspace).
  - `query.rs`: answers to queries about a window, a monitor or the whole state.
  - `align.rs`: lining workspaces up with monitors.
  - `ipc.rs`, `cli.rs`: client commands, what each needs fetched, and the command line.
  - `laws.rs`, `sync_laws.rs`: properties proved across operations.
  - `bits.rs`, `ids.rs`, `text.rs`, `aerospace.rs`: masks, sorted ids, workspace names and
    AeroSpace's reports.
- `tests/` — tests of the library.
- `app/` — the `aerotag` program: argument parsing, the Unix socket, the AeroSpace command line,
  JSON, and carrying out the actions the library returns.
