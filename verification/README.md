# orbitwm

The core of a small tiling window manager for X11, verified with Verus.

- `src/` is the library. It holds the window manager's state (nine
  workspaces, focus, docks, floating windows) with its invariant, the
  master-and-stack tiling, the reading of key bindings and colours, the
  decision taken on each key press and X event, the key grabs, the
  start-up command plan and the bar's widgets. Every function carries a
  contract; the `law_*` proof functions state properties that span
  several operations.
- `app/` is the program around it: reading the TOML configuration, the
  X11 connection and event loop, drawing the bar, and starting processes.
  It asks the library what to do and carries it out.
- `tests/` exercises the library on concrete values.
