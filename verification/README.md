# orbit

The layout, focus and terminal-watching logic of OrbiTTY, a workspace-based tiling
terminal for GTK4, as a library verified with Verus, and the GTK application around it.

- `src/` — the verified library:
  - `arena.rs`: the tiling arena (at most four sessions), its drop previews and the
    grid placement of its tiles;
  - `sidebar.rs`: the monitoring dock, card order, the drop placeholder and filters;
  - `session.rs`: the state of one session (busy/idle, attention, alerts, peeking);
  - `workspace.rs`: a workspace tying arena, dock and sessions together — spawning,
    promoting, demoting, closing, drag and drop, focus;
  - `runtime.rs`: parsing of `/proc` files and the steps that walk through them;
  - `hover.rs`: when a delayed hover preview may still be shown;
  - `launch.rs`: the shell a new terminal runs and the directory it starts in;
  - `theme.rs`: the colour scheme behind the menu's theme buttons;
  - `filetree.rs`: the directory tree (listed children, path components, node state);
  - `tabs.rs`: workspace tabs of a window and the small choices around them;
  - `templates.rs`: the workspace presets;
  - `seqs.rs`, `text.rs`: shared facts and helpers.
- `tests/` — tests of the library on concrete values.
- `app/` — the GTK application: widgets, signals, timers and file access. It asks the
  library for the state changes and the decisions above; what stays there is widget
  construction, the wiring of GTK signals and actions, timer scheduling, reading
  files under `/proc`, and the font zoom and pointer geometry, which work on
  floating-point values.
