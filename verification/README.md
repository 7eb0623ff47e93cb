# muxdex

A read-only terminal dashboard for tmux: one tile per session, following each
session's active pane, keeping the last snapshot of a session that died, and
bringing the same tile back when a session of that name returns.

The library under `src/` is written in Verus and verified:

- `tmux.rs` says which tmux commands a poll and a kill run, and reads what
  tmux prints: the pane listing (`list-panes`), pane captures with their ANSI
  escapes, and tmux's error messages;
- `store.rs` keeps one record per session name, in name order, and reconciles
  each poll with them (new, revived, stale and dead sessions);
- `app.rs` holds the dashboard's state: focus, the kill dialog, errors and the
  commands that keys ask for;
- `layout.rs` places the tiles in a grid;
- `ui.rs` decides what the screen shows: which screen, where each tile goes
  and how it looks (colour, dimming, border, title, stale line), the footer
  and the kill dialog;
- `chars.rs` holds the character-sequence helpers the rest is built on.

`app/` is the terminal program around it: it runs tmux, reads keys with
crossterm and draws with ratatui. `tests/` exercises the library.
