//! A read-only dashboard of tmux sessions: one tile per session, following
//! each session's active pane, keeping a dead session's last snapshot, and
//! bringing its tile back when a session of the same name returns.
//!
//! - [`tmux`]: reading what tmux reports (pane listings and captures);
//! - [`store`]: the records of the sessions seen, one per name;
//! - [`app`]: the dashboard's state, its keys and its dialogs;
//! - [`layout`]: the grid that the tiles are placed in;
//! - [`ui`]: what the screen shows;
//! - [`chars`]: the character sequences that the rest works on.
pub mod app;
pub mod chars;
pub mod layout;
pub mod store;
pub mod tmux;
pub mod ui;
