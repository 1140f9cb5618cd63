//! The interactive frontend: a review in a scrollable pane navigated like
//! vim's normal mode.
//!
//! `rows` turns a review into styled lines plus the set of cursor stops.
//! `input` decodes keystrokes into motions. `pane` applies a motion: it moves
//! the cursor and clamps the viewport so the cursor stays on screen. `session`
//! decides what each keypress does and what each frame shows; `editor` says how
//! a location is opened. All of it is free of I/O; the terminal is the
//! program's business.
//!
//! Same convention as the plain-text frontend (`+`/`-`/`~`), here carried by
//! color: added green, removed red, modified yellow with the old signature
//! dimmed beneath. The cursor's row is shown reversed.

pub mod editor;
pub mod input;
pub mod key_laws;
pub mod look_laws;
pub mod motion_laws;
pub mod pane;
pub mod pane_laws;
pub mod plain_laws;
pub mod rows;
pub mod rows_laws;
pub mod session;
pub mod style;
pub mod summary;
pub mod tokens;
pub mod tokens_laws;
pub mod view;
pub mod view_laws;
