//! Core of a keyboard-driven terminal file navigator.
//!
//! Directory listings arrive as plain entry names, where a trailing `/` is
//! the sole marker of a directory. This crate turns such raw listings into
//! an ordered, selectable view (`classify`), moves a selection cursor over
//! it (`StatefulList`), and maps key presses in each interaction mode to
//! state transitions and requested side effects (`dispatch`). All terminal,
//! process and filesystem work stays outside, behind plain values.

pub mod entry;
pub mod order;
pub mod classify;
pub mod state;
pub mod dispatch;
pub mod settings;

pub use entry::is_dir;
