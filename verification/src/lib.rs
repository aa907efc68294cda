//! The verified core of DropWin: the registry of Drops and their files, the
//! Drop-to-Drop drag sessions, the mouse-shake detector and the small rules
//! around them.

pub mod drop_registry;
pub mod file;
pub mod text;
pub mod internal_drag;
pub mod config;
pub mod mouse_monitor;
pub mod file_ops;
pub mod drag_ops;
pub mod drop_window;
pub mod thumbnail;
pub mod drag_preview;
pub mod custom_drop;
