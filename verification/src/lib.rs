//! Single-character bookmarks for a terminal file manager.
//!
//! A [`Bookmarks`] store maps mnemonic keys to paths and knows the text
//! format in which the mapping is persisted. A [`BMPopup`] is the modal
//! overlay that lets a user pick a bookmark or register a new one, driven
//! one key event at a time by the host that displays it.

pub mod entries;
pub mod fail;
pub mod laws;
pub mod persist;
pub mod popup;
pub mod store;
pub mod term;
pub mod widget;

pub use fail::{HError, HResult};
pub use popup::{BMPopup, Mode, SENTINEL};
pub use store::Bookmarks;
pub use widget::{Action, Coordinates, Key, WidgetCore};
