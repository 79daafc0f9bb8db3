//! Core of an on-screen emoji picker: catalog loading, search ranking,
//! the recently-used list and the selection cursor, with machine-checked
//! contracts.

pub mod label;
pub mod loader;
pub mod recents;
pub mod search;
pub mod session;
pub mod structs;
pub mod text;
pub mod ui_options;
