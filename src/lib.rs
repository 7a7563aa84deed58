//! An incremental fuzzy-search-and-navigation engine for a terminal file
//! navigator: a ranked store of scored path entries, a directory session
//! state machine that discards stale enumeration output, and the mapping
//! from key presses to navigation commands.
pub mod scorer;
pub mod text;
pub mod line;
pub mod path;
pub mod rank;
pub mod store;
pub mod session;
