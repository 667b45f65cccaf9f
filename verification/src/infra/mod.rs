//! The parts of the application that touch files, the clipboard and other
//! programs: the decisions they make.
pub mod bib_store;
pub mod clipboard;
pub mod launcher;
pub mod watcher;
