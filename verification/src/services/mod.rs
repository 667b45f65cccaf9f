//! Services built on the bibliography.
pub mod notes;
