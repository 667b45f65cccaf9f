//! Copying an entry's citation key.
use vstd::prelude::*;

use crate::domain::Entry;

verus! {

/// What the interface does after an action.
#[derive(Debug, Clone, Copy, PartialEq, Eq, Structural)]
pub enum Action {
    Continue,
    Quit,
}

/// Copies text to the clipboard.
pub struct ClipboardService;

impl ClipboardService {
    /// The text to copy for `entry`, its citation key, and what to do once
    /// it is copied: quit when `auto_close` is set, else carry on.
    pub fn copy_citekey(entry: &Entry, auto_close: bool) -> (r: (String, Action))
        ensures
            r.0@ == entry.id.0@,
            r.1 == (if auto_close {
                Action::Quit
            } else {
                Action::Continue
            }),
    {
        let action = if auto_close {
            Action::Quit
        } else {
            Action::Continue
        };
        (entry.id.0.clone(), action)
    }
}

/// The application's access to files, the clipboard and other programs.
pub struct Infra;

impl Infra {
    /// The access, ready to use.
    pub fn new() -> (r: Infra) {
        Infra
    }
}

} // verus!
