//! The terminal interface: its keys, modes and effects, the state machine
//! that reacts to keys, and the text of what it draws.
pub mod text;
pub mod app;
pub mod actions;
pub mod widgets;

use vstd::prelude::*;

use crate::domain::EntryId;

verus! {

/// What the interface is doing.
#[derive(Debug, Clone, Copy, PartialEq, Eq, Structural)]
pub enum Mode {
    Normal,
    Searching,
    Sorting,
}

/// The keys by which the interface can order the list.
#[derive(Debug, Clone, Copy, PartialEq, Eq, Structural)]
pub enum SortField {
    Year,
    Author,
    Journal,
}

/// The name of a sort key, as the status line shows it.
pub open spec fn sort_label(f: SortField) -> Seq<char> {
    match f {
        SortField::Year => "year"@,
        SortField::Author => "author"@,
        SortField::Journal => "journal"@,
    }
}

impl SortField {
    /// The key's name: `year`, `author` or `journal`.
    pub fn label(self) -> (r: &'static str)
        ensures
            r@ == sort_label(self),
    {
        match self {
            SortField::Year => "year",
            SortField::Author => "author",
            SortField::Journal => "journal",
        }
    }
}

/// What a key asks of the program around the interface.
#[derive(Debug, Clone, PartialEq, Eq)]
pub enum TuiEffect {
    Continue,
    Quit,
    Select(EntryId),
    EditEntry(EntryId),
    OpenNote(EntryId),
}

impl Default for TuiEffect {
    fn default() -> (r: TuiEffect)
        ensures
            r == TuiEffect::Continue,
    {
        TuiEffect::Continue
    }
}

/// Work the interface hands to its action handler: open the PDF of an
/// entry, or copy its citation key. The handler's message becomes the
/// status line.
#[derive(Debug, Clone, PartialEq, Eq)]
pub enum ActionRequest {
    OpenPdf(EntryId),
    CopyCitekey(EntryId),
}

/// The key of a key press.
#[derive(Debug, Clone, Copy, PartialEq, Eq, Structural)]
pub enum KeyCode {
    Char(char),
    Up,
    Down,
    Left,
    Right,
    Enter,
    Esc,
    Backspace,
    Delete,
    Home,
    End,
    /// Any other key.
    Other,
}

/// A key press: the key and whether Control was held.
#[derive(Debug, Clone, Copy, PartialEq, Eq, Structural)]
pub struct Key {
    pub code: KeyCode,
    pub ctrl: bool,
}

/// What the mouse did.
#[derive(Debug, Clone, Copy, PartialEq, Eq, Structural)]
pub enum MouseKind {
    ScrollDown,
    ScrollUp,
    LeftDown,
    Other,
}

/// A mouse event: what happened and on which screen row.
#[derive(Debug, Clone, Copy, PartialEq, Eq, Structural)]
pub struct Mouse {
    pub kind: MouseKind,
    pub row: u16,
}

} // verus!
