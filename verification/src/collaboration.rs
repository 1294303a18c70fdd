//! The commands that collaborators send each other.
use vstd::prelude::*;

verus! {

/// A collaborator's cursor moved to `pos` in note `note_id`.
#[derive(Debug)]
pub struct SetCursorPosition {
    pub note_id: usize,
    pub pos: usize,
}

/// A collaborator typed `text` into note `note_id`.
#[derive(Debug)]
pub struct InsertString {
    pub note_id: usize,
    pub text: String,
}

/// A command received from a collaborator.
#[derive(Debug)]
pub enum Command {
    SetCursorPosition(SetCursorPosition),
    InsertString(InsertString),
    Info(String),
}

/// What a command says.
pub enum CommandView {
    SetCursorPosition { note_id: usize, pos: usize },
    InsertString { note_id: usize, text: Seq<char> },
    Info { text: Seq<char> },
}

impl View for Command {
    type V = CommandView;

    open spec fn view(&self) -> CommandView {
        match self {
            Command::SetCursorPosition(c) => CommandView::SetCursorPosition {
                note_id: c.note_id,
                pos: c.pos,
            },
            Command::InsertString(c) => CommandView::InsertString {
                note_id: c.note_id,
                text: c.text@,
            },
            Command::Info(t) => CommandView::Info { text: t@ },
        }
    }
}

} // verus!
