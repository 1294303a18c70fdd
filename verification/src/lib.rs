//! A terminal notes editor with a collaborator's cursor: the notes and the
//! editing state, the text model they rest on, the messages exchanged with
//! the collaborator, and what the screen shows.
use vstd::prelude::*;

pub mod app;
pub mod collaboration;
pub mod history;
pub mod input;
pub mod messenger;
pub mod syntax;
pub mod text;
pub mod ui;

verus! {

} // verus!
