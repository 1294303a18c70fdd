//! How the application answers the user's keys and the collaborator's
//! commands. The terminal and the network stay outside; this module decides
//! what each key or command does to the application state, and what the
//! terminal loop has to do next.
use vstd::prelude::*;

use crate::app::{
    can_insert, can_remove, inserted, moved_next, moved_previous, removed, selection_valid,
    with_collaborator, App, AppMode, AppView, EditorNoteView,
};
use crate::collaboration::{Command, SetCursorPosition};

verus! {

/// The keys the application tells apart.
#[derive(Clone, Copy, Debug, PartialEq, Eq, Structural)]
pub enum Key {
    Char(char),
    Backspace,
    Enter,
    Left,
    Right,
    Up,
    Down,
    Esc,
    Other,
}

/// What the terminal loop does after a key.
#[derive(Clone, Copy, Debug, PartialEq, Eq, Structural)]
pub enum KeyAction {
    /// Draw again and wait for the next event.
    Continue,
    /// Leave the application.
    Quit,
    /// Select the next note of the menu.
    SelectNext,
    /// Select the previous note of the menu.
    SelectPrevious,
}

/// The selected note, in an application state that has one.
pub open spec fn selected_note(a: AppView) -> Option<EditorNoteView> {
    match a.current {
        Some(i) => Some(a.notes[i as int]),
        None => None,
    }
}

/// The key changes the selected note's text, where an editing key press
/// reaches a selected note.
pub open spec fn edits_text(a: AppView, key: Key, pressed: bool) -> bool {
    &&& a.mode == AppMode::Editing
    &&& key != Key::Esc
    &&& pressed
    &&& selected_note(a) is Some
}

/// The keys that the editor cannot apply: typing where the cursor is not a
/// char boundary (or the text would outgrow a `String`), and a backspace
/// where the byte before the cursor does not start a char.
pub open spec fn key_fails(a: AppView, key: Key, pressed: bool) -> bool {
    edits_text(a, key, pressed) && {
        let n = selected_note(a).unwrap();
        match key {
            Key::Char(c) => !can_insert(n, c),
            Key::Enter => !can_insert(n, '\n'),
            Key::Backspace => !can_remove(n),
            _ => false,
        }
    }
}

/// The selected note after an editing key.
pub open spec fn edited_note(n: EditorNoteView, key: Key) -> EditorNoteView {
    match key {
        Key::Char(c) => inserted(n, c),
        Key::Enter => inserted(n, '\n'),
        Key::Backspace => removed(n),
        Key::Left => moved_previous(n),
        Key::Right => moved_next(n),
        _ => n,
    }
}

/// The application state after a key: in normal mode a press of Enter
/// starts editing; in editing mode Esc (pressed or released) goes back to
/// normal mode, and a key press edits the selected note.
pub open spec fn after_key(a: AppView, key: Key, pressed: bool) -> AppView {
    match a.mode {
        AppMode::Normal => if pressed && key == Key::Enter {
            AppView { mode: AppMode::Editing, ..a }
        } else {
            a
        },
        AppMode::Editing => if key == Key::Esc {
            AppView { mode: AppMode::Normal, ..a }
        } else if edits_text(a, key, pressed) {
            let i = a.current.unwrap();
            AppView { notes: a.notes.update(i as int, edited_note(a.notes[i as int], key)), ..a }
        } else {
            a
        },
    }
}

/// What the terminal loop does after a key: in normal mode a press of `q`
/// quits and the arrows move the menu selection.
pub open spec fn key_action(a: AppView, key: Key, pressed: bool) -> KeyAction {
    if a.mode == AppMode::Normal && pressed {
        match key {
            Key::Char(c) => if c == 'q' {
                KeyAction::Quit
            } else {
                KeyAction::Continue
            },
            Key::Down => KeyAction::SelectNext,
            Key::Up => KeyAction::SelectPrevious,
            _ => KeyAction::Continue,
        }
    } else {
        KeyAction::Continue
    }
}

/// Whether the editor cannot apply the key (see `key_fails`).
pub fn key_would_fail(app: &App, key: Key, pressed: bool) -> (res: bool)
    ensures
        res == key_fails(app@, key, pressed),
{
    if !(app.is_in_edit_mode() && key != Key::Esc && pressed) {
        return false;
    }
    match app.current_note() {
        None => false,
        Some(note) => match key {
            Key::Char(c) => !note.can_insert_char(c),
            Key::Enter => !note.can_insert_char('\n'),
            Key::Backspace => !note.can_remove_char(),
            _ => false,
        },
    }
}

/// Answers a key event (`pressed` tells a press from a release or repeat).
pub fn handle_key(app: &mut App, key: Key, pressed: bool) -> (res: KeyAction)
    requires
        !key_fails(old(app)@, key, pressed),
    ensures
        final(app)@ == after_key(old(app)@, key, pressed),
        res == key_action(old(app)@, key, pressed),
        res == KeyAction::Quit <==> (old(app)@.mode == AppMode::Normal && pressed && key
            == Key::Char('q')),
        res == KeyAction::SelectNext <==> (old(app)@.mode == AppMode::Normal && pressed && key
            == Key::Down),
        res == KeyAction::SelectPrevious <==> (old(app)@.mode == AppMode::Normal && pressed
            && key == Key::Up),
        old(app)@.mode == AppMode::Editing ==> res == KeyAction::Continue,
        final(app)@.current == old(app)@.current,
        final(app)@.notes.len() == old(app)@.notes.len(),
{
    match app.mode() {
        AppMode::Normal => {
            if pressed {
                match key {
                    Key::Char(c) => {
                        if c == 'q' {
                            return KeyAction::Quit;
                        }
                    },
                    Key::Down => {
                        return KeyAction::SelectNext;
                    },
                    Key::Up => {
                        return KeyAction::SelectPrevious;
                    },
                    Key::Enter => {
                        app.set_to_editing();
                    },
                    _ => {},
                }
            }
            KeyAction::Continue
        },
        AppMode::Editing => {
            if key == Key::Esc {
                app.set_to_normal();
                return KeyAction::Continue;
            }
            if pressed {
                let ghost before = app@;
                match app.current_note_mut() {
                    Some(note) => {
                        let ghost i = before.current.unwrap();
                        assert(note@ == before.notes[i as int]);
                        match key {
                            Key::Char(c) => note.insert_char_at_current_position(c),
                            Key::Backspace => note.remove_char_at_current_position(),
                            Key::Enter => note.insert_char_at_current_position('\n'),
                            Key::Left => note.move_cursor_previos(),
                            Key::Right => note.move_cursor_next(),
                            _ => {},
                        }
                        assert(note@ == edited_note(before.notes[i as int], key));
                    },
                    None => {
                        assert(app@ == before);
                    },
                }
                assert(app@.notes =~= after_key(before, key, pressed).notes);
                assert(app@ == after_key(before, key, pressed));
            }
            KeyAction::Continue
        },
    }
}

/// A collaborator's command can be applied: a cursor report names a note.
pub open spec fn command_applies(a: AppView, cmd: Command) -> bool {
    match cmd {
        Command::SetCursorPosition(p) => p.note_id < a.notes.len(),
        _ => true,
    }
}

/// The application state after a collaborator's command: a cursor report
/// sets that note's collaborator position; the other commands change
/// nothing.
pub open spec fn after_command(a: AppView, cmd: Command) -> AppView {
    match cmd {
        Command::SetCursorPosition(p) => AppView {
            notes: a.notes.update(
                p.note_id as int,
                EditorNoteView { collaborator_position: p.pos, ..a.notes[p.note_id as int] },
            ),
            ..a
        },
        _ => a,
    }
}

/// Applies a command received from the collaborator.
pub fn apply_command(app: &mut App, cmd: Command)
    requires
        command_applies(old(app)@, cmd),
    ensures
        final(app)@ == after_command(old(app)@, cmd),
        cmd matches Command::SetCursorPosition(p) ==> {
            &&& final(app)@.notes.len() == old(app)@.notes.len()
            &&& final(app)@.notes[p.note_id as int].collaborator_position == p.pos
            &&& final(app)@.notes[p.note_id as int].cursor_position == old(app)@.notes[p.note_id as int].cursor_position
            &&& final(app)@.notes[p.note_id as int].note == old(app)@.notes[p.note_id as int].note
            &&& forall|j: int|
                0 <= j < old(app)@.notes.len() && j != p.note_id ==> #[trigger] final(app)@.notes[j]
                    == old(app)@.notes[j]
        },
        !(cmd is SetCursorPosition) ==> final(app)@ == old(app)@,
        final(app)@.current == old(app)@.current,
        final(app)@.mode == old(app)@.mode,
{
    match cmd {
        Command::SetCursorPosition(p) => {
            app.set_collaborator_position(p.note_id, p.pos);
            assert(app@ =~= after_command(old(app)@, Command::SetCursorPosition(p)));
            proof {
                lemma_cursor_report_sets_named_note(old(app)@, p.note_id, p.pos);
            }
        },
        Command::InsertString(_) => {},
        Command::Info(_) => {},
    }
}

/// What a key does, whatever the application state: only a press of `q` in
/// normal mode quits; only a press of Down or Up in normal mode moves the
/// menu selection; in editing mode every key answers `Continue`. No key
/// changes the selection or the number of notes, and a key in normal mode
/// changes no note.
pub proof fn lemma_key_laws(a: AppView, key: Key, pressed: bool)
    ensures
        key_action(a, key, pressed) == KeyAction::Quit <==> (a.mode == AppMode::Normal && pressed
            && key == Key::Char('q')),
        key_action(a, key, pressed) == KeyAction::SelectNext <==> (a.mode == AppMode::Normal
            && pressed && key == Key::Down),
        key_action(a, key, pressed) == KeyAction::SelectPrevious <==> (a.mode == AppMode::Normal
            && pressed && key == Key::Up),
        a.mode == AppMode::Editing ==> key_action(a, key, pressed) == KeyAction::Continue,
        after_key(a, key, pressed).current == a.current,
        selection_valid(a) ==> after_key(a, key, pressed).notes.len() == a.notes.len(),
        a.mode == AppMode::Normal ==> after_key(a, key, pressed).notes == a.notes,
        a.mode == AppMode::Editing ==> (after_key(a, key, pressed).mode == AppMode::Normal
            <==> key == Key::Esc),
        a.mode == AppMode::Normal ==> (after_key(a, key, pressed).mode == AppMode::Editing
            <==> (pressed && key == Key::Enter)),
{
}

/// In editing mode a key changes at most the selected note; every other
/// note stays as it was.
pub proof fn lemma_key_edits_only_selected(a: AppView, key: Key, pressed: bool, j: int)
    requires
        selection_valid(a),
        0 <= j < a.notes.len(),
        a.current != Some(j as usize),
    ensures
        after_key(a, key, pressed).notes[j] == a.notes[j],
{
}

/// A cursor report sets the collaborator position of the note it names,
/// whatever note is selected, and changes nothing else: it is the same step
/// as `App::set_collaborator_position`.
pub proof fn lemma_cursor_report_sets_named_note(a: AppView, note_id: usize, pos: usize)
    requires
        note_id < a.notes.len(),
    ensures
        after_command(a, Command::SetCursorPosition(SetCursorPosition { note_id, pos }))
            == with_collaborator(a, note_id as int, pos),
        after_command(
            a,
            Command::SetCursorPosition(SetCursorPosition { note_id, pos }),
        ).notes[note_id as int].collaborator_position == pos,
        after_command(
            a,
            Command::SetCursorPosition(SetCursorPosition { note_id, pos }),
        ).notes[note_id as int].note == a.notes[note_id as int].note,
        forall|j: int|
            0 <= j < a.notes.len() && j != note_id ==> #[trigger] after_command(
                a,
                Command::SetCursorPosition(SetCursorPosition { note_id, pos }),
            ).notes[j] == a.notes[j],
        after_command(
            a,
            Command::SetCursorPosition(SetCursorPosition { note_id, pos }),
        ).current == a.current,
{
    let b = after_command(a, Command::SetCursorPosition(SetCursorPosition { note_id, pos }));
    assert(b.notes =~= with_collaborator(a, note_id as int, pos).notes);
}

} // verus!
