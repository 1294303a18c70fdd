//! What holds after any sequence of operations on the application: each
//! operation is the step that its function's contract states, and the laws
//! here follow a whole history of them.
use vstd::prelude::*;

use crate::app::{
    can_insert, can_remove, default_date, deselected, inserted, lemma_cursor_stays_within_text,
    moved_next, moved_previous, removed, sample_app, sample_note, selected, selection_valid,
    with_collaborator, with_mode, AppMode, AppView, EditorNoteView,
};
use crate::text::byte_len;

verus! {

/// An operation on an open note (an `EditorNote` method).
pub enum NoteOp {
    /// `move_cursor_next`
    Next,
    /// `move_cursor_previos`
    Previous,
    /// `insert_char_at_current_position`
    Insert(char),
    /// `remove_char_at_current_position`
    Backspace,
}

/// The note after an operation.
pub open spec fn note_step(n: EditorNoteView, op: NoteOp) -> EditorNoteView {
    match op {
        NoteOp::Next => moved_next(n),
        NoteOp::Previous => moved_previous(n),
        NoteOp::Insert(c) => inserted(n, c),
        NoteOp::Backspace => removed(n),
    }
}

/// The operation can be applied to the note without failing.
pub open spec fn note_step_allowed(n: EditorNoteView, op: NoteOp) -> bool {
    match op {
        NoteOp::Insert(c) => can_insert(n, c),
        NoteOp::Backspace => can_remove(n),
        _ => true,
    }
}

/// An operation on the application (an `App` method, or a note operation
/// on the selected note through `current_note_mut`).
pub enum AppOp {
    /// `set_current_note_index`
    Select(usize),
    /// `reset_current_node_index`
    Deselect,
    /// `set_to_editing`
    Editing,
    /// `set_to_normal`
    Normal,
    /// `set_collaborator_position`
    Collaborator(usize, usize),
    /// A note operation on the selected note.
    Edit(NoteOp),
}

/// The application after an operation.
pub open spec fn app_step(a: AppView, op: AppOp) -> AppView {
    match op {
        AppOp::Select(i) => selected(a, i),
        AppOp::Deselect => deselected(a),
        AppOp::Editing => with_mode(a, AppMode::Editing),
        AppOp::Normal => with_mode(a, AppMode::Normal),
        AppOp::Collaborator(i, pos) => with_collaborator(a, i as int, pos),
        AppOp::Edit(nop) => match a.current {
            Some(i) => AppView {
                notes: a.notes.update(i as int, note_step(a.notes[i as int], nop)),
                ..a
            },
            None => a,
        },
    }
}

/// The operation can be applied without failing.
pub open spec fn app_step_allowed(a: AppView, op: AppOp) -> bool {
    match op {
        AppOp::Collaborator(i, _) => i < a.notes.len(),
        AppOp::Edit(nop) => match a.current {
            Some(i) => note_step_allowed(a.notes[i as int], nop),
            None => true,
        },
        _ => true,
    }
}

/// The application after a sequence of operations.
pub open spec fn run(a: AppView, ops: Seq<AppOp>) -> AppView
    decreases ops.len(),
{
    if ops.len() == 0 {
        a
    } else {
        app_step(run(a, ops.drop_last()), ops.last())
    }
}

/// Every operation of the sequence can be applied in turn.
pub open spec fn runnable(a: AppView, ops: Seq<AppOp>) -> bool
    decreases ops.len(),
{
    ops.len() == 0 || (runnable(a, ops.drop_last()) && app_step_allowed(
        run(a, ops.drop_last()),
        ops.last(),
    ))
}

/// The mode after a sequence: that of the last mode switch, or `m` if there
/// is none.
pub open spec fn last_mode(m: AppMode, ops: Seq<AppOp>) -> AppMode
    decreases ops.len(),
{
    if ops.len() == 0 {
        m
    } else {
        match ops.last() {
            AppOp::Editing => AppMode::Editing,
            AppOp::Normal => AppMode::Normal,
            _ => last_mode(m, ops.drop_last()),
        }
    }
}

/// The selection after a sequence on an application with `count` notes:
/// that of the last selection that succeeded (an index below `count`) or
/// the last reset, whichever came later; `current` if there is neither.
pub open spec fn last_selection(current: Option<usize>, count: nat, ops: Seq<AppOp>) -> Option<
    usize,
>
    decreases ops.len(),
{
    if ops.len() == 0 {
        current
    } else {
        match ops.last() {
            AppOp::Select(i) => if i < count {
                Some(i)
            } else {
                last_selection(current, count, ops.drop_last())
            },
            AppOp::Deselect => None,
            _ => last_selection(current, count, ops.drop_last()),
        }
    }
}

/// No operation adds or removes notes, and the selection always names a
/// note.
pub proof fn lemma_history_keeps_note_count(a: AppView, ops: Seq<AppOp>)
    requires
        runnable(a, ops),
        selection_valid(a),
    ensures
        run(a, ops).notes.len() == a.notes.len(),
        selection_valid(run(a, ops)),
    decreases ops.len(),
{
    if ops.len() > 0 {
        lemma_history_keeps_note_count(a, ops.drop_last());
    }
}

/// The mode is the one that the last mode switch set.
pub proof fn lemma_history_mode(a: AppView, ops: Seq<AppOp>)
    ensures
        run(a, ops).mode == last_mode(a.mode, ops),
    decreases ops.len(),
{
    if ops.len() > 0 {
        lemma_history_mode(a, ops.drop_last());
    }
}

/// The selection is the one that the last successful selection or reset
/// made, and it always names a note.
pub proof fn lemma_history_selection(a: AppView, ops: Seq<AppOp>)
    requires
        runnable(a, ops),
        selection_valid(a),
    ensures
        run(a, ops).current == last_selection(a.current, a.notes.len(), ops),
        selection_valid(run(a, ops)),
    decreases ops.len(),
{
    if ops.len() > 0 {
        lemma_history_selection(a, ops.drop_last());
        lemma_history_keeps_note_count(a, ops.drop_last());
    }
}

/// A note is sound: its cursor lies within its text.
pub open spec fn note_sound(n: EditorNoteView) -> bool {
    n.cursor_position <= byte_len(n.note.content)
}

/// Every note of an application is sound, and note `j` keeps the title and
/// date that it had in `a0`.
pub open spec fn notes_kept(a0: AppView, a: AppView) -> bool {
    &&& a.notes.len() == a0.notes.len()
    &&& forall|j: int|
        0 <= j < a.notes.len() ==> {
            &&& note_sound(#[trigger] a.notes[j])
            &&& a.notes[j].note.title == a0.notes[j].note.title
            &&& a.notes[j].note.date == a0.notes[j].note.date
        }
}

/// A note operation keeps the note sound, and keeps its title and date.
pub proof fn lemma_note_step_keeps(n: EditorNoteView, op: NoteOp)
    requires
        note_sound(n),
        note_step_allowed(n, op),
    ensures
        note_sound(note_step(n, op)),
        note_step(n, op).note.title == n.note.title,
        note_step(n, op).note.date == n.note.date,
{
    match op {
        NoteOp::Insert(c) => lemma_cursor_stays_within_text(n, c),
        _ => lemma_cursor_stays_within_text(n, ' '),
    }
}

/// Over any history, every cursor stays within its note's text, and no
/// note's title or date changes.
pub proof fn lemma_history_keeps_notes(a: AppView, ops: Seq<AppOp>)
    requires
        runnable(a, ops),
        selection_valid(a),
        forall|j: int| 0 <= j < a.notes.len() ==> note_sound(#[trigger] a.notes[j]),
    ensures
        notes_kept(a, run(a, ops)),
    decreases ops.len(),
{
    if ops.len() > 0 {
        let p = ops.drop_last();
        lemma_history_keeps_notes(a, p);
        lemma_history_selection(a, p);
        let b = run(a, p);
        let c = run(a, ops);
        match ops.last() {
            AppOp::Edit(nop) => {
                if let Some(i) = b.current {
                    lemma_note_step_keeps(b.notes[i as int], nop);
                    assert forall|j: int| 0 <= j < c.notes.len() implies {
                        &&& note_sound(#[trigger] c.notes[j])
                        &&& c.notes[j].note.title == a.notes[j].note.title
                        &&& c.notes[j].note.date == a.notes[j].note.date
                    } by {
                        if j != i {
                            assert(c.notes[j] == b.notes[j]);
                        }
                    }
                }
            },
            AppOp::Collaborator(i, pos) => {
                assert forall|j: int| 0 <= j < c.notes.len() implies {
                    &&& note_sound(#[trigger] c.notes[j])
                    &&& c.notes[j].note.title == a.notes[j].note.title
                    &&& c.notes[j].note.date == a.notes[j].note.date
                } by {
                    assert(b.notes[j].note == c.notes[j].note);
                    assert(b.notes[j].cursor_position == c.notes[j].cursor_position);
                    assert(note_sound(b.notes[j]));
                }
            },
            _ => {},
        }
    }
}

/// The application made by `App::new_with_dummy`, after any history: it
/// still has the six notes, with their titles and the default date; every
/// cursor lies within its text; the mode is the last one switched to, and
/// the selection is the last one made.
pub proof fn lemma_sample_history(ops: Seq<AppOp>)
    requires
        runnable(sample_app(), ops),
    ensures
        run(sample_app(), ops).notes.len() == 6,
        forall|j: int|
            0 <= j < 6 ==> {
                &&& note_sound(#[trigger] run(sample_app(), ops).notes[j])
                &&& run(sample_app(), ops).notes[j].note.title == sample_note(j).note.title
                &&& run(sample_app(), ops).notes[j].note.date == default_date()
            },
        run(sample_app(), ops).mode == last_mode(AppMode::Normal, ops),
        run(sample_app(), ops).current == last_selection(None, 6, ops),
        selection_valid(run(sample_app(), ops)),
{
    let a = sample_app();
    assert forall|j: int| 0 <= j < a.notes.len() implies note_sound(#[trigger] a.notes[j]) by {
        assert(a.notes[j] == sample_note(j));
        crate::text::lemma_boundary_ends(a.notes[j].note.content);
    }
    lemma_history_keeps_notes(a, ops);
    lemma_history_mode(a, ops);
    lemma_history_selection(a, ops);
    let c = run(a, ops);
    assert forall|j: int| 0 <= j < 6 implies {
        &&& note_sound(#[trigger] c.notes[j])
        &&& c.notes[j].note.title == sample_note(j).note.title
        &&& c.notes[j].note.date == default_date()
    } by {
        assert(a.notes[j] == sample_note(j));
    }
}

/// The application made by `App::new`, after any history: it still has no
/// notes, and nothing is selected.
pub proof fn lemma_empty_history(ops: Seq<AppOp>)
    requires
        runnable(crate::app::empty_app(), ops),
    ensures
        run(crate::app::empty_app(), ops).notes.len() == 0,
        run(crate::app::empty_app(), ops).current is None,
{
    let a = crate::app::empty_app();
    lemma_history_keeps_note_count(a, ops);
    lemma_history_selection(a, ops);
}

} // verus!
