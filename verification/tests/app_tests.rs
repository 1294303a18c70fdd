use collab_notes::app::{App, AppMode};

fn dummy_with_selection(index: usize) -> App {
    let mut app = App::new_with_dummy();
    app.set_current_note_index(index).unwrap();
    app
}

#[test]
fn new_app_is_empty_and_normal() {
    let app = App::new();
    assert_eq!(app.notes_count(), 0);
    assert_eq!(app.current_note_id(), None);
    assert!(app.current_note().is_none());
    assert_eq!(app.mode(), AppMode::Normal);
    assert!(app.is_in_normal_mode());
    assert!(!app.is_in_edit_mode());
}

#[test]
fn dummy_app_has_six_sample_notes() {
    let app = App::new_with_dummy();
    assert_eq!(app.notes_count(), 6);
    assert_eq!(
        app.titles(),
        vec!["Note 1", "Note 2", "Note 3", "Note 4", "Note 5", "Note 6"]
    );
    let app = dummy_with_selection(3);
    let note = app.current_note().unwrap();
    assert_eq!(note.title(), "Note 4");
    assert_eq!(note.content(), "Content of Note 4");
    assert_eq!(note.date(), "01.01.2025 18:30");
    assert_eq!(note.cursor_position(), 0);
    assert_eq!(note.collaborator_position(), 0);
}

#[test]
fn selecting_a_note_in_range_succeeds() {
    let mut app = App::new_with_dummy();
    assert_eq!(app.set_current_note_index(5), Ok(()));
    assert_eq!(app.current_note_id(), Some(5));
    assert_eq!(app.current_note().unwrap().title(), "Note 6");
    app.reset_current_node_index();
    assert_eq!(app.current_note_id(), None);
    assert!(app.current_note().is_none());
}

#[test]
fn selecting_a_note_out_of_range_is_refused() {
    let mut app = App::new_with_dummy();
    app.set_current_note_index(1).unwrap();
    assert_eq!(
        app.set_current_note_index(6),
        Err("index can not be greater than item count".to_string())
    );
    assert_eq!(app.current_note_id(), Some(1));
    let mut empty = App::new();
    assert!(empty.set_current_note_index(0).is_err());
    assert_eq!(empty.current_note_id(), None);
}

#[test]
fn modes_switch() {
    let mut app = App::new_with_dummy();
    app.set_to_editing();
    assert_eq!(app.mode(), AppMode::Editing);
    assert!(app.is_in_edit_mode());
    assert!(!app.is_in_normal_mode());
    app.set_to_normal();
    assert_eq!(app.mode(), AppMode::Normal);
    assert!(app.is_in_normal_mode());
    assert!(!app.is_in_edit_mode());
}

#[test]
fn collaborator_position_is_recorded() {
    let mut app = dummy_with_selection(2);
    app.set_collaborator_position(2, 11);
    app.set_collaborator_position(0, 4);
    assert_eq!(app.current_note().unwrap().collaborator_position(), 11);
    app.set_current_note_index(0).unwrap();
    assert_eq!(app.current_note().unwrap().collaborator_position(), 4);
    assert_eq!(app.current_note().unwrap().cursor_position(), 0);
}

#[test]
fn cursor_moves_within_the_text() {
    let mut app = dummy_with_selection(0);
    let note = app.current_note_mut().unwrap();
    note.move_cursor_previos();
    assert_eq!(note.cursor_position(), 0);
    for _ in 0..17 {
        note.move_cursor_next();
    }
    assert_eq!(note.cursor_position(), 17);
    note.move_cursor_next();
    assert_eq!(note.cursor_position(), 17);
    note.move_cursor_previos();
    assert_eq!(note.cursor_position(), 16);
}

#[test]
fn typing_inserts_at_the_cursor() {
    let mut app = dummy_with_selection(0);
    let note = app.current_note_mut().unwrap();
    note.insert_char_at_current_position('X');
    assert_eq!(note.content(), "XContent of Note 1");
    assert_eq!(note.cursor_position(), 1);
    for _ in 0..7 {
        note.move_cursor_next();
    }
    note.insert_char_at_current_position('\n');
    assert_eq!(note.content(), "XContent\n of Note 1");
    assert_eq!(note.cursor_position(), 9);
    assert_eq!(app.current_note().unwrap().content(), "XContent\n of Note 1");
}

#[test]
fn backspace_removes_before_the_cursor() {
    let mut app = dummy_with_selection(1);
    let note = app.current_note_mut().unwrap();
    note.remove_char_at_current_position();
    assert_eq!(note.content(), "Content of Note 2");
    assert_eq!(note.cursor_position(), 0);
    for _ in 0..7 {
        note.move_cursor_next();
    }
    note.remove_char_at_current_position();
    assert_eq!(note.content(), "Conten of Note 2");
    assert_eq!(note.cursor_position(), 6);
}

#[test]
fn multibyte_char_moves_cursor_one_byte() {
    let mut app = dummy_with_selection(0);
    let note = app.current_note_mut().unwrap();
    note.insert_char_at_current_position('é');
    assert_eq!(note.content(), "éContent of Note 1");
    assert_eq!(note.content().len(), 19);
    assert_eq!(note.cursor_position(), 1);
}

#[test]
fn insert_then_backspace_restores_the_note() {
    let mut app = dummy_with_selection(4);
    let note = app.current_note_mut().unwrap();
    for _ in 0..3 {
        note.move_cursor_next();
    }
    for c in ['a', 'é', '€', '😀', '\n'] {
        note.insert_char_at_current_position(c);
        note.remove_char_at_current_position();
        assert_eq!(note.content(), "Content of Note 5");
        assert_eq!(note.cursor_position(), 3);
    }
}

#[test]
fn next_then_previous_restores_the_cursor() {
    let mut app = dummy_with_selection(5);
    let note = app.current_note_mut().unwrap();
    note.move_cursor_next();
    note.move_cursor_next();
    note.move_cursor_next();
    note.move_cursor_previos();
    assert_eq!(note.cursor_position(), 2);
    note.move_cursor_previos();
    note.move_cursor_next();
    assert_eq!(note.cursor_position(), 2);
}

#[test]
fn a_history_keeps_notes_dates_and_cursors() {
    let mut app = App::new_with_dummy();
    app.set_current_note_index(2).unwrap();
    app.set_to_editing();
    {
        let note = app.current_note_mut().unwrap();
        for c in "héllo\n".chars() {
            if note.content().is_char_boundary(note.cursor_position()) {
                note.insert_char_at_current_position(c);
            } else {
                note.move_cursor_next();
            }
        }
        note.remove_char_at_current_position();
        for _ in 0..40 {
            note.move_cursor_next();
        }
    }
    app.set_collaborator_position(4, 3);
    assert!(app.set_current_note_index(9).is_err());
    app.set_to_normal();
    app.reset_current_node_index();
    assert_eq!(app.notes_count(), 6);
    assert_eq!(app.mode(), AppMode::Normal);
    assert_eq!(app.current_note_id(), None);
    for i in 0..6 {
        app.set_current_note_index(i).unwrap();
        let note = app.current_note().unwrap();
        assert_eq!(note.date(), "01.01.2025 18:30");
        assert_eq!(note.title(), format!("Note {}", i + 1));
        assert!(note.cursor_position() <= note.content().len());
    }
}
