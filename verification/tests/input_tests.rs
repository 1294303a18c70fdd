use collab_notes::app::{App, AppMode};
use collab_notes::collaboration::{Command, SetCursorPosition};
use collab_notes::input::{apply_command, handle_key, key_would_fail, Key, KeyAction};

fn editing_note(index: usize) -> App {
    let mut app = App::new_with_dummy();
    app.set_current_note_index(index).unwrap();
    assert_eq!(handle_key(&mut app, Key::Enter, true), KeyAction::Continue);
    assert_eq!(app.mode(), AppMode::Editing);
    app
}

#[test]
fn normal_mode_keys() {
    let mut app = App::new_with_dummy();
    assert_eq!(handle_key(&mut app, Key::Char('q'), true), KeyAction::Quit);
    assert_eq!(handle_key(&mut app, Key::Down, true), KeyAction::SelectNext);
    assert_eq!(handle_key(&mut app, Key::Up, true), KeyAction::SelectPrevious);
    assert_eq!(handle_key(&mut app, Key::Char('x'), true), KeyAction::Continue);
    assert_eq!(handle_key(&mut app, Key::Char('q'), false), KeyAction::Continue);
    assert_eq!(handle_key(&mut app, Key::Enter, false), KeyAction::Continue);
    assert_eq!(app.mode(), AppMode::Normal);
    assert_eq!(handle_key(&mut app, Key::Enter, true), KeyAction::Continue);
    assert_eq!(app.mode(), AppMode::Editing);
}

#[test]
fn editing_keys_change_the_selected_note() {
    let mut app = editing_note(0);
    handle_key(&mut app, Key::Char('a'), true);
    handle_key(&mut app, Key::Enter, true);
    handle_key(&mut app, Key::Right, true);
    handle_key(&mut app, Key::Char('b'), false);
    assert_eq!(app.current_note().unwrap().content(), "a\nContent of Note 1");
    assert_eq!(app.current_note().unwrap().cursor_position(), 3);
    handle_key(&mut app, Key::Left, true);
    handle_key(&mut app, Key::Backspace, true);
    assert_eq!(app.current_note().unwrap().content(), "aContent of Note 1");
    assert_eq!(app.current_note().unwrap().cursor_position(), 1);
    assert_eq!(handle_key(&mut app, Key::Char('q'), true), KeyAction::Continue);
    assert_eq!(app.current_note().unwrap().content(), "aqContent of Note 1");
}

#[test]
fn escape_returns_to_normal_mode() {
    let mut app = editing_note(2);
    assert_eq!(handle_key(&mut app, Key::Esc, false), KeyAction::Continue);
    assert_eq!(app.mode(), AppMode::Normal);
    assert_eq!(app.current_note().unwrap().content(), "Content of Note 3");
}

#[test]
fn editing_without_selection_changes_nothing() {
    let mut app = App::new_with_dummy();
    app.set_to_editing();
    assert_eq!(handle_key(&mut app, Key::Char('z'), true), KeyAction::Continue);
    assert!(!key_would_fail(&app, Key::Char('z'), true));
    app.set_current_note_index(0).unwrap();
    assert_eq!(app.current_note().unwrap().content(), "Content of Note 1");
}

#[test]
fn typing_after_a_multibyte_char_would_fail() {
    let mut app = editing_note(0);
    assert!(!key_would_fail(&app, Key::Char('é'), true));
    handle_key(&mut app, Key::Char('é'), true);
    assert_eq!(app.current_note().unwrap().cursor_position(), 1);
    assert!(key_would_fail(&app, Key::Char('x'), true));
    assert!(key_would_fail(&app, Key::Enter, true));
    assert!(!key_would_fail(&app, Key::Char('x'), false));
    assert!(!key_would_fail(&app, Key::Right, true));
    handle_key(&mut app, Key::Right, true);
    assert!(!key_would_fail(&app, Key::Char('x'), true));
    assert!(key_would_fail(&app, Key::Backspace, true));
    handle_key(&mut app, Key::Right, true);
    assert!(!key_would_fail(&app, Key::Backspace, true));
}

#[test]
fn cursor_reports_set_the_collaborator_position() {
    let mut app = App::new_with_dummy();
    apply_command(&mut app, Command::SetCursorPosition(SetCursorPosition { note_id: 3, pos: 9 }));
    apply_command(&mut app, Command::Info("hello".to_string()));
    app.set_current_note_index(3).unwrap();
    assert_eq!(app.current_note().unwrap().collaborator_position(), 9);
    app.set_current_note_index(2).unwrap();
    assert_eq!(app.current_note().unwrap().collaborator_position(), 0);
}
