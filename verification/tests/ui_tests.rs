use collab_notes::app::App;
use collab_notes::ui::{cursor_offset, footer_text, menu_title};

#[test]
fn cursor_offset_on_first_line() {
    assert_eq!(cursor_offset("hello", 0), (0, 0));
    assert_eq!(cursor_offset("hello", 3), (3, 0));
    assert_eq!(cursor_offset("hello", 5), (5, 0));
}

#[test]
fn cursor_offset_after_line_breaks() {
    assert_eq!(cursor_offset("ab\ncd\nef", 4), (1, 1));
    assert_eq!(cursor_offset("ab\ncd\nef", 6), (0, 2));
    assert_eq!(cursor_offset("ab\ncd\nef", 8), (2, 2));
    assert_eq!(cursor_offset("\n\n", 2), (0, 2));
}

#[test]
fn cursor_offset_counts_bytes() {
    assert_eq!(cursor_offset("é\nxé", 3), (0, 1));
    assert_eq!(cursor_offset("é\nxé", 6), (3, 1));
    assert_eq!(cursor_offset("€a", 4), (4, 0));
}

#[test]
fn menu_title_counts_notes() {
    assert_eq!(menu_title(6), "Notes [6]");
    assert_eq!(menu_title(0), "Notes [0]");
    assert_eq!(menu_title(120), "Notes [120]");
}

#[test]
fn footer_without_selection() {
    let app = App::new_with_dummy();
    assert_eq!(footer_text(&app), "Note Count: 6");
    assert_eq!(footer_text(&App::new()), "Note Count: 0");
}

#[test]
fn footer_with_selection() {
    let mut app = App::new_with_dummy();
    app.set_current_note_index(1).unwrap();
    {
        let note = app.current_note_mut().unwrap();
        note.insert_char_at_current_position('é');
    }
    assert_eq!(
        footer_text(&app),
        "Note Count: 6 | Char Count: 19 | Position: 1 | Date: 01.01.2025 18:30"
    );
}
