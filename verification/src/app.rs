//! The notes, the note being edited with its cursors, and the application
//! state around them.
use vstd::prelude::*;
use vstd::utf8::encode_scalar;
use vstd::utf8::encode_utf8;

use crate::text::{
    byte_len, char_index, char_width, is_boundary, is_char_boundary_at, lemma_boundary,
    lemma_byte_len_concat, lemma_byte_len_single, lemma_char_index_of_prefix, lemma_char_width,
    lemma_encode_concat, str_byte_len, string_insert, string_remove, utf8_width,
};

verus! {

/// Whether the user is browsing the note list or editing a note.
#[derive(PartialEq, Eq, Clone, Copy, Debug, Structural)]
pub enum AppMode {
    Normal,
    Editing,
}

/// A note: a title, a text and a date.
pub struct Note {
    title: String,
    content: String,
    date: String,
}

/// What a note holds.
pub struct NoteView {
    pub title: Seq<char>,
    pub content: Seq<char>,
    pub date: Seq<char>,
}

impl View for Note {
    type V = NoteView;

    closed spec fn view(&self) -> NoteView {
        NoteView { title: self.title@, content: self.content@, date: self.date@ }
    }
}

/// The message with which an out-of-range selection is refused.
pub open spec fn index_error_message() -> Seq<char> {
    "index can not be greater than item count"@
}

/// The date that every new note carries.
pub open spec fn default_date() -> Seq<char> {
    "01.01.2025 18:30"@
}

impl Note {
    /// A note with the given title and text and the default date.
    pub fn new(title: String, content: String) -> (res: Self)
        ensures
            res@ == (NoteView { title: title@, content: content@, date: default_date() }),
    {
        Note { title, content, date: "01.01.2025 18:30".to_string() }
    }
}

/// A note opened in the editor, with the user's cursor and the position
/// that a collaborator reported. The cursor is a byte offset into the text.
pub struct EditorNote {
    cursor_position: usize,
    collaborator_position: usize,
    note: Note,
}

/// What an editor note holds.
pub struct EditorNoteView {
    pub cursor_position: usize,
    pub collaborator_position: usize,
    pub note: NoteView,
}

impl View for EditorNote {
    type V = EditorNoteView;

    closed spec fn view(&self) -> EditorNoteView {
        EditorNoteView {
            cursor_position: self.cursor_position,
            collaborator_position: self.collaborator_position,
            note: self.note@,
        }
    }
}

/// The same note with another cursor.
pub open spec fn with_cursor(n: EditorNoteView, cursor: usize) -> EditorNoteView {
    EditorNoteView { cursor_position: cursor, ..n }
}

/// The same note with another text.
pub open spec fn with_content(n: EditorNoteView, content: Seq<char>) -> EditorNoteView {
    EditorNoteView { note: NoteView { content, ..n.note }, ..n }
}

/// The cursor one byte further, unless it is at the end of the text.
pub open spec fn moved_next(n: EditorNoteView) -> EditorNoteView {
    if n.cursor_position < byte_len(n.note.content) {
        with_cursor(n, (n.cursor_position + 1) as usize)
    } else {
        n
    }
}

/// The cursor one byte back, unless it is at the start of the text.
pub open spec fn moved_previous(n: EditorNoteView) -> EditorNoteView {
    if n.cursor_position > 0 {
        with_cursor(n, (n.cursor_position - 1) as usize)
    } else {
        n
    }
}

/// A char can be typed at the cursor: the cursor is a char boundary and the
/// text stays within the size a `String` can have.
pub open spec fn can_insert(n: EditorNoteView, c: char) -> bool {
    &&& is_boundary(n.note.content, n.cursor_position as int)
    &&& byte_len(n.note.content) + char_width(c) <= isize::MAX
}

/// The note after typing `c`: the char goes in at the cursor, then the
/// cursor moves one byte on.
pub open spec fn inserted(n: EditorNoteView, c: char) -> EditorNoteView {
    let s = n.note.content;
    moved_next(with_content(n, s.insert(char_index(s, n.cursor_position as int), c)))
}

/// A backspace can be applied: the cursor is at the start, or the byte
/// before it starts a char.
pub open spec fn can_remove(n: EditorNoteView) -> bool {
    n.cursor_position == 0 || (is_boundary(n.note.content, n.cursor_position - 1)
        && n.cursor_position - 1 < byte_len(n.note.content))
}

/// The note after a backspace: at the start nothing changes; elsewhere the
/// char that starts one byte before the cursor goes, and the cursor moves
/// one byte back.
pub open spec fn removed(n: EditorNoteView) -> EditorNoteView {
    let s = n.note.content;
    if n.cursor_position == 0 {
        n
    } else {
        moved_previous(with_content(n, s.remove(char_index(s, n.cursor_position - 1))))
    }
}

/// The application is in exactly one of its two modes.
pub proof fn lemma_one_mode_at_a_time(a: AppView)
    ensures
        (a.mode == AppMode::Normal) != (a.mode == AppMode::Editing),
{
}

/// Splitting a text at a boundary splits its byte length there.
proof fn lemma_split_at_boundary(s: Seq<char>, idx: int)
    requires
        is_boundary(s, idx),
    ensures
        s =~= s.take(char_index(s, idx)) + s.skip(char_index(s, idx)),
        byte_len(s) == idx + byte_len(s.skip(char_index(s, idx))),
{
    let k = char_index(s, idx);
    lemma_boundary(s, idx);
    assert(s =~= s.take(k) + s.skip(k));
    lemma_byte_len_concat(s.take(k), s.skip(k));
}

/// Putting a char in at a boundary: the text is the part before, the char
/// and the part after; the part before is unchanged; the byte length grows
/// by the char's width, which is at least one byte.
proof fn lemma_insert_at_boundary(s: Seq<char>, cur: int, c: char)
    requires
        is_boundary(s, cur),
    ensures
        ({
            let k = char_index(s, cur);
            let s2 = s.insert(k, c);
            &&& 0 <= k <= s.len()
            &&& s2 =~= s.take(k) + seq![c] + s.skip(k)
            &&& s2.take(k) =~= s.take(k)
            &&& s2.take(k + 1) =~= s.take(k) + seq![c]
            &&& byte_len(s.take(k)) == cur
            &&& cur <= byte_len(s)
            &&& byte_len(s2.take(k + 1)) == cur + char_width(c)
            &&& byte_len(s2) == byte_len(s) + char_width(c)
            &&& 1 <= char_width(c) <= 4
            &&& (c as u32) < 0x80 ==> char_width(c) == 1
        }),
{
    let k = char_index(s, cur);
    lemma_split_at_boundary(s, cur);
    lemma_boundary(s, cur);
    let s2 = s.insert(k, c);
    assert(s2 =~= s.take(k) + seq![c] + s.skip(k));
    assert(s2.take(k) =~= s.take(k));
    assert(s2.take(k + 1) =~= s.take(k) + seq![c]);
    lemma_byte_len_concat(s.take(k) + seq![c], s.skip(k));
    lemma_byte_len_concat(s.take(k), seq![c]);
    lemma_byte_len_single(c);
    lemma_char_width(c);
}

/// Typing puts the char's encoding into the text's bytes at the cursor and
/// moves the cursor one byte on; the rest of the note stays as it was.
pub proof fn lemma_typing_effect(n: EditorNoteView, c: char)
    requires
        can_insert(n, c),
    ensures
        encode_utf8(inserted(n, c).note.content) == encode_utf8(n.note.content).take(
            n.cursor_position as int,
        ) + encode_scalar(c as u32) + encode_utf8(n.note.content).skip(n.cursor_position as int),
        inserted(n, c).note.content.len() == n.note.content.len() + 1,
        inserted(n, c).cursor_position == n.cursor_position + 1,
        inserted(n, c).collaborator_position == n.collaborator_position,
        inserted(n, c).note.title == n.note.title,
        inserted(n, c).note.date == n.note.date,
{
    let s = n.note.content;
    let cur = n.cursor_position as int;
    let k = char_index(s, cur);
    lemma_insert_at_boundary(s, cur, c);
    let s2 = s.insert(k, c);
    lemma_encode_concat(s.take(k) + seq![c], s.skip(k));
    lemma_encode_concat(s.take(k), seq![c]);
    lemma_encode_concat(s.take(k), s.skip(k));
    assert(s.take(k) + s.skip(k) =~= s);
    assert(encode_utf8(seq![c]) =~= encode_scalar(c as u32)) by {
        assert(seq![c].drop_first() =~= Seq::<char>::empty());
        assert(encode_utf8(Seq::<char>::empty()) =~= Seq::<u8>::empty());
    }
    let e = encode_utf8(s);
    assert(e.take(cur) =~= encode_utf8(s.take(k)));
    assert(e.skip(cur) =~= encode_utf8(s.skip(k)));
}

/// A backspace away from the start takes the encoding of the char before
/// the cursor out of the text's bytes and moves the cursor one byte back;
/// the rest of the note stays as it was.
pub proof fn lemma_backspace_effect(n: EditorNoteView)
    requires
        can_remove(n),
        n.cursor_position > 0,
    ensures
        ({
            let s = n.note.content;
            let gone = s[char_index(s, n.cursor_position - 1)];
            let e = encode_utf8(s);
            &&& encode_utf8(removed(n).note.content) == e.take(n.cursor_position - 1) + e.skip(
                n.cursor_position - 1 + char_width(gone),
            )
            &&& removed(n).note.content.len() + 1 == s.len()
        }),
        removed(n).cursor_position == n.cursor_position - 1,
        removed(n).collaborator_position == n.collaborator_position,
        removed(n).note.title == n.note.title,
        removed(n).note.date == n.note.date,
{
    let s = n.note.content;
    let idx = n.cursor_position - 1;
    let k = char_index(s, idx);
    lemma_boundary(s, idx);
    assert(k < s.len()) by {
        if k == s.len() {
            assert(s.take(k) =~= s);
        }
    }
    let gone = s[k];
    let s2 = s.remove(k);
    assert(s =~= s.take(k) + seq![gone] + s.skip(k + 1));
    assert(s2 =~= s.take(k) + s.skip(k + 1));
    lemma_encode_concat(s.take(k) + seq![gone], s.skip(k + 1));
    lemma_encode_concat(s.take(k), seq![gone]);
    lemma_encode_concat(s.take(k), s.skip(k + 1));
    lemma_byte_len_single(gone);
    let e = encode_utf8(s);
    assert(e.take(idx) =~= encode_utf8(s.take(k)));
    assert(e.skip(idx + char_width(gone)) =~= encode_utf8(s.skip(k + 1)));
}

/// Typing a char and then pressing backspace gives back the note as it was:
/// the same text and the same cursor, whatever the char.
pub proof fn lemma_insert_then_backspace(n: EditorNoteView, c: char)
    requires
        can_insert(n, c),
    ensures
        can_remove(inserted(n, c)),
        removed(inserted(n, c)) == n,
{
    let s = n.note.content;
    let cur = n.cursor_position as int;
    let k = char_index(s, cur);
    lemma_insert_at_boundary(s, cur, c);
    let s2 = s.insert(k, c);
    lemma_char_index_of_prefix(s2, k);
    let n1 = inserted(n, c);
    assert(n1.cursor_position == cur + 1);
    assert(n1.note.content == s2);
    assert(s2.remove(k) =~= s);
    let n2 = removed(n1);
    assert(n2.note.content == s);
    assert(n2.cursor_position == n.cursor_position);
    assert(n2.note == n.note);
}

/// Moving the cursor on and then back returns it where it was, when it was
/// not at the end; moving back and then on does the same when it was not at
/// the start (and within the text). (The byte length of a text in memory is
/// a `usize`.)
pub proof fn lemma_moves_undo(n: EditorNoteView)
    requires
        byte_len(n.note.content) <= usize::MAX,
    ensures
        n.cursor_position < byte_len(n.note.content) ==> moved_previous(moved_next(n)) == n,
        0 < n.cursor_position <= byte_len(n.note.content) ==> moved_next(moved_previous(n)) == n,
{
}

/// The cursor never leaves the text: if it is within the text, it stays so
/// under every editing step.
pub proof fn lemma_cursor_stays_within_text(n: EditorNoteView, c: char)
    requires
        n.cursor_position <= byte_len(n.note.content),
    ensures
        moved_next(n).cursor_position <= byte_len(moved_next(n).note.content),
        moved_previous(n).cursor_position <= byte_len(moved_previous(n).note.content),
        can_insert(n, c) ==> inserted(n, c).cursor_position <= byte_len(
            inserted(n, c).note.content,
        ),
        can_remove(n) ==> removed(n).cursor_position <= byte_len(removed(n).note.content),
{
    let s = n.note.content;
    let cur = n.cursor_position as int;
    if can_insert(n, c) {
        lemma_insert_at_boundary(s, cur, c);
    }
    if can_remove(n) && cur > 0 {
        lemma_backspace_keeps_boundary(n);
        lemma_boundary(removed(n).note.content, removed(n).cursor_position as int);
    }
}

/// A backspace leaves the cursor on a char boundary.
pub proof fn lemma_backspace_keeps_boundary(n: EditorNoteView)
    requires
        can_remove(n),
        n.cursor_position > 0,
    ensures
        is_boundary(removed(n).note.content, removed(n).cursor_position as int),
{
    let s = n.note.content;
    let idx = n.cursor_position - 1;
    let k = char_index(s, idx);
    lemma_boundary(s, idx);
    let s2 = s.remove(k);
    assert(s2.take(k) =~= s.take(k));
    lemma_char_index_of_prefix(s2, k);
}

/// Typing a one-byte (ASCII) char at a boundary leaves the cursor on a
/// boundary, so that typing can go on.
pub proof fn lemma_ascii_typing_keeps_boundary(n: EditorNoteView, c: char)
    requires
        can_insert(n, c),
        (c as u32) < 0x80,
    ensures
        is_boundary(inserted(n, c).note.content, inserted(n, c).cursor_position as int),
{
    let s = n.note.content;
    let cur = n.cursor_position as int;
    let k = char_index(s, cur);
    lemma_insert_at_boundary(s, cur, c);
    let s2 = s.insert(k, c);
    lemma_char_index_of_prefix(s2, k + 1);
}

impl EditorNote {
    /// Moves the cursor one byte on, unless it is at the end of the text.
    pub fn move_cursor_next(&mut self)
        ensures
            final(self)@ == moved_next(old(self)@),
    {
        if self.cursor_position < str_byte_len(self.note.content.as_str()) {
            self.cursor_position += 1;
        }
    }

    /// Moves the cursor one byte back, unless it is at the start.
    pub fn move_cursor_previos(&mut self)
        ensures
            final(self)@ == moved_previous(old(self)@),
    {
        if self.cursor_position > 0 {
            self.cursor_position -= 1;
        }
    }

    /// Types `c` at the cursor and moves the cursor one byte on.
    pub fn insert_char_at_current_position(&mut self, c: char)
        requires
            can_insert(old(self)@, c),
        ensures
            final(self)@ == inserted(old(self)@, c),
    {
        string_insert(&mut self.note.content, self.cursor_position, c);
        self.move_cursor_next();
    }

    /// Deletes the char before the cursor (a backspace).
    pub fn remove_char_at_current_position(&mut self)
        requires
            can_remove(old(self)@),
        ensures
            final(self)@ == removed(old(self)@),
    {
        if self.cursor_position == 0 {
            return ;
        }
        let _ = string_remove(&mut self.note.content, self.cursor_position - 1);
        self.move_cursor_previos();
    }

    /// Whether `c` can be typed at the cursor (see `can_insert`).
    pub fn can_insert_char(&self, c: char) -> (res: bool)
        ensures
            res == can_insert(self@, c),
    {
        let len = str_byte_len(self.note.content.as_str());
        let w = utf8_width(c);
        is_char_boundary_at(self.note.content.as_str(), self.cursor_position) && len <= (
        isize::MAX as usize) - w
    }

    /// Whether a backspace can be applied (see `can_remove`).
    pub fn can_remove_char(&self) -> (res: bool)
        ensures
            res == can_remove(self@),
    {
        if self.cursor_position == 0 {
            return true;
        }
        let len = str_byte_len(self.note.content.as_str());
        self.cursor_position - 1 < len && is_char_boundary_at(
            self.note.content.as_str(),
            self.cursor_position - 1,
        )
    }

    /// The text of the note.
    pub fn content(&self) -> (res: &str)
        ensures
            res@ == self@.note.content,
    {
        self.note.content.as_str()
    }

    /// The title of the note.
    pub fn title(&self) -> (res: &str)
        ensures
            res@ == self@.note.title,
    {
        self.note.title.as_str()
    }

    /// The date of the note.
    pub fn date(&self) -> (res: &str)
        ensures
            res@ == self@.note.date,
    {
        self.note.date.as_str()
    }

    /// The user's cursor, a byte offset into the text.
    pub fn cursor_position(&self) -> (res: usize)
        ensures
            res == self@.cursor_position,
    {
        self.cursor_position
    }

    /// The position that the collaborator last reported.
    pub fn collaborator_position(&self) -> (res: usize)
        ensures
            res == self@.collaborator_position,
    {
        self.collaborator_position
    }
}

impl EditorNote {
    /// A note just opened: both cursors at the start.
    fn opened(note: Note) -> (res: EditorNote)
        ensures
            res@ == (EditorNoteView { cursor_position: 0, collaborator_position: 0, note: note@ }),
    {
        EditorNote { cursor_position: 0, collaborator_position: 0, note }
    }
}

/// The `i`-th of the sample notes (counting from zero): "Note 1" with the
/// text "Content of Note 1", and so on.
pub open spec fn sample_note(i: int) -> EditorNoteView {
    let digit = seq!['1', '2', '3', '4', '5', '6'][i];
    EditorNoteView {
        cursor_position: 0,
        collaborator_position: 0,
        note: NoteView {
            title: "Note "@.push(digit),
            content: "Content of Note "@.push(digit),
            date: default_date(),
        },
    }
}

/// The application: the notes, which of them is selected, and the mode.
pub struct App {
    notes: Vec<EditorNote>,
    current_node_index: Option<usize>,
    current_mode: AppMode,
}

/// What the application holds.
pub struct AppView {
    pub notes: Seq<EditorNoteView>,
    pub current: Option<usize>,
    pub mode: AppMode,
}

/// The selection, where there is one, names a note.
pub open spec fn selection_valid(a: AppView) -> bool {
    a.current matches Some(i) ==> i < a.notes.len()
}

/// The application with note `i` selected, where there is such a note;
/// otherwise unchanged.
pub open spec fn selected(a: AppView, i: usize) -> AppView {
    if i < a.notes.len() {
        AppView { current: Some(i), ..a }
    } else {
        a
    }
}

/// The application with nothing selected.
pub open spec fn deselected(a: AppView) -> AppView {
    AppView { current: None, ..a }
}

/// The application in mode `m`.
pub open spec fn with_mode(a: AppView, m: AppMode) -> AppView {
    AppView { mode: m, ..a }
}

/// The application with note `i`'s collaborator position set to `pos`.
pub open spec fn with_collaborator(a: AppView, i: int, pos: usize) -> AppView {
    AppView {
        notes: a.notes.update(i, EditorNoteView { collaborator_position: pos, ..a.notes[i] }),
        ..a
    }
}

/// The application that `App::new` makes.
pub open spec fn empty_app() -> AppView {
    AppView { notes: Seq::empty(), current: None, mode: AppMode::Normal }
}

/// The application that `App::new_with_dummy` makes.
pub open spec fn sample_app() -> AppView {
    AppView { notes: Seq::new(6, |i: int| sample_note(i)), current: None, mode: AppMode::Normal }
}

impl View for App {
    type V = AppView;

    closed spec fn view(&self) -> AppView {
        AppView {
            notes: self.notes@.map_values(|n: EditorNote| n@),
            current: self.current_node_index,
            mode: self.current_mode,
        }
    }
}

impl App {
    #[verifier::type_invariant]
    closed spec fn selection_in_range(&self) -> bool {
        self.current_node_index matches Some(i) ==> i < self.notes.len()
    }

    /// An application without notes, nothing selected, in normal mode.
    pub fn new() -> (res: App)
        ensures
            res@ == empty_app(),
    {
        let res = App { notes: Vec::new(), current_node_index: None, current_mode: AppMode::Normal };
        assert(res@.notes =~= empty_app().notes);
        res
    }

    /// The selected note, open for changes.
    pub fn current_note_mut(&mut self) -> (res: Option<&mut EditorNote>)
        ensures
            res is None <==> old(self)@.current is None,
            res is None ==> final(self)@ == old(self)@,
            selection_valid(old(self)@),
            res matches Some(r) ==> {
                &&& old(self)@.current matches Some(i)
                &&& r@ == old(self)@.notes[i as int]
                &&& final(self)@.notes == old(self)@.notes.update(i as int, final(r)@)
            },
            final(self)@.current == old(self)@.current,
            final(self)@.mode == old(self)@.mode,
    {
        proof { use_type_invariant(&*self); }
        match self.current_node_index {
            None => None,
            Some(i) => Some(&mut self.notes[i]),
        }
    }

    /// An application with the six sample notes "Note 1" to "Note 6", nothing
    /// selected, in normal mode.
    pub fn new_with_dummy() -> (res: App)
        ensures
            res@.notes.len() == 6,
            forall|i: int| 0 <= i < 6 ==> #[trigger] res@.notes[i] == sample_note(i),
            res@.current is None,
            res@.mode == AppMode::Normal,
            res@ == sample_app(),
    {
        let mut notes: Vec<EditorNote> = Vec::new();
        notes.push(EditorNote::opened(Note::new("Note 1".to_string(), "Content of Note 1".to_string())));
        notes.push(EditorNote::opened(Note::new("Note 2".to_string(), "Content of Note 2".to_string())));
        notes.push(EditorNote::opened(Note::new("Note 3".to_string(), "Content of Note 3".to_string())));
        notes.push(EditorNote::opened(Note::new("Note 4".to_string(), "Content of Note 4".to_string())));
        notes.push(EditorNote::opened(Note::new("Note 5".to_string(), "Content of Note 5".to_string())));
        notes.push(EditorNote::opened(Note::new("Note 6".to_string(), "Content of Note 6".to_string())));
        proof {
            reveal_strlit("Note ");
            reveal_strlit("Content of Note ");
            reveal_strlit("Note 1");
            reveal_strlit("Note 2");
            reveal_strlit("Note 3");
            reveal_strlit("Note 4");
            reveal_strlit("Note 5");
            reveal_strlit("Note 6");
            reveal_strlit("Content of Note 1");
            reveal_strlit("Content of Note 2");
            reveal_strlit("Content of Note 3");
            reveal_strlit("Content of Note 4");
            reveal_strlit("Content of Note 5");
            reveal_strlit("Content of Note 6");
            assert(notes@[0]@.note.title =~= sample_note(0).note.title);
            assert(notes@[1]@.note.title =~= sample_note(1).note.title);
            assert(notes@[2]@.note.title =~= sample_note(2).note.title);
            assert(notes@[3]@.note.title =~= sample_note(3).note.title);
            assert(notes@[4]@.note.title =~= sample_note(4).note.title);
            assert(notes@[5]@.note.title =~= sample_note(5).note.title);
            assert(notes@[0]@.note.content =~= sample_note(0).note.content);
            assert(notes@[1]@.note.content =~= sample_note(1).note.content);
            assert(notes@[2]@.note.content =~= sample_note(2).note.content);
            assert(notes@[3]@.note.content =~= sample_note(3).note.content);
            assert(notes@[4]@.note.content =~= sample_note(4).note.content);
            assert(notes@[5]@.note.content =~= sample_note(5).note.content);
        }
        let res = App { notes, current_node_index: None, current_mode: AppMode::Normal };
        assert forall|i: int| 0 <= i < 6 implies #[trigger] res@.notes[i] == sample_note(i) by {
            assert(res@.notes[i] == res.notes@[i]@);
        }
        assert(res@.notes =~= sample_app().notes);
        res
    }

    /// Selects the note at `index`. An index past the last note is refused
    /// with a message, and nothing changes.
    pub fn set_current_note_index(&mut self, index: usize) -> (res: Result<(), String>)
        ensures
            res is Ok <==> index < old(self)@.notes.len(),
            final(self)@ == selected(old(self)@, index),
            res is Ok ==> final(self)@.current == Some(index),
            res matches Err(msg) ==> {
                &&& final(self)@ == old(self)@
                &&& msg@ == index_error_message()
            },
    {
        if index >= self.notes.len() {
            return Err("index can not be greater than item count".to_string());
        }
        self.current_node_index = Some(index);
        Ok(())
    }

    /// Clears the selection.
    pub fn reset_current_node_index(&mut self)
        ensures
            final(self)@ == deselected(old(self)@),
    {
        self.current_node_index = None;
    }

    /// The selected note, if any.
    pub fn current_note(&self) -> (res: Option<&EditorNote>)
        ensures
            res is None <==> self@.current is None,
            res matches Some(r) ==> self@.current matches Some(i) && r@ == self@.notes[i as int],
    {
        proof { use_type_invariant(self); }
        match self.current_node_index {
            None => None,
            Some(i) => Some(&self.notes[i]),
        }
    }

    /// The index of the selected note, if any.
    pub fn current_note_id(&self) -> (res: Option<usize>)
        ensures
            res == self@.current,
            res matches Some(i) ==> i < self@.notes.len(),
    {
        proof { use_type_invariant(self); }
        self.current_node_index
    }

    /// The titles of all notes, in order.
    pub fn titles(&self) -> (res: Vec<&str>)
        ensures
            res.len() == self@.notes.len(),
            forall|i: int| 0 <= i < res.len() ==> #[trigger] res[i]@ == self@.notes[i].note.title,
    {
        let mut res: Vec<&str> = Vec::new();
        let n = self.notes.len();
        for i in 0..n
            invariant
                n == self.notes.len(),
                res.len() == i,
                forall|j: int| 0 <= j < i ==> #[trigger] res[j]@ == self@.notes[j].note.title,
        {
            res.push(self.notes[i].title());
        }
        res
    }

    /// How many notes there are.
    pub fn notes_count(&self) -> (res: usize)
        ensures
            res == self@.notes.len(),
    {
        self.notes.len()
    }

    /// The current mode.
    pub fn mode(&self) -> (res: AppMode)
        ensures
            res == self@.mode,
    {
        self.current_mode
    }

    /// Switches to editing.
    pub fn set_to_editing(&mut self)
        ensures
            final(self)@ == with_mode(old(self)@, AppMode::Editing),
    {
        proof { use_type_invariant(&*self); }
        self.current_mode = AppMode::Editing;
    }

    /// Switches back to browsing.
    pub fn set_to_normal(&mut self)
        ensures
            final(self)@ == with_mode(old(self)@, AppMode::Normal),
    {
        proof { use_type_invariant(&*self); }
        self.current_mode = AppMode::Normal;
    }

    /// Whether the application is browsing.
    pub fn is_in_normal_mode(&self) -> (res: bool)
        ensures
            res == (self@.mode == AppMode::Normal),
    {
        self.current_mode == AppMode::Normal
    }

    /// Whether the application is editing.
    pub fn is_in_edit_mode(&self) -> (res: bool)
        ensures
            res == (self@.mode == AppMode::Editing),
    {
        self.current_mode == AppMode::Editing
    }

    /// Sets the position that a collaborator reported on a note.
    pub fn set_collaborator_position(&mut self, note_index: usize, pos: usize)
        requires
            note_index < old(self)@.notes.len(),
        ensures
            final(self)@ == with_collaborator(old(self)@, note_index as int, pos),
    {
        proof { use_type_invariant(&*self); }
        self.notes[note_index].collaborator_position = pos;
        assert(self@.notes =~= with_collaborator(old(self)@, note_index as int, pos).notes);
    }
}

} // verus!
