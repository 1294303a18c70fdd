//! What the screen shows, computed from the application state: the cursor's
//! place in the editor, the menu title and the footer line.
use vstd::prelude::*;

use crate::app::{App, AppView};
use crate::syntax::{decimal, push_decimal};
use crate::text::{
    byte_len, char_index, chars_of, is_boundary, lemma_boundary, lemma_char_index_of_prefix, lemma_prefix_step,
    lemma_prefix_strictly_grows, str_byte_len, string_of, utf8_width,
};

verus! {

/// How many line breaks a text holds.
pub open spec fn count_newlines(s: Seq<char>) -> nat
    decreases s.len(),
{
    if s.len() == 0 {
        0
    } else {
        count_newlines(s.drop_last()) + if s.last() == '\n' {
            1nat
        } else {
            0nat
        }
    }
}

/// The part of a text after its last line break (all of it, without one).
pub open spec fn after_last_newline(s: Seq<char>) -> Seq<char>
    decreases s.len(),
{
    if s.len() == 0 {
        s
    } else if s.last() == '\n' {
        Seq::<char>::empty()
    } else {
        after_last_newline(s.drop_last()).push(s.last())
    }
}

/// Where the cursor at byte offset `cursor` stands on screen, relative to
/// the editor's inner corner: the column is the number of bytes since the
/// last line break before the cursor, the row the number of line breaks
/// before it.
pub open spec fn cursor_cell(content: Seq<char>, cursor: int) -> (nat, nat) {
    let before = content.take(char_index(content, cursor));
    (byte_len(after_last_newline(before)), count_newlines(before))
}

/// The screen cell of the cursor (see `cursor_cell`). The cursor must be a
/// char boundary of the text.
pub fn cursor_offset(content: &str, cursor: usize) -> (res: (usize, usize))
    requires
        is_boundary(content@, cursor as int),
    ensures
        res.0 == cursor_cell(content@, cursor as int).0,
        res.1 == cursor_cell(content@, cursor as int).1,
        (forall|i: int| 0 <= i < char_index(content@, cursor as int) ==> #[trigger] content@[i]
            != '\n') ==> res == (cursor, 0usize),
        char_index(content@, cursor as int) > 0 && content@[char_index(content@, cursor as int)
            - 1] == '\n' ==> res.0 == 0,
{
    let chars = chars_of(content);
    let ghost s = content@;
    proof {
        lemma_boundary(s, cursor as int);
    }
    let mut k: usize = 0;
    let mut bytes: usize = 0;
    let mut x: usize = 0;
    let mut y: usize = 0;
    assert(s.take(0) =~= Seq::<char>::empty());
    assert(vstd::utf8::encode_utf8(Seq::<char>::empty()) =~= Seq::<u8>::empty());
    while bytes < cursor
        invariant
            chars@ == s,
            k <= s.len(),
            k <= char_index(s, cursor as int),
            bytes == byte_len(s.take(k as int)),
            bytes <= cursor,
            x as nat == byte_len(after_last_newline(s.take(k as int))),
            x <= bytes,
            y as nat == count_newlines(s.take(k as int)),
            y <= k,
            is_boundary(s, cursor as int),
            0 <= char_index(s, cursor as int) <= s.len(),
            byte_len(s.take(char_index(s, cursor as int))) == cursor,
        decreases cursor - bytes,
    {
        assert(k < char_index(s, cursor as int));
        assert(k < s.len());
        assert(k < chars.len());
        let c = chars[k];
        let w = utf8_width(c);
        proof {
            lemma_prefix_step(s, k as int);
            lemma_prefix_strictly_grows(s, (k + 1) as int, char_index(s, cursor as int));
            let p = s.take(k + 1);
            assert(p.drop_last() =~= s.take(k as int));
            assert(p.last() == c);
            if c != '\n' {
                assert(after_last_newline(p) =~= after_last_newline(s.take(k as int)).push(c));
                crate::text::lemma_byte_len_concat(after_last_newline(s.take(k as int)), seq![c]);
                crate::text::lemma_byte_len_single(c);
                assert(after_last_newline(s.take(k as int)).push(c) =~= after_last_newline(
                    s.take(k as int),
                ) + seq![c]);
            } else {
                assert(vstd::utf8::encode_utf8(Seq::<char>::empty()) =~= Seq::<u8>::empty());
            }
        }
        if c == '\n' {
            y += 1;
            x = 0;
        } else {
            x += w;
        }
        bytes += w;
        k += 1;
    }
    proof {
        let j = char_index(s, cursor as int);
        if k < j {
            lemma_prefix_strictly_grows(s, k as int, j);
        }
        lemma_cursor_cell_rows_and_columns(s, cursor as int);
    }
    (x, y)
}

/// The title of the notes menu: `Notes [n]`.
pub open spec fn menu_title_text(count: usize) -> Seq<char> {
    "Notes ["@ + decimal(count as nat) + "]"@
}

/// The title of the notes menu, with the number of notes.
pub fn menu_title(count: usize) -> (res: String)
    ensures
        res@ == menu_title_text(count),
{
    let mut t: Vec<char> = Vec::new();
    t.push('N');
    t.push('o');
    t.push('t');
    t.push('e');
    t.push('s');
    t.push(' ');
    t.push('[');
    push_decimal(&mut t, count);
    t.push(']');
    proof {
        reveal_strlit("Notes [");
        reveal_strlit("]");
        assert(t@ =~= menu_title_text(count));
    }
    string_of(&t)
}

/// The footer line: the number of notes and, with a note selected, its byte
/// count, the cursor and its date.
pub open spec fn footer_line(a: AppView) -> Seq<char> {
    match a.current {
        Some(i) => {
            let n = a.notes[i as int];
            "Note Count: "@ + decimal(a.notes.len()) + " | Char Count: "@ + decimal(
                byte_len(n.note.content),
            ) + " | Position: "@ + decimal(n.cursor_position as nat) + " | Date: "@ + n.note.date
        },
        None => "Note Count: "@ + decimal(a.notes.len()),
    }
}

/// Appends the chars of a text.
fn push_str(out: &mut Vec<char>, s: &str)
    ensures
        final(out)@ == old(out)@ + s@,
{
    let cs = chars_of(s);
    let n = cs.len();
    let ghost start = out@;
    for i in 0..n
        invariant
            n == cs.len(),
            cs@ == s@,
            out@ =~= start + s@.take(i as int),
    {
        out.push(cs[i]);
        assert(s@.take(i + 1) =~= s@.take(i as int).push(cs@[i as int]));
    }
    assert(s@.take(n as int) =~= s@);
}

/// The footer line of the screen.
pub fn footer_text(app: &App) -> (res: String)
    ensures
        res@ == footer_line(app@),
{
    let mut t: Vec<char> = Vec::new();
    push_str(&mut t, "Note Count: ");
    push_decimal(&mut t, app.notes_count());
    match app.current_note() {
        Some(note) => {
            push_str(&mut t, " | Char Count: ");
            push_decimal(&mut t, str_byte_len(note.content()));
            push_str(&mut t, " | Position: ");
            push_decimal(&mut t, note.cursor_position());
            push_str(&mut t, " | Date: ");
            push_str(&mut t, note.date());
        },
        None => {},
    }
    string_of(&t)
}

/// A text without line breaks counts none, and all of it follows its last
/// (missing) line break.
proof fn lemma_no_newlines(p: Seq<char>)
    requires
        forall|i: int| 0 <= i < p.len() ==> #[trigger] p[i] != '\n',
    ensures
        count_newlines(p) == 0,
        after_last_newline(p) == p,
    decreases p.len(),
{
    if p.len() > 0 {
        assert(p.last() != '\n');
        lemma_no_newlines(p.drop_last());
        assert(p.drop_last().push(p.last()) =~= p);
    }
}

/// The cursor's cell depends only on the text before it: text after the
/// cursor (added, changed or taken away) never moves it on screen.
pub proof fn lemma_cursor_cell_ignores_text_after(s: Seq<char>, t: Seq<char>, cursor: int)
    requires
        is_boundary(s, cursor),
    ensures
        is_boundary(s + t, cursor),
        cursor_cell(s + t, cursor) == cursor_cell(s, cursor),
        cursor_cell(s, cursor) == cursor_cell(s.take(char_index(s, cursor)), cursor),
{
    lemma_boundary(s, cursor);
    let k = char_index(s, cursor);
    assert((s + t).take(k) =~= s.take(k));
    lemma_char_index_of_prefix(s + t, k);
    let p = s.take(k);
    assert(p.take(k) =~= p);
    lemma_char_index_of_prefix(p, k);
    assert(p.take(char_index(p, cursor)) =~= p);
}

/// Before the first line break the cursor stands on the first row, as many
/// columns in as it is bytes into the text; right after a line break it
/// stands in the first column.
pub proof fn lemma_cursor_cell_rows_and_columns(s: Seq<char>, cursor: int)
    requires
        is_boundary(s, cursor),
    ensures
        (forall|i: int| 0 <= i < char_index(s, cursor) ==> #[trigger] s[i] != '\n')
            ==> cursor_cell(s, cursor) == (cursor as nat, 0nat),
        char_index(s, cursor) > 0 && s[char_index(s, cursor) - 1] == '\n' ==> cursor_cell(
            s,
            cursor,
        ).0 == 0,
        char_index(s, cursor) > 0 && s[char_index(s, cursor) - 1] == '\n' ==> cursor_cell(
            s,
            cursor,
        ).1 == cursor_cell(s, cursor - 1).1 + 1,
{
    lemma_boundary(s, cursor);
    let k = char_index(s, cursor);
    let p = s.take(k);
    if forall|i: int| 0 <= i < k ==> #[trigger] s[i] != '\n' {
        assert forall|i: int| 0 <= i < p.len() implies #[trigger] p[i] != '\n' by {
            assert(p[i] == s[i]);
        }
        lemma_no_newlines(p);
    }
    if k > 0 && s[k - 1] == '\n' {
        assert(p.last() == '\n');
        assert(vstd::utf8::encode_utf8(Seq::<char>::empty()) =~= Seq::<u8>::empty());
        crate::text::lemma_prefix_step(s, k - 1);
        crate::text::lemma_byte_len_single('\n');
        lemma_char_index_of_prefix(s, k - 1);
        assert(p.drop_last() =~= s.take(k - 1));
    }
}

} // verus!
