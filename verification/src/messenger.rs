//! The collaboration protocol: which side of the connection this instance
//! plays, how a cursor position is written into a message, and how a
//! message received from the peer is read as a command.
use vstd::prelude::*;
use vstd::utf8::decode_utf8;
use vstd::utf8::encode_utf8;
use vstd::utf8::valid_utf8;

use crate::text::{chars_of, string_of};
use crate::collaboration::{Command, CommandView, SetCursorPosition};
use crate::syntax::{
    lemma_split_counts_colons,
    all_white, lemma_trim_ignores_trailing_white, lemma_white_space_chars,
    decimal, is_white, lemma_decimal, lemma_parse_decimal, lemma_split_append_colon,
    lemma_split_append_field, lemma_split_nonempty, lemma_trim_unchanged, parse_decimal,
    parse_usize, push_decimal, split_colon, split_fields, trim, trim_chars,
};

verus! {

/// Whether this instance listens for its peer or connects to it.
#[derive(Copy, Clone, Debug, PartialEq, Eq, Structural)]
pub enum Mode {
    Server,
    Client,
}

/// The mode named by a text that has already been lowercased.
pub open spec fn mode_from_lowercase(l: Seq<char>) -> Option<Mode> {
    if l == "server"@ {
        Some(Mode::Server)
    } else if l == "client"@ {
        Some(Mode::Client)
    } else {
        None
    }
}

/// The message with which a text that names no mode is refused.
pub open spec fn mode_error_message(s: Seq<char>) -> Seq<char> {
    "'"@ + s + "' is not a valid Mode"@
}

/// The name of a mode.
pub open spec fn mode_name(m: Mode) -> Seq<char> {
    match m {
        Mode::Server => "server"@,
        Mode::Client => "client"@,
    }
}

/// What `str::to_lowercase` returns: the text with every char replaced by
/// its Unicode lowercase mapping.
pub uninterp spec fn lowercase(s: Seq<char>) -> Seq<char>;

/// ASCII lowercasing of one char.
pub open spec fn ascii_lower(c: char) -> char {
    if 'A' <= c <= 'Z' {
        ((c as u32) + 32) as char
    } else {
        c
    }
}

/// Every char of the text is ASCII.
pub open spec fn all_ascii(s: Seq<char>) -> bool {
    forall|i: int| 0 <= i < s.len() ==> (#[trigger] s[i] as u32) < 0x80
}

/// ASCII lowercasing of a text.
pub open spec fn ascii_lowercase(s: Seq<char>) -> Seq<char> {
    s.map_values(|c: char| ascii_lower(c))
}

/// `str::to_lowercase`. Its result is named `lowercase`; the one fact
/// stated of it is that an all-ASCII text is lowercased letter by letter as
/// ASCII does.
#[verifier::external_body]
fn to_lowercase(s: &str) -> (res: String)
    ensures
        res@ == lowercase(s@),
        all_ascii(s@) ==> res@ == ascii_lowercase(s@),
{
    s.to_lowercase()
}

/// Whether two texts are the same chars.
fn str_eq(a: &str, b: &str) -> (res: bool)
    ensures
        res == (a@ == b@),
{
    let ca = chars_of(a);
    let cb = chars_of(b);
    if ca.len() != cb.len() {
        return false;
    }
    let n = ca.len();
    for i in 0..n
        invariant
            n == ca.len(),
            n == cb.len(),
            ca@ == a@,
            cb@ == b@,
            forall|j: int| 0 <= j < i ==> ca@[j] == cb@[j],
    {
        if ca[i] != cb[i] {
            return false;
        }
    }
    assert(a@ =~= b@);
    true
}

/// The outcome of reading the text `s` as a mode, given its lowercased
/// form `l`.
pub open spec fn mode_outcome(l: Seq<char>, s: Seq<char>, res: Result<Mode, String>) -> bool {
    match mode_from_lowercase(l) {
        Some(m) => res == Ok::<Mode, String>(m),
        None => res matches Err(e) && e@ == mode_error_message(s),
    }
}

impl Mode {
    /// The mode named by an already lowercased text.
    pub fn from_lowercase(l: &str) -> (res: Option<Mode>)
        ensures
            res == mode_from_lowercase(l@),
    {
        if str_eq(l, "server") {
            Some(Mode::Server)
        } else if str_eq(l, "client") {
            Some(Mode::Client)
        } else {
            None
        }
    }

    /// Reads a mode name, whatever its letter case; any other text is
    /// refused with a message that quotes it.
    pub fn parse(s: &str) -> (res: Result<Mode, String>)
        ensures
            mode_outcome(lowercase(s@), s@, res),
            all_ascii(s@) ==> mode_outcome(ascii_lowercase(s@), s@, res),
    {
        let lowered = to_lowercase(s);
        match Mode::from_lowercase(lowered.as_str()) {
            Some(m) => Ok(m),
            None => {
                let mut msg = "'".to_string();
                msg.append(s);
                msg.append("' is not a valid Mode");
                Err(msg)
            },
        }
    }

    /// The name of the mode, as it is displayed.
    pub fn name(&self) -> (res: String)
        ensures
            res@ == mode_name(*self),
    {
        match self {
            Mode::Server => "server".to_string(),
            Mode::Client => "client".to_string(),
        }
    }
}

impl core::str::FromStr for Mode {
    type Err = String;

    /// Reads a mode name as `Mode::parse` does.
    fn from_str(s: &str) -> (res: Result<Mode, String>)
        ensures
            mode_outcome(lowercase(s@), s@, res),
            all_ascii(s@) ==> mode_outcome(ascii_lowercase(s@), s@, res),
    {
        Mode::parse(s)
    }
}

/// The name of every mode reads back as that mode: it is ASCII, and
/// lowercasing it gives it back.
pub proof fn lemma_mode_name_round_trip(m: Mode)
    ensures
        all_ascii(mode_name(m)),
        ascii_lowercase(mode_name(m)) == mode_name(m),
        mode_from_lowercase(ascii_lowercase(mode_name(m))) == Some(m),
{
    reveal_strlit("server");
    reveal_strlit("client");
    assert(ascii_lowercase(mode_name(m)) =~= mode_name(m));
    assert("server"@ != "client"@) by {
        assert("server"@[0] != "client"@[0]);
    }
}

/// The text of the message that reports a cursor position: `pos:` followed
/// by the note id and the position in decimal, separated by `:`.
pub open spec fn cursor_message_text(note_id: usize, pos: usize) -> Seq<char> {
    "pos:"@ + decimal(note_id as nat) + seq![':'] + decimal(pos as nat)
}

/// The message that reports a cursor position, as the bytes sent to the
/// peer (the UTF-8 encoding of its text).
pub fn cursor_position_message(note_id: usize, pos: usize) -> (res: Vec<u8>)
    ensures
        res@ == encode_utf8(cursor_message_text(note_id, pos)),
{
    let mut text: Vec<char> = Vec::new();
    text.push('p');
    text.push('o');
    text.push('s');
    text.push(':');
    push_decimal(&mut text, note_id);
    text.push(':');
    push_decimal(&mut text, pos);
    proof {
        reveal_strlit("pos:");
        assert(text@ =~= cursor_message_text(note_id, pos));
        lemma_decimal(note_id as nat);
        lemma_decimal(pos as nat);
        lemma_cursor_message_ascii(note_id, pos);
        vstd::utf8::is_ascii_chars_encode_utf8(text@);
    }
    let mut res: Vec<u8> = Vec::new();
    let n = text.len();
    for i in 0..n
        invariant
            n == text.len(),
            vstd::utf8::is_ascii_chars(text@),
            res.len() == i,
            forall|j: int| 0 <= j < i ==> #[trigger] res@[j] == text@[j] as u8,
    {
        let c = text[i];
        proof {
            vstd::utf8::is_ascii_chars_nat_bound(text@);
        }
        res.push(c as u32 as u8);
    }
    assert(res@ =~= encode_utf8(text@));
    res
}

/// The cursor message is plain ASCII.
proof fn lemma_cursor_message_ascii(note_id: usize, pos: usize)
    ensures
        vstd::utf8::is_ascii_chars(cursor_message_text(note_id, pos)),
{
    reveal_strlit("pos:");
    lemma_decimal(note_id as nat);
    lemma_decimal(pos as nat);
    let t = cursor_message_text(note_id, pos);
    let d1 = decimal(note_id as nat);
    let d2 = decimal(pos as nat);
    assert forall|i: int| 0 <= i < t.len() implies '\0' <= #[trigger] t[i] <= '\u{7f}' by {
        if i < 4 {
        } else if i < 4 + d1.len() {
            assert(t[i] == d1[i - 4]);
        } else if i == 4 + d1.len() {
        } else {
            assert(t[i] == d2[i - 5 - d1.len()]);
        }
    }
}

/// What `String::from_utf8_lossy` returns: the decoded text, with each
/// invalid sequence replaced by U+FFFD.
pub uninterp spec fn utf8_lossy(bytes: Seq<u8>) -> Seq<char>;

/// `String::from_utf8_lossy`, made an owned `String`. Its result is named
/// `utf8_lossy`; the one fact stated of it is that valid UTF-8 decodes as
/// such, without replacement.
#[verifier::external_body]
fn decode_lossy(bytes: &[u8]) -> (res: String)
    ensures
        res@ == utf8_lossy(bytes@),
        valid_utf8(bytes@) ==> res@ == decode_utf8(bytes@),
{
    String::from_utf8_lossy(bytes).into_owned()
}

/// The command that a message received from the peer carries, if any. An
/// empty message carries none. The message is trimmed of surrounding
/// whitespace and split into fields at every `:`; a single field is an
/// `Info` with that text; `pos`, a note id and a position (in decimal, as
/// `usize::from_str_radix` reads them) make a `SetCursorPosition`; anything
/// else is ignored.
pub open spec fn message_command(m: Seq<char>) -> Option<CommandView> {
    let parts = split_colon(trim(m));
    if m.len() == 0 {
        None
    } else if parts.len() == 1 {
        Some(CommandView::Info { text: parts[0] })
    } else if parts[0] == "pos"@ {
        match (parse_usize(parts[1]), parse_usize(parts[2])) {
            (Some(note_id), Some(pos)) => Some(CommandView::SetCursorPosition { note_id, pos }),
            _ => None,
        }
    } else {
        None
    }
}

/// The messages on which reading fails for want of a third field: `pos` and
/// a valid note id, but no position.
pub open spec fn message_lacks_position(m: Seq<char>) -> bool {
    let parts = split_colon(trim(m));
    &&& m.len() > 0
    &&& parts.len() == 2
    &&& parts[0] == "pos"@
    &&& parse_usize(parts[1]) is Some
}

/// The view of an optional command.
pub open spec fn command_view(c: Option<Command>) -> Option<CommandView> {
    match c {
        Some(c) => Some(c@),
        None => None,
    }
}

/// Whether the chars are `pos`.
fn is_pos_keyword(f: &Vec<char>) -> (res: bool)
    ensures
        res == (f@ == "pos"@),
{
    proof {
        reveal_strlit("pos");
    }
    if f.len() == 3 && f[0] == 'p' && f[1] == 'o' && f[2] == 's' {
        assert(f@ =~= "pos"@);
        true
    } else {
        false
    }
}

/// The fields of a received message: its text trimmed and split at every
/// `:` (nothing for an empty message).
fn message_fields(msg: &str) -> (res: Option<Vec<Vec<char>>>)
    ensures
        res is None <==> msg@.len() == 0,
        res matches Some(parts) ==> {
            &&& parts.len() == split_colon(trim(msg@)).len()
            &&& parts.len() >= 1
            &&& forall|i: int| 0 <= i < parts.len() ==> #[trigger] parts@[i]@ == split_colon(
                trim(msg@),
            )[i]
        },
{
    let chars = chars_of(msg);
    if chars.len() == 0 {
        return None;
    }
    let t = trim_chars(&chars);
    let parts = split_fields(&t);
    proof {
        lemma_split_nonempty(t@);
        assert(parts@.map_values(|f: Vec<char>| f@).len() == parts.len());
        assert forall|i: int| 0 <= i < parts.len() implies #[trigger] parts@[i]@ == split_colon(
            t@,
        )[i] by {
            assert(parts@.map_values(|f: Vec<char>| f@)[i] == parts@[i]@);
        }
    }
    Some(parts)
}

/// Reads a message received from the peer as a command (see
/// `message_command`). A message that names `pos` and a note id but no
/// position is outside what can be read.
pub fn parse_command(msg: &str) -> (res: Option<Command>)
    requires
        !message_lacks_position(msg@),
    ensures
        command_view(res) == message_command(msg@),
{
    let parts = match message_fields(msg) {
        None => {
            return None;
        },
        Some(parts) => parts,
    };
    if parts.len() == 1 {
        let text = string_of(&parts[0]);
        return Some(Command::Info(text));
    }
    if !is_pos_keyword(&parts[0]) {
        return None;
    }
    let note_id = match parse_decimal(&parts[1]) {
        Some(v) => v,
        None => {
            return None;
        },
    };
    let pos = match parse_decimal(&parts[2]) {
        Some(v) => v,
        None => {
            return None;
        },
    };
    Some(Command::SetCursorPosition(SetCursorPosition { note_id, pos }))
}

/// Why a received message could not be read.
#[derive(Debug)]
pub enum MessageFault {
    /// `pos` and a note id came without a position.
    MissingPosition,
}

/// Whether a message lacks its position (see `message_lacks_position`).
fn lacks_position(msg: &str) -> (res: bool)
    ensures
        res == message_lacks_position(msg@),
{
    let parts = match message_fields(msg) {
        None => {
            return false;
        },
        Some(parts) => parts,
    };
    if parts.len() != 2 {
        return false;
    }
    is_pos_keyword(&parts[0]) && parse_decimal(&parts[1]).is_some()
}

/// What reading the decoded text `m` of a message gives: the fault where it
/// lacks its position, and otherwise its command.
pub open spec fn message_reading(m: Seq<char>) -> Result<Option<CommandView>, ()> {
    if message_lacks_position(m) {
        Err(())
    } else {
        Ok(message_command(m))
    }
}

/// The view of a reading's outcome.
pub open spec fn reading_view(r: Result<Option<Command>, MessageFault>) -> Result<
    Option<CommandView>,
    (),
> {
    match r {
        Ok(c) => Ok(command_view(c)),
        Err(_) => Err(()),
    }
}

/// Reads the bytes received from the peer: they are decoded as UTF-8, with
/// invalid sequences replaced, and read as a command. A message that lacks
/// its position is reported as such. Valid UTF-8 is read as the text it
/// encodes.
pub fn parse_message(bytes: &[u8]) -> (res: Result<Option<Command>, MessageFault>)
    ensures
        reading_view(res) == message_reading(utf8_lossy(bytes@)),
        valid_utf8(bytes@) ==> reading_view(res) == message_reading(decode_utf8(bytes@)),
{
    let text = decode_lossy(bytes);
    if lacks_position(text.as_str()) {
        Err(MessageFault::MissingPosition)
    } else {
        Ok(parse_command(text.as_str()))
    }
}

/// Reading back a cursor message gives the cursor position it reports: its
/// bytes are valid UTF-8 that decode to its text, that text reads as the
/// position, and so `parse_message` on the bytes of `cursor_position_message`
/// gives that position.
pub proof fn lemma_cursor_message_round_trip(note_id: usize, pos: usize)
    ensures
        valid_utf8(encode_utf8(cursor_message_text(note_id, pos))),
        message_reading(decode_utf8(encode_utf8(cursor_message_text(note_id, pos)))) == Ok::<
            Option<CommandView>,
            (),
        >(Some(CommandView::SetCursorPosition { note_id, pos })),
        valid_utf8(encode_utf8(cursor_message_text(note_id, pos))),
        decode_utf8(encode_utf8(cursor_message_text(note_id, pos))) == cursor_message_text(
            note_id,
            pos,
        ),
        !message_lacks_position(cursor_message_text(note_id, pos)),
        message_command(cursor_message_text(note_id, pos)) == Some(
            CommandView::SetCursorPosition { note_id, pos },
        ),
{
    vstd::utf8::encode_utf8_valid_utf8(cursor_message_text(note_id, pos));
    vstd::utf8::encode_utf8_decode_utf8(cursor_message_text(note_id, pos));
    reveal_strlit("pos:");
    reveal_strlit("pos");
    let d1 = decimal(note_id as nat);
    let d2 = decimal(pos as nat);
    lemma_decimal(note_id as nat);
    lemma_decimal(pos as nat);
    lemma_parse_decimal(note_id);
    lemma_parse_decimal(pos);
    let t = cursor_message_text(note_id, pos);
    assert(t[0] == 'p');
    assert(t.last() == d2.last());
    assert(!is_white(t.last())) by {
        assert(crate::syntax::is_digit(d2[d2.len() - 1]));
    }
    lemma_trim_unchanged(t);
    let e = Seq::<char>::empty();
    assert(no_colon("pos"@));
    assert(no_colon(d1)) by {
        assert forall|i: int| 0 <= i < d1.len() implies #[trigger] d1[i] != ':' by {
            assert(crate::syntax::is_digit(d1[i]));
        }
    }
    assert(no_colon(d2)) by {
        assert forall|i: int| 0 <= i < d2.len() implies #[trigger] d2[i] != ':' by {
            assert(crate::syntax::is_digit(d2[i]));
        }
    }
    lemma_split_append_field(e, "pos"@);
    assert(e + "pos"@ =~= "pos"@);
    assert(split_colon(e) =~= seq![e]);
    assert(split_colon("pos"@) =~= seq!["pos"@]) by {
        assert(seq![e].update(0, e + "pos"@) =~= seq!["pos"@]);
    }
    let a1 = "pos"@.push(':');
    lemma_split_append_colon("pos"@);
    assert(split_colon(a1) =~= seq!["pos"@, e]);
    lemma_split_append_field(a1, d1);
    assert(split_colon(a1 + d1) =~= seq!["pos"@, d1]) by {
        assert(e + d1 =~= d1);
    }
    let a2 = (a1 + d1).push(':');
    lemma_split_append_colon(a1 + d1);
    lemma_split_append_field(a2, d2);
    assert(split_colon(a2 + d2) =~= seq!["pos"@, d1, d2]) by {
        assert(e + d2 =~= d2);
    }
    assert(t =~= a2 + d2);
}

/// A text without colons.
spec fn no_colon(s: Seq<char>) -> bool {
    forall|i: int| 0 <= i < s.len() ==> #[trigger] s[i] != ':'
}

/// Whitespace after a message does not change what it carries: a line
/// ending such as `"\r\n"` or `"\n"` after a nonempty message is ignored.
pub proof fn lemma_message_ignores_trailing_white(m: Seq<char>, w: Seq<char>)
    requires
        m.len() > 0,
        all_white(w),
    ensures
        message_command(m + w) == message_command(m),
        message_lacks_position(m + w) == message_lacks_position(m),
        message_reading(m + w) == message_reading(m),
{
    lemma_trim_ignores_trailing_white(m, w);
}

/// A message followed by `"\r\n"` reads as the message alone.
pub proof fn lemma_message_ignores_crlf(m: Seq<char>)
    requires
        m.len() > 0,
    ensures
        message_command(m + seq!['\r', '\n']) == message_command(m),
        message_reading(m + seq!['\r', '\n']) == message_reading(m),
{
    let w = seq!['\r', '\n'];
    lemma_white_space_chars();
    assert(all_white(w)) by {
        assert forall|i: int| 0 <= i < w.len() implies is_white(#[trigger] w[i]) by {
            if i == 0 {
                assert(w[i] == '\r');
            } else {
                assert(w[i] == '\n');
            }
        }
    }
    lemma_message_ignores_trailing_white(m, w);
}

/// A nonempty message is an `Info` exactly when its trimmed text holds no
/// colon, and the info is that trimmed text.
pub proof fn lemma_info_messages(m: Seq<char>)
    requires
        m.len() > 0,
    ensures
        (message_command(m) matches Some(CommandView::Info { .. })) <==> (forall|i: int|
            0 <= i < trim(m).len() ==> #[trigger] trim(m)[i] != ':'),
        message_command(m) matches Some(CommandView::Info { text }) ==> text == trim(m),
        !message_lacks_position(m) || !(message_command(m) matches Some(
            CommandView::Info { .. },
        )),
{
    lemma_split_counts_colons(trim(m));
}

} // verus!
