//! A model of UTF-8 text addressed by byte offsets, the way `String` is.
//!
//! A string is seen as its sequence of chars; byte offsets into it are
//! related to char positions through the length of the UTF-8 encoding of
//! each prefix.
use vstd::prelude::*;
use vstd::utf8::encode_scalar;
use vstd::utf8::encode_utf8;

verus! {

/// Number of bytes in the UTF-8 encoding of `s`.
pub open spec fn byte_len(s: Seq<char>) -> nat {
    encode_utf8(s).len()
}

/// Number of bytes in the UTF-8 encoding of one char.
pub open spec fn char_width(c: char) -> nat {
    encode_scalar(c as u32).len()
}

/// `idx` is a char boundary of `s`: the byte offset at which some char of
/// `s` starts, or the end of `s`.
pub open spec fn is_boundary(s: Seq<char>, idx: int) -> bool {
    exists|k: int| 0 <= k <= s.len() && #[trigger] byte_len(s.take(k)) == idx
}

/// The position of the char that starts at byte offset `idx` (for a
/// boundary).
pub open spec fn char_index(s: Seq<char>, idx: int) -> int {
    choose|k: int| 0 <= k <= s.len() && #[trigger] byte_len(s.take(k)) == idx
}

/// The UTF-8 encoding of a concatenation is the concatenation of encodings.
pub proof fn lemma_encode_concat(a: Seq<char>, b: Seq<char>)
    ensures
        encode_utf8(a + b) == encode_utf8(a) + encode_utf8(b),
    decreases a.len(),
{
    if a.len() == 0 {
        assert(a + b =~= b);
        assert(encode_utf8(a) =~= Seq::<u8>::empty());
        assert(encode_utf8(a) + encode_utf8(b) =~= encode_utf8(b));
    } else {
        assert((a + b)[0] == a[0]);
        assert((a + b).drop_first() =~= a.drop_first() + b);
        lemma_encode_concat(a.drop_first(), b);
        let h = encode_scalar(a[0] as u32);
        assert(encode_utf8(a + b) == h + encode_utf8(a.drop_first() + b));
        assert(encode_utf8(a) == h + encode_utf8(a.drop_first()));
        assert(h + (encode_utf8(a.drop_first()) + encode_utf8(b)) =~= (h + encode_utf8(
            a.drop_first(),
        )) + encode_utf8(b));
    }
}

/// The byte length of a concatenation.
pub proof fn lemma_byte_len_concat(a: Seq<char>, b: Seq<char>)
    ensures
        byte_len(a + b) == byte_len(a) + byte_len(b),
{
    lemma_encode_concat(a, b);
}

/// Every char takes between one and four bytes; the ASCII ones take one.
pub proof fn lemma_char_width(c: char)
    ensures
        1 <= char_width(c) <= 4,
        (c as u32) < 0x80 ==> char_width(c) == 1,
        0x80 <= (c as u32) < 0x800 ==> char_width(c) == 2,
        0x800 <= (c as u32) < 0x10000 ==> char_width(c) == 3,
        0x10000 <= (c as u32) ==> char_width(c) == 4,
{
    vstd::utf8::char_is_scalar(c);
}

/// The byte length of one char alone.
pub proof fn lemma_byte_len_single(c: char)
    ensures
        byte_len(seq![c]) == char_width(c),
{
    let s = seq![c];
    assert(s.drop_first() =~= Seq::<char>::empty());
    assert(encode_utf8(s.drop_first()) =~= Seq::<u8>::empty());
    assert(encode_utf8(s) =~= encode_scalar(c as u32));
}

/// Adding one char to a prefix adds its width.
pub proof fn lemma_prefix_step(s: Seq<char>, k: int)
    requires
        0 <= k < s.len(),
    ensures
        byte_len(s.take(k + 1)) == byte_len(s.take(k)) + char_width(s[k]),
{
    assert(s.take(k + 1) =~= s.take(k) + seq![s[k]]);
    lemma_byte_len_concat(s.take(k), seq![s[k]]);
    lemma_byte_len_single(s[k]);
}

/// Byte offsets of prefixes grow by at least one byte per char.
proof fn lemma_prefix_grows(s: Seq<char>, j: int, k: int)
    requires
        0 <= j <= k <= s.len(),
    ensures
        byte_len(s.take(j)) + (k - j) <= byte_len(s.take(k)),
    decreases k - j,
{
    if j < k {
        lemma_prefix_grows(s, j, k - 1);
        lemma_prefix_step(s, k - 1);
        lemma_char_width(s[k - 1]);
    }
}

/// Byte offsets of prefixes grow strictly with the prefix, and never pass
/// the whole length.
pub proof fn lemma_prefix_strictly_grows(s: Seq<char>, j: int, k: int)
    requires
        0 <= j <= k <= s.len(),
    ensures
        byte_len(s.take(j)) + (k - j) <= byte_len(s.take(k)),
        byte_len(s.take(k)) <= byte_len(s),
{
    assert(s.take(s.len() as int) =~= s);
    lemma_prefix_grows(s, j, k);
    lemma_prefix_grows(s, k, s.len() as int);
}

/// The char position at the byte offset of a prefix is the prefix length.
pub proof fn lemma_char_index_of_prefix(s: Seq<char>, k: int)
    requires
        0 <= k <= s.len(),
    ensures
        is_boundary(s, byte_len(s.take(k)) as int),
        char_index(s, byte_len(s.take(k)) as int) == k,
{
    let idx = byte_len(s.take(k)) as int;
    assert(is_boundary(s, idx));
    let j = char_index(s, idx);
    if j < k {
        lemma_prefix_strictly_grows(s, j, k);
    } else if k < j {
        lemma_prefix_strictly_grows(s, k, j);
    }
}

/// Facts about a boundary: its char position, and that it lies within the text.
pub proof fn lemma_boundary(s: Seq<char>, idx: int)
    requires
        is_boundary(s, idx),
    ensures
        0 <= char_index(s, idx) <= s.len(),
        byte_len(s.take(char_index(s, idx))) == idx,
        0 <= idx <= byte_len(s),
        idx == byte_len(s) <==> char_index(s, idx) == s.len(),
{
    let k = char_index(s, idx);
    lemma_prefix_strictly_grows(s, k, s.len() as int);
    assert(s.take(s.len() as int) =~= s);
    assert(byte_len(s.take(0)) == 0) by {
        assert(s.take(0) =~= Seq::<char>::empty());
    }
    lemma_prefix_strictly_grows(s, 0, k);
}

/// The byte offset `0` and the byte length are boundaries of every text.
pub proof fn lemma_boundary_ends(s: Seq<char>)
    ensures
        is_boundary(s, 0),
        char_index(s, 0) == 0,
        is_boundary(s, byte_len(s) as int),
        char_index(s, byte_len(s) as int) == s.len(),
{
    assert(s.take(0) =~= Seq::<char>::empty());
    assert(encode_utf8(Seq::<char>::empty()) =~= Seq::<u8>::empty());
    lemma_char_index_of_prefix(s, 0);
    assert(s.take(s.len() as int) =~= s);
    lemma_char_index_of_prefix(s, s.len() as int);
}

/// The number of bytes of the UTF-8 encoding of a text (what `str::len`
/// returns).
pub fn str_byte_len(s: &str) -> (n: usize)
    ensures
        n == byte_len(s@),
{
    let bytes = s.as_bytes();
    bytes.len()
}

/// The number of bytes of one char's UTF-8 encoding (`char::len_utf8`).
pub fn utf8_width(c: char) -> (w: usize)
    ensures
        w == char_width(c),
{
    proof {
        lemma_char_width(c);
    }
    let u = c as u32;
    if u < 0x80 {
        1
    } else if u < 0x800 {
        2
    } else if u < 0x10000 {
        3
    } else {
        4
    }
}

/// Whether byte offset `idx` is a char boundary of the text (what
/// `str::is_char_boundary` tells).
pub fn is_char_boundary_at(s: &str, idx: usize) -> (res: bool)
    ensures
        res == is_boundary(s@, idx as int),
{
    let total = str_byte_len(s);
    let chars = chars_of(s);
    let ghost t = s@;
    proof {
        lemma_boundary_ends(t);
        lemma_prefix_strictly_grows(t, 0, t.len() as int);
    }
    let mut k: usize = 0;
    let mut bytes: usize = 0;
    while bytes < idx && k < chars.len()
        invariant
            chars@ == t,
            total == byte_len(t),
            k <= t.len(),
            bytes == byte_len(t.take(k as int)),
            bytes <= total,
            forall|j: int| 0 <= j < k ==> #[trigger] byte_len(t.take(j)) < idx,
        decreases t.len() - k,
    {
        let w = utf8_width(chars[k]);
        proof {
            lemma_prefix_step(t, k as int);
            lemma_prefix_strictly_grows(t, k + 1, t.len() as int);
        }
        bytes += w;
        k += 1;
    }
    proof {
        if bytes == idx {
            assert(byte_len(t.take(k as int)) == idx);
        } else {
            assert forall|j: int| 0 <= j <= t.len() implies #[trigger] byte_len(t.take(j))
                != idx by {
                if j >= k {
                    lemma_prefix_strictly_grows(t, k as int, j);
                    if bytes < idx {
                        assert(k == t.len());
                    }
                }
            }
        }
    }
    bytes == idx
}

/// `String::insert`: puts `ch` into the text at byte offset `idx`. The
/// standard library panics where `idx` is not a char boundary, and where
/// the grown text would pass `isize::MAX` bytes.
#[verifier::external_body]
pub(crate) fn string_insert(s: &mut String, idx: usize, ch: char)
    requires
        is_boundary(old(s)@, idx as int),
        byte_len(old(s)@) + char_width(ch) <= isize::MAX,
    ensures
        final(s)@ == old(s)@.insert(char_index(old(s)@, idx as int), ch),
{
    s.insert(idx, ch)
}

/// `String::remove`: takes out, and returns, the char that starts at byte
/// offset `idx`. The standard library panics where `idx` is not a char
/// boundary or is not below the byte length.
#[verifier::external_body]
pub(crate) fn string_remove(s: &mut String, idx: usize) -> (c: char)
    requires
        is_boundary(old(s)@, idx as int),
        idx < byte_len(old(s)@),
    ensures
        c == old(s)@[char_index(old(s)@, idx as int)],
        final(s)@ == old(s)@.remove(char_index(old(s)@, idx as int)),
{
    s.remove(idx)
}

/// The chars of a text, in order.
pub(crate) fn chars_of(s: &str) -> (res: Vec<char>)
    ensures
        res@ == s@,
{
    let mut res: Vec<char> = Vec::new();
    for c in it: s.chars()
        invariant
            res.len() == it.index(),
            forall|i: int| 0 <= i < res.len() ==> #[trigger] res@[i] == it.seq()[i],
    {
        res.push(c);
    }
    assert(res@ =~= s@);
    res
}

/// `String::push`: appends one char.
#[verifier::external_body]
fn string_push(s: &mut String, c: char)
    ensures
        final(s)@ == old(s)@.push(c),
{
    s.push(c)
}

/// A `String` holding the given chars.
pub(crate) fn string_of(v: &Vec<char>) -> (res: String)
    ensures
        res@ == v@,
{
    let mut res = String::new();
    let n = v.len();
    for i in 0..n
        invariant
            n == v.len(),
            res@ =~= v@.take(i as int),
    {
        string_push(&mut res, v[i]);
        assert(v@.take(i + 1) =~= v@.take(i as int).push(v@[i as int]));
    }
    assert(v@.take(n as int) =~= v@);
    res
}

} // verus!
