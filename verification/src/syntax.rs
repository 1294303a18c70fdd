//! The pieces of text syntax that the collaboration messages use:
//! whitespace trimming, colon-separated fields, and decimal numbers.
use vstd::prelude::*;

verus! {

/// The Unicode `White_Space` property, which `char::is_whitespace` and
/// `str::trim` go by.
pub open spec fn is_white(c: char) -> bool {
    let u = c as u32;
    ||| 0x9 <= u <= 0xd
    ||| u == 0x20
    ||| u == 0x85
    ||| u == 0xa0
    ||| u == 0x1680
    ||| 0x2000 <= u <= 0x200a
    ||| u == 0x2028
    ||| u == 0x2029
    ||| u == 0x202f
    ||| u == 0x205f
    ||| u == 0x3000
}

/// The text without its leading whitespace.
pub open spec fn trim_start(s: Seq<char>) -> Seq<char>
    decreases s.len(),
{
    if s.len() > 0 && is_white(s[0]) {
        trim_start(s.drop_first())
    } else {
        s
    }
}

/// The text without its trailing whitespace.
pub open spec fn trim_end(s: Seq<char>) -> Seq<char>
    decreases s.len(),
{
    if s.len() > 0 && is_white(s.last()) {
        trim_end(s.drop_last())
    } else {
        s
    }
}

/// The text without leading and trailing whitespace (what `str::trim` gives).
pub open spec fn trim(s: Seq<char>) -> Seq<char> {
    trim_end(trim_start(s))
}

/// The fields of a text separated by `':'` (what `str::split(':')` yields):
/// there is always at least one, and there is one more than there are colons.
pub open spec fn split_colon(s: Seq<char>) -> Seq<Seq<char>>
    decreases s.len(),
{
    if s.len() == 0 {
        seq![Seq::<char>::empty()]
    } else {
        let p = split_colon(s.drop_last());
        if s.last() == ':' {
            p.push(Seq::<char>::empty())
        } else {
            p.update(p.len() - 1, p.last().push(s.last()))
        }
    }
}

/// An ASCII decimal digit.
pub open spec fn is_digit(c: char) -> bool {
    '0' <= c <= '9'
}

/// The value of a decimal digit.
pub open spec fn digit_value(c: char) -> nat {
    (c as u32 - '0' as u32) as nat
}

/// The value of a string of decimal digits (zero for the empty one).
pub open spec fn digits_value(s: Seq<char>) -> nat
    decreases s.len(),
{
    if s.len() == 0 {
        0
    } else {
        digits_value(s.drop_last()) * 10 + digit_value(s.last())
    }
}

/// The text after an optional leading `'+'`.
pub open spec fn unsigned_part(s: Seq<char>) -> Seq<char> {
    if s.len() > 0 && s[0] == '+' {
        s.drop_first()
    } else {
        s
    }
}

/// What `usize::from_str_radix(s, 10)` accepts: an optional `'+'`, then one
/// or more ASCII digits whose value fits in a `usize`.
pub open spec fn parse_usize(s: Seq<char>) -> Option<usize> {
    let d = unsigned_part(s);
    if d.len() > 0 && (forall|i: int| 0 <= i < d.len() ==> is_digit(#[trigger] d[i]))
        && digits_value(d) <= usize::MAX {
        Some(digits_value(d) as usize)
    } else {
        None
    }
}

/// The char of a decimal digit.
pub open spec fn digit_char(d: nat) -> char {
    seq!['0', '1', '2', '3', '4', '5', '6', '7', '8', '9'][d as int]
}

/// The decimal writing of a number, without sign or leading zeros (what
/// `format!("{}", n)` writes).
pub open spec fn decimal(n: nat) -> Seq<char>
    decreases n,
{
    if n < 10 {
        seq![digit_char(n)]
    } else {
        decimal(n / 10).push(digit_char(n % 10))
    }
}

/// `char::is_whitespace`.
pub fn is_whitespace(c: char) -> (res: bool)
    ensures
        res == is_white(c),
{
    let u = c as u32;
    (0x9 <= u && u <= 0xd) || u == 0x20 || u == 0x85 || u == 0xa0 || u == 0x1680 || (0x2000 <= u
        && u <= 0x200a) || u == 0x2028 || u == 0x2029 || u == 0x202f || u == 0x205f || u == 0x3000
}

/// The text between leading and trailing whitespace.
pub fn trim_chars(s: &Vec<char>) -> (res: Vec<char>)
    ensures
        res@ == trim(s@),
{
    let n = s.len();
    let mut i: usize = 0;
    assert(s@.skip(0) =~= s@);
    while i < n && is_whitespace(s[i])
        invariant
            n == s.len(),
            i <= n,
            trim_start(s@) == trim_start(s@.skip(i as int)),
        decreases n - i,
    {
        assert(s@.skip(i as int).drop_first() =~= s@.skip(i + 1));
        i += 1;
    }
    let ghost t = s@.skip(i as int);
    assert(trim_start(s@) == t);
    let mut j: usize = n;
    assert(t.take(n - i) =~= t);
    while j > i && is_whitespace(s[j - 1])
        invariant
            n == s.len(),
            i <= j <= n,
            t == s@.skip(i as int),
            trim_end(t) == trim_end(t.take(j - i)),
        decreases j,
    {
        assert(t.take(j - i).drop_last() =~= t.take(j - 1 - i));
        assert(t.take(j - i).last() == s@[j - 1]);
        j -= 1;
    }
    assert(trim_end(t.take(j - i)) == t.take(j - i));
    let mut res: Vec<char> = Vec::new();
    let mut k: usize = i;
    while k < j
        invariant
            n == s.len(),
            i <= k <= j <= n,
            res@ =~= s@.subrange(i as int, k as int),
        decreases j - k,
    {
        res.push(s[k]);
        k += 1;
    }
    assert(res@ =~= t.take(j - i));
    res
}

/// Every text has at least one field.
pub proof fn lemma_split_nonempty(s: Seq<char>)
    ensures
        split_colon(s).len() >= 1,
    decreases s.len(),
{
    if s.len() > 0 {
        lemma_split_nonempty(s.drop_last());
    }
}

/// The fields of a text separated by `':'`.
pub fn split_fields(s: &Vec<char>) -> (res: Vec<Vec<char>>)
    ensures
        res@.map_values(|f: Vec<char>| f@) == split_colon(s@),
{
    let n = s.len();
    let mut done: Vec<Vec<char>> = Vec::new();
    let mut cur: Vec<char> = Vec::new();
    let mut i: usize = 0;
    assert(s@.take(0) =~= Seq::<char>::empty());
    assert(done@.map_values(|f: Vec<char>| f@).push(cur@) =~= split_colon(s@.take(0)));
    while i < n
        invariant
            n == s.len(),
            i <= n,
            done@.map_values(|f: Vec<char>| f@).push(cur@) == split_colon(s@.take(i as int)),
        decreases n - i,
    {
        let c = s[i];
        let ghost before = done@.map_values(|f: Vec<char>| f@);
        let ghost old_cur = cur@;
        assert(s@.take(i + 1).drop_last() =~= s@.take(i as int));
        assert(s@.take(i + 1).last() == c);
        if c == ':' {
            let finished = cur;
            done.push(finished);
            cur = Vec::new();
            assert(done@.map_values(|f: Vec<char>| f@) =~= before.push(old_cur));
            assert(done@.map_values(|f: Vec<char>| f@).push(cur@) =~= before.push(old_cur).push(
                Seq::<char>::empty(),
            ));
        } else {
            cur.push(c);
            assert(done@.map_values(|f: Vec<char>| f@).push(cur@) =~= before.push(old_cur).update(
                before.len() as int,
                old_cur.push(c),
            ));
        }
        i += 1;
    }
    assert(s@.take(n as int) =~= s@);
    let ghost before = done@.map_values(|f: Vec<char>| f@);
    done.push(cur);
    assert(done@.map_values(|f: Vec<char>| f@) =~= before.push(cur@));
    done
}

/// A prefix of a digit string is worth no more than the whole string.
pub proof fn lemma_digits_value_prefix(s: Seq<char>, i: int)
    requires
        0 <= i <= s.len(),
    ensures
        digits_value(s.take(i)) <= digits_value(s),
    decreases s.len(),
{
    assert(s.take(s.len() as int) =~= s);
    if i < s.len() {
        lemma_digits_value_prefix(s.drop_last(), i);
        assert(s.drop_last().take(i) =~= s.take(i));
    }
}

/// `usize::from_str_radix(s, 10)`, with every error seen as `None`.
pub fn parse_decimal(s: &Vec<char>) -> (res: Option<usize>)
    ensures
        res == parse_usize(s@),
{
    let n = s.len();
    let start: usize = if n > 0 && s[0] == '+' {
        1
    } else {
        0
    };
    let ghost d = s@.skip(start as int);
    assert(d =~= unsigned_part(s@));
    if start == n {
        return None;
    }
    let mut i: usize = start;
    while i < n
        invariant
            n == s.len(),
            start <= i <= n,
            d == s@.skip(start as int),
            d == unsigned_part(s@),
            forall|k: int| 0 <= k < i - start ==> is_digit(#[trigger] d[k]),
        decreases n - i,
    {
        let c = s[i];
        assert(d[i - start] == c);
        if !('0' <= c && c <= '9') {
            assert(!is_digit(d[i - start]));
            assert(!(forall|k: int| 0 <= k < d.len() ==> is_digit(#[trigger] d[k])));
            assert(parse_usize(s@) is None);
            return None;
        }
        i += 1;
    }
    let mut acc: usize = 0;
    let mut i: usize = start;
    assert(d.take(0) =~= Seq::<char>::empty());
    while i < n
        invariant
            n == s.len(),
            start <= i <= n,
            d == s@.skip(start as int),
            d == unsigned_part(s@),
            forall|k: int| 0 <= k < d.len() ==> is_digit(#[trigger] d[k]),
            acc == digits_value(d.take(i - start)),
        decreases n - i,
    {
        let c = s[i];
        assert(d[i - start] == c);
        let dig = (c as u32 - '0' as u32) as usize;
        assert(d.take(i + 1 - start).drop_last() =~= d.take(i - start));
        assert(d.take(i + 1 - start).last() == c);
        assert(is_digit(d[i - start]));
        assert(digits_value(d.take(i + 1 - start)) == acc * 10 + dig);
        match acc.checked_mul(10) {
            None => {
                proof {
                    lemma_digits_value_prefix(d, i + 1 - start);
                    assert(digits_value(d) > usize::MAX);
                }
                return None;
            },
            Some(m) => match m.checked_add(dig) {
                None => {
                    proof {
                        lemma_digits_value_prefix(d, i + 1 - start);
                    }
                    return None;
                },
                Some(v) => {
                    acc = v;
                },
            },
        }
        i += 1;
    }
    assert(d.take(n - start) =~= d);
    Some(acc)
}

/// The char of a decimal digit.
fn digit_to_char(v: usize) -> (c: char)
    requires
        v < 10,
    ensures
        c == digit_char(v as nat),
{
    if v == 0 {
        '0'
    } else if v == 1 {
        '1'
    } else if v == 2 {
        '2'
    } else if v == 3 {
        '3'
    } else if v == 4 {
        '4'
    } else if v == 5 {
        '5'
    } else if v == 6 {
        '6'
    } else if v == 7 {
        '7'
    } else if v == 8 {
        '8'
    } else {
        '9'
    }
}

/// Appends the decimal writing of `v`.
pub fn push_decimal(out: &mut Vec<char>, v: usize)
    ensures
        final(out)@ == old(out)@ + decimal(v as nat),
    decreases v,
{
    if v >= 10 {
        push_decimal(out, v / 10);
    }
    let c = digit_to_char(v % 10);
    out.push(c);
    proof {
        if v < 10 {
            assert(decimal(v as nat) =~= seq![digit_char(v as nat)]);
        } else {
            assert(decimal(v as nat) =~= decimal((v / 10) as nat).push(digit_char((v % 10) as nat)));
        }
    }
}

/// Digit chars and their values.
proof fn lemma_digit_char(d: nat)
    requires
        d < 10,
    ensures
        is_digit(digit_char(d)),
        digit_value(digit_char(d)) == d,
        digit_char(d) != '+',
        digit_char(d) != ':',
        !is_white(digit_char(d)),
{
}

/// A decimal writing is a nonempty string of digits worth the number.
pub proof fn lemma_decimal(n: nat)
    ensures
        decimal(n).len() > 0,
        forall|i: int| 0 <= i < decimal(n).len() ==> is_digit(#[trigger] decimal(n)[i]),
        digits_value(decimal(n)) == n,
    decreases n,
{
    if n < 10 {
        lemma_digit_char(n);
        let s = decimal(n);
        assert(s.drop_last() =~= Seq::<char>::empty());
        assert(s.last() == digit_char(n));
        assert(digits_value(s) == digits_value(s.drop_last()) * 10 + digit_value(s.last()));
    } else {
        lemma_decimal(n / 10);
        lemma_digit_char(n % 10);
        let s = decimal(n);
        assert(s.drop_last() =~= decimal(n / 10));
        assert(s.last() == digit_char(n % 10));
        assert(digits_value(s) == digits_value(s.drop_last()) * 10 + digit_value(s.last()));
        assert((n / 10) * 10 + n % 10 == n) by (nonlinear_arith);
        assert forall|i: int| 0 <= i < s.len() implies is_digit(#[trigger] s[i]) by {
            if i < s.len() - 1 {
                assert(s[i] == decimal(n / 10)[i]);
            }
        }
    }
}

/// Reading back a decimal writing gives the number.
pub proof fn lemma_parse_decimal(n: usize)
    ensures
        parse_usize(decimal(n as nat)) == Some(n),
{
    lemma_decimal(n as nat);
    let s = decimal(n as nat);
    assert(is_digit(s[0]));
}

/// Appending text without a colon extends the last field.
pub proof fn lemma_split_append_field(a: Seq<char>, b: Seq<char>)
    requires
        forall|i: int| 0 <= i < b.len() ==> #[trigger] b[i] != ':',
    ensures
        split_colon(a + b) == split_colon(a).update(
            split_colon(a).len() - 1,
            split_colon(a).last() + b,
        ),
    decreases b.len(),
{
    lemma_split_nonempty(a);
    if b.len() == 0 {
        assert(a + b =~= a);
        assert(split_colon(a).last() + b =~= split_colon(a).last());
        assert(split_colon(a).update(split_colon(a).len() - 1, split_colon(a).last())
            =~= split_colon(a));
    } else {
        let b0 = b.drop_last();
        lemma_split_append_field(a, b0);
        assert((a + b).drop_last() =~= a + b0);
        assert((a + b).last() == b.last());
        let p = split_colon(a);
        let q = p.update(p.len() - 1, p.last() + b0);
        assert(split_colon(a + b) == q.update(q.len() - 1, q.last().push(b.last())));
        assert((p.last() + b0).push(b.last()) =~= p.last() + b);
        assert(q.update(q.len() - 1, q.last().push(b.last())) =~= p.update(
            p.len() - 1,
            p.last() + b,
        ));
    }
}

/// A colon starts a new, empty field.
pub proof fn lemma_split_append_colon(a: Seq<char>)
    ensures
        split_colon(a.push(':')) == split_colon(a).push(Seq::<char>::empty()),
{
    assert(a.push(':').drop_last() =~= a);
}

/// A text that neither starts nor ends with whitespace is its own trim.
pub proof fn lemma_trim_unchanged(s: Seq<char>)
    requires
        s.len() > 0,
        !is_white(s[0]),
        !is_white(s.last()),
    ensures
        trim(s) == s,
{
}

/// The Unicode `White_Space` chars, each named: tab, line feed, vertical
/// tab, form feed, carriage return, space, next line, no-break space, ogham
/// space mark, the spaces from en quad to hair space, line separator,
/// paragraph separator, narrow no-break space, medium mathematical space and
/// ideographic space are whitespace. Letters, digits, `:`, `+`, the
/// zero-width space, the Mongolian vowel separator and the byte order mark
/// are not.
pub proof fn lemma_white_space_chars()
    ensures
        is_white('\t'),
        is_white('\n'),
        is_white('\u{b}'),
        is_white('\u{c}'),
        is_white('\r'),
        is_white(' '),
        is_white('\u{85}'),
        is_white('\u{a0}'),
        is_white('\u{1680}'),
        is_white('\u{2000}'),
        is_white('\u{2001}'),
        is_white('\u{2002}'),
        is_white('\u{2003}'),
        is_white('\u{2004}'),
        is_white('\u{2005}'),
        is_white('\u{2006}'),
        is_white('\u{2007}'),
        is_white('\u{2008}'),
        is_white('\u{2009}'),
        is_white('\u{200a}'),
        is_white('\u{2028}'),
        is_white('\u{2029}'),
        is_white('\u{202f}'),
        is_white('\u{205f}'),
        is_white('\u{3000}'),
        !is_white('a'),
        !is_white('Z'),
        !is_white('0'),
        !is_white('9'),
        !is_white(':'),
        !is_white('+'),
        !is_white('\u{0}'),
        !is_white('\u{8}'),
        !is_white('\u{e}'),
        !is_white('\u{1f}'),
        !is_white('\u{200b}'),
        !is_white('\u{180e}'),
        !is_white('\u{feff}'),
        forall|c: char| is_digit(c) ==> !is_white(c),
{
}

/// A text made only of whitespace.
pub open spec fn all_white(w: Seq<char>) -> bool {
    forall|i: int| 0 <= i < w.len() ==> is_white(#[trigger] w[i])
}

/// Trimming the start of a text made only of whitespace leaves nothing.
proof fn lemma_trim_start_all_white(w: Seq<char>)
    requires
        all_white(w),
    ensures
        trim_start(w) == Seq::<char>::empty(),
    decreases w.len(),
{
    if w.len() > 0 {
        assert(all_white(w.drop_first())) by {
            assert forall|i: int| 0 <= i < w.drop_first().len() implies is_white(
                #[trigger] w.drop_first()[i],
            ) by {
                assert(w.drop_first()[i] == w[i + 1]);
            }
        }
        lemma_trim_start_all_white(w.drop_first());
    } else {
        assert(w =~= Seq::<char>::empty());
    }
}

/// Trimming the start of a concatenation: if the first part has something
/// besides whitespace, the second part stays whole.
proof fn lemma_trim_start_concat(a: Seq<char>, b: Seq<char>)
    ensures
        trim_start(a).len() > 0 ==> trim_start(a + b) == trim_start(a) + b,
        trim_start(a).len() == 0 ==> trim_start(a + b) == trim_start(b),
    decreases a.len(),
{
    if a.len() == 0 {
        assert(a + b =~= b);
    } else {
        assert((a + b)[0] == a[0]);
        assert((a + b).drop_first() =~= a.drop_first() + b);
        if is_white(a[0]) {
            lemma_trim_start_concat(a.drop_first(), b);
        }
    }
}

/// Trailing whitespace after a text is trimmed away from its end.
proof fn lemma_trim_end_white_suffix(x: Seq<char>, w: Seq<char>)
    requires
        all_white(w),
    ensures
        trim_end(x + w) == trim_end(x),
    decreases w.len(),
{
    if w.len() == 0 {
        assert(x + w =~= x);
    } else {
        assert((x + w).drop_last() =~= x + w.drop_last());
        assert((x + w).last() == w.last());
        assert(all_white(w.drop_last())) by {
            assert forall|i: int| 0 <= i < w.drop_last().len() implies is_white(
                #[trigger] w.drop_last()[i],
            ) by {
                assert(w.drop_last()[i] == w[i]);
            }
        }
        assert(is_white(w[w.len() - 1]));
        lemma_trim_end_white_suffix(x, w.drop_last());
    }
}

/// Whitespace added at the end of a text does not change its trim: a line
/// ending such as `"\r\n"` or `"\n"` is trimmed away.
pub proof fn lemma_trim_ignores_trailing_white(m: Seq<char>, w: Seq<char>)
    requires
        all_white(w),
    ensures
        trim(m + w) == trim(m),
{
    lemma_trim_start_concat(m, w);
    if trim_start(m).len() > 0 {
        lemma_trim_end_white_suffix(trim_start(m), w);
    } else {
        lemma_trim_start_all_white(w);
        assert(trim_start(m) =~= Seq::<char>::empty());
    }
}

/// How many colons a text holds.
pub open spec fn count_colons(s: Seq<char>) -> nat
    decreases s.len(),
{
    if s.len() == 0 {
        0
    } else {
        count_colons(s.drop_last()) + if s.last() == ':' {
            1nat
        } else {
            0nat
        }
    }
}

/// A text has one field more than it has colons, and a text without colons
/// is its own single field.
pub proof fn lemma_split_counts_colons(s: Seq<char>)
    ensures
        split_colon(s).len() == count_colons(s) + 1,
        (forall|i: int| 0 <= i < s.len() ==> #[trigger] s[i] != ':') <==> count_colons(s) == 0,
        count_colons(s) == 0 ==> split_colon(s) == seq![s],
    decreases s.len(),
{
    if s.len() > 0 {
        lemma_split_counts_colons(s.drop_last());
        lemma_split_nonempty(s.drop_last());
        let p = s.drop_last();
        if forall|i: int| 0 <= i < s.len() ==> #[trigger] s[i] != ':' {
            assert forall|i: int| 0 <= i < p.len() implies #[trigger] p[i] != ':' by {
                assert(p[i] == s[i]);
            }
            assert(s.last() == s[s.len() - 1]);
            assert(split_colon(p) == seq![p]);
            assert(p.push(s.last()) =~= s);
            assert(seq![p].update(0, p.push(s.last())) =~= seq![s]);
        }
        if count_colons(s) == 0 {
            assert forall|i: int| 0 <= i < s.len() implies #[trigger] s[i] != ':' by {
                if i < s.len() - 1 {
                    assert(s[i] == p[i]);
                } else {
                    assert(s[i] == s.last());
                }
            }
        }
    } else {
        assert(s =~= Seq::<char>::empty());
        assert(split_colon(s) =~= seq![s]);
    }
}

} // verus!
