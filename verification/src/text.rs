//! Character-level text helpers shared by the library's parsers and builders.
//!
//! Strings are modelled by their views, sequences of `char`. The spec functions here say what
//! the std operations that the library relies on (`trim`, `split_whitespace`, `lines`, ...)
//! compute; the executable functions compute the same and are proved to.
use vstd::prelude::*;
use vstd::utf8::{decode_utf8, encode_scalar, encode_utf8, valid_utf8};

verus! {

/// Unicode `White_Space`, the property that `char::is_whitespace` tests.
pub open spec fn is_ws(c: char) -> bool {
    let u = c as u32;
    (0x9 <= u && u <= 0xd) || u == 0x20 || u == 0x85 || u == 0xa0 || u == 0x1680 || (0x2000 <= u
        && u <= 0x200a) || u == 0x2028 || u == 0x2029 || u == 0x202f || u == 0x205f || u == 0x3000
}

/// `char::is_ascii_alphabetic`.
pub open spec fn is_ascii_alpha(c: char) -> bool {
    ('a' <= c && c <= 'z') || ('A' <= c && c <= 'Z')
}

/// Classes of characters that the helpers below scan for.
#[derive(Clone, Copy, Debug, PartialEq, Eq)]
pub enum CharClass {
    Whitespace,
    NonWhitespace,
    Dot,
    NotNewline,
    Slash,
    NotSlash,
    NotDot,
    Reserved,
}

/// Whether `c` belongs to the class.
pub open spec fn in_class(cls: CharClass, c: char) -> bool {
    match cls {
        CharClass::Whitespace => is_ws(c),
        CharClass::NonWhitespace => !is_ws(c),
        CharClass::Dot => c == '.',
        CharClass::NotNewline => c != '\n',
        CharClass::Slash => c == '/',
        CharClass::NotSlash => c != '/',
        CharClass::NotDot => c != '.',
        CharClass::Reserved => is_reserved_in_file_name(c),
    }
}

/// Characters that never appear in a sanitized file name: `< > : " / \ | ? *` and the control
/// characters U+0000 to U+001F.
pub open spec fn is_reserved_in_file_name(c: char) -> bool {
    c == '<' || c == '>' || c == ':' || c == '"' || c == '/' || c == '\\' || c == '|' || c == '?'
        || c == '*' || (c as u32) <= 0x1f
}

/// Whether `c` is reserved in file names.
pub fn is_reserved_char(c: char) -> (b: bool)
    ensures
        b == is_reserved_in_file_name(c),
{
    c == '<' || c == '>' || c == ':' || c == '"' || c == '/' || c == '\\' || c == '|' || c == '?'
        || c == '*' || (c as u32) <= 0x1f
}

/// `char::is_whitespace`.
pub fn is_whitespace_char(c: char) -> (b: bool)
    ensures
        b == is_ws(c),
{
    let u = c as u32;
    (0x9 <= u && u <= 0xd) || u == 0x20 || u == 0x85 || u == 0xa0 || u == 0x1680 || (0x2000 <= u
        && u <= 0x200a) || u == 0x2028 || u == 0x2029 || u == 0x202f || u == 0x205f || u == 0x3000
}

/// Whether `c` belongs to the class.
pub fn char_in_class(cls: CharClass, c: char) -> (b: bool)
    ensures
        b == in_class(cls, c),
{
    match cls {
        CharClass::Whitespace => is_whitespace_char(c),
        CharClass::NonWhitespace => !is_whitespace_char(c),
        CharClass::Dot => c == '.',
        CharClass::NotNewline => c != '\n',
        CharClass::Slash => c == '/',
        CharClass::NotSlash => c != '/',
        CharClass::NotDot => c != '.',
        CharClass::Reserved => is_reserved_char(c),
    }
}

/// Number of leading characters of `s` in the class.
pub open spec fn lead_count(s: Seq<char>, cls: CharClass) -> nat
    decreases s.len(),
{
    if s.len() > 0 && in_class(cls, s[0]) {
        1 + lead_count(s.drop_first(), cls)
    } else {
        0
    }
}

/// Number of trailing characters of `s` in the class.
pub open spec fn trail_count(s: Seq<char>, cls: CharClass) -> nat
    decreases s.len(),
{
    if s.len() > 0 && in_class(cls, s.last()) {
        1 + trail_count(s.drop_last(), cls)
    } else {
        0
    }
}

/// `s` without its leading characters of the class (`trim_start_matches`).
pub open spec fn trim_start_by(s: Seq<char>, cls: CharClass) -> Seq<char> {
    s.skip(lead_count(s, cls) as int)
}

/// `s` without its trailing characters of the class (`trim_end_matches`).
pub open spec fn trim_end_by(s: Seq<char>, cls: CharClass) -> Seq<char> {
    s.take(s.len() - trail_count(s, cls))
}

/// `s` without its leading and trailing characters of the class (`trim_matches`).
pub open spec fn trim_by(s: Seq<char>, cls: CharClass) -> Seq<char> {
    trim_end_by(trim_start_by(s, cls), cls)
}

/// `str::trim`.
pub open spec fn trim_ws(s: Seq<char>) -> Seq<char> {
    trim_by(s, CharClass::Whitespace)
}

/// The leading run lies within `s`, holds only characters of the class, and ends before one that
/// is not in it.
pub proof fn lemma_lead_count_bounds(s: Seq<char>, cls: CharClass)
    ensures
        lead_count(s, cls) <= s.len(),
        forall|k: int| 0 <= k < lead_count(s, cls) ==> in_class(cls, #[trigger] s[k]),
        lead_count(s, cls) < s.len() ==> !in_class(cls, s[lead_count(s, cls) as int]),
    decreases s.len(),
{
    if s.len() > 0 && in_class(cls, s[0]) {
        lemma_lead_count_bounds(s.drop_first(), cls);
        assert forall|k: int| 0 <= k < lead_count(s, cls) implies in_class(cls, #[trigger] s[k]) by {
            if k > 0 {
                assert(s[k] == s.drop_first()[k - 1]);
            }
        }
    }
}

/// The trailing run lies within `s`, holds only characters of the class, and starts after one that
/// is not in it.
pub proof fn lemma_trail_count_bounds(s: Seq<char>, cls: CharClass)
    ensures
        trail_count(s, cls) <= s.len(),
        forall|k: int|
            s.len() - trail_count(s, cls) <= k < s.len() ==> in_class(cls, #[trigger] s[k]),
        trail_count(s, cls) < s.len() ==> !in_class(cls, s[s.len() - trail_count(s, cls) - 1]),
    decreases s.len(),
{
    if s.len() > 0 && in_class(cls, s.last()) {
        lemma_trail_count_bounds(s.drop_last(), cls);
        assert forall|k: int|
            s.len() - trail_count(s, cls) <= k < s.len() implies in_class(cls, #[trigger] s[k]) by {
            if k < s.len() - 1 {
                assert(s[k] == s.drop_last()[k]);
            }
        }
    }
}

/// Index of the first character at or after `from` that is not in the class.
pub fn skip_class(v: &Vec<char>, from: usize, cls: CharClass) -> (r: usize)
    requires
        from <= v.len(),
    ensures
        from <= r <= v.len(),
        r == from + lead_count(v@.skip(from as int), cls),
{
    let mut i = from;
    while i < v.len() && char_in_class(cls, v[i])
        invariant
            from <= i <= v.len(),
            lead_count(v@.skip(from as int), cls) == (i - from) + lead_count(
                v@.skip(i as int),
                cls,
            ),
        decreases v.len() - i,
    {
        assert(v@.skip(i as int).drop_first() =~= v@.skip(i + 1));
        i = i + 1;
    }
    i
}

/// Index just past the last character before `to`, going back no further than `from`, that is
/// not in the class.
pub fn skip_class_back(v: &Vec<char>, from: usize, to: usize, cls: CharClass) -> (r: usize)
    requires
        from <= to <= v.len(),
    ensures
        from <= r <= to,
        r == to - trail_count(v@.subrange(from as int, to as int), cls),
{
    let ghost u = v@.subrange(from as int, to as int);
    let mut j = to;
    while j > from && char_in_class(cls, v[j - 1])
        invariant
            from <= j <= to <= v.len(),
            u == v@.subrange(from as int, to as int),
            trail_count(u, cls) == (to - j) + trail_count(v@.subrange(from as int, j as int), cls),
        decreases j - from,
    {
        assert(v@.subrange(from as int, j as int).drop_last() =~= v@.subrange(
            from as int,
            j - 1,
        ));
        j = j - 1;
    }
    j
}

/// The characters of a string slice, in order.
pub fn chars_of(s: &str) -> (v: Vec<char>)
    ensures
        v@ == s@,
{
    let mut v: Vec<char> = Vec::new();
    for c in it: s.chars()
        invariant
            v@ == it.seq().take(it.index() as int),
    {
        v.push(c);
    }
    v
}

/// Builds a `String` from characters: `Iterator::collect` into `String`.
#[verifier::external_body]
pub(crate) fn string_from_chars(v: &[char]) -> (s: String)
    ensures
        s@ == v@,
{
    v.iter().collect()
}

/// The characters of `v` in `from..to`.
pub fn slice_chars(v: &Vec<char>, from: usize, to: usize) -> (r: Vec<char>)
    requires
        from <= to <= v.len(),
    ensures
        r@ == v@.subrange(from as int, to as int),
{
    let mut r: Vec<char> = Vec::new();
    let mut i = from;
    while i < to
        invariant
            from <= i <= to <= v.len(),
            r@ == v@.subrange(from as int, i as int),
        decreases to - i,
    {
        r.push(v[i]);
        i = i + 1;
        assert(r@ =~= v@.subrange(from as int, i as int));
    }
    r
}

/// `v` without its leading and trailing characters of the class.
pub fn trim_class(v: &Vec<char>, cls: CharClass) -> (r: Vec<char>)
    ensures
        r@ == trim_by(v@, cls),
{
    let a = skip_class(v, 0, cls);
    assert(v@.skip(0) =~= v@);
    let b = skip_class_back(v, a, v.len(), cls);
    assert(v@.subrange(a as int, v.len() as int) =~= trim_start_by(v@, cls));
    let r = slice_chars(v, a, b);
    assert(r@ =~= trim_by(v@, cls));
    r
}

/// `str::split_whitespace`: the maximal runs of non-whitespace characters, in order.
pub open spec fn words(s: Seq<char>) -> Seq<Seq<char>>
    decreases s.len(),
{
    if s.len() == 0 {
        seq![]
    } else if is_ws(s[0]) {
        words(s.drop_first())
    } else {
        let n = lead_count(s, CharClass::NonWhitespace);
        if 0 < n <= s.len() {
            seq![s.take(n as int)] + words(s.skip(n as int))
        } else {
            seq![]
        }
    }
}

/// `join` of a list of strings with a separator.
pub open spec fn join(parts: Seq<Seq<char>>, sep: Seq<char>) -> Seq<char>
    decreases parts.len(),
{
    if parts.len() == 0 {
        seq![]
    } else if parts.len() == 1 {
        parts[0]
    } else {
        join(parts.drop_last(), sep) + sep + parts.last()
    }
}

/// `s.split_whitespace().collect::<Vec<_>>().join(" ")`.
pub open spec fn collapse_ws(s: Seq<char>) -> Seq<char> {
    join(words(s), seq![' '])
}

proof fn lemma_words_step(s: Seq<char>, i: int)
    requires
        0 <= i < s.len(),
    ensures
        is_ws(s[i]) ==> words(s.skip(i)) == words(s.skip(i + 1)),
        !is_ws(s[i]) ==> {
            let n = lead_count(s.skip(i), CharClass::NonWhitespace);
            &&& 0 < n <= s.len() - i
            &&& words(s.skip(i)) == seq![s.subrange(i, i + n)] + words(s.skip(i + n))
        },
{
    let t = s.skip(i);
    assert(t[0] == s[i]);
    assert(t.drop_first() =~= s.skip(i + 1));
    lemma_lead_count_bounds(t, CharClass::NonWhitespace);
    if !is_ws(s[i]) {
        let n = lead_count(t, CharClass::NonWhitespace);
        assert(t.take(n as int) =~= s.subrange(i, i + n));
        assert(t.skip(n as int) =~= s.skip(i + n));
    }
}

/// `split_whitespace`, each word as characters.
pub fn split_words(v: &Vec<char>) -> (r: Vec<Vec<char>>)
    ensures
        r@.map_values(|w: Vec<char>| w@) == words(v@),
{
    let mut r: Vec<Vec<char>> = Vec::new();
    let mut i: usize = 0;
    assert(v@.skip(0) =~= v@);
    while i < v.len()
        invariant
            i <= v.len(),
            words(v@) == r@.map_values(|w: Vec<char>| w@) + words(v@.skip(i as int)),
        decreases v.len() - i,
    {
        proof {
            lemma_words_step(v@, i as int);
        }
        if is_whitespace_char(v[i]) {
            i = i + 1;
        } else {
            let j = skip_class(v, i, CharClass::NonWhitespace);
            let w = slice_chars(v, i, j);
            let ghost before = r@.map_values(|w: Vec<char>| w@);
            r.push(w);
            assert(r@.map_values(|w: Vec<char>| w@) =~= before.push(w@));
            assert(before.push(w@) + words(v@.skip(j as int)) =~= before + (seq![w@] + words(
                v@.skip(j as int),
            )));
            i = j;
        }
    }
    assert(v@.skip(i as int) =~= Seq::<char>::empty());
    assert(words(v@.skip(i as int)) == Seq::<Seq<char>>::empty());
    assert(r@.map_values(|w: Vec<char>| w@) + Seq::<Seq<char>>::empty() =~= r@.map_values(
        |w: Vec<char>| w@,
    ));
    r
}

/// Appends the characters of `w` to `out`.
pub fn append_chars(out: &mut Vec<char>, w: &Vec<char>)
    ensures
        final(out)@ == old(out)@ + w@,
{
    let mut i: usize = 0;
    while i < w.len()
        invariant
            i <= w.len(),
            out@ == old(out)@ + w@.take(i as int),
        decreases w.len() - i,
    {
        out.push(w[i]);
        i = i + 1;
        assert(out@ =~= old(out)@ + w@.take(i as int));
    }
    assert(w@.take(w.len() as int) =~= w@);
}

/// Joins words with one separator character between each two.
pub fn join_chars(parts: &Vec<Vec<char>>, sep: char) -> (r: Vec<char>)
    ensures
        r@ == join(parts@.map_values(|w: Vec<char>| w@), seq![sep]),
{
    let ghost ps = parts@.map_values(|w: Vec<char>| w@);
    let mut r: Vec<char> = Vec::new();
    let mut i: usize = 0;
    while i < parts.len()
        invariant
            i <= parts.len(),
            ps == parts@.map_values(|w: Vec<char>| w@),
            r@ == join(ps.take(i as int), seq![sep]),
        decreases parts.len() - i,
    {
        if i > 0 {
            r.push(sep);
        }
        append_chars(&mut r, &parts[i]);
        assert(ps.take(i + 1).drop_last() =~= ps.take(i as int));
        i = i + 1;
        if i == 1 {
            assert(r@ =~= join(ps.take(i as int), seq![sep]));
        }
    }
    assert(ps.take(parts.len() as int) =~= ps);
    r
}

/// `collapse_ws` of `v`.
pub fn collapse_whitespace(v: &Vec<char>) -> (r: Vec<char>)
    ensures
        r@ == collapse_ws(v@),
{
    let ws = split_words(v);
    join_chars(&ws, ' ')
}

/// `p` is a prefix of `s`.
pub open spec fn has_prefix(s: Seq<char>, p: Seq<char>) -> bool {
    p.len() <= s.len() && s.take(p.len() as int) == p
}

/// `str::strip_prefix`.
pub open spec fn strip_prefix_spec(s: Seq<char>, p: Seq<char>) -> Option<Seq<char>> {
    if has_prefix(s, p) {
        Some(s.skip(p.len() as int))
    } else {
        None
    }
}

/// Whether `v[from..from + p.len()]` equals `p`.
pub fn matches_at(v: &Vec<char>, from: usize, p: &Vec<char>) -> (b: bool)
    requires
        from <= v.len(),
    ensures
        b == (from + p.len() <= v.len() && v@.subrange(from as int, from + p.len()) == p@),
{
    if p.len() > v.len() - from {
        return false;
    }
    let mut i: usize = 0;
    while i < p.len()
        invariant
            i <= p.len(),
            from + p.len() <= v.len(),
            forall|k: int| 0 <= k < i ==> v@[from + k] == p@[k],
        decreases p.len() - i,
    {
        if v[from + i] != p[i] {
            assert(v@.subrange(from as int, from + p.len())[i as int] != p@[i as int]);
            return false;
        }
        i = i + 1;
    }
    assert(v@.subrange(from as int, from + p.len()) =~= p@);
    true
}

/// Equality of two character sequences.
pub fn chars_equal(a: &Vec<char>, b: &Vec<char>) -> (r: bool)
    ensures
        r == (a@ == b@),
{
    if a.len() != b.len() {
        return false;
    }
    let r = matches_at(a, 0, b);
    assert(a@.subrange(0, b.len() as int) =~= a@);
    r
}

/// `str::strip_prefix` on characters.
pub fn strip_prefix_chars(v: &Vec<char>, p: &Vec<char>) -> (r: Option<Vec<char>>)
    ensures
        r matches Some(w) ==> strip_prefix_spec(v@, p@) == Some(w@),
        r is None ==> strip_prefix_spec(v@, p@) is None,
{
    if matches_at(v, 0, p) {
        assert(v@.subrange(0, p.len() as int) =~= v@.take(p.len() as int));
        let w = slice_chars(v, p.len(), v.len());
        assert(w@ =~= v@.skip(p.len() as int));
        Some(w)
    } else {
        assert(!(v@.take(p.len() as int) == p@) || p.len() > v.len()) by {
            if p.len() <= v.len() {
                assert(v@.subrange(0, p.len() as int) =~= v@.take(p.len() as int));
            }
        }
        None
    }
}

/// A line without its trailing carriage return, if it has one.
pub open spec fn strip_cr(l: Seq<char>) -> Seq<char> {
    if l.len() > 0 && l.last() == '\r' {
        l.drop_last()
    } else {
        l
    }
}

/// `str::lines`: the text split at `\n`, each line without a `\r` just before its `\n`; a
/// final line ending adds no empty line.
pub open spec fn lines(s: Seq<char>) -> Seq<Seq<char>>
    decreases s.len(),
{
    if s.len() == 0 {
        seq![]
    } else {
        let k = lead_count(s, CharClass::NotNewline);
        if k >= s.len() {
            seq![s]
        } else {
            seq![strip_cr(s.take(k as int))] + lines(s.skip(k + 1 as int))
        }
    }
}

/// `str::lines`, each line as characters.
pub fn split_lines(v: &Vec<char>) -> (r: Vec<Vec<char>>)
    ensures
        r@.map_values(|l: Vec<char>| l@) == lines(v@),
{
    let mut r: Vec<Vec<char>> = Vec::new();
    let mut i: usize = 0;
    assert(v@.skip(0) =~= v@);
    while i < v.len()
        invariant
            i <= v.len(),
            lines(v@) == r@.map_values(|l: Vec<char>| l@) + lines(v@.skip(i as int)),
        decreases v.len() - i,
    {
        let ghost t = v@.skip(i as int);
        let ghost before = r@.map_values(|l: Vec<char>| l@);
        let j = skip_class(v, i, CharClass::NotNewline);
        proof {
            lemma_lead_count_bounds(t, CharClass::NotNewline);
        }
        if j == v.len() {
            let l = slice_chars(v, i, j);
            assert(l@ =~= t);
            r.push(l);
            assert(r@.map_values(|l: Vec<char>| l@) =~= before.push(l@));
            assert(v@.skip(j as int) =~= Seq::<char>::empty());
            assert(lines(t) == seq![t]);
            assert(before.push(l@) + lines(v@.skip(j as int)) =~= before + lines(t));
            i = j;
        } else {
            let mut l = slice_chars(v, i, j);
            assert(l@ =~= t.take(j - i));
            if l.len() > 0 && l[l.len() - 1] == '\r' {
                l.pop();
                assert(l@ =~= strip_cr(t.take(j - i)));
            }
            r.push(l);
            assert(r@.map_values(|l: Vec<char>| l@) =~= before.push(l@));
            assert(t.skip(j - i + 1) =~= v@.skip(j + 1));
            assert(before.push(l@) + lines(v@.skip(j + 1)) =~= before + lines(t));
            i = j + 1;
        }
    }
    assert(v@.skip(i as int) =~= Seq::<char>::empty());
    assert(r@.map_values(|l: Vec<char>| l@) + Seq::<Seq<char>>::empty() =~= r@.map_values(
        |l: Vec<char>| l@,
    ));
    r
}

proof fn lemma_utf8_len_skip(s: Seq<char>, j: int)
    requires
        0 <= j <= s.len(),
    ensures
        encode_utf8(s).len() >= encode_utf8(s.skip(j)).len(),
    decreases j,
{
    if j == 0 {
        assert(s.skip(0) =~= s);
    } else {
        lemma_utf8_len_skip(s, j - 1);
        assert(s.skip(j - 1).drop_first() =~= s.skip(j));
    }
}

/// Whether the UTF-8 encoding of `v` (what `str::len` counts) is shorter than `limit` bytes.
pub fn utf8_len_below(v: &Vec<char>, limit: usize) -> (b: bool)
    ensures
        b == (encode_utf8(v@).len() < limit),
{
    broadcast use vstd::utf8::char_is_scalar;

    if limit == 0 {
        return false;
    }
    let mut j = v.len();
    let mut acc: usize = 0;
    assert(v@.skip(j as int) =~= Seq::<char>::empty());
    while j > 0
        invariant
            j <= v.len(),
            acc == encode_utf8(v@.skip(j as int)).len(),
            acc < limit,
        decreases j,
    {
        let c = v[j - 1];
        let u = c as u32;
        proof {
            vstd::utf8::char_is_scalar(c);
        }
        let w: usize = if u < 0x80 {
            1
        } else if u < 0x800 {
            2
        } else if u < 0x10000 {
            3
        } else {
            4
        };
        assert(v@.skip(j - 1).drop_first() =~= v@.skip(j as int));
        assert(v@.skip(j - 1)[0] == v@[j - 1]);
        assert(encode_scalar(u).len() == w);
        if w >= limit - acc {
            proof {
                lemma_utf8_len_skip(v@, j - 1);
            }
            return false;
        }
        acc = acc + w;
        j = j - 1;
    }
    assert(v@.skip(0) =~= v@);
    true
}

/// `char::is_ascii_digit`.
pub open spec fn is_digit(c: char) -> bool {
    48 <= (c as u32) && (c as u32) <= 57
}

/// The value of a string of decimal digits.
pub open spec fn digits_value(s: Seq<char>) -> int
    decreases s.len(),
{
    if s.len() == 0 {
        0
    } else {
        digits_value(s.drop_last()) * 10 + ((s.last() as u32) - 48)
    }
}

/// `s` holds only decimal digits.
pub open spec fn all_digits(s: Seq<char>) -> bool {
    forall|i: int| 0 <= i < s.len() ==> is_digit(#[trigger] s[i])
}

/// `str::parse::<i64>`: an optional `+` or `-`, then at least one decimal digit and nothing
/// else, with a value in the range of `i64`.
pub open spec fn parse_i64_spec(s: Seq<char>) -> Option<i64> {
    let signed = s.len() > 0 && (s[0] == '-' || s[0] == '+');
    let ds = if signed {
        s.drop_first()
    } else {
        s
    };
    let v = if s.len() > 0 && s[0] == '-' {
        -digits_value(ds)
    } else {
        digits_value(ds)
    };
    if ds.len() > 0 && all_digits(ds) && i64::MIN <= v && v <= i64::MAX {
        Some(v as i64)
    } else {
        None
    }
}

proof fn lemma_digits_value_grows(s: Seq<char>, i: int)
    requires
        all_digits(s),
        0 <= i <= s.len(),
    ensures
        0 <= digits_value(s.take(i)) <= digits_value(s),
    decreases s.len() - i,
{
    if i == s.len() {
        assert(s.take(i) =~= s);
        lemma_digits_value_nonneg(s);
    } else {
        lemma_digits_value_grows(s, i + 1);
        assert(s.take(i + 1).drop_last() =~= s.take(i));
        assert(is_digit(s[i]));
        lemma_digits_value_nonneg(s.take(i));
    }
}

proof fn lemma_digits_value_nonneg(s: Seq<char>)
    requires
        all_digits(s),
    ensures
        digits_value(s) >= 0,
    decreases s.len(),
{
    if s.len() > 0 {
        assert(all_digits(s.drop_last())) by {
            assert forall|i: int| 0 <= i < s.drop_last().len() implies is_digit(
                #[trigger] s.drop_last()[i],
            ) by {
                assert(s.drop_last()[i] == s[i]);
            }
        }
        lemma_digits_value_nonneg(s.drop_last());
        assert(is_digit(s[s.len() - 1]));
    }
}

/// `str::parse::<i64>` on characters.
pub fn parse_i64(v: &Vec<char>) -> (r: Option<i64>)
    ensures
        r == parse_i64_spec(v@),
{
    let neg = v.len() > 0 && v[0] == '-';
    let start: usize = if v.len() > 0 && (v[0] == '-' || v[0] == '+') {
        1
    } else {
        0
    };
    let ghost ds = v@.skip(start as int);
    assert(start == 1 ==> ds =~= v@.drop_first());
    assert(start == 0 ==> ds =~= v@);
    if start == v.len() {
        return None;
    }
    let limit: u128 = 9223372036854775808;
    let mut acc: u128 = 0;
    let mut i = start;
    while i < v.len()
        invariant
            start <= i <= v.len(),
            ds == v@.skip(start as int),
            acc == digits_value(ds.take(i - start)),
            limit == 9223372036854775808,
            start == 1 ==> ds == v@.drop_first(),
            start == 0 ==> ds == v@,
            (start == 1) == (v@.len() > 0 && (v@[0] == '-' || v@[0] == '+')),
            start <= 1,
            acc <= limit,
            all_digits(ds.take(i - start)),
        decreases v.len() - i,
    {
        let c = v[i];
        let cu = c as u32;
        if !(48 <= cu && cu <= 57) {
            assert(ds[i - start] == c);
            assert(!is_digit(c));
            assert(!all_digits(ds));
            return None;
        }
        let d = (cu - 48) as u128;
        assert(is_digit(c));
        let next = acc * 10 + d;
        assert(ds.take(i - start + 1).drop_last() =~= ds.take(i - start));
        assert(ds.take(i - start + 1).last() == c);
        assert(all_digits(ds.take(i - start + 1))) by {
            assert forall|k: int| 0 <= k < ds.take(i - start + 1).len() implies is_digit(
                #[trigger] ds.take(i - start + 1)[k],
            ) by {
                if k < i - start {
                    assert(ds.take(i - start + 1)[k] == ds.take(i - start)[k]);
                }
            }
        }
        if next > limit {
            proof {
                if all_digits(ds) {
                    lemma_digits_value_grows(ds, i - start + 1);
                }
            }
            return None;
        }
        acc = next;
        i = i + 1;
    }
    assert(ds.take(i - start) =~= ds);
    if neg {
        if acc == limit {
            Some(-9223372036854775807i64 - 1)
        } else {
            Some(-(acc as i64))
        }
    } else if acc >= limit {
        None
    } else {
        Some(acc as i64)
    }
}

/// ASCII lower case of one character (`char::to_ascii_lowercase`).
pub open spec fn ascii_lower(c: char) -> char {
    if 'A' <= c && c <= 'Z' {
        ((c as u32) + 32) as char
    } else {
        c
    }
}

/// `str::to_ascii_lowercase`.
pub open spec fn ascii_lower_str(s: Seq<char>) -> Seq<char> {
    s.map_values(|c: char| ascii_lower(c))
}

/// `str::to_ascii_lowercase`, for a string given as text.
pub fn to_ascii_lowercase(s: &str) -> (r: String)
    ensures
        r@ == ascii_lower_str(s@),
{
    let v = chars_of(s);
    let mut out: Vec<char> = Vec::new();
    let mut i: usize = 0;
    while i < v.len()
        invariant
            i <= v.len(),
            out@ == ascii_lower_str(v@.take(i as int)),
        decreases v.len() - i,
    {
        let c = v[i];
        let l = if 'A' <= c && c <= 'Z' {
            ((c as u8) + 32) as char
        } else {
            c
        };
        out.push(l);
        i = i + 1;
        assert(out@ =~= ascii_lower_str(v@.take(i as int)));
    }
    assert(v@.take(v.len() as int) =~= v@);
    string_from_chars(out.as_slice())
}

/// The decimal digit for `d` in `0..10`.
pub open spec fn digit_char(d: int) -> char {
    (48 + d) as char
}

/// The decimal representation of `n` (`ToString` for unsigned integers).
pub open spec fn decimal(n: nat) -> Seq<char>
    decreases n,
{
    if n < 10 {
        seq![digit_char(n as int)]
    } else {
        decimal(n / 10) + seq![digit_char((n % 10) as int)]
    }
}

/// Appends the decimal representation of `n`.
pub fn push_decimal(out: &mut Vec<char>, n: usize)
    ensures
        final(out)@ == old(out)@ + decimal(n as nat),
    decreases n,
{
    if n >= 10 {
        push_decimal(out, n / 10);
    }
    let d = (n % 10) as u8;
    out.push((48u8 + d) as char);
    assert(((48u8 + d) as char) == digit_char((n % 10) as int));
    assert(out@ =~= old(out)@ + decimal(n as nat));
}

/// Replaces each double quote by two (`str::replace('"', "\"\"")`).
pub open spec fn double_quotes(s: Seq<char>) -> Seq<char>
    decreases s.len(),
{
    if s.len() == 0 {
        seq![]
    } else {
        double_quotes(s.drop_last()) + if s.last() == '"' {
            seq!['"', '"']
        } else {
            seq![s.last()]
        }
    }
}

/// Appends `v` with each double quote doubled.
pub fn push_doubling_quotes(out: &mut Vec<char>, v: &Vec<char>)
    ensures
        final(out)@ == old(out)@ + double_quotes(v@),
{
    let mut i: usize = 0;
    while i < v.len()
        invariant
            i <= v.len(),
            out@ == old(out)@ + double_quotes(v@.take(i as int)),
        decreases v.len() - i,
    {
        if v[i] == '"' {
            out.push('"');
            out.push('"');
        } else {
            out.push(v[i]);
        }
        assert(v@.take(i + 1).drop_last() =~= v@.take(i as int));
        i = i + 1;
        assert(out@ =~= old(out)@ + double_quotes(v@.take(i as int)));
    }
    assert(v@.take(v.len() as int) =~= v@);
}

/// The trailing run of a class in `pre + suf` is all of `suf` when `suf` lies wholly in the class
/// and `pre` does not end in it.
pub proof fn lemma_trail_count_concat(pre: Seq<char>, suf: Seq<char>, cls: CharClass)
    requires
        forall|i: int| 0 <= i < suf.len() ==> in_class(cls, #[trigger] suf[i]),
        pre.len() == 0 || !in_class(cls, pre.last()),
    ensures
        trail_count(pre + suf, cls) == suf.len(),
    decreases suf.len(),
{
    if suf.len() == 0 {
        assert(pre + suf =~= pre);
    } else {
        assert((pre + suf).drop_last() =~= pre + suf.drop_last());
        assert((pre + suf).last() == suf[suf.len() - 1]);
        lemma_trail_count_concat(pre, suf.drop_last(), cls);
    }
}

proof fn lemma_digit_char(d: int)
    requires
        0 <= d < 10,
    ensures
        (digit_char(d) as u32) == 48 + d,
{
    assert(d == 0 || d == 1 || d == 2 || d == 3 || d == 4 || d == 5 || d == 6 || d == 7 || d == 8
        || d == 9);
}

/// The digits of a decimal representation give back the number.
pub proof fn lemma_decimal_value(n: nat)
    ensures
        all_digits(decimal(n)),
        digits_value(decimal(n)) == n,
        decimal(n).len() > 0,
    decreases n,
{
    if n < 10 {
        assert(decimal(n).drop_last() =~= Seq::<char>::empty());
        lemma_digit_char(n as int);
        assert(decimal(n).last() == digit_char(n as int));
        assert(digits_value(decimal(n)) == digits_value(Seq::<char>::empty()) * 10 + ((decimal(
            n,
        ).last() as u32) - 48));
    } else {
        lemma_decimal_value(n / 10);
        let d = decimal(n / 10);
        assert(decimal(n).drop_last() =~= d);
        assert(decimal(n).last() == digit_char((n % 10) as int));
        lemma_digit_char((n % 10) as int);
        assert(digits_value(decimal(n)) == digits_value(d) * 10 + ((decimal(n).last() as u32)
            - 48));
        assert(n == (n / 10) * 10 + n % 10) by (nonlinear_arith);
        assert forall|i: int| 0 <= i < decimal(n).len() implies is_digit(#[trigger] decimal(n)[i]) by {
            if i < d.len() {
                assert(decimal(n)[i] == d[i]);
            }
        }
    }
}

/// Different numbers have different decimal representations.
pub proof fn lemma_decimal_injective(a: nat, b: nat)
    requires
        a != b,
    ensures
        decimal(a) != decimal(b),
{
    lemma_decimal_value(a);
    lemma_decimal_value(b);
}

/// What `String::from_utf8_lossy` makes of a byte string: its UTF-8 text, with `U+FFFD` in
/// place of each ill-formed sequence.
pub uninterp spec fn utf8_lossy(bytes: Seq<u8>) -> Seq<char>;

/// `String::from_utf8_lossy`: valid UTF-8 comes back decoded; otherwise ill-formed sequences
/// are replaced, as `utf8_lossy` names.
#[verifier::external_body]
pub(crate) fn lossy_text(bytes: &[u8]) -> (r: String)
    ensures
        r@ == utf8_lossy(bytes@),
        valid_utf8(bytes@) ==> r@ == decode_utf8(bytes@),
{
    String::from_utf8_lossy(bytes).into_owned()
}

/// `std::str::from_utf8`: the text of the bytes when they are valid UTF-8.
#[verifier::external_body]
pub(crate) fn utf8_text(bytes: &[u8]) -> (r: Option<String>)
    ensures
        r is Some <==> valid_utf8(bytes@),
        r matches Some(s) ==> s@ == decode_utf8(bytes@),
{
    std::str::from_utf8(bytes).ok().map(|s| s.to_string())
}

/// The text of valid UTF-8 bytes (`OsStr::to_str`).
pub open spec fn to_str_spec(bytes: Seq<u8>) -> Option<Seq<char>> {
    if valid_utf8(bytes) {
        Some(decode_utf8(bytes))
    } else {
        None
    }
}

/// The UTF-8 bytes of a string.
pub fn bytes_of(s: &str) -> (r: Vec<u8>)
    ensures
        r@ == encode_utf8(s@),
{
    s.as_bytes_vec()
}

/// The text that `Path::display` shows of a byte path: its UTF-8 text, ill-formed sequences
/// replaced.
pub open spec fn display_text(bytes: Seq<u8>) -> Seq<char> {
    if valid_utf8(bytes) {
        decode_utf8(bytes)
    } else {
        utf8_lossy(bytes)
    }
}

/// The text of a byte path as `Path::display` shows it.
pub fn display_of(bytes: &Vec<u8>) -> (r: String)
    ensures
        r@ == display_text(bytes@),
{
    lossy_text(bytes.as_slice())
}

/// The encoding of two strings one after the other is the two encodings one after the other.
pub proof fn lemma_encode_concat(a: Seq<char>, b: Seq<char>)
    ensures
        encode_utf8(a + b) == encode_utf8(a) + encode_utf8(b),
    decreases a.len(),
{
    if a.len() == 0 {
        assert(a + b =~= b);
        assert(encode_utf8(a) =~= Seq::<u8>::empty());
        assert(encode_utf8(a) + encode_utf8(b) =~= encode_utf8(b));
    } else {
        assert((a + b).drop_first() =~= a.drop_first() + b);
        assert((a + b)[0] == a[0]);
        lemma_encode_concat(a.drop_first(), b);
        assert(encode_utf8(a + b) =~= encode_utf8(a) + encode_utf8(b));
    }
}

/// An ASCII character is encoded as its own byte; any other only as bytes from `0x80` up.
pub proof fn lemma_encode_scalar_bytes(c: char)
    ensures
        (c as u32) < 0x80 ==> encode_scalar(c as u32) == seq![(c as u32) as u8],
        (c as u32) >= 0x80 ==> forall|i: int|
            0 <= i < encode_scalar(c as u32).len() ==> #[trigger] encode_scalar(c as u32)[i] >= 0x80,
        encode_scalar(c as u32).len() >= 1,
{
    vstd::utf8::char_is_scalar(c);
    let u = c as u32;
    if u < 0x80 {
        assert((u & 0x7F) as u8 == u as u8) by (bit_vector)
            requires
                u < 0x80,
        ;
    } else {
        let a = ((u >> 6) & 0x1F) as u8;
        let b = ((u >> 12) & 0x0F) as u8;
        let d = ((u >> 18) & 0x7) as u8;
        let x = (u & 0x3F) as u8;
        let y = ((u >> 6) & 0x3F) as u8;
        let z = ((u >> 12) & 0x3F) as u8;
        assert(0xC0u8 | a >= 0x80) by (bit_vector);
        assert(0xE0u8 | b >= 0x80) by (bit_vector);
        assert(0xF0u8 | d >= 0x80) by (bit_vector);
        assert(0x80u8 | x >= 0x80) by (bit_vector);
        assert(0x80u8 | y >= 0x80) by (bit_vector);
        assert(0x80u8 | z >= 0x80) by (bit_vector);
    }
}

/// The encoding of a string holds the byte of an ASCII character only where the string holds
/// that character.
pub proof fn lemma_encode_avoids(s: Seq<char>, c: char)
    requires
        (c as u32) < 0x80,
        forall|i: int| 0 <= i < s.len() ==> #[trigger] s[i] != c,
    ensures
        forall|j: int|
            0 <= j < encode_utf8(s).len() ==> #[trigger] encode_utf8(s)[j] != (c as u32) as u8,
    decreases s.len(),
{
    if s.len() > 0 {
        let rest = s.drop_first();
        assert forall|i: int| 0 <= i < rest.len() implies #[trigger] rest[i] != c by {
            assert(rest[i] == s[i + 1]);
        }
        lemma_encode_avoids(rest, c);
        lemma_encode_scalar_bytes(s[0]);
        let h = encode_scalar(s[0] as u32);
        let e = encode_utf8(s);
        assert(e == h + encode_utf8(rest));
        assert forall|j: int| 0 <= j < e.len() implies #[trigger] e[j] != (c as u32) as u8 by {
            if j < h.len() {
                assert(e[j] == h[j]);
                if (s[0] as u32) < 0x80 {
                    assert(s[0] != c);
                    if (s[0] as u32) == (c as u32) {
                        vstd::utf8::char_u32_cast(s[0], s[0] as u32);
                        vstd::utf8::char_u32_cast(c, c as u32);
                    }
                    assert((s[0] as u32) != (c as u32));
                }
            } else {
                assert(e[j] == encode_utf8(rest)[j - h.len()]);
            }
        }
    }
}

/// A non-empty string has a non-empty encoding.
pub proof fn lemma_encode_nonempty(s: Seq<char>)
    requires
        s.len() > 0,
    ensures
        encode_utf8(s).len() >= s.len(),
    decreases s.len(),
{
    lemma_encode_scalar_bytes(s[0]);
    if s.len() > 1 {
        lemma_encode_nonempty(s.drop_first());
    }
}

/// Text encoded as UTF-8 reads back as the same text.
pub proof fn lemma_text_of_encoding(s: Seq<char>)
    ensures
        to_str_spec(encode_utf8(s)) == Some(s),
{
    vstd::utf8::encode_utf8_valid_utf8(s);
    vstd::utf8::encode_utf8_decode_utf8(s);
}

/// A name given as text, a `.` and an extension given as text, as the bytes of a file in any
/// directory: its extension is the extension's bytes, and it reads back as the extension.
pub proof fn lemma_text_extension_bytes(ext: Seq<char>)
    requires
        ext.len() > 0,
        forall|i: int| 0 <= i < ext.len() ==> #[trigger] ext[i] != '/' && ext[i] != '.',
    ensures
        encode_utf8(ext).len() > 0,
        forall|j: int|
            0 <= j < encode_utf8(ext).len() ==> #[trigger] encode_utf8(ext)[j] != 47u8
                && encode_utf8(ext)[j] != 46u8,
        to_str_spec(encode_utf8(ext)) == Some(ext),
{
    lemma_encode_nonempty(ext);
    lemma_encode_avoids(ext, '/');
    lemma_encode_avoids(ext, '.');
    assert(('/' as u32) == 47);
    assert(('.' as u32) == 46);
    lemma_text_of_encoding(ext);
}

/// The leading run of a class in `a + c`: that of `a`, continued into `c` only when all of `a`
/// is in the class.
proof fn lemma_lead_count_concat(a: Seq<char>, c: Seq<char>, cls: CharClass)
    ensures
        lead_count(a, cls) < a.len() ==> lead_count(a + c, cls) == lead_count(a, cls),
        lead_count(a, cls) == a.len() ==> lead_count(a + c, cls) == a.len() + lead_count(c, cls),
    decreases a.len(),
{
    if a.len() == 0 {
        assert(a + c =~= c);
    } else {
        assert((a + c)[0] == a[0]);
        assert((a + c).drop_first() =~= a.drop_first() + c);
        lemma_lead_count_concat(a.drop_first(), c, cls);
    }
}

/// A space between two texts separates their words: `split_whitespace` of `a + " " + b` is the
/// words of `a` followed by the words of `b`.
pub proof fn lemma_words_space_concat(a: Seq<char>, b: Seq<char>)
    ensures
        words(a + seq![' '] + b) == words(a) + words(b),
    decreases a.len(),
{
    let s = a + seq![' '] + b;
    assert((' ' as u32) == 0x20);
    assert(is_ws(' '));
    if a.len() == 0 {
        assert(s[0] == ' ');
        assert(s.drop_first() =~= b);
        assert(words(a) =~= Seq::<Seq<char>>::empty());
        assert(words(s) =~= words(a) + words(b));
    } else if is_ws(a[0]) {
        assert(s[0] == a[0]);
        assert(s.drop_first() =~= a.drop_first() + seq![' '] + b);
        lemma_words_space_concat(a.drop_first(), b);
    } else {
        let m = lead_count(a, CharClass::NonWhitespace);
        lemma_lead_count_bounds(a, CharClass::NonWhitespace);
        assert(s =~= a + (seq![' '] + b));
        lemma_lead_count_concat(a, seq![' '] + b, CharClass::NonWhitespace);
        assert((seq![' '] + b)[0] == ' ');
        assert(lead_count(seq![' '] + b, CharClass::NonWhitespace) == 0);
        assert(s[0] == a[0]);
        assert(lead_count(s, CharClass::NonWhitespace) == m);
        assert(m > 0);
        assert(s.take(m as int) =~= a.take(m as int));
        assert(s.skip(m as int) =~= a.skip(m as int) + seq![' '] + b);
        lemma_words_space_concat(a.skip(m as int), b);
        assert(words(s) =~= words(a) + words(b));
    }
}

/// A non-empty text without whitespace is one word.
pub proof fn lemma_words_single(w: Seq<char>)
    requires
        w.len() > 0,
        forall|i: int| 0 <= i < w.len() ==> !is_ws(#[trigger] w[i]),
    ensures
        words(w) == seq![w],
{
    lemma_lead_count_bounds(w, CharClass::NonWhitespace);
    let n = lead_count(w, CharClass::NonWhitespace);
    if n < w.len() {
        assert(!is_ws(w[n as int]));
    }
    assert(n == w.len());
    assert(w.take(n as int) =~= w);
    assert(w.skip(n as int) =~= Seq::<char>::empty());
    assert(words(w.skip(n as int)) =~= Seq::<Seq<char>>::empty());
    assert(words(w) =~= seq![w]);
}

/// Non-empty texts without whitespace, joined with single spaces, split back into themselves.
pub proof fn lemma_words_join(parts: Seq<Seq<char>>)
    requires
        forall|k: int| 0 <= k < parts.len() ==> (#[trigger] parts[k]).len() > 0,
        forall|k: int, i: int|
            0 <= k < parts.len() && 0 <= i < parts[k].len() ==> !is_ws(#[trigger] parts[k][i]),
    ensures
        words(join(parts, seq![' '])) == parts,
    decreases parts.len(),
{
    if parts.len() == 0 {
        assert(words(join(parts, seq![' '])) =~= parts);
    } else if parts.len() == 1 {
        assert(parts[0].len() > 0);
        lemma_words_single(parts[0]);
        assert(seq![parts[0]] =~= parts);
    } else {
        let init = parts.drop_last();
        assert forall|k: int| 0 <= k < init.len() implies (#[trigger] init[k]).len() > 0 by {
            assert(init[k] == parts[k]);
        }
        assert forall|k: int, i: int| 0 <= k < init.len() && 0 <= i < init[k].len() implies !is_ws(
            #[trigger] init[k][i],
        ) by {
            assert(init[k] == parts[k]);
        }
        lemma_words_join(init);
        let last = parts.last();
        assert(last == parts[parts.len() - 1]);
        assert(last.len() > 0);
        assert forall|i: int| 0 <= i < last.len() implies !is_ws(#[trigger] last[i]) by {
            assert(last[i] == parts[parts.len() - 1][i]);
        }
        lemma_words_single(last);
        lemma_words_space_concat(join(init, seq![' ']), last);
        assert(words(join(parts, seq![' '])) =~= init + seq![last]);
        assert(init + seq![last] =~= parts);
    }
}

/// Every word of a text is non-empty and holds no whitespace.
pub proof fn lemma_words_shape(s: Seq<char>)
    ensures
        forall|k: int| 0 <= k < words(s).len() ==> (#[trigger] words(s)[k]).len() > 0,
        forall|k: int, i: int|
            0 <= k < words(s).len() && 0 <= i < words(s)[k].len() ==> !is_ws(
                #[trigger] words(s)[k][i],
            ),
    decreases s.len(),
{
    if s.len() > 0 {
        if is_ws(s[0]) {
            lemma_words_shape(s.drop_first());
            assert(words(s) == words(s.drop_first()));
        } else {
            let n = lead_count(s, CharClass::NonWhitespace);
            lemma_lead_count_bounds(s, CharClass::NonWhitespace);
            if 0 < n <= s.len() {
                lemma_words_shape(s.skip(n as int));
                let w = words(s);
                let r = words(s.skip(n as int));
                assert(w =~= seq![s.take(n as int)] + r);
                assert forall|k: int| 0 <= k < w.len() implies (#[trigger] w[k]).len() > 0 by {
                    if k > 0 {
                        assert(w[k] == r[k - 1]);
                    }
                }
                assert forall|k: int, i: int| 0 <= k < w.len() && 0 <= i < w[k].len() implies !is_ws(
                    #[trigger] w[k][i],
                ) by {
                    if k > 0 {
                        assert(w[k] == r[k - 1]);
                    } else {
                        assert(w[0] == s.take(n as int));
                        assert(w[0][i] == s[i]);
                        assert(in_class(CharClass::NonWhitespace, s[i]));
                    }
                }
            }
        }
    }
}

/// Doubling quotes works character by character: the text of `a + b` is that of `a` followed by
/// that of `b`; a quote becomes two quotes and any other character stays.
pub proof fn lemma_double_quotes(a: Seq<char>, b: Seq<char>, c: char)
    ensures
        double_quotes(a + b) == double_quotes(a) + double_quotes(b),
        double_quotes(seq![c]) == (if c == '"' {
            seq!['"', '"']
        } else {
            seq![c]
        }),
    decreases b.len(),
{
    assert(seq![c].drop_last() =~= Seq::<char>::empty());
    assert(seq![c].last() == c);
    assert(double_quotes(seq![c].drop_last()) =~= Seq::<char>::empty());
    assert(double_quotes(seq![c]) =~= (if c == '"' {
        seq!['"', '"']
    } else {
        seq![c]
    }));
    if b.len() == 0 {
        assert(a + b =~= a);
        assert(double_quotes(a) + double_quotes(b) =~= double_quotes(a));
    } else {
        lemma_double_quotes(a, b.drop_last(), c);
        assert((a + b).drop_last() =~= a + b.drop_last());
        assert((a + b).last() == b.last());
    }
}

/// Doubling quotes adds no whitespace.
pub proof fn lemma_double_quotes_no_ws(s: Seq<char>)
    requires
        forall|i: int| 0 <= i < s.len() ==> !is_ws(#[trigger] s[i]),
    ensures
        forall|i: int| 0 <= i < double_quotes(s).len() ==> !is_ws(#[trigger] double_quotes(s)[i]),
    decreases s.len(),
{
    assert(('"' as u32) == 0x22);
    if s.len() > 0 {
        let init = s.drop_last();
        assert forall|i: int| 0 <= i < init.len() implies !is_ws(#[trigger] init[i]) by {
            assert(init[i] == s[i]);
        }
        lemma_double_quotes_no_ws(init);
        assert(!is_ws(s[s.len() - 1]));
        let d = double_quotes(s);
        let di = double_quotes(init);
        assert forall|i: int| 0 <= i < d.len() implies !is_ws(#[trigger] d[i]) by {
            if i < di.len() {
                assert(d[i] == di[i]);
            }
        }
    }
}

} // verus!
