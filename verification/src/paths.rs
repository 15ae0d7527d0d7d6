//! Names given as text (the file names of uploads), read as paths with the meaning that
//! `std::path` gives them on Unix.
//!
//! These functions compute what `Path::file_name`, `Path::file_stem` and `Path::extension`
//! compute for a path that is text: `/` separates components, repeated and trailing separators
//! are ignored, `.` components are skipped, and a last component of `..` has no file name.
use vstd::prelude::*;
use crate::text::{
    chars_of, string_from_chars,
    lemma_trail_count_bounds, skip_class_back, slice_chars, trail_count, trim_end_by, CharClass,
};

verus! {

/// `Path::file_name`.
pub open spec fn file_name_spec(p: Seq<char>) -> Option<Seq<char>>
    decreases p.len(),
{
    let t = trim_end_by(p, CharClass::Slash);
    let n = trail_count(t, CharClass::NotSlash);
    if t.len() == 0 || t.len() > p.len() || n == 0 || n > t.len() {
        None
    } else {
        let seg = t.skip(t.len() - n);
        if seg == seq!['.'] {
            file_name_spec(t.take(t.len() - n))
        } else if seg == seq!['.', '.'] {
            None
        } else {
            Some(seg)
        }
    }
}

/// Splits a file name at its last dot as `Path::file_stem` and `Path::extension` do: a name
/// without a dot, or whose only dot leads, has no extension.
pub open spec fn split_last_dot(name: Seq<char>) -> (Seq<char>, Option<Seq<char>>) {
    let n = trail_count(name, CharClass::NotDot);
    if n >= name.len() || n + 1 == name.len() {
        (name, None)
    } else {
        (name.take(name.len() - n - 1), Some(name.skip(name.len() - n)))
    }
}

/// `Path::file_stem`.
pub open spec fn file_stem_spec(p: Seq<char>) -> Option<Seq<char>> {
    match file_name_spec(p) {
        Some(name) => Some(split_last_dot(name).0),
        None => None,
    }
}

/// `Path::extension`.
pub open spec fn extension_spec(p: Seq<char>) -> Option<Seq<char>> {
    match file_name_spec(p) {
        Some(name) => split_last_dot(name).1,
        None => None,
    }
}

proof fn lemma_take_sub(v: Seq<char>, end: int)
    requires
        0 <= end <= v.len(),
    ensures
        v.subrange(0, end) == v.take(end),
{
    assert(v.subrange(0, end) =~= v.take(end));
}

/// The last component of `v`, as characters.
pub fn file_name_chars(v: &Vec<char>) -> (r: Option<Vec<char>>)
    ensures
        r matches Some(w) ==> file_name_spec(v@) == Some(w@),
        r is None ==> file_name_spec(v@) is None,
{
    let mut end = v.len();
    assert(v@.take(end as int) =~= v@);
    loop
        invariant
            end <= v.len(),
            file_name_spec(v@) == file_name_spec(v@.take(end as int)),
        decreases end,
    {
        let ghost p = v@.take(end as int);
        let t_end = skip_class_back(v, 0, end, CharClass::Slash);
        proof {
            lemma_take_sub(v@, end as int);
            lemma_trail_count_bounds(p, CharClass::Slash);
            assert(trim_end_by(p, CharClass::Slash) =~= v@.take(t_end as int));
        }
        if t_end == 0 {
            return None;
        }
        let start = skip_class_back(v, 0, t_end, CharClass::NotSlash);
        let ghost t = v@.take(t_end as int);
        proof {
            lemma_take_sub(v@, t_end as int);
            lemma_trail_count_bounds(t, CharClass::NotSlash);
            assert(t.len() - trail_count(t, CharClass::NotSlash) - 1 == t_end - (t_end - start)
                - 1);
        }
        if start == t_end {
            // The last character before the trailing slashes is itself a slash: impossible.
            proof {
                lemma_trail_count_bounds(p, CharClass::Slash);
            }
            return None;
        }
        let seg = slice_chars(v, start, t_end);
        assert(t.skip(t.len() - (t_end - start)) =~= seg@);
        if seg.len() == 1 && seg[0] == '.' {
            assert(seg@ =~= seq!['.']);
            assert(t.take(t.len() - (t_end - start)) =~= v@.take(start as int));
            end = start;
        } else if seg.len() == 2 && seg[0] == '.' && seg[1] == '.' {
            assert(seg@ =~= seq!['.', '.']);
            return None;
        } else {
            assert(seg@ != seq!['.']);
            assert(seg@ != seq!['.', '.']);
            return Some(seg);
        }
    }
}

/// `split_last_dot` of `name`.
pub fn split_last_dot_chars(name: &Vec<char>) -> (r: (Vec<char>, Option<Vec<char>>))
    ensures
        r.0@ == split_last_dot(name@).0,
        r.1 matches Some(e) ==> split_last_dot(name@).1 == Some(e@),
        r.1 is None ==> split_last_dot(name@).1 is None,
{
    let len = name.len();
    let start = skip_class_back(name, 0, len, CharClass::NotDot);
    proof {
        lemma_take_sub(name@, len as int);
        assert(name@.take(len as int) =~= name@);
    }
    if start == 0 || start == 1 {
        (slice_chars(name, 0, len), None)
    } else {
        let stem = slice_chars(name, 0, start - 1);
        let ext = slice_chars(name, start, len);
        (stem, Some(ext))
    }
}

/// `Path::file_stem`, for a path given as text.
pub fn file_stem(path: &str) -> (r: Option<String>)
    ensures
        r matches Some(s) ==> file_stem_spec(path@) == Some(s@),
        r is None ==> file_stem_spec(path@) is None,
{
    let v = chars_of(path);
    match file_name_chars(&v) {
        Some(name) => {
            let (stem, _) = split_last_dot_chars(&name);
            Some(string_from_chars(stem.as_slice()))
        },
        None => None,
    }
}

/// `Path::extension`, for a path given as text.
pub fn extension(path: &str) -> (r: Option<String>)
    ensures
        r matches Some(s) ==> extension_spec(path@) == Some(s@),
        r is None ==> extension_spec(path@) is None,
{
    let v = chars_of(path);
    match file_name_chars(&v) {
        Some(name) => {
            let (_, ext) = split_last_dot_chars(&name);
            match ext {
                Some(e) => Some(string_from_chars(e.as_slice())),
                None => None,
            }
        },
        None => None,
    }
}

/// `Path::file_name`, for a path given as text.
pub fn file_name(path: &str) -> (r: Option<String>)
    ensures
        r matches Some(s) ==> file_name_spec(path@) == Some(s@),
        r is None ==> file_name_spec(path@) is None,
{
    let v = chars_of(path);
    match file_name_chars(&v) {
        Some(name) => Some(string_from_chars(name.as_slice())),
        None => None,
    }
}

} // verus!
