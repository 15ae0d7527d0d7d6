//! Naming the audio files that the daemon receives as uploads.
use vstd::prelude::*;
use crate::conversion::{sanitize_file_name, sanitized_name};
use crate::paths::{
    extension, extension_spec, file_name, file_name_spec, file_stem, file_stem_spec,
};
use crate::text::{
    append_chars, chars_of, decimal, lemma_decimal_injective, push_decimal, string_from_chars,
};

verus! {

/// The name under which an upload is stored: the sanitized last component of the name the
/// client gave, `track` where that is missing or sanitizes to nothing.
pub open spec fn upload_name_spec(file_name: Seq<char>) -> Seq<char> {
    let base = match file_name_spec(file_name) {
        Some(n) => n,
        None => "track"@,
    };
    if sanitized_name(base) == "untitled"@ {
        "track"@
    } else {
        sanitized_name(base)
    }
}

/// The name under which an upload is stored.
pub fn sanitize_upload_file_name(name: &str) -> (r: String)
    ensures
        r@ == upload_name_spec(name@),
{
    let base = match file_name(name) {
        Some(n) => n,
        None => String::from_str("track"),
    };
    let safe = sanitize_file_name(base.as_str());
    let untitled = String::from_str("untitled");
    if safe == untitled {
        String::from_str("track")
    } else {
        safe
    }
}

/// The `suffix`-th alternative to a stored name that is taken: `stem-suffix.ext`, with the
/// stem `track` where the name has none and no extension where it has none; the name itself for
/// suffix zero.
pub open spec fn candidate_name_spec(name: Seq<char>, suffix: nat) -> Seq<char> {
    if suffix == 0 {
        name
    } else {
        let stem = match file_stem_spec(name) {
            Some(s) => s,
            None => "track"@,
        };
        let ext = match extension_spec(name) {
            Some(e) => seq!['.'] + e,
            None => seq![],
        };
        stem + seq!['-'] + decimal(suffix) + ext
    }
}

/// A name for an upload, the `suffix`-th tried.
pub fn import_candidate_name(name: &str, suffix: usize) -> (r: String)
    ensures
        r@ == candidate_name_spec(name@, suffix as nat),
{
    if suffix == 0 {
        return String::from_str(name);
    }
    let stem = match file_stem(name) {
        Some(s) => s,
        None => String::from_str("track"),
    };
    let mut out = chars_of(stem.as_str());
    out.push('-');
    push_decimal(&mut out, suffix);
    match extension(name) {
        Some(e) => {
            out.push('.');
            let ev = chars_of(e.as_str());
            append_chars(&mut out, &ev);
        },
        None => {},
    }
    let r = string_from_chars(out.as_slice());
    assert(r@ =~= candidate_name_spec(name@, suffix as nat));
    r
}

/// The alternatives tried for a stored name that is taken are pairwise distinct, so trying them
/// in turn always reaches a free one.
pub proof fn lemma_candidate_names_distinct(name: Seq<char>, a: nat, b: nat)
    requires
        1 <= a,
        1 <= b,
        a != b,
    ensures
        candidate_name_spec(name, a) != candidate_name_spec(name, b),
{
    lemma_decimal_injective(a, b);
    let stem = match file_stem_spec(name) {
        Some(s) => s,
        None => "track"@,
    };
    let ext = match extension_spec(name) {
        Some(e) => seq!['.'] + e,
        None => seq![],
    };
    let x = stem + seq!['-'] + decimal(a) + ext;
    let y = stem + seq!['-'] + decimal(b) + ext;
    assert(candidate_name_spec(name, a) == x);
    assert(candidate_name_spec(name, b) == y);
    if x == y {
        let k: int = stem.len() as int + 1;
        assert(decimal(a).len() == decimal(b).len());
        assert(x.subrange(k, k + decimal(a).len()) =~= decimal(a));
        assert(y.subrange(k, k + decimal(b).len()) =~= decimal(b));
    }
}

} // verus!
