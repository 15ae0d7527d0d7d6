//! How library queries are put to the track and job tables.
use vstd::prelude::*;
use crate::text::{
    chars_of, double_quotes, is_ws, join, lemma_double_quotes_no_ws, lemma_words_join,
    lemma_words_shape, push_doubling_quotes, split_words,
    string_from_chars, trim_class, trim_ws, words, CharClass,
};

verus! {

/// A page of the track list, optionally filtered by a full-text search.
#[derive(Debug)]
pub struct TrackQuery {
    pub search: Option<String>,
    pub limit: usize,
    pub offset: usize,
}

/// The page size of a query that does not choose one.
pub const DEFAULT_TRACK_LIMIT: usize = 100;

impl Default for TrackQuery {
    fn default() -> (r: Self)
        ensures
            r.search is None,
            r.limit == DEFAULT_TRACK_LIMIT,
            r.offset == 0,
    {
        TrackQuery { search: None, limit: DEFAULT_TRACK_LIMIT, offset: 0 }
    }
}

/// The most tracks that one query returns.
pub const MAX_TRACK_PAGE: usize = 500;

/// The most jobs that one listing returns.
pub const MAX_JOB_PAGE: usize = 200;

/// One search term as an FTS5 prefix query: quoted, inner quotes doubled, followed by `*`.
pub open spec fn fts_term(term: Seq<char>) -> Seq<char> {
    seq!['"'] + double_quotes(term) + seq!['"', '*']
}

/// The FTS5 query for a search text: every whitespace-separated term as a quoted prefix query,
/// separated by spaces (which FTS5 reads as AND).
pub open spec fn fts_query_spec(input: Seq<char>) -> Seq<char> {
    join(words(input).map_values(|t: Seq<char>| fts_term(t)), seq![' '])
}

/// The query holds one term per whitespace-separated word of the search text, in order, and
/// nothing else but single spaces between them: the k-th term is the k-th word in double quotes,
/// its own quotes doubled, followed by `*`.
pub proof fn lemma_fts_query_terms(input: Seq<char>)
    ensures
        words(fts_query_spec(input)).len() == words(input).len(),
        forall|k: int|
            0 <= k < words(input).len() ==> #[trigger] words(fts_query_spec(input))[k] == seq!['"']
                + double_quotes(words(input)[k]) + seq!['"', '*'],
        fts_query_spec(input) == join(words(fts_query_spec(input)), seq![' ']),
{
    let ws = words(input);
    let terms = ws.map_values(|t: Seq<char>| fts_term(t));
    lemma_words_shape(input);
    assert(('"' as u32) == 0x22);
    assert(('*' as u32) == 0x2a);
    assert forall|k: int| 0 <= k < terms.len() implies (#[trigger] terms[k]).len() > 0 by {
        assert(terms[k] == fts_term(ws[k]));
    }
    assert forall|k: int, i: int| 0 <= k < terms.len() && 0 <= i < terms[k].len() implies !is_ws(
        #[trigger] terms[k][i],
    ) by {
        let w = ws[k];
        assert forall|j: int| 0 <= j < w.len() implies !is_ws(#[trigger] w[j]) by {
            assert(w[j] == ws[k][j]);
        }
        lemma_double_quotes_no_ws(w);
        let d = double_quotes(w);
        assert(terms[k] == seq!['"'] + d + seq!['"', '*']);
        if 0 < i <= d.len() {
            assert(terms[k][i] == d[i - 1]);
        }
    }
    lemma_words_join(terms);
    assert(fts_query_spec(input) == join(terms, seq![' ']));
}

/// The FTS5 query for a search text.
pub fn fts_query(input: &str) -> (r: String)
    ensures
        r@ == fts_query_spec(input@),
{
    let v = chars_of(input);
    let terms = split_words(&v);
    let ghost ts = terms@.map_values(|w: Vec<char>| w@);
    let ghost qs = words(v@).map_values(|t: Seq<char>| fts_term(t));
    assert(ts == words(v@));
    let mut out: Vec<char> = Vec::new();
    let mut i: usize = 0;
    while i < terms.len()
        invariant
            i <= terms.len(),
            ts == terms@.map_values(|w: Vec<char>| w@),
            qs == ts.map_values(|t: Seq<char>| fts_term(t)),
            out@ == join(qs.take(i as int), seq![' ']),
        decreases terms.len() - i,
    {
        let ghost before = out@;
        if i > 0 {
            out.push(' ');
        }
        let ghost mid = out@;
        out.push('"');
        push_doubling_quotes(&mut out, &terms[i]);
        out.push('"');
        out.push('*');
        assert(out@ =~= mid + fts_term(ts[i as int]));
        assert(qs.take(i + 1).drop_last() =~= qs.take(i as int));
        assert(qs.take(i + 1).last() == fts_term(ts[i as int]));
        i = i + 1;
        assert(out@ =~= join(qs.take(i as int), seq![' ']));
    }
    assert(qs.take(terms.len() as int) =~= qs);
    string_from_chars(out.as_slice())
}

/// How a track query is run: the FTS5 match expression when the search text is not blank, and
/// the page bounds, at most `MAX_TRACK_PAGE` tracks.
#[derive(Debug)]
pub struct TrackListing {
    pub fts_match: Option<String>,
    pub limit: usize,
    pub offset: usize,
}

/// The listing that runs a track query.
pub fn plan_track_listing(query: &TrackQuery) -> (r: TrackListing)
    ensures
        r.limit == if query.limit < MAX_TRACK_PAGE {
            query.limit
        } else {
            MAX_TRACK_PAGE
        },
        r.offset == query.offset,
        match query.search {
            Some(s) => if trim_ws(s@).len() > 0 {
                r.fts_match matches Some(m) && m@ == fts_query_spec(s@)
            } else {
                r.fts_match is None
            },
            None => r.fts_match is None,
        },
{
    let limit = if query.limit < MAX_TRACK_PAGE {
        query.limit
    } else {
        MAX_TRACK_PAGE
    };
    let fts_match = match &query.search {
        Some(s) => {
            let trimmed = trim_class(&chars_of(s.as_str()), CharClass::Whitespace);
            if trimmed.len() > 0 {
                Some(fts_query(s.as_str()))
            } else {
                None
            }
        },
        None => None,
    };
    TrackListing { fts_match, limit, offset: query.offset }
}

/// The number of jobs that a listing of `limit` jobs returns at most.
pub fn job_list_limit(limit: usize) -> (r: usize)
    ensures
        r == if limit < MAX_JOB_PAGE {
            limit
        } else {
            MAX_JOB_PAGE
        },
{
    if limit < MAX_JOB_PAGE {
        limit
    } else {
        MAX_JOB_PAGE
    }
}

} // verus!
