//! Search request planning: validation, filter construction, result windows.

use vstd::prelude::*;

use crate::entity_type::{entity_type_named, SearchEntityType};
use crate::filter::{escape_filter_value, escape_text, join_strings, join_texts, opt_text, texts};
use crate::text::{chars_of, int_text, push_int, push_str, string_of_range, trim, trim_bounds};

verus! {

/// Default maximum number of search results when no `limit` is specified.
pub const DEFAULT_SEARCH_LIMIT: i64 = 20;

/// Reciprocal rank fusion smoothing constant `k`.
pub const RRF_K: i64 = 60;

/// Query parameters for the search endpoint.
pub struct SearchQuery {
    /// Search query string (required, must not be empty)
    pub q: String,
    /// Comma-separated entity types to filter by (e.g., "record,idol")
    pub entity_types: Option<String>,
    /// Filter by director name
    pub director: Option<String>,
    /// Filter by studio name
    pub studio: Option<String>,
    /// Filter by label name
    pub label: Option<String>,
    /// Filter by genre name
    pub genre: Option<String>,
    /// Filter by date range start (inclusive)
    pub date_from: Option<String>,
    /// Filter by date range end (inclusive)
    pub date_to: Option<String>,
    /// Maximum number of results to return (default 20)
    pub limit: Option<i64>,
    /// Number of results to skip (default 0)
    pub offset: Option<i64>,
}

/// Raw search parameters, as read from the query string of the search endpoint.
pub struct SearchParams {
    /// Search query string (required).
    pub q: String,
    /// Comma-separated entity types to filter by (e.g., "record,idol").
    pub entity_types: Option<String>,
    /// Filter by director name.
    pub director: Option<String>,
    /// Filter by studio name.
    pub studio: Option<String>,
    /// Filter by label name.
    pub label: Option<String>,
    /// Filter by genre name.
    pub genre: Option<String>,
    /// Filter by date range start (inclusive).
    pub date_from: Option<String>,
    /// Filter by date range end (inclusive).
    pub date_to: Option<String>,
    /// Maximum number of results to return (default 20).
    pub limit: Option<i64>,
    /// Number of results to skip (default 0).
    pub offset: Option<i64>,
}

impl SearchParams {
    /// The search query these parameters ask for, field by field.
    pub fn into_query(self) -> (r: SearchQuery)
        ensures
            r.q == self.q,
            r.entity_types == self.entity_types,
            r.director == self.director,
            r.studio == self.studio,
            r.label == self.label,
            r.genre == self.genre,
            r.date_from == self.date_from,
            r.date_to == self.date_to,
            r.limit == self.limit,
            r.offset == self.offset,
    {
        SearchQuery {
            q: self.q,
            entity_types: self.entity_types,
            director: self.director,
            studio: self.studio,
            label: self.label,
            genre: self.genre,
            date_from: self.date_from,
            date_to: self.date_to,
            limit: self.limit,
            offset: self.offset,
        }
    }
}

/// Why a search request is refused.
#[derive(Clone, Copy, Debug, PartialEq, Eq, Structural)]
pub enum SearchError {
    /// The query string is empty or only whitespace.
    QueryRequired,
}

impl SearchError {
    /// The message sent back to the client.
    pub fn message(&self) -> (s: &'static str)
        ensures
            s@ == "Query string is required"@,
    {
        "Query string is required"
    }
}

/// A validated search request, ready to run against the index or the SQL fallback.
pub struct SearchPlan {
    /// Page size, at least 1.
    pub limit: i64,
    /// Number of results to skip, at least 0.
    pub offset: i64,
    /// Entity types to keep (empty keeps all).
    pub entity_types: Vec<SearchEntityType>,
    /// The filter string: permission bound and the requested field filters.
    pub filter: String,
}

/// Pieces of `s` between commas (`str::split(',')`), with `cur` the piece read so far.
pub open spec fn comma_pieces_rest(s: Seq<char>, cur: Seq<char>) -> Seq<Seq<char>>
    decreases s.len(),
{
    if s.len() == 0 {
        seq![cur]
    } else if s[0] == ',' {
        seq![cur] + comma_pieces_rest(s.drop_first(), seq![])
    } else {
        comma_pieces_rest(s.drop_first(), cur.push(s[0]))
    }
}

/// The known entity types among trimmed names, in order, unknown names skipped.
pub open spec fn known_entity_types(names: Seq<Seq<char>>) -> Seq<SearchEntityType>
    decreases names.len(),
{
    if names.len() == 0 {
        seq![]
    } else {
        let rest = known_entity_types(names.drop_last());
        match entity_type_named(trim(names.last())) {
            Some(t) => rest.push(t),
            None => rest,
        }
    }
}

/// Entity types named in a comma-separated list.
pub open spec fn entity_types_in(s: Seq<char>) -> Seq<SearchEntityType> {
    known_entity_types(comma_pieces_rest(s, seq![]))
}

/// The entity types that a request names (none when it names no list).
pub open spec fn requested_entity_types(s: Option<Seq<char>>) -> Seq<SearchEntityType> {
    match s {
        Some(t) => entity_types_in(t),
        None => seq![],
    }
}

fn push_known(out: &mut Vec<SearchEntityType>, v: &Vec<char>, start: usize, end: usize)
    requires
        start <= end <= v.len(),
    ensures
        final(out)@ == match entity_type_named(trim(v@.subrange(start as int, end as int))) {
            Some(t) => old(out)@.push(t),
            None => old(out)@,
        },
{
    let (a, b) = trim_bounds(v, start, end);
    let piece = string_of_range(v, a, b);
    if let Some(t) = SearchEntityType::parse_name(piece.as_str()) {
        out.push(t);
    }
}

/// Parse a comma-separated list of entity types, skipping unknown names.
pub fn parse_entity_types(s: &str) -> (r: Vec<SearchEntityType>)
    ensures
        r@ == entity_types_in(s@),
{
    let v = chars_of(s);
    let mut out: Vec<SearchEntityType> = Vec::new();
    let mut start: usize = 0;
    let mut i: usize = 0;
    let ghost pieces: Seq<Seq<char>> = seq![];
    assert(v@.skip(0) =~= v@);
    assert(v@.subrange(0, 0) =~= Seq::<char>::empty());
    while i < v.len()
        invariant
            v@ == s@,
            start <= i <= v.len(),
            comma_pieces_rest(s@, seq![]) == pieces + comma_pieces_rest(
                v@.skip(i as int),
                v@.subrange(start as int, i as int),
            ),
            out@ == known_entity_types(pieces),
        decreases v.len() - i,
    {
        let ghost t = v@.skip(i as int);
        let ghost cur = v@.subrange(start as int, i as int);
        assert(t.drop_first() =~= v@.skip(i + 1));
        if v[i] == ',' {
            push_known(&mut out, &v, start, i);
            proof {
                assert((pieces.push(cur)).drop_last() =~= pieces);
                assert(pieces + (seq![cur] + comma_pieces_rest(t.drop_first(), seq![]))
                    =~= pieces.push(cur) + comma_pieces_rest(t.drop_first(), seq![]));
                assert(v@.subrange(i + 1, i + 1) =~= Seq::<char>::empty());
                pieces = pieces.push(cur);
            }
            i = i + 1;
            start = i;
        } else {
            assert(cur.push(t[0]) =~= v@.subrange(start as int, i + 1));
            i = i + 1;
        }
    }
    push_known(&mut out, &v, start, i);
    proof {
        let cur = v@.subrange(start as int, i as int);
        assert(v@.skip(i as int).len() == 0);
        assert(pieces + seq![cur] =~= pieces.push(cur));
        assert(pieces.push(cur).drop_last() =~= pieces);
    }
    out
}

/// The filter clause for an optional field value: `<head><escaped value>"`.
pub open spec fn optional_clause(v: Option<Seq<char>>, head: Seq<char>) -> Seq<Seq<char>> {
    match v {
        Some(x) => seq![head + escape_text(x) + "\""@],
        None => seq![],
    }
}

/// The clauses of a search request's filter string, in order: the permission
/// bound, then director, studio, label, genre, date from, date to.
pub open spec fn search_filter_clauses(
    permission: int,
    director: Option<Seq<char>>,
    studio: Option<Seq<char>>,
    label: Option<Seq<char>>,
    genre: Option<Seq<char>>,
    date_from: Option<Seq<char>>,
    date_to: Option<Seq<char>>,
) -> Seq<Seq<char>> {
    seq!["permission <= "@ + int_text(permission)] + optional_clause(
        director,
        "director_name = \""@,
    ) + optional_clause(studio, "studio_name = \""@) + optional_clause(label, "label_name = \""@)
        + optional_clause(genre, "genre_names = \""@) + optional_clause(date_from, "date >= \""@)
        + optional_clause(date_to, "date <= \""@)
}

/// The filter string of a search request.
pub open spec fn search_filter(q: SearchQuery, permission: int) -> Seq<char> {
    join_texts(
        search_filter_clauses(
            permission,
            opt_text(q.director),
            opt_text(q.studio),
            opt_text(q.label),
            opt_text(q.genre),
            opt_text(q.date_from),
            opt_text(q.date_to),
        ),
        " AND "@,
    )
}

fn push_optional_clause(clauses: &mut Vec<String>, v: &Option<String>, head: &str)
    ensures
        texts(final(clauses)@) == texts(old(clauses)@) + optional_clause(opt_text(*v), head@),
{
    match v {
        Some(x) => {
            let mut c = String::new();
            push_str(&mut c, head);
            let e = escape_filter_value(x.as_str());
            push_str(&mut c, e.as_str());
            push_str(&mut c, "\"");
            let ghost before = clauses@;
            clauses.push(c);
            assert(texts(clauses@) =~= texts(before) + seq![c@]);
        },
        None => {
            assert(texts(clauses@) =~= texts(clauses@) + Seq::<Seq<char>>::empty());
        },
    }
}

/// The filter string for a request: permission bound and escaped field filters.
pub fn search_filter_string(query: &SearchQuery, user_permission: i32) -> (r: String)
    ensures
        r@ == search_filter(*query, user_permission as int),
{
    let mut clauses: Vec<String> = Vec::new();
    let mut perm = String::new();
    push_str(&mut perm, "permission <= ");
    push_int(&mut perm, user_permission as i64);
    clauses.push(perm);
    assert(texts(clauses@) =~= seq!["permission <= "@ + int_text(user_permission as int)]);
    push_optional_clause(&mut clauses, &query.director, "director_name = \"");
    push_optional_clause(&mut clauses, &query.studio, "studio_name = \"");
    push_optional_clause(&mut clauses, &query.label, "label_name = \"");
    push_optional_clause(&mut clauses, &query.genre, "genre_names = \"");
    push_optional_clause(&mut clauses, &query.date_from, "date >= \"");
    push_optional_clause(&mut clauses, &query.date_to, "date <= \"");
    join_strings(&clauses, " AND ")
}

/// The page size of a request: `limit` (default 20), at least 1.
pub open spec fn effective_limit(limit: Option<i64>) -> i64 {
    let l = match limit {
        Some(l) => l,
        None => DEFAULT_SEARCH_LIMIT,
    };
    if l < 1 {
        1
    } else {
        l
    }
}

/// The offset of a request: `offset` (default 0), at least 0.
pub open spec fn effective_offset(offset: Option<i64>) -> i64 {
    let o = match offset {
        Some(o) => o,
        None => 0,
    };
    if o < 0 {
        0
    } else {
        o
    }
}

/// Validate a search request and build its filter.  Refused exactly when the
/// query string is blank.
pub fn plan_search(query: &SearchQuery, user_permission: i32) -> (r: Result<SearchPlan, SearchError>)
    ensures
        trim(query.q@).len() == 0 <==> r is Err,
        r matches Err(e) ==> e == SearchError::QueryRequired,
        r matches Ok(p) ==> {
            &&& p.limit == effective_limit(query.limit)
            &&& p.offset == effective_offset(query.offset)
            &&& p.entity_types@ == requested_entity_types(opt_text(query.entity_types))
            &&& p.filter@ == search_filter(*query, user_permission as int)
        },
{
    let limit = match query.limit {
        Some(l) => if l < 1 { 1 } else { l },
        None => DEFAULT_SEARCH_LIMIT,
    };
    let offset = match query.offset {
        Some(o) => if o < 0 { 0 } else { o },
        None => 0,
    };
    let qv = chars_of(query.q.as_str());
    let (a, b) = trim_bounds(&qv, 0, qv.len());
    assert(qv@.subrange(0, qv@.len() as int) =~= qv@);
    if a == b {
        return Err(SearchError::QueryRequired);
    }
    let entity_types = match &query.entity_types {
        Some(s) => parse_entity_types(s.as_str()),
        None => Vec::new(),
    };
    let filter = search_filter_string(query, user_permission);
    Ok(SearchPlan { limit, offset, entity_types, filter })
}

} // verus!
