//! Decisions of the SQL fallback search, used while the search index is not ready.

use vstd::prelude::*;

use crate::entity_type::SearchEntityType;
use crate::filter::ParsedFilters;
use crate::text::{chars_of, push_char};

verus! {

/// A character of a `LIKE` pattern, with the wildcards and the escape character escaped.
pub open spec fn like_escape_char(c: char) -> Seq<char> {
    if c == '\\' {
        seq!['\\', '\\']
    } else if c == '%' {
        seq!['\\', '%']
    } else if c == '_' {
        seq!['\\', '_']
    } else {
        seq![c]
    }
}

/// `s` made literal for a `LIKE` match: `\`, `%` and `_` each preceded by `\`.
pub open spec fn like_escape(s: Seq<char>) -> Seq<char>
    decreases s.len(),
{
    if s.len() == 0 {
        seq![]
    } else {
        like_escape(s.drop_last()) + like_escape_char(s.last())
    }
}

/// Escapes SQL wildcards so that the query text is matched literally.
pub fn like_pattern(query: &str) -> (r: String)
    ensures
        r@ == like_escape(query@),
{
    let v = chars_of(query);
    let mut r = String::new();
    let mut i: usize = 0;
    while i < v.len()
        invariant
            i <= v.len(),
            v@ == query@,
            r@ == like_escape(v@.take(i as int)),
        decreases v.len() - i,
    {
        let c = v[i];
        if c == '\\' || c == '%' || c == '_' {
            push_char(&mut r, '\\');
        }
        push_char(&mut r, c);
        proof {
            assert(v@.take(i + 1).drop_last() =~= v@.take(i as int));
            assert(r@ =~= like_escape(v@.take(i as int)) + like_escape_char(c));
        }
        i = i + 1;
    }
    assert(v@.take(v.len() as int) =~= v@);
    r
}

/// Whether entity type `t` is requested: all are when none is named.
pub open spec fn wanted(entity_types: Seq<SearchEntityType>, t: SearchEntityType) -> bool {
    entity_types.len() == 0 || entity_types.contains(t)
}

pub fn wants(entity_types: &[SearchEntityType], t: SearchEntityType) -> (r: bool)
    ensures
        r == wanted(entity_types@, t),
{
    if entity_types.len() == 0 {
        return true;
    }
    let mut i: usize = 0;
    while i < entity_types.len()
        invariant
            i <= entity_types.len(),
            forall|j: int| 0 <= j < i ==> entity_types@[j] != t,
        decreases entity_types.len() - i,
    {
        if entity_types[i] == t {
            return true;
        }
        i = i + 1;
    }
    false
}

/// Whether records are the one requested entity type, so that the record page is the answer.
pub fn record_only(entity_types: &[SearchEntityType]) -> (r: bool)
    ensures
        r == (entity_types@.len() == 1 && entity_types@[0] == SearchEntityType::Record),
{
    entity_types.len() == 1 && entity_types[0] == SearchEntityType::Record
}

/// Whether a filter that only records carry (director, studio, label, genre, dates) is set.
pub fn has_record_filters(filters: &ParsedFilters) -> (r: bool)
    ensures
        r == (filters.director is Some || filters.studio is Some || filters.label is Some
            || filters.genre is Some || filters.date_from is Some || filters.date_to is Some),
{
    filters.director.is_some() || filters.studio.is_some() || filters.label.is_some()
        || filters.genre.is_some() || filters.date_from.is_some() || filters.date_to.is_some()
}

/// Whether a named (non-record) entity type is requested.
pub fn needs_entity_counts(entity_types: &[SearchEntityType]) -> (r: bool)
    ensures
        r == (wanted(entity_types@, SearchEntityType::Director) || wanted(
            entity_types@,
            SearchEntityType::Studio,
        ) || wanted(entity_types@, SearchEntityType::Label) || wanted(
            entity_types@,
            SearchEntityType::Series,
        ) || wanted(entity_types@, SearchEntityType::Genre) || wanted(
            entity_types@,
            SearchEntityType::Idol,
        )),
{
    wants(entity_types, SearchEntityType::Director) || wants(entity_types, SearchEntityType::Studio)
        || wants(entity_types, SearchEntityType::Label) || wants(
        entity_types,
        SearchEntityType::Series,
    ) || wants(entity_types, SearchEntityType::Genre) || wants(entity_types, SearchEntityType::Idol)
}

/// Room left on the page after `taken` results: `limit - taken`, or 0.
pub fn remaining(limit: i64, taken: usize) -> (r: usize)
    requires
        0 <= limit <= usize::MAX,
    ensures
        r == (if taken <= limit {
            limit - taken
        } else {
            0
        }),
{
    let l = limit as usize;
    if taken <= l {
        l - taken
    } else {
        0
    }
}

/// What the fallback does once the records are in, before the named entities.
#[derive(Clone, Copy, Debug, PartialEq, Eq, Structural)]
pub enum NamedEntityStep {
    /// Answer with the results and total so far.
    Finish,
    /// The page is full: add the named entities' counts to the total, then answer.
    CountOnly,
    /// Search the named entities and fill the rest of the page.
    Search,
}

pub open spec fn named_entity_step_of(
    remaining: nat,
    needs_entity_counts: bool,
    has_record_filters: bool,
) -> NamedEntityStep {
    if remaining == 0 && !needs_entity_counts {
        NamedEntityStep::Finish
    } else if remaining == 0 && !has_record_filters {
        NamedEntityStep::CountOnly
    } else if has_record_filters {
        NamedEntityStep::Finish
    } else {
        NamedEntityStep::Search
    }
}

/// Named entities are skipped when record-only filters are set, since their
/// documents carry no such fields.
pub fn named_entity_step(remaining: usize, needs_entity_counts: bool, has_record_filters: bool) -> (r:
    NamedEntityStep)
    ensures
        r == named_entity_step_of(remaining as nat, needs_entity_counts, has_record_filters),
{
    if remaining == 0 && !needs_entity_counts {
        NamedEntityStep::Finish
    } else if remaining == 0 && !has_record_filters {
        NamedEntityStep::CountOnly
    } else if has_record_filters {
        NamedEntityStep::Finish
    } else {
        NamedEntityStep::Search
    }
}

/// Where the page of named entities starts in their merged list: `None` when the
/// page lies before them (the offset is covered by records).
pub open spec fn entity_start(results_empty: bool, record_total: i64, offset: i64) -> Option<int> {
    if results_empty && record_total == 0 {
        Some(offset as int)
    } else if offset - record_total < 0 {
        None
    } else {
        Some(offset - record_total)
    }
}

/// The page of named entities: the merged list from the start the offset gives,
/// at most `remaining` of them.
pub open spec fn entity_page_of<T>(
    entities: Seq<T>,
    results_empty: bool,
    record_total: i64,
    offset: i64,
    remaining: nat,
) -> Seq<T> {
    match entity_start(results_empty, record_total, offset) {
        Some(s) => if s < entities.len() {
            entities.subrange(s, entities.len() as int).take(
                if remaining < entities.len() - s {
                    remaining as int
                } else {
                    entities.len() - s
                },
            )
        } else {
            Seq::<T>::empty()
        },
        None => Seq::<T>::empty(),
    }
}

/// The named entities that fill the rest of the page: the merged list from the
/// start the offset gives, at most `remaining` of them.
pub fn named_entity_page<T>(
    entities: Vec<T>,
    results_empty: bool,
    record_total: i64,
    offset: i64,
    remaining: usize,
) -> (r: Vec<T>)
    requires
        offset >= 0,
        record_total >= 0,
    ensures
        r@ == entity_page_of(entities@, results_empty, record_total, offset, remaining as nat),
{
    let mut entities = entities;
    let start: i64 = if results_empty && record_total == 0 {
        offset
    } else {
        offset - record_total
    };
    if start < 0 || start as u64 >= entities.len() as u64 {
        return Vec::new();
    }
    let ghost whole = entities@;
    let mut page = entities.split_off(start as usize);
    let ghost tail = page@;
    page.truncate(remaining);
    proof {
        if remaining >= tail.len() {
            assert(tail.take(tail.len() as int) =~= tail);
        } else {
            assert(page@ =~= tail.take(remaining as int));
        }
    }
    page
}

/// How a record-only filter naming a director, studio, label or genre applies.
pub enum NamedFilter {
    /// The filter is not set.
    Unset,
    /// Records are restricted to these ids of the named entity.
    Restrict(Vec<i64>),
    /// No entity has the name: the search answers nothing.
    NoMatch,
}

/// The effect of a name filter, given the ids of the entities with that exact name.
pub fn named_filter(filter: &Option<String>, matched: Vec<i64>) -> (r: NamedFilter)
    ensures
        filter is None ==> r is Unset,
        filter is Some && matched@.len() == 0 ==> r is NoMatch,
        filter is Some && matched@.len() > 0 ==> (r matches NamedFilter::Restrict(ids) && ids@
            == matched@),
{
    match filter {
        None => NamedFilter::Unset,
        Some(_) => if matched.len() == 0 {
            NamedFilter::NoMatch
        } else {
            NamedFilter::Restrict(matched)
        },
    }
}

/// The answer of the fallback search: the total and the page of results.
pub struct FallbackAnswer<T> {
    pub total: i64,
    pub results: Vec<T>,
}

/// The answer when a name filter matches no entity: total 0 and no results.
pub fn no_match_answer<T>() -> (r: FallbackAnswer<T>)
    ensures
        r.total == 0,
        r.results@.len() == 0,
{
    FallbackAnswer { total: 0, results: Vec::new() }
}

/// The final answer: the page of records followed by the page of named entities,
/// with the record total plus the named entities' counts.
pub fn fallback_answer<T>(
    records: Vec<T>,
    entities: Vec<T>,
    record_total: i64,
    entity_total: i64,
    offset: i64,
    remaining: usize,
) -> (r: FallbackAnswer<T>)
    requires
        offset >= 0,
        record_total >= 0,
        entity_total >= 0,
        record_total + entity_total <= i64::MAX,
    ensures
        r.total == record_total + entity_total,
        r.results@ == records@ + entity_page_of(
            entities@,
            records@.len() == 0,
            record_total,
            offset,
            remaining as nat,
        ),
{
    let mut results = records;
    let empty = results.len() == 0;
    let mut page = named_entity_page(entities, empty, record_total, offset, remaining);
    results.append(&mut page);
    FallbackAnswer { total: record_total + entity_total, results }
}

} // verus!
