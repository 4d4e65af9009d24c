//! Result windows of index searches: how much each branch fetches, which mode
//! answered, the reported total, and the page cut from the fetched results.

use vstd::prelude::*;

verus! {

/// In hybrid mode both branches fetch from offset 0 a window three times the
/// end of the requested page, so that fusion sees symmetric ranks.
pub open spec fn hybrid_fetch_limit_of(offset: int, limit: int) -> int {
    (offset + limit) * 3
}

/// The keyword request: `(limit, offset)` to ask the index for.
pub open spec fn keyword_request_of(embedding_available: bool, limit: int, offset: int) -> (int, int) {
    if embedding_available {
        (hybrid_fetch_limit_of(offset, limit), 0)
    } else {
        (limit, offset)
    }
}

pub fn keyword_request(embedding_available: bool, limit: i64, offset: i64) -> (r: (i64, i64))
    requires
        limit >= 0,
        offset >= 0,
        hybrid_fetch_limit_of(offset as int, limit as int) <= i64::MAX,
    ensures
        (r.0 as int, r.1 as int) == keyword_request_of(embedding_available, limit as int, offset as int),
{
    if embedding_available {
        ((offset + limit) * 3, 0)
    } else {
        (limit, offset)
    }
}

/// The mode reported to the client: "hybrid" when vector hits came back.
pub open spec fn search_mode_of(has_vector_results: bool) -> Seq<char> {
    if has_vector_results {
        "hybrid"@
    } else {
        "keyword_only"@
    }
}

pub fn search_mode(has_vector_results: bool) -> (r: &'static str)
    ensures
        r@ == search_mode_of(has_vector_results),
{
    if has_vector_results {
        "hybrid"
    } else {
        "keyword_only"
    }
}

/// The total reported by the branches: with vector hits, the larger of the two
/// estimates; without, the keyword total.
pub open spec fn search_total_of(has_vector_results: bool, keyword_total: i64, vector_total: i64) -> i64 {
    if has_vector_results && vector_total > keyword_total {
        vector_total
    } else {
        keyword_total
    }
}

pub fn search_total(has_vector_results: bool, keyword_total: i64, vector_total: i64) -> (r: i64)
    ensures
        r == search_total_of(has_vector_results, keyword_total, vector_total),
{
    if has_vector_results && vector_total > keyword_total {
        vector_total
    } else {
        keyword_total
    }
}

/// The total of a fused result: the larger of the fused count and the branch totals.
pub fn fused_total(fused_len: usize, keyword_total: i64, vector_total: i64) -> (r: i64)
    requires
        fused_len <= i64::MAX,
    ensures
        r == (if fused_len as int >= search_total_of(true, keyword_total, vector_total) {
            fused_len as i64
        } else {
            search_total_of(true, keyword_total, vector_total)
        }),
{
    let branches = search_total(true, keyword_total, vector_total);
    let fused = fused_len as i64;
    if fused >= branches {
        fused
    } else {
        branches
    }
}

/// The items of page `[offset, offset + limit)` of `items`.
pub open spec fn page_of<T>(items: Seq<T>, offset: int, limit: int) -> Seq<T> {
    if offset >= items.len() {
        Seq::<T>::empty()
    } else if limit < items.len() - offset {
        items.subrange(offset, offset + limit)
    } else {
        items.subrange(offset, items.len() as int)
    }
}

/// Skips `offset` items and keeps at most `limit` of the rest.
pub fn page_window<T>(items: Vec<T>, offset: i64, limit: i64) -> (r: Vec<T>)
    requires
        offset >= 0,
        limit >= 0,
    ensures
        r@ == page_of(items@, offset as int, limit as int),
{
    let mut items = items;
    if offset as u64 >= items.len() as u64 {
        return Vec::new();
    }
    let ghost whole = items@;
    let mut page = items.split_off(offset as usize);
    if (limit as u64) < page.len() as u64 {
        page.truncate(limit as usize);
        proof {
            assert(page@ =~= whole.subrange(offset as int, offset + limit));
        }
    }
    page
}

} // verus!
