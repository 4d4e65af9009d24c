//! Offset pagination of catalogue listings and the `next` / `previous` links.

use vstd::prelude::*;

use crate::text::{int_text, push_str, push_uint};

verus! {

/// Page size used when a request names none (or a non-positive one).
pub const DEFAULT_PAGE_SIZE: u64 = 20;

/// Pagination parameters of a listing request.
#[derive(Clone, Copy, Debug)]
pub struct PaginationQuery {
    pub limit: Option<i64>,
    pub offset: Option<i64>,
}

/// Restricts a record listing to the records a user liked and/or viewed.
#[derive(Clone, Debug)]
pub struct UserFilter {
    pub user_id: String,
    pub liked_only: bool,
    pub viewed_only: bool,
}

/// One page of a listing, with links to its neighbours.
pub struct PaginatedResponse<T> {
    pub count: i64,
    pub next: Option<String>,
    pub previous: Option<String>,
    pub results: Vec<T>,
}

/// The query string of a page link: limit, offset, then the active filters.
pub open spec fn page_link_text(
    limit: u64,
    offset: u64,
    liked: Option<Seq<char>>,
    viewed: Option<Seq<char>>,
) -> Seq<char> {
    "?limit="@ + int_text(limit as int) + "&offset="@ + int_text(offset as int) + (match liked {
        Some(v) => "&liked_only="@ + v,
        None => seq![],
    }) + (match viewed {
        Some(v) => "&viewed_only="@ + v,
        None => seq![],
    })
}

/// The view of an optional text.
pub open spec fn opt_str(v: Option<&str>) -> Option<Seq<char>> {
    match v {
        Some(s) => Some(s@),
        None => None,
    }
}

/// Builds a pagination link string, appending the active filter parameters.
pub fn build_page_link(
    limit: u64,
    offset: u64,
    liked_param: Option<&str>,
    viewed_param: Option<&str>,
) -> (r: String)
    ensures
        r@ == page_link_text(limit, offset, opt_str(liked_param), opt_str(viewed_param)),
{
    let mut r = String::new();
    push_str(&mut r, "?limit=");
    push_uint(&mut r, limit);
    push_str(&mut r, "&offset=");
    push_uint(&mut r, offset);
    let ghost base = r@;
    if let Some(v) = liked_param {
        push_str(&mut r, "&liked_only=");
        push_str(&mut r, v);
    }
    let ghost with_liked = r@;
    if let Some(v) = viewed_param {
        push_str(&mut r, "&viewed_only=");
        push_str(&mut r, v);
    }
    proof {
        let l = match opt_str(liked_param) {
            Some(v) => "&liked_only="@ + v,
            None => seq![],
        };
        let w = match opt_str(viewed_param) {
            Some(v) => "&viewed_only="@ + v,
            None => seq![],
        };
        assert(with_liked =~= base + l);
        assert(r@ =~= base + l + w);
    }
    r
}

/// The page size a request asks for: its limit when positive, else the default.
pub open spec fn page_size_of(limit: Option<i64>) -> u64 {
    match limit {
        Some(l) if l > 0 => l as u64,
        _ => DEFAULT_PAGE_SIZE,
    }
}

/// Extracts `(page_size, current_offset)` from a pagination query; a negative
/// offset counts as 0.
pub fn resolve_pagination(pagination: &PaginationQuery) -> (r: (u64, u64))
    ensures
        r.0 == page_size_of(pagination.limit),
        r.0 > 0,
        r.1 == match pagination.offset {
            Some(o) if o > 0 => o as u64,
            _ => 0u64,
        },
{
    let page_size: u64 = match pagination.limit {
        Some(l) if l > 0 => l as u64,
        _ => DEFAULT_PAGE_SIZE,
    };
    let current_offset: u64 = match pagination.offset {
        Some(o) if o > 0 => o as u64,
        _ => 0,
    };
    (page_size, current_offset)
}

/// The offset of the previous page: one page back, but not before the start.
pub open spec fn previous_offset(current_offset: u64, page_size: u64) -> u64 {
    if current_offset >= page_size {
        (current_offset - page_size) as u64
    } else {
        0
    }
}

/// Builds a page of results: a `next` link while items remain after this page,
/// a `previous` link unless this page starts at 0.
pub fn build_paginated_response<T>(
    results: Vec<T>,
    total_items: u64,
    page_size: u64,
    current_offset: u64,
    liked_param: Option<&str>,
    viewed_param: Option<&str>,
) -> (r: PaginatedResponse<T>)
    requires
        current_offset + page_size <= u64::MAX,
    ensures
        r.count == total_items as i64,
        r.results@ == results@,
        (current_offset + page_size < total_items) <==> r.next is Some,
        r.next matches Some(n) ==> n@ == page_link_text(
            page_size,
            (current_offset + page_size) as u64,
            opt_str(liked_param),
            opt_str(viewed_param),
        ),
        (current_offset > 0) <==> r.previous is Some,
        r.previous matches Some(p) ==> p@ == page_link_text(
            page_size,
            previous_offset(current_offset, page_size),
            opt_str(liked_param),
            opt_str(viewed_param),
        ),
{
    let next_offset = current_offset + page_size;
    let next = if next_offset < total_items {
        Some(build_page_link(page_size, next_offset, liked_param, viewed_param))
    } else {
        None
    };
    let previous = if current_offset > 0 {
        let back = if current_offset >= page_size {
            current_offset - page_size
        } else {
            0
        };
        Some(build_page_link(page_size, back, liked_param, viewed_param))
    } else {
        None
    };
    PaginatedResponse { count: total_items as i64, next, previous, results }
}

/// The link parameters of a user filter: `"true"` for each active flag.
pub fn filter_params(user_filter: &Option<UserFilter>) -> (r: (Option<&'static str>, Option<&'static str>))
    ensures
        opt_str(r.0) == (match user_filter {
            Some(f) if f.liked_only => Some("true"@),
            _ => None,
        }),
        opt_str(r.1) == (match user_filter {
            Some(f) if f.viewed_only => Some("true"@),
            _ => None,
        }),
{
    match user_filter {
        Some(f) => (
            if f.liked_only {
                Some("true")
            } else {
                None
            },
            if f.viewed_only {
                Some("true")
            } else {
                None
            },
        ),
        None => (None, None),
    }
}

/// Whether a listing is restricted by the user's interactions at all.
pub fn user_filter_applies(user_filter: &Option<UserFilter>) -> (r: bool)
    ensures
        r == (user_filter matches Some(f) && (f.liked_only || f.viewed_only)),
{
    match user_filter {
        Some(f) => f.liked_only || f.viewed_only,
        None => false,
    }
}

/// Page-number pagination: the page that holds `offset` (clamped at 0), and the
/// offset where that page starts.
pub open spec fn page_number_of(offset: Option<i64>, page_size: u64) -> int {
    match offset {
        Some(o) if o > 0 => (o as int) / (page_size as int),
        _ => 0,
    }
}

pub fn page_number(offset: Option<i64>, page_size: u64) -> (r: u64)
    requires
        page_size > 0,
    ensures
        r as int == page_number_of(offset, page_size),
{
    match offset {
        Some(o) if o > 0 => (o as u64) / page_size,
        _ => 0,
    }
}

/// The number of pages that `total_items` items fill.
pub open spec fn page_count_of(total_items: int, page_size: int) -> int {
    if total_items <= 0 {
        0
    } else {
        (total_items + page_size - 1) / page_size
    }
}

pub fn page_count(total_items: u64, page_size: u64) -> (r: u64)
    requires
        page_size > 0,
    ensures
        r as int == page_count_of(total_items as int, page_size as int),
{
    if total_items == 0 {
        0
    } else {
        proof {
            vstd::arithmetic::div_mod::lemma_div_plus_one(total_items - 1, page_size as int);
            assert(page_size + (total_items - 1) == total_items + page_size - 1);
        }
        (total_items - 1) / page_size + 1
    }
}

/// The links of page `page_num` out of `total_pages`: to the next page while
/// one follows, to the previous page unless this is the first.
pub fn page_number_links(page_num: u64, page_size: u64, total_pages: u64) -> (r: (
    Option<String>,
    Option<String>,
))
    requires
        (page_num + 1) * page_size <= u64::MAX,
    ensures
        (page_num + 1 < total_pages) <==> r.0 is Some,
        r.0 matches Some(n) ==> n@ == page_link_text(
            page_size,
            ((page_num + 1) * page_size) as u64,
            None,
            None,
        ),
        (page_num > 0) <==> r.1 is Some,
        r.1 matches Some(p) ==> p@ == page_link_text(
            page_size,
            ((page_num - 1) * page_size) as u64,
            None,
            None,
        ),
{
    let next = if page_num < total_pages && page_num + 1 < total_pages {
        assert((page_num + 1) * page_size <= u64::MAX);
        Some(build_page_link(page_size, (page_num + 1) * page_size, None, None))
    } else {
        None
    };
    let previous = if page_num > 0 {
        assert((page_num - 1) * page_size <= (page_num + 1) * page_size) by (nonlinear_arith)
            requires
                page_num > 0,
        ;
        Some(build_page_link(page_size, (page_num - 1) * page_size, None, None))
    } else {
        None
    };
    (next, previous)
}

} // verus!
