//! The filter of the affinity-ordered studio listing, with numbered binds.

use vstd::prelude::*;

use crate::filter::join_texts;
use crate::text::{int_text, push_str, push_uint, trim, trim_str};

verus! {

/// The search fields of a named-entity listing.
pub struct NamedEntitySearch {
    pub id: Option<i64>,
    pub name: Option<String>,
    pub link: Option<String>,
}

/// A value bound to a placeholder of the statement.
#[derive(Clone, Debug, PartialEq, Eq)]
pub enum AffinityBind {
    Id(i64),
    Text(String),
}

/// Whether an optional text filter applies: it is present and not blank.
pub open spec fn text_filter_applies(v: Option<String>) -> bool {
    v matches Some(s) && trim(s@).len() > 0
}

/// The clauses of the filter with placeholders from `p`: id equality, then name
/// and link substring matches, each with the next placeholder number.
pub open spec fn affinity_clauses(s: NamedEntitySearch, p: nat) -> Seq<Seq<char>> {
    let id_part: Seq<Seq<char>> = if s.id is Some {
        seq!["t.id = $"@ + int_text(p as int)]
    } else {
        seq![]
    };
    let p1 = p + id_part.len();
    let name_part: Seq<Seq<char>> = if text_filter_applies(s.name) {
        seq!["t.name LIKE '%' || $"@ + int_text(p1 as int) + " || '%'"@]
    } else {
        seq![]
    };
    let p2 = p1 + name_part.len();
    let link_part: Seq<Seq<char>> = if text_filter_applies(s.link) {
        seq!["t.link LIKE '%' || $"@ + int_text(p2 as int) + " || '%'"@]
    } else {
        seq![]
    };
    id_part + name_part + link_part
}

/// The values bound to the clauses, in placeholder order.
pub open spec fn affinity_binds(s: NamedEntitySearch) -> Seq<AffinityBind> {
    (if s.id is Some {
        seq![AffinityBind::Id(s.id.unwrap())]
    } else {
        seq![]
    }) + (if text_filter_applies(s.name) {
        seq![AffinityBind::Text(s.name.unwrap())]
    } else {
        seq![]
    }) + (if text_filter_applies(s.link) {
        seq![AffinityBind::Text(s.link.unwrap())]
    } else {
        seq![]
    })
}

fn applies(v: &Option<String>) -> (r: bool)
    ensures
        r == text_filter_applies(*v),
{
    match v {
        Some(s) => !trim_str(s.as_str()).as_str().is_empty(),
        None => false,
    }
}

fn placeholder_clause(head: &str, p: u64, tail: &str) -> (r: String)
    ensures
        r@ == head@ + int_text(p as int) + tail@,
{
    let mut r = String::new();
    push_str(&mut r, head);
    push_uint(&mut r, p);
    push_str(&mut r, tail);
    r
}

/// The `WHERE` clause (empty when no filter applies) and its binds, placeholders
/// numbered from `next_param`.
pub fn build_affinity_filter(search: &NamedEntitySearch, next_param: u64) -> (r: (String, Vec<AffinityBind>))
    requires
        next_param + 3 <= u64::MAX,
    ensures
        affinity_clauses(*search, next_param as nat).len() == 0 ==> r.0@.len() == 0,
        affinity_clauses(*search, next_param as nat).len() > 0 ==> r.0@ == " WHERE "@ + join_texts(
            affinity_clauses(*search, next_param as nat),
            " AND "@,
        ),
        r.1@ == affinity_binds(*search),
{
    let mut clauses: Vec<String> = Vec::new();
    let mut binds: Vec<AffinityBind> = Vec::new();
    let mut p = next_param;
    if let Some(id) = search.id {
        clauses.push(placeholder_clause("t.id = $", p, ""));
        binds.push(AffinityBind::Id(id));
        p = p + 1;
    }
    let name_applies = applies(&search.name);
    if name_applies {
        clauses.push(placeholder_clause("t.name LIKE '%' || $", p, " || '%'"));
        binds.push(AffinityBind::Text(search.name.clone().unwrap()));
        p = p + 1;
    }
    if applies(&search.link) {
        clauses.push(placeholder_clause("t.link LIKE '%' || $", p, " || '%'"));
        binds.push(AffinityBind::Text(search.link.clone().unwrap()));
    }
    proof {
        reveal_strlit("");
        let cs = affinity_clauses(*search, next_param as nat);
        assert(crate::filter::texts(clauses@) =~= cs);
        assert(binds@ =~= affinity_binds(*search));
    }
    if clauses.len() == 0 {
        return (String::new(), binds);
    }
    let mut clause = String::new();
    push_str(&mut clause, " WHERE ");
    let joined = crate::filter::join_strings(&clauses, " AND ");
    push_str(&mut clause, joined.as_str());
    (clause, binds)
}

} // verus!
