//! A user's interactions with records: likes, views, and their status in bulk.

use vstd::prelude::*;

verus! {

/// Status of a user's interaction with a specific record.
#[derive(Clone, Copy, Debug, PartialEq, Eq, Structural)]
pub struct InteractionStatus {
    pub liked: bool,
    pub viewed: bool,
}

impl Default for InteractionStatus {
    fn default() -> (r: InteractionStatus)
        ensures
            r == (InteractionStatus { liked: false, viewed: false }),
    {
        InteractionStatus { liked: false, viewed: false }
    }
}

/// Response of the `toggle_like` endpoint.
#[derive(Clone, Copy, Debug, PartialEq, Eq, Structural)]
pub struct ToggleLikeResponse {
    pub liked: bool,
}

/// Response of the `mark_viewed` endpoint.
#[derive(Clone, Copy, Debug, PartialEq, Eq, Structural)]
pub struct MarkViewedResponse {
    pub viewed: bool,
}

/// Interaction status of a single record, as answered.
#[derive(Clone, Copy, Debug, PartialEq, Eq, Structural)]
pub struct InteractionStatusDto {
    pub liked: bool,
    pub viewed: bool,
}

/// Request of a batch interaction status query.
#[derive(Clone, Debug)]
pub struct BatchStatusRequestDto {
    pub record_ids: Vec<String>,
}

/// A stored interaction row: record id, liked, viewed.
pub struct InteractionRow {
    pub record_id: String,
    pub liked: bool,
    pub viewed: bool,
}

/// The status that `rows` give record `id`: the last row of that record, or
/// neither liked nor viewed.
pub open spec fn status_of(rows: Seq<InteractionRow>, id: Seq<char>) -> InteractionStatusDto
    decreases rows.len(),
{
    if rows.len() == 0 {
        InteractionStatusDto { liked: false, viewed: false }
    } else if rows.last().record_id@ == id {
        InteractionStatusDto { liked: rows.last().liked, viewed: rows.last().viewed }
    } else {
        status_of(rows.drop_last(), id)
    }
}

fn status_in(rows: &[InteractionRow], id: &String) -> (r: InteractionStatusDto)
    ensures
        r == status_of(rows@, id@),
{
    let mut k: usize = rows.len();
    assert(rows@.take(rows@.len() as int) =~= rows@);
    while k > 0
        invariant
            k <= rows.len(),
            status_of(rows@, id@) == status_of(rows@.take(k as int), id@),
        decreases k,
    {
        let row = &rows[k - 1];
        proof {
            assert(rows@.take(k as int).drop_last() =~= rows@.take(k - 1));
        }
        if row.record_id == *id {
            return InteractionStatusDto { liked: row.liked, viewed: row.viewed };
        }
        k = k - 1;
    }
    InteractionStatusDto { liked: false, viewed: false }
}

/// The texts of a sequence of ids.
pub open spec fn id_texts(ids: Seq<String>) -> Seq<Seq<char>> {
    ids.map_values(|s: String| s@)
}

/// The distinct ids of `s`, each at its first occurrence, in order.
pub open spec fn first_occurrences(s: Seq<Seq<char>>) -> Seq<Seq<char>>
    decreases s.len(),
{
    if s.len() == 0 {
        seq![]
    } else {
        let p = first_occurrences(s.drop_last());
        if p.contains(s.last()) {
            p
        } else {
            p.push(s.last())
        }
    }
}

fn holds_id(r: &Vec<(String, InteractionStatusDto)>, id: &String) -> (b: bool)
    ensures
        b <==> exists|j: int| 0 <= j < r@.len() && #[trigger] r@[j].0@ == id@,
{
    let mut k: usize = 0;
    while k < r.len()
        invariant
            k <= r.len(),
            forall|j: int| 0 <= j < k ==> #[trigger] r@[j].0@ != id@,
        decreases r.len() - k,
    {
        if r[k].0 == *id {
            return true;
        }
        k = k + 1;
    }
    false
}

/// The answer of a batch status query: each requested record once, in order of
/// first request, with its status; a record without a stored interaction is
/// neither liked nor viewed.
pub fn batch_statuses(record_ids: &[String], rows: &[InteractionRow]) -> (r: Vec<(String, InteractionStatusDto)>)
    ensures
        r@.len() == first_occurrences(id_texts(record_ids@)).len(),
        forall|i: int|
            0 <= i < r@.len() ==> #[trigger] r@[i].0@ == first_occurrences(id_texts(record_ids@))[i]
                && r@[i].1 == status_of(rows@, r@[i].0@),
        forall|i: int, j: int| 0 <= i < j < r@.len() ==> #[trigger] r@[i].0@ != #[trigger] r@[j].0@,
{
    let mut r: Vec<(String, InteractionStatusDto)> = Vec::new();
    let mut i: usize = 0;
    let ghost all = id_texts(record_ids@);
    assert(all.take(0).len() == 0);
    while i < record_ids.len()
        invariant
            i <= record_ids.len(),
            all == id_texts(record_ids@),
            r@.len() == first_occurrences(all.take(i as int)).len(),
            forall|j: int|
                0 <= j < r@.len() ==> #[trigger] r@[j].0@ == first_occurrences(all.take(i as int))[j]
                    && r@[j].1 == status_of(rows@, r@[j].0@),
            forall|a: int, b: int| 0 <= a < b < r@.len() ==> #[trigger] r@[a].0@ != #[trigger] r@[b].0@,
        decreases record_ids.len() - i,
    {
        let id = &record_ids[i];
        let ghost p = first_occurrences(all.take(i as int));
        proof {
            assert(all.take(i + 1).drop_last() =~= all.take(i as int));
            assert(all.take(i + 1).last() == id@);
        }
        let seen = holds_id(&r, id);
        if seen {
            proof {
                let j = choose|j: int| 0 <= j < r@.len() && #[trigger] r@[j].0@ == id@;
                assert(p[j] == id@);
                assert(p.contains(id@));
            }
        } else {
            proof {
                if p.contains(id@) {
                    let j = choose|j: int| 0 <= j < p.len() && p[j] == id@;
                    assert(r@[j].0@ == id@);
                }
            }
            let status = status_in(rows, id);
            let s = id.clone();
            r.push((s, status));
            assert(first_occurrences(all.take(i + 1)) == p.push(id@));
        }
        i = i + 1;
    }
    assert(all.take(record_ids.len() as int) =~= all);
    r
}

} // verus!
