//! Reconciliation of the ids in the database with the ids in the search index,
//! and the bounded batches in which documents are (re)built.

use vstd::prelude::*;

use crate::document::{document_id, document_id_text};
use crate::entity_type::{entity_type_name, SearchEntityType};
use crate::sorted::{holds, sorted_difference, string_views, strictly_sorted};
use crate::text::{int_text, push_str, push_uint};

verus! {

/// Documents are built, embedded and written in batches of this many.
pub const SYNC_BATCH_SIZE: usize = 100;

/// What differs between the ids of the database and of the index.
pub struct IdDifferences {
    /// Ids in the database without a document, sorted.
    pub missing: Vec<String>,
    /// Ids with a document but no longer in the database, sorted.
    pub ghosts: Vec<String>,
}

/// The ids to index and the documents to remove so that the index holds exactly
/// the database's ids.
pub fn id_differences(database_ids: &[String], index_ids: &[String]) -> (r: IdDifferences)
    ensures
        strictly_sorted(string_views(r.missing@)),
        strictly_sorted(string_views(r.ghosts@)),
        forall|y: Seq<char>| holds(r.missing@, y) <==> (holds(database_ids@, y) && !holds(index_ids@, y)),
        forall|y: Seq<char>| holds(r.ghosts@, y) <==> (holds(index_ids@, y) && !holds(database_ids@, y)),
{
    IdDifferences {
        missing: sorted_difference(database_ids, index_ids),
        ghosts: sorted_difference(index_ids, database_ids),
    }
}

/// The batches `[start, end)` of `len` items, `size` at a time, in order.
pub open spec fn chunk_of(len: nat, size: nat, k: int) -> (int, int) {
    let start = k * size;
    let end = if start + size <= len {
        start + size
    } else {
        len as int
    };
    (start, end)
}

pub open spec fn chunk_count(len: nat, size: nat) -> nat {
    if len == 0 {
        0
    } else {
        ((len - 1) / (size as int) + 1) as nat
    }
}

/// The bounds of the batches of `len` items (the `chunks` of a slice).
pub fn chunk_bounds(len: usize, size: usize) -> (r: Vec<(usize, usize)>)
    requires
        size > 0,
    ensures
        forall|k: int|
            0 <= k < r@.len() ==> (#[trigger] r@[k]).0 as int == chunk_of(len as nat, size as nat, k).0
                && r@[k].1 as int == chunk_of(len as nat, size as nat, k).1,
        r@.len() > 0 ==> r@[r@.len() - 1].1 == len,
        r@.len() == 0 <==> len == 0,
        forall|k: int| 0 <= k < r@.len() ==> (#[trigger] r@[k]).0 < r@[k].1 <= len,
{
    let mut r: Vec<(usize, usize)> = Vec::new();
    let mut start: usize = 0;
    assert(r@.len() * size == 0) by (nonlinear_arith)
        requires
            r@.len() == 0,
    ;
    while start < len
        invariant
            size > 0,
            start <= len,
            start < len ==> start as int == r@.len() * size,
            r@.len() == 0 ==> start == 0,
            forall|k: int|
                0 <= k < r@.len() ==> (#[trigger] r@[k]).0 as int == chunk_of(len as nat, size as nat, k).0
                    && r@[k].1 as int == chunk_of(len as nat, size as nat, k).1,
            r@.len() > 0 ==> r@[r@.len() - 1].1 == start,
            forall|k: int| 0 <= k < r@.len() ==> (#[trigger] r@[k]).0 < r@[k].1 <= len,
        decreases len - start,
    {
        let end = if len - start >= size {
            start + size
        } else {
            len
        };
        proof {
            let k = r@.len() as int;
            assert(chunk_of(len as nat, size as nat, k).0 == k * size);
            assert((k + 1) * size == k * size + size) by (nonlinear_arith);
        }
        r.push((start, end));
        start = end;
    }
    r
}

/// The refusal of a repair batch whose documents could not all be built.
pub open spec fn missing_documents_message(entity_type: SearchEntityType, requested: nat, found: nat) -> Seq<char> {
    "Could not construct all missing "@ + entity_type_name(entity_type) + " documents: requested="@
        + int_text(requested as int) + ", found="@ + int_text(found as int)
}

/// Accepts a repair batch only when every requested document was built.
pub fn check_missing_documents(entity_type: SearchEntityType, requested: usize, found: usize) -> (r:
    Result<(), String>)
    ensures
        requested == found <==> r is Ok,
        r matches Err(m) ==> m@ == missing_documents_message(entity_type, requested as nat, found as nat),
{
    if requested == found {
        return Ok(());
    }
    let mut m = String::new();
    push_str(&mut m, "Could not construct all missing ");
    push_str(&mut m, entity_type.as_str());
    push_str(&mut m, " documents: requested=");
    push_uint(&mut m, requested as u64);
    push_str(&mut m, ", found=");
    push_uint(&mut m, found as u64);
    Err(m)
}

/// The document ids of some entities of one type.
pub fn document_ids(entity_type: SearchEntityType, entity_ids: &[String]) -> (r: Vec<String>)
    ensures
        r@.len() == entity_ids@.len(),
        forall|i: int|
            0 <= i < r@.len() ==> (#[trigger] r@[i])@ == document_id_text(
                entity_type_name(entity_type),
                entity_ids@[i]@,
            ),
{
    let mut r: Vec<String> = Vec::new();
    let mut i: usize = 0;
    while i < entity_ids.len()
        invariant
            i <= entity_ids.len(),
            r@.len() == i,
            forall|k: int|
                0 <= k < i ==> (#[trigger] r@[k])@ == document_id_text(
                    entity_type_name(entity_type),
                    entity_ids@[k]@,
                ),
        decreases entity_ids.len() - i,
    {
        r.push(document_id(entity_type.as_str(), entity_ids[i].as_str()));
        i = i + 1;
    }
    r
}

} // verus!
