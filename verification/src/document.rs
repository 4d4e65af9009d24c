//! Documents of the unified search index.

use vstd::prelude::*;

use crate::entity_type::SearchEntityType;
use crate::text::push_str;

verus! {

/// A document of the unified index `luna_search`, without its embedding.
/// Record documents carry the name fields and permission; named entities use
/// permission 0.
#[derive(Clone, Debug)]
pub struct SearchDocument {
    /// Unique document ID: "{entity_type}__{entity_id}" (e.g. "record__abc123").
    pub doc_id: String,
    /// Display title of the document.
    pub title: String,
    pub entity_type: SearchEntityType,
    /// Entity ID in the database.
    pub entity_id: String,
    /// Monotonically increasing version for staleness detection.
    pub entity_version: i64,
    /// Permission level: records use their own, named entities 0 (always visible).
    pub permission: i32,
    pub date: Option<String>,
    pub duration: Option<i32>,
    pub director_name: Option<String>,
    pub studio_name: Option<String>,
    pub label_name: Option<String>,
    pub series_name: Option<String>,
    pub genre_names: Option<Vec<String>>,
    pub idol_names: Option<Vec<String>>,
}

/// The document id of an entity: its type, two underscores, its id.
pub open spec fn document_id_text(entity_type: Seq<char>, entity_id: Seq<char>) -> Seq<char> {
    entity_type + "__"@ + entity_id
}

pub fn document_id(entity_type: &str, entity_id: &str) -> (r: String)
    ensures
        r@ == document_id_text(entity_type@, entity_id@),
{
    let mut r = String::new();
    push_str(&mut r, entity_type);
    push_str(&mut r, "__");
    push_str(&mut r, entity_id);
    r
}

/// Whether a document has the given shape of a named entity's document.
pub open spec fn is_named_document(
    d: SearchDocument,
    entity_type: SearchEntityType,
    kind_name: Seq<char>,
    entity_id: Seq<char>,
    entity_version: i64,
    title: Seq<char>,
) -> bool {
    &&& d.doc_id@ == document_id_text(kind_name, entity_id)
    &&& d.title@ == title
    &&& d.entity_type == entity_type
    &&& d.entity_id@ == entity_id
    &&& d.entity_version == entity_version
    &&& d.permission == 0
    &&& d.date is None
    &&& d.duration is None
    &&& d.director_name is None
    &&& d.studio_name is None
    &&& d.label_name is None
    &&& d.series_name is None
    &&& d.genre_names is None
    &&& d.idol_names is None
}

} // verus!
