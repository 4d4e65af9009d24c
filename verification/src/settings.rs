//! Settings of the search index: which attributes are searchable and filterable,
//! the embedder, and what to change when the stored settings drift.

use vstd::prelude::*;

use crate::text::{int_text, push_str, str_eq};

verus! {

/// Dimensions of the BGE-M3 embeddings.
pub const BGE_M3_EMBEDDING_DIMENSIONS: u64 = 1024;

/// Attributes searched by text, in ranking order.
pub open spec fn searchable_attribute_names() -> Seq<Seq<char>> {
    seq![
        "title"@,
        "entity_id"@,
        "director_name"@,
        "studio_name"@,
        "label_name"@,
        "series_name"@,
        "genre_names"@,
        "idol_names"@,
    ]
}

/// Attributes that filters may name.
pub open spec fn filterable_attribute_names() -> Seq<Seq<char>> {
    seq![
        "entity_type"@,
        "entity_id"@,
        "permission"@,
        "date"@,
        "director_name"@,
        "studio_name"@,
        "label_name"@,
        "series_name"@,
        "genre_names"@,
        "idol_names"@,
    ]
}

/// Whether the views of `names` are `expected`.
pub open spec fn names_are(names: Seq<&str>, expected: Seq<Seq<char>>) -> bool {
    names.len() == expected.len() && forall|i: int| 0 <= i < names.len() ==> (#[trigger] names[i])@
        == expected[i]
}

pub fn desired_searchable_attributes() -> (r: [&'static str; 8])
    ensures
        names_are(r@, searchable_attribute_names()),
{
    let r = [
        "title",
        "entity_id",
        "director_name",
        "studio_name",
        "label_name",
        "series_name",
        "genre_names",
        "idol_names",
    ];
    assert(names_are(r@, searchable_attribute_names()));
    r
}

pub fn desired_filterable_attributes() -> (r: [&'static str; 10])
    ensures
        names_are(r@, filterable_attribute_names()),
{
    let r = [
        "entity_type",
        "entity_id",
        "permission",
        "date",
        "director_name",
        "studio_name",
        "label_name",
        "series_name",
        "genre_names",
        "idol_names",
    ];
    assert(names_are(r@, filterable_attribute_names()));
    r
}

/// The stored settings of the default embedder, as far as they are read.
pub struct EmbedderSettings {
    /// `source`, when it is a string.
    pub source: Option<String>,
    /// `dimensions`, when it is an unsigned integer.
    pub dimensions: Option<u64>,
}

/// The stored settings of the index, as far as they are read.
pub struct IndexSettings {
    /// `searchableAttributes`, when it is an array; each item when it is a string.
    pub searchable_attributes: Option<Vec<Option<String>>>,
    /// `filterableAttributes`, when it is an array; each item when it is a string.
    pub filterable_attributes: Option<Vec<Option<String>>>,
    /// `embedders.default`, when present.
    pub embedder: Option<EmbedderSettings>,
}

/// Which settings to write.
#[derive(Clone, Copy, Debug, PartialEq, Eq, Structural)]
pub struct SettingsUpdatePlan {
    pub update_searchable_attributes: bool,
    pub update_filterable_attributes: bool,
    pub update_embedder: bool,
}

/// Whether a stored array holds exactly the expected strings, in order.
pub open spec fn array_matches(value: Option<Vec<Option<String>>>, expected: Seq<Seq<char>>) -> bool {
    match value {
        Some(items) => items@.len() == expected.len() && forall|i: int|
            0 <= i < items@.len() ==> (#[trigger] items@[i] matches Some(s) && s@ == expected[i]),
        None => false,
    }
}

/// Whether the stored embedder is the user-provided one with the BGE-M3 dimensions.
pub open spec fn embedder_matches(e: Option<EmbedderSettings>) -> bool {
    match e {
        Some(s) => (s.source matches Some(src) && src@ == "userProvided"@) && s.dimensions == Some(
            BGE_M3_EMBEDDING_DIMENSIONS,
        ),
        None => false,
    }
}

pub fn string_array_matches(value: &Option<Vec<Option<String>>>, expected: &[&str]) -> (r: bool)
    ensures
        r == array_matches(*value, expected@.map_values(|s: &str| s@)),
{
    let items = match value {
        Some(items) => items,
        None => return false,
    };
    let ghost ex = expected@.map_values(|s: &str| s@);
    if items.len() != expected.len() {
        return false;
    }
    let mut i: usize = 0;
    while i < items.len()
        invariant
            i <= items.len(),
            items.len() == expected.len(),
            ex == expected@.map_values(|s: &str| s@),
            *value == Some(*items),
            forall|j: int| 0 <= j < i ==> (#[trigger] items@[j] matches Some(s) && s@ == ex[j]),
        decreases items.len() - i,
    {
        match &items[i] {
            Some(s) => {
                if !str_eq(s.as_str(), expected[i]) {
                    return false;
                }
            },
            None => {
                return false;
            },
        }
        i = i + 1;
    }
    true
}

pub fn embedder_settings_match(embedder: &Option<EmbedderSettings>) -> (r: bool)
    ensures
        r == embedder_matches(*embedder),
{
    match embedder {
        Some(s) => {
            let source_ok = match &s.source {
                Some(src) => str_eq(src.as_str(), "userProvided"),
                None => false,
            };
            source_ok && s.dimensions == Some(BGE_M3_EMBEDDING_DIMENSIONS)
        },
        None => false,
    }
}

/// What to update so that the stored settings become the desired ones.
pub fn settings_update_plan(settings: &IndexSettings) -> (r: SettingsUpdatePlan)
    ensures
        r.update_searchable_attributes == !array_matches(
            settings.searchable_attributes,
            searchable_attribute_names(),
        ),
        r.update_filterable_attributes == !array_matches(
            settings.filterable_attributes,
            filterable_attribute_names(),
        ),
        r.update_embedder == !embedder_matches(settings.embedder),
{
    let searchable = desired_searchable_attributes();
    let filterable = desired_filterable_attributes();
    proof {
        assert(searchable@.map_values(|s: &str| s@) =~= searchable_attribute_names());
        assert(filterable@.map_values(|s: &str| s@) =~= filterable_attribute_names());
    }
    SettingsUpdatePlan {
        update_searchable_attributes: !string_array_matches(
            &settings.searchable_attributes,
            searchable.as_slice(),
        ),
        update_filterable_attributes: !string_array_matches(
            &settings.filterable_attributes,
            filterable.as_slice(),
        ),
        update_embedder: !embedder_settings_match(&settings.embedder),
    }
}

/// Whether semantic search is set up.
#[derive(Clone, Copy, Debug, PartialEq, Eq, Structural)]
pub enum EmbedderSetupMode {
    HybridReady,
    KeywordOnly,
}

/// The message logged when semantic search is given up.
pub open spec fn keyword_only_text(reason: Seq<char>) -> Seq<char> {
    "Semantic search unavailable; continuing with Meili keyword-only search: "@ + reason
}

pub fn keyword_only_embedder_message(reason: &str) -> (r: String)
    ensures
        r@ == keyword_only_text(reason@),
{
    let mut r = String::new();
    push_str(&mut r, "Semantic search unavailable; continuing with Meili keyword-only search: ");
    push_str(&mut r, reason);
    r
}

/// The reason given when the embedder task fails.
pub fn embedder_task_failure_reason(error: &str) -> (r: String)
    ensures
        r@ == "embedder setup task failed: "@ + error@,
{
    let mut r = String::new();
    push_str(&mut r, "embedder setup task failed: ");
    push_str(&mut r, error);
    r
}

/// The reason given when existing documents cannot be prepared for the embedder.
pub fn normalization_failure_reason(error: &str) -> (r: String)
    ensures
        r@ == "document normalization for userProvided embedder failed: "@ + error@,
{
    let mut r = String::new();
    push_str(&mut r, "document normalization for userProvided embedder failed: ");
    push_str(&mut r, error);
    r
}

/// A failed embedder task leaves the index keyword-only.
pub fn handle_embedder_task_failure(error: &str) -> (r: EmbedderSetupMode)
    ensures
        r == EmbedderSetupMode::KeywordOnly,
{
    EmbedderSetupMode::KeywordOnly
}

/// A refused embedder settings update leaves the index keyword-only.
pub fn handle_embedder_patch_failure(status: u16, body: &str) -> (r: EmbedderSetupMode)
    ensures
        r == EmbedderSetupMode::KeywordOnly,
{
    EmbedderSetupMode::KeywordOnly
}

/// The reason phrase that `http` gives status `code` (or its text for an unknown code).
pub uninterp spec fn status_reason_text(code: u16) -> Seq<char>;

/// `Display` of `reqwest::StatusCode::from_u16(code)`. The contract claims what
/// the `http` crate writes: the decimal code, a space, then a phrase that depends
/// on the code alone (`status_reason_text`). `from_u16` accepts 100..=999 only.
#[verifier::external_body]
fn status_code_text(code: u16) -> (r: String)
    requires
        100 <= code <= 999,
    ensures
        r@ == int_text(code as int) + " "@ + status_reason_text(code),
{
    match reqwest::StatusCode::from_u16(code) {
        Ok(status) => status.to_string(),
        Err(_) => String::new(),
    }
}

/// The text of a refused embedder settings update.
pub fn format_embedder_patch_error(status: u16, body: &str) -> (r: String)
    requires
        100 <= status <= 999,
    ensures
        r@ == "Failed to set MeiliSearch embedder config ("@ + int_text(status as int) + " "@
            + status_reason_text(status) + "): "@ + body@,
{
    let mut r = String::new();
    push_str(&mut r, "Failed to set MeiliSearch embedder config (");
    let s = status_code_text(status);
    push_str(&mut r, s.as_str());
    push_str(&mut r, "): ");
    push_str(&mut r, body);
    proof {
        assert(r@ =~= "Failed to set MeiliSearch embedder config ("@ + int_text(status as int) + " "@
            + status_reason_text(status) + "): "@ + body@);
    }
    r
}

} // verus!
