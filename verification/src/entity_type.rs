//! Entity kinds held in the unified search index.

use vstd::prelude::*;

use crate::text::{push_str, str_eq};

verus! {

/// Entity types in the search index.
#[derive(Clone, Copy, Debug, PartialEq, Eq, Hash, Structural)]
pub enum SearchEntityType {
    Record,
    Idol,
    Director,
    Genre,
    Label,
    Studio,
    Series,
}

/// Event types for outbox sync events.
#[derive(Clone, Copy, Debug, PartialEq, Eq, Structural)]
pub enum SyncEventType {
    Upsert,
    Delete,
}

/// The lowercase name under which an entity type is stored and filtered.
pub open spec fn entity_type_name(t: SearchEntityType) -> Seq<char> {
    match t {
        SearchEntityType::Record => "record"@,
        SearchEntityType::Idol => "idol"@,
        SearchEntityType::Director => "director"@,
        SearchEntityType::Genre => "genre"@,
        SearchEntityType::Label => "label"@,
        SearchEntityType::Studio => "studio"@,
        SearchEntityType::Series => "series"@,
    }
}

/// The entity type whose name is `s`, if any.
pub open spec fn entity_type_named(s: Seq<char>) -> Option<SearchEntityType> {
    if s == "record"@ {
        Some(SearchEntityType::Record)
    } else if s == "idol"@ {
        Some(SearchEntityType::Idol)
    } else if s == "director"@ {
        Some(SearchEntityType::Director)
    } else if s == "genre"@ {
        Some(SearchEntityType::Genre)
    } else if s == "label"@ {
        Some(SearchEntityType::Label)
    } else if s == "studio"@ {
        Some(SearchEntityType::Studio)
    } else if s == "series"@ {
        Some(SearchEntityType::Series)
    } else {
        None
    }
}

/// Every entity type, in indexing order.
pub open spec fn all_entity_types() -> Seq<SearchEntityType> {
    seq![
        SearchEntityType::Record,
        SearchEntityType::Idol,
        SearchEntityType::Director,
        SearchEntityType::Genre,
        SearchEntityType::Label,
        SearchEntityType::Studio,
        SearchEntityType::Series,
    ]
}

/// The error text for a name that is no entity type.
pub open spec fn unknown_entity_type_message(s: Seq<char>) -> Seq<char> {
    "unknown entity type: "@ + s
}

impl SearchEntityType {
    /// All entity type variants, used for iteration.
    pub fn all() -> (r: Vec<SearchEntityType>)
        ensures
            r@ == all_entity_types(),
    {
        let mut r = Vec::new();
        r.push(SearchEntityType::Record);
        r.push(SearchEntityType::Idol);
        r.push(SearchEntityType::Director);
        r.push(SearchEntityType::Genre);
        r.push(SearchEntityType::Label);
        r.push(SearchEntityType::Studio);
        r.push(SearchEntityType::Series);
        assert(r@ =~= all_entity_types());
        r
    }

    pub fn parse_name(s: &str) -> (r: Option<SearchEntityType>)
        ensures
            r == entity_type_named(s@),
    {
        if str_eq(s, "record") {
            Some(SearchEntityType::Record)
        } else if str_eq(s, "idol") {
            Some(SearchEntityType::Idol)
        } else if str_eq(s, "director") {
            Some(SearchEntityType::Director)
        } else if str_eq(s, "genre") {
            Some(SearchEntityType::Genre)
        } else if str_eq(s, "label") {
            Some(SearchEntityType::Label)
        } else if str_eq(s, "studio") {
            Some(SearchEntityType::Studio)
        } else if str_eq(s, "series") {
            Some(SearchEntityType::Series)
        } else {
            None
        }
    }

    /// Parses a name; the error names the text that is no entity type.
    pub fn parse(s: &str) -> (r: Result<SearchEntityType, String>)
        ensures
            entity_type_named(s@) matches Some(t) ==> r == Ok::<SearchEntityType, String>(t),
            entity_type_named(s@) is None ==> (r matches Err(e) && e@ == unknown_entity_type_message(s@)),
    {
        match Self::parse_name(s) {
            Some(t) => Ok(t),
            None => {
                let mut e = String::new();
                push_str(&mut e, "unknown entity type: ");
                push_str(&mut e, s);
                Err(e)
            },
        }
    }

    pub fn as_str(&self) -> (s: &'static str)
        ensures
            s@ == entity_type_name(*self),
    {
        match self {
            SearchEntityType::Record => "record",
            SearchEntityType::Idol => "idol",
            SearchEntityType::Director => "director",
            SearchEntityType::Genre => "genre",
            SearchEntityType::Label => "label",
            SearchEntityType::Studio => "studio",
            SearchEntityType::Series => "series",
        }
    }
}

impl std::str::FromStr for SearchEntityType {
    type Err = String;

    fn from_str(s: &str) -> Result<SearchEntityType, String> {
        SearchEntityType::parse(s)
    }
}

/// Every entity type's name parses back to that entity type.
pub proof fn lemma_entity_type_name_roundtrip(t: SearchEntityType)
    ensures
        entity_type_named(entity_type_name(t)) == Some(t),
{
    reveal_strlit("record");
    reveal_strlit("idol");
    reveal_strlit("director");
    reveal_strlit("genre");
    reveal_strlit("label");
    reveal_strlit("studio");
    reveal_strlit("series");
    assert("record"@[0] == 'r' && "idol"@[0] == 'i' && "director"@[0] == 'd' && "genre"@[0]
        == 'g' && "label"@[0] == 'l' && "studio"@[0] == 's' && "series"@[0] == 's');
    assert("studio"@[1] == 't' && "series"@[1] == 'e');
}

/// Distinct entity types have distinct names.
pub proof fn lemma_entity_type_name_injective(a: SearchEntityType, b: SearchEntityType)
    requires
        entity_type_name(a) == entity_type_name(b),
    ensures
        a == b,
{
    lemma_entity_type_name_roundtrip(a);
    lemma_entity_type_name_roundtrip(b);
}

} // verus!
