use luna::entity_type::SearchEntityType;
use luna::filter::{
    build_filter_string, escape_filter_value, extract_filter_value, find_closing_quote,
    parse_filters, split_filter_clauses,
};
use luna::search::{search_filter_string, SearchQuery};

#[test]
fn test_parse_filters_empty() {
    let f = parse_filters("");
    assert!(f.director.is_none());
    assert!(f.studio.is_none());
    assert!(f.label.is_none());
    assert!(f.genre.is_none());
    assert!(f.date_from.is_none());
    assert!(f.date_to.is_none());
}

#[test]
fn test_parse_filters_single_field() {
    let f = parse_filters("director_name = \"John\"");
    assert_eq!(f.director.as_deref(), Some("John"));
    assert!(f.studio.is_none());
}

#[test]
fn test_parse_filters_all_fields() {
    let f = parse_filters(
        "permission <= 10 AND director_name = \"Alice\" AND studio_name = \"Studio X\" \
         AND label_name = \"Label Y\" AND genre_names = \"Drama\" \
         AND date >= \"2024-01-01\" AND date <= \"2024-12-31\"",
    );
    assert_eq!(f.director.as_deref(), Some("Alice"));
    assert_eq!(f.studio.as_deref(), Some("Studio X"));
    assert_eq!(f.label.as_deref(), Some("Label Y"));
    assert_eq!(f.genre.as_deref(), Some("Drama"));
    assert_eq!(f.date_from.as_deref(), Some("2024-01-01"));
    assert_eq!(f.date_to.as_deref(), Some("2024-12-31"));
}

#[test]
fn test_parse_filters_ignores_unknown() {
    let f = parse_filters("permission <= 5 AND unknown_field = \"val\"");
    assert!(f.director.is_none());
}

#[test]
fn test_split_filter_clauses_basic() {
    let parts = split_filter_clauses("a = 1 AND b = 2");
    assert_eq!(parts, vec!["a = 1", "b = 2"]);
}

#[test]
fn test_split_filter_clauses_with_quotes() {
    let parts =
        split_filter_clauses("studio_name = \"Rock AND Roll\" AND director_name = \"John\"");
    assert_eq!(
        parts,
        vec!["studio_name = \"Rock AND Roll\"", "director_name = \"John\""]
    );
}

#[test]
fn test_split_filter_clauses_single() {
    let parts = split_filter_clauses("permission <= 5");
    assert_eq!(parts, vec!["permission <= 5"]);
}

#[test]
fn test_split_filter_clauses_empty() {
    let parts: Vec<String> = split_filter_clauses("");
    assert!(parts.is_empty());
}

#[test]
fn test_extract_filter_value_basic() {
    assert_eq!(
        extract_filter_value("director_name = \"John\"", "director_name = "),
        Some("John".to_owned())
    );
    assert_eq!(
        extract_filter_value("date >= \"2024-01-01\"", "date >= \""),
        Some("2024-01-01".to_owned())
    );
}

#[test]
fn test_extract_filter_value_unescapes() {
    assert_eq!(
        extract_filter_value("director_name = \"John \\\"The Rock\\\"\"", "director_name = "),
        Some("John \"The Rock\"".to_owned())
    );
    assert_eq!(
        extract_filter_value("studio_name = \"C:\\\\Path\"", "studio_name = "),
        Some("C:\\Path".to_owned())
    );
}

#[test]
fn test_extract_filter_value_no_match() {
    assert_eq!(extract_filter_value("other = 5", "director_name = "), None);
}

#[test]
fn test_find_closing_quote_basic() {
    assert_eq!(find_closing_quote("John\""), 4);
    assert_eq!(find_closing_quote("John"), 4);
    assert_eq!(find_closing_quote(r#"John \"Rock\""#), 13);
}

#[test]
fn test_build_filter_empty() {
    let filter = build_filter_string(&[], "");
    assert!(filter.is_empty());
}

#[test]
fn test_build_filter_entity_types_only() {
    let filter = build_filter_string(&[SearchEntityType::Record, SearchEntityType::Idol], "");
    assert_eq!(filter, "(entity_type = \"record\" OR entity_type = \"idol\")");
}

#[test]
fn test_build_filter_additional_only() {
    let filter = build_filter_string(&[], "permission <= 5");
    assert_eq!(filter, "permission <= 5");
}

#[test]
fn test_build_filter_combined() {
    let filter = build_filter_string(&[SearchEntityType::Record], "permission <= 5");
    assert_eq!(filter, "(entity_type = \"record\") AND permission <= 5");
}

#[test]
fn test_build_filter_multiple_entity_types_and_filter() {
    let filter = build_filter_string(
        &[SearchEntityType::Record, SearchEntityType::Idol],
        "date >= \"2024-01-01\"",
    );
    assert_eq!(
        filter,
        "(entity_type = \"record\" OR entity_type = \"idol\") AND date >= \"2024-01-01\""
    );
}

#[test]
fn escape_doubles_backslashes_and_quotes() {
    assert_eq!(escape_filter_value("a\"b\\c"), "a\\\"b\\\\c");
    assert_eq!(escape_filter_value("plain"), "plain");
}

#[test]
fn escaped_value_reads_back_unchanged() {
    let value = "Rock \"AND\" Roll \\ back";
    let clause = format!("director_name = \"{}\"", escape_filter_value(value));
    assert_eq!(
        extract_filter_value(&clause, "director_name = "),
        Some(value.to_owned())
    );
}

#[test]
fn closing_quote_follows_escaped_value() {
    let escaped = escape_filter_value("x\"y\\");
    let text = format!("{}\" tail", escaped);
    assert_eq!(find_closing_quote(&text), escaped.len());
}

fn query(q: &str) -> SearchQuery {
    SearchQuery {
        q: q.to_owned(),
        entity_types: None,
        director: None,
        studio: None,
        label: None,
        genre: None,
        date_from: None,
        date_to: None,
        limit: None,
        offset: None,
    }
}

#[test]
fn search_filter_reads_back_through_parse_filters() {
    let mut q = query("anything");
    q.director = Some("Jo \"AND\" Ann".to_owned());
    q.studio = Some("S AND T".to_owned());
    q.genre = Some("back\\slash".to_owned());
    q.date_from = Some("2024-01-01".to_owned());
    let filter = search_filter_string(&q, 7);
    assert_eq!(
        filter,
        "permission <= 7 AND director_name = \"Jo \\\"AND\\\" Ann\" AND studio_name = \"S AND T\" \
         AND genre_names = \"back\\\\slash\" AND date >= \"2024-01-01\""
    );
    let f = parse_filters(&filter);
    assert_eq!(f.director.as_deref(), Some("Jo \"AND\" Ann"));
    assert_eq!(f.studio.as_deref(), Some("S AND T"));
    assert_eq!(f.label, None);
    assert_eq!(f.genre.as_deref(), Some("back\\slash"));
    assert_eq!(f.date_from.as_deref(), Some("2024-01-01"));
    assert_eq!(f.date_to, None);
}

#[test]
fn search_filter_without_fields_is_permission_only() {
    let filter = search_filter_string(&query("x"), -3);
    assert_eq!(filter, "permission <= -3");
    let f = parse_filters(&filter);
    assert!(f.director.is_none() && f.date_to.is_none());
}

#[test]
fn splitting_is_defined_unless_a_window_cuts_a_character() {
    use_is_splittable();
}

fn use_is_splittable() {
    assert!(luna::filter::is_splittable("a = 1 AND b = 2"));
    assert!(luna::filter::is_splittable("director_name = \"Jo Émile\""));
    assert!(!luna::filter::is_splittable("director_name = \"Émile\""));
    assert!(luna::filter::is_splittable(""));
    assert!(!luna::filter::is_splittable("Émile AND x"));
}

#[test]
fn built_search_filter_parses_back() {
    let query = SearchQuery {
        q: "x".to_owned(),
        entity_types: None,
        director: Some("Rock AND \"Roll\" \\ Émile".to_owned()),
        studio: None,
        label: Some("lab AND el".to_owned()),
        genre: Some("g\"".to_owned()),
        date_from: Some("2020-01-01".to_owned()),
        date_to: None,
        limit: None,
        offset: None,
    };
    let filter = search_filter_string(&query, -3);
    let f = parse_filters(&filter);
    assert_eq!(f.director, query.director);
    assert_eq!(f.studio, None);
    assert_eq!(f.label, query.label);
    assert_eq!(f.genre, query.genre);
    assert_eq!(f.date_from, query.date_from);
    assert_eq!(f.date_to, None);
}

#[test]
fn closing_quote_after_escaped_value_on_bytes() {
    let value = "É\"x\\";
    let escaped = escape_filter_value(value);
    let text = format!("{}\"rest \"", escaped);
    assert_eq!(find_closing_quote(&text), escaped.len());
    assert_eq!(find_closing_quote("ab"), 2);
    assert_eq!(find_closing_quote("a\\\"b\"c"), 4);
}
