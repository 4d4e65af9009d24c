use luna::entity_type::SearchEntityType;
use luna::fallback::{
    fallback_answer, named_filter, no_match_answer, NamedFilter,
    has_record_filters, like_pattern, named_entity_page, named_entity_step, needs_entity_counts,
    record_only, remaining, wants, NamedEntityStep,
};
use luna::filter::ParsedFilters;
use luna::search::{parse_entity_types, plan_search, SearchError, SearchQuery};
use luna::window::{fused_total, keyword_request, page_window, search_mode, search_total};
use std::str::FromStr;

#[test]
fn test_search_entity_type_roundtrip() {
    let types = ["record", "idol", "director", "genre", "label", "studio", "series"];
    for t in types {
        let et = SearchEntityType::from_str(t).expect("known entity type should parse");
        assert_eq!(et.as_str(), t);
    }
}

#[test]
fn test_search_entity_type_unknown_returns_none() {
    assert!(SearchEntityType::from_str("unknown").is_err());
    assert!(SearchEntityType::from_str("").is_err());
}

#[test]
fn unknown_entity_type_error_names_the_input() {
    assert_eq!(
        SearchEntityType::from_str("movie").unwrap_err(),
        "unknown entity type: movie"
    );
    assert_eq!(SearchEntityType::parse_name("Record"), None);
}

#[test]
fn test_hybrid_total_vector_only_results() {
    assert_eq!(search_total(true, 0, 20), 20);
}

#[test]
fn test_hybrid_total_keyword_dominates() {
    assert_eq!(search_total(true, 50, 20), 50);
}

#[test]
fn test_hybrid_total_no_results() {
    assert_eq!(search_total(false, 0, 0), 0);
}

#[test]
fn test_hybrid_total_vector_exceeds_keyword() {
    assert_eq!(search_total(true, 5, 100), 100);
}

#[test]
fn keyword_total_stands_without_vector_hits() {
    assert_eq!(search_total(false, 5, 100), 5);
}

#[test]
fn fused_total_takes_largest_count() {
    assert_eq!(fused_total(30, 12, 25), 30);
    assert_eq!(fused_total(10, 12, 25), 25);
    assert_eq!(fused_total(10, 40, 25), 40);
}

#[test]
fn hybrid_mode_overfetches_from_start() {
    assert_eq!(keyword_request(true, 20, 40), (180, 0));
    assert_eq!(keyword_request(false, 20, 40), (20, 40));
    assert_eq!(search_mode(true), "hybrid");
    assert_eq!(search_mode(false), "keyword_only");
}

#[test]
fn page_window_cuts_requested_page() {
    let items: Vec<u32> = (0..10).collect();
    assert_eq!(page_window(items.clone(), 3, 4), vec![3, 4, 5, 6]);
    assert_eq!(page_window(items.clone(), 8, 5), vec![8, 9]);
    assert_eq!(page_window(items.clone(), 10, 5), Vec::<u32>::new());
    assert_eq!(page_window(items, 0, 0), Vec::<u32>::new());
}

#[test]
fn test_sql_fallback_wants_all_logic() {
    let entity_types: Vec<SearchEntityType> = vec![];
    assert!(entity_types.is_empty());
    assert!(wants(&entity_types, SearchEntityType::Record));

    let entity_types: Vec<SearchEntityType> = vec![SearchEntityType::Record];
    assert!(!entity_types.is_empty());
    assert!(wants(&entity_types, SearchEntityType::Record));
    assert!(record_only(&entity_types));
}

#[test]
fn test_sql_fallback_entity_type_filter() {
    let entity_types: Vec<SearchEntityType> = vec![];
    assert!(wants(&entity_types, SearchEntityType::Director));
    assert!(wants(&entity_types, SearchEntityType::Studio));
    assert!(wants(&entity_types, SearchEntityType::Label));
    assert!(wants(&entity_types, SearchEntityType::Series));
    assert!(wants(&entity_types, SearchEntityType::Genre));
    assert!(wants(&entity_types, SearchEntityType::Idol));
    assert!(wants(&entity_types, SearchEntityType::Record));

    let entity_types = vec![SearchEntityType::Director, SearchEntityType::Idol];
    assert!(wants(&entity_types, SearchEntityType::Director));
    assert!(wants(&entity_types, SearchEntityType::Idol));
    assert!(!wants(&entity_types, SearchEntityType::Record));
    assert!(!wants(&entity_types, SearchEntityType::Studio));
}

#[test]
fn like_pattern_escapes_wildcards() {
    assert_eq!(like_pattern("100%_a\\b"), "100\\%\\_a\\\\b");
    assert_eq!(like_pattern("plain"), "plain");
}

#[test]
fn record_only_needs_exactly_record() {
    assert!(!record_only(&[]));
    assert!(!record_only(&[SearchEntityType::Record, SearchEntityType::Idol]));
    assert!(!record_only(&[SearchEntityType::Idol]));
}

fn no_filters() -> ParsedFilters {
    ParsedFilters {
        director: None,
        studio: None,
        label: None,
        genre: None,
        date_from: None,
        date_to: None,
    }
}

#[test]
fn record_filters_detected() {
    assert!(!has_record_filters(&no_filters()));
    let mut f = no_filters();
    f.date_to = Some("2024-12-31".to_owned());
    assert!(has_record_filters(&f));
}

#[test]
fn named_entity_decisions() {
    assert!(!needs_entity_counts(&[SearchEntityType::Record]));
    assert!(needs_entity_counts(&[SearchEntityType::Record, SearchEntityType::Genre]));
    assert_eq!(remaining(20, 5), 15);
    assert_eq!(remaining(20, 25), 0);
    assert_eq!(named_entity_step(0, false, false), NamedEntityStep::Finish);
    assert_eq!(named_entity_step(0, true, false), NamedEntityStep::CountOnly);
    assert_eq!(named_entity_step(0, true, true), NamedEntityStep::Finish);
    assert_eq!(named_entity_step(3, true, true), NamedEntityStep::Finish);
    assert_eq!(named_entity_step(3, true, false), NamedEntityStep::Search);
}

#[test]
fn named_entity_page_follows_offset() {
    let entities: Vec<u32> = (0..10).collect();
    // No records at all: the offset applies to the entities.
    assert_eq!(named_entity_page(entities.clone(), true, 0, 4, 3), vec![4, 5, 6]);
    // Offset past the records: the rest of it applies to the entities.
    assert_eq!(named_entity_page(entities.clone(), true, 5, 7, 3), vec![2, 3, 4]);
    // Offset inside the records: the page holds no entities.
    assert_eq!(named_entity_page(entities.clone(), false, 5, 2, 3), Vec::<u32>::new());
    // Offset beyond every entity.
    assert_eq!(named_entity_page(entities, true, 0, 12, 3), Vec::<u32>::new());
}

fn query(q: &str) -> SearchQuery {
    SearchQuery {
        q: q.to_owned(),
        entity_types: None,
        director: None,
        studio: None,
        label: None,
        genre: None,
        date_from: None,
        date_to: None,
        limit: None,
        offset: None,
    }
}

#[test]
fn blank_query_is_refused() {
    let err = plan_search(&query("   "), 3).err().expect("blank query is refused");
    assert_eq!(err, SearchError::QueryRequired);
    assert_eq!(err.message(), "Query string is required");
}

#[test]
fn plan_clamps_limit_and_offset() {
    let mut q = query("alice");
    q.limit = Some(0);
    q.offset = Some(-5);
    q.entity_types = Some("record, idol,bogus".to_owned());
    let plan = plan_search(&q, 9).ok().expect("query accepted");
    assert_eq!(plan.limit, 1);
    assert_eq!(plan.offset, 0);
    assert_eq!(plan.entity_types, vec![SearchEntityType::Record, SearchEntityType::Idol]);
    assert_eq!(plan.filter, "permission <= 9");

    let plan = plan_search(&query("x"), 0).ok().expect("query accepted");
    assert_eq!(plan.limit, 20);
    assert_eq!(plan.offset, 0);
    assert!(plan.entity_types.is_empty());
}

#[test]
fn entity_type_list_skips_unknown_names() {
    assert_eq!(
        parse_entity_types(" studio ,,series,Idol"),
        vec![SearchEntityType::Studio, SearchEntityType::Series]
    );
    assert!(parse_entity_types("").is_empty());
}

#[test]
fn name_filter_without_match_answers_nothing() {
    let name = Some("Nobody".to_owned());
    assert!(matches!(named_filter(&name, vec![]), NamedFilter::NoMatch));
    assert!(matches!(named_filter(&None, vec![3]), NamedFilter::Unset));
    match named_filter(&name, vec![3, 7]) {
        NamedFilter::Restrict(ids) => assert_eq!(ids, vec![3, 7]),
        _ => panic!("expected a restriction"),
    }
    let answer = no_match_answer::<u32>();
    assert_eq!(answer.total, 0);
    assert!(answer.results.is_empty());
}

#[test]
fn fallback_answer_joins_records_and_entities() {
    let answer = fallback_answer(vec![1u32, 2], vec![10, 11, 12], 2, 3, 0, 1);
    assert_eq!(answer.total, 5);
    assert_eq!(answer.results, vec![1, 2]);
    let answer = fallback_answer(vec![], vec![10, 11, 12], 2, 3, 3, 5);
    assert_eq!(answer.total, 5);
    assert_eq!(answer.results, vec![11, 12]);
    let answer = fallback_answer(Vec::<u32>::new(), vec![10, 11, 12], 0, 3, 1, 5);
    assert_eq!(answer.results, vec![11, 12]);
}
