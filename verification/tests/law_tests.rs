use luna::batch::{extend_with_group_ids, split_by_kind, split_stale};
use luna::embedding::EmbeddingClient;
use luna::links::links_to_create;
use luna::loader::{named_entity_document, parse_i64};
use luna::entity_type::SearchEntityType;
use luna::outbox::{deduplicate_upserts, DocumentVersion, OutboxEvent};
use luna::pagination::build_paginated_response;
use luna::reconcile::id_differences;
use luna::window::page_window;

fn event(id: i64, entity_id: &str, event_type: &str, version: i64) -> OutboxEvent {
    OutboxEvent {
        id,
        entity_type: "record".to_owned(),
        entity_id: entity_id.to_owned(),
        event_type: event_type.to_owned(),
        entity_version: version,
        payload_name: None,
    }
}

#[test]
fn every_upsert_is_acknowledged_once() {
    let events = vec![
        event(1, "A", "upsert", 5),
        event(2, "B", "upsert", 1),
        event(3, "A", "upsert", 7),
        event(4, "C", "upsert", 2),
        event(5, "B", "upsert", 0),
    ];
    let versions = vec![
        Some(DocumentVersion { entity_type: "record".to_owned(), entity_id: "A".to_owned(), last_version: 6, is_deleted: false }),
        None,
        None,
        Some(DocumentVersion { entity_type: "record".to_owned(), entity_id: "C".to_owned(), last_version: 1, is_deleted: true }),
        None,
    ];
    let (mut processed, fresh) = split_stale(&events, &versions);
    let groups = deduplicate_upserts(&fresh);
    extend_with_group_ids(&mut processed, &groups);
    processed.sort();
    assert_eq!(processed, vec![1, 2, 3, 4, 5]);
}

#[test]
fn kinds_partition_the_batch() {
    let events = vec![event(1, "A", "delete", 1), event(2, "B", "upsert", 1), event(3, "C", "other", 1)];
    let (upserts, others) = split_by_kind(&events);
    let mut ids: Vec<i64> = upserts.iter().chain(others.iter()).map(|e| e.id).collect();
    ids.sort();
    assert_eq!(ids, vec![1, 2, 3]);
}

fn strings(items: &[&str]) -> Vec<String> {
    items.iter().map(|s| (*s).to_owned()).collect()
}

#[test]
fn repair_leaves_index_equal_to_database() {
    let db = strings(&["1", "2", "3", "5"]);
    let index = strings(&["2", "3", "4", "6"]);
    let diff = id_differences(&db, &index);
    let mut repaired: Vec<String> = index
        .iter()
        .chain(diff.missing.iter())
        .filter(|id| !diff.ghosts.contains(id))
        .cloned()
        .collect();
    repaired.sort();
    repaired.dedup();
    assert_eq!(repaired, db);
}

#[test]
fn next_then_previous_returns_to_page() {
    let page = build_paginated_response(Vec::<u8>::new(), 100, 10, 30, None, None);
    assert_eq!(page.next.as_deref(), Some("?limit=10&offset=40"));
    let next = build_paginated_response(Vec::<u8>::new(), 100, 10, 40, None, None);
    assert_eq!(next.previous.as_deref(), Some("?limit=10&offset=30"));
}

#[test]
fn consecutive_pages_concatenate() {
    let items: Vec<u32> = (0..17).collect();
    let mut joined = page_window(items.clone(), 4, 5);
    joined.extend(page_window(items.clone(), 9, 6));
    assert_eq!(joined, page_window(items, 4, 11));
}

#[test]
fn decimal_ids_read_back() {
    for id in [0i64, 7, -12, i64::MAX, i64::MIN, 1_000_000] {
        let doc = named_entity_document(SearchEntityType::Idol, id, "x".to_owned(), 1);
        assert_eq!(parse_i64(&doc.entity_id), Ok(id));
    }
}

#[test]
fn stored_links_have_distinct_trimmed_urls() {
    let urls = strings(&[" a", "a ", "b", "", "b", "c"]);
    let kept: Vec<String> = links_to_create(&urls).into_iter().map(|i| urls[i].trim().to_owned()).collect();
    assert_eq!(kept, strings(&["a", "b", "c"]));
}

#[test]
fn trailing_slashes_stripped_once_for_all() {
    let once = EmbeddingClient::new("http://h///", "m", 1);
    assert_eq!(once.base_url, "http://h");
    let twice = EmbeddingClient::new(&once.base_url, "m", 1);
    assert_eq!(twice.base_url, once.base_url);
}
