use luna::batch::{
    check_record_documents, claims_to_release, construct_named_document, event_action,
    is_stale_delete, named_documents, record_inputs, split_by_kind, split_stale,
    versions_to_store, BatchProcessOutcome, EventAction,
};
use luna::document::document_id;
use luna::entity_type::SearchEntityType;
use luna::outbox::{deduplicate_upserts, OutboxRepo, is_stale_upsert, DocumentVersion, OutboxEvent};

fn event(id: i64, entity_id: &str, version: i64) -> OutboxEvent {
    OutboxEvent {
        id,
        entity_type: "record".to_owned(),
        entity_id: entity_id.to_owned(),
        event_type: "upsert".to_owned(),
        entity_version: version,
        payload_name: None,
    }
}

fn typed(id: i64, entity_type: &str, entity_id: &str, event_type: &str, version: i64) -> OutboxEvent {
    OutboxEvent {
        id,
        entity_type: entity_type.to_owned(),
        entity_id: entity_id.to_owned(),
        event_type: event_type.to_owned(),
        entity_version: version,
        payload_name: None,
    }
}

fn version(last_version: i64, is_deleted: bool) -> DocumentVersion {
    DocumentVersion {
        entity_type: "record".to_owned(),
        entity_id: "A".to_owned(),
        last_version,
        is_deleted,
    }
}

#[test]
fn deduplicate_keeps_latest_version_and_all_event_ids() {
    let groups = deduplicate_upserts(&[event(1, "A", 1), event(2, "B", 1), event(3, "A", 3), event(4, "A", 2)]);

    assert_eq!(groups.len(), 2);
    let group = groups
        .iter()
        .find(|group| group.event.entity_id == "A")
        .expect("A group should exist");
    assert_eq!(group.event.entity_version, 3);
    assert_eq!(group.event_ids, vec![1, 3, 4]);
}

#[test]
fn deduplicate_orders_groups_by_first_appearance_and_later_tie_wins() {
    let groups = deduplicate_upserts(&[
        event(1, "B", 2),
        event(2, "A", 1),
        event(3, "B", 2),
        typed(4, "idol", "B", "upsert", 9),
    ]);
    assert_eq!(groups.len(), 3);
    assert_eq!(groups[0].event.entity_id, "B");
    assert_eq!(groups[0].event.id, 3);
    assert_eq!(groups[0].event_ids, vec![1, 3]);
    assert_eq!(groups[1].event_ids, vec![2]);
    assert_eq!(groups[2].event.entity_type, "idol");
    assert_eq!(groups[2].event_ids, vec![4]);
    assert!(deduplicate_upserts(&[]).is_empty());
}

#[test]
fn stale_check_preserves_fanout_and_equal_versions() {
    let current = version(10, false);
    assert!(!is_stale_upsert(0, &current));
    assert!(is_stale_upsert(9, &current));
    assert!(!is_stale_upsert(10, &current));
    assert!(!is_stale_upsert(11, &current));
}

#[test]
fn deleted_tombstone_only_prunes_real_versions() {
    let current = version(10, true);
    assert!(!is_stale_upsert(0, &current));
    assert!(is_stale_upsert(10, &current));
    assert!(is_stale_upsert(11, &current));
}

#[test]
fn stale_delete_needs_older_real_version() {
    assert!(!is_stale_delete(5, &None));
    assert!(is_stale_delete(5, &Some(version(10, false))));
    assert!(!is_stale_delete(0, &Some(version(10, false))));
    assert!(!is_stale_delete(10, &Some(version(10, true))));
}

#[test]
fn batch_splits_upserts_from_other_events() {
    let events = vec![
        typed(1, "record", "A", "upsert", 1),
        typed(2, "record", "B", "delete", 1),
        typed(3, "idol", "7", "upsert", 1),
        typed(4, "idol", "8", "rename", 1),
    ];
    let (upserts, others) = split_by_kind(&events);
    assert_eq!(upserts.iter().map(|e| e.id).collect::<Vec<_>>(), vec![1, 3]);
    assert_eq!(others.iter().map(|e| e.id).collect::<Vec<_>>(), vec![2, 4]);
    assert_eq!(event_action("upsert"), EventAction::Upsert);
    assert_eq!(event_action("delete"), EventAction::Delete);
    assert_eq!(event_action("rename"), EventAction::Ignore);
}

#[test]
fn stale_upserts_are_already_processed() {
    let events = vec![event(1, "A", 5), event(2, "B", 5), event(3, "C", 0)];
    let versions = vec![Some(version(10, false)), None, Some(version(10, true))];
    let (stale, fresh) = split_stale(&events, &versions);
    assert_eq!(stale, vec![1]);
    assert_eq!(fresh.iter().map(|e| e.id).collect::<Vec<_>>(), vec![2, 3]);
}

#[test]
fn named_document_uses_payload_name() {
    let mut e = typed(9, "director", "42", "upsert", 7);
    e.payload_name = Some("Kurosawa".to_owned());
    let doc = construct_named_document(&e).expect("director documents can be built");
    assert_eq!(doc.doc_id, "director__42");
    assert_eq!(doc.title, "Kurosawa");
    assert_eq!(doc.entity_type, SearchEntityType::Director);
    assert_eq!(doc.entity_id, "42");
    assert_eq!(doc.entity_version, 7);
    assert_eq!(doc.permission, 0);
    assert!(doc.date.is_none() && doc.genre_names.is_none());

    let untitled = construct_named_document(&typed(1, "genre", "3", "upsert", 1)).unwrap();
    assert_eq!(untitled.title, "");
}

#[test]
fn named_document_refuses_records_and_unknown_types() {
    assert_eq!(
        construct_named_document(&typed(1, "record", "A", "upsert", 1)).unwrap_err(),
        "record event passed to named document builder"
    );
    assert_eq!(
        construct_named_document(&typed(1, "movie", "A", "upsert", 1)).unwrap_err(),
        "unknown entity type: movie"
    );
}

#[test]
fn group_outputs_split_records_from_named_entities() {
    let mut named = typed(2, "studio", "5", "upsert", 0);
    named.payload_name = Some("S".to_owned());
    let groups = deduplicate_upserts(&[event(1, "A", 4), named, event(3, "B", 2)]);
    let inputs = record_inputs(&groups);
    assert_eq!(inputs, vec![("A".to_owned(), 4), ("B".to_owned(), 2)]);
    let docs = named_documents(&groups).expect("studio documents can be built");
    assert_eq!(docs.len(), 1);
    assert_eq!(docs[0].doc_id, "studio__5");
    let versions = versions_to_store(&groups);
    assert_eq!(
        versions,
        vec![
            ("record".to_owned(), "A".to_owned(), 4),
            ("record".to_owned(), "B".to_owned(), 2)
        ]
    );
    let bad = deduplicate_upserts(&[typed(1, "movie", "1", "upsert", 1)]);
    assert_eq!(named_documents(&bad).unwrap_err(), "unknown entity type: movie");
}

#[test]
fn record_document_count_must_match() {
    assert!(check_record_documents(3, 3).is_ok());
    assert_eq!(
        check_record_documents(3, 2).unwrap_err(),
        "Could not construct all record documents: requested=3, found=2"
    );
}

#[test]
fn document_ids_join_type_and_id() {
    assert_eq!(document_id("record", "abc123"), "record__abc123");
}

#[test]
fn outcome_records_upsert_failures_for_every_upsert() {
    let upserts = vec![event(1, "A", 1), event(2, "B", 1)];
    let mut outcome = BatchProcessOutcome::new();
    outcome.record_upserts(&upserts, Err("boom".to_owned()));
    outcome.record_event(3, Ok(()));
    outcome.record_event(4, Err("gone".to_owned()));
    assert_eq!(outcome.processed_ids, vec![3]);
    assert_eq!(
        outcome.failures,
        vec![(1, "boom".to_owned()), (2, "boom".to_owned()), (4, "gone".to_owned())]
    );

    let (release, ok) = claims_to_release(&outcome, true);
    assert_eq!(release, vec![1, 2, 4]);
    assert!(!ok);
    let (release, ok) = claims_to_release(&outcome, false);
    assert_eq!(release, vec![3, 1, 2, 4]);
    assert!(!ok);

    let mut clean = BatchProcessOutcome::new();
    clean.record_upserts(&upserts, Ok(vec![1, 2]));
    assert_eq!(clean.processed_ids, vec![1, 2]);
    let (release, ok) = claims_to_release(&clean, true);
    assert!(release.is_empty());
    assert!(ok);
}

#[test]
fn processed_batch_placeholders_are_numbered() {
    assert_eq!(OutboxRepo::batch_placeholders(0), "");
    assert_eq!(OutboxRepo::batch_placeholders(1), "$1");
    assert_eq!(OutboxRepo::batch_placeholders(3), "$1, $2, $3");
}
