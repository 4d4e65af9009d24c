use luna::embedding::{absorb_chunk, EmbeddingClient, EmbeddingService, DEFAULT_BATCH_SIZE};
use luna::entity_type::SearchEntityType;
use luna::indexer::{
    backfill_after_write, backfill_page_step, count_step, reconcile_step, task_poll_step,
    BackfillPageStep, BackfillState, CountStep, IndexerState, ReconcileStep, TaskPoll,
};
use luna::links::{
    changed_count, default_link_name, links_to_create, plan_link_updates, resolve_link_name,
    LinkAction, StoredLink, SubmittedLink,
};
use luna::loader::{
    named_entity_document, position_map, parse_i64, record_document, requested_version,
    resolve_relations, rows_by_record, IntParseError, MissingRelation, RecordKeys, RecordRow,
    RelationIds, RelationRows,
};
use luna::reconcile::{check_missing_documents, chunk_bounds, document_ids, id_differences};
use luna::sorted::{lex_less, same_id_set, sorted_difference, sorted_unique};
use luna::sync_events::{entity_delete_event, entity_upsert_event, fanout_events, update_fanout};

fn strings(items: &[&str]) -> Vec<String> {
    items.iter().map(|s| (*s).to_owned()).collect()
}

#[test]
fn test_embedding_client_new_trims_trailing_slash() {
    let client = EmbeddingClient::new("http://localhost:8000/", "model", 30);
    assert_eq!(client.base_url, "http://localhost:8000");
}

#[test]
fn test_embedding_client_new_no_trailing_slash() {
    let client = EmbeddingClient::new("http://localhost:8000", "model", 30);
    assert_eq!(client.base_url, "http://localhost:8000");
}

#[test]
fn test_embedding_client_new_stores_model_and_timeout() {
    let client = EmbeddingClient::new("http://localhost:8000", "bge-m3", 60);
    assert_eq!(client.model, "bge-m3");
    assert_eq!(client.timeout_secs, 60);
}

#[test]
fn embedding_urls_follow_base() {
    let client = EmbeddingClient::new("http://vllm:8000//", "m", 5);
    assert_eq!(client.embeddings_url(), "http://vllm:8000/v1/embeddings");
    assert_eq!(client.health_url(), "http://vllm:8000/health");
}

fn make_service() -> EmbeddingService {
    let client = EmbeddingClient::new("http://localhost:9999", "test-model", 5);
    EmbeddingService::new(client, Some(16))
}

#[test]
fn test_embedding_service_starts_unavailable() {
    let svc = make_service();
    assert!(!svc.is_available());
}

#[test]
fn test_set_available() {
    let svc = make_service();
    assert!(!svc.is_available());
    svc.set_available(true);
    assert!(svc.is_available());
    svc.set_available(false);
    assert!(!svc.is_available());
}

#[test]
fn test_default_batch_size() {
    let client = EmbeddingClient::new("http://localhost:9999", "m", 5);
    let svc = EmbeddingService::new(client, None);
    assert!(!svc.is_available());
    assert_eq!(svc.batch_size, DEFAULT_BATCH_SIZE);
}

#[test]
fn test_availability_transition() {
    let svc = make_service();
    assert!(!svc.is_available());
    svc.set_available(true);
    assert!(svc.is_available());
    svc.set_available(false);
    assert!(!svc.is_available());
}

#[test]
fn test_custom_batch_size() {
    let client = EmbeddingClient::new("http://localhost:9999", "m", 5);
    let svc = EmbeddingService::new(client, Some(8));
    assert!(!svc.is_available());
    assert_eq!(svc.batch_size, 8);
}

#[test]
fn chunk_outcomes_fill_results() {
    let mut results: Vec<Option<u8>> = Vec::new();
    assert!(absorb_chunk(&mut results, 2, Some(vec![1, 2])));
    assert!(!absorb_chunk(&mut results, 3, None));
    assert_eq!(results, vec![Some(1), Some(2), None, None, None]);
}

#[test]
fn link_names_default_when_blank() {
    assert_eq!(default_link_name(), "None");
    assert_eq!(resolve_link_name("  "), "None");
    assert_eq!(resolve_link_name(""), "None");
    assert_eq!(resolve_link_name(" part1 "), " part1 ");
}

#[test]
fn created_links_skip_blank_and_trimmed_duplicates() {
    let urls = strings(&["http://a", "  ", "http://b", " http://a ", "http://b", "http://c"]);
    assert_eq!(links_to_create(&urls), vec![0, 2, 5]);
    assert!(links_to_create(&[]).is_empty());
}

fn stored(link: &str, name: bool, size: bool, date: bool) -> StoredLink {
    StoredLink {
        link: link.to_owned(),
        name_is_default: name,
        size_is_default: size,
        date_is_default: date,
    }
}

fn submitted(link: &str, name: &str, size: bool, date: bool) -> SubmittedLink {
    SubmittedLink { link: link.to_owned(), name: name.to_owned(), has_size: size, has_date: date }
}

#[test]
fn link_updates_backfill_insert_and_skip() {
    let existing = vec![stored("http://a", true, true, false), stored("http://b", false, false, false)];
    let incoming = vec![
        submitted("http://a", "Part 1", false, true),
        submitted("http://a", "None", true, false),
        submitted("http://b", "x", true, true),
        submitted("   ", "x", true, true),
        submitted("http://c", "", false, false),
        submitted("http://c", "again", false, false),
    ];
    let plan = plan_link_updates(&existing, &incoming);
    assert_eq!(
        plan,
        vec![
            LinkAction::Backfill { stored: 0, name: true, size: false, date: false },
            LinkAction::Backfill { stored: 0, name: false, size: true, date: false },
            LinkAction::Skip,
            LinkAction::Skip,
            LinkAction::Insert,
            LinkAction::Skip,
        ]
    );
    assert_eq!(changed_count(&plan), 3);
    assert_eq!(changed_count(&[]), 0);
}

#[test]
fn string_order_and_sorted_sets() {
    assert!(lex_less("abc", "abd"));
    assert!(lex_less("ab", "abc"));
    assert!(!lex_less("b", "abc"));
    assert!(!lex_less("same", "same"));
    assert_eq!(sorted_unique(&strings(&["b", "a", "c", "a", "b"])), strings(&["a", "b", "c"]));
    assert_eq!(
        sorted_difference(&strings(&["5", "3", "10", "3"]), &strings(&["3"])),
        strings(&["10", "5"])
    );
    assert!(same_id_set(&strings(&["x", "y", "x"]), &strings(&["y", "x"])));
    assert!(!same_id_set(&strings(&["x"]), &strings(&["x", "z"])));
}

#[test]
fn reconciliation_finds_missing_and_ghost_ids() {
    let diff = id_differences(&strings(&["3", "1", "2"]), &strings(&["2", "4", "3", "0"]));
    assert_eq!(diff.missing, strings(&["1"]));
    assert_eq!(diff.ghosts, strings(&["0", "4"]));
    assert_eq!(
        document_ids(SearchEntityType::Idol, &strings(&["7", "8"])),
        strings(&["idol__7", "idol__8"])
    );
    assert_eq!(
        check_missing_documents(SearchEntityType::Genre, 4, 3).unwrap_err(),
        "Could not construct all missing genre documents: requested=4, found=3"
    );
    assert!(check_missing_documents(SearchEntityType::Genre, 4, 4).is_ok());
}

#[test]
fn chunks_cover_items_in_order() {
    assert_eq!(chunk_bounds(250, 100), vec![(0, 100), (100, 200), (200, 250)]);
    assert_eq!(chunk_bounds(200, 100), vec![(0, 100), (100, 200)]);
    assert!(chunk_bounds(0, 100).is_empty());
}

#[test]
fn outbox_events_of_named_entity_changes() {
    let up = entity_upsert_event(SearchEntityType::Director, 42, "Kurosawa", strings(&["r1"]), 99);
    assert_eq!(up.entity_type, "director");
    assert_eq!(up.entity_id, "42");
    assert_eq!(up.event_type, "upsert");
    assert_eq!(up.entity_version, 99);
    assert_eq!(up.payload_name.as_deref(), Some("Kurosawa"));
    assert_eq!(up.affected_record_ids, Some(strings(&["r1"])));

    let del = entity_delete_event(SearchEntityType::Genre, -1, Vec::new(), 5);
    assert_eq!(del.entity_id, "-1");
    assert_eq!(del.event_type, "delete");
    assert!(del.payload_name.is_none() && del.affected_record_ids.is_none());

    let fan = fanout_events(&strings(&["r1", "r2"]));
    assert_eq!(fan.len(), 2);
    assert_eq!(fan[1].entity_type, "record");
    assert_eq!(fan[1].entity_id, "r2");
    assert_eq!(fan[1].entity_version, 0);
}

#[test]
fn merged_update_reindexes_both_entities_records() {
    let plain = update_fanout(5, 5, strings(&["b", "a"]), &strings(&["z"]));
    assert!(!plain.merged);
    assert_eq!(plain.affected, strings(&["b", "a"]));
    let merged = update_fanout(5, 9, strings(&["b", "a"]), &strings(&["c", "a"]));
    assert!(merged.merged);
    assert_eq!(merged.affected, strings(&["a", "b", "c"]));
}

#[test]
fn indexer_state_transitions() {
    let s = IndexerState::new(true, false);
    assert!(s.index_prepared && !s.startup_backfill_done);
    let (runs, s) = s.backfill_step(true);
    assert_eq!(runs, 2);
    assert!(s.embedding_was_available && s.startup_backfill_done);
    let (runs, s) = s.backfill_step(true);
    assert_eq!(runs, 0);
    let (runs, s2) = s.backfill_step(false);
    assert_eq!(runs, 0);
    let (runs, _) = s2.backfill_step(true);
    assert_eq!(runs, 1);
    let failed = s.after_batch(false);
    assert!(!failed.index_prepared);
    assert_eq!(s.after_batch(true), s);
    assert!(!s.on_engine_unavailable().index_prepared);
    assert!(failed.on_index_prepared().index_prepared);

    let mut t = IndexerState::new(true, true);
    for _ in 0..3599 {
        let (due, next) = t.tick();
        assert!(!due);
        t = next;
    }
    let (due, next) = t.tick();
    assert!(due);
    assert_eq!(next.reconciliation_timer, 0);
    assert_eq!(reconcile_step(0), ReconcileStep::Run);
    assert_eq!(reconcile_step(3), ReconcileStep::Skip);
    assert_eq!(reconcile_step(-1), ReconcileStep::Skip);
}

#[test]
fn backfill_and_count_steps() {
    let start = BackfillState { offset: 0, iterations: 0, total_updated: 0 };
    assert_eq!(backfill_page_step(start, 10, 0), (BackfillPageStep::Stop, start));
    let (step, s) = backfill_page_step(start, 50, 0);
    assert_eq!(step, BackfillPageStep::Next);
    assert_eq!(s.offset, 50);
    let (step, s) = backfill_page_step(s, 50, 3);
    assert_eq!(step, BackfillPageStep::Embed);
    assert_eq!((s.offset, s.iterations), (100, 1));
    let limit = BackfillState { offset: 0, iterations: 200, total_updated: 0 };
    assert_eq!(backfill_page_step(limit, 50, 1).0, BackfillPageStep::Stop);
    assert_eq!(backfill_after_write(s, 3, 3, 50), (true, BackfillState { total_updated: 3, ..s }));
    assert!(!backfill_after_write(s, 3, 0, 50).0);
    assert!(!backfill_after_write(s, 3, 3, 20).0);

    assert_eq!(count_step(Some(1095), 1, 0, 0), CountStep::Done(1095));
    assert_eq!(count_step(None, 1000, 0, 0), CountStep::Next { offset: 1000, counted: 1000 });
    assert_eq!(count_step(None, 7, 1000, 1000), CountStep::Done(1007));
}

#[test]
fn task_poll_outcomes() {
    assert_eq!(task_poll_step(7, "succeeded", "", false), TaskPoll::Succeeded);
    assert_eq!(
        task_poll_step(7, "failed", "document id is invalid", false),
        TaskPoll::Failed("MeiliSearch task 7 failed: document id is invalid".to_owned())
    );
    assert_eq!(
        task_poll_step(7, "canceled", "", false),
        TaskPoll::Failed("MeiliSearch task 7 was canceled".to_owned())
    );
    assert_eq!(task_poll_step(7, "processing", "", false), TaskPoll::Pending);
    assert_eq!(
        task_poll_step(7, "processing", "", true),
        TaskPoll::Failed("MeiliSearch task 7 timed out after 30s (last status: processing)".to_owned())
    );
}

#[test]
fn relations_join_and_group() {
    let ids = RelationIds {
        directors: vec![1, 2],
        studios: vec![10],
        labels: vec![20, 21],
        series: vec![30],
    };
    let keys = vec![
        RecordKeys { director_id: 2, studio_id: 10, label_id: 21, series_id: 30 },
        RecordKeys { director_id: 1, studio_id: 10, label_id: 20, series_id: 30 },
    ];
    assert_eq!(
        resolve_relations(&keys, &ids).unwrap(),
        vec![
            RelationRows { director: 1, studio: 0, label: 1, series: 0 },
            RelationRows { director: 0, studio: 0, label: 0, series: 0 },
        ]
    );
    let broken = vec![RecordKeys { director_id: 1, studio_id: 11, label_id: 99, series_id: 30 }];
    let err = resolve_relations(&broken, &ids).unwrap_err();
    assert_eq!(err, MissingRelation::Studio);
    assert_eq!(err.message(), "Studio not found");
    let positions = position_map(&[4, 5, 4]);
    assert_eq!(positions.get(&4), Some(&2));
    assert_eq!(positions.get(&5), Some(&1));
    assert_eq!(positions.get(&6), None);

    let groups = rows_by_record(&strings(&["a", "b", "c"]), &strings(&["b", "a", "b"]));
    assert_eq!(groups, vec![vec![1], vec![0, 2], vec![]]);
}

#[test]
fn record_and_named_documents() {
    let inputs = vec![("a".to_owned(), 3), ("b".to_owned(), 4), ("a".to_owned(), 5)];
    assert_eq!(requested_version(&inputs, &"a".to_owned()), 5);
    assert_eq!(requested_version(&inputs, &"z".to_owned()), 0);
    let row = RecordRow {
        id: "abc123".to_owned(),
        title: "T".to_owned(),
        date: "2024-01-01".to_owned(),
        duration: 120,
        permission: 3,
    };
    let doc = record_document(
        row,
        5,
        Some("D".to_owned()),
        None,
        None,
        None,
        strings(&["Action"]),
        Vec::new(),
    );
    assert_eq!(doc.doc_id, "record__abc123");
    assert_eq!(doc.entity_type, SearchEntityType::Record);
    assert_eq!(doc.permission, 3);
    assert_eq!(doc.date.as_deref(), Some("2024-01-01"));
    assert_eq!(doc.genre_names, Some(strings(&["Action"])));
    assert_eq!(doc.idol_names, Some(Vec::new()));

    let named = named_entity_document(SearchEntityType::Studio, 12, "S".to_owned(), 9);
    assert_eq!(named.doc_id, "studio__12");
    assert_eq!(named.entity_id, "12");
    assert_eq!(named.permission, 0);
}

#[test]
fn decimal_ids_parse_like_std() {
    for s in ["0", "42", "-17", "+8", "9223372036854775807", "-9223372036854775808", "007"] {
        assert_eq!(parse_i64(s), s.parse::<i64>().map_err(|_| IntParseError::InvalidDigit));
    }
    assert_eq!(parse_i64(""), Err(IntParseError::Empty));
    assert_eq!(parse_i64("-"), Err(IntParseError::InvalidDigit));
    assert_eq!(parse_i64("1a"), Err(IntParseError::InvalidDigit));
    assert_eq!(parse_i64(" 1"), Err(IntParseError::InvalidDigit));
    assert_eq!(parse_i64("9223372036854775808"), Err(IntParseError::PosOverflow));
    assert_eq!(parse_i64("-9223372036854775809"), Err(IntParseError::NegOverflow));
    assert_eq!(IntParseError::InvalidDigit.message(), "invalid digit found in string");
}
