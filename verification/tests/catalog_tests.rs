use luna::file::{media_etag, upload_file_name, FileService};
use luna::interaction::{batch_statuses, InteractionRow, InteractionStatus, InteractionStatusDto};
use luna::pagination::{
    build_page_link, build_paginated_response, filter_params, page_count, page_number,
    page_number_links, resolve_pagination, user_filter_applies, PaginationQuery, UserFilter,
    DEFAULT_PAGE_SIZE,
};
use luna::settings::{
    desired_filterable_attributes, desired_searchable_attributes, format_embedder_patch_error,
    handle_embedder_patch_failure, handle_embedder_task_failure, keyword_only_embedder_message,
    settings_update_plan, EmbedderSetupMode, EmbedderSettings, IndexSettings,
};

fn names(items: &[&str]) -> Option<Vec<Option<String>>> {
    Some(items.iter().map(|s| Some((*s).to_owned())).collect())
}

#[test]
fn test_settings_update_plan_detects_no_drift() {
    let settings = IndexSettings {
        searchable_attributes: names(&desired_searchable_attributes()),
        filterable_attributes: names(&desired_filterable_attributes()),
        embedder: Some(EmbedderSettings {
            source: Some("userProvided".to_owned()),
            dimensions: Some(1024),
        }),
    };
    let plan = settings_update_plan(&settings);
    assert!(!plan.update_searchable_attributes);
    assert!(!plan.update_filterable_attributes);
    assert!(!plan.update_embedder);
}

#[test]
fn test_settings_update_plan_detects_drift() {
    let settings = IndexSettings {
        searchable_attributes: names(&["title"]),
        filterable_attributes: names(&["entity_type"]),
        embedder: Some(EmbedderSettings { source: Some("openAi".to_owned()), dimensions: None }),
    };
    let plan = settings_update_plan(&settings);
    assert!(plan.update_searchable_attributes);
    assert!(plan.update_filterable_attributes);
    assert!(plan.update_embedder);
}

#[test]
fn test_settings_update_plan_detects_drift_when_embedder_dimensions_missing() {
    let settings = IndexSettings {
        searchable_attributes: names(&desired_searchable_attributes()),
        filterable_attributes: names(&desired_filterable_attributes()),
        embedder: Some(EmbedderSettings {
            source: Some("userProvided".to_owned()),
            dimensions: None,
        }),
    };
    let plan = settings_update_plan(&settings);
    assert!(!plan.update_searchable_attributes);
    assert!(!plan.update_filterable_attributes);
    assert!(plan.update_embedder);
}

#[test]
fn settings_drift_when_missing_or_not_strings() {
    let mut reordered = desired_searchable_attributes().to_vec();
    reordered.swap(0, 1);
    let mut with_number = names(&desired_filterable_attributes()).unwrap();
    with_number[3] = None;
    let settings = IndexSettings {
        searchable_attributes: names(&reordered),
        filterable_attributes: Some(with_number),
        embedder: None,
    };
    let plan = settings_update_plan(&settings);
    assert!(plan.update_searchable_attributes);
    assert!(plan.update_filterable_attributes);
    assert!(plan.update_embedder);
    let empty = IndexSettings { searchable_attributes: None, filterable_attributes: None, embedder: None };
    let plan = settings_update_plan(&empty);
    assert!(plan.update_searchable_attributes && plan.update_filterable_attributes);
}

#[test]
fn test_format_embedder_patch_error_includes_status_and_body() {
    let message = format_embedder_patch_error(400, "missing required field");
    assert!(message.contains("400 Bad Request"));
    assert!(message.contains("missing required field"));
    assert_eq!(
        message,
        "Failed to set MeiliSearch embedder config (400 Bad Request): missing required field"
    );
}

#[test]
fn test_handle_embedder_patch_failure_degrades_to_keyword_only() {
    let mode = handle_embedder_patch_failure(400, "missing required field");
    assert_eq!(mode, EmbedderSetupMode::KeywordOnly);
}

#[test]
fn test_handle_embedder_task_failure_degrades_to_keyword_only() {
    let mode = handle_embedder_task_failure("task failed");
    assert_eq!(mode, EmbedderSetupMode::KeywordOnly);
}

#[test]
fn test_keyword_only_embedder_message_mentions_keyword_search() {
    let message = keyword_only_embedder_message("embedder patch failed");
    assert!(message.contains("keyword-only"));
    assert!(message.contains("embedder patch failed"));
}

#[test]
fn content_type_by_extension() {
    assert_eq!(FileService::get_content_type_from_filename("cover.JPG"), "image/jpeg");
    assert_eq!(FileService::get_content_type_from_filename("a.b.jpeg"), "image/jpeg");
    assert_eq!(FileService::get_content_type_from_filename("x.png"), "image/png");
    assert_eq!(FileService::get_content_type_from_filename("x.Svg"), "image/svg+xml");
    assert_eq!(FileService::get_content_type_from_filename("gif"), "image/gif");
    assert_eq!(FileService::get_content_type_from_filename("x."), "application/octet-stream");
    assert_eq!(FileService::get_content_type_from_filename("x.tiff"), "application/octet-stream");
}

#[test]
fn extension_by_mime() {
    assert_eq!(FileService::get_extension_from_mime("image/jpeg"), "jpg");
    assert_eq!(FileService::get_extension_from_mime("image/webp"), "webp");
    assert_eq!(FileService::get_extension_from_mime("image/bmp"), "bmp");
    assert_eq!(FileService::get_extension_from_mime("text/plain"), "bin");
    assert_eq!(upload_file_name("poster", "image/png"), "poster.png");
    let service = FileService::new("/srv/assets".to_owned());
    assert_eq!(service.assets_private_path, "/srv/assets");
}

#[test]
fn etag_is_quoted_md5_hex() {
    assert_eq!(media_etag(b""), "\"d41d8cd98f00b204e9800998ecf8427e\"");
    assert_eq!(media_etag(b"abc"), "\"900150983cd24fb0d6963f7d28e17f72\"");
}

#[test]
fn page_links_carry_filters() {
    assert_eq!(build_page_link(20, 40, None, None), "?limit=20&offset=40");
    assert_eq!(
        build_page_link(10, 0, Some("true"), Some("true")),
        "?limit=10&offset=0&liked_only=true&viewed_only=true"
    );
    assert_eq!(build_page_link(10, 5, None, Some("true")), "?limit=10&offset=5&viewed_only=true");
}

#[test]
fn pagination_defaults_and_clamps() {
    assert_eq!(
        resolve_pagination(&PaginationQuery { limit: None, offset: None }),
        (DEFAULT_PAGE_SIZE, 0)
    );
    assert_eq!(
        resolve_pagination(&PaginationQuery { limit: Some(-3), offset: Some(-7) }),
        (DEFAULT_PAGE_SIZE, 0)
    );
    assert_eq!(resolve_pagination(&PaginationQuery { limit: Some(5), offset: Some(15) }), (5, 15));
}

#[test]
fn paginated_response_links() {
    let page = build_paginated_response(vec!["a", "b"], 25, 10, 10, Some("true"), None);
    assert_eq!(page.count, 25);
    assert_eq!(page.next.as_deref(), Some("?limit=10&offset=20&liked_only=true"));
    assert_eq!(page.previous.as_deref(), Some("?limit=10&offset=0&liked_only=true"));
    assert_eq!(page.results, vec!["a", "b"]);

    let last = build_paginated_response(Vec::<u8>::new(), 25, 10, 20, None, None);
    assert!(last.next.is_none());
    assert_eq!(last.previous.as_deref(), Some("?limit=10&offset=10"));

    let first = build_paginated_response(Vec::<u8>::new(), 5, 10, 0, None, None);
    assert!(first.next.is_none() && first.previous.is_none());

    let odd = build_paginated_response(Vec::<u8>::new(), 50, 10, 3, None, None);
    assert_eq!(odd.previous.as_deref(), Some("?limit=10&offset=0"));
    assert_eq!(odd.next.as_deref(), Some("?limit=10&offset=13"));
}

#[test]
fn filter_params_follow_flags() {
    let filter = Some(UserFilter { user_id: "u".to_owned(), liked_only: true, viewed_only: false });
    assert_eq!(filter_params(&filter), (Some("true"), None));
    assert!(user_filter_applies(&filter));
    assert_eq!(filter_params(&None), (None, None));
    let neither = Some(UserFilter { user_id: "u".to_owned(), liked_only: false, viewed_only: false });
    assert!(!user_filter_applies(&neither));
}

#[test]
fn page_number_pagination() {
    assert_eq!(page_number(Some(45), 20), 2);
    assert_eq!(page_number(Some(-45), 20), 0);
    assert_eq!(page_number(None, 20), 0);
    assert_eq!(page_count(0, 20), 0);
    assert_eq!(page_count(40, 20), 2);
    assert_eq!(page_count(41, 20), 3);
    let (next, previous) = page_number_links(1, 20, 3);
    assert_eq!(next.as_deref(), Some("?limit=20&offset=40"));
    assert_eq!(previous.as_deref(), Some("?limit=20&offset=0"));
    let (next, previous) = page_number_links(0, 20, 1);
    assert!(next.is_none() && previous.is_none());
}

#[test]
fn batch_status_defaults_and_last_row_wins() {
    let rows = vec![
        InteractionRow { record_id: "r1".to_owned(), liked: true, viewed: false },
        InteractionRow { record_id: "r2".to_owned(), liked: false, viewed: true },
        InteractionRow { record_id: "r1".to_owned(), liked: true, viewed: true },
    ];
    let ids = vec!["r1".to_owned(), "r3".to_owned(), "r2".to_owned()];
    let statuses = batch_statuses(&ids, &rows);
    assert_eq!(
        statuses,
        vec![
            ("r1".to_owned(), InteractionStatusDto { liked: true, viewed: true }),
            ("r3".to_owned(), InteractionStatusDto { liked: false, viewed: false }),
            ("r2".to_owned(), InteractionStatusDto { liked: false, viewed: true }),
        ]
    );
    let default_status = InteractionStatus::default();
    assert!(!default_status.liked && !default_status.viewed);
}

#[test]
fn batch_status_answers_each_id_once() {
    let rows = vec![InteractionRow { record_id: "r2".to_owned(), liked: true, viewed: false }];
    let ids = vec!["r2".to_owned(), "r1".to_owned(), "r2".to_owned(), "r1".to_owned()];
    let statuses = batch_statuses(&ids, &rows);
    assert_eq!(
        statuses,
        vec![
            ("r2".to_owned(), InteractionStatusDto { liked: true, viewed: false }),
            ("r1".to_owned(), InteractionStatusDto { liked: false, viewed: false }),
        ]
    );
}

#[test]
fn uploaded_image_name_gives_back_its_content_type() {
    for mime in ["image/jpeg", "image/png", "image/gif", "image/webp", "image/bmp", "image/svg+xml"] {
        let name = upload_file_name("cover", mime);
        assert_eq!(FileService::get_content_type_from_filename(&name), mime);
    }
    assert_eq!(FileService::get_content_type_from_filename("x.ÉPNG"), "application/octet-stream");
}
