use luna::affinity::{build_affinity_filter, AffinityBind, NamedEntitySearch};
use luna::entity_type::SearchEntityType;
use luna::file::{has_allowed_extension, idol_lacks_images};
use luna::sync_events::{nested_entity_announcements, record_upsert_event, CreatedNestedEntities};

fn strings(items: &[&str]) -> Vec<String> {
    items.iter().map(|s| (*s).to_owned()).collect()
}

#[test]
fn affinity_filter_numbers_placeholders() {
    let none = NamedEntitySearch { id: None, name: Some("   ".to_owned()), link: None };
    let (clause, binds) = build_affinity_filter(&none, 2);
    assert_eq!(clause, "");
    assert!(binds.is_empty());

    let all = NamedEntitySearch {
        id: Some(7),
        name: Some("Prest".to_owned()),
        link: Some("http".to_owned()),
    };
    let (clause, binds) = build_affinity_filter(&all, 2);
    assert_eq!(
        clause,
        " WHERE t.id = $2 AND t.name LIKE '%' || $3 || '%' AND t.link LIKE '%' || $4 || '%'"
    );
    assert_eq!(
        binds,
        vec![
            AffinityBind::Id(7),
            AffinityBind::Text("Prest".to_owned()),
            AffinityBind::Text("http".to_owned())
        ]
    );

    let link_only = NamedEntitySearch { id: None, name: None, link: Some("x".to_owned()) };
    let (clause, _) = build_affinity_filter(&link_only, 1);
    assert_eq!(clause, " WHERE t.link LIKE '%' || $1 || '%'");
}

#[test]
fn image_files_by_allowed_extension() {
    let allowed = strings(&["jpg", "png", "webp"]);
    assert!(has_allowed_extension("cover.JPG", &allowed));
    assert!(has_allowed_extension("a.b.png", &allowed));
    assert!(!has_allowed_extension("notes.txt", &allowed));
    assert!(!has_allowed_extension("jpgfile", &strings(&["png"])));
    assert!(has_allowed_extension("png", &allowed));
    assert!(idol_lacks_images(3, &strings(&["a.txt", "b.doc"]), &allowed));
    assert!(!idol_lacks_images(3, &strings(&["a.txt", "b.PNG"]), &allowed));
    assert!(idol_lacks_images(3, &[], &allowed));
    assert!(!idol_lacks_images(0, &[], &allowed));
}

#[test]
fn nested_entities_announced_in_order() {
    let nested = CreatedNestedEntities {
        director: Some((1, "D".to_owned())),
        studio: None,
        label: Some((3, "L".to_owned())),
        series: None,
        genres: vec![(10, "G1".to_owned()), (11, "G2".to_owned())],
        idols: vec![(20, "I".to_owned())],
    };
    let announced = nested_entity_announcements(&nested);
    assert_eq!(
        announced,
        vec![
            (SearchEntityType::Director, 1, "D".to_owned()),
            (SearchEntityType::Label, 3, "L".to_owned()),
            (SearchEntityType::Genre, 10, "G1".to_owned()),
            (SearchEntityType::Genre, 11, "G2".to_owned()),
            (SearchEntityType::Idol, 20, "I".to_owned()),
        ]
    );
    let e = record_upsert_event("abc", 77);
    assert_eq!((e.entity_type.as_str(), e.entity_id.as_str(), e.event_type.as_str()), ("record", "abc", "upsert"));
    assert_eq!(e.entity_version, 77);
}
