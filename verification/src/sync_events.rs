//! The outbox events that catalogue writes emit so that the search index follows them.

use vstd::prelude::*;

use crate::entity_type::{entity_type_name, SearchEntityType};
use crate::sorted::{holds, sorted_unique, string_views, strictly_sorted};
use crate::text::{int_text, push_int, push_str};

verus! {

/// An outbox event to insert.
pub struct NewOutboxEvent {
    pub entity_type: String,
    pub entity_id: String,
    /// "upsert" or "delete".
    pub event_type: String,
    pub entity_version: i64,
    /// The `name` member of the payload, for named-entity upserts.
    pub payload_name: Option<String>,
    /// The records whose documents show the entity; `None` when there are none.
    pub affected_record_ids: Option<Vec<String>>,
}

/// The affected records as stored: none when the list is empty.
pub open spec fn stored_affected(ids: Seq<String>) -> Option<Seq<String>> {
    if ids.len() == 0 {
        None
    } else {
        Some(ids)
    }
}

fn affected_field(ids: Vec<String>) -> (r: Option<Vec<String>>)
    ensures
        match r {
            Some(v) => stored_affected(ids@) == Some(v@),
            None => stored_affected(ids@) is None,
        },
{
    if ids.len() == 0 {
        None
    } else {
        Some(ids)
    }
}

fn text_of(s: &str) -> (r: String)
    ensures
        r@ == s@,
{
    let mut r = String::new();
    push_str(&mut r, s);
    r
}

fn decimal_of(n: i64) -> (r: String)
    ensures
        r@ == int_text(n as int),
{
    let mut r = String::new();
    push_int(&mut r, n);
    r
}

/// The upsert event of a named entity, carrying its name so that its document
/// can be built without reading the database.
pub fn entity_upsert_event(
    entity_type: SearchEntityType,
    entity_id: i64,
    entity_name: &str,
    affected_record_ids: Vec<String>,
    version: i64,
) -> (r: NewOutboxEvent)
    ensures
        r.entity_type@ == entity_type_name(entity_type),
        r.entity_id@ == int_text(entity_id as int),
        r.event_type@ == "upsert"@,
        r.entity_version == version,
        r.payload_name matches Some(n) && n@ == entity_name@,
        match r.affected_record_ids {
            Some(v) => stored_affected(affected_record_ids@) == Some(v@),
            None => stored_affected(affected_record_ids@) is None,
        },
{
    NewOutboxEvent {
        entity_type: text_of(entity_type.as_str()),
        entity_id: decimal_of(entity_id),
        event_type: text_of("upsert"),
        entity_version: version,
        payload_name: Some(text_of(entity_name)),
        affected_record_ids: affected_field(affected_record_ids),
    }
}

/// The delete event of a named entity.
pub fn entity_delete_event(
    entity_type: SearchEntityType,
    entity_id: i64,
    affected_record_ids: Vec<String>,
    version: i64,
) -> (r: NewOutboxEvent)
    ensures
        r.entity_type@ == entity_type_name(entity_type),
        r.entity_id@ == int_text(entity_id as int),
        r.event_type@ == "delete"@,
        r.entity_version == version,
        r.payload_name is None,
        match r.affected_record_ids {
            Some(v) => stored_affected(affected_record_ids@) == Some(v@),
            None => stored_affected(affected_record_ids@) is None,
        },
{
    NewOutboxEvent {
        entity_type: text_of(entity_type.as_str()),
        entity_id: decimal_of(entity_id),
        event_type: text_of("delete"),
        entity_version: version,
        payload_name: None,
        affected_record_ids: affected_field(affected_record_ids),
    }
}

/// The re-index events of the records that show a changed entity. They carry
/// version 0: hints that never advance a stored version, so a concurrent real
/// edit of the record always wins.
pub fn fanout_events(record_ids: &[String]) -> (r: Vec<NewOutboxEvent>)
    ensures
        r@.len() == record_ids@.len(),
        forall|i: int|
            0 <= i < r@.len() ==> {
                let e = #[trigger] r@[i];
                &&& e.entity_type@ == "record"@
                &&& e.entity_id@ == record_ids@[i]@
                &&& e.event_type@ == "upsert"@
                &&& e.entity_version == 0
                &&& e.payload_name is None
                &&& e.affected_record_ids is None
            },
{
    let mut r: Vec<NewOutboxEvent> = Vec::new();
    let mut i: usize = 0;
    while i < record_ids.len()
        invariant
            i <= record_ids.len(),
            r@.len() == i,
            forall|k: int|
                0 <= k < i ==> {
                    let e = #[trigger] r@[k];
                    &&& e.entity_type@ == "record"@
                    &&& e.entity_id@ == record_ids@[k]@
                    &&& e.event_type@ == "upsert"@
                    &&& e.entity_version == 0
                    &&& e.payload_name is None
                    &&& e.affected_record_ids is None
                },
        decreases record_ids.len() - i,
    {
        r.push(
            NewOutboxEvent {
                entity_type: text_of("record"),
                entity_id: text_of(record_ids[i].as_str()),
                event_type: text_of("upsert"),
                entity_version: 0,
                payload_name: None,
                affected_record_ids: None,
            },
        );
        i = i + 1;
    }
    r
}

/// The records to re-index after a named entity was updated: those that showed
/// it before, and, when the update merged it into another entity, also those of
/// the surviving entity, sorted and without repeats.
pub struct UpdateFanout {
    /// Whether the entity was merged into another one (whose id survives).
    pub merged: bool,
    /// The records to re-index.
    pub affected: Vec<String>,
}

pub fn update_fanout(
    entity_id: i64,
    surviving_id: i64,
    pre_affected: Vec<String>,
    surviving_affected: &[String],
) -> (r: UpdateFanout)
    ensures
        r.merged == (surviving_id != entity_id),
        !r.merged ==> r.affected@ == pre_affected@,
        r.merged ==> strictly_sorted(string_views(r.affected@)),
        r.merged ==> (forall|y: Seq<char>|
            holds(r.affected@, y) <==> (holds(pre_affected@, y) || holds(surviving_affected@, y))),
{
    if surviving_id == entity_id {
        return UpdateFanout { merged: false, affected: pre_affected };
    }
    let ghost pre = pre_affected@;
    let mut all = pre_affected;
    assert(all@ == pre);
    let mut k: usize = 0;
    while k < surviving_affected.len()
        invariant
            k <= surviving_affected.len(),
            all@ == pre + surviving_affected@.take(k as int),
        decreases surviving_affected.len() - k,
    {
        all.push(surviving_affected[k].clone());
        proof {
            assert(all@ =~= pre + surviving_affected@.take(k + 1)) by {
                assert(all@[all@.len() - 1] == surviving_affected@[k as int]);
            }
        }
        k = k + 1;
    }
    assert(surviving_affected@.take(surviving_affected.len() as int) =~= surviving_affected@);
    let sorted = sorted_unique(all.as_slice());
    proof {
        assert forall|y: Seq<char>| holds(all@, y) <==> (holds(pre, y) || holds(surviving_affected@, y)) by {
            if holds(all@, y) {
                let i = choose|i: int| 0 <= i < all@.len() && (#[trigger] all@[i])@ == y;
                if i >= pre.len() {
                    assert(all@[i] == surviving_affected@[i - pre.len()]);
                }
            }
            if holds(pre, y) {
                let i = choose|i: int| 0 <= i < pre.len() && (#[trigger] pre[i])@ == y;
                assert(all@[i] == pre[i]);
            }
            if holds(surviving_affected@, y) {
                let i = choose|i: int| 0 <= i < surviving_affected@.len() && (#[trigger] surviving_affected@[i])@ == y;
                assert(all@[pre.len() + i] == surviving_affected@[i]);
            }
        }
    }
    assert(forall|y: Seq<char>| holds(sorted@, y) <==> (holds(pre, y) || holds(surviving_affected@, y)));
    assert(pre == pre_affected@);
    assert(forall|y: Seq<char>| holds(sorted@, y) <==> (holds(pre_affected@, y) || holds(surviving_affected@, y)));
    UpdateFanout { merged: true, affected: sorted }
}

/// The named entities created together with a record: id and name of each.
pub struct CreatedNestedEntities {
    pub director: Option<(i64, String)>,
    pub studio: Option<(i64, String)>,
    pub label: Option<(i64, String)>,
    pub series: Option<(i64, String)>,
    pub genres: Vec<(i64, String)>,
    pub idols: Vec<(i64, String)>,
}

/// `o` as a sequence of none or one entity of type `t`.
pub open spec fn announced(t: SearchEntityType, o: Option<(i64, String)>) -> Seq<(SearchEntityType, i64, Seq<char>)> {
    match o {
        Some(e) => seq![(t, e.0, e.1@)],
        None => seq![],
    }
}

/// The entities of type `t` listed in `v`.
pub open spec fn announced_all(t: SearchEntityType, v: Seq<(i64, String)>) -> Seq<(SearchEntityType, i64, Seq<char>)> {
    Seq::new(v.len(), |i: int| (t, v[i].0, v[i].1@))
}

/// The nested entities to announce to the index, in order: director, studio,
/// label, series, then the genres and the idols.
pub open spec fn nested_announcements(n: CreatedNestedEntities) -> Seq<(SearchEntityType, i64, Seq<char>)> {
    announced(SearchEntityType::Director, n.director) + announced(SearchEntityType::Studio, n.studio)
        + announced(SearchEntityType::Label, n.label) + announced(SearchEntityType::Series, n.series)
        + announced_all(SearchEntityType::Genre, n.genres@) + announced_all(SearchEntityType::Idol, n.idols@)
}

fn push_announced(out: &mut Vec<(SearchEntityType, i64, String)>, t: SearchEntityType, o: &Option<(i64, String)>)
    ensures
        views3(final(out)@) == views3(old(out)@) + announced(t, *o),
{
    if let Some(e) = o {
        out.push((t, e.0, e.1.clone()));
        proof {
            assert(views3(out@) =~= views3(old(out)@) + announced(t, *o));
        }
    } else {
        proof {
            assert(views3(out@) =~= views3(old(out)@) + announced(t, *o));
        }
    }
}

fn push_announced_all(out: &mut Vec<(SearchEntityType, i64, String)>, t: SearchEntityType, v: &Vec<(i64, String)>)
    ensures
        views3(final(out)@) == views3(old(out)@) + announced_all(t, v@),
{
    let mut i: usize = 0;
    while i < v.len()
        invariant
            i <= v.len(),
            views3(out@) == views3(old(out)@) + announced_all(t, v@.take(i as int)),
        decreases v.len() - i,
    {
        let ghost prev = out@;
        let name = v[i].1.clone();
        out.push((t, v[i].0, name));
        proof {
            assert(views3(out@) =~= views3(prev).push((t, v@[i as int].0, v@[i as int].1@)));
            assert(announced_all(t, v@.take(i + 1)) =~= announced_all(t, v@.take(i as int)).push(
                (t, v@[i as int].0, v@[i as int].1@),
            ));
            assert(views3(out@) =~= views3(old(out)@) + announced_all(t, v@.take(i + 1)));
        }
        i = i + 1;
    }
    assert(v@.take(v.len() as int) =~= v@);
}

/// The views of announced entities.
pub open spec fn views3(v: Seq<(SearchEntityType, i64, String)>) -> Seq<(SearchEntityType, i64, Seq<char>)> {
    Seq::new(v.len(), |i: int| (v[i].0, v[i].1, v[i].2@))
}

/// The named entities that creating a record must announce to the index.
pub fn nested_entity_announcements(nested: &CreatedNestedEntities) -> (r: Vec<(SearchEntityType, i64, String)>)
    ensures
        views3(r@) == nested_announcements(*nested),
{
    let mut r: Vec<(SearchEntityType, i64, String)> = Vec::new();
    assert(views3(r@) =~= Seq::<(SearchEntityType, i64, Seq<char>)>::empty());
    push_announced(&mut r, SearchEntityType::Director, &nested.director);
    push_announced(&mut r, SearchEntityType::Studio, &nested.studio);
    push_announced(&mut r, SearchEntityType::Label, &nested.label);
    push_announced(&mut r, SearchEntityType::Series, &nested.series);
    push_announced_all(&mut r, SearchEntityType::Genre, &nested.genres);
    push_announced_all(&mut r, SearchEntityType::Idol, &nested.idols);
    assert(views3(r@) =~= nested_announcements(*nested));
    r
}

/// The upsert event of a record itself.
pub fn record_upsert_event(record_id: &str, version: i64) -> (r: NewOutboxEvent)
    ensures
        r.entity_type@ == "record"@,
        r.entity_id@ == record_id@,
        r.event_type@ == "upsert"@,
        r.entity_version == version,
        r.payload_name is None,
        r.affected_record_ids is None,
{
    NewOutboxEvent {
        entity_type: text_of("record"),
        entity_id: text_of(record_id),
        event_type: text_of("upsert"),
        entity_version: version,
        payload_name: None,
        affected_record_ids: None,
    }
}

} // verus!
