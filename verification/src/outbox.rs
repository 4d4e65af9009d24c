//! Outbox events, document versions, and the batching of upserts.

use vstd::prelude::*;

use crate::text::{int_text, push_str, push_uint};

verus! {

/// A pending outbox event claimed by a worker.
#[derive(Clone, Debug)]
pub struct OutboxEvent {
    /// Auto-incrementing event ID.
    pub id: i64,
    /// Entity type: "record", "idol", "director", etc.
    pub entity_type: String,
    /// Primary key of the changed entity.
    pub entity_id: String,
    /// Event action: "upsert" or "delete".
    pub event_type: String,
    /// Monotonically increasing version for staleness detection.
    pub entity_version: i64,
    /// The `name` member of the event payload, when the payload holds one as a string.
    pub payload_name: Option<String>,
}

/// Current version status of a document.
#[derive(Clone, Debug)]
pub struct DocumentVersion {
    pub entity_type: String,
    pub entity_id: String,
    pub last_version: i64,
    pub is_deleted: bool,
}

/// The upserts of one entity within a batch: the event to index and every event it stands for.
#[derive(Clone, Debug)]
pub struct UpsertGroup {
    pub event: OutboxEvent,
    pub event_ids: Vec<i64>,
}

fn copy_string(s: &String) -> (r: String)
    ensures
        r == *s,
{
    s.clone()
}

impl OutboxEvent {
    /// A field-by-field copy of the event.
    pub fn copy(&self) -> (r: OutboxEvent)
        ensures
            r == *self,
    {
        let payload_name = match &self.payload_name {
            Some(n) => Some(copy_string(n)),
            None => None,
        };
        OutboxEvent {
            id: self.id,
            entity_type: copy_string(&self.entity_type),
            entity_id: copy_string(&self.entity_id),
            event_type: copy_string(&self.event_type),
            entity_version: self.entity_version,
            payload_name,
        }
    }
}

/// The outbox table of search sync events.
pub struct OutboxRepo;

/// The numbered bind placeholders `$1, $2, ..., $n` of a statement over `n` values.
pub open spec fn placeholders_text(n: nat) -> Seq<char>
    decreases n,
{
    if n == 0 {
        seq![]
    } else if n == 1 {
        "$1"@
    } else {
        placeholders_text((n - 1) as nat) + ", $"@ + int_text(n as int)
    }
}

impl OutboxRepo {
    /// The placeholder list of the statement that marks `n` events processed.
    pub fn batch_placeholders(n: u64) -> (r: String)
        ensures
            r@ == placeholders_text(n as nat),
    {
        let mut r = String::new();
        let mut k: u64 = 0;
        while k < n
            invariant
                k <= n,
                r@ == placeholders_text(k as nat),
            decreases n - k,
        {
            k = k + 1;
            if k == 1 {
                push_str(&mut r, "$1");
                proof {
                    reveal_strlit("$1");
                    assert(int_text(1) =~= seq!['1']);
                }
            } else {
                push_str(&mut r, ", $");
                push_uint(&mut r, k);
            }
        }
        r
    }
}

/// Whether two events concern the same entity.
pub open spec fn same_entity(a: OutboxEvent, b: OutboxEvent) -> bool {
    a.entity_type@ == b.entity_type@ && a.entity_id@ == b.entity_id@
}

/// The events of `es` that concern the entity of `k`, in order.
pub open spec fn entity_events(es: Seq<OutboxEvent>, k: OutboxEvent) -> Seq<OutboxEvent>
    decreases es.len(),
{
    if es.len() == 0 {
        seq![]
    } else if same_entity(es.last(), k) {
        entity_events(es.drop_last(), k).push(es.last())
    } else {
        entity_events(es.drop_last(), k)
    }
}

/// The first event of each entity of `es`, in order of first appearance.
pub open spec fn entity_firsts(es: Seq<OutboxEvent>) -> Seq<OutboxEvent>
    decreases es.len(),
{
    if es.len() == 0 {
        seq![]
    } else if entity_events(es.drop_last(), es.last()).len() > 0 {
        entity_firsts(es.drop_last())
    } else {
        entity_firsts(es.drop_last()).push(es.last())
    }
}

/// The event of highest version in `es`; of several with that version, the last.
pub open spec fn newest_event(es: Seq<OutboxEvent>) -> OutboxEvent
    decreases es.len(),
{
    if es.len() <= 1 {
        es[0]
    } else if es.last().entity_version >= newest_event(es.drop_last()).entity_version {
        es.last()
    } else {
        newest_event(es.drop_last())
    }
}

/// The ids of `es`, in order.
pub open spec fn event_ids(es: Seq<OutboxEvent>) -> Seq<i64>
    decreases es.len(),
{
    if es.len() == 0 {
        seq![]
    } else {
        event_ids(es.drop_last()).push(es.last().id)
    }
}

/// What grouping `es` by entity yields: one group per entity in order of first
/// appearance, holding the entity's newest event and the ids of all its events.
pub open spec fn groups_of(es: Seq<OutboxEvent>, gs: Seq<UpsertGroup>) -> bool {
    &&& gs.len() == entity_firsts(es).len()
    &&& forall|i: int|
        0 <= i < gs.len() ==> {
            let evs = #[trigger] entity_events(es, entity_firsts(es)[i]);
            &&& gs[i].event == newest_event(evs)
            &&& gs[i].event_ids@ == event_ids(evs)
        }
}

/// The ids of all events of the first `n` groups, group by group.
pub open spec fn all_group_ids(gs: Seq<UpsertGroup>, n: nat) -> Seq<i64>
    decreases n,
{
    if n == 0 {
        seq![]
    } else {
        all_group_ids(gs, (n - 1) as nat) + gs[n - 1].event_ids@
    }
}

proof fn lemma_all_group_ids_prefix(gs: Seq<UpsertGroup>, hs: Seq<UpsertGroup>, n: nat)
    requires
        n <= gs.len(),
        n <= hs.len(),
        forall|i: int| 0 <= i < n ==> gs[i] == hs[i],
    ensures
        all_group_ids(gs, n) == all_group_ids(hs, n),
    decreases n,
{
    if n > 0 {
        lemma_all_group_ids_prefix(gs, hs, (n - 1) as nat);
    }
}

proof fn lemma_all_group_ids_extended(gs: Seq<UpsertGroup>, hs: Seq<UpsertGroup>, j: int, x: i64, n: nat)
    requires
        gs.len() == hs.len(),
        0 <= j < gs.len(),
        j < n <= gs.len(),
        forall|i: int| 0 <= i < gs.len() && i != j ==> gs[i] == hs[i],
        hs[j].event_ids@ == gs[j].event_ids@.push(x),
    ensures
        all_group_ids(hs, n).to_multiset() == all_group_ids(gs, n).to_multiset().insert(x),
    decreases n,
{
    broadcast use vstd::seq_lib::group_to_multiset_ensures;
    broadcast use vstd::multiset::group_multiset_axioms;

    let m = (n - 1) as nat;
    if n == j + 1 {
        lemma_all_group_ids_prefix(gs, hs, m);
        let a = all_group_ids(gs, m);
        assert(all_group_ids(hs, n) =~= (a + gs[j].event_ids@).push(x));
    } else {
        lemma_all_group_ids_extended(gs, hs, j, x, m);
        vstd::seq_lib::lemma_multiset_commutative(all_group_ids(hs, m), hs[m as int].event_ids@);
        vstd::seq_lib::lemma_multiset_commutative(all_group_ids(gs, m), gs[m as int].event_ids@);
        assert(all_group_ids(hs, n).to_multiset() =~= all_group_ids(gs, n).to_multiset().insert(x));
    }
}

/// Whether an upsert at `event_version` is already covered by the stored version.
/// Version 0 marks fan-out events, which are never stale.
pub open spec fn stale_upsert(event_version: i64, current: DocumentVersion) -> bool {
    event_version > 0 && (current.is_deleted || event_version < current.last_version)
}

pub fn is_stale_upsert(event_version: i64, current: &DocumentVersion) -> (r: bool)
    ensures
        r == stale_upsert(event_version, *current),
{
    event_version > 0 && (current.is_deleted || event_version < current.last_version)
}

proof fn lemma_entity_events_push(es: Seq<OutboxEvent>, e: OutboxEvent, k: OutboxEvent)
    ensures
        entity_events(es.push(e), k) == if same_entity(e, k) {
            entity_events(es, k).push(e)
        } else {
            entity_events(es, k)
        },
{
    assert(es.push(e).drop_last() =~= es);
}

proof fn lemma_entity_events_same(es: Seq<OutboxEvent>, a: OutboxEvent, b: OutboxEvent)
    requires
        same_entity(a, b),
    ensures
        entity_events(es, a) == entity_events(es, b),
    decreases es.len(),
{
    if es.len() > 0 {
        lemma_entity_events_same(es.drop_last(), a, b);
    }
}

proof fn lemma_entity_events_members(es: Seq<OutboxEvent>, k: OutboxEvent)
    ensures
        forall|i: int|
            0 <= i < entity_events(es, k).len() ==> same_entity(#[trigger] entity_events(es, k)[i], k),
    decreases es.len(),
{
    if es.len() > 0 {
        let p = es.drop_last();
        lemma_entity_events_members(p, k);
        let r = entity_events(es, k);
        assert forall|i: int| 0 <= i < r.len() implies same_entity(#[trigger] r[i], k) by {
            if i < entity_events(p, k).len() {
                assert(r[i] == entity_events(p, k)[i]);
            }
        }
    }
}

proof fn lemma_entity_firsts_push(es: Seq<OutboxEvent>, e: OutboxEvent)
    ensures
        entity_firsts(es.push(e)) == if entity_events(es, e).len() > 0 {
            entity_firsts(es)
        } else {
            entity_firsts(es).push(e)
        },
{
    assert(es.push(e).drop_last() =~= es);
}

/// Each first event has its own entity, and an entity has events in `es`
/// exactly when one of the first events is of it.
proof fn lemma_entity_firsts(es: Seq<OutboxEvent>)
    ensures
        forall|i: int, j: int|
            0 <= i < j < entity_firsts(es).len() ==> !same_entity(
                #[trigger] entity_firsts(es)[i],
                #[trigger] entity_firsts(es)[j],
            ),
        forall|k: OutboxEvent|
            #![trigger entity_events(es, k)]
            entity_events(es, k).len() > 0 <==> exists|i: int|
                0 <= i < entity_firsts(es).len() && same_entity(#[trigger] entity_firsts(es)[i], k),
        forall|i: int|
            0 <= i < entity_firsts(es).len() ==> entity_events(es, #[trigger] entity_firsts(es)[i]).len()
                > 0,
    decreases es.len(),
{
    if es.len() > 0 {
        let p = es.drop_last();
        let e = es.last();
        lemma_entity_firsts(p);
        assert(p.push(e) =~= es);
        lemma_entity_firsts_push(p, e);
        let fp = entity_firsts(p);
        let fs = entity_firsts(es);
        assert forall|k: OutboxEvent|
            #![trigger entity_events(es, k)]
            entity_events(es, k).len() > 0 <==> exists|i: int|
                0 <= i < fs.len() && same_entity(#[trigger] fs[i], k) by {
            lemma_entity_events_push(p, e, k);
            let ep = entity_events(p, k);
            if same_entity(e, k) {
                assert(entity_events(es, k).len() > 0);
                if entity_events(p, e).len() > 0 {
                    let i = choose|i: int| 0 <= i < fp.len() && same_entity(#[trigger] fp[i], e);
                    assert(fs[i] == fp[i]);
                    assert(same_entity(fs[i], k));
                } else {
                    assert(fs[fp.len() as int] == e);
                    assert(same_entity(fs[fp.len() as int], k));
                }
            } else {
                assert(entity_events(es, k) == ep);
                if ep.len() > 0 {
                    let i = choose|i: int| 0 <= i < fp.len() && same_entity(#[trigger] fp[i], k);
                    assert(fs[i] == fp[i]);
                    assert(same_entity(fs[i], k));
                }
                if exists|i: int| 0 <= i < fs.len() && same_entity(#[trigger] fs[i], k) {
                    let i = choose|i: int| 0 <= i < fs.len() && same_entity(#[trigger] fs[i], k);
                    if i < fp.len() {
                        assert(fs[i] == fp[i]);
                        assert(same_entity(fp[i], k));
                    } else {
                        assert(fs[i] == e);
                    }
                }
            }
        }
        assert forall|i: int| 0 <= i < fs.len() implies entity_events(es, #[trigger] fs[i]).len() > 0 by {
            lemma_entity_events_push(p, e, fs[i]);
            if i < fp.len() {
                assert(fs[i] == fp[i]);
            }
        }
        if entity_events(p, e).len() == 0 {
            assert forall|i: int, j: int| 0 <= i < j < fs.len() implies !same_entity(
                #[trigger] fs[i],
                #[trigger] fs[j],
            ) by {
                if j == fp.len() {
                    assert(fs[i] == fp[i]);
                    if same_entity(fp[i], e) {
                        lemma_entity_events_same(p, fp[i], e);
                    }
                } else {
                    assert(fs[i] == fp[i] && fs[j] == fp[j]);
                }
            }
        }
    }
}

/// Each group of a grouping holds an event of the entity it stands for.
proof fn lemma_group_entities(es: Seq<OutboxEvent>, gs: Seq<UpsertGroup>)
    requires
        groups_of(es, gs),
    ensures
        forall|m: int| 0 <= m < gs.len() ==> same_entity(#[trigger] gs[m].event, entity_firsts(es)[m]),
{
    lemma_entity_firsts(es);
    let fp = entity_firsts(es);
    assert forall|m: int| 0 <= m < gs.len() implies same_entity(#[trigger] gs[m].event, fp[m]) by {
        let evs = entity_events(es, fp[m]);
        assert(evs.len() > 0);
        lemma_newest_member(evs);
        lemma_entity_events_members(es, fp[m]);
        let x = choose|x: int| 0 <= x < evs.len() && evs[x] == newest_event(evs);
        assert(same_entity(evs[x], fp[m]));
    }
}

/// Adding an event of an entity that already has group `j` updates that group only.
proof fn lemma_group_extend(
    p: Seq<OutboxEvent>,
    gs: Seq<UpsertGroup>,
    e: OutboxEvent,
    j: int,
    gs2: Seq<UpsertGroup>,
)
    requires
        groups_of(p, gs),
        0 <= j < gs.len(),
        same_entity(gs[j].event, e),
        gs2.len() == gs.len(),
        forall|i: int| 0 <= i < gs.len() && i != j ==> gs2[i] == gs[i],
        gs2[j].event == (if e.entity_version >= gs[j].event.entity_version {
            e
        } else {
            gs[j].event
        }),
        gs2[j].event_ids@ == gs[j].event_ids@.push(e.id),
    ensures
        groups_of(p.push(e), gs2),
{
    let q = p.push(e);
    let fp = entity_firsts(p);
    lemma_entity_firsts(p);
    lemma_group_entities(p, gs);
    lemma_entity_firsts_push(p, e);
    let k = fp[j];
    assert(same_entity(k, e));
    lemma_entity_events_same(p, k, e);
    assert(entity_events(p, k).len() > 0);
    assert(entity_firsts(q) == fp);
    assert forall|i: int| 0 <= i < gs2.len() implies {
        let evs = #[trigger] entity_events(q, entity_firsts(q)[i]);
        &&& gs2[i].event == newest_event(evs)
        &&& gs2[i].event_ids@ == event_ids(evs)
    } by {
        let f = fp[i];
        lemma_entity_events_push(p, e, f);
        let evs = entity_events(p, f);
        if i == j {
            assert(evs.push(e).drop_last() =~= evs);
        } else {
            if same_entity(e, f) {
                assert(same_entity(fp[i], fp[j]));
                assert(same_entity(fp[j], fp[i]));
                assert(false);
            }
        }
    }
}

/// Adding an event of an entity without a group appends a group for it.
proof fn lemma_group_new(p: Seq<OutboxEvent>, gs: Seq<UpsertGroup>, e: OutboxEvent, g: UpsertGroup)
    requires
        groups_of(p, gs),
        forall|m: int| 0 <= m < gs.len() ==> !same_entity(#[trigger] gs[m].event, e),
        g.event == e,
        g.event_ids@ == seq![e.id],
    ensures
        groups_of(p.push(e), gs.push(g)),
{
    let q = p.push(e);
    let fp = entity_firsts(p);
    let gs2 = gs.push(g);
    lemma_entity_firsts(p);
    lemma_group_entities(p, gs);
    lemma_entity_firsts_push(p, e);
    assert(entity_events(p, e).len() == 0) by {
        if entity_events(p, e).len() > 0 {
            let i = choose|i: int| 0 <= i < fp.len() && same_entity(#[trigger] fp[i], e);
            assert(same_entity(gs[i].event, fp[i]));
        }
    }
    assert(entity_firsts(q) == fp.push(e));
    assert forall|i: int| 0 <= i < gs2.len() implies {
        let evs = #[trigger] entity_events(q, entity_firsts(q)[i]);
        &&& gs2[i].event == newest_event(evs)
        &&& gs2[i].event_ids@ == event_ids(evs)
    } by {
        let f = entity_firsts(q)[i];
        lemma_entity_events_push(p, e, f);
        if i < fp.len() {
            assert(f == fp[i]);
            assert(gs2[i] == gs[i]);
            assert(entity_events(p, fp[i]).len() > 0);
            if same_entity(e, f) {
                lemma_entity_events_same(p, f, e);
                assert(false);
            }
            assert(entity_events(q, f) == entity_events(p, fp[i]));
        } else {
            assert(f == e);
            assert(gs2[i] == g);
            let evs = entity_events(p, e);
            assert(evs =~= Seq::<OutboxEvent>::empty());
            assert(entity_events(q, f) =~= seq![e]);
            assert(seq![e].drop_last() =~= Seq::<OutboxEvent>::empty());
            assert(newest_event(seq![e]) == e);
            assert(event_ids(Seq::<OutboxEvent>::empty()) =~= Seq::<i64>::empty());
            assert(event_ids(seq![e]) =~= seq![e.id]);
        }
    }
}

/// Groups upserts by entity: one group per entity in order of first appearance,
/// holding the newest event (a later one wins a tie) and every event id in order.
pub fn deduplicate_upserts(events: &[OutboxEvent]) -> (groups: Vec<UpsertGroup>)
    ensures
        groups_of(events@, groups@),
        all_group_ids(groups@, groups@.len()).to_multiset() == event_ids(events@).to_multiset(),
{
    let mut groups: Vec<UpsertGroup> = Vec::new();
    let mut n: usize = 0;
    assert(events@.take(0) =~= seq![]);
    while n < events.len()
        invariant
            n <= events.len(),
            groups_of(events@.take(n as int), groups@),
            all_group_ids(groups@, groups@.len()).to_multiset() == event_ids(events@.take(n as int)).to_multiset(),
        decreases events.len() - n,
    {
        let event = &events[n];
        let ghost p = events@.take(n as int);
        proof {
            assert(events@.take(n + 1) =~= p.push(*event));
        }
        let mut j: usize = 0;
        let mut found = false;
        while j < groups.len()
            invariant_except_break
                !found,
                j <= groups.len(),
                forall|m: int| 0 <= m < j ==> !same_entity(#[trigger] groups@[m].event, *event),
            ensures
                found ==> j < groups.len() && same_entity(groups@[j as int].event, *event),
                !found ==> forall|m: int|
                    0 <= m < groups.len() ==> !same_entity(#[trigger] groups@[m].event, *event),
            decreases groups.len() - j,
        {
            let g = &groups[j];
            if g.event.entity_type == event.entity_type && g.event.entity_id == event.entity_id {
                found = true;
                break;
            }
            j = j + 1;
        }
        if found {
            let old_group = &groups[j];
            let mut ids = old_group.event_ids.clone();
            assert(ids@ =~= old_group.event_ids@);
            ids.push(event.id);
            let newest = if event.entity_version >= old_group.event.entity_version {
                event.copy()
            } else {
                old_group.event.copy()
            };
            let ghost old_groups = groups@;
            groups.set(j, UpsertGroup { event: newest, event_ids: ids });
            proof {
                lemma_group_extend(p, old_groups, *event, j as int, groups@);
                lemma_all_group_ids_extended(old_groups, groups@, j as int, event.id, groups@.len());
                lemma_event_ids_push(p, *event);
            }
        } else {
            let mut ids: Vec<i64> = Vec::new();
            ids.push(event.id);
            let g = UpsertGroup { event: event.copy(), event_ids: ids };
            let ghost old_groups = groups@;
            proof {
                assert(ids@ =~= seq![event.id]);
                lemma_group_new(p, groups@, *event, g);
            }
            groups.push(g);
            proof {
                broadcast use vstd::seq_lib::group_to_multiset_ensures;
                lemma_all_group_ids_prefix(old_groups, groups@, old_groups.len());
                assert(all_group_ids(groups@, groups@.len()) =~= all_group_ids(old_groups, old_groups.len()).push(
                    event.id,
                ));
                lemma_event_ids_push(p, *event);
            }
        }
        n = n + 1;
    }
    assert(events@.take(events.len() as int) =~= events@);
    groups
}

proof fn lemma_event_ids_push(es: Seq<OutboxEvent>, e: OutboxEvent)
    ensures
        event_ids(es.push(e)).to_multiset() == event_ids(es).to_multiset().insert(e.id),
{
    broadcast use vstd::seq_lib::group_to_multiset_ensures;

    assert(es.push(e).drop_last() =~= es);
    assert(event_ids(es.push(e)) == event_ids(es).push(e.id));
}

proof fn lemma_newest_member(es: Seq<OutboxEvent>)
    requires
        es.len() > 0,
    ensures
        exists|i: int| 0 <= i < es.len() && es[i] == newest_event(es),
    decreases es.len(),
{
    if es.len() > 1 {
        lemma_newest_member(es.drop_last());
        let i = choose|i: int| 0 <= i < es.drop_last().len() && es.drop_last()[i] == newest_event(es.drop_last());
        assert(es[i] == es.drop_last()[i]);
        assert(es[es.len() - 1] == es.last());
    } else {
        assert(es[0] == newest_event(es));
    }
}

proof fn lemma_entity_events_has(es: Seq<OutboxEvent>, i: int)
    requires
        0 <= i < es.len(),
    ensures
        entity_events(es, es[i]).contains(es[i]),
    decreases es.len(),
{
    let p = es.drop_last();
    if i < es.len() - 1 {
        lemma_entity_events_has(p, i);
        assert(p[i] == es[i]);
        let r = entity_events(p, es[i]);
        let x = choose|x: int| 0 <= x < r.len() && r[x] == es[i];
        if same_entity(es.last(), es[i]) {
            assert(entity_events(es, es[i])[x] == es[i]);
        }
    } else {
        assert(es.last() == es[i]);
        let r = entity_events(es, es[i]);
        assert(r[r.len() - 1] == es[i]);
    }
}

proof fn lemma_event_ids_index(fs: Seq<OutboxEvent>)
    ensures
        event_ids(fs).len() == fs.len(),
        forall|x: int| 0 <= x < fs.len() ==> #[trigger] event_ids(fs)[x] == fs[x].id,
    decreases fs.len(),
{
    if fs.len() > 0 {
        lemma_event_ids_index(fs.drop_last());
        assert forall|x: int| 0 <= x < fs.len() implies #[trigger] event_ids(fs)[x] == fs[x].id by {
            if x < fs.len() - 1 {
                assert(event_ids(fs)[x] == event_ids(fs.drop_last())[x]);
                assert(fs[x] == fs.drop_last()[x]);
            }
        }
    }
}

/// Whether a group of `gs` is of the entity of `e` and holds the id of `e`.
pub open spec fn held_by_group(gs: Seq<UpsertGroup>, e: OutboxEvent) -> bool {
    exists|j: int|
        0 <= j < gs.len() && same_entity(#[trigger] gs[j].event, e) && gs[j].event_ids@.contains(e.id)
}

/// Grouping loses no event: groups stand for distinct entities, and every event's
/// id is held by the group of its entity.
pub proof fn lemma_groups_cover_events(es: Seq<OutboxEvent>, gs: Seq<UpsertGroup>)
    requires
        groups_of(es, gs),
    ensures
        forall|i: int, j: int|
            0 <= i < j < gs.len() ==> !same_entity(#[trigger] gs[i].event, #[trigger] gs[j].event),
        forall|i: int| 0 <= i < es.len() ==> held_by_group(gs, #[trigger] es[i]),
{
    let fs = entity_firsts(es);
    lemma_entity_firsts(es);
    lemma_group_entities(es, gs);
    assert forall|i: int, j: int| 0 <= i < j < gs.len() implies !same_entity(
        #[trigger] gs[i].event,
        #[trigger] gs[j].event,
    ) by {
        if same_entity(gs[i].event, gs[j].event) {
            assert(same_entity(fs[i], fs[j]));
        }
    }
    assert forall|i: int| 0 <= i < es.len() implies held_by_group(gs, #[trigger] es[i]) by {
        lemma_entity_events_has(es, i);
        let r = entity_events(es, es[i]);
        assert(r.len() > 0);
        let m = choose|m: int| 0 <= m < fs.len() && same_entity(#[trigger] fs[m], es[i]);
        lemma_entity_events_same(es, fs[m], es[i]);
        let x = choose|x: int| 0 <= x < r.len() && r[x] == es[i];
        lemma_event_ids_index(r);
        assert(event_ids(r)[x] == es[i].id);
        assert(gs[m].event_ids@ == event_ids(entity_events(es, fs[m])));
        assert(gs[m].event_ids@[x] == es[i].id);
        assert(same_entity(gs[m].event, es[i]));
    }
}

/// The event kept for an entity has the highest version among its events, and
/// every later event of the entity has a lower version.
pub proof fn lemma_newest_event_is_latest(fs: Seq<OutboxEvent>)
    requires
        fs.len() > 0,
    ensures
        exists|j: int|
            0 <= j < fs.len() && #[trigger] fs[j] == newest_event(fs) && (forall|i: int|
                0 <= i < fs.len() ==> #[trigger] fs[i].entity_version <= newest_event(fs).entity_version)
                && (forall|i: int|
                j < i < fs.len() ==> #[trigger] fs[i].entity_version < newest_event(fs).entity_version),
    decreases fs.len(),
{
    if fs.len() == 1 {
        assert(fs[0] == newest_event(fs));
    } else {
        let p = fs.drop_last();
        lemma_newest_event_is_latest(p);
        let j = choose|j: int|
            0 <= j < p.len() && #[trigger] p[j] == newest_event(p) && (forall|i: int|
                0 <= i < p.len() ==> #[trigger] p[i].entity_version <= newest_event(p).entity_version)
                && (forall|i: int|
                j < i < p.len() ==> #[trigger] p[i].entity_version < newest_event(p).entity_version);
        let l = fs.len() - 1;
        if fs.last().entity_version >= newest_event(p).entity_version {
            assert(fs[l] == newest_event(fs));
            assert forall|i: int| 0 <= i < fs.len() implies #[trigger] fs[i].entity_version
                <= newest_event(fs).entity_version by {
                if i < l {
                    assert(fs[i] == p[i]);
                }
            }
        } else {
            assert(fs[j] == p[j]);
            assert forall|i: int| 0 <= i < fs.len() implies #[trigger] fs[i].entity_version
                <= newest_event(fs).entity_version by {
                if i < l {
                    assert(fs[i] == p[i]);
                }
            }
            assert forall|i: int| j < i < fs.len() implies #[trigger] fs[i].entity_version
                < newest_event(fs).entity_version by {
                if i < l {
                    assert(fs[i] == p[i]);
                }
            }
        }
    }
}

} // verus!
