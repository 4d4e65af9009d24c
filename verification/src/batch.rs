//! Decisions of outbox batch processing: which events are upserts, which are
//! stale, which documents to build, which versions to store, which claims to free.

use vstd::prelude::*;

use crate::document::{document_id, is_named_document, SearchDocument};
use crate::entity_type::{entity_type_named, unknown_entity_type_message, SearchEntityType};
use crate::outbox::{all_group_ids, stale_upsert, DocumentVersion, OutboxEvent, UpsertGroup};
use crate::text::{int_text, push_str, push_uint, str_eq};

verus! {

/// Whether an event is an upsert.
pub open spec fn is_upsert(e: OutboxEvent) -> bool {
    e.event_type@ == "upsert"@
}

/// The events of `es[..n]` that satisfy `upsert == want`, in order.
pub open spec fn events_of_kind(es: Seq<OutboxEvent>, want: bool, n: nat) -> Seq<OutboxEvent>
    decreases n,
{
    if n == 0 {
        seq![]
    } else if is_upsert(es[n - 1]) == want {
        events_of_kind(es, want, (n - 1) as nat).push(es[n - 1])
    } else {
        events_of_kind(es, want, (n - 1) as nat)
    }
}

fn is_upsert_event(e: &OutboxEvent) -> (r: bool)
    ensures
        r == is_upsert(*e),
{
    str_eq(e.event_type.as_str(), "upsert")
}

/// Splits a claimed batch into its upserts and its other events, each in order.
pub fn split_by_kind(events: &[OutboxEvent]) -> (r: (Vec<OutboxEvent>, Vec<OutboxEvent>))
    ensures
        r.0@ == events_of_kind(events@, true, events@.len()),
        r.1@ == events_of_kind(events@, false, events@.len()),
{
    let mut upserts: Vec<OutboxEvent> = Vec::new();
    let mut others: Vec<OutboxEvent> = Vec::new();
    let mut n: usize = 0;
    while n < events.len()
        invariant
            n <= events.len(),
            upserts@ == events_of_kind(events@, true, n as nat),
            others@ == events_of_kind(events@, false, n as nat),
        decreases events.len() - n,
    {
        let e = &events[n];
        if is_upsert_event(e) {
            upserts.push(e.copy());
        } else {
            others.push(e.copy());
        }
        n = n + 1;
    }
    (upserts, others)
}

/// What to do with one event.
#[derive(Clone, Copy, Debug, PartialEq, Eq, Structural)]
pub enum EventAction {
    /// Index the entity's document.
    Upsert,
    /// Remove the entity's document.
    Delete,
    /// An unknown event type: nothing to do.
    Ignore,
}

pub open spec fn action_of(event_type: Seq<char>) -> EventAction {
    if event_type == "upsert"@ {
        EventAction::Upsert
    } else if event_type == "delete"@ {
        EventAction::Delete
    } else {
        EventAction::Ignore
    }
}

pub fn event_action(event_type: &str) -> (r: EventAction)
    ensures
        r == action_of(event_type@),
{
    if str_eq(event_type, "upsert") {
        EventAction::Upsert
    } else if str_eq(event_type, "delete") {
        EventAction::Delete
    } else {
        EventAction::Ignore
    }
}

/// Whether the stored version `v` makes upsert `e` stale.
pub open spec fn stale_against(e: OutboxEvent, v: Option<DocumentVersion>) -> bool {
    match v {
        Some(c) => stale_upsert(e.entity_version, c),
        None => false,
    }
}

/// Ids of the stale upserts among the first `n` events.
pub open spec fn stale_ids(es: Seq<OutboxEvent>, vs: Seq<Option<DocumentVersion>>, n: nat) -> Seq<i64>
    decreases n,
{
    if n == 0 {
        seq![]
    } else if stale_against(es[n - 1], vs[n - 1]) {
        stale_ids(es, vs, (n - 1) as nat).push(es[n - 1].id)
    } else {
        stale_ids(es, vs, (n - 1) as nat)
    }
}

/// The upserts among the first `n` events that are not stale, in order.
pub open spec fn fresh_events(
    es: Seq<OutboxEvent>,
    vs: Seq<Option<DocumentVersion>>,
    n: nat,
) -> Seq<OutboxEvent>
    decreases n,
{
    if n == 0 {
        seq![]
    } else if stale_against(es[n - 1], vs[n - 1]) {
        fresh_events(es, vs, (n - 1) as nat)
    } else {
        fresh_events(es, vs, (n - 1) as nat).push(es[n - 1])
    }
}

/// Splits upserts by the stored version of each (`versions[i]` for `events[i]`):
/// the ids of those already covered, and the events still to index.
pub fn split_stale(events: &[OutboxEvent], versions: &[Option<DocumentVersion>]) -> (r: (
    Vec<i64>,
    Vec<OutboxEvent>,
))
    requires
        events.len() == versions.len(),
    ensures
        r.0@ == stale_ids(events@, versions@, events@.len()),
        r.1@ == fresh_events(events@, versions@, events@.len()),
{
    let mut stale: Vec<i64> = Vec::new();
    let mut fresh: Vec<OutboxEvent> = Vec::new();
    let mut n: usize = 0;
    while n < events.len()
        invariant
            n <= events.len(),
            events.len() == versions.len(),
            stale@ == stale_ids(events@, versions@, n as nat),
            fresh@ == fresh_events(events@, versions@, n as nat),
        decreases events.len() - n,
    {
        let e = &events[n];
        let is_stale = match &versions[n] {
            Some(current) => crate::outbox::is_stale_upsert(e.entity_version, current),
            None => false,
        };
        if is_stale {
            stale.push(e.id);
        } else {
            fresh.push(e.copy());
        }
        n = n + 1;
    }
    (stale, fresh)
}

/// Whether a group is of records.
pub open spec fn is_record_group(g: UpsertGroup) -> bool {
    g.event.entity_type@ == "record"@
}

fn is_record_group_exec(g: &UpsertGroup) -> (r: bool)
    ensures
        r == is_record_group(*g),
{
    str_eq(g.event.entity_type.as_str(), "record")
}

/// The events of the record groups (`want`) or of the other groups among the first `n`.
pub open spec fn group_events(gs: Seq<UpsertGroup>, want: bool, n: nat) -> Seq<OutboxEvent>
    decreases n,
{
    if n == 0 {
        seq![]
    } else if is_record_group(gs[n - 1]) == want {
        group_events(gs, want, (n - 1) as nat).push(gs[n - 1].event)
    } else {
        group_events(gs, want, (n - 1) as nat)
    }
}

/// The record documents to load: entity id and version of each record group, in order.
pub fn record_inputs(groups: &[UpsertGroup]) -> (r: Vec<(String, i64)>)
    ensures
        r@.len() == group_events(groups@, true, groups@.len()).len(),
        forall|i: int|
            0 <= i < r@.len() ==> #[trigger] r@[i].0 == group_events(groups@, true, groups@.len())[i].entity_id
                && r@[i].1 == group_events(groups@, true, groups@.len())[i].entity_version,
{
    let mut r: Vec<(String, i64)> = Vec::new();
    let mut n: usize = 0;
    while n < groups.len()
        invariant
            n <= groups.len(),
            r@.len() == group_events(groups@, true, n as nat).len(),
            forall|i: int|
                0 <= i < r@.len() ==> #[trigger] r@[i].0 == group_events(groups@, true, n as nat)[i].entity_id
                    && r@[i].1 == group_events(groups@, true, n as nat)[i].entity_version,
        decreases groups.len() - n,
    {
        let g = &groups[n];
        if is_record_group_exec(g) {
            let e = g.event.copy();
            r.push((e.entity_id, e.entity_version));
        }
        n = n + 1;
    }
    assert(n as nat == groups@.len());
    r
}

/// The text of the named-document builder's refusal of a record event.
pub open spec fn record_refused_message() -> Seq<char> {
    "record event passed to named document builder"@
}

/// The title of a named entity: the payload's `name`, or empty.
pub open spec fn payload_title(e: OutboxEvent) -> Seq<char> {
    match e.payload_name {
        Some(n) => n@,
        None => seq![],
    }
}

/// What building the document of a named-entity event gives: the document,
/// or the reason it cannot be built.
pub open spec fn named_document_outcome(e: OutboxEvent, r: Result<SearchDocument, String>) -> bool {
    match entity_type_named(e.entity_type@) {
        None => r matches Err(m) && m@ == unknown_entity_type_message(e.entity_type@),
        Some(SearchEntityType::Record) => r matches Err(m) && m@ == record_refused_message(),
        Some(t) => r matches Ok(d) && is_named_document(
            d,
            t,
            e.entity_type@,
            e.entity_id@,
            e.entity_version,
            payload_title(e),
        ),
    }
}

/// Whether the document of a named-entity event can be built: its type is known and not record.
pub open spec fn builds_named_document(e: OutboxEvent) -> bool {
    entity_type_named(e.entity_type@) matches Some(t) && t != SearchEntityType::Record
}

/// Builds the index document of a named entity (idol, director, ...) from its event.
pub fn construct_named_document(event: &OutboxEvent) -> (r: Result<SearchDocument, String>)
    ensures
        named_document_outcome(*event, r),
{
    let entity_type = match SearchEntityType::parse(event.entity_type.as_str()) {
        Ok(t) => t,
        Err(e) => {
            return Err(e);
        },
    };
    if entity_type == SearchEntityType::Record {
        let mut m = String::new();
        push_str(&mut m, "record event passed to named document builder");
        return Err(m);
    }
    let title = match &event.payload_name {
        Some(n) => n.clone(),
        None => String::new(),
    };
    let doc = SearchDocument {
        doc_id: document_id(event.entity_type.as_str(), event.entity_id.as_str()),
        title,
        entity_type,
        entity_id: event.entity_id.clone(),
        entity_version: event.entity_version,
        permission: 0,
        date: None,
        duration: None,
        director_name: None,
        studio_name: None,
        label_name: None,
        series_name: None,
        genre_names: None,
        idol_names: None,
    };
    Ok(doc)
}

/// Builds the documents of the named-entity groups, in order; the first event that
/// cannot be built stops it with its reason.
pub fn named_documents(groups: &[UpsertGroup]) -> (r: Result<Vec<SearchDocument>, String>)
    ensures
        ({
            let ns = group_events(groups@, false, groups@.len());
            match r {
                Ok(ds) => ds@.len() == ns.len() && forall|i: int|
                    0 <= i < ns.len() ==> named_document_outcome(
                        #[trigger] ns[i],
                        Ok::<SearchDocument, String>(ds@[i]),
                    ),
                Err(m) => exists|i: int|
                    0 <= i < ns.len() && named_document_outcome(
                        #[trigger] ns[i],
                        Err::<SearchDocument, String>(m),
                    ) && forall|j: int| 0 <= j < i ==> builds_named_document(#[trigger] ns[j]),
            }
        }),
{
    let mut docs: Vec<SearchDocument> = Vec::new();
    let mut n: usize = 0;
    while n < groups.len()
        invariant
            n <= groups.len(),
            docs@.len() == group_events(groups@, false, n as nat).len(),
            forall|i: int|
                0 <= i < docs@.len() ==> named_document_outcome(
                    #[trigger] group_events(groups@, false, n as nat)[i],
                    Ok::<SearchDocument, String>(docs@[i]),
                ),
        decreases groups.len() - n,
    {
        let g = &groups[n];
        let ghost before = group_events(groups@, false, n as nat);
        if !is_record_group_exec(g) {
            match construct_named_document(&g.event) {
                Ok(d) => {
                    docs.push(d);
                },
                Err(m) => {
                    proof {
                        let ns = group_events(groups@, false, groups@.len());
                        lemma_group_events_prefix(groups@, false, (n + 1) as nat, groups@.len());
                        let k = before.len() as int;
                        assert(ns[k] == g.event);
                        assert forall|j: int| 0 <= j < k implies builds_named_document(#[trigger] ns[j]) by {
                            assert(ns[j] == before[j]);
                            assert(named_document_outcome(before[j], Ok::<SearchDocument, String>(docs@[j])));
                        }
                        assert(named_document_outcome(ns[k], Err::<SearchDocument, String>(m)));
                        assert(0 <= k < ns.len());
                    }
                    return Err(m);
                },
            }
        }
        proof {
            let after = group_events(groups@, false, (n + 1) as nat);
            assert forall|i: int| 0 <= i < docs@.len() implies named_document_outcome(
                #[trigger] after[i],
                Ok::<SearchDocument, String>(docs@[i]),
            ) by {
                if i < before.len() {
                    assert(after[i] == before[i]);
                }
            }
        }
        n = n + 1;
    }
    Ok(docs)
}

proof fn lemma_group_events_prefix(gs: Seq<UpsertGroup>, want: bool, m: nat, n: nat)
    requires
        m <= n <= gs.len(),
    ensures
        group_events(gs, want, m).len() <= group_events(gs, want, n).len(),
        forall|i: int|
            0 <= i < group_events(gs, want, m).len() ==> #[trigger] group_events(gs, want, n)[i]
                == group_events(gs, want, m)[i],
    decreases n - m,
{
    if m < n {
        lemma_group_events_prefix(gs, want, m, (n - 1) as nat);
    }
}

/// The refusal of a record batch whose documents could not all be loaded.
pub open spec fn record_count_message(requested: nat, found: nat) -> Seq<char> {
    "Could not construct all record documents: requested="@ + int_text(requested as int)
        + ", found="@ + int_text(found as int)
}

/// Accepts the loaded record documents only when every requested one was found.
pub fn check_record_documents(requested: usize, found: usize) -> (r: Result<(), String>)
    ensures
        requested == found <==> r is Ok,
        r matches Err(m) ==> m@ == record_count_message(requested as nat, found as nat),
{
    if requested == found {
        return Ok(());
    }
    let mut m = String::new();
    push_str(&mut m, "Could not construct all record documents: requested=");
    push_uint(&mut m, requested as u64);
    push_str(&mut m, ", found=");
    push_uint(&mut m, found as u64);
    Err(m)
}

/// The versions to store after indexing: type, id and version of each group
/// whose version is positive, in order.
pub open spec fn versioned_events(gs: Seq<UpsertGroup>, n: nat) -> Seq<OutboxEvent>
    decreases n,
{
    if n == 0 {
        seq![]
    } else if gs[n - 1].event.entity_version > 0 {
        versioned_events(gs, (n - 1) as nat).push(gs[n - 1].event)
    } else {
        versioned_events(gs, (n - 1) as nat)
    }
}

pub fn versions_to_store(groups: &[UpsertGroup]) -> (r: Vec<(String, String, i64)>)
    ensures
        r@.len() == versioned_events(groups@, groups@.len()).len(),
        forall|i: int|
            0 <= i < r@.len() ==> {
                let e = #[trigger] versioned_events(groups@, groups@.len())[i];
                r@[i].0 == e.entity_type && r@[i].1 == e.entity_id && r@[i].2 == e.entity_version
            },
{
    let mut r: Vec<(String, String, i64)> = Vec::new();
    let mut n: usize = 0;
    while n < groups.len()
        invariant
            n <= groups.len(),
            r@.len() == versioned_events(groups@, n as nat).len(),
            forall|i: int|
                0 <= i < r@.len() ==> {
                    let e = #[trigger] versioned_events(groups@, n as nat)[i];
                    r@[i].0 == e.entity_type && r@[i].1 == e.entity_id && r@[i].2 == e.entity_version
                },
        decreases groups.len() - n,
    {
        let g = &groups[n];
        if g.event.entity_version > 0 {
            let e = g.event.copy();
            r.push((e.entity_type, e.entity_id, e.entity_version));
        }
        n = n + 1;
    }
    r
}

/// Appends the ids of every event of `groups` to `processed`, group by group.
pub fn extend_with_group_ids(processed: &mut Vec<i64>, groups: &[UpsertGroup])
    ensures
        final(processed)@ == old(processed)@ + all_group_ids(groups@, groups@.len()),
{
    let mut n: usize = 0;
    while n < groups.len()
        invariant
            n <= groups.len(),
            processed@ == old(processed)@ + all_group_ids(groups@, n as nat),
        decreases groups.len() - n,
    {
        let ids = &groups[n].event_ids;
        let mut k: usize = 0;
        let ghost start = processed@;
        while k < ids.len()
            invariant
                k <= ids.len(),
                processed@ == start + ids@.take(k as int),
            decreases ids.len() - k,
        {
            processed.push(ids[k]);
            k = k + 1;
            assert(ids@.take(k as int) =~= ids@.take(k - 1).push(ids@[k - 1]));
        }
        assert(ids@.take(ids.len() as int) =~= ids@);
        n = n + 1;
    }
}

/// Positions of the record documents, in order.
pub open spec fn record_positions_upto(docs: Seq<SearchDocument>, n: nat) -> Seq<usize>
    decreases n,
{
    if n == 0 {
        seq![]
    } else if docs[n - 1].entity_type == SearchEntityType::Record {
        record_positions_upto(docs, (n - 1) as nat).push((n - 1) as usize)
    } else {
        record_positions_upto(docs, (n - 1) as nat)
    }
}

/// The positions of the record documents, which get embeddings.
pub fn record_positions(docs: &[SearchDocument]) -> (r: Vec<usize>)
    ensures
        r@ == record_positions_upto(docs@, docs@.len()),
{
    let mut r: Vec<usize> = Vec::new();
    let mut n: usize = 0;
    while n < docs.len()
        invariant
            n <= docs.len(),
            r@ == record_positions_upto(docs@, n as nat),
        decreases docs.len() - n,
    {
        if docs[n].entity_type == SearchEntityType::Record {
            r.push(n);
        }
        n = n + 1;
    }
    r
}

/// Whether a delete event is older than the stored version and can be skipped.
pub open spec fn stale_delete(event_version: i64, current: Option<DocumentVersion>) -> bool {
    match current {
        Some(c) => event_version > 0 && event_version < c.last_version,
        None => false,
    }
}

pub fn is_stale_delete(event_version: i64, current: &Option<DocumentVersion>) -> (r: bool)
    ensures
        r == stale_delete(event_version, *current),
{
    match current {
        Some(c) => event_version > 0 && event_version < c.last_version,
        None => false,
    }
}

/// Result of processing one claimed outbox batch.
pub struct BatchProcessOutcome {
    pub processed_ids: Vec<i64>,
    pub failures: Vec<(i64, String)>,
}

impl BatchProcessOutcome {
    pub fn new() -> (r: BatchProcessOutcome)
        ensures
            r.processed_ids@ == Seq::<i64>::empty(),
            r.failures@ == Seq::<(i64, String)>::empty(),
    {
        BatchProcessOutcome { processed_ids: Vec::new(), failures: Vec::new() }
    }

    /// Records the result of the shared upsert task: its processed ids, or the
    /// same failure for every upsert of the batch.
    pub fn record_upserts(&mut self, upserts: &[OutboxEvent], result: Result<Vec<i64>, String>)
        ensures
            match result {
                Ok(ids) => final(self).processed_ids@ == old(self).processed_ids@ + ids@
                    && final(self).failures@ == old(self).failures@,
                Err(m) => final(self).processed_ids@ == old(self).processed_ids@
                    && final(self).failures@.len() == old(self).failures@.len() + upserts@.len()
                    && (forall|i: int|
                    0 <= i < old(self).failures@.len() ==> #[trigger] final(self).failures@[i]
                        == old(self).failures@[i]) && (forall|i: int|
                    0 <= i < upserts@.len() ==> #[trigger] final(self).failures@[old(
                        self,
                    ).failures@.len() + i] == (upserts@[i].id, m)),
            },
    {
        match result {
            Ok(ids) => {
                let mut k: usize = 0;
                let ghost start = self.processed_ids@;
                while k < ids.len()
                    invariant
                        k <= ids.len(),
                        self.processed_ids@ == start + ids@.take(k as int),
                        self.failures@ == old(self).failures@,
                        start == old(self).processed_ids@,
                    decreases ids.len() - k,
                {
                    self.processed_ids.push(ids[k]);
                    k = k + 1;
                    assert(ids@.take(k as int) =~= ids@.take(k - 1).push(ids@[k - 1]));
                }
                assert(ids@.take(ids.len() as int) =~= ids@);
            },
            Err(m) => {
                let mut k: usize = 0;
                while k < upserts.len()
                    invariant
                        k <= upserts.len(),
                        self.processed_ids@ == old(self).processed_ids@,
                        self.failures@.len() == old(self).failures@.len() + k,
                        forall|i: int|
                            0 <= i < old(self).failures@.len() ==> #[trigger] self.failures@[i]
                                == old(self).failures@[i],
                        forall|i: int|
                            0 <= i < k ==> #[trigger] self.failures@[old(self).failures@.len() + i]
                                == (upserts@[i].id, m),
                    decreases upserts.len() - k,
                {
                    self.failures.push((upserts[k].id, m.clone()));
                    k = k + 1;
                }
            },
        }
    }

    /// Records the result of one event processed on its own.
    pub fn record_event(&mut self, event_id: i64, result: Result<(), String>)
        ensures
            match result {
                Ok(()) => final(self).processed_ids@ == old(self).processed_ids@.push(event_id)
                    && final(self).failures@ == old(self).failures@,
                Err(m) => final(self).processed_ids@ == old(self).processed_ids@
                    && final(self).failures@ == old(self).failures@.push((event_id, m)),
            },
    {
        match result {
            Ok(()) => self.processed_ids.push(event_id),
            Err(m) => self.failures.push((event_id, m)),
        }
    }
}

/// The ids of the failed events, in order.
pub open spec fn failure_ids(fs: Seq<(i64, String)>) -> Seq<i64>
    decreases fs.len(),
{
    if fs.len() == 0 {
        seq![]
    } else {
        failure_ids(fs.drop_last()).push(fs.last().0)
    }
}

/// After a batch: the claims to release, and whether the batch went through.
/// When marking the processed events failed (`marked` false), every claim of the
/// batch is released; otherwise only the failed events' claims.
pub fn claims_to_release(outcome: &BatchProcessOutcome, marked: bool) -> (r: (Vec<i64>, bool))
    ensures
        r.0@ == (if marked {
            failure_ids(outcome.failures@)
        } else {
            outcome.processed_ids@ + failure_ids(outcome.failures@)
        }),
        r.1 == (marked && outcome.failures@.len() == 0),
{
    let mut ids: Vec<i64> = Vec::new();
    if !marked {
        let mut k: usize = 0;
        while k < outcome.processed_ids.len()
            invariant
                k <= outcome.processed_ids.len(),
                ids@ == outcome.processed_ids@.take(k as int),
            decreases outcome.processed_ids.len() - k,
        {
            ids.push(outcome.processed_ids[k]);
            k = k + 1;
            assert(outcome.processed_ids@.take(k as int) =~= outcome.processed_ids@.take(k - 1).push(
                outcome.processed_ids@[k - 1],
            ));
        }
        assert(outcome.processed_ids@.take(outcome.processed_ids.len() as int)
            =~= outcome.processed_ids@);
    }
    let ghost start = ids@;
    let mut k: usize = 0;
    while k < outcome.failures.len()
        invariant
            k <= outcome.failures.len(),
            ids@ == start + failure_ids(outcome.failures@.take(k as int)),
        decreases outcome.failures.len() - k,
    {
        ids.push(outcome.failures[k].0);
        proof {
            assert(outcome.failures@.take(k + 1).drop_last() =~= outcome.failures@.take(k as int));
        }
        k = k + 1;
    }
    assert(outcome.failures@.take(outcome.failures.len() as int) =~= outcome.failures@);
    assert(start + failure_ids(seq![]) =~= start);
    (ids, marked && outcome.failures.len() == 0)
}

} // verus!
