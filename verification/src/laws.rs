//! Properties that hold across the operations of the library.

use vstd::prelude::*;

use crate::affinity::{affinity_binds, affinity_clauses, text_filter_applies, AffinityBind, NamedEntitySearch};
use crate::batch::record_positions_upto;
use crate::document::SearchDocument;
use crate::entity_type::SearchEntityType;
use crate::links::{link_action_of, LinkAction, StoredLink, SubmittedLink};
use crate::pagination::{page_count_of, page_number_of};
use crate::search::{effective_limit, effective_offset};
use crate::embedding::trim_trailing_slashes;
use crate::links::{created_positions, link_created};
use crate::loader::{all_digits, digits_value, parse_i64_of};
use crate::batch::{events_of_kind, fresh_events, stale_against, stale_ids};
use crate::outbox::{all_group_ids, event_ids, stale_upsert, DocumentVersion, OutboxEvent, UpsertGroup};
use crate::pagination::previous_offset;
use crate::settings::{
    array_matches, embedder_matches, filterable_attribute_names, searchable_attribute_names,
};
use crate::sorted::holds;
use crate::text::{decimal_digits, digit_char, int_text, trim};
use crate::window::page_of;

verus! {

/// Repairing the index with the differences makes it hold exactly the database's
/// ids: indexing the missing ids and deleting the ghosts leaves neither kind.
pub proof fn lemma_repair_makes_sets_equal(
    database_ids: Seq<String>,
    index_ids: Seq<String>,
    missing: Seq<String>,
    ghosts: Seq<String>,
)
    requires
        forall|y: Seq<char>| holds(missing, y) <==> (holds(database_ids, y) && !holds(index_ids, y)),
        forall|y: Seq<char>| holds(ghosts, y) <==> (holds(index_ids, y) && !holds(database_ids, y)),
    ensures
        forall|y: Seq<char>|
            ((holds(index_ids, y) || holds(missing, y)) && !holds(ghosts, y)) <==> holds(database_ids, y),
{
}

/// Going to the next page and back returns to the page one started from.
pub proof fn lemma_next_then_previous(offset: u64, page_size: u64)
    requires
        offset + page_size <= u64::MAX,
    ensures
        previous_offset((offset + page_size) as u64, page_size) == offset,
{
}

/// Two consecutive pages together are the page as long as both.
pub proof fn lemma_pages_concatenate<T>(items: Seq<T>, offset: int, a: int, b: int)
    requires
        0 <= offset,
        0 <= a,
        0 <= b,
    ensures
        page_of(items, offset, a) + page_of(items, offset + a, b) == page_of(items, offset, a + b),
{
    let n = items.len() as int;
    if offset >= n {
        assert(page_of(items, offset, a) + page_of(items, offset + a, b) =~= Seq::<T>::empty());
    } else if a < n - offset {
        if b < n - offset - a {
            assert(items.subrange(offset, offset + a) + items.subrange(offset + a, offset + a + b)
                =~= items.subrange(offset, offset + a + b));
        } else {
            assert(items.subrange(offset, offset + a) + items.subrange(offset + a, n) =~= items.subrange(
                offset,
                n,
            ));
        }
    } else {
        assert(page_of(items, offset + a, b) =~= Seq::<T>::empty());
        assert(page_of(items, offset, a) + Seq::<T>::empty() =~= page_of(items, offset, a));
    }
}

/// Stored settings that are the desired ones call for no update.
pub proof fn lemma_desired_settings_need_no_update(
    searchable: Option<Vec<Option<String>>>,
    filterable: Option<Vec<Option<String>>>,
)
    requires
        searchable matches Some(v) && v@.len() == searchable_attribute_names().len() && forall|i: int|
            0 <= i < v@.len() ==> (#[trigger] v@[i] matches Some(s) && s@ == searchable_attribute_names()[i]),
        filterable matches Some(v) && v@.len() == filterable_attribute_names().len() && forall|i: int|
            0 <= i < v@.len() ==> (#[trigger] v@[i] matches Some(s) && s@ == filterable_attribute_names()[i]),
    ensures
        array_matches(searchable, searchable_attribute_names()),
        array_matches(filterable, filterable_attribute_names()),
{
}

/// A version-0 upsert is a fan-out hint and is never stale; a real version is
/// stale against a deleted entity, and otherwise exactly when it is older.
pub proof fn lemma_stale_upserts(version: i64, current: DocumentVersion)
    ensures
        version == 0 ==> !stale_upsert(version, current),
        version > 0 && current.is_deleted ==> stale_upsert(version, current),
        version > 0 && !current.is_deleted ==> (stale_upsert(version, current) <==> version
            < current.last_version),
{
}

proof fn lemma_created_increasing(us: Seq<Seq<char>>, n: nat)
    requires
        n <= us.len() <= usize::MAX,
    ensures
        forall|k: int|
            0 <= k < created_positions(us, n).len() ==> link_created(us, #[trigger] created_positions(us, n)[k] as int)
                && created_positions(us, n)[k] < n,
        forall|k1: int, k2: int|
            0 <= k1 < k2 < created_positions(us, n).len() ==> #[trigger] created_positions(us, n)[k1]
                < #[trigger] created_positions(us, n)[k2],
    decreases n,
{
    if n > 0 {
        let m = (n - 1) as nat;
        lemma_created_increasing(us, m);
        let p = created_positions(us, m);
        let c = created_positions(us, n);
        assert forall|k: int| 0 <= k < c.len() implies link_created(us, #[trigger] c[k] as int) && c[k] < n by {
            if k < p.len() {
                assert(c[k] == p[k]);
            }
        }
        assert forall|k1: int, k2: int| 0 <= k1 < k2 < c.len() implies #[trigger] c[k1] < #[trigger] c[k2] by {
            if k2 < p.len() {
                assert(c[k1] == p[k1] && c[k2] == p[k2]);
            } else {
                assert(c[k1] == p[k1]);
            }
        }
    }
}

/// The links stored for a new record have distinct trimmed URLs.
pub proof fn lemma_created_links_distinct(urls: Seq<Seq<char>>)
    requires
        urls.len() <= usize::MAX,
    ensures
        forall|k1: int, k2: int|
            0 <= k1 < k2 < created_positions(urls, urls.len()).len() ==> trim(
                urls[#[trigger] created_positions(urls, urls.len())[k1] as int],
            ) != trim(urls[#[trigger] created_positions(urls, urls.len())[k2] as int]),
{
    let c = created_positions(urls, urls.len());
    lemma_created_increasing(urls, urls.len());
    assert forall|k1: int, k2: int| 0 <= k1 < k2 < c.len() implies trim(urls[#[trigger] c[k1] as int]) != trim(
        urls[#[trigger] c[k2] as int],
    ) by {
        assert(link_created(urls, c[k2] as int));
        assert(c[k1] < c[k2]);
        let j = c[k1] as int;
        assert(trim(urls[j]) != trim(urls[c[k2] as int]));
    }
}

/// The base URL of the embedding service keeps no trailing slash, and stripping
/// again changes nothing.
pub proof fn lemma_trailing_slashes_gone(s: Seq<char>)
    ensures
        trim_trailing_slashes(s).len() == 0 || trim_trailing_slashes(s).last() != '/',
        trim_trailing_slashes(trim_trailing_slashes(s)) == trim_trailing_slashes(s),
    decreases s.len(),
{
    if s.len() > 0 && s.last() == '/' {
        lemma_trailing_slashes_gone(s.drop_last());
    }
}

proof fn lemma_digit_char_value(d: nat)
    requires
        d < 10,
    ensures
        '0' <= digit_char(d) <= '9',
        digit_char(d) as int - '0' as int == d,
{
}

proof fn lemma_decimal_value(n: nat)
    ensures
        all_digits(decimal_digits(n)),
        decimal_digits(n).len() > 0,
        digits_value(decimal_digits(n)) == n,
        decimal_digits(n)[0] != '-' && decimal_digits(n)[0] != '+',
    decreases n,
{
    if n < 10 {
        lemma_digit_char_value(n);
        assert(seq![digit_char(n)].drop_last() =~= Seq::<char>::empty());
        assert(digits_value(Seq::<char>::empty()) == 0);
    } else {
        lemma_decimal_value(n / 10);
        lemma_digit_char_value(n % 10);
        let d = decimal_digits(n);
        assert(d.drop_last() =~= decimal_digits(n / 10));
        assert(all_digits(d)) by {
            assert forall|i: int| 0 <= i < d.len() implies '0' <= #[trigger] d[i] <= '9' by {
                if i < d.len() - 1 {
                    assert(d[i] == decimal_digits(n / 10)[i]);
                }
            }
        }
        assert(d[0] == decimal_digits(n / 10)[0]);
        assert(digits_value(d) == digits_value(decimal_digits(n / 10)) * 10 + (d.last() as int - '0' as int));
        assert((n / 10) * 10 + n % 10 == n) by (nonlinear_arith);
    }
}

/// Entity ids written in decimal parse back to the same number: the ids that
/// named-entity documents carry are read back by the document builder.
pub proof fn lemma_decimal_ids_parse_back(n: i64)
    ensures
        parse_i64_of(int_text(n as int)) == Ok::<i64, crate::loader::IntParseError>(n),
{
    if n < 0 {
        let m = (-(n as int)) as nat;
        lemma_decimal_value(m);
        let t = int_text(n as int);
        assert(t.drop_first() =~= decimal_digits(m));
        assert(t[0] == '-');
    } else {
        lemma_decimal_value(n as nat);
    }
}

proof fn lemma_stale_split_ids(es: Seq<OutboxEvent>, vs: Seq<Option<DocumentVersion>>, n: nat)
    requires
        n <= es.len(),
        es.len() == vs.len(),
    ensures
        event_ids(es.take(n as int)).to_multiset() == stale_ids(es, vs, n).to_multiset().add(
            event_ids(fresh_events(es, vs, n)).to_multiset(),
        ),
    decreases n,
{
    broadcast use vstd::seq_lib::group_to_multiset_ensures;
    broadcast use vstd::multiset::group_multiset_axioms;

    if n == 0 {
        assert(es.take(0) =~= Seq::<OutboxEvent>::empty());
        assert(event_ids(Seq::<OutboxEvent>::empty()) =~= Seq::<i64>::empty());
        assert(stale_ids(es, vs, 0).to_multiset() =~= vstd::multiset::Multiset::empty());
        assert(fresh_events(es, vs, 0) =~= Seq::<OutboxEvent>::empty());
        assert(event_ids(es.take(0)).to_multiset() =~= stale_ids(es, vs, 0).to_multiset().add(
            event_ids(fresh_events(es, vs, 0)).to_multiset(),
        ));
    } else {
        let m = (n - 1) as nat;
        lemma_stale_split_ids(es, vs, m);
        let e = es[m as int];
        assert(es.take(n as int) =~= es.take(m as int).push(e));
        assert(es.take(n as int).drop_last() =~= es.take(m as int));
        assert(event_ids(es.take(n as int)) == event_ids(es.take(m as int)).push(e.id));
        if stale_against(e, vs[m as int]) {
            assert(stale_ids(es, vs, n) == stale_ids(es, vs, m).push(e.id));
            assert(fresh_events(es, vs, n) == fresh_events(es, vs, m));
        } else {
            let f = fresh_events(es, vs, m);
            assert(fresh_events(es, vs, n) == f.push(e));
            assert(f.push(e).drop_last() =~= f);
            assert(event_ids(f.push(e)) == event_ids(f).push(e.id));
        }
        assert(event_ids(es.take(n as int)).to_multiset() =~= stale_ids(es, vs, n).to_multiset().add(
            event_ids(fresh_events(es, vs, n)).to_multiset(),
        ));
    }
}

/// Every upsert of a batch is acknowledged exactly once: the ids of the stale
/// upserts and the ids held by the groups of the fresh ones are, together, the
/// ids of the upserts.
pub proof fn lemma_upserts_acknowledged_once(
    es: Seq<OutboxEvent>,
    vs: Seq<Option<DocumentVersion>>,
    gs: Seq<UpsertGroup>,
)
    requires
        es.len() == vs.len(),
        all_group_ids(gs, gs.len()).to_multiset() == event_ids(fresh_events(es, vs, es.len())).to_multiset(),
    ensures
        (stale_ids(es, vs, es.len()) + all_group_ids(gs, gs.len())).to_multiset() == event_ids(es).to_multiset(),
{
    lemma_stale_split_ids(es, vs, es.len());
    assert(es.take(es.len() as int) =~= es);
    vstd::seq_lib::lemma_multiset_commutative(stale_ids(es, vs, es.len()), all_group_ids(gs, gs.len()));
}

/// Splitting a batch by kind loses and duplicates no event: the upserts and the
/// other events together are the batch.
pub proof fn lemma_kinds_partition_batch(es: Seq<OutboxEvent>, n: nat)
    requires
        n <= es.len(),
    ensures
        (events_of_kind(es, true, n) + events_of_kind(es, false, n)).to_multiset() == es.take(
            n as int,
        ).to_multiset(),
    decreases n,
{
    broadcast use vstd::seq_lib::group_to_multiset_ensures;
    broadcast use vstd::multiset::group_multiset_axioms;

    let u = events_of_kind(es, true, n);
    let o = events_of_kind(es, false, n);
    vstd::seq_lib::lemma_multiset_commutative(u, o);
    if n == 0 {
        assert(es.take(0) =~= Seq::<OutboxEvent>::empty());
        assert(u.to_multiset() =~= vstd::multiset::Multiset::empty());
        assert(o.to_multiset() =~= vstd::multiset::Multiset::empty());
    } else {
        let m = (n - 1) as nat;
        lemma_kinds_partition_batch(es, m);
        let pu = events_of_kind(es, true, m);
        let po = events_of_kind(es, false, m);
        vstd::seq_lib::lemma_multiset_commutative(pu, po);
        assert(es.take(n as int) =~= es.take(m as int).push(es[m as int]));
    }
}

/// The count and the page of the affinity listing filter alike: numbering the
/// placeholders from another start changes neither the clauses kept nor the binds.
pub proof fn lemma_affinity_filter_numbering(s: NamedEntitySearch, p: nat, q: nat)
    ensures
        affinity_clauses(s, p).len() == affinity_clauses(s, q).len(),
{
}

/// The page size of a search request is the requested limit whenever that is at
/// least 1, with no upper bound; a smaller limit gives 1 and no limit gives 20.
pub proof fn lemma_requested_limit_kept(limit: Option<i64>)
    ensures
        effective_limit(limit) >= 1,
        limit matches Some(l) ==> (l >= 1 ==> effective_limit(limit) == l),
        limit matches Some(l) ==> (l < 1 ==> effective_limit(limit) == 1),
        limit is None ==> effective_limit(limit) == 20,
{
}

/// A listing page starts at `page_size` times its number: the page number of an
/// offset `o >= 0` is `o / page_size`, so an offset that is `k` whole pages in
/// gives page `k`, and a negative or absent offset gives page 0.
pub proof fn lemma_page_number_of_offset(o: i64, page_size: u64, k: nat)
    requires
        page_size > 0,
    ensures
        o >= 0 ==> page_number_of(Some(o), page_size) * page_size <= o < (page_number_of(
            Some(o),
            page_size,
        ) + 1) * page_size,
        o >= 0 && o == k * page_size ==> page_number_of(Some(o), page_size) == k,
        o < 0 ==> page_number_of(Some(o), page_size) == 0,
        page_number_of(None, page_size) == 0,
{
    if o >= 0 {
        let q = page_number_of(Some(o), page_size);
        assert(q == (o as int) / (page_size as int));
        assert(q * page_size <= o < (q + 1) * page_size) by (nonlinear_arith)
            requires
                q == (o as int) / (page_size as int),
                page_size > 0,
                o >= 0,
        ;
        if o == k * page_size {
            assert(q == k) by (nonlinear_arith)
                requires
                    q * page_size <= o < (q + 1) * page_size,
                    o == k * page_size,
                    page_size > 0,
            ;
        }
    }
}

/// Merging a submitted link whose URL is stored (at `k`, its first occurrence)
/// never inserts it, only backfills link `k`; each placeholder field is filled
/// exactly when the stored value is a placeholder and the submission carries a
/// value for it (the date independently of the size, and so on).
pub proof fn lemma_backfill_fills_placeholders(
    stored: Seq<StoredLink>,
    submitted: Seq<SubmittedLink>,
    i: int,
    k: int,
)
    requires
        0 <= i < submitted.len(),
        0 <= k < stored.len() <= usize::MAX,
        trim(submitted[i].link@).len() > 0,
        stored[k].link@ == submitted[i].link@,
        forall|m: int| 0 <= m < k ==> (#[trigger] stored[m]).link@ != submitted[i].link@,
    ensures
        !(link_action_of(stored, submitted, i) is Insert),
        link_action_of(stored, submitted, i) matches LinkAction::Backfill { stored: t, .. } ==> t == k,
        (link_action_of(stored, submitted, i) matches LinkAction::Backfill { date, .. } && date) <==> (
        stored[k].date_is_default && submitted[i].has_date),
        (link_action_of(stored, submitted, i) matches LinkAction::Backfill { size, .. } && size) <==> (
        stored[k].size_is_default && submitted[i].has_size),
        (link_action_of(stored, submitted, i) matches LinkAction::Backfill { name, .. } && name) <==> (
        stored[k].name_is_default && trim(submitted[i].name@).len() > 0 && submitted[i].name@
            != "None"@),
        (stored[k].date_is_default && submitted[i].has_date) ==> link_action_of(
            stored,
            submitted,
            i,
        ) is Backfill,
        link_action_of(stored, submitted, i) is Skip <==> !(stored[k].date_is_default
            && submitted[i].has_date) && !(stored[k].size_is_default && submitted[i].has_size) && !(
        stored[k].name_is_default && trim(submitted[i].name@).len() > 0 && submitted[i].name@
            != "None"@),
{
    let url = submitted[i].link@;
    assert(stored[k].link@ == url);
    let c = choose|c: int|
        0 <= c < stored.len() && (#[trigger] stored[c]).link@ == url && forall|m: int|
            0 <= m < c ==> (#[trigger] stored[m]).link@ != url;
    assert(0 <= c < stored.len() && stored[c].link@ == url && forall|m: int|
        0 <= m < c ==> (#[trigger] stored[m]).link@ != url);
    if c < k {
        assert(stored[c].link@ != url);
    } else if c > k {
        assert(stored[k].link@ != url);
    }
    assert(c == k);
}

/// The placeholders of the affinity filter are numbered consecutively from
/// `next` in clause order, one per bind: the clause at position `j` uses
/// `$(next + j)` and `binds[j]` is its value. A blank name or link takes no number.
pub proof fn lemma_affinity_placeholders(s: NamedEntitySearch, next: nat)
    ensures
        affinity_clauses(s, next).len() == affinity_binds(s).len(),
        ({
            let j = 0int;
            s.id matches Some(id) ==> affinity_clauses(s, next)[j] == "t.id = $"@ + int_text(next + j)
                && affinity_binds(s)[j] == AffinityBind::Id(id)
        }),
        ({
            let j: int = if s.id is Some { 1 } else { 0 };
            text_filter_applies(s.name) ==> affinity_clauses(s, next)[j] == "t.name LIKE '%' || $"@
                + int_text(next + j) + " || '%'"@ && affinity_binds(s)[j] == AffinityBind::Text(
                s.name.unwrap(),
            )
        }),
        ({
            let j: int = (if s.id is Some { 1int } else { 0int }) + (if text_filter_applies(s.name) {
                1int
            } else {
                0int
            });
            text_filter_applies(s.link) ==> affinity_clauses(s, next)[j] == "t.link LIKE '%' || $"@
                + int_text(next + j) + " || '%'"@ && affinity_binds(s)[j] == AffinityBind::Text(
                s.link.unwrap(),
            )
        }),
{
}

/// The documents that get embeddings are exactly the record documents: the
/// positions returned are increasing, each holds a record document, and every
/// record document's position is among them.
pub proof fn lemma_record_positions_exact(docs: Seq<SearchDocument>, n: nat)
    requires
        n <= docs.len() <= usize::MAX,
    ensures
        forall|a: int, b: int|
            0 <= a < b < record_positions_upto(docs, n).len() ==> #[trigger] record_positions_upto(
                docs,
                n,
            )[a] < #[trigger] record_positions_upto(docs, n)[b],
        forall|a: int|
            0 <= a < record_positions_upto(docs, n).len() ==> #[trigger] record_positions_upto(
                docs,
                n,
            )[a] < n && docs[record_positions_upto(docs, n)[a] as int].entity_type
                == SearchEntityType::Record,
        forall|i: int|
            0 <= i < n && (#[trigger] docs[i]).entity_type == SearchEntityType::Record ==> exists|a: int|
                0 <= a < record_positions_upto(docs, n).len() && #[trigger] record_positions_upto(
                    docs,
                    n,
                )[a] == i,
    decreases n,
{
    if n > 0 {
        let m = (n - 1) as nat;
        lemma_record_positions_exact(docs, m);
        let p = record_positions_upto(docs, m);
        let r = record_positions_upto(docs, n);
        if docs[m as int].entity_type == SearchEntityType::Record {
            assert(r == p.push(m as usize));
        } else {
            assert(r == p);
        }
        assert forall|a: int| 0 <= a < r.len() implies #[trigger] r[a] < n && docs[r[a] as int].entity_type
            == SearchEntityType::Record by {
            if a < p.len() {
                assert(r[a] == p[a]);
            }
        }
        assert forall|a: int, b: int| 0 <= a < b < r.len() implies #[trigger] r[a] < #[trigger] r[b] by {
            if b < p.len() {
                assert(r[a] == p[a] && r[b] == p[b]);
            } else {
                assert(r[a] == p[a]);
                assert(p[a] < m);
            }
        }
        assert forall|i: int| 0 <= i < n && (#[trigger] docs[i]).entity_type == SearchEntityType::Record
            implies exists|a: int| 0 <= a < r.len() && #[trigger] r[a] == i by {
            if i < m {
                let a = choose|a: int| 0 <= a < p.len() && #[trigger] p[a] == i;
                assert(r[a] == p[a]);
            } else {
                assert(r[p.len() as int] == i);
            }
        }
    }
}

/// The offset of a search request is the requested one when it is not
/// negative; a negative or absent offset starts at 0.
pub proof fn lemma_requested_offset_kept(offset: Option<i64>)
    ensures
        effective_offset(offset) >= 0,
        offset matches Some(o) ==> (o >= 0 ==> effective_offset(offset) == o),
        offset matches Some(o) ==> (o < 0 ==> effective_offset(offset) == 0),
        offset is None ==> effective_offset(offset) == 0,
{
}

/// A submitted link with a blank URL is skipped; one whose URL is not stored is
/// inserted exactly when no earlier submitted link has the same URL, and skipped
/// otherwise.
pub proof fn lemma_new_links_inserted_once(stored: Seq<StoredLink>, submitted: Seq<SubmittedLink>, i: int)
    requires
        0 <= i < submitted.len(),
    ensures
        trim(submitted[i].link@).len() == 0 ==> link_action_of(stored, submitted, i) is Skip,
        trim(submitted[i].link@).len() > 0 && (forall|k: int|
            0 <= k < stored.len() ==> (#[trigger] stored[k]).link@ != submitted[i].link@) ==> {
            &&& (link_action_of(stored, submitted, i) is Insert <==> forall|j: int|
                0 <= j < i ==> (#[trigger] submitted[j]).link@ != submitted[i].link@)
            &&& !(link_action_of(stored, submitted, i) is Backfill)
        },
{
}

/// The number of pages is the least number of whole pages that hold all items:
/// none for no items, otherwise `c` with `(c - 1) * page_size < total <= c * page_size`.
pub proof fn lemma_page_count_covers(total: int, page_size: int)
    requires
        page_size > 0,
    ensures
        total <= 0 ==> page_count_of(total, page_size) == 0,
        total > 0 ==> (page_count_of(total, page_size) - 1) * page_size < total <= page_count_of(
            total,
            page_size,
        ) * page_size,
{
    if total > 0 {
        let c = page_count_of(total, page_size);
        assert((c - 1) * page_size < total <= c * page_size) by (nonlinear_arith)
            requires
                c == (total + page_size - 1) / page_size,
                total > 0,
                page_size > 0,
        ;
    }
}

} // verus!
