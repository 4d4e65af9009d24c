//! Joining loaded rows: records with their director, studio, label and series,
//! relation rows grouped by record, and the index documents of records.

use std::collections::HashMap;
use vstd::prelude::*;

use crate::document::{document_id, is_named_document, SearchDocument};
use crate::entity_type::{entity_type_name, SearchEntityType};
use crate::text::{chars_of, int_text, push_int};

verus! {

/// The last position of `x` in `ids` (a map built from the rows keeps the last).
pub open spec fn last_position(ids: Seq<i64>, x: i64) -> Option<int>
    decreases ids.len(),
{
    if ids.len() == 0 {
        None
    } else if ids.last() == x {
        Some(ids.len() - 1)
    } else {
        last_position(ids.drop_last(), x)
    }
}

/// The last position of each id in `ids`, keyed by id.
pub fn position_map(ids: &[i64]) -> (m: HashMap<i64, usize>)
    ensures
        forall|x: i64| #[trigger] m@.contains_key(x) <==> last_position(ids@, x) is Some,
        forall|x: i64| #[trigger] m@.contains_key(x) ==> last_position(ids@, x) == Some(m@[x] as int),
{
    broadcast use vstd::std_specs::hash::group_hash_axioms;

    let mut m: HashMap<i64, usize> = HashMap::new();
    let mut i: usize = 0;
    assert(ids@.take(0).len() == 0);
    while i < ids.len()
        invariant
            i <= ids.len(),
            forall|x: i64| #[trigger] m@.contains_key(x) <==> last_position(ids@.take(i as int), x) is Some,
            forall|x: i64|
                #[trigger] m@.contains_key(x) ==> last_position(ids@.take(i as int), x) == Some(
                    m@[x] as int,
                ),
        decreases ids.len() - i,
    {
        proof {
            assert(ids@.take(i + 1).drop_last() =~= ids@.take(i as int));
            assert(ids@.take(i + 1).last() == ids@[i as int]);
        }
        m.insert(ids[i], i);
        i = i + 1;
    }
    assert(ids@.take(ids.len() as int) =~= ids@);
    m
}

fn position_in(m: &HashMap<i64, usize>, x: i64) -> (r: Option<usize>)
    ensures
        match r {
            Some(p) => m@.contains_key(x) && m@[x] == p,
            None => !m@.contains_key(x),
        },
{
    broadcast use vstd::std_specs::hash::group_hash_axioms;

    match m.get(&x) {
        Some(p) => Some(*p),
        None => None,
    }
}

/// The foreign keys of a record row.
#[derive(Clone, Copy, Debug, PartialEq, Eq, Structural)]
pub struct RecordKeys {
    pub director_id: i64,
    pub studio_id: i64,
    pub label_id: i64,
    pub series_id: i64,
}

/// Which related row of a record was not found.
#[derive(Clone, Copy, Debug, PartialEq, Eq, Structural)]
pub enum MissingRelation {
    Director,
    Studio,
    Label,
    Series,
}

impl MissingRelation {
    /// The text of the error.
    pub fn message(&self) -> (r: &'static str)
        ensures
            r@ == missing_relation_text(*self),
    {
        match self {
            MissingRelation::Director => "Director not found",
            MissingRelation::Studio => "Studio not found",
            MissingRelation::Label => "Label not found",
            MissingRelation::Series => "Series not found",
        }
    }
}

pub open spec fn missing_relation_text(m: MissingRelation) -> Seq<char> {
    match m {
        MissingRelation::Director => "Director not found"@,
        MissingRelation::Studio => "Studio not found"@,
        MissingRelation::Label => "Label not found"@,
        MissingRelation::Series => "Series not found"@,
    }
}

/// Positions of the related rows of one record.
#[derive(Clone, Copy, Debug, PartialEq, Eq, Structural)]
pub struct RelationRows {
    pub director: usize,
    pub studio: usize,
    pub label: usize,
    pub series: usize,
}

/// The rows loaded for each relation, by id.
pub struct RelationIds {
    pub directors: Vec<i64>,
    pub studios: Vec<i64>,
    pub labels: Vec<i64>,
    pub series: Vec<i64>,
}

/// The first relation of record `k` that has no row, checked in the order
/// director, studio, label, series.
pub open spec fn missing_of(k: RecordKeys, ids: RelationIds) -> Option<MissingRelation> {
    if last_position(ids.directors@, k.director_id) is None {
        Some(MissingRelation::Director)
    } else if last_position(ids.studios@, k.studio_id) is None {
        Some(MissingRelation::Studio)
    } else if last_position(ids.labels@, k.label_id) is None {
        Some(MissingRelation::Label)
    } else if last_position(ids.series@, k.series_id) is None {
        Some(MissingRelation::Series)
    } else {
        None
    }
}

/// The related rows of record `k`, when they are all there.
pub open spec fn rows_of(k: RecordKeys, ids: RelationIds, r: RelationRows) -> bool {
    &&& last_position(ids.directors@, k.director_id) == Some(r.director as int)
    &&& last_position(ids.studios@, k.studio_id) == Some(r.studio as int)
    &&& last_position(ids.labels@, k.label_id) == Some(r.label as int)
    &&& last_position(ids.series@, k.series_id) == Some(r.series as int)
}

/// Joins each record with its related rows; the first record that lacks one
/// stops the load with the relation that is missing.
pub fn resolve_relations(keys: &[RecordKeys], ids: &RelationIds) -> (r: Result<Vec<RelationRows>, MissingRelation>)
    ensures
        match r {
            Ok(rows) => rows@.len() == keys@.len() && forall|i: int|
                0 <= i < keys@.len() ==> rows_of(#[trigger] keys@[i], *ids, rows@[i]),
            Err(m) => exists|i: int|
                0 <= i < keys@.len() && missing_of(#[trigger] keys@[i], *ids) == Some(m) && forall|j: int|
                    0 <= j < i ==> missing_of(#[trigger] keys@[j], *ids) is None,
        },
{
    let directors = position_map(ids.directors.as_slice());
    let studios = position_map(ids.studios.as_slice());
    let labels = position_map(ids.labels.as_slice());
    let series_rows = position_map(ids.series.as_slice());
    let mut rows: Vec<RelationRows> = Vec::new();
    let mut i: usize = 0;
    while i < keys.len()
        invariant
            i <= keys.len(),
            rows@.len() == i,
            forall|x: i64| #[trigger] directors@.contains_key(x) <==> last_position(ids.directors@, x) is Some,
            forall|x: i64| #[trigger] directors@.contains_key(x) ==> last_position(ids.directors@, x) == Some(directors@[x] as int),
            forall|x: i64| #[trigger] studios@.contains_key(x) <==> last_position(ids.studios@, x) is Some,
            forall|x: i64| #[trigger] studios@.contains_key(x) ==> last_position(ids.studios@, x) == Some(studios@[x] as int),
            forall|x: i64| #[trigger] labels@.contains_key(x) <==> last_position(ids.labels@, x) is Some,
            forall|x: i64| #[trigger] labels@.contains_key(x) ==> last_position(ids.labels@, x) == Some(labels@[x] as int),
            forall|x: i64| #[trigger] series_rows@.contains_key(x) <==> last_position(ids.series@, x) is Some,
            forall|x: i64| #[trigger] series_rows@.contains_key(x) ==> last_position(ids.series@, x) == Some(series_rows@[x] as int),
            forall|j: int| 0 <= j < i ==> rows_of(#[trigger] keys@[j], *ids, rows@[j]),
        decreases keys.len() - i,
    {
        let k = keys[i];
        proof {
            assert forall|j: int| 0 <= j < i implies missing_of(#[trigger] keys@[j], *ids) is None by {
                assert(rows_of(keys@[j], *ids, rows@[j]));
            }
        }
        let director = match position_in(&directors, k.director_id) {
            Some(p) => p,
            None => return Err(MissingRelation::Director),
        };
        let studio = match position_in(&studios, k.studio_id) {
            Some(p) => p,
            None => return Err(MissingRelation::Studio),
        };
        let label = match position_in(&labels, k.label_id) {
            Some(p) => p,
            None => return Err(MissingRelation::Label),
        };
        let series = match position_in(&series_rows, k.series_id) {
            Some(p) => p,
            None => return Err(MissingRelation::Series),
        };
        rows.push(RelationRows { director, studio, label, series });
        i = i + 1;
    }
    Ok(rows)
}

/// The positions of the rows that belong to record `id`, in order.
pub open spec fn positions_of(row_record_ids: Seq<String>, id: Seq<char>, n: nat) -> Seq<usize>
    decreases n,
{
    if n == 0 {
        seq![]
    } else if row_record_ids[n - 1]@ == id {
        positions_of(row_record_ids, id, (n - 1) as nat).push((n - 1) as usize)
    } else {
        positions_of(row_record_ids, id, (n - 1) as nat)
    }
}

/// Groups relation rows (genres, idols, links) by record: for each record, the
/// positions of its rows in the order they were read.
pub fn rows_by_record(record_ids: &[String], row_record_ids: &[String]) -> (r: Vec<Vec<usize>>)
    ensures
        r@.len() == record_ids@.len(),
        forall|i: int|
            0 <= i < r@.len() ==> (#[trigger] r@[i])@ == positions_of(
                row_record_ids@,
                record_ids@[i]@,
                row_record_ids@.len(),
            ),
{
    let mut r: Vec<Vec<usize>> = Vec::new();
    let mut i: usize = 0;
    while i < record_ids.len()
        invariant
            i <= record_ids.len(),
            r@.len() == i,
            forall|k: int|
                0 <= k < i ==> (#[trigger] r@[k])@ == positions_of(
                    row_record_ids@,
                    record_ids@[k]@,
                    row_record_ids@.len(),
                ),
        decreases record_ids.len() - i,
    {
        let id = &record_ids[i];
        let mut ps: Vec<usize> = Vec::new();
        let mut j: usize = 0;
        while j < row_record_ids.len()
            invariant
                j <= row_record_ids.len(),
                ps@ == positions_of(row_record_ids@, id@, j as nat),
            decreases row_record_ids.len() - j,
        {
            if row_record_ids[j] == *id {
                ps.push(j);
            }
            j = j + 1;
        }
        r.push(ps);
        i = i + 1;
    }
    r
}

/// The last version given for `id` among the requested `(id, version)` pairs, or 0.
pub open spec fn version_of(inputs: Seq<(String, i64)>, id: Seq<char>) -> i64
    decreases inputs.len(),
{
    if inputs.len() == 0 {
        0
    } else if inputs.last().0@ == id {
        inputs.last().1
    } else {
        version_of(inputs.drop_last(), id)
    }
}

pub fn requested_version(inputs: &[(String, i64)], id: &String) -> (r: i64)
    ensures
        r == version_of(inputs@, id@),
{
    let mut k: usize = inputs.len();
    assert(inputs@.take(inputs@.len() as int) =~= inputs@);
    while k > 0
        invariant
            k <= inputs.len(),
            version_of(inputs@, id@) == version_of(inputs@.take(k as int), id@),
        decreases k,
    {
        proof {
            assert(inputs@.take(k as int).drop_last() =~= inputs@.take(k - 1));
        }
        if inputs[k - 1].0 == *id {
            return inputs[k - 1].1;
        }
        k = k - 1;
    }
    0
}

/// What a record document is built from.
pub struct RecordRow {
    pub id: String,
    pub title: String,
    /// The record's date, in `YYYY-MM-DD` form.
    pub date: String,
    pub duration: i32,
    pub permission: i32,
}

/// The index document of a record: its own fields, the names of its relations,
/// and the version it is indexed at.
pub fn record_document(
    row: RecordRow,
    version: i64,
    director_name: Option<String>,
    studio_name: Option<String>,
    label_name: Option<String>,
    series_name: Option<String>,
    genre_names: Vec<String>,
    idol_names: Vec<String>,
) -> (r: SearchDocument)
    ensures
        r.doc_id@ == "record__"@ + row.id@,
        r.title == row.title,
        r.entity_type == SearchEntityType::Record,
        r.entity_id@ == row.id@,
        r.entity_version == version,
        r.permission == row.permission,
        r.date == Some(row.date),
        r.duration == Some(row.duration),
        r.director_name == director_name,
        r.studio_name == studio_name,
        r.label_name == label_name,
        r.series_name == series_name,
        r.genre_names == Some(genre_names),
        r.idol_names == Some(idol_names),
{
    let doc_id = document_id("record", row.id.as_str());
    proof {
        reveal_strlit("record");
        reveal_strlit("__");
        reveal_strlit("record__");
        assert("record"@ + "__"@ =~= "record__"@);
    }
    let entity_id = row.id.clone();
    SearchDocument {
        doc_id,
        title: row.title,
        entity_type: SearchEntityType::Record,
        entity_id,
        entity_version: version,
        permission: row.permission,
        date: Some(row.date),
        duration: Some(row.duration),
        director_name,
        studio_name,
        label_name,
        series_name,
        genre_names: Some(genre_names),
        idol_names: Some(idol_names),
    }
}

/// The index document of a named entity read from its table.
pub fn named_entity_document(entity_type: SearchEntityType, id: i64, title: String, version: i64) -> (r:
    SearchDocument)
    ensures
        is_named_document(r, entity_type, entity_type_name(entity_type), int_text(id as int), version, title@),
{
    let mut entity_id = String::new();
    push_int(&mut entity_id, id);
    SearchDocument {
        doc_id: document_id(entity_type.as_str(), entity_id.as_str()),
        title,
        entity_type,
        entity_id,
        entity_version: version,
        permission: 0,
        date: None,
        duration: None,
        director_name: None,
        studio_name: None,
        label_name: None,
        series_name: None,
        genre_names: None,
        idol_names: None,
    }
}

/// Why a text is not a decimal `i64`, as `core::num::IntErrorKind` tells it.
#[derive(Clone, Copy, Debug, PartialEq, Eq, Structural)]
pub enum IntParseError {
    Empty,
    InvalidDigit,
    PosOverflow,
    NegOverflow,
}

impl IntParseError {
    /// The `Display` text of the error.
    pub fn message(&self) -> (r: &'static str)
        ensures
            r@ == int_parse_error_text(*self),
    {
        match self {
            IntParseError::Empty => "cannot parse integer from empty string",
            IntParseError::InvalidDigit => "invalid digit found in string",
            IntParseError::PosOverflow => "number too large to fit in target type",
            IntParseError::NegOverflow => "number too small to fit in target type",
        }
    }
}

pub open spec fn int_parse_error_text(e: IntParseError) -> Seq<char> {
    match e {
        IntParseError::Empty => "cannot parse integer from empty string"@,
        IntParseError::InvalidDigit => "invalid digit found in string"@,
        IntParseError::PosOverflow => "number too large to fit in target type"@,
        IntParseError::NegOverflow => "number too small to fit in target type"@,
    }
}

/// The value of a text of ASCII digits.
pub open spec fn digits_value(d: Seq<char>) -> int
    decreases d.len(),
{
    if d.len() == 0 {
        0
    } else {
        digits_value(d.drop_last()) * 10 + (d.last() as int - '0' as int)
    }
}

pub open spec fn all_digits(d: Seq<char>) -> bool {
    forall|i: int| 0 <= i < d.len() ==> '0' <= #[trigger] d[i] <= '9'
}

/// `str::parse::<i64>`: an optional `+` or `-`, then one or more ASCII digits,
/// whose value must fit.
pub open spec fn parse_i64_of(s: Seq<char>) -> Result<i64, IntParseError> {
    if s.len() == 0 {
        Err(IntParseError::Empty)
    } else {
        let neg = s[0] == '-';
        let d = if s[0] == '-' || s[0] == '+' {
            s.drop_first()
        } else {
            s
        };
        if d.len() == 0 || !all_digits(d) {
            Err(IntParseError::InvalidDigit)
        } else if neg {
            if digits_value(d) > 0x8000_0000_0000_0000 {
                Err(IntParseError::NegOverflow)
            } else {
                Ok((-digits_value(d)) as i64)
            }
        } else if digits_value(d) > 0x7fff_ffff_ffff_ffff {
            Err(IntParseError::PosOverflow)
        } else {
            Ok(digits_value(d) as i64)
        }
    }
}

proof fn lemma_digits_nonneg(d: Seq<char>)
    requires
        all_digits(d),
    ensures
        0 <= digits_value(d),
    decreases d.len(),
{
    if d.len() > 0 {
        assert(all_digits(d.drop_last())) by {
            assert forall|i: int| 0 <= i < d.drop_last().len() implies '0' <= #[trigger] d.drop_last()[i] <= '9' by {
                assert(d.drop_last()[i] == d[i]);
            }
        }
        lemma_digits_nonneg(d.drop_last());
    }
}

/// Parses a decimal `i64` as `str::parse` does.
pub fn parse_i64(s: &str) -> (r: Result<i64, IntParseError>)
    ensures
        r == parse_i64_of(s@),
{
    let v = chars_of(s);
    if v.len() == 0 {
        return Err(IntParseError::Empty);
    }
    let neg = v[0] == '-';
    let start: usize = if v[0] == '-' || v[0] == '+' { 1 } else { 0 };
    let ghost d = if v@[0] == '-' || v@[0] == '+' { v@.drop_first() } else { v@ };
    proof {
        assert(d =~= v@.skip(start as int));
    }
    if start == v.len() {
        return Err(IntParseError::InvalidDigit);
    }
    let mut acc: u128 = 0;
    let mut i: usize = start;
    let mut too_big = false;
    while i < v.len()
        invariant
            start <= i <= v.len(),
            v@ == s@,
            d == v@.skip(start as int),
            v@.len() > 0,
            d == (if v@[0] == '-' || v@[0] == '+' { v@.drop_first() } else { v@ }),
            neg == (v@[0] == '-'),
            all_digits(d.take(i - start)),
            !too_big ==> acc as int == digits_value(d.take(i - start)),
            !too_big ==> acc <= 0x8000_0000_0000_0000,
            too_big ==> digits_value(d.take(i - start)) > 0x8000_0000_0000_0000,
            too_big ==> all_digits(d.take(i - start)),
        decreases v.len() - i,
    {
        let c = v[i];
        if c < '0' || c > '9' {
            proof {
                assert(d[i - start] == c);
                assert(!all_digits(d));
                assert(s@ == v@);
                assert(d == (if s@[0] == '-' || s@[0] == '+' { s@.drop_first() } else { s@ }));
            }
            return Err(IntParseError::InvalidDigit);
        }
        let digit: u128 = (c as u32 - '0' as u32) as u128;
        proof {
            let t = d.take(i - start + 1);
            assert(t.drop_last() =~= d.take(i - start));
            assert(t.last() == c);
            assert(all_digits(t)) by {
                assert forall|j: int| 0 <= j < t.len() implies '0' <= #[trigger] t[j] <= '9' by {
                    if j < t.len() - 1 {
                        assert(t[j] == d.take(i - start)[j]);
                    }
                }
            }
            lemma_digits_nonneg(d.take(i - start));
        }
        if !too_big {
            acc = acc * 10 + digit;
            if acc > 0x8000_0000_0000_0000 {
                too_big = true;
            }
        }
        i = i + 1;
    }
    proof {
        assert(d.take(v.len() - start) =~= d);
    }
    if neg {
        if too_big {
            return Err(IntParseError::NegOverflow);
        }
        if acc == 0x8000_0000_0000_0000 {
            return Ok(i64::MIN);
        }
        Ok(0i64 - (acc as i64))
    } else {
        if too_big || acc > 0x7fff_ffff_ffff_ffff {
            return Err(IntParseError::PosOverflow);
        }
        Ok(acc as i64)
    }
}

} // verus!
