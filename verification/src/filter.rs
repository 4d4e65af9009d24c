//! Search filter strings: building, escaping, splitting and reading them back.
//!
//! Filter strings use the search engine's syntax: clauses such as
//! `director_name = "John"` joined by ` AND `, with `"` and `\` inside quoted
//! values escaped by a backslash.

use vstd::prelude::*;
use vstd::string::StringSliceAdditionalSpecFns;

use crate::entity_type::{entity_type_name, SearchEntityType};
use crate::text::{push_str, chars_of, matches_at, push_char, string_of, string_of_range, trim, trim_bounds, trim_str};
use vstd::utf8::is_char_boundary;

verus! {

/// Length of the text before the first unescaped `"` in `s`: a backslash
/// followed by any character is skipped as a pair.  `s.len()` when there is none.
pub open spec fn closing_quote(s: Seq<char>) -> nat
    decreases s.len(),
{
    if s.len() == 0 {
        0
    } else if s[0] == '\\' && s.len() >= 2 {
        2 + closing_quote(s.skip(2))
    } else if s[0] == '"' {
        0
    } else {
        1 + closing_quote(s.drop_first())
    }
}

/// `closing_quote` on the UTF-8 bytes of a string.
pub open spec fn closing_quote_bytes(s: Seq<u8>) -> nat
    decreases s.len(),
{
    if s.len() == 0 {
        0
    } else if s[0] == 92u8 && s.len() >= 2 {
        2 + closing_quote_bytes(s.skip(2))
    } else if s[0] == 34u8 {
        0
    } else {
        1 + closing_quote_bytes(s.drop_first())
    }
}

/// The closing quote position lies within the text, and where it is not the end
/// it holds a `"`.
pub proof fn lemma_closing_quote_bound(s: Seq<char>)
    ensures
        closing_quote(s) <= s.len(),
        closing_quote(s) < s.len() ==> s[closing_quote(s) as int] == '"',
    decreases s.len(),
{
    if s.len() == 0 {
    } else if s[0] == '\\' && s.len() >= 2 {
        lemma_closing_quote_bound(s.skip(2));
    } else if s[0] == '"' {
    } else {
        lemma_closing_quote_bound(s.drop_first());
    }
}

/// The closing quote position on bytes lies within the bytes, and where it is not
/// the end it holds a `"`.
pub proof fn lemma_closing_quote_bytes_bound(s: Seq<u8>)
    ensures
        closing_quote_bytes(s) <= s.len(),
        closing_quote_bytes(s) < s.len() ==> s[closing_quote_bytes(s) as int] == 34u8,
    decreases s.len(),
{
    if s.len() == 0 {
    } else if s[0] == 92u8 && s.len() >= 2 {
        lemma_closing_quote_bytes_bound(s.skip(2));
    } else if s[0] == 34u8 {
    } else {
        lemma_closing_quote_bytes_bound(s.drop_first());
    }
}

/// Index of the first unescaped `"` in `v` at or after `from` (or `v.len()`).
pub fn closing_quote_index(v: &Vec<char>, from: usize) -> (r: usize)
    requires
        from <= v.len(),
    ensures
        r == from + closing_quote(v@.skip(from as int)),
        r <= v.len(),
        r < v.len() ==> v@[r as int] == '"',
{
    let mut i = from;
    while i < v.len()
        invariant
            from <= i <= v.len(),
            from + closing_quote(v@.skip(from as int)) == i + closing_quote(v@.skip(i as int)),
        decreases v.len() - i,
    {
        let ghost s = v@.skip(i as int);
        if v[i] == '\\' && i + 1 < v.len() {
            assert(s.skip(2) =~= v@.skip(i + 2));
            i = i + 2;
        } else if v[i] == '"' {
            proof {
                lemma_closing_quote_bound(v@.skip(from as int));
            }
            return i;
        } else {
            assert(s.drop_first() =~= v@.skip(i + 1));
            i = i + 1;
        }
    }
    proof {
        lemma_closing_quote_bound(v@.skip(from as int));
    }
    i
}

/// Find the position of the closing unescaped double-quote in a string.
/// Returns the length of the string if no unescaped quote is found.
/// Positions count bytes of the UTF-8 encoding.
pub fn find_closing_quote(s: &str) -> (r: usize)
    ensures
        r == closing_quote_bytes(s.spec_bytes()),
        r <= s.spec_bytes().len(),
        r < s.spec_bytes().len() ==> s.spec_bytes()[r as int] == 34u8,
{
    proof {
        lemma_closing_quote_bytes_bound(s.spec_bytes());
    }
    let bytes = s.as_bytes();
    let mut i: usize = 0;
    assert(bytes@.skip(0) =~= bytes@);
    while i < bytes.len()
        invariant
            i <= bytes@.len(),
            bytes@ == s.spec_bytes(),
            closing_quote_bytes(bytes@) == i + closing_quote_bytes(bytes@.skip(i as int)),
        decreases bytes@.len() - i,
    {
        let ghost t = bytes@.skip(i as int);
        if bytes[i] == 92u8 && i + 1 < bytes.len() {
            assert(t.skip(2) =~= bytes@.skip(i + 2));
            i = i + 2;
        } else if bytes[i] == 34u8 {
            return i;
        } else {
            assert(t.drop_first() =~= bytes@.skip(i + 1));
            i = i + 1;
        }
    }
    assert(bytes@.skip(i as int).len() == 0);
    i
}

/// The filter-syntax escape of one character.
pub open spec fn escape_char(c: char) -> Seq<char> {
    if c == '\\' {
        seq!['\\', '\\']
    } else if c == '"' {
        seq!['\\', '"']
    } else {
        seq![c]
    }
}

/// `s` with every `\` and `"` preceded by a backslash.
pub open spec fn escape_text(s: Seq<char>) -> Seq<char>
    decreases s.len(),
{
    if s.len() == 0 {
        seq![]
    } else {
        escape_char(s[0]) + escape_text(s.drop_first())
    }
}

proof fn lemma_escape_text_push(s: Seq<char>, c: char)
    ensures
        escape_text(s.push(c)) == escape_text(s) + escape_char(c),
    decreases s.len(),
{
    if s.len() == 0 {
        assert(s.push(c).drop_first() =~= s);
        assert(escape_text(s) == Seq::<char>::empty());
        assert(s.push(c)[0] == c);
        assert(escape_text(s.push(c)) == escape_char(c) + escape_text(s));
        assert(escape_text(s.push(c)) =~= escape_char(c));
    } else {
        lemma_escape_text_push(s.drop_first(), c);
        assert(s.push(c).drop_first() =~= s.drop_first().push(c));
        assert(escape_text(s.push(c)) =~= escape_text(s) + escape_char(c));
    }
}

/// Escape double quotes and backslashes in filter values to prevent filter injection.
pub fn escape_filter_value(value: &str) -> (r: String)
    ensures
        r@ == escape_text(value@),
{
    let v = chars_of(value);
    let mut r = String::new();
    let mut i: usize = 0;
    while i < v.len()
        invariant
            i <= v.len(),
            v@ == value@,
            r@ == escape_text(v@.take(i as int)),
        decreases v.len() - i,
    {
        let c = v[i];
        if c == '\\' {
            push_char(&mut r, '\\');
            push_char(&mut r, '\\');
        } else if c == '"' {
            push_char(&mut r, '\\');
            push_char(&mut r, '"');
        } else {
            push_char(&mut r, c);
        }
        proof {
            lemma_escape_text_push(v@.take(i as int), c);
            assert(v@.take(i + 1) =~= v@.take(i as int).push(c));
            assert(r@ =~= escape_text(v@.take(i as int)) + escape_char(c));
        }
        i = i + 1;
    }
    assert(v@.take(v.len() as int) =~= v@);
    r
}

/// `str::replace`: every non-overlapping occurrence of `from`, leftmost first,
/// replaced by `to`.
pub open spec fn replace_all(s: Seq<char>, from: Seq<char>, to: Seq<char>) -> Seq<char>
    recommends
        from.len() > 0,
    decreases s.len(),
{
    if s.len() == 0 {
        seq![]
    } else if from.len() > 0 && from.len() <= s.len() && s.take(from.len() as int) == from {
        to + replace_all(s.skip(from.len() as int), from, to)
    } else {
        seq![s[0]] + replace_all(s.drop_first(), from, to)
    }
}

/// Replaces every occurrence of `from` in `v[start..end]`, as `str::replace` does.
pub fn replace_chars(v: &Vec<char>, start: usize, end: usize, from: &Vec<char>, to: &Vec<char>) -> (r: Vec<char>)
    requires
        start <= end <= v.len(),
        from.len() > 0,
    ensures
        r@ == replace_all(v@.subrange(start as int, end as int), from@, to@),
{
    let ghost s = v@.subrange(start as int, end as int);
    let mut out: Vec<char> = Vec::new();
    let mut i = start;
    while i < end
        invariant
            start <= i <= end <= v.len(),
            from.len() > 0,
            s == v@.subrange(start as int, end as int),
            replace_all(s, from@, to@) == out@ + replace_all(
                v@.subrange(i as int, end as int),
                from@,
                to@,
            ),
        decreases end - i,
    {
        let ghost t = v@.subrange(i as int, end as int);
        let hit = from.len() <= end - i && matches_at(v, from, i);
        if hit {
            proof {
                assert(t.take(from.len() as int) =~= v@.subrange(i as int, i + from.len()));
                assert(t.skip(from.len() as int) =~= v@.subrange(i + from.len(), end as int));
            }
            let mut k: usize = 0;
            let ghost out0 = out@;
            while k < to.len()
                invariant
                    k <= to.len(),
                    out@ == out0 + to@.take(k as int),
                decreases to.len() - k,
            {
                out.push(to[k]);
                assert(to@.take(k + 1) =~= to@.take(k as int).push(to@[k as int]));
                k = k + 1;
            }
            assert(to@.take(to.len() as int) =~= to@);
            assert(out@ + replace_all(v@.subrange(i + from.len(), end as int), from@, to@) =~= out0
                + (to@ + replace_all(v@.subrange(i + from.len(), end as int), from@, to@)));
            i = i + from.len();
        } else {
            proof {
                if from.len() <= t.len() {
                    assert(t.take(from.len() as int) =~= v@.subrange(i as int, i + from.len()));
                }
                assert(t.drop_first() =~= v@.subrange(i + 1, end as int));
            }
            let ghost out0 = out@;
            out.push(v[i]);
            assert(out@ + replace_all(v@.subrange(i + 1, end as int), from@, to@) =~= out0 + (
            seq![v@[i as int]] + replace_all(v@.subrange(i + 1, end as int), from@, to@)));
            i = i + 1;
        }
    }
    assert(out@ + replace_all(v@.subrange(i as int, end as int), from@, to@) =~= out@);
    out
}

/// Undo the filter-syntax escaping: first `\"` becomes `"`, then `\\` becomes `\`.
pub open spec fn unescape_text(s: Seq<char>) -> Seq<char> {
    replace_all(replace_all(s, seq!['\\', '"'], seq!['"']), seq!['\\', '\\'], seq!['\\'])
}

/// The value of a filter clause `part` that starts with `prefix`: the text after
/// the prefix and an optional opening quote, up to the closing unescaped quote,
/// unescaped.  `None` when `part` does not start with `prefix`.
pub open spec fn clause_value(part: Seq<char>, prefix: Seq<char>) -> Option<Seq<char>> {
    if prefix.len() <= part.len() && part.take(prefix.len() as int) == prefix {
        let rest = part.skip(prefix.len() as int);
        let val = if rest.len() > 0 && rest[0] == '"' {
            rest.drop_first()
        } else {
            rest
        };
        Some(unescape_text(val.take(closing_quote(val) as int)))
    } else {
        None
    }
}

fn two_chars(a: char, b: char) -> (r: Vec<char>)
    ensures
        r@ == seq![a, b],
{
    let mut r = Vec::new();
    r.push(a);
    r.push(b);
    assert(r@ =~= seq![a, b]);
    r
}

fn one_char(a: char) -> (r: Vec<char>)
    ensures
        r@ == seq![a],
{
    let mut r = Vec::new();
    r.push(a);
    assert(r@ =~= seq![a]);
    r
}

/// Extract a quoted value after the given prefix from a filter clause.
pub fn extract_filter_value(part: &str, prefix: &str) -> (r: Option<String>)
    ensures
        r matches Some(x) ==> clause_value(part@, prefix@) == Some(x@),
        r is None ==> clause_value(part@, prefix@) is None,
{
    let v = chars_of(part);
    let p = chars_of(prefix);
    if !matches_at(&v, &p, 0) {
        proof {
            if p@.len() <= v@.len() {
                assert(v@.subrange(0, p@.len() as int) =~= v@.take(p@.len() as int));
            }
        }
        return None;
    }
    assert(v@.subrange(0, p@.len() as int) =~= v@.take(p@.len() as int));
    let mut start = p.len();
    if start < v.len() && v[start] == '"' {
        start = start + 1;
    }
    let end = closing_quote_index(&v, start);
    proof {
        let rest = v@.skip(p@.len() as int);
        let val = if rest.len() > 0 && rest[0] == '"' {
            rest.drop_first()
        } else {
            rest
        };
        assert(val =~= v@.skip(start as int));
        assert(val.take(closing_quote(val) as int) =~= v@.subrange(start as int, end as int));
    }
    let step1 = replace_chars(&v, start, end, &two_chars('\\', '"'), &one_char('"'));
    let step2 = replace_chars(&step1, 0, step1.len(), &two_chars('\\', '\\'), &one_char('\\'));
    assert(step1@.subrange(0, step1@.len() as int) =~= step1@);
    Some(string_of(&step2))
}

/// The bytes of ` AND `, the clause separator.
pub open spec fn and_separator_bytes() -> Seq<u8> {
    seq![32u8, 65u8, 78u8, 68u8, 32u8]
}

/// Whether the byte-oriented splitting scan, started at byte `i` of `b`, only ever
/// slices the string at character boundaries (the scan compares each unquoted
/// five-byte window with ` AND ` by slicing, which panics inside a multi-byte
/// character).
pub open spec fn split_scan_ok_from(b: Seq<u8>, i: int) -> bool
    decreases b.len() - i,
{
    if i < 0 || i >= b.len() {
        true
    } else if b[i] == 34u8 {
        let j = i + 1 + closing_quote_bytes(b.skip(i + 1));
        let next = if j < b.len() {
            j + 1
        } else {
            b.len() as int
        };
        split_scan_ok_from(b, next)
    } else if i + 5 <= b.len() {
        &&& is_char_boundary(b, i)
        &&& is_char_boundary(b, i + 5)
        &&& split_scan_ok_from(
            b,
            if b.subrange(i, i + 5) == and_separator_bytes() {
                i + 5
            } else {
                i + 1
            },
        )
    } else {
        split_scan_ok_from(b, i + 1)
    }
}

/// The filter strings on which clause splitting is defined (it never slices a
/// character apart).
pub open spec fn splittable(filter: &str) -> bool {
    split_scan_ok_from(filter.spec_bytes(), 0)
}

fn closing_quote_byte_index(b: &[u8], from: usize) -> (r: usize)
    requires
        from <= b@.len(),
    ensures
        r == from + closing_quote_bytes(b@.skip(from as int)),
{
    let mut i = from;
    while i < b.len()
        invariant
            from <= i <= b@.len(),
            from + closing_quote_bytes(b@.skip(from as int)) == i + closing_quote_bytes(b@.skip(i as int)),
        decreases b@.len() - i,
    {
        let ghost t = b@.skip(i as int);
        if b[i] == 92u8 && i + 1 < b.len() {
            assert(t.skip(2) =~= b@.skip(i + 2));
            i = i + 2;
        } else if b[i] == 34u8 {
            return i;
        } else {
            assert(t.drop_first() =~= b@.skip(i + 1));
            i = i + 1;
        }
    }
    i
}

/// Whether clause splitting is defined on `filter` (see `splittable`).
pub fn is_splittable(filter: &str) -> (r: bool)
    ensures
        r == splittable(filter),
{
    let b = filter.as_bytes();
    let mut i: usize = 0;
    while i < b.len()
        invariant
            i <= b@.len(),
            b@ == filter.spec_bytes(),
            split_scan_ok_from(b@, 0) == split_scan_ok_from(b@, i as int),
        decreases b@.len() - i,
    {
        if b[i] == 34u8 {
            let j = closing_quote_byte_index(b, i + 1);
            proof {
                lemma_closing_quote_bytes_bound(b@.skip(i + 1));
            }
            i = if j < b.len() {
                j + 1
            } else {
                b.len()
            };
        } else if b.len() - i >= 5 {
            if !filter.is_char_boundary(i) || !filter.is_char_boundary(i + 5) {
                return false;
            }
            let is_and = b[i] == 32u8 && b[i + 1] == 65u8 && b[i + 2] == 78u8 && b[i + 3] == 68u8 && b[i + 4]
                == 32u8;
            proof {
                if is_and {
                    assert(b@.subrange(i as int, i + 5) =~= and_separator_bytes());
                } else {
                    assert(b@.subrange(i as int, i + 5) != and_separator_bytes()) by {
                        let w = b@.subrange(i as int, i + 5);
                        let a = and_separator_bytes();
                        assert(w[0] == b@[i as int] && w[1] == b@[i + 1] && w[2] == b@[i + 2] && w[3]
                            == b@[i + 3] && w[4] == b@[i + 4]);
                        if w == a {
                            assert(a[0] == 32u8 && a[1] == 65u8 && a[2] == 78u8 && a[3] == 68u8 && a[4]
                                == 32u8);
                        }
                    }
                }
            }
            i = if is_and {
                i + 5
            } else {
                i + 1
            };
        } else {
            i = i + 1;
        }
    }
    true
}

/// Length of a quoted run at the start of `s` (which starts with `"`): the
/// opening quote, the text up to the closing unescaped quote, and that quote;
/// the rest of `s` when the quote is never closed.
pub open spec fn quoted_run_len(s: Seq<char>) -> int {
    let c = closing_quote(s.drop_first()) as int;
    if c + 1 < s.len() {
        c + 2int
    } else {
        s.len() as int
    }
}

/// Clauses of the rest `s` of a filter string, where `cur` is the text of the
/// clause being read so far.  ` AND ` outside quoted runs separates clauses;
/// each clause is trimmed; an empty last clause is dropped.
pub open spec fn split_rest(s: Seq<char>, cur: Seq<char>) -> Seq<Seq<char>>
    decreases s.len(),
{
    if s.len() == 0 {
        if cur.len() > 0 {
            seq![trim(cur)]
        } else {
            seq![]
        }
    } else if s[0] == '"' {
        let k = quoted_run_len(s);
        if 1 <= k <= s.len() {
            split_rest(s.skip(k), cur + s.take(k))
        } else {
            seq![]
        }
    } else if s.len() >= 5 && s.take(5) == " AND "@ {
        seq![trim(cur)] + split_rest(s.skip(5), seq![])
    } else {
        split_rest(s.drop_first(), cur.push(s[0]))
    }
}

/// The clauses of a filter string.
pub open spec fn split_clauses(s: Seq<char>) -> Seq<Seq<char>> {
    split_rest(s, seq![])
}

/// The texts of a sequence of strings.
pub open spec fn texts(v: Seq<String>) -> Seq<Seq<char>> {
    v.map_values(|p: String| p@)
}

/// Split a filter string on ` AND ` while respecting quoted strings.
/// A naive split would break on values like `"Rock AND Roll"`.
pub fn split_filter_clauses(filter_str: &str) -> (r: Vec<String>)
    requires
        splittable(filter_str),
    ensures
        texts(r@) == split_clauses(filter_str@),
{
    let v = chars_of(filter_str);
    let sep = chars_of(" AND ");
    proof {
        reveal_strlit(" AND ");
    }
    let len = v.len();
    let mut parts: Vec<String> = Vec::new();
    let mut start: usize = 0;
    let mut i: usize = 0;
    assert(v@.skip(0) =~= v@);
    assert(v@.subrange(0, 0) =~= Seq::<char>::empty());
    while i < len
        invariant
            len == v.len(),
            v@ == filter_str@,
            sep@ == " AND "@,
            start <= i <= len,
            split_clauses(v@) == texts(parts@) + split_rest(
                v@.skip(i as int),
                v@.subrange(start as int, i as int),
            ),
        decreases len - i,
    {
        let ghost s = v@.skip(i as int);
        let ghost cur = v@.subrange(start as int, i as int);
        if v[i] == '"' {
            let q = closing_quote_index(&v, i + 1);
            let next = if q < len {
                q + 1
            } else {
                len
            };
            proof {
                assert(s.drop_first() =~= v@.skip(i + 1));
                let k = quoted_run_len(s);
                assert(k == next - i);
                assert(s.skip(k) =~= v@.skip(next as int));
                assert(cur + s.take(k) =~= v@.subrange(start as int, next as int));
            }
            i = next;
        } else if len - i >= 5 && matches_at(&v, &sep, i) {
            let (a, b) = trim_bounds(&v, start, i);
            let piece = string_of_range(&v, a, b);
            let ghost before = parts@;
            parts.push(piece);
            proof {
                assert(s.take(5) =~= v@.subrange(i as int, i + 5));
                assert(s.skip(5) =~= v@.skip(i + 5));
                assert(v@.subrange(i + 5, i + 5) =~= Seq::<char>::empty());
                assert(texts(parts@) =~= texts(before).push(trim(cur)));
                reveal_strlit(" AND ");
                assert(s[0] != '"');
                assert(s.take(5) == " AND "@);
                assert(split_rest(s, cur) == seq![trim(cur)] + split_rest(s.skip(5), seq![]));
                assert(texts(before) + split_rest(s, cur) =~= texts(parts@) + split_rest(
                    v@.skip(i + 5),
                    seq![],
                ));
            }
            i = i + 5;
            start = i;
        } else {
            proof {
                if s.len() >= 5 {
                    assert(s.take(5) =~= v@.subrange(i as int, i + 5));
                }
                assert(s.drop_first() =~= v@.skip(i + 1));
                assert(cur.push(s[0]) =~= v@.subrange(start as int, i + 1));
            }
            i = i + 1;
        }
    }
    proof {
        assert(v@.skip(len as int).len() == 0);
    }
    if start < len {
        let (a, b) = trim_bounds(&v, start, len);
        let piece = string_of_range(&v, a, b);
        let ghost before = parts@;
        parts.push(piece);
        assert(texts(parts@) =~= texts(before).push(trim(v@.subrange(start as int, len as int))));
    } else {
        assert(texts(parts@) + seq![] =~= texts(parts@));
    }
    parts
}

/// Parsed filter values extracted from a filter string.
pub struct ParsedFilters {
    /// Director name filter.
    pub director: Option<String>,
    /// Studio name filter.
    pub studio: Option<String>,
    /// Label name filter.
    pub label: Option<String>,
    /// Genre name filter.
    pub genre: Option<String>,
    /// Date range start (inclusive).
    pub date_from: Option<String>,
    /// Date range end (inclusive).
    pub date_to: Option<String>,
}

/// The values of a `ParsedFilters`, as character sequences.
pub struct FilterValues {
    pub director: Option<Seq<char>>,
    pub studio: Option<Seq<char>>,
    pub label: Option<Seq<char>>,
    pub genre: Option<Seq<char>>,
    pub date_from: Option<Seq<char>>,
    pub date_to: Option<Seq<char>>,
}

pub open spec fn opt_text(o: Option<String>) -> Option<Seq<char>> {
    match o {
        Some(s) => Some(s@),
        None => None,
    }
}

impl View for ParsedFilters {
    type V = FilterValues;

    open spec fn view(&self) -> FilterValues {
        FilterValues {
            director: opt_text(self.director),
            studio: opt_text(self.studio),
            label: opt_text(self.label),
            genre: opt_text(self.genre),
            date_from: opt_text(self.date_from),
            date_to: opt_text(self.date_to),
        }
    }
}

/// No filter values.
pub open spec fn no_filter_values() -> FilterValues {
    FilterValues {
        director: None,
        studio: None,
        label: None,
        genre: None,
        date_from: None,
        date_to: None,
    }
}

/// The prefixes that introduce each filter clause, in the order they are tried.
pub open spec fn director_prefix() -> Seq<char> {
    "director_name = "@
}

pub open spec fn studio_prefix() -> Seq<char> {
    "studio_name = "@
}

pub open spec fn label_prefix() -> Seq<char> {
    "label_name = "@
}

pub open spec fn genre_prefix() -> Seq<char> {
    "genre_names = "@
}

pub open spec fn date_from_prefix() -> Seq<char> {
    "date >= \""@
}

pub open spec fn date_to_prefix() -> Seq<char> {
    "date <= \""@
}

/// `f` updated by one clause: the first prefix (director, studio, label, genre,
/// date from, date to) that the trimmed clause starts with sets that value.
pub open spec fn apply_clause(f: FilterValues, part: Seq<char>) -> FilterValues {
    let p = trim(part);
    if clause_value(p, director_prefix()) is Some {
        FilterValues { director: clause_value(p, director_prefix()), ..f }
    } else if clause_value(p, studio_prefix()) is Some {
        FilterValues { studio: clause_value(p, studio_prefix()), ..f }
    } else if clause_value(p, label_prefix()) is Some {
        FilterValues { label: clause_value(p, label_prefix()), ..f }
    } else if clause_value(p, genre_prefix()) is Some {
        FilterValues { genre: clause_value(p, genre_prefix()), ..f }
    } else if clause_value(p, date_from_prefix()) is Some {
        FilterValues { date_from: clause_value(p, date_from_prefix()), ..f }
    } else if clause_value(p, date_to_prefix()) is Some {
        FilterValues { date_to: clause_value(p, date_to_prefix()), ..f }
    } else {
        f
    }
}

/// The filter values set by a sequence of clauses, read left to right.
pub open spec fn apply_clauses(parts: Seq<Seq<char>>) -> FilterValues
    decreases parts.len(),
{
    if parts.len() == 0 {
        no_filter_values()
    } else {
        apply_clause(apply_clauses(parts.drop_last()), parts.last())
    }
}

/// The filter values that a filter string sets.
pub open spec fn filter_values(s: Seq<char>) -> FilterValues {
    apply_clauses(split_clauses(s))
}

/// Parse the filter string into individual filter values.
pub fn parse_filters(filter_str: &str) -> (r: ParsedFilters)
    requires
        splittable(filter_str),
    ensures
        r@ == filter_values(filter_str@),
{
    let mut filters = ParsedFilters {
        director: None,
        studio: None,
        label: None,
        genre: None,
        date_from: None,
        date_to: None,
    };
    let parts = split_filter_clauses(filter_str);
    let mut i: usize = 0;
    assert(texts(parts@).take(0) =~= Seq::<Seq<char>>::empty());
    while i < parts.len()
        invariant
            i <= parts.len(),
            texts(parts@) == split_clauses(filter_str@),
            filters@ == apply_clauses(texts(parts@).take(i as int)),
        decreases parts.len() - i,
    {
        let part = trim_str(parts[i].as_str());
        proof {
            assert(texts(parts@).take(i + 1).drop_last() =~= texts(parts@).take(i as int));
            assert(texts(parts@).take(i + 1).last() == parts@[i as int]@);
        }
        if let Some(val) = extract_filter_value(part.as_str(), "director_name = ") {
            filters.director = Some(val);
        } else if let Some(val) = extract_filter_value(part.as_str(), "studio_name = ") {
            filters.studio = Some(val);
        } else if let Some(val) = extract_filter_value(part.as_str(), "label_name = ") {
            filters.label = Some(val);
        } else if let Some(val) = extract_filter_value(part.as_str(), "genre_names = ") {
            filters.genre = Some(val);
        } else if let Some(val) = extract_filter_value(part.as_str(), "date >= \"") {
            filters.date_from = Some(val);
        } else if let Some(val) = extract_filter_value(part.as_str(), "date <= \"") {
            filters.date_to = Some(val);
        }
        i = i + 1;
    }
    assert(texts(parts@).take(parts.len() as int) =~= texts(parts@));
    filters
}

/// `xs` joined by `sep` (`[a, b, c]` gives `a + sep + b + sep + c`).
pub open spec fn join_texts(xs: Seq<Seq<char>>, sep: Seq<char>) -> Seq<char>
    decreases xs.len(),
{
    if xs.len() == 0 {
        seq![]
    } else if xs.len() == 1 {
        xs[0]
    } else {
        xs[0] + sep + join_texts(xs.drop_first(), sep)
    }
}

proof fn lemma_join_texts_push(xs: Seq<Seq<char>>, x: Seq<char>, sep: Seq<char>)
    requires
        xs.len() > 0,
    ensures
        join_texts(xs.push(x), sep) == join_texts(xs, sep) + sep + x,
    decreases xs.len(),
{
    if xs.len() == 1 {
        assert(xs.push(x).drop_first() =~= seq![x]);
        assert(join_texts(seq![x], sep) == x);
        assert(xs.push(x)[0] == xs[0]);
    } else {
        lemma_join_texts_push(xs.drop_first(), x, sep);
        assert(xs.push(x).drop_first() =~= xs.drop_first().push(x));
        assert(join_texts(xs.push(x), sep) =~= join_texts(xs, sep) + sep + x);
    }
}

/// Joins strings with a separator (`[String]::join`).
pub fn join_strings(xs: &Vec<String>, sep: &str) -> (r: String)
    ensures
        r@ == join_texts(texts(xs@), sep@),
{
    let mut r = String::new();
    let mut i: usize = 0;
    while i < xs.len()
        invariant
            i <= xs.len(),
            r@ == join_texts(texts(xs@).take(i as int), sep@),
        decreases xs.len() - i,
    {
        proof {
            assert(texts(xs@).take(i + 1) =~= texts(xs@).take(i as int).push(xs@[i as int]@));
            if i > 0 {
                lemma_join_texts_push(texts(xs@).take(i as int), xs@[i as int]@, sep@);
            } else {
                assert(texts(xs@).take(1) =~= seq![xs@[0]@]);
            }
        }
        if i > 0 {
            push_str(&mut r, sep);
        }
        push_str(&mut r, xs[i].as_str());
        i = i + 1;
    }
    assert(texts(xs@).take(xs.len() as int) =~= texts(xs@));
    r
}

/// The clause that keeps one entity type: `entity_type = "<name>"`.
pub open spec fn entity_type_clause(t: SearchEntityType) -> Seq<char> {
    "entity_type = \""@ + escape_text(entity_type_name(t)) + "\""@
}

/// Entity-type OR-group of a filter string: `(c1 OR c2 ...)`.
pub open spec fn entity_types_group(types: Seq<SearchEntityType>) -> Seq<char> {
    "("@ + join_texts(types.map_values(|t: SearchEntityType| entity_type_clause(t)), " OR "@) + ")"@
}

/// The filter string combining entity type OR-clauses with additional AND filters.
pub open spec fn combined_filter(types: Seq<SearchEntityType>, additional: Seq<char>) -> Seq<char> {
    let parts = (if types.len() > 0 {
        seq![entity_types_group(types)]
    } else {
        seq![]
    }) + (if additional.len() > 0 {
        seq![additional]
    } else {
        seq![]
    });
    join_texts(parts, " AND "@)
}

/// Build a filter string combining entity type OR-clauses with additional AND filters.
pub fn build_filter_string(entity_types: &[SearchEntityType], additional_filters: &str) -> (r: String)
    ensures
        r@ == combined_filter(entity_types@, additional_filters@),
{
    let mut parts: Vec<String> = Vec::new();
    if entity_types.len() > 0 {
        let mut type_filters: Vec<String> = Vec::new();
        let mut i: usize = 0;
        while i < entity_types.len()
            invariant
                i <= entity_types.len(),
                texts(type_filters@) == entity_types@.take(i as int).map_values(
                    |t: SearchEntityType| entity_type_clause(t),
                ),
            decreases entity_types.len() - i,
        {
            let mut clause = String::new();
            push_str(&mut clause, "entity_type = \"");
            let escaped = escape_filter_value(entity_types[i].as_str());
            push_str(&mut clause, escaped.as_str());
            push_str(&mut clause, "\"");
            let ghost before = type_filters@;
            type_filters.push(clause);
            proof {
                assert(clause@ == entity_type_clause(entity_types@[i as int]));
                assert(texts(type_filters@) =~= texts(before).push(clause@));
                assert(entity_types@.take(i + 1) =~= entity_types@.take(i as int).push(
                    entity_types@[i as int],
                ));
                assert(entity_types@.take(i + 1).map_values(
                    |t: SearchEntityType| entity_type_clause(t),
                ) =~= entity_types@.take(i as int).map_values(
                    |t: SearchEntityType| entity_type_clause(t),
                ).push(entity_type_clause(entity_types@[i as int])));
            }
            i = i + 1;
        }
        assert(entity_types@.take(entity_types.len() as int) =~= entity_types@);
        let joined = join_strings(&type_filters, " OR ");
        let mut group = String::new();
        push_str(&mut group, "(");
        push_str(&mut group, joined.as_str());
        push_str(&mut group, ")");
        parts.push(group);
    }
    let extra = chars_of(additional_filters);
    if extra.len() > 0 {
        parts.push(string_of(&extra));
    }
    let r = join_strings(&parts, " AND ");
    proof {
        let expected = (if entity_types@.len() > 0 {
            seq![entity_types_group(entity_types@)]
        } else {
            seq![]
        }) + (if additional_filters@.len() > 0 {
            seq![additional_filters@]
        } else {
            seq![]
        });
        assert(texts(parts@) =~= expected);
    }
    r
}

} // verus!
