//! The filter syntax on UTF-8 bytes: the byte scan for a closing quote agrees
//! with the scan on characters, so an escaped value can never end a quoted
//! string early, and search filter strings are split without cutting a
//! character apart.

use vstd::prelude::*;
use vstd::utf8::*;

use crate::filter::{
    and_separator_bytes, closing_quote, closing_quote_bytes, escape_text, filter_values, join_texts,
    lemma_closing_quote_bound, opt_text, split_scan_ok_from, splittable,
};
use crate::filter_laws::{lemma_closing_quote_after_escape, lemma_search_filter_reads_back, written_values};
use crate::search::{optional_clause, search_filter, search_filter_clauses, SearchQuery};
use crate::text::{int_text, is_digit_char, lemma_decimal_digits_are_digits};

verus! {

proof fn lemma_scalar_bytes_bv(s: u32)
    by (bit_vector)
    ensures
        has_width_1_encoding(s) ==> (leading_byte_width_1(s) as u32 == s),
        has_width_2_encoding(s) ==> leading_byte_width_2(s) >= 0xC0 && last_continuation_byte(s)
            >= 0x80,
        has_width_3_encoding(s) ==> leading_byte_width_3(s) >= 0xC0 && second_last_continuation_byte(
            s,
        ) >= 0x80 && last_continuation_byte(s) >= 0x80,
        has_width_4_encoding(s) ==> leading_byte_width_4(s) >= 0xC0 && third_last_continuation_byte(
            s,
        ) >= 0x80 && second_last_continuation_byte(s) >= 0x80 && last_continuation_byte(s) >= 0x80,
{
}

/// The UTF-8 encoding of one character: one byte equal to the character when it
/// is ASCII; otherwise two or more bytes, none below `0x80`, the first a leading byte.
pub proof fn lemma_char_bytes(c: char)
    ensures
        encode_scalar(c as u32).len() >= 1,
        !is_continuation_byte(encode_scalar(c as u32)[0]),
        (c as u32) < 0x80 ==> encode_scalar(c as u32).len() == 1 && encode_scalar(c as u32)[0] as u32
            == c as u32,
        (c as u32) >= 0x80 ==> encode_scalar(c as u32).len() >= 2 && forall|i: int|
            0 <= i < encode_scalar(c as u32).len() ==> #[trigger] encode_scalar(c as u32)[i] >= 0x80,
{
    let s = c as u32;
    char_is_scalar(c);
    lemma_scalar_bytes_bv(s);
}

/// Encoding is compatible with concatenation.
pub proof fn lemma_encode_concat(a: Seq<char>, b: Seq<char>)
    ensures
        encode_utf8(a + b) == encode_utf8(a) + encode_utf8(b),
    decreases a.len(),
{
    if a.len() == 0 {
        assert(a + b =~= b);
        assert(encode_utf8(a) + encode_utf8(b) =~= encode_utf8(b));
    } else {
        lemma_encode_concat(a.drop_first(), b);
        assert((a + b).drop_first() =~= a.drop_first() + b);
        assert((a + b)[0] == a[0]);
        assert(encode_utf8(a + b) =~= encode_utf8(a) + encode_utf8(b));
    }
}

proof fn lemma_skip_high_bytes(p: Seq<u8>, rest: Seq<u8>)
    requires
        forall|i: int| 0 <= i < p.len() ==> #[trigger] p[i] >= 0x80,
    ensures
        closing_quote_bytes(p + rest) == p.len() + closing_quote_bytes(rest),
    decreases p.len(),
{
    if p.len() == 0 {
        assert(p + rest =~= rest);
    } else {
        assert((p + rest)[0] == p[0]);
        assert((p + rest).drop_first() =~= p.drop_first() + rest);
        lemma_skip_high_bytes(p.drop_first(), rest);
    }
}

/// The byte scan for a closing quote stops exactly at the bytes of the text that
/// the character scan stops at.
pub proof fn lemma_closing_quote_bytes_of_chars(s: Seq<char>)
    ensures
        closing_quote_bytes(encode_utf8(s)) == encode_utf8(s.take(closing_quote(s) as int)).len(),
    decreases s.len(),
{
    if s.len() == 0 {
        assert(s.take(0) =~= s);
    } else {
        let c = s[0];
        let r = s.drop_first();
        let e0 = encode_scalar(c as u32);
        let b = encode_utf8(s);
        assert(b == e0 + encode_utf8(r));
        lemma_char_bytes(c);
        assert(('\\' as u32) == 92);
        assert(('"' as u32) == 34);
        if c == '\\' && s.len() >= 2 {
            let c1 = s[1];
            let e1 = encode_scalar(c1 as u32);
            let t = s.skip(2);
            assert(r[0] == c1);
            assert(r.drop_first() =~= t);
            assert(encode_utf8(r) == e1 + encode_utf8(t));
            lemma_char_bytes(c1);
            assert(b =~= seq![92u8] + e1 + encode_utf8(t));
            assert(b.skip(2) =~= e1.skip(1) + encode_utf8(t));
            assert forall|i: int| 0 <= i < e1.skip(1).len() implies #[trigger] e1.skip(1)[i] >= 0x80 by {
                assert(e1.skip(1)[i] == e1[i + 1]);
            }
            lemma_skip_high_bytes(e1.skip(1), encode_utf8(t));
            assert(b[0] == 92u8);
            assert(closing_quote_bytes(b) == 2 + closing_quote_bytes(b.skip(2)));
            lemma_closing_quote_bytes_of_chars(t);
            let k = closing_quote(t) as int;
            lemma_closing_quote_bound(t);
            assert(closing_quote(s) == 2 + k);
            assert(s.take(2 + k) =~= seq![c, c1] + t.take(k));
            lemma_encode_concat(seq![c, c1], t.take(k));
            let sc1 = seq![c1];
            let sc = seq![c, c1];
            assert(sc1[0] == c1);
            assert(sc1.drop_first() =~= Seq::<char>::empty());
            assert(encode_utf8(Seq::<char>::empty()) =~= Seq::<u8>::empty());
            assert(encode_utf8(sc1) == e1 + encode_utf8(sc1.drop_first()));
            assert(encode_utf8(sc1) =~= e1);
            assert(sc[0] == c);
            assert(sc.drop_first() =~= sc1);
            assert(encode_utf8(sc) =~= e0 + e1);
        } else if c == '"' {
            assert(s.take(0) =~= Seq::<char>::empty());
        } else {
            lemma_closing_quote_bytes_of_chars(r);
            let k = closing_quote(r) as int;
            lemma_closing_quote_bound(r);
            assert(s.take(1 + k) =~= seq![c] + r.take(k));
            lemma_encode_concat(seq![c], r.take(k));
            let sc = seq![c];
            assert(sc[0] == c);
            assert(sc.drop_first() =~= Seq::<char>::empty());
            assert(encode_utf8(Seq::<char>::empty()) =~= Seq::<u8>::empty());
            assert(encode_utf8(sc) == e0 + encode_utf8(sc.drop_first()));
            assert(encode_utf8(sc) =~= e0);
            if (c as u32) < 0x80 {
                assert(b.drop_first() =~= encode_utf8(r));
                char_u32_cast(c, c as u32);
                char_u32_cast('"', '"' as u32);
                char_u32_cast('\\', '\\' as u32);
                assert(b[0] != 34u8);
                if c == '\\' {
                    assert(r.len() == 0);
                    assert(encode_utf8(r) =~= Seq::<u8>::empty());
                }
                assert(b[0] != 92u8 || b.len() < 2);
                assert(closing_quote_bytes(b) == 1 + closing_quote_bytes(encode_utf8(r)));
            } else {
                lemma_skip_high_bytes(e0, encode_utf8(r));
            }
        }
    }
}

/// No filter injection, on bytes: in a quoted string that starts with an escaped
/// value, the closing quote is the one right after the value's bytes.
pub proof fn lemma_closing_quote_bytes_after_escape(v: Seq<char>, w: Seq<char>)
    ensures
        closing_quote_bytes(encode_utf8(escape_text(v) + seq!['"'] + w)) == encode_utf8(
            escape_text(v),
        ).len(),
{
    let e = escape_text(v);
    let s = e + seq!['"'] + w;
    assert(s =~= e + (seq!['"'] + w));
    lemma_closing_quote_after_escape(v, seq!['"'] + w);
    assert((seq!['"'] + w)[0] == '"');
    assert(closing_quote(seq!['"'] + w) == 0);
    lemma_closing_quote_bytes_of_chars(s);
    assert(s.take(e.len() as int) =~= e);
}

/// ASCII text without a `"`: the text of a filter outside its quoted values.
pub open spec fn plain_ascii(s: Seq<char>) -> bool {
    forall|i: int| 0 <= i < s.len() ==> (#[trigger] s[i] as u32) < 0x80 && s[i] != '"'
}

/// Whether the first three characters of `t` (as far as it goes) are ASCII.
pub open spec fn starts_ascii(t: Seq<char>) -> bool {
    forall|i: int| 0 <= i < 3 && i < t.len() ==> (#[trigger] t[i] as u32) < 0x80
}

/// The encoding of ASCII text is the text, byte for byte.
proof fn lemma_ascii_bytes(s: Seq<char>)
    requires
        forall|i: int| 0 <= i < s.len() ==> (#[trigger] s[i] as u32) < 0x80,
    ensures
        encode_utf8(s).len() == s.len(),
        forall|i: int| 0 <= i < s.len() ==> #[trigger] encode_utf8(s)[i] as u32 == s[i] as u32,
    decreases s.len(),
{
    if s.len() > 0 {
        let r = s.drop_first();
        assert forall|i: int| 0 <= i < r.len() implies (#[trigger] r[i] as u32) < 0x80 by {
            assert(r[i] == s[i + 1]);
        }
        lemma_ascii_bytes(r);
        lemma_char_bytes(s[0]);
        let b = encode_utf8(s);
        assert(b == encode_scalar(s[0] as u32) + encode_utf8(r));
        assert forall|i: int| 0 <= i < s.len() implies #[trigger] b[i] as u32 == s[i] as u32 by {
            if i > 0 {
                assert(b[i] == encode_utf8(r)[i - 1]);
                assert(r[i - 1] == s[i]);
            }
        }
    }
}

/// Starting with ASCII text, the first bytes of an encoding are no continuation bytes.
proof fn lemma_leading_bytes(t: Seq<char>, n: int)
    requires
        0 <= n <= 3,
        forall|i: int| 0 <= i < n && i < t.len() ==> (#[trigger] t[i] as u32) < 0x80,
    ensures
        forall|j: int|
            0 <= j <= n && j < encode_utf8(t).len() ==> !is_continuation_byte(
                #[trigger] encode_utf8(t)[j],
            ),
    decreases n,
{
    if t.len() > 0 {
        let r = t.drop_first();
        let b = encode_utf8(t);
        lemma_char_bytes(t[0]);
        assert(b == encode_scalar(t[0] as u32) + encode_utf8(r));
        if n > 0 {
            assert forall|i: int| 0 <= i < n - 1 && i < r.len() implies (#[trigger] r[i] as u32)
                < 0x80 by {
                assert(r[i] == t[i + 1]);
            }
            lemma_leading_bytes(r, n - 1);
            assert forall|j: int| 0 <= j <= n && j < b.len() implies !is_continuation_byte(
                #[trigger] b[j],
            ) by {
                if j > 0 {
                    assert(b[j] == encode_utf8(r)[j - 1]);
                }
            }
        }
    }
}

/// The splitting scan passes over plain ASCII bytes when what follows them is a
/// quote (or the end) with no continuation byte in the next five bytes.
proof fn lemma_scan_plain(b: Seq<u8>, i: int, j: int)
    requires
        valid_utf8(b),
        0 <= i <= j <= b.len(),
        forall|k: int| i <= k < j ==> #[trigger] b[k] < 0x80 && b[k] != 34u8,
        j == b.len() || b[j] == 34u8,
        forall|m: int| j <= m < j + 5 && m < b.len() ==> !is_continuation_byte(#[trigger] b[m]),
        split_scan_ok_from(b, j),
    ensures
        split_scan_ok_from(b, i),
    decreases j - i,
{
    broadcast use is_char_boundary_iff_not_is_continuation_byte, is_char_boundary_start_end_of_seq;

    if i < j {
        assert(b[i] < 0x80 && b[i] != 34u8);
        if i + 5 <= b.len() {
            is_char_boundary_iff_not_is_continuation_byte(b, i);
            assert(is_char_boundary(b, i));
            if i + 5 < b.len() {
                is_char_boundary_iff_not_is_continuation_byte(b, i + 5);
                if i + 5 < j {
                    assert(b[i + 5] < 0x80);
                } else {
                    assert(!is_continuation_byte(b[i + 5]));
                }
                assert(is_char_boundary(b, i + 5));
            } else {
                assert(is_char_boundary(b, b.len() as int));
            }
            if b.subrange(i, i + 5) == and_separator_bytes() {
                if i + 5 > j {
                    assert(b.subrange(i, i + 5)[j - i] == b[j]);
                    assert(b[j] == 34u8);
                    assert(false);
                }
                lemma_scan_plain(b, i + 5, j);
            } else {
                lemma_scan_plain(b, i + 1, j);
            }
        } else {
            lemma_scan_plain(b, i + 1, j);
        }
    }
}

/// The splitting scan jumps over a quoted run to the byte after its closing quote.
proof fn lemma_scan_quoted(b: Seq<u8>, q: int)
    requires
        0 <= q < b.len(),
        b[q] == 34u8,
        q + 1 + closing_quote_bytes(b.skip(q + 1)) < b.len(),
    ensures
        split_scan_ok_from(b, q) == split_scan_ok_from(b, q + 2 + closing_quote_bytes(b.skip(q + 1))),
{
}

/// A quoted filter clause: plain text, then the escaped value between quotes.
pub open spec fn quoted_clause(p: Seq<char>, v: Seq<char>) -> Seq<char> {
    p + seq!['"'] + escape_text(v) + seq!['"']
}

/// A quoted clause whose plain text is ASCII and whose escaped value starts with
/// three ASCII characters (or is shorter and all ASCII).
pub open spec fn clause_splits_cleanly(c: Seq<char>) -> bool {
    exists|p: Seq<char>, v: Seq<char>|
        #[trigger] quoted_clause(p, v) == c && plain_ascii(p) && starts_ascii(escape_text(v))
}

/// Each clause preceded by ` AND `.
pub open spec fn joined_tail(cs: Seq<Seq<char>>) -> Seq<char>
    decreases cs.len(),
{
    if cs.len() == 0 {
        seq![]
    } else {
        " AND "@ + cs[0] + joined_tail(cs.drop_first())
    }
}

proof fn lemma_join_head_tail(c0: Seq<char>, cs: Seq<Seq<char>>)
    ensures
        join_texts(seq![c0] + cs, " AND "@) == c0 + joined_tail(cs),
    decreases cs.len(),
{
    let xs = seq![c0] + cs;
    if cs.len() == 0 {
        assert(xs =~= seq![c0]);
        assert(c0 + joined_tail(cs) =~= c0);
    } else {
        assert(xs.drop_first() =~= seq![cs[0]] + cs.drop_first());
        lemma_join_head_tail(cs[0], cs.drop_first());
        assert(xs[0] == c0);
        assert(c0 + joined_tail(cs) =~= c0 + " AND "@ + (cs[0] + joined_tail(cs.drop_first())));
    }
}

proof fn lemma_plain_bytes(b: Seq<u8>, x: Seq<char>, p: Seq<char>, i0: int)
    requires
        plain_ascii(p),
        i0 == encode_utf8(x).len(),
        b.len() >= i0 + p.len(),
        b.subrange(0, i0 + encode_utf8(p).len()) == encode_utf8(x) + encode_utf8(p),
    ensures
        encode_utf8(p).len() == p.len(),
        forall|k: int| i0 <= k < i0 + p.len() ==> #[trigger] b[k] < 0x80 && b[k] != 34u8,
{
    lemma_ascii_bytes(p);
    char_u32_cast('"', '"' as u32);
    assert forall|k: int| i0 <= k < i0 + p.len() implies #[trigger] b[k] < 0x80 && b[k] != 34u8 by {
        let c = p[k - i0];
        assert(b.subrange(0, i0 + encode_utf8(p).len())[k] == b[k]);
        assert(b[k] == encode_utf8(p)[k - i0]);
        assert(b[k] as u32 == c as u32);
        char_u32_cast(c, c as u32);
        assert(c != '"');
    }
}

/// The splitting scan never cuts a character from the start of `pre` onwards,
/// when `pre` is plain ASCII text followed by cleanly splitting quoted clauses.
proof fn lemma_scan_tail(x: Seq<char>, pre: Seq<char>, cs: Seq<Seq<char>>)
    requires
        plain_ascii(pre),
        forall|i: int| 0 <= i < cs.len() ==> clause_splits_cleanly(#[trigger] cs[i]),
    ensures
        split_scan_ok_from(encode_utf8(x + pre + joined_tail(cs)), encode_utf8(x).len() as int),
    decreases cs.len(),
{
    let f = x + pre + joined_tail(cs);
    let b = encode_utf8(f);
    encode_utf8_valid_utf8(f);
    let i0 = encode_utf8(x).len() as int;
    if cs.len() == 0 {
        assert(f =~= x + pre);
        lemma_encode_concat(x, pre);
        lemma_ascii_bytes(pre);
        assert(b.subrange(0, i0 + encode_utf8(pre).len()) =~= b);
        lemma_plain_bytes(b, x, pre, i0);
        lemma_scan_plain(b, i0, b.len() as int);
    } else {
        let c = cs[0];
        assert(clause_splits_cleanly(c));
        let (p, v) = choose|p: Seq<char>, v: Seq<char>|
            #[trigger] quoted_clause(p, v) == c && plain_ascii(p) && starts_ascii(escape_text(v));
        let e = escape_text(v);
        reveal_strlit(" AND ");
        let pp = pre + " AND "@ + p;
        assert(plain_ascii(pp)) by {
            assert forall|i: int| 0 <= i < pp.len() implies (#[trigger] pp[i] as u32) < 0x80 && pp[i]
                != '"' by {
                if i < pre.len() {
                    assert(pp[i] == pre[i]);
                } else if i < pre.len() + 5 {
                    assert(pp[i] == " AND "@[i - pre.len()]);
                } else {
                    assert(pp[i] == p[i - pre.len() - 5]);
                }
            }
        }
        let rest = joined_tail(cs.drop_first());
        let y = e + seq!['"'] + rest;
        let x2 = x + pp + seq!['"'] + e + seq!['"'];
        assert(f =~= x + pp + (seq!['"'] + y));
        assert(f =~= x2 + Seq::<char>::empty() + rest);
        assert forall|i: int| 0 <= i < cs.drop_first().len() implies clause_splits_cleanly(
            #[trigger] cs.drop_first()[i],
        ) by {
            assert(cs.drop_first()[i] == cs[i + 1]);
        }
        assert(plain_ascii(Seq::<char>::empty()));
        lemma_scan_tail(x2, Seq::<char>::empty(), cs.drop_first());
        // the bytes: enc(x) ++ enc(pp) ++ [34] ++ enc(y)
        lemma_encode_concat(x, pp);
        lemma_encode_concat(x + pp, seq!['"'] + y);
        lemma_encode_concat(seq!['"'], y);
        lemma_char_bytes('"');
        assert(('"' as u32) == 34);
        let sq = seq!['"'];
        assert(sq[0] == '"');
        assert(sq.drop_first() =~= Seq::<char>::empty());
        assert(encode_utf8(Seq::<char>::empty()) =~= Seq::<u8>::empty());
        assert(encode_utf8(sq) == encode_scalar('"' as u32) + encode_utf8(sq.drop_first()));
        assert(encode_utf8(sq) =~= seq![34u8]);
        lemma_ascii_bytes(pp);
        let q = i0 + pp.len();
        assert(b =~= encode_utf8(x) + encode_utf8(pp) + (seq![34u8] + encode_utf8(y)));
        assert(b[q] == 34u8);
        assert(b.skip(q + 1) =~= encode_utf8(y));
        lemma_closing_quote_bytes_after_escape(v, rest);
        lemma_encode_concat(e, seq!['"'] + rest);
        lemma_encode_concat(seq!['"'], rest);
        assert(y =~= e + (seq!['"'] + rest));
        let ne = encode_utf8(e).len() as int;
        assert(q + 1 + ne < b.len());
        lemma_scan_quoted(b, q);
        // the position after the closing quote is the end of x2's bytes
        lemma_encode_concat(x + pp, seq!['"'] + (e + seq!['"']));
        lemma_encode_concat(seq!['"'], e + seq!['"']);
        lemma_encode_concat(e, seq!['"']);
        assert(x2 =~= (x + pp) + (seq!['"'] + (e + seq!['"'])));
        assert(encode_utf8(x2).len() == q + 2 + ne);
        // no continuation byte right after the opening quote
        assert forall|i: int| 0 <= i < 3 && i < y.len() implies (#[trigger] y[i] as u32) < 0x80 by {
            if i < e.len() {
                assert(y[i] == e[i]);
            } else if i == e.len() {
                assert(y[i] == '"');
            } else {
                assert(y[i] == rest[i - e.len() - 1]);
                let cs1 = cs.drop_first();
                assert(cs1.len() > 0);
                assert(rest =~= " AND "@ + (cs1[0] + joined_tail(cs1.drop_first())));
                assert(rest[i - e.len() - 1] == " AND "@[i - e.len() - 1]);
            }
        }
        lemma_leading_bytes(y, 3);
        assert forall|m: int| q <= m < q + 5 && m < b.len() implies !is_continuation_byte(
            #[trigger] b[m],
        ) by {
            if m > q {
                assert(b[m] == encode_utf8(y)[m - q - 1]);
            }
        }
        assert(b.subrange(0, i0 + encode_utf8(pp).len()) =~= encode_utf8(x) + encode_utf8(pp));
        lemma_plain_bytes(b, x, pp, i0);
        lemma_scan_plain(b, i0, q);
    }
}

/// Whether the escaped form of a filter value starts with three ASCII
/// characters (or is shorter and all ASCII); true of an absent value.
pub open spec fn value_starts_ascii(o: Option<Seq<char>>) -> bool {
    match o {
        Some(v) => starts_ascii(escape_text(v)),
        None => true,
    }
}

/// Whether every filter value of a search request escapes to text that starts
/// with three ASCII characters.
pub open spec fn filter_values_start_ascii(q: SearchQuery) -> bool {
    &&& value_starts_ascii(opt_text(q.director))
    &&& value_starts_ascii(opt_text(q.studio))
    &&& value_starts_ascii(opt_text(q.label))
    &&& value_starts_ascii(opt_text(q.genre))
    &&& value_starts_ascii(opt_text(q.date_from))
    &&& value_starts_ascii(opt_text(q.date_to))
}

proof fn lemma_optional_clean(v: Option<Seq<char>>, p: Seq<char>, head: Seq<char>)
    requires
        head == p + seq!['"'],
        plain_ascii(p),
        value_starts_ascii(v),
    ensures
        forall|i: int|
            0 <= i < optional_clause(v, head).len() ==> clause_splits_cleanly(
                #[trigger] optional_clause(v, head)[i],
            ),
{
    reveal_strlit("\"");
    match v {
        Some(x) => {
            let c = head + escape_text(x) + "\""@;
            assert(quoted_clause(p, x) =~= c);
            assert(optional_clause(v, head)[0] == c);
            assert(clause_splits_cleanly(c));
        },
        None => {},
    }
}

proof fn lemma_head_plain(head: Seq<char>)
    requires
        head.len() > 0,
        head.last() == '"',
        plain_ascii(head.drop_last()),
    ensures
        head == head.drop_last() + seq!['"'],
{
    assert(head =~= head.drop_last() + seq!['"']);
}

proof fn lemma_clean_concat(a: Seq<Seq<char>>, b: Seq<Seq<char>>)
    requires
        forall|i: int| 0 <= i < a.len() ==> clause_splits_cleanly(#[trigger] a[i]),
        forall|i: int| 0 <= i < b.len() ==> clause_splits_cleanly(#[trigger] b[i]),
    ensures
        forall|i: int| 0 <= i < (a + b).len() ==> clause_splits_cleanly(#[trigger] (a + b)[i]),
{
    assert forall|i: int| 0 <= i < (a + b).len() implies clause_splits_cleanly(#[trigger] (a + b)[i]) by {
        if i < a.len() {
            assert((a + b)[i] == a[i]);
        } else {
            assert((a + b)[i] == b[i - a.len()]);
        }
    }
}

proof fn lemma_permission_plain(permission: int)
    ensures
        plain_ascii("permission <= "@ + int_text(permission)),
{
    reveal_strlit("permission <= ");
    let digits = int_text(permission);
    let c0 = "permission <= "@ + digits;
    let n: nat = if permission < 0 { (-permission) as nat } else { permission as nat };
    lemma_decimal_digits_are_digits(n);
    assert forall|i: int| 0 <= i < c0.len() implies (#[trigger] c0[i] as u32) < 0x80 && c0[i] != '"' by {
        if i >= 14 {
            let d = c0[i];
            assert(d == digits[i - 14]);
            if permission >= 0 || i > 14 {
                assert(is_digit_char(d));
            }
        }
    }
}

proof fn lemma_heads_plain()
    ensures
        plain_ascii("director_name = \""@.drop_last()),
        plain_ascii("studio_name = \""@.drop_last()),
        plain_ascii("label_name = \""@.drop_last()),
        plain_ascii("genre_names = \""@.drop_last()),
        plain_ascii("date >= \""@.drop_last()),
        plain_ascii("date <= \""@.drop_last()),
        "director_name = \""@.last() == '"',
        "studio_name = \""@.last() == '"',
        "label_name = \""@.last() == '"',
        "genre_names = \""@.last() == '"',
        "date >= \""@.last() == '"',
        "date <= \""@.last() == '"',
{
    reveal_strlit("director_name = \"");
    reveal_strlit("studio_name = \"");
    reveal_strlit("label_name = \"");
    reveal_strlit("genre_names = \"");
    reveal_strlit("date >= \"");
    reveal_strlit("date <= \"");
}

/// The field clauses of a search request's filter string.
spec fn field_clauses(q: SearchQuery) -> Seq<Seq<char>> {
    optional_clause(opt_text(q.director), "director_name = \""@) + optional_clause(
        opt_text(q.studio),
        "studio_name = \""@,
    ) + optional_clause(opt_text(q.label), "label_name = \""@) + optional_clause(
        opt_text(q.genre),
        "genre_names = \""@,
    ) + optional_clause(opt_text(q.date_from), "date >= \""@) + optional_clause(
        opt_text(q.date_to),
        "date <= \""@,
    )
}

proof fn lemma_field_clauses_clean(q: SearchQuery)
    requires
        filter_values_start_ascii(q),
    ensures
        forall|i: int| 0 <= i < field_clauses(q).len() ==> clause_splits_cleanly(#[trigger] field_clauses(q)[i]),
{
    lemma_heads_plain();
    let h1 = "director_name = \""@;
    let h2 = "studio_name = \""@;
    let h3 = "label_name = \""@;
    let h4 = "genre_names = \""@;
    let h5 = "date >= \""@;
    let h6 = "date <= \""@;
    assert(h1.len() > 0 && h2.len() > 0 && h3.len() > 0 && h4.len() > 0 && h5.len() > 0 && h6.len() > 0)
        by {
        reveal_strlit("director_name = \"");
        reveal_strlit("studio_name = \"");
        reveal_strlit("label_name = \"");
        reveal_strlit("genre_names = \"");
        reveal_strlit("date >= \"");
        reveal_strlit("date <= \"");
    }
    lemma_head_plain(h1);
    lemma_head_plain(h2);
    lemma_head_plain(h3);
    lemma_head_plain(h4);
    lemma_head_plain(h5);
    lemma_head_plain(h6);
    let o1 = optional_clause(opt_text(q.director), h1);
    let o2 = optional_clause(opt_text(q.studio), h2);
    let o3 = optional_clause(opt_text(q.label), h3);
    let o4 = optional_clause(opt_text(q.genre), h4);
    let o5 = optional_clause(opt_text(q.date_from), h5);
    let o6 = optional_clause(opt_text(q.date_to), h6);
    lemma_optional_clean(opt_text(q.director), h1.drop_last(), h1);
    lemma_optional_clean(opt_text(q.studio), h2.drop_last(), h2);
    lemma_optional_clean(opt_text(q.label), h3.drop_last(), h3);
    lemma_optional_clean(opt_text(q.genre), h4.drop_last(), h4);
    lemma_optional_clean(opt_text(q.date_from), h5.drop_last(), h5);
    lemma_optional_clean(opt_text(q.date_to), h6.drop_last(), h6);
    lemma_clean_concat(o1, o2);
    lemma_clean_concat(o1 + o2, o3);
    lemma_clean_concat(o1 + o2 + o3, o4);
    lemma_clean_concat(o1 + o2 + o3 + o4, o5);
    lemma_clean_concat(o1 + o2 + o3 + o4 + o5, o6);
}

proof fn lemma_clauses_split(q: SearchQuery, permission: int)
    ensures
        search_filter_clauses(
            permission,
            opt_text(q.director),
            opt_text(q.studio),
            opt_text(q.label),
            opt_text(q.genre),
            opt_text(q.date_from),
            opt_text(q.date_to),
        ) == seq!["permission <= "@ + int_text(permission)] + field_clauses(q),
{
    assert(search_filter_clauses(
        permission,
        opt_text(q.director),
        opt_text(q.studio),
        opt_text(q.label),
        opt_text(q.genre),
        opt_text(q.date_from),
        opt_text(q.date_to),
    ) =~= seq!["permission <= "@ + int_text(permission)] + field_clauses(q));
}

/// The filter string of a search request can be split into clauses (the
/// splitting scan never cuts a character apart) when each filter value's escaped
/// form starts with three ASCII characters.  On a value such as `Émile` the
/// scan would slice the first character apart.
#[verifier::spinoff_prover]
pub proof fn lemma_search_filter_splittable(q: SearchQuery, permission: int)
    requires
        filter_values_start_ascii(q),
    ensures
        split_scan_ok_from(encode_utf8(search_filter(q, permission)), 0),
{
    let c0 = "permission <= "@ + int_text(permission);
    lemma_permission_plain(permission);
    lemma_field_clauses_clean(q);
    let opts = field_clauses(q);
    let cs = search_filter_clauses(
        permission,
        opt_text(q.director),
        opt_text(q.studio),
        opt_text(q.label),
        opt_text(q.genre),
        opt_text(q.date_from),
        opt_text(q.date_to),
    );
    lemma_clauses_split(q, permission);
    lemma_join_head_tail(c0, opts);
    assert(Seq::<char>::empty() + c0 + joined_tail(opts) =~= search_filter(q, permission));
    assert(encode_utf8(Seq::<char>::empty()) =~= Seq::<u8>::empty());
    lemma_scan_tail(Seq::<char>::empty(), c0, opts);
}

/// A filter string built for a search request whose values start with ASCII is
/// accepted by `parse_filters` (it is splittable), and `parse_filters` reads back
/// exactly the request's director, studio, label, genre and date filters,
/// whatever else the values hold (quotes, backslashes, ` AND `, later non-ASCII text).
pub proof fn lemma_built_filter_parses(q: SearchQuery, permission: int, filter: &str)
    requires
        filter@ == search_filter(q, permission),
        filter_values_start_ascii(q),
    ensures
        splittable(filter),
        filter_values(filter@) == written_values(
            opt_text(q.director),
            opt_text(q.studio),
            opt_text(q.label),
            opt_text(q.genre),
            opt_text(q.date_from),
            opt_text(q.date_to),
        ),
{
    lemma_search_filter_splittable(q, permission);
    lemma_search_filter_reads_back(q, permission);
}

} // verus!
