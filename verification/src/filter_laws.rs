//! Laws of the filter syntax: escaped values read back unchanged, and the
//! filter string built for a search request parses back to its field filters.

use vstd::prelude::*;

use crate::filter::{
    apply_clause, apply_clauses, clause_value, closing_quote, date_from_prefix, date_to_prefix,
    director_prefix, escape_char, escape_text, filter_values, genre_prefix, join_texts,
    label_prefix, no_filter_values, opt_text, quoted_run_len, replace_all, split_clauses,
    split_rest, studio_prefix, unescape_text, FilterValues,
};
use crate::search::{optional_clause, search_filter, search_filter_clauses, SearchQuery};
use crate::text::{
    decimal_digits, int_text, is_digit_char, is_white_space, lemma_decimal_digits_are_digits, trim,
    trim_end, trim_start,
};

verus! {

proof fn lemma_escape_unfold(v: Seq<char>)
    requires
        v.len() > 0,
    ensures
        escape_text(v) == escape_char(v[0]) + escape_text(v.drop_first()),
{
}

proof fn lemma_escape_len(v: Seq<char>)
    ensures
        escape_text(v).len() >= v.len(),
        escape_text(v).len() > 0 ==> escape_text(v)[0] != '"',
    decreases v.len(),
{
    if v.len() > 0 {
        lemma_escape_len(v.drop_first());
    }
}

/// `escape_text` with `\"` already turned back into `"`.
spec fn half_unescaped(v: Seq<char>) -> Seq<char>
    decreases v.len(),
{
    if v.len() == 0 {
        seq![]
    } else {
        (if v[0] == '\\' {
            seq!['\\', '\\']
        } else {
            seq![v[0]]
        }) + half_unescaped(v.drop_first())
    }
}

proof fn lemma_unescape_quotes(v: Seq<char>)
    ensures
        replace_all(escape_text(v), seq!['\\', '"'], seq!['"']) == half_unescaped(v),
    decreases v.len(),
{
    let bq = seq!['\\', '"'];
    let q = seq!['"'];
    if v.len() > 0 {
        let c = v[0];
        let rest = v.drop_first();
        let e = escape_text(rest);
        lemma_unescape_quotes(rest);
        lemma_escape_len(rest);
        lemma_escape_unfold(v);
        let s = escape_text(v);
        if c == '\\' {
            assert(s == seq!['\\', '\\'] + e);
            assert(s.take(2) =~= seq!['\\', '\\']);
            assert(s.take(2) != bq) by {
                assert(s.take(2)[1] != bq[1]);
            }
            assert(s.drop_first() =~= seq!['\\'] + e);
            let t = s.drop_first();
            if e.len() == 0 {
                assert(replace_all(t, bq, q) == seq![t[0]] + replace_all(t.drop_first(), bq, q));
                assert(t.drop_first() =~= e);
                assert(replace_all(s, bq, q) =~= seq!['\\', '\\']);
            } else {
                assert(t.take(2) =~= seq!['\\', e[0]]);
                assert(t.take(2) != bq) by {
                    assert(t.take(2)[1] != bq[1]);
                }
                assert(t.drop_first() =~= e);
                assert(replace_all(t, bq, q) == seq!['\\'] + replace_all(e, bq, q));
            }
            assert(replace_all(s, bq, q) =~= half_unescaped(v));
        } else if c == '"' {
            assert(s == seq!['\\', '"'] + e);
            assert(s.take(2) =~= bq);
            assert(s.skip(2) =~= e);
            assert(replace_all(s, bq, q) =~= half_unescaped(v));
        } else {
            assert(s == seq![c] + e);
            if s.len() >= 2 {
                assert(s.take(2)[0] != bq[0]);
            }
            assert(s.drop_first() =~= e);
            assert(replace_all(s, bq, q) =~= half_unescaped(v));
        }
    }
}

proof fn lemma_unescape_backslashes(v: Seq<char>)
    ensures
        replace_all(half_unescaped(v), seq!['\\', '\\'], seq!['\\']) == v,
    decreases v.len(),
{
    let bb = seq!['\\', '\\'];
    let b = seq!['\\'];
    if v.len() > 0 {
        let c = v[0];
        let rest = v.drop_first();
        lemma_unescape_backslashes(rest);
        let m = half_unescaped(rest);
        let s = half_unescaped(v);
        if c == '\\' {
            assert(s == seq!['\\', '\\'] + m);
            assert(s.take(2) =~= bb);
            assert(s.skip(2) =~= m);
            assert(replace_all(s, bb, b) =~= seq!['\\'] + rest);
        } else {
            assert(s == seq![c] + m);
            if s.len() >= 2 {
                assert(s.take(2)[0] != bb[0]);
            }
            assert(s.drop_first() =~= m);
            assert(replace_all(s, bb, b) =~= seq![c] + rest);
        }
        assert(seq![c] + rest =~= v);
    }
}

/// Unescaping undoes escaping: every value survives the filter syntax.
pub proof fn lemma_unescape_escape(v: Seq<char>)
    ensures
        unescape_text(escape_text(v)) == v,
{
    lemma_unescape_quotes(v);
    lemma_unescape_backslashes(v);
}

/// An escaped value holds no unescaped quote: the closing quote is found right after it.
pub proof fn lemma_closing_quote_after_escape(v: Seq<char>, u: Seq<char>)
    ensures
        closing_quote(escape_text(v) + u) == escape_text(v).len() + closing_quote(u),
    decreases v.len(),
{
    if v.len() > 0 {
        let c = v[0];
        let e = escape_text(v.drop_first());
        lemma_closing_quote_after_escape(v.drop_first(), u);
        lemma_escape_unfold(v);
        let s = escape_text(v) + u;
        if c == '\\' || c == '"' {
            assert(s == escape_char(c) + (e + u));
            assert(s.skip(2) =~= e + u);
        } else {
            assert(s == seq![c] + (e + u));
            assert(s.drop_first() =~= e + u);
        }
    } else {
        assert(escape_text(v) + u =~= u);
    }
}

/// The value of a clause `head + escape(v) + "` read with a prefix that is `head`
/// or `head` without its final quote is `v`.
proof fn lemma_clause_value_of(head: Seq<char>, prefix: Seq<char>, v: Seq<char>)
    requires
        head.len() > 0,
        head.last() == '"',
        prefix == head || prefix == head.drop_last(),
    ensures
        clause_value(head + escape_text(v) + "\""@, prefix) == Some(v),
{
    reveal_strlit("\"");
    let e = escape_text(v);
    let c = head + e + "\""@;
    assert(c.take(prefix.len() as int) =~= prefix);
    let rest = c.skip(prefix.len() as int);
    lemma_escape_len(v);
    lemma_unescape_escape(v);
    if prefix == head {
        assert(rest =~= e + seq!['"']);
        if e.len() == 0 {
            assert(rest.drop_first() =~= Seq::<char>::empty());
            assert(e =~= Seq::<char>::empty());
        } else {
            lemma_closing_quote_after_escape(v, seq!['"']);
            assert(rest.take(e.len() as int) =~= e);
        }
    } else {
        assert(rest =~= seq!['"'] + (e + seq!['"']));
        assert(rest.drop_first() =~= e + seq!['"']);
        lemma_closing_quote_after_escape(v, seq!['"']);
        assert((e + seq!['"']).take(e.len() as int) =~= e);
    }
}

/// A clause whose character at `j` differs from the prefix's does not match it.
proof fn lemma_clause_value_none(c: Seq<char>, prefix: Seq<char>, j: int)
    requires
        0 <= j < prefix.len(),
        j < c.len(),
        c[j] != prefix[j],
    ensures
        clause_value(c, prefix) is None,
{
    if prefix.len() <= c.len() {
        assert(c.take(prefix.len() as int)[j] != prefix[j]);
    }
}

/// Text in which no `"` occurs and no space is followed by `A`.
spec fn plain_text(a: Seq<char>) -> bool {
    forall|i: int|
        0 <= i < a.len() ==> #[trigger] a[i] != '"' && (a[i] == ' ' && i + 1 < a.len() ==> a[i + 1]
            != 'A')
}

/// What may follow a clause in a joined filter string.
spec fn clause_follower(t: Seq<char>) -> bool {
    t.len() == 0 || t[0] == '"' || (t.len() >= 5 && t.take(5) == " AND "@)
}

proof fn lemma_scan_plain(a: Seq<char>, t: Seq<char>, cur: Seq<char>)
    requires
        plain_text(a),
        clause_follower(t),
    ensures
        split_rest(a + t, cur) == split_rest(t, cur + a),
    decreases a.len(),
{
    reveal_strlit(" AND ");
    if a.len() == 0 {
        assert(a + t =~= t);
        assert(cur + a =~= cur);
    } else {
        let s = a + t;
        assert(s[0] == a[0]);
        if s.len() >= 5 && s.take(5) == " AND "@ {
            assert(" AND "@[0] == ' ' && " AND "@[1] == 'A');
            assert(s.take(5)[0] == s[0] && s.take(5)[1] == s[1]);
            assert(s[0] == ' ' && s[1] == 'A');
            if a.len() >= 2 {
                assert(a[1] == 'A');
            } else {
                assert(s[1] == t[0]);
                if t.len() >= 5 && t.take(5) == " AND "@ {
                    assert(t[0] == t.take(5)[0]);
                    assert(" AND "@[0] == ' ');
                }
            }
        }
        assert(s.drop_first() =~= a.drop_first() + t);
        assert(plain_text(a.drop_first())) by {
            assert forall|i: int| 0 <= i < a.drop_first().len() implies #[trigger] a.drop_first()[i] != '"'
                && (a.drop_first()[i] == ' ' && i + 1 < a.drop_first().len()
                ==> a.drop_first()[i + 1] != 'A') by {
                assert(a.drop_first()[i] == a[i + 1]);
            }
        }
        lemma_scan_plain(a.drop_first(), t, cur.push(a[0]));
        assert(cur.push(a[0]) + a.drop_first() =~= cur + a);
    }
}

proof fn lemma_scan_quoted(v: Seq<char>, t: Seq<char>, cur: Seq<char>)
    ensures
        split_rest(seq!['"'] + escape_text(v) + seq!['"'] + t, cur) == split_rest(
            t,
            cur + (seq!['"'] + escape_text(v) + seq!['"']),
        ),
{
    let e = escape_text(v);
    let q = seq!['"'] + e + seq!['"'];
    let s = q + t;
    assert(s.drop_first() =~= e + (seq!['"'] + t));
    lemma_closing_quote_after_escape(v, seq!['"'] + t);
    assert(closing_quote(seq!['"'] + t) == 0);
    assert(quoted_run_len(s) == e.len() + 2);
    assert(s.skip(e.len() + 2int) =~= t);
    assert(s.take(e.len() + 2int) =~= q);
}

/// A clause of a search filter string: a plain part, optionally followed by a
/// quoted escaped value.
spec fn filter_clause_shape(c: Seq<char>) -> bool {
    ||| plain_text(c)
    ||| exists|a: Seq<char>, v: Seq<char>|
        plain_text(a) && c == a + (seq!['"'] + escape_text(v) + seq!['"'])
}

proof fn lemma_scan_clause(c: Seq<char>, t: Seq<char>, cur: Seq<char>)
    requires
        filter_clause_shape(c),
        t.len() == 0 || (t.len() >= 5 && t.take(5) == " AND "@),
    ensures
        split_rest(c + t, cur) == split_rest(t, cur + c),
{
    if plain_text(c) {
        lemma_scan_plain(c, t, cur);
    } else {
        let (a, v) = choose|a: Seq<char>, v: Seq<char>|
            plain_text(a) && c == a + (seq!['"'] + escape_text(v) + seq!['"']);
        let q = seq!['"'] + escape_text(v) + seq!['"'];
        assert(c + t =~= a + (q + t));
        lemma_scan_plain(a, q + t, cur);
        assert(q + t =~= seq!['"'] + escape_text(v) + seq!['"'] + t);
        lemma_scan_quoted(v, t, cur + a);
        assert(cur + a + q =~= cur + c);
    }
}

/// Text that trimming leaves unchanged.
spec fn trimmed(c: Seq<char>) -> bool {
    c.len() > 0 && !is_white_space(c[0]) && !is_white_space(c.last())
}

proof fn lemma_trim_trimmed(c: Seq<char>)
    requires
        trimmed(c),
    ensures
        trim(c) == c,
{
    assert(trim_start(c) == c);
    assert(trim_end(c) == c);
}

/// Splitting the ` AND `-join of well-shaped trimmed clauses gives the clauses back.
proof fn lemma_split_join(cs: Seq<Seq<char>>)
    requires
        cs.len() > 0,
        forall|i: int| 0 <= i < cs.len() ==> filter_clause_shape(#[trigger] cs[i]) && trimmed(cs[i]),
    ensures
        split_clauses(join_texts(cs, " AND "@)) == cs,
    decreases cs.len(),
{
    reveal_strlit(" AND ");
    let c = cs[0];
    lemma_trim_trimmed(c);
    if cs.len() == 1 {
        assert(c + Seq::<char>::empty() =~= c);
        lemma_scan_clause(c, seq![], seq![]);
        assert(Seq::<char>::empty() + c =~= c);
        assert(split_rest(seq![], c) == seq![trim(c)]);
        assert(seq![c] =~= cs);
    } else {
        let rest = cs.drop_first();
        let j = join_texts(rest, " AND "@);
        let t = " AND "@ + j;
        assert(join_texts(cs, " AND "@) =~= c + t);
        assert(t.take(5) =~= " AND "@);
        lemma_scan_clause(c, t, seq![]);
        assert(Seq::<char>::empty() + c =~= c);
        assert(t[0] == ' ');
        assert(t.skip(5) =~= j);
        assert(split_rest(t, c) == seq![trim(c)] + split_rest(j, seq![]));
        assert forall|i: int| 0 <= i < rest.len() implies filter_clause_shape(#[trigger] rest[i])
            && trimmed(rest[i]) by {
            assert(rest[i] == cs[i + 1]);
        }
        lemma_split_join(rest);
        assert(seq![c] + rest =~= cs);
    }
}


proof fn lemma_field_literals()
    ensures
        director_prefix() == seq!['d', 'i', 'r', 'e', 'c', 't', 'o', 'r', '_', 'n', 'a', 'm', 'e', ' ', '=', ' '],
        studio_prefix() == seq!['s', 't', 'u', 'd', 'i', 'o', '_', 'n', 'a', 'm', 'e', ' ', '=', ' '],
        label_prefix() == seq!['l', 'a', 'b', 'e', 'l', '_', 'n', 'a', 'm', 'e', ' ', '=', ' '],
        genre_prefix() == seq!['g', 'e', 'n', 'r', 'e', '_', 'n', 'a', 'm', 'e', 's', ' ', '=', ' '],
        date_from_prefix() == seq!['d', 'a', 't', 'e', ' ', '>', '=', ' ', '"'],
        date_to_prefix() == seq!['d', 'a', 't', 'e', ' ', '<', '=', ' ', '"'],
        "director_name = \""@ == director_prefix().push('"'),
        "studio_name = \""@ == studio_prefix().push('"'),
        "label_name = \""@ == label_prefix().push('"'),
        "genre_names = \""@ == genre_prefix().push('"'),
        "date >= \""@ == date_from_prefix(),
        "date <= \""@ == date_to_prefix(),
        "permission <= "@ == seq!['p', 'e', 'r', 'm', 'i', 's', 's', 'i', 'o', 'n', ' ', '<', '=', ' '],
        "\""@ == seq!['"'],
{
    reveal_strlit("director_name = ");
    reveal_strlit("studio_name = ");
    reveal_strlit("label_name = ");
    reveal_strlit("genre_names = ");
    reveal_strlit("date >= \"");
    reveal_strlit("date <= \"");
    reveal_strlit("director_name = \"");
    reveal_strlit("studio_name = \"");
    reveal_strlit("label_name = \"");
    reveal_strlit("genre_names = \"");
    reveal_strlit("permission <= ");
    reveal_strlit("\"");
    assert("director_name = "@ =~= seq!['d', 'i', 'r', 'e', 'c', 't', 'o', 'r', '_', 'n', 'a', 'm', 'e', ' ', '=', ' ']);
    assert("studio_name = "@ =~= seq!['s', 't', 'u', 'd', 'i', 'o', '_', 'n', 'a', 'm', 'e', ' ', '=', ' ']);
    assert("label_name = "@ =~= seq!['l', 'a', 'b', 'e', 'l', '_', 'n', 'a', 'm', 'e', ' ', '=', ' ']);
    assert("genre_names = "@ =~= seq!['g', 'e', 'n', 'r', 'e', '_', 'n', 'a', 'm', 'e', 's', ' ', '=', ' ']);
    assert("date >= \""@ =~= seq!['d', 'a', 't', 'e', ' ', '>', '=', ' ', '"']);
    assert("date <= \""@ =~= seq!['d', 'a', 't', 'e', ' ', '<', '=', ' ', '"']);
    assert("director_name = \""@ =~= director_prefix().push('"'));
    assert("studio_name = \""@ =~= studio_prefix().push('"'));
    assert("label_name = \""@ =~= label_prefix().push('"'));
    assert("genre_names = \""@ =~= genre_prefix().push('"'));
    assert("permission <= "@ =~= seq!['p', 'e', 'r', 'm', 'i', 's', 's', 'i', 'o', 'n', ' ', '<', '=', ' ']);
    assert("\""@ =~= seq!['"']);
}

/// The plain part of the clause of field `k` (director, studio, label, genre,
/// date from, date to): the text before the opening quote.
spec fn field_text(k: int) -> Seq<char> {
    if k == 0 {
        director_prefix()
    } else if k == 1 {
        studio_prefix()
    } else if k == 2 {
        label_prefix()
    } else if k == 3 {
        genre_prefix()
    } else if k == 4 {
        date_from_prefix().drop_last()
    } else {
        date_to_prefix().drop_last()
    }
}

/// The prefix by which field `k` is read back.
spec fn field_prefix(k: int) -> Seq<char> {
    if k == 0 {
        director_prefix()
    } else if k == 1 {
        studio_prefix()
    } else if k == 2 {
        label_prefix()
    } else if k == 3 {
        genre_prefix()
    } else if k == 4 {
        date_from_prefix()
    } else {
        date_to_prefix()
    }
}

/// The clause that the search filter writes for value `x` of field `k`.
spec fn field_clause(k: int, x: Seq<char>) -> Seq<char> {
    field_text(k).push('"') + escape_text(x) + seq!['"']
}

/// `f` with field `k` set to `x`.
spec fn set_field(f: FilterValues, k: int, x: Seq<char>) -> FilterValues {
    if k == 0 {
        FilterValues { director: Some(x), ..f }
    } else if k == 1 {
        FilterValues { studio: Some(x), ..f }
    } else if k == 2 {
        FilterValues { label: Some(x), ..f }
    } else if k == 3 {
        FilterValues { genre: Some(x), ..f }
    } else if k == 4 {
        FilterValues { date_from: Some(x), ..f }
    } else {
        FilterValues { date_to: Some(x), ..f }
    }
}

proof fn lemma_field_clause_applies(f: FilterValues, k: int, x: Seq<char>)
    requires
        0 <= k < 6,
    ensures
        apply_clause(f, field_clause(k, x)) == set_field(f, k, x),
        filter_clause_shape(field_clause(k, x)),
        trimmed(field_clause(k, x)),
{
    lemma_field_literals();
    let c = field_clause(k, x);
    let t = field_text(k);
    let e = escape_text(x);
    assert(c =~= t + (seq!['"'] + e + seq!['"']));
    assert(plain_text(t));
    assert(c[0] == t[0]);
    assert(c.last() == '"');
    lemma_trim_trimmed(c);
    assert(t.push('"').drop_last() =~= t);
    if k >= 4 {
        assert(field_prefix(k) =~= t.push('"'));
    }
    lemma_clause_value_of(t.push('"'), field_prefix(k), x);
    assert(t.push('"') + e + "\""@ =~= c);
    assert(forall|i: int| 0 <= i < t.len() ==> c[i] == #[trigger] t[i]);
    if k == 1 {
        lemma_clause_value_none(c, director_prefix(), 0);
    } else if k == 2 {
        lemma_clause_value_none(c, director_prefix(), 0);
        lemma_clause_value_none(c, studio_prefix(), 0);
    } else if k == 3 {
        lemma_clause_value_none(c, director_prefix(), 0);
        lemma_clause_value_none(c, studio_prefix(), 0);
        lemma_clause_value_none(c, label_prefix(), 0);
    } else if k == 4 {
        lemma_clause_value_none(c, director_prefix(), 1);
        lemma_clause_value_none(c, studio_prefix(), 0);
        lemma_clause_value_none(c, label_prefix(), 0);
        lemma_clause_value_none(c, genre_prefix(), 0);
    } else if k == 5 {
        lemma_clause_value_none(c, director_prefix(), 1);
        lemma_clause_value_none(c, studio_prefix(), 0);
        lemma_clause_value_none(c, label_prefix(), 0);
        lemma_clause_value_none(c, genre_prefix(), 0);
        lemma_clause_value_none(c, date_from_prefix(), 5);
    }
}

proof fn lemma_permission_clause(f: FilterValues, p: int)
    ensures
        apply_clause(f, "permission <= "@ + int_text(p)) == f,
        filter_clause_shape("permission <= "@ + int_text(p)),
        trimmed("permission <= "@ + int_text(p)),
{
    lemma_field_literals();
    let d = if p < 0 {
        decimal_digits((-p) as nat)
    } else {
        decimal_digits(p as nat)
    };
    lemma_decimal_digits_are_digits(if p < 0 {
        (-p) as nat
    } else {
        p as nat
    });
    let n = int_text(p);
    assert(n.len() > 0);
    assert(forall|i: int| 0 <= i < n.len() ==> #[trigger] n[i] == '-' || is_digit_char(n[i])) by {
        if p < 0 {
            assert forall|i: int| 0 <= i < n.len() implies #[trigger] n[i] == '-' || is_digit_char(
                n[i],
            ) by {
                if i > 0 {
                    assert(n[i] == d[i - 1]);
                }
            }
        }
    }
    let c = "permission <= "@ + n;
    assert(plain_text(c)) by {
        assert forall|i: int| 0 <= i < c.len() implies #[trigger] c[i] != '"' && (c[i] == ' ' && i
            + 1 < c.len() ==> c[i + 1] != 'A') by {
            if i + 1 >= 14 && i + 1 < c.len() {
                assert(c[i + 1] == n[i + 1 - 14]);
            }
            if i >= 14 {
                assert(c[i] == n[i - 14]);
            }
        }
    }
    assert(c.last() == n.last());
    assert(c[0] == 'p');
    lemma_trim_trimmed(c);
    lemma_clause_value_none(c, director_prefix(), 0);
    lemma_clause_value_none(c, studio_prefix(), 0);
    lemma_clause_value_none(c, label_prefix(), 0);
    lemma_clause_value_none(c, genre_prefix(), 0);
    lemma_clause_value_none(c, date_from_prefix(), 0);
    lemma_clause_value_none(c, date_to_prefix(), 0);
}

proof fn lemma_apply_push(xs: Seq<Seq<char>>, c: Seq<char>)
    ensures
        apply_clauses(xs.push(c)) == apply_clause(apply_clauses(xs), c),
{
    assert(xs.push(c).drop_last() =~= xs);
}

/// What the clauses of a search filter string set, field by field.
pub open spec fn written_values(
    d: Option<Seq<char>>,
    s: Option<Seq<char>>,
    l: Option<Seq<char>>,
    g: Option<Seq<char>>,
    df: Option<Seq<char>>,
    dt: Option<Seq<char>>,
) -> FilterValues {
    FilterValues { director: d, studio: s, label: l, genre: g, date_from: df, date_to: dt }
}

proof fn lemma_apply_optional(xs: Seq<Seq<char>>, v: Option<Seq<char>>, k: int, head: Seq<char>)
    requires
        0 <= k < 6,
        head == field_text(k).push('"'),
        forall|i: int| 0 <= i < xs.len() ==> filter_clause_shape(#[trigger] xs[i]) && trimmed(xs[i]),
    ensures
        apply_clauses(xs + optional_clause(v, head)) == match v {
            Some(x) => set_field(apply_clauses(xs), k, x),
            None => apply_clauses(xs),
        },
        forall|i: int|
            0 <= i < (xs + optional_clause(v, head)).len() ==> filter_clause_shape(
                #[trigger] (xs + optional_clause(v, head))[i],
            ) && trimmed((xs + optional_clause(v, head))[i]),
{
    lemma_field_literals();
    match v {
        Some(x) => {
            let c = head + escape_text(x) + "\""@;
            assert(c =~= field_clause(k, x));
            assert(xs + optional_clause(v, head) =~= xs.push(c));
            lemma_apply_push(xs, c);
            lemma_field_clause_applies(apply_clauses(xs), k, x);
            assert forall|i: int| 0 <= i < xs.push(c).len() implies filter_clause_shape(
                #[trigger] xs.push(c)[i],
            ) && trimmed(xs.push(c)[i]) by {
                if i < xs.len() {
                    assert(xs.push(c)[i] == xs[i]);
                }
            }
        },
        None => {
            assert(xs + optional_clause(v, head) =~= xs);
        },
    }
}

/// Reading back the filter string built for a search request gives exactly the
/// request's director, studio, label, genre and date filters, whatever the
/// values hold (quotes, backslashes, ` AND `).
pub proof fn lemma_search_filter_reads_back(q: SearchQuery, permission: int)
    ensures
        filter_values(search_filter(q, permission)) == written_values(
            opt_text(q.director),
            opt_text(q.studio),
            opt_text(q.label),
            opt_text(q.genre),
            opt_text(q.date_from),
            opt_text(q.date_to),
        ),
{
    lemma_field_literals();
    let p = "permission <= "@ + int_text(permission);
    let c0 = seq![p];
    lemma_permission_clause(no_filter_values(), permission);
    assert(c0 =~= Seq::<Seq<char>>::empty().push(p));
    lemma_apply_push(Seq::<Seq<char>>::empty(), p);
    assert(apply_clauses(c0) == no_filter_values());
    assert(forall|i: int| 0 <= i < c0.len() ==> filter_clause_shape(#[trigger] c0[i]) && trimmed(c0[i]));
    let c1 = c0 + optional_clause(opt_text(q.director), "director_name = \""@);
    lemma_apply_optional(c0, opt_text(q.director), 0, "director_name = \""@);
    let c2 = c1 + optional_clause(opt_text(q.studio), "studio_name = \""@);
    lemma_apply_optional(c1, opt_text(q.studio), 1, "studio_name = \""@);
    let c3 = c2 + optional_clause(opt_text(q.label), "label_name = \""@);
    lemma_apply_optional(c2, opt_text(q.label), 2, "label_name = \""@);
    let c4 = c3 + optional_clause(opt_text(q.genre), "genre_names = \""@);
    lemma_apply_optional(c3, opt_text(q.genre), 3, "genre_names = \""@);
    let c5 = c4 + optional_clause(opt_text(q.date_from), "date >= \""@);
    assert(date_from_prefix() == date_from_prefix().drop_last().push('"'));
    lemma_apply_optional(c4, opt_text(q.date_from), 4, "date >= \""@);
    let c6 = c5 + optional_clause(opt_text(q.date_to), "date <= \""@);
    assert(date_to_prefix() == date_to_prefix().drop_last().push('"'));
    lemma_apply_optional(c5, opt_text(q.date_to), 5, "date <= \""@);
    let cs = search_filter_clauses(
        permission,
        opt_text(q.director),
        opt_text(q.studio),
        opt_text(q.label),
        opt_text(q.genre),
        opt_text(q.date_from),
        opt_text(q.date_to),
    );
    assert(cs == c6);
    lemma_split_join(cs);
    assert(apply_clauses(c6) =~= written_values(
        opt_text(q.director),
        opt_text(q.studio),
        opt_text(q.label),
        opt_text(q.genre),
        opt_text(q.date_from),
        opt_text(q.date_to),
    ));
}

} // verus!
