//! Sorted sets of identifiers: the lexicographic order of `String`, sorted
//! de-duplicated lists, differences, and set equality of id lists.

use vstd::prelude::*;

use crate::text::chars_of;

verus! {

/// The order of `String`: lexicographic by character (the order of UTF-8 bytes).
pub open spec fn lex_lt(a: Seq<char>, b: Seq<char>) -> bool
    decreases a.len(),
{
    if a.len() == 0 {
        b.len() > 0
    } else if b.len() == 0 {
        false
    } else if a[0] != b[0] {
        a[0] < b[0]
    } else {
        lex_lt(a.drop_first(), b.drop_first())
    }
}

pub proof fn lemma_lex_irreflexive(a: Seq<char>)
    ensures
        !lex_lt(a, a),
    decreases a.len(),
{
    if a.len() > 0 {
        lemma_lex_irreflexive(a.drop_first());
    }
}

pub proof fn lemma_lex_asymmetric(a: Seq<char>, b: Seq<char>)
    requires
        lex_lt(a, b),
    ensures
        !lex_lt(b, a),
    decreases a.len(),
{
    if a.len() > 0 && b.len() > 0 && a[0] == b[0] {
        lemma_lex_asymmetric(a.drop_first(), b.drop_first());
    }
}

pub proof fn lemma_lex_transitive(a: Seq<char>, b: Seq<char>, c: Seq<char>)
    requires
        lex_lt(a, b),
        lex_lt(b, c),
    ensures
        lex_lt(a, c),
    decreases a.len(),
{
    if a.len() > 0 && b.len() > 0 && c.len() > 0 && a[0] == b[0] && b[0] == c[0] {
        lemma_lex_transitive(a.drop_first(), b.drop_first(), c.drop_first());
    }
}

pub proof fn lemma_lex_total(a: Seq<char>, b: Seq<char>)
    requires
        a != b,
    ensures
        lex_lt(a, b) || lex_lt(b, a),
    decreases a.len(),
{
    if a.len() > 0 && b.len() > 0 {
        if a[0] == b[0] {
            if a.drop_first() == b.drop_first() {
                assert(a =~= seq![a[0]] + a.drop_first());
                assert(b =~= seq![b[0]] + b.drop_first());
            }
            lemma_lex_total(a.drop_first(), b.drop_first());
        }
    } else if a.len() == 0 && b.len() == 0 {
        assert(a =~= b);
    }
}

/// Whether `a` comes before `b`.
pub fn lex_less(a: &str, b: &str) -> (r: bool)
    ensures
        r == lex_lt(a@, b@),
{
    let va = chars_of(a);
    let vb = chars_of(b);
    let mut i: usize = 0;
    assert(va@.skip(0) =~= va@);
    assert(vb@.skip(0) =~= vb@);
    while i < va.len() && i < vb.len() && va[i] == vb[i]
        invariant
            i <= va.len(),
            i <= vb.len(),
            va@ == a@,
            vb@ == b@,
            lex_lt(a@, b@) == lex_lt(va@.skip(i as int), vb@.skip(i as int)),
        decreases va.len() - i,
    {
        proof {
            let sa = va@.skip(i as int);
            let sb = vb@.skip(i as int);
            assert(sa.drop_first() =~= va@.skip(i + 1));
            assert(sb.drop_first() =~= vb@.skip(i + 1));
        }
        i = i + 1;
    }
    if i == va.len() {
        i < vb.len()
    } else if i == vb.len() {
        false
    } else {
        proof {
            assert(va@.skip(i as int)[0] == va@[i as int]);
            assert(vb@.skip(i as int)[0] == vb@[i as int]);
        }
        va[i] < vb[i]
    }
}

/// The views of a list of strings.
pub open spec fn string_views(v: Seq<String>) -> Seq<Seq<char>> {
    Seq::new(v.len(), |i: int| v[i]@)
}

/// Whether `v` is in strictly increasing order.
pub open spec fn strictly_sorted(v: Seq<Seq<char>>) -> bool {
    forall|i: int, j: int| 0 <= i < j < v.len() ==> lex_lt(#[trigger] v[i], #[trigger] v[j])
}

/// Whether text `x` is one of `v`.
pub open spec fn holds(v: Seq<String>, x: Seq<char>) -> bool {
    exists|i: int| 0 <= i < v.len() && (#[trigger] v[i])@ == x
}

/// Inserts `x` into the strictly sorted `out`, unless it is there already.
fn insert_sorted(out: &mut Vec<String>, x: String)
    requires
        strictly_sorted(string_views(old(out)@)),
    ensures
        strictly_sorted(string_views(final(out)@)),
        forall|y: Seq<char>| holds(final(out)@, y) <==> (holds(old(out)@, y) || y == x@),
{
    let ghost old_v = out@;
    let mut p: usize = 0;
    while p < out.len() && lex_less(out[p].as_str(), x.as_str())
        invariant
            p <= out.len(),
            out@ == old_v,
            forall|k: int| 0 <= k < p ==> lex_lt((#[trigger] out@[k])@, x@),
        decreases out.len() - p,
    {
        p = p + 1;
    }
    if p < out.len() && crate::text::str_eq(out[p].as_str(), x.as_str()) {
        proof {
            assert forall|y: Seq<char>| holds(out@, y) <==> (holds(old_v, y) || y == x@) by {
                if y == x@ {
                    assert(out@[p as int]@ == y);
                }
            }
        }
        return;
    }
    proof {
        if p < out.len() {
            assert(!lex_lt(out@[p as int]@, x@));
            lemma_lex_total(out@[p as int]@, x@);
        }
    }
    let ghost xv = x@;
    out.insert(p, x);
    proof {
        let nv = string_views(out@);
        let ov = string_views(old_v);
        assert forall|i: int, j: int| 0 <= i < j < nv.len() implies lex_lt(#[trigger] nv[i], #[trigger] nv[j]) by {
            if j < p {
                assert(nv[i] == ov[i] && nv[j] == ov[j]);
            } else if j == p {
                assert(nv[j] == xv);
                assert(nv[i] == ov[i]);
                assert(lex_lt(old_v[i]@, xv));
            } else if i == p {
                assert(nv[i] == xv);
                assert(nv[j] == ov[j - 1]);
                if j - 1 > p {
                    assert(lex_lt(ov[p as int], ov[j - 1]));
                    lemma_lex_transitive(xv, ov[p as int], ov[j - 1]);
                }
            } else if i < p {
                assert(nv[i] == ov[i] && nv[j] == ov[j - 1]);
            } else {
                assert(nv[i] == ov[i - 1] && nv[j] == ov[j - 1]);
            }
        }
        assert forall|y: Seq<char>| holds(out@, y) <==> (holds(old_v, y) || y == xv) by {
            if holds(out@, y) {
                let k = choose|k: int| 0 <= k < out@.len() && (#[trigger] out@[k])@ == y;
                if k < p {
                    assert(out@[k] == old_v[k]);
                } else if k > p {
                    assert(out@[k] == old_v[k - 1]);
                }
            }
            if holds(old_v, y) {
                let k = choose|k: int| 0 <= k < old_v.len() && (#[trigger] old_v[k])@ == y;
                if k < p {
                    assert(out@[k] == old_v[k]);
                } else {
                    assert(out@[k + 1] == old_v[k]);
                }
            }
            if y == xv {
                assert(out@[p as int]@ == xv);
            }
        }
    }
}

/// The distinct ids of `ids`, in increasing order (a sort followed by a dedup).
pub fn sorted_unique(ids: &[String]) -> (r: Vec<String>)
    ensures
        strictly_sorted(string_views(r@)),
        forall|y: Seq<char>| holds(r@, y) <==> holds(ids@, y),
{
    let mut out: Vec<String> = Vec::new();
    let mut i: usize = 0;
    while i < ids.len()
        invariant
            i <= ids.len(),
            strictly_sorted(string_views(out@)),
            forall|y: Seq<char>| holds(out@, y) <==> holds(ids@.take(i as int), y),
        decreases ids.len() - i,
    {
        let ghost before = out@;
        insert_sorted(&mut out, ids[i].clone());
        proof {
            assert forall|y: Seq<char>| holds(out@, y) <==> holds(ids@.take(i + 1), y) by {
                let t = ids@.take(i + 1);
                if holds(ids@.take(i as int), y) {
                    let k = choose|k: int| 0 <= k < i && (#[trigger] ids@.take(i as int)[k])@ == y;
                    assert(t[k] == ids@.take(i as int)[k]);
                }
                if holds(t, y) {
                    let k = choose|k: int| 0 <= k < i + 1 && (#[trigger] t[k])@ == y;
                    if k < i {
                        assert(t[k] == ids@.take(i as int)[k]);
                    }
                }
                assert(t[i as int] == ids@[i as int]);
            }
        }
        i = i + 1;
    }
    assert(ids@.take(ids.len() as int) =~= ids@);
    out
}

fn holds_exec(v: &[String], x: &String) -> (r: bool)
    ensures
        r == holds(v@, x@),
{
    let mut k: usize = 0;
    while k < v.len()
        invariant
            k <= v.len(),
            forall|m: int| 0 <= m < k ==> (#[trigger] v@[m])@ != x@,
        decreases v.len() - k,
    {
        if v[k] == *x {
            return true;
        }
        k = k + 1;
    }
    false
}

/// The distinct ids of `a` that are not in `b`, in increasing order.
pub fn sorted_difference(a: &[String], b: &[String]) -> (r: Vec<String>)
    ensures
        strictly_sorted(string_views(r@)),
        forall|y: Seq<char>| holds(r@, y) <==> (holds(a@, y) && !holds(b@, y)),
{
    let mut out: Vec<String> = Vec::new();
    let mut i: usize = 0;
    while i < a.len()
        invariant
            i <= a.len(),
            strictly_sorted(string_views(out@)),
            forall|y: Seq<char>| holds(out@, y) <==> (holds(a@.take(i as int), y) && !holds(b@, y)),
        decreases a.len() - i,
    {
        let x = &a[i];
        let keep = !holds_exec(b, x);
        if keep {
            insert_sorted(&mut out, x.clone());
        }
        proof {
            assert forall|y: Seq<char>| holds(out@, y) <==> (holds(a@.take(i + 1), y) && !holds(b@, y)) by {
                let t = a@.take(i + 1);
                if holds(a@.take(i as int), y) {
                    let k = choose|k: int| 0 <= k < i && (#[trigger] a@.take(i as int)[k])@ == y;
                    assert(t[k] == a@.take(i as int)[k]);
                }
                if holds(t, y) {
                    let k = choose|k: int| 0 <= k < i + 1 && (#[trigger] t[k])@ == y;
                    if k < i {
                        assert(t[k] == a@.take(i as int)[k]);
                    }
                }
                assert(t[i as int] == a@[i as int]);
            }
        }
        i = i + 1;
    }
    assert(a@.take(a.len() as int) =~= a@);
    out
}

/// Whether two id lists hold the same ids (as sets).
pub fn same_id_set(a: &[String], b: &[String]) -> (r: bool)
    ensures
        r == (forall|y: Seq<char>| holds(a@, y) <==> holds(b@, y)),
{
    let mut i: usize = 0;
    while i < a.len()
        invariant
            i <= a.len(),
            forall|k: int| 0 <= k < i ==> holds(b@, (#[trigger] a@[k])@),
        decreases a.len() - i,
    {
        if !holds_exec(b, &a[i]) {
            return false;
        }
        i = i + 1;
    }
    let mut j: usize = 0;
    while j < b.len()
        invariant
            j <= b.len(),
            forall|k: int| 0 <= k < a@.len() ==> holds(b@, (#[trigger] a@[k])@),
            forall|k: int| 0 <= k < j ==> holds(a@, (#[trigger] b@[k])@),
        decreases b.len() - j,
    {
        if !holds_exec(a, &b[j]) {
            return false;
        }
        j = j + 1;
    }
    proof {
        assert forall|y: Seq<char>| holds(a@, y) <==> holds(b@, y) by {
            if holds(a@, y) {
                let k = choose|k: int| 0 <= k < a@.len() && (#[trigger] a@[k])@ == y;
                assert(holds(b@, a@[k]@));
            }
            if holds(b@, y) {
                let k = choose|k: int| 0 <= k < b@.len() && (#[trigger] b@[k])@ == y;
                assert(holds(a@, b@[k]@));
            }
        }
    }
    true
}

} // verus!
