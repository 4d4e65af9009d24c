//! Download links of records: placeholder values, de-duplication on creation,
//! and the plan that merges submitted links into the stored ones.

use vstd::prelude::*;

use crate::text::{push_str, str_eq, trim, trim_str};

verus! {

/// The name stored for a link whose name is unknown.
pub open spec fn default_link_name_text() -> Seq<char> {
    "None"@
}

pub fn default_link_name() -> (r: String)
    ensures
        r@ == default_link_name_text(),
{
    let mut r = String::new();
    push_str(&mut r, "None");
    r
}

/// The name to store for a submitted link: the placeholder when it is blank.
pub open spec fn link_name_of(name: Seq<char>) -> Seq<char> {
    if trim(name).len() == 0 {
        default_link_name_text()
    } else {
        name
    }
}

pub fn resolve_link_name(name: &str) -> (r: String)
    ensures
        r@ == link_name_of(name@),
{
    let t = trim_str(name);
    if t.as_str().is_empty() {
        proof {
            assert(t@.len() == 0);
        }
        default_link_name()
    } else {
        proof {
            assert(t@.len() != 0);
        }
        let mut r = String::new();
        push_str(&mut r, name);
        r
    }
}

/// Whether the `i`-th submitted URL is stored when a record is created: it is not
/// blank, and no earlier URL trims to the same text.
pub open spec fn link_created(urls: Seq<Seq<char>>, i: int) -> bool {
    trim(urls[i]).len() > 0 && forall|j: int| 0 <= j < i ==> trim(#[trigger] urls[j]) != trim(urls[i])
}

/// The positions of the submitted links of a new record that are stored, in order.
pub open spec fn created_positions(urls: Seq<Seq<char>>, n: nat) -> Seq<usize>
    decreases n,
{
    if n == 0 {
        seq![]
    } else if link_created(urls, n - 1) {
        created_positions(urls, (n - 1) as nat).push((n - 1) as usize)
    } else {
        created_positions(urls, (n - 1) as nat)
    }
}

/// The views of some strings.
pub open spec fn views(v: Seq<String>) -> Seq<Seq<char>> {
    Seq::new(v.len(), |i: int| v[i]@)
}

proof fn lemma_created_positions(us: Seq<Seq<char>>, n: nat)
    requires
        n <= us.len() <= usize::MAX,
    ensures
        forall|k: int|
            0 <= k < created_positions(us, n).len() ==> #[trigger] created_positions(us, n)[k] < n,
        forall|j: int|
            0 <= j < n && trim(us[j]).len() > 0 ==> exists|k: int|
                0 <= k < created_positions(us, n).len() && trim(
                    us[#[trigger] created_positions(us, n)[k] as int],
                ) == trim(us[j]),
    decreases n,
{
    if n > 0 {
        let m = (n - 1) as nat;
        lemma_created_positions(us, m);
        let p = created_positions(us, m);
        let c = created_positions(us, n);
        assert forall|k: int| 0 <= k < c.len() implies #[trigger] c[k] < n by {
            if k < p.len() {
                assert(c[k] == p[k]);
            }
        }
        assert forall|j: int| 0 <= j < n && trim(us[j]).len() > 0 implies exists|k: int|
            0 <= k < c.len() && trim(us[#[trigger] c[k] as int]) == trim(us[j]) by {
            if j < m {
                let k = choose|k: int| 0 <= k < p.len() && trim(us[#[trigger] p[k] as int]) == trim(us[j]);
                assert(c[k] == p[k]);
            } else if link_created(us, j) {
                assert(c[p.len() as int] as int == j);
            } else {
                let i = choose|i: int| 0 <= i < j && trim(#[trigger] us[i]) == trim(us[j]);
                let k = choose|k: int| 0 <= k < p.len() && trim(us[#[trigger] p[k] as int]) == trim(us[i]);
                assert(c[k] == p[k]);
            }
        }
    }
}

/// The links of a new record that are stored: blank URLs are skipped, and of
/// URLs that trim to the same text only the first is kept.
pub fn links_to_create(urls: &[String]) -> (r: Vec<usize>)
    ensures
        r@ == created_positions(views(urls@), urls@.len()),
{
    let ghost us = views(urls@);
    let mut seen: Vec<String> = Vec::new();
    let mut r: Vec<usize> = Vec::new();
    let mut i: usize = 0;
    while i < urls.len()
        invariant
            i <= urls.len(),
            us == views(urls@),
            r@ == created_positions(us, i as nat),
            seen@.len() == r@.len(),
            forall|k: int| 0 <= k < seen@.len() ==> (#[trigger] seen@[k])@ == trim(us[r@[k] as int]),
        decreases urls.len() - i,
    {
        let t = trim_str(urls[i].as_str());
        let mut k: usize = 0;
        let mut dup = false;
        while k < seen.len()
            invariant_except_break
                !dup,
                k <= seen.len(),
                forall|m: int| 0 <= m < k ==> (#[trigger] seen@[m])@ != t@,
            ensures
                dup ==> exists|m: int| 0 <= m < seen@.len() && (#[trigger] seen@[m])@ == t@,
                !dup ==> forall|m: int| 0 <= m < seen@.len() ==> (#[trigger] seen@[m])@ != t@,
            decreases seen.len() - k,
        {
            if str_eq(seen[k].as_str(), t.as_str()) {
                dup = true;
                break;
            }
            k = k + 1;
        }
        proof {
            assert(us[i as int] == urls@[i as int]@);
            lemma_created_positions(us, i as nat);
            let p = created_positions(us, i as nat);
            if dup {
                let m = choose|m: int| 0 <= m < seen@.len() && (#[trigger] seen@[m])@ == t@;
                assert(p[m] < i);
                assert(trim(us[p[m] as int]) == trim(us[i as int]));
            } else if t@.len() > 0 {
                assert forall|j: int| 0 <= j < i implies trim(#[trigger] us[j]) != trim(us[i as int]) by {
                    if trim(us[j]) == trim(us[i as int]) {
                        let k = choose|k: int| 0 <= k < p.len() && trim(us[#[trigger] p[k] as int]) == trim(us[j]);
                        assert(seen@[k]@ == t@);
                    }
                }
            }
        }
        if !t.as_str().is_empty() && !dup {
            r.push(i);
            seen.push(t);
        }
        i = i + 1;
    }
    r
}

/// A stored link of a record, with which of its fields still hold placeholders.
pub struct StoredLink {
    pub link: String,
    pub name_is_default: bool,
    pub size_is_default: bool,
    pub date_is_default: bool,
}

/// A submitted link, with which optional fields it carries.
pub struct SubmittedLink {
    pub link: String,
    pub name: String,
    pub has_size: bool,
    pub has_date: bool,
}

/// What to do with one submitted link.
#[derive(Clone, Copy, Debug, PartialEq, Eq, Structural)]
pub enum LinkAction {
    /// Nothing to store.
    Skip,
    /// Fill placeholders of the stored link with the same URL (index `stored`).
    Backfill { stored: usize, name: bool, size: bool, date: bool },
    /// Store it as a new link.
    Insert,
}

/// The first stored link with URL `url`.
pub open spec fn first_stored(stored: Seq<StoredLink>, url: Seq<char>) -> Option<int> {
    if exists|k: int| 0 <= k < stored.len() && (#[trigger] stored[k]).link@ == url {
        Some(
            choose|k: int|
                0 <= k < stored.len() && (#[trigger] stored[k]).link@ == url && forall|m: int|
                    0 <= m < k ==> (#[trigger] stored[m]).link@ != url,
        )
    } else {
        None
    }
}

/// What merging submitted link `i` does, given the stored links and the links
/// submitted before it.
pub open spec fn link_action_of(stored: Seq<StoredLink>, submitted: Seq<SubmittedLink>, i: int) -> LinkAction {
    let s = submitted[i];
    if trim(s.link@).len() == 0 {
        LinkAction::Skip
    } else {
        match first_stored(stored, s.link@) {
            Some(k) => {
                let name = stored[k].name_is_default && trim(s.name@).len() > 0 && s.name@
                    != default_link_name_text();
                let size = stored[k].size_is_default && s.has_size;
                let date = stored[k].date_is_default && s.has_date;
                if name || size || date {
                    LinkAction::Backfill { stored: k as usize, name, size, date }
                } else {
                    LinkAction::Skip
                }
            },
            None => if exists|j: int| 0 <= j < i && (#[trigger] submitted[j]).link@ == s.link@ {
                LinkAction::Skip
            } else {
                LinkAction::Insert
            },
        }
    }
}

fn find_stored(stored: &[StoredLink], url: &String) -> (r: Option<usize>)
    ensures
        match r {
            Some(k) => (k as int) < stored@.len() && first_stored(stored@, url@) == Some(k as int),
            None => first_stored(stored@, url@) is None,
        },
{
    let mut k: usize = 0;
    while k < stored.len()
        invariant
            k <= stored.len(),
            forall|m: int| 0 <= m < k ==> (#[trigger] stored@[m]).link@ != url@,
        decreases stored.len() - k,
    {
        if stored[k].link == *url {
            proof {
                let c = choose|c: int|
                    0 <= c < stored@.len() && (#[trigger] stored@[c]).link@ == url@ && forall|m: int|
                        0 <= m < c ==> (#[trigger] stored@[m]).link@ != url@;
                assert(stored@[k as int].link@ == url@);
                if c < k {
                    assert(stored@[c].link@ != url@);
                } else if c > k {
                    assert(stored@[k as int].link@ != url@);
                }
            }
            return Some(k);
        }
        k = k + 1;
    }
    None
}

/// The merge of submitted links into the stored links of a record: one action per
/// submitted link, in order.
pub fn plan_link_updates(stored: &[StoredLink], submitted: &[SubmittedLink]) -> (r: Vec<LinkAction>)
    ensures
        r@.len() == submitted@.len(),
        forall|i: int| 0 <= i < r@.len() ==> #[trigger] r@[i] == link_action_of(stored@, submitted@, i),
{
    let mut r: Vec<LinkAction> = Vec::new();
    let mut i: usize = 0;
    while i < submitted.len()
        invariant
            i <= submitted.len(),
            r@.len() == i,
            forall|j: int| 0 <= j < i ==> #[trigger] r@[j] == link_action_of(stored@, submitted@, j),
        decreases submitted.len() - i,
    {
        let s = &submitted[i];
        let t = trim_str(s.link.as_str());
        let action = if t.as_str().is_empty() {
            LinkAction::Skip
        } else {
            match find_stored(stored, &s.link) {
                Some(k) => {
                    let nt = trim_str(s.name.as_str());
                    let name = stored[k].name_is_default && !nt.as_str().is_empty() && !str_eq(
                        s.name.as_str(),
                        "None",
                    );
                    let size = stored[k].size_is_default && s.has_size;
                    let date = stored[k].date_is_default && s.has_date;
                    if name || size || date {
                        LinkAction::Backfill { stored: k, name, size, date }
                    } else {
                        LinkAction::Skip
                    }
                },
                None => {
                    let mut j: usize = 0;
                    let mut earlier = false;
                    while j < i
                        invariant_except_break
                            !earlier,
                            j <= i,
                            i < submitted.len(),
                            forall|m: int| 0 <= m < j ==> (#[trigger] submitted@[m]).link@ != s.link@,
                        ensures
                            earlier ==> exists|m: int| 0 <= m < i && (#[trigger] submitted@[m]).link@ == s.link@,
                            !earlier ==> forall|m: int| 0 <= m < i ==> (#[trigger] submitted@[m]).link@ != s.link@,
                        decreases i - j,
                    {
                        if submitted[j].link == s.link {
                            earlier = true;
                            break;
                        }
                        j = j + 1;
                    }
                    if earlier {
                        LinkAction::Skip
                    } else {
                        LinkAction::Insert
                    }
                },
            }
        };
        proof {
            assert(submitted@[i as int] == *s);
        }
        r.push(action);
        i = i + 1;
    }
    r
}

/// How many actions change something.
pub open spec fn changes_upto(actions: Seq<LinkAction>, n: nat) -> nat
    decreases n,
{
    if n == 0 {
        0
    } else {
        changes_upto(actions, (n - 1) as nat) + if actions[n - 1] is Skip {
            0nat
        } else {
            1nat
        }
    }
}

/// The number of links a plan changes; the record is marked as having links when it is positive.
pub fn changed_count(actions: &[LinkAction]) -> (r: usize)
    ensures
        r == changes_upto(actions@, actions@.len()),
{
    let mut count: usize = 0;
    let mut i: usize = 0;
    while i < actions.len()
        invariant
            i <= actions.len(),
            count == changes_upto(actions@, i as nat),
            count <= i,
        decreases actions.len() - i,
    {
        match actions[i] {
            LinkAction::Skip => {},
            _ => {
                count = count + 1;
            },
        }
        i = i + 1;
    }
    count
}

} // verus!
