//! Sets of addresses kept as strictly sorted lists, in text order.

use vstd::prelude::*;

use crate::address::{EntryAddress, Order, text_less, lemma_text_less_irreflexive, lemma_text_less_asymmetric, lemma_text_less_total, lemma_text_less_transitive};
use crate::entry::{addresses_view, has_target};

verus! {

/// Strictly increasing in text order.
pub open spec fn strictly_sorted(s: Seq<Seq<char>>) -> bool {
    forall|i: int, j: int| 0 <= i < j < s.len() ==> text_less(#[trigger] s[i], #[trigger] s[j])
}

/// Two strictly sorted sequences with the same elements are equal.
pub proof fn lemma_sorted_unique(a: Seq<Seq<char>>, b: Seq<Seq<char>>)
    requires
        strictly_sorted(a),
        strictly_sorted(b),
        forall|t: Seq<char>| #[trigger] a.contains(t) <==> b.contains(t),
    ensures
        a == b,
    decreases a.len(),
{
    if a.len() == 0 {
        if b.len() > 0 {
            assert(b.contains(b[0]));
            assert(a.contains(b[0]));
        }
        assert(a =~= b);
    } else {
        assert(a.contains(a[0]));
        assert(b.len() > 0);
        assert(b.contains(b[0]));
        assert(a.contains(b[0]));
        assert(b.contains(a[0]));
        let j = choose|j: int| 0 <= j < b.len() && b[j] == a[0];
        let k = choose|k: int| 0 <= k < a.len() && a[k] == b[0];
        if j > 0 && k > 0 {
            assert(text_less(b[0], b[j]));
            assert(text_less(a[0], a[k]));
            lemma_text_less_asymmetric(a[0], b[0]);
        }
        assert(a[0] == b[0]) by {
            if j == 0 {
            } else {
                assert(k == 0);
            }
        }
        let a1 = a.drop_first();
        let b1 = b.drop_first();
        assert forall|t: Seq<char>| #[trigger] a1.contains(t) <==> b1.contains(t) by {
            if a1.contains(t) {
                let i = choose|i: int| 0 <= i < a1.len() && a1[i] == t;
                assert(a[i + 1] == t);
                assert(text_less(a[0], t));
                lemma_text_less_irreflexive(t);
                assert(a.contains(t));
                assert(b.contains(t));
                let m = choose|m: int| 0 <= m < b.len() && b[m] == t;
                assert(m != 0);
                assert(b1[m - 1] == t);
            }
            if b1.contains(t) {
                let i = choose|i: int| 0 <= i < b1.len() && b1[i] == t;
                assert(b[i + 1] == t);
                assert(text_less(b[0], t));
                lemma_text_less_irreflexive(t);
                assert(b.contains(t));
                assert(a.contains(t));
                let m = choose|m: int| 0 <= m < a.len() && a[m] == t;
                assert(m != 0);
                assert(a1[m - 1] == t);
            }
        }
        lemma_sorted_unique(a1, b1);
        assert(a =~= b1.insert(0, b[0]));
        assert(b =~= b1.insert(0, b[0]));
    }
}

/// Distinct positions of a strictly sorted sequence hold distinct texts.
pub proof fn lemma_sorted_unique_index(s: Seq<Seq<char>>, i: int, j: int)
    requires
        strictly_sorted(s),
        0 <= i < s.len(),
        0 <= j < s.len(),
        i != j,
    ensures
        s[i] != s[j],
{
    lemma_text_less_irreflexive(s[i]);
    if i < j {
        assert(text_less(s[i], s[j]));
    } else {
        assert(text_less(s[j], s[i]));
    }
}

/// Whether `a` occurs in `v`.
pub fn contains_address(v: &Vec<EntryAddress>, a: &EntryAddress) -> (r: bool)
    ensures
        r == has_target(addresses_view(v@), a@),
{
    let ghost s = addresses_view(v@);
    let mut j: usize = 0;
    while j < v.len()
        invariant
            j <= v@.len(),
            s == addresses_view(v@),
            forall|k: int| 0 <= k < j ==> #[trigger] s[k] != a@,
        decreases v@.len() - j,
    {
        if v[j].same(a) {
            assert(s[j as int] == a@);
            return true;
        }
        j = j + 1;
    }
    false
}

/// Whether `x` comes before `y` in text order.
pub fn address_less(x: &EntryAddress, y: &EntryAddress) -> (r: bool)
    ensures
        r == text_less(x@, y@),
{
    match x.compare(y) {
        Order::Less => true,
        _ => false,
    }
}

/// Insert `a` into a strictly sorted list unless it is there already.
pub fn insert_sorted(v: &mut Vec<EntryAddress>, a: &EntryAddress)
    requires
        strictly_sorted(addresses_view(old(v)@)),
    ensures
        strictly_sorted(addresses_view(final(v)@)),
        forall|t: Seq<char>| #[trigger]
            addresses_view(final(v)@).contains(t) <==> (addresses_view(old(v)@).contains(t) || t
                == a@),
{
    let ghost s = addresses_view(v@);
    let mut p: usize = 0;
    while p < v.len() && address_less(&v[p], a)
        invariant
            p <= v@.len(),
            s == addresses_view(v@),
            s == addresses_view(old(v)@),
            strictly_sorted(s),
            forall|j: int| 0 <= j < p ==> text_less(#[trigger] s[j], a@),
        decreases v@.len() - p,
    {
        p = p + 1;
    }
    if p < v.len() && v[p].same(a) {
        assert(s[p as int] == a@);
        return ;
    }
    proof {
        if p < s.len() {
            lemma_text_less_total(s[p as int], a@);
        }
    }
    v.insert(p, a.clone());
    let ghost n = addresses_view(v@);
    assert(n =~= s.insert(p as int, a@));
    assert forall|i: int, j: int| 0 <= i < j < n.len() implies text_less(
        #[trigger] n[i],
        #[trigger] n[j],
    ) by {
        if j < p {
            assert(n[i] == s[i] && n[j] == s[j]);
        } else if j == p {
            assert(n[i] == s[i]);
        } else if i < p {
            assert(n[i] == s[i] && n[j] == s[j - 1]);
            assert(text_less(s[p as int], a@) == false);
            if j - 1 > p {
                assert(text_less(s[p as int], s[j - 1]));
                lemma_text_less_transitive(a@, s[p as int], s[j - 1]);
            }
            lemma_text_less_transitive(s[i], a@, s[j - 1]);
        } else if i == p {
            assert(n[j] == s[j - 1]);
            if j - 1 > p {
                assert(text_less(s[p as int], s[j - 1]));
                lemma_text_less_transitive(a@, s[p as int], s[j - 1]);
            }
        } else {
            assert(n[i] == s[i - 1] && n[j] == s[j - 1]);
        }
    }
    assert forall|t: Seq<char>| #[trigger]
        n.contains(t) <==> (s.contains(t) || t == a@) by {
        if n.contains(t) {
            let k = choose|k: int| 0 <= k < n.len() && n[k] == t;
            if k < p {
                assert(s[k] == t);
            } else if k > p {
                assert(s[k - 1] == t);
            }
        }
        if s.contains(t) {
            let k = choose|k: int| 0 <= k < s.len() && s[k] == t;
            if k < p {
                assert(n[k] == t);
            } else {
                assert(n[k + 1] == t);
            }
        }
        if t == a@ {
            assert(n[p as int] == t);
        }
    }
}

} // verus!
