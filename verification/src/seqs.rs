//! General sequence facts the builder's permutation proofs lean on.

use vstd::prelude::*;
use vstd::seq_lib::*;

verus! {

/// Swapping two positions of a sequence leaves its multiset unchanged.
pub proof fn lemma_swap_multiset<A>(s: Seq<A>, i: int, j: int)
    requires
        0 <= i < s.len(),
        0 <= j < s.len(),
        i != j,
    ensures
        s.update(i, s[j]).update(j, s[i]).to_multiset() == s.to_multiset(),
{
    broadcast use group_to_multiset_ensures;
    broadcast use vstd::multiset::group_multiset_axioms;

    let s1 = s.update(i, s[j]);
    let s2 = s1.update(j, s[i]);
    assert(s1[j] == s[j]);
    assert(s2.to_multiset() =~= s.to_multiset());
}

/// Two sequences with equal multisets still have equal multisets after the
/// same function is mapped over both.
pub proof fn lemma_map_values_multiset<A, B>(s: Seq<A>, t: Seq<A>, f: spec_fn(A) -> B)
    requires
        s.to_multiset() == t.to_multiset(),
    ensures
        s.map_values(f).to_multiset() == t.map_values(f).to_multiset(),
    decreases s.len(),
{
    broadcast use group_to_multiset_ensures;
    broadcast use vstd::multiset::group_multiset_axioms;

    assert(s.to_multiset().len() == s.len());
    assert(t.to_multiset().len() == t.len());
    if s.len() == 0 {
        assert(t.len() == 0);
        assert(s.map_values(f) =~= t.map_values(f));
    } else {
        let x = s.last();
        let s0 = s.drop_last();
        assert(s[s.len() - 1] == x);
        assert(s.contains(x));
        assert(t.to_multiset().count(x) > 0);
        assert(t.contains(x));
        let j = choose|j: int| 0 <= j < t.len() && t[j] == x;
        let t0 = t.remove(j);
        assert(s0 =~= s.remove(s.len() - 1));
        assert(s0.to_multiset() == s.to_multiset().remove(x));
        assert(t0.to_multiset() == t.to_multiset().remove(x));
        lemma_map_values_multiset(s0, t0, f);
        assert(s0.map_values(f).push(f(x)) =~= s.map_values(f));
        assert(s.map_values(f).to_multiset() == s0.map_values(f).to_multiset().insert(f(x)));
        assert(t0.map_values(f) =~= t.map_values(f).remove(j));
        assert(t.map_values(f)[j] == f(x));
        assert(t0.map_values(f).to_multiset() == t.map_values(f).to_multiset().remove(f(x)));
        assert(t.map_values(f).contains(f(x)));
        assert(t.map_values(f).to_multiset().count(f(x)) > 0);
        assert(t.map_values(f).to_multiset().remove(f(x)).insert(f(x)) =~= t.map_values(
            f,
        ).to_multiset());
    }
}

/// When only the window `[a, b)` of a sequence has been reordered (equal
/// multisets there, everything outside untouched), every element now inside
/// the window already stood somewhere in the old window.
pub proof fn lemma_window_elements_from<A>(s0: Seq<A>, s1: Seq<A>, a: int, b: int)
    requires
        s0.len() == s1.len(),
        0 <= a <= b <= s0.len(),
        s1.subrange(a, b).to_multiset() == s0.subrange(a, b).to_multiset(),
    ensures
        forall|k: int| a <= k < b ==> s0.subrange(a, b).contains(#[trigger] s1[k]),
{
    broadcast use group_to_multiset_ensures;

    assert forall|k: int| a <= k < b implies s0.subrange(a, b).contains(#[trigger] s1[k]) by {
        assert(s1.subrange(a, b)[k - a] == s1[k]);
        assert(s1.subrange(a, b).contains(s1[k]));
        assert(s0.subrange(a, b).to_multiset().count(s1[k]) > 0);
    }
}

} // verus!
