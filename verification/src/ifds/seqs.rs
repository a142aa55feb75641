//! Facts about sequences read as sets, shared by the list-backed sets of
//! the analysis.
use vstd::prelude::*;

verus! {

/// Inserting an element at a position adds it to the set of elements.
pub proof fn lemma_insert_to_set<A>(s: Seq<A>, k: int, a: A)
    requires
        0 <= k <= s.len(),
    ensures
        s.insert(k, a).to_set() == s.to_set().insert(a),
{
    s.insert_ensures(k, a);
    let t = s.insert(k, a);
    assert forall|x: A| t.to_set().contains(x) == s.to_set().insert(a).contains(x) by {
        if t.contains(x) {
            let i = choose|i: int| 0 <= i < t.len() && t[i] == x;
            if i < k {
                assert(s[i] == x);
            } else if i > k {
                assert(s[i - 1] == x);
            }
        }
        if s.contains(x) {
            let i = choose|i: int| 0 <= i < s.len() && s[i] == x;
            if i < k {
                assert(t[i] == x);
            } else {
                assert(t[i + 1] == x);
            }
        }
        if x == a {
            assert(t[k] == x);
        }
    }
    assert(t.to_set() =~= s.to_set().insert(a));
}

/// Appending an element adds it to the set of elements.
pub proof fn lemma_push_to_set<A>(s: Seq<A>, a: A)
    ensures
        s.push(a).to_set() == s.to_set().insert(a),
{
    let t = s.push(a);
    assert forall|x: A| t.to_set().contains(x) == s.to_set().insert(a).contains(x) by {
        if t.contains(x) {
            let i = choose|i: int| 0 <= i < t.len() && t[i] == x;
            if i < s.len() {
                assert(s[i] == x);
            }
        }
        if s.contains(x) {
            let i = choose|i: int| 0 <= i < s.len() && s[i] == x;
            assert(t[i] == x);
        }
        if x == a {
            assert(t[s.len() as int] == x);
        }
    }
    assert(t.to_set() =~= s.to_set().insert(a));
}

/// Adding an element already present leaves the set of elements unchanged.
pub proof fn lemma_present_to_set<A>(s: Seq<A>, k: int, a: A)
    requires
        0 <= k < s.len(),
        s[k] == a,
    ensures
        s.to_set().insert(a) == s.to_set(),
{
    assert(s.contains(a));
    assert(s.to_set().insert(a) =~= s.to_set());
}

} // verus!
