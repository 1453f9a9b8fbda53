//! Small verified helpers on vectors of peer identifiers.

use vstd::prelude::*;

verus! {

/// Returns whether `x` occurs in `v`.
pub fn contains_u64(v: &Vec<u64>, x: u64) -> (r: bool)
    ensures
        r == v@.contains(x),
{
    let n = v.len();
    let mut i: usize = 0;
    while i < n
        invariant
            n == v@.len(),
            0 <= i <= n,
            forall|k: int| 0 <= k < i ==> v@[k] != x,
        decreases n - i,
    {
        if v[i] == x {
            return true;
        }
        i = i + 1;
    }
    false
}

/// Returns a detached copy of `v`.
pub fn copy_u64s(v: &Vec<u64>) -> (r: Vec<u64>)
    ensures
        r@ == v@,
{
    let n = v.len();
    let mut r: Vec<u64> = Vec::new();
    let mut i: usize = 0;
    while i < n
        invariant
            n == v@.len(),
            0 <= i <= n,
            r@ == v@.subrange(0, i as int),
        decreases n - i,
    {
        r.push(v[i]);
        proof {
            assert(r@ =~= v@.subrange(0, i + 1));
        }
        i = i + 1;
    }
    proof {
        assert(v@.subrange(0, n as int) =~= v@);
    }
    r
}

/// Returns the position of the first occurrence of `x` in `v`.
pub fn index_of_u64(v: &Vec<u64>, x: u64) -> (r: usize)
    requires
        v@.contains(x),
    ensures
        r < v@.len(),
        v@[r as int] == x,
        forall|k: int| 0 <= k < r ==> v@[k] != x,
{
    let n = v.len();
    let mut i: usize = 0;
    while i < n
        invariant
            n == v@.len(),
            0 <= i <= n,
            v@.contains(x),
            forall|k: int| 0 <= k < i ==> v@[k] != x,
        decreases n - i,
    {
        if v[i] == x {
            return i;
        }
        i = i + 1;
    }
    proof {
        let w = choose|k: int| 0 <= k < v@.len() && v@[k] == x;
        assert(v@[w] != x);
    }
    unreached()
}

/// Appending an element that is not yet present keeps a sequence free of
/// duplicates.
pub proof fn lemma_push_keeps_no_duplicates(s: Seq<u64>, a: u64)
    requires
        s.no_duplicates(),
        !s.contains(a),
    ensures
        s.push(a).no_duplicates(),
{
    let t = s.push(a);
    assert forall|i: int, j: int| 0 <= i < t.len() && 0 <= j < t.len() && i != j implies t[i]
        != t[j] by {
        if j == s.len() {
            assert(t[i] == s[i]);
            if s[i] == a {
                assert(s.contains(a));
            }
        } else if i == s.len() {
            assert(t[j] == s[j]);
            if s[j] == a {
                assert(s.contains(a));
            }
        }
    }
}

/// Every element of a filtered sequence is an element of the original.
pub proof fn lemma_filter_is_subset(s: Seq<u64>, pred: spec_fn(u64) -> bool)
    ensures
        forall|i: int| 0 <= i < s.filter(pred).len() ==> s.contains(#[trigger] s.filter(pred)[i]),
    decreases s.len(),
{
    reveal(Seq::filter);
    if s.len() > 0 {
        lemma_filter_is_subset(s.drop_last(), pred);
        let f = s.filter(pred);
        let fd = s.drop_last().filter(pred);
        assert forall|i: int| 0 <= i < f.len() implies s.contains(#[trigger] f[i]) by {
            if pred(s.last()) && i == f.len() - 1 {
                assert(f[i] == s.last());
                assert(s[s.len() - 1] == s.last());
            } else {
                assert(f[i] == fd[i]);
                assert(s.drop_last().contains(fd[i]));
                let w = choose|w: int|
                    0 <= w < s.drop_last().len() && s.drop_last()[w] == fd[i];
                assert(s[w] == fd[i]);
            }
        }
    }
}

/// Removing one position keeps a sequence free of duplicates, and drops
/// the removed value entirely when the sequence had no duplicates.
pub proof fn lemma_remove_keeps_no_duplicates(s: Seq<u64>, k: int)
    requires
        s.no_duplicates(),
        0 <= k < s.len(),
    ensures
        s.remove(k).no_duplicates(),
        !s.remove(k).contains(s[k]),
        forall|q: u64| q != s[k] ==> s.remove(k).contains(q) == s.contains(q),
{
    let t = s.remove(k);
    assert forall|i: int, j: int| 0 <= i < t.len() && 0 <= j < t.len() && i != j implies t[i]
        != t[j] by {
        assert(t[i] == (if i < k { s[i] } else { s[i + 1] }));
        assert(t[j] == (if j < k { s[j] } else { s[j + 1] }));
    }
    if t.contains(s[k]) {
        let w = choose|w: int| 0 <= w < t.len() && t[w] == s[k];
        assert(t[w] == (if w < k { s[w] } else { s[w + 1] }));
    }
    assert forall|q: u64| q != s[k] implies t.contains(q) == s.contains(q) by {
        if t.contains(q) {
            let w = choose|w: int| 0 <= w < t.len() && t[w] == q;
            assert(t[w] == (if w < k { s[w] } else { s[w + 1] }));
            assert(s.contains(q));
        }
        if s.contains(q) {
            let w = choose|w: int| 0 <= w < s.len() && s[w] == q;
            if w < k {
                assert(t[w] == s[w]);
            } else {
                assert(w > k);
                assert(t[w - 1] == s[w]);
            }
            assert(t.contains(q));
        }
    }
}

} // verus!
