//! Sorted, duplicate-free lists of mod ids.
use vstd::prelude::*;

verus! {

/// Every id is smaller than the next: sorted ascending without duplicates.
pub open spec fn strictly_increasing(s: Seq<u64>) -> bool {
    forall|i: int, j: int| 0 <= i < j < s.len() ==> s[i] < s[j]
}

/// Position at which `x` belongs in the sorted `v`: the first index whose id
/// is not smaller than `x`.
fn lower_bound(v: &Vec<u64>, x: u64) -> (k: usize)
    requires
        strictly_increasing(v@),
    ensures
        k <= v.len(),
        forall|j: int| 0 <= j < k ==> v@[j] < x,
        forall|j: int| k <= j < v.len() ==> v@[j] >= x,
{
    let mut k: usize = 0;
    while k < v.len() && v[k] < x
        invariant
            k <= v.len(),
            strictly_increasing(v@),
            forall|j: int| 0 <= j < k ==> v@[j] < x,
        decreases v.len() - k,
    {
        k = k + 1;
    }
    k
}

/// `sort_unstable` followed by `dedup`: the same ids, ascending, each once.
pub fn sort_dedup(ids: &mut Vec<u64>)
    ensures
        strictly_increasing(final(ids)@),
        forall|x: u64| final(ids)@.contains(x) <==> old(ids)@.contains(x),
{
    let ghost orig = ids@;
    let mut out: Vec<u64> = Vec::new();
    let mut i: usize = 0;
    while i < ids.len()
        invariant
            ids@ == orig,
            i <= ids.len(),
            strictly_increasing(out@),
            forall|x: u64| out@.contains(x) <==> orig.take(i as int).contains(x),
        decreases ids.len() - i,
    {
        let x = ids[i];
        assert(orig.take(i + 1) =~= orig.take(i as int).push(x));
        let k = lower_bound(&out, x);
        if k < out.len() && out[k] == x {
            assert forall|y: u64| out@.contains(y) <==> orig.take(i + 1).contains(y) by {
                if orig.take(i + 1).contains(y) && y != x {
                    let w = choose|w: int| 0 <= w < orig.take(i + 1).len() && #[trigger] orig.take(i + 1)[w] == y;
                    assert(orig.take(i as int)[w] == y);
                }
                if y == x {
                    assert(out@[k as int] == y);
                }
            }
        } else {
            let ghost before = out@;
            out.insert(k, x);
            assert(out@ =~= before.insert(k as int, x));
            assert forall|a: int, b: int| 0 <= a < b < out@.len() implies out@[a] < out@[b] by {
                if b < k {
                } else if b == k {
                } else if a < k {
                    assert(before[b - 1] >= x);
                } else if a == k {
                    assert(before[b - 1] >= x);
                    assert(before[b - 1] != x) by {
                        if k < before.len() {
                            assert(before[k as int] != x);
                            assert(before[k as int] > x);
                            if b - 1 > k {
                                assert(before[k as int] < before[b - 1]);
                            }
                        }
                    }
                } else {
                }
            }
            assert forall|y: u64| out@.contains(y) <==> orig.take(i + 1).contains(y) by {
                if out@.contains(y) {
                    let w = choose|w: int| 0 <= w < out@.len() && #[trigger] out@[w] == y;
                    if w == k {
                        assert(orig.take(i + 1)[i as int] == y);
                    } else {
                        if w < k {
                            assert(before[w] == y);
                        } else {
                            assert(before[w - 1] == y);
                        }
                        assert(before.contains(y));
                        assert(orig.take(i as int).contains(y));
                        let u = choose|u: int| 0 <= u < orig.take(i as int).len() && #[trigger] orig.take(i as int)[u] == y;
                        assert(orig.take(i + 1)[u] == y);
                    }
                }
                if orig.take(i + 1).contains(y) {
                    if y == x {
                        assert(out@[k as int] == y);
                    } else {
                        let w = choose|w: int| 0 <= w < orig.take(i + 1).len() && #[trigger] orig.take(i + 1)[w] == y;
                        assert(orig.take(i as int)[w] == y);
                        assert(before.contains(y));
                        let u = choose|u: int| 0 <= u < before.len() && #[trigger] before[u] == y;
                        if u < k {
                            assert(out@[u] == y);
                        } else {
                            assert(out@[u + 1] == y);
                        }
                    }
                }
            }
        }
        i = i + 1;
    }
    assert(orig.take(i as int) =~= orig);
    *ids = out;
}

/// Whether the sorted `ids` holds `x` (`binary_search(..).is_ok()`).
pub fn sorted_contains(ids: &Vec<u64>, x: u64) -> (r: bool)
    requires
        strictly_increasing(ids@),
    ensures
        r == ids@.contains(x),
{
    let k = lower_bound(ids, x);
    if k < ids.len() && ids[k] == x {
        true
    } else {
        assert(!ids@.contains(x)) by {
            if ids@.contains(x) {
                let w = choose|w: int| 0 <= w < ids@.len() && #[trigger] ids@[w] == x;
                if w < k {
                } else if w > k {
                    assert(ids@[k as int] < ids@[w]);
                }
            }
        }
        false
    }
}


/// The ascending, duplicate-free listing of the ids satisfying `member`.
pub open spec fn sorted_listing(member: spec_fn(u64) -> bool) -> Seq<u64> {
    choose|s: Seq<u64>| strictly_increasing(s) && forall|x: u64| s.contains(x) <==> member(x)
}

/// Two ascending duplicate-free sequences with the same ids are equal.
pub proof fn lemma_sorted_unique(a: Seq<u64>, b: Seq<u64>)
    requires
        strictly_increasing(a),
        strictly_increasing(b),
        forall|x: u64| a.contains(x) <==> b.contains(x),
    ensures
        a == b,
    decreases a.len(),
{
    if a.len() == 0 {
        if b.len() > 0 {
            assert(b.contains(b[0]));
        }
        assert(a =~= b);
    } else {
        assert(a.contains(a[0]));
        assert(b.len() > 0);
        assert(b.contains(b[0]));
        let i = choose|i: int| 0 <= i < a.len() && #[trigger] a[i] == b[0];
        let j = choose|j: int| 0 <= j < b.len() && #[trigger] b[j] == a[0];
        assert(a[0] <= a[i]);
        assert(b[0] <= b[j]);
        assert(a[0] == b[0]);
        let a1 = a.skip(1);
        let b1 = b.skip(1);
        assert forall|x: u64| a1.contains(x) <==> b1.contains(x) by {
            if a1.contains(x) {
                let k = choose|k: int| 0 <= k < a1.len() && #[trigger] a1[k] == x;
                assert(a[k + 1] == x);
                assert(a.contains(x));
                let m = choose|m: int| 0 <= m < b.len() && #[trigger] b[m] == x;
                assert(a[0] < a[k + 1]);
                assert(m != 0);
                assert(b1[m - 1] == x);
            }
            if b1.contains(x) {
                let k = choose|k: int| 0 <= k < b1.len() && #[trigger] b1[k] == x;
                assert(b[k + 1] == x);
                assert(b.contains(x));
                let m = choose|m: int| 0 <= m < a.len() && #[trigger] a[m] == x;
                assert(b[0] < b[k + 1]);
                assert(m != 0);
                assert(a1[m - 1] == x);
            }
        }
        lemma_sorted_unique(a1, b1);
        assert(a =~= seq![a[0]] + a1);
        assert(b =~= seq![b[0]] + b1);
    }
}

/// An ascending duplicate-free sequence is the sorted listing of its ids.
pub proof fn lemma_is_sorted_listing(s: Seq<u64>, member: spec_fn(u64) -> bool)
    requires
        strictly_increasing(s),
        forall|x: u64| s.contains(x) <==> member(x),
    ensures
        sorted_listing(member) == s,
{
    let t = sorted_listing(member);
    assert(strictly_increasing(t) && forall|x: u64| t.contains(x) <==> member(x));
    lemma_sorted_unique(s, t);
}

} // verus!
