use vstd::prelude::*;
use vstd::multiset::Multiset;

verus! {

/// The items of `s` from `lo` to `hi`, both included.
pub open spec fn seg(s: Seq<i32>, lo: int, hi: int) -> Seq<i32> {
    s.subrange(lo, hi + 1)
}

/// The items of `s` from `lo` to `hi` are in ascending order.
pub open spec fn sorted_between(s: Seq<i32>, lo: int, hi: int) -> bool {
    forall|i: int, j: int| lo <= i <= j <= hi ==> #[trigger] s[i] <= #[trigger] s[j]
}

/// `t` differs from `s` at most between `lo` and `hi`, where it holds the same
/// items in some order.
pub open spec fn permuted_within(s: Seq<i32>, t: Seq<i32>, lo: int, hi: int) -> bool {
    &&& t.len() == s.len()
    &&& forall|k: int| 0 <= k < s.len() && (k < lo || k > hi) ==> #[trigger] t[k] == s[k]
    &&& seg(t, lo, hi).to_multiset() == seg(s, lo, hi).to_multiset()
}

/// Swapping two items inside a segment keeps the items of the segment.
proof fn lemma_swap_keeps(s: Seq<i32>, i: int, j: int, lo: int, hi: int)
    requires
        0 <= lo <= i <= hi < s.len(),
        lo <= j <= hi,
    ensures
        permuted_within(s, s.update(i, s[j]).update(j, s[i]), lo, hi),
{
    broadcast use vstd::multiset::group_multiset_axioms, vstd::seq_lib::to_multiset_contains;
    let t = s.update(i, s[j]).update(j, s[i]);
    let a = seg(s, lo, hi);
    let a1 = a.update(i - lo, s[j]);
    let a2 = a1.update(j - lo, s[i]);
    assert(seg(t, lo, hi) =~= a2);
    vstd::seq_lib::to_multiset_update(a, i - lo, s[j]);
    vstd::seq_lib::to_multiset_update(a1, j - lo, s[i]);
    if i == j {
        assert(a2 =~= a);
    } else {
        assert(a1[j - lo] == s[j]);
        assert(a[i - lo] == s[i]);
        assert(a.contains(s[i]));
        assert(a.to_multiset().count(s[i]) > 0);
        assert(a2.to_multiset() =~= a.to_multiset());
    }
}

/// The items of a segment that is a permutation of another all lie within the
/// bounds that the items of the other lie within.
proof fn lemma_perm_bounds(s: Seq<i32>, t: Seq<i32>, lo: int, hi: int, p: i32, above: bool)
    requires
        0 <= lo,
        hi < s.len(),
        t.len() == s.len(),
        seg(t, lo, hi).to_multiset() == seg(s, lo, hi).to_multiset(),
        forall|k: int| lo <= k <= hi ==> if above { #[trigger] s[k] >= p } else { s[k] <= p },
    ensures
        forall|k: int| lo <= k <= hi ==> if above { #[trigger] t[k] >= p } else { t[k] <= p },
{
    broadcast use vstd::seq_lib::to_multiset_contains;
    assert forall|k: int| lo <= k <= hi implies if above { #[trigger] t[k] >= p } else { t[k] <= p } by {
        let x = t[k];
        assert(seg(t, lo, hi)[k - lo] == x);
        assert(seg(t, lo, hi).contains(x));
        assert(seg(t, lo, hi).to_multiset().count(x) > 0);
        assert(seg(s, lo, hi).contains(x));
        let j = choose|j: int| 0 <= j < seg(s, lo, hi).len() && seg(s, lo, hi)[j] == x;
        assert(s[lo + j] == x);
    }
}

/// A permutation of a part of a segment is a permutation of the segment.
proof fn lemma_perm_widen(s: Seq<i32>, t: Seq<i32>, a: int, b: int, lo: int, hi: int)
    requires
        0 <= lo <= a,
        b <= hi < s.len(),
        a <= b + 1,
        permuted_within(s, t, a, b),
    ensures
        permuted_within(s, t, lo, hi),
{
    broadcast use vstd::multiset::group_multiset_axioms;
    let x1 = s.subrange(lo, a);
    let x2 = seg(s, a, b);
    let x3 = s.subrange(b + 1, hi + 1);
    let y2 = seg(t, a, b);
    assert(t.subrange(lo, a) =~= x1);
    assert(t.subrange(b + 1, hi + 1) =~= x3);
    assert(seg(s, lo, hi) =~= x1 + x2 + x3);
    assert(seg(t, lo, hi) =~= x1 + y2 + x3);
    vstd::seq_lib::lemma_multiset_commutative(x1 + x2, x3);
    vstd::seq_lib::lemma_multiset_commutative(x1, x2);
    vstd::seq_lib::lemma_multiset_commutative(x1 + y2, x3);
    vstd::seq_lib::lemma_multiset_commutative(x1, y2);
}

/// Permutations within a segment compose.
proof fn lemma_perm_trans(s: Seq<i32>, t: Seq<i32>, u: Seq<i32>, lo: int, hi: int)
    requires
        permuted_within(s, t, lo, hi),
        permuted_within(t, u, lo, hi),
    ensures
        permuted_within(s, u, lo, hi),
{
}

/// No item from `lo` up to (not including) `l` is greater than `mid`.
pub open spec fn left_le(s: Seq<i32>, lo: int, l: int, mid: i32) -> bool {
    forall|k: int| lo <= k < l ==> #[trigger] s[k] <= mid
}

/// No item after `r` up to `hi` is less than `mid`.
pub open spec fn right_ge(s: Seq<i32>, r: int, hi: int, mid: i32) -> bool {
    forall|k: int| r < k <= hi ==> #[trigger] s[k] >= mid
}

/// Exchanges two items.
fn swap_items(data: &mut Vec<i32>, i: usize, j: usize)
    requires
        i < old(data)@.len(),
        j < old(data)@.len(),
    ensures
        final(data)@ == old(data)@.update(i as int, old(data)@[j as int]).update(j as int, old(data)@[i as int]),
{
    let a = data[i];
    let b = data[j];
    data.set(i, b);
    data.set(j, a);
}

/// Sorts `data[low..=high]` in place by partition exchange: the middle item is
/// the pivot, a scan from each end stops at an item on the wrong side, the two
/// are exchanged, and the two parts are sorted in turn. The scan from the right
/// stops at the latest just before `low`: past there nothing it could find
/// changes what follows.
#[verifier::loop_isolation(false)]
#[verifier::rlimit(80)]
pub fn qsort(data: &mut Vec<i32>, low: usize, high: usize)
    requires
        low < high < old(data)@.len(),
    ensures
        permuted_within(old(data)@, final(data)@, low as int, high as int),
        sorted_between(final(data)@, low as int, high as int),
    decreases high - low,
{
    let ghost orig = data@;
    let mut l: usize = low;
    let mut r: usize = high;
    let m: usize = low + (high - low) / 2;
    let mid = data[m];
    let ghost mut swapped = false;
    let ghost mut ls: int = m as int;
    let ghost mut rs: int = m as int;
    proof {
        assert(seg(data@, low as int, high as int) =~= seg(orig, low as int, high as int));
    }
    loop
        invariant
            low < high < data@.len(),
            low <= m < high,
            permuted_within(orig, data@, low as int, high as int),
            low <= l <= high,
            r <= high,
            low <= r + 1,
            left_le(data@, low as int, l as int, mid),
            right_ge(data@, r as int, high as int, mid),
            l <= ls <= high,
            data@[ls] >= mid,
            low == 0 ==> 0 <= rs <= r && data@[rs] <= mid,
            !swapped ==> l == low && r == high && ls == m && rs == m && data@ == orig,
            swapped ==> r < high && low < l,
        decreases high - l,
    {
        let ghost l0 = l;
        let ghost r0 = r;
        while data[l] < mid
            invariant
                l0 <= l,
                low <= l <= ls <= high < data@.len(),
                data@[ls] >= mid,
                left_le(data@, low as int, l as int, mid),
            decreases ls - l,
        {
            l = l + 1;
        }
        while r >= low && data[r] > mid
            invariant
                r <= r0,
                r <= high < data@.len(),
                low <= r + 1,
                low == 0 ==> 0 <= rs <= r && data@[rs] <= mid,
                right_ge(data@, r as int, high as int, mid),
                !swapped ==> m <= r && data@ == orig,
            decreases r,
        {
            r = r - 1;
        }
        if l > r {
            break;
        }
        let ghost before = data@;
        swap_items(data, l, r);
        proof {
            lemma_swap_keeps(before, l as int, r as int, low as int, high as int);
            lemma_perm_trans(orig, before, data@, low as int, high as int);
        }
        let ghost lr = r;
        l = l + 1;
        if 0 < r {
            r = r - 1;
        }
        proof {
            assert(left_le(data@, low as int, l as int, mid)) by {
                assert forall|k: int| low <= k < l implies #[trigger] data@[k] <= mid by {
                    if k == l - 1 {
                        assert(data@[k] == before[lr as int]);
                    } else {
                        assert(data@[k] == before[k]);
                    }
                }
            }
            assert(right_ge(data@, r as int, high as int, mid)) by {
                assert forall|k: int| r < k <= high implies #[trigger] data@[k] >= mid by {
                    if k == lr {
                        assert(data@[k] == before[(l - 1) as int]);
                    } else {
                        assert(data@[k] == before[k]);
                    }
                }
            }
            swapped = true;
            ls = high as int;
            rs = low as int;
        }
    }
    let ghost d1 = data@;
    if low < r {
        qsort(data, low, r);
    }
    let ghost d2 = data@;
    proof {
        if low < r {
            lemma_perm_bounds(d1, d2, low as int, r as int, mid, false);
            lemma_perm_widen(d1, d2, low as int, r as int, low as int, high as int);
        } else {
            assert(seg(d2, low as int, high as int) =~= seg(d1, low as int, high as int));
        }
        assert(left_le(d2, low as int, l as int, mid)) by {
            assert forall|k: int| low <= k < l implies #[trigger] d2[k] <= mid by {
                if k > r {
                    assert(d2[k] == d1[k]);
                }
            }
        }
        assert(right_ge(d2, r as int, high as int, mid)) by {
            assert forall|k: int| r < k <= high implies #[trigger] d2[k] >= mid by {
                assert(d2[k] == d1[k]);
            }
        }
    }
    if l < high {
        qsort(data, l, high);
    }
    let ghost d3 = data@;
    proof {
        if l < high {
            lemma_perm_bounds(d2, d3, l as int, high as int, mid, true);
            lemma_perm_widen(d2, d3, l as int, high as int, low as int, high as int);
        } else {
            assert(seg(d3, low as int, high as int) =~= seg(d2, low as int, high as int));
        }
        lemma_perm_trans(orig, d1, d2, low as int, high as int);
        lemma_perm_trans(orig, d2, d3, low as int, high as int);
        assert forall|i: int, j: int| low <= i <= j <= high implies #[trigger] d3[i] <= #[trigger] d3[j] by {
            if j <= r {
                assert(d3[i] == d2[i] && d3[j] == d2[j]);
                if low < r {
                } else {
                    assert(i == j);
                }
            } else if i >= l {
                if l < high {
                } else {
                    assert(i == j);
                }
            } else {
                if i <= r {
                    assert(d3[i] == d2[i]);
                    assert(d2[i] <= mid);
                } else {
                    assert(d3[i] == d2[i]);
                    assert(d2[i] <= mid);
                }
                if j >= l {
                    assert(d3[j] >= mid);
                } else {
                    assert(d3[j] == d2[j]);
                    assert(d2[j] >= mid);
                }
            }
        }
    }
}

} // verus!
