//! Sorted, duplicate-free id vectors: every bounded scan reports pids and
//! inodes in ascending order with duplicates dropped.

use vstd::prelude::*;

verus! {

/// Strictly ascending: sorted with no duplicates.
pub open spec fn strictly_sorted_u64(s: Seq<u64>) -> bool {
    forall|i: int, j: int| 0 <= i < j < s.len() ==> s[i] < s[j]
}

/// Strictly ascending: sorted with no duplicates.
pub open spec fn strictly_sorted_u32(s: Seq<u32>) -> bool {
    forall|i: int, j: int| 0 <= i < j < s.len() ==> s[i] < s[j]
}

/// Linear membership test.
pub fn contains_u32(v: &Vec<u32>, x: u32) -> (r: bool)
    ensures
        r == v@.contains(x),
{
    let n = v.len();
    let mut k: usize = 0;
    while k < n
        invariant
            n == v@.len(),
            k <= n,
            forall|j: int| 0 <= j < k ==> v@[j] != x,
        decreases n - k,
    {
        if v[k] == x {
            return true;
        }
        k += 1;
    }
    false
}

/// Linear membership test.
pub fn contains_u64(v: &Vec<u64>, x: u64) -> (r: bool)
    ensures
        r == v@.contains(x),
{
    let n = v.len();
    let mut k: usize = 0;
    while k < n
        invariant
            n == v@.len(),
            k <= n,
            forall|j: int| 0 <= j < k ==> v@[j] != x,
        decreases n - k,
    {
        if v[k] == x {
            return true;
        }
        k += 1;
    }
    false
}

/// Insert `x` into an ascending vector, keeping it ascending; a value
/// already present is left alone.
pub fn insert_sorted_u64(out: &mut Vec<u64>, x: u64)
    requires
        strictly_sorted_u64(old(out)@),
    ensures
        strictly_sorted_u64(final(out)@),
        forall|v: u64| final(out)@.contains(v) <==> (old(out)@.contains(v) || v == x),
        final(out)@.len() <= old(out)@.len() + 1,
{
    let n = out.len();
    let mut i: usize = 0;
    while i < n && out[i] < x
        invariant
            n == out@.len(),
            i <= n,
            strictly_sorted_u64(out@),
            forall|k: int| 0 <= k < i ==> out@[k] < x,
        decreases n - i,
    {
        i += 1;
    }
    if i < n && out[i] == x {
        return;
    }
    out.insert(i, x);
    proof {
        assert forall|v: u64| final(out)@.contains(v) implies (old(out)@.contains(v) || v == x) by {
            let k = choose|k: int| 0 <= k < final(out)@.len() && #[trigger] final(out)@[k] == v;
            if k < i {
                assert(old(out)@[k] == v);
            } else if k > i {
                assert(old(out)@[k - 1] == v);
            }
        }
        assert forall|v: u64| (old(out)@.contains(v) || v == x) implies final(out)@.contains(v) by {
            if v == x {
                assert(final(out)@[i as int] == x);
            } else {
                let k = choose|k: int| 0 <= k < old(out)@.len() && #[trigger] old(out)@[k] == v;
                if k < i {
                    assert(final(out)@[k] == v);
                } else {
                    assert(final(out)@[k + 1] == v);
                }
            }
        }
    }
}

/// Insert `x` into an ascending vector, keeping it ascending; a value
/// already present is left alone.
pub fn insert_sorted_u32(out: &mut Vec<u32>, x: u32)
    requires
        strictly_sorted_u32(old(out)@),
    ensures
        strictly_sorted_u32(final(out)@),
        forall|v: u32| final(out)@.contains(v) <==> (old(out)@.contains(v) || v == x),
{
    let n = out.len();
    let mut i: usize = 0;
    while i < n && out[i] < x
        invariant
            n == out@.len(),
            i <= n,
            strictly_sorted_u32(out@),
            forall|k: int| 0 <= k < i ==> out@[k] < x,
        decreases n - i,
    {
        i += 1;
    }
    if i < n && out[i] == x {
        return;
    }
    out.insert(i, x);
    proof {
        assert forall|v: u32| final(out)@.contains(v) implies (old(out)@.contains(v) || v == x) by {
            let k = choose|k: int| 0 <= k < final(out)@.len() && #[trigger] final(out)@[k] == v;
            if k < i {
                assert(old(out)@[k] == v);
            } else if k > i {
                assert(old(out)@[k - 1] == v);
            }
        }
        assert forall|v: u32| (old(out)@.contains(v) || v == x) implies final(out)@.contains(v) by {
            if v == x {
                assert(final(out)@[i as int] == x);
            } else {
                let k = choose|k: int| 0 <= k < old(out)@.len() && #[trigger] old(out)@[k] == v;
                if k < i {
                    assert(final(out)@[k] == v);
                } else {
                    assert(final(out)@[k + 1] == v);
                }
            }
        }
    }
}

/// The ascending, duplicate-free vector with the same members as `v`.
pub fn sort_dedup_u64s(v: &Vec<u64>) -> (r: Vec<u64>)
    ensures
        strictly_sorted_u64(r@),
        forall|x: u64| r@.contains(x) <==> v@.contains(x),
        r@.len() <= v@.len(),
{
    let n = v.len();
    let mut out: Vec<u64> = Vec::new();
    let mut i: usize = 0;
    while i < n
        invariant
            n == v@.len(),
            i <= n,
            strictly_sorted_u64(out@),
            forall|x: u64| out@.contains(x) <==> v@.subrange(0, i as int).contains(x),
            out@.len() <= i,
        decreases n - i,
    {
        insert_sorted_u64(&mut out, v[i]);
        proof {
            assert forall|x: u64| out@.contains(x) implies v@.subrange(0, i + 1).contains(x) by {
                if x == v@[i as int] {
                    assert(v@.subrange(0, i + 1)[i as int] == x);
                } else {
                    let k = choose|k: int|
                        0 <= k < v@.subrange(0, i as int).len() && #[trigger] v@.subrange(
                            0,
                            i as int,
                        )[k] == x;
                    assert(v@.subrange(0, i + 1)[k] == x);
                }
            }
            assert forall|x: u64| v@.subrange(0, i + 1).contains(x) implies out@.contains(x) by {
                let k = choose|k: int|
                    0 <= k < v@.subrange(0, i + 1).len() && #[trigger] v@.subrange(0, i + 1)[k]
                        == x;
                if k < i {
                    assert(v@.subrange(0, i as int)[k] == x);
                }
            }
        }
        i += 1;
    }
    proof {
        assert(v@.subrange(0, n as int) =~= v@);
    }
    out
}

/// The ascending, duplicate-free vector with the same members as `v`.
pub fn sort_dedup_u32s(v: &Vec<u32>) -> (r: Vec<u32>)
    ensures
        strictly_sorted_u32(r@),
        forall|x: u32| r@.contains(x) <==> v@.contains(x),
{
    let n = v.len();
    let mut out: Vec<u32> = Vec::new();
    let mut i: usize = 0;
    while i < n
        invariant
            n == v@.len(),
            i <= n,
            strictly_sorted_u32(out@),
            forall|x: u32| out@.contains(x) <==> v@.subrange(0, i as int).contains(x),
        decreases n - i,
    {
        insert_sorted_u32(&mut out, v[i]);
        proof {
            assert forall|x: u32| out@.contains(x) implies v@.subrange(0, i + 1).contains(x) by {
                if x == v@[i as int] {
                    assert(v@.subrange(0, i + 1)[i as int] == x);
                } else {
                    let k = choose|k: int|
                        0 <= k < v@.subrange(0, i as int).len() && #[trigger] v@.subrange(
                            0,
                            i as int,
                        )[k] == x;
                    assert(v@.subrange(0, i + 1)[k] == x);
                }
            }
            assert forall|x: u32| v@.subrange(0, i + 1).contains(x) implies out@.contains(x) by {
                let k = choose|k: int|
                    0 <= k < v@.subrange(0, i + 1).len() && #[trigger] v@.subrange(0, i + 1)[k]
                        == x;
                if k < i {
                    assert(v@.subrange(0, i as int)[k] == x);
                }
            }
        }
        i += 1;
    }
    proof {
        assert(v@.subrange(0, n as int) =~= v@);
    }
    out
}

} // verus!
