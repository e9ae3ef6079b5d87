//! Stable sorting, as a specification: what it means for a sequence to be
//! the stable sort of another, and that this pins the result.

use vstd::prelude::*;

verus! {

/// `sorted` with `x` placed after its last element whose key is at most the
/// key of `x`.
pub open spec fn inserted(sorted: Seq<usize>, x: usize, key: spec_fn(usize) -> int) -> Seq<usize>
    decreases sorted.len(),
{
    if sorted.len() == 0 || key(sorted.last()) <= key(x) {
        sorted.push(x)
    } else {
        inserted(sorted.drop_last(), x, key).push(sorted.last())
    }
}

/// The elements of `s` in ascending order of key, those of equal key in
/// the order they have in `s`.
pub open spec fn stable_sorted(s: Seq<usize>, key: spec_fn(usize) -> int) -> Seq<usize>
    decreases s.len(),
{
    if s.len() == 0 {
        s
    } else {
        inserted(stable_sorted(s.drop_last(), key), s.last(), key)
    }
}

/// Whether the keys of `s` never decrease.
pub open spec fn ascending(s: Seq<usize>, key: spec_fn(usize) -> int) -> bool {
    forall|i: int, j: int| 0 <= i <= j < s.len() ==> key(#[trigger] s[i]) <= key(#[trigger] s[j])
}

/// Whether elements of equal key that follow one another in `a` do so in
/// `b` too.
pub open spec fn keeps_order(a: Seq<usize>, b: Seq<usize>, key: spec_fn(usize) -> int) -> bool {
    forall|p: int, q: int|
        0 <= p < q < a.len() && key(a[p]) == key(a[q]) ==> #[trigger] follows(b, a[p], a[q])
}

/// Whether `later` occurs after `earlier` in `b`.
pub open spec fn follows(b: Seq<usize>, earlier: usize, later: usize) -> bool {
    exists|i: int, j: int| 0 <= i < j < b.len() && b[i] == earlier && b[j] == later
}

/// Whether `k` splits `t` into the elements of key at most that of `x` and
/// the elements of greater key.
pub open spec fn splits_at(t: Seq<usize>, x: usize, key: spec_fn(usize) -> int, k: int) -> bool {
    &&& 0 <= k <= t.len()
    &&& forall|i: int| 0 <= i < k ==> key(#[trigger] t[i]) <= key(x)
    &&& forall|i: int| k <= i < t.len() ==> key(#[trigger] t[i]) > key(x)
}

/// Inserting into an ascending sequence places the element at the split.
pub proof fn lemma_inserted_at_split(t: Seq<usize>, x: usize, key: spec_fn(usize) -> int, k: int)
    requires
        splits_at(t, x, key, k),
    ensures
        inserted(t, x, key) == t.subrange(0, k).push(x) + t.subrange(k, t.len() as int),
    decreases t.len(),
{
    if t.len() == 0 || key(t.last()) <= key(x) {
        if t.len() > 0 && k < t.len() {
            assert(key(t[t.len() - 1]) > key(x));
        }
        assert(t.push(x) =~= t.subrange(0, k).push(x) + t.subrange(k, t.len() as int));
    } else {
        let shorter = t.drop_last();
        if k == t.len() {
            assert(key(t[t.len() - 1]) <= key(x));
        }
        assert(splits_at(shorter, x, key, k)) by {
            assert forall|i: int| 0 <= i < k implies key(#[trigger] shorter[i]) <= key(x) by {
                assert(shorter[i] == t[i]);
            }
            assert forall|i: int| k <= i < shorter.len() implies key(#[trigger] shorter[i]) > key(
                x,
            ) by {
                assert(shorter[i] == t[i]);
            }
        }
        lemma_inserted_at_split(shorter, x, key, k);
        assert(inserted(shorter, x, key).push(t.last()) =~= t.subrange(0, k).push(x) + t.subrange(
            k,
            t.len() as int,
        ));
    }
}

/// A sequence without duplicates that has the elements of `a`, ascending
/// keys, and the order of `a` among equal keys is the stable sort of `a`:
/// the three properties leave no choice.
pub proof fn lemma_stable_sort_unique(a: Seq<usize>, b: Seq<usize>, key: spec_fn(usize) -> int)
    requires
        a.no_duplicates(),
        a.to_multiset() == b.to_multiset(),
        ascending(b, key),
        keeps_order(a, b, key),
    ensures
        b == stable_sorted(a, key),
    decreases a.len(),
{
    a.to_multiset_ensures();
    b.to_multiset_ensures();
    if a.len() == 0 {
        assert(b =~= a);
        return ;
    }
    a.lemma_multiset_has_no_duplicates();
    b.lemma_multiset_has_no_duplicates_conv();
    let n = a.len() as int;
    let x = a.last();
    let shorter = a.drop_last();
    assert(a =~= shorter.push(x));
    assert(a.contains(x)) by {
        assert(a[n - 1] == x);
    }
    assert(a.to_multiset().count(x) > 0);
    assert(b.to_multiset().count(x) > 0);
    assert(b.contains(x));
    let at = choose|at: int| 0 <= at < b.len() && b[at] == x;
    let rest = b.remove(at);

    // the rest has the elements of the shorter sequence
    shorter.to_multiset_ensures();
    assert(rest.to_multiset() =~= shorter.to_multiset()) by {
        assert(a.to_multiset() =~= shorter.to_multiset().insert(x));
        assert(rest.to_multiset() =~= b.to_multiset().remove(x));
    }
    assert(shorter.no_duplicates()) by {
        assert forall|i: int, j: int|
            0 <= i < shorter.len() && 0 <= j < shorter.len() && i != j implies shorter[i]
            != shorter[j] by {
            assert(shorter[i] == a[i] && shorter[j] == a[j]);
        }
    }
    assert(ascending(rest, key)) by {
        assert forall|i: int, j: int| 0 <= i <= j < rest.len() implies key(#[trigger] rest[i])
            <= key(#[trigger] rest[j]) by {
            let bi = if i < at {
                i
            } else {
                i + 1
            };
            let bj = if j < at {
                j
            } else {
                j + 1
            };
            assert(rest[i] == b[bi] && rest[j] == b[bj]);
        }
    }
    assert(keeps_order(shorter, rest, key)) by {
        assert forall|p: int, q: int|
            0 <= p < q < shorter.len() && key(shorter[p]) == key(shorter[q])
            implies #[trigger] follows(rest, shorter[p], shorter[q]) by {
            assert(shorter[p] == a[p] && shorter[q] == a[q]);
            assert(follows(b, a[p], a[q]));
            let (i, j) = choose|i: int, j: int|
                0 <= i < j < b.len() && b[i] == a[p] && b[j] == a[q];
            assert(a[p] != a[n - 1] && a[q] != a[n - 1]);
            let ri = if i < at {
                i
            } else {
                i - 1
            };
            let rj = if j < at {
                j
            } else {
                j - 1
            };
            assert(rest[ri] == b[i] && rest[rj] == b[j]);
            assert(0 <= ri < rj < rest.len());
        }
    }
    lemma_stable_sort_unique(shorter, rest, key);

    // the last element stands at the split of the rest
    assert(splits_at(rest, x, key, at)) by {
        assert forall|i: int| 0 <= i < at implies key(#[trigger] rest[i]) <= key(x) by {
            assert(rest[i] == b[i]);
        }
        assert forall|i: int| at <= i < rest.len() implies key(#[trigger] rest[i]) > key(x) by {
            assert(rest[i] == b[i + 1]);
            assert(key(b[at]) <= key(b[i + 1]));
            if key(b[i + 1]) == key(x) {
                let v = b[i + 1];
                assert(b.contains(v));
                assert(b.to_multiset().count(v) > 0);
                assert(a.to_multiset().count(v) > 0);
                assert(a.contains(v));
                let p = choose|p: int| 0 <= p < a.len() && a[p] == v;
                assert(v != x);
                assert(p < n - 1);
                assert(follows(b, a[p], a[n - 1]));
                let (i2, j2) = choose|i2: int, j2: int|
                    0 <= i2 < j2 < b.len() && b[i2] == a[p] && b[j2] == a[n - 1];
                assert(j2 == at);
                assert(i2 == i + 1);
            }
        }
    }
    lemma_inserted_at_split(rest, x, key, at);
    assert(b =~= rest.subrange(0, at).push(x) + rest.subrange(at, rest.len() as int));
}

} // verus!
