//! Stable sorting by a strict weak order, and the facts that make a stable
//! sort unique.

use vstd::prelude::*;

verus! {

/// `lt` is a strict weak order: irreflexive, transitive, and its
/// incomparability is transitive too.
pub open spec fn is_strict_weak_order<T>(lt: spec_fn(T, T) -> bool) -> bool {
    &&& forall|a: T| !#[trigger] lt(a, a)
    &&& forall|a: T, b: T, c: T| #[trigger] lt(a, b) && #[trigger] lt(b, c) ==> lt(a, c)
    &&& forall|a: T, b: T, c: T|
        #![trigger lt(a, b), lt(b, c)]
        #![trigger lt(a, c), lt(a, b)]
        #![trigger lt(a, c), lt(b, c)]
        !lt(a, b) && !lt(b, c) ==> !lt(a, c)
}

/// Neither of `x` and `y` comes before the other.
pub open spec fn same_rank<T>(lt: spec_fn(T, T) -> bool, x: T, y: T) -> bool {
    !lt(x, y) && !lt(y, x)
}

/// The elements of `s` that rank the same as `x`, in their order in `s`.
pub open spec fn rank_class<T>(s: Seq<T>, lt: spec_fn(T, T) -> bool, x: T) -> Seq<T> {
    s.filter(|y: T| same_rank(lt, x, y))
}

/// No element of `s` comes before an element that precedes it.
pub open spec fn is_sorted_by<T>(s: Seq<T>, lt: spec_fn(T, T) -> bool) -> bool {
    forall|i: int, j: int| 0 <= i < j < s.len() ==> !lt(#[trigger] s[j], #[trigger] s[i])
}

/// `r` is `s` sorted by `lt`, with elements of the same rank kept in the
/// order they had in `s`.
pub open spec fn is_stable_sort_of<T>(r: Seq<T>, s: Seq<T>, lt: spec_fn(T, T) -> bool) -> bool {
    &&& is_sorted_by(r, lt)
    &&& forall|x: T| #[trigger] rank_class(r, lt, x) == rank_class(s, lt, x)
}

/// The stable merge of `a` and `b`, built from the back: on a tie the
/// element of `b` is placed last.
pub open spec fn merged<T>(a: Seq<T>, b: Seq<T>, lt: spec_fn(T, T) -> bool) -> Seq<T>
    decreases a.len() + b.len(),
{
    if a.len() == 0 {
        b
    } else if b.len() == 0 {
        a
    } else if lt(b.last(), a.last()) {
        merged(a.drop_last(), b, lt).push(a.last())
    } else {
        merged(a, b.drop_last(), lt).push(b.last())
    }
}

proof fn lemma_rank_class_push<T>(s: Seq<T>, lt: spec_fn(T, T) -> bool, y: T)
    ensures
        forall|x: T|
            #[trigger] rank_class(s.push(y), lt, x) == if same_rank(lt, x, y) {
                rank_class(s, lt, x).push(y)
            } else {
                rank_class(s, lt, x)
            },
{
    assert forall|x: T| #[trigger] rank_class(s.push(y), lt, x) == if same_rank(lt, x, y) {
        rank_class(s, lt, x).push(y)
    } else {
        rank_class(s, lt, x)
    } by {
        s.lemma_filter_push(y, |z: T| same_rank(lt, x, z));
    }
}

proof fn lemma_rank_class_empty<T>(s: Seq<T>, lt: spec_fn(T, T) -> bool, x: T)
    requires
        forall|i: int| 0 <= i < s.len() ==> !same_rank(lt, x, #[trigger] s[i]),
    ensures
        rank_class(s, lt, x) == Seq::<T>::empty(),
    decreases s.len(),
{
    if s.len() == 0 {
        reveal(Seq::filter);
    } else {
        let p = s.drop_last();
        assert forall|i: int| 0 <= i < p.len() implies !same_rank(lt, x, #[trigger] p[i]) by {
            assert(p[i] == s[i]);
        }
        lemma_rank_class_empty(p, lt, x);
        assert(s == p.push(s.last()));
        lemma_rank_class_push(p, lt, s.last());
    }
}

proof fn lemma_rank_class_add<T>(a: Seq<T>, b: Seq<T>, lt: spec_fn(T, T) -> bool)
    ensures
        forall|x: T| #[trigger] rank_class(a + b, lt, x) == rank_class(a, lt, x) + rank_class(b, lt, x),
{
    assert forall|x: T| #[trigger] rank_class(a + b, lt, x) == rank_class(a, lt, x) + rank_class(b, lt, x) by {
        Seq::filter_distributes_over_add(a, b, |y: T| same_rank(lt, x, y));
    }
}

proof fn lemma_merged_members<T>(a: Seq<T>, b: Seq<T>, lt: spec_fn(T, T) -> bool)
    ensures
        merged(a, b, lt).len() == a.len() + b.len(),
        forall|k: int|
            0 <= k < merged(a, b, lt).len() ==> a.contains(#[trigger] merged(a, b, lt)[k])
                || b.contains(merged(a, b, lt)[k]),
    decreases a.len() + b.len(),
{
    let m = merged(a, b, lt);
    if a.len() == 0 || b.len() == 0 {
    } else if lt(b.last(), a.last()) {
        let p = a.drop_last();
        lemma_merged_members(p, b, lt);
        assert forall|k: int| 0 <= k < m.len() implies a.contains(#[trigger] m[k]) || b.contains(m[k]) by {
            if k < m.len() - 1 {
                assert(m[k] == merged(p, b, lt)[k]);
                if p.contains(m[k]) {
                    let i = choose|i: int| 0 <= i < p.len() && p[i] == m[k];
                    assert(a[i] == m[k]);
                }
            } else {
                assert(a[a.len() - 1] == m[k]);
            }
        }
    } else {
        let p = b.drop_last();
        lemma_merged_members(a, p, lt);
        assert forall|k: int| 0 <= k < m.len() implies a.contains(#[trigger] m[k]) || b.contains(m[k]) by {
            if k < m.len() - 1 {
                assert(m[k] == merged(a, p, lt)[k]);
                if p.contains(m[k]) {
                    let i = choose|i: int| 0 <= i < p.len() && p[i] == m[k];
                    assert(b[i] == m[k]);
                }
            } else {
                assert(b[b.len() - 1] == m[k]);
            }
        }
    }
}

proof fn lemma_merged_sorted<T>(a: Seq<T>, b: Seq<T>, lt: spec_fn(T, T) -> bool)
    requires
        is_strict_weak_order(lt),
        is_sorted_by(a, lt),
        is_sorted_by(b, lt),
    ensures
        is_sorted_by(merged(a, b, lt), lt),
    decreases a.len() + b.len(),
{
    let m = merged(a, b, lt);
    if a.len() == 0 || b.len() == 0 {
    } else if lt(b.last(), a.last()) {
        let p = a.drop_last();
        let z = a.last();
        lemma_merged_sorted(p, b, lt);
        lemma_merged_members(p, b, lt);
        let mp = merged(p, b, lt);
        assert forall|i: int, j: int| 0 <= i < j < m.len() implies !lt(#[trigger] m[j], #[trigger] m[i]) by {
            assert(m[i] == mp[i]);
            if j < m.len() - 1 {
                assert(m[j] == mp[j]);
            } else {
                let y = mp[i];
                if p.contains(y) {
                    let k = choose|k: int| 0 <= k < p.len() && p[k] == y;
                    assert(a[k] == y);
                } else {
                    let k = choose|k: int| 0 <= k < b.len() && b[k] == y;
                    if k < b.len() - 1 {
                        assert(!lt(b[b.len() - 1], b[k]));
                    }
                    if lt(z, y) {
                        assert(lt(b.last(), z) && lt(z, y));
                    }
                }
            }
        }
    } else {
        let p = b.drop_last();
        let z = b.last();
        lemma_merged_sorted(a, p, lt);
        lemma_merged_members(a, p, lt);
        let mp = merged(a, p, lt);
        assert forall|i: int, j: int| 0 <= i < j < m.len() implies !lt(#[trigger] m[j], #[trigger] m[i]) by {
            assert(m[i] == mp[i]);
            if j < m.len() - 1 {
                assert(m[j] == mp[j]);
            } else {
                let y = mp[i];
                if p.contains(y) {
                    let k = choose|k: int| 0 <= k < p.len() && p[k] == y;
                    assert(b[k] == y);
                } else {
                    let k = choose|k: int| 0 <= k < a.len() && a[k] == y;
                    if k < a.len() - 1 {
                        assert(!lt(a[a.len() - 1], a[k]));
                    }
                    assert(!lt(z, a.last()));
                    assert(!lt(a.last(), y));
                }
            }
        }
    }
}

proof fn lemma_merged_classes<T>(a: Seq<T>, b: Seq<T>, lt: spec_fn(T, T) -> bool)
    requires
        is_strict_weak_order(lt),
        is_sorted_by(a, lt),
        is_sorted_by(b, lt),
    ensures
        forall|x: T| #[trigger] rank_class(merged(a, b, lt), lt, x) == rank_class(a, lt, x) + rank_class(b, lt, x),
    decreases a.len() + b.len(),
{
    let m = merged(a, b, lt);
    if a.len() == 0 {
        assert forall|x: T| #[trigger] rank_class(merged(a, b, lt), lt, x) == rank_class(a, lt, x) + rank_class(b, lt, x) by {
            lemma_rank_class_empty(a, lt, x);
            assert(rank_class(b, lt, x) =~= Seq::<T>::empty() + rank_class(b, lt, x));
        }
    } else if b.len() == 0 {
        assert forall|x: T| #[trigger] rank_class(merged(a, b, lt), lt, x) == rank_class(a, lt, x) + rank_class(b, lt, x) by {
            lemma_rank_class_empty(b, lt, x);
            assert(rank_class(a, lt, x) =~= rank_class(a, lt, x) + Seq::<T>::empty());
        }
    } else if lt(b.last(), a.last()) {
        let p = a.drop_last();
        let z = a.last();
        lemma_merged_classes(p, b, lt);
        assert(a == p.push(z));
        lemma_rank_class_push(p, lt, z);
        lemma_rank_class_push(merged(p, b, lt), lt, z);
        assert forall|x: T| #[trigger] rank_class(merged(a, b, lt), lt, x) == rank_class(a, lt, x) + rank_class(b, lt, x) by {
            if same_rank(lt, x, z) {
                assert forall|i: int| 0 <= i < b.len() implies !same_rank(lt, x, #[trigger] b[i]) by {
                    if i < b.len() - 1 {
                        assert(!lt(b[b.len() - 1], b[i]));
                    }
                    assert(lt(b[i], z));
                }
                lemma_rank_class_empty(b, lt, x);
                assert(rank_class(p, lt, x).push(z) + Seq::<T>::empty() =~= (rank_class(p, lt, x) + Seq::<T>::empty()).push(z));
            } else {
            }
        }
    } else {
        let p = b.drop_last();
        let z = b.last();
        lemma_merged_classes(a, p, lt);
        assert(b == p.push(z));
        lemma_rank_class_push(p, lt, z);
        lemma_rank_class_push(merged(a, p, lt), lt, z);
        assert forall|x: T| #[trigger] rank_class(merged(a, b, lt), lt, x) == rank_class(a, lt, x) + rank_class(b, lt, x) by {
            if same_rank(lt, x, z) {
                assert((rank_class(a, lt, x) + rank_class(p, lt, x)).push(z) =~= rank_class(a, lt, x) + rank_class(p, lt, x).push(z));
            }
        }
    }
}

/// Two lists that are both sorted by `lt` and hold the same elements of
/// every rank, in the same order, are equal.
pub proof fn lemma_stable_sort_unique<T>(r1: Seq<T>, r2: Seq<T>, lt: spec_fn(T, T) -> bool)
    requires
        is_strict_weak_order(lt),
        is_sorted_by(r1, lt),
        is_sorted_by(r2, lt),
        forall|x: T| #[trigger] rank_class(r1, lt, x) == rank_class(r2, lt, x),
    ensures
        r1 == r2,
    decreases r1.len() + r2.len(),
{
    if r1.len() == 0 && r2.len() == 0 {
        assert(r1 =~= r2);
    } else if r1.len() == 0 {
        let b = r2.last();
        lemma_rank_class_empty(r1, lt, b);
        assert(r2 == r2.drop_last().push(b));
        lemma_rank_class_push(r2.drop_last(), lt, b);
        assert(rank_class(r2, lt, b).len() > 0);
    } else if r2.len() == 0 {
        let a = r1.last();
        lemma_rank_class_empty(r2, lt, a);
        assert(r1 == r1.drop_last().push(a));
        lemma_rank_class_push(r1.drop_last(), lt, a);
        assert(rank_class(r1, lt, a).len() > 0);
    } else {
        let a = r1.last();
        let b = r2.last();
        let p1 = r1.drop_last();
        let p2 = r2.drop_last();
        assert(r1 == p1.push(a));
        assert(r2 == p2.push(b));
        lemma_rank_class_push(p1, lt, a);
        lemma_rank_class_push(p2, lt, b);
        // an element of r2 ranks with a, and an element of r1 ranks with b
        let ca = rank_class(r1, lt, a);
        assert(ca.last() == a);
        assert(rank_class(r2, lt, a).contains(a));
        r2.lemma_filter_contains_rev(|y: T| same_rank(lt, a, y), a);
        let k2 = choose|k: int| 0 <= k < r2.len() && r2[k] == a;
        let cb = rank_class(r2, lt, b);
        assert(cb.last() == b);
        assert(rank_class(r1, lt, b).contains(b));
        r1.lemma_filter_contains_rev(|y: T| same_rank(lt, b, y), b);
        let k1 = choose|k: int| 0 <= k < r1.len() && r1[k] == b;
        if k2 < r2.len() - 1 {
            assert(!lt(b, r2[k2]));
        }
        if k1 < r1.len() - 1 {
            assert(!lt(a, r1[k1]));
        }
        assert(same_rank(lt, a, b));
        assert(a == b);
        assert forall|x: T| #[trigger] rank_class(p1, lt, x) == rank_class(p2, lt, x) by {
            assert(rank_class(r1, lt, x) == rank_class(r2, lt, x));
            if same_rank(lt, x, a) {
                assert(rank_class(p1, lt, x) =~= rank_class(r1, lt, x).drop_last());
                assert(rank_class(p2, lt, x) =~= rank_class(r2, lt, x).drop_last());
            }
        }
        lemma_stable_sort_unique(p1, p2, lt);
    }
}

/// A stable sort has as many elements as the list it sorts.
pub proof fn lemma_stable_sort_len<T>(r: Seq<T>, s: Seq<T>, lt: spec_fn(T, T) -> bool)
    requires
        is_strict_weak_order(lt),
        is_stable_sort_of(r, s, lt),
    ensures
        r.len() == s.len(),
    decreases s.len(),
{
    assert(r.to_multiset() =~= s.to_multiset()) by {
        lemma_classes_to_multiset(r, s, lt);
    }
    r.to_multiset_ensures();
    s.to_multiset_ensures();
}

proof fn lemma_classes_to_multiset<T>(r: Seq<T>, s: Seq<T>, lt: spec_fn(T, T) -> bool)
    requires
        is_strict_weak_order(lt),
        forall|x: T| #[trigger] rank_class(r, lt, x) == rank_class(s, lt, x),
    ensures
        forall|x: T| r.to_multiset().count(x) == s.to_multiset().count(x),
{
    assert forall|x: T| r.to_multiset().count(x) == s.to_multiset().count(x) by {
        lemma_count_in_class(r, lt, x);
        lemma_count_in_class(s, lt, x);
        assert(rank_class(r, lt, x) == rank_class(s, lt, x));
    }
}

proof fn lemma_count_in_class<T>(s: Seq<T>, lt: spec_fn(T, T) -> bool, x: T)
    requires
        is_strict_weak_order(lt),
    ensures
        s.to_multiset().count(x) == rank_class(s, lt, x).to_multiset().count(x),
    decreases s.len(),
{
    broadcast use vstd::seq_lib::group_to_multiset_ensures;
    if s.len() == 0 {
        reveal(Seq::filter);
    } else {
        let p = s.drop_last();
        let y = s.last();
        lemma_count_in_class(p, lt, x);
        assert(s == p.push(y));
        lemma_rank_class_push(p, lt, y);
        assert(rank_class(s, lt, x) == if same_rank(lt, x, y) {
            rank_class(p, lt, x).push(y)
        } else {
            rank_class(p, lt, x)
        });
    }
}

/// Stable merge sort of `v` by the order `lt`, which `before` decides.
pub(crate) fn merge_sort<T, F: Fn(&T, &T) -> bool>(
    v: Vec<T>,
    before: &F,
    Ghost(lt): Ghost<spec_fn(T, T) -> bool>,
) -> (r: Vec<T>)
    requires
        is_strict_weak_order(lt),
        forall|a: &T, b: &T| #[trigger] before.requires((a, b)),
        forall|a: &T, b: &T, res: bool| #[trigger] before.ensures((a, b), res) ==> res == lt(*a, *b),
    ensures
        is_stable_sort_of(r@, v@, lt),
    decreases v@.len(),
{
    if v.len() <= 1 {
        return v;
    }
    let mut left = v;
    let ghost whole = left@;
    let mid = left.len() / 2;
    let right = left.split_off(mid);
    assert(whole =~= left@ + right@);
    let sorted_left = merge_sort(left, before, Ghost(lt));
    let sorted_right = merge_sort(right, before, Ghost(lt));
    let r = merge(sorted_left, sorted_right, before, Ghost(lt));
    proof {
        lemma_merged_sorted(sorted_left@, sorted_right@, lt);
        lemma_merged_classes(sorted_left@, sorted_right@, lt);
        lemma_rank_class_add(left@, right@, lt);
        assert forall|x: T| #[trigger] rank_class(r@, lt, x) == rank_class(whole, lt, x) by {
            assert(rank_class(sorted_left@, lt, x) == rank_class(left@, lt, x));
            assert(rank_class(sorted_right@, lt, x) == rank_class(right@, lt, x));
        }
    }
    r
}

fn merge<T, F: Fn(&T, &T) -> bool>(
    left: Vec<T>,
    right: Vec<T>,
    before: &F,
    Ghost(lt): Ghost<spec_fn(T, T) -> bool>,
) -> (r: Vec<T>)
    requires
        forall|a: &T, b: &T| #[trigger] before.requires((a, b)),
        forall|a: &T, b: &T, res: bool| #[trigger] before.ensures((a, b), res) ==> res == lt(*a, *b),
    ensures
        r@ == merged(left@, right@, lt),
{
    let mut a = left;
    let mut b = right;
    let mut rev: Vec<T> = Vec::new();
    let ghost mut tail: Seq<T> = Seq::empty();
    while a.len() > 0 || b.len() > 0
        invariant
            forall|x: &T, y: &T| #[trigger] before.requires((x, y)),
            forall|x: &T, y: &T, res: bool| #[trigger] before.ensures((x, y), res) ==> res == lt(*x, *y),
            merged(left@, right@, lt) == merged(a@, b@, lt) + tail,
            rev@.len() == tail.len(),
            forall|i: int| 0 <= i < rev@.len() ==> #[trigger] rev@[i] == tail[tail.len() - 1 - i],
        decreases a@.len() + b@.len(),
    {
        let take_a = if a.len() == 0 {
            false
        } else if b.len() == 0 {
            true
        } else {
            before(&b[b.len() - 1], &a[a.len() - 1])
        };
        let ghost m = merged(a@, b@, lt);
        if take_a {
            let x = a.pop().unwrap();
            proof {
                assert(m == merged(a@, b@, lt).push(x));
                assert(merged(a@, b@, lt) + seq![x] + tail =~= merged(a@, b@, lt) + (seq![x] + tail));
                assert(m + tail =~= merged(a@, b@, lt) + seq![x] + tail);
                tail = seq![x] + tail;
            }
            rev.push(x);
        } else {
            let x = b.pop().unwrap();
            proof {
                if a@.len() == 0 {
                    assert(m == b@.push(x));
                } else {
                    assert(m == merged(a@, b@, lt).push(x));
                }
                assert(m + tail =~= merged(a@, b@, lt) + (seq![x] + tail));
                tail = seq![x] + tail;
            }
            rev.push(x);
        }
    }
    assert(merged(a@, b@, lt) =~= Seq::<T>::empty());
    assert(tail =~= merged(left@, right@, lt));
    let mut out: Vec<T> = Vec::new();
    while rev.len() > 0
        invariant
            out@.len() + rev@.len() == tail.len(),
            forall|i: int| 0 <= i < out@.len() ==> #[trigger] out@[i] == tail[i],
            forall|i: int| 0 <= i < rev@.len() ==> #[trigger] rev@[i] == tail[tail.len() - 1 - i],
        decreases rev@.len(),
    {
        let x = rev.pop().unwrap();
        out.push(x);
    }
    assert(out@ =~= tail);
    out
}

} // verus!
