//! Stable sorting of records by a list of text keys.
use vstd::prelude::*;
use crate::geometry::{PathOrder, flip};
use crate::tally::{lemma_text_lt_trans, lemma_text_order_flip, text_order};

verus! {

/// Key lists are compared key by key, each as text.
pub open spec fn keys_order(a: Seq<Seq<char>>, b: Seq<Seq<char>>) -> PathOrder
    decreases a.len(),
{
    if a.len() == 0 || b.len() == 0 {
        PathOrder::Equal
    } else if text_order(a[0], b[0]) != PathOrder::Equal {
        text_order(a[0], b[0])
    } else {
        keys_order(a.drop_first(), b.drop_first())
    }
}

pub proof fn lemma_keys_order_flip(a: Seq<Seq<char>>, b: Seq<Seq<char>>)
    ensures
        keys_order(b, a) == flip(keys_order(a, b)),
    decreases a.len(),
{
    if a.len() > 0 && b.len() > 0 {
        lemma_text_order_flip(a[0], b[0]);
        lemma_keys_order_flip(a.drop_first(), b.drop_first());
    }
}

pub proof fn lemma_keys_le_trans(a: Seq<Seq<char>>, b: Seq<Seq<char>>, c: Seq<Seq<char>>)
    requires
        keys_order(a, b) != PathOrder::Greater,
        keys_order(b, c) != PathOrder::Greater,
        a.len() == b.len(),
        b.len() == c.len(),
    ensures
        keys_order(a, c) != PathOrder::Greater,
    decreases a.len(),
{
    if a.len() > 0 {
        lemma_text_order_flip(a[0], b[0]);
        lemma_text_order_flip(b[0], c[0]);
        lemma_text_lt_trans(a[0], b[0], c[0]);
        if text_order(a[0], b[0]) == PathOrder::Equal && text_order(b[0], c[0])
            == PathOrder::Equal {
            lemma_keys_le_trans(a.drop_first(), b.drop_first(), c.drop_first());
        }
    }
}

/// `first`, unless it is `Equal`, then `second`.
pub open spec fn order_then(first: PathOrder, second: PathOrder) -> PathOrder {
    if first != PathOrder::Equal {
        first
    } else {
        second
    }
}

/// Three keys compared in turn.
pub proof fn lemma_keys_order3(a: Seq<Seq<char>>, b: Seq<Seq<char>>)
    requires
        a.len() == 3,
        b.len() == 3,
    ensures
        keys_order(a, b) == order_then(
            text_order(a[0], b[0]),
            order_then(text_order(a[1], b[1]), text_order(a[2], b[2])),
        ),
{
    reveal_with_fuel(keys_order, 4);
    let a1 = a.drop_first();
    let b1 = b.drop_first();
    let a2 = a1.drop_first();
    let b2 = b1.drop_first();
    assert(a1[0] == a[1] && b1[0] == b[1]);
    assert(a2[0] == a[2] && b2[0] == b[2]);
    assert(a2.drop_first().len() == 0);
    assert(keys_order(a2.drop_first(), b2.drop_first()) == PathOrder::Equal);
}

/// Four keys compared in turn.
pub proof fn lemma_keys_order4(a: Seq<Seq<char>>, b: Seq<Seq<char>>)
    requires
        a.len() == 4,
        b.len() == 4,
    ensures
        keys_order(a, b) == order_then(
            text_order(a[0], b[0]),
            order_then(
                text_order(a[1], b[1]),
                order_then(text_order(a[2], b[2]), text_order(a[3], b[3])),
            ),
        ),
{
    lemma_keys_order3(a.drop_first(), b.drop_first());
}

/// Records with a total preorder on their keys.
pub trait SortKeyed: Sized {
    /// How the key of `self` compares with that of `other`.
    spec fn key_rel(&self, other: &Self) -> PathOrder;

    proof fn lemma_key_rel_flip(a: Self, b: Self)
        ensures
            b.key_rel(&a) == flip(a.key_rel(&b)),
    ;

    proof fn lemma_key_le_trans(a: Self, b: Self, c: Self)
        requires
            a.key_rel(&b) != PathOrder::Greater,
            b.key_rel(&c) != PathOrder::Greater,
        ensures
            a.key_rel(&c) != PathOrder::Greater,
    ;

    fn compare_keys(&self, other: &Self) -> (o: PathOrder)
        ensures
            o == self.key_rel(other),
    ;
}

pub open spec fn key_gt<T: SortKeyed>(a: T, b: T) -> bool {
    a.key_rel(&b) == PathOrder::Greater
}

/// `s` with `x` placed after every element whose key is not greater than its.
pub open spec fn insert_sorted<T: SortKeyed>(s: Seq<T>, x: T) -> Seq<T>
    decreases s.len(),
{
    if s.len() > 0 && key_gt(s.last(), x) {
        insert_sorted(s.drop_last(), x).push(s.last())
    } else {
        s.push(x)
    }
}

/// `s` sorted by key, records with equal keys keeping their order.
pub open spec fn stable_sorted<T: SortKeyed>(s: Seq<T>) -> Seq<T>
    decreases s.len(),
{
    if s.len() == 0 {
        s
    } else {
        insert_sorted(stable_sorted(s.drop_last()), s.last())
    }
}

/// No record comes after one with a greater key.
pub open spec fn is_key_sorted<T: SortKeyed>(s: Seq<T>) -> bool {
    forall|i: int, j: int| 0 <= i < j < s.len() ==> !key_gt(#[trigger] s[i], #[trigger] s[j])
}

proof fn lemma_insert_sorted_shape<T: SortKeyed>(s: Seq<T>, x: T)
    ensures
        insert_sorted(s, x).len() == s.len() + 1,
        forall|i: int|
            0 <= i < s.len() + 1 ==> #[trigger] insert_sorted(s, x)[i] == x || exists|m: int|
                0 <= m < s.len() && insert_sorted(s, x)[i] == #[trigger] s[m],
    decreases s.len(),
{
    if s.len() > 0 && key_gt(s.last(), x) {
        let d = s.drop_last();
        lemma_insert_sorted_shape(d, x);
        let r = insert_sorted(d, x);
        assert forall|i: int| 0 <= i < s.len() + 1 implies #[trigger] insert_sorted(s, x)[i]
            == x || exists|m: int| 0 <= m < s.len() && insert_sorted(s, x)[i] == #[trigger] s[m] by {
            if i < r.len() {
                assert(insert_sorted(s, x)[i] == r[i]);
                if r[i] != x {
                    let m = choose|m: int| 0 <= m < d.len() && r[i] == #[trigger] d[m];
                    assert(d[m] == s[m]);
                }
            } else {
                assert(insert_sorted(s, x)[i] == s[s.len() - 1]);
            }
        }
    } else {
        assert forall|i: int| 0 <= i < s.len() + 1 implies #[trigger] insert_sorted(s, x)[i]
            == x || exists|m: int| 0 <= m < s.len() && insert_sorted(s, x)[i] == #[trigger] s[m] by {
            if i < s.len() {
                assert(insert_sorted(s, x)[i] == s[i]);
            }
        }
    }
}

/// Sorting keeps the records: as many as before, each one of the input's.
pub proof fn lemma_stable_sorted_members<T: SortKeyed>(s: Seq<T>)
    ensures
        stable_sorted(s).len() == s.len(),
        forall|i: int|
            #![trigger stable_sorted(s)[i]]
            0 <= i < s.len() ==> exists|m: int| 0 <= m < s.len() && stable_sorted(s)[i] == #[trigger] s[m],
    decreases s.len(),
{
    if s.len() > 0 {
        let d = s.drop_last();
        lemma_stable_sorted_members(d);
        let t = stable_sorted(d);
        lemma_insert_sorted_shape(t, s.last());
        assert forall|i: int| #![trigger stable_sorted(s)[i]] 0 <= i < s.len() implies exists|m: int|
            0 <= m < s.len() && stable_sorted(s)[i] == #[trigger] s[m] by {
            let r = insert_sorted(t, s.last());
            assert(stable_sorted(s) == r);
            if r[i] == s.last() {
                assert(r[i] == s[s.len() - 1]);
            } else {
                let m1 = choose|m1: int| 0 <= m1 < t.len() && r[i] == #[trigger] t[m1];
                assert(exists|m2: int| 0 <= m2 < d.len() && t[m1] == #[trigger] d[m2]);
                let m2 = choose|m2: int| 0 <= m2 < d.len() && t[m1] == #[trigger] d[m2];
                assert(d[m2] == s[m2]);
            }
        }
    }
}

proof fn lemma_insert_sorted_sorted<T: SortKeyed>(s: Seq<T>, x: T)
    requires
        is_key_sorted(s),
    ensures
        is_key_sorted(insert_sorted(s, x)),
    decreases s.len(),
{
    if s.len() > 0 && key_gt(s.last(), x) {
        let d = s.drop_last();
        let r = insert_sorted(d, x);
        assert(is_key_sorted(d));
        lemma_insert_sorted_sorted(d, x);
        lemma_insert_sorted_shape(d, x);
        let last = s.last();
        assert forall|i: int, j: int|
            0 <= i < j < r.push(last).len() implies !key_gt(
            #[trigger] r.push(last)[i],
            #[trigger] r.push(last)[j],
        ) by {
            if j == r.len() {
                let y = r[i];
                assert(r.push(last)[i] == y);
                if y == x {
                    T::lemma_key_rel_flip(last, x);
                } else {
                    assert(insert_sorted(d, x)[i] == y);
                    let m = choose|m: int| 0 <= m < d.len() && y == #[trigger] d[m];
                    assert(s[m] == y);
                    assert(!key_gt(s[m], s[s.len() - 1]));
                }
            } else {
                assert(r.push(last)[i] == r[i]);
                assert(r.push(last)[j] == r[j]);
            }
        }
    } else {
        assert forall|i: int, j: int|
            0 <= i < j < s.push(x).len() implies !key_gt(
            #[trigger] s.push(x)[i],
            #[trigger] s.push(x)[j],
        ) by {
            if j == s.len() {
                let y = s[i];
                if i < s.len() - 1 {
                    assert(!key_gt(s[i], s[s.len() - 1]));
                    T::lemma_key_le_trans(y, s.last(), x);
                }
            } else {
                assert(s.push(x)[i] == s[i]);
                assert(s.push(x)[j] == s[j]);
            }
        }
    }
}

/// A stably sorted sequence is sorted.
pub proof fn lemma_stable_sorted_is_sorted<T: SortKeyed>(s: Seq<T>)
    ensures
        is_key_sorted(stable_sorted(s)),
    decreases s.len(),
{
    if s.len() > 0 {
        lemma_stable_sorted_is_sorted(s.drop_last());
        lemma_insert_sorted_sorted(stable_sorted(s.drop_last()), s.last());
    }
}

proof fn lemma_insert_split<T: SortKeyed>(s: Seq<T>, x: T, p: int)
    requires
        0 <= p <= s.len(),
        forall|q: int| p <= q < s.len() ==> key_gt(#[trigger] s[q], x),
    ensures
        insert_sorted(s, x) == insert_sorted(s.take(p), x) + s.skip(p),
    decreases s.len() - p,
{
    if p == s.len() {
        assert(s.take(p) =~= s);
        assert(s.skip(p) =~= Seq::<T>::empty());
        assert(insert_sorted(s.take(p), x) + s.skip(p) =~= insert_sorted(s.take(p), x));
    } else {
        lemma_insert_split(s, x, p + 1);
        let t = s.take(p + 1);
        assert(t.drop_last() =~= s.take(p));
        assert(t.last() == s[p]);
        assert(insert_sorted(t, x) == insert_sorted(s.take(p), x).push(s[p]));
        assert(insert_sorted(s.take(p), x).push(s[p]) + s.skip(p + 1) =~= insert_sorted(
            s.take(p),
            x,
        ) + s.skip(p));
    }
}

/// Inserts `x` after every element whose key is not greater than its.
pub fn insert_by_key<T: SortKeyed>(out: &mut Vec<T>, x: T)
    ensures
        final(out)@ == insert_sorted(old(out)@, x),
{
    let ghost s = out@;
    let mut p = out.len();
    while p > 0
        invariant
            s == out@,
            p <= out@.len(),
            forall|q: int| p <= q < s.len() ==> key_gt(#[trigger] s[q], x),
        ensures
            p <= s.len(),
            forall|q: int| p <= q < s.len() ==> key_gt(#[trigger] s[q], x),
            p > 0 ==> !key_gt(s[p - 1], x),
        decreases p,
    {
        if out[p - 1].compare_keys(&x) != PathOrder::Greater {
            break;
        }
        p -= 1;
    }
    proof {
        lemma_insert_split(s, x, p as int);
        if p > 0 {
            let t = s.take(p as int);
            assert(t.last() == s[p - 1]);
            assert(insert_sorted(t, x) == t.push(x));
        } else {
            assert(s.take(0) =~= Seq::<T>::empty());
        }
        assert(s.take(p as int).push(x) + s.skip(p as int) =~= s.insert(p as int, x));
    }
    out.insert(p, x);
}

/// Sorts `v` by key, records with equal keys keeping their order.
pub fn stable_sort_by_key<T: SortKeyed>(v: Vec<T>) -> (r: Vec<T>)
    ensures
        r@ == stable_sorted(v@),
        is_key_sorted(r@),
{
    let ghost orig = v@;
    let n = v.len();
    assert(orig.len() == n);
    let mut rest = v;
    let mut out: Vec<T> = Vec::new();
    let mut i: usize = 0;
    assert(orig.take(0) =~= Seq::<T>::empty());
    assert(orig.skip(0) =~= orig);
    while rest.len() > 0
        invariant
            i <= orig.len() == n,
            rest@ == orig.skip(i as int),
            out@ == stable_sorted(orig.take(i as int)),
        decreases rest.len(),
    {
        let x = rest.remove(0);
        proof {
            assert(x == orig[i as int]);
            assert(orig.take(i + 1).drop_last() =~= orig.take(i as int));
            assert(rest@ =~= orig.skip(i + 1));
        }
        insert_by_key(&mut out, x);
        i += 1;
    }
    proof {
        assert(orig.take(i as int) =~= orig);
        lemma_stable_sorted_is_sorted(orig);
    }
    out
}

} // verus!
