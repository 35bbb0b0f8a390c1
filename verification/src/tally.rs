//! Counted geometry signatures, kept in key order, and the comparison of an
//! expected tally with the one read back from a file.
use vstd::prelude::*;
use crate::geometry::PathOrder;

verus! {

/// Strings are ordered character by character (Unicode scalar values, which
/// is the byte order of their UTF-8); a proper prefix comes first.
pub open spec fn text_order(a: Seq<char>, b: Seq<char>) -> PathOrder
    decreases a.len(),
{
    if a.len() == 0 || b.len() == 0 {
        if a.len() < b.len() {
            PathOrder::Less
        } else if a.len() > b.len() {
            PathOrder::Greater
        } else {
            PathOrder::Equal
        }
    } else if a[0] < b[0] {
        PathOrder::Less
    } else if a[0] > b[0] {
        PathOrder::Greater
    } else {
        text_order(a.drop_first(), b.drop_first())
    }
}

/// A tally key: a geometry kind and its signature.
pub type Key = (Seq<char>, Seq<char>);

/// Keys are ordered by kind, then by signature.
pub open spec fn key_order(a: Key, b: Key) -> PathOrder {
    if text_order(a.0, b.0) != PathOrder::Equal {
        text_order(a.0, b.0)
    } else {
        text_order(a.1, b.1)
    }
}

pub open spec fn key_lt(a: Key, b: Key) -> bool {
    key_order(a, b) == PathOrder::Less
}

pub proof fn lemma_text_order_flip(a: Seq<char>, b: Seq<char>)
    ensures
        text_order(b, a) == crate::geometry::flip(text_order(a, b)),
        text_order(a, b) == PathOrder::Equal ==> a == b,
    decreases a.len(),
{
    if a.len() > 0 && b.len() > 0 {
        lemma_text_order_flip(a.drop_first(), b.drop_first());
        if text_order(a, b) == PathOrder::Equal {
            assert(a =~= seq![a[0]] + a.drop_first());
            assert(b =~= seq![b[0]] + b.drop_first());
        }
    }
}

pub proof fn lemma_text_lt_trans(a: Seq<char>, b: Seq<char>, c: Seq<char>)
    requires
        text_order(a, b) != PathOrder::Greater,
        text_order(b, c) != PathOrder::Greater,
    ensures
        text_order(a, c) != PathOrder::Greater,
        text_order(a, b) == PathOrder::Less || text_order(b, c) == PathOrder::Less ==> text_order(
            a,
            c,
        ) == PathOrder::Less,
    decreases a.len(),
{
    lemma_text_order_flip(a, b);
    lemma_text_order_flip(b, c);
    if a.len() > 0 && b.len() > 0 && c.len() > 0 {
        if a[0] == b[0] && b[0] == c[0] {
            lemma_text_lt_trans(a.drop_first(), b.drop_first(), c.drop_first());
        }
    }
}

pub proof fn lemma_key_lt_trans(a: Key, b: Key, c: Key)
    requires
        key_lt(a, b),
        key_lt(b, c),
    ensures
        key_lt(a, c),
{
    lemma_text_order_flip(a.0, b.0);
    lemma_text_order_flip(b.0, c.0);
    lemma_text_order_flip(a.1, b.1);
    lemma_text_order_flip(b.1, c.1);
    if text_order(a.0, b.0) == PathOrder::Equal && text_order(b.0, c.0) == PathOrder::Equal {
        lemma_text_lt_trans(a.1, b.1, c.1);
    } else {
        lemma_text_lt_trans(a.0, b.0, c.0);
        lemma_text_order_flip(a.0, c.0);
    }
}

pub proof fn lemma_key_lt_irreflexive(a: Key)
    ensures
        !key_lt(a, a),
{
    lemma_text_order_flip(a.0, a.0);
    lemma_text_order_flip(a.1, a.1);
}

/// The order of two keys compared both ways round.
pub proof fn lemma_key_order_flip(a: Key, b: Key)
    ensures
        key_order(b, a) == crate::geometry::flip(key_order(a, b)),
        key_order(a, b) == PathOrder::Equal ==> a == b,
{
    lemma_text_order_flip(a.0, b.0);
    lemma_text_order_flip(a.1, b.1);
}

/// One counted signature.
#[derive(Debug, Clone, PartialEq, Eq)]
pub struct GeometryEntry {
    pub kind: Vec<char>,
    pub geometry: Vec<char>,
    pub count: usize,
}

pub open spec fn entry_key(e: GeometryEntry) -> Key {
    (e.kind@, e.geometry@)
}

/// How many times `k` is counted in `s`.
pub open spec fn count_of(s: Seq<GeometryEntry>, k: Key) -> nat
    decreases s.len(),
{
    if s.len() == 0 {
        0
    } else {
        count_of(s.drop_last(), k) + if entry_key(s.last()) == k {
            s.last().count as nat
        } else {
            0
        }
    }
}

/// The sum of all counts of `s`.
pub open spec fn total_of(s: Seq<GeometryEntry>) -> nat
    decreases s.len(),
{
    if s.len() == 0 {
        0
    } else {
        total_of(s.drop_last()) + s.last().count as nat
    }
}

/// Entries in strictly increasing key order, none with a zero count.
pub open spec fn sorted_entries(s: Seq<GeometryEntry>) -> bool {
    &&& forall|i: int, j: int|
        0 <= i < j < s.len() ==> key_lt(entry_key(#[trigger] s[i]), entry_key(#[trigger] s[j]))
    &&& forall|i: int| 0 <= i < s.len() ==> #[trigger] s[i].count > 0
}

pub proof fn lemma_count_absent(s: Seq<GeometryEntry>, k: Key)
    requires
        forall|i: int| 0 <= i < s.len() ==> entry_key(#[trigger] s[i]) != k,
    ensures
        count_of(s, k) == 0,
    decreases s.len(),
{
    if s.len() > 0 {
        lemma_count_absent(s.drop_last(), k);
    }
}

pub proof fn lemma_count_concat(a: Seq<GeometryEntry>, b: Seq<GeometryEntry>, k: Key)
    ensures
        count_of(a + b, k) == count_of(a, k) + count_of(b, k),
        total_of(a + b) == total_of(a) + total_of(b),
    decreases b.len(),
{
    if b.len() == 0 {
        assert(a + b =~= a);
    } else {
        lemma_count_concat(a, b.drop_last(), k);
        assert((a + b).drop_last() =~= a + b.drop_last());
    }
}

pub proof fn lemma_count_single(e: GeometryEntry, k: Key)
    ensures
        count_of(seq![e], k) == if entry_key(e) == k {
            e.count as nat
        } else {
            0nat
        },
        total_of(seq![e]) == e.count as nat,
{
    assert(seq![e].drop_last() =~= Seq::<GeometryEntry>::empty());
    reveal_with_fuel(count_of, 2);
    reveal_with_fuel(total_of, 2);
}

/// Counting over `s` split round index `i`.
pub proof fn lemma_count_split(s: Seq<GeometryEntry>, i: int, k: Key)
    requires
        0 <= i < s.len(),
    ensures
        count_of(s, k) == count_of(s.take(i), k) + count_of(seq![s[i]], k) + count_of(
            s.skip(i + 1),
            k,
        ),
        total_of(s) == total_of(s.take(i)) + s[i].count + total_of(s.skip(i + 1)),
{
    assert(s =~= s.take(i) + seq![s[i]] + s.skip(i + 1));
    lemma_count_concat(s.take(i) + seq![s[i]], s.skip(i + 1), k);
    lemma_count_concat(s.take(i), seq![s[i]], k);
    lemma_count_single(s[i], k);
}

/// In a sorted tally, the count of the key at index `i` is that entry's.
pub proof fn lemma_count_at(s: Seq<GeometryEntry>, i: int)
    requires
        sorted_entries(s),
        0 <= i < s.len(),
    ensures
        count_of(s, entry_key(s[i])) == s[i].count,
{
    let k = entry_key(s[i]);
    lemma_key_lt_irreflexive(k);
    assert forall|j: int| 0 <= j < s.take(i).len() implies entry_key(#[trigger] s.take(i)[j]) != k by {
        assert(key_lt(entry_key(s[j]), k));
    }
    assert forall|j: int| 0 <= j < s.skip(i + 1).len() implies entry_key(
        #[trigger] s.skip(i + 1)[j],
    ) != k by {
        assert(s.skip(i + 1)[j] == s[i + 1 + j]);
        assert(key_lt(k, entry_key(s[i + 1 + j])));
    }
    lemma_count_absent(s.take(i), k);
    lemma_count_absent(s.skip(i + 1), k);
    lemma_count_split(s, i, k);
    lemma_count_single(s[i], k);
}

/// Signatures counted by kind and signature, in key order.
pub struct GeometryTally {
    pub entries: Vec<GeometryEntry>,
}

impl GeometryTally {
    pub open spec fn wf(&self) -> bool {
        sorted_entries(self.entries@)
    }

    pub open spec fn count(&self, k: Key) -> nat {
        count_of(self.entries@, k)
    }

    pub open spec fn total(&self) -> nat {
        total_of(self.entries@)
    }

    /// An empty tally.
    pub fn new() -> (t: GeometryTally)
        ensures
            t.wf(),
            t.total() == 0,
            forall|k: Key| #[trigger] t.count(k) == 0,
    {
        GeometryTally { entries: Vec::new() }
    }

    /// How many times `(kind, geometry)` is counted.
    pub fn get(&self, kind: &[char], geometry: &[char]) -> (n: usize)
        requires
            self.wf(),
        ensures
            n == self.count((kind@, geometry@)),
    {
        let ghost k = (kind@, geometry@);
        let mut i: usize = 0;
        while i < self.entries.len()
            invariant
                self.wf(),
                k == (kind@, geometry@),
                i <= self.entries@.len(),
                forall|j: int| 0 <= j < i ==> entry_key(#[trigger] self.entries@[j]) != k,
            decreases self.entries.len() - i,
        {
            let e = &self.entries[i];
            let same_kind = crate::text::chars_eq(&e.kind, kind);
            let same_geometry = crate::text::chars_eq(&e.geometry, geometry);
            if same_kind && same_geometry {
                proof {
                    lemma_count_at(self.entries@, i as int);
                }
                return e.count;
            }
            assert(same_kind == (e.kind@ == kind@));
            assert(same_geometry == (e.geometry@ == geometry@));
            assert(*e == self.entries@[i as int]);
            assert(entry_key(self.entries@[i as int]) != k);
            i += 1;
        }
        proof {
            lemma_count_absent(self.entries@, k);
        }
        0
    }

    /// Counts one more `(kind, geometry)`.
    #[verifier::rlimit(40)]
    pub fn add(&mut self, kind: &[char], geometry: &[char])
        requires
            old(self).wf(),
            old(self).total() < usize::MAX,
        ensures
            final(self).wf(),
            final(self).total() == old(self).total() + 1,
            forall|k: Key| #[trigger]
                final(self).count(k) == old(self).count(k) + if k == (kind@, geometry@) {
                    1nat
                } else {
                    0nat
                },
    {
        let ghost key = (kind@, geometry@);
        let ghost s = self.entries@;
        let n = self.entries.len();
        let mut i: usize = 0;
        let mut found = false;
        while i < n
            invariant_except_break
                !found,
            invariant
                n == self.entries@.len(),
                s == self.entries@,
                key == (kind@, geometry@),
                sorted_entries(s),
                i <= n,
                forall|j: int| 0 <= j < i ==> key_lt(entry_key(#[trigger] s[j]), key),
            ensures
                i <= n,
                forall|j: int| 0 <= j < i ==> key_lt(entry_key(#[trigger] s[j]), key),
                found ==> i < n && key_order(entry_key(s[i as int]), key) == PathOrder::Equal,
                !found && i < n ==> key_order(entry_key(s[i as int]), key) == PathOrder::Greater,
            decreases n - i,
        {
            let o = compare_key(&self.entries[i], kind, geometry);
            if o == PathOrder::Equal {
                found = true;
                break;
            }
            if o == PathOrder::Greater {
                break;
            }
            i += 1;
        }
        if found {
            proof {
                lemma_key_order_flip(entry_key(s[i as int]), key);
                lemma_count_at(s, i as int);
                lemma_total_bound(s, i as int);
            }
            let old_count = self.entries[i].count;
            let e = GeometryEntry {
                kind: crate::text::copy_range(kind, 0, kind.len()),
                geometry: crate::text::copy_range(geometry, 0, geometry.len()),
                count: old_count + 1,
            };
            assert(e.kind@ =~= kind@);
            assert(e.geometry@ =~= geometry@);
            self.entries.set(i, e);
            proof {
                let t = self.entries@;
                assert(s =~= s.take(i as int) + seq![s[i as int]] + s.skip(i + 1));
                assert(t =~= s.take(i as int) + seq![e] + s.skip(i + 1));
                assert(t.take(i as int) =~= s.take(i as int));
                assert(t.skip(i + 1) =~= s.skip(i + 1));
                assert(entry_key(s[i as int]) == key);
                assert forall|k: Key| #[trigger] count_of(t, k) == count_of(s, k) + if k == key {
                    1nat
                } else {
                    0nat
                } by {
                    lemma_count_split(s, i as int, k);
                    lemma_count_split(t, i as int, k);
                    lemma_count_single(s[i as int], k);
                    lemma_count_single(e, k);
                }
                lemma_count_split(s, i as int, key);
                lemma_count_split(t, i as int, key);
                assert forall|a: int, b: int| 0 <= a < b < t.len() implies key_lt(
                    entry_key(#[trigger] t[a]),
                    entry_key(#[trigger] t[b]),
                ) by {
                    assert(entry_key(t[a]) == entry_key(s[a]));
                    assert(entry_key(t[b]) == entry_key(s[b]));
                }
            }
        } else {
            let e = GeometryEntry {
                kind: crate::text::copy_range(kind, 0, kind.len()),
                geometry: crate::text::copy_range(geometry, 0, geometry.len()),
                count: 1,
            };
            assert(e.kind@ =~= kind@);
            assert(e.geometry@ =~= geometry@);
            proof {
                if i < n {
                    lemma_key_order_flip(entry_key(s[i as int]), key);
                }
            }
            self.entries.insert(i, e);
            proof {
                let t = self.entries@;
                assert(s =~= s.take(i as int) + s.skip(i as int));
                assert(t =~= s.take(i as int) + seq![e] + s.skip(i as int));
                assert forall|a: int, b: int| 0 <= a < b < t.len() implies key_lt(
                    entry_key(#[trigger] t[a]),
                    entry_key(#[trigger] t[b]),
                ) by {
                    if b < i {
                    } else if a > i {
                        assert(t[a] == s[a - 1] && t[b] == s[b - 1]);
                    } else if a == i {
                        assert(t[b] == s[b - 1]);
                        if b - 1 > i {
                            lemma_key_lt_trans(key, entry_key(s[i as int]), entry_key(s[b - 1]));
                        }
                    } else if b == i {
                    } else {
                        assert(t[b] == s[b - 1]);
                        if b - 1 > a {
                        } else {
                            assert(b - 1 == a || b - 1 > a);
                        }
                    }
                }
                assert(t.take(i as int) =~= s.take(i as int));
                assert(t.skip(i + 1) =~= s.skip(i as int));
                assert forall|k: Key| #[trigger] count_of(t, k) == count_of(s, k) + if k == key {
                    1nat
                } else {
                    0nat
                } by {
                    lemma_count_concat(s.take(i as int), s.skip(i as int), k);
                    lemma_count_split(t, i as int, k);
                    lemma_count_single(e, k);
                }
                lemma_count_concat(s.take(i as int), s.skip(i as int), key);
                lemma_count_split(t, i as int, key);
            }
        }
    }
}

proof fn lemma_total_bound(s: Seq<GeometryEntry>, i: int)
    requires
        0 <= i < s.len(),
    ensures
        s[i].count <= total_of(s),
{
    lemma_count_split(s, i, (Seq::empty(), Seq::empty()));
}

/// Compares the key of `e` with `(kind, geometry)`.
fn compare_key(e: &GeometryEntry, kind: &[char], geometry: &[char]) -> (o: PathOrder)
    ensures
        o == key_order(entry_key(*e), (kind@, geometry@)),
{
    let o = compare_text(&e.kind, kind);
    if o != PathOrder::Equal {
        o
    } else {
        compare_text(&e.geometry, geometry)
    }
}

proof fn lemma_text_order_tail(a: Seq<char>, b: Seq<char>, i: usize, j: usize)
    requires
        i < a.len(),
        i < b.len(),
        j == i + 1,
        a[i as int] == b[i as int],
    ensures
        text_order(a.skip(i as int), b.skip(i as int)) == text_order(
            a.skip(j as int),
            b.skip(j as int),
        ),
{
    assert(a.skip(i as int).drop_first() =~= a.skip(j as int));
    assert(b.skip(i as int).drop_first() =~= b.skip(j as int));
}

/// Compares two strings character by character.
pub fn compare_text(a: &[char], b: &[char]) -> (o: PathOrder)
    ensures
        o == text_order(a@, b@),
{
    let mut i: usize = 0;
    assert(a@.skip(0) =~= a@);
    assert(b@.skip(0) =~= b@);
    while i < a.len() && i < b.len()
        invariant
            i <= a.len(),
            i <= b.len(),
            text_order(a@, b@) == text_order(a@.skip(i as int), b@.skip(i as int)),
        decreases a.len() - i,
    {
        if a[i] < b[i] {
            return PathOrder::Less;
        }
        if a[i] > b[i] {
            return PathOrder::Greater;
        }
        let j: usize = i + 1;
        proof {
            lemma_text_order_tail(a@, b@, i, j);
        }
        i = j;
    }
    if a.len() < b.len() {
        PathOrder::Less
    } else if a.len() > b.len() {
        PathOrder::Greater
    } else {
        PathOrder::Equal
    }
}


pub open spec fn min_nat(a: nat, b: nat) -> nat {
    if a <= b {
        a
    } else {
        b
    }
}

/// What comparing an expected tally with an actual one gives: per key, the
/// instances found in both, those only expected, and those only found.
pub struct EntryComparison {
    pub matched_count: usize,
    pub missing_count: usize,
    pub extra_count: usize,
    pub matched: Vec<GeometryEntry>,
    pub missing: Vec<GeometryEntry>,
    pub extra: Vec<GeometryEntry>,
}

proof fn lemma_count_take_step(s: Seq<GeometryEntry>, i: int, k: Key)
    requires
        0 <= i < s.len(),
    ensures
        count_of(s.take(i + 1), k) == count_of(s.take(i), k) + if entry_key(s[i]) == k {
            s[i].count as nat
        } else {
            0nat
        },
        total_of(s.take(i + 1)) == total_of(s.take(i)) + s[i].count,
{
    assert(s.take(i + 1).drop_last() =~= s.take(i));
}

proof fn lemma_count_push(s: Seq<GeometryEntry>, e: GeometryEntry, k: Key)
    ensures
        count_of(s.push(e), k) == count_of(s, k) + if entry_key(e) == k {
            e.count as nat
        } else {
            0nat
        },
        total_of(s.push(e)) == total_of(s) + e.count,
{
    assert(s.push(e).drop_last() =~= s);
}

proof fn lemma_prefix_lacks(s: Seq<GeometryEntry>, i: int, k: Key)
    requires
        sorted_entries(s),
        0 <= i <= s.len(),
        forall|q: int| 0 <= q < i ==> key_lt(entry_key(#[trigger] s[q]), k),
    ensures
        count_of(s.take(i), k) == 0,
{
    assert forall|q: int| 0 <= q < s.take(i).len() implies entry_key(#[trigger] s.take(i)[q]) != k by {
        lemma_key_lt_irreflexive(k);
        assert(key_lt(entry_key(s[q]), k));
    }
    lemma_count_absent(s.take(i), k);
}

fn copy_entry(e: &GeometryEntry, count: usize) -> (r: GeometryEntry)
    ensures
        entry_key(r) == entry_key(*e),
        r.count == count,
{
    let r = GeometryEntry {
        kind: crate::text::copy_range(&e.kind, 0, e.kind.len()),
        geometry: crate::text::copy_range(&e.geometry, 0, e.geometry.len()),
        count,
    };
    assert(r.kind@ =~= e.kind@);
    assert(r.geometry@ =~= e.geometry@);
    r
}

/// Compares an expected tally with one read back: for each key, the
/// instances present in both are matched, the rest of the expected ones are
/// missing and the rest of the found ones are extra; each list is in key
/// order and each count is the sum of its list.
pub fn compare_entry_views(expected: &GeometryTally, actual: &GeometryTally) -> (r:
    EntryComparison)
    requires
        expected.wf(),
        actual.wf(),
        expected.total() <= usize::MAX,
        actual.total() <= usize::MAX,
    ensures
        sorted_entries(r.matched@),
        sorted_entries(r.missing@),
        sorted_entries(r.extra@),
        forall|k: Key| #[trigger]
            count_of(r.matched@, k) == min_nat(expected.count(k), actual.count(k)),
        forall|k: Key| #[trigger]
            count_of(r.missing@, k) == expected.count(k) - min_nat(
                expected.count(k),
                actual.count(k),
            ),
        forall|k: Key| #[trigger]
            count_of(r.extra@, k) == actual.count(k) - min_nat(expected.count(k), actual.count(k)),
        r.matched_count == total_of(r.matched@),
        r.missing_count == total_of(r.missing@),
        r.extra_count == total_of(r.extra@),
        r.matched_count + r.missing_count == expected.total(),
        r.matched_count + r.extra_count == actual.total(),
{
    let ghost e = expected.entries@;
    let ghost a = actual.entries@;
    let n = expected.entries.len();
    let m = actual.entries.len();
    let mut i: usize = 0;
    let mut j: usize = 0;
    let mut matched: Vec<GeometryEntry> = Vec::new();
    let mut missing: Vec<GeometryEntry> = Vec::new();
    let mut extra: Vec<GeometryEntry> = Vec::new();
    let mut matched_count: usize = 0;
    let mut missing_count: usize = 0;
    let mut extra_count: usize = 0;
    assert(e.take(0) =~= Seq::<GeometryEntry>::empty());
    assert(a.take(0) =~= Seq::<GeometryEntry>::empty());
    while i < n || j < m
        invariant
            e == expected.entries@,
            a == actual.entries@,
            n == e.len(),
            m == a.len(),
            sorted_entries(e),
            sorted_entries(a),
            total_of(e) <= usize::MAX,
            total_of(a) <= usize::MAX,
            i <= n,
            j <= m,
            forall|p: int, q: int|
                0 <= p < i && j <= q < m ==> key_lt(entry_key(#[trigger] e[p]), entry_key(
                    #[trigger] a[q],
                )),
            forall|p: int, q: int|
                0 <= q < j && i <= p < n ==> key_lt(entry_key(#[trigger] a[q]), entry_key(
                    #[trigger] e[p],
                )),
            sorted_entries(matched@),
            sorted_entries(missing@),
            sorted_entries(extra@),
            forall|o: int|
                0 <= o < matched@.len() ==> (i < n ==> key_lt(
                    entry_key(#[trigger] matched@[o]),
                    entry_key(e[i as int]),
                )) && (j < m ==> key_lt(entry_key(matched@[o]), entry_key(a[j as int]))),
            forall|o: int|
                0 <= o < missing@.len() ==> (i < n ==> key_lt(
                    entry_key(#[trigger] missing@[o]),
                    entry_key(e[i as int]),
                )) && (j < m ==> key_lt(entry_key(missing@[o]), entry_key(a[j as int]))),
            forall|o: int|
                0 <= o < extra@.len() ==> (i < n ==> key_lt(
                    entry_key(#[trigger] extra@[o]),
                    entry_key(e[i as int]),
                )) && (j < m ==> key_lt(entry_key(extra@[o]), entry_key(a[j as int]))),
            forall|k: Key| #[trigger]
                count_of(matched@, k) == min_nat(
                    count_of(e.take(i as int), k),
                    count_of(a.take(j as int), k),
                ),
            forall|k: Key| #[trigger]
                count_of(missing@, k) == count_of(e.take(i as int), k) - min_nat(
                    count_of(e.take(i as int), k),
                    count_of(a.take(j as int), k),
                ),
            forall|k: Key| #[trigger]
                count_of(extra@, k) == count_of(a.take(j as int), k) - min_nat(
                    count_of(e.take(i as int), k),
                    count_of(a.take(j as int), k),
                ),
            matched_count == total_of(matched@),
            missing_count == total_of(missing@),
            extra_count == total_of(extra@),
            matched_count + missing_count == total_of(e.take(i as int)),
            matched_count + extra_count == total_of(a.take(j as int)),
        decreases n - i + m - j,
    {
        let ghost em = matched@;
        let ghost ei = missing@;
        let ghost ex = extra@;
        let o = if i < n && j < m {
            compare_key(&expected.entries[i], &actual.entries[j].kind, &actual.entries[j].geometry)
        } else if i < n {
            PathOrder::Less
        } else {
            PathOrder::Greater
        };
        if o == PathOrder::Less {
            let ghost k = entry_key(e[i as int]);
            proof {
                lemma_count_take_step(e, i as int, k);
                lemma_prefix_lacks(e, i as int, k);
                lemma_total_bound_prefix(e, i as int + 1);
                assert forall|q: int| 0 <= q < j implies key_lt(entry_key(#[trigger] a[q]), k) by {}
                lemma_prefix_lacks(a, j as int, k);
            }
            let x = copy_entry(&expected.entries[i], expected.entries[i].count);
            missing_count = missing_count + expected.entries[i].count;
            missing.push(x);
            proof {
                assert forall|kk: Key| #[trigger] count_of(missing@, kk) == count_of(
                    e.take(i + 1),
                    kk,
                ) - min_nat(count_of(e.take(i + 1), kk), count_of(a.take(j as int), kk)) by {
                    lemma_count_push(ei, x, kk);
                    lemma_count_take_step(e, i as int, kk);
                }
                assert forall|kk: Key| #[trigger] count_of(matched@, kk) == min_nat(
                    count_of(e.take(i + 1), kk),
                    count_of(a.take(j as int), kk),
                ) by {
                    lemma_count_take_step(e, i as int, kk);
                }
                assert forall|kk: Key| #[trigger] count_of(extra@, kk) == count_of(
                    a.take(j as int),
                    kk,
                ) - min_nat(count_of(e.take(i + 1), kk), count_of(a.take(j as int), kk)) by {
                    lemma_count_take_step(e, i as int, kk);
                }
                lemma_count_push(ei, x, k);
                assert forall|p: int, q: int| 0 <= p < i + 1 && j <= q < m implies key_lt(
                    entry_key(#[trigger] e[p]),
                    entry_key(#[trigger] a[q]),
                ) by {
                    if p == i && q > j {
                        lemma_key_lt_trans(entry_key(e[p]), entry_key(a[j as int]), entry_key(a[q]));
                    }
                }
                assert forall|o: int|
                    0 <= o < missing@.len() implies (i + 1 < n ==> key_lt(
                    entry_key(#[trigger] missing@[o]),
                    entry_key(e[i + 1]),
                )) && (j < m ==> key_lt(entry_key(missing@[o]), entry_key(a[j as int]))) by {
                    if o < ei.len() && i + 1 < n {
                        lemma_key_lt_trans(entry_key(missing@[o]), k, entry_key(e[i + 1]));
                    }
                }
                assert forall|o: int|
                    0 <= o < matched@.len() implies (i + 1 < n ==> key_lt(
                    entry_key(#[trigger] matched@[o]),
                    entry_key(e[i + 1]),
                )) by {
                    if i + 1 < n {
                        lemma_key_lt_trans(entry_key(matched@[o]), k, entry_key(e[i + 1]));
                    }
                }
                assert forall|o: int|
                    0 <= o < extra@.len() implies (i + 1 < n ==> key_lt(
                    entry_key(#[trigger] extra@[o]),
                    entry_key(e[i + 1]),
                )) by {
                    if i + 1 < n {
                        lemma_key_lt_trans(entry_key(extra@[o]), k, entry_key(e[i + 1]));
                    }
                }
                assert forall|p: int, q: int|
                    0 <= p < missing@.len() && p < q < missing@.len() implies key_lt(
                    entry_key(#[trigger] missing@[p]),
                    entry_key(#[trigger] missing@[q]),
                ) by {}
            }
            i += 1;
        } else if o == PathOrder::Greater {
            let ghost k = entry_key(a[j as int]);
            proof {
                if i < n {
                    lemma_key_order_flip(entry_key(e[i as int]), k);
                }
                lemma_count_take_step(a, j as int, k);
                lemma_prefix_lacks(a, j as int, k);
                lemma_total_bound_prefix(a, j as int + 1);
                assert forall|p: int| 0 <= p < i implies key_lt(entry_key(#[trigger] e[p]), k) by {}
                lemma_prefix_lacks(e, i as int, k);
            }
            let x = copy_entry(&actual.entries[j], actual.entries[j].count);
            extra_count = extra_count + actual.entries[j].count;
            extra.push(x);
            proof {
                assert forall|kk: Key| #[trigger] count_of(extra@, kk) == count_of(
                    a.take(j + 1),
                    kk,
                ) - min_nat(count_of(e.take(i as int), kk), count_of(a.take(j + 1), kk)) by {
                    lemma_count_push(ex, x, kk);
                    lemma_count_take_step(a, j as int, kk);
                }
                assert forall|kk: Key| #[trigger] count_of(matched@, kk) == min_nat(
                    count_of(e.take(i as int), kk),
                    count_of(a.take(j + 1), kk),
                ) by {
                    lemma_count_take_step(a, j as int, kk);
                }
                assert forall|kk: Key| #[trigger] count_of(missing@, kk) == count_of(
                    e.take(i as int),
                    kk,
                ) - min_nat(count_of(e.take(i as int), kk), count_of(a.take(j + 1), kk)) by {
                    lemma_count_take_step(a, j as int, kk);
                }
                lemma_count_push(ex, x, k);
                assert forall|p: int, q: int| 0 <= q < j + 1 && i <= p < n implies key_lt(
                    entry_key(#[trigger] a[q]),
                    entry_key(#[trigger] e[p]),
                ) by {
                    if q == j && p > i {
                        lemma_key_lt_trans(entry_key(a[q]), entry_key(e[i as int]), entry_key(e[p]));
                    }
                }
                assert forall|o: int|
                    0 <= o < extra@.len() implies (i < n ==> key_lt(
                    entry_key(#[trigger] extra@[o]),
                    entry_key(e[i as int]),
                )) && (j + 1 < m ==> key_lt(entry_key(extra@[o]), entry_key(a[j + 1]))) by {
                    if o < ex.len() && j + 1 < m {
                        lemma_key_lt_trans(entry_key(extra@[o]), k, entry_key(a[j + 1]));
                    }
                }
                assert forall|o: int|
                    0 <= o < matched@.len() implies (j + 1 < m ==> key_lt(
                    entry_key(#[trigger] matched@[o]),
                    entry_key(a[j + 1]),
                )) by {
                    if j + 1 < m {
                        lemma_key_lt_trans(entry_key(matched@[o]), k, entry_key(a[j + 1]));
                    }
                }
                assert forall|o: int|
                    0 <= o < missing@.len() implies (j + 1 < m ==> key_lt(
                    entry_key(#[trigger] missing@[o]),
                    entry_key(a[j + 1]),
                )) by {
                    if j + 1 < m {
                        lemma_key_lt_trans(entry_key(missing@[o]), k, entry_key(a[j + 1]));
                    }
                }
            }
            j += 1;
        } else {
            let ghost k = entry_key(e[i as int]);
            proof {
                lemma_key_order_flip(k, entry_key(a[j as int]));
                assert(k == entry_key(a[j as int]));
                lemma_count_take_step(e, i as int, k);
                lemma_count_take_step(a, j as int, k);
                lemma_prefix_lacks(e, i as int, k);
                assert forall|q: int| 0 <= q < j implies key_lt(entry_key(#[trigger] a[q]), k) by {}
                lemma_prefix_lacks(a, j as int, k);
                lemma_total_bound_prefix(e, i as int + 1);
                lemma_total_bound_prefix(a, j as int + 1);
            }
            let ec = expected.entries[i].count;
            let ac = actual.entries[j].count;
            let mc = if ec <= ac {
                ec
            } else {
                ac
            };
            let ghost old_matched_len = em.len();
            let ghost old_missing_len = ei.len();
            let ghost old_extra_len = ex.len();
            matched_count = matched_count + mc;
            let xm = copy_entry(&expected.entries[i], mc);
            matched.push(xm);
            let mut xi_pushed = false;
            let mut xx_pushed = false;
            let ghost mut xi = xm;
            let ghost mut xx = xm;
            if ec > mc {
                let x = copy_entry(&expected.entries[i], ec - mc);
                missing_count = missing_count + (ec - mc);
                proof {
                    xi = x;
                }
                missing.push(x);
                xi_pushed = true;
            }
            if ac > mc {
                let x = copy_entry(&actual.entries[j], ac - mc);
                extra_count = extra_count + (ac - mc);
                proof {
                    xx = x;
                }
                extra.push(x);
                xx_pushed = true;
            }
            proof {
                assert(ec > mc ==> missing@ == ei.push(xi));
                assert(!(ec > mc) ==> missing@ == ei);
                assert(ac > mc ==> extra@ == ex.push(xx));
                assert(!(ac > mc) ==> extra@ == ex);
                assert forall|kk: Key| #[trigger] count_of(matched@, kk) == min_nat(
                    count_of(e.take(i + 1), kk),
                    count_of(a.take(j + 1), kk),
                ) by {
                    lemma_count_push(em, xm, kk);
                    lemma_count_take_step(e, i as int, kk);
                    lemma_count_take_step(a, j as int, kk);
                }
                assert forall|kk: Key| #[trigger] count_of(missing@, kk) == count_of(
                    e.take(i + 1),
                    kk,
                ) - min_nat(count_of(e.take(i + 1), kk), count_of(a.take(j + 1), kk)) by {
                    if ec > mc {
                        lemma_count_push(ei, xi, kk);
                    }
                    lemma_count_take_step(e, i as int, kk);
                    lemma_count_take_step(a, j as int, kk);
                }
                assert forall|kk: Key| #[trigger] count_of(extra@, kk) == count_of(
                    a.take(j + 1),
                    kk,
                ) - min_nat(count_of(e.take(i + 1), kk), count_of(a.take(j + 1), kk)) by {
                    if ac > mc {
                        lemma_count_push(ex, xx, kk);
                    }
                    lemma_count_take_step(e, i as int, kk);
                    lemma_count_take_step(a, j as int, kk);
                }
                lemma_count_push(em, xm, k);
                if ec > mc {
                    lemma_count_push(ei, xi, k);
                }
                if ac > mc {
                    lemma_count_push(ex, xx, k);
                }
                assert forall|p: int, q: int| 0 <= p < i + 1 && j + 1 <= q < m implies key_lt(
                    entry_key(#[trigger] e[p]),
                    entry_key(#[trigger] a[q]),
                ) by {
                    if p < i {
                        assert(key_lt(entry_key(e[p]), entry_key(a[q])));
                    } else {
                        assert(key_lt(entry_key(a[j as int]), entry_key(a[q])));
                    }
                }
                assert forall|p: int, q: int| 0 <= q < j + 1 && i + 1 <= p < n implies key_lt(
                    entry_key(#[trigger] a[q]),
                    entry_key(#[trigger] e[p]),
                ) by {
                    if q < j {
                        assert(key_lt(entry_key(a[q]), entry_key(e[p])));
                    } else {
                        assert(key_lt(entry_key(e[i as int]), entry_key(e[p])));
                    }
                }
                assert forall|o: int|
                    0 <= o < matched@.len() implies (i + 1 < n ==> key_lt(
                    entry_key(#[trigger] matched@[o]),
                    entry_key(e[i + 1]),
                )) && (j + 1 < m ==> key_lt(entry_key(matched@[o]), entry_key(a[j + 1]))) by {
                    if i + 1 < n {
                        if o < em.len() {
                            lemma_key_lt_trans(entry_key(matched@[o]), k, entry_key(e[i + 1]));
                        }
                    }
                    if j + 1 < m {
                        if o < em.len() {
                            lemma_key_lt_trans(entry_key(matched@[o]), k, entry_key(a[j + 1]));
                        }
                    }
                }
                assert forall|o: int|
                    0 <= o < missing@.len() implies (i + 1 < n ==> key_lt(
                    entry_key(#[trigger] missing@[o]),
                    entry_key(e[i + 1]),
                )) && (j + 1 < m ==> key_lt(entry_key(missing@[o]), entry_key(a[j + 1]))) by {
                    if i + 1 < n {
                        if o < ei.len() {
                            lemma_key_lt_trans(entry_key(missing@[o]), k, entry_key(e[i + 1]));
                        }
                    }
                    if j + 1 < m {
                        if o < ei.len() {
                            lemma_key_lt_trans(entry_key(missing@[o]), k, entry_key(a[j + 1]));
                        }
                    }
                }
                assert forall|o: int|
                    0 <= o < extra@.len() implies (i + 1 < n ==> key_lt(
                    entry_key(#[trigger] extra@[o]),
                    entry_key(e[i + 1]),
                )) && (j + 1 < m ==> key_lt(entry_key(extra@[o]), entry_key(a[j + 1]))) by {
                    if i + 1 < n {
                        if o < ex.len() {
                            lemma_key_lt_trans(entry_key(extra@[o]), k, entry_key(e[i + 1]));
                        }
                    }
                    if j + 1 < m {
                        if o < ex.len() {
                            lemma_key_lt_trans(entry_key(extra@[o]), k, entry_key(a[j + 1]));
                        }
                    }
                }
            }
            i += 1;
            j += 1;
        }
    }
    proof {
        assert(e.take(n as int) =~= e);
        assert(a.take(m as int) =~= a);
    }
    EntryComparison { matched_count, missing_count, extra_count, matched, missing, extra }
}

proof fn lemma_total_bound_prefix(s: Seq<GeometryEntry>, i: int)
    requires
        0 <= i <= s.len(),
    ensures
        total_of(s.take(i)) <= total_of(s),
{
    assert(s =~= s.take(i) + s.skip(i));
    lemma_count_concat(s.take(i), s.skip(i), (Seq::empty(), Seq::empty()));
}

/// The entries of a tally as plain values: each key with its count.
pub open spec fn entries_view(s: Seq<GeometryEntry>) -> Seq<(Key, nat)> {
    Seq::new(s.len(), |i: int| (entry_key(s[i]), s[i].count as nat))
}

pub proof fn lemma_count_first(s: Seq<GeometryEntry>, k: Key)
    requires
        s.len() > 0,
    ensures
        count_of(s, k) == (if entry_key(s[0]) == k {
            s[0].count as nat
        } else {
            0nat
        }) + count_of(s.drop_first(), k),
        total_of(s) == s[0].count + total_of(s.drop_first()),
{
    assert(s =~= seq![s[0]] + s.drop_first());
    lemma_count_concat(seq![s[0]], s.drop_first(), k);
    lemma_count_single(s[0], k);
}

pub proof fn lemma_sorted_rest(s: Seq<GeometryEntry>)
    requires
        sorted_entries(s),
        s.len() > 0,
    ensures
        sorted_entries(s.drop_first()),
        sorted_entries(s.drop_last()),
{
    let r = s.drop_first();
    assert forall|i: int, j: int| 0 <= i < j < r.len() implies key_lt(entry_key(#[trigger] r[i]), entry_key(#[trigger] r[j])) by {
        assert(r[i] == s[i + 1] && r[j] == s[j + 1]);
    }
    assert forall|i: int| 0 <= i < r.len() implies #[trigger] r[i].count > 0 by {
        assert(r[i] == s[i + 1]);
    }
    let d = s.drop_last();
    assert forall|i: int, j: int| 0 <= i < j < d.len() implies key_lt(entry_key(#[trigger] d[i]), entry_key(#[trigger] d[j])) by {
        assert(d[i] == s[i] && d[j] == s[j]);
    }
    assert forall|i: int| 0 <= i < d.len() implies #[trigger] d[i].count > 0 by {
        assert(d[i] == s[i]);
    }
}

proof fn lemma_below_first_absent(s: Seq<GeometryEntry>, k: Key)
    requires
        sorted_entries(s),
        s.len() > 0,
        key_lt(k, entry_key(s[0])),
    ensures
        count_of(s, k) == 0,
{
    assert forall|i: int| 0 <= i < s.len() implies entry_key(#[trigger] s[i]) != k by {
        lemma_key_lt_irreflexive(k);
        if i > 0 {
            assert(key_lt(entry_key(s[0]), entry_key(s[i])));
            lemma_key_lt_trans(k, entry_key(s[0]), entry_key(s[i]));
        }
    }
    lemma_count_absent(s, k);
}

/// A well-formed tally is determined by its counts: two that count every
/// key alike hold the same entries, in the same order.
pub proof fn lemma_tally_determined(a: Seq<GeometryEntry>, b: Seq<GeometryEntry>)
    requires
        sorted_entries(a),
        sorted_entries(b),
        forall|k: Key| count_of(a, k) == count_of(b, k),
    ensures
        entries_view(a) == entries_view(b),
    decreases a.len() + b.len(),
{
    if a.len() == 0 || b.len() == 0 {
        if b.len() > 0 {
            lemma_count_at(b, 0);
            assert(count_of(a, entry_key(b[0])) == 0);
        }
        if a.len() > 0 {
            lemma_count_at(a, 0);
            assert(count_of(b, entry_key(a[0])) == 0);
        }
        assert(entries_view(a) =~= entries_view(b));
    } else {
        let ka = entry_key(a[0]);
        let kb = entry_key(b[0]);
        lemma_key_order_flip(ka, kb);
        lemma_count_at(a, 0);
        lemma_count_at(b, 0);
        if key_lt(ka, kb) {
            lemma_below_first_absent(b, ka);
            assert(count_of(a, ka) == count_of(b, ka));
        } else if key_lt(kb, ka) {
            lemma_below_first_absent(a, kb);
            assert(count_of(a, kb) == count_of(b, kb));
        } else {
            assert(ka == kb);
            assert(count_of(a, ka) == count_of(b, ka));
            let ra = a.drop_first();
            let rb = b.drop_first();
            lemma_sorted_rest(a);
            lemma_sorted_rest(b);
            assert forall|k: Key| count_of(ra, k) == count_of(rb, k) by {
                lemma_count_first(a, k);
                lemma_count_first(b, k);
                assert(count_of(a, k) == count_of(b, k));
            }
            lemma_tally_determined(ra, rb);
            assert(entries_view(ra).len() == ra.len() && entries_view(rb).len() == rb.len());
            assert(a.len() == b.len());
            assert forall|i: int| 0 <= i < a.len() implies entries_view(a)[i] == entries_view(b)[i] by {
                if i > 0 {
                    assert(entries_view(ra)[i - 1] == entries_view(rb)[i - 1]);
                    assert(ra[i - 1] == a[i] && rb[i - 1] == b[i]);
                }
            }
            assert(entries_view(a) =~= entries_view(b));
        }
    }
}

/// The sum of the counts of the entries of kind `kind`.
pub open spec fn kind_total(s: Seq<GeometryEntry>, kind: Seq<char>) -> nat
    decreases s.len(),
{
    if s.len() == 0 {
        0
    } else {
        kind_total(s.drop_last(), kind) + if s.last().kind@ == kind {
            s.last().count as nat
        } else {
            0nat
        }
    }
}

} // verus!
