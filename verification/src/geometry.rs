//! Points, their order, and the canonical form of point paths that makes two
//! renderings of the same path compare equal whatever their start point or
//! direction.
use vstd::prelude::*;

verus! {

/// A point in nanometres.
#[derive(Debug, Clone, Copy, PartialEq, Eq, Structural)]
pub struct Point {
    pub x: i64,
    pub y: i64,
}

/// The outcome of a three-way comparison.
#[derive(Debug, Clone, Copy, PartialEq, Eq, Structural)]
pub enum PathOrder {
    Less,
    Equal,
    Greater,
}

/// Points are ordered by `x`, then by `y`.
pub open spec fn point_order(a: Point, b: Point) -> PathOrder {
    if a.x < b.x {
        PathOrder::Less
    } else if a.x > b.x {
        PathOrder::Greater
    } else if a.y < b.y {
        PathOrder::Less
    } else if a.y > b.y {
        PathOrder::Greater
    } else {
        PathOrder::Equal
    }
}

/// Paths are ordered lexicographically by their points; a proper prefix comes
/// first.
pub open spec fn path_order(a: Seq<Point>, b: Seq<Point>) -> PathOrder
    decreases a.len(),
{
    if a.len() == 0 || b.len() == 0 {
        if a.len() < b.len() {
            PathOrder::Less
        } else if a.len() > b.len() {
            PathOrder::Greater
        } else {
            PathOrder::Equal
        }
    } else if point_order(a[0], b[0]) != PathOrder::Equal {
        point_order(a[0], b[0])
    } else {
        path_order(a.drop_first(), b.drop_first())
    }
}

/// `a` comes no later than `b`.
pub open spec fn path_le(a: Seq<Point>, b: Seq<Point>) -> bool {
    path_order(a, b) != PathOrder::Greater
}

pub open spec fn flip(o: PathOrder) -> PathOrder {
    match o {
        PathOrder::Less => PathOrder::Greater,
        PathOrder::Equal => PathOrder::Equal,
        PathOrder::Greater => PathOrder::Less,
    }
}

/// `s` read backwards.
pub open spec fn reversed(s: Seq<Point>) -> Seq<Point> {
    Seq::new(s.len(), |i: int| s[s.len() - 1 - i])
}

/// `s` started at index `k`, wrapping round: `s[k..] + s[..k]`.
pub open spec fn rotate(s: Seq<Point>, k: int) -> Seq<Point> {
    Seq::new(
        s.len(),
        |i: int|
            if i + k < s.len() {
                s[i + k]
            } else {
                s[i + k - s.len()]
            },
    )
}

/// The canonical form of an open path: the lesser of the path and its
/// reverse (the path itself on a tie).
pub open spec fn canon_open(p: Seq<Point>) -> Seq<Point> {
    if path_order(p, reversed(p)) == PathOrder::Greater {
        reversed(p)
    } else {
        p
    }
}

/// `q` is one of the ways to walk the closed loop `p`: from any start point,
/// in either direction.
pub open spec fn loop_candidate(p: Seq<Point>, q: Seq<Point>) -> bool {
    exists|k: int|
        #![trigger rotate(p, k)]
        #![trigger rotate(reversed(p), k)]
        0 <= k < p.len() && (q == rotate(p, k) || q == rotate(reversed(p), k))
}

/// `q` is the least way to walk the closed loop `p`.
pub open spec fn is_least_walk(p: Seq<Point>, q: Seq<Point>) -> bool {
    &&& loop_candidate(p, q)
    &&& forall|c: Seq<Point>| #[trigger] loop_candidate(p, c) ==> path_le(q, c)
}

/// The canonical form of a closed loop (its closing point left out): the
/// least of its walks from every start point in both directions.
pub open spec fn canon_closed(p: Seq<Point>) -> Seq<Point> {
    if p.len() == 0 {
        Seq::empty()
    } else {
        choose|q: Seq<Point>| is_least_walk(p, q)
    }
}

/// The canonical form of a path: a path whose last point repeats its first is
/// a closed loop; any other path is open.
pub open spec fn canon_path(p: Seq<Point>) -> Seq<Point> {
    if p.len() >= 2 && p[0] == p.last() {
        canon_closed(p.drop_last())
    } else {
        canon_open(p)
    }
}

pub proof fn lemma_point_order_flip(a: Point, b: Point)
    ensures
        point_order(b, a) == flip(point_order(a, b)),
        point_order(a, b) == PathOrder::Equal ==> a == b,
{
}

pub proof fn lemma_path_order_flip(a: Seq<Point>, b: Seq<Point>)
    ensures
        path_order(b, a) == flip(path_order(a, b)),
        path_order(a, b) == PathOrder::Equal ==> a == b,
    decreases a.len(),
{
    if a.len() > 0 && b.len() > 0 {
        lemma_point_order_flip(a[0], b[0]);
        lemma_path_order_flip(a.drop_first(), b.drop_first());
        if path_order(a, b) == PathOrder::Equal {
            assert(a =~= seq![a[0]] + a.drop_first());
            assert(b =~= seq![b[0]] + b.drop_first());
        }
    }
}

pub proof fn lemma_path_le_trans(a: Seq<Point>, b: Seq<Point>, c: Seq<Point>)
    requires
        path_le(a, b),
        path_le(b, c),
    ensures
        path_le(a, c),
    decreases a.len(),
{
    if a.len() > 0 && b.len() > 0 && c.len() > 0 {
        lemma_point_order_flip(a[0], b[0]);
        lemma_point_order_flip(b[0], c[0]);
        if point_order(a[0], b[0]) == PathOrder::Equal && point_order(b[0], c[0])
            == PathOrder::Equal {
            lemma_path_le_trans(a.drop_first(), b.drop_first(), c.drop_first());
        }
    }
}

/// Two least walks of the same loop are the same path.
pub proof fn lemma_least_walk_unique(p: Seq<Point>, q1: Seq<Point>, q2: Seq<Point>)
    requires
        is_least_walk(p, q1),
        is_least_walk(p, q2),
    ensures
        q1 == q2,
{
    assert(path_le(q1, q2));
    assert(path_le(q2, q1));
    lemma_path_order_flip(q1, q2);
}

/// A least walk is the canonical form.
pub proof fn lemma_least_walk_is_canon(p: Seq<Point>, q: Seq<Point>)
    requires
        p.len() > 0,
        is_least_walk(p, q),
    ensures
        canon_closed(p) == q,
{
    let c = choose|q: Seq<Point>| is_least_walk(p, q);
    assert(is_least_walk(p, c));
    lemma_least_walk_unique(p, q, c);
}

/// Compares two points by `x`, then `y`.
pub fn point_cmp(a: &Point, b: &Point) -> (o: PathOrder)
    ensures
        o == point_order(*a, *b),
{
    if a.x < b.x {
        PathOrder::Less
    } else if a.x > b.x {
        PathOrder::Greater
    } else if a.y < b.y {
        PathOrder::Less
    } else if a.y > b.y {
        PathOrder::Greater
    } else {
        PathOrder::Equal
    }
}

/// `s` from index `i` on.
pub open spec fn tail(s: Seq<Point>, i: usize) -> Seq<Point> {
    s.skip(i as int)
}

proof fn lemma_path_order_tail(a: Seq<Point>, b: Seq<Point>, i: usize, j: usize)
    requires
        i < a.len(),
        i < b.len(),
        j == i + 1,
        point_order(a[i as int], b[i as int]) == PathOrder::Equal,
    ensures
        path_order(tail(a, i), tail(b, i)) == path_order(tail(a, j), tail(b, j)),
{
    assert(tail(a, i).drop_first() =~= tail(a, j));
    assert(tail(b, i).drop_first() =~= tail(b, j));
}

proof fn lemma_tail_zero(a: Seq<Point>)
    ensures
        tail(a, 0) == a,
{
    assert(a.skip(0) =~= a);
}

/// Compares two paths lexicographically by their points, then by length.
pub fn point_path_cmp(a: &[Point], b: &[Point]) -> (o: PathOrder)
    ensures
        o == path_order(a@, b@),
{
    let mut i: usize = 0;
    proof {
        lemma_tail_zero(a@);
        lemma_tail_zero(b@);
    }
    while i < a.len() && i < b.len()
        invariant
            i <= a.len(),
            i <= b.len(),
            path_order(a@, b@) == path_order(tail(a@, i), tail(b@, i)),
        decreases a.len() - i,
    {
        let o = point_cmp(&a[i], &b[i]);
        if o != PathOrder::Equal {
            return o;
        }
        let j: usize = i + 1;
        proof {
            lemma_path_order_tail(a@, b@, i, j);
        }
        i = j;
    }
    if a.len() < b.len() {
        PathOrder::Less
    } else if a.len() > b.len() {
        PathOrder::Greater
    } else {
        PathOrder::Equal
    }
}

/// A copy of `points`.
pub fn copy_points(points: &[Point]) -> (r: Vec<Point>)
    ensures
        r@ == points@,
{
    let mut r: Vec<Point> = Vec::new();
    let mut i: usize = 0;
    while i < points.len()
        invariant
            i <= points.len(),
            r@ == points@.take(i as int),
        decreases points.len() - i,
    {
        r.push(points[i]);
        i += 1;
        assert(r@ =~= points@.take(i as int));
    }
    assert(points@.take(points.len() as int) =~= points@);
    r
}

/// `points` read backwards.
pub fn reverse_points(points: &[Point]) -> (r: Vec<Point>)
    ensures
        r@ == reversed(points@),
{
    let n = points.len();
    let mut r: Vec<Point> = Vec::new();
    let mut i: usize = 0;
    while i < n
        invariant
            i <= n == points.len(),
            r@.len() == i,
            forall|j: int| 0 <= j < i ==> r@[j] == points@[n - 1 - j],
        decreases n - i,
    {
        r.push(points[n - 1 - i]);
        i += 1;
    }
    assert(r@ =~= reversed(points@));
    r
}

/// `points` started at index `start`, wrapping round: the points from
/// `start` on, then those before it (a start at the end gives the points
/// unchanged).
pub fn rotate_points(points: &[Point], start: usize) -> (r: Vec<Point>)
    requires
        start <= points.len(),
    ensures
        r@ == rotate(points@, start as int),
        r@ == points@.skip(start as int) + points@.take(start as int),
{
    let n = points.len();
    let mut r: Vec<Point> = Vec::new();
    let mut i: usize = 0;
    while i < n
        invariant
            start <= n == points.len(),
            i <= n,
            r@.len() == i,
            forall|j: int| 0 <= j < i ==> r@[j] == rotate(points@, start as int)[j],
        decreases n - i,
    {
        if i < n - start {
            r.push(points[i + start]);
        } else {
            r.push(points[i - (n - start)]);
        }
        i += 1;
    }
    assert(r@ =~= rotate(points@, start as int));
    assert(r@ =~= points@.skip(start as int) + points@.take(start as int));
    r
}

/// The canonical form of an open path: the lesser of the path and its
/// reverse.
pub fn canonicalize_open_path(points: &[Point]) -> (r: Vec<Point>)
    ensures
        r@ == canon_open(points@),
        path_le(r@, points@),
        path_le(r@, reversed(points@)),
{
    let reversed_points = reverse_points(points);
    proof {
        lemma_path_order_flip(points@, reversed(points@));
        lemma_path_order_flip(points@, points@);
        lemma_path_order_flip(reversed(points@), reversed(points@));
    }
    if point_path_cmp(points, &reversed_points) == PathOrder::Greater {
        reversed_points
    } else {
        copy_points(points)
    }
}

/// The canonical form of a closed loop: the least of its walks from every
/// start point in both directions.
pub fn canonicalize_closed_loop(points: &[Point]) -> (r: Vec<Point>)
    ensures
        r@ == canon_closed(points@),
        points@.len() > 0 ==> is_least_walk(points@, r@),
{
    let n = points.len();
    if n == 0 {
        return Vec::new();
    }
    let ghost p = points@;
    let reversed_points = reverse_points(points);
    let mut best = rotate_points(points, 0);
    let mut start: usize = 1;
    assert(loop_candidate(p, best@));
    proof {
        lemma_path_order_flip(best@, best@);
    }
    while start < n
        invariant
            0 < n == points.len(),
            p == points@,
            1 <= start <= n,
            loop_candidate(p, best@),
            forall|k: int| 0 <= k < start ==> path_le(best@, #[trigger] rotate(p, k)),
        decreases n - start,
    {
        let candidate = rotate_points(points, start);
        assert(loop_candidate(p, candidate@));
        let ghost old_best = best@;
        if point_path_cmp(&candidate, &best) == PathOrder::Less {
            proof {
                assert forall|k: int| 0 <= k < start implies path_le(
                    candidate@,
                    #[trigger] rotate(p, k),
                ) by {
                    lemma_path_le_trans(candidate@, old_best, rotate(p, k));
                }
                lemma_path_order_flip(candidate@, candidate@);
            }
            best = candidate;
        } else {
            proof {
                lemma_path_order_flip(candidate@, best@);
            }
        }
        start += 1;
    }
    let mut rstart: usize = 0;
    while rstart < n
        invariant
            0 < n == points.len(),
            p == points@,
            reversed_points@ == reversed(p),
            rstart <= n,
            loop_candidate(p, best@),
            forall|k: int| 0 <= k < n ==> path_le(best@, #[trigger] rotate(p, k)),
            forall|k: int| 0 <= k < rstart ==> path_le(best@, #[trigger] rotate(reversed(p), k)),
        decreases n - rstart,
    {
        let candidate = rotate_points(&reversed_points, rstart);
        assert(loop_candidate(p, candidate@));
        let ghost old_best = best@;
        if point_path_cmp(&candidate, &best) == PathOrder::Less {
            proof {
                assert forall|k: int| 0 <= k < n implies path_le(
                    candidate@,
                    #[trigger] rotate(p, k),
                ) by {
                    lemma_path_le_trans(candidate@, old_best, rotate(p, k));
                }
                assert forall|k: int| 0 <= k < rstart implies path_le(
                    candidate@,
                    #[trigger] rotate(reversed(p), k),
                ) by {
                    lemma_path_le_trans(candidate@, old_best, rotate(reversed(p), k));
                }
                lemma_path_order_flip(candidate@, candidate@);
            }
            best = candidate;
        } else {
            proof {
                lemma_path_order_flip(candidate@, best@);
            }
        }
        rstart += 1;
    }
    proof {
        assert forall|c: Seq<Point>| #[trigger] loop_candidate(p, c) implies path_le(best@, c) by {
            let k = choose|k: int|
                #![trigger rotate(p, k)]
                #![trigger rotate(reversed(p), k)]
                0 <= k < p.len() && (c == rotate(p, k) || c == rotate(reversed(p), k));
            assert(0 <= k < n);
            if c == rotate(p, k) {
                assert(path_le(best@, rotate(p, k)));
            } else {
                assert(c == rotate(reversed(p), k));
                assert(path_le(best@, rotate(reversed(p), k)));
            }
        }
        lemma_least_walk_is_canon(p, best@);
    }
    best
}

/// The canonical form of a path: closed when its last point repeats its first
/// (the repeated point is dropped), open otherwise.
pub fn canonicalize_path_points(points: &[Point]) -> (r: Vec<Point>)
    ensures
        r@ == canon_path(points@),
{
    let n = points.len();
    if n >= 2 && points[0] == points[n - 1] {
        let mut normalized = copy_points(points);
        normalized.pop();
        assert(normalized@ =~= points@.drop_last());
        return canonicalize_closed_loop(&normalized);
    }
    canonicalize_open_path(points)
}

/// Reading a path backwards twice gives it back.
pub proof fn lemma_reversed_twice(p: Seq<Point>)
    ensures
        reversed(reversed(p)) == p,
{
    assert(reversed(reversed(p)) =~= p);
}

/// An open path and its reverse have one canonical form: the signature of
/// an open path does not depend on the direction it is drawn in.
pub proof fn lemma_canon_open_reversed(p: Seq<Point>)
    ensures
        canon_open(reversed(p)) == canon_open(p),
{
    lemma_reversed_twice(p);
    lemma_path_order_flip(p, reversed(p));
}

/// The lesser of two paths (the first on a tie).
pub open spec fn lesser(a: Seq<Point>, b: Seq<Point>) -> Seq<Point> {
    if path_le(a, b) {
        a
    } else {
        b
    }
}

/// The least of the walks of `p` from the first `m` start points, both
/// directions.
pub open spec fn least_walk_upto(p: Seq<Point>, m: nat) -> Seq<Point>
    decreases m,
{
    if m <= 1 {
        lesser(rotate(p, 0), rotate(reversed(p), 0))
    } else {
        let k = m - 1;
        lesser(least_walk_upto(p, (m - 1) as nat), lesser(rotate(p, k), rotate(reversed(p), k)))
    }
}

proof fn lemma_lesser(a: Seq<Point>, b: Seq<Point>)
    ensures
        lesser(a, b) == a || lesser(a, b) == b,
        path_le(lesser(a, b), a),
        path_le(lesser(a, b), b),
{
    lemma_path_order_flip(a, b);
    lemma_path_order_flip(a, a);
    lemma_path_order_flip(b, b);
}

proof fn lemma_least_walk_upto(p: Seq<Point>, m: nat)
    requires
        1 <= m <= p.len(),
    ensures
        loop_candidate(p, least_walk_upto(p, m)),
        forall|k: int|
            0 <= k < m ==> path_le(least_walk_upto(p, m), rotate(p, k)) && path_le(
                least_walk_upto(p, m),
                rotate(reversed(p), k),
            ),
    decreases m,
{
    let w = least_walk_upto(p, m);
    if m <= 1 {
        lemma_lesser(rotate(p, 0), rotate(reversed(p), 0));
        assert(w == rotate(p, 0) || w == rotate(reversed(p), 0));
    } else {
        let k = m - 1;
        let prev = least_walk_upto(p, (m - 1) as nat);
        lemma_least_walk_upto(p, (m - 1) as nat);
        let pair = lesser(rotate(p, k), rotate(reversed(p), k));
        lemma_lesser(rotate(p, k), rotate(reversed(p), k));
        lemma_lesser(prev, pair);
        assert(w == lesser(prev, pair));
        if w == pair {
            assert(pair == rotate(p, k) || pair == rotate(reversed(p), k));
        }
        assert forall|j: int| 0 <= j < m implies path_le(w, rotate(p, j)) && path_le(
            w,
            rotate(reversed(p), j),
        ) by {
            if j < k {
                lemma_path_le_trans(w, prev, rotate(p, j));
                lemma_path_le_trans(w, prev, rotate(reversed(p), j));
            } else {
                lemma_path_le_trans(w, pair, rotate(p, j));
                lemma_path_le_trans(w, pair, rotate(reversed(p), j));
            }
        }
    }
}

/// Every non-empty loop has a least walk.
pub proof fn lemma_least_walk_exists(p: Seq<Point>)
    requires
        p.len() > 0,
    ensures
        is_least_walk(p, least_walk_upto(p, p.len())),
        canon_closed(p) == least_walk_upto(p, p.len()),
{
    let w = least_walk_upto(p, p.len());
    lemma_least_walk_upto(p, p.len());
    assert forall|c: Seq<Point>| #[trigger] loop_candidate(p, c) implies path_le(w, c) by {
        let k = choose|k: int|
            #![trigger rotate(p, k)]
            #![trigger rotate(reversed(p), k)]
            0 <= k < p.len() && (c == rotate(p, k) || c == rotate(reversed(p), k));
        assert(path_le(w, rotate(p, k)) && path_le(w, rotate(reversed(p), k)));
    }
    lemma_least_walk_is_canon(p, w);
}

/// Rotating a rotation is one rotation.
pub proof fn lemma_rotate_rotate(s: Seq<Point>, a: int, b: int)
    requires
        0 <= a < s.len(),
        0 <= b < s.len(),
    ensures
        rotate(rotate(s, a), b) == rotate(s, if a + b < s.len() { a + b } else { a + b - s.len() }),
{
    let c = if a + b < s.len() { a + b } else { a + b - s.len() };
    assert(rotate(rotate(s, a), b) =~= rotate(s, c));
}

/// A rotated loop read backwards is the backward loop rotated the other way.
pub proof fn lemma_reversed_rotate(s: Seq<Point>, j: int)
    requires
        0 <= j < s.len(),
    ensures
        reversed(rotate(s, j)) == rotate(reversed(s), if j == 0 { 0 } else { s.len() - j }),
{
    let k = if j == 0 { 0 } else { s.len() - j };
    assert(reversed(rotate(s, j)) =~= rotate(reversed(s), k));
}

proof fn lemma_rotate_zero(s: Seq<Point>)
    ensures
        rotate(s, 0) == s,
{
    assert(rotate(s, 0) =~= s);
}

/// The walks of a loop are those of any rotation of it.
proof fn lemma_rotation_candidates(p: Seq<Point>, j: int, c: Seq<Point>)
    requires
        0 <= j < p.len(),
        loop_candidate(p, c),
    ensures
        loop_candidate(rotate(p, j), c),
{
    let n = p.len();
    let r = rotate(p, j);
    let k = choose|k: int|
        #![trigger rotate(p, k)]
        #![trigger rotate(reversed(p), k)]
        0 <= k < n && (c == rotate(p, k) || c == rotate(reversed(p), k));
    let back = if j == 0 { 0 } else { n - j };
    if c == rotate(p, k) {
        // c = rotate(rotate(p, j), k - j mod n)
        let m = if k >= j { k - j } else { k - j + n };
        lemma_rotate_rotate(p, j, m);
        assert(rotate(r, m) == c);
    } else {
        // reversed(r) = rotate(reversed(p), back); c = rotate(reversed(r), k - back mod n)
        lemma_reversed_rotate(p, j);
        let m = if k >= back { k - back } else { k - back + n };
        lemma_rotate_rotate(reversed(p), back, m);
        assert(rotate(reversed(r), m) == c);
    }
}

/// A closed loop has one canonical form whatever point it starts at.
pub proof fn lemma_canon_closed_rotate(p: Seq<Point>, j: int)
    requires
        0 <= j < p.len(),
    ensures
        canon_closed(rotate(p, j)) == canon_closed(p),
{
    let n = p.len();
    let r = rotate(p, j);
    lemma_least_walk_exists(p);
    let w = least_walk_upto(p, n);
    let back = if j == 0 { 0 } else { n - j };
    assert(0 <= back < n);
    lemma_rotate_rotate(p, j, back);
    lemma_rotate_zero(p);
    assert(rotate(r, back) == p);
    assert(is_least_walk(r, w)) by {
        lemma_rotation_candidates(p, j, w);
        assert forall|c: Seq<Point>| #[trigger] loop_candidate(r, c) implies path_le(w, c) by {
            lemma_rotation_candidates(r, back, c);
        }
    }
    lemma_least_walk_is_canon(r, w);
}

/// The walks of a loop are those of the loop read backwards.
proof fn lemma_reversal_candidates(p: Seq<Point>, c: Seq<Point>)
    requires
        p.len() > 0,
        loop_candidate(p, c),
    ensures
        loop_candidate(reversed(p), c),
{
    lemma_reversed_twice(p);
    let k = choose|k: int|
        #![trigger rotate(p, k)]
        #![trigger rotate(reversed(p), k)]
        0 <= k < p.len() && (c == rotate(p, k) || c == rotate(reversed(p), k));
    if c == rotate(p, k) {
        assert(c == rotate(reversed(reversed(p)), k));
    } else {
        assert(c == rotate(reversed(p), k));
    }
}

/// A closed loop has one canonical form in either direction.
pub proof fn lemma_canon_closed_reversed(p: Seq<Point>)
    ensures
        canon_closed(reversed(p)) == canon_closed(p),
{
    if p.len() > 0 {
        let n = p.len();
        let rp = reversed(p);
        lemma_least_walk_exists(p);
        let w = least_walk_upto(p, n);
        lemma_reversed_twice(p);
        assert(is_least_walk(rp, w)) by {
            lemma_reversal_candidates(p, w);
            assert forall|c: Seq<Point>| #[trigger] loop_candidate(rp, c) implies path_le(w, c) by {
                lemma_reversal_candidates(rp, c);
            }
        }
        lemma_least_walk_is_canon(rp, w);
    } else {
        assert(reversed(p).len() == 0);
    }
}

} // verus!
