//! Excellon drill tools: the tools the board's drill hits need, reading an
//! Excellon file back, comparing the two, and hole classes.
use vstd::prelude::*;

use crate::forward_annotation::{copy_text, text_of, texts_view};
use crate::forward_annotation_audit::{
    Referenced, by_reference, find_by_reference, find_ref, keyed_by_reference,
};
use crate::geometry::PathOrder;
use crate::render::{mm6_text, nat_text, push_nat_text, render_mm_6};
use crate::tally::{compare_text, text_order};
use crate::text::{
    chars_eq, chars_of, first_index_of, lines, split_lines, string_from_chars, trim, trim_chars,
};

verus! {

/// What a drill hit is for.
#[derive(Debug, Clone, Copy, PartialEq, Eq, Structural)]
pub enum DrillHitKind {
    Via,
    ComponentPad,
}

/// One hole to drill.
#[derive(Debug, Clone, Copy, PartialEq, Eq, Structural)]
pub struct DrillHit {
    pub kind: DrillHitKind,
    pub uuid: u128,
    pub net: Option<u128>,
    pub x_nm: i64,
    pub y_nm: i64,
    pub drill_nm: i64,
    pub from_layer: i32,
    pub to_layer: i32,
}

/// `x` put into the ascending list `t` unless it is there already.
pub open spec fn insert_size(t: Seq<i64>, x: i64) -> Seq<i64>
    decreases t.len(),
{
    if t.len() == 0 {
        seq![x]
    } else if x < t[0] {
        seq![x] + t
    } else if x == t[0] {
        t
    } else {
        seq![t[0]] + insert_size(t.drop_first(), x)
    }
}

/// The distinct drill sizes of the hits, ascending.
pub open spec fn drill_sizes(hits: Seq<DrillHit>) -> Seq<i64>
    decreases hits.len(),
{
    if hits.len() == 0 {
        Seq::empty()
    } else {
        insert_size(drill_sizes(hits.drop_last()), hits.last().drill_nm)
    }
}

/// How many hits have the drill size `d`.
pub open spec fn hits_of_size(hits: Seq<DrillHit>, d: i64) -> nat
    decreases hits.len(),
{
    if hits.len() == 0 {
        0
    } else {
        hits_of_size(hits.drop_last(), d) + if hits.last().drill_nm == d {
            1nat
        } else {
            0nat
        }
    }
}

/// The name of the `k`-th tool (from 0): `T` and the number `k + 1` with
/// at least two digits.
pub open spec fn tool_name(k: nat) -> Seq<char> {
    if k + 1 < 10 {
        seq!['T', '0'] + nat_text(k + 1)
    } else {
        seq!['T'] + nat_text(k + 1)
    }
}

/// A drill tool: its name, its diameter in millimetres and its hits.
#[derive(Debug, PartialEq, Eq)]
pub struct ExcellonTool {
    pub tool: String,
    pub diameter_mm: String,
    pub hits: usize,
}

fn insert_drill_size(out: &mut Vec<i64>, x: i64)
    ensures
        final(out)@ == insert_size(old(out)@, x),
{
    let ghost t = out@;
    let mut k: usize = 0;
    assert(t.skip(0) =~= t);
    assert(t.take(0) + t.skip(0) =~= t);
    while k < out.len() && out[k] < x
        invariant
            out@ == t,
            k <= t.len(),
            insert_size(t, x) == t.take(k as int) + insert_size(t.skip(k as int), x),
        decreases t.len() - k,
    {
        proof {
            let u = t.skip(k as int);
            assert(u[0] == t[k as int]);
            assert(u.drop_first() =~= t.skip(k + 1));
            assert(t.take(k as int) + (seq![t[k as int]] + insert_size(t.skip(k + 1), x))
                =~= t.take(k + 1) + insert_size(t.skip(k + 1), x));
        }
        k = k + 1;
    }
    if k < out.len() {
        proof {
            let u = t.skip(k as int);
            assert(u[0] == t[k as int]);
        }
        if out[k] != x {
            out.insert(k, x);
            proof {
                assert(out@ =~= t.take(k as int) + (seq![x] + t.skip(k as int)));
            }
        } else {
            assert(t.take(k as int) + t.skip(k as int) =~= t);
        }
    } else {
        out.push(x);
        proof {
            assert(t.skip(k as int) =~= Seq::<i64>::empty());
            assert(t.take(k as int) =~= t);
            assert(out@ =~= t.take(k as int) + seq![x]);
        }
    }
}

fn count_size(hits: &[DrillHit], d: i64) -> (n: usize)
    ensures
        n == hits_of_size(hits@, d),
{
    let mut n: usize = 0;
    let mut i: usize = 0;
    assert(hits@.take(0) =~= Seq::<DrillHit>::empty());
    while i < hits.len()
        invariant
            i <= hits.len(),
            n <= i,
            n == hits_of_size(hits@.take(i as int), d),
        decreases hits.len() - i,
    {
        proof {
            let next = hits@.take(i + 1);
            assert(next.drop_last() =~= hits@.take(i as int));
            assert(next.last() == hits@[i as int]);
        }
        if hits[i].drill_nm == d {
            n = n + 1;
        }
        i = i + 1;
    }
    assert(hits@.take(hits.len() as int) =~= hits@);
    n
}

/// The tools the hits need: one per distinct drill size, ascending, named
/// `T01`, `T02`, … in that order, with the size in millimetres and the
/// number of hits of that size.
pub fn build_excellon_tool_views_for_drill_hits(hits: &[DrillHit]) -> (r: Vec<ExcellonTool>)
    ensures
        r@.len() == drill_sizes(hits@).len(),
        forall|k: int|
            0 <= k < r@.len() ==> (#[trigger] r@[k]).tool@ == tool_name(k as nat) && r@[k].diameter_mm@
                == mm6_text(drill_sizes(hits@)[k] as int) && r@[k].hits == hits_of_size(
                hits@,
                drill_sizes(hits@)[k],
            ),
{
    let mut sizes: Vec<i64> = Vec::new();
    let mut i: usize = 0;
    assert(hits@.take(0) =~= Seq::<DrillHit>::empty());
    while i < hits.len()
        invariant
            i <= hits.len(),
            sizes@ == drill_sizes(hits@.take(i as int)),
        decreases hits.len() - i,
    {
        insert_drill_size(&mut sizes, hits[i].drill_nm);
        proof {
            let next = hits@.take(i + 1);
            assert(next.drop_last() =~= hits@.take(i as int));
            assert(next.last() == hits@[i as int]);
        }
        i = i + 1;
    }
    assert(hits@.take(hits.len() as int) =~= hits@);
    let mut tools: Vec<ExcellonTool> = Vec::new();
    let mut k: usize = 0;
    while k < sizes.len()
        invariant
            k <= sizes.len(),
            sizes@ == drill_sizes(hits@),
            tools@.len() == k,
            forall|j: int|
                0 <= j < k ==> (#[trigger] tools@[j]).tool@ == tool_name(j as nat) && tools@[j].diameter_mm@
                    == mm6_text(sizes@[j] as int) && tools@[j].hits == hits_of_size(hits@, sizes@[j]),
        decreases sizes.len() - k,
    {
        let mut name: Vec<char> = Vec::new();
        name.push('T');
        if k + 1 < 10 {
            name.push('0');
        }
        push_nat_text(&mut name, (k + 1) as u64);
        assert(name@ =~= tool_name(k as nat));
        let d = sizes[k];
        tools.push(
            ExcellonTool {
                tool: string_from_chars(name.as_slice()),
                diameter_mm: render_mm_6(d),
                hits: count_size(hits, d),
            },
        );
        k = k + 1;
    }
    tools
}

/// The sizes in `t` rise strictly.
pub open spec fn strictly_ascending(t: Seq<i64>) -> bool {
    forall|i: int, j: int| 0 <= i < j < t.len() ==> t[i] < t[j]
}

/// The hits counted under the sizes `sizes`, one size after another.
pub open spec fn size_hit_total(sizes: Seq<i64>, hits: Seq<DrillHit>) -> nat
    decreases sizes.len(),
{
    if sizes.len() == 0 {
        0
    } else {
        hits_of_size(hits, sizes[0]) + size_hit_total(sizes.drop_first(), hits)
    }
}

#[verifier::spinoff_prover]
proof fn lemma_insert_size(t: Seq<i64>, x: i64)
    requires
        strictly_ascending(t),
    ensures
        strictly_ascending(insert_size(t, x)),
        forall|y: i64| insert_size(t, x).contains(y) <==> (t.contains(y) || y == x),
        t.contains(x) ==> insert_size(t, x) == t,
    decreases t.len(),
{
    if t.len() == 0 {
        assert(seq![x][0] == x);
    } else if x < t[0] {
        let r = seq![x] + t;
        assert forall|y: i64| r.contains(y) <==> (t.contains(y) || y == x) by {
            if r.contains(y) {
                let k = choose|k: int| 0 <= k < r.len() && r[k] == y;
                if k > 0 {
                    assert(t[k - 1] == y);
                }
            }
            if t.contains(y) {
                let k = choose|k: int| 0 <= k < t.len() && t[k] == y;
                assert(r[k + 1] == y);
            }
            if y == x {
                assert(r[0] == y);
            }
        }
        assert forall|i: int, j: int| 0 <= i < j < r.len() implies r[i] < r[j] by {
            if i > 0 {
                assert(t[i - 1] < t[j - 1]);
            } else if j > 1 {
                assert(t[0] < t[j - 1]);
            }
        }
        if t.contains(x) {
            let k = choose|k: int| 0 <= k < t.len() && t[k] == x;
            if k > 0 {
                assert(t[0] < t[k]);
            }
        }
    } else if x == t[0] {
        assert(t.contains(x));
    } else {
        let rest = t.drop_first();
        assert(strictly_ascending(rest)) by {
            assert forall|i: int, j: int| 0 <= i < j < rest.len() implies rest[i] < rest[j] by {
                assert(t[i + 1] < t[j + 1]);
            }
        }
        lemma_insert_size(rest, x);
        let ins = insert_size(rest, x);
        let r = seq![t[0]] + ins;
        assert forall|y: i64| t.contains(y) <==> (y == t[0] || rest.contains(y)) by {
            if t.contains(y) {
                let k = choose|k: int| 0 <= k < t.len() && t[k] == y;
                if k > 0 {
                    assert(rest[k - 1] == y);
                }
            }
            if rest.contains(y) {
                let k = choose|k: int| 0 <= k < rest.len() && rest[k] == y;
                assert(t[k + 1] == y);
            }
            if y == t[0] {
                assert(t[0] == y);
            }
        }
        assert forall|y: i64| r.contains(y) <==> (y == t[0] || ins.contains(y)) by {
            if r.contains(y) {
                let k = choose|k: int| 0 <= k < r.len() && r[k] == y;
                if k > 0 {
                    assert(ins[k - 1] == y);
                }
            }
            if ins.contains(y) {
                let k = choose|k: int| 0 <= k < ins.len() && ins[k] == y;
                assert(r[k + 1] == y);
            }
            if y == t[0] {
                assert(r[0] == y);
            }
        }
        assert forall|j: int| 0 <= j < ins.len() implies t[0] < #[trigger] ins[j] by {
            assert(ins.contains(ins[j]));
            if rest.contains(ins[j]) {
                let k = choose|k: int| 0 <= k < rest.len() && rest[k] == ins[j];
                assert(t[0] < t[k + 1]);
            }
        }
        assert forall|i: int, j: int| 0 <= i < j < r.len() implies r[i] < r[j] by {
            if i > 0 {
                assert(r[i] == ins[i - 1]);
                assert(r[j] == ins[j - 1]);
            } else {
                assert(r[j] == ins[j - 1]);
            }
        }
        if t.contains(x) {
            assert(rest.contains(x));
            assert(r =~= t);
        }
    }
}

#[verifier::spinoff_prover]
proof fn lemma_drill_sizes(hits: Seq<DrillHit>)
    ensures
        strictly_ascending(drill_sizes(hits)),
        forall|y: i64|
            drill_sizes(hits).contains(y) <==> exists|i: int| 0 <= i < hits.len() && #[trigger] hits[i].drill_nm == y,
    decreases hits.len(),
{
    if hits.len() > 0 {
        let h = hits.drop_last();
        let x = hits.last().drill_nm;
        lemma_drill_sizes(h);
        lemma_insert_size(drill_sizes(h), x);
        assert(drill_sizes(hits) == insert_size(drill_sizes(h), x));
        assert forall|y: i64|
            drill_sizes(hits).contains(y) <==> exists|i: int| 0 <= i < hits.len() && #[trigger] hits[i].drill_nm == y by {
            if drill_sizes(hits).contains(y) {
                if y == x {
                    assert(hits[hits.len() - 1].drill_nm == y);
                } else {
                    assert(drill_sizes(h).contains(y));
                    let i = choose|i: int| 0 <= i < h.len() && #[trigger] h[i].drill_nm == y;
                    assert(hits[i].drill_nm == y);
                }
            }
            if exists|i: int| 0 <= i < hits.len() && #[trigger] hits[i].drill_nm == y {
                let i = choose|i: int| 0 <= i < hits.len() && #[trigger] hits[i].drill_nm == y;
                if i < hits.len() - 1 {
                    assert(h[i].drill_nm == y);
                    assert(drill_sizes(h).contains(y));
                } else {
                    assert(y == x);
                }
            }
        }
    } else {
        assert(drill_sizes(hits) =~= Seq::<i64>::empty());
    }
}

proof fn lemma_no_hits_of_absent_size(hits: Seq<DrillHit>, x: i64)
    requires
        forall|i: int| 0 <= i < hits.len() ==> #[trigger] hits[i].drill_nm != x,
    ensures
        hits_of_size(hits, x) == 0,
    decreases hits.len(),
{
    if hits.len() > 0 {
        let h = hits.drop_last();
        assert forall|i: int| 0 <= i < h.len() implies #[trigger] h[i].drill_nm != x by {
            assert(hits[i].drill_nm != x);
        }
        lemma_no_hits_of_absent_size(h, x);
        assert(hits[hits.len() - 1].drill_nm != x);
    }
}

#[verifier::spinoff_prover]
proof fn lemma_size_total_insert(t: Seq<i64>, x: i64, hits: Seq<DrillHit>)
    requires
        strictly_ascending(t),
    ensures
        size_hit_total(insert_size(t, x), hits) == size_hit_total(t, hits) + if t.contains(x) {
            0
        } else {
            hits_of_size(hits, x)
        },
    decreases t.len(),
{
    if t.len() == 0 {
        let r = seq![x];
        assert(insert_size(t, x) == r);
        assert(r.drop_first() =~= Seq::<i64>::empty());
        assert(size_hit_total(Seq::<i64>::empty(), hits) == 0);
        assert(size_hit_total(r, hits) == hits_of_size(hits, r[0]) + size_hit_total(r.drop_first(), hits));
        assert(size_hit_total(t, hits) == 0);
        assert(!t.contains(x));
    } else if x < t[0] {
        let r = seq![x] + t;
        assert(insert_size(t, x) == r);
        assert(r.drop_first() =~= t);
        assert(r[0] == x);
        assert(size_hit_total(r, hits) == hits_of_size(hits, r[0]) + size_hit_total(r.drop_first(), hits));
        assert(!t.contains(x)) by {
            if t.contains(x) {
                let k = choose|k: int| 0 <= k < t.len() && t[k] == x;
                if k > 0 {
                    assert(t[0] < t[k]);
                }
            }
        }
    } else if x == t[0] {
        assert(insert_size(t, x) == t);
        assert(t.contains(x));
    } else {
        let rest = t.drop_first();
        assert(strictly_ascending(rest)) by {
            assert forall|i: int, j: int| 0 <= i < j < rest.len() implies rest[i] < rest[j] by {
                assert(t[i + 1] < t[j + 1]);
            }
        }
        lemma_size_total_insert(rest, x, hits);
        let ins = insert_size(rest, x);
        let r = seq![t[0]] + ins;
        assert(insert_size(t, x) == r);
        assert(r.drop_first() =~= ins);
        assert(r[0] == t[0]);
        assert(size_hit_total(r, hits) == hits_of_size(hits, r[0]) + size_hit_total(r.drop_first(), hits));
        assert(size_hit_total(t, hits) == hits_of_size(hits, t[0]) + size_hit_total(rest, hits));
        assert(t.contains(x) <==> rest.contains(x)) by {
            if t.contains(x) {
                let k = choose|k: int| 0 <= k < t.len() && t[k] == x;
                assert(k > 0);
                assert(rest[k - 1] == x);
            }
            if rest.contains(x) {
                let k = choose|k: int| 0 <= k < rest.len() && rest[k] == x;
                assert(t[k + 1] == x);
            }
        }
    }
}

#[verifier::spinoff_prover]
proof fn lemma_size_total_push(t: Seq<i64>, hits: Seq<DrillHit>, last: DrillHit)
    requires
        strictly_ascending(t),
    ensures
        size_hit_total(t, hits.push(last)) == size_hit_total(t, hits) + if t.contains(last.drill_nm) {
            1nat
        } else {
            0nat
        },
    decreases t.len(),
{
    if t.len() > 0 {
        let rest = t.drop_first();
        assert(strictly_ascending(rest)) by {
            assert forall|i: int, j: int| 0 <= i < j < rest.len() implies rest[i] < rest[j] by {
                assert(t[i + 1] < t[j + 1]);
            }
        }
        lemma_size_total_push(rest, hits, last);
        assert(hits.push(last).drop_last() =~= hits);
        assert(t.contains(last.drill_nm) <==> (t[0] == last.drill_nm || rest.contains(last.drill_nm))) by {
            let y = last.drill_nm;
            if t.contains(y) {
                let k = choose|k: int| 0 <= k < t.len() && t[k] == y;
                if k > 0 {
                    assert(rest[k - 1] == y);
                }
            }
            if rest.contains(y) {
                let k = choose|k: int| 0 <= k < rest.len() && rest[k] == y;
                assert(t[k + 1] == y);
            }
            if t[0] == y {
                assert(t.contains(y));
            }
        }
        if t[0] == last.drill_nm && rest.contains(last.drill_nm) {
            let k = choose|k: int| 0 <= k < rest.len() && rest[k] == last.drill_nm;
            assert(t[0] < t[k + 1]);
        }
    }
}

/// Every hit is drilled by exactly one tool: the tools' sizes rise
/// strictly, each hit's size is among them, and the tools' hit counts add
/// up to the number of hits.
#[verifier::spinoff_prover]
pub proof fn lemma_tools_account_for_every_hit(hits: Seq<DrillHit>)
    ensures
        strictly_ascending(drill_sizes(hits)),
        forall|i: int| 0 <= i < hits.len() ==> drill_sizes(hits).contains(#[trigger] hits[i].drill_nm),
        size_hit_total(drill_sizes(hits), hits) == hits.len(),
    decreases hits.len(),
{
    lemma_drill_sizes(hits);
    assert forall|i: int| 0 <= i < hits.len() implies drill_sizes(hits).contains(#[trigger] hits[i].drill_nm) by {
        assert(exists|j: int| 0 <= j < hits.len() && #[trigger] hits[j].drill_nm == hits[i].drill_nm);
    }
    if hits.len() > 0 {
        let h = hits.drop_last();
        let x = hits.last().drill_nm;
        let s0 = drill_sizes(h);
        lemma_tools_account_for_every_hit(h);
        lemma_drill_sizes(h);
        lemma_insert_size(s0, x);
        lemma_size_total_insert(s0, x, h);
        if !s0.contains(x) {
            assert forall|i: int| 0 <= i < h.len() implies #[trigger] h[i].drill_nm != x by {
                if h[i].drill_nm == x {
                    assert(exists|j: int| 0 <= j < h.len() && #[trigger] h[j].drill_nm == x);
                }
            }
            lemma_no_hits_of_absent_size(h, x);
        }
        assert(h.push(hits.last()) =~= hits);
        lemma_size_total_push(drill_sizes(hits), h, hits.last());
        assert(drill_sizes(hits).contains(x));
    }
}

/// A tool as a reader keeps it: name, diameter text and hits.
pub type ToolEntry = (Seq<char>, Seq<char>, nat);

/// What an Excellon reader has seen: metric units, the tools by name, the
/// active tool and the hits.
pub type ReaderState = (bool, Seq<ToolEntry>, Option<Seq<char>>, nat);

/// `x` put into `t` by name: before the first tool whose name is not
/// smaller, replacing it when the names are equal.
pub open spec fn insert_tool(t: Seq<ToolEntry>, x: ToolEntry) -> Seq<ToolEntry>
    decreases t.len(),
{
    if t.len() == 0 {
        seq![x]
    } else if text_order(x.0, t[0].0) == PathOrder::Less {
        seq![x] + t
    } else if text_order(x.0, t[0].0) == PathOrder::Equal {
        seq![x] + t.drop_first()
    } else {
        seq![t[0]] + insert_tool(t.drop_first(), x)
    }
}

/// The position of the tool named `name`.
pub open spec fn tool_position(t: Seq<ToolEntry>, name: Seq<char>) -> Option<nat>
    decreases t.len(),
{
    if t.len() == 0 {
        None
    } else if t[0].0 == name {
        Some(0)
    } else {
        match tool_position(t.drop_first(), name) {
            Some(i) => Some(i + 1),
            None => None,
        }
    }
}

/// One line of an Excellon file read: header and end markers are skipped,
/// `METRIC,TZ` sets metric units, `T<n>C<d>` defines a tool with no hits,
/// `T<n>` selects a tool, and an `X` line is a hit of the active tool; a hit
/// without an active tool (`None`) or of an undefined tool (its name) is an
/// error.
pub open spec fn excellon_step(st: ReaderState, raw: Seq<char>) -> Result<ReaderState, Option<Seq<char>>> {
    let t = trim(raw);
    if t.len() == 0 || t == seq!['M', '4', '8'] || t == seq!['%'] || t == seq!['M', '3', '0'] {
        Ok(st)
    } else if t == seq!['M', 'E', 'T', 'R', 'I', 'C', ',', 'T', 'Z'] {
        Ok((true, st.1, st.2, st.3))
    } else if t[0] == 'T' {
        match first_index_of(t.skip(1), 'C') {
            Some(k) => Ok((st.0, insert_tool(st.1, (t.take(k + 1 as int), t.skip(k + 2 as int), 0)), st.2, st.3)),
            None => Ok((st.0, st.1, Some(t), st.3)),
        }
    } else if t[0] == 'X' {
        match st.2 {
            None => Err(None),
            Some(name) => match tool_position(st.1, name) {
                None => Err(Some(name)),
                Some(i) => Ok(
                    (
                        st.0,
                        st.1.update(i as int, (st.1[i as int].0, st.1[i as int].1, st.1[i as int].2 + 1)),
                        st.2,
                        st.3 + 1,
                    ),
                ),
            },
        }
    } else {
        Ok(st)
    }
}

/// The lines read in order from the start, or the first error.
pub open spec fn excellon_run(ls: Seq<Seq<char>>) -> Result<ReaderState, Option<Seq<char>>>
    decreases ls.len(),
{
    if ls.len() == 0 {
        Ok((false, Seq::empty(), None, 0))
    } else {
        match excellon_run(ls.drop_last()) {
            Err(e) => Err(e),
            Ok(st) => excellon_step(st, ls.last()),
        }
    }
}

proof fn lemma_excellon_error_persists(ls: Seq<Seq<char>>, i: int)
    requires
        0 <= i <= ls.len(),
        excellon_run(ls.take(i)) is Err,
    ensures
        excellon_run(ls) == excellon_run(ls.take(i)),
    decreases ls.len() - i,
{
    if i < ls.len() {
        assert(ls.take(i + 1).drop_last() =~= ls.take(i));
        lemma_excellon_error_persists(ls, i + 1);
    } else {
        assert(ls.take(i) =~= ls);
    }
}

/// The tools as a reader keeps them.
pub open spec fn tool_entries(v: Seq<ExcellonTool>) -> Seq<ToolEntry> {
    Seq::new(v.len(), |i: int| (v[i].tool@, v[i].diameter_mm@, v[i].hits as nat))
}

proof fn lemma_insert_tool_skip(t: Seq<ToolEntry>, x: ToolEntry, k: int)
    requires
        0 <= k < t.len(),
        text_order(x.0, t[k].0) == PathOrder::Greater,
    ensures
        insert_tool(t.skip(k), x) == seq![t[k]] + insert_tool(t.skip(k + 1), x),
{
    let u = t.skip(k);
    assert(u[0] == t[k]);
    assert(u.drop_first() =~= t.skip(k + 1));
}

#[verifier::rlimit(30)]
fn insert_tool_entry(out: &mut Vec<ExcellonTool>, x: ExcellonTool, Ghost(bound): Ghost<nat>)
    requires
        x.hits <= bound,
        forall|j: int| 0 <= j < old(out)@.len() ==> (#[trigger] old(out)@[j]).hits <= bound,
    ensures
        tool_entries(final(out)@) == insert_tool(tool_entries(old(out)@), (x.tool@, x.diameter_mm@, x.hits as nat)),
        forall|j: int| 0 <= j < final(out)@.len() ==> (#[trigger] final(out)@[j]).hits <= bound,
{
    let ghost xe = (x.tool@, x.diameter_mm@, x.hits as nat);
    let ghost t = tool_entries(out@);
    let ghost o = out@;
    let xname = chars_of(x.tool.as_str());
    let mut k: usize = 0;
    assert(t.skip(0) =~= t);
    assert(t.take(0) + t.skip(0) =~= t);
    loop
        invariant
            out@ == o,
            t == tool_entries(o),
            t.len() == o.len(),
            xname@ == x.tool@,
            xe == (x.tool@, x.diameter_mm@, x.hits as nat),
            k <= t.len(),
            insert_tool(t, xe) == t.take(k as int) + insert_tool(t.skip(k as int), xe),
        ensures
            out@ == o,
            t == tool_entries(o),
            t.len() == o.len(),
            xname@ == x.tool@,
            xe == (x.tool@, x.diameter_mm@, x.hits as nat),
            k <= t.len(),
            insert_tool(t, xe) == t.take(k as int) + insert_tool(t.skip(k as int), xe),
            k < t.len() ==> text_order(t[k as int].0, xe.0) != PathOrder::Less,
        decreases t.len() - k,
    {
        if k >= out.len() {
            break;
        }
        let name_k = chars_of(out[k].tool.as_str());
        let o_k = compare_text(name_k.as_slice(), xname.as_slice());
        if o_k != PathOrder::Less {
            assert(t[k as int].0 == o[k as int].tool@);
            break;
        }
        proof {
            assert(t[k as int].0 == o[k as int].tool@);
            crate::tally::lemma_text_order_flip(t[k as int].0, xe.0);
            lemma_insert_tool_skip(t, xe, k as int);
            assert(t.take(k as int) + (seq![t[k as int]] + insert_tool(t.skip(k + 1), xe)) =~= t.take(
                k + 1,
            ) + insert_tool(t.skip(k + 1), xe));
        }
        k = k + 1;
    }
    if k < out.len() {
        let name_k = chars_of(out[k].tool.as_str());
        let c = compare_text(xname.as_slice(), name_k.as_slice());
        proof {
            assert(t[k as int].0 == o[k as int].tool@);
            let u = t.skip(k as int);
            assert(u[0] == t[k as int]);
            assert(u.drop_first() =~= t.skip(k + 1));
            crate::tally::lemma_text_order_flip(t[k as int].0, xe.0);
        }
        if c == PathOrder::Equal {
            out.set(k, x);
            proof {
                assert(tool_entries(out@) =~= t.take(k as int) + (seq![xe] + t.skip(k as int).drop_first()));
            }
        } else {
            out.insert(k, x);
            proof {
                assert(tool_entries(out@) =~= t.take(k as int) + (seq![xe] + t.skip(k as int)));
                assert forall|j: int| 0 <= j < out@.len() implies (#[trigger] out@[j]).hits <= bound by {
                    if j < k {
                        assert(out@[j] == o[j]);
                    } else if j > k {
                        assert(out@[j] == o[j - 1]);
                    }
                }
            }
        }
    } else {
        out.push(x);
        proof {
            assert(t.skip(k as int) =~= Seq::<ToolEntry>::empty());
            assert(t.take(k as int) =~= t);
            assert(tool_entries(out@) =~= t.take(k as int) + seq![xe]);
        }
    }
}

fn find_tool(tools: &Vec<ExcellonTool>, name: &Vec<char>) -> (r: Option<usize>)
    ensures
        match r {
            Some(i) => i < tools@.len() && tool_position(tool_entries(tools@), name@) == Some(i as nat),
            None => tool_position(tool_entries(tools@), name@) is None,
        },
{
    let ghost t = tool_entries(tools@);
    let mut k: usize = 0;
    assert(t.skip(0) =~= t);
    while k < tools.len()
        invariant
            k <= tools@.len(),
            t == tool_entries(tools@),
            forall|j: int| 0 <= j < k ==> t[j].0 != name@,
        decreases tools.len() - k,
    {
        if chars_eq(chars_of(tools[k].tool.as_str()).as_slice(), name.as_slice()) {
            proof {
                lemma_tool_position_found(t, name@, k as int);
            }
            return Some(k);
        }
        k = k + 1;
    }
    proof {
        lemma_tool_position_absent(t, name@);
    }
    None
}

proof fn lemma_tool_position_found(t: Seq<ToolEntry>, name: Seq<char>, k: int)
    requires
        0 <= k < t.len(),
        t[k].0 == name,
        forall|j: int| 0 <= j < k ==> t[j].0 != name,
    ensures
        tool_position(t, name) == Some(k as nat),
    decreases k,
{
    if k > 0 {
        lemma_tool_position_found(t.drop_first(), name, k - 1);
    }
}

proof fn lemma_tool_position_absent(t: Seq<ToolEntry>, name: Seq<char>)
    requires
        forall|j: int| 0 <= j < t.len() ==> t[j].0 != name,
    ensures
        tool_position(t, name) is None,
    decreases t.len(),
{
    if t.len() > 0 {
        lemma_tool_position_absent(t.drop_first(), name);
    }
}

/// The view of optional characters.
pub open spec fn opt_chars(o: Option<Vec<char>>) -> Option<Seq<char>> {
    match o {
        Some(c) => Some(c@),
        None => None,
    }
}

/// Why an Excellon file cannot be read.
#[derive(Debug, PartialEq, Eq)]
pub enum ExcellonError {
    /// A hit comes before any tool is selected.
    NoActiveTool,
    /// A hit uses a tool that no line defined.
    UnknownTool { tool: String },
}

/// An Excellon file read back.
pub struct ExcellonInspection {
    pub metric: bool,
    pub tool_count: usize,
    pub hit_count: usize,
    pub tools: Vec<ExcellonTool>,
}

/// An Excellon file read back: whether it is metric, its tools in order of
/// name with their hits, and the number of hits.
pub fn inspect_excellon_drill(contents: &str) -> (r: Result<ExcellonInspection, ExcellonError>)
    ensures
        match excellon_run(lines(contents@)) {
            Ok(st) => r is Ok && r.unwrap().metric == st.0 && tool_entries(r.unwrap().tools@) == st.1
                && r.unwrap().hit_count == st.3 && r.unwrap().tool_count == st.1.len(),
            Err(None) => r == Err::<ExcellonInspection, ExcellonError>(ExcellonError::NoActiveTool),
            Err(Some(name)) => r matches Err(ExcellonError::UnknownTool { tool }) && tool@ == name,
        },
{
    let text = chars_of(contents);
    let ls = split_lines(text.as_slice());
    let ghost sl = lines(contents@);
    let mut metric = false;
    let mut tools: Vec<ExcellonTool> = Vec::new();
    let mut current: Option<Vec<char>> = None;
    let mut hit_count: usize = 0;
    let mut i: usize = 0;
    assert(sl.take(0) =~= Seq::<Seq<char>>::empty());
    assert(tool_entries(tools@) =~= Seq::<ToolEntry>::empty());
    while i < ls.len()
        invariant
            i <= ls@.len(),
            ls@.len() == sl.len(),
            sl == lines(contents@),
            forall|k: int| 0 <= k < ls@.len() ==> #[trigger] ls@[k]@ == sl[k],
            hit_count <= i,
            forall|j: int| 0 <= j < tools@.len() ==> (#[trigger] tools@[j]).hits <= hit_count,
            excellon_run(sl.take(i as int)) == Ok::<ReaderState, Option<Seq<char>>>(
                (
                    metric,
                    tool_entries(tools@),
                    opt_chars(current),
                    hit_count as nat,
                ),
            ),
        decreases ls.len() - i,
    {
        let ghost st = (
            metric,
            tool_entries(tools@),
            opt_chars(current),
            hit_count as nat,
        );
        proof {
            let next = sl.take(i + 1);
            assert(next.drop_last() =~= sl.take(i as int));
            assert(next.last() == sl[i as int]);
            assert(ls@[i as int]@ == sl[i as int]);
        }
        let t = trim_chars(ls[i].as_slice());
        if t.len() == 0 || chars_eq(t.as_slice(), &['M', '4', '8']) || chars_eq(t.as_slice(), &['%'])
            || chars_eq(t.as_slice(), &['M', '3', '0']) {
        } else if chars_eq(t.as_slice(), &['M', 'E', 'T', 'R', 'I', 'C', ',', 'T', 'Z']) {
            metric = true;
        } else if t[0] == 'T' {
            let mut j: usize = 1;
            while j < t.len() && t[j] != 'C'
                invariant
                    1 <= j <= t.len(),
                    forall|q: int| 1 <= q < j ==> t@[q] != 'C',
                decreases t.len() - j,
            {
                j = j + 1;
            }
            if j < t.len() {
                proof {
                    crate::text::lemma_first_index_found(t@.skip(1), 'C', j - 1);
                }
                let name = crate::text::copy_range(t.as_slice(), 0, j);
                let dia = crate::text::copy_range(t.as_slice(), j + 1, t.len());
                proof {
                    assert(name@ =~= t@.take(j as int));
                    assert(dia@ =~= t@.skip(j + 1));
                }
                insert_tool_entry(
                    &mut tools,
                    ExcellonTool {
                        tool: string_from_chars(name.as_slice()),
                        diameter_mm: string_from_chars(dia.as_slice()),
                        hits: 0,
                    },
                    Ghost(hit_count as nat),
                );
            } else {
                proof {
                    crate::text::lemma_first_index_absent(t@.skip(1), 'C');
                }
                current = Some(t);
            }
        } else if t[0] == 'X' {
            match &current {
                None => {
                    proof {
                        lemma_excellon_error_persists(sl, i + 1);
                    }
                    return Err(ExcellonError::NoActiveTool);
                },
                Some(name) => {
                    match find_tool(&tools, name) {
                        None => {
                            proof {
                                lemma_excellon_error_persists(sl, i + 1);
                            }
                            return Err(ExcellonError::UnknownTool { tool: string_from_chars(name.as_slice()) });
                        },
                        Some(k) => {
                            let old_tool = &tools[k];
                            let bumped = ExcellonTool {
                                tool: copy_text(&old_tool.tool),
                                diameter_mm: copy_text(&old_tool.diameter_mm),
                                hits: old_tool.hits + 1,
                            };
                            let ghost before = tools@;
                            tools.set(k, bumped);
                            hit_count = hit_count + 1;
                            proof {
                                assert(tool_entries(tools@) =~= tool_entries(before).update(
                                    k as int,
                                    (
                                        tool_entries(before)[k as int].0,
                                        tool_entries(before)[k as int].1,
                                        tool_entries(before)[k as int].2 + 1,
                                    ),
                                ));
                                assert forall|j: int| 0 <= j < tools@.len() implies (#[trigger] tools@[j]).hits
                                    <= hit_count by {
                                    if j != k {
                                        assert(tools@[j] == before[j]);
                                    }
                                }
                            }
                        },
                    }
                },
            }
        }
        i = i + 1;
    }
    assert(sl.take(ls.len() as int) =~= sl);
    let n = tools.len();
    Ok(ExcellonInspection { metric, tool_count: n, hit_count, tools })
}

/// The hits of a tool, keyed by its diameter.
pub struct DiameterHits {
    pub diameter_mm: String,
    pub hits: usize,
}

impl Referenced for DiameterHits {
    open spec fn ref_view(&self) -> Seq<char> {
        self.diameter_mm@
    }

    fn reference_text(&self) -> (r: &String) {
        &self.diameter_mm
    }

    fn duplicate(&self) -> (r: Self) {
        DiameterHits { diameter_mm: copy_text(&self.diameter_mm), hits: self.hits }
    }
}

/// The diameters and hits of tools.
pub open spec fn tool_hits_view(v: Seq<ExcellonTool>) -> Seq<DiameterHits> {
    Seq::new(v.len(), |i: int| DiameterHits { diameter_mm: v[i].diameter_mm, hits: v[i].hits })
}

/// Diameters of expected entries whose actual entry has `pick`: equal hits
/// (`Some(true)`), other hits (`Some(false)`), or none (`None`).
pub open spec fn diameters_where(ke: Seq<DiameterHits>, ka: Seq<DiameterHits>, pick: Option<bool>) -> Seq<Seq<char>>
    decreases ke.len(),
{
    if ke.len() == 0 {
        Seq::empty()
    } else {
        let rest = diameters_where(ke.drop_last(), ka, pick);
        let e = ke.last();
        let found = match find_ref(ka, e.diameter_mm@) {
            Some(a) => Some(a.hits == e.hits),
            None => None,
        };
        if found == pick {
            rest.push(e.diameter_mm@)
        } else {
            rest
        }
    }
}

/// Expected entries whose actual entry has other hits: the diameter and both
/// counts.
pub open spec fn hit_drifts(ke: Seq<DiameterHits>, ka: Seq<DiameterHits>) -> Seq<(Seq<char>, nat, nat)>
    decreases ke.len(),
{
    if ke.len() == 0 {
        Seq::empty()
    } else {
        let rest = hit_drifts(ke.drop_last(), ka);
        let e = ke.last();
        match find_ref(ka, e.diameter_mm@) {
            Some(a) => if a.hits != e.hits {
                rest.push((e.diameter_mm@, e.hits as nat, a.hits as nat))
            } else {
                rest
            },
            None => rest,
        }
    }
}

/// A diameter whose hit counts differ.
pub struct HitDrift {
    pub diameter_mm: String,
    pub expected_hits: usize,
    pub actual_hits: usize,
}

/// Tool hits compared by diameter.
pub struct ToolHitComparison {
    pub matched: Vec<String>,
    pub missing: Vec<String>,
    pub extra: Vec<String>,
    pub hit_drift: Vec<HitDrift>,
}

/// `c` compares the expected entries `ke` with the actual `ka`, both keyed
/// by diameter.
pub open spec fn compares_hits(c: ToolHitComparison, ke: Seq<DiameterHits>, ka: Seq<DiameterHits>) -> bool {
    &&& texts_view(c.matched@) == diameters_where(ke, ka, Some(true))
    &&& texts_view(c.missing@) == diameters_where(ke, ka, None)
    &&& texts_view(c.extra@) == diameters_where(ka, ke, None)
    &&& c.hit_drift@.len() == hit_drifts(ke, ka).len()
    &&& forall|i: int|
        0 <= i < c.hit_drift@.len() ==> (#[trigger] c.hit_drift@[i]).diameter_mm@ == hit_drifts(ke, ka)[i].0
            && c.hit_drift@[i].expected_hits == hit_drifts(ke, ka)[i].1 && c.hit_drift@[i].actual_hits
            == hit_drifts(ke, ka)[i].2
}

fn push_text_view(out: &mut Vec<String>, s: &String)
    ensures
        texts_view(final(out)@) == texts_view(old(out)@).push(s@),
{
    out.push(copy_text(s));
    proof {
        assert(texts_view(out@) =~= texts_view(old(out)@).push(s@));
    }
}

/// Tool hits compared by diameter, each side keyed by diameter (a later
/// tool of one diameter replacing an earlier): diameters with equal hits,
/// diameters the file lacks, diameters the board lacks, and diameters whose
/// hits differ, each in ascending order.
pub fn compare_tool_hits(expected: &[DiameterHits], actual: &[DiameterHits]) -> (r: ToolHitComparison)
    ensures
        compares_hits(r, by_reference(expected@), by_reference(actual@)),
{
    let ke = keyed_by_reference(expected);
    let ka = keyed_by_reference(actual);
    let mut matched: Vec<String> = Vec::new();
    let mut missing: Vec<String> = Vec::new();
    let mut extra: Vec<String> = Vec::new();
    let mut drift: Vec<HitDrift> = Vec::new();
    let mut i: usize = 0;
    assert(ke@.take(0) =~= Seq::<DiameterHits>::empty());
    assert(texts_view(matched@) =~= Seq::<Seq<char>>::empty());
    assert(texts_view(missing@) =~= Seq::<Seq<char>>::empty());
    assert(texts_view(extra@) =~= Seq::<Seq<char>>::empty());
    while i < ke.len()
        invariant
            i <= ke.len(),
            texts_view(matched@) == diameters_where(ke@.take(i as int), ka@, Some(true)),
            texts_view(missing@) == diameters_where(ke@.take(i as int), ka@, None),
            drift@.len() == hit_drifts(ke@.take(i as int), ka@).len(),
            forall|k: int|
                0 <= k < drift@.len() ==> (#[trigger] drift@[k]).diameter_mm@ == hit_drifts(
                    ke@.take(i as int),
                    ka@,
                )[k].0 && drift@[k].expected_hits == hit_drifts(ke@.take(i as int), ka@)[k].1
                    && drift@[k].actual_hits == hit_drifts(ke@.take(i as int), ka@)[k].2,
        decreases ke.len() - i,
    {
        let e = &ke[i];
        proof {
            let next = ke@.take(i + 1);
            assert(next.drop_last() =~= ke@.take(i as int));
            assert(next.last() == ke@[i as int]);
        }
        match find_by_reference(ka.as_slice(), &e.diameter_mm) {
            Some(j) => {
                if ka[j].hits == e.hits {
                    push_text_view(&mut matched, &e.diameter_mm);
                } else {
                    drift.push(
                        HitDrift {
                            diameter_mm: copy_text(&e.diameter_mm),
                            expected_hits: e.hits,
                            actual_hits: ka[j].hits,
                        },
                    );
                }
            },
            None => {
                push_text_view(&mut missing, &e.diameter_mm);
            },
        }
        i = i + 1;
    }
    assert(ke@.take(ke.len() as int) =~= ke@);
    let mut k: usize = 0;
    assert(ka@.take(0) =~= Seq::<DiameterHits>::empty());
    while k < ka.len()
        invariant
            k <= ka.len(),
            texts_view(extra@) == diameters_where(ka@.take(k as int), ke@, None),
        decreases ka.len() - k,
    {
        proof {
            let next = ka@.take(k + 1);
            assert(next.drop_last() =~= ka@.take(k as int));
            assert(next.last() == ka@[k as int]);
        }
        if find_by_reference(ke.as_slice(), &ka[k].diameter_mm).is_none() {
            push_text_view(&mut extra, &ka[k].diameter_mm);
        }
        k = k + 1;
    }
    assert(ka@.take(ka.len() as int) =~= ka@);
    ToolHitComparison { matched, missing, extra, hit_drift: drift }
}

/// `t` are the tools the hits need, as the tool builder makes them.
pub open spec fn tools_for_hits(t: Seq<ExcellonTool>, hits: Seq<DrillHit>) -> bool {
    &&& t.len() == drill_sizes(hits).len()
    &&& forall|k: int|
        0 <= k < t.len() ==> (#[trigger] t[k]).tool@ == tool_name(k as nat) && t[k].diameter_mm@
            == mm6_text(drill_sizes(hits)[k] as int) && t[k].hits == hits_of_size(hits, drill_sizes(hits)[k])
}

fn tool_hits(tools: &[ExcellonTool]) -> (r: Vec<DiameterHits>)
    ensures
        r@ == tool_hits_view(tools@),
{
    let mut out: Vec<DiameterHits> = Vec::new();
    let mut i: usize = 0;
    while i < tools.len()
        invariant
            i <= tools.len(),
            out@ == tool_hits_view(tools@.take(i as int)),
        decreases tools.len() - i,
    {
        out.push(DiameterHits { diameter_mm: copy_text(&tools[i].diameter_mm), hits: tools[i].hits });
        proof {
            assert(out@ =~= tool_hits_view(tools@.take(i + 1)));
        }
        i = i + 1;
    }
    assert(tools@.take(tools.len() as int) =~= tools@);
    out
}

/// The board's drill hits compared with an Excellon file read back.
pub struct ExcellonComparison {
    pub expected_tool_count: usize,
    pub actual_tool_count: usize,
    pub expected_hit_count: usize,
    pub actual_hit_count: usize,
    pub tools: ToolHitComparison,
}

/// The tools the board's drill hits need compared with those of an
/// Excellon file read back, by diameter.
pub fn compare_native_project_excellon_drill(hits: &[DrillHit], actual: &ExcellonInspection) -> (r:
    ExcellonComparison)
    ensures
        exists|et: Seq<ExcellonTool>|
            tools_for_hits(et, hits@) && r.expected_tool_count == et.len() && compares_hits(
                r.tools,
                by_reference(tool_hits_view(et)),
                by_reference(tool_hits_view(actual.tools@)),
            ),
        r.actual_tool_count == actual.tools@.len(),
        r.expected_hit_count == hits@.len(),
        r.actual_hit_count == actual.hit_count,
{
    let expected_tools = build_excellon_tool_views_for_drill_hits(hits);
    let e = tool_hits(expected_tools.as_slice());
    let a = tool_hits(actual.tools.as_slice());
    let c = compare_tool_hits(e.as_slice(), a.as_slice());
    assert(tools_for_hits(expected_tools@, hits@));
    ExcellonComparison {
        expected_tool_count: expected_tools.len(),
        actual_tool_count: actual.tools.len(),
        expected_hit_count: hits.len(),
        actual_hit_count: actual.hit_count,
        tools: c,
    }
}

/// The smallest of the layers.
pub open spec fn min_layer(ls: Seq<i32>) -> Option<i32>
    decreases ls.len(),
{
    if ls.len() == 0 {
        None
    } else {
        match min_layer(ls.drop_last()) {
            None => Some(ls.last()),
            Some(m) => Some(if ls.last() < m { ls.last() } else { m }),
        }
    }
}

/// The largest of the layers.
pub open spec fn max_layer(ls: Seq<i32>) -> Option<i32>
    decreases ls.len(),
{
    if ls.len() == 0 {
        None
    } else {
        match max_layer(ls.drop_last()) {
            None => Some(ls.last()),
            Some(m) => Some(if ls.last() > m { ls.last() } else { m }),
        }
    }
}

/// The class of a hole by rank: `blind`, `buried`, `through`,
/// `unclassified` (alphabetical order).
pub open spec fn class_text(rank: u8) -> Seq<char> {
    if rank == 0 {
        seq!['b', 'l', 'i', 'n', 'd']
    } else if rank == 1 {
        seq!['b', 'u', 'r', 'i', 'e', 'd']
    } else if rank == 2 {
        seq!['t', 'h', 'r', 'o', 'u', 'g', 'h']
    } else {
        seq!['u', 'n', 'c', 'l', 'a', 's', 's', 'i', 'f', 'i', 'e', 'd']
    }
}

/// The rank of the class of a hole from `start` to `end`.
pub open spec fn class_rank(start: i32, end: i32, top: Option<i32>, bottom: Option<i32>) -> u8 {
    match (top, bottom) {
        (Some(t), Some(b)) => if start == t && end == b {
            2
        } else if start == t || end == b {
            0
        } else {
            1
        },
        _ => 3,
    }
}

/// Ranks order classes as their names do.
pub proof fn lemma_class_rank_order(a: u8, b: u8)
    requires
        a < b <= 3,
    ensures
        text_order(class_text(a), class_text(b)) == PathOrder::Less,
{
    reveal_with_fuel(text_order, 3);
}

/// The group of a hit: its class rank and its span, lower layer first.
pub open spec fn hit_group(h: DrillHit, top: Option<i32>, bottom: Option<i32>) -> (u8, i32, i32) {
    let start = if h.from_layer < h.to_layer { h.from_layer } else { h.to_layer };
    let end = if h.from_layer < h.to_layer { h.to_layer } else { h.from_layer };
    (class_rank(start, end, top, bottom), start, end)
}

/// Group keys ordered by class, then start, then end.
pub open spec fn group_lt(a: (u8, i32, i32), b: (u8, i32, i32)) -> bool {
    a.0 < b.0 || (a.0 == b.0 && (a.1 < b.1 || (a.1 == b.1 && a.2 < b.2)))
}

/// `x` put into the ascending list `t` unless it is there already.
pub open spec fn insert_group(t: Seq<(u8, i32, i32)>, x: (u8, i32, i32)) -> Seq<(u8, i32, i32)>
    decreases t.len(),
{
    if t.len() == 0 {
        seq![x]
    } else if group_lt(x, t[0]) {
        seq![x] + t
    } else if x == t[0] {
        t
    } else {
        seq![t[0]] + insert_group(t.drop_first(), x)
    }
}

/// The distinct groups of the hits, ascending.
pub open spec fn hole_groups(hits: Seq<DrillHit>, top: Option<i32>, bottom: Option<i32>) -> Seq<(u8, i32, i32)>
    decreases hits.len(),
{
    if hits.len() == 0 {
        Seq::empty()
    } else {
        insert_group(hole_groups(hits.drop_last(), top, bottom), hit_group(hits.last(), top, bottom))
    }
}

/// The hits of the group `g`, in order.
pub open spec fn hits_in_group(hits: Seq<DrillHit>, g: (u8, i32, i32), top: Option<i32>, bottom: Option<i32>) -> Seq<
    DrillHit,
>
    decreases hits.len(),
{
    if hits.len() == 0 {
        Seq::empty()
    } else {
        let rest = hits_in_group(hits.drop_last(), g, top, bottom);
        if hit_group(hits.last(), top, bottom) == g {
            rest.push(hits.last())
        } else {
            rest
        }
    }
}

/// How many hits are of the kind `kind`.
pub open spec fn hits_of_kind(hits: Seq<DrillHit>, kind: DrillHitKind) -> nat
    decreases hits.len(),
{
    if hits.len() == 0 {
        0
    } else {
        hits_of_kind(hits.drop_last(), kind) + if hits.last().kind == kind {
            1nat
        } else {
            0nat
        }
    }
}

fn layer_bounds(layers: &[i32]) -> (r: (Option<i32>, Option<i32>))
    ensures
        r.0 == min_layer(layers@),
        r.1 == max_layer(layers@),
{
    let mut lo: Option<i32> = None;
    let mut hi: Option<i32> = None;
    let mut i: usize = 0;
    assert(layers@.take(0) =~= Seq::<i32>::empty());
    while i < layers.len()
        invariant
            i <= layers.len(),
            lo == min_layer(layers@.take(i as int)),
            hi == max_layer(layers@.take(i as int)),
        decreases layers.len() - i,
    {
        let v = layers[i];
        proof {
            let next = layers@.take(i + 1);
            assert(next.drop_last() =~= layers@.take(i as int));
            assert(next.last() == v);
        }
        lo = match lo {
            None => Some(v),
            Some(m) => Some(if v < m { v } else { m }),
        };
        hi = match hi {
            None => Some(v),
            Some(m) => Some(if v > m { v } else { m }),
        };
        i = i + 1;
    }
    assert(layers@.take(layers.len() as int) =~= layers@);
    (lo, hi)
}

fn group_of(h: &DrillHit, top: Option<i32>, bottom: Option<i32>) -> (g: (u8, i32, i32))
    ensures
        g == hit_group(*h, top, bottom),
{
    let start = if h.from_layer < h.to_layer { h.from_layer } else { h.to_layer };
    let end = if h.from_layer < h.to_layer { h.to_layer } else { h.from_layer };
    let rank: u8 = match (top, bottom) {
        (Some(t), Some(b)) => if start == t && end == b {
            2
        } else if start == t || end == b {
            0
        } else {
            1
        },
        _ => 3,
    };
    (rank, start, end)
}

fn insert_hole_group(out: &mut Vec<(u8, i32, i32)>, x: (u8, i32, i32))
    ensures
        final(out)@ == insert_group(old(out)@, x),
{
    let ghost t = out@;
    let mut k: usize = 0;
    assert(t.skip(0) =~= t);
    assert(t.take(0) + t.skip(0) =~= t);
    while k < out.len() && (out[k].0 < x.0 || (out[k].0 == x.0 && (out[k].1 < x.1 || (out[k].1 == x.1
        && out[k].2 < x.2))))
        invariant
            out@ == t,
            k <= t.len(),
            insert_group(t, x) == t.take(k as int) + insert_group(t.skip(k as int), x),
        decreases t.len() - k,
    {
        proof {
            let u = t.skip(k as int);
            assert(u[0] == t[k as int]);
            assert(u.drop_first() =~= t.skip(k + 1));
            assert(t.take(k as int) + (seq![t[k as int]] + insert_group(t.skip(k + 1), x))
                =~= t.take(k + 1) + insert_group(t.skip(k + 1), x));
        }
        k = k + 1;
    }
    if k < out.len() {
        proof {
            let u = t.skip(k as int);
            assert(u[0] == t[k as int]);
        }
        if !(out[k].0 == x.0 && out[k].1 == x.1 && out[k].2 == x.2) {
            out.insert(k, x);
            proof {
                assert(out@ =~= t.take(k as int) + (seq![x] + t.skip(k as int)));
            }
        } else {
            assert(t.take(k as int) + t.skip(k as int) =~= t);
        }
    } else {
        out.push(x);
        proof {
            assert(t.skip(k as int) =~= Seq::<(u8, i32, i32)>::empty());
            assert(t.take(k as int) =~= t);
            assert(out@ =~= t.take(k as int) + seq![x]);
        }
    }
}

fn group_hits(hits: &[DrillHit], g: (u8, i32, i32), top: Option<i32>, bottom: Option<i32>) -> (r: Vec<DrillHit>)
    ensures
        r@ == hits_in_group(hits@, g, top, bottom),
{
    let mut out: Vec<DrillHit> = Vec::new();
    let mut i: usize = 0;
    assert(hits@.take(0) =~= Seq::<DrillHit>::empty());
    while i < hits.len()
        invariant
            i <= hits.len(),
            out@ == hits_in_group(hits@.take(i as int), g, top, bottom),
        decreases hits.len() - i,
    {
        proof {
            let next = hits@.take(i + 1);
            assert(next.drop_last() =~= hits@.take(i as int));
            assert(next.last() == hits@[i as int]);
        }
        let h = group_of(&hits[i], top, bottom);
        if h.0 == g.0 && h.1 == g.1 && h.2 == g.2 {
            out.push(hits[i]);
        }
        i = i + 1;
    }
    assert(hits@.take(hits.len() as int) =~= hits@);
    out
}

fn count_kind_hits(hits: &[DrillHit], kind: DrillHitKind) -> (n: usize)
    ensures
        n == hits_of_kind(hits@, kind),
{
    let mut n: usize = 0;
    let mut i: usize = 0;
    assert(hits@.take(0) =~= Seq::<DrillHit>::empty());
    while i < hits.len()
        invariant
            i <= hits.len(),
            n <= i,
            n == hits_of_kind(hits@.take(i as int), kind),
        decreases hits.len() - i,
    {
        proof {
            let next = hits@.take(i + 1);
            assert(next.drop_last() =~= hits@.take(i as int));
            assert(next.last() == hits@[i as int]);
        }
        if hits[i].kind == kind {
            n = n + 1;
        }
        i = i + 1;
    }
    assert(hits@.take(hits.len() as int) =~= hits@);
    n
}

/// The holes of one class and span.
pub struct HoleClassBucket {
    pub class: String,
    pub from_layer: i32,
    pub to_layer: i32,
    pub via_count: usize,
    pub component_pad_count: usize,
    pub hit_count: usize,
    pub tool_count: usize,
    pub tools: Vec<ExcellonTool>,
}

/// The drill hits grouped by hole class and span.
pub struct HoleClassReport {
    pub copper_layer_count: usize,
    pub via_count: usize,
    pub component_pad_count: usize,
    pub hit_count: usize,
    pub class_count: usize,
    pub classes: Vec<HoleClassBucket>,
}

/// `b` describes the hits of the group `g`.
pub open spec fn describes_bucket(b: HoleClassBucket, g: (u8, i32, i32), group: Seq<DrillHit>) -> bool {
    &&& b.class@ == class_text(g.0)
    &&& b.from_layer == g.1
    &&& b.to_layer == g.2
    &&& b.via_count == hits_of_kind(group, DrillHitKind::Via)
    &&& b.component_pad_count == hits_of_kind(group, DrillHitKind::ComponentPad)
    &&& b.hit_count == group.len()
    &&& tools_for_hits(b.tools@, group)
    &&& b.tool_count == b.tools@.len()
}

fn class_name(rank: u8) -> (s: String)
    ensures
        s@ == class_text(rank),
{
    if rank == 0 {
        text_of(&['b', 'l', 'i', 'n', 'd'])
    } else if rank == 1 {
        text_of(&['b', 'u', 'r', 'i', 'e', 'd'])
    } else if rank == 2 {
        text_of(&['t', 'h', 'r', 'o', 'u', 'g', 'h'])
    } else {
        text_of(&['u', 'n', 'c', 'l', 'a', 's', 's', 'i', 'f', 'i', 'e', 'd'])
    }
}

/// The drill hits grouped by hole class (the outer copper layers being the
/// smallest and largest copper layer ids) and by span, lower layer first;
/// groups ascend by class name, then start, then end, and each has its
/// counts and the tools its hits need.
pub fn report_native_project_drill_hole_classes(hits: &[DrillHit], copper_layers: &[i32]) -> (r: HoleClassReport)
    ensures
        ({
            let top = min_layer(copper_layers@);
            let bottom = max_layer(copper_layers@);
            let groups = hole_groups(hits@, top, bottom);
            &&& r.copper_layer_count == copper_layers@.len()
            &&& r.via_count == hits_of_kind(hits@, DrillHitKind::Via)
            &&& r.component_pad_count == hits_of_kind(hits@, DrillHitKind::ComponentPad)
            &&& r.hit_count == hits@.len()
            &&& r.class_count == groups.len()
            &&& r.classes@.len() == groups.len()
            &&& forall|k: int|
                0 <= k < groups.len() ==> describes_bucket(
                    #[trigger] r.classes@[k],
                    groups[k],
                    hits_in_group(hits@, groups[k], top, bottom),
                )
        }),
{
    let (top, bottom) = layer_bounds(copper_layers);
    let mut groups: Vec<(u8, i32, i32)> = Vec::new();
    let mut i: usize = 0;
    assert(hits@.take(0) =~= Seq::<DrillHit>::empty());
    while i < hits.len()
        invariant
            i <= hits.len(),
            groups@ == hole_groups(hits@.take(i as int), top, bottom),
        decreases hits.len() - i,
    {
        let g = group_of(&hits[i], top, bottom);
        insert_hole_group(&mut groups, g);
        proof {
            let next = hits@.take(i + 1);
            assert(next.drop_last() =~= hits@.take(i as int));
            assert(next.last() == hits@[i as int]);
        }
        i = i + 1;
    }
    assert(hits@.take(hits.len() as int) =~= hits@);
    let mut classes: Vec<HoleClassBucket> = Vec::new();
    let mut k: usize = 0;
    while k < groups.len()
        invariant
            k <= groups.len(),
            groups@ == hole_groups(hits@, top, bottom),
            classes@.len() == k,
            forall|j: int|
                0 <= j < k ==> describes_bucket(
                    #[trigger] classes@[j],
                    groups@[j],
                    hits_in_group(hits@, groups@[j], top, bottom),
                ),
        decreases groups.len() - k,
    {
        let g = groups[k];
        let members = group_hits(hits, g, top, bottom);
        let tools = build_excellon_tool_views_for_drill_hits(members.as_slice());
        let bucket = HoleClassBucket {
            class: class_name(g.0),
            from_layer: g.1,
            to_layer: g.2,
            via_count: count_kind_hits(members.as_slice(), DrillHitKind::Via),
            component_pad_count: count_kind_hits(members.as_slice(), DrillHitKind::ComponentPad),
            hit_count: members.len(),
            tool_count: tools.len(),
            tools,
        };
        assert(describes_bucket(bucket, g, members@));
        classes.push(bucket);
        k = k + 1;
    }
    HoleClassReport {
        copper_layer_count: copper_layers.len(),
        via_count: count_kind_hits(hits, DrillHitKind::Via),
        component_pad_count: count_kind_hits(hits, DrillHitKind::ComponentPad),
        hit_count: hits.len(),
        class_count: classes.len(),
        classes,
    }
}

/// The manufacturing outputs of a board in numbers.
pub struct ManufacturingReport {
    pub bom_component_count: usize,
    pub pnp_component_count: usize,
    pub drill_csv_row_count: usize,
    pub excellon_via_count: usize,
    pub excellon_component_pad_count: usize,
    pub excellon_hit_count: usize,
    pub drill_hole_class_count: usize,
    pub gerber_artifact_count: usize,
}

/// The manufacturing outputs of a board in numbers: one BOM and one
/// pick-and-place row per component, one drill CSV row per via, the drill
/// hits and hole classes, and the planned Gerber artifacts.
pub fn report_native_project_manufacturing(
    component_count: usize,
    via_count: usize,
    hits: &[DrillHit],
    copper_layers: &[i32],
    gerber_artifact_count: usize,
) -> (r: ManufacturingReport)
    ensures
        r.bom_component_count == component_count,
        r.pnp_component_count == component_count,
        r.drill_csv_row_count == via_count,
        r.excellon_via_count == hits_of_kind(hits@, DrillHitKind::Via),
        r.excellon_component_pad_count == hits_of_kind(hits@, DrillHitKind::ComponentPad),
        r.excellon_hit_count == hits@.len(),
        r.drill_hole_class_count == hole_groups(hits@, min_layer(copper_layers@), max_layer(copper_layers@)).len(),
        r.gerber_artifact_count == gerber_artifact_count,
{
    let holes = report_native_project_drill_hole_classes(hits, copper_layers);
    ManufacturingReport {
        bom_component_count: component_count,
        pnp_component_count: component_count,
        drill_csv_row_count: via_count,
        excellon_via_count: holes.via_count,
        excellon_component_pad_count: holes.component_pad_count,
        excellon_hit_count: holes.hit_count,
        drill_hole_class_count: holes.class_count,
        gerber_artifact_count,
    }
}

} // verus!
