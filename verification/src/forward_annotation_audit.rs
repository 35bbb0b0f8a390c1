//! The forward-annotation audit: schematic symbols and board components
//! matched by reference, and the actions proposed from what differs.
use vstd::prelude::*;
use crate::forward_annotation::{
    ProposalAction, copy_opt_text, copy_text, compare_strings, count_kind, lit_add_component,
    lit_remove_component, lit_update_component, lit_value_mismatch, lit_part_mismatch,
    lit_board_component_missing_in_schematic, lit_symbol_missing_on_board,
    lit_symbol_missing_on_board_unresolved_part, text_is, text_of,
};
use crate::geometry::PathOrder;
use crate::ids::{hex_text, sha256_hex, sha256_of, uuid_text, uuid_text_of};
use crate::ordering::{
    insert_sorted, is_key_sorted, key_gt, lemma_stable_sorted_members, stable_sort_by_key, stable_sorted,
};
use crate::render::push_chars;
use crate::text::chars_of;
use vstd::utf8::encode_utf8;
use crate::tally::text_order;
use crate::text::string_from_chars;

verus! {

/// A schematic symbol as the audit reads it.
pub struct SchematicSymbol {
    pub uuid: u128,
    pub sheet: u128,
    pub reference: String,
    pub value: String,
    pub part_uuid: Option<u128>,
}

/// A placed board component as the audit reads it.
pub struct BoardComponent {
    pub uuid: u128,
    pub reference: String,
    pub value: String,
    pub part: u128,
}

/// Records that carry a reference designator.
pub trait Referenced: Sized {
    spec fn ref_view(&self) -> Seq<char>;

    fn reference_text(&self) -> (r: &String)
        ensures
            r@ == self.ref_view(),
    ;

    fn duplicate(&self) -> (r: Self)
        ensures
            r == *self,
    ;
}

impl Referenced for SchematicSymbol {
    open spec fn ref_view(&self) -> Seq<char> {
        self.reference@
    }

    fn reference_text(&self) -> (r: &String) {
        &self.reference
    }

    fn duplicate(&self) -> (r: Self) {
        SchematicSymbol {
            uuid: self.uuid,
            sheet: self.sheet,
            reference: copy_text(&self.reference),
            value: copy_text(&self.value),
            part_uuid: self.part_uuid,
        }
    }
}

impl Referenced for BoardComponent {
    open spec fn ref_view(&self) -> Seq<char> {
        self.reference@
    }

    fn reference_text(&self) -> (r: &String) {
        &self.reference
    }

    fn duplicate(&self) -> (r: Self) {
        BoardComponent {
            uuid: self.uuid,
            reference: copy_text(&self.reference),
            value: copy_text(&self.value),
            part: self.part,
        }
    }
}

/// `x` put into `t` by reference: before the first record whose reference
/// is not smaller, replacing it when the references are equal.
pub open spec fn insert_by_reference<T: Referenced>(t: Seq<T>, x: T) -> Seq<T>
    decreases t.len(),
{
    if t.len() == 0 {
        seq![x]
    } else if text_order(x.ref_view(), t[0].ref_view()) == PathOrder::Less {
        seq![x] + t
    } else if text_order(x.ref_view(), t[0].ref_view()) == PathOrder::Equal {
        seq![x] + t.drop_first()
    } else {
        seq![t[0]] + insert_by_reference(t.drop_first(), x)
    }
}

/// The records keyed by reference, the later of two with one reference
/// winning, in ascending order of reference.
pub open spec fn by_reference<T: Referenced>(s: Seq<T>) -> Seq<T>
    decreases s.len(),
{
    if s.len() == 0 {
        Seq::empty()
    } else {
        insert_by_reference(by_reference(s.drop_last()), s.last())
    }
}

/// The first record of `s` with reference `r`.
pub open spec fn find_ref<T: Referenced>(s: Seq<T>, r: Seq<char>) -> Option<T>
    decreases s.len(),
{
    if s.len() == 0 {
        None
    } else if s[0].ref_view() == r {
        Some(s[0])
    } else {
        find_ref(s.drop_first(), r)
    }
}

proof fn lemma_insert_skip<T: Referenced>(t: Seq<T>, x: T, k: int)
    requires
        0 <= k < t.len(),
        text_order(x.ref_view(), t[k].ref_view()) == PathOrder::Greater,
    ensures
        insert_by_reference(t.skip(k), x) == seq![t[k]] + insert_by_reference(t.skip(k + 1), x),
{
    let u = t.skip(k);
    assert(u[0] == t[k]);
    assert(u.drop_first() =~= t.skip(k + 1));
}

/// Puts `x` into `out` by reference.
pub fn insert_record<T: Referenced>(out: &mut Vec<T>, x: T)
    ensures
        final(out)@ == insert_by_reference(old(out)@, x),
{
    let ghost t = out@;
    let mut k: usize = 0;
    assert(t.skip(0) =~= t);
    assert(t.take(0) + t.skip(0) =~= t);
    while k < out.len() && compare_strings(out[k].reference_text(), x.reference_text())
        == PathOrder::Less
        invariant
            out@ == t,
            k <= t.len(),
            insert_by_reference(t, x) == t.take(k as int) + insert_by_reference(
                t.skip(k as int),
                x,
            ),
        decreases t.len() - k,
    {
        proof {
            crate::tally::lemma_text_order_flip(t[k as int].ref_view(), x.ref_view());
            lemma_insert_skip(t, x, k as int);
            assert(t.take(k as int) + seq![t[k as int]] =~= t.take(k + 1));
            assert(t.take(k as int) + (seq![t[k as int]] + insert_by_reference(
                t.skip(k + 1),
                x,
            )) =~= t.take(k + 1) + insert_by_reference(t.skip(k + 1), x));
        }
        k = k + 1;
    }
    if k < out.len() {
        let o = compare_strings(x.reference_text(), out[k].reference_text());
        proof {
            crate::tally::lemma_text_order_flip(t[k as int].ref_view(), x.ref_view());
            let u = t.skip(k as int);
            assert(u[0] == t[k as int]);
            assert(u.drop_first() =~= t.skip(k + 1));
        }
        if o == PathOrder::Equal {
            out[k] = x;
            proof {
                assert(out@ =~= t.take(k as int) + (seq![x] + t.skip(k as int).drop_first()));
            }
        } else {
            out.insert(k, x);
            proof {
                assert(out@ =~= t.take(k as int) + (seq![x] + t.skip(k as int)));
            }
        }
    } else {
        out.push(x);
        proof {
            assert(t.skip(k as int) =~= Seq::<T>::empty());
            assert(t.take(k as int) =~= t);
            assert(out@ =~= t.take(k as int) + seq![x]);
        }
    }
}

/// The records keyed by reference as a map keyed by text keeps them: the
/// later of two with one reference wins, and they come out in ascending
/// order of reference.
pub fn keyed_by_reference<T: Referenced>(items: &[T]) -> (r: Vec<T>)
    ensures
        r@ == by_reference(items@),
{
    let mut out: Vec<T> = Vec::new();
    let mut i: usize = 0;
    assert(items@.take(0) =~= Seq::<T>::empty());
    while i < items.len()
        invariant
            i <= items.len(),
            out@ == by_reference(items@.take(i as int)),
        decreases items.len() - i,
    {
        let x = items[i].duplicate();
        insert_record(&mut out, x);
        proof {
            let next = items@.take(i + 1);
            assert(next.drop_last() =~= items@.take(i as int));
            assert(next.last() == items@[i as int]);
        }
        i = i + 1;
    }
    assert(items@.take(items.len() as int) =~= items@);
    out
}

/// The position of the first record of `s` with the reference `r`.
pub fn find_by_reference<T: Referenced>(s: &[T], r: &String) -> (o: Option<usize>)
    ensures
        match o {
            Some(i) => i < s.len() && find_ref(s@, r@) == Some(s@[i as int]) && s@[i as int].ref_view()
                == r@ && forall|j: int| 0 <= j < i ==> (#[trigger] s@[j]).ref_view() != r@,
            None => find_ref(s@, r@) is None && forall|j: int| 0 <= j < s@.len() ==> (#[trigger] s@[j]).ref_view() != r@,
        },
{
    let rc = crate::forward_annotation::text_chars(r);
    let mut k: usize = 0;
    assert(s@.skip(0) =~= s@);
    while k < s.len()
        invariant
            k <= s.len(),
            rc@ == r@,
            find_ref(s@, r@) == find_ref(s@.skip(k as int), r@),
            forall|j: int| 0 <= j < k ==> (#[trigger] s@[j]).ref_view() != r@,
        decreases s.len() - k,
    {
        proof {
            let u = s@.skip(k as int);
            assert(u[0] == s@[k as int]);
            assert(u.drop_first() =~= s@.skip(k + 1));
            assert(find_ref(u, r@) == if u[0].ref_view() == r@ {
                Some(u[0])
            } else {
                find_ref(u.drop_first(), r@)
            });
        }
        let rk = s[k].reference_text();
        let same = text_is(rk, rc.as_slice());
        if same {
            return Some(k);
        }
        k = k + 1;
    }
    assert(s@.skip(k as int) =~= Seq::<T>::empty());
    None
}

/// The references of `s` ascend strictly.
pub open spec fn strictly_by_reference<T: Referenced>(s: Seq<T>) -> bool {
    forall|i: int, j: int|
        0 <= i < j < s.len() ==> text_order(#[trigger] s[i].ref_view(), #[trigger] s[j].ref_view())
            == PathOrder::Less
}

proof fn lemma_insert_by_reference_members<T: Referenced>(t: Seq<T>, x: T)
    ensures
        forall|i: int|
            0 <= i < insert_by_reference(t, x).len() ==> #[trigger] insert_by_reference(t, x)[i] == x
                || exists|j: int| 0 <= j < t.len() && insert_by_reference(t, x)[i] == #[trigger] t[j],
    decreases t.len(),
{
    let r = insert_by_reference(t, x);
    if t.len() > 0 {
        let rest = t.drop_first();
        lemma_insert_by_reference_members(rest, x);
        assert forall|i: int| 0 <= i < r.len() implies #[trigger] r[i] == x || exists|j: int|
            0 <= j < t.len() && r[i] == #[trigger] t[j] by {
            if text_order(x.ref_view(), t[0].ref_view()) == PathOrder::Less {
                if i > 0 {
                    assert(r[i] == t[i - 1]);
                }
            } else if text_order(x.ref_view(), t[0].ref_view()) == PathOrder::Equal {
                if i > 0 {
                    assert(r[i] == t[i]);
                }
            } else {
                if i == 0 {
                    assert(r[i] == t[0]);
                } else {
                    let u = insert_by_reference(rest, x);
                    assert(r[i] == u[i - 1]);
                    if u[i - 1] != x {
                        let j = choose|j: int| 0 <= j < rest.len() && u[i - 1] == #[trigger] rest[j];
                        assert(rest[j] == t[j + 1]);
                    }
                }
            }
        }
    }
}

pub proof fn lemma_insert_by_reference_sorted<T: Referenced>(t: Seq<T>, x: T)
    requires
        strictly_by_reference(t),
    ensures
        strictly_by_reference(insert_by_reference(t, x)),
    decreases t.len(),
{
    let r = insert_by_reference(t, x);
    if t.len() > 0 {
        let rest = t.drop_first();
        let o = text_order(x.ref_view(), t[0].ref_view());
        crate::tally::lemma_text_order_flip(x.ref_view(), t[0].ref_view());
        if o == PathOrder::Less {
            assert forall|i: int, j: int| 0 <= i < j < r.len() implies text_order(
                #[trigger] r[i].ref_view(),
                #[trigger] r[j].ref_view(),
            ) == PathOrder::Less by {
                if i == 0 {
                    assert(r[j] == t[j - 1]);
                    if j - 1 > 0 {
                        crate::tally::lemma_text_lt_trans(x.ref_view(), t[0].ref_view(), t[j - 1].ref_view());
                    }
                } else {
                    assert(r[i] == t[i - 1] && r[j] == t[j - 1]);
                }
            }
        } else if o == PathOrder::Equal {
            assert forall|i: int, j: int| 0 <= i < j < r.len() implies text_order(
                #[trigger] r[i].ref_view(),
                #[trigger] r[j].ref_view(),
            ) == PathOrder::Less by {
                assert(r[j] == t[j]);
                if i == 0 {
                    assert(text_order(t[0].ref_view(), t[j].ref_view()) == PathOrder::Less);
                } else {
                    assert(r[i] == t[i]);
                }
            }
        } else {
            assert(strictly_by_reference(rest)) by {
                assert forall|i: int, j: int| 0 <= i < j < rest.len() implies text_order(
                    #[trigger] rest[i].ref_view(),
                    #[trigger] rest[j].ref_view(),
                ) == PathOrder::Less by {
                    assert(rest[i] == t[i + 1] && rest[j] == t[j + 1]);
                }
            }
            lemma_insert_by_reference_sorted(rest, x);
            lemma_insert_by_reference_members(rest, x);
            let u = insert_by_reference(rest, x);
            assert forall|i: int, j: int| 0 <= i < j < r.len() implies text_order(
                #[trigger] r[i].ref_view(),
                #[trigger] r[j].ref_view(),
            ) == PathOrder::Less by {
                assert(r[j] == u[j - 1]);
                if i == 0 {
                    assert(r[0] == t[0]);
                    if u[j - 1] == x {
                    } else {
                        let m = choose|m: int| 0 <= m < rest.len() && u[j - 1] == #[trigger] rest[m];
                        assert(rest[m] == t[m + 1]);
                    }
                } else {
                    assert(r[i] == u[i - 1]);
                }
            }
        }
    }
}

/// Records keyed by reference come out in strictly ascending order of
/// reference: no reference twice.
pub proof fn lemma_by_reference_sorted<T: Referenced>(s: Seq<T>)
    ensures
        strictly_by_reference(by_reference(s)),
    decreases s.len(),
{
    if s.len() > 0 {
        lemma_by_reference_sorted(s.drop_last());
        lemma_insert_by_reference_sorted(by_reference(s.drop_last()), s.last());
    }
}

pub proof fn lemma_find_after_insert<T: Referenced>(t: Seq<T>, x: T, r: Seq<char>)
    ensures
        find_ref(insert_by_reference(t, x), r) == if r == x.ref_view() {
            Some(x)
        } else {
            find_ref(t, r)
        },
    decreases t.len(),
{
    let ins = insert_by_reference(t, x);
    assert(ins.len() > 0);
    assert(find_ref(ins, r) == if ins[0].ref_view() == r {
        Some(ins[0])
    } else {
        find_ref(ins.drop_first(), r)
    });
    if t.len() > 0 {
        let rest = t.drop_first();
        assert(find_ref(t, r) == if t[0].ref_view() == r {
            Some(t[0])
        } else {
            find_ref(rest, r)
        });
        let o = text_order(x.ref_view(), t[0].ref_view());
        crate::tally::lemma_text_order_flip(x.ref_view(), t[0].ref_view());
        if o == PathOrder::Less {
            assert(ins == seq![x] + t);
            assert(ins[0] == x);
            assert(ins.drop_first() =~= t);
        } else if o == PathOrder::Equal {
            assert(ins == seq![x] + rest);
            assert(ins[0] == x);
            assert(ins.drop_first() =~= rest);
        } else {
            assert(ins == seq![t[0]] + insert_by_reference(rest, x));
            lemma_find_after_insert(rest, x, r);
            assert(ins[0] == t[0]);
            assert(ins.drop_first() =~= insert_by_reference(rest, x));
            if t[0].ref_view() == r {
                assert(r != x.ref_view());
            }
        }
    } else {
        assert(ins == seq![x]);
        assert(ins.drop_first() =~= Seq::<T>::empty());
    }
}

/// The last record of `s` with the reference `r`.
pub open spec fn last_with_ref<T: Referenced>(s: Seq<T>, r: Seq<char>) -> Option<T>
    decreases s.len(),
{
    if s.len() == 0 {
        None
    } else if s.last().ref_view() == r {
        Some(s.last())
    } else {
        last_with_ref(s.drop_last(), r)
    }
}

/// Keyed by reference, the record of a reference is the last record given
/// with it, and a reference no record has has none: a later record replaces
/// an earlier one.
pub proof fn lemma_by_reference_last_wins<T: Referenced>(s: Seq<T>, r: Seq<char>)
    ensures
        find_ref(by_reference(s), r) == last_with_ref(s, r),
    decreases s.len(),
{
    if s.len() > 0 {
        lemma_by_reference_last_wins(s.drop_last(), r);
        lemma_find_after_insert(by_reference(s.drop_last()), s.last(), r);
    }
}

/// In records with distinct references, a record is the one found by its
/// reference.
pub proof fn lemma_find_own<T: Referenced>(s: Seq<T>, i: int)
    requires
        strictly_by_reference(s),
        0 <= i < s.len(),
    ensures
        find_ref(s, s[i].ref_view()) == Some(s[i]),
    decreases i,
{
    if i > 0 {
        let rest = s.drop_first();
        assert(strictly_by_reference(rest)) by {
            assert forall|a: int, b: int| 0 <= a < b < rest.len() implies text_order(
                #[trigger] rest[a].ref_view(),
                #[trigger] rest[b].ref_view(),
            ) == PathOrder::Less by {
                assert(rest[a] == s[a + 1] && rest[b] == s[b + 1]);
            }
        }
        assert(text_order(s[0].ref_view(), s[i].ref_view()) == PathOrder::Less);
        crate::tally::lemma_text_order_flip(s[0].ref_view(), s[i].ref_view());
        assert(s[0].ref_view() != s[i].ref_view()) by {
            crate::tally::lemma_text_order_flip(s[i].ref_view(), s[i].ref_view());
        }
        lemma_find_own(rest, i - 1);
        assert(rest[i - 1] == s[i]);
    }
}

/// Symbols whose reference no component carries, in order.
pub open spec fn missing_symbols(ws: Seq<SchematicSymbol>, wc: Seq<BoardComponent>) -> Seq<
    SchematicSymbol,
>
    decreases ws.len(),
{
    if ws.len() == 0 {
        Seq::empty()
    } else {
        let rest = missing_symbols(ws.drop_last(), wc);
        if find_ref(wc, ws.last().reference@) is None {
            rest.push(ws.last())
        } else {
            rest
        }
    }
}

/// Symbols paired with the component that carries their reference, in order.
pub open spec fn matched_pairs(ws: Seq<SchematicSymbol>, wc: Seq<BoardComponent>) -> Seq<
    (SchematicSymbol, BoardComponent),
>
    decreases ws.len(),
{
    if ws.len() == 0 {
        Seq::empty()
    } else {
        let rest = matched_pairs(ws.drop_last(), wc);
        match find_ref(wc, ws.last().reference@) {
            Some(c) => rest.push((ws.last(), c)),
            None => rest,
        }
    }
}

/// The pairs whose values differ.
pub open spec fn value_mismatch_pairs(p: Seq<(SchematicSymbol, BoardComponent)>) -> Seq<
    (SchematicSymbol, BoardComponent),
>
    decreases p.len(),
{
    if p.len() == 0 {
        Seq::empty()
    } else {
        let rest = value_mismatch_pairs(p.drop_last());
        if p.last().0.value@ != p.last().1.value@ {
            rest.push(p.last())
        } else {
            rest
        }
    }
}

/// The pairs whose symbol resolves a part other than the component's.
pub open spec fn part_mismatch_pairs(p: Seq<(SchematicSymbol, BoardComponent)>) -> Seq<
    (SchematicSymbol, BoardComponent),
>
    decreases p.len(),
{
    if p.len() == 0 {
        Seq::empty()
    } else {
        let rest = part_mismatch_pairs(p.drop_last());
        match p.last().0.part_uuid {
            Some(u) => if u != p.last().1.part {
                rest.push(p.last())
            } else {
                rest
            },
            None => rest,
        }
    }
}

/// Components whose reference no symbol carries, in order.
pub open spec fn orphan_components(wc: Seq<BoardComponent>, ws: Seq<SchematicSymbol>) -> Seq<
    BoardComponent,
>
    decreases wc.len(),
{
    if wc.len() == 0 {
        Seq::empty()
    } else {
        let rest = orphan_components(wc.drop_last(), ws);
        if find_ref(ws, wc.last().reference@) is None {
            rest.push(wc.last())
        } else {
            rest
        }
    }
}

/// How many symbols resolve no part.
pub open spec fn unresolved_count(ws: Seq<SchematicSymbol>) -> nat
    decreases ws.len(),
{
    if ws.len() == 0 {
        0
    } else {
        unresolved_count(ws.drop_last()) + if ws.last().part_uuid is None {
            1nat
        } else {
            0nat
        }
    }
}

/// Every symbol is either matched with a component or missing on the
/// board: the audit's matched count and missing symbols add up to the
/// symbols.
pub proof fn lemma_symbols_matched_or_missing(ws: Seq<SchematicSymbol>, wc: Seq<BoardComponent>)
    ensures
        matched_pairs(ws, wc).len() + missing_symbols(ws, wc).len() == ws.len(),
    decreases ws.len(),
{
    if ws.len() > 0 {
        lemma_symbols_matched_or_missing(ws.drop_last(), wc);
    }
}

/// `o` is the text of `id` where there is one.
pub open spec fn uuid_text_opt(o: Option<String>, id: Option<u128>) -> bool {
    match id {
        Some(u) => o is Some && o.unwrap()@ == uuid_text_of(u),
        None => o is None,
    }
}

/// A symbol that has no component on the board.
pub struct MissingOnBoard {
    pub symbol_uuid: String,
    pub sheet_uuid: String,
    pub reference: String,
    pub value: String,
    pub part_uuid: Option<String>,
}

/// A component that has no symbol in the schematic.
pub struct OrphanOnBoard {
    pub component_uuid: String,
    pub reference: String,
    pub value: String,
    pub part_uuid: String,
}

/// A symbol and a component whose values differ.
pub struct ValueMismatch {
    pub reference: String,
    pub symbol_uuid: String,
    pub component_uuid: String,
    pub schematic_value: String,
    pub board_value: String,
}

/// A symbol and a component whose parts differ.
pub struct PartMismatch {
    pub reference: String,
    pub symbol_uuid: String,
    pub component_uuid: String,
    pub schematic_part_uuid: String,
    pub board_part_uuid: String,
}

pub open spec fn describes_missing(m: MissingOnBoard, s: SchematicSymbol) -> bool {
    &&& m.symbol_uuid@ == uuid_text_of(s.uuid)
    &&& m.sheet_uuid@ == uuid_text_of(s.sheet)
    &&& m.reference@ == s.reference@
    &&& m.value@ == s.value@
    &&& uuid_text_opt(m.part_uuid, s.part_uuid)
}

pub open spec fn describes_orphan(o: OrphanOnBoard, c: BoardComponent) -> bool {
    &&& o.component_uuid@ == uuid_text_of(c.uuid)
    &&& o.reference@ == c.reference@
    &&& o.value@ == c.value@
    &&& o.part_uuid@ == uuid_text_of(c.part)
}

pub open spec fn describes_value_mismatch(v: ValueMismatch, p: (SchematicSymbol, BoardComponent)) -> bool {
    &&& v.reference@ == p.0.reference@
    &&& v.symbol_uuid@ == uuid_text_of(p.0.uuid)
    &&& v.component_uuid@ == uuid_text_of(p.1.uuid)
    &&& v.schematic_value@ == p.0.value@
    &&& v.board_value@ == p.1.value@
}

pub open spec fn describes_part_mismatch(v: PartMismatch, p: (SchematicSymbol, BoardComponent)) -> bool {
    &&& v.reference@ == p.0.reference@
    &&& v.symbol_uuid@ == uuid_text_of(p.0.uuid)
    &&& v.component_uuid@ == uuid_text_of(p.1.uuid)
    &&& p.0.part_uuid is Some
    &&& v.schematic_part_uuid@ == uuid_text_of(p.0.part_uuid.unwrap())
    &&& v.board_part_uuid@ == uuid_text_of(p.1.part)
}

pub open spec fn all_missing(out: Seq<MissingOnBoard>, src: Seq<SchematicSymbol>) -> bool {
    out.len() == src.len() && forall|k: int| 0 <= k < out.len() ==> describes_missing(
        #[trigger] out[k],
        src[k],
    )
}

pub open spec fn all_orphans(out: Seq<OrphanOnBoard>, src: Seq<BoardComponent>) -> bool {
    out.len() == src.len() && forall|k: int| 0 <= k < out.len() ==> describes_orphan(
        #[trigger] out[k],
        src[k],
    )
}

pub open spec fn all_value_mismatches(
    out: Seq<ValueMismatch>,
    src: Seq<(SchematicSymbol, BoardComponent)>,
) -> bool {
    out.len() == src.len() && forall|k: int| 0 <= k < out.len() ==> describes_value_mismatch(
        #[trigger] out[k],
        src[k],
    )
}

pub open spec fn all_part_mismatches(
    out: Seq<PartMismatch>,
    src: Seq<(SchematicSymbol, BoardComponent)>,
) -> bool {
    out.len() == src.len() && forall|k: int| 0 <= k < out.len() ==> describes_part_mismatch(
        #[trigger] out[k],
        src[k],
    )
}

/// The audit of a schematic against a board.
pub struct ForwardAnnotationAudit {
    pub schematic_symbol_count: usize,
    pub board_component_count: usize,
    pub matched_count: usize,
    pub unresolved_symbol_count: usize,
    pub missing_on_board: Vec<MissingOnBoard>,
    pub orphaned_on_board: Vec<OrphanOnBoard>,
    pub value_mismatches: Vec<ValueMismatch>,
    pub part_mismatches: Vec<PartMismatch>,
}

/// `a` is the audit of the symbols `ws` against the components `wc`, both
/// keyed by reference.
pub open spec fn audits(a: ForwardAnnotationAudit, ws: Seq<SchematicSymbol>, wc: Seq<BoardComponent>) -> bool {
    &&& a.schematic_symbol_count == ws.len()
    &&& a.board_component_count == wc.len()
    &&& a.matched_count == matched_pairs(ws, wc).len()
    &&& a.unresolved_symbol_count == unresolved_count(ws)
    &&& all_missing(a.missing_on_board@, missing_symbols(ws, wc))
    &&& all_orphans(a.orphaned_on_board@, orphan_components(wc, ws))
    &&& all_value_mismatches(a.value_mismatches@, value_mismatch_pairs(matched_pairs(ws, wc)))
    &&& all_part_mismatches(a.part_mismatches@, part_mismatch_pairs(matched_pairs(ws, wc)))
}

fn uuid_text_option(id: Option<u128>) -> (r: Option<String>)
    ensures
        uuid_text_opt(r, id),
{
    match id {
        Some(u) => Some(uuid_text(u)),
        None => None,
    }
}

fn same_text(a: &String, b: &String) -> (r: bool)
    ensures
        r == (a@ == b@),
{
    let bc = crate::forward_annotation::text_chars(b);
    text_is(a, bc.as_slice())
}

proof fn lemma_push_drop<A>(s: Seq<A>, x: A)
    ensures
        s.push(x).drop_last() == s,
        s.push(x).last() == x,
{
    assert(s.push(x).drop_last() =~= s);
}

/// The symbols matched against the components by reference: the counts,
/// the symbols missing on the board, the components missing in the
/// schematic, and the value and part mismatches, each in ascending order of
/// reference.
pub fn query_native_project_forward_annotation_audit(
    symbols: &[SchematicSymbol],
    components: &[BoardComponent],
) -> (a: ForwardAnnotationAudit)
    ensures
        audits(a, by_reference(symbols@), by_reference(components@)),
{
    let ws = keyed_by_reference(symbols);
    let wc = keyed_by_reference(components);
    let mut missing: Vec<MissingOnBoard> = Vec::new();
    let mut values: Vec<ValueMismatch> = Vec::new();
    let mut parts: Vec<PartMismatch> = Vec::new();
    let mut matched: usize = 0;
    let mut unresolved: usize = 0;
    let mut i: usize = 0;
    assert(ws@.take(0) =~= Seq::<SchematicSymbol>::empty());
    while i < ws.len()
        invariant
            i <= ws.len(),
            matched <= i,
            unresolved <= i,
            matched == matched_pairs(ws@.take(i as int), wc@).len(),
            unresolved == unresolved_count(ws@.take(i as int)),
            all_missing(missing@, missing_symbols(ws@.take(i as int), wc@)),
            all_value_mismatches(values@, value_mismatch_pairs(matched_pairs(ws@.take(i as int), wc@))),
            all_part_mismatches(parts@, part_mismatch_pairs(matched_pairs(ws@.take(i as int), wc@))),
        decreases ws.len() - i,
    {
        let s = &ws[i];
        let ghost prev = ws@.take(i as int);
        let ghost next = ws@.take(i + 1);
        proof {
            assert(next.drop_last() =~= prev);
            assert(next.last() == ws@[i as int]);
        }
        if s.part_uuid.is_none() {
            unresolved = unresolved + 1;
        }
        match find_by_reference(wc.as_slice(), &s.reference) {
            Some(j) => {
                let c = &wc[j];
                let ghost pairs = matched_pairs(prev, wc@);
                proof {
                    lemma_push_drop(pairs, (*s, *c));
                }
                matched = matched + 1;
                if !same_text(&s.value, &c.value) {
                    values.push(ValueMismatch {
                        reference: copy_text(&s.reference),
                        symbol_uuid: uuid_text(s.uuid),
                        component_uuid: uuid_text(c.uuid),
                        schematic_value: copy_text(&s.value),
                        board_value: copy_text(&c.value),
                    });
                    proof {
                        lemma_push_drop(value_mismatch_pairs(pairs), (*s, *c));
                    }
                }
                match s.part_uuid {
                    Some(u) => {
                        if u != c.part {
                            parts.push(PartMismatch {
                                reference: copy_text(&s.reference),
                                symbol_uuid: uuid_text(s.uuid),
                                component_uuid: uuid_text(c.uuid),
                                schematic_part_uuid: uuid_text(u),
                                board_part_uuid: uuid_text(c.part),
                            });
                            proof {
                                lemma_push_drop(part_mismatch_pairs(pairs), (*s, *c));
                            }
                        }
                    },
                    None => {},
                }
            },
            None => {
                missing.push(MissingOnBoard {
                    symbol_uuid: uuid_text(s.uuid),
                    sheet_uuid: uuid_text(s.sheet),
                    reference: copy_text(&s.reference),
                    value: copy_text(&s.value),
                    part_uuid: uuid_text_option(s.part_uuid),
                });
                proof {
                    lemma_push_drop(missing_symbols(prev, wc@), *s);
                }
            },
        }
        i = i + 1;
    }
    assert(ws@.take(ws.len() as int) =~= ws@);
    let mut orphans: Vec<OrphanOnBoard> = Vec::new();
    let mut k: usize = 0;
    assert(wc@.take(0) =~= Seq::<BoardComponent>::empty());
    while k < wc.len()
        invariant
            k <= wc.len(),
            all_orphans(orphans@, orphan_components(wc@.take(k as int), ws@)),
        decreases wc.len() - k,
    {
        let c = &wc[k];
        proof {
            let next = wc@.take(k + 1);
            assert(next.drop_last() =~= wc@.take(k as int));
            assert(next.last() == wc@[k as int]);
        }
        if find_by_reference(ws.as_slice(), &c.reference).is_none() {
            orphans.push(OrphanOnBoard {
                component_uuid: uuid_text(c.uuid),
                reference: copy_text(&c.reference),
                value: copy_text(&c.value),
                part_uuid: uuid_text(c.part),
            });
            proof {
                lemma_push_drop(orphan_components(wc@.take(k as int), ws@), *c);
            }
        }
        k = k + 1;
    }
    assert(wc@.take(wc.len() as int) =~= wc@);
    ForwardAnnotationAudit {
        schematic_symbol_count: ws.len(),
        board_component_count: wc.len(),
        matched_count: matched,
        unresolved_symbol_count: unresolved,
        missing_on_board: missing,
        orphaned_on_board: orphans,
        value_mismatches: values,
        part_mismatches: parts,
    }
}

/// The characters of an optional text, empty where there is none.
pub open spec fn or_empty(o: Option<Seq<char>>) -> Seq<char> {
    match o {
        Some(t) => t,
        None => Seq::empty(),
    }
}

/// The view of an optional `&str`.
pub open spec fn opt_str(o: Option<&str>) -> Option<Seq<char>> {
    match o {
        Some(t) => Some(t@),
        None => None,
    }
}

/// The view of an optional `String`.
pub open spec fn opt_view(o: Option<String>) -> Option<Seq<char>> {
    match o {
        Some(t) => Some(t@),
        None => None,
    }
}

/// The stable key of an action: action, reference, symbol, component and
/// reason joined by `|`, an absent UUID as empty text.
pub open spec fn action_key(
    action: Seq<char>,
    reference: Seq<char>,
    symbol_uuid: Option<Seq<char>>,
    component_uuid: Option<Seq<char>>,
    reason: Seq<char>,
) -> Seq<char> {
    action + seq!['|'] + reference + seq!['|'] + or_empty(symbol_uuid) + seq!['|'] + or_empty(
        component_uuid,
    ) + seq!['|'] + reason
}

/// The id of an action: the SHA-256 digest of the UTF-8 bytes of its
/// stable key, in lowercase hexadecimal.
pub open spec fn action_id_of(
    action: Seq<char>,
    reference: Seq<char>,
    symbol_uuid: Option<Seq<char>>,
    component_uuid: Option<Seq<char>>,
    reason: Seq<char>,
) -> Seq<char> {
    hex_text(sha256_of(encode_utf8(action_key(action, reference, symbol_uuid, component_uuid, reason))))
}

/// The id of a proposed action, stable for equal inputs.
pub fn forward_annotation_action_id(
    action: &str,
    reference: &str,
    symbol_uuid: Option<&str>,
    component_uuid: Option<&str>,
    reason: &str,
) -> (id: String)
    ensures
        id@ == action_id_of(action@, reference@, opt_str(symbol_uuid), opt_str(component_uuid), reason@),
{
    let mut key: Vec<char> = chars_of(action);
    push_chars(&mut key, &['|']);
    push_chars(&mut key, chars_of(reference).as_slice());
    push_chars(&mut key, &['|']);
    match symbol_uuid {
        Some(t) => push_chars(&mut key, chars_of(t).as_slice()),
        None => {},
    }
    push_chars(&mut key, &['|']);
    match component_uuid {
        Some(t) => push_chars(&mut key, chars_of(t).as_slice()),
        None => {},
    }
    push_chars(&mut key, &['|']);
    push_chars(&mut key, chars_of(reason).as_slice());
    assert(key@ =~= action_key(action@, reference@, opt_str(symbol_uuid), opt_str(component_uuid), reason@));
    let text = string_from_chars(key.as_slice());
    sha256_hex(text.as_str().as_bytes())
}

/// `a` adds the component for the symbol missing on the board.
pub open spec fn proposes_add(a: ProposalAction, m: MissingOnBoard) -> bool {
    let reason = if m.part_uuid is Some {
        lit_symbol_missing_on_board()
    } else {
        lit_symbol_missing_on_board_unresolved_part()
    };
    &&& a.action@ == lit_add_component()
    &&& a.reference@ == m.reference@
    &&& opt_view(a.symbol_uuid) == Some(m.symbol_uuid@)
    &&& a.component_uuid is None
    &&& a.reason@ == reason
    &&& opt_view(a.schematic_value) == Some(m.value@)
    &&& a.board_value is None
    &&& opt_view(a.schematic_part_uuid) == opt_view(m.part_uuid)
    &&& a.board_part_uuid is None
    &&& a.action_id@ == action_id_of(a.action@, m.reference@, Some(m.symbol_uuid@), None, reason)
}

/// `a` removes the component missing in the schematic.
pub open spec fn proposes_remove(a: ProposalAction, o: OrphanOnBoard) -> bool {
    &&& a.action@ == lit_remove_component()
    &&& a.reference@ == o.reference@
    &&& a.symbol_uuid is None
    &&& opt_view(a.component_uuid) == Some(o.component_uuid@)
    &&& a.reason@ == lit_board_component_missing_in_schematic()
    &&& a.schematic_value is None
    &&& opt_view(a.board_value) == Some(o.value@)
    &&& a.schematic_part_uuid is None
    &&& opt_view(a.board_part_uuid) == Some(o.part_uuid@)
    &&& a.action_id@ == action_id_of(
        lit_remove_component(),
        o.reference@,
        None,
        Some(o.component_uuid@),
        lit_board_component_missing_in_schematic(),
    )
}

/// `a` sets the component's value to the symbol's.
pub open spec fn proposes_value_fix(a: ProposalAction, v: ValueMismatch) -> bool {
    &&& a.action@ == lit_update_component()
    &&& a.reference@ == v.reference@
    &&& opt_view(a.symbol_uuid) == Some(v.symbol_uuid@)
    &&& opt_view(a.component_uuid) == Some(v.component_uuid@)
    &&& a.reason@ == lit_value_mismatch()
    &&& opt_view(a.schematic_value) == Some(v.schematic_value@)
    &&& opt_view(a.board_value) == Some(v.board_value@)
    &&& a.schematic_part_uuid is None
    &&& a.board_part_uuid is None
    &&& a.action_id@ == action_id_of(
        lit_update_component(),
        v.reference@,
        Some(v.symbol_uuid@),
        Some(v.component_uuid@),
        lit_value_mismatch(),
    )
}

/// `a` sets the component's part to the symbol's.
pub open spec fn proposes_part_fix(a: ProposalAction, p: PartMismatch) -> bool {
    &&& a.action@ == lit_update_component()
    &&& a.reference@ == p.reference@
    &&& opt_view(a.symbol_uuid) == Some(p.symbol_uuid@)
    &&& opt_view(a.component_uuid) == Some(p.component_uuid@)
    &&& a.reason@ == lit_part_mismatch()
    &&& a.schematic_value is None
    &&& a.board_value is None
    &&& opt_view(a.schematic_part_uuid) == Some(p.schematic_part_uuid@)
    &&& opt_view(a.board_part_uuid) == Some(p.board_part_uuid@)
    &&& a.action_id@ == action_id_of(
        lit_update_component(),
        p.reference@,
        Some(p.symbol_uuid@),
        Some(p.component_uuid@),
        lit_part_mismatch(),
    )
}

/// `u` holds, in this order, an action for each symbol missing on the
/// board, each component missing in the schematic, each value mismatch and
/// each part mismatch of the audit.
pub open spec fn proposes_all(u: Seq<ProposalAction>, a: ForwardAnnotationAudit) -> bool {
    let m = a.missing_on_board@;
    let o = a.orphaned_on_board@;
    let v = a.value_mismatches@;
    let p = a.part_mismatches@;
    &&& u.len() == m.len() + o.len() + v.len() + p.len()
    &&& forall|k: int| 0 <= k < m.len() ==> proposes_add(u[k], #[trigger] m[k])
    &&& forall|k: int| 0 <= k < o.len() ==> proposes_remove(u[m.len() + k], #[trigger] o[k])
    &&& forall|k: int|
        0 <= k < v.len() ==> proposes_value_fix(u[m.len() + o.len() + k], #[trigger] v[k])
    &&& forall|k: int|
        0 <= k < p.len() ==> proposes_part_fix(u[m.len() + o.len() + v.len() + k], #[trigger] p[k])
}

fn add_action(m: &MissingOnBoard) -> (a: ProposalAction)
    ensures
        proposes_add(a, *m),
{
    let reason = if m.part_uuid.is_some() {
        text_of(&['s', 'y', 'm', 'b', 'o', 'l', '_', 'm', 'i', 's', 's', 'i', 'n', 'g', '_', 'o', 'n', '_', 'b', 'o', 'a', 'r', 'd'])
    } else {
        text_of(&['s', 'y', 'm', 'b', 'o', 'l', '_', 'm', 'i', 's', 's', 'i', 'n', 'g', '_', 'o', 'n', '_', 'b', 'o', 'a', 'r', 'd', '_', 'u', 'n', 'r', 'e', 's', 'o', 'l', 'v', 'e', 'd', '_', 'p', 'a', 'r', 't'])
    };
    let action = text_of(&['a', 'd', 'd', '_', 'c', 'o', 'm', 'p', 'o', 'n', 'e', 'n', 't']);
    let id = forward_annotation_action_id(
        action.as_str(),
        m.reference.as_str(),
        Some(m.symbol_uuid.as_str()),
        None,
        reason.as_str(),
    );
    ProposalAction {
        action_id: id,
        action,
        reference: copy_text(&m.reference),
        symbol_uuid: Some(copy_text(&m.symbol_uuid)),
        component_uuid: None,
        reason,
        schematic_value: Some(copy_text(&m.value)),
        board_value: None,
        schematic_part_uuid: copy_opt_text(&m.part_uuid),
        board_part_uuid: None,
    }
}

fn remove_action(o: &OrphanOnBoard) -> (a: ProposalAction)
    ensures
        proposes_remove(a, *o),
{
    let reason = text_of(&['b', 'o', 'a', 'r', 'd', '_', 'c', 'o', 'm', 'p', 'o', 'n', 'e', 'n', 't', '_', 'm', 'i', 's', 's', 'i', 'n', 'g', '_', 'i', 'n', '_', 's', 'c', 'h', 'e', 'm', 'a', 't', 'i', 'c']);
    let action = text_of(&['r', 'e', 'm', 'o', 'v', 'e', '_', 'c', 'o', 'm', 'p', 'o', 'n', 'e', 'n', 't']);
    let id = forward_annotation_action_id(
        action.as_str(),
        o.reference.as_str(),
        None,
        Some(o.component_uuid.as_str()),
        reason.as_str(),
    );
    ProposalAction {
        action_id: id,
        action,
        reference: copy_text(&o.reference),
        symbol_uuid: None,
        component_uuid: Some(copy_text(&o.component_uuid)),
        reason,
        schematic_value: None,
        board_value: Some(copy_text(&o.value)),
        schematic_part_uuid: None,
        board_part_uuid: Some(copy_text(&o.part_uuid)),
    }
}

fn value_fix_action(v: &ValueMismatch) -> (a: ProposalAction)
    ensures
        proposes_value_fix(a, *v),
{
    let reason = text_of(&['v', 'a', 'l', 'u', 'e', '_', 'm', 'i', 's', 'm', 'a', 't', 'c', 'h']);
    let action = text_of(&['u', 'p', 'd', 'a', 't', 'e', '_', 'c', 'o', 'm', 'p', 'o', 'n', 'e', 'n', 't']);
    let id = forward_annotation_action_id(
        action.as_str(),
        v.reference.as_str(),
        Some(v.symbol_uuid.as_str()),
        Some(v.component_uuid.as_str()),
        reason.as_str(),
    );
    ProposalAction {
        action_id: id,
        action,
        reference: copy_text(&v.reference),
        symbol_uuid: Some(copy_text(&v.symbol_uuid)),
        component_uuid: Some(copy_text(&v.component_uuid)),
        reason,
        schematic_value: Some(copy_text(&v.schematic_value)),
        board_value: Some(copy_text(&v.board_value)),
        schematic_part_uuid: None,
        board_part_uuid: None,
    }
}

fn part_fix_action(p: &PartMismatch) -> (a: ProposalAction)
    ensures
        proposes_part_fix(a, *p),
{
    let reason = text_of(&['p', 'a', 'r', 't', '_', 'm', 'i', 's', 'm', 'a', 't', 'c', 'h']);
    let action = text_of(&['u', 'p', 'd', 'a', 't', 'e', '_', 'c', 'o', 'm', 'p', 'o', 'n', 'e', 'n', 't']);
    let id = forward_annotation_action_id(
        action.as_str(),
        p.reference.as_str(),
        Some(p.symbol_uuid.as_str()),
        Some(p.component_uuid.as_str()),
        reason.as_str(),
    );
    ProposalAction {
        action_id: id,
        action,
        reference: copy_text(&p.reference),
        symbol_uuid: Some(copy_text(&p.symbol_uuid)),
        component_uuid: Some(copy_text(&p.component_uuid)),
        reason,
        schematic_value: None,
        board_value: None,
        schematic_part_uuid: Some(copy_text(&p.schematic_part_uuid)),
        board_part_uuid: Some(copy_text(&p.board_part_uuid)),
    }
}

/// The actions for the audit, in the audit's order.
fn unsorted_actions(a: &ForwardAnnotationAudit) -> (u: Vec<ProposalAction>)
    ensures
        proposes_all(u@, *a),
{
    let m = &a.missing_on_board;
    let o = &a.orphaned_on_board;
    let v = &a.value_mismatches;
    let p = &a.part_mismatches;
    let mut u: Vec<ProposalAction> = Vec::new();
    let mut i: usize = 0;
    while i < m.len()
        invariant
            i <= m.len(),
            u@.len() == i,
            forall|k: int| 0 <= k < i ==> proposes_add(u@[k], #[trigger] m@[k]),
        decreases m.len() - i,
    {
        u.push(add_action(&m[i]));
        i = i + 1;
    }
    let mut i: usize = 0;
    while i < o.len()
        invariant
            i <= o.len(),
            u@.len() == m.len() + i,
            forall|k: int| 0 <= k < m.len() ==> proposes_add(u@[k], #[trigger] m@[k]),
            forall|k: int| 0 <= k < i ==> proposes_remove(u@[m.len() + k], #[trigger] o@[k]),
        decreases o.len() - i,
    {
        u.push(remove_action(&o[i]));
        i = i + 1;
    }
    let mut i: usize = 0;
    while i < v.len()
        invariant
            i <= v.len(),
            u@.len() == m.len() + o.len() + i,
            forall|k: int| 0 <= k < m.len() ==> proposes_add(u@[k], #[trigger] m@[k]),
            forall|k: int| 0 <= k < o.len() ==> proposes_remove(u@[m.len() + k], #[trigger] o@[k]),
            forall|k: int|
                0 <= k < i ==> proposes_value_fix(u@[m.len() + o.len() + k], #[trigger] v@[k]),
        decreases v.len() - i,
    {
        u.push(value_fix_action(&v[i]));
        i = i + 1;
    }
    let mut i: usize = 0;
    while i < p.len()
        invariant
            i <= p.len(),
            u@.len() == m.len() + o.len() + v.len() + i,
            forall|k: int| 0 <= k < m.len() ==> proposes_add(u@[k], #[trigger] m@[k]),
            forall|k: int| 0 <= k < o.len() ==> proposes_remove(u@[m.len() + k], #[trigger] o@[k]),
            forall|k: int|
                0 <= k < v.len() ==> proposes_value_fix(u@[m.len() + o.len() + k], #[trigger] v@[k]),
            forall|k: int|
                0 <= k < i ==> proposes_part_fix(
                    u@[m.len() + o.len() + v.len() + k],
                    #[trigger] p@[k],
                ),
        decreases p.len() - i,
    {
        u.push(part_fix_action(&p[i]));
        i = i + 1;
    }
    u
}

/// The actions of `s` of the kind `kind`, in order.
pub open spec fn kind_group(s: Seq<ProposalAction>, kind: Seq<char>) -> Seq<ProposalAction>
    decreases s.len(),
{
    if s.len() == 0 {
        Seq::empty()
    } else {
        let rest = kind_group(s.drop_last(), kind);
        if s.last().action@ == kind {
            rest.push(s.last())
        } else {
            rest
        }
    }
}

proof fn lemma_kind_group_len(s: Seq<ProposalAction>, kind: Seq<char>)
    ensures
        kind_group(s, kind).len() == count_kind(s, kind),
    decreases s.len(),
{
    if s.len() > 0 {
        lemma_kind_group_len(s.drop_last(), kind);
    }
}

/// The actions of `s` of the kind `kind`, in order.
pub fn actions_of_kind(s: &[ProposalAction], kind: &[char]) -> (g: Vec<ProposalAction>)
    ensures
        g@ == kind_group(s@, kind@),
        g@.len() == count_kind(s@, kind@),
{
    let mut g: Vec<ProposalAction> = Vec::new();
    let mut i: usize = 0;
    assert(s@.take(0) =~= Seq::<ProposalAction>::empty());
    while i < s.len()
        invariant
            i <= s.len(),
            g@ == kind_group(s@.take(i as int), kind@),
        decreases s.len() - i,
    {
        proof {
            let next = s@.take(i + 1);
            assert(next.drop_last() =~= s@.take(i as int));
            assert(next.last() == s@[i as int]);
        }
        if text_is(&s[i].action, kind) {
            g.push(s[i].duplicate());
        }
        i = i + 1;
    }
    assert(s@.take(s.len() as int) =~= s@);
    proof {
        lemma_kind_group_len(s@, kind@);
    }
    g
}

/// Every action adds, removes or updates a component.
pub open spec fn known_kinds(s: Seq<ProposalAction>) -> bool {
    forall|i: int|
        0 <= i < s.len() ==> (#[trigger] s[i]).action@ == lit_add_component() || s[i].action@
            == lit_remove_component() || s[i].action@ == lit_update_component()
}

proof fn lemma_kind_counts(s: Seq<ProposalAction>)
    requires
        known_kinds(s),
    ensures
        count_kind(s, lit_add_component()) + count_kind(s, lit_remove_component()) + count_kind(
            s,
            lit_update_component(),
        ) == s.len(),
    decreases s.len(),
{
    if s.len() > 0 {
        let d = s.drop_last();
        assert forall|i: int| 0 <= i < d.len() implies (#[trigger] d[i]).action@
            == lit_add_component() || d[i].action@ == lit_remove_component() || d[i].action@
            == lit_update_component() by {
            assert(d[i] == s[i]);
        }
        lemma_kind_counts(d);
        assert(s.last() == s[s.len() - 1]);
        assert(lit_add_component() != lit_remove_component()) by {
            assert(lit_add_component()[0] != lit_remove_component()[0]);
        }
        assert(lit_add_component() != lit_update_component()) by {
            assert(lit_add_component()[0] != lit_update_component()[0]);
        }
        assert(lit_remove_component() != lit_update_component()) by {
            assert(lit_remove_component()[0] != lit_update_component()[0]);
        }
    }
}


proof fn lemma_count_kind_insert(t: Seq<ProposalAction>, x: ProposalAction, kind: Seq<char>)
    ensures
        count_kind(insert_sorted(t, x), kind) == count_kind(t, kind) + if x.action@ == kind {
            1nat
        } else {
            0nat
        },
    decreases t.len(),
{
    if t.len() > 0 && key_gt(t.last(), x) {
        lemma_count_kind_insert(t.drop_last(), x, kind);
        let r = insert_sorted(t.drop_last(), x).push(t.last());
        assert(r.drop_last() =~= insert_sorted(t.drop_last(), x));
    } else {
        assert(t.push(x).drop_last() =~= t);
    }
}

proof fn lemma_count_kind_sorted(s: Seq<ProposalAction>, kind: Seq<char>)
    ensures
        count_kind(stable_sorted(s), kind) == count_kind(s, kind),
    decreases s.len(),
{
    if s.len() > 0 {
        lemma_count_kind_sorted(s.drop_last(), kind);
        lemma_count_kind_insert(stable_sorted(s.drop_last()), s.last(), kind);
    }
}

proof fn lemma_proposed_kind_counts(u: Seq<ProposalAction>, a: ForwardAnnotationAudit, n: int)
    requires
        proposes_all(u, a),
        0 <= n <= u.len(),
    ensures
        count_kind(u.take(n), lit_add_component()) == if n <= a.missing_on_board@.len() {
            n
        } else {
            a.missing_on_board@.len() as int
        },
        count_kind(u.take(n), lit_remove_component()) == if n <= a.missing_on_board@.len() {
            0
        } else if n <= a.missing_on_board@.len() + a.orphaned_on_board@.len() {
            n - a.missing_on_board@.len()
        } else {
            a.orphaned_on_board@.len() as int
        },
    decreases n,
{
    if n > 0 {
        lemma_proposed_kind_counts(u, a, n - 1);
        let t = u.take(n);
        assert(t.drop_last() =~= u.take(n - 1));
        assert(t.last() == u[n - 1]);
        let m = a.missing_on_board@;
        let o = a.orphaned_on_board@;
        let v = a.value_mismatches@;
        let i = n - 1;
        assert(lit_add_component() != lit_remove_component()) by {
            assert(lit_add_component()[0] != lit_remove_component()[0]);
        }
        assert(lit_add_component() != lit_update_component()) by {
            assert(lit_add_component()[0] != lit_update_component()[0]);
        }
        assert(lit_remove_component() != lit_update_component()) by {
            assert(lit_remove_component()[0] != lit_update_component()[0]);
        }
        if i < m.len() {
            assert(proposes_add(u[i], m[i]));
        } else if i < m.len() + o.len() {
            assert(proposes_remove(u[m.len() + (i - m.len())], o[i - m.len()]));
        } else if i < m.len() + o.len() + v.len() {
            assert(proposes_value_fix(u[m.len() + o.len() + (i - m.len() - o.len())], v[i - m.len() - o.len()]));
        } else {
            let p = a.part_mismatches@;
            assert(proposes_part_fix(
                u[m.len() + o.len() + v.len() + (i - m.len() - o.len() - v.len())],
                p[i - m.len() - o.len() - v.len()],
            ));
        }
    } else {
        assert(u.take(0) =~= Seq::<ProposalAction>::empty());
    }
}

/// The proposal's counts follow the audit: one action per audit entry, one
/// component to add per symbol missing on the board and one to remove per
/// component missing in the schematic.
pub proof fn lemma_proposal_counts(u: Seq<ProposalAction>, a: ForwardAnnotationAudit)
    requires
        proposes_all(u, a),
    ensures
        stable_sorted(u).len() == a.missing_on_board@.len() + a.orphaned_on_board@.len()
            + a.value_mismatches@.len() + a.part_mismatches@.len(),
        count_kind(stable_sorted(u), lit_add_component()) == a.missing_on_board@.len(),
        count_kind(stable_sorted(u), lit_remove_component()) == a.orphaned_on_board@.len(),
{
    lemma_stable_sorted_members(u);
    lemma_count_kind_sorted(u, lit_add_component());
    lemma_count_kind_sorted(u, lit_remove_component());
    lemma_proposed_kind_counts(u, a, u.len() as int);
    assert(u.take(u.len() as int) =~= u);
}

/// The forward-annotation proposal: every action, sorted, with the counts
/// and groups by kind.
pub struct ForwardAnnotationProposal {
    pub total_actions: usize,
    pub add_component_actions: usize,
    pub remove_component_actions: usize,
    pub update_component_actions: usize,
    pub add_component_group: Vec<ProposalAction>,
    pub remove_component_group: Vec<ProposalAction>,
    pub update_component_group: Vec<ProposalAction>,
    pub actions: Vec<ProposalAction>,
}

/// The actions that bring the board in line with the schematic: one per
/// symbol missing on the board, component missing in the schematic, value
/// mismatch and part mismatch, sorted by reference, action and reason with
/// ties kept in that order; the counts and groups by kind add up to all of
/// them.
pub fn query_native_project_forward_annotation_proposal(audit: &ForwardAnnotationAudit) -> (r:
    ForwardAnnotationProposal)
    ensures
        exists|u: Seq<ProposalAction>| proposes_all(u, *audit) && r.actions@ == stable_sorted(u),
        is_key_sorted(r.actions@),
        r.total_actions == r.actions@.len(),
        r.add_component_actions == count_kind(r.actions@, lit_add_component()),
        r.remove_component_actions == count_kind(r.actions@, lit_remove_component()),
        r.update_component_actions == count_kind(r.actions@, lit_update_component()),
        r.add_component_group@ == kind_group(r.actions@, lit_add_component()),
        r.remove_component_group@ == kind_group(r.actions@, lit_remove_component()),
        r.update_component_group@ == kind_group(r.actions@, lit_update_component()),
        r.total_actions == r.add_component_actions + r.remove_component_actions
            + r.update_component_actions,
        r.total_actions == audit.missing_on_board@.len() + audit.orphaned_on_board@.len()
            + audit.value_mismatches@.len() + audit.part_mismatches@.len(),
        r.add_component_actions == audit.missing_on_board@.len(),
        r.remove_component_actions == audit.orphaned_on_board@.len(),
{
    let u = unsorted_actions(audit);
    let ghost us = u@;
    let actions = stable_sort_by_key(u);
    proof {
        lemma_stable_sorted_members(us);
        let m = audit.missing_on_board@;
        let o = audit.orphaned_on_board@;
        let v = audit.value_mismatches@;
        let p = audit.part_mismatches@;
        assert(known_kinds(us)) by {
            assert forall|i: int| 0 <= i < us.len() implies (#[trigger] us[i]).action@
                == lit_add_component() || us[i].action@ == lit_remove_component() || us[i].action@
                == lit_update_component() by {
                if i < m.len() {
                    assert(proposes_add(us[i], m[i]));
                } else if i < m.len() + o.len() {
                    assert(proposes_remove(us[m.len() + (i - m.len())], o[i - m.len()]));
                } else if i < m.len() + o.len() + v.len() {
                    assert(proposes_value_fix(
                        us[m.len() + o.len() + (i - m.len() - o.len())],
                        v[i - m.len() - o.len()],
                    ));
                } else {
                    assert(proposes_part_fix(
                        us[m.len() + o.len() + v.len() + (i - m.len() - o.len() - v.len())],
                        p[i - m.len() - o.len() - v.len()],
                    ));
                }
            }
        }
        let t = actions@;
        assert forall|i: int| 0 <= i < t.len() implies (#[trigger] t[i]).action@
            == lit_add_component() || t[i].action@ == lit_remove_component() || t[i].action@
            == lit_update_component() by {
            assert(t[i] == stable_sorted(us)[i]);
            let j = choose|j: int| 0 <= j < us.len() && stable_sorted(us)[i] == #[trigger] us[j];
            assert(us[j] == t[i]);
        }
        lemma_kind_counts(t);
        lemma_proposal_counts(us, *audit);
    }
    let add_group = actions_of_kind(actions.as_slice(), &['a', 'd', 'd', '_', 'c', 'o', 'm', 'p', 'o', 'n', 'e', 'n', 't']);
    let remove_group = actions_of_kind(actions.as_slice(), &['r', 'e', 'm', 'o', 'v', 'e', '_', 'c', 'o', 'm', 'p', 'o', 'n', 'e', 'n', 't']);
    let update_group = actions_of_kind(actions.as_slice(), &['u', 'p', 'd', 'a', 't', 'e', '_', 'c', 'o', 'm', 'p', 'o', 'n', 'e', 'n', 't']);
    ForwardAnnotationProposal {
        total_actions: actions.len(),
        add_component_actions: add_group.len(),
        remove_component_actions: remove_group.len(),
        update_component_actions: update_group.len(),
        add_component_group: add_group,
        remove_component_group: remove_group,
        update_component_group: update_group,
        actions,
    }
}

/// A matched pair is listed as a part mismatch exactly when its symbol
/// resolves a part other than its component's, whatever the two values are:
/// every such pair is listed, and every listed pair is such a pair of the
/// input.
pub proof fn lemma_part_mismatch_membership(p: Seq<(SchematicSymbol, BoardComponent)>)
    ensures
        forall|i: int|
            0 <= i < p.len() && (#[trigger] p[i]).0.part_uuid is Some && p[i].0.part_uuid.unwrap() != p[i].1.part
                ==> part_mismatch_pairs(p).contains(p[i]),
        forall|x: (SchematicSymbol, BoardComponent)|
            #[trigger] part_mismatch_pairs(p).contains(x) ==> p.contains(x) && x.0.part_uuid is Some
                && x.0.part_uuid.unwrap() != x.1.part,
    decreases p.len(),
{
    if p.len() > 0 {
        let q = p.drop_last();
        lemma_part_mismatch_membership(q);
        let rest = part_mismatch_pairs(q);
        let out = part_mismatch_pairs(p);
        assert(forall|x: (SchematicSymbol, BoardComponent)| rest.contains(x) ==> out.contains(x)) by {
            assert forall|x: (SchematicSymbol, BoardComponent)| rest.contains(x) implies out.contains(x) by {
                let k = choose|k: int| 0 <= k < rest.len() && rest[k] == x;
                assert(out[k] == x);
            }
        }
        assert forall|i: int|
            0 <= i < p.len() && (#[trigger] p[i]).0.part_uuid is Some && p[i].0.part_uuid.unwrap() != p[i].1.part
                implies out.contains(p[i]) by {
            if i < q.len() {
                assert(q[i] == p[i]);
                assert(rest.contains(q[i]));
            } else {
                assert(out[out.len() - 1] == p[i]);
            }
        }
        assert forall|x: (SchematicSymbol, BoardComponent)| #[trigger] out.contains(x) implies p.contains(x)
            && x.0.part_uuid is Some && x.0.part_uuid.unwrap() != x.1.part by {
            let k = choose|k: int| 0 <= k < out.len() && out[k] == x;
            if k < rest.len() {
                assert(rest[k] == x);
                assert(rest.contains(x));
                let m = choose|m: int| 0 <= m < q.len() && q[m] == x;
                assert(p[m] == x);
            } else {
                assert(x == p.last());
                assert(p[p.len() - 1] == x);
            }
        }
    }
}

/// What of a pair the part check reads: the two references and parts.
pub open spec fn part_key(x: (SchematicSymbol, BoardComponent)) -> (Seq<char>, Option<u128>, Seq<char>, u128) {
    (x.0.reference@, x.0.part_uuid, x.1.reference@, x.1.part)
}

/// The part mismatches depend on the references and parts of the pairs
/// alone: two lists of pairs that agree on those, whatever their values,
/// give part-mismatch lists that agree on them too.
pub proof fn lemma_part_mismatches_ignore_values(
    p: Seq<(SchematicSymbol, BoardComponent)>,
    q: Seq<(SchematicSymbol, BoardComponent)>,
)
    requires
        p.len() == q.len(),
        forall|i: int| 0 <= i < p.len() ==> part_key(#[trigger] p[i]) == part_key(q[i]),
    ensures
        part_mismatch_pairs(p).len() == part_mismatch_pairs(q).len(),
        forall|k: int|
            0 <= k < part_mismatch_pairs(p).len() ==> part_key(#[trigger] part_mismatch_pairs(p)[k]) == part_key(
                part_mismatch_pairs(q)[k],
            ),
    decreases p.len(),
{
    if p.len() > 0 {
        assert forall|i: int| 0 <= i < p.drop_last().len() implies part_key(#[trigger] p.drop_last()[i]) == part_key(
            q.drop_last()[i],
        ) by {
            assert(p.drop_last()[i] == p[i] && q.drop_last()[i] == q[i]);
        }
        lemma_part_mismatches_ignore_values(p.drop_last(), q.drop_last());
        assert(part_key(p[p.len() - 1]) == part_key(q[q.len() - 1]));
    }
}

/// A matched pair is listed as a value mismatch exactly when the symbol's
/// value differs from the component's, whatever their parts are.
pub proof fn lemma_value_mismatch_membership(p: Seq<(SchematicSymbol, BoardComponent)>)
    ensures
        forall|i: int|
            0 <= i < p.len() && (#[trigger] p[i]).0.value@ != p[i].1.value@ ==> value_mismatch_pairs(p).contains(p[i]),
        forall|x: (SchematicSymbol, BoardComponent)|
            #[trigger] value_mismatch_pairs(p).contains(x) ==> p.contains(x) && x.0.value@ != x.1.value@,
    decreases p.len(),
{
    if p.len() > 0 {
        let q = p.drop_last();
        lemma_value_mismatch_membership(q);
        let rest = value_mismatch_pairs(q);
        let out = value_mismatch_pairs(p);
        assert forall|x: (SchematicSymbol, BoardComponent)| rest.contains(x) implies out.contains(x) by {
            let k = choose|k: int| 0 <= k < rest.len() && rest[k] == x;
            assert(out[k] == x);
        }
        assert forall|i: int| 0 <= i < p.len() && (#[trigger] p[i]).0.value@ != p[i].1.value@ implies out.contains(
            p[i],
        ) by {
            if i < q.len() {
                assert(q[i] == p[i]);
                assert(rest.contains(q[i]));
            } else {
                assert(out[out.len() - 1] == p[i]);
            }
        }
        assert forall|x: (SchematicSymbol, BoardComponent)| #[trigger] out.contains(x) implies p.contains(x)
            && x.0.value@ != x.1.value@ by {
            let k = choose|k: int| 0 <= k < out.len() && out[k] == x;
            if k < rest.len() {
                assert(rest[k] == x);
                assert(rest.contains(x));
                let m = choose|m: int| 0 <= m < q.len() && q[m] == x;
                assert(p[m] == x);
            } else {
                assert(p[p.len() - 1] == x);
            }
        }
    }
}

} // verus!
