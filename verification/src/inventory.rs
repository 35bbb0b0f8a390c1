//! Bills of materials and pick-and-place rows: how a row is derived from a
//! placed component, and how an exported file is compared with the board.
use vstd::prelude::*;
use crate::forward_annotation::{copy_text, text_of, texts_view};
use crate::forward_annotation_audit::{
    Referenced, by_reference, find_by_reference, find_ref, keyed_by_reference, lemma_by_reference_sorted,
    lemma_find_own, strictly_by_reference,
};
use crate::ids::{uuid_text, uuid_text_of};

verus! {

pub open spec fn lit_value() -> Seq<char> {
    seq!['v', 'a', 'l', 'u', 'e']
}

pub open spec fn lit_part_uuid() -> Seq<char> {
    seq!['p', 'a', 'r', 't', '_', 'u', 'u', 'i', 'd']
}

pub open spec fn lit_package_uuid() -> Seq<char> {
    seq!['p', 'a', 'c', 'k', 'a', 'g', 'e', '_', 'u', 'u', 'i', 'd']
}

pub open spec fn lit_layer() -> Seq<char> {
    seq!['l', 'a', 'y', 'e', 'r']
}

pub open spec fn lit_position() -> Seq<char> {
    seq!['p', 'o', 's', 'i', 't', 'i', 'o', 'n']
}

pub open spec fn lit_rotation_deg() -> Seq<char> {
    seq!['r', 'o', 't', 'a', 't', 'i', 'o', 'n', '_', 'd', 'e', 'g']
}

pub open spec fn lit_locked() -> Seq<char> {
    seq!['l', 'o', 'c', 'k', 'e', 'd']
}

pub open spec fn lit_side() -> Seq<char> {
    seq!['s', 'i', 'd', 'e']
}

pub open spec fn lit_top() -> Seq<char> {
    seq!['t', 'o', 'p']
}

pub open spec fn lit_bottom() -> Seq<char> {
    seq!['b', 'o', 't', 't', 'o', 'm']
}


/// `seq![name]` when `differs`, else nothing.
pub open spec fn named_if(differs: bool, name: Seq<char>) -> Seq<Seq<char>> {
    if differs {
        seq![name]
    } else {
        Seq::empty()
    }
}

/// Rows keyed by reference that can name the fields in which two differ.
pub trait InventoryRow: Referenced {
    spec fn field_diffs(&self, other: &Self) -> Seq<Seq<char>>;

    fn diff_fields(&self, other: &Self) -> (r: Vec<String>)
        ensures
            texts_view(r@) == self.field_diffs(other),
    ;

    /// A row differs from itself in no field.
    proof fn lemma_no_diff_with_self(a: Self)
        ensures
            a.field_diffs(&a).len() == 0,
    ;
}

/// A bill-of-materials row.
#[derive(Debug, PartialEq, Eq)]
pub struct NativeBomRow {
    pub reference: String,
    pub value: String,
    pub part_uuid: String,
    pub package_uuid: String,
    pub layer: i32,
    pub x_nm: i64,
    pub y_nm: i64,
    pub rotation_deg: i32,
    pub locked: bool,
}

/// A pick-and-place row.
#[derive(Debug, PartialEq, Eq)]
pub struct NativePnpRow {
    pub reference: String,
    pub x_nm: i64,
    pub y_nm: i64,
    pub rotation_deg: i32,
    pub layer: i32,
    pub side: String,
    pub package_uuid: String,
    pub part_uuid: String,
    pub value: String,
    pub locked: bool,
}

fn push_name(out: &mut Vec<String>, name: &[char])
    ensures
        texts_view(final(out)@) == texts_view(old(out)@) + seq![name@],
{
    out.push(text_of(name));
    proof {
        assert(texts_view(out@) =~= texts_view(old(out)@) + seq![name@]);
    }
}

impl Referenced for NativeBomRow {
    open spec fn ref_view(&self) -> Seq<char> {
        self.reference@
    }

    fn reference_text(&self) -> (r: &String) {
        &self.reference
    }

    fn duplicate(&self) -> (r: Self) {
        NativeBomRow {
            reference: copy_text(&self.reference),
            value: copy_text(&self.value),
            part_uuid: copy_text(&self.part_uuid),
            package_uuid: copy_text(&self.package_uuid),
            layer: self.layer,
            x_nm: self.x_nm,
            y_nm: self.y_nm,
            rotation_deg: self.rotation_deg,
            locked: self.locked,
        }
    }
}

impl InventoryRow for NativeBomRow {
    /// The differing fields in the order value, part, package, layer,
    /// position, rotation, locked.
    open spec fn field_diffs(&self, other: &Self) -> Seq<Seq<char>> {
        named_if(self.value@ != other.value@, lit_value()) + named_if(
            self.part_uuid@ != other.part_uuid@,
            lit_part_uuid(),
        ) + named_if(self.package_uuid@ != other.package_uuid@, lit_package_uuid()) + named_if(
            self.layer != other.layer,
            lit_layer(),
        ) + named_if(self.x_nm != other.x_nm || self.y_nm != other.y_nm, lit_position())
            + named_if(self.rotation_deg != other.rotation_deg, lit_rotation_deg()) + named_if(
            self.locked != other.locked,
            lit_locked(),
        )
    }

    proof fn lemma_no_diff_with_self(a: Self) {
    }

    fn diff_fields(&self, other: &Self) -> (r: Vec<String>) {
        let mut fields: Vec<String> = Vec::new();
        let ghost mut acc: Seq<Seq<char>> = Seq::empty();
        assert(texts_view(fields@) =~= acc);
        if !(self.value == other.value) {
            push_name(&mut fields, &['v', 'a', 'l', 'u', 'e']);
        }
        proof { acc = acc + named_if(self.value@ != other.value@, lit_value()); }
        if !(self.part_uuid == other.part_uuid) {
            push_name(&mut fields, &['p', 'a', 'r', 't', '_', 'u', 'u', 'i', 'd']);
        }
        proof { acc = acc + named_if(self.part_uuid@ != other.part_uuid@, lit_part_uuid()); }
        if !(self.package_uuid == other.package_uuid) {
            push_name(&mut fields, &['p', 'a', 'c', 'k', 'a', 'g', 'e', '_', 'u', 'u', 'i', 'd']);
        }
        proof { acc = acc + named_if(self.package_uuid@ != other.package_uuid@, lit_package_uuid()); }
        if self.layer != other.layer {
            push_name(&mut fields, &['l', 'a', 'y', 'e', 'r']);
        }
        proof { acc = acc + named_if(self.layer != other.layer, lit_layer()); }
        if self.x_nm != other.x_nm || self.y_nm != other.y_nm {
            push_name(&mut fields, &['p', 'o', 's', 'i', 't', 'i', 'o', 'n']);
        }
        proof { acc = acc + named_if(self.x_nm != other.x_nm || self.y_nm != other.y_nm, lit_position()); }
        if self.rotation_deg != other.rotation_deg {
            push_name(&mut fields, &['r', 'o', 't', 'a', 't', 'i', 'o', 'n', '_', 'd', 'e', 'g']);
        }
        proof { acc = acc + named_if(self.rotation_deg != other.rotation_deg, lit_rotation_deg()); }
        if self.locked != other.locked {
            push_name(&mut fields, &['l', 'o', 'c', 'k', 'e', 'd']);
        }
        proof { acc = acc + named_if(self.locked != other.locked, lit_locked()); }
        assert(acc =~= self.field_diffs(other));
        fields
    }
}

impl Referenced for NativePnpRow {
    open spec fn ref_view(&self) -> Seq<char> {
        self.reference@
    }

    fn reference_text(&self) -> (r: &String) {
        &self.reference
    }

    fn duplicate(&self) -> (r: Self) {
        NativePnpRow {
            reference: copy_text(&self.reference),
            x_nm: self.x_nm,
            y_nm: self.y_nm,
            rotation_deg: self.rotation_deg,
            layer: self.layer,
            side: copy_text(&self.side),
            package_uuid: copy_text(&self.package_uuid),
            part_uuid: copy_text(&self.part_uuid),
            value: copy_text(&self.value),
            locked: self.locked,
        }
    }
}

impl InventoryRow for NativePnpRow {
    /// The differing fields in the order position, rotation, layer, side,
    /// package, part, value, locked.
    open spec fn field_diffs(&self, other: &Self) -> Seq<Seq<char>> {
        named_if(self.x_nm != other.x_nm || self.y_nm != other.y_nm, lit_position()) + named_if(
            self.rotation_deg != other.rotation_deg,
            lit_rotation_deg(),
        ) + named_if(self.layer != other.layer, lit_layer()) + named_if(
            self.side@ != other.side@,
            lit_side(),
        ) + named_if(self.package_uuid@ != other.package_uuid@, lit_package_uuid()) + named_if(
            self.part_uuid@ != other.part_uuid@,
            lit_part_uuid(),
        ) + named_if(self.value@ != other.value@, lit_value()) + named_if(
            self.locked != other.locked,
            lit_locked(),
        )
    }

    proof fn lemma_no_diff_with_self(a: Self) {
    }

    fn diff_fields(&self, other: &Self) -> (r: Vec<String>) {
        let mut fields: Vec<String> = Vec::new();
        let ghost mut acc: Seq<Seq<char>> = Seq::empty();
        assert(texts_view(fields@) =~= acc);
        if self.x_nm != other.x_nm || self.y_nm != other.y_nm {
            push_name(&mut fields, &['p', 'o', 's', 'i', 't', 'i', 'o', 'n']);
        }
        proof { acc = acc + named_if(self.x_nm != other.x_nm || self.y_nm != other.y_nm, lit_position()); }
        if self.rotation_deg != other.rotation_deg {
            push_name(&mut fields, &['r', 'o', 't', 'a', 't', 'i', 'o', 'n', '_', 'd', 'e', 'g']);
        }
        proof { acc = acc + named_if(self.rotation_deg != other.rotation_deg, lit_rotation_deg()); }
        if self.layer != other.layer {
            push_name(&mut fields, &['l', 'a', 'y', 'e', 'r']);
        }
        proof { acc = acc + named_if(self.layer != other.layer, lit_layer()); }
        if !(self.side == other.side) {
            push_name(&mut fields, &['s', 'i', 'd', 'e']);
        }
        proof { acc = acc + named_if(self.side@ != other.side@, lit_side()); }
        if !(self.package_uuid == other.package_uuid) {
            push_name(&mut fields, &['p', 'a', 'c', 'k', 'a', 'g', 'e', '_', 'u', 'u', 'i', 'd']);
        }
        proof { acc = acc + named_if(self.package_uuid@ != other.package_uuid@, lit_package_uuid()); }
        if !(self.part_uuid == other.part_uuid) {
            push_name(&mut fields, &['p', 'a', 'r', 't', '_', 'u', 'u', 'i', 'd']);
        }
        proof { acc = acc + named_if(self.part_uuid@ != other.part_uuid@, lit_part_uuid()); }
        if !(self.value == other.value) {
            push_name(&mut fields, &['v', 'a', 'l', 'u', 'e']);
        }
        proof { acc = acc + named_if(self.value@ != other.value@, lit_value()); }
        if self.locked != other.locked {
            push_name(&mut fields, &['l', 'o', 'c', 'k', 'e', 'd']);
        }
        proof { acc = acc + named_if(self.locked != other.locked, lit_locked()); }
        assert(acc =~= self.field_diffs(other));
        fields
    }
}

/// A placed board component as the inventory reads it.
pub struct PlacedComponent {
    pub reference: String,
    pub value: String,
    pub part: u128,
    pub package: u128,
    pub layer: i32,
    pub x_nm: i64,
    pub y_nm: i64,
    pub rotation_deg: i32,
    pub locked: bool,
}

/// The side a component is placed on: layers up to 16 are the top.
pub open spec fn side_of(layer: i32) -> Seq<char> {
    if layer <= 16 {
        lit_top()
    } else {
        lit_bottom()
    }
}

/// The bill-of-materials row of a component.
pub fn component_to_bom_row(c: &PlacedComponent) -> (r: NativeBomRow)
    ensures
        r.reference@ == c.reference@,
        r.value@ == c.value@,
        r.part_uuid@ == uuid_text_of(c.part),
        r.package_uuid@ == uuid_text_of(c.package),
        r.layer == c.layer,
        r.x_nm == c.x_nm,
        r.y_nm == c.y_nm,
        r.rotation_deg == c.rotation_deg,
        r.locked == c.locked,
{
    NativeBomRow {
        reference: copy_text(&c.reference),
        value: copy_text(&c.value),
        part_uuid: uuid_text(c.part),
        package_uuid: uuid_text(c.package),
        layer: c.layer,
        x_nm: c.x_nm,
        y_nm: c.y_nm,
        rotation_deg: c.rotation_deg,
        locked: c.locked,
    }
}

/// The pick-and-place row of a component.
pub fn component_to_pnp_row(c: &PlacedComponent) -> (r: NativePnpRow)
    ensures
        r.reference@ == c.reference@,
        r.x_nm == c.x_nm,
        r.y_nm == c.y_nm,
        r.rotation_deg == c.rotation_deg,
        r.layer == c.layer,
        r.side@ == side_of(c.layer),
        r.package_uuid@ == uuid_text_of(c.package),
        r.part_uuid@ == uuid_text_of(c.part),
        r.value@ == c.value@,
        r.locked == c.locked,
{
    let side = if c.layer <= 16 {
        text_of(&['t', 'o', 'p'])
    } else {
        text_of(&['b', 'o', 't', 't', 'o', 'm'])
    };
    NativePnpRow {
        reference: copy_text(&c.reference),
        x_nm: c.x_nm,
        y_nm: c.y_nm,
        rotation_deg: c.rotation_deg,
        layer: c.layer,
        side,
        package_uuid: uuid_text(c.package),
        part_uuid: uuid_text(c.part),
        value: copy_text(&c.value),
        locked: c.locked,
    }
}

/// References of expected rows that the actual rows repeat exactly.
pub open spec fn matched_refs<T: InventoryRow>(ke: Seq<T>, ka: Seq<T>) -> Seq<Seq<char>>
    decreases ke.len(),
{
    if ke.len() == 0 {
        Seq::empty()
    } else {
        let rest = matched_refs(ke.drop_last(), ka);
        let e = ke.last();
        match find_ref(ka, e.ref_view()) {
            Some(a) => if e.field_diffs(&a).len() == 0 {
                rest.push(e.ref_view())
            } else {
                rest
            },
            None => rest,
        }
    }
}

/// References of the rows of `ks` that `other` lacks.
pub open spec fn unmatched_refs<T: InventoryRow>(ks: Seq<T>, other: Seq<T>) -> Seq<Seq<char>>
    decreases ks.len(),
{
    if ks.len() == 0 {
        Seq::empty()
    } else {
        let rest = unmatched_refs(ks.drop_last(), other);
        if find_ref(other, ks.last().ref_view()) is None {
            rest.push(ks.last().ref_view())
        } else {
            rest
        }
    }
}

/// References of expected rows whose actual row differs, with the fields.
pub open spec fn drifted_refs<T: InventoryRow>(ke: Seq<T>, ka: Seq<T>) -> Seq<(Seq<char>, Seq<Seq<char>>)>
    decreases ke.len(),
{
    if ke.len() == 0 {
        Seq::empty()
    } else {
        let rest = drifted_refs(ke.drop_last(), ka);
        let e = ke.last();
        match find_ref(ka, e.ref_view()) {
            Some(a) => if e.field_diffs(&a).len() > 0 {
                rest.push((e.ref_view(), e.field_diffs(&a)))
            } else {
                rest
            },
            None => rest,
        }
    }
}

/// A row that differs from what the board gives, and in which fields.
pub struct RowDrift {
    pub reference: String,
    pub fields: Vec<String>,
}

/// An exported inventory file compared with the board, both keyed by
/// reference.
pub struct InventoryComparison {
    pub expected_count: usize,
    pub actual_count: usize,
    pub matched: Vec<String>,
    pub missing: Vec<String>,
    pub extra: Vec<String>,
    pub drift: Vec<RowDrift>,
}

/// `c` compares the expected rows `ke` with the actual rows `ka`, both keyed
/// by reference.
pub open spec fn compares<T: InventoryRow>(c: InventoryComparison, ke: Seq<T>, ka: Seq<T>) -> bool {
    &&& texts_view(c.matched@) == matched_refs(ke, ka)
    &&& texts_view(c.missing@) == unmatched_refs(ke, ka)
    &&& texts_view(c.extra@) == unmatched_refs(ka, ke)
    &&& c.drift@.len() == drifted_refs(ke, ka).len()
    &&& forall|i: int|
        0 <= i < c.drift@.len() ==> (#[trigger] c.drift@[i]).reference@ == drifted_refs(ke, ka)[i].0
            && texts_view(c.drift@[i].fields@) == drifted_refs(ke, ka)[i].1
}

fn push_text(out: &mut Vec<String>, s: &String)
    ensures
        texts_view(final(out)@) == texts_view(old(out)@).push(s@),
{
    out.push(copy_text(s));
    proof {
        assert(texts_view(out@) =~= texts_view(old(out)@).push(s@));
    }
}

fn compare_keyed<T: InventoryRow>(ke: &[T], ka: &[T]) -> (r: InventoryComparison)
    ensures
        compares(r, ke@, ka@),
        r.expected_count == 0 && r.actual_count == 0,
{
    let mut matched: Vec<String> = Vec::new();
    let mut missing: Vec<String> = Vec::new();
    let mut drift: Vec<RowDrift> = Vec::new();
    let mut i: usize = 0;
    assert(ke@.take(0) =~= Seq::<T>::empty());
    assert(texts_view(matched@) =~= Seq::<Seq<char>>::empty());
    assert(texts_view(missing@) =~= Seq::<Seq<char>>::empty());
    while i < ke.len()
        invariant
            i <= ke.len(),
            texts_view(matched@) == matched_refs(ke@.take(i as int), ka@),
            texts_view(missing@) == unmatched_refs(ke@.take(i as int), ka@),
            drift@.len() == drifted_refs(ke@.take(i as int), ka@).len(),
            forall|k: int|
                0 <= k < drift@.len() ==> (#[trigger] drift@[k]).reference@ == drifted_refs(
                    ke@.take(i as int),
                    ka@,
                )[k].0 && texts_view(drift@[k].fields@) == drifted_refs(ke@.take(i as int), ka@)[k].1,
        decreases ke.len() - i,
    {
        let e = &ke[i];
        let ghost prev = ke@.take(i as int);
        proof {
            let next = ke@.take(i + 1);
            assert(next.drop_last() =~= prev);
            assert(next.last() == ke@[i as int]);
        }
        match find_by_reference(ka, e.reference_text()) {
            Some(j) => {
                let fields = e.diff_fields(&ka[j]);
                if fields.len() == 0 {
                    push_text(&mut matched, e.reference_text());
                } else {
                    let ghost before = drifted_refs(prev, ka@);
                    drift.push(RowDrift { reference: copy_text(e.reference_text()), fields });
                    proof {
                        assert(drifted_refs(ke@.take(i + 1), ka@) == before.push(
                            (e.ref_view(), e.field_diffs(&ka@[j as int])),
                        ));
                    }
                }
            },
            None => {
                push_text(&mut missing, e.reference_text());
            },
        }
        i = i + 1;
    }
    assert(ke@.take(ke.len() as int) =~= ke@);
    let mut extra: Vec<String> = Vec::new();
    let mut k: usize = 0;
    assert(ka@.take(0) =~= Seq::<T>::empty());
    assert(texts_view(extra@) =~= Seq::<Seq<char>>::empty());
    while k < ka.len()
        invariant
            k <= ka.len(),
            texts_view(extra@) == unmatched_refs(ka@.take(k as int), ke@),
        decreases ka.len() - k,
    {
        proof {
            let next = ka@.take(k + 1);
            assert(next.drop_last() =~= ka@.take(k as int));
            assert(next.last() == ka@[k as int]);
        }
        if find_by_reference(ke, ka[k].reference_text()).is_none() {
            push_text(&mut extra, ka[k].reference_text());
        }
        k = k + 1;
    }
    assert(ka@.take(ka.len() as int) =~= ka@);
    InventoryComparison { expected_count: 0, actual_count: 0, matched, missing, extra, drift }
}

/// The rows of an exported file compared with those the board gives, both
/// keyed by reference (a later row of one reference replacing an earlier):
/// references with equal rows, references missing from the file, references
/// the board lacks, and references whose rows differ with the differing
/// fields, each in ascending order; the counts are of the rows given.
pub fn compare_inventory_rows<T: InventoryRow>(expected: &[T], actual: &[T]) -> (r: InventoryComparison)
    ensures
        compares(r, by_reference(expected@), by_reference(actual@)),
        r.expected_count == expected@.len(),
        r.actual_count == actual@.len(),
{
    let ke = keyed_by_reference(expected);
    let ka = keyed_by_reference(actual);
    let c = compare_keyed(ke.as_slice(), ka.as_slice());
    InventoryComparison {
        expected_count: expected.len(),
        actual_count: actual.len(),
        matched: c.matched,
        missing: c.missing,
        extra: c.extra,
        drift: c.drift,
    }
}

/// A bill of materials compared with the board's components.
pub fn compare_native_project_bom(expected: &[NativeBomRow], actual: &[NativeBomRow]) -> (r:
    InventoryComparison)
    ensures
        compares(r, by_reference(expected@), by_reference(actual@)),
        r.expected_count == expected@.len(),
        r.actual_count == actual@.len(),
{
    compare_inventory_rows(expected, actual)
}

/// A pick-and-place file compared with the board's components.
pub fn compare_native_project_pnp(expected: &[NativePnpRow], actual: &[NativePnpRow]) -> (r:
    InventoryComparison)
    ensures
        compares(r, by_reference(expected@), by_reference(actual@)),
        r.expected_count == expected@.len(),
        r.actual_count == actual@.len(),
{
    compare_inventory_rows(expected, actual)
}

/// The references of the rows, in order.
pub open spec fn refs_of<T: InventoryRow>(s: Seq<T>) -> Seq<Seq<char>> {
    Seq::new(s.len(), |i: int| s[i].ref_view())
}

proof fn lemma_self_prefix<T: InventoryRow>(ke: Seq<T>, k: int)
    requires
        strictly_by_reference(ke),
        0 <= k <= ke.len(),
    ensures
        matched_refs(ke.take(k), ke) == refs_of(ke.take(k)),
        unmatched_refs(ke.take(k), ke).len() == 0,
        drifted_refs(ke.take(k), ke).len() == 0,
    decreases k,
{
    if k > 0 {
        lemma_self_prefix(ke, k - 1);
        let t = ke.take(k);
        assert(t.drop_last() =~= ke.take(k - 1));
        assert(t.last() == ke[k - 1]);
        lemma_find_own(ke, k - 1);
        T::lemma_no_diff_with_self(ke[k - 1]);
        assert(refs_of(t) =~= refs_of(ke.take(k - 1)).push(ke[k - 1].ref_view()));
    } else {
        assert(ke.take(0) =~= Seq::<T>::empty());
        assert(refs_of(ke.take(0)) =~= Seq::<Seq<char>>::empty());
    }
}

/// Compared with themselves, rows match in every reference: none is
/// missing, extra or drifted.
pub proof fn lemma_inventory_self_comparison<T: InventoryRow>(rows: Seq<T>)
    ensures
        matched_refs(by_reference(rows), by_reference(rows)) == refs_of(by_reference(rows)),
        unmatched_refs(by_reference(rows), by_reference(rows)).len() == 0,
        drifted_refs(by_reference(rows), by_reference(rows)).len() == 0,
{
    let ke = by_reference(rows);
    lemma_by_reference_sorted(rows);
    lemma_self_prefix(ke, ke.len() as int);
    assert(ke.take(ke.len() as int) =~= ke);
}

proof fn lemma_named_if_append(front: Seq<Seq<char>>, c: bool, n: Seq<char>, x: Seq<char>)
    ensures
        (front + named_if(c, n)).contains(x) <==> (front.contains(x) || (c && x == n)),
{
    let s = front + named_if(c, n);
    if front.contains(x) {
        let i = choose|i: int| 0 <= i < front.len() && front[i] == x;
        assert(s[i] == x);
    }
    if c && x == n {
        assert(s[front.len() as int] == x);
    }
    if s.contains(x) {
        let i = choose|i: int| 0 <= i < s.len() && s[i] == x;
        if i < front.len() {
            assert(front[i] == x);
        }
    }
}

proof fn lemma_named_if_alone(c: bool, n: Seq<char>, x: Seq<char>)
    ensures
        named_if(c, n).contains(x) <==> (c && x == n),
{
    assert(Seq::<Seq<char>>::empty() + named_if(c, n) =~= named_if(c, n));
    lemma_named_if_append(Seq::empty(), c, n, x);
}

proof fn lemma_field_names_distinct()
    ensures
        lit_value() != lit_part_uuid() && lit_value() != lit_package_uuid() && lit_value() != lit_layer()
            && lit_value() != lit_position() && lit_value() != lit_rotation_deg() && lit_value() != lit_locked()
            && lit_value() != lit_side(),
        lit_part_uuid() != lit_package_uuid() && lit_part_uuid() != lit_layer() && lit_part_uuid() != lit_position()
            && lit_part_uuid() != lit_rotation_deg() && lit_part_uuid() != lit_locked() && lit_part_uuid()
            != lit_side(),
        lit_package_uuid() != lit_layer() && lit_package_uuid() != lit_position() && lit_package_uuid()
            != lit_rotation_deg() && lit_package_uuid() != lit_locked() && lit_package_uuid() != lit_side(),
        lit_layer() != lit_position() && lit_layer() != lit_rotation_deg() && lit_layer() != lit_locked()
            && lit_layer() != lit_side(),
        lit_position() != lit_rotation_deg() && lit_position() != lit_locked() && lit_position() != lit_side(),
        lit_rotation_deg() != lit_locked() && lit_rotation_deg() != lit_side(),
        lit_locked() != lit_side(),
{
    assert(lit_value()[0] != lit_layer()[0]);
    assert(lit_package_uuid()[0] != lit_rotation_deg()[0]);
}

proof fn lemma_bom_diff_names(a: NativeBomRow, b: NativeBomRow, x: Seq<char>)
    ensures
        a.field_diffs(&b).contains(x) <==> ((a.value@ != b.value@ && x == lit_value()) || (a.part_uuid@
            != b.part_uuid@ && x == lit_part_uuid()) || (a.package_uuid@ != b.package_uuid@ && x
            == lit_package_uuid()) || (a.layer != b.layer && x == lit_layer()) || ((a.x_nm != b.x_nm || a.y_nm
            != b.y_nm) && x == lit_position()) || (a.rotation_deg != b.rotation_deg && x == lit_rotation_deg())
            || (a.locked != b.locked && x == lit_locked())),
{
    let s1 = named_if(a.value@ != b.value@, lit_value());
    let s2 = s1 + named_if(a.part_uuid@ != b.part_uuid@, lit_part_uuid());
    let s3 = s2 + named_if(a.package_uuid@ != b.package_uuid@, lit_package_uuid());
    let s4 = s3 + named_if(a.layer != b.layer, lit_layer());
    let s5 = s4 + named_if(a.x_nm != b.x_nm || a.y_nm != b.y_nm, lit_position());
    let s6 = s5 + named_if(a.rotation_deg != b.rotation_deg, lit_rotation_deg());
    let s7 = s6 + named_if(a.locked != b.locked, lit_locked());
    assert(a.field_diffs(&b) == s7);
    lemma_named_if_alone(a.value@ != b.value@, lit_value(), x);
    lemma_named_if_append(s1, a.part_uuid@ != b.part_uuid@, lit_part_uuid(), x);
    lemma_named_if_append(s2, a.package_uuid@ != b.package_uuid@, lit_package_uuid(), x);
    lemma_named_if_append(s3, a.layer != b.layer, lit_layer(), x);
    lemma_named_if_append(s4, a.x_nm != b.x_nm || a.y_nm != b.y_nm, lit_position(), x);
    lemma_named_if_append(s5, a.rotation_deg != b.rotation_deg, lit_rotation_deg(), x);
    lemma_named_if_append(s6, a.locked != b.locked, lit_locked(), x);
}

/// Comparing two bill-of-materials rows names each field in which they
/// differ and no other: the value, the part, the package, the layer, the
/// position (either coordinate), the rotation and the lock each appear
/// exactly when the rows disagree on it, and the rows are reported as
/// differing in nothing exactly when they agree on all of these.
pub proof fn lemma_bom_field_diffs(a: NativeBomRow, b: NativeBomRow)
    ensures
        a.field_diffs(&b).contains(lit_value()) <==> a.value@ != b.value@,
        a.field_diffs(&b).contains(lit_part_uuid()) <==> a.part_uuid@ != b.part_uuid@,
        a.field_diffs(&b).contains(lit_package_uuid()) <==> a.package_uuid@ != b.package_uuid@,
        a.field_diffs(&b).contains(lit_layer()) <==> a.layer != b.layer,
        a.field_diffs(&b).contains(lit_position()) <==> (a.x_nm != b.x_nm || a.y_nm != b.y_nm),
        a.field_diffs(&b).contains(lit_rotation_deg()) <==> a.rotation_deg != b.rotation_deg,
        a.field_diffs(&b).contains(lit_locked()) <==> a.locked != b.locked,
        a.field_diffs(&b).len() == 0 <==> (a.value@ == b.value@ && a.part_uuid@ == b.part_uuid@ && a.package_uuid@
            == b.package_uuid@ && a.layer == b.layer && a.x_nm == b.x_nm && a.y_nm == b.y_nm && a.rotation_deg
            == b.rotation_deg && a.locked == b.locked),
{
    lemma_field_names_distinct();
    lemma_bom_diff_names(a, b, lit_value());
    lemma_bom_diff_names(a, b, lit_part_uuid());
    lemma_bom_diff_names(a, b, lit_package_uuid());
    lemma_bom_diff_names(a, b, lit_layer());
    lemma_bom_diff_names(a, b, lit_position());
    lemma_bom_diff_names(a, b, lit_rotation_deg());
    lemma_bom_diff_names(a, b, lit_locked());
    if a.field_diffs(&b).len() > 0 {
        let x = a.field_diffs(&b)[0];
        assert(a.field_diffs(&b).contains(x));
        lemma_bom_diff_names(a, b, x);
    }
}

proof fn lemma_pnp_diff_names(a: NativePnpRow, b: NativePnpRow, x: Seq<char>)
    ensures
        a.field_diffs(&b).contains(x) <==> (((a.x_nm != b.x_nm || a.y_nm != b.y_nm) && x == lit_position())
            || (a.rotation_deg != b.rotation_deg && x == lit_rotation_deg()) || (a.layer != b.layer && x
            == lit_layer()) || (a.side@ != b.side@ && x == lit_side()) || (a.package_uuid@ != b.package_uuid@
            && x == lit_package_uuid()) || (a.part_uuid@ != b.part_uuid@ && x == lit_part_uuid()) || (a.value@
            != b.value@ && x == lit_value()) || (a.locked != b.locked && x == lit_locked())),
{
    let s1 = named_if(a.x_nm != b.x_nm || a.y_nm != b.y_nm, lit_position());
    let s2 = s1 + named_if(a.rotation_deg != b.rotation_deg, lit_rotation_deg());
    let s3 = s2 + named_if(a.layer != b.layer, lit_layer());
    let s4 = s3 + named_if(a.side@ != b.side@, lit_side());
    let s5 = s4 + named_if(a.package_uuid@ != b.package_uuid@, lit_package_uuid());
    let s6 = s5 + named_if(a.part_uuid@ != b.part_uuid@, lit_part_uuid());
    let s7 = s6 + named_if(a.value@ != b.value@, lit_value());
    let s8 = s7 + named_if(a.locked != b.locked, lit_locked());
    assert(a.field_diffs(&b) == s8);
    lemma_named_if_alone(a.x_nm != b.x_nm || a.y_nm != b.y_nm, lit_position(), x);
    lemma_named_if_append(s1, a.rotation_deg != b.rotation_deg, lit_rotation_deg(), x);
    lemma_named_if_append(s2, a.layer != b.layer, lit_layer(), x);
    lemma_named_if_append(s3, a.side@ != b.side@, lit_side(), x);
    lemma_named_if_append(s4, a.package_uuid@ != b.package_uuid@, lit_package_uuid(), x);
    lemma_named_if_append(s5, a.part_uuid@ != b.part_uuid@, lit_part_uuid(), x);
    lemma_named_if_append(s6, a.value@ != b.value@, lit_value(), x);
    lemma_named_if_append(s7, a.locked != b.locked, lit_locked(), x);
}

/// Comparing two pick-and-place rows names each field in which they differ
/// and no other: the position (either coordinate), the rotation, the layer,
/// the side, the package, the part, the value and the lock each appear
/// exactly when the rows disagree on it, and the rows are reported as
/// differing in nothing exactly when they agree on all of these.
pub proof fn lemma_pnp_field_diffs(a: NativePnpRow, b: NativePnpRow)
    ensures
        a.field_diffs(&b).contains(lit_position()) <==> (a.x_nm != b.x_nm || a.y_nm != b.y_nm),
        a.field_diffs(&b).contains(lit_rotation_deg()) <==> a.rotation_deg != b.rotation_deg,
        a.field_diffs(&b).contains(lit_layer()) <==> a.layer != b.layer,
        a.field_diffs(&b).contains(lit_side()) <==> a.side@ != b.side@,
        a.field_diffs(&b).contains(lit_package_uuid()) <==> a.package_uuid@ != b.package_uuid@,
        a.field_diffs(&b).contains(lit_part_uuid()) <==> a.part_uuid@ != b.part_uuid@,
        a.field_diffs(&b).contains(lit_value()) <==> a.value@ != b.value@,
        a.field_diffs(&b).contains(lit_locked()) <==> a.locked != b.locked,
        a.field_diffs(&b).len() == 0 <==> (a.x_nm == b.x_nm && a.y_nm == b.y_nm && a.rotation_deg == b.rotation_deg
            && a.layer == b.layer && a.side@ == b.side@ && a.package_uuid@ == b.package_uuid@ && a.part_uuid@
            == b.part_uuid@ && a.value@ == b.value@ && a.locked == b.locked),
{
    lemma_field_names_distinct();
    lemma_pnp_diff_names(a, b, lit_position());
    lemma_pnp_diff_names(a, b, lit_rotation_deg());
    lemma_pnp_diff_names(a, b, lit_layer());
    lemma_pnp_diff_names(a, b, lit_side());
    lemma_pnp_diff_names(a, b, lit_package_uuid());
    lemma_pnp_diff_names(a, b, lit_part_uuid());
    lemma_pnp_diff_names(a, b, lit_value());
    lemma_pnp_diff_names(a, b, lit_locked());
    if a.field_diffs(&b).len() > 0 {
        let x = a.field_diffs(&b)[0];
        assert(a.field_diffs(&b).contains(x));
        lemma_pnp_diff_names(a, b, x);
    }
}

} // verus!
