//! Drill data: how a hole spans the copper stack, the drill CSV file and
//! how one is compared with the board's vias.
use vstd::prelude::*;
use crate::forward_annotation::{text_of, texts_view};
use vstd::utf8::encode_utf8;
use crate::geometry::PathOrder;
use crate::ids::{is_lower_hex, lemma_uuid_text_chars, parse_uuid, uuid_parsed, uuid_text, uuid_text_of};
use crate::ordering::{SortKeyed, is_key_sorted, order_then, stable_sort_by_key, stable_sorted};
use crate::render::{int_text, lemma_int_text_chars, lemma_int_text_reads, push_chars, push_int_text};
use crate::text::{
    chars_eq, chars_of, i32_text, i64_text, is_digit, is_ws, lemma_lines_append, lemma_lines_cons,
    lemma_split_on_none, lemma_split_on_snoc, lines, parse_i32, parse_i64, split_chars, split_lines,
    split_on, string_from_chars, strip_cr, trim, trim_chars, trim_end, trim_start,
};

verus! {

pub open spec fn lit_through() -> Seq<char> {
    seq!['t', 'h', 'r', 'o', 'u', 'g', 'h']
}

pub open spec fn lit_blind() -> Seq<char> {
    seq!['b', 'l', 'i', 'n', 'd']
}

pub open spec fn lit_buried() -> Seq<char> {
    seq!['b', 'u', 'r', 'i', 'e', 'd']
}

pub open spec fn lit_unclassified() -> Seq<char> {
    seq!['u', 'n', 'c', 'l', 'a', 's', 's', 'i', 'f', 'i', 'e', 'd']
}

/// The header line of a drill CSV file.
pub open spec fn drill_csv_header() -> Seq<char> {
    seq!['v', 'i', 'a', '_', 'u', 'u', 'i', 'd', ',', 'n', 'e', 't', '_', 'u', 'u', 'i', 'd', ',', 'x', '_', 'n', 'm', ',', 'y', '_', 'n', 'm', ',', 'd', 'r', 'i', 'l', 'l', '_', 'n', 'm', ',', 'd', 'i', 'a', 'm', 'e', 't', 'e', 'r', '_', 'n', 'm', ',', 'f', 'r', 'o', 'm', '_', 'l', 'a', 'y', 'e', 'r', ',', 't', 'o', '_', 'l', 'a', 'y', 'e', 'r']
}

/// How a hole from layer `start` to layer `end` spans the copper stack:
/// from the top to the bottom copper layer is `through`, from either outer
/// layer `blind`, between inner layers `buried`; without known outer layers
/// it is `unclassified`.
pub open spec fn hole_class(start: i32, end: i32, top: Option<i32>, bottom: Option<i32>) -> Seq<char> {
    match (top, bottom) {
        (Some(t), Some(b)) => if start == t && end == b {
            lit_through()
        } else if start == t || end == b {
            lit_blind()
        } else {
            lit_buried()
        },
        _ => lit_unclassified(),
    }
}

/// How a hole from layer `start` to layer `end` spans the copper stack.
pub fn classify_via_hole_class(start: i32, end: i32, top_copper: Option<i32>, bottom_copper: Option<i32>) -> (r:
    String)
    ensures
        r@ == hole_class(start, end, top_copper, bottom_copper),
{
    match (top_copper, bottom_copper) {
        (Some(t), Some(b)) => if start == t && end == b {
            text_of(&['t', 'h', 'r', 'o', 'u', 'g', 'h'])
        } else if start == t || end == b {
            text_of(&['b', 'l', 'i', 'n', 'd'])
        } else {
            text_of(&['b', 'u', 'r', 'i', 'e', 'd'])
        },
        _ => text_of(&['u', 'n', 'c', 'l', 'a', 's', 's', 'i', 'f', 'i', 'e', 'd']),
    }
}

/// Integers compared by size.
pub open spec fn int_order(a: int, b: int) -> PathOrder {
    if a < b {
        PathOrder::Less
    } else if a > b {
        PathOrder::Greater
    } else {
        PathOrder::Equal
    }
}

fn compare_ints(a: i128, b: i128) -> (o: PathOrder)
    ensures
        o == int_order(a as int, b as int),
{
    if a < b {
        PathOrder::Less
    } else if a > b {
        PathOrder::Greater
    } else {
        PathOrder::Equal
    }
}

fn compare_ids(a: u128, b: u128) -> (o: PathOrder)
    ensures
        o == int_order(a as int, b as int),
{
    if a < b {
        PathOrder::Less
    } else if a > b {
        PathOrder::Greater
    } else {
        PathOrder::Equal
    }
}

/// A via of the board as the drill file reads it.
#[derive(Debug, Clone, Copy, PartialEq, Eq, Structural)]
pub struct DrillVia {
    pub uuid: u128,
    pub net: u128,
    pub x_nm: i64,
    pub y_nm: i64,
    pub drill_nm: i64,
    pub diameter_nm: i64,
    pub from_layer: i32,
    pub to_layer: i32,
}

impl SortKeyed for DrillVia {
    /// Vias are ordered by x, then y, then UUID.
    open spec fn key_rel(&self, other: &Self) -> PathOrder {
        order_then(
            int_order(self.x_nm as int, other.x_nm as int),
            order_then(
                int_order(self.y_nm as int, other.y_nm as int),
                int_order(self.uuid as int, other.uuid as int),
            ),
        )
    }

    proof fn lemma_key_rel_flip(a: Self, b: Self) {
    }

    proof fn lemma_key_le_trans(a: Self, b: Self, c: Self) {
    }

    fn compare_keys(&self, other: &Self) -> (o: PathOrder) {
        let o = compare_ints(self.x_nm as i128, other.x_nm as i128);
        if o != PathOrder::Equal {
            return o;
        }
        let o = compare_ints(self.y_nm as i128, other.y_nm as i128);
        if o != PathOrder::Equal {
            return o;
        }
        compare_ids(self.uuid, other.uuid)
    }
}

/// The board's vias in drill order: by x, then y, then UUID.
pub fn sorted_native_project_board_vias(vias: Vec<DrillVia>) -> (r: Vec<DrillVia>)
    ensures
        r@ == stable_sorted(vias@),
        is_key_sorted(r@),
{
    stable_sort_by_key(vias)
}

/// One row of a drill CSV file, without its via UUID.
#[derive(Debug, Clone, Copy, PartialEq, Eq, Structural)]
pub struct NativeProjectDrillCsvRow {
    pub net_uuid: u128,
    pub x_nm: i64,
    pub y_nm: i64,
    pub drill_nm: i64,
    pub diameter_nm: i64,
    pub from_layer: i32,
    pub to_layer: i32,
}

/// The drill CSV row of a via.
pub open spec fn via_row(v: DrillVia) -> (u128, NativeProjectDrillCsvRow) {
    (
        v.uuid,
        NativeProjectDrillCsvRow {
            net_uuid: v.net,
            x_nm: v.x_nm,
            y_nm: v.y_nm,
            drill_nm: v.drill_nm,
            diameter_nm: v.diameter_nm,
            from_layer: v.from_layer,
            to_layer: v.to_layer,
        },
    )
}

/// The drill CSV row of a via, keyed by the via's UUID.
pub fn csv_drill_row_from_via(via: DrillVia) -> (r: (u128, NativeProjectDrillCsvRow))
    ensures
        r == via_row(via),
{
    (
        via.uuid,
        NativeProjectDrillCsvRow {
            net_uuid: via.net,
            x_nm: via.x_nm,
            y_nm: via.y_nm,
            drill_nm: via.drill_nm,
            diameter_nm: via.diameter_nm,
            from_layer: via.from_layer,
            to_layer: via.to_layer,
        },
    )
}

/// The text of one via in a drill CSV file (without the line end).
pub open spec fn via_csv_line(v: DrillVia) -> Seq<char> {
    uuid_text_of(v.uuid) + seq![','] + uuid_text_of(v.net) + seq![','] + int_text(v.x_nm as int)
        + seq![','] + int_text(v.y_nm as int) + seq![','] + int_text(v.drill_nm as int) + seq![',']
        + int_text(v.diameter_nm as int) + seq![','] + int_text(v.from_layer as int) + seq![',']
        + int_text(v.to_layer as int)
}

/// The lines of the vias, each followed by a line end.
pub open spec fn via_csv_lines(vias: Seq<DrillVia>) -> Seq<char>
    decreases vias.len(),
{
    if vias.len() == 0 {
        Seq::empty()
    } else {
        via_csv_lines(vias.drop_last()) + via_csv_line(vias.last()) + seq!['\n']
    }
}

/// A drill CSV file: the header line, then one line per via in order.
pub open spec fn drill_csv_text(vias: Seq<DrillVia>) -> Seq<char> {
    drill_csv_header() + seq!['\n'] + via_csv_lines(vias)
}

fn push_via_line(out: &mut Vec<char>, v: DrillVia)
    ensures
        final(out)@ == old(out)@ + via_csv_line(v) + seq!['\n'],
{
    let id = uuid_text(v.uuid);
    push_chars(out, chars_of(id.as_str()).as_slice());
    push_chars(out, &[',']);
    let net = uuid_text(v.net);
    push_chars(out, chars_of(net.as_str()).as_slice());
    push_chars(out, &[',']);
    push_int_text(out, v.x_nm);
    push_chars(out, &[',']);
    push_int_text(out, v.y_nm);
    push_chars(out, &[',']);
    push_int_text(out, v.drill_nm);
    push_chars(out, &[',']);
    push_int_text(out, v.diameter_nm);
    push_chars(out, &[',']);
    push_int_text(out, v.from_layer as i64);
    push_chars(out, &[',']);
    push_int_text(out, v.to_layer as i64);
    push_chars(out, &['\n']);
    assert(out@ =~= old(out)@ + via_csv_line(v) + seq!['\n']);
}

/// The drill CSV file of the vias, in the order given.
pub fn render_native_project_drill_csv(vias: &[DrillVia]) -> (s: String)
    ensures
        s@ == drill_csv_text(vias@),
{
    let mut out: Vec<char> = Vec::new();
    push_chars(&mut out, &['v', 'i', 'a', '_', 'u', 'u', 'i', 'd', ',', 'n', 'e', 't', '_', 'u', 'u', 'i', 'd', ',', 'x', '_', 'n', 'm', ',', 'y', '_', 'n', 'm', ',', 'd', 'r', 'i', 'l', 'l', '_', 'n', 'm', ',', 'd', 'i', 'a', 'm', 'e', 't', 'e', 'r', '_', 'n', 'm', ',', 'f', 'r', 'o', 'm', '_', 'l', 'a', 'y', 'e', 'r', ',', 't', 'o', '_', 'l', 'a', 'y', 'e', 'r']);
    push_chars(&mut out, &['\n']);
    let mut i: usize = 0;
    assert(vias@.take(0) =~= Seq::<DrillVia>::empty());
    assert(out@ =~= drill_csv_header() + seq!['\n'] + via_csv_lines(vias@.take(0)));
    while i < vias.len()
        invariant
            i <= vias.len(),
            out@ == drill_csv_header() + seq!['\n'] + via_csv_lines(vias@.take(i as int)),
        decreases vias.len() - i,
    {
        let v = vias[i];
        push_via_line(&mut out, v);
        proof {
            let next = vias@.take(i + 1);
            assert(next.drop_last() =~= vias@.take(i as int));
            assert(next.last() == v);
            assert(via_csv_lines(next) == via_csv_lines(vias@.take(i as int)) + via_csv_line(v)
                + seq!['\n']);
            assert(out@ =~= drill_csv_header() + seq!['\n'] + via_csv_lines(next));
        }
        i = i + 1;
    }
    assert(vias@.take(vias.len() as int) =~= vias@);
    string_from_chars(out.as_slice())
}

/// The drill CSV file the board's vias give: sorted by x, y and UUID.
pub fn render_expected_native_project_drill_csv(vias: Vec<DrillVia>) -> (s: String)
    ensures
        s@ == drill_csv_text(stable_sorted(vias@)),
{
    let sorted = sorted_native_project_board_vias(vias);
    render_native_project_drill_csv(sorted.as_slice())
}

/// A drill CSV file held against the one the board's vias give.
pub struct DrillValidation {
    pub matches_expected: bool,
    pub expected_bytes: usize,
    pub actual_bytes: usize,
}

/// A drill CSV file held against the one the board's vias give: whether it
/// is exactly that file, and the sizes of both in bytes.
pub fn validate_native_project_drill(vias: Vec<DrillVia>, actual: &str) -> (r: DrillValidation)
    ensures
        r.matches_expected == (actual@ == drill_csv_text(stable_sorted(vias@))),
        r.expected_bytes == encode_utf8(drill_csv_text(stable_sorted(vias@))).len() as usize,
        r.actual_bytes == encode_utf8(actual@).len() as usize,
{
    let expected = render_expected_native_project_drill_csv(vias);
    let e = chars_of(expected.as_str());
    let a = chars_of(actual);
    let expected_bytes = expected.as_str().len();
    DrillValidation {
        matches_expected: chars_eq(e.as_slice(), a.as_slice()),
        expected_bytes,
        actual_bytes: actual.len(),
    }
}

/// A column of a drill CSV row.
#[derive(Debug, Clone, Copy, PartialEq, Eq, Structural)]
pub enum DrillColumn {
    ViaUuid,
    NetUuid,
    XNm,
    YNm,
    DrillNm,
    DiameterNm,
    FromLayer,
    ToLayer,
}

/// Why a drill CSV file cannot be read.  `row_index` counts the lines after
/// the header from 0, blank ones included (the file line is `row_index + 2`).
#[derive(Debug, Clone, Copy, PartialEq, Eq, Structural)]
pub enum DrillCsvError {
    /// The first line is not the drill CSV header.
    UnexpectedHeader,
    /// A row does not have eight columns.
    ColumnCount { row_index: usize },
    /// A column does not read as a UUID or an integer.
    InvalidField { row_index: usize, column: DrillColumn },
}

/// The via UUID and row of eight columns, or the first column, in order,
/// that does not read.
pub open spec fn drill_row_of(cols: Seq<Seq<char>>) -> Result<(u128, NativeProjectDrillCsvRow), DrillColumn> {
    match uuid_parsed(cols[0]) {
        None => Err(DrillColumn::ViaUuid),
        Some(via) => match uuid_parsed(cols[1]) {
            None => Err(DrillColumn::NetUuid),
            Some(net) => match i64_text(cols[2]) {
                None => Err(DrillColumn::XNm),
                Some(x) => match i64_text(cols[3]) {
                    None => Err(DrillColumn::YNm),
                    Some(y) => match i64_text(cols[4]) {
                        None => Err(DrillColumn::DrillNm),
                        Some(d) => match i64_text(cols[5]) {
                            None => Err(DrillColumn::DiameterNm),
                            Some(dia) => match i32_text(cols[6]) {
                                None => Err(DrillColumn::FromLayer),
                                Some(from) => match i32_text(cols[7]) {
                                    None => Err(DrillColumn::ToLayer),
                                    Some(to) => Ok(
                                        (
                                            via,
                                            NativeProjectDrillCsvRow {
                                                net_uuid: net,
                                                x_nm: x,
                                                y_nm: y,
                                                drill_nm: d,
                                                diameter_nm: dia,
                                                from_layer: from,
                                                to_layer: to,
                                            },
                                        ),
                                    ),
                                },
                            },
                        },
                    },
                },
            },
        },
    }
}

/// The rows of the lines after the header, in order: blank lines are
/// skipped, every other line must have eight readable columns.
pub open spec fn drill_rows_of(body: Seq<Seq<char>>) -> Result<Seq<(u128, NativeProjectDrillCsvRow)>, DrillCsvError>
    decreases body.len(),
{
    if body.len() == 0 {
        Ok(Seq::empty())
    } else {
        match drill_rows_of(body.drop_last()) {
            Err(e) => Err(e),
            Ok(prev) => {
                let line = body.last();
                let index = (body.len() - 1) as usize;
                if trim(line).len() == 0 {
                    Ok(prev)
                } else if split_on(line, ',').len() != 8 {
                    Err(DrillCsvError::ColumnCount { row_index: index })
                } else {
                    match drill_row_of(split_on(line, ',')) {
                        Err(c) => Err(DrillCsvError::InvalidField { row_index: index, column: c }),
                        Ok(r) => Ok(prev.push(r)),
                    }
                }
            },
        }
    }
}

/// A drill CSV file read: its first line must be the header, the rest are
/// rows.
pub open spec fn drill_csv_of(contents: Seq<char>) -> Result<Seq<(u128, NativeProjectDrillCsvRow)>, DrillCsvError> {
    let ls = lines(contents);
    let header = if ls.len() == 0 {
        Seq::empty()
    } else {
        ls[0]
    };
    if header != drill_csv_header() {
        Err(DrillCsvError::UnexpectedHeader)
    } else {
        drill_rows_of(ls.skip(1))
    }
}

fn parse_drill_columns(cols: &Vec<Vec<char>>, spec_cols: Ghost<Seq<Seq<char>>>) -> (r: Result<
    (u128, NativeProjectDrillCsvRow),
    DrillColumn,
>)
    requires
        cols@.len() == 8,
        spec_cols@.len() == 8,
        forall|k: int| 0 <= k < 8 ==> #[trigger] cols@[k]@ == spec_cols@[k],
    ensures
        r == drill_row_of(spec_cols@),
{
    assert(cols@[0]@ == spec_cols@[0]);
    assert(cols@[1]@ == spec_cols@[1]);
    assert(cols@[2]@ == spec_cols@[2]);
    assert(cols@[3]@ == spec_cols@[3]);
    assert(cols@[4]@ == spec_cols@[4]);
    assert(cols@[5]@ == spec_cols@[5]);
    assert(cols@[6]@ == spec_cols@[6]);
    assert(cols@[7]@ == spec_cols@[7]);
    let via = match parse_uuid(string_from_chars(cols[0].as_slice()).as_str()) {
        Some(v) => v,
        None => { return Err(DrillColumn::ViaUuid); },
    };
    let net = match parse_uuid(string_from_chars(cols[1].as_slice()).as_str()) {
        Some(v) => v,
        None => { return Err(DrillColumn::NetUuid); },
    };
    let x = match parse_i64(cols[2].as_slice()) {
        Some(v) => v,
        None => { return Err(DrillColumn::XNm); },
    };
    let y = match parse_i64(cols[3].as_slice()) {
        Some(v) => v,
        None => { return Err(DrillColumn::YNm); },
    };
    let d = match parse_i64(cols[4].as_slice()) {
        Some(v) => v,
        None => { return Err(DrillColumn::DrillNm); },
    };
    let dia = match parse_i64(cols[5].as_slice()) {
        Some(v) => v,
        None => { return Err(DrillColumn::DiameterNm); },
    };
    let from = match parse_i32(cols[6].as_slice()) {
        Some(v) => v,
        None => { return Err(DrillColumn::FromLayer); },
    };
    let to = match parse_i32(cols[7].as_slice()) {
        Some(v) => v,
        None => { return Err(DrillColumn::ToLayer); },
    };
    Ok(
        (
            via,
            NativeProjectDrillCsvRow {
                net_uuid: net,
                x_nm: x,
                y_nm: y,
                drill_nm: d,
                diameter_nm: dia,
                from_layer: from,
                to_layer: to,
            },
        ),
    )
}

proof fn lemma_rows_error_persists(body: Seq<Seq<char>>, i: int)
    requires
        0 <= i <= body.len(),
        drill_rows_of(body.take(i)) is Err,
    ensures
        drill_rows_of(body) == drill_rows_of(body.take(i)),
    decreases body.len() - i,
{
    if i < body.len() {
        assert(body.take(i + 1).drop_last() =~= body.take(i));
        lemma_rows_error_persists(body, i + 1);
    } else {
        assert(body.take(i) =~= body);
    }
}

/// The rows of a drill CSV file, in order: the first line must be the
/// header, blank lines are skipped, and every other line must hold a via
/// UUID, a net UUID, four integers and two layers.
pub fn parse_native_project_drill_csv_rows(contents: &str) -> (r: Result<
    Vec<(u128, NativeProjectDrillCsvRow)>,
    DrillCsvError,
>)
    ensures
        match drill_csv_of(contents@) {
            Ok(rows) => r is Ok && r.unwrap()@ == rows,
            Err(e) => r == Err::<Vec<(u128, NativeProjectDrillCsvRow)>, DrillCsvError>(e),
        },
{
    let text = chars_of(contents);
    let ls = split_lines(text.as_slice());
    let ghost sl = lines(contents@);
    assert(ls@.len() == sl.len());
    let header_ok = if ls.len() == 0 {
        false
    } else {
        chars_eq(ls[0].as_slice(), &['v', 'i', 'a', '_', 'u', 'u', 'i', 'd', ',', 'n', 'e', 't', '_', 'u', 'u', 'i', 'd', ',', 'x', '_', 'n', 'm', ',', 'y', '_', 'n', 'm', ',', 'd', 'r', 'i', 'l', 'l', '_', 'n', 'm', ',', 'd', 'i', 'a', 'm', 'e', 't', 'e', 'r', '_', 'n', 'm', ',', 'f', 'r', 'o', 'm', '_', 'l', 'a', 'y', 'e', 'r', ',', 't', 'o', '_', 'l', 'a', 'y', 'e', 'r'])
    };
    proof {
        if ls@.len() > 0 {
            assert(ls@[0]@ == sl[0]);
        } else {
            assert(Seq::<char>::empty() != drill_csv_header()) by {
                assert(drill_csv_header().len() > 0);
            }
        }
    }
    if !header_ok {
        return Err(DrillCsvError::UnexpectedHeader);
    }
    let ghost body = sl.skip(1);
    assert(drill_csv_of(contents@) == drill_rows_of(body));
    let mut rows: Vec<(u128, NativeProjectDrillCsvRow)> = Vec::new();
    let mut i: usize = 1;
    assert(body.take(0) =~= Seq::<Seq<char>>::empty());
    while i < ls.len()
        invariant
            1 <= i <= ls@.len(),
            ls@.len() == sl.len(),
            forall|k: int| 0 <= k < ls@.len() ==> #[trigger] ls@[k]@ == sl[k],
            body == sl.skip(1),
            sl == lines(contents@),
            drill_csv_of(contents@) == drill_rows_of(body),
            drill_rows_of(body.take(i - 1)) == Ok::<
                Seq<(u128, NativeProjectDrillCsvRow)>,
                DrillCsvError,
            >(rows@),
        decreases ls.len() - i,
    {
        let line = &ls[i];
        let index: usize = i - 1;
        proof {
            let next = body.take(i as int);
            assert(next.drop_last() =~= body.take(i - 1));
            assert(next.last() == sl[i as int]);
            assert(ls@[i as int]@ == sl[i as int]);
        }
        if trim_chars(line.as_slice()).len() != 0 {
            let cols = split_chars(line.as_slice(), ',');
            if cols.len() != 8 {
                proof {
                    lemma_rows_error_persists(body, i as int);
                }
                return Err(DrillCsvError::ColumnCount { row_index: index });
            }
            match parse_drill_columns(&cols, Ghost(split_on(line@, ','))) {
                Ok(row) => {
                    rows.push(row);
                },
                Err(c) => {
                    proof {
                        lemma_rows_error_persists(body, i as int);
                    }
                    return Err(DrillCsvError::InvalidField { row_index: index, column: c });
                },
            }
        }
        i = i + 1;
    }
    assert(body.take(i - 1) =~= body);
    Ok(rows)
}

/// `x` put into `t` by via UUID: before the first row whose UUID is not
/// smaller, replacing it when the UUIDs are equal.
pub open spec fn insert_by_uuid(t: Seq<(u128, NativeProjectDrillCsvRow)>, x: (u128, NativeProjectDrillCsvRow)) -> Seq<
    (u128, NativeProjectDrillCsvRow),
>
    decreases t.len(),
{
    if t.len() == 0 {
        seq![x]
    } else if x.0 < t[0].0 {
        seq![x] + t
    } else if x.0 == t[0].0 {
        seq![x] + t.drop_first()
    } else {
        seq![t[0]] + insert_by_uuid(t.drop_first(), x)
    }
}

/// The rows keyed by via UUID, a later row of one via replacing an earlier,
/// in ascending order of UUID.
pub open spec fn by_uuid(s: Seq<(u128, NativeProjectDrillCsvRow)>) -> Seq<(u128, NativeProjectDrillCsvRow)>
    decreases s.len(),
{
    if s.len() == 0 {
        Seq::empty()
    } else {
        insert_by_uuid(by_uuid(s.drop_last()), s.last())
    }
}

/// The row of the first entry of `s` for the via `id`.
pub open spec fn row_for(s: Seq<(u128, NativeProjectDrillCsvRow)>, id: u128) -> Option<NativeProjectDrillCsvRow>
    decreases s.len(),
{
    if s.len() == 0 {
        None
    } else if s[0].0 == id {
        Some(s[0].1)
    } else {
        row_for(s.drop_first(), id)
    }
}

fn insert_row(out: &mut Vec<(u128, NativeProjectDrillCsvRow)>, x: (u128, NativeProjectDrillCsvRow))
    ensures
        final(out)@ == insert_by_uuid(old(out)@, x),
{
    let ghost t = out@;
    let mut k: usize = 0;
    assert(t.skip(0) =~= t);
    assert(t.take(0) + t.skip(0) =~= t);
    while k < out.len() && out[k].0 < x.0
        invariant
            out@ == t,
            k <= t.len(),
            insert_by_uuid(t, x) == t.take(k as int) + insert_by_uuid(t.skip(k as int), x),
        decreases t.len() - k,
    {
        proof {
            let u = t.skip(k as int);
            assert(u[0] == t[k as int]);
            assert(u.drop_first() =~= t.skip(k + 1));
            assert(t.take(k as int) + seq![t[k as int]] =~= t.take(k + 1));
            assert(t.take(k as int) + (seq![t[k as int]] + insert_by_uuid(t.skip(k + 1), x))
                =~= t.take(k + 1) + insert_by_uuid(t.skip(k + 1), x));
        }
        k = k + 1;
    }
    if k < out.len() {
        proof {
            let u = t.skip(k as int);
            assert(u[0] == t[k as int]);
            assert(u.drop_first() =~= t.skip(k + 1));
        }
        if out[k].0 == x.0 {
            out.set(k, x);
            proof {
                assert(out@ =~= t.take(k as int) + (seq![x] + t.skip(k as int).drop_first()));
            }
        } else {
            out.insert(k, x);
            proof {
                assert(out@ =~= t.take(k as int) + (seq![x] + t.skip(k as int)));
            }
        }
    } else {
        out.push(x);
        proof {
            assert(t.skip(k as int) =~= Seq::<(u128, NativeProjectDrillCsvRow)>::empty());
            assert(t.take(k as int) =~= t);
            assert(out@ =~= t.take(k as int) + seq![x]);
        }
    }
}

/// The rows keyed by via UUID as a map keeps them: a later row of one via
/// replaces an earlier, and they come out in ascending order of UUID.
pub fn rows_by_via(rows: &[(u128, NativeProjectDrillCsvRow)]) -> (r: Vec<(u128, NativeProjectDrillCsvRow)>)
    ensures
        r@ == by_uuid(rows@),
{
    let mut out: Vec<(u128, NativeProjectDrillCsvRow)> = Vec::new();
    let mut i: usize = 0;
    assert(rows@.take(0) =~= Seq::<(u128, NativeProjectDrillCsvRow)>::empty());
    while i < rows.len()
        invariant
            i <= rows.len(),
            out@ == by_uuid(rows@.take(i as int)),
        decreases rows.len() - i,
    {
        insert_row(&mut out, rows[i]);
        proof {
            let next = rows@.take(i + 1);
            assert(next.drop_last() =~= rows@.take(i as int));
            assert(next.last() == rows@[i as int]);
        }
        i = i + 1;
    }
    assert(rows@.take(rows.len() as int) =~= rows@);
    out
}

fn find_row(s: &[(u128, NativeProjectDrillCsvRow)], id: u128) -> (r: Option<NativeProjectDrillCsvRow>)
    ensures
        r == row_for(s@, id),
{
    let mut k: usize = 0;
    assert(s@.skip(0) =~= s@);
    while k < s.len()
        invariant
            k <= s.len(),
            row_for(s@, id) == row_for(s@.skip(k as int), id),
        decreases s.len() - k,
    {
        proof {
            let u = s@.skip(k as int);
            assert(u[0] == s@[k as int]);
            assert(u.drop_first() =~= s@.skip(k + 1));
        }
        if s[k].0 == id {
            return Some(s[k].1);
        }
        k = k + 1;
    }
    assert(s@.skip(k as int) =~= Seq::<(u128, NativeProjectDrillCsvRow)>::empty());
    None
}

/// The UUIDs of expected rows whose actual row `pick` selects: equal rows
/// (`Some(true)`), differing rows (`Some(false)`), or no actual row (`None`).
pub open spec fn vias_where(
    ke: Seq<(u128, NativeProjectDrillCsvRow)>,
    ka: Seq<(u128, NativeProjectDrillCsvRow)>,
    pick: Option<bool>,
) -> Seq<u128>
    decreases ke.len(),
{
    if ke.len() == 0 {
        Seq::empty()
    } else {
        let rest = vias_where(ke.drop_last(), ka, pick);
        let e = ke.last();
        let found = match row_for(ka, e.0) {
            Some(a) => Some(a == e.1),
            None => None,
        };
        if found == pick {
            rest.push(e.0)
        } else {
            rest
        }
    }
}

/// The UUIDs of the texts.
pub open spec fn uuid_texts(ids: Seq<u128>) -> Seq<Seq<char>> {
    Seq::new(ids.len(), |i: int| uuid_text_of(ids[i]))
}

/// A drill CSV file compared with the board's vias.
pub struct DrillComparison {
    pub expected_row_count: usize,
    pub actual_row_count: usize,
    pub matched: Vec<String>,
    pub missing: Vec<String>,
    pub extra: Vec<String>,
    pub drift: Vec<String>,
}

fn push_uuid(out: &mut Vec<String>, id: u128, ids: Ghost<Seq<u128>>)
    requires
        texts_view(old(out)@) == uuid_texts(ids@),
    ensures
        texts_view(final(out)@) == uuid_texts(ids@.push(id)),
{
    let t = uuid_text(id);
    let ghost before = out@;
    out.push(t);
    proof {
        assert(before.len() == texts_view(before).len());
        assert(before.len() == ids@.len());
        assert forall|i: int| 0 <= i < out@.len() implies texts_view(out@)[i] == uuid_texts(
            ids@.push(id),
        )[i] by {
            if i < before.len() {
                assert(out@[i] == before[i]);
                assert(texts_view(before)[i] == uuid_texts(ids@)[i]);
            }
        }
        assert(texts_view(out@) =~= uuid_texts(ids@.push(id)));
    }
}

/// A drill CSV file compared with the vias of the board, both keyed by via
/// UUID (a later row of one via replacing an earlier): the vias whose rows
/// match, those the file lacks, those the board lacks and those whose rows
/// differ, each in ascending order of UUID; the counts are of distinct vias.
pub fn compare_native_project_drill(vias: &[DrillVia], actual_rows: &[(u128, NativeProjectDrillCsvRow)]) -> (r:
    DrillComparison)
    ensures
        ({
            let ke = by_uuid(vias@.map_values(|v: DrillVia| via_row(v)));
            let ka = by_uuid(actual_rows@);
            &&& r.expected_row_count == ke.len()
            &&& r.actual_row_count == ka.len()
            &&& texts_view(r.matched@) == uuid_texts(vias_where(ke, ka, Some(true)))
            &&& texts_view(r.drift@) == uuid_texts(vias_where(ke, ka, Some(false)))
            &&& texts_view(r.missing@) == uuid_texts(vias_where(ke, ka, None))
            &&& texts_view(r.extra@) == uuid_texts(vias_where(ka, ke, None))
        }),
{
    let mut expected_rows: Vec<(u128, NativeProjectDrillCsvRow)> = Vec::new();
    let mut i: usize = 0;
    while i < vias.len()
        invariant
            i <= vias.len(),
            expected_rows@ == vias@.take(i as int).map_values(|v: DrillVia| via_row(v)),
        decreases vias.len() - i,
    {
        expected_rows.push(csv_drill_row_from_via(vias[i]));
        proof {
            assert(vias@.take(i + 1).map_values(|v: DrillVia| via_row(v)) =~= vias@.take(
                i as int,
            ).map_values(|v: DrillVia| via_row(v)).push(via_row(vias@[i as int])));
        }
        i = i + 1;
    }
    assert(vias@.take(vias.len() as int) =~= vias@);
    let ke = rows_by_via(expected_rows.as_slice());
    let ka = rows_by_via(actual_rows);
    let mut matched: Vec<String> = Vec::new();
    let mut missing: Vec<String> = Vec::new();
    let mut drift: Vec<String> = Vec::new();
    let mut extra: Vec<String> = Vec::new();
    let mut k: usize = 0;
    assert(ke@.take(0) =~= Seq::<(u128, NativeProjectDrillCsvRow)>::empty());
    assert(texts_view(matched@) =~= uuid_texts(Seq::<u128>::empty()));
    assert(texts_view(missing@) =~= uuid_texts(Seq::<u128>::empty()));
    assert(texts_view(drift@) =~= uuid_texts(Seq::<u128>::empty()));
    assert(texts_view(extra@) =~= uuid_texts(Seq::<u128>::empty()));
    while k < ke.len()
        invariant
            k <= ke.len(),
            texts_view(matched@) == uuid_texts(vias_where(ke@.take(k as int), ka@, Some(true))),
            texts_view(drift@) == uuid_texts(vias_where(ke@.take(k as int), ka@, Some(false))),
            texts_view(missing@) == uuid_texts(vias_where(ke@.take(k as int), ka@, None)),
        decreases ke.len() - k,
    {
        let e = ke[k];
        proof {
            let next = ke@.take(k + 1);
            assert(next.drop_last() =~= ke@.take(k as int));
            assert(next.last() == e);
        }
        match find_row(ka.as_slice(), e.0) {
            Some(a) => {
                if a == e.1 {
                    push_uuid(&mut matched, e.0, Ghost(vias_where(ke@.take(k as int), ka@, Some(true))));
                } else {
                    push_uuid(&mut drift, e.0, Ghost(vias_where(ke@.take(k as int), ka@, Some(false))));
                }
            },
            None => {
                push_uuid(&mut missing, e.0, Ghost(vias_where(ke@.take(k as int), ka@, None)));
            },
        }
        k = k + 1;
    }
    assert(ke@.take(ke.len() as int) =~= ke@);
    let mut j: usize = 0;
    assert(ka@.take(0) =~= Seq::<(u128, NativeProjectDrillCsvRow)>::empty());
    while j < ka.len()
        invariant
            j <= ka.len(),
            texts_view(extra@) == uuid_texts(vias_where(ka@.take(j as int), ke@, None)),
        decreases ka.len() - j,
    {
        let a = ka[j];
        proof {
            let next = ka@.take(j + 1);
            assert(next.drop_last() =~= ka@.take(j as int));
            assert(next.last() == a);
        }
        if find_row(ke.as_slice(), a.0).is_none() {
            push_uuid(&mut extra, a.0, Ghost(vias_where(ka@.take(j as int), ke@, None)));
        }
        j = j + 1;
    }
    assert(ka@.take(ka.len() as int) =~= ka@);
    DrillComparison {
        expected_row_count: ke.len(),
        actual_row_count: ka.len(),
        matched,
        missing,
        extra,
        drift,
    }
}

/// The via UUIDs of `s` ascend strictly.
pub open spec fn strictly_by_uuid(s: Seq<(u128, NativeProjectDrillCsvRow)>) -> bool {
    forall|i: int, j: int| 0 <= i < j < s.len() ==> (#[trigger] s[i]).0 < (#[trigger] s[j]).0
}

proof fn lemma_insert_by_uuid_members(t: Seq<(u128, NativeProjectDrillCsvRow)>, x: (u128, NativeProjectDrillCsvRow))
    ensures
        forall|i: int|
            0 <= i < insert_by_uuid(t, x).len() ==> #[trigger] insert_by_uuid(t, x)[i] == x || exists|j: int|
                0 <= j < t.len() && insert_by_uuid(t, x)[i] == #[trigger] t[j],
    decreases t.len(),
{
    let r = insert_by_uuid(t, x);
    if t.len() > 0 {
        let rest = t.drop_first();
        lemma_insert_by_uuid_members(rest, x);
        assert forall|i: int| 0 <= i < r.len() implies #[trigger] r[i] == x || exists|j: int|
            0 <= j < t.len() && r[i] == #[trigger] t[j] by {
            if x.0 < t[0].0 {
                if i > 0 {
                    assert(r[i] == t[i - 1]);
                }
            } else if x.0 == t[0].0 {
                if i > 0 {
                    assert(r[i] == t[i]);
                }
            } else {
                if i == 0 {
                    assert(r[i] == t[0]);
                } else {
                    let u = insert_by_uuid(rest, x);
                    assert(r[i] == u[i - 1]);
                    if u[i - 1] != x {
                        let j = choose|j: int| 0 <= j < rest.len() && u[i - 1] == #[trigger] rest[j];
                        assert(rest[j] == t[j + 1]);
                    }
                }
            }
        }
    }
}

proof fn lemma_insert_by_uuid_sorted(t: Seq<(u128, NativeProjectDrillCsvRow)>, x: (u128, NativeProjectDrillCsvRow))
    requires
        strictly_by_uuid(t),
    ensures
        strictly_by_uuid(insert_by_uuid(t, x)),
    decreases t.len(),
{
    let r = insert_by_uuid(t, x);
    if t.len() > 0 {
        let rest = t.drop_first();
        if x.0 < t[0].0 {
            assert forall|i: int, j: int| 0 <= i < j < r.len() implies (#[trigger] r[i]).0 < (#[trigger] r[j]).0 by {
                assert(r[j] == t[j - 1]);
                if i > 0 {
                    assert(r[i] == t[i - 1]);
                }
            }
        } else if x.0 == t[0].0 {
            assert forall|i: int, j: int| 0 <= i < j < r.len() implies (#[trigger] r[i]).0 < (#[trigger] r[j]).0 by {
                assert(r[j] == t[j]);
                if i > 0 {
                    assert(r[i] == t[i]);
                }
            }
        } else {
            assert(strictly_by_uuid(rest)) by {
                assert forall|i: int, j: int| 0 <= i < j < rest.len() implies (#[trigger] rest[i]).0
                    < (#[trigger] rest[j]).0 by {
                    assert(rest[i] == t[i + 1] && rest[j] == t[j + 1]);
                }
            }
            lemma_insert_by_uuid_sorted(rest, x);
            lemma_insert_by_uuid_members(rest, x);
            let u = insert_by_uuid(rest, x);
            assert forall|i: int, j: int| 0 <= i < j < r.len() implies (#[trigger] r[i]).0 < (#[trigger] r[j]).0 by {
                assert(r[j] == u[j - 1]);
                if i == 0 {
                    if u[j - 1] != x {
                        let m = choose|m: int| 0 <= m < rest.len() && u[j - 1] == #[trigger] rest[m];
                        assert(rest[m] == t[m + 1]);
                    }
                } else {
                    assert(r[i] == u[i - 1]);
                }
            }
        }
    }
}

/// Rows keyed by via UUID come out in strictly ascending order of UUID.
pub proof fn lemma_by_uuid_sorted(s: Seq<(u128, NativeProjectDrillCsvRow)>)
    ensures
        strictly_by_uuid(by_uuid(s)),
    decreases s.len(),
{
    if s.len() > 0 {
        lemma_by_uuid_sorted(s.drop_last());
        lemma_insert_by_uuid_sorted(by_uuid(s.drop_last()), s.last());
    }
}

proof fn lemma_row_for_own(s: Seq<(u128, NativeProjectDrillCsvRow)>, i: int)
    requires
        strictly_by_uuid(s),
        0 <= i < s.len(),
    ensures
        row_for(s, s[i].0) == Some(s[i].1),
    decreases i,
{
    if i > 0 {
        let rest = s.drop_first();
        assert(strictly_by_uuid(rest)) by {
            assert forall|a: int, b: int| 0 <= a < b < rest.len() implies (#[trigger] rest[a]).0 < (#[trigger] rest[b]).0 by {
                assert(rest[a] == s[a + 1] && rest[b] == s[b + 1]);
            }
        }
        assert(s[0].0 < s[i].0);
        lemma_row_for_own(rest, i - 1);
        assert(rest[i - 1] == s[i]);
    }
}

/// The UUIDs of the rows, in order.
pub open spec fn uuids_of(s: Seq<(u128, NativeProjectDrillCsvRow)>) -> Seq<u128> {
    Seq::new(s.len(), |i: int| s[i].0)
}

proof fn lemma_drill_self_prefix(ke: Seq<(u128, NativeProjectDrillCsvRow)>, k: int)
    requires
        strictly_by_uuid(ke),
        0 <= k <= ke.len(),
    ensures
        vias_where(ke.take(k), ke, Some(true)) == uuids_of(ke.take(k)),
        vias_where(ke.take(k), ke, Some(false)).len() == 0,
        vias_where(ke.take(k), ke, None).len() == 0,
    decreases k,
{
    if k > 0 {
        lemma_drill_self_prefix(ke, k - 1);
        let t = ke.take(k);
        assert(t.drop_last() =~= ke.take(k - 1));
        assert(t.last() == ke[k - 1]);
        lemma_row_for_own(ke, k - 1);
        assert(uuids_of(t) =~= uuids_of(ke.take(k - 1)).push(ke[k - 1].0));
    } else {
        assert(ke.take(0) =~= Seq::<(u128, NativeProjectDrillCsvRow)>::empty());
        assert(uuids_of(ke.take(0)) =~= Seq::<u128>::empty());
    }
}

/// Drill rows compared with themselves match in every via: none is missing,
/// extra or drifted.
pub proof fn lemma_drill_self_comparison(rows: Seq<(u128, NativeProjectDrillCsvRow)>)
    ensures
        vias_where(by_uuid(rows), by_uuid(rows), Some(true)) == uuids_of(by_uuid(rows)),
        vias_where(by_uuid(rows), by_uuid(rows), Some(false)).len() == 0,
        vias_where(by_uuid(rows), by_uuid(rows), None).len() == 0,
{
    let ke = by_uuid(rows);
    lemma_by_uuid_sorted(rows);
    lemma_drill_self_prefix(ke, ke.len() as int);
    assert(ke.take(ke.len() as int) =~= ke);
}

/// A drill CSV row as an inspection lists it.
pub struct DrillInspectionRow {
    pub via_uuid: String,
    pub net_uuid: String,
    pub x_nm: i64,
    pub y_nm: i64,
    pub drill_nm: i64,
    pub diameter_nm: i64,
    pub from_layer: i32,
    pub to_layer: i32,
}

/// `v` lists the row `r`.
pub open spec fn lists_row(v: DrillInspectionRow, r: (u128, NativeProjectDrillCsvRow)) -> bool {
    &&& v.via_uuid@ == uuid_text_of(r.0)
    &&& v.net_uuid@ == uuid_text_of(r.1.net_uuid)
    &&& v.x_nm == r.1.x_nm
    &&& v.y_nm == r.1.y_nm
    &&& v.drill_nm == r.1.drill_nm
    &&& v.diameter_nm == r.1.diameter_nm
    &&& v.from_layer == r.1.from_layer
    &&& v.to_layer == r.1.to_layer
}

/// The rows of a drill CSV file, in file order, with their UUIDs as text.
pub fn inspect_native_project_drill(contents: &str) -> (r: Result<Vec<DrillInspectionRow>, DrillCsvError>)
    ensures
        match drill_csv_of(contents@) {
            Err(e) => r == Err::<Vec<DrillInspectionRow>, DrillCsvError>(e),
            Ok(rows) => r is Ok && r.unwrap()@.len() == rows.len() && forall|i: int|
                0 <= i < rows.len() ==> lists_row(#[trigger] r.unwrap()@[i], rows[i]),
        },
{
    let rows = parse_native_project_drill_csv_rows(contents)?;
    let mut out: Vec<DrillInspectionRow> = Vec::new();
    let mut i: usize = 0;
    while i < rows.len()
        invariant
            i <= rows.len(),
            out@.len() == i,
            forall|k: int| 0 <= k < i ==> lists_row(#[trigger] out@[k], rows@[k]),
        decreases rows.len() - i,
    {
        let (via, row) = rows[i];
        out.push(
            DrillInspectionRow {
                via_uuid: uuid_text(via),
                net_uuid: uuid_text(row.net_uuid),
                x_nm: row.x_nm,
                y_nm: row.y_nm,
                drill_nm: row.drill_nm,
                diameter_nm: row.diameter_nm,
                from_layer: row.from_layer,
                to_layer: row.to_layer,
            },
        );
        i = i + 1;
    }
    Ok(out)
}

/// Text without a line end.
#[verifier::opaque]
pub open spec fn one_line(s: Seq<char>) -> bool {
    forall|i: int| 0 <= i < s.len() ==> s[i] != '\n'
}

/// Text without a `,`.
#[verifier::opaque]
pub open spec fn comma_free(s: Seq<char>) -> bool {
    forall|i: int| 0 <= i < s.len() ==> s[i] != ','
}

proof fn lemma_one_line_join(a: Seq<char>, b: Seq<char>)
    requires
        one_line(a),
        one_line(b),
    ensures
        one_line(a + seq![','] + b),
{
    reveal(one_line);
    let s = a + seq![','] + b;
    assert forall|i: int| 0 <= i < s.len() implies s[i] != '\n' by {
        if i < a.len() {
            assert(s[i] == a[i]);
        } else if i > a.len() {
            assert(s[i] == b[i - a.len() - 1]);
        }
    }
}

proof fn lemma_split_snoc(a: Seq<char>, b: Seq<char>)
    requires
        comma_free(b),
    ensures
        split_on(a + seq![','] + b, ',') == split_on(a, ',').push(b),
{
    reveal(comma_free);
    lemma_split_on_snoc(a, b, ',');
}

proof fn lemma_header_one_line()
    ensures
        one_line(drill_csv_header()),
        drill_csv_header().last() == 'r',
{
    reveal(one_line);
    let h = drill_csv_header();
    assert(h.len() == 68);
    assert forall|i: int| 0 <= i < h.len() implies h[i] != '\n' by {
        if i == 0 {
            assert(h[0] == 'v');
        } else if i == 1 {
            assert(h[1] == 'i');
        } else if i == 2 {
            assert(h[2] == 'a');
        } else if i == 3 {
            assert(h[3] == '_');
        } else if i == 4 {
            assert(h[4] == 'u');
        } else if i == 5 {
            assert(h[5] == 'u');
        } else if i == 6 {
            assert(h[6] == 'i');
        } else if i == 7 {
            assert(h[7] == 'd');
        } else if i == 8 {
            assert(h[8] == ',');
        } else if i == 9 {
            assert(h[9] == 'n');
        } else if i == 10 {
            assert(h[10] == 'e');
        } else if i == 11 {
            assert(h[11] == 't');
        } else if i == 12 {
            assert(h[12] == '_');
        } else if i == 13 {
            assert(h[13] == 'u');
        } else if i == 14 {
            assert(h[14] == 'u');
        } else if i == 15 {
            assert(h[15] == 'i');
        } else if i == 16 {
            assert(h[16] == 'd');
        } else if i == 17 {
            assert(h[17] == ',');
        } else if i == 18 {
            assert(h[18] == 'x');
        } else if i == 19 {
            assert(h[19] == '_');
        } else if i == 20 {
            assert(h[20] == 'n');
        } else if i == 21 {
            assert(h[21] == 'm');
        } else if i == 22 {
            assert(h[22] == ',');
        } else if i == 23 {
            assert(h[23] == 'y');
        } else if i == 24 {
            assert(h[24] == '_');
        } else if i == 25 {
            assert(h[25] == 'n');
        } else if i == 26 {
            assert(h[26] == 'm');
        } else if i == 27 {
            assert(h[27] == ',');
        } else if i == 28 {
            assert(h[28] == 'd');
        } else if i == 29 {
            assert(h[29] == 'r');
        } else if i == 30 {
            assert(h[30] == 'i');
        } else if i == 31 {
            assert(h[31] == 'l');
        } else if i == 32 {
            assert(h[32] == 'l');
        } else if i == 33 {
            assert(h[33] == '_');
        } else if i == 34 {
            assert(h[34] == 'n');
        } else if i == 35 {
            assert(h[35] == 'm');
        } else if i == 36 {
            assert(h[36] == ',');
        } else if i == 37 {
            assert(h[37] == 'd');
        } else if i == 38 {
            assert(h[38] == 'i');
        } else if i == 39 {
            assert(h[39] == 'a');
        } else if i == 40 {
            assert(h[40] == 'm');
        } else if i == 41 {
            assert(h[41] == 'e');
        } else if i == 42 {
            assert(h[42] == 't');
        } else if i == 43 {
            assert(h[43] == 'e');
        } else if i == 44 {
            assert(h[44] == 'r');
        } else if i == 45 {
            assert(h[45] == '_');
        } else if i == 46 {
            assert(h[46] == 'n');
        } else if i == 47 {
            assert(h[47] == 'm');
        } else if i == 48 {
            assert(h[48] == ',');
        } else if i == 49 {
            assert(h[49] == 'f');
        } else if i == 50 {
            assert(h[50] == 'r');
        } else if i == 51 {
            assert(h[51] == 'o');
        } else if i == 52 {
            assert(h[52] == 'm');
        } else if i == 53 {
            assert(h[53] == '_');
        } else if i == 54 {
            assert(h[54] == 'l');
        } else if i == 55 {
            assert(h[55] == 'a');
        } else if i == 56 {
            assert(h[56] == 'y');
        } else if i == 57 {
            assert(h[57] == 'e');
        } else if i == 58 {
            assert(h[58] == 'r');
        } else if i == 59 {
            assert(h[59] == ',');
        } else if i == 60 {
            assert(h[60] == 't');
        } else if i == 61 {
            assert(h[61] == 'o');
        } else if i == 62 {
            assert(h[62] == '_');
        } else if i == 63 {
            assert(h[63] == 'l');
        } else if i == 64 {
            assert(h[64] == 'a');
        } else if i == 65 {
            assert(h[65] == 'y');
        } else if i == 66 {
            assert(h[66] == 'e');
        } else if i == 67 {
            assert(h[67] == 'r');
        }
    }
}

proof fn lemma_uuid_field(v: u128)
    ensures
        one_line(uuid_text_of(v)),
        comma_free(uuid_text_of(v)),
        uuid_text_of(v).len() > 0,
        is_lower_hex(uuid_text_of(v)[0]),
{
    reveal(one_line);
    reveal(comma_free);
    lemma_uuid_text_chars(v);
}

proof fn lemma_int_field(v: int)
    ensures
        one_line(int_text(v)),
        comma_free(int_text(v)),
        int_text(v).len() > 0,
        is_digit(int_text(v).last()),
{
    reveal(one_line);
    reveal(comma_free);
    lemma_int_text_chars(v);
}

/// The eight columns of a via's line, in order.
pub open spec fn via_columns(v: DrillVia) -> Seq<Seq<char>> {
    seq![
        uuid_text_of(v.uuid),
        uuid_text_of(v.net),
        int_text(v.x_nm as int),
        int_text(v.y_nm as int),
        int_text(v.drill_nm as int),
        int_text(v.diameter_nm as int),
        int_text(v.from_layer as int),
        int_text(v.to_layer as int),
    ]
}

proof fn lemma_via_line_split(v: DrillVia)
    ensures
        split_on(via_csv_line(v), ',') == via_columns(v),
{
    let c0 = uuid_text_of(v.uuid);
    let c1 = uuid_text_of(v.net);
    let c2 = int_text(v.x_nm as int);
    let c3 = int_text(v.y_nm as int);
    let c4 = int_text(v.drill_nm as int);
    let c5 = int_text(v.diameter_nm as int);
    let c6 = int_text(v.from_layer as int);
    let c7 = int_text(v.to_layer as int);
    lemma_uuid_field(v.uuid);
    lemma_uuid_field(v.net);
    lemma_int_field(v.x_nm as int);
    lemma_int_field(v.y_nm as int);
    lemma_int_field(v.drill_nm as int);
    lemma_int_field(v.diameter_nm as int);
    lemma_int_field(v.from_layer as int);
    lemma_int_field(v.to_layer as int);
    let d = seq![','];
    let p1 = c0;
    let p2 = p1 + d + c1;
    let p3 = p2 + d + c2;
    let p4 = p3 + d + c3;
    let p5 = p4 + d + c4;
    let p6 = p5 + d + c5;
    let p7 = p6 + d + c6;
    let p8 = p7 + d + c7;
    assert(p8 == via_csv_line(v));
    reveal(comma_free);
    lemma_split_on_none(p1, ',');
    lemma_split_snoc(p1, c1);
    lemma_split_snoc(p2, c2);
    lemma_split_snoc(p3, c3);
    lemma_split_snoc(p4, c4);
    lemma_split_snoc(p5, c5);
    lemma_split_snoc(p6, c6);
    lemma_split_snoc(p7, c7);
    assert(split_on(p8, ',') =~= via_columns(v));
}

proof fn lemma_via_line_ends(v: DrillVia)
    ensures
        one_line(via_csv_line(v)),
        via_csv_line(v).len() > 0,
        is_lower_hex(via_csv_line(v)[0]),
        is_digit(via_csv_line(v).last()),
{
    let c0 = uuid_text_of(v.uuid);
    let c1 = uuid_text_of(v.net);
    let c2 = int_text(v.x_nm as int);
    let c3 = int_text(v.y_nm as int);
    let c4 = int_text(v.drill_nm as int);
    let c5 = int_text(v.diameter_nm as int);
    let c6 = int_text(v.from_layer as int);
    let c7 = int_text(v.to_layer as int);
    lemma_uuid_field(v.uuid);
    lemma_uuid_field(v.net);
    lemma_int_field(v.x_nm as int);
    lemma_int_field(v.y_nm as int);
    lemma_int_field(v.drill_nm as int);
    lemma_int_field(v.diameter_nm as int);
    lemma_int_field(v.from_layer as int);
    lemma_int_field(v.to_layer as int);
    let d = seq![','];
    let p1 = c0;
    let p2 = p1 + d + c1;
    let p3 = p2 + d + c2;
    let p4 = p3 + d + c3;
    let p5 = p4 + d + c4;
    let p6 = p5 + d + c5;
    let p7 = p6 + d + c6;
    let p8 = p7 + d + c7;
    assert(p8 == via_csv_line(v));
    lemma_one_line_join(p1, c1);
    lemma_one_line_join(p2, c2);
    lemma_one_line_join(p3, c3);
    lemma_one_line_join(p4, c4);
    lemma_one_line_join(p5, c5);
    lemma_one_line_join(p6, c6);
    lemma_one_line_join(p7, c7);
    assert(p2[0] == c0[0]);
    assert(p3[0] == c0[0]);
    assert(p4[0] == c0[0]);
    assert(p5[0] == c0[0]);
    assert(p6[0] == c0[0]);
    assert(p7[0] == c0[0]);
    assert(p8[0] == c0[0]);
    assert(p8.last() == c7.last());
}

/// The UUID parser reads the via's and its net's UUID text back as those
/// UUIDs.
pub open spec fn via_uuids_read_back(v: DrillVia) -> bool {
    uuid_parsed(uuid_text_of(v.uuid)) == Some(v.uuid) && uuid_parsed(uuid_text_of(v.net)) == Some(v.net)
}

proof fn lemma_via_row_reads(v: DrillVia)
    requires
        via_uuids_read_back(v),
    ensures
        drill_row_of(via_columns(v)) == Ok::<(u128, NativeProjectDrillCsvRow), DrillColumn>(via_row(v)),
{
    lemma_int_text_reads(v.x_nm as int, i64::MIN as int, i64::MAX as int);
    lemma_int_text_reads(v.y_nm as int, i64::MIN as int, i64::MAX as int);
    lemma_int_text_reads(v.drill_nm as int, i64::MIN as int, i64::MAX as int);
    lemma_int_text_reads(v.diameter_nm as int, i64::MIN as int, i64::MAX as int);
    lemma_int_text_reads(v.from_layer as int, i32::MIN as int, i32::MAX as int);
    lemma_int_text_reads(v.to_layer as int, i32::MIN as int, i32::MAX as int);
}

proof fn lemma_one_via_line(l: Seq<char>)
    requires
        one_line(l),
        l.len() > 0,
        is_digit(l.last()),
    ensures
        lines(l + seq!['\n']) == seq![l],
{
    reveal(one_line);
    lemma_lines_cons(l, Seq::empty());
    assert(l + seq!['\n'] + Seq::<char>::empty() =~= l + seq!['\n']);
    assert(lines(Seq::<char>::empty()) =~= Seq::<Seq<char>>::empty());
    assert(strip_cr(l) == l);
    assert(seq![l] + Seq::<Seq<char>>::empty() =~= seq![l]);
}

proof fn lemma_lines_of_vias_snoc(vias: Seq<DrillVia>)
    requires
        vias.len() > 0,
    ensures
        lines_of_vias(vias) == lines_of_vias(vias.drop_last()).push(via_csv_line(vias.last())),
{
    assert(lines_of_vias(vias) =~= lines_of_vias(vias.drop_last()).push(via_csv_line(vias.last())));
}

proof fn lemma_via_csv_lines_snoc(vias: Seq<DrillVia>)
    requires
        vias.len() > 0,
    ensures
        via_csv_lines(vias) == via_csv_lines(vias.drop_last()) + (via_csv_line(vias.last()) + seq!['\n']),
        via_csv_lines(vias.drop_last()).len() == 0 || via_csv_lines(vias.drop_last()).last() == '\n',
{
    let x = via_csv_lines(vias.drop_last());
    let l = via_csv_line(vias.last());
    assert(x + l + seq!['\n'] =~= x + (l + seq!['\n']));
    if vias.drop_last().len() > 0 {
        assert(x.last() == '\n');
    }
}

proof fn lemma_via_lines(vias: Seq<DrillVia>)
    ensures
        lines(via_csv_lines(vias)) == lines_of_vias(vias),
    decreases vias.len(),
{
    if vias.len() == 0 {
        assert(lines(via_csv_lines(vias)) =~= Seq::<Seq<char>>::empty());
        assert(lines_of_vias(vias) =~= Seq::<Seq<char>>::empty());
    } else {
        let x = via_csv_lines(vias.drop_last());
        let l = via_csv_line(vias.last());
        lemma_via_lines(vias.drop_last());
        lemma_via_line_ends(vias.last());
        lemma_one_via_line(l);
        lemma_via_csv_lines_snoc(vias);
        lemma_lines_append(x, l + seq!['\n']);
        lemma_lines_of_vias_snoc(vias);
        assert(lines(x) + seq![l] =~= lines(x).push(l));
    }
}

proof fn lemma_via_line_trimmed(v: DrillVia)
    ensures
        trim(via_csv_line(v)) == via_csv_line(v),
        via_csv_line(v).len() > 0,
        split_on(via_csv_line(v), ',') == via_columns(v),
{
    let l = via_csv_line(v);
    lemma_via_line_ends(v);
    lemma_via_line_split(v);
    assert(!is_ws(l[0]));
    assert(!is_ws(l.last()));
    assert(trim_start(l) == l);
    assert(trim_end(l) == l);
}

/// The lines of the vias.
pub open spec fn lines_of_vias(vias: Seq<DrillVia>) -> Seq<Seq<char>> {
    vias.map_values(|v: DrillVia| via_csv_line(v))
}

/// The rows of the vias.
pub open spec fn rows_of_vias(vias: Seq<DrillVia>) -> Seq<(u128, NativeProjectDrillCsvRow)> {
    vias.map_values(|v: DrillVia| via_row(v))
}

proof fn lemma_via_rows_read(vias: Seq<DrillVia>)
    requires
        forall|i: int| 0 <= i < vias.len() ==> via_uuids_read_back(#[trigger] vias[i]),
    ensures
        drill_rows_of(lines_of_vias(vias)) == Ok::<Seq<(u128, NativeProjectDrillCsvRow)>, DrillCsvError>(
            rows_of_vias(vias),
        ),
    decreases vias.len(),
{
    if vias.len() == 0 {
        assert(lines_of_vias(vias) =~= Seq::<Seq<char>>::empty());
        assert(rows_of_vias(vias) =~= Seq::<(u128, NativeProjectDrillCsvRow)>::empty());
    } else {
        let pre = vias.drop_last();
        let v = vias.last();
        assert forall|i: int| 0 <= i < pre.len() implies via_uuids_read_back(#[trigger] pre[i]) by {
            assert(pre[i] == vias[i]);
        }
        lemma_via_rows_read(pre);
        assert(via_uuids_read_back(vias[vias.len() - 1]));
        lemma_via_line_trimmed(v);
        lemma_via_row_reads(v);
        let body = lines_of_vias(vias);
        assert(lines_of_vias(pre) =~= body.drop_last());
        assert(body.last() == via_csv_line(v));
        assert(rows_of_vias(vias) =~= rows_of_vias(pre).push(via_row(v)));
    }
}

/// A drill CSV file written from the vias reads back as their rows, in
/// order, provided the UUID parser reads each via's and net's UUID text
/// back as that UUID (what `parse_uuid` promises for the text it is given).
pub proof fn lemma_drill_csv_reads_back(vias: Seq<DrillVia>)
    requires
        forall|i: int| 0 <= i < vias.len() ==> via_uuids_read_back(#[trigger] vias[i]),
    ensures
        drill_csv_of(drill_csv_text(vias)) == Ok::<Seq<(u128, NativeProjectDrillCsvRow)>, DrillCsvError>(
            rows_of_vias(vias),
        ),
{
    let h = drill_csv_header();
    let rest = via_csv_lines(vias);
    lemma_header_one_line();
    reveal(one_line);
    lemma_lines_cons(h, rest);
    assert(drill_csv_text(vias) == h + seq!['\n'] + rest);
    assert(strip_cr(h) == h);
    let ls = lines(drill_csv_text(vias));
    assert(ls[0] == h);
    assert(ls.skip(1) =~= lines(rest));
    lemma_via_lines(vias);
    lemma_via_rows_read(vias);
}

/// A drill CSV file written from vias, read back and
/// compared with those vias, matches every via: none is missing, extra or
/// drifted (given that the UUID parser reads each UUID it wrote back).
pub proof fn lemma_exported_drill_csv_matches_board(vias: Seq<DrillVia>)
    requires
        forall|i: int| 0 <= i < vias.len() ==> via_uuids_read_back(#[trigger] vias[i]),
    ensures
        drill_csv_of(drill_csv_text(vias)) == Ok::<Seq<(u128, NativeProjectDrillCsvRow)>, DrillCsvError>(
            rows_of_vias(vias),
        ),
        vias_where(by_uuid(rows_of_vias(vias)), by_uuid(rows_of_vias(vias)), Some(true)) == uuids_of(
            by_uuid(rows_of_vias(vias)),
        ),
        vias_where(by_uuid(rows_of_vias(vias)), by_uuid(rows_of_vias(vias)), Some(false)).len() == 0,
        vias_where(by_uuid(rows_of_vias(vias)), by_uuid(rows_of_vias(vias)), None).len() == 0,
{
    lemma_drill_csv_reads_back(vias);
    lemma_drill_self_comparison(rows_of_vias(vias));
}

} // verus!
