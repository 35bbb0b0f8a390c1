//! The RS-274X subset that semantic Gerber comparison reads back: aperture
//! definitions, aperture selection, regions, and D01/D02/D03 coordinate
//! operations, turned into strokes, flashes and regions with canonical point
//! paths.
use vstd::prelude::*;
use std::collections::BTreeMap;
use crate::geometry::{Point, canon_path, canonicalize_path_points};
use crate::text::{
    first_index_of, lines, parse_i64, parse_int_spec, parse_u8, parse_usize, split_lines, trim,
    trim_chars, chars_of,
};

verus! {

broadcast use vstd::std_specs::btree::group_btree_axioms, vstd::laws_cmp::group_laws_cmp;

/// An aperture of a Gerber file.
#[derive(Debug, Clone, Copy, PartialEq, Eq, Structural)]
pub enum ParsedGerberAperture {
    Circle { diameter_nm: i64 },
    Rect { width_nm: i64, height_nm: i64 },
}

/// A geometry read from a Gerber file; point paths are canonical.
#[derive(Debug, Clone, PartialEq, Eq)]
pub enum ParsedGerberGeometry {
    Stroke { aperture_diameter_nm: i64, points: Vec<Point> },
    Flash { aperture: ParsedGerberAperture, position: Point },
    Region { points: Vec<Point> },
}

/// The mathematical value of a [`ParsedGerberGeometry`].
#[verifier::ext_equal]
pub enum GeometryModel {
    Stroke { aperture_diameter_nm: i64, points: Seq<Point> },
    Flash { aperture: ParsedGerberAperture, position: Point },
    Region { points: Seq<Point> },
}

impl View for ParsedGerberGeometry {
    type V = GeometryModel;

    open spec fn view(&self) -> GeometryModel {
        match self {
            ParsedGerberGeometry::Stroke { aperture_diameter_nm, points } => GeometryModel::Stroke {
                aperture_diameter_nm: *aperture_diameter_nm,
                points: points@,
            },
            ParsedGerberGeometry::Flash { aperture, position } => GeometryModel::Flash {
                aperture: *aperture,
                position: *position,
            },
            ParsedGerberGeometry::Region { points } => GeometryModel::Region { points: points@ },
        }
    }
}

/// The geometries of a Gerber file, in the order in which they end.
#[derive(Debug)]
pub struct ParsedGerber {
    pub geometries: Vec<ParsedGerberGeometry>,
}

pub open spec fn geometries_view(v: Seq<ParsedGerberGeometry>) -> Seq<GeometryModel> {
    Seq::new(v.len(), |i: int| v[i]@)
}

impl View for ParsedGerber {
    type V = Seq<GeometryModel>;

    open spec fn view(&self) -> Seq<GeometryModel> {
        geometries_view(self.geometries@)
    }
}

/// Why a Gerber file is refused; `line` is the index of the offending line
/// among the file's lines.
#[derive(Debug, Clone, Copy, PartialEq, Eq, Structural)]
pub enum GerberError {
    /// An aperture definition without a shape letter or without `,` after it.
    ApertureDefinitionUnsupported,
    /// An aperture definition that does not end in `*%`.
    ApertureDefinitionUnterminated,
    ApertureCodeInvalid,
    CircleDiameterInvalid,
    RectDefinitionInvalid,
    RectWidthInvalid,
    RectHeightInvalid,
    /// An aperture of a shape other than `C` or `R`.
    ApertureShapeUnsupported { line: usize },
    NestedRegion,
    RegionEndWithoutStart,
    ApertureSelectionInvalid,
    CommandUnsupported { line: usize },
    CoordinateInvalid,
    CoordinateUnterminated,
    OperationInvalid,
    XInvalid,
    YInvalid,
    FlashInRegion,
    OperationUnsupported { operation: u8 },
    /// A coordinate operation before any aperture was selected.
    NoActiveAperture,
    UnknownAperture { code: usize },
    /// A stroke drawn with a rectangular aperture.
    RectStroke,
    RegionUnterminated,
}

// ---------------------------------------------------------------------------
// Specification of the line-level parsers
// ---------------------------------------------------------------------------

pub open spec fn int_in_i64(v: int) -> bool {
    i64::MIN <= v <= i64::MAX
}

/// `str::parse::<i64>`.
pub open spec fn parse_i64_spec(s: Seq<char>) -> Option<int> {
    parse_int_spec(s, true, i64::MIN as int, i64::MAX as int)
}

/// `s` padded with `'0'` on the right to `n` characters.
pub open spec fn pad_zeros(s: Seq<char>, n: nat) -> Seq<char> {
    s + Seq::new((n - s.len()) as nat, |i: int| '0')
}

/// A millimetre value with at most six decimals, read as nanometres: the
/// whole part and the (zero-padded) fraction are read as `i64`s and the
/// fraction is added to (or, for a negative whole part, taken from) the whole
/// part times one million; `None` where a part does not read, there is more
/// than one `.`, the fraction has more than six characters, or the value
/// leaves `i64`.
pub open spec fn mm_6_to_nm_spec(value: Seq<char>) -> Option<int> {
    let dot = first_index_of(value, '.');
    let whole_str = match dot {
        Some(k) => value.take(k as int),
        None => value,
    };
    match parse_i64_spec(whole_str) {
        None => None,
        Some(whole) => {
            let frac_str = match dot {
                Some(k) => value.skip(k as int + 1),
                None => seq!['0'],
            };
            if first_index_of(frac_str, '.') is Some || frac_str.len() > 6 {
                None
            } else {
                match parse_i64_spec(pad_zeros(frac_str, 6)) {
                    None => None,
                    Some(frac) => {
                        let whole_nm = whole * 1_000_000;
                        let total = if whole >= 0 {
                            whole_nm + frac
                        } else {
                            whole_nm - frac
                        };
                        if int_in_i64(whole_nm) && int_in_i64(total) {
                            Some(total)
                        } else {
                            None
                        }
                    },
                }
            }
        },
    }
}

pub open spec fn is_ascii_alpha(c: char) -> bool {
    ('a' <= c && c <= 'z') || ('A' <= c && c <= 'Z')
}

/// The index of the first ASCII letter of `s`.
pub open spec fn first_alpha(s: Seq<char>) -> Option<nat>
    decreases s.len(),
{
    if s.len() == 0 {
        None
    } else if is_ascii_alpha(s[0]) {
        Some(0)
    } else {
        match first_alpha(s.drop_first()) {
            Some(k) => Some(k + 1),
            None => None,
        }
    }
}

/// An aperture definition `%ADD<code><shape>,<params>*%`, given what follows
/// `%ADD`: `C,<diameter>` is a circle and `R,<width>X<height>` a rectangle.
pub open spec fn aperture_definition_spec(rest: Seq<char>, line: usize) -> Result<
    (usize, ParsedGerberAperture),
    GerberError,
> {
    match first_alpha(rest) {
        None => Err(GerberError::ApertureDefinitionUnsupported),
        Some(k) => {
            let code_str = rest.take(k as int);
            let shape = rest[k as int];
            let after = rest.skip(k as int + 1);
            if after.len() == 0 || after[0] != ',' {
                Err(GerberError::ApertureDefinitionUnsupported)
            } else {
                let p = after.drop_first();
                if !(p.len() >= 2 && p[p.len() - 2] == '*' && p[p.len() - 1] == '%') {
                    Err(GerberError::ApertureDefinitionUnterminated)
                } else {
                    let params = p.take(p.len() - 2);
                    match parse_int_spec(code_str, false, 0, usize::MAX as int) {
                        None => Err(GerberError::ApertureCodeInvalid),
                        Some(code) => {
                            if shape == 'C' {
                                match mm_6_to_nm_spec(params) {
                                    None => Err(GerberError::CircleDiameterInvalid),
                                    Some(d) => Ok(
                                        (
                                            code as usize,
                                            ParsedGerberAperture::Circle { diameter_nm: d as i64 },
                                        ),
                                    ),
                                }
                            } else if shape == 'R' {
                                match first_index_of(params, 'X') {
                                    None => Err(GerberError::RectDefinitionInvalid),
                                    Some(j) => match mm_6_to_nm_spec(params.take(j as int)) {
                                        None => Err(GerberError::RectWidthInvalid),
                                        Some(w) => match mm_6_to_nm_spec(
                                            params.skip(j as int + 1),
                                        ) {
                                            None => Err(GerberError::RectHeightInvalid),
                                            Some(h) => Ok(
                                                (
                                                    code as usize,
                                                    ParsedGerberAperture::Rect {
                                                        width_nm: w as i64,
                                                        height_nm: h as i64,
                                                    },
                                                ),
                                            ),
                                        },
                                    },
                                }
                            } else {
                                Err(GerberError::ApertureShapeUnsupported { line })
                            }
                        },
                    }
                }
            }
        },
    }
}

/// An aperture selection `D<code>*`; codes below 10 are operations, not
/// selections.
pub open spec fn aperture_select_spec(line: Seq<char>) -> Result<Option<usize>, GerberError> {
    if !(line.len() > 0 && line[0] == 'D' && line.last() == '*') {
        Ok(None)
    } else {
        match parse_int_spec(line.subrange(1, line.len() - 1), false, 0, usize::MAX as int) {
            None => Err(GerberError::ApertureSelectionInvalid),
            Some(code) => if code < 10 {
                Ok(None)
            } else {
                Ok(Some(code as usize))
            },
        }
    }
}

/// A coordinate operation `X<x>Y<y>D<op>*`.
pub open spec fn coordinate_operation_spec(line: Seq<char>) -> Result<
    Option<(Point, u8)>,
    GerberError,
> {
    if !(line.len() > 0 && line[0] == 'X') {
        Ok(None)
    } else {
        let rest = line.drop_first();
        match first_index_of(rest, 'Y') {
            None => Err(GerberError::CoordinateInvalid),
            Some(j) => {
                let x_str = rest.take(j as int);
                let rest2 = rest.skip(j as int + 1);
                match first_index_of(rest2, 'D') {
                    None => Err(GerberError::CoordinateInvalid),
                    Some(k) => {
                        let y_str = rest2.take(k as int);
                        let d_str = rest2.skip(k as int + 1);
                        if !(d_str.len() > 0 && d_str.last() == '*') {
                            Err(GerberError::CoordinateUnterminated)
                        } else {
                            match parse_int_spec(d_str.drop_last(), false, 0, 255) {
                                None => Err(GerberError::OperationInvalid),
                                Some(op) => match parse_i64_spec(x_str) {
                                    None => Err(GerberError::XInvalid),
                                    Some(x) => match parse_i64_spec(y_str) {
                                        None => Err(GerberError::YInvalid),
                                        Some(y) => Ok(
                                            Some((Point { x: x as i64, y: y as i64 }, op as u8)),
                                        ),
                                    },
                                },
                            }
                        }
                    },
                }
            },
        }
    }
}

// ---------------------------------------------------------------------------
// Specification of the reading state machine
// ---------------------------------------------------------------------------

/// The state of a read in progress.
#[verifier::ext_equal]
pub struct ReadState {
    pub apertures: Map<usize, ParsedGerberAperture>,
    pub current_aperture: Option<usize>,
    pub current_position: Option<Point>,
    /// A stroke being drawn: its aperture diameter and its points so far.
    pub pending: Option<(i64, Seq<Point>)>,
    pub in_region: bool,
    pub region_points: Seq<Point>,
    pub geometries: Seq<GeometryModel>,
}

pub open spec fn initial_state() -> ReadState {
    ReadState {
        apertures: Map::empty(),
        current_aperture: None,
        current_position: None,
        pending: None,
        in_region: false,
        region_points: Seq::empty(),
        geometries: Seq::empty(),
    }
}

/// The geometries after the pending stroke `p` ends: a stroke of two points
/// or more is added, with its points in canonical form.
pub open spec fn finalize_geometries(p: Option<(i64, Seq<Point>)>, g: Seq<GeometryModel>) -> Seq<
    GeometryModel,
> {
    match p {
        Some((d, pts)) => if pts.len() >= 2 {
            g.push(GeometryModel::Stroke { aperture_diameter_nm: d, points: canon_path(pts) })
        } else {
            g
        },
        None => g,
    }
}

/// Ends the pending stroke.
pub open spec fn finalize_spec(st: ReadState) -> ReadState {
    ReadState { pending: None, geometries: finalize_geometries(st.pending, st.geometries), ..st }
}

/// What one line does to the read.
pub enum Step {
    Continue(ReadState),
    Stop(ReadState),
    Fail(GerberError),
}

pub open spec fn is_lit(s: Seq<char>, lit: Seq<char>) -> bool {
    s == lit
}

pub open spec fn starts_with_spec(s: Seq<char>, p: Seq<char>) -> bool {
    p.len() <= s.len() && s.take(p.len() as int) == p
}

/// A coordinate operation at `point` once the aperture is known.
pub open spec fn draw_spec(
    st: ReadState,
    point: Point,
    op: u8,
    previous: Option<Point>,
    aperture: ParsedGerberAperture,
) -> Step {
    if op == 2 {
        match aperture {
            ParsedGerberAperture::Rect { .. } => Step::Fail(GerberError::RectStroke),
            ParsedGerberAperture::Circle { diameter_nm } => {
                let s2 = finalize_spec(st);
                Step::Continue(ReadState { pending: Some((diameter_nm, seq![point])), ..s2 })
            },
        }
    } else if op == 1 {
        match aperture {
            ParsedGerberAperture::Rect { .. } => Step::Fail(GerberError::RectStroke),
            ParsedGerberAperture::Circle { diameter_nm } => {
                let prev_pts = match previous {
                    Some(p) => seq![p],
                    None => Seq::<Point>::empty(),
                };
                match st.pending {
                    None => Step::Continue(
                        ReadState { pending: Some((diameter_nm, prev_pts.push(point))), ..st },
                    ),
                    Some((d, pts)) => if d != diameter_nm {
                        let s2 = finalize_spec(st);
                        Step::Continue(
                            ReadState { pending: Some((diameter_nm, prev_pts.push(point))), ..s2 },
                        )
                    } else {
                        Step::Continue(ReadState { pending: Some((d, pts.push(point))), ..st })
                    },
                }
            },
        }
    } else if op == 3 {
        let s2 = finalize_spec(st);
        Step::Continue(
            ReadState {
                geometries: s2.geometries.push(
                    GeometryModel::Flash { aperture, position: point },
                ),
                ..s2
            },
        )
    } else {
        Step::Fail(GerberError::OperationUnsupported { operation: op })
    }
}

/// A coordinate operation inside a region.
pub open spec fn region_point_spec(st: ReadState, point: Point, op: u8) -> Step {
    if op == 2 {
        Step::Continue(ReadState { region_points: seq![point], ..st })
    } else if op == 1 {
        Step::Continue(ReadState { region_points: st.region_points.push(point), ..st })
    } else if op == 3 {
        Step::Fail(GerberError::FlashInRegion)
    } else {
        Step::Fail(GerberError::OperationUnsupported { operation: op })
    }
}

/// A coordinate operation `(point, op)` read from a line.
pub open spec fn coordinate_step_spec(st: ReadState, point: Point, op: u8) -> Step {
    let previous = st.current_position;
    let st1 = ReadState { current_position: Some(point), ..st };
    if st1.in_region {
        region_point_spec(st1, point, op)
    } else {
        match st1.current_aperture {
            None => Step::Fail(GerberError::NoActiveAperture),
            Some(code) => if !st1.apertures.contains_key(code) {
                Step::Fail(GerberError::UnknownAperture { code })
            } else {
                draw_spec(st1, point, op, previous, st1.apertures[code])
            },
        }
    }
}

/// What the trimmed line `l` (the line at index `idx`) does to the read.
pub open spec fn step_spec(st: ReadState, l: Seq<char>, idx: usize) -> Step {
    if l.len() == 0 || starts_with_spec(l, seq!['G', '0', '4']) {
        Step::Continue(st)
    } else if is_lit(l, seq!['%', 'F', 'S', 'L', 'A', 'X', '4', '6', 'Y', '4', '6', '*', '%'])
        || is_lit(l, seq!['%', 'M', 'O', 'M', 'M', '*', '%']) || is_lit(
        l,
        seq!['%', 'L', 'P', 'D', '*', '%'],
    ) {
        Step::Continue(st)
    } else if starts_with_spec(l, seq!['%', 'A', 'D', 'D']) {
        match aperture_definition_spec(l.skip(4), idx) {
            Err(e) => Step::Fail(e),
            Ok((code, ap)) => Step::Continue(
                ReadState { apertures: st.apertures.insert(code, ap), ..st },
            ),
        }
    } else if is_lit(l, seq!['G', '3', '6', '*']) {
        if st.in_region {
            Step::Fail(GerberError::NestedRegion)
        } else {
            let s2 = finalize_spec(st);
            Step::Continue(ReadState { in_region: true, region_points: Seq::empty(), ..s2 })
        }
    } else if is_lit(l, seq!['G', '3', '7', '*']) {
        if !st.in_region {
            Step::Fail(GerberError::RegionEndWithoutStart)
        } else {
            Step::Continue(
                ReadState {
                    in_region: false,
                    region_points: Seq::empty(),
                    geometries: if st.region_points.len() >= 2 {
                        st.geometries.push(
                            GeometryModel::Region { points: canon_path(st.region_points) },
                        )
                    } else {
                        st.geometries
                    },
                    ..st
                },
            )
        }
    } else {
        match aperture_select_spec(l) {
            Err(e) => Step::Fail(e),
            Ok(Some(code)) => {
                let s2 = finalize_spec(st);
                Step::Continue(ReadState { current_aperture: Some(code), ..s2 })
            },
            Ok(None) => if is_lit(l, seq!['M', '0', '2', '*']) {
                Step::Stop(st)
            } else {
                match coordinate_operation_spec(l) {
                    Err(e) => Step::Fail(e),
                    Ok(None) => Step::Fail(GerberError::CommandUnsupported { line: idx }),
                    Ok(Some((point, op))) => coordinate_step_spec(st, point, op),
                }
            },
        }
    }
}

/// Reads the lines `ls`, the first of which has index `idx`, until the end or
/// until `M02*`.
pub open spec fn run_spec(st: ReadState, ls: Seq<Seq<char>>, idx: int) -> Result<
    ReadState,
    GerberError,
>
    decreases ls.len(),
{
    if ls.len() == 0 {
        Ok(st)
    } else {
        match step_spec(st, trim(ls[0]), idx as usize) {
            Step::Fail(e) => Err(e),
            Step::Stop(s2) => Ok(s2),
            Step::Continue(s2) => run_spec(s2, ls.drop_first(), idx + 1),
        }
    }
}

/// What reading the Gerber text `text` gives: its geometries, or why it is
/// refused.
pub open spec fn parse_gerber_spec(text: Seq<char>) -> Result<Seq<GeometryModel>, GerberError> {
    match run_spec(initial_state(), lines(text), 0) {
        Err(e) => Err(e),
        Ok(st) => if st.in_region {
            Err(GerberError::RegionUnterminated)
        } else {
            Ok(finalize_spec(st).geometries)
        },
    }
}

// ---------------------------------------------------------------------------
// Line-level parsers
// ---------------------------------------------------------------------------

/// The index of the first `c` in `s`.
pub fn find_char(s: &[char], c: char) -> (r: Option<usize>)
    ensures
        match r {
            Some(k) => first_index_of(s@, c) == Some(k as nat),
            None => first_index_of(s@, c) is None,
        },
{
    let mut i: usize = 0;
    while i < s.len()
        invariant
            i <= s.len(),
            forall|j: int| 0 <= j < i ==> s@[j] != c,
        decreases s.len() - i,
    {
        if s[i] == c {
            proof {
                crate::text::lemma_first_index_found(s@, c, i as int);
            }
            return Some(i);
        }
        i += 1;
    }
    proof {
        crate::text::lemma_first_index_absent(s@, c);
    }
    None
}

proof fn lemma_first_alpha_found(s: Seq<char>, k: int)
    requires
        0 <= k < s.len(),
        is_ascii_alpha(s[k]),
        forall|j: int| 0 <= j < k ==> !is_ascii_alpha(s[j]),
    ensures
        first_alpha(s) == Some(k as nat),
    decreases k,
{
    if k > 0 {
        lemma_first_alpha_found(s.drop_first(), k - 1);
    }
}

proof fn lemma_first_alpha_absent(s: Seq<char>)
    requires
        forall|j: int| 0 <= j < s.len() ==> !is_ascii_alpha(s[j]),
    ensures
        first_alpha(s) is None,
    decreases s.len(),
{
    if s.len() > 0 {
        lemma_first_alpha_absent(s.drop_first());
    }
}

/// The index of the first ASCII letter of `s`.
fn find_alpha(s: &[char]) -> (r: Option<usize>)
    ensures
        match r {
            Some(k) => first_alpha(s@) == Some(k as nat) && k < s@.len(),
            None => first_alpha(s@) is None,
        },
{
    let mut i: usize = 0;
    while i < s.len()
        invariant
            i <= s.len(),
            forall|j: int| 0 <= j < i ==> !is_ascii_alpha(s@[j]),
        decreases s.len() - i,
    {
        let c = s[i];
        if ('a' <= c && c <= 'z') || ('A' <= c && c <= 'Z') {
            proof {
                lemma_first_alpha_found(s@, i as int);
            }
            return Some(i);
        }
        i += 1;
    }
    proof {
        lemma_first_alpha_absent(s@);
    }
    None
}

/// Reads a millimetre value with at most six decimals as nanometres.
pub fn parse_mm_6_to_nm(value: &[char]) -> (r: Option<i64>)
    ensures
        match r {
            Some(v) => mm_6_to_nm_spec(value@) == Some(v as int),
            None => mm_6_to_nm_spec(value@) is None,
        },
{
    let n = value.len();
    let dot = find_char(value, '.');
    let whole_str = match dot {
        Some(k) => {
            proof {
                crate::text::lemma_first_index_bound(value@, '.');
            }
            crate::text::copy_range(value, 0, k)
        },
        None => crate::text::copy_range(value, 0, n),
    };
    proof {
        match dot {
            Some(k) => assert(whole_str@ =~= value@.take(k as int)),
            None => assert(whole_str@ =~= value@),
        }
    }
    let whole = match parse_i64(&whole_str) {
        Some(w) => w,
        None => return None,
    };
    let frac_str = match dot {
        Some(k) => crate::text::copy_range(value, k + 1, n),
        None => vec!['0'],
    };
    proof {
        match dot {
            Some(k) => assert(frac_str@ =~= value@.skip(k as int + 1)),
            None => assert(frac_str@ =~= seq!['0']),
        }
    }
    if find_char(&frac_str, '.').is_some() || frac_str.len() > 6 {
        return None;
    }
    let mut frac = frac_str.clone();
    let ghost fs = frac_str@;
    while frac.len() < 6
        invariant
            fs.len() <= frac@.len() <= 6,
            frac@ == fs + Seq::new((frac@.len() - fs.len()) as nat, |i: int| '0'),
        decreases 6 - frac.len(),
    {
        let ghost before = frac@;
        frac.push('0');
        assert(frac@ =~= fs + Seq::new((frac@.len() - fs.len()) as nat, |i: int| '0'));
    }
    assert(frac@ =~= pad_zeros(fs, 6));
    let frac_v = match parse_i64(&frac) {
        Some(f) => f,
        None => return None,
    };
    let whole_nm: i128 = (whole as i128) * 1_000_000;
    let total: i128 = if whole >= 0 {
        whole_nm + frac_v as i128
    } else {
        whole_nm - frac_v as i128
    };
    if whole_nm < i64::MIN as i128 || whole_nm > i64::MAX as i128 || total < i64::MIN as i128
        || total > i64::MAX as i128 {
        return None;
    }
    Some(total as i64)
}

/// Reads an aperture definition, given what follows `%ADD`.
pub fn parse_aperture_definition(rest: &[char], line: usize) -> (r: Result<
    (usize, ParsedGerberAperture),
    GerberError,
>)
    ensures
        r == aperture_definition_spec(rest@, line),
{
    let n = rest.len();
    let k = match find_alpha(rest) {
        Some(k) => k,
        None => return Err(GerberError::ApertureDefinitionUnsupported),
    };
    let code_str = crate::text::copy_range(rest, 0, k);
    let shape = rest[k];
    let after = crate::text::copy_range(rest, k + 1, n);
    assert(code_str@ =~= rest@.take(k as int));
    assert(after@ =~= rest@.skip(k as int + 1));
    if after.len() == 0 || after[0] != ',' {
        return Err(GerberError::ApertureDefinitionUnsupported);
    }
    let m = after.len();
    if !(m >= 3 && after[m - 2] == '*' && after[m - 1] == '%') {
        return Err(GerberError::ApertureDefinitionUnterminated);
    }
    let params = crate::text::copy_range(&after, 1, m - 2);
    assert(params@ =~= after@.drop_first().take(after@.drop_first().len() - 2));
    let code = match parse_usize(&code_str) {
        Some(c) => c,
        None => return Err(GerberError::ApertureCodeInvalid),
    };
    if shape == 'C' {
        match parse_mm_6_to_nm(&params) {
            None => Err(GerberError::CircleDiameterInvalid),
            Some(d) => Ok((code, ParsedGerberAperture::Circle { diameter_nm: d })),
        }
    } else if shape == 'R' {
        let p = params.len();
        match find_char(&params, 'X') {
            None => Err(GerberError::RectDefinitionInvalid),
            Some(j) => {
                proof {
                    crate::text::lemma_first_index_bound(params@, 'X');
                }
                let width_str = crate::text::copy_range(&params, 0, j);
                let height_str = crate::text::copy_range(&params, j + 1, p);
                assert(width_str@ =~= params@.take(j as int));
                assert(height_str@ =~= params@.skip(j as int + 1));
                match parse_mm_6_to_nm(&width_str) {
                    None => Err(GerberError::RectWidthInvalid),
                    Some(w) => match parse_mm_6_to_nm(&height_str) {
                        None => Err(GerberError::RectHeightInvalid),
                        Some(h) => Ok(
                            (code, ParsedGerberAperture::Rect { width_nm: w, height_nm: h }),
                        ),
                    },
                }
            },
        }
    } else {
        Err(GerberError::ApertureShapeUnsupported { line })
    }
}

/// Reads an aperture selection `D<code>*` with a code of 10 or more.
pub fn parse_aperture_select(line: &[char]) -> (r: Result<Option<usize>, GerberError>)
    ensures
        r == aperture_select_spec(line@),
{
    let n = line.len();
    if !(n > 0 && line[0] == 'D' && line[n - 1] == '*') {
        return Ok(None);
    }
    let code_str = crate::text::copy_range(line, 1, n - 1);
    let code = match parse_usize(&code_str) {
        Some(c) => c,
        None => return Err(GerberError::ApertureSelectionInvalid),
    };
    if code < 10 {
        return Ok(None);
    }
    Ok(Some(code))
}

/// Reads a coordinate operation `X<x>Y<y>D<op>*`.
pub fn parse_gerber_coordinate_operation(line: &[char]) -> (r: Result<
    Option<(Point, u8)>,
    GerberError,
>)
    ensures
        r == coordinate_operation_spec(line@),
{
    let n = line.len();
    if !(n > 0 && line[0] == 'X') {
        return Ok(None);
    }
    let rest = crate::text::copy_range(line, 1, n);
    assert(rest@ =~= line@.drop_first());
    let r = rest.len();
    let j = match find_char(&rest, 'Y') {
        Some(j) => j,
        None => return Err(GerberError::CoordinateInvalid),
    };
    proof {
        crate::text::lemma_first_index_bound(rest@, 'Y');
    }
    let x_str = crate::text::copy_range(&rest, 0, j);
    let rest2 = crate::text::copy_range(&rest, j + 1, r);
    assert(x_str@ =~= rest@.take(j as int));
    assert(rest2@ =~= rest@.skip(j as int + 1));
    let r2 = rest2.len();
    let k = match find_char(&rest2, 'D') {
        Some(k) => k,
        None => return Err(GerberError::CoordinateInvalid),
    };
    proof {
        crate::text::lemma_first_index_bound(rest2@, 'D');
    }
    let y_str = crate::text::copy_range(&rest2, 0, k);
    let d_str = crate::text::copy_range(&rest2, k + 1, r2);
    assert(y_str@ =~= rest2@.take(k as int));
    assert(d_str@ =~= rest2@.skip(k as int + 1));
    let d = d_str.len();
    if !(d > 0 && d_str[d - 1] == '*') {
        return Err(GerberError::CoordinateUnterminated);
    }
    let op_str = crate::text::copy_range(&d_str, 0, d - 1);
    assert(op_str@ =~= d_str@.drop_last());
    let op = match parse_u8(&op_str) {
        Some(o) => o,
        None => return Err(GerberError::OperationInvalid),
    };
    let x = match parse_i64(&x_str) {
        Some(x) => x,
        None => return Err(GerberError::XInvalid),
    };
    let y = match parse_i64(&y_str) {
        Some(y) => y,
        None => return Err(GerberError::YInvalid),
    };
    Ok(Some((Point { x, y }, op)))
}

// ---------------------------------------------------------------------------
// The reader
// ---------------------------------------------------------------------------

/// A stroke being drawn.
pub struct PendingStroke {
    pub aperture_diameter_nm: i64,
    pub points: Vec<Point>,
}

pub open spec fn pending_view(p: Option<PendingStroke>) -> Option<(i64, Seq<Point>)> {
    match p {
        Some(s) => Some((s.aperture_diameter_nm, s.points@)),
        None => None,
    }
}

proof fn lemma_geometries_push(v: Seq<ParsedGerberGeometry>, g: ParsedGerberGeometry)
    ensures
        geometries_view(v.push(g)) == geometries_view(v).push(g@),
{
    assert(geometries_view(v.push(g)) =~= geometries_view(v).push(g@));
}

/// Ends the pending stroke: one of two points or more becomes a stroke with
/// canonical points.
pub fn finalize_pending_stroke(
    pending_stroke: &mut Option<PendingStroke>,
    geometries: &mut Vec<ParsedGerberGeometry>,
)
    ensures
        *final(pending_stroke) is None,
        geometries_view(final(geometries)@) == finalize_geometries(
            pending_view(*old(pending_stroke)),
            geometries_view(old(geometries)@),
        ),
{
    if let Some(stroke) = pending_stroke.take() {
        if stroke.points.len() >= 2 {
            let g = ParsedGerberGeometry::Stroke {
                aperture_diameter_nm: stroke.aperture_diameter_nm,
                points: canonicalize_path_points(&stroke.points),
            };
            proof {
                lemma_geometries_push(geometries@, g);
            }
            geometries.push(g);
        }
    }
}

struct GerberReader {
    apertures: BTreeMap<usize, ParsedGerberAperture>,
    current_aperture: Option<usize>,
    current_position: Option<Point>,
    pending: Option<PendingStroke>,
    in_region: bool,
    region_points: Vec<Point>,
    geometries: Vec<ParsedGerberGeometry>,
}

impl View for GerberReader {
    type V = ReadState;

    closed spec fn view(&self) -> ReadState {
        ReadState {
            apertures: self.apertures@,
            current_aperture: self.current_aperture,
            current_position: self.current_position,
            pending: pending_view(self.pending),
            in_region: self.in_region,
            region_points: self.region_points@,
            geometries: geometries_view(self.geometries@),
        }
    }
}

/// The outcome of one line as the reader reports it.
pub open spec fn step_outcome(step: Step, r: Result<bool, GerberError>, after: ReadState) -> bool {
    match step {
        Step::Fail(e) => r == Err::<bool, GerberError>(e),
        Step::Stop(s) => r == Ok::<bool, GerberError>(true) && after == s,
        Step::Continue(s) => r == Ok::<bool, GerberError>(false) && after == s,
    }
}

impl GerberReader {
    fn new() -> (r: GerberReader)
        ensures
            r@ == initial_state(),
    {
        let r = GerberReader {
            apertures: BTreeMap::new(),
            current_aperture: None,
            current_position: None,
            pending: None,
            in_region: false,
            region_points: Vec::new(),
            geometries: Vec::new(),
        };
        assert(r@ =~= initial_state());
        r
    }

    fn finalize(&mut self)
        ensures
            final(self)@ == finalize_spec(old(self)@),
    {
        finalize_pending_stroke(&mut self.pending, &mut self.geometries);
    }

    /// A coordinate operation inside a region.
    fn region_point(&mut self, point: Point, op: u8) -> (r: Result<bool, GerberError>)
        ensures
            step_outcome(region_point_spec(old(self)@, point, op), r, final(self)@),
    {
        if op == 2 {
            self.region_points.clear();
            self.region_points.push(point);
            assert(self.region_points@ =~= seq![point]);
            Ok(false)
        } else if op == 1 {
            self.region_points.push(point);
            Ok(false)
        } else if op == 3 {
            Err(GerberError::FlashInRegion)
        } else {
            Err(GerberError::OperationUnsupported { operation: op })
        }
    }

    /// A coordinate operation outside a region, with the aperture known.
    fn draw(&mut self, point: Point, op: u8, previous: Option<Point>, aperture: ParsedGerberAperture)
        -> (r: Result<bool, GerberError>)
        ensures
            step_outcome(draw_spec(old(self)@, point, op, previous, aperture), r, final(self)@),
    {
        let ghost st = self@;
        if op == 2 {
            let diameter_nm = match aperture {
                ParsedGerberAperture::Circle { diameter_nm } => diameter_nm,
                ParsedGerberAperture::Rect { .. } => return Err(GerberError::RectStroke),
            };
            self.finalize();
            let pts = vec![point];
            self.pending = Some(PendingStroke { aperture_diameter_nm: diameter_nm, points: pts });
            assert(self@ =~= ReadState {
                pending: Some((diameter_nm, seq![point])),
                ..finalize_spec(st)
            });
            Ok(false)
        } else if op == 1 {
            let diameter_nm = match aperture {
                ParsedGerberAperture::Circle { diameter_nm } => diameter_nm,
                ParsedGerberAperture::Rect { .. } => return Err(GerberError::RectStroke),
            };
            let mut prev_pts: Vec<Point> = Vec::new();
            if let Some(p) = previous {
                prev_pts.push(p);
            }
            let ghost prev_view = match previous {
                Some(p) => seq![p],
                None => Seq::<Point>::empty(),
            };
            assert(prev_pts@ =~= prev_view);
            match self.pending.take() {
                None => {
                    prev_pts.push(point);
                    self.pending = Some(
                        PendingStroke { aperture_diameter_nm: diameter_nm, points: prev_pts },
                    );
                    assert(self@ =~= ReadState {
                        pending: Some((diameter_nm, prev_view.push(point))),
                        ..st
                    });
                },
                Some(mut stroke) => {
                    if stroke.aperture_diameter_nm != diameter_nm {
                        self.pending = Some(stroke);
                        assert(self@ =~= st);
                        self.finalize();
                        prev_pts.push(point);
                        self.pending = Some(
                            PendingStroke { aperture_diameter_nm: diameter_nm, points: prev_pts },
                        );
                        assert(self@ =~= ReadState {
                            pending: Some((diameter_nm, prev_view.push(point))),
                            ..finalize_spec(st)
                        });
                    } else {
                        let ghost old_pts = stroke.points@;
                        stroke.points.push(point);
                        let d = stroke.aperture_diameter_nm;
                        self.pending = Some(stroke);
                        assert(self@ =~= ReadState {
                            pending: Some((d, old_pts.push(point))),
                            ..st
                        });
                    }
                },
            }
            Ok(false)
        } else if op == 3 {
            self.finalize();
            let g = ParsedGerberGeometry::Flash { aperture, position: point };
            proof {
                lemma_geometries_push(self.geometries@, g);
            }
            self.geometries.push(g);
            assert(self@ =~= ReadState {
                geometries: finalize_spec(st).geometries.push(
                    GeometryModel::Flash { aperture, position: point },
                ),
                ..finalize_spec(st)
            });
            Ok(false)
        } else {
            Err(GerberError::OperationUnsupported { operation: op })
        }
    }

    /// A coordinate operation read from a line.
    fn coordinate(&mut self, point: Point, op: u8) -> (r: Result<bool, GerberError>)
        ensures
            step_outcome(coordinate_step_spec(old(self)@, point, op), r, final(self)@),
    {
        let previous = self.current_position;
        self.current_position = Some(point);
        if self.in_region {
            return self.region_point(point, op);
        }
        let code = match self.current_aperture {
            Some(c) => c,
            None => return Err(GerberError::NoActiveAperture),
        };
        let aperture = match self.apertures.get(&code) {
            Some(a) => *a,
            None => return Err(GerberError::UnknownAperture { code }),
        };
        self.draw(point, op, previous, aperture)
    }

    /// Reads one trimmed line; `Ok(true)` ends the read.
    fn read_line(&mut self, l: &[char], idx: usize) -> (r: Result<bool, GerberError>)
        ensures
            step_outcome(step_spec(old(self)@, l@, idx), r, final(self)@),
    {
        let g04 = vec!['G', '0', '4'];
        if l.len() == 0 || crate::text::starts_with(l, &g04) {
            return Ok(false);
        }
        let fs = vec!['%', 'F', 'S', 'L', 'A', 'X', '4', '6', 'Y', '4', '6', '*', '%'];
        let mo = vec!['%', 'M', 'O', 'M', 'M', '*', '%'];
        let lp = vec!['%', 'L', 'P', 'D', '*', '%'];
        if crate::text::chars_eq(l, &fs) || crate::text::chars_eq(l, &mo) || crate::text::chars_eq(
            l,
            &lp,
        ) {
            return Ok(false);
        }
        let add = vec!['%', 'A', 'D', 'D'];
        if crate::text::starts_with(l, &add) {
            let rest = crate::text::copy_range(l, 4, l.len());
            assert(rest@ =~= l@.skip(4));
            let (code, aperture) = match parse_aperture_definition(&rest, idx) {
                Ok(d) => d,
                Err(e) => return Err(e),
            };
            self.apertures.insert(code, aperture);
            return Ok(false);
        }
        let g36 = vec!['G', '3', '6', '*'];
        if crate::text::chars_eq(l, &g36) {
            if self.in_region {
                return Err(GerberError::NestedRegion);
            }
            self.finalize();
            self.in_region = true;
            self.region_points.clear();
            assert(self@ =~= ReadState {
                in_region: true,
                region_points: Seq::empty(),
                ..finalize_spec(old(self)@)
            });
            return Ok(false);
        }
        let g37 = vec!['G', '3', '7', '*'];
        if crate::text::chars_eq(l, &g37) {
            if !self.in_region {
                return Err(GerberError::RegionEndWithoutStart);
            }
            self.in_region = false;
            if self.region_points.len() >= 2 {
                let g = ParsedGerberGeometry::Region {
                    points: canonicalize_path_points(&self.region_points),
                };
                proof {
                    lemma_geometries_push(self.geometries@, g);
                }
                self.geometries.push(g);
            }
            self.region_points.clear();
            return Ok(false);
        }
        match parse_aperture_select(l) {
            Err(e) => return Err(e),
            Ok(Some(code)) => {
                self.finalize();
                self.current_aperture = Some(code);
                return Ok(false);
            },
            Ok(None) => {},
        }
        let m02 = vec!['M', '0', '2', '*'];
        if crate::text::chars_eq(l, &m02) {
            return Ok(true);
        }
        match parse_gerber_coordinate_operation(l) {
            Err(e) => Err(e),
            Ok(None) => Err(GerberError::CommandUnsupported { line: idx }),
            Ok(Some((point, op))) => self.coordinate(point, op),
        }
    }
}

/// Reads the RS-274X subset that semantic comparison understands.
pub fn parse_rs274x_subset(gerber: &str) -> (r: Result<ParsedGerber, GerberError>)
    ensures
        match r {
            Ok(parsed) => parse_gerber_spec(gerber@) == Ok::<Seq<GeometryModel>, GerberError>(
                parsed@,
            ),
            Err(e) => parse_gerber_spec(gerber@) == Err::<Seq<GeometryModel>, GerberError>(e),
        },
{
    let chars = chars_of(gerber);
    let ls = split_lines(&chars);
    let ghost all = lines(gerber@);
    let mut reader = GerberReader::new();
    let mut i: usize = 0;
    assert(all.skip(0) =~= all);
    let mut stopped = false;
    while i < ls.len() && !stopped
        invariant
            i <= ls@.len() == all.len(),
            all == lines(gerber@),
            forall|j: int| 0 <= j < ls@.len() ==> #[trigger] ls@[j]@ == all[j],
            run_spec(initial_state(), all, 0) == if stopped {
                Ok::<ReadState, GerberError>(reader@)
            } else {
                run_spec(reader@, all.skip(i as int), i as int)
            },
        decreases ls.len() - i + (if stopped { 0int } else { 1int }),
    {
        let line = trim_chars(&ls[i]);
        proof {
            assert(all.skip(i as int)[0] == all[i as int]);
            assert(all.skip(i as int).drop_first() =~= all.skip(i as int + 1));
        }
        match reader.read_line(&line, i) {
            Err(e) => {
                return Err(e);
            },
            Ok(true) => {
                stopped = true;
            },
            Ok(false) => {
                i += 1;
            },
        }
    }
    assert(run_spec(initial_state(), all, 0) == Ok::<ReadState, GerberError>(reader@)) by {
        if !stopped {
            assert(all.skip(i as int) =~= Seq::<Seq<char>>::empty());
        }
    }
    if reader.in_region {
        return Err(GerberError::RegionUnterminated);
    }
    reader.finalize();
    Ok(ParsedGerber { geometries: reader.geometries })
}

/// A `D02` move outside a region, with a round aperture selected, ends the
/// stroke being drawn (adding it to the geometries when it has two points or
/// more) and starts a new stroke that holds only the move's point: no
/// segment joins the position before the move to its point.
pub proof fn lemma_move_ends_stroke(st: ReadState, point: Point, code: usize, d: i64)
    requires
        !st.in_region,
        st.current_aperture == Some(code),
        st.apertures.contains_key(code),
        st.apertures[code] == (ParsedGerberAperture::Circle { diameter_nm: d }),
    ensures
        match coordinate_step_spec(st, point, 2) {
            Step::Continue(s2) => {
                &&& s2.pending == Some((d, seq![point]))
                &&& s2.current_position == Some(point)
                &&& s2.geometries == match st.pending {
                    Some((pd, pts)) => if pts.len() >= 2 {
                        st.geometries.push(GeometryModel::Stroke { aperture_diameter_nm: pd, points: canon_path(pts) })
                    } else {
                        st.geometries
                    },
                    None => st.geometries,
                }
            },
            _ => false,
        },
{
}

/// A `D01` draw outside a region with the round aperture of the stroke being
/// drawn extends that stroke by the drawn point and adds no geometry.
pub proof fn lemma_draw_extends_stroke(st: ReadState, point: Point, code: usize, d: i64, pts: Seq<Point>)
    requires
        !st.in_region,
        st.current_aperture == Some(code),
        st.apertures.contains_key(code),
        st.apertures[code] == (ParsedGerberAperture::Circle { diameter_nm: d }),
        st.pending == Some((d, pts)),
    ensures
        match coordinate_step_spec(st, point, 1) {
            Step::Continue(s2) => {
                &&& s2.pending == Some((d, pts.push(point)))
                &&& s2.current_position == Some(point)
                &&& s2.geometries == st.geometries
            },
            _ => false,
        },
{
}

/// A `D03` flash outside a region ends the stroke being drawn (adding it
/// when it has two points or more) and then adds a flash of the selected
/// aperture at the point; no stroke is left pending.
pub proof fn lemma_flash_ends_stroke(st: ReadState, point: Point, code: usize)
    requires
        !st.in_region,
        st.current_aperture == Some(code),
        st.apertures.contains_key(code),
    ensures
        match coordinate_step_spec(st, point, 3) {
            Step::Continue(s2) => {
                &&& s2.pending is None
                &&& s2.current_position == Some(point)
                &&& s2.geometries == match st.pending {
                    Some((pd, pts)) => if pts.len() >= 2 {
                        st.geometries.push(GeometryModel::Stroke { aperture_diameter_nm: pd, points: canon_path(pts) })
                    } else {
                        st.geometries
                    },
                    None => st.geometries,
                }.push(GeometryModel::Flash { aperture: st.apertures[code], position: point })
            },
            _ => false,
        },
{
}

/// Inside a region a `D02` move starts the outline afresh at its point and
/// a `D01` draw adds its point to the outline; neither adds a geometry nor
/// touches the stroke being drawn.
pub proof fn lemma_region_points(st: ReadState, point: Point)
    requires
        st.in_region,
    ensures
        match coordinate_step_spec(st, point, 2) {
            Step::Continue(s2) => s2.region_points == seq![point] && s2.geometries == st.geometries && s2.pending
                == st.pending,
            _ => false,
        },
        match coordinate_step_spec(st, point, 1) {
            Step::Continue(s2) => s2.region_points == st.region_points.push(point) && s2.geometries == st.geometries
                && s2.pending == st.pending,
            _ => false,
        },
{
}

} // verus!
