//! The expected and the read-back geometry tallies of outline, copper,
//! soldermask and silkscreen Gerber layers.
use vstd::prelude::*;
use crate::geometry::{Point, canon_closed, canon_open, canonicalize_closed_loop, canonicalize_open_path};
use crate::gerber::{GeometryModel, ParsedGerber, ParsedGerberAperture, ParsedGerberGeometry};
use crate::render::{
    circle_flash_text, flash_chars, flash_text, region_chars, region_text, stroke_chars,
    stroke_text,
};
use crate::tally::{
    GeometryEntry, GeometryTally, Key, count_of, entries_view, kind_total, lemma_count_at,
    lemma_sorted_rest, lemma_tally_determined, sorted_entries, entry_key,
};

verus! {

/// The stroke width with which board outlines are drawn.
pub const DEFAULT_GERBER_OUTLINE_APERTURE_NM: i64 = 100_000;

/// How many of `keys` are `k`.
pub open spec fn occurrences(keys: Seq<Key>, k: Key) -> nat
    decreases keys.len(),
{
    if keys.len() == 0 {
        0
    } else {
        occurrences(keys.drop_last(), k) + if keys.last() == k {
            1nat
        } else {
            0nat
        }
    }
}

/// `t` is one of the signatures of `set`.
pub open spec fn contains_text(set: Seq<Vec<char>>, t: Seq<char>) -> bool {
    exists|i: int| 0 <= i < set.len() && #[trigger] set[i]@ == t
}

pub open spec fn outline_kind() -> Seq<char> {
    seq!['o', 'u', 't', 'l', 'i', 'n', 'e']
}

pub open spec fn flash_kind() -> Seq<char> {
    seq!['f', 'l', 'a', 's', 'h']
}

pub open spec fn region_kind() -> Seq<char> {
    seq!['r', 'e', 'g', 'i', 'o', 'n']
}

pub open spec fn track_kind() -> Seq<char> {
    seq!['t', 'r', 'a', 'c', 'k']
}

pub open spec fn pad_kind() -> Seq<char> {
    seq!['p', 'a', 'd']
}

pub open spec fn via_kind() -> Seq<char> {
    seq!['v', 'i', 'a']
}

pub open spec fn zone_kind() -> Seq<char> {
    seq!['z', 'o', 'n', 'e']
}

pub open spec fn stroke_kind() -> Seq<char> {
    seq!['s', 't', 'r', 'o', 'k', 'e']
}

/// How a read-back geometry is counted: strokes as `stroke_kind`, regions as
/// `region_kind`, and flashes as `pad` when their signature is an expected
/// pad's, else as `via` when it is an expected via's, else as `flash`.
pub open spec fn read_back_key(
    g: GeometryModel,
    stroke_kind: Seq<char>,
    region_kind: Seq<char>,
    pads: Seq<Vec<char>>,
    vias: Seq<Vec<char>>,
) -> Key {
    match g {
        GeometryModel::Stroke { aperture_diameter_nm, points } => (
            stroke_kind,
            stroke_text(aperture_diameter_nm as int, points),
        ),
        GeometryModel::Flash { aperture, position } => {
            let sig = flash_text(aperture, position);
            if contains_text(pads, sig) {
                (pad_kind(), sig)
            } else if contains_text(vias, sig) {
                (via_kind(), sig)
            } else {
                (flash_kind(), sig)
            }
        },
        GeometryModel::Region { points } => (region_kind, region_text(points)),
    }
}

/// The keys of all geometries of `gerber`, counted as `read_back_key` says.
pub open spec fn read_back_keys(
    gerber: Seq<GeometryModel>,
    stroke_kind: Seq<char>,
    region_kind: Seq<char>,
    pads: Seq<Vec<char>>,
    vias: Seq<Vec<char>>,
) -> Seq<Key> {
    Seq::new(
        gerber.len(),
        |i: int| read_back_key(gerber[i], stroke_kind, region_kind, pads, vias),
    )
}

/// Whether `t` is one of the signatures of `set`.
pub fn contains_chars(set: &[Vec<char>], t: &[char]) -> (r: bool)
    ensures
        r == contains_text(set@, t@),
{
    let mut i: usize = 0;
    while i < set.len()
        invariant
            i <= set.len(),
            forall|j: int| 0 <= j < i ==> set@[j]@ != t@,
        decreases set.len() - i,
    {
        if crate::text::chars_eq(&set[i], t) {
            return true;
        }
        i += 1;
    }
    false
}

proof fn lemma_occurrences_step(keys: Seq<Key>, i: int, k: Key)
    requires
        0 <= i < keys.len(),
    ensures
        occurrences(keys.take(i + 1), k) == occurrences(keys.take(i), k) + if keys[i] == k {
            1nat
        } else {
            0nat
        },
{
    assert(keys.take(i + 1).drop_last() =~= keys.take(i));
}

/// Counts the geometries of `gerber` as `read_back_key` says.
fn tally_read_back(
    gerber: &ParsedGerber,
    stroke_kind: &[char],
    region_kind: &[char],
    pads: &[Vec<char>],
    vias: &[Vec<char>],
) -> (t: GeometryTally)
    ensures
        t.wf(),
        t.total() == gerber.geometries@.len(),
        forall|k: Key| #[trigger]
            t.count(k) == occurrences(
                read_back_keys(gerber@, stroke_kind@, region_kind@, pads@, vias@),
                k,
            ),
{
    let ghost keys = read_back_keys(gerber@, stroke_kind@, region_kind@, pads@, vias@);
    let mut t = GeometryTally::new();
    let mut i: usize = 0;
    assert(keys.take(0) =~= Seq::<Key>::empty());
    while i < gerber.geometries.len()
        invariant
            i <= gerber.geometries@.len(),
            keys == read_back_keys(gerber@, stroke_kind@, region_kind@, pads@, vias@),
            t.wf(),
            t.total() == i,
            forall|k: Key| #[trigger] t.count(k) == occurrences(keys.take(i as int), k),
        decreases gerber.geometries.len() - i,
    {
        let ghost g = gerber.geometries@[i as int]@;
        let pad: Vec<char> = vec!['p', 'a', 'd'];
        let via: Vec<char> = vec!['v', 'i', 'a'];
        let flash: Vec<char> = vec!['f', 'l', 'a', 's', 'h'];
        let ghost before = t;
        match &gerber.geometries[i] {
            ParsedGerberGeometry::Stroke { aperture_diameter_nm, points } => {
                let sig = stroke_chars(*aperture_diameter_nm, points);
                t.add(stroke_kind, &sig);
            },
            ParsedGerberGeometry::Flash { aperture, position } => {
                let sig = flash_chars(aperture, position);
                if contains_chars(pads, &sig) {
                    t.add(&pad, &sig);
                } else if contains_chars(vias, &sig) {
                    t.add(&via, &sig);
                } else {
                    t.add(&flash, &sig);
                }
            },
            ParsedGerberGeometry::Region { points } => {
                let sig = region_chars(points);
                t.add(region_kind, &sig);
            },
        }
        proof {
            assert(keys[i as int] == read_back_key(g, stroke_kind@, region_kind@, pads@, vias@));
            assert forall|k: Key| #[trigger] t.count(k) == occurrences(keys.take(i + 1), k) by {
                lemma_occurrences_step(keys, i as int, k);
            }
        }
        i += 1;
    }
    assert(keys.take(gerber.geometries@.len() as int) =~= keys);
    t
}

/// The read-back tally of an outline layer: strokes count as `outline`.
pub fn gerber_outline_actual_entries(gerber: &ParsedGerber) -> (t: GeometryTally)
    ensures
        t.wf(),
        t.total() == gerber.geometries@.len(),
        forall|k: Key| #[trigger]
            t.count(k) == occurrences(
                read_back_keys(gerber@, outline_kind(), region_kind(), seq![], seq![]),
                k,
            ),
{
    let none: Vec<Vec<char>> = Vec::new();
    let t = tally_read_back(
        gerber,
        &vec!['o', 'u', 't', 'l', 'i', 'n', 'e'],
        &vec!['r', 'e', 'g', 'i', 'o', 'n'],
        &none,
        &none,
    );
    assert(none@ =~= Seq::<Vec<char>>::empty());
    t
}

/// The read-back tally of a copper layer: strokes count as `track`, regions
/// as `zone`, flashes as `pad` or `via` where an expected one has their
/// signature.
pub fn gerber_copper_actual_entries(
    gerber: &ParsedGerber,
    expected_pads: &[Vec<char>],
    expected_vias: &[Vec<char>],
) -> (t: GeometryTally)
    ensures
        t.wf(),
        t.total() == gerber.geometries@.len(),
        forall|k: Key| #[trigger]
            t.count(k) == occurrences(
                read_back_keys(gerber@, track_kind(), zone_kind(), expected_pads@, expected_vias@),
                k,
            ),
{
    tally_read_back(
        gerber,
        &vec!['t', 'r', 'a', 'c', 'k'],
        &vec!['z', 'o', 'n', 'e'],
        expected_pads,
        expected_vias,
    )
}

/// The read-back tally of a soldermask layer: strokes count as `track`,
/// flashes as `pad` where an expected pad has their signature.
pub fn gerber_soldermask_actual_entries(gerber: &ParsedGerber, expected_pads: &[Vec<char>]) -> (t:
    GeometryTally)
    ensures
        t.wf(),
        t.total() == gerber.geometries@.len(),
        forall|k: Key| #[trigger]
            t.count(k) == occurrences(
                read_back_keys(gerber@, track_kind(), region_kind(), expected_pads@, seq![]),
                k,
            ),
{
    let none: Vec<Vec<char>> = Vec::new();
    let t = tally_read_back(
        gerber,
        &vec!['t', 'r', 'a', 'c', 'k'],
        &vec!['r', 'e', 'g', 'i', 'o', 'n'],
        expected_pads,
        &none,
    );
    assert(none@ =~= Seq::<Vec<char>>::empty());
    t
}

/// The tally of a silkscreen layer read from Gerber: strokes count as
/// `stroke`.
pub fn gerber_silkscreen_expected_entries(gerber: &ParsedGerber) -> (t: GeometryTally)
    ensures
        t.wf(),
        t.total() == gerber.geometries@.len(),
        forall|k: Key| #[trigger]
            t.count(k) == occurrences(
                read_back_keys(gerber@, stroke_kind(), region_kind(), seq![], seq![]),
                k,
            ),
{
    let none: Vec<Vec<char>> = Vec::new();
    let t = tally_read_back(
        gerber,
        &vec!['s', 't', 'r', 'o', 'k', 'e'],
        &vec!['r', 'e', 'g', 'i', 'o', 'n'],
        &none,
        &none,
    );
    assert(none@ =~= Seq::<Vec<char>>::empty());
    t
}

/// The tally of a Gerber file being inspected: strokes count as `stroke`,
/// regions as `region`, flashes as `flash`.
pub fn gerber_inspection_entries(gerber: &ParsedGerber) -> (t: GeometryTally)
    ensures
        t.wf(),
        t.total() == gerber.geometries@.len(),
        forall|k: Key| #[trigger]
            t.count(k) == occurrences(
                read_back_keys(gerber@, stroke_kind(), region_kind(), seq![], seq![]),
                k,
            ),
{
    gerber_silkscreen_expected_entries(gerber)
}

/// How many geometries are strokes (`0`), flashes (`1`) or regions (`2`).
pub open spec fn count_shape(s: Seq<GeometryModel>, shape: int) -> nat
    decreases s.len(),
{
    if s.len() == 0 {
        0
    } else {
        count_shape(s.drop_last(), shape) + if shape_of(s.last()) == shape {
            1nat
        } else {
            0nat
        }
    }
}

/// `0` for a stroke, `1` for a flash, `2` for a region.
pub open spec fn shape_of(g: GeometryModel) -> int {
    match g {
        GeometryModel::Stroke { .. } => 0,
        GeometryModel::Flash { .. } => 1,
        GeometryModel::Region { .. } => 2,
    }
}

/// A Gerber file inspected: how many geometries of each shape, and their
/// tally.
pub struct GerberInspection {
    pub geometry_count: usize,
    pub stroke_count: usize,
    pub flash_count: usize,
    pub region_count: usize,
    pub entries: GeometryTally,
}

fn count_shapes(gerber: &ParsedGerber) -> (r: (usize, usize, usize))
    ensures
        r.0 == count_shape(gerber@, 0),
        r.1 == count_shape(gerber@, 1),
        r.2 == count_shape(gerber@, 2),
{
    let mut strokes: usize = 0;
    let mut flashes: usize = 0;
    let mut regions: usize = 0;
    let mut i: usize = 0;
    assert(gerber@.take(0) =~= Seq::<GeometryModel>::empty());
    while i < gerber.geometries.len()
        invariant
            i <= gerber.geometries@.len(),
            gerber@.len() == gerber.geometries@.len(),
            strokes + flashes + regions == i,
            strokes == count_shape(gerber@.take(i as int), 0),
            flashes == count_shape(gerber@.take(i as int), 1),
            regions == count_shape(gerber@.take(i as int), 2),
        decreases gerber.geometries.len() - i,
    {
        proof {
            let next = gerber@.take(i + 1);
            assert(next.drop_last() =~= gerber@.take(i as int));
            assert(next.last() == gerber@[i as int]);
            assert(gerber@[i as int] == gerber.geometries@[i as int]@);
        }
        match &gerber.geometries[i] {
            ParsedGerberGeometry::Stroke { .. } => {
                strokes = strokes + 1;
            },
            ParsedGerberGeometry::Flash { .. } => {
                flashes = flashes + 1;
            },
            ParsedGerberGeometry::Region { .. } => {
                regions = regions + 1;
            },
        }
        i = i + 1;
    }
    assert(gerber@.take(gerber.geometries.len() as int) =~= gerber@);
    (strokes, flashes, regions)
}

/// A Gerber file of the supported RS-274X subset inspected: it is parsed,
/// its geometries counted by shape and tallied by signature.
pub fn inspect_gerber(contents: &str) -> (r: Result<GerberInspection, crate::gerber::GerberError>)
    ensures
        match crate::gerber::parse_gerber_spec(contents@) {
            Err(e) => r == Err::<GerberInspection, crate::gerber::GerberError>(e),
            Ok(g) => r is Ok && ({
                let i = r.unwrap();
                &&& i.geometry_count == g.len()
                &&& i.stroke_count == count_shape(g, 0)
                &&& i.flash_count == count_shape(g, 1)
                &&& i.region_count == count_shape(g, 2)
                &&& i.entries.wf()
                &&& i.entries.total() == g.len()
                &&& forall|k: Key| #[trigger]
                    i.entries.count(k) == occurrences(
                        read_back_keys(g, stroke_kind(), region_kind(), seq![], seq![]),
                        k,
                    )
            }),
        },
{
    let parsed = crate::gerber::parse_rs274x_subset(contents)?;
    let (strokes, flashes, regions) = count_shapes(&parsed);
    let entries = gerber_inspection_entries(&parsed);
    Ok(
        GerberInspection {
            geometry_count: parsed.geometries.len(),
            stroke_count: strokes,
            flash_count: flashes,
            region_count: regions,
            entries,
        },
    )
}

/// How a mechanical-layer geometry is counted: a stroke as
/// `component_stroke` or `component_polyline_stroke` when a component
/// drew it, else `outline`; a region as `component_polygon` when a
/// component drew it, else `keepout`; a flash as `flash`.
pub open spec fn mechanical_key(
    g: GeometryModel,
    polygons: Seq<Vec<char>>,
    strokes: Seq<Vec<char>>,
    polyline_strokes: Seq<Vec<char>>,
) -> Key {
    match g {
        GeometryModel::Stroke { aperture_diameter_nm, points } => {
            let sig = stroke_text(aperture_diameter_nm as int, points);
            if contains_text(strokes, sig) {
                (seq!['c', 'o', 'm', 'p', 'o', 'n', 'e', 'n', 't', '_', 's', 't', 'r', 'o', 'k', 'e'], sig)
            } else if contains_text(polyline_strokes, sig) {
                (
                    seq![
                        'c', 'o', 'm', 'p', 'o', 'n', 'e', 'n', 't', '_', 'p', 'o', 'l', 'y', 'l',
                        'i', 'n', 'e', '_', 's', 't', 'r', 'o', 'k', 'e',
                    ],
                    sig,
                )
            } else {
                (outline_kind(), sig)
            }
        },
        GeometryModel::Flash { aperture, position } => (flash_kind(), flash_text(aperture, position)),
        GeometryModel::Region { points } => {
            let sig = region_text(points);
            if contains_text(polygons, sig) {
                (seq!['c', 'o', 'm', 'p', 'o', 'n', 'e', 'n', 't', '_', 'p', 'o', 'l', 'y', 'g', 'o', 'n'], sig)
            } else {
                (seq!['k', 'e', 'e', 'p', 'o', 'u', 't'], sig)
            }
        },
    }
}

/// The tally of a mechanical layer read from Gerber: geometries a component
/// drew are told apart from outline strokes and keepout regions by their
/// signatures.
pub fn gerber_mechanical_actual_entries(
    gerber: &ParsedGerber,
    expected_component_polygons: &[Vec<char>],
    expected_component_strokes: &[Vec<char>],
    expected_component_polyline_strokes: &[Vec<char>],
) -> (t: GeometryTally)
    ensures
        t.wf(),
        t.total() == gerber.geometries@.len(),
        forall|k: Key| #[trigger]
            t.count(k) == occurrences(
                Seq::new(
                    gerber@.len(),
                    |i: int|
                        mechanical_key(
                            gerber@[i],
                            expected_component_polygons@,
                            expected_component_strokes@,
                            expected_component_polyline_strokes@,
                        ),
                ),
                k,
            ),
{
    let ghost keys = Seq::new(
        gerber@.len(),
        |i: int|
            mechanical_key(
                gerber@[i],
                expected_component_polygons@,
                expected_component_strokes@,
                expected_component_polyline_strokes@,
            ),
    );
    let mut t = GeometryTally::new();
    let mut i: usize = 0;
    assert(keys.take(0) =~= Seq::<Key>::empty());
    while i < gerber.geometries.len()
        invariant
            i <= gerber.geometries@.len(),
            gerber@.len() == gerber.geometries@.len(),
            keys == Seq::new(
                gerber@.len(),
                |i: int|
                    mechanical_key(
                        gerber@[i],
                        expected_component_polygons@,
                        expected_component_strokes@,
                        expected_component_polyline_strokes@,
                    ),
            ),
            t.wf(),
            t.total() == i,
            forall|k: Key| #[trigger] t.count(k) == occurrences(keys.take(i as int), k),
        decreases gerber.geometries.len() - i,
    {
        let ghost g = gerber.geometries@[i as int]@;
        match &gerber.geometries[i] {
            ParsedGerberGeometry::Stroke { aperture_diameter_nm, points } => {
                let sig = stroke_chars(*aperture_diameter_nm, points);
                if contains_chars(expected_component_strokes, &sig) {
                    t.add(&['c', 'o', 'm', 'p', 'o', 'n', 'e', 'n', 't', '_', 's', 't', 'r', 'o', 'k', 'e'], &sig);
                } else if contains_chars(expected_component_polyline_strokes, &sig) {
                    t.add(
                        &[
                            'c', 'o', 'm', 'p', 'o', 'n', 'e', 'n', 't', '_', 'p', 'o', 'l', 'y', 'l',
                            'i', 'n', 'e', '_', 's', 't', 'r', 'o', 'k', 'e',
                        ],
                        &sig,
                    );
                } else {
                    t.add(&['o', 'u', 't', 'l', 'i', 'n', 'e'], &sig);
                }
            },
            ParsedGerberGeometry::Flash { aperture, position } => {
                let sig = flash_chars(aperture, position);
                t.add(&['f', 'l', 'a', 's', 'h'], &sig);
            },
            ParsedGerberGeometry::Region { points } => {
                let sig = region_chars(points);
                if contains_chars(expected_component_polygons, &sig) {
                    t.add(&['c', 'o', 'm', 'p', 'o', 'n', 'e', 'n', 't', '_', 'p', 'o', 'l', 'y', 'g', 'o', 'n'], &sig);
                } else {
                    t.add(&['k', 'e', 'e', 'p', 'o', 'u', 't'], &sig);
                }
            },
        }
        proof {
            assert(keys[i as int] == mechanical_key(
                g,
                expected_component_polygons@,
                expected_component_strokes@,
                expected_component_polyline_strokes@,
            ));
            assert forall|k: Key| #[trigger] t.count(k) == occurrences(keys.take(i + 1), k) by {
                lemma_occurrences_step(keys, i as int, k);
            }
        }
        i += 1;
    }
    assert(keys.take(gerber.geometries@.len() as int) =~= keys);
    t
}

/// A board outline.
pub struct Polygon {
    pub vertices: Vec<Point>,
    pub closed: bool,
}

/// The signature under which the outline is expected: a stroke of the
/// default outline width along the canonical loop (closed) or path (open).
pub open spec fn outline_text(outline: Polygon) -> Seq<char> {
    stroke_text(
        DEFAULT_GERBER_OUTLINE_APERTURE_NM as int,
        if outline.closed {
            canon_closed(outline.vertices@)
        } else {
            canon_open(outline.vertices@)
        },
    )
}

/// The expected tally of an outline layer: the outline, once.
pub fn gerber_outline_expected_entries(outline: &Polygon) -> (t: GeometryTally)
    ensures
        t.wf(),
        t.total() == 1,
        forall|k: Key| #[trigger]
            t.count(k) == if k == (outline_kind(), outline_text(*outline)) {
                1nat
            } else {
                0nat
            },
{
    let outline_points = if outline.closed {
        canonicalize_closed_loop(&outline.vertices)
    } else {
        canonicalize_open_path(&outline.vertices)
    };
    let sig = stroke_chars(DEFAULT_GERBER_OUTLINE_APERTURE_NM, &outline_points);
    let mut t = GeometryTally::new();
    t.add(&vec!['o', 'u', 't', 'l', 'i', 'n', 'e'], &sig);
    t
}

/// A flashed pad: its aperture and where it is.
#[derive(Debug, Clone, Copy, PartialEq, Eq, Structural)]
pub struct PadFlash {
    pub aperture: ParsedGerberAperture,
    pub position: Point,
}

/// A copper track.
#[derive(Debug, Clone, Copy, PartialEq, Eq, Structural)]
pub struct TrackSegment {
    pub width: i64,
    pub from: Point,
    pub to: Point,
}

/// A via: its diameter and where it is.
#[derive(Debug, Clone, Copy, PartialEq, Eq, Structural)]
pub struct ViaFlash {
    pub diameter: i64,
    pub position: Point,
}

/// The keys under which a copper layer is expected: each pad, track, zone
/// and via once, in that order.
pub open spec fn copper_expected_keys(
    pads: Seq<PadFlash>,
    tracks: Seq<TrackSegment>,
    zones: Seq<Vec<Point>>,
    vias: Seq<ViaFlash>,
) -> Seq<Key> {
    Seq::new(pads.len(), |i: int| (pad_kind(), flash_text(pads[i].aperture, pads[i].position)))
        + Seq::new(
        tracks.len(),
        |i: int| (track_kind(), stroke_text(tracks[i].width as int, seq![tracks[i].from, tracks[i].to])),
    ) + Seq::new(zones.len(), |i: int| (zone_kind(), region_text(zones[i]@))) + Seq::new(
        vias.len(),
        |i: int| (via_kind(), circle_flash_text(vias[i].diameter as int, vias[i].position)),
    )
}

proof fn lemma_occurrences_concat(a: Seq<Key>, b: Seq<Key>, k: Key)
    ensures
        occurrences(a + b, k) == occurrences(a, k) + occurrences(b, k),
    decreases b.len(),
{
    if b.len() == 0 {
        assert(a + b =~= a);
    } else {
        lemma_occurrences_concat(a, b.drop_last(), k);
        assert((a + b).drop_last() =~= a + b.drop_last());
    }
}

proof fn lemma_occurrences_push(s: Seq<Key>, x: Key, k: Key)
    ensures
        occurrences(s.push(x), k) == occurrences(s, k) + if x == k {
            1nat
        } else {
            0nat
        },
{
    assert(s.push(x).drop_last() =~= s);
}

/// Counts one more `(kind, sig)`, the next of the keys `acc` lists.
fn add_key(t: &mut GeometryTally, kind: &[char], sig: &[char], acc: Ghost<Seq<Key>>)
    requires
        old(t).wf(),
        old(t).total() < usize::MAX,
        forall|k: Key| #[trigger] old(t).count(k) == occurrences(acc@, k),
    ensures
        final(t).wf(),
        final(t).total() == old(t).total() + 1,
        forall|k: Key| #[trigger] final(t).count(k) == occurrences(acc@.push((kind@, sig@)), k),
{
    t.add(kind, sig);
    proof {
        assert forall|k: Key| #[trigger] t.count(k) == occurrences(acc@.push((kind@, sig@)), k) by {
            lemma_occurrences_push(acc@, (kind@, sig@), k);
        }
    }
}

/// The expected tally of a copper layer: each pad (`pad`), track (`track`),
/// zone (`zone`) and via (`via`) counted under its signature.
pub fn gerber_copper_expected_entries(
    pads: &[PadFlash],
    tracks: &[TrackSegment],
    zones: &[Vec<Point>],
    vias: &[ViaFlash],
) -> (t: GeometryTally)
    requires
        pads.len() + tracks.len() + zones.len() + vias.len() <= usize::MAX,
    ensures
        t.wf(),
        t.total() == pads@.len() + tracks@.len() + zones@.len() + vias@.len(),
        forall|k: Key| #[trigger]
            t.count(k) == occurrences(copper_expected_keys(pads@, tracks@, zones@, vias@), k),
{
    let ghost pad_keys = Seq::new(
        pads@.len(),
        |i: int| (pad_kind(), flash_text(pads@[i].aperture, pads@[i].position)),
    );
    let ghost track_keys = Seq::new(
        tracks@.len(),
        |i: int|
            (
                track_kind(),
                stroke_text(tracks@[i].width as int, seq![tracks@[i].from, tracks@[i].to]),
            ),
    );
    let ghost zone_keys = Seq::new(zones@.len(), |i: int| (zone_kind(), region_text(zones@[i]@)));
    let ghost via_keys = Seq::new(
        vias@.len(),
        |i: int| (via_kind(), circle_flash_text(vias@[i].diameter as int, vias@[i].position)),
    );
    let ghost mut acc: Seq<Key> = Seq::empty();
    let mut t = GeometryTally::new();
    let pad_k: Vec<char> = vec!['p', 'a', 'd'];
    let mut i: usize = 0;
    while i < pads.len()
        invariant
            pads.len() + tracks.len() + zones.len() + vias.len() <= usize::MAX,
            pad_k@ == pad_kind(),
            pad_keys == Seq::new(
                pads@.len(),
                |i: int| (pad_kind(), flash_text(pads@[i].aperture, pads@[i].position)),
            ),
            i <= pads.len(),
            acc == pad_keys.take(i as int),
            t.wf(),
            t.total() == i,
            forall|k: Key| #[trigger] t.count(k) == occurrences(acc, k),
        decreases pads.len() - i,
    {
        let sig = flash_chars(&pads[i].aperture, &pads[i].position);
        add_key(&mut t, &pad_k, &sig, Ghost(acc));
        proof {
            acc = acc.push((pad_k@, sig@));
            assert(acc =~= pad_keys.take(i + 1));
        }
        i += 1;
    }
    assert(acc =~= pad_keys);
    let track_k: Vec<char> = vec!['t', 'r', 'a', 'c', 'k'];
    i = 0;
    while i < tracks.len()
        invariant
            pads.len() + tracks.len() + zones.len() + vias.len() <= usize::MAX,
            track_k@ == track_kind(),
            track_keys == Seq::new(
                tracks@.len(),
                |i: int|
                    (
                        track_kind(),
                        stroke_text(tracks@[i].width as int, seq![tracks@[i].from, tracks@[i].to]),
                    ),
            ),
            i <= tracks.len(),
            acc == pad_keys + track_keys.take(i as int),
            t.wf(),
            t.total() == pads.len() + i,
            forall|k: Key| #[trigger] t.count(k) == occurrences(acc, k),
        decreases tracks.len() - i,
    {
        let tr = tracks[i];
        let pts = vec![tr.from, tr.to];
        assert(pts@ =~= seq![tr.from, tr.to]);
        let sig = stroke_chars(tr.width, &pts);
        add_key(&mut t, &track_k, &sig, Ghost(acc));
        proof {
            acc = acc.push((track_k@, sig@));
            assert(acc =~= pad_keys + track_keys.take(i + 1));
        }
        i += 1;
    }
    assert(track_keys.take(tracks.len() as int) =~= track_keys);
    let zone_k: Vec<char> = vec!['z', 'o', 'n', 'e'];
    i = 0;
    while i < zones.len()
        invariant
            pads.len() + tracks.len() + zones.len() + vias.len() <= usize::MAX,
            zone_k@ == zone_kind(),
            zone_keys == Seq::new(zones@.len(), |i: int| (zone_kind(), region_text(zones@[i]@))),
            i <= zones.len(),
            acc == pad_keys + track_keys + zone_keys.take(i as int),
            t.wf(),
            t.total() == pads.len() + tracks.len() + i,
            forall|k: Key| #[trigger] t.count(k) == occurrences(acc, k),
        decreases zones.len() - i,
    {
        let sig = region_chars(&zones[i]);
        add_key(&mut t, &zone_k, &sig, Ghost(acc));
        proof {
            acc = acc.push((zone_k@, sig@));
            assert(acc =~= pad_keys + track_keys + zone_keys.take(i + 1));
        }
        i += 1;
    }
    assert(zone_keys.take(zones.len() as int) =~= zone_keys);
    let via_k: Vec<char> = vec!['v', 'i', 'a'];
    i = 0;
    while i < vias.len()
        invariant
            pads.len() + tracks.len() + zones.len() + vias.len() <= usize::MAX,
            via_k@ == via_kind(),
            via_keys == Seq::new(
                vias@.len(),
                |i: int| (via_kind(), circle_flash_text(vias@[i].diameter as int, vias@[i].position)),
            ),
            i <= vias.len(),
            acc == pad_keys + track_keys + zone_keys + via_keys.take(i as int),
            t.wf(),
            t.total() == pads.len() + tracks.len() + zones.len() + i,
            forall|k: Key| #[trigger] t.count(k) == occurrences(acc, k),
        decreases vias.len() - i,
    {
        let sig = flash_chars(
            &ParsedGerberAperture::Circle { diameter_nm: vias[i].diameter },
            &vias[i].position,
        );
        add_key(&mut t, &via_k, &sig, Ghost(acc));
        proof {
            acc = acc.push((via_k@, sig@));
            assert(acc =~= pad_keys + track_keys + zone_keys + via_keys.take(i + 1));
        }
        i += 1;
    }
    assert(via_keys.take(vias.len() as int) =~= via_keys);
    assert(acc =~= copper_expected_keys(pads@, tracks@, zones@, vias@));
    t
}

/// The expected tally of a soldermask layer: each pad opening (`pad`).
pub fn gerber_soldermask_expected_entries(pads: &[PadFlash]) -> (t: GeometryTally)
    ensures
        t.wf(),
        t.total() == pads@.len(),
        forall|k: Key| #[trigger]
            t.count(k) == occurrences(copper_expected_keys(pads@, seq![], seq![], seq![]), k),
{
    let tracks: Vec<TrackSegment> = Vec::new();
    let zones: Vec<Vec<Point>> = Vec::new();
    let vias: Vec<ViaFlash> = Vec::new();
    let t = gerber_copper_expected_entries(pads, &tracks, &zones, &vias);
    assert(tracks@ =~= Seq::<TrackSegment>::empty());
    assert(zones@ =~= Seq::<Vec<Point>>::empty());
    assert(vias@ =~= Seq::<ViaFlash>::empty());
    t
}

/// The signature of a flashed pad: that of a flash of its aperture at its
/// position.
pub fn render_pad_flash_geometry(pad: &PadFlash) -> (s: String)
    ensures
        s@ == flash_text(pad.aperture, pad.position),
{
    crate::render::render_parsed_flash_geometry(&pad.aperture, &pad.position)
}

proof fn lemma_occurrences_count(keys: Seq<Key>, k: Key)
    ensures
        occurrences(keys, k) == keys.to_multiset().count(k),
    decreases keys.len(),
{
    broadcast use vstd::seq_lib::group_to_multiset_ensures, vstd::multiset::group_multiset_properties;
    if keys.len() == 0 {
        assert(keys.to_multiset().len() == 0);
    } else {
        lemma_occurrences_count(keys.drop_last(), k);
        assert(keys =~= keys.drop_last().push(keys.last()));
    }
}

proof fn lemma_read_back_multiset(
    g: Seq<GeometryModel>,
    g2: Seq<GeometryModel>,
    sk: Seq<char>,
    rk: Seq<char>,
    pads: Seq<Vec<char>>,
    vias: Seq<Vec<char>>,
)
    requires
        g.to_multiset() == g2.to_multiset(),
    ensures
        read_back_keys(g, sk, rk, pads, vias).to_multiset() == read_back_keys(g2, sk, rk, pads, vias).to_multiset(),
    decreases g.len(),
{
    broadcast use vstd::seq_lib::group_to_multiset_ensures, vstd::multiset::group_multiset_properties;
    let kg = read_back_keys(g, sk, rk, pads, vias);
    let kg2 = read_back_keys(g2, sk, rk, pads, vias);
    if g.len() == 0 {
        assert(g2.len() == g2.to_multiset().len());
        assert(g2.len() == 0);
        assert(kg =~= kg2);
    } else {
        let x = g.last();
        let d = g.drop_last();
        assert(g =~= d.push(x));
        assert(g.to_multiset() =~= d.to_multiset().insert(x));
        assert(g2.to_multiset().count(x) > 0);
        assert(g2.contains(x));
        let j = choose|j: int| 0 <= j < g2.len() && g2[j] == x;
        let g2r = g2.remove(j);
        assert(g2r.to_multiset() =~= g2.to_multiset().remove(x));
        assert(g2r.to_multiset() =~= d.to_multiset());
        lemma_read_back_multiset(d, g2r, sk, rk, pads, vias);
        let fx = read_back_key(x, sk, rk, pads, vias);
        assert(kg =~= read_back_keys(d, sk, rk, pads, vias).push(fx));
        assert(read_back_keys(g2r, sk, rk, pads, vias) =~= kg2.remove(j));
        assert(kg2[j] == fx);
        assert(kg2.remove(j).to_multiset() =~= kg2.to_multiset().remove(fx));
        assert(kg2.to_multiset().count(fx) > 0) by {
            assert(kg2.contains(fx));
        }
        assert(kg.to_multiset() =~= kg2.to_multiset().remove(fx).insert(fx));
        assert(kg2.to_multiset().remove(fx).insert(fx) =~= kg2.to_multiset());
    }
}

/// The tally of a silkscreen layer read from Gerber does not depend on the
/// order of the file's geometries: two files with the same geometries in
/// any order give the same entries (`t` and `t2` being the tallies of `g`
/// and `g2` as `gerber_silkscreen_expected_entries` gives them).
pub proof fn lemma_silkscreen_entries_ignore_order(
    g: Seq<GeometryModel>,
    g2: Seq<GeometryModel>,
    t: Seq<GeometryEntry>,
    t2: Seq<GeometryEntry>,
)
    requires
        g2.to_multiset() == g.to_multiset(),
        sorted_entries(t),
        sorted_entries(t2),
        forall|k: Key|
            count_of(t, k) == occurrences(read_back_keys(g, stroke_kind(), region_kind(), seq![], seq![]), k),
        forall|k: Key|
            count_of(t2, k) == occurrences(read_back_keys(g2, stroke_kind(), region_kind(), seq![], seq![]), k),
    ensures
        entries_view(t) == entries_view(t2),
{
    let e: Seq<Vec<char>> = seq![];
    lemma_read_back_multiset(g, g2, stroke_kind(), region_kind(), e, e);
    assert forall|k: Key| count_of(t, k) == count_of(t2, k) by {
        lemma_occurrences_count(read_back_keys(g, stroke_kind(), region_kind(), e, e), k);
        lemma_occurrences_count(read_back_keys(g2, stroke_kind(), region_kind(), e, e), k);
    }
    lemma_tally_determined(t, t2);
}

/// A Gerber file's inspection entries are its silkscreen entries: the two
/// tallies (`t` as `gerber_inspection_entries` gives it, `t2` as
/// `gerber_silkscreen_expected_entries` does) hold the same entries.
pub proof fn lemma_inspection_is_silkscreen_tally(g: Seq<GeometryModel>, t: Seq<GeometryEntry>, t2: Seq<GeometryEntry>)
    requires
        sorted_entries(t),
        sorted_entries(t2),
        forall|k: Key|
            count_of(t, k) == occurrences(read_back_keys(g, stroke_kind(), region_kind(), seq![], seq![]), k),
        forall|k: Key|
            count_of(t2, k) == occurrences(read_back_keys(g, stroke_kind(), region_kind(), seq![], seq![]), k),
    ensures
        entries_view(t) == entries_view(t2),
{
    lemma_tally_determined(t, t2);
}

/// `keys` without any copy of `key`.
pub open spec fn without_key(keys: Seq<Key>, key: Key) -> Seq<Key>
    decreases keys.len(),
{
    if keys.len() == 0 {
        keys
    } else if keys.last() == key {
        without_key(keys.drop_last(), key)
    } else {
        without_key(keys.drop_last(), key).push(keys.last())
    }
}

/// How many of `keys` have the kind `kind`.
pub open spec fn kind_occurrences(keys: Seq<Key>, kind: Seq<char>) -> nat
    decreases keys.len(),
{
    if keys.len() == 0 {
        0
    } else {
        kind_occurrences(keys.drop_last(), kind) + if keys.last().0 == kind {
            1nat
        } else {
            0nat
        }
    }
}

proof fn lemma_without_key(keys: Seq<Key>, key: Key, k: Key, kind: Seq<char>)
    ensures
        occurrences(without_key(keys, key), k) == if k == key {
            0
        } else {
            occurrences(keys, k)
        },
        kind_occurrences(keys, kind) == kind_occurrences(without_key(keys, key), kind) + if key.0 == kind {
            occurrences(keys, key)
        } else {
            0
        },
    decreases keys.len(),
{
    if keys.len() > 0 {
        lemma_without_key(keys.drop_last(), key, k, kind);
        let w = without_key(keys.drop_last(), key);
        if keys.last() != key {
            assert(w.push(keys.last()).drop_last() =~= w);
        }
    }
}

proof fn lemma_kind_total_counts(t: Seq<GeometryEntry>, keys: Seq<Key>, kind: Seq<char>)
    requires
        sorted_entries(t),
        forall|k: Key| count_of(t, k) == occurrences(keys, k),
    ensures
        kind_total(t, kind) == kind_occurrences(keys, kind),
    decreases t.len(), keys.len(),
{
    if t.len() == 0 {
        assert forall|k: Key| occurrences(keys, k) == 0 by {}
        lemma_no_keys(keys, kind);
    } else {
        let d = t.drop_last();
        let e = t.last();
        let key = entry_key(e);
        lemma_sorted_rest(t);
        lemma_count_at(t, t.len() - 1);
        let w = without_key(keys, key);
        assert forall|k: Key| count_of(d, k) == occurrences(w, k) by {
            lemma_without_key(keys, key, k, kind);
            assert(t.drop_last() == d);
            if k == key {
                assert forall|i: int| 0 <= i < d.len() implies entry_key(#[trigger] d[i]) != key by {
                    assert(d[i] == t[i]);
                    assert(crate::tally::key_lt(entry_key(t[i]), entry_key(t[t.len() - 1])));
                    crate::tally::lemma_key_lt_irreflexive(key);
                }
                crate::tally::lemma_count_absent(d, key);
            }
        }
        lemma_without_key(keys, key, key, kind);
        lemma_kind_total_counts(d, w, kind);
    }
}

proof fn lemma_no_keys(keys: Seq<Key>, kind: Seq<char>)
    requires
        forall|k: Key| occurrences(keys, k) == 0,
    ensures
        kind_occurrences(keys, kind) == 0,
        keys.len() == 0,
{
    if keys.len() > 0 {
        let k = keys.last();
        assert(occurrences(keys, k) >= 1);
    }
}

proof fn lemma_read_back_kinds(g: Seq<GeometryModel>)
    ensures
        kind_occurrences(read_back_keys(g, stroke_kind(), region_kind(), seq![], seq![]), stroke_kind())
            == count_shape(g, 0),
        kind_occurrences(read_back_keys(g, stroke_kind(), region_kind(), seq![], seq![]), flash_kind())
            == count_shape(g, 1),
        kind_occurrences(read_back_keys(g, stroke_kind(), region_kind(), seq![], seq![]), region_kind())
            == count_shape(g, 2),
    decreases g.len(),
{
    let e: Seq<Vec<char>> = seq![];
    let keys = read_back_keys(g, stroke_kind(), region_kind(), e, e);
    if g.len() == 0 {
        assert(keys.len() == 0);
    } else {
        lemma_read_back_kinds(g.drop_last());
        assert(keys.drop_last() =~= read_back_keys(g.drop_last(), stroke_kind(), region_kind(), e, e));
        assert(keys.last() == read_back_key(g.last(), stroke_kind(), region_kind(), e, e));
        assert(stroke_kind() != flash_kind() && stroke_kind() != region_kind() && flash_kind() != region_kind()) by {
            assert(stroke_kind()[0] != flash_kind()[0]);
            assert(stroke_kind()[0] != region_kind()[0]);
            assert(flash_kind()[0] != region_kind()[0]);
        }
        assert(!contains_text(e, flash_text(g.last()->aperture, g.last()->position)));
    }
}

/// The tally of a silkscreen layer (or an inspected file) read from Gerber
/// counts each geometry once under its shape: its `stroke`, `flash` and
/// `region` entries add up to the file's strokes, flashes and regions, and
/// all its entries to the number of geometries (`t` being the tally of `g`
/// as `gerber_silkscreen_expected_entries` gives it).
pub proof fn lemma_silkscreen_counts_by_kind(g: Seq<GeometryModel>, t: Seq<GeometryEntry>)
    requires
        sorted_entries(t),
        forall|k: Key|
            count_of(t, k) == occurrences(read_back_keys(g, stroke_kind(), region_kind(), seq![], seq![]), k),
    ensures
        kind_total(t, stroke_kind()) == count_shape(g, 0),
        kind_total(t, flash_kind()) == count_shape(g, 1),
        kind_total(t, region_kind()) == count_shape(g, 2),
        count_shape(g, 0) + count_shape(g, 1) + count_shape(g, 2) == g.len(),
{
    let keys = read_back_keys(g, stroke_kind(), region_kind(), seq![], seq![]);
    lemma_kind_total_counts(t, keys, stroke_kind());
    lemma_kind_total_counts(t, keys, flash_kind());
    lemma_kind_total_counts(t, keys, region_kind());
    lemma_read_back_kinds(g);
    lemma_shapes_cover(g);
}

proof fn lemma_shapes_cover(g: Seq<GeometryModel>)
    ensures
        count_shape(g, 0) + count_shape(g, 1) + count_shape(g, 2) == g.len(),
    decreases g.len(),
{
    if g.len() > 0 {
        lemma_shapes_cover(g.drop_last());
    }
}

} // verus!
