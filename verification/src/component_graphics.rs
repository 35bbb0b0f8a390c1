//! A placed component's graphics as the board draws them, taken from the
//! land pattern of its pool footprint or package: silkscreen primitives
//! sorted into lines, arcs, circles, texts, polygons and polylines on the
//! component's silkscreen layer, the courtyard as a mechanical polygon, and
//! the pads with their padstack apertures, in order of name and UUID.
use vstd::prelude::*;
use crate::drill::int_order;
use crate::forward_annotation::{compare_strings, copy_text};
use crate::geometry::{PathOrder, Point, copy_points};
use crate::ordering::{SortKeyed, is_key_sorted, order_then, stable_sort_by_key, stable_sorted};
use crate::silkscreen_primitives::SilkscreenPrimitive;
use crate::tally::{lemma_text_lt_trans, lemma_text_order_flip, text_order};

verus! {

/// The mechanical layer a component's courtyard is drawn on.
pub const PACKAGE_COURTYARD_MECHANICAL_LAYER_ID: i32 = 41;

/// The height of a silkscreen text taken from a land pattern.
pub const SILKSCREEN_TEXT_HEIGHT_NM: i64 = 1_000_000;

/// The stroke width of a silkscreen text taken from a land pattern.
pub const SILKSCREEN_TEXT_STROKE_NM: i64 = 150_000;

/// The shape of a pad's copper.
#[derive(Debug, Clone, Copy, PartialEq, Eq, Structural)]
pub enum PadShape {
    Circle,
    Rect,
}

/// The copper aperture of a padstack.
#[derive(Debug, Clone, Copy, PartialEq, Eq, Structural)]
pub enum PadstackAperture {
    Circle { diameter_nm: i64 },
    Rect { width_nm: i64, height_nm: i64 },
}

/// What the board needs of a pool padstack: its aperture and drill.
#[derive(Debug, Clone, Copy, PartialEq, Eq, Structural)]
pub struct Padstack {
    pub aperture: Option<PadstackAperture>,
    pub drill_nm: Option<i64>,
}

/// A pad of a pool footprint or package.
#[derive(Debug, Clone, PartialEq, Eq)]
pub struct PoolPad {
    pub uuid: u128,
    pub name: String,
    pub position: Point,
    pub padstack: u128,
    pub layer: i32,
}

/// A pad of a placed component as the board draws it.
#[derive(Debug, Clone, PartialEq, Eq)]
pub struct ComponentPad {
    pub uuid: u128,
    pub name: String,
    pub position: Point,
    pub padstack: u128,
    pub layer: i32,
    pub drill_nm: Option<i64>,
    pub shape: Option<PadShape>,
    pub diameter_nm: i64,
    pub width_nm: i64,
    pub height_nm: i64,
}

/// The pad's shape and its diameter, width and height from the padstack's
/// aperture: a circle has only a diameter, a rectangle only a width and a
/// height, and a pad without aperture has none.
pub open spec fn aperture_dims(padstack: Option<Padstack>) -> (Option<PadShape>, i64, i64, i64) {
    match padstack {
        Some(p) => match p.aperture {
            Some(PadstackAperture::Circle { diameter_nm }) => (Some(PadShape::Circle), diameter_nm, 0, 0),
            Some(PadstackAperture::Rect { width_nm, height_nm }) => (Some(PadShape::Rect), 0, width_nm, height_nm),
            None => (None, 0, 0, 0),
        },
        None => (None, 0, 0, 0),
    }
}

/// The board's pad for a pool pad and its padstack, if that was found.
pub fn native_component_pad(pad: &PoolPad, padstack: Option<&Padstack>) -> (r: ComponentPad)
    ensures
        r.uuid == pad.uuid,
        r.name@ == pad.name@,
        r.position == pad.position,
        r.padstack == pad.padstack,
        r.layer == pad.layer,
        r.drill_nm == match padstack {
            Some(p) => p.drill_nm,
            None => None,
        },
        (r.shape, r.diameter_nm, r.width_nm, r.height_nm) == aperture_dims(
            match padstack {
                Some(p) => Some(*p),
                None => None,
            },
        ),
{
    let (shape, diameter_nm, width_nm, height_nm) = match padstack {
        Some(p) => match p.aperture {
            Some(PadstackAperture::Circle { diameter_nm }) => (Some(PadShape::Circle), diameter_nm, 0, 0),
            Some(PadstackAperture::Rect { width_nm, height_nm }) => (Some(PadShape::Rect), 0, width_nm, height_nm),
            None => (None, 0, 0, 0),
        },
        None => (None, 0, 0, 0),
    };
    let drill_nm = match padstack {
        Some(p) => p.drill_nm,
        None => None,
    };
    ComponentPad {
        uuid: pad.uuid,
        name: copy_text(&pad.name),
        position: pad.position,
        padstack: pad.padstack,
        layer: pad.layer,
        drill_nm,
        shape,
        diameter_nm,
        width_nm,
        height_nm,
    }
}

impl SortKeyed for ComponentPad {
    /// Pads are ordered by name, then UUID.
    open spec fn key_rel(&self, other: &Self) -> PathOrder {
        order_then(text_order(self.name@, other.name@), int_order(self.uuid as int, other.uuid as int))
    }

    proof fn lemma_key_rel_flip(a: Self, b: Self) {
        lemma_text_order_flip(a.name@, b.name@);
    }

    proof fn lemma_key_le_trans(a: Self, b: Self, c: Self) {
        lemma_text_order_flip(a.name@, b.name@);
        lemma_text_order_flip(b.name@, c.name@);
        lemma_text_order_flip(a.name@, c.name@);
        lemma_text_lt_trans(a.name@, b.name@, c.name@);
    }

    fn compare_keys(&self, other: &Self) -> (o: PathOrder) {
        let o = compare_strings(&self.name, &other.name);
        if o != PathOrder::Equal {
            return o;
        }
        if self.uuid < other.uuid {
            PathOrder::Less
        } else if self.uuid > other.uuid {
            PathOrder::Greater
        } else {
            PathOrder::Equal
        }
    }
}

/// A silkscreen line of a component.
#[derive(Debug, Clone, Copy, PartialEq, Eq, Structural)]
pub struct SilkscreenLine {
    pub from: Point,
    pub to: Point,
    pub width_nm: i64,
    pub layer: i32,
}

/// A silkscreen circle of a component.
#[derive(Debug, Clone, Copy, PartialEq, Eq, Structural)]
pub struct SilkscreenCircle {
    pub center: Point,
    pub radius_nm: i64,
    pub width_nm: i64,
    pub layer: i32,
}

/// A silkscreen arc of a component; angles in tenths of a degree.
#[derive(Debug, Clone, Copy, PartialEq, Eq, Structural)]
pub struct SilkscreenArc {
    pub center: Point,
    pub radius_nm: i64,
    pub start_angle: i32,
    pub end_angle: i32,
    pub width_nm: i64,
    pub layer: i32,
}

/// A silkscreen text of a component.
#[derive(Debug, Clone, PartialEq, Eq)]
pub struct SilkscreenText {
    pub text: String,
    pub position: Point,
    pub rotation: i32,
    pub height_nm: i64,
    pub stroke_width_nm: i64,
    pub layer: i32,
}

/// A silkscreen outline of a component, closed (a polygon) or open (a
/// polyline).
#[derive(Debug, Clone, PartialEq, Eq)]
pub struct SilkscreenOutline {
    pub vertices: Vec<Point>,
    pub width_nm: i64,
    pub layer: i32,
}

/// A mechanical polygon of a component.
#[derive(Debug, Clone, PartialEq, Eq)]
pub struct MechanicalPolygon {
    pub vertices: Vec<Point>,
    pub layer: i32,
}

/// A component's graphics on the board.
#[derive(Debug, Clone, PartialEq, Eq)]
pub struct ComponentGraphics {
    pub silkscreen_lines: Vec<SilkscreenLine>,
    pub silkscreen_arcs: Vec<SilkscreenArc>,
    pub silkscreen_circles: Vec<SilkscreenCircle>,
    pub silkscreen_texts: Vec<SilkscreenText>,
    pub silkscreen_polygons: Vec<SilkscreenOutline>,
    pub silkscreen_polylines: Vec<SilkscreenOutline>,
    pub mechanical_polygons: Vec<MechanicalPolygon>,
    pub pads: Vec<ComponentPad>,
}

/// The corners of the rectangle from `min` to `max`, counter-clockwise
/// from `min`.
pub open spec fn rect_points(min: Point, max: Point) -> Seq<Point> {
    seq![
        Point { x: min.x, y: min.y },
        Point { x: max.x, y: min.y },
        Point { x: max.x, y: max.y },
        Point { x: min.x, y: max.y },
    ]
}

/// The lines among the primitives, in order, on `layer`.
pub open spec fn silk_lines(p: Seq<SilkscreenPrimitive>, layer: i32) -> Seq<SilkscreenLine>
    decreases p.len(),
{
    if p.len() == 0 {
        Seq::empty()
    } else {
        let rest = silk_lines(p.drop_last(), layer);
        match p.last() {
            SilkscreenPrimitive::Line { from, to, width } => rest.push(
                SilkscreenLine { from, to, width_nm: width, layer },
            ),
            _ => rest,
        }
    }
}

/// The arcs among the primitives, in order, on `layer`.
pub open spec fn silk_arcs(p: Seq<SilkscreenPrimitive>, layer: i32) -> Seq<SilkscreenArc>
    decreases p.len(),
{
    if p.len() == 0 {
        Seq::empty()
    } else {
        let rest = silk_arcs(p.drop_last(), layer);
        match p.last() {
            SilkscreenPrimitive::Arc { center, radius, start_angle, end_angle, width } => rest.push(
                SilkscreenArc { center, radius_nm: radius, start_angle, end_angle, width_nm: width, layer },
            ),
            _ => rest,
        }
    }
}

/// The circles among the primitives, in order, on `layer`.
pub open spec fn silk_circles(p: Seq<SilkscreenPrimitive>, layer: i32) -> Seq<SilkscreenCircle>
    decreases p.len(),
{
    if p.len() == 0 {
        Seq::empty()
    } else {
        let rest = silk_circles(p.drop_last(), layer);
        match p.last() {
            SilkscreenPrimitive::Circle { center, radius, width } => rest.push(
                SilkscreenCircle { center, radius_nm: radius, width_nm: width, layer },
            ),
            _ => rest,
        }
    }
}

/// A text as plain values: text, position, rotation, height, stroke width
/// and layer.
pub type TextView = (Seq<char>, Point, i32, i64, i64, i32);

/// The texts among the primitives, in order, on `layer`, with the standard
/// height and stroke width.
pub open spec fn silk_texts(p: Seq<SilkscreenPrimitive>, layer: i32) -> Seq<TextView>
    decreases p.len(),
{
    if p.len() == 0 {
        Seq::empty()
    } else {
        let rest = silk_texts(p.drop_last(), layer);
        match p.last() {
            SilkscreenPrimitive::Text { text, position, rotation } => rest.push(
                (text@, position, rotation, SILKSCREEN_TEXT_HEIGHT_NM, SILKSCREEN_TEXT_STROKE_NM, layer),
            ),
            _ => rest,
        }
    }
}

/// An outline as plain values: vertices, width and layer.
pub type OutlineView = (Seq<Point>, i64, i32);

/// The closed outlines among the primitives, in order, on `layer`: each
/// rectangle by its corners and each closed polygon.
pub open spec fn silk_polygons(p: Seq<SilkscreenPrimitive>, layer: i32) -> Seq<OutlineView>
    decreases p.len(),
{
    if p.len() == 0 {
        Seq::empty()
    } else {
        let rest = silk_polygons(p.drop_last(), layer);
        match p.last() {
            SilkscreenPrimitive::Rect { min, max, width } => rest.push((rect_points(min, max), width, layer)),
            SilkscreenPrimitive::Polygon { vertices, closed, width } => if closed {
                rest.push((vertices@, width, layer))
            } else {
                rest
            },
            _ => rest,
        }
    }
}

/// The open polygons among the primitives, in order, on `layer`.
pub open spec fn silk_polylines(p: Seq<SilkscreenPrimitive>, layer: i32) -> Seq<OutlineView>
    decreases p.len(),
{
    if p.len() == 0 {
        Seq::empty()
    } else {
        let rest = silk_polylines(p.drop_last(), layer);
        match p.last() {
            SilkscreenPrimitive::Polygon { vertices, closed, width } => if !closed {
                rest.push((vertices@, width, layer))
            } else {
                rest
            },
            _ => rest,
        }
    }
}

/// The texts as plain values.
pub open spec fn texts_of(t: Seq<SilkscreenText>) -> Seq<TextView> {
    Seq::new(
        t.len(),
        |i: int| (t[i].text@, t[i].position, t[i].rotation, t[i].height_nm, t[i].stroke_width_nm, t[i].layer),
    )
}

/// The outlines as plain values.
pub open spec fn outlines_of(t: Seq<SilkscreenOutline>) -> Seq<OutlineView> {
    Seq::new(t.len(), |i: int| (t[i].vertices@, t[i].width_nm, t[i].layer))
}

/// The courtyard as mechanical polygons: one on the courtyard layer when it
/// is closed and has at least two vertices, none otherwise.
pub open spec fn courtyard_polygons(vertices: Seq<Point>, closed: bool) -> Seq<(Seq<Point>, i32)> {
    if closed && vertices.len() >= 2 {
        seq![(vertices, PACKAGE_COURTYARD_MECHANICAL_LAYER_ID)]
    } else {
        Seq::empty()
    }
}

/// The pads of the land pattern as the board draws them, in the land
/// pattern's order.
pub open spec fn pads_of(pads: Seq<(PoolPad, Option<Padstack>)>) -> Seq<(u128, Seq<char>, Point, u128, i32, Option<i64>, (Option<PadShape>, i64, i64, i64))> {
    Seq::new(
        pads.len(),
        |i: int|
            (
                pads[i].0.uuid,
                pads[i].0.name@,
                pads[i].0.position,
                pads[i].0.padstack,
                pads[i].0.layer,
                match pads[i].1 {
                    Some(p) => p.drill_nm,
                    None => None,
                },
                aperture_dims(pads[i].1),
            ),
    )
}

/// A board pad as plain values.
pub open spec fn pad_view(p: ComponentPad) -> (u128, Seq<char>, Point, u128, i32, Option<i64>, (Option<PadShape>, i64, i64, i64)) {
    (p.uuid, p.name@, p.position, p.padstack, p.layer, p.drill_nm, (p.shape, p.diameter_nm, p.width_nm, p.height_nm))
}

/// Board pads as plain values.
pub open spec fn pad_views(s: Seq<ComponentPad>) -> Seq<(u128, Seq<char>, Point, u128, i32, Option<i64>, (Option<PadShape>, i64, i64, i64))> {
    Seq::new(s.len(), |i: int| pad_view(s[i]))
}

fn push_outline(out: &mut Vec<SilkscreenOutline>, vertices: &Vec<Point>, width_nm: i64, layer: i32)
    ensures
        outlines_of(final(out)@) == outlines_of(old(out)@).push((vertices@, width_nm, layer)),
{
    let ghost before = outlines_of(out@);
    out.push(SilkscreenOutline { vertices: copy_points(vertices.as_slice()), width_nm, layer });
    assert(outlines_of(out@) =~= before.push((vertices@, width_nm, layer)));
}

/// The graphics of a component from its land pattern: the silkscreen
/// primitives, in order, sorted by kind onto `silkscreen_layer` (rectangles
/// and closed polygons as polygons, open polygons as polylines, texts with
/// the standard height and stroke width), the courtyard as a mechanical
/// polygon when it is closed and has at least two vertices, and the pads,
/// each with its padstack's aperture and drill, sorted by name and then
/// UUID (pads of equal name and UUID keeping their order).
pub fn materialize_component_graphics(
    silkscreen: &[SilkscreenPrimitive],
    courtyard_vertices: &[Point],
    courtyard_closed: bool,
    pads: &[(PoolPad, Option<Padstack>)],
    silkscreen_layer: i32,
) -> (r: ComponentGraphics)
    ensures
        r.silkscreen_lines@ == silk_lines(silkscreen@, silkscreen_layer),
        r.silkscreen_arcs@ == silk_arcs(silkscreen@, silkscreen_layer),
        r.silkscreen_circles@ == silk_circles(silkscreen@, silkscreen_layer),
        texts_of(r.silkscreen_texts@) == silk_texts(silkscreen@, silkscreen_layer),
        outlines_of(r.silkscreen_polygons@) == silk_polygons(silkscreen@, silkscreen_layer),
        outlines_of(r.silkscreen_polylines@) == silk_polylines(silkscreen@, silkscreen_layer),
        Seq::new(r.mechanical_polygons@.len(), |i: int| (r.mechanical_polygons@[i].vertices@, r.mechanical_polygons@[i].layer))
            == courtyard_polygons(courtyard_vertices@, courtyard_closed),
        is_key_sorted(r.pads@),
        exists|unsorted: Seq<ComponentPad>|
            r.pads@ == #[trigger] stable_sorted(unsorted) && pad_views(unsorted) == pads_of(pads@),
{
    let mut lines: Vec<SilkscreenLine> = Vec::new();
    let mut arcs: Vec<SilkscreenArc> = Vec::new();
    let mut circles: Vec<SilkscreenCircle> = Vec::new();
    let mut texts: Vec<SilkscreenText> = Vec::new();
    let mut polygons: Vec<SilkscreenOutline> = Vec::new();
    let mut polylines: Vec<SilkscreenOutline> = Vec::new();
    let ghost p = silkscreen@;
    let layer = silkscreen_layer;
    let mut i: usize = 0;
    assert(p.take(0) =~= Seq::<SilkscreenPrimitive>::empty());
    assert(texts_of(texts@) =~= Seq::<TextView>::empty());
    assert(outlines_of(polygons@) =~= Seq::<OutlineView>::empty());
    assert(outlines_of(polylines@) =~= Seq::<OutlineView>::empty());
    while i < silkscreen.len()
        invariant
            i <= p.len(),
            p == silkscreen@,
            lines@ == silk_lines(p.take(i as int), layer),
            arcs@ == silk_arcs(p.take(i as int), layer),
            circles@ == silk_circles(p.take(i as int), layer),
            texts_of(texts@) == silk_texts(p.take(i as int), layer),
            outlines_of(polygons@) == silk_polygons(p.take(i as int), layer),
            outlines_of(polylines@) == silk_polylines(p.take(i as int), layer),
        decreases p.len() - i,
    {
        let ghost t = p.take(i + 1);
        proof {
            assert(t.drop_last() =~= p.take(i as int));
            assert(t.last() == p[i as int]);
        }
        match &silkscreen[i] {
            SilkscreenPrimitive::Line { from, to, width } => {
                lines.push(SilkscreenLine { from: *from, to: *to, width_nm: *width, layer });
            },
            SilkscreenPrimitive::Rect { min, max, width } => {
                let v = vec![
                    Point { x: min.x, y: min.y },
                    Point { x: max.x, y: min.y },
                    Point { x: max.x, y: max.y },
                    Point { x: min.x, y: max.y },
                ];
                assert(v@ =~= rect_points(*min, *max));
                push_outline(&mut polygons, &v, *width, layer);
            },
            SilkscreenPrimitive::Circle { center, radius, width } => {
                circles.push(SilkscreenCircle { center: *center, radius_nm: *radius, width_nm: *width, layer });
            },
            SilkscreenPrimitive::Arc { center, radius, start_angle, end_angle, width } => {
                arcs.push(
                    SilkscreenArc {
                        center: *center,
                        radius_nm: *radius,
                        start_angle: *start_angle,
                        end_angle: *end_angle,
                        width_nm: *width,
                        layer,
                    },
                );
            },
            SilkscreenPrimitive::Polygon { vertices, closed, width } => {
                if *closed {
                    push_outline(&mut polygons, vertices, *width, layer);
                } else {
                    push_outline(&mut polylines, vertices, *width, layer);
                }
            },
            SilkscreenPrimitive::Text { text, position, rotation } => {
                let ghost before = texts_of(texts@);
                texts.push(
                    SilkscreenText {
                        text: copy_text(text),
                        position: *position,
                        rotation: *rotation,
                        height_nm: SILKSCREEN_TEXT_HEIGHT_NM,
                        stroke_width_nm: SILKSCREEN_TEXT_STROKE_NM,
                        layer,
                    },
                );
                assert(texts_of(texts@) =~= before.push(
                    (text@, *position, *rotation, SILKSCREEN_TEXT_HEIGHT_NM, SILKSCREEN_TEXT_STROKE_NM, layer),
                ));
            },
        }
        i = i + 1;
    }
    assert(p.take(p.len() as int) =~= p);
    let mut mechanical: Vec<MechanicalPolygon> = Vec::new();
    if courtyard_closed && courtyard_vertices.len() >= 2 {
        mechanical.push(
            MechanicalPolygon {
                vertices: copy_points(courtyard_vertices),
                layer: PACKAGE_COURTYARD_MECHANICAL_LAYER_ID,
            },
        );
    }
    assert(Seq::new(mechanical@.len(), |i: int| (mechanical@[i].vertices@, mechanical@[i].layer))
        =~= courtyard_polygons(courtyard_vertices@, courtyard_closed));
    let mut board_pads: Vec<ComponentPad> = Vec::new();
    let mut k: usize = 0;
    while k < pads.len()
        invariant
            k <= pads@.len(),
            board_pads@.len() == k,
            forall|j: int| 0 <= j < k ==> pad_view(#[trigger] board_pads@[j]) == pads_of(pads@)[j],
        decreases pads@.len() - k,
    {
        let entry = &pads[k];
        let padstack = match &entry.1 {
            Some(ps) => Some(ps),
            None => None,
        };
        let pad = native_component_pad(&entry.0, padstack);
        proof {
            let ghost q: Option<Padstack> = match padstack {
                Some(ps) => Some(*ps),
                None => None,
            };
            assert(q == pads@[k as int].1);
        }
        board_pads.push(pad);
        k = k + 1;
    }
    let ghost unsorted = board_pads@;
    assert(pad_views(unsorted) =~= pads_of(pads@));
    let sorted = stable_sort_by_key(board_pads);
    ComponentGraphics {
        silkscreen_lines: lines,
        silkscreen_arcs: arcs,
        silkscreen_circles: circles,
        silkscreen_texts: texts,
        silkscreen_polygons: polygons,
        silkscreen_polylines: polylines,
        mechanical_polygons: mechanical,
        pads: sorted,
    }
}

/// Every silkscreen primitive lands in exactly one of the component's
/// lists: lines, arcs, circles, texts, polygons and polylines together hold
/// as many entries as there are primitives.
pub proof fn lemma_every_primitive_drawn_once(p: Seq<SilkscreenPrimitive>, layer: i32)
    ensures
        silk_lines(p, layer).len() + silk_arcs(p, layer).len() + silk_circles(p, layer).len() + silk_texts(p, layer).len()
            + silk_polygons(p, layer).len() + silk_polylines(p, layer).len() == p.len(),
    decreases p.len(),
{
    if p.len() > 0 {
        lemma_every_primitive_drawn_once(p.drop_last(), layer);
    }
}

/// The land pattern of a pool footprint or package: its pads, courtyard,
/// silkscreen and 3D models.
#[verifier::reject_recursive_types(M)]
pub struct LandPattern<M> {
    pub pads: Vec<PoolPad>,
    pub courtyard_vertices: Vec<Point>,
    pub courtyard_closed: bool,
    pub silkscreen: Vec<SilkscreenPrimitive>,
    pub models_3d: Vec<M>,
}

/// The land pattern a component is drawn from: its footprint's when it has
/// one, with the package's 3D models when the footprint has none; the
/// package's otherwise.
pub fn land_pattern_from_footprint_or_package<M>(footprint: Option<LandPattern<M>>, package: LandPattern<M>) -> (r:
    LandPattern<M>)
    ensures
        match footprint {
            Some(f) => {
                &&& r.pads == f.pads
                &&& r.courtyard_vertices == f.courtyard_vertices
                &&& r.courtyard_closed == f.courtyard_closed
                &&& r.silkscreen == f.silkscreen
                &&& r.models_3d@ == if f.models_3d@.len() == 0 {
                    package.models_3d@
                } else {
                    f.models_3d@
                }
            },
            None => r == package,
        },
{
    match footprint {
        Some(f) => {
            let models_3d = if f.models_3d.len() == 0 {
                package.models_3d
            } else {
                f.models_3d
            };
            LandPattern {
                pads: f.pads,
                courtyard_vertices: f.courtyard_vertices,
                courtyard_closed: f.courtyard_closed,
                silkscreen: f.silkscreen,
                models_3d,
            }
        },
        None => package,
    }
}

} // verus!
