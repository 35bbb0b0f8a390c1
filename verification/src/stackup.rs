//! Board stackup layers as Gerber export reads them: which layer a paste,
//! soldermask or silkscreen export is for, which copper layer its openings
//! come from, and how silkscreen outlines become strokes.
use vstd::prelude::*;
use crate::forward_annotation::copy_text;
use crate::geometry::Point;
use crate::gerber_entries::PadFlash;

verus! {

/// What a stackup layer is.
#[derive(Debug, Clone, Copy, PartialEq, Eq, Structural)]
pub enum StackupLayerType {
    Copper,
    Dielectric,
    SolderMask,
    Paste,
    Silkscreen,
    Mechanical,
}

/// A layer of the board stackup.
#[derive(Debug, Clone, Copy, PartialEq, Eq, Structural)]
pub struct StackupLayer {
    pub id: i32,
    pub layer_type: StackupLayerType,
}

/// The first layer of the stackup with the id `id`.
pub open spec fn layer_with_id(stackup: Seq<StackupLayer>, id: i32) -> Option<StackupLayer>
    decreases stackup.len(),
{
    if stackup.len() == 0 {
        None
    } else if stackup[0].id == id {
        Some(stackup[0])
    } else {
        layer_with_id(stackup.drop_first(), id)
    }
}

/// How far a layer id is from `layer`.
pub open spec fn layer_distance(id: i32, layer: i32) -> int {
    if id >= layer {
        id - layer
    } else {
        layer - id
    }
}

/// Whether copper layer `a` is nearer to `layer` than `b`, the smaller id
/// winning a tie.
pub open spec fn nearer(a: i32, b: i32, layer: i32) -> bool {
    layer_distance(a, layer) < layer_distance(b, layer) || (layer_distance(a, layer)
        == layer_distance(b, layer) && a < b)
}

/// The copper layer nearest to `layer` (by distance, then by id).
pub open spec fn nearest_copper(stackup: Seq<StackupLayer>, layer: i32) -> Option<i32>
    decreases stackup.len(),
{
    if stackup.len() == 0 {
        None
    } else {
        let rest = nearest_copper(stackup.drop_last(), layer);
        let l = stackup.last();
        if l.layer_type != StackupLayerType::Copper {
            rest
        } else {
            match rest {
                None => Some(l.id),
                Some(best) => if nearer(l.id, best, layer) {
                    Some(l.id)
                } else {
                    Some(best)
                },
            }
        }
    }
}

/// Why the layer of an export cannot be resolved.
#[derive(Debug, Clone, Copy, PartialEq, Eq, Structural)]
pub enum LayerContextError {
    /// No stackup layer has the id.
    LayerNotFound,
    /// The layer is not of the kind the export is for.
    WrongLayerType,
    /// The stackup has no copper layer.
    NoCopperLayer,
}

fn find_layer(stackup: &[StackupLayer], id: i32) -> (r: Option<StackupLayer>)
    ensures
        r == layer_with_id(stackup@, id),
{
    let mut k: usize = 0;
    assert(stackup@.skip(0) =~= stackup@);
    while k < stackup.len()
        invariant
            k <= stackup.len(),
            layer_with_id(stackup@, id) == layer_with_id(stackup@.skip(k as int), id),
        decreases stackup.len() - k,
    {
        proof {
            let u = stackup@.skip(k as int);
            assert(u[0] == stackup@[k as int]);
            assert(u.drop_first() =~= stackup@.skip(k + 1));
        }
        if stackup[k].id == id {
            return Some(stackup[k]);
        }
        k = k + 1;
    }
    assert(stackup@.skip(k as int) =~= Seq::<StackupLayer>::empty());
    None
}

fn distance(id: i32, layer: i32) -> (d: i64)
    ensures
        d == layer_distance(id, layer),
{
    if id >= layer {
        id as i64 - layer as i64
    } else {
        layer as i64 - id as i64
    }
}

/// The copper layer nearest to `layer`: the least distance, the smaller id
/// on a tie.
pub fn nearest_copper_layer(stackup: &[StackupLayer], layer: i32) -> (r: Option<i32>)
    ensures
        r == nearest_copper(stackup@, layer),
{
    let mut best: Option<i32> = None;
    let mut i: usize = 0;
    assert(stackup@.take(0) =~= Seq::<StackupLayer>::empty());
    while i < stackup.len()
        invariant
            i <= stackup.len(),
            best == nearest_copper(stackup@.take(i as int), layer),
        decreases stackup.len() - i,
    {
        let l = stackup[i];
        proof {
            let next = stackup@.take(i + 1);
            assert(next.drop_last() =~= stackup@.take(i as int));
            assert(next.last() == l);
        }
        if l.layer_type == StackupLayerType::Copper {
            best = match best {
                None => Some(l.id),
                Some(b) => {
                    let dl = distance(l.id, layer);
                    let db = distance(b, layer);
                    if dl < db || (dl == db && l.id < b) {
                        Some(l.id)
                    } else {
                        Some(b)
                    }
                },
            };
        }
        i = i + 1;
    }
    assert(stackup@.take(stackup.len() as int) =~= stackup@);
    best
}

/// The layer an export of kind `wanted` is for, and the copper layer its
/// openings come from.
pub open spec fn opening_context(stackup: Seq<StackupLayer>, layer: i32, wanted: StackupLayerType) -> Result<
    (StackupLayer, i32),
    LayerContextError,
> {
    match layer_with_id(stackup, layer) {
        None => Err(LayerContextError::LayerNotFound),
        Some(l) => if l.layer_type != wanted {
            Err(LayerContextError::WrongLayerType)
        } else {
            match nearest_copper(stackup, layer) {
                None => Err(LayerContextError::NoCopperLayer),
                Some(c) => Ok((l, c)),
            }
        },
    }
}

/// A pad emitted on a copper layer.
#[derive(Debug, Clone, Copy, PartialEq, Eq, Structural)]
pub struct LayeredPad {
    pub layer: i32,
    pub pad: PadFlash,
}

/// The pads on the layer `layer`, in order.
pub open spec fn pads_on(pads: Seq<LayeredPad>, layer: i32) -> Seq<LayeredPad>
    decreases pads.len(),
{
    if pads.len() == 0 {
        Seq::empty()
    } else {
        let rest = pads_on(pads.drop_last(), layer);
        if pads.last().layer == layer {
            rest.push(pads.last())
        } else {
            rest
        }
    }
}

fn filter_pads(pads: &[LayeredPad], layer: i32) -> (r: Vec<LayeredPad>)
    ensures
        r@ == pads_on(pads@, layer),
{
    let mut out: Vec<LayeredPad> = Vec::new();
    let mut i: usize = 0;
    assert(pads@.take(0) =~= Seq::<LayeredPad>::empty());
    while i < pads.len()
        invariant
            i <= pads.len(),
            out@ == pads_on(pads@.take(i as int), layer),
        decreases pads.len() - i,
    {
        proof {
            let next = pads@.take(i + 1);
            assert(next.drop_last() =~= pads@.take(i as int));
            assert(next.last() == pads@[i as int]);
        }
        if pads[i].layer == layer {
            out.push(pads[i]);
        }
        i = i + 1;
    }
    assert(pads@.take(pads.len() as int) =~= pads@);
    out
}

/// The layer of an opening export and its openings.
pub struct OpeningContext {
    pub layer: StackupLayer,
    pub copper_layer: i32,
    pub pads: Vec<LayeredPad>,
}

fn opening_layers(stackup: &[StackupLayer], layer: i32, wanted: StackupLayerType, pads: &[LayeredPad]) -> (r:
    Result<OpeningContext, LayerContextError>)
    ensures
        match opening_context(stackup@, layer, wanted) {
            Err(e) => r == Err::<OpeningContext, LayerContextError>(e),
            Ok((l, c)) => r is Ok && r.unwrap().layer == l && r.unwrap().copper_layer == c
                && r.unwrap().pads@ == pads_on(pads@, c),
        },
{
    let l = match find_layer(stackup, layer) {
        None => { return Err(LayerContextError::LayerNotFound); },
        Some(l) => l,
    };
    if l.layer_type != wanted {
        return Err(LayerContextError::WrongLayerType);
    }
    let c = match nearest_copper_layer(stackup, layer) {
        None => { return Err(LayerContextError::NoCopperLayer); },
        Some(c) => c,
    };
    Ok(OpeningContext { layer: l, copper_layer: c, pads: filter_pads(pads, c) })
}

/// The paste layer `layer`, the copper layer nearest to it and the pads
/// emitted on that copper layer.
pub fn resolve_native_project_paste_context(stackup: &[StackupLayer], layer: i32, pads: &[LayeredPad]) -> (r:
    Result<OpeningContext, LayerContextError>)
    ensures
        match opening_context(stackup@, layer, StackupLayerType::Paste) {
            Err(e) => r == Err::<OpeningContext, LayerContextError>(e),
            Ok((l, c)) => r is Ok && r.unwrap().layer == l && r.unwrap().copper_layer == c
                && r.unwrap().pads@ == pads_on(pads@, c),
        },
{
    opening_layers(stackup, layer, StackupLayerType::Paste, pads)
}

/// The soldermask layer `layer`, the copper layer nearest to it and the
/// pads emitted on that copper layer.
pub fn resolve_native_project_soldermask_context(stackup: &[StackupLayer], layer: i32, pads: &[LayeredPad]) -> (r:
    Result<OpeningContext, LayerContextError>)
    ensures
        match opening_context(stackup@, layer, StackupLayerType::SolderMask) {
            Err(e) => r == Err::<OpeningContext, LayerContextError>(e),
            Ok((l, c)) => r is Ok && r.unwrap().layer == l && r.unwrap().copper_layer == c
                && r.unwrap().pads@ == pads_on(pads@, c),
        },
{
    opening_layers(stackup, layer, StackupLayerType::SolderMask, pads)
}

/// The silkscreen layer `layer`.
pub fn resolve_silkscreen_layer(stackup: &[StackupLayer], layer: i32) -> (r: Result<StackupLayer, LayerContextError>)
    ensures
        r == match layer_with_id(stackup@, layer) {
            None => Err::<StackupLayer, LayerContextError>(LayerContextError::LayerNotFound),
            Some(l) => if l.layer_type != StackupLayerType::Silkscreen {
                Err(LayerContextError::WrongLayerType)
            } else {
                Ok(l)
            },
        },
{
    match find_layer(stackup, layer) {
        None => Err(LayerContextError::LayerNotFound),
        Some(l) => if l.layer_type != StackupLayerType::Silkscreen {
            Err(LayerContextError::WrongLayerType)
        } else {
            Ok(l)
        },
    }
}

/// A text drawn on a silkscreen layer, placed on the board.
#[derive(Debug, PartialEq, Eq)]
pub struct SilkscreenText {
    pub text: String,
    pub position: Point,
    pub rotation: i32,
    pub height_nm: i64,
    pub stroke_width_nm: i64,
    pub layer: i32,
}

/// A silkscreen text as plain values.
pub type SilkscreenTextView = (Seq<char>, Point, i32, i64, i64, i32);

pub open spec fn silkscreen_text_view(t: SilkscreenText) -> SilkscreenTextView {
    (t.text@, t.position, t.rotation, t.height_nm, t.stroke_width_nm, t.layer)
}

/// The texts on the layer `layer`, in order, as plain values.
pub open spec fn texts_on(texts: Seq<SilkscreenText>, layer: i32) -> Seq<SilkscreenTextView>
    decreases texts.len(),
{
    if texts.len() == 0 {
        Seq::empty()
    } else {
        let rest = texts_on(texts.drop_last(), layer);
        if texts.last().layer == layer {
            rest.push(silkscreen_text_view(texts.last()))
        } else {
            rest
        }
    }
}

fn push_texts_on(out: &mut Vec<SilkscreenText>, texts: &[SilkscreenText], layer: i32)
    ensures
        final(out)@.len() == old(out)@.len() + texts_on(texts@, layer).len(),
        forall|k: int|
            0 <= k < old(out)@.len() ==> silkscreen_text_view(#[trigger] final(out)@[k]) == silkscreen_text_view(
                old(out)@[k],
            ),
        forall|k: int|
            0 <= k < texts_on(texts@, layer).len() ==> silkscreen_text_view(
                #[trigger] final(out)@[old(out)@.len() + k],
            ) == texts_on(texts@, layer)[k],
{
    let ghost start = out@;
    let mut i: usize = 0;
    assert(texts@.take(0) =~= Seq::<SilkscreenText>::empty());
    while i < texts.len()
        invariant
            i <= texts.len(),
            out@.len() == start.len() + texts_on(texts@.take(i as int), layer).len(),
            forall|k: int|
                0 <= k < start.len() ==> silkscreen_text_view(#[trigger] out@[k]) == silkscreen_text_view(start[k]),
            forall|k: int|
                0 <= k < texts_on(texts@.take(i as int), layer).len() ==> silkscreen_text_view(
                    #[trigger] out@[start.len() + k],
                ) == texts_on(texts@.take(i as int), layer)[k],
        decreases texts.len() - i,
    {
        proof {
            let next = texts@.take(i + 1);
            assert(next.drop_last() =~= texts@.take(i as int));
            assert(next.last() == texts@[i as int]);
        }
        let t = &texts[i];
        if t.layer == layer {
            let copy = SilkscreenText {
                text: copy_text(&t.text),
                position: t.position,
                rotation: t.rotation,
                height_nm: t.height_nm,
                stroke_width_nm: t.stroke_width_nm,
                layer: t.layer,
            };
            out.push(copy);
        }
        i = i + 1;
    }
    assert(texts@.take(texts.len() as int) =~= texts@);
}

/// The texts of a silkscreen layer: the board's own texts on the layer,
/// then the components' texts on the layer, each in order.
pub fn silkscreen_texts_on_layer(
    board_texts: &[SilkscreenText],
    component_texts: &[SilkscreenText],
    layer: i32,
) -> (r: Vec<SilkscreenText>)
    ensures
        Seq::new(r@.len(), |k: int| silkscreen_text_view(r@[k])) == texts_on(board_texts@, layer) + texts_on(
            component_texts@,
            layer,
        ),
{
    let mut out: Vec<SilkscreenText> = Vec::new();
    push_texts_on(&mut out, board_texts, layer);
    let ghost mid = out@;
    let ghost first = texts_on(board_texts@, layer);
    let ghost second = texts_on(component_texts@, layer);
    assert forall|k: int| 0 <= k < first.len() implies silkscreen_text_view(#[trigger] mid[k]) == first[k] by {
        assert(mid[0 + k] == mid[k]);
    }
    push_texts_on(&mut out, component_texts, layer);
    assert forall|k: int| 0 <= k < out@.len() implies silkscreen_text_view(#[trigger] out@[k]) == (first
        + second)[k] by {
        if k < first.len() {
            assert(silkscreen_text_view(out@[k]) == silkscreen_text_view(mid[k]));
        } else {
            let j = k - first.len();
            assert(silkscreen_text_view(out@[mid.len() + j]) == second[j]);
        }
    }
    assert(Seq::new(out@.len(), |k: int| silkscreen_text_view(out@[k])) =~= texts_on(board_texts@, layer)
        + texts_on(component_texts@, layer));
    out
}

/// A silkscreen stroke between two board points.
#[derive(Debug, Clone, Copy, PartialEq, Eq, Structural)]
pub struct SilkscreenStroke {
    pub from: Point,
    pub to: Point,
    pub width_nm: i64,
}

/// A stroke for each pair of neighbouring points, in order; none for fewer
/// than two points.
pub open spec fn path_strokes(points: Seq<Point>, width: i64) -> Seq<SilkscreenStroke> {
    if points.len() < 2 {
        Seq::empty()
    } else {
        Seq::new(
            (points.len() - 1) as nat,
            |i: int| SilkscreenStroke { from: points[i], to: points[i + 1], width_nm: width },
        )
    }
}

/// The strokes of an open outline through `points`.
pub fn polyline_strokes(points: &[Point], width_nm: i64) -> (r: Vec<SilkscreenStroke>)
    ensures
        r@ == path_strokes(points@, width_nm),
{
    let mut out: Vec<SilkscreenStroke> = Vec::new();
    if points.len() < 2 {
        return out;
    }
    let mut i: usize = 0;
    while i + 1 < points.len()
        invariant
            points@.len() >= 2,
            i + 1 <= points@.len(),
            out@.len() == i,
            forall|k: int|
                0 <= k < i ==> #[trigger] out@[k] == (SilkscreenStroke {
                    from: points@[k],
                    to: points@[k + 1],
                    width_nm,
                }),
        decreases points.len() - i,
    {
        out.push(SilkscreenStroke { from: points[i], to: points[i + 1], width_nm });
        i = i + 1;
    }
    assert(out@ =~= path_strokes(points@, width_nm));
    out
}

/// The strokes of a closed outline through `points`: the first point is
/// visited again at the end; none for fewer than two points.
pub fn polygon_strokes(points: &[Point], width_nm: i64) -> (r: Vec<SilkscreenStroke>)
    ensures
        r@ == if points@.len() < 2 {
            Seq::<SilkscreenStroke>::empty()
        } else {
            path_strokes(points@.push(points@[0]), width_nm)
        },
{
    if points.len() < 2 {
        return Vec::new();
    }
    let mut closed: Vec<Point> = Vec::new();
    let mut i: usize = 0;
    while i < points.len()
        invariant
            i <= points.len(),
            closed@ == points@.take(i as int),
        decreases points.len() - i,
    {
        closed.push(points[i]);
        proof {
            assert(closed@ =~= points@.take(i + 1));
        }
        i = i + 1;
    }
    closed.push(points[0]);
    assert(closed@ =~= points@.push(points@[0]));
    polyline_strokes(closed.as_slice(), width_nm)
}

/// The sweep of an arc in tenths of a degree: the way from the start to the
/// end angle, a full turn when it would not be positive.
pub open spec fn arc_sweep(start: i32, end: i32) -> int {
    if end - start <= 0 {
        end - start + 3600
    } else {
        end - start
    }
}

/// The number of segments of an arc: at most 15 degrees each, at least one.
pub open spec fn arc_segments(sweep: int) -> int {
    if sweep < 1 {
        1
    } else {
        (sweep + 149) / 150
    }
}

/// The angles, in tenths of a degree, at which an arc is cut into segments:
/// the start, evenly spaced points (rounded down) and the end.
pub open spec fn arc_angles(start: i32, end: i32) -> Seq<int> {
    let sweep = arc_sweep(start, end);
    let n = arc_segments(sweep);
    Seq::new((n + 1) as nat, |i: int| start + sweep * i / n)
}

/// The angles at which an arc is cut into segments of at most 15 degrees.
/// The sweep and the angles, as the cut computes them, fit in an `i32`.
pub fn arc_segment_angles(start_angle: i32, end_angle: i32) -> (r: Vec<i32>)
    requires
        i32::MIN <= end_angle - start_angle <= i32::MAX,
        arc_sweep(start_angle, end_angle) + 149 <= i32::MAX,
        arc_sweep(start_angle, end_angle) * arc_segments(arc_sweep(start_angle, end_angle)) <= i32::MAX,
        i32::MIN <= start_angle + arc_sweep(start_angle, end_angle) <= i32::MAX,
    ensures
        r@.len() == arc_angles(start_angle, end_angle).len(),
        forall|i: int| 0 <= i < r@.len() ==> r@[i] as int == #[trigger] arc_angles(start_angle, end_angle)[i],
{
    let mut sweep: i32 = end_angle - start_angle;
    if sweep <= 0 {
        sweep = sweep + 3600;
    }
    let ghost s = arc_sweep(start_angle, end_angle);
    assert(sweep == s);
    let n: i32 = if sweep < 1 {
        1
    } else {
        (sweep + 149) / 150
    };
    assert(n == arc_segments(s));
    assert(n >= 1);
    let ghost angles = arc_angles(start_angle, end_angle);
    assert(angles.len() == n + 1);
    let mut out: Vec<i32> = Vec::new();
    let mut i: i32 = 0;
    while i <= n
        invariant
            1 <= n,
            0 <= i <= n + 1,
            sweep == s,
            s == arc_sweep(start_angle, end_angle),
            n == arc_segments(s),
            s < 1 ==> n == 1,
            s * n <= i32::MAX,
            i32::MIN <= start_angle + s <= i32::MAX,
            angles == arc_angles(start_angle, end_angle),
            angles.len() == n + 1,
            out@.len() == i,
            forall|k: int| 0 <= k < i ==> out@[k] as int == #[trigger] angles[k],
        decreases n + 1 - i,
    {
        assert(angles[i as int] == start_angle + s * i / (n as int));
        if sweep < 1 {
            assert(i == 0 || i == 1);
            let step: i32 = if i == 0 { 0 } else { sweep };
            assert(s * i / (n as int) == step) by (nonlinear_arith)
                requires
                    n == 1,
                    i == 0 || i == 1,
                    step == if i == 0 { 0 } else { s },
            ;
            out.push(start_angle + step);
        } else {
            assert(sweep * i <= sweep * n) by (nonlinear_arith)
                requires
                    0 <= i <= n,
                    sweep >= 0,
            ;
            assert(0 <= sweep * i) by (nonlinear_arith)
                requires
                    0 <= i,
                    sweep >= 0,
            ;
            let p: i32 = sweep * i;
            let step: i32 = p / n;
            assert(step <= sweep) by (nonlinear_arith)
                requires
                    p <= sweep * n,
                    n >= 1,
                    p >= 0,
                    step == p / n,
            ;
            out.push(start_angle + step);
        }
        i = i + 1;
    }
    out
}

/// The angles at which a circle is cut: every 15 degrees from 0 to a full
/// turn.
pub fn circle_segment_angles() -> (r: Vec<i32>)
    ensures
        r@.len() == 25,
        forall|i: int| 0 <= i < 25 ==> #[trigger] r@[i] == i * 150,
{
    let mut out: Vec<i32> = Vec::new();
    let mut i: i32 = 0;
    while i <= 24
        invariant
            0 <= i <= 25,
            out@.len() == i,
            forall|k: int| 0 <= k < i ==> #[trigger] out@[k] == k * 150,
        decreases 25 - i,
    {
        out.push(i * 150);
        i = i + 1;
    }
    out
}

} // verus!
