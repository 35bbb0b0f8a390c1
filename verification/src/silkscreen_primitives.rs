//! The silkscreen and courtyard geometry that a pool package or footprint
//! edit adds: vertex lists read from text, and primitives checked before
//! they are written.
use vstd::prelude::*;
use crate::geometry::Point;
use crate::gerber::find_char;
use crate::text::{
    chars_of, copy_range, first_index_of, i64_text, parse_i64, split_chars, split_on, trim,
    trim_chars,
};

verus! {

/// Why a vertex list is refused; `index` counts the `;`-separated pieces
/// from 0.
#[derive(Debug, Clone, Copy, PartialEq, Eq, Structural)]
pub enum VertexError {
    /// The list is empty.
    Empty,
    /// A vertex has no `,` between its coordinates.
    MissingComma { index: usize },
    /// A vertex has more than two coordinates.
    TooManyCoordinates { index: usize },
    /// A vertex's x coordinate is not an integer.
    InvalidX { index: usize },
    /// A vertex's y coordinate is not an integer.
    InvalidY { index: usize },
}

/// A coordinate, trimmed, read as an `i64`.
pub open spec fn coord_of(s: Seq<char>) -> Option<i64> {
    i64_text(trim(s))
}

fn parse_coord(s: &[char]) -> (r: Option<i64>)
    ensures
        r == coord_of(s@),
{
    let t = trim_chars(s);
    parse_i64(t.as_slice())
}

/// A footprint vertex `x,y` (already trimmed), split at the first `,`.
pub open spec fn footprint_vertex(v: Seq<char>, index: usize) -> Result<Point, VertexError> {
    match first_index_of(v, ',') {
        None => Err(VertexError::MissingComma { index }),
        Some(k) => match coord_of(v.take(k as int)) {
            None => Err(VertexError::InvalidX { index }),
            Some(x) => match coord_of(v.skip(k as int + 1)) {
                None => Err(VertexError::InvalidY { index }),
                Some(y) => Ok(Point { x, y }),
            },
        },
    }
}

/// The footprint vertices of the pieces, in order, blank pieces skipped.
pub open spec fn footprint_vertices(pieces: Seq<Seq<char>>) -> Result<Seq<Point>, VertexError>
    decreases pieces.len(),
{
    if pieces.len() == 0 {
        Ok(Seq::empty())
    } else {
        match footprint_vertices(pieces.drop_last()) {
            Err(e) => Err(e),
            Ok(prev) => {
                let t = trim(pieces.last());
                if t.len() == 0 {
                    Ok(prev)
                } else {
                    match footprint_vertex(t, (pieces.len() - 1) as usize) {
                        Err(e) => Err(e),
                        Ok(p) => Ok(prev.push(p)),
                    }
                }
            },
        }
    }
}

proof fn lemma_footprint_vertices_error_persists(pieces: Seq<Seq<char>>, i: int)
    requires
        0 <= i <= pieces.len(),
        footprint_vertices(pieces.take(i)) is Err,
    ensures
        footprint_vertices(pieces) == footprint_vertices(pieces.take(i)),
    decreases pieces.len() - i,
{
    if i < pieces.len() {
        assert(pieces.take(i + 1).drop_last() =~= pieces.take(i));
        lemma_footprint_vertices_error_persists(pieces, i + 1);
    } else {
        assert(pieces.take(i) =~= pieces);
    }
}

/// The vertices of a footprint outline `x,y;x,y;…`: blank pieces are
/// skipped, each other is split at its first `,` and both coordinates are
/// read as integers.
pub fn parse_vertices(vertices: &str) -> (r: Result<Vec<Point>, VertexError>)
    ensures
        match footprint_vertices(split_on(vertices@, ';')) {
            Ok(ps) => r is Ok && r.unwrap()@ == ps,
            Err(e) => r == Err::<Vec<Point>, VertexError>(e),
        },
{
    let pieces = split_chars(chars_of(vertices).as_slice(), ';');
    let ghost ps = split_on(vertices@, ';');
    let mut out: Vec<Point> = Vec::new();
    let mut i: usize = 0;
    assert(ps.take(0) =~= Seq::<Seq<char>>::empty());
    while i < pieces.len()
        invariant
            i <= pieces.len(),
            ps == split_on(vertices@, ';'),
            pieces@.len() == ps.len(),
            forall|k: int| 0 <= k < pieces@.len() ==> #[trigger] pieces@[k]@ == ps[k],
            footprint_vertices(ps.take(i as int)) == Ok::<Seq<Point>, VertexError>(out@),
        decreases pieces.len() - i,
    {
        proof {
            let next = ps.take(i + 1);
            assert(next.drop_last() =~= ps.take(i as int));
            assert(next.last() == pieces@[i as int]@);
            assert(next.len() - 1 == i);
        }
        let t = trim_chars(pieces[i].as_slice());
        if t.len() > 0 {
            let k = match find_char(t.as_slice(), ',') {
                None => {
                    proof {
                        lemma_footprint_vertices_error_persists(ps, i + 1);
                    }
                    return Err(VertexError::MissingComma { index: i });
                },
                Some(k) => k,
            };
            proof {
                crate::text::lemma_first_index_bound(t@, ',');
                assert(first_index_of(t@, ',') == Some(k as nat));
                assert(k < t.len());
            }
            let xs = copy_range(t.as_slice(), 0, k);
            let ys = copy_range(t.as_slice(), k + 1, t.len());
            proof {
                assert(xs@ =~= t@.take(k as int));
                assert(ys@ =~= t@.skip(k + 1));
            }
            let x = match parse_coord(xs.as_slice()) {
                None => {
                    proof {
                        lemma_footprint_vertices_error_persists(ps, i + 1);
                    }
                    return Err(VertexError::InvalidX { index: i });
                },
                Some(x) => x,
            };
            let y = match parse_coord(ys.as_slice()) {
                None => {
                    proof {
                        lemma_footprint_vertices_error_persists(ps, i + 1);
                    }
                    return Err(VertexError::InvalidY { index: i });
                },
                Some(y) => y,
            };
            out.push(Point { x, y });
        }
        i = i + 1;
    }
    assert(ps.take(pieces.len() as int) =~= ps);
    Ok(out)
}

/// A package vertex `x,y`: the x coordinate, then the y coordinate, and no
/// third.
pub open spec fn package_vertex(pair: Seq<char>, index: usize) -> Result<Point, VertexError> {
    let f = split_on(pair, ',');
    match coord_of(f[0]) {
        None => Err(VertexError::InvalidX { index }),
        Some(x) => if f.len() < 2 {
            Err(VertexError::MissingComma { index })
        } else {
            match coord_of(f[1]) {
                None => Err(VertexError::InvalidY { index }),
                Some(y) => if f.len() > 2 {
                    Err(VertexError::TooManyCoordinates { index })
                } else {
                    Ok(Point { x, y })
                },
            }
        },
    }
}

/// The package vertices of the pieces, in order; every piece must read.
pub open spec fn package_vertices_of(pieces: Seq<Seq<char>>) -> Result<Seq<Point>, VertexError>
    decreases pieces.len(),
{
    if pieces.len() == 0 {
        Ok(Seq::empty())
    } else {
        match package_vertices_of(pieces.drop_last()) {
            Err(e) => Err(e),
            Ok(prev) => match package_vertex(pieces.last(), (pieces.len() - 1) as usize) {
                Err(e) => Err(e),
                Ok(p) => Ok(prev.push(p)),
            },
        }
    }
}

/// The vertices of a package outline: the trimmed text must not be empty,
/// and each of its `;`-separated pieces must be a vertex.
pub open spec fn package_vertex_list(s: Seq<char>) -> Result<Seq<Point>, VertexError> {
    if trim(s).len() == 0 {
        Err(VertexError::Empty)
    } else {
        package_vertices_of(split_on(trim(s), ';'))
    }
}

proof fn lemma_package_vertices_error_persists(pieces: Seq<Seq<char>>, i: int)
    requires
        0 <= i <= pieces.len(),
        package_vertices_of(pieces.take(i)) is Err,
    ensures
        package_vertices_of(pieces) == package_vertices_of(pieces.take(i)),
    decreases pieces.len() - i,
{
    if i < pieces.len() {
        assert(pieces.take(i + 1).drop_last() =~= pieces.take(i));
        lemma_package_vertices_error_persists(pieces, i + 1);
    } else {
        assert(pieces.take(i) =~= pieces);
    }
}

fn package_vertex_exec(pair: &Vec<char>, index: usize) -> (r: Result<Point, VertexError>)
    ensures
        r == package_vertex(pair@, index),
{
    let f = split_chars(pair.as_slice(), ',');
    let x = match parse_coord(f[0].as_slice()) {
        None => {
            return Err(VertexError::InvalidX { index });
        },
        Some(x) => x,
    };
    if f.len() < 2 {
        return Err(VertexError::MissingComma { index });
    }
    let y = match parse_coord(f[1].as_slice()) {
        None => {
            return Err(VertexError::InvalidY { index });
        },
        Some(y) => y,
    };
    if f.len() > 2 {
        return Err(VertexError::TooManyCoordinates { index });
    }
    Ok(Point { x, y })
}

/// The vertices of a package outline `x,y;x,y;…`: the text must not be
/// blank, and every `;`-separated piece must be exactly two integers.
pub fn parse_package_vertices(vertices: &str) -> (r: Result<Vec<Point>, VertexError>)
    ensures
        match package_vertex_list(vertices@) {
            Ok(ps) => r is Ok && r.unwrap()@ == ps,
            Err(e) => r == Err::<Vec<Point>, VertexError>(e),
        },
{
    let t = trim_chars(chars_of(vertices).as_slice());
    if t.len() == 0 {
        return Err(VertexError::Empty);
    }
    let pieces = split_chars(t.as_slice(), ';');
    let ghost ps = split_on(trim(vertices@), ';');
    let mut out: Vec<Point> = Vec::new();
    let mut i: usize = 0;
    assert(ps.take(0) =~= Seq::<Seq<char>>::empty());
    while i < pieces.len()
        invariant
            i <= pieces.len(),
            ps == split_on(trim(vertices@), ';'),
            trim(vertices@).len() > 0,
            pieces@.len() == ps.len(),
            forall|k: int| 0 <= k < pieces@.len() ==> #[trigger] pieces@[k]@ == ps[k],
            package_vertices_of(ps.take(i as int)) == Ok::<Seq<Point>, VertexError>(out@),
        decreases pieces.len() - i,
    {
        proof {
            let next = ps.take(i + 1);
            assert(next.drop_last() =~= ps.take(i as int));
            assert(next.last() == pieces@[i as int]@);
            assert(next.len() - 1 == i);
        }
        match package_vertex_exec(&pieces[i], i) {
            Err(e) => {
                proof {
                    lemma_package_vertices_error_persists(ps, i + 1);
                }
                return Err(e);
            },
            Ok(p) => {
                out.push(p);
            },
        }
        i = i + 1;
    }
    assert(ps.take(pieces.len() as int) =~= ps);
    Ok(out)
}

/// A silkscreen primitive of a footprint.
#[derive(Debug, Clone, PartialEq, Eq)]
pub enum SilkscreenPrimitive {
    Line { from: Point, to: Point, width: i64 },
    Rect { min: Point, max: Point, width: i64 },
    Circle { center: Point, radius: i64, width: i64 },
    Arc { center: Point, radius: i64, start_angle: i32, end_angle: i32, width: i64 },
    Polygon { vertices: Vec<Point>, closed: bool, width: i64 },
    Text { text: String, position: Point, rotation: i32 },
}

/// Why a primitive or courtyard is refused.
#[derive(Debug, Clone, Copy, PartialEq, Eq, Structural)]
pub enum PrimitiveError {
    /// The vertex list does not read.
    Vertices(VertexError),
    /// A line's endpoints coincide.
    SameEndpoints,
    /// The minimum x is not below the maximum x.
    MinXNotBelowMaxX,
    /// The minimum y is not below the maximum y.
    MinYNotBelowMaxY,
    /// The stroke width is not positive.
    NonPositiveWidth,
    /// The radius is not positive.
    NonPositiveRadius,
    /// A closed outline has fewer than 3 vertices, an open one fewer than 2.
    TooFewVertices,
    /// The text is empty once trimmed.
    EmptyText,
}

/// A silkscreen line: its endpoints must differ and its width be positive.
pub fn footprint_silkscreen_line_primitive(
    from_x_nm: i64,
    from_y_nm: i64,
    to_x_nm: i64,
    to_y_nm: i64,
    width_nm: i64,
) -> (r: Result<SilkscreenPrimitive, PrimitiveError>)
    ensures
        r == if from_x_nm == to_x_nm && from_y_nm == to_y_nm {
            Err::<SilkscreenPrimitive, PrimitiveError>(PrimitiveError::SameEndpoints)
        } else if width_nm <= 0 {
            Err(PrimitiveError::NonPositiveWidth)
        } else {
            Ok(
                SilkscreenPrimitive::Line {
                    from: Point { x: from_x_nm, y: from_y_nm },
                    to: Point { x: to_x_nm, y: to_y_nm },
                    width: width_nm,
                },
            )
        },
{
    if from_x_nm == to_x_nm && from_y_nm == to_y_nm {
        return Err(PrimitiveError::SameEndpoints);
    }
    if width_nm <= 0 {
        return Err(PrimitiveError::NonPositiveWidth);
    }
    Ok(
        SilkscreenPrimitive::Line {
            from: Point { x: from_x_nm, y: from_y_nm },
            to: Point { x: to_x_nm, y: to_y_nm },
            width: width_nm,
        },
    )
}

/// A silkscreen rectangle: its minimum corner must be below and left of
/// its maximum corner and its width positive.
pub fn footprint_silkscreen_rect_primitive(
    min_x_nm: i64,
    min_y_nm: i64,
    max_x_nm: i64,
    max_y_nm: i64,
    width_nm: i64,
) -> (r: Result<SilkscreenPrimitive, PrimitiveError>)
    ensures
        r == if min_x_nm >= max_x_nm {
            Err::<SilkscreenPrimitive, PrimitiveError>(PrimitiveError::MinXNotBelowMaxX)
        } else if min_y_nm >= max_y_nm {
            Err(PrimitiveError::MinYNotBelowMaxY)
        } else if width_nm <= 0 {
            Err(PrimitiveError::NonPositiveWidth)
        } else {
            Ok(
                SilkscreenPrimitive::Rect {
                    min: Point { x: min_x_nm, y: min_y_nm },
                    max: Point { x: max_x_nm, y: max_y_nm },
                    width: width_nm,
                },
            )
        },
{
    if min_x_nm >= max_x_nm {
        return Err(PrimitiveError::MinXNotBelowMaxX);
    }
    if min_y_nm >= max_y_nm {
        return Err(PrimitiveError::MinYNotBelowMaxY);
    }
    if width_nm <= 0 {
        return Err(PrimitiveError::NonPositiveWidth);
    }
    Ok(
        SilkscreenPrimitive::Rect {
            min: Point { x: min_x_nm, y: min_y_nm },
            max: Point { x: max_x_nm, y: max_y_nm },
            width: width_nm,
        },
    )
}

/// A silkscreen circle: its radius and width must be positive.
pub fn footprint_silkscreen_circle_primitive(center_x_nm: i64, center_y_nm: i64, radius_nm: i64, width_nm: i64) -> (r:
    Result<SilkscreenPrimitive, PrimitiveError>)
    ensures
        r == if radius_nm <= 0 {
            Err::<SilkscreenPrimitive, PrimitiveError>(PrimitiveError::NonPositiveRadius)
        } else if width_nm <= 0 {
            Err(PrimitiveError::NonPositiveWidth)
        } else {
            Ok(
                SilkscreenPrimitive::Circle {
                    center: Point { x: center_x_nm, y: center_y_nm },
                    radius: radius_nm,
                    width: width_nm,
                },
            )
        },
{
    if radius_nm <= 0 {
        return Err(PrimitiveError::NonPositiveRadius);
    }
    if width_nm <= 0 {
        return Err(PrimitiveError::NonPositiveWidth);
    }
    Ok(
        SilkscreenPrimitive::Circle {
            center: Point { x: center_x_nm, y: center_y_nm },
            radius: radius_nm,
            width: width_nm,
        },
    )
}

/// A silkscreen arc of a package: its radius and width must be positive.
pub fn package_silkscreen_arc_primitive(
    center_x_nm: i64,
    center_y_nm: i64,
    radius_nm: i64,
    start_angle: i32,
    end_angle: i32,
    width_nm: i64,
) -> (r: Result<SilkscreenPrimitive, PrimitiveError>)
    ensures
        r == if radius_nm <= 0 {
            Err::<SilkscreenPrimitive, PrimitiveError>(PrimitiveError::NonPositiveRadius)
        } else if width_nm <= 0 {
            Err(PrimitiveError::NonPositiveWidth)
        } else {
            Ok(
                SilkscreenPrimitive::Arc {
                    center: Point { x: center_x_nm, y: center_y_nm },
                    radius: radius_nm,
                    start_angle,
                    end_angle,
                    width: width_nm,
                },
            )
        },
{
    if radius_nm <= 0 {
        return Err(PrimitiveError::NonPositiveRadius);
    }
    if width_nm <= 0 {
        return Err(PrimitiveError::NonPositiveWidth);
    }
    Ok(
        SilkscreenPrimitive::Arc {
            center: Point { x: center_x_nm, y: center_y_nm },
            radius: radius_nm,
            start_angle,
            end_angle,
            width: width_nm,
        },
    )
}

/// A silkscreen text of a package, trimmed: it must not be empty.
pub fn package_silkscreen_text_primitive(text: &str, x_nm: i64, y_nm: i64, rotation: i32) -> (r: Result<
    SilkscreenPrimitive,
    PrimitiveError,
>)
    ensures
        trim(text@).len() == 0 ==> r == Err::<SilkscreenPrimitive, PrimitiveError>(PrimitiveError::EmptyText),
        trim(text@).len() > 0 ==> (r matches Ok(SilkscreenPrimitive::Text { text: rt, position: p, rotation: rr })
            && rt@ == trim(text@) && p == (Point { x: x_nm, y: y_nm }) && rr == rotation),
{
    let t = trim_chars(chars_of(text).as_slice());
    if t.len() == 0 {
        return Err(PrimitiveError::EmptyText);
    }
    Ok(
        SilkscreenPrimitive::Text {
            text: crate::text::string_from_chars(t.as_slice()),
            position: Point { x: x_nm, y: y_nm },
            rotation,
        },
    )
}

/// What is wrong with a silkscreen outline of `n` vertices, if anything:
/// closed it needs 3 vertices, open 2, and its width must be positive.
pub open spec fn outline_problem(n: nat, closed: bool, width_nm: i64) -> Option<PrimitiveError> {
    if closed && n < 3 {
        Some(PrimitiveError::TooFewVertices)
    } else if !closed && n < 2 {
        Some(PrimitiveError::TooFewVertices)
    } else if width_nm <= 0 {
        Some(PrimitiveError::NonPositiveWidth)
    } else {
        None
    }
}

/// `r` is the outline through `vs` as the edit gives it: the problem with
/// it, or the polygon primitive.
pub open spec fn outline_result(r: Result<SilkscreenPrimitive, PrimitiveError>, vs: Seq<Point>, closed: bool, width_nm: i64) -> bool {
    match outline_problem(vs.len(), closed, width_nm) {
        Some(e) => r == Err::<SilkscreenPrimitive, PrimitiveError>(e),
        None => r matches Ok(SilkscreenPrimitive::Polygon { vertices: rv, closed: rc, width: rw }) && rv@ == vs
            && rc == closed && rw == width_nm,
    }
}

fn outline(vertices: Vec<Point>, closed: bool, width_nm: i64) -> (r: Result<SilkscreenPrimitive, PrimitiveError>)
    ensures
        outline_result(r, vertices@, closed, width_nm),
{
    if closed && vertices.len() < 3 {
        return Err(PrimitiveError::TooFewVertices);
    }
    if !closed && vertices.len() < 2 {
        return Err(PrimitiveError::TooFewVertices);
    }
    if width_nm <= 0 {
        return Err(PrimitiveError::NonPositiveWidth);
    }
    Ok(SilkscreenPrimitive::Polygon { vertices, closed, width: width_nm })
}

/// A silkscreen outline of a footprint from its vertex text (see
/// `parse_vertices`).
pub fn footprint_silkscreen_polygon_primitive(vertices: &str, closed: bool, width_nm: i64) -> (r: Result<
    SilkscreenPrimitive,
    PrimitiveError,
>)
    ensures
        match footprint_vertices(split_on(vertices@, ';')) {
            Err(e) => r == Err::<SilkscreenPrimitive, PrimitiveError>(PrimitiveError::Vertices(e)),
            Ok(ps) => outline_result(r, ps, closed, width_nm),
        },
{
    match parse_vertices(vertices) {
        Err(e) => Err(PrimitiveError::Vertices(e)),
        Ok(vs) => outline(vs, closed, width_nm),
    }
}

/// A silkscreen outline of a package from its vertex text (see
/// `parse_package_vertices`).
pub fn package_silkscreen_polygon_primitive(vertices: &str, closed: bool, width_nm: i64) -> (r: Result<
    SilkscreenPrimitive,
    PrimitiveError,
>)
    ensures
        match package_vertex_list(vertices@) {
            Err(e) => r == Err::<SilkscreenPrimitive, PrimitiveError>(PrimitiveError::Vertices(e)),
            Ok(ps) => outline_result(r, ps, closed, width_nm),
        },
{
    match parse_package_vertices(vertices) {
        Err(e) => Err(PrimitiveError::Vertices(e)),
        Ok(vs) => outline(vs, closed, width_nm),
    }
}

/// The corners of a rectangular courtyard, counter-clockwise from the
/// minimum corner; the minimum must be below and left of the maximum.
pub fn courtyard_rect_vertices(min_x_nm: i64, min_y_nm: i64, max_x_nm: i64, max_y_nm: i64) -> (r: Result<
    Vec<Point>,
    PrimitiveError,
>)
    ensures
        min_x_nm >= max_x_nm ==> r == Err::<Vec<Point>, PrimitiveError>(PrimitiveError::MinXNotBelowMaxX),
        min_x_nm < max_x_nm && min_y_nm >= max_y_nm ==> r == Err::<Vec<Point>, PrimitiveError>(
            PrimitiveError::MinYNotBelowMaxY,
        ),
        min_x_nm < max_x_nm && min_y_nm < max_y_nm ==> r is Ok && r.unwrap()@ == seq![
            Point { x: min_x_nm, y: min_y_nm },
            Point { x: max_x_nm, y: min_y_nm },
            Point { x: max_x_nm, y: max_y_nm },
            Point { x: min_x_nm, y: max_y_nm },
        ],
{
    if min_x_nm >= max_x_nm {
        return Err(PrimitiveError::MinXNotBelowMaxX);
    }
    if min_y_nm >= max_y_nm {
        return Err(PrimitiveError::MinYNotBelowMaxY);
    }
    let v = vec![
        Point { x: min_x_nm, y: min_y_nm },
        Point { x: max_x_nm, y: min_y_nm },
        Point { x: max_x_nm, y: max_y_nm },
        Point { x: min_x_nm, y: max_y_nm },
    ];
    Ok(v)
}

/// A courtyard polygon of a footprint from its vertex text: at least 3
/// vertices.
pub fn footprint_courtyard_polygon(vertices: &str) -> (r: Result<Vec<Point>, PrimitiveError>)
    ensures
        match footprint_vertices(split_on(vertices@, ';')) {
            Err(e) => r == Err::<Vec<Point>, PrimitiveError>(PrimitiveError::Vertices(e)),
            Ok(ps) => if ps.len() < 3 {
                r == Err::<Vec<Point>, PrimitiveError>(PrimitiveError::TooFewVertices)
            } else {
                r is Ok && r.unwrap()@ == ps
            },
        },
{
    match parse_vertices(vertices) {
        Err(e) => Err(PrimitiveError::Vertices(e)),
        Ok(vs) => if vs.len() < 3 {
            Err(PrimitiveError::TooFewVertices)
        } else {
            Ok(vs)
        },
    }
}

/// A courtyard polygon of a package from its vertex text: at least 3
/// vertices.
pub fn package_courtyard_polygon(vertices: &str) -> (r: Result<Vec<Point>, PrimitiveError>)
    ensures
        match package_vertex_list(vertices@) {
            Err(e) => r == Err::<Vec<Point>, PrimitiveError>(PrimitiveError::Vertices(e)),
            Ok(ps) => if ps.len() < 3 {
                r == Err::<Vec<Point>, PrimitiveError>(PrimitiveError::TooFewVertices)
            } else {
                r is Ok && r.unwrap()@ == ps
            },
        },
{
    match parse_package_vertices(vertices) {
        Err(e) => Err(PrimitiveError::Vertices(e)),
        Ok(vs) => if vs.len() < 3 {
            Err(PrimitiveError::TooFewVertices)
        } else {
            Ok(vs)
        },
    }
}

} // verus!
