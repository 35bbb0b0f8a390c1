//! Text renderings of numbers and geometries: the signatures by which
//! expected and read-back Gerber geometries are compared.
use vstd::prelude::*;
use crate::geometry::{Point, canon_path, canonicalize_path_points};
use crate::gerber::ParsedGerberAperture;
use crate::text::{all_digits, digit_val, digits_value, is_digit, parse_int_spec, string_from_chars};

verus! {

/// The decimal digit for `d` (`0 <= d < 10`).
pub open spec fn digit_char(d: int) -> char {
    (48 + d) as char
}

/// The decimal numeral of `n`.
pub open spec fn nat_text(n: nat) -> Seq<char>
    decreases n,
{
    if n < 10 {
        seq![digit_char(n as int)]
    } else {
        nat_text(n / 10).push(digit_char(n as int % 10))
    }
}

/// `n` as `Display` writes an integer.
pub open spec fn int_text(n: int) -> Seq<char> {
    if n < 0 {
        seq!['-'] + nat_text((-n) as nat)
    } else {
        nat_text(n as nat)
    }
}

/// The six decimals of a fraction `f < 1_000_000`.
pub open spec fn frac6_text(f: int) -> Seq<char> {
    seq![
        digit_char(f / 100000 % 10),
        digit_char(f / 10000 % 10),
        digit_char(f / 1000 % 10),
        digit_char(f / 100 % 10),
        digit_char(f / 10 % 10),
        digit_char(f % 10),
    ]
}

/// `nm` nanometres as millimetres with exactly six decimals.
pub open spec fn mm6_text(nm: int) -> Seq<char> {
    let a = if nm < 0 {
        -nm
    } else {
        nm
    };
    let body = nat_text((a / 1_000_000) as nat) + seq!['.'] + frac6_text(a % 1_000_000);
    if nm < 0 {
        seq!['-'] + body
    } else {
        body
    }
}

/// A point as `(x, y)`.
pub open spec fn point_text(p: Point) -> Seq<char> {
    seq!['('] + int_text(p.x as int) + seq![',', ' '] + int_text(p.y as int) + seq![')']
}

/// The points of a path joined by ` -> `.
pub open spec fn path_text(s: Seq<Point>) -> Seq<char>
    decreases s.len(),
{
    if s.len() == 0 {
        Seq::empty()
    } else if s.len() == 1 {
        point_text(s[0])
    } else {
        path_text(s.drop_last()) + seq![' ', '-', '>', ' '] + point_text(s.last())
    }
}

/// The signature of a stroke.
pub open spec fn stroke_text(aperture_diameter_nm: int, points: Seq<Point>) -> Seq<char> {
    seq!['a', 'p', 'e', 'r', 't', 'u', 'r', 'e', '_', 'm', 'm', '='] + mm6_text(
        aperture_diameter_nm,
    ) + seq![' ', 'p', 'o', 'i', 'n', 't', 's', '='] + path_text(canon_path(points))
}

/// The signature of a circular flash.
pub open spec fn circle_flash_text(diameter_nm: int, position: Point) -> Seq<char> {
    seq![
        's', 'h', 'a', 'p', 'e', '=', 'c', 'i', 'r', 'c', 'l', 'e', ' ', 'd', 'i', 'a', 'm', 'e',
        't', 'e', 'r', '_', 'm', 'm', '=',
    ] + mm6_text(diameter_nm) + seq![' ', 'a', 't', '='] + point_text(position)
}

/// The signature of a rectangular flash.
pub open spec fn rect_flash_text(width_nm: int, height_nm: int, position: Point) -> Seq<char> {
    seq![
        's', 'h', 'a', 'p', 'e', '=', 'r', 'e', 'c', 't', ' ', 'w', 'i', 'd', 't', 'h', '_', 'm',
        'm', '=',
    ] + mm6_text(width_nm) + seq![' ', 'h', 'e', 'i', 'g', 'h', 't', '_', 'm', 'm', '=']
        + mm6_text(height_nm) + seq![' ', 'a', 't', '='] + point_text(position)
}

/// The signature of a flash of `aperture` at `position`.
pub open spec fn flash_text(aperture: ParsedGerberAperture, position: Point) -> Seq<char> {
    match aperture {
        ParsedGerberAperture::Circle { diameter_nm } => circle_flash_text(
            diameter_nm as int,
            position,
        ),
        ParsedGerberAperture::Rect { width_nm, height_nm } => rect_flash_text(
            width_nm as int,
            height_nm as int,
            position,
        ),
    }
}

/// The signature of a region.
pub open spec fn region_text(points: Seq<Point>) -> Seq<char> {
    seq!['p', 'o', 'i', 'n', 't', 's', '='] + path_text(canon_path(points))
}

/// Appends the characters of `lit`.
pub fn push_chars(out: &mut Vec<char>, lit: &[char])
    ensures
        final(out)@ == old(out)@ + lit@,
{
    let mut i: usize = 0;
    let ghost start = out@;
    while i < lit.len()
        invariant
            i <= lit.len(),
            out@ == start + lit@.take(i as int),
        decreases lit.len() - i,
    {
        out.push(lit[i]);
        i += 1;
        assert(out@ =~= start + lit@.take(i as int));
    }
    assert(lit@.take(lit.len() as int) =~= lit@);
}

fn digit(d: u64) -> (c: char)
    requires
        d < 10,
    ensures
        c == digit_char(d as int),
{
    let c = (48u8 + d as u8) as char;
    c
}

/// Appends the decimal numeral of `n`.
pub fn push_nat_text(out: &mut Vec<char>, n: u64)
    ensures
        final(out)@ == old(out)@ + nat_text(n as nat),
    decreases n,
{
    if n >= 10 {
        push_nat_text(out, n / 10);
    }
    let ghost mid = out@;
    out.push(digit(n % 10));
    proof {
        if n >= 10 {
            assert(out@ =~= old(out)@ + nat_text(n as nat));
        } else {
            assert(out@ =~= old(out)@ + nat_text(n as nat));
        }
    }
}

fn magnitude(n: i64) -> (m: u64)
    ensures
        m as int == (if n < 0 {
            -n
        } else {
            n as int
        }),
{
    if n < 0 {
        (0i128 - n as i128) as u64
    } else {
        n as u64
    }
}

/// Appends `n` as `Display` writes it.
pub fn push_int_text(out: &mut Vec<char>, n: i64)
    ensures
        final(out)@ == old(out)@ + int_text(n as int),
{
    if n < 0 {
        out.push('-');
    }
    let ghost mid = out@;
    push_nat_text(out, magnitude(n));
    assert(out@ =~= old(out)@ + int_text(n as int));
}

/// Appends `nm` nanometres as millimetres with six decimals.
pub fn push_mm6_text(out: &mut Vec<char>, nm: i64)
    ensures
        final(out)@ == old(out)@ + mm6_text(nm as int),
{
    if nm < 0 {
        out.push('-');
    }
    let a = magnitude(nm);
    push_nat_text(out, a / 1_000_000);
    out.push('.');
    let f = a % 1_000_000;
    out.push(digit(f / 100000 % 10));
    out.push(digit(f / 10000 % 10));
    out.push(digit(f / 1000 % 10));
    out.push(digit(f / 100 % 10));
    out.push(digit(f / 10 % 10));
    out.push(digit(f % 10));
    assert(out@ =~= old(out)@ + mm6_text(nm as int));
}

/// `nm` nanometres as millimetres with six decimals.
pub fn render_mm_6(nm: i64) -> (s: String)
    ensures
        s@ == mm6_text(nm as int),
{
    let mut out: Vec<char> = Vec::new();
    push_mm6_text(&mut out, nm);
    assert(out@ =~= mm6_text(nm as int));
    string_from_chars(&out)
}

fn push_point_text(out: &mut Vec<char>, p: &Point)
    ensures
        final(out)@ == old(out)@ + point_text(*p),
{
    out.push('(');
    push_int_text(out, p.x);
    out.push(',');
    out.push(' ');
    push_int_text(out, p.y);
    out.push(')');
    assert(out@ =~= old(out)@ + point_text(*p));
}

fn push_path_text(out: &mut Vec<char>, points: &[Point])
    ensures
        final(out)@ == old(out)@ + path_text(points@),
{
    let ghost start = out@;
    let mut i: usize = 0;
    while i < points.len()
        invariant
            i <= points.len(),
            out@ == start + path_text(points@.take(i as int)),
        decreases points.len() - i,
    {
        let ghost before = out@;
        if i > 0 {
            push_chars(out, &[' ', '-', '>', ' ']);
        }
        push_point_text(out, &points[i]);
        proof {
            let t = points@.take(i as int + 1);
            assert(t.drop_last() =~= points@.take(i as int));
            assert(t.last() == points@[i as int]);
            if i == 0 {
                assert(path_text(points@.take(0)) =~= Seq::<char>::empty());
            }
        }
        i += 1;
        assert(out@ =~= start + path_text(points@.take(i as int)));
    }
    assert(points@.take(points.len() as int) =~= points@);
}

/// The points of a path joined by ` -> `.
pub fn render_point_path(points: &[Point]) -> (s: String)
    ensures
        s@ == path_text(points@),
{
    let mut out: Vec<char> = Vec::new();
    push_path_text(&mut out, points);
    assert(out@ =~= path_text(points@));
    string_from_chars(&out)
}

/// The signature of a stroke: its aperture and canonical points.
pub fn stroke_chars(aperture_diameter_nm: i64, points: &[Point]) -> (v: Vec<char>)
    ensures
        v@ == stroke_text(aperture_diameter_nm as int, points@),
{
    let canonical = canonicalize_path_points(points);
    let mut out: Vec<char> = Vec::new();
    push_chars(&mut out, &['a', 'p', 'e', 'r', 't', 'u', 'r', 'e', '_', 'm', 'm', '=']);
    push_mm6_text(&mut out, aperture_diameter_nm);
    push_chars(&mut out, &[' ', 'p', 'o', 'i', 'n', 't', 's', '=']);
    push_path_text(&mut out, &canonical);
    assert(out@ =~= stroke_text(aperture_diameter_nm as int, points@));
    out
}

/// The signature of a stroke: its aperture and canonical points.
pub fn render_stroke_geometry(aperture_diameter_nm: i64, points: &[Point]) -> (s: String)
    ensures
        s@ == stroke_text(aperture_diameter_nm as int, points@),
{
    string_from_chars(&stroke_chars(aperture_diameter_nm, points))
}

fn circle_flash_chars(aperture_diameter_nm: i64, position: &Point) -> (v: Vec<char>)
    ensures
        v@ == circle_flash_text(aperture_diameter_nm as int, *position),
{
    let mut out: Vec<char> = Vec::new();
    push_chars(
        &mut out,
        &[
            's', 'h', 'a', 'p', 'e', '=', 'c', 'i', 'r', 'c', 'l', 'e', ' ', 'd', 'i', 'a', 'm',
            'e', 't', 'e', 'r', '_', 'm', 'm', '=',
        ],
    );
    push_mm6_text(&mut out, aperture_diameter_nm);
    push_chars(&mut out, &[' ', 'a', 't', '=']);
    push_point_text(&mut out, position);
    assert(out@ =~= circle_flash_text(aperture_diameter_nm as int, *position));
    out
}

fn rect_flash_chars(width_nm: i64, height_nm: i64, position: &Point) -> (v: Vec<char>)
    ensures
        v@ == rect_flash_text(width_nm as int, height_nm as int, *position),
{
    let mut out: Vec<char> = Vec::new();
    push_chars(
        &mut out,
        &[
            's', 'h', 'a', 'p', 'e', '=', 'r', 'e', 'c', 't', ' ', 'w', 'i', 'd', 't', 'h', '_',
            'm', 'm', '=',
        ],
    );
    push_mm6_text(&mut out, width_nm);
    push_chars(&mut out, &[' ', 'h', 'e', 'i', 'g', 'h', 't', '_', 'm', 'm', '=']);
    push_mm6_text(&mut out, height_nm);
    push_chars(&mut out, &[' ', 'a', 't', '=']);
    push_point_text(&mut out, position);
    assert(out@ =~= rect_flash_text(width_nm as int, height_nm as int, *position));
    out
}

/// The signature of a circular flash.
pub fn render_circular_flash_geometry(aperture_diameter_nm: i64, position: &Point) -> (s: String)
    ensures
        s@ == circle_flash_text(aperture_diameter_nm as int, *position),
{
    string_from_chars(&circle_flash_chars(aperture_diameter_nm, position))
}

/// The signature of a rectangular flash.
pub fn render_rect_flash_geometry(width_nm: i64, height_nm: i64, position: &Point) -> (s: String)
    ensures
        s@ == rect_flash_text(width_nm as int, height_nm as int, *position),
{
    string_from_chars(&rect_flash_chars(width_nm, height_nm, position))
}

/// The signature of a flash of `aperture` at `position`.
pub fn flash_chars(aperture: &ParsedGerberAperture, position: &Point) -> (v: Vec<char>)
    ensures
        v@ == flash_text(*aperture, *position),
{
    match aperture {
        ParsedGerberAperture::Circle { diameter_nm } => circle_flash_chars(*diameter_nm, position),
        ParsedGerberAperture::Rect { width_nm, height_nm } => rect_flash_chars(
            *width_nm,
            *height_nm,
            position,
        ),
    }
}

/// The signature of a flash of `aperture` at `position`.
pub fn render_parsed_flash_geometry(aperture: &ParsedGerberAperture, position: &Point) -> (s:
    String)
    ensures
        s@ == flash_text(*aperture, *position),
{
    string_from_chars(&flash_chars(aperture, position))
}

/// The signature of a region: its canonical points.
pub fn region_chars(points: &[Point]) -> (v: Vec<char>)
    ensures
        v@ == region_text(points@),
{
    let canonical = canonicalize_path_points(points);
    let mut out: Vec<char> = Vec::new();
    push_chars(&mut out, &['p', 'o', 'i', 'n', 't', 's', '=']);
    push_path_text(&mut out, &canonical);
    assert(out@ =~= region_text(points@));
    out
}

/// The signature of a region: its canonical points.
pub fn render_region_geometry(points: &[Point]) -> (s: String)
    ensures
        s@ == region_text(points@),
{
    string_from_chars(&region_chars(points))
}

proof fn lemma_digit_char(d: int)
    requires
        0 <= d < 10,
    ensures
        is_digit(digit_char(d)),
        digit_val(digit_char(d)) == d,
{
}

/// A numeral as `nat_text` writes it is digits whose value is the number.
pub proof fn lemma_nat_text_reads(n: nat)
    ensures
        nat_text(n).len() > 0,
        all_digits(nat_text(n)),
        digits_value(nat_text(n)) == n,
    decreases n,
{
    if n < 10 {
        lemma_digit_char(n as int);
        let s = nat_text(n);
        assert(s.drop_last() =~= Seq::<char>::empty());
        assert(digits_value(s.drop_last()) == 0);
        assert(digits_value(s) == digits_value(s.drop_last()) * 10 + digit_val(s.last()));
    } else {
        lemma_nat_text_reads(n / 10);
        lemma_digit_char(n as int % 10);
        let s = nat_text(n);
        assert(s.drop_last() =~= nat_text(n / 10));
        assert(s.last() == digit_char(n as int % 10));
        assert(digits_value(s) == digits_value(s.drop_last()) * 10 + digit_val(s.last()));
        assert(n == (n / 10) * 10 + n % 10) by (nonlinear_arith);
        assert forall|i: int| 0 <= i < s.len() implies is_digit(#[trigger] s[i]) by {
            if i < s.len() - 1 {
                assert(s[i] == nat_text(n / 10)[i]);
            }
        }
    }
}

/// An integer written by `int_text` reads back as itself with `str::parse`
/// for any signed type whose range holds it.
pub proof fn lemma_int_text_reads(v: int, lo: int, hi: int)
    requires
        lo <= v <= hi,
        lo <= 0,
    ensures
        parse_int_spec(int_text(v), true, lo, hi) == Some(v),
{
    if v < 0 {
        lemma_nat_text_reads((-v) as nat);
        let s = int_text(v);
        assert(s.drop_first() =~= nat_text((-v) as nat));
    } else {
        lemma_nat_text_reads(v as nat);
        let s = int_text(v);
        assert(is_digit(s[0]));
    }
}

/// An integer's text is digits, with a `-` first for a negative one; it
/// ends with a digit.
pub proof fn lemma_int_text_chars(v: int)
    ensures
        int_text(v).len() > 0,
        is_digit(int_text(v).last()),
        forall|i: int| 0 <= i < int_text(v).len() ==> is_digit(#[trigger] int_text(v)[i]) || (i == 0 && int_text(v)[i] == '-'),
{
    if v < 0 {
        lemma_nat_text_reads((-v) as nat);
        let n = nat_text((-v) as nat);
        assert forall|i: int| 0 <= i < int_text(v).len() implies is_digit(#[trigger] int_text(v)[i]) || (i == 0
            && int_text(v)[i] == '-') by {
            if i > 0 {
                assert(int_text(v)[i] == n[i - 1]);
            }
        }
        assert(int_text(v).last() == n.last());
    } else {
        lemma_nat_text_reads(v as nat);
    }
}

} // verus!
