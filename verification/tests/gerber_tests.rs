use eda_cli_core::geometry::{
    Point, canonicalize_closed_loop, canonicalize_open_path, canonicalize_path_points,
    reverse_points, rotate_points,
};
use eda_cli_core::gerber::{GerberError, ParsedGerberAperture, ParsedGerberGeometry, parse_mm_6_to_nm, parse_rs274x_subset};
use eda_cli_core::gerber_entries::{
    PadFlash, Polygon, TrackSegment, ViaFlash, gerber_copper_actual_entries, gerber_copper_expected_entries,
    gerber_mechanical_actual_entries, gerber_outline_actual_entries, gerber_outline_expected_entries,
    gerber_inspection_entries, gerber_silkscreen_expected_entries, gerber_soldermask_actual_entries,
    gerber_soldermask_expected_entries, inspect_gerber,
    render_pad_flash_geometry,
};
use eda_cli_core::render::{
    render_point_path, render_circular_flash_geometry, render_mm_6, render_rect_flash_geometry,
    render_region_geometry, render_stroke_geometry,
};
use eda_cli_core::tally::{GeometryTally, compare_entry_views};

fn p(x: i64, y: i64) -> Point {
    Point { x, y }
}

fn text(v: &[char]) -> String {
    v.iter().collect()
}

const SAMPLE: &str = "G04 sample*\n%FSLAX46Y46*%\n%MOMM*%\n%ADD10C,0.100000*%\n%ADD11R,1.000000X0.500000*%\nD10*\nX0Y0D02*\nX1000000Y0D01*\nX1000000Y1000000D01*\nD11*\nX2000000Y2000000D03*\nG36*\nX0Y0D02*\nX1000000Y0D01*\nX0Y1000000D01*\nX0Y0D01*\nG37*\nM02*\n";

#[test]
fn mm_values_render_with_six_decimals() {
    assert_eq!(render_mm_6(1_500_000), "1.500000");
    assert_eq!(render_mm_6(0), "0.000000");
    assert_eq!(render_mm_6(-250), "-0.000250");
    assert_eq!(render_mm_6(12_345_678), "12.345678");
}

#[test]
fn mm_text_parses_to_nanometres() {
    let c: Vec<char> = "0.100000".chars().collect();
    assert_eq!(parse_mm_6_to_nm(&c), Some(100_000));
    let c: Vec<char> = "1.5".chars().collect();
    assert_eq!(parse_mm_6_to_nm(&c), Some(1_500_000));
    let c: Vec<char> = "abc".chars().collect();
    assert_eq!(parse_mm_6_to_nm(&c), None);
}

#[test]
fn open_path_signature_ignores_direction() {
    let path = vec![p(5, 5), p(1, 1), p(3, 0)];
    let rev = reverse_points(&path);
    assert_eq!(canonicalize_open_path(&path), canonicalize_open_path(&rev));
    assert_eq!(canonicalize_open_path(&path), vec![p(3, 0), p(1, 1), p(5, 5)]);
}

#[test]
fn closed_loop_signature_ignores_start_and_direction() {
    let lp = vec![p(2, 2), p(0, 0), p(4, 0), p(4, 4)];
    let expected = canonicalize_closed_loop(&lp);
    assert_eq!(expected, vec![p(0, 0), p(2, 2), p(4, 4), p(4, 0)]);
    for k in 0..lp.len() {
        let r = rotate_points(&lp, k);
        assert_eq!(canonicalize_closed_loop(&r), expected);
        assert_eq!(canonicalize_closed_loop(&reverse_points(&r)), expected);
    }
    assert_eq!(rotate_points(&lp, lp.len()), lp);
    assert_eq!(rotate_points(&[], 0), Vec::<Point>::new());
    assert_eq!(rotate_points(&[p(1, 1), p(2, 2), p(3, 3)], 1), vec![p(2, 2), p(3, 3), p(1, 1)]);
    let mut closed = lp.clone();
    closed.push(lp[0]);
    assert_eq!(canonicalize_path_points(&closed), expected);
}

#[test]
fn signatures_render_as_text() {
    assert_eq!(
        render_stroke_geometry(100_000, &[p(0, 0), p(1_000_000, 0)]),
        "aperture_mm=0.100000 points=(0, 0) -> (1000000, 0)"
    );
    assert_eq!(
        render_circular_flash_geometry(600_000, &p(1, -2)),
        "shape=circle diameter_mm=0.600000 at=(1, -2)"
    );
    assert_eq!(
        render_rect_flash_geometry(1_000_000, 500_000, &p(3, 4)),
        "shape=rect width_mm=1.000000 height_mm=0.500000 at=(3, 4)"
    );
    assert_eq!(
        render_region_geometry(&[p(0, 0), p(1, 0), p(0, 1), p(0, 0)]),
        "points=(0, 0) -> (0, 1) -> (1, 0)"
    );
    let pad = PadFlash { aperture: ParsedGerberAperture::Circle { diameter_nm: 600_000 }, position: p(1, -2) };
    assert_eq!(render_pad_flash_geometry(&pad), "shape=circle diameter_mm=0.600000 at=(1, -2)");
}

#[test]
fn parses_strokes_flashes_and_regions() {
    let parsed = parse_rs274x_subset(SAMPLE).unwrap();
    assert_eq!(parsed.geometries.len(), 3);
    match &parsed.geometries[0] {
        ParsedGerberGeometry::Stroke { aperture_diameter_nm, points } => {
            assert_eq!(*aperture_diameter_nm, 100_000);
            assert_eq!(points, &vec![p(0, 0), p(1_000_000, 0), p(1_000_000, 1_000_000)]);
        }
        other => panic!("unexpected {other:?}"),
    }
    assert_eq!(
        parsed.geometries[1],
        ParsedGerberGeometry::Flash {
            aperture: ParsedGerberAperture::Rect { width_nm: 1_000_000, height_nm: 500_000 },
            position: p(2_000_000, 2_000_000),
        }
    );
    match &parsed.geometries[2] {
        ParsedGerberGeometry::Region { points } => {
            assert_eq!(points, &vec![p(0, 0), p(0, 1_000_000), p(1_000_000, 0)]);
        }
        other => panic!("unexpected {other:?}"),
    }
}

#[test]
fn parse_errors_are_reported() {
    assert!(matches!(parse_rs274x_subset("G37*\n"), Err(GerberError::RegionEndWithoutStart)));
    assert!(matches!(parse_rs274x_subset("X0Y0D02*\n"), Err(GerberError::NoActiveAperture)));
    assert!(matches!(parse_rs274x_subset("G36*\nG36*\n"), Err(GerberError::NestedRegion)));
    assert!(matches!(parse_rs274x_subset("%ADD10C,0.1*%\nD11*\nX0Y0D03*\n"), Err(GerberError::UnknownAperture { code: 11 })));
    assert!(matches!(parse_rs274x_subset("%ADD10P,0.1*%\n"), Err(GerberError::ApertureShapeUnsupported { .. })));
    assert!(matches!(parse_rs274x_subset("G01*\n"), Err(GerberError::CommandUnsupported { .. })));
    assert!(matches!(parse_rs274x_subset("%ADD10C,0.1*%\nD10*\nXaY0D02*\n"), Err(GerberError::XInvalid)));
}

#[test]
fn inspection_counts_shapes_and_tallies_signatures() {
    let i = inspect_gerber(SAMPLE).unwrap();
    assert_eq!(i.geometry_count, 3);
    assert_eq!(i.stroke_count, 1);
    assert_eq!(i.flash_count, 1);
    assert_eq!(i.region_count, 1);
    let kinds: Vec<String> = i.entries.entries.iter().map(|e| text(&e.kind)).collect();
    assert_eq!(kinds, vec!["flash", "region", "stroke"]);
    assert!(i.entries.entries.iter().all(|e| e.count == 1));
}

#[test]
fn mechanical_entries_tell_component_geometry_apart() {
    let parsed = parse_rs274x_subset(SAMPLE).unwrap();
    let stroke_sig: Vec<char> = "aperture_mm=0.100000 points=(0, 0) -> (1000000, 0) -> (1000000, 1000000)".chars().collect();
    let t = gerber_mechanical_actual_entries(&parsed, &[], &[stroke_sig], &[]);
    let kinds: Vec<String> = t.entries.iter().map(|e| text(&e.kind)).collect();
    assert_eq!(kinds, vec!["component_stroke", "flash", "keepout"]);
}

#[test]
fn tally_comparison_splits_matched_missing_and_extra() {
    let mut expected = GeometryTally::new();
    expected.add(&['a'], &['x']);
    expected.add(&['a'], &['x']);
    expected.add(&['b'], &['y']);
    let mut actual = GeometryTally::new();
    actual.add(&['a'], &['x']);
    actual.add(&['c'], &['z']);
    assert_eq!(expected.get(&['a'], &['x']), 2);
    let cmp = compare_entry_views(&expected, &actual);
    assert_eq!(cmp.matched_count, 1);
    assert_eq!(cmp.missing_count, 2);
    assert_eq!(cmp.extra_count, 1);
    assert_eq!(cmp.matched_count + cmp.missing_count, 3);
    assert_eq!(cmp.matched_count + cmp.extra_count, 2);
}

#[test]
fn point_paths_render_with_arrows() {
    assert_eq!(render_point_path(&[p(0, 0), p(1, -2)]), "(0, 0) -> (1, -2)");
    assert_eq!(render_point_path(&[p(7, 8)]), "(7, 8)");
}

const OUTLINE: &str = "%FSLAX46Y46*%\n%MOMM*%\n%ADD10C,0.100000*%\nD10*\nX1000000Y0D02*\nX1000000Y1000000D01*\nX0Y1000000D01*\nX0Y0D01*\nX1000000Y0D01*\nM02*\n";

#[test]
fn outline_read_back_matches_the_board_outline() {
    let outline = Polygon { vertices: vec![p(0, 0), p(1_000_000, 0), p(1_000_000, 1_000_000), p(0, 1_000_000)], closed: true };
    let expected = gerber_outline_expected_entries(&outline);
    let actual = gerber_outline_actual_entries(&parse_rs274x_subset(OUTLINE).unwrap());
    let kinds: Vec<String> = actual.entries.iter().map(|e| text(&e.kind)).collect();
    assert_eq!(kinds, vec!["outline"]);
    let cmp = compare_entry_views(&expected, &actual);
    assert_eq!((cmp.matched_count, cmp.missing_count, cmp.extra_count), (1, 0, 0));
}

const COPPER: &str = "%FSLAX46Y46*%\n%MOMM*%\n%ADD10C,0.100000*%\n%ADD11C,0.600000*%\n%ADD12C,0.800000*%\nD10*\nX0Y0D02*\nX1000000Y0D01*\nD11*\nX2000000Y2000000D03*\nD12*\nX3000000Y0D03*\nM02*\n";

#[test]
fn copper_read_back_tells_pads_vias_and_tracks_apart() {
    let pad = PadFlash { aperture: ParsedGerberAperture::Circle { diameter_nm: 600_000 }, position: p(2_000_000, 2_000_000) };
    let track = TrackSegment { width: 100_000, from: p(1_000_000, 0), to: p(0, 0) };
    let via = ViaFlash { diameter: 800_000, position: p(3_000_000, 0) };
    let expected = gerber_copper_expected_entries(&[pad.clone()], &[track], &[], &[via]);
    let pad_sig: Vec<char> = render_pad_flash_geometry(&pad).chars().collect();
    let via_sig: Vec<char> = render_circular_flash_geometry(800_000, &p(3_000_000, 0)).chars().collect();
    let actual = gerber_copper_actual_entries(&parse_rs274x_subset(COPPER).unwrap(), &[pad_sig], &[via_sig]);
    let kinds: Vec<String> = actual.entries.iter().map(|e| text(&e.kind)).collect();
    assert_eq!(kinds, vec!["pad", "track", "via"]);
    let cmp = compare_entry_views(&expected, &actual);
    assert_eq!((cmp.matched_count, cmp.missing_count, cmp.extra_count), (3, 0, 0));
}

#[test]
fn soldermask_read_back_counts_pad_openings() {
    let pad = PadFlash { aperture: ParsedGerberAperture::Circle { diameter_nm: 600_000 }, position: p(2_000_000, 2_000_000) };
    let expected = gerber_soldermask_expected_entries(&[pad.clone()]);
    let pad_sig: Vec<char> = render_pad_flash_geometry(&pad).chars().collect();
    let actual = gerber_soldermask_actual_entries(&parse_rs274x_subset(COPPER).unwrap(), &[pad_sig]);
    let cmp = compare_entry_views(&expected, &actual);
    assert_eq!((cmp.matched_count, cmp.missing_count), (1, 0));
    assert_eq!(cmp.extra_count, 2);
}

#[test]
fn silkscreen_entries_ignore_geometry_order_and_count_by_kind() {
    let parsed = parse_rs274x_subset(SAMPLE).unwrap();
    let mut permuted = parse_rs274x_subset(SAMPLE).unwrap();
    permuted.geometries.reverse();
    let a = gerber_silkscreen_expected_entries(&parsed);
    let b = gerber_silkscreen_expected_entries(&permuted);
    assert_eq!(a.entries, b.entries);
    let inspected = gerber_inspection_entries(&parsed);
    assert_eq!(inspected.entries, a.entries);
    let by_kind = |kind: &str| -> usize {
        a.entries.iter().filter(|e| text(&e.kind) == kind).map(|e| e.count).sum()
    };
    assert_eq!((by_kind("stroke"), by_kind("flash"), by_kind("region")), (1, 1, 1));
    assert_eq!(a.entries.iter().map(|e| e.count).sum::<usize>(), parsed.geometries.len());
}
