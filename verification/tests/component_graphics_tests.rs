use eda_cli_core::component_graphics::{
    LandPattern, PadShape, Padstack, PadstackAperture, PoolPad, land_pattern_from_footprint_or_package,
    materialize_component_graphics, native_component_pad,
};
use eda_cli_core::geometry::Point;
use eda_cli_core::silkscreen_primitives::SilkscreenPrimitive;

fn p(x: i64, y: i64) -> Point {
    Point { x, y }
}

fn pool_pad(uuid: u128, name: &str) -> PoolPad {
    PoolPad { uuid, name: name.to_string(), position: p(uuid as i64, 0), padstack: 0x50, layer: 1 }
}

#[test]
fn pad_takes_its_padstack_aperture() {
    let pad = pool_pad(1, "1");
    let circle = Padstack { aperture: Some(PadstackAperture::Circle { diameter_nm: 800_000 }), drill_nm: Some(400_000) };
    let c = native_component_pad(&pad, Some(&circle));
    assert_eq!((c.shape, c.diameter_nm, c.width_nm, c.height_nm), (Some(PadShape::Circle), 800_000, 0, 0));
    assert_eq!(c.drill_nm, Some(400_000));
    let rect = Padstack { aperture: Some(PadstackAperture::Rect { width_nm: 1_000, height_nm: 2_000 }), drill_nm: None };
    let r = native_component_pad(&pad, Some(&rect));
    assert_eq!((r.shape, r.diameter_nm, r.width_nm, r.height_nm), (Some(PadShape::Rect), 0, 1_000, 2_000));
    let none = native_component_pad(&pad, None);
    assert_eq!((none.shape, none.diameter_nm, none.width_nm, none.height_nm, none.drill_nm), (None, 0, 0, 0, None));
    assert_eq!(none.name, "1");
    assert_eq!(none.position, p(1, 0));
    assert_eq!(none.padstack, 0x50);
}

#[test]
fn primitives_are_sorted_by_kind_onto_the_layer() {
    let silkscreen = vec![
        SilkscreenPrimitive::Line { from: p(0, 0), to: p(10, 0), width: 5 },
        SilkscreenPrimitive::Rect { min: p(0, 0), max: p(4, 3), width: 6 },
        SilkscreenPrimitive::Circle { center: p(1, 1), radius: 7, width: 2 },
        SilkscreenPrimitive::Arc { center: p(2, 2), radius: 9, start_angle: 0, end_angle: 900, width: 3 },
        SilkscreenPrimitive::Polygon { vertices: vec![p(0, 0), p(1, 0), p(1, 1)], closed: true, width: 4 },
        SilkscreenPrimitive::Polygon { vertices: vec![p(5, 5), p(6, 6)], closed: false, width: 8 },
        SilkscreenPrimitive::Text { text: "U1".to_string(), position: p(3, 3), rotation: 90 },
    ];
    let g = materialize_component_graphics(&silkscreen, &[p(0, 0), p(9, 0), p(9, 9), p(0, 9)], true, &[], 17);
    assert_eq!(g.silkscreen_lines.len(), 1);
    assert_eq!(g.silkscreen_lines[0].layer, 17);
    assert_eq!(g.silkscreen_lines[0].width_nm, 5);
    assert_eq!(g.silkscreen_polygons.len(), 2);
    assert_eq!(g.silkscreen_polygons[0].vertices, vec![p(0, 0), p(4, 0), p(4, 3), p(0, 3)]);
    assert_eq!(g.silkscreen_polygons[0].width_nm, 6);
    assert_eq!(g.silkscreen_polygons[1].vertices, vec![p(0, 0), p(1, 0), p(1, 1)]);
    assert_eq!(g.silkscreen_polylines.len(), 1);
    assert_eq!(g.silkscreen_polylines[0].vertices, vec![p(5, 5), p(6, 6)]);
    assert_eq!(g.silkscreen_circles.len(), 1);
    assert_eq!(g.silkscreen_circles[0].radius_nm, 7);
    assert_eq!(g.silkscreen_arcs.len(), 1);
    assert_eq!((g.silkscreen_arcs[0].start_angle, g.silkscreen_arcs[0].end_angle), (0, 900));
    assert_eq!(g.silkscreen_texts.len(), 1);
    assert_eq!(g.silkscreen_texts[0].text, "U1");
    assert_eq!((g.silkscreen_texts[0].height_nm, g.silkscreen_texts[0].stroke_width_nm), (1_000_000, 150_000));
    let total = g.silkscreen_lines.len() + g.silkscreen_arcs.len() + g.silkscreen_circles.len()
        + g.silkscreen_texts.len() + g.silkscreen_polygons.len() + g.silkscreen_polylines.len();
    assert_eq!(total, silkscreen.len());
    assert_eq!(g.mechanical_polygons.len(), 1);
    assert_eq!(g.mechanical_polygons[0].layer, 41);
    assert_eq!(g.mechanical_polygons[0].vertices.len(), 4);
}

#[test]
fn courtyard_needs_a_closed_outline_of_two_vertices() {
    let open = materialize_component_graphics(&[], &[p(0, 0), p(1, 1), p(2, 0)], false, &[], 1);
    assert!(open.mechanical_polygons.is_empty());
    let short = materialize_component_graphics(&[], &[p(0, 0)], true, &[], 1);
    assert!(short.mechanical_polygons.is_empty());
    let two = materialize_component_graphics(&[], &[p(0, 0), p(1, 1)], true, &[], 1);
    assert_eq!(two.mechanical_polygons.len(), 1);
}

#[test]
fn pads_come_out_by_name_then_uuid() {
    let pads = vec![
        (pool_pad(3, "2"), None),
        (pool_pad(9, "10"), None),
        (pool_pad(2, "1"), None),
        (pool_pad(1, "2"), Some(Padstack { aperture: None, drill_nm: Some(5) })),
    ];
    let g = materialize_component_graphics(&[], &[], false, &pads, 1);
    let order: Vec<(String, u128)> = g.pads.iter().map(|q| (q.name.clone(), q.uuid)).collect();
    assert_eq!(
        order,
        vec![("1".to_string(), 2), ("10".to_string(), 9), ("2".to_string(), 1), ("2".to_string(), 3)]
    );
    assert_eq!(g.pads[2].drill_nm, Some(5));
}

#[test]
fn footprint_land_pattern_wins_over_the_package() {
    let footprint = LandPattern {
        pads: vec![pool_pad(1, "A")],
        courtyard_vertices: vec![p(0, 0)],
        courtyard_closed: true,
        silkscreen: vec![],
        models_3d: Vec::<u32>::new(),
    };
    let package = LandPattern {
        pads: vec![pool_pad(2, "B")],
        courtyard_vertices: vec![],
        courtyard_closed: false,
        silkscreen: vec![],
        models_3d: vec![7u32],
    };
    let chosen = land_pattern_from_footprint_or_package(Some(footprint), package);
    assert_eq!(chosen.pads[0].name, "A");
    assert_eq!(chosen.models_3d, vec![7]);
    let package2 = LandPattern {
        pads: vec![pool_pad(2, "B")],
        courtyard_vertices: vec![],
        courtyard_closed: false,
        silkscreen: vec![],
        models_3d: vec![7u32],
    };
    let fallback = land_pattern_from_footprint_or_package(None, package2);
    assert_eq!(fallback.pads[0].name, "B");
    let footprint3 = LandPattern {
        pads: vec![],
        courtyard_vertices: vec![],
        courtyard_closed: false,
        silkscreen: vec![],
        models_3d: vec![1u32, 2],
    };
    let package3 = LandPattern {
        pads: vec![],
        courtyard_vertices: vec![],
        courtyard_closed: false,
        silkscreen: vec![],
        models_3d: vec![7u32],
    };
    assert_eq!(land_pattern_from_footprint_or_package(Some(footprint3), package3).models_3d, vec![1, 2]);
}
