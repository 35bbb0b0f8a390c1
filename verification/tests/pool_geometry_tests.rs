use eda_cli_core::geometry::Point;
use eda_cli_core::models::{
    AttachmentError, ModelFormat, ModelFormatError, ModelRole, default_model_extension,
    model_role_directory, parse_model_format, part_model_blob_path, validate_model_attachment,
};
use eda_cli_core::silkscreen_primitives::{
    PrimitiveError, SilkscreenPrimitive, VertexError, courtyard_rect_vertices, footprint_courtyard_polygon,
    footprint_silkscreen_circle_primitive, footprint_silkscreen_line_primitive,
    footprint_silkscreen_polygon_primitive, footprint_silkscreen_rect_primitive,
    package_courtyard_polygon, package_silkscreen_arc_primitive, package_silkscreen_polygon_primitive,
    package_silkscreen_text_primitive, parse_package_vertices, parse_vertices,
};

fn p(x: i64, y: i64) -> Point {
    Point { x, y }
}

#[test]
fn footprint_vertices_skip_blank_pieces() {
    assert_eq!(parse_vertices(" 0,0 ; 10 , -5;;+3,4; "), Ok(vec![p(0, 0), p(10, -5), p(3, 4)]));
    assert_eq!(parse_vertices(""), Ok(vec![]));
    assert_eq!(parse_vertices("1,2;3"), Err(VertexError::MissingComma { index: 1 }));
    assert_eq!(parse_vertices("x,2"), Err(VertexError::InvalidX { index: 0 }));
    assert_eq!(parse_vertices("1,2,3"), Err(VertexError::InvalidY { index: 0 }));
}

#[test]
fn package_vertices_need_every_piece() {
    assert_eq!(parse_package_vertices(" 0,0;10,0 ;5, 5 "), Ok(vec![p(0, 0), p(10, 0), p(5, 5)]));
    assert_eq!(parse_package_vertices("   "), Err(VertexError::Empty));
    assert_eq!(parse_package_vertices("0,0;;1,1"), Err(VertexError::InvalidX { index: 1 }));
    assert_eq!(parse_package_vertices("0,0;7"), Err(VertexError::MissingComma { index: 1 }));
    assert_eq!(parse_package_vertices("0,y"), Err(VertexError::InvalidY { index: 0 }));
    assert_eq!(parse_package_vertices("1,2,3"), Err(VertexError::TooManyCoordinates { index: 0 }));
}

#[test]
fn silkscreen_lines_rects_and_circles() {
    assert_eq!(
        footprint_silkscreen_line_primitive(0, 0, 10, 0, 150),
        Ok(SilkscreenPrimitive::Line { from: p(0, 0), to: p(10, 0), width: 150 })
    );
    assert_eq!(footprint_silkscreen_line_primitive(3, 3, 3, 3, 150), Err(PrimitiveError::SameEndpoints));
    assert_eq!(footprint_silkscreen_line_primitive(0, 0, 1, 0, 0), Err(PrimitiveError::NonPositiveWidth));
    assert_eq!(
        footprint_silkscreen_rect_primitive(0, 0, 10, 5, 100),
        Ok(SilkscreenPrimitive::Rect { min: p(0, 0), max: p(10, 5), width: 100 })
    );
    assert_eq!(footprint_silkscreen_rect_primitive(10, 0, 10, 5, 100), Err(PrimitiveError::MinXNotBelowMaxX));
    assert_eq!(footprint_silkscreen_rect_primitive(0, 5, 10, 5, 100), Err(PrimitiveError::MinYNotBelowMaxY));
    assert_eq!(footprint_silkscreen_rect_primitive(0, 0, 10, 5, -1), Err(PrimitiveError::NonPositiveWidth));
    assert_eq!(
        footprint_silkscreen_circle_primitive(1, 2, 30, 5),
        Ok(SilkscreenPrimitive::Circle { center: p(1, 2), radius: 30, width: 5 })
    );
    assert_eq!(footprint_silkscreen_circle_primitive(1, 2, 0, 5), Err(PrimitiveError::NonPositiveRadius));
    assert_eq!(
        package_silkscreen_arc_primitive(0, 0, 10, 0, 900, 5),
        Ok(SilkscreenPrimitive::Arc { center: p(0, 0), radius: 10, start_angle: 0, end_angle: 900, width: 5 })
    );
    assert_eq!(package_silkscreen_arc_primitive(0, 0, 10, 0, 900, 0), Err(PrimitiveError::NonPositiveWidth));
}

#[test]
fn silkscreen_outlines_and_text() {
    assert_eq!(
        footprint_silkscreen_polygon_primitive("0,0;1,0;1,1", true, 10),
        Ok(SilkscreenPrimitive::Polygon { vertices: vec![p(0, 0), p(1, 0), p(1, 1)], closed: true, width: 10 })
    );
    assert_eq!(footprint_silkscreen_polygon_primitive("0,0;1,0", true, 10), Err(PrimitiveError::TooFewVertices));
    assert!(footprint_silkscreen_polygon_primitive("0,0;1,0", false, 10).is_ok());
    assert_eq!(footprint_silkscreen_polygon_primitive("0,0", false, 10), Err(PrimitiveError::TooFewVertices));
    assert_eq!(footprint_silkscreen_polygon_primitive("0,0;1,1", false, 0), Err(PrimitiveError::NonPositiveWidth));
    assert_eq!(
        footprint_silkscreen_polygon_primitive("a,0", false, 1),
        Err(PrimitiveError::Vertices(VertexError::InvalidX { index: 0 }))
    );
    assert_eq!(
        package_silkscreen_polygon_primitive("", true, 1),
        Err(PrimitiveError::Vertices(VertexError::Empty))
    );
    assert_eq!(
        package_silkscreen_text_primitive("  REF ", 5, 6, 900),
        Ok(SilkscreenPrimitive::Text { text: "REF".to_string(), position: p(5, 6), rotation: 900 })
    );
    assert_eq!(package_silkscreen_text_primitive("  ", 5, 6, 0), Err(PrimitiveError::EmptyText));
}

#[test]
fn courtyards() {
    assert_eq!(courtyard_rect_vertices(0, 0, 4, 2), Ok(vec![p(0, 0), p(4, 0), p(4, 2), p(0, 2)]));
    assert_eq!(courtyard_rect_vertices(4, 0, 4, 2), Err(PrimitiveError::MinXNotBelowMaxX));
    assert_eq!(courtyard_rect_vertices(0, 3, 4, 2), Err(PrimitiveError::MinYNotBelowMaxY));
    assert_eq!(footprint_courtyard_polygon("0,0;1,0;1,1;"), Ok(vec![p(0, 0), p(1, 0), p(1, 1)]));
    assert_eq!(footprint_courtyard_polygon("0,0;1,0"), Err(PrimitiveError::TooFewVertices));
    assert_eq!(package_courtyard_polygon("0,0;1,0;1,1"), Ok(vec![p(0, 0), p(1, 0), p(1, 1)]));
    assert_eq!(
        package_courtyard_polygon("0,0;1,0;1,1;"),
        Err(PrimitiveError::Vertices(VertexError::InvalidX { index: 3 }))
    );
}

#[test]
fn model_formats() {
    assert_eq!(parse_model_format(Some(" STEP "), "x.bin"), Ok(ModelFormat::Step));
    assert_eq!(parse_model_format(Some("glb"), "x"), Ok(ModelFormat::Gltf));
    assert_eq!(parse_model_format(Some("stl"), "x.step"), Err(ModelFormatError::Unsupported));
    assert_eq!(parse_model_format(None, "models/part.WRL"), Ok(ModelFormat::Wrl));
    assert_eq!(parse_model_format(Some("  "), "a/b.iges"), Ok(ModelFormat::Iges));
    assert_eq!(parse_model_format(None, "a/b.obj"), Ok(ModelFormat::Obj));
    assert_eq!(parse_model_format(None, "a/b"), Err(ModelFormatError::NotInferable));
    assert_eq!(parse_model_format(None, "a/.step"), Err(ModelFormatError::NotInferable));
    assert_eq!(parse_model_format(None, "a/b.stp.txt"), Err(ModelFormatError::NotInferable));
}

#[test]
fn model_roles() {
    assert_eq!(model_role_directory(ModelRole::IbisIss), "ibis_iss");
    assert_eq!(model_role_directory(ModelRole::CompactThermal), "thermal");
    assert_eq!(default_model_extension(ModelRole::Spice), "lib");
    assert_eq!(default_model_extension(ModelRole::Touchstone), "snp");
}

#[test]
fn model_blob_paths() {
    let abc = "ba7816bf8f01cfea414140de5dae2223b00361a396177a9cb410ff61f20015ad";
    assert_eq!(
        part_model_blob_path("pool", ModelRole::Spice, "/tmp/models/opamp.cir", b"abc"),
        format!("pool/models/spice/{abc}.cir")
    );
    assert_eq!(
        part_model_blob_path("pool", ModelRole::Ibis, "/tmp/models/driver", b"abc"),
        format!("pool/models/ibis/{abc}.ibs")
    );
}

#[test]
fn model_attachments() {
    let names = vec!["opamp".to_string()];
    assert_eq!(validate_model_attachment(&names, false, false, Some(("src", "abc"))), Ok(()));
    assert_eq!(validate_model_attachment(&names, true, true, None), Ok(()));
    assert_eq!(
        validate_model_attachment(&["ok".to_string(), " ".to_string()], false, false, None),
        Err(AttachmentError::BlankModelName)
    );
    assert_eq!(validate_model_attachment(&names, true, false, None), Err(AttachmentError::SchemeWithoutEncryption));
    assert_eq!(
        validate_model_attachment(&names, false, false, Some(("src", " "))),
        Err(AttachmentError::BlankProvenance)
    );
}
