use eda_cli_core::drill::{
    DrillColumn, DrillCsvError, DrillVia, NativeProjectDrillCsvRow, classify_via_hole_class,
    compare_native_project_drill, csv_drill_row_from_via, inspect_native_project_drill,
    parse_native_project_drill_csv_rows, render_expected_native_project_drill_csv,
    render_native_project_drill_csv, rows_by_via, sorted_native_project_board_vias,
    validate_native_project_drill,
};
use eda_cli_core::excellon::{
    DiameterHits, DrillHit, DrillHitKind, ExcellonError, ExcellonInspection, ExcellonTool,
    build_excellon_tool_views_for_drill_hits, compare_native_project_excellon_drill,
    compare_tool_hits, inspect_excellon_drill, report_native_project_drill_hole_classes,
    report_native_project_manufacturing,
};

const HEADER: &str = "via_uuid,net_uuid,x_nm,y_nm,drill_nm,diameter_nm,from_layer,to_layer\n";

fn via(uuid: u128, x: i64, y: i64) -> DrillVia {
    DrillVia {
        uuid,
        net: 0xaa,
        x_nm: x,
        y_nm: y,
        drill_nm: 300_000,
        diameter_nm: 600_000,
        from_layer: 1,
        to_layer: 4,
    }
}

fn hit(kind: DrillHitKind, uuid: u128, drill_nm: i64, from: i32, to: i32) -> DrillHit {
    DrillHit { kind, uuid, net: None, x_nm: 0, y_nm: 0, drill_nm, from_layer: from, to_layer: to }
}

fn tool(t: &str, d: &str, hits: usize) -> ExcellonTool {
    ExcellonTool { tool: t.to_string(), diameter_mm: d.to_string(), hits }
}

fn id_text(n: u128) -> String {
    format!("00000000-0000-0000-0000-{:012x}", n)
}

#[test]
fn hole_classes_follow_the_outer_layers() {
    assert_eq!(classify_via_hole_class(1, 4, Some(1), Some(4)), "through");
    assert_eq!(classify_via_hole_class(1, 2, Some(1), Some(4)), "blind");
    assert_eq!(classify_via_hole_class(3, 4, Some(1), Some(4)), "blind");
    assert_eq!(classify_via_hole_class(2, 3, Some(1), Some(4)), "buried");
    assert_eq!(classify_via_hole_class(1, 4, None, Some(4)), "unclassified");
    assert_eq!(classify_via_hole_class(1, 4, None, None), "unclassified");
}

#[test]
fn vias_sort_by_x_then_y_then_uuid() {
    let vias = vec![via(3, 10, 5), via(2, 10, 5), via(1, 20, 0), via(4, 10, -1), via(5, -7, 100)];
    let sorted = sorted_native_project_board_vias(vias);
    let ids: Vec<u128> = sorted.iter().map(|v| v.uuid).collect();
    assert_eq!(ids, vec![5, 4, 2, 3, 1]);
}

#[test]
fn drill_csv_renders_one_line_per_via() {
    let v = DrillVia {
        uuid: 1,
        net: 2,
        x_nm: 100,
        y_nm: -200,
        drill_nm: 300,
        diameter_nm: 600,
        from_layer: 1,
        to_layer: 4,
    };
    let csv = render_native_project_drill_csv(&[v]);
    let expected = format!("{HEADER}{},{},100,-200,300,600,1,4\n", id_text(1), id_text(2));
    assert_eq!(csv, expected);
    assert_eq!(render_native_project_drill_csv(&[]), HEADER);
}

#[test]
fn via_uuids_are_written_hyphenated_and_read_back() {
    let id: u128 = 0x0123_4567_89ab_cdef_0011_2233_4455_6677;
    let csv = render_native_project_drill_csv(&[via(id, 0, 0)]);
    let line = csv.lines().nth(1).unwrap();
    assert!(line.starts_with("01234567-89ab-cdef-0011-223344556677,"));
    let rows = parse_native_project_drill_csv_rows(&csv).unwrap();
    assert_eq!(rows[0].0, id);
    let upper = csv.replace("89ab-cdef", "89AB-CDEF");
    assert_eq!(parse_native_project_drill_csv_rows(&upper).unwrap()[0].0, id);
}

#[test]
fn expected_drill_csv_is_sorted() {
    let csv = render_expected_native_project_drill_csv(vec![via(9, 50, 0), via(8, 10, 0)]);
    let lines: Vec<&str> = csv.lines().collect();
    assert_eq!(lines.len(), 3);
    assert!(lines[1].starts_with(&id_text(8)));
    assert!(lines[2].starts_with(&id_text(9)));
}

#[test]
fn drill_csv_reads_back_what_was_written() {
    let vias = vec![via(1, 10, 20), via(2, -30, 40)];
    let csv = render_native_project_drill_csv(&vias);
    let rows = parse_native_project_drill_csv_rows(&csv).unwrap();
    let expected: Vec<(u128, NativeProjectDrillCsvRow)> =
        vias.iter().map(|v| csv_drill_row_from_via(*v)).collect();
    assert_eq!(rows, expected);
}

#[test]
fn drill_csv_skips_blank_lines() {
    let csv = format!("{HEADER}\n   \n{},{},1,2,3,4,1,2\n", id_text(7), id_text(8));
    let rows = parse_native_project_drill_csv_rows(&csv).unwrap();
    assert_eq!(rows.len(), 1);
    assert_eq!(rows[0].0, 7);
    assert_eq!(rows[0].1.net_uuid, 8);
    assert_eq!(rows[0].1.to_layer, 2);
}

#[test]
fn drill_csv_errors() {
    assert_eq!(parse_native_project_drill_csv_rows(""), Err(DrillCsvError::UnexpectedHeader));
    assert_eq!(parse_native_project_drill_csv_rows("via_uuid\n"), Err(DrillCsvError::UnexpectedHeader));
    let csv = format!("{HEADER}\na,b\n");
    assert_eq!(
        parse_native_project_drill_csv_rows(&csv),
        Err(DrillCsvError::ColumnCount { row_index: 1 })
    );
    let csv = format!("{HEADER}nope,{},1,2,3,4,1,2\n", id_text(1));
    assert_eq!(
        parse_native_project_drill_csv_rows(&csv),
        Err(DrillCsvError::InvalidField { row_index: 0, column: DrillColumn::ViaUuid })
    );
    let csv = format!("{HEADER}{},{},1,2x,3,4,1,2\n", id_text(1), id_text(2));
    assert_eq!(
        parse_native_project_drill_csv_rows(&csv),
        Err(DrillCsvError::InvalidField { row_index: 0, column: DrillColumn::YNm })
    );
    let csv = format!("{HEADER}{},{},1,2,3,4,1,99999999999\n", id_text(1), id_text(2));
    assert_eq!(
        parse_native_project_drill_csv_rows(&csv),
        Err(DrillCsvError::InvalidField { row_index: 0, column: DrillColumn::ToLayer })
    );
}

#[test]
fn drill_rows_keyed_by_via_keep_the_last() {
    let a = csv_drill_row_from_via(via(2, 1, 1));
    let b = csv_drill_row_from_via(via(1, 5, 5));
    let c = csv_drill_row_from_via(via(2, 9, 9));
    let keyed = rows_by_via(&[a, b, c]);
    assert_eq!(keyed, vec![b, c]);
}

#[test]
fn drill_comparison_sorts_vias_into_matched_missing_extra_and_drift() {
    let vias = vec![via(1, 0, 0), via(2, 5, 5), via(3, 9, 9)];
    let mut drifted = csv_drill_row_from_via(vias[1]);
    drifted.1.x_nm = 6;
    let rows = vec![csv_drill_row_from_via(vias[0]), drifted, csv_drill_row_from_via(via(4, 1, 1))];
    let c = compare_native_project_drill(&vias, &rows);
    assert_eq!(c.expected_row_count, 3);
    assert_eq!(c.actual_row_count, 3);
    assert_eq!(c.matched, vec![id_text(1)]);
    assert_eq!(c.drift, vec![id_text(2)]);
    assert_eq!(c.missing, vec![id_text(3)]);
    assert_eq!(c.extra, vec![id_text(4)]);
}

#[test]
fn drill_file_compared_with_its_own_vias_matches_everywhere() {
    let vias = vec![via(5, 0, 0), via(6, 1, 0)];
    let rows = parse_native_project_drill_csv_rows(&render_native_project_drill_csv(&vias)).unwrap();
    let c = compare_native_project_drill(&vias, &rows);
    assert_eq!(c.matched, vec![id_text(5), id_text(6)]);
    assert!(c.missing.is_empty() && c.extra.is_empty() && c.drift.is_empty());
}

#[test]
fn drill_inspection_lists_rows_with_uuid_text() {
    let csv = render_native_project_drill_csv(&[via(0x1234, 3, 4)]);
    let rows = inspect_native_project_drill(&csv).unwrap();
    assert_eq!(rows.len(), 1);
    assert_eq!(rows[0].via_uuid, id_text(0x1234));
    assert_eq!(rows[0].net_uuid, id_text(0xaa));
    assert_eq!(rows[0].x_nm, 3);
    assert_eq!(rows[0].diameter_nm, 600_000);
    assert!(inspect_native_project_drill("bad\n").is_err());
}

#[test]
fn excellon_tools_per_drill_size() {
    let hits = vec![
        hit(DrillHitKind::Via, 1, 800_000, 1, 4),
        hit(DrillHitKind::Via, 2, 300_000, 1, 4),
        hit(DrillHitKind::ComponentPad, 3, 300_000, 1, 4),
    ];
    let tools = build_excellon_tool_views_for_drill_hits(&hits);
    assert_eq!(tools, vec![tool("T01", "0.300000", 2), tool("T02", "0.800000", 1)]);
    assert!(build_excellon_tool_views_for_drill_hits(&[]).is_empty());
}

const EXCELLON: &str = "M48\nMETRIC,TZ\nT10C1.000000\nT02C0.300000\n%\nT02\nX1Y1\nX2Y2\nT10\nX3Y3\nM30\n";

#[test]
fn excellon_file_reads_back() {
    let r = inspect_excellon_drill(EXCELLON).unwrap();
    assert!(r.metric);
    assert_eq!(r.tool_count, 2);
    assert_eq!(r.hit_count, 3);
    assert_eq!(r.tools, vec![tool("T02", "0.300000", 2), tool("T10", "1.000000", 1)]);
}

#[test]
fn excellon_file_without_metric_line() {
    let r = inspect_excellon_drill("T1C0.5\nT1\nX0Y0\n").unwrap();
    assert!(!r.metric);
    assert_eq!(r.tools, vec![tool("T1", "0.5", 1)]);
    let r = inspect_excellon_drill("").unwrap();
    assert_eq!(r.tool_count, 0);
    assert_eq!(r.hit_count, 0);
}

#[test]
fn excellon_errors() {
    assert_eq!(inspect_excellon_drill("M48\nX1Y1\n").err(), Some(ExcellonError::NoActiveTool));
    assert_eq!(
        inspect_excellon_drill("T01C0.3\nT05\nX1Y1\n").err(),
        Some(ExcellonError::UnknownTool { tool: "T05".to_string() })
    );
}

#[test]
fn tool_hits_compare_by_diameter() {
    let d = |m: &str, h: usize| DiameterHits { diameter_mm: m.to_string(), hits: h };
    let c = compare_tool_hits(&[d("0.3", 2), d("0.8", 1), d("1.0", 4)], &[d("0.3", 2), d("1.0", 5), d("2.0", 1)]);
    assert_eq!(c.matched, vec!["0.3".to_string()]);
    assert_eq!(c.missing, vec!["0.8".to_string()]);
    assert_eq!(c.extra, vec!["2.0".to_string()]);
    assert_eq!(c.hit_drift.len(), 1);
    assert_eq!(c.hit_drift[0].diameter_mm, "1.0");
    assert_eq!(c.hit_drift[0].expected_hits, 4);
    assert_eq!(c.hit_drift[0].actual_hits, 5);
}

#[test]
fn excellon_comparison_against_board_hits() {
    let hits = vec![
        hit(DrillHitKind::Via, 1, 300_000, 1, 4),
        hit(DrillHitKind::Via, 2, 300_000, 1, 4),
        hit(DrillHitKind::Via, 3, 1_000_000, 1, 4),
    ];
    let actual: ExcellonInspection = inspect_excellon_drill(EXCELLON).unwrap();
    let c = compare_native_project_excellon_drill(&hits, &actual);
    assert_eq!(c.expected_tool_count, 2);
    assert_eq!(c.actual_tool_count, 2);
    assert_eq!(c.expected_hit_count, 3);
    assert_eq!(c.actual_hit_count, 3);
    assert_eq!(c.tools.matched, vec!["0.300000".to_string(), "1.000000".to_string()]);
    assert!(c.tools.missing.is_empty() && c.tools.extra.is_empty() && c.tools.hit_drift.is_empty());
}

#[test]
fn hole_class_report_groups_by_class_and_span() {
    let hits = vec![
        hit(DrillHitKind::Via, 1, 300_000, 1, 4),
        hit(DrillHitKind::ComponentPad, 2, 1_000_000, 4, 1),
        hit(DrillHitKind::Via, 3, 300_000, 2, 1),
        hit(DrillHitKind::Via, 4, 200_000, 2, 3),
    ];
    let r = report_native_project_drill_hole_classes(&hits, &[4, 1, 2, 3]);
    assert_eq!(r.copper_layer_count, 4);
    assert_eq!(r.via_count, 3);
    assert_eq!(r.component_pad_count, 1);
    assert_eq!(r.hit_count, 4);
    assert_eq!(r.class_count, 3);
    let names: Vec<(&str, i32, i32)> =
        r.classes.iter().map(|b| (b.class.as_str(), b.from_layer, b.to_layer)).collect();
    assert_eq!(names, vec![("blind", 1, 2), ("buried", 2, 3), ("through", 1, 4)]);
    let through = &r.classes[2];
    assert_eq!(through.via_count, 1);
    assert_eq!(through.component_pad_count, 1);
    assert_eq!(through.hit_count, 2);
    assert_eq!(through.tool_count, 2);
    assert_eq!(through.tools, vec![tool("T01", "0.300000", 1), tool("T02", "1.000000", 1)]);
}

#[test]
fn hole_classes_without_copper_layers_are_unclassified() {
    let hits = vec![hit(DrillHitKind::Via, 1, 300_000, 1, 4), hit(DrillHitKind::Via, 2, 300_000, 2, 3)];
    let r = report_native_project_drill_hole_classes(&hits, &[]);
    assert_eq!(r.class_count, 2);
    assert!(r.classes.iter().all(|b| b.class == "unclassified"));
}

#[test]
fn manufacturing_report_counts() {
    let hits = vec![
        hit(DrillHitKind::Via, 1, 300_000, 1, 2),
        hit(DrillHitKind::ComponentPad, 2, 900_000, 1, 2),
    ];
    let r = report_native_project_manufacturing(5, 1, &hits, &[1, 2], 7);
    assert_eq!(r.bom_component_count, 5);
    assert_eq!(r.pnp_component_count, 5);
    assert_eq!(r.drill_csv_row_count, 1);
    assert_eq!(r.excellon_via_count, 1);
    assert_eq!(r.excellon_component_pad_count, 1);
    assert_eq!(r.excellon_hit_count, 2);
    assert_eq!(r.drill_hole_class_count, 1);
    assert_eq!(r.gerber_artifact_count, 7);
}

#[test]
fn exported_drill_csv_validates_against_its_board() {
    let vias = vec![via(9, 50, 0), via(8, 10, 0)];
    let exported = render_expected_native_project_drill_csv(vias.clone());
    let v = validate_native_project_drill(vias.clone(), &exported);
    assert!(v.matches_expected);
    assert_eq!(v.expected_bytes, exported.len());
    assert_eq!(v.actual_bytes, exported.len());
    let edited = format!("{exported}é");
    let v = validate_native_project_drill(vias, &edited);
    assert!(!v.matches_expected);
    assert_eq!(v.actual_bytes, exported.len() + 2);
}

#[test]
fn excellon_tools_account_for_every_hit() {
    let sizes: [i64; 7] = [800000, 300000, 1200000, 300000, 800000, 300000, 450000];
    let hits: Vec<DrillHit> = sizes
        .iter()
        .enumerate()
        .map(|(i, d)| hit(DrillHitKind::Via, i as u128 + 1, *d, 1, 4))
        .collect();
    let tools = build_excellon_tool_views_for_drill_hits(&hits);
    let names: Vec<&str> = tools.iter().map(|t| t.tool.as_str()).collect();
    assert_eq!(names, vec!["T01", "T02", "T03", "T04"]);
    let diameters: Vec<&str> = tools.iter().map(|t| t.diameter_mm.as_str()).collect();
    assert_eq!(diameters, vec!["0.300000", "0.450000", "0.800000", "1.200000"]);
    assert_eq!(tools.iter().map(|t| t.hits).sum::<usize>(), hits.len());
}
