use eda_cli_core::geometry::Point;
use eda_cli_core::gerber::ParsedGerberAperture;
use eda_cli_core::gerber_entries::PadFlash;
use eda_cli_core::inventory::{
    InventoryRow, NativeBomRow, NativePnpRow, PlacedComponent, compare_native_project_bom,
    compare_native_project_pnp, component_to_bom_row, component_to_pnp_row,
};
use eda_cli_core::manufacturing::{
    OutputDirChoice, OutputJobAction, OutputJobEvent, OutputJobPhase, choose_output_dir,
    count_gerber_artifacts, output_job_include_scope, plan_manufacturing_set_files,
    run_native_project_output_job,
};
use eda_cli_core::stackup::{
    LayerContextError, LayeredPad, StackupLayer, StackupLayerType, arc_segment_angles,
    circle_segment_angles, nearest_copper_layer, polygon_strokes, polyline_strokes,
    resolve_native_project_paste_context, resolve_native_project_soldermask_context,
    resolve_silkscreen_layer, SilkscreenText, silkscreen_texts_on_layer,
};

use eda_cli_core::manufacturing::ManufacturingInclude as I;
use eda_cli_core::manufacturing::{
    IncludeError, OutputJobLookupError, OutputJobRunStatus, find_output_job_by_name, includes_gerber_set,
    manufacturing_projection_entries, manufacturing_scope_include, manufacturing_scope_prefix,
    next_output_job_run_sequence, output_job_run_status_name, parse_manufacturing_include,
};
use eda_cli_core::manufacturing::OutputJobAction as A;
use eda_cli_core::manufacturing::OutputJobEvent as E;
use eda_cli_core::manufacturing::OutputJobPhase as P;

fn s(v: &str) -> String {
    v.to_string()
}

fn p(x: i64, y: i64) -> Point {
    Point { x, y }
}

fn component(reference: &str, layer: i32) -> PlacedComponent {
    PlacedComponent {
        reference: s(reference),
        value: s("10k"),
        part: 0x11,
        package: 0x22,
        layer,
        x_nm: 1000,
        y_nm: 2000,
        rotation_deg: 90,
        locked: false,
    }
}

#[test]
fn bom_and_pnp_rows_of_a_component() {
    let c = component("R1", 1);
    let bom = component_to_bom_row(&c);
    assert_eq!(bom.reference, "R1");
    assert_eq!(bom.part_uuid, "00000000-0000-0000-0000-000000000011");
    assert_eq!(bom.package_uuid, "00000000-0000-0000-0000-000000000022");
    assert_eq!(bom.rotation_deg, 90);
    let pnp = component_to_pnp_row(&c);
    assert_eq!(pnp.side, "top");
    assert_eq!(pnp.x_nm, 1000);
    assert_eq!(component_to_pnp_row(&component("R2", 31)).side, "bottom");
    assert_eq!(component_to_pnp_row(&component("R3", 16)).side, "top");
}

#[test]
fn bom_fields_that_differ_are_named_in_order() {
    let a = component_to_bom_row(&component("R1", 1));
    let mut b = component_to_bom_row(&component("R1", 1));
    assert!(a.diff_fields(&b).is_empty());
    b.locked = true;
    b.y_nm = 5;
    b.value = s("22k");
    assert_eq!(a.diff_fields(&b), vec![s("value"), s("position"), s("locked")]);
}

#[test]
fn pnp_fields_that_differ_are_named_in_order() {
    let a = component_to_pnp_row(&component("R1", 1));
    let b = component_to_pnp_row(&component("R1", 31));
    assert_eq!(a.diff_fields(&b), vec![s("layer"), s("side")]);
}

#[test]
fn bom_comparison() {
    let expected: Vec<NativeBomRow> =
        ["R1", "R2", "R3"].iter().map(|r| component_to_bom_row(&component(r, 1))).collect();
    let mut actual: Vec<NativeBomRow> =
        ["R3", "R1", "R9"].iter().map(|r| component_to_bom_row(&component(r, 1))).collect();
    actual[0].rotation_deg = 180;
    let c = compare_native_project_bom(&expected, &actual);
    assert_eq!(c.expected_count, 3);
    assert_eq!(c.actual_count, 3);
    assert_eq!(c.matched, vec![s("R1")]);
    assert_eq!(c.missing, vec![s("R2")]);
    assert_eq!(c.extra, vec![s("R9")]);
    assert_eq!(c.drift.len(), 1);
    assert_eq!(c.drift[0].reference, "R3");
    assert_eq!(c.drift[0].fields, vec![s("rotation_deg")]);
}

#[test]
fn pnp_compared_with_itself_matches_everywhere() {
    let rows: Vec<NativePnpRow> =
        ["U2", "C1", "U1"].iter().map(|r| component_to_pnp_row(&component(r, 1))).collect();
    let c = compare_native_project_pnp(&rows, &rows);
    assert_eq!(c.matched, vec![s("C1"), s("U1"), s("U2")]);
    assert!(c.missing.is_empty() && c.extra.is_empty() && c.drift.is_empty());
}

fn stackup() -> Vec<StackupLayer> {
    let l = |id: i32, t: StackupLayerType| StackupLayer { id, layer_type: t };
    vec![
        l(1, StackupLayerType::Silkscreen),
        l(2, StackupLayerType::Paste),
        l(3, StackupLayerType::SolderMask),
        l(4, StackupLayerType::Copper),
        l(5, StackupLayerType::Dielectric),
        l(6, StackupLayerType::Copper),
        l(7, StackupLayerType::SolderMask),
        l(8, StackupLayerType::Mechanical),
    ]
}

fn pad(layer: i32, x: i64) -> LayeredPad {
    LayeredPad { layer, pad: PadFlash { aperture: ParsedGerberAperture::Circle { diameter_nm: 500 }, position: p(x, 0) } }
}

#[test]
fn nearest_copper_layer_prefers_the_smaller_id_on_a_tie() {
    let st = stackup();
    assert_eq!(nearest_copper_layer(&st, 3), Some(4));
    assert_eq!(nearest_copper_layer(&st, 7), Some(6));
    assert_eq!(nearest_copper_layer(&st, 5), Some(4));
    assert_eq!(nearest_copper_layer(&st[..3], 3), None);
}

#[test]
fn paste_and_soldermask_contexts() {
    let st = stackup();
    let pads = vec![pad(4, 1), pad(6, 2), pad(4, 3)];
    let c = resolve_native_project_paste_context(&st, 2, &pads).unwrap();
    assert_eq!(c.layer.id, 2);
    assert_eq!(c.copper_layer, 4);
    assert_eq!(c.pads, vec![pad(4, 1), pad(4, 3)]);
    let c = resolve_native_project_soldermask_context(&st, 7, &pads).unwrap();
    assert_eq!(c.copper_layer, 6);
    assert_eq!(c.pads, vec![pad(6, 2)]);
    assert_eq!(
        resolve_native_project_paste_context(&st, 3, &pads).err(),
        Some(LayerContextError::WrongLayerType)
    );
    assert_eq!(
        resolve_native_project_soldermask_context(&st, 42, &pads).err(),
        Some(LayerContextError::LayerNotFound)
    );
    assert_eq!(
        resolve_native_project_paste_context(&st[..3], 2, &pads).err(),
        Some(LayerContextError::NoCopperLayer)
    );
}

#[test]
fn silkscreen_layer() {
    let st = stackup();
    assert_eq!(resolve_silkscreen_layer(&st, 1).unwrap().id, 1);
    assert_eq!(resolve_silkscreen_layer(&st, 4), Err(LayerContextError::WrongLayerType));
    assert_eq!(resolve_silkscreen_layer(&st, 99), Err(LayerContextError::LayerNotFound));
}

#[test]
fn outline_strokes() {
    let pts = vec![p(0, 0), p(10, 0), p(10, 10)];
    let open = polyline_strokes(&pts, 150);
    assert_eq!(open.len(), 2);
    assert_eq!((open[1].from, open[1].to, open[1].width_nm), (p(10, 0), p(10, 10), 150));
    let closed = polygon_strokes(&pts, 150);
    assert_eq!(closed.len(), 3);
    assert_eq!((closed[2].from, closed[2].to), (p(10, 10), p(0, 0)));
    assert!(polyline_strokes(&pts[..1], 150).is_empty());
    assert!(polygon_strokes(&pts[..1], 150).is_empty());
}

#[test]
fn arc_angles_cut_in_steps_of_at_most_fifteen_degrees() {
    assert_eq!(arc_segment_angles(0, 900), vec![0, 150, 300, 450, 600, 750, 900]);
    assert_eq!(arc_segment_angles(0, 100), vec![0, 100]);
    assert_eq!(arc_segment_angles(0, 155), vec![0, 77, 155]);
    let full = arc_segment_angles(450, 450);
    assert_eq!(full.len(), 25);
    assert_eq!(full[0], 450);
    assert_eq!(full[24], 4050);
    let back = arc_segment_angles(900, 0);
    assert_eq!(back.len(), 19);
    assert_eq!(back[18], 3600);
    assert_eq!(arc_segment_angles(0, -5000), vec![0, -1400]);
}

#[test]
fn circle_angles() {
    let a = circle_segment_angles();
    assert_eq!(a.len(), 25);
    assert_eq!(a[1], 150);
    assert_eq!(a[24], 3600);
}

#[test]
fn manufacturing_set_files() {
    let kinds = vec![s("pnp"), s("gerber_copper"), s("excellon_drill"), s("bom")];
    let files = plan_manufacturing_set_files("demo", &kinds);
    let got: Vec<(String, String)> = files.iter().map(|f| (f.kind.clone(), f.file_name.clone())).collect();
    assert_eq!(
        got,
        vec![
            (s("bom"), s("demo-bom.csv")),
            (s("pnp"), s("demo-pnp.csv")),
            (s("drill_csv"), s("demo-drill.csv")),
            (s("excellon_drill"), s("demo-drill.drl")),
        ]
    );
    assert!(plan_manufacturing_set_files("demo", &[s("gerber_copper")]).is_empty());
}

#[test]
fn gerber_artifacts_and_include_scope() {
    let kinds = vec![s("gerber_copper"), s("bom"), s("gerber_outline"), s("gerber")];
    assert_eq!(count_gerber_artifacts(&kinds), 2);
    assert_eq!(output_job_include_scope(&kinds), "gerber_copper,bom,gerber_outline,gerber");
    assert_eq!(output_job_include_scope(&[]), "");
    assert_eq!(output_job_include_scope(&[s("bom")]), "bom");
}

#[test]
fn output_dir_choice() {
    assert_eq!(choose_output_dir(true, true), OutputDirChoice::Given);
    assert_eq!(choose_output_dir(false, true), OutputDirChoice::JobDirectory);
    assert_eq!(choose_output_dir(false, false), OutputDirChoice::ProjectDefault);
}

#[test]
fn output_job_runs() {
    assert_eq!(run_native_project_output_job(P::Start, E::JobFound { include_count: 0 }), (P::Finished, A::RejectNoIncludes));
    assert_eq!(run_native_project_output_job(P::Start, E::JobFound { include_count: 2 }), (P::CheckingGate, A::CheckGate));
    assert_eq!(
        run_native_project_output_job(P::CheckingGate, E::GateChecked { active_error_count: 1 }),
        (P::Finished, A::RecordGateFailure)
    );
    assert_eq!(
        run_native_project_output_job(P::CheckingGate, E::GateChecked { active_error_count: 0 }),
        (P::Generating, A::GenerateArtifacts)
    );
    let gen = |succeeded, generated_count, existing_run| E::ArtifactsGenerated { succeeded, generated_count, existing_run };
    assert_eq!(run_native_project_output_job(P::Generating, gen(false, 0, false)), (P::Finished, A::RecordGenerationFailure));
    assert_eq!(run_native_project_output_job(P::Generating, gen(true, 1, true)), (P::Finished, A::ReuseRecordedRun));
    assert_eq!(run_native_project_output_job(P::Generating, gen(true, 2, true)), (P::Finished, A::RecordSuccess));
    assert_eq!(run_native_project_output_job(P::Generating, gen(true, 1, false)), (P::Finished, A::RecordSuccess));
    assert_eq!(run_native_project_output_job(P::Start, E::GateChecked { active_error_count: 0 }), (P::Start, A::Ignore));
}

#[test]
fn manufacturing_scopes_are_read_in_order_once_each() {

    assert_eq!(parse_manufacturing_include("bom, pnp,,bom"), Ok(vec![I::Bom, I::Pnp]));
    assert_eq!(parse_manufacturing_include("all"), Ok(vec![I::ManufacturingSet]));
    assert_eq!(parse_manufacturing_include("gerber-set,drill"), Ok(vec![I::GerberSet, I::Drill]));
    assert_eq!(parse_manufacturing_include(" , "), Err(IncludeError::Empty));
    assert_eq!(
        parse_manufacturing_include("bom,Gerber"),
        Err(IncludeError::Unsupported { scope: s("Gerber") })
    );
}

#[test]
fn manufacturing_scope_choices() {
    assert_eq!(manufacturing_scope_include(Some("pnp"), Some(&[I::Bom][..])), Ok(vec![I::Pnp]));
    assert_eq!(manufacturing_scope_include(None, Some(&[I::Bom, I::Drill][..])), Ok(vec![I::Bom, I::Drill]));
    assert_eq!(manufacturing_scope_include(None, None), Ok(vec![I::ManufacturingSet]));
    assert_eq!(manufacturing_scope_include(Some(""), None), Err(IncludeError::Empty));
    assert_eq!(manufacturing_scope_prefix(Some("Run A"), Some("job"), "Board"), "run-a");
    assert_eq!(manufacturing_scope_prefix(None, Some("Job B"), "Board"), "job-b");
    assert_eq!(manufacturing_scope_prefix(None, None, "Main Board"), "main-board");
}

#[test]
fn manufacturing_manifest_entries() {
    let gerber = vec![(s("copper_top"), s("demo-F_Cu.gbr")), (s("outline"), s("demo-Edge.gbr"))];
    let got: Vec<(String, String, String)> = manufacturing_projection_entries("demo", &[I::Pnp, I::GerberSet], &gerber)
        .into_iter()
        .map(|e| (e.kind, e.filename, e.contract))
        .collect();
    assert_eq!(
        got,
        vec![
            (s("pnp"), s("demo-pnp.csv"), s("semantic")),
            (s("gerber_copper_top"), s("demo-F_Cu.gbr"), s("semantic")),
            (s("gerber_outline"), s("demo-Edge.gbr"), s("semantic")),
        ]
    );
    let all = manufacturing_projection_entries("x", &[I::ManufacturingSet], &[]);
    let kinds: Vec<&str> = all.iter().map(|e| e.kind.as_str()).collect();
    assert_eq!(kinds, vec!["bom", "pnp", "drill_csv", "excellon_drill"]);
    assert_eq!(all[2].contract, "strict");
    assert!(manufacturing_projection_entries("x", &[I::Drill], &gerber).iter().all(|e| !e.kind.starts_with("gerber_")));
    assert!(includes_gerber_set(&[I::ManufacturingSet]));
    assert!(includes_gerber_set(&[I::Bom, I::GerberSet]));
    assert!(!includes_gerber_set(&[I::Bom]));
}

#[test]
fn output_job_runs_and_lookup() {
    assert_eq!(output_job_run_status_name(OutputJobRunStatus::Canceled), "canceled");
    assert_eq!(output_job_run_status_name(OutputJobRunStatus::Succeeded), "succeeded");
    assert_eq!(next_output_job_run_sequence(&[(1, 3), (2, 9), (1, 5), (1, 4)], 1), 6);
    assert_eq!(next_output_job_run_sequence(&[(2, 9)], 1), 1);
    let jobs = vec![(1u128, s("gerbers")), (2, s("fab")), (3, s("fab"))];
    assert_eq!(find_output_job_by_name(&jobs, "gerbers"), Ok(1));
    assert_eq!(find_output_job_by_name(&jobs, "fab"), Err(OutputJobLookupError::Ambiguous { count: 2 }));
    assert_eq!(find_output_job_by_name(&jobs, "none"), Err(OutputJobLookupError::NotFound));
}

fn silk_text(text: &str, x: i64, layer: i32) -> SilkscreenText {
    SilkscreenText {
        text: text.to_string(),
        position: Point { x, y: 0 },
        rotation: 90,
        height_nm: 1_000_000,
        stroke_width_nm: 150_000,
        layer,
    }
}

#[test]
fn silkscreen_texts_keep_layer_in_board_then_component_order() {
    let board = vec![silk_text("B1", 1, 3), silk_text("B2", 2, 5), silk_text("B3", 3, 3)];
    let components = vec![silk_text("R1", 4, 5), silk_text("R2", 5, 3)];
    let texts = silkscreen_texts_on_layer(&board, &components, 3);
    assert_eq!(texts, vec![silk_text("B1", 1, 3), silk_text("B3", 3, 3), silk_text("R2", 5, 3)]);
    assert!(silkscreen_texts_on_layer(&board, &components, 9).is_empty());
}
