use eda_cli_core::export_names::sanitize_export_prefix;
use eda_cli_core::footprint_import::{FootprintImportKind, plan_kicad_footprint_import, project_references_pool};
use eda_cli_core::part_edits::{
    EditMode, ParametricError, PartMetadataError, PartMetadataUpdate, ThermalEdit, list_additions,
    normalize_thermal_reference, parse_edit_mode, parse_parametric_entries, plan_supply_chain_edit,
    plan_thermal_edit, validate_part_metadata_update,
};
use eda_cli_core::ids::{hex_of_bytes, sha256_hex};
use eda_cli_core::imports::{
    ImportIdentity, RootSheetError, SheetTarget, SheetTargetError, count_reused_identities,
    created_object_count, imported_root_sheet, schematic_import_target_sheet, total_count,
};
use eda_cli_core::library::{
    DimensionError, ModelNameError, ModelPathError, PinTypeError, PoolPathError, names_parent,
    normalize_model_names, normalize_optional_string, positive_required_dimension,
    resolve_pin_electrical_type, validate_model_path, validate_optional_positive_height,
    validate_part_lifecycle, validate_pin_electrical_type, validate_pool_library_object_kind,
    validate_project_local_pool_path,
};
use eda_cli_core::pool::{
    PoolPathIssue, ValidationIssue, model_blob_hash_matches, parse_model_blob_filename,
    resolve_native_project_pool_path, validate_pool_path,
};

fn s(v: &str) -> String {
    v.to_string()
}

const ABC_SHA256: &str = "ba7816bf8f01cfea414140de5dae2223b00361a396177a9cb410ff61f20015ad";
const EMPTY_SHA256: &str = "e3b0c44298fc1c149afbf4c8996fb92427ae41e4649b934ca495991b7852b855";

#[test]
fn sha256_of_known_inputs() {
    assert_eq!(sha256_hex(b"abc"), ABC_SHA256);
    assert_eq!(sha256_hex(b""), EMPTY_SHA256);
}

#[test]
fn hex_of_bytes_is_lowercase_two_digits_per_byte() {
    assert_eq!(hex_of_bytes(&[0x00, 0x0f, 0xa5, 0xff]), "000fa5ff");
    assert_eq!(hex_of_bytes(&[]), "");
}

#[test]
fn model_names_are_trimmed_in_order() {
    let r = normalize_model_names(vec![s("  top "), s("bottom")]);
    assert_eq!(r, Ok(vec![s("top"), s("bottom")]));
    assert_eq!(normalize_model_names(vec![]), Ok(vec![]));
}

#[test]
fn model_names_refuse_blank_and_duplicates() {
    assert_eq!(normalize_model_names(vec![s("a"), s("   ")]), Err(ModelNameError::Empty));
    assert_eq!(
        normalize_model_names(vec![s("a"), s("b"), s(" a ")]),
        Err(ModelNameError::Duplicate { name: s("a") })
    );
    // the first problem in order wins
    assert_eq!(normalize_model_names(vec![s("x"), s(" x"), s("")]), Err(ModelNameError::Duplicate { name: s("x") }));
}

#[test]
fn optional_strings_are_trimmed_and_blank_dropped() {
    assert_eq!(normalize_optional_string(Some(s("  v1 "))), Some(s("v1")));
    assert_eq!(normalize_optional_string(Some(s("   "))), None);
    assert_eq!(normalize_optional_string(None), None);
}

#[test]
fn project_local_pool_paths() {
    assert_eq!(validate_project_local_pool_path("pool"), Ok(()));
    assert_eq!(validate_project_local_pool_path("./libs/pool"), Ok(()));
    assert_eq!(validate_project_local_pool_path("  "), Err(PoolPathError::EmptyOrAbsolute));
    assert_eq!(validate_project_local_pool_path("/abs/pool"), Err(PoolPathError::EmptyOrAbsolute));
    assert_eq!(validate_project_local_pool_path("libs/../pool"), Err(PoolPathError::ParentDirectory));
    assert_eq!(validate_project_local_pool_path(".."), Err(PoolPathError::ParentDirectory));
}

#[test]
fn parent_components_are_whole_components() {
    let c: Vec<char> = "a/..b/c".chars().collect();
    assert!(!names_parent(&c));
    let c: Vec<char> = "a/../c".chars().collect();
    assert!(names_parent(&c));
}

#[test]
fn pool_object_kinds() {
    for k in ["units", "symbols", "entities", "parts", "packages", "footprints", "padstacks", "pin_pad_maps"] {
        assert_eq!(validate_pool_library_object_kind(k), Ok(()));
    }
    assert_eq!(validate_pool_library_object_kind("boards"), Err(()));
    assert_eq!(validate_pool_library_object_kind("Units"), Err(()));
}

#[test]
fn dimensions_must_be_positive() {
    assert_eq!(positive_required_dimension(Some(5)), Ok(5));
    assert_eq!(positive_required_dimension(Some(0)), Err(DimensionError::NotPositive));
    assert_eq!(positive_required_dimension(Some(-3)), Err(DimensionError::NotPositive));
    assert_eq!(positive_required_dimension(None), Err(DimensionError::Required));
    assert_eq!(validate_optional_positive_height(None), Ok(()));
    assert_eq!(validate_optional_positive_height(Some(1)), Ok(()));
    assert_eq!(validate_optional_positive_height(Some(0)), Err(()));
}

#[test]
fn part_lifecycles() {
    for l in ["Active", "Nrnd", "Eol", "Obsolete", "Unknown"] {
        assert_eq!(validate_part_lifecycle(s(l)), Ok(s(l)));
    }
    assert!(validate_part_lifecycle(s("active")).is_err());
    assert!(validate_part_lifecycle(s("")).is_err());
}

#[test]
fn model_paths() {
    assert_eq!(validate_model_path("  models/part.step "), Ok(s("models/part.step")));
    assert_eq!(validate_model_path("a/./b.step"), Ok(s("a/./b.step")));
    assert_eq!(validate_model_path("   "), Err(ModelPathError::Empty));
    assert_eq!(validate_model_path("/abs.step"), Err(ModelPathError::Absolute));
    assert_eq!(validate_model_path("./a.step"), Err(ModelPathError::SpecialComponent));
    assert_eq!(validate_model_path("a/../b.step"), Err(ModelPathError::SpecialComponent));
}

#[test]
fn pin_electrical_types() {
    assert_eq!(validate_pin_electrical_type(s("Input")), Ok(s("Input")));
    assert_eq!(validate_pin_electrical_type(s("PowerIn")), Ok(s("PowerIn")));
    assert_eq!(validate_pin_electrical_type(s("input")), Err(PinTypeError::Unsupported));
    assert_eq!(resolve_pin_electrical_type(None, None), Ok(s("Passive")));
    assert_eq!(resolve_pin_electrical_type(Some(s("Output")), None), Ok(s("Output")));
    assert_eq!(resolve_pin_electrical_type(None, Some(s("TriState"))), Ok(s("TriState")));
    assert_eq!(
        resolve_pin_electrical_type(Some(s("Output")), Some(s("Output"))),
        Ok(s("Output"))
    );
    assert_eq!(
        resolve_pin_electrical_type(Some(s("Output")), Some(s("Input"))),
        Err(PinTypeError::Conflicting)
    );
    assert_eq!(resolve_pin_electrical_type(Some(s("Bogus")), None), Err(PinTypeError::Unsupported));
}

#[test]
fn export_prefix_is_lowercase_dashed() {
    assert_eq!(sanitize_export_prefix("Main Board (Rev A)"), "main-board-rev-a");
    assert_eq!(sanitize_export_prefix("--x__y--"), "x-y");
    assert_eq!(sanitize_export_prefix("***"), "");
    assert_eq!(sanitize_export_prefix(""), "");
    assert_eq!(sanitize_export_prefix("Ünïcode 42"), "n-code-42");
}

#[test]
fn export_prefix_is_idempotent() {
    let once = sanitize_export_prefix("  Hello,  World!! v2 ");
    assert_eq!(once, "hello-world-v2");
    assert_eq!(sanitize_export_prefix(&once), once);
}

#[test]
fn model_blob_file_names() {
    let name = format!("{ABC_SHA256}.step");
    assert_eq!(parse_model_blob_filename(&name), Some((s(ABC_SHA256), s("step"))));
    let name = format!("{ABC_SHA256}.tar.gz");
    assert_eq!(parse_model_blob_filename(&name), None);
    assert_eq!(parse_model_blob_filename("abc.step"), None);
    let name = format!("{ABC_SHA256}.");
    assert_eq!(parse_model_blob_filename(&name), None);
    assert_eq!(parse_model_blob_filename("noext"), None);
    let bad = format!("{}g.step", &ABC_SHA256[..63]);
    assert_eq!(parse_model_blob_filename(&bad), None);
}

#[test]
fn model_blob_hashes() {
    assert!(model_blob_hash_matches(ABC_SHA256, b"abc"));
    assert!(!model_blob_hash_matches(ABC_SHA256, b"abd"));
    assert!(!model_blob_hash_matches(&ABC_SHA256.to_uppercase(), b"abc"));
}

#[test]
fn pool_path_issues_are_recorded() {
    let mut issues: Vec<ValidationIssue> = Vec::new();
    assert_eq!(validate_pool_path("pool", true, true, &mut issues), None);
    assert!(issues.is_empty());
    assert_eq!(validate_pool_path(" ", true, true, &mut issues), Some(PoolPathIssue::Empty));
    assert_eq!(validate_pool_path("a/../b", true, true, &mut issues), Some(PoolPathIssue::ParentDirectory));
    assert_eq!(validate_pool_path("pool", false, false, &mut issues), Some(PoolPathIssue::Missing));
    assert_eq!(validate_pool_path("pool", true, false, &mut issues), Some(PoolPathIssue::NotDirectory));
    assert_eq!(issues.len(), 4);
    assert_eq!(issues[0].code, "invalid_pool_path");
    assert_eq!(issues[0].subject, " ");
    assert_eq!(issues[2].code, "missing_pool_directory");
    assert_eq!(issues[2].severity, "error");
    assert_eq!(issues[2].message, "declared pool path does not exist");
    assert_eq!(issues[3].message, "pool path exists but is not a directory");
    assert_eq!(issues[0].message, "pool path must be non-empty");
    assert_eq!(issues[1].message, "pool path must not contain parent-directory components");
}

#[test]
fn pool_paths_resolve_under_the_root() {
    assert_eq!(resolve_native_project_pool_path("/proj", "pool"), "/proj/pool");
    assert_eq!(resolve_native_project_pool_path("/proj/", "pool"), "/proj/pool");
    assert_eq!(resolve_native_project_pool_path("/proj", "/shared/pool"), "/shared/pool");
}

#[test]
fn import_totals() {
    assert_eq!(total_count(&[3, 0, 4]), 7);
    assert_eq!(total_count(&[]), 0);
    assert_eq!(created_object_count(5, true), 6);
    assert_eq!(created_object_count(5, false), 5);
}

#[test]
fn reused_identities_need_a_written_object_and_a_known_key() {
    let ids = vec![
        ImportIdentity { object_id: 1, import_key: s("k1") },
        ImportIdentity { object_id: 2, import_key: s("k2") },
        ImportIdentity { object_id: 3, import_key: s("k3") },
    ];
    let written = [1u128, 3];
    let known = vec![s("k1"), s("k2")];
    assert_eq!(count_reused_identities(&ids, &written, &known), 1);
    assert_eq!(count_reused_identities(&ids, &[], &known), 0);
}

fn id_text(n: u128) -> String {
    format!("00000000-0000-0000-0000-{:012x}", n)
}

#[test]
fn footprint_import_writes_everything_for_a_new_footprint() {
    let steps = plan_kicad_footprint_import("pool", &[s("other")], false, 0x10, 0x20, &[0x1, 0x2]).unwrap();
    let got: Vec<(FootprintImportKind, Option<u128>, String)> =
        steps.into_iter().map(|st| (st.kind, st.object_id, st.relative_path)).collect();
    assert_eq!(
        got,
        vec![
            (FootprintImportKind::AddPoolRef, None, s("pool")),
            (FootprintImportKind::CreatePadstack, Some(1), format!("pool/padstacks/{}.json", id_text(1))),
            (FootprintImportKind::CreatePadstack, Some(2), format!("pool/padstacks/{}.json", id_text(2))),
            (FootprintImportKind::CreatePackage, Some(0x10), format!("pool/packages/{}.json", id_text(0x10))),
            (FootprintImportKind::CreateFootprint, Some(0x20), format!("pool/footprints/{}.json", id_text(0x20))),
            (
                FootprintImportKind::CreateImportMap,
                Some(0x10),
                format!(".datum/import_map/kicad-footprint-{}.json", id_text(0x10))
            ),
        ]
    );
}

#[test]
fn footprint_import_reusing_an_identity_writes_only_the_pool_reference() {
    let steps = plan_kicad_footprint_import("pool", &[], true, 1, 2, &[3]).unwrap();
    assert_eq!(steps.len(), 1);
    assert_eq!(steps[0].kind, FootprintImportKind::AddPoolRef);
    let steps = plan_kicad_footprint_import("pool", &[s("pool")], true, 1, 2, &[3]).unwrap();
    assert!(steps.is_empty());
    let steps = plan_kicad_footprint_import("pool", &[s("pool")], false, 1, 2, &[]).unwrap();
    assert_eq!(steps.len(), 3);
    assert_eq!(steps[0].kind, FootprintImportKind::CreatePackage);
}

#[test]
fn footprint_import_refuses_bad_pool_paths() {
    assert_eq!(plan_kicad_footprint_import("/abs", &[], false, 1, 2, &[]).err(), Some(PoolPathError::EmptyOrAbsolute));
    assert_eq!(plan_kicad_footprint_import("a/../b", &[], false, 1, 2, &[]).err(), Some(PoolPathError::ParentDirectory));
    assert!(project_references_pool(&[s("a"), s("pool")], "pool"));
    assert!(!project_references_pool(&[s("a")], "pool"));
}

#[test]
fn edit_modes() {
    assert_eq!(parse_edit_mode("merge"), Some(EditMode::Merge));
    assert_eq!(parse_edit_mode("replace"), Some(EditMode::Replace));
    assert_eq!(parse_edit_mode("Merge"), None);
    assert_eq!(parse_edit_mode(""), None);
}

#[test]
fn merged_list_values_append_only_what_is_new() {
    let existing = vec![s("a"), s("b")];
    assert_eq!(list_additions(&existing, &[s("b"), s("c"), s("c"), s("d")]), vec![s("c"), s("d")]);
    assert!(list_additions(&existing, &[]).is_empty());
    assert_eq!(list_additions(&[], &[s("x")]), vec![s("x")]);
}

#[test]
fn merging_twice_appends_nothing_more() {
    let mut field = vec![s("a")];
    let new = vec![s("b"), s("a"), s("c")];
    let added = list_additions(&field, &new);
    field.extend(added);
    assert_eq!(field, vec![s("a"), s("b"), s("c")]);
    assert!(list_additions(&field, &new).is_empty());
}

#[test]
fn parametric_entries() {
    let r = parse_parametric_entries(&[s(" tol =1%"), s("v=3.3=V")]).unwrap();
    assert_eq!(r, vec![(s("tol"), s("1%")), (s("v"), s("3.3=V"))]);
    assert_eq!(parse_parametric_entries(&[]), Ok(vec![]));
    assert_eq!(parse_parametric_entries(&[s("novalue")]), Err(ParametricError::MissingEquals));
    assert_eq!(parse_parametric_entries(&[s(" =1")]), Err(ParametricError::EmptyKey));
    assert_eq!(
        parse_parametric_entries(&[s("a=1"), s(" a =2")]),
        Err(ParametricError::DuplicateKey { key: s("a") })
    );
    assert_eq!(parse_parametric_entries(&[s("a=1"), s("bad"), s("=2")]), Err(ParametricError::MissingEquals));
}

fn metadata() -> PartMetadataUpdate {
    PartMetadataUpdate {
        mpn: None,
        manufacturer: None,
        manufacturer_jep106: None,
        value: None,
        description: None,
        datasheet: None,
        lifecycle: None,
    }
}

#[test]
fn part_metadata_edits() {
    assert_eq!(validate_part_metadata_update(metadata()), Err(PartMetadataError::NoFields));
    let u = PartMetadataUpdate { mpn: Some(s("RC0603")), lifecycle: Some(s("Active")), ..metadata() };
    assert_eq!(validate_part_metadata_update(u), Ok(PartMetadataUpdate { mpn: Some(s("RC0603")), lifecycle: Some(s("Active")), ..metadata() }));
    let u = PartMetadataUpdate { lifecycle: Some(s("Dead")), manufacturer_jep106: Some(5000), ..metadata() };
    assert_eq!(validate_part_metadata_update(u), Err(PartMetadataError::InvalidLifecycle));
    let u = PartMetadataUpdate { manufacturer_jep106: Some(2048), ..metadata() };
    assert_eq!(validate_part_metadata_update(u), Err(PartMetadataError::InvalidJep106));
    let u = PartMetadataUpdate { manufacturer_jep106: Some(2047), ..metadata() };
    assert!(validate_part_metadata_update(u).is_ok());
}

#[test]
fn thermal_and_supply_chain_edits() {
    assert_eq!(plan_thermal_edit(false, false), None);
    assert_eq!(plan_thermal_edit(true, false), Some(ThermalEdit::Remove));
    assert_eq!(plan_thermal_edit(true, true), Some(ThermalEdit::Rebuild));
    assert_eq!(plan_thermal_edit(false, true), Some(ThermalEdit::Update));
    assert_eq!(normalize_thermal_reference(None), Ok(None));
    assert_eq!(normalize_thermal_reference(Some(s(" JESD51 "))), Ok(Some(s("JESD51"))));
    assert_eq!(normalize_thermal_reference(Some(s("  "))), Err(()));
    assert_eq!(plan_supply_chain_edit(false, None, 0), Err(()));
    assert_eq!(plan_supply_chain_edit(true, None, 0), Ok(None));
    assert_eq!(plan_supply_chain_edit(false, Some(s(" 2024-01-01 ")), 0), Ok(Some(s("2024-01-01"))));
    assert_eq!(plan_supply_chain_edit(false, Some(s("  ")), 0), Ok(None));
    assert_eq!(plan_supply_chain_edit(false, None, 2), Ok(None));
}

#[test]
fn schematic_import_picks_its_native_sheet() {
    let root = 0x0123_4567_89ab_cdef_0123_4567_89ab_cdefu128;
    let root_text = "01234567-89ab-cdef-0123-456789abcdef".to_string();
    let other = "00000000-0000-0000-0000-000000000001".to_string();
    let sheets = vec![(other.clone(), "sheets/a.json".to_string()), (root_text.clone(), "sheets/root.json".to_string())];
    let t = schematic_import_target_sheet(&sheets, root).unwrap();
    assert_eq!(t, SheetTarget { sheet_id: root, relative_path: "sheets/root.json".to_string(), created: false });
    let t = schematic_import_target_sheet(&sheets[..1], root).unwrap();
    assert_eq!(t, SheetTarget { sheet_id: 1, relative_path: "sheets/a.json".to_string(), created: false });
    let bad = vec![("not-a-uuid".to_string(), "x.json".to_string())];
    assert_eq!(schematic_import_target_sheet(&bad, root), Err(SheetTargetError::InvalidSheetId));
    let t = schematic_import_target_sheet(&[], root).unwrap();
    assert_eq!(t, SheetTarget { sheet_id: root, relative_path: format!("sheets/{root_text}.json"), created: true });
}

#[test]
fn imported_root_sheet_prefers_document_uuid_then_first_sheet() {
    assert_eq!(imported_root_sheet(&[3, 7, 9], 7), Ok(7));
    assert_eq!(imported_root_sheet(&[3, 7, 9], 5), Ok(3));
    assert_eq!(imported_root_sheet(&[], 5), Err(RootSheetError::NoSheets));
}

#[test]
fn first_sheet_id_parses_in_every_uuid_form() {
    let forms = [
        "6BA7B811-9DAD-11D1-80B4-00C04FD430C8",
        "6ba7b8119dad11d180b400c04fd430c8",
        "{6ba7b811-9dad-11d1-80b4-00c04fd430c8}",
        "URN:uuid:6ba7b811-9dad-11d1-80b4-00c04fd430c8",
    ];
    for form in forms {
        let sheets = vec![(form.to_string(), "sheets/a.json".to_string())];
        let t = schematic_import_target_sheet(&sheets, 5).unwrap();
        assert_eq!(t.sheet_id, 0x6ba7b811_9dad_11d1_80b4_00c04fd430c8);
    }
    let bad = vec![("6ba7b811-9dad-11d1-80b4_00c04fd430c8".to_string(), "x.json".to_string())];
    assert_eq!(schematic_import_target_sheet(&bad, 5), Err(SheetTargetError::InvalidSheetId));
}
