use eda_cli_core::inspect::{
    BoardObjectCounts, ComponentGraphicMaps, initialize_component_graphic_maps, native_project_inspect_report,
};
use eda_cli_core::pool_models::{
    FoundModelBlob, ModelAttachmentRef, NAMESPACE_URL, PoolModelAttachment, pool_model_views,
};
use sha2::Digest;

fn sha_hex(bytes: &[u8]) -> String {
    sha2::Sha256::digest(bytes).iter().map(|b| format!("{b:02x}")).collect()
}

fn blob(pool: &str, role: &str, file_name: &str, bytes: &[u8]) -> FoundModelBlob {
    FoundModelBlob {
        pool_path: pool.to_string(),
        role: role.to_string(),
        file_name: file_name.to_string(),
        relative_path: format!("{pool}/models/{role}/{file_name}"),
        bytes: bytes.to_vec(),
    }
}

fn attachment(sha: &str, part: u128, id: u128) -> ModelAttachmentRef {
    ModelAttachmentRef {
        sha256: sha.to_string(),
        part_uuid: part,
        attachment_uuid: id,
        relative_path: format!("pool/parts/{part}.json"),
    }
}

#[test]
fn url_namespace_is_the_uuid_crates() {
    assert_eq!(NAMESPACE_URL, uuid::Uuid::NAMESPACE_URL.as_u128());
}

#[test]
fn pool_models_are_filtered_described_and_sorted() {
    let good = sha_hex(b"spice");
    let other = sha_hex(b"ibis");
    let wrong = "0".repeat(64);
    let found = vec![
        blob("pool", "spice", &format!("{good}.lib"), b"spice"),
        blob("pool", "ibis", &format!("{other}.ibs"), b"ibis"),
        blob("pool", "spice", "readme.txt", b"x"),
        blob("pool", "spice", &format!("{wrong}.lib"), b"abc"),
        blob("other", "spice", &format!("{good}.lib"), b"spice"),
    ];
    let refs = vec![attachment(&good, 9, 2), attachment(&other, 1, 1), attachment(&good, 3, 7), attachment(&good, 3, 4)];
    let views = pool_model_views(&found, &refs, None, None, None);
    let keys: Vec<(String, String, String)> =
        views.iter().map(|v| (v.pool_path.clone(), v.role.clone(), v.sha256.clone())).collect();
    let mut expected = vec![
        ("other".to_string(), "spice".to_string(), good.clone()),
        ("pool".to_string(), "ibis".to_string(), other.clone()),
        ("pool".to_string(), "spice".to_string(), wrong.clone()),
        ("pool".to_string(), "spice".to_string(), good.clone()),
    ];
    expected.sort();
    assert_eq!(keys, expected);
    let v = views.iter().find(|v| v.pool_path == "pool" && v.sha256 == good).unwrap();
    assert!(v.hash_matches);
    assert_eq!(v.computed_sha256, good);
    assert_eq!(v.extension, "lib");
    assert_eq!(v.size_bytes, 5);
    assert_eq!(
        v.model_uuid,
        uuid::Uuid::new_v5(&uuid::Uuid::NAMESPACE_URL, format!("datum-eda:pool-model:{good}").as_bytes()).as_u128()
    );
    assert!(v.referenced && !v.orphaned);
    assert_eq!(v.attachment_count, 3);
    let ids: Vec<(u128, u128)> = v.attachments.iter().map(|a| (a.part_uuid, a.attachment_uuid)).collect();
    assert_eq!(ids, vec![(3, 4), (3, 7), (9, 2)]);
    assert_eq!(
        v.attachments[0],
        PoolModelAttachment { part_uuid: 3, attachment_uuid: 4, relative_path: "pool/parts/3.json".to_string() }
    );
    let w = views.iter().find(|v| v.sha256 == wrong).unwrap();
    assert!(!w.hash_matches && !w.referenced && w.orphaned && w.attachment_count == 0);

    let only = pool_model_views(&found, &refs, Some("pool"), Some("spice"), Some(&good));
    assert_eq!(only.len(), 1);
    assert_eq!(only[0].relative_path, format!("pool/models/spice/{good}.lib"));
    assert!(pool_model_views(&found, &refs, Some("none"), None, None).is_empty());
}

fn entries(pairs: &[(&str, usize)]) -> Vec<(String, usize)> {
    pairs.iter().map(|(k, n)| (k.to_string(), *n)).collect()
}

fn empty_maps() -> ComponentGraphicMaps {
    ComponentGraphicMaps {
        silkscreen_texts: vec![],
        silkscreen_lines: vec![],
        silkscreen_arcs: vec![],
        silkscreen_circles: vec![],
        silkscreen_polygons: vec![],
        silkscreen_polylines: vec![],
        mechanical_texts: vec![],
        mechanical_lines: vec![],
        mechanical_arcs: vec![],
        mechanical_circles: vec![],
        mechanical_polygons: vec![],
        mechanical_polylines: vec![],
        pads: vec![],
        models_3d: vec![],
    }
}

#[test]
fn inspect_report_counts_components_and_entries() {
    let mut maps = empty_maps();
    maps.silkscreen_lines = entries(&[("a", 4), ("b", 0), ("orphan", 2)]);
    maps.silkscreen_texts = entries(&[("b", 1)]);
    maps.mechanical_arcs = entries(&[("c", 3)]);
    maps.pads = entries(&[("a", 8), ("c", 0)]);
    maps.models_3d = entries(&[("c", 1)]);
    let counts = BoardObjectCounts {
        sheets: 1,
        sheet_definitions: 2,
        sheet_instances: 3,
        variants: 4,
        board_pads: 5,
        nets: 6,
        tracks: 7,
        vias: 8,
        zones: 9,
        rules: 10,
    };
    let packages = vec!["a".to_string(), "b".to_string(), "c".to_string(), "d".to_string()];
    let r = native_project_inspect_report((1, 2, 3), &["pool".to_string()], &packages, &maps, counts);
    assert_eq!(r.project_uuid, uuid::Uuid::from_u128(1).to_string());
    assert_eq!(r.schematic_uuid, uuid::Uuid::from_u128(2).to_string());
    assert_eq!(r.board_uuid, uuid::Uuid::from_u128(3).to_string());
    assert_eq!((r.pools, r.board_package_count), (1, 4));
    assert_eq!(r.board_components_with_persisted_silkscreen, 2);
    assert_eq!(r.board_components_with_persisted_mechanical, 1);
    assert_eq!(r.board_components_with_persisted_pads, 1);
    assert_eq!(r.board_components_with_persisted_models_3d, 1);
    assert_eq!(r.persisted_component_silkscreen_lines, 6);
    assert_eq!(r.persisted_component_silkscreen_texts, 1);
    assert_eq!(r.persisted_component_mechanical_arcs, 3);
    assert_eq!(r.persisted_component_pads, 8);
    assert_eq!(r.persisted_component_models_3d, 1);
    assert_eq!(r.persisted_component_mechanical_lines, 0);
    assert_eq!(r.counts, counts);
}

#[test]
fn initializing_graphic_maps_adds_empty_entries_once() {
    let mut maps = empty_maps();
    maps.pads = entries(&[("a", 8)]);
    initialize_component_graphic_maps(&mut maps, "a");
    initialize_component_graphic_maps(&mut maps, "a");
    assert_eq!(maps.pads, entries(&[("a", 8)]));
    assert_eq!(maps.silkscreen_lines, entries(&[("a", 0)]));
    assert_eq!(maps.models_3d, entries(&[("a", 0)]));
    initialize_component_graphic_maps(&mut maps, "b");
    assert_eq!(maps.pads, entries(&[("a", 8), ("b", 0)]));
}
