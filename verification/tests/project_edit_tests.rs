use eda_cli_core::forward_annotation_select::{ArtifactHeaderError, ArtifactVersionField, check_forward_annotation_artifact_header};
use eda_cli_core::footprint_import::{FootprintShard, LegacyFootprintError, legacy_target_footprint_for_package};
use eda_cli_core::journal::{
    JournalGuardError, JournalTip, journal_tip_availability, unhealthy_journal_cursor,
    validate_journal_mutation_guard,
};
use eda_cli_core::pool::{GcOutcome, GcSkipReason, PoolModelGcCandidate, plan_pool_model_gc};

fn s(v: &str) -> String {
    v.to_string()
}

fn id(n: u128) -> String {
    format!("00000000-0000-0000-0000-{:012x}", n)
}

#[test]
fn unhealthy_journal_cursors_refuse_mutations() {
    let codes = vec![s("model_ok"), s("journal_cursor_behind"), s("journal_cursor_read_error")];
    assert_eq!(unhealthy_journal_cursor(&codes), Some(1));
    assert_eq!(unhealthy_journal_cursor(&[s("journal_cursor_parse_error")]), Some(0));
    assert_eq!(unhealthy_journal_cursor(&[s("journal_cursor_out_of_range")]), Some(0));
    assert_eq!(unhealthy_journal_cursor(&[s("journal_cursor")]), None);
    assert_eq!(unhealthy_journal_cursor(&[]), None);
}

#[test]
fn journal_guards() {
    assert_eq!(validate_journal_mutation_guard(None, "r1", None, None), Ok(()));
    assert_eq!(validate_journal_mutation_guard(Some("r1"), "r1", Some(7), Some(7)), Ok(()));
    assert_eq!(
        validate_journal_mutation_guard(Some("r0"), "r1", Some(7), Some(8)),
        Err(JournalGuardError::RevisionMismatch)
    );
    assert_eq!(validate_journal_mutation_guard(None, "r1", Some(7), Some(8)), Err(JournalGuardError::TipMismatch));
    assert_eq!(validate_journal_mutation_guard(None, "r1", Some(7), None), Err(JournalGuardError::TipMismatch));
}

#[test]
fn journal_tip() {
    assert_eq!(journal_tip_availability(None), (false, false));
    assert_eq!(journal_tip_availability(Some(JournalTip { has_inverse: true, is_undo: false })), (true, false));
    assert_eq!(journal_tip_availability(Some(JournalTip { has_inverse: true, is_undo: true })), (false, true));
    assert_eq!(journal_tip_availability(Some(JournalTip { has_inverse: false, is_undo: true })), (false, false));
}

fn cand(orphaned: bool, role: &str, hash_matches: bool, is_regular_file: bool) -> PoolModelGcCandidate {
    PoolModelGcCandidate { orphaned, role: s(role), hash_matches, is_regular_file }
}

#[test]
fn model_clean_up_plan() {
    let cands = vec![
        cand(true, "spice", true, true),
        cand(false, "spice", true, true),
        cand(true, "ami", true, true),
        cand(true, "ibis", false, true),
        cand(true, "ibis", true, false),
        cand(true, "touchstone", true, true),
    ];
    let plan = plan_pool_model_gc(&cands, true);
    assert_eq!(
        plan.entries,
        vec![
            (0, GcOutcome::Delete),
            (2, GcOutcome::Skip(GcSkipReason::AmiBundleDeferred)),
            (3, GcOutcome::Skip(GcSkipReason::HashMismatch)),
            (4, GcOutcome::Skip(GcSkipReason::NotRegularFile)),
            (5, GcOutcome::Delete),
        ]
    );
    assert_eq!((plan.planned_count, plan.deleted_count, plan.skipped_count), (5, 2, 3));
    let dry = plan_pool_model_gc(&cands, false);
    assert_eq!(dry.entries[0], (0, GcOutcome::Keep));
    assert_eq!((dry.planned_count, dry.deleted_count, dry.skipped_count), (5, 0, 3));
}

fn shard(footprint: u128, path: &str, package: Option<u128>) -> FootprintShard {
    FootprintShard { footprint, relative_path: s(path), package: package.map(id) }
}

#[test]
fn package_edits_go_to_the_one_footprint_of_the_package() {
    let shards = vec![
        shard(1, "pool/footprints/a.json", Some(9)),
        shard(2, "pool/footprints/b.json", Some(8)),
        shard(3, "other/footprints/c.json", Some(8)),
        shard(4, "pool/footprints/d.json", None),
    ];
    assert_eq!(legacy_target_footprint_for_package("pool", 9, &shards), Ok((1, s("pool/footprints/a.json"))));
    assert_eq!(legacy_target_footprint_for_package("pool", 7, &shards), Err(LegacyFootprintError::NoFootprint));
    let mut more = shards;
    more.push(shard(5, "pool/footprints/e.json", Some(9)));
    assert_eq!(legacy_target_footprint_for_package("pool", 9, &more), Err(LegacyFootprintError::Ambiguous));
    assert_eq!(legacy_target_footprint_for_package("pool", 8, &more), Ok((2, s("pool/footprints/b.json"))));
}

#[test]
fn proposal_artifact_headers() {
    let kind = "native_forward_annotation_proposal_artifact";
    assert_eq!(check_forward_annotation_artifact_header(Some(kind), ArtifactVersionField::Number(1)), Ok(1));
    assert_eq!(check_forward_annotation_artifact_header(None, ArtifactVersionField::Number(1)), Ok(1));
    assert_eq!(
        check_forward_annotation_artifact_header(Some("other"), ArtifactVersionField::Number(1)),
        Err(ArtifactHeaderError::UnsupportedKind)
    );
    assert_eq!(
        check_forward_annotation_artifact_header(Some(kind), ArtifactVersionField::Absent),
        Err(ArtifactHeaderError::UnsupportedVersion { version: 0 })
    );
    assert_eq!(
        check_forward_annotation_artifact_header(Some(kind), ArtifactVersionField::Number(2)),
        Err(ArtifactHeaderError::UnsupportedVersion { version: 2 })
    );
    assert_eq!(
        check_forward_annotation_artifact_header(Some(kind), ArtifactVersionField::Number(1 << 40)),
        Err(ArtifactHeaderError::InvalidVersion)
    );
    assert_eq!(
        check_forward_annotation_artifact_header(None, ArtifactVersionField::Invalid),
        Err(ArtifactHeaderError::InvalidVersion)
    );
}
