use eda_cli_core::forward_annotation::{
    ProposalAction, ReviewAction, can_apply_with_embedded_proposal, check_artifact_apply_plan,
    compare_forward_annotation_proposal_artifact, find_review_decision,
    forward_annotation_apply_required_inputs, forward_annotation_proposal_id,
    forward_annotation_review_listing,
    ReviewError, forward_annotation_review_record, inspect_forward_annotation_proposal_artifact,
    partition_reviewed_actions, plan_forward_annotation_proposal_artifact_apply,
};
use eda_cli_core::forward_annotation_apply::{
    ActionInputError, ApplyRoute, ArtifactApplyFailure, ForwardAnnotationStep, ProposalOperation,
    apply_forward_annotation_proposal_artifact, apply_native_project_forward_annotation_action,
    component_uuid_for_action, execute_native_project_forward_annotation_action,
    forward_annotation_operations,
};
use eda_cli_core::forward_annotation_audit::{
    BoardComponent, SchematicSymbol, forward_annotation_action_id,
    query_native_project_forward_annotation_audit, query_native_project_forward_annotation_proposal,
};
use eda_cli_core::forward_annotation_select::{
    SelectionError, filter_forward_annotation_proposal_artifact,
    select_forward_annotation_proposal_artifact,
};
use eda_cli_core::review_store::{
    ClearReviewError, clear_native_project_forward_annotation_review,
    record_native_project_forward_annotation_review,
};
use sha2::Digest;

fn hex_sha(text: &str) -> String {
    sha2::Sha256::digest(text.as_bytes())
        .iter()
        .map(|b| format!("{b:02x}"))
        .collect()
}

fn uuid(n: u128) -> String {
    uuid::Uuid::from_u128(n).to_string()
}

fn symbol(id: u128, reference: &str, value: &str, part: Option<u128>) -> SchematicSymbol {
    SchematicSymbol {
        uuid: id,
        sheet: 0x5000,
        reference: reference.to_string(),
        value: value.to_string(),
        part_uuid: part,
    }
}

fn component(id: u128, reference: &str, value: &str, part: u128) -> BoardComponent {
    BoardComponent { uuid: id, reference: reference.to_string(), value: value.to_string(), part }
}

fn sample_actions() -> Vec<ProposalAction> {
    let symbols = vec![
        symbol(1, "R1", "10k", Some(0x100)),
        symbol(2, "C1", "100n", Some(0x200)),
        symbol(3, "U1", "MCU", Some(0x300)),
        symbol(4, "R2", "1k", None),
    ];
    let components = vec![
        component(11, "C1", "10n", 0x200),
        component(12, "U1", "MCU", 0x301),
        component(13, "J1", "CONN", 0x400),
    ];
    let audit = query_native_project_forward_annotation_audit(&symbols, &components);
    query_native_project_forward_annotation_proposal(&audit).actions
}

fn action(id: &str, action: &str, reference: &str, reason: &str) -> ProposalAction {
    ProposalAction {
        action_id: id.to_string(),
        action: action.to_string(),
        reference: reference.to_string(),
        symbol_uuid: None,
        component_uuid: Some(uuid(0x77)),
        reason: reason.to_string(),
        schematic_value: Some("4k7".to_string()),
        board_value: Some("1k".to_string()),
        schematic_part_uuid: None,
        board_part_uuid: None,
    }
}

fn review(id: &str, decision: &str) -> ReviewAction {
    ReviewAction {
        action_id: id.to_string(),
        decision: decision.to_string(),
        proposal_action: "update_component".to_string(),
        reference: "R9".to_string(),
        reason: "value_mismatch".to_string(),
    }
}

#[test]
fn action_id_is_sha256_of_stable_key() {
    let id = forward_annotation_action_id("add_component", "R1", Some("abc"), None, "symbol_missing_on_board");
    assert_eq!(id, hex_sha("add_component|R1|abc||symbol_missing_on_board"));
    assert_eq!(id.len(), 64);
    let again = forward_annotation_action_id("add_component", "R1", Some("abc"), None, "symbol_missing_on_board");
    assert_eq!(id, again);
}

#[test]
fn audit_matches_symbols_and_components_by_reference() {
    let symbols = vec![
        symbol(1, "R1", "10k", Some(0x100)),
        symbol(2, "C1", "100n", Some(0x200)),
        symbol(3, "U1", "MCU", Some(0x300)),
        symbol(4, "R2", "1k", None),
    ];
    let components = vec![
        component(11, "C1", "10n", 0x200),
        component(12, "U1", "MCU", 0x301),
        component(13, "J1", "CONN", 0x400),
    ];
    let audit = query_native_project_forward_annotation_audit(&symbols, &components);
    assert_eq!(audit.schematic_symbol_count, 4);
    assert_eq!(audit.board_component_count, 3);
    assert_eq!(audit.matched_count, 2);
    assert_eq!(audit.unresolved_symbol_count, 1);
    let missing: Vec<&str> = audit.missing_on_board.iter().map(|m| m.reference.as_str()).collect();
    assert_eq!(missing, vec!["R1", "R2"]);
    assert_eq!(audit.missing_on_board[0].symbol_uuid, uuid(1));
    assert_eq!(audit.missing_on_board[0].part_uuid, Some(uuid(0x100)));
    assert_eq!(audit.missing_on_board[1].part_uuid, None);
    assert_eq!(audit.orphaned_on_board.len(), 1);
    assert_eq!(audit.orphaned_on_board[0].reference, "J1");
    assert_eq!(audit.orphaned_on_board[0].part_uuid, uuid(0x400));
    assert_eq!(audit.value_mismatches.len(), 1);
    assert_eq!(audit.value_mismatches[0].reference, "C1");
    assert_eq!(audit.value_mismatches[0].schematic_value, "100n");
    assert_eq!(audit.value_mismatches[0].board_value, "10n");
    assert_eq!(audit.part_mismatches.len(), 1);
    assert_eq!(audit.part_mismatches[0].schematic_part_uuid, uuid(0x300));
    assert_eq!(audit.part_mismatches[0].board_part_uuid, uuid(0x301));
}

#[test]
fn audit_later_symbol_of_a_reference_wins() {
    let symbols = vec![symbol(1, "R1", "10k", Some(1)), symbol(2, "R1", "22k", Some(1))];
    let components = vec![component(9, "R1", "22k", 1)];
    let audit = query_native_project_forward_annotation_audit(&symbols, &components);
    assert_eq!(audit.schematic_symbol_count, 1);
    assert_eq!(audit.matched_count, 1);
    assert!(audit.value_mismatches.is_empty());
}

#[test]
fn proposal_sorts_actions_and_groups_them() {
    let symbols = vec![
        symbol(1, "R1", "10k", Some(0x100)),
        symbol(2, "C1", "100n", Some(0x200)),
        symbol(3, "U1", "MCU", Some(0x300)),
        symbol(4, "R2", "1k", None),
    ];
    let components = vec![
        component(11, "C1", "10n", 0x200),
        component(12, "U1", "MCU", 0x301),
        component(13, "J1", "CONN", 0x400),
    ];
    let audit = query_native_project_forward_annotation_audit(&symbols, &components);
    let proposal = query_native_project_forward_annotation_proposal(&audit);
    let order: Vec<(&str, &str)> =
        proposal.actions.iter().map(|a| (a.reference.as_str(), a.action.as_str())).collect();
    assert_eq!(
        order,
        vec![
            ("C1", "update_component"),
            ("J1", "remove_component"),
            ("R1", "add_component"),
            ("R2", "add_component"),
            ("U1", "update_component"),
        ]
    );
    assert_eq!(proposal.total_actions, 5);
    assert_eq!(
        proposal.total_actions,
        audit.missing_on_board.len() + audit.orphaned_on_board.len() + audit.value_mismatches.len()
            + audit.part_mismatches.len()
    );
    assert_eq!(proposal.add_component_actions, audit.missing_on_board.len());
    assert_eq!(proposal.remove_component_actions, audit.orphaned_on_board.len());
    assert_eq!(proposal.add_component_actions, 2);
    assert_eq!(proposal.remove_component_actions, 1);
    assert_eq!(proposal.update_component_actions, 2);
    assert_eq!(proposal.add_component_group.len(), 2);
    assert_eq!(proposal.update_component_group[1].reason, "part_mismatch");
    let r2 = &proposal.actions[3];
    assert_eq!(r2.reason, "symbol_missing_on_board_unresolved_part");
    assert_eq!(
        r2.action_id,
        hex_sha(&format!("add_component|R2|{}||symbol_missing_on_board_unresolved_part", uuid(4)))
    );
    let j1 = &proposal.actions[1];
    assert_eq!(
        j1.action_id,
        hex_sha(&format!("remove_component|J1||{}|board_component_missing_in_schematic", uuid(13)))
    );
    assert_eq!(j1.board_part_uuid, Some(uuid(0x400)));
}

#[test]
fn empty_schematic_and_board_propose_nothing() {
    let audit = query_native_project_forward_annotation_audit(&[], &[]);
    let proposal = query_native_project_forward_annotation_proposal(&audit);
    assert_eq!(proposal.total_actions, 0);
    assert!(proposal.actions.is_empty());
}

#[test]
fn required_inputs_follow_the_action_kind() {
    let actions = sample_actions();
    let add = actions.iter().find(|a| a.reference == "R2").unwrap();
    let req = forward_annotation_apply_required_inputs(add);
    assert_eq!(req.execution, "requires_explicit_input");
    assert_eq!(req.required_inputs, vec!["package_uuid", "x_nm", "y_nm", "layer", "part_uuid"]);
    let value_fix = actions.iter().find(|a| a.reference == "C1").unwrap();
    let req = forward_annotation_apply_required_inputs(value_fix);
    assert_eq!(req.execution, "self_sufficient");
    assert!(req.required_inputs.is_empty());
}

#[test]
fn component_uuid_for_action_parses_or_reports() {
    let mut a = action("a", "remove_component", "J1", "board_component_missing_in_schematic");
    assert_eq!(component_uuid_for_action(&a), Ok(0x77));
    a.component_uuid = None;
    assert_eq!(component_uuid_for_action(&a), Err(ActionInputError::MissingComponentUuid));
    a.component_uuid = Some("not-a-uuid".to_string());
    assert_eq!(component_uuid_for_action(&a), Err(ActionInputError::InvalidComponentUuid));
}

#[test]
fn execute_plans_each_kind_of_action() {
    let remove = action("a", "remove_component", "J1", "board_component_missing_in_schematic");
    assert_eq!(
        execute_native_project_forward_annotation_action(&remove, None, None, None, None, None),
        Ok(ForwardAnnotationStep::DeleteComponent { component: 0x77 })
    );
    let fix = action("b", "update_component", "R1", "value_mismatch");
    assert_eq!(
        execute_native_project_forward_annotation_action(&fix, None, None, None, None, None),
        Ok(ForwardAnnotationStep::SetComponentValue { component: 0x77, value: "4k7".to_string() })
    );
    let mut add = action("c", "add_component", "R5", "symbol_missing_on_board");
    assert_eq!(
        execute_native_project_forward_annotation_action(&add, None, None, Some(1), Some(2), Some(1)),
        Err(ActionInputError::AddRequiresPackage)
    );
    assert_eq!(
        execute_native_project_forward_annotation_action(&add, Some(5), None, None, Some(2), Some(1)),
        Err(ActionInputError::AddRequiresX)
    );
    assert_eq!(
        execute_native_project_forward_annotation_action(&add, Some(5), None, Some(1), None, Some(1)),
        Err(ActionInputError::AddRequiresY)
    );
    assert_eq!(
        execute_native_project_forward_annotation_action(&add, Some(5), None, Some(1), Some(2), None),
        Err(ActionInputError::AddRequiresLayer)
    );
    assert_eq!(
        execute_native_project_forward_annotation_action(&add, Some(5), None, Some(1), Some(2), Some(1)),
        Err(ActionInputError::AddRequiresPart)
    );
    add.schematic_part_uuid = Some("bad".to_string());
    assert_eq!(
        execute_native_project_forward_annotation_action(&add, Some(5), None, Some(1), Some(2), Some(1)),
        Err(ActionInputError::InvalidSchematicPartUuid)
    );
    add.schematic_part_uuid = Some(uuid(0x99));
    assert_eq!(
        execute_native_project_forward_annotation_action(&add, Some(5), None, Some(1), Some(2), Some(1)),
        Ok(ForwardAnnotationStep::PlaceComponent {
            part: 0x99,
            package: 5,
            reference: "R5".to_string(),
            value: "4k7".to_string(),
            x_nm: 1,
            y_nm: 2,
            layer: 1,
        })
    );
    let part = action("d", "update_component", "U1", "part_mismatch");
    assert_eq!(
        execute_native_project_forward_annotation_action(&part, None, Some(3), None, None, None),
        Err(ActionInputError::PartMismatchRequiresPackage)
    );
    assert_eq!(
        execute_native_project_forward_annotation_action(&part, Some(4), None, None, None, None),
        Err(ActionInputError::PartMismatchRequiresPart)
    );
    assert_eq!(
        execute_native_project_forward_annotation_action(&part, Some(4), Some(3), None, None, None),
        Ok(ForwardAnnotationStep::ReplaceComponentPart { component: 0x77, package: 4, part: 3 })
    );
    let odd = action("e", "rename_component", "U1", "other");
    assert_eq!(
        execute_native_project_forward_annotation_action(&odd, None, None, None, None, None),
        Err(ActionInputError::Unsupported)
    );
    let mut no_value = action("f", "update_component", "R1", "value_mismatch");
    no_value.schematic_value = None;
    assert_eq!(
        execute_native_project_forward_annotation_action(&no_value, None, None, None, None, None),
        Err(ActionInputError::MissingSchematicValue)
    );
}

#[test]
fn operations_skip_reviewed_and_input_bound_actions() {
    let actions = vec![
        action("a", "update_component", "R1", "value_mismatch"),
        action("b", "remove_component", "J1", "board_component_missing_in_schematic"),
        action("c", "add_component", "R5", "symbol_missing_on_board"),
        action("d", "update_component", "R2", "value_mismatch"),
    ];
    let reviews = vec![review("d", "rejected")];
    let ops = forward_annotation_operations(&actions, &reviews).unwrap();
    assert_eq!(
        ops,
        vec![
            ProposalOperation::SetBoardPackageValue { package: 0x77, value: "4k7".to_string() },
            ProposalOperation::DeleteBoardPackage { package: 0x77 },
        ]
    );
    let mut broken = actions.clone_rows();
    broken[1].component_uuid = None;
    assert_eq!(forward_annotation_operations(&broken, &reviews), Err(ActionInputError::MissingComponentUuid));
}

trait CloneRows {
    fn clone_rows(&self) -> Vec<ProposalAction>;
}

impl CloneRows for Vec<ProposalAction> {
    fn clone_rows(&self) -> Vec<ProposalAction> {
        self.iter().map(|a| a.duplicate()).collect()
    }
}

#[test]
fn apply_route_chooses_embedded_or_direct() {
    let actions = vec![
        action("a", "update_component", "R1", "value_mismatch"),
        action("c", "add_component", "R5", "symbol_missing_on_board"),
    ];
    match apply_native_project_forward_annotation_action(&actions, &"a".to_string()) {
        Ok(ApplyRoute::Embedded(a)) => assert_eq!(a.action_id, "a"),
        other => panic!("unexpected {other:?}"),
    }
    match apply_native_project_forward_annotation_action(&actions, &"c".to_string()) {
        Ok(ApplyRoute::Direct(a)) => assert_eq!(a.action_id, "c"),
        other => panic!("unexpected {other:?}"),
    }
    assert!(apply_native_project_forward_annotation_action(&actions, &"z".to_string()).is_err());
}

#[test]
fn embedded_proposal_needs_value_fixes_or_removals() {
    let fix = action("a", "update_component", "R1", "value_mismatch");
    let remove = action("b", "remove_component", "J1", "board_component_missing_in_schematic");
    let add = action("c", "add_component", "R5", "symbol_missing_on_board");
    assert!(can_apply_with_embedded_proposal(&[fix.duplicate(), remove.duplicate()]));
    assert!(!can_apply_with_embedded_proposal(&[fix, add]));
    assert!(can_apply_with_embedded_proposal(&[]));
}

#[test]
fn review_record_and_listing() {
    let actions = vec![action("a", "update_component", "R1", "value_mismatch")];
    let rec = forward_annotation_review_record(&actions, &"a".to_string(), &"deferred".to_string()).unwrap();
    assert_eq!(rec.decision, "deferred");
    assert_eq!(rec.reference, "R1");
    assert!(forward_annotation_review_record(&actions, &"a".to_string(), &"accepted".to_string()).is_err());
    assert!(forward_annotation_review_record(&actions, &"x".to_string(), &"rejected".to_string()).is_err());
    let listing = forward_annotation_review_listing(vec![review("b", "rejected"), rec]);
    assert_eq!(listing.deferred_actions, 1);
    assert_eq!(listing.rejected_actions, 1);
    assert_eq!(listing.actions[0].reference, "R1");
}

#[test]
fn review_store_records_replaces_and_clears() {
    let actions = vec![
        action("a", "remove_component", "R1", "board_component_missing_in_schematic"),
        action("b", "update_component", "R2", "value_mismatch"),
    ];
    let mut store = Vec::new();
    let d = |s: &str| s.to_string();
    assert_eq!(
        record_native_project_forward_annotation_review(&mut store, &actions, &d("b"), &d("accepted")),
        Err(ReviewError::UnsupportedDecision)
    );
    assert_eq!(
        record_native_project_forward_annotation_review(&mut store, &actions, &d("zz"), &d("deferred")),
        Err(ReviewError::ActionNotFound)
    );
    assert!(store.is_empty());
    let rep = record_native_project_forward_annotation_review(&mut store, &actions, &d("b"), &d("deferred")).unwrap();
    assert_eq!(rep.action, "deferred_forward_annotation_action");
    assert_eq!((rep.action_id.as_str(), rep.decision.as_str()), ("b", "deferred"));
    assert_eq!((rep.proposal_action.as_str(), rep.reference.as_str(), rep.reason.as_str()), ("update_component", "R2", "value_mismatch"));
    record_native_project_forward_annotation_review(&mut store, &actions, &d("a"), &d("rejected")).unwrap();
    let before_b: Vec<ReviewAction> = store.iter().map(|r| r.duplicate()).collect();
    let rep = record_native_project_forward_annotation_review(&mut store, &actions, &d("b"), &d("rejected")).unwrap();
    assert_eq!(rep.action, "rejected_forward_annotation_action");
    assert_eq!(store.len(), 2);
    assert_eq!(store[0].action_id, "a");
    assert_eq!(store[1].decision, "rejected");
    assert_eq!(find_review_decision(&store, &"b".to_string()), Some("rejected".to_string()));
    let cleared = clear_native_project_forward_annotation_review(&mut store, &"b".to_string()).unwrap();
    assert_eq!(cleared.action, "clear_forward_annotation_action_review");
    assert_eq!((cleared.action_id.as_str(), cleared.decision.as_str()), ("b", "rejected"));
    assert_eq!(store.len(), 1);
    assert_ne!(store, before_b);
    assert_eq!(
        clear_native_project_forward_annotation_review(&mut store, &"b".to_string()),
        Err(ClearReviewError::NotFound)
    );
}

#[test]
fn clearing_a_fresh_review_restores_the_store() {
    let actions = vec![action("a", "remove_component", "R1", "x"), action("c", "add_component", "R3", "y")];
    let mut store = Vec::new();
    record_native_project_forward_annotation_review(&mut store, &actions, &"c".to_string(), &"deferred".to_string()).unwrap();
    let before: Vec<ReviewAction> = store.iter().map(|r| r.duplicate()).collect();
    record_native_project_forward_annotation_review(&mut store, &actions, &"a".to_string(), &"rejected".to_string()).unwrap();
    let cleared = clear_native_project_forward_annotation_review(&mut store, &"a".to_string()).unwrap();
    assert_eq!(cleared.decision, "rejected");
    assert_eq!(store, before);
    assert!(clear_native_project_forward_annotation_review(&mut store, &"a".to_string()).is_err());
}

#[test]
fn reviewed_batch_partition_is_complete() {
    let actions = vec![
        action("a", "update_component", "R1", "value_mismatch"),
        action("b", "remove_component", "J1", "board_component_missing_in_schematic"),
        action("c", "add_component", "R5", "symbol_missing_on_board"),
        action("d", "update_component", "R2", "value_mismatch"),
        action("e", "swap_component", "R3", "other"),
    ];
    let reviews = vec![review("d", "deferred"), review("b", "rejected")];
    let p = partition_reviewed_actions(&actions, &reviews);
    assert_eq!(p.applied.len() + p.skipped.len(), actions.len());
    assert_eq!(p.applied.len(), 1);
    assert_eq!(p.skipped_deferred_actions, 1);
    assert_eq!(p.skipped_rejected_actions, 1);
    assert_eq!(p.skipped_requires_input_actions, 1);
    assert_eq!(p.skipped[3].skip_reason, "unsupported_action");
}

#[test]
fn artifact_compared_with_itself_is_applicable() {
    let actions = sample_actions();
    let cmp = compare_forward_annotation_proposal_artifact(&actions, &[], &actions);
    assert_eq!(cmp.applicable_actions, actions.len());
    assert_eq!(cmp.drifted_actions, 0);
    assert_eq!(cmp.stale_actions, 0);
    let counts = inspect_forward_annotation_proposal_artifact(&actions, &[]);
    assert_eq!(counts.add_component_actions, 2);
}

#[test]
fn artifact_apply_checks_project_and_plan() {
    let actions = vec![
        action("a", "update_component", "R1", "value_mismatch"),
        action("b", "remove_component", "J1", "board_component_missing_in_schematic"),
    ];
    let reviews = vec![review("b", "deferred")];
    let cmp = compare_forward_annotation_proposal_artifact(&actions, &reviews, &actions);
    let plan = plan_forward_annotation_proposal_artifact_apply(&cmp.actions, &actions, &reviews).unwrap();
    assert!(check_artifact_apply_plan(&plan.actions).is_ok());
    assert_eq!(plan.artifact_actions, 2);
    assert_eq!((plan.self_sufficient_actions, plan.requires_input_actions, plan.not_applicable_actions), (2, 0, 0));
    let moved = vec![action("a", "update_component", "R1", "value_mismatch")];
    let stale_cmp = compare_forward_annotation_proposal_artifact(&actions, &[], &moved);
    let stale_plan = plan_forward_annotation_proposal_artifact_apply(&stale_cmp.actions, &actions, &[]).unwrap();
    assert_eq!(stale_plan.artifact_actions, 2);
    assert_eq!(stale_plan.not_applicable_actions, 1);
    assert!(stale_plan.self_sufficient_actions + stale_plan.requires_input_actions + stale_plan.not_applicable_actions <= 2);
    assert_eq!(
        apply_forward_annotation_proposal_artifact(1, 2, &plan.actions, &actions, &reviews).err(),
        Some(ArtifactApplyFailure::ProjectMismatch)
    );
    let applied = apply_forward_annotation_proposal_artifact(1, 1, &plan.actions, &actions, &reviews).unwrap();
    assert_eq!(applied.steps.len(), 1);
    assert_eq!(applied.partition.skipped_deferred_actions, 1);
    let with_add = vec![action("c", "add_component", "R5", "symbol_missing_on_board")];
    let cmp = compare_forward_annotation_proposal_artifact(&with_add, &[], &with_add);
    let plan = plan_forward_annotation_proposal_artifact_apply(&cmp.actions, &with_add, &[]).unwrap();
    assert!(matches!(
        apply_forward_annotation_proposal_artifact(1, 1, &plan.actions, &with_add, &[]),
        Err(ArtifactApplyFailure::Plan(_))
    ));
}

#[test]
fn selection_requires_ids_and_reports_missing_ones() {
    let actions = vec![
        action("a", "update_component", "R1", "value_mismatch"),
        action("b", "remove_component", "J1", "board_component_missing_in_schematic"),
    ];
    let reviews = vec![review("b", "deferred"), review("c", "rejected")];
    assert_eq!(
        select_forward_annotation_proposal_artifact(&[], &actions, &reviews).err(),
        Some(SelectionError::NoActionIds)
    );
    let sel = select_forward_annotation_proposal_artifact(
        &["b".to_string(), "b".to_string()],
        &actions,
        &reviews,
    )
    .unwrap();
    assert_eq!(sel.actions.len(), 1);
    assert_eq!(sel.reviews.len(), 1);
    assert_eq!(
        select_forward_annotation_proposal_artifact(&["z".to_string(), "a".to_string(), "y".to_string()], &actions, &reviews)
            .err(),
        Some(SelectionError::ActionsNotFound { missing: vec!["y".to_string(), "z".to_string()] })
    );
}

#[test]
fn filter_keeps_applicable_actions() {
    let earlier = vec![
        action("a", "update_component", "R1", "value_mismatch"),
        action("b", "remove_component", "J1", "board_component_missing_in_schematic"),
    ];
    let current = vec![action("a", "update_component", "R1", "value_mismatch")];
    let reviews = vec![review("a", "deferred"), review("b", "rejected")];
    let cmp = compare_forward_annotation_proposal_artifact(&earlier, &reviews, &current);
    let filtered = filter_forward_annotation_proposal_artifact(&cmp.actions, &earlier, &reviews);
    assert_eq!(filtered.actions.len(), 1);
    assert_eq!(filtered.actions[0].action_id, "a");
    assert_eq!(filtered.reviews.len(), 1);
}

#[test]
fn proposal_id_is_v5_of_revision_and_joined_action_ids() {
    let project = 0x1234_5678_9abc_def0_1122_3344_5566_7788u128;
    let actions = vec![
        action("a1", "update_component", "R1", "value_mismatch"),
        action("a2", "remove_component", "R2", "board_component_missing_in_schematic"),
    ];
    let ns = uuid::Uuid::from_u128(project);
    let expected = uuid::Uuid::new_v5(&ns, b"datum-eda:forward-annotation-proposal:rev-7:a1|a2").as_u128();
    assert_eq!(forward_annotation_proposal_id(project, "rev-7", &actions), expected);
    let single = uuid::Uuid::new_v5(&ns, b"datum-eda:forward-annotation-proposal:rev-7:a1").as_u128();
    assert_eq!(forward_annotation_proposal_id(project, "rev-7", &actions[..1]), single);
    let none = uuid::Uuid::new_v5(&ns, b"datum-eda:forward-annotation-proposal:rev-7:").as_u128();
    assert_eq!(forward_annotation_proposal_id(project, "rev-7", &[]), none);
    assert_ne!(forward_annotation_proposal_id(project, "rev-8", &actions), expected);
}
