//! Carrying out forward-annotation actions: which board change an action
//! asks for, and what is missing when it cannot be carried out.
use vstd::prelude::*;
use crate::forward_annotation::{
    ApplyPlanAction, ArtifactApplyError, BatchPartition, batch_applied, check_artifact_apply_plan,
    lit_applicable, lit_self_sufficient, partition_artifact_actions_by_review, partitions,
    ProposalAction, ReviewAction, copy_text, lit_add_component, lit_board_component_missing_in_schematic,
    lit_deferred, lit_part_mismatch, lit_rejected, lit_remove_component, lit_update_component,
    lit_value_mismatch, review_decision_of, find_review_decision, text_is,
};
use crate::ids::{parse_uuid, uuid_parsed};
use crate::forward_annotation::{
    can_apply_with_embedded_proposal, embedded_applicable, find_action, first_action_with_id,
};

verus! {

/// Why an action cannot be carried out with the inputs given.
#[derive(Debug, Clone, Copy, PartialEq, Eq, Structural)]
pub enum ActionInputError {
    /// The action names no component.
    MissingComponentUuid,
    /// The action's component UUID does not parse.
    InvalidComponentUuid,
    /// The action carries no schematic value.
    MissingSchematicValue,
    /// Adding a component needs a package.
    AddRequiresPackage,
    /// Adding a component needs an x position.
    AddRequiresX,
    /// Adding a component needs a y position.
    AddRequiresY,
    /// Adding a component needs a layer.
    AddRequiresLayer,
    /// The action's schematic part UUID does not parse.
    InvalidSchematicPartUuid,
    /// Adding a component needs a part when the schematic resolves none.
    AddRequiresPart,
    /// Fixing a part mismatch needs a package.
    PartMismatchRequiresPackage,
    /// Fixing a part mismatch needs a part when the schematic resolves none.
    PartMismatchRequiresPart,
    /// No board change carries out this kind of action.
    Unsupported,
}

/// The board change that carries out an action.
#[derive(Debug, PartialEq, Eq)]
pub enum ForwardAnnotationStep {
    DeleteComponent { component: u128 },
    SetComponentValue { component: u128, value: String },
    PlaceComponent {
        part: u128,
        package: u128,
        reference: String,
        value: String,
        x_nm: i64,
        y_nm: i64,
        layer: i32,
    },
    ReplaceComponentPart { component: u128, package: u128, part: u128 },
}

/// The component an action names, parsed.
pub open spec fn component_id(a: ProposalAction) -> Result<u128, ActionInputError> {
    match a.component_uuid {
        None => Err(ActionInputError::MissingComponentUuid),
        Some(t) => match uuid_parsed(t@) {
            Some(id) => Ok(id),
            None => Err(ActionInputError::InvalidComponentUuid),
        },
    }
}

/// The part to use: the one given, else the schematic's, else `missing`.
pub open spec fn resolved_part(a: ProposalAction, part_uuid: Option<u128>, missing: ActionInputError) -> Result<
    u128,
    ActionInputError,
> {
    match part_uuid {
        Some(p) => Ok(p),
        None => match a.schematic_part_uuid {
            Some(t) => match uuid_parsed(t@) {
                Some(id) => Ok(id),
                None => Err(ActionInputError::InvalidSchematicPartUuid),
            },
            None => Err(missing),
        },
    }
}

/// The board change for an action and the inputs given, or what is missing.
pub open spec fn execution_step(
    a: ProposalAction,
    package_uuid: Option<u128>,
    part_uuid: Option<u128>,
    x_nm: Option<i64>,
    y_nm: Option<i64>,
    layer: Option<i32>,
) -> Result<ForwardAnnotationStep, ActionInputError> {
    if a.action@ == lit_remove_component() && a.reason@ == lit_board_component_missing_in_schematic() {
        match component_id(a) {
            Ok(c) => Ok(ForwardAnnotationStep::DeleteComponent { component: c }),
            Err(e) => Err(e),
        }
    } else if a.action@ == lit_update_component() && a.reason@ == lit_value_mismatch() {
        match component_id(a) {
            Err(e) => Err(e),
            Ok(c) => match a.schematic_value {
                None => Err(ActionInputError::MissingSchematicValue),
                Some(v) => Ok(ForwardAnnotationStep::SetComponentValue { component: c, value: v }),
            },
        }
    } else if a.action@ == lit_add_component() {
        if package_uuid is None {
            Err(ActionInputError::AddRequiresPackage)
        } else if x_nm is None {
            Err(ActionInputError::AddRequiresX)
        } else if y_nm is None {
            Err(ActionInputError::AddRequiresY)
        } else if layer is None {
            Err(ActionInputError::AddRequiresLayer)
        } else {
            match resolved_part(a, part_uuid, ActionInputError::AddRequiresPart) {
                Err(e) => Err(e),
                Ok(p) => match a.schematic_value {
                    None => Err(ActionInputError::MissingSchematicValue),
                    Some(v) => Ok(
                        ForwardAnnotationStep::PlaceComponent {
                            part: p,
                            package: package_uuid.unwrap(),
                            reference: a.reference,
                            value: v,
                            x_nm: x_nm.unwrap(),
                            y_nm: y_nm.unwrap(),
                            layer: layer.unwrap(),
                        },
                    ),
                },
            }
        }
    } else if a.action@ == lit_update_component() && a.reason@ == lit_part_mismatch() {
        match component_id(a) {
            Err(e) => Err(e),
            Ok(c) => if package_uuid is None {
                Err(ActionInputError::PartMismatchRequiresPackage)
            } else {
                match resolved_part(a, part_uuid, ActionInputError::PartMismatchRequiresPart) {
                    Err(e) => Err(e),
                    Ok(p) => Ok(
                        ForwardAnnotationStep::ReplaceComponentPart {
                            component: c,
                            package: package_uuid.unwrap(),
                            part: p,
                        },
                    ),
                }
            },
        }
    } else {
        Err(ActionInputError::Unsupported)
    }
}

/// The component an action names, parsed as a UUID.
pub fn component_uuid_for_action(action: &ProposalAction) -> (r: Result<u128, ActionInputError>)
    ensures
        r == component_id(*action),
{
    match &action.component_uuid {
        None => Err(ActionInputError::MissingComponentUuid),
        Some(t) => match parse_uuid(t.as_str()) {
            Some(id) => Ok(id),
            None => Err(ActionInputError::InvalidComponentUuid),
        },
    }
}

fn resolve_part(action: &ProposalAction, part_uuid: Option<u128>, missing: ActionInputError) -> (r:
    Result<u128, ActionInputError>)
    ensures
        r == resolved_part(*action, part_uuid, missing),
{
    match part_uuid {
        Some(p) => Ok(p),
        None => match &action.schematic_part_uuid {
            Some(t) => match parse_uuid(t.as_str()) {
                Some(id) => Ok(id),
                None => Err(ActionInputError::InvalidSchematicPartUuid),
            },
            None => Err(missing),
        },
    }
}

/// The board change that carries out `action` with the inputs given:
/// deleting a component missing in the schematic, setting a mismatched
/// value, placing a missing component (package, position, layer and a part
/// needed) or replacing a mismatched part (package and a part needed); or
/// the first input that is missing or invalid.
pub fn execute_native_project_forward_annotation_action(
    action: &ProposalAction,
    package_uuid: Option<u128>,
    part_uuid: Option<u128>,
    x_nm: Option<i64>,
    y_nm: Option<i64>,
    layer: Option<i32>,
) -> (r: Result<ForwardAnnotationStep, ActionInputError>)
    ensures
        r == execution_step(*action, package_uuid, part_uuid, x_nm, y_nm, layer),
{
    if text_is(&action.action, &['r', 'e', 'm', 'o', 'v', 'e', '_', 'c', 'o', 'm', 'p', 'o', 'n', 'e', 'n', 't']) && text_is(
        &action.reason,
        &['b', 'o', 'a', 'r', 'd', '_', 'c', 'o', 'm', 'p', 'o', 'n', 'e', 'n', 't', '_', 'm', 'i', 's', 's', 'i', 'n', 'g', '_', 'i', 'n', '_', 's', 'c', 'h', 'e', 'm', 'a', 't', 'i', 'c'],
    ) {
        let c = component_uuid_for_action(action)?;
        Ok(ForwardAnnotationStep::DeleteComponent { component: c })
    } else if text_is(&action.action, &['u', 'p', 'd', 'a', 't', 'e', '_', 'c', 'o', 'm', 'p', 'o', 'n', 'e', 'n', 't']) && text_is(&action.reason, &['v', 'a', 'l', 'u', 'e', '_', 'm', 'i', 's', 'm', 'a', 't', 'c', 'h']) {
        let c = component_uuid_for_action(action)?;
        match &action.schematic_value {
            None => Err(ActionInputError::MissingSchematicValue),
            Some(v) => Ok(ForwardAnnotationStep::SetComponentValue { component: c, value: copy_text(v) }),
        }
    } else if text_is(&action.action, &['a', 'd', 'd', '_', 'c', 'o', 'm', 'p', 'o', 'n', 'e', 'n', 't']) {
        let package = match package_uuid {
            Some(p) => p,
            None => { return Err(ActionInputError::AddRequiresPackage); },
        };
        let x = match x_nm {
            Some(v) => v,
            None => { return Err(ActionInputError::AddRequiresX); },
        };
        let y = match y_nm {
            Some(v) => v,
            None => { return Err(ActionInputError::AddRequiresY); },
        };
        let l = match layer {
            Some(v) => v,
            None => { return Err(ActionInputError::AddRequiresLayer); },
        };
        let part = resolve_part(action, part_uuid, ActionInputError::AddRequiresPart)?;
        match &action.schematic_value {
            None => Err(ActionInputError::MissingSchematicValue),
            Some(v) => Ok(
                ForwardAnnotationStep::PlaceComponent {
                    part,
                    package,
                    reference: copy_text(&action.reference),
                    value: copy_text(v),
                    x_nm: x,
                    y_nm: y,
                    layer: l,
                },
            ),
        }
    } else if text_is(&action.action, &['u', 'p', 'd', 'a', 't', 'e', '_', 'c', 'o', 'm', 'p', 'o', 'n', 'e', 'n', 't']) && text_is(&action.reason, &['p', 'a', 'r', 't', '_', 'm', 'i', 's', 'm', 'a', 't', 'c', 'h']) {
        let c = component_uuid_for_action(action)?;
        let package = match package_uuid {
            Some(p) => p,
            None => { return Err(ActionInputError::PartMismatchRequiresPackage); },
        };
        let part = resolve_part(action, part_uuid, ActionInputError::PartMismatchRequiresPart)?;
        Ok(ForwardAnnotationStep::ReplaceComponentPart { component: c, package, part })
    } else {
        Err(ActionInputError::Unsupported)
    }
}

/// A board change of an accepted forward-annotation proposal.
#[derive(Debug, PartialEq, Eq)]
pub enum ProposalOperation {
    SetBoardPackageValue { package: u128, value: String },
    DeleteBoardPackage { package: u128 },
}

/// Whether a review set aside the action: deferred or rejected.
pub open spec fn set_aside(reviews: Seq<ReviewAction>, a: ProposalAction) -> bool {
    match review_decision_of(reviews, a.action_id@) {
        Some(d) => d@ == lit_deferred() || d@ == lit_rejected(),
        None => false,
    }
}

/// The operation an accepted action contributes, if any.
pub open spec fn operation_for(reviews: Seq<ReviewAction>, a: ProposalAction) -> Result<
    Option<ProposalOperation>,
    ActionInputError,
> {
    if set_aside(reviews, a) {
        Ok(None)
    } else if a.action@ == lit_update_component() && a.reason@ == lit_value_mismatch() {
        match component_id(a) {
            Err(e) => Err(e),
            Ok(c) => match a.schematic_value {
                None => Err(ActionInputError::MissingSchematicValue),
                Some(v) => Ok(Some(ProposalOperation::SetBoardPackageValue { package: c, value: v })),
            },
        }
    } else if a.action@ == lit_remove_component() && a.reason@ == lit_board_component_missing_in_schematic() {
        match component_id(a) {
            Err(e) => Err(e),
            Ok(c) => Ok(Some(ProposalOperation::DeleteBoardPackage { package: c })),
        }
    } else {
        Ok(None)
    }
}

/// The operations of the actions in order, or the first error.
pub open spec fn operations_of(reviews: Seq<ReviewAction>, actions: Seq<ProposalAction>) -> Result<
    Seq<ProposalOperation>,
    ActionInputError,
>
    decreases actions.len(),
{
    if actions.len() == 0 {
        Ok(Seq::empty())
    } else {
        match operations_of(reviews, actions.drop_last()) {
            Err(e) => Err(e),
            Ok(prev) => match operation_for(reviews, actions.last()) {
                Err(e) => Err(e),
                Ok(None) => Ok(prev),
                Ok(Some(op)) => Ok(prev.push(op)),
            },
        }
    }
}

proof fn lemma_error_persists(reviews: Seq<ReviewAction>, s: Seq<ProposalAction>, i: int)
    requires
        0 <= i <= s.len(),
        operations_of(reviews, s.take(i)) is Err,
    ensures
        operations_of(reviews, s) == operations_of(reviews, s.take(i)),
    decreases s.len() - i,
{
    if i < s.len() {
        assert(s.take(i + 1).drop_last() =~= s.take(i));
        lemma_error_persists(reviews, s, i + 1);
    } else {
        assert(s.take(i) =~= s);
    }
}

/// The board changes of a proposal accepted as a whole: each value
/// mismatch sets the value and each component missing in the schematic is
/// deleted, unless a review deferred or rejected the action; other actions
/// need explicit inputs and contribute nothing.
pub fn forward_annotation_operations(actions: &[ProposalAction], reviews: &[ReviewAction]) -> (r:
    Result<Vec<ProposalOperation>, ActionInputError>)
    ensures
        match operations_of(reviews@, actions@) {
            Ok(ops) => r is Ok && r.unwrap()@ == ops,
            Err(e) => r == Err::<Vec<ProposalOperation>, ActionInputError>(e),
        },
{
    let mut ops: Vec<ProposalOperation> = Vec::new();
    let mut i: usize = 0;
    assert(actions@.take(0) =~= Seq::<ProposalAction>::empty());
    while i < actions.len()
        invariant
            i <= actions.len(),
            operations_of(reviews@, actions@.take(i as int)) == Ok::<
                Seq<ProposalOperation>,
                ActionInputError,
            >(ops@),
        decreases actions.len() - i,
    {
        let a = &actions[i];
        proof {
            let next = actions@.take(i + 1);
            assert(next.drop_last() =~= actions@.take(i as int));
            assert(next.last() == actions@[i as int]);
        }
        let decision = find_review_decision(reviews, &a.action_id);
        let aside = match &decision {
            Some(d) => text_is(d, &['d', 'e', 'f', 'e', 'r', 'r', 'e', 'd']) || text_is(d, &['r', 'e', 'j', 'e', 'c', 't', 'e', 'd']),
            None => false,
        };
        if !aside {
            if text_is(&a.action, &['u', 'p', 'd', 'a', 't', 'e', '_', 'c', 'o', 'm', 'p', 'o', 'n', 'e', 'n', 't']) && text_is(&a.reason, &['v', 'a', 'l', 'u', 'e', '_', 'm', 'i', 's', 'm', 'a', 't', 'c', 'h']) {
                let c = match component_uuid_for_action(a) {
                    Ok(c) => c,
                    Err(e) => {
                        proof {
                            lemma_error_persists(reviews@, actions@, i + 1);
                        }
                        return Err(e);
                    },
                };
                match &a.schematic_value {
                    None => {
                        proof {
                            lemma_error_persists(reviews@, actions@, i + 1);
                        }
                        return Err(ActionInputError::MissingSchematicValue);
                    },
                    Some(v) => {
                        ops.push(ProposalOperation::SetBoardPackageValue { package: c, value: copy_text(v) });
                    },
                }
            } else if text_is(&a.action, &['r', 'e', 'm', 'o', 'v', 'e', '_', 'c', 'o', 'm', 'p', 'o', 'n', 'e', 'n', 't']) && text_is(
                &a.reason,
                &['b', 'o', 'a', 'r', 'd', '_', 'c', 'o', 'm', 'p', 'o', 'n', 'e', 'n', 't', '_', 'm', 'i', 's', 's', 'i', 'n', 'g', '_', 'i', 'n', '_', 's', 'c', 'h', 'e', 'm', 'a', 't', 'i', 'c'],
            ) {
                let c = match component_uuid_for_action(a) {
                    Ok(c) => c,
                    Err(e) => {
                        proof {
                            lemma_error_persists(reviews@, actions@, i + 1);
                        }
                        return Err(e);
                    },
                };
                ops.push(ProposalOperation::DeleteBoardPackage { package: c });
            }
        }
        i = i + 1;
    }
    assert(actions@.take(actions.len() as int) =~= actions@);
    Ok(ops)
}

/// Each action carried out with no explicit inputs, in order, or the first
/// failure.
pub open spec fn steps_of(actions: Seq<ProposalAction>) -> Result<Seq<ForwardAnnotationStep>, ActionInputError>
    decreases actions.len(),
{
    if actions.len() == 0 {
        Ok(Seq::empty())
    } else {
        match steps_of(actions.drop_last()) {
            Err(e) => Err(e),
            Ok(prev) => match execution_step(actions.last(), None, None, None, None, None) {
                Err(e) => Err(e),
                Ok(st) => Ok(prev.push(st)),
            },
        }
    }
}

proof fn lemma_steps_error_persists(s: Seq<ProposalAction>, i: int)
    requires
        0 <= i <= s.len(),
        steps_of(s.take(i)) is Err,
    ensures
        steps_of(s) == steps_of(s.take(i)),
    decreases s.len() - i,
{
    if i < s.len() {
        assert(s.take(i + 1).drop_last() =~= s.take(i));
        lemma_steps_error_persists(s, i + 1);
    } else {
        assert(s.take(i) =~= s);
    }
}

/// Each action carried out with no explicit inputs, in order.
pub fn execute_actions(actions: &[ProposalAction]) -> (r: Result<Vec<ForwardAnnotationStep>, ActionInputError>)
    ensures
        match steps_of(actions@) {
            Ok(st) => r is Ok && r.unwrap()@ == st,
            Err(e) => r == Err::<Vec<ForwardAnnotationStep>, ActionInputError>(e),
        },
{
    let mut steps: Vec<ForwardAnnotationStep> = Vec::new();
    let mut i: usize = 0;
    assert(actions@.take(0) =~= Seq::<ProposalAction>::empty());
    while i < actions.len()
        invariant
            i <= actions.len(),
            steps_of(actions@.take(i as int)) == Ok::<Seq<ForwardAnnotationStep>, ActionInputError>(steps@),
        decreases actions.len() - i,
    {
        proof {
            let next = actions@.take(i + 1);
            assert(next.drop_last() =~= actions@.take(i as int));
            assert(next.last() == actions@[i as int]);
        }
        match execute_native_project_forward_annotation_action(&actions[i], None, None, None, None, None) {
            Ok(st) => {
                steps.push(st);
            },
            Err(e) => {
                proof {
                    lemma_steps_error_persists(actions@, i + 1);
                }
                return Err(e);
            },
        }
        i = i + 1;
    }
    assert(actions@.take(actions.len() as int) =~= actions@);
    Ok(steps)
}

/// Every planned action is applicable and self-sufficient.
pub open spec fn plan_ready(plan: Seq<ApplyPlanAction>) -> bool {
    forall|i: int|
        0 <= i < plan.len() ==> (#[trigger] plan[i]).applicability@ == lit_applicable()
            && plan[i].execution@ == lit_self_sufficient()
}

/// Why an earlier proposal is not applied.
#[derive(Debug, Clone, Copy, PartialEq, Eq, Structural)]
pub enum ArtifactApplyFailure {
    /// The proposal was made for another project.
    ProjectMismatch,
    /// The plan holds an action that cannot be applied as it stands.
    Plan(ArtifactApplyError),
    /// An action to apply cannot be carried out.
    Action(ActionInputError),
}

/// The board changes of an earlier proposal and the actions it skips.
pub struct ArtifactApplication {
    pub steps: Vec<ForwardAnnotationStep>,
    pub partition: BatchPartition,
}

/// An earlier proposal applied to the current project: it must be for this
/// project and every planned action applicable and self-sufficient; then
/// the actions not deferred or rejected by review are carried out in order
/// and the others skipped.
pub fn apply_forward_annotation_proposal_artifact(
    artifact_project: u128,
    current_project: u128,
    plan: &[ApplyPlanAction],
    actions: &[ProposalAction],
    reviews: &[ReviewAction],
) -> (r: Result<ArtifactApplication, ArtifactApplyFailure>)
    ensures
        artifact_project != current_project ==> r == Err::<ArtifactApplication, ArtifactApplyFailure>(
            ArtifactApplyFailure::ProjectMismatch,
        ),
        artifact_project == current_project ==> match r {
            Err(ArtifactApplyFailure::ProjectMismatch) => false,
            Err(ArtifactApplyFailure::Plan(ArtifactApplyError::NotApplicable { index })) => {
                &&& index < plan@.len()
                &&& plan@[index as int].applicability@ != lit_applicable()
                &&& forall|i: int|
                    0 <= i < index ==> (#[trigger] plan@[i]).applicability@ == lit_applicable()
            },
            Err(ArtifactApplyFailure::Plan(ArtifactApplyError::NotSelfSufficient { index })) => {
                &&& index < plan@.len()
                &&& plan@[index as int].execution@ != lit_self_sufficient()
                &&& forall|i: int|
                    0 <= i < plan@.len() ==> (#[trigger] plan@[i]).applicability@
                        == lit_applicable()
                &&& forall|i: int|
                    0 <= i < index ==> (#[trigger] plan@[i]).execution@ == lit_self_sufficient()
            },
            Err(ArtifactApplyFailure::Action(e)) => {
                &&& plan_ready(plan@)
                &&& steps_of(batch_applied(actions@, reviews@, false)) == Err::<
                    Seq<ForwardAnnotationStep>,
                    ActionInputError,
                >(e)
            },
            Ok(app) => {
                &&& plan_ready(plan@)
                &&& partitions(app.partition, actions@, reviews@, false)
                &&& steps_of(batch_applied(actions@, reviews@, false)) == Ok::<
                    Seq<ForwardAnnotationStep>,
                    ActionInputError,
                >(app.steps@)
            },
        },
{
    if artifact_project != current_project {
        return Err(ArtifactApplyFailure::ProjectMismatch);
    }
    match check_artifact_apply_plan(plan) {
        Ok(()) => {},
        Err(e) => {
            return Err(ArtifactApplyFailure::Plan(e));
        },
    }
    let partition = partition_artifact_actions_by_review(actions, reviews);
    match execute_actions(partition.applied.as_slice()) {
        Ok(steps) => Ok(ArtifactApplication { steps, partition }),
        Err(e) => Err(ArtifactApplyFailure::Action(e)),
    }
}

/// How a single action is applied.
#[derive(Debug, PartialEq, Eq)]
pub enum ApplyRoute {
    /// Through an accepted proposal holding just this action.
    Embedded(ProposalAction),
    /// By carrying the action out directly, with the inputs given.
    Direct(ProposalAction),
}

/// Why an action cannot be applied.
#[derive(Debug, Clone, Copy, PartialEq, Eq, Structural)]
pub enum ApplyActionError {
    /// No action of the current proposal has the id.
    ActionNotFound,
}

/// How the action `action_id` of the current proposal is applied: value
/// fixes and removals through an accepted proposal, the other actions
/// directly.
pub fn apply_native_project_forward_annotation_action(actions: &[ProposalAction], action_id: &String) -> (r:
    Result<ApplyRoute, ApplyActionError>)
    ensures
        match first_action_with_id(actions@, action_id@) {
            None => r == Err::<ApplyRoute, ApplyActionError>(ApplyActionError::ActionNotFound),
            Some(a) => if embedded_applicable(a) {
                r == Ok::<ApplyRoute, ApplyActionError>(ApplyRoute::Embedded(a))
            } else {
                r == Ok::<ApplyRoute, ApplyActionError>(ApplyRoute::Direct(a))
            },
        },
{
    match find_action(actions, action_id) {
        None => Err(ApplyActionError::ActionNotFound),
        Some(a) => {
            let single = vec![a.duplicate()];
            let embedded = can_apply_with_embedded_proposal(single.as_slice());
            proof {
                assert(single@[0] == a);
                if embedded_applicable(a) {
                    assert forall|i: int| 0 <= i < single@.len() implies embedded_applicable(#[trigger] single@[i]) by {
                        assert(single@[i] == a);
                    }
                }
            }
            if embedded {
                Ok(ApplyRoute::Embedded(a))
            } else {
                Ok(ApplyRoute::Direct(a))
            }
        },
    }
}

} // verus!
