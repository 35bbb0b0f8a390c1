//! Reading back and narrowing an earlier forward-annotation proposal: the
//! artifact's header, and the chosen actions or those that still apply.
use vstd::prelude::*;
use crate::forward_annotation::{
    ComparisonAction, ProposalAction, ReviewAction, copy_text, find_action, first_action_with_id,
    lit_applicable, text_is,
};
use crate::forward_annotation_audit::{
    Referenced, by_reference, find_by_reference, find_ref, keyed_by_reference,
};

verus! {

impl Referenced for String {
    open spec fn ref_view(&self) -> Seq<char> {
        self@
    }

    fn reference_text(&self) -> (r: &String) {
        self
    }

    fn duplicate(&self) -> (r: Self) {
        copy_text(self)
    }
}

/// Whether the id `id` is among `ids`.
pub open spec fn has_id(ids: Seq<String>, id: Seq<char>) -> bool {
    find_ref(ids, id) is Some
}

/// The actions whose id is among `ids`, in order.
pub open spec fn selected_actions(actions: Seq<ProposalAction>, ids: Seq<String>) -> Seq<ProposalAction>
    decreases actions.len(),
{
    if actions.len() == 0 {
        Seq::empty()
    } else {
        let rest = selected_actions(actions.drop_last(), ids);
        if has_id(ids, actions.last().action_id@) {
            rest.push(actions.last())
        } else {
            rest
        }
    }
}

/// The reviews whose action id is among `ids`, in order.
pub open spec fn selected_reviews(reviews: Seq<ReviewAction>, ids: Seq<String>) -> Seq<ReviewAction>
    decreases reviews.len(),
{
    if reviews.len() == 0 {
        Seq::empty()
    } else {
        let rest = selected_reviews(reviews.drop_last(), ids);
        if has_id(ids, reviews.last().action_id@) {
            rest.push(reviews.last())
        } else {
            rest
        }
    }
}

/// The ids of `ids` that no action carries, in order.
pub open spec fn unmatched_ids(ids: Seq<String>, actions: Seq<ProposalAction>) -> Seq<String>
    decreases ids.len(),
{
    if ids.len() == 0 {
        Seq::empty()
    } else {
        let rest = unmatched_ids(ids.drop_last(), actions);
        if first_action_with_id(actions, ids.last()@) is None {
            rest.push(ids.last())
        } else {
            rest
        }
    }
}

/// Why a selection cannot be made.
#[derive(Debug, PartialEq, Eq)]
pub enum SelectionError {
    /// No action id was given.
    NoActionIds,
    /// Some chosen ids are not actions of the proposal (in ascending order).
    ActionsNotFound { missing: Vec<String> },
}

/// The chosen actions of a proposal and their reviews.
pub struct ArtifactSelection {
    pub actions: Vec<ProposalAction>,
    pub reviews: Vec<ReviewAction>,
}

/// `r` is the selection of the distinct ids `ids` (ascending) from the
/// actions and reviews.
pub open spec fn selects(
    r: Result<ArtifactSelection, SelectionError>,
    ids: Seq<String>,
    actions: Seq<ProposalAction>,
    reviews: Seq<ReviewAction>,
) -> bool {
    if selected_actions(actions, ids).len() == ids.len() {
        &&& r is Ok
        &&& r.unwrap().actions@ == selected_actions(actions, ids)
        &&& r.unwrap().reviews@ == selected_reviews(reviews, ids)
    } else {
        &&& r matches Err(SelectionError::ActionsNotFound { missing })
        &&& missing@ == unmatched_ids(ids, actions)
    }
}

fn select_actions(actions: &[ProposalAction], ids: &[String]) -> (r: Vec<ProposalAction>)
    ensures
        r@ == selected_actions(actions@, ids@),
{
    let mut out: Vec<ProposalAction> = Vec::new();
    let mut i: usize = 0;
    assert(actions@.take(0) =~= Seq::<ProposalAction>::empty());
    while i < actions.len()
        invariant
            i <= actions.len(),
            out@ == selected_actions(actions@.take(i as int), ids@),
        decreases actions.len() - i,
    {
        proof {
            let next = actions@.take(i + 1);
            assert(next.drop_last() =~= actions@.take(i as int));
            assert(next.last() == actions@[i as int]);
        }
        if find_by_reference(ids, &actions[i].action_id).is_some() {
            out.push(actions[i].duplicate());
        }
        i = i + 1;
    }
    assert(actions@.take(actions.len() as int) =~= actions@);
    out
}

fn select_reviews(reviews: &[ReviewAction], ids: &[String]) -> (r: Vec<ReviewAction>)
    ensures
        r@ == selected_reviews(reviews@, ids@),
{
    let mut out: Vec<ReviewAction> = Vec::new();
    let mut i: usize = 0;
    assert(reviews@.take(0) =~= Seq::<ReviewAction>::empty());
    while i < reviews.len()
        invariant
            i <= reviews.len(),
            out@ == selected_reviews(reviews@.take(i as int), ids@),
        decreases reviews.len() - i,
    {
        proof {
            let next = reviews@.take(i + 1);
            assert(next.drop_last() =~= reviews@.take(i as int));
            assert(next.last() == reviews@[i as int]);
        }
        if find_by_reference(ids, &reviews[i].action_id).is_some() {
            out.push(reviews[i].duplicate());
        }
        i = i + 1;
    }
    assert(reviews@.take(reviews.len() as int) =~= reviews@);
    out
}

fn unmatched(ids: &[String], actions: &[ProposalAction]) -> (r: Vec<String>)
    ensures
        r@ == unmatched_ids(ids@, actions@),
{
    let mut out: Vec<String> = Vec::new();
    let mut i: usize = 0;
    assert(ids@.take(0) =~= Seq::<String>::empty());
    while i < ids.len()
        invariant
            i <= ids.len(),
            out@ == unmatched_ids(ids@.take(i as int), actions@),
        decreases ids.len() - i,
    {
        proof {
            let next = ids@.take(i + 1);
            assert(next.drop_last() =~= ids@.take(i as int));
            assert(next.last() == ids@[i as int]);
        }
        if find_action(actions, &ids[i]).is_none() {
            out.push(copy_text(&ids[i]));
        }
        i = i + 1;
    }
    assert(ids@.take(ids.len() as int) =~= ids@);
    out
}

/// The chosen actions of a proposal with their reviews: at least one id
/// must be given, and the proposal must hold exactly one action per
/// distinct id; otherwise the ids it lacks are reported in ascending order.
pub fn select_forward_annotation_proposal_artifact(
    action_ids: &[String],
    actions: &[ProposalAction],
    reviews: &[ReviewAction],
) -> (r: Result<ArtifactSelection, SelectionError>)
    ensures
        action_ids@.len() == 0 ==> r == Err::<ArtifactSelection, SelectionError>(
            SelectionError::NoActionIds,
        ),
        action_ids@.len() > 0 ==> selects(r, by_reference(action_ids@), actions@, reviews@),
{
    if action_ids.len() == 0 {
        return Err(SelectionError::NoActionIds);
    }
    let ids = keyed_by_reference(action_ids);
    let chosen = select_actions(actions, ids.as_slice());
    if chosen.len() != ids.len() {
        return Err(SelectionError::ActionsNotFound { missing: unmatched(ids.as_slice(), actions) });
    }
    let chosen_reviews = select_reviews(reviews, ids.as_slice());
    Ok(ArtifactSelection { actions: chosen, reviews: chosen_reviews })
}

/// Whether the comparison marks an action with the id `id` applicable.
pub open spec fn applicable_id(c: Seq<ComparisonAction>, id: Seq<char>) -> bool {
    exists|k: int| 0 <= k < c.len() && (#[trigger] c[k]).status@ == lit_applicable() && c[k].action_id@ == id
}

/// The actions still applicable by the comparison, in order.
pub open spec fn applicable_actions(actions: Seq<ProposalAction>, c: Seq<ComparisonAction>) -> Seq<
    ProposalAction,
>
    decreases actions.len(),
{
    if actions.len() == 0 {
        Seq::empty()
    } else {
        let rest = applicable_actions(actions.drop_last(), c);
        if applicable_id(c, actions.last().action_id@) {
            rest.push(actions.last())
        } else {
            rest
        }
    }
}

/// The reviews of actions still applicable by the comparison, in order.
pub open spec fn applicable_reviews(reviews: Seq<ReviewAction>, c: Seq<ComparisonAction>) -> Seq<
    ReviewAction,
>
    decreases reviews.len(),
{
    if reviews.len() == 0 {
        Seq::empty()
    } else {
        let rest = applicable_reviews(reviews.drop_last(), c);
        if applicable_id(c, reviews.last().action_id@) {
            rest.push(reviews.last())
        } else {
            rest
        }
    }
}

fn is_applicable_id(c: &[ComparisonAction], id: &String) -> (b: bool)
    ensures
        b == applicable_id(c@, id@),
{
    let mut k: usize = 0;
    while k < c.len()
        invariant
            k <= c.len(),
            forall|j: int| 0 <= j < k ==> !((#[trigger] c@[j]).status@ == lit_applicable() && c@[j].action_id@ == id@),
        decreases c.len() - k,
    {
        if text_is(&c[k].status, &['a', 'p', 'p', 'l', 'i', 'c', 'a', 'b', 'l', 'e']) && c[k].action_id == *id {
            return true;
        }
        k = k + 1;
    }
    false
}

/// An earlier proposal narrowed to the actions still applicable.
pub struct ArtifactFilter {
    pub actions: Vec<ProposalAction>,
    pub reviews: Vec<ReviewAction>,
}

/// An earlier proposal narrowed to the actions that the comparison with
/// the current proposal marks applicable, and to their reviews.
pub fn filter_forward_annotation_proposal_artifact(
    comparison: &[ComparisonAction],
    actions: &[ProposalAction],
    reviews: &[ReviewAction],
) -> (r: ArtifactFilter)
    ensures
        r.actions@ == applicable_actions(actions@, comparison@),
        r.reviews@ == applicable_reviews(reviews@, comparison@),
{
    let mut kept: Vec<ProposalAction> = Vec::new();
    let mut i: usize = 0;
    assert(actions@.take(0) =~= Seq::<ProposalAction>::empty());
    while i < actions.len()
        invariant
            i <= actions.len(),
            kept@ == applicable_actions(actions@.take(i as int), comparison@),
        decreases actions.len() - i,
    {
        proof {
            let next = actions@.take(i + 1);
            assert(next.drop_last() =~= actions@.take(i as int));
            assert(next.last() == actions@[i as int]);
        }
        if is_applicable_id(comparison, &actions[i].action_id) {
            kept.push(actions[i].duplicate());
        }
        i = i + 1;
    }
    assert(actions@.take(actions.len() as int) =~= actions@);
    let mut kept_reviews: Vec<ReviewAction> = Vec::new();
    let mut j: usize = 0;
    assert(reviews@.take(0) =~= Seq::<ReviewAction>::empty());
    while j < reviews.len()
        invariant
            j <= reviews.len(),
            kept_reviews@ == applicable_reviews(reviews@.take(j as int), comparison@),
        decreases reviews.len() - j,
    {
        proof {
            let next = reviews@.take(j + 1);
            assert(next.drop_last() =~= reviews@.take(j as int));
            assert(next.last() == reviews@[j as int]);
        }
        if is_applicable_id(comparison, &reviews[j].action_id) {
            kept_reviews.push(reviews[j].duplicate());
        }
        j = j + 1;
    }
    assert(reviews@.take(reviews.len() as int) =~= reviews@);
    ArtifactFilter { actions: kept, reviews: kept_reviews }
}

/// The kind an artifact of a forward-annotation proposal declares.
pub open spec fn proposal_artifact_kind() -> Seq<char> {
    seq![
        'n', 'a', 't', 'i', 'v', 'e', '_', 'f', 'o', 'r', 'w', 'a', 'r', 'd', '_', 'a', 'n', 'n', 'o', 't', 'a',
        't', 'i', 'o', 'n', '_', 'p', 'r', 'o', 'p', 'o', 's', 'a', 'l', '_', 'a', 'r', 't', 'i', 'f', 'a', 'c',
        't'
    ]
}

/// The `version` field of an artifact as it is read.
#[derive(Debug, Clone, Copy, PartialEq, Eq, Structural)]
pub enum ArtifactVersionField {
    /// The field is absent.
    Absent,
    /// The field is a non-negative integer.
    Number(u64),
    /// The field is something else.
    Invalid,
}

/// Why an artifact's header is refused.
#[derive(Debug, Clone, Copy, PartialEq, Eq, Structural)]
pub enum ArtifactHeaderError {
    /// The artifact declares another kind.
    UnsupportedKind,
    /// The version is not a 32-bit unsigned integer.
    InvalidVersion,
    /// The version is not the one this format has.
    UnsupportedVersion { version: u32 },
}

/// The header of an artifact: a declared kind must be the proposal
/// artifact's, an absent version counts as 0, a present one must be a
/// 32-bit unsigned integer, and the version must be 1.
pub fn check_forward_annotation_artifact_header(kind: Option<&str>, version: ArtifactVersionField) -> (r: Result<
    u32,
    ArtifactHeaderError,
>)
    ensures
        kind is Some && kind.unwrap()@ != proposal_artifact_kind() ==> r == Err::<u32, ArtifactHeaderError>(
            ArtifactHeaderError::UnsupportedKind,
        ),
        !(kind is Some && kind.unwrap()@ != proposal_artifact_kind()) ==> r == match version {
            ArtifactVersionField::Absent => Err::<u32, ArtifactHeaderError>(
                ArtifactHeaderError::UnsupportedVersion { version: 0 },
            ),
            ArtifactVersionField::Invalid => Err::<u32, ArtifactHeaderError>(ArtifactHeaderError::InvalidVersion),
            ArtifactVersionField::Number(n) => if n > u32::MAX {
                Err::<u32, ArtifactHeaderError>(ArtifactHeaderError::InvalidVersion)
            } else if n == 1 {
                Ok::<u32, ArtifactHeaderError>(1)
            } else {
                Err::<u32, ArtifactHeaderError>(ArtifactHeaderError::UnsupportedVersion { version: n as u32 })
            },
        },
{
    if let Some(k) = kind {
        let c = crate::text::chars_of(k);
        if !crate::text::chars_eq(
            c.as_slice(),
            &[
                'n', 'a', 't', 'i', 'v', 'e', '_', 'f', 'o', 'r', 'w', 'a', 'r', 'd', '_', 'a', 'n', 'n', 'o', 't',
                'a', 't', 'i', 'o', 'n', '_', 'p', 'r', 'o', 'p', 'o', 's', 'a', 'l', '_', 'a', 'r', 't', 'i', 'f',
                'a', 'c', 't',
            ],
        ) {
            return Err(ArtifactHeaderError::UnsupportedKind);
        }
    }
    let v: u32 = match version {
        ArtifactVersionField::Absent => 0,
        ArtifactVersionField::Invalid => {
            return Err(ArtifactHeaderError::InvalidVersion);
        },
        ArtifactVersionField::Number(n) => {
            if n > u32::MAX as u64 {
                return Err(ArtifactHeaderError::InvalidVersion);
            }
            n as u32
        },
    };
    if v == 1 {
        Ok(1)
    } else {
        Err(ArtifactHeaderError::UnsupportedVersion { version: v })
    }
}

} // verus!
