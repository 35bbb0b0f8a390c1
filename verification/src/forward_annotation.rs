//! Forward annotation: how the actions that bring the board in line with the
//! schematic are classified, compared with an earlier proposal, reviewed,
//! selected and planned for application.
use vstd::prelude::*;
use crate::geometry::PathOrder;
use crate::ordering::{
    SortKeyed, is_key_sorted, keys_order, lemma_keys_le_trans, lemma_keys_order3,
    lemma_keys_order4, lemma_keys_order_flip, lemma_stable_sorted_members, stable_sort_by_key, stable_sorted,
};

use crate::ids::{uuid_v5, uuid_v5_of};
use crate::render::push_chars;
use crate::tally::{compare_text, text_order};
use crate::text::{chars_eq, chars_of, string_from_chars};

verus! {

pub open spec fn lit_add_component() -> Seq<char> {
    seq!['a', 'd', 'd', '_', 'c', 'o', 'm', 'p', 'o', 'n', 'e', 'n', 't']
}

pub open spec fn lit_remove_component() -> Seq<char> {
    seq!['r', 'e', 'm', 'o', 'v', 'e', '_', 'c', 'o', 'm', 'p', 'o', 'n', 'e', 'n', 't']
}

pub open spec fn lit_update_component() -> Seq<char> {
    seq!['u', 'p', 'd', 'a', 't', 'e', '_', 'c', 'o', 'm', 'p', 'o', 'n', 'e', 'n', 't']
}

pub open spec fn lit_value_mismatch() -> Seq<char> {
    seq!['v', 'a', 'l', 'u', 'e', '_', 'm', 'i', 's', 'm', 'a', 't', 'c', 'h']
}

pub open spec fn lit_part_mismatch() -> Seq<char> {
    seq!['p', 'a', 'r', 't', '_', 'm', 'i', 's', 'm', 'a', 't', 'c', 'h']
}

pub open spec fn lit_board_component_missing_in_schematic() -> Seq<char> {
    seq!['b', 'o', 'a', 'r', 'd', '_', 'c', 'o', 'm', 'p', 'o', 'n', 'e', 'n', 't', '_', 'm', 'i', 's', 's', 'i', 'n', 'g', '_', 'i', 'n', '_', 's', 'c', 'h', 'e', 'm', 'a', 't', 'i', 'c']
}

pub open spec fn lit_symbol_missing_on_board() -> Seq<char> {
    seq!['s', 'y', 'm', 'b', 'o', 'l', '_', 'm', 'i', 's', 's', 'i', 'n', 'g', '_', 'o', 'n', '_', 'b', 'o', 'a', 'r', 'd']
}

pub open spec fn lit_symbol_missing_on_board_unresolved_part() -> Seq<char> {
    seq!['s', 'y', 'm', 'b', 'o', 'l', '_', 'm', 'i', 's', 's', 'i', 'n', 'g', '_', 'o', 'n', '_', 'b', 'o', 'a', 'r', 'd', '_', 'u', 'n', 'r', 'e', 's', 'o', 'l', 'v', 'e', 'd', '_', 'p', 'a', 'r', 't']
}

pub open spec fn lit_self_sufficient() -> Seq<char> {
    seq!['s', 'e', 'l', 'f', '_', 's', 'u', 'f', 'f', 'i', 'c', 'i', 'e', 'n', 't']
}

pub open spec fn lit_requires_explicit_input() -> Seq<char> {
    seq!['r', 'e', 'q', 'u', 'i', 'r', 'e', 's', '_', 'e', 'x', 'p', 'l', 'i', 'c', 'i', 't', '_', 'i', 'n', 'p', 'u', 't']
}

pub open spec fn lit_unsupported() -> Seq<char> {
    seq!['u', 'n', 's', 'u', 'p', 'p', 'o', 'r', 't', 'e', 'd']
}

pub open spec fn lit_not_applicable() -> Seq<char> {
    seq!['n', 'o', 't', '_', 'a', 'p', 'p', 'l', 'i', 'c', 'a', 'b', 'l', 'e']
}

pub open spec fn lit_applicable() -> Seq<char> {
    seq!['a', 'p', 'p', 'l', 'i', 'c', 'a', 'b', 'l', 'e']
}

pub open spec fn lit_drifted() -> Seq<char> {
    seq!['d', 'r', 'i', 'f', 't', 'e', 'd']
}

pub open spec fn lit_stale() -> Seq<char> {
    seq!['s', 't', 'a', 'l', 'e']
}

pub open spec fn lit_deferred() -> Seq<char> {
    seq!['d', 'e', 'f', 'e', 'r', 'r', 'e', 'd']
}

pub open spec fn lit_rejected() -> Seq<char> {
    seq!['r', 'e', 'j', 'e', 'c', 't', 'e', 'd']
}

pub open spec fn lit_deferred_by_review() -> Seq<char> {
    seq!['d', 'e', 'f', 'e', 'r', 'r', 'e', 'd', '_', 'b', 'y', '_', 'r', 'e', 'v', 'i', 'e', 'w']
}

pub open spec fn lit_rejected_by_review() -> Seq<char> {
    seq!['r', 'e', 'j', 'e', 'c', 't', 'e', 'd', '_', 'b', 'y', '_', 'r', 'e', 'v', 'i', 'e', 'w']
}

pub open spec fn lit_unsupported_action() -> Seq<char> {
    seq!['u', 'n', 's', 'u', 'p', 'p', 'o', 'r', 't', 'e', 'd', '_', 'a', 'c', 't', 'i', 'o', 'n']
}

pub open spec fn lit_package_uuid() -> Seq<char> {
    seq!['p', 'a', 'c', 'k', 'a', 'g', 'e', '_', 'u', 'u', 'i', 'd']
}

pub open spec fn lit_x_nm() -> Seq<char> {
    seq!['x', '_', 'n', 'm']
}

pub open spec fn lit_y_nm() -> Seq<char> {
    seq!['y', '_', 'n', 'm']
}

pub open spec fn lit_layer() -> Seq<char> {
    seq!['l', 'a', 'y', 'e', 'r']
}

pub open spec fn lit_part_uuid() -> Seq<char> {
    seq!['p', 'a', 'r', 't', '_', 'u', 'u', 'i', 'd']
}

/// Whether `s` holds exactly the characters of `lit`.
pub fn text_is(s: &String, lit: &[char]) -> (b: bool)
    ensures
        b == (s@ == lit@),
{
    let c = chars_of(s.as_str());
    chars_eq(&c, lit)
}

/// A `String` holding the characters of `lit`.
pub fn text_of(lit: &[char]) -> (s: String)
    ensures
        s@ == lit@,
{
    string_from_chars(lit)
}

/// A copy of `s`.
pub fn copy_text(s: &String) -> (r: String)
    ensures
        r == *s,
{
    s.clone()
}

/// A copy of an optional text.
pub fn copy_opt_text(s: &Option<String>) -> (r: Option<String>)
    ensures
        r == *s,
{
    match s {
        Some(t) => Some(t.clone()),
        None => None,
    }
}

/// One proposed forward-annotation action.
#[derive(Debug, PartialEq, Eq)]
pub struct ProposalAction {
    pub action_id: String,
    pub action: String,
    pub reference: String,
    pub symbol_uuid: Option<String>,
    pub component_uuid: Option<String>,
    pub reason: String,
    pub schematic_value: Option<String>,
    pub board_value: Option<String>,
    pub schematic_part_uuid: Option<String>,
    pub board_part_uuid: Option<String>,
}

impl ProposalAction {
    /// A copy of the action.
    pub fn duplicate(&self) -> (r: ProposalAction)
        ensures
            r == *self,
    {
        ProposalAction {
            action_id: copy_text(&self.action_id),
            action: copy_text(&self.action),
            reference: copy_text(&self.reference),
            symbol_uuid: copy_opt_text(&self.symbol_uuid),
            component_uuid: copy_opt_text(&self.component_uuid),
            reason: copy_text(&self.reason),
            schematic_value: copy_opt_text(&self.schematic_value),
            board_value: copy_opt_text(&self.board_value),
            schematic_part_uuid: copy_opt_text(&self.schematic_part_uuid),
            board_part_uuid: copy_opt_text(&self.board_part_uuid),
        }
    }
}

/// A recorded review decision on an action.
#[derive(Debug, PartialEq, Eq)]
pub struct ReviewAction {
    pub action_id: String,
    pub decision: String,
    pub proposal_action: String,
    pub reference: String,
    pub reason: String,
}

impl ReviewAction {
    /// A copy of the review.
    pub fn duplicate(&self) -> (r: ReviewAction)
        ensures
            r == *self,
    {
        ReviewAction {
            action_id: copy_text(&self.action_id),
            decision: copy_text(&self.decision),
            proposal_action: copy_text(&self.proposal_action),
            reference: copy_text(&self.reference),
            reason: copy_text(&self.reason),
        }
    }
}

/// How an action can be carried out: on its own (`self_sufficient`), only
/// with explicit inputs (`requires_explicit_input`), or not at all
/// (`unsupported`).
pub open spec fn execution_class(action: Seq<char>, reason: Seq<char>) -> Seq<char> {
    if action == lit_remove_component() && reason == lit_board_component_missing_in_schematic() {
        lit_self_sufficient()
    } else if action == lit_update_component() && reason == lit_value_mismatch() {
        lit_self_sufficient()
    } else if action == lit_add_component() {
        lit_requires_explicit_input()
    } else if action == lit_update_component() && reason == lit_part_mismatch() {
        lit_requires_explicit_input()
    } else {
        lit_unsupported()
    }
}

/// The inputs an action needs: placing a component needs a package, a
/// position and a layer, fixing a part mismatch needs a package, and either
/// needs a part when the schematic does not resolve one.
pub open spec fn required_input_names(action: Seq<char>, reason: Seq<char>, has_part: bool) -> Seq<
    Seq<char>,
> {
    let part = if has_part {
        Seq::empty()
    } else {
        seq![lit_part_uuid()]
    };
    if action == lit_remove_component() && reason == lit_board_component_missing_in_schematic() {
        Seq::empty()
    } else if action == lit_update_component() && reason == lit_value_mismatch() {
        Seq::empty()
    } else if action == lit_add_component() {
        seq![lit_package_uuid(), lit_x_nm(), lit_y_nm(), lit_layer()] + part
    } else if action == lit_update_component() && reason == lit_part_mismatch() {
        seq![lit_package_uuid()] + part
    } else {
        Seq::empty()
    }
}

pub open spec fn texts_view(v: Seq<String>) -> Seq<Seq<char>> {
    Seq::new(v.len(), |i: int| v[i]@)
}

/// What applying an action needs.
pub struct ApplyRequirement {
    pub execution: String,
    pub required_inputs: Vec<String>,
}

/// What applying `action` needs: its execution class and the inputs it asks
/// for.
pub fn forward_annotation_apply_required_inputs(action: &ProposalAction) -> (r: ApplyRequirement)
    ensures
        r.execution@ == execution_class(action.action@, action.reason@),
        texts_view(r.required_inputs@) == required_input_names(
            action.action@,
            action.reason@,
            action.schematic_part_uuid is Some,
        ),
{
    let mut required: Vec<String> = Vec::new();
    let execution;
    if text_is(&action.action, &['r', 'e', 'm', 'o', 'v', 'e', '_', 'c', 'o', 'm', 'p', 'o', 'n', 'e', 'n', 't']) && text_is(&action.reason, &['b', 'o', 'a', 'r', 'd', '_', 'c', 'o', 'm', 'p', 'o', 'n', 'e', 'n', 't', '_', 'm', 'i', 's', 's', 'i', 'n', 'g', '_', 'i', 'n', '_', 's', 'c', 'h', 'e', 'm', 'a', 't', 'i', 'c']) {
        execution = text_of(&['s', 'e', 'l', 'f', '_', 's', 'u', 'f', 'f', 'i', 'c', 'i', 'e', 'n', 't']);
    } else if text_is(&action.action, &['u', 'p', 'd', 'a', 't', 'e', '_', 'c', 'o', 'm', 'p', 'o', 'n', 'e', 'n', 't']) && text_is(&action.reason, &['v', 'a', 'l', 'u', 'e', '_', 'm', 'i', 's', 'm', 'a', 't', 'c', 'h']) {
        execution = text_of(&['s', 'e', 'l', 'f', '_', 's', 'u', 'f', 'f', 'i', 'c', 'i', 'e', 'n', 't']);
    } else if text_is(&action.action, &['a', 'd', 'd', '_', 'c', 'o', 'm', 'p', 'o', 'n', 'e', 'n', 't']) {
        required.push(text_of(&['p', 'a', 'c', 'k', 'a', 'g', 'e', '_', 'u', 'u', 'i', 'd']));
        required.push(text_of(&['x', '_', 'n', 'm']));
        required.push(text_of(&['y', '_', 'n', 'm']));
        required.push(text_of(&['l', 'a', 'y', 'e', 'r']));
        if action.schematic_part_uuid.is_none() {
            required.push(text_of(&['p', 'a', 'r', 't', '_', 'u', 'u', 'i', 'd']));
        }
        execution = text_of(&['r', 'e', 'q', 'u', 'i', 'r', 'e', 's', '_', 'e', 'x', 'p', 'l', 'i', 'c', 'i', 't', '_', 'i', 'n', 'p', 'u', 't']);
    } else if text_is(&action.action, &['u', 'p', 'd', 'a', 't', 'e', '_', 'c', 'o', 'm', 'p', 'o', 'n', 'e', 'n', 't']) && text_is(&action.reason, &['p', 'a', 'r', 't', '_', 'm', 'i', 's', 'm', 'a', 't', 'c', 'h']) {
        required.push(text_of(&['p', 'a', 'c', 'k', 'a', 'g', 'e', '_', 'u', 'u', 'i', 'd']));
        if action.schematic_part_uuid.is_none() {
            required.push(text_of(&['p', 'a', 'r', 't', '_', 'u', 'u', 'i', 'd']));
        }
        execution = text_of(&['r', 'e', 'q', 'u', 'i', 'r', 'e', 's', '_', 'e', 'x', 'p', 'l', 'i', 'c', 'i', 't', '_', 'i', 'n', 'p', 'u', 't']);
    } else {
        execution = text_of(&['u', 'n', 's', 'u', 'p', 'p', 'o', 'r', 't', 'e', 'd']);
    }
    assert(texts_view(required@) =~= required_input_names(
        action.action@,
        action.reason@,
        action.schematic_part_uuid is Some,
    ));
    ApplyRequirement { execution, required_inputs: required }
}

/// Whether the action is one the engine can apply from the proposal alone:
/// a value fix, or the removal of a component missing from the schematic.
pub open spec fn embedded_applicable(a: ProposalAction) -> bool {
    (a.action@ == lit_update_component() && a.reason@ == lit_value_mismatch()) || (a.action@
        == lit_remove_component() && a.reason@ == lit_board_component_missing_in_schematic())
}

pub open spec fn is_value_fix(a: ProposalAction) -> bool {
    a.action@ == lit_update_component() && a.reason@ == lit_value_mismatch()
}

/// Whether a batch of actions can be applied through one embedded proposal:
/// all of them are value fixes, or all are value fixes or removals.
pub fn can_apply_with_embedded_proposal(actions: &[ProposalAction]) -> (b: bool)
    ensures
        b == ((forall|i: int| 0 <= i < actions@.len() ==> is_value_fix(#[trigger] actions@[i]))
            || (forall|i: int| 0 <= i < actions@.len() ==> embedded_applicable(#[trigger] actions@[i]))),
{
    let mut all_value = true;
    let mut all_embedded = true;
    let mut i: usize = 0;
    while i < actions.len()
        invariant
            i <= actions@.len(),
            all_value == (forall|j: int| 0 <= j < i ==> is_value_fix(#[trigger] actions@[j])),
            all_embedded == (forall|j: int| 0 <= j < i ==> embedded_applicable(#[trigger] actions@[j])),
        decreases actions.len() - i,
    {
        let a = &actions[i];
        let value_fix = text_is(&a.action, &['u', 'p', 'd', 'a', 't', 'e', '_', 'c', 'o', 'm', 'p', 'o', 'n', 'e', 'n', 't']) && text_is(&a.reason, &['v', 'a', 'l', 'u', 'e', '_', 'm', 'i', 's', 'm', 'a', 't', 'c', 'h']);
        let removal = text_is(&a.action, &['r', 'e', 'm', 'o', 'v', 'e', '_', 'c', 'o', 'm', 'p', 'o', 'n', 'e', 'n', 't']) && text_is(&a.reason, &['b', 'o', 'a', 'r', 'd', '_', 'c', 'o', 'm', 'p', 'o', 'n', 'e', 'n', 't', '_', 'm', 'i', 's', 's', 'i', 'n', 'g', '_', 'i', 'n', '_', 's', 'c', 'h', 'e', 'm', 'a', 't', 'i', 'c']);
        if !value_fix {
            all_value = false;
        }
        if !(value_fix || removal) {
            all_embedded = false;
        }
        i += 1;
    }
    all_value || all_embedded
}

/// The ids of the actions joined by `|`.
pub open spec fn action_ids_joined(actions: Seq<ProposalAction>) -> Seq<char>
    decreases actions.len(),
{
    if actions.len() == 0 {
        Seq::empty()
    } else if actions.len() == 1 {
        actions[0].action_id@
    } else {
        action_ids_joined(actions.drop_last()) + seq!['|'] + actions.last().action_id@
    }
}

/// The text from which a proposal's UUID is made: the model revision it was
/// prepared against and the ids of its actions.
pub open spec fn proposal_material(revision: Seq<char>, actions: Seq<ProposalAction>) -> Seq<char> {
    seq![
        'd', 'a', 't', 'u', 'm', '-', 'e', 'd', 'a', ':', 'f', 'o', 'r', 'w', 'a', 'r', 'd', '-', 'a', 'n', 'n',
        'o', 't', 'a', 't', 'i', 'o', 'n', '-', 'p', 'r', 'o', 'p', 'o', 's', 'a', 'l', ':',
    ] + revision + seq![':'] + action_ids_joined(actions)
}

/// The UUID of the proposal made from `actions` against the model revision
/// `revision`: the name-based UUID, in the project's namespace, of the
/// revision and the actions' ids joined by `|`.
pub fn forward_annotation_proposal_id(project: u128, revision: &str, actions: &[ProposalAction]) -> (r: u128)
    ensures
        r == uuid_v5_of(project, proposal_material(revision@, actions@)),
{
    let mut material: Vec<char> = Vec::new();
    push_chars(
        &mut material,
        &[
            'd', 'a', 't', 'u', 'm', '-', 'e', 'd', 'a', ':', 'f', 'o', 'r', 'w', 'a', 'r', 'd', '-', 'a', 'n',
            'n', 'o', 't', 'a', 't', 'i', 'o', 'n', '-', 'p', 'r', 'o', 'p', 'o', 's', 'a', 'l', ':',
        ],
    );
    push_chars(&mut material, chars_of(revision).as_slice());
    material.push(':');
    let ghost head = material@;
    let mut i: usize = 0;
    assert(actions@.take(0) =~= Seq::<ProposalAction>::empty());
    assert(material@ =~= head + action_ids_joined(actions@.take(0)));
    while i < actions.len()
        invariant
            i <= actions@.len(),
            material@ == head + action_ids_joined(actions@.take(i as int)),
        decreases actions.len() - i,
    {
        let ghost before = material@;
        if i > 0 {
            material.push('|');
        }
        push_chars(&mut material, chars_of(actions[i].action_id.as_str()).as_slice());
        proof {
            let next = actions@.take(i + 1);
            assert(next.drop_last() =~= actions@.take(i as int));
            assert(next.last() == actions@[i as int]);
            if i == 0 {
                assert(next.len() == 1);
                assert(material@ =~= head + next[0].action_id@);
            } else {
                assert(material@ =~= before + seq!['|'] + next.last().action_id@);
            }
        }
        i = i + 1;
    }
    assert(actions@.take(actions.len() as int) =~= actions@);
    assert(material@ =~= proposal_material(revision@, actions@));
    let name = string_from_chars(material.as_slice());
    uuid_v5(project, name.as_str())
}

/// Where an action of an earlier proposal stands against the current one:
/// `applicable` when the current proposal has its id, `drifted` when it has
/// an action of the same kind for the same reference, `stale` otherwise.
pub open spec fn artifact_status(a: ProposalAction, current: Seq<ProposalAction>) -> Seq<char> {
    if exists|i: int| 0 <= i < current.len() && #[trigger] current[i].action_id@ == a.action_id@ {
        lit_applicable()
    } else if exists|i: int|
        0 <= i < current.len() && #[trigger] current[i].reference@ == a.reference@
            && current[i].action@ == a.action@ {
        lit_drifted()
    } else {
        lit_stale()
    }
}

/// Where `action` stands against the current proposal.
pub fn artifact_action_status(action: &ProposalAction, current: &[ProposalAction]) -> (s: String)
    ensures
        s@ == artifact_status(*action, current@),
{
    let mut by_id = false;
    let mut by_reference = false;
    let mut i: usize = 0;
    while i < current.len()
        invariant
            i <= current@.len(),
            by_id == (exists|j: int| 0 <= j < i && #[trigger] current@[j].action_id@ == action.action_id@),
            by_reference == (exists|j: int|
                0 <= j < i && #[trigger] current@[j].reference@ == action.reference@
                    && current@[j].action@ == action.action@),
        decreases current.len() - i,
    {
        let c = &current[i];
        if c.action_id == action.action_id {
            by_id = true;
        }
        if c.reference == action.reference && c.action == action.action {
            by_reference = true;
        }
        i += 1;
    }
    if by_id {
        text_of(&['a', 'p', 'p', 'l', 'i', 'c', 'a', 'b', 'l', 'e'])
    } else if by_reference {
        text_of(&['d', 'r', 'i', 'f', 't', 'e', 'd'])
    } else {
        text_of(&['s', 't', 'a', 'l', 'e'])
    }
}

/// The decision of the last review of `reviews` for the action `id`.
pub open spec fn review_decision_of(reviews: Seq<ReviewAction>, id: Seq<char>) -> Option<String>
    decreases reviews.len(),
{
    if reviews.len() == 0 {
        None
    } else if reviews.last().action_id@ == id {
        Some(reviews.last().decision)
    } else {
        review_decision_of(reviews.drop_last(), id)
    }
}

/// The decision of the last review of `reviews` for the action `id` (a later
/// review of the same action replaces an earlier one).
pub fn find_review_decision(reviews: &[ReviewAction], id: &String) -> (r: Option<String>)
    ensures
        r == review_decision_of(reviews@, id@),
{
    let mut i: usize = reviews.len();
    assert(reviews@.take(i as int) =~= reviews@);
    while i > 0
        invariant
            i <= reviews@.len(),
            review_decision_of(reviews@, id@) == review_decision_of(reviews@.take(i as int), id@),
        decreases i,
    {
        let ghost t = reviews@.take(i as int);
        assert(t.drop_last() =~= reviews@.take(i - 1));
        if reviews[i - 1].action_id == *id {
            return Some(copy_text(&reviews[i - 1].decision));
        }
        i -= 1;
    }
    None
}

/// The characters of `s`.
pub fn text_chars(s: &String) -> (v: Vec<char>)
    ensures
        v@ == s@,
{
    chars_of(s.as_str())
}

/// Compares two texts character by character.
pub fn compare_strings(a: &String, b: &String) -> (o: PathOrder)
    ensures
        o == text_order(a@, b@),
{
    let x = text_chars(a);
    let y = text_chars(b);
    compare_text(&x, &y)
}

impl SortKeyed for ProposalAction {
    /// Proposal actions are ordered by reference, action and reason.
    open spec fn key_rel(&self, other: &Self) -> PathOrder {
        keys_order(seq![self.reference@, self.action@, self.reason@], seq![other.reference@, other.action@, other.reason@])
    }

    proof fn lemma_key_rel_flip(a: Self, b: Self) {
        lemma_keys_order_flip(seq![a.reference@, a.action@, a.reason@], seq![b.reference@, b.action@, b.reason@]);
    }

    proof fn lemma_key_le_trans(a: Self, b: Self, c: Self) {
        lemma_keys_le_trans(
            seq![a.reference@, a.action@, a.reason@],
            seq![b.reference@, b.action@, b.reason@],
            seq![c.reference@, c.action@, c.reason@],
        );
    }

    fn compare_keys(&self, other: &Self) -> (o: PathOrder) {
        proof {
            lemma_keys_order3(seq![self.reference@, self.action@, self.reason@], seq![other.reference@, other.action@, other.reason@]);
        }
        let o = compare_strings(&self.reference, &other.reference);
        if o != PathOrder::Equal {
            return o;
        }
        let o = compare_strings(&self.action, &other.action);
        if o != PathOrder::Equal {
            return o;
        }
        compare_strings(&self.reason, &other.reason)
    }
}

impl SortKeyed for ReviewAction {
    /// Reviews are ordered by reference, action, reason and action id.
    open spec fn key_rel(&self, other: &Self) -> PathOrder {
        keys_order(seq![self.reference@, self.proposal_action@, self.reason@, self.action_id@], seq![other.reference@, other.proposal_action@, other.reason@, other.action_id@])
    }

    proof fn lemma_key_rel_flip(a: Self, b: Self) {
        lemma_keys_order_flip(seq![a.reference@, a.proposal_action@, a.reason@, a.action_id@], seq![b.reference@, b.proposal_action@, b.reason@, b.action_id@]);
    }

    proof fn lemma_key_le_trans(a: Self, b: Self, c: Self) {
        lemma_keys_le_trans(
            seq![a.reference@, a.proposal_action@, a.reason@, a.action_id@],
            seq![b.reference@, b.proposal_action@, b.reason@, b.action_id@],
            seq![c.reference@, c.proposal_action@, c.reason@, c.action_id@],
        );
    }

    fn compare_keys(&self, other: &Self) -> (o: PathOrder) {
        proof {
            lemma_keys_order4(seq![self.reference@, self.proposal_action@, self.reason@, self.action_id@], seq![other.reference@, other.proposal_action@, other.reason@, other.action_id@]);
        }
        let o = compare_strings(&self.reference, &other.reference);
        if o != PathOrder::Equal {
            return o;
        }
        let o = compare_strings(&self.proposal_action, &other.proposal_action);
        if o != PathOrder::Equal {
            return o;
        }
        let o = compare_strings(&self.reason, &other.reason);
        if o != PathOrder::Equal {
            return o;
        }
        compare_strings(&self.action_id, &other.action_id)
    }
}

/// An action of an earlier proposal and where it stands now.
#[derive(Debug, PartialEq, Eq)]
pub struct ComparisonAction {
    pub action_id: String,
    pub proposal_action: String,
    pub reference: String,
    pub reason: String,
    pub status: String,
    pub review_decision: Option<String>,
}

impl SortKeyed for ComparisonAction {
    /// Compared actions are ordered by reference, action, reason and id.
    open spec fn key_rel(&self, other: &Self) -> PathOrder {
        keys_order(seq![self.reference@, self.proposal_action@, self.reason@, self.action_id@], seq![other.reference@, other.proposal_action@, other.reason@, other.action_id@])
    }

    proof fn lemma_key_rel_flip(a: Self, b: Self) {
        lemma_keys_order_flip(seq![a.reference@, a.proposal_action@, a.reason@, a.action_id@], seq![b.reference@, b.proposal_action@, b.reason@, b.action_id@]);
    }

    proof fn lemma_key_le_trans(a: Self, b: Self, c: Self) {
        lemma_keys_le_trans(
            seq![a.reference@, a.proposal_action@, a.reason@, a.action_id@],
            seq![b.reference@, b.proposal_action@, b.reason@, b.action_id@],
            seq![c.reference@, c.proposal_action@, c.reason@, c.action_id@],
        );
    }

    fn compare_keys(&self, other: &Self) -> (o: PathOrder) {
        proof {
            lemma_keys_order4(seq![self.reference@, self.proposal_action@, self.reason@, self.action_id@], seq![other.reference@, other.proposal_action@, other.reason@, other.action_id@]);
        }
        let o = compare_strings(&self.reference, &other.reference);
        if o != PathOrder::Equal {
            return o;
        }
        let o = compare_strings(&self.proposal_action, &other.proposal_action);
        if o != PathOrder::Equal {
            return o;
        }
        let o = compare_strings(&self.reason, &other.reason);
        if o != PathOrder::Equal {
            return o;
        }
        compare_strings(&self.action_id, &other.action_id)
    }
}

/// `c` describes the earlier action `a` against the current proposal and the
/// earlier reviews.
pub open spec fn describes(
    c: ComparisonAction,
    a: ProposalAction,
    current: Seq<ProposalAction>,
    reviews: Seq<ReviewAction>,
) -> bool {
    &&& c.action_id == a.action_id
    &&& c.proposal_action == a.action
    &&& c.reference == a.reference
    &&& c.reason == a.reason
    &&& c.status@ == artifact_status(a, current)
    &&& c.review_decision == review_decision_of(reviews, a.action_id@)
}

/// How many of `s` have status `status`.
pub open spec fn count_status(s: Seq<ComparisonAction>, status: Seq<char>) -> nat
    decreases s.len(),
{
    if s.len() == 0 {
        0
    } else {
        count_status(s.drop_last(), status) + if s.last().status@ == status {
            1nat
        } else {
            0nat
        }
    }
}

/// An earlier proposal compared with the current one.
pub struct ArtifactComparison {
    pub actions: Vec<ComparisonAction>,
    pub applicable_actions: usize,
    pub drifted_actions: usize,
    pub stale_actions: usize,
}

proof fn lemma_count_status_step(s: Seq<ComparisonAction>, i: int, status: Seq<char>)
    requires
        0 <= i < s.len(),
    ensures
        count_status(s.take(i + 1), status) == count_status(s.take(i), status) + if s[i].status@
            == status {
            1nat
        } else {
            0nat
        },
        count_status(s.take(i), status) <= i,
    decreases i,
{
    assert(s.take(i + 1).drop_last() =~= s.take(i));
    if i > 0 {
        lemma_count_status_step(s, i - 1, status);
    } else {
        assert(s.take(0) =~= Seq::<ComparisonAction>::empty());
    }
}

/// Counts the actions of `s` whose status is `status`.
fn count_with_status(s: &[ComparisonAction], status: &[char]) -> (n: usize)
    ensures
        n == count_status(s@, status@),
{
    let mut n: usize = 0;
    let mut i: usize = 0;
    assert(s@.take(0) =~= Seq::<ComparisonAction>::empty());
    while i < s.len()
        invariant
            i <= s@.len(),
            n == count_status(s@.take(i as int), status@),
        decreases s.len() - i,
    {
        proof {
            lemma_count_status_step(s@, i as int, status@);
        }
        if text_is(&s[i].status, status) {
            n += 1;
        }
        i += 1;
    }
    assert(s@.take(s.len() as int) =~= s@);
    n
}

/// Compares the actions of an earlier proposal with the current proposal:
/// each is described by its status and latest review decision, the list is
/// ordered by reference, action, reason and id, and each status is counted.
pub fn compare_forward_annotation_proposal_artifact(
    artifact_actions: &[ProposalAction],
    reviews: &[ReviewAction],
    current: &[ProposalAction],
) -> (r: ArtifactComparison)
    ensures
        exists|u: Seq<ComparisonAction>|
            {
                &&& u.len() == artifact_actions@.len()
                &&& forall|i: int|
                    0 <= i < u.len() ==> describes(
                        #[trigger] u[i],
                        artifact_actions@[i],
                        current@,
                        reviews@,
                    )
                &&& r.actions@ == stable_sorted(u)
            },
        is_key_sorted(r.actions@),
        r.applicable_actions == count_status(r.actions@, lit_applicable()),
        r.drifted_actions == count_status(r.actions@, lit_drifted()),
        r.stale_actions == count_status(r.actions@, lit_stale()),
{
    let mut unsorted: Vec<ComparisonAction> = Vec::new();
    let mut i: usize = 0;
    while i < artifact_actions.len()
        invariant
            i <= artifact_actions@.len(),
            unsorted@.len() == i,
            forall|j: int|
                0 <= j < i ==> describes(
                    #[trigger] unsorted@[j],
                    artifact_actions@[j],
                    current@,
                    reviews@,
                ),
        decreases artifact_actions.len() - i,
    {
        let a = &artifact_actions[i];
        let c = ComparisonAction {
            action_id: copy_text(&a.action_id),
            proposal_action: copy_text(&a.action),
            reference: copy_text(&a.reference),
            reason: copy_text(&a.reason),
            status: artifact_action_status(a, current),
            review_decision: find_review_decision(reviews, &a.action_id),
        };
        unsorted.push(c);
        i += 1;
    }
    let ghost u = unsorted@;
    let actions = stable_sort_by_key(unsorted);
    let applicable_actions = count_with_status(&actions, &['a', 'p', 'p', 'l', 'i', 'c', 'a', 'b', 'l', 'e']);
    let drifted_actions = count_with_status(&actions, &['d', 'r', 'i', 'f', 't', 'e', 'd']);
    let stale_actions = count_with_status(&actions, &['s', 't', 'a', 'l', 'e']);
    ArtifactComparison { actions, applicable_actions, drifted_actions, stale_actions }
}

/// The latest artifact action with the id `id`.
pub open spec fn artifact_action_by_id(actions: Seq<ProposalAction>, id: Seq<char>) -> Option<
    ProposalAction,
>
    decreases actions.len(),
{
    if actions.len() == 0 {
        None
    } else if actions.last().action_id@ == id {
        Some(actions.last())
    } else {
        artifact_action_by_id(actions.drop_last(), id)
    }
}

/// The latest artifact action with the id `id` (a later action with the
/// same id replaces an earlier one).
pub fn find_artifact_action(actions: &[ProposalAction], id: &String) -> (r: Option<
    ProposalAction,
>)
    ensures
        r == artifact_action_by_id(actions@, id@),
{
    let mut i: usize = actions.len();
    assert(actions@.take(i as int) =~= actions@);
    while i > 0
        invariant
            i <= actions@.len(),
            artifact_action_by_id(actions@, id@) == artifact_action_by_id(
                actions@.take(i as int),
                id@,
            ),
        decreases i,
    {
        let ghost t = actions@.take(i as int);
        assert(t.drop_last() =~= actions@.take(i - 1));
        if actions[i - 1].action_id == *id {
            return Some(actions[i - 1].duplicate());
        }
        i -= 1;
    }
    None
}

/// One action of an apply plan.
#[derive(Debug, PartialEq, Eq)]
pub struct ApplyPlanAction {
    pub action_id: String,
    pub proposal_action: String,
    pub reference: String,
    pub reason: String,
    pub applicability: String,
    pub execution: String,
    pub review_decision: Option<String>,
    pub required_inputs: Vec<String>,
}

/// `p` plans the compared action `c`, whose artifact action is `a`: an
/// applicable action is executed as its class says, any other is
/// `not_applicable` and needs nothing.
pub open spec fn plans(
    p: ApplyPlanAction,
    c: ComparisonAction,
    a: ProposalAction,
    reviews: Seq<ReviewAction>,
) -> bool {
    &&& p.action_id == c.action_id
    &&& p.proposal_action == c.proposal_action
    &&& p.reference == c.reference
    &&& p.reason == c.reason
    &&& p.applicability == c.status
    &&& p.review_decision == review_decision_of(reviews, a.action_id@)
    &&& if c.status@ == lit_applicable() {
        &&& p.execution@ == execution_class(a.action@, a.reason@)
        &&& texts_view(p.required_inputs@) == required_input_names(
            a.action@,
            a.reason@,
            a.schematic_part_uuid is Some,
        )
    } else {
        &&& p.execution@ == lit_not_applicable()
        &&& p.required_inputs@.len() == 0
    }
}

/// `p` plans the compared action `c`, whose id names an action of the
/// artifact.
pub open spec fn planned_at(
    p: ApplyPlanAction,
    c: ComparisonAction,
    artifact_actions: Seq<ProposalAction>,
    reviews: Seq<ReviewAction>,
) -> bool {
    &&& artifact_action_by_id(artifact_actions, c.action_id@) is Some
    &&& plans(p, c, artifact_action_by_id(artifact_actions, c.action_id@).unwrap(), reviews)
}

/// How many plan actions have execution `e`.
pub open spec fn count_execution(s: Seq<ApplyPlanAction>, e: Seq<char>) -> nat
    decreases s.len(),
{
    if s.len() == 0 {
        0
    } else {
        count_execution(s.drop_last(), e) + if s.last().execution@ == e {
            1nat
        } else {
            0nat
        }
    }
}

/// How an earlier proposal would be applied.
pub struct ApplyPlan {
    pub artifact_actions: usize,
    pub actions: Vec<ApplyPlanAction>,
    pub self_sufficient_actions: usize,
    pub requires_input_actions: usize,
    pub not_applicable_actions: usize,
}

/// How many compared actions are not applicable.
pub open spec fn count_not_applicable(s: Seq<ComparisonAction>) -> nat
    decreases s.len(),
{
    if s.len() == 0 {
        0
    } else {
        count_not_applicable(s.drop_last()) + if s.last().status@ != lit_applicable() {
            1nat
        } else {
            0nat
        }
    }
}

proof fn lemma_execution_counts_bounded(s: Seq<ApplyPlanAction>)
    ensures
        count_execution(s, lit_self_sufficient()) + count_execution(s, lit_requires_explicit_input())
            + count_execution(s, lit_not_applicable()) <= s.len(),
    decreases s.len(),
{
    if s.len() > 0 {
        lemma_execution_counts_bounded(s.drop_last());
        assert(lit_self_sufficient() != lit_requires_explicit_input()) by {
            assert(lit_self_sufficient()[0] != lit_requires_explicit_input()[0]);
        }
        assert(lit_self_sufficient() != lit_not_applicable()) by {
            assert(lit_self_sufficient()[0] != lit_not_applicable()[0]);
        }
        assert(lit_requires_explicit_input() != lit_not_applicable()) by {
            assert(lit_requires_explicit_input()[0] != lit_not_applicable()[0]);
        }
    }
}

proof fn lemma_class_is_applicable(action: Seq<char>, reason: Seq<char>)
    ensures
        execution_class(action, reason) != lit_not_applicable(),
{
    assert(lit_self_sufficient() != lit_not_applicable()) by {
        assert(lit_self_sufficient()[0] != lit_not_applicable()[0]);
    }
    assert(lit_requires_explicit_input() != lit_not_applicable()) by {
        assert(lit_requires_explicit_input()[0] != lit_not_applicable()[0]);
    }
    assert(lit_unsupported() != lit_not_applicable()) by {
        assert(lit_unsupported()[0] != lit_not_applicable()[0]);
    }
}

/// A compared action whose id has no action in the artifact.
#[derive(Debug, Clone, Copy, PartialEq, Eq, Structural)]
pub enum PlanError {
    ArtifactActionMissing,
}

proof fn lemma_count_execution_step(s: Seq<ApplyPlanAction>, e: Seq<char>)
    requires
        s.len() > 0,
    ensures
        count_execution(s, e) == count_execution(s.drop_last(), e) + if s.last().execution@ == e {
            1nat
        } else {
            0nat
        },
        count_execution(s, e) <= s.len(),
    decreases s.len(),
{
    if s.len() > 1 {
        lemma_count_execution_step(s.drop_last(), e);
    } else {
        assert(s.drop_last() =~= Seq::<ApplyPlanAction>::empty());
    }
}

/// Plans how the compared actions of an earlier proposal would be applied:
/// in the comparison's order, each applicable action by its execution class
/// and the inputs it needs, each other as not applicable.
pub fn plan_forward_annotation_proposal_artifact_apply(
    comparison: &[ComparisonAction],
    artifact_actions: &[ProposalAction],
    reviews: &[ReviewAction],
) -> (r: Result<ApplyPlan, PlanError>)
    ensures
        match r {
            Ok(plan) => {
                &&& plan.actions@.len() == comparison@.len()
                &&& forall|i: int|
                    0 <= i < comparison@.len() ==> planned_at(
                        #[trigger] plan.actions@[i],
                        comparison@[i],
                        artifact_actions@,
                        reviews@,
                    )
                &&& plan.self_sufficient_actions == count_execution(plan.actions@, lit_self_sufficient())
                &&& plan.requires_input_actions == count_execution(
                    plan.actions@,
                    lit_requires_explicit_input(),
                )
                &&& plan.not_applicable_actions == count_execution(plan.actions@, lit_not_applicable())
                &&& plan.not_applicable_actions == count_not_applicable(comparison@)
                &&& plan.artifact_actions == artifact_actions@.len()
                &&& plan.self_sufficient_actions + plan.requires_input_actions + plan.not_applicable_actions
                    <= plan.actions@.len()
            },
            Err(PlanError::ArtifactActionMissing) => exists|i: int|
                0 <= i < comparison@.len() && artifact_action_by_id(
                    artifact_actions@,
                    #[trigger] comparison@[i].action_id@,
                ) is None,
        },
{
    let mut actions: Vec<ApplyPlanAction> = Vec::new();
    let mut self_sufficient_actions: usize = 0;
    let mut requires_input_actions: usize = 0;
    let mut not_applicable_actions: usize = 0;
    let mut i: usize = 0;
    while i < comparison.len()
        invariant
            i <= comparison@.len(),
            actions@.len() == i,
            forall|j: int|
                0 <= j < i ==> planned_at(
                    #[trigger] actions@[j],
                    comparison@[j],
                    artifact_actions@,
                    reviews@,
                ),
            self_sufficient_actions == count_execution(actions@, lit_self_sufficient()),
            requires_input_actions == count_execution(actions@, lit_requires_explicit_input()),
            not_applicable_actions == count_execution(actions@, lit_not_applicable()),
            not_applicable_actions == count_not_applicable(comparison@.take(i as int)),
        decreases comparison.len() - i,
    {
        let c = &comparison[i];
        let a = match find_artifact_action(artifact_actions, &c.action_id) {
            Some(a) => a,
            None => return Err(PlanError::ArtifactActionMissing),
        };
        let (execution, required_inputs) = if text_is(&c.status, &['a', 'p', 'p', 'l', 'i', 'c', 'a', 'b', 'l', 'e']) {
            let req = forward_annotation_apply_required_inputs(&a);
            (req.execution, req.required_inputs)
        } else {
            (text_of(&['n', 'o', 't', '_', 'a', 'p', 'p', 'l', 'i', 'c', 'a', 'b', 'l', 'e']), Vec::new())
        };
        let p = ApplyPlanAction {
            action_id: copy_text(&c.action_id),
            proposal_action: copy_text(&c.proposal_action),
            reference: copy_text(&c.reference),
            reason: copy_text(&c.reason),
            applicability: copy_text(&c.status),
            execution,
            review_decision: find_review_decision(reviews, &a.action_id),
            required_inputs,
        };
        let ss = text_is(&p.execution, &['s', 'e', 'l', 'f', '_', 's', 'u', 'f', 'f', 'i', 'c', 'i', 'e', 'n', 't']);
        let ri = text_is(&p.execution, &['r', 'e', 'q', 'u', 'i', 'r', 'e', 's', '_', 'e', 'x', 'p', 'l', 'i', 'c', 'i', 't', '_', 'i', 'n', 'p', 'u', 't']);
        let na = text_is(&p.execution, &['n', 'o', 't', '_', 'a', 'p', 'p', 'l', 'i', 'c', 'a', 'b', 'l', 'e']);
        let ghost before = actions@;
        proof {
            assert(plans(p, comparison@[i as int], a, reviews@));
        }
        actions.push(p);
        proof {
            assert(actions@.drop_last() =~= before);
            assert(actions@[i as int] == p);
            assert forall|j: int| 0 <= j < i + 1 implies planned_at(
                #[trigger] actions@[j],
                comparison@[j],
                artifact_actions@,
                reviews@,
            ) by {
                if j < i {
                    assert(actions@[j] == before[j]);
                }
            }
            lemma_count_execution_step(actions@, lit_self_sufficient());
            lemma_count_execution_step(actions@, lit_requires_explicit_input());
            lemma_count_execution_step(actions@, lit_not_applicable());
            lemma_class_is_applicable(a.action@, a.reason@);
            let t = comparison@.take(i + 1);
            assert(t.drop_last() =~= comparison@.take(i as int));
            assert(t.last() == comparison@[i as int]);
        }
        if ss {
            self_sufficient_actions += 1;
        }
        if ri {
            requires_input_actions += 1;
        }
        if na {
            not_applicable_actions += 1;
        }
        i += 1;
    }
    assert(comparison@.take(comparison@.len() as int) =~= comparison@);
    proof {
        lemma_execution_counts_bounded(actions@);
    }
    Ok(
        ApplyPlan {
            artifact_actions: artifact_actions.len(),
            actions,
            self_sufficient_actions,
            requires_input_actions,
            not_applicable_actions,
        },
    )
}

/// The plan of an artifact's comparison with the current proposal (whose
/// compared actions are the artifact's, one each, sorted) has one entry per
/// artifact action, so the artifact's number of actions is at least the sum
/// of the self-sufficient, input-requiring and not applicable counts.
pub proof fn lemma_apply_plan_within_artifact(
    described: Seq<ComparisonAction>,
    artifact_actions: Seq<ProposalAction>,
    plan_actions: Seq<ApplyPlanAction>,
)
    requires
        described.len() == artifact_actions.len(),
        plan_actions.len() == stable_sorted(described).len(),
    ensures
        plan_actions.len() == artifact_actions.len(),
        count_execution(plan_actions, lit_self_sufficient()) + count_execution(
            plan_actions,
            lit_requires_explicit_input(),
        ) + count_execution(plan_actions, lit_not_applicable()) <= artifact_actions.len(),
{
    lemma_stable_sorted_members(described);
    lemma_execution_counts_bounded(plan_actions);
}

/// The artifact's actions have distinct ids.
pub open spec fn distinct_action_ids(actions: Seq<ProposalAction>) -> bool {
    forall|i: int, j: int| 0 <= i < j < actions.len() ==> actions[i].action_id@ != actions[j].action_id@
}

proof fn lemma_artifact_action_found(actions: Seq<ProposalAction>, m: int)
    requires
        0 <= m < actions.len(),
    ensures
        artifact_action_by_id(actions, actions[m].action_id@) is Some,
        distinct_action_ids(actions) ==> artifact_action_by_id(actions, actions[m].action_id@) == Some(
            actions[m],
        ),
    decreases actions.len(),
{
    if m < actions.len() - 1 {
        let d = actions.drop_last();
        assert(d[m] == actions[m]);
        lemma_artifact_action_found(d, m);
        if distinct_action_ids(actions) {
            assert(actions[m].action_id@ != actions[actions.len() - 1].action_id@);
            assert(distinct_action_ids(d)) by {
                assert forall|i: int, j: int| 0 <= i < j < d.len() implies d[i].action_id@ != d[j].action_id@ by {
                    assert(d[i] == actions[i] && d[j] == actions[j]);
                }
            }
        }
    }
}

/// The apply plan of an artifact's comparison with the current proposal:
/// given the compared actions `compared` as
/// `compare_forward_annotation_proposal_artifact` gives them (the artifact's
/// actions, one each, described and sorted) and `r` as
/// `plan_forward_annotation_proposal_artifact_apply` gives it for them, the
/// plan is made; it follows the compared actions in order, one entry per
/// artifact action; an entry is not applicable and needs no input exactly
/// when its compared action is not applicable; when the artifact's ids are
/// distinct, an applicable entry is executed as the class of the artifact
/// action it was compared from says and asks for the inputs that action
/// needs; and the artifact's number of actions
/// is at least the sum of the self-sufficient, input-requiring and not
/// applicable counts.
pub proof fn lemma_artifact_apply_plan(
    artifact_actions: Seq<ProposalAction>,
    current: Seq<ProposalAction>,
    reviews: Seq<ReviewAction>,
    described: Seq<ComparisonAction>,
    compared: Seq<ComparisonAction>,
    r: Result<ApplyPlan, PlanError>,
)
    requires
        described.len() == artifact_actions.len(),
        forall|i: int|
            0 <= i < described.len() ==> describes(#[trigger] described[i], artifact_actions[i], current, reviews),
        compared == stable_sorted(described),
        match r {
            Ok(plan) => {
                &&& plan.actions@.len() == compared.len()
                &&& forall|i: int|
                    0 <= i < compared.len() ==> planned_at(
                        #[trigger] plan.actions@[i],
                        compared[i],
                        artifact_actions,
                        reviews,
                    )
                &&& plan.self_sufficient_actions == count_execution(plan.actions@, lit_self_sufficient())
                &&& plan.requires_input_actions == count_execution(plan.actions@, lit_requires_explicit_input())
                &&& plan.not_applicable_actions == count_execution(plan.actions@, lit_not_applicable())
                &&& plan.artifact_actions == artifact_actions.len()
            },
            Err(PlanError::ArtifactActionMissing) => exists|i: int|
                0 <= i < compared.len() && artifact_action_by_id(artifact_actions, #[trigger] compared[i].action_id@)
                    is None,
        },
    ensures
        r is Ok,
        r.unwrap().actions@.len() == artifact_actions.len(),
        r.unwrap().artifact_actions == artifact_actions.len(),
        r.unwrap().artifact_actions >= r.unwrap().self_sufficient_actions + r.unwrap().requires_input_actions
            + r.unwrap().not_applicable_actions,
        forall|i: int|
            0 <= i < compared.len() ==> planned_at(#[trigger] r.unwrap().actions@[i], compared[i], artifact_actions, reviews),
        forall|i: int|
            0 <= i < compared.len() ==> ((#[trigger] r.unwrap().actions@[i]).execution@ == lit_not_applicable()
                && r.unwrap().actions@[i].required_inputs@.len() == 0 <==> compared[i].status@ != lit_applicable()),
        distinct_action_ids(artifact_actions) ==> forall|i: int|
            0 <= i < compared.len() && compared[i].status@ == lit_applicable() ==> exists|m: int|
                0 <= m < artifact_actions.len() && compared[i] == #[trigger] described[m]
                    && r.unwrap().actions@[i].execution@ == execution_class(
                    artifact_actions[m].action@,
                    artifact_actions[m].reason@,
                ) && texts_view(r.unwrap().actions@[i].required_inputs@) == required_input_names(
                    artifact_actions[m].action@,
                    artifact_actions[m].reason@,
                    artifact_actions[m].schematic_part_uuid is Some,
                ),
{
    lemma_stable_sorted_members(described);
    assert forall|i: int| 0 <= i < compared.len() implies artifact_action_by_id(
        artifact_actions,
        #[trigger] compared[i].action_id@,
    ) is Some by {
        let m = choose|m: int| 0 <= m < described.len() && stable_sorted(described)[i] == #[trigger] described[m];
        assert(describes(described[m], artifact_actions[m], current, reviews));
        lemma_artifact_action_found(artifact_actions, m);
    }
    let plan = r.unwrap();
    lemma_execution_counts_bounded(plan.actions@);
    assert forall|i: int| 0 <= i < compared.len() implies ((#[trigger] plan.actions@[i]).execution@
        == lit_not_applicable() && plan.actions@[i].required_inputs@.len() == 0 <==> compared[i].status@
        != lit_applicable()) by {
        assert(planned_at(plan.actions@[i], compared[i], artifact_actions, reviews));
        let a = artifact_action_by_id(artifact_actions, compared[i].action_id@).unwrap();
        lemma_class_is_applicable(a.action@, a.reason@);
    }
    if distinct_action_ids(artifact_actions) {
        assert forall|i: int| 0 <= i < compared.len() && compared[i].status@ == lit_applicable() implies exists|m: int|
            0 <= m < artifact_actions.len() && compared[i] == #[trigger] described[m]
                && plan.actions@[i].execution@ == execution_class(
                artifact_actions[m].action@,
                artifact_actions[m].reason@,
            ) && texts_view(plan.actions@[i].required_inputs@) == required_input_names(
                artifact_actions[m].action@,
                artifact_actions[m].reason@,
                artifact_actions[m].schematic_part_uuid is Some,
            ) by {
            let m = choose|m: int| 0 <= m < described.len() && stable_sorted(described)[i] == #[trigger] described[m];
            assert(describes(described[m], artifact_actions[m], current, reviews));
            lemma_artifact_action_found(artifact_actions, m);
            assert(planned_at(plan.actions@[i], compared[i], artifact_actions, reviews));
        }
    }
}

/// Why an earlier proposal cannot be applied as it stands.
#[derive(Debug, Clone, Copy, PartialEq, Eq, Structural)]
pub enum ArtifactApplyError {
    /// The plan action at `index` is not applicable.
    NotApplicable { index: usize },
    /// The plan action at `index` needs explicit input or is unsupported.
    NotSelfSufficient { index: usize },
}

/// An earlier proposal can be applied only when every planned action is
/// applicable and self-sufficient; otherwise the first action that is not
/// applicable, or else the first that is not self-sufficient, is reported.
pub fn check_artifact_apply_plan(plan: &[ApplyPlanAction]) -> (r: Result<(), ArtifactApplyError>)
    ensures
        match r {
            Ok(()) => forall|i: int|
                0 <= i < plan@.len() ==> (#[trigger] plan@[i]).applicability@ == lit_applicable()
                    && plan@[i].execution@ == lit_self_sufficient(),
            Err(ArtifactApplyError::NotApplicable { index }) => {
                &&& index < plan@.len()
                &&& plan@[index as int].applicability@ != lit_applicable()
                &&& forall|i: int|
                    0 <= i < index ==> (#[trigger] plan@[i]).applicability@ == lit_applicable()
            },
            Err(ArtifactApplyError::NotSelfSufficient { index }) => {
                &&& index < plan@.len()
                &&& plan@[index as int].execution@ != lit_self_sufficient()
                &&& forall|i: int|
                    0 <= i < plan@.len() ==> (#[trigger] plan@[i]).applicability@
                        == lit_applicable()
                &&& forall|i: int|
                    0 <= i < index ==> (#[trigger] plan@[i]).execution@ == lit_self_sufficient()
            },
        },
{
    let mut i: usize = 0;
    while i < plan.len()
        invariant
            i <= plan@.len(),
            forall|j: int| 0 <= j < i ==> (#[trigger] plan@[j]).applicability@ == lit_applicable(),
        decreases plan.len() - i,
    {
        if !text_is(&plan[i].applicability, &['a', 'p', 'p', 'l', 'i', 'c', 'a', 'b', 'l', 'e']) {
            return Err(ArtifactApplyError::NotApplicable { index: i });
        }
        i += 1;
    }
    i = 0;
    while i < plan.len()
        invariant
            i <= plan@.len(),
            forall|j: int| 0 <= j < plan@.len() ==> (#[trigger] plan@[j]).applicability@ == lit_applicable(),
            forall|j: int| 0 <= j < i ==> (#[trigger] plan@[j]).execution@ == lit_self_sufficient(),
        decreases plan.len() - i,
    {
        if !text_is(&plan[i].execution, &['s', 'e', 'l', 'f', '_', 's', 'u', 'f', 'f', 'i', 'c', 'i', 'e', 'n', 't']) {
            return Err(ArtifactApplyError::NotSelfSufficient { index: i });
        }
        i += 1;
    }
    Ok(())
}

/// An action left out of a batch, and why.
#[derive(Debug, PartialEq, Eq)]
pub struct SkippedAction {
    pub action_id: String,
    pub proposal_action: String,
    pub reference: String,
    pub reason: String,
    pub skip_reason: String,
}

/// Why a batch leaves `a` out: deferred or rejected by its latest review;
/// when `classify` holds, also because it needs explicit input (placing a
/// component, fixing a part) or is not supported.
pub open spec fn skip_reason(a: ProposalAction, reviews: Seq<ReviewAction>, classify: bool) -> Option<
    Seq<char>,
> {
    let decision = review_decision_of(reviews, a.action_id@);
    if decision is Some && decision.unwrap()@ == lit_deferred() {
        Some(lit_deferred_by_review())
    } else if decision is Some && decision.unwrap()@ == lit_rejected() {
        Some(lit_rejected_by_review())
    } else if !classify || embedded_applicable(a) {
        None
    } else if a.action@ == lit_add_component() || (a.action@ == lit_update_component()
        && a.reason@ == lit_part_mismatch()) {
        Some(lit_requires_explicit_input())
    } else {
        Some(lit_unsupported_action())
    }
}

/// `s` records that `a` was skipped for `why`.
pub open spec fn records_skip(s: SkippedAction, a: ProposalAction, why: Seq<char>) -> bool {
    &&& s.action_id == a.action_id
    &&& s.proposal_action == a.action
    &&& s.reference == a.reference
    &&& s.reason == a.reason
    &&& s.skip_reason@ == why
}

/// The actions of `actions` a batch applies, in order.
pub open spec fn batch_applied(actions: Seq<ProposalAction>, reviews: Seq<ReviewAction>, classify: bool) -> Seq<
    ProposalAction,
>
    decreases actions.len(),
{
    if actions.len() == 0 {
        Seq::empty()
    } else {
        let rest = batch_applied(actions.drop_last(), reviews, classify);
        if skip_reason(actions.last(), reviews, classify) is None {
            rest.push(actions.last())
        } else {
            rest
        }
    }
}

/// The actions of `actions` a batch skips, with why, in order.
pub open spec fn batch_skipped(actions: Seq<ProposalAction>, reviews: Seq<ReviewAction>, classify: bool) -> Seq<
    (ProposalAction, Seq<char>),
>
    decreases actions.len(),
{
    if actions.len() == 0 {
        Seq::empty()
    } else {
        let rest = batch_skipped(actions.drop_last(), reviews, classify);
        match skip_reason(actions.last(), reviews, classify) {
            Some(why) => rest.push((actions.last(), why)),
            None => rest,
        }
    }
}

/// A batch applies or skips every action, and no action both: the applied
/// and the skipped actions together are as many as the batch.
pub proof fn lemma_batch_partition_complete(
    actions: Seq<ProposalAction>,
    reviews: Seq<ReviewAction>,
    classify: bool,
)
    ensures
        batch_applied(actions, reviews, classify).len() + batch_skipped(actions, reviews, classify).len()
            == actions.len(),
    decreases actions.len(),
{
    if actions.len() > 0 {
        lemma_batch_partition_complete(actions.drop_last(), reviews, classify);
    }
}

/// How many skipped actions were skipped for `why`.
pub open spec fn count_skip_reason(s: Seq<SkippedAction>, why: Seq<char>) -> nat
    decreases s.len(),
{
    if s.len() == 0 {
        0
    } else {
        count_skip_reason(s.drop_last(), why) + if s.last().skip_reason@ == why {
            1nat
        } else {
            0nat
        }
    }
}

/// A batch split into the actions to apply and those skipped.
pub struct BatchPartition {
    pub applied: Vec<ProposalAction>,
    pub skipped: Vec<SkippedAction>,
    pub skipped_deferred_actions: usize,
    pub skipped_rejected_actions: usize,
    pub skipped_requires_input_actions: usize,
}

/// `p` splits `actions` as the batch rules say.
pub open spec fn partitions(
    p: BatchPartition,
    actions: Seq<ProposalAction>,
    reviews: Seq<ReviewAction>,
    classify: bool,
) -> bool {
    &&& p.applied@ == batch_applied(actions, reviews, classify)
    &&& p.skipped@.len() == batch_skipped(actions, reviews, classify).len()
    &&& forall|i: int|
        0 <= i < p.skipped@.len() ==> records_skip(
            #[trigger] p.skipped@[i],
            batch_skipped(actions, reviews, classify)[i].0,
            batch_skipped(actions, reviews, classify)[i].1,
        )
    &&& p.skipped_deferred_actions == count_skip_reason(p.skipped@, lit_deferred_by_review())
    &&& p.skipped_rejected_actions == count_skip_reason(p.skipped@, lit_rejected_by_review())
    &&& p.skipped_requires_input_actions == count_skip_reason(
        p.skipped@,
        lit_requires_explicit_input(),
    )
}

proof fn lemma_count_skip_push(s: Seq<SkippedAction>, x: SkippedAction, why: Seq<char>)
    ensures
        count_skip_reason(s.push(x), why) == count_skip_reason(s, why) + if x.skip_reason@ == why {
            1nat
        } else {
            0nat
        },
        count_skip_reason(s, why) <= s.len(),
    decreases s.len(),
{
    assert(s.push(x).drop_last() =~= s);
    if s.len() > 0 {
        lemma_count_skip_push(s.drop_last(), s.last(), why);
        assert(s.drop_last().push(s.last()) =~= s);
    }
}

/// Why a batch leaves `a` out, if it does.
fn find_skip_reason(a: &ProposalAction, reviews: &[ReviewAction], classify: bool) -> (r: Option<String>)
    ensures
        match r {
            Some(why) => skip_reason(*a, reviews@, classify) == Some(why@),
            None => skip_reason(*a, reviews@, classify) is None,
        },
{
    match find_review_decision(reviews, &a.action_id) {
        Some(d) => {
            if text_is(&d, &['d', 'e', 'f', 'e', 'r', 'r', 'e', 'd']) {
                return Some(text_of(&['d', 'e', 'f', 'e', 'r', 'r', 'e', 'd', '_', 'b', 'y', '_', 'r', 'e', 'v', 'i', 'e', 'w']));
            }
            if text_is(&d, &['r', 'e', 'j', 'e', 'c', 't', 'e', 'd']) {
                return Some(text_of(&['r', 'e', 'j', 'e', 'c', 't', 'e', 'd', '_', 'b', 'y', '_', 'r', 'e', 'v', 'i', 'e', 'w']));
            }
        },
        None => {},
    }
    if !classify {
        return None;
    }
    let value_fix = text_is(&a.action, &['u', 'p', 'd', 'a', 't', 'e', '_', 'c', 'o', 'm', 'p', 'o', 'n', 'e', 'n', 't']) && text_is(&a.reason, &['v', 'a', 'l', 'u', 'e', '_', 'm', 'i', 's', 'm', 'a', 't', 'c', 'h']);
    let removal = text_is(&a.action, &['r', 'e', 'm', 'o', 'v', 'e', '_', 'c', 'o', 'm', 'p', 'o', 'n', 'e', 'n', 't']) && text_is(&a.reason, &['b', 'o', 'a', 'r', 'd', '_', 'c', 'o', 'm', 'p', 'o', 'n', 'e', 'n', 't', '_', 'm', 'i', 's', 's', 'i', 'n', 'g', '_', 'i', 'n', '_', 's', 'c', 'h', 'e', 'm', 'a', 't', 'i', 'c']);
    if value_fix || removal {
        return None;
    }
    if text_is(&a.action, &['a', 'd', 'd', '_', 'c', 'o', 'm', 'p', 'o', 'n', 'e', 'n', 't']) || (text_is(&a.action, &['u', 'p', 'd', 'a', 't', 'e', '_', 'c', 'o', 'm', 'p', 'o', 'n', 'e', 'n', 't']) && text_is(&a.reason, &['p', 'a', 'r', 't', '_', 'm', 'i', 's', 'm', 'a', 't', 'c', 'h'])) {
        Some(text_of(&['r', 'e', 'q', 'u', 'i', 'r', 'e', 's', '_', 'e', 'x', 'p', 'l', 'i', 'c', 'i', 't', '_', 'i', 'n', 'p', 'u', 't']))
    } else {
        Some(text_of(&['u', 'n', 's', 'u', 'p', 'p', 'o', 'r', 't', 'e', 'd', '_', 'a', 'c', 't', 'i', 'o', 'n']))
    }
}

/// Splits `actions` into those a batch applies and those it skips.
fn partition_batch(actions: &[ProposalAction], reviews: &[ReviewAction], classify: bool) -> (p: BatchPartition)
    ensures
        partitions(p, actions@, reviews@, classify),
{
    let mut applied: Vec<ProposalAction> = Vec::new();
    let mut skipped: Vec<SkippedAction> = Vec::new();
    let mut deferred: usize = 0;
    let mut rejected: usize = 0;
    let mut needs_input: usize = 0;
    let mut i: usize = 0;
    assert(actions@.take(0) =~= Seq::<ProposalAction>::empty());
    while i < actions.len()
        invariant
            i <= actions@.len(),
            applied@ == batch_applied(actions@.take(i as int), reviews@, classify),
            skipped@.len() == batch_skipped(actions@.take(i as int), reviews@, classify).len(),
            skipped@.len() <= i,
            forall|j: int|
                0 <= j < skipped@.len() ==> records_skip(
                    #[trigger] skipped@[j],
                    batch_skipped(actions@.take(i as int), reviews@, classify)[j].0,
                    batch_skipped(actions@.take(i as int), reviews@, classify)[j].1,
                ),
            deferred == count_skip_reason(skipped@, lit_deferred_by_review()),
            rejected == count_skip_reason(skipped@, lit_rejected_by_review()),
            needs_input == count_skip_reason(skipped@, lit_requires_explicit_input()),
        decreases actions.len() - i,
    {
        let a = &actions[i];
        let ghost t = actions@.take(i + 1);
        proof {
            assert(t.drop_last() =~= actions@.take(i as int));
            assert(t.last() == *a);
        }
        match find_skip_reason(a, reviews, classify) {
            None => {
                applied.push(a.duplicate());
            },
            Some(why) => {
                let s = SkippedAction {
                    action_id: copy_text(&a.action_id),
                    proposal_action: copy_text(&a.action),
                    reference: copy_text(&a.reference),
                    reason: copy_text(&a.reason),
                    skip_reason: why,
                };
                let d = text_is(&s.skip_reason, &['d', 'e', 'f', 'e', 'r', 'r', 'e', 'd', '_', 'b', 'y', '_', 'r', 'e', 'v', 'i', 'e', 'w']);
                let rj = text_is(&s.skip_reason, &['r', 'e', 'j', 'e', 'c', 't', 'e', 'd', '_', 'b', 'y', '_', 'r', 'e', 'v', 'i', 'e', 'w']);
                let rq = text_is(&s.skip_reason, &['r', 'e', 'q', 'u', 'i', 'r', 'e', 's', '_', 'e', 'x', 'p', 'l', 'i', 'c', 'i', 't', '_', 'i', 'n', 'p', 'u', 't']);
                let ghost before = skipped@;
                proof {
                    lemma_count_skip_push(before, s, lit_deferred_by_review());
                    lemma_count_skip_push(before, s, lit_rejected_by_review());
                    lemma_count_skip_push(before, s, lit_requires_explicit_input());
                }
                skipped.push(s);
                if d {
                    deferred += 1;
                }
                if rj {
                    rejected += 1;
                }
                if rq {
                    needs_input += 1;
                }
                proof {
                    assert forall|j: int| 0 <= j < skipped@.len() implies records_skip(
                        #[trigger] skipped@[j],
                        batch_skipped(t, reviews@, classify)[j].0,
                        batch_skipped(t, reviews@, classify)[j].1,
                    ) by {
                        if j < before.len() {
                            assert(skipped@[j] == before[j]);
                        }
                    }
                }
            },
        }
        i += 1;
    }
    assert(actions@.take(actions.len() as int) =~= actions@);
    BatchPartition {
        applied,
        skipped,
        skipped_deferred_actions: deferred,
        skipped_rejected_actions: rejected,
        skipped_requires_input_actions: needs_input,
    }
}

/// The actions of an earlier proposal to apply: those not deferred or
/// rejected by their latest review, in order; the others are skipped.
pub fn partition_artifact_actions_by_review(actions: &[ProposalAction], reviews: &[ReviewAction]) -> (p:
    BatchPartition)
    ensures
        partitions(p, actions@, reviews@, false),
{
    partition_batch(actions, reviews, false)
}

/// The actions of the current proposal that a reviewed batch applies: not
/// deferred or rejected by review, and applicable without further input;
/// the others are skipped with their reason.
pub fn partition_reviewed_actions(actions: &[ProposalAction], reviews: &[ReviewAction]) -> (p:
    BatchPartition)
    ensures
        partitions(p, actions@, reviews@, true),
{
    partition_batch(actions, reviews, true)
}

/// How many reviews of `s` carry the decision `d`.
pub open spec fn count_decision(s: Seq<ReviewAction>, d: Seq<char>) -> nat
    decreases s.len(),
{
    if s.len() == 0 {
        0
    } else {
        count_decision(s.drop_last(), d) + if s.last().decision@ == d {
            1nat
        } else {
            0nat
        }
    }
}

proof fn lemma_count_decision_step(s: Seq<ReviewAction>, i: int, d: Seq<char>)
    requires
        0 <= i < s.len(),
    ensures
        count_decision(s.take(i + 1), d) == count_decision(s.take(i), d) + if s[i].decision@ == d {
            1nat
        } else {
            0nat
        },
        count_decision(s.take(i), d) <= i,
    decreases i,
{
    assert(s.take(i + 1).drop_last() =~= s.take(i));
    if i > 0 {
        lemma_count_decision_step(s, i - 1, d);
    } else {
        assert(s.take(0) =~= Seq::<ReviewAction>::empty());
    }
}

/// Counts the reviews of `s` with decision `d`.
pub fn count_reviews_with_decision(s: &[ReviewAction], d: &[char]) -> (n: usize)
    ensures
        n == count_decision(s@, d@),
{
    let mut n: usize = 0;
    let mut i: usize = 0;
    assert(s@.take(0) =~= Seq::<ReviewAction>::empty());
    while i < s.len()
        invariant
            i <= s@.len(),
            n == count_decision(s@.take(i as int), d@),
        decreases s.len() - i,
    {
        proof {
            lemma_count_decision_step(s@, i as int, d@);
        }
        if text_is(&s[i].decision, d) {
            n += 1;
        }
        i += 1;
    }
    assert(s@.take(s.len() as int) =~= s@);
    n
}

/// The recorded reviews, ordered by reference, action, reason and id.
pub struct ReviewListing {
    pub actions: Vec<ReviewAction>,
    pub deferred_actions: usize,
    pub rejected_actions: usize,
}

/// Lists the recorded reviews in order with their counts of deferred and
/// rejected decisions.
pub fn forward_annotation_review_listing(records: Vec<ReviewAction>) -> (r: ReviewListing)
    ensures
        r.actions@ == stable_sorted(records@),
        is_key_sorted(r.actions@),
        r.deferred_actions == count_decision(r.actions@, lit_deferred()),
        r.rejected_actions == count_decision(r.actions@, lit_rejected()),
{
    let actions = stable_sort_by_key(records);
    let deferred_actions = count_reviews_with_decision(&actions, &['d', 'e', 'f', 'e', 'r', 'r', 'e', 'd']);
    let rejected_actions = count_reviews_with_decision(&actions, &['r', 'e', 'j', 'e', 'c', 't', 'e', 'd']);
    ReviewListing { actions, deferred_actions, rejected_actions }
}

/// Why a review cannot be recorded.
#[derive(Debug, Clone, Copy, PartialEq, Eq, Structural)]
pub enum ReviewError {
    /// A decision other than `deferred` or `rejected`.
    UnsupportedDecision,
    /// No current action has the id.
    ActionNotFound,
}

/// The first action of `actions` with the id `id`.
pub open spec fn first_action_with_id(actions: Seq<ProposalAction>, id: Seq<char>) -> Option<
    ProposalAction,
>
    decreases actions.len(),
{
    if actions.len() == 0 {
        None
    } else if actions[0].action_id@ == id {
        Some(actions[0])
    } else {
        first_action_with_id(actions.drop_first(), id)
    }
}

/// The first action of `actions` with the id `id`.
pub fn find_action(actions: &[ProposalAction], id: &String) -> (r: Option<ProposalAction>)
    ensures
        r == first_action_with_id(actions@, id@),
{
    let mut i: usize = 0;
    assert(actions@.skip(0) =~= actions@);
    while i < actions.len()
        invariant
            i <= actions@.len(),
            first_action_with_id(actions@, id@) == first_action_with_id(actions@.skip(i as int), id@),
        decreases actions.len() - i,
    {
        proof {
            assert(actions@.skip(i as int)[0] == actions@[i as int]);
            assert(actions@.skip(i as int).drop_first() =~= actions@.skip(i + 1));
        }
        if actions[i].action_id == *id {
            return Some(actions[i].duplicate());
        }
        i += 1;
    }
    None
}

/// The review to record for the action `action_id` of the current proposal:
/// the decision must be `deferred` or `rejected`, and the review carries the
/// action's kind, reference and reason.
pub fn forward_annotation_review_record(
    actions: &[ProposalAction],
    action_id: &String,
    decision: &String,
) -> (r: Result<ReviewAction, ReviewError>)
    ensures
        decision@ != lit_deferred() && decision@ != lit_rejected() ==> r == Err::<
            ReviewAction,
            ReviewError,
        >(ReviewError::UnsupportedDecision),
        (decision@ == lit_deferred() || decision@ == lit_rejected()) ==> match first_action_with_id(
            actions@,
            action_id@,
        ) {
            None => r == Err::<ReviewAction, ReviewError>(ReviewError::ActionNotFound),
            Some(a) => r == Ok::<ReviewAction, ReviewError>(
                ReviewAction {
                    action_id: a.action_id,
                    decision: *decision,
                    proposal_action: a.action,
                    reference: a.reference,
                    reason: a.reason,
                },
            ),
        },
{
    if !text_is(decision, &['d', 'e', 'f', 'e', 'r', 'r', 'e', 'd']) && !text_is(decision, &['r', 'e', 'j', 'e', 'c', 't', 'e', 'd']) {
        return Err(ReviewError::UnsupportedDecision);
    }
    match find_action(actions, action_id) {
        None => Err(ReviewError::ActionNotFound),
        Some(a) => Ok(
            ReviewAction {
                action_id: a.action_id,
                decision: copy_text(decision),
                proposal_action: a.action,
                reference: a.reference,
                reason: a.reason,
            },
        ),
    }
}

/// How many actions of `s` are of the kind `kind`.
pub open spec fn count_kind(s: Seq<ProposalAction>, kind: Seq<char>) -> nat
    decreases s.len(),
{
    if s.len() == 0 {
        0
    } else {
        count_kind(s.drop_last(), kind) + if s.last().action@ == kind {
            1nat
        } else {
            0nat
        }
    }
}

proof fn lemma_count_kind_step(s: Seq<ProposalAction>, i: int, kind: Seq<char>)
    requires
        0 <= i < s.len(),
    ensures
        count_kind(s.take(i + 1), kind) == count_kind(s.take(i), kind) + if s[i].action@ == kind {
            1nat
        } else {
            0nat
        },
        count_kind(s.take(i), kind) <= i,
    decreases i,
{
    assert(s.take(i + 1).drop_last() =~= s.take(i));
    if i > 0 {
        lemma_count_kind_step(s, i - 1, kind);
    } else {
        assert(s.take(0) =~= Seq::<ProposalAction>::empty());
    }
}

/// Counts the actions of `s` of the kind `kind`.
pub fn count_actions_of_kind(s: &[ProposalAction], kind: &[char]) -> (n: usize)
    ensures
        n == count_kind(s@, kind@),
{
    let mut n: usize = 0;
    let mut i: usize = 0;
    assert(s@.take(0) =~= Seq::<ProposalAction>::empty());
    while i < s.len()
        invariant
            i <= s@.len(),
            n == count_kind(s@.take(i as int), kind@),
        decreases s.len() - i,
    {
        proof {
            lemma_count_kind_step(s@, i as int, kind@);
        }
        if text_is(&s[i].action, kind) {
            n += 1;
        }
        i += 1;
    }
    assert(s@.take(s.len() as int) =~= s@);
    n
}

/// The counts an inspection of a proposal artifact reports.
pub struct ArtifactCounts {
    pub add_component_actions: usize,
    pub remove_component_actions: usize,
    pub update_component_actions: usize,
    pub deferred_reviews: usize,
    pub rejected_reviews: usize,
}

/// Counts the actions of an artifact by kind and its reviews by decision.
pub fn inspect_forward_annotation_proposal_artifact(
    actions: &[ProposalAction],
    reviews: &[ReviewAction],
) -> (r: ArtifactCounts)
    ensures
        r.add_component_actions == count_kind(actions@, lit_add_component()),
        r.remove_component_actions == count_kind(actions@, lit_remove_component()),
        r.update_component_actions == count_kind(actions@, lit_update_component()),
        r.deferred_reviews == count_decision(reviews@, lit_deferred()),
        r.rejected_reviews == count_decision(reviews@, lit_rejected()),
{
    ArtifactCounts {
        add_component_actions: count_actions_of_kind(actions, &['a', 'd', 'd', '_', 'c', 'o', 'm', 'p', 'o', 'n', 'e', 'n', 't']),
        remove_component_actions: count_actions_of_kind(actions, &['r', 'e', 'm', 'o', 'v', 'e', '_', 'c', 'o', 'm', 'p', 'o', 'n', 'e', 'n', 't']),
        update_component_actions: count_actions_of_kind(actions, &['u', 'p', 'd', 'a', 't', 'e', '_', 'c', 'o', 'm', 'p', 'o', 'n', 'e', 'n', 't']),
        deferred_reviews: count_reviews_with_decision(reviews, &['d', 'e', 'f', 'e', 'r', 'r', 'e', 'd']),
        rejected_reviews: count_reviews_with_decision(reviews, &['r', 'e', 'j', 'e', 'c', 't', 'e', 'd']),
    }
}

/// Where an earlier action stands is decided by the current proposal alone:
/// it is applicable when some current action has its id; otherwise it is
/// drifted when some current action has its reference and its kind of
/// action; and it is stale only when no current action shares its id, nor
/// its reference together with its kind of action.
pub proof fn lemma_artifact_status_cases(a: ProposalAction, current: Seq<ProposalAction>)
    ensures
        forall|i: int|
            0 <= i < current.len() && (#[trigger] current[i]).action_id@ == a.action_id@ ==> artifact_status(a, current)
                == lit_applicable(),
        (forall|i: int| 0 <= i < current.len() ==> (#[trigger] current[i]).action_id@ != a.action_id@) ==> forall|
            j: int,
        |
            0 <= j < current.len() && (#[trigger] current[j]).reference@ == a.reference@ && current[j].action@
                == a.action@ ==> artifact_status(a, current) == lit_drifted(),
        artifact_status(a, current) == lit_stale() ==> forall|i: int|
            0 <= i < current.len() ==> (#[trigger] current[i]).action_id@ != a.action_id@ && !(current[i].reference@
                == a.reference@ && current[i].action@ == a.action@),
        artifact_status(a, current) == lit_applicable() ==> exists|i: int|
            0 <= i < current.len() && (#[trigger] current[i]).action_id@ == a.action_id@,
        artifact_status(a, current) == lit_applicable() || artifact_status(a, current) == lit_drifted()
            || artifact_status(a, current) == lit_stale(),
{
    assert(lit_applicable().len() != lit_drifted().len());
    assert(lit_applicable().len() != lit_stale().len());
    assert(lit_drifted().len() != lit_stale().len());
}

/// The inputs applying an action asks for: an action needs inputs exactly
/// when it places a component or fixes a part mismatch, and then always a
/// package; placing also needs a position and a layer; and a part is asked
/// for exactly when the action needs inputs and the schematic resolves no
/// part. An action needs inputs exactly when its execution is
/// `requires_explicit_input`.
pub proof fn lemma_required_inputs(action: Seq<char>, reason: Seq<char>, has_part: bool)
    ensures
        ({
            let needs = action == lit_add_component() || (action == lit_update_component() && reason
                == lit_part_mismatch());
            let r = required_input_names(action, reason, has_part);
            &&& (r.len() > 0 <==> needs)
            &&& (needs ==> r.contains(lit_package_uuid()))
            &&& (action == lit_add_component() ==> r.contains(lit_x_nm()) && r.contains(lit_y_nm()) && r.contains(
                lit_layer(),
            ))
            &&& (r.contains(lit_part_uuid()) <==> needs && !has_part)
            &&& (needs <==> execution_class(action, reason) == lit_requires_explicit_input())
        }),
{
    let r = required_input_names(action, reason, has_part);
    assert(lit_add_component().len() != lit_update_component().len());
    assert(lit_remove_component().len() != lit_add_component().len());
    assert(lit_requires_explicit_input().len() != lit_self_sufficient().len());
    assert(lit_requires_explicit_input().len() != lit_unsupported().len());
    if action == lit_add_component() {
        assert(r[0] == lit_package_uuid());
        assert(r[1] == lit_x_nm());
        assert(r[2] == lit_y_nm());
        assert(r[3] == lit_layer());
        if !has_part {
            assert(r[4] == lit_part_uuid());
        } else {
            assert(r =~= seq![lit_package_uuid(), lit_x_nm(), lit_y_nm(), lit_layer()]);
            assert(lit_part_uuid().len() != lit_package_uuid().len());
            assert(lit_part_uuid().len() != lit_x_nm().len());
            assert(lit_part_uuid().len() != lit_y_nm().len());
            assert(lit_part_uuid().len() != lit_layer().len());
        }
    } else if action == lit_update_component() && reason == lit_part_mismatch() {
        assert(r[0] == lit_package_uuid());
        assert(lit_value_mismatch().len() != lit_part_mismatch().len());
        if !has_part {
            assert(r[1] == lit_part_uuid());
        } else {
            assert(r =~= seq![lit_package_uuid()]);
            assert(lit_part_uuid().len() != lit_package_uuid().len());
        }
    } else {
        assert(r.len() == 0);
    }
}

} // verus!
