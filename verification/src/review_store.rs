//! The store of forward-annotation reviews: one review per action id, a
//! later review of an action replacing the earlier, in order of action id.
use vstd::prelude::*;
use crate::forward_annotation::{
    ProposalAction, ReviewAction, ReviewError, copy_text, first_action_with_id, forward_annotation_review_record,
    lit_deferred, lit_rejected,
};
use crate::render::push_chars;
use crate::text::{chars_of, string_from_chars};
use crate::forward_annotation_audit::{
    Referenced, find_by_reference, find_ref, insert_by_reference, insert_record,
    lemma_find_after_insert, lemma_insert_by_reference_sorted, strictly_by_reference,
};
use crate::geometry::PathOrder;
use crate::tally::text_order;

verus! {

impl Referenced for ReviewAction {
    open spec fn ref_view(&self) -> Seq<char> {
        self.action_id@
    }

    fn reference_text(&self) -> (r: &String) {
        &self.action_id
    }

    fn duplicate(&self) -> (r: Self) {
        ReviewAction::duplicate(self)
    }
}

/// What recording or clearing a review reports: what was done, and the
/// review's action id, decision, proposal action, reference and reason.
#[derive(Debug, PartialEq, Eq)]
pub struct ReviewReport {
    pub action: String,
    pub action_id: String,
    pub decision: String,
    pub proposal_action: String,
    pub reference: String,
    pub reason: String,
}

/// What recording a review with `decision` reports as done: the decision
/// followed by `_forward_annotation_action`.
pub open spec fn recorded_action_text(decision: Seq<char>) -> Seq<char> {
    decision + seq![
        '_', 'f', 'o', 'r', 'w', 'a', 'r', 'd', '_', 'a', 'n', 'n', 'o', 't', 'a', 't', 'i', 'o', 'n', '_', 'a',
        'c', 't', 'i', 'o', 'n',
    ]
}

/// What clearing a review reports as done.
pub open spec fn cleared_action_text() -> Seq<char> {
    seq![
        'c', 'l', 'e', 'a', 'r', '_', 'f', 'o', 'r', 'w', 'a', 'r', 'd', '_', 'a', 'n', 'n', 'o', 't', 'a', 't',
        'i', 'o', 'n', '_', 'a', 'c', 't', 'i', 'o', 'n', '_', 'r', 'e', 'v', 'i', 'e', 'w',
    ]
}

/// The report of `review` under the text `action`.
pub open spec fn reports(r: ReviewReport, action: Seq<char>, review: ReviewAction) -> bool {
    &&& r.action@ == action
    &&& r.action_id == review.action_id
    &&& r.decision == review.decision
    &&& r.proposal_action == review.proposal_action
    &&& r.reference == review.reference
    &&& r.reason == review.reason
}

/// The review of the action `a` with `decision`.
pub open spec fn review_of(a: ProposalAction, decision: String) -> ReviewAction {
    ReviewAction {
        action_id: a.action_id,
        decision,
        proposal_action: a.action,
        reference: a.reference,
        reason: a.reason,
    }
}

fn report(action: String, review: &ReviewAction) -> (r: ReviewReport)
    ensures
        reports(r, action@, *review),
{
    ReviewReport {
        action,
        action_id: copy_text(&review.action_id),
        decision: copy_text(&review.decision),
        proposal_action: copy_text(&review.proposal_action),
        reference: copy_text(&review.reference),
        reason: copy_text(&review.reason),
    }
}

/// Records a review of the action `action_id` of the current proposal
/// `actions`: the decision must be `deferred` or `rejected` and the action
/// must be one of the proposal's (else nothing is stored); the review,
/// carrying the action's kind, reference and reason, replaces an earlier
/// review of the same action; the report names the decision followed by
/// `_forward_annotation_action`.
pub fn record_native_project_forward_annotation_review(
    store: &mut Vec<ReviewAction>,
    actions: &[ProposalAction],
    action_id: &String,
    decision: &String,
) -> (r: Result<ReviewReport, ReviewError>)
    ensures
        decision@ != lit_deferred() && decision@ != lit_rejected() ==> r == Err::<ReviewReport, ReviewError>(
            ReviewError::UnsupportedDecision,
        ) && final(store)@ == old(store)@,
        (decision@ == lit_deferred() || decision@ == lit_rejected()) ==> match first_action_with_id(
            actions@,
            action_id@,
        ) {
            None => r == Err::<ReviewReport, ReviewError>(ReviewError::ActionNotFound) && final(store)@ == old(
                store,
            )@,
            Some(a) => r is Ok && reports(r.unwrap(), recorded_action_text(decision@), review_of(a, *decision))
                && final(store)@ == insert_by_reference(old(store)@, review_of(a, *decision)),
        },
{
    match forward_annotation_review_record(actions, action_id, decision) {
        Err(e) => Err(e),
        Ok(review) => {
            let mut text: Vec<char> = chars_of(decision.as_str());
            push_chars(
                &mut text,
                &[
                    '_', 'f', 'o', 'r', 'w', 'a', 'r', 'd', '_', 'a', 'n', 'n', 'o', 't', 'a', 't', 'i', 'o', 'n',
                    '_', 'a', 'c', 't', 'i', 'o', 'n',
                ],
            );
            assert(text@ =~= recorded_action_text(decision@));
            let rep = report(string_from_chars(text.as_slice()), &review);
            insert_record(store, review);
            Ok(rep)
        },
    }
}

/// `t` without its first review of the action `id`.
pub open spec fn without_review(t: Seq<ReviewAction>, id: Seq<char>) -> Seq<ReviewAction>
    decreases t.len(),
{
    if t.len() == 0 {
        t
    } else if t[0].action_id@ == id {
        t.drop_first()
    } else {
        seq![t[0]] + without_review(t.drop_first(), id)
    }
}

/// Why a review cannot be cleared.
#[derive(Debug, Clone, Copy, PartialEq, Eq, Structural)]
pub enum ClearReviewError {
    /// No review of the action is stored.
    NotFound,
}

/// Clears the review of the action `action_id`, reporting it as cleared.
pub fn clear_native_project_forward_annotation_review(store: &mut Vec<ReviewAction>, action_id: &String) -> (r:
    Result<ReviewReport, ClearReviewError>)
    ensures
        match find_ref(old(store)@, action_id@) {
            None => r == Err::<ReviewReport, ClearReviewError>(ClearReviewError::NotFound) && final(store)@
                == old(store)@,
            Some(found) => r is Ok && reports(r.unwrap(), cleared_action_text(), found) && final(store)@
                == without_review(old(store)@, action_id@),
        },
{
    let ghost t = store@;
    match find_by_reference(store.as_slice(), action_id) {
        None => Err(ClearReviewError::NotFound),
        Some(i) => {
            proof {
                lemma_without_review_at(t, action_id@, i as int);
            }
            let removed = store.remove(i);
            proof {
                assert(store@ =~= t.take(i as int) + t.skip(i + 1));
            }
            let text = string_from_chars(
                &[
                    'c', 'l', 'e', 'a', 'r', '_', 'f', 'o', 'r', 'w', 'a', 'r', 'd', '_', 'a', 'n', 'n', 'o', 't',
                    'a', 't', 'i', 'o', 'n', '_', 'a', 'c', 't', 'i', 'o', 'n', '_', 'r', 'e', 'v', 'i', 'e', 'w',
                ],
            );
            assert(text@ =~= cleared_action_text());
            Ok(report(text, &removed))
        },
    }
}

proof fn lemma_without_review_at(t: Seq<ReviewAction>, id: Seq<char>, i: int)
    requires
        0 <= i < t.len(),
        find_ref(t, id) == Some(t[i]),
        t[i].action_id@ == id,
        forall|j: int| 0 <= j < i ==> t[j].action_id@ != id,
    ensures
        without_review(t, id) == t.take(i) + t.skip(i + 1),
    decreases i,
{
    if i == 0 {
        assert(t.drop_first() =~= t.take(0) + t.skip(1));
    } else {
        let rest = t.drop_first();
        assert(find_ref(t, id) == find_ref(rest, id));
        assert(rest[i - 1] == t[i]);
        lemma_without_review_at(rest, id, i - 1);
        assert(seq![t[0]] + (rest.take(i - 1) + rest.skip(i)) =~= t.take(i) + t.skip(i + 1));
    }
}

/// After a review is recorded, the store gives it back for its action, and
/// gives back what it held before for every other action.
pub proof fn lemma_recorded_review_is_found(store: Seq<ReviewAction>, review: ReviewAction, id: Seq<char>)
    ensures
        find_ref(insert_by_reference(store, review), review.action_id@) == Some(review),
        id != review.action_id@ ==> find_ref(insert_by_reference(store, review), id) == find_ref(store, id),
{
    lemma_find_after_insert(store, review, review.action_id@);
    lemma_find_after_insert(store, review, id);
}

/// Recording keeps the store in strictly ascending order of action id.
pub proof fn lemma_recording_keeps_order(store: Seq<ReviewAction>, review: ReviewAction)
    requires
        strictly_by_reference(store),
    ensures
        strictly_by_reference(insert_by_reference(store, review)),
{
    lemma_insert_by_reference_sorted(store, review);
}

/// In a store with one review per action, clearing an action's review
/// leaves no review of it, and the reviews of other actions as they were.
pub proof fn lemma_cleared_review_is_gone(store: Seq<ReviewAction>, id: Seq<char>, other: Seq<char>)
    requires
        strictly_by_reference(store),
    ensures
        find_ref(without_review(store, id), id) is None,
        other != id ==> find_ref(without_review(store, id), other) == find_ref(store, other),
    decreases store.len(),
{
    if store.len() > 0 {
        let rest = store.drop_first();
        assert(strictly_by_reference(rest)) by {
            assert forall|a: int, b: int| 0 <= a < b < rest.len() implies text_order(
                #[trigger] rest[a].ref_view(),
                #[trigger] rest[b].ref_view(),
            ) == PathOrder::Less by {
                assert(rest[a] == store[a + 1] && rest[b] == store[b + 1]);
            }
        }
        lemma_cleared_review_is_gone(rest, id, other);
        let w = without_review(store, id);
        if store[0].action_id@ == id {
            assert(w == rest);
            assert(find_ref(rest, id) is None) by {
                lemma_absent_after_first(store, id);
            }
        } else {
            assert(w == seq![store[0]] + without_review(rest, id));
            assert(w[0] == store[0]);
            assert(w.drop_first() =~= without_review(rest, id));
        }
    }
}

proof fn lemma_absent_after_first(store: Seq<ReviewAction>, id: Seq<char>)
    requires
        strictly_by_reference(store),
        store.len() > 0,
        store[0].action_id@ == id,
    ensures
        find_ref(store.drop_first(), id) is None,
{
    let rest = store.drop_first();
    assert forall|j: int| 0 <= j < rest.len() implies rest[j].action_id@ != id by {
        assert(rest[j] == store[j + 1]);
        assert(text_order(store[0].ref_view(), store[j + 1].ref_view()) == PathOrder::Less);
        crate::tally::lemma_text_order_flip(id, id);
    }
    lemma_find_none(rest, id);
}

proof fn lemma_find_none(s: Seq<ReviewAction>, id: Seq<char>)
    requires
        forall|j: int| 0 <= j < s.len() ==> s[j].action_id@ != id,
    ensures
        find_ref(s, id) is None,
    decreases s.len(),
{
    if s.len() > 0 {
        let rest = s.drop_first();
        assert forall|j: int| 0 <= j < rest.len() implies rest[j].action_id@ != id by {
            assert(rest[j] == s[j + 1]);
        }
        lemma_find_none(rest, id);
    }
}

proof fn lemma_text_equal(a: Seq<char>, b: Seq<char>)
    requires
        text_order(a, b) == PathOrder::Equal,
    ensures
        a == b,
{
    crate::tally::lemma_text_order_flip(a, b);
}

/// Clearing a review just recorded for an action that had none gives that
/// review back and leaves the store as it was before the record; a second
/// clear of the action then finds nothing.
pub proof fn lemma_clear_undoes_record(store: Seq<ReviewAction>, review: ReviewAction)
    requires
        find_ref(store, review.action_id@) is None,
    ensures
        find_ref(insert_by_reference(store, review), review.action_id@) == Some(review),
        without_review(insert_by_reference(store, review), review.action_id@) == store,
        find_ref(without_review(insert_by_reference(store, review), review.action_id@), review.action_id@) is None,
    decreases store.len(),
{
    lemma_find_after_insert(store, review, review.action_id@);
    let id = review.action_id@;
    if store.len() > 0 {
        let rest = store.drop_first();
        assert(store[0].action_id@ != id);
        assert(find_ref(rest, id) is None);
        let o = text_order(review.ref_view(), store[0].ref_view());
        if o == PathOrder::Less {
            assert((seq![review] + store).drop_first() =~= store);
        } else if o == PathOrder::Equal {
            lemma_text_equal(review.ref_view(), store[0].ref_view());
        } else {
            lemma_clear_undoes_record(rest, review);
            let ins = insert_by_reference(rest, review);
            let w = seq![store[0]] + ins;
            assert(w[0] == store[0]);
            assert(w.drop_first() =~= ins);
            assert(without_review(w, id) == seq![store[0]] + without_review(ins, id));
            assert(seq![store[0]] + rest =~= store);
        }
    }
}

} // verus!
