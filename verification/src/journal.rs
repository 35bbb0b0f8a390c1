//! The project's transaction journal: when an undo or redo is refused, and
//! what the journal's tip allows next.
use vstd::prelude::*;
use crate::forward_annotation::text_is;
use crate::text::chars_of;

verus! {

/// The diagnostic codes that mark the journal cursor as unhealthy.
pub open spec fn unhealthy_cursor_code(code: Seq<char>) -> bool {
    ||| code == seq![
        'j', 'o', 'u', 'r', 'n', 'a', 'l', '_', 'c', 'u', 'r', 's', 'o', 'r', '_', 'r', 'e', 'a', 'd', '_',
        'e', 'r', 'r', 'o', 'r'
    ]
    ||| code == seq![
        'j', 'o', 'u', 'r', 'n', 'a', 'l', '_', 'c', 'u', 'r', 's', 'o', 'r', '_', 'p', 'a', 'r', 's', 'e',
        '_', 'e', 'r', 'r', 'o', 'r'
    ]
    ||| code == seq![
        'j', 'o', 'u', 'r', 'n', 'a', 'l', '_', 'c', 'u', 'r', 's', 'o', 'r', '_', 'o', 'u', 't', '_', 'o',
        'f', '_', 'r', 'a', 'n', 'g', 'e'
    ]
    ||| code == seq![
        'j', 'o', 'u', 'r', 'n', 'a', 'l', '_', 'c', 'u', 'r', 's', 'o', 'r', '_', 'b', 'e', 'h', 'i', 'n',
        'd'
    ]
}

fn is_unhealthy_cursor_code(code: &String) -> (b: bool)
    ensures
        b == unhealthy_cursor_code(code@),
{
    text_is(
        code,
        &[
            'j', 'o', 'u', 'r', 'n', 'a', 'l', '_', 'c', 'u', 'r', 's', 'o', 'r', '_', 'r', 'e', 'a', 'd', '_',
            'e', 'r', 'r', 'o', 'r',
        ],
    ) || text_is(
        code,
        &[
            'j', 'o', 'u', 'r', 'n', 'a', 'l', '_', 'c', 'u', 'r', 's', 'o', 'r', '_', 'p', 'a', 'r', 's', 'e',
            '_', 'e', 'r', 'r', 'o', 'r',
        ],
    ) || text_is(
        code,
        &[
            'j', 'o', 'u', 'r', 'n', 'a', 'l', '_', 'c', 'u', 'r', 's', 'o', 'r', '_', 'o', 'u', 't', '_', 'o',
            'f', '_', 'r', 'a', 'n', 'g', 'e',
        ],
    ) || text_is(
        code,
        &[
            'j', 'o', 'u', 'r', 'n', 'a', 'l', '_', 'c', 'u', 'r', 's', 'o', 'r', '_', 'b', 'e', 'h', 'i', 'n',
            'd',
        ],
    )
}

/// The first of the project's diagnostics, by their codes, that marks the
/// journal cursor as unhealthy; an undo or redo is refused when there is
/// one.
pub fn unhealthy_journal_cursor(diagnostic_codes: &[String]) -> (r: Option<usize>)
    ensures
        match r {
            Some(k) => k < diagnostic_codes@.len() && unhealthy_cursor_code(diagnostic_codes@[k as int]@)
                && forall|j: int| 0 <= j < k ==> !unhealthy_cursor_code(#[trigger] diagnostic_codes@[j]@),
            None => forall|j: int|
                0 <= j < diagnostic_codes@.len() ==> !unhealthy_cursor_code(#[trigger] diagnostic_codes@[j]@),
        },
{
    let mut i: usize = 0;
    while i < diagnostic_codes.len()
        invariant
            i <= diagnostic_codes.len(),
            forall|j: int| 0 <= j < i ==> !unhealthy_cursor_code(#[trigger] diagnostic_codes@[j]@),
        decreases diagnostic_codes.len() - i,
    {
        if is_unhealthy_cursor_code(&diagnostic_codes[i]) {
            return Some(i);
        }
        i = i + 1;
    }
    None
}

/// Why an undo or redo is refused by its guard.
#[derive(Debug, Clone, Copy, PartialEq, Eq, Structural)]
pub enum JournalGuardError {
    /// The model revision is not the one expected.
    RevisionMismatch,
    /// The journal's last transaction is not the one expected.
    TipMismatch,
}

/// The guard of an undo or redo: the model revision, when one is expected,
/// must be it, and then the journal's last transaction (none for an empty
/// journal), when one is expected, must be it.
pub fn validate_journal_mutation_guard(
    expected_model_revision: Option<&str>,
    current_model_revision: &str,
    expected_tip_transaction: Option<u128>,
    current_tip_transaction: Option<u128>,
) -> (r: Result<(), JournalGuardError>)
    ensures
        r == if expected_model_revision is Some && expected_model_revision.unwrap()@ != current_model_revision@ {
            Err::<(), JournalGuardError>(JournalGuardError::RevisionMismatch)
        } else if expected_tip_transaction is Some && current_tip_transaction != expected_tip_transaction {
            Err::<(), JournalGuardError>(JournalGuardError::TipMismatch)
        } else {
            Ok(())
        },
{
    if let Some(expected) = expected_model_revision {
        let e = chars_of(expected);
        let c = chars_of(current_model_revision);
        if !crate::text::chars_eq(e.as_slice(), c.as_slice()) {
            return Err(JournalGuardError::RevisionMismatch);
        }
    }
    if let Some(expected) = expected_tip_transaction {
        match current_tip_transaction {
            Some(current) => if current != expected {
                return Err(JournalGuardError::TipMismatch);
            },
            None => {
                return Err(JournalGuardError::TipMismatch);
            },
        }
    }
    Ok(())
}

/// The journal's last transaction, as far as undo and redo care: whether
/// it has inverse operations and whether it is itself an undo.
#[derive(Debug, Clone, Copy, PartialEq, Eq, Structural)]
pub struct JournalTip {
    pub has_inverse: bool,
    pub is_undo: bool,
}

/// Whether an undo and whether a redo can follow: an undo when the last
/// transaction has inverse operations and is no undo, a redo when it has
/// them and is an undo; neither for an empty journal.
pub fn journal_tip_availability(tip: Option<JournalTip>) -> (r: (bool, bool))
    ensures
        r == match tip {
            None => (false, false),
            Some(t) => (t.has_inverse && !t.is_undo, t.has_inverse && t.is_undo),
        },
{
    match tip {
        None => (false, false),
        Some(t) => (t.has_inverse && !t.is_undo, t.has_inverse && t.is_undo),
    }
}

} // verus!
