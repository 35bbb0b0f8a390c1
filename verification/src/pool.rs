//! Pool checks: declared pool paths, model blob file names and hashes, the
//! validation issues they raise, and which orphaned model blobs a clean-up
//! removes.
use vstd::prelude::*;
use crate::ids::{hex_text, sha256_hex, sha256_of};
use crate::library::has_parent_component;
use crate::forward_annotation::text_is;
use crate::text::{chars_of, copy_range, string_from_chars, trim, trim_chars};

verus! {

pub open spec fn lit_error() -> Seq<char> {
    seq!['e', 'r', 'r', 'o', 'r']
}

pub open spec fn lit_invalid_pool_path() -> Seq<char> {
    seq!['i', 'n', 'v', 'a', 'l', 'i', 'd', '_', 'p', 'o', 'o', 'l', '_', 'p', 'a', 't', 'h']
}

pub open spec fn lit_missing_pool_directory() -> Seq<char> {
    seq!['m', 'i', 's', 's', 'i', 'n', 'g', '_', 'p', 'o', 'o', 'l', '_', 'd', 'i', 'r', 'e', 'c', 't', 'o', 'r', 'y']
}


/// The index of the last occurrence of `c` in `s`.
pub open spec fn last_index_of(s: Seq<char>, c: char) -> Option<nat>
    decreases s.len(),
{
    if s.len() == 0 {
        None
    } else if s.last() == c {
        Some((s.len() - 1) as nat)
    } else {
        last_index_of(s.drop_last(), c)
    }
}

/// Whether `c` is an ASCII hexadecimal digit, of either case.
pub open spec fn is_hex_digit(c: char) -> bool {
    ('0' <= c && c <= '9') || ('a' <= c && c <= 'f') || ('A' <= c && c <= 'F')
}

/// A model blob file is named `<sha256>.<ext>`: split at the last `.`, the
/// stem is 64 hexadecimal digits and the extension is not empty.
pub open spec fn model_blob_name(name: Seq<char>) -> Option<(Seq<char>, Seq<char>)> {
    match last_index_of(name, '.') {
        None => None,
        Some(k) => {
            let stem = name.take(k as int);
            let ext = name.skip(k as int + 1);
            if stem.len() == 64 && (forall|i: int| 0 <= i < 64 ==> is_hex_digit(#[trigger] stem[i]))
                && ext.len() > 0 {
                Some((stem, ext))
            } else {
                None
            }
        },
    }
}

proof fn lemma_last_index(s: Seq<char>, c: char, k: int)
    requires
        -1 <= k < s.len(),
        forall|j: int| k < j < s.len() ==> s[j] != c,
        k >= 0 ==> s[k] == c,
    ensures
        last_index_of(s, c) == if k >= 0 {
            Some(k as nat)
        } else {
            None::<nat>
        },
    decreases s.len(),
{
    if s.len() > 0 && k < s.len() - 1 {
        assert(s.last() == s[s.len() - 1]);
        lemma_last_index(s.drop_last(), c, k);
    }
}

/// The hash and extension of a model blob file name `<sha256>.<ext>`.
pub fn parse_model_blob_filename(file_name: &str) -> (r: Option<(String, String)>)
    ensures
        match model_blob_name(file_name@) {
            None => r is None,
            Some((stem, ext)) => r is Some && r.unwrap().0@ == stem && r.unwrap().1@ == ext,
        },
{
    let name = chars_of(file_name);
    let mut k: usize = name.len();
    while k > 0 && name[k - 1] != '.'
        invariant
            k <= name.len(),
            name@ == file_name@,
            forall|j: int| k <= j < name.len() ==> name@[j] != '.',
        decreases k,
    {
        k = k - 1;
    }
    if k == 0 {
        proof {
            lemma_last_index(name@, '.', -1);
        }
        return None;
    }
    let dot = k - 1;
    proof {
        lemma_last_index(name@, '.', dot as int);
    }
    let stem = copy_range(name.as_slice(), 0, dot);
    let ext = copy_range(name.as_slice(), dot + 1, name.len());
    proof {
        assert(stem@ =~= name@.take(dot as int));
        assert(ext@ =~= name@.skip(dot + 1));
    }
    if stem.len() != 64 || ext.len() == 0 {
        return None;
    }
    let mut i: usize = 0;
    while i < 64
        invariant
            i <= 64,
            stem@.len() == 64,
            name@ == file_name@,
            dot < name@.len(),
            last_index_of(name@, '.') == Some(dot as nat),
            stem@ == name@.take(dot as int),
            ext@ == name@.skip(dot + 1),
            ext@.len() > 0,
            forall|j: int| 0 <= j < i ==> is_hex_digit(#[trigger] stem@[j]),
        decreases 64 - i,
    {
        let c = stem[i];
        if !(('0' <= c && c <= '9') || ('a' <= c && c <= 'f') || ('A' <= c && c <= 'F')) {
            assert(!is_hex_digit(stem@[i as int]));
            return None;
        }
        i = i + 1;
    }
    Some((string_from_chars(stem.as_slice()), string_from_chars(ext.as_slice())))
}

/// Whether the hash a model blob file is named by is the lowercase SHA-256
/// digest of its bytes.
pub fn model_blob_hash_matches(sha256: &str, bytes: &[u8]) -> (b: bool)
    ensures
        b == (sha256@ == hex_text(sha256_of(bytes@))),
{
    let computed = sha256_hex(bytes);
    let named = string_from_chars(chars_of(sha256).as_slice());
    named == computed
}

/// A problem found while validating a project.
#[derive(Debug, PartialEq, Eq)]
pub struct ValidationIssue {
    pub severity: String,
    pub code: String,
    pub subject: String,
    pub message: String,
}

/// Records an issue at the end of `issues`.
pub fn push_issue(
    issues: &mut Vec<ValidationIssue>,
    severity: &str,
    code: &str,
    subject: String,
    message: &str,
)
    ensures
        final(issues)@.len() == old(issues)@.len() + 1,
        forall|i: int| 0 <= i < old(issues)@.len() ==> final(issues)@[i] == old(issues)@[i],
        final(issues)@.last().severity@ == severity@,
        final(issues)@.last().code@ == code@,
        final(issues)@.last().subject == subject,
        final(issues)@.last().message@ == message@,
{
    issues.push(
        ValidationIssue {
            severity: string_from_chars(chars_of(severity).as_slice()),
            code: string_from_chars(chars_of(code).as_slice()),
            subject,
            message: string_from_chars(chars_of(message).as_slice()),
        },
    );
}

/// What is wrong with a declared pool path.
#[derive(Debug, Clone, Copy, PartialEq, Eq, Structural)]
pub enum PoolPathIssue {
    /// The path is empty once trimmed.
    Empty,
    /// The path has a `..` component.
    ParentDirectory,
    /// The path resolves to nothing.
    Missing,
    /// The path resolves to something that is not a directory.
    NotDirectory,
}

/// The issue with a declared pool path, checked in this order: empty,
/// parent-directory component, missing, not a directory; `exists` and
/// `is_dir` describe what the path resolves to.
pub open spec fn pool_path_issue(pool_path: Seq<char>, exists: bool, is_dir: bool) -> Option<PoolPathIssue> {
    if trim(pool_path).len() == 0 {
        Some(PoolPathIssue::Empty)
    } else if has_parent_component(pool_path) {
        Some(PoolPathIssue::ParentDirectory)
    } else if !exists {
        Some(PoolPathIssue::Missing)
    } else if !is_dir {
        Some(PoolPathIssue::NotDirectory)
    } else {
        None
    }
}

/// The message recorded for an issue with a declared pool path.
pub open spec fn pool_path_message(k: PoolPathIssue) -> Seq<char> {
    match k {
        PoolPathIssue::Empty => "pool path must be non-empty"@,
        PoolPathIssue::ParentDirectory => "pool path must not contain parent-directory components"@,
        PoolPathIssue::Missing => "declared pool path does not exist"@,
        PoolPathIssue::NotDirectory => "pool path exists but is not a directory"@,
    }
}

/// The issue with a declared pool path, if any, recorded in `issues` with
/// the path as its subject and the issue's message.
pub fn validate_pool_path(
    pool_path: &str,
    exists: bool,
    is_dir: bool,
    issues: &mut Vec<ValidationIssue>,
) -> (r: Option<PoolPathIssue>)
    ensures
        r == pool_path_issue(pool_path@, exists, is_dir),
        r is None ==> final(issues)@ == old(issues)@,
        r is Some ==> final(issues)@.len() == old(issues)@.len() + 1 && final(issues)@.last().subject@
            == pool_path@ && final(issues)@.last().severity@ == lit_error(),
        r is Some ==> forall|i: int| 0 <= i < old(issues)@.len() ==> final(issues)@[i] == old(issues)@[i],
        r == Some(PoolPathIssue::Missing) ==> final(issues)@.last().code@ == lit_missing_pool_directory(),
        (r is Some && r != Some(PoolPathIssue::Missing)) ==> final(issues)@.last().code@
            == lit_invalid_pool_path(),
        r matches Some(k) ==> final(issues)@.last().message@ == pool_path_message(k),
{
    let p = chars_of(pool_path);
    let subject = string_from_chars(p.as_slice());
    if trim_chars(p.as_slice()).len() == 0 {
        push_issue(issues, "error", "invalid_pool_path", subject, "pool path must be non-empty");
        proof { reveal_strlit("error"); reveal_strlit("invalid_pool_path"); }
        return Some(PoolPathIssue::Empty);
    }
    if crate::library::names_parent(p.as_slice()) {
        push_issue(
            issues,
            "error",
            "invalid_pool_path",
            subject,
            "pool path must not contain parent-directory components",
        );
        proof { reveal_strlit("error"); reveal_strlit("invalid_pool_path"); }
        return Some(PoolPathIssue::ParentDirectory);
    }
    if !exists {
        push_issue(issues, "error", "missing_pool_directory", subject, "declared pool path does not exist");
        proof { reveal_strlit("error"); reveal_strlit("missing_pool_directory"); }
        return Some(PoolPathIssue::Missing);
    }
    if !is_dir {
        push_issue(
            issues,
            "error",
            "invalid_pool_path",
            subject,
            "pool path exists but is not a directory",
        );
        proof { reveal_strlit("error"); reveal_strlit("invalid_pool_path"); }
        return Some(PoolPathIssue::NotDirectory);
    }
    None
}

/// Where a declared pool path points: an absolute path as it is, a relative
/// one under the project root (with one `/` between them).
pub open spec fn pool_path_under(root: Seq<char>, pool_path: Seq<char>) -> Seq<char> {
    if pool_path.len() > 0 && pool_path[0] == '/' {
        pool_path
    } else if root.len() == 0 {
        pool_path
    } else if root.last() == '/' {
        root + pool_path
    } else {
        root + seq!['/'] + pool_path
    }
}

/// Where a declared pool path points, the project root being `root`.
pub fn resolve_native_project_pool_path(root: &str, pool_path: &str) -> (r: String)
    ensures
        r@ == pool_path_under(root@, pool_path@),
{
    let p = chars_of(pool_path);
    let base = chars_of(root);
    if p.len() > 0 && p[0] == '/' {
        return string_from_chars(p.as_slice());
    }
    if base.len() == 0 {
        return string_from_chars(p.as_slice());
    }
    let mut out: Vec<char> = Vec::new();
    crate::render::push_chars(&mut out, base.as_slice());
    if base[base.len() - 1] != '/' {
        crate::render::push_chars(&mut out, &['/']);
    }
    crate::render::push_chars(&mut out, p.as_slice());
    assert(out@ =~= pool_path_under(root@, pool_path@));
    string_from_chars(out.as_slice())
}

/// A model blob of the pool as a clean-up sees it.
pub struct PoolModelGcCandidate {
    /// No part refers to the blob.
    pub orphaned: bool,
    /// The blob's role directory.
    pub role: String,
    /// The blob's name is the SHA-256 digest of its bytes.
    pub hash_matches: bool,
    /// The blob is a regular file.
    pub is_regular_file: bool,
}

/// Why a clean-up leaves an orphaned blob in place.
#[derive(Debug, Clone, Copy, PartialEq, Eq, Structural)]
pub enum GcSkipReason {
    /// AMI model bundles are not cleaned up yet.
    AmiBundleDeferred,
    /// The blob's name is not the digest of its bytes.
    HashMismatch,
    /// The blob is not a regular file.
    NotRegularFile,
}

/// What a clean-up does with an orphaned blob.
#[derive(Debug, Clone, Copy, PartialEq, Eq, Structural)]
pub enum GcOutcome {
    /// Delete it.
    Delete,
    /// It would be deleted, but the clean-up is not applied.
    Keep,
    /// Leave it, for this reason.
    Skip(GcSkipReason),
}

/// What a clean-up does with an orphaned blob: AMI bundles, blobs whose
/// hash does not match and non-files are skipped; the others are deleted
/// when the clean-up is applied.
pub open spec fn gc_outcome(c: PoolModelGcCandidate, apply: bool) -> GcOutcome {
    if c.role@ == seq!['a', 'm', 'i'] {
        GcOutcome::Skip(GcSkipReason::AmiBundleDeferred)
    } else if !c.hash_matches {
        GcOutcome::Skip(GcSkipReason::HashMismatch)
    } else if !c.is_regular_file {
        GcOutcome::Skip(GcSkipReason::NotRegularFile)
    } else if apply {
        GcOutcome::Delete
    } else {
        GcOutcome::Keep
    }
}

/// The orphaned candidates, by index in order, with what happens to each.
pub open spec fn gc_entries(cands: Seq<PoolModelGcCandidate>, apply: bool) -> Seq<(usize, GcOutcome)>
    decreases cands.len(),
{
    if cands.len() == 0 {
        Seq::empty()
    } else {
        let rest = gc_entries(cands.drop_last(), apply);
        if cands.last().orphaned {
            rest.push(((cands.len() - 1) as usize, gc_outcome(cands.last(), apply)))
        } else {
            rest
        }
    }
}

/// How many entries are deletions, when `deletes`, or else skips.
pub open spec fn outcome_count(entries: Seq<(usize, GcOutcome)>, deletes: bool) -> nat
    decreases entries.len(),
{
    if entries.len() == 0 {
        0
    } else {
        outcome_count(entries.drop_last(), deletes) + if (deletes && entries.last().1 == GcOutcome::Delete) || (
        !deletes && entries.last().1 is Skip) {
            1nat
        } else {
            0nat
        }
    }
}

/// A clean-up of the pool's model blobs: each orphaned blob's outcome, and
/// how many are planned, deleted and skipped.
pub struct PoolModelGcPlan {
    pub entries: Vec<(usize, GcOutcome)>,
    pub planned_count: usize,
    pub deleted_count: usize,
    pub skipped_count: usize,
}

proof fn lemma_gc_entries_len(cands: Seq<PoolModelGcCandidate>, apply: bool)
    ensures
        gc_entries(cands, apply).len() <= cands.len(),
    decreases cands.len(),
{
    if cands.len() > 0 {
        lemma_gc_entries_len(cands.drop_last(), apply);
    }
}

proof fn lemma_outcome_count_len(entries: Seq<(usize, GcOutcome)>, deletes: bool)
    ensures
        outcome_count(entries, deletes) <= entries.len(),
    decreases entries.len(),
{
    if entries.len() > 0 {
        lemma_outcome_count_len(entries.drop_last(), deletes);
    }
}

/// What a clean-up of the pool's model blobs does: it looks at the orphaned
/// ones only, in order.
pub fn plan_pool_model_gc(candidates: &[PoolModelGcCandidate], apply: bool) -> (r: PoolModelGcPlan)
    ensures
        r.entries@ == gc_entries(candidates@, apply),
        r.planned_count == r.entries@.len(),
        r.deleted_count == outcome_count(r.entries@, true),
        r.skipped_count == outcome_count(r.entries@, false),
{
    let mut entries: Vec<(usize, GcOutcome)> = Vec::new();
    let mut deleted: usize = 0;
    let mut skipped: usize = 0;
    let mut i: usize = 0;
    while i < candidates.len()
        invariant
            i <= candidates.len(),
            entries@ == gc_entries(candidates@.take(i as int), apply),
            deleted == outcome_count(entries@, true),
            skipped == outcome_count(entries@, false),
            entries@.len() <= i,
        decreases candidates.len() - i,
    {
        proof {
            let next = candidates@.take(i + 1);
            assert(next.drop_last() =~= candidates@.take(i as int));
            assert(next.last() == candidates@[i as int]);
            assert(next.len() - 1 == i);
            lemma_outcome_count_len(entries@, true);
            lemma_outcome_count_len(entries@, false);
        }
        let c = &candidates[i];
        if c.orphaned {
            let outcome = if text_is(&c.role, &['a', 'm', 'i']) {
                GcOutcome::Skip(GcSkipReason::AmiBundleDeferred)
            } else if !c.hash_matches {
                GcOutcome::Skip(GcSkipReason::HashMismatch)
            } else if !c.is_regular_file {
                GcOutcome::Skip(GcSkipReason::NotRegularFile)
            } else if apply {
                GcOutcome::Delete
            } else {
                GcOutcome::Keep
            };
            let ghost before = entries@;
            entries.push((i, outcome));
            proof {
                assert(entries@.drop_last() =~= before);
            }
            match outcome {
                GcOutcome::Delete => {
                    deleted = deleted + 1;
                },
                GcOutcome::Skip(_) => {
                    skipped = skipped + 1;
                },
                GcOutcome::Keep => {},
            }
        }
        i = i + 1;
    }
    assert(candidates@.take(candidates.len() as int) =~= candidates@);
    let n = entries.len();
    PoolModelGcPlan { entries, planned_count: n, deleted_count: deleted, skipped_count: skipped }
}

} // verus!
