//! Manufacturing sets and output jobs: which files a set is made of and
//! what an output job run does next.
use vstd::prelude::*;
use crate::forward_annotation::{copy_text, text_is, text_of};
use crate::render::push_chars;
use crate::export_names::{export_prefix, sanitize_export_prefix};
use crate::text::{
    chars_eq, chars_of, split_chars, split_on, starts_with, string_from_chars, trim, trim_chars,
};

verus! {

pub open spec fn lit_bom() -> Seq<char> {
    seq!['b', 'o', 'm']
}

pub open spec fn lit_pnp() -> Seq<char> {
    seq!['p', 'n', 'p']
}

pub open spec fn lit_drill_csv() -> Seq<char> {
    seq!['d', 'r', 'i', 'l', 'l', '_', 'c', 's', 'v']
}

pub open spec fn lit_excellon_drill() -> Seq<char> {
    seq!['e', 'x', 'c', 'e', 'l', 'l', 'o', 'n', '_', 'd', 'r', 'i', 'l', 'l']
}

/// Whether one of the projection entries is of the kind `kind`.
pub open spec fn has_kind(kinds: Seq<String>, kind: Seq<char>) -> bool {
    exists|i: int| 0 <= i < kinds.len() && (#[trigger] kinds[i])@ == kind
}

/// A file of a manufacturing set: its artifact kind and its file name.
pub struct ManufacturingFile {
    pub kind: String,
    pub file_name: String,
}

/// The files a manufacturing set is made of, in order: the BOM, the
/// pick-and-place file, and the drill CSV with the Excellon drill file,
/// each when a projection entry asks for it, named from the prefix.
pub open spec fn manufacturing_files(prefix: Seq<char>, kinds: Seq<String>) -> Seq<(Seq<char>, Seq<char>)> {
    let bom = if has_kind(kinds, lit_bom()) {
        seq![(lit_bom(), prefix + seq!['-', 'b', 'o', 'm', '.', 'c', 's', 'v'])]
    } else {
        Seq::empty()
    };
    let pnp = if has_kind(kinds, lit_pnp()) {
        seq![(lit_pnp(), prefix + seq!['-', 'p', 'n', 'p', '.', 'c', 's', 'v'])]
    } else {
        Seq::empty()
    };
    let drill = if has_kind(kinds, lit_drill_csv()) || has_kind(kinds, lit_excellon_drill()) {
        seq![
            (lit_drill_csv(), prefix + seq!['-', 'd', 'r', 'i', 'l', 'l', '.', 'c', 's', 'v']),
            (lit_excellon_drill(), prefix + seq!['-', 'd', 'r', 'i', 'l', 'l', '.', 'd', 'r', 'l']),
        ]
    } else {
        Seq::empty()
    };
    bom + pnp + drill
}

fn any_kind(kinds: &[String], kind: &[char]) -> (b: bool)
    ensures
        b == has_kind(kinds@, kind@),
{
    let mut i: usize = 0;
    while i < kinds.len()
        invariant
            i <= kinds.len(),
            forall|j: int| 0 <= j < i ==> (#[trigger] kinds@[j])@ != kind@,
        decreases kinds.len() - i,
    {
        if text_is(&kinds[i], kind) {
            return true;
        }
        i = i + 1;
    }
    false
}

fn named(prefix: &Vec<char>, suffix: &[char]) -> (s: String)
    ensures
        s@ == prefix@ + suffix@,
{
    let mut out: Vec<char> = Vec::new();
    push_chars(&mut out, prefix.as_slice());
    push_chars(&mut out, suffix);
    assert(out@ =~= prefix@ + suffix@);
    string_from_chars(out.as_slice())
}

/// The files of a manufacturing set, in the order they are written.
pub fn plan_manufacturing_set_files(prefix: &str, entry_kinds: &[String]) -> (r: Vec<ManufacturingFile>)
    ensures
        r@.len() == manufacturing_files(prefix@, entry_kinds@).len(),
        forall|i: int|
            0 <= i < r@.len() ==> (#[trigger] r@[i]).kind@ == manufacturing_files(prefix@, entry_kinds@)[i].0
                && r@[i].file_name@ == manufacturing_files(prefix@, entry_kinds@)[i].1,
{
    let p = chars_of(prefix);
    let ghost files = manufacturing_files(prefix@, entry_kinds@);
    let mut out: Vec<ManufacturingFile> = Vec::new();
    let ghost mut done: Seq<(Seq<char>, Seq<char>)> = Seq::empty();
    if any_kind(entry_kinds, &['b', 'o', 'm']) {
        out.push(ManufacturingFile { kind: text_of(&['b', 'o', 'm']), file_name: named(&p, &['-', 'b', 'o', 'm', '.', 'c', 's', 'v']) });
        proof {
            done = done + seq![(lit_bom(), prefix@ + seq!['-', 'b', 'o', 'm', '.', 'c', 's', 'v'])];
        }
    }
    if any_kind(entry_kinds, &['p', 'n', 'p']) {
        out.push(ManufacturingFile { kind: text_of(&['p', 'n', 'p']), file_name: named(&p, &['-', 'p', 'n', 'p', '.', 'c', 's', 'v']) });
        proof {
            done = done + seq![(lit_pnp(), prefix@ + seq!['-', 'p', 'n', 'p', '.', 'c', 's', 'v'])];
        }
    }
    if any_kind(entry_kinds, &['d', 'r', 'i', 'l', 'l', '_', 'c', 's', 'v']) || any_kind(entry_kinds, &['e', 'x', 'c', 'e', 'l', 'l', 'o', 'n', '_', 'd', 'r', 'i', 'l', 'l']) {
        out.push(
            ManufacturingFile {
                kind: text_of(&['d', 'r', 'i', 'l', 'l', '_', 'c', 's', 'v']),
                file_name: named(&p, &['-', 'd', 'r', 'i', 'l', 'l', '.', 'c', 's', 'v']),
            },
        );
        out.push(
            ManufacturingFile {
                kind: text_of(&['e', 'x', 'c', 'e', 'l', 'l', 'o', 'n', '_', 'd', 'r', 'i', 'l', 'l']),
                file_name: named(&p, &['-', 'd', 'r', 'i', 'l', 'l', '.', 'd', 'r', 'l']),
            },
        );
        proof {
            done = done + seq![
                (lit_drill_csv(), prefix@ + seq!['-', 'd', 'r', 'i', 'l', 'l', '.', 'c', 's', 'v']),
                (lit_excellon_drill(), prefix@ + seq!['-', 'd', 'r', 'i', 'l', 'l', '.', 'd', 'r', 'l']),
            ];
        }
    }
    assert(done =~= files);
    out
}

/// How many artifact kinds are Gerber kinds (`gerber_` at the start).
pub open spec fn gerber_kind_count(kinds: Seq<String>) -> nat
    decreases kinds.len(),
{
    if kinds.len() == 0 {
        0
    } else {
        gerber_kind_count(kinds.drop_last()) + if kinds.last()@.len() >= 7 && kinds.last()@.take(7)
            == seq!['g', 'e', 'r', 'b', 'e', 'r', '_'] {
            1nat
        } else {
            0nat
        }
    }
}

/// How many written artifacts are Gerber files.
pub fn count_gerber_artifacts(kinds: &[String]) -> (n: usize)
    ensures
        n == gerber_kind_count(kinds@),
{
    let mut n: usize = 0;
    let mut i: usize = 0;
    assert(kinds@.take(0) =~= Seq::<String>::empty());
    while i < kinds.len()
        invariant
            i <= kinds.len(),
            n <= i,
            n == gerber_kind_count(kinds@.take(i as int)),
        decreases kinds.len() - i,
    {
        proof {
            let next = kinds@.take(i + 1);
            assert(next.drop_last() =~= kinds@.take(i as int));
            assert(next.last() == kinds@[i as int]);
        }
        let k = chars_of(kinds[i].as_str());
        if starts_with(k.as_slice(), &['g', 'e', 'r', 'b', 'e', 'r', '_']) {
            n = n + 1;
        }
        i = i + 1;
    }
    assert(kinds@.take(kinds.len() as int) =~= kinds@);
    n
}

/// The kinds joined by `,`.
pub open spec fn joined(kinds: Seq<String>) -> Seq<char>
    decreases kinds.len(),
{
    if kinds.len() == 0 {
        Seq::empty()
    } else if kinds.len() == 1 {
        kinds[0]@
    } else {
        joined(kinds.drop_last()) + seq![','] + kinds.last()@
    }
}

/// The scopes an output job includes, joined by `,`.
pub fn output_job_include_scope(kinds: &[String]) -> (s: String)
    ensures
        s@ == joined(kinds@),
{
    let mut out: Vec<char> = Vec::new();
    let mut i: usize = 0;
    assert(kinds@.take(0) =~= Seq::<String>::empty());
    while i < kinds.len()
        invariant
            i <= kinds.len(),
            out@ == joined(kinds@.take(i as int)),
        decreases kinds.len() - i,
    {
        let ghost before = out@;
        if i > 0 {
            push_chars(&mut out, &[',']);
        }
        push_chars(&mut out, chars_of(kinds[i].as_str()).as_slice());
        proof {
            let next = kinds@.take(i + 1);
            assert(next.drop_last() =~= kinds@.take(i as int));
            assert(next.last() == kinds@[i as int]);
            if i == 0 {
                assert(next.len() == 1);
                assert(out@ =~= next[0]@);
            } else {
                assert(out@ =~= before + seq![','] + next.last()@);
            }
        }
        i = i + 1;
    }
    assert(kinds@.take(kinds.len() as int) =~= kinds@);
    string_from_chars(out.as_slice())
}

/// Where an output job writes: the directory given for the run, else the
/// job's own, else the project's default.
#[derive(Debug, Clone, Copy, PartialEq, Eq, Structural)]
pub enum OutputDirChoice {
    Given,
    JobDirectory,
    ProjectDefault,
}

/// Where an output job writes.
pub fn choose_output_dir(given: bool, job_has_dir: bool) -> (c: OutputDirChoice)
    ensures
        c == if given {
            OutputDirChoice::Given
        } else if job_has_dir {
            OutputDirChoice::JobDirectory
        } else {
            OutputDirChoice::ProjectDefault
        },
{
    if given {
        OutputDirChoice::Given
    } else if job_has_dir {
        OutputDirChoice::JobDirectory
    } else {
        OutputDirChoice::ProjectDefault
    }
}

/// Where an output job run stands.
#[derive(Debug, Clone, Copy, PartialEq, Eq, Structural)]
pub enum OutputJobPhase {
    /// Nothing done yet.
    Start,
    /// Waiting for the release check gate.
    CheckingGate,
    /// Waiting for the artifacts to be generated.
    Generating,
    /// Done.
    Finished,
}

/// What happened outside.
#[derive(Debug, Clone, Copy, PartialEq, Eq, Structural)]
pub enum OutputJobEvent {
    /// The job was looked up; it has this many scopes.
    JobFound { include_count: usize },
    /// The release check gate reported this many active errors.
    GateChecked { active_error_count: usize },
    /// Artifact generation ended; when it succeeded, how many artifacts it
    /// generated and whether a run for them was recorded already.
    ArtifactsGenerated { succeeded: bool, generated_count: usize, existing_run: bool },
}

/// What to do next.
#[derive(Debug, Clone, Copy, PartialEq, Eq, Structural)]
pub enum OutputJobAction {
    /// Stop: the job has no scopes.
    RejectNoIncludes,
    /// Check the release gate.
    CheckGate,
    /// Record a failed run (exit code 1): the release check found blocking issues.
    RecordGateFailure,
    /// Produce the job's artifacts.
    GenerateArtifacts,
    /// Record a failed run: generation failed (exit code 1).
    RecordGenerationFailure,
    /// Report the run already recorded for the single artifact (exit code 0).
    ReuseRecordedRun,
    /// Record a successful run (exit code 0).
    RecordSuccess,
    /// The event does not fit the phase.
    Ignore,
}

/// The next phase and action of an output job run.
pub open spec fn output_job_transition(phase: OutputJobPhase, event: OutputJobEvent) -> (OutputJobPhase, OutputJobAction) {
    match (phase, event) {
        (OutputJobPhase::Start, OutputJobEvent::JobFound { include_count }) => if include_count == 0 {
            (OutputJobPhase::Finished, OutputJobAction::RejectNoIncludes)
        } else {
            (OutputJobPhase::CheckingGate, OutputJobAction::CheckGate)
        },
        (OutputJobPhase::CheckingGate, OutputJobEvent::GateChecked { active_error_count }) => if active_error_count
            > 0 {
            (OutputJobPhase::Finished, OutputJobAction::RecordGateFailure)
        } else {
            (OutputJobPhase::Generating, OutputJobAction::GenerateArtifacts)
        },
        (
            OutputJobPhase::Generating,
            OutputJobEvent::ArtifactsGenerated { succeeded, generated_count, existing_run },
        ) => if !succeeded {
            (OutputJobPhase::Finished, OutputJobAction::RecordGenerationFailure)
        } else if generated_count == 1 && existing_run {
            (OutputJobPhase::Finished, OutputJobAction::ReuseRecordedRun)
        } else {
            (OutputJobPhase::Finished, OutputJobAction::RecordSuccess)
        },
        _ => (phase, OutputJobAction::Ignore),
    }
}

/// The next phase and action of an output job run: a job without
/// scopes is refused; a gate with active errors, or a failed generation,
/// is recorded as a failed run; otherwise the generated artifacts are
/// recorded as a successful run, reusing the recorded run when a single
/// artifact was generated and a run for it exists.
pub fn run_native_project_output_job(phase: OutputJobPhase, event: OutputJobEvent) -> (r: (OutputJobPhase, OutputJobAction))
    ensures
        r == output_job_transition(phase, event),
{
    match (phase, event) {
        (OutputJobPhase::Start, OutputJobEvent::JobFound { include_count }) => if include_count == 0 {
            (OutputJobPhase::Finished, OutputJobAction::RejectNoIncludes)
        } else {
            (OutputJobPhase::CheckingGate, OutputJobAction::CheckGate)
        },
        (OutputJobPhase::CheckingGate, OutputJobEvent::GateChecked { active_error_count }) => if active_error_count
            > 0 {
            (OutputJobPhase::Finished, OutputJobAction::RecordGateFailure)
        } else {
            (OutputJobPhase::Generating, OutputJobAction::GenerateArtifacts)
        },
        (
            OutputJobPhase::Generating,
            OutputJobEvent::ArtifactsGenerated { succeeded, generated_count, existing_run },
        ) => if !succeeded {
            (OutputJobPhase::Finished, OutputJobAction::RecordGenerationFailure)
        } else if generated_count == 1 && existing_run {
            (OutputJobPhase::Finished, OutputJobAction::ReuseRecordedRun)
        } else {
            (OutputJobPhase::Finished, OutputJobAction::RecordSuccess)
        },
        _ => (phase, OutputJobAction::Ignore),
    }
}

/// What a manufacturing set includes.
#[derive(Debug, Clone, Copy, PartialEq, Eq, Structural)]
pub enum ManufacturingInclude {
    GerberSet,
    ManufacturingSet,
    Bom,
    Pnp,
    Drill,
}

/// The scope a name stands for: `gerber-set`, `manufacturing-set`
/// (or `all`), `bom`, `pnp`, `drill`.
pub open spec fn include_named(s: Seq<char>) -> Option<ManufacturingInclude> {
    if s == seq!['g', 'e', 'r', 'b', 'e', 'r', '-', 's', 'e', 't'] {
        Some(ManufacturingInclude::GerberSet)
    } else if s == seq!['m', 'a', 'n', 'u', 'f', 'a', 'c', 't', 'u', 'r', 'i', 'n', 'g', '-', 's', 'e', 't']
        || s == seq!['a', 'l', 'l'] {
        Some(ManufacturingInclude::ManufacturingSet)
    } else if s == lit_bom() {
        Some(ManufacturingInclude::Bom)
    } else if s == lit_pnp() {
        Some(ManufacturingInclude::Pnp)
    } else if s == seq!['d', 'r', 'i', 'l', 'l'] {
        Some(ManufacturingInclude::Drill)
    } else {
        None
    }
}

fn include_of(s: &[char]) -> (r: Option<ManufacturingInclude>)
    ensures
        r == include_named(s@),
{
    if chars_eq(s, &['g', 'e', 'r', 'b', 'e', 'r', '-', 's', 'e', 't']) {
        Some(ManufacturingInclude::GerberSet)
    } else if chars_eq(s, &['m', 'a', 'n', 'u', 'f', 'a', 'c', 't', 'u', 'r', 'i', 'n', 'g', '-', 's', 'e', 't'])
        || chars_eq(s, &['a', 'l', 'l']) {
        Some(ManufacturingInclude::ManufacturingSet)
    } else if chars_eq(s, &['b', 'o', 'm']) {
        Some(ManufacturingInclude::Bom)
    } else if chars_eq(s, &['p', 'n', 'p']) {
        Some(ManufacturingInclude::Pnp)
    } else if chars_eq(s, &['d', 'r', 'i', 'l', 'l']) {
        Some(ManufacturingInclude::Drill)
    } else {
        None
    }
}

/// The scopes of the `,`-separated pieces, in order and each once,
/// blank pieces skipped, or the first piece that names none.
pub open spec fn includes_of(pieces: Seq<Seq<char>>) -> Result<Seq<ManufacturingInclude>, Seq<char>>
    decreases pieces.len(),
{
    if pieces.len() == 0 {
        Ok(Seq::empty())
    } else {
        match includes_of(pieces.drop_last()) {
            Err(s) => Err(s),
            Ok(prev) => {
                let t = trim(pieces.last());
                if t.len() == 0 {
                    Ok(prev)
                } else {
                    match include_named(t) {
                        None => Err(t),
                        Some(k) => if prev.contains(k) {
                            Ok(prev)
                        } else {
                            Ok(prev.push(k))
                        },
                    }
                }
            },
        }
    }
}

proof fn lemma_includes_error_persists(pieces: Seq<Seq<char>>, i: int)
    requires
        0 <= i <= pieces.len(),
        includes_of(pieces.take(i)) is Err,
    ensures
        includes_of(pieces) == includes_of(pieces.take(i)),
    decreases pieces.len() - i,
{
    if i < pieces.len() {
        assert(pieces.take(i + 1).drop_last() =~= pieces.take(i));
        lemma_includes_error_persists(pieces, i + 1);
    } else {
        assert(pieces.take(i) =~= pieces);
    }
}

/// Why a list of scopes is refused.
#[derive(Debug, PartialEq, Eq)]
pub enum IncludeError {
    /// A scope is not one of the known ones.
    Unsupported { scope: String },
    /// The list names no scope.
    Empty,
}

/// `r` is what reading the list of scopes `s` gives.
pub open spec fn include_list_result(r: Result<Vec<ManufacturingInclude>, IncludeError>, s: Seq<char>) -> bool {
    match includes_of(split_on(s, ',')) {
        Err(t) => r matches Err(IncludeError::Unsupported { scope }) && scope@ == t,
        Ok(ks) => if ks.len() == 0 {
            r == Err::<Vec<ManufacturingInclude>, IncludeError>(IncludeError::Empty)
        } else {
            r is Ok && r.unwrap()@ == ks
        },
    }
}

fn has_include(v: &[ManufacturingInclude], k: ManufacturingInclude) -> (b: bool)
    ensures
        b == v@.contains(k),
{
    let mut i: usize = 0;
    while i < v.len()
        invariant
            i <= v.len(),
            forall|j: int| 0 <= j < i ==> v@[j] != k,
        decreases v.len() - i,
    {
        if v[i] == k {
            assert(v@[i as int] == k);
            return true;
        }
        i = i + 1;
    }
    false
}

/// The scopes of a manufacturing set, `,`-separated: each must be
/// known, repeats count once, and one at least is needed.
pub fn parse_manufacturing_include(scopes: &str) -> (r: Result<Vec<ManufacturingInclude>, IncludeError>)
    ensures
        include_list_result(r, scopes@),
{
    let pieces = split_chars(chars_of(scopes).as_slice(), ',');
    let ghost ps = split_on(scopes@, ',');
    let mut out: Vec<ManufacturingInclude> = Vec::new();
    let mut i: usize = 0;
    assert(ps.take(0) =~= Seq::<Seq<char>>::empty());
    while i < pieces.len()
        invariant
            i <= pieces.len(),
            ps == split_on(scopes@, ','),
            pieces@.len() == ps.len(),
            forall|k: int| 0 <= k < pieces@.len() ==> #[trigger] pieces@[k]@ == ps[k],
            includes_of(ps.take(i as int)) == Ok::<Seq<ManufacturingInclude>, Seq<char>>(out@),
        decreases pieces.len() - i,
    {
        proof {
            let next = ps.take(i + 1);
            assert(next.drop_last() =~= ps.take(i as int));
            assert(next.last() == pieces@[i as int]@);
        }
        let t = trim_chars(pieces[i].as_slice());
        if t.len() > 0 {
            match include_of(t.as_slice()) {
                None => {
                    proof {
                        lemma_includes_error_persists(ps, i + 1);
                    }
                    return Err(IncludeError::Unsupported { scope: string_from_chars(t.as_slice()) });
                },
                Some(k) => {
                    if !has_include(out.as_slice(), k) {
                        out.push(k);
                    }
                },
            }
        }
        i = i + 1;
    }
    assert(ps.take(pieces.len() as int) =~= ps);
    if out.len() == 0 {
        return Err(IncludeError::Empty);
    }
    Ok(out)
}

/// The scopes of a run: those given for it, else the job's, else
/// the whole manufacturing set.
pub fn manufacturing_scope_include(
    include_override: Option<&str>,
    job_include: Option<&[ManufacturingInclude]>,
) -> (r: Result<Vec<ManufacturingInclude>, IncludeError>)
    ensures
        match include_override {
            Some(s) => include_list_result(r, s@),
            None => r is Ok && r.unwrap()@ == match job_include {
                Some(j) => j@,
                None => seq![ManufacturingInclude::ManufacturingSet],
            },
        },
{
    match include_override {
        Some(s) => parse_manufacturing_include(s),
        None => match job_include {
            Some(j) => {
                let mut out: Vec<ManufacturingInclude> = Vec::new();
                let mut i: usize = 0;
                while i < j.len()
                    invariant
                        i <= j.len(),
                        out@ == j@.take(i as int),
                    decreases j.len() - i,
                {
                    out.push(j[i]);
                    assert(j@.take(i + 1) =~= j@.take(i as int).push(j@[i as int]));
                    i = i + 1;
                }
                assert(j@.take(j.len() as int) =~= j@);
                Ok(out)
            },
            None => Ok(vec![ManufacturingInclude::ManufacturingSet]),
        },
    }
}

/// The file-name prefix of a run: the one given for it, else the job's,
/// else the board's name, made into an export prefix.
pub fn manufacturing_scope_prefix(prefix_override: Option<&str>, job_prefix: Option<&str>, board_name: &str) -> (r:
    String)
    ensures
        r@ == export_prefix(
            match prefix_override {
                Some(p) => p@,
                None => match job_prefix {
                    Some(j) => j@,
                    None => board_name@,
                },
            },
        ),
{
    match prefix_override {
        Some(p) => sanitize_export_prefix(p),
        None => match job_prefix {
            Some(j) => sanitize_export_prefix(j),
            None => sanitize_export_prefix(board_name),
        },
    }
}

/// An entry of a manufacturing set's manifest: the artifact kind, its file
/// name and how strictly it is compared.
pub struct ManifestEntry {
    pub kind: String,
    pub filename: String,
    pub contract: String,
}

/// An entry as plain text.
pub open spec fn manifest_view(e: ManifestEntry) -> (Seq<char>, Seq<char>, Seq<char>) {
    (e.kind@, e.filename@, e.contract@)
}

/// Whether the scopes ask for `k`: the whole set asks for everything.
pub open spec fn includes_scope(inc: Seq<ManufacturingInclude>, k: ManufacturingInclude) -> bool {
    inc.contains(ManufacturingInclude::ManufacturingSet) || inc.contains(k)
}

pub open spec fn lit_semantic() -> Seq<char> {
    seq!['s', 'e', 'm', 'a', 'n', 't', 'i', 'c']
}

/// The manifest of a manufacturing set, in order: the BOM, the
/// pick-and-place file, the drill CSV and Excellon file, then the Gerber
/// artifacts of the Gerber plan (kind prefixed with `gerber_`), each when
/// the scopes ask for it.
pub open spec fn projection_entries(
    prefix: Seq<char>,
    inc: Seq<ManufacturingInclude>,
    gerber: Seq<(Seq<char>, Seq<char>)>,
) -> Seq<(Seq<char>, Seq<char>, Seq<char>)> {
    let bom = if includes_scope(inc, ManufacturingInclude::Bom) {
        seq![(lit_bom(), prefix + seq!['-', 'b', 'o', 'm', '.', 'c', 's', 'v'], lit_semantic())]
    } else {
        Seq::empty()
    };
    let pnp = if includes_scope(inc, ManufacturingInclude::Pnp) {
        seq![(lit_pnp(), prefix + seq!['-', 'p', 'n', 'p', '.', 'c', 's', 'v'], lit_semantic())]
    } else {
        Seq::empty()
    };
    let drill = if includes_scope(inc, ManufacturingInclude::Drill) {
        seq![
            (lit_drill_csv(), prefix + seq!['-', 'd', 'r', 'i', 'l', 'l', '.', 'c', 's', 'v'], seq!['s', 't', 'r', 'i', 'c', 't']),
            (lit_excellon_drill(), prefix + seq!['-', 'd', 'r', 'i', 'l', 'l', '.', 'd', 'r', 'l'], lit_semantic()),
        ]
    } else {
        Seq::empty()
    };
    let g = if includes_scope(inc, ManufacturingInclude::GerberSet) {
        gerber.map_values(
            |a: (Seq<char>, Seq<char>)| (seq!['g', 'e', 'r', 'b', 'e', 'r', '_'] + a.0, a.1, lit_semantic()),
        )
    } else {
        Seq::empty()
    };
    bom + pnp + drill + g
}

/// Whether the scopes ask for the Gerber set (and so for a Gerber plan).
pub fn includes_gerber_set(scopes: &[ManufacturingInclude]) -> (b: bool)
    ensures
        b == includes_scope(scopes@, ManufacturingInclude::GerberSet),
{
    has_include(scopes, ManufacturingInclude::ManufacturingSet) || has_include(scopes, ManufacturingInclude::GerberSet)
}

fn push_entry(out: &mut Vec<ManifestEntry>, kind: String, filename: String, contract: String)
    ensures
        final(out)@.map_values(|e: ManifestEntry| manifest_view(e)) == old(out)@.map_values(
            |e: ManifestEntry| manifest_view(e),
        ).push((kind@, filename@, contract@)),
{
    let ghost before = out@;
    out.push(ManifestEntry { kind, filename, contract });
    assert(out@.map_values(|e: ManifestEntry| manifest_view(e)) =~= before.map_values(
        |e: ManifestEntry| manifest_view(e),
    ).push((kind@, filename@, contract@)));
}

fn prefixed(prefix: &[char], suffix: &[char]) -> (s: String)
    ensures
        s@ == prefix@ + suffix@,
{
    let mut out: Vec<char> = Vec::new();
    push_chars(&mut out, prefix);
    push_chars(&mut out, suffix);
    string_from_chars(out.as_slice())
}

/// The manifest entries of a manufacturing set with the file-name prefix
/// `prefix`; `gerber_artifacts` are the kinds and file names of the Gerber
/// plan's artifacts.
pub fn manufacturing_projection_entries(
    prefix: &str,
    scopes: &[ManufacturingInclude],
    gerber_artifacts: &[(String, String)],
) -> (r: Vec<ManifestEntry>)
    ensures
        r@.map_values(|e: ManifestEntry| manifest_view(e)) == projection_entries(
            prefix@,
            scopes@,
            gerber_artifacts@.map_values(|a: (String, String)| (a.0@, a.1@)),
        ),
{
    let p = chars_of(prefix);
    let all = has_include(scopes, ManufacturingInclude::ManufacturingSet);
    let mut out: Vec<ManifestEntry> = Vec::new();
    let ghost mut done: Seq<(Seq<char>, Seq<char>, Seq<char>)> = Seq::empty();
    assert(out@.map_values(|e: ManifestEntry| manifest_view(e)) =~= done);
    if all || has_include(scopes, ManufacturingInclude::Bom) {
        push_entry(&mut out, text_of(&['b', 'o', 'm']), prefixed(p.as_slice(), &['-', 'b', 'o', 'm', '.', 'c', 's', 'v']), text_of(&['s', 'e', 'm', 'a', 'n', 't', 'i', 'c']));
        proof {
            done = done + seq![(lit_bom(), prefix@ + seq!['-', 'b', 'o', 'm', '.', 'c', 's', 'v'], lit_semantic())];
        }
    }
    if all || has_include(scopes, ManufacturingInclude::Pnp) {
        push_entry(&mut out, text_of(&['p', 'n', 'p']), prefixed(p.as_slice(), &['-', 'p', 'n', 'p', '.', 'c', 's', 'v']), text_of(&['s', 'e', 'm', 'a', 'n', 't', 'i', 'c']));
        proof {
            done = done + seq![(lit_pnp(), prefix@ + seq!['-', 'p', 'n', 'p', '.', 'c', 's', 'v'], lit_semantic())];
        }
    }
    if all || has_include(scopes, ManufacturingInclude::Drill) {
        push_entry(&mut out, text_of(&['d', 'r', 'i', 'l', 'l', '_', 'c', 's', 'v']), prefixed(p.as_slice(), &['-', 'd', 'r', 'i', 'l', 'l', '.', 'c', 's', 'v']), text_of(&['s', 't', 'r', 'i', 'c', 't']));
        push_entry(&mut out, text_of(&['e', 'x', 'c', 'e', 'l', 'l', 'o', 'n', '_', 'd', 'r', 'i', 'l', 'l']), prefixed(p.as_slice(), &['-', 'd', 'r', 'i', 'l', 'l', '.', 'd', 'r', 'l']), text_of(&['s', 'e', 'm', 'a', 'n', 't', 'i', 'c']));
        proof {
            done = done + seq![
                (lit_drill_csv(), prefix@ + seq!['-', 'd', 'r', 'i', 'l', 'l', '.', 'c', 's', 'v'], seq!['s', 't', 'r', 'i', 'c', 't']),
                (lit_excellon_drill(), prefix@ + seq!['-', 'd', 'r', 'i', 'l', 'l', '.', 'd', 'r', 'l'], lit_semantic()),
            ];
        }
    }
    let ghost ga = gerber_artifacts@.map_values(|a: (String, String)| (a.0@, a.1@));
    let ghost gs = ga.map_values(
        |a: (Seq<char>, Seq<char>)| (seq!['g', 'e', 'r', 'b', 'e', 'r', '_'] + a.0, a.1, lit_semantic()),
    );
    if all || has_include(scopes, ManufacturingInclude::GerberSet) {
        let mut i: usize = 0;
        while i < gerber_artifacts.len()
            invariant
                i <= gerber_artifacts.len(),
                ga == gerber_artifacts@.map_values(|a: (String, String)| (a.0@, a.1@)),
                gs == ga.map_values(
                    |a: (Seq<char>, Seq<char>)| (seq!['g', 'e', 'r', 'b', 'e', 'r', '_'] + a.0, a.1, lit_semantic()),
                ),
                out@.map_values(|e: ManifestEntry| manifest_view(e)) == done + gs.take(i as int),
            decreases gerber_artifacts.len() - i,
        {
            let kind = prefixed(&['g', 'e', 'r', 'b', 'e', 'r', '_'], chars_of(gerber_artifacts[i].0.as_str()).as_slice());
            push_entry(&mut out, kind, copy_text(&gerber_artifacts[i].1), text_of(&['s', 'e', 'm', 'a', 'n', 't', 'i', 'c']));
            assert(gs.take(i + 1) =~= gs.take(i as int).push(gs[i as int]));
            i = i + 1;
        }
        assert(gs.take(gerber_artifacts.len() as int) =~= gs);
    } else {
        assert(done + Seq::<(Seq<char>, Seq<char>, Seq<char>)>::empty() =~= done);
    }
    out
}

/// Where an output job run stands.
#[derive(Debug, Clone, Copy, PartialEq, Eq, Structural)]
pub enum OutputJobRunStatus {
    Running,
    Succeeded,
    Failed,
    Canceled,
}

/// The name of a run status.
pub open spec fn run_status_name(s: OutputJobRunStatus) -> Seq<char> {
    match s {
        OutputJobRunStatus::Running => seq!['r', 'u', 'n', 'n', 'i', 'n', 'g'],
        OutputJobRunStatus::Succeeded => seq!['s', 'u', 'c', 'c', 'e', 'e', 'd', 'e', 'd'],
        OutputJobRunStatus::Failed => seq!['f', 'a', 'i', 'l', 'e', 'd'],
        OutputJobRunStatus::Canceled => seq!['c', 'a', 'n', 'c', 'e', 'l', 'e', 'd'],
    }
}

/// The name of a run status.
pub fn output_job_run_status_name(status: OutputJobRunStatus) -> (r: String)
    ensures
        r@ == run_status_name(status),
{
    match status {
        OutputJobRunStatus::Running => text_of(&['r', 'u', 'n', 'n', 'i', 'n', 'g']),
        OutputJobRunStatus::Succeeded => text_of(&['s', 'u', 'c', 'c', 'e', 'e', 'd', 'e', 'd']),
        OutputJobRunStatus::Failed => text_of(&['f', 'a', 'i', 'l', 'e', 'd']),
        OutputJobRunStatus::Canceled => text_of(&['c', 'a', 'n', 'c', 'e', 'l', 'e', 'd']),
    }
}

/// The largest sequence number of the runs of the output job, 0 when it
/// has none; each run is its job and its sequence number.
pub open spec fn max_run_sequence(runs: Seq<(u128, u64)>, job: u128) -> nat
    decreases runs.len(),
{
    if runs.len() == 0 {
        0
    } else {
        let m = max_run_sequence(runs.drop_last(), job);
        if runs.last().0 == job && runs.last().1 > m {
            runs.last().1 as nat
        } else {
            m
        }
    }
}

/// The sequence number of the output job's next run: one past the largest
/// of its runs.
pub fn next_output_job_run_sequence(runs: &[(u128, u64)], output_job: u128) -> (r: u64)
    requires
        max_run_sequence(runs@, output_job) < u64::MAX,
    ensures
        r == max_run_sequence(runs@, output_job) + 1,
{
    let mut m: u64 = 0;
    let mut i: usize = 0;
    while i < runs.len()
        invariant
            i <= runs.len(),
            m == max_run_sequence(runs@.take(i as int), output_job),
        decreases runs.len() - i,
    {
        proof {
            let next = runs@.take(i + 1);
            assert(next.drop_last() =~= runs@.take(i as int));
            assert(next.last() == runs@[i as int]);
        }
        if runs[i].0 == output_job && runs[i].1 > m {
            m = runs[i].1;
        }
        i = i + 1;
    }
    assert(runs@.take(runs.len() as int) =~= runs@);
    m + 1
}

/// Why an output job cannot be found by name.
#[derive(Debug, Clone, Copy, PartialEq, Eq, Structural)]
pub enum OutputJobLookupError {
    /// No job has the name.
    NotFound,
    /// This many jobs have the name.
    Ambiguous { count: usize },
}

/// The jobs, in order, with the name; each job is its id and its name.
pub open spec fn jobs_named(jobs: Seq<(u128, String)>, name: Seq<char>) -> Seq<u128>
    decreases jobs.len(),
{
    if jobs.len() == 0 {
        Seq::empty()
    } else {
        let rest = jobs_named(jobs.drop_last(), name);
        if jobs.last().1@ == name {
            rest.push(jobs.last().0)
        } else {
            rest
        }
    }
}

proof fn lemma_jobs_named_len(jobs: Seq<(u128, String)>, name: Seq<char>)
    ensures
        jobs_named(jobs, name).len() <= jobs.len(),
    decreases jobs.len(),
{
    if jobs.len() > 0 {
        lemma_jobs_named_len(jobs.drop_last(), name);
    }
}

/// The output job with the name: exactly one job must have it.
pub fn find_output_job_by_name(jobs: &[(u128, String)], name: &str) -> (r: Result<u128, OutputJobLookupError>)
    ensures
        ({
            let m = jobs_named(jobs@, name@);
            if m.len() == 1 {
                r == Ok::<u128, OutputJobLookupError>(m[0])
            } else if m.len() == 0 {
                r == Err::<u128, OutputJobLookupError>(OutputJobLookupError::NotFound)
            } else {
                r == Err::<u128, OutputJobLookupError>(OutputJobLookupError::Ambiguous { count: m.len() as usize })
            }
        }),
{
    let n = chars_of(name);
    let mut found: Vec<u128> = Vec::new();
    let mut i: usize = 0;
    while i < jobs.len()
        invariant
            i <= jobs.len(),
            n@ == name@,
            found@ == jobs_named(jobs@.take(i as int), name@),
        decreases jobs.len() - i,
    {
        proof {
            let next = jobs@.take(i + 1);
            assert(next.drop_last() =~= jobs@.take(i as int));
            assert(next.last() == jobs@[i as int]);
        }
        if text_is(&jobs[i].1, n.as_slice()) {
            found.push(jobs[i].0);
        }
        i = i + 1;
    }
    assert(jobs@.take(jobs.len() as int) =~= jobs@);
    proof {
        lemma_jobs_named_len(jobs@, name@);
    }
    if found.len() == 1 {
        Ok(found[0])
    } else if found.len() == 0 {
        Err(OutputJobLookupError::NotFound)
    } else {
        Err(OutputJobLookupError::Ambiguous { count: found.len() })
    }
}

} // verus!
