//! Output job runs: the record of one run of an output job, how a run is
//! started, canceled, failed or completed, and its numbered log.
use vstd::prelude::*;
use crate::forward_annotation::{text_of, texts_view};
use crate::ids::{uuid_text, uuid_text_of, uuid_v5, uuid_v5_of};
use crate::manufacturing::{OutputJobRunStatus, max_run_sequence, next_output_job_run_sequence};
use crate::render::{nat_text, push_chars, push_nat_text};
use crate::text::{chars_of, string_from_chars};

verus! {

/// How serious a log entry of a run is.
#[derive(Debug, Clone, Copy, PartialEq, Eq, Structural)]
pub enum OutputJobLogLevel {
    Info,
    Warning,
    Error,
}

/// One entry of a run's log.
#[derive(Debug, PartialEq, Eq)]
pub struct OutputJobLogEntry {
    pub sequence: u64,
    pub level: OutputJobLogLevel,
    pub message: String,
}

/// One run of an output job.
#[derive(Debug, PartialEq, Eq)]
pub struct OutputJobRun {
    pub run_id: u128,
    pub output_job: u128,
    pub run_sequence: u64,
    pub project_id: u128,
    pub model_revision: String,
    pub status: OutputJobRunStatus,
    pub artifact_id: Option<u128>,
    pub exit_code: Option<i32>,
    pub log: Vec<OutputJobLogEntry>,
}

/// A log entry as plain values: sequence number, level and message.
pub type LogView = (u64, OutputJobLogLevel, Seq<char>);

/// The plain values of a log.
pub open spec fn log_view(log: Seq<OutputJobLogEntry>) -> Seq<LogView> {
    Seq::new(log.len(), |i: int| (log[i].sequence, log[i].level, log[i].message@))
}

/// The log's entries are numbered 1, 2, … in order.
pub open spec fn numbered(log: Seq<LogView>) -> bool {
    forall|i: int| 0 <= i < log.len() ==> (#[trigger] log[i]).0 == i + 1
}

/// The text from which a started run's UUID is made: the output job, the
/// model revision, the run's sequence number and a seed.
pub open spec fn lifecycle_material(output_job: u128, model_revision: Seq<char>, run_sequence: nat, seed: nat) -> Seq<
    char,
> {
    seq![
        'd', 'a', 't', 'u', 'm', '-', 'e', 'd', 'a', ':', 'o', 'u', 't', 'p', 'u', 't', '-', 'j', 'o', 'b', '-',
        'r', 'u', 'n', ':', 'l', 'i', 'f', 'e', 'c', 'y', 'c', 'l', 'e', ':',
    ] + uuid_text_of(output_job) + seq![':'] + model_revision + seq![':'] + nat_text(run_sequence) + seq![':']
        + nat_text(seed)
}

fn push_text(out: &mut Vec<char>, s: &str)
    ensures
        final(out)@ == old(out)@ + s@,
{
    let v = chars_of(s);
    push_chars(out, v.as_slice());
}

/// A run record with the given status and a one-entry log of `message`,
/// as a run that is started is recorded: its UUID is the name-based UUID,
/// in the project's namespace, of the output job, the model revision, the
/// run's sequence number and the seed; it has no artifact and no exit code.
pub fn lifecycle_output_job_run(
    project_id: u128,
    model_revision: &str,
    output_job: u128,
    status: OutputJobRunStatus,
    run_sequence: u64,
    sequence_seed: u8,
    message: &str,
) -> (r: OutputJobRun)
    ensures
        r.run_id == uuid_v5_of(
            project_id,
            lifecycle_material(output_job, model_revision@, run_sequence as nat, sequence_seed as nat),
        ),
        r.output_job == output_job,
        r.run_sequence == run_sequence,
        r.project_id == project_id,
        r.model_revision@ == model_revision@,
        r.status == status,
        r.artifact_id is None,
        r.exit_code is None,
        log_view(r.log@) == seq![(1u64, OutputJobLogLevel::Info, message@)],
        numbered(log_view(r.log@)),
{
    let mut material: Vec<char> = Vec::new();
    push_chars(
        &mut material,
        &[
            'd', 'a', 't', 'u', 'm', '-', 'e', 'd', 'a', ':', 'o', 'u', 't', 'p', 'u', 't', '-', 'j', 'o', 'b',
            '-', 'r', 'u', 'n', ':', 'l', 'i', 'f', 'e', 'c', 'y', 'c', 'l', 'e', ':',
        ],
    );
    let job_text = uuid_text(output_job);
    push_text(&mut material, job_text.as_str());
    material.push(':');
    push_text(&mut material, model_revision);
    material.push(':');
    push_nat_text(&mut material, run_sequence);
    material.push(':');
    push_nat_text(&mut material, sequence_seed as u64);
    assert(material@ =~= lifecycle_material(output_job, model_revision@, run_sequence as nat, sequence_seed as nat));
    let name = string_from_chars(material.as_slice());
    let run_id = uuid_v5(project_id, name.as_str());
    let mut log: Vec<OutputJobLogEntry> = Vec::new();
    log.push(OutputJobLogEntry { sequence: 1, level: OutputJobLogLevel::Info, message: text_of_str(message) });
    assert(log_view(log@) =~= seq![(1u64, OutputJobLogLevel::Info, message@)]);
    OutputJobRun {
        run_id,
        output_job,
        run_sequence,
        project_id,
        model_revision: text_of_str(model_revision),
        status,
        artifact_id: None,
        exit_code: None,
        log,
    }
}

fn text_of_str(s: &str) -> (r: String)
    ensures
        r@ == s@,
{
    let v = chars_of(s);
    string_from_chars(v.as_slice())
}

/// The message of a started run's log.
pub open spec fn started_message() -> Seq<char> {
    seq!['o', 'u', 't', 'p', 'u', 't', ' ', 'j', 'o', 'b', ' ', 'r', 'u', 'n', ' ', 's', 't', 'a', 'r', 't', 'e', 'd']
}

/// A started run of the output job: running, numbered one past the job's
/// latest run among `runs` (each a job and its sequence number), with seed
/// 0 and the log entry "output job run started".
pub fn start_output_job_run(project_id: u128, model_revision: &str, output_job: u128, runs: &[(u128, u64)]) -> (r:
    OutputJobRun)
    requires
        max_run_sequence(runs@, output_job) < u64::MAX,
    ensures
        r.run_sequence == max_run_sequence(runs@, output_job) + 1,
        r.run_id == uuid_v5_of(project_id, lifecycle_material(output_job, model_revision@, r.run_sequence as nat, 0)),
        r.output_job == output_job,
        r.project_id == project_id,
        r.model_revision@ == model_revision@,
        r.status == OutputJobRunStatus::Running,
        r.artifact_id is None,
        r.exit_code is None,
        log_view(r.log@) == seq![(1u64, OutputJobLogLevel::Info, started_message())],
        numbered(log_view(r.log@)),
{
    let run_sequence = next_output_job_run_sequence(runs, output_job);
    let message = text_of(
        &['o', 'u', 't', 'p', 'u', 't', ' ', 'j', 'o', 'b', ' ', 'r', 'u', 'n', ' ', 's', 't', 'a', 'r', 't', 'e', 'd'],
    );
    assert(message@ =~= started_message());
    lifecycle_output_job_run(
        project_id,
        model_revision,
        output_job,
        OutputJobRunStatus::Running,
        run_sequence,
        0,
        message.as_str(),
    )
}

/// The message a cancel adds to a run's log.
pub open spec fn canceled_message() -> Seq<char> {
    seq![
        'o', 'u', 't', 'p', 'u', 't', ' ', 'j', 'o', 'b', ' ', 'r', 'u', 'n', ' ', 'c', 'a', 'n', 'c', 'e', 'l',
        'e', 'd',
    ]
}

/// Cancels a run: it becomes canceled with exit code 130 and no artifact,
/// and its log gains a warning "output job run canceled" numbered one past
/// its last entry; the rest of the record is kept. A log numbered 1, 2, …
/// stays so.
pub fn cancel_output_job_run(run: &mut OutputJobRun)
    requires
        old(run).log@.len() < u64::MAX,
    ensures
        final(run).run_id == old(run).run_id,
        final(run).output_job == old(run).output_job,
        final(run).run_sequence == old(run).run_sequence,
        final(run).project_id == old(run).project_id,
        final(run).model_revision == old(run).model_revision,
        final(run).status == OutputJobRunStatus::Canceled,
        final(run).exit_code == Some(130i32),
        final(run).artifact_id is None,
        log_view(final(run).log@) == log_view(old(run).log@).push(
            ((old(run).log@.len() + 1) as u64, OutputJobLogLevel::Warning, canceled_message()),
        ),
        numbered(log_view(old(run).log@)) ==> numbered(log_view(final(run).log@)),
{
    run.status = OutputJobRunStatus::Canceled;
    run.exit_code = Some(130);
    run.artifact_id = None;
    let sequence = run.log.len() as u64 + 1;
    let message = text_of(
        &['o', 'u', 't', 'p', 'u', 't', ' ', 'j', 'o', 'b', ' ', 'r', 'u', 'n', ' ', 'c', 'a', 'n', 'c', 'e', 'l', 'e', 'd'],
    );
    assert(message@ =~= canceled_message());
    let ghost before = log_view(run.log@);
    run.log.push(OutputJobLogEntry { sequence, level: OutputJobLogLevel::Warning, message });
    assert(log_view(run.log@) =~= before.push((sequence, OutputJobLogLevel::Warning, canceled_message())));
}

/// A failed run: exit code 1, no artifact, and a one-entry log holding the
/// error; `run_id` is the run's UUID as derived from
/// `failed_output_job_run_id_parts`.
pub fn failed_output_job_run(
    run_id: u128,
    project_id: u128,
    model_revision: &str,
    output_job: u128,
    run_sequence: u64,
    error: &str,
) -> (r: OutputJobRun)
    ensures
        r.run_id == run_id,
        r.output_job == output_job,
        r.run_sequence == run_sequence,
        r.project_id == project_id,
        r.model_revision@ == model_revision@,
        r.status == OutputJobRunStatus::Failed,
        r.artifact_id is None,
        r.exit_code == Some(1i32),
        log_view(r.log@) == seq![(1u64, OutputJobLogLevel::Error, error@)],
        numbered(log_view(r.log@)),
{
    let mut log: Vec<OutputJobLogEntry> = Vec::new();
    log.push(OutputJobLogEntry { sequence: 1, level: OutputJobLogLevel::Error, message: text_of_str(error) });
    assert(log_view(log@) =~= seq![(1u64, OutputJobLogLevel::Error, error@)]);
    OutputJobRun {
        run_id,
        output_job,
        run_sequence,
        project_id,
        model_revision: text_of_str(model_revision),
        status: OutputJobRunStatus::Failed,
        artifact_id: None,
        exit_code: Some(1),
        log,
    }
}

/// The texts from which a run's UUID is derived: its kind, the included
/// scope, the output job, the model revision, the run's sequence number and
/// a last detail.
pub open spec fn run_id_parts(kind: Seq<char>, scope: Seq<char>, output_job: u128, model_revision: Seq<char>, run_sequence: nat, detail: Seq<char>) -> Seq<Seq<char>> {
    seq![kind, scope, uuid_text_of(output_job), model_revision, nat_text(run_sequence), detail]
}

fn run_id_parts_of(kind: &[char], scope: &str, output_job: u128, model_revision: &str, run_sequence: u64, detail: &str) -> (r: Vec<String>)
    ensures
        texts_view(r@) == run_id_parts(kind@, scope@, output_job, model_revision@, run_sequence as nat, detail@),
{
    let mut seq_text: Vec<char> = Vec::new();
    push_nat_text(&mut seq_text, run_sequence);
    assert(seq_text@ =~= nat_text(run_sequence as nat));
    let mut r: Vec<String> = Vec::new();
    r.push(text_of(kind));
    r.push(text_of_str(scope));
    r.push(uuid_text(output_job));
    r.push(text_of_str(model_revision));
    r.push(string_from_chars(seq_text.as_slice()));
    r.push(text_of_str(detail));
    assert(texts_view(r@) =~= run_id_parts(kind@, scope@, output_job, model_revision@, run_sequence as nat, detail@));
    r
}

/// The texts from which a failed run's UUID is derived: `failed`, the
/// included scope, the output job, the model revision, the run's sequence
/// number and the error.
pub fn failed_output_job_run_id_parts(scope: &str, output_job: u128, model_revision: &str, run_sequence: u64, error: &str) -> (r: Vec<String>)
    ensures
        texts_view(r@) == run_id_parts(seq!['f', 'a', 'i', 'l', 'e', 'd'], scope@, output_job, model_revision@, run_sequence as nat, error@),
{
    let kind = ['f', 'a', 'i', 'l', 'e', 'd'];
    assert(kind@ =~= seq!['f', 'a', 'i', 'l', 'e', 'd']);
    run_id_parts_of(&kind, scope, output_job, model_revision, run_sequence, error)
}

/// One artifact an output job generated: its scope, UUID and file count.
pub struct GeneratedArtifact {
    pub scope: String,
    pub artifact_id: u128,
    pub file_count: usize,
}

/// The first message of a successful run's log.
pub open spec fn generated_job_message(scope_count: nat) -> Seq<char> {
    seq!['g', 'e', 'n', 'e', 'r', 'a', 't', 'e', 'd', ' ', 'o', 'u', 't', 'p', 'u', 't', ' ', 'j', 'o', 'b', ' ', 'w', 'i', 't', 'h', ' ']
        + nat_text(scope_count) + seq![' ', 'a', 'r', 't', 'i', 'f', 'a', 'c', 't', ' ', 's', 'c', 'o', 'p', 'e', 's']
}

/// The message of a successful run's log for one generated artifact.
pub open spec fn generated_artifact_message(a: GeneratedArtifact) -> Seq<char> {
    seq!['g', 'e', 'n', 'e', 'r', 'a', 't', 'e', 'd', ' '] + a.scope@ + seq![' ', 'a', 'r', 't', 'i', 'f', 'a', 'c', 't', ' ']
        + uuid_text_of(a.artifact_id) + seq![' ', 'w', 'i', 't', 'h', ' '] + nat_text(a.file_count as nat) + seq![
        ' ',
        'f',
        'i',
        'l',
        'e',
        's',
    ]
}

/// A successful run's log: a first entry for the number of scopes, then one
/// per generated artifact, all informational and numbered from 1.
pub open spec fn successful_log(scope_count: nat, generated: Seq<GeneratedArtifact>) -> Seq<LogView> {
    Seq::new(
        generated.len() + 1,
        |i: int|
            if i == 0 {
                (1u64, OutputJobLogLevel::Info, generated_job_message(scope_count))
            } else {
                ((i + 1) as u64, OutputJobLogLevel::Info, generated_artifact_message(generated[i - 1]))
            },
    )
}

/// A successful run: exit code 0, the artifact when exactly one was
/// generated, and a log naming the number of scopes and then each generated
/// artifact with its file count; `run_id` is the run's UUID as derived from
/// `successful_output_job_run_id_parts`.
pub fn successful_output_job_run(
    run_id: u128,
    project_id: u128,
    model_revision: &str,
    output_job: u128,
    run_sequence: u64,
    generated_count: usize,
    generated: &[GeneratedArtifact],
) -> (r: OutputJobRun)
    requires
        generated@.len() + 1 < u64::MAX,
    ensures
        r.run_id == run_id,
        r.output_job == output_job,
        r.run_sequence == run_sequence,
        r.project_id == project_id,
        r.model_revision@ == model_revision@,
        r.status == OutputJobRunStatus::Succeeded,
        r.artifact_id == if generated@.len() == 1 {
            Some(generated@[0].artifact_id)
        } else {
            None
        },
        r.exit_code == Some(0i32),
        log_view(r.log@) == successful_log(generated_count as nat, generated@),
        numbered(log_view(r.log@)),
{
    let artifact_id = if generated.len() == 1 {
        Some(generated[0].artifact_id)
    } else {
        None
    };
    let mut first: Vec<char> = Vec::new();
    push_chars(&mut first, &['g', 'e', 'n', 'e', 'r', 'a', 't', 'e', 'd', ' ', 'o', 'u', 't', 'p', 'u', 't', ' ', 'j', 'o', 'b', ' ', 'w', 'i', 't', 'h', ' ']);
    push_nat_text(&mut first, generated_count as u64);
    push_chars(&mut first, &[' ', 'a', 'r', 't', 'i', 'f', 'a', 'c', 't', ' ', 's', 'c', 'o', 'p', 'e', 's']);
    assert(first@ =~= generated_job_message(generated_count as nat));
    let mut log: Vec<OutputJobLogEntry> = Vec::new();
    log.push(OutputJobLogEntry { sequence: 1, level: OutputJobLogLevel::Info, message: string_from_chars(first.as_slice()) });
    let mut i: usize = 0;
    assert(log_view(log@) =~= successful_log(generated_count as nat, generated@.take(0)));
    while i < generated.len()
        invariant
            i <= generated@.len(),
            generated@.len() + 1 < u64::MAX,
            log@.len() == i + 1,
            log_view(log@) == successful_log(generated_count as nat, generated@.take(i as int)),
        decreases generated@.len() - i,
    {
        let a = &generated[i];
        let mut m: Vec<char> = Vec::new();
        push_chars(&mut m, &['g', 'e', 'n', 'e', 'r', 'a', 't', 'e', 'd', ' ']);
        push_text(&mut m, a.scope.as_str());
        push_chars(&mut m, &[' ', 'a', 'r', 't', 'i', 'f', 'a', 'c', 't', ' ']);
        let id_text = uuid_text(a.artifact_id);
        push_text(&mut m, id_text.as_str());
        push_chars(&mut m, &[' ', 'w', 'i', 't', 'h', ' ']);
        push_nat_text(&mut m, a.file_count as u64);
        push_chars(&mut m, &[' ', 'f', 'i', 'l', 'e', 's']);
        assert(m@ =~= generated_artifact_message(*a));
        let sequence = log.len() as u64 + 1;
        let ghost before = log_view(log@);
        log.push(OutputJobLogEntry { sequence, level: OutputJobLogLevel::Info, message: string_from_chars(m.as_slice()) });
        proof {
            let t = generated@.take(i + 1);
            let p = generated@.take(i as int);
            let want = successful_log(generated_count as nat, t);
            let have = successful_log(generated_count as nat, p);
            assert(t[i as int] == generated@[i as int]);
            assert(log_view(log@) == before.push((sequence, OutputJobLogLevel::Info, m@)));
            assert forall|k: int| 0 <= k < want.len() implies #[trigger] log_view(log@)[k] == want[k] by {
                if k == 0 {
                    assert(log_view(log@)[0] == have[0]);
                } else if k <= i {
                    assert(t[k - 1] == p[k - 1]);
                    assert(log_view(log@)[k] == have[k]);
                } else {
                    assert(k == i + 1);
                }
            }
            assert(log_view(log@) =~= want);
        }
        i = i + 1;
    }
    assert(generated@.take(generated@.len() as int) =~= generated@);
    OutputJobRun {
        run_id,
        output_job,
        run_sequence,
        project_id,
        model_revision: text_of_str(model_revision),
        status: OutputJobRunStatus::Succeeded,
        artifact_id,
        exit_code: Some(0),
        log,
    }
}

/// The texts from which a successful run's UUID is derived: `aggregate`,
/// the included scope, the output job, the model revision, the run's
/// sequence number and the number of generated scopes.
pub fn successful_output_job_run_id_parts(scope: &str, output_job: u128, model_revision: &str, run_sequence: u64, generated_count: usize) -> (r: Vec<String>)
    ensures
        texts_view(r@) == run_id_parts(
            seq!['a', 'g', 'g', 'r', 'e', 'g', 'a', 't', 'e'],
            scope@,
            output_job,
            model_revision@,
            run_sequence as nat,
            nat_text(generated_count as nat),
        ),
{
    let kind = ['a', 'g', 'g', 'r', 'e', 'g', 'a', 't', 'e'];
    assert(kind@ =~= seq!['a', 'g', 'g', 'r', 'e', 'g', 'a', 't', 'e']);
    let mut count: Vec<char> = Vec::new();
    push_nat_text(&mut count, generated_count as u64);
    let count_text = string_from_chars(count.as_slice());
    run_id_parts_of(&kind, scope, output_job, model_revision, run_sequence, count_text.as_str())
}

} // verus!
