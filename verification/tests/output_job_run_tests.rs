use eda_cli_core::manufacturing::OutputJobRunStatus;
use eda_cli_core::output_job_runs::{
    GeneratedArtifact, OutputJobLogLevel, cancel_output_job_run, failed_output_job_run,
    failed_output_job_run_id_parts, lifecycle_output_job_run, start_output_job_run,
    successful_output_job_run, successful_output_job_run_id_parts,
};
use uuid::Uuid;

const PROJECT: u128 = 0x1111_2222_3333_4444_5555_6666_7777_8888;
const JOB: u128 = 0xaaaa;
const OTHER_JOB: u128 = 0xbbbb;

fn job_text(id: u128) -> String {
    Uuid::from_u128(id).to_string()
}

#[test]
fn lifecycle_run_id_is_name_based() {
    let run = lifecycle_output_job_run(PROJECT, "rev-7", JOB, OutputJobRunStatus::Running, 4, 2, "hello");
    let material = format!("datum-eda:output-job-run:lifecycle:{}:rev-7:4:2", job_text(JOB));
    let expected = Uuid::new_v5(&Uuid::from_u128(PROJECT), material.as_bytes()).as_u128();
    assert_eq!(run.run_id, expected);
    assert_eq!(run.output_job, JOB);
    assert_eq!(run.run_sequence, 4);
    assert_eq!(run.project_id, PROJECT);
    assert_eq!(run.model_revision, "rev-7");
    assert_eq!(run.status, OutputJobRunStatus::Running);
    assert_eq!(run.artifact_id, None);
    assert_eq!(run.exit_code, None);
    assert_eq!(run.log.len(), 1);
    assert_eq!(run.log[0].sequence, 1);
    assert_eq!(run.log[0].level, OutputJobLogLevel::Info);
    assert_eq!(run.log[0].message, "hello");
    let other = lifecycle_output_job_run(PROJECT, "rev-7", JOB, OutputJobRunStatus::Running, 4, 3, "hello");
    assert_ne!(other.run_id, run.run_id);
}

#[test]
fn started_run_follows_the_latest_run_of_its_job() {
    let runs = [(JOB, 3), (OTHER_JOB, 9), (JOB, 5)];
    let run = start_output_job_run(PROJECT, "r1", JOB, &runs);
    assert_eq!(run.run_sequence, 6);
    assert_eq!(run.status, OutputJobRunStatus::Running);
    assert_eq!(run.log[0].message, "output job run started");
    let material = format!("datum-eda:output-job-run:lifecycle:{}:r1:6:0", job_text(JOB));
    assert_eq!(run.run_id, Uuid::new_v5(&Uuid::from_u128(PROJECT), material.as_bytes()).as_u128());
    let first = start_output_job_run(PROJECT, "r1", OTHER_JOB, &[]);
    assert_eq!(first.run_sequence, 1);
}

#[test]
fn canceled_run_keeps_its_identity_and_numbers_its_log() {
    let mut run = start_output_job_run(PROJECT, "r1", JOB, &[]);
    let id = run.run_id;
    cancel_output_job_run(&mut run);
    assert_eq!(run.run_id, id);
    assert_eq!(run.status, OutputJobRunStatus::Canceled);
    assert_eq!(run.exit_code, Some(130));
    assert_eq!(run.artifact_id, None);
    assert_eq!(run.log.len(), 2);
    assert_eq!(run.log[1].sequence, 2);
    assert_eq!(run.log[1].level, OutputJobLogLevel::Warning);
    assert_eq!(run.log[1].message, "output job run canceled");
    cancel_output_job_run(&mut run);
    let numbers: Vec<u64> = run.log.iter().map(|e| e.sequence).collect();
    assert_eq!(numbers, vec![1, 2, 3]);
}

#[test]
fn failed_run_records_the_error() {
    let run = failed_output_job_run(77, PROJECT, "r2", JOB, 3, "disk full");
    assert_eq!(run.run_id, 77);
    assert_eq!(run.status, OutputJobRunStatus::Failed);
    assert_eq!(run.exit_code, Some(1));
    assert_eq!(run.artifact_id, None);
    assert_eq!(run.log.len(), 1);
    assert_eq!(run.log[0].level, OutputJobLogLevel::Error);
    assert_eq!(run.log[0].message, "disk full");
    let parts = failed_output_job_run_id_parts("gerber", JOB, "r2", 3, "disk full");
    assert_eq!(parts, vec!["failed".to_string(), "gerber".to_string(), job_text(JOB), "r2".to_string(), "3".to_string(), "disk full".to_string()]);
}

#[test]
fn successful_run_logs_each_artifact() {
    let generated = vec![
        GeneratedArtifact { scope: "gerber".to_string(), artifact_id: 0x10, file_count: 7 },
        GeneratedArtifact { scope: "bom".to_string(), artifact_id: 0x20, file_count: 1 },
    ];
    let run = successful_output_job_run(5, PROJECT, "r3", JOB, 2, 2, &generated);
    assert_eq!(run.status, OutputJobRunStatus::Succeeded);
    assert_eq!(run.exit_code, Some(0));
    assert_eq!(run.artifact_id, None);
    let messages: Vec<&str> = run.log.iter().map(|e| e.message.as_str()).collect();
    let first = format!("generated gerber artifact {} with 7 files", job_text(0x10));
    let second = format!("generated bom artifact {} with 1 files", job_text(0x20));
    assert_eq!(messages, vec!["generated output job with 2 artifact scopes", first.as_str(), second.as_str()]);
    let numbers: Vec<u64> = run.log.iter().map(|e| e.sequence).collect();
    assert_eq!(numbers, vec![1, 2, 3]);
    assert!(run.log.iter().all(|e| e.level == OutputJobLogLevel::Info));

    let single = successful_output_job_run(6, PROJECT, "r3", JOB, 3, 1, &generated[..1]);
    assert_eq!(single.artifact_id, Some(0x10));
    let none = successful_output_job_run(7, PROJECT, "r3", JOB, 4, 0, &[]);
    assert_eq!(none.artifact_id, None);
    assert_eq!(none.log.len(), 1);
    let parts = successful_output_job_run_id_parts("all", JOB, "r3", 2, 2);
    assert_eq!(parts, vec!["aggregate".to_string(), "all".to_string(), job_text(JOB), "r3".to_string(), "2".to_string(), "2".to_string()]);
}
