use titan_controller::communication::credentials::Credentials;
use titan_controller::hpc::slurm_handle::{read_jobs, JobsListing, RetryStep, SlurmHandler};
use titan_controller::run::benchmark_parameter::BenchmarkParameter;
use titan_controller::run::benchmark_run::BenchmarkRun;
use titan_controller::run::benchmark_suite::BenchmarkSuite;
use titan_controller::run::simulator_parameter::SimulatorParameter;
use titan_controller::strmap::StrMap;

fn handler() -> SlurmHandler {
    SlurmHandler::new(Credentials { username: "user".to_string(), password: "pw".to_string() })
}

#[test]
fn squeue_listing_skips_steps_and_short_lines() {
    let out = "JOBID NAME ACCOUNT CPUS TIME NODELIST\n123 myjob acc 4 1:00 titan01\n124.0 step acc 4 1:00 titan01\nshort line\n";
    match SlurmHandler::parse_jobs(out, false) {
        JobsListing::Jobs(jobs) => {
            assert_eq!(jobs.len(), 1);
            assert_eq!(jobs[0].get_job_id(), "123");
            assert_eq!(jobs[0].name, "myjob");
            assert_eq!(jobs[0].cores, 4);
            assert_eq!(jobs[0].state, "titan01");
        }
        other => panic!("unexpected {other:?}"),
    }
}

#[test]
fn listing_without_job_id_header() {
    assert!(matches!(SlurmHandler::parse_jobs("ssh: connection refused\n", false), JobsListing::NoJobId));
}

#[test]
fn listing_with_unreadable_line() {
    assert!(matches!(SlurmHandler::parse_jobs("JOBID\n1 a b x c d\n", false), JobsListing::Malformed));
    assert!(matches!(SlurmHandler::parse_jobs("JOBID\n1 a b 2 c\n", false), JobsListing::Malformed));
    assert!(read_jobs("JOBID\n1 a b x c d\n", false).is_none());
}

#[test]
fn sacct_listing_collapses_spaces() {
    let out = "JobID    JobName  Account NCPUS Submit State\n------------ ----------\n55   job   acc  2 2024-01-01T00:00:00   COMPLETED\n";
    match SlurmHandler::parse_jobs(out, true) {
        JobsListing::Jobs(jobs) => {
            assert_eq!(jobs.len(), 1);
            assert_eq!(jobs[0].job_id, "55");
            assert_eq!(jobs[0].account, "acc");
            assert_eq!(jobs[0].cores, 2);
            assert_eq!(jobs[0].time, "2024-01-01T00:00:00");
            assert_eq!(jobs[0].state, "COMPLETED");
        }
        other => panic!("unexpected {other:?}"),
    }
}

#[test]
fn listing_commands() {
    let h = handler();
    assert_eq!(h.squeue_command(false), "squeue -A user -o \"%i %j %a %C %M %R\"");
    assert_eq!(h.squeue_command(true), "squeue -o \"%i %j %a %C %M %R\"");
    assert_eq!(
        h.sacct_command(false, "2024-01-02"),
        "sacct --account=user -S 2024-01-02 --format=JobID,JobName%150,Account,NCPUS,Submit,State%30"
    );
    assert_eq!(h.jobs_command(true, None), Some("squeue -o \"%i %j %a %C %M %R\"".to_string()));
    let c = h.jobs_command(true, Some(1)).unwrap();
    assert!(c.starts_with("sacct -S "));
    assert!(c.ends_with(" --format=JobID,JobName%150,Account,NCPUS,Submit,State%30"));
    let date = &c["sacct -S ".len().."sacct -S ".len() + 10];
    assert_eq!(date.as_bytes()[4], b'-');
    assert_eq!(date.as_bytes()[7], b'-');
}

#[test]
fn retries_give_up_after_five_attempts() {
    assert!(matches!(SlurmHandler::get_jobs_retry(0, None), RetryStep::Again));
    assert!(matches!(SlurmHandler::get_jobs_retry(3, None), RetryStep::Again));
    assert!(matches!(SlurmHandler::get_jobs_retry(4, None), RetryStep::GiveUp));
    assert!(matches!(SlurmHandler::get_jobs_retry(4, Some(vec![])), RetryStep::Done(v) if v.is_empty()));
}

#[test]
fn delete_and_submit_commands() {
    let h = handler();
    assert_eq!(h.delete_job_command(5), "/home/slurmadmin/scripts/delete_job.py -j 5 -u user -p pw");
    assert_eq!(SlurmHandler::job_number("Submitted batch job 4242\nmore\n"), Some("4242".to_string()));
    assert_eq!(SlurmHandler::job_number("sbatch: error\n"), None);
    assert_eq!(
        h.submit_experiment("/tmp/tc/4242"),
        ("/tmp/tc/4242/*".to_string(), "/home/slurmslave/jobs/submitted/.".to_string())
    );
}

#[test]
fn job_file_arguments_and_text() {
    let mut meta = StrMap::new();
    meta.insert("<JOB>".to_string(), "exp_spec".to_string());
    let suite = BenchmarkSuite {
        suite: "spec".to_string(),
        meta_arguments: meta,
        simulator_parameters: vec![SimulatorParameter {
            simulator_dir_name: "s".to_string(),
            variable_sniper_parameters: StrMap::new(),
            benchmark_parameters: vec![BenchmarkParameter {
                arguments: StrMap::new(),
                benchmark_name: "b".to_string(),
                benchmark_runs: vec![BenchmarkRun { run_idx: 0 }, BenchmarkRun { run_idx: 1 }],
            }],
        }],
        host_dst_path: "/d".to_string(),
    };
    let h = handler();
    let args = h.job_file_arguments(&suite);
    assert_eq!(args.get(&"<TASKS>".to_string()), Some(&"2".to_string()));
    assert_eq!(args.get(&"<ACCOUNT>".to_string()), Some(&"user".to_string()));
    assert_eq!(
        h.create_job_file(&suite, "#SBATCH --array=1-<TASKS> -A <ACCOUNT> -J <JOB>"),
        "#SBATCH --array=1-2 -A user -J exp_spec"
    );
}

#[test]
fn listing_command_at_a_given_moment() {
    let h = handler();
    // 2024-03-01 12:00:00 UTC
    let now: i64 = 1_709_294_400;
    assert_eq!(
        h.jobs_command_at(false, Some(1), now),
        Some("sacct --account=user -S 2024-02-29 --format=JobID,JobName%150,Account,NCPUS,Submit,State%30".to_string())
    );
    assert_eq!(
        h.jobs_command_at(true, Some(0), now),
        Some("sacct -S 2024-03-01 --format=JobID,JobName%150,Account,NCPUS,Submit,State%30".to_string())
    );
    assert_eq!(h.jobs_command_at(true, Some(30), 0), Some("sacct -S 1969-12-02 --format=JobID,JobName%150,Account,NCPUS,Submit,State%30".to_string()));
    assert_eq!(h.jobs_command_at(false, None, now), Some("squeue -A user -o \"%i %j %a %C %M %R\"".to_string()));
    assert_eq!(h.jobs_command_at(true, Some(1), i64::MAX), None);
}
