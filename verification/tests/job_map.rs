use titan_controller::communication::credentials::Credentials;
use titan_controller::host_setup::SetupStep;
use titan_controller::job::JobHandler;
use titan_controller::job_data::{Arguments, BenchmarkArgument, ExperimentArgument, JobArgument, JobStatus};
use titan_controller::manage::docker;
use titan_controller::manage::traces;
use titan_controller::stat;
use titan_controller::strmap::StrMap;

fn map(pairs: &[(&str, &str)]) -> StrMap {
    let mut m = StrMap::new();
    for (k, v) in pairs {
        m.insert(k.to_string(), v.to_string());
    }
    m
}

fn bench(name: &str, run_idx: usize, status: JobStatus, task: Option<usize>) -> BenchmarkArgument {
    BenchmarkArgument {
        arguments: map(&[("<ARGUMENTS>", name)]),
        benchmark_name: name.to_string(),
        run_idx,
        task_idx: task,
        status,
    }
}

fn job(job_nr: Option<&str>, statuses: [JobStatus; 3]) -> JobArgument {
    JobArgument {
        suite: "spec".to_string(),
        meta_arguments: map(&[("<JOB>", "exp_spec"), ("<ACCOUNT>", "other")]),
        experiment_arguments: vec![
            ExperimentArgument {
                sniper_dir_name: "c1".to_string(),
                variable_sniper_parameters: map(&[("cores", "1")]),
                benchmarks: vec![bench("mcf", 0, statuses[0], Some(1)), bench("mcf", 1, statuses[1], Some(2))],
            },
            ExperimentArgument {
                sniper_dir_name: "c2".to_string(),
                variable_sniper_parameters: map(&[("cores", "2")]),
                benchmarks: vec![bench("lbm", 0, statuses[2], Some(3))],
            },
        ],
        host_dst_path: "/dst".to_string(),
        job_nr: job_nr.map(|s| s.to_string()),
    }
}

fn handler() -> JobHandler {
    JobHandler::new(
        Credentials { username: "user".to_string(), password: "pw".to_string() },
        false,
        None,
        "/tmp/tc".to_string(),
    )
}

fn statuses(a: &Arguments) -> Vec<JobStatus> {
    a.job_arguments
        .iter()
        .flat_map(|j| j.experiment_arguments.iter().flat_map(|e| e.benchmarks.iter().map(|b| b.status)))
        .collect()
}

#[test]
fn keep_tasks_keeps_only_accepted_runs() {
    let mut a = Arguments {
        job_arguments: vec![
            job(Some("7"), [JobStatus::DONE, JobStatus::FAILED, JobStatus::DONE]),
            job(Some("8"), [JobStatus::DONE, JobStatus::DONE, JobStatus::DONE]),
        ],
    };
    a.keep_tasks(&[JobStatus::FAILED]);
    assert_eq!(a.job_arguments.len(), 1);
    assert_eq!(a.job_arguments[0].experiment_arguments.len(), 1);
    assert_eq!(statuses(&a), vec![JobStatus::FAILED]);
    a.keep_tasks(&[JobStatus::FAILED]);
    assert_eq!(statuses(&a), vec![JobStatus::FAILED]);
}

#[test]
fn change_state_moves_only_the_old_status() {
    let mut a = Arguments { job_arguments: vec![job(Some("7"), [JobStatus::DONE, JobStatus::FAILED, JobStatus::FAILED])] };
    a.change_state_benchmarks(&Some(JobStatus::FAILED), &JobStatus::RETRIED);
    assert_eq!(statuses(&a), vec![JobStatus::DONE, JobStatus::RETRIED, JobStatus::RETRIED]);
    a.change_state_benchmarks(&None, &JobStatus::SUBMITTED);
    assert_eq!(statuses(&a), vec![JobStatus::SUBMITTED; 3]);
}

#[test]
fn counts_and_host_directories() {
    let j = job(None, [JobStatus::TOSUBMIT; 3]);
    assert_eq!(j.get_number_task(), 3);
    assert_eq!(j.experiment_arguments[0].get_number_task(), 2);
    let shown: Vec<String> = j
        .prepare_host_directories()
        .iter()
        .map(|s| match s {
            SetupStep::CreateDir(p) => format!("mkdir {p}"),
            SetupStep::TryCreateDir(p) => format!("try {p}"),
            SetupStep::WriteArguments(p, i) => format!("args {p} {i}"),
        })
        .collect();
    assert_eq!(
        shown,
        vec![
            "mkdir /dst/c1",
            "args /dst/c1/args.json 0",
            "mkdir /dst/c1/mcf/0",
            "mkdir /dst/c1/mcf/1",
            "mkdir /dst/c2",
            "args /dst/c2/args.json 1",
            "mkdir /dst/c2/lbm/0",
        ]
    );
}

#[test]
fn prepare_job_sets_tasks_and_keeps_account() {
    let mut j = job(None, [JobStatus::TOSUBMIT; 3]);
    handler().prepare_job(&mut j);
    assert_eq!(j.meta_arguments.get(&"<TASKS>".to_string()), Some(&"3".to_string()));
    assert_eq!(j.meta_arguments.get(&"<ACCOUNT>".to_string()), Some(&"other".to_string()));
    let mut k = job(None, [JobStatus::TOSUBMIT; 3]);
    k.meta_arguments = map(&[("<JOB>", "x")]);
    handler().prepare_job(&mut k);
    assert_eq!(k.meta_arguments.get(&"<ACCOUNT>".to_string()), Some(&"user".to_string()));
}

#[test]
fn submit_experiment_numbers_runs() {
    let mut j = job(None, [JobStatus::TOSUBMIT; 3]);
    for e in j.experiment_arguments.iter_mut() {
        for b in e.benchmarks.iter_mut() {
            b.task_idx = None;
        }
    }
    let (dir, files) = handler().submit_experiment(&mut j, "99", "exec <ARGUMENTS>");
    assert_eq!(dir, "/tmp/tc/99");
    assert_eq!(files[0][1], ("/tmp/tc/99/execute_99_2.sh".to_string(), "exec mcf".to_string()));
    assert_eq!(files[1][0], ("/tmp/tc/99/execute_99_3.sh".to_string(), "exec lbm".to_string()));
    let tasks: Vec<Option<usize>> =
        j.experiment_arguments.iter().flat_map(|e| e.benchmarks.iter().map(|b| b.task_idx)).collect();
    assert_eq!(tasks, vec![Some(1), Some(2), Some(3)]);
}

#[test]
fn collect_plan_lists_finished_submitted_runs() {
    let mut a = Arguments {
        job_arguments: vec![job(Some("7"), [JobStatus::SUBMITTED, JobStatus::SUBMITTED, JobStatus::DONE])],
    };
    let plan = JobHandler::collect_plan(&a, &vec!["7_1".to_string()]).unwrap();
    assert_eq!(plan.len(), 1);
    assert_eq!((plan[0].job, plan[0].exp, plan[0].bench), (0, 0, 1));
    assert_eq!(plan[0].task_id, "7_2");
    assert_eq!(plan[0].dst_path, "/dst/c1/mcf/1");
    a.set_bench_status(0, 0, 1, JobStatus::DONE);
    assert_eq!(statuses(&a), vec![JobStatus::SUBMITTED, JobStatus::DONE, JobStatus::DONE]);
    let no_nr = Arguments { job_arguments: vec![job(None, [JobStatus::SUBMITTED, JobStatus::DONE, JobStatus::DONE])] };
    assert!(JobHandler::collect_plan(&no_nr, &vec![]).is_none());
}

#[test]
fn first_handler_commands() {
    let h = handler();
    assert_eq!(h.jobs_command(), Some("squeue -A user -o \"%i %j %a %C %M %R\"".to_string()));
    assert_eq!(
        h.job_file_paths("abc"),
        ("/tmp/tc/job_abc.sh".to_string(), "/home/slurmslave/jobs/submitted/./job_abc.sh".to_string())
    );
    assert_eq!(JobHandler::submit_commands("/r/j.sh"), ("sbatch /r/j.sh".to_string(), "rm /r/j.sh".to_string()));
    let jobs = h.get_jobs("no header here\n1 a b 2 c d\n").unwrap();
    assert_eq!(jobs.len(), 1);
    assert_eq!(jobs[0].job_id, "1");
    assert_eq!(h.delete_job_command(3), "/home/slurmadmin/scripts/delete_job.py -j 3 -u user -p pw");
}

#[test]
fn docker_names_and_commands() {
    assert_eq!(docker::container_name("/x/Dockerfile_Gem5-.df"), Some("gem5".to_string()));
    assert_eq!(docker::container_name("/x/dockerfile"), Some(String::new()));
    assert_eq!(
        docker::distribute_command("/x/dockerfile_a", "a"),
        Some(
            "for node in {01..16}; do scp /home/slurmslave/Dockerfiles/dockerfile_a titan${node}:/home/slurmslave/Dockerfiles/dockerfile_a; ssh titan${node} 'docker build --no-cache -t a -f /home/slurmslave/Dockerfiles/dockerfile_a /home/slurmslave/Dockerfiles/' & done"
                .to_string()
        )
    );
    assert!(docker::confirmed("  Yes\n"));
    assert!(!docker::confirmed("no"));
    assert_eq!(
        docker::delete_commands("img"),
        (
            "rm /home/slurmslave/virtualbox/img".to_string(),
            "docker ps -a --filter \"ancestor=img\" -q | xargs -r docker rm -f; docker rmi -f img".to_string()
        )
    );
    assert_eq!(docker::node_command(3, "ls"), "ssh titan03 ls");
    assert_eq!(docker::node_command(12, "ls"), "ssh titan12 ls");
}

#[test]
fn trace_and_vm_commands() {
    assert_eq!(
        traces::distribute_command("/data/mytrace"),
        Some("/home/slurmadmin/scripts/distribute_VM.py /home/slurmaslave/traces/sift/mytrace".to_string())
    );
    assert_eq!(
        stat::delete_vm_commands("vm1"),
        ("rm -r /home/slurmslave/virtualbox/vm1".to_string(), "VBoxManage unregistervm vm1 --delete".to_string())
    );
    assert!(stat::confirmed("Y"));
    assert!(!stat::confirmed("n"));
}
