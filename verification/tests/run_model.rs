use titan_controller::communication::credentials::Credentials;
use titan_controller::host_setup::SetupStep;
use titan_controller::hpc::slurm_handle::SlurmHandler;
use titan_controller::run::benchmark_parameter::BenchmarkParameter;
use titan_controller::run::benchmark_run::BenchmarkRun;
use titan_controller::run::benchmark_suite::BenchmarkSuite;
use titan_controller::run::db::{get_job_task_format, RunStatuses};
use titan_controller::run::experiment::Experiment;
use titan_controller::run::job_handler::{CollectAction, JobHandler};
use titan_controller::run::simulator_parameter::SimulatorParameter;
use titan_controller::run::status::JobStatus;
use titan_controller::run::test_job::{job_succeed, test_non_empty_file};
use titan_controller::strmap::StrMap;

fn map(pairs: &[(&str, &str)]) -> StrMap {
    let mut m = StrMap::new();
    for (k, v) in pairs {
        m.insert(k.to_string(), v.to_string());
    }
    m
}

fn param(name: &str, runs: usize, args: &str) -> BenchmarkParameter {
    BenchmarkParameter {
        arguments: map(&[("<ARGUMENTS>", args)]),
        benchmark_name: name.to_string(),
        benchmark_runs: (0..runs).map(|run_idx| BenchmarkRun { run_idx }).collect(),
    }
}

fn suite() -> BenchmarkSuite {
    BenchmarkSuite {
        suite: "spec".to_string(),
        meta_arguments: map(&[("<JOB>", "exp_spec")]),
        simulator_parameters: vec![
            SimulatorParameter {
                simulator_dir_name: "sim1".to_string(),
                variable_sniper_parameters: map(&[("cores", "1")]),
                benchmark_parameters: vec![param("mcf", 2, "a"), param("lbm", 1, "b")],
            },
            SimulatorParameter {
                simulator_dir_name: "sim2".to_string(),
                variable_sniper_parameters: map(&[("cores", "2")]),
                benchmark_parameters: vec![param("mcf", 1, "c")],
            },
        ],
        host_dst_path: "/dst".to_string(),
    }
}

fn handler() -> SlurmHandler {
    SlurmHandler::new(Credentials { username: "user".to_string(), password: "pw".to_string() })
}

#[test]
fn run_paths_in_order() {
    let s = suite();
    assert_eq!(
        s.for_each_run_path(),
        vec!["/dst/sim1/mcf/0", "/dst/sim1/mcf/1", "/dst/sim1/lbm/0", "/dst/sim2/mcf/0"]
    );
    assert_eq!(s.get_number_task(), 4);
    let e = Experiment { benchmark_suites: vec![suite(), suite()] };
    assert_eq!(e.for_each_run_path().len(), 8);
}

#[test]
fn keep_state_drops_finished_runs_and_empty_groups() {
    let mut e = Experiment { benchmark_suites: vec![suite()] };
    let db = RunStatuses {
        entries: vec![
            ("/dst/sim1/mcf/0".to_string(), JobStatus::DONE),
            ("/dst/sim1/mcf/1".to_string(), JobStatus::FAILED),
            ("/dst/sim1/lbm/0".to_string(), JobStatus::SUBMITTED),
        ],
    };
    let any = e.keep_state(&db, &[JobStatus::TOSUBMIT, JobStatus::FAILED], &true);
    assert!(any);
    assert_eq!(e.for_each_run_path(), vec!["/dst/sim1/mcf/1", "/dst/sim2/mcf/0"]);
    assert_eq!(db.get_status("/dst/sim1/lbm/0"), Some(JobStatus::SUBMITTED));
    assert_eq!(db.get_status("/nowhere"), None);
}

#[test]
fn keep_state_without_unrecorded_runs_can_empty_everything() {
    let mut e = Experiment { benchmark_suites: vec![suite()] };
    let db = RunStatuses { entries: vec![] };
    assert!(!e.keep_state(&db, &[JobStatus::FAILED], &false));
    assert!(e.benchmark_suites.is_empty());
    assert!(e.for_each_run_path().is_empty());
}

#[test]
fn host_directories_plan() {
    let steps = suite().prepare_host_directories();
    let shown: Vec<String> = steps
        .iter()
        .map(|s| match s {
            SetupStep::CreateDir(p) => format!("mkdir {p}"),
            SetupStep::TryCreateDir(p) => format!("try {p}"),
            SetupStep::WriteArguments(p, i) => format!("args {p} {i}"),
        })
        .collect();
    assert_eq!(
        shown,
        vec![
            "mkdir /dst/sim1",
            "args /dst/sim1/args.json 0",
            "mkdir /dst/sim1/mcf",
            "try /dst/sim1/mcf/0",
            "try /dst/sim1/mcf/1",
            "mkdir /dst/sim1/lbm",
            "try /dst/sim1/lbm/0",
            "mkdir /dst/sim2",
            "args /dst/sim2/args.json 1",
            "mkdir /dst/sim2/mcf",
            "try /dst/sim2/mcf/0",
        ]
    );
}

#[test]
fn job_files_are_numbered_from_one() {
    let h = JobHandler::new(handler(), "/tmp/tc".to_string());
    let (dir, tasks) = h.create_job_files(&suite(), "123", "run <ARGUMENTS>");
    assert_eq!(dir, "/tmp/tc/123");
    assert_eq!(tasks.len(), 4);
    assert_eq!(tasks[0].task_idx, 1);
    assert_eq!(tasks[0].file_path, "/tmp/tc/123/execute_123_1.sh");
    assert_eq!(tasks[0].run_dir, "/dst/sim1/mcf/0");
    assert_eq!(tasks[0].content, "run a");
    assert_eq!(tasks[3].task_idx, 4);
    assert_eq!(tasks[3].file_path, "/tmp/tc/123/execute_123_4.sh");
    assert_eq!(tasks[3].run_dir, "/dst/sim2/mcf/0");
    assert_eq!((tasks[3].sim, tasks[3].param), (1, 0));
    assert_eq!(tasks[3].content, "run c");
}

#[test]
fn results_directory_and_links() {
    assert_eq!(JobHandler::results_dir("/x/experiments.json"), "/x/results");
    assert_eq!(JobHandler::results_dir("/x/exp"), "/x/exp/results");
    assert_eq!(
        JobHandler::link_result("/x/results", "/cache/tools/4376462735085201861/ML2/0"),
        Some((
            "/x/results/4376462735085201861/ML2".to_string(),
            "/x/results/4376462735085201861/ML2/0".to_string()
        ))
    );
    assert_eq!(JobHandler::link_result("/x/results", "/mcf/0"), None);
    assert_eq!(JobHandler::link_result("/x/results", "/"), None);
}

#[test]
fn job_file_and_result_paths() {
    let h = JobHandler::new(handler(), "/tmp/tc".to_string());
    assert_eq!(h.job_file_path("abc"), "/tmp/tc/job_abc.sh");
    assert_eq!(
        h.retrieve_paths("12_3"),
        (
            "/home/slurmslave/results/results_12_3.tar.gz".to_string(),
            "/tmp/tc/results_12_3.tar.gz".to_string()
        )
    );
}

#[test]
fn collect_decisions() {
    let on_cluster = vec!["12_2".to_string()];
    match JobHandler::collect_action(Some(JobStatus::SUBMITTED), Some("12_1".to_string()), &on_cluster) {
        CollectAction::Retrieve(id) => assert_eq!(id, "12_1"),
        CollectAction::Skip => panic!("expected a retrieval"),
    }
    assert!(matches!(
        JobHandler::collect_action(Some(JobStatus::SUBMITTED), Some("12_2".to_string()), &on_cluster),
        CollectAction::Skip
    ));
    assert!(matches!(
        JobHandler::collect_action(Some(JobStatus::DONE), Some("12_1".to_string()), &on_cluster),
        CollectAction::Skip
    ));
    assert!(matches!(JobHandler::collect_action(Some(JobStatus::SUBMITTED), None, &on_cluster), CollectAction::Skip));
    assert_eq!(JobHandler::retrieved_status(Some(true)), JobStatus::DONE);
    assert_eq!(JobHandler::retrieved_status(Some(false)), JobStatus::FAILED);
    assert_eq!(JobHandler::retrieved_status(None), JobStatus::FAILED);
}

#[test]
fn task_id_format() {
    assert_eq!(get_job_task_format(&Some("12".to_string()), Some(3)), Some("12_3".to_string()));
    assert_eq!(get_job_task_format(&None, Some(3)), None);
    assert_eq!(get_job_task_format(&Some("12".to_string()), None), None);
}

#[test]
fn job_success_needs_a_non_empty_output() {
    assert!(job_succeed(true, Some(10), None));
    assert!(job_succeed(true, None, Some(1)));
    assert!(!job_succeed(true, Some(0), Some(0)));
    assert!(!job_succeed(false, Some(10), Some(10)));
    assert!(test_non_empty_file(Some(3)));
    assert!(!test_non_empty_file(None));
}
