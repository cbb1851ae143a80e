use titan_controller::experiments::ParseExperiment;
use titan_controller::job_data::{BenchmarkArgument, ExperimentArgument, JobArgument, JobStatus};
use titan_controller::json_model::{parse_json, Json};
use titan_controller::run::benchmark_suite::BenchmarkSuite;
use titan_controller::run::caching::{tool_checkouts, trace_versions, ToolRepo};
use titan_controller::run::from_job::benchmark_parameters;
use titan_controller::strmap::StrMap;

#[test]
fn json_text_is_parsed_into_values() {
    let v = parse_json(r#"{"a": [1, "x", true, null], "b": {"c": -2}}"#).unwrap();
    let a = v.field("a").unwrap().members().unwrap();
    assert_eq!(a.len(), 4);
    assert_eq!(a[0].text(""), Some("1".to_string()));
    assert!(matches!(&a[1], Json::Str(s) if s == "x"));
    assert!(matches!(a[2], Json::Bool(true)));
    assert!(matches!(a[3], Json::Null));
    assert_eq!(v.field("b").unwrap().field("c").unwrap().text(""), Some("-2".to_string()));
    assert_eq!(v.field("a").unwrap().display(), "[1,\"x\",true,null]");
    assert!(parse_json("{\"a\": ").is_none());
    assert!(parse_json("not json").is_none());
}

#[test]
fn experiment_from_texts() {
    let p = ParseExperiment::from_texts(r#"{"job": {"name": "n"}}"#, r#"{"suites": []}"#).unwrap();
    assert!(p.exp.field("job").is_some());
    assert!(p.bench.field("suites").unwrap().members().unwrap().is_empty());
    assert!(ParseExperiment::from_texts("{", r#"{"suites": []}"#).is_none());
    assert!(ParseExperiment::from_texts("{}", "]").is_none());
}

#[test]
fn checkouts_and_traces_of_an_experiment() {
    let exp = parse_json(
        r#"{"git": {"sniper_branch": "main", "other": "x", "benchmarks": "dev", "bench_branch": 3},
            "traces": {"spec": "v1", "parsec": 2}}"#,
    )
    .unwrap();
    assert_eq!(
        tool_checkouts(&exp),
        vec![(ToolRepo::Sniper, "main".to_string()), (ToolRepo::Benchmarks, "dev".to_string())]
    );
    assert_eq!(
        trace_versions(&exp),
        Some(vec![("spec".to_string(), "v1".to_string()), ("parsec".to_string(), "2".to_string())])
    );
    let bare = parse_json("{}").unwrap();
    assert!(tool_checkouts(&bare).is_empty());
    assert_eq!(trace_versions(&bare), None);
}

fn run(name: &str, idx: usize) -> BenchmarkArgument {
    BenchmarkArgument {
        arguments: StrMap::from_pairs(vec![("<ARGUMENTS>".to_string(), format!("-- {name}"))]),
        benchmark_name: name.to_string(),
        run_idx: idx,
        task_idx: None,
        status: JobStatus::TOSUBMIT,
    }
}

#[test]
fn runs_are_grouped_by_benchmark() {
    let runs = vec![run("a", 0), run("a", 1), run("b", 0), run("a", 2)];
    let ps = benchmark_parameters(&runs);
    assert_eq!(ps.len(), 3);
    assert_eq!(ps[0].benchmark_name, "a");
    assert_eq!(ps[0].benchmark_runs.iter().map(|r| r.run_idx).collect::<Vec<_>>(), vec![0, 1]);
    assert_eq!(ps[1].benchmark_name, "b");
    assert_eq!(ps[2].benchmark_runs.iter().map(|r| r.run_idx).collect::<Vec<_>>(), vec![2]);
    let job = JobArgument {
        suite: "s".to_string(),
        meta_arguments: StrMap::from_pairs(vec![("<JOB>".to_string(), "j_s".to_string())]),
        experiment_arguments: vec![ExperimentArgument {
            sniper_dir_name: "x_y".to_string(),
            variable_sniper_parameters: StrMap::new(),
            benchmarks: runs,
        }],
        host_dst_path: "/tmp/d".to_string(),
        job_nr: None,
    };
    let suite = BenchmarkSuite::from_job(&job, &vec!["1234".to_string()], "/cache/ab");
    assert_eq!(suite.suite, "s");
    assert_eq!(suite.host_dst_path, "/cache/ab");
    assert_eq!(suite.simulator_parameters.len(), 1);
    assert_eq!(suite.simulator_parameters[0].simulator_dir_name, "1234");
    assert_eq!(suite.simulator_parameters[0].benchmark_parameters.len(), 3);
    assert_eq!(suite.get_number_task(), 4);
}

#[test]
fn tasks_per_job_are_combinations_times_benchmarks_times_runs() {
    let exp = r#"{
        "job": {"name": "exp", "runs": 2, "core_per_experiment": 1, "mem_per_core": 4, "vm_name": "vm"},
        "host_destination_path": "/tmp/d",
        "sniper_parameters": {
            "arguments": "-g a={a} -g b={b}",
            "parameters": [{"mix": "product", "values": {"a": [1, 2], "b": ["x", "y", "z"]}}]
        }
    }"#;
    let bench = r#"{"suites": [
        {"suite": "one", "type": "binary", "suite_path": "p1", "sniper_args": "",
         "benchmarks": [{"name": "b1", "binary": "bin", "arguments": ""}]},
        {"suite": "two", "type": "binary", "suite_path": "p2", "sniper_args": "",
         "benchmarks": [{"name": "c1", "binary": "bin", "arguments": ""},
                        {"name": "c2", "binary": "bin", "arguments": "-x"}]}
    ]}"#;
    let p = ParseExperiment::from_texts(exp, bench).unwrap();
    let a = p.checked_arguments().unwrap();
    assert_eq!(a.job_arguments.len(), 2);
    assert_eq!(a.job_arguments[0].suite, "one");
    assert_eq!(a.job_arguments[1].suite, "two");
    assert_eq!(a.job_arguments[0].meta_arguments.get(&"<JOB>".to_string()), Some(&"exp_one".to_string()));
    assert_eq!(a.job_arguments[0].get_number_task(), 6 * 1 * 2);
    assert_eq!(a.job_arguments[1].get_number_task(), 6 * 2 * 2);
    assert_eq!(a.job_arguments[1].host_dst_path, "/tmp/d");
}
