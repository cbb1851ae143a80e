use titan_controller::experiments::{
    create_parameter_product_mix, create_parameter_single_mix, get_benchmark_arguments, get_git_repos,
    get_sniper_argument_keys, get_sniper_arguments, get_tot_memory, get_vm_mounts, job_map_file,
    ExperimentType, ParseExperiment, VmType,
};
use titan_controller::json_model::{Json, JsonNumber};
use titan_controller::run::status::JobStatus;
use titan_controller::strmap::StrMap;

fn s(x: &str) -> Json {
    Json::Str(x.to_string())
}

fn n(i: isize) -> Json {
    Json::Number(JsonNumber {
        as_isize: Some(i),
        as_usize: if i >= 0 { Some(i as usize) } else { None },
        text: i.to_string(),
    })
}

fn arr(items: Vec<Json>) -> Json {
    Json::Array { items, dump: "[..]".to_string() }
}

fn obj(entries: Vec<(&str, Json)>) -> Json {
    Json::Object { entries: entries.into_iter().map(|(k, v)| (k.to_string(), v)).collect(), dump: "{..}".to_string() }
}

fn get(m: &StrMap, k: &str) -> Option<String> {
    m.get(&k.to_string()).cloned()
}

fn strings(v: &[&str]) -> Vec<String> {
    v.iter().map(|x| x.to_string()).collect()
}

#[test]
fn json_text_of_values() {
    assert_eq!(s("a").text(" "), Some("a".to_string()));
    assert_eq!(n(-42).text(""), Some("-42".to_string()));
    assert_eq!(Json::Bool(true).text(""), Some("true".to_string()));
    assert_eq!(Json::Null.text(""), Some(String::new()));
    assert_eq!(arr(vec![s("a"), n(1), arr(vec![s("b"), s("c")])]).text(" "), Some("a 1 bc".to_string()));
    let float = Json::Number(JsonNumber { as_isize: None, as_usize: None, text: "1.5".to_string() });
    assert_eq!(arr(vec![s("a"), float]).text(" "), None);
    assert!(obj(vec![("k", s("v"))]).field("k").is_some());
    assert!(obj(vec![("k", s("v"))]).field("x").is_none());
}

#[test]
fn experiment_type_names() {
    assert_eq!(ExperimentType::from_str("Binaries"), Ok(ExperimentType::BINARY));
    assert_eq!(ExperimentType::from_str("TRACE"), Ok(ExperimentType::TRACE));
    assert_eq!(ExperimentType::from_str("pinballs"), Ok(ExperimentType::PINBALL));
    assert_eq!(ExperimentType::from_str("docker"), Err(()));
}

#[test]
fn git_checkouts() {
    let o = obj(vec![("git", obj(vec![("sniper_branch", s("main")), ("bench_branch", s("dev"))]))]);
    assert_eq!(
        get_git_repos(&o),
        Some("checkout_git_repo sniper main\ncheckout_git_repo bench dev\n".to_string())
    );
    assert_eq!(get_git_repos(&obj(vec![])), Some(String::new()));
    assert_eq!(get_git_repos(&obj(vec![("git", obj(vec![("sniper", s("main"))]))])), None);
    assert_eq!(get_git_repos(&obj(vec![("git", obj(vec![("sniper_branch", n(1))]))])), None);
}

#[test]
fn vm_mount_lines() {
    let o = obj(vec![
        ("git", obj(vec![("sniper_branch", s("main"))])),
        ("vm_mount", obj(vec![("data", s("/data")), ("skip", s("NONE"))])),
    ]);
    assert_eq!(
        get_vm_mounts(&o, VmType::VBOX),
        Some("mount_vbox sniper_mount /home/slurmslave/sniper/${SNIPER_GIT_ID}\nmount_vbox data /data\n".to_string())
    );
    assert_eq!(
        get_vm_mounts(&o, VmType::DOCKER),
        Some("-v /home/slurmslave/sniper/${SNIPER_GIT_ID}:${sniper_mount} \\\n\t-v /data:${data} \\\n\t".to_string())
    );
    assert_eq!(get_vm_mounts(&obj(vec![("vm_mount", obj(vec![("d", n(3))]))]), VmType::VBOX), None);
}

#[test]
fn job_memory() {
    let exp = obj(vec![("job", obj(vec![("core_per_experiment", n(4)), ("mem_per_core", s("2"))]))]);
    assert_eq!(get_tot_memory(&exp), Some(8));
    let bad = obj(vec![("job", obj(vec![("core_per_experiment", s("four")), ("mem_per_core", n(2))]))]);
    assert_eq!(get_tot_memory(&bad), None);
}

fn values() -> Json {
    obj(vec![("a", arr(vec![n(1), n(2)])), ("b", arr(vec![s("x"), s("y")]))])
}

#[test]
fn product_and_single_mixes() {
    let keys = strings(&["a", "b"]);
    let p = create_parameter_product_mix(&keys, &values()).unwrap();
    assert_eq!(p, vec![strings(&["1", "x"]), strings(&["1", "y"]), strings(&["2", "x"]), strings(&["2", "y"])]);
    let single = create_parameter_single_mix(&keys, &values()).unwrap();
    assert_eq!(single, vec![strings(&["1", "x"]), strings(&["2", "x"]), strings(&["1", "y"])]);
    assert_eq!(create_parameter_product_mix(&vec![], &values()), Some(vec![]));
    assert_eq!(create_parameter_single_mix(&vec![], &values()), Some(vec![]));
}

#[test]
fn sniper_parameter_sets_are_deduplicated() {
    let exp = obj(vec![(
        "sniper_parameters",
        obj(vec![(
            "parameters",
            arr(vec![
                obj(vec![("mix", s("PRODUCT")), ("values", values())]),
                obj(vec![("mix", s("single")), ("values", values()), ("include_base", s("true"))]),
            ]),
        )]),
    )]);
    let keys = get_sniper_argument_keys(&exp);
    assert_eq!(keys, strings(&["a", "b"]));
    let combos = get_sniper_arguments(&exp, &keys).unwrap();
    assert_eq!(combos, vec![strings(&["1", "x"]), strings(&["1", "y"]), strings(&["2", "x"]), strings(&["2", "y"])]);
}

#[test]
fn binary_benchmark_runs() {
    let suite = obj(vec![
        ("type", s("binaries")),
        ("suite_path", s("spec")),
        ("sniper_args", arr(vec![s("--roi"), s("-v")])),
        (
            "benchmarks",
            arr(vec![obj(vec![
                ("name", s("mcf")),
                ("binary", s("mcf_r")),
                ("arguments", arr(vec![s("in.txt"), s("-x")])),
                ("bench_path", s("505")),
            ])]),
        ),
    ]);
    let runs = get_benchmark_arguments(&suite, 2).unwrap();
    assert_eq!(runs.len(), 2);
    assert_eq!(runs[1].run_idx, 1);
    assert_eq!(runs[0].benchmark_name, "mcf");
    assert_eq!(runs[0].status, JobStatus::TOSUBMIT);
    assert_eq!(runs[0].task_idx, None);
    assert_eq!(get(&runs[0].arguments, "<BENCH_BUILD_DIR>"), Some("spec/505".to_string()));
    assert_eq!(get(&runs[0].arguments, "<BUILD_COMMAND>"), Some("make".to_string()));
    assert_eq!(get(&runs[0].arguments, "<SETUP_CMD>"), Some(String::new()));
    assert_eq!(
        get(&runs[0].arguments, "<ARGUMENTS>"),
        Some("--roi -v -- ${BENCHMARKS_DIR}/spec/505/mcf_r in.txt -x".to_string())
    );
}

#[test]
fn trace_benchmarks_and_suite_build() {
    let suite = obj(vec![
        ("type", s("Traces")),
        ("suite_path", s("sp")),
        ("sniper_args", s("")),
        ("build_cmd", arr(vec![s("make"), s("all")])),
        (
            "benchmarks",
            arr(vec![obj(vec![
                ("name", s("t")),
                ("traces", arr(vec![s("a"), s("b")])),
                ("setup_cmd", arr(vec![s("x"), s("y")])),
            ])]),
        ),
    ]);
    let runs = get_benchmark_arguments(&suite, 1).unwrap();
    assert_eq!(runs.len(), 1);
    assert_eq!(get(&runs[0].arguments, "<BENCH_BUILD_DIR>"), Some("sp".to_string()));
    assert_eq!(get(&runs[0].arguments, "<BUILD_COMMAND>"), Some("\"make all\"".to_string()));
    assert_eq!(get(&runs[0].arguments, "<SETUP_CMD>"), Some("x\ny".to_string()));
    assert_eq!(
        get(&runs[0].arguments, "<ARGUMENTS>"),
        Some(" --traces=${TRACES_DIR}/sp/a,${TRACES_DIR}/sp/b".to_string())
    );
    let unknown = obj(vec![("type", s("docker")), ("benchmarks", arr(vec![]))]);
    assert!(get_benchmark_arguments(&unknown, 1).is_none());
}

#[test]
fn whole_experiment() {
    let exp = obj(vec![
        (
            "job",
            obj(vec![
                ("name", s("exp")),
                ("runs", n(1)),
                ("core_per_experiment", n(2)),
                ("mem_per_core", n(3)),
                ("vm_name", s("vm")),
            ]),
        ),
        ("host_destination_path", s("/tmp/my")),
        (
            "sniper_parameters",
            obj(vec![
                ("parameters", arr(vec![obj(vec![("mix", s("single")), ("values", obj(vec![("cores", arr(vec![n(1), n(2)]))]))])])),
                ("arguments", s("-g cores={cores}")),
            ]),
        ),
    ]);
    let bench = obj(vec![(
        "suites",
        arr(vec![obj(vec![
            ("suite", s("spec")),
            ("type", s("binary")),
            ("suite_path", s("sp")),
            ("sniper_args", s("")),
            ("benchmarks", arr(vec![obj(vec![("name", s("b")), ("binary", s("bin")), ("arguments", s(""))])])),
        ])]),
    )]);
    let p = ParseExperiment::new(exp, bench);
    let a = p.checked_arguments().unwrap();
    assert_eq!(a.job_arguments.len(), 1);
    let j = &a.job_arguments[0];
    assert_eq!(j.suite, "spec");
    assert_eq!(j.host_dst_path, "/tmp/my");
    assert_eq!(j.job_nr, None);
    assert_eq!(get(&j.meta_arguments, "<JOB>"), Some("exp_spec".to_string()));
    assert_eq!(get(&j.meta_arguments, "<CORES>"), Some("2".to_string()));
    assert_eq!(get(&j.meta_arguments, "<MEMORY>"), Some("6".to_string()));
    assert_eq!(get(&j.meta_arguments, "<VM_NAME>"), Some("vm".to_string()));
    assert_eq!(get(&j.meta_arguments, "<GIT-REPOSITORIES>"), Some(String::new()));
    assert_eq!(j.experiment_arguments.len(), 2);
    assert_eq!(j.experiment_arguments[0].sniper_dir_name, "1");
    assert_eq!(j.experiment_arguments[1].sniper_dir_name, "2");
    assert_eq!(get(&j.experiment_arguments[1].variable_sniper_parameters, "cores"), Some("2".to_string()));
    let b = &j.experiment_arguments[0].benchmarks[0];
    assert_eq!(get(&b.arguments, "<ARGUMENTS>"), Some("-g cores=1  -- ${BENCHMARKS_DIR}/sp/bin ".to_string()));
    assert_eq!(p.get_arguments().job_arguments.len(), 1);
}

#[test]
fn experiment_that_cannot_be_read() {
    let exp = obj(vec![("job", obj(vec![("runs", s("one"))]))]);
    let bench = obj(vec![("suites", arr(vec![obj(vec![])]))]);
    assert!(ParseExperiment::new(exp, bench).checked_arguments().is_none());
    let empty = ParseExperiment::new(obj(vec![]), obj(vec![]));
    assert_eq!(empty.checked_arguments().unwrap().job_arguments.len(), 0);
}

#[test]
fn job_map_location() {
    assert_eq!(job_map_file("/tmp/my"), Some("/tmp/my/experiments.json".to_string()));
    assert_eq!(job_map_file("/tmp/my/experiments.json"), Some("/tmp/my/experiments.json".to_string()));
    assert_eq!(job_map_file("/"), None);
}

fn three_keys() -> Json {
    obj(vec![
        ("a", arr(vec![n(1), n(2), n(3)])),
        ("b", arr(vec![s("x"), s("y")])),
        ("c", arr(vec![s("p"), s("q"), s("r")])),
    ])
}

#[test]
fn product_mix_has_one_combination_per_choice() {
    let keys = strings(&["a", "b", "c"]);
    let p = create_parameter_product_mix(&keys, &three_keys()).unwrap();
    assert_eq!(p.len(), 3 * 2 * 3);
    assert_eq!(p[0], strings(&["1", "x", "p"]));
    assert_eq!(p[17], strings(&["3", "y", "r"]));
    for (i, a) in p.iter().enumerate() {
        for b in p.iter().skip(i + 1) {
            assert_ne!(a, b);
        }
    }
}

#[test]
fn single_mix_changes_one_key_at_a_time() {
    let keys = strings(&["a", "b", "c"]);
    let single = create_parameter_single_mix(&keys, &three_keys()).unwrap();
    assert_eq!(single.len(), 1 + 2 + 1 + 2);
    let base = &single[0];
    assert_eq!(*base, strings(&["1", "x", "p"]));
    for combo in single.iter().skip(1) {
        let changed = combo.iter().zip(base.iter()).filter(|(x, y)| x != y).count();
        assert_eq!(changed, 1);
    }
    assert_eq!(single[5], strings(&["1", "x", "r"]));
}

#[test]
fn one_block_per_entity_gives_one_configuration_each() {
    let block = |o: &str, p: &str| {
        obj(vec![
            ("mix", s("product")),
            ("values", obj(vec![("overrides", arr(vec![s(o)])), ("pred", arr(vec![s(p)]))])),
        ])
    };
    let exp = obj(vec![(
        "sniper_parameters",
        obj(vec![("parameters", arr(vec![block("-c a=1", "tage"), block("-c a=2", "tage"), block("-c a=3", "gshare")]))]),
    )]);
    let keys = get_sniper_argument_keys(&exp);
    assert_eq!(keys, strings(&["overrides", "pred"]));
    let combos = get_sniper_arguments(&exp, &keys).unwrap();
    assert_eq!(
        combos,
        vec![strings(&["-c a=1", "tage"]), strings(&["-c a=2", "tage"]), strings(&["-c a=3", "gshare"])]
    );
}
