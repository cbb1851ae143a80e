use vstd::prelude::*;

use crate::constants::EXPERIMENT_DB_NAME;
use crate::hpc::slurm_handle::{job_file_arguments_spec, SlurmHandler};
use crate::paths::{file_name, file_name_of, join, parent, parent_of, path_join};
use crate::run::benchmark_parameter::{param_dir, param_paths, ParamView};
use crate::run::benchmark_run::run_dir;
use crate::run::benchmark_suite::{sims_count, sims_paths, suite_paths, BenchmarkSuite, SuiteView};
use crate::run::laws::law_suite_number_task;
use crate::run::simulator_parameter::{params_paths, sim_dir, sim_paths, SimView};
use crate::run::status::JobStatus;
use crate::run::fill_template::{fill, fill_template};
use crate::text::{append_chars, chars_of, decimal, decimal_chars, same_chars, string_of};

verus! {

/// What `collect` does with one run directory.
#[derive(Debug)]
pub enum CollectAction {
    /// Nothing: the run is not submitted, has no task id, or is still on the cluster.
    Skip,
    /// Fetch the results of the task with this id (`<job_id>_<task_idx>`).
    Retrieve(String),
}

/// `<dir>/results`, where `dir` is the directory of the experiment map (the map file's
/// parent when the path names `experiments.json` itself).
pub open spec fn results_dir_spec(map_file: Seq<char>) -> Seq<char> {
    let base = if file_name_of(map_file) == Some(EXPERIMENT_DB_NAME@) {
        match parent_of(map_file) {
            Some(p) => p,
            None => map_file,
        }
    } else {
        map_file
    };
    path_join(base, "results"@)
}

/// Where the result of `real_path` is linked: `results_dir/<config>/<benchmark>/<run>`
/// with the last three components of `real_path` (the Sniper configuration's directory,
/// the benchmark and the run index); the directory to create comes first. `None` when
/// `real_path` lacks one of them.
pub open spec fn link_spec(results_dir: Seq<char>, real_path: Seq<char>) -> Option<(Seq<char>, Seq<char>)> {
    match (file_name_of(real_path), parent_of(real_path)) {
        (Some(run_idx), Some(p)) => match (file_name_of(p), parent_of(p)) {
            (Some(bench), Some(pp)) => match file_name_of(pp) {
                Some(config) => {
                    let dir = path_join(path_join(results_dir, config), bench);
                    Some((dir, path_join(dir, run_idx)))
                },
                None => None,
            },
            _ => None,
        },
        _ => None,
    }
}

/// The name of the execution script of task `task_idx` of job `job_nr`.
pub open spec fn task_file_name(job_nr: Seq<char>, task_idx: nat) -> Seq<char> {
    "execute_"@ + job_nr + "_"@ + decimal(task_idx) + ".sh"@
}

/// For each run of benchmark `pj` of configuration `si` (which has `n` runs), the pair
/// `(si, pj)`.
pub open spec fn param_refs(si: nat, pj: nat, n: nat) -> Seq<(nat, nat)> {
    Seq::new(n, |k: int| (si, pj))
}

/// For each run of the benchmarks `ps` of configuration `si`, its configuration and benchmark.
pub open spec fn sim_refs(si: nat, ps: Seq<ParamView>) -> Seq<(nat, nat)>
    decreases ps.len(),
{
    if ps.len() == 0 {
        Seq::empty()
    } else {
        sim_refs(si, ps.drop_last()) + param_refs(si, (ps.len() - 1) as nat, ps.last().runs.len())
    }
}

/// For each run of the configurations `sims`, its configuration and benchmark indices.
pub open spec fn suite_refs(sims: Seq<SimView>) -> Seq<(nat, nat)>
    decreases sims.len(),
{
    if sims.len() == 0 {
        Seq::empty()
    } else {
        suite_refs(sims.drop_last()) + sim_refs((sims.len() - 1) as nat, sims.last().params)
    }
}

/// Whether the results of a run are due for download: it is recorded as submitted, has a
/// task id, and that task is no longer on the cluster.
pub open spec fn retrieve_due(status: Option<JobStatus>, job_task: Option<Seq<char>>, on_cluster: Seq<Seq<char>>) -> bool {
    status == Some(JobStatus::SUBMITTED) && match job_task {
        Some(t) => !on_cluster.contains(t),
        None => false,
    }
}

/// An execution script to write for one task of a job.
#[derive(Debug)]
pub struct TaskFile {
    /// The task's number within the job, from 1.
    pub task_idx: usize,
    /// Where the script goes.
    pub file_path: String,
    /// The run directory that the task's results belong to.
    pub run_dir: String,
    /// The index of the task's configuration in the suite.
    pub sim: usize,
    /// The index of the task's benchmark in that configuration.
    pub param: usize,
    /// The script: the execution template filled with the benchmark's arguments.
    pub content: String,
}

/// Whether `plan` is the task plan of `suite` for job `job_nr` in `exp_dir`: one task per
/// run directory, in the order of `for_each_run_path`, numbered from 1.
pub open spec fn is_task_plan(plan: Seq<TaskFile>, suite: SuiteView, exp_dir: Seq<char>, job_nr: Seq<char>) -> bool {
    &&& plan.len() == suite_paths(suite).len()
    &&& forall|g: int| 0 <= g < plan.len() ==> {
        &&& (#[trigger] plan[g]).task_idx == g + 1
        &&& plan[g].file_path@ == path_join(exp_dir, task_file_name(job_nr, (g + 1) as nat))
        &&& plan[g].run_dir@ == suite_paths(suite)[g]
        &&& (plan[g].sim as nat, plan[g].param as nat) == suite_refs(suite.sims)[g]
    }
}

/// Each task's script is named after its number in `exp_dir`.
pub open spec fn plan_files(plan: Seq<TaskFile>, exp_dir: Seq<char>, job_nr: Seq<char>) -> bool {
    forall|g: int|
        0 <= g < plan.len() ==> {
            &&& (#[trigger] plan[g]).task_idx == g + 1
            &&& plan[g].file_path@ == path_join(exp_dir, task_file_name(job_nr, (g + 1) as nat))
        }
}

/// Each task's script is `template` filled with the arguments of the benchmark it names in
/// `suite`.
pub open spec fn plan_fills(plan: Seq<TaskFile>, suite: BenchmarkSuite, template: Seq<char>) -> bool {
    forall|g: int|
        0 <= g < plan.len() ==> {
            &&& ((#[trigger] plan[g]).sim as int) < suite.simulator_parameters@.len()
            &&& (plan[g].param as int) < suite.simulator_parameters@[plan[g].sim as int].benchmark_parameters@.len()
            &&& plan[g].content@ == fill(
                template,
                suite.simulator_parameters@[plan[g].sim as int].benchmark_parameters@[plan[g].param as int].arguments.pairs(),
            )
        }
}

/// The run directories of the tasks of `plan`.
pub open spec fn plan_dirs(plan: Seq<TaskFile>) -> Seq<Seq<char>> {
    plan.map_values(|t: TaskFile| t.run_dir@)
}

/// The configuration and benchmark indices of the tasks of `plan`.
pub open spec fn plan_refs(plan: Seq<TaskFile>) -> Seq<(nat, nat)> {
    plan.map_values(|t: TaskFile| (t.sim as nat, t.param as nat))
}

proof fn lemma_plan_views(plan: Seq<TaskFile>, suite: SuiteView, exp_dir: Seq<char>, job_nr: Seq<char>)
    requires
        plan_dirs(plan) == suite_paths(suite),
        plan_refs(plan) == suite_refs(suite.sims),
        plan_files(plan, exp_dir, job_nr),
    ensures
        is_task_plan(plan, suite, exp_dir, job_nr),
{
    assert forall|g: int| 0 <= g < plan.len() implies {
        &&& (#[trigger] plan[g]).task_idx == g + 1
        &&& plan[g].file_path@ == path_join(exp_dir, task_file_name(job_nr, (g + 1) as nat))
        &&& plan[g].run_dir@ == suite_paths(suite)[g]
        &&& (plan[g].sim as nat, plan[g].param as nat) == suite_refs(suite.sims)[g]
    } by {
        assert(plan_dirs(plan)[g] == plan[g].run_dir@);
        assert(plan_refs(plan)[g] == (plan[g].sim as nat, plan[g].param as nat));
    }
}

proof fn lemma_sims_paths_prefix(ss: Seq<SimView>, dst: Seq<char>, i: int)
    requires
        0 <= i <= ss.len(),
    ensures
        sims_paths(ss.take(i), dst).len() <= sims_paths(ss, dst).len(),
    decreases ss.len() - i,
{
    if i < ss.len() {
        lemma_sims_paths_prefix(ss, dst, i + 1);
        assert(ss.take(i + 1).drop_last() == ss.take(i));
    } else {
        assert(ss.take(i) == ss);
    }
}

proof fn lemma_params_paths_prefix(ps: Seq<ParamView>, d: Seq<char>, j: int)
    requires
        0 <= j <= ps.len(),
    ensures
        params_paths(ps.take(j), d).len() <= params_paths(ps, d).len(),
    decreases ps.len() - j,
{
    if j < ps.len() {
        lemma_params_paths_prefix(ps, d, j + 1);
        assert(ps.take(j + 1).drop_last() == ps.take(j));
    } else {
        assert(ps.take(j) == ps);
    }
}

/// `<job_nr>` directory under `temp`, and the script name of task `idx`.
pub(crate) fn task_file_path(exp_dir: &str, job_nr: &str, idx: usize) -> (r: String)
    ensures
        r@ == path_join(exp_dir@, task_file_name(job_nr@, idx as nat)),
{
    let mut v = chars_of("execute_");
    let j = chars_of(job_nr);
    append_chars(&mut v, &j);
    let u = chars_of("_");
    append_chars(&mut v, &u);
    let n = decimal_chars(idx);
    append_chars(&mut v, &n);
    let ext = chars_of(".sh");
    append_chars(&mut v, &ext);
    let name = string_of(&v);
    join(exp_dir, name.as_str())
}

/// The handler of experiments: it submits them through `hpc_handler` and keeps its
/// scratch files under `temp_path`.
#[derive(Debug)]
pub struct JobHandler {
    pub hpc_handler: SlurmHandler,
    pub temp_path: String,
}

impl JobHandler {
    /// A handler with the given scheduler and scratch directory.
    pub fn new(hpc_handler: SlurmHandler, temp_path: String) -> (r: Self)
        ensures
            r.hpc_handler == hpc_handler,
            r.temp_path@ == temp_path@,
    {
        JobHandler { hpc_handler, temp_path }
    }

    /// The directory in which results are linked: `results` next to the experiment map.
    pub fn results_dir(experiment_map_file: &str) -> (r: String)
        ensures
            r@ == results_dir_spec(experiment_map_file@),
    {
        let name = file_name(experiment_map_file);
        let db = chars_of(EXPERIMENT_DB_NAME);
        let is_db = match &name {
            Some(n) => {
                let nv = chars_of(n.as_str());
                same_chars(&nv, &db)
            },
            None => false,
        };
        let base: String = if is_db {
            match parent(experiment_map_file) {
                Some(p) => p,
                None => experiment_map_file.to_owned(),
            }
        } else {
            experiment_map_file.to_owned()
        };
        join(base.as_str(), "results")
    }

    /// Where the result directory `real_path` is linked under `results_dir`: the directory
    /// to create and the link itself (see `link_spec`).
    pub fn link_result(results_dir: &str, real_path: &str) -> (r: Option<(String, String)>)
        ensures
            match r {
                Some((d, l)) => link_spec(results_dir@, real_path@) == Some((d@, l@)),
                None => link_spec(results_dir@, real_path@) is None,
            },
    {
        let run_idx = match file_name(real_path) {
            Some(n) => n,
            None => return None,
        };
        let p = match parent(real_path) {
            Some(p) => p,
            None => return None,
        };
        let bench = match file_name(p.as_str()) {
            Some(n) => n,
            None => return None,
        };
        let pp = match parent(p.as_str()) {
            Some(pp) => pp,
            None => return None,
        };
        let config = match file_name(pp.as_str()) {
            Some(n) => n,
            None => return None,
        };
        let dir = join(join(results_dir, config.as_str()).as_str(), bench.as_str());
        let link_path = join(dir.as_str(), run_idx.as_str());
        Some((dir, link_path))
    }

    /// The job file of a submission: `job_<hash>.sh` in the scratch directory.
    pub fn job_file_path(&self, hash: &str) -> (r: String)
        ensures
            r@ == path_join(self.temp_path@, "job_"@ + hash@ + ".sh"@),
    {
        let mut v = chars_of("job_");
        let h = chars_of(hash);
        append_chars(&mut v, &h);
        let ext = chars_of(".sh");
        append_chars(&mut v, &ext);
        let name = string_of(&v);
        join(self.temp_path.as_str(), name.as_str())
    }

    /// Where the results of task `bench_job_id` are fetched from on the cluster, and the
    /// local archive they are copied to.
    pub fn retrieve_paths(&self, bench_job_id: &str) -> (r: (String, String))
        ensures
            r.0@ == "/home/slurmslave/results/"@ + ("results_"@ + bench_job_id@ + ".tar.gz"@),
            r.1@ == path_join(self.temp_path@, "results_"@ + bench_job_id@ + ".tar.gz"@),
    {
        let mut f = chars_of("results_");
        let id = chars_of(bench_job_id);
        append_chars(&mut f, &id);
        let ext = chars_of(".tar.gz");
        append_chars(&mut f, &ext);
        let mut src = chars_of("/home/slurmslave/results/");
        append_chars(&mut src, &f);
        let name = string_of(&f);
        (string_of(&src), join(self.temp_path.as_str(), name.as_str()))
    }

    /// What `collect` does with a run whose recorded status is `status` and task id
    /// `job_task`, given the ids of the tasks still on the cluster: it downloads the results
    /// of a submitted run that has a task id and is no longer on the cluster.
    pub fn collect_action(
        status: Option<JobStatus>,
        job_task: Option<String>,
        titan_job_ids: &Vec<String>,
    ) -> (r: CollectAction)
        ensures
            match r {
                CollectAction::Retrieve(id) => job_task matches Some(t) && id@ == t@ && retrieve_due(
                    status,
                    Some(t@),
                    titan_job_ids@.map_values(|s: String| s@),
                ),
                CollectAction::Skip => !retrieve_due(
                    status,
                    match job_task {
                        Some(t) => Some(t@),
                        None => None,
                    },
                    titan_job_ids@.map_values(|s: String| s@),
                ),
            },
    {
        if status != Some(JobStatus::SUBMITTED) {
            return CollectAction::Skip;
        }
        match job_task {
            Some(t) => {
                let ghost ids = titan_job_ids@.map_values(|s: String| s@);
                let mut i: usize = 0;
                while i < titan_job_ids.len()
                    invariant
                        ids == titan_job_ids@.map_values(|s: String| s@),
                        status == Some(JobStatus::SUBMITTED),
                        job_task == Some(t),
                        i <= titan_job_ids.len(),
                        forall|j: int| 0 <= j < i ==> ids[j] != t@,
                    decreases titan_job_ids.len() - i,
                {
                    if titan_job_ids[i] == t {
                        assert(ids[i as int] == t@);
                        assert(ids.contains(t@));
                        return CollectAction::Skip;
                    }
                    i += 1;
                }
                CollectAction::Retrieve(t)
            },
            None => CollectAction::Skip,
        }
    }

    /// The status a retrieved run gets: `DONE` when its results passed the check, `FAILED`
    /// when they did not or could not be fetched (`None`).
    pub fn retrieved_status(outcome: Option<bool>) -> (r: JobStatus)
        ensures
            r == (if outcome == Some(true) { JobStatus::DONE } else { JobStatus::FAILED }),
    {
        match outcome {
            Some(true) => JobStatus::DONE,
            _ => JobStatus::FAILED,
        }
    }

    /// The execution scripts of the tasks of `job_argument`, submitted as job `job_nr`:
    /// one per run directory, in the order of `for_each_run_path`, numbered from 1, to be
    /// written to `<temp_path>/<job_nr>/execute_<job_nr>_<task_idx>.sh`, each holding
    /// `template` filled with the arguments of the run's benchmark.
    pub fn create_job_files(&self, job_argument: &BenchmarkSuite, job_nr: &str, template: &str) -> (r: (
        String,
        Vec<TaskFile>,
    ))
        requires
            sims_count(job_argument@.sims) <= usize::MAX,
        ensures
            r.0@ == path_join(self.temp_path@, job_nr@),
            is_task_plan(r.1@, job_argument@, r.0@, job_nr@),
            plan_fills(r.1@, *job_argument, template@),
    {
        let temp_exp_path = join(self.temp_path.as_str(), job_nr);
        let ghost s = job_argument@;
        let ghost ss = s.sims;
        let ghost dst = s.dst;
        proof {
            law_suite_number_task(s);
        }
        let mut plan: Vec<TaskFile> = Vec::new();
        let mut i: usize = 0;
        assert(ss.take(0) =~= Seq::<SimView>::empty());
        assert(plan_dirs(plan@) =~= Seq::<Seq<char>>::empty());
        assert(plan_refs(plan@) =~= Seq::<(nat, nat)>::empty());
        while i < job_argument.simulator_parameters.len()
            invariant
                s == job_argument@,
                ss == s.sims,
                dst == s.dst,
                sims_count(ss) == suite_paths(s).len(),
                sims_count(ss) <= usize::MAX,
                i <= ss.len(),
                plan_dirs(plan@) == sims_paths(ss.take(i as int), dst),
                plan_refs(plan@) == suite_refs(ss.take(i as int)),
                plan_files(plan@, temp_exp_path@, job_nr@),
                plan_fills(plan@, *job_argument, template@),
            decreases ss.len() - i,
        {
            let sim = &job_argument.simulator_parameters[i];
            let ghost sv = sim@;
            assert(sv == ss[i as int]);
            let sim_dir_s = sim.get_dir(job_argument.host_dst_path.as_str());
            let ghost ps = sv.params;
            let ghost dirs0 = plan_dirs(plan@);
            let ghost refs0 = plan_refs(plan@);
            proof {
                lemma_sims_paths_prefix(ss, dst, i + 1);
                assert(ss.take(i + 1).drop_last() == ss.take(i as int));
                assert(ss.take(i + 1).last() == sv);
            }
            let mut j: usize = 0;
            assert(ps.take(0) =~= Seq::<ParamView>::empty());
            assert(dirs0 + params_paths(ps.take(0), sim_dir(dst, sv)) =~= dirs0);
            assert(refs0 + sim_refs(i as nat, ps.take(0)) =~= refs0);
            while j < sim.benchmark_parameters.len()
                invariant
                    s == job_argument@,
                    ss == s.sims,
                    dst == s.dst,
                    i < ss.len(),
                    sv == ss[i as int],
                    sv == sim@,
                    *sim == job_argument.simulator_parameters@[i as int],
                    ps == sv.params,
                    sim_dir_s@ == sim_dir(dst, sv),
                    dst == job_argument.host_dst_path@,
                    dirs0 == sims_paths(ss.take(i as int), dst),
                    refs0 == suite_refs(ss.take(i as int)),
                    dirs0.len() + sim_paths(sv, dst).len() <= suite_paths(s).len(),
                    suite_paths(s).len() <= usize::MAX,
                    j <= ps.len(),
                    plan_dirs(plan@) == dirs0 + params_paths(ps.take(j as int), sim_dir(dst, sv)),
                    plan_refs(plan@) == refs0 + sim_refs(i as nat, ps.take(j as int)),
                    plan_files(plan@, temp_exp_path@, job_nr@),
                    plan_fills(plan@, *job_argument, template@),
                decreases ps.len() - j,
            {
                let bench_param = &sim.benchmark_parameters[j];
                let ghost pv = bench_param@;
                assert(pv == ps[j as int]);
                let bench_param_dir = bench_param.get_dir(sim_dir_s.as_str());
                let content = fill_template(template, &bench_param.arguments);
                let ghost dirs1 = plan_dirs(plan@);
                let ghost refs1 = plan_refs(plan@);
                proof {
                    lemma_params_paths_prefix(ps, sim_dir(dst, sv), j + 1);
                    assert(ps.take(j + 1).drop_last() == ps.take(j as int));
                    assert(ps.take(j + 1).last() == pv);
                }
                let mut r: usize = 0;
                assert(dirs1 + param_paths(pv, sim_dir(dst, sv)).take(0) =~= dirs1);
                assert(refs1 + param_refs(i as nat, j as nat, 0) =~= refs1);
                while r < bench_param.benchmark_runs.len()
                    invariant
                        pv == bench_param@,
                        pv == ps[j as int],
                        j < ps.len(),
                        i < job_argument.simulator_parameters@.len(),
                        *sim == job_argument.simulator_parameters@[i as int],
                        *bench_param == sim.benchmark_parameters@[j as int],
                        j < sim.benchmark_parameters@.len(),
                        content@ == fill(template@, bench_param.arguments.pairs()),
                        bench_param_dir@ == param_dir(sim_dir(dst, sv), pv),
                        dirs1 == dirs0 + params_paths(ps.take(j as int), sim_dir(dst, sv)),
                        refs1 == refs0 + sim_refs(i as nat, ps.take(j as int)),
                        dirs1.len() + param_paths(pv, sim_dir(dst, sv)).len() <= suite_paths(s).len(),
                        suite_paths(s).len() <= usize::MAX,
                        r <= pv.runs.len(),
                        plan_dirs(plan@) == dirs1 + param_paths(pv, sim_dir(dst, sv)).take(r as int),
                        plan_refs(plan@) == refs1 + param_refs(i as nat, j as nat, r as nat),
                        plan_files(plan@, temp_exp_path@, job_nr@),
                        plan_fills(plan@, *job_argument, template@),
                    decreases pv.runs.len() - r,
                {
                    proof {
                        assert(plan_dirs(plan@).len() == plan@.len());
                    }
                    let task_idx = plan.len() + 1;
                    let bench_run_dir = bench_param.benchmark_runs[r].get_dir(bench_param_dir.as_str());
                    let file_path = task_file_path(temp_exp_path.as_str(), job_nr, task_idx);
                    let t = TaskFile {
                        task_idx,
                        file_path,
                        run_dir: bench_run_dir,
                        sim: i,
                        param: j,
                        content: content.clone(),
                    };
                    let ghost p0 = plan@;
                    plan.push(t);
                    proof {
                        assert(param_paths(pv, sim_dir(dst, sv))[r as int] == t.run_dir@);
                        assert(param_paths(pv, sim_dir(dst, sv)).take(r + 1) =~= param_paths(
                            pv,
                            sim_dir(dst, sv),
                        ).take(r as int).push(t.run_dir@));
                        assert(plan_dirs(plan@) =~= plan_dirs(p0).push(t.run_dir@));
                        assert(param_refs(i as nat, j as nat, (r + 1) as nat) =~= param_refs(
                            i as nat,
                            j as nat,
                            r as nat,
                        ).push((i as nat, j as nat)));
                        assert(plan_refs(plan@) =~= plan_refs(p0).push((i as nat, j as nat)));
                        assert(plan@[p0.len() as int] == t);
                    }
                    r += 1;
                }
                assert(param_paths(pv, sim_dir(dst, sv)).take(r as int) == param_paths(pv, sim_dir(dst, sv)));
                j += 1;
            }
            assert(ps.take(j as int) == ps);
            i += 1;
        }
        assert(ss.take(i as int) == ss);
        proof {
            lemma_plan_views(plan@, s, temp_exp_path@, job_nr@);
        }
        (temp_exp_path, plan)
    }
}

/// The job array of a submission covers exactly its task scripts: the `<TASKS>` argument
/// of the job file (`job_file_arguments`) is the number of scripts that `create_job_files`
/// writes.
pub proof fn law_job_array_covers_task_files(
    suite: SuiteView,
    plan: Seq<TaskFile>,
    exp_dir: Seq<char>,
    job_nr: Seq<char>,
    user: Seq<char>,
)
    requires
        is_task_plan(plan, suite, exp_dir, job_nr),
    ensures
        job_file_arguments_spec(suite.meta, sims_count(suite.sims), user)["<TASKS>"@] == decimal(plan.len()),
{
    law_suite_number_task(suite);
    reveal_strlit("<TASKS>");
    reveal_strlit("<ACCOUNT>");
    assert("<TASKS>"@ != "<ACCOUNT>"@) by {
        assert("<TASKS>"@[1] != "<ACCOUNT>"@[1]);
    }
}

proof fn lemma_sim_refs(si: nat, ps: Seq<ParamView>, base: Seq<char>)
    ensures
        sim_refs(si, ps).len() == params_paths(ps, base).len(),
        forall|g: int|
            0 <= g < sim_refs(si, ps).len() ==> {
                &&& (#[trigger] sim_refs(si, ps)[g]).0 == si
                &&& sim_refs(si, ps)[g].1 < ps.len()
                &&& param_paths(ps[sim_refs(si, ps)[g].1 as int], base).contains(params_paths(ps, base)[g])
            },
    decreases ps.len(),
{
    if ps.len() > 0 {
        let q = ps.drop_last();
        let last = ps.last();
        lemma_sim_refs(si, q, base);
        let a = sim_refs(si, q);
        let b = param_refs(si, (ps.len() - 1) as nat, last.runs.len());
        let pa = params_paths(q, base);
        let pb = param_paths(last, base);
        assert(sim_refs(si, ps) == a + b);
        assert(params_paths(ps, base) == pa + pb);
        assert forall|g: int| 0 <= g < sim_refs(si, ps).len() implies {
            &&& (#[trigger] sim_refs(si, ps)[g]).0 == si
            &&& sim_refs(si, ps)[g].1 < ps.len()
            &&& param_paths(ps[sim_refs(si, ps)[g].1 as int], base).contains(params_paths(ps, base)[g])
        } by {
            if g < a.len() {
                assert(sim_refs(si, ps)[g] == a[g]);
                assert(params_paths(ps, base)[g] == pa[g]);
                assert(ps[a[g].1 as int] == q[a[g].1 as int]);
            } else {
                let h = g - a.len();
                assert(sim_refs(si, ps)[g] == b[h]);
                assert(params_paths(ps, base)[g] == pb[h]);
                assert(pb[h] == pb[h]);
            }
        }
    }
}

proof fn lemma_suite_refs(sims: Seq<SimView>, dst: Seq<char>)
    ensures
        suite_refs(sims).len() == sims_paths(sims, dst).len(),
        forall|g: int|
            0 <= g < suite_refs(sims).len() ==> {
                &&& (#[trigger] suite_refs(sims)[g]).0 < sims.len()
                &&& suite_refs(sims)[g].1 < sims[suite_refs(sims)[g].0 as int].params.len()
                &&& param_paths(
                    sims[suite_refs(sims)[g].0 as int].params[suite_refs(sims)[g].1 as int],
                    sim_dir(dst, sims[suite_refs(sims)[g].0 as int]),
                ).contains(sims_paths(sims, dst)[g])
            },
    decreases sims.len(),
{
    if sims.len() > 0 {
        let q = sims.drop_last();
        let last = sims.last();
        let si = (sims.len() - 1) as nat;
        lemma_suite_refs(q, dst);
        lemma_sim_refs(si, last.params, sim_dir(dst, last));
        let a = suite_refs(q);
        let b = sim_refs(si, last.params);
        let pa = sims_paths(q, dst);
        let pb = sim_paths(last, dst);
        assert(suite_refs(sims) == a + b);
        assert(sims_paths(sims, dst) == pa + pb);
        assert forall|g: int| 0 <= g < suite_refs(sims).len() implies {
            &&& (#[trigger] suite_refs(sims)[g]).0 < sims.len()
            &&& suite_refs(sims)[g].1 < sims[suite_refs(sims)[g].0 as int].params.len()
            &&& param_paths(
                sims[suite_refs(sims)[g].0 as int].params[suite_refs(sims)[g].1 as int],
                sim_dir(dst, sims[suite_refs(sims)[g].0 as int]),
            ).contains(sims_paths(sims, dst)[g])
        } by {
            if g < a.len() {
                assert(suite_refs(sims)[g] == a[g]);
                assert(sims_paths(sims, dst)[g] == pa[g]);
                assert(sims[a[g].0 as int] == q[a[g].0 as int]);
            } else {
                let h = g - a.len();
                assert(suite_refs(sims)[g] == b[h]);
                assert(sims_paths(sims, dst)[g] == pb[h]);
                assert(sims[si as int] == last);
            }
        }
    }
}

/// Each task of a submission runs the benchmark that its run directory belongs to: in a
/// task plan whose scripts are filled as `create_job_files` fills them, the script of task
/// `g` is the template filled with the arguments of one benchmark of the suite, and the
/// run directory of task `g` is one of the run directories of that very benchmark.
pub proof fn law_task_runs_its_benchmark(
    suite: BenchmarkSuite,
    plan: Seq<TaskFile>,
    exp_dir: Seq<char>,
    job_nr: Seq<char>,
    template: Seq<char>,
)
    requires
        is_task_plan(plan, suite@, exp_dir, job_nr),
        plan_fills(plan, suite, template),
    ensures
        forall|g: int|
            0 <= g < plan.len() ==> {
                let sp = suite.simulator_parameters@[(#[trigger] plan[g]).sim as int];
                let bp = sp.benchmark_parameters@[plan[g].param as int];
                &&& plan[g].content@ == fill(template, bp.arguments.pairs())
                &&& param_paths(bp@, sim_dir(suite@.dst, sp@)).contains(plan[g].run_dir@)
            },
{
    let s = suite@;
    lemma_suite_refs(s.sims, s.dst);
    assert forall|g: int| 0 <= g < plan.len() implies {
        let sp = suite.simulator_parameters@[(#[trigger] plan[g]).sim as int];
        let bp = sp.benchmark_parameters@[plan[g].param as int];
        &&& plan[g].content@ == fill(template, bp.arguments.pairs())
        &&& param_paths(bp@, sim_dir(suite@.dst, sp@)).contains(plan[g].run_dir@)
    } by {
        let i = plan[g].sim as int;
        let j = plan[g].param as int;
        assert(suite_refs(s.sims)[g] == (i as nat, j as nat));
        let sp = suite.simulator_parameters@[i];
        assert(s.sims[i] == sp@);
        assert(sp@.params[j] == sp.benchmark_parameters@[j]@);
    }
}

} // verus!
