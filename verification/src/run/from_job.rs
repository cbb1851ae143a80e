use vstd::prelude::*;

use crate::job_data::{bench_views, exp_views, BenchView, BenchmarkArgument, ExpArgView, ExperimentArgument, JobArgView, JobArgument};
use crate::run::benchmark_parameter::{BenchmarkParameter, ParamView};
use crate::run::benchmark_run::BenchmarkRun;
use crate::run::benchmark_suite::{sim_views, BenchmarkSuite, SuiteView};
use crate::run::config_parse::string_views;
use crate::run::simulator_parameter::{param_views, SimView, SimulatorParameter};
use crate::text::{chars_of, same_chars};

verus! {

/// The benchmarks of the runs `bs`, in order: consecutive runs of one benchmark form one
/// benchmark (with the template arguments of its first run) whose runs are theirs.
pub open spec fn group_runs(bs: Seq<BenchView>) -> Seq<ParamView>
    decreases bs.len(),
{
    if bs.len() == 0 {
        Seq::empty()
    } else {
        let p = group_runs(bs.drop_last());
        let b = bs.last();
        if p.len() > 0 && p.last().name == b.name {
            p.update(p.len() - 1, ParamView { runs: p.last().runs.push(b.run_idx), ..p.last() })
        } else {
            p.push(ParamView { arguments: b.arguments, name: b.name, runs: seq![b.run_idx] })
        }
    }
}

/// Configuration `i` of job `j`, in directory `dirs[i]`, with its runs grouped by benchmark.
pub open spec fn sim_of_job(j: JobArgView, dirs: Seq<Seq<char>>, i: int) -> SimView {
    SimView { dir: dirs[i], variables: j.exps[i].variables, params: group_runs(j.exps[i].benches) }
}

/// The suite of job `j` of the job map: its configurations keep their parameters and take
/// the directory names `dirs`, their runs are grouped by benchmark, and its results go
/// under `dst`.
pub open spec fn suite_of_job(j: JobArgView, dirs: Seq<Seq<char>>, dst: Seq<char>) -> SuiteView {
    SuiteView {
        suite: j.suite,
        meta: j.meta,
        sims: Seq::new(j.exps.len(), |i: int| sim_of_job(j, dirs, i)),
        dst,
    }
}

/// The benchmarks of the runs `runs`, grouped as `group_runs` says.
pub fn benchmark_parameters(runs: &Vec<BenchmarkArgument>) -> (r: Vec<BenchmarkParameter>)
    ensures
        param_views(r@) == group_runs(bench_views(runs@)),
{
    let mut params: Vec<BenchmarkParameter> = Vec::new();
    let mut i: usize = 0;
    assert(bench_views(runs@).take(0) =~= Seq::<BenchView>::empty());
    assert(param_views(params@) =~= Seq::<ParamView>::empty());
    while i < runs.len()
        invariant
            i <= runs.len(),
            param_views(params@) == group_runs(bench_views(runs@).take(i as int)),
        decreases runs.len() - i,
    {
        let r = &runs[i];
        let ghost bs = bench_views(runs@).take(i + 1);
        assert(bs.drop_last() =~= bench_views(runs@).take(i as int));
        assert(bs.last() == r@);
        let n = params.len();
        let same = n > 0 && same_chars(&chars_of(params[n - 1].benchmark_name.as_str()), &chars_of(r.benchmark_name.as_str()));
        let ghost before = param_views(params@);
        if same {
            let mut last = params.pop().unwrap();
            assert(last@ == before.last());
            let ghost lruns = last.benchmark_runs@;
            last.benchmark_runs.push(BenchmarkRun { run_idx: r.run_idx });
            assert(last.benchmark_runs@ == lruns.push(BenchmarkRun { run_idx: r.run_idx }));
            assert(last@.runs =~= before.last().runs.push(r.run_idx));
            let ghost mid = params@;
            params.push(last);
            assert(params@ == mid.push(last));
            assert(param_views(params@) =~= before.update(before.len() - 1, ParamView {
                runs: before.last().runs.push(r.run_idx),
                ..before.last()
            }));
        } else {
            let p = BenchmarkParameter {
                arguments: r.arguments.copy(),
                benchmark_name: r.benchmark_name.clone(),
                benchmark_runs: vec![BenchmarkRun { run_idx: r.run_idx }],
            };
            assert(p@.runs =~= seq![r.run_idx]);
            params.push(p);
            assert(param_views(params@) =~= before.push(ParamView {
                arguments: r@.arguments,
                name: r@.name,
                runs: seq![r.run_idx],
            }));
        }
        i += 1;
    }
    assert(bench_views(runs@).take(runs.len() as int) =~= bench_views(runs@));
    params
}

impl BenchmarkSuite {
    /// The suite that job `job` of the job map describes, its configurations in
    /// the directories `sim_dirs` (one for each) and its results under `dst`.
    pub fn from_job(job: &JobArgument, sim_dirs: &Vec<String>, dst: &str) -> (r: Self)
        requires
            sim_dirs.len() == job.experiment_arguments.len(),
        ensures
            r@ == suite_of_job(job@, string_views(sim_dirs@), dst@),
    {
        let mut sims: Vec<SimulatorParameter> = Vec::new();
        let mut i: usize = 0;
        while i < job.experiment_arguments.len()
            invariant
                i <= job.experiment_arguments.len(),
                sim_dirs.len() == job.experiment_arguments.len(),
                sims.len() == i,
                forall|k: int| 0 <= k < i ==> #[trigger] sim_views(sims@)[k] == sim_of_job(job@, string_views(sim_dirs@), k),
            decreases job.experiment_arguments.len() - i,
        {
            let e = &job.experiment_arguments[i];
            assert(job@.exps[i as int] == e@);
            let s = SimulatorParameter {
                simulator_dir_name: sim_dirs[i].clone(),
                variable_sniper_parameters: e.variable_sniper_parameters.copy(),
                benchmark_parameters: benchmark_parameters(&e.benchmarks),
            };
            assert(s@.dir == string_views(sim_dirs@)[i as int]);
            assert(s@.params == group_runs(job@.exps[i as int].benches));
            assert(s@ == sim_of_job(job@, string_views(sim_dirs@), i as int));
            let ghost before = sims@;
            sims.push(s);
            assert forall|k: int| 0 <= k < i + 1 implies #[trigger] sim_views(sims@)[k] == sim_of_job(
                job@,
                string_views(sim_dirs@),
                k,
            ) by {
                if k < i {
                    assert(sims@[k] == before[k]);
                    assert(sim_views(before)[k] == sim_of_job(job@, string_views(sim_dirs@), k));
                } else {
                    assert(sims@[k] == s);
                }
            }
            i += 1;
        }
        let r = BenchmarkSuite {
            suite: job.suite.clone(),
            meta_arguments: job.meta_arguments.copy(),
            simulator_parameters: sims,
            host_dst_path: dst.to_owned(),
        };
        assert(r@.sims =~= suite_of_job(job@, string_views(sim_dirs@), dst@).sims);
        r
    }
}

} // verus!
