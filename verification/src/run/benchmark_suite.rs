use vstd::prelude::*;

use crate::constants::SNIPER_ARGUMENT_FILE_NAME;
use crate::host_setup::{push_step, step_views, SetupStep, StepView};
use crate::paths::{join, path_join};
use crate::run::benchmark_parameter::{param_dir, ParamView};
use crate::run::benchmark_run::run_dir;
use crate::run::db::RunStatuses;
use crate::run::simulator_parameter::{
    filter_sim, params_count, sim_dir, sim_paths, SimView, SimulatorParameter,
};
use crate::run::status::JobStatus;
use crate::strmap::StrMap;

verus! {

/// A benchmark suite as the data model sees it.
pub struct SuiteView {
    pub suite: Seq<char>,
    pub meta: Map<Seq<char>, Seq<char>>,
    pub sims: Seq<SimView>,
    pub dst: Seq<char>,
}

/// The run directories of the configurations `sims` under `dst`, configuration after
/// configuration.
pub open spec fn sims_paths(sims: Seq<SimView>, dst: Seq<char>) -> Seq<Seq<char>>
    decreases sims.len(),
{
    if sims.len() == 0 {
        Seq::empty()
    } else {
        sims_paths(sims.drop_last(), dst) + sim_paths(sims.last(), dst)
    }
}

/// The run directories of suite `s`.
pub open spec fn suite_paths(s: SuiteView) -> Seq<Seq<char>> {
    sims_paths(s.sims, s.dst)
}

/// The number of runs of the configurations `sims`.
pub open spec fn sims_count(sims: Seq<SimView>) -> nat
    decreases sims.len(),
{
    if sims.len() == 0 {
        0
    } else {
        sims_count(sims.drop_last()) + params_count(sims.last().params)
    }
}

/// The configurations `sims` (under `dst`) with only their kept runs, without those left
/// with no benchmark.
pub open spec fn kept_sims(
    sims: Seq<SimView>,
    dst: Seq<char>,
    db: RunStatuses,
    statuses: Seq<JobStatus>,
    include_none: bool,
) -> Seq<SimView>
    decreases sims.len(),
{
    if sims.len() == 0 {
        Seq::empty()
    } else {
        let rest = kept_sims(sims.drop_last(), dst, db, statuses, include_none);
        let q = filter_sim(sims.last(), dst, db, statuses, include_none);
        if q.params.len() > 0 {
            rest.push(q)
        } else {
            rest
        }
    }
}

/// Suite `s` with only its kept runs.
pub open spec fn filter_suite(
    s: SuiteView,
    db: RunStatuses,
    statuses: Seq<JobStatus>,
    include_none: bool,
) -> SuiteView {
    SuiteView { sims: kept_sims(s.sims, s.dst, db, statuses, include_none), ..s }
}

pub proof fn lemma_sims_count_prefix(sims: Seq<SimView>, i: int)
    requires
        0 <= i <= sims.len(),
    ensures
        sims_count(sims.take(i)) <= sims_count(sims),
    decreases sims.len() - i,
{
    if i < sims.len() {
        lemma_sims_count_prefix(sims, i + 1);
        assert(sims.take(i + 1).drop_last() == sims.take(i));
    } else {
        assert(sims.take(i) == sims);
    }
}

/// The directories of the runs `runs` under `pdir`, each created if missing, failures
/// ignored.
pub open spec fn runs_setup(pdir: Seq<char>, runs: Seq<usize>) -> Seq<StepView> {
    runs.map_values(|r: usize| StepView::TryCreateDir(run_dir(pdir, r)))
}

/// Preparing benchmark `p` under `sdir`: its directory, then those of its runs.
pub open spec fn param_setup(p: ParamView, sdir: Seq<char>) -> Seq<StepView> {
    seq![StepView::CreateDir(param_dir(sdir, p))] + runs_setup(param_dir(sdir, p), p.runs)
}

/// Preparing the benchmarks `ps` under `sdir`, in order.
pub open spec fn params_setup(ps: Seq<ParamView>, sdir: Seq<char>) -> Seq<StepView>
    decreases ps.len(),
{
    if ps.len() == 0 {
        Seq::empty()
    } else {
        params_setup(ps.drop_last(), sdir) + param_setup(ps.last(), sdir)
    }
}

/// The first steps for configuration `i` (`sv`) under `dst`: its directory and its
/// argument file.
pub open spec fn sim_head(i: nat, sv: SimView, dst: Seq<char>) -> Seq<StepView> {
    seq![
        StepView::CreateDir(sim_dir(dst, sv)),
        StepView::WriteArguments(path_join(sim_dir(dst, sv), SNIPER_ARGUMENT_FILE_NAME@), i),
    ]
}

/// Preparing configurations `sims` under `dst`, in order, each numbered by its index.
pub open spec fn sims_setup(sims: Seq<SimView>, dst: Seq<char>) -> Seq<StepView>
    decreases sims.len(),
{
    if sims.len() == 0 {
        Seq::empty()
    } else {
        let i = (sims.len() - 1) as nat;
        sims_setup(sims.drop_last(), dst) + sim_head(i, sims.last(), dst) + params_setup(
            sims.last().params,
            sim_dir(dst, sims.last()),
        )
    }
}

pub open spec fn sim_views(v: Seq<SimulatorParameter>) -> Seq<SimView> {
    v.map_values(|s: SimulatorParameter| s@)
}

/// A benchmark suite: one job on the cluster, with the template arguments of its job
/// file, its Sniper configurations and the local directory of its results.
#[derive(Debug)]
pub struct BenchmarkSuite {
    pub suite: String,
    pub meta_arguments: StrMap,
    pub simulator_parameters: Vec<SimulatorParameter>,
    pub host_dst_path: String,
}

impl View for BenchmarkSuite {
    type V = SuiteView;

    open spec fn view(&self) -> SuiteView {
        SuiteView {
            suite: self.suite@,
            meta: self.meta_arguments@,
            sims: sim_views(self.simulator_parameters@),
            dst: self.host_dst_path@,
        }
    }
}

impl BenchmarkSuite {
    /// The steps that prepare the local directories of the suite: for each configuration,
    /// its directory and its `args.json`, then for each benchmark its directory and the
    /// directories of its runs.
    pub fn prepare_host_directories(&self) -> (r: Vec<SetupStep>)
        ensures
            step_views(r@) == sims_setup(self@.sims, self@.dst),
    {
        let ghost ss = self@.sims;
        let ghost dst = self@.dst;
        let mut steps: Vec<SetupStep> = Vec::new();
        let mut i: usize = 0;
        assert(ss.take(0) =~= Seq::<SimView>::empty());
        assert(step_views(steps@) =~= Seq::<StepView>::empty());
        while i < self.simulator_parameters.len()
            invariant
                ss == self@.sims,
                dst == self@.dst,
                dst == self.host_dst_path@,
                i <= ss.len(),
                step_views(steps@) == sims_setup(ss.take(i as int), dst),
            decreases ss.len() - i,
        {
            let sim = &self.simulator_parameters[i];
            let ghost sv = sim@;
            assert(sv == ss[i as int]);
            let sdir = sim.get_dir(self.host_dst_path.as_str());
            let ghost before = step_views(steps@);
            push_step(&mut steps, SetupStep::CreateDir(sdir.clone()));
            let args = join(sdir.as_str(), SNIPER_ARGUMENT_FILE_NAME);
            push_step(&mut steps, SetupStep::WriteArguments(args, i));
            let ghost head = step_views(steps@);
            assert(head =~= before + sim_head(i as nat, sv, dst));
            let ghost ps = sv.params;
            let mut j: usize = 0;
            assert(ps.take(0) =~= Seq::<ParamView>::empty());
            assert(head + params_setup(ps.take(0), sdir@) =~= head);
            while j < sim.benchmark_parameters.len()
                invariant
                    sv == sim@,
                    ps == sv.params,
                    sdir@ == sim_dir(dst, sv),
                    j <= ps.len(),
                    step_views(steps@) == head + params_setup(ps.take(j as int), sdir@),
                decreases ps.len() - j,
            {
                let bp = &sim.benchmark_parameters[j];
                let ghost pv = bp@;
                assert(pv == ps[j as int]);
                let pdir = bp.get_dir(sdir.as_str());
                let ghost mid = step_views(steps@);
                push_step(&mut steps, SetupStep::CreateDir(pdir.clone()));
                let ghost pre = step_views(steps@);
                let mut r: usize = 0;
                assert(pv.runs.take(0) =~= Seq::<usize>::empty());
                assert(pre + runs_setup(pdir@, pv.runs.take(0)) =~= pre);
                while r < bp.benchmark_runs.len()
                    invariant
                        pv == bp@,
                        pdir@ == param_dir(sdir@, pv),
                        r <= pv.runs.len(),
                        step_views(steps@) == pre + runs_setup(pdir@, pv.runs.take(r as int)),
                    decreases pv.runs.len() - r,
                {
                    let rd = bp.benchmark_runs[r].get_dir(pdir.as_str());
                    let ghost s0 = step_views(steps@);
                    push_step(&mut steps, SetupStep::TryCreateDir(rd));
                    assert(pv.runs.take(r + 1) =~= pv.runs.take(r as int).push(pv.runs[r as int]));
                    assert(runs_setup(pdir@, pv.runs.take(r + 1)) =~= runs_setup(pdir@, pv.runs.take(r as int)).push(
                        StepView::TryCreateDir(run_dir(pdir@, pv.runs[r as int])),
                    ));
                    r += 1;
                }
                assert(pv.runs.take(r as int) =~= pv.runs);
                assert(ps.take(j + 1).drop_last() =~= ps.take(j as int));
                assert(ps.take(j + 1).last() == pv);
                assert(step_views(steps@) =~= head + params_setup(ps.take(j + 1), sdir@));
                j += 1;
            }
            assert(ps.take(j as int) =~= ps);
            assert(ss.take(i + 1).drop_last() =~= ss.take(i as int));
            assert(ss.take(i + 1).last() == sv);
            assert(step_views(steps@) =~= sims_setup(ss.take(i + 1), dst));
            i += 1;
        }
        assert(ss.take(i as int) =~= ss);
        steps
    }

    /// The number of runs over all configurations.
    pub fn get_number_task(&self) -> (r: usize)
        requires
            sims_count(self@.sims) <= usize::MAX,
        ensures
            r == sims_count(self@.sims),
    {
        let ghost ss = self@.sims;
        let mut tasks: usize = 0;
        let mut i: usize = 0;
        assert(ss.take(0) =~= Seq::<SimView>::empty());
        while i < self.simulator_parameters.len()
            invariant
                ss == self@.sims,
                sims_count(ss) <= usize::MAX,
                i <= self.simulator_parameters.len(),
                tasks == sims_count(ss.take(i as int)),
            decreases self.simulator_parameters.len() - i,
        {
            proof {
                assert(ss.take(i + 1).drop_last() == ss.take(i as int));
                assert(ss.take(i + 1).last() == self.simulator_parameters@[i as int]@);
                lemma_sims_count_prefix(ss, i + 1);
            }
            tasks = tasks + self.simulator_parameters[i].get_number_task();
            i += 1;
        }
        assert(ss.take(i as int) == ss);
        tasks
    }

    /// Keeps only the runs that have one of `statuses` (or no status, when `include_none`
    /// holds), drops what is left empty, and tells whether anything is left.
    pub fn keep_state(&mut self, db: &RunStatuses, statuses: &[JobStatus], include_none: &bool) -> (r:
        bool)
        ensures
            final(self)@ == filter_suite(old(self)@, *db, statuses@, *include_none),
            r == (final(self)@.sims.len() > 0),
    {
        let ghost old_view = self@;
        let mut old_sims: Vec<SimulatorParameter> = Vec::new();
        std::mem::swap(&mut old_sims, &mut self.simulator_parameters);
        let ghost olds = sim_views(old_sims@);
        let mut kept: Vec<SimulatorParameter> = Vec::new();
        proof {
            assert(olds.take(0) =~= Seq::<SimView>::empty());
            assert(sim_views(kept@) =~= Seq::<SimView>::empty());
        }
        let n = old_sims.len();
        let mut rest = old_sims;
        let mut taken: Vec<SimulatorParameter> = Vec::new();
        while rest.len() > 0
            invariant
                rest.len() + taken.len() == n,
                n == olds.len(),
                forall|j: int| 0 <= j < taken.len() ==> (#[trigger] taken@[j])@ == olds[n - 1 - j],
                forall|j: int| 0 <= j < rest.len() ==> (#[trigger] rest@[j])@ == olds[j],
            decreases rest.len(),
        {
            let p = rest.pop().unwrap();
            taken.push(p);
        }
        let mut i: usize = 0;
        while taken.len() > 0
            invariant
                i + taken.len() == n,
                n == olds.len(),
                forall|j: int| 0 <= j < taken.len() ==> (#[trigger] taken@[j])@ == olds[n - 1 - j],
                self.host_dst_path@ == old_view.dst,
                olds == old_view.sims,
                sim_views(kept@) == kept_sims(
                    olds.take(i as int),
                    old_view.dst,
                    *db,
                    statuses@,
                    *include_none,
                ),
            decreases taken.len(),
        {
            let mut s = taken.pop().unwrap();
            assert(s@ == olds[i as int]);
            let keep = s.keep_state(db, self.host_dst_path.as_str(), statuses, include_none);
            proof {
                assert(olds.take(i + 1).drop_last() == olds.take(i as int));
                assert(olds.take(i + 1).last() == olds[i as int]);
            }
            if keep {
                let ghost k0 = kept@;
                kept.push(s);
                assert(sim_views(kept@) =~= sim_views(k0).push(s@));
            }
            i += 1;
        }
        assert(olds.take(i as int) == olds);
        self.simulator_parameters = kept;
        self.simulator_parameters.len() > 0
    }

    /// The run directories of the suite, configuration after configuration.
    pub fn for_each_run_path(&self) -> (r: Vec<String>)
        ensures
            r@.map_values(|s: String| s@) == suite_paths(self@),
    {
        let ghost ss = self@.sims;
        let mut r: Vec<String> = Vec::new();
        let mut i: usize = 0;
        assert(ss.take(0) =~= Seq::<SimView>::empty());
        assert(r@.map_values(|s: String| s@) =~= Seq::<Seq<char>>::empty());
        while i < self.simulator_parameters.len()
            invariant
                ss == self@.sims,
                i <= self.simulator_parameters.len(),
                r@.map_values(|s: String| s@) == sims_paths(ss.take(i as int), self@.dst),
            decreases self.simulator_parameters.len() - i,
        {
            let mut more = self.simulator_parameters[i].for_each_run_path(
                self.host_dst_path.as_str(),
            );
            let ghost r0 = r@;
            let ghost m0 = more@;
            r.append(&mut more);
            proof {
                assert(ss.take(i + 1).drop_last() == ss.take(i as int));
                assert(ss.take(i + 1).last() == self.simulator_parameters@[i as int]@);
                assert(r@ == r0 + m0);
                assert(r@.map_values(|s: String| s@) =~= r0.map_values(|s: String| s@)
                    + m0.map_values(|s: String| s@));
            }
            i += 1;
        }
        assert(ss.take(i as int) == ss);
        r
    }
}

} // verus!
