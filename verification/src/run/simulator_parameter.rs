use vstd::prelude::*;

use crate::paths::{join, path_join};
use crate::run::benchmark_parameter::{filter_param, param_paths, BenchmarkParameter, ParamView};
use crate::run::db::RunStatuses;
use crate::run::status::JobStatus;
use crate::strmap::StrMap;

verus! {

/// A Sniper configuration as the data model sees it: its directory name, its variable
/// parameters and its benchmarks.
pub struct SimView {
    pub dir: Seq<char>,
    pub variables: Map<Seq<char>, Seq<char>>,
    pub params: Seq<ParamView>,
}

/// The directory of configuration `s` under `dst`: `dst/<dir>`.
pub open spec fn sim_dir(dst: Seq<char>, s: SimView) -> Seq<char> {
    path_join(dst, s.dir)
}

/// The run directories of the benchmarks `ps` under `base`, benchmark after benchmark.
pub open spec fn params_paths(ps: Seq<ParamView>, base: Seq<char>) -> Seq<Seq<char>>
    decreases ps.len(),
{
    if ps.len() == 0 {
        Seq::empty()
    } else {
        params_paths(ps.drop_last(), base) + param_paths(ps.last(), base)
    }
}

/// The run directories of configuration `s` under `base`.
pub open spec fn sim_paths(s: SimView, base: Seq<char>) -> Seq<Seq<char>> {
    params_paths(s.params, sim_dir(base, s))
}

/// The number of runs of the benchmarks `ps`.
pub open spec fn params_count(ps: Seq<ParamView>) -> nat
    decreases ps.len(),
{
    if ps.len() == 0 {
        0
    } else {
        params_count(ps.drop_last()) + ps.last().runs.len()
    }
}

/// The benchmarks `ps` (under `d`) with only their kept runs, and without those that keep
/// none.
pub open spec fn kept_params(
    ps: Seq<ParamView>,
    d: Seq<char>,
    db: RunStatuses,
    statuses: Seq<JobStatus>,
    include_none: bool,
) -> Seq<ParamView>
    decreases ps.len(),
{
    if ps.len() == 0 {
        Seq::empty()
    } else {
        let rest = kept_params(ps.drop_last(), d, db, statuses, include_none);
        let q = filter_param(ps.last(), d, db, statuses, include_none);
        if q.runs.len() > 0 {
            rest.push(q)
        } else {
            rest
        }
    }
}

/// `s` (under `dst`) with only its kept runs.
pub open spec fn filter_sim(
    s: SimView,
    dst: Seq<char>,
    db: RunStatuses,
    statuses: Seq<JobStatus>,
    include_none: bool,
) -> SimView {
    SimView { params: kept_params(s.params, sim_dir(dst, s), db, statuses, include_none), ..s }
}

pub proof fn lemma_params_count_prefix(ps: Seq<ParamView>, i: int)
    requires
        0 <= i <= ps.len(),
    ensures
        params_count(ps.take(i)) <= params_count(ps),
    decreases ps.len() - i,
{
    if i < ps.len() {
        lemma_params_count_prefix(ps, i + 1);
        assert(ps.take(i + 1).drop_last() == ps.take(i));
    } else {
        assert(ps.take(i) == ps);
    }
}

pub open spec fn param_views(v: Seq<BenchmarkParameter>) -> Seq<ParamView> {
    v.map_values(|p: BenchmarkParameter| p@)
}

/// A Sniper configuration (given parameter values) and the benchmarks run with it.
#[derive(Debug)]
pub struct SimulatorParameter {
    pub simulator_dir_name: String,
    pub variable_sniper_parameters: StrMap,
    pub benchmark_parameters: Vec<BenchmarkParameter>,
}

impl View for SimulatorParameter {
    type V = SimView;

    open spec fn view(&self) -> SimView {
        SimView {
            dir: self.simulator_dir_name@,
            variables: self.variable_sniper_parameters@,
            params: param_views(self.benchmark_parameters@),
        }
    }
}

impl SimulatorParameter {
    /// `dst_path/<simulator_dir_name>`.
    pub fn get_dir(&self, dst_path: &str) -> (r: String)
        ensures
            r@ == sim_dir(dst_path@, self@),
    {
        join(dst_path, self.simulator_dir_name.as_str())
    }

    /// The number of runs over all benchmarks.
    pub fn get_number_task(&self) -> (r: usize)
        requires
            params_count(self@.params) <= usize::MAX,
        ensures
            r == params_count(self@.params),
    {
        let ghost ps = self@.params;
        let mut tasks: usize = 0;
        let mut i: usize = 0;
        assert(ps.take(0) =~= Seq::<ParamView>::empty());
        while i < self.benchmark_parameters.len()
            invariant
                ps == self@.params,
                params_count(ps) <= usize::MAX,
                i <= self.benchmark_parameters.len(),
                tasks == params_count(ps.take(i as int)),
            decreases self.benchmark_parameters.len() - i,
        {
            proof {
                assert(ps.take(i + 1).drop_last() == ps.take(i as int));
                assert(ps.take(i + 1).last() == self.benchmark_parameters@[i as int]@);
                lemma_params_count_prefix(ps, i + 1);
            }
            tasks = tasks + self.benchmark_parameters[i].get_number_task();
            i += 1;
        }
        assert(ps.take(i as int) == ps);
        tasks
    }

    /// Keeps, under `dst_path/<simulator_dir_name>`, only the runs that have one of
    /// `statuses` (or no status, when `include_none` holds), drops the benchmarks left
    /// without runs, and tells whether any benchmark is left.
    pub fn keep_state(
        &mut self,
        db: &RunStatuses,
        dst_path: &str,
        statuses: &[JobStatus],
        include_none: &bool,
    ) -> (r: bool)
        ensures
            final(self)@ == filter_sim(old(self)@, dst_path@, *db, statuses@, *include_none),
            r == (final(self)@.params.len() > 0),
    {
        let sim_path = self.get_dir(dst_path);
        let ghost old_view = self@;
        let mut old_params: Vec<BenchmarkParameter> = Vec::new();
        std::mem::swap(&mut old_params, &mut self.benchmark_parameters);
        let ghost olds = param_views(old_params@);
        let mut kept: Vec<BenchmarkParameter> = Vec::new();
        proof {
            assert(olds.take(0) =~= Seq::<ParamView>::empty());
            assert(param_views(kept@) =~= Seq::<ParamView>::empty());
        }
        let n = old_params.len();
        let mut rest = old_params;
        let mut taken: Vec<BenchmarkParameter> = Vec::new();
        // move the benchmarks out back to front, then handle them front to back
        while rest.len() > 0
            invariant
                rest.len() + taken.len() == n,
                n == olds.len(),
                forall|j: int| 0 <= j < taken.len() ==> (#[trigger] taken@[j])@ == olds[n - 1 - j],
                forall|j: int| 0 <= j < rest.len() ==> (#[trigger] rest@[j])@ == olds[j],
            decreases rest.len(),
        {
            let p = rest.pop().unwrap();
            taken.push(p);
        }
        let mut i: usize = 0;
        while taken.len() > 0
            invariant
                i + taken.len() == n,
                n == olds.len(),
                forall|j: int| 0 <= j < taken.len() ==> (#[trigger] taken@[j])@ == olds[n - 1 - j],
                sim_path@ == sim_dir(dst_path@, old_view),
                olds == old_view.params,
                param_views(kept@) == kept_params(
                    olds.take(i as int),
                    sim_dir(dst_path@, old_view),
                    *db,
                    statuses@,
                    *include_none,
                ),
            decreases taken.len(),
        {
            let mut p = taken.pop().unwrap();
            assert(p@ == olds[i as int]);
            let keep = p.keep_state(db, sim_path.as_str(), statuses, include_none);
            proof {
                assert(olds.take(i + 1).drop_last() == olds.take(i as int));
                assert(olds.take(i + 1).last() == olds[i as int]);
            }
            if keep {
                let ghost k0 = kept@;
                kept.push(p);
                assert(param_views(kept@) =~= param_views(k0).push(p@));
            }
            i += 1;
        }
        assert(olds.take(i as int) == olds);
        self.benchmark_parameters = kept;
        self.benchmark_parameters.len() > 0
    }

    /// The run directories under `base_path/<simulator_dir_name>`, benchmark after
    /// benchmark.
    pub fn for_each_run_path(&self, base_path: &str) -> (r: Vec<String>)
        ensures
            r@.map_values(|s: String| s@) == sim_paths(self@, base_path@),
    {
        let sim_path = join(base_path, self.simulator_dir_name.as_str());
        let ghost ps = self@.params;
        let mut r: Vec<String> = Vec::new();
        let mut i: usize = 0;
        assert(ps.take(0) =~= Seq::<ParamView>::empty());
        assert(r@.map_values(|s: String| s@) =~= Seq::<Seq<char>>::empty());
        while i < self.benchmark_parameters.len()
            invariant
                ps == self@.params,
                i <= self.benchmark_parameters.len(),
                sim_path@ == sim_dir(base_path@, self@),
                r@.map_values(|s: String| s@) == params_paths(ps.take(i as int), sim_path@),
            decreases self.benchmark_parameters.len() - i,
        {
            let mut more = self.benchmark_parameters[i].for_each_run_path(sim_path.as_str());
            let ghost r0 = r@;
            let ghost m0 = more@;
            r.append(&mut more);
            proof {
                assert(ps.take(i + 1).drop_last() == ps.take(i as int));
                assert(ps.take(i + 1).last() == self.benchmark_parameters@[i as int]@);
                assert(r@ == r0 + m0);
                assert(r@.map_values(|s: String| s@) =~= r0.map_values(|s: String| s@)
                    + m0.map_values(|s: String| s@));
            }
            i += 1;
        }
        assert(ps.take(i as int) == ps);
        r
    }
}

} // verus!
