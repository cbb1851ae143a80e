use vstd::prelude::*;

use crate::paths::{join, path_join};
use crate::run::benchmark_run::{run_dir, run_kept, BenchmarkRun};
use crate::run::db::RunStatuses;
use crate::run::status::JobStatus;
use crate::seqs::lemma_filter_push;
use crate::strmap::StrMap;

verus! {

/// A benchmark as the data model sees it: its template arguments, its name and the
/// indices of its runs.
pub struct ParamView {
    pub arguments: Map<Seq<char>, Seq<char>>,
    pub name: Seq<char>,
    pub runs: Seq<usize>,
}

/// The directory of benchmark `p` under `dst`: `dst/<name>`.
pub open spec fn param_dir(dst: Seq<char>, p: ParamView) -> Seq<char> {
    path_join(dst, p.name)
}

/// The run directories of `p` under `base`, in order.
pub open spec fn param_paths(p: ParamView, base: Seq<char>) -> Seq<Seq<char>> {
    p.runs.map_values(|i: usize| run_dir(param_dir(base, p), i))
}

/// `p` with only the runs that `run_kept` keeps.
pub open spec fn filter_param(
    p: ParamView,
    dst: Seq<char>,
    db: RunStatuses,
    statuses: Seq<JobStatus>,
    include_none: bool,
) -> ParamView {
    ParamView {
        runs: p.runs.filter(|i: usize| run_kept(db, param_dir(dst, p), i, statuses, include_none)),
        ..p
    }
}

/// A benchmark with all the inputs it needs to run, and its runs.
#[derive(Debug)]
pub struct BenchmarkParameter {
    pub arguments: StrMap,
    pub benchmark_name: String,
    pub benchmark_runs: Vec<BenchmarkRun>,
}

impl View for BenchmarkParameter {
    type V = ParamView;

    open spec fn view(&self) -> ParamView {
        ParamView {
            arguments: self.arguments@,
            name: self.benchmark_name@,
            runs: self.benchmark_runs@.map_values(|r: BenchmarkRun| r.run_idx),
        }
    }
}

impl BenchmarkParameter {
    /// `dst_path/<benchmark_name>`.
    pub fn get_dir(&self, dst_path: &str) -> (r: String)
        ensures
            r@ == param_dir(dst_path@, self@),
    {
        join(dst_path, self.benchmark_name.as_str())
    }

    /// The number of runs.
    pub fn get_number_task(&self) -> (r: usize)
        ensures
            r == self@.runs.len(),
    {
        self.benchmark_runs.len()
    }

    /// Keeps only the runs (under `dst_path/<benchmark_name>`) whose status is one of
    /// `statuses`, or that have no status while `include_none` holds; tells whether any run
    /// is left.
    pub fn keep_state(
        &mut self,
        db: &RunStatuses,
        dst_path: &str,
        statuses: &[JobStatus],
        include_none: &bool,
    ) -> (r: bool)
        ensures
            final(self)@ == filter_param(old(self)@, dst_path@, *db, statuses@, *include_none),
            r == (final(self)@.runs.len() > 0),
    {
        let bench_param_path = self.get_dir(dst_path);
        let ghost old_view = self@;
        let ghost pred = |i: usize|
            run_kept(*db, param_dir(dst_path@, old_view), i, statuses@, *include_none);
        let mut old_runs: Vec<BenchmarkRun> = Vec::new();
        std::mem::swap(&mut old_runs, &mut self.benchmark_runs);
        let ghost olds = old_runs@.map_values(|r: BenchmarkRun| r.run_idx);
        assert(olds == old_view.runs);
        let mut kept: Vec<BenchmarkRun> = Vec::new();
        let mut i: usize = 0;
        proof {
            assert(olds.take(0) =~= Seq::<usize>::empty());
            reveal(Seq::filter);
            assert(Seq::<usize>::empty().filter(pred) =~= Seq::<usize>::empty());
            assert(kept@.map_values(|r: BenchmarkRun| r.run_idx) =~= Seq::<usize>::empty());
        }
        while i < old_runs.len()
            invariant
                i <= old_runs.len(),
                olds == old_runs@.map_values(|r: BenchmarkRun| r.run_idx),
                bench_param_path@ == param_dir(dst_path@, old_view),
                pred == (|i: usize|
                    run_kept(*db, param_dir(dst_path@, old_view), i, statuses@, *include_none)),
                kept@.map_values(|r: BenchmarkRun| r.run_idx) == olds.take(i as int).filter(pred),
            decreases old_runs.len() - i,
        {
            let run = old_runs[i];
            let keep = run.keep_state(db, bench_param_path.as_str(), statuses, include_none);
            proof {
                assert(olds.take(i + 1) == olds.take(i as int).push(olds[i as int]));
                assert(olds[i as int] == run.run_idx);
                lemma_filter_push(olds.take(i as int), pred, run.run_idx);
            }
            if keep {
                let ghost k0 = kept@;
                kept.push(run);
                assert(kept@.map_values(|r: BenchmarkRun| r.run_idx) =~= k0.map_values(
                    |r: BenchmarkRun| r.run_idx,
                ).push(run.run_idx));
            }
            i += 1;
        }
        assert(olds.take(i as int) == olds);
        self.benchmark_runs = kept;
        self.benchmark_runs.len() > 0
    }

    /// The directories of the runs under `base_path/<benchmark_name>`, in order.
    pub fn for_each_run_path(&self, base_path: &str) -> (r: Vec<String>)
        ensures
            r@.map_values(|s: String| s@) == param_paths(self@, base_path@),
    {
        let bench_path = join(base_path, self.benchmark_name.as_str());
        let mut r: Vec<String> = Vec::new();
        let mut i: usize = 0;
        while i < self.benchmark_runs.len()
            invariant
                i <= self.benchmark_runs.len(),
                bench_path@ == param_dir(base_path@, self@),
                r@.map_values(|s: String| s@) == param_paths(self@, base_path@).take(i as int),
            decreases self.benchmark_runs.len() - i,
        {
            let p = self.benchmark_runs[i].get_dir(bench_path.as_str());
            let ghost r0 = r@;
            r.push(p);
            proof {
                assert(r@.map_values(|s: String| s@) =~= r0.map_values(|s: String| s@).push(p@));
                assert(param_paths(self@, base_path@).take(i + 1) =~= param_paths(
                    self@,
                    base_path@,
                ).take(i as int).push(p@));
            }
            i += 1;
        }
        assert(param_paths(self@, base_path@).take(i as int) =~= param_paths(self@, base_path@));
        r
    }
}

} // verus!
