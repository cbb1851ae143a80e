use vstd::prelude::*;

pub use crate::run::status::JobStatus;
use crate::constants::SNIPER_ARGUMENT_FILE_NAME;
use crate::host_setup::{push_step, step_views, SetupStep, StepView};
use crate::paths::{join, path_join};
use crate::seqs::lemma_filter_push;
use crate::strmap::StrMap;
use crate::text::{decimal, decimal_chars, string_of};

verus! {

/// A benchmark run as the job map sees it.
pub struct BenchView {
    pub arguments: Map<Seq<char>, Seq<char>>,
    pub name: Seq<char>,
    pub run_idx: usize,
    pub task_idx: Option<usize>,
    pub status: JobStatus,
}

/// A Sniper configuration of the job map.
pub struct ExpArgView {
    pub dir: Seq<char>,
    pub variables: Map<Seq<char>, Seq<char>>,
    pub benches: Seq<BenchView>,
}

/// A job of the job map.
pub struct JobArgView {
    pub suite: Seq<char>,
    pub meta: Map<Seq<char>, Seq<char>>,
    pub exps: Seq<ExpArgView>,
    pub dst: Seq<char>,
    pub job_nr: Option<Seq<char>>,
}

/// One run of a benchmark, with its template arguments and where it stands.
#[derive(Debug)]
pub struct BenchmarkArgument {
    pub arguments: StrMap,
    pub benchmark_name: String,
    pub run_idx: usize,
    pub task_idx: Option<usize>,
    pub status: JobStatus,
}

impl View for BenchmarkArgument {
    type V = BenchView;

    open spec fn view(&self) -> BenchView {
        BenchView {
            arguments: self.arguments@,
            name: self.benchmark_name@,
            run_idx: self.run_idx,
            task_idx: self.task_idx,
            status: self.status,
        }
    }
}

pub open spec fn bench_views(v: Seq<BenchmarkArgument>) -> Seq<BenchView> {
    v.map_values(|b: BenchmarkArgument| b@)
}

/// A Sniper configuration and its benchmark runs.
#[derive(Debug)]
pub struct ExperimentArgument {
    pub sniper_dir_name: String,
    pub variable_sniper_parameters: StrMap,
    pub benchmarks: Vec<BenchmarkArgument>,
}

impl View for ExperimentArgument {
    type V = ExpArgView;

    open spec fn view(&self) -> ExpArgView {
        ExpArgView {
            dir: self.sniper_dir_name@,
            variables: self.variable_sniper_parameters@,
            benches: bench_views(self.benchmarks@),
        }
    }
}

pub open spec fn exp_views(v: Seq<ExperimentArgument>) -> Seq<ExpArgView> {
    v.map_values(|e: ExperimentArgument| e@)
}

/// A job: one benchmark suite, with the template arguments of its job file.
#[derive(Debug)]
pub struct JobArgument {
    pub suite: String,
    pub meta_arguments: StrMap,
    pub experiment_arguments: Vec<ExperimentArgument>,
    pub host_dst_path: String,
    pub job_nr: Option<String>,
}

impl View for JobArgument {
    type V = JobArgView;

    open spec fn view(&self) -> JobArgView {
        JobArgView {
            suite: self.suite@,
            meta: self.meta_arguments@,
            exps: exp_views(self.experiment_arguments@),
            dst: self.host_dst_path@,
            job_nr: match self.job_nr {
                Some(s) => Some(s@),
                None => None,
            },
        }
    }
}

pub open spec fn job_views(v: Seq<JobArgument>) -> Seq<JobArgView> {
    v.map_values(|j: JobArgument| j@)
}

/// All jobs of a submission.
#[derive(Debug)]
pub struct Arguments {
    pub job_arguments: Vec<JobArgument>,
}

impl View for Arguments {
    type V = Seq<JobArgView>;

    open spec fn view(&self) -> Seq<JobArgView> {
        job_views(self.job_arguments@)
    }
}

/// The runs whose status is one of `statuses`.
pub open spec fn kept_benches(bs: Seq<BenchView>, statuses: Seq<JobStatus>) -> Seq<BenchView> {
    bs.filter(|b: BenchView| statuses.contains(b.status))
}

/// The configurations `es` with only the runs that have one of `statuses`, without those
/// left empty.
pub open spec fn kept_exps(es: Seq<ExpArgView>, statuses: Seq<JobStatus>) -> Seq<ExpArgView>
    decreases es.len(),
{
    if es.len() == 0 {
        Seq::empty()
    } else {
        let rest = kept_exps(es.drop_last(), statuses);
        let q = ExpArgView { benches: kept_benches(es.last().benches, statuses), ..es.last() };
        if q.benches.len() > 0 {
            rest.push(q)
        } else {
            rest
        }
    }
}

/// Job `j` with only the runs that have one of `statuses`.
pub open spec fn kept_job(j: JobArgView, statuses: Seq<JobStatus>) -> JobArgView {
    JobArgView { exps: kept_exps(j.exps, statuses), ..j }
}

/// The jobs `js` with only the runs that have one of `statuses`, without those left empty.
pub open spec fn kept_jobs(js: Seq<JobArgView>, statuses: Seq<JobStatus>) -> Seq<JobArgView>
    decreases js.len(),
{
    if js.len() == 0 {
        Seq::empty()
    } else {
        let rest = kept_jobs(js.drop_last(), statuses);
        let q = kept_job(js.last(), statuses);
        if q.exps.len() > 0 {
            rest.push(q)
        } else {
            rest
        }
    }
}

/// Run `b` moved to `new_state` when it has `old_state` (or whatever its status, when
/// `old_state` is `None`).
pub open spec fn changed_bench(b: BenchView, old_state: Option<JobStatus>, new_state: JobStatus) -> BenchView {
    if old_state is None || old_state == Some(b.status) {
        BenchView { status: new_state, ..b }
    } else {
        b
    }
}

pub open spec fn changed_exp(e: ExpArgView, old_state: Option<JobStatus>, new_state: JobStatus) -> ExpArgView {
    ExpArgView {
        benches: e.benches.map_values(|b: BenchView| changed_bench(b, old_state, new_state)),
        ..e
    }
}

pub open spec fn changed_job(j: JobArgView, old_state: Option<JobStatus>, new_state: JobStatus) -> JobArgView {
    JobArgView {
        exps: j.exps.map_values(|e: ExpArgView| changed_exp(e, old_state, new_state)),
        ..j
    }
}

/// The number of runs of the configurations `es`.
pub open spec fn exps_count(es: Seq<ExpArgView>) -> nat
    decreases es.len(),
{
    if es.len() == 0 {
        0
    } else {
        exps_count(es.drop_last()) + es.last().benches.len()
    }
}

pub proof fn lemma_exps_count_prefix(es: Seq<ExpArgView>, i: int)
    requires
        0 <= i <= es.len(),
    ensures
        exps_count(es.take(i)) <= exps_count(es),
    decreases es.len() - i,
{
    if i < es.len() {
        lemma_exps_count_prefix(es, i + 1);
        assert(es.take(i + 1).drop_last() == es.take(i));
    } else {
        assert(es.take(i) == es);
    }
}

impl BenchmarkArgument {
    fn change_state(&mut self, old_state: &Option<JobStatus>, new_state: &JobStatus)
        ensures
            final(self)@ == changed_bench(old(self)@, *old_state, *new_state),
    {
        let matches = match old_state {
            None => true,
            Some(s) => *s == self.status,
        };
        if matches {
            self.status = *new_state;
        }
    }
}

impl ExperimentArgument {
    /// The number of runs.
    pub fn get_number_task(&self) -> (r: usize)
        ensures
            r == self@.benches.len(),
    {
        self.benchmarks.len()
    }

    /// Keeps only the runs whose status is one of `statuses`.
    pub fn keep_task(&mut self, statuses: &[JobStatus])
        ensures
            final(self)@ == (ExpArgView { benches: kept_benches(old(self)@.benches, statuses@), ..old(self)@ }),
    {
        let ghost pred = |b: BenchView| statuses@.contains(b.status);
        let mut old_b: Vec<BenchmarkArgument> = Vec::new();
        std::mem::swap(&mut old_b, &mut self.benchmarks);
        let ghost olds = bench_views(old_b@);
        let n = old_b.len();
        let mut rest = old_b;
        let mut taken: Vec<BenchmarkArgument> = Vec::new();
        while rest.len() > 0
            invariant
                rest.len() + taken.len() == n,
                n == olds.len(),
                forall|j: int| 0 <= j < taken.len() ==> (#[trigger] taken@[j])@ == olds[n - 1 - j],
                forall|j: int| 0 <= j < rest.len() ==> (#[trigger] rest@[j])@ == olds[j],
            decreases rest.len(),
        {
            let p = rest.pop().unwrap();
            taken.push(p);
        }
        let mut kept: Vec<BenchmarkArgument> = Vec::new();
        let mut i: usize = 0;
        proof {
            reveal(Seq::filter);
            assert(olds.take(0) =~= Seq::<BenchView>::empty());
            assert(Seq::<BenchView>::empty().filter(pred) =~= Seq::<BenchView>::empty());
            assert(bench_views(kept@) =~= Seq::<BenchView>::empty());
        }
        while taken.len() > 0
            invariant
                i + taken.len() == n,
                n == olds.len(),
                forall|j: int| 0 <= j < taken.len() ==> (#[trigger] taken@[j])@ == olds[n - 1 - j],
                pred == (|b: BenchView| statuses@.contains(b.status)),
                bench_views(kept@) == olds.take(i as int).filter(pred),
            decreases taken.len(),
        {
            let b = taken.pop().unwrap();
            assert(b@ == olds[i as int]);
            let keep = crate::run::benchmark_run::status_in(statuses, b.status);
            proof {
                assert(olds.take(i + 1) == olds.take(i as int).push(olds[i as int]));
                lemma_filter_push(olds.take(i as int), pred, b@);
            }
            if keep {
                let ghost k0 = kept@;
                kept.push(b);
                assert(bench_views(kept@) =~= bench_views(k0).push(b@));
            }
            i += 1;
        }
        assert(olds.take(i as int) == olds);
        self.benchmarks = kept;
    }

    /// Moves the runs that have `old_state` (all runs, when it is `None`) to `new_state`.
    pub fn change_state_benchmarks(&mut self, old_state: &Option<JobStatus>, new_state: &JobStatus)
        ensures
            final(self)@ == changed_exp(old(self)@, *old_state, *new_state),
    {
        let mut old_b: Vec<BenchmarkArgument> = Vec::new();
        std::mem::swap(&mut old_b, &mut self.benchmarks);
        let ghost olds = bench_views(old_b@);
        let n = old_b.len();
        let mut rest = old_b;
        let mut taken: Vec<BenchmarkArgument> = Vec::new();
        while rest.len() > 0
            invariant
                rest.len() + taken.len() == n,
                n == olds.len(),
                forall|j: int| 0 <= j < taken.len() ==> (#[trigger] taken@[j])@ == olds[n - 1 - j],
                forall|j: int| 0 <= j < rest.len() ==> (#[trigger] rest@[j])@ == olds[j],
            decreases rest.len(),
        {
            let p = rest.pop().unwrap();
            taken.push(p);
        }
        let mut done: Vec<BenchmarkArgument> = Vec::new();
        let mut i: usize = 0;
        while taken.len() > 0
            invariant
                i + taken.len() == n,
                n == olds.len(),
                forall|j: int| 0 <= j < taken.len() ==> (#[trigger] taken@[j])@ == olds[n - 1 - j],
                bench_views(done@) == olds.take(i as int).map_values(
                    |b: BenchView| changed_bench(b, *old_state, *new_state),
                ),
            decreases taken.len(),
        {
            let mut b = taken.pop().unwrap();
            assert(b@ == olds[i as int]);
            b.change_state(old_state, new_state);
            let ghost d0 = done@;
            done.push(b);
            proof {
                assert(bench_views(done@) =~= bench_views(d0).push(b@));
                assert(olds.take(i + 1).map_values(|b: BenchView| changed_bench(b, *old_state, *new_state))
                    =~= olds.take(i as int).map_values(|b: BenchView| changed_bench(b, *old_state, *new_state)).push(
                    changed_bench(olds[i as int], *old_state, *new_state)));
            }
            i += 1;
        }
        assert(olds.take(i as int) == olds);
        self.benchmarks = done;
    }
}

/// The directory of run `b` under `edir`: `edir/<name>/<run_idx>`.
pub open spec fn bench_dir(edir: Seq<char>, b: BenchView) -> Seq<char> {
    path_join(path_join(edir, b.name), decimal(b.run_idx as nat))
}

/// Preparing configuration `i` (`e`) under `dst`: its directory, its `args.json`, then the
/// directory of each of its runs.
pub open spec fn exp_setup(i: nat, e: ExpArgView, dst: Seq<char>) -> Seq<StepView> {
    let edir = path_join(dst, e.dir);
    seq![
        StepView::CreateDir(edir),
        StepView::WriteArguments(path_join(edir, SNIPER_ARGUMENT_FILE_NAME@), i),
    ] + e.benches.map_values(|b: BenchView| StepView::CreateDir(bench_dir(edir, b)))
}

/// Preparing the configurations `es` under `dst`, in order, each numbered by its index.
pub open spec fn exps_setup(es: Seq<ExpArgView>, dst: Seq<char>) -> Seq<StepView>
    decreases es.len(),
{
    if es.len() == 0 {
        Seq::empty()
    } else {
        exps_setup(es.drop_last(), dst) + exp_setup((es.len() - 1) as nat, es.last(), dst)
    }
}

impl JobArgument {
    /// The steps that prepare the local directories of the job: for each configuration,
    /// its directory and its `args.json`, then the directory of each of its runs.
    pub fn prepare_host_directories(&self) -> (r: Vec<SetupStep>)
        ensures
            step_views(r@) == exps_setup(self@.exps, self@.dst),
    {
        let ghost es = self@.exps;
        let ghost dst = self@.dst;
        let mut steps: Vec<SetupStep> = Vec::new();
        let mut i: usize = 0;
        assert(es.take(0) =~= Seq::<ExpArgView>::empty());
        assert(step_views(steps@) =~= Seq::<StepView>::empty());
        while i < self.experiment_arguments.len()
            invariant
                es == self@.exps,
                dst == self@.dst,
                dst == self.host_dst_path@,
                i <= es.len(),
                step_views(steps@) == exps_setup(es.take(i as int), dst),
            decreases es.len() - i,
        {
            let e = &self.experiment_arguments[i];
            let ghost ev = e@;
            assert(ev == es[i as int]);
            let edir = join(self.host_dst_path.as_str(), e.sniper_dir_name.as_str());
            let ghost before = step_views(steps@);
            push_step(&mut steps, SetupStep::CreateDir(edir.clone()));
            let args = join(edir.as_str(), SNIPER_ARGUMENT_FILE_NAME);
            push_step(&mut steps, SetupStep::WriteArguments(args, i));
            let ghost head = step_views(steps@);
            let ghost bs = ev.benches;
            let ghost mk = |b: BenchView| StepView::CreateDir(bench_dir(edir@, b));
            let mut k: usize = 0;
            assert(bs.take(0).map_values(mk) =~= Seq::<StepView>::empty());
            while k < e.benchmarks.len()
                invariant
                    ev == e@,
                    bs == ev.benches,
                    edir@ == path_join(dst, ev.dir),
                    k <= bs.len(),
                    mk == (|b: BenchView| StepView::CreateDir(bench_dir(edir@, b))),
                    step_views(steps@) == head + bs.take(k as int).map_values(mk),
                decreases bs.len() - k,
            {
                let b = &e.benchmarks[k];
                assert(b@ == bs[k as int]);
                let bd = join(edir.as_str(), b.benchmark_name.as_str());
                let n = string_of(&decimal_chars(b.run_idx));
                let rd = join(bd.as_str(), n.as_str());
                push_step(&mut steps, SetupStep::CreateDir(rd));
                assert(bs.take(k + 1).map_values(mk) =~= bs.take(k as int).map_values(mk).push(mk(bs[k as int])));
                k += 1;
            }
            assert(bs.take(k as int) =~= bs);
            assert(es.take(i + 1).drop_last() =~= es.take(i as int));
            assert(es.take(i + 1).last() == ev);
            assert(step_views(steps@) =~= exps_setup(es.take(i + 1), dst));
            i += 1;
        }
        assert(es.take(i as int) =~= es);
        steps
    }

    /// The number of runs over all configurations.
    pub fn get_number_task(&self) -> (r: usize)
        requires
            exps_count(self@.exps) <= usize::MAX,
        ensures
            r == exps_count(self@.exps),
    {
        let ghost es = self@.exps;
        let mut tasks: usize = 0;
        let mut i: usize = 0;
        assert(es.take(0) =~= Seq::<ExpArgView>::empty());
        while i < self.experiment_arguments.len()
            invariant
                es == self@.exps,
                exps_count(es) <= usize::MAX,
                i <= self.experiment_arguments.len(),
                tasks == exps_count(es.take(i as int)),
            decreases self.experiment_arguments.len() - i,
        {
            proof {
                assert(es.take(i + 1).drop_last() == es.take(i as int));
                assert(es.take(i + 1).last() == self.experiment_arguments@[i as int]@);
                lemma_exps_count_prefix(es, i + 1);
            }
            tasks = tasks + self.experiment_arguments[i].get_number_task();
            i += 1;
        }
        assert(es.take(i as int) == es);
        tasks
    }

    /// Keeps only the runs whose status is one of `statuses`, and drops the configurations
    /// left without runs.
    pub fn keep_tasks(&mut self, statuses: &[JobStatus])
        ensures
            final(self)@ == kept_job(old(self)@, statuses@),
    {
        let mut old_e: Vec<ExperimentArgument> = Vec::new();
        std::mem::swap(&mut old_e, &mut self.experiment_arguments);
        let ghost olds = exp_views(old_e@);
        let n = old_e.len();
        let mut rest = old_e;
        let mut taken: Vec<ExperimentArgument> = Vec::new();
        while rest.len() > 0
            invariant
                rest.len() + taken.len() == n,
                n == olds.len(),
                forall|j: int| 0 <= j < taken.len() ==> (#[trigger] taken@[j])@ == olds[n - 1 - j],
                forall|j: int| 0 <= j < rest.len() ==> (#[trigger] rest@[j])@ == olds[j],
            decreases rest.len(),
        {
            let p = rest.pop().unwrap();
            taken.push(p);
        }
        let mut kept: Vec<ExperimentArgument> = Vec::new();
        let mut i: usize = 0;
        assert(olds.take(0) =~= Seq::<ExpArgView>::empty());
        assert(exp_views(kept@) =~= Seq::<ExpArgView>::empty());
        while taken.len() > 0
            invariant
                i + taken.len() == n,
                n == olds.len(),
                forall|j: int| 0 <= j < taken.len() ==> (#[trigger] taken@[j])@ == olds[n - 1 - j],
                exp_views(kept@) == kept_exps(olds.take(i as int), statuses@),
            decreases taken.len(),
        {
            let mut e = taken.pop().unwrap();
            assert(e@ == olds[i as int]);
            e.keep_task(statuses);
            proof {
                assert(olds.take(i + 1).drop_last() == olds.take(i as int));
                assert(olds.take(i + 1).last() == olds[i as int]);
            }
            if e.benchmarks.len() > 0 {
                let ghost k0 = kept@;
                kept.push(e);
                assert(exp_views(kept@) =~= exp_views(k0).push(e@));
            }
            i += 1;
        }
        assert(olds.take(i as int) == olds);
        self.experiment_arguments = kept;
    }

    /// Moves the runs that have `old_state` (all runs, when it is `None`) to `new_state`.
    pub fn change_state_benchmarks(&mut self, old_state: &Option<JobStatus>, new_state: &JobStatus)
        ensures
            final(self)@ == changed_job(old(self)@, *old_state, *new_state),
    {
        let mut old_e: Vec<ExperimentArgument> = Vec::new();
        std::mem::swap(&mut old_e, &mut self.experiment_arguments);
        let ghost olds = exp_views(old_e@);
        let n = old_e.len();
        let mut rest = old_e;
        let mut taken: Vec<ExperimentArgument> = Vec::new();
        while rest.len() > 0
            invariant
                rest.len() + taken.len() == n,
                n == olds.len(),
                forall|j: int| 0 <= j < taken.len() ==> (#[trigger] taken@[j])@ == olds[n - 1 - j],
                forall|j: int| 0 <= j < rest.len() ==> (#[trigger] rest@[j])@ == olds[j],
            decreases rest.len(),
        {
            let p = rest.pop().unwrap();
            taken.push(p);
        }
        let mut done: Vec<ExperimentArgument> = Vec::new();
        let mut i: usize = 0;
        while taken.len() > 0
            invariant
                i + taken.len() == n,
                n == olds.len(),
                forall|j: int| 0 <= j < taken.len() ==> (#[trigger] taken@[j])@ == olds[n - 1 - j],
                exp_views(done@) == olds.take(i as int).map_values(
                    |e: ExpArgView| changed_exp(e, *old_state, *new_state),
                ),
            decreases taken.len(),
        {
            let mut e = taken.pop().unwrap();
            assert(e@ == olds[i as int]);
            e.change_state_benchmarks(old_state, new_state);
            let ghost d0 = done@;
            done.push(e);
            proof {
                assert(exp_views(done@) =~= exp_views(d0).push(e@));
                assert(olds.take(i + 1).map_values(|e: ExpArgView| changed_exp(e, *old_state, *new_state))
                    =~= olds.take(i as int).map_values(|e: ExpArgView| changed_exp(e, *old_state, *new_state)).push(
                    changed_exp(olds[i as int], *old_state, *new_state)));
            }
            i += 1;
        }
        assert(olds.take(i as int) == olds);
        self.experiment_arguments = done;
    }
}

impl Arguments {
    /// Sets the status of run `bench` of configuration `exp` of job `job`.
    pub fn set_bench_status(&mut self, job: usize, exp: usize, bench: usize, status: JobStatus)
        requires
            job < old(self)@.len(),
            exp < old(self)@[job as int].exps.len(),
            bench < old(self)@[job as int].exps[exp as int].benches.len(),
        ensures
            final(self)@ == old(self)@.update(
                job as int,
                JobArgView {
                    exps: old(self)@[job as int].exps.update(
                        exp as int,
                        ExpArgView {
                            benches: old(self)@[job as int].exps[exp as int].benches.update(
                                bench as int,
                                BenchView { status, ..old(self)@[job as int].exps[exp as int].benches[bench as int] },
                            ),
                            ..old(self)@[job as int].exps[exp as int]
                        },
                    ),
                    ..old(self)@[job as int]
                },
            ),
    {
        let ghost js0 = self.job_arguments@;
        let mut j = self.job_arguments.remove(job);
        let ghost es0 = j.experiment_arguments@;
        let mut e = j.experiment_arguments.remove(exp);
        let ghost bs0 = e.benchmarks@;
        let mut b = e.benchmarks.remove(bench);
        b.status = status;
        e.benchmarks.insert(bench, b);
        assert(bench_views(e.benchmarks@) =~= bench_views(bs0).update(bench as int, b@));
        j.experiment_arguments.insert(exp, e);
        assert(exp_views(j.experiment_arguments@) =~= exp_views(es0).update(exp as int, e@));
        self.job_arguments.insert(job, j);
        assert(job_views(self.job_arguments@) =~= job_views(js0).update(job as int, j@));
    }

    /// Keeps only the runs whose status is one of `statuses`, and drops what is left empty.
    pub fn keep_tasks(&mut self, statuses: &[JobStatus])
        ensures
            final(self)@ == kept_jobs(old(self)@, statuses@),
    {
        let mut old_j: Vec<JobArgument> = Vec::new();
        std::mem::swap(&mut old_j, &mut self.job_arguments);
        let ghost olds = job_views(old_j@);
        let n = old_j.len();
        let mut rest = old_j;
        let mut taken: Vec<JobArgument> = Vec::new();
        while rest.len() > 0
            invariant
                rest.len() + taken.len() == n,
                n == olds.len(),
                forall|j: int| 0 <= j < taken.len() ==> (#[trigger] taken@[j])@ == olds[n - 1 - j],
                forall|j: int| 0 <= j < rest.len() ==> (#[trigger] rest@[j])@ == olds[j],
            decreases rest.len(),
        {
            let p = rest.pop().unwrap();
            taken.push(p);
        }
        let mut kept: Vec<JobArgument> = Vec::new();
        let mut i: usize = 0;
        assert(olds.take(0) =~= Seq::<JobArgView>::empty());
        assert(job_views(kept@) =~= Seq::<JobArgView>::empty());
        while taken.len() > 0
            invariant
                i + taken.len() == n,
                n == olds.len(),
                forall|j: int| 0 <= j < taken.len() ==> (#[trigger] taken@[j])@ == olds[n - 1 - j],
                job_views(kept@) == kept_jobs(olds.take(i as int), statuses@),
            decreases taken.len(),
        {
            let mut a = taken.pop().unwrap();
            assert(a@ == olds[i as int]);
            a.keep_tasks(statuses);
            proof {
                assert(olds.take(i + 1).drop_last() == olds.take(i as int));
                assert(olds.take(i + 1).last() == olds[i as int]);
            }
            if a.experiment_arguments.len() > 0 {
                let ghost k0 = kept@;
                kept.push(a);
                assert(job_views(kept@) =~= job_views(k0).push(a@));
            }
            i += 1;
        }
        assert(olds.take(i as int) == olds);
        self.job_arguments = kept;
    }

    /// Moves the runs that have `old_state` (all runs, when it is `None`) to `new_state`.
    pub fn change_state_benchmarks(&mut self, old_state: &Option<JobStatus>, new_state: &JobStatus)
        ensures
            final(self)@ == old(self)@.map_values(|j: JobArgView| changed_job(j, *old_state, *new_state)),
    {
        let mut old_j: Vec<JobArgument> = Vec::new();
        std::mem::swap(&mut old_j, &mut self.job_arguments);
        let ghost olds = job_views(old_j@);
        let n = old_j.len();
        let mut rest = old_j;
        let mut taken: Vec<JobArgument> = Vec::new();
        while rest.len() > 0
            invariant
                rest.len() + taken.len() == n,
                n == olds.len(),
                forall|j: int| 0 <= j < taken.len() ==> (#[trigger] taken@[j])@ == olds[n - 1 - j],
                forall|j: int| 0 <= j < rest.len() ==> (#[trigger] rest@[j])@ == olds[j],
            decreases rest.len(),
        {
            let p = rest.pop().unwrap();
            taken.push(p);
        }
        let mut done: Vec<JobArgument> = Vec::new();
        let mut i: usize = 0;
        while taken.len() > 0
            invariant
                i + taken.len() == n,
                n == olds.len(),
                forall|j: int| 0 <= j < taken.len() ==> (#[trigger] taken@[j])@ == olds[n - 1 - j],
                job_views(done@) == olds.take(i as int).map_values(
                    |j: JobArgView| changed_job(j, *old_state, *new_state),
                ),
            decreases taken.len(),
        {
            let mut a = taken.pop().unwrap();
            assert(a@ == olds[i as int]);
            a.change_state_benchmarks(old_state, new_state);
            let ghost d0 = done@;
            done.push(a);
            proof {
                assert(job_views(done@) =~= job_views(d0).push(a@));
                assert(olds.take(i + 1).map_values(|j: JobArgView| changed_job(j, *old_state, *new_state))
                    =~= olds.take(i as int).map_values(|j: JobArgView| changed_job(j, *old_state, *new_state)).push(
                    changed_job(olds[i as int], *old_state, *new_state)));
            }
            i += 1;
        }
        assert(olds.take(i as int) == olds);
        self.job_arguments = done;
    }
}

} // verus!
