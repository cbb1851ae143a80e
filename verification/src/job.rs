use vstd::prelude::*;

use crate::communication::credentials::Credentials;
use crate::constants::{titan_submit_dir, TITAN_SUBMIT_DIR};
use crate::hpc::slurm_handle::{
    collapse_spaces, collapse_spaces_regex, date_shaped, jobs_command_spec, opt_text, job_file_arguments_spec, jobs_of, listing_lines, read_jobs,
    sacct_spec, squeue_spec, stat_views, SlurmHandler, SlurmJobStat,
};
use crate::job_data::{
    bench_dir, exp_views, exps_count, lemma_exps_count_prefix, Arguments, BenchView, BenchmarkArgument, ExpArgView,
    ExperimentArgument, JobArgView, JobArgument,
};
use crate::run::fill_template::{fill, fill_template};
use crate::run::status::JobStatus;
use crate::paths::{join, path_join};
use crate::run::job_handler::task_file_name;
use crate::text::{append_chars, chars_of, decimal, decimal_chars, string_of};

verus! {

/// The first job handler: it lists and deletes the cluster's jobs for an account, and
/// submits jobs described by a job map, keeping its scratch files under `temp_path`.
#[derive(Debug)]
pub struct JobHandler {
    pub creds: Credentials,
    /// List the jobs of every account, not only this one.
    pub all: bool,
    /// List the jobs completed in the last this many days, rather than the queue.
    pub completed: Option<usize>,
    pub temp_path: String,
}

/// The text a job listing is read from: with runs of spaces collapsed for `sacct`.
pub open spec fn old_listing_text(stdout: Seq<char>, completed: bool) -> Seq<char> {
    if completed {
        collapse_spaces(stdout)
    } else {
        stdout
    }
}

/// The task number of run `j` of configuration `i` of `es`: runs are numbered from 1,
/// configuration after configuration.
pub open spec fn task_number(es: Seq<ExpArgView>, i: int, j: int) -> nat {
    (exps_count(es.take(i)) + j + 1) as nat
}

/// `es` with every run given its task number.
pub open spec fn numbered(es: Seq<ExpArgView>) -> Seq<ExpArgView> {
    Seq::new(
        es.len(),
        |i: int|
            ExpArgView {
                benches: Seq::new(
                    es[i].benches.len(),
                    |j: int| BenchView { task_idx: Some(task_number(es, i, j) as usize), ..es[i].benches[j] },
                ),
                ..es[i]
            },
    )
}

/// A run whose results are due: where it stands in the job map (job, configuration, run),
/// its task id on the cluster and the directory its results go to.
#[derive(Debug)]
pub struct Retrieval {
    pub job: usize,
    pub exp: usize,
    pub bench: usize,
    pub task_id: String,
    pub dst_path: String,
}

/// A retrieval as the model sees it.
pub struct RetrievalView {
    pub job: nat,
    pub exp: nat,
    pub bench: nat,
    pub task_id: Seq<char>,
    pub dst_path: Seq<char>,
}

impl View for Retrieval {
    type V = RetrievalView;

    open spec fn view(&self) -> RetrievalView {
        RetrievalView {
            job: self.job as nat,
            exp: self.exp as nat,
            bench: self.bench as nat,
            task_id: self.task_id@,
            dst_path: self.dst_path@,
        }
    }
}

pub open spec fn retrieval_views(v: Seq<Retrieval>) -> Seq<RetrievalView> {
    v.map_values(|r: Retrieval| r@)
}

/// A submitted run has the job number and task number it needs.
pub open spec fn bench_ok(jv: JobArgView, b: BenchView) -> bool {
    b.status == JobStatus::SUBMITTED ==> jv.job_nr is Some && b.task_idx is Some
}

/// Every submitted run of `js` has its job number and task number.
pub open spec fn plan_ok(js: Seq<JobArgView>) -> bool {
    forall|a: int, i: int, k: int|
        0 <= a < js.len() && 0 <= i < js[a].exps.len() && 0 <= k < js[a].exps[i].benches.len()
            ==> #[trigger] bench_ok(js[a], js[a].exps[i].benches[k])
}

/// The task id of run `b` of job `jv` on the cluster: `<job_nr>_<task>`.
pub open spec fn task_id(jv: JobArgView, b: BenchView) -> Seq<char> {
    jv.job_nr.unwrap() + "_"@ + decimal(b.task_idx.unwrap() as nat)
}

/// Whether run `b` of job `jv` is due: submitted, and no longer among the cluster's jobs.
pub open spec fn bench_due(jv: JobArgView, b: BenchView, ids: Seq<Seq<char>>) -> bool {
    b.status == JobStatus::SUBMITTED && !ids.contains(task_id(jv, b))
}

/// The retrievals due among the runs `bs` of configuration `i` (`ev`) of job `a` (`jv`).
pub open spec fn bench_plan(a: nat, jv: JobArgView, i: nat, ev: ExpArgView, bs: Seq<BenchView>, ids: Seq<Seq<char>>) -> Seq<RetrievalView>
    decreases bs.len(),
{
    if bs.len() == 0 {
        Seq::empty()
    } else {
        let b = bs.last();
        let prev = bench_plan(a, jv, i, ev, bs.drop_last(), ids);
        if bench_due(jv, b, ids) {
            prev.push(
                RetrievalView {
                    job: a,
                    exp: i,
                    bench: (bs.len() - 1) as nat,
                    task_id: task_id(jv, b),
                    dst_path: bench_dir(path_join(jv.dst, ev.dir), b),
                },
            )
        } else {
            prev
        }
    }
}

/// The retrievals due among the configurations `es` of job `a` (`jv`).
pub open spec fn exp_plan(a: nat, jv: JobArgView, es: Seq<ExpArgView>, ids: Seq<Seq<char>>) -> Seq<RetrievalView>
    decreases es.len(),
{
    if es.len() == 0 {
        Seq::empty()
    } else {
        exp_plan(a, jv, es.drop_last(), ids) + bench_plan(a, jv, (es.len() - 1) as nat, es.last(), es.last().benches, ids)
    }
}

/// The retrievals due among the jobs `js`, in order.
pub open spec fn jobs_plan(js: Seq<JobArgView>, ids: Seq<Seq<char>>) -> Seq<RetrievalView>
    decreases js.len(),
{
    if js.len() == 0 {
        Seq::empty()
    } else {
        jobs_plan(js.drop_last(), ids) + exp_plan((js.len() - 1) as nat, js.last(), js.last().exps, ids)
    }
}

/// Whether `s` is among `v`.
fn contains_string(v: &Vec<String>, s: &Vec<char>) -> (r: bool)
    ensures
        r == v@.map_values(|x: String| x@).contains(s@),
{
    let ghost vs = v@.map_values(|x: String| x@);
    let mut i: usize = 0;
    while i < v.len()
        invariant
            vs == v@.map_values(|x: String| x@),
            i <= v.len(),
            forall|j: int| 0 <= j < i ==> vs[j] != s@,
        decreases v.len() - i,
    {
        if crate::text::same_chars(&chars_of(v[i].as_str()), s) {
            assert(vs[i as int] == s@);
            return true;
        }
        i += 1;
    }
    false
}

impl JobHandler {
    /// A handler for account `creds`, listing all accounts' jobs when `all`, and the jobs
    /// completed in the last `completed` days when given.
    pub fn new(creds: Credentials, all: bool, completed: Option<usize>, temp_path: String) -> (r: Self)
        ensures
            r.creds == creds,
            r.all == all,
            r.completed == completed,
            r.temp_path@ == temp_path@,
    {
        JobHandler { creds, all, completed, temp_path }
    }

    /// The scheduler for this handler's account.
    fn scheduler(&self) -> (r: SlurmHandler)
        ensures
            r.creds.username@ == self.creds.username@,
            r.creds.password@ == self.creds.password@,
    {
        SlurmHandler {
            creds: Credentials {
                username: self.creds.username.clone(),
                password: self.creds.password.clone(),
            },
        }
    }

    /// The command that lists the jobs: `squeue` for the queue, or `sacct` for the jobs of
    /// the last `completed` days. `None` when that date is out of range.
    pub fn jobs_command(&self) -> (r: Option<String>)
        requires
            self.completed matches Some(d) ==> d <= 106751991167300,
        ensures
            self.completed is None ==> (r matches Some(c) && c@ == squeue_spec(self.creds.username@, self.all)),
            exists|now: i64|
                opt_text(r) == #[trigger] jobs_command_spec(self.creds.username@, self.all, self.completed, now),
            self.completed is Some ==> (r matches Some(c) ==> exists|d: Seq<char>|
                date_shaped(d) && c@ == sacct_spec(self.creds.username@, self.all, d)),
    {
        self.scheduler().jobs_command(self.all, self.completed)
    }

    /// Reads the output of the listing command: the jobs after the header (two lines for
    /// `sacct`, one for `squeue`), or `None` when a line cannot be read. Unlike the scheduler's reader, it does not look for the `JobID`
    /// header first.
    pub fn get_jobs(&self, stdout: &str) -> (r: Option<Vec<SlurmJobStat>>)
        ensures
            match r {
                Some(v) => jobs_of(
                    listing_lines(old_listing_text(stdout@, self.completed is Some), self.completed is Some),
                ) == Some(stat_views(v@)),
                None => jobs_of(
                    listing_lines(old_listing_text(stdout@, self.completed is Some), self.completed is Some),
                ) is None,
            },
    {
        let completed = self.completed.is_some();
        let out: String = if completed {
            collapse_spaces_regex(stdout)
        } else {
            stdout.to_owned()
        };
        read_jobs(out.as_str(), completed)
    }

    /// The command that deletes job `job_id` through the cluster's script.
    pub fn delete_job_command(&self, job_id: usize) -> (r: String)
        ensures
            r@ == "/home/slurmadmin/scripts/delete_job.py -j "@ + decimal(job_id as nat) + " -u "@
                + self.creds.username@ + " -p "@ + self.creds.password@,
    {
        self.scheduler().delete_job_command(job_id)
    }

    /// Sets the job file arguments of `job_argument` before submission: `<TASKS>` to its
    /// number of runs, and `<ACCOUNT>` to this account unless given.
    pub fn prepare_job(&self, job_argument: &mut JobArgument)
        requires
            exps_count(old(job_argument)@.exps) <= usize::MAX,
        ensures
            final(job_argument)@ == (JobArgView {
                meta: job_file_arguments_spec(
                    old(job_argument)@.meta,
                    exps_count(old(job_argument)@.exps),
                    self.creds.username@,
                ),
                ..old(job_argument)@
            }),
    {
        let nr_tasks = job_argument.get_number_task();
        let tasks = string_of(&decimal_chars(nr_tasks));
        job_argument.meta_arguments.insert("<TASKS>".to_owned(), tasks);
        let account = "<ACCOUNT>".to_owned();
        if !job_argument.meta_arguments.contains_key(&account) {
            job_argument.meta_arguments.insert(account, self.creds.username.clone());
        }
    }

    /// Where the job file of a submission with hash `hash` is written (`job_<hash>.sh` in
    /// the scratch directory) and where it goes on the cluster.
    pub fn job_file_paths(&self, hash: &str) -> (r: (String, String))
        ensures
            r.0@ == path_join(self.temp_path@, "job_"@ + hash@ + ".sh"@),
            r.1@ == path_join(titan_submit_dir(), "job_"@ + hash@ + ".sh"@),
    {
        let mut v = chars_of("job_");
        let h = chars_of(hash);
        append_chars(&mut v, &h);
        let ext = chars_of(".sh");
        append_chars(&mut v, &ext);
        let name = string_of(&v);
        (join(self.temp_path.as_str(), name.as_str()), join(TITAN_SUBMIT_DIR, name.as_str()))
    }

    /// Numbers the runs of `job_argument`, submitted as job `job_nr`, from 1, and gives the
    /// execution script of each: `<temp_path>/<job_nr>/execute_<job_nr>_<task>.sh`, holding
    /// `template` filled with the run's arguments. The scripts come per configuration, run
    /// by run; the directory they go to comes first.
    pub fn submit_experiment(&self, job_argument: &mut JobArgument, job_nr: &str, template: &str) -> (r: (
        String,
        Vec<Vec<(String, String)>>,
    ))
        requires
            exps_count(old(job_argument)@.exps) <= usize::MAX,
        ensures
            r.0@ == path_join(self.temp_path@, job_nr@),
            final(job_argument)@ == (JobArgView { exps: numbered(old(job_argument)@.exps), ..old(job_argument)@ }),
            r.1@.len() == old(job_argument)@.exps.len(),
            forall|i: int| #![trigger r.1@[i]]
                0 <= i < r.1@.len() ==> r.1@[i]@.len() == old(job_argument)@.exps[i].benches.len(),
            forall|i: int, j: int|
                0 <= i < r.1@.len() && 0 <= j < r.1@[i]@.len() ==> {
                    &&& (#[trigger] r.1@[i]@[j]).0@ == path_join(
                        r.0@,
                        task_file_name(job_nr@, task_number(old(job_argument)@.exps, i, j)),
                    )
                    &&& r.1@[i]@[j].1@ == fill(
                        template@,
                        old(job_argument).experiment_arguments@[i].benchmarks@[j].arguments.pairs(),
                    )
                },
    {
        let temp_exp_path = join(self.temp_path.as_str(), job_nr);
        let ghost es = old(job_argument)@.exps;
        let ghost olds = old(job_argument).experiment_arguments@;
        let mut old_e: Vec<ExperimentArgument> = Vec::new();
        std::mem::swap(&mut old_e, &mut job_argument.experiment_arguments);
        assert(old_e@ == olds);
        let mut new_e: Vec<ExperimentArgument> = Vec::new();
        let mut files: Vec<Vec<(String, String)>> = Vec::new();
        let mut done: usize = 0;
        let mut i: usize = 0;
        assert(es.take(0) =~= Seq::<ExpArgView>::empty());
        while i < old_e.len()
            invariant
                old_e@ == olds,
                es == exp_views(olds),
                exps_count(es) <= usize::MAX,
                i <= olds.len(),
                new_e@.len() == i,
                files@.len() == i,
                done == exps_count(es.take(i as int)),
                forall|k: int| 0 <= k < i ==> (#[trigger] new_e@[k])@ == numbered(es)[k],
                forall|k: int| #![trigger files@[k]] 0 <= k < i ==> files@[k]@.len() == es[k].benches.len(),
                forall|k: int, j: int|
                    0 <= k < i && 0 <= j < files@[k]@.len() ==> {
                        &&& (#[trigger] files@[k]@[j]).0@ == path_join(
                            temp_exp_path@,
                            task_file_name(job_nr@, task_number(es, k, j)),
                        )
                        &&& files@[k]@[j].1@ == fill(template@, olds[k].benchmarks@[j].arguments.pairs())
                    },
            decreases olds.len() - i,
        {
            let e = &old_e[i];
            proof {
                lemma_exps_count_prefix(es, i + 1);
                assert(es.take(i + 1).drop_last() =~= es.take(i as int));
                assert(es.take(i + 1).last() == es[i as int]);
                assert(es[i as int] == e@);
            }
            let mut benches: Vec<BenchmarkArgument> = Vec::new();
            let mut fs: Vec<(String, String)> = Vec::new();
            let mut j: usize = 0;
            while j < e.benchmarks.len()
                invariant
                    e@ == es[i as int],
                    *e == olds[i as int],
                    i < es.len(),
                    done == exps_count(es.take(i as int)),
                    done + e.benchmarks.len() <= usize::MAX,
                    j <= e.benchmarks.len(),
                    benches@.len() == j,
                    fs@.len() == j,
                    forall|k: int| 0 <= k < j ==> (#[trigger] benches@[k])@ == (BenchView {
                        task_idx: Some(task_number(es, i as int, k) as usize),
                        ..es[i as int].benches[k]
                    }),
                    forall|k: int| 0 <= k < j ==> {
                        &&& (#[trigger] fs@[k]).0@ == path_join(
                            temp_exp_path@,
                            task_file_name(job_nr@, task_number(es, i as int, k)),
                        )
                        &&& fs@[k].1@ == fill(template@, olds[i as int].benchmarks@[k].arguments.pairs())
                    },
                decreases e.benchmarks.len() - j,
            {
                let b = &e.benchmarks[j];
                let task = done + j + 1;
                assert(e@.benches[j as int] == b@);
                let path = crate::run::job_handler::task_file_path(temp_exp_path.as_str(), job_nr, task);
                let content = fill_template(template, &b.arguments);
                fs.push((path, content));
                benches.push(
                    BenchmarkArgument {
                        arguments: b.arguments.copy(),
                        benchmark_name: b.benchmark_name.clone(),
                        run_idx: b.run_idx,
                        task_idx: Some(task),
                        status: b.status,
                    },
                );
                j += 1;
            }
            let ne = ExperimentArgument {
                sniper_dir_name: e.sniper_dir_name.clone(),
                variable_sniper_parameters: e.variable_sniper_parameters.copy(),
                benchmarks: benches,
            };
            assert(ne@.benches =~= numbered(es)[i as int].benches);
            assert(ne@ == numbered(es)[i as int]);
            new_e.push(ne);
            files.push(fs);
            done = done + e.benchmarks.len();
            i += 1;
        }
        job_argument.experiment_arguments = new_e;
        assert(exp_views(job_argument.experiment_arguments@) =~= numbered(es));
        (temp_exp_path, files)
    }

    /// The runs of `jobs` whose results are due (submitted, and no longer among
    /// `titan_job_ids`), in order, each with its task id and result directory. `None` when a
    /// submitted run lacks its job number or task number.
    pub fn collect_plan(jobs: &Arguments, titan_job_ids: &Vec<String>) -> (r: Option<Vec<Retrieval>>)
        ensures
            r is Some <==> plan_ok(jobs@),
            r matches Some(v) ==> retrieval_views(v@) == jobs_plan(jobs@, titan_job_ids@.map_values(|x: String| x@)),
    {
        let ghost js = jobs@;
        let ghost ids = titan_job_ids@.map_values(|x: String| x@);
        let mut plan: Vec<Retrieval> = Vec::new();
        let mut a: usize = 0;
        assert(js.take(0) =~= Seq::<JobArgView>::empty());
        assert(retrieval_views(plan@) =~= Seq::<RetrievalView>::empty());
        while a < jobs.job_arguments.len()
            invariant
                js == jobs@,
                ids == titan_job_ids@.map_values(|x: String| x@),
                a <= js.len(),
                retrieval_views(plan@) == jobs_plan(js.take(a as int), ids),
                forall|a2: int, i: int, k: int|
                    0 <= a2 < a && 0 <= i < js[a2].exps.len() && 0 <= k < js[a2].exps[i].benches.len()
                        ==> #[trigger] bench_ok(js[a2], js[a2].exps[i].benches[k]),
            decreases js.len() - a,
        {
            let job = &jobs.job_arguments[a];
            let ghost jv = job@;
            assert(jv == js[a as int]);
            let ghost p0 = retrieval_views(plan@);
            let mut i: usize = 0;
            assert(jv.exps.take(0) =~= Seq::<ExpArgView>::empty());
            assert(p0 + exp_plan(a as nat, jv, jv.exps.take(0), ids) =~= p0);
            while i < job.experiment_arguments.len()
                invariant
                    js == jobs@,
                    ids == titan_job_ids@.map_values(|x: String| x@),
                    a < js.len(),
                    jv == js[a as int],
                    jv == job@,
                    i <= jv.exps.len(),
                    retrieval_views(plan@) == p0 + exp_plan(a as nat, jv, jv.exps.take(i as int), ids),
                    forall|a2: int, i2: int, k: int|
                        0 <= a2 < a && 0 <= i2 < js[a2].exps.len() && 0 <= k < js[a2].exps[i2].benches.len()
                            ==> #[trigger] bench_ok(js[a2], js[a2].exps[i2].benches[k]),
                    forall|i2: int, k: int|
                        0 <= i2 < i && 0 <= k < jv.exps[i2].benches.len() ==> #[trigger] bench_ok(jv, jv.exps[i2].benches[k]),
                decreases jv.exps.len() - i,
            {
                let e = &job.experiment_arguments[i];
                let ghost ev = e@;
                assert(ev == jv.exps[i as int]);
                let edir = join(job.host_dst_path.as_str(), e.sniper_dir_name.as_str());
                let ghost p1 = retrieval_views(plan@);
                let mut k: usize = 0;
                assert(ev.benches.take(0) =~= Seq::<BenchView>::empty());
                assert(p1 + bench_plan(a as nat, jv, i as nat, ev, ev.benches.take(0), ids) =~= p1);
                while k < e.benchmarks.len()
                    invariant
                        js == jobs@,
                        ids == titan_job_ids@.map_values(|x: String| x@),
                        a < js.len(),
                        jv == js[a as int],
                        jv == job@,
                        i < jv.exps.len(),
                        ev == jv.exps[i as int],
                        ev == e@,
                        edir@ == path_join(jv.dst, ev.dir),
                        k <= ev.benches.len(),
                        retrieval_views(plan@) == p1 + bench_plan(a as nat, jv, i as nat, ev, ev.benches.take(k as int), ids),
                        forall|k2: int| 0 <= k2 < k ==> #[trigger] bench_ok(jv, ev.benches[k2]),
                    decreases ev.benches.len() - k,
                {
                    let b = &e.benchmarks[k];
                    assert(b@ == ev.benches[k as int]);
                    assert(ev.benches.take(k + 1).drop_last() =~= ev.benches.take(k as int));
                    assert(ev.benches.take(k + 1).last() == b@);
                    if b.status == JobStatus::SUBMITTED {
                        let (nr, t) = match (&job.job_nr, b.task_idx) {
                            (Some(nr), Some(t)) => (nr, t),
                            _ => {
                                assert(!bench_ok(js[a as int], js[a as int].exps[i as int].benches[k as int]));
                                return None;
                            },
                        };
                        let mut id = chars_of(nr.as_str());
                        let us = chars_of("_");
                        append_chars(&mut id, &us);
                        let tn = decimal_chars(t);
                        append_chars(&mut id, &tn);
                        assert(id@ == task_id(jv, b@));
                        if !contains_string(titan_job_ids, &id) {
                            let bd = join(edir.as_str(), b.benchmark_name.as_str());
                            let dst = join(bd.as_str(), string_of(&decimal_chars(b.run_idx)).as_str());
                            let item = Retrieval { job: a, exp: i, bench: k, task_id: string_of(&id), dst_path: dst };
                            let ghost q0 = plan@;
                            plan.push(item);
                            assert(retrieval_views(plan@) =~= retrieval_views(q0).push(item@));
                        }
                    }
                    k += 1;
                }
                assert(ev.benches.take(k as int) =~= ev.benches);
                assert(jv.exps.take(i + 1).drop_last() =~= jv.exps.take(i as int));
                assert(jv.exps.take(i + 1).last() == ev);
                assert(retrieval_views(plan@) =~= p0 + exp_plan(a as nat, jv, jv.exps.take(i + 1), ids));
                i += 1;
            }
            assert(jv.exps.take(i as int) =~= jv.exps);
            assert(js.take(a + 1).drop_last() =~= js.take(a as int));
            assert(js.take(a + 1).last() == jv);
            assert(retrieval_views(plan@) =~= jobs_plan(js.take(a + 1), ids));
            a += 1;
        }
        assert(js.take(a as int) =~= js);
        Some(plan)
    }

    /// The command that submits the job file at `titan_job_path`, and the one that removes
    /// it afterwards.
    pub fn submit_commands(titan_job_path: &str) -> (r: (String, String))
        ensures
            r.0@ == "sbatch "@ + titan_job_path@,
            r.1@ == "rm "@ + titan_job_path@,
    {
        let p = chars_of(titan_job_path);
        let mut s = chars_of("sbatch ");
        append_chars(&mut s, &p);
        let mut rm = chars_of("rm ");
        append_chars(&mut rm, &p);
        (string_of(&s), string_of(&rm))
    }
}

} // verus!
