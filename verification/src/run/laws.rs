use vstd::prelude::*;

use crate::run::benchmark_parameter::{filter_param, param_dir, param_paths, ParamView};
use crate::run::benchmark_run::{run_dir, run_kept};
use crate::run::benchmark_suite::{
    filter_suite, kept_sims, sims_count, sims_paths, suite_paths, SuiteView,
};
use crate::run::db::RunStatuses;
use crate::run::experiment::{kept_suites, suites_paths};
use crate::run::simulator_parameter::{
    filter_sim, kept_params, params_count, params_paths, sim_dir, sim_paths, SimView,
};
use crate::run::status::JobStatus;
use crate::seqs::{lemma_filter_add, lemma_filter_push};

verus! {

/// Whether the run directory `path` stays: its recorded status is one of `statuses`, or
/// it has none and `include_none` holds.
pub open spec fn path_kept(
    db: RunStatuses,
    path: Seq<char>,
    statuses: Seq<JobStatus>,
    include_none: bool,
) -> bool {
    match db.status_of(path) {
        Some(st) => statuses.contains(st),
        None => include_none,
    }
}

proof fn lemma_map_filter(
    runs: Seq<usize>,
    d: Seq<char>,
    db: RunStatuses,
    statuses: Seq<JobStatus>,
    include_none: bool,
)
    ensures
        runs.filter(|i: usize| run_kept(db, d, i, statuses, include_none)).map_values(
            |i: usize| run_dir(d, i),
        ) == runs.map_values(|i: usize| run_dir(d, i)).filter(
            |p: Seq<char>| path_kept(db, p, statuses, include_none),
        ),
    decreases runs.len(),
{
    let f = |i: usize| run_dir(d, i);
    let pr = |i: usize| run_kept(db, d, i, statuses, include_none);
    let pp = |p: Seq<char>| path_kept(db, p, statuses, include_none);
    if runs.len() == 0 {
        reveal(Seq::filter);
        assert(runs.filter(pr).map_values(f) =~= Seq::<Seq<char>>::empty());
        assert(runs.map_values(f) =~= Seq::<Seq<char>>::empty());
    } else {
        let q = runs.drop_last();
        let e = runs.last();
        lemma_map_filter(q, d, db, statuses, include_none);
        assert(runs == q.push(e));
        lemma_filter_push(q, pr, e);
        assert(runs.map_values(f) == q.map_values(f).push(f(e)));
        lemma_filter_push(q.map_values(f), pp, f(e));
        assert(pr(e) == pp(f(e)));
        if pr(e) {
            assert(q.filter(pr).push(e).map_values(f) =~= q.filter(pr).map_values(f).push(f(e)));
        }
    }
}

/// Keeping the runs of a benchmark keeps exactly those of its run directories whose
/// status is accepted, in the same order.
pub proof fn law_param_keep_filters_paths(
    p: ParamView,
    dst: Seq<char>,
    db: RunStatuses,
    statuses: Seq<JobStatus>,
    include_none: bool,
)
    ensures
        param_paths(filter_param(p, dst, db, statuses, include_none), dst) == param_paths(
            p,
            dst,
        ).filter(|path: Seq<char>| path_kept(db, path, statuses, include_none)),
{
    lemma_map_filter(p.runs, param_dir(dst, p), db, statuses, include_none);
}

proof fn lemma_params_keep(
    ps: Seq<ParamView>,
    d: Seq<char>,
    db: RunStatuses,
    statuses: Seq<JobStatus>,
    include_none: bool,
)
    ensures
        params_paths(kept_params(ps, d, db, statuses, include_none), d) == params_paths(
            ps,
            d,
        ).filter(|path: Seq<char>| path_kept(db, path, statuses, include_none)),
    decreases ps.len(),
{
    let pp = |path: Seq<char>| path_kept(db, path, statuses, include_none);
    if ps.len() == 0 {
        reveal(Seq::filter);
        assert(params_paths(ps, d).filter(pp) =~= Seq::<Seq<char>>::empty());
    } else {
        lemma_params_keep(ps.drop_last(), d, db, statuses, include_none);
        law_param_keep_filters_paths(ps.last(), d, db, statuses, include_none);
        lemma_filter_add(params_paths(ps.drop_last(), d), param_paths(ps.last(), d), pp);
        let rest = kept_params(ps.drop_last(), d, db, statuses, include_none);
        let q = filter_param(ps.last(), d, db, statuses, include_none);
        if q.runs.len() > 0 {
            assert(rest.push(q).drop_last() == rest);
        } else {
            assert(param_paths(q, d) =~= Seq::<Seq<char>>::empty());
            assert(params_paths(rest, d) + Seq::<Seq<char>>::empty() == params_paths(rest, d));
        }
    }
}

/// Keeping the runs of a Sniper configuration keeps exactly those of its run directories
/// whose status is accepted, in the same order.
pub proof fn law_sim_keep_filters_paths(
    s: SimView,
    dst: Seq<char>,
    db: RunStatuses,
    statuses: Seq<JobStatus>,
    include_none: bool,
)
    ensures
        sim_paths(filter_sim(s, dst, db, statuses, include_none), dst) == sim_paths(s, dst).filter(
            |path: Seq<char>| path_kept(db, path, statuses, include_none),
        ),
{
    lemma_params_keep(s.params, sim_dir(dst, s), db, statuses, include_none);
}

proof fn lemma_sims_keep(
    ss: Seq<SimView>,
    dst: Seq<char>,
    db: RunStatuses,
    statuses: Seq<JobStatus>,
    include_none: bool,
)
    ensures
        sims_paths(kept_sims(ss, dst, db, statuses, include_none), dst) == sims_paths(
            ss,
            dst,
        ).filter(|path: Seq<char>| path_kept(db, path, statuses, include_none)),
    decreases ss.len(),
{
    let pp = |path: Seq<char>| path_kept(db, path, statuses, include_none);
    if ss.len() == 0 {
        reveal(Seq::filter);
        assert(sims_paths(ss, dst).filter(pp) =~= Seq::<Seq<char>>::empty());
    } else {
        lemma_sims_keep(ss.drop_last(), dst, db, statuses, include_none);
        law_sim_keep_filters_paths(ss.last(), dst, db, statuses, include_none);
        lemma_filter_add(sims_paths(ss.drop_last(), dst), sim_paths(ss.last(), dst), pp);
        let rest = kept_sims(ss.drop_last(), dst, db, statuses, include_none);
        let q = filter_sim(ss.last(), dst, db, statuses, include_none);
        if q.params.len() > 0 {
            assert(rest.push(q).drop_last() == rest);
        } else {
            assert(sim_paths(q, dst) =~= Seq::<Seq<char>>::empty());
            assert(sims_paths(rest, dst) + Seq::<Seq<char>>::empty() == sims_paths(rest, dst));
        }
    }
}

/// Keeping the runs of a suite keeps exactly those of its run directories whose status is
/// accepted, in the same order.
pub proof fn law_suite_keep_filters_paths(
    s: SuiteView,
    db: RunStatuses,
    statuses: Seq<JobStatus>,
    include_none: bool,
)
    ensures
        suite_paths(filter_suite(s, db, statuses, include_none)) == suite_paths(s).filter(
            |path: Seq<char>| path_kept(db, path, statuses, include_none),
        ),
{
    lemma_sims_keep(s.sims, s.dst, db, statuses, include_none);
}

/// `Experiment::keep_state` followed by `for_each_run_path` visits exactly the run
/// directories that `for_each_run_path` visited before and whose status is accepted
/// (one of `statuses`, or none while `include_none` holds), in the same order.
pub proof fn law_keep_state_filters_run_paths(
    exp: Seq<SuiteView>,
    db: RunStatuses,
    statuses: Seq<JobStatus>,
    include_none: bool,
)
    ensures
        suites_paths(kept_suites(exp, db, statuses, include_none)) == suites_paths(exp).filter(
            |path: Seq<char>| path_kept(db, path, statuses, include_none),
        ),
    decreases exp.len(),
{
    let pp = |path: Seq<char>| path_kept(db, path, statuses, include_none);
    if exp.len() == 0 {
        reveal(Seq::filter);
        assert(suites_paths(exp).filter(pp) =~= Seq::<Seq<char>>::empty());
    } else {
        law_keep_state_filters_run_paths(exp.drop_last(), db, statuses, include_none);
        law_suite_keep_filters_paths(exp.last(), db, statuses, include_none);
        lemma_filter_add(suites_paths(exp.drop_last()), suite_paths(exp.last()), pp);
        let rest = kept_suites(exp.drop_last(), db, statuses, include_none);
        let q = filter_suite(exp.last(), db, statuses, include_none);
        if q.sims.len() > 0 {
            assert(rest.push(q).drop_last() == rest);
        } else {
            assert(suite_paths(q) =~= Seq::<Seq<char>>::empty());
            assert(suites_paths(rest) + Seq::<Seq<char>>::empty() == suites_paths(rest));
        }
    }
}


proof fn lemma_kept_params_nonempty(
    ps: Seq<ParamView>,
    d: Seq<char>,
    db: RunStatuses,
    statuses: Seq<JobStatus>,
    include_none: bool,
)
    ensures
        kept_params(ps, d, db, statuses, include_none).len() > 0 ==> params_paths(
            kept_params(ps, d, db, statuses, include_none),
            d,
        ).len() > 0,
    decreases ps.len(),
{
    if ps.len() > 0 {
        lemma_kept_params_nonempty(ps.drop_last(), d, db, statuses, include_none);
        let rest = kept_params(ps.drop_last(), d, db, statuses, include_none);
        let q = filter_param(ps.last(), d, db, statuses, include_none);
        if q.runs.len() > 0 {
            assert(rest.push(q).drop_last() == rest);
            assert(param_paths(q, d).len() == q.runs.len());
        }
    }
}

proof fn lemma_kept_sims_nonempty(
    ss: Seq<SimView>,
    dst: Seq<char>,
    db: RunStatuses,
    statuses: Seq<JobStatus>,
    include_none: bool,
)
    ensures
        kept_sims(ss, dst, db, statuses, include_none).len() > 0 ==> sims_paths(
            kept_sims(ss, dst, db, statuses, include_none),
            dst,
        ).len() > 0,
    decreases ss.len(),
{
    if ss.len() > 0 {
        lemma_kept_sims_nonempty(ss.drop_last(), dst, db, statuses, include_none);
        let rest = kept_sims(ss.drop_last(), dst, db, statuses, include_none);
        let q = filter_sim(ss.last(), dst, db, statuses, include_none);
        if q.params.len() > 0 {
            assert(rest.push(q).drop_last() == rest);
            lemma_kept_params_nonempty(
                ss.last().params,
                sim_dir(dst, ss.last()),
                db,
                statuses,
                include_none,
            );
        }
    }
}

proof fn lemma_kept_suites_nonempty(
    exp: Seq<SuiteView>,
    db: RunStatuses,
    statuses: Seq<JobStatus>,
    include_none: bool,
)
    ensures
        kept_suites(exp, db, statuses, include_none).len() > 0 <==> suites_paths(
            kept_suites(exp, db, statuses, include_none),
        ).len() > 0,
    decreases exp.len(),
{
    if exp.len() > 0 {
        lemma_kept_suites_nonempty(exp.drop_last(), db, statuses, include_none);
        let rest = kept_suites(exp.drop_last(), db, statuses, include_none);
        let q = filter_suite(exp.last(), db, statuses, include_none);
        if q.sims.len() > 0 {
            assert(rest.push(q).drop_last() == rest);
            lemma_kept_sims_nonempty(exp.last().sims, exp.last().dst, db, statuses, include_none);
        }
    }
}

/// `Experiment::keep_state` reports that something is left exactly when some run
/// directory of the experiment has an accepted status.
pub proof fn law_keep_state_result(
    exp: Seq<SuiteView>,
    db: RunStatuses,
    statuses: Seq<JobStatus>,
    include_none: bool,
)
    ensures
        (kept_suites(exp, db, statuses, include_none).len() > 0) == (suites_paths(exp).filter(
            |path: Seq<char>| path_kept(db, path, statuses, include_none),
        ).len() > 0),
{
    law_keep_state_filters_run_paths(exp, db, statuses, include_none);
    lemma_kept_suites_nonempty(exp, db, statuses, include_none);
}


proof fn lemma_params_count(ps: Seq<ParamView>, d: Seq<char>)
    ensures
        params_count(ps) == params_paths(ps, d).len(),
    decreases ps.len(),
{
    if ps.len() > 0 {
        lemma_params_count(ps.drop_last(), d);
    }
}

/// The number of tasks of a Sniper configuration is the number of its run directories.
pub proof fn law_sim_number_task(s: SimView, dst: Seq<char>)
    ensures
        params_count(s.params) == sim_paths(s, dst).len(),
{
    lemma_params_count(s.params, sim_dir(dst, s));
}

proof fn lemma_sims_count(ss: Seq<SimView>, dst: Seq<char>)
    ensures
        sims_count(ss) == sims_paths(ss, dst).len(),
    decreases ss.len(),
{
    if ss.len() > 0 {
        lemma_sims_count(ss.drop_last(), dst);
        law_sim_number_task(ss.last(), dst);
    }
}

/// The number of tasks of a suite (the `<TASKS>` of its job file) is the number of run
/// directories that `for_each_run_path` visits.
pub proof fn law_suite_number_task(s: SuiteView)
    ensures
        sims_count(s.sims) == suite_paths(s).len(),
{
    lemma_sims_count(s.sims, s.dst);
}

/// The statuses of the runs that a submission (or a retry) sends: not yet submitted, or
/// failed.
pub open spec fn resubmit_statuses() -> Seq<JobStatus> {
    seq![JobStatus::TOSUBMIT, JobStatus::FAILED]
}

/// Runs that are done, submitted or retried are never submitted again: after
/// `keep_state` with the statuses `TOSUBMIT` and `FAILED` (and runs without status), every
/// run directory left has no status, or one of those two.
pub proof fn law_finished_runs_not_resubmitted(exp: Seq<SuiteView>, db: RunStatuses)
    ensures
        forall|k: int|
            0 <= k < suites_paths(kept_suites(exp, db, resubmit_statuses(), true)).len() ==> {
                let p = #[trigger] suites_paths(kept_suites(exp, db, resubmit_statuses(), true))[k];
                db.status_of(p) is None || db.status_of(p) == Some(JobStatus::TOSUBMIT) || db.status_of(p)
                    == Some(JobStatus::FAILED)
            },
{
    let statuses = resubmit_statuses();
    let pp = |path: Seq<char>| path_kept(db, path, statuses, true);
    law_keep_state_filters_run_paths(exp, db, statuses, true);
    let kept = suites_paths(kept_suites(exp, db, statuses, true));
    assert forall|k: int| 0 <= k < kept.len() implies {
        let p = #[trigger] kept[k];
        db.status_of(p) is None || db.status_of(p) == Some(JobStatus::TOSUBMIT) || db.status_of(p)
            == Some(JobStatus::FAILED)
    } by {
        suites_paths(exp).lemma_filter_pred(pp, k);
        assert(pp(kept[k]));
        match db.status_of(kept[k]) {
            Some(st) => {
                assert(statuses.contains(st));
                let w = choose|w: int| 0 <= w < statuses.len() && statuses[w] == st;
                assert(w == 0 || w == 1);
            },
            None => {},
        }
    }
}

} // verus!
