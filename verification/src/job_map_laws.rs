use vstd::prelude::*;

use crate::job_data::{
    changed_bench, changed_exp, changed_job, exps_count, kept_benches, kept_exps, kept_job, kept_jobs, BenchView,
    ExpArgView, JobArgView,
};
use crate::run::status::JobStatus;
use crate::seqs::lemma_filter_push;

verus! {

proof fn lemma_filter_idempotent<A>(s: Seq<A>, pred: spec_fn(A) -> bool)
    ensures
        s.filter(pred).filter(pred) == s.filter(pred),
    decreases s.len(),
{
    if s.len() == 0 {
        reveal(Seq::filter);
        assert(s.filter(pred) =~= s);
    } else {
        let q = s.drop_last();
        let e = s.last();
        assert(s == q.push(e));
        lemma_filter_idempotent(q, pred);
        lemma_filter_push(q, pred, e);
        if pred(e) {
            lemma_filter_push(q.filter(pred), pred, e);
        }
    }
}

/// Every run of `kept_benches(bs, statuses)` has one of `statuses`, and it holds every run
/// of `bs` that has one.
proof fn lemma_kept_benches(bs: Seq<BenchView>, statuses: Seq<JobStatus>)
    ensures
        forall|j: int|
            0 <= j < kept_benches(bs, statuses).len() ==> statuses.contains(
                (#[trigger] kept_benches(bs, statuses)[j]).status,
            ),
{
    let pred = |b: BenchView| statuses.contains(b.status);
    assert forall|j: int| 0 <= j < bs.filter(pred).len() implies pred(#[trigger] bs.filter(pred)[j]) by {
        bs.lemma_filter_pred(pred, j);
    }
}

/// Keeping the runs with one of `statuses` leaves only such runs, and no configuration
/// without runs.
pub proof fn law_keep_tasks_accepted(es: Seq<ExpArgView>, statuses: Seq<JobStatus>)
    ensures
        forall|i: int|
            0 <= i < kept_exps(es, statuses).len() ==> (#[trigger] kept_exps(es, statuses)[i]).benches.len() > 0,
        forall|i: int, j: int|
            0 <= i < kept_exps(es, statuses).len() && 0 <= j < kept_exps(es, statuses)[i].benches.len()
                ==> statuses.contains((#[trigger] kept_exps(es, statuses)[i].benches[j]).status),
    decreases es.len(),
{
    if es.len() > 0 {
        law_keep_tasks_accepted(es.drop_last(), statuses);
        lemma_kept_benches(es.last().benches, statuses);
    }
}

/// Keeping the runs with one of `statuses` a second time changes nothing.
pub proof fn law_keep_tasks_idempotent(es: Seq<ExpArgView>, statuses: Seq<JobStatus>)
    ensures
        kept_exps(kept_exps(es, statuses), statuses) == kept_exps(es, statuses),
    decreases es.len(),
{
    if es.len() > 0 {
        let rest = kept_exps(es.drop_last(), statuses);
        let q = ExpArgView { benches: kept_benches(es.last().benches, statuses), ..es.last() };
        law_keep_tasks_idempotent(es.drop_last(), statuses);
        if q.benches.len() > 0 {
            let k = rest.push(q);
            assert(k.drop_last() == rest);
            assert(k.last() == q);
            lemma_filter_idempotent(es.last().benches, |b: BenchView| statuses.contains(b.status));
            assert(ExpArgView { benches: kept_benches(q.benches, statuses), ..q } == q);
        }
    }
}

/// Moving every run (no old status given) to `new_state` leaves every run with that status.
pub proof fn law_change_all(j: JobArgView, new_state: JobStatus)
    ensures
        forall|i: int, k: int|
            0 <= i < changed_job(j, None, new_state).exps.len() && 0 <= k < changed_job(
                j,
                None,
                new_state,
            ).exps[i].benches.len() ==> (#[trigger] changed_job(j, None, new_state).exps[i].benches[k]).status
                == new_state,
{
}

/// Moving the runs with status `old_state` to another status leaves no run with
/// `old_state`, and changes no run that had another status.
pub proof fn law_change_moves_only_old(j: JobArgView, old_state: JobStatus, new_state: JobStatus)
    requires
        old_state != new_state,
    ensures
        changed_job(j, Some(old_state), new_state).exps.len() == j.exps.len(),
        forall|i: int| 0 <= i < j.exps.len() ==>
            (#[trigger] changed_job(j, Some(old_state), new_state).exps[i]).benches.len() == j.exps[i].benches.len(),
        forall|i: int, k: int|
            0 <= i < j.exps.len() && 0 <= k < j.exps[i].benches.len() ==> {
                let b = #[trigger] changed_job(j, Some(old_state), new_state).exps[i].benches[k];
                &&& b.status != old_state
                &&& j.exps[i].benches[k].status != old_state ==> b == j.exps[i].benches[k]
                &&& j.exps[i].benches[k].status == old_state ==> b == BenchView {
                    status: new_state,
                    ..j.exps[i].benches[k]
                }
            },
{
}

/// Changing statuses keeps the number of runs.
pub proof fn law_change_keeps_count(es: Seq<ExpArgView>, old_state: Option<JobStatus>, new_state: JobStatus)
    ensures
        exps_count(es.map_values(|e: ExpArgView| changed_exp(e, old_state, new_state))) == exps_count(es),
    decreases es.len(),
{
    if es.len() > 0 {
        let f = |e: ExpArgView| changed_exp(e, old_state, new_state);
        law_change_keeps_count(es.drop_last(), old_state, new_state);
        assert(es.map_values(f).drop_last() == es.drop_last().map_values(f));
    }
}

/// The runs of the configurations `es`, configuration after configuration.
pub open spec fn exps_runs(es: Seq<ExpArgView>) -> Seq<BenchView>
    decreases es.len(),
{
    if es.len() == 0 {
        Seq::empty()
    } else {
        exps_runs(es.drop_last()) + es.last().benches
    }
}

/// The runs of the jobs `js`, job after job.
pub open spec fn jobs_runs(js: Seq<JobArgView>) -> Seq<BenchView>
    decreases js.len(),
{
    if js.len() == 0 {
        Seq::empty()
    } else {
        jobs_runs(js.drop_last()) + exps_runs(js.last().exps)
    }
}

/// Whether run `b` has one of `statuses`.
pub open spec fn accepted(statuses: Seq<JobStatus>) -> spec_fn(BenchView) -> bool {
    |b: BenchView| statuses.contains(b.status)
}

proof fn lemma_exps_runs_kept(es: Seq<ExpArgView>, statuses: Seq<JobStatus>)
    ensures
        exps_runs(kept_exps(es, statuses)) == exps_runs(es).filter(accepted(statuses)),
    decreases es.len(),
{
    let pred = accepted(statuses);
    if es.len() == 0 {
        reveal(Seq::filter);
        assert(exps_runs(es).filter(pred) =~= Seq::<BenchView>::empty());
    } else {
        let q = es.drop_last();
        let e = es.last();
        lemma_exps_runs_kept(q, statuses);
        let rest = kept_exps(q, statuses);
        let kb = kept_benches(e.benches, statuses);
        assert(kb == e.benches.filter(pred)) by {
            assert((|b: BenchView| statuses.contains(b.status)) =~= pred);
        }
        Seq::filter_distributes_over_add(exps_runs(q), e.benches, pred);
        let qv = ExpArgView { benches: kb, ..e };
        if kb.len() > 0 {
            assert(rest.push(qv).drop_last() == rest);
            assert(exps_runs(rest.push(qv)) == exps_runs(rest) + kb);
        } else {
            assert(kb =~= Seq::<BenchView>::empty());
            assert(exps_runs(rest) + kb =~= exps_runs(rest));
        }
    }
}

/// Keeping the runs with one of `statuses` keeps exactly those runs: the runs of the kept
/// jobs, job after job, configuration after configuration, are the runs of the job map
/// that have one of `statuses`, in the same order; no accepted run is dropped and no other
/// is kept.
pub proof fn law_keep_tasks_keeps_accepted_runs(js: Seq<JobArgView>, statuses: Seq<JobStatus>)
    ensures
        jobs_runs(kept_jobs(js, statuses)) == jobs_runs(js).filter(|b: BenchView| statuses.contains(b.status)),
    decreases js.len(),
{
    let pred = accepted(statuses);
    assert((|b: BenchView| statuses.contains(b.status)) =~= pred);
    if js.len() == 0 {
        reveal(Seq::filter);
        assert(jobs_runs(js).filter(pred) =~= Seq::<BenchView>::empty());
    } else {
        let q = js.drop_last();
        let j = js.last();
        law_keep_tasks_keeps_accepted_runs(q, statuses);
        lemma_exps_runs_kept(j.exps, statuses);
        Seq::filter_distributes_over_add(jobs_runs(q), exps_runs(j.exps), pred);
        let rest = kept_jobs(q, statuses);
        let kj = kept_job(j, statuses);
        if kj.exps.len() > 0 {
            assert(rest.push(kj).drop_last() == rest);
            assert(jobs_runs(rest.push(kj)) == jobs_runs(rest) + exps_runs(kj.exps));
        } else {
            assert(exps_runs(kj.exps) =~= Seq::<BenchView>::empty());
            assert(jobs_runs(rest) + exps_runs(kj.exps) =~= jobs_runs(rest));
        }
    }
}

} // verus!
