use vstd::prelude::*;

use crate::run::benchmark_suite::{filter_suite, suite_paths, BenchmarkSuite, SuiteView};
use crate::run::db::RunStatuses;
use crate::run::status::JobStatus;

verus! {

/// The run directories of the suites `ss`, suite after suite.
pub open spec fn suites_paths(ss: Seq<SuiteView>) -> Seq<Seq<char>>
    decreases ss.len(),
{
    if ss.len() == 0 {
        Seq::empty()
    } else {
        suites_paths(ss.drop_last()) + suite_paths(ss.last())
    }
}

/// The suites `ss` with only their kept runs, without those left empty.
pub open spec fn kept_suites(
    ss: Seq<SuiteView>,
    db: RunStatuses,
    statuses: Seq<JobStatus>,
    include_none: bool,
) -> Seq<SuiteView>
    decreases ss.len(),
{
    if ss.len() == 0 {
        Seq::empty()
    } else {
        let rest = kept_suites(ss.drop_last(), db, statuses, include_none);
        let q = filter_suite(ss.last(), db, statuses, include_none);
        if q.sims.len() > 0 {
            rest.push(q)
        } else {
            rest
        }
    }
}

pub open spec fn suite_views(v: Seq<BenchmarkSuite>) -> Seq<SuiteView> {
    v.map_values(|s: BenchmarkSuite| s@)
}

/// An experiment: its benchmark suites, one job each.
#[derive(Debug)]
pub struct Experiment {
    pub benchmark_suites: Vec<BenchmarkSuite>,
}

impl View for Experiment {
    type V = Seq<SuiteView>;

    open spec fn view(&self) -> Seq<SuiteView> {
        suite_views(self.benchmark_suites@)
    }
}

impl Experiment {
    /// Keeps only the runs that have one of `statuses` (or no status, when `include_none`
    /// holds), drops what is left empty, and tells whether anything is left.
    pub fn keep_state(&mut self, db: &RunStatuses, statuses: &[JobStatus], include_none: &bool) -> (r:
        bool)
        ensures
            final(self)@ == kept_suites(old(self)@, *db, statuses@, *include_none),
            r == (final(self)@.len() > 0),
    {
        let ghost olds = self@;
        let mut old_suites: Vec<BenchmarkSuite> = Vec::new();
        std::mem::swap(&mut old_suites, &mut self.benchmark_suites);
        let mut kept: Vec<BenchmarkSuite> = Vec::new();
        proof {
            assert(olds.take(0) =~= Seq::<SuiteView>::empty());
            assert(suite_views(kept@) =~= Seq::<SuiteView>::empty());
        }
        let n = old_suites.len();
        let mut rest = old_suites;
        let mut taken: Vec<BenchmarkSuite> = Vec::new();
        while rest.len() > 0
            invariant
                rest.len() + taken.len() == n,
                n == olds.len(),
                forall|j: int| 0 <= j < taken.len() ==> (#[trigger] taken@[j])@ == olds[n - 1 - j],
                forall|j: int| 0 <= j < rest.len() ==> (#[trigger] rest@[j])@ == olds[j],
            decreases rest.len(),
        {
            let p = rest.pop().unwrap();
            taken.push(p);
        }
        let mut i: usize = 0;
        while taken.len() > 0
            invariant
                i + taken.len() == n,
                n == olds.len(),
                forall|j: int| 0 <= j < taken.len() ==> (#[trigger] taken@[j])@ == olds[n - 1 - j],
                suite_views(kept@) == kept_suites(olds.take(i as int), *db, statuses@, *include_none),
            decreases taken.len(),
        {
            let mut s = taken.pop().unwrap();
            assert(s@ == olds[i as int]);
            let keep = s.keep_state(db, statuses, include_none);
            proof {
                assert(olds.take(i + 1).drop_last() == olds.take(i as int));
                assert(olds.take(i + 1).last() == olds[i as int]);
            }
            if keep {
                let ghost k0 = kept@;
                kept.push(s);
                assert(suite_views(kept@) =~= suite_views(k0).push(s@));
            }
            i += 1;
        }
        assert(olds.take(i as int) == olds);
        self.benchmark_suites = kept;
        self.benchmark_suites.len() > 0
    }

    /// The run directories of the experiment, suite after suite.
    pub fn for_each_run_path(&self) -> (r: Vec<String>)
        ensures
            r@.map_values(|s: String| s@) == suites_paths(self@),
    {
        let ghost ss = self@;
        let mut r: Vec<String> = Vec::new();
        let mut i: usize = 0;
        assert(ss.take(0) =~= Seq::<SuiteView>::empty());
        assert(r@.map_values(|s: String| s@) =~= Seq::<Seq<char>>::empty());
        while i < self.benchmark_suites.len()
            invariant
                ss == self@,
                i <= self.benchmark_suites.len(),
                r@.map_values(|s: String| s@) == suites_paths(ss.take(i as int)),
            decreases self.benchmark_suites.len() - i,
        {
            let mut more = self.benchmark_suites[i].for_each_run_path();
            let ghost r0 = r@;
            let ghost m0 = more@;
            r.append(&mut more);
            proof {
                assert(ss.take(i + 1).drop_last() == ss.take(i as int));
                assert(ss.take(i + 1).last() == self.benchmark_suites@[i as int]@);
                assert(r@ == r0 + m0);
                assert(r@.map_values(|s: String| s@) =~= r0.map_values(|s: String| s@)
                    + m0.map_values(|s: String| s@));
            }
            i += 1;
        }
        assert(ss.take(i as int) == ss);
        r
    }
}

} // verus!
