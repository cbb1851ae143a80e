use vstd::prelude::*;

use crate::paths::{join, path_join};
use crate::run::db::RunStatuses;
use crate::run::status::JobStatus;
use crate::text::{decimal, decimal_chars, string_of};

verus! {

/// The directory of run `run_idx` under `dst`: `dst/<run_idx>`.
pub open spec fn run_dir(dst: Seq<char>, run_idx: usize) -> Seq<char> {
    path_join(dst, decimal(run_idx as nat))
}

/// Whether the run `run_idx` under `dst` stays: its recorded status is one of `statuses`,
/// or it has none and `include_none` holds.
pub open spec fn run_kept(
    db: RunStatuses,
    dst: Seq<char>,
    run_idx: usize,
    statuses: Seq<JobStatus>,
    include_none: bool,
) -> bool {
    match db.status_of(run_dir(dst, run_idx)) {
        Some(st) => statuses.contains(st),
        None => include_none,
    }
}

/// Whether `s` is among `statuses`.
pub fn status_in(statuses: &[JobStatus], s: JobStatus) -> (r: bool)
    ensures
        r == statuses@.contains(s),
{
    let mut i: usize = 0;
    while i < statuses.len()
        invariant
            i <= statuses.len(),
            forall|j: int| 0 <= j < i ==> statuses@[j] != s,
        decreases statuses.len() - i,
    {
        if statuses[i] == s {
            assert(statuses@[i as int] == s);
            return true;
        }
        i += 1;
    }
    false
}

/// One run of a benchmark, numbered within it.
#[derive(Debug, Clone, Copy)]
pub struct BenchmarkRun {
    pub run_idx: usize,
}

impl BenchmarkRun {
    /// `dst_path/<run_idx>`.
    pub fn get_dir(&self, dst_path: &str) -> (r: String)
        ensures
            r@ == run_dir(dst_path@, self.run_idx),
    {
        let n = string_of(&decimal_chars(self.run_idx));
        join(dst_path, n.as_str())
    }

    /// Whether this run (under `dst_path`) has one of `statuses`, or no status while
    /// `include_none` holds.
    pub fn keep_state(
        &self,
        db: &RunStatuses,
        dst_path: &str,
        statuses: &[JobStatus],
        include_none: &bool,
    ) -> (r: bool)
        ensures
            r == run_kept(*db, dst_path@, self.run_idx, statuses@, *include_none),
    {
        let benchmark_path = self.get_dir(dst_path);
        match db.get_status(benchmark_path.as_str()) {
            Some(status) => status_in(statuses, status),
            None => *include_none,
        }
    }

    /// The directory of this run under `base_path`, the one path it contributes.
    pub fn for_each_run_path(&self, base_path: &str) -> (r: Vec<String>)
        ensures
            r@.len() == 1,
            r@[0]@ == run_dir(base_path@, self.run_idx),
    {
        let mut r: Vec<String> = Vec::new();
        r.push(self.get_dir(base_path));
        r
    }
}

} // verus!
