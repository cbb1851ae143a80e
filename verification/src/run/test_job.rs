use vstd::prelude::*;

use crate::paths::{join, path_join};

verus! {

/// The Sniper summary that a successful run leaves in its directory.
pub const SIM_OUT_FILE: &'static str = "sim.out";

/// The statistics database that a successful run leaves in its directory.
pub const SIM_STATS_FILE: &'static str = "sim.stats.sqlite3";

/// The two files whose sizes decide whether the run in `job_path` succeeded.
pub fn result_files(job_path: &str) -> (r: (String, String))
    ensures
        r.0@ == path_join(job_path@, SIM_OUT_FILE@),
        r.1@ == path_join(job_path@, SIM_STATS_FILE@),
{
    (join(job_path, SIM_OUT_FILE), join(job_path, SIM_STATS_FILE))
}

/// Whether a downloaded run succeeded: its directory exists and one of its
/// `result_files` is a non-empty file. Each size is that of the file, or `None`
/// when the file does not exist or cannot be opened or inspected.
pub fn job_succeed(dir_exists: bool, sim_out_size: Option<u64>, sim_stat_size: Option<u64>) -> (r:
    bool)
    ensures
        r == (dir_exists && ((sim_out_size matches Some(n) && n > 0) || (sim_stat_size matches Some(
            n,
        ) && n > 0))),
{
    let mut good_job = false;
    if dir_exists {
        good_job = good_job || test_non_empty_file(sim_out_size);
        good_job = good_job || test_non_empty_file(sim_stat_size);
    }
    good_job
}

/// Whether a file of the given size (`None`: absent or unreadable) is non-empty.
pub fn test_non_empty_file(size: Option<u64>) -> (r: bool)
    ensures
        r == (size matches Some(n) && n > 0),
{
    match size {
        Some(n) => n > 0,
        None => false,
    }
}

} // verus!
