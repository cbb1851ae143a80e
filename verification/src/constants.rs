use vstd::prelude::*;

verus! {

/// File in the results directory that records the submitted experiment.
pub const EXPERIMENT_DB_NAME: &'static str = "experiments.json";

/// File name of the local job database.
pub const CACHE_DB_NAME: &'static str = "job_info.sqlite3";

/// File in a configuration's directory that records its Sniper parameters.
pub const SNIPER_ARGUMENT_FILE_NAME: &'static str = "args.json";

/// Directory on the cluster from which job files are submitted.
pub const TITAN_SUBMIT_DIR: &'static str = "/home/slurmslave/jobs/submitted/.";

pub open spec fn titan_submit_dir() -> Seq<char> {
    TITAN_SUBMIT_DIR@
}

} // verus!
