use vstd::prelude::*;

use crate::run::status::JobStatus;
use crate::text::{append_chars, chars_of, decimal, decimal_chars, same_chars, string_of};

verus! {

/// The status of the first entry for `path` in `entries`.
pub open spec fn lookup_status(entries: Seq<(Seq<char>, JobStatus)>, path: Seq<char>) -> Option<
    JobStatus,
>
    decreases entries.len(),
{
    if entries.len() == 0 {
        None
    } else if entries[0].0 == path {
        Some(entries[0].1)
    } else {
        lookup_status(entries.drop_first(), path)
    }
}

pub open spec fn status_views(v: Seq<(String, JobStatus)>) -> Seq<(Seq<char>, JobStatus)> {
    v.map_values(|e: (String, JobStatus)| (e.0@, e.1))
}

/// The statuses that the experiments database holds for run directories: a run whose
/// directory is not listed has no (readable) status.
#[derive(Debug)]
pub struct RunStatuses {
    pub entries: Vec<(String, JobStatus)>,
}

impl RunStatuses {
    /// The status recorded for `path`.
    pub open spec fn status_of(&self, path: Seq<char>) -> Option<JobStatus> {
        lookup_status(status_views(self.entries@), path)
    }

    /// The status recorded for `path`.
    pub fn get_status(&self, path: &str) -> (r: Option<JobStatus>)
        ensures
            r == self.status_of(path@),
    {
        let ghost all = status_views(self.entries@);
        let pv = chars_of(path);
        let mut i: usize = 0;
        assert(all.skip(0) == all);
        while i < self.entries.len()
            invariant
                all == status_views(self.entries@),
                pv@ == path@,
                i <= self.entries.len(),
                lookup_status(all, path@) == lookup_status(all.skip(i as int), path@),
            decreases self.entries.len() - i,
        {
            let ghost rest = all.skip(i as int);
            assert(rest[0] == (self.entries@[i as int].0@, self.entries@[i as int].1));
            assert(rest.drop_first() == all.skip(i + 1));
            let ev = chars_of(self.entries[i].0.as_str());
            if same_chars(&ev, &pv) {
                return Some(self.entries[i].1);
            }
            i += 1;
        }
        None
    }
}

/// The SLURM name of a task, `<job_id>_<task_idx>`, when both are known.
pub fn get_job_task_format(job_id: &Option<String>, task_idx: Option<usize>) -> (r: Option<String>)
    ensures
        match (job_id, task_idx) {
            (Some(j), Some(t)) => r is Some && r.unwrap()@ == j@ + "_"@ + decimal(t as nat),
            _ => r is None,
        },
{
    match (job_id, task_idx) {
        (Some(j), Some(t)) => {
            let mut v = chars_of(j.as_str());
            let sep = chars_of("_");
            append_chars(&mut v, &sep);
            let n = decimal_chars(t);
            append_chars(&mut v, &n);
            Some(string_of(&v))
        },
        _ => None,
    }
}

} // verus!
