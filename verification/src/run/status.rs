use vstd::prelude::*;

use crate::text::{chars_of, same_chars};

verus! {

/// Where a benchmark run stands.
#[allow(non_camel_case_types)]
#[derive(Debug, Clone, Copy, PartialEq, Eq, Structural)]
pub enum JobStatus {
    TOSUBMIT,
    SUBMITTED,
    DONE,
    FAILED,
    RETRIED,
}

/// The name under which a status is stored: the variant's name.
pub open spec fn status_name(s: JobStatus) -> Seq<char> {
    match s {
        JobStatus::TOSUBMIT => "TOSUBMIT"@,
        JobStatus::SUBMITTED => "SUBMITTED"@,
        JobStatus::DONE => "DONE"@,
        JobStatus::FAILED => "FAILED"@,
        JobStatus::RETRIED => "RETRIED"@,
    }
}

/// A text that names no status.
#[derive(Debug, Clone, Copy, PartialEq, Eq, Structural)]
pub struct UnknownStatus;

impl JobStatus {
    /// The name of the status.
    pub fn as_str(&self) -> (r: &'static str)
        ensures
            r@ == status_name(*self),
    {
        match self {
            JobStatus::TOSUBMIT => "TOSUBMIT",
            JobStatus::SUBMITTED => "SUBMITTED",
            JobStatus::DONE => "DONE",
            JobStatus::FAILED => "FAILED",
            JobStatus::RETRIED => "RETRIED",
        }
    }

    /// The status named `s` (the exact, case-sensitive variant name).
    pub fn from_name(s: &str) -> (r: Result<JobStatus, UnknownStatus>)
        ensures
            match r {
                Ok(st) => status_name(st) == s@,
                Err(_) => forall|st: JobStatus| status_name(st) != s@,
            },
    {
        let v = chars_of(s);
        let all = [
            JobStatus::TOSUBMIT,
            JobStatus::SUBMITTED,
            JobStatus::DONE,
            JobStatus::FAILED,
            JobStatus::RETRIED,
        ];
        let mut i: usize = 0;
        while i < 5
            invariant
                v@ == s@,
                i <= 5,
                all@ == seq![
                    JobStatus::TOSUBMIT,
                    JobStatus::SUBMITTED,
                    JobStatus::DONE,
                    JobStatus::FAILED,
                    JobStatus::RETRIED,
                ],
                forall|j: int| 0 <= j < i ==> status_name(#[trigger] all@[j]) != s@,
            decreases 5 - i,
        {
            let st = all[i];
            let name = chars_of(st.as_str());
            if same_chars(&v, &name) {
                return Ok(st);
            }
            i += 1;
        }
        proof {
            assert forall|st: JobStatus| status_name(st) != s@ by {
                match st {
                    JobStatus::TOSUBMIT => assert(status_name(all@[0]) != s@),
                    JobStatus::SUBMITTED => assert(status_name(all@[1]) != s@),
                    JobStatus::DONE => assert(status_name(all@[2]) != s@),
                    JobStatus::FAILED => assert(status_name(all@[3]) != s@),
                    JobStatus::RETRIED => assert(status_name(all@[4]) != s@),
                }
            }
        }
        Err(UnknownStatus)
    }
}

/// Each status has a name of its own, so reading back the name of a status gives that
/// status: `from_name(s.as_str())` is `Ok(s)`.
pub proof fn law_status_names_distinct(a: JobStatus, b: JobStatus)
    ensures
        status_name(a) == status_name(b) ==> a == b,
{
    reveal_strlit("TOSUBMIT");
    reveal_strlit("SUBMITTED");
    reveal_strlit("DONE");
    reveal_strlit("FAILED");
    reveal_strlit("RETRIED");
    if status_name(a) == status_name(b) && a != b {
        assert(status_name(a).len() == status_name(b).len());
        assert(status_name(a)[0] == status_name(b)[0]);
        assert(status_name(a)[1] == status_name(b)[1]);
    }
}

} // verus!
