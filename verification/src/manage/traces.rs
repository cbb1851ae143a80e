use vstd::prelude::*;

use crate::paths::{file_name, file_name_of};
use crate::text::{append_chars, chars_of, string_of};

verus! {

/// The directory on the cluster that traces are uploaded to.
pub const TRACES_DIR: &'static str = "/home/slurmaslave/traces/sift";

/// The command that lists the traces on the cluster.
pub const LIST_TRACES_COMMAND: &'static str = "tree -d /home/slurmslave/traces";

/// The command that distributes the trace folder uploaded from `trace_path` to the nodes;
/// `None` when the path has no file name.
pub fn distribute_command(trace_path: &str) -> (r: Option<String>)
    ensures
        match r {
            Some(c) => file_name_of(trace_path@) matches Some(f) && c@
                == "/home/slurmadmin/scripts/distribute_VM.py "@ + TRACES_DIR@ + "/"@ + f,
            None => file_name_of(trace_path@) is None,
        },
{
    let f = match file_name(trace_path) {
        Some(f) => f,
        None => return None,
    };
    let mut c = chars_of("/home/slurmadmin/scripts/distribute_VM.py ");
    append_chars(&mut c, &chars_of(TRACES_DIR));
    append_chars(&mut c, &chars_of("/"));
    append_chars(&mut c, &chars_of(f.as_str()));
    Some(string_of(&c))
}

} // verus!
