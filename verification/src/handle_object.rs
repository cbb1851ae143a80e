use vstd::prelude::*;

use crate::text::{append_chars, chars_of, lowercase, same_chars, string_of, to_lowercase};

verus! {

/// What a command of the command line acts on.
#[derive(Clone, Copy, Debug, PartialEq, Eq, Structural)]
#[allow(non_camel_case_types)]
pub enum HandleObject {
    Job,
    VM,
    Trace,
}

/// The object that the lower-cased word `lower` names.
pub open spec fn handle_object_of(lower: Seq<char>) -> Option<HandleObject> {
    if lower == "job"@ || lower == "jobs"@ {
        Some(HandleObject::Job)
    } else if lower == "vm"@ || lower == "vms"@ {
        Some(HandleObject::VM)
    } else if lower == "trace"@ || lower == "traces"@ {
        Some(HandleObject::Trace)
    } else {
        None
    }
}

impl HandleObject {
    /// Reads the object of a command, whatever its case: `job`/`jobs`, `vm`/`vms` or
    /// `trace`/`traces`; any other word is refused with a message that names the choices.
    pub fn parse_titan_obj(arg: &str) -> (r: Result<HandleObject, String>)
        ensures
            match r {
                Ok(o) => handle_object_of(lowercase(arg@)) == Some(o),
                Err(m) => handle_object_of(lowercase(arg@)) is None && m@ == arg@
                    + " is not a recognized option, choose: Job|VM|Trace"@,
            },
    {
        let l = chars_of(to_lowercase(arg).as_str());
        if same_chars(&l, &chars_of("job")) || same_chars(&l, &chars_of("jobs")) {
            Ok(HandleObject::Job)
        } else if same_chars(&l, &chars_of("vm")) || same_chars(&l, &chars_of("vms")) {
            Ok(HandleObject::VM)
        } else if same_chars(&l, &chars_of("trace")) || same_chars(&l, &chars_of("traces")) {
            Ok(HandleObject::Trace)
        } else {
            let mut m = chars_of(arg);
            append_chars(&mut m, &chars_of(" is not a recognized option, choose: Job|VM|Trace"));
            Err(string_of(&m))
        }
    }
}

} // verus!
