use vstd::prelude::*;

use crate::text::{append_chars, chars_of, has_sub, lowercase, string_of, to_lowercase, contains_chars};

verus! {

/// The command that lists the virtual machines on the cluster.
pub const PRINT_VMS_COMMAND: &'static str = "tree -d -L 1 /home/slurmslave/virtualbox";

/// The command that lists the traces on the cluster.
pub const PRINT_TRACES_COMMAND: &'static str = "tree -d /home/slurmslave/traces";

/// Whether the answer to the deletion question agrees: it holds a `y` once lower-cased.
pub fn confirmed(answer: &str) -> (r: bool)
    ensures
        r == has_sub(lowercase(answer@), "y"@),
{
    let l = chars_of(to_lowercase(answer).as_str());
    contains_chars(&l, &chars_of("y"))
}

/// The command that removes virtual machine `vm_name` from the cluster's store, and the
/// one that unregisters and deletes it on a node.
pub fn delete_vm_commands(vm_name: &str) -> (r: (String, String))
    ensures
        r.0@ == "rm -r /home/slurmslave/virtualbox/"@ + vm_name@,
        r.1@ == "VBoxManage unregistervm "@ + vm_name@ + " --delete"@,
{
    let n = chars_of(vm_name);
    let mut rm = chars_of("rm -r /home/slurmslave/virtualbox/");
    append_chars(&mut rm, &n);
    let mut un = chars_of("VBoxManage unregistervm ");
    append_chars(&mut un, &n);
    append_chars(&mut un, &chars_of(" --delete"));
    (string_of(&rm), string_of(&un))
}

} // verus!
