use vstd::prelude::*;

use crate::paths::{file_name, file_name_of, file_stem, file_stem_of, join, path_join};
use crate::text::{
    append_chars, chars_of, contains_chars, decimal, decimal_chars, has_sub, lowercase, replace_all,
    replace_chars, string_of, to_lowercase, trim, trim_chars,
};

verus! {

/// The directory on the cluster that holds the Dockerfiles.
pub const DOCKERFILES_DIR: &'static str = "/home/slurmslave/Dockerfiles/";

/// The command that lists the Dockerfiles on the cluster.
pub const LIST_DOCKERFILES_COMMAND: &'static str = "ls -l /home/slurmslave/Dockefiles";

/// `s` without the characters `c` at its start.
pub open spec fn trim_start_char(s: Seq<char>, c: char) -> Seq<char>
    decreases s.len(),
{
    if s.len() > 0 && s[0] == c {
        trim_start_char(s.drop_first(), c)
    } else {
        s
    }
}

/// `s` without the characters `c` at its end.
pub open spec fn trim_end_char(s: Seq<char>, c: char) -> Seq<char>
    decreases s.len(),
{
    if s.len() > 0 && s.last() == c {
        trim_end_char(s.drop_last(), c)
    } else {
        s
    }
}

/// `s` without the characters `c` at either end (`str::trim_matches` with a character).
pub open spec fn trim_char(s: Seq<char>, c: char) -> Seq<char> {
    trim_end_char(trim_start_char(s, c), c)
}

/// `s` without the characters `c` at either end.
fn trim_char_chars(s: &Vec<char>, c: char) -> (r: Vec<char>)
    ensures
        r@ == trim_char(s@, c),
{
    let mut lo: usize = 0;
    assert(s@.skip(0) == s@);
    while lo < s.len() && s[lo] == c
        invariant
            lo <= s.len(),
            trim_start_char(s@, c) == trim_start_char(s@.skip(lo as int), c),
        decreases s.len() - lo,
    {
        assert(s@.skip(lo as int).drop_first() == s@.skip(lo + 1));
        lo += 1;
    }
    let mut hi: usize = s.len();
    let ghost mid = s@.skip(lo as int);
    assert(trim_start_char(mid, c) == mid);
    assert(mid == s@.subrange(lo as int, hi as int));
    while hi > lo && s[hi - 1] == c
        invariant
            lo <= hi <= s.len(),
            mid == s@.skip(lo as int),
            trim_end_char(mid, c) == trim_end_char(s@.subrange(lo as int, hi as int), c),
        decreases hi - lo,
    {
        assert(s@.subrange(lo as int, hi as int).drop_last() == s@.subrange(lo as int, hi - 1));
        hi -= 1;
    }
    crate::text::slice_of(s, lo, hi)
}

/// The name of the container that a Dockerfile builds: its file stem in lower case,
/// without `dockerfile`, and without `_` and then `-` at either end.
pub open spec fn container_name_spec(stem: Seq<char>) -> Seq<char> {
    trim_char(trim_char(replace_all(lowercase(stem), "dockerfile"@, Seq::empty()), '_'), '-')
}

/// The name of the container that the Dockerfile at `dockerfile_path` builds (see
/// `container_name_spec`); `None` when the path has no file name.
pub fn container_name(dockerfile_path: &str) -> (r: Option<String>)
    ensures
        match r {
            Some(n) => file_stem_of(dockerfile_path@) matches Some(stem) && n@ == container_name_spec(stem),
            None => file_stem_of(dockerfile_path@) is None,
        },
{
    let stem = match file_stem(dockerfile_path) {
        Some(s) => s,
        None => return None,
    };
    let lower = chars_of(to_lowercase(stem.as_str()).as_str());
    let empty: Vec<char> = Vec::new();
    let replaced = replace_chars(&lower, &chars_of("dockerfile"), &empty);
    let t1 = trim_char_chars(&replaced, '_');
    let t2 = trim_char_chars(&t1, '-');
    Some(string_of(&t2))
}

/// The command that copies the uploaded Dockerfile `remote` to every node and builds the
/// container `name` from it there.
pub open spec fn distribute_spec(remote: Seq<char>, name: Seq<char>) -> Seq<char> {
    "for node in {01..16}; do scp "@ + remote + " titan${node}:"@ + remote + "; ssh titan${node} 'docker build --no-cache -t "@
        + name + " -f "@ + remote + " "@ + DOCKERFILES_DIR@ + "' & done"@
}

/// The command that distributes the Dockerfile uploaded from `dockerfile_path` and builds
/// container `name` on every node; `None` when the path has no file name.
pub fn distribute_command(dockerfile_path: &str, name: &str) -> (r: Option<String>)
    ensures
        match r {
            Some(c) => file_name_of(dockerfile_path@) matches Some(f) && c@ == distribute_spec(
                path_join(DOCKERFILES_DIR@, f),
                name@,
            ),
            None => file_name_of(dockerfile_path@) is None,
        },
{
    let f = match file_name(dockerfile_path) {
        Some(f) => f,
        None => return None,
    };
    let remote = chars_of(join(DOCKERFILES_DIR, f.as_str()).as_str());
    let mut c = chars_of("for node in {01..16}; do scp ");
    append_chars(&mut c, &remote);
    append_chars(&mut c, &chars_of(" titan${node}:"));
    append_chars(&mut c, &remote);
    append_chars(&mut c, &chars_of("; ssh titan${node} 'docker build --no-cache -t "));
    append_chars(&mut c, &chars_of(name));
    append_chars(&mut c, &chars_of(" -f "));
    append_chars(&mut c, &remote);
    append_chars(&mut c, &chars_of(" "));
    append_chars(&mut c, &chars_of(DOCKERFILES_DIR));
    append_chars(&mut c, &chars_of("' & done"));
    Some(string_of(&c))
}

/// Whether the answer to the deletion question agrees: it holds a `y` once trimmed and
/// lower-cased.
pub fn confirmed(answer: &str) -> (r: bool)
    ensures
        r == has_sub(lowercase(trim(answer@)), "y"@),
{
    let t = string_of(&trim_chars(&chars_of(answer)));
    let l = chars_of(to_lowercase(t.as_str()).as_str());
    contains_chars(&l, &chars_of("y"))
}

/// The command that removes image `name` from the cluster's store, and the one that removes
/// its containers and image on a node.
pub fn delete_commands(name: &str) -> (r: (String, String))
    ensures
        r.0@ == "rm /home/slurmslave/virtualbox/"@ + name@,
        r.1@ == "docker ps -a --filter \"ancestor="@ + name@ + "\" -q | xargs -r docker rm -f; docker rmi -f "@
            + name@,
{
    let n = chars_of(name);
    let mut rm = chars_of("rm /home/slurmslave/virtualbox/");
    append_chars(&mut rm, &n);
    let mut un = chars_of("docker ps -a --filter \"ancestor=");
    append_chars(&mut un, &n);
    append_chars(&mut un, &chars_of("\" -q | xargs -r docker rm -f; docker rmi -f "));
    append_chars(&mut un, &n);
    (string_of(&rm), string_of(&un))
}

/// The decimal text of `n` with at least two digits (`{:02}`).
pub open spec fn two_digits(n: nat) -> Seq<char> {
    if n < 10 {
        seq!['0'] + decimal(n)
    } else {
        decimal(n)
    }
}

/// The command that runs `command` on node `node_nr`: `ssh titanNN <command>`.
pub fn node_command(node_nr: usize, command: &str) -> (r: String)
    ensures
        r@ == "ssh titan"@ + two_digits(node_nr as nat) + " "@ + command@,
{
    let mut c = chars_of("ssh titan");
    if node_nr < 10 {
        c.push('0');
    }
    append_chars(&mut c, &decimal_chars(node_nr));
    append_chars(&mut c, &chars_of(" "));
    append_chars(&mut c, &chars_of(command));
    string_of(&c)
}

} // verus!
