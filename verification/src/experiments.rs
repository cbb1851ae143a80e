use vstd::prelude::*;

use crate::constants::EXPERIMENT_DB_NAME;
use crate::paths::{file_name, file_name_of, join, path_join};
use crate::run::config_parse::string_views;
use crate::job_data::{
    bench_views, exp_views, exps_count, job_views, Arguments, BenchView, BenchmarkArgument, ExpArgView,
    ExperimentArgument, JobArgView, JobArgument,
};
use crate::run::status::JobStatus;
use crate::strmap::StrMap;
use crate::json_model::{jat, jentries, jget, jhas, jmembers, jstr, jtext, json_of, parse_json, Json};
use crate::text::{
    append_chars, chars_of, decimal, decimal_chars, lowercase, parse_usize, parse_usize_spec,
    replace_all, replace_chars, same_chars, slice_of, string_of, to_lowercase, to_uppercase,
    uppercase,
};

verus! {

/// How the benchmarks of a suite are run.
#[derive(Debug, Clone, Copy, PartialEq, Eq, Structural)]
#[allow(non_camel_case_types)]
pub enum ExperimentType {
    BINARY,
    TRACE,
    PINBALL,
}

/// The experiment type that the lower-cased name `lower` stands for.
pub open spec fn experiment_type_of(lower: Seq<char>) -> Option<ExperimentType> {
    if lower == "binary"@ || lower == "binaries"@ {
        Some(ExperimentType::BINARY)
    } else if lower == "trace"@ || lower == "traces"@ {
        Some(ExperimentType::TRACE)
    } else if lower == "pinball"@ || lower == "pinballs"@ {
        Some(ExperimentType::PINBALL)
    } else {
        None
    }
}

impl ExperimentType {
    /// Reads a type name, whatever its case: `binary`/`binaries`, `trace`/`traces` or
    /// `pinball`/`pinballs`.
    pub fn from_str(input: &str) -> (r: Result<ExperimentType, ()>)
        ensures
            match r {
                Ok(t) => experiment_type_of(lowercase(input@)) == Some(t),
                Err(_) => experiment_type_of(lowercase(input@)) is None,
            },
    {
        let lower = to_lowercase(input);
        let l = chars_of(lower.as_str());
        if same_chars(&l, &chars_of("binary")) || same_chars(&l, &chars_of("binaries")) {
            Ok(ExperimentType::BINARY)
        } else if same_chars(&l, &chars_of("trace")) || same_chars(&l, &chars_of("traces")) {
            Ok(ExperimentType::TRACE)
        } else if same_chars(&l, &chars_of("pinball")) || same_chars(&l, &chars_of("pinballs")) {
            Ok(ExperimentType::PINBALL)
        } else {
            Err(())
        }
    }
}

/// The virtual machine that a mount line is written for.
#[derive(Debug, Clone, Copy, PartialEq, Eq, Structural)]
#[allow(non_camel_case_types)]
pub enum VmType {
    VBOX,
    DOCKER,
}

/// `s` without the suffix `suf`, when it ends with it.
pub open spec fn strip_suffix(s: Seq<char>, suf: Seq<char>) -> Option<Seq<char>> {
    if s.len() >= suf.len() && s.skip(s.len() - suf.len()) == suf {
        Some(s.take(s.len() - suf.len()))
    } else {
        None
    }
}

/// `s` without the suffix `suf`, when it ends with it.
pub fn strip_suffix_chars(s: &Vec<char>, suf: &Vec<char>) -> (r: Option<Vec<char>>)
    ensures
        match r {
            Some(v) => strip_suffix(s@, suf@) == Some(v@),
            None => strip_suffix(s@, suf@) is None,
        },
{
    if s.len() < suf.len() {
        return None;
    }
    let start = s.len() - suf.len();
    let tail = slice_of(s, start, s.len());
    if same_chars(&tail, suf) {
        assert(s@.skip(start as int) == s@.subrange(start as int, s.len() as int));
        let head = slice_of(s, 0, start);
        assert(s@.take(start as int) == s@.subrange(0, start as int));
        Some(head)
    } else {
        assert(s@.skip(start as int) == s@.subrange(start as int, s.len() as int));
        None
    }
}

/// The checkout lines of the git entries `es` (`<repo>_branch: <branch>`): one
/// `checkout_git_repo <repo> <branch>` line each. `None` where a key lacks the `_branch`
/// suffix or a branch is not a string.
pub open spec fn git_lines(es: Seq<(String, Json)>) -> Option<Seq<char>>
    decreases es.len(),
{
    if es.len() == 0 {
        Some(Seq::empty())
    } else {
        match (git_lines(es.drop_last()), strip_suffix(es.last().0@, "_branch"@), jstr(es.last().1)) {
            (Some(p), Some(repo), Some(branch)) => Some(
                p + "checkout_git_repo "@ + repo + " "@ + branch + "\n"@,
            ),
            _ => None,
        }
    }
}

/// The checkout lines of the `git` entry of `obj` (none when it has no such entry).
pub open spec fn git_repos_spec(obj: Json) -> Option<Seq<char>> {
    if jhas(obj, "git"@) {
        git_lines(jentries(jget(obj, "git"@)))
    } else {
        Some(Seq::empty())
    }
}

/// The mount line of git repository `repo` (upper-cased `up`) for `vm`.
pub open spec fn git_mount_line(repo: Seq<char>, up: Seq<char>, vm: VmType) -> Seq<char> {
    match vm {
        VmType::VBOX => "mount_vbox "@ + repo + "_mount /home/slurmslave/"@ + repo + "/${"@ + up
            + "_GIT_ID}\n"@,
        VmType::DOCKER => "-v /home/slurmslave/"@ + repo + "/${"@ + up + "_GIT_ID}:${"@ + repo
            + "_mount} \\\n\t"@,
    }
}

/// The mount lines of the git entries `es` for `vm`. `None` where a key lacks the
/// `_branch` suffix.
pub open spec fn git_mount_lines(es: Seq<(String, Json)>, vm: VmType) -> Option<Seq<char>>
    decreases es.len(),
{
    if es.len() == 0 {
        Some(Seq::empty())
    } else {
        match (git_mount_lines(es.drop_last(), vm), strip_suffix(es.last().0@, "_branch"@)) {
            (Some(p), Some(repo)) => Some(p + git_mount_line(repo, uppercase(repo), vm)),
            _ => None,
        }
    }
}

/// The mount line of the extra mount `name` from host path `host` for `vm`.
pub open spec fn extra_mount_line(name: Seq<char>, host: Seq<char>, vm: VmType) -> Seq<char> {
    match vm {
        VmType::VBOX => "mount_vbox "@ + name + " "@ + host + "\n"@,
        VmType::DOCKER => "-v "@ + host + ":${"@ + name + "} \\\n\t"@,
    }
}

/// The mount lines of the extra mounts `es` (`<name>: <host path>`) for `vm`, skipping
/// those whose path is `none` in any case. `None` where a path is not a string.
pub open spec fn extra_mount_lines(es: Seq<(String, Json)>, vm: VmType) -> Option<Seq<char>>
    decreases es.len(),
{
    if es.len() == 0 {
        Some(Seq::empty())
    } else {
        match (extra_mount_lines(es.drop_last(), vm), jstr(es.last().1)) {
            (Some(p), Some(host)) => Some(
                if lowercase(host) == "none"@ {
                    p
                } else {
                    p + extra_mount_line(es.last().0@, host, vm)
                },
            ),
            _ => None,
        }
    }
}

/// The mount lines of `obj` for `vm`: its git repositories first, then its `vm_mount`
/// entries.
pub open spec fn vm_mounts_spec(obj: Json, vm: VmType) -> Option<Seq<char>> {
    let g = if jhas(obj, "git"@) {
        git_mount_lines(jentries(jget(obj, "git"@)), vm)
    } else {
        Some(Seq::empty())
    };
    let m = if jhas(obj, "vm_mount"@) {
        extra_mount_lines(jentries(jget(obj, "vm_mount"@)), vm)
    } else {
        Some(Seq::empty())
    };
    match (g, m) {
        (Some(a), Some(b)) => Some(a + b),
        _ => None,
    }
}

/// The memory of a job: cores per experiment times memory per core, both read as
/// integers from their text. `None` where either does not read or the product overflows.
pub open spec fn tot_memory_spec(exp: Json) -> Option<usize> {
    let job = jget(exp, "job"@);
    match (jtext(jget(job, "core_per_experiment"@), Seq::empty()), jtext(jget(job, "mem_per_core"@), Seq::empty())) {
        (Some(c), Some(m)) => match (parse_usize_spec(c), parse_usize_spec(m)) {
            (Some(a), Some(b)) => if a * b <= usize::MAX {
                Some((a * b) as usize)
            } else {
                None
            },
            _ => None,
        },
        _ => None,
    }
}

/// Appends the text `t` to `v`.
fn push_str(v: &mut Vec<char>, t: &str)
    ensures
        final(v)@ == old(v)@ + t@,
{
    let tv = chars_of(t);
    append_chars(v, &tv);
}

/// The checkout lines of the `git` entry of `obj`.
pub fn get_git_repos(obj: &Json) -> (r: Option<String>)
    ensures
        match r {
            Some(s) => git_repos_spec(*obj) == Some(s@),
            None => git_repos_spec(*obj) is None,
        },
{
    let git = match obj.field("git") {
        Some(g) => g,
        None => {
            proof {
                reveal_strlit("git");
            }
            return Some(String::new());
        },
    };
    proof {
        reveal_strlit("git");
    }
    let es = match git.entries() {
        Some(e) => e,
        None => {
            assert(git_lines(jentries(*git)) == Some(Seq::<char>::empty()));
            return Some(String::new());
        },
    };
    let suf = chars_of("_branch");
    let mut out: Vec<char> = Vec::new();
    let mut i: usize = 0;
    assert(es@.take(0) =~= Seq::<(String, Json)>::empty());
    while i < es.len()
        invariant
            suf@ == "_branch"@,
            jhas(*obj, "git"@),
            es@ == jentries(jget(*obj, "git"@)),
            i <= es.len(),
            git_lines(es@.take(i as int)) == Some(out@),
        decreases es.len() - i,
    {
        assert(es@.take(i + 1).drop_last() =~= es@.take(i as int));
        assert(es@.take(i + 1).last() == es@[i as int]);
        let key = chars_of(es[i].0.as_str());
        let repo = match strip_suffix_chars(&key, &suf) {
            Some(r) => r,
            None => {
                proof {
                    lemma_git_lines_none(es@, i as int + 1);
                }
                return None;
            },
        };
        let branch = match &es[i].1 {
            Json::Str(b) => b,
            _ => {
                proof {
                    lemma_git_lines_none(es@, i as int + 1);
                }
                return None;
            },
        };
        push_str(&mut out, "checkout_git_repo ");
        append_chars(&mut out, &repo);
        push_str(&mut out, " ");
        push_str(&mut out, branch.as_str());
        push_str(&mut out, "\n");
        i += 1;
    }
    assert(es@.take(i as int) =~= es@);
    Some(string_of(&out))
}

proof fn lemma_mount_lines_none(es: Seq<(String, Json)>, vm: VmType, k: int, git: bool)
    requires
        0 <= k <= es.len(),
        git ==> git_mount_lines(es.take(k), vm) is None,
        !git ==> extra_mount_lines(es.take(k), vm) is None,
    ensures
        git ==> git_mount_lines(es, vm) is None,
        !git ==> extra_mount_lines(es, vm) is None,
    decreases es.len() - k,
{
    if k < es.len() {
        assert(es.take(k + 1).drop_last() =~= es.take(k));
        lemma_mount_lines_none(es, vm, k + 1, git);
    } else {
        assert(es.take(k) =~= es);
    }
}

/// The mount lines of the git entries `es` for `vm`.
#[verifier::spinoff_prover]
fn git_mounts(es: &Vec<(String, Json)>, vm: VmType) -> (r: Option<Vec<char>>)
    ensures
        match r {
            Some(v) => git_mount_lines(es@, vm) == Some(v@),
            None => git_mount_lines(es@, vm) is None,
        },
{
    let suf = chars_of("_branch");
    let mut out: Vec<char> = Vec::new();
    let mut i: usize = 0;
    assert(es@.take(0) =~= Seq::<(String, Json)>::empty());
    while i < es.len()
        invariant
            suf@ == "_branch"@,
            i <= es.len(),
            git_mount_lines(es@.take(i as int), vm) == Some(out@),
        decreases es.len() - i,
    {
        assert(es@.take(i + 1).drop_last() =~= es@.take(i as int));
        assert(es@.take(i + 1).last() == es@[i as int]);
        let key = chars_of(es[i].0.as_str());
        let repo = match strip_suffix_chars(&key, &suf) {
            Some(r) => r,
            None => {
                proof {
                    lemma_mount_lines_none(es@, vm, i as int + 1, true);
                }
                return None;
            },
        };
        let repo_s = string_of(&repo);
        let up = to_uppercase(repo_s.as_str());
        match vm {
            VmType::VBOX => {
                push_str(&mut out, "mount_vbox ");
                append_chars(&mut out, &repo);
                push_str(&mut out, "_mount /home/slurmslave/");
                append_chars(&mut out, &repo);
                push_str(&mut out, "/${");
                push_str(&mut out, up.as_str());
                push_str(&mut out, "_GIT_ID}\n");
            },
            VmType::DOCKER => {
                push_str(&mut out, "-v /home/slurmslave/");
                append_chars(&mut out, &repo);
                push_str(&mut out, "/${");
                push_str(&mut out, up.as_str());
                push_str(&mut out, "_GIT_ID}:${");
                append_chars(&mut out, &repo);
                push_str(&mut out, "_mount} \\\n\t");
            },
        }
        i += 1;
    }
    assert(es@.take(i as int) =~= es@);
    Some(out)
}

/// The mount lines of the extra mounts `es` for `vm`.
fn extra_mounts(es: &Vec<(String, Json)>, vm: VmType) -> (r: Option<Vec<char>>)
    ensures
        match r {
            Some(v) => extra_mount_lines(es@, vm) == Some(v@),
            None => extra_mount_lines(es@, vm) is None,
        },
{
    let none = chars_of("none");
    let mut out: Vec<char> = Vec::new();
    let mut i: usize = 0;
    assert(es@.take(0) =~= Seq::<(String, Json)>::empty());
    while i < es.len()
        invariant
            none@ == "none"@,
            i <= es.len(),
            extra_mount_lines(es@.take(i as int), vm) == Some(out@),
        decreases es.len() - i,
    {
        assert(es@.take(i + 1).drop_last() =~= es@.take(i as int));
        assert(es@.take(i + 1).last() == es@[i as int]);
        let host = match &es[i].1 {
            Json::Str(h) => h,
            _ => {
                proof {
                    lemma_mount_lines_none(es@, vm, i as int + 1, false);
                }
                return None;
            },
        };
        let lower = to_lowercase(host.as_str());
        if !same_chars(&chars_of(lower.as_str()), &none) {
            match vm {
                VmType::VBOX => {
                    push_str(&mut out, "mount_vbox ");
                    push_str(&mut out, es[i].0.as_str());
                    push_str(&mut out, " ");
                    push_str(&mut out, host.as_str());
                    push_str(&mut out, "\n");
                },
                VmType::DOCKER => {
                    push_str(&mut out, "-v ");
                    push_str(&mut out, host.as_str());
                    push_str(&mut out, ":${");
                    push_str(&mut out, es[i].0.as_str());
                    push_str(&mut out, "} \\\n\t");
                },
            }
        }
        i += 1;
    }
    assert(es@.take(i as int) =~= es@);
    Some(out)
}

/// The mount lines of `obj` for `vm`: its git repositories first, then its `vm_mount`
/// entries (except those whose path is `none`).
pub fn get_vm_mounts(obj: &Json, vm: VmType) -> (r: Option<String>)
    ensures
        match r {
            Some(s) => vm_mounts_spec(*obj, vm) == Some(s@),
            None => vm_mounts_spec(*obj, vm) is None,
        },
{
    proof {
        reveal_strlit("git");
        reveal_strlit("vm_mount");
    }
    let empty: Vec<(String, Json)> = Vec::new();
    let g = match obj.field("git") {
        Some(git) => match git.entries() {
            Some(es) => git_mounts(es, vm),
            None => git_mounts(&empty, vm),
        },
        None => Some(Vec::new()),
    };
    let g = match g {
        Some(g) => g,
        None => return None,
    };
    let m = match obj.field("vm_mount") {
        Some(mnt) => match mnt.entries() {
            Some(es) => extra_mounts(es, vm),
            None => extra_mounts(&empty, vm),
        },
        None => Some(Vec::new()),
    };
    let m = match m {
        Some(m) => m,
        None => return None,
    };
    let mut out = g;
    append_chars(&mut out, &m);
    Some(string_of(&out))
}

/// The memory of a job (see `tot_memory_spec`).
pub fn get_tot_memory(exp: &Json) -> (r: Option<usize>)
    ensures
        r == tot_memory_spec(*exp),
{
    proof {
        reveal_strlit("job");
        reveal_strlit("core_per_experiment");
        reveal_strlit("mem_per_core");
        reveal_strlit("");
        assert(""@ =~= Seq::<char>::empty());
    }
    let null = Json::Null;
    let job = match exp.field("job") {
        Some(j) => j,
        None => &null,
    };
    let cores = match job.field("core_per_experiment") {
        Some(c) => c.text(""),
        None => null.text(""),
    };
    let mem = match job.field("mem_per_core") {
        Some(m) => m.text(""),
        None => null.text(""),
    };
    let (c, m) = match (cores, mem) {
        (Some(c), Some(m)) => (c, m),
        _ => return None,
    };
    let a = match parse_usize(&chars_of(c.as_str())) {
        Ok(a) => a,
        Err(_) => return None,
    };
    let b = match parse_usize(&chars_of(m.as_str())) {
        Ok(b) => b,
        Err(_) => return None,
    };
    a.checked_mul(b)
}

/// The keys of the entries `es`, in order.
pub open spec fn entry_keys(es: Seq<(String, Json)>) -> Seq<Seq<char>> {
    es.map_values(|e: (String, Json)| e.0@)
}

/// The names of the Sniper parameters: the keys of the `values` of the first parameter set.
pub open spec fn sniper_keys_spec(exp: Json) -> Seq<Seq<char>> {
    entry_keys(jentries(jget(jat(jget(jget(exp, "sniper_parameters"@), "parameters"@), 0), "values"@)))
}

/// The names of the Sniper parameters, in the order of the first parameter set.
pub fn get_sniper_argument_keys(exp: &Json) -> (r: Vec<String>)
    ensures
        string_views(r@) == sniper_keys_spec(*exp),
{
    proof {
        reveal_strlit("sniper_parameters");
        reveal_strlit("parameters");
        reveal_strlit("values");
    }
    let null = Json::Null;
    let sp = match exp.field("sniper_parameters") {
        Some(x) => x,
        None => &null,
    };
    let ps = match sp.field("parameters") {
        Some(x) => x,
        None => &null,
    };
    let first = match ps.members() {
        Some(ms) => if ms.len() > 0 {
            &ms[0]
        } else {
            &null
        },
        None => &null,
    };
    let vals = match first.field("values") {
        Some(x) => x,
        None => &null,
    };
    let mut keys: Vec<String> = Vec::new();
    match vals.entries() {
        Some(es) => {
            let mut i: usize = 0;
            assert(entry_keys(es@.take(0)) =~= string_views(keys@));
            while i < es.len()
                invariant
                    es@ == jentries(*vals),
                    i <= es.len(),
                    string_views(keys@) == entry_keys(es@.take(i as int)),
                decreases es.len() - i,
            {
                let ghost k0 = keys@;
                let k = es[i].0.clone();
                keys.push(k);
                assert(es@.take(i + 1) =~= es@.take(i as int).push(es@[i as int]));
                assert(string_views(keys@) =~= string_views(k0).push(k@));
                assert(entry_keys(es@.take(i + 1)) =~= entry_keys(es@.take(i as int)).push(es@[i as int].0@));
                i += 1;
            }
            assert(es@.take(i as int) =~= es@);
        },
        None => {
            assert(string_views(keys@) =~= entry_keys(jentries(*vals)));
        },
    }
    keys
}

/// A combination of parameter values, one per parameter name.
pub type Combo = Seq<Seq<char>>;

/// `s` without its first `n` elements (empty when it has fewer).
pub open spec fn drop_front<A>(s: Seq<A>, n: int) -> Seq<A> {
    if 0 <= n <= s.len() {
        s.skip(n)
    } else {
        Seq::empty()
    }
}

/// The texts of the members `ms`, each without separator. `None` where one fails.
pub open spec fn texts_of(ms: Seq<Json>) -> Option<Seq<Seq<char>>>
    decreases ms.len(),
{
    if ms.len() == 0 {
        Some(Seq::empty())
    } else {
        match (texts_of(ms.drop_last()), jtext(ms.last(), Seq::empty())) {
            (Some(p), Some(t)) => Some(p.push(t)),
            _ => None,
        }
    }
}

/// Each of `ts` put in front of each of `next`, `ts` in the outer order.
pub open spec fn cross(ts: Seq<Seq<char>>, next: Seq<Combo>) -> Seq<Combo>
    decreases ts.len(),
{
    if ts.len() == 0 {
        Seq::empty()
    } else {
        cross(ts.drop_last(), next) + next.map_values(|nv: Combo| seq![ts.last()] + nv)
    }
}

/// All combinations of the values listed for each of `keys` in `values`, the first key
/// varying slowest (the first combination takes the first value of each key). `None`
/// where a value that is used fails to read.
pub open spec fn product_mix(keys: Seq<Seq<char>>, values: Json) -> Option<Seq<Combo>>
    decreases keys.len(),
{
    if keys.len() == 0 {
        Some(Seq::empty())
    } else {
        let ms = jmembers(jget(values, keys[0]));
        if keys.len() == 1 {
            match texts_of(ms) {
                Some(ts) => Some(ts.map_values(|t: Seq<char>| seq![t])),
                None => None,
            }
        } else {
            match product_mix(keys.drop_first(), values) {
                None => None,
                Some(next) => if next.len() == 0 {
                    Some(Seq::empty())
                } else {
                    match texts_of(ms) {
                        Some(ts) => Some(cross(ts, next)),
                        None => None,
                    }
                },
            }
        }
    }
}

/// The first value listed for each of `keys` in `values`.
pub open spec fn defaults_of(keys: Seq<Seq<char>>, values: Json) -> Option<Combo>
    decreases keys.len(),
{
    if keys.len() == 0 {
        Some(Seq::empty())
    } else {
        match (defaults_of(keys.drop_last(), values), jtext(jat(jget(values, keys.last()), 0), Seq::empty())) {
            (Some(p), Some(t)) => Some(p.push(t)),
            _ => None,
        }
    }
}

/// For each of the first `i` keys in turn, the defaults `d` with that key set to each of
/// its other values.
pub open spec fn variants(keys: Seq<Seq<char>>, values: Json, d: Combo, i: int) -> Option<Seq<Combo>>
    decreases i,
{
    if i <= 0 {
        Some(Seq::empty())
    } else {
        match (variants(keys, values, d, i - 1), texts_of(drop_front(jmembers(jget(values, keys[i - 1])), 1))) {
            (Some(p), Some(ts)) => Some(p + ts.map_values(|t: Seq<char>| d.update(i - 1, t))),
            _ => None,
        }
    }
}

/// The defaults first, then the combinations that change one key from its default.
pub open spec fn single_mix(keys: Seq<Seq<char>>, values: Json) -> Option<Seq<Combo>> {
    if keys.len() == 0 {
        Some(Seq::empty())
    } else {
        match defaults_of(keys, values) {
            None => None,
            Some(d) => match variants(keys, values, d, keys.len() as int) {
                Some(vs) => Some(seq![d] + vs),
                None => None,
            },
        }
    }
}

/// The combinations of parameter set `pv`: its `mix` (`product` or `single`, in any case;
/// none for another mix), without the first (the base) when `include_base` is `"true"`.
pub open spec fn param_combos(pv: Json, keys: Seq<Seq<char>>) -> Option<Seq<Combo>> {
    match jtext(jget(pv, "mix"@), Seq::empty()) {
        None => None,
        Some(mix) => {
            let l = lowercase(mix);
            let c = if l == "product"@ {
                product_mix(keys, jget(pv, "values"@))
            } else if l == "single"@ {
                single_mix(keys, jget(pv, "values"@))
            } else {
                Some(Seq::empty())
            };
            match c {
                None => None,
                Some(cs) => Some(
                    if jstr(jget(pv, "include_base"@)) == Some("true"@) && cs.len() > 0 {
                        cs.drop_first()
                    } else {
                        cs
                    },
                ),
            }
        },
    }
}

/// The combinations of the parameter sets `pvs`, set after set.
pub open spec fn all_combos(pvs: Seq<Json>, keys: Seq<Seq<char>>) -> Option<Seq<Combo>>
    decreases pvs.len(),
{
    if pvs.len() == 0 {
        Some(Seq::empty())
    } else {
        match (all_combos(pvs.drop_last(), keys), param_combos(pvs.last(), keys)) {
            (Some(p), Some(c)) => Some(p + c),
            _ => None,
        }
    }
}

/// `s` with each element only at its first occurrence.
pub open spec fn dedup(s: Seq<Combo>) -> Seq<Combo>
    decreases s.len(),
{
    if s.len() == 0 {
        Seq::empty()
    } else {
        let d = dedup(s.drop_last());
        if d.contains(s.last()) {
            d
        } else {
            d.push(s.last())
        }
    }
}

/// The Sniper parameter combinations of an experiment: those of each parameter set, each
/// kept once, in order.
pub open spec fn sniper_arguments_spec(exp: Json, keys: Seq<Seq<char>>) -> Option<Seq<Combo>> {
    match all_combos(jmembers(jget(jget(exp, "sniper_parameters"@), "parameters"@)), keys) {
        Some(cs) => Some(dedup(cs)),
        None => None,
    }
}

/// The views of a list of combinations.
pub open spec fn combo_views(v: Seq<Vec<String>>) -> Seq<Combo> {
    v.map_values(|c: Vec<String>| string_views(c@))
}

proof fn lemma_combo_views_push(v: Seq<Vec<String>>, c: Vec<String>)
    ensures
        combo_views(v.push(c)) == combo_views(v).push(string_views(c@)),
{
    assert(combo_views(v.push(c)) =~= combo_views(v).push(string_views(c@)));
}

/// The texts of the members `ms`.
fn member_texts(ms: &Vec<Json>, from: usize) -> (r: Option<Vec<String>>)
    ensures
        match r {
            Some(v) => texts_of(drop_front(ms@, from as int)) == Some(string_views(v@)),
            None => texts_of(drop_front(ms@, from as int)) is None,
        },
{
    proof {
        reveal_strlit("");
        assert(""@ =~= Seq::<char>::empty());
    }
    let mut out: Vec<String> = Vec::new();
    if from >= ms.len() {
        assert(drop_front(ms@, from as int) =~= Seq::<Json>::empty());
        assert(string_views(out@) =~= Seq::<Seq<char>>::empty());
        return Some(out);
    }
    let ghost rest = ms@.skip(from as int);
    let mut i: usize = from;
    assert(rest.take(0) =~= Seq::<Json>::empty());
    assert(string_views(out@) =~= Seq::<Seq<char>>::empty());
    while i < ms.len()
        invariant
            from <= i <= ms.len(),
            rest == ms@.skip(from as int),
            ""@ == Seq::<char>::empty(),
            texts_of(rest.take(i - from)) == Some(string_views(out@)),
        decreases ms.len() - i,
    {
        assert(rest.take(i - from + 1).drop_last() =~= rest.take(i - from));
        assert(rest.take(i - from + 1).last() == ms@[i as int]);
        match ms[i].text("") {
            Some(t) => {
                let ghost o0 = out@;
                out.push(t);
                assert(string_views(out@) =~= string_views(o0).push(t@));
            },
            None => {
                proof {
                    lemma_texts_none(rest, i - from + 1);
                }
                return None;
            },
        }
        i += 1;
    }
    assert(rest.take(i - from) =~= rest);
    Some(out)
}

proof fn lemma_texts_none(ms: Seq<Json>, k: int)
    requires
        0 <= k <= ms.len(),
        texts_of(ms.take(k)) is None,
    ensures
        texts_of(ms) is None,
    decreases ms.len() - k,
{
    if k < ms.len() {
        assert(ms.take(k + 1).drop_last() =~= ms.take(k));
        lemma_texts_none(ms, k + 1);
    } else {
        assert(ms.take(k) =~= ms);
    }
}

/// A copy of a list of strings.
fn copy_strings(v: &Vec<String>) -> (r: Vec<String>)
    ensures
        string_views(r@) == string_views(v@),
{
    let mut out: Vec<String> = Vec::new();
    let mut i: usize = 0;
    while i < v.len()
        invariant
            i <= v.len(),
            string_views(out@) == string_views(v@.take(i as int)),
        decreases v.len() - i,
    {
        let ghost o0 = out@;
        out.push(v[i].clone());
        assert(string_views(out@) =~= string_views(o0).push(v@[i as int]@));
        assert(v@.take(i + 1) =~= v@.take(i as int).push(v@[i as int]));
        assert(string_views(v@.take(i + 1)) =~= string_views(v@.take(i as int)).push(v@[i as int]@));
        i += 1;
    }
    assert(v@.take(i as int) =~= v@);
    out
}

/// Whether two lists of strings are equal.
fn same_strings(a: &Vec<String>, b: &Vec<String>) -> (r: bool)
    ensures
        r == (string_views(a@) == string_views(b@)),
{
    if a.len() != b.len() {
        assert(string_views(a@).len() != string_views(b@).len());
        return false;
    }
    let mut i: usize = 0;
    while i < a.len()
        invariant
            a.len() == b.len(),
            i <= a.len(),
            forall|j: int| 0 <= j < i ==> a@[j]@ == b@[j]@,
        decreases a.len() - i,
    {
        if a[i] != b[i] {
            assert(string_views(a@)[i as int] != string_views(b@)[i as int]);
            return false;
        }
        i += 1;
    }
    assert(string_views(a@) =~= string_views(b@));
    true
}

/// `values[key]`, `Null` when missing.
fn value_at<'a>(values: &'a Json, key: &str, null: &'a Json) -> (r: &'a Json)
    requires
        *null == Json::Null,
    ensures
        *r == jget(*values, key@),
{
    match values.field(key) {
        Some(x) => x,
        None => null,
    }
}

/// The members of `v`, none when it is not an array.
fn members_of<'a>(v: &'a Json, empty: &'a Vec<Json>) -> (r: &'a Vec<Json>)
    requires
        empty@.len() == 0,
    ensures
        r@ == jmembers(*v),
{
    match v.members() {
        Some(m) => m,
        None => empty,
    }
}

/// Appends to `out`, for each combination of `next`, `t` followed by that combination.
fn prefix_all(t: &String, next: &Vec<Vec<String>>, out: &mut Vec<Vec<String>>)
    ensures
        combo_views(final(out)@) == combo_views(old(out)@) + combo_views(next@).map_values(
            |nv: Combo| seq![t@] + nv,
        ),
{
    let ghost o0 = combo_views(out@);
    let ghost nvs = combo_views(next@);
    let mut j: usize = 0;
    assert(nvs.take(0).map_values(|nv: Combo| seq![t@] + nv) =~= Seq::<Combo>::empty());
    assert(combo_views(out@) =~= o0 + nvs.take(0).map_values(|nv: Combo| seq![t@] + nv));
    while j < next.len()
        invariant
            nvs == combo_views(next@),
            j <= next.len(),
            combo_views(out@) == o0 + nvs.take(j as int).map_values(|nv: Combo| seq![t@] + nv),
        decreases next.len() - j,
    {
        let mut c: Vec<String> = Vec::new();
        c.push(t.clone());
        let rest = copy_strings(&next[j]);
        let mut k: usize = 0;
        assert(string_views(c@) =~= seq![t@] + string_views(rest@).take(0));
        while k < rest.len()
            invariant
                k <= rest.len(),
                string_views(c@) == seq![t@] + string_views(rest@).take(k as int),
            decreases rest.len() - k,
        {
            let ghost c0 = c@;
            c.push(rest[k].clone());
            assert(string_views(c@) =~= string_views(c0).push(rest@[k as int]@));
            assert(string_views(rest@).take(k + 1) =~= string_views(rest@).take(k as int).push(rest@[k as int]@));
            k += 1;
        }
        assert(string_views(rest@).take(k as int) =~= string_views(rest@));
        assert(nvs[j as int] == string_views(next@[j as int]@));
        let ghost out0 = out@;
        out.push(c);
        proof {
            lemma_combo_views_push(out0, c);
            assert(nvs.take(j + 1) =~= nvs.take(j as int).push(nvs[j as int]));
            assert(nvs.take(j + 1).map_values(|nv: Combo| seq![t@] + nv) =~= nvs.take(j as int).map_values(
                |nv: Combo| seq![t@] + nv,
            ).push(seq![t@] + nvs[j as int]));
        }
        j += 1;
    }
    assert(nvs.take(j as int) =~= nvs);
}

/// All combinations of the values of `keys[start..]` in `values` (see `product_mix`).
fn product_from(keys: &Vec<String>, start: usize, values: &Json) -> (r: Option<Vec<Vec<String>>>)
    requires
        start <= keys.len(),
    ensures
        match r {
            Some(v) => product_mix(string_views(keys@).skip(start as int), *values) == Some(combo_views(v@)),
            None => product_mix(string_views(keys@).skip(start as int), *values) is None,
        },
    decreases keys.len() - start,
{
    let ghost ks = string_views(keys@).skip(start as int);
    let mut out: Vec<Vec<String>> = Vec::new();
    if start == keys.len() {
        assert(ks.len() == 0);
        assert(combo_views(out@) =~= Seq::<Combo>::empty());
        return Some(out);
    }
    assert(ks[0] == keys@[start as int]@);
    let null = Json::Null;
    let empty: Vec<Json> = Vec::new();
    let vk = value_at(values, keys[start].as_str(), &null);
    let ms = members_of(vk, &empty);
    if start + 1 == keys.len() {
        let ts = match member_texts(ms, 0) {
            Some(ts) => ts,
            None => {
                assert(drop_front(ms@, 0) == ms@);
                return None;
            },
        };
        assert(drop_front(ms@, 0) == ms@);
        let mut i: usize = 0;
        assert(combo_views(out@) =~= string_views(ts@).take(0).map_values(|t: Seq<char>| seq![t]));
        while i < ts.len()
            invariant
                i <= ts.len(),
                combo_views(out@) == string_views(ts@).take(i as int).map_values(|t: Seq<char>| seq![t]),
            decreases ts.len() - i,
        {
            let mut c: Vec<String> = Vec::new();
            c.push(ts[i].clone());
            assert(string_views(c@) =~= seq![ts@[i as int]@]);
            let ghost o0 = out@;
            out.push(c);
            proof {
                lemma_combo_views_push(o0, c);
                assert(string_views(ts@).take(i + 1) =~= string_views(ts@).take(i as int).push(ts@[i as int]@));
                assert(string_views(ts@).take(i + 1).map_values(|t: Seq<char>| seq![t]) =~= string_views(ts@).take(
                    i as int,
                ).map_values(|t: Seq<char>| seq![t]).push(seq![ts@[i as int]@]));
            }
            i += 1;
        }
        assert(string_views(ts@).take(i as int) =~= string_views(ts@));
        return Some(out);
    }
    assert(ks.drop_first() =~= string_views(keys@).skip(start + 1));
    let next = match product_from(keys, start + 1, values) {
        Some(n) => n,
        None => return None,
    };
    if next.len() == 0 {
        assert(combo_views(out@) =~= Seq::<Combo>::empty());
        return Some(out);
    }
    let ts = match member_texts(ms, 0) {
        Some(ts) => ts,
        None => {
            assert(drop_front(ms@, 0) == ms@);
            return None;
        },
    };
    assert(drop_front(ms@, 0) == ms@);
    let ghost tv = string_views(ts@);
    let ghost nv = combo_views(next@);
    let mut i: usize = 0;
    assert(tv.take(0) =~= Seq::<Seq<char>>::empty());
    assert(combo_views(out@) =~= cross(tv.take(0), nv));
    while i < ts.len()
        invariant
            tv == string_views(ts@),
            nv == combo_views(next@),
            i <= ts.len(),
            combo_views(out@) == cross(tv.take(i as int), nv),
        decreases ts.len() - i,
    {
        prefix_all(&ts[i], &next, &mut out);
        assert(tv.take(i + 1).drop_last() =~= tv.take(i as int));
        assert(tv.take(i + 1).last() == ts@[i as int]@);
        i += 1;
    }
    assert(tv.take(i as int) =~= tv);
    Some(out)
}

/// All combinations of the values of `keys` in `values` (see `product_mix`).
pub fn create_parameter_product_mix(keys: &Vec<String>, values: &Json) -> (r: Option<Vec<Vec<String>>>)
    ensures
        match r {
            Some(v) => product_mix(string_views(keys@), *values) == Some(combo_views(v@)),
            None => product_mix(string_views(keys@), *values) is None,
        },
{
    assert(string_views(keys@).skip(0) =~= string_views(keys@));
    product_from(keys, 0, values)
}

proof fn lemma_defaults_none(keys: Seq<Seq<char>>, values: Json, k: int)
    requires
        0 <= k <= keys.len(),
        defaults_of(keys.take(k), values) is None,
    ensures
        defaults_of(keys, values) is None,
    decreases keys.len() - k,
{
    if k < keys.len() {
        assert(keys.take(k + 1).drop_last() =~= keys.take(k));
        lemma_defaults_none(keys, values, k + 1);
    } else {
        assert(keys.take(k) =~= keys);
    }
}

proof fn lemma_defaults_len(keys: Seq<Seq<char>>, values: Json)
    ensures
        defaults_of(keys, values) matches Some(d) ==> d.len() == keys.len(),
    decreases keys.len(),
{
    if keys.len() > 0 {
        lemma_defaults_len(keys.drop_last(), values);
    }
}

proof fn lemma_variants_none(keys: Seq<Seq<char>>, values: Json, d: Combo, k: int, n: int)
    requires
        0 <= k <= n,
        variants(keys, values, d, k) is None,
    ensures
        variants(keys, values, d, n) is None,
    decreases n - k,
{
    if k < n {
        lemma_variants_none(keys, values, d, k, n - 1);
    }
}

/// The defaults, then the combinations that change one key from its default (see
/// `single_mix`).
pub fn create_parameter_single_mix(keys: &Vec<String>, values: &Json) -> (r: Option<Vec<Vec<String>>>)
    ensures
        match r {
            Some(v) => single_mix(string_views(keys@), *values) == Some(combo_views(v@)),
            None => single_mix(string_views(keys@), *values) is None,
        },
{
    let ghost ks = string_views(keys@);
    let mut out: Vec<Vec<String>> = Vec::new();
    if keys.len() == 0 {
        assert(combo_views(out@) =~= Seq::<Combo>::empty());
        return Some(out);
    }
    proof {
        reveal_strlit("");
        assert(""@ =~= Seq::<char>::empty());
    }
    let null = Json::Null;
    let empty: Vec<Json> = Vec::new();
    let mut defaults: Vec<String> = Vec::new();
    let mut i: usize = 0;
    assert(ks.take(0) =~= Seq::<Seq<char>>::empty());
    assert(string_views(defaults@) =~= Seq::<Seq<char>>::empty());
    while i < keys.len()
        invariant
            ks == string_views(keys@),
            null == Json::Null,
            empty@.len() == 0,
            ""@ == Seq::<char>::empty(),
            keys.len() > 0,
            i <= keys.len(),
            defaults_of(ks.take(i as int), *values) == Some(string_views(defaults@)),
        decreases keys.len() - i,
    {
        let vk = value_at(values, keys[i].as_str(), &null);
        let ms = members_of(vk, &empty);
        let first = if ms.len() > 0 {
            &ms[0]
        } else {
            &null
        };
        assert(*first == crate::json_model::jat(*vk, 0));
        assert(ks.take(i + 1).drop_last() =~= ks.take(i as int));
        assert(ks.take(i + 1).last() == keys@[i as int]@);
        match first.text("") {
            Some(t) => {
                let ghost d0 = defaults@;
                defaults.push(t);
                assert(string_views(defaults@) =~= string_views(d0).push(t@));
            },
            None => {
                proof {
                    lemma_defaults_none(ks, *values, i + 1);
                }
                return None;
            },
        }
        i += 1;
    }
    assert(ks.take(i as int) =~= ks);
    let ghost d = string_views(defaults@);
    proof {
        lemma_defaults_len(ks, *values);
    }
    out.push(copy_strings(&defaults));
    assert(combo_views(out@) =~= seq![d]);
    let mut i: usize = 0;
    while i < keys.len()
        invariant
            ks == string_views(keys@),
            d == string_views(defaults@),
            null == Json::Null,
            empty@.len() == 0,
            keys.len() > 0,
            defaults_of(ks, *values) == Some(d),
            i <= keys.len(),
            defaults@.len() == keys.len(),
            variants(ks, *values, d, i as int) matches Some(vs) && combo_views(out@) == seq![d] + vs,
        decreases keys.len() - i,
    {
        let vk = value_at(values, keys[i].as_str(), &null);
        let ms = members_of(vk, &empty);
        let ts = match member_texts(ms, 1) {
            Some(ts) => ts,
            None => {
                proof {
                    lemma_variants_none(ks, *values, d, i + 1, ks.len() as int);
                }
                return None;
            },
        };
        let ghost tv = string_views(ts@);
        let ghost vs0 = variants(ks, *values, d, i as int).unwrap();
        let ghost out0 = combo_views(out@);
        let mut j: usize = 0;
        assert(tv.take(0).map_values(|t: Seq<char>| d.update(i as int, t)) =~= Seq::<Combo>::empty());
        assert(out0 + tv.take(0).map_values(|t: Seq<char>| d.update(i as int, t)) =~= out0);
        while j < ts.len()
            invariant
                tv == string_views(ts@),
                d == string_views(defaults@),
                i < keys.len(),
                defaults@.len() == keys.len(),
                j <= ts.len(),
                combo_views(out@) == out0 + tv.take(j as int).map_values(|t: Seq<char>| d.update(i as int, t)),
            decreases ts.len() - j,
        {
            let mut c = copy_strings(&defaults);
            assert(c@.len() == string_views(c@).len());
            let ghost c0 = c@;
            c.set(i, ts[j].clone());
            assert(string_views(c@) =~= d.update(i as int, tv[j as int]));
            let ghost o1 = out@;
            out.push(c);
            proof {
                lemma_combo_views_push(o1, c);
                assert(tv.take(j + 1) =~= tv.take(j as int).push(tv[j as int]));
                assert(tv.take(j + 1).map_values(|t: Seq<char>| d.update(i as int, t)) =~= tv.take(
                    j as int,
                ).map_values(|t: Seq<char>| d.update(i as int, t)).push(d.update(i as int, tv[j as int])));
            }
            j += 1;
        }
        assert(tv.take(j as int) =~= tv);
        assert(ks[i as int] == keys@[i as int]@);
        assert(combo_views(out@) =~= seq![d] + (vs0 + tv.map_values(|t: Seq<char>| d.update(i as int, t))));
        i += 1;
    }
    Some(out)
}

/// The combinations of parameter set `pv` (see `param_combos`).
fn get_param_combos(pv: &Json, keys: &Vec<String>) -> (r: Option<Vec<Vec<String>>>)
    ensures
        match r {
            Some(v) => param_combos(*pv, string_views(keys@)) == Some(combo_views(v@)),
            None => param_combos(*pv, string_views(keys@)) is None,
        },
{
    proof {
        reveal_strlit("mix");
        reveal_strlit("values");
        reveal_strlit("include_base");
        reveal_strlit("");
        assert(""@ =~= Seq::<char>::empty());
    }
    let null = Json::Null;
    let mix = match value_at(pv, "mix", &null).text("") {
        Some(m) => m,
        None => return None,
    };
    let l = chars_of(to_lowercase(mix.as_str()).as_str());
    let vals = value_at(pv, "values", &null);
    let mut cs = if same_chars(&l, &chars_of("product")) {
        match create_parameter_product_mix(keys, vals) {
            Some(c) => c,
            None => return None,
        }
    } else if same_chars(&l, &chars_of("single")) {
        match create_parameter_single_mix(keys, vals) {
            Some(c) => c,
            None => return None,
        }
    } else {
        let e: Vec<Vec<String>> = Vec::new();
        assert(combo_views(e@) =~= Seq::<Combo>::empty());
        e
    };
    let include_base = match value_at(pv, "include_base", &null) {
        Json::Str(s) => same_chars(&chars_of(s.as_str()), &chars_of("true")),
        _ => false,
    };
    if include_base && cs.len() > 0 {
        let ghost c0 = cs@;
        cs.remove(0);
        assert(combo_views(cs@) =~= combo_views(c0).drop_first());
    }
    Some(cs)
}

/// Whether `c` is among `cs`.
fn contains_combo(cs: &Vec<Vec<String>>, c: &Vec<String>) -> (r: bool)
    ensures
        r == combo_views(cs@).contains(string_views(c@)),
{
    let mut i: usize = 0;
    while i < cs.len()
        invariant
            i <= cs.len(),
            forall|j: int| 0 <= j < i ==> combo_views(cs@)[j] != string_views(c@),
        decreases cs.len() - i,
    {
        if same_strings(&cs[i], c) {
            assert(combo_views(cs@)[i as int] == string_views(c@));
            return true;
        }
        i += 1;
    }
    false
}

proof fn lemma_all_combos_none(pvs: Seq<Json>, keys: Seq<Seq<char>>, k: int)
    requires
        0 <= k <= pvs.len(),
        all_combos(pvs.take(k), keys) is None,
    ensures
        all_combos(pvs, keys) is None,
    decreases pvs.len() - k,
{
    if k < pvs.len() {
        assert(pvs.take(k + 1).drop_last() =~= pvs.take(k));
        lemma_all_combos_none(pvs, keys, k + 1);
    } else {
        assert(pvs.take(k) =~= pvs);
    }
}

/// The Sniper parameter combinations of an experiment, each kept once (see
/// `sniper_arguments_spec`).
pub fn get_sniper_arguments(exp: &Json, keys: &Vec<String>) -> (r: Option<Vec<Vec<String>>>)
    ensures
        match r {
            Some(v) => sniper_arguments_spec(*exp, string_views(keys@)) == Some(combo_views(v@)),
            None => sniper_arguments_spec(*exp, string_views(keys@)) is None,
        },
{
    proof {
        reveal_strlit("sniper_parameters");
        reveal_strlit("parameters");
    }
    let null = Json::Null;
    let empty: Vec<Json> = Vec::new();
    let sp = value_at(exp, "sniper_parameters", &null);
    let ps = value_at(sp, "parameters", &null);
    let pvs = members_of(ps, &empty);
    let ghost ks = string_views(keys@);
    let mut out: Vec<Vec<String>> = Vec::new();
    let ghost mut acc: Seq<Combo> = Seq::empty();
    let mut i: usize = 0;
    assert(pvs@.take(0) =~= Seq::<Json>::empty());
    assert(combo_views(out@) =~= dedup(acc));
    while i < pvs.len()
        invariant
            ks == string_views(keys@),
            pvs@ == jmembers(jget(jget(*exp, "sniper_parameters"@), "parameters"@)),
            i <= pvs.len(),
            all_combos(pvs@.take(i as int), ks) == Some(acc),
            combo_views(out@) == dedup(acc),
        decreases pvs.len() - i,
    {
        assert(pvs@.take(i + 1).drop_last() =~= pvs@.take(i as int));
        assert(pvs@.take(i + 1).last() == pvs@[i as int]);
        let cs = match get_param_combos(&pvs[i], keys) {
            Some(c) => c,
            None => {
                proof {
                    lemma_all_combos_none(pvs@, ks, i + 1);
                }
                return None;
            },
        };
        let ghost cv = combo_views(cs@);
        let ghost acc0 = acc;
        let mut j: usize = 0;
        assert(acc0 + cv.take(0) =~= acc0);
        while j < cs.len()
            invariant
                cv == combo_views(cs@),
                j <= cs.len(),
                acc == acc0 + cv.take(j as int),
                combo_views(out@) == dedup(acc),
            decreases cs.len() - j,
        {
            let ghost a0 = acc;
            proof {
                acc = acc.push(cv[j as int]);
                assert(acc.drop_last() =~= a0);
                assert(acc0 + cv.take(j + 1) =~= acc);
            }
            if !contains_combo(&out, &cs[j]) {
                let c = copy_strings(&cs[j]);
                let ghost o0 = out@;
                out.push(c);
                proof {
                    lemma_combo_views_push(o0, c);
                }
            }
            j += 1;
        }
        assert(cv.take(j as int) =~= cv);
        i += 1;
    }
    assert(pvs@.take(i as int) =~= pvs@);
    Some(out)
}

/// The items joined with `sep` between them.
pub open spec fn joined(items: Seq<Seq<char>>, sep: Seq<char>) -> Seq<char>
    decreases items.len(),
{
    if items.len() == 0 {
        Seq::empty()
    } else if items.len() == 1 {
        items[0]
    } else {
        joined(items.drop_last(), sep) + sep + items.last()
    }
}

/// The trace paths of the members `ts` under `bpath`: `${TRACES_DIR}/<bpath>/<trace>`.
pub open spec fn trace_paths(ts: Seq<Json>, bpath: Seq<char>) -> Option<Seq<Seq<char>>>
    decreases ts.len(),
{
    if ts.len() == 0 {
        Some(Seq::empty())
    } else {
        match (trace_paths(ts.drop_last(), bpath), jtext(ts.last(), Seq::empty())) {
            (Some(p), Some(t)) => Some(p.push("${TRACES_DIR}/"@ + bpath + "/"@ + t)),
            _ => None,
        }
    }
}

/// `"<text>"`: a text in double quotes.
pub open spec fn quoted(t: Seq<char>) -> Seq<char> {
    "\""@ + t + "\""@
}

/// The directory of benchmark `b` under the suite path.
pub open spec fn bench_path_spec(b: Json, suite_path: Seq<char>) -> Option<Seq<char>> {
    if jhas(b, "bench_path"@) {
        match jtext(jget(b, "bench_path"@), Seq::empty()) {
            Some(t) => Some(suite_path + "/"@ + t),
            None => None,
        }
    } else {
        Some(suite_path)
    }
}

/// Where benchmark `b` (in `bpath`) is built and with which command: its own `build_cmd`
/// in its directory, else the suite's in the suite path, else `make` in its directory.
pub open spec fn build_spec(b: Json, bpath: Seq<char>, suite_path: Seq<char>, suite_build: Option<Seq<char>>) -> Option<(Seq<char>, Seq<char>)> {
    if jhas(b, "build_cmd"@) {
        match jtext(jget(b, "build_cmd"@), " "@) {
            Some(t) => Some((bpath, quoted(t))),
            None => None,
        }
    } else {
        match suite_build {
            Some(sb) => Some((suite_path, sb)),
            None => Some((bpath, "make"@)),
        }
    }
}

/// The setup command of benchmark `b`, its lines joined with newlines (empty when none).
pub open spec fn setup_spec(b: Json) -> Option<Seq<char>> {
    if jhas(b, "setup_cmd"@) {
        jtext(jget(b, "setup_cmd"@), "\n"@)
    } else {
        Some(Seq::empty())
    }
}

/// What Sniper runs for benchmark `b` in `bpath`: a binary with its arguments, or its
/// traces or pinballs.
pub open spec fn bench_str_spec(b: Json, ty: ExperimentType, bpath: Seq<char>) -> Option<Seq<char>> {
    match ty {
        ExperimentType::BINARY => match (jtext(jget(b, "binary"@), Seq::empty()), jtext(jget(b, "arguments"@), " "@)) {
            (Some(bin), Some(args)) => Some("-- ${BENCHMARKS_DIR}/"@ + bpath + "/"@ + bin + " "@ + args),
            _ => None,
        },
        ExperimentType::TRACE => match trace_paths(crate::json_model::jmembers(jget(b, "traces"@)), bpath) {
            Some(ps) => Some("--traces="@ + joined(ps, ","@)),
            None => None,
        },
        ExperimentType::PINBALL => match trace_paths(crate::json_model::jmembers(jget(b, "pinballs"@)), bpath) {
            Some(ps) => Some("--pinballs="@ + joined(ps, ","@)),
            None => None,
        },
    }
}

/// The template arguments of benchmark `b`.
pub open spec fn bench_args(build_dir: Seq<char>, build: Seq<char>, setup: Seq<char>, arguments: Seq<char>) -> Map<Seq<char>, Seq<char>> {
    Map::empty().insert("<BENCH_BUILD_DIR>"@, build_dir).insert("<BUILD_COMMAND>"@, build).insert(
        "<SETUP_CMD>"@,
        setup,
    ).insert("<ARGUMENTS>"@, arguments)
}

/// The name and template arguments of benchmark `b` of a suite of type `ty`, whose Sniper
/// arguments are `params`.
pub open spec fn bench_entry(
    b: Json,
    ty: ExperimentType,
    params: Seq<char>,
    suite_path: Seq<char>,
    suite_build: Option<Seq<char>>,
) -> Option<(Seq<char>, Map<Seq<char>, Seq<char>>)> {
    match bench_path_spec(b, suite_path) {
        None => None,
        Some(bpath) => match (build_spec(b, bpath, suite_path, suite_build), setup_spec(b), bench_str_spec(b, ty, bpath), jtext(jget(b, "name"@), Seq::empty())) {
            (Some(bd), Some(setup), Some(bstr), Some(name)) => Some(
                (name, bench_args(bd.0, bd.1, setup, params + " "@ + bstr)),
            ),
            _ => None,
        },
    }
}

/// The runs `0..n` of a benchmark, to be submitted.
pub open spec fn bench_runs(name: Seq<char>, args: Map<Seq<char>, Seq<char>>, n: nat) -> Seq<BenchView> {
    Seq::new(
        n,
        |r: int| BenchView { arguments: args, name, run_idx: r as usize, task_idx: None, status: JobStatus::TOSUBMIT },
    )
}

/// The runs of the benchmarks `bs`, benchmark after benchmark.
pub open spec fn benches_spec(
    bs: Seq<Json>,
    ty: ExperimentType,
    params: Seq<char>,
    suite_path: Seq<char>,
    suite_build: Option<Seq<char>>,
    nr_runs: nat,
) -> Option<Seq<BenchView>>
    decreases bs.len(),
{
    if bs.len() == 0 {
        Some(Seq::empty())
    } else {
        match (benches_spec(bs.drop_last(), ty, params, suite_path, suite_build, nr_runs), bench_entry(bs.last(), ty, params, suite_path, suite_build)) {
            (Some(p), Some(e)) => Some(p + bench_runs(e.0, e.1, nr_runs)),
            _ => None,
        }
    }
}

/// The runs of the benchmarks of `suite`, `nr_runs` each. `None` where a value fails to
/// read or the suite's type is unknown.
pub open spec fn benchmark_arguments_spec(suite: Json, nr_runs: usize) -> Option<Seq<BenchView>> {
    let suite_build = if jhas(suite, "build_cmd"@) {
        match jtext(jget(suite, "build_cmd"@), " "@) {
            Some(t) => Some(Some(quoted(t))),
            None => None,
        }
    } else {
        Some(None)
    };
    match (jtext(jget(suite, "sniper_args"@), " "@), jtext(jget(suite, "type"@), Seq::empty()), jtext(jget(suite, "suite_path"@), Seq::empty()), suite_build) {
        (Some(params), Some(tname), Some(suite_path), Some(sb)) => match experiment_type_of(lowercase(tname)) {
            Some(ty) => benches_spec(crate::json_model::jmembers(jget(suite, "benchmarks"@)), ty, params, suite_path, sb, nr_runs as nat),
            None => None,
        },
        _ => None,
    }
}

/// `v[key]` as text with `sep` (see `jtext`).
fn text_at(v: &Json, key: &str, sep: &str) -> (r: Option<String>)
    ensures
        match r {
            Some(s) => jtext(jget(*v, key@), sep@) == Some(s@),
            None => jtext(jget(*v, key@), sep@) is None,
        },
{
    let null = Json::Null;
    value_at(v, key, &null).text(sep)
}

/// `"<t>"`.
fn quote(t: &str) -> (r: Vec<char>)
    ensures
        r@ == quoted(t@),
{
    let mut v = chars_of("\"");
    push_str(&mut v, t);
    push_str(&mut v, "\"");
    v
}

proof fn lemma_trace_paths_none(ts: Seq<Json>, bpath: Seq<char>, k: int)
    requires
        0 <= k <= ts.len(),
        trace_paths(ts.take(k), bpath) is None,
    ensures
        trace_paths(ts, bpath) is None,
    decreases ts.len() - k,
{
    if k < ts.len() {
        assert(ts.take(k + 1).drop_last() =~= ts.take(k));
        lemma_trace_paths_none(ts, bpath, k + 1);
    } else {
        assert(ts.take(k) =~= ts);
    }
}

/// `prefix` followed by the trace paths of `key` of `b`, joined with commas.
fn trace_list(b: &Json, key: &str, bpath: &Vec<char>, prefix: &str) -> (r: Option<Vec<char>>)
    ensures
        match r {
            Some(v) => trace_paths(crate::json_model::jmembers(jget(*b, key@)), bpath@) matches Some(ps) && v@ == prefix@ + joined(ps, ","@),
            None => trace_paths(crate::json_model::jmembers(jget(*b, key@)), bpath@) is None,
        },
{
    proof {
        reveal_strlit("");
        assert(""@ =~= Seq::<char>::empty());
    }
    let null = Json::Null;
    let empty: Vec<Json> = Vec::new();
    let ts = members_of(value_at(b, key, &null), &empty);
    let mut out = chars_of(prefix);
    let ghost mut ps: Seq<Seq<char>> = Seq::empty();
    let mut i: usize = 0;
    assert(ts@.take(0) =~= Seq::<Json>::empty());
    assert(out@ =~= prefix@ + joined(ps, ","@));
    while i < ts.len()
        invariant
            ""@ == Seq::<char>::empty(),
            ts@ == crate::json_model::jmembers(jget(*b, key@)),
            i <= ts.len(),
            trace_paths(ts@.take(i as int), bpath@) == Some(ps),
            ps.len() == i,
            out@ == prefix@ + joined(ps, ","@),
        decreases ts.len() - i,
    {
        assert(ts@.take(i + 1).drop_last() =~= ts@.take(i as int));
        assert(ts@.take(i + 1).last() == ts@[i as int]);
        let t = match ts[i].text("") {
            Some(t) => t,
            None => {
                proof {
                    lemma_trace_paths_none(ts@, bpath@, i + 1);
                }
                return None;
            },
        };
        if i > 0 {
            push_str(&mut out, ",");
        }
        let ghost o0 = out@;
        push_str(&mut out, "${TRACES_DIR}/");
        append_chars(&mut out, bpath);
        push_str(&mut out, "/");
        push_str(&mut out, t.as_str());
        proof {
            let item = "${TRACES_DIR}/"@ + bpath@ + "/"@ + t@;
            let ps1 = ps.push(item);
            assert(ps1.drop_last() =~= ps);
            if i == 0 {
                assert(joined(ps1, ","@) == item);
            }
            ps = ps1;
        }
        i += 1;
    }
    assert(ts@.take(i as int) =~= ts@);
    Some(out)
}

/// The view of an optional text.
pub open spec fn chars_opt(o: Option<Vec<char>>) -> Option<Seq<char>> {
    match o {
        Some(v) => Some(v@),
        None => None,
    }
}

/// The name and template arguments of benchmark `b` (see `bench_entry`).
fn get_bench_entry(
    b: &Json,
    ty: ExperimentType,
    params: &Vec<char>,
    suite_path: &Vec<char>,
    suite_build: &Option<Vec<char>>,
) -> (r: Option<(String, StrMap)>)
    ensures
        match r {
            Some((n, m)) => bench_entry(*b, ty, params@, suite_path@, chars_opt(*suite_build)) == Some((n@, m@)),
            None => bench_entry(*b, ty, params@, suite_path@, chars_opt(*suite_build)) is None,
        },
{
    proof {
        reveal_strlit("bench_path");
        reveal_strlit("build_cmd");
        reveal_strlit("setup_cmd");
        reveal_strlit("");
        assert(""@ =~= Seq::<char>::empty());
    }
    let bpath: Vec<char> = match b.field("bench_path") {
        Some(x) => match x.text("") {
            Some(t) => {
                let mut v = slice_of(suite_path, 0, suite_path.len());
                push_str(&mut v, "/");
                push_str(&mut v, t.as_str());
                assert(suite_path@.subrange(0, suite_path.len() as int) == suite_path@);
                v
            },
            None => return None,
        },
        None => {
            assert(suite_path@.subrange(0, suite_path.len() as int) == suite_path@);
            slice_of(suite_path, 0, suite_path.len())
        },
    };
    assert(bench_path_spec(*b, suite_path@) == Some(bpath@));
    let (build_dir, build): (Vec<char>, Vec<char>) = match b.field("build_cmd") {
        Some(x) => match x.text(" ") {
            Some(t) => (slice_of(&bpath, 0, bpath.len()), quote(t.as_str())),
            None => return None,
        },
        None => match suite_build {
            Some(sb) => (slice_of(suite_path, 0, suite_path.len()), slice_of(sb, 0, sb.len())),
            None => (slice_of(&bpath, 0, bpath.len()), chars_of("make")),
        },
    };
    assert(bpath@.subrange(0, bpath.len() as int) == bpath@);
    assert(suite_path@.subrange(0, suite_path.len() as int) == suite_path@);
    assert(suite_build matches Some(sb) ==> sb@.subrange(0, sb.len() as int) == sb@);
    assert(build_spec(*b, bpath@, suite_path@, chars_opt(*suite_build)) == Some((build_dir@, build@)));
    let setup: String = match b.field("setup_cmd") {
        Some(x) => match x.text("\n") {
            Some(t) => t,
            None => return None,
        },
        None => String::new(),
    };
    assert(setup_spec(*b) == Some(setup@));
    let bstr: Vec<char> = match ty {
        ExperimentType::BINARY => {
            let bin = match text_at(b, "binary", "") {
                Some(t) => t,
                None => return None,
            };
            let args = match text_at(b, "arguments", " ") {
                Some(t) => t,
                None => return None,
            };
            let mut v = chars_of("-- ${BENCHMARKS_DIR}/");
            append_chars(&mut v, &bpath);
            push_str(&mut v, "/");
            push_str(&mut v, bin.as_str());
            push_str(&mut v, " ");
            push_str(&mut v, args.as_str());
            v
        },
        ExperimentType::TRACE => match trace_list(b, "traces", &bpath, "--traces=") {
            Some(v) => v,
            None => return None,
        },
        ExperimentType::PINBALL => match trace_list(b, "pinballs", &bpath, "--pinballs=") {
            Some(v) => v,
            None => return None,
        },
    };
    assert(bench_str_spec(*b, ty, bpath@) == Some(bstr@));
    let name = match text_at(b, "name", "") {
        Some(t) => t,
        None => return None,
    };
    let mut all = slice_of(params, 0, params.len());
    assert(params@.subrange(0, params.len() as int) == params@);
    push_str(&mut all, " ");
    append_chars(&mut all, &bstr);
    let mut m = StrMap::new();
    m.insert("<BENCH_BUILD_DIR>".to_owned(), string_of(&build_dir));
    m.insert("<BUILD_COMMAND>".to_owned(), string_of(&build));
    m.insert("<SETUP_CMD>".to_owned(), setup);
    m.insert("<ARGUMENTS>".to_owned(), string_of(&all));
    assert(m@ =~= bench_args(build_dir@, build@, setup@, params@ + " "@ + bstr@));
    Some((name, m))
}

proof fn lemma_benches_none(
    bs: Seq<Json>,
    ty: ExperimentType,
    params: Seq<char>,
    suite_path: Seq<char>,
    suite_build: Option<Seq<char>>,
    nr_runs: nat,
    k: int,
)
    requires
        0 <= k <= bs.len(),
        benches_spec(bs.take(k), ty, params, suite_path, suite_build, nr_runs) is None,
    ensures
        benches_spec(bs, ty, params, suite_path, suite_build, nr_runs) is None,
    decreases bs.len() - k,
{
    if k < bs.len() {
        assert(bs.take(k + 1).drop_last() =~= bs.take(k));
        lemma_benches_none(bs, ty, params, suite_path, suite_build, nr_runs, k + 1);
    } else {
        assert(bs.take(k) =~= bs);
    }
}

/// The runs of the benchmarks of `suite`, `nr_runs` each (see `benchmark_arguments_spec`).
pub fn get_benchmark_arguments(suite: &Json, nr_runs: usize) -> (r: Option<Vec<BenchmarkArgument>>)
    ensures
        match r {
            Some(v) => benchmark_arguments_spec(*suite, nr_runs) == Some(bench_views(v@)),
            None => benchmark_arguments_spec(*suite, nr_runs) is None,
        },
{
    proof {
        reveal_strlit("build_cmd");
        reveal_strlit("benchmarks");
        reveal_strlit("");
        assert(""@ =~= Seq::<char>::empty());
    }
    let suite_build: Option<Option<Vec<char>>> = match suite.field("build_cmd") {
        Some(x) => match x.text(" ") {
            Some(t) => Some(Some(quote(t.as_str()))),
            None => None,
        },
        None => Some(None),
    };
    let params = text_at(suite, "sniper_args", " ");
    let tname = text_at(suite, "type", "");
    let spath = text_at(suite, "suite_path", "");
    let (params, tname, spath, sb) = match (params, tname, spath, suite_build) {
        (Some(p), Some(t), Some(sp), Some(sb)) => (p, t, sp, sb),
        _ => return None,
    };
    let ty = match ExperimentType::from_str(tname.as_str()) {
        Ok(t) => t,
        Err(_) => return None,
    };
    let params = chars_of(params.as_str());
    let spath = chars_of(spath.as_str());
    let ghost sbv = chars_opt(sb);
    let null = Json::Null;
    let empty: Vec<Json> = Vec::new();
    let bs = members_of(value_at(suite, "benchmarks", &null), &empty);
    assert(benchmark_arguments_spec(*suite, nr_runs) == benches_spec(bs@, ty, params@, spath@, sbv, nr_runs as nat));
    let mut out: Vec<BenchmarkArgument> = Vec::new();
    let mut i: usize = 0;
    assert(bs@.take(0) =~= Seq::<Json>::empty());
    assert(bench_views(out@) =~= Seq::<BenchView>::empty());
    while i < bs.len()
        invariant
            bs@ == crate::json_model::jmembers(jget(*suite, "benchmarks"@)),
            benchmark_arguments_spec(*suite, nr_runs) == benches_spec(bs@, ty, params@, spath@, sbv, nr_runs as nat),
            sbv == chars_opt(sb),
            i <= bs.len(),
            benches_spec(bs@.take(i as int), ty, params@, spath@, sbv, nr_runs as nat) == Some(bench_views(out@)),
        decreases bs.len() - i,
    {
        assert(bs@.take(i + 1).drop_last() =~= bs@.take(i as int));
        assert(bs@.take(i + 1).last() == bs@[i as int]);
        let (name, args) = match get_bench_entry(&bs[i], ty, &params, &spath, &sb) {
            Some(e) => e,
            None => {
                proof {
                    lemma_benches_none(bs@, ty, params@, spath@, sbv, nr_runs as nat, i + 1);
                }
                return None;
            },
        };
        let ghost p0 = bench_views(out@);
        let mut r: usize = 0;
        assert(p0 + bench_runs(name@, args@, 0) =~= p0);
        while r < nr_runs
            invariant
                r <= nr_runs,
                bench_views(out@) == p0 + bench_runs(name@, args@, r as nat),
            decreases nr_runs - r,
        {
            let b = BenchmarkArgument {
                arguments: args.copy(),
                benchmark_name: name.clone(),
                run_idx: r,
                task_idx: None,
                status: JobStatus::TOSUBMIT,
            };
            let ghost o0 = out@;
            out.push(b);
            assert(bench_views(out@) =~= bench_views(o0).push(b@));
            assert(bench_runs(name@, args@, (r + 1) as nat) =~= bench_runs(name@, args@, r as nat).push(b@));
            r += 1;
        }
        i += 1;
    }
    assert(bs@.take(i as int) =~= bs@);
    Some(out)
}

/// The map from each of `keys` to the value at the same place in `c` (a later key wins).
pub open spec fn zip_map(keys: Seq<Seq<char>>, c: Combo) -> Map<Seq<char>, Seq<char>>
    decreases keys.len() + c.len(),
{
    if keys.len() == 0 || c.len() == 0 {
        Map::empty()
    } else if keys.len() > c.len() {
        zip_map(keys.take(c.len() as int), c)
    } else if keys.len() < c.len() {
        zip_map(keys, c.take(keys.len() as int))
    } else {
        zip_map(keys.drop_last(), c.drop_last()).insert(keys.last(), c.last())
    }
}

/// The name of a configuration's directory: the values of `keys` in `m`, joined with `_`.
pub open spec fn dir_name(keys: Seq<Seq<char>>, m: Map<Seq<char>, Seq<char>>) -> Seq<char> {
    joined(keys.map_values(|k: Seq<char>| m[k]), "_"@)
}

/// `s` with each `{key}` replaced by the value of `key` in `m`, key after key.
pub open spec fn fill_keys(s: Seq<char>, keys: Seq<Seq<char>>, m: Map<Seq<char>, Seq<char>>) -> Seq<char>
    decreases keys.len(),
{
    if keys.len() == 0 {
        s
    } else {
        fill_keys(replace_all(s, "{"@ + keys[0] + "}"@, m[keys[0]]), keys.drop_first(), m)
    }
}

/// Run `b` with `pre` put in front of its Sniper arguments.
pub open spec fn with_arguments(b: BenchView, pre: Seq<char>) -> BenchView {
    BenchView {
        arguments: b.arguments.insert("<ARGUMENTS>"@, pre + b.arguments["<ARGUMENTS>"@]),
        ..b
    }
}

/// The configuration of combination `c`: its directory name, its parameters, and the runs
/// `benches` with the Sniper arguments `sargs` (with the parameters filled in) in front of
/// their own.
pub open spec fn exp_arg_of(keys: Seq<Seq<char>>, c: Combo, sargs: Seq<char>, benches: Seq<BenchView>) -> ExpArgView {
    let m = zip_map(keys, c);
    let pre = fill_keys(sargs, keys, m);
    ExpArgView {
        dir: dir_name(keys, m),
        variables: m,
        benches: benches.map_values(|b: BenchView| with_arguments(b, pre)),
    }
}

/// The configurations of an experiment for benchmark suite `suite`: one per parameter
/// combination, each with all runs of the suite. `None` where a value fails to read.
pub open spec fn exp_arguments_spec(exp: Json, suite: Json, nr_runs: usize) -> Option<Seq<ExpArgView>> {
    let keys = sniper_keys_spec(exp);
    match (sniper_arguments_spec(exp, keys), jtext(jget(jget(exp, "sniper_parameters"@), "arguments"@), " "@), benchmark_arguments_spec(suite, nr_runs)) {
        (Some(combos), Some(sargs), Some(benches)) => Some(
            combos.map_values(|c: Combo| exp_arg_of(keys, c, sargs + " "@, benches)),
        ),
        _ => None,
    }
}

proof fn lemma_zip_map_keys(keys: Seq<Seq<char>>, c: Combo)
    requires
        keys.len() == c.len(),
    ensures
        forall|i: int| 0 <= i < keys.len() ==> zip_map(keys, c).contains_key(#[trigger] keys[i]),
    decreases keys.len(),
{
    if keys.len() > 0 {
        lemma_zip_map_keys(keys.drop_last(), c.drop_last());
        assert forall|i: int| 0 <= i < keys.len() implies zip_map(keys, c).contains_key(#[trigger] keys[i]) by {
            if i < keys.len() - 1 {
                assert(keys.drop_last()[i] == keys[i]);
            }
        }
    }
}

proof fn lemma_benches_have_arguments(
    bs: Seq<Json>,
    ty: ExperimentType,
    params: Seq<char>,
    suite_path: Seq<char>,
    suite_build: Option<Seq<char>>,
    nr_runs: nat,
)
    ensures
        benches_spec(bs, ty, params, suite_path, suite_build, nr_runs) matches Some(v) ==> forall|i: int|
            0 <= i < v.len() ==> (#[trigger] v[i]).arguments.contains_key("<ARGUMENTS>"@),
    decreases bs.len(),
{
    if bs.len() > 0 {
        lemma_benches_have_arguments(bs.drop_last(), ty, params, suite_path, suite_build, nr_runs);
        match (benches_spec(bs.drop_last(), ty, params, suite_path, suite_build, nr_runs), bench_entry(bs.last(), ty, params, suite_path, suite_build)) {
            (Some(p), Some(e)) => {
                let v = p + bench_runs(e.0, e.1, nr_runs);
                assert forall|i: int| 0 <= i < v.len() implies (#[trigger] v[i]).arguments.contains_key("<ARGUMENTS>"@) by {
                    if i >= p.len() {
                        assert(v[i] == bench_runs(e.0, e.1, nr_runs)[i - p.len()]);
                    } else {
                        assert(v[i] == p[i]);
                    }
                }
            },
            _ => {},
        }
    }
}

/// The parameters of combination `c`.
fn zip_strmap(keys: &Vec<String>, c: &Vec<String>) -> (r: StrMap)
    requires
        keys.len() == c.len(),
    ensures
        r@ == zip_map(string_views(keys@), string_views(c@)),
{
    let ghost ks = string_views(keys@);
    let ghost cs = string_views(c@);
    let mut m = StrMap::new();
    let mut i: usize = 0;
    assert(zip_map(ks.take(0), cs.take(0)) =~= Map::<Seq<char>, Seq<char>>::empty());
    while i < keys.len()
        invariant
            ks == string_views(keys@),
            cs == string_views(c@),
            keys.len() == c.len(),
            i <= keys.len(),
            m@ == zip_map(ks.take(i as int), cs.take(i as int)),
        decreases keys.len() - i,
    {
        m.insert(keys[i].clone(), c[i].clone());
        assert(ks.take(i + 1).drop_last() =~= ks.take(i as int));
        assert(cs.take(i + 1).drop_last() =~= cs.take(i as int));
        i += 1;
    }
    assert(ks.take(i as int) =~= ks);
    assert(cs.take(i as int) =~= cs);
    m
}

/// `s` with each `{key}` replaced (see `fill_keys`).
fn fill_params(s: &Vec<char>, keys: &Vec<String>, m: &StrMap) -> (r: Vec<char>)
    requires
        forall|i: int| 0 <= i < keys.len() ==> m@.contains_key(#[trigger] keys@[i]@),
    ensures
        r@ == fill_keys(s@, string_views(keys@), m@),
{
    let ghost ks = string_views(keys@);
    let mut cur = slice_of(s, 0, s.len());
    assert(s@.subrange(0, s.len() as int) == s@);
    let mut i: usize = 0;
    assert(ks.skip(0) =~= ks);
    while i < keys.len()
        invariant
            ks == string_views(keys@),
            i <= keys.len(),
            forall|j: int| 0 <= j < keys.len() ==> m@.contains_key(#[trigger] keys@[j]@),
            fill_keys(s@, ks, m@) == fill_keys(cur@, ks.skip(i as int), m@),
        decreases keys.len() - i,
    {
        let mut pat = chars_of("{");
        push_str(&mut pat, keys[i].as_str());
        push_str(&mut pat, "}");
        let v = match m.get(&keys[i]) {
            Some(v) => chars_of(v.as_str()),
            None => {
                assert(m@.contains_key(keys@[i as int]@));
                Vec::new()
            },
        };
        let ghost rest = ks.skip(i as int);
        assert(rest[0] == keys@[i as int]@);
        assert(rest.drop_first() =~= ks.skip(i + 1));
        cur = replace_chars(&cur, &pat, &v);
        i += 1;
    }
    assert(ks.skip(i as int).len() == 0);
    cur
}

/// The directory name of a configuration (see `dir_name`).
fn get_sniper_dir_name(keys: &Vec<String>, m: &StrMap) -> (r: String)
    requires
        forall|i: int| 0 <= i < keys.len() ==> m@.contains_key(#[trigger] keys@[i]@),
    ensures
        r@ == dir_name(string_views(keys@), m@),
{
    let ghost vals = string_views(keys@).map_values(|k: Seq<char>| m@[k]);
    let mut out: Vec<char> = Vec::new();
    let mut i: usize = 0;
    assert(joined(vals.take(0), "_"@) =~= out@);
    while i < keys.len()
        invariant
            vals == string_views(keys@).map_values(|k: Seq<char>| m@[k]),
            i <= keys.len(),
            forall|j: int| 0 <= j < keys.len() ==> m@.contains_key(#[trigger] keys@[j]@),
            out@ == joined(vals.take(i as int), "_"@),
        decreases keys.len() - i,
    {
        let v = match m.get(&keys[i]) {
            Some(v) => chars_of(v.as_str()),
            None => {
                assert(m@.contains_key(keys@[i as int]@));
                Vec::new()
            },
        };
        assert(v@ == vals[i as int]);
        if i > 0 {
            push_str(&mut out, "_");
        }
        append_chars(&mut out, &v);
        assert(vals.take(i + 1).drop_last() =~= vals.take(i as int));
        assert(vals.take(i + 1).last() == vals[i as int]);
        i += 1;
    }
    assert(vals.take(i as int) =~= vals);
    string_of(&out)
}

/// Run `b` with `pre` put in front of its Sniper arguments.
fn prepend_arguments(b: &BenchmarkArgument, pre: &Vec<char>) -> (r: BenchmarkArgument)
    requires
        b@.arguments.contains_key("<ARGUMENTS>"@),
    ensures
        r@ == with_arguments(b@, pre@),
{
    let key = "<ARGUMENTS>".to_owned();
    let mut all = slice_of(pre, 0, pre.len());
    assert(pre@.subrange(0, pre.len() as int) == pre@);
    match b.arguments.get(&key) {
        Some(old) => push_str(&mut all, old.as_str()),
        None => {},
    }
    let mut args = b.arguments.copy();
    args.insert(key, string_of(&all));
    BenchmarkArgument {
        arguments: args,
        benchmark_name: b.benchmark_name.clone(),
        run_idx: b.run_idx,
        task_idx: b.task_idx,
        status: b.status,
    }
}

/// Every combination in `cs` has `n` values.
pub open spec fn all_len(cs: Seq<Combo>, n: nat) -> bool {
    forall|i: int| 0 <= i < cs.len() ==> (#[trigger] cs[i]).len() == n
}

proof fn lemma_texts_len(ms: Seq<Json>)
    ensures
        texts_of(ms) matches Some(ts) ==> ts.len() == ms.len(),
    decreases ms.len(),
{
    if ms.len() > 0 {
        lemma_texts_len(ms.drop_last());
    }
}

proof fn lemma_cross_len(ts: Seq<Seq<char>>, next: Seq<Combo>, n: nat)
    requires
        all_len(next, n),
    ensures
        all_len(cross(ts, next), n + 1),
    decreases ts.len(),
{
    if ts.len() > 0 {
        lemma_cross_len(ts.drop_last(), next, n);
        let a = cross(ts.drop_last(), next);
        let b = next.map_values(|nv: Combo| seq![ts.last()] + nv);
        assert forall|i: int| 0 <= i < (a + b).len() implies (#[trigger] (a + b)[i]).len() == n + 1 by {
            if i >= a.len() {
                assert((a + b)[i] == b[i - a.len()]);
            } else {
                assert((a + b)[i] == a[i]);
            }
        }
    }
}

proof fn lemma_product_len(keys: Seq<Seq<char>>, values: Json)
    ensures
        product_mix(keys, values) matches Some(cs) ==> all_len(cs, keys.len()),
    decreases keys.len(),
{
    if keys.len() > 1 {
        lemma_product_len(keys.drop_first(), values);
        match product_mix(keys.drop_first(), values) {
            Some(next) => {
                match texts_of(jmembers(jget(values, keys[0]))) {
                    Some(ts) => lemma_cross_len(ts, next, (keys.len() - 1) as nat),
                    None => {},
                }
            },
            None => {},
        }
    }
}

proof fn lemma_variants_len(keys: Seq<Seq<char>>, values: Json, d: Combo, i: int)
    requires
        0 <= i <= keys.len(),
        d.len() == keys.len(),
    ensures
        variants(keys, values, d, i) matches Some(vs) ==> all_len(vs, keys.len()),
    decreases i,
{
    if i > 0 {
        lemma_variants_len(keys, values, d, i - 1);
        match (variants(keys, values, d, i - 1), texts_of(drop_front(jmembers(jget(values, keys[i - 1])), 1))) {
            (Some(p), Some(ts)) => {
                let b = ts.map_values(|t: Seq<char>| d.update(i - 1, t));
                assert forall|k: int| 0 <= k < (p + b).len() implies (#[trigger] (p + b)[k]).len() == keys.len() by {
                    if k >= p.len() {
                        assert((p + b)[k] == b[k - p.len()]);
                    } else {
                        assert((p + b)[k] == p[k]);
                    }
                }
            },
            _ => {},
        }
    }
}

proof fn lemma_param_combos_len(pv: Json, keys: Seq<Seq<char>>)
    ensures
        param_combos(pv, keys) matches Some(cs) ==> all_len(cs, keys.len()),
{
    lemma_product_len(keys, jget(pv, "values"@));
    lemma_defaults_len(keys, jget(pv, "values"@));
    match defaults_of(keys, jget(pv, "values"@)) {
        Some(d) => {
            lemma_variants_len(keys, jget(pv, "values"@), d, keys.len() as int);
            match variants(keys, jget(pv, "values"@), d, keys.len() as int) {
                Some(vs) => {
                    assert forall|k: int| 0 <= k < (seq![d] + vs).len() implies (#[trigger] (seq![d] + vs)[k]).len() == keys.len() by {
                        if k > 0 {
                            assert((seq![d] + vs)[k] == vs[k - 1]);
                        }
                    }
                },
                None => {},
            }
        },
        None => {},
    }
    match param_combos(pv, keys) {
        Some(cs) => {
            assert forall|k: int| 0 <= k < cs.len() implies (#[trigger] cs[k]).len() == keys.len() by {
                let mix = jtext(jget(pv, "mix"@), Seq::empty()).unwrap();
                let l = lowercase(mix);
                let c = if l == "product"@ {
                    product_mix(keys, jget(pv, "values"@))
                } else if l == "single"@ {
                    single_mix(keys, jget(pv, "values"@))
                } else {
                    Some(Seq::empty())
                };
                let c0 = c.unwrap();
                if jstr(jget(pv, "include_base"@)) == Some("true"@) && c0.len() > 0 {
                    assert(cs[k] == c0[k + 1]);
                }
            }
        },
        None => {},
    }
}

proof fn lemma_all_combos_len(pvs: Seq<Json>, keys: Seq<Seq<char>>)
    ensures
        all_combos(pvs, keys) matches Some(cs) ==> all_len(cs, keys.len()),
    decreases pvs.len(),
{
    if pvs.len() > 0 {
        lemma_all_combos_len(pvs.drop_last(), keys);
        lemma_param_combos_len(pvs.last(), keys);
        match (all_combos(pvs.drop_last(), keys), param_combos(pvs.last(), keys)) {
            (Some(p), Some(c)) => {
                assert forall|k: int| 0 <= k < (p + c).len() implies (#[trigger] (p + c)[k]).len() == keys.len() by {
                    if k >= p.len() {
                        assert((p + c)[k] == c[k - p.len()]);
                    } else {
                        assert((p + c)[k] == p[k]);
                    }
                }
            },
            _ => {},
        }
    }
}

proof fn lemma_dedup_len(s: Seq<Combo>, n: nat)
    requires
        all_len(s, n),
    ensures
        all_len(dedup(s), n),
    decreases s.len(),
{
    if s.len() > 0 {
        assert(all_len(s.drop_last(), n)) by {
            assert forall|i: int| 0 <= i < s.drop_last().len() implies (#[trigger] s.drop_last()[i]).len() == n by {
                assert(s.drop_last()[i] == s[i]);
            }
        }
        lemma_dedup_len(s.drop_last(), n);
        assert(s.last() == s[s.len() - 1]);
    }
}

/// Every Sniper parameter combination has one value per parameter name.
proof fn lemma_sniper_arguments_len(exp: Json, keys: Seq<Seq<char>>)
    ensures
        sniper_arguments_spec(exp, keys) matches Some(cs) ==> all_len(cs, keys.len()),
{
    let pvs = jmembers(jget(jget(exp, "sniper_parameters"@), "parameters"@));
    lemma_all_combos_len(pvs, keys);
    match all_combos(pvs, keys) {
        Some(cs) => lemma_dedup_len(cs, keys.len()),
        None => {},
    }
}

/// The configurations of the experiment for benchmark suite `suite` (see
/// `exp_arguments_spec`).
pub fn get_exp_arguments(exp: &Json, suite: &Json, nr_runs: usize) -> (r: Option<Vec<ExperimentArgument>>)
    ensures
        match r {
            Some(v) => exp_arguments_spec(*exp, *suite, nr_runs) == Some(exp_views(v@)),
            None => exp_arguments_spec(*exp, *suite, nr_runs) is None,
        },
{
    proof {
        reveal_strlit("sniper_parameters");
        reveal_strlit("arguments");
    }
    let keys = get_sniper_argument_keys(exp);
    let ghost ks = string_views(keys@);
    let combos = get_sniper_arguments(exp, &keys);
    let null = Json::Null;
    let sargs = text_at(value_at(exp, "sniper_parameters", &null), "arguments", " ");
    let benches = get_benchmark_arguments(suite, nr_runs);
    let (combos, sargs, benches) = match (combos, sargs, benches) {
        (Some(c), Some(s), Some(b)) => (c, s, b),
        _ => return None,
    };
    let mut pre = chars_of(sargs.as_str());
    push_str(&mut pre, " ");
    let ghost bv = bench_views(benches@);
    let ghost cv = combo_views(combos@);
    proof {
        lemma_sniper_arguments_len(*exp, ks);
        let suite_build = if jhas(*suite, "build_cmd"@) {
            match jtext(jget(*suite, "build_cmd"@), " "@) {
                Some(t) => Some(Some(quoted(t))),
                None => None,
            }
        } else {
            Some(None)
        };
        let ty = experiment_type_of(lowercase(jtext(jget(*suite, "type"@), Seq::empty()).unwrap())).unwrap();
        lemma_benches_have_arguments(
            jmembers(jget(*suite, "benchmarks"@)),
            ty,
            jtext(jget(*suite, "sniper_args"@), " "@).unwrap(),
            jtext(jget(*suite, "suite_path"@), Seq::empty()).unwrap(),
            suite_build.unwrap(),
            nr_runs as nat,
        );
    }
    let mut out: Vec<ExperimentArgument> = Vec::new();
    let mut i: usize = 0;
    assert(exp_views(out@) =~= cv.take(0).map_values(|c: Combo| exp_arg_of(ks, c, pre@, bv)));
    while i < combos.len()
        invariant
            ks == string_views(keys@),
            cv == combo_views(combos@),
            bv == bench_views(benches@),
            all_len(cv, ks.len()),
            forall|j: int| 0 <= j < bv.len() ==> (#[trigger] bv[j]).arguments.contains_key("<ARGUMENTS>"@),
            i <= combos.len(),
            exp_views(out@) == cv.take(i as int).map_values(|c: Combo| exp_arg_of(ks, c, pre@, bv)),
        decreases combos.len() - i,
    {
        let c = &combos[i];
        assert(cv[i as int] == string_views(c@));
        assert(cv[i as int].len() == ks.len());
        let m = zip_strmap(&keys, c);
        proof {
            lemma_zip_map_keys(ks, string_views(c@));
            assert forall|j: int| 0 <= j < keys.len() implies m@.contains_key(#[trigger] keys@[j]@) by {
                assert(ks[j] == keys@[j]@);
            }
        }
        let filled = fill_params(&pre, &keys, &m);
        let dir = get_sniper_dir_name(&keys, &m);
        let mut bs: Vec<BenchmarkArgument> = Vec::new();
        let mut k: usize = 0;
        assert(bench_views(bs@) =~= bv.take(0).map_values(|b: BenchView| with_arguments(b, filled@)));
        while k < benches.len()
            invariant
                bv == bench_views(benches@),
                forall|j: int| 0 <= j < bv.len() ==> (#[trigger] bv[j]).arguments.contains_key("<ARGUMENTS>"@),
                k <= benches.len(),
                bench_views(bs@) == bv.take(k as int).map_values(|b: BenchView| with_arguments(b, filled@)),
            decreases benches.len() - k,
        {
            assert(bv[k as int] == benches@[k as int]@);
            let b = prepend_arguments(&benches[k], &filled);
            let ghost b0 = bs@;
            bs.push(b);
            assert(bench_views(bs@) =~= bench_views(b0).push(b@));
            assert(bv.take(k + 1) =~= bv.take(k as int).push(bv[k as int]));
            assert(bv.take(k + 1).map_values(|b: BenchView| with_arguments(b, filled@)) =~= bv.take(
                k as int,
            ).map_values(|b: BenchView| with_arguments(b, filled@)).push(with_arguments(bv[k as int], filled@)));
            k += 1;
        }
        assert(bv.take(k as int) =~= bv);
        let e = ExperimentArgument { sniper_dir_name: dir, variable_sniper_parameters: m, benchmarks: bs };
        let ghost o0 = out@;
        out.push(e);
        proof {
            assert(exp_views(out@) =~= exp_views(o0).push(e@));
            assert(e@ == exp_arg_of(ks, cv[i as int], pre@, bv));
            assert(cv.take(i + 1) =~= cv.take(i as int).push(cv[i as int]));
            assert(cv.take(i + 1).map_values(|c: Combo| exp_arg_of(ks, c, pre@, bv)) =~= cv.take(
                i as int,
            ).map_values(|c: Combo| exp_arg_of(ks, c, pre@, bv)).push(exp_arg_of(ks, cv[i as int], pre@, bv)));
        }
        i += 1;
    }
    assert(cv.take(i as int) =~= cv);
    Some(out)
}

/// `v` as a `usize`, when it is a number that is one.
pub open spec fn jusize(v: Json) -> Option<usize> {
    match v {
        Json::Number(n) => n.as_usize,
        _ => None,
    }
}

/// The template arguments of a job file.
pub open spec fn job_meta(
    job_name: Seq<char>,
    cores: Seq<char>,
    memory: Seq<char>,
    vm_name: Seq<char>,
    git: Seq<char>,
    vbox: Seq<char>,
    docker: Seq<char>,
) -> Map<Seq<char>, Seq<char>> {
    Map::empty().insert("<JOB>"@, job_name).insert("<CORES>"@, cores).insert("<MEMORY>"@, memory).insert(
        "<VM_NAME>"@,
        vm_name,
    ).insert("<GIT-REPOSITORIES>"@, git).insert("<Virtualbox_MOUNTS>"@, vbox).insert("<DOCKER_MOUNTS>"@, docker)
}

/// The job of benchmark suite `suite`: its checkouts and mounts (the suite's, then the
/// experiment's `jg`, `jv`, `jd`), its job file arguments, and its configurations.
pub open spec fn job_arg_of(suite: Json, exp: Json, jg: Seq<char>, jv: Seq<char>, jd: Seq<char>) -> Option<JobArgView> {
    let job = jget(exp, "job"@);
    match (git_repos_spec(suite), vm_mounts_spec(suite, VmType::VBOX), vm_mounts_spec(suite, VmType::DOCKER), jusize(jget(job, "runs"@))) {
        (Some(g), Some(v), Some(d), Some(nr_runs)) => match (
            jtext(jget(job, "name"@), Seq::empty()),
            jtext(jget(job, "core_per_experiment"@), Seq::empty()),
            tot_memory_spec(exp),
            jtext(jget(job, "vm_name"@), Seq::empty()),
        ) {
            (Some(name), Some(cores), Some(mem), Some(vm_name)) => match (
                exp_arguments_spec(exp, suite, nr_runs),
                jtext(jget(exp, "host_destination_path"@), Seq::empty()),
                jtext(jget(suite, "suite"@), Seq::empty()),
            ) {
                (Some(exps), Some(dst), Some(suite_name)) => Some(
                    JobArgView {
                        suite: suite_name,
                        meta: job_meta(
                            name + "_"@ + crate::json_model::jdisplay(jget(suite, "suite"@)),
                            cores,
                            decimal(mem as nat),
                            vm_name,
                            g + jg,
                            v + jv,
                            d + jd,
                        ),
                        exps,
                        dst,
                        job_nr: None,
                    },
                ),
                _ => None,
            },
            _ => None,
        },
        _ => None,
    }
}

/// The jobs of the suites `ss`, suite after suite.
pub open spec fn suites_spec(ss: Seq<Json>, exp: Json, jg: Seq<char>, jv: Seq<char>, jd: Seq<char>) -> Option<Seq<JobArgView>>
    decreases ss.len(),
{
    if ss.len() == 0 {
        Some(Seq::empty())
    } else {
        match (suites_spec(ss.drop_last(), exp, jg, jv, jd), job_arg_of(ss.last(), exp, jg, jv, jd)) {
            (Some(p), Some(j)) => Some(p.push(j)),
            _ => None,
        }
    }
}

/// The jobs of an experiment `exp` over the benchmark suites `bench`: one per suite. `None`
/// where a value that is used fails to read (a key without `_branch`, a path that is not a
/// string, a number that is not an integer, an unknown suite type, a memory that does not
/// read or overflows).
pub open spec fn arguments_spec(exp: Json, bench: Json) -> Option<Seq<JobArgView>> {
    match (git_repos_spec(exp), vm_mounts_spec(exp, VmType::VBOX), vm_mounts_spec(exp, VmType::DOCKER)) {
        (Some(jg), Some(jv), Some(jd)) => suites_spec(jmembers(jget(bench, "suites"@)), exp, jg, jv, jd),
        _ => None,
    }
}

/// An experiment description and the benchmark suites it runs.
#[derive(Debug)]
pub struct ParseExperiment {
    pub exp: Json,
    pub bench: Json,
}

proof fn lemma_suites_none(ss: Seq<Json>, exp: Json, jg: Seq<char>, jv: Seq<char>, jd: Seq<char>, k: int)
    requires
        0 <= k <= ss.len(),
        suites_spec(ss.take(k), exp, jg, jv, jd) is None,
    ensures
        suites_spec(ss, exp, jg, jv, jd) is None,
    decreases ss.len() - k,
{
    if k < ss.len() {
        assert(ss.take(k + 1).drop_last() =~= ss.take(k));
        lemma_suites_none(ss, exp, jg, jv, jd, k + 1);
    } else {
        assert(ss.take(k) =~= ss);
    }
}

/// Sets `key` to the text `v` in `m`.
fn insert_text(m: &mut StrMap, key: &str, v: &Vec<char>)
    ensures
        final(m)@ == old(m)@.insert(key@, v@),
{
    m.insert(key.to_owned(), string_of(v));
}

/// The job of benchmark suite `suite` (see `job_arg_of`).
fn get_job_argument(exp: &Json, suite: &Json, jg: &Vec<char>, jv: &Vec<char>, jd: &Vec<char>) -> (r: Option<JobArgument>)
    ensures
        match r {
            Some(j) => job_arg_of(*suite, *exp, jg@, jv@, jd@) == Some(j@),
            None => job_arg_of(*suite, *exp, jg@, jv@, jd@) is None,
        },
{
    proof {
        reveal_strlit("job");
        reveal_strlit("runs");
        reveal_strlit("suite");
        reveal_strlit("");
        assert(""@ =~= Seq::<char>::empty());
    }
    let null = Json::Null;
    let job = value_at(exp, "job", &null);
    let g = get_git_repos(suite);
    let v = get_vm_mounts(suite, VmType::VBOX);
    let d = get_vm_mounts(suite, VmType::DOCKER);
    let runs = match value_at(job, "runs", &null) {
        Json::Number(n) => n.as_usize,
        _ => None,
    };
    let (g, v, d, nr_runs) = match (g, v, d, runs) {
        (Some(g), Some(v), Some(d), Some(n)) => (g, v, d, n),
        _ => return None,
    };
    let name = text_at(job, "name", "");
    let cores = text_at(job, "core_per_experiment", "");
    let mem = get_tot_memory(exp);
    let vm_name = text_at(job, "vm_name", "");
    let (name, cores, mem, vm_name) = match (name, cores, mem, vm_name) {
        (Some(a), Some(b), Some(c), Some(d)) => (a, b, c, d),
        _ => return None,
    };
    let exps = get_exp_arguments(exp, suite, nr_runs);
    let dst = text_at(exp, "host_destination_path", "");
    let suite_name = text_at(suite, "suite", "");
    let (exps, dst, suite_name) = match (exps, dst, suite_name) {
        (Some(a), Some(b), Some(c)) => (a, b, c),
        _ => return None,
    };
    let suite_v = value_at(suite, "suite", &null);
    let shown: String = match suite_v {
        Json::Null => "null".to_owned(),
        Json::Bool(b) => if *b { "true".to_owned() } else { "false".to_owned() },
        Json::Str(s) => s.clone(),
        Json::Number(n) => n.text.clone(),
        Json::Array { dump, .. } => dump.clone(),
        Json::Object { dump, .. } => dump.clone(),
    };
    let mut job_name = chars_of(name.as_str());
    push_str(&mut job_name, "_");
    push_str(&mut job_name, shown.as_str());
    let mut git = chars_of(g.as_str());
    append_chars(&mut git, jg);
    let mut vbox = chars_of(v.as_str());
    append_chars(&mut vbox, jv);
    let mut docker = chars_of(d.as_str());
    append_chars(&mut docker, jd);
    let mut meta = StrMap::new();
    insert_text(&mut meta, "<JOB>", &job_name);
    insert_text(&mut meta, "<CORES>", &chars_of(cores.as_str()));
    insert_text(&mut meta, "<MEMORY>", &decimal_chars(mem));
    insert_text(&mut meta, "<VM_NAME>", &chars_of(vm_name.as_str()));
    insert_text(&mut meta, "<GIT-REPOSITORIES>", &git);
    insert_text(&mut meta, "<Virtualbox_MOUNTS>", &vbox);
    insert_text(&mut meta, "<DOCKER_MOUNTS>", &docker);
    let j = JobArgument {
        suite: suite_name,
        meta_arguments: meta,
        experiment_arguments: exps,
        host_dst_path: dst,
        job_nr: None,
    };
    assert(j@ == job_arg_of(*suite, *exp, jg@, jv@, jd@).unwrap());
    Some(j)
}

impl ParseExperiment {
    /// An experiment description `exp` over the benchmark suites `bench`.
    pub fn new(exp: Json, bench: Json) -> (r: Self)
        ensures
            r.exp == exp,
            r.bench == bench,
    {
        ParseExperiment { exp, bench }
    }

    /// The experiment whose description is the JSON text `exp_text` and whose benchmark
    /// suites are the JSON text `bench_text`; `None` when one of them is not JSON.
    pub fn from_texts(exp_text: &str, bench_text: &str) -> (r: Option<Self>)
        ensures
            r is Some <==> (json_of(exp_text@) is Some && json_of(bench_text@) is Some),
            r matches Some(p) ==> (Some(p.exp) == json_of(exp_text@) && Some(p.bench) == json_of(
                bench_text@,
            )),
    {
        match (parse_json(exp_text), parse_json(bench_text)) {
            (Some(exp), Some(bench)) => Some(ParseExperiment::new(exp, bench)),
            _ => None,
        }
    }

    /// The jobs of the experiment, one per benchmark suite, or `None` where a value that
    /// is used fails to read (see `arguments_spec`).
    pub fn checked_arguments(&self) -> (r: Option<Arguments>)
        ensures
            match r {
                Some(a) => arguments_spec(self.exp, self.bench) == Some(a@),
                None => arguments_spec(self.exp, self.bench) is None,
            },
    {
        proof {
            reveal_strlit("suites");
        }
        let jg = get_git_repos(&self.exp);
        let jv = get_vm_mounts(&self.exp, VmType::VBOX);
        let jd = get_vm_mounts(&self.exp, VmType::DOCKER);
        let (jg, jv, jd) = match (jg, jv, jd) {
            (Some(a), Some(b), Some(c)) => (chars_of(a.as_str()), chars_of(b.as_str()), chars_of(c.as_str())),
            _ => return None,
        };
        let null = Json::Null;
        let empty: Vec<Json> = Vec::new();
        let ss = members_of(value_at(&self.bench, "suites", &null), &empty);
        let mut jobs: Vec<JobArgument> = Vec::new();
        let mut i: usize = 0;
        assert(ss@.take(0) =~= Seq::<Json>::empty());
        assert(job_views(jobs@) =~= Seq::<JobArgView>::empty());
        while i < ss.len()
            invariant
                ss@ == jmembers(jget(self.bench, "suites"@)),
                arguments_spec(self.exp, self.bench) == suites_spec(ss@, self.exp, jg@, jv@, jd@),
                i <= ss.len(),
                suites_spec(ss@.take(i as int), self.exp, jg@, jv@, jd@) == Some(job_views(jobs@)),
            decreases ss.len() - i,
        {
            assert(ss@.take(i + 1).drop_last() =~= ss@.take(i as int));
            assert(ss@.take(i + 1).last() == ss@[i as int]);
            match get_job_argument(&self.exp, &ss[i], &jg, &jv, &jd) {
                Some(j) => {
                    let ghost j0 = jobs@;
                    jobs.push(j);
                    assert(job_views(jobs@) =~= job_views(j0).push(j@));
                },
                None => {
                    proof {
                        lemma_suites_none(ss@, self.exp, jg@, jv@, jd@, i + 1);
                    }
                    return None;
                },
            }
            i += 1;
        }
        assert(ss@.take(i as int) =~= ss@);
        Some(Arguments { job_arguments: jobs })
    }

    /// The jobs of the experiment, one per benchmark suite: its git checkouts and mounts,
    /// the job file arguments (`<JOB>`, `<CORES>`, `<MEMORY>`, `<VM_NAME>`,
    /// `<GIT-REPOSITORIES>`, `<Virtualbox_MOUNTS>`, `<DOCKER_MOUNTS>`), and a configuration
    /// per Sniper parameter combination holding every run of every benchmark.
    pub fn get_arguments(&self) -> (r: Arguments)
        requires
            arguments_spec(self.exp, self.bench) is Some,
        ensures
            arguments_spec(self.exp, self.bench) == Some(r@),
    {
        match self.checked_arguments() {
            Some(a) => a,
            None => Arguments { job_arguments: Vec::new() },
        }
    }
}

/// The job map file of `path`: `path` itself when it names `experiments.json`, else that
/// file inside `path`. `None` when `path` has no final component.
pub open spec fn job_map_file_spec(path: Seq<char>) -> Option<Seq<char>> {
    match file_name_of(path) {
        None => None,
        Some(n) => Some(
            if n != EXPERIMENT_DB_NAME@ {
                path_join(path, EXPERIMENT_DB_NAME@)
            } else {
                path
            },
        ),
    }
}

/// The job map file of `path` (see `job_map_file_spec`).
pub fn job_map_file(path: &str) -> (r: Option<String>)
    ensures
        match r {
            Some(s) => job_map_file_spec(path@) == Some(s@),
            None => job_map_file_spec(path@) is None,
        },
{
    match file_name(path) {
        None => None,
        Some(n) => {
            if same_chars(&chars_of(n.as_str()), &chars_of(EXPERIMENT_DB_NAME)) {
                Some(path.to_owned())
            } else {
                Some(join(path, EXPERIMENT_DB_NAME))
            }
        },
    }
}

proof fn lemma_git_lines_none(es: Seq<(String, Json)>, k: int)
    requires
        0 <= k <= es.len(),
        git_lines(es.take(k)) is None,
    ensures
        git_lines(es) is None,
    decreases es.len() - k,
{
    if k < es.len() {
        assert(es.take(k + 1).drop_last() =~= es.take(k));
        lemma_git_lines_none(es, k + 1);
    } else {
        assert(es.take(k) =~= es);
    }
}

/// The product of the numbers of values listed for `keys` in `values`.
pub open spec fn counts_product(keys: Seq<Seq<char>>, values: Json) -> nat
    decreases keys.len(),
{
    if keys.len() == 0 {
        1
    } else {
        jmembers(jget(values, keys[0])).len() * counts_product(keys.drop_first(), values)
    }
}

proof fn lemma_cross_count(ts: Seq<Seq<char>>, next: Seq<Combo>)
    ensures
        cross(ts, next).len() == ts.len() * next.len(),
    decreases ts.len(),
{
    if ts.len() > 0 {
        lemma_cross_count(ts.drop_last(), next);
        let a = ts.len() as int;
        let b = next.len() as int;
        assert((a - 1) * b + b == a * b) by (nonlinear_arith);
    }
}

/// The `product` mix sweeps the full cross-product: for at least one parameter, it gives
/// one combination per choice of a value for each parameter, each with one value per
/// parameter.
pub proof fn law_product_mix_sweeps_all(keys: Seq<Seq<char>>, values: Json)
    requires
        keys.len() > 0,
    ensures
        product_mix(keys, values) matches Some(cs) ==> cs.len() == counts_product(keys, values) && all_len(
            cs,
            keys.len(),
        ),
    decreases keys.len(),
{
    lemma_product_len(keys, values);
    let ms = jmembers(jget(values, keys[0]));
    lemma_texts_len(ms);
    if keys.len() == 1 {
        assert(keys.drop_first().len() == 0);
        assert(counts_product(keys.drop_first(), values) == 1);
        assert(counts_product(keys, values) == ms.len() * 1);
    } else {
        law_product_mix_sweeps_all(keys.drop_first(), values);
        match product_mix(keys.drop_first(), values) {
            Some(next) => {
                if next.len() == 0 {
                    assert(counts_product(keys, values) == ms.len() * 0);
                } else {
                    match texts_of(ms) {
                        Some(ts) => lemma_cross_count(ts, next),
                        None => {},
                    }
                }
            },
            None => {},
        }
    }
}

/// `a` and `b` have the same length and differ in at most one place.
pub open spec fn differ_at_most_once(a: Combo, b: Combo) -> bool {
    &&& a.len() == b.len()
    &&& forall|j1: int, j2: int|
        #![trigger a[j1], a[j2]]
        0 <= j1 < j2 < a.len() ==> a[j1] == b[j1] || a[j2] == b[j2]
}

proof fn lemma_variants_shape(keys: Seq<Seq<char>>, values: Json, d: Combo, i: int)
    requires
        0 <= i <= keys.len(),
        d.len() == keys.len(),
    ensures
        variants(keys, values, d, i) matches Some(vs) ==> forall|m: int|
            0 <= m < vs.len() ==> #[trigger] differ_at_most_once(vs[m], d),
    decreases i,
{
    if i > 0 {
        lemma_variants_shape(keys, values, d, i - 1);
        match (variants(keys, values, d, i - 1), texts_of(drop_front(jmembers(jget(values, keys[i - 1])), 1))) {
            (Some(p), Some(ts)) => {
                let b = ts.map_values(|t: Seq<char>| d.update(i - 1, t));
                let vs = p + b;
                assert(variants(keys, values, d, i) == Some(vs));
                assert forall|m: int| 0 <= m < vs.len() implies #[trigger] differ_at_most_once(vs[m], d) by {
                    if m < p.len() {
                        assert(vs[m] == p[m]);
                    } else {
                        assert(vs[m] == d.update(i - 1, ts[m - p.len()]));
                    }
                }
            },
            _ => {},
        }
    }
}

/// The `single` mix varies one parameter at a time from a baseline: the first combination
/// takes the first value of each parameter, and every other one differs from it in at
/// most one parameter.
pub proof fn law_single_mix_one_change(keys: Seq<Seq<char>>, values: Json)
    requires
        keys.len() > 0,
    ensures
        single_mix(keys, values) matches Some(cs) ==> {
            &&& cs.len() > 0
            &&& defaults_of(keys, values) == Some(cs[0])
            &&& forall|m: int| 0 < m < cs.len() ==> #[trigger] differ_at_most_once(cs[m], cs[0])
        },
{
    lemma_defaults_len(keys, values);
    match defaults_of(keys, values) {
        Some(d) => {
            lemma_variants_shape(keys, values, d, keys.len() as int);
            match variants(keys, values, d, keys.len() as int) {
                Some(vs) => {
                    let cs = seq![d] + vs;
                    assert(cs[0] == d);
                    assert forall|m: int| 0 < m < cs.len() implies #[trigger] differ_at_most_once(cs[m], cs[0]) by {
                        assert(cs[m] == vs[m - 1]);
                        assert(differ_at_most_once(vs[m - 1], d));
                    }
                },
                None => {},
            }
        },
        None => {},
    }
}

proof fn lemma_benches_len(
    bs: Seq<Json>,
    ty: ExperimentType,
    params: Seq<char>,
    suite_path: Seq<char>,
    suite_build: Option<Seq<char>>,
    nr_runs: nat,
)
    ensures
        benches_spec(bs, ty, params, suite_path, suite_build, nr_runs) matches Some(v) ==> v.len() == bs.len()
            * nr_runs,
    decreases bs.len(),
{
    if bs.len() > 0 {
        lemma_benches_len(bs.drop_last(), ty, params, suite_path, suite_build, nr_runs);
        let a = bs.len() as int;
        let n = nr_runs as int;
        assert((a - 1) * n + n == a * n) by (nonlinear_arith);
    }
}

proof fn lemma_exps_count_uniform(es: Seq<ExpArgView>, b: nat)
    requires
        forall|k: int| 0 <= k < es.len() ==> (#[trigger] es[k]).benches.len() == b,
    ensures
        exps_count(es) == es.len() * b,
    decreases es.len(),
{
    if es.len() > 0 {
        let q = es.drop_last();
        assert forall|k: int| 0 <= k < q.len() implies (#[trigger] q[k]).benches.len() == b by {
            assert(q[k] == es[k]);
        }
        lemma_exps_count_uniform(q, b);
        assert(es.last() == es[es.len() - 1]);
        let a = es.len() as int;
        assert((a - 1) * b + b == a * b) by (nonlinear_arith);
    }
}

proof fn lemma_suites_each(ss: Seq<Json>, exp: Json, jg: Seq<char>, jv: Seq<char>, jd: Seq<char>)
    ensures
        suites_spec(ss, exp, jg, jv, jd) matches Some(js) ==> {
            &&& js.len() == ss.len()
            &&& forall|i: int| 0 <= i < js.len() ==> job_arg_of(ss[i], exp, jg, jv, jd) == Some(#[trigger] js[i])
        },
    decreases ss.len(),
{
    if ss.len() > 0 {
        lemma_suites_each(ss.drop_last(), exp, jg, jv, jd);
        match (suites_spec(ss.drop_last(), exp, jg, jv, jd), job_arg_of(ss.last(), exp, jg, jv, jd)) {
            (Some(p), Some(j)) => {
                let js = p.push(j);
                assert forall|i: int| 0 <= i < js.len() implies job_arg_of(ss[i], exp, jg, jv, jd) == Some(
                    #[trigger] js[i],
                ) by {
                    if i < p.len() {
                        assert(js[i] == p[i]);
                        assert(ss.drop_last()[i] == ss[i]);
                    }
                }
            },
            _ => {},
        }
    }
}

/// The jobs of an experiment: one per benchmark suite, in order. The job of suite `i`
/// carries that suite's name, is named after the experiment's job and the suite, has no
/// job number yet and keeps its results under the experiment's destination; it has one
/// configuration per Sniper parameter combination, each running every benchmark of the
/// suite `runs` times, so it has `combinations * benchmarks * runs` tasks.
pub proof fn law_jobs_per_suite(exp: Json, bench: Json)
    ensures
        arguments_spec(exp, bench) matches Some(js) ==> {
            let ss = jmembers(jget(bench, "suites"@));
            &&& js.len() == ss.len()
            &&& forall|i: int|
                0 <= i < js.len() ==> {
                    &&& jtext(jget(ss[i], "suite"@), Seq::empty()) == Some((#[trigger] js[i]).suite)
                    &&& jtext(jget(jget(exp, "job"@), "name"@), Seq::empty()) matches Some(name)
                        && js[i].meta["<JOB>"@] == name + "_"@ + crate::json_model::jdisplay(jget(ss[i], "suite"@))
                    &&& js[i].job_nr is None
                    &&& jtext(jget(exp, "host_destination_path"@), Seq::empty()) == Some(js[i].dst)
                    &&& sniper_arguments_spec(exp, sniper_keys_spec(exp)) matches Some(combos)
                        && jusize(jget(jget(exp, "job"@), "runs"@)) matches Some(r)
                        && exps_count(js[i].exps) == combos.len() * (jmembers(jget(ss[i], "benchmarks"@)).len() * r)
                }
        },
{
    match (git_repos_spec(exp), vm_mounts_spec(exp, VmType::VBOX), vm_mounts_spec(exp, VmType::DOCKER)) {
        (Some(jg), Some(jv), Some(jd)) => {
            let ss = jmembers(jget(bench, "suites"@));
            lemma_suites_each(ss, exp, jg, jv, jd);
            match suites_spec(ss, exp, jg, jv, jd) {
                Some(js) => {
                    reveal_strlit("<JOB>");
                    reveal_strlit("<CORES>");
                    reveal_strlit("<MEMORY>");
                    reveal_strlit("<VM_NAME>");
                    reveal_strlit("<GIT-REPOSITORIES>");
                    reveal_strlit("<Virtualbox_MOUNTS>");
                    reveal_strlit("<DOCKER_MOUNTS>");
                    assert("<JOB>"@ != "<CORES>"@ && "<JOB>"@ != "<MEMORY>"@ && "<JOB>"@ != "<VM_NAME>"@
                        && "<JOB>"@ != "<GIT-REPOSITORIES>"@ && "<JOB>"@ != "<Virtualbox_MOUNTS>"@
                        && "<JOB>"@ != "<DOCKER_MOUNTS>"@) by {
                        assert("<JOB>"@[1] == 'J');
                        assert("<CORES>"@[1] == 'C');
                        assert("<MEMORY>"@[1] == 'M');
                        assert("<VM_NAME>"@[1] == 'V');
                        assert("<GIT-REPOSITORIES>"@[1] == 'G');
                        assert("<Virtualbox_MOUNTS>"@[1] == 'V');
                        assert("<DOCKER_MOUNTS>"@[1] == 'D');
                    }
                    assert forall|i: int| 0 <= i < js.len() implies {
                        &&& jtext(jget(ss[i], "suite"@), Seq::empty()) == Some((#[trigger] js[i]).suite)
                        &&& jtext(jget(jget(exp, "job"@), "name"@), Seq::empty()) matches Some(name)
                            && js[i].meta["<JOB>"@] == name + "_"@ + crate::json_model::jdisplay(jget(ss[i], "suite"@))
                        &&& js[i].job_nr is None
                        &&& jtext(jget(exp, "host_destination_path"@), Seq::empty()) == Some(js[i].dst)
                        &&& sniper_arguments_spec(exp, sniper_keys_spec(exp)) matches Some(combos)
                            && jusize(jget(jget(exp, "job"@), "runs"@)) matches Some(r)
                            && exps_count(js[i].exps) == combos.len() * (jmembers(jget(ss[i], "benchmarks"@)).len() * r)
                    } by {
                        let suite = ss[i];
                        assert(job_arg_of(suite, exp, jg, jv, jd) == Some(js[i]));
                        let nr_runs = jusize(jget(jget(exp, "job"@), "runs"@)).unwrap();
                        let keys = sniper_keys_spec(exp);
                        let combos = sniper_arguments_spec(exp, keys).unwrap();
                        let sargs = jtext(jget(jget(exp, "sniper_parameters"@), "arguments"@), " "@).unwrap();
                        let benches = benchmark_arguments_spec(suite, nr_runs).unwrap();
                        let es = combos.map_values(|c: Combo| exp_arg_of(keys, c, sargs + " "@, benches));
                        assert(js[i].exps == es);
                        let ty_name = jtext(jget(suite, "type"@), Seq::empty()).unwrap();
                        let ty = experiment_type_of(lowercase(ty_name)).unwrap();
                        let suite_build = if jhas(suite, "build_cmd"@) {
                            Some(quoted(jtext(jget(suite, "build_cmd"@), " "@).unwrap()))
                        } else {
                            None
                        };
                        lemma_benches_len(
                            jmembers(jget(suite, "benchmarks"@)),
                            ty,
                            jtext(jget(suite, "sniper_args"@), " "@).unwrap(),
                            jtext(jget(suite, "suite_path"@), Seq::empty()).unwrap(),
                            suite_build,
                            nr_runs as nat,
                        );
                        assert(benches.len() == jmembers(jget(suite, "benchmarks"@)).len() * nr_runs);
                        assert forall|k: int| 0 <= k < es.len() implies (#[trigger] es[k]).benches.len() == benches.len() by {
                            assert(es[k] == exp_arg_of(keys, combos[k], sargs + " "@, benches));
                        }
                        lemma_exps_count_uniform(es, benches.len());
                    }
                },
                None => {},
            }
        },
        _ => {},
    }
}

proof fn lemma_bench_args_keys(bd: Seq<char>, build: Seq<char>, setup: Seq<char>, arguments: Seq<char>)
    ensures
        bench_args(bd, build, setup, arguments)["<BENCH_BUILD_DIR>"@] == bd,
        bench_args(bd, build, setup, arguments)["<BUILD_COMMAND>"@] == build,
{
    reveal_strlit("<BENCH_BUILD_DIR>");
    reveal_strlit("<BUILD_COMMAND>");
    reveal_strlit("<SETUP_CMD>");
    reveal_strlit("<ARGUMENTS>");
    assert("<BENCH_BUILD_DIR>"@[2] != "<BUILD_COMMAND>"@[2]);
    assert("<BENCH_BUILD_DIR>"@[1] != "<SETUP_CMD>"@[1]);
    assert("<BENCH_BUILD_DIR>"@[1] != "<ARGUMENTS>"@[1]);
    assert("<BUILD_COMMAND>"@[1] != "<SETUP_CMD>"@[1]);
    assert("<BUILD_COMMAND>"@[1] != "<ARGUMENTS>"@[1]);
}

/// Where benchmark `b` of a suite in `suite_path` is built, and with what, given the suite's
/// own build command `suite_build`: `b`'s own `build_cmd` in `b`'s directory; else the
/// suite's build command in the suite path, whatever `b`'s directory; else `make` in `b`'s
/// directory.
pub open spec fn build_place_ok(
    b: Json,
    suite_path: Seq<char>,
    suite_build: Option<Seq<char>>,
    args: Map<Seq<char>, Seq<char>>,
) -> bool {
    let dir = args["<BENCH_BUILD_DIR>"@];
    let cmd = args["<BUILD_COMMAND>"@];
    &&& jhas(b, "build_cmd"@) ==> (bench_path_spec(b, suite_path) == Some(dir) && (jtext(
        jget(b, "build_cmd"@),
        " "@,
    ) matches Some(t) && cmd == quoted(t)))
    &&& !jhas(b, "build_cmd"@) && suite_build is Some ==> dir == suite_path && cmd == suite_build.unwrap()
    &&& !jhas(b, "build_cmd"@) && suite_build is None ==> bench_path_spec(b, suite_path) == Some(dir) && cmd
        == "make"@
}

proof fn lemma_bench_entry_build(
    b: Json,
    ty: ExperimentType,
    params: Seq<char>,
    suite_path: Seq<char>,
    suite_build: Option<Seq<char>>,
)
    ensures
        bench_entry(b, ty, params, suite_path, suite_build) matches Some(e) ==> build_place_ok(
            b,
            suite_path,
            suite_build,
            e.1,
        ),
{
    match bench_path_spec(b, suite_path) {
        Some(bpath) => match (build_spec(b, bpath, suite_path, suite_build), setup_spec(b), bench_str_spec(b, ty, bpath), jtext(jget(b, "name"@), Seq::empty())) {
            (Some(bd), Some(setup), Some(bstr), Some(name)) => {
                lemma_bench_args_keys(bd.0, bd.1, setup, params + " "@ + bstr);
            },
            _ => {},
        },
        None => {},
    }
}

proof fn lemma_benches_build(
    bs: Seq<Json>,
    ty: ExperimentType,
    params: Seq<char>,
    suite_path: Seq<char>,
    suite_build: Option<Seq<char>>,
    nr_runs: nat,
)
    requires
        nr_runs > 0,
    ensures
        benches_spec(bs, ty, params, suite_path, suite_build, nr_runs) matches Some(v) ==> {
            &&& v.len() == bs.len() * nr_runs
            &&& forall|k: int|
                0 <= k < v.len() ==> build_place_ok(bs[k / nr_runs as int], suite_path, suite_build, (#[trigger] v[k]).arguments)
        },
    decreases bs.len(),
{
    if bs.len() > 0 {
        let q = bs.drop_last();
        lemma_benches_build(q, ty, params, suite_path, suite_build, nr_runs);
        lemma_bench_entry_build(bs.last(), ty, params, suite_path, suite_build);
        match (benches_spec(q, ty, params, suite_path, suite_build, nr_runs), bench_entry(bs.last(), ty, params, suite_path, suite_build)) {
            (Some(p), Some(e)) => {
                let v = p + bench_runs(e.0, e.1, nr_runs);
                let a = bs.len() as int;
                let n = nr_runs as int;
                assert((a - 1) * n + n == a * n) by (nonlinear_arith);
                assert forall|k: int| 0 <= k < v.len() implies build_place_ok(
                    bs[k / nr_runs as int],
                    suite_path,
                    suite_build,
                    (#[trigger] v[k]).arguments,
                ) by {
                    if k < p.len() {
                        assert(v[k] == p[k]);
                        assert(k / n < a - 1) by (nonlinear_arith)
                            requires
                                0 <= k < (a - 1) * n,
                                n > 0,
                        ;
                        assert(bs[k / n] == q[k / n]);
                    } else {
                        assert(k / n == a - 1) by (nonlinear_arith)
                            requires
                                (a - 1) * n <= k < a * n,
                                n > 0,
                        ;
                        assert(v[k] == bench_runs(e.0, e.1, nr_runs)[k - p.len()]);
                    }
                }
            },
            _ => {},
        }
    } else {
        assert(bs.len() * nr_runs == 0);
    }
}

/// Where each run of a suite is built: run `k` belongs to benchmark `k / nr_runs` of the
/// suite (each benchmark has `nr_runs` runs, in order). A benchmark with its own
/// `build_cmd` is built with it in its own directory; one without, in a suite with a
/// `build_cmd`, is built with the suite's command in the suite path, whatever its
/// `bench_path`; one without either is built with `make` in its own directory.
pub proof fn law_run_build_place(suite: Json, nr_runs: usize)
    ensures
        benchmark_arguments_spec(suite, nr_runs) matches Some(v) ==> {
            let bs = jmembers(jget(suite, "benchmarks"@));
            &&& v.len() == bs.len() * nr_runs
            &&& (jtext(jget(suite, "suite_path"@), Seq::empty()) matches Some(sp) && forall|k: int|
                0 <= k < v.len() ==> build_place_ok(
                    bs[k / nr_runs as int],
                    sp,
                    if jhas(suite, "build_cmd"@) {
                        Some(quoted(jtext(jget(suite, "build_cmd"@), " "@).unwrap()))
                    } else {
                        None
                    },
                    (#[trigger] v[k]).arguments,
                ))
        },
{
    let suite_build = if jhas(suite, "build_cmd"@) {
        match jtext(jget(suite, "build_cmd"@), " "@) {
            Some(t) => Some(Some(quoted(t))),
            None => None,
        }
    } else {
        Some(None)
    };
    match (jtext(jget(suite, "sniper_args"@), " "@), jtext(jget(suite, "type"@), Seq::empty()), jtext(jget(suite, "suite_path"@), Seq::empty()), suite_build) {
        (Some(params), Some(tname), Some(sp), Some(sb)) => match experiment_type_of(lowercase(tname)) {
            Some(ty) => {
                if nr_runs > 0 {
                    lemma_benches_build(jmembers(jget(suite, "benchmarks"@)), ty, params, sp, sb, nr_runs as nat);
                } else {
                    lemma_benches_len(jmembers(jget(suite, "benchmarks"@)), ty, params, sp, sb, 0);
                }
            },
            None => {},
        },
        _ => {},
    }
}

/// The keys' placeholders are filled one after the other, each in the text the earlier
/// ones left: filling the keys `a` and then the keys `b` is filling `a + b`.
pub proof fn law_fill_keys_in_sequence(
    s: Seq<char>,
    a: Seq<Seq<char>>,
    b: Seq<Seq<char>>,
    m: Map<Seq<char>, Seq<char>>,
)
    ensures
        fill_keys(s, a + b, m) == fill_keys(fill_keys(s, a, m), b, m),
    decreases a.len(),
{
    if a.len() == 0 {
        assert(a + b =~= b);
    } else {
        assert((a + b)[0] == a[0]);
        assert((a + b).drop_first() =~= a.drop_first() + b);
        law_fill_keys_in_sequence(replace_all(s, "{"@ + a[0] + "}"@, m[a[0]]), a.drop_first(), b, m);
    }
}

/// Filling a single key replaces every `{key}` of the text, left to right, by the key's
/// value; with the law above, filling the keys `k1 .. kn` is replacing `{k1}` by its value,
/// then `{k2}` in that result, and so on, so that no key is filled in the text as it was
/// before the earlier keys were.
pub proof fn law_fill_one_key(s: Seq<char>, k: Seq<char>, m: Map<Seq<char>, Seq<char>>)
    ensures
        fill_keys(s, seq![k], m) == replace_all(s, "{"@ + k + "}"@, m[k]),
{
    let ks = seq![k];
    let r = replace_all(s, "{"@ + k + "}"@, m[k]);
    assert(ks.drop_first() =~= Seq::<Seq<char>>::empty());
    assert(ks[0] == k);
    assert(fill_keys(r, ks.drop_first(), m) == r);
    assert(fill_keys(s, ks, m) == fill_keys(r, ks.drop_first(), m));
}

/// The Sniper arguments of each configuration are the experiment's arguments with the
/// configuration's value filled in for each parameter key, key after key: for keys
/// `keys.push(k)`, they are those filled for `keys`, with `{k}` then replaced by `k`'s value.
pub proof fn law_config_arguments_filled(
    keys: Seq<Seq<char>>,
    k: Seq<char>,
    s: Seq<char>,
    m: Map<Seq<char>, Seq<char>>,
)
    ensures
        fill_keys(s, keys.push(k), m) == replace_all(fill_keys(s, keys, m), "{"@ + k + "}"@, m[k]),
{
    assert(keys.push(k) =~= keys + seq![k]);
    law_fill_keys_in_sequence(s, keys, seq![k], m);
    law_fill_one_key(fill_keys(s, keys, m), k, m);
}

} // verus!
