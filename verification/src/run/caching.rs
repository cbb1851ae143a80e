use vstd::prelude::*;

use crate::experiments::{strip_suffix, strip_suffix_chars};
use crate::json_model::{jdisplay, jentries, jget, jhas, Json};
use crate::paths::{join, path_join};
use crate::run::config_parse::{configs_map, opt_views, parsed_args_spec, ParsedArgs};
use crate::run::sniper_config::SniperConfig;
use crate::text::{append_chars, chars_of, same_chars, decimal, decimal_chars_u64, lower_hex, lower_hex_chars, string_of};

use std::hash::{Hash, Hasher};

verus! {

/// What `FxHasher::default()` finishes with after hashing a Sniper configuration with
/// settings `settings` (its map, walked in key order), on a machine whose words have
/// `word_bits` bits.
pub uninterp spec fn fx_hash_config(settings: Map<Seq<char>, Seq<char>>, word_bits: u32) -> u64;

/// What `FxHasher::default()` finishes with after hashing the string `s`, on a machine whose
/// words have `word_bits` bits.
pub uninterp spec fn fx_hash_str(s: Seq<char>, word_bits: u32) -> u64;

/// Hashes `config` with `rustc_hash::FxHasher`: the settings go into a `BTreeMap`, which
/// hashes its length and then each key and value in key order, and the hasher's `finish`
/// is returned. The result is named, not stated: it is the same for the same settings on
/// machines with the same word size, which is what `fx_hash_config` records.
#[verifier::external_body]
fn hash_config_normalized(config: &SniperConfig) -> (r: u64)
    ensures
        r == fx_hash_config(config@, usize::BITS),
{
    let map: std::collections::BTreeMap<String, String> = config.map.to_pairs().into_iter().collect();
    let mut hasher = rustc_hash::FxHasher::default();
    map.hash(&mut hasher);
    hasher.finish()
}

/// Hashes the string `s` with `rustc_hash::FxHasher` and returns the hasher's `finish`.
/// The result is named (`fx_hash_str`), not stated.
#[verifier::external_body]
fn fx_hash_text(s: &str) -> (r: u64)
    ensures
        r == fx_hash_str(s@, usize::BITS),
{
    let mut hasher = rustc_hash::FxHasher::default();
    s.hash(&mut hasher);
    hasher.finish()
}

/// The settings that a Sniper command line `exp_args` selects, given the texts of the
/// configuration files it names (`None` for one that could not be read).
pub open spec fn final_settings(exp_args: Seq<char>, texts: Seq<Option<Seq<char>>>) -> Map<Seq<char>, Seq<char>> {
    configs_map(texts).union_prefer_right(parsed_args_spec(exp_args).settings)
}

/// The cache key of a Sniper command line: the hash of the configuration it selects.
/// `texts` holds the contents of the files that `ParsedArgs::new(exp_args).config_file_names()`
/// names, in that order.
pub fn get_hash_sniper_config(exp_args: &str, texts: &Vec<Option<String>>) -> (r: u64)
    requires
        texts.len() == parsed_args_spec(exp_args@).configs.len(),
    ensures
        r == fx_hash_config(final_settings(exp_args@, opt_views(texts@)), usize::BITS),
{
    let p_args = ParsedArgs::new(exp_args);
    proof {
        assert(p_args.configs@.len() == parsed_args_spec(exp_args@).configs.len());
    }
    let final_conf = p_args.get_final_config(texts);
    hash_config_normalized(&final_conf)
}

/// The text that identifies a trace suite at a version: `"<suite> <version>"`.
pub open spec fn trace_key(suite_name: Seq<char>, version: Seq<char>) -> Seq<char> {
    suite_name + " "@ + version
}

/// The hash of a trace suite at a version.
pub fn hash_trace_folder(suite_name: &str, version: &str) -> (r: u64)
    ensures
        r == fx_hash_str(trace_key(suite_name@, version@), usize::BITS),
{
    let mut v = chars_of(suite_name);
    let sp = chars_of(" ");
    append_chars(&mut v, &sp);
    let ver = chars_of(version);
    append_chars(&mut v, &ver);
    let s = string_of(&v);
    fx_hash_text(s.as_str())
}

/// The concatenation of the strings `parts`.
pub open spec fn concat_all(parts: Seq<Seq<char>>) -> Seq<char>
    decreases parts.len(),
{
    if parts.len() == 0 {
        Seq::empty()
    } else {
        concat_all(parts.drop_last()) + parts.last()
    }
}

/// The decimal hashes of the trace suites `traces` (suite, version), in order.
pub open spec fn trace_hash_texts(traces: Seq<(Seq<char>, Seq<char>)>) -> Seq<Seq<char>> {
    traces.map_values(|t: (Seq<char>, Seq<char>)| decimal(fx_hash_str(trace_key(t.0, t.1), usize::BITS) as nat))
}

/// The views of a list of string pairs.
pub open spec fn pair_list_views(v: Seq<(String, String)>) -> Seq<(Seq<char>, Seq<char>)> {
    v.map_values(|p: (String, String)| (p.0@, p.1@))
}

/// The text whose hash names the tools directory: the commit hashes of the repositories,
/// then the decimal hash of each trace suite.
pub open spec fn tools_key(repo_hashes: Seq<Seq<char>>, traces: Seq<(Seq<char>, Seq<char>)>) -> Seq<char> {
    concat_all(repo_hashes) + concat_all(trace_hash_texts(traces))
}

/// The directory of the tools built for a set of repository commits and trace versions:
/// `cache_dir/<hex hash>`, where the hash is taken of `tools_key`. `repo_hashes` holds the
/// commit of each known repository, `traces` each trace suite with its version, each in
/// the order in which they are listed.
pub fn get_tools_hash_path(
    cache_dir: &str,
    repo_hashes: &Vec<String>,
    traces: &Option<Vec<(String, String)>>,
) -> (r: String)
    ensures
        r@ == path_join(
            cache_dir@,
            lower_hex(
                fx_hash_str(
                    tools_key(
                        repo_hashes@.map_values(|s: String| s@),
                        match traces {
                            Some(t) => pair_list_views(t@),
                            None => Seq::empty(),
                        },
                    ),
                    usize::BITS,
                ) as nat,
            ),
        ),
{
    let ghost rv = repo_hashes@.map_values(|s: String| s@);
    let mut total: Vec<char> = Vec::new();
    let mut i: usize = 0;
    assert(rv.take(0) =~= Seq::<Seq<char>>::empty());
    while i < repo_hashes.len()
        invariant
            rv == repo_hashes@.map_values(|s: String| s@),
            i <= repo_hashes.len(),
            total@ == concat_all(rv.take(i as int)),
        decreases repo_hashes.len() - i,
    {
        let h = chars_of(repo_hashes[i].as_str());
        assert(rv.take(i + 1).drop_last() =~= rv.take(i as int));
        append_chars(&mut total, &h);
        i += 1;
    }
    assert(rv.take(i as int) =~= rv);
    let ghost repos_part = total@;
    let ghost tv: Seq<(Seq<char>, Seq<char>)> = match traces {
        Some(t) => pair_list_views(t@),
        None => Seq::empty(),
    };
    let ghost th = trace_hash_texts(tv);
    let mut traces_part: Vec<char> = Vec::new();
    match traces {
        Some(trace_list) => {
            let mut k: usize = 0;
            assert(th.take(0) =~= Seq::<Seq<char>>::empty());
            while k < trace_list.len()
                invariant
                    tv == pair_list_views(trace_list@),
                    th == trace_hash_texts(tv),
                    k <= trace_list.len(),
                    traces_part@ == concat_all(th.take(k as int)),
                decreases trace_list.len() - k,
            {
                let h = hash_trace_folder(trace_list[k].0.as_str(), trace_list[k].1.as_str());
                let d = decimal_chars_u64(h);
                assert(th.take(k + 1).drop_last() =~= th.take(k as int));
                assert(th[k as int] == d@);
                append_chars(&mut traces_part, &d);
                k += 1;
            }
            assert(th.take(k as int) =~= th);
        },
        None => {
            assert(th =~= Seq::<Seq<char>>::empty());
        },
    }
    append_chars(&mut total, &traces_part);
    let total_s = string_of(&total);
    let final_hash = fx_hash_text(total_s.as_str());
    let hex = string_of(&lower_hex_chars(final_hash));
    join(cache_dir, hex.as_str())
}

/// The cache key of a Sniper command line depends only on the settings it selects: two
/// command lines (with their configuration files) that select the same settings get the
/// same key.
pub proof fn law_same_settings_same_key(
    args1: Seq<char>,
    texts1: Seq<Option<Seq<char>>>,
    args2: Seq<char>,
    texts2: Seq<Option<Seq<char>>>,
)
    requires
        final_settings(args1, texts1) == final_settings(args2, texts2),
    ensures
        fx_hash_config(final_settings(args1, texts1), usize::BITS) == fx_hash_config(
            final_settings(args2, texts2),
            usize::BITS,
        ),
{
}

/// A local checkout whose commit keys the cache of results.
#[derive(Debug, Clone, Copy, PartialEq, Eq, Structural)]
pub enum ToolRepo {
    Benchmarks,
    Sniper,
}

/// The checkout that the repository name `name` stands for.
pub open spec fn repo_named(name: Seq<char>) -> Option<ToolRepo> {
    if name == "benchmarks"@ {
        Some(ToolRepo::Benchmarks)
    } else if name == "sniper"@ {
        Some(ToolRepo::Sniper)
    } else {
        None
    }
}

/// The repository name of a `git` entry key: the key without its `_branch` suffix.
pub open spec fn repo_key_name(k: Seq<char>) -> Seq<char> {
    match strip_suffix(k, "_branch"@) {
        Some(n) => n,
        None => k,
    }
}

/// The branch that a `git` entry names: its text when it is a string, else nothing.
pub open spec fn branch_text(v: Json) -> Seq<char> {
    match v {
        Json::Str(s) => s@,
        _ => Seq::empty(),
    }
}

/// The checkouts named by the `git` entries `es`, in order, with their branches; entries
/// of other repositories are left out.
pub open spec fn checkouts_spec(es: Seq<(String, Json)>) -> Seq<(ToolRepo, Seq<char>)>
    decreases es.len(),
{
    if es.len() == 0 {
        Seq::empty()
    } else {
        let p = checkouts_spec(es.drop_last());
        match repo_named(repo_key_name(es.last().0@)) {
            Some(r) => p.push((r, branch_text(es.last().1))),
            None => p,
        }
    }
}

/// The views of checkouts.
pub open spec fn checkout_views(v: Seq<(ToolRepo, String)>) -> Seq<(ToolRepo, Seq<char>)> {
    v.map_values(|p: (ToolRepo, String)| (p.0, p.1@))
}

/// The local checkouts whose commits key the cache of an experiment `exp`, with the
/// branches its `git` entries name (`sniper_branch` or `sniper` for Sniper, and the same
/// for `benchmarks`), in the order of those entries.
pub fn tool_checkouts(exp: &Json) -> (r: Vec<(ToolRepo, String)>)
    ensures
        checkout_views(r@) == checkouts_spec(jentries(jget(*exp, "git"@))),
{
    let empty: Vec<(String, Json)> = Vec::new();
    let es = match exp.field("git") {
        Some(g) => match g.entries() {
            Some(es) => es,
            None => &empty,
        },
        None => &empty,
    };
    proof {
        reveal_strlit("git");
    }
    let suffix = chars_of("_branch");
    let bench = chars_of("benchmarks");
    let sniper = chars_of("sniper");
    proof {
        reveal_strlit("_branch");
        reveal_strlit("benchmarks");
        reveal_strlit("sniper");
    }
    let mut out: Vec<(ToolRepo, String)> = Vec::new();
    let mut i: usize = 0;
    assert(es@.take(0) =~= Seq::<(String, Json)>::empty());
    assert(checkout_views(out@) =~= Seq::<(ToolRepo, Seq<char>)>::empty());
    while i < es.len()
        invariant
            es@ == jentries(jget(*exp, "git"@)),
            suffix@ == "_branch"@,
            bench@ == "benchmarks"@,
            sniper@ == "sniper"@,
            i <= es.len(),
            checkout_views(out@) == checkouts_spec(es@.take(i as int)),
        decreases es.len() - i,
    {
        let k = chars_of(es[i].0.as_str());
        let name = match strip_suffix_chars(&k, &suffix) {
            Some(n) => n,
            None => k,
        };
        let repo = if same_chars(&name, &bench) {
            Some(ToolRepo::Benchmarks)
        } else if same_chars(&name, &sniper) {
            Some(ToolRepo::Sniper)
        } else {
            None
        };
        assert(es@.take(i + 1).drop_last() =~= es@.take(i as int));
        assert(es@.take(i + 1).last() == es@[i as int]);
        assert(repo == repo_named(repo_key_name(es@[i as int].0@)));
        if let Some(r) = repo {
            let branch = match &es[i].1 {
                Json::Str(s) => s.clone(),
                _ => String::new(),
            };
            let ghost before = out@;
            out.push((r, branch));
            assert(checkout_views(out@) =~= checkout_views(before).push((r, branch@)));
        }
        i += 1;
    }
    assert(es@.take(es.len() as int) =~= es@);
    out
}

/// The trace versions of an experiment: each entry of its `traces` object, with the text
/// its value prints as.
pub open spec fn trace_versions_spec(exp: Json) -> Option<Seq<(Seq<char>, Seq<char>)>> {
    if jhas(exp, "traces"@) {
        Some(jentries(jget(exp, "traces"@)).map_values(|e: (String, Json)| (e.0@, jdisplay(e.1))))
    } else {
        None
    }
}

/// The views of text pairs.
pub open spec fn text_pairs(v: Seq<(String, String)>) -> Seq<(Seq<char>, Seq<char>)> {
    v.map_values(|p: (String, String)| (p.0@, p.1@))
}

/// The trace suites and versions whose folders key the cache of an experiment `exp`:
/// `None` when it names no `traces`.
pub fn trace_versions(exp: &Json) -> (r: Option<Vec<(String, String)>>)
    ensures
        match r {
            Some(v) => trace_versions_spec(*exp) == Some(text_pairs(v@)),
            None => trace_versions_spec(*exp) is None,
        },
{
    proof {
        reveal_strlit("traces");
    }
    match exp.field("traces") {
        None => None,
        Some(t) => {
            let empty: Vec<(String, Json)> = Vec::new();
            let es = match t.entries() {
                Some(es) => es,
                None => &empty,
            };
            let mut out: Vec<(String, String)> = Vec::new();
            let mut i: usize = 0;
            while i < es.len()
                invariant
                    es@ == jentries(jget(*exp, "traces"@)),
                    i <= es.len(),
                    text_pairs(out@) =~= es@.take(i as int).map_values(|e: (String, Json)| (e.0@, jdisplay(e.1))),
                decreases es.len() - i,
            {
                let k = es[i].0.clone();
                let v = es[i].1.display();
                let ghost before = out@;
                out.push((k, v));
                assert(k@ == es@[i as int].0@);
                assert(text_pairs(out@) =~= text_pairs(before).push((k@, v@)));
                assert(es@.take(i + 1) =~= es@.take(i as int).push(es@[i as int]));
                i += 1;
            }
            assert(es@.take(es.len() as int) =~= es@);
            Some(out)
        },
    }
}

} // verus!
