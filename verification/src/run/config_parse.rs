use vstd::prelude::*;

use crate::run::sniper_config::{law_text_overrides, parse_config, SniperConfig};
use crate::strmap::{map_of, StrMap};
use crate::text::{
    append_chars, chars_of, find_char, find_in, same_chars, slice_of, string_of, views, words,
    words_of,
};

verus! {

/// `s` without a leading `--`.
pub open spec fn strip_dashes(s: Seq<char>) -> Seq<char> {
    if s.len() >= 2 && s[0] == '-' && s[1] == '-' {
        s.skip(2)
    } else {
        s
    }
}

/// What the arguments read so far amount to: the configuration names, the settings
/// given on the command line, and the other words.
pub struct ArgsState {
    pub configs: Seq<Seq<char>>,
    pub settings: Map<Seq<char>, Seq<char>>,
    pub others: Seq<Seq<char>>,
}

/// Whether `a` is an option that takes the next word: `-c`, `-g`, and `-s` where `with_s`.
pub open spec fn is_option(a: Seq<char>, with_s: bool) -> bool {
    a == "-c"@ || a == "-g"@ || (with_s && a == "-s"@)
}

/// Reads the words `toks` on top of `st`: `-c name` adds a configuration, `-g key=value`
/// and, where `with_s`, `-s key:value` (each optionally `--`-prefixed) add a setting (`-g`
/// only when the `=` is there; `-s` without `:` sets the key to the empty value), and any
/// other word is kept aside. An option without a following word ends the reading.
pub open spec fn args_from(toks: Seq<Seq<char>>, st: ArgsState, with_s: bool) -> ArgsState
    decreases toks.len(),
{
    if toks.len() == 0 {
        st
    } else {
        let a = toks[0];
        if is_option(a, with_s) {
            if toks.len() < 2 {
                st
            } else {
                let s = strip_dashes(toks[1]);
                let next = if a == "-c"@ {
                    ArgsState { configs: st.configs.push(toks[1]), ..st }
                } else if a == "-g"@ {
                    match find_char(s, '=') {
                        Some(e) => ArgsState {
                            settings: st.settings.insert(s.take(e as int), s.skip(e + 1 as int)),
                            ..st
                        },
                        None => st,
                    }
                } else {
                    match find_char(s, ':') {
                        Some(e) => ArgsState {
                            settings: st.settings.insert(s.take(e as int), s.skip(e + 1 as int)),
                            ..st
                        },
                        None => ArgsState { settings: st.settings.insert(s, Seq::empty()), ..st },
                    }
                };
                args_from(toks.skip(2), next, with_s)
            }
        } else {
            args_from(toks.drop_first(), ArgsState { others: st.others.push(a), ..st }, with_s)
        }
    }
}

/// What the words of `input` amount to, read from the configuration `base` on (with `-s`
/// settings where `with_s`).
pub open spec fn read_args(input: Seq<char>, with_s: bool) -> ArgsState {
    args_from(
        words(input),
        ArgsState { configs: seq!["base"@], settings: Map::empty(), others: Seq::empty() },
        with_s,
    )
}

/// What `ParsedArgs::new(input)` holds: the configuration `base` first, then the ones that
/// the words of `input` name.
pub open spec fn parsed_args_spec(input: Seq<char>) -> ArgsState {
    read_args(input, true)
}

pub open spec fn string_views(v: Seq<String>) -> Seq<Seq<char>> {
    v.map_values(|s: String| s@)
}

/// The configuration obtained by reading the given configuration texts in order (a text
/// that could not be read is absent and changes nothing).
pub open spec fn configs_map(texts: Seq<Option<Seq<char>>>) -> Map<Seq<char>, Seq<char>>
    decreases texts.len(),
{
    if texts.len() == 0 {
        Map::empty()
    } else {
        let m = configs_map(texts.drop_last());
        match texts.last() {
            Some(t) => parse_config(t, m).0,
            None => m,
        }
    }
}

pub open spec fn opt_views(v: Seq<Option<String>>) -> Seq<Option<Seq<char>>> {
    v.map_values(|o: Option<String>| match o {
        Some(s) => Some(s@),
        None => None,
    })
}

/// Reads the words of a Sniper command line (see `args_from`): the configuration names,
/// the settings and the other words.
pub fn read_words(input: &str, with_s: bool) -> (r: (Vec<String>, StrMap, Vec<String>))
    ensures
        string_views(r.0@) == read_args(input@, with_s).configs,
        r.1@ == read_args(input@, with_s).settings,
        string_views(r.2@) == read_args(input@, with_s).others,
{
    let chars = chars_of(input);
    let toks = words_of(&chars);
    let ghost tv = words(input@);
    let mut configs: Vec<String> = Vec::new();
    configs.push("base".to_owned());
    let mut cmd_settings = StrMap::new();
    let mut others: Vec<String> = Vec::new();
    let opt_c = chars_of("-c");
    let opt_g = chars_of("-g");
    let opt_s = chars_of("-s");
    let mut i: usize = 0;
    proof {
        assert(tv.skip(0) == tv);
        assert(string_views(configs@) =~= seq!["base"@]);
        assert(string_views(others@) =~= Seq::<Seq<char>>::empty());
    }
    while i < toks.len()
        invariant
            views(toks@) == tv,
            tv == words(input@),
            opt_c@ == "-c"@,
            opt_g@ == "-g"@,
            opt_s@ == "-s"@,
            i <= toks.len(),
            read_args(input@, with_s) == args_from(
                tv.skip(i as int),
                ArgsState {
                    configs: string_views(configs@),
                    settings: cmd_settings@,
                    others: string_views(others@),
                },
                with_s,
            ),
        decreases toks.len() - i,
    {
        let a = &toks[i];
        let ghost rest = tv.skip(i as int);
        assert(rest[0] == a@);
        let is_c = same_chars(a, &opt_c);
        let is_g = same_chars(a, &opt_g);
        let is_s = with_s && same_chars(a, &opt_s);
        if is_c || is_g || is_s {
            if i + 1 >= toks.len() {
                proof {
                    assert(rest.len() < 2);
                    assert(tv.skip(toks.len() as int).len() == 0);
                }
                i = toks.len();
                continue;
            }
            let w = &toks[i + 1];
            assert(rest[1] == w@);
            assert(rest.skip(2) == tv.skip(i + 2));
            let s = if w.len() >= 2 && w[0] == '-' && w[1] == '-' {
                slice_of(w, 2, w.len())
            } else {
                slice_of(w, 0, w.len())
            };
            assert(w@.subrange(0, w.len() as int) == w@);
            assert(s@ == strip_dashes(w@));
            if is_c {
                let ghost c0 = configs@;
                configs.push(string_of(w));
                assert(string_views(configs@) =~= string_views(c0).push(w@));
            } else if is_g {
                match find_in(&s, 0, s.len(), '=') {
                    Some(e) => {
                        assert(s@.subrange(0, s.len() as int) == s@);
                        let k = slice_of(&s, 0, e);
                        let v = slice_of(&s, e + 1, s.len());
                        cmd_settings.insert(string_of(&k), string_of(&v));
                    },
                    None => {
                        assert(s@.subrange(0, s.len() as int) == s@);
                    },
                }
            } else {
                match find_in(&s, 0, s.len(), ':') {
                    Some(e) => {
                        assert(s@.subrange(0, s.len() as int) == s@);
                        let k = slice_of(&s, 0, e);
                        let v = slice_of(&s, e + 1, s.len());
                        cmd_settings.insert(string_of(&k), string_of(&v));
                    },
                    None => {
                        assert(s@.subrange(0, s.len() as int) == s@);
                        let empty: Vec<char> = Vec::new();
                        cmd_settings.insert(string_of(&s), string_of(&empty));
                    },
                }
            }
            i += 2;
        } else {
            let ghost o0 = others@;
            others.push(string_of(a));
            assert(string_views(others@) =~= string_views(o0).push(a@));
            assert(rest.drop_first() == tv.skip(i + 1));
            i += 1;
        }
    }
    assert(tv.skip(i as int).len() == 0);
    (configs, cmd_settings, others)
}

/// The arguments that select a Sniper configuration.
#[derive(Debug)]
pub struct ParsedArgs {
    pub configs: Vec<String>,
    pub cmd_settings: StrMap,
    pub others: Vec<String>,
}

impl ParsedArgs {
    /// Reads a Sniper command line: `-c name` selects a configuration file (after `base`),
    /// `-g key=value` and `-s key:value` override a setting.
    pub fn new(input: &str) -> (r: Self)
        ensures
            string_views(r.configs@) == parsed_args_spec(input@).configs,
            r.cmd_settings@ == parsed_args_spec(input@).settings,
            string_views(r.others@) == parsed_args_spec(input@).others,
    {
        let (configs, cmd_settings, others) = read_words(input, true);
        ParsedArgs { configs, cmd_settings, others }
    }

    /// The names of the configuration files to read, in order: `<config>.cfg`.
    pub fn config_file_names(&self) -> (r: Vec<String>)
        ensures
            r@.len() == self.configs@.len(),
            forall|i: int| 0 <= i < r@.len() ==> #[trigger] r@[i]@ == self.configs@[i]@ + ".cfg"@,
    {
        let mut r: Vec<String> = Vec::new();
        let ext = chars_of(".cfg");
        let mut i: usize = 0;
        while i < self.configs.len()
            invariant
                ext@ == ".cfg"@,
                i <= self.configs.len(),
                r@.len() == i,
                forall|j: int| 0 <= j < i ==> #[trigger] r@[j]@ == self.configs@[j]@ + ".cfg"@,
            decreases self.configs.len() - i,
        {
            let mut v = chars_of(self.configs[i].as_str());
            append_chars(&mut v, &ext);
            r.push(string_of(&v));
            i += 1;
        }
        r
    }

    /// The configuration that the arguments select, given the texts of the files that
    /// `config_file_names` names (`None` for a file that could not be read): the files are
    /// read in order, then the command-line settings override them.
    pub fn get_final_config(&self, texts: &Vec<Option<String>>) -> (r: SniperConfig)
        requires
            texts.len() == self.configs.len(),
        ensures
            r@ == configs_map(opt_views(texts@)).union_prefer_right(self.cmd_settings@),
    {
        let mut settings = SniperConfig::new();
        let ghost tv = opt_views(texts@);
        let mut i: usize = 0;
        assert(configs_map(tv.take(0)) =~= Map::empty());
        while i < texts.len()
            invariant
                tv == opt_views(texts@),
                i <= texts.len(),
                settings@ == configs_map(tv.take(i as int)),
            decreases texts.len() - i,
        {
            assert(tv.take(i + 1).drop_last() == tv.take(i as int));
            match &texts[i] {
                Some(t) => {
                    assert(tv.take(i + 1).last() == Some(t@));
                    let _ = settings.parse_text(t.as_str());
                },
                None => {
                    assert(tv.take(i + 1).last() is None);
                },
            }
            i += 1;
        }
        assert(tv.take(i as int) == tv);
        let ghost base = settings@;
        let pairs = self.cmd_settings.to_pairs();
        let ghost pv = self.cmd_settings.pairs();
        let mut j: usize = 0;
        assert(map_of(pv.take(0)) =~= Map::empty());
        assert(base.union_prefer_right(Map::empty()) =~= base);
        while j < pairs.len()
            invariant
                crate::strmap::pair_views(pairs@) == pv,
                j <= pairs.len(),
                settings@ == base.union_prefer_right(map_of(pv.take(j as int))),
            decreases pairs.len() - j,
        {
            assert(pv.take(j + 1).drop_last() == pv.take(j as int));
            assert(pv.take(j + 1).last() == pv[j as int]);
            assert(pv[j as int] == (pairs@[j as int].0@, pairs@[j as int].1@));
            settings.set_override(pairs[j].0.as_str(), pairs[j].1.as_str());
            assert(settings@ =~= base.union_prefer_right(map_of(pv.take(j + 1))));
            j += 1;
        }
        assert(pv.take(j as int) == pv);
        settings
    }
}

/// Configuration files are read in order and a later file wins: adding a file after
/// `texts` overrides every key that file sets with its value and keeps every other key.
pub proof fn law_later_file_overrides(texts: Seq<Option<Seq<char>>>, t: Seq<char>)
    ensures
        configs_map(texts.push(Some(t))) == configs_map(texts).union_prefer_right(
            parse_config(t, Map::empty()).0,
        ),
{
    assert(texts.push(Some(t)).drop_last() == texts);
    law_text_overrides(t, configs_map(texts));
}

} // verus!
