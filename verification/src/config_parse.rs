use vstd::prelude::*;

use crate::run::config_parse::{read_args, read_words, string_views};
use crate::strmap::StrMap;

verus! {

/// The arguments of a Sniper command line, read with only `-c` and `-g` as options (unlike
/// `run::config_parse::ParsedArgs`, which also takes `-s`).
#[derive(Debug)]
pub struct ParsedArgs {
    pub configs: Vec<String>,
    pub cmd_settings: StrMap,
    pub others: Vec<String>,
}

impl ParsedArgs {
    /// Reads a Sniper command line: `-c name` selects a configuration file (after `base`),
    /// `-g key=value` overrides a setting, every other word (`-s` among them) is kept aside.
    pub fn new(input: &str) -> (r: Self)
        ensures
            string_views(r.configs@) == read_args(input@, false).configs,
            r.cmd_settings@ == read_args(input@, false).settings,
            string_views(r.others@) == read_args(input@, false).others,
    {
        let (configs, cmd_settings, others) = read_words(input, false);
        ParsedArgs { configs, cmd_settings, others }
    }
}

} // verus!
