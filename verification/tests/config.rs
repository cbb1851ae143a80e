use std::collections::BTreeMap;
use std::hash::{Hash, Hasher};

use titan_controller::config_parse::ParsedArgs as FirstParsedArgs;
use titan_controller::run::caching::{get_hash_sniper_config, get_tools_hash_path, hash_trace_folder};
use titan_controller::run::config_parse::ParsedArgs;
use titan_controller::run::fill_template::fill_template;
use titan_controller::run::sniper_config::SniperConfig;
use titan_controller::strmap::StrMap;

fn get(m: &StrMap, k: &str) -> Option<String> {
    m.get(&k.to_string()).cloned()
}

fn fx<T: Hash + ?Sized>(v: &T) -> u64 {
    let mut h = rustc_hash::FxHasher::default();
    v.hash(&mut h);
    h.finish()
}

#[test]
fn sniper_config_sections_comments_and_arrays() {
    let mut c = SniperConfig::new();
    let text = "# top\n[general]\ntotal_cores = 4 # four\nfoo[] = 1,2\n\n[perf_model/l1]\nsize=32\n";
    assert!(c.parse_text(text).is_ok());
    assert_eq!(get(&c.map, "general/total_cores"), Some("4".to_string()));
    assert_eq!(get(&c.map, "general/foo"), Some("1,2".to_string()));
    assert_eq!(get(&c.map, "perf_model/l1/size"), Some("32".to_string()));
    assert_eq!(c.map.to_pairs().len(), 3);
}

#[test]
fn sniper_config_invalid_line_keeps_earlier_settings() {
    let mut c = SniperConfig::new();
    let err = c.parse_text("a=1\n  garbage line  \nb=2\n").unwrap_err();
    assert_eq!(err.line, 2);
    assert_eq!(err.text, "garbage line");
    assert_eq!(err.message(), "Invalid syntax on line 2: garbage line");
    assert_eq!(get(&c.map, "a"), Some("1".to_string()));
    assert_eq!(get(&c.map, "b"), None);
}

#[test]
fn sniper_config_override_wins() {
    let mut c = SniperConfig::new();
    c.parse_text("[x]\ny = 1\n").unwrap();
    c.set_override("x/y", "9");
    assert_eq!(get(&c.map, "x/y"), Some("9".to_string()));
}

#[test]
fn parsed_args_options() {
    let p = ParsedArgs::new("-c gainestown -g --perf_model/l1/size=64 -s general:x -s flag --foo -g noeq");
    assert_eq!(p.configs, vec!["base".to_string(), "gainestown".to_string()]);
    assert_eq!(get(&p.cmd_settings, "perf_model/l1/size"), Some("64".to_string()));
    assert_eq!(get(&p.cmd_settings, "general"), Some("x".to_string()));
    assert_eq!(get(&p.cmd_settings, "flag"), Some("".to_string()));
    assert_eq!(p.cmd_settings.to_pairs().len(), 3);
    assert_eq!(p.others, vec!["--foo".to_string()]);
    assert_eq!(p.config_file_names(), vec!["base.cfg".to_string(), "gainestown.cfg".to_string()]);
}

#[test]
fn parsed_args_option_without_value_ends_reading() {
    let p = ParsedArgs::new("x -c");
    assert_eq!(p.configs, vec!["base".to_string()]);
    assert_eq!(p.others, vec!["x".to_string()]);
}

#[test]
fn first_parsed_args_has_no_s_option() {
    let p = FirstParsedArgs::new("-s general:x -g a=b");
    assert_eq!(p.others, vec!["-s".to_string(), "general:x".to_string()]);
    assert_eq!(get(&p.cmd_settings, "a"), Some("b".to_string()));
    assert_eq!(get(&p.cmd_settings, "general"), None);
}

#[test]
fn final_config_reads_files_then_overrides() {
    let p = ParsedArgs::new("-c extra -g general/cores=8");
    let texts = vec![Some("[general]\ncores = 1\nmode = fast\n".to_string()), None];
    let c = p.get_final_config(&texts);
    assert_eq!(get(&c.map, "general/cores"), Some("8".to_string()));
    assert_eq!(get(&c.map, "general/mode"), Some("fast".to_string()));
    assert_eq!(c.map.to_pairs().len(), 2);
}

#[test]
fn fill_template_replaces_keys() {
    let mut m = StrMap::new();
    m.insert("<NAME>".to_string(), "World".to_string());
    assert_eq!(fill_template("Hello <NAME>! <NAME>.", &m), "Hello World! World.");
    assert_eq!(fill_template("no keys", &StrMap::new()), "no keys");
}

#[test]
fn sniper_config_hash_is_fx_hash_of_sorted_settings() {
    let texts = vec![Some("[general]\ncores = 1\n".to_string())];
    let h = get_hash_sniper_config("-g general/cores=2", &texts);
    let mut expected = BTreeMap::new();
    expected.insert("general/cores".to_string(), "2".to_string());
    assert_eq!(h, fx(&expected));
}

#[test]
fn trace_and_tools_hashes() {
    assert_eq!(hash_trace_folder("spec", "1.0"), fx("spec 1.0"));
    let traces = Some(vec![("spec".to_string(), "1".to_string())]);
    let repos = vec!["abc".to_string(), "def".to_string()];
    let total = format!("abcdef{}", fx("spec 1"));
    assert_eq!(get_tools_hash_path("/cache", &repos, &traces), format!("/cache/{:x}", fx(total.as_str())));
    assert_eq!(get_tools_hash_path("/cache", &vec![], &None), format!("/cache/{:x}", fx("")));
}
