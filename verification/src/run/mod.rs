pub mod benchmark_parameter;
pub mod benchmark_run;
pub mod benchmark_suite;
pub mod caching;
pub mod config_parse;
pub mod db;
pub mod experiment;
pub mod fill_template;
pub mod from_job;
pub mod job_handler;
pub mod laws;
pub mod simulator_parameter;
pub mod sniper_config;
pub mod status;
pub mod test_job;
