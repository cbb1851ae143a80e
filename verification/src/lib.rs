pub mod text;
pub mod seqs;
pub mod stat;
pub mod strmap;
pub mod communication;
pub mod config_parse;
pub mod constants;
pub mod experiments;
pub mod host_setup;
pub mod handle_object;
pub mod hpc;
pub mod job;
pub mod job_data;
pub mod job_map_laws;
pub mod json_model;
pub mod manage;
pub mod paths;
pub mod run;
pub mod utils;
