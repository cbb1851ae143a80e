pub mod job_id;
