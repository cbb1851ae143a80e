pub mod slurm_handle;
