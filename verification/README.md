# titan_controller

Submits Sniper simulation experiments to a Slurm cluster (Titan), tracks their
tasks and collects the results. The decisions of the tool are a Verus library
with contracts; the program around it does the I/O.

## Layout

- `src/` — the verified library.
  - `run/` — the experiment model (experiment, benchmark suite, simulator
    parameter, benchmark parameter, run), task numbering and state filters,
    the Sniper configuration reader, the cache keys and the checkouts that key
    them, the suites built from jobs, the job-file templates,
    the result checks and the collection plan; `run/laws.rs` states what the
    filters and the numbering keep across calls.
  - `hpc/` — the Slurm commands and the readers of `squeue` / `sacct` output.
  - `communication/` — the credentials file and the `ssh` / `scp` commands.
  - `manage/` — Docker images, traces and node status on the cluster.
  - `experiments.rs`, `job.rs`, `job_data.rs`, `config_parse.rs` — the
    experiment-description reader and job bookkeeping of the JSON job map;
    `job_map_laws.rs` holds their laws.
  - `json_model.rs`, `strmap.rs`, `text.rs`, `paths.rs`, `seqs.rs` — the
    values the library works on and their specifications; `json_model.rs` also
    parses JSON text with the `json` crate.
- `tests/` — tests of the library on concrete values.
- `app/` — the command-line program: argument handling, files, `ssh`, `git`,
  the SQLite job database and the serde copies of the job maps, calling the
  library for every decision.
