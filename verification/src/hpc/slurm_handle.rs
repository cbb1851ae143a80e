use vstd::prelude::*;

use crate::communication::credentials::Credentials;
use crate::run::benchmark_suite::{sims_count, BenchmarkSuite};
use crate::run::fill_template::{fill, fill_template};
use crate::strmap::StrMap;
use crate::text::{
    append_chars, chars_of, contains_chars, decimal, decimal_chars, find_char, find_in, has_sub,
    lowercase, parse_usize, parse_usize_spec, split_char, split_on, string_of, to_lowercase,
    views,
};
use crate::paths::{file_name, file_name_of, join, path_join};

verus! {

/// Number of leading spaces of `s`.
pub open spec fn lead_spaces(s: Seq<char>) -> nat
    decreases s.len(),
{
    if s.len() > 0 && s[0] == ' ' {
        1 + lead_spaces(s.drop_first())
    } else {
        0
    }
}

pub proof fn lemma_lead_spaces(s: Seq<char>)
    ensures
        lead_spaces(s) <= s.len(),
        s.len() > 0 && s[0] == ' ' ==> lead_spaces(s) >= 1,
    decreases s.len(),
{
    if s.len() > 0 && s[0] == ' ' {
        lemma_lead_spaces(s.drop_first());
    }
}

/// `s` with every run of spaces shrunk to one space.
pub open spec fn collapse_spaces(s: Seq<char>) -> Seq<char>
    decreases s.len(),
{
    if s.len() == 0 {
        s
    } else if s[0] == ' ' {
        proof {
            lemma_lead_spaces(s);
        }
        seq![' '] + collapse_spaces(s.skip(lead_spaces(s) as int))
    } else {
        seq![s[0]] + collapse_spaces(s.drop_first())
    }
}

/// Calls `regex::Regex::new(" +")` and `Regex::replace_all(s, " ")`. By the regex crate's
/// documentation, `replace_all` replaces every non-overlapping leftmost-first match, and
/// ` +` matches a maximal run of spaces, so each run of spaces becomes a single space.
#[verifier::external_body]
pub(crate) fn collapse_spaces_regex(s: &str) -> (r: String)
    ensures
        r@ == collapse_spaces(s@),
{
    regex::Regex::new(" +").unwrap().replace_all(s, " ").into_owned()
}

/// Whether `d` has the shape of a `[year]-[month]-[day]` date: it ends in `-MM-DD`
/// after at least four characters of year.
pub open spec fn date_shaped(d: Seq<char>) -> bool {
    let n = d.len();
    n >= 10 && d[n - 3] == '-' && d[n - 6] == '-' && crate::text::is_digit(d[n - 1])
        && crate::text::is_digit(d[n - 2]) && crate::text::is_digit(d[n - 4])
        && crate::text::is_digit(d[n - 5])
}

/// Calls `time::OffsetDateTime::now_utc()` and returns its `unix_timestamp`, the seconds
/// since 1970-01-01 UTC. It reads the clock, so nothing is stated of the result.
#[verifier::external_body]
fn now_unix() -> (r: i64) {
    time::OffsetDateTime::now_utc().unix_timestamp()
}

/// The date, as `[year]-[month]-[day]`, that lies `days` days before the moment `now`
/// (seconds since 1970-01-01 UTC), as `start_date_at` computes it with `time`; `None` when
/// one of them falls outside the range of `time`.
pub uninterp spec fn date_before(now: i64, days: nat) -> Option<Seq<char>>;

/// Calls `time::OffsetDateTime::from_unix_timestamp(now)`, subtracts `days` days with
/// `checked_sub(time::Duration::days(..))` and formats the date as `[year]-[month]-[day]`.
/// The result is named (`date_before`); of its text only the shape is stated: a year (at
/// least four digits, signed when negative or above 9999), month and day separated by
/// dashes. `None` when a moment falls outside the range of `time`. `requires` keeps
/// `Duration::days` from panicking on overflow.
#[verifier::external_body]
fn start_date_at(now: i64, days: usize) -> (r: Option<String>)
    requires
        days <= 106751991167300,
    ensures
        match r {
            Some(d) => date_before(now, days as nat) == Some(d@),
            None => date_before(now, days as nat) is None,
        },
        r matches Some(d) ==> date_shaped(d@),
{
    let fmt = time::format_description::parse_borrowed::<3>("[year]-[month]-[day]").ok()?;
    let t = time::OffsetDateTime::from_unix_timestamp(now).ok()?;
    match t.checked_sub(time::Duration::days(days as i64)) {
        Some(t) => t.format(&fmt).ok(),
        None => None,
    }
}

/// The text of an optional string.
pub open spec fn opt_text(r: Option<String>) -> Option<Seq<char>> {
    match r {
        Some(c) => Some(c@),
        None => None,
    }
}

/// The listing command at moment `now`: `squeue` when `completed` is `None`, else `sacct`
/// from the date `completed` days before `now` (`None` when that date cannot be had).
pub open spec fn jobs_command_spec(user: Seq<char>, all: bool, completed: Option<usize>, now: i64) -> Option<
    Seq<char>,
> {
    match completed {
        None => Some(squeue_spec(user, all)),
        Some(days) => match date_before(now, days as nat) {
            Some(d) => Some(sacct_spec(user, all, d)),
            None => None,
        },
    }
}

/// The `sacct` command that lists the jobs (of `user` unless `all`) since `date`.
pub open spec fn sacct_spec(user: Seq<char>, all: bool, date: Seq<char>) -> Seq<char> {
    "sacct"@ + (if all { Seq::empty() } else { " --account="@ + user }) + " -S "@ + date
        + " --format=JobID,JobName%150,Account,NCPUS,Submit,State%30"@
}

/// The `squeue` command that lists the queued jobs (of `user` unless `all`).
pub open spec fn squeue_spec(user: Seq<char>, all: bool) -> Seq<char> {
    "squeue"@ + (if all { Seq::empty() } else { " -A "@ + user }) + " -o \"%i %j %a %C %M %R\""@
}

/// A job as the model sees it.
pub struct JobStatView {
    pub job_id: Seq<char>,
    pub name: Seq<char>,
    pub account: Seq<char>,
    pub cores: usize,
    pub time: Seq<char>,
    pub state: Seq<char>,
}

/// What a line of the job listing is.
pub enum LineOutcome {
    /// Too few fields, or a job step (its id holds a `.`).
    Skip,
    /// A job.
    Job(JobStatView),
    /// A line that cannot be read: its fourth field is not a number, or it has no sixth
    /// field.
    Malformed,
}

/// How a line of the job listing is read, its fields separated by single spaces.
pub open spec fn job_line(line: Seq<char>) -> LineOutcome {
    let f = split_char(line, ' ');
    if f.len() < 5 || find_char(f[0], '.') is Some {
        LineOutcome::Skip
    } else if parse_usize_spec(f[3]) is None || f.len() < 6 {
        LineOutcome::Malformed
    } else {
        LineOutcome::Job(
            JobStatView {
                job_id: f[0],
                name: f[1],
                account: f[2],
                cores: parse_usize_spec(f[3]).unwrap(),
                time: f[4],
                state: f[5],
            },
        )
    }
}

/// The jobs on `lines`, or `None` when some line is malformed.
pub open spec fn jobs_of(lines: Seq<Seq<char>>) -> Option<Seq<JobStatView>>
    decreases lines.len(),
{
    if lines.len() == 0 {
        Some(Seq::empty())
    } else {
        match jobs_of(lines.drop_last()) {
            None => None,
            Some(js) => match job_line(lines.last()) {
                LineOutcome::Skip => Some(js),
                LineOutcome::Job(j) => Some(js.push(j)),
                LineOutcome::Malformed => None,
            },
        }
    }
}

/// The text the listing is read from: with runs of spaces collapsed for `sacct`.
pub open spec fn listing_text(stdout: Seq<char>, completed: bool) -> Seq<char> {
    if completed {
        collapse_spaces(stdout)
    } else {
        stdout
    }
}

/// The lines of the listing after its header (two lines for `sacct`, one for `squeue`).
pub open spec fn listing_lines(out: Seq<char>, completed: bool) -> Seq<Seq<char>> {
    let ls = split_char(out, '\n');
    let skip: int = if completed { 2 } else { 1 };
    if skip <= ls.len() {
        ls.skip(skip)
    } else {
        Seq::empty()
    }
}

/// A job in the cluster's queue or accounting.
#[derive(Debug)]
pub struct SlurmJobStat {
    pub job_id: String,
    pub name: String,
    pub account: String,
    pub cores: usize,
    pub time: String,
    pub state: String,
}

impl View for SlurmJobStat {
    type V = JobStatView;

    open spec fn view(&self) -> JobStatView {
        JobStatView {
            job_id: self.job_id@,
            name: self.name@,
            account: self.account@,
            cores: self.cores,
            time: self.time@,
            state: self.state@,
        }
    }
}

pub open spec fn stat_views(v: Seq<SlurmJobStat>) -> Seq<JobStatView> {
    v.map_values(|s: SlurmJobStat| s@)
}

impl SlurmJobStat {
    /// The job's id.
    pub fn get_job_id(&self) -> (r: String)
        ensures
            r@ == self.job_id@,
    {
        self.job_id.clone()
    }
}

/// What the job listing holds.
#[derive(Debug)]
pub enum JobsListing {
    /// The output names no `jobid` column: the remote command went wrong.
    NoJobId,
    /// The jobs.
    Jobs(Vec<SlurmJobStat>),
    /// A line that cannot be read.
    Malformed,
}

/// Reads the lines of a job listing `out` after its header (two lines for `sacct` when
/// `completed`, one for `squeue`): the jobs, or `None` when a line cannot be read.
pub fn read_jobs(out: &str, completed: bool) -> (r: Option<Vec<SlurmJobStat>>)
    ensures
        match r {
            Some(v) => jobs_of(listing_lines(out@, completed)) == Some(stat_views(v@)),
            None => jobs_of(listing_lines(out@, completed)) is None,
        },
{
    let chars = chars_of(out);
    let ghost ov = out@;
    let ls = split_on(&chars, '\n');
    let ghost lv = split_char(ov, '\n');
    let skip: usize = if completed { 2 } else { 1 };
    let ghost body = listing_lines(ov, completed);
    let mut jobs: Vec<SlurmJobStat> = Vec::new();
    if skip > ls.len() {
        assert(body.len() == 0);
        assert(stat_views(jobs@) =~= Seq::<JobStatView>::empty());
        return Some(jobs);
    }
    assert(body == lv.skip(skip as int));
    let mut i: usize = skip;
    assert(body.take(0) =~= Seq::<Seq<char>>::empty());
    assert(stat_views(jobs@) =~= Seq::<JobStatView>::empty());
    while i < ls.len()
        invariant
            views(ls@) == lv,
            ov == out@,
            body == lv.skip(skip as int),
            body == listing_lines(ov, completed),
            skip <= i <= ls.len(),
            jobs_of(body.take(i - skip)) == Some(stat_views(jobs@)),
        decreases ls.len() - i,
    {
        let line = &ls[i];
        let ghost k = i - skip;
        assert(line@ == body[k]);
        assert(body.take(k + 1).drop_last() == body.take(k));
        assert(body.take(k + 1).last() == body[k]);
        let f = split_on(line, ' ');
        let ghost fv = split_char(line@, ' ');
        assert(views(f@) == fv);
        if f.len() < 5 {
            i += 1;
            continue;
        }
        assert(views(f@)[0] == f@[0]@);
        let dot = find_in(&f[0], 0, f[0].len(), '.');
        assert(f@[0]@.subrange(0, f@[0]@.len() as int) == f@[0]@);
        if dot.is_some() {
            i += 1;
            continue;
        }
        assert(views(f@)[3] == f@[3]@);
        let cores = match parse_usize(&f[3]) {
            Ok(n) => n,
            Err(_) => {
                proof {
                    assert(jobs_of(body.take(k + 1)) is None);
                    lemma_jobs_prefix_none(body, k + 1);
                    assert(body.take(body.len() as int) == body);
                }
                return None;
            },
        };
        if f.len() < 6 {
            proof {
                assert(jobs_of(body.take(k + 1)) is None);
                lemma_jobs_prefix_none(body, k + 1);
                assert(body.take(body.len() as int) == body);
            }
            return None;
        }
        assert(views(f@)[1] == f@[1]@);
        assert(views(f@)[2] == f@[2]@);
        assert(views(f@)[4] == f@[4]@);
        assert(views(f@)[5] == f@[5]@);
        let t = SlurmJobStat {
            job_id: string_of(&f[0]),
            name: string_of(&f[1]),
            account: string_of(&f[2]),
            cores,
            time: string_of(&f[4]),
            state: string_of(&f[5]),
        };
        let ghost j0 = jobs@;
        jobs.push(t);
        assert(stat_views(jobs@) =~= stat_views(j0).push(t@));
        i += 1;
    }
    assert(body.take(i - skip) == body);
    Some(jobs)
}

/// What the retry loop does after an attempt to list the jobs.
#[derive(Debug)]
pub enum RetryStep {
    /// The listing came back: these are the jobs.
    Done(Vec<SlurmJobStat>),
    /// Ask again.
    Again,
    /// Five attempts failed: give up with an error.
    GiveUp,
}

/// The number of attempts to list the jobs before giving up.
pub const MAX_TRIES: usize = 5;

/// The cluster's job scheduler, used with the given account.
#[derive(Debug)]
pub struct SlurmHandler {
    pub creds: Credentials,
}

/// `<TASKS>` set to the number of tasks; `<ACCOUNT>` set to `user` when not given.
pub open spec fn job_file_arguments_spec(
    meta: Map<Seq<char>, Seq<char>>,
    tasks: nat,
    user: Seq<char>,
) -> Map<Seq<char>, Seq<char>> {
    let m = meta.insert("<TASKS>"@, decimal(tasks));
    if m.contains_key("<ACCOUNT>"@) {
        m
    } else {
        m.insert("<ACCOUNT>"@, user)
    }
}

impl SlurmHandler {
    /// A handler for the account `creds`.
    pub fn new(creds: Credentials) -> (r: Self)
        ensures
            r.creds == creds,
    {
        SlurmHandler { creds }
    }

    /// The `squeue` command that lists the queued jobs (of this account unless `all`).
    pub fn squeue_command(&self, all: bool) -> (r: String)
        ensures
            r@ == squeue_spec(self.creds.username@, all),
    {
        let mut v = chars_of("squeue");
        if !all {
            let a = chars_of(" -A ");
            append_chars(&mut v, &a);
            let u = chars_of(self.creds.username.as_str());
            append_chars(&mut v, &u);
        }
        let tail = chars_of(" -o \"%i %j %a %C %M %R\"");
        append_chars(&mut v, &tail);
        proof {
            if all {
                assert(v@ =~= squeue_spec(self.creds.username@, all));
            } else {
                assert(v@ =~= squeue_spec(self.creds.username@, all));
            }
        }
        string_of(&v)
    }

    /// The `sacct` command that lists the jobs (of this account unless `all`) since `date`.
    pub fn sacct_command(&self, all: bool, date: &str) -> (r: String)
        ensures
            r@ == sacct_spec(self.creds.username@, all, date@),
    {
        let mut v = chars_of("sacct");
        if !all {
            let a = chars_of(" --account=");
            append_chars(&mut v, &a);
            let u = chars_of(self.creds.username.as_str());
            append_chars(&mut v, &u);
        }
        let s = chars_of(" -S ");
        append_chars(&mut v, &s);
        let d = chars_of(date);
        append_chars(&mut v, &d);
        let tail = chars_of(" --format=JobID,JobName%150,Account,NCPUS,Submit,State%30");
        append_chars(&mut v, &tail);
        proof {
            if all {
                assert(v@ =~= sacct_spec(self.creds.username@, all, date@));
            } else {
                assert(v@ =~= sacct_spec(self.creds.username@, all, date@));
            }
        }
        string_of(&v)
    }

    /// The command that lists the jobs at moment `now` (seconds since 1970-01-01 UTC):
    /// `squeue` for the queue, or `sacct` for the jobs since the date `completed` days
    /// before `now`. `None` when that date is out of range.
    pub fn jobs_command_at(&self, all: bool, completed: Option<usize>, now: i64) -> (r: Option<String>)
        requires
            completed matches Some(d) ==> d <= 106751991167300,
        ensures
            opt_text(r) == jobs_command_spec(self.creds.username@, all, completed, now),
            completed is Some ==> (r matches Some(c) ==> exists|d: Seq<char>|
                date_shaped(d) && c@ == sacct_spec(self.creds.username@, all, d)),
    {
        match completed {
            Some(days) => match start_date_at(now, days) {
                Some(d) => Some(self.sacct_command(all, d.as_str())),
                None => None,
            },
            None => Some(self.squeue_command(all)),
        }
    }

    /// The command that lists the jobs: `squeue` for the queue, or `sacct` for the jobs of
    /// the last `completed` days (from the clock's current moment). `None` when that date
    /// is out of range.
    pub fn jobs_command(&self, all: bool, completed: Option<usize>) -> (r: Option<String>)
        requires
            completed matches Some(d) ==> d <= 106751991167300,
        ensures
            completed is None ==> (r matches Some(c) && c@ == squeue_spec(self.creds.username@, all)),
            exists|now: i64| opt_text(r) == #[trigger] jobs_command_spec(self.creds.username@, all, completed, now),
            completed is Some ==> (r matches Some(c) ==> exists|d: Seq<char>|
                date_shaped(d) && c@ == sacct_spec(self.creds.username@, all, d)),
    {
        let now = now_unix();
        let r = self.jobs_command_at(all, completed, now);
        assert(opt_text(r) == jobs_command_spec(self.creds.username@, all, completed, now));
        r
    }

    /// Reads the output of the listing command (`sacct` when `completed`, else `squeue`).
    pub fn parse_jobs(stdout: &str, completed: bool) -> (r: JobsListing)
        ensures
            !has_sub(lowercase(listing_text(stdout@, completed)), "jobid"@) <==> r is NoJobId,
            r matches JobsListing::Jobs(v) ==> jobs_of(
                listing_lines(listing_text(stdout@, completed), completed),
            ) == Some(stat_views(v@)),
            r is Malformed ==> jobs_of(
                listing_lines(listing_text(stdout@, completed), completed),
            ) is None,
            has_sub(lowercase(listing_text(stdout@, completed)), "jobid"@) ==> (r is Malformed
                <==> jobs_of(listing_lines(listing_text(stdout@, completed), completed)) is None),
    {
        let out: String = if completed {
            collapse_spaces_regex(stdout)
        } else {
            stdout.to_owned()
        };
        let ghost ov = listing_text(stdout@, completed);
        assert(out@ == ov);
        let lower = to_lowercase(out.as_str());
        let lower_chars = chars_of(lower.as_str());
        let key = chars_of("jobid");
        if !contains_chars(&lower_chars, &key) {
            return JobsListing::NoJobId;
        }
        match read_jobs(out.as_str(), completed) {
            Some(jobs) => JobsListing::Jobs(jobs),
            None => JobsListing::Malformed,
        }
    }

    /// What to do after attempt number `attempt` (counted from 0) to list the jobs
    /// returned `outcome` (`None` when the output named no job id).
    pub fn get_jobs_retry(attempt: usize, outcome: Option<Vec<SlurmJobStat>>) -> (r: RetryStep)
        ensures
            match outcome {
                Some(v) => r matches RetryStep::Done(w) && w@ == v@,
                None => if attempt + 1 < MAX_TRIES {
                    r is Again
                } else {
                    r is GiveUp
                },
            },
    {
        match outcome {
            Some(jobs) => RetryStep::Done(jobs),
            None => if attempt < MAX_TRIES - 1 {
                RetryStep::Again
            } else {
                RetryStep::GiveUp
            },
        }
    }

    /// The command that deletes job `job_id` through the cluster's script.
    pub fn delete_job_command(&self, job_id: usize) -> (r: String)
        ensures
            r@ == "/home/slurmadmin/scripts/delete_job.py -j "@ + decimal(job_id as nat) + " -u "@
                + self.creds.username@ + " -p "@ + self.creds.password@,
    {
        let mut v = chars_of("/home/slurmadmin/scripts/delete_job.py -j ");
        let n = decimal_chars(job_id);
        append_chars(&mut v, &n);
        let u0 = chars_of(" -u ");
        append_chars(&mut v, &u0);
        let u = chars_of(self.creds.username.as_str());
        append_chars(&mut v, &u);
        let p0 = chars_of(" -p ");
        append_chars(&mut v, &p0);
        let p = chars_of(self.creds.password.as_str());
        append_chars(&mut v, &p);
        string_of(&v)
    }

    /// The arguments of the job file of `job_argument`: its meta arguments, with `<TASKS>`
    /// set to its number of tasks and `<ACCOUNT>` to this account unless given.
    pub fn job_file_arguments(&self, job_argument: &BenchmarkSuite) -> (r: StrMap)
        requires
            sims_count(job_argument@.sims) <= usize::MAX,
        ensures
            r@ == job_file_arguments_spec(
                job_argument@.meta,
                sims_count(job_argument@.sims),
                self.creds.username@,
            ),
    {
        let nr_tasks = job_argument.get_number_task();
        let mut meta_arguments = job_argument.meta_arguments.copy();
        let tasks = string_of(&decimal_chars(nr_tasks));
        meta_arguments.insert("<TASKS>".to_owned(), tasks);
        let account = "<ACCOUNT>".to_owned();
        if !meta_arguments.contains_key(&account) {
            meta_arguments.insert(account, self.creds.username.clone());
        }
        meta_arguments
    }

    /// The text of the job file of `job_argument`: `template` filled with
    /// `job_file_arguments`, in the order in which that map keeps its pairs.
    pub fn create_job_file(&self, job_argument: &BenchmarkSuite, template: &str) -> (r: String)
        requires
            sims_count(job_argument@.sims) <= usize::MAX,
        ensures
            exists|m: StrMap|
                m@ == job_file_arguments_spec(
                    job_argument@.meta,
                    sims_count(job_argument@.sims),
                    self.creds.username@,
                ) && r@ == fill(template@, m.pairs()),
    {
        let meta_arguments = self.job_file_arguments(job_argument);
        fill_template(template, &meta_arguments)
    }

    /// Reads what `sbatch` printed: the job number (the last word of its first line) when
    /// the output says `Submitted batch job`.
    pub fn job_number(stdout: &str) -> (r: Option<String>)
        ensures
            has_sub(stdout@, "Submitted batch job"@) ==> (r matches Some(n) && n@ == split_char(
                split_char(stdout@, '\n')[0],
                ' ',
            ).last()),
            !has_sub(stdout@, "Submitted batch job"@) ==> r is None,
    {
        let chars = chars_of(stdout);
        let key = chars_of("Submitted batch job");
        if !contains_chars(&chars, &key) {
            return None;
        }
        let lines = split_on(&chars, '\n');
        proof {
            crate::text::lemma_split_nonempty(stdout@, '\n');
        }
        assert(views(lines@)[0] == lines@[0]@);
        let words = split_on(&lines[0], ' ');
        proof {
            crate::text::lemma_split_nonempty(lines@[0]@, ' ');
        }
        let last = words.len() - 1;
        assert(views(words@)[last as int] == words@[last as int]@);
        Some(string_of(&words[last]))
    }

    /// Where the job file at `job_file_path` goes on the cluster (the submission directory,
    /// under its own name), the command that submits it and the one that removes it
    /// afterwards. `None` when the path has no file name.
    pub fn submit_commands(job_file_path: &str) -> (r: Option<(String, String, String)>)
        ensures
            match r {
                Some((t, sb, rm)) => file_name_of(job_file_path@) matches Some(f) && t@ == path_join(
                    crate::constants::titan_submit_dir(),
                    f,
                ) && sb@ == "sbatch "@ + t@ && rm@ == "rm "@ + t@,
                None => file_name_of(job_file_path@) is None,
            },
    {
        let f = match file_name(job_file_path) {
            Some(f) => f,
            None => return None,
        };
        let t = join(crate::constants::TITAN_SUBMIT_DIR, f.as_str());
        let tv = chars_of(t.as_str());
        let mut sb = chars_of("sbatch ");
        append_chars(&mut sb, &tv);
        let mut rm = chars_of("rm ");
        append_chars(&mut rm, &tv);
        Some((t, string_of(&sb), string_of(&rm)))
    }

    /// Where the experiment files go on the cluster: the files `exp_path/*` are copied to
    /// the submission directory.
    pub fn submit_experiment(&self, exp_path: &str) -> (r: (String, String))
        ensures
            r.0@ == path_join(exp_path@, "*"@),
            r.1@ == crate::constants::titan_submit_dir(),
    {
        (join(exp_path, "*"), crate::constants::TITAN_SUBMIT_DIR.to_owned())
    }
}

proof fn lemma_jobs_prefix_none(lines: Seq<Seq<char>>, k: int)
    requires
        0 <= k <= lines.len(),
        jobs_of(lines.take(k)) is None,
    ensures
        jobs_of(lines) is None,
    decreases lines.len() - k,
{
    if k < lines.len() {
        assert(lines.take(k + 1).drop_last() == lines.take(k));
        lemma_jobs_prefix_none(lines, k + 1);
    } else {
        assert(lines.take(k) == lines);
    }
}

/// The fields of a listing line that make a job: at least six, a number as the fourth, and
/// a first field (the id) without `.` (a job step's id holds one).
pub open spec fn job_fields(f: Seq<Seq<char>>) -> bool {
    f.len() >= 6 && parse_usize_spec(f[3]) is Some && !f[0].contains('.')
}

/// The fields of a listing line that cannot be read: at least five, an id without `.`, and
/// a fourth field that is not a number or no sixth field.
pub open spec fn bad_fields(f: Seq<Seq<char>>) -> bool {
    f.len() >= 5 && !f[0].contains('.') && (parse_usize_spec(f[3]) is None || f.len() < 6)
}

/// Whether job `j` is the one the fields `f` describe.
pub open spec fn job_of_fields(j: JobStatView, f: Seq<Seq<char>>) -> bool {
    &&& j.job_id == f[0]
    &&& j.name == f[1]
    &&& j.account == f[2]
    &&& parse_usize_spec(f[3]) == Some(j.cores)
    &&& j.time == f[4]
    &&& j.state == f[5]
}

proof fn lemma_job_line(line: Seq<char>)
    ensures
        job_fields(split_char(line, ' ')) ==> (job_line(line) matches LineOutcome::Job(j) && job_of_fields(
            j,
            split_char(line, ' '),
        )),
        job_line(line) matches LineOutcome::Job(j) ==> job_fields(split_char(line, ' ')) && job_of_fields(
            j,
            split_char(line, ' '),
        ),
        job_line(line) is Malformed <==> bad_fields(split_char(line, ' ')),
{
    let f = split_char(line, ' ');
    if f.len() > 0 {
        crate::text::lemma_find_char(f[0], '.');
        if f[0].contains('.') {
            let j = choose|j: int| 0 <= j < f[0].len() && f[0][j] == '.';
            assert(f[0][j] == '.');
        }
    }
}

/// Whether line `i` of `ls` is a job line that describes job `j`.
pub open spec fn line_gives(ls: Seq<Seq<char>>, i: int, j: JobStatView) -> bool {
    0 <= i < ls.len() && job_fields(split_char(ls[i], ' ')) && job_of_fields(j, split_char(ls[i], ' '))
}

/// Whether some line of `ls` is a job line that describes job `j`.
pub open spec fn from_some_line(ls: Seq<Seq<char>>, j: JobStatView) -> bool {
    exists|i: int| #[trigger] line_gives(ls, i, j)
}

proof fn lemma_jobs_of_lines(ls: Seq<Seq<char>>)
    ensures
        jobs_of(ls) is None <==> exists|i: int| 0 <= i < ls.len() && bad_fields(split_char(#[trigger] ls[i], ' ')),
        jobs_of(ls) matches Some(js) ==> {
            &&& forall|i: int|
                0 <= i < ls.len() && job_fields(split_char(#[trigger] ls[i], ' ')) ==> exists|k: int|
                    0 <= k < js.len() && #[trigger] line_gives(ls, i, js[k])
            &&& forall|k: int| 0 <= k < js.len() ==> #[trigger] from_some_line(ls, js[k])
        },
    decreases ls.len(),
{
    if ls.len() > 0 {
        let q = ls.drop_last();
        let l = ls.last();
        lemma_jobs_of_lines(q);
        lemma_job_line(l);
        if exists|i: int| 0 <= i < q.len() && bad_fields(split_char(#[trigger] q[i], ' ')) {
            let i = choose|i: int| 0 <= i < q.len() && bad_fields(split_char(#[trigger] q[i], ' '));
            assert(ls[i] == q[i]);
        }
        if bad_fields(split_char(l, ' ')) {
            assert(ls[ls.len() - 1] == l);
        }
        if exists|i: int| 0 <= i < ls.len() && bad_fields(split_char(#[trigger] ls[i], ' ')) {
            let i = choose|i: int| 0 <= i < ls.len() && bad_fields(split_char(#[trigger] ls[i], ' '));
            if i < q.len() {
                assert(ls[i] == q[i]);
            }
        }
        match jobs_of(q) {
            Some(p) => {
                match job_line(l) {
                    LineOutcome::Malformed => {},
                    _ => {
                        let js = jobs_of(ls).unwrap();
                        assert forall|i: int|
                            0 <= i < ls.len() && job_fields(split_char(#[trigger] ls[i], ' ')) implies exists|k: int|
                            0 <= k < js.len() && #[trigger] line_gives(ls, i, js[k]) by {
                            if i < q.len() {
                                assert(ls[i] == q[i]);
                                let k = choose|k: int| 0 <= k < p.len() && #[trigger] line_gives(q, i, p[k]);
                                assert(js[k] == p[k]);
                                assert(line_gives(ls, i, js[k]));
                            } else {
                                assert(ls[i] == l);
                                let k = js.len() - 1;
                                assert(js[k] == job_line(l)->Job_0);
                                assert(line_gives(ls, i, js[k]));
                            }
                        }
                        assert forall|k: int| 0 <= k < js.len() implies #[trigger] from_some_line(ls, js[k]) by {
                            if k < p.len() {
                                assert(js[k] == p[k]);
                                assert(from_some_line(q, p[k]));
                                let i = choose|i: int| #[trigger] line_gives(q, i, p[k]);
                                assert(ls[i] == q[i]);
                                assert(line_gives(ls, i, js[k]));
                            } else {
                                let i = ls.len() - 1;
                                assert(js[k] == job_line(l)->Job_0);
                                assert(ls[i] == l);
                                assert(line_gives(ls, i, js[k]));
                            }
                        }
                    },
                }
            },
            None => {},
        }
    }
}

/// Reading a job listing keeps every job of it: each line after the header whose fields
/// (split at single spaces) are at least six, with a number as the fourth and an id without
/// `.` as the first, gives a job with that id, name, account, cores, time and state (array
/// tasks, whose ids hold `_`, included), and every job read comes from such a line. The
/// listing cannot be read exactly when a line with at least five fields and an id without
/// `.` has no number as its fourth field or no sixth field.
pub proof fn law_listing_lines_give_jobs(out: Seq<char>, completed: bool)
    ensures
        jobs_of(listing_lines(out, completed)) is None <==> exists|i: int|
            0 <= i < listing_lines(out, completed).len() && bad_fields(
                split_char(#[trigger] listing_lines(out, completed)[i], ' '),
            ),
        jobs_of(listing_lines(out, completed)) matches Some(js) ==> {
            let ls = listing_lines(out, completed);
            &&& forall|i: int|
                0 <= i < ls.len() && job_fields(split_char(#[trigger] ls[i], ' ')) ==> exists|k: int|
                    0 <= k < js.len() && #[trigger] line_gives(ls, i, js[k])
            &&& forall|k: int| 0 <= k < js.len() ==> #[trigger] from_some_line(ls, js[k])
        },
{
    lemma_jobs_of_lines(listing_lines(out, completed));
}

} // verus!
