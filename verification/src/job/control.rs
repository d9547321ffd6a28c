//! Pause and resume requests on a job's state.

use vstd::prelude::*;

use crate::error::AppError;
use crate::job::{JobState, JobStatus, Timestamp, spec_is_stale_running};

verus! {

/// The error of a refused pause or resume: its message is `prefix` then the
/// job id then `suffix`.
pub open spec fn config_error_says(e: AppError, prefix: Seq<char>, id: Seq<char>, suffix: Seq<char>) -> bool {
    e matches AppError::Config(m) && m@ == prefix + id + suffix
}

/// The status a pause request leads to, or `None` where it is refused.
pub open spec fn pause_outcome(status: JobStatus) -> Option<JobStatus> {
    match status {
        JobStatus::Completed | JobStatus::Failed => None,
        JobStatus::Running | JobStatus::Pausing => Some(JobStatus::Pausing),
        JobStatus::Pending | JobStatus::Paused => Some(JobStatus::Paused),
    }
}

/// `s` is `state` with status `status` and the pause reason noted.
pub open spec fn paused_by_request(state: JobState, s: JobState, status: JobStatus) -> bool {
    &&& s == (JobState { status: status, last_error: s.last_error, ..state })
    &&& s.last_error is Some
    &&& s.last_error->0@ == "pause requested by user"@
}

/// Applies a user's pause request: a Running job becomes Pausing (the worker
/// stops at the next chunk boundary), a Pending job becomes Paused at once,
/// both noting why; a job already Pausing or Paused is unchanged; a Completed
/// or Failed job refuses.
pub fn pause_transition(state: JobState) -> (res: Result<JobState, AppError>)
    ensures
        res is Ok <==> pause_outcome(state.status) is Some,
        res is Ok ==> res->Ok_0.status == pause_outcome(state.status)->0,
        state.status == JobStatus::Completed ==> config_error_says(
            res->Err_0,
            "job already completed: "@,
            state.job_id@,
            Seq::empty(),
        ),
        state.status == JobStatus::Failed ==> config_error_says(
            res->Err_0,
            "job is failed; resume it instead: "@,
            state.job_id@,
            Seq::empty(),
        ),
        state.status == JobStatus::Running ==> paused_by_request(
            state,
            res->Ok_0,
            JobStatus::Pausing,
        ),
        state.status == JobStatus::Pending ==> paused_by_request(
            state,
            res->Ok_0,
            JobStatus::Paused,
        ),
        (state.status == JobStatus::Pausing || state.status == JobStatus::Paused) ==> res->Ok_0
            == state,
{
    let mut state = state;
    match state.status {
        JobStatus::Completed => {
            return Err(
                AppError::Config(
                    crate::error::message_with("job already completed: ", state.job_id.as_str()),
                ),
            );
        },
        JobStatus::Running => {
            state.status = JobStatus::Pausing;
            state.last_error = Some(String::from_str("pause requested by user"));
        },
        JobStatus::Pending => {
            state.status = JobStatus::Paused;
            state.last_error = Some(String::from_str("pause requested by user"));
        },
        JobStatus::Pausing | JobStatus::Paused => {},
        JobStatus::Failed => {
            return Err(
                AppError::Config(
                    crate::error::message_with(
                        "job is failed; resume it instead: ",
                        state.job_id.as_str(),
                    ),
                ),
            );
        },
    }
    Ok(state)
}

/// Applies a resume request: a Completed job refuses; a Running job is taken
/// over only when `force` is set or it is stale at `now` (given whether its
/// recorded process is alive), and refuses otherwise; any other job resumes.
/// A resumed job is Running with no error noted.
pub fn resume_transition(state: JobState, force: bool, now: Timestamp, process_alive: bool) -> (res:
    Result<JobState, AppError>)
    ensures
        state.status == JobStatus::Completed ==> res is Err && config_error_says(
            res->Err_0,
            "job already completed: "@,
            state.job_id@,
            Seq::empty(),
        ),
        state.status == JobStatus::Running && !force && !spec_is_stale_running(
            state,
            now,
            process_alive,
        ) ==> res is Err && config_error_says(
            res->Err_0,
            "job already running: "@,
            state.job_id@,
            "; use --force to override a stale running state"@,
        ),
        (state.status != JobStatus::Completed && (state.status != JobStatus::Running || force
            || spec_is_stale_running(state, now, process_alive))) ==> res == Ok::<
            JobState,
            AppError,
        >(JobState { status: JobStatus::Running, last_error: None, ..state }),
{
    let mut state = state;
    match state.status {
        JobStatus::Completed => {
            return Err(
                AppError::Config(
                    crate::error::message_with("job already completed: ", state.job_id.as_str()),
                ),
            );
        },
        JobStatus::Running => {
            if force || state.is_stale_running_at(now, process_alive) {
                state.status = JobStatus::Running;
                state.last_error = None;
            } else {
                let m = crate::error::message_with("job already running: ", state.job_id.as_str());
                return Err(
                    AppError::Config(m.concat("; use --force to override a stale running state")),
                );
            }
        },
        JobStatus::Pending | JobStatus::Pausing | JobStatus::Paused | JobStatus::Failed => {
            state.status = JobStatus::Running;
            state.last_error = None;
        },
    }
    Ok(state)
}

/// The worker has been asked to pause.
pub fn is_pause_requested(state: &JobState) -> (res: bool)
    ensures
        res == (state.status == JobStatus::Pausing),
{
    state.status == JobStatus::Pausing
}

/// The worker stops: the job becomes Paused, nothing else changes.
pub fn mark_paused(state: &mut JobState)
    ensures
        *final(state) == (JobState { status: JobStatus::Paused, ..*old(state) }),
{
    state.status = JobStatus::Paused;
}

/// A pause request that is granted leaves the job Pausing or Paused, and a
/// second request grants the same status again.
pub proof fn law_pause_is_idempotent(status: JobStatus)
    requires
        pause_outcome(status) is Some,
    ensures
        pause_outcome(status)->0 == JobStatus::Pausing || pause_outcome(status)->0
            == JobStatus::Paused,
        pause_outcome(pause_outcome(status)->0) == pause_outcome(status),
{
}

/// The `/`-separated parts of `p` from `start`, the current part having
/// begun at `start` and the scan standing at `i` (empty parts included).
pub open spec fn parts_from(p: Seq<char>, start: int, i: int) -> Seq<Seq<char>>
    decreases p.len() - i,
{
    if i >= p.len() {
        seq![p.subrange(start, p.len() as int)]
    } else if p[i] == '/' {
        seq![p.subrange(start, i)] + parts_from(p, i + 1, i + 1)
    } else {
        parts_from(p, start, i + 1)
    }
}

/// A part that names something: neither empty nor `.`.
pub open spec fn is_named_part(s: Seq<char>) -> bool {
    s.len() > 0 && s != "."@
}

/// The components of a Unix path as `Path::components` documents them: a
/// root (`/`) where the path begins with `/`, else a current directory (`.`)
/// where its first part is `.`, then every part that is neither empty nor
/// `.` (repeated and trailing separators and inner `.` parts are
/// normalized away; `..` stays).
pub open spec fn unix_components(p: Seq<char>) -> Seq<Seq<char>> {
    let parts = parts_from(p, 0, 0);
    let head: Seq<Seq<char>> = if p.len() > 0 && p[0] == '/' {
        seq!["/"@]
    } else if parts[0] == "."@ {
        seq!["."@]
    } else {
        seq![]
    };
    head + parts.filter(|s: Seq<char>| is_named_part(s))
}

/// Two paths are equal as `Path` compares them on Unix: by their components.
pub open spec fn same_unix_path(a: Seq<char>, b: Seq<char>) -> bool {
    unix_components(a) == unix_components(b)
}

/// Compares two paths with `Path`'s `==`. Trusted: on Unix that compares
/// their components (see `unix_components`).
#[verifier::external_body]
fn same_path(a: &str, b: &str) -> (res: bool)
    ensures
        res == same_unix_path(a@, b@),
{
    std::path::Path::new(a) == std::path::Path::new(b)
}

/// Whether a stored job can be continued by a translate run, given whether
/// the run's paths are the job's: it can when they are and the job is not
/// completed; otherwise it is refused, naming the job.
pub fn job_continuation(state: JobState, paths_match: bool) -> (res: Result<JobState, AppError>)
    ensures
        !paths_match ==> res is Err && config_error_says(
            res->Err_0,
            "job state paths do not match requested paths: "@,
            state.job_id@,
            Seq::empty(),
        ),
        paths_match && state.status == JobStatus::Completed ==> res is Err && config_error_says(
            res->Err_0,
            "job already completed: "@,
            state.job_id@,
            Seq::empty(),
        ),
        paths_match && state.status != JobStatus::Completed ==> res == Ok::<JobState, AppError>(
            state,
        ),
{
    if !paths_match {
        return Err(
            AppError::Config(
                crate::error::message_with(
                    "job state paths do not match requested paths: ",
                    state.job_id.as_str(),
                ),
            ),
        );
    }
    if state.status == JobStatus::Completed {
        return Err(
            AppError::Config(
                crate::error::message_with("job already completed: ", state.job_id.as_str()),
            ),
        );
    }
    Ok(state)
}

/// A stored job that a translate run with `input` and `output` finds under
/// its id (see `job_continuation`; paths are compared as `Path`s, see
/// `same_unix_path`).
pub fn check_existing_job(state: JobState, input: &str, output: &str) -> (res: Result<
    JobState,
    AppError,
>)
    ensures
        !(same_unix_path(state.input@, input@) && same_unix_path(state.output@, output@)) ==> res
            is Err && config_error_says(
            res->Err_0,
            "job state paths do not match requested paths: "@,
            state.job_id@,
            Seq::empty(),
        ),
        same_unix_path(state.input@, input@) && same_unix_path(state.output@, output@)
            && state.status == JobStatus::Completed ==> res is Err && config_error_says(
            res->Err_0,
            "job already completed: "@,
            state.job_id@,
            Seq::empty(),
        ),
        same_unix_path(state.input@, input@) && same_unix_path(state.output@, output@)
            && state.status != JobStatus::Completed ==> res == Ok::<JobState, AppError>(state),
{
    let same = same_path(state.input.as_str(), input) && same_path(state.output.as_str(), output);
    job_continuation(state, same)
}

} // verus!
