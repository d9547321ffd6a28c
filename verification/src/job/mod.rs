//! Job state for foreground and background translation runs.

pub mod control;

use vstd::prelude::*;

use crate::error::{AppError, error_text};

verus! {

/// Where a job stands in its lifecycle.
#[derive(Debug, Clone, Copy, PartialEq, Eq, Structural)]
pub enum JobStatus {
    Pending,
    Running,
    Pausing,
    Paused,
    Completed,
    Failed,
}

/// Counters that a run accumulates.
#[derive(Debug, Clone, Copy, PartialEq, Eq, Structural)]
pub struct JobMetrics {
    pub total_text_files: usize,
    pub completed_text_files: usize,
    pub total_chunks: usize,
    pub completed_chunks: usize,
    pub failed_chunks: usize,
    pub request_count: u64,
    pub retry_count: u64,
    pub prompt_tokens: u64,
    pub completion_tokens: u64,
    pub total_tokens: u64,
}

/// All counters at zero.
pub open spec fn zero_metrics() -> JobMetrics {
    JobMetrics {
        total_text_files: 0,
        completed_text_files: 0,
        total_chunks: 0,
        completed_chunks: 0,
        failed_chunks: 0,
        request_count: 0,
        retry_count: 0,
        prompt_tokens: 0,
        completion_tokens: 0,
        total_tokens: 0,
    }
}

impl Default for JobMetrics {
    fn default() -> (res: Self)
        ensures
            res == zero_metrics(),
    {
        JobMetrics {
            total_text_files: 0,
            completed_text_files: 0,
            total_chunks: 0,
            completed_chunks: 0,
            failed_chunks: 0,
            request_count: 0,
            retry_count: 0,
            prompt_tokens: 0,
            completion_tokens: 0,
            total_tokens: 0,
        }
    }
}

/// After this many seconds without a heartbeat update, a Running job is
/// considered stale (process died or machine was shut down).
pub const STALE_THRESHOLD_SECS: i64 = 120;

/// A UTC instant: whole seconds since the Unix epoch and the nanoseconds
/// within that second.
#[derive(Debug, Clone, Copy, PartialEq, Eq, Structural)]
pub struct Timestamp {
    pub secs: i64,
    pub nanos: u32,
}

/// Nanoseconds since the epoch.
pub open spec fn total_nanos(t: Timestamp) -> int {
    t.secs * 1_000_000_000 + t.nanos
}

/// Whole seconds in a span of nanoseconds, truncated toward zero (as
/// `chrono::Duration::num_seconds` counts them).
pub open spec fn whole_seconds(d: int) -> int {
    if d >= 0 {
        d / 1_000_000_000
    } else {
        -((-d) / 1_000_000_000)
    }
}

/// Whole seconds from `a` to `b`.
pub open spec fn seconds_between(a: Timestamp, b: Timestamp) -> int {
    whole_seconds(total_nanos(b) - total_nanos(a))
}

/// Reads the system clock (`std::time::SystemTime::now`) against the Unix
/// epoch (`duration_since(UNIX_EPOCH)`): `Ok` with the span since the epoch,
/// or `Err` with the span before it when the clock reads earlier, each as
/// whole seconds and the nanoseconds within the second. Trusted: of the
/// reading only that the nanoseconds stay below one second (as
/// `Duration::subsec_nanos` documents) is claimed.
#[verifier::external_body]
fn read_system_clock() -> (res: Result<(u64, u32), (u64, u32)>)
    ensures
        match res {
            Ok((_, n)) => n < 1_000_000_000,
            Err((_, n)) => n < 1_000_000_000,
        },
{
    match std::time::SystemTime::now().duration_since(std::time::UNIX_EPOCH) {
        Ok(d) => Ok((d.as_secs(), d.subsec_nanos())),
        Err(e) => Err((e.duration().as_secs(), e.duration().subsec_nanos())),
    }
}

/// The instant a clock reading stands for: `s` seconds and `n` nanoseconds
/// after the epoch for `Ok((s, n))`, before it for `Err((s, n))`; a reading
/// beyond the seconds an `i64` holds is held at the nearest end.
pub open spec fn clock_timestamp(r: Result<(u64, u32), (u64, u32)>) -> Timestamp {
    match r {
        Ok((s, n)) => if s <= i64::MAX {
            Timestamp { secs: s as i64, nanos: n }
        } else {
            Timestamp { secs: i64::MAX, nanos: 999_999_999 }
        },
        Err((s, n)) => if s >= i64::MAX {
            Timestamp { secs: i64::MIN, nanos: 0 }
        } else if n == 0 {
            Timestamp { secs: (-s) as i64, nanos: 0 }
        } else {
            Timestamp { secs: (-s - 1) as i64, nanos: (1_000_000_000 - n) as u32 }
        },
    }
}

/// The instant of a clock reading (see `clock_timestamp`): within range it
/// lies exactly the reading's span after (or before) the epoch.
pub fn timestamp_from_clock(r: Result<(u64, u32), (u64, u32)>) -> (res: Timestamp)
    requires
        match r {
            Ok((_, n)) => n < 1_000_000_000,
            Err((_, n)) => n < 1_000_000_000,
        },
    ensures
        res == clock_timestamp(r),
        res.nanos < 1_000_000_000,
        match r {
            Ok((s, n)) => s <= i64::MAX ==> total_nanos(res) == s * 1_000_000_000 + n,
            Err((s, n)) => s < i64::MAX ==> total_nanos(res) == -(s * 1_000_000_000 + n),
        },
{
    match r {
        Ok((s, n)) => if s <= i64::MAX as u64 {
            Timestamp { secs: s as i64, nanos: n }
        } else {
            Timestamp { secs: i64::MAX, nanos: 999_999_999 }
        },
        Err((s, n)) => if s >= i64::MAX as u64 {
            Timestamp { secs: i64::MIN, nanos: 0 }
        } else if n == 0 {
            Timestamp { secs: -(s as i64), nanos: 0 }
        } else {
            let res = Timestamp { secs: -(s as i64) - 1, nanos: 1_000_000_000 - n };
            assert(total_nanos(res) == -(s * 1_000_000_000 + n)) by (nonlinear_arith)
                requires
                    res.secs == -s - 1,
                    res.nanos == 1_000_000_000 - n,
            ;
            res
        },
    }
}

/// The current time, from the system clock (see `timestamp_from_clock`).
pub(crate) fn current_time() -> (res: Timestamp)
    ensures
        res.nanos < 1_000_000_000,
{
    timestamp_from_clock(read_system_clock())
}

/// Whole seconds from `a` to `b`.
pub fn seconds_from(a: Timestamp, b: Timestamp) -> (res: i128)
    ensures
        res == seconds_between(a, b),
{
    let d: i128 = (b.secs as i128 - a.secs as i128) * 1_000_000_000i128 + (b.nanos as i128
        - a.nanos as i128);
    assert(d == total_nanos(b) - total_nanos(a)) by (nonlinear_arith)
        requires
            d == (b.secs - a.secs) * 1_000_000_000 + (b.nanos - a.nanos),
    ;
    if d >= 0 {
        d / 1_000_000_000
    } else {
        -((-d) / 1_000_000_000)
    }
}

/// The persistent record of one translation job. Paths are kept as text.
#[derive(Debug, Clone, PartialEq, Eq)]
pub struct JobState {
    pub job_id: String,
    pub status: JobStatus,
    pub input: String,
    pub output: String,
    pub current_file: Option<String>,
    pub last_error: Option<String>,
    pub started_at: Timestamp,
    pub updated_at: Timestamp,
    /// Periodically updated by the running translation process. Used to detect
    /// stale Running jobs after a crash or power loss.
    pub last_heartbeat_at: Option<Timestamp>,
    pub pid: Option<u32>,
    pub metrics: JobMetrics,
}

/// A job is stale when it says Running but its process is gone: by its
/// recorded process when it has one, else by a heartbeat missing or older
/// than the threshold at `now`.
pub open spec fn spec_is_stale_running(s: JobState, now: Timestamp, process_alive: bool) -> bool {
    if s.status != JobStatus::Running {
        false
    } else if s.pid is Some {
        !process_alive
    } else {
        match s.last_heartbeat_at {
            Some(ts) => seconds_between(ts, now) > STALE_THRESHOLD_SECS,
            None => true,
        }
    }
}

/// A copy of an optional string.
pub fn copy_opt_string(s: &Option<String>) -> (res: Option<String>)
    ensures
        res == *s,
{
    match s {
        Some(v) => Some(v.clone()),
        None => None,
    }
}

impl JobState {
    /// A new Pending job with zero metrics, started and updated now.
    pub fn new(job_id: String, input: String, output: String) -> (res: Self)
        ensures
            res.job_id == job_id,
            res.input == input,
            res.output == output,
            res.status == JobStatus::Pending,
            res.current_file is None,
            res.last_error is None,
            res.started_at == res.updated_at,
            res.started_at.nanos < 1_000_000_000,
            res.last_heartbeat_at is None,
            res.pid is None,
            res.metrics == zero_metrics(),
    {
        let now = current_time();
        JobState {
            job_id,
            status: JobStatus::Pending,
            input,
            output,
            current_file: None,
            last_error: None,
            started_at: now,
            updated_at: now,
            last_heartbeat_at: None,
            pid: None,
            metrics: JobMetrics::default(),
        }
    }

    /// Marks the state as updated now.
    pub fn touch(&mut self)
        ensures
            *final(self) == (JobState { updated_at: final(self).updated_at, ..*old(self) }),
            final(self).updated_at.nanos < 1_000_000_000,
    {
        self.updated_at = current_time();
    }

    /// Marks the job failed by `error`: its status becomes Failed and its
    /// last error the error's text; nothing else changes.
    pub fn mark_failed(&mut self, error: &AppError)
        ensures
            final(self).status == JobStatus::Failed,
            final(self).last_error matches Some(m) && m@ == error_text(*error),
            *final(self) == (JobState {
                status: JobStatus::Failed,
                last_error: final(self).last_error,
                ..*old(self)
            }),
    {
        self.status = JobStatus::Failed;
        self.last_error = Some(error.describe());
    }

    /// Records a heartbeat now.
    pub fn update_heartbeat(&mut self)
        ensures
            final(self).last_heartbeat_at matches Some(t) && t.nanos < 1_000_000_000,
            *final(self) == (JobState { last_heartbeat_at: final(self).last_heartbeat_at, ..*old(self) }),
    {
        self.last_heartbeat_at = Some(current_time());
    }

    /// Whether the job is stale at `now`, given whether its recorded process
    /// is alive (only consulted when it has a recorded process).
    pub fn is_stale_running_at(&self, now: Timestamp, process_alive: bool) -> (res: bool)
        ensures
            res == spec_is_stale_running(*self, now, process_alive),
    {
        if self.status != JobStatus::Running {
            return false;
        }
        if self.pid.is_some() {
            return !process_alive;
        }
        match self.last_heartbeat_at {
            Some(ts) => seconds_from(ts, now) > STALE_THRESHOLD_SECS as i128,
            None => true,
        }
    }

    /// Whole seconds from start to the last update, never negative (and held
    /// to `i64::MAX` for spans beyond it, which chrono's dates cannot reach).
    pub fn elapsed_seconds(&self) -> (res: i64)
        ensures
            res == if seconds_between(self.started_at, self.updated_at) > i64::MAX {
                i64::MAX as int
            } else if seconds_between(self.started_at, self.updated_at) > 0 {
                seconds_between(self.started_at, self.updated_at)
            } else {
                0
            },
    {
        let d = seconds_from(self.started_at, self.updated_at);
        if d > 0 {
            if d > i64::MAX as i128 {
                i64::MAX
            } else {
                d as i64
            }
        } else {
            0
        }
    }

    /// A field-by-field copy.
    pub fn duplicate(&self) -> (res: Self)
        ensures
            res == *self,
    {
        JobState {
            job_id: self.job_id.clone(),
            status: self.status,
            input: self.input.clone(),
            output: self.output.clone(),
            current_file: copy_opt_string(&self.current_file),
            last_error: copy_opt_string(&self.last_error),
            started_at: self.started_at,
            updated_at: self.updated_at,
            last_heartbeat_at: self.last_heartbeat_at,
            pid: self.pid,
            metrics: self.metrics,
        }
    }
}

/// `base` joined with `part` the way `PathBuf::join` joins Unix paths: an
/// absolute `part` replaces `base`; otherwise a `/` is put between them
/// unless `base` is empty or already ends with one.
pub open spec fn path_join(base: Seq<char>, part: Seq<char>) -> Seq<char> {
    if part.len() > 0 && part[0] == '/' {
        part
    } else if base.len() == 0 || base.last() == '/' {
        base + part
    } else {
        base + seq!['/'] + part
    }
}

/// Joins two Unix paths (see `path_join`).
pub fn join_path(base: &str, part: &str) -> (res: String)
    ensures
        res@ == path_join(base@, part@),
{
    let b = crate::text::chars_of(base);
    let p = crate::text::chars_of(part);
    if p.len() > 0 && p[0] == '/' {
        return String::from_str(part);
    }
    let mut out = String::from_str(base);
    if !(b.len() == 0 || b[b.len() - 1] == '/') {
        out.append("/");
        proof {
            reveal_strlit("/");
        }
        assert(out@ =~= base@ + seq!['/']);
    }
    out.append(part);
    out
}

/// Where jobs keep their state, logs and checkpoints.
#[derive(Debug, Clone)]
pub struct JobStore {
    root: String,
}

/// The name of a job's state file.
pub open spec fn state_file_name(job_id: Seq<char>) -> Seq<char> {
    job_id + ".json"@
}

impl JobStore {
    /// The directory that holds everything.
    pub closed spec fn root_view(&self) -> Seq<char> {
        self.root@
    }

    /// A store rooted at `root`.
    pub fn new(root: String) -> (res: Self)
        ensures
            res.root_view() == root@,
    {
        JobStore { root }
    }

    /// The root directory.
    pub fn root(&self) -> (res: String)
        ensures
            res@ == self.root_view(),
    {
        self.root.clone()
    }

    /// `<root>/jobs`.
    pub fn jobs_dir(&self) -> (res: String)
        ensures
            res@ == path_join(self.root_view(), "jobs"@),
    {
        join_path(self.root.as_str(), "jobs")
    }

    /// `<root>/logs`.
    pub fn logs_dir(&self) -> (res: String)
        ensures
            res@ == path_join(self.root_view(), "logs"@),
    {
        join_path(self.root.as_str(), "logs")
    }

    /// `<root>/checkpoints`.
    pub fn checkpoints_dir(&self) -> (res: String)
        ensures
            res@ == path_join(self.root_view(), "checkpoints"@),
    {
        join_path(self.root.as_str(), "checkpoints")
    }

    /// `<root>/logs/<job_id>.log`.
    pub fn log_path(&self, job_id: &str) -> (res: String)
        ensures
            res@ == path_join(path_join(self.root_view(), "logs"@), job_id@ + ".log"@),
    {
        let name = String::from_str(job_id).concat(".log");
        join_path(self.logs_dir().as_str(), name.as_str())
    }

    /// `<root>/checkpoints/<job_id>.sqlite3`.
    pub fn checkpoint_path(&self, job_id: &str) -> (res: String)
        ensures
            res@ == path_join(path_join(self.root_view(), "checkpoints"@), job_id@ + ".sqlite3"@),
    {
        let name = String::from_str(job_id).concat(".sqlite3");
        join_path(self.checkpoints_dir().as_str(), name.as_str())
    }

    /// `<root>/jobs/<job_id>.json`.
    pub fn path_for(&self, job_id: &str) -> (res: String)
        ensures
            res@ == path_join(path_join(self.root_view(), "jobs"@), state_file_name(job_id@)),
    {
        let name = String::from_str(job_id).concat(".json");
        join_path(self.jobs_dir().as_str(), name.as_str())
    }
}

/// `a` is no later than `b`.
pub open spec fn ts_le(a: Timestamp, b: Timestamp) -> bool {
    a.secs < b.secs || (a.secs == b.secs && a.nanos <= b.nanos)
}

/// `order` lists each position of a sequence of `n` exactly once.
pub open spec fn is_permutation(order: Seq<usize>, n: int) -> bool {
    &&& order.len() == n
    &&& forall|k: int| 0 <= k < n ==> order[k] < n
    &&& forall|k: int, l: int| 0 <= k < l < n ==> order[k] != order[l]
}

/// `order` puts `states` newest-updated first, keeping the given order
/// among states updated at the same instant.
pub open spec fn newest_first_order(states: Seq<JobState>, order: Seq<usize>) -> bool {
    &&& is_permutation(order, states.len() as int)
    &&& forall|k: int, l: int|
        0 <= k < l < order.len() ==> ts_le(
            states[order[l] as int].updated_at,
            states[order[k] as int].updated_at,
        )
    &&& forall|k: int, l: int|
        0 <= k < l < order.len() && states[order[k] as int].updated_at == states[order[l] as int].updated_at
            ==> order[k] < order[l]
}

/// `a` was updated strictly before `b`.
fn older(a: Timestamp, b: Timestamp) -> (res: bool)
    ensures
        res == !ts_le(b, a),
{
    a.secs < b.secs || (a.secs == b.secs && a.nanos < b.nanos)
}

/// The order that lists states newest-updated first, stably.
pub fn newest_first(states: &Vec<JobState>) -> (order: Vec<usize>)
    ensures
        newest_first_order(states@, order@),
{
    let n = states.len();
    let mut order: Vec<usize> = Vec::new();
    let mut j: usize = 0;
    while j < n
        invariant
            j <= n == states.len(),
            order.len() == j,
            forall|k: int| 0 <= k < j ==> order@[k] < j,
            forall|k: int, l: int| 0 <= k < l < j ==> order@[k] != order@[l],
            forall|k: int, l: int|
                0 <= k < l < j ==> ts_le(
                    states@[order@[l] as int].updated_at,
                    states@[order@[k] as int].updated_at,
                ),
            forall|k: int, l: int|
                0 <= k < l < j && states@[order@[k] as int].updated_at
                    == states@[order@[l] as int].updated_at ==> order@[k] < order@[l],
        decreases n - j,
    {
        let key = states[j].updated_at;
        let mut p: usize = 0;
        while p < order.len() && !older(states[order[p]].updated_at, key)
            invariant
                p <= order.len() == j,
                j < n == states.len(),
                forall|k: int| 0 <= k < j ==> order@[k] < j,
                forall|k: int| 0 <= k < p ==> ts_le(key, states@[order@[k] as int].updated_at),
            decreases order.len() - p,
        {
            p += 1;
        }
        let ghost before = order@;
        order.insert(p, j);
        proof {
            assert forall|k: int| 0 <= k < j + 1 implies order@[k] < j + 1 by {
                if k < p {
                    assert(order@[k] == before[k]);
                } else if k > p {
                    assert(order@[k] == before[k - 1]);
                }
            }
            assert forall|k: int, l: int| 0 <= k < l < j + 1 implies order@[k] != order@[l] by {
                if k < p && l < p {
                    assert(order@[k] == before[k] && order@[l] == before[l]);
                } else if k < p && l == p {
                    assert(order@[k] == before[k]);
                } else if k < p {
                    assert(order@[k] == before[k] && order@[l] == before[l - 1]);
                } else if k == p {
                    assert(order@[l] == before[l - 1]);
                } else {
                    assert(order@[k] == before[k - 1] && order@[l] == before[l - 1]);
                }
            }
            assert forall|k: int, l: int| 0 <= k < l < j + 1 implies ts_le(
                states@[order@[l] as int].updated_at,
                states@[order@[k] as int].updated_at,
            ) by {
                if k < p && l < p {
                    assert(order@[k] == before[k] && order@[l] == before[l]);
                } else if k < p && l == p {
                    assert(order@[k] == before[k]);
                } else if k < p {
                    assert(order@[k] == before[k] && order@[l] == before[l - 1]);
                    assert(ts_le(key, states@[before[k] as int].updated_at));
                } else if k == p {
                    assert(order@[l] == before[l - 1]);
                    if p < j {
                        assert(!ts_le(key, states@[before[p as int] as int].updated_at));
                        assert(ts_le(
                            states@[before[l - 1] as int].updated_at,
                            states@[before[p as int] as int].updated_at,
                        ));
                    }
                } else {
                    assert(order@[k] == before[k - 1] && order@[l] == before[l - 1]);
                }
            }
            assert forall|k: int, l: int|
                0 <= k < l < j + 1 && states@[order@[k] as int].updated_at
                    == states@[order@[l] as int].updated_at implies order@[k] < order@[l] by {
                if k < p && l < p {
                    assert(order@[k] == before[k] && order@[l] == before[l]);
                } else if k < p && l == p {
                    assert(order@[k] == before[k]);
                } else if k < p {
                    assert(order@[k] == before[k] && order@[l] == before[l - 1]);
                } else if k == p {
                    assert(order@[l] == before[l - 1]);
                    assert(!ts_le(key, states@[before[p as int] as int].updated_at));
                    assert(ts_le(
                        states@[before[l - 1] as int].updated_at,
                        states@[before[p as int] as int].updated_at,
                    ));
                } else {
                    assert(order@[k] == before[k - 1] && order@[l] == before[l - 1]);
                }
            }
        }
        j += 1;
    }
    order
}

/// States listed newest-updated first; states updated at the same instant
/// keep their given order.
pub fn sort_newest_first(states: &Vec<JobState>) -> (res: Vec<JobState>)
    ensures
        exists|order: Seq<usize>|
            newest_first_order(states@, order) && res@.len() == order.len() && forall|k: int|
                0 <= k < order.len() ==> #[trigger] res@[k] == states@[order[k] as int],
{
    let order = newest_first(states);
    let mut res: Vec<JobState> = Vec::new();
    let mut k: usize = 0;
    while k < order.len()
        invariant
            k <= order.len(),
            newest_first_order(states@, order@),
            res@.len() == k,
            forall|m: int| 0 <= m < k ==> #[trigger] res@[m] == states@[order@[m] as int],
        decreases order.len() - k,
    {
        res.push(states[order[k]].duplicate());
        k += 1;
    }
    res
}

} // verus!
