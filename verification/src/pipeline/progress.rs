//! Progress reporting and usage accounting for translation runs.

use vstd::prelude::*;

use crate::job::{JobMetrics, JobState, JobStatus, JobStore};
use crate::json::{JsonValue, parse_json, spec_get, spec_parse_json};

verus! {

/// Token counts that an API reply reports.
#[derive(Debug, Clone, Copy, PartialEq, Eq, Structural)]
pub struct TokenUsage {
    pub prompt_tokens: u64,
    pub completion_tokens: u64,
    pub total_tokens: u64,
}

impl Default for TokenUsage {
    fn default() -> (res: Self)
        ensures
            res == (TokenUsage { prompt_tokens: 0, completion_tokens: 0, total_tokens: 0 }),
    {
        TokenUsage { prompt_tokens: 0, completion_tokens: 0, total_tokens: 0 }
    }
}

/// The non-negative integer member `key` of a value, or 0.
pub open spec fn u64_member(v: JsonValue, key: Seq<char>) -> u64 {
    match spec_get(v, key) {
        Some(JsonValue::Number(Some(n))) => n,
        _ => 0,
    }
}

/// The `usage` block of an OpenAI-compatible reply: present when the reply
/// is an object with a `usage` member; each count is that member's
/// non-negative integer field, or 0.
pub open spec fn spec_usage(raw: Seq<char>) -> Option<TokenUsage> {
    match spec_parse_json(raw) {
        Some(v) => usage_of_value(v),
        None => None,
    }
}

/// The integer member `key`, or 0.
fn u64_field(v: &JsonValue, key: &str) -> (res: u64)
    ensures
        res == u64_member(*v, key@),
{
    match v.get(key) {
        Some(JsonValue::Number(Some(n))) => *n,
        _ => 0,
    }
}

/// The `usage` block of a parsed reply: present when the reply is an
/// object with a `usage` member; each count is that member's non-negative
/// integer field, or 0.
pub open spec fn usage_of_value(v: JsonValue) -> Option<TokenUsage> {
    match spec_get(v, "usage"@) {
        Some(u) => Some(
            TokenUsage {
                prompt_tokens: u64_member(u, "prompt_tokens"@),
                completion_tokens: u64_member(u, "completion_tokens"@),
                total_tokens: u64_member(u, "total_tokens"@),
            },
        ),
        None => None,
    }
}

impl TokenUsage {
    /// Reads the `usage` block of a parsed reply (see `usage_of_value`).
    pub fn from_json(value: &JsonValue) -> (res: Option<Self>)
        ensures
            res == usage_of_value(*value),
    {
        let usage = value.get("usage")?;
        Some(
            TokenUsage {
                prompt_tokens: u64_field(usage, "prompt_tokens"),
                completion_tokens: u64_field(usage, "completion_tokens"),
                total_tokens: u64_field(usage, "total_tokens"),
            },
        )
    }

    /// Reads the `usage` block of a reply (see `spec_usage`).
    pub fn from_response(raw: &str) -> (res: Option<Self>)
        ensures
            res == spec_usage(raw@),
    {
        let value = parse_json(raw)?;
        Self::from_json(&value)
    }
}

/// What a translation run reports as it goes.
#[derive(Debug, Clone, PartialEq, Eq)]
pub enum ProgressEvent {
    /// The run starts; the counts already done come from the checkpoint.
    Started {
        total_text_files: usize,
        total_chunks: usize,
        completed_chunks: usize,
        completed_text_files: usize,
    },
    FileStarted { file_name: String },
    FileFinished,
    RequestFinished { usage: TokenUsage, retries: u64 },
    ChunkFinished,
    ChunkFailed { error: String },
    Paused,
    Completed,
    Failed { error: String },
}

impl ProgressEvent {
    /// A copy of the event.
    pub fn duplicate(&self) -> (res: Self)
        ensures
            res == *self,
    {
        match self {
            ProgressEvent::Started {
                total_text_files,
                total_chunks,
                completed_chunks,
                completed_text_files,
            } => ProgressEvent::Started {
                total_text_files: *total_text_files,
                total_chunks: *total_chunks,
                completed_chunks: *completed_chunks,
                completed_text_files: *completed_text_files,
            },
            ProgressEvent::FileStarted { file_name } => ProgressEvent::FileStarted {
                file_name: file_name.clone(),
            },
            ProgressEvent::FileFinished => ProgressEvent::FileFinished,
            ProgressEvent::RequestFinished { usage, retries } => ProgressEvent::RequestFinished {
                usage: *usage,
                retries: *retries,
            },
            ProgressEvent::ChunkFinished => ProgressEvent::ChunkFinished,
            ProgressEvent::ChunkFailed { error } => ProgressEvent::ChunkFailed {
                error: error.clone(),
            },
            ProgressEvent::Paused => ProgressEvent::Paused,
            ProgressEvent::Completed => ProgressEvent::Completed,
            ProgressEvent::Failed { error } => ProgressEvent::Failed { error: error.clone() },
        }
    }
}

/// Receives progress events.
pub trait ProgressReporter {
    fn on_event(&mut self, event: ProgressEvent);
}

/// Ignores every event.
#[derive(Debug, Default)]
pub struct NoopProgressReporter;

impl ProgressReporter for NoopProgressReporter {
    fn on_event(&mut self, _event: ProgressEvent) {
    }
}

/// Keeps every event in memory, in order.
#[derive(Debug, Clone)]
pub struct MemoryProgressReporter {
    events: Vec<ProgressEvent>,
}

impl MemoryProgressReporter {
    /// The events received so far.
    pub closed spec fn received(&self) -> Seq<ProgressEvent> {
        self.events@
    }

    /// A reporter that has received nothing.
    pub fn new() -> (res: Self)
        ensures
            res.received() == Seq::<ProgressEvent>::empty(),
    {
        MemoryProgressReporter { events: Vec::new() }
    }

    /// The events received so far, in order.
    pub fn events(&self) -> (res: Vec<ProgressEvent>)
        ensures
            res@ == self.received(),
    {
        let mut out: Vec<ProgressEvent> = Vec::new();
        let mut i: usize = 0;
        while i < self.events.len()
            invariant
                i <= self.events.len(),
                out@ == self.events@.take(i as int),
            decreases self.events.len() - i,
        {
            out.push(self.events[i].duplicate());
            i += 1;
            assert(out@ =~= self.events@.take(i as int));
        }
        assert(self.events@.take(self.events.len() as int) =~= self.events@);
        out
    }

    /// Appends an event.
    pub fn record(&mut self, event: ProgressEvent)
        ensures
            final(self).received() == old(self).received().push(event),
    {
        self.events.push(event);
    }
}

impl ProgressReporter for MemoryProgressReporter {
    fn on_event(&mut self, event: ProgressEvent)
        ensures
            final(self).received() == old(self).received().push(event),
    {
        self.record(event);
    }
}

/// A job's metrics can absorb the event without a counter overflowing.
pub open spec fn event_fits(m: JobMetrics, event: ProgressEvent) -> bool {
    match event {
        ProgressEvent::RequestFinished { usage, retries } => {
            &&& m.request_count + 1 <= u64::MAX
            &&& m.retry_count + retries <= u64::MAX
            &&& m.prompt_tokens + usage.prompt_tokens <= u64::MAX
            &&& m.completion_tokens + usage.completion_tokens <= u64::MAX
            &&& m.total_tokens + usage.total_tokens <= u64::MAX
        },
        ProgressEvent::ChunkFinished => m.completed_chunks + 1 <= usize::MAX,
        ProgressEvent::ChunkFailed { .. } => m.failed_chunks + 1 <= usize::MAX,
        _ => true,
    }
}

/// What one event does to a job's state.
pub open spec fn spec_apply_event(s: JobState, event: ProgressEvent) -> JobState {
    match event {
        ProgressEvent::Started {
            total_text_files,
            total_chunks,
            completed_chunks,
            completed_text_files,
        } => JobState {
            status: JobStatus::Running,
            metrics: JobMetrics {
                total_text_files,
                total_chunks,
                completed_chunks,
                completed_text_files: if completed_text_files <= total_text_files {
                    completed_text_files
                } else {
                    total_text_files
                },
                ..s.metrics
            },
            ..s
        },
        ProgressEvent::FileStarted { file_name } => JobState { current_file: Some(file_name), ..s },
        ProgressEvent::FileFinished => JobState {
            metrics: JobMetrics {
                completed_text_files: if s.metrics.completed_text_files < s.metrics.total_text_files {
                    (s.metrics.completed_text_files + 1) as usize
                } else {
                    s.metrics.completed_text_files
                },
                ..s.metrics
            },
            ..s
        },
        ProgressEvent::RequestFinished { usage, retries } => JobState {
            metrics: JobMetrics {
                request_count: (s.metrics.request_count + 1) as u64,
                retry_count: (s.metrics.retry_count + retries) as u64,
                prompt_tokens: (s.metrics.prompt_tokens + usage.prompt_tokens) as u64,
                completion_tokens: (s.metrics.completion_tokens + usage.completion_tokens) as u64,
                total_tokens: (s.metrics.total_tokens + usage.total_tokens) as u64,
                ..s.metrics
            },
            ..s
        },
        ProgressEvent::ChunkFinished => JobState {
            metrics: JobMetrics {
                completed_chunks: (s.metrics.completed_chunks + 1) as usize,
                ..s.metrics
            },
            ..s
        },
        ProgressEvent::ChunkFailed { error } => JobState {
            metrics: JobMetrics { failed_chunks: (s.metrics.failed_chunks + 1) as usize, ..s.metrics },
            last_error: Some(error),
            ..s
        },
        ProgressEvent::Paused => JobState { status: JobStatus::Paused, ..s },
        ProgressEvent::Completed => JobState { status: JobStatus::Completed, ..s },
        ProgressEvent::Failed { error } => JobState {
            status: JobStatus::Failed,
            last_error: Some(error),
            ..s
        },
    }
}

/// Whether a job's metrics can absorb the event (see `event_fits`).
pub fn event_fits_metrics(m: &JobMetrics, event: &ProgressEvent) -> (res: bool)
    ensures
        res == event_fits(*m, *event),
{
    match event {
        ProgressEvent::RequestFinished { usage, retries } => {
            m.request_count < u64::MAX && m.retry_count <= u64::MAX - *retries && m.prompt_tokens
                <= u64::MAX - usage.prompt_tokens && m.completion_tokens <= u64::MAX
                - usage.completion_tokens && m.total_tokens <= u64::MAX - usage.total_tokens
        },
        ProgressEvent::ChunkFinished => m.completed_chunks < usize::MAX,
        ProgressEvent::ChunkFailed { .. } => m.failed_chunks < usize::MAX,
        _ => true,
    }
}

/// Applies one progress event to a job's state: a start sets the totals and
/// the counts already done (completed files held to the total) and marks
/// the job Running; finished files count up to the total and no further;
/// requests add their retries and tokens; failures note their error; pause,
/// completion and failure set the status.
pub fn apply_progress_event(state: &mut JobState, event: ProgressEvent)
    requires
        event_fits(old(state).metrics, event),
    ensures
        *final(state) == spec_apply_event(*old(state), event),
{
    match event {
        ProgressEvent::Started {
            total_text_files,
            total_chunks,
            completed_chunks,
            completed_text_files,
        } => {
            state.status = JobStatus::Running;
            state.metrics.total_text_files = total_text_files;
            state.metrics.total_chunks = total_chunks;
            state.metrics.completed_chunks = completed_chunks;
            state.metrics.completed_text_files = if completed_text_files <= total_text_files {
                completed_text_files
            } else {
                total_text_files
            };
        },
        ProgressEvent::FileStarted { file_name } => {
            state.current_file = Some(file_name);
        },
        ProgressEvent::FileFinished => {
            if state.metrics.completed_text_files < state.metrics.total_text_files {
                state.metrics.completed_text_files = state.metrics.completed_text_files + 1;
            }
        },
        ProgressEvent::RequestFinished { usage, retries } => {
            state.metrics.request_count = state.metrics.request_count + 1;
            state.metrics.retry_count = state.metrics.retry_count + retries;
            state.metrics.prompt_tokens = state.metrics.prompt_tokens + usage.prompt_tokens;
            state.metrics.completion_tokens = state.metrics.completion_tokens
                + usage.completion_tokens;
            state.metrics.total_tokens = state.metrics.total_tokens + usage.total_tokens;
        },
        ProgressEvent::ChunkFinished => {
            state.metrics.completed_chunks = state.metrics.completed_chunks + 1;
        },
        ProgressEvent::ChunkFailed { error } => {
            state.metrics.failed_chunks = state.metrics.failed_chunks + 1;
            state.last_error = Some(error);
        },
        ProgressEvent::Paused => {
            state.status = JobStatus::Paused;
        },
        ProgressEvent::Completed => {
            state.status = JobStatus::Completed;
        },
        ProgressEvent::Failed { error } => {
            state.status = JobStatus::Failed;
            state.last_error = Some(error);
        },
    }
}

/// Completed text files never exceed the total: a start establishes it, and
/// every event keeps it.
pub proof fn law_completed_files_within_total(s: JobState, event: ProgressEvent)
    requires
        s.metrics.completed_text_files <= s.metrics.total_text_files || event is Started,
    ensures
        spec_apply_event(s, event).metrics.completed_text_files <= spec_apply_event(
            s,
            event,
        ).metrics.total_text_files,
{
}

/// What a job's reporter makes of one event: the event applied (see
/// `spec_apply_event`) where the metrics can absorb it, else the state as it
/// was.
pub open spec fn spec_absorb_event(s: JobState, event: ProgressEvent) -> JobState {
    if event_fits(s.metrics, event) {
        spec_apply_event(s, event)
    } else {
        s
    }
}

/// Applies an event to a job's state where its metrics can absorb it, and
/// leaves the state alone where a counter would overflow (see
/// `spec_absorb_event`); returns whether the event was applied.
pub fn absorb_progress_event(state: &mut JobState, event: ProgressEvent) -> (res: bool)
    ensures
        res == event_fits(old(state).metrics, event),
        *final(state) == spec_absorb_event(*old(state), event),
{
    if event_fits_metrics(&state.metrics, &event) {
        apply_progress_event(state, event);
        true
    } else {
        false
    }
}

/// Whatever events a job's reporter receives, completed text files never
/// exceed the total once a start has set it.
pub proof fn law_reporter_keeps_completed_files_within_total(s: JobState, events: Seq<ProgressEvent>)
    requires
        s.metrics.completed_text_files <= s.metrics.total_text_files,
    ensures
        absorb_all(s, events).metrics.completed_text_files <= absorb_all(
            s,
            events,
        ).metrics.total_text_files,
    decreases events.len(),
{
    if events.len() > 0 {
        law_reporter_keeps_completed_files_within_total(s, events.drop_last());
        law_completed_files_within_total(absorb_all(s, events.drop_last()), events.last());
    }
}

/// A job's state after its reporter received `events`, in order.
pub open spec fn absorb_all(s: JobState, events: Seq<ProgressEvent>) -> JobState
    decreases events.len(),
{
    if events.len() == 0 {
        s
    } else {
        spec_absorb_event(absorb_all(s, events.drop_last()), events.last())
    }
}

/// Persists one job's progress events into its state.
#[derive(Debug, Clone)]
pub struct JobProgressReporter {
    pub store: JobStore,
    pub job_id: String,
}

impl JobProgressReporter {
    /// A reporter for the job `job_id` in `store`.
    pub fn new(store: JobStore, job_id: String) -> (res: Self)
        ensures
            res.store == store,
            res.job_id == job_id,
    {
        JobProgressReporter { store, job_id }
    }

    /// What the reporter does to its job's loaded state on an event (see
    /// `spec_absorb_event`); whoever holds the store saves the state after.
    /// Returns whether the event was applied.
    pub fn update_state(&self, state: &mut JobState, event: ProgressEvent) -> (res: bool)
        ensures
            res == event_fits(old(state).metrics, event),
            *final(state) == spec_absorb_event(*old(state), event),
            old(state).metrics.completed_text_files <= old(state).metrics.total_text_files
                || event is Started ==> final(state).metrics.completed_text_files
                <= final(state).metrics.total_text_files,
    {
        proof {
            if state.metrics.completed_text_files <= state.metrics.total_text_files
                || event is Started {
                law_completed_files_within_total(*state, event);
            }
        }
        absorb_progress_event(state, event)
    }
}

} // verus!
