use agent_book_translate::job::{JobState, JobStatus, JobStore};
use agent_book_translate::pipeline::progress::{
    absorb_progress_event, apply_progress_event, event_fits_metrics, JobProgressReporter, MemoryProgressReporter,
    NoopProgressReporter, ProgressEvent, ProgressReporter, TokenUsage,
};

fn job(id: &str) -> JobState {
    JobState::new(id.to_string(), "input.epub".to_string(), "output.epub".to_string())
}

#[test]
fn token_usage_is_parsed_from_openai_compatible_response() {
    let raw = r#"{
        "choices": [{"message": {"content": "ok"}}],
        "usage": {
            "prompt_tokens": 11,
            "completion_tokens": 13,
            "total_tokens": 24
        }
    }"#;

    let usage = TokenUsage::from_response(raw).unwrap();

    assert_eq!(usage.prompt_tokens, 11);
    assert_eq!(usage.completion_tokens, 13);
    assert_eq!(usage.total_tokens, 24);
}

#[test]
fn missing_usage_reads_as_none_and_bad_counts_as_zero() {
    assert_eq!(TokenUsage::from_response("{\"choices\": []}"), None);
    assert_eq!(TokenUsage::from_response("not json"), None);
    let usage = TokenUsage::from_response(r#"{"usage": {"prompt_tokens": -3, "total_tokens": 2}}"#)
        .unwrap();
    assert_eq!(usage, TokenUsage { prompt_tokens: 0, completion_tokens: 0, total_tokens: 2 });
    assert_eq!(TokenUsage::default(), TokenUsage { prompt_tokens: 0, completion_tokens: 0, total_tokens: 0 });
}

#[test]
fn job_progress_reporter_persists_progress_events() {
    let mut state = job("job-progress");
    let reporter =
        JobProgressReporter::new(JobStore::new("/tmp/state".to_string()), "job-progress".to_string());
    assert_eq!(reporter.job_id, "job-progress");

    let events = vec![
        ProgressEvent::Started {
            total_text_files: 2,
            total_chunks: 5,
            completed_chunks: 0,
            completed_text_files: 0,
        },
        ProgressEvent::FileStarted { file_name: "chapter.xhtml".to_string() },
        ProgressEvent::RequestFinished {
            usage: TokenUsage { prompt_tokens: 7, completion_tokens: 9, total_tokens: 16 },
            retries: 1,
        },
        ProgressEvent::ChunkFinished,
        ProgressEvent::Completed,
    ];
    for event in events {
        assert!(event_fits_metrics(&state.metrics, &event));
        apply_progress_event(&mut state, event);
    }

    assert_eq!(state.status, JobStatus::Completed);
    assert_eq!(state.metrics.total_text_files, 2);
    assert_eq!(state.metrics.total_chunks, 5);
    assert_eq!(state.metrics.completed_chunks, 1);
    assert_eq!(state.metrics.request_count, 1);
    assert_eq!(state.metrics.retry_count, 1);
    assert_eq!(state.metrics.total_tokens, 16);
    assert_eq!(state.current_file.as_deref(), Some("chapter.xhtml"));
}

#[test]
fn paused_progress_event_persists_paused_state() {
    let mut state = job("job-paused");
    apply_progress_event(&mut state, ProgressEvent::Paused);
    assert_eq!(state.status, JobStatus::Paused);
}

#[test]
fn started_event_initializes_completed_text_files_from_checkpoint() {
    let mut state = job("job-resume-files");
    apply_progress_event(
        &mut state,
        ProgressEvent::Started {
            total_text_files: 3,
            total_chunks: 9,
            completed_chunks: 6,
            completed_text_files: 2,
        },
    );
    apply_progress_event(&mut state, ProgressEvent::FileFinished);

    assert_eq!(state.metrics.total_text_files, 3);
    assert_eq!(
        state.metrics.completed_text_files, 3,
        "completed_text_files must equal total after one new file completes"
    );
}

#[test]
fn completed_text_files_never_exceeds_total() {
    let mut state = job("job-no-overflow");
    apply_progress_event(
        &mut state,
        ProgressEvent::Started {
            total_text_files: 2,
            total_chunks: 4,
            completed_chunks: 4,
            completed_text_files: 2,
        },
    );

    assert_eq!(state.metrics.completed_text_files, 2);
    assert!(
        state.metrics.completed_text_files <= state.metrics.total_text_files,
        "completed_text_files must not exceed total_text_files"
    );
}

#[test]
fn test_completed_text_files_bounds_protection() {
    let mut state = job("job-bounds-test");
    apply_progress_event(
        &mut state,
        ProgressEvent::Started {
            total_text_files: 2,
            total_chunks: 4,
            completed_chunks: 0,
            completed_text_files: 1,
        },
    );

    apply_progress_event(&mut state, ProgressEvent::FileFinished);
    apply_progress_event(&mut state, ProgressEvent::FileFinished);

    assert_eq!(state.metrics.completed_text_files, 2);
}

#[test]
fn started_event_caps_checkpoint_count_at_total() {
    let mut state = job("job-cap");
    apply_progress_event(
        &mut state,
        ProgressEvent::Started {
            total_text_files: 2,
            total_chunks: 4,
            completed_chunks: 0,
            completed_text_files: 5,
        },
    );
    assert_eq!(state.metrics.completed_text_files, 2);
    assert_eq!(state.status, JobStatus::Running);
}

#[test]
fn failures_record_their_error() {
    let mut state = job("job-fail");
    apply_progress_event(&mut state, ProgressEvent::ChunkFailed { error: "boom".to_string() });
    assert_eq!(state.metrics.failed_chunks, 1);
    assert_eq!(state.last_error.as_deref(), Some("boom"));
    apply_progress_event(&mut state, ProgressEvent::Failed { error: "gave up".to_string() });
    assert_eq!(state.status, JobStatus::Failed);
    assert_eq!(state.last_error.as_deref(), Some("gave up"));
}

#[test]
fn full_counters_refuse_more() {
    let mut state = job("job-full");
    state.metrics.request_count = u64::MAX;
    let event = ProgressEvent::RequestFinished { usage: TokenUsage::default(), retries: 0 };
    assert!(!event_fits_metrics(&state.metrics, &event));
}

#[test]
fn memory_reporter_keeps_events_in_order() {
    let mut reporter = MemoryProgressReporter::new();
    reporter.on_event(ProgressEvent::ChunkFinished);
    reporter.on_event(ProgressEvent::Completed);
    assert_eq!(reporter.events(), vec![ProgressEvent::ChunkFinished, ProgressEvent::Completed]);
    let mut noop = NoopProgressReporter;
    noop.on_event(ProgressEvent::Paused);
}

#[test]
fn usage_is_read_from_a_parsed_reply() {
    use_parsed_usage();
}

fn use_parsed_usage() {
    let usage = agent_book_translate::json::JsonValue::Object(vec![(
        "total_tokens".to_string(),
        agent_book_translate::json::JsonValue::Number(Some(7)),
    )]);
    let reply = agent_book_translate::json::JsonValue::Object(vec![("usage".to_string(), usage)]);
    assert_eq!(
        TokenUsage::from_json(&reply),
        Some(TokenUsage { prompt_tokens: 0, completion_tokens: 0, total_tokens: 7 })
    );
    assert_eq!(TokenUsage::from_json(&agent_book_translate::json::JsonValue::Null), None);
}

#[test]
fn reporter_skips_an_event_that_would_overflow_a_counter() {
    let mut state = job("job-absorb");
    assert!(absorb_progress_event(&mut state, ProgressEvent::ChunkFinished));
    assert_eq!(state.metrics.completed_chunks, 1);
    state.metrics.request_count = u64::MAX;
    let before = state.clone();
    let usage = TokenUsage { prompt_tokens: 1, completion_tokens: 1, total_tokens: 2 };
    assert!(!absorb_progress_event(&mut state, ProgressEvent::RequestFinished { usage, retries: 0 }));
    assert_eq!(state, before);
    assert!(absorb_progress_event(&mut state, ProgressEvent::FileFinished));
    assert_eq!(state.metrics.completed_text_files, 0);
}

#[test]
fn reporter_update_keeps_completed_files_within_total() {
    let reporter =
        JobProgressReporter::new(JobStore::new("/tmp/state".to_string()), "job-bounds".to_string());
    let mut state = job("job-bounds");
    let started = ProgressEvent::Started {
        total_text_files: 2,
        total_chunks: 4,
        completed_chunks: 0,
        completed_text_files: 1,
    };
    assert!(reporter.update_state(&mut state, started));
    assert!(reporter.update_state(&mut state, ProgressEvent::FileFinished));
    assert!(reporter.update_state(&mut state, ProgressEvent::FileFinished));
    assert_eq!(state.metrics.completed_text_files, 2);
    assert_eq!(state.status, JobStatus::Running);
}
