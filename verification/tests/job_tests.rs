use agent_book_translate::job::control::{
    check_existing_job,
    is_pause_requested, mark_paused, pause_transition, resume_transition,
};
use agent_book_translate::job::{
    join_path, sort_newest_first, timestamp_from_clock, JobMetrics, JobState, JobStatus, JobStore, Timestamp,
    STALE_THRESHOLD_SECS,
};

fn now() -> Timestamp {
    let t = chrono::Utc::now();
    Timestamp { secs: t.timestamp(), nanos: t.timestamp_subsec_nanos() }
}

fn seconds_ago(secs: i64) -> Timestamp {
    let t = now();
    Timestamp { secs: t.secs - secs, nanos: t.nanos }
}

fn job(id: &str) -> JobState {
    JobState::new(id.to_string(), "input.epub".to_string(), "output.epub".to_string())
}

#[test]
fn job_store_lists_newest_updated_first() {
    let first = JobState::new("job-a".to_string(), "a.epub".to_string(), "a.zh.epub".to_string());
    let mut second =
        JobState::new("job-b".to_string(), "b.epub".to_string(), "b.zh.epub".to_string());
    second.metrics = JobMetrics { total_chunks: 2, completed_chunks: 2, ..JobMetrics::default() };
    let mut second_saved = second.duplicate();
    second_saved.updated_at = Timestamp { secs: first.updated_at.secs + 1, nanos: 0 };

    let jobs = sort_newest_first(&vec![first, second_saved]);
    assert_eq!(jobs.len(), 2);
    assert_eq!(jobs[0].job_id, "job-b");
    assert_eq!(jobs[1].job_id, "job-a");
}

#[test]
fn elapsed_seconds_are_non_negative() {
    let state = JobState::new(
        "job-elapsed".to_string(),
        "input.epub".to_string(),
        "output.epub".to_string(),
    );

    assert!(state.elapsed_seconds() >= 0);
}

#[test]
fn elapsed_seconds_count_whole_seconds() {
    let mut state = job("job-time");
    state.started_at = Timestamp { secs: 100, nanos: 500_000_000 };
    state.updated_at = Timestamp { secs: 103, nanos: 400_000_000 };
    assert_eq!(state.elapsed_seconds(), 2);
    state.updated_at = Timestamp { secs: 90, nanos: 0 };
    assert_eq!(state.elapsed_seconds(), 0);
}

#[test]
fn equal_update_times_keep_their_order() {
    let mut a = job("job-1");
    let mut b = job("job-2");
    let mut c = job("job-3");
    a.updated_at = Timestamp { secs: 5, nanos: 0 };
    b.updated_at = Timestamp { secs: 9, nanos: 0 };
    c.updated_at = Timestamp { secs: 5, nanos: 0 };
    let sorted = sort_newest_first(&vec![a, b, c]);
    let ids: Vec<&str> = sorted.iter().map(|s| s.job_id.as_str()).collect();
    assert_eq!(ids, vec!["job-2", "job-1", "job-3"]);
}

#[test]
fn store_paths_are_under_its_root() {
    let store = JobStore::new("/state/agent-book-translate".to_string());
    assert_eq!(store.jobs_dir(), "/state/agent-book-translate/jobs");
    assert_eq!(store.logs_dir(), "/state/agent-book-translate/logs");
    assert_eq!(store.checkpoints_dir(), "/state/agent-book-translate/checkpoints");
    assert_eq!(store.path_for("job-paused"), "/state/agent-book-translate/jobs/job-paused.json");
    assert_eq!(store.log_path("j1"), "/state/agent-book-translate/logs/j1.log");
    assert_eq!(
        store.checkpoint_path("j1"),
        "/state/agent-book-translate/checkpoints/j1.sqlite3"
    );
    assert_eq!(join_path("a/", "b"), "a/b");
    assert_eq!(join_path("a", "/b"), "/b");
}

#[test]
fn running_job_with_no_heartbeat_is_stale() {
    let mut state = job("job-stale");
    assert!(!state.is_stale_running_at(now(), false));

    state.status = JobStatus::Running;
    assert!(state.is_stale_running_at(now(), false));
}

#[test]
fn running_job_with_recent_heartbeat_is_not_stale() {
    let mut state = job("job-fresh");
    state.status = JobStatus::Running;
    state.update_heartbeat();

    assert!(!state.is_stale_running_at(now(), false));
}

#[test]
fn running_job_with_old_heartbeat_is_stale() {
    let mut state = job("job-old");
    state.status = JobStatus::Running;
    state.last_heartbeat_at = Some(seconds_ago(STALE_THRESHOLD_SECS + 1));

    assert!(state.is_stale_running_at(now(), false));
}

#[test]
fn test_pid_stale_running_detection() {
    let mut state = job("job-pid-test");
    state.status = JobStatus::Running;

    state.pid = Some(4242);
    state.last_heartbeat_at = Some(seconds_ago(300));
    assert!(
        !state.is_stale_running_at(now(), true),
        "Job must not be stale if its process is still alive"
    );

    state.pid = Some(999999);
    state.last_heartbeat_at = Some(now());
    assert!(
        state.is_stale_running_at(now(), false),
        "Job must be stale if its process is dead"
    );
}

#[test]
fn resume_rejects_non_stale_running_job() {
    let mut state = job("job-live");
    state.status = JobStatus::Running;
    state.update_heartbeat();

    let result = resume_transition(state, false, now(), false);
    assert!(result.is_err(), "resume must reject a non-stale running job");
    let message = match result {
        Err(agent_book_translate::error::AppError::Config(m)) => m,
        other => panic!("unexpected {other:?}"),
    };
    assert_eq!(
        message,
        "job already running: job-live; use --force to override a stale running state"
    );
}

#[test]
fn resume_auto_detects_stale_running_and_succeeds() {
    let mut state = job("job-stale-auto");
    state.status = JobStatus::Running;
    state.last_heartbeat_at = Some(seconds_ago(STALE_THRESHOLD_SECS + 10));

    let resumed = resume_transition(state, false, now(), false).unwrap();
    assert_eq!(resumed.status, JobStatus::Running);
}

#[test]
fn resume_force_overrides_live_running_job() {
    let mut state = job("job-force");
    state.status = JobStatus::Running;
    state.update_heartbeat();

    let forced = resume_transition(state, true, now(), true).unwrap();
    assert_eq!(forced.status, JobStatus::Running);
}

#[test]
fn completed_job_cannot_resume_or_pause() {
    let mut state = job("job-done");
    state.status = JobStatus::Completed;
    assert!(resume_transition(state.duplicate(), true, now(), false).is_err());
    match pause_transition(state) {
        Err(agent_book_translate::error::AppError::Config(m)) => {
            assert_eq!(m, "job already completed: job-done")
        }
        other => panic!("unexpected {other:?}"),
    }
}

#[test]
fn pause_request_moves_running_to_pausing_and_is_idempotent() {
    let mut state = job("job-p");
    state.status = JobStatus::Running;
    let paused = pause_transition(state).unwrap();
    assert_eq!(paused.status, JobStatus::Pausing);
    assert_eq!(paused.last_error.as_deref(), Some("pause requested by user"));
    assert!(is_pause_requested(&paused));
    let again = pause_transition(paused.duplicate()).unwrap();
    assert_eq!(again.status, JobStatus::Pausing);
    let mut stopped = again;
    mark_paused(&mut stopped);
    assert_eq!(stopped.status, JobStatus::Paused);
    assert!(!is_pause_requested(&stopped));

    let pending = job("job-q");
    assert_eq!(pause_transition(pending).unwrap().status, JobStatus::Paused);
    let mut failed = job("job-f");
    failed.status = JobStatus::Failed;
    assert!(pause_transition(failed).is_err());
    let mut resumed = job("job-r");
    resumed.status = JobStatus::Paused;
    resumed.last_error = Some("x".to_string());
    let resumed = resume_transition(resumed, false, now(), false).unwrap();
    assert_eq!(resumed.status, JobStatus::Running);
    assert_eq!(resumed.last_error, None);
}

#[test]
fn existing_job_is_continued_only_for_its_paths() {
    use_existing_job_checks();
}

fn use_existing_job_checks() {
    let state = job("job-x");
    let kept = agent_book_translate::job::control::check_existing_job(
        state.duplicate(),
        "input.epub",
        "output.epub",
    )
    .unwrap();
    assert_eq!(kept.job_id, "job-x");
    let nested = JobState::new("job-y".to_string(), "books//in.epub".to_string(), "out/".to_string());
    assert!(agent_book_translate::job::control::check_existing_job(nested, "books/in.epub", "out").is_ok());
    match agent_book_translate::job::control::check_existing_job(state.duplicate(), "other.epub", "output.epub") {
        Err(agent_book_translate::error::AppError::Config(m)) => {
            assert_eq!(m, "job state paths do not match requested paths: job-x")
        }
        other => panic!("unexpected {other:?}"),
    }
    let mut done = state;
    done.status = JobStatus::Completed;
    match agent_book_translate::job::control::check_existing_job(done, "input.epub", "output.epub") {
        Err(agent_book_translate::error::AppError::Config(m)) => {
            assert_eq!(m, "job already completed: job-x")
        }
        other => panic!("unexpected {other:?}"),
    }
}

#[test]
fn job_continuation_follows_the_path_comparison() {
    let state = job("job-z");
    assert!(agent_book_translate::job::control::job_continuation(state.duplicate(), true).is_ok());
    assert!(agent_book_translate::job::control::job_continuation(state, false).is_err());
}

#[test]
fn clock_readings_become_timestamps() {
    assert_eq!(timestamp_from_clock(Ok((5, 7))), Timestamp { secs: 5, nanos: 7 });
    assert_eq!(
        timestamp_from_clock(Err((2, 250_000_000))),
        Timestamp { secs: -3, nanos: 750_000_000 }
    );
    assert_eq!(timestamp_from_clock(Err((4, 0))), Timestamp { secs: -4, nanos: 0 });
    assert_eq!(
        timestamp_from_clock(Ok((u64::MAX, 1))),
        Timestamp { secs: i64::MAX, nanos: 999_999_999 }
    );
    let fresh = JobState::new("j".to_string(), "in.epub".to_string(), "out.epub".to_string());
    assert!(fresh.started_at.nanos < 1_000_000_000);
    assert!((fresh.started_at.secs - now().secs).abs() <= 5);
}

#[test]
fn job_paths_compare_by_components() {
    let dotted = JobState::new("j".to_string(), "a/./b.epub".to_string(), "/x/y/.".to_string());
    assert!(check_existing_job(dotted, "a/b.epub", "/x//y/").is_ok());
    let leading = JobState::new("k".to_string(), "./a.epub".to_string(), "o".to_string());
    assert!(check_existing_job(leading, "a.epub", "o").is_err());
    let parent = JobState::new("m".to_string(), "a/../b.epub".to_string(), "o".to_string());
    assert!(check_existing_job(parent, "b.epub", "o").is_err());
    let rooted = JobState::new("n".to_string(), "/a.epub".to_string(), "o".to_string());
    assert!(check_existing_job(rooted, "a.epub", "o").is_err());
}

#[test]
fn failed_run_marks_the_job_failed() {
    let mut state = job("job-f");
    let before = state.duplicate();
    state.mark_failed(&agent_book_translate::error::AppError::Http("timeout".to_string()));
    assert_eq!(state.status, JobStatus::Failed);
    assert_eq!(state.last_error.as_deref(), Some("http error: timeout"));
    assert_eq!(state.metrics, before.metrics);
    assert_eq!(state.job_id, before.job_id);
}
