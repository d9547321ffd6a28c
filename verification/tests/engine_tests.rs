use agent_book_translate::agent::client::TranslationResult;
use agent_book_translate::db::checkpoint::{ChunkProgress, CompletedChunkMap};
use agent_book_translate::error::AppError;
use agent_book_translate::pipeline::engine::{
    validate_epub_input, Answer, EngineRun, Request, TextFile,
};
use agent_book_translate::pipeline::parser::extract_text_chunks;
use agent_book_translate::pipeline::progress::{ProgressEvent, TokenUsage};

fn text_file(name: &str, html: &str) -> TextFile {
    let chunks = extract_text_chunks(html)
        .into_iter()
        .map(|c| c.with_source_path(name.to_string()))
        .collect();
    TextFile { name: name.to_string(), raw_html: html.to_string(), chunks }
}

fn usage() -> TokenUsage {
    TokenUsage { prompt_tokens: 3, completion_tokens: 2, total_tokens: 5 }
}

/// Drives a run to its end: translations are `译:` plus the source text,
/// pause checks answer `paused`, stores and the book write succeed.
fn drive(run: &mut EngineRun, paused: bool) -> (Vec<ProgressEvent>, Vec<Request>, Result<(), AppError>) {
    let mut events = Vec::new();
    let mut requests = Vec::new();
    let mut answer = Answer::Proceed;
    loop {
        let step = run.step(answer);
        events.extend(step.events);
        answer = match &step.request {
            Request::Continue => Answer::Proceed,
            Request::CheckPause => Answer::PauseState(Ok(paused)),
            Request::MarkPaused | Request::SaveChunk(_) | Request::WriteBook(_) => Answer::Done(Ok(())),
            Request::Translate(ctx) => Answer::Translated(Ok(TranslationResult {
                translation: format!("译:{}", ctx.target),
                usage: usage(),
                retries: 0,
            })),
            Request::Finish(_) => {
                if let Request::Finish(result) = step.request {
                    return (events, requests, result);
                }
                unreachable!()
            }
        };
        requests.push(step.request);
    }
}

#[test]
fn epub_input_is_recognised_by_extension() {
    assert!(validate_epub_input("/books/novel.epub").is_ok());
    assert!(validate_epub_input("novel.EPUB").is_ok());
    match validate_epub_input("novel.txt") {
        Err(AppError::UnsupportedFormat(m)) => {
            assert_eq!(m, "only EPUB input is supported in v0.1.0: novel.txt")
        }
        other => panic!("unexpected {other:?}"),
    }
    assert!(validate_epub_input("epub").is_err());
    assert!(validate_epub_input("dir.epub/").is_ok());
}

#[test]
fn epub_extension_is_read_from_the_final_component() {
    assert!(validate_epub_input("book.epub/.").is_ok());
    assert!(validate_epub_input("a//b.epub//").is_ok());
    assert!(validate_epub_input("a.b.epub").is_ok());
    assert!(validate_epub_input(".epub").is_err());
    assert!(validate_epub_input("dir/.epub").is_err());
    assert!(validate_epub_input("x.epub/..").is_err());
    assert!(validate_epub_input("x.epub/../").is_err());
    assert!(validate_epub_input("book.epub.").is_err());
    assert!(validate_epub_input("").is_err());
    assert!(validate_epub_input("/").is_err());
}

#[test]
fn uncontrolled_run_translates_every_chunk_and_writes_the_book() {
    let files = vec![text_file("OEBPS/ch1.xhtml", "<h1>Start</h1><p>Body</p>")];
    let mut run = EngineRun::new(files, false, "Chinese".to_string(), CompletedChunkMap::new(), 0);
    let (events, requests, result) = drive(&mut run, false);
    assert!(result.is_ok());
    assert_eq!(
        events,
        vec![
            ProgressEvent::Started {
                total_text_files: 1,
                total_chunks: 2,
                completed_chunks: 0,
                completed_text_files: 0,
            },
            ProgressEvent::FileStarted { file_name: "OEBPS/ch1.xhtml".to_string() },
            ProgressEvent::RequestFinished { usage: usage(), retries: 0 },
            ProgressEvent::ChunkFinished,
            ProgressEvent::RequestFinished { usage: usage(), retries: 0 },
            ProgressEvent::ChunkFinished,
            ProgressEvent::FileFinished,
            ProgressEvent::Completed,
        ]
    );
    let written = requests
        .iter()
        .find_map(|r| match r {
            Request::WriteBook(files) => Some(files.clone()),
            _ => None,
        })
        .unwrap();
    assert_eq!(written.len(), 1);
    assert_eq!(written[0].0, "OEBPS/ch1.xhtml");
    assert_eq!(written[0].1, "<h1>译:Start</h1><p>译:Body</p>");
    let prompts: Vec<String> = requests
        .iter()
        .filter_map(|r| match r {
            Request::Translate(ctx) => Some(ctx.target.clone()),
            _ => None,
        })
        .collect();
    assert_eq!(prompts, vec!["Start", "Body"]);
}

#[test]
fn controlled_run_stops_when_a_pause_is_requested() {
    let files = vec![text_file("a.xhtml", "<p>One</p>")];
    let mut run = EngineRun::new(files, true, "Chinese".to_string(), CompletedChunkMap::new(), 0);
    let (events, requests, result) = drive(&mut run, true);
    assert!(result.is_ok());
    assert_eq!(events.last(), Some(&ProgressEvent::Paused));
    assert!(requests.iter().any(|r| matches!(r, Request::MarkPaused)));
    assert!(!requests.iter().any(|r| matches!(r, Request::Translate(_))));
}

#[test]
fn controlled_run_checkpoints_each_chunk() {
    let files = vec![text_file("a.xhtml", "<p>One</p>")];
    let mut run = EngineRun::new(files, true, "Chinese".to_string(), CompletedChunkMap::new(), 0);
    let (_, requests, result) = drive(&mut run, false);
    assert!(result.is_ok());
    let saved: Vec<(String, Option<String>)> = requests
        .iter()
        .filter_map(|r| match r {
            Request::SaveChunk(p) => Some((p.state.clone(), p.translated_text.clone())),
            _ => None,
        })
        .collect();
    assert_eq!(
        saved,
        vec![
            ("processing".to_string(), None),
            ("completed".to_string(), Some("译:One".to_string())),
        ]
    );
}

#[test]
fn resumed_run_reuses_checkpointed_chunks() {
    let files = vec![
        text_file("OEBPS/chapter1.xhtml", "<p>Original chunk 1</p>"),
        text_file("OEBPS/chapter2.xhtml", "<p>Original chunk 2</p>"),
    ];
    let mut done = CompletedChunkMap::new();
    done.insert(ChunkProgress {
        chapter_id: "OEBPS/chapter1.xhtml".to_string(),
        chunk_index: 0,
        original_text: "Original chunk 1".to_string(),
        translated_text: Some("译文 1".to_string()),
        state: "completed".to_string(),
    });
    let mut run = EngineRun::new(files, true, "Chinese".to_string(), done, 1);
    let (events, requests, result) = drive(&mut run, false);
    assert!(result.is_ok());
    assert_eq!(
        events[0],
        ProgressEvent::Started {
            total_text_files: 2,
            total_chunks: 2,
            completed_chunks: 1,
            completed_text_files: 1,
        }
    );
    let finished = events.iter().filter(|e| **e == ProgressEvent::FileFinished).count();
    assert_eq!(finished, 1);
    let prompts: Vec<String> = requests
        .iter()
        .filter_map(|r| match r {
            Request::Translate(ctx) => Some(ctx.target.clone()),
            _ => None,
        })
        .collect();
    assert_eq!(prompts, vec!["Original chunk 2"]);
    let written = requests
        .iter()
        .find_map(|r| match r {
            Request::WriteBook(files) => Some(files.clone()),
            _ => None,
        })
        .unwrap();
    assert!(written[0].1.contains("译文 1"));
    assert!(written[1].1.contains("译:Original chunk 2"));
}

#[test]
fn failed_translation_ends_the_run_with_its_error() {
    let files = vec![text_file("a.xhtml", "<p>One</p>")];
    let mut run = EngineRun::new(files, false, "Chinese".to_string(), CompletedChunkMap::new(), 0);
    let mut answer = Answer::Proceed;
    let mut events = Vec::new();
    let result = loop {
        let step = run.step(answer);
        events.extend(step.events);
        answer = match step.request {
            Request::Continue => Answer::Proceed,
            Request::Translate(_) => {
                Answer::Translated(Err(AppError::Translation("rate limited after retries".to_string())))
            }
            Request::Finish(result) => break result,
            other => panic!("unexpected {other:?}"),
        };
    };
    assert!(matches!(result, Err(AppError::Translation(_))));
    assert_eq!(
        &events[events.len() - 2..],
        &[
            ProgressEvent::ChunkFailed {
                error: "translation error: rate limited after retries".to_string()
            },
            ProgressEvent::Failed { error: "translation error: rate limited after retries".to_string() },
        ]
    );
}

#[test]
fn book_without_text_files_is_written_at_once() {
    let mut run =
        EngineRun::new(Vec::new(), false, "Chinese".to_string(), CompletedChunkMap::new(), 0);
    let (events, requests, result) = drive(&mut run, false);
    assert!(result.is_ok());
    assert_eq!(
        events,
        vec![
            ProgressEvent::Started {
                total_text_files: 0,
                total_chunks: 0,
                completed_chunks: 0,
                completed_text_files: 0,
            },
            ProgressEvent::Completed,
        ]
    );
    assert!(matches!(requests.last(), Some(Request::WriteBook(files)) if files.is_empty()));
}

/// Drives a controlled run against a scripted model: `reply` answers each
/// prompt; completed checkpoints are stored into `store`.
fn drive_with(
    run: &mut EngineRun,
    store: &mut CompletedChunkMap,
    reply: &dyn Fn(&str) -> Result<String, AppError>,
) -> (Vec<Vec<(String, String)>>, Result<(), AppError>) {
    let mut books = Vec::new();
    let mut answer = Answer::Proceed;
    loop {
        let step = run.step(answer);
        answer = match step.request {
            Request::Continue => Answer::Proceed,
            Request::CheckPause => Answer::PauseState(Ok(false)),
            Request::MarkPaused => Answer::Done(Ok(())),
            Request::SaveChunk(record) => {
                if record.state == "completed" {
                    store.insert(record);
                }
                Answer::Done(Ok(()))
            }
            Request::Translate(ctx) => Answer::Translated(reply(&ctx.target).map(|translation| {
                TranslationResult { translation, usage: usage(), retries: 0 }
            })),
            Request::WriteBook(files) => {
                books.push(files);
                Answer::Done(Ok(()))
            }
            Request::Finish(result) => return (books, result),
        };
    }
}

#[test]
fn test_e2e_successful_epub_translation_mocked() {
    let chapter_content = r#"<?xml version="1.0" encoding="UTF-8"?>
<!DOCTYPE html>
<html xmlns="http://www.w3.org/1999/xhtml">
<head><title>Chapter 1</title></head>
<body>
  <h1>The Beginning</h1>
  <p>Once upon a time, there was a little rust compiler.</p>
</body>
</html>"#;
    let files = vec![text_file("OEBPS/chapter1.xhtml", chapter_content)];
    let mut run = EngineRun::new(files, true, "Chinese".to_string(), CompletedChunkMap::new(), 0);
    let mut store = CompletedChunkMap::new();
    let (books, result) = drive_with(&mut run, &mut store, &|text: &str| {
        if text.contains("The Beginning") {
            Ok("开始".to_string())
        } else {
            Ok("很久以前，有一个小小的 Rust 编译器。".to_string())
        }
    });
    assert!(result.is_ok());
    let rendered_html = &books[0][0].1;
    assert!(rendered_html.contains("很久以前，有一个小小的 Rust 编译器。"));
    assert!(rendered_html.contains("开始"));
}

#[test]
fn test_e2e_resume_resilience_on_crashes_mocked() {
    let files = || {
        vec![
            text_file("OEBPS/chapter1.xhtml", "<p>Original chunk 1</p>"),
            text_file("OEBPS/chapter2.xhtml", "<p>Original chunk 2</p>"),
        ]
    };
    let mut store = CompletedChunkMap::new();
    let mut run1 = EngineRun::new(files(), true, "Chinese".to_string(), CompletedChunkMap::new(), 0);
    let (_, run1_result) = drive_with(&mut run1, &mut store, &|text: &str| {
        if text.contains("1") {
            Ok("译文 1".to_string())
        } else {
            Err(AppError::Translation("request failed with status 500 Internal Server Error".to_string()))
        }
    });
    assert!(run1_result.is_err());
    let saved = store.get(&("OEBPS/chapter1.xhtml".to_string(), 0)).unwrap();
    assert_eq!(saved.translated_text.as_deref(), Some("译文 1"));

    let mut resumed_map = CompletedChunkMap::new();
    resumed_map.insert(saved.clone());
    let mut run2 = EngineRun::new(files(), true, "Chinese".to_string(), resumed_map, 1);
    let (books, run2_result) =
        drive_with(&mut run2, &mut store, &|_text: &str| Ok("译文 2".to_string()));
    assert!(run2_result.is_ok());
    let html1 = &books[0][0].1;
    let html2 = &books[0][1].1;
    assert!(html1.contains("译文 1"));
    assert!(html2.contains("译文 2"));
}

#[test]
fn finished_run_leaves_every_file_completed() {
    use_finished_run_metrics();
}

fn use_finished_run_metrics() {
    let files = vec![
        text_file("a.xhtml", "<p>A</p>"),
        text_file("b.xhtml", "<p>B</p>"),
        text_file("c.xhtml", "<p>C</p>"),
    ];
    let mut done = CompletedChunkMap::new();
    done.insert(ChunkProgress {
        chapter_id: "b.xhtml".to_string(),
        chunk_index: 0,
        original_text: "B".to_string(),
        translated_text: Some("乙".to_string()),
        state: "completed".to_string(),
    });
    let mut run = EngineRun::new(files, true, "Chinese".to_string(), done, 1);
    let (events, _, result) = drive(&mut run, false);
    assert!(result.is_ok());
    let mut state = agent_book_translate::job::JobState::new(
        "job-m".to_string(),
        "in.epub".to_string(),
        "out.epub".to_string(),
    );
    for event in events {
        assert!(agent_book_translate::pipeline::progress::event_fits_metrics(&state.metrics, &event));
        agent_book_translate::pipeline::progress::apply_progress_event(&mut state, event);
    }
    assert_eq!(state.metrics.total_text_files, 3);
    assert_eq!(state.metrics.completed_text_files, 3);
    assert_eq!(state.metrics.completed_chunks, 3);
    assert_eq!(state.status, agent_book_translate::job::JobStatus::Completed);
}

#[test]
fn leaked_wrapper_is_never_stored_as_completed() {
    let files = vec![text_file("a.xhtml", "<p>One</p><p>Two</p>")];
    let mut run = EngineRun::new(files, true, "Chinese".to_string(), CompletedChunkMap::new(), 0);
    let mut answer = Answer::Proceed;
    let mut events = Vec::new();
    let mut saved = Vec::new();
    let result = loop {
        let step = run.step(answer);
        events.extend(step.events);
        answer = match step.request {
            Request::Continue => Answer::Proceed,
            Request::CheckPause => Answer::PauseState(Ok(false)),
            Request::SaveChunk(record) => {
                saved.push(record);
                Answer::Done(Ok(()))
            }
            Request::Translate(ctx) => {
                let translation = if ctx.target == "One" {
                    "一".to_string()
                } else {
                    r#"{"translation": "二"}"#.to_string()
                };
                Answer::Translated(Ok(TranslationResult { translation, usage: usage(), retries: 0 }))
            }
            Request::Finish(result) => break result,
            other => panic!("unexpected {other:?}"),
        };
    };
    let error = "translation error: translation still holds a JSON wrapper fragment".to_string();
    match result {
        Err(AppError::Translation(m)) => {
            assert_eq!(m, "translation still holds a JSON wrapper fragment")
        }
        other => panic!("unexpected {other:?}"),
    }
    let states: Vec<(i64, String, Option<String>)> = saved
        .iter()
        .map(|r| (r.chunk_index, r.state.clone(), r.translated_text.clone()))
        .collect();
    assert_eq!(
        states,
        vec![
            (0, "processing".to_string(), None),
            (0, "completed".to_string(), Some("一".to_string())),
            (1, "processing".to_string(), None),
            (1, "pending".to_string(), None),
        ]
    );
    assert_eq!(
        &events[events.len() - 3..],
        &[
            ProgressEvent::RequestFinished { usage: usage(), retries: 0 },
            ProgressEvent::ChunkFailed { error: error.clone() },
            ProgressEvent::Failed { error },
        ]
    );
}

#[test]
fn uncontrolled_run_refuses_a_refined_translation_fragment() {
    let files = vec![text_file("a.xhtml", "<p>One</p>")];
    let mut run = EngineRun::new(files, false, "Chinese".to_string(), CompletedChunkMap::new(), 0);
    let mut answer = Answer::Proceed;
    let mut events = Vec::new();
    let mut wrote = false;
    let result = loop {
        let step = run.step(answer);
        events.extend(step.events);
        answer = match step.request {
            Request::Continue => Answer::Proceed,
            Request::Translate(_) => Answer::Translated(Ok(TranslationResult {
                translation: "refined_translation: 一".to_string(),
                usage: usage(),
                retries: 0,
            })),
            Request::WriteBook(_) => {
                wrote = true;
                Answer::Done(Ok(()))
            }
            Request::Finish(result) => break result,
            other => panic!("unexpected {other:?}"),
        };
    };
    assert!(matches!(result, Err(AppError::Translation(_))));
    assert!(!wrote);
    assert_eq!(events.len(), 5);
    assert_eq!(events[2], ProgressEvent::RequestFinished { usage: usage(), retries: 0 });
}
