//! The translation run as a state machine: each step takes the answer to the
//! previous request and says which progress events to report and what to do
//! next (check for a pause, store a checkpoint, ask the model, write the
//! book). Whoever drives the run performs the requests.

use vstd::prelude::*;

use crate::agent::client::TranslationResult;
use crate::agent::prompt::PromptContext;
use crate::db::checkpoint::{ChunkProgress, CompletedChunkMap, chunk_key, has_wrapper_marker, holds_wrapper_marker};
use crate::error::{AppError, error_text};
use crate::job::JobStore;
use crate::pipeline::parser::{RenderedChunk, TextChunk, render_file_checked, rendered_file};
use crate::pipeline::progress::ProgressEvent;
use crate::text::{chars_of, rfind_elem, string_from_chars};

verus! {

/// The job a controlled run belongs to: it checks for pause requests and
/// keeps checkpoints.
#[derive(Debug, Clone)]
pub struct JobControl {
    pub store: JobStore,
    pub job_id: String,
}

/// The last `/`-separated part of a path (all of it where it has no `/`).
pub open spec fn last_segment(p: Seq<char>) -> Seq<char> {
    match rfind_elem(p, '/') {
        Some(k) => p.skip(k + 1),
        None => p,
    }
}

/// The final component of a path as `Path::file_name` gives it on Unix:
/// trailing separators and `.` parts are passed over (`Path::components`
/// normalizes them away), a final `..` or an empty path has none, and
/// otherwise it is the last part.
pub open spec fn unix_file_name(p: Seq<char>) -> Option<Seq<char>>
    decreases p.len(),
{
    if p.len() == 0 {
        None
    } else if p.last() == '/' {
        unix_file_name(p.drop_last())
    } else if last_segment(p) == "."@ {
        if p.len() == 1 {
            None
        } else {
            unix_file_name(p.drop_last())
        }
    } else if last_segment(p) == ".."@ {
        None
    } else {
        Some(last_segment(p))
    }
}

/// The extension of a file name as `Path::extension` documents it: what
/// follows the final `.`, where there is one and the name does not merely
/// begin with it.
pub open spec fn name_extension(name: Seq<char>) -> Option<Seq<char>> {
    match rfind_elem(name, '.') {
        Some(i) => if i > 0 {
            Some(name.skip(i + 1))
        } else {
            None
        },
        None => None,
    }
}

/// The extension of a path's final component on Unix.
pub open spec fn unix_path_extension(p: Seq<char>) -> Option<Seq<char>> {
    match unix_file_name(p) {
        Some(n) => name_extension(n),
        None => None,
    }
}

/// Calls `Path::new(path).extension()` and reads it with `to_str` (which
/// always succeeds on a path made from a `str`). Trusted: the result is the
/// extension that the documentation of `Path::file_name`, `Path::components`
/// and `Path::extension` describes for Unix paths (see `unix_path_extension`).
#[verifier::external_body]
fn path_extension(path: &str) -> (res: Option<String>)
    ensures
        match res {
            Some(e) => unix_path_extension(path@) == Some(e@),
            None => unix_path_extension(path@) is None,
        },
{
    std::path::Path::new(path).extension().and_then(|e| e.to_str()).map(String::from)
}

/// An ASCII capital letter.
pub open spec fn is_ascii_upper(c: char) -> bool {
    'A' <= c && c <= 'Z'
}

/// Two characters are equal once ASCII capitals are lowered.
pub open spec fn eq_ascii_ci(a: char, b: char) -> bool {
    a == b || (is_ascii_upper(a) && (a as u32) + 32 == (b as u32)) || (is_ascii_upper(b) && (b
        as u32) + 32 == (a as u32))
}

/// Two texts are equal once ASCII capitals are lowered, as
/// `str::eq_ignore_ascii_case` compares them.
pub open spec fn eq_ignore_ascii_case(a: Seq<char>, b: Seq<char>) -> bool {
    a.len() == b.len() && forall|i: int| 0 <= i < a.len() ==> eq_ascii_ci(#[trigger] a[i], b[i])
}

/// Compares two texts without regard to ASCII case.
pub fn chars_eq_ignore_ascii_case(a: &Vec<char>, b: &Vec<char>) -> (res: bool)
    ensures
        res == eq_ignore_ascii_case(a@, b@),
{
    if a.len() != b.len() {
        return false;
    }
    let mut i: usize = 0;
    while i < a.len()
        invariant
            a@.len() == b@.len(),
            i <= a@.len(),
            forall|j: int| 0 <= j < i ==> eq_ascii_ci(#[trigger] a@[j], b@[j]),
        decreases a.len() - i,
    {
        let x = a[i];
        let y = b[i];
        let xu = x as u32;
        let yu = y as u32;
        let same = x == y || ('A' <= x && x <= 'Z' && xu + 32 == yu) || ('A' <= y && y <= 'Z' && yu
            + 32 == xu);
        if !same {
            assert(!eq_ascii_ci(a@[i as int], b@[i as int]));
            return false;
        }
        i += 1;
    }
    true
}

/// A path names an EPUB book: its extension is `epub` in any ASCII case.
pub open spec fn is_epub_path(input: Seq<char>) -> bool {
    match unix_path_extension(input) {
        Some(e) => eq_ignore_ascii_case(e, "epub"@),
        None => false,
    }
}

/// Accepts only EPUB input (see `is_epub_path`); anything else is refused as
/// an unsupported format, naming the path.
pub fn validate_epub_input(input: &str) -> (res: Result<(), AppError>)
    ensures
        match res {
            Ok(()) => is_epub_path(input@),
            Err(e) => !is_epub_path(input@) && (e matches AppError::UnsupportedFormat(m) && m@
                == "only EPUB input is supported in v0.1.0: "@ + input@),
        },
{
    let ok = match path_extension(input) {
        Some(ext) => {
            let e = chars_of(ext.as_str());
            let epub = chars_of("epub");
            chars_eq_ignore_ascii_case(&e, &epub)
        },
        None => false,
    };
    if ok {
        Ok(())
    } else {
        Err(
            AppError::UnsupportedFormat(
                crate::error::message_with("only EPUB input is supported in v0.1.0: ", input),
            ),
        )
    }
}

/// A text file of the book as a run sees it: its archive name, its HTML and
/// the chunks extracted from it.
#[derive(Debug)]
pub struct TextFile {
    pub name: String,
    pub raw_html: String,
    pub chunks: Vec<TextChunk>,
}

/// The answer to the previous request.
#[derive(Debug)]
pub enum Answer {
    /// Go on (the answer to `Continue`, and what starts a run).
    Proceed,
    /// Whether the job was asked to pause, or why that could not be read.
    PauseState(Result<bool, AppError>),
    /// The outcome of a store, a pause mark or the writing of the book.
    Done(Result<(), AppError>),
    /// The outcome of a translation request.
    Translated(Result<TranslationResult, AppError>),
}

/// What the run needs done next.
#[derive(Debug)]
pub enum Request {
    /// Nothing to do outside; step again with `Proceed`.
    Continue,
    /// Read whether the job was asked to pause.
    CheckPause,
    /// Mark the job paused.
    MarkPaused,
    /// Store this chunk's progress in the checkpoint store.
    SaveChunk(ChunkProgress),
    /// Ask the model to translate.
    Translate(PromptContext),
    /// Write the book, with these files' HTML replaced.
    WriteBook(Vec<(String, String)>),
    /// The run is over, with this outcome.
    Finish(Result<(), AppError>),
}

/// The events to report, in order, and then the request to perform.
#[derive(Debug)]
pub struct Step {
    pub events: Vec<ProgressEvent>,
    pub request: Request,
}

/// Where a run stands.
#[derive(Debug)]
pub enum Phase {
    NotStarted,
    Ready,
    CheckingPause,
    MarkingPaused,
    Claiming,
    Translating,
    Recording(TranslationResult),
    Releasing(AppError),
    Writing,
    Over,
}

/// A translation run over the text files of a book. `file` and `chunk` are
/// the position of the next chunk; `rendered_chunks` are the chunks of the
/// current file handled so far, `rendered_files` the files finished, and
/// `translated_in_file` tells whether this run translated any chunk of the
/// current file (a file made only of stored translations was already
/// counted as done when the run started).
#[derive(Debug)]
pub struct EngineRun {
    pub files: Vec<TextFile>,
    pub controlled: bool,
    pub target_language: String,
    pub completed: CompletedChunkMap,
    pub completed_chunks: usize,
    pub file: usize,
    pub chunk: usize,
    pub rendered_chunks: Vec<RenderedChunk>,
    pub rendered_files: Vec<(String, String)>,
    pub translated_in_file: bool,
    pub phase: Phase,
}

/// The number of chunks of the files.
pub open spec fn total_chunks_of(files: Seq<TextFile>) -> nat
    decreases files.len(),
{
    if files.len() == 0 {
        0
    } else {
        total_chunks_of(files.drop_last()) + files.last().chunks@.len()
    }
}

/// Every chunk of a file is in the completed map.
pub open spec fn file_done(map: Map<(Seq<char>, i64), ChunkProgress>, f: TextFile) -> bool {
    forall|i: int| 0 <= i < f.chunks@.len() ==> #[trigger] map.dom().contains((f.name@, i as i64))
}

/// The number of files whose chunks are all completed.
pub open spec fn done_files_count(map: Map<(Seq<char>, i64), ChunkProgress>, files: Seq<TextFile>) -> nat
    decreases files.len(),
{
    if files.len() == 0 {
        0
    } else {
        done_files_count(map, files.drop_last()) + if file_done(map, files.last()) {
            1nat
        } else {
            0nat
        }
    }
}

/// The phases in which the run is at a chunk.
pub open spec fn at_chunk(p: Phase) -> bool {
    p is CheckingPause || p is Claiming || p is Translating || p is Recording || p is Releasing
}

impl EngineRun {
    /// The run's position and checkpoint map are consistent.
    pub open spec fn wf(self) -> bool {
        &&& self.completed.wf()
        &&& total_chunks_of(self.files@) <= usize::MAX
        &&& self.file <= self.files@.len()
        &&& self.file < self.files@.len() ==> self.chunk <= self.files@[self.file as int].chunks@.len()
        &&& self.file == self.files@.len() ==> self.chunk == 0
        &&& at_chunk(self.phase) ==> self.file < self.files@.len() && self.chunk
            < self.files@[self.file as int].chunks@.len()
        &&& self.phase matches Phase::Recording(r) ==> !holds_wrapper_marker(r.translation@)
    }

    /// The name of the current file.
    pub open spec fn current_name(self) -> Seq<char> {
        self.files@[self.file as int].name@
    }

    /// The current chunk.
    pub open spec fn current_chunk(self) -> TextChunk {
        self.files@[self.file as int].chunks@[self.chunk as int]
    }

    /// The checkpoint key of the current chunk.
    pub open spec fn current_key(self) -> (Seq<char>, i64) {
        (self.current_name(), self.chunk as i64)
    }
}

/// The answer that a phase waits for.
pub open spec fn answer_fits(p: Phase, a: Answer) -> bool {
    match p {
        Phase::NotStarted | Phase::Ready => a is Proceed,
        Phase::CheckingPause => a is PauseState,
        Phase::Translating => a is Translated,
        Phase::MarkingPaused | Phase::Claiming | Phase::Recording(_) | Phase::Releasing(_)
        | Phase::Writing => a is Done,
        Phase::Over => false,
    }
}

/// A checkpoint record of the current chunk in state `state`.
pub open spec fn chunk_record(
    r: EngineRun,
    p: ChunkProgress,
    translated: Option<Seq<char>>,
    state: Seq<char>,
) -> bool {
    &&& chunk_key(p) == r.current_key()
    &&& p.original_text == r.current_chunk().text
    &&& match translated {
        Some(t) => p.translated_text matches Some(x) && x@ == t,
        None => p.translated_text is None,
    }
    &&& p.state@ == state
}

/// The translation request for the current chunk: its text, in the run's
/// target language, with no further context.
pub open spec fn chunk_prompt(r: EngineRun, c: PromptContext) -> bool {
    &&& c.target == r.current_chunk().text
    &&& c.target_language == r.target_language
    &&& c.book_summary@.len() == 0
    &&& c.pov_speaker@.len() == 0
    &&& c.glossary@.len() == 0
    &&& c.previous_context@.len() == 0
    &&& c.next_context@.len() == 0
}

/// The current chunk rendered with `translated`.
pub open spec fn chunk_rendered(r: EngineRun, rc: RenderedChunk, translated: Seq<char>) -> bool {
    &&& rc.file_name@ == r.current_name()
    &&& rc.chunk_index == r.chunk
    &&& rc.original == r.current_chunk().text
    &&& rc.translated@ == translated
}

/// `b` is `a` moved past the current chunk with `rc` rendered.
pub open spec fn moved_past_chunk(a: EngineRun, b: EngineRun, rc: RenderedChunk) -> bool {
    &&& b.files == a.files
    &&& b.controlled == a.controlled
    &&& b.target_language == a.target_language
    &&& b.completed_chunks == a.completed_chunks
    &&& b.file == a.file
    &&& b.chunk == a.chunk + 1
    &&& b.rendered_chunks@ == a.rendered_chunks@.push(rc)
    &&& b.rendered_files == a.rendered_files
    &&& b.phase is Ready
}

/// What happens at the current chunk once no pause stands in the way: a
/// chunk already in the checkpoint map is rendered from the stored
/// translation (empty where none was stored); otherwise a controlled run
/// first records the chunk as processing, and an uncontrolled one asks for
/// the translation at once.
pub open spec fn chunk_looked_up(a: EngineRun, b: EngineRun, res: Step) -> bool {
    let map = a.completed@;
    if map.dom().contains(a.current_key()) {
        &&& b.completed == a.completed
        &&& b.translated_in_file == a.translated_in_file
        &&& res.events@.len() == 0
        &&& res.request is Continue
        &&& exists|rc: RenderedChunk| #[trigger]
            moved_past_chunk(a, b, rc) && chunk_rendered(
                a,
                rc,
                match map[a.current_key()].translated_text {
                    Some(t) => t@,
                    None => Seq::empty(),
                },
            )
    } else if a.controlled {
        &&& b == EngineRun { phase: Phase::Claiming, ..a }
        &&& res.events@.len() == 0
        &&& res.request matches Request::SaveChunk(p) && chunk_record(a, p, None, "processing"@)
    } else {
        &&& b == EngineRun { phase: Phase::Translating, ..a }
        &&& res.events@.len() == 0
        &&& res.request matches Request::Translate(c) && chunk_prompt(a, c)
    }
}

/// A translation recorded for the current chunk: stored in the map as
/// completed, rendered, reported as a finished chunk, and noted as work of
/// this run on the current file.
pub open spec fn chunk_completed(a: EngineRun, b: EngineRun, t: Seq<char>, events: Seq<ProgressEvent>, res: Step) -> bool {
    &&& res.events@ == events.push(ProgressEvent::ChunkFinished)
    &&& res.request is Continue
    &&& b.translated_in_file
    &&& exists|p: ChunkProgress, rc: RenderedChunk|
        #![trigger moved_past_chunk(a, b, rc), chunk_record(a, p, Some(t), "completed"@)]
        moved_past_chunk(a, b, rc) && chunk_rendered(a, rc, t) && chunk_record(
            a,
            p,
            Some(t),
            "completed"@,
        ) && b.completed@ == a.completed@.insert(chunk_key(p), p)
}

/// The error a translation that still holds a JSON wrapper fragment fails
/// with.
pub open spec fn is_leak_error(e: AppError) -> bool {
    e matches AppError::Translation(m) && m@ == "translation still holds a JSON wrapper fragment"@
}

/// The events that report a failed chunk and the failed run.
pub open spec fn failure_events(events: Seq<ProgressEvent>, e: AppError) -> bool {
    &&& events.len() == 2
    &&& events[0] matches ProgressEvent::ChunkFailed { error } && error@ == error_text(e)
    &&& events[1] matches ProgressEvent::Failed { error } && error@ == error_text(e)
}

/// The run ends at once with this error and reports nothing.
pub open spec fn aborted(a: EngineRun, b: EngineRun, res: Step, e: AppError) -> bool {
    &&& b == EngineRun { phase: Phase::Over, ..a }
    &&& res.events@.len() == 0
    &&& res.request == Request::Finish(Err(e))
}

/// The events that start a run: the totals, the chunks already done (as
/// the job recorded them), the files whose chunks are all in the checkpoint
/// map, and then the start of the first file, if there is one.
pub open spec fn start_events(a: EngineRun, events: Seq<ProgressEvent>) -> bool {
    &&& events[0] == ProgressEvent::Started {
        total_text_files: a.files@.len() as usize,
        total_chunks: total_chunks_of(a.files@) as usize,
        completed_chunks: a.completed_chunks,
        completed_text_files: done_files_count(a.completed@, a.files@) as usize,
    }
    &&& if a.files@.len() > 0 {
        &&& events.len() == 2
        &&& events[1] matches ProgressEvent::FileStarted { file_name } && file_name == a.files@[0].name
    } else {
        events.len() == 1
    }
}

/// The events at the end of the current file: its end, when this run
/// translated any of its chunks, then the start of the next file, if any.
pub open spec fn file_change_events(a: EngineRun, events: Seq<ProgressEvent>) -> bool {
    let k: int = if a.translated_in_file {
        1
    } else {
        0
    };
    &&& a.translated_in_file ==> events[0] == ProgressEvent::FileFinished
    &&& if a.file + 1 < a.files@.len() {
        &&& events.len() == k + 1
        &&& events[k] matches ProgressEvent::FileStarted { file_name } && file_name == a.files@[a.file
            + 1].name
    } else {
        events.len() == k
    }
}

/// What a step does, by the phase the run was in and the answer given.
pub open spec fn step_spec(a: EngineRun, answer: Answer, b: EngineRun, res: Step) -> bool {
    match a.phase {
        Phase::NotStarted => b == EngineRun { phase: Phase::Ready, ..a } && start_events(a, res.events@)
            && res.request is Continue,
        Phase::Ready => if a.file == a.files@.len() {
            &&& b == EngineRun { phase: Phase::Writing, rendered_files: b.rendered_files, ..a }
            &&& b.rendered_files@.len() == 0
            &&& res.events@.len() == 0
            &&& res.request matches Request::WriteBook(v) && v@ == a.rendered_files@
        } else if a.chunk == a.files@[a.file as int].chunks@.len() {
            let f = a.files@[a.file as int];
            match rendered_file(f.raw_html@, a.rendered_chunks@) {
                Some(html) => {
                    &&& b.files == a.files && b.controlled == a.controlled && b.target_language
                        == a.target_language && b.completed == a.completed && b.completed_chunks
                        == a.completed_chunks
                    &&& b.file == a.file + 1 && b.chunk == 0 && b.rendered_chunks@.len() == 0
                    &&& b.phase is Ready
                    &&& !b.translated_in_file
                    &&& b.rendered_files@.len() == a.rendered_files@.len() + 1
                    &&& b.rendered_files@.drop_last() == a.rendered_files@
                    &&& b.rendered_files@.last().0 == f.name
                    &&& b.rendered_files@.last().1@ == vstd::utf8::decode_utf8(html)
                    &&& file_change_events(a, res.events@)
                    &&& res.request is Continue
                },
                None => {
                    &&& b == EngineRun { phase: Phase::Over, ..a }
                    &&& res.events@.len() == 0
                    &&& res.request matches Request::Finish(Err(AppError::Parse(m))) && m@
                        == f.name@ + ": translated chunks do not fit the document"@
                },
            }
        } else if a.controlled {
            b == EngineRun { phase: Phase::CheckingPause, ..a } && res.events@.len() == 0
                && res.request is CheckPause
        } else {
            chunk_looked_up(a, b, res)
        },
        Phase::CheckingPause => match answer {
            Answer::PauseState(Ok(true)) => b == EngineRun { phase: Phase::MarkingPaused, ..a }
                && res.events@.len() == 0 && res.request is MarkPaused,
            Answer::PauseState(Ok(false)) => chunk_looked_up(a, b, res),
            Answer::PauseState(Err(e)) => aborted(a, b, res, e),
            _ => false,
        },
        Phase::MarkingPaused => match answer {
            Answer::Done(Ok(())) => b == EngineRun { phase: Phase::Over, ..a } && res.events@ == seq![
                ProgressEvent::Paused,
            ] && res.request == Request::Finish(Ok(())),
            Answer::Done(Err(e)) => aborted(a, b, res, e),
            _ => false,
        },
        Phase::Claiming => match answer {
            Answer::Done(Ok(())) => b == EngineRun { phase: Phase::Translating, ..a }
                && res.events@.len() == 0 && (res.request matches Request::Translate(c)
                && chunk_prompt(a, c)),
            Answer::Done(Err(e)) => aborted(a, b, res, e),
            _ => false,
        },
        Phase::Translating => match answer {
            Answer::Translated(Ok(r)) => {
                let requested = ProgressEvent::RequestFinished { usage: r.usage, retries: r.retries };
                if holds_wrapper_marker(r.translation@) {
                    if a.controlled {
                        &&& b.phase matches Phase::Releasing(e) && is_leak_error(e)
                        &&& b == EngineRun { phase: b.phase, ..a }
                        &&& res.events@ == seq![requested]
                        &&& res.request matches Request::SaveChunk(p) && chunk_record(
                            a,
                            p,
                            None,
                            "pending"@,
                        )
                    } else {
                        &&& b == EngineRun { phase: Phase::Over, ..a }
                        &&& res.events@.len() == 3 && res.events@[0] == requested
                        &&& res.request matches Request::Finish(Err(e)) && is_leak_error(e)
                            && failure_events(res.events@.drop_first(), e)
                    }
                } else if a.controlled {
                    &&& b == EngineRun { phase: Phase::Recording(r), ..a }
                    &&& res.events@ == seq![requested]
                    &&& res.request matches Request::SaveChunk(p) && chunk_record(
                        a,
                        p,
                        Some(r.translation@),
                        "completed"@,
                    )
                } else {
                    chunk_completed(a, b, r.translation@, seq![requested], res)
                }
            },
            Answer::Translated(Err(e)) => if a.controlled {
                &&& b == EngineRun { phase: Phase::Releasing(e), ..a }
                &&& res.events@.len() == 0
                &&& res.request matches Request::SaveChunk(p) && chunk_record(
                    a,
                    p,
                    None,
                    "pending"@,
                )
            } else {
                &&& b == EngineRun { phase: Phase::Over, ..a }
                &&& failure_events(res.events@, e)
                &&& res.request == Request::Finish(Err(e))
            },
            _ => false,
        },
        Phase::Recording(r) => match answer {
            Answer::Done(Ok(())) => chunk_completed(a, b, r.translation@, seq![], res),
            Answer::Done(Err(e)) => aborted(a, b, res, e),
            _ => false,
        },
        Phase::Releasing(e) => match answer {
            Answer::Done(Ok(())) => {
                &&& b == EngineRun { phase: Phase::Over, ..a }
                &&& failure_events(res.events@, e)
                &&& res.request == Request::Finish(Err(e))
            },
            Answer::Done(Err(e2)) => aborted(a, b, res, e2),
            _ => false,
        },
        Phase::Writing => match answer {
            Answer::Done(Ok(())) => b == EngineRun { phase: Phase::Over, ..a } && res.events@ == seq![
                ProgressEvent::Completed,
            ] && res.request == Request::Finish(Ok(())),
            Answer::Done(Err(e)) => {
                &&& b == EngineRun { phase: Phase::Over, ..a }
                &&& res.events@.len() == 1
                &&& res.events@[0] matches ProgressEvent::Failed { error } && error@ == error_text(e)
                &&& res.request == Request::Finish(Err(e))
            },
            _ => false,
        },
        Phase::Over => false,
    }
}

/// A prefix of the files has no more chunks than all of them.
proof fn lemma_total_prefix(files: Seq<TextFile>, i: int)
    requires
        0 <= i <= files.len(),
    ensures
        total_chunks_of(files.take(i)) <= total_chunks_of(files),
    decreases files.len(),
{
    if i < files.len() {
        assert(files.drop_last().take(i) =~= files.take(i));
        lemma_total_prefix(files.drop_last(), i);
    } else {
        assert(files.take(i) =~= files);
    }
}

/// No more files are done than there are files.
pub proof fn lemma_done_count_bound_pub(map: Map<(Seq<char>, i64), ChunkProgress>, files: Seq<TextFile>)
    ensures
        done_files_count(map, files) <= files.len(),
{
    lemma_done_count_bound(map, files);
}

/// A prefix of the files has no more finished files than there are files.
proof fn lemma_done_count_bound(map: Map<(Seq<char>, i64), ChunkProgress>, files: Seq<TextFile>)
    ensures
        done_files_count(map, files) <= files.len(),
    decreases files.len(),
{
    if files.len() > 0 {
        lemma_done_count_bound(map, files.drop_last());
    }
}

/// The number of chunks of the files (see `total_chunks_of`).
fn total_chunks(files: &Vec<TextFile>) -> (res: usize)
    requires
        total_chunks_of(files@) <= usize::MAX,
    ensures
        res == total_chunks_of(files@),
{
    let mut sum: usize = 0;
    let mut i: usize = 0;
    while i < files.len()
        invariant
            i <= files@.len(),
            total_chunks_of(files@) <= usize::MAX,
            sum == total_chunks_of(files@.take(i as int)),
        decreases files.len() - i,
    {
        assert(files@.take(i + 1).drop_last() =~= files@.take(i as int));
        proof {
            lemma_total_prefix(files@, i + 1);
        }
        sum = sum + files[i].chunks.len();
        i += 1;
    }
    assert(files@.take(files@.len() as int) =~= files@);
    sum
}

/// Whether every chunk of a file is in the map.
fn file_is_done(map: &CompletedChunkMap, f: &TextFile) -> (res: bool)
    requires
        map.wf(),
    ensures
        res == file_done(map@, *f),
{
    let mut j: usize = 0;
    while j < f.chunks.len()
        invariant
            map.wf(),
            j <= f.chunks@.len(),
            forall|k: int| 0 <= k < j ==> #[trigger] map@.dom().contains((f.name@, k as i64)),
        decreases f.chunks.len() - j,
    {
        let key = (f.name.clone(), j as i64);
        if map.get(&key).is_none() {
            return false;
        }
        j += 1;
    }
    true
}

/// The number of files whose chunks are all in the map.
fn count_done_files(map: &CompletedChunkMap, files: &Vec<TextFile>) -> (res: usize)
    requires
        map.wf(),
    ensures
        res == done_files_count(map@, files@),
{
    let mut count: usize = 0;
    let mut i: usize = 0;
    while i < files.len()
        invariant
            map.wf(),
            i <= files@.len(),
            count == done_files_count(map@, files@.take(i as int)),
        decreases files.len() - i,
    {
        assert(files@.take(i + 1).drop_last() =~= files@.take(i as int));
        proof {
            lemma_done_count_bound(map@, files@.take(i as int));
        }
        if file_is_done(map, &files[i]) {
            count = count + 1;
        }
        i += 1;
    }
    assert(files@.take(files@.len() as int) =~= files@);
    count
}

impl EngineRun {
    /// A run over `files` that has not started. A controlled run checks for
    /// pause requests and stores checkpoints; `completed` holds the chunks a
    /// previous run finished and `completed_chunks` the count the job
    /// recorded.
    pub fn new(
        files: Vec<TextFile>,
        controlled: bool,
        target_language: String,
        completed: CompletedChunkMap,
        completed_chunks: usize,
    ) -> (res: Self)
        requires
            completed.wf(),
            total_chunks_of(files@) <= usize::MAX,
        ensures
            res.wf(),
            res.files == files,
            res.controlled == controlled,
            res.target_language == target_language,
            res.completed == completed,
            res.completed_chunks == completed_chunks,
            res.file == 0,
            res.chunk == 0,
            res.rendered_chunks@.len() == 0,
            res.rendered_files@.len() == 0,
            !res.translated_in_file,
            res.phase is NotStarted,
    {
        EngineRun {
            files,
            controlled,
            target_language,
            completed,
            completed_chunks,
            file: 0,
            chunk: 0,
            rendered_chunks: Vec::new(),
            rendered_files: Vec::new(),
            translated_in_file: false,
            phase: Phase::NotStarted,
        }
    }

    /// The translation request for the current chunk.
    fn prompt(&self) -> (res: PromptContext)
        requires
            self.wf(),
            self.file < self.files@.len(),
            self.chunk < self.files@[self.file as int].chunks@.len(),
        ensures
            chunk_prompt(*self, res),
    {
        PromptContext {
            book_summary: String::new(),
            pov_speaker: String::new(),
            glossary: Vec::new(),
            previous_context: String::new(),
            target: self.files[self.file].chunks[self.chunk].text.clone(),
            next_context: String::new(),
            target_language: self.target_language.clone(),
        }
    }

    /// A checkpoint record of the current chunk.
    fn record(&self, translated: Option<String>, state: &str) -> (res: ChunkProgress)
        requires
            self.wf(),
            self.file < self.files@.len(),
            self.chunk < self.files@[self.file as int].chunks@.len(),
        ensures
            chunk_record(
                *self,
                res,
                match translated {
                    Some(t) => Some(t@),
                    None => None,
                },
                state@,
            ),
    {
        let f = &self.files[self.file];
        ChunkProgress {
            chapter_id: f.name.clone(),
            chunk_index: self.chunk as i64,
            original_text: f.chunks[self.chunk].text.clone(),
            translated_text: translated,
            state: String::from_str(state),
        }
    }

    /// Handles the current chunk once no pause stands in the way (see
    /// `chunk_looked_up`).
    fn look_up_chunk(&mut self) -> (res: Step)
        requires
            old(self).wf(),
            old(self).file < old(self).files@.len(),
            old(self).chunk < old(self).files@[old(self).file as int].chunks@.len(),
        ensures
            final(self).wf(),
            chunk_looked_up(*old(self), *final(self), res),
    {
        let key = (self.files[self.file].name.clone(), self.chunk as i64);
        match self.completed.get(&key) {
            Some(existing) => {
                let translated = match &existing.translated_text {
                    Some(t) => t.clone(),
                    None => String::new(),
                };
                let f = &self.files[self.file];
                let rc = RenderedChunk {
                    file_name: f.name.clone(),
                    chunk_index: self.chunk,
                    original: f.chunks[self.chunk].text.clone(),
                    translated,
                };
                let ghost grc = rc;
                let ghost a = *self;
                let n = self.files[self.file].chunks.len();
                assert(self.chunk < n);
                self.rendered_chunks.push(rc);
                self.chunk = self.chunk + 1;
                self.phase = Phase::Ready;
                assert(moved_past_chunk(a, *self, grc));
                Step { events: Vec::new(), request: Request::Continue }
            },
            None => {
                if self.controlled {
                    let p = self.record(None, "processing");
                    self.phase = Phase::Claiming;
                    Step { events: Vec::new(), request: Request::SaveChunk(p) }
                } else {
                    let c = self.prompt();
                    self.phase = Phase::Translating;
                    Step { events: Vec::new(), request: Request::Translate(c) }
                }
            },
        }
    }

    /// Records the translation of the current chunk (see `chunk_completed`).
    fn complete_chunk(&mut self, r: TranslationResult, events: Vec<ProgressEvent>) -> (res: Step)
        requires
            old(self).wf(),
            old(self).file < old(self).files@.len(),
            old(self).chunk < old(self).files@[old(self).file as int].chunks@.len(),
        ensures
            final(self).wf(),
            chunk_completed(*old(self), *final(self), r.translation@, events@, res),
    {
        let ghost a = *self;
        let p = self.record(Some(r.translation.clone()), "completed");
        let f = &self.files[self.file];
        let rc = RenderedChunk {
            file_name: f.name.clone(),
            chunk_index: self.chunk,
            original: f.chunks[self.chunk].text.clone(),
            translated: r.translation,
        };
        let ghost gp = p;
        let ghost grc = rc;
        let n = self.files[self.file].chunks.len();
        assert(self.chunk < n);
        self.completed.insert(p);
        self.rendered_chunks.push(rc);
        self.translated_in_file = true;
        self.chunk = self.chunk + 1;
        self.phase = Phase::Ready;
        let mut events = events;
        events.push(ProgressEvent::ChunkFinished);
        assert(moved_past_chunk(a, *self, grc) && chunk_record(a, gp, Some(r.translation@), "completed"@));
        Step { events, request: Request::Continue }
    }

    /// Starts the run (see `start_events`).
    fn start(&mut self) -> (res: Step)
        requires
            old(self).wf(),
        ensures
            final(self).wf(),
            step_spec(
                EngineRun { phase: Phase::NotStarted, ..*old(self) },
                Answer::Proceed,
                *final(self),
                res,
            ),
    {
        let total = total_chunks(&self.files);
        proof {
            lemma_done_count_bound(self.completed@, self.files@);
        }
        let done = count_done_files(&self.completed, &self.files);
        let mut events: Vec<ProgressEvent> = Vec::new();
        events.push(
            ProgressEvent::Started {
                total_text_files: self.files.len(),
                total_chunks: total,
                completed_chunks: self.completed_chunks,
                completed_text_files: done,
            },
        );
        if self.files.len() > 0 {
            events.push(ProgressEvent::FileStarted { file_name: self.files[0].name.clone() });
        }
        self.phase = Phase::Ready;
        Step { events, request: Request::Continue }
    }

    /// Finishes the current file once all its chunks are handled: renders
    /// its translated chunks into its HTML.
    fn finish_file(&mut self) -> (res: Step)
        requires
            old(self).wf(),
            old(self).file < old(self).files@.len(),
            old(self).chunk == old(self).files@[old(self).file as int].chunks@.len(),
        ensures
            final(self).wf(),
            step_spec(
                EngineRun { phase: Phase::Ready, ..*old(self) },
                Answer::Proceed,
                *final(self),
                res,
            ),
    {
        let f = self.file;
        let nfiles = self.files.len();
        assert(f < nfiles);
        let ghost a = *self;
        match render_file_checked(self.files[f].raw_html.as_str(), self.rendered_chunks.as_slice()) {
            Some(html) => {
                let name = self.files[f].name.clone();
                self.rendered_files.push((name, html));
                let fresh = self.translated_in_file;
                self.rendered_chunks = Vec::new();
                self.file = f + 1;
                self.chunk = 0;
                self.translated_in_file = false;
                self.phase = Phase::Ready;
                let mut events: Vec<ProgressEvent> = Vec::new();
                if fresh {
                    events.push(ProgressEvent::FileFinished);
                }
                if f + 1 < self.files.len() {
                    events.push(
                        ProgressEvent::FileStarted { file_name: self.files[f + 1].name.clone() },
                    );
                }
                assert(self.rendered_files@.drop_last() =~= a.rendered_files@);
                Step { events, request: Request::Continue }
            },
            None => {
                self.phase = Phase::Over;
                let m = String::from_str(self.files[f].name.as_str()).concat(
                    ": translated chunks do not fit the document",
                );
                Step { events: Vec::new(), request: Request::Finish(Err(AppError::Parse(m))) }
            },
        }
    }
}

impl EngineRun {
    /// Handles a step in the Ready phase.
    fn on_ready(&mut self) -> (res: Step)
        requires
            old(self).wf(),
            old(self).phase is Ready,
        ensures
            final(self).wf(),
            step_spec(*old(self), Answer::Proceed, *final(self), res),
    {
        if self.file == self.files.len() {
            let mut out: Vec<(String, String)> = Vec::new();
            std::mem::swap(&mut out, &mut self.rendered_files);
            self.phase = Phase::Writing;
            Step { events: Vec::new(), request: Request::WriteBook(out) }
        } else if self.chunk == self.files[self.file].chunks.len() {
            self.finish_file()
        } else if self.controlled {
            self.phase = Phase::CheckingPause;
            Step { events: Vec::new(), request: Request::CheckPause }
        } else {
            self.look_up_chunk()
        }
    }

    /// Handles the answer to a pause check.
    fn on_pause_state(&mut self, answer: Answer) -> (res: Step)
        requires
            old(self).wf(),
            old(self).phase is CheckingPause,
            answer_fits(old(self).phase, answer),
        ensures
            final(self).wf(),
            step_spec(*old(self), answer, *final(self), res),
    {
        match answer {
            Answer::PauseState(Ok(true)) => {
                self.phase = Phase::MarkingPaused;
                Step { events: Vec::new(), request: Request::MarkPaused }
            },
            Answer::PauseState(Ok(false)) => self.look_up_chunk(),
            Answer::PauseState(Err(e)) => {
                self.phase = Phase::Over;
                Step { events: Vec::new(), request: Request::Finish(Err(e)) }
            },
            _ => Step { events: Vec::new(), request: Request::Continue },
        }
    }

    /// Handles the answer to a pause mark.
    fn on_marked_paused(&mut self, answer: Answer) -> (res: Step)
        requires
            old(self).wf(),
            old(self).phase is MarkingPaused,
            answer_fits(old(self).phase, answer),
        ensures
            final(self).wf(),
            step_spec(*old(self), answer, *final(self), res),
    {
        self.phase = Phase::Over;
        match answer {
            Answer::Done(Ok(())) => {
                let mut events: Vec<ProgressEvent> = Vec::new();
                events.push(ProgressEvent::Paused);
                Step { events, request: Request::Finish(Ok(())) }
            },
            Answer::Done(Err(e)) => Step { events: Vec::new(), request: Request::Finish(Err(e)) },
            _ => Step { events: Vec::new(), request: Request::Continue },
        }
    }

    /// Handles the answer to the processing record of a chunk.
    fn on_claimed(&mut self, answer: Answer) -> (res: Step)
        requires
            old(self).wf(),
            old(self).phase is Claiming,
            answer_fits(old(self).phase, answer),
        ensures
            final(self).wf(),
            step_spec(*old(self), answer, *final(self), res),
    {
        match answer {
            Answer::Done(Ok(())) => {
                let c = self.prompt();
                self.phase = Phase::Translating;
                Step { events: Vec::new(), request: Request::Translate(c) }
            },
            Answer::Done(Err(e)) => {
                self.phase = Phase::Over;
                Step { events: Vec::new(), request: Request::Finish(Err(e)) }
            },
            _ => Step { events: Vec::new(), request: Request::Continue },
        }
    }

    /// Handles the answer to a translation request.
    fn on_translated(&mut self, answer: Answer) -> (res: Step)
        requires
            old(self).wf(),
            old(self).phase is Translating,
            answer_fits(old(self).phase, answer),
        ensures
            final(self).wf(),
            step_spec(*old(self), answer, *final(self), res),
    {
        match answer {
            Answer::Translated(Ok(r)) => {
                let mut events: Vec<ProgressEvent> = Vec::new();
                events.push(ProgressEvent::RequestFinished { usage: r.usage, retries: r.retries });
                if has_wrapper_marker(r.translation.as_str()) {
                    let e = AppError::Translation(
                        String::from_str("translation still holds a JSON wrapper fragment"),
                    );
                    if self.controlled {
                        let p = self.record(None, "pending");
                        self.phase = Phase::Releasing(e);
                        Step { events, request: Request::SaveChunk(p) }
                    } else {
                        self.phase = Phase::Over;
                        events.push(ProgressEvent::ChunkFailed { error: e.describe() });
                        events.push(ProgressEvent::Failed { error: e.describe() });
                        Step { events, request: Request::Finish(Err(e)) }
                    }
                } else if self.controlled {
                    let p = self.record(Some(r.translation.clone()), "completed");
                    self.phase = Phase::Recording(r);
                    Step { events, request: Request::SaveChunk(p) }
                } else {
                    self.complete_chunk(r, events)
                }
            },
            Answer::Translated(Err(e)) => {
                if self.controlled {
                    let p = self.record(None, "pending");
                    self.phase = Phase::Releasing(e);
                    Step { events: Vec::new(), request: Request::SaveChunk(p) }
                } else {
                    self.phase = Phase::Over;
                    let mut events: Vec<ProgressEvent> = Vec::new();
                    events.push(ProgressEvent::ChunkFailed { error: e.describe() });
                    events.push(ProgressEvent::Failed { error: e.describe() });
                    Step { events, request: Request::Finish(Err(e)) }
                }
            },
            _ => Step { events: Vec::new(), request: Request::Continue },
        }
    }

    /// Handles the answer to the completed record of a chunk.
    fn on_recorded(&mut self, r: TranslationResult, answer: Answer) -> (res: Step)
        requires
            old(self).wf(),
            old(self).phase == Phase::Recording(r),
            answer_fits(old(self).phase, answer),
        ensures
            final(self).wf(),
            step_spec(*old(self), answer, *final(self), res),
    {
        match answer {
            Answer::Done(Ok(())) => self.complete_chunk(r, Vec::new()),
            Answer::Done(Err(e)) => {
                self.phase = Phase::Over;
                Step { events: Vec::new(), request: Request::Finish(Err(e)) }
            },
            _ => Step { events: Vec::new(), request: Request::Continue },
        }
    }

    /// Handles the answer to the pending record of a failed chunk.
    fn on_released(&mut self, e: AppError, answer: Answer) -> (res: Step)
        requires
            old(self).wf(),
            old(self).phase == Phase::Releasing(e),
            answer_fits(old(self).phase, answer),
        ensures
            final(self).wf(),
            step_spec(*old(self), answer, *final(self), res),
    {
        self.phase = Phase::Over;
        match answer {
            Answer::Done(Ok(())) => {
                let mut events: Vec<ProgressEvent> = Vec::new();
                events.push(ProgressEvent::ChunkFailed { error: e.describe() });
                events.push(ProgressEvent::Failed { error: e.describe() });
                Step { events, request: Request::Finish(Err(e)) }
            },
            Answer::Done(Err(e2)) => Step { events: Vec::new(), request: Request::Finish(Err(e2)) },
            _ => Step { events: Vec::new(), request: Request::Continue },
        }
    }

    /// Handles the answer to the writing of the book.
    fn on_written(&mut self, answer: Answer) -> (res: Step)
        requires
            old(self).wf(),
            old(self).phase is Writing,
            answer_fits(old(self).phase, answer),
        ensures
            final(self).wf(),
            step_spec(*old(self), answer, *final(self), res),
    {
        self.phase = Phase::Over;
        match answer {
            Answer::Done(Ok(())) => {
                let mut events: Vec<ProgressEvent> = Vec::new();
                events.push(ProgressEvent::Completed);
                Step { events, request: Request::Finish(Ok(())) }
            },
            Answer::Done(Err(e)) => {
                let mut events: Vec<ProgressEvent> = Vec::new();
                events.push(ProgressEvent::Failed { error: e.describe() });
                Step { events, request: Request::Finish(Err(e)) }
            },
            _ => Step { events: Vec::new(), request: Request::Continue },
        }
    }

    /// Takes the answer to the previous request and returns the events to
    /// report and the next request (see `step_spec`).
    pub fn step(&mut self, answer: Answer) -> (res: Step)
        requires
            old(self).wf(),
            answer_fits(old(self).phase, answer),
        ensures
            final(self).wf(),
            step_spec(*old(self), answer, *final(self), res),
    {
        match &self.phase {
            Phase::NotStarted => self.start(),
            Phase::Ready => self.on_ready(),
            Phase::CheckingPause => self.on_pause_state(answer),
            Phase::MarkingPaused => self.on_marked_paused(answer),
            Phase::Claiming => self.on_claimed(answer),
            Phase::Translating => self.on_translated(answer),
            Phase::Recording(r) => {
                let r = r.duplicate();
                self.on_recorded(r, answer)
            },
            Phase::Releasing(e) => {
                let e = e.duplicate();
                self.on_released(e, answer)
            },
            Phase::Writing => self.on_written(answer),
            Phase::Over => Step { events: Vec::new(), request: Request::Continue },
        }
    }
}

/// A chunk whose translation is already in the checkpoint map is never sent
/// to the model again, nor recorded as processing: the step at it renders
/// the stored translation (after a pause check, in a controlled run).
pub proof fn law_checkpointed_chunk_is_reused(a: EngineRun, answer: Answer, b: EngineRun, res: Step)
    requires
        a.wf(),
        answer_fits(a.phase, answer),
        step_spec(a, answer, b, res),
        a.phase is Ready || a.phase is CheckingPause,
        a.file < a.files@.len(),
        a.chunk < a.files@[a.file as int].chunks@.len(),
        a.completed@.dom().contains(a.current_key()),
    ensures
        !(res.request is Translate),
        !(res.request is SaveChunk),
        res.request is Continue ==> b.chunk == a.chunk + 1 && b.completed == a.completed,
{
}

/// A run is over exactly when a step asks to finish, and a finished run
/// takes no further answer.
pub proof fn law_finish_ends_run(a: EngineRun, answer: Answer, b: EngineRun, res: Step)
    requires
        a.wf(),
        answer_fits(a.phase, answer),
        step_spec(a, answer, b, res),
    ensures
        (res.request is Finish) == (b.phase is Over),
        (b.phase is Over) ==> forall|next: Answer| !answer_fits(b.phase, next),
{
}

/// A step never moves the run back: it stays at its file and chunk or moves
/// on, and the checkpoint map only gains entries (or replaces the entry of
/// the current chunk).
pub proof fn law_run_moves_forward(a: EngineRun, answer: Answer, b: EngineRun, res: Step)
    requires
        a.wf(),
        answer_fits(a.phase, answer),
        step_spec(a, answer, b, res),
    ensures
        a.file < b.file || (a.file == b.file && a.chunk <= b.chunk),
        forall|k: (Seq<char>, i64)|
            #[trigger] a.completed@.dom().contains(k) ==> b.completed@.dom().contains(k),
        forall|k: (Seq<char>, i64)|
            #[trigger] a.completed@.dom().contains(k) && k != a.current_key() ==> b.completed@[k]
                == a.completed@[k],
{
}

/// A controlled run asks whether a pause was requested before it handles
/// each chunk, and a granted request stops it cleanly: the job is marked
/// paused, `Paused` is reported and the run ends without error.
pub proof fn law_pause_is_honoured_between_chunks(
    a: EngineRun,
    b: EngineRun,
    res: Step,
    c: EngineRun,
    res2: Step,
    d: EngineRun,
    res3: Step,
)
    requires
        a.wf(),
        a.controlled,
        a.phase is Ready,
        a.file < a.files@.len(),
        a.chunk < a.files@[a.file as int].chunks@.len(),
        step_spec(a, Answer::Proceed, b, res),
        step_spec(b, Answer::PauseState(Ok(true)), c, res2),
        step_spec(c, Answer::Done(Ok(())), d, res3),
    ensures
        res.request is CheckPause,
        res2.request is MarkPaused,
        res3.events@ == seq![ProgressEvent::Paused],
        res3.request == Request::Finish(Ok(())),
        d.phase is Over,
        d.file == a.file && d.chunk == a.chunk && d.completed == a.completed,
{
}

/// A file whose chunks were all completed before the run reached it is
/// rendered from the checkpoints alone: no step at it sends a chunk to the
/// model or records one, the file stays untouched by this run, and its end
/// reports no `FileFinished` (the run counted it as done when it started).
pub proof fn law_done_file_is_not_finished_again(a: EngineRun, answer: Answer, b: EngineRun, res: Step)
    requires
        a.wf(),
        answer_fits(a.phase, answer),
        a.phase is Ready || a.phase is CheckingPause,
        a.file < a.files@.len(),
        file_done(a.completed@, a.files@[a.file as int]),
        !a.translated_in_file,
        step_spec(a, answer, b, res),
    ensures
        !(res.request is Translate),
        !(res.request is SaveChunk),
        !res.events@.contains(ProgressEvent::FileFinished),
        b.file == a.file ==> b.completed == a.completed && !b.translated_in_file && (b.phase is Ready
            || b.phase is CheckingPause || b.phase is MarkingPaused || b.phase is Over),
{
    if a.chunk < a.files@[a.file as int].chunks@.len() {
        assert(a.completed@.dom().contains((a.files@[a.file as int].name@, a.chunk as i64)));
    }
}

/// A step asks to store a chunk as completed only with its translation, and
/// never with a translation that still holds a JSON wrapper fragment; every
/// entry the step puts into the map of completed chunks is such a
/// translation.
pub proof fn law_completed_record_holds_no_wrapper(a: EngineRun, answer: Answer, b: EngineRun, res: Step)
    requires
        a.wf(),
        step_spec(a, answer, b, res),
    ensures
        match res.request {
            Request::SaveChunk(p) => p.state@ == "completed"@ ==> match p.translated_text {
                Some(t) => !holds_wrapper_marker(t@),
                None => false,
            },
            _ => true,
        },
        forall|k: (Seq<char>, i64)|
            #[trigger] b.completed@.dom().contains(k) ==> (a.completed@.dom().contains(k)
                && b.completed@[k] == a.completed@[k]) || match b.completed@[k].translated_text {
                Some(t) => !holds_wrapper_marker(t@),
                None => false,
            },
{
    reveal_strlit("completed");
    reveal_strlit("pending");
    reveal_strlit("processing");
    assert("completed"@ != "pending"@ && "completed"@ != "processing"@) by {
        assert("completed"@[0] != "pending"@[0] && "completed"@[2] != "processing"@[2]);
    }
}

} // verus!
