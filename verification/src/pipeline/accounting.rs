//! What a whole translation run reports of its files: every text file is
//! counted as done exactly once, either at the start (all its chunks were
//! already in the checkpoints) or by one `FileFinished` event.

use vstd::prelude::*;

use crate::db::checkpoint::ChunkProgress;
use crate::pipeline::engine::{
    Answer, EngineRun, Phase, Step, TextFile, answer_fits, done_files_count, file_done, step_spec,
};
use crate::job::JobState;
use crate::pipeline::progress::{ProgressEvent, spec_apply_event};

verus! {

/// How many `FileFinished` events a sequence holds.
pub open spec fn finished_in(events: Seq<ProgressEvent>) -> nat
    decreases events.len(),
{
    if events.len() == 0 {
        0
    } else {
        finished_in(events.drop_last()) + if events.last() == ProgressEvent::FileFinished {
            1nat
        } else {
            0nat
        }
    }
}

/// How many `FileFinished` events a sequence of steps reports.
pub open spec fn finished_in_steps(steps: Seq<Step>) -> nat
    decreases steps.len(),
{
    if steps.len() == 0 {
        0
    } else {
        finished_in_steps(steps.drop_last()) + finished_in(steps.last().events@)
    }
}

/// `states[i + 1]` and `steps[i]` are what step `i` of one run makes of
/// `states[i]` and `answers[i]` (every state well formed, as `step` keeps
/// it).
pub open spec fn is_run_trace(states: Seq<EngineRun>, answers: Seq<Answer>, steps: Seq<Step>) -> bool {
    &&& states.len() == answers.len() + 1
    &&& steps.len() == answers.len()
    &&& forall|i: int| 0 <= i < states.len() ==> #[trigger] states[i].wf()
    &&& forall|i: int|
        0 <= i < answers.len() ==> #[trigger] answer_fits(states[i].phase, answers[i]) && step_spec(
            states[i],
            answers[i],
            states[i + 1],
            steps[i],
        )
}

/// No two text files share a name, and each has fewer chunks than an `i64`
/// can count.
pub open spec fn files_keyable(files: Seq<TextFile>) -> bool {
    &&& forall|a: int, b: int| 0 <= a < b < files.len() ==> #[trigger] files[a].name@ != #[trigger] files[b].name@
    &&& forall|g: int| 0 <= g < files.len() ==> #[trigger] files[g].chunks@.len() <= i64::MAX
}

/// The checkpoint key of chunk `j` of file `g`.
pub open spec fn key_of(files: Seq<TextFile>, g: int, j: int) -> (Seq<char>, i64) {
    (files[g].name@, j as i64)
}

/// What a run's state keeps of its start `s0` after `k` files were reported
/// finished: the files done at the start or reported so far are the files
/// passed; the map only grew, and only at chunks passed; the current file is
/// marked as translated exactly when one of its passed chunks was missing
/// from the starting map; and a chunk being translated was missing from it.
pub open spec fn accounted(s0: EngineRun, s: EngineRun, k: nat) -> bool {
    let files = s0.files@;
    let m0 = s0.completed@;
    let m = s.completed@;
    &&& s.wf()
    &&& s.files == s0.files
    &&& !(s.phase is NotStarted)
    &&& k + done_files_count(m0, files.take(s.file as int)) == s.file
    &&& forall|key: (Seq<char>, i64)| #[trigger] m0.dom().contains(key) ==> m.dom().contains(key)
    &&& s.file < files.len() ==> forall|j: int|
        s.chunk <= j < files[s.file as int].chunks@.len() ==> (#[trigger] m.dom().contains(
            key_of(files, s.file as int, j),
        ) <==> m0.dom().contains(key_of(files, s.file as int, j)))
    &&& s.file < files.len() ==> (s.translated_in_file <==> exists|j: int|
        0 <= j < s.chunk && !#[trigger] m0.dom().contains(key_of(files, s.file as int, j)))
    &&& forall|g: int, j: int|
        s.file < g < files.len() && 0 <= j < files[g].chunks@.len() ==> (#[trigger] m.dom().contains(
            key_of(files, g, j),
        ) <==> m0.dom().contains(key_of(files, g, j)))
    &&& (s.phase is Claiming || s.phase is Translating || s.phase is Recording || s.phase
        is Releasing) ==> !m.dom().contains(s.current_key())
    &&& s.phase is Writing ==> s.file == files.len()
}

/// The events of a step other than the end of a file hold no
/// `FileFinished`.
proof fn lemma_finished_in_small(events: Seq<ProgressEvent>)
    requires
        forall|i: int| 0 <= i < events.len() ==> events[i] != ProgressEvent::FileFinished,
    ensures
        finished_in(events) == 0,
    decreases events.len(),
{
    if events.len() > 0 {
        lemma_finished_in_small(events.drop_last());
    }
}

/// Counting one more file.
proof fn lemma_done_count_step(m0: Map<(Seq<char>, i64), ChunkProgress>, files: Seq<TextFile>, f: int)
    requires
        0 <= f < files.len(),
    ensures
        done_files_count(m0, files.take(f + 1)) == done_files_count(m0, files.take(f)) + if file_done(
            m0,
            files[f],
        ) {
            1nat
        } else {
            0nat
        },
{
    assert(files.take(f + 1).drop_last() =~= files.take(f));
    assert(files.take(f + 1).last() == files[f]);
}

/// The state after a chunk was handled without translation, from the
/// checkpoint map, still keeps `accounted`.
proof fn lemma_reuse_accounted(s0: EngineRun, s: EngineRun, t: EngineRun, k: nat)
    requires
        accounted(s0, s, k),
        files_keyable(s0.files@),
        s.file < s.files@.len(),
        s.chunk < s.files@[s.file as int].chunks@.len(),
        s.completed@.dom().contains(s.current_key()),
        t.wf(),
        t.files == s.files,
        t.completed == s.completed,
        t.file == s.file,
        t.chunk == s.chunk + 1,
        t.translated_in_file == s.translated_in_file,
        t.phase is Ready,
    ensures
        accounted(s0, t, k),
{
    let files = s0.files@;
    let m0 = s0.completed@;
    let f = s.file as int;
    let c = s.chunk as int;
    assert(s.current_key() == key_of(files, f, c));
    assert(m0.dom().contains(key_of(files, f, c)));
    assert(t.translated_in_file <==> exists|j: int|
        0 <= j < t.chunk && !#[trigger] m0.dom().contains(key_of(files, f, j))) by {
        if exists|j: int| 0 <= j < t.chunk && !#[trigger] m0.dom().contains(key_of(files, f, j)) {
            let j = choose|j: int| 0 <= j < t.chunk && !#[trigger] m0.dom().contains(key_of(files, f, j));
            assert(j != c);
            assert(0 <= j < s.chunk);
        }
    }
}

/// The state after a chunk was translated and recorded still keeps
/// `accounted`.
proof fn lemma_completed_accounted(s0: EngineRun, s: EngineRun, t: EngineRun, k: nat, p: ChunkProgress)
    requires
        accounted(s0, s, k),
        files_keyable(s0.files@),
        s.file < s.files@.len(),
        s.chunk < s.files@[s.file as int].chunks@.len(),
        !s.completed@.dom().contains(s.current_key()),
        crate::db::checkpoint::chunk_key(p) == s.current_key(),
        t.wf(),
        t.files == s.files,
        t.completed@ == s.completed@.insert(crate::db::checkpoint::chunk_key(p), p),
        t.file == s.file,
        t.chunk == s.chunk + 1,
        t.translated_in_file,
        t.phase is Ready,
    ensures
        accounted(s0, t, k),
{
    let files = s0.files@;
    let m0 = s0.completed@;
    let m = s.completed@;
    let f = s.file as int;
    let c = s.chunk as int;
    let key = key_of(files, f, c);
    assert(s.current_key() == key);
    assert(!m0.dom().contains(key));
    assert(files[f].chunks@.len() <= i64::MAX);
    assert forall|j: int| t.chunk <= j < files[f].chunks@.len() implies (#[trigger] t.completed@.dom().contains(
        key_of(files, f, j),
    ) <==> m0.dom().contains(key_of(files, f, j))) by {
        assert(key_of(files, f, j) != key);
        assert(m.dom().contains(key_of(files, f, j)) <==> m0.dom().contains(key_of(files, f, j)));
    }
    assert forall|g: int, j: int|
        t.file < g < files.len() && 0 <= j < files[g].chunks@.len() implies (#[trigger] t.completed@.dom().contains(
        key_of(files, g, j),
    ) <==> m0.dom().contains(key_of(files, g, j))) by {
        assert(files[f].name@ != files[g].name@);
        assert(key_of(files, g, j) != key);
    }
    assert(exists|j: int| 0 <= j < t.chunk && !#[trigger] m0.dom().contains(key_of(files, f, j)))
        by {
        assert(!m0.dom().contains(key_of(files, f, c)));
    }
}

/// The state after the current file was finished and the next one begun
/// still keeps `accounted`, with one more file reported when this run
/// translated any of the finished file's chunks.
proof fn lemma_next_file_accounted(s0: EngineRun, s: EngineRun, t: EngineRun, k: nat)
    requires
        accounted(s0, s, k),
        files_keyable(s0.files@),
        s.file < s.files@.len(),
        s.chunk == s.files@[s.file as int].chunks@.len(),
        t.wf(),
        t.files == s.files,
        t.completed == s.completed,
        t.file == s.file + 1,
        t.chunk == 0,
        !t.translated_in_file,
        t.phase is Ready,
    ensures
        accounted(
            s0,
            t,
            k + if s.translated_in_file {
                1nat
            } else {
                0nat
            },
        ),
{
    let files = s0.files@;
    let m0 = s0.completed@;
    let f = s.file as int;
    lemma_done_count_step(m0, files, f);
    assert(s.translated_in_file <==> !file_done(m0, files[f])) by {
        if !file_done(m0, files[f]) {
            let i = choose|i: int| 0 <= i < files[f].chunks@.len() && !#[trigger] m0.dom().contains(
                (files[f].name@, i as i64),
            );
            assert(!m0.dom().contains(key_of(files, f, i)));
        }
        if s.translated_in_file {
            let j = choose|j: int| 0 <= j < s.chunk && !#[trigger] m0.dom().contains(key_of(files, f, j));
            assert(!m0.dom().contains((files[f].name@, j as i64)));
        }
    }
    if t.file < files.len() {
        assert forall|j: int| t.chunk <= j < files[t.file as int].chunks@.len() implies (#[trigger] t.completed@.dom().contains(
            key_of(files, t.file as int, j),
        ) <==> m0.dom().contains(key_of(files, t.file as int, j))) by {
            assert(s.file < t.file < files.len());
        }
    }
}

/// A step that does not end the run keeps `accounted`, counting the
/// `FileFinished` events it reports.
proof fn lemma_step_accounted(
    s0: EngineRun,
    s: EngineRun,
    answer: Answer,
    t: EngineRun,
    res: Step,
    k: nat,
)
    requires
        accounted(s0, s, k),
        files_keyable(s0.files@),
        answer_fits(s.phase, answer),
        step_spec(s, answer, t, res),
        t.wf(),
        !(t.phase is Over),
    ensures
        accounted(s0, t, k + finished_in(res.events@)),
{
    let files = s0.files@;
    match s.phase {
        Phase::Ready => {
            if s.file == files.len() {
                lemma_finished_in_small(res.events@);
            } else if s.chunk == files[s.file as int].chunks@.len() {
                let ev = res.events@;
                if s.translated_in_file {
                    assert(ev[0] == ProgressEvent::FileFinished);
                    if s.file + 1 < files.len() {
                        assert(ev.len() == 2);
                        assert(ev.drop_last().len() == 1);
                        assert(ev.drop_last().drop_last() =~= Seq::<ProgressEvent>::empty());
                        assert(ev.drop_last().last() == ev[0]);
                        assert(ev.last() != ProgressEvent::FileFinished);
                        let e1 = ev.drop_last();
                        assert(finished_in(e1.drop_last()) == 0);
                        assert(finished_in(e1) == finished_in(e1.drop_last()) + 1);
                        assert(finished_in(ev.drop_last()) == 1);
                    } else {
                        assert(ev.len() == 1);
                        assert(ev.drop_last() =~= Seq::<ProgressEvent>::empty());
                        assert(finished_in(ev.drop_last()) == 0);
                        assert(ev.last() == ProgressEvent::FileFinished);
                    }
                    assert(finished_in(ev) == 1);
                } else {
                    lemma_finished_in_small(ev);
                }
                lemma_next_file_accounted(s0, s, t, k);
            } else if s.controlled {
                lemma_finished_in_small(res.events@);
            } else {
                lemma_finished_in_small(res.events@);
                if s.completed@.dom().contains(s.current_key()) {
                    lemma_reuse_accounted(s0, s, t, k);
                }
            }
        },
        Phase::CheckingPause => {
            lemma_finished_in_small(res.events@);
            if let Answer::PauseState(Ok(false)) = answer {
                if s.completed@.dom().contains(s.current_key()) {
                    lemma_reuse_accounted(s0, s, t, k);
                }
            }
        },
        Phase::Claiming => {
            lemma_finished_in_small(res.events@);
        },
        Phase::Translating => {
            lemma_finished_in_small(res.events@);
            if let Answer::Translated(Ok(r)) = answer {
                if !s.controlled {
                    let p = choose|p: ChunkProgress, rc: crate::pipeline::parser::RenderedChunk|
                        #![trigger crate::pipeline::engine::moved_past_chunk(s, t, rc), crate::pipeline::engine::chunk_record(s, p, Some(r.translation@), "completed"@)]
                        crate::pipeline::engine::moved_past_chunk(s, t, rc)
                            && crate::pipeline::engine::chunk_rendered(s, rc, r.translation@)
                            && crate::pipeline::engine::chunk_record(s, p, Some(r.translation@), "completed"@)
                            && t.completed@ == s.completed@.insert(crate::db::checkpoint::chunk_key(p), p);
                    lemma_completed_accounted(s0, s, t, k, p.0);
                }
            }
        },
        Phase::Recording(r) => {
            lemma_finished_in_small(res.events@);
            let p = choose|p: ChunkProgress, rc: crate::pipeline::parser::RenderedChunk|
                #![trigger crate::pipeline::engine::moved_past_chunk(s, t, rc), crate::pipeline::engine::chunk_record(s, p, Some(r.translation@), "completed"@)]
                crate::pipeline::engine::moved_past_chunk(s, t, rc)
                    && crate::pipeline::engine::chunk_rendered(s, rc, r.translation@)
                    && crate::pipeline::engine::chunk_record(s, p, Some(r.translation@), "completed"@)
                    && t.completed@ == s.completed@.insert(crate::db::checkpoint::chunk_key(p), p);
            lemma_completed_accounted(s0, s, t, k, p.0);
        },
        _ => {
            lemma_finished_in_small(res.events@);
        },
    }
}

/// The first step of a run starts the accounting with nothing reported.
proof fn lemma_start_accounted(s0: EngineRun, answer: Answer, t: EngineRun, res: Step)
    requires
        s0.wf(),
        s0.phase is NotStarted,
        s0.file == 0,
        s0.chunk == 0,
        !s0.translated_in_file,
        step_spec(s0, answer, t, res),
        t.wf(),
    ensures
        accounted(s0, t, 0),
        finished_in(res.events@) == 0,
{
    assert(s0.files@.take(0) =~= Seq::<TextFile>::empty());
    lemma_finished_in_small(res.events@);
}

/// Only writing the book reports `Completed`, and then nothing else.
proof fn lemma_completed_after_writing(s: EngineRun, answer: Answer, t: EngineRun, res: Step)
    requires
        s.wf(),
        answer_fits(s.phase, answer),
        step_spec(s, answer, t, res),
        res.events@.contains(ProgressEvent::Completed),
    ensures
        s.phase is Writing,
        res.events@ == seq![ProgressEvent::Completed],
{
    let ev = res.events@;
    let i = choose|i: int| 0 <= i < ev.len() && ev[i] == ProgressEvent::Completed;
    match s.phase {
        Phase::Writing => {
            if let Answer::Done(Err(_)) = answer {
                assert(ev[i] is Failed);
            }
        },
        Phase::NotStarted => {
            assert(ev[i] is Started || ev[i] is FileStarted);
        },
        Phase::Ready => {
            if s.file < s.files@.len() && s.chunk == s.files@[s.file as int].chunks@.len() {
                assert(ev[i] is FileFinished || ev[i] is FileStarted);
            }
        },
        Phase::Translating => {
            assert(ev[i] is RequestFinished || ev[i] is ChunkFinished || ev[i] is ChunkFailed
                || ev[i] is Failed);
        },
        Phase::Releasing(_) => {
            assert(ev[i] is ChunkFailed || ev[i] is Failed);
        },
        _ => {},
    }
}

/// Every state before the last of a run that started from `states[0]` keeps
/// `accounted` with the `FileFinished` events reported so far.
proof fn lemma_trace_accounted(states: Seq<EngineRun>, answers: Seq<Answer>, steps: Seq<Step>, i: int)
    requires
        is_run_trace(states, answers, steps),
        1 <= i < answers.len(),
        states[0].phase is NotStarted,
        states[0].file == 0,
        states[0].chunk == 0,
        !states[0].translated_in_file,
        files_keyable(states[0].files@),
    ensures
        accounted(states[0], states[i], finished_in_steps(steps.take(i))),
    decreases i,
{
    assert(steps.take(i).drop_last() =~= steps.take(i - 1));
    assert(steps.take(i).last() == steps[i - 1]);
    assert(answer_fits(states[i - 1].phase, answers[i - 1]));
    assert(answer_fits(states[i].phase, answers[i]));
    assert(states[i].wf());
    if i == 1 {
        assert(steps.take(0) =~= Seq::<Step>::empty());
        lemma_start_accounted(states[0], answers[0], states[1], steps[0]);
    } else {
        lemma_trace_accounted(states, answers, steps, i - 1);
        lemma_step_accounted(
            states[0],
            states[i - 1],
            answers[i - 1],
            states[i],
            steps[i - 1],
            finished_in_steps(steps.take(i - 1)),
        );
    }
}

/// A run that writes its book counts every text file as done exactly once:
/// the files whose chunks were all in the checkpoints when it started (the
/// count its `Started` event reports) and the files its `FileFinished`
/// events report add up to all text files, provided no two files share a
/// name.
pub proof fn law_each_file_counted_once(
    states: Seq<EngineRun>,
    answers: Seq<Answer>,
    steps: Seq<Step>,
)
    requires
        is_run_trace(states, answers, steps),
        answers.len() >= 2,
        states[0].phase is NotStarted,
        states[0].file == 0,
        states[0].chunk == 0,
        !states[0].translated_in_file,
        files_keyable(states[0].files@),
        steps.last().events@.contains(ProgressEvent::Completed),
    ensures
        done_files_count(states[0].completed@, states[0].files@) + finished_in_steps(steps)
            == states[0].files@.len(),
{
    let n = answers.len() as int;
    lemma_trace_accounted(states, answers, steps, n - 1);
    let s = states[n - 1];
    assert(answer_fits(states[n - 1].phase, answers[n - 1]));
    lemma_completed_after_writing(s, answers[n - 1], states[n], steps[n - 1]);
    assert(steps.drop_last() =~= steps.take(n - 1));
    assert(finished_in(steps.last().events@) == 0) by {
        lemma_finished_in_small(steps.last().events@);
    }
    assert(states[0].files@.take(s.file as int) =~= states[0].files@);
}

/// The events of a sequence of steps, one step after another.
pub open spec fn all_events(steps: Seq<Step>) -> Seq<ProgressEvent>
    decreases steps.len(),
{
    if steps.len() == 0 {
        seq![]
    } else {
        all_events(steps.drop_last()) + steps.last().events@
    }
}

/// A job's state after a sequence of events, applied in order.
pub open spec fn apply_events(s: JobState, events: Seq<ProgressEvent>) -> JobState
    decreases events.len(),
{
    if events.len() == 0 {
        s
    } else {
        spec_apply_event(apply_events(s, events.drop_last()), events.last())
    }
}

/// `FileFinished` events add up over concatenation.
proof fn lemma_finished_in_concat(a: Seq<ProgressEvent>, b: Seq<ProgressEvent>)
    ensures
        finished_in(a + b) == finished_in(a) + finished_in(b),
    decreases b.len(),
{
    if b.len() > 0 {
        lemma_finished_in_concat(a, b.drop_last());
        assert((a + b).drop_last() =~= a + b.drop_last());
        assert((a + b).last() == b.last());
    } else {
        assert(a + b =~= a);
    }
}

/// The `FileFinished` events of all steps are those the steps report.
proof fn lemma_all_events_finished(steps: Seq<Step>)
    ensures
        finished_in(all_events(steps)) == finished_in_steps(steps),
    decreases steps.len(),
{
    if steps.len() > 0 {
        lemma_all_events_finished(steps.drop_last());
        lemma_finished_in_concat(all_events(steps.drop_last()), steps.last().events@);
    }
}

/// The events of all steps are the first step's, then the rest's.
proof fn lemma_all_events_first(steps: Seq<Step>)
    requires
        steps.len() > 0,
    ensures
        all_events(steps) == steps[0].events@ + all_events(steps.subrange(1, steps.len() as int)),
    decreases steps.len(),
{
    if steps.len() == 1 {
        assert(steps.drop_last() =~= Seq::<Step>::empty());
        assert(steps.subrange(1, 1) =~= Seq::<Step>::empty());
        assert(steps[0].events@ + Seq::<ProgressEvent>::empty() =~= steps[0].events@);
        assert(Seq::<ProgressEvent>::empty() + steps[0].events@ =~= steps[0].events@);
    } else {
        lemma_all_events_first(steps.drop_last());
        let rest = steps.subrange(1, steps.len() as int);
        assert(rest.drop_last() =~= steps.drop_last().subrange(1, steps.len() - 1));
        assert(rest.last() == steps.last());
        assert(steps.drop_last()[0] == steps[0]);
        assert(all_events(steps) =~= steps[0].events@ + all_events(rest));
    }
}

/// Applying events in two parts applies them all.
proof fn lemma_apply_concat(s: JobState, a: Seq<ProgressEvent>, b: Seq<ProgressEvent>)
    ensures
        apply_events(s, a + b) == apply_events(apply_events(s, a), b),
    decreases b.len(),
{
    if b.len() > 0 {
        lemma_apply_concat(s, a, b.drop_last());
        assert((a + b).drop_last() =~= a + b.drop_last());
        assert((a + b).last() == b.last());
    } else {
        assert(a + b =~= a);
    }
}

/// Events other than a start leave the file totals alone and count
/// finished files up to the total.
proof fn lemma_apply_counts_files(x: JobState, r: Seq<ProgressEvent>)
    requires
        x.metrics.completed_text_files <= x.metrics.total_text_files,
        forall|i: int| 0 <= i < r.len() ==> !(#[trigger] r[i] is Started),
    ensures
        apply_events(x, r).metrics.total_text_files == x.metrics.total_text_files,
        apply_events(x, r).metrics.completed_text_files == if x.metrics.completed_text_files
            + finished_in(r) <= x.metrics.total_text_files {
            x.metrics.completed_text_files + finished_in(r)
        } else {
            x.metrics.total_text_files as int
        },
    decreases r.len(),
{
    if r.len() > 0 {
        let init = r.drop_last();
        assert forall|i: int| 0 <= i < init.len() implies !(#[trigger] init[i] is Started) by {
            assert(init[i] == r[i]);
        }
        lemma_apply_counts_files(x, init);
        assert(!(r[r.len() - 1] is Started));
    }
}

/// No step after the first reports a start.
proof fn lemma_no_start_after_start(s: EngineRun, answer: Answer, t: EngineRun, res: Step)
    requires
        s.wf(),
        answer_fits(s.phase, answer),
        step_spec(s, answer, t, res),
        !(s.phase is NotStarted),
    ensures
        forall|i: int| 0 <= i < res.events@.len() ==> !(#[trigger] res.events@[i] is Started),
{
    let ev = res.events@;
    assert forall|i: int| 0 <= i < ev.len() implies !(#[trigger] ev[i] is Started) by {
        match s.phase {
            Phase::Ready => {
                if s.file < s.files@.len() && s.chunk == s.files@[s.file as int].chunks@.len() {
                    assert(ev[i] is FileFinished || ev[i] is FileStarted);
                }
            },
            Phase::Translating => {
                assert(ev[i] is RequestFinished || ev[i] is ChunkFinished || ev[i] is ChunkFailed
                    || ev[i] is Failed);
            },
            Phase::Releasing(_) => {
                assert(ev[i] is ChunkFailed || ev[i] is Failed);
            },
            Phase::Writing => {
                assert(ev[i] is Completed || ev[i] is Failed);
            },
            _ => {},
        }
    }
}

/// No step of a run after its first reports a start.
proof fn lemma_rest_has_no_start(
    states: Seq<EngineRun>,
    answers: Seq<Answer>,
    steps: Seq<Step>,
    from: int,
    upto: int,
)
    requires
        is_run_trace(states, answers, steps),
        answers.len() >= 2,
        states[0].phase is NotStarted,
        states[0].file == 0,
        states[0].chunk == 0,
        !states[0].translated_in_file,
        files_keyable(states[0].files@),
        from == 1,
        1 <= upto <= answers.len(),
    ensures
        forall|i: int|
            0 <= i < all_events(steps.subrange(from, upto)).len() ==> !(#[trigger] all_events(
                steps.subrange(from, upto),
            )[i] is Started),
    decreases upto,
{
    let part = steps.subrange(from, upto);
    if upto == 1 {
        assert(part =~= Seq::<Step>::empty());
    } else {
        lemma_rest_has_no_start(states, answers, steps, from, upto - 1);
        assert(part.drop_last() =~= steps.subrange(from, upto - 1));
        assert(part.last() == steps[upto - 1]);
        let j = upto - 1;
        assert(answer_fits(states[j].phase, answers[j]));
        assert(states[j].wf());
        lemma_trace_accounted(states, answers, steps, j);
        lemma_no_start_after_start(states[j], answers[j], states[j + 1], steps[j]);
        let a = all_events(steps.subrange(from, upto - 1));
        let b = steps[j].events@;
        assert(all_events(part) == a + b);
        assert forall|i: int| 0 <= i < (a + b).len() implies !(#[trigger] (a + b)[i] is Started) by {
            if i < a.len() {
                assert((a + b)[i] == a[i]);
            } else {
                assert((a + b)[i] == b[i - a.len()]);
            }
        }
    }
}

/// A run that writes its book leaves a job that applied its events with as
/// many completed text files as text files: the start reports the files
/// already done, and the `FileFinished` events bring the count to the total
/// without ever passing it (provided no two files share a name, and the
/// number of files is a `usize`).
pub proof fn law_finished_run_completes_every_file(
    states: Seq<EngineRun>,
    answers: Seq<Answer>,
    steps: Seq<Step>,
    job: JobState,
)
    requires
        is_run_trace(states, answers, steps),
        answers.len() >= 2,
        states[0].phase is NotStarted,
        states[0].file == 0,
        states[0].chunk == 0,
        !states[0].translated_in_file,
        files_keyable(states[0].files@),
        states[0].files@.len() <= usize::MAX,
        steps.last().events@.contains(ProgressEvent::Completed),
    ensures
        apply_events(job, all_events(steps)).metrics.total_text_files == states[0].files@.len(),
        apply_events(job, all_events(steps)).metrics.completed_text_files
            == states[0].files@.len(),
{
    let s0 = states[0];
    let n = answers.len() as int;
    let total = s0.files@.len();
    let done = done_files_count(s0.completed@, s0.files@);
    law_each_file_counted_once(states, answers, steps);
    assert(answer_fits(states[0].phase, answers[0]));
    let e0 = steps[0].events@;
    assert(crate::pipeline::engine::start_events(s0, e0));
    lemma_all_events_first(steps);
    let rest_steps = steps.subrange(1, n);
    let rest = all_events(rest_steps);
    lemma_apply_concat(job, e0, rest);
    lemma_rest_has_no_start(states, answers, steps, 1, n);
    assert(steps.subrange(1, n) =~= rest_steps);
    let started = spec_apply_event(job, e0[0]);
    assert(started.metrics.total_text_files == total);
    assert(started.metrics.completed_text_files == done) by {
        assert(done <= total) by {
            crate::pipeline::engine::lemma_done_count_bound_pub(s0.completed@, s0.files@);
        }
    }
    let after_start = apply_events(job, e0);
    if e0.len() == 2 {
        let e1 = e0.drop_last();
        assert(e1.drop_last() =~= Seq::<ProgressEvent>::empty());
        assert(e1.last() == e0[0]);
        assert(apply_events(job, e1.drop_last()) == job);
        assert(apply_events(job, e1) == spec_apply_event(apply_events(job, e1.drop_last()), e1.last()));
        assert(apply_events(job, e1) == started);
        assert(after_start.metrics == started.metrics);
    } else {
        assert(e0.drop_last() =~= Seq::<ProgressEvent>::empty());
        assert(apply_events(job, e0.drop_last()) == job);
        assert(e0.last() == e0[0]);
        assert(after_start == spec_apply_event(apply_events(job, e0.drop_last()), e0.last()));
        assert(after_start == started);
    }
    lemma_apply_counts_files(after_start, rest);
    lemma_all_events_finished(steps);
    lemma_finished_in_concat(e0, rest);
    lemma_finished_in_small(e0);
}

} // verus!
