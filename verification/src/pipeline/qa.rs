//! Quality checks on a rendered EPUB: leftover JSON wrappers in the text
//! files, and a sample of files that must not be empty.

use vstd::prelude::*;

use crate::pipeline::parser::{is_epub_text_name, is_text_name};
use crate::text::{chars_of, decimal, push_decimal, is_blank, trim, find_char_from, find_chars_from, find_elem_from, find_from, lemma_find_elem_from, lemma_find_from, occurs_at, contains_seq, slice_chars, string_from_chars};

verus! {

/// JSON wrapper fragments that must never reach a rendered book.
pub const LEAKAGE_PATTERNS: [&'static str; 4] = [
    "{\"translation\"",
    "{\"role\"",
    "refined_translation",
    "incorrect_terms",
];

/// The fragments of `LEAKAGE_PATTERNS`, in order, as character sequences.
pub open spec fn leakage_patterns() -> Seq<Seq<char>> {
    seq!["{\"translation\""@, "{\"role\""@, "refined_translation"@, "incorrect_terms"@]
}

/// The positions sampled among `count` files: the first, the middle
/// (`count / 2`) and the last, ascending and without repeats.
pub open spec fn spec_sample_indices(count: nat) -> Seq<usize> {
    if count == 0 {
        seq![]
    } else if count == 1 {
        seq![0usize]
    } else if count == 2 {
        seq![0usize, 1usize]
    } else {
        seq![0usize, (count / 2) as usize, (count - 1) as usize]
    }
}

/// Positions of the first, middle and last of `count` files, ascending and
/// without repeats.
pub fn sample_indices(count: usize) -> (res: Vec<usize>)
    ensures
        res@ == spec_sample_indices(count as nat),
{
    if count == 0 {
        return Vec::new();
    }
    let first: usize = 0;
    let mid: usize = count / 2;
    let last: usize = count - 1;
    let mut indices: Vec<usize> = Vec::new();
    indices.push(first);
    if mid != first {
        indices.push(mid);
    }
    if last != mid {
        indices.push(last);
    }
    proof {
        if count == 1 {
            assert(indices@ =~= seq![0usize]);
        } else if count == 2 {
            assert(indices@ =~= seq![0usize, 1usize]);
        } else {
            assert(indices@ =~= seq![0usize, (count / 2) as usize, (count - 1) as usize]);
        }
    }
    indices
}

/// One line of a text file that holds a leakage fragment.
#[derive(Debug, Clone)]
pub struct LeakageHit {
    pub file_name: String,
    pub pattern: String,
    pub line_number: usize,
    pub line: String,
}

/// The outcome of the checks on one book.
#[derive(Debug)]
pub struct QaReport {
    pub archive_ok: bool,
    pub leakage_hits: Vec<LeakageHit>,
    pub sample_failures: Vec<String>,
    pub text_file_count: usize,
}

impl Default for QaReport {
    fn default() -> (res: Self)
        ensures
            !res.archive_ok,
            res.leakage_hits@.len() == 0,
            res.sample_failures@.len() == 0,
            res.text_file_count == 0,
    {
        QaReport {
            archive_ok: false,
            leakage_hits: Vec::new(),
            sample_failures: Vec::new(),
            text_file_count: 0,
        }
    }
}

impl QaReport {
    /// The archive reads back whole, no fragment leaked and no sample failed.
    pub fn passed(&self) -> (res: bool)
        ensures
            res == (self.archive_ok && self.leakage_hits@.len() == 0
                && self.sample_failures@.len() == 0),
    {
        self.archive_ok && self.leakage_hits.len() == 0 && self.sample_failures.len() == 0
    }
}


/// The text `format!("{:?}", s)` makes of a string: Rust's debug quoting.
pub uninterp spec fn spec_debug_quoted(s: Seq<char>) -> Seq<char>;

/// Quotes a string as `{:?}` shows it (`format!`). Trusted: the result is
/// the named quoting; nothing more is claimed of it.
#[verifier::external_body]
fn debug_quoted(s: &str) -> (res: String)
    ensures
        res@ == spec_debug_quoted(s@),
{
    format!("{:?}", s)
}

/// The summary line of one leakage hit.
pub open spec fn hit_line(h: LeakageHit) -> Seq<char> {
    "[FAIL] leakage in "@ + h.file_name@ + ":"@ + decimal(h.line_number as nat) + " pattern="@
        + spec_debug_quoted(h.pattern@) + " line="@ + spec_debug_quoted(h.line@)
}

/// The summary line of one failed sample.
pub open spec fn sample_line(f: String) -> Seq<char> {
    "[FAIL] sample check: "@ + f@
}

/// The line that reports the leakage check: it passes when no fragment leaked.
pub open spec fn leakage_check_line(hits: nat) -> Seq<char> {
    if hits == 0 {
        "[PASS] JSON leakage checks: leakage hits = 0"@
    } else {
        "[FAIL] JSON leakage checks: leakage hits = "@ + decimal(hits)
    }
}

/// The lines a report is summarised in: the archive check, the leakage
/// check, the counts, one line per leakage hit and per failed sample, then
/// the verdict.
pub open spec fn summary_of(r: QaReport) -> Seq<Seq<char>> {
    seq![
        if r.archive_ok {
            "[PASS] archive integrity: ok"@
        } else {
            "[FAIL] archive integrity: corrupt or unreadable"@
        },
        leakage_check_line(r.leakage_hits@.len()),
        "[INFO] text files: "@ + decimal(r.text_file_count as nat) + "  leakage hits: "@ + decimal(
            r.leakage_hits@.len(),
        ) + "  sample failures: "@ + decimal(r.sample_failures@.len()),
    ] + r.leakage_hits@.map_values(|h: LeakageHit| hit_line(h)) + r.sample_failures@.map_values(
        |f: String| sample_line(f),
    ) + seq![
        if r.archive_ok && r.leakage_hits@.len() == 0 && r.sample_failures@.len() == 0 {
            "[PASS] all QA checks passed"@
        } else {
            "[FAIL] QA checks failed"@
        },
    ]
}

/// A string with the decimal notation of `n` appended.
fn with_decimal(s: String, n: usize) -> (res: String)
    ensures
        res@ == s@ + decimal(n as nat),
{
    let mut d: Vec<char> = Vec::new();
    push_decimal(n, &mut d);
    assert(d@ =~= decimal(n as nat));
    s.concat(string_from_chars(d.as_slice()).as_str())
}

impl QaReport {
    /// The lines the report is printed as (see `summary_of`).
    pub fn summary_lines(&self) -> (res: Vec<String>)
        ensures
            res@.map_values(|l: String| l@) == summary_of(*self),
    {
        let mut out: Vec<String> = Vec::new();
        if self.archive_ok {
            out.push(String::from_str("[PASS] archive integrity: ok"));
        } else {
            out.push(String::from_str("[FAIL] archive integrity: corrupt or unreadable"));
        }
        if self.leakage_hits.len() == 0 {
            out.push(String::from_str("[PASS] JSON leakage checks: leakage hits = 0"));
        } else {
            out.push(
                with_decimal(
                    String::from_str("[FAIL] JSON leakage checks: leakage hits = "),
                    self.leakage_hits.len(),
                ),
            );
        }
        let counts = with_decimal(
            with_decimal(
                with_decimal(String::from_str("[INFO] text files: "), self.text_file_count).concat(
                    "  leakage hits: ",
                ),
                self.leakage_hits.len(),
            ).concat("  sample failures: "),
            self.sample_failures.len(),
        );
        out.push(counts);
        let ghost head = out@.map_values(|l: String| l@);
        let mut i: usize = 0;
        while i < self.leakage_hits.len()
            invariant
                i <= self.leakage_hits@.len(),
                out@.map_values(|l: String| l@) == head + self.leakage_hits@.take(
                    i as int,
                ).map_values(|h: LeakageHit| hit_line(h)),
            decreases self.leakage_hits.len() - i,
        {
            let h = &self.leakage_hits[i];
            let line = debug_quoted(h.line.as_str());
            let text = with_decimal(
                String::from_str("[FAIL] leakage in ").concat(h.file_name.as_str()).concat(":"),
                h.line_number,
            ).concat(" pattern=").concat(debug_quoted(h.pattern.as_str()).as_str()).concat(
                " line=",
            ).concat(line.as_str());
            let ghost prev = out@.map_values(|l: String| l@);
            out.push(text);
            assert(out@.map_values(|l: String| l@) =~= prev.push(text@));
            assert(self.leakage_hits@.take(i + 1).map_values(|h: LeakageHit| hit_line(h))
                =~= self.leakage_hits@.take(i as int).map_values(|h: LeakageHit| hit_line(h)).push(
                hit_line(self.leakage_hits@[i as int]),
            ));
            i += 1;
        }
        assert(self.leakage_hits@.take(self.leakage_hits@.len() as int) =~= self.leakage_hits@);
        let ghost mid = out@.map_values(|l: String| l@);
        let mut j: usize = 0;
        while j < self.sample_failures.len()
            invariant
                j <= self.sample_failures@.len(),
                out@.map_values(|l: String| l@) == mid + self.sample_failures@.take(
                    j as int,
                ).map_values(|f: String| sample_line(f)),
            decreases self.sample_failures.len() - j,
        {
            let text = String::from_str("[FAIL] sample check: ").concat(
                self.sample_failures[j].as_str(),
            );
            let ghost prev = out@.map_values(|l: String| l@);
            out.push(text);
            assert(out@.map_values(|l: String| l@) =~= prev.push(text@));
            assert(self.sample_failures@.take(j + 1).map_values(|f: String| sample_line(f))
                =~= self.sample_failures@.take(j as int).map_values(|f: String| sample_line(f)).push(
                sample_line(self.sample_failures@[j as int]),
            ));
            j += 1;
        }
        assert(self.sample_failures@.take(self.sample_failures@.len() as int)
            =~= self.sample_failures@);
        let ghost before = out@.map_values(|l: String| l@);
        if self.passed() {
            out.push(String::from_str("[PASS] all QA checks passed"));
        } else {
            out.push(String::from_str("[FAIL] QA checks failed"));
        }
        assert(out@.map_values(|l: String| l@) =~= before.push(out@.last()@));
        assert(out@.map_values(|l: String| l@) =~= summary_of(*self));
        out
    }
}

/// The pattern at position `k` of `LEAKAGE_PATTERNS`.
fn leakage_pattern(k: usize) -> (res: &'static str)
    requires
        k < 4,
    ensures
        res@ == leakage_patterns()[k as int],
{
    LEAKAGE_PATTERNS[k]
}


/// A line with one carriage return removed from its end, if it has one.
pub open spec fn strip_cr(l: Seq<char>) -> Seq<char> {
    if l.len() > 0 && l.last() == '\r' {
        l.drop_last()
    } else {
        l
    }
}

/// The lines of `s` from position `start` on, as `str::lines` gives them:
/// split at `\n`, a `\r` just before a `\n` dropped, and no empty line
/// after a final `\n`.
pub open spec fn lines_from(s: Seq<char>, start: int) -> Seq<Seq<char>>
    decreases s.len() - start,
{
    if start < 0 || start >= s.len() {
        seq![]
    } else {
        match find_elem_from(s, '\n', start) {
            Some(i) => {
                proof {
                    lemma_find_elem_from(s, '\n', start);
                }
                seq![strip_cr(s.subrange(start, i))] + lines_from(s, i + 1)
            },
            None => seq![s.subrange(start, s.len() as int)],
        }
    }
}

/// The lines of `s`, as `str::lines` gives them.
pub open spec fn spec_lines(s: Seq<char>) -> Seq<Seq<char>> {
    lines_from(s, 0)
}

/// The lines of `s` (see `spec_lines`).
pub fn split_lines(s: &Vec<char>) -> (res: Vec<Vec<char>>)
    ensures
        res@.map_values(|l: Vec<char>| l@) == spec_lines(s@),
{
    let mut out: Vec<Vec<char>> = Vec::new();
    let mut start: usize = 0;
    while start < s.len()
        invariant
            start <= s.len(),
            out@.map_values(|l: Vec<char>| l@) + lines_from(s@, start as int) == spec_lines(s@),
        decreases s.len() - start,
    {
        let ghost before = out@.map_values(|l: Vec<char>| l@);
        match find_char_from(s, '\n', start) {
            Some(i) => {
                proof {
                    lemma_find_elem_from(s@, '\n', start as int);
                }
                let mut seg = slice_chars(s, start, i);
                if seg.len() > 0 && seg[seg.len() - 1] == '\r' {
                    seg.pop();
                }
                assert(seg@ == strip_cr(s@.subrange(start as int, i as int)));
                out.push(seg);
                assert(out@.map_values(|l: Vec<char>| l@) =~= before.push(
                    strip_cr(s@.subrange(start as int, i as int)),
                ));
                start = i + 1;
            },
            None => {
                let seg = slice_chars(s, start, s.len());
                out.push(seg);
                assert(out@.map_values(|l: Vec<char>| l@) =~= before.push(
                    s@.subrange(start as int, s@.len() as int),
                ));
                start = s.len();
            },
        }
    }
    assert(out@.map_values(|l: Vec<char>| l@) + lines_from(s@, start as int) =~= out@.map_values(
        |l: Vec<char>| l@,
    ));
    out
}


/// `p` occurs somewhere in `s`.
pub fn contains_chars(s: &Vec<char>, p: &Vec<char>) -> (res: bool)
    ensures
        res == contains_seq(s@, p@),
{
    proof {
        lemma_find_from(s@, p@, 0);
    }
    match find_chars_from(s, p, 0) {
        Some(_) => true,
        None => {
            assert forall|j: int| !occurs_at(s@, j, p@) by {
                if j >= 0 {
                }
            }
            false
        },
    }
}

/// What a report says of one hit: file, fragment, line number, line text.
pub open spec fn hit_view(h: LeakageHit) -> (Seq<char>, Seq<char>, int, Seq<char>) {
    (h.file_name@, h.pattern@, h.line_number as int, h.line@)
}

/// The first 120 characters of a line (all of it when shorter).
pub open spec fn line_excerpt(line: Seq<char>) -> Seq<char> {
    if line.len() <= 120 {
        line
    } else {
        line.subrange(0, 120)
    }
}

/// The hits of one line against `pats`, in the order of `pats`.
pub open spec fn pattern_hits(
    file: Seq<char>,
    line: Seq<char>,
    number: int,
    pats: Seq<Seq<char>>,
) -> Seq<(Seq<char>, Seq<char>, int, Seq<char>)>
    decreases pats.len(),
{
    if pats.len() == 0 {
        seq![]
    } else {
        let rest = pattern_hits(file, line, number, pats.drop_last());
        if contains_seq(line, pats.last()) {
            rest.push((file, pats.last(), number, line_excerpt(line)))
        } else {
            rest
        }
    }
}

/// The hits of a file's lines, line by line, each against every fragment of
/// `LEAKAGE_PATTERNS` in order; lines are numbered from 1.
pub open spec fn scan_lines(file: Seq<char>, lines: Seq<Seq<char>>) -> Seq<
    (Seq<char>, Seq<char>, int, Seq<char>),
>
    decreases lines.len(),
{
    if lines.len() == 0 {
        seq![]
    } else {
        scan_lines(file, lines.drop_last()) + pattern_hits(
            file,
            lines.last(),
            lines.len() as int,
            leakage_patterns(),
        )
    }
}

/// The leakage hits in the text of one file (see `scan_lines`).
pub fn scan_leakage(file_name: &str, content: &str) -> (res: Vec<LeakageHit>)
    ensures
        res@.map_values(|h: LeakageHit| hit_view(h)) == scan_lines(file_name@, spec_lines(content@)),
{
    let chars = chars_of(content);
    let lines = split_lines(&chars);
    let ghost lv = lines@.map_values(|l: Vec<char>| l@);
    let mut hits: Vec<LeakageHit> = Vec::new();
    let mut li: usize = 0;
    while li < lines.len()
        invariant
            li <= lines@.len(),
            lv == lines@.map_values(|l: Vec<char>| l@),
            hits@.map_values(|h: LeakageHit| hit_view(h)) == scan_lines(
                file_name@,
                lv.take(li as int),
            ),
        decreases lines.len() - li,
    {
        let line = &lines[li];
        let number: usize = li + 1;
        let ghost base = scan_lines(file_name@, lv.take(li as int));
        let mut k: usize = 0;
        while k < 4
            invariant
                k <= 4,
                li < lines@.len(),
                number == li + 1,
                *line == lines@[li as int],
                hits@.map_values(|h: LeakageHit| hit_view(h)) == base + pattern_hits(
                    file_name@,
                    line@,
                    number as int,
                    leakage_patterns().take(k as int),
                ),
            decreases 4 - k,
        {
            let pat = leakage_pattern(k);
            let p = chars_of(pat);
            let ghost prev = hits@.map_values(|h: LeakageHit| hit_view(h));
            assert(leakage_patterns().take(k + 1).drop_last() =~= leakage_patterns().take(k as int));
            if contains_chars(line, &p) {
                let cut: usize = if line.len() <= 120 {
                    line.len()
                } else {
                    120
                };
                let excerpt = slice_chars(line, 0, cut);
                assert(excerpt@ =~= line_excerpt(line@));
                let hit = LeakageHit {
                    file_name: String::from_str(file_name),
                    pattern: String::from_str(pat),
                    line_number: number,
                    line: string_from_chars(excerpt.as_slice()),
                };
                hits.push(hit);
                assert(hits@.map_values(|h: LeakageHit| hit_view(h)) =~= prev.push(hit_view(hit)));
            }
            k += 1;
        }
        assert(leakage_patterns().take(4) =~= leakage_patterns());
        assert(lv.take(li + 1).drop_last() =~= lv.take(li as int));
        li += 1;
    }
    assert(lv.take(lines@.len() as int) =~= lv);
    hits
}


/// What `str::to_lowercase` gives for a string: its characters mapped to
/// their Unicode lowercase forms.
pub uninterp spec fn spec_to_lowercase(s: Seq<char>) -> Seq<char>;

/// Calls `str::to_lowercase`; the result is named, not described.
#[verifier::external_body]
fn to_lowercase(s: &str) -> (res: String)
    ensures
        res@ == spec_to_lowercase(s@),
{
    s.to_lowercase()
}

/// A zip entry name is that of an HTML text file, compared without case.
pub fn is_text_entry(name: &str) -> (res: bool)
    ensures
        res == is_text_name(spec_to_lowercase(name@)),
{
    let lower = to_lowercase(name);
    is_epub_text_name(lower.as_str())
}

/// The names among `names` that are HTML text files, in order.
pub open spec fn text_names(names: Seq<Seq<char>>) -> Seq<Seq<char>>
    decreases names.len(),
{
    if names.len() == 0 {
        seq![]
    } else {
        let rest = text_names(names.drop_last());
        if is_text_name(spec_to_lowercase(names.last())) {
            rest.push(names.last())
        } else {
            rest
        }
    }
}

/// Keeps the names of HTML text files, in the archive's order.
pub fn select_text_files(names: &Vec<String>) -> (res: Vec<String>)
    ensures
        res@.map_values(|n: String| n@) == text_names(names@.map_values(|n: String| n@)),
{
    let ghost nv = names@.map_values(|n: String| n@);
    let mut out: Vec<String> = Vec::new();
    let mut i: usize = 0;
    while i < names.len()
        invariant
            i <= names@.len(),
            nv == names@.map_values(|n: String| n@),
            out@.map_values(|n: String| n@) == text_names(nv.take(i as int)),
        decreases names.len() - i,
    {
        let ghost prev = out@.map_values(|n: String| n@);
        assert(nv.take(i + 1).drop_last() =~= nv.take(i as int));
        if is_text_entry(names[i].as_str()) {
            out.push(names[i].clone());
            assert(out@.map_values(|n: String| n@) =~= prev.push(nv[i as int]));
        }
        i += 1;
    }
    assert(nv.take(names@.len() as int) =~= nv);
    out
}


/// The hits of the first `n` text files, file by file; a file that could not
/// be read has none.
pub open spec fn files_hits(
    names: Seq<Seq<char>>,
    contents: Seq<Result<String, String>>,
    n: int,
) -> Seq<(Seq<char>, Seq<char>, int, Seq<char>)>
    decreases n,
{
    if n <= 0 {
        seq![]
    } else {
        files_hits(names, contents, n - 1) + match contents[n - 1] {
            Ok(c) => scan_lines(names[n - 1], spec_lines(c@)),
            Err(_) => seq![],
        }
    }
}

/// What the check of one sampled file reports: nothing when it holds more
/// than whitespace, one message when it is blank or could not be read.
pub open spec fn sample_failure(name: Seq<char>, content: Result<String, String>) -> Seq<Seq<char>> {
    match content {
        Ok(c) => if trim(c@).len() == 0 {
            seq![name + ": sampled file is empty"@]
        } else {
            seq![]
        },
        Err(e) => seq![name + ": read error: "@ + e@],
    }
}

/// The messages of the sampled files `idx`, in the order of `idx`.
pub open spec fn sample_failures_of(
    names: Seq<Seq<char>>,
    contents: Seq<Result<String, String>>,
    idx: Seq<usize>,
) -> Seq<Seq<char>>
    decreases idx.len(),
{
    if idx.len() == 0 {
        seq![]
    } else {
        sample_failures_of(names, contents, idx.drop_last()) + sample_failure(
            names[idx.last() as int],
            contents[idx.last() as int],
        )
    }
}

/// The report on a book from what was read of it: whether the archive read
/// back whole, the names of its text files in archive order, and for each the
/// text read (or the message of the read error). Every readable text file is
/// scanned for leakage; the first, middle and last text files are sampled.
pub fn assemble_qa_report(
    archive_ok: bool,
    text_files: &Vec<String>,
    contents: &Vec<Result<String, String>>,
) -> (res: QaReport)
    requires
        text_files@.len() == contents@.len(),
    ensures
        res.archive_ok == archive_ok,
        res.text_file_count == text_files@.len(),
        res.leakage_hits@.map_values(|h: LeakageHit| hit_view(h)) == files_hits(
            text_files@.map_values(|n: String| n@),
            contents@,
            text_files@.len() as int,
        ),
        res.sample_failures@.map_values(|m: String| m@) == sample_failures_of(
            text_files@.map_values(|n: String| n@),
            contents@,
            spec_sample_indices(text_files@.len() as nat),
        ),
{
    let ghost names = text_files@.map_values(|n: String| n@);
    let mut hits: Vec<LeakageHit> = Vec::new();
    let mut i: usize = 0;
    while i < text_files.len()
        invariant
            i <= text_files@.len(),
            text_files@.len() == contents@.len(),
            names == text_files@.map_values(|n: String| n@),
            hits@.map_values(|h: LeakageHit| hit_view(h)) == files_hits(names, contents@, i as int),
        decreases text_files.len() - i,
    {
        match &contents[i] {
            Ok(c) => {
                let mut found = scan_leakage(text_files[i].as_str(), c.as_str());
                let ghost prev = hits@.map_values(|h: LeakageHit| hit_view(h));
                let ghost add = found@.map_values(|h: LeakageHit| hit_view(h));
                hits.append(&mut found);
                assert(hits@.map_values(|h: LeakageHit| hit_view(h)) =~= prev + add);
            },
            Err(_) => {
                assert(files_hits(names, contents@, i + 1) =~= files_hits(names, contents@, i as int));
            },
        }
        i += 1;
    }
    let idx = sample_indices(text_files.len());
    let mut failures: Vec<String> = Vec::new();
    let mut j: usize = 0;
    while j < idx.len()
        invariant
            j <= idx@.len(),
            idx@ == spec_sample_indices(text_files@.len() as nat),
            text_files@.len() == contents@.len(),
            names == text_files@.map_values(|n: String| n@),
            failures@.map_values(|m: String| m@) == sample_failures_of(
                names,
                contents@,
                idx@.take(j as int),
            ),
        decreases idx.len() - j,
    {
        let k = idx[j];
        assert(k < text_files@.len());
        let ghost prev = failures@.map_values(|m: String| m@);
        assert(idx@.take(j + 1).drop_last() =~= idx@.take(j as int));
        let name = text_files[k].as_str();
        match &contents[k] {
            Ok(c) => {
                let cv = chars_of(c.as_str());
                if is_blank(&cv) {
                    let msg = String::from_str(name).concat(": sampled file is empty");
                    failures.push(msg);
                    assert(failures@.map_values(|m: String| m@) =~= prev.push(msg@));
                } else {
                    assert(failures@.map_values(|m: String| m@) =~= prev);
                }
            },
            Err(e) => {
                let msg = String::from_str(name).concat(": read error: ").concat(e.as_str());
                failures.push(msg);
                assert(failures@.map_values(|m: String| m@) =~= prev.push(msg@));
            },
        }
        j += 1;
    }
    assert(idx@.take(idx@.len() as int) =~= idx@);
    QaReport {
        archive_ok,
        leakage_hits: hits,
        sample_failures: failures,
        text_file_count: text_files.len(),
    }
}

} // verus!
