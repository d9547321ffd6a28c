//! Fault-tolerant JSON repair for LLM critique replies.

use vstd::prelude::*;

use crate::agent::prompt::{CritiqueReport, TermMismatch};
use crate::error::AppError;
use crate::json::{JsonValue, parse_json, spec_member, spec_parse_json};
use crate::text::{
    chars_of, count_char, count_of, string_from_chars, strip_code_fence, strip_markdown_fence, trim,
    trim_chars,
};

verus! {

/// The pattern of a brace-delimited object with no nested braces.
pub open spec fn brace_object_pattern() -> Seq<char> {
    "\\{[^{}]*\\}"@
}

/// The position of the first brace (`{` or `}`) of `s` at or after `from`.
pub open spec fn next_brace(s: Seq<char>, from: int) -> Option<int>
    decreases s.len() - from,
{
    if from < 0 || from >= s.len() {
        None
    } else if s[from] == '{' || s[from] == '}' {
        Some(from)
    } else {
        next_brace(s, from + 1)
    }
}

/// Where the first match of `brace_object_pattern` at or after `from` lies
/// (start, end): the leftmost `{` whose next brace is a `}`, through that `}`.
pub open spec fn brace_object_from(s: Seq<char>, from: int) -> Option<(int, int)>
    decreases s.len() - from,
{
    if from < 0 || from >= s.len() {
        None
    } else if s[from] == '{' && (next_brace(s, from + 1) matches Some(j) && s[j] == '}') {
        Some((from, next_brace(s, from + 1)->0 + 1))
    } else {
        brace_object_from(s, from + 1)
    }
}

/// The text of the first match of `brace_object_pattern` in `s`.
pub open spec fn spec_brace_object(s: Seq<char>) -> Option<Seq<char>> {
    match brace_object_from(s, 0) {
        Some((i, j)) => Some(s.subrange(i, j)),
        None => None,
    }
}

/// Compiles `pattern` (the brace-object pattern) with `regex::Regex::new` and
/// returns the text of its first match in `haystack` (`Regex::find`, which
/// takes the leftmost match). Trusted: that match is the leftmost `{` whose
/// next brace is a `}`, through that `}` (`[^{}]` takes any character but a
/// brace, line breaks included).
#[verifier::external_body]
fn regex_find(pattern: &str, haystack: &str) -> (res: Option<String>)
    requires
        pattern@ == brace_object_pattern(),
    ensures
        match res {
            Some(m) => spec_brace_object(haystack@) == Some(m@),
            None => spec_brace_object(haystack@) is None,
        },
{
    regex::Regex::new(pattern).ok()?.find(haystack).map(|m| m.as_str().to_string())
}

/// The string member `key` of an object's members.
pub open spec fn str_member(members: Seq<(String, JsonValue)>, key: Seq<char>) -> Option<String> {
    match spec_member(members, key) {
        Some(JsonValue::Str(s)) => Some(s),
        _ => None,
    }
}

/// A term mismatch read from JSON the way a derived `Deserialize` reads it:
/// an object with string members `term`, `expected`, `actual` (other members
/// ignored), or an array of exactly three strings in that order.
pub open spec fn spec_term_from_json(v: JsonValue) -> Option<TermMismatch> {
    match v {
        JsonValue::Object(m) => match (
            str_member(m@, "term"@),
            str_member(m@, "expected"@),
            str_member(m@, "actual"@),
        ) {
            (Some(a), Some(b), Some(c)) => Some(TermMismatch { term: a, expected: b, actual: c }),
            _ => None,
        },
        JsonValue::Array(items) => if items@.len() == 3 {
            match (items@[0], items@[1], items@[2]) {
                (JsonValue::Str(a), JsonValue::Str(b), JsonValue::Str(c)) => Some(
                    TermMismatch { term: a, expected: b, actual: c },
                ),
                _ => None,
            }
        } else {
            None
        },
        _ => None,
    }
}

/// The string member `key` of a JSON value, where it is an object.
pub open spec fn object_str(v: JsonValue, key: Seq<char>) -> Option<String> {
    match v {
        JsonValue::Object(m) => match spec_member(m@, key) {
            Some(JsonValue::Str(s)) => Some(s),
            _ => None,
        },
        _ => None,
    }
}

/// A term mismatch read from a JSON object takes each field from the member
/// of the same name: `{"term": t, "expected": e, "actual": a}` gives term
/// `t`, expected `e` and actual `a`.
pub proof fn law_term_fields_come_from_their_members(v: JsonValue, t: String, e: String, a: String)
    requires
        object_str(v, "term"@) == Some(t),
        object_str(v, "expected"@) == Some(e),
        object_str(v, "actual"@) == Some(a),
    ensures
        spec_term_from_json(v) == Some(TermMismatch { term: t, expected: e, actual: a }),
{
}

/// A term mismatch read from a JSON array of three strings takes them in
/// order: `[t, e, a]` gives term `t`, expected `e` and actual `a`.
pub proof fn law_term_from_array_keeps_order(items: Vec<JsonValue>, t: String, e: String, a: String)
    requires
        items@ == seq![JsonValue::Str(t), JsonValue::Str(e), JsonValue::Str(a)],
    ensures
        spec_term_from_json(JsonValue::Array(items)) == Some(
            TermMismatch { term: t, expected: e, actual: a },
        ),
{
}

/// A list of such objects reads as the term mismatches in the same order,
/// each taking its fields from the same-named members.
pub proof fn law_incorrect_terms_keep_their_fields(items: Seq<JsonValue>)
    requires
        forall|i: int|
            0 <= i < items.len() ==> (#[trigger] object_str(items[i], "term"@)) is Some
                && object_str(items[i], "expected"@) is Some && object_str(items[i], "actual"@) is Some,
    ensures
        spec_terms_from_json(items) matches Some(ts) && ts.len() == items.len() && forall|i: int|
            0 <= i < items.len() ==> Some(#[trigger] ts[i].term) == object_str(items[i], "term"@)
                && Some(ts[i].expected) == object_str(items[i], "expected"@) && Some(ts[i].actual)
                == object_str(items[i], "actual"@),
    decreases items.len(),
{
    if items.len() > 0 {
        let init = items.drop_last();
        assert forall|i: int| 0 <= i < init.len() implies (#[trigger] object_str(init[i], "term"@)) is Some
            && object_str(init[i], "expected"@) is Some && object_str(init[i], "actual"@) is Some by {
            assert(init[i] == items[i]);
            assert(object_str(items[i], "term"@) is Some);
        }
        law_incorrect_terms_keep_their_fields(init);
        let last = items.last();
        assert(object_str(items[items.len() - 1], "term"@) is Some);
        law_term_fields_come_from_their_members(
            last,
            object_str(last, "term"@)->0,
            object_str(last, "expected"@)->0,
            object_str(last, "actual"@)->0,
        );
        let ts = spec_terms_from_json(items)->0;
        let ts0 = spec_terms_from_json(init)->0;
        assert forall|i: int| 0 <= i < items.len() implies Some(#[trigger] ts[i].term) == object_str(
            items[i],
            "term"@,
        ) && Some(ts[i].expected) == object_str(items[i], "expected"@) && Some(ts[i].actual)
            == object_str(items[i], "actual"@) by {
            if i < init.len() {
                assert(ts[i] == ts0[i]);
                assert(init[i] == items[i]);
                assert(Some(ts0[i].term) == object_str(init[i], "term"@));
            }
        }
    }
}

/// Every element read as a term mismatch, or `None` if one fails.
pub open spec fn spec_terms_from_json(items: Seq<JsonValue>) -> Option<Seq<TermMismatch>>
    decreases items.len(),
{
    if items.len() == 0 {
        Some(Seq::empty())
    } else {
        match (spec_terms_from_json(items.drop_last()), spec_term_from_json(items.last())) {
            (Some(ts), Some(t)) => Some(ts.push(t)),
            _ => None,
        }
    }
}

/// The parts of a critique report read from a JSON value the way a derived
/// `Deserialize` reads it: an object with a boolean `has_mismatches`, an
/// array `incorrect_terms` and a string `refined_translation`, or an array of
/// exactly those three in that order. The value holds one member per key
/// (the last of a repeated key, as `serde_json` keeps it), so a repeated key
/// counts by its last value here where a derived `Deserialize` reading the
/// text directly refuses it.
pub open spec fn spec_critique_from_json(v: JsonValue) -> Option<(bool, Seq<TermMismatch>, String)> {
    match v {
        JsonValue::Object(m) => match (
            spec_member(m@, "has_mismatches"@),
            spec_member(m@, "incorrect_terms"@),
            str_member(m@, "refined_translation"@),
        ) {
            (Some(JsonValue::Bool(b)), Some(JsonValue::Array(items)), Some(r)) => match spec_terms_from_json(items@) {
                Some(ts) => Some((b, ts, r)),
                None => None,
            },
            _ => None,
        },
        JsonValue::Array(items) => if items@.len() == 3 {
            match (items@[0], items@[1], items@[2]) {
                (JsonValue::Bool(b), JsonValue::Array(terms), JsonValue::Str(r)) => match spec_terms_from_json(terms@) {
                    Some(ts) => Some((b, ts, r)),
                    None => None,
                },
                _ => None,
            }
        } else {
            None
        },
        _ => None,
    }
}

/// A critique report read from a JSON object takes each part from the
/// member of the same name: `has_mismatches` from the boolean member,
/// `refined_translation` from the string member, and the term mismatches
/// from the `incorrect_terms` array, in order.
pub proof fn law_critique_parts_come_from_their_members(
    m: Vec<(String, JsonValue)>,
    b: bool,
    items: Vec<JsonValue>,
    r: String,
)
    requires
        spec_member(m@, "has_mismatches"@) == Some(JsonValue::Bool(b)),
        spec_member(m@, "incorrect_terms"@) == Some(JsonValue::Array(items)),
        spec_member(m@, "refined_translation"@) == Some(JsonValue::Str(r)),
        forall|i: int|
            0 <= i < items@.len() ==> (#[trigger] object_str(items@[i], "term"@)) is Some
                && object_str(items@[i], "expected"@) is Some && object_str(items@[i], "actual"@)
                is Some,
    ensures
        spec_critique_from_json(JsonValue::Object(m)) matches Some(p) && p.0 == b && p.2 == r
            && p.1.len() == items@.len() && forall|i: int|
            0 <= i < items@.len() ==> Some(#[trigger] p.1[i].term) == object_str(items@[i], "term"@)
                && Some(p.1[i].expected) == object_str(items@[i], "expected"@) && Some(
                p.1[i].actual,
            ) == object_str(items@[i], "actual"@),
{
    law_incorrect_terms_keep_their_fields(items@);
}

/// The parts of a report, for comparison with `spec_critique_from_json`.
pub open spec fn critique_parts(r: CritiqueReport) -> (bool, Seq<TermMismatch>, String) {
    (r.has_mismatches, r.incorrect_terms@, r.refined_translation)
}

/// A critique report parsed from one candidate text.
pub open spec fn spec_parse_candidate(text: Seq<char>) -> Option<(bool, Seq<TermMismatch>, String)> {
    match spec_parse_json(text) {
        Some(v) => spec_critique_from_json(v),
        None => None,
    }
}

/// `s` followed by as many `}` as it has more `{` than `}`.
pub open spec fn balance_braces_spec(s: Seq<char>) -> Seq<char> {
    let open = count_of(s, '{');
    let close = count_of(s, '}');
    if open > close {
        s + Seq::new((open - close) as nat, |i: int| '}')
    } else {
        s
    }
}

/// What healing reads from a reply: the fence-stripped, trimmed text parsed
/// as a report; failing that, its first brace-delimited object; failing
/// that, the text with missing closing braces appended.
pub open spec fn spec_heal(raw: Seq<char>) -> Option<(bool, Seq<TermMismatch>, String)> {
    let cleaned = trim(strip_code_fence(raw));
    match spec_parse_candidate(cleaned) {
        Some(r) => Some(r),
        None => match spec_brace_object(cleaned) {
            Some(m) if spec_parse_candidate(m) is Some => spec_parse_candidate(m),
            _ => spec_parse_candidate(balance_braces_spec(cleaned)),
        },
    }
}

/// The string member `key` of an object value.
fn get_str(members: &Vec<(String, JsonValue)>, key: &str) -> (res: Option<String>)
    ensures
        res == str_member(members@, key@),
{
    let mut i: usize = 0;
    assert(members@.skip(0) =~= members@);
    while i < members.len()
        invariant
            i <= members.len(),
            str_member(members@, key@) == str_member(members@.skip(i as int), key@),
        decreases members.len() - i,
    {
        assert(members@.skip(i as int).drop_first() =~= members@.skip(i + 1));
        assert(members@.skip(i as int)[0] == members@[i as int]);
        if crate::json::str_eq(members[i].0.as_str(), key) {
            return match &members[i].1 {
                JsonValue::Str(s) => Some(s.clone()),
                _ => None,
            };
        }
        i += 1;
    }
    None
}

/// The member `key` of an object value.
fn get_member<'a>(members: &'a Vec<(String, JsonValue)>, key: &str) -> (res: Option<&'a JsonValue>)
    ensures
        match res {
            Some(r) => spec_member(members@, key@) == Some(*r),
            None => spec_member(members@, key@) is None,
        },
{
    let mut i: usize = 0;
    assert(members@.skip(0) =~= members@);
    while i < members.len()
        invariant
            i <= members.len(),
            spec_member(members@, key@) == spec_member(members@.skip(i as int), key@),
        decreases members.len() - i,
    {
        assert(members@.skip(i as int).drop_first() =~= members@.skip(i + 1));
        assert(members@.skip(i as int)[0] == members@[i as int]);
        if crate::json::str_eq(members[i].0.as_str(), key) {
            return Some(&members[i].1);
        }
        i += 1;
    }
    None
}

/// Reads one term mismatch.
fn term_from_json(v: &JsonValue) -> (res: Option<TermMismatch>)
    ensures
        res == spec_term_from_json(*v),
{
    match v {
        JsonValue::Object(m) => {
            let a = get_str(m, "term");
            let b = get_str(m, "expected");
            let c = get_str(m, "actual");
            match (a, b, c) {
                (Some(a), Some(b), Some(c)) => Some(TermMismatch { term: a, expected: b, actual: c }),
                _ => None,
            }
        },
        JsonValue::Array(items) => {
            if items.len() == 3 {
                match (&items[0], &items[1], &items[2]) {
                    (JsonValue::Str(a), JsonValue::Str(b), JsonValue::Str(c)) => Some(
                        TermMismatch { term: a.clone(), expected: b.clone(), actual: c.clone() },
                    ),
                    _ => None,
                }
            } else {
                None
            }
        },
        _ => None,
    }
}

/// Reads every element as a term mismatch.
fn terms_from_json(items: &Vec<JsonValue>) -> (res: Option<Vec<TermMismatch>>)
    ensures
        match res {
            Some(ts) => spec_terms_from_json(items@) == Some(ts@),
            None => spec_terms_from_json(items@) is None,
        },
{
    let mut out: Vec<TermMismatch> = Vec::new();
    let mut i: usize = 0;
    while i < items.len()
        invariant
            i <= items.len(),
            spec_terms_from_json(items@.take(i as int)) == Some(out@),
        decreases items.len() - i,
    {
        assert(items@.take(i + 1).drop_last() =~= items@.take(i as int));
        match term_from_json(&items[i]) {
            Some(t) => {
                out.push(t);
            },
            None => {
                proof {
                    lemma_terms_failure_persists(items@, i as int);
                }
                return None;
            },
        }
        i += 1;
    }
    assert(items@.take(items.len() as int) =~= items@);
    Some(out)
}

/// Once an element fails to read, every longer prefix fails too.
proof fn lemma_terms_failure_persists(items: Seq<JsonValue>, i: int)
    requires
        0 <= i < items.len(),
        spec_term_from_json(items[i]) is None,
    ensures
        spec_terms_from_json(items) is None,
    decreases items.len() - i,
{
    if i == items.len() - 1 {
    } else {
        lemma_terms_failure_persists(items.drop_last(), i);
    }
}

/// Reads a critique report from a parsed JSON value.
pub fn critique_from_json(v: &JsonValue) -> (res: Option<CritiqueReport>)
    ensures
        match res {
            Some(r) => spec_critique_from_json(*v) == Some(critique_parts(r)),
            None => spec_critique_from_json(*v) is None,
        },
{
    match v {
        JsonValue::Object(m) => {
            let flag = get_member(m, "has_mismatches");
            let terms = get_member(m, "incorrect_terms");
            let refined = get_str(m, "refined_translation");
            match (flag, terms, refined) {
                (Some(JsonValue::Bool(b)), Some(JsonValue::Array(items)), Some(r)) => {
                    match terms_from_json(items) {
                        Some(ts) => Some(
                            CritiqueReport { has_mismatches: *b, incorrect_terms: ts, refined_translation: r },
                        ),
                        None => None,
                    }
                },
                _ => None,
            }
        },
        JsonValue::Array(items) => {
            if items.len() == 3 {
                match (&items[0], &items[1], &items[2]) {
                    (JsonValue::Bool(b), JsonValue::Array(terms), JsonValue::Str(r)) => {
                        match terms_from_json(terms) {
                            Some(ts) => Some(
                                CritiqueReport {
                                    has_mismatches: *b,
                                    incorrect_terms: ts,
                                    refined_translation: r.clone(),
                                },
                            ),
                            None => None,
                        }
                    },
                    _ => None,
                }
            } else {
                None
            }
        },
        _ => None,
    }
}

/// Parses one candidate text as a critique report.
fn parse_candidate(candidate: &str) -> (res: Option<CritiqueReport>)
    ensures
        match res {
            Some(r) => spec_parse_candidate(candidate@) == Some(critique_parts(r)),
            None => spec_parse_candidate(candidate@) is None,
        },
{
    match parse_json(candidate) {
        Some(v) => critique_from_json(&v),
        None => None,
    }
}

/// Appends one `}` for each `{` that has no matching count of `}`.
pub fn balance_braces(s: &Vec<char>) -> (res: Vec<char>)
    ensures
        res@ == balance_braces_spec(s@),
{
    let open = count_char(s, '{');
    let close = count_char(s, '}');
    let mut out = crate::text::slice_chars(s, 0, s.len());
    assert(out@ =~= s@);
    if open > close {
        let k = open - close;
        let mut j: usize = 0;
        while j < k
            invariant
                j <= k == open - close,
                open == count_of(s@, '{'),
                close == count_of(s@, '}'),
                out@ == s@ + Seq::new(j as nat, |i: int| '}'),
            decreases k - j,
        {
            out.push('}');
            j += 1;
            assert(out@ =~= s@ + Seq::new(j as nat, |i: int| '}'));
        }
    }
    out
}

/// Heals a model reply into a critique report: strips a Markdown fence and
/// whitespace, then tries the whole text, its first brace-delimited object,
/// and the text with missing closing braces appended, in that order.
pub fn heal_and_parse_json(raw: &str) -> (res: Result<CritiqueReport, AppError>)
    ensures
        match res {
            Ok(r) => spec_heal(raw@) == Some(critique_parts(r)),
            Err(e) => spec_heal(raw@) is None && e is Json,
        },
{
    let stripped = strip_markdown_fence(raw);
    let cleaned = trim_chars(&stripped);
    let cleaned_text = string_from_chars(cleaned.as_slice());
    if let Some(r) = parse_candidate(cleaned_text.as_str()) {
        return Ok(r);
    }
    if let Some(m) = regex_find("\\{[^{}]*\\}", cleaned_text.as_str()) {
        if let Some(r) = parse_candidate(m.as_str()) {
            return Ok(r);
        }
    }
    let fixed = balance_braces(&cleaned);
    let fixed_text = string_from_chars(fixed.as_slice());
    match parse_candidate(fixed_text.as_str()) {
        Some(r) => Ok(r),
        None => Err(AppError::Json(String::from_str("reply is not a JSON critique report"))),
    }
}

} // verus!
