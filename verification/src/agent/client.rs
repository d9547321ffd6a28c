//! Reading translations out of OpenAI-compatible replies.

use vstd::prelude::*;

use crate::agent::json_healer::{critique_parts, heal_and_parse_json, spec_heal};
use crate::agent::prompt::CritiqueReport;
use crate::error::AppError;
use crate::pipeline::progress::{TokenUsage, spec_usage};
use crate::json::{JsonValue, parse_json, spec_get, spec_get_index, spec_parse_json, str_eq};
use crate::text::{
    chars_occur_at, chars_of, ends_with, law_code_fence_is_removed, slice_chars, starts_with, string_from_chars,
    strip_code_fence, strip_markdown_fence, trim, trim_bounds, trim_chars, trim_start,
};

verus! {

/// Parses a critique reply (see `heal_and_parse_json`).
pub fn parse_critique(raw: &str) -> (res: Result<CritiqueReport, AppError>)
    ensures
        match res {
            Ok(r) => spec_heal(raw@) == Some(critique_parts(r)),
            Err(e) => spec_heal(raw@) is None && e is Json,
        },
{
    heal_and_parse_json(raw)
}

/// The UTF-8 length of a string, as `String::len` reports it.
pub open spec fn byte_len(s: String) -> int {
    (vstd::utf8::encode_utf8(s@).len() as usize) as int
}

/// How a member name ranks as a place for the translated text: 0 for the
/// keys that name it, 1 for generic text keys, 2 for any other key, and 4
/// for metadata keys that never hold it.
pub open spec fn key_rank(key: Seq<char>) -> nat {
    if key == "refined_translation"@ || key == "translation"@ || key == "translated_text"@ {
        0
    } else if key == "message"@ || key == "content"@ || key == "text"@ || key == "result"@ {
        1
    } else if key == "role"@ || key == "status"@ || key == "ai_persona"@ || key
        == "intent_detected"@ {
        4
    } else {
        2
    }
}

/// The first member whose value is a string under a key of rank 0.
pub open spec fn spec_direct(members: Seq<(String, JsonValue)>) -> Option<String>
    decreases members.len(),
{
    if members.len() == 0 {
        None
    } else {
        match members[0].1 {
            JsonValue::Str(s) if key_rank(members[0].0@) == 0 => Some(s),
            _ => spec_direct(members.drop_first()),
        }
    }
}

/// Candidate `a` comes before candidate `b`: a lower rank, or the same rank
/// and more UTF-8 bytes.
pub open spec fn better(a: (nat, String), b: (nat, String)) -> bool {
    a.0 < b.0 || (a.0 == b.0 && byte_len(a.1) > byte_len(b.1))
}

/// The earliest of the best fallback candidates.
pub open spec fn spec_best(f: Seq<(nat, String)>) -> Option<(nat, String)>
    decreases f.len(),
{
    if f.len() == 0 {
        None
    } else {
        match spec_best(f.drop_last()) {
            None => Some(f.last()),
            Some(b) => if better(f.last(), b) {
                Some(f.last())
            } else {
                Some(b)
            },
        }
    }
}

/// The fallback candidates of an object's members, in member order: string
/// values under rank 1 or 2 keys with that rank, and text found inside
/// non-string values with rank 3.
pub open spec fn spec_fallbacks(members: Seq<(String, JsonValue)>) -> Seq<(nat, String)>
    decreases members, 0int,
{
    if members.len() == 0 {
        Seq::empty()
    } else {
        let rest = spec_fallbacks(members.drop_last());
        let (k, v) = members.last();
        match v {
            JsonValue::Str(s) => if key_rank(k@) == 1 || key_rank(k@) == 2 {
                rest.push((key_rank(k@), s))
            } else {
                rest
            },
            _ => match spec_nested(v) {
                Some(c) => rest.push((3, c)),
                None => rest,
            },
        }
    }
}

/// The translated text picked from an object's members.
pub open spec fn spec_pick(members: Seq<(String, JsonValue)>) -> Option<String>
    decreases members, 1int,
{
    match spec_direct(members) {
        Some(s) => Some(s),
        None => match spec_best(spec_fallbacks(members)) {
            Some(b) => Some(b.1),
            None => None,
        },
    }
}

/// Text found inside a value: a string itself, the first text found in an
/// array's elements, or the text picked from an object.
pub open spec fn spec_nested(v: JsonValue) -> Option<String>
    decreases v, 0int,
{
    match v {
        JsonValue::Str(s) => Some(s),
        JsonValue::Array(items) => spec_first_nested(items@),
        JsonValue::Object(m) => spec_pick(m@),
        _ => None,
    }
}

/// The first text found in a sequence of values.
pub open spec fn spec_first_nested(items: Seq<JsonValue>) -> Option<String>
    decreases items, 0int,
{
    if items.len() == 0 {
        None
    } else {
        match spec_nested(items[0]) {
            Some(c) => Some(c),
            None => spec_first_nested(items.drop_first()),
        }
    }
}

/// The rank of a member name (see `key_rank`).
fn key_rank_of(key: &str) -> (res: u8)
    ensures
        res as nat == key_rank(key@),
{
    if str_eq(key, "refined_translation") || str_eq(key, "translation") || str_eq(
        key,
        "translated_text",
    ) {
        0
    } else if str_eq(key, "message") || str_eq(key, "content") || str_eq(key, "text") || str_eq(
        key,
        "result",
    ) {
        1
    } else if str_eq(key, "role") || str_eq(key, "status") || str_eq(key, "ai_persona")
        || str_eq(key, "intent_detected") {
        4
    } else {
        2
    }
}

/// The UTF-8 length of a string.
fn byte_len_of(s: &String) -> (res: usize)
    ensures
        res as int == byte_len(*s),
{
    s.as_str().len()
}

/// Picks the translated text from an object's members: the first string
/// under a translation key; otherwise, among the other candidates, the lowest
/// rank, then the longest in bytes, then the earliest.
pub fn pick_translation_candidate(members: &Vec<(String, JsonValue)>) -> (res: Option<String>)
    ensures
        res == spec_pick(members@),
    decreases members@, 1int,
{
    let mut best: Option<(u8, String)> = None;
    let mut i: usize = 0;
    assert(members@.skip(0) =~= members@);
    while i < members.len()
        invariant
            i <= members.len(),
            spec_direct(members@) == spec_direct(members@.skip(i as int)),
            match best {
                None => spec_best(spec_fallbacks(members@.take(i as int))) is None,
                Some(b) => spec_best(spec_fallbacks(members@.take(i as int))) == Some(
                    (b.0 as nat, b.1),
                ),
            },
        decreases members.len() - i,
    {
        assert(members@.skip(i as int).drop_first() =~= members@.skip(i + 1));
        assert(members@.skip(i as int)[0] == members@[i as int]);
        assert(members@.take(i + 1).drop_last() =~= members@.take(i as int));
        assert(members@.take(i + 1).last() == members@[i as int]);
        let key = members[i].0.as_str();
        let candidate: Option<(u8, String)> = match &members[i].1 {
            JsonValue::Str(s) => {
                let r = key_rank_of(key);
                if r == 0 {
                    return Some(s.clone());
                }
                if r == 1 || r == 2 {
                    Some((r, s.clone()))
                } else {
                    None
                }
            },
            other => {
                match pick_translation_candidate_nested(other) {
                    Some(c) => Some((3u8, c)),
                    None => None,
                }
            },
        };
        assert(spec_fallbacks(members@.take(i + 1)) == match candidate {
            Some(c) => spec_fallbacks(members@.take(i as int)).push((c.0 as nat, c.1)),
            None => spec_fallbacks(members@.take(i as int)),
        });
        let ghost prev = spec_fallbacks(members@.take(i as int));
        match candidate {
            Some(c) => {
                let replace = match &best {
                    None => true,
                    Some(b) => c.0 < b.0 || (c.0 == b.0 && byte_len_of(&c.1) > byte_len_of(&b.1)),
                };
                proof {
                    let ext = prev.push((c.0 as nat, c.1));
                    assert(ext.drop_last() =~= prev);
                    assert(ext.last() == (c.0 as nat, c.1));
                    if best is None {
                        assert(spec_best(ext) == Some((c.0 as nat, c.1)));
                    } else {
                        let b = best->0;
                        assert(spec_best(prev) == Some((b.0 as nat, b.1)));
                        assert(replace == better((c.0 as nat, c.1), (b.0 as nat, b.1)));
                    }
                }
                if replace {
                    best = Some(c);
                }
            },
            None => {
                assert(spec_fallbacks(members@.take(i + 1)) == prev);
            },
        }
        i += 1;
    }
    assert(members@.take(members.len() as int) =~= members@);
    match best {
        Some(b) => Some(b.1),
        None => None,
    }
}

/// Text found inside a value (see `spec_nested`).
pub fn pick_translation_candidate_nested(v: &JsonValue) -> (res: Option<String>)
    ensures
        res == spec_nested(*v),
    decreases *v, 0int,
{
    match v {
        JsonValue::Str(s) => Some(s.clone()),
        JsonValue::Array(items) => {
            let mut i: usize = 0;
            assert(items@.skip(0) =~= items@);
            while i < items.len()
                invariant
                    i <= items.len(),
                    *v == JsonValue::Array(*items),
                    spec_nested(*v) == spec_first_nested(items@.skip(i as int)),
                decreases items.len() - i,
            {
                assert(items@.skip(i as int).drop_first() =~= items@.skip(i + 1));
                assert(items@.skip(i as int)[0] == items@[i as int]);
                assert(decreases_to!(*v => *items));
                assert(decreases_to!(*items => items@));
                assert(decreases_to!(items@ => items@[i as int]));
                assert(decreases_to!(*v => items@[i as int]));
                if let Some(c) = pick_translation_candidate_nested(&items[i]) {
                    return Some(c);
                }
                i += 1;
            }
            None
        },
        JsonValue::Object(m) => pick_translation_candidate(m),
        _ => None,
    }
}

/// A value written between straight or curly double quotes, without them.
pub open spec fn spec_quoted_value(r: Seq<char>) -> Option<Seq<char>> {
    if r.len() >= 2 && r[0] == '"' && r.last() == '"' {
        Some(r.subrange(1, r.len() - 1))
    } else if r.len() >= 2 && r[0] == '\u{201c}' && r.last() == '\u{201d}' {
        Some(r.subrange(1, r.len() - 1))
    } else {
        None
    }
}

/// The value of a `"key": "value"` member written without escaping, read
/// from the text of one member.
pub open spec fn spec_malformed_field(field: Seq<char>, key: Seq<char>) -> Option<Seq<char>> {
    if field.len() >= 1 && field[0] == '"' && starts_with(field.skip(1), key) {
        let b = field.skip(1).skip(key.len() as int);
        if b.len() >= 1 && b[0] == '"' {
            let c = trim_start(b.skip(1));
            if c.len() >= 1 && c[0] == ':' {
                spec_quoted_value(trim_start(c.skip(1)))
            } else {
                None
            }
        } else {
            None
        }
    } else {
        None
    }
}

/// The text of a one-member object `{"translation": "..."}` (or the
/// `refined_translation` / `translated_text` keys, tried in that order) whose
/// value holds unescaped quotes, so that it is not valid JSON.
pub open spec fn spec_unwrap_malformed(raw: Seq<char>) -> Option<Seq<char>> {
    let t = trim(raw);
    if t.len() >= 2 && t[0] == '{' && t.last() == '}' {
        let inner = trim(t.subrange(1, t.len() - 1));
        match spec_malformed_field(inner, "translation"@) {
            Some(v) => Some(v),
            None => match spec_malformed_field(inner, "refined_translation"@) {
                Some(v) => Some(v),
                None => spec_malformed_field(inner, "translated_text"@),
            },
        }
    } else {
        None
    }
}

/// The text of a quoted value.
fn quoted_value(r: &Vec<char>) -> (res: Option<Vec<char>>)
    ensures
        match res {
            Some(v) => spec_quoted_value(r@) == Some(v@),
            None => spec_quoted_value(r@) is None,
        },
{
    let n = r.len();
    if n >= 2 && r[0] == '"' && r[n - 1] == '"' {
        Some(slice_chars(r, 1, n - 1))
    } else if n >= 2 && r[0] == '\u{201c}' && r[n - 1] == '\u{201d}' {
        Some(slice_chars(r, 1, n - 1))
    } else {
        None
    }
}

/// `v` without its leading whitespace.
fn trim_start_chars(v: &Vec<char>) -> (res: Vec<char>)
    ensures
        res@ == trim_start(v@),
{
    let (a, _b) = trim_bounds(v);
    slice_chars(v, a, v.len())
}

/// Reads the value of one unescaped member (see `spec_malformed_field`).
pub fn strip_malformed_field(field: &Vec<char>, key: &str) -> (res: Option<Vec<char>>)
    ensures
        match res {
            Some(v) => spec_malformed_field(field@, key@) == Some(v@),
            None => spec_malformed_field(field@, key@) is None,
        },
{
    let k = chars_of(key);
    if field.len() >= 1 && field[0] == '"' {
        let a = slice_chars(field, 1, field.len());
        assert(a@ =~= field@.skip(1));
        if chars_occur_at(&a, 0, &k) {
            let b = slice_chars(&a, k.len(), a.len());
            assert(b@ =~= field@.skip(1).skip(k.len() as int));
            if b.len() >= 1 && b[0] == '"' {
                let b1 = slice_chars(&b, 1, b.len());
                assert(b1@ =~= b@.skip(1));
                let c = trim_start_chars(&b1);
                if c.len() >= 1 && c[0] == ':' {
                    let c1 = slice_chars(&c, 1, c.len());
                    assert(c1@ =~= c@.skip(1));
                    let d = trim_start_chars(&c1);
                    return quoted_value(&d);
                }
            }
        }
    }
    None
}

/// Unwraps a malformed one-member translation object (see
/// `spec_unwrap_malformed`).
pub fn unwrap_malformed_translation_object(raw: &Vec<char>) -> (res: Option<Vec<char>>)
    ensures
        match res {
            Some(v) => spec_unwrap_malformed(raw@) == Some(v@),
            None => spec_unwrap_malformed(raw@) is None,
        },
{
    let t = trim_chars(raw);
    let n = t.len();
    if n >= 2 && t[0] == '{' && t[n - 1] == '}' {
        let inner = trim_chars(&slice_chars(&t, 1, n - 1));
        if let Some(v) = strip_malformed_field(&inner, "translation") {
            return Some(v);
        }
        if let Some(v) = strip_malformed_field(&inner, "refined_translation") {
            return Some(v);
        }
        strip_malformed_field(&inner, "translated_text")
    } else {
        None
    }
}

/// The translated text held by a parsed reply: a string itself, or the text
/// picked from an object's members.
pub open spec fn spec_translation_from_value(v: JsonValue) -> Option<Seq<char>> {
    match v {
        JsonValue::Str(s) => Some(s@),
        JsonValue::Object(m) => match spec_pick(m@) {
            Some(t) => Some(t@),
            None => None,
        },
        _ => None,
    }
}

/// Reads the translated text from a parsed reply; fails on a reply that is
/// not a string or an object, or an object with no text in it.
pub fn translation_from_json_value(v: &JsonValue) -> (res: Result<String, AppError>)
    ensures
        match res {
            Ok(t) => spec_translation_from_value(*v) == Some(t@),
            Err(e) => spec_translation_from_value(*v) is None && e is Translation,
        },
{
    match v {
        JsonValue::Str(s) => Ok(s.clone()),
        JsonValue::Object(m) => match pick_translation_candidate(m) {
            Some(t) => Ok(t),
            None => Err(
                AppError::Translation(
                    String::from_str("translation response JSON does not contain translated text"),
                ),
            ),
        },
        _ => Err(
            AppError::Translation(String::from_str("translation response JSON is not an object")),
        ),
    }
}

/// The translated text of a model reply: the `refined_translation` of a
/// healed critique report; otherwise, after removing a code fence, the text
/// read from the parsed JSON; and where the text is not JSON at all, the
/// value of a malformed translation object or the text itself.
pub open spec fn spec_translation_content(raw: Seq<char>) -> Option<Seq<char>> {
    match spec_heal(raw) {
        Some(p) => Some(p.2@),
        None => {
            let t = strip_code_fence(raw);
            match spec_parse_json(t) {
                None => Some(
                    match spec_unwrap_malformed(t) {
                        Some(x) => x,
                        None => t,
                    },
                ),
                Some(v) => spec_translation_from_value(v),
            }
        },
    }
}

/// A reply wrapped in a Markdown code fence (``` or ```json) reads like the
/// reply without it: the same translated text, and the same healed critique,
/// for any reply `j` whose trimmed form does not itself begin with a fence.
pub proof fn law_fenced_reply_reads_like_unfenced(j: Seq<char>)
    requires
        !starts_with(trim(j), "```"@),
    ensures
        spec_translation_content("```\n"@ + j + "\n```"@) == spec_translation_content(j),
        spec_translation_content("```json\n"@ + j + "\n```"@) == spec_translation_content(j),
        spec_heal("```\n"@ + j + "\n```"@) == spec_heal(j),
        spec_heal("```json\n"@ + j + "\n```"@) == spec_heal(j),
{
    law_code_fence_is_removed(j);
}

/// Reads the translated text out of a model reply (see
/// `spec_translation_content`). Fails only when the reply is valid JSON that
/// holds no translated text.
pub fn parse_translation_content(raw: &str) -> (res: Result<String, AppError>)
    ensures
        match res {
            Ok(t) => spec_translation_content(raw@) == Some(t@),
            Err(e) => spec_translation_content(raw@) is None && e is Translation,
        },
{
    if let Ok(report) = heal_and_parse_json(raw) {
        return Ok(report.refined_translation);
    }
    let trimmed = strip_markdown_fence(raw);
    let trimmed_text = string_from_chars(trimmed.as_slice());
    match parse_json(trimmed_text.as_str()) {
        Some(value) => translation_from_json_value(&value),
        None => match unwrap_malformed_translation_object(&trimmed) {
            Some(v) => Ok(string_from_chars(v.as_slice())),
            None => Ok(trimmed_text),
        },
    }
}

/// `choices[0].message.content` of a parsed chat-completion reply, when it
/// is a string.
pub open spec fn content_of_value(v: JsonValue) -> Option<Seq<char>> {
    match spec_get(v, "choices"@) {
        Some(c) => match spec_get_index(c, 0) {
            Some(f) => match spec_get(f, "message"@) {
                Some(m) => match spec_get(m, "content"@) {
                    Some(JsonValue::Str(s)) => Some(s@),
                    _ => None,
                },
                None => None,
            },
            None => None,
        },
        None => None,
    }
}

/// `choices[0].message.content` of a chat-completion reply, when it is a string.
pub open spec fn spec_extract_content(raw: Seq<char>) -> Option<Seq<char>> {
    match spec_parse_json(raw) {
        Some(v) => content_of_value(v),
        None => None,
    }
}

/// Reads `choices[0].message.content` from a parsed chat-completion reply.
pub fn content_of_reply(v: &JsonValue) -> (res: Option<String>)
    ensures
        match res {
            Some(s) => content_of_value(*v) == Some(s@),
            None => content_of_value(*v) is None,
        },
{
    let choices = v.get("choices")?;
    let first = choices.get_index(0)?;
    let message = first.get("message")?;
    match message.get("content")? {
        JsonValue::Str(s) => Some(s.clone()),
        _ => None,
    }
}

/// Reads `choices[0].message.content` from a chat-completion reply.
pub fn extract_content(raw: &str) -> (res: Option<String>)
    ensures
        match res {
            Some(s) => spec_extract_content(raw@) == Some(s@),
            None => spec_extract_content(raw@) is None,
        },
{
    let v = parse_json(raw)?;
    content_of_reply(&v)
}

/// Attempts made at one request before giving up.
pub const MAX_ATTEMPTS: u64 = 5;

/// A request's translated text, the token usage its reply reported, and the
/// number of retries it took.
#[derive(Debug, Clone, PartialEq, Eq)]
pub struct TranslationResult {
    pub translation: String,
    pub usage: TokenUsage,
    pub retries: u64,
}

impl TranslationResult {
    /// A copy of the result.
    pub fn duplicate(&self) -> (res: Self)
        ensures
            res == *self,
    {
        TranslationResult {
            translation: self.translation.clone(),
            usage: self.usage,
            retries: self.retries,
        }
    }
}

/// What one attempt at a chat-completion request came to.
#[derive(Debug)]
pub enum AttemptOutcome {
    /// A success status, with the reply body.
    Replied(String),
    /// Status 429, too many requests.
    RateLimited,
    /// Another non-success status, with its text (such as
    /// `500 Internal Server Error`).
    Status(String),
    /// The request could not be sent; the transport error's text.
    Transport(String),
    /// A success status whose body could not be read; the error's text.
    BodyUnreadable(String),
}

/// What to do after an attempt.
#[derive(Debug)]
pub enum RetryStep {
    /// The request is done.
    Done(TranslationResult),
    /// Wait this many seconds, then try again.
    Wait(u64),
    /// Give up with this error.
    Fail(AppError),
}

/// The part of a reply that holds the translated text: the reply's
/// `choices[0].message.content`, or the whole body when it has none.
pub open spec fn reply_content(body: Seq<char>) -> Seq<char> {
    match spec_extract_content(body) {
        Some(c) => c,
        None => body,
    }
}

/// The usage a reply reports, or zero counts.
pub open spec fn usage_or_zero(body: Seq<char>) -> TokenUsage {
    match spec_usage(body) {
        Some(u) => u,
        None => TokenUsage { prompt_tokens: 0, completion_tokens: 0, total_tokens: 0 },
    }
}

/// Seconds to wait after failed attempt `attempt` (counted from 1): one
/// second after the first, doubling after each further one.
pub open spec fn backoff_secs(attempt: nat) -> nat
    decreases attempt,
{
    if attempt <= 1 {
        1
    } else {
        2 * backoff_secs((attempt - 1) as nat)
    }
}

/// The wait after failed attempt `attempt` (see `backoff_secs`).
pub fn backoff_for(attempt: u64) -> (res: u64)
    requires
        1 <= attempt < MAX_ATTEMPTS,
    ensures
        res == backoff_secs(attempt as nat),
{
    let mut wait: u64 = 1;
    let mut k: u64 = 1;
    while k < attempt
        invariant
            1 <= k <= attempt,
            attempt < MAX_ATTEMPTS,
            wait == backoff_secs(k as nat),
            (k == 1 && wait == 1) || (k == 2 && wait == 2) || (k == 3 && wait == 4) || (k == 4
                && wait == 8),
        decreases attempt - k,
    {
        wait = wait * 2;
        k = k + 1;
        assert(backoff_secs(k as nat) == 2 * backoff_secs((k - 1) as nat));
    }
    wait
}

/// Reads a reply body into the result of a request that took `retries`
/// retries: the translation of `reply_content`, and the reply's usage.
pub fn interpret_reply(body: &str, retries: u64) -> (res: Result<TranslationResult, AppError>)
    ensures
        match res {
            Ok(r) => spec_translation_content(reply_content(body@)) == Some(r.translation@)
                && r.usage == usage_or_zero(body@) && r.retries == retries,
            Err(e) => spec_translation_content(reply_content(body@)) is None && e is Translation,
        },
{
    let content = match extract_content(body) {
        Some(c) => c,
        None => String::from_str(body),
    };
    let translation = parse_translation_content(content.as_str())?;
    let usage = match TokenUsage::from_response(body) {
        Some(u) => u,
        None => TokenUsage { prompt_tokens: 0, completion_tokens: 0, total_tokens: 0 },
    };
    Ok(TranslationResult { translation, usage, retries })
}

/// What the step after attempt `attempt` (counted from 1) is, given the
/// attempt's outcome (see `retry_step`).
pub open spec fn retry_decision(attempt: u64, outcome: AttemptOutcome, res: RetryStep) -> bool {
    match outcome {
        AttemptOutcome::Replied(body) => match spec_translation_content(reply_content(body@)) {
            Some(t) => res matches RetryStep::Done(r) && r.translation@ == t && r.usage
                == usage_or_zero(body@) && r.retries == attempt - 1,
            None => if attempt < MAX_ATTEMPTS {
                res == RetryStep::Wait(backoff_secs(attempt as nat) as u64)
            } else {
                res matches RetryStep::Fail(e) && e is Translation
            },
        },
        AttemptOutcome::RateLimited => if attempt < MAX_ATTEMPTS {
            res == RetryStep::Wait(backoff_secs(attempt as nat) as u64)
        } else {
            res matches RetryStep::Fail(AppError::Translation(m)) && m@
                == "rate limited after retries"@
        },
        AttemptOutcome::Status(s) => if attempt < MAX_ATTEMPTS {
            res == RetryStep::Wait(backoff_secs(attempt as nat) as u64)
        } else {
            res matches RetryStep::Fail(AppError::Translation(m)) && m@
                == "request failed with status "@ + s@
        },
        AttemptOutcome::Transport(t) => if attempt < MAX_ATTEMPTS {
            res == RetryStep::Wait(backoff_secs(attempt as nat) as u64)
        } else {
            res matches RetryStep::Fail(AppError::Http(m)) && m@ == t@
        },
        AttemptOutcome::BodyUnreadable(t) => res matches RetryStep::Fail(AppError::Http(m))
            && m@ == t@,
    }
}

/// The step after attempt `attempt` (counted from 1) came to `outcome`. A
/// readable reply that yields a translation ends the request with
/// `attempt - 1` retries; an unreadable body ends it with an HTTP error at
/// once; any other outcome waits and tries again while fewer than
/// `MAX_ATTEMPTS` attempts were made, and otherwise gives up with the error
/// that attempt produced.
pub fn retry_step(attempt: u64, outcome: AttemptOutcome) -> (res: RetryStep)
    requires
        1 <= attempt <= MAX_ATTEMPTS,
    ensures
        retry_decision(attempt, outcome, res),
{
    let last = attempt == MAX_ATTEMPTS;
    match outcome {
        AttemptOutcome::Replied(body) => match interpret_reply(body.as_str(), attempt - 1) {
            Ok(r) => RetryStep::Done(r),
            Err(e) => if last {
                RetryStep::Fail(e)
            } else {
                RetryStep::Wait(backoff_for(attempt))
            },
        },
        AttemptOutcome::RateLimited => if last {
            RetryStep::Fail(AppError::Translation(String::from_str("rate limited after retries")))
        } else {
            RetryStep::Wait(backoff_for(attempt))
        },
        AttemptOutcome::Status(s) => if last {
            RetryStep::Fail(
                AppError::Translation(
                    String::from_str("request failed with status ").concat(s.as_str()),
                ),
            )
        } else {
            RetryStep::Wait(backoff_for(attempt))
        },
        AttemptOutcome::Transport(t) => if last {
            RetryStep::Fail(AppError::Http(t))
        } else {
            RetryStep::Wait(backoff_for(attempt))
        },
        AttemptOutcome::BodyUnreadable(t) => RetryStep::Fail(AppError::Http(t)),
    }
}

/// A request makes at most `MAX_ATTEMPTS` attempts: a step waits for another
/// attempt only before the last one, and a finished request reports one
/// retry fewer than the attempts it took.
pub proof fn law_attempts_are_bounded(attempt: u64, outcome: AttemptOutcome, res: RetryStep)
    requires
        1 <= attempt <= MAX_ATTEMPTS,
        retry_decision(attempt, outcome, res),
    ensures
        res is Wait ==> attempt < MAX_ATTEMPTS && res->Wait_0 == backoff_secs(attempt as nat),
        res is Done ==> res->Done_0.retries == attempt - 1 && res->Done_0.retries < MAX_ATTEMPTS,
        attempt == MAX_ATTEMPTS ==> !(res is Wait),
{
    reveal_with_fuel(backoff_secs, 5);
    assert(backoff_secs(attempt as nat) <= 16);
}

} // verus!
