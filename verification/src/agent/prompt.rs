//! Prompt data and the translation prompt text.

use vstd::prelude::*;

verus! {

/// Terms that a glossary pass reports as newly seen.
#[derive(Debug, Clone, PartialEq, Eq)]
pub struct GlossaryPayload {
    pub new_entities: Vec<NewEntity>,
}

/// One glossary entry.
#[derive(Debug, Clone, PartialEq, Eq)]
pub struct NewEntity {
    pub original_name: String,
    pub translated_name: String,
    pub category: String,
    pub profile: String,
}

/// The structured reply of a critique pass.
#[derive(Debug, Clone, PartialEq, Eq)]
pub struct CritiqueReport {
    pub has_mismatches: bool,
    pub incorrect_terms: Vec<TermMismatch>,
    pub refined_translation: String,
}

/// One glossary term that a translation rendered wrongly.
#[derive(Debug, Clone, PartialEq, Eq)]
pub struct TermMismatch {
    pub term: String,
    pub expected: String,
    pub actual: String,
}

/// Everything the translation prompt is built from.
#[derive(Debug, Clone, PartialEq, Eq)]
pub struct PromptContext {
    pub book_summary: String,
    pub pov_speaker: String,
    pub glossary: Vec<NewEntity>,
    pub previous_context: String,
    pub target: String,
    pub next_context: String,
    pub target_language: String,
}

/// The glossary line of one entry: `- original => translated (category) profile`.
pub open spec fn glossary_line(e: NewEntity) -> Seq<char> {
    "- "@ + e.original_name@ + " => "@ + e.translated_name@ + " ("@ + e.category@ + ") "@
        + e.profile@
}

/// The glossary lines of the first `n` entries, joined by newlines.
pub open spec fn glossary_text(g: Seq<NewEntity>, n: int) -> Seq<char>
    decreases n,
{
    if n <= 0 {
        Seq::empty()
    } else if n == 1 {
        glossary_line(g[0])
    } else {
        glossary_text(g, n - 1) + "\n"@ + glossary_line(g[n - 1])
    }
}

/// The full translation prompt for a context.
pub open spec fn translation_prompt(ctx: PromptContext) -> Seq<char> {
    "You are a master translator specializing in literary works.\n\nReturn a single JSON object with exactly one key named `translation`.\nDo not include markdown, notes, status fields, or any other keys.\nThe value must be the "@
        + ctx.target_language@
        + " translation of the target text.\n\n[Global Background Context]\n<book_summary>\n"@
        + ctx.book_summary@
        + "\n</book_summary>\n\n[Current POV & Tone Constraint]\n<pov_speaker>\n"@
        + ctx.pov_speaker@
        + "\n</pov_speaker>\n\n[Local Character & Term Glossary References]\n<glossary>\n"@
        + glossary_text(ctx.glossary@, ctx.glossary@.len() as int)
        + "\n</glossary>\n\n[Semantic Context Alignment]\n<previous_context>\n"@
        + ctx.previous_context@
        + "\n</previous_context>\n\n<target>\n"@
        + ctx.target@
        + "\n</target>\n\n<next_context>\n"@
        + ctx.next_context@
        + "\n</next_context>\n"@
}

/// Appends the glossary line of `e` to `s`.
fn push_glossary_line(s: &mut String, e: &NewEntity)
    ensures
        final(s)@ == old(s)@ + glossary_line(*e),
{
    s.append("- ");
    s.append(e.original_name.as_str());
    s.append(" => ");
    s.append(e.translated_name.as_str());
    s.append(" (");
    s.append(e.category.as_str());
    s.append(") ");
    s.append(e.profile.as_str());
}

/// Builds the system prompt that asks for a JSON object with one
/// `translation` key, embedding the context sections and the glossary.
pub fn build_translation_prompt(ctx: &PromptContext) -> (res: String)
    ensures
        res@ == translation_prompt(*ctx),
{
    let mut glossary = String::new();
    let n = ctx.glossary.len();
    let mut i: usize = 0;
    while i < n
        invariant
            i <= n == ctx.glossary.len(),
            glossary@ == glossary_text(ctx.glossary@, i as int),
        decreases n - i,
    {
        if i > 0 {
            glossary.append("\n");
        }
        push_glossary_line(&mut glossary, &ctx.glossary[i]);
        i += 1;
    }
    let mut s = String::from_str(
        "You are a master translator specializing in literary works.\n\nReturn a single JSON object with exactly one key named `translation`.\nDo not include markdown, notes, status fields, or any other keys.\nThe value must be the ",
    );
    s.append(ctx.target_language.as_str());
    s.append(" translation of the target text.\n\n[Global Background Context]\n<book_summary>\n");
    s.append(ctx.book_summary.as_str());
    s.append("\n</book_summary>\n\n[Current POV & Tone Constraint]\n<pov_speaker>\n");
    s.append(ctx.pov_speaker.as_str());
    s.append("\n</pov_speaker>\n\n[Local Character & Term Glossary References]\n<glossary>\n");
    s.append(glossary.as_str());
    s.append("\n</glossary>\n\n[Semantic Context Alignment]\n<previous_context>\n");
    s.append(ctx.previous_context.as_str());
    s.append("\n</previous_context>\n\n<target>\n");
    s.append(ctx.target.as_str());
    s.append("\n</target>\n\n<next_context>\n");
    s.append(ctx.next_context.as_str());
    s.append("\n</next_context>\n");
    s
}

} // verus!
