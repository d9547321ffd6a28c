//! Repair of checkpoint rows that stored a JSON wrapper in place of the
//! translated text.

use vstd::prelude::*;

use crate::agent::client::{parse_translation_content, spec_translation_content};
use crate::json::str_eq;

verus! {

/// How many completed rows a migration read and how many it rewrote.
#[derive(Debug, Clone, PartialEq, Eq)]
pub struct MigrationResult {
    pub scanned: usize,
    pub repaired: usize,
}

/// A completed checkpoint row as the migration reads it.
#[derive(Debug, Clone)]
pub struct StoredTranslation {
    pub chapter_id: String,
    pub chunk_index: i64,
    pub translated_text: Option<String>,
}

/// A rewrite of one row's stored translation.
#[derive(Debug, Clone)]
pub struct TranslationRepair {
    pub chapter_id: String,
    pub chunk_index: i64,
    pub normalized: String,
}

/// What a repair holds: chapter, position and the new text.
pub open spec fn repair_view(r: TranslationRepair) -> (Seq<char>, i64, Seq<char>) {
    (r.chapter_id@, r.chunk_index, r.normalized@)
}

/// The repairs that rows call for, in row order: a row is rewritten when it
/// has a translation, a translated text can be read out of it (see
/// `spec_translation_content`), and that text differs from what is stored.
pub open spec fn repairs_of(rows: Seq<StoredTranslation>) -> Seq<(Seq<char>, i64, Seq<char>)>
    decreases rows.len(),
{
    if rows.len() == 0 {
        seq![]
    } else {
        let rest = repairs_of(rows.drop_last());
        let row = rows.last();
        match row.translated_text {
            Some(raw) => match spec_translation_content(raw@) {
                Some(t) => if t != raw@ {
                    rest.push((row.chapter_id@, row.chunk_index, t))
                } else {
                    rest
                },
                None => rest,
            },
            None => rest,
        }
    }
}

/// A row calls for at most one repair.
pub proof fn lemma_repairs_bounded(rows: Seq<StoredTranslation>)
    ensures
        repairs_of(rows).len() <= rows.len(),
    decreases rows.len(),
{
    if rows.len() > 0 {
        lemma_repairs_bounded(rows.drop_last());
    }
}

/// Plans the migration of the completed rows of a checkpoint store: the
/// repairs that `repairs_of` calls for, and the result the migration reports
/// once all of them are written.
pub fn plan_checkpoint_repairs(rows: &Vec<StoredTranslation>) -> (res: (
    MigrationResult,
    Vec<TranslationRepair>,
))
    ensures
        res.0.scanned == rows@.len(),
        res.0.repaired == res.1@.len(),
        res.0.repaired <= res.0.scanned,
        res.1@.map_values(|r: TranslationRepair| repair_view(r)) == repairs_of(rows@),
{
    let mut repairs: Vec<TranslationRepair> = Vec::new();
    let mut i: usize = 0;
    while i < rows.len()
        invariant
            i <= rows@.len(),
            repairs@.map_values(|r: TranslationRepair| repair_view(r)) == repairs_of(
                rows@.take(i as int),
            ),
        decreases rows.len() - i,
    {
        let ghost prev = repairs@.map_values(|r: TranslationRepair| repair_view(r));
        assert(rows@.take(i + 1).drop_last() =~= rows@.take(i as int));
        assert(rows@.take(i + 1).last() == rows@[i as int]);
        let row = &rows[i];
        if let Some(raw) = &row.translated_text {
            if let Ok(normalized) = parse_translation_content(raw.as_str()) {
                if !str_eq(normalized.as_str(), raw.as_str()) {
                    let repair = TranslationRepair {
                        chapter_id: row.chapter_id.clone(),
                        chunk_index: row.chunk_index,
                        normalized,
                    };
                    repairs.push(repair);
                    assert(repairs@.map_values(|r: TranslationRepair| repair_view(r)) =~= prev.push(
                        repair_view(repair),
                    ));
                }
            }
        }
        i += 1;
    }
    assert(rows@.take(rows@.len() as int) =~= rows@);
    proof {
        lemma_repairs_bounded(rows@);
    }
    let repaired = repairs.len();
    (MigrationResult { scanned: rows.len(), repaired }, repairs)
}

} // verus!
