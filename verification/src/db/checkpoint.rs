//! Checkpoint records of translated chunks, and the map of completed chunks
//! that a resumed run reuses instead of asking the model again.

use vstd::prelude::*;

use crate::agent::client::{parse_translation_content, spec_translation_content};
use crate::json::str_eq;
use crate::pipeline::qa::contains_chars;
use crate::text::{chars_of, contains_seq, strip_code_fence, strip_markdown_fence};

verus! {

/// The stored progress of one chunk of one chapter.
#[derive(Debug, Clone, PartialEq, Eq)]
pub struct ChunkProgress {
    pub chapter_id: String,
    pub chunk_index: i64,
    pub original_text: String,
    pub translated_text: Option<String>,
    pub state: String,
}

/// The key a chunk is stored under: chapter and position.
pub open spec fn chunk_key(c: ChunkProgress) -> (Seq<char>, i64) {
    (c.chapter_id@, c.chunk_index)
}

/// The text holds a fragment of a model's JSON reply wrapper
/// (`{"translation"` or `refined_translation`); such a text is never stored
/// as a completed translation.
pub open spec fn holds_wrapper_marker(t: Seq<char>) -> bool {
    contains_seq(t, "{\"translation\""@) || contains_seq(t, "refined_translation"@)
}

/// Whether the text holds a JSON wrapper fragment (see `holds_wrapper_marker`).
pub fn has_wrapper_marker(t: &str) -> (res: bool)
    ensures
        res == holds_wrapper_marker(t@),
{
    let chars = chars_of(t);
    contains_chars(&chars, &chars_of("{\"translation\"")) || contains_chars(
        &chars,
        &chars_of("refined_translation"),
    )
}

/// The stored text is a JSON reply wrapper: after removing a code fence (see
/// `strip_code_fence`), it opens with `{`.
pub open spec fn is_stored_wrapper(raw: Seq<char>) -> bool {
    let t = strip_code_fence(raw);
    t.len() > 0 && t[0] == '{'
}

/// A stored translation as it is read back: a stored wrapper gives the
/// translated text found in it (see `spec_translation_content`), or stays as
/// stored where it holds none; any other stored text stays as stored.
pub open spec fn normalized_translation(raw: Seq<char>) -> Seq<char> {
    if is_stored_wrapper(raw) {
        match spec_translation_content(raw) {
            Some(t) => t,
            None => raw,
        }
    } else {
        raw
    }
}

/// Reads a stored translation back (see `normalized_translation`).
pub fn normalize_translation(raw: &str) -> (res: String)
    ensures
        res@ == normalized_translation(raw@),
{
    let t = strip_markdown_fence(raw);
    if t.len() > 0 && t[0] == '{' {
        match parse_translation_content(raw) {
            Ok(t) => t,
            Err(_) => String::from_str(raw),
        }
    } else {
        String::from_str(raw)
    }
}

/// A stored row as it is read back: its translation, when it has one,
/// normalized; everything else as stored.
pub open spec fn normalized_row(row: ChunkProgress, res: ChunkProgress) -> bool {
    &&& res.chapter_id == row.chapter_id
    &&& res.chunk_index == row.chunk_index
    &&& res.original_text == row.original_text
    &&& res.state == row.state
    &&& match row.translated_text {
        Some(raw) => res.translated_text matches Some(t) && t@ == normalized_translation(raw@),
        None => res.translated_text is None,
    }
}

/// Normalizes the translation of a stored row (see `normalized_row`).
pub fn normalize_row(row: ChunkProgress) -> (res: ChunkProgress)
    ensures
        normalized_row(row, res),
{
    let translated_text = match &row.translated_text {
        Some(raw) => Some(normalize_translation(raw.as_str())),
        None => None,
    };
    ChunkProgress { translated_text, ..row }
}

/// The map that a sequence of rows makes, a later row replacing an earlier
/// one with the same key.
pub open spec fn map_of(rows: Seq<ChunkProgress>) -> Map<(Seq<char>, i64), ChunkProgress>
    decreases rows.len(),
{
    if rows.len() == 0 {
        Map::empty()
    } else {
        map_of(rows.drop_last()).insert(chunk_key(rows.last()), rows.last())
    }
}

/// No two rows share a key.
pub open spec fn distinct_keys(rows: Seq<ChunkProgress>) -> bool {
    forall|i: int, j: int|
        0 <= i < j < rows.len() ==> chunk_key(#[trigger] rows[i]) != chunk_key(#[trigger] rows[j])
}

/// With distinct keys, the map holds each row under its key and nothing else.
pub proof fn lemma_map_of_rows(rows: Seq<ChunkProgress>)
    requires
        distinct_keys(rows),
    ensures
        map_of(rows).dom().finite(),
        map_of(rows).dom().len() == rows.len(),
        forall|i: int|
            0 <= i < rows.len() ==> #[trigger] map_of(rows).dom().contains(chunk_key(rows[i]))
                && map_of(rows)[chunk_key(rows[i])] == rows[i],
        forall|k: (Seq<char>, i64)|
            #[trigger] map_of(rows).dom().contains(k) ==> exists|i: int|
                0 <= i < rows.len() && chunk_key(rows[i]) == k,
    decreases rows.len(),
{
    if rows.len() > 0 {
        let init = rows.drop_last();
        assert(distinct_keys(init)) by {
            assert forall|i: int, j: int| 0 <= i < j < init.len() implies chunk_key(
                #[trigger] init[i],
            ) != chunk_key(#[trigger] init[j]) by {
                assert(init[i] == rows[i] && init[j] == rows[j]);
            }
        }
        lemma_map_of_rows(init);
        let last = rows.last();
        assert(!map_of(init).dom().contains(chunk_key(last))) by {
            if map_of(init).dom().contains(chunk_key(last)) {
                let i = choose|i: int| 0 <= i < init.len() && chunk_key(init[i]) == chunk_key(last);
                assert(rows[i] == init[i]);
                assert(chunk_key(rows[i]) != chunk_key(rows[rows.len() - 1]));
            }
        }
        assert forall|i: int| 0 <= i < rows.len() implies #[trigger] map_of(
            rows,
        ).dom().contains(chunk_key(rows[i])) && map_of(rows)[chunk_key(rows[i])] == rows[i] by {
            if i < rows.len() - 1 {
                assert(rows[i] == init[i]);
                assert(chunk_key(rows[i]) != chunk_key(rows[rows.len() - 1]));
            }
        }
        assert forall|k: (Seq<char>, i64)| #[trigger] map_of(rows).dom().contains(k) implies exists|
            i: int,
        | 0 <= i < rows.len() && chunk_key(rows[i]) == k by {
            if k != chunk_key(last) {
                let i = choose|i: int| 0 <= i < init.len() && chunk_key(init[i]) == k;
                assert(rows[i] == init[i]);
            } else {
                assert(chunk_key(rows[rows.len() - 1]) == k);
            }
        }
    }
}

/// Replacing a row by one with the same key replaces the map's entry.
pub proof fn lemma_map_of_update(rows: Seq<ChunkProgress>, i: int, row: ChunkProgress)
    requires
        distinct_keys(rows),
        0 <= i < rows.len(),
        chunk_key(rows[i]) == chunk_key(row),
    ensures
        distinct_keys(rows.update(i, row)),
        map_of(rows.update(i, row)) == map_of(rows).insert(chunk_key(row), row),
    decreases rows.len(),
{
    let up = rows.update(i, row);
    assert forall|a: int, b: int| 0 <= a < b < up.len() implies chunk_key(#[trigger] up[a])
        != chunk_key(#[trigger] up[b]) by {
        assert(chunk_key(up[a]) == chunk_key(rows[a]));
        assert(chunk_key(up[b]) == chunk_key(rows[b]));
    }
    let init = rows.drop_last();
    if i == rows.len() - 1 {
        assert(up.drop_last() =~= init);
        assert(map_of(up) =~= map_of(rows).insert(chunk_key(row), row));
    } else {
        assert(distinct_keys(init)) by {
            assert forall|a: int, b: int| 0 <= a < b < init.len() implies chunk_key(
                #[trigger] init[a],
            ) != chunk_key(#[trigger] init[b]) by {
                assert(init[a] == rows[a] && init[b] == rows[b]);
            }
        }
        lemma_map_of_update(init, i, row);
        assert(up.drop_last() =~= init.update(i, row));
        assert(chunk_key(rows[i]) != chunk_key(rows[rows.len() - 1]));
        assert(map_of(up) =~= map_of(rows).insert(chunk_key(row), row));
    }
}

/// The completed chunks of a job, by chapter and position. The rows are
/// kept in a vector, one per key: vstd's `HashMap` specification describes
/// a map's contents only for integer and boolean keys, not for a key that
/// holds a `String`.
#[derive(Debug)]
pub struct CompletedChunkMap {
    rows: Vec<ChunkProgress>,
}

impl CompletedChunkMap {
    /// The chunks held, by key.
    pub closed spec fn view(&self) -> Map<(Seq<char>, i64), ChunkProgress> {
        map_of(self.rows@)
    }

    /// The map keeps one row per key.
    pub closed spec fn wf(&self) -> bool {
        distinct_keys(self.rows@)
    }

    /// An empty map.
    pub fn new() -> (res: Self)
        ensures
            res.wf(),
            res.view() == Map::<(Seq<char>, i64), ChunkProgress>::empty(),
    {
        CompletedChunkMap { rows: Vec::new() }
    }

    /// The position of the row stored under a key.
    fn position(&self, chapter_id: &str, chunk_index: i64) -> (res: Option<usize>)
        requires
            self.wf(),
        ensures
            match res {
                Some(i) => i < self.rows@.len() && chunk_key(self.rows@[i as int]) == (
                    chapter_id@,
                    chunk_index,
                ),
                None => !self.view().dom().contains((chapter_id@, chunk_index)),
            },
    {
        proof {
            lemma_map_of_rows(self.rows@);
        }
        let mut i: usize = 0;
        while i < self.rows.len()
            invariant
                i <= self.rows@.len(),
                forall|j: int| 0 <= j < i ==> chunk_key(#[trigger] self.rows@[j]) != (
                    chapter_id@,
                    chunk_index,
                ),
            decreases self.rows.len() - i,
        {
            if self.rows[i].chunk_index == chunk_index && str_eq(
                self.rows[i].chapter_id.as_str(),
                chapter_id,
            ) {
                return Some(i);
            }
            i += 1;
        }
        None
    }

    /// The row stored under `key`, if any.
    pub fn get(&self, key: &(String, i64)) -> (res: Option<&ChunkProgress>)
        requires
            self.wf(),
        ensures
            match res {
                Some(r) => self.view().dom().contains((key.0@, key.1)) && *r == self.view()[(
                    key.0@,
                    key.1,
                )],
                None => !self.view().dom().contains((key.0@, key.1)),
            },
    {
        proof {
            lemma_map_of_rows(self.rows@);
        }
        match self.position(key.0.as_str(), key.1) {
            Some(i) => {
                assert(self.view().dom().contains(chunk_key(self.rows@[i as int])));
                Some(&self.rows[i])
            },
            None => None,
        }
    }

    /// Stores `row` under its key, replacing what was stored there.
    pub fn insert(&mut self, row: ChunkProgress)
        requires
            old(self).wf(),
        ensures
            final(self).wf(),
            final(self).view() == old(self).view().insert(chunk_key(row), row),
    {
        match self.position(row.chapter_id.as_str(), row.chunk_index) {
            Some(i) => {
                proof {
                    lemma_map_of_update(self.rows@, i as int, row);
                }
                self.rows.set(i, row);
            },
            None => {
                proof {
                    lemma_map_of_rows(self.rows@);
                    assert forall|a: int, b: int|
                        0 <= a < b < self.rows@.len() + 1 implies chunk_key(
                        #[trigger] self.rows@.push(row)[a],
                    ) != chunk_key(#[trigger] self.rows@.push(row)[b]) by {
                        if b == self.rows@.len() {
                            assert(self.view().dom().contains(chunk_key(self.rows@[a])));
                        } else {
                            assert(self.rows@.push(row)[a] == self.rows@[a]);
                            assert(self.rows@.push(row)[b] == self.rows@[b]);
                        }
                    }
                    assert(self.rows@.push(row).drop_last() =~= self.rows@);
                }
                self.rows.push(row);
            },
        }
    }

    /// The number of keys held.
    pub fn len(&self) -> (res: usize)
        requires
            self.wf(),
        ensures
            res == self.view().dom().len(),
    {
        proof {
            lemma_map_of_rows(self.rows@);
        }
        self.rows.len()
    }
}

/// A chunk stored in the map is read back as stored, and storing it leaves
/// every other key as it was.
pub proof fn law_read_after_insert(
    before: Map<(Seq<char>, i64), ChunkProgress>,
    row: ChunkProgress,
    after: Map<(Seq<char>, i64), ChunkProgress>,
)
    requires
        after == before.insert(chunk_key(row), row),
    ensures
        after.dom().contains(chunk_key(row)),
        after[chunk_key(row)] == row,
        forall|k: (Seq<char>, i64)|
            k != chunk_key(row) ==> (#[trigger] after.dom().contains(k) == before.dom().contains(k))
                && (before.dom().contains(k) ==> after[k] == before[k]),
{
}

/// The map of completed chunks that a resumed run starts from: every stored
/// row, read back through `normalize_row`, a later row replacing an earlier
/// one with the same key.
pub open spec fn completed_map_of(rows: Seq<ChunkProgress>, map: Map<(Seq<char>, i64), ChunkProgress>) -> bool {
    &&& forall|k: (Seq<char>, i64)|
        #[trigger] map.dom().contains(k) <==> exists|i: int| 0 <= i < rows.len() && chunk_key(rows[i]) == k
    &&& forall|i: int|
        0 <= i < rows.len() && (forall|j: int| i < j < rows.len() ==> chunk_key(rows[j]) != chunk_key(rows[i]))
            ==> normalized_row(#[trigger] rows[i], map[chunk_key(rows[i])])
}

/// Reading one more row into the map keeps `completed_map_of`.
proof fn lemma_completed_step(
    pre: Seq<ChunkProgress>,
    row: ChunkProgress,
    normalized: ChunkProgress,
    before: Map<(Seq<char>, i64), ChunkProgress>,
    after: Map<(Seq<char>, i64), ChunkProgress>,
)
    requires
        completed_map_of(pre, before),
        normalized_row(row, normalized),
        after == before.insert(chunk_key(normalized), normalized),
    ensures
        completed_map_of(pre.push(row), after),
{
    let post = pre.push(row);
    let n = pre.len() as int;
    assert(chunk_key(normalized) == chunk_key(row));
    assert(post[n] == row);
    assert forall|k: (Seq<char>, i64)| #[trigger] after.dom().contains(k) <==> exists|i: int|
        0 <= i < post.len() && chunk_key(post[i]) == k by {
        if after.dom().contains(k) && k != chunk_key(row) {
            assert(before.dom().contains(k));
            let i = choose|i: int| 0 <= i < pre.len() && chunk_key(pre[i]) == k;
            assert(post[i] == pre[i]);
        }
        if exists|i: int| 0 <= i < post.len() && chunk_key(post[i]) == k {
            let i = choose|i: int| 0 <= i < post.len() && chunk_key(post[i]) == k;
            if i < n {
                assert(post[i] == pre[i]);
            }
        }
    }
    assert forall|i: int|
        0 <= i < post.len() && (forall|j: int|
            i < j < post.len() ==> chunk_key(post[j]) != chunk_key(post[i])) implies normalized_row(
        #[trigger] post[i],
        after[chunk_key(post[i])],
    ) by {
        if i < n {
            assert(post[i] == pre[i]);
            assert(chunk_key(post[n]) != chunk_key(post[i]));
            assert forall|j: int| i < j < pre.len() implies chunk_key(pre[j]) != chunk_key(pre[i]) by {
                assert(pre[j] == post[j]);
            }
        }
    }
}

/// Builds the map of completed chunks from the stored rows (see
/// `completed_map_of`).
pub fn completed_chunk_map(rows: Vec<ChunkProgress>) -> (res: CompletedChunkMap)
    ensures
        res.wf(),
        completed_map_of(rows@, res.view()),
{
    let mut map = CompletedChunkMap::new();
    let ghost all = rows@;
    let mut rest = rows;
    let n = rest.len();
    let mut taken: usize = 0;
    while taken < n
        invariant
            taken <= n,
            n == all.len(),
            rest@ == all.subrange(taken as int, n as int),
            map.wf(),
            completed_map_of(all.take(taken as int), map.view()),
        decreases n - taken,
    {
        let row = rest.remove(0);
        assert(row == all[taken as int]);
        let ghost before = map.view();
        assert(all.take(taken + 1) =~= all.take(taken as int).push(row));
        let normalized = normalize_row(row);
        map.insert(normalized);
        proof {
            lemma_completed_step(all.take(taken as int), row, normalized, before, map.view());
        }
        taken += 1;
    }
    assert(all.take(n as int) =~= all);
    map
}

} // verus!
