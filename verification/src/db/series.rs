//! Rows of the series-wide glossary of named entities.

use vstd::prelude::*;

verus! {

/// A named entity of a book series and how it is translated.
#[derive(Debug, Clone, PartialEq, Eq)]
pub struct SeriesEntity {
    pub id: i64,
    pub original_name: String,
    pub translated_name: String,
    pub category: String,
    pub profile: String,
}

} // verus!
