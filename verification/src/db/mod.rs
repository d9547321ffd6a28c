//! Checkpoint records of translated chunks and the series glossary's rows.

pub mod checkpoint;
pub mod series;
