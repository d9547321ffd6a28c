//! The translation workflow: parsing, rendering, progress and checks.

pub mod accounting;
pub mod engine;
pub mod migration;
pub mod parser;
pub mod progress;
pub mod qa;
