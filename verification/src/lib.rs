//! Verified core of an EPUB translation tool: response healing, HTML chunk
//! rendering, job state transitions and progress accounting.

pub mod agent;
pub mod config;
pub mod db;
pub mod pipeline;
pub mod error;
pub mod job;
pub mod json;
pub mod text;
