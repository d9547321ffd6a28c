//! Prompting, response parsing and JSON repair for the translation agent.

pub mod client;
pub mod json_healer;
pub mod prompt;
