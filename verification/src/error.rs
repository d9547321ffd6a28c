//! The library's error type.

use vstd::prelude::*;

verus! {

/// What went wrong, by area; each carries a human-readable message.
#[derive(Debug, Clone)]
pub enum AppError {
    Config(String),
    Translation(String),
    Parse(String),
    UnsupportedFormat(String),
    Command(String),
    Http(String),
    Io(String),
    Json(String),
    Database(String),
}

/// The message an error carries.
pub open spec fn error_message(e: AppError) -> Seq<char> {
    match e {
        AppError::Config(m) => m@,
        AppError::Translation(m) => m@,
        AppError::Parse(m) => m@,
        AppError::UnsupportedFormat(m) => m@,
        AppError::Command(m) => m@,
        AppError::Http(m) => m@,
        AppError::Io(m) => m@,
        AppError::Json(m) => m@,
        AppError::Database(m) => m@,
    }
}

/// The area an error belongs to, as its text begins.
pub open spec fn error_area(e: AppError) -> Seq<char> {
    match e {
        AppError::Config(_) => "configuration error: "@,
        AppError::Translation(_) => "translation error: "@,
        AppError::Parse(_) => "parse error: "@,
        AppError::UnsupportedFormat(_) => "unsupported format: "@,
        AppError::Command(_) => "command failed: "@,
        AppError::Http(_) => "http error: "@,
        AppError::Io(_) => "io error: "@,
        AppError::Json(_) => "json error: "@,
        AppError::Database(_) => "database error: "@,
    }
}

/// The text an error is shown as: its area, then its message.
pub open spec fn error_text(e: AppError) -> Seq<char> {
    error_area(e) + error_message(e)
}

impl AppError {
    /// The text the error is shown as (see `error_text`).
    pub fn describe(&self) -> (res: String)
        ensures
            res@ == error_text(*self),
    {
        let area = match self {
            AppError::Config(_) => "configuration error: ",
            AppError::Translation(_) => "translation error: ",
            AppError::Parse(_) => "parse error: ",
            AppError::UnsupportedFormat(_) => "unsupported format: ",
            AppError::Command(_) => "command failed: ",
            AppError::Http(_) => "http error: ",
            AppError::Io(_) => "io error: ",
            AppError::Json(_) => "json error: ",
            AppError::Database(_) => "database error: ",
        };
        let m = self.message();
        String::from_str(area).concat(m.as_str())
    }

    /// A copy of the error.
    pub fn duplicate(&self) -> (res: Self)
        ensures
            res == *self,
    {
        match self {
            AppError::Config(m) => AppError::Config(m.clone()),
            AppError::Translation(m) => AppError::Translation(m.clone()),
            AppError::Parse(m) => AppError::Parse(m.clone()),
            AppError::UnsupportedFormat(m) => AppError::UnsupportedFormat(m.clone()),
            AppError::Command(m) => AppError::Command(m.clone()),
            AppError::Http(m) => AppError::Http(m.clone()),
            AppError::Io(m) => AppError::Io(m.clone()),
            AppError::Json(m) => AppError::Json(m.clone()),
            AppError::Database(m) => AppError::Database(m.clone()),
        }
    }

    /// The message the error carries.
    pub fn message(&self) -> (res: String)
        ensures
            res@ == error_message(*self),
    {
        match self {
            AppError::Config(m) => m.clone(),
            AppError::Translation(m) => m.clone(),
            AppError::Parse(m) => m.clone(),
            AppError::UnsupportedFormat(m) => m.clone(),
            AppError::Command(m) => m.clone(),
            AppError::Http(m) => m.clone(),
            AppError::Io(m) => m.clone(),
            AppError::Json(m) => m.clone(),
            AppError::Database(m) => m.clone(),
        }
    }
}

/// `prefix` followed by `subject`, as one message.
pub fn message_with(prefix: &str, subject: &str) -> (res: String)
    ensures
        res@ == prefix@ + subject@,
{
    let s = String::from_str(prefix);
    s.concat(subject)
}

} // verus!
