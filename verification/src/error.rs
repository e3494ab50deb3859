//! The errors that the service answers with, and what a client is told of
//! each.

use vstd::prelude::*;
use crate::model::ErrorResponse;
use crate::text::same_text;

verus! {

/// An error of the service, with what went wrong in words.
#[derive(Debug, Clone, PartialEq, Eq)]
pub enum AppError {
    BadRequest(String),
    NotFound(String),
    Internal(String),
}

/// What a client is told of a bad request outside development.
pub open spec fn bad_request_text() -> Seq<char> {
    "Invalid request"@
}

/// What a client is told of a missing resource outside development.
pub open spec fn not_found_text() -> Seq<char> {
    "Resource not found"@
}

/// What a client is told of an internal error outside development.
pub open spec fn internal_text() -> Seq<char> {
    "An unexpected error occurred"@
}

/// Whether the environment named is the one in which errors are shown in
/// full: the name must be `development`; no name at all is not.
pub open spec fn shows_details(app_env: Option<&str>) -> bool {
    match app_env {
        Some(name) => name@ == "development"@,
        None => false,
    }
}

impl AppError {
    /// What went wrong, in words.
    pub open spec fn message(self) -> Seq<char> {
        match self {
            AppError::BadRequest(m) => m@,
            AppError::NotFound(m) => m@,
            AppError::Internal(m) => m@,
        }
    }

    /// The status with which the error is answered.
    pub open spec fn status(self) -> u16 {
        match self {
            AppError::BadRequest(_) => 400,
            AppError::NotFound(_) => 404,
            AppError::Internal(_) => 500,
        }
    }

    /// The title under which the error is answered.
    pub open spec fn title_text(self) -> Seq<char> {
        match self {
            AppError::BadRequest(_) => "Bad Request"@,
            AppError::NotFound(_) => "Not Found"@,
            AppError::Internal(_) => "Internal Server Error"@,
        }
    }

    /// The name of the kind of error, followed by a colon and a space.
    pub open spec fn label(self) -> Seq<char> {
        match self {
            AppError::BadRequest(_) => "BadRequest: "@,
            AppError::NotFound(_) => "NotFound: "@,
            AppError::Internal(_) => "Internal: "@,
        }
    }

    /// What a client is told: everything in development, a fixed sentence
    /// per kind of error elsewhere.
    pub open spec fn shown(self, details: bool) -> Seq<char> {
        if details {
            "Debug info: "@ + self.message()
        } else {
            match self {
                AppError::BadRequest(_) => bad_request_text(),
                AppError::NotFound(_) => not_found_text(),
                AppError::Internal(_) => internal_text(),
            }
        }
    }

    /// An error on the service's side.
    pub fn internal(e: &str) -> (r: Self)
        ensures
            r is Internal,
            r.message() == e@,
    {
        AppError::Internal(e.to_owned())
    }

    /// An error in what the client sent.
    pub fn bad_request(e: &str) -> (r: Self)
        ensures
            r is BadRequest,
            r.message() == e@,
    {
        AppError::BadRequest(e.to_owned())
    }

    /// An error about something that does not exist.
    pub fn not_found(e: &str) -> (r: Self)
        ensures
            r is NotFound,
            r.message() == e@,
    {
        AppError::NotFound(e.to_owned())
    }

    /// The status with which the error is answered: 400, 404 or 500.
    pub fn status_code(&self) -> (code: u16)
        ensures
            code == self.status(),
    {
        match self {
            AppError::BadRequest(_) => 400,
            AppError::NotFound(_) => 404,
            AppError::Internal(_) => 500,
        }
    }

    /// The title under which the error is answered.
    pub fn title(&self) -> (t: &'static str)
        ensures
            t@ == self.title_text(),
    {
        match self {
            AppError::BadRequest(_) => "Bad Request",
            AppError::NotFound(_) => "Not Found",
            AppError::Internal(_) => "Internal Server Error",
        }
    }

    /// The error in one line: its kind, a colon, and what went wrong.
    pub fn describe(&self) -> (line: String)
        ensures
            line@ == self.label() + self.message(),
    {
        match self {
            AppError::BadRequest(m) => "BadRequest: ".to_owned().concat(m.as_str()),
            AppError::NotFound(m) => "NotFound: ".to_owned().concat(m.as_str()),
            AppError::Internal(m) => "Internal: ".to_owned().concat(m.as_str()),
        }
    }

    /// What a client is told of the error.
    pub fn error_text(&self, details: bool) -> (text: String)
        ensures
            text@ == self.shown(details),
    {
        if details {
            match self {
                AppError::BadRequest(m) => "Debug info: ".to_owned().concat(m.as_str()),
                AppError::NotFound(m) => "Debug info: ".to_owned().concat(m.as_str()),
                AppError::Internal(m) => "Debug info: ".to_owned().concat(m.as_str()),
            }
        } else {
            match self {
                AppError::BadRequest(_) => "Invalid request".to_owned(),
                AppError::NotFound(_) => "Resource not found".to_owned(),
                AppError::Internal(_) => "An unexpected error occurred".to_owned(),
            }
        }
    }

    /// The body with which the error is answered in the environment named
    /// `app_env`: status and title of the error, and what went wrong in
    /// full only in development.
    pub fn error_body(&self, app_env: Option<&str>) -> (body: ErrorResponse)
        ensures
            !body.success,
            body.status_code == self.status(),
            body.message@ == self.title_text(),
            body.error@ == self.shown(shows_details(app_env)),
    {
        let details = match app_env {
            Some(name) => same_text(name, "development"),
            None => false,
        };
        let text = self.error_text(details);
        ErrorResponse::new(self.status_code(), self.title(), text.as_str())
    }
}

} // verus!
