//! The two envelopes in which the service answers: one around a payload,
//! one around an error.

use vstd::prelude::*;

verus! {

/// The envelope of a successful answer.
#[derive(Debug)]
pub struct ApiResponse<T> {
    pub success: bool,
    pub message: String,
    pub data: T,
}

impl<T> ApiResponse<T> {
    /// A successful answer that carries `data` under `message`.
    pub fn ok(message: &str, data: T) -> (r: Self)
        ensures
            r.success,
            r.message@ == message@,
            r.data == data,
    {
        ApiResponse { success: true, message: message.to_owned(), data }
    }
}

/// The envelope of an answer that reports an error.
#[derive(Debug, Clone, PartialEq, Eq)]
pub struct ErrorResponse {
    pub success: bool,
    pub status_code: u16,
    pub message: String,
    pub error: String,
}

/// What a client is told whose request could not be read.
pub open spec fn bad_json_text() -> Seq<char> {
    "Invalid JSON format or request payload size exceeded"@
}

/// What a client is told who asked for something that is not served.
pub open spec fn no_route_text() -> Seq<char> {
    "No route found"@
}

impl ErrorResponse {
    /// The answer to a request whose body is no JSON, or is too large.
    pub fn bad_request_json() -> (r: Self)
        ensures
            !r.success,
            r.status_code == 400,
            r.message@ == "Bad Request"@,
            r.error@ == bad_json_text(),
    {
        ErrorResponse::new(
            400,
            "Bad Request",
            "Invalid JSON format or request payload size exceeded",
        )
    }

    /// The answer to a request for something that is not served.
    pub fn not_found() -> (r: Self)
        ensures
            !r.success,
            r.status_code == 404,
            r.message@ == "Not Found"@,
            r.error@ == no_route_text(),
    {
        ErrorResponse::new(404, "Not Found", "No route found")
    }

    /// An answer that reports `error` under the title `message`, with the
    /// status `status_code`.
    pub fn new(status_code: u16, message: &str, error: &str) -> (r: Self)
        ensures
            !r.success,
            r.status_code == status_code,
            r.message@ == message@,
            r.error@ == error@,
    {
        ErrorResponse {
            success: false,
            status_code,
            message: message.to_owned(),
            error: error.to_owned(),
        }
    }
}

} // verus!
