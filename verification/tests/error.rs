use imgpuller::error::AppError;
use imgpuller::model::{ApiResponse, ErrorResponse};

#[test]
fn constructors_keep_the_message() {
    assert_eq!(AppError::internal("db down"), AppError::Internal("db down".to_string()));
    assert_eq!(AppError::bad_request("image is required"), AppError::BadRequest("image is required".to_string()));
    assert_eq!(AppError::not_found("job not found"), AppError::NotFound("job not found".to_string()));
}

#[test]
fn status_codes_and_titles() {
    assert_eq!(AppError::bad_request("x").status_code(), 400);
    assert_eq!(AppError::not_found("x").status_code(), 404);
    assert_eq!(AppError::internal("x").status_code(), 500);
    assert_eq!(AppError::bad_request("x").title(), "Bad Request");
    assert_eq!(AppError::not_found("x").title(), "Not Found");
    assert_eq!(AppError::internal("x").title(), "Internal Server Error");
}

#[test]
fn one_line_descriptions() {
    assert_eq!(AppError::bad_request("image is required").describe(), "BadRequest: image is required");
    assert_eq!(AppError::not_found("job not found").describe(), "NotFound: job not found");
    assert_eq!(AppError::internal("db down").describe(), "Internal: db down");
    assert_eq!(AppError::internal("").describe(), "Internal: ");
}

#[test]
fn details_are_shown_only_in_development() {
    let e = AppError::internal("db down");
    assert_eq!(e.error_text(true), "Debug info: db down");
    assert_eq!(e.error_text(false), "An unexpected error occurred");
    assert_eq!(AppError::bad_request("x").error_text(false), "Invalid request");
    assert_eq!(AppError::not_found("x").error_text(false), "Resource not found");
    assert_eq!(AppError::bad_request("x").error_text(true), "Debug info: x");
    assert_eq!(AppError::not_found("y").error_text(true), "Debug info: y");
}

#[test]
fn error_bodies() {
    let e = AppError::not_found("job not found");
    assert_eq!(
        e.error_body(Some("development")),
        ErrorResponse {
            success: false,
            status_code: 404,
            message: "Not Found".to_string(),
            error: "Debug info: job not found".to_string(),
        }
    );
    assert_eq!(
        e.error_body(Some("production")),
        ErrorResponse {
            success: false,
            status_code: 404,
            message: "Not Found".to_string(),
            error: "Resource not found".to_string(),
        }
    );
    assert_eq!(e.error_body(None).error, "Resource not found");
    assert_eq!(e.error_body(Some("Development")).error, "Resource not found");
    assert_eq!(e.error_body(Some("")).error, "Resource not found");
    let e = AppError::bad_request("image is required");
    assert_eq!(e.error_body(None).status_code, 400);
    assert_eq!(e.error_body(None).message, "Bad Request");
    assert_eq!(e.error_body(None).error, "Invalid request");
    let e = AppError::internal("boom");
    assert_eq!(e.error_body(None).status_code, 500);
    assert_eq!(e.error_body(None).message, "Internal Server Error");
    assert_eq!(e.error_body(None).error, "An unexpected error occurred");
}

#[test]
fn envelopes() {
    let ok = ApiResponse::ok("job created", 7u32);
    assert!(ok.success);
    assert_eq!(ok.message, "job created");
    assert_eq!(ok.data, 7);
    let ok = ApiResponse::ok("", vec!["a".to_string()]);
    assert!(ok.success);
    assert_eq!(ok.message, "");
    assert_eq!(ok.data, vec!["a"]);
    let err = ErrorResponse::new(404, "Not Found", "No route found");
    assert!(!err.success);
    assert_eq!(err.status_code, 404);
    assert_eq!(err.message, "Not Found");
    assert_eq!(err.error, "No route found");
}
