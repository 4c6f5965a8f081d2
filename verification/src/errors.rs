//! The uniform error body `{ "error": { "code", "message", "details" } }`,
//! its codes and their HTTP statuses, and the server's error value.

use vstd::prelude::*;

use crate::text::to_owned_string;

verus! {

/// Error codes of the uniform error body (wire names are snake_case).
#[derive(Debug, Clone, Copy, PartialEq, Eq, Structural)]
pub enum ErrorCode {
    Unauthorized,
    Forbidden,
    CsrfRejected,
    NotFound,
    Conflict,
    PayloadTooLarge,
    UnsupportedMediaType,
    ValidationError,
    Internal,
}

/// The HTTP status that answers an error code.
pub open spec fn status_of(code: ErrorCode) -> u16 {
    match code {
        ErrorCode::Unauthorized => 401,
        ErrorCode::Forbidden => 403,
        ErrorCode::CsrfRejected => 403,
        ErrorCode::NotFound => 404,
        ErrorCode::Conflict => 409,
        ErrorCode::PayloadTooLarge => 413,
        ErrorCode::UnsupportedMediaType => 415,
        ErrorCode::ValidationError => 422,
        ErrorCode::Internal => 500,
    }
}

impl ErrorCode {
    pub fn http_status(self) -> (s: u16)
        ensures
            s == status_of(self),
            400 <= s < 600,
    {
        match self {
            ErrorCode::Unauthorized => 401,
            ErrorCode::Forbidden | ErrorCode::CsrfRejected => 403,
            ErrorCode::NotFound => 404,
            ErrorCode::Conflict => 409,
            ErrorCode::PayloadTooLarge => 413,
            ErrorCode::UnsupportedMediaType => 415,
            ErrorCode::ValidationError => 422,
            ErrorCode::Internal => 500,
        }
    }
}

/// The name of an error code on the wire (snake_case).
pub open spec fn wire_name_spec(code: ErrorCode) -> Seq<char> {
    match code {
        ErrorCode::Unauthorized => "unauthorized"@,
        ErrorCode::Forbidden => "forbidden"@,
        ErrorCode::CsrfRejected => "csrf_rejected"@,
        ErrorCode::NotFound => "not_found"@,
        ErrorCode::Conflict => "conflict"@,
        ErrorCode::PayloadTooLarge => "payload_too_large"@,
        ErrorCode::UnsupportedMediaType => "unsupported_media_type"@,
        ErrorCode::ValidationError => "validation_error"@,
        ErrorCode::Internal => "internal"@,
    }
}

impl ErrorCode {
    pub fn wire_name(self) -> (s: &'static str)
        ensures
            s@ == wire_name_spec(self),
    {
        match self {
            ErrorCode::Unauthorized => "unauthorized",
            ErrorCode::Forbidden => "forbidden",
            ErrorCode::CsrfRejected => "csrf_rejected",
            ErrorCode::NotFound => "not_found",
            ErrorCode::Conflict => "conflict",
            ErrorCode::PayloadTooLarge => "payload_too_large",
            ErrorCode::UnsupportedMediaType => "unsupported_media_type",
            ErrorCode::ValidationError => "validation_error",
            ErrorCode::Internal => "internal",
        }
    }
}

/// Every error code is answered with a client-error (4xx) status, except
/// `Internal`, which is answered with 500.
pub proof fn law_status_classes(code: ErrorCode)
    ensures
        code == ErrorCode::Internal <==> status_of(code) == 500,
        code != ErrorCode::Internal ==> 400 <= status_of(code) < 500,
{
}

#[verifier::external_type_specification]
#[verifier::external_body]
pub struct ExJsonValue(serde_json::Value);

/// The inner object of the uniform error body.
#[derive(Debug, Clone)]
pub struct ApiErrorInner {
    pub code: ErrorCode,
    pub message: String,
    pub details: Option<serde_json::Value>,
}

/// The uniform error body.
#[derive(Debug, Clone)]
pub struct ApiErrorBody {
    pub error: ApiErrorInner,
}

impl ApiErrorBody {
    pub fn new(code: ErrorCode, message: &str) -> (b: Self)
        ensures
            b.error.code == code,
            b.error.message@ == message@,
            b.error.details is None,
    {
        ApiErrorBody {
            error: ApiErrorInner { code, message: to_owned_string(message), details: None },
        }
    }
}

/// The server's error value: a code and a human-readable message.
#[derive(Debug, Clone)]
pub struct ApiError {
    pub code: ErrorCode,
    pub message: String,
}

impl ApiError {
    pub fn new(code: ErrorCode, message: &str) -> (e: Self)
        ensures
            e.code == code,
            e.message@ == message@,
    {
        ApiError { code, message: to_owned_string(message) }
    }

    pub fn unauthorized(message: &str) -> (e: Self)
        ensures
            e.code == ErrorCode::Unauthorized,
            e.message@ == message@,
    {
        Self::new(ErrorCode::Unauthorized, message)
    }

    pub fn forbidden(message: &str) -> (e: Self)
        ensures
            e.code == ErrorCode::Forbidden,
            e.message@ == message@,
    {
        Self::new(ErrorCode::Forbidden, message)
    }

    pub fn not_found(message: &str) -> (e: Self)
        ensures
            e.code == ErrorCode::NotFound,
            e.message@ == message@,
    {
        Self::new(ErrorCode::NotFound, message)
    }

    pub fn conflict(message: &str) -> (e: Self)
        ensures
            e.code == ErrorCode::Conflict,
            e.message@ == message@,
    {
        Self::new(ErrorCode::Conflict, message)
    }

    pub fn validation(message: &str) -> (e: Self)
        ensures
            e.code == ErrorCode::ValidationError,
            e.message@ == message@,
    {
        Self::new(ErrorCode::ValidationError, message)
    }

    pub fn internal(message: &str) -> (e: Self)
        ensures
            e.code == ErrorCode::Internal,
            e.message@ == message@,
    {
        Self::new(ErrorCode::Internal, message)
    }

    /// The body that answers this error.
    pub fn body(&self) -> (b: ApiErrorBody)
        ensures
            b.error.code == self.code,
            b.error.message@ == self.message@,
            b.error.details is None,
    {
        ApiErrorBody::new(self.code, self.message.as_str())
    }
}

} // verus!
