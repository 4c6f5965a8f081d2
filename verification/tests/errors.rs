use folkmoot::errors::{ApiError, ApiErrorBody, ErrorCode};

#[test]
fn statuses_of_codes() {
    assert_eq!(ErrorCode::Unauthorized.http_status(), 401);
    assert_eq!(ErrorCode::Forbidden.http_status(), 403);
    assert_eq!(ErrorCode::CsrfRejected.http_status(), 403);
    assert_eq!(ErrorCode::NotFound.http_status(), 404);
    assert_eq!(ErrorCode::Conflict.http_status(), 409);
    assert_eq!(ErrorCode::PayloadTooLarge.http_status(), 413);
    assert_eq!(ErrorCode::UnsupportedMediaType.http_status(), 415);
    assert_eq!(ErrorCode::ValidationError.http_status(), 422);
    assert_eq!(ErrorCode::Internal.http_status(), 500);
}

#[test]
fn error_constructors() {
    assert_eq!(ApiError::unauthorized("a").code, ErrorCode::Unauthorized);
    assert_eq!(ApiError::forbidden("b").code, ErrorCode::Forbidden);
    assert_eq!(ApiError::not_found("c").code, ErrorCode::NotFound);
    assert_eq!(ApiError::conflict("d").code, ErrorCode::Conflict);
    assert_eq!(ApiError::validation("e").code, ErrorCode::ValidationError);
    let e = ApiError::internal("boom");
    assert_eq!(e.code, ErrorCode::Internal);
    assert_eq!(e.message, "boom");
    let b = e.body();
    assert_eq!(b.error.code, ErrorCode::Internal);
    assert_eq!(b.error.message, "boom");
    assert!(b.error.details.is_none());
    let b = ApiErrorBody::new(ErrorCode::Conflict, "taken");
    assert_eq!(b.error.message, "taken");
}

#[test]
fn wire_names_are_snake_case() {
    assert_eq!(ErrorCode::Unauthorized.wire_name(), "unauthorized");
    assert_eq!(ErrorCode::CsrfRejected.wire_name(), "csrf_rejected");
    assert_eq!(ErrorCode::NotFound.wire_name(), "not_found");
    assert_eq!(ErrorCode::PayloadTooLarge.wire_name(), "payload_too_large");
    assert_eq!(ErrorCode::UnsupportedMediaType.wire_name(), "unsupported_media_type");
    assert_eq!(ErrorCode::ValidationError.wire_name(), "validation_error");
    assert_eq!(ErrorCode::Internal.wire_name(), "internal");
    assert_eq!(ErrorCode::Forbidden.wire_name(), "forbidden");
    assert_eq!(ErrorCode::Conflict.wire_name(), "conflict");
}
