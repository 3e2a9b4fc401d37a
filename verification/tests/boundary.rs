use heartbeat::api::{bearer_token, status_and_message, ApiError};
use heartbeat::store::CoreError;

#[test]
fn bearer_token_extraction() {
    assert_eq!(bearer_token("Bearer abc123"), Some("abc123"));
    assert_eq!(bearer_token("Bearer "), None);
    assert_eq!(bearer_token("Basic abc123"), None);
    assert_eq!(bearer_token(""), None);
    assert_eq!(bearer_token("bearer abc123"), None);
}

#[test]
fn error_statuses_and_messages() {
    assert_eq!(
        status_and_message(&ApiError::Unauthorized),
        (401, "Invalid or missing API key".to_string())
    );
    assert_eq!(
        status_and_message(&ApiError::InvalidSlug("bad".to_string())),
        (400, "bad".to_string())
    );
    assert_eq!(
        status_and_message(&ApiError::InvalidInterval("why".to_string())),
        (400, "why".to_string())
    );
    assert_eq!(
        status_and_message(&ApiError::NotFound("svc".to_string())),
        (404, "svc".to_string())
    );
    assert_eq!(
        status_and_message(&ApiError::Internal),
        (500, "Internal server error".to_string())
    );
}

#[test]
fn core_errors_surface_as_api_errors() {
    match ApiError::from(CoreError::NotFound("svc".to_string())) {
        ApiError::NotFound(m) => assert_eq!(m, "svc"),
        other => panic!("expected NotFound, got {:?}", other),
    }
    assert!(matches!(
        ApiError::from(CoreError::Storage("boom".to_string())),
        ApiError::Internal
    ));
}
