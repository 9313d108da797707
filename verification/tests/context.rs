use fastapi_verified::context::{BodyLimitConfig, CancelledError, DEFAULT_MAX_BODY_SIZE};

#[test]
fn cancelled_error_display() {
    let err = CancelledError;
    assert_eq!(err.to_string(), "request cancelled");
}

#[test]
fn body_limit_config_default() {
    let config = BodyLimitConfig::default();
    assert_eq!(config.max_size(), DEFAULT_MAX_BODY_SIZE);
    assert_eq!(config.max_size(), 1024 * 1024);
}

#[test]
fn body_limit_config_custom() {
    let config = BodyLimitConfig::new(512 * 1024);
    assert_eq!(config.max_size(), 512 * 1024);
}
