use fastapi_verified::output::debug::{debug_flag_enabled, DEBUG_ENV_VAR};

#[test]
fn debug_flag_values() {
    assert!(debug_flag_enabled("1"));
    assert!(debug_flag_enabled("true"));
    assert!(debug_flag_enabled("TRUE"));
    assert!(debug_flag_enabled("True"));
    assert!(!debug_flag_enabled("0"));
    assert!(!debug_flag_enabled("yes"));
    assert!(!debug_flag_enabled(""));
    assert!(!debug_flag_enabled(" 1"));
    assert_eq!(DEBUG_ENV_VAR, "FASTAPI_OUTPUT_DEBUG");
}
