//! Debug logging switch.
use vstd::prelude::*;
use crate::text::{str_eq, to_lowercase, unicode_lowercase};

verus! {

/// The environment variable that turns debug logging on.
pub const DEBUG_ENV_VAR: &'static str = "FASTAPI_OUTPUT_DEBUG";

/// Whether a value of the debug variable turns logging on: `1`, or `true` in
/// any case.
pub fn debug_flag_enabled(value: &str) -> (b: bool)
    ensures
        b == (value@ == "1"@ || unicode_lowercase(value@) == "true"@),
{
    if str_eq(value, "1") {
        return true;
    }
    let lower = to_lowercase(value);
    str_eq(lower.as_str(), "true")
}

} // verus!
