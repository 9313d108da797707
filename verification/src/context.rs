//! Request-scoped configuration.
use vstd::prelude::*;

verus! {

/// Default maximum body size: 1MB.
pub const DEFAULT_MAX_BODY_SIZE: usize = 1048576;

/// Configuration for request body limits: set for the application and
/// possibly overridden per route.
#[derive(Debug, Clone, Copy)]
pub struct BodyLimitConfig {
    max_size: usize,
}

impl View for BodyLimitConfig {
    type V = usize;

    closed spec fn view(&self) -> usize {
        self.max_size
    }
}

impl Default for BodyLimitConfig {
    /// The default limit of 1MB.
    fn default() -> (c: Self)
        ensures
            c@ == DEFAULT_MAX_BODY_SIZE,
    {
        BodyLimitConfig { max_size: DEFAULT_MAX_BODY_SIZE }
    }
}

impl BodyLimitConfig {
    /// A limit of `max_size` bytes.
    pub fn new(max_size: usize) -> (c: Self)
        ensures
            c@ == max_size,
    {
        BodyLimitConfig { max_size }
    }

    /// The maximum body size in bytes.
    pub fn max_size(&self) -> (n: usize)
        ensures
            n == self@,
    {
        self.max_size
    }
}

/// The request was cancelled.
#[derive(Debug, Clone, Copy)]
pub struct CancelledError;

impl CancelledError {
    /// "request cancelled".
    pub fn to_string(&self) -> (s: String)
        ensures
            s@ == "request cancelled"@,
    {
        String::from_str("request cancelled")
    }
}

} // verus!
