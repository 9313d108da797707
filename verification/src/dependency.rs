//! Dependency injection: the configuration that decides whether a resolved
//! dependency is shared through the request's cache.
use vstd::prelude::*;
use std::marker::PhantomData;

verus! {

/// How long a resolved dependency lives.
#[derive(Debug, Clone, Copy, PartialEq, Eq, Structural)]
pub enum DependencyScope {
    /// Resolved anew for each use.
    Function,
    /// Resolved once per request and shared through its cache.
    Request,
}

/// Configuration of a dependency.
pub trait DependsConfig {
    /// Whether to use the request cache.
    fn use_cache() -> bool;

    /// The scope, if one is set (request scope otherwise).
    fn scope() -> Option<DependencyScope>;
}

/// Cache within the request.
#[derive(Debug, Clone, Copy)]
pub struct DefaultDependencyConfig;

/// The default configuration.
pub type DefaultConfig = DefaultDependencyConfig;

impl DependsConfig for DefaultDependencyConfig {
    fn use_cache() -> (b: bool)
        ensures
            b,
    {
        true
    }

    fn scope() -> (s: Option<DependencyScope>)
        ensures
            s is None,
    {
        None
    }
}

/// Resolve anew each time.
#[derive(Debug, Clone, Copy)]
pub struct NoCache;

impl DependsConfig for NoCache {
    fn use_cache() -> (b: bool)
        ensures
            !b,
    {
        false
    }

    fn scope() -> (s: Option<DependencyScope>)
        ensures
            s == Some(DependencyScope::Function),
    {
        Some(DependencyScope::Function)
    }
}

/// Whether a dependency is read from and stored in the request cache: it
/// asks for caching and its scope, request scope when none is set, is the
/// request.
pub fn uses_request_cache(use_cache: bool, scope: Option<DependencyScope>) -> (b: bool)
    ensures
        b == (use_cache && match scope {
            Some(s) => s == DependencyScope::Request,
            None => true,
        }),
{
    let scope = match scope {
        Some(s) => s,
        None => DependencyScope::Request,
    };
    use_cache && scope == DependencyScope::Request
}

/// A resolved dependency of type `T` under configuration `C`.
#[derive(Debug)]
pub struct Depends<T, C = DefaultDependencyConfig>(pub T, PhantomData<C>);

impl<T, C> Depends<T, C> {
    /// The wrapped value.
    pub closed spec fn value(&self) -> T {
        self.0
    }

    /// Wraps a value.
    pub fn new(value: T) -> (d: Self)
        ensures
            d.value() == value,
    {
        Depends(value, PhantomData)
    }

    /// The wrapped value.
    pub fn into_inner(self) -> (v: T)
        ensures
            v == self.value(),
    {
        self.0
    }
}

impl<T, C> std::ops::Deref for Depends<T, C> {
    type Target = T;

    fn deref(&self) -> (r: &T)
        ensures
            *r == self.value(),
    {
        &self.0
    }
}

} // verus!
