use fastapi_verified::dependency::{
    uses_request_cache, DefaultDependencyConfig, DependencyScope, Depends, DependsConfig, NoCache,
};

#[test]
fn default_config_caches_per_request() {
    assert!(DefaultDependencyConfig::use_cache());
    assert_eq!(DefaultDependencyConfig::scope(), None);
    assert!(uses_request_cache(DefaultDependencyConfig::use_cache(), DefaultDependencyConfig::scope()));
}

#[test]
fn no_cache_config_never_caches() {
    assert!(!NoCache::use_cache());
    assert_eq!(NoCache::scope(), Some(DependencyScope::Function));
    assert!(!uses_request_cache(NoCache::use_cache(), NoCache::scope()));
}

#[test]
fn function_scope_disables_cache() {
    assert!(!uses_request_cache(true, Some(DependencyScope::Function)));
    assert!(uses_request_cache(true, Some(DependencyScope::Request)));
    assert!(!uses_request_cache(false, Some(DependencyScope::Request)));
    assert!(!uses_request_cache(false, None));
}

#[test]
fn depends_wraps_and_unwraps() {
    let d: Depends<u32> = Depends::new(5);
    assert_eq!(d.0, 5);
    assert_eq!(d.into_inner(), 5);
    let n: Depends<&str, NoCache> = Depends::new("x");
    assert_eq!(n.into_inner(), "x");
}

#[test]
fn depends_derefs_to_value() {
    let d: Depends<String> = Depends::new("abc".to_string());
    assert_eq!(d.len(), 3);
    assert_eq!(&*d, "abc");
}
