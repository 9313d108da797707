use fastapi_verified::api_router::{combine_paths, APIRouter, IncludeConfig, ResponseDef, RouterDependency};
use fastapi_verified::method::Method;

#[test]
fn test_combine_paths() {
    assert_eq!(combine_paths("", ""), "/");
    assert_eq!(combine_paths("", "/users"), "/users");
    assert_eq!(combine_paths("", "users"), "/users");
    assert_eq!(combine_paths("/api", ""), "/api");
    assert_eq!(combine_paths("/api", "/users"), "/api/users");
    assert_eq!(combine_paths("/api", "users"), "/api/users");
    assert_eq!(combine_paths("/api/", "/users"), "/api/users");
    assert_eq!(combine_paths("/api/", "users"), "/api/users");
}

#[test]
fn test_router_prefix_normalization() {
    let router = APIRouter::new().prefix("api");
    assert_eq!(router.get_prefix(), "/api");

    let router = APIRouter::new().prefix("/api/");
    assert_eq!(router.get_prefix(), "/api");

    let router = APIRouter::new().prefix("/api/v1");
    assert_eq!(router.get_prefix(), "/api/v1");
}

#[test]
fn test_router_tags() {
    let router = APIRouter::new().tags(vec!["users", "admin"]).tag("api");

    assert_eq!(router.get_tags(), &["users", "admin", "api"]);
}

#[test]
fn test_router_deprecated() {
    let router = APIRouter::new().deprecated(true);
    assert_eq!(router.is_deprecated(), Some(true));

    let router = APIRouter::new();
    assert_eq!(router.is_deprecated(), None);
}

#[test]
fn test_response_def() {
    let mut example = serde_json::Map::new();
    example.insert("id".to_string(), serde_json::Value::from(1));
    let example = serde_json::Value::Object(example);
    let def = ResponseDef::new("Success")
        .with_example(example.clone())
        .with_content_type("application/json");

    assert_eq!(def.description, "Success");
    assert_eq!(def.example, Some(example));
    assert_eq!(def.content_type, Some("application/json".to_string()));
}

#[test]
fn test_include_in_schema() {
    let router = APIRouter::new().include_in_schema(false);
    assert!(!router.get_include_in_schema());

    let router = APIRouter::new();
    assert!(router.get_include_in_schema());
}

#[test]
fn test_nested_routers_prefix_combination() {
    let inner = APIRouter::new().prefix("/items");
    assert_eq!(inner.get_prefix(), "/items");

    let outer = APIRouter::new().prefix("/api/v1").include_router(inner);

    assert_eq!(outer.get_prefix(), "/api/v1");
}

#[test]
fn test_router_with_responses() {
    let router = APIRouter::new()
        .response(200, ResponseDef::new("Success"))
        .response(404, ResponseDef::new("Not Found"));

    let responses = router.get_responses();
    assert_eq!(responses.len(), 2);
    assert!(responses.contains_key(&200));
    assert!(responses.contains_key(&404));
}

#[test]
fn test_router_dependency_creation() {
    let dep = RouterDependency::new("auth", 0);
    assert_eq!(dep.name, "auth");
}

#[test]
fn test_router_with_dependency() {
    let dep = RouterDependency::new("auth", 0);

    let router = APIRouter::new().dependency(dep);
    assert_eq!(router.get_dependencies().len(), 1);
    assert_eq!(router.get_dependencies()[0].name, "auth");
}

#[test]
fn test_router_multiple_dependencies() {
    let dep1 = RouterDependency::new("auth", 0);
    let dep2 = RouterDependency::new("rate_limit", 1);

    let router = APIRouter::new().dependencies(vec![dep1, dep2]);
    assert_eq!(router.get_dependencies().len(), 2);
}

#[test]
fn test_tag_merging_with_nested_routers() {
    let inner = APIRouter::new().tags(vec!["items"]);
    let outer = APIRouter::new().tags(vec!["api"]).include_router(inner);

    assert_eq!(outer.get_tags(), &["api"]);
}

#[test]
fn test_with_prefix_constructor() {
    let router = APIRouter::with_prefix("/api/v1");
    assert_eq!(router.get_prefix(), "/api/v1");
}

#[test]
fn test_empty_router() {
    let router = APIRouter::new();
    assert_eq!(router.get_prefix(), "");
    assert!(router.get_tags().is_empty());
    assert!(router.get_dependencies().is_empty());
    assert!(router.get_responses().is_empty());
    assert_eq!(router.is_deprecated(), None);
    assert!(router.get_include_in_schema());
    assert!(router.get_routes().is_empty());
}

#[test]
fn test_include_config_default() {
    let config = IncludeConfig::new();
    assert!(config.get_prefix().is_none());
    assert!(config.get_tags().is_empty());
    assert!(config.get_dependencies().is_empty());
    assert!(config.get_responses().is_empty());
    assert!(config.get_deprecated().is_none());
    assert!(config.get_include_in_schema().is_none());
}

#[test]
fn test_include_config_prefix() {
    let config = IncludeConfig::new().prefix("/api/v1");
    assert_eq!(config.get_prefix(), Some("/api/v1"));

    let config = IncludeConfig::new().prefix("api/v1");
    assert_eq!(config.get_prefix(), Some("/api/v1"));

    let config = IncludeConfig::new().prefix("/api/v1/");
    assert_eq!(config.get_prefix(), Some("/api/v1"));
}

#[test]
fn test_include_config_tags() {
    let config = IncludeConfig::new().tags(vec!["api", "v1"]).tag("extra");
    assert_eq!(config.get_tags(), &["api", "v1", "extra"]);
}

#[test]
fn test_include_config_dependencies() {
    let dep1 = RouterDependency::new("auth", 0);
    let dep2 = RouterDependency::new("rate_limit", 1);

    let config = IncludeConfig::new().dependency(dep1).dependency(dep2);
    assert_eq!(config.get_dependencies().len(), 2);
}

#[test]
fn test_include_config_responses() {
    let config = IncludeConfig::new()
        .response(401, ResponseDef::new("Unauthorized"))
        .response(500, ResponseDef::new("Server Error"));
    assert_eq!(config.get_responses().len(), 2);
}

#[test]
fn test_include_config_deprecated() {
    let config = IncludeConfig::new().deprecated(true);
    assert_eq!(config.get_deprecated(), Some(true));

    let config = IncludeConfig::new().deprecated(false);
    assert_eq!(config.get_deprecated(), Some(false));
}

#[test]
fn test_include_config_include_in_schema() {
    let config = IncludeConfig::new().include_in_schema(false);
    assert_eq!(config.get_include_in_schema(), Some(false));
}

#[test]
fn test_merge_rule_prefix_prepending() {
    let inner_router = APIRouter::new().prefix("/users");
    let config = IncludeConfig::new().prefix("/api/v1");

    let outer = APIRouter::new().include_router_with_config(inner_router, config);

    assert_eq!(outer.get_routes().len(), 0);
}

#[test]
fn test_merge_rule_tags_prepending() {
    let inner = APIRouter::new().tags(vec!["users"]);
    let config = IncludeConfig::new().tags(vec!["api", "v1"]);

    let outer = APIRouter::new().tags(vec!["outer"]).include_router_with_config(inner, config);

    assert_eq!(outer.get_tags(), &["outer"]);
}

#[test]
fn test_merge_rule_deprecated_override() {
    let inner = APIRouter::new().deprecated(false);
    let config = IncludeConfig::new().deprecated(true);

    let outer = APIRouter::new().include_router_with_config(inner, config);

    assert_eq!(outer.is_deprecated(), None);
}

#[test]
fn test_merge_rule_include_in_schema_override() {
    let inner = APIRouter::new().include_in_schema(true);
    let config = IncludeConfig::new().include_in_schema(false);

    let _outer = APIRouter::new().include_router_with_config(inner, config);
}

#[test]
fn test_merge_rule_responses_priority() {
    let inner = APIRouter::new()
        .response(200, ResponseDef::new("Router Success"))
        .response(404, ResponseDef::new("Router Not Found"));

    let config = IncludeConfig::new()
        .response(200, ResponseDef::new("Config Success"))
        .response(500, ResponseDef::new("Config Error"));

    let outer = APIRouter::new().include_router_with_config(inner, config);

    let responses = outer.get_responses();
    assert_eq!(responses.get(&200).unwrap().description, "Router Success");
    assert_eq!(responses.get(&500).unwrap().description, "Config Error");
    assert_eq!(responses.get(&404).unwrap().description, "Router Not Found");
}

#[test]
fn test_recursive_router_inclusion() {
    let level3 = APIRouter::new().prefix("/items");
    let level2 = APIRouter::new().prefix("/users").include_router(level3);
    let level1 = APIRouter::new().prefix("/api").include_router(level2);

    assert_eq!(level1.get_prefix(), "/api");
}

#[test]
fn test_recursive_config_merging() {
    let inner = APIRouter::new().tags(vec!["items"]);
    let middle_config = IncludeConfig::new().tags(vec!["users"]).prefix("/users");
    let outer_config = IncludeConfig::new().tags(vec!["api"]).prefix("/api");

    let middle = APIRouter::new().include_router_with_config(inner, middle_config);
    let outer = APIRouter::new().include_router_with_config(middle, outer_config);

    assert!(outer.get_tags().is_empty());
}

#[test]
fn test_include_config_empty_prefix() {
    let inner = APIRouter::new().prefix("/users");
    let config = IncludeConfig::new();

    let outer = APIRouter::new().prefix("/api").include_router_with_config(inner, config);

    assert_eq!(outer.get_prefix(), "/api");
}

#[test]
fn test_multi_level_path_construction() {
    let level1 = "/api";
    let level2 = "/v1";
    let level3 = "/users";
    let level4 = "/{id}";

    let combined_12 = combine_paths(level1, level2);
    assert_eq!(combined_12, "/api/v1");

    let combined_123 = combine_paths(&combined_12, level3);
    assert_eq!(combined_123, "/api/v1/users");

    let combined_1234 = combine_paths(&combined_123, level4);
    assert_eq!(combined_1234, "/api/v1/users/{id}");
}

// The merge rules, seen on the routes themselves.

#[test]
fn nested_routes_get_full_paths_and_merged_tags() {
    let level3 = APIRouter::new().prefix("/items").tags(vec!["items"]).get("/{id}", 7);
    let level2 = APIRouter::new().prefix("/users").include_router_with_config(
        level3,
        IncludeConfig::new().tags(vec!["cfg"]).dependency(RouterDependency::new("auth", 1)),
    );
    let routes = level2.get_routes();
    assert_eq!(routes.len(), 1);
    assert_eq!(routes[0].path, "/items/{id}");
    assert_eq!(routes[0].tags, vec!["cfg".to_string(), "items".to_string()]);
    assert_eq!(routes[0].dependencies.len(), 1);
    assert_eq!(routes[0].handler, 7);
    assert_eq!(routes[0].method, Method::Get);

    let level1 = APIRouter::new().prefix("/api").include_router(level2);
    let entries = level1.into_route_entries();
    assert_eq!(entries.len(), 1);
    assert_eq!(entries[0].path, "/api/users/items/{id}");
}

#[test]
fn deprecation_and_schema_overrides_apply_to_routes() {
    let inner = APIRouter::new()
        .deprecated(false)
        .post("/a", 0)
        .put("/b", 1);
    let outer = APIRouter::new().include_router_with_config(
        inner,
        IncludeConfig::new().deprecated(true).include_in_schema(false).prefix("v2/"),
    );
    let routes = outer.get_routes();
    assert_eq!(routes[0].deprecated, Some(true));
    assert!(!routes[0].include_in_schema);
    assert_eq!(routes[0].path, "/v2/a");
    assert_eq!(routes[1].path, "/v2/b");
    let entries = outer.into_route_entries();
    assert_eq!(entries.len(), 2);
    assert!(entries.iter().all(|e| !e.include_in_schema));
}

#[test]
fn route_entries_put_router_dependencies_first() {
    let router = APIRouter::new()
        .prefix("/api/")
        .dependency(RouterDependency::new("auth", 3))
        .delete("/x", 9)
        .route("y", Method::Patch, 4);
    let entries = router.into_route_entries();
    assert_eq!(entries.len(), 2);
    assert_eq!(entries[0].path, "/api/x");
    assert_eq!(entries[1].path, "/api/y");
    assert_eq!(entries[0].dependencies[0].handler, 3);
    assert_eq!(entries[1].method, Method::Patch);
}

#[test]
fn default_router_is_out_of_schema() {
    let router = APIRouter::default().options("/o", 0).head("/h", 1).patch("/p", 2);
    assert!(!router.get_include_in_schema());
    let entries = router.into_route_entries();
    assert_eq!(entries.len(), 3);
    assert!(entries.iter().all(|e| !e.include_in_schema));
}

#[test]
fn config_prefix_of_only_slashes() {
    assert_eq!(IncludeConfig::new().prefix("/").get_prefix(), Some("/"));
    assert_eq!(IncludeConfig::new().prefix("///").get_prefix(), Some(""));
    assert_eq!(IncludeConfig::new().prefix("").get_prefix(), None);
    assert_eq!(APIRouter::new().prefix("a//").get_prefix(), "/a/");
}

#[test]
fn responses_replace_and_response_adds() {
    let mut map = std::collections::HashMap::new();
    map.insert(418, ResponseDef::new("Teapot"));
    let router = APIRouter::new().response(200, ResponseDef::new("OK")).responses(map);
    assert_eq!(router.get_responses().len(), 1);
    assert!(router.get_responses().contains_key(&418));

    let mut map = std::collections::HashMap::new();
    map.insert(503, ResponseDef::new("Busy"));
    let config = IncludeConfig::new().response(200, ResponseDef::new("OK")).responses(map);
    assert_eq!(config.get_responses().len(), 1);
    assert!(config.get_responses().contains_key(&503));
}

#[test]
fn config_dependencies_replace() {
    let config = IncludeConfig::new()
        .dependency(RouterDependency::new("a", 0))
        .dependencies(vec![RouterDependency::new("b", 1), RouterDependency::new("c", 2)]);
    let names: Vec<&str> = config.get_dependencies().iter().map(|d| d.name.as_str()).collect();
    assert_eq!(names, vec!["b", "c"]);
    let router = APIRouter::new()
        .dependency(RouterDependency::new("a", 0))
        .dependencies(vec![RouterDependency::new("b", 1)]);
    let names: Vec<&str> = router.get_dependencies().iter().map(|d| d.name.as_str()).collect();
    assert_eq!(names, vec!["a", "b"]);
}

#[test]
fn hidden_routes_are_still_served() {
    let r = APIRouter::new().prefix("/api").get("/hidden", 5).include_in_schema(false);
    let entries = r.into_route_entries();
    assert_eq!(entries.len(), 1);
    assert_eq!(entries[0].method, Method::Get);
    assert_eq!(entries[0].path, "/api/hidden");
    assert!(!entries[0].include_in_schema);
    let shown = APIRouter::new().get("/x", 1).into_route_entries();
    assert!(shown[0].include_in_schema);
}
