use rustpress::rest::{
    core_seed_routes, AuthRequirement, RestBody, RestRequest, RestRouteRegistry,
};

#[test]
fn has_seed_routes() {
    let registry = core_seed_routes();
    assert!(!registry.all().is_empty());
}

#[test]
fn public_route_dispatches_successfully() {
    let registry = core_seed_routes();
    let request = RestRequest::new("GET", "/wp-json/wp/v2/posts");
    let result = registry.dispatch(&request);
    assert_eq!(result.status_code, 200);
}

#[test]
fn protected_route_requires_capability() {
    let registry = core_seed_routes();
    let mut request = RestRequest::new("POST", "/wp-json/wp/v2/posts");
    request.authenticated = true;
    let forbidden = registry.dispatch(&request);
    assert_eq!(forbidden.status_code, 403);

    request.capabilities.push("edit_posts".to_string());
    let ok = registry.dispatch(&request);
    assert_eq!(ok.status_code, 200);
}

#[test]
fn capability_route_requires_authentication_before_capability_check() {
    let registry = core_seed_routes();
    let request = RestRequest::new("POST", "/wp-json/wp/v2/posts");
    let result = registry.dispatch(&request);
    assert_eq!(result.status_code, 401);
}

#[test]
fn authenticated_route_requires_login() {
    let registry = core_seed_routes();
    let request = RestRequest::new("GET", "/wp-json/wp/v2/users/me");
    let unauthorized = registry.dispatch(&request);
    assert_eq!(unauthorized.status_code, 401);
}

#[test]
fn authenticated_route_allows_logged_in_request() {
    let registry = core_seed_routes();
    let mut request = RestRequest::new("GET", "/wp-json/wp/v2/users/me");
    request.authenticated = true;
    let result = registry.dispatch(&request);
    assert_eq!(result.status_code, 200);
}

fn allow_of(body: &RestBody) -> &Vec<String> {
    body.allow().expect("allow list should be present")
}

#[test]
fn returns_method_not_allowed_for_known_path() {
    let registry = core_seed_routes();
    let request = RestRequest::new("DELETE", "/wp-json/wp/v2/posts");
    let result = registry.dispatch(&request);
    assert_eq!(result.status_code, 405);
    let allow = allow_of(&result.body);
    assert!(allow.contains(&"GET".to_string()));
    assert!(allow.contains(&"POST".to_string()));
    assert!(allow.contains(&"HEAD".to_string()));
    assert!(allow.contains(&"OPTIONS".to_string()));
}

#[test]
fn returns_not_found_for_unknown_path() {
    let registry = core_seed_routes();
    let request = RestRequest::new("GET", "/wp-json/wp/v2/unknown");
    let result = registry.dispatch(&request);
    assert_eq!(result.status_code, 404);
}

#[test]
fn settings_route_requires_manage_options_capability() {
    let registry = core_seed_routes();
    let mut request = RestRequest::new("GET", "/wp-json/wp/v2/settings");
    request.authenticated = true;
    let forbidden = registry.dispatch(&request);
    assert_eq!(forbidden.status_code, 403);

    request.capabilities.push("manage_options".to_string());
    let allowed = registry.dispatch(&request);
    assert_eq!(allowed.status_code, 200);
}

#[test]
fn dynamic_post_route_extracts_path_parameter() {
    let registry = core_seed_routes();
    let request = RestRequest::new("GET", "/wp-json/wp/v2/posts/42");
    let result = registry.dispatch(&request);
    assert_eq!(result.status_code, 200);
    assert_eq!(result.body.param("id"), Some(&"42".to_string()));
}

#[test]
fn dynamic_delete_route_requires_delete_posts_capability() {
    let registry = core_seed_routes();
    let mut request = RestRequest::new("DELETE", "/wp-json/wp/v2/posts/42");
    request.authenticated = true;
    let forbidden = registry.dispatch(&request);
    assert_eq!(forbidden.status_code, 403);

    request.capabilities.push("delete_posts".to_string());
    let allowed = registry.dispatch(&request);
    assert_eq!(allowed.status_code, 200);
    assert_eq!(allowed.body.param("id"), Some(&"42".to_string()));
}

#[test]
fn dynamic_comment_delete_route_requires_moderate_comments_capability() {
    let registry = core_seed_routes();
    let mut request = RestRequest::new("DELETE", "/wp-json/wp/v2/comments/9");
    request.authenticated = true;
    let forbidden = registry.dispatch(&request);
    assert_eq!(forbidden.status_code, 403);

    request.capabilities.push("moderate_comments".to_string());
    let allowed = registry.dispatch(&request);
    assert_eq!(allowed.status_code, 200);
    assert_eq!(allowed.body.param("id"), Some(&"9".to_string()));
}

#[test]
fn head_request_dispatches_against_get_routes() {
    let registry = core_seed_routes();
    let request = RestRequest::new("HEAD", "/wp-json/wp/v2/posts");
    let result = registry.dispatch(&request);
    assert_eq!(result.status_code, 200);
    assert_eq!(result.body.method(), Some("HEAD".to_string()));
}

#[test]
fn dispatch_normalizes_trailing_slashes() {
    let registry = core_seed_routes();
    let request = RestRequest::new("GET", "/wp-json/wp/v2/posts/");
    let result = registry.dispatch(&request);
    assert_eq!(result.status_code, 200);
    assert_eq!(result.body.route(), Some(&"/wp-json/wp/v2/posts".to_string()));
}

#[test]
fn options_request_returns_allowed_methods_for_matching_path() {
    let registry = core_seed_routes();
    let request = RestRequest::new("OPTIONS", "/wp-json/wp/v2/posts");
    let result = registry.dispatch(&request);
    assert_eq!(result.status_code, 200);
    assert_eq!(result.body.method(), Some("OPTIONS".to_string()));

    let allow = allow_of(&result.body);
    assert!(allow.contains(&"GET".to_string()));
    assert!(allow.contains(&"POST".to_string()));
    assert!(allow.contains(&"HEAD".to_string()));
    assert!(allow.contains(&"OPTIONS".to_string()));
}

#[test]
fn options_request_reports_allowed_methods_for_dynamic_path() {
    let registry = core_seed_routes();
    let request = RestRequest::new("OPTIONS", "/wp-json/wp/v2/posts/42");
    let result = registry.dispatch(&request);
    assert_eq!(result.status_code, 200);
    let allow = allow_of(&result.body);
    assert!(allow.contains(&"GET".to_string()));
    assert!(allow.contains(&"DELETE".to_string()));
    assert!(allow.contains(&"HEAD".to_string()));
    assert!(allow.contains(&"OPTIONS".to_string()));
}

#[test]
fn method_not_allowed_for_dynamic_path_includes_allow_matrix() {
    let registry = core_seed_routes();
    let request = RestRequest::new("POST", "/wp-json/wp/v2/posts/42");
    let result = registry.dispatch(&request);
    assert_eq!(result.status_code, 405);
    let allow = allow_of(&result.body);
    assert!(allow.contains(&"GET".to_string()));
    assert!(allow.contains(&"DELETE".to_string()));
    assert!(allow.contains(&"HEAD".to_string()));
    assert!(allow.contains(&"OPTIONS".to_string()));
}

#[test]
fn head_request_matches_dynamic_get_routes() {
    let registry = core_seed_routes();
    let request = RestRequest::new("HEAD", "/wp-json/wp/v2/posts/42");
    let result = registry.dispatch(&request);
    assert_eq!(result.status_code, 200);
    assert_eq!(result.body.method(), Some("HEAD".to_string()));
    assert_eq!(result.body.param("id"), Some(&"42".to_string()));
}

#[test]
fn contract_document_contains_paths() {
    let registry = core_seed_routes();
    let contract = registry.contract_document();
    assert!(!contract.paths.is_empty());
    assert!(contract.operation("/wp-json/wp/v2/posts", "get").is_some());
}

// ---- further cases ----

#[test]
fn allow_list_is_sorted_without_repeats() {
    let registry = core_seed_routes();
    let result = registry.dispatch(&RestRequest::new("PUT", "/wp-json/wp/v2/posts"));
    assert_eq!(
        allow_of(&result.body),
        &vec!["GET".to_string(), "HEAD".to_string(), "OPTIONS".to_string(), "POST".to_string()]
    );
    assert_eq!(result.error_code.as_deref(), Some("rest_no_route"));
}

#[test]
fn method_is_trimmed_and_upper_cased() {
    let registry = core_seed_routes();
    let result = registry.dispatch(&RestRequest::new(" get ", "wp-json/wp/v2/posts"));
    assert_eq!(result.status_code, 200);
    assert_eq!(result.body.method(), Some("GET".to_string()));
    assert_eq!(result.body.route(), Some(&"/wp-json/wp/v2/posts".to_string()));
}

#[test]
fn not_found_body_and_codes() {
    let registry = core_seed_routes();
    let result = registry.dispatch(&RestRequest::new("OPTIONS", "/nowhere"));
    assert_eq!(result.status_code, 404);
    match result.body {
        RestBody::Error { code, message } => {
            assert_eq!(code, "rest_no_route");
            assert_eq!(message, "No route was found matching the URL and request method.");
        }
        other => panic!("unexpected {other:?}"),
    }
}

#[test]
fn repeated_parameter_name_keeps_last_segment() {
    let mut registry = RestRouteRegistry::default();
    registry.register("/a/{x}/{x}", &["GET"], "twice", AuthRequirement::Public);
    let result = registry.dispatch(&RestRequest::new("GET", "/a/1/2"));
    assert_eq!(result.status_code, 200);
    assert_eq!(result.body.param("x"), Some(&"2".to_string()));
    // An empty `{}` segment is literal.
    registry.register("/b/{}", &["GET"], "literal", AuthRequirement::Public);
    assert_eq!(registry.dispatch(&RestRequest::new("GET", "/b/7")).status_code, 404);
    assert_eq!(registry.dispatch(&RestRequest::new("GET", "/b/{}")).status_code, 200);
}

#[test]
fn contract_document_lists_lowercase_methods_with_auth_text() {
    let registry = core_seed_routes();
    let contract = registry.contract_document();
    assert_eq!(contract.openapi, "3.0.0");
    let posts = contract.operation("/wp-json/wp/v2/posts", "post").expect("post operation");
    assert_eq!(posts.summary, "Create post");
    assert_eq!(posts.auth_requirement, "capability:edit_posts");
    let me = contract.operation("/wp-json/wp/v2/users/me", "get").expect("me operation");
    assert_eq!(me.auth_requirement, "authenticated");
    let paths: Vec<&str> = contract.paths.iter().map(|p| p.path.as_str()).collect();
    let mut sorted = paths.clone();
    sorted.sort();
    assert_eq!(paths, sorted);
    assert_eq!(paths.len(), 8);
}
