use rustpress::http::{
    core_xmlrpc_registry, detect_endpoint_kind, normalize_path, parse_xmlrpc_method_name,
    xmlrpc_fault_response, xmlrpc_success_response, EndpointKind, XmlRpcPermission,
    XmlRpcRegistry,
};

#[test]
fn detects_login_endpoint() {
    assert_eq!(detect_endpoint_kind("/wp-login.php"), EndpointKind::Login);
}

#[test]
fn normalizes_double_slashes() {
    assert_eq!(normalize_path("wp-admin//admin-ajax.php"), "/wp-admin/admin-ajax.php");
}

#[test]
fn parses_xmlrpc_method_name() {
    let payload =
        "<?xml version=\"1.0\"?><methodCall><methodName>wp.getUsersBlogs</methodName></methodCall>";
    assert_eq!(parse_xmlrpc_method_name(payload), Some("wp.getUsersBlogs".to_string()));
}

#[test]
fn empty_xmlrpc_method_name_returns_none() {
    let payload = "<?xml version=\"1.0\"?><methodCall><methodName>   </methodName></methodCall>";
    assert_eq!(parse_xmlrpc_method_name(payload), None);
}

#[test]
fn xmlrpc_dispatch_requires_auth_when_needed() {
    let registry = core_xmlrpc_registry();
    let anonymous = registry.dispatch("wp.getUsersBlogs", false);
    assert!(!anonymous.success);
    assert_eq!(anonymous.fault_code, Some(403));

    let authenticated = registry.dispatch("wp.getUsersBlogs", true);
    assert!(authenticated.success);
}

#[test]
fn xmlrpc_public_method_dispatches_without_auth() {
    let registry = core_xmlrpc_registry();
    let result = registry.dispatch("demo.sayHello", false);
    assert!(result.success);
    assert_eq!(result.method_name, "demo.sayHello");
}

#[test]
fn xmlrpc_authenticated_content_methods_require_auth() {
    let registry = core_xmlrpc_registry();
    let anonymous = registry.dispatch("wp.newPost", false);
    assert!(!anonymous.success);
    assert_eq!(anonymous.fault_code, Some(403));

    let authenticated = registry.dispatch("wp.newPost", true);
    assert!(authenticated.success);
}

#[test]
fn xmlrpc_registry_contains_core_post_methods() {
    let registry = core_xmlrpc_registry();
    let method_names = registry
        .methods()
        .iter()
        .map(|method| method.name.as_str())
        .collect::<Vec<_>>();
    assert!(method_names.contains(&"wp.newPost"));
    assert!(method_names.contains(&"wp.editPost"));
    assert!(method_names.contains(&"wp.deletePost"));
}

#[test]
fn unknown_xmlrpc_method_returns_fault() {
    let registry = core_xmlrpc_registry();
    let result = registry.dispatch("unknown.method", false);
    assert_eq!(result.fault_code, Some(-32601));
}

// ---- further cases ----

#[test]
fn endpoint_kinds_and_names() {
    assert_eq!(detect_endpoint_kind("/xmlrpc.php"), EndpointKind::XmlRpc);
    assert_eq!(detect_endpoint_kind("/wp-admin/admin-ajax.php"), EndpointKind::AdminAjax);
    assert_eq!(detect_endpoint_kind("/some/page"), EndpointKind::Unknown);
    assert_eq!(detect_endpoint_kind("index.php"), EndpointKind::Frontend);
    assert_eq!(EndpointKind::Login.as_str(), "wp-login");
}

#[test]
fn normalize_path_edge_cases() {
    assert_eq!(normalize_path(""), "/");
    assert_eq!(normalize_path("   "), "/");
    assert_eq!(normalize_path("///a///b"), "/a/b");
}

#[test]
fn registry_first_registration_wins() {
    let mut registry = XmlRpcRegistry::new();
    registry.register("x.y", XmlRpcPermission::Authenticated);
    registry.register("x.y", XmlRpcPermission::Public);
    assert!(!registry.dispatch("x.y", false).success);
    assert_eq!(registry.methods().len(), 2);
}

#[test]
fn xmlrpc_responses_carry_method_and_fault() {
    let ok = xmlrpc_success_response("demo.sayHello");
    assert!(ok.contains("demo.sayHello"));
    let fault = xmlrpc_fault_response(403, "Forbidden");
    assert!(fault.contains("403"));
    assert!(fault.contains("Forbidden"));
}

#[test]
fn normalizing_twice_changes_nothing() {
    for path in ["", "   ", " wp-login.php ", "//wp-admin///admin-ajax.php", "/a/ ", "x//y//"] {
        let once = normalize_path(path);
        assert_eq!(normalize_path(&once), once);
        assert_eq!(detect_endpoint_kind(&once), detect_endpoint_kind(path));
    }
    assert_eq!(normalize_path(" //wp-cron.php "), "/wp-cron.php");
}

#[test]
fn normalized_paths_start_with_a_slash_and_hold_no_double_slash() {
    assert_eq!(normalize_path("wp-admin//admin-ajax.php"), "/wp-admin/admin-ajax.php");
    for path in ["", " x ", "///", "a//b///c", "/ok/"] {
        let n = normalize_path(path);
        assert!(n.starts_with('/'));
        assert!(!n.contains("//"));
        assert_eq!(n.trim(), n);
    }
}
