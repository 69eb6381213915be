use rustpress::admin::{
    core_admin_actions, extract_action, AdminActionRegistry, AdminAuth, AdminBody, AdminRequest,
    AdminSurface,
};

#[test]
fn extracts_action_if_present() {
    let action = extract_action(&[("foo", "bar"), ("action", "heartbeat")]);
    assert_eq!(action, Some("heartbeat".to_string()));
}

#[test]
fn rejects_missing_action_parameter() {
    let registry = core_admin_actions();
    let request = AdminRequest::new(AdminSurface::Ajax, "");
    let result = registry.dispatch(&request);
    assert_eq!(result.status_code, 400);
    assert_eq!(result.error_code.as_deref(), Some("invalid_action"));
}

#[test]
fn rejects_unknown_action_for_surface() {
    let registry = core_admin_actions();
    let request = AdminRequest::new(AdminSurface::Ajax, "unknown-action");
    let result = registry.dispatch(&request);
    assert_eq!(result.status_code, 404);
    assert_eq!(result.error_code.as_deref(), Some("unknown_action"));
}

#[test]
fn rejects_missing_nonce_for_ajax_action() {
    let registry = core_admin_actions();
    let mut request = AdminRequest::new(AdminSurface::Ajax, "heartbeat");
    request.authenticated = true;
    let result = registry.dispatch(&request);
    assert_eq!(result.status_code, 403);
}

#[test]
fn allows_nopriv_action_for_logged_out_request() {
    let registry = core_admin_actions();
    let request = AdminRequest::new(AdminSurface::Ajax, "logged-out");
    let result = registry.dispatch(&request);
    assert_eq!(result.status_code, 200);
}

#[test]
fn enforces_capability_for_admin_post() {
    let registry = core_admin_actions();
    let mut request = AdminRequest::new(AdminSurface::AdminPost, "save_post");
    request.authenticated = true;
    request.nonce_present = true;
    request.nonce_valid = true;
    let forbidden = registry.dispatch(&request);
    assert_eq!(forbidden.status_code, 403);

    request.capabilities.push("edit_posts".to_string());
    let allowed = registry.dispatch(&request);
    assert_eq!(allowed.status_code, 200);
}

#[test]
fn enforces_comment_moderation_capability_for_ajax_comment_delete() {
    let registry = core_admin_actions();
    let mut request = AdminRequest::new(AdminSurface::Ajax, "delete-comment");
    request.authenticated = true;
    request.nonce_present = true;
    request.nonce_valid = true;

    let forbidden = registry.dispatch(&request);
    assert_eq!(forbidden.status_code, 403);

    request.capabilities.push("moderate_comments".to_string());
    let allowed = registry.dispatch(&request);
    assert_eq!(allowed.status_code, 200);
}

#[test]
fn enforces_edit_users_capability_for_admin_post_update_user() {
    let registry = core_admin_actions();
    let mut request = AdminRequest::new(AdminSurface::AdminPost, "update-user");
    request.authenticated = true;
    request.nonce_present = true;
    request.nonce_valid = true;

    let forbidden = registry.dispatch(&request);
    assert_eq!(forbidden.status_code, 403);

    request.capabilities.push("edit_users".to_string());
    let allowed = registry.dispatch(&request);
    assert_eq!(allowed.status_code, 200);
}

#[test]
fn extract_action_is_case_insensitive_and_trims() {
    assert_eq!(
        extract_action(&[("ACTION", "  heartbeat  ")]),
        Some("heartbeat".to_string())
    );
    // The first matching key decides, even when its value is blank.
    assert_eq!(extract_action(&[("action", "   "), ("action", "later")]), None);
    assert_eq!(extract_action(&[("foo", "bar")]), None);
}

#[test]
fn dispatch_success_body_names_surface_and_trimmed_action() {
    let registry = core_admin_actions();
    let request = AdminRequest::new(AdminSurface::Ajax, "  logged-out ");
    let result = registry.dispatch(&request);
    assert_eq!(result.status_code, 200);
    assert!(result.error_code.is_none());
    match result.body {
        AdminBody::Success { surface, action } => {
            assert_eq!(surface, AdminSurface::Ajax);
            assert_eq!(action, "logged-out");
        }
        other => panic!("unexpected body {other:?}"),
    }
}

#[test]
fn dispatch_requires_login_before_capability() {
    let registry = core_admin_actions();
    let mut request = AdminRequest::new(AdminSurface::AdminPost, "save_post");
    request.nonce_valid = true;
    let result = registry.dispatch(&request);
    assert_eq!(result.status_code, 401);
    assert_eq!(result.error_code.as_deref(), Some("not_logged_in"));
    match result.body {
        AdminBody::Error { code, message } => {
            assert_eq!(code, "not_logged_in");
            assert_eq!(message, "Authentication required.");
        }
        other => panic!("unexpected body {other:?}"),
    }
}

#[test]
fn actions_are_per_surface() {
    let registry = core_admin_actions();
    let request = AdminRequest::new(AdminSurface::AdminPost, "heartbeat");
    assert_eq!(registry.dispatch(&request).status_code, 404);
}

#[test]
fn contract_map_groups_names_by_sorted_surface_key() {
    let registry = core_admin_actions();
    let contract = registry.contract_map();
    let keys: Vec<&str> = contract.entries.iter().map(|(k, _)| k.as_str()).collect();
    assert_eq!(keys, vec!["adminpost", "ajax", "asyncupload"]);
    assert_eq!(
        contract.get("ajax"),
        Some(&vec![
            "heartbeat".to_string(),
            "rest-nonce".to_string(),
            "logged-out".to_string(),
            "delete-comment".to_string(),
            "save-widget".to_string(),
        ])
    );
    assert_eq!(
        contract.get("asyncupload"),
        Some(&vec!["upload-attachment".to_string()])
    );

    let mut small = AdminActionRegistry::default();
    small.register(AdminSurface::AsyncUpload, "up", AdminAuth::Public, false, false);
    let map = small.contract_map();
    assert_eq!(map.len(), 1);
    assert!(map.get("ajax").is_none());
}

#[test]
fn nopriv_waives_login_and_capability() {
    let mut registry = AdminActionRegistry::default();
    registry.register(
        AdminSurface::Ajax,
        "open",
        AdminAuth::Capability("manage_options".to_string()),
        false,
        true,
    );
    let request = AdminRequest::new(AdminSurface::Ajax, "open");
    assert_eq!(registry.dispatch(&request).status_code, 200);
}
