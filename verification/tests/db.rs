use rustpress::db::{
    all_core_table_names, core_tables, resolve_table_name, validate_table_prefix, DatabaseConfig,
    DatabaseError, MultisiteResolver, NetworkSite, OptionStore,
};

#[test]
fn accepts_default_prefix() {
    assert!(validate_table_prefix("wp_").is_ok());
}

#[test]
fn rejects_invalid_prefix() {
    assert!(validate_table_prefix("wp-prefix").is_err());
}

#[test]
fn rejects_empty_prefix() {
    assert!(validate_table_prefix("").is_err());
}

#[test]
fn resolves_multisite_blog_table_name() {
    let tables = core_tables();
    let table = tables
        .iter()
        .find(|table| table.logical_name == "options")
        .expect("options table should exist");
    let name = resolve_table_name("wp_", table, Some(3)).expect("table name should resolve");
    assert_eq!(name, "wp_3_options");
}

#[test]
fn resolves_global_table_name_with_base_prefix() {
    let tables = core_tables();
    let table = tables
        .iter()
        .find(|table| table.logical_name == "users")
        .expect("users table should exist");
    let name = resolve_table_name("wp_", table, Some(7)).expect("table name should resolve");
    assert_eq!(name, "wp_users");
}

#[test]
fn all_core_table_names_include_multisite_and_global_prefixes() {
    let names = all_core_table_names("wp_", Some(3)).expect("table names should resolve");
    assert_eq!(names.len(), core_tables().len());
    assert!(names.contains(&"wp_3_posts".to_string()));
    assert!(names.contains(&"wp_3_options".to_string()));
    assert!(names.contains(&"wp_users".to_string()));
    assert!(names.contains(&"wp_blogmeta".to_string()));
    assert!(names.contains(&"wp_registration_log".to_string()));
    assert!(names.contains(&"wp_blog_versions".to_string()));
    assert!(names.contains(&"wp_signups".to_string()));
    assert!(names.contains(&"wp_sitemeta".to_string()));
}

#[test]
fn all_core_table_names_reject_invalid_blog_id() {
    let result = all_core_table_names("wp_", Some(0));
    assert!(result.is_err());
}

#[test]
fn multisite_global_tables_do_not_include_blog_id_prefix() {
    let names = all_core_table_names("wp_", Some(42)).expect("table names should resolve");
    assert!(names.contains(&"wp_blogs".to_string()));
    assert!(names.contains(&"wp_blogmeta".to_string()));
    assert!(names.contains(&"wp_registration_log".to_string()));
    assert!(names.contains(&"wp_blog_versions".to_string()));
    assert!(names.contains(&"wp_signups".to_string()));
    assert!(!names.contains(&"wp_42_blogmeta".to_string()));
    assert!(!names.contains(&"wp_42_blog_versions".to_string()));
    assert!(!names.contains(&"wp_42_signups".to_string()));
}

#[test]
fn option_store_tracks_autoload_cache() {
    let mut store = OptionStore::default();
    store.set_option("blogname", "Example", Some(true));
    store.set_option("transient_timeout", "12345", Some(false));
    let alloptions = store.load_alloptions();
    assert_eq!(alloptions.get("blogname"), Some(&"Example".to_string()));
    assert!(!alloptions.contains_key("transient_timeout"));
}

#[test]
fn option_store_invalidates_alloptions_after_mutations() {
    let mut store = OptionStore::default();
    store.set_option("blogname", "WordPress", Some(true));
    let initial = store.load_alloptions();
    assert_eq!(initial.get("blogname"), Some(&"WordPress".to_string()));

    store.set_option("blogname", "WordPress Rust", Some(true));
    let updated = store.load_alloptions();
    assert_eq!(updated.get("blogname"), Some(&"WordPress Rust".to_string()));

    assert!(store.delete_option("blogname"));
    let after_delete = store.load_alloptions();
    assert!(!after_delete.contains_key("blogname"));
}

#[test]
fn option_store_reports_noop_updates() {
    let mut store = OptionStore::default();
    assert!(store.set_option("blogname", "WordPress", Some(true)));
    assert!(!store.set_option("blogname", "WordPress", Some(true)));
    assert!(store.set_option("blogname", "WordPress Rust", Some(true)));
    assert!(store.set_option("blogname", "WordPress Rust", Some(false)));
}

#[test]
fn option_store_preserves_autoload_when_unspecified() {
    let mut store = OptionStore::default();
    assert!(store.set_option("blogname", "WordPress", Some(false)));
    assert!(store.set_option("blogname", "WordPress 2", None));
    let record = store.get_option_record("blogname").expect("option should exist");
    assert_eq!(record.value, "WordPress 2");
    assert!(!record.autoload);
}

#[test]
fn option_store_add_option_only_writes_when_missing() {
    let mut store = OptionStore::default();
    assert!(store.add_option("blogname", "WordPress", true));
    assert!(!store.add_option("blogname", "Different", false));

    let option = store.get_option_record("blogname").expect("option should exist");
    assert_eq!(option.value, "WordPress");
    assert!(option.autoload);
}

#[test]
fn option_store_returns_default_for_missing_option() {
    let store = OptionStore::default();
    assert_eq!(
        store.get_option_with_default("missing", Some("fallback")),
        Some("fallback".to_string())
    );
    assert_eq!(store.get_option_with_default("missing", None), None);
}

#[test]
fn option_store_get_multiple_reports_missing_entries() {
    let mut store = OptionStore::default();
    assert!(store.set_option("blogname", "WordPress", Some(true)));
    let names = vec!["blogname".to_string(), "missing".to_string()];

    let values = store.get_multiple(&names);
    assert_eq!(values.get("blogname"), Some(&Some("WordPress".to_string())));
    assert_eq!(values.get("missing"), Some(&None));
}

#[test]
fn resolves_multisite_by_domain_and_path() {
    let mut resolver = MultisiteResolver::default();
    resolver.register_site(NetworkSite {
        blog_id: 1,
        domain: "example.com".to_string(),
        path: "/".to_string(),
        is_public: true,
    });
    resolver.register_site(NetworkSite {
        blog_id: 2,
        domain: "example.com".to_string(),
        path: "/blog/".to_string(),
        is_public: true,
    });

    let resolved = resolver
        .resolve("example.com", "/blog/hello-world")
        .expect("site should resolve");
    assert_eq!(resolved.blog_id, 2);
}

#[test]
fn multisite_resolver_returns_none_for_unknown_domain() {
    let mut resolver = MultisiteResolver::default();
    resolver.register_site(NetworkSite {
        blog_id: 1,
        domain: "example.com".to_string(),
        path: "/".to_string(),
        is_public: true,
    });

    assert!(resolver.resolve("invalid.example", "/").is_none());
}

// ---- further cases ----

#[test]
fn database_defaults_and_prefix_errors() {
    let config = DatabaseConfig::default();
    assert_eq!(config.table_prefix, "wp_");
    assert_eq!(config.host, "localhost");
    match validate_table_prefix("bad prefix") {
        Err(DatabaseError::InvalidTablePrefix(p)) => assert_eq!(p, "bad prefix"),
        other => panic!("unexpected {other:?}"),
    }
    match all_core_table_names("wp_", Some(0)) {
        Err(DatabaseError::InvalidBlogId(id)) => assert_eq!(id, 0),
        other => panic!("unexpected {other:?}"),
    }
}

#[test]
fn single_site_names_have_no_blog_id() {
    let names = all_core_table_names("wp_", None).expect("names");
    assert!(names.contains(&"wp_posts".to_string()));
    assert!(names.contains(&"wp_users".to_string()));
    let blog_one = all_core_table_names("wp_", Some(1)).expect("names");
    assert!(blog_one.contains(&"wp_posts".to_string()));
}

#[test]
fn option_get_after_set_and_delete() {
    let mut store = OptionStore::default();
    store.set_option("a", "1", None);
    assert_eq!(store.get_option("a"), Some("1".to_string()));
    assert!(store.get_option_record("a").expect("record").autoload);
    assert!(store.delete_option("a"));
    assert!(!store.delete_option("a"));
    assert_eq!(store.get_option("a"), None);
    assert_eq!(store.snapshot().len(), 0);
}

#[test]
fn longest_registered_path_wins() {
    let mut resolver = MultisiteResolver::default();
    resolver.register_site(NetworkSite {
        blog_id: 2,
        domain: "example.com".to_string(),
        path: "/blog/".to_string(),
        is_public: true,
    });
    resolver.register_site(NetworkSite {
        blog_id: 1,
        domain: "example.com".to_string(),
        path: "/".to_string(),
        is_public: true,
    });
    assert_eq!(resolver.resolve("example.com", "/other").expect("site").blog_id, 1);
    assert_eq!(resolver.resolve("example.com", "/blog/x").expect("site").blog_id, 2);
}

#[test]
fn option_read_after_write_and_repeat_write() {
    let mut store = OptionStore::new();
    assert!(store.set_option("blogname", "RustPress", None));
    assert!(store.set_option("other", "x", Some(false)));
    assert_eq!(store.get_option("blogname"), Some("RustPress".to_string()));
    assert!(!store.set_option("blogname", "RustPress", None));
    assert_eq!(store.get_option("other"), Some("x".to_string()));
    assert!(store.delete_option("blogname"));
    assert_eq!(store.get_option("blogname"), None);
}
