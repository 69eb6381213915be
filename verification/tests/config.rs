use rustpress::config::{
    parse_php_size_to_bytes, parse_truthy, php_runtime_core_endpoints, RuntimeProfile,
    RustGatewaySettings, WordPressConstants,
};

fn has(list: &[String], item: &str) -> bool {
    list.iter().any(|entry| entry == item)
}

#[test]
fn defaults_are_safe_and_conservative() {
    let settings = RustGatewaySettings::default();
    assert!(!settings.enabled);
    assert_eq!(settings.deployment_profile, "legacy-safe");
    assert!(settings.fallback_enabled);
    assert!(has(&settings.endpoint_allowlist, "/__wp_rust/health"));
    assert!(has(&settings.method_allowlist, "GET"));
    assert!(!settings.should_route("/wp-login.php"));
}

#[test]
fn should_route_supports_wildcard() {
    let mut settings = RustGatewaySettings::default();
    settings.enabled = true;
    settings.plugin_compat_mode = "rust-only".to_string();
    settings.endpoint_allowlist = ["*".to_string()].into_iter().collect();
    assert!(settings.should_route("/wp-login.php"));
    assert!(settings.should_route("/wp-admin/admin-ajax.php"));
}

#[test]
fn method_allowlist_enforces_uppercase_lookup() {
    let settings = RustGatewaySettings::default();
    assert!(settings.allows_method("get"));
    assert!(!settings.allows_method("post"));
}

#[test]
fn production_profile_forces_full_cutover() {
    let mut settings = RustGatewaySettings::default();
    settings.deployment_profile = "production-rust".to_string();
    settings.apply_profile_overrides();

    assert!(settings.enabled);
    assert!(!settings.fallback_enabled);
    assert!(has(&settings.endpoint_allowlist, "*"));
    assert!(has(&settings.method_allowlist, "*"));
    assert_eq!(settings.plugin_compat_mode, "rust-only");
}

#[test]
fn php_runtime_profile_restricts_non_core_endpoints() {
    let mut settings = RustGatewaySettings::default();
    settings.enabled = true;
    settings.endpoint_allowlist = ["*".to_string()].into_iter().collect();
    settings.plugin_compat_mode = "php-runtime".to_string();

    assert!(settings.should_route("/wp-json/wp/v2/posts"));
    assert!(settings.should_route("/"));
    assert!(settings.should_route("/index.php"));
    assert!(settings.should_route("/search"));
    assert!(settings.should_route("/feed"));
    assert!(settings.should_route("/Admin"));
    assert!(settings.should_route("/wp-blog-header.php"));
    assert!(settings.should_route("/wp-load.php"));
    assert!(settings.should_route("/wp-settings.php"));
    assert!(settings.should_route("/wp-admin/admin-ajax.php"));
    assert!(settings.should_route("/wp-login.php"));
    assert!(settings.should_route("/wp-includes/load.php"));
    assert!(settings.should_route("/wp-includes/vars.php"));
    assert!(settings.should_route("/wp-includes/update.php"));
    assert!(settings.should_route("/wp-includes/wp-db.php"));
    assert!(settings.should_route("/wp-includes/utf8.php"));
    assert!(settings.should_route("/wp-includes/user.php"));
    assert!(settings.should_route("/wp-includes/functions.php"));
    assert!(settings.should_route("/wp-includes/formatting.php"));
    assert!(settings.should_route("/wp-includes/plugin.php"));
    assert!(settings.should_route("/wp-includes/pluggable.php"));
    assert!(settings.should_route("/wp-includes/capabilities.php"));
    assert!(settings.should_route("/wp-includes/option.php"));
    assert!(settings.should_route("/wp-includes/post.php"));
    assert!(settings.should_route("/wp-includes/class-wp-hook.php"));
    assert!(settings.should_route("/wp-includes/class-wp.php"));
    assert!(settings.should_route("/wp-includes/class-wp-query.php"));
    assert!(settings.should_route("/wp-includes/class-wp-rewrite.php"));
    assert!(settings.should_route("/wp-includes/class-wp-role.php"));
    assert!(settings.should_route("/wp-includes/class-wp-roles.php"));
    assert!(settings.should_route("/wp-includes/class-wp-user.php"));
    assert!(settings.should_route("/wp-includes/class-wp-session-tokens.php"));
    assert!(settings.should_route("/wp-includes/class-wp-user-meta-session-tokens.php"));
    assert!(settings.should_route("/wp-includes/class-wp-user-query.php"));
    assert!(settings.should_route("/wp-includes/class-wp-meta-query.php"));
    assert!(settings.should_route("/wp-includes/class-wp-date-query.php"));
    assert!(settings.should_route("/wp-includes/class-wp-tax-query.php"));
    assert!(settings.should_route("/wp-includes/class-wp-term-query.php"));
    assert!(settings.should_route("/wp-includes/class-wp-comment-query.php"));
    assert!(settings.should_route("/wp-includes/class-wp-network-query.php"));
    assert!(settings.should_route("/wp-includes/class-wp-site-query.php"));
    assert!(settings.should_route("/wp-includes/class-wp-post-type.php"));
    assert!(settings.should_route("/wp-includes/class-wp-post.php"));
    assert!(settings.should_route("/wp-includes/class-wp-error.php"));
    assert!(settings.should_route("/wp-includes/class-wp-http.php"));
    assert!(settings.should_route("/wp-includes/class-wp-http-cookie.php"));
    assert!(settings.should_route("/wp-includes/class-wp-http-encoding.php"));
    assert!(settings.should_route("/wp-includes/class-wp-http-response.php"));
    assert!(settings.should_route("/wp-includes/class-wp-http-curl.php"));
    assert!(settings.should_route("/wp-includes/class-wp-http-streams.php"));
    assert!(settings.should_route("/wp-includes/class-wp-http-proxy.php"));
    assert!(settings.should_route("/wp-includes/class-wp-http-requests-hooks.php"));
    assert!(settings.should_route("/wp-includes/class-wp-http-requests-response.php"));
    assert!(settings.should_route("/wp-includes/class-wp-network.php"));
    assert!(settings.should_route("/wp-includes/class-wp-site.php"));
    assert!(settings.should_route("/wp-includes/class-wp-taxonomy.php"));
    assert!(settings.should_route("/wp-includes/class-wp-theme.php"));
    assert!(settings.should_route("/wp-includes/class-wp-widget.php"));
    assert!(settings.should_route("/wp-includes/class-wp-scripts.php"));
    assert!(settings.should_route("/wp-includes/class-wp-styles.php"));
    assert!(settings.should_route("/wp-includes/class-wp-dependencies.php"));
    assert!(settings.should_route("/wp-includes/class-wp-dependency.php"));
    assert!(settings.should_route("/wp-includes/class-wp-script-modules.php"));
    assert!(settings.should_route("/wp-includes/class-IXR.php"));
    assert!(settings.should_route("/wp-includes/class-avif-info.php"));
    assert!(settings.should_route("/wp-includes/class-feed.php"));
    assert!(settings.should_route("/wp-includes/class-http.php"));
    assert!(settings.should_route("/wp-includes/class-json.php"));
    assert!(settings.should_route("/wp-includes/class-oembed.php"));
    assert!(settings.should_route("/wp-includes/class-phpass.php"));
    assert!(settings.should_route("/wp-includes/class-phpmailer.php"));
    assert!(settings.should_route("/wp-includes/class-pop3.php"));
    assert!(settings.should_route("/wp-includes/class-requests.php"));
    assert!(settings.should_route("/wp-includes/class-simplepie.php"));
    assert!(settings.should_route("/wp-includes/class-smtp.php"));
    assert!(settings.should_route("/wp-includes/class-snoopy.php"));
    assert!(settings.should_route("/wp-includes/class-walker-category-dropdown.php"));
    assert!(settings.should_route("/wp-includes/class-walker-category.php"));
    assert!(settings.should_route("/wp-includes/class-walker-comment.php"));
    assert!(settings.should_route("/wp-includes/class-walker-nav-menu.php"));
    assert!(settings.should_route("/wp-includes/class-walker-page-dropdown.php"));
    assert!(settings.should_route("/wp-includes/class-walker-page.php"));
    assert!(settings.should_route("/wp-includes/class-wpdb.php"));
    assert!(settings.should_route("/wp-includes/class.wp-dependencies.php"));
    assert!(settings.should_route("/wp-includes/class.wp-scripts.php"));
    assert!(settings.should_route("/wp-includes/class.wp-styles.php"));
    assert!(settings.should_route("/wp-includes/compat-utf8.php"));
    assert!(settings.should_route("/wp-includes/cron.php"));
    assert!(settings.should_route("/wp-includes/date.php"));
    assert!(settings.should_route("/wp-includes/default-constants.php"));
    assert!(settings.should_route("/wp-includes/default-widgets.php"));
    assert!(settings.should_route("/wp-includes/deprecated.php"));
    assert!(settings.should_route("/wp-includes/embed-template.php"));
    assert!(settings.should_route("/wp-includes/embed.php"));
    assert!(settings.should_route("/wp-includes/error-protection.php"));
    assert!(settings.should_route("/wp-includes/feed-atom-comments.php"));
    assert!(settings.should_route("/wp-includes/feed-atom.php"));
    assert!(settings.should_route("/wp-includes/feed-rdf.php"));
    assert!(settings.should_route("/wp-includes/feed-rss.php"));
    assert!(settings.should_route("/wp-includes/feed-rss2-comments.php"));
    assert!(settings.should_route("/wp-includes/feed-rss2.php"));
    assert!(settings.should_route("/wp-includes/feed.php"));
    assert!(settings.should_route("/wp-includes/fonts.php"));
    assert!(settings.should_route("/wp-includes/functions.wp-scripts.php"));
    assert!(settings.should_route("/wp-includes/functions.wp-styles.php"));
    assert!(settings.should_route("/wp-includes/global-styles-and-settings.php"));
    assert!(settings.should_route("/wp-includes/http.php"));
    assert!(settings.should_route("/wp-includes/https-detection.php"));
    assert!(settings.should_route("/wp-includes/https-migration.php"));
    assert!(settings.should_route("/wp-includes/kses.php"));
    assert!(settings.should_route("/wp-includes/l10n.php"));
    assert!(settings.should_route("/wp-includes/locale.php"));
    assert!(settings.should_route("/wp-includes/media-template.php"));
    assert!(settings.should_route("/wp-includes/category-template.php"));
    assert!(settings.should_route("/wp-includes/category.php"));
    assert!(settings.should_route("/wp-includes/comment-template.php"));
    assert!(settings.should_route("/wp-includes/comment.php"));
    assert!(settings.should_route("/wp-includes/compat.php"));
    assert!(settings.should_route("/wp-includes/bookmark-template.php"));
    assert!(settings.should_route("/wp-includes/bookmark.php"));
    assert!(settings.should_route("/wp-includes/cache-compat.php"));
    assert!(settings.should_route("/wp-includes/cache.php"));
    assert!(settings.should_route("/wp-includes/canonical.php"));
    assert!(settings.should_route("/wp-includes/block-bindings.php"));
    assert!(settings.should_route("/wp-includes/block-editor.php"));
    assert!(settings.should_route("/wp-includes/block-patterns.php"));
    assert!(settings.should_route("/wp-includes/block-template-utils.php"));
    assert!(settings.should_route("/wp-includes/block-template.php"));
    assert!(settings.should_route("/wp-includes/abilities-api.php"));
    assert!(settings.should_route("/wp-includes/abilities.php"));
    assert!(settings.should_route("/wp-includes/admin-bar.php"));
    assert!(settings.should_route("/wp-includes/atomlib.php"));
    assert!(settings.should_route("/wp-includes/author-template.php"));
    assert!(settings.should_route("/wp-includes/class-wp-theme-json-data.php"));
    assert!(settings.should_route("/wp-includes/class-wp-theme-json-resolver.php"));
    assert!(settings.should_route("/wp-includes/class-wp-token-map.php"));
    assert!(settings.should_route("/wp-includes/class-wp-url-pattern-prefixer.php"));
    assert!(settings.should_route("/wp-includes/class-wp-walker.php"));
    assert!(settings.should_route("/wp-includes/class-wp-simplepie-file.php"));
    assert!(settings.should_route("/wp-includes/class-wp-simplepie-sanitize-kses.php"));
    assert!(settings.should_route("/wp-includes/class-wp-speculation-rules.php"));
    assert!(settings.should_route("/wp-includes/class-wp-text-diff-renderer-inline.php"));
    assert!(settings.should_route("/wp-includes/class-wp-text-diff-renderer-table.php"));
    assert!(settings.should_route("/wp-includes/class-wp-navigation-fallback.php"));
    assert!(settings.should_route("/wp-includes/class-wp-object-cache.php"));
    assert!(settings.should_route("/wp-includes/class-wp-oembed-controller.php"));
    assert!(settings.should_route("/wp-includes/class-wp-paused-extensions-storage.php"));
    assert!(settings.should_route("/wp-includes/class-wp-phpmailer.php"));
    assert!(settings.should_route("/wp-includes/class-wp-customize-setting.php"));
    assert!(settings.should_route("/wp-includes/class-wp-customize-widgets.php"));
    assert!(settings.should_route("/wp-includes/class-wp-feed-cache-transient.php"));
    assert!(settings.should_route("/wp-includes/class-wp-feed-cache.php"));
    assert!(settings.should_route("/wp-includes/class-wp-http-ixr-client.php"));
    assert!(settings.should_route("/wp-includes/class-wp-customize-control.php"));
    assert!(settings.should_route("/wp-includes/class-wp-customize-manager.php"));
    assert!(settings.should_route("/wp-includes/class-wp-customize-nav-menus.php"));
    assert!(settings.should_route("/wp-includes/class-wp-customize-panel.php"));
    assert!(settings.should_route("/wp-includes/class-wp-customize-section.php"));
    assert!(settings.should_route("/wp-includes/class-wp-block-supports.php"));
    assert!(settings.should_route("/wp-includes/class-wp-block-template.php"));
    assert!(settings.should_route("/wp-includes/class-wp-block-type.php"));
    assert!(settings.should_route("/wp-includes/class-wp-classic-to-block-menu-converter.php"));
    assert!(settings.should_route("/wp-includes/class-wp-duotone.php"));
    assert!(
        settings.should_route("/wp-includes/class-wp-block-pattern-categories-registry.php")
    );
    assert!(settings.should_route("/wp-includes/class-wp-block-patterns-registry.php"));
    assert!(settings.should_route("/wp-includes/class-wp-block-styles-registry.php"));
    assert!(settings.should_route("/wp-includes/class-wp-block-templates-registry.php"));
    assert!(settings.should_route("/wp-includes/class-wp-block-type-registry.php"));
    assert!(settings.should_route("/wp-includes/class-wp-block-metadata-registry.php"));
    assert!(settings.should_route("/wp-includes/class-wp-block-parser.php"));
    assert!(settings.should_route("/wp-includes/class-wp-block-parser-block.php"));
    assert!(settings.should_route("/wp-includes/class-wp-block-parser-frame.php"));
    assert!(settings.should_route("/wp-includes/class-wp-block-processor.php"));
    assert!(settings.should_route("/wp-includes/class-wp-block-bindings-registry.php"));
    assert!(settings.should_route("/wp-includes/class-wp-block-bindings-source.php"));
    assert!(settings.should_route("/wp-includes/class-wp-block-editor-context.php"));
    assert!(settings.should_route("/wp-includes/class-wp-block-list.php"));
    assert!(settings.should_route("/wp-includes/class-wp-block.php"));
    assert!(settings.should_route("/wp-includes/class-wp-recovery-mode.php"));
    assert!(settings.should_route("/wp-includes/class-wp-recovery-mode-cookie-service.php"));
    assert!(settings.should_route("/wp-includes/class-wp-recovery-mode-link-service.php"));
    assert!(settings.should_route("/wp-includes/class-wp-recovery-mode-key-service.php"));
    assert!(settings.should_route("/wp-includes/class-wp-recovery-mode-email-service.php"));
    assert!(settings.should_route("/wp-includes/class-wp-xmlrpc-server.php"));
    assert!(settings.should_route("/wp-includes/class-wp-widget-factory.php"));
    assert!(settings.should_route("/wp-includes/class-wp-theme-json.php"));
    assert!(settings.should_route("/wp-includes/class-wp-theme-json-schema.php"));
    assert!(settings.should_route("/wp-includes/class-wp-textdomain-registry.php"));
    assert!(settings.should_route("/wp-includes/class-wp-image-editor.php"));
    assert!(settings.should_route("/wp-includes/class-wp-image-editor-gd.php"));
    assert!(settings.should_route("/wp-includes/class-wp-image-editor-imagick.php"));
    assert!(settings.should_route("/wp-includes/class-wp-exception.php"));
    assert!(settings.should_route("/wp-includes/class-wp-fatal-error-handler.php"));
    assert!(settings.should_route("/wp-includes/class-wp-admin-bar.php"));
    assert!(settings.should_route("/wp-includes/class-wp-ajax-response.php"));
    assert!(settings.should_route("/wp-includes/class-wp-embed.php"));
    assert!(settings.should_route("/wp-includes/class-wp-editor.php"));
    assert!(settings.should_route("/wp-includes/class-wp-oembed.php"));
    assert!(settings.should_route("/wp-includes/class-wp-comment.php"));
    assert!(settings.should_route("/wp-includes/class-wp-term.php"));
    assert!(settings.should_route("/wp-includes/class-wp-user-request.php"));
    assert!(settings.should_route("/wp-includes/class-wp-application-passwords.php"));
    assert!(settings.should_route("/wp-includes/class-wp-plugin-dependencies.php"));
    assert!(settings.should_route("/wp-includes/class-wp-locale.php"));
    assert!(settings.should_route("/wp-includes/class-wp-locale-switcher.php"));
    assert!(settings.should_route("/wp-includes/class-wp-matchesmapregex.php"));
    assert!(settings.should_route("/wp-includes/class-wp-list-util.php"));
    assert!(settings.should_route("/wp-includes/class-wp-metadata-lazyloader.php"));
    assert!(settings.should_route("/wp-includes/general-template.php"));
    assert!(settings.should_route("/wp-includes/link-template.php"));
    assert!(settings.should_route("/wp-includes/default-filters.php"));
    assert!(settings.should_route("/wp-includes/blocks.php"));
    assert!(settings.should_route("/wp-includes/theme.php"));
    assert!(settings.should_route("/wp-includes/theme-templates.php"));
    assert!(settings.should_route("/wp-includes/theme-previews.php"));
    assert!(settings.should_route("/wp-includes/speculative-loading.php"));
    assert!(settings.should_route("/wp-includes/template-loader.php"));
    assert!(settings.should_route("/wp-includes/template-canvas.php"));
    assert!(settings.should_route("/wp-includes/template.php"));
    assert!(settings.should_route("/wp-includes/taxonomy.php"));
    assert!(settings.should_route("/wp-includes/shortcodes.php"));
    assert!(settings.should_route("/wp-includes/widgets.php"));
    assert!(settings.should_route("/wp-includes/style-engine.php"));
    assert!(settings.should_route("/wp-includes/sitemaps.php"));
    assert!(settings.should_route("/wp-includes/script-modules.php"));
    assert!(settings.should_route("/wp-includes/version.php"));
    assert!(settings.should_route("/wp-includes/wp-diff.php"));
    assert!(settings.should_route("/wp-includes/view-transitions.php"));
    assert!(settings.should_route("/wp-includes/js/tinymce/wp-tinymce.php"));
    assert!(settings.should_route("/wp-admin/admin.php"));
    assert!(settings.should_route("/wp-admin/index.php"));
    assert!(settings.should_route("/wp-admin/load-scripts.php"));
    assert!(settings.should_route("/wp-admin/load-styles.php"));
    assert!(settings.should_route("/wp-admin/custom-background.php"));
    assert!(settings.should_route("/wp-admin/custom-header.php"));
    assert!(settings.should_route("/wp-admin/admin-functions.php"));
    assert!(settings.should_route("/wp-admin/options-head.php"));
    assert!(settings.should_route("/wp-admin/menu.php"));
    assert!(settings.should_route("/wp-admin/menu-header.php"));
    assert!(settings.should_route("/wp-admin/admin-header.php"));
    assert!(settings.should_route("/wp-admin/admin-footer.php"));
    assert!(settings.should_route("/wp-admin/edit-form-blocks.php"));
    assert!(settings.should_route("/wp-admin/edit-form-advanced.php"));
    assert!(settings.should_route("/wp-admin/edit-form-comment.php"));
    assert!(settings.should_route("/wp-admin/edit-link-form.php"));
    assert!(settings.should_route("/wp-admin/edit-tag-form.php"));
    assert!(settings.should_route("/wp-admin/link-parse-opml.php"));
    assert!(settings.should_route("/wp-admin/upgrade-functions.php"));
    assert!(settings.should_route("/wp-admin/network/menu.php"));
    assert!(settings.should_route("/wp-admin/user/menu.php"));
    assert!(settings.should_route("/wp-admin/user/admin.php"));
    assert!(settings.should_route("/wp-admin/user/index.php"));
    assert!(settings.should_route("/wp-admin/user/profile.php"));
    assert!(settings.should_route("/wp-admin/user/user-edit.php"));
    assert!(settings.should_route("/wp-admin/user/about.php"));
    assert!(settings.should_route("/wp-admin/user/credits.php"));
    assert!(settings.should_route("/wp-admin/user/contribute.php"));
    assert!(settings.should_route("/wp-admin/user/freedoms.php"));
    assert!(settings.should_route("/wp-admin/user/privacy.php"));
    assert!(settings.should_route("/wp-admin/profile.php"));
    assert!(settings.should_route("/wp-admin/user-edit.php"));
    assert!(settings.should_route("/wp-admin/user-new.php"));
    assert!(settings.should_route("/wp-admin/post-new.php"));
    assert!(settings.should_route("/wp-admin/post.php"));
    assert!(settings.should_route("/wp-admin/setup-config.php"));
    assert!(settings.should_route("/wp-admin/options.php"));
    assert!(settings.should_route("/wp-admin/options-general.php"));
    assert!(settings.should_route("/wp-admin/options-writing.php"));
    assert!(settings.should_route("/wp-admin/options-reading.php"));
    assert!(settings.should_route("/wp-admin/options-discussion.php"));
    assert!(settings.should_route("/wp-admin/options-media.php"));
    assert!(settings.should_route("/wp-admin/options-permalink.php"));
    assert!(settings.should_route("/wp-admin/options-privacy.php"));
    assert!(settings.should_route("/wp-admin/privacy-policy-guide.php"));
    assert!(settings.should_route("/wp-admin/about.php"));
    assert!(settings.should_route("/wp-admin/credits.php"));
    assert!(settings.should_route("/wp-admin/contribute.php"));
    assert!(settings.should_route("/wp-admin/freedoms.php"));
    assert!(settings.should_route("/wp-admin/privacy.php"));
    assert!(settings.should_route("/wp-admin/plugin-install.php"));
    assert!(settings.should_route("/wp-admin/plugin-editor.php"));
    assert!(settings.should_route("/wp-admin/theme-install.php"));
    assert!(settings.should_route("/wp-admin/theme-editor.php"));
    assert!(settings.should_route("/wp-admin/widgets.php"));
    assert!(settings.should_route("/wp-admin/widgets-form.php"));
    assert!(settings.should_route("/wp-admin/widgets-form-blocks.php"));
    assert!(settings.should_route("/wp-admin/nav-menus.php"));
    assert!(settings.should_route("/wp-admin/font-library.php"));
    assert!(settings.should_route("/wp-admin/customize.php"));
    assert!(settings.should_route("/wp-admin/authorize-application.php"));
    assert!(settings.should_route("/wp-admin/site-editor.php"));
    assert!(settings.should_route("/wp-admin/press-this.php"));
    assert!(settings.should_route("/wp-admin/term.php"));
    assert!(settings.should_route("/wp-admin/revision.php"));
    assert!(settings.should_route("/wp-admin/moderation.php"));
    assert!(settings.should_route("/wp-admin/my-sites.php"));
    assert!(settings.should_route("/wp-admin/ms-sites.php"));
    assert!(settings.should_route("/wp-admin/ms-users.php"));
    assert!(settings.should_route("/wp-admin/ms-themes.php"));
    assert!(settings.should_route("/wp-admin/ms-edit.php"));
    assert!(settings.should_route("/wp-admin/ms-admin.php"));
    assert!(settings.should_route("/wp-admin/ms-options.php"));
    assert!(settings.should_route("/wp-admin/ms-upgrade-network.php"));
    assert!(settings.should_route("/wp-admin/plugins.php"));
    assert!(settings.should_route("/wp-admin/themes.php"));
    assert!(settings.should_route("/wp-admin/users.php"));
    assert!(settings.should_route("/wp-admin/edit.php"));
    assert!(settings.should_route("/wp-admin/edit-tags.php"));
    assert!(settings.should_route("/wp-admin/edit-comments.php"));
    assert!(settings.should_route("/wp-admin/comment.php"));
    assert!(settings.should_route("/wp-admin/link-manager.php"));
    assert!(settings.should_route("/wp-admin/link-add.php"));
    assert!(settings.should_route("/wp-admin/link.php"));
    assert!(settings.should_route("/wp-admin/media.php"));
    assert!(settings.should_route("/wp-admin/media-upload.php"));
    assert!(settings.should_route("/wp-admin/upload.php"));
    assert!(settings.should_route("/wp-admin/media-new.php"));
    assert!(settings.should_route("/wp-admin/tools.php"));
    assert!(settings.should_route("/wp-admin/site-health.php"));
    assert!(settings.should_route("/wp-admin/site-health-info.php"));
    assert!(settings.should_route("/wp-admin/export.php"));
    assert!(settings.should_route("/wp-admin/import.php"));
    assert!(settings.should_route("/wp-admin/export-personal-data.php"));
    assert!(settings.should_route("/wp-admin/erase-personal-data.php"));
    assert!(settings.should_route("/wp-admin/network.php"));
    assert!(settings.should_route("/wp-admin/network/admin.php"));
    assert!(settings.should_route("/wp-admin/network/setup.php"));
    assert!(settings.should_route("/wp-admin/ms-delete-site.php"));
    assert!(settings.should_route("/wp-admin/network/index.php"));
    assert!(settings.should_route("/wp-admin/network/sites.php"));
    assert!(settings.should_route("/wp-admin/network/users.php"));
    assert!(settings.should_route("/wp-admin/network/themes.php"));
    assert!(settings.should_route("/wp-admin/network/plugins.php"));
    assert!(settings.should_route("/wp-admin/network/settings.php"));
    assert!(settings.should_route("/wp-admin/network/site-new.php"));
    assert!(settings.should_route("/wp-admin/network/site-info.php"));
    assert!(settings.should_route("/wp-admin/network/site-settings.php"));
    assert!(settings.should_route("/wp-admin/network/site-users.php"));
    assert!(settings.should_route("/wp-admin/network/site-themes.php"));
    assert!(settings.should_route("/wp-admin/network/user-new.php"));
    assert!(settings.should_route("/wp-admin/network/edit.php"));
    assert!(settings.should_route("/wp-admin/network/update.php"));
    assert!(settings.should_route("/wp-admin/network/update-core.php"));
    assert!(settings.should_route("/wp-admin/network/plugin-install.php"));
    assert!(settings.should_route("/wp-admin/network/plugin-editor.php"));
    assert!(settings.should_route("/wp-admin/network/theme-editor.php"));
    assert!(settings.should_route("/wp-admin/network/privacy.php"));
    assert!(settings.should_route("/wp-admin/network/about.php"));
    assert!(settings.should_route("/wp-admin/network/credits.php"));
    assert!(settings.should_route("/wp-admin/network/contribute.php"));
    assert!(settings.should_route("/wp-admin/network/freedoms.php"));
    assert!(settings.should_route("/wp-admin/network/profile.php"));
    assert!(settings.should_route("/wp-admin/network/user-edit.php"));
    assert!(settings.should_route("/wp-admin/network/upgrade.php"));
    assert!(settings.should_route("/wp-admin/network/theme-install.php"));
    assert!(settings.should_route("/wp-admin/update.php"));
    assert!(settings.should_route("/wp-admin/update-core.php"));
    assert!(!settings.should_route("/plugin-custom/endpoint"));
}


#[test]
fn endpoint_allowlist_supports_prefix_wildcards() {
    let mut settings = RustGatewaySettings::default();
    settings.enabled = true;
    settings.plugin_compat_mode = "rust-only".to_string();
    settings.endpoint_allowlist = ["/wp-json/*".to_string()].into_iter().collect();

    assert!(settings.should_route("/wp-json/wp/v2/posts"));
    assert!(!settings.should_route("/xmlrpc.php"));
}

#[test]
fn parses_php_size_units() {
    assert_eq!(parse_php_size_to_bytes("40M"), Some(40 * 1024 * 1024));
    assert_eq!(parse_php_size_to_bytes("2g"), Some(2 * 1024 * 1024 * 1024));
    assert_eq!(parse_php_size_to_bytes("bad"), None);
}

#[test]
fn constants_map_overrides_defaults() {
    let values = vec![
        ("WP_DEBUG".to_string(), "1".to_string()),
        ("WP_MEMORY_LIMIT".to_string(), "128M".to_string()),
        ("WP_MAX_MEMORY_LIMIT".to_string(), "512M".to_string()),
        ("WP_CONTENT_DIR".to_string(), "/srv/wp-content".to_string()),
    ];
    let constants = WordPressConstants::from_map(&values);
    assert!(constants.wp_debug);
    assert_eq!(constants.wp_content_dir, "/srv/wp-content");
    assert_eq!(constants.memory_limit_bytes(), Some(128 * 1024 * 1024));
    assert_eq!(RuntimeProfile::from_constants(&constants), RuntimeProfile::Development);
}

// ---- further cases ----

#[test]
fn truthy_values() {
    for value in ["1", "true", " YES ", "On"] {
        assert!(parse_truthy(value), "{value}");
    }
    for value in ["0", "false", "", "no", "2"] {
        assert!(!parse_truthy(value), "{value}");
    }
}

#[test]
fn php_sizes_with_other_units_and_blanks() {
    // A size needs a unit suffix: bare digits are not read.
    assert_eq!(parse_php_size_to_bytes("512"), None);
    assert_eq!(parse_php_size_to_bytes(" 3k "), Some(3 * 1024));
    assert_eq!(parse_php_size_to_bytes(""), None);
}

#[test]
fn core_endpoint_list_is_served_in_php_runtime_mode() {
    let endpoints = php_runtime_core_endpoints();
    assert!(endpoints.contains(&"/wp-login.php"));
    assert!(!endpoints.contains(&"/plugin-custom/endpoint"));
}

#[test]
fn gateway_settings_read_from_variables() {
    let vars = vec![
        ("WP_RUST_GATEWAY_ENABLED".to_string(), "yes".to_string()),
        ("WP_RUST_GATEWAY_TIMEOUT_MS".to_string(), "2500".to_string()),
        ("WP_RUST_GATEWAY_BACKEND_URL".to_string(), "  http://rust:9000  ".to_string()),
    ];
    let settings = RustGatewaySettings::from_vars(&vars);
    assert!(settings.enabled);
    assert_eq!(settings.timeout_ms, 2500);
    assert_eq!(settings.backend_url, "http://rust:9000");
}

#[test]
fn default_constants_are_production() {
    let constants = WordPressConstants::default();
    assert_eq!(RuntimeProfile::from_constants(&constants), RuntimeProfile::Production);
    assert_eq!(constants.memory_limit_bytes(), Some(40 * 1024 * 1024));
    assert_eq!(constants.max_memory_limit_bytes(), Some(256 * 1024 * 1024));
}

#[test]
fn disabled_gateway_routes_nothing() {
    let mut settings = RustGatewaySettings::default();
    settings.endpoint_allowlist = vec!["*".to_string()];
    assert!(!settings.should_route("/"));
}

#[test]
fn production_cutover_routes_every_endpoint() {
    let mut settings = RustGatewaySettings::default();
    settings.deployment_profile = "production-rust".to_string();
    settings.plugin_compat_mode = "php-runtime".to_string();
    settings.apply_profile_overrides();
    for endpoint in ["/", "/wp-admin/options.php", "/custom/plugin/endpoint", ""] {
        assert!(settings.should_route(endpoint));
    }

    let mut shouting = RustGatewaySettings::default();
    shouting.deployment_profile = "production-rust".to_string();
    shouting.plugin_compat_mode = "PHP-RUNTIME".to_string();
    shouting.apply_profile_overrides();
    assert_eq!(shouting.plugin_compat_mode, "PHP-RUNTIME");
    assert!(!shouting.should_route("/custom/plugin/endpoint"));
    assert!(shouting.should_route("/wp-json/wp/v2/posts"));
}
