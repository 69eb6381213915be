//! Gateway routing settings and WordPress default constants.

use vstd::prelude::*;
use crate::text::{
    all_digits, decimal, is_digit, is_ws, lemma_decimal, lemma_parse_decimal, lemma_trim_fixed, parse_u64, parse_unsigned, split, split_char, views,
    chars_eq, chars_of, contains_string, copy_range, eq_ignore_case, eq_ignore_case_exec, lookup,
    lookup_exec, lower_seq, starts_with, starts_with_exec, string_of, strs, strs_ref, to_lower,
    to_upper, trim, trim_chars, trim_end_char, trim_end_char_exec, upper_seq,
};

verus! {

// ------------------------------------------------------------------
// Gateway settings
// ------------------------------------------------------------------

/// Runtime settings for the PHP -> Rust gateway.
#[derive(Debug, Clone)]
pub struct RustGatewaySettings {
    /// Whether Rust routing is enabled globally.
    pub enabled: bool,
    /// Deployment profile controlling cutover defaults.
    pub deployment_profile: String,
    /// Whether legacy PHP fallback is allowed if Rust fails.
    pub fallback_enabled: bool,
    /// Base URL where the Rust server is reachable from PHP.
    pub backend_url: String,
    /// Timeout for proxy requests in milliseconds.
    pub timeout_ms: u64,
    /// Endpoints allowed to route through Rust (a set: order and repeats do not matter).
    pub endpoint_allowlist: Vec<String>,
    /// HTTP methods allowed for proxy routing (a set).
    pub method_allowlist: Vec<String>,
    /// Compatibility mode for plugin/theme execution.
    pub plugin_compat_mode: String,
}

/// Whether one allowlist entry admits `endpoint`: `*` admits everything,
/// `prefix*` admits endpoints starting with the prefix (trailing slashes
/// dropped, and an empty prefix admits nothing), anything else must match
/// exactly.
pub open spec fn entry_allows(entry: Seq<char>, endpoint: Seq<char>) -> bool {
    if entry == "*"@ {
        true
    } else if entry.len() > 0 && entry.last() == '*' {
        let prefix = trim_end_char(entry.drop_last(), '/');
        prefix.len() > 0 && starts_with(endpoint, prefix)
    } else {
        entry == endpoint
    }
}

pub open spec fn endpoint_allowed_by(list: Seq<Seq<char>>, endpoint: Seq<char>) -> bool {
    exists|i: int| 0 <= i < list.len() && entry_allows(#[trigger] list[i], endpoint)
}

/// Endpoints that the `php-runtime` compatibility mode still lets Rust serve.
pub open spec fn core_endpoint_list() -> Seq<Seq<char>> {
    seq![
        "/"@,
        "/index.php"@,
        "/search"@,
        "/feed"@,
        "/Admin"@,
        "/wp-blog-header.php"@,
        "/wp-load.php"@,
        "/wp-settings.php"@,
        "/wp-login.php"@,
        "/wp-signup.php"@,
        "/wp-activate.php"@,
        "/wp-comments-post.php"@,
        "/wp-mail.php"@,
        "/wp-trackback.php"@,
        "/wp-links-opml.php"@,
        "/wp-includes/load.php"@,
        "/wp-includes/vars.php"@,
        "/wp-includes/update.php"@,
        "/wp-includes/wp-db.php"@,
        "/wp-includes/utf8.php"@,
        "/wp-includes/user.php"@,
        "/wp-includes/functions.php"@,
        "/wp-includes/formatting.php"@,
        "/wp-includes/plugin.php"@,
        "/wp-includes/pluggable.php"@,
        "/wp-includes/capabilities.php"@,
        "/wp-includes/option.php"@,
        "/wp-includes/post.php"@,
        "/wp-includes/class-wp-hook.php"@,
        "/wp-includes/class-wp.php"@,
        "/wp-includes/class-wp-query.php"@,
        "/wp-includes/class-wp-rewrite.php"@,
        "/wp-includes/class-wp-role.php"@,
        "/wp-includes/class-wp-roles.php"@,
        "/wp-includes/class-wp-user.php"@,
        "/wp-includes/class-wp-session-tokens.php"@,
        "/wp-includes/class-wp-user-meta-session-tokens.php"@,
        "/wp-includes/class-wp-user-query.php"@,
        "/wp-includes/class-wp-meta-query.php"@,
        "/wp-includes/class-wp-date-query.php"@,
        "/wp-includes/class-wp-tax-query.php"@,
        "/wp-includes/class-wp-term-query.php"@,
        "/wp-includes/class-wp-comment-query.php"@,
        "/wp-includes/class-wp-network-query.php"@,
        "/wp-includes/class-wp-site-query.php"@,
        "/wp-includes/class-wp-post-type.php"@,
        "/wp-includes/class-wp-post.php"@,
        "/wp-includes/class-wp-error.php"@,
        "/wp-includes/class-wp-http.php"@,
        "/wp-includes/class-wp-http-cookie.php"@,
        "/wp-includes/class-wp-http-encoding.php"@,
        "/wp-includes/class-wp-http-response.php"@,
        "/wp-includes/class-wp-http-curl.php"@,
        "/wp-includes/class-wp-http-streams.php"@,
        "/wp-includes/class-wp-http-proxy.php"@,
        "/wp-includes/class-wp-http-requests-hooks.php"@,
        "/wp-includes/class-wp-http-requests-response.php"@,
        "/wp-includes/class-wp-network.php"@,
        "/wp-includes/class-wp-site.php"@,
        "/wp-includes/class-wp-taxonomy.php"@,
        "/wp-includes/class-wp-theme.php"@,
        "/wp-includes/class-wp-widget.php"@,
        "/wp-includes/class-wp-scripts.php"@,
        "/wp-includes/class-wp-styles.php"@,
        "/wp-includes/class-wp-dependencies.php"@,
        "/wp-includes/class-wp-dependency.php"@,
        "/wp-includes/class-wp-script-modules.php"@,
        "/wp-includes/class-IXR.php"@,
        "/wp-includes/class-avif-info.php"@,
        "/wp-includes/class-feed.php"@,
        "/wp-includes/class-http.php"@,
        "/wp-includes/class-json.php"@,
        "/wp-includes/class-oembed.php"@,
        "/wp-includes/class-phpass.php"@,
        "/wp-includes/class-phpmailer.php"@,
        "/wp-includes/class-pop3.php"@,
        "/wp-includes/class-requests.php"@,
        "/wp-includes/class-simplepie.php"@,
        "/wp-includes/class-smtp.php"@,
        "/wp-includes/class-snoopy.php"@,
        "/wp-includes/class-walker-category-dropdown.php"@,
        "/wp-includes/class-walker-category.php"@,
        "/wp-includes/class-walker-comment.php"@,
        "/wp-includes/class-walker-nav-menu.php"@,
        "/wp-includes/class-walker-page-dropdown.php"@,
        "/wp-includes/class-walker-page.php"@,
        "/wp-includes/class-wpdb.php"@,
        "/wp-includes/class.wp-dependencies.php"@,
        "/wp-includes/class.wp-scripts.php"@,
        "/wp-includes/class.wp-styles.php"@,
        "/wp-includes/compat-utf8.php"@,
        "/wp-includes/cron.php"@,
        "/wp-includes/date.php"@,
        "/wp-includes/default-constants.php"@,
        "/wp-includes/default-widgets.php"@,
        "/wp-includes/deprecated.php"@,
        "/wp-includes/embed-template.php"@,
        "/wp-includes/embed.php"@,
        "/wp-includes/error-protection.php"@,
        "/wp-includes/feed-atom-comments.php"@,
        "/wp-includes/feed-atom.php"@,
        "/wp-includes/feed-rdf.php"@,
        "/wp-includes/feed-rss.php"@,
        "/wp-includes/feed-rss2-comments.php"@,
        "/wp-includes/feed-rss2.php"@,
        "/wp-includes/feed.php"@,
        "/wp-includes/fonts.php"@,
        "/wp-includes/functions.wp-scripts.php"@,
        "/wp-includes/functions.wp-styles.php"@,
        "/wp-includes/global-styles-and-settings.php"@,
        "/wp-includes/http.php"@,
        "/wp-includes/https-detection.php"@,
        "/wp-includes/https-migration.php"@,
        "/wp-includes/kses.php"@,
        "/wp-includes/l10n.php"@,
        "/wp-includes/locale.php"@,
        "/wp-includes/media-template.php"@,
        "/wp-includes/category-template.php"@,
        "/wp-includes/category.php"@,
        "/wp-includes/comment-template.php"@,
        "/wp-includes/comment.php"@,
        "/wp-includes/compat.php"@,
        "/wp-includes/bookmark-template.php"@,
        "/wp-includes/bookmark.php"@,
        "/wp-includes/cache-compat.php"@,
        "/wp-includes/cache.php"@,
        "/wp-includes/canonical.php"@,
        "/wp-includes/block-bindings.php"@,
        "/wp-includes/block-editor.php"@,
        "/wp-includes/block-patterns.php"@,
        "/wp-includes/block-template-utils.php"@,
        "/wp-includes/block-template.php"@,
        "/wp-includes/abilities-api.php"@,
        "/wp-includes/abilities.php"@,
        "/wp-includes/admin-bar.php"@,
        "/wp-includes/atomlib.php"@,
        "/wp-includes/author-template.php"@,
        "/wp-includes/class-wp-theme-json-data.php"@,
        "/wp-includes/class-wp-theme-json-resolver.php"@,
        "/wp-includes/class-wp-token-map.php"@,
        "/wp-includes/class-wp-url-pattern-prefixer.php"@,
        "/wp-includes/class-wp-walker.php"@,
        "/wp-includes/class-wp-simplepie-file.php"@,
        "/wp-includes/class-wp-simplepie-sanitize-kses.php"@,
        "/wp-includes/class-wp-speculation-rules.php"@,
        "/wp-includes/class-wp-text-diff-renderer-inline.php"@,
        "/wp-includes/class-wp-text-diff-renderer-table.php"@,
        "/wp-includes/class-wp-navigation-fallback.php"@,
        "/wp-includes/class-wp-object-cache.php"@,
        "/wp-includes/class-wp-oembed-controller.php"@,
        "/wp-includes/class-wp-paused-extensions-storage.php"@,
        "/wp-includes/class-wp-phpmailer.php"@,
        "/wp-includes/class-wp-customize-setting.php"@,
        "/wp-includes/class-wp-customize-widgets.php"@,
        "/wp-includes/class-wp-feed-cache-transient.php"@,
        "/wp-includes/class-wp-feed-cache.php"@,
        "/wp-includes/class-wp-http-ixr-client.php"@,
        "/wp-includes/class-wp-customize-control.php"@,
        "/wp-includes/class-wp-customize-manager.php"@,
        "/wp-includes/class-wp-customize-nav-menus.php"@,
        "/wp-includes/class-wp-customize-panel.php"@,
        "/wp-includes/class-wp-customize-section.php"@,
        "/wp-includes/class-wp-block-supports.php"@,
        "/wp-includes/class-wp-block-template.php"@,
        "/wp-includes/class-wp-block-type.php"@,
        "/wp-includes/class-wp-classic-to-block-menu-converter.php"@,
        "/wp-includes/class-wp-duotone.php"@,
        "/wp-includes/class-wp-block-pattern-categories-registry.php"@,
        "/wp-includes/class-wp-block-patterns-registry.php"@,
        "/wp-includes/class-wp-block-styles-registry.php"@,
        "/wp-includes/class-wp-block-templates-registry.php"@,
        "/wp-includes/class-wp-block-type-registry.php"@,
        "/wp-includes/class-wp-block-metadata-registry.php"@,
        "/wp-includes/class-wp-block-parser.php"@,
        "/wp-includes/class-wp-block-parser-block.php"@,
        "/wp-includes/class-wp-block-parser-frame.php"@,
        "/wp-includes/class-wp-block-processor.php"@,
        "/wp-includes/class-wp-block-bindings-registry.php"@,
        "/wp-includes/class-wp-block-bindings-source.php"@,
        "/wp-includes/class-wp-block-editor-context.php"@,
        "/wp-includes/class-wp-block-list.php"@,
        "/wp-includes/class-wp-block.php"@,
        "/wp-includes/class-wp-recovery-mode.php"@,
        "/wp-includes/class-wp-recovery-mode-cookie-service.php"@,
        "/wp-includes/class-wp-recovery-mode-link-service.php"@,
        "/wp-includes/class-wp-recovery-mode-key-service.php"@,
        "/wp-includes/class-wp-recovery-mode-email-service.php"@,
        "/wp-includes/class-wp-xmlrpc-server.php"@,
        "/wp-includes/class-wp-widget-factory.php"@,
        "/wp-includes/class-wp-theme-json.php"@,
        "/wp-includes/class-wp-theme-json-schema.php"@,
        "/wp-includes/class-wp-textdomain-registry.php"@,
        "/wp-includes/class-wp-image-editor.php"@,
        "/wp-includes/class-wp-image-editor-gd.php"@,
        "/wp-includes/class-wp-image-editor-imagick.php"@,
        "/wp-includes/class-wp-exception.php"@,
        "/wp-includes/class-wp-fatal-error-handler.php"@,
        "/wp-includes/class-wp-admin-bar.php"@,
        "/wp-includes/class-wp-ajax-response.php"@,
        "/wp-includes/class-wp-embed.php"@,
        "/wp-includes/class-wp-editor.php"@,
        "/wp-includes/class-wp-oembed.php"@,
        "/wp-includes/class-wp-comment.php"@,
        "/wp-includes/class-wp-term.php"@,
        "/wp-includes/class-wp-user-request.php"@,
        "/wp-includes/class-wp-application-passwords.php"@,
        "/wp-includes/class-wp-plugin-dependencies.php"@,
        "/wp-includes/class-wp-locale.php"@,
        "/wp-includes/class-wp-locale-switcher.php"@,
        "/wp-includes/class-wp-matchesmapregex.php"@,
        "/wp-includes/class-wp-list-util.php"@,
        "/wp-includes/class-wp-metadata-lazyloader.php"@,
        "/wp-includes/general-template.php"@,
        "/wp-includes/link-template.php"@,
        "/wp-includes/default-filters.php"@,
        "/wp-includes/blocks.php"@,
        "/wp-includes/theme.php"@,
        "/wp-includes/theme-templates.php"@,
        "/wp-includes/theme-previews.php"@,
        "/wp-includes/speculative-loading.php"@,
        "/wp-includes/template-loader.php"@,
        "/wp-includes/template-canvas.php"@,
        "/wp-includes/template.php"@,
        "/wp-includes/taxonomy.php"@,
        "/wp-includes/shortcodes.php"@,
        "/wp-includes/widgets.php"@,
        "/wp-includes/style-engine.php"@,
        "/wp-includes/sitemaps.php"@,
        "/wp-includes/script-modules.php"@,
        "/wp-includes/version.php"@,
        "/wp-includes/wp-diff.php"@,
        "/wp-includes/view-transitions.php"@,
        "/wp-includes/js/tinymce/wp-tinymce.php"@,
        "/wp-admin"@,
        "/wp-admin/"@,
        "/wp-admin/index.php"@,
        "/wp-admin/admin.php"@,
        "/wp-admin/load-scripts.php"@,
        "/wp-admin/load-styles.php"@,
        "/wp-admin/custom-background.php"@,
        "/wp-admin/custom-header.php"@,
        "/wp-admin/admin-functions.php"@,
        "/wp-admin/options-head.php"@,
        "/wp-admin/menu.php"@,
        "/wp-admin/menu-header.php"@,
        "/wp-admin/admin-header.php"@,
        "/wp-admin/admin-footer.php"@,
        "/wp-admin/edit-form-blocks.php"@,
        "/wp-admin/edit-form-advanced.php"@,
        "/wp-admin/edit-form-comment.php"@,
        "/wp-admin/edit-link-form.php"@,
        "/wp-admin/edit-tag-form.php"@,
        "/wp-admin/link-parse-opml.php"@,
        "/wp-admin/upgrade-functions.php"@,
        "/wp-admin/network/menu.php"@,
        "/wp-admin/user/menu.php"@,
        "/wp-admin/user/admin.php"@,
        "/wp-admin/user/index.php"@,
        "/wp-admin/user/profile.php"@,
        "/wp-admin/user/user-edit.php"@,
        "/wp-admin/user/about.php"@,
        "/wp-admin/user/credits.php"@,
        "/wp-admin/user/contribute.php"@,
        "/wp-admin/user/freedoms.php"@,
        "/wp-admin/user/privacy.php"@,
        "/wp-admin/profile.php"@,
        "/wp-admin/user-edit.php"@,
        "/wp-admin/user-new.php"@,
        "/wp-admin/post-new.php"@,
        "/wp-admin/post.php"@,
        "/wp-admin/install.php"@,
        "/wp-admin/setup-config.php"@,
        "/wp-admin/install-helper.php"@,
        "/wp-admin/options.php"@,
        "/wp-admin/options-general.php"@,
        "/wp-admin/options-writing.php"@,
        "/wp-admin/options-reading.php"@,
        "/wp-admin/options-discussion.php"@,
        "/wp-admin/options-media.php"@,
        "/wp-admin/options-permalink.php"@,
        "/wp-admin/options-privacy.php"@,
        "/wp-admin/privacy-policy-guide.php"@,
        "/wp-admin/about.php"@,
        "/wp-admin/credits.php"@,
        "/wp-admin/contribute.php"@,
        "/wp-admin/freedoms.php"@,
        "/wp-admin/privacy.php"@,
        "/wp-admin/plugin-install.php"@,
        "/wp-admin/plugin-editor.php"@,
        "/wp-admin/theme-install.php"@,
        "/wp-admin/theme-editor.php"@,
        "/wp-admin/widgets.php"@,
        "/wp-admin/widgets-form.php"@,
        "/wp-admin/widgets-form-blocks.php"@,
        "/wp-admin/nav-menus.php"@,
        "/wp-admin/font-library.php"@,
        "/wp-admin/customize.php"@,
        "/wp-admin/authorize-application.php"@,
        "/wp-admin/site-editor.php"@,
        "/wp-admin/press-this.php"@,
        "/wp-admin/term.php"@,
        "/wp-admin/revision.php"@,
        "/wp-admin/moderation.php"@,
        "/wp-admin/my-sites.php"@,
        "/wp-admin/ms-sites.php"@,
        "/wp-admin/ms-users.php"@,
        "/wp-admin/ms-themes.php"@,
        "/wp-admin/ms-edit.php"@,
        "/wp-admin/ms-admin.php"@,
        "/wp-admin/ms-options.php"@,
        "/wp-admin/ms-upgrade-network.php"@,
        "/wp-admin/plugins.php"@,
        "/wp-admin/themes.php"@,
        "/wp-admin/users.php"@,
        "/wp-admin/edit.php"@,
        "/wp-admin/edit-tags.php"@,
        "/wp-admin/edit-comments.php"@,
        "/wp-admin/comment.php"@,
        "/wp-admin/link-manager.php"@,
        "/wp-admin/link-add.php"@,
        "/wp-admin/link.php"@,
        "/wp-admin/media.php"@,
        "/wp-admin/media-upload.php"@,
        "/wp-admin/upload.php"@,
        "/wp-admin/media-new.php"@,
        "/wp-admin/tools.php"@,
        "/wp-admin/site-health.php"@,
        "/wp-admin/site-health-info.php"@,
        "/wp-admin/export.php"@,
        "/wp-admin/import.php"@,
        "/wp-admin/export-personal-data.php"@,
        "/wp-admin/erase-personal-data.php"@,
        "/wp-admin/network.php"@,
        "/wp-admin/network/admin.php"@,
        "/wp-admin/network/setup.php"@,
        "/wp-admin/ms-delete-site.php"@,
        "/wp-admin/network/index.php"@,
        "/wp-admin/network/sites.php"@,
        "/wp-admin/network/users.php"@,
        "/wp-admin/network/themes.php"@,
        "/wp-admin/network/plugins.php"@,
        "/wp-admin/network/settings.php"@,
        "/wp-admin/network/site-new.php"@,
        "/wp-admin/network/site-info.php"@,
        "/wp-admin/network/site-settings.php"@,
        "/wp-admin/network/site-users.php"@,
        "/wp-admin/network/site-themes.php"@,
        "/wp-admin/network/user-new.php"@,
        "/wp-admin/network/edit.php"@,
        "/wp-admin/network/update.php"@,
        "/wp-admin/network/update-core.php"@,
        "/wp-admin/network/plugin-install.php"@,
        "/wp-admin/network/plugin-editor.php"@,
        "/wp-admin/network/theme-editor.php"@,
        "/wp-admin/network/privacy.php"@,
        "/wp-admin/network/about.php"@,
        "/wp-admin/network/credits.php"@,
        "/wp-admin/network/contribute.php"@,
        "/wp-admin/network/freedoms.php"@,
        "/wp-admin/network/profile.php"@,
        "/wp-admin/network/user-edit.php"@,
        "/wp-admin/network/upgrade.php"@,
        "/wp-admin/network/theme-install.php"@,
        "/wp-admin/upgrade.php"@,
        "/wp-admin/update.php"@,
        "/wp-admin/update-core.php"@,
        "/wp-admin/maint/repair.php"@,
        "/wp-admin/admin-ajax.php"@,
        "/wp-admin/admin-post.php"@,
        "/wp-admin/async-upload.php"@,
        "/xmlrpc.php"@,
        "/wp-cron.php"@
    ]
}

pub open spec fn plugin_mode_allows(mode: Seq<char>, endpoint: Seq<char>) -> bool {
    if !eq_ignore_case(mode, "php-runtime"@) {
        true
    } else {
        starts_with(endpoint, "/__wp_rust/"@) || starts_with(endpoint, "/wp-json"@)
            || core_endpoint_list().contains(endpoint)
    }
}

/// `"1" | "true" | "yes" | "on"` after trimming, ignoring ASCII case.
pub open spec fn truthy(v: Seq<char>) -> bool {
    let t = lower_seq(trim(v));
    t == "1"@ || t == "true"@ || t == "yes"@ || t == "on"@
}

pub fn parse_truthy(value: &str) -> (r: bool)
    ensures
        r == truthy(value@),
{
    let v = chars_of(value);
    let t = trim_chars(&v);
    let l = to_lower(&t);
    chars_eq(&l, &chars_of("1")) || chars_eq(&l, &chars_of("true")) || chars_eq(
        &l,
        &chars_of("yes"),
    ) || chars_eq(&l, &chars_of("on"))
}

pub fn php_runtime_core_endpoints() -> (r: Vec<&'static str>)
    ensures
        strs_ref(r@) == core_endpoint_list(),
{
    let r = vec![
        "/",
        "/index.php",
        "/search",
        "/feed",
        "/Admin",
        "/wp-blog-header.php",
        "/wp-load.php",
        "/wp-settings.php",
        "/wp-login.php",
        "/wp-signup.php",
        "/wp-activate.php",
        "/wp-comments-post.php",
        "/wp-mail.php",
        "/wp-trackback.php",
        "/wp-links-opml.php",
        "/wp-includes/load.php",
        "/wp-includes/vars.php",
        "/wp-includes/update.php",
        "/wp-includes/wp-db.php",
        "/wp-includes/utf8.php",
        "/wp-includes/user.php",
        "/wp-includes/functions.php",
        "/wp-includes/formatting.php",
        "/wp-includes/plugin.php",
        "/wp-includes/pluggable.php",
        "/wp-includes/capabilities.php",
        "/wp-includes/option.php",
        "/wp-includes/post.php",
        "/wp-includes/class-wp-hook.php",
        "/wp-includes/class-wp.php",
        "/wp-includes/class-wp-query.php",
        "/wp-includes/class-wp-rewrite.php",
        "/wp-includes/class-wp-role.php",
        "/wp-includes/class-wp-roles.php",
        "/wp-includes/class-wp-user.php",
        "/wp-includes/class-wp-session-tokens.php",
        "/wp-includes/class-wp-user-meta-session-tokens.php",
        "/wp-includes/class-wp-user-query.php",
        "/wp-includes/class-wp-meta-query.php",
        "/wp-includes/class-wp-date-query.php",
        "/wp-includes/class-wp-tax-query.php",
        "/wp-includes/class-wp-term-query.php",
        "/wp-includes/class-wp-comment-query.php",
        "/wp-includes/class-wp-network-query.php",
        "/wp-includes/class-wp-site-query.php",
        "/wp-includes/class-wp-post-type.php",
        "/wp-includes/class-wp-post.php",
        "/wp-includes/class-wp-error.php",
        "/wp-includes/class-wp-http.php",
        "/wp-includes/class-wp-http-cookie.php",
        "/wp-includes/class-wp-http-encoding.php",
        "/wp-includes/class-wp-http-response.php",
        "/wp-includes/class-wp-http-curl.php",
        "/wp-includes/class-wp-http-streams.php",
        "/wp-includes/class-wp-http-proxy.php",
        "/wp-includes/class-wp-http-requests-hooks.php",
        "/wp-includes/class-wp-http-requests-response.php",
        "/wp-includes/class-wp-network.php",
        "/wp-includes/class-wp-site.php",
        "/wp-includes/class-wp-taxonomy.php",
        "/wp-includes/class-wp-theme.php",
        "/wp-includes/class-wp-widget.php",
        "/wp-includes/class-wp-scripts.php",
        "/wp-includes/class-wp-styles.php",
        "/wp-includes/class-wp-dependencies.php",
        "/wp-includes/class-wp-dependency.php",
        "/wp-includes/class-wp-script-modules.php",
        "/wp-includes/class-IXR.php",
        "/wp-includes/class-avif-info.php",
        "/wp-includes/class-feed.php",
        "/wp-includes/class-http.php",
        "/wp-includes/class-json.php",
        "/wp-includes/class-oembed.php",
        "/wp-includes/class-phpass.php",
        "/wp-includes/class-phpmailer.php",
        "/wp-includes/class-pop3.php",
        "/wp-includes/class-requests.php",
        "/wp-includes/class-simplepie.php",
        "/wp-includes/class-smtp.php",
        "/wp-includes/class-snoopy.php",
        "/wp-includes/class-walker-category-dropdown.php",
        "/wp-includes/class-walker-category.php",
        "/wp-includes/class-walker-comment.php",
        "/wp-includes/class-walker-nav-menu.php",
        "/wp-includes/class-walker-page-dropdown.php",
        "/wp-includes/class-walker-page.php",
        "/wp-includes/class-wpdb.php",
        "/wp-includes/class.wp-dependencies.php",
        "/wp-includes/class.wp-scripts.php",
        "/wp-includes/class.wp-styles.php",
        "/wp-includes/compat-utf8.php",
        "/wp-includes/cron.php",
        "/wp-includes/date.php",
        "/wp-includes/default-constants.php",
        "/wp-includes/default-widgets.php",
        "/wp-includes/deprecated.php",
        "/wp-includes/embed-template.php",
        "/wp-includes/embed.php",
        "/wp-includes/error-protection.php",
        "/wp-includes/feed-atom-comments.php",
        "/wp-includes/feed-atom.php",
        "/wp-includes/feed-rdf.php",
        "/wp-includes/feed-rss.php",
        "/wp-includes/feed-rss2-comments.php",
        "/wp-includes/feed-rss2.php",
        "/wp-includes/feed.php",
        "/wp-includes/fonts.php",
        "/wp-includes/functions.wp-scripts.php",
        "/wp-includes/functions.wp-styles.php",
        "/wp-includes/global-styles-and-settings.php",
        "/wp-includes/http.php",
        "/wp-includes/https-detection.php",
        "/wp-includes/https-migration.php",
        "/wp-includes/kses.php",
        "/wp-includes/l10n.php",
        "/wp-includes/locale.php",
        "/wp-includes/media-template.php",
        "/wp-includes/category-template.php",
        "/wp-includes/category.php",
        "/wp-includes/comment-template.php",
        "/wp-includes/comment.php",
        "/wp-includes/compat.php",
        "/wp-includes/bookmark-template.php",
        "/wp-includes/bookmark.php",
        "/wp-includes/cache-compat.php",
        "/wp-includes/cache.php",
        "/wp-includes/canonical.php",
        "/wp-includes/block-bindings.php",
        "/wp-includes/block-editor.php",
        "/wp-includes/block-patterns.php",
        "/wp-includes/block-template-utils.php",
        "/wp-includes/block-template.php",
        "/wp-includes/abilities-api.php",
        "/wp-includes/abilities.php",
        "/wp-includes/admin-bar.php",
        "/wp-includes/atomlib.php",
        "/wp-includes/author-template.php",
        "/wp-includes/class-wp-theme-json-data.php",
        "/wp-includes/class-wp-theme-json-resolver.php",
        "/wp-includes/class-wp-token-map.php",
        "/wp-includes/class-wp-url-pattern-prefixer.php",
        "/wp-includes/class-wp-walker.php",
        "/wp-includes/class-wp-simplepie-file.php",
        "/wp-includes/class-wp-simplepie-sanitize-kses.php",
        "/wp-includes/class-wp-speculation-rules.php",
        "/wp-includes/class-wp-text-diff-renderer-inline.php",
        "/wp-includes/class-wp-text-diff-renderer-table.php",
        "/wp-includes/class-wp-navigation-fallback.php",
        "/wp-includes/class-wp-object-cache.php",
        "/wp-includes/class-wp-oembed-controller.php",
        "/wp-includes/class-wp-paused-extensions-storage.php",
        "/wp-includes/class-wp-phpmailer.php",
        "/wp-includes/class-wp-customize-setting.php",
        "/wp-includes/class-wp-customize-widgets.php",
        "/wp-includes/class-wp-feed-cache-transient.php",
        "/wp-includes/class-wp-feed-cache.php",
        "/wp-includes/class-wp-http-ixr-client.php",
        "/wp-includes/class-wp-customize-control.php",
        "/wp-includes/class-wp-customize-manager.php",
        "/wp-includes/class-wp-customize-nav-menus.php",
        "/wp-includes/class-wp-customize-panel.php",
        "/wp-includes/class-wp-customize-section.php",
        "/wp-includes/class-wp-block-supports.php",
        "/wp-includes/class-wp-block-template.php",
        "/wp-includes/class-wp-block-type.php",
        "/wp-includes/class-wp-classic-to-block-menu-converter.php",
        "/wp-includes/class-wp-duotone.php",
        "/wp-includes/class-wp-block-pattern-categories-registry.php",
        "/wp-includes/class-wp-block-patterns-registry.php",
        "/wp-includes/class-wp-block-styles-registry.php",
        "/wp-includes/class-wp-block-templates-registry.php",
        "/wp-includes/class-wp-block-type-registry.php",
        "/wp-includes/class-wp-block-metadata-registry.php",
        "/wp-includes/class-wp-block-parser.php",
        "/wp-includes/class-wp-block-parser-block.php",
        "/wp-includes/class-wp-block-parser-frame.php",
        "/wp-includes/class-wp-block-processor.php",
        "/wp-includes/class-wp-block-bindings-registry.php",
        "/wp-includes/class-wp-block-bindings-source.php",
        "/wp-includes/class-wp-block-editor-context.php",
        "/wp-includes/class-wp-block-list.php",
        "/wp-includes/class-wp-block.php",
        "/wp-includes/class-wp-recovery-mode.php",
        "/wp-includes/class-wp-recovery-mode-cookie-service.php",
        "/wp-includes/class-wp-recovery-mode-link-service.php",
        "/wp-includes/class-wp-recovery-mode-key-service.php",
        "/wp-includes/class-wp-recovery-mode-email-service.php",
        "/wp-includes/class-wp-xmlrpc-server.php",
        "/wp-includes/class-wp-widget-factory.php",
        "/wp-includes/class-wp-theme-json.php",
        "/wp-includes/class-wp-theme-json-schema.php",
        "/wp-includes/class-wp-textdomain-registry.php",
        "/wp-includes/class-wp-image-editor.php",
        "/wp-includes/class-wp-image-editor-gd.php",
        "/wp-includes/class-wp-image-editor-imagick.php",
        "/wp-includes/class-wp-exception.php",
        "/wp-includes/class-wp-fatal-error-handler.php",
        "/wp-includes/class-wp-admin-bar.php",
        "/wp-includes/class-wp-ajax-response.php",
        "/wp-includes/class-wp-embed.php",
        "/wp-includes/class-wp-editor.php",
        "/wp-includes/class-wp-oembed.php",
        "/wp-includes/class-wp-comment.php",
        "/wp-includes/class-wp-term.php",
        "/wp-includes/class-wp-user-request.php",
        "/wp-includes/class-wp-application-passwords.php",
        "/wp-includes/class-wp-plugin-dependencies.php",
        "/wp-includes/class-wp-locale.php",
        "/wp-includes/class-wp-locale-switcher.php",
        "/wp-includes/class-wp-matchesmapregex.php",
        "/wp-includes/class-wp-list-util.php",
        "/wp-includes/class-wp-metadata-lazyloader.php",
        "/wp-includes/general-template.php",
        "/wp-includes/link-template.php",
        "/wp-includes/default-filters.php",
        "/wp-includes/blocks.php",
        "/wp-includes/theme.php",
        "/wp-includes/theme-templates.php",
        "/wp-includes/theme-previews.php",
        "/wp-includes/speculative-loading.php",
        "/wp-includes/template-loader.php",
        "/wp-includes/template-canvas.php",
        "/wp-includes/template.php",
        "/wp-includes/taxonomy.php",
        "/wp-includes/shortcodes.php",
        "/wp-includes/widgets.php",
        "/wp-includes/style-engine.php",
        "/wp-includes/sitemaps.php",
        "/wp-includes/script-modules.php",
        "/wp-includes/version.php",
        "/wp-includes/wp-diff.php",
        "/wp-includes/view-transitions.php",
        "/wp-includes/js/tinymce/wp-tinymce.php",
        "/wp-admin",
        "/wp-admin/",
        "/wp-admin/index.php",
        "/wp-admin/admin.php",
        "/wp-admin/load-scripts.php",
        "/wp-admin/load-styles.php",
        "/wp-admin/custom-background.php",
        "/wp-admin/custom-header.php",
        "/wp-admin/admin-functions.php",
        "/wp-admin/options-head.php",
        "/wp-admin/menu.php",
        "/wp-admin/menu-header.php",
        "/wp-admin/admin-header.php",
        "/wp-admin/admin-footer.php",
        "/wp-admin/edit-form-blocks.php",
        "/wp-admin/edit-form-advanced.php",
        "/wp-admin/edit-form-comment.php",
        "/wp-admin/edit-link-form.php",
        "/wp-admin/edit-tag-form.php",
        "/wp-admin/link-parse-opml.php",
        "/wp-admin/upgrade-functions.php",
        "/wp-admin/network/menu.php",
        "/wp-admin/user/menu.php",
        "/wp-admin/user/admin.php",
        "/wp-admin/user/index.php",
        "/wp-admin/user/profile.php",
        "/wp-admin/user/user-edit.php",
        "/wp-admin/user/about.php",
        "/wp-admin/user/credits.php",
        "/wp-admin/user/contribute.php",
        "/wp-admin/user/freedoms.php",
        "/wp-admin/user/privacy.php",
        "/wp-admin/profile.php",
        "/wp-admin/user-edit.php",
        "/wp-admin/user-new.php",
        "/wp-admin/post-new.php",
        "/wp-admin/post.php",
        "/wp-admin/install.php",
        "/wp-admin/setup-config.php",
        "/wp-admin/install-helper.php",
        "/wp-admin/options.php",
        "/wp-admin/options-general.php",
        "/wp-admin/options-writing.php",
        "/wp-admin/options-reading.php",
        "/wp-admin/options-discussion.php",
        "/wp-admin/options-media.php",
        "/wp-admin/options-permalink.php",
        "/wp-admin/options-privacy.php",
        "/wp-admin/privacy-policy-guide.php",
        "/wp-admin/about.php",
        "/wp-admin/credits.php",
        "/wp-admin/contribute.php",
        "/wp-admin/freedoms.php",
        "/wp-admin/privacy.php",
        "/wp-admin/plugin-install.php",
        "/wp-admin/plugin-editor.php",
        "/wp-admin/theme-install.php",
        "/wp-admin/theme-editor.php",
        "/wp-admin/widgets.php",
        "/wp-admin/widgets-form.php",
        "/wp-admin/widgets-form-blocks.php",
        "/wp-admin/nav-menus.php",
        "/wp-admin/font-library.php",
        "/wp-admin/customize.php",
        "/wp-admin/authorize-application.php",
        "/wp-admin/site-editor.php",
        "/wp-admin/press-this.php",
        "/wp-admin/term.php",
        "/wp-admin/revision.php",
        "/wp-admin/moderation.php",
        "/wp-admin/my-sites.php",
        "/wp-admin/ms-sites.php",
        "/wp-admin/ms-users.php",
        "/wp-admin/ms-themes.php",
        "/wp-admin/ms-edit.php",
        "/wp-admin/ms-admin.php",
        "/wp-admin/ms-options.php",
        "/wp-admin/ms-upgrade-network.php",
        "/wp-admin/plugins.php",
        "/wp-admin/themes.php",
        "/wp-admin/users.php",
        "/wp-admin/edit.php",
        "/wp-admin/edit-tags.php",
        "/wp-admin/edit-comments.php",
        "/wp-admin/comment.php",
        "/wp-admin/link-manager.php",
        "/wp-admin/link-add.php",
        "/wp-admin/link.php",
        "/wp-admin/media.php",
        "/wp-admin/media-upload.php",
        "/wp-admin/upload.php",
        "/wp-admin/media-new.php",
        "/wp-admin/tools.php",
        "/wp-admin/site-health.php",
        "/wp-admin/site-health-info.php",
        "/wp-admin/export.php",
        "/wp-admin/import.php",
        "/wp-admin/export-personal-data.php",
        "/wp-admin/erase-personal-data.php",
        "/wp-admin/network.php",
        "/wp-admin/network/admin.php",
        "/wp-admin/network/setup.php",
        "/wp-admin/ms-delete-site.php",
        "/wp-admin/network/index.php",
        "/wp-admin/network/sites.php",
        "/wp-admin/network/users.php",
        "/wp-admin/network/themes.php",
        "/wp-admin/network/plugins.php",
        "/wp-admin/network/settings.php",
        "/wp-admin/network/site-new.php",
        "/wp-admin/network/site-info.php",
        "/wp-admin/network/site-settings.php",
        "/wp-admin/network/site-users.php",
        "/wp-admin/network/site-themes.php",
        "/wp-admin/network/user-new.php",
        "/wp-admin/network/edit.php",
        "/wp-admin/network/update.php",
        "/wp-admin/network/update-core.php",
        "/wp-admin/network/plugin-install.php",
        "/wp-admin/network/plugin-editor.php",
        "/wp-admin/network/theme-editor.php",
        "/wp-admin/network/privacy.php",
        "/wp-admin/network/about.php",
        "/wp-admin/network/credits.php",
        "/wp-admin/network/contribute.php",
        "/wp-admin/network/freedoms.php",
        "/wp-admin/network/profile.php",
        "/wp-admin/network/user-edit.php",
        "/wp-admin/network/upgrade.php",
        "/wp-admin/network/theme-install.php",
        "/wp-admin/upgrade.php",
        "/wp-admin/update.php",
        "/wp-admin/update-core.php",
        "/wp-admin/maint/repair.php",
        "/wp-admin/admin-ajax.php",
        "/wp-admin/admin-post.php",
        "/wp-admin/async-upload.php",
        "/xmlrpc.php",
        "/wp-cron.php"
    ];
    assert(strs_ref(r@) =~= core_endpoint_list());
    r
}

fn is_core_endpoint(endpoint: &[char]) -> (r: bool)
    ensures
        r == core_endpoint_list().contains(endpoint@),
{
    let list = php_runtime_core_endpoints();
    let mut k: usize = 0;
    while k < list.len()
        invariant
            k <= list@.len(),
            strs_ref(list@) == core_endpoint_list(),
            forall|j: int| 0 <= j < k ==> list@[j]@ != endpoint@,
        decreases list@.len() - k,
    {
        let item = chars_of(list[k]);
        if chars_eq(&item, endpoint) {
            assert(core_endpoint_list()[k as int] == endpoint@);
            return true;
        }
        k += 1;
    }
    assert(!core_endpoint_list().contains(endpoint@)) by {
        if core_endpoint_list().contains(endpoint@) {
            let j = choose|j: int| 0 <= j < core_endpoint_list().len() && core_endpoint_list()[j] == endpoint@;
            assert(list@[j]@ == endpoint@);
        }
    }
    false
}

fn entry_allows_exec(entry: &[char], endpoint: &[char]) -> (r: bool)
    ensures
        r == entry_allows(entry@, endpoint@),
{
    if chars_eq(entry, &chars_of("*")) {
        return true;
    }
    if entry.len() > 0 && entry[entry.len() - 1] == '*' {
        let body = copy_range(entry, 0, entry.len() - 1);
        assert(body@ =~= entry@.drop_last());
        let prefix = trim_end_char_exec(&body, '/');
        return prefix.len() > 0 && starts_with_exec(endpoint, &prefix);
    }
    chars_eq(entry, endpoint)
}

/// An allowlist admits every endpoint it lists (other than a wildcard
/// entry such as `/*`, which is read as a prefix), admits everything when
/// it lists `*`, and through a `prefix*` entry admits every endpoint that
/// starts with the prefix (its trailing `/` dropped) when that is not
/// empty.
pub proof fn lemma_allowlist_admits(list: Seq<Seq<char>>, entry: Seq<char>, endpoint: Seq<char>)
    requires
        list.contains(entry),
    ensures
        (entry == endpoint && (entry == "*"@ || !(entry.len() > 0 && entry.last() == '*')))
            ==> endpoint_allowed_by(list, endpoint),
        entry == "*"@ ==> endpoint_allowed_by(list, endpoint),
        (entry.len() > 0 && entry.last() == '*' && trim_end_char(entry.drop_last(), '/').len() > 0
            && starts_with(endpoint, trim_end_char(entry.drop_last(), '/')))
            ==> endpoint_allowed_by(list, endpoint),
{
    let i = choose|i: int| 0 <= i < list.len() && list[i] == entry;
    assert(list[i] == entry);
    reveal_strlit("*");
    if entry.len() > 0 && entry.last() == '*' && trim_end_char(entry.drop_last(), '/').len() > 0
        && starts_with(endpoint, trim_end_char(entry.drop_last(), '/')) {
        assert(entry_allows(list[i], endpoint));
    }
    if entry == endpoint && (entry == "*"@ || !(entry.len() > 0 && entry.last() == '*')) {
        assert(entry_allows(list[i], endpoint));
    }
    if entry == "*"@ {
        assert(entry_allows(list[i], endpoint));
    }
}

/// Every compatibility mode lets Rust serve `/__wp_rust/...` and
/// `/wp-json...` endpoints; a mode other than `php-runtime` (in any case)
/// lets it serve every endpoint.
pub proof fn lemma_mode_admits(mode: Seq<char>, endpoint: Seq<char>)
    ensures
        starts_with(endpoint, "/__wp_rust/"@) || starts_with(endpoint, "/wp-json"@) ==> plugin_mode_allows(
            mode,
            endpoint,
        ),
        !eq_ignore_case(mode, "php-runtime"@) ==> plugin_mode_allows(mode, endpoint),
{
}

/// After the production overrides (gateway on, `*` endpoint allowlist,
/// `php-runtime` renamed to `rust-only`) every endpoint routes through
/// Rust, unless the mode was `php-runtime` spelled in another case, which
/// the overrides keep and which still restricts endpoints.
pub proof fn lemma_cutover_routes_every_endpoint(mode: Seq<char>, endpoint: Seq<char>)
    requires
        mode == "php-runtime"@ || !eq_ignore_case(mode, "php-runtime"@),
    ensures
        endpoint_allowed_by(seq!["*"@], endpoint),
        plugin_mode_allows(
            if mode == "php-runtime"@ {
                "rust-only"@
            } else {
                mode
            },
            endpoint,
        ),
{
    let list = seq!["*"@];
    assert(entry_allows(list[0], endpoint));
    reveal_strlit("rust-only");
    reveal_strlit("php-runtime");
    assert(lower_seq("rust-only"@).len() != lower_seq("php-runtime"@).len());
}

impl RustGatewaySettings {
    pub closed spec fn endpoints(&self) -> Seq<Seq<char>> {
        strs(self.endpoint_allowlist@)
    }

    pub closed spec fn methods(&self) -> Seq<Seq<char>> {
        strs(self.method_allowlist@)
    }

    /// True when `endpoint` routes through Rust: the gateway is enabled,
    /// the allowlist admits it, and the compatibility mode permits it.
    pub fn should_route(&self, endpoint: &str) -> (r: bool)
        ensures
            r == (self.enabled && endpoint_allowed_by(strs(self.endpoint_allowlist@), endpoint@)
                && plugin_mode_allows(self.plugin_compat_mode@, endpoint@)),
    {
        self.enabled && self.endpoint_allowed(endpoint) && self.plugin_mode_allows_endpoint(
            endpoint,
        )
    }

    /// True when the trimmed, upper-cased method is in the method allowlist.
    pub fn allows_method(&self, method: &str) -> (r: bool)
        ensures
            r == strs(self.method_allowlist@).contains(upper_seq(trim(method@))),
    {
        let m = chars_of(method);
        let t = trim_chars(&m);
        let u = to_upper(&t);
        contains_string(&self.method_allowlist, &u)
    }

    pub fn plugin_mode_allows_endpoint(&self, endpoint: &str) -> (r: bool)
        ensures
            r == plugin_mode_allows(self.plugin_compat_mode@, endpoint@),
    {
        let mode = chars_of(self.plugin_compat_mode.as_str());
        if !eq_ignore_case_exec(&mode, &chars_of("php-runtime")) {
            return true;
        }
        let e = chars_of(endpoint);
        starts_with_exec(&e, &chars_of("/__wp_rust/")) || starts_with_exec(
            &e,
            &chars_of("/wp-json"),
        ) || is_core_endpoint(&e)
    }

    pub fn endpoint_allowed(&self, endpoint: &str) -> (r: bool)
        ensures
            r == endpoint_allowed_by(strs(self.endpoint_allowlist@), endpoint@),
    {
        let e = chars_of(endpoint);
        let mut k: usize = 0;
        while k < self.endpoint_allowlist.len()
            invariant
                k <= self.endpoint_allowlist@.len(),
                e@ == endpoint@,
                forall|j: int|
                    0 <= j < k ==> !entry_allows(#[trigger] strs(self.endpoint_allowlist@)[j], endpoint@),
            decreases self.endpoint_allowlist@.len() - k,
        {
            let entry = chars_of(self.endpoint_allowlist[k].as_str());
            if entry_allows_exec(&entry, &e) {
                assert(entry_allows(strs(self.endpoint_allowlist@)[k as int], endpoint@));
                return true;
            }
            k += 1;
        }
        false
    }

    /// In the `production-rust` profile (any ASCII case) the gateway is
    /// fully cut over: enabled, no fallback, every endpoint and method
    /// allowed, and the `php-runtime` mode becomes `rust-only`.
    pub fn apply_profile_overrides(&mut self)
        ensures
            !eq_ignore_case(old(self).deployment_profile@, "production-rust"@) ==> *final(self)
                == *old(self),
            eq_ignore_case(old(self).deployment_profile@, "production-rust"@) ==> {
                &&& final(self).enabled
                &&& !final(self).fallback_enabled
                &&& strs(final(self).endpoint_allowlist@) == seq!["*"@]
                &&& strs(final(self).method_allowlist@) == seq!["*"@]
                &&& final(self).plugin_compat_mode@ == (if old(self).plugin_compat_mode@
                    == "php-runtime"@ {
                    "rust-only"@
                } else {
                    old(self).plugin_compat_mode@
                })
                &&& final(self).deployment_profile == old(self).deployment_profile
                &&& final(self).backend_url == old(self).backend_url
                &&& final(self).timeout_ms == old(self).timeout_ms
            },
    {
        let profile = chars_of(self.deployment_profile.as_str());
        if !eq_ignore_case_exec(&profile, &chars_of("production-rust")) {
            return;
        }
        self.enabled = true;
        self.fallback_enabled = false;
        let mut endpoints: Vec<String> = Vec::new();
        endpoints.push(string_of(&chars_of("*")));
        let mut methods: Vec<String> = Vec::new();
        methods.push(string_of(&chars_of("*")));
        assert(strs(endpoints@) =~= seq!["*"@]);
        assert(strs(methods@) =~= seq!["*"@]);
        self.endpoint_allowlist = endpoints;
        self.method_allowlist = methods;
        let mode = chars_of(self.plugin_compat_mode.as_str());
        if chars_eq(&mode, &chars_of("php-runtime")) {
            self.plugin_compat_mode = string_of(&chars_of("rust-only"));
        }
    }
}


impl Default for RustGatewaySettings {
    /// Conservative defaults: disabled, `legacy-safe`, fallback on, only the
    /// health endpoint and `GET`/`HEAD` allowed, `php-runtime` mode.
    fn default() -> (r: Self)
        ensures
            !r.enabled,
            r.deployment_profile@ == "legacy-safe"@,
            r.fallback_enabled,
            r.backend_url@ == "http://127.0.0.1:8088"@,
            r.timeout_ms == 1500,
            strs(r.endpoint_allowlist@) == seq!["/__wp_rust/health"@],
            strs(r.method_allowlist@) == seq!["GET"@, "HEAD"@],
            r.plugin_compat_mode@ == "php-runtime"@,
    {
        let mut endpoints: Vec<String> = Vec::new();
        endpoints.push(string_of(&chars_of("/__wp_rust/health")));
        let mut methods: Vec<String> = Vec::new();
        methods.push(string_of(&chars_of("GET")));
        methods.push(string_of(&chars_of("HEAD")));
        assert(strs(endpoints@) =~= seq!["/__wp_rust/health"@]);
        assert(strs(methods@) =~= seq!["GET"@, "HEAD"@]);
        RustGatewaySettings {
            enabled: false,
            deployment_profile: string_of(&chars_of("legacy-safe")),
            fallback_enabled: true,
            backend_url: string_of(&chars_of("http://127.0.0.1:8088")),
            timeout_ms: 1500,
            endpoint_allowlist: endpoints,
            method_allowlist: methods,
            plugin_compat_mode: string_of(&chars_of("php-runtime")),
        }
    }
}

/// A trimmed, non-empty value, or `default` when the variable is absent or blank.
pub open spec fn trimmed_or(value: Option<Seq<char>>, default: Seq<char>) -> Seq<char> {
    match value {
        Some(v) => if trim(v).len() > 0 {
            trim(v)
        } else {
            default
        },
        None => default,
    }
}

pub open spec fn truthy_or(value: Option<Seq<char>>, default: bool) -> bool {
    match value {
        Some(v) => truthy(v),
        None => default,
    }
}

/// The trimmed, non-empty entries of a list of pieces, in order.
pub open spec fn nonblank_trimmed(pieces: Seq<Seq<char>>) -> Seq<Seq<char>>
    decreases pieces.len(),
{
    if pieces.len() == 0 {
        Seq::empty()
    } else {
        let prev = nonblank_trimmed(pieces.drop_last());
        if trim(pieces.last()).len() > 0 {
            prev.push(trim(pieces.last()))
        } else {
            prev
        }
    }
}

/// Entries of a comma-separated list: trimmed, blanks dropped.
pub open spec fn comma_list(v: Seq<char>) -> Seq<Seq<char>> {
    nonblank_trimmed(split(v, ','))
}

pub open spec fn list_or(value: Option<Seq<char>>, default: Seq<Seq<char>>, upper_case: bool) -> Seq<
    Seq<char>,
> {
    match value {
        Some(v) => if comma_list(v).len() > 0 {
            if upper_case {
                comma_list(v).map_values(|e: Seq<char>| upper_seq(e))
            } else {
                comma_list(v)
            }
        } else {
            default
        },
        None => default,
    }
}

pub open spec fn timeout_or(value: Option<Seq<char>>, default: u64) -> u64 {
    match value {
        Some(v) => match parse_unsigned(v, u64::MAX as nat) {
            Some(n) => n as u64,
            None => default,
        },
        None => default,
    }
}

fn comma_list_exec(v: &[char], upper_case: bool) -> (r: Vec<String>)
    ensures
        upper_case ==> strs(r@) == comma_list(v@).map_values(|e: Seq<char>| upper_seq(e)),
        !upper_case ==> strs(r@) == comma_list(v@),
{
    let pieces = split_char(v, ',');
    let mut r: Vec<String> = Vec::new();
    let mut k: usize = 0;
    while k < pieces.len()
        invariant
            k <= pieces@.len(),
            views(pieces@) == split(v@, ','),
            upper_case ==> strs(r@) == nonblank_trimmed(views(pieces@).subrange(0, k as int)).map_values(
                |e: Seq<char>| upper_seq(e),
            ),
            !upper_case ==> strs(r@) == nonblank_trimmed(views(pieces@).subrange(0, k as int)),
        decreases pieces@.len() - k,
    {
        let t = trim_chars(&pieces[k]);
        assert(views(pieces@).subrange(0, k + 1).drop_last() =~= views(pieces@).subrange(
            0,
            k as int,
        ));
        assert(views(pieces@)[k as int] == pieces@[k as int]@);
        let ghost prev = nonblank_trimmed(views(pieces@).subrange(0, k as int));
        let ghost f = |e: Seq<char>| upper_seq(e);
        if t.len() > 0 {
            if upper_case {
                let u = to_upper(&t);
                let ghost before = r@;
                r.push(string_of(&u));
                assert(nonblank_trimmed(views(pieces@).subrange(0, k + 1)) == prev.push(t@));
                assert(prev.push(t@).map_values(f) =~= prev.map_values(f).push(f(t@)));
                assert(strs(r@) =~= strs(before).push(u@));
            } else {
                r.push(string_of(&t));
            }
        }
        k += 1;
        assert(upper_case ==> strs(r@) =~= nonblank_trimmed(views(pieces@).subrange(0, k as int)).map_values(
            |e: Seq<char>| upper_seq(e),
        ));
        assert(!upper_case ==> strs(r@) =~= nonblank_trimmed(views(pieces@).subrange(0, k as int)));
    }
    assert(views(pieces@).subrange(0, pieces@.len() as int) =~= views(pieces@));
    r
}

impl RustGatewaySettings {
    /// Settings from environment variables given as name/value pairs:
    /// `WP_RUST_GATEWAY_ENABLED`, `WP_RUST_DEPLOYMENT_PROFILE`,
    /// `WP_RUST_GATEWAY_FALLBACK_ENABLED`, `WP_RUST_GATEWAY_BACKEND_URL`,
    /// `WP_RUST_GATEWAY_TIMEOUT_MS`, `WP_RUST_ENDPOINT_ALLOWLIST`,
    /// `WP_RUST_METHOD_ALLOWLIST` (upper-cased) and `WP_RUST_PLUGIN_COMPAT_MODE`;
    /// the deployment profile's overrides are applied last.
    pub fn from_vars(vars: &Vec<(String, String)>) -> (r: Self)
        ensures
            ({
                let profile = trimmed_or(
                    lookup(vars@, "WP_RUST_DEPLOYMENT_PROFILE"@),
                    "legacy-safe"@,
                );
                let mode = trimmed_or(lookup(vars@, "WP_RUST_PLUGIN_COMPAT_MODE"@), "php-runtime"@);
                let cutover = eq_ignore_case(profile, "production-rust"@);
                &&& r.deployment_profile@ == profile
                &&& r.backend_url@ == trimmed_or(
                    lookup(vars@, "WP_RUST_GATEWAY_BACKEND_URL"@),
                    "http://127.0.0.1:8088"@,
                )
                &&& r.timeout_ms == timeout_or(lookup(vars@, "WP_RUST_GATEWAY_TIMEOUT_MS"@), 1500)
                &&& r.enabled == (cutover || truthy_or(
                    lookup(vars@, "WP_RUST_GATEWAY_ENABLED"@),
                    false,
                ))
                &&& r.fallback_enabled == (!cutover && truthy_or(
                    lookup(vars@, "WP_RUST_GATEWAY_FALLBACK_ENABLED"@),
                    true,
                ))
                &&& strs(r.endpoint_allowlist@) == (if cutover {
                    seq!["*"@]
                } else {
                    list_or(
                        lookup(vars@, "WP_RUST_ENDPOINT_ALLOWLIST"@),
                        seq!["/__wp_rust/health"@],
                        false,
                    )
                })
                &&& strs(r.method_allowlist@) == (if cutover {
                    seq!["*"@]
                } else {
                    list_or(lookup(vars@, "WP_RUST_METHOD_ALLOWLIST"@), seq!["GET"@, "HEAD"@], true)
                })
                &&& r.plugin_compat_mode@ == (if cutover && mode == "php-runtime"@ {
                    "rust-only"@
                } else {
                    mode
                })
            }),
    {
        let mut settings = Self::default();
        if let Some(v) = lookup_exec(vars, "WP_RUST_GATEWAY_ENABLED") {
            settings.enabled = parse_truthy(string_of(&v).as_str());
        }
        if let Some(v) = lookup_exec(vars, "WP_RUST_DEPLOYMENT_PROFILE") {
            let t = trim_chars(&v);
            if t.len() > 0 {
                settings.deployment_profile = string_of(&t);
            }
        }
        if let Some(v) = lookup_exec(vars, "WP_RUST_GATEWAY_FALLBACK_ENABLED") {
            settings.fallback_enabled = parse_truthy(string_of(&v).as_str());
        }
        if let Some(v) = lookup_exec(vars, "WP_RUST_GATEWAY_BACKEND_URL") {
            let t = trim_chars(&v);
            if t.len() > 0 {
                settings.backend_url = string_of(&t);
            }
        }
        if let Some(v) = lookup_exec(vars, "WP_RUST_GATEWAY_TIMEOUT_MS") {
            if let Some(n) = parse_u64(&v) {
                settings.timeout_ms = n;
            }
        }
        if let Some(v) = lookup_exec(vars, "WP_RUST_ENDPOINT_ALLOWLIST") {
            let parsed = comma_list_exec(&v, false);
            if parsed.len() > 0 {
                settings.endpoint_allowlist = parsed;
            }
        }
        if let Some(v) = lookup_exec(vars, "WP_RUST_METHOD_ALLOWLIST") {
            let parsed = comma_list_exec(&v, true);
            if parsed.len() > 0 {
                settings.method_allowlist = parsed;
            }
        }
        if let Some(v) = lookup_exec(vars, "WP_RUST_PLUGIN_COMPAT_MODE") {
            let t = trim_chars(&v);
            if t.len() > 0 {
                settings.plugin_compat_mode = string_of(&t);
            }
        }
        settings.apply_profile_overrides();
        settings
    }
}

// ------------------------------------------------------------------
// WordPress constants
// ------------------------------------------------------------------

/// Subset of WordPress default constants used by the migration services.
#[derive(Debug, Clone)]
pub struct WordPressConstants {
    pub wp_debug: bool,
    pub wp_content_dir: String,
    pub wp_plugins_dir: String,
    pub wp_lang_dir: String,
    pub wp_temp_dir: String,
    pub wp_memory_limit: String,
    pub wp_max_memory_limit: String,
}

impl Default for WordPressConstants {
    fn default() -> (r: Self)
        ensures
            !r.wp_debug,
            r.wp_content_dir@ == "wp-content"@,
            r.wp_plugins_dir@ == "wp-content/plugins"@,
            r.wp_lang_dir@ == "wp-content/languages"@,
            r.wp_temp_dir@ == "wp-content/uploads"@,
            r.wp_memory_limit@ == "40M"@,
            r.wp_max_memory_limit@ == "256M"@,
    {
        WordPressConstants {
            wp_debug: false,
            wp_content_dir: string_of(&chars_of("wp-content")),
            wp_plugins_dir: string_of(&chars_of("wp-content/plugins")),
            wp_lang_dir: string_of(&chars_of("wp-content/languages")),
            wp_temp_dir: string_of(&chars_of("wp-content/uploads")),
            wp_memory_limit: string_of(&chars_of("40M")),
            wp_max_memory_limit: string_of(&chars_of("256M")),
        }
    }
}

/// The trimmed value of `key` when present and not blank.
fn trimmed_value(values: &Vec<(String, String)>, key: &str) -> (r: Option<String>)
    ensures
        match r {
            Some(v) => lookup(values@, key@) is Some && v@ == trim(lookup(values@, key@)->0)
                && v@.len() > 0,
            None => lookup(values@, key@) is None || trim(lookup(values@, key@)->0).len() == 0,
        },
{
    match lookup_exec(values, key) {
        Some(v) => {
            let t = trim_chars(&v);
            if t.len() > 0 {
                Some(string_of(&t))
            } else {
                None
            }
        },
        None => None,
    }
}

impl WordPressConstants {
    /// Constants from a key/value map (keys are distinct, as in a map):
    /// `WP_DEBUG` is read as truthy, the directory and memory settings
    /// replace the defaults when present and not blank (trimmed).
    pub fn from_map(values: &Vec<(String, String)>) -> (r: Self)
        ensures
            r.wp_debug == truthy_or(lookup(values@, "WP_DEBUG"@), false),
            r.wp_content_dir@ == trimmed_or(lookup(values@, "WP_CONTENT_DIR"@), "wp-content"@),
            r.wp_plugins_dir@ == trimmed_or(
                lookup(values@, "WP_PLUGIN_DIR"@),
                "wp-content/plugins"@,
            ),
            r.wp_lang_dir@ == trimmed_or(lookup(values@, "WP_LANG_DIR"@), "wp-content/languages"@),
            r.wp_temp_dir@ == trimmed_or(lookup(values@, "WP_TEMP_DIR"@), "wp-content/uploads"@),
            r.wp_memory_limit@ == trimmed_or(lookup(values@, "WP_MEMORY_LIMIT"@), "40M"@),
            r.wp_max_memory_limit@ == trimmed_or(lookup(values@, "WP_MAX_MEMORY_LIMIT"@), "256M"@),
    {
        let mut c = Self::default();
        if let Some(v) = lookup_exec(values, "WP_DEBUG") {
            c.wp_debug = parse_truthy(string_of(&v).as_str());
        }
        if let Some(v) = trimmed_value(values, "WP_CONTENT_DIR") {
            c.wp_content_dir = v;
        }
        if let Some(v) = trimmed_value(values, "WP_PLUGIN_DIR") {
            c.wp_plugins_dir = v;
        }
        if let Some(v) = trimmed_value(values, "WP_LANG_DIR") {
            c.wp_lang_dir = v;
        }
        if let Some(v) = trimmed_value(values, "WP_TEMP_DIR") {
            c.wp_temp_dir = v;
        }
        if let Some(v) = trimmed_value(values, "WP_MEMORY_LIMIT") {
            c.wp_memory_limit = v;
        }
        if let Some(v) = trimmed_value(values, "WP_MAX_MEMORY_LIMIT") {
            c.wp_max_memory_limit = v;
        }
        c
    }

    pub fn memory_limit_bytes(&self) -> (r: Option<u64>)
        ensures
            r == php_size(self.wp_memory_limit@),
    {
        parse_php_size_to_bytes(self.wp_memory_limit.as_str())
    }

    pub fn max_memory_limit_bytes(&self) -> (r: Option<u64>)
        ensures
            r == php_size(self.wp_max_memory_limit@),
    {
        parse_php_size_to_bytes(self.wp_max_memory_limit.as_str())
    }
}

/// Index of the first character that is not an ASCII digit.
pub open spec fn first_non_digit(t: Seq<char>) -> Option<int> {
    if exists|i: int| 0 <= i < t.len() && !is_digit(t[i]) {
        Some(
            choose|i: int|
                0 <= i < t.len() && !is_digit(t[i]) && forall|j: int| 0 <= j < i ==> is_digit(t[j]),
        )
    } else {
        None
    }
}

/// Multiplier of a PHP size suffix (`k`/`kb`, `m`/`mb`, `g`/`gb`, or
/// nothing), 0 when the suffix is not one of them.
pub open spec fn size_multiplier(suffix: Seq<char>) -> nat {
    if suffix == ""@ {
        1
    } else if suffix == "k"@ || suffix == "kb"@ {
        1024
    } else if suffix == "m"@ || suffix == "mb"@ {
        1048576
    } else if suffix == "g"@ || suffix == "gb"@ {
        1073741824
    } else {
        0
    }
}

/// PHP shorthand byte sizes (`40M`, `2g`, `512kb`): leading digits and a
/// unit suffix (trimmed, any ASCII case); the product saturates at `u64::MAX`.
pub open spec fn php_size(input: Seq<char>) -> Option<u64> {
    let t = trim(input);
    match first_non_digit(t) {
        None => None,
        Some(i) => {
            let m = size_multiplier(lower_seq(trim(t.subrange(i, t.len() as int))));
            match parse_unsigned(t.subrange(0, i), u64::MAX as nat) {
                None => None,
                Some(v) => if m == 0 {
                    None
                } else if v * m > u64::MAX {
                    Some(u64::MAX)
                } else {
                    Some((v * m) as u64)
                },
            }
        },
    }
}

/// A number followed by a unit text that starts with a non-digit and has
/// no whitespace at either end reads as the number times the unit's
/// multiplier.
proof fn lemma_php_size_of(n: nat, unit: Seq<char>)
    requires
        n <= u64::MAX,
        unit.len() > 0,
        !is_digit(unit[0]),
        !is_ws(unit[0]),
        !is_ws(unit.last()),
    ensures
        php_size(decimal(n) + unit) == ({
            let m = size_multiplier(lower_seq(unit));
            if m == 0 {
                None
            } else if n * m > u64::MAX {
                Some(u64::MAX)
            } else {
                Some((n * m) as u64)
            }
        }),
{
    let d = decimal(n);
    let t = d + unit;
    lemma_decimal(n);
    lemma_parse_decimal(n, u64::MAX as nat);
    assert(all_digits(d));
    assert(is_digit(t[0]));
    assert(t.last() == unit.last());
    lemma_trim_fixed(t);
    let i = d.len() as int;
    assert(t[i] == unit[0]);
    assert forall|j: int| 0 <= j < i implies is_digit(t[j]) by {
        assert(t[j] == d[j]);
    }
    assert(first_non_digit(t) == Some(i)) by {
        let k = choose|k: int|
            0 <= k < t.len() && !is_digit(t[k]) && forall|j: int| 0 <= j < k ==> is_digit(t[j]);
        if k < i {
            assert(t[k] == d[k]);
        }
    }
    assert(t.subrange(i, t.len() as int) =~= unit);
    assert(t.subrange(0, i) =~= d);
    lemma_trim_fixed(unit);
}

/// The `k` unit in its four spellings.
proof fn lemma_php_size_unit_k(n: nat)
    requires
        n <= u64::MAX,
    ensures
        ({
            let d = decimal(n);
            let v = if n * 1024 > u64::MAX { u64::MAX } else { (n * 1024) as u64 };
            &&& php_size(d + "k"@) == Some(v)
            &&& php_size(d + "kb"@) == Some(v)
            &&& php_size(d + "K"@) == Some(v)
            &&& php_size(d + "KB"@) == Some(v)
        }),
{
    reveal_strlit("k");
    reveal_strlit("kb");
    reveal_strlit("K");
    reveal_strlit("KB");
    reveal_strlit("");
    assert(lower_seq("k"@) =~= "k"@);
    assert(lower_seq("kb"@) =~= "kb"@);
    assert(lower_seq("K"@) =~= "k"@);
    assert(lower_seq("KB"@) =~= "kb"@);
    assert("k"@.len() != ""@.len() && "kb"@.len() != ""@.len() && "kb"@.len() != "k"@.len());
    assert(size_multiplier("k"@) == 1024);
    assert(size_multiplier("kb"@) == 1024);
    lemma_php_size_of(n, "k"@);
    lemma_php_size_of(n, "kb"@);
    lemma_php_size_of(n, "K"@);
    lemma_php_size_of(n, "KB"@);
}

/// The `m` unit in its four spellings.
proof fn lemma_php_size_unit_m(n: nat)
    requires
        n <= u64::MAX,
    ensures
        ({
            let d = decimal(n);
            let v = if n * 1048576 > u64::MAX { u64::MAX } else { (n * 1048576) as u64 };
            &&& php_size(d + "m"@) == Some(v)
            &&& php_size(d + "mb"@) == Some(v)
            &&& php_size(d + "M"@) == Some(v)
            &&& php_size(d + "MB"@) == Some(v)
        }),
{
    reveal_strlit("k");
    reveal_strlit("kb");
    reveal_strlit("m");
    reveal_strlit("mb");
    reveal_strlit("m");
    reveal_strlit("mb");
    reveal_strlit("M");
    reveal_strlit("MB");
    reveal_strlit("");
    assert(lower_seq("m"@) =~= "m"@);
    assert(lower_seq("mb"@) =~= "mb"@);
    assert(lower_seq("M"@) =~= "m"@);
    assert(lower_seq("MB"@) =~= "mb"@);
    assert("m"@[0] != "k"@[0] && "mb"@[0] != "kb"@[0]);
    assert("m"@.len() != "kb"@.len() && "m"@.len() != ""@.len());
    assert("mb"@.len() != "k"@.len() && "mb"@.len() != ""@.len());
    assert(size_multiplier("m"@) == 1048576);
    assert(size_multiplier("mb"@) == 1048576);
    lemma_php_size_of(n, "m"@);
    lemma_php_size_of(n, "mb"@);
    lemma_php_size_of(n, "M"@);
    lemma_php_size_of(n, "MB"@);
}

/// The `g` unit in its four spellings.
proof fn lemma_php_size_unit_g(n: nat)
    requires
        n <= u64::MAX,
    ensures
        ({
            let d = decimal(n);
            let v = if n * 1073741824 > u64::MAX { u64::MAX } else { (n * 1073741824) as u64 };
            &&& php_size(d + "g"@) == Some(v)
            &&& php_size(d + "gb"@) == Some(v)
            &&& php_size(d + "G"@) == Some(v)
            &&& php_size(d + "GB"@) == Some(v)
        }),
{
    reveal_strlit("k");
    reveal_strlit("kb");
    reveal_strlit("m");
    reveal_strlit("mb");
    reveal_strlit("g");
    reveal_strlit("gb");
    reveal_strlit("G");
    reveal_strlit("GB");
    reveal_strlit("");
    assert(lower_seq("g"@) =~= "g"@);
    assert(lower_seq("gb"@) =~= "gb"@);
    assert(lower_seq("G"@) =~= "g"@);
    assert(lower_seq("GB"@) =~= "gb"@);
    assert("g"@[0] != "k"@[0] && "g"@[0] != "m"@[0] && "gb"@[0] != "kb"@[0] && "gb"@[0] != "mb"@[0]);
    assert("g"@.len() != "kb"@.len() && "g"@.len() != "mb"@.len() && "g"@.len() != ""@.len());
    assert("gb"@.len() != "k"@.len() && "gb"@.len() != "m"@.len() && "gb"@.len() != ""@.len());
    assert(size_multiplier("g"@) == 1073741824);
    assert(size_multiplier("gb"@) == 1073741824);
    lemma_php_size_of(n, "g"@);
    lemma_php_size_of(n, "gb"@);
    lemma_php_size_of(n, "G"@);
    lemma_php_size_of(n, "GB"@);
}

/// PHP's size units: `k`/`kb`, `m`/`mb` and `g`/`gb`, in any ASCII case,
/// multiply by 1024, 1024² and 1024³ (saturating at `u64::MAX`); the
/// two-letter forms mean the same as the one-letter ones; a bare number
/// (no unit) is not read.
pub proof fn lemma_php_size_units(n: nat)
    requires
        n <= u64::MAX,
    ensures
        ({
            let d = decimal(n);
            let k = if n * 1024 > u64::MAX { u64::MAX } else { (n * 1024) as u64 };
            let m = if n * 1048576 > u64::MAX { u64::MAX } else { (n * 1048576) as u64 };
            let g = if n * 1073741824 > u64::MAX { u64::MAX } else { (n * 1073741824) as u64 };
            &&& php_size(d + "k"@) == Some(k)
            &&& php_size(d + "kb"@) == Some(k)
            &&& php_size(d + "K"@) == Some(k)
            &&& php_size(d + "KB"@) == Some(k)
            &&& php_size(d + "m"@) == Some(m)
            &&& php_size(d + "mb"@) == Some(m)
            &&& php_size(d + "M"@) == Some(m)
            &&& php_size(d + "MB"@) == Some(m)
            &&& php_size(d + "g"@) == Some(g)
            &&& php_size(d + "gb"@) == Some(g)
            &&& php_size(d + "G"@) == Some(g)
            &&& php_size(d + "GB"@) == Some(g)
            &&& php_size(d) is None
        }),
{
    lemma_php_size_unit_k(n);
    lemma_php_size_unit_m(n);
    lemma_php_size_unit_g(n);
    lemma_decimal(n);
    let d = decimal(n);
    lemma_trim_fixed(d);
    assert(first_non_digit(d) is None);
}

pub fn parse_php_size_to_bytes(input: &str) -> (r: Option<u64>)
    ensures
        r == php_size(input@),
{
    let raw = chars_of(input);
    let t = trim_chars(&raw);
    if t.len() == 0 {
        return None;
    }
    let mut i: usize = 0;
    while i < t.len() && '0' <= t[i] && t[i] <= '9'
        invariant
            i <= t@.len(),
            forall|j: int| 0 <= j < i ==> is_digit(t@[j]),
        decreases t@.len() - i,
    {
        i += 1;
    }
    if i == t.len() {
        assert(first_non_digit(t@) is None);
        return None;
    }
    assert(first_non_digit(t@) == Some(i as int)) by {
        let k = choose|k: int|
            0 <= k < t@.len() && !is_digit(t@[k]) && forall|j: int| 0 <= j < k ==> is_digit(t@[j]);
        if k < i {
        } else if k > i {
        }
    }
    let digits = copy_range(&t, 0, i);
    let suffix_raw = copy_range(&t, i, t.len());
    let suffix_t = trim_chars(&suffix_raw);
    let suffix = to_lower(&suffix_t);
    proof {
        reveal_strlit("");
    }
    let m: u64 = if suffix.len() == 0 {
        assert(suffix@ =~= ""@);
        1
    } else if chars_eq(&suffix, &chars_of("k")) || chars_eq(&suffix, &chars_of("kb")) {
        1024
    } else if chars_eq(&suffix, &chars_of("m")) || chars_eq(&suffix, &chars_of("mb")) {
        1048576
    } else if chars_eq(&suffix, &chars_of("g")) || chars_eq(&suffix, &chars_of("gb")) {
        1073741824
    } else {
        0
    };
    assert(m as nat == size_multiplier(lower_seq(trim(t@.subrange(i as int, t@.len() as int)))));
    let value = match parse_u64(&digits) {
        Some(v) => v,
        None => {
            return None;
        },
    };
    if m == 0 {
        return None;
    }
    match value.checked_mul(m) {
        Some(p) => Some(p),
        None => Some(u64::MAX),
    }
}

/// Whether WordPress runs in production or development mode.
#[derive(Debug, Clone, Copy, PartialEq, Eq, Structural)]
pub enum RuntimeProfile {
    Production,
    Development,
}

impl RuntimeProfile {
    pub fn from_constants(constants: &WordPressConstants) -> (r: Self)
        ensures
            r == (if constants.wp_debug {
                RuntimeProfile::Development
            } else {
                RuntimeProfile::Production
            }),
    {
        if constants.wp_debug {
            RuntimeProfile::Development
        } else {
            RuntimeProfile::Production
        }
    }
}

} // verus!
