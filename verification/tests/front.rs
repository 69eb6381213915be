use rustpress::front::{extract_block_names, parse_front_route, FrontRequest, FrontRouteKind};

#[test]
fn empty_path_defaults_to_root() {
    let request = FrontRequest::from_parts("", "");
    assert_eq!(request.path, "/");
}

#[test]
fn parses_single_post_route() {
    let matched = parse_front_route("/2025/02/hello-world", "");
    assert_eq!(matched.kind, FrontRouteKind::Single);
    assert_eq!(matched.query_vars.get("name"), Some(&"hello-world".to_string()));
    assert_eq!(matched.canonical_redirect, Some("/2025/02/hello-world/".to_string()));
}

#[test]
fn parses_search_route() {
    let matched = parse_front_route("/search", "s=wordpress");
    assert_eq!(matched.kind, FrontRouteKind::Search);
    assert_eq!(matched.query_vars.get("s"), Some(&"wordpress".to_string()));
    assert_eq!(
        matched.template_candidates,
        vec!["search.php".to_string(), "index.php".to_string()]
    );
}

#[test]
fn parses_archive_route() {
    let matched = parse_front_route("/category/news", "");
    assert_eq!(matched.kind, FrontRouteKind::Archive);
    assert_eq!(matched.query_vars.get("category_name"), Some(&"news".to_string()));
    assert!(matched.template_candidates.contains(&"category-news.php".to_string()));
}

#[test]
fn parses_author_archive_route() {
    let matched = parse_front_route("/author/admin", "");
    assert_eq!(matched.kind, FrontRouteKind::Archive);
    assert_eq!(matched.query_vars.get("author_name"), Some(&"admin".to_string()));
    assert!(matched.template_candidates.contains(&"author-admin.php".to_string()));
    assert!(matched.template_candidates.contains(&"author.php".to_string()));
}

#[test]
fn parses_year_archive_route() {
    let matched = parse_front_route("/2025", "");
    assert_eq!(matched.kind, FrontRouteKind::Archive);
    assert_eq!(matched.query_vars.get("year"), Some(&"2025".to_string()));
    assert_eq!(matched.canonical_redirect, Some("/2025/".to_string()));
}

#[test]
fn parses_home_pagination_route() {
    let matched = parse_front_route("/page/2", "");
    assert_eq!(matched.kind, FrontRouteKind::Home);
    assert_eq!(matched.query_vars.get("paged"), Some(&"2".to_string()));
    assert_eq!(
        matched.template_candidates,
        vec!["front-page.php".to_string(), "home.php".to_string(), "index.php".to_string()]
    );
}

#[test]
fn parses_day_archive_route() {
    let matched = parse_front_route("/2025/02/03", "");
    assert_eq!(matched.kind, FrontRouteKind::Archive);
    assert_eq!(matched.query_vars.get("year"), Some(&"2025".to_string()));
    assert_eq!(matched.query_vars.get("monthnum"), Some(&"02".to_string()));
    assert_eq!(matched.query_vars.get("day"), Some(&"03".to_string()));
    assert!(matched.template_candidates.contains(&"date.php".to_string()));
}

#[test]
fn parses_category_archive_pagination_route() {
    let matched = parse_front_route("/category/news/page/2", "");
    assert_eq!(matched.kind, FrontRouteKind::Archive);
    assert_eq!(matched.query_vars.get("category_name"), Some(&"news".to_string()));
    assert_eq!(matched.query_vars.get("paged"), Some(&"2".to_string()));
}

#[test]
fn parses_author_archive_pagination_route() {
    let matched = parse_front_route("/author/admin/page/3", "");
    assert_eq!(matched.kind, FrontRouteKind::Archive);
    assert_eq!(matched.query_vars.get("author_name"), Some(&"admin".to_string()));
    assert_eq!(matched.query_vars.get("paged"), Some(&"3".to_string()));
}

#[test]
fn parses_feed_route() {
    let matched = parse_front_route("/feed/", "");
    assert_eq!(matched.kind, FrontRouteKind::Feed);
    assert_eq!(matched.query_vars.get("feed"), Some(&"rss2".to_string()));
}

#[test]
fn falls_back_to_404_for_unmatched_paths() {
    let matched = parse_front_route("/Admin", "");
    assert_eq!(matched.kind, FrontRouteKind::NotFound);
    assert_eq!(
        matched.template_candidates,
        vec!["404.php".to_string(), "index.php".to_string()]
    );
}

#[test]
fn extracts_block_names_from_markup() {
    let content =
        "<!-- wp:paragraph --><p>Hello</p><!-- /wp:paragraph --><!-- wp:image {\"id\":1} /-->";
    let blocks = extract_block_names(content);
    assert_eq!(blocks, vec!["paragraph".to_string(), "image".to_string()]);
}

// ---- further cases ----

#[test]
fn home_route_has_no_query_vars() {
    let matched = parse_front_route("/", "");
    assert_eq!(matched.kind, FrontRouteKind::Home);
    assert_eq!(matched.query_vars.len(), 0);
    assert_eq!(matched.canonical_redirect, None);
}

#[test]
fn request_path_is_rooted() {
    let request = FrontRequest::from_parts("category/news", "a=1");
    assert!(request.path.starts_with('/'));
    assert_eq!(request.query_string, "a=1");
}

#[test]
fn markup_without_blocks_has_no_names() {
    assert!(extract_block_names("<p>plain</p>").is_empty());
}

#[test]
fn canonical_redirect_target_needs_no_further_redirect() {
    for path in ["blog//post", " /a/b ", "/feed.xml", "/", "", "//x//"] {
        let request = FrontRequest::from_parts(path, "");
        let again = FrontRequest::from_parts(&request.path, "");
        assert_eq!(again.path, request.path);
    }
    let route = parse_front_route("blog//post", "");
    assert_eq!(route.canonical_redirect.as_deref(), Some("/blog/post/"));
    let settled = parse_front_route("/blog/post/", "");
    assert_eq!(settled.canonical_redirect, None);
}

#[test]
fn front_paths_and_routes_have_their_shape() {
    for (path, query) in [("", ""), ("blog//post", " s = hi "), ("/feed", "s=x"), (" a/b.txt ", ""), ("/nope/x/y/z", "")] {
        let request = FrontRequest::from_parts(path, query);
        assert!(request.path.starts_with('/'));
        assert!(!request.path.contains("//"));
        assert!(request.path == "/" || request.path.ends_with('/') || request.path.contains('.'));
        let again = FrontRequest::from_parts(&request.path, &request.query_string);
        assert_eq!(again.path, request.path);
        assert_eq!(again.query_string, request.query_string);
        let route = parse_front_route(path, query);
        assert_eq!(route.template_candidates.last().map(String::as_str), Some("index.php"));
        if route.kind == FrontRouteKind::NotFound {
            assert_eq!(route.query_vars.len(), 0);
        }
    }
    let searched = parse_front_route("/2024/05/", "s=rust");
    assert_eq!(searched.kind, FrontRouteKind::Search);
    assert_eq!(searched.query_vars.get("s").map(String::as_str), Some("rust"));
}
