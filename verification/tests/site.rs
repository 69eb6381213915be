use rustpress::site::{
    display_date,
    build_post, excerpt_cut_safe, find_post, infer_excerpt, post_inputs_valid, slugify,
    sort_newest_first, split_frontmatter_text, ContentError, Frontmatter, Post, PostDate,
    SiteConfig,
};
use rustpress::wp::{
    html_escape_text, iso_datetime_from_date, post_to_wp_post, stable_id_from_slug, wp_api_index,
};

#[test]
fn slugify_basic() {
    assert_eq!(slugify("hello world"), "hello-world");
    assert_eq!(slugify("  Hello, World!!! "), "hello-world");
    assert_eq!(slugify("RustPress 2026"), "rustpress-2026");
}

#[test]
fn split_frontmatter_separates_yaml_and_body() {
    let raw = "---\ntitle: hello world\nslug: hello-world\ndate: 2026-02-12\nexcerpt: My first post.\n---\n\n# Heading\n\nBody text\n";
    let (fm, body) = split_frontmatter_text(raw).expect("split_frontmatter");
    assert_eq!(fm, "title: hello world\nslug: hello-world\ndate: 2026-02-12\nexcerpt: My first post.");
    assert_eq!(body, "# Heading\n\nBody text");
    assert!(body.contains("Body text"));
}

#[test]
fn split_frontmatter_handles_crlf_and_missing_fence() {
    let raw = "---\r\ntitle: x\r\n---\r\nbody\r\n";
    let (fm, body) = split_frontmatter_text(raw).expect("split");
    assert_eq!(fm, "title: x");
    assert_eq!(body, "body");
    assert_eq!(split_frontmatter_text("title: x\n"), Err(ContentError::MissingFrontmatter));
    assert_eq!(split_frontmatter_text(""), Err(ContentError::MissingFrontmatter));
    // Without a closing fence everything after the first line is frontmatter.
    let (fm, body) = split_frontmatter_text("  ---  \na: 1\nb: 2").expect("split");
    assert_eq!(fm, "a: 1\nb: 2");
    assert_eq!(body, "");
}

#[test]
fn excerpt_rules() {
    assert_eq!(infer_excerpt("# Heading\n\nBody text"), "Heading");
    assert_eq!(infer_excerpt("\n\n  \n\nSecond paragraph.\n\nThird"), "Second paragraph.");
    assert_eq!(infer_excerpt(""), "Post");
    assert_eq!(infer_excerpt("###"), "Post");
    let long = "a".repeat(200);
    let cut = infer_excerpt(&long);
    assert_eq!(cut.len(), 160);
    assert!(cut.ends_with("..."));
    assert_eq!(&cut[..157], &long[..157]);
    let exact = "b".repeat(160);
    assert_eq!(infer_excerpt(&exact), exact);
}

fn front(title: &str, slug: Option<&str>, excerpt: Option<&str>) -> Frontmatter {
    Frontmatter {
        title: title.to_string(),
        slug: slug.map(str::to_string),
        date: PostDate { year: 2026, month: 2, day: 12 },
        excerpt: excerpt.map(str::to_string),
    }
}

#[test]
fn build_post_fills_in_slug_excerpt_and_html() {
    let post = build_post(&front("  Hello World ", None, None), "# Heading\n\nBody text").expect("post");
    assert_eq!(post.title, "Hello World");
    assert_eq!(post.slug, "hello-world");
    assert_eq!(post.excerpt, "Heading");
    assert!(post.content_html.contains("<h1>Heading</h1>"));
    assert!(post.content_html.contains("<p>Body text</p>"));
    assert_eq!(post.id, None);

    let given = build_post(&front("T", Some(" custom "), Some("Given")), "x").expect("post");
    assert_eq!(given.slug, "custom");
    assert_eq!(given.excerpt, "Given");
}

#[test]
fn build_post_errors() {
    assert_eq!(build_post(&front("   ", None, None), "x").err(), Some(ContentError::EmptyTitle));
    assert_eq!(build_post(&front("!!!", None, None), "x").err(), Some(ContentError::EmptySlug));
    assert_eq!(build_post(&front("t", Some("  "), None), "x").err(), Some(ContentError::EmptySlug));
    assert_eq!(ContentError::EmptyTitle.message(), "frontmatter.title must not be empty");
}

fn post(slug: &str, year: i32, month: u32, day: u32) -> Post {
    Post {
        title: slug.to_string(),
        slug: slug.to_string(),
        date: PostDate { year, month, day },
        excerpt: String::new(),
        content_html: String::new(),
        id: None,
        status: None,
    }
}

#[test]
fn posts_are_listed_newest_first_and_stably() {
    let posts = vec![
        post("old", 2024, 1, 1),
        post("new", 2026, 2, 12),
        post("mid-a", 2025, 6, 1),
        post("mid-b", 2025, 6, 1),
    ];
    let sorted = sort_newest_first(posts);
    let slugs: Vec<&str> = sorted.iter().map(|p| p.slug.as_str()).collect();
    assert_eq!(slugs, vec!["new", "mid-a", "mid-b", "old"]);
}

#[test]
fn wp_index_and_post_shape() {
    let site = SiteConfig { title: "RustPress".to_string(), tagline: "Just Rust".to_string() };
    let index = wp_api_index(&site);
    assert_eq!(index.name, "RustPress");
    assert_eq!(index.namespaces, vec!["wp/v2".to_string(), "oembed/1.0".to_string()]);

    let mut p = post("hello-world", 2026, 2, 12);
    p.excerpt = "Fish & <chips>".to_string();
    let wp = post_to_wp_post(&p, "https://example.com//");
    assert_eq!(wp.link, "https://example.com/hello-world/");
    assert_eq!(wp.guid.rendered, wp.link);
    assert_eq!(wp.date, "2026-02-12T00:00:00");
    assert_eq!(wp.status, "publish");
    assert_eq!(wp.excerpt.rendered, "<p>Fish &amp; &lt;chips&gt;</p>");
    assert_eq!(wp.id, stable_id_from_slug("hello-world"));
    assert_eq!(wp.categories, vec![1]);

    p.id = Some(42);
    p.status = Some("draft".to_string());
    let wp = post_to_wp_post(&p, "https://example.com");
    assert_eq!(wp.id, 42);
    assert_eq!(wp.status, "draft");
}

#[test]
fn stable_ids_are_fnv1a_based() {
    // The empty slug hashes to the starting value.
    assert_eq!(stable_id_from_slug(""), 4665604);
    let id = stable_id_from_slug("hello-world");
    assert!((1..=10_000_000).contains(&id));
    assert_eq!(id, stable_id_from_slug("hello-world"));
}

#[test]
fn date_and_escape_formatting() {
    assert_eq!(iso_datetime_from_date(PostDate { year: 7, month: 3, day: 9 }), "0007-03-09T00:00:00");
    assert_eq!(iso_datetime_from_date(PostDate { year: 12345, month: 12, day: 31 }), "+12345-12-31T00:00:00");
    assert_eq!(iso_datetime_from_date(PostDate { year: -44, month: 3, day: 15 }), "-0044-03-15T00:00:00");
    assert_eq!(html_escape_text("\"it's\""), "&quot;it&#39;s&quot;");
}

#[test]
fn find_post_returns_first_match() {
    let posts = vec![post("a", 2026, 1, 1), post("b", 2026, 1, 2), post("b", 2025, 1, 1)];
    assert_eq!(find_post(&posts, "b"), Some(1));
    assert_eq!(find_post(&posts, "a"), Some(0));
    assert_eq!(find_post(&posts, "c"), None);
    assert_eq!(find_post(&Vec::new(), "a"), None);
}

#[test]
fn excerpt_cut_needs_a_char_boundary_at_157() {
    assert!(excerpt_cut_safe("short"));
    assert!(excerpt_cut_safe(&"a".repeat(400)));
    // 156 ASCII bytes, then a two-byte character across byte 157.
    let split = format!("{}{}", "a".repeat(156), "\u{e9}".repeat(10));
    assert!(!excerpt_cut_safe(&split));
    // A long stem that is cut on a boundary.
    let ok = format!("{}{}", "a".repeat(157), "\u{e9}".repeat(10));
    assert!(excerpt_cut_safe(&ok));
}

#[test]
fn post_inputs_valid_only_fails_for_an_uncuttable_inferred_excerpt() {
    let split = format!("{}{}", "a".repeat(156), "\u{e9}".repeat(10));
    assert!(!post_inputs_valid(&front("Title", None, None), &split));
    assert!(post_inputs_valid(&front("Title", None, Some("given")), &split));
    assert!(post_inputs_valid(&front("   ", None, None), &split));
    assert!(post_inputs_valid(&front("!!!", None, None), &split));
    assert!(post_inputs_valid(&front("Title", None, None), "fine"));
    assert_eq!(build_post(&front("   ", None, None), &split).unwrap_err(), ContentError::EmptyTitle);
    assert_eq!(build_post(&front("!!!", None, None), &split).unwrap_err(), ContentError::EmptySlug);
}

#[test]
fn split_frontmatter_parses_yaml_and_body() {
    let raw = "---\ntitle: hello world\nslug: hello-world\ndate: 2026-02-12\nexcerpt: My first post.\n---\n\n# Heading\n\nBody text\n";
    let (yaml, body) = split_frontmatter_text(raw).expect("split_frontmatter");
    let fm: serde_yaml::Value = serde_yaml::from_str(&yaml).expect("deserialize YAML frontmatter");
    assert_eq!(fm["title"].as_str(), Some("hello world"));
    assert_eq!(fm["slug"].as_str(), Some("hello-world"));
    let date = chrono::NaiveDate::parse_from_str(fm["date"].as_str().expect("date"), "%Y-%m-%d")
        .expect("date");
    assert_eq!(date, chrono::NaiveDate::from_ymd_opt(2026, 2, 12).unwrap());
    assert_eq!(fm["excerpt"].as_str(), Some("My first post."));
    assert!(body.contains("Body text"));
}

#[test]
fn display_date_uses_short_month_and_space_padded_day() {
    assert_eq!(display_date(PostDate { year: 2026, month: 2, day: 12 }), Some("Feb 12, 2026".to_string()));
    assert_eq!(display_date(PostDate { year: 2025, month: 11, day: 3 }), Some("Nov  3, 2025".to_string()));
    assert_eq!(display_date(PostDate { year: 824, month: 12, day: 31 }), Some("Dec 31, 0824".to_string()));
    assert_eq!(display_date(PostDate { year: 2024, month: 2, day: 29 }), Some("Feb 29, 2024".to_string()));
    assert_eq!(display_date(PostDate { year: 2023, month: 2, day: 29 }), None);
    assert_eq!(display_date(PostDate { year: 2023, month: 13, day: 1 }), None);
    assert_eq!(display_date(PostDate { year: 2023, month: 4, day: 0 }), None);
}
