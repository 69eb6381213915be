//! The WordPress REST view of the blog: the API index and posts in the
//! `wp/v2` post shape.

use vstd::prelude::*;
use vstd::utf8::encode_utf8;
use crate::site::{Post, PostDate, SiteConfig};
use crate::text::{
    append_chars, append_str, chars_of, copy_string, decimal, string_of, trim_end_char,
    trim_end_char_exec, u64_to_chars,
};

verus! {

#[derive(Debug, Clone)]
pub struct WpApiIndex {
    pub name: String,
    pub description: String,
    pub namespaces: Vec<String>,
}

#[derive(Debug, Clone)]
pub struct RenderedText {
    pub rendered: String,
    pub protected: bool,
}

#[derive(Debug, Clone)]
pub struct Guid {
    pub rendered: String,
}

/// A post as `GET /wp-json/wp/v2/posts` returns it.
#[derive(Debug, Clone)]
pub struct WpPost {
    pub id: i64,
    pub date: String,
    pub date_gmt: String,
    pub guid: Guid,
    pub modified: String,
    pub modified_gmt: String,
    pub slug: String,
    pub status: String,
    pub post_type: String,
    pub link: String,
    pub title: RenderedText,
    pub content: RenderedText,
    pub excerpt: RenderedText,
    pub author: i64,
    pub featured_media: i64,
    pub comment_status: String,
    pub ping_status: String,
    pub sticky: bool,
    pub template: String,
    pub format: String,
    pub categories: Vec<i64>,
    pub tags: Vec<i64>,
}

pub fn wp_api_index(site: &SiteConfig) -> (r: WpApiIndex)
    ensures
        r.name@ == site.title@,
        r.description@ == site.tagline@,
        r.namespaces@.len() == 2,
        r.namespaces@[0]@ == "wp/v2"@,
        r.namespaces@[1]@ == "oembed/1.0"@,
{
    let mut namespaces: Vec<String> = Vec::new();
    namespaces.push(string_of(&chars_of("wp/v2")));
    namespaces.push(string_of(&chars_of("oembed/1.0")));
    WpApiIndex {
        name: copy_string(&site.title),
        description: copy_string(&site.tagline),
        namespaces,
    }
}

// ------------------------------------------------------------------
// Ids, dates, escaping
// ------------------------------------------------------------------

/// An FNV-1a style 64-bit hash of the bytes (start value
/// 1469598103934665603, FNV prime 1099511628211, wrapping).
pub open spec fn fnv1a(bytes: Seq<u8>) -> u64
    decreases bytes.len(),
{
    if bytes.len() == 0 {
        1469598103934665603u64
    } else {
        (fnv1a(bytes.drop_last()) ^ (bytes.last() as u64)).wrapping_mul(1099511628211u64)
    }
}

/// A post id from its slug, between 1 and 10,000,000.
pub open spec fn slug_id(slug: Seq<char>) -> i64 {
    ((fnv1a(encode_utf8(slug)) % 10_000_000) + 1) as i64
}

pub fn stable_id_from_slug(slug: &str) -> (r: i64)
    ensures
        r == slug_id(slug@),
        1 <= r <= 10_000_000,
{
    let bytes = slug.as_bytes();
    let mut acc: u64 = 1469598103934665603;
    let mut k: usize = 0;
    assert(bytes@.subrange(0, 0) =~= Seq::<u8>::empty());
    while k < bytes.len()
        invariant
            k <= bytes@.len(),
            acc == fnv1a(bytes@.subrange(0, k as int)),
        decreases bytes@.len() - k,
    {
        assert(bytes@.subrange(0, k + 1).drop_last() =~= bytes@.subrange(0, k as int));
        acc = acc ^ (bytes[k] as u64);
        acc = acc.wrapping_mul(1099511628211);
        k += 1;
    }
    assert(bytes@.subrange(0, k as int) =~= bytes@);
    ((acc % 10_000_000) as i64) + 1
}

pub open spec fn escape_char(c: char) -> Seq<char> {
    if c == '&' {
        "&amp;"@
    } else if c == '<' {
        "&lt;"@
    } else if c == '>' {
        "&gt;"@
    } else if c == '"' {
        "&quot;"@
    } else if c == '\'' {
        "&#39;"@
    } else {
        seq![c]
    }
}

/// `&`, `<`, `>`, `"` and `'` replaced by their HTML entities.
pub open spec fn html_escape(s: Seq<char>) -> Seq<char>
    decreases s.len(),
{
    if s.len() == 0 {
        s
    } else {
        html_escape(s.drop_last()) + escape_char(s.last())
    }
}

pub fn html_escape_text(s: &str) -> (r: String)
    ensures
        r@ == html_escape(s@),
{
    let v = chars_of(s);
    let mut out: Vec<char> = Vec::new();
    let mut k: usize = 0;
    assert(v@.subrange(0, 0) =~= Seq::<char>::empty());
    while k < v.len()
        invariant
            v@ == s@,
            k <= v@.len(),
            out@ == html_escape(v@.subrange(0, k as int)),
        decreases v@.len() - k,
    {
        assert(v@.subrange(0, k + 1).drop_last() =~= v@.subrange(0, k as int));
        let c = v[k];
        if c == '&' {
            append_str(&mut out, "&amp;");
        } else if c == '<' {
            append_str(&mut out, "&lt;");
        } else if c == '>' {
            append_str(&mut out, "&gt;");
        } else if c == '"' {
            append_str(&mut out, "&quot;");
        } else if c == '\'' {
            append_str(&mut out, "&#39;");
        } else {
            out.push(c);
        }
        k += 1;
        assert(out@ =~= html_escape(v@.subrange(0, k as int)));
    }
    assert(v@.subrange(0, k as int) =~= v@);
    string_of(&out)
}

/// `n` in decimal, zero-padded on the left to `width` digits.
pub open spec fn padded(n: nat, width: nat) -> Seq<char> {
    let d = decimal(n);
    if d.len() >= width {
        d
    } else {
        Seq::new((width - d.len()) as nat, |i: int| '0') + d
    }
}

/// chrono's `%Y`: four digits for years 0 to 9999, otherwise a sign and at
/// least four digits.
pub open spec fn year_text(y: i32) -> Seq<char> {
    if 0 <= y <= 9999 {
        padded(y as nat, 4)
    } else if y < 0 {
        seq!['-'] + padded((-y) as nat, 4)
    } else {
        seq!['+'] + padded(y as nat, 4)
    }
}

/// `%Y-%m-%dT00:00:00`.
pub open spec fn iso_midnight(d: PostDate) -> Seq<char> {
    year_text(d.year) + seq!['-'] + padded(d.month as nat, 2) + seq!['-'] + padded(d.day as nat, 2)
        + "T00:00:00"@
}

fn padded_exec(n: u64, width: usize) -> (r: Vec<char>)
    ensures
        r@ == padded(n as nat, width as nat),
{
    let d = u64_to_chars(n);
    if d.len() >= width {
        return d;
    }
    let mut out: Vec<char> = Vec::new();
    let fill = width - d.len();
    let mut k: usize = 0;
    while k < fill
        invariant
            k <= fill,
            out@ == Seq::new(k as nat, |i: int| '0'),
        decreases fill - k,
    {
        out.push('0');
        k += 1;
        assert(out@ =~= Seq::new(k as nat, |i: int| '0'));
    }
    append_chars(&mut out, &d);
    out
}

pub fn iso_datetime_from_date(date: PostDate) -> (r: String)
    ensures
        r@ == iso_midnight(date),
{
    let mut out: Vec<char> = if 0 <= date.year && date.year <= 9999 {
        padded_exec(date.year as u64, 4)
    } else if date.year < 0 {
        let mut v: Vec<char> = Vec::new();
        v.push('-');
        let mag: u64 = (-(date.year as i64)) as u64;
        let p = padded_exec(mag, 4);
        append_chars(&mut v, &p);
        v
    } else {
        let mut v: Vec<char> = Vec::new();
        v.push('+');
        let p = padded_exec(date.year as u64, 4);
        append_chars(&mut v, &p);
        v
    };
    assert(out@ =~= year_text(date.year));
    out.push('-');
    let m = padded_exec(date.month as u64, 2);
    append_chars(&mut out, &m);
    out.push('-');
    let d = padded_exec(date.day as u64, 2);
    append_chars(&mut out, &d);
    append_str(&mut out, "T00:00:00");
    assert(out@ =~= iso_midnight(date));
    string_of(&out)
}

// ------------------------------------------------------------------
// Posts
// ------------------------------------------------------------------

/// `{base_url without trailing slashes}/{slug}/`.
pub open spec fn post_link(base_url: Seq<char>, slug: Seq<char>) -> Seq<char> {
    trim_end_char(base_url, '/') + seq!['/'] + slug + seq!['/']
}

pub open spec fn post_id(post: Post) -> i64 {
    match post.id {
        Some(id) => id,
        None => slug_id(post.slug@),
    }
}

/// A post in the REST shape: dates at midnight (the same for GMT and
/// modified), guid and link the permalink, status `publish` unless set,
/// the excerpt escaped inside `<p>`, author 1, category 1.
pub open spec fn wp_post_of(r: WpPost, post: Post, base_url: Seq<char>) -> bool {
    let date = iso_midnight(post.date);
    let link = post_link(base_url, post.slug@);
    &&& r.id == post_id(post)
    &&& r.date@ == date
    &&& r.date_gmt@ == date
    &&& r.modified@ == date
    &&& r.modified_gmt@ == date
    &&& r.guid.rendered@ == link
    &&& r.link@ == link
    &&& r.slug@ == post.slug@
    &&& r.status@ == match post.status {
        Some(s) => s@,
        None => "publish"@,
    }
    &&& r.post_type@ == "post"@
    &&& r.title.rendered@ == post.title@ && !r.title.protected
    &&& r.content.rendered@ == post.content_html@ && !r.content.protected
    &&& r.excerpt.rendered@ == "<p>"@ + html_escape(post.excerpt@) + "</p>"@ && !r.excerpt.protected
    &&& r.author == 1 && r.featured_media == 0
    &&& r.comment_status@ == "open"@ && r.ping_status@ == "open"@
    &&& !r.sticky
    &&& r.template@.len() == 0
    &&& r.format@ == "standard"@
    &&& r.categories@ == seq![1i64]
    &&& r.tags@.len() == 0
}

fn link_exec(base_url: &str, slug: &str) -> (r: String)
    ensures
        r@ == post_link(base_url@, slug@),
{
    let mut v = trim_end_char_exec(&chars_of(base_url), '/');
    v.push('/');
    append_str(&mut v, slug);
    v.push('/');
    string_of(&v)
}

fn excerpt_html(excerpt: &str) -> (r: String)
    ensures
        r@ == "<p>"@ + html_escape(excerpt@) + "</p>"@,
{
    let mut v = chars_of("<p>");
    let escaped = html_escape_text(excerpt);
    append_str(&mut v, escaped.as_str());
    append_str(&mut v, "</p>");
    string_of(&v)
}

fn text_of(s: &str) -> (r: String)
    ensures
        r@ == s@,
{
    string_of(&chars_of(s))
}

#[verifier::rlimit(40)]
pub fn post_to_wp_post(post: &Post, base_url: &str) -> (r: WpPost)
    ensures
        wp_post_of(r, *post, base_url@),
{
    let id = match post.id {
        Some(id) => id,
        None => stable_id_from_slug(post.slug.as_str()),
    };
    let date = iso_datetime_from_date(post.date);
    let link = link_exec(base_url, post.slug.as_str());
    let status = match &post.status {
        Some(s) => copy_string(s),
        None => text_of("publish"),
    };
    let mut categories: Vec<i64> = Vec::new();
    categories.push(1);
    assert(categories@ =~= seq![1i64]);
    WpPost {
        id,
        date: copy_string(&date),
        date_gmt: copy_string(&date),
        guid: Guid { rendered: copy_string(&link) },
        modified: copy_string(&date),
        modified_gmt: date,
        slug: copy_string(&post.slug),
        status,
        post_type: text_of("post"),
        link,
        title: RenderedText { rendered: copy_string(&post.title), protected: false },
        content: RenderedText { rendered: copy_string(&post.content_html), protected: false },
        excerpt: RenderedText { rendered: excerpt_html(post.excerpt.as_str()), protected: false },
        author: 1,
        featured_media: 0,
        comment_status: text_of("open"),
        ping_status: text_of("open"),
        sticky: false,
        template: String::new(),
        format: text_of("standard"),
        categories,
        tags: Vec::new(),
    }
}

} // verus!
