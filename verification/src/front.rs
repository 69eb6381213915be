//! Front-end route parsing: permalinks to query vars and template
//! hierarchies, plus block-name extraction from post content.

use vstd::prelude::*;
use crate::text::{
    all_digits, append_chars, chars_eq, chars_of, collapse_slashes, collapse_slashes_exec,
    contains_exec, contains_seq, copy_range, digits_value, ends_with, first_occurrence, find,
    find_char, first_index_of, first_word, first_word_exec, is_digit, lemma_first_occurrence_props,
    parse_uint, parse_unsigned, split, split_char, split_nonempty, split_nonempty_exec, string_of,
    trim, trim_chars, trim_end_char, trim_end_char_exec, u64_to_chars, decimal, views, KeyedList, last_value, pair_views, make_pair, append_str, strs, str_eq,
    is_ws, lemma_collapse_slashes, lemma_trim_ends, lemma_trim_fixed, no_double_slash, trim_end, trim_start,
};

verus! {

/// A normalized front-end request.
#[derive(Debug, Clone)]
pub struct FrontRequest {
    pub path: String,
    pub query_string: String,
}

/// Front-end path normalization: trimmed, `/` for empty, a leading `/`,
/// runs of `/` collapsed, and a trailing `/` added unless the path is the
/// root, already ends in `/`, or contains a `.`.
pub open spec fn front_path(path: Seq<char>) -> Seq<char> {
    let t = trim(path);
    if t.len() == 0 {
        seq!['/']
    } else {
        let prefixed = if t[0] == '/' {
            t
        } else {
            seq!['/'] + t
        };
        let c = collapse_slashes(prefixed);
        if c != seq!['/'] && !(c.len() > 0 && c.last() == '/') && !c.contains('.') {
            c.push('/')
        } else {
            c
        }
    }
}

fn has_char(v: &[char], c: char) -> (r: bool)
    ensures
        r == v@.contains(c),
{
    match find_char(v, c) {
        Some(i) => true,
        None => false,
    }
}

pub fn front_normalize_path(path: &str) -> (r: Vec<char>)
    ensures
        r@ == front_path(path@),
{
    let raw = chars_of(path);
    let t = trim_chars(&raw);
    if t.len() == 0 {
        let mut v: Vec<char> = Vec::new();
        v.push('/');
        assert(v@ =~= seq!['/']);
        return v;
    }
    let prefixed = if t[0] == '/' {
        t
    } else {
        let mut v: Vec<char> = Vec::new();
        v.push('/');
        append_chars(&mut v, &t);
        assert(v@ =~= seq!['/'] + t@);
        v
    };
    let mut c = collapse_slashes_exec(&prefixed);
    let mut root: Vec<char> = Vec::new();
    root.push('/');
    assert(root@ =~= seq!['/']);
    if !chars_eq(&c, &root) && !(c.len() > 0 && c[c.len() - 1] == '/') && !has_char(&c, '.') {
        c.push('/');
    }
    c
}

impl FrontRequest {
    pub fn from_parts(path: &str, query_string: &str) -> (r: Self)
        ensures
            r.path@ == front_path(path@),
            r.query_string@ == trim(query_string@),
    {
        let p = front_normalize_path(path);
        let q = chars_of(query_string);
        let qt = trim_chars(&q);
        FrontRequest { path: string_of(&p), query_string: string_of(&qt) }
    }
}

#[derive(Debug, Clone, Copy, PartialEq, Eq, Structural)]
pub enum FrontRouteKind {
    Home,
    Single,
    Page,
    Archive,
    Search,
    Feed,
    NotFound,
}

#[derive(Debug, Clone)]
pub struct FrontRouteMatch {
    pub request: FrontRequest,
    pub kind: FrontRouteKind,
    pub query_vars: KeyedList<String>,
    pub template_candidates: Vec<String>,
    pub canonical_redirect: Option<String>,
}

// ------------------------------------------------------------------
// Query strings and path segments
// ------------------------------------------------------------------

/// One `key=value` entry: key and value trimmed, `None` for a blank key.
pub open spec fn query_entry(e: Seq<char>) -> Option<(Seq<char>, Seq<char>)> {
    match first_index_of(e, '=') {
        Some(i) => if trim(e.subrange(0, i)).len() > 0 {
            Some((trim(e.subrange(0, i)), trim(e.subrange(i + 1, e.len() as int))))
        } else {
            None
        },
        None => if trim(e).len() > 0 {
            Some((trim(e), Seq::empty()))
        } else {
            None
        },
    }
}

pub open spec fn query_entries(pieces: Seq<Seq<char>>) -> Seq<(Seq<char>, Seq<char>)>
    decreases pieces.len(),
{
    if pieces.len() == 0 {
        Seq::empty()
    } else {
        match query_entry(pieces.last()) {
            Some(kv) => query_entries(pieces.drop_last()).push(kv),
            None => query_entries(pieces.drop_last()),
        }
    }
}

/// The `&`-separated entries of a query string, in order.
pub open spec fn query_pairs(q: Seq<char>) -> Seq<(Seq<char>, Seq<char>)> {
    query_entries(split(q, '&'))
}

fn parse_query_entry(e: &[char]) -> (r: Option<(Vec<char>, Vec<char>)>)
    ensures
        match r {
            Some(kv) => query_entry(e@) == Some((kv.0@, kv.1@)),
            None => query_entry(e@) is None,
        },
{
    match find_char(e, '=') {
        Some(i) => {
            let k = copy_range(e, 0, i);
            let kt = trim_chars(&k);
            if kt.len() == 0 {
                return None;
            }
            let elen = e.len();
            assert(i < elen);
            let v = copy_range(e, i + 1, elen);
            let vt = trim_chars(&v);
            Some((kt, vt))
        },
        None => {
            let kt = trim_chars(e);
            if kt.len() == 0 {
                return None;
            }
            let empty: Vec<char> = Vec::new();
            assert(empty@ =~= Seq::<char>::empty());
            Some((kt, empty))
        },
    }
}

/// The value of the last `key=` entry of a query string.
pub fn query_value(q: &[char], key: &[char]) -> (r: Option<Vec<char>>)
    ensures
        match r {
            Some(v) => last_value(query_pairs(q@), key@) == Some(v@),
            None => last_value(query_pairs(q@), key@) is None,
        },
{
    let pieces = split_char(q, '&');
    let mut found: Option<Vec<char>> = None;
    let mut k: usize = 0;
    while k < pieces.len()
        invariant
            k <= pieces@.len(),
            views(pieces@) == split(q@, '&'),
            match found {
                Some(v) => last_value(query_entries(views(pieces@).subrange(0, k as int)), key@)
                    == Some(v@),
                None => last_value(query_entries(views(pieces@).subrange(0, k as int)), key@) is None,
            },
        decreases pieces@.len() - k,
    {
        assert(views(pieces@).subrange(0, k + 1).drop_last() =~= views(pieces@).subrange(0, k as int));
        assert(views(pieces@)[k as int] == pieces@[k as int]@);
        let ghost prev = query_entries(views(pieces@).subrange(0, k as int));
        match parse_query_entry(&pieces[k]) {
            Some(kv) => {
                assert(query_entries(views(pieces@).subrange(0, k + 1)) == prev.push((kv.0@, kv.1@)));
                assert(prev.push((kv.0@, kv.1@)).drop_last() =~= prev);
                if chars_eq(&kv.0, key) {
                    found = Some(kv.1);
                }
            },
            None => {
                assert(query_entries(views(pieces@).subrange(0, k + 1)) == prev);
            },
        }
        k += 1;
    }
    assert(views(pieces@).subrange(0, k as int) =~= views(pieces@));
    found
}

pub open spec fn is_year(v: Seq<char>) -> bool {
    v.len() == 4 && all_digits(v)
}

pub open spec fn is_month(v: Seq<char>) -> bool {
    v.len() == 2 && all_digits(v) && 1 <= digits_value(v) <= 12
}

pub open spec fn is_day(v: Seq<char>) -> bool {
    v.len() == 2 && all_digits(v) && 1 <= digits_value(v) <= 31
}

/// Parses as a `u32` greater than zero.
pub open spec fn is_positive_integer(v: Seq<char>) -> bool {
    parse_unsigned(v, u32::MAX as nat) matches Some(n) && n > 0
}

fn all_digits_exec(v: &[char]) -> (r: bool)
    ensures
        r == all_digits(v@),
{
    let mut k: usize = 0;
    while k < v.len()
        invariant
            k <= v@.len(),
            forall|j: int| 0 <= j < k ==> is_digit(#[trigger] v@[j]),
        decreases v@.len() - k,
    {
        if !('0' <= v[k] && v[k] <= '9') {
            assert(!is_digit(v@[k as int]));
            return false;
        }
        k += 1;
    }
    true
}

fn is_year_exec(v: &[char]) -> (r: bool)
    ensures
        r == is_year(v@),
{
    v.len() == 4 && all_digits_exec(v)
}

fn two_digit_in(v: &[char], hi: u64) -> (r: bool)
    ensures
        r == (v@.len() == 2 && all_digits(v@) && 1 <= digits_value(v@) <= hi),
{
    if v.len() != 2 || !all_digits_exec(v) {
        return false;
    }
    match parse_uint(v, 255) {
        Some(n) => 1 <= n && n <= hi,
        None => {
            assert(digits_value(v@) <= 99) by {
                let a = v@.drop_last();
                assert(a.drop_last() =~= Seq::<char>::empty());
                assert(is_digit(v@[0]) && is_digit(v@[1]));
                assert(a.last() == v@[0]);
                assert(digits_value(a) == 10 * digits_value(a.drop_last()) + crate::text::digit_val(a.last()));
                assert(digits_value(a) <= 9);
            }
            false
        },
    }
}

fn is_month_exec(v: &[char]) -> (r: bool)
    ensures
        r == is_month(v@),
{
    two_digit_in(v, 12)
}

fn is_day_exec(v: &[char]) -> (r: bool)
    ensures
        r == is_day(v@),
{
    two_digit_in(v, 31)
}

fn is_positive_integer_exec(v: &[char]) -> (r: bool)
    ensures
        r == is_positive_integer(v@),
{
    match parse_uint(v, 4294967295) {
        Some(n) => n > 0,
        None => false,
    }
}


// ------------------------------------------------------------------
// Route classification
// ------------------------------------------------------------------

/// `(slug, page)` for `/{base}/{slug}/` or `/{base}/{slug}/page/{n}/`.
pub open spec fn taxonomy_archive(segs: Seq<Seq<char>>, base: Seq<char>) -> Option<
    (Seq<char>, Option<nat>),
> {
    if segs.len() == 2 && segs[0] == base && segs[1].len() > 0 {
        Some((segs[1], None))
    } else if segs.len() == 4 && segs[0] == base && segs[1].len() > 0 && segs[2] == "page"@
        && is_positive_integer(segs[3]) {
        Some((segs[1], parse_unsigned(segs[3], u32::MAX as nat)))
    } else {
        None
    }
}

pub open spec fn archive_vars(key: Seq<char>, slug: Seq<char>, page: Option<nat>) -> Seq<
    (Seq<char>, Seq<char>),
> {
    match page {
        Some(n) => seq![(key, slug), ("paged"@, decimal(n))],
        None => seq![(key, slug)],
    }
}

pub open spec fn slug_char(c: char) -> bool {
    ('a' <= c && c <= 'z') || ('0' <= c && c <= '9') || c == '-'
}

pub open spec fn all_slug_chars(s: Seq<char>) -> bool {
    forall|i: int| 0 <= i < s.len() ==> slug_char(#[trigger] s[i])
}

/// The route kind and query vars (in insertion order) of a normalized
/// front-end path and trimmed query string.
pub open spec fn route(path: Seq<char>, query: Seq<char>) -> (FrontRouteKind, Seq<(Seq<char>, Seq<char>)>) {
    let segs = split_nonempty(path, '/');
    let search = last_value(query_pairs(query), "s"@);
    if path == "/"@ {
        (FrontRouteKind::Home, Seq::empty())
    } else if path == "/feed"@ || path == "/feed/"@ {
        (FrontRouteKind::Feed, seq![("feed"@, "rss2"@)])
    } else if search is Some && search->0.len() > 0 {
        (FrontRouteKind::Search, seq![("s"@, search->0)])
    } else if taxonomy_archive(segs, "category"@) is Some {
        let t = taxonomy_archive(segs, "category"@)->0;
        (FrontRouteKind::Archive, archive_vars("category_name"@, t.0, t.1))
    } else if taxonomy_archive(segs, "tag"@) is Some {
        let t = taxonomy_archive(segs, "tag"@)->0;
        (FrontRouteKind::Archive, archive_vars("tag"@, t.0, t.1))
    } else if taxonomy_archive(segs, "author"@) is Some {
        let t = taxonomy_archive(segs, "author"@)->0;
        (FrontRouteKind::Archive, archive_vars("author_name"@, t.0, t.1))
    } else if segs.len() == 3 && is_year(segs[0]) && is_month(segs[1]) && is_day(segs[2]) {
        (
            FrontRouteKind::Archive,
            seq![("year"@, segs[0]), ("monthnum"@, segs[1]), ("day"@, segs[2])],
        )
    } else if segs.len() == 3 && is_year(segs[0]) && is_month(segs[1]) && segs[2].len() > 0 {
        (
            FrontRouteKind::Single,
            seq![("year"@, segs[0]), ("monthnum"@, segs[1]), ("name"@, segs[2])],
        )
    } else if segs.len() == 2 && segs[0] == "page"@ && is_positive_integer(segs[1]) {
        (FrontRouteKind::Home, seq![("paged"@, segs[1])])
    } else if segs.len() == 1 && is_year(segs[0]) {
        (FrontRouteKind::Archive, seq![("year"@, segs[0])])
    } else if segs.len() == 2 && is_year(segs[0]) && is_month(segs[1]) {
        (FrontRouteKind::Archive, seq![("year"@, segs[0]), ("monthnum"@, segs[1])])
    } else if segs.len() == 1 && all_slug_chars(segs[0]) {
        (FrontRouteKind::Page, seq![("pagename"@, segs[0])])
    } else {
        (FrontRouteKind::NotFound, Seq::empty())
    }
}

fn taxonomy_archive_from_segments(segs: &Vec<Vec<char>>, base: &str) -> (r: Option<(Vec<char>, Option<u64>)>)
    ensures
        match r {
            Some(t) => taxonomy_archive(views(segs@), base@) matches Some(s) && s.0 == t.0@ && match s.1 {
                Some(n) => t.1 == Some(n as u64),
                None => t.1 is None,
            },
            None => taxonomy_archive(views(segs@), base@) is None,
        },
{
    let b = chars_of(base);
    let ghost sv = views(segs@);
    if segs.len() == 2 {
        assert(sv[0] == segs@[0]@ && sv[1] == segs@[1]@);
        if chars_eq(&segs[0], &b) && segs[1].len() > 0 {
            return Some((copy_range(&segs[1], 0, segs[1].len()), None));
        }
        return None;
    }
    if segs.len() == 4 {
        assert(sv[0] == segs@[0]@ && sv[1] == segs@[1]@ && sv[2] == segs@[2]@ && sv[3] == segs@[3]@);
        if chars_eq(&segs[0], &b) && segs[1].len() > 0 && chars_eq(&segs[2], &chars_of("page"))
            && is_positive_integer_exec(&segs[3]) {
            let n = parse_uint(&segs[3], 4294967295);
            return Some((copy_range(&segs[1], 0, segs[1].len()), n));
        }
    }
    None
}

fn all_slug_chars_exec(v: &[char]) -> (r: bool)
    ensures
        r == all_slug_chars(v@),
{
    let mut k: usize = 0;
    while k < v.len()
        invariant
            k <= v@.len(),
            forall|j: int| 0 <= j < k ==> slug_char(#[trigger] v@[j]),
        decreases v@.len() - k,
    {
        let c = v[k];
        if !(('a' <= c && c <= 'z') || ('0' <= c && c <= '9') || c == '-') {
            assert(!slug_char(v@[k as int]));
            return false;
        }
        k += 1;
    }
    true
}

fn archive_vars_exec(key: &str, slug: &[char], page: Option<u64>) -> (r: Vec<(String, String)>)
    ensures
        pair_views(r@) == archive_vars(key@, slug@, match page {
            Some(n) => Some(n as nat),
            None => None,
        }),
{
    let mut r: Vec<(String, String)> = Vec::new();
    r.push(make_pair(&chars_of(key), slug));
    match page {
        Some(n) => {
            let d = u64_to_chars(n);
            r.push(make_pair(&chars_of("paged"), &d));
        },
        None => {},
    }
    assert(pair_views(r@) =~= archive_vars(key@, slug@, match page {
        Some(n) => Some(n as nat),
        None => None,
    }));
    r
}

fn one_var(k: &str, v: &[char]) -> (r: Vec<(String, String)>)
    ensures
        pair_views(r@) == seq![(k@, v@)],
{
    let mut r: Vec<(String, String)> = Vec::new();
    r.push(make_pair(&chars_of(k), v));
    assert(pair_views(r@) =~= seq![(k@, v@)]);
    r
}

fn two_vars(k1: &str, v1: &[char], k2: &str, v2: &[char]) -> (r: Vec<(String, String)>)
    ensures
        pair_views(r@) == seq![(k1@, v1@), (k2@, v2@)],
{
    let mut r: Vec<(String, String)> = Vec::new();
    r.push(make_pair(&chars_of(k1), v1));
    r.push(make_pair(&chars_of(k2), v2));
    assert(pair_views(r@) =~= seq![(k1@, v1@), (k2@, v2@)]);
    r
}

fn three_vars(k1: &str, v1: &[char], k2: &str, v2: &[char], k3: &str, v3: &[char]) -> (r: Vec<
    (String, String),
>)
    ensures
        pair_views(r@) == seq![(k1@, v1@), (k2@, v2@), (k3@, v3@)],
{
    let mut r: Vec<(String, String)> = Vec::new();
    r.push(make_pair(&chars_of(k1), v1));
    r.push(make_pair(&chars_of(k2), v2));
    r.push(make_pair(&chars_of(k3), v3));
    assert(pair_views(r@) =~= seq![(k1@, v1@), (k2@, v2@), (k3@, v3@)]);
    r
}

fn classify(path: &[char], query: &[char]) -> (r: (FrontRouteKind, Vec<(String, String)>))
    ensures
        r.0 == route(path@, query@).0,
        pair_views(r.1@) == route(path@, query@).1,
{
    let segs = split_nonempty_exec(path, '/');
    let ghost sv = views(segs@);
    let empty: Vec<(String, String)> = Vec::new();
    assert(pair_views(empty@) =~= Seq::<(Seq<char>, Seq<char>)>::empty());
    if str_eq(string_of(path).as_str(), "/") {
        return (FrontRouteKind::Home, empty);
    }
    if str_eq(string_of(path).as_str(), "/feed") || str_eq(string_of(path).as_str(), "/feed/") {
        return (FrontRouteKind::Feed, one_var("feed", &chars_of("rss2")));
    }
    match query_value(query, &chars_of("s")) {
        Some(v) => {
            if v.len() > 0 {
                return (FrontRouteKind::Search, one_var("s", &v));
            }
        },
        None => {},
    }
    match taxonomy_archive_from_segments(&segs, "category") {
        Some(t) => {
            return (FrontRouteKind::Archive, archive_vars_exec("category_name", &t.0, t.1));
        },
        None => {},
    }
    match taxonomy_archive_from_segments(&segs, "tag") {
        Some(t) => {
            return (FrontRouteKind::Archive, archive_vars_exec("tag", &t.0, t.1));
        },
        None => {},
    }
    match taxonomy_archive_from_segments(&segs, "author") {
        Some(t) => {
            return (FrontRouteKind::Archive, archive_vars_exec("author_name", &t.0, t.1));
        },
        None => {},
    }
    let n = segs.len();
    if n == 3 {
        assert(sv[0] == segs@[0]@ && sv[1] == segs@[1]@ && sv[2] == segs@[2]@);
        if is_year_exec(&segs[0]) && is_month_exec(&segs[1]) && is_day_exec(&segs[2]) {
            return (
                FrontRouteKind::Archive,
                three_vars("year", &segs[0], "monthnum", &segs[1], "day", &segs[2]),
            );
        }
        if is_year_exec(&segs[0]) && is_month_exec(&segs[1]) && segs[2].len() > 0 {
            return (
                FrontRouteKind::Single,
                three_vars("year", &segs[0], "monthnum", &segs[1], "name", &segs[2]),
            );
        }
    }
    if n == 2 {
        assert(sv[0] == segs@[0]@ && sv[1] == segs@[1]@);
        if chars_eq(&segs[0], &chars_of("page")) && is_positive_integer_exec(&segs[1]) {
            return (FrontRouteKind::Home, one_var("paged", &segs[1]));
        }
    }
    if n == 1 {
        assert(sv[0] == segs@[0]@);
        if is_year_exec(&segs[0]) {
            return (FrontRouteKind::Archive, one_var("year", &segs[0]));
        }
    }
    if n == 2 {
        if is_year_exec(&segs[0]) && is_month_exec(&segs[1]) {
            return (FrontRouteKind::Archive, two_vars("year", &segs[0], "monthnum", &segs[1]));
        }
    }
    if n == 1 {
        if all_slug_chars_exec(&segs[0]) {
            return (FrontRouteKind::Page, one_var("pagename", &segs[0]));
        }
    }
    (FrontRouteKind::NotFound, empty)
}

// ------------------------------------------------------------------
// Template hierarchy
// ------------------------------------------------------------------

/// The value of the first var with this key.
pub open spec fn var_get(vars: Seq<(Seq<char>, Seq<char>)>, key: Seq<char>) -> Option<Seq<char>>
    decreases vars.len(),
{
    if vars.len() == 0 {
        None
    } else if vars[0].0 == key {
        Some(vars[0].1)
    } else {
        var_get(vars.drop_first(), key)
    }
}

/// Templates tried for a route, most specific first.
pub open spec fn templates(kind: FrontRouteKind, vars: Seq<(Seq<char>, Seq<char>)>) -> Seq<Seq<char>> {
    match kind {
        FrontRouteKind::Home => seq!["front-page.php"@, "home.php"@, "index.php"@],
        FrontRouteKind::Single => seq!["single.php"@, "singular.php"@, "index.php"@],
        FrontRouteKind::Page => {
            let specific = match var_get(vars, "pagename"@) {
                Some(slug) => seq!["page-"@ + slug + ".php"@],
                None => Seq::empty(),
            };
            specific + seq!["page.php"@, "singular.php"@, "index.php"@]
        },
        FrontRouteKind::Archive => {
            let specific = if var_get(vars, "category_name"@) is Some {
                seq!["category-"@ + var_get(vars, "category_name"@)->0 + ".php"@]
            } else if var_get(vars, "tag"@) is Some {
                seq!["tag-"@ + var_get(vars, "tag"@)->0 + ".php"@]
            } else if var_get(vars, "author_name"@) is Some {
                seq!["author-"@ + var_get(vars, "author_name"@)->0 + ".php"@, "author.php"@]
            } else if var_get(vars, "year"@) is Some {
                seq!["date.php"@]
            } else {
                Seq::empty()
            };
            specific + seq!["archive.php"@, "index.php"@]
        },
        FrontRouteKind::Search => seq!["search.php"@, "index.php"@],
        FrontRouteKind::Feed => seq!["feed-rss2.php"@, "feed.php"@, "index.php"@],
        FrontRouteKind::NotFound => seq!["404.php"@, "index.php"@],
    }
}

fn var_get_exec(vars: &Vec<(String, String)>, key: &str) -> (r: Option<Vec<char>>)
    ensures
        match r {
            Some(v) => var_get(pair_views(vars@), key@) == Some(v@),
            None => var_get(pair_views(vars@), key@) is None,
        },
{
    let k = chars_of(key);
    let mut i: usize = 0;
    assert(pair_views(vars@).subrange(0, pair_views(vars@).len() as int) =~= pair_views(vars@));
    while i < vars.len()
        invariant
            i <= vars@.len(),
            k@ == key@,
            var_get(pair_views(vars@), key@) == var_get(
                pair_views(vars@).subrange(i as int, vars@.len() as int),
                key@,
            ),
        decreases vars@.len() - i,
    {
        let ghost rest = pair_views(vars@).subrange(i as int, vars@.len() as int);
        assert(rest[0] == (vars@[i as int].0@, vars@[i as int].1@));
        let name = chars_of(vars[i].0.as_str());
        if chars_eq(&name, &k) {
            return Some(chars_of(vars[i].1.as_str()));
        }
        assert(rest.drop_first() =~= pair_views(vars@).subrange(i + 1, vars@.len() as int));
        i += 1;
    }
    None
}

fn push_str(v: &mut Vec<String>, s: &str)
    ensures
        strs(final(v)@) == strs(old(v)@).push(s@),
{
    let ghost before = v@;
    v.push(string_of(&chars_of(s)));
    assert(strs(v@) =~= strs(before).push(s@));
}

fn push_wrapped(v: &mut Vec<String>, pre: &str, mid: &[char], post: &str)
    ensures
        strs(final(v)@) == strs(old(v)@).push(pre@ + mid@ + post@),
{
    let mut c = chars_of(pre);
    append_chars(&mut c, mid);
    append_str(&mut c, post);
    let ghost before = v@;
    v.push(string_of(&c));
    assert(strs(v@) =~= strs(before).push(pre@ + mid@ + post@));
}

pub fn template_candidates(kind: FrontRouteKind, query_vars: &Vec<(String, String)>) -> (r: Vec<String>)
    ensures
        strs(r@) == templates(kind, pair_views(query_vars@)),
{
    let mut t: Vec<String> = Vec::new();
    let ghost vars = pair_views(query_vars@);
    match kind {
        FrontRouteKind::Home => {
            push_str(&mut t, "front-page.php");
            push_str(&mut t, "home.php");
            push_str(&mut t, "index.php");
        },
        FrontRouteKind::Single => {
            push_str(&mut t, "single.php");
            push_str(&mut t, "singular.php");
            push_str(&mut t, "index.php");
        },
        FrontRouteKind::Page => {
            match var_get_exec(query_vars, "pagename") {
                Some(slug) => push_wrapped(&mut t, "page-", &slug, ".php"),
                None => {},
            }
            push_str(&mut t, "page.php");
            push_str(&mut t, "singular.php");
            push_str(&mut t, "index.php");
        },
        FrontRouteKind::Archive => {
            if let Some(c) = var_get_exec(query_vars, "category_name") {
                push_wrapped(&mut t, "category-", &c, ".php");
            } else if let Some(g) = var_get_exec(query_vars, "tag") {
                push_wrapped(&mut t, "tag-", &g, ".php");
            } else if let Some(a) = var_get_exec(query_vars, "author_name") {
                push_wrapped(&mut t, "author-", &a, ".php");
                push_str(&mut t, "author.php");
            } else if var_get_exec(query_vars, "year").is_some() {
                push_str(&mut t, "date.php");
            }
            push_str(&mut t, "archive.php");
            push_str(&mut t, "index.php");
        },
        FrontRouteKind::Search => {
            push_str(&mut t, "search.php");
            push_str(&mut t, "index.php");
        },
        FrontRouteKind::Feed => {
            push_str(&mut t, "feed-rss2.php");
            push_str(&mut t, "feed.php");
            push_str(&mut t, "index.php");
        },
        FrontRouteKind::NotFound => {
            push_str(&mut t, "404.php");
            push_str(&mut t, "index.php");
        },
    }
    assert(strs(t@) =~= templates(kind, vars));
    t
}

/// The normalized path when it differs from the requested one.
pub open spec fn canonical_redirect(path: Seq<char>) -> Option<Seq<char>> {
    if front_path(path) == path {
        None
    } else {
        Some(front_path(path))
    }
}

/// Front-end normalization is idempotent.
pub proof fn lemma_front_path_idempotent(path: Seq<char>)
    ensures
        front_path(front_path(path)) == front_path(path),
{
    let t = trim(path);
    lemma_trim_ends(path);
    let n = front_path(path);
    if t.len() == 0 {
        assert(n =~= seq!['/']);
        lemma_trim_fixed(n);
        lemma_collapse_slashes(n);
    } else {
        let prefixed = if t[0] == '/' {
            t
        } else {
            seq!['/'] + t
        };
        assert(prefixed.len() > 0 && prefixed[0] == '/');
        assert(!is_ws(prefixed.last())) by {
            assert(prefixed.last() == t.last());
        }
        let c = collapse_slashes(prefixed);
        lemma_collapse_slashes(prefixed);
        if c != seq!['/'] && !(c.len() > 0 && c.last() == '/') && !c.contains('.') {
            assert(n == c.push('/'));
            assert(no_double_slash(n)) by {
                assert forall|i: int, j: int|
                    0 <= i && j == i + 1 && j < n.len() implies !(#[trigger] n[i] == '/'
                    && #[trigger] n[j] == '/') by {
                    if j < c.len() {
                        assert(n[i] == c[i] && n[j] == c[j]);
                    } else {
                        assert(n[i] == c.last());
                    }
                }
            }
            assert(n[0] == '/');
            assert(n.contains('.') ==> c.contains('.')) by {
                if n.contains('.') {
                    let k = choose|k: int| 0 <= k < n.len() && n[k] == '.';
                    assert(c[k] == '.');
                }
            }
        } else {
            assert(n == c);
        }
        lemma_trim_fixed(n);
        lemma_collapse_slashes(n);
    }
}

/// A front-end path starts with `/`, holds no `//`, has no whitespace at
/// either end, and is the root, ends with `/`, or names a file (holds a
/// `.`).
pub proof fn lemma_front_path_shape(path: Seq<char>)
    ensures
        front_path(path).len() > 0,
        front_path(path)[0] == '/',
        no_double_slash(front_path(path)),
        trim(front_path(path)) == front_path(path),
        front_path(path) == seq!['/'] || front_path(path).last() == '/' || front_path(path).contains('.'),
{
    lemma_front_path_idempotent(path);
    let t = trim(path);
    lemma_trim_ends(path);
    let n = front_path(path);
    if t.len() == 0 {
        assert(n =~= seq!['/']);
        lemma_collapse_slashes(n);
    } else {
        let prefixed = if t[0] == '/' {
            t
        } else {
            seq!['/'] + t
        };
        assert(prefixed.len() > 0 && prefixed[0] == '/');
        let c = collapse_slashes(prefixed);
        lemma_collapse_slashes(prefixed);
        if c != seq!['/'] && !(c.len() > 0 && c.last() == '/') && !c.contains('.') {
            assert(n == c.push('/'));
            assert(n[0] == c[0]);
        }
        lemma_collapse_slashes(n);
    }
}

/// A request built from an already normalized request is the same request.
pub proof fn lemma_front_request_settles(path: Seq<char>, query: Seq<char>)
    ensures
        front_path(front_path(path)) == front_path(path),
        trim(trim(query)) == trim(query),
{
    lemma_front_path_idempotent(path);
    lemma_trim_ends(query);
    if trim(query).len() > 0 {
        lemma_trim_fixed(trim(query));
    } else {
        assert(trim_start(trim(query)) == trim(query));
        assert(trim_end(trim(query)) == trim(query));
    }
}

/// Every template list is non-empty and ends with `index.php`.
pub proof fn lemma_templates_end_in_index(kind: FrontRouteKind, vars: Seq<(Seq<char>, Seq<char>)>)
    ensures
        templates(kind, vars).len() > 0,
        templates(kind, vars).last() == "index.php"@,
{
}

/// A route: its templates end with `index.php`; an unmatched path carries
/// no query variables; and off the home page and the feed, a non-empty
/// search term makes it a search for that term.
pub proof fn lemma_route_shape(path: Seq<char>, query: Seq<char>)
    ensures
        ({
            let n = front_path(path);
            let q = trim(query);
            let kind = route(n, q).0;
            let vars = route(n, q).1;
            let search = last_value(query_pairs(q), "s"@);
            &&& templates(kind, vars).len() > 0
            &&& templates(kind, vars).last() == "index.php"@
            &&& kind == FrontRouteKind::NotFound ==> vars.len() == 0
            &&& (n != "/"@ && n != "/feed"@ && n != "/feed/"@ && search is Some && search->0.len() > 0)
                ==> kind == FrontRouteKind::Search && vars == seq![("s"@, search->0)]
        }),
{
    let n = front_path(path);
    let q = trim(query);
    lemma_templates_end_in_index(route(n, q).0, route(n, q).1);
}

/// The root and the feed paths have no segment or just one.
proof fn lemma_short_paths_segments()
    ensures
        split_nonempty("/"@, '/').len() == 0,
        split_nonempty("/feed"@, '/').len() == 1,
        split_nonempty("/feed/"@, '/').len() == 1,
{
    reveal_strlit("/");
    reveal_strlit("/feed");
    reveal_strlit("/feed/");
    reveal_with_fuel(crate::text::split, 7);
    reveal_with_fuel(crate::text::nonempty_pieces, 4);
    assert("/"@.drop_last() =~= Seq::<char>::empty());
    assert("/feed"@.drop_last() =~= seq!['/', 'f', 'e', 'e']);
    assert(seq!['/', 'f', 'e', 'e'].drop_last() =~= seq!['/', 'f', 'e']);
    assert(seq!['/', 'f', 'e'].drop_last() =~= seq!['/', 'f']);
    assert(seq!['/', 'f'].drop_last() =~= seq!['/']);
    assert(seq!['/'].drop_last() =~= Seq::<char>::empty());
    assert("/feed/"@.drop_last() =~= "/feed"@);
}

/// `/tag/{slug}/` with no search term is the archive of that tag: the
/// query var `tag` set to the slug, and the tag's own template first.
pub proof fn lemma_tag_archive_route(path: Seq<char>, query: Seq<char>, slug: Seq<char>)
    requires
        split_nonempty(path, '/') == seq!["tag"@, slug],
        slug.len() > 0,
        !(last_value(query_pairs(query), "s"@) matches Some(v) && v.len() > 0),
    ensures
        route(path, query) == (FrontRouteKind::Archive, seq![("tag"@, slug)]),
        templates(route(path, query).0, route(path, query).1) == seq![
            "tag-"@ + slug + ".php"@,
            "archive.php"@,
            "index.php"@,
        ],
{
    lemma_short_paths_segments();
    reveal_strlit("tag");
    reveal_strlit("category");
    reveal_strlit("category_name");
    let vars = seq![("tag"@, slug)];
    assert("tag"@.len() != "category"@.len());
    assert("tag"@.len() != "category_name"@.len());
    assert(var_get(vars, "category_name"@) is None) by {
        reveal_with_fuel(var_get, 2);
        assert(vars[0].0 != "category_name"@);
        assert(vars.drop_first().len() == 0);
    }
    assert(var_get(vars, "tag"@) == Some(slug));
}

/// A path whose first segment is `tag` never sets a `category_name` var.
pub proof fn lemma_tag_path_sets_no_category(path: Seq<char>, query: Seq<char>)
    requires
        split_nonempty(path, '/').len() > 0,
        split_nonempty(path, '/')[0] == "tag"@,
    ensures
        forall|i: int|
            0 <= i < route(path, query).1.len() ==> (#[trigger] route(path, query).1[i]).0
                != "category_name"@,
{
    reveal_strlit("tag");
    reveal_strlit("category");
    reveal_strlit("category_name");
    reveal_strlit("feed");
    reveal_strlit("s");
    reveal_strlit("paged");
    reveal_strlit("author_name");
    reveal_strlit("year");
    reveal_strlit("monthnum");
    reveal_strlit("day");
    reveal_strlit("name");
    reveal_strlit("pagename");
    assert("tag"@.len() != "category"@.len());
    let r = route(path, query);
    assert forall|i: int| 0 <= i < r.1.len() implies (#[trigger] r.1[i]).0.len() != "category_name"@.len() by {
    }
}

/// Following a canonical redirect leads to a path that needs none.
pub proof fn lemma_canonical_redirect_settles(path: Seq<char>)
    ensures
        canonical_redirect(path) matches Some(t) ==> canonical_redirect(t) is None,
{
    lemma_front_path_idempotent(path);
}

pub fn canonical_redirect_target(path: &str) -> (r: Option<String>)
    ensures
        match r {
            Some(s) => canonical_redirect(path@) == Some(s@),
            None => canonical_redirect(path@) is None,
        },
{
    let n = front_normalize_path(path);
    let p = chars_of(path);
    if chars_eq(&n, &p) {
        None
    } else {
        Some(string_of(&n))
    }
}

/// Classifies a front-end request the way WordPress rewrite rules would.
pub fn parse_front_route(path: &str, query_string: &str) -> (r: FrontRouteMatch)
    ensures
        r.request.path@ == front_path(path@),
        r.request.query_string@ == trim(query_string@),
        r.kind == route(front_path(path@), trim(query_string@)).0,
        pair_views(r.query_vars.entries@) == route(front_path(path@), trim(query_string@)).1,
        strs(r.template_candidates@) == templates(r.kind, pair_views(r.query_vars.entries@)),
        match r.canonical_redirect {
            Some(s) => canonical_redirect(path@) == Some(s@),
            None => canonical_redirect(path@) is None,
        },
{
    let request = FrontRequest::from_parts(path, query_string);
    let p = chars_of(request.path.as_str());
    let q = chars_of(request.query_string.as_str());
    let (kind, vars) = classify(&p, &q);
    let template_candidates = template_candidates(kind, &vars);
    let canonical = canonical_redirect_target(path);
    FrontRouteMatch {
        request,
        kind,
        query_vars: KeyedList { entries: vars },
        template_candidates,
        canonical_redirect: canonical,
    }
}


// ------------------------------------------------------------------
// Block markup
// ------------------------------------------------------------------

pub open spec fn block_open() -> Seq<char> {
    seq!['<', '!', '-', '-', ' ', 'w', 'p', ':']
}

pub open spec fn block_close() -> Seq<char> {
    seq!['-', '-', '>']
}

/// Names of the opening block comments (`<!-- wp:name ... -->`) in order;
/// closing comments (`<!-- /wp:... -->`) are skipped, self-closing markers
/// lose their trailing `/`, and scanning stops at an unterminated comment.
#[verifier::opaque]
pub open spec fn block_names(s: Seq<char>) -> Seq<Seq<char>>
    decreases s.len(),
{
    match first_occurrence(s, block_open(), 0) {
        None => Seq::empty(),
        Some(i) => {
            let after = s.subrange(i + 8, s.len() as int);
            match first_occurrence(after, block_close(), 0) {
                None => Seq::empty(),
                Some(e) => {
                    proof {
                        lemma_first_occurrence_props(s, block_open(), 0);
                        lemma_first_occurrence_props(after, block_close(), 0);
                    }
                    let rest = after.subrange(e + 3, after.len() as int);
                    let marker = trim(after.subrange(0, e));
                    if marker.len() > 0 && marker[0] == '/' {
                        block_names(rest)
                    } else {
                        let m = if marker.len() > 0 && marker.last() == '/' {
                            trim_end_char(marker, '/')
                        } else {
                            marker
                        };
                        let name = first_word(m);
                        if name.len() > 0 {
                            seq![name] + block_names(rest)
                        } else {
                            block_names(rest)
                        }
                    }
                },
            }
        },
    }
}

/// One step of the block scan: `None` when no further name can follow,
/// otherwise the name found (if any) and the text after the comment.
fn next_block(remaining: &[char], open: &[char], close: &[char]) -> (r: Option<(Option<Vec<char>>, Vec<char>)>)
    requires
        open@ == block_open(),
        close@ == block_close(),
    ensures
        match r {
            None => block_names(remaining@) == Seq::<Seq<char>>::empty(),
            Some((name, rest)) => rest@.len() < remaining@.len() && match name {
                Some(n) => block_names(remaining@) == seq![n@] + block_names(rest@),
                None => block_names(remaining@) == block_names(rest@),
            },
        },
{
    reveal(block_names);
    let i = match find(remaining, open) {
        Some(i) => i,
        None => {
            return None;
        },
    };
    proof {
        lemma_first_occurrence_props(remaining@, block_open(), 0);
    }
    let rlen = remaining.len();
    assert(i + 8 <= rlen);
    let after = copy_range(remaining, i + 8, rlen);
    let e = match find(&after, close) {
        Some(e) => e,
        None => {
            return None;
        },
    };
    proof {
        lemma_first_occurrence_props(after@, block_close(), 0);
    }
    let alen = after.len();
    assert(e + 3 <= alen);
    let inner = copy_range(&after, 0, e);
    let marker = trim_chars(&inner);
    let rest = copy_range(&after, e + 3, alen);
    if marker.len() > 0 && marker[0] == '/' {
        return Some((None, rest));
    }
    let m = if marker.len() > 0 && marker[marker.len() - 1] == '/' {
        trim_end_char_exec(&marker, '/')
    } else {
        marker
    };
    let name = first_word_exec(&m);
    if name.len() > 0 {
        Some((Some(name), rest))
    } else {
        Some((None, rest))
    }
}

pub fn extract_block_names(content: &str) -> (r: Vec<String>)
    ensures
        strs(r@) == block_names(content@),
{
    let s = chars_of(content);
    let mut open: Vec<char> = Vec::new();
    open.push('<');
    open.push('!');
    open.push('-');
    open.push('-');
    open.push(' ');
    open.push('w');
    open.push('p');
    open.push(':');
    let mut close: Vec<char> = Vec::new();
    close.push('-');
    close.push('-');
    close.push('>');
    assert(open@ =~= block_open());
    assert(close@ =~= block_close());
    let mut names: Vec<String> = Vec::new();
    let mut remaining = s;
    assert(strs(names@) + block_names(remaining@) =~= block_names(content@));
    loop
        invariant
            open@ == block_open(),
            close@ == block_close(),
            strs(names@) + block_names(remaining@) == block_names(content@),
        ensures
            strs(names@) == block_names(content@),
        decreases remaining@.len(),
    {
        match next_block(&remaining, &open, &close) {
            None => {
                assert(strs(names@) =~= strs(names@) + Seq::<Seq<char>>::empty());
                break;
            },
            Some((name, rest)) => {
                let ghost old_names = strs(names@);
                match name {
                    Some(n) => {
                        let ghost before = names@;
                        names.push(string_of(&n));
                        assert(strs(names@) =~= strs(before).push(n@));
                        assert(strs(names@) + block_names(rest@) =~= old_names + (seq![n@]
                            + block_names(rest@)));
                    },
                    None => {},
                }
                remaining = rest;
            },
        }
    }
    names
}

} // verus!
