//! The blog's content model: posts with YAML frontmatter and a Markdown
//! body, slugs, excerpts, and the newest-first listing.

use vstd::prelude::*;
use vstd::utf8::{decode_utf8, encode_utf8};
use crate::wp::year_text;
use crate::text::decimal;
use crate::text::{
    append_chars, append_str, chars_eq, chars_of, copy_range, copy_string, first_occurrence,
    find_from, lemma_first_occurrence_props, lower, lower_char, split, split_char, string_of,
    trim, trim_chars, trim_end_char, trim_end_char_exec, trim_start_char, trim_start_char_exec,
    views,
};

verus! {

// ------------------------------------------------------------------
// Slugs
// ------------------------------------------------------------------

pub open spec fn is_ascii_alnum(c: char) -> bool {
    ('0' <= c && c <= '9') || ('a' <= c && c <= 'z') || ('A' <= c && c <= 'Z')
}

/// Left-to-right scan: lower-cased ASCII letters and digits are kept, each
/// run of other characters after some output becomes one `-`; also
/// whether the output ends in such a dash.
pub open spec fn slug_scan(s: Seq<char>) -> (Seq<char>, bool)
    decreases s.len(),
{
    if s.len() == 0 {
        (Seq::empty(), false)
    } else {
        let (out, dash) = slug_scan(s.drop_last());
        let c = lower(s.last());
        if is_ascii_alnum(c) {
            (out.push(c), false)
        } else if !dash && out.len() > 0 {
            (out.push('-'), true)
        } else {
            (out, dash)
        }
    }
}

/// The scan with dashes trimmed from both ends.
pub open spec fn slug_of(s: Seq<char>) -> Seq<char> {
    trim_end_char(trim_start_char(slug_scan(s).0, '-'), '-')
}

pub fn slugify(input: &str) -> (r: String)
    ensures
        r@ == slug_of(input@),
{
    let s = chars_of(input);
    let mut out: Vec<char> = Vec::new();
    let mut prev_dash = false;
    let mut k: usize = 0;
    while k < s.len()
        invariant
            s@ == input@,
            k <= s@.len(),
            (out@, prev_dash) == slug_scan(s@.subrange(0, k as int)),
        decreases s@.len() - k,
    {
        assert(s@.subrange(0, k + 1).drop_last() =~= s@.subrange(0, k as int));
        let c = lower_char(s[k]);
        if ('0' <= c && c <= '9') || ('a' <= c && c <= 'z') || ('A' <= c && c <= 'Z') {
            out.push(c);
            prev_dash = false;
        } else if !prev_dash && out.len() > 0 {
            out.push('-');
            prev_dash = true;
        }
        k += 1;
    }
    assert(s@.subrange(0, k as int) =~= s@);
    let t = trim_start_char_exec(&out, '-');
    string_of(&trim_end_char_exec(&t, '-'))
}

/// Every character of a slug's scan is a lower-case ASCII letter, a digit
/// or `-`, and no two dashes are adjacent.
pub open spec fn slug_chars(s: Seq<char>) -> bool {
    &&& forall|i: int|
        0 <= i < s.len() ==> ('0' <= #[trigger] s[i] <= '9') || ('a' <= s[i] <= 'z') || s[i] == '-'
    &&& forall|i: int| 0 <= i < s.len() - 1 ==> !(#[trigger] s[i] == '-' && s[i + 1] == '-')
}

proof fn lemma_slug_scan_shape(s: Seq<char>)
    ensures
        slug_chars(slug_scan(s).0),
        slug_scan(s).1 <==> (slug_scan(s).0.len() > 0 && slug_scan(s).0.last() == '-'),
        slug_scan(s).0.len() > 0 ==> slug_scan(s).0[0] != '-',
    decreases s.len(),
{
    if s.len() > 0 {
        lemma_slug_scan_shape(s.drop_last());
        let (out, dash) = slug_scan(s.drop_last());
        let c = lower(s.last());
        if is_ascii_alnum(c) {
            assert('A' <= c <= 'Z' ==> false) by {
                if 'A' <= s.last() <= 'Z' {
                    assert(c == ((s.last() as u32) + 32) as char);
                }
            }
            assert(out.push(c)[out.len() as int] == c);
        }
    }
}

proof fn lemma_trim_start_dash(s: Seq<char>)
    requires
        slug_chars(s),
    ensures
        slug_chars(trim_start_char(s, '-')),
        trim_start_char(s, '-').len() > 0 ==> trim_start_char(s, '-')[0] != '-',
    decreases s.len(),
{
    if s.len() > 0 && s[0] == '-' {
        let t = s.drop_first();
        assert(slug_chars(t)) by {
            assert forall|i: int| 0 <= i < t.len() - 1 implies !(#[trigger] t[i] == '-' && t[i + 1]
                == '-') by {
                assert(t[i] == s[i + 1] && t[i + 1] == s[i + 2]);
            }
        }
        lemma_trim_start_dash(t);
    }
}

proof fn lemma_trim_end_dash(s: Seq<char>)
    requires
        slug_chars(s),
        s.len() > 0 ==> s[0] != '-',
    ensures
        slug_chars(trim_end_char(s, '-')),
        trim_end_char(s, '-').len() > 0 ==> trim_end_char(s, '-')[0] != '-'
            && trim_end_char(s, '-').last() != '-',
    decreases s.len(),
{
    if s.len() > 0 && s.last() == '-' {
        lemma_trim_end_dash(s.drop_last());
    }
}

/// A slug is made of lower-case ASCII letters, digits and single dashes
/// between them: it neither starts nor ends with a dash.
pub proof fn lemma_slug_shape(s: Seq<char>)
    ensures
        slug_chars(slug_of(s)),
        slug_of(s).len() > 0 ==> slug_of(s)[0] != '-' && slug_of(s).last() != '-',
{
    lemma_slug_scan_shape(s);
    lemma_trim_start_dash(slug_scan(s).0);
    lemma_trim_end_dash(trim_start_char(slug_scan(s).0, '-'));
}

// ------------------------------------------------------------------
// Lines and frontmatter
// ------------------------------------------------------------------

/// Every `\r\n` replaced by `\n`, scanning left to right.
pub open spec fn unix_newlines(s: Seq<char>) -> Seq<char>
    decreases s.len(),
{
    if s.len() == 0 {
        s
    } else if s.len() >= 2 && s[0] == '\r' && s[1] == '\n' {
        seq!['\n'] + unix_newlines(s.subrange(2, s.len() as int))
    } else {
        seq![s[0]] + unix_newlines(s.drop_first())
    }
}

/// `str::lines`: split at `\n`, each terminated line losing one trailing
/// `\r`; a final empty piece is no line.
pub open spec fn lines_of(s: Seq<char>) -> Seq<Seq<char>> {
    let pieces = split(s, '\n');
    let body = pieces.drop_last().map_values(|p: Seq<char>| strip_cr(p));
    if pieces.last().len() > 0 {
        body.push(pieces.last())
    } else {
        body
    }
}

pub open spec fn strip_cr(p: Seq<char>) -> Seq<char> {
    if p.len() > 0 && p.last() == '\r' {
        p.drop_last()
    } else {
        p
    }
}

/// Lines joined with `\n`.
pub open spec fn join_lines(ls: Seq<Seq<char>>) -> Seq<char>
    decreases ls.len(),
{
    if ls.len() == 0 {
        Seq::empty()
    } else if ls.len() == 1 {
        ls[0]
    } else {
        join_lines(ls.drop_last()) + seq!['\n'] + ls.last()
    }
}

/// Index of the first line at or after `from` that is `---` once trimmed
/// (the length when there is none).
pub open spec fn fence_after(ls: Seq<Seq<char>>, from: int) -> int
    decreases ls.len() - from,
{
    if from >= ls.len() {
        ls.len() as int
    } else if trim(ls[from]) == "---"@ {
        from
    } else {
        fence_after(ls, from + 1)
    }
}

/// Why a post could not be read.
#[derive(Debug, Clone, PartialEq, Eq, Structural)]
pub enum ContentError {
    MissingFrontmatter,
    EmptyTitle,
    EmptySlug,
}

impl ContentError {
    pub fn message(&self) -> (r: &'static str)
        ensures
            r@ == content_error_message(*self),
    {
        match self {
            ContentError::MissingFrontmatter => "missing YAML frontmatter; expected first line to be `---`",
            ContentError::EmptyTitle => "frontmatter.title must not be empty",
            ContentError::EmptySlug => "post slug must not be empty",
        }
    }
}

pub open spec fn content_error_message(e: ContentError) -> Seq<char> {
    match e {
        ContentError::MissingFrontmatter => "missing YAML frontmatter; expected first line to be `---`"@,
        ContentError::EmptyTitle => "frontmatter.title must not be empty"@,
        ContentError::EmptySlug => "post slug must not be empty"@,
    }
}

/// The YAML between a leading `---` line and the next `---` line, and the
/// trimmed body after it; an error when the first line is not `---`.
pub open spec fn frontmatter_parts(raw: Seq<char>) -> Result<(Seq<char>, Seq<char>), ContentError> {
    let ls = lines_of(unix_newlines(raw));
    let first = if ls.len() > 0 {
        ls[0]
    } else {
        Seq::<char>::empty()
    };
    if trim(first) != "---"@ {
        Err(ContentError::MissingFrontmatter)
    } else {
        let c = fence_after(ls, 1);
        let rest = if c < ls.len() {
            ls.subrange(c + 1, ls.len() as int)
        } else {
            Seq::<Seq<char>>::empty()
        };
        Ok((join_lines(ls.subrange(1, c)), trim(join_lines(rest))))
    }
}

fn unix_newlines_exec(s: &[char]) -> (r: Vec<char>)
    ensures
        r@ == unix_newlines(s@),
{
    let n = s.len();
    let mut out: Vec<char> = Vec::new();
    let mut i: usize = 0;
    assert(s@.subrange(0, n as int) =~= s@);
    while i < n
        invariant
            n == s@.len(),
            i <= n,
            out@ + unix_newlines(s@.subrange(i as int, n as int)) == unix_newlines(s@),
        decreases n - i,
    {
        let ghost rest = s@.subrange(i as int, n as int);
        let ghost before = out@;
        if s[i] == '\r' && i + 1 < n && s[i + 1] == '\n' {
            out.push('\n');
            assert(rest.subrange(2, rest.len() as int) =~= s@.subrange(i + 2, n as int));
            assert(out@ + unix_newlines(s@.subrange(i + 2, n as int)) =~= before + unix_newlines(rest));
            i += 2;
        } else {
            out.push(s[i]);
            assert(rest.drop_first() =~= s@.subrange(i + 1, n as int));
            assert(out@ + unix_newlines(s@.subrange(i + 1, n as int)) =~= before + unix_newlines(rest));
            i += 1;
        }
    }
    assert(s@.subrange(n as int, n as int) =~= Seq::<char>::empty());
    assert(out@ + unix_newlines(s@.subrange(n as int, n as int)) =~= out@);
    out
}

fn lines_exec(s: &[char]) -> (r: Vec<Vec<char>>)
    ensures
        views(r@) == lines_of(s@),
{
    let pieces = split_char(s, '\n');
    let ghost pv = views(pieces@);
    proof {
        crate::text::lemma_split_nonempty(s@, '\n');
    }
    let n = pieces.len();
    let mut out: Vec<Vec<char>> = Vec::new();
    let mut k: usize = 0;
    while k + 1 < n
        invariant
            pv == views(pieces@),
            pv == split(s@, '\n'),
            n == pieces@.len(),
            n >= 1,
            k + 1 <= n,
            views(out@) == pv.drop_last().subrange(0, k as int).map_values(|p: Seq<char>| strip_cr(p)),
        decreases n - k,
    {
        let p = &pieces[k];
        let q: Vec<char> = if p.len() > 0 && p[p.len() - 1] == '\r' {
            copy_range(p, 0, p.len() - 1)
        } else {
            copy_range(p, 0, p.len())
        };
        assert(p@.subrange(0, p@.len() as int) =~= p@);
        let ghost before = out@;
        out.push(q);
        assert(views(out@) =~= views(before).push(strip_cr(pv[k as int])));
        assert(pv.drop_last().subrange(0, k + 1) =~= pv.drop_last().subrange(0, k as int).push(
            pv[k as int],
        ));
        k += 1;
        assert(views(out@) =~= pv.drop_last().subrange(0, k as int).map_values(
            |p: Seq<char>| strip_cr(p),
        ));
    }
    assert(pv.drop_last().subrange(0, k as int) =~= pv.drop_last());
    let last = &pieces[n - 1];
    assert(pv.last() == last@);
    if last.len() > 0 {
        let ghost before = out@;
        out.push(copy_range(last, 0, last.len()));
        assert(last@.subrange(0, last@.len() as int) =~= last@);
        assert(views(out@) =~= views(before).push(last@));
    }
    out
}

fn join_lines_exec(ls: &[Vec<char>]) -> (r: Vec<char>)
    ensures
        r@ == join_lines(views(ls@)),
{
    let mut out: Vec<char> = Vec::new();
    let mut k: usize = 0;
    let ghost lv = views(ls@);
    assert(lv.subrange(0, 0) =~= Seq::<Seq<char>>::empty());
    while k < ls.len()
        invariant
            lv == views(ls@),
            k <= ls@.len(),
            out@ == join_lines(lv.subrange(0, k as int)),
        decreases ls@.len() - k,
    {
        assert(lv.subrange(0, k + 1).drop_last() =~= lv.subrange(0, k as int));
        assert(lv.subrange(0, k + 1).last() == ls@[k as int]@);
        if k > 0 {
            out.push('\n');
        }
        append_chars(&mut out, &ls[k]);
        proof {
            if k == 0 {
                assert(lv.subrange(0, 1).len() == 1);
                assert(out@ =~= lv.subrange(0, 1)[0]);
            }
        }
        k += 1;
    }
    assert(lv.subrange(0, k as int) =~= lv);
    out
}

fn slice_lines(ls: &Vec<Vec<char>>, a: usize, b: usize) -> (r: Vec<Vec<char>>)
    requires
        a <= b <= ls@.len(),
    ensures
        views(r@) == views(ls@).subrange(a as int, b as int),
{
    let mut out: Vec<Vec<char>> = Vec::new();
    let mut k = a;
    while k < b
        invariant
            a <= k <= b <= ls@.len(),
            views(out@) == views(ls@).subrange(a as int, k as int),
        decreases b - k,
    {
        let ghost before = out@;
        out.push(copy_range(&ls[k], 0, ls[k].len()));
        assert(ls@[k as int]@.subrange(0, ls@[k as int]@.len() as int) =~= ls@[k as int]@);
        assert(views(out@) =~= views(before).push(ls@[k as int]@));
        k += 1;
        assert(views(out@) =~= views(ls@).subrange(a as int, k as int));
    }
    out
}

/// Splits a post file into its YAML frontmatter text and its body (see
/// `frontmatter_parts`).
pub fn split_frontmatter_text(raw: &str) -> (r: Result<(String, String), ContentError>)
    ensures
        match r {
            Ok((fm, body)) => frontmatter_parts(raw@) == Ok::<(Seq<char>, Seq<char>), ContentError>(
                (fm@, body@),
            ),
            Err(e) => frontmatter_parts(raw@) == Err::<(Seq<char>, Seq<char>), ContentError>(e),
        },
{
    let text = unix_newlines_exec(&chars_of(raw));
    let ls = lines_exec(&text);
    let ghost lv = views(ls@);
    let first: Vec<char> = if ls.len() > 0 {
        copy_range(&ls[0], 0, ls[0].len())
    } else {
        Vec::new()
    };
    proof {
        if ls@.len() > 0 {
            assert(ls@[0]@.subrange(0, ls@[0]@.len() as int) =~= ls@[0]@);
            assert(lv[0] == ls@[0]@);
        } else {
            assert(first@ =~= Seq::<char>::empty());
        }
    }
    let fence = chars_of("---");
    proof {
        reveal_strlit("---");
        assert(trim(Seq::<char>::empty()) =~= Seq::<char>::empty());
    }
    if !chars_eq(&trim_chars(&first), &fence) {
        return Err(ContentError::MissingFrontmatter);
    }
    let n = ls.len();
    let mut c: usize = 1;
    while c < n && !chars_eq(&trim_chars(&ls[c]), &fence)
        invariant
            lv == views(ls@),
            n == ls@.len(),
            n >= 1,
            1 <= c <= n,
            fence@ == "---"@,
            fence_after(lv, 1) == fence_after(lv, c as int),
        decreases n - c,
    {
        assert(lv[c as int] == ls@[c as int]@);
        c += 1;
    }
    proof {
        if c < n {
            assert(lv[c as int] == ls@[c as int]@);
        }
    }
    let fm = join_lines_exec(&slice_lines(&ls, 1, c));
    let rest = if c < n {
        slice_lines(&ls, c + 1, n)
    } else {
        let e: Vec<Vec<char>> = Vec::new();
        assert(views(e@) =~= Seq::<Seq<char>>::empty());
        e
    };
    let body = trim_chars(&join_lines_exec(&rest));
    Ok((string_of(&fm), string_of(&body)))
}

// ------------------------------------------------------------------
// Excerpts
// ------------------------------------------------------------------

/// The first paragraph (text between blank-line separators `\n\n`),
/// trimmed, that is not blank; empty when there is none.
#[verifier::opaque]
pub open spec fn first_paragraph_from(s: Seq<char>, from: int) -> Seq<char>
    decreases s.len() + 1 - from,
{
    if !(0 <= from <= s.len()) {
        Seq::empty()
    } else {
        match first_occurrence(s, "\n\n"@, from) {
            Some(i) => {
                proof {
                    reveal_strlit("\n\n");
                    lemma_first_occurrence_props(s, "\n\n"@, from);
                }
                if trim(s.subrange(from, i)).len() > 0 {
                    trim(s.subrange(from, i))
                } else {
                    first_paragraph_from(s, i + 2)
                }
            },
            None => trim(s.subrange(from, s.len() as int)),
        }
    }
}

/// The first paragraph without leading `#` heading markers.
pub open spec fn excerpt_stem(md: Seq<char>) -> Seq<char> {
    trim(trim_start_char(first_paragraph_from(md, 0), '#'))
}

/// The stem, cut to its first 157 bytes and `...` when longer than 160
/// bytes; `Post` when empty.
pub open spec fn excerpt_of(md: Seq<char>) -> Seq<char> {
    let s = excerpt_stem(md);
    let b = encode_utf8(s);
    if b.len() > 160 {
        decode_utf8(b.subrange(0, 157)) + "..."@
    } else if s.len() == 0 {
        "Post"@
    } else {
        s
    }
}

/// Cutting a long stem at byte 157 needs a character boundary there.
pub open spec fn excerpt_cut_ok(md: Seq<char>) -> bool {
    encode_utf8(excerpt_stem(md)).len() > 160 ==> vstd::utf8::is_char_boundary(
        encode_utf8(excerpt_stem(md)),
        157,
    )
}

/// One step of `first_paragraph_from`.
proof fn lemma_paragraph_step(s: Seq<char>, from: int)
    requires
        0 <= from <= s.len(),
    ensures
        first_paragraph_from(s, from) == match first_occurrence(s, "\n\n"@, from) {
            Some(i) => if trim(s.subrange(from, i)).len() > 0 {
                trim(s.subrange(from, i))
            } else {
                first_paragraph_from(s, i + 2)
            },
            None => trim(s.subrange(from, s.len() as int)),
        },
{
    reveal(first_paragraph_from);
}

fn first_paragraph(md: &[char]) -> (r: Vec<char>)
    ensures
        r@ == first_paragraph_from(md@, 0),
{
    let sep = chars_of("\n\n");
    proof {
        reveal_strlit("\n\n");
    }
    let n = md.len();
    let mut from: usize = 0;
    while from <= n
        invariant
            n == md@.len(),
            sep@ == "\n\n"@,
            first_paragraph_from(md@, 0) == first_paragraph_from(md@, from as int),
        decreases n + 1 - from,
    {
        match find_from(md, &sep, from) {
            Some(i) => {
                proof {
                    reveal_strlit("\n\n");
                    lemma_first_occurrence_props(md@, "\n\n"@, from as int);
                    lemma_paragraph_step(md@, from as int);
                }
                let t = trim_chars(&copy_range(md, from, i));
                if t.len() > 0 {
                    return t;
                }
                from = i + 2;
            },
            None => {
                proof {
                    lemma_paragraph_step(md@, from as int);
                }
                return trim_chars(&copy_range(md, from, n));
            },
        }
    }
    let e: Vec<char> = Vec::new();
    assert(e@ =~= first_paragraph_from(md@, from as int)) by {
        reveal(first_paragraph_from);
    }
    e
}

/// An excerpt for a post without one (see `excerpt_of`).
pub fn infer_excerpt(markdown: &str) -> (r: String)
    requires
        excerpt_cut_ok(markdown@),
    ensures
        r@ == excerpt_of(markdown@),
{
    let para = first_paragraph(&chars_of(markdown));
    let stem = trim_chars(&trim_start_char_exec(&para, '#'));
    let st = string_of(&stem);
    if st.as_str().as_bytes().len() > 160 {
        let (head, _) = st.as_str().split_at(157);
        proof {
            vstd::utf8::encode_utf8_decode_utf8(head@);
        }
        let mut out = chars_of(head);
        append_str(&mut out, "...");
        return string_of(&out);
    }
    if stem.len() == 0 {
        return string_of(&chars_of("Post"));
    }
    st
}

// ------------------------------------------------------------------
// Markdown
// ------------------------------------------------------------------

/// The HTML that pulldown-cmark renders for a Markdown text with
/// strikethrough, tables and task lists enabled.
pub uninterp spec fn markdown_html_of(markdown: Seq<char>) -> Seq<char>;

/// `pulldown_cmark::html::push_html` over `Parser::new_ext` with the
/// strikethrough, tables and task-list extensions: a function of the text.
#[verifier::external_body]
fn markdown_to_html(markdown: &str) -> (r: String)
    ensures
        r@ == markdown_html_of(markdown@),
{
    let mut options = pulldown_cmark::Options::empty();
    options.insert(pulldown_cmark::Options::ENABLE_STRIKETHROUGH);
    options.insert(pulldown_cmark::Options::ENABLE_TABLES);
    options.insert(pulldown_cmark::Options::ENABLE_TASKLISTS);
    let parser = pulldown_cmark::Parser::new_ext(markdown, options);
    let mut out = String::new();
    pulldown_cmark::html::push_html(&mut out, parser);
    out
}

// ------------------------------------------------------------------
// Posts
// ------------------------------------------------------------------

#[derive(Debug, Clone)]
pub struct SiteConfig {
    pub title: String,
    pub tagline: String,
}

/// A calendar date (proleptic Gregorian), ordered as (year, month, day).
#[derive(Debug, Clone, Copy, PartialEq, Eq, Structural)]
pub struct PostDate {
    pub year: i32,
    pub month: u32,
    pub day: u32,
}

/// Leap years of the proleptic Gregorian calendar.
pub open spec fn leap_year(y: i32) -> bool {
    y % 4 == 0 && (y % 100 != 0 || y % 400 == 0)
}

pub open spec fn days_in_month(y: i32, m: u32) -> nat {
    if m == 2 {
        if leap_year(y) {
            29
        } else {
            28
        }
    } else if m == 4 || m == 6 || m == 9 || m == 11 {
        30
    } else {
        31
    }
}

/// The month is 1 to 12 and the day exists in it.
pub open spec fn date_exists(d: PostDate) -> bool {
    1 <= d.month <= 12 && 1 <= d.day <= days_in_month(d.year, d.month)
}

pub open spec fn month_abbrev(m: u32) -> Seq<char> {
    if m == 1 {
        "Jan"@
    } else if m == 2 {
        "Feb"@
    } else if m == 3 {
        "Mar"@
    } else if m == 4 {
        "Apr"@
    } else if m == 5 {
        "May"@
    } else if m == 6 {
        "Jun"@
    } else if m == 7 {
        "Jul"@
    } else if m == 8 {
        "Aug"@
    } else if m == 9 {
        "Sep"@
    } else if m == 10 {
        "Oct"@
    } else if m == 11 {
        "Nov"@
    } else {
        "Dec"@
    }
}

/// chrono's `%b %e, %Y`: the month's three-letter name, the day padded
/// with a space to two characters, and the year as `%Y` writes it.
pub open spec fn short_date(d: PostDate) -> Seq<char> {
    month_abbrev(d.month) + seq![' '] + (if d.day < 10 {
        seq![' '] + decimal(d.day as nat)
    } else {
        decimal(d.day as nat)
    }) + ", "@ + year_text(d.year)
}

/// `NaiveDate::from_ymd_opt` then `format("%b %e, %Y")`: the text of an
/// existing date, `None` for a month or day that does not exist (and for a
/// year outside chrono's range, which lies far beyond 1 to 9999).
#[verifier::external_body]
fn chrono_short_date(year: i32, month: u32, day: u32) -> (r: Option<String>)
    ensures
        r matches Some(s) ==> s@ == short_date(PostDate { year, month, day }),
        1 <= year <= 9999 && date_exists(PostDate { year, month, day }) ==> r is Some,
        !date_exists(PostDate { year, month, day }) ==> r is None,
{
    match chrono::NaiveDate::from_ymd_opt(year, month, day) {
        Some(d) => Some(d.format("%b %e, %Y").to_string()),
        None => None,
    }
}

/// A post's date as the pages show it, such as `Feb 12, 2026`; `None` when
/// the date does not exist.
pub fn display_date(date: PostDate) -> (r: Option<String>)
    ensures
        r matches Some(s) ==> s@ == short_date(date),
        1 <= date.year <= 9999 && date_exists(date) ==> r is Some,
        !date_exists(date) ==> r is None,
{
    chrono_short_date(date.year, date.month, date.day)
}

pub open spec fn date_before(a: PostDate, b: PostDate) -> bool {
    a.year < b.year || (a.year == b.year && (a.month < b.month || (a.month == b.month && a.day
        < b.day)))
}

/// The fields read from a post's YAML frontmatter.
#[derive(Debug, Clone)]
pub struct Frontmatter {
    pub title: String,
    pub slug: Option<String>,
    pub date: PostDate,
    pub excerpt: Option<String>,
}

#[derive(Debug, Clone)]
pub struct Post {
    pub title: String,
    pub slug: String,
    pub date: PostDate,
    pub excerpt: String,
    pub content_html: String,
    pub id: Option<i64>,
    pub status: Option<String>,
}

/// The trimmed title, and the trimmed slug (given, or made from the title).
pub open spec fn post_title(fm: Frontmatter) -> Seq<char> {
    trim(fm.title@)
}

pub open spec fn post_slug(fm: Frontmatter) -> Seq<char> {
    trim(
        match fm.slug {
            Some(s) => s@,
            None => slug_of(post_title(fm)),
        },
    )
}

/// The excerpt is inferred only once title and slug have passed.
pub open spec fn post_inputs_ok(fm: Frontmatter, body: Seq<char>) -> bool {
    post_title(fm).len() > 0 && post_slug(fm).len() > 0 && fm.excerpt is None ==> excerpt_cut_ok(
        body,
    )
}

/// A post from its frontmatter and Markdown body: an error for an empty
/// title or slug; the excerpt given or inferred; the body rendered.
pub fn build_post(fm: &Frontmatter, body_markdown: &str) -> (r: Result<Post, ContentError>)
    requires
        post_inputs_ok(*fm, body_markdown@),
    ensures
        post_title(*fm).len() == 0 ==> r matches Err(ContentError::EmptyTitle),
        post_title(*fm).len() > 0 && post_slug(*fm).len() == 0 ==> r matches Err(
            ContentError::EmptySlug,
        ),
        post_title(*fm).len() > 0 && post_slug(*fm).len() > 0 ==> (r matches Ok(p) && p.title@
            == post_title(*fm) && p.slug@ == post_slug(*fm) && p.date == fm.date && p.excerpt@
            == match fm.excerpt {
            Some(e) => e@,
            None => excerpt_of(body_markdown@),
        } && p.content_html@ == markdown_html_of(body_markdown@) && p.id is None && p.status is None),
{
    let title = trim_chars(&chars_of(fm.title.as_str()));
    if title.len() == 0 {
        return Err(ContentError::EmptyTitle);
    }
    let title_s = string_of(&title);
    let raw_slug: String = match &fm.slug {
        Some(s) => copy_string(s),
        None => slugify(title_s.as_str()),
    };
    let slug = trim_chars(&chars_of(raw_slug.as_str()));
    if slug.len() == 0 {
        return Err(ContentError::EmptySlug);
    }
    let excerpt = match &fm.excerpt {
        Some(e) => copy_string(e),
        None => infer_excerpt(body_markdown),
    };
    let content_html = markdown_to_html(body_markdown);
    Ok(
        Post {
            title: title_s,
            slug: string_of(&slug),
            date: fm.date,
            excerpt,
            content_html,
            id: None,
            status: None,
        },
    )
}

/// Whether an inferred excerpt of this Markdown can be cut where
/// `infer_excerpt` cuts it.
pub fn excerpt_cut_safe(markdown: &str) -> (r: bool)
    ensures
        r == excerpt_cut_ok(markdown@),
{
    let para = first_paragraph(&chars_of(markdown));
    let stem = trim_chars(&trim_start_char_exec(&para, '#'));
    let st = string_of(&stem);
    st.as_str().as_bytes().len() <= 160 || st.as_str().is_char_boundary(157)
}

/// Whether `build_post` accepts these inputs.
pub fn post_inputs_valid(fm: &Frontmatter, body_markdown: &str) -> (r: bool)
    ensures
        r == post_inputs_ok(*fm, body_markdown@),
{
    let title = trim_chars(&chars_of(fm.title.as_str()));
    if title.len() == 0 {
        return true;
    }
    let title_s = string_of(&title);
    let raw_slug: String = match &fm.slug {
        Some(s) => copy_string(s),
        None => slugify(title_s.as_str()),
    };
    let slug = trim_chars(&chars_of(raw_slug.as_str()));
    if slug.len() == 0 {
        return true;
    }
    match &fm.excerpt {
        Some(_) => true,
        None => excerpt_cut_safe(body_markdown),
    }
}

/// The position of the first post with this slug.
pub fn find_post(posts: &Vec<Post>, slug: &str) -> (r: Option<usize>)
    ensures
        match r {
            Some(i) => i < posts@.len() && posts@[i as int].slug@ == slug@ && forall|j: int|
                0 <= j < i ==> (#[trigger] posts@[j]).slug@ != slug@,
            None => forall|j: int| 0 <= j < posts@.len() ==> (#[trigger] posts@[j]).slug@ != slug@,
        },
{
    let mut i: usize = 0;
    while i < posts.len()
        invariant
            i <= posts@.len(),
            forall|j: int| 0 <= j < i ==> (#[trigger] posts@[j]).slug@ != slug@,
        decreases posts@.len() - i,
    {
        if crate::text::str_eq(posts[i].slug.as_str(), slug) {
            return Some(i);
        }
        i = i + 1;
    }
    None
}

/// Index at which a post dated `d` joins a newest-first list: after every
/// post not older than it.
pub open spec fn date_slot(s: Seq<Post>, d: PostDate) -> int
    decreases s.len(),
{
    if s.len() == 0 {
        0
    } else if date_before(s[0].date, d) {
        0
    } else {
        1 + date_slot(s.drop_first(), d)
    }
}

/// Posts ordered newest first, posts of the same date in their original
/// order (a stable sort).
pub open spec fn newest_first(s: Seq<Post>) -> Seq<Post>
    decreases s.len(),
{
    if s.len() == 0 {
        s
    } else {
        let prev = newest_first(s.drop_last());
        prev.insert(date_slot(prev, s.last().date), s.last())
    }
}

pub open spec fn sorted_newest_first(s: Seq<Post>) -> bool {
    forall|i: int, j: int| 0 <= i < j < s.len() ==> !date_before(s[i].date, s[j].date)
}

proof fn lemma_date_slot(s: Seq<Post>, d: PostDate)
    ensures
        0 <= date_slot(s, d) <= s.len(),
        forall|i: int| 0 <= i < date_slot(s, d) ==> !date_before(#[trigger] s[i].date, d),
        date_slot(s, d) < s.len() ==> date_before(s[date_slot(s, d)].date, d),
    decreases s.len(),
{
    if s.len() > 0 && !date_before(s[0].date, d) {
        lemma_date_slot(s.drop_first(), d);
        assert forall|i: int| 0 <= i < date_slot(s, d) implies !date_before(#[trigger] s[i].date, d) by {
            if i > 0 {
                assert(s[i] == s.drop_first()[i - 1]);
            }
        }
    }
}

/// The newest-first order is sorted by date, newest first, and keeps the
/// posts (as many as before).
pub proof fn lemma_newest_first_sorted(s: Seq<Post>)
    ensures
        sorted_newest_first(newest_first(s)),
        newest_first(s).len() == s.len(),
    decreases s.len(),
{
    if s.len() > 0 {
        lemma_newest_first_sorted(s.drop_last());
        let prev = newest_first(s.drop_last());
        let x = s.last();
        let p = date_slot(prev, x.date);
        lemma_date_slot(prev, x.date);
        let t = prev.insert(p, x);
        assert forall|i: int, j: int| 0 <= i < j < t.len() implies !date_before(t[i].date, t[j].date) by {
            if j < p {
                assert(!date_before(prev[i].date, prev[j].date));
            } else if j == p {
                assert(!date_before(prev[i].date, x.date));
            } else if i < p {
                assert(!date_before(prev[i].date, x.date));
                assert(!date_before(prev[i].date, prev[j - 1].date));
            } else if i == p {
                assert(date_before(prev[p].date, x.date));
                assert(!date_before(prev[p].date, prev[j - 1].date) || j - 1 == p);
            } else {
                assert(!date_before(prev[i - 1].date, prev[j - 1].date));
            }
        }
    }
}

/// Orders posts newest first (see `newest_first`).
pub fn sort_newest_first(posts: Vec<Post>) -> (r: Vec<Post>)
    ensures
        r@ == newest_first(posts@),
        sorted_newest_first(r@),
{
    let ghost orig = posts@;
    let mut rest = posts;
    let mut out: Vec<Post> = Vec::new();
    let n = rest.len();
    let mut k: usize = 0;
    assert(orig.subrange(0, 0) =~= Seq::<Post>::empty());
    assert(rest@ =~= orig.subrange(0, n as int));
    while k < n
        invariant
            n == orig.len(),
            k <= n,
            rest@ == orig.subrange(k as int, n as int),
            out@ == newest_first(orig.subrange(0, k as int)),
        decreases n - k,
    {
        let x = rest.remove(0);
        let ghost prev = out@;
        assert(orig.subrange(0, k + 1).drop_last() =~= orig.subrange(0, k as int));
        assert(orig.subrange(0, k + 1).last() == x);
        proof {
            lemma_date_slot(prev, x.date);
        }
        let mut p: usize = 0;
        assert(prev.subrange(0, prev.len() as int) =~= prev);
        while p < out.len() && !(out[p].date.year < x.date.year || (out[p].date.year == x.date.year
            && (out[p].date.month < x.date.month || (out[p].date.month == x.date.month
            && out[p].date.day < x.date.day))))
            invariant
                prev == out@,
                p <= out@.len(),
                date_slot(prev, x.date) == p + date_slot(prev.subrange(p as int, prev.len() as int), x.date),
            decreases out@.len() - p,
        {
            assert(prev.subrange(p as int, prev.len() as int).drop_first() =~= prev.subrange(
                p + 1,
                prev.len() as int,
            ));
            p += 1;
        }
        proof {
            if p < prev.len() {
                assert(prev.subrange(p as int, prev.len() as int)[0] == prev[p as int]);
            }
        }
        out.insert(p, x);
        k += 1;
        assert(rest@ =~= orig.subrange(k as int, n as int));
    }
    assert(orig.subrange(0, n as int) =~= orig);
    proof {
        lemma_newest_first_sorted(orig);
    }
    out
}

} // verus!
