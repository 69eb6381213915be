//! Character-level text primitives shared by every module: trimming,
//! ASCII case folding, searching, splitting, and decimal integers.
//! Strings are modelled by their `Seq<char>` view.

use vstd::prelude::*;
use vstd::string::*;

verus! {

// ------------------------------------------------------------------
// Whitespace and trimming
// ------------------------------------------------------------------

/// Unicode `White_Space` code points (what `char::is_whitespace` accepts).
pub open spec fn is_ws(c: char) -> bool {
    ||| ('\u{9}' <= c && c <= '\u{d}')
    ||| c == ' '
    ||| c == '\u{85}'
    ||| c == '\u{a0}'
    ||| c == '\u{1680}'
    ||| ('\u{2000}' <= c && c <= '\u{200a}')
    ||| c == '\u{2028}'
    ||| c == '\u{2029}'
    ||| c == '\u{202f}'
    ||| c == '\u{205f}'
    ||| c == '\u{3000}'
}

pub fn is_whitespace(c: char) -> (r: bool)
    ensures
        r == is_ws(c),
{
    ('\u{9}' <= c && c <= '\u{d}') || c == ' ' || c == '\u{85}' || c == '\u{a0}' || c
        == '\u{1680}' || ('\u{2000}' <= c && c <= '\u{200a}') || c == '\u{2028}' || c
        == '\u{2029}' || c == '\u{202f}' || c == '\u{205f}' || c == '\u{3000}'
}

/// Drops leading characters satisfying `is_ws`.
pub open spec fn trim_start(s: Seq<char>) -> Seq<char>
    decreases s.len(),
{
    if s.len() > 0 && is_ws(s[0]) {
        trim_start(s.drop_first())
    } else {
        s
    }
}

/// Drops trailing characters satisfying `is_ws`.
pub open spec fn trim_end(s: Seq<char>) -> Seq<char>
    decreases s.len(),
{
    if s.len() > 0 && is_ws(s.last()) {
        trim_end(s.drop_last())
    } else {
        s
    }
}

/// `str::trim`: whitespace removed at both ends.
pub open spec fn trim(s: Seq<char>) -> Seq<char> {
    trim_end(trim_start(s))
}

/// A text that neither starts nor ends with whitespace is its own trim.
pub proof fn lemma_trim_fixed(s: Seq<char>)
    requires
        s.len() > 0,
        !is_ws(s[0]),
        !is_ws(s.last()),
    ensures
        trim(s) == s,
{
    assert(trim_start(s) == s);
    assert(trim_end(s) == s);
}

/// What `trim_start` leaves does not start with whitespace.
pub proof fn lemma_trim_start_head(s: Seq<char>)
    ensures
        trim_start(s).len() > 0 ==> !is_ws(trim_start(s)[0]),
    decreases s.len(),
{
    if s.len() > 0 && is_ws(s[0]) {
        lemma_trim_start_head(s.drop_first());
    }
}

/// `trim_end` keeps a prefix that does not end with whitespace.
pub proof fn lemma_trim_end_prefix(s: Seq<char>)
    ensures
        trim_end(s).len() <= s.len(),
        trim_end(s) == s.subrange(0, trim_end(s).len() as int),
        trim_end(s).len() > 0 ==> !is_ws(trim_end(s).last()),
    decreases s.len(),
{
    if s.len() > 0 && is_ws(s.last()) {
        lemma_trim_end_prefix(s.drop_last());
        assert(trim_end(s) =~= s.subrange(0, trim_end(s).len() as int));
    } else {
        assert(s =~= s.subrange(0, s.len() as int));
    }
}

/// A trimmed text starts and ends with something other than whitespace.
pub proof fn lemma_trim_ends(s: Seq<char>)
    ensures
        trim(s).len() > 0 ==> !is_ws(trim(s)[0]) && !is_ws(trim(s).last()),
{
    lemma_trim_start_head(s);
    lemma_trim_end_prefix(trim_start(s));
    if trim(s).len() > 0 {
        assert(trim(s)[0] == trim_start(s)[0]);
    }
}

/// Copies `v[a..b]` into a fresh vector.
pub fn copy_range(v: &[char], a: usize, b: usize) -> (r: Vec<char>)
    requires
        a <= b <= v@.len(),
    ensures
        r@ == v@.subrange(a as int, b as int),
{
    let mut r: Vec<char> = Vec::new();
    let mut k = a;
    while k < b
        invariant
            a <= k <= b <= v@.len(),
            r@ == v@.subrange(a as int, k as int),
        decreases b - k,
    {
        r.push(v[k]);
        k += 1;
        assert(r@ =~= v@.subrange(a as int, k as int));
    }
    r
}

/// Index of the first non-whitespace character (or the length).
pub fn trim_start_index(v: &[char]) -> (i: usize)
    ensures
        i <= v@.len(),
        trim_start(v@) == v@.subrange(i as int, v@.len() as int),
        i < v@.len() ==> !is_ws(v@[i as int]),
{
    let mut i: usize = 0;
    assert(v@.subrange(0, v@.len() as int) =~= v@);
    while i < v.len() && is_whitespace(v[i])
        invariant
            i <= v@.len(),
            trim_start(v@) == trim_start(v@.subrange(i as int, v@.len() as int)),
        decreases v@.len() - i,
    {
        assert(v@.subrange(i as int, v@.len() as int).drop_first() =~= v@.subrange(
            i + 1,
            v@.len() as int,
        ));
        i += 1;
    }
    i
}

pub fn trim_chars(v: &[char]) -> (r: Vec<char>)
    ensures
        r@ == trim(v@),
{
    let i = trim_start_index(v);
    let mut j = v.len();
    while j > i && is_whitespace(v[j - 1])
        invariant
            i <= j <= v@.len(),
            trim(v@) == trim_end(v@.subrange(i as int, j as int)),
        decreases j,
    {
        assert(v@.subrange(i as int, j as int).drop_last() =~= v@.subrange(i as int, j - 1));
        j -= 1;
    }
    copy_range(v, i, j)
}

// ------------------------------------------------------------------
// Conversions between `str`/`String` and `Vec<char>`
// ------------------------------------------------------------------

/// `String::push`.
#[verifier::external_body]
pub(crate) fn push_char(s: &mut String, c: char)
    ensures
        final(s)@ == old(s)@.push(c),
{
    s.push(c);
}

pub fn chars_of(s: &str) -> (r: Vec<char>)
    ensures
        r@ == s@,
{
    let n = s.unicode_len();
    let mut r: Vec<char> = Vec::new();
    let mut k: usize = 0;
    while k < n
        invariant
            n == s@.len(),
            k <= n,
            r@ == s@.subrange(0, k as int),
        decreases n - k,
    {
        r.push(s.get_char(k));
        k += 1;
        assert(r@ =~= s@.subrange(0, k as int));
    }
    assert(r@ =~= s@);
    r
}

pub fn string_of(v: &[char]) -> (r: String)
    ensures
        r@ == v@,
{
    let mut r = String::new();
    let mut k: usize = 0;
    while k < v.len()
        invariant
            k <= v@.len(),
            r@ == v@.subrange(0, k as int),
        decreases v@.len() - k,
    {
        push_char(&mut r, v[k]);
        k += 1;
        assert(r@ =~= v@.subrange(0, k as int));
    }
    assert(r@ =~= v@);
    r
}

/// Appends all of `b` to `a`.
pub fn append_chars(a: &mut Vec<char>, b: &[char])
    ensures
        final(a)@ == old(a)@ + b@,
{
    let mut k: usize = 0;
    let ghost a0 = a@;
    while k < b.len()
        invariant
            k <= b@.len(),
            a@ == a0 + b@.subrange(0, k as int),
        decreases b@.len() - k,
    {
        a.push(b[k]);
        k += 1;
        assert(a@ =~= a0 + b@.subrange(0, k as int));
    }
    assert(b@.subrange(0, b@.len() as int) =~= b@);
}

pub fn append_str(a: &mut Vec<char>, b: &str)
    ensures
        final(a)@ == old(a)@ + b@,
{
    let bv = chars_of(b);
    append_chars(a, &bv);
}

// ------------------------------------------------------------------
// Equality, prefixes, suffixes, search
// ------------------------------------------------------------------

pub fn chars_eq(a: &[char], b: &[char]) -> (r: bool)
    ensures
        r == (a@ == b@),
{
    if a.len() != b.len() {
        return false;
    }
    let mut k: usize = 0;
    while k < a.len()
        invariant
            a@.len() == b@.len(),
            k <= a@.len(),
            forall|j: int| 0 <= j < k ==> a@[j] == b@[j],
        decreases a@.len() - k,
    {
        if a[k] != b[k] {
            return false;
        }
        k += 1;
    }
    assert(a@ =~= b@);
    true
}

pub fn str_eq(a: &str, b: &str) -> (r: bool)
    ensures
        r == (a@ == b@),
{
    let av = chars_of(a);
    let bv = chars_of(b);
    chars_eq(&av, &bv)
}

/// `p` occurs in `s` starting at index `i`.
pub open spec fn occurs_at(s: Seq<char>, p: Seq<char>, i: int) -> bool {
    0 <= i && i + p.len() <= s.len() && s.subrange(i, i + p.len()) == p
}

pub open spec fn starts_with(s: Seq<char>, p: Seq<char>) -> bool {
    occurs_at(s, p, 0)
}

pub open spec fn ends_with(s: Seq<char>, p: Seq<char>) -> bool {
    p.len() <= s.len() && occurs_at(s, p, s.len() - p.len())
}

pub open spec fn contains_seq(s: Seq<char>, p: Seq<char>) -> bool {
    exists|i: int| occurs_at(s, p, i)
}

pub fn occurs_at_exec(s: &[char], p: &[char], i: usize) -> (r: bool)
    ensures
        r == occurs_at(s@, p@, i as int),
{
    if i > s.len() || p.len() > s.len() - i {
        return false;
    }
    let mut k: usize = 0;
    while k < p.len()
        invariant
            i + p@.len() <= s@.len(),
            s@.len() == s.len(),
            k <= p@.len(),
            forall|j: int| 0 <= j < k ==> s@[i + j] == p@[j],
        decreases p@.len() - k,
    {
        if s[i + k] != p[k] {
            assert(s@.subrange(i as int, i + p@.len())[k as int] != p@[k as int]);
            return false;
        }
        k += 1;
    }
    assert(s@.subrange(i as int, i + p@.len()) =~= p@);
    true
}

pub fn starts_with_exec(s: &[char], p: &[char]) -> (r: bool)
    ensures
        r == starts_with(s@, p@),
{
    occurs_at_exec(s, p, 0)
}

/// First index at or after `from` where `p` occurs.
pub open spec fn first_occurrence(s: Seq<char>, p: Seq<char>, from: int) -> Option<int> {
    if exists|i: int| from <= i && occurs_at(s, p, i) {
        Some(
            choose|i: int|
                from <= i && occurs_at(s, p, i) && forall|j: int| from <= j < i ==> !occurs_at(s, p, j),
        )
    } else {
        None
    }
}

pub proof fn lemma_first_occurrence(s: Seq<char>, p: Seq<char>, from: int, i: int)
    requires
        from <= i,
        occurs_at(s, p, i),
        forall|j: int| from <= j < i ==> !occurs_at(s, p, j),
    ensures
        first_occurrence(s, p, from) == Some(i),
{
    let x = choose|x: int|
        from <= x && occurs_at(s, p, x) && forall|j: int| from <= j < x ==> !occurs_at(s, p, j);
    assert(from <= x && occurs_at(s, p, x));
    if x < i {
    } else if x > i {
    }
}

pub fn find_from(s: &[char], p: &[char], from: usize) -> (r: Option<usize>)
    ensures
        match r {
            Some(i) => from <= i && occurs_at(s@, p@, i as int) && forall|j: int|
                from <= j < i ==> !occurs_at(s@, p@, j),
            None => forall|j: int| from <= j ==> !occurs_at(s@, p@, j),
        },
        r matches Some(i) ==> first_occurrence(s@, p@, from as int) == Some(i as int),
        r is None ==> first_occurrence(s@, p@, from as int) is None,
{
    if from > s.len() {
        return None;
    }
    let mut i = from;
    while i < s.len()
        invariant
            from <= i <= s@.len(),
            forall|j: int| from <= j < i ==> !occurs_at(s@, p@, j),
        decreases s@.len() - i,
    {
        if occurs_at_exec(s, p, i) {
            proof {
                lemma_first_occurrence(s@, p@, from as int, i as int);
            }
            return Some(i);
        }
        i += 1;
    }
    if occurs_at_exec(s, p, i) {
        proof {
            lemma_first_occurrence(s@, p@, from as int, i as int);
        }
        return Some(i);
    }
    assert forall|j: int| from <= j implies !occurs_at(s@, p@, j) by {
        if j > i {
        }
    }
    None
}

pub fn find(s: &[char], p: &[char]) -> (r: Option<usize>)
    ensures
        match r {
            Some(i) => occurs_at(s@, p@, i as int) && forall|j: int|
                0 <= j < i ==> !occurs_at(s@, p@, j),
            None => !contains_seq(s@, p@),
        },
        r matches Some(i) ==> first_occurrence(s@, p@, 0) == Some(i as int),
        r is None ==> first_occurrence(s@, p@, 0) is None,
{
    find_from(s, p, 0)
}

pub fn contains_exec(s: &[char], p: &[char]) -> (r: bool)
    ensures
        r == contains_seq(s@, p@),
{
    match find(s, p) {
        Some(i) => true,
        None => false,
    }
}

/// First index of character `c`, if any.
pub open spec fn first_index_of(s: Seq<char>, c: char) -> Option<int> {
    if exists|i: int| 0 <= i < s.len() && s[i] == c {
        Some(choose|i: int| 0 <= i < s.len() && s[i] == c && forall|j: int| 0 <= j < i ==> s[j] != c)
    } else {
        None
    }
}

pub fn find_char(s: &[char], c: char) -> (r: Option<usize>)
    ensures
        match r {
            Some(i) => i < s@.len() && s@[i as int] == c && forall|j: int|
                0 <= j < i ==> s@[j] != c,
            None => forall|j: int| 0 <= j < s@.len() ==> s@[j] != c,
        },
        r matches Some(i) ==> first_index_of(s@, c) == Some(i as int),
        r is None ==> first_index_of(s@, c) is None,
{
    let mut i: usize = 0;
    while i < s.len()
        invariant
            i <= s@.len(),
            forall|j: int| 0 <= j < i ==> s@[j] != c,
        decreases s@.len() - i,
    {
        if s[i] == c {
            proof {
                let k = choose|k: int| 0 <= k < s@.len() && s@[k] == c && forall|j: int| 0 <= j < k ==> s@[j] != c;
                if k < i {
                } else if k > i {
                }
            }
            return Some(i);
        }
        i += 1;
    }
    None
}

// ------------------------------------------------------------------
// ASCII case folding
// ------------------------------------------------------------------

pub open spec fn lower(c: char) -> char {
    if 'A' <= c && c <= 'Z' {
        ((c as u32) + 32) as char
    } else {
        c
    }
}

pub open spec fn upper(c: char) -> char {
    if 'a' <= c && c <= 'z' {
        ((c as u32) - 32) as char
    } else {
        c
    }
}

pub open spec fn lower_seq(s: Seq<char>) -> Seq<char> {
    s.map_values(|c: char| lower(c))
}

pub open spec fn upper_seq(s: Seq<char>) -> Seq<char> {
    s.map_values(|c: char| upper(c))
}

/// `str::eq_ignore_ascii_case`.
pub open spec fn eq_ignore_case(a: Seq<char>, b: Seq<char>) -> bool {
    lower_seq(a) == lower_seq(b)
}

pub fn lower_char(c: char) -> (r: char)
    ensures
        r == lower(c),
{
    if 'A' <= c && c <= 'Z' {
        let u: u32 = c as u32;
        let v: u32 = u + 32;
        assert(0x61 <= v <= 0x7a);
        let b: u8 = v as u8;
        b as char
    } else {
        c
    }
}

pub fn upper_char(c: char) -> (r: char)
    ensures
        r == upper(c),
{
    if 'a' <= c && c <= 'z' {
        let u: u32 = c as u32;
        let v: u32 = u - 32;
        let b: u8 = v as u8;
        b as char
    } else {
        c
    }
}

pub fn to_lower(v: &[char]) -> (r: Vec<char>)
    ensures
        r@ == lower_seq(v@),
{
    let mut r: Vec<char> = Vec::new();
    let mut k: usize = 0;
    while k < v.len()
        invariant
            k <= v@.len(),
            r@ == lower_seq(v@.subrange(0, k as int)),
        decreases v@.len() - k,
    {
        r.push(lower_char(v[k]));
        k += 1;
        assert(r@ =~= lower_seq(v@.subrange(0, k as int)));
    }
    assert(v@.subrange(0, v@.len() as int) =~= v@);
    r
}

pub fn to_upper(v: &[char]) -> (r: Vec<char>)
    ensures
        r@ == upper_seq(v@),
{
    let mut r: Vec<char> = Vec::new();
    let mut k: usize = 0;
    while k < v.len()
        invariant
            k <= v@.len(),
            r@ == upper_seq(v@.subrange(0, k as int)),
        decreases v@.len() - k,
    {
        r.push(upper_char(v[k]));
        k += 1;
        assert(r@ =~= upper_seq(v@.subrange(0, k as int)));
    }
    assert(v@.subrange(0, v@.len() as int) =~= v@);
    r
}

pub fn eq_ignore_case_exec(a: &[char], b: &[char]) -> (r: bool)
    ensures
        r == eq_ignore_case(a@, b@),
{
    let la = to_lower(a);
    let lb = to_lower(b);
    chars_eq(&la, &lb)
}


// ------------------------------------------------------------------
// Decimal integers
// ------------------------------------------------------------------

pub open spec fn is_digit(c: char) -> bool {
    '0' <= c && c <= '9'
}

pub open spec fn digit_val(c: char) -> nat {
    if is_digit(c) {
        (c as int - 48) as nat
    } else {
        0
    }
}

pub open spec fn all_digits(s: Seq<char>) -> bool {
    forall|i: int| 0 <= i < s.len() ==> is_digit(#[trigger] s[i])
}

/// Value of a digit string read in base ten.
pub open spec fn digits_value(s: Seq<char>) -> nat
    decreases s.len(),
{
    if s.len() == 0 {
        0
    } else {
        10 * digits_value(s.drop_last()) + digit_val(s.last())
    }
}

/// `str::parse` for an unsigned integer type whose largest value is
/// `max`: an optional `+`, then one or more ASCII digits, in range.
pub open spec fn unsigned_digits(s: Seq<char>) -> Seq<char> {
    if s.len() > 0 && s[0] == '+' {
        s.drop_first()
    } else {
        s
    }
}

pub open spec fn parse_unsigned(s: Seq<char>, max: nat) -> Option<nat> {
    let d = unsigned_digits(s);
    if d.len() > 0 && all_digits(d) && digits_value(d) <= max {
        Some(digits_value(d))
    } else {
        None
    }
}

pub proof fn lemma_digits_value_prefix(s: Seq<char>, k: int)
    requires
        0 <= k <= s.len(),
    ensures
        digits_value(s.subrange(0, k)) <= digits_value(s),
    decreases s.len() - k,
{
    if k < s.len() {
        lemma_digits_value_prefix(s, k + 1);
        assert(s.subrange(0, k + 1).drop_last() =~= s.subrange(0, k));
    } else {
        assert(s.subrange(0, k) =~= s);
    }
}

/// Parses an unsigned decimal no larger than `max`.
pub fn parse_uint(v: &[char], max: u64) -> (r: Option<u64>)
    ensures
        match r {
            Some(n) => parse_unsigned(v@, max as nat) == Some(n as nat),
            None => parse_unsigned(v@, max as nat) is None,
        },
{
    let start: usize = if v.len() > 0 && v[0] == '+' {
        1
    } else {
        0
    };
    let ghost d = unsigned_digits(v@);
    assert(d =~= v@.subrange(start as int, v@.len() as int));
    if start == v.len() {
        return None;
    }
    let mut acc: u64 = 0;
    let mut k = start;
    while k < v.len()
        invariant
            start <= k <= v@.len(),
            d == v@.subrange(start as int, v@.len() as int),
            d == unsigned_digits(v@),
            all_digits(d.subrange(0, k - start)),
            acc as nat == digits_value(d.subrange(0, k - start)),
            acc <= max,
        decreases v@.len() - k,
    {
        let c = v[k];
        if !('0' <= c && c <= '9') {
            assert(d[k - start] == c);
            assert(!is_digit(d[k - start]));
            assert(!all_digits(d));
            assert(parse_unsigned(v@, max as nat) is None);
            return None;
        }
        let dv: u64 = (c as u32 - 48) as u64;
        assert(d.subrange(0, k + 1 - start).drop_last() =~= d.subrange(0, k - start));
        assert(d.subrange(0, k + 1 - start).last() == c);
        if dv > max || acc > (max - dv) / 10 {
            proof {
                let whole = digits_value(d.subrange(0, k + 1 - start));
                assert(whole == 10 * acc + dv);
                if dv <= max {
                    assert(10 * acc + dv > max) by (nonlinear_arith)
                        requires
                            acc > (max - dv) / 10,
                            dv <= max,
                    ;
                }
                lemma_digits_value_prefix(d, k + 1 - start);
                assert(digits_value(d) > max);
                assert(parse_unsigned(v@, max as nat) is None);
            }
            return None;
        }
        assert(10 * acc + dv <= max) by (nonlinear_arith)
            requires
                acc <= (max - dv) / 10,
                dv <= max,
        ;
        acc = acc * 10 + dv;
        k += 1;
        assert(all_digits(d.subrange(0, k - start)));
    }
    assert(d.subrange(0, k - start) =~= d);
    Some(acc)
}

pub fn parse_u64(v: &[char]) -> (r: Option<u64>)
    ensures
        match r {
            Some(n) => parse_unsigned(v@, u64::MAX as nat) == Some(n as nat),
            None => parse_unsigned(v@, u64::MAX as nat) is None,
        },
{
    parse_uint(v, u64::MAX)
}

pub open spec fn digit_char(d: nat) -> char {
    ((d + 48) as u8) as char
}

/// Decimal rendering of a natural number (as `u64: Display` prints it).
pub open spec fn decimal(n: nat) -> Seq<char>
    decreases n,
{
    if n < 10 {
        seq![digit_char(n)]
    } else {
        decimal(n / 10).push(digit_char(n % 10))
    }
}

pub fn u64_to_chars(n: u64) -> (r: Vec<char>)
    ensures
        r@ == decimal(n as nat),
    decreases n,
{
    let d: u8 = (n % 10) as u8;
    let c: char = (d + 48) as char;
    if n < 10 {
        let mut r: Vec<char> = Vec::new();
        r.push(c);
        assert(r@ =~= seq![digit_char(n as nat)]);
        r
    } else {
        let mut r = u64_to_chars(n / 10);
        r.push(c);
        r
    }
}

// ------------------------------------------------------------------
// Splitting
// ------------------------------------------------------------------

/// `str::split(sep)`: the pieces between separators (at least one piece).
pub open spec fn split(s: Seq<char>, sep: char) -> Seq<Seq<char>>
    decreases s.len(),
{
    if s.len() == 0 {
        seq![Seq::<char>::empty()]
    } else {
        let prev = split(s.drop_last(), sep);
        if s.last() == sep {
            prev.push(Seq::<char>::empty())
        } else {
            prev.update(prev.len() - 1, prev.last().push(s.last()))
        }
    }
}

pub proof fn lemma_split_nonempty(s: Seq<char>, sep: char)
    ensures
        split(s, sep).len() >= 1,
    decreases s.len(),
{
    if s.len() > 0 {
        lemma_split_nonempty(s.drop_last(), sep);
    }
}

pub open spec fn views(v: Seq<Vec<char>>) -> Seq<Seq<char>> {
    v.map_values(|x: Vec<char>| x@)
}

pub fn split_char(v: &[char], sep: char) -> (r: Vec<Vec<char>>)
    ensures
        views(r@) == split(v@, sep),
{
    let mut pieces: Vec<Vec<char>> = Vec::new();
    let mut cur: Vec<char> = Vec::new();
    let mut k: usize = 0;
    assert(v@.subrange(0, 0) =~= Seq::<char>::empty());
    assert(views(pieces@).push(cur@) =~= split(Seq::<char>::empty(), sep));
    while k < v.len()
        invariant
            k <= v@.len(),
            views(pieces@).push(cur@) == split(v@.subrange(0, k as int), sep),
        decreases v@.len() - k,
    {
        let c = v[k];
        let ghost before = v@.subrange(0, k as int);
        assert(v@.subrange(0, k + 1).drop_last() =~= before);
        proof {
            lemma_split_nonempty(before, sep);
        }
        if c == sep {
            let done = cur;
            pieces.push(done);
            cur = Vec::new();
            assert(views(pieces@).push(cur@) =~= split(v@.subrange(0, k + 1), sep));
        } else {
            let ghost old_pieces = pieces@;
            cur.push(c);
            assert(views(pieces@).push(cur@) =~= split(v@.subrange(0, k + 1), sep));
        }
        k += 1;
    }
    assert(v@.subrange(0, v@.len() as int) =~= v@);
    pieces.push(cur);
    assert(views(pieces@) =~= split(v@, sep));
    pieces
}


// ------------------------------------------------------------------
// Sequences of strings
// ------------------------------------------------------------------

pub open spec fn strs(v: Seq<String>) -> Seq<Seq<char>> {
    v.map_values(|x: String| x@)
}

pub open spec fn pair_views(v: Seq<(String, String)>) -> Seq<(Seq<char>, Seq<char>)> {
    v.map_values(|p: (String, String)| (p.0@, p.1@))
}

/// A (name, value) pair of fresh strings.
pub fn make_pair(a: &[char], b: &[char]) -> (r: (String, String))
    ensures
        r.0@ == a@,
        r.1@ == b@,
{
    (string_of(a), string_of(b))
}

pub open spec fn strs_ref(v: Seq<&str>) -> Seq<Seq<char>> {
    v.map_values(|x: &str| x@)
}

/// Exact membership of `s` in a list of strings.
pub fn contains_string(list: &Vec<String>, s: &[char]) -> (r: bool)
    ensures
        r == strs(list@).contains(s@),
{
    let mut k: usize = 0;
    while k < list.len()
        invariant
            k <= list@.len(),
            forall|j: int| 0 <= j < k ==> list@[j]@ != s@,
        decreases list@.len() - k,
    {
        let item = chars_of(list[k].as_str());
        if chars_eq(&item, s) {
            assert(strs(list@)[k as int] == s@);
            return true;
        }
        k += 1;
    }
    assert(!strs(list@).contains(s@)) by {
        if strs(list@).contains(s@) {
            let j = choose|j: int| 0 <= j < strs(list@).len() && strs(list@)[j] == s@;
            assert(list@[j]@ == s@);
        }
    }
    false
}

/// `str::trim_end_matches(c)` for a single character.
pub open spec fn trim_end_char(s: Seq<char>, c: char) -> Seq<char>
    decreases s.len(),
{
    if s.len() > 0 && s.last() == c {
        trim_end_char(s.drop_last(), c)
    } else {
        s
    }
}

/// `str::trim_start_matches(c)` for a single character.
pub open spec fn trim_start_char(s: Seq<char>, c: char) -> Seq<char>
    decreases s.len(),
{
    if s.len() > 0 && s[0] == c {
        trim_start_char(s.drop_first(), c)
    } else {
        s
    }
}

pub fn trim_end_char_exec(v: &[char], c: char) -> (r: Vec<char>)
    ensures
        r@ == trim_end_char(v@, c),
{
    let mut j = v.len();
    assert(v@.subrange(0, v@.len() as int) =~= v@);
    while j > 0 && v[j - 1] == c
        invariant
            j <= v@.len(),
            trim_end_char(v@, c) == trim_end_char(v@.subrange(0, j as int), c),
        decreases j,
    {
        assert(v@.subrange(0, j as int).drop_last() =~= v@.subrange(0, j - 1));
        j -= 1;
    }
    copy_range(v, 0, j)
}

pub fn trim_start_char_exec(v: &[char], c: char) -> (r: Vec<char>)
    ensures
        r@ == trim_start_char(v@, c),
{
    let mut i: usize = 0;
    assert(v@.subrange(0, v@.len() as int) =~= v@);
    while i < v.len() && v[i] == c
        invariant
            i <= v@.len(),
            trim_start_char(v@, c) == trim_start_char(v@.subrange(i as int, v@.len() as int), c),
        decreases v@.len() - i,
    {
        assert(v@.subrange(i as int, v@.len() as int).drop_first() =~= v@.subrange(
            i + 1,
            v@.len() as int,
        ));
        i += 1;
    }
    copy_range(v, i, v.len())
}

/// Value of the first pair whose key is `key`.
pub open spec fn lookup(pairs: Seq<(String, String)>, key: Seq<char>) -> Option<Seq<char>>
    decreases pairs.len(),
{
    if pairs.len() == 0 {
        None
    } else if pairs[0].0@ == key {
        Some(pairs[0].1@)
    } else {
        lookup(pairs.drop_first(), key)
    }
}

pub fn lookup_exec(pairs: &Vec<(String, String)>, key: &str) -> (r: Option<Vec<char>>)
    ensures
        match r {
            Some(v) => lookup(pairs@, key@) == Some(v@),
            None => lookup(pairs@, key@) is None,
        },
{
    let kv = chars_of(key);
    let mut k: usize = 0;
    assert(pairs@.subrange(0, pairs@.len() as int) =~= pairs@);
    while k < pairs.len()
        invariant
            k <= pairs@.len(),
            kv@ == key@,
            lookup(pairs@, key@) == lookup(pairs@.subrange(k as int, pairs@.len() as int), key@),
        decreases pairs@.len() - k,
    {
        let name = chars_of(pairs[k].0.as_str());
        assert(pairs@.subrange(k as int, pairs@.len() as int)[0] == pairs@[k as int]);
        if chars_eq(&name, &kv) {
            return Some(chars_of(pairs[k].1.as_str()));
        }
        assert(pairs@.subrange(k as int, pairs@.len() as int).drop_first() =~= pairs@.subrange(
            k + 1,
            pairs@.len() as int,
        ));
        k += 1;
    }
    None
}


// ------------------------------------------------------------------
// Slash handling and signed decimals
// ------------------------------------------------------------------

/// Runs of `/` collapsed to a single `/` (what repeatedly replacing `//`
/// by `/` leaves).
pub open spec fn collapse_slashes(s: Seq<char>) -> Seq<char>
    decreases s.len(),
{
    if s.len() == 0 {
        s
    } else {
        let prev = collapse_slashes(s.drop_last());
        if s.last() == '/' && prev.len() > 0 && prev.last() == '/' {
            prev
        } else {
            prev.push(s.last())
        }
    }
}

/// No `/` directly follows another.
pub open spec fn no_double_slash(s: Seq<char>) -> bool {
    forall|i: int, j: int|
        0 <= i && j == i + 1 && j < s.len() ==> !(#[trigger] s[i] == '/' && #[trigger] s[j] == '/')
}

/// Collapsing leaves no `//`, keeps the first and last characters, and
/// changes nothing where there is no `//`.
pub proof fn lemma_collapse_slashes(s: Seq<char>)
    ensures
        no_double_slash(collapse_slashes(s)),
        s.len() > 0 ==> collapse_slashes(s).len() > 0 && collapse_slashes(s)[0] == s[0]
            && collapse_slashes(s).last() == s.last(),
        no_double_slash(s) ==> collapse_slashes(s) == s,
    decreases s.len(),
{
    if s.len() > 0 {
        let d = s.drop_last();
        let prev = collapse_slashes(d);
        lemma_collapse_slashes(d);
        let c = collapse_slashes(s);
        if !(s.last() == '/' && prev.len() > 0 && prev.last() == '/') {
            assert(c == prev.push(s.last()));
            assert forall|i: int, j: int|
                0 <= i && j == i + 1 && j < c.len() implies !(#[trigger] c[i] == '/'
                && #[trigger] c[j] == '/') by {
                if j < prev.len() {
                    assert(c[i] == prev[i] && c[j] == prev[j]);
                }
            }
        }
        if no_double_slash(s) {
            assert forall|i: int, j: int|
                0 <= i && j == i + 1 && j < d.len() implies !(#[trigger] d[i] == '/'
                && #[trigger] d[j] == '/') by {
                assert(d[i] == s[i] && d[j] == s[j]);
            }
            assert(prev == d);
            if d.len() > 0 {
                assert(s[d.len() - 1] == d.last());
                assert(!(s[d.len() - 1] == '/' && s[d.len() as int] == '/'));
            }
            assert(c =~= s);
        }
    }
}

pub fn collapse_slashes_exec(v: &[char]) -> (r: Vec<char>)
    ensures
        r@ == collapse_slashes(v@),
{
    let mut r: Vec<char> = Vec::new();
    let mut k: usize = 0;
    assert(v@.subrange(0, 0) =~= Seq::<char>::empty());
    while k < v.len()
        invariant
            k <= v@.len(),
            r@ == collapse_slashes(v@.subrange(0, k as int)),
        decreases v@.len() - k,
    {
        assert(v@.subrange(0, k + 1).drop_last() =~= v@.subrange(0, k as int));
        if !(v[k] == '/' && r.len() > 0 && r[r.len() - 1] == '/') {
            r.push(v[k]);
        }
        k += 1;
    }
    assert(v@.subrange(0, v@.len() as int) =~= v@);
    r
}

/// Decimal rendering of a signed integer.
pub open spec fn int_decimal(n: int) -> Seq<char> {
    if n < 0 {
        seq!['-'] + decimal((-n) as nat)
    } else {
        decimal(n as nat)
    }
}

pub fn i64_to_chars(n: i64) -> (r: Vec<char>)
    ensures
        r@ == int_decimal(n as int),
{
    if n < 0 {
        let m: u64 = if n == i64::MIN {
            9223372036854775808u64
        } else {
            (-n) as u64
        };
        let mut r: Vec<char> = Vec::new();
        r.push('-');
        let d = u64_to_chars(m);
        append_chars(&mut r, &d);
        assert(r@ =~= seq!['-'] + decimal((-(n as int)) as nat));
        r
    } else {
        u64_to_chars(n as u64)
    }
}


/// Copies a string character by character (a clone whose result is known).
pub fn copy_string(s: &String) -> (r: String)
    ensures
        r@ == s@,
{
    string_of(&chars_of(s.as_str()))
}

/// The value of the last entry with this key (later entries win).
pub open spec fn last_value(pairs: Seq<(Seq<char>, Seq<char>)>, key: Seq<char>) -> Option<Seq<char>>
    decreases pairs.len(),
{
    if pairs.len() == 0 {
        None
    } else if pairs.last().0 == key {
        Some(pairs.last().1)
    } else {
        last_value(pairs.drop_last(), key)
    }
}

/// `entries` holds each key of `pairs` once, with the value of its last
/// occurrence, and no other key.
pub open spec fn keyed_by_last(entries: Seq<(String, String)>, pairs: Seq<(Seq<char>, Seq<char>)>) -> bool {
    &&& forall|i: int, j: int| 0 <= i < j < entries.len() ==> entries[i].0@ != entries[j].0@
    &&& forall|i: int|
        0 <= i < entries.len() ==> last_value(pairs, (#[trigger] entries[i]).0@) == Some(
            entries[i].1@,
        )
    &&& forall|key: Seq<char>|
        last_value(pairs, key) is Some ==> exists|i: int|
            0 <= i < entries.len() && (#[trigger] entries[i]).0@ == key
}

/// Each key once, in order of first appearance, with the value of its
/// last occurrence (what collecting pairs into a map gives).
pub fn last_wins(pairs: &Vec<(String, String)>) -> (r: KeyedList<String>)
    ensures
        keyed_by_last(r.entries@, pair_views(pairs@)),
{
    let mut out: Vec<(String, String)> = Vec::new();
    let mut k: usize = 0;
    while k < pairs.len()
        invariant
            k <= pairs@.len(),
            forall|i: int, j: int| 0 <= i < j < out@.len() ==> out@[i].0@ != out@[j].0@,
            forall|i: int|
                0 <= i < out@.len() ==> last_value(pair_views(pairs@).subrange(0, k as int), (
                #[trigger] out@[i]).0@) == Some(out@[i].1@),
            forall|key: Seq<char>|
                last_value(pair_views(pairs@).subrange(0, k as int), key) is Some ==> exists|i: int|
                    0 <= i < out@.len() && (#[trigger] out@[i]).0@ == key,
        decreases pairs@.len() - k,
    {
        let ghost pre = pair_views(pairs@).subrange(0, k as int);
        let ghost post = pair_views(pairs@).subrange(0, k + 1);
        assert(post.drop_last() =~= pre);
        assert(post.last() == (pairs@[k as int].0@, pairs@[k as int].1@));
        let name = chars_of(pairs[k].0.as_str());
        let mut found: Option<usize> = None;
        let mut j: usize = 0;
        while j < out.len()
            invariant
                j <= out@.len(),
                name@ == pairs@[k as int].0@,
                found matches Some(f) ==> f < out@.len() && out@[f as int].0@ == name@,
                found is None ==> forall|x: int| 0 <= x < j ==> out@[x].0@ != name@,
            decreases out@.len() - j,
        {
            let n2 = chars_of(out[j].0.as_str());
            if found.is_none() && chars_eq(&n2, &name) {
                found = Some(j);
            }
            j += 1;
        }
        let ghost before = out@;
        match found {
            Some(f) => {
                let entry = (copy_string(&pairs[k].0), copy_string(&pairs[k].1));
                out.set(f, entry);
                assert forall|a: int, b: int| 0 <= a < b < out@.len() implies out@[a].0@ != out@[b].0@ by {
                    assert(before[a].0@ != before[b].0@);
                }
                assert forall|i: int| 0 <= i < out@.len() implies last_value(post, (#[trigger] out@[i]).0@)
                    == Some(out@[i].1@) by {
                    if i != f {
                        assert(out@[i] == before[i]);
                        assert(before[i].0@ != before[f as int].0@);
                    }
                }
                assert forall|key: Seq<char>| last_value(post, key) is Some implies exists|i: int|
                    0 <= i < out@.len() && (#[trigger] out@[i]).0@ == key by {
                    if key == name@ {
                        assert(out@[f as int].0@ == key);
                    } else {
                        assert(last_value(post, key) == last_value(pre, key));
                        let i = choose|i: int| 0 <= i < before.len() && (#[trigger] before[i]).0@ == key;
                        if i == f {
                            assert(before[f as int].0@ == name@);
                        }
                        assert(out@[i] == before[i]);
                        assert(out@[i].0@ == key);
                    }
                }
            },
            None => {
                let entry = (copy_string(&pairs[k].0), copy_string(&pairs[k].1));
                out.push(entry);
                assert forall|a: int, b: int| 0 <= a < b < out@.len() implies out@[a].0@ != out@[b].0@ by {
                    if b < before.len() {
                        assert(before[a].0@ != before[b].0@);
                    }
                }
                assert forall|i: int| 0 <= i < out@.len() implies last_value(post, (#[trigger] out@[i]).0@)
                    == Some(out@[i].1@) by {
                    if i < before.len() {
                        assert(out@[i] == before[i]);
                    }
                }
                assert forall|key: Seq<char>| last_value(post, key) is Some implies exists|i: int|
                    0 <= i < out@.len() && (#[trigger] out@[i]).0@ == key by {
                    if key == name@ {
                        assert(out@[before.len() as int].0@ == key);
                    } else {
                        assert(last_value(post, key) == last_value(pre, key));
                        let i = choose|i: int| 0 <= i < before.len() && (#[trigger] before[i]).0@ == key;
                        assert(out@[i] == before[i]);
                    }
                }
            },
        }
        k += 1;
    }
    assert(pair_views(pairs@).subrange(0, k as int) =~= pair_views(pairs@));
    KeyedList { entries: out }
}


/// A list of entries keyed by strings, read through `get` (first match).
#[derive(Debug, Clone)]
pub struct KeyedList<V> {
    pub entries: Vec<(String, V)>,
}

pub open spec fn first_key<V>(entries: Seq<(String, V)>, key: Seq<char>) -> Option<int>
    decreases entries.len(),
{
    if entries.len() == 0 {
        None
    } else if entries[0].0@ == key {
        Some(0)
    } else {
        match first_key(entries.drop_first(), key) {
            Some(i) => Some(i + 1),
            None => None,
        }
    }
}

pub proof fn lemma_first_key<V>(entries: Seq<(String, V)>, key: Seq<char>)
    ensures
        match first_key(entries, key) {
            Some(i) => 0 <= i < entries.len() && entries[i].0@ == key && forall|j: int|
                0 <= j < i ==> entries[j].0@ != key,
            None => forall|j: int| 0 <= j < entries.len() ==> entries[j].0@ != key,
        },
    decreases entries.len(),
{
    if entries.len() > 0 {
        lemma_first_key(entries.drop_first(), key);
        if entries[0].0@ != key {
            assert forall|j: int| 1 <= j < entries.len() implies entries[j] == entries.drop_first()[j
                - 1] by {
            }
        }
    }
}

impl<V> KeyedList<V> {
    /// The value of the first entry whose key is `key`.
    pub fn get(&self, key: &str) -> (r: Option<&V>)
        ensures
            match first_key(self.entries@, key@) {
                Some(i) => r == Some(&self.entries@[i].1),
                None => r is None,
            },
    {
        let k = chars_of(key);
        let mut i: usize = 0;
        proof {
            lemma_first_key(self.entries@, key@);
        }
        while i < self.entries.len()
            invariant
                i <= self.entries@.len(),
                k@ == key@,
                forall|j: int| 0 <= j < i ==> self.entries@[j].0@ != key@,
            decreases self.entries@.len() - i,
        {
            let name = chars_of(self.entries[i].0.as_str());
            if chars_eq(&name, &k) {
                proof {
                    lemma_first_key(self.entries@, key@);
                    match first_key(self.entries@, key@) {
                        Some(x) => {
                            if x < i {
                            } else if x > i {
                            }
                        },
                        None => {},
                    }
                }
                return Some(&self.entries[i].1);
            }
            i += 1;
        }
        None
    }

    pub fn contains_key(&self, key: &str) -> (r: bool)
        ensures
            r == (first_key(self.entries@, key@) is Some),
    {
        match self.get(key) {
            Some(_) => true,
            None => false,
        }
    }

    pub fn len(&self) -> (r: usize)
        ensures
            r == self.entries@.len(),
    {
        self.entries.len()
    }
}


pub proof fn lemma_first_occurrence_props(s: Seq<char>, p: Seq<char>, from: int)
    ensures
        match first_occurrence(s, p, from) {
            Some(i) => from <= i && occurs_at(s, p, i) && i + p.len() <= s.len() && forall|j: int|
                from <= j < i ==> !occurs_at(s, p, j),
            None => forall|j: int| from <= j ==> !occurs_at(s, p, j),
        },
{
    if exists|i: int| from <= i && occurs_at(s, p, i) {
        let i = choose|i: int| from <= i && occurs_at(s, p, i);
        lemma_min_occurrence(s, p, from, i);
    }
}

proof fn lemma_min_occurrence(s: Seq<char>, p: Seq<char>, from: int, i: int)
    requires
        from <= i,
        occurs_at(s, p, i),
    ensures
        exists|m: int|
            from <= m && occurs_at(s, p, m) && forall|j: int| from <= j < m ==> !occurs_at(s, p, j),
    decreases i - from,
{
    if exists|j: int| from <= j < i && occurs_at(s, p, j) {
        let j = choose|j: int| from <= j < i && occurs_at(s, p, j);
        lemma_min_occurrence(s, p, from, j);
    } else {
        assert(forall|j: int| from <= j < i ==> !occurs_at(s, p, j));
    }
}

/// `str::split(sep)` with empty pieces dropped.
pub open spec fn nonempty_pieces(pieces: Seq<Seq<char>>) -> Seq<Seq<char>>
    decreases pieces.len(),
{
    if pieces.len() == 0 {
        Seq::empty()
    } else {
        let prev = nonempty_pieces(pieces.drop_last());
        if pieces.last().len() > 0 {
            prev.push(pieces.last())
        } else {
            prev
        }
    }
}

/// The non-empty pieces between separators.
pub open spec fn split_nonempty(s: Seq<char>, sep: char) -> Seq<Seq<char>> {
    nonempty_pieces(split(s, sep))
}

pub fn split_nonempty_exec(v: &[char], sep: char) -> (r: Vec<Vec<char>>)
    ensures
        views(r@) == split_nonempty(v@, sep),
{
    let pieces = split_char(v, sep);
    let mut r: Vec<Vec<char>> = Vec::new();
    let mut k: usize = 0;
    while k < pieces.len()
        invariant
            k <= pieces@.len(),
            views(pieces@) == split(v@, sep),
            views(r@) == nonempty_pieces(views(pieces@).subrange(0, k as int)),
        decreases pieces@.len() - k,
    {
        assert(views(pieces@).subrange(0, k + 1).drop_last() =~= views(pieces@).subrange(0, k as int));
        assert(views(pieces@)[k as int] == pieces@[k as int]@);
        if pieces[k].len() > 0 {
            let ghost before = r@;
            let piece = copy_range(&pieces[k], 0, pieces[k].len());
            assert(piece@ =~= pieces@[k as int]@);
            r.push(piece);
            assert(views(r@) =~= views(before).push(piece@));
        }
        k += 1;
    }
    assert(views(pieces@).subrange(0, k as int) =~= views(pieces@));
    r
}

/// The characters before the first whitespace character.
pub open spec fn first_word(s: Seq<char>) -> Seq<char>
    decreases s.len(),
{
    if s.len() == 0 || is_ws(s[0]) {
        Seq::empty()
    } else {
        seq![s[0]] + first_word(s.drop_first())
    }
}

pub fn first_word_exec(v: &[char]) -> (r: Vec<char>)
    ensures
        r@ == first_word(v@),
{
    let mut k: usize = 0;
    while k < v.len() && !is_whitespace(v[k])
        invariant
            k <= v@.len(),
            forall|j: int| 0 <= j < k ==> !is_ws(v@[j]),
        decreases v@.len() - k,
    {
        k += 1;
    }
    proof {
        lemma_first_word_prefix(v@, k as int);
    }
    copy_range(v, 0, k)
}

pub proof fn lemma_first_word_prefix(s: Seq<char>, k: int)
    requires
        0 <= k <= s.len(),
        forall|j: int| 0 <= j < k ==> !is_ws(s[j]),
        k == s.len() || is_ws(s[k]),
    ensures
        first_word(s) == s.subrange(0, k),
    decreases k,
{
    if k == 0 {
        assert(s.subrange(0, 0) =~= Seq::<char>::empty());
    } else {
        lemma_first_word_prefix(s.drop_first(), k - 1);
        assert(s.subrange(0, k) =~= seq![s[0]] + s.drop_first().subrange(0, k - 1));
    }
}


// ------------------------------------------------------------------
// Facts about splitting joined text and about decimals
// ------------------------------------------------------------------

pub open spec fn free_of(s: Seq<char>, c: char) -> bool {
    forall|i: int| 0 <= i < s.len() ==> s[i] != c
}

pub proof fn lemma_split_append_free(s: Seq<char>, t: Seq<char>, sep: char)
    requires
        free_of(t, sep),
    ensures
        split(s + t, sep) == split(s, sep).update(
            split(s, sep).len() - 1,
            split(s, sep).last() + t,
        ),
    decreases t.len(),
{
    lemma_split_nonempty(s, sep);
    if t.len() == 0 {
        assert(s + t =~= s);
        assert(split(s, sep).last() + t =~= split(s, sep).last());
        assert(split(s, sep).update(split(s, sep).len() - 1, split(s, sep).last() + t) =~= split(
            s,
            sep,
        ));
    } else {
        let t2 = t.drop_last();
        let c = t.last();
        assert(free_of(t2, sep));
        lemma_split_append_free(s, t2, sep);
        assert((s + t).drop_last() =~= s + t2);
        assert((s + t).last() == c);
        lemma_split_nonempty(s + t2, sep);
        let prev = split(s + t2, sep);
        assert(prev.len() == split(s, sep).len());
        assert(prev.last() == split(s, sep).last() + t2);
        assert(split(s + t, sep) == prev.update(prev.len() - 1, prev.last().push(c)));
        assert(split(s, sep).last() + t2 + seq![c] =~= split(s, sep).last() + t);
        assert(prev.last().push(c) =~= split(s, sep).last() + t);
        assert(prev.update(prev.len() - 1, prev.last().push(c)) =~= split(s, sep).update(
            split(s, sep).len() - 1,
            split(s, sep).last() + t,
        ));
    }
}

/// Splitting `x`, a separator, then separator-free `y`, adds `y` as a piece.
pub proof fn lemma_split_join(x: Seq<char>, y: Seq<char>, sep: char)
    requires
        free_of(y, sep),
    ensures
        split(x + seq![sep] + y, sep) == split(x, sep).push(y),
{
    let xs = x + seq![sep];
    assert(xs.drop_last() =~= x);
    lemma_split_append_free(xs, y, sep);
    lemma_split_nonempty(x, sep);
    assert(split(xs, sep) == split(x, sep).push(Seq::<char>::empty()));
    assert(Seq::<char>::empty() + y =~= y);
    assert(split(xs, sep).update(split(xs, sep).len() - 1, split(xs, sep).last() + y) =~= split(
        x,
        sep,
    ).push(y));
}

pub proof fn lemma_split_free(y: Seq<char>, sep: char)
    requires
        free_of(y, sep),
    ensures
        split(y, sep) == seq![y],
{
    lemma_split_append_free(Seq::<char>::empty(), y, sep);
    assert(Seq::<char>::empty() + y =~= y);
    assert(Seq::<char>::empty() + y =~= y);
    assert(split(Seq::<char>::empty(), sep).update(0, Seq::<char>::empty() + y) =~= seq![y]);
}

pub proof fn lemma_digit_char(d: nat)
    requires
        d < 10,
    ensures
        is_digit(digit_char(d)),
        digit_val(digit_char(d)) == d,
{
    let c = digit_char(d);
    assert((((d + 48) as u8) as char) as int == d + 48);
}

pub proof fn lemma_decimal(n: nat)
    ensures
        decimal(n).len() > 0,
        all_digits(decimal(n)),
        digits_value(decimal(n)) == n,
        decimal(n)[0] != '+',
    decreases n,
{
    lemma_digit_char(n % 10);
    if n < 10 {
        assert(decimal(n).drop_last() =~= Seq::<char>::empty());
        assert(digits_value(Seq::<char>::empty()) == 0);
        assert(n % 10 == n);
        assert(decimal(n).last() == digit_char(n));
        assert(digits_value(decimal(n)) == 10 * digits_value(decimal(n).drop_last()) + digit_val(
            digit_char(n),
        ));
    }
    if n >= 10 {
        lemma_decimal(n / 10);
        let d = decimal(n);
        assert(d.drop_last() =~= decimal(n / 10));
        assert(d.last() == digit_char(n % 10));
        assert(digits_value(d) == 10 * digits_value(decimal(n / 10)) + digit_val(digit_char(n % 10)));
        assert(n == 10 * (n / 10) + n % 10);
        assert(forall|i: int| 0 <= i < d.len() - 1 ==> d[i] == decimal(n / 10)[i]);
    }
}

pub proof fn lemma_parse_decimal(n: nat, max: nat)
    requires
        n <= max,
    ensures
        parse_unsigned(decimal(n), max) == Some(n),
{
    lemma_decimal(n);
}

pub proof fn lemma_decimal_free(n: nat, c: char)
    requires
        !is_digit(c),
    ensures
        free_of(decimal(n), c),
{
    lemma_decimal(n);
}

// ------------------------------------------------------------------
// Lexicographic order (code point order, which is UTF-8 byte order)
// ------------------------------------------------------------------

/// `a` sorts strictly before `b` as `String`'s `Ord` compares.
pub open spec fn lex_lt(a: Seq<char>, b: Seq<char>) -> bool
    decreases a.len(),
{
    if a.len() == 0 {
        b.len() > 0
    } else if b.len() == 0 {
        false
    } else if a[0] != b[0] {
        a[0] < b[0]
    } else {
        lex_lt(a.drop_first(), b.drop_first())
    }
}

pub proof fn lemma_lex_irreflexive(a: Seq<char>)
    ensures
        !lex_lt(a, a),
    decreases a.len(),
{
    if a.len() > 0 {
        lemma_lex_irreflexive(a.drop_first());
    }
}

pub proof fn lemma_lex_total(a: Seq<char>, b: Seq<char>)
    ensures
        a != b ==> lex_lt(a, b) || lex_lt(b, a),
        !(lex_lt(a, b) && lex_lt(b, a)),
    decreases a.len(),
{
    if a.len() > 0 && b.len() > 0 && a[0] == b[0] {
        lemma_lex_total(a.drop_first(), b.drop_first());
        if a != b {
            assert(a =~= seq![a[0]] + a.drop_first());
            assert(b =~= seq![b[0]] + b.drop_first());
        }
    } else if a.len() == 0 && b.len() == 0 {
        assert(a =~= b);
    }
}

pub proof fn lemma_lex_transitive(a: Seq<char>, b: Seq<char>, c: Seq<char>)
    requires
        lex_lt(a, b),
        lex_lt(b, c),
    ensures
        lex_lt(a, c),
    decreases a.len(),
{
    if a.len() > 0 && b.len() > 0 && c.len() > 0 && a[0] == b[0] && b[0] == c[0] {
        lemma_lex_transitive(a.drop_first(), b.drop_first(), c.drop_first());
    }
}

pub fn lex_less(a: &[char], b: &[char]) -> (r: bool)
    ensures
        r == lex_lt(a@, b@),
{
    let mut i: usize = 0;
    assert(a@.subrange(0, a@.len() as int) =~= a@);
    assert(b@.subrange(0, b@.len() as int) =~= b@);
    while i < a.len() && i < b.len() && a[i] == b[i]
        invariant
            i <= a@.len(),
            i <= b@.len(),
            lex_lt(a@, b@) == lex_lt(a@.subrange(i as int, a@.len() as int), b@.subrange(
                i as int,
                b@.len() as int,
            )),
        decreases a@.len() - i,
    {
        assert(a@.subrange(i as int, a@.len() as int).drop_first() =~= a@.subrange(
            i + 1,
            a@.len() as int,
        ));
        assert(b@.subrange(i as int, b@.len() as int).drop_first() =~= b@.subrange(
            i + 1,
            b@.len() as int,
        ));
        i += 1;
    }
    let ghost sa = a@.subrange(i as int, a@.len() as int);
    let ghost sb = b@.subrange(i as int, b@.len() as int);
    if i == a.len() {
        i < b.len()
    } else if i == b.len() {
        false
    } else {
        assert(sa[0] == a@[i as int] && sb[0] == b@[i as int]);
        a[i] < b[i]
    }
}

/// Strictly increasing in `lex_lt`: sorted, without repeats.
pub open spec fn sorted_strict(s: Seq<Seq<char>>) -> bool {
    forall|i: int, j: int| 0 <= i < j < s.len() ==> lex_lt(s[i], s[j])
}

/// Adds `x` to a sorted list of distinct strings, keeping it so (what
/// inserting into a `BTreeSet<String>` does).
pub fn insert_sorted(v: &mut Vec<String>, x: &[char])
    requires
        sorted_strict(strs(old(v)@)),
    ensures
        sorted_strict(strs(final(v)@)),
        strs(final(v)@).to_set() == strs(old(v)@).to_set().insert(x@),
{
    let ghost s = strs(v@);
    let mut p: usize = 0;
    while p < v.len() && lex_less(&chars_of(v[p].as_str()), x)
        invariant
            s == strs(v@),
            p <= v@.len(),
            forall|i: int| 0 <= i < p ==> lex_lt(#[trigger] s[i], x@),
        decreases v@.len() - p,
    {
        p += 1;
    }
    if p < v.len() && chars_eq(&chars_of(v[p].as_str()), x) {
        assert(s.to_set() =~= s.to_set().insert(x@)) by {
            assert(s.contains(s[p as int]));
        }
        return;
    }
    proof {
        if p < s.len() {
            lemma_lex_total(s[p as int], x@);
        }
    }
    v.insert(p, string_of(x));
    let ghost t = strs(v@);
    assert(t =~= s.insert(p as int, x@));
    assert forall|i: int, j: int| 0 <= i < j < t.len() implies lex_lt(t[i], t[j]) by {
        if j < p {
            assert(lex_lt(s[i], s[j]));
        } else if j == p {
        } else if i < p {
            assert(lex_lt(s[i], x@));
            if j - 1 > p {
                assert(lex_lt(s[p as int], s[j - 1]));
                lemma_lex_transitive(x@, s[p as int], s[j - 1]);
            }
            lemma_lex_transitive(s[i], x@, s[j - 1]);
        } else if i == p {
            if j - 1 > p {
                assert(lex_lt(s[p as int], s[j - 1]));
                lemma_lex_transitive(x@, s[p as int], s[j - 1]);
            }
        } else {
            assert(lex_lt(s[i - 1], s[j - 1]));
        }
    }
    assert(t.to_set() =~= s.to_set().insert(x@)) by {
        assert forall|y: Seq<char>| t.to_set().contains(y) implies s.to_set().insert(x@).contains(y) by {
            let k = choose|k: int| 0 <= k < t.len() && t[k] == y;
            if k < p {
                assert(s.contains(s[k]));
            } else if k > p {
                assert(s.contains(s[k - 1]));
            }
        }
        assert forall|y: Seq<char>| s.to_set().insert(x@).contains(y) implies t.to_set().contains(y) by {
            if y == x@ {
                assert(t[p as int] == y);
            } else {
                let k = choose|k: int| 0 <= k < s.len() && s[k] == y;
                if k < p {
                    assert(t[k] == y);
                } else {
                    assert(t[k + 1] == y);
                }
            }
        }
    }
}

// ------------------------------------------------------------------
// Signed decimal integers
// ------------------------------------------------------------------

/// `str::parse::<i64>`: an optional sign, then one or more ASCII digits,
/// within `i64`'s range.
pub open spec fn parse_i64_spec(s: Seq<char>) -> Option<int> {
    if s.len() > 0 && s[0] == '-' {
        let d = s.drop_first();
        if d.len() > 0 && all_digits(d) && digits_value(d) <= 0x8000_0000_0000_0000 {
            Some(-(digits_value(d) as int))
        } else {
            None
        }
    } else {
        match parse_unsigned(s, 0x7fff_ffff_ffff_ffff) {
            Some(n) => Some(n as int),
            None => None,
        }
    }
}

pub fn parse_i64(v: &[char]) -> (r: Option<i64>)
    ensures
        match r {
            Some(n) => parse_i64_spec(v@) == Some(n as int),
            None => parse_i64_spec(v@) is None,
        },
{
    if v.len() > 0 && v[0] == '-' {
        let d = copy_range(v, 1, v.len());
        assert(d@ =~= v@.drop_first());
        if d.len() > 0 && d[0] == '+' {
            assert(!is_digit(d@[0]));
            return None;
        }
        assert(unsigned_digits(d@) == d@);
        match parse_uint(&d, 0x8000_0000_0000_0000) {
            Some(n) => {
                if n == 0x8000_0000_0000_0000 {
                    Some(i64::MIN)
                } else {
                    Some(-(n as i64))
                }
            },
            None => None,
        }
    } else {
        match parse_uint(v, 0x7fff_ffff_ffff_ffff) {
            Some(n) => Some(n as i64),
            None => None,
        }
    }
}

} // verus!
