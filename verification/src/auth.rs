//! Authentication cookies, password hashes, session tokens and nonces,
//! following WordPress's pluggable auth functions.

use vstd::prelude::*;
use crate::crypto::{
    base64_std_of, base64_standard, base64_url_no_pad, base64_url_of, bcrypt_verifies,
    bcrypt_verify, form_pairs_of, form_urlencoded_pairs, hex_lower, hmac_sha256, hmac_sha256_of,
    hmac_sha384, hmac_sha384_of, md5_digest, md5_of, sha256_digest, sha256_of, to_hex_lower,
    url_safe_char,
};
use crate::text::{
    append_chars, append_str, chars_eq, chars_of, copy_range, copy_string, decimal, find_char,
    first_index_of, free_of, lemma_decimal, lemma_decimal_free, lemma_parse_decimal,
    lemma_split_free, lemma_split_join, keyed_by_last, last_wins, pair_views, parse_u64, parse_unsigned, split, split_char,
    starts_with, starts_with_exec, str_eq, string_of, trim, trim_chars, u64_to_chars, views,
    KeyedList,
};

verus! {

// ------------------------------------------------------------------
// Cookie headers
// ------------------------------------------------------------------

/// A cookie value decoded as `application/x-www-form-urlencoded` (so `%7C`
/// becomes `|` and `+` a space), read through the pair named `value`.
pub open spec fn decode_cookie(value: Seq<char>) -> Seq<char> {
    let pairs = form_pairs_of(vstd::utf8::encode_utf8("value="@ + value));
    match first_named(pairs, "value"@) {
        Some(v) => v,
        None => value,
    }
}

pub open spec fn first_named(pairs: Seq<(Seq<char>, Seq<char>)>, key: Seq<char>) -> Option<Seq<char>>
    decreases pairs.len(),
{
    if pairs.len() == 0 {
        None
    } else if pairs[0].0 == key {
        Some(pairs[0].1)
    } else {
        first_named(pairs.drop_first(), key)
    }
}

/// One `;`-separated piece of a cookie header: trimmed name and decoded
/// trimmed value, `None` for a blank name.
pub open spec fn cookie_entry(piece: Seq<char>) -> Option<(Seq<char>, Seq<char>)> {
    let p = trim(piece);
    let (k, v) = match first_index_of(p, '=') {
        Some(i) => (trim(p.subrange(0, i)), trim(p.subrange(i + 1, p.len() as int))),
        None => (trim(p), Seq::<char>::empty()),
    };
    if k.len() == 0 {
        None
    } else {
        Some((k, decode_cookie(v)))
    }
}

pub open spec fn cookie_entries(pieces: Seq<Seq<char>>) -> Seq<(Seq<char>, Seq<char>)>
    decreases pieces.len(),
{
    if pieces.len() == 0 {
        Seq::empty()
    } else {
        match cookie_entry(pieces.last()) {
            Some(kv) => cookie_entries(pieces.drop_last()).push(kv),
            None => cookie_entries(pieces.drop_last()),
        }
    }
}

/// The cookies of a `Cookie:` header, in order.
pub open spec fn cookie_pairs(header: Seq<char>) -> Seq<(Seq<char>, Seq<char>)> {
    cookie_entries(split(header, ';'))
}

fn first_named_exec(pairs: &Vec<(String, String)>, key: &str) -> (r: Option<String>)
    ensures
        match r {
            Some(v) => first_named(pair_views(pairs@), key@) == Some(v@),
            None => first_named(pair_views(pairs@), key@) is None,
        },
{
    let k = chars_of(key);
    let mut i: usize = 0;
    assert(pair_views(pairs@).subrange(0, pairs@.len() as int) =~= pair_views(pairs@));
    while i < pairs.len()
        invariant
            i <= pairs@.len(),
            k@ == key@,
            first_named(pair_views(pairs@), key@) == first_named(
                pair_views(pairs@).subrange(i as int, pairs@.len() as int),
                key@,
            ),
        decreases pairs@.len() - i,
    {
        let ghost rest = pair_views(pairs@).subrange(i as int, pairs@.len() as int);
        assert(rest[0] == (pairs@[i as int].0@, pairs@[i as int].1@));
        let name = chars_of(pairs[i].0.as_str());
        if chars_eq(&name, &k) {
            return Some(copy_string(&pairs[i].1));
        }
        assert(rest.drop_first() =~= pair_views(pairs@).subrange(i + 1, pairs@.len() as int));
        i += 1;
    }
    None
}

fn decode_cookie_value(value: &[char]) -> (r: String)
    ensures
        r@ == decode_cookie(value@),
{
    let mut wrapped = chars_of("value=");
    append_chars(&mut wrapped, value);
    let w = string_of(&wrapped);
    let pairs = form_urlencoded_pairs(w.as_str().as_bytes());
    match first_named_exec(&pairs, "value") {
        Some(v) => v,
        None => string_of(value),
    }
}

fn parse_cookie_entry(piece: &[char]) -> (r: Option<(String, String)>)
    ensures
        match r {
            Some(kv) => cookie_entry(piece@) == Some((kv.0@, kv.1@)),
            None => cookie_entry(piece@) is None,
        },
{
    let p = trim_chars(piece);
    let (k, v) = match find_char(&p, '=') {
        Some(i) => {
            let plen = p.len();
            assert(i < plen);
            let a = copy_range(&p, 0, i);
            let b = copy_range(&p, i + 1, plen);
            (trim_chars(&a), trim_chars(&b))
        },
        None => {
            let e: Vec<char> = Vec::new();
            assert(e@ =~= Seq::<char>::empty());
            (trim_chars(&p), e)
        },
    };
    if k.len() == 0 {
        None
    } else {
        Some((string_of(&k), decode_cookie_value(&v)))
    }
}

/// The cookies of a header, in order, names possibly repeated.
pub fn parse_cookie_pairs(cookie_header: &str) -> (r: Vec<(String, String)>)
    ensures
        pair_views(r@) == cookie_pairs(cookie_header@),
{
    let h = chars_of(cookie_header);
    let pieces = split_char(&h, ';');
    let mut r: Vec<(String, String)> = Vec::new();
    let mut k: usize = 0;
    while k < pieces.len()
        invariant
            k <= pieces@.len(),
            views(pieces@) == split(cookie_header@, ';'),
            pair_views(r@) == cookie_entries(views(pieces@).subrange(0, k as int)),
        decreases pieces@.len() - k,
    {
        assert(views(pieces@).subrange(0, k + 1).drop_last() =~= views(pieces@).subrange(0, k as int));
        assert(views(pieces@)[k as int] == pieces@[k as int]@);
        match parse_cookie_entry(&pieces[k]) {
            Some(kv) => {
                let ghost before = r@;
                r.push(kv);
                assert(pair_views(r@) =~= pair_views(before).push((kv.0@, kv.1@)));
            },
            None => {},
        }
        k += 1;
    }
    assert(views(pieces@).subrange(0, k as int) =~= views(pieces@));
    r
}

/// Parses a `Cookie:` header into a map: each name once, with the value of
/// its last occurrence.
pub fn parse_cookie_header(cookie_header: &str) -> (r: KeyedList<String>)
    ensures
        keyed_by_last(r.entries@, cookie_pairs(cookie_header@)),
{
    let pairs = parse_cookie_pairs(cookie_header);
    last_wins(&pairs)
}

// ------------------------------------------------------------------
// Cookie names
// ------------------------------------------------------------------

#[derive(Debug, Clone)]
pub struct CookieConstants {
    pub cookiehash: String,
    pub user_cookie: String,
    pub pass_cookie: String,
    pub auth_cookie: String,
    pub secure_auth_cookie: String,
    pub logged_in_cookie: String,
    pub test_cookie: String,
    pub recovery_mode_cookie: String,
}

/// `COOKIEHASH`: the lowercase hex MD5 of the trimmed site URL, or empty
/// when there is no (non-blank) site URL.
pub open spec fn cookie_hash(site_url: Option<Seq<char>>) -> Seq<char> {
    match site_url {
        Some(u) => if trim(u).len() > 0 {
            hex_lower(md5_of(vstd::utf8::encode_utf8(trim(u))))
        } else {
            Seq::empty()
        },
        None => Seq::empty(),
    }
}

fn prefixed(prefix: &str, hash: &[char]) -> (r: String)
    ensures
        r@ == prefix@ + hash@,
{
    let mut v = chars_of(prefix);
    append_chars(&mut v, hash);
    string_of(&v)
}

pub fn cookie_constants(site_url: Option<&str>) -> (r: CookieConstants)
    ensures
        ({
            let h = cookie_hash(
                match site_url {
                    Some(u) => Some(u@),
                    None => None,
                },
            );
            &&& r.cookiehash@ == h
            &&& r.user_cookie@ == "wordpressuser_"@ + h
            &&& r.pass_cookie@ == "wordpresspass_"@ + h
            &&& r.auth_cookie@ == "wordpress_"@ + h
            &&& r.secure_auth_cookie@ == "wordpress_sec_"@ + h
            &&& r.logged_in_cookie@ == "wordpress_logged_in_"@ + h
            &&& r.test_cookie@ == "wordpress_test_cookie"@
            &&& r.recovery_mode_cookie@ == "wordpress_rec_"@ + h
        }),
{
    let hash: Vec<char> = match site_url {
        Some(u) => {
            let t = trim_chars(&chars_of(u));
            if t.len() > 0 {
                let ts = string_of(&t);
                let digest = md5_digest(ts.as_str().as_bytes());
                chars_of(to_hex_lower(&digest).as_str())
            } else {
                let e: Vec<char> = Vec::new();
                assert(e@ =~= Seq::<char>::empty());
                e
            }
        },
        None => {
            let e: Vec<char> = Vec::new();
            assert(e@ =~= Seq::<char>::empty());
            e
        },
    };
    CookieConstants {
        cookiehash: string_of(&hash),
        user_cookie: prefixed("wordpressuser_", &hash),
        pass_cookie: prefixed("wordpresspass_", &hash),
        auth_cookie: prefixed("wordpress_", &hash),
        secure_auth_cookie: prefixed("wordpress_sec_", &hash),
        logged_in_cookie: prefixed("wordpress_logged_in_", &hash),
        test_cookie: string_of(&chars_of("wordpress_test_cookie")),
        recovery_mode_cookie: prefixed("wordpress_rec_", &hash),
    }
}

#[derive(Debug, Clone, Copy, PartialEq, Eq, Structural)]
pub enum AuthScheme {
    Auth,
    SecureAuth,
    LoggedIn,
}

pub open spec fn scheme_prefix(s: AuthScheme) -> Seq<char> {
    match s {
        AuthScheme::Auth => "wordpress_"@,
        AuthScheme::SecureAuth => "wordpress_sec_"@,
        AuthScheme::LoggedIn => "wordpress_logged_in_"@,
    }
}

pub open spec fn scheme_name(s: AuthScheme) -> Seq<char> {
    match s {
        AuthScheme::Auth => "auth"@,
        AuthScheme::SecureAuth => "secure_auth"@,
        AuthScheme::LoggedIn => "logged_in"@,
    }
}

impl AuthScheme {
    pub fn cookie_prefix(&self) -> (r: &'static str)
        ensures
            r@ == scheme_prefix(*self),
    {
        match self {
            AuthScheme::Auth => "wordpress_",
            AuthScheme::SecureAuth => "wordpress_sec_",
            AuthScheme::LoggedIn => "wordpress_logged_in_",
        }
    }

    pub fn as_str(&self) -> (r: &'static str)
        ensures
            r@ == scheme_name(*self),
    {
        match self {
            AuthScheme::Auth => "auth",
            AuthScheme::SecureAuth => "secure_auth",
            AuthScheme::LoggedIn => "logged_in",
        }
    }
}

// ------------------------------------------------------------------
// Signed auth cookies
// ------------------------------------------------------------------

#[derive(Debug, Clone)]
pub struct AuthSecrets {
    pub auth_key: String,
    pub secure_auth_key: String,
    pub logged_in_key: String,
    pub nonce_key: String,
    pub nonce_salt: String,
}

impl Default for AuthSecrets {
    fn default() -> (r: Self)
        ensures
            r.auth_key@ == "dev-auth-key"@,
            r.secure_auth_key@ == "dev-secure-auth-key"@,
            r.logged_in_key@ == "dev-logged-in-key"@,
            r.nonce_key@ == "dev-nonce-key"@,
            r.nonce_salt@ == "dev-nonce-salt"@,
    {
        AuthSecrets {
            auth_key: string_of(&chars_of("dev-auth-key")),
            secure_auth_key: string_of(&chars_of("dev-secure-auth-key")),
            logged_in_key: string_of(&chars_of("dev-logged-in-key")),
            nonce_key: string_of(&chars_of("dev-nonce-key")),
            nonce_salt: string_of(&chars_of("dev-nonce-salt")),
        }
    }
}

#[derive(Debug, Clone)]
pub struct AuthenticatedUser {
    pub user_id: u64,
    pub username: String,
    pub token: String,
    pub expiration: u64,
    pub scheme: AuthScheme,
}

#[derive(Debug, Clone)]
pub enum AuthError {
    InvalidCookieFormat,
    InvalidSignature,
    ExpiredCookie,
    InvalidNumber(String),
}

/// URL-safe unpadded base64 of the HMAC-SHA256 of `payload` under `key`.
pub open spec fn signature(payload: Seq<char>, key: Seq<char>) -> Seq<char> {
    base64_url_of(
        hmac_sha256_of(vstd::utf8::encode_utf8(key), vstd::utf8::encode_utf8(payload)),
    )
}

pub open spec fn scheme_key(scheme: AuthScheme, secrets: AuthSecrets) -> Seq<char> {
    match scheme {
        AuthScheme::Auth => secrets.auth_key@,
        AuthScheme::SecureAuth => secrets.secure_auth_key@,
        AuthScheme::LoggedIn => secrets.logged_in_key@,
    }
}

pub open spec fn bar() -> Seq<char> {
    seq!['|']
}

/// `{user_id}|{username}|{expiration}|{token}|{scheme}`: what is signed.
pub open spec fn cookie_payload(
    user_id: nat,
    username: Seq<char>,
    expiration: nat,
    token: Seq<char>,
    scheme: AuthScheme,
) -> Seq<char> {
    decimal(user_id) + bar() + username + bar() + decimal(expiration) + bar() + token + bar()
        + scheme_name(scheme)
}

/// `{user_id}|{username}|{expiration}|{token}|{signature}`.
pub open spec fn signed_cookie(
    user_id: nat,
    username: Seq<char>,
    expiration: nat,
    token: Seq<char>,
    scheme: AuthScheme,
    secrets: AuthSecrets,
) -> Seq<char> {
    decimal(user_id) + bar() + username + bar() + decimal(expiration) + bar() + token + bar()
        + signature(
        cookie_payload(user_id, username, expiration, token, scheme),
        scheme_key(scheme, secrets),
    )
}

/// The outcome of checking a cookie value.
pub enum CookieCheck {
    Valid { user_id: u64, username: Seq<char>, expiration: u64, token: Seq<char> },
    BadFormat,
    BadNumber(Seq<char>),
    Expired,
    BadSignature,
}

/// Five `|`-separated fields; user id and expiration parse as `u64`; not
/// expired (`now <= expiration`); the last field equals the signature of
/// the re-rendered payload under the scheme's key.
pub open spec fn check_cookie(cookie: Seq<char>, scheme: AuthScheme, now: u64, secrets: AuthSecrets) -> CookieCheck {
    let parts = split(cookie, '|');
    if parts.len() != 5 {
        CookieCheck::BadFormat
    } else {
        match parse_unsigned(parts[0], u64::MAX as nat) {
            None => CookieCheck::BadNumber(parts[0]),
            Some(uid) => match parse_unsigned(parts[2], u64::MAX as nat) {
                None => CookieCheck::BadNumber(parts[2]),
                Some(exp) => if now > exp {
                    CookieCheck::Expired
                } else if signature(
                    cookie_payload(uid, parts[1], exp, parts[3], scheme),
                    scheme_key(scheme, secrets),
                ) != parts[4] {
                    CookieCheck::BadSignature
                } else {
                    CookieCheck::Valid {
                        user_id: uid as u64,
                        username: parts[1],
                        expiration: exp as u64,
                        token: parts[3],
                    }
                },
            },
        }
    }
}

pub(crate) fn sign_raw(payload: &[char], key: &str) -> (r: String)
    ensures
        r@ == signature(payload@, key@),
        forall|i: int| 0 <= i < r@.len() ==> url_safe_char(#[trigger] r@[i]),
        r@.len() == 43,
{
    let p = string_of(payload);
    let tag = hmac_sha256(key.as_bytes(), p.as_str().as_bytes());
    base64_url_no_pad(&tag)
}

pub fn sign_payload(payload: &[char], scheme: AuthScheme, secrets: &AuthSecrets) -> (r: String)
    ensures
        r@ == signature(payload@, scheme_key(scheme, *secrets)),
        forall|i: int| 0 <= i < r@.len() ==> url_safe_char(#[trigger] r@[i]),
        r@.len() == 43,
{
    match scheme {
        AuthScheme::Auth => sign_raw(payload, secrets.auth_key.as_str()),
        AuthScheme::SecureAuth => sign_raw(payload, secrets.secure_auth_key.as_str()),
        AuthScheme::LoggedIn => sign_raw(payload, secrets.logged_in_key.as_str()),
    }
}

fn payload_exec(user_id: u64, username: &[char], expiration: u64, token: &[char], scheme: AuthScheme) -> (r: Vec<char>)
    ensures
        r@ == cookie_payload(user_id as nat, username@, expiration as nat, token@, scheme),
{
    let mut v = u64_to_chars(user_id);
    v.push('|');
    append_chars(&mut v, username);
    v.push('|');
    let e = u64_to_chars(expiration);
    append_chars(&mut v, &e);
    v.push('|');
    append_chars(&mut v, token);
    v.push('|');
    append_str(&mut v, scheme.as_str());
    assert(v@ =~= cookie_payload(user_id as nat, username@, expiration as nat, token@, scheme));
    v
}

/// The fields of a signed cookie come back out of `check_cookie`.
proof fn lemma_signed_cookie_checks(
    user_id: u64,
    username: Seq<char>,
    expiration: u64,
    token: Seq<char>,
    scheme: AuthScheme,
    secrets: AuthSecrets,
    now: u64,
)
    requires
        free_of(username, '|'),
        free_of(token, '|'),
        free_of(
            signature(
                cookie_payload(user_id as nat, username, expiration as nat, token, scheme),
                scheme_key(scheme, secrets),
            ),
            '|',
        ),
        now <= expiration,
    ensures
        check_cookie(
            signed_cookie(user_id as nat, username, expiration as nat, token, scheme, secrets),
            scheme,
            now,
            secrets,
        ) == (CookieCheck::Valid { user_id, username, expiration, token }),
{
    let d1 = decimal(user_id as nat);
    let d2 = decimal(expiration as nat);
    let sig = signature(
        cookie_payload(user_id as nat, username, expiration as nat, token, scheme),
        scheme_key(scheme, secrets),
    );
    lemma_decimal_free(user_id as nat, '|');
    lemma_decimal_free(expiration as nat, '|');
    lemma_split_free(d1, '|');
    lemma_split_join(d1, username, '|');
    lemma_split_join(d1 + bar() + username, d2, '|');
    lemma_split_join(d1 + bar() + username + bar() + d2, token, '|');
    lemma_split_join(d1 + bar() + username + bar() + d2 + bar() + token, sig, '|');
    let parts = split(
        signed_cookie(user_id as nat, username, expiration as nat, token, scheme, secrets),
        '|',
    );
    assert(parts =~= seq![d1, username, d2, token, sig]);
    lemma_parse_decimal(user_id as nat, u64::MAX as nat);
    lemma_parse_decimal(expiration as nat, u64::MAX as nat);
}

/// A signed cookie is refused under any other scheme, provided that the
/// two signatures compared differ when their payloads do: the payload
/// names the scheme, so they do.
pub proof fn lemma_cookie_rejected_under_other_scheme(
    user_id: u64,
    username: Seq<char>,
    expiration: u64,
    token: Seq<char>,
    scheme: AuthScheme,
    other: AuthScheme,
    secrets: AuthSecrets,
    now: u64,
)
    requires
        free_of(username, '|'),
        free_of(token, '|'),
        now <= expiration,
        other != scheme,
        forall|i: int|
            0 <= i < signature(
                cookie_payload(user_id as nat, username, expiration as nat, token, scheme),
                scheme_key(scheme, secrets),
            ).len() ==> url_safe_char(
                #[trigger] signature(
                    cookie_payload(user_id as nat, username, expiration as nat, token, scheme),
                    scheme_key(scheme, secrets),
                )[i],
            ),
        signature(
            cookie_payload(user_id as nat, username, expiration as nat, token, other),
            scheme_key(other, secrets),
        ) == signature(
            cookie_payload(user_id as nat, username, expiration as nat, token, scheme),
            scheme_key(scheme, secrets),
        ) ==> cookie_payload(user_id as nat, username, expiration as nat, token, other)
            == cookie_payload(user_id as nat, username, expiration as nat, token, scheme),
    ensures
        check_cookie(
            signed_cookie(user_id as nat, username, expiration as nat, token, scheme, secrets),
            other,
            now,
            secrets,
        ) == CookieCheck::BadSignature,
{
    let d1 = decimal(user_id as nat);
    let d2 = decimal(expiration as nat);
    let sig = signature(
        cookie_payload(user_id as nat, username, expiration as nat, token, scheme),
        scheme_key(scheme, secrets),
    );
    assert(free_of(sig, '|')) by {
        assert forall|i: int| 0 <= i < sig.len() implies sig[i] != '|' by {
            assert(url_safe_char(sig[i]));
        }
    }
    lemma_decimal_free(user_id as nat, '|');
    lemma_decimal_free(expiration as nat, '|');
    lemma_split_free(d1, '|');
    lemma_split_join(d1, username, '|');
    lemma_split_join(d1 + bar() + username, d2, '|');
    lemma_split_join(d1 + bar() + username + bar() + d2, token, '|');
    lemma_split_join(d1 + bar() + username + bar() + d2 + bar() + token, sig, '|');
    let parts = split(
        signed_cookie(user_id as nat, username, expiration as nat, token, scheme, secrets),
        '|',
    );
    assert(parts =~= seq![d1, username, d2, token, sig]);
    lemma_parse_decimal(user_id as nat, u64::MAX as nat);
    lemma_parse_decimal(expiration as nat, u64::MAX as nat);
    let mine = cookie_payload(user_id as nat, username, expiration as nat, token, scheme);
    let theirs = cookie_payload(user_id as nat, username, expiration as nat, token, other);
    reveal_strlit("auth");
    reveal_strlit("secure_auth");
    reveal_strlit("logged_in");
    assert(scheme_name(scheme).len() != scheme_name(other).len());
    assert(mine.len() != theirs.len());
    assert(signature(theirs, scheme_key(other, secrets)) != sig);
}

/// Signs `{user_id}|{username}|{expiration}|{token}` for a scheme. When the
/// username and token hold no `|`, the cookie checks as valid for exactly
/// these fields at every time up to its expiration.
pub fn sign_auth_cookie(
    user_id: u64,
    username: &str,
    expiration: u64,
    token: &str,
    scheme: AuthScheme,
    secrets: &AuthSecrets,
) -> (r: String)
    ensures
        r@ == signed_cookie(user_id as nat, username@, expiration as nat, token@, scheme, *secrets),
        ({
            let sig = signature(
                cookie_payload(user_id as nat, username@, expiration as nat, token@, scheme),
                scheme_key(scheme, *secrets),
            );
            sig.len() == 43 && forall|i: int| 0 <= i < sig.len() ==> url_safe_char(#[trigger] sig[i])
        }),
        free_of(username@, '|') && free_of(token@, '|') ==> forall|now: u64|
            now <= expiration ==> check_cookie(r@, scheme, now, *secrets) == (CookieCheck::Valid {
                user_id,
                username: username@,
                expiration,
                token: token@,
            }),
{
    let name = chars_of(username);
    let tok = chars_of(token);
    let payload = payload_exec(user_id, &name, expiration, &tok, scheme);
    let sig = sign_payload(&payload, scheme, secrets);
    let mut v = u64_to_chars(user_id);
    v.push('|');
    append_chars(&mut v, &name);
    v.push('|');
    let e = u64_to_chars(expiration);
    append_chars(&mut v, &e);
    v.push('|');
    append_chars(&mut v, &tok);
    v.push('|');
    append_str(&mut v, sig.as_str());
    assert(v@ =~= signed_cookie(user_id as nat, username@, expiration as nat, token@, scheme, *secrets));
    proof {
        if free_of(username@, '|') && free_of(token@, '|') {
            assert(free_of(sig@, '|'));
            assert forall|now: u64| now <= expiration implies check_cookie(v@, scheme, now, *secrets)
                == (CookieCheck::Valid { user_id, username: username@, expiration, token: token@ }) by {
                lemma_signed_cookie_checks(user_id, username@, expiration, token@, scheme, *secrets, now);
            }
        }
    }
    string_of(&v)
}

pub fn verify_auth_cookie(cookie_value: &str, scheme: AuthScheme, now_timestamp: u64, secrets: &AuthSecrets) -> (r: Result<AuthenticatedUser, AuthError>)
    ensures
        match check_cookie(cookie_value@, scheme, now_timestamp, *secrets) {
            CookieCheck::Valid { user_id, username, expiration, token } => r matches Ok(u) && u.user_id
                == user_id && u.username@ == username && u.expiration == expiration && u.token@
                == token && u.scheme == scheme,
            CookieCheck::BadFormat => r matches Err(AuthError::InvalidCookieFormat),
            CookieCheck::BadNumber(p) => r matches Err(AuthError::InvalidNumber(s)) && s@ == p,
            CookieCheck::Expired => r matches Err(AuthError::ExpiredCookie),
            CookieCheck::BadSignature => r matches Err(AuthError::InvalidSignature),
        },
{
    let c = chars_of(cookie_value);
    let parts = split_char(&c, '|');
    if parts.len() != 5 {
        return Err(AuthError::InvalidCookieFormat);
    }
    let ghost pv = views(parts@);
    assert(pv[0] == parts@[0]@ && pv[1] == parts@[1]@ && pv[2] == parts@[2]@ && pv[3] == parts@[3]@
        && pv[4] == parts@[4]@);
    let user_id = match parse_u64(&parts[0]) {
        Some(n) => n,
        None => {
            return Err(AuthError::InvalidNumber(string_of(&parts[0])));
        },
    };
    let expiration = match parse_u64(&parts[2]) {
        Some(n) => n,
        None => {
            return Err(AuthError::InvalidNumber(string_of(&parts[2])));
        },
    };
    if now_timestamp > expiration {
        return Err(AuthError::ExpiredCookie);
    }
    let payload = payload_exec(user_id, &parts[1], expiration, &parts[3], scheme);
    let expected = sign_payload(&payload, scheme, secrets);
    if !chars_eq(&chars_of(expected.as_str()), &parts[4]) {
        return Err(AuthError::InvalidSignature);
    }
    Ok(
        AuthenticatedUser {
            user_id,
            username: string_of(&parts[1]),
            token: string_of(&parts[3]),
            expiration,
            scheme,
        },
    )
}


/// The first cookie, in header order, whose name has the scheme's prefix
/// and whose value checks as valid for that scheme.
pub open spec fn first_valid(cookies: Seq<(Seq<char>, Seq<char>)>, scheme: AuthScheme, now: u64, secrets: AuthSecrets) -> Option<CookieCheck>
    decreases cookies.len(),
{
    if cookies.len() == 0 {
        None
    } else if starts_with(cookies[0].0, scheme_prefix(scheme)) && check_cookie(
        cookies[0].1,
        scheme,
        now,
        secrets,
    ) is Valid {
        Some(check_cookie(cookies[0].1, scheme, now, secrets))
    } else {
        first_valid(cookies.drop_first(), scheme, now, secrets)
    }
}

/// The current user: logged-in cookies are tried first, then secure-auth,
/// then auth cookies.
pub open spec fn resolve_user(header: Seq<char>, now: u64, secrets: AuthSecrets) -> Option<(AuthScheme, CookieCheck)> {
    let c = cookie_pairs(header);
    match first_valid(c, AuthScheme::LoggedIn, now, secrets) {
        Some(v) => Some((AuthScheme::LoggedIn, v)),
        None => match first_valid(c, AuthScheme::SecureAuth, now, secrets) {
            Some(v) => Some((AuthScheme::SecureAuth, v)),
            None => match first_valid(c, AuthScheme::Auth, now, secrets) {
                Some(v) => Some((AuthScheme::Auth, v)),
                None => None,
            },
        },
    }
}

fn first_valid_exec(cookies: &Vec<(String, String)>, scheme: AuthScheme, now: u64, secrets: &AuthSecrets) -> (r: Option<AuthenticatedUser>)
    ensures
        match first_valid(pair_views(cookies@), scheme, now, *secrets) {
            Some(CookieCheck::Valid { user_id, username, expiration, token }) => r matches Some(u)
                && u.user_id == user_id && u.username@ == username && u.expiration == expiration
                && u.token@ == token && u.scheme == scheme,
            Some(_) => false,
            None => r is None,
        },
{
    let prefix = chars_of(scheme.cookie_prefix());
    let mut i: usize = 0;
    assert(pair_views(cookies@).subrange(0, cookies@.len() as int) =~= pair_views(cookies@));
    while i < cookies.len()
        invariant
            i <= cookies@.len(),
            prefix@ == scheme_prefix(scheme),
            first_valid(pair_views(cookies@), scheme, now, *secrets) == first_valid(
                pair_views(cookies@).subrange(i as int, cookies@.len() as int),
                scheme,
                now,
                *secrets,
            ),
        decreases cookies@.len() - i,
    {
        let ghost rest = pair_views(cookies@).subrange(i as int, cookies@.len() as int);
        assert(rest[0] == (cookies@[i as int].0@, cookies@[i as int].1@));
        let name = chars_of(cookies[i].0.as_str());
        if starts_with_exec(&name, &prefix) {
            match verify_auth_cookie(cookies[i].1.as_str(), scheme, now, secrets) {
                Ok(u) => {
                    return Some(u);
                },
                Err(_) => {},
            }
        }
        assert(rest.drop_first() =~= pair_views(cookies@).subrange(i + 1, cookies@.len() as int));
        i += 1;
    }
    None
}

/// The user that the cookies of a request authenticate, if any.
pub fn resolve_current_user(cookie_header: &str, now_timestamp: u64, secrets: &AuthSecrets) -> (r: Option<AuthenticatedUser>)
    ensures
        match resolve_user(cookie_header@, now_timestamp, *secrets) {
            Some((scheme, CookieCheck::Valid { user_id, username, expiration, token })) => r matches Some(
                u,
            ) && u.user_id == user_id && u.username@ == username && u.expiration == expiration
                && u.token@ == token && u.scheme == scheme,
            Some(_) => false,
            None => r is None,
        },
{
    let cookies = parse_cookie_pairs(cookie_header);
    match first_valid_exec(&cookies, AuthScheme::LoggedIn, now_timestamp, secrets) {
        Some(u) => {
            return Some(u);
        },
        None => {},
    }
    match first_valid_exec(&cookies, AuthScheme::SecureAuth, now_timestamp, secrets) {
        Some(u) => {
            return Some(u);
        },
        None => {},
    }
    first_valid_exec(&cookies, AuthScheme::Auth, now_timestamp, secrets)
}

} // verus!
