//! Password hash checks in the formats WordPress stores: bare MD5 hex,
//! portable phpass (`$P$` / `$H$`), bcrypt (`$2y$`, `$2b$`, `$2a$`) and the
//! `$wp` pre-hashed bcrypt variant.

use vstd::prelude::*;
use vstd::utf8::encode_utf8;
use crate::crypto::{
    base64_std_of, base64_standard, bcrypt_verifies, bcrypt_verify, hex_lower, hmac_sha384,
    hmac_sha384_of, md5_digest, md5_of, to_hex_lower,
};
use crate::text::{
    chars_of, copy_range, eq_ignore_case, eq_ignore_case_exec, is_digit, starts_with,
    starts_with_exec, string_of,
};

verus! {

// ------------------------------------------------------------------
// Hash formats
// ------------------------------------------------------------------

/// `char::is_ascii_hexdigit`.
pub open spec fn is_hex(c: char) -> bool {
    is_digit(c) || ('a' <= c && c <= 'f') || ('A' <= c && c <= 'F')
}

pub open spec fn all_hex(s: Seq<char>) -> bool {
    forall|i: int| 0 <= i < s.len() ==> is_hex(#[trigger] s[i])
}

/// A bare MD5 hex digest: at most 32 bytes, all hex digits.
pub open spec fn legacy_md5_hash(h: Seq<char>) -> bool {
    encode_utf8(h).len() <= 32 && all_hex(h)
}

pub open spec fn phpass_hash(h: Seq<char>) -> bool {
    starts_with(h, "$P$"@) || starts_with(h, "$H$"@)
}

/// PHP writes bcrypt hashes as `$2y$`; the Rust crate reads `$2b$`.
pub open spec fn normalize_bcrypt(h: Seq<char>) -> Seq<char> {
    if starts_with(h, "$2y$"@) {
        "$2b$"@ + h.subrange(4, h.len() as int)
    } else {
        h
    }
}

/// What `verify_password` answers, branch by branch.
pub open spec fn password_matches(pw: Seq<char>, h: Seq<char>) -> bool {
    if legacy_md5_hash(h) {
        eq_ignore_case(hex_lower(md5_of(encode_utf8(pw))), h)
    } else if starts_with(h, "$wp"@) {
        bcrypt_verifies(
            encode_utf8(base64_std_of(hmac_sha384_of(encode_utf8("wp-sha384"@), encode_utf8(pw)))),
            normalize_bcrypt(h.subrange(3, h.len() as int)),
        )
    } else if phpass_hash(h) {
        phpass_matches(encode_utf8(pw), encode_utf8(h))
    } else {
        bcrypt_verifies(encode_utf8(pw), normalize_bcrypt(h))
    }
}

/// The phpass branch reads the first 12 bytes of a 34-byte hash as a
/// string slice, which needs a character boundary there.
pub open spec fn phpass_sliceable(h: Seq<char>) -> bool {
    phpass_hash(h) && encode_utf8(h).len() == 34 ==> vstd::utf8::is_char_boundary(
        encode_utf8(h),
        12,
    )
}

// ------------------------------------------------------------------
// Portable phpass
// ------------------------------------------------------------------

/// The phpass alphabet `./0-9A-Za-z`, by index.
pub open spec fn itoa64(n: nat) -> u8 {
    if n == 0 {
        46
    } else if n == 1 {
        47
    } else if n < 12 {
        (48 + n - 2) as u8
    } else if n < 38 {
        (65 + n - 12) as u8
    } else {
        (97 + n - 38) as u8
    }
}

/// Position of a byte in the phpass alphabet.
pub open spec fn itoa64_index(b: u8) -> Option<nat> {
    if b == 46 {
        Some(0)
    } else if b == 47 {
        Some(1)
    } else if 48 <= b <= 57 {
        Some((b - 46) as nat)
    } else if 65 <= b <= 90 {
        Some((b - 53) as nat)
    } else if 97 <= b <= 122 {
        Some((b - 59) as nat)
    } else {
        None
    }
}

/// The alphabet character of six bits of `v` taken from bit `shift` up.
pub open spec fn sextet(v: u32, shift: u32) -> u8 {
    itoa64(((v >> shift) & 0x3f) as nat)
}

pub open spec fn group_value(g: Seq<u8>) -> u32 {
    if g.len() == 1 {
        g[0] as u32
    } else if g.len() == 2 {
        (g[0] as u32) | ((g[1] as u32) << 8u32)
    } else {
        (g[0] as u32) | ((g[1] as u32) << 8u32) | ((g[2] as u32) << 16u32)
    }
}

/// phpass's base64 variant: each group of three bytes, read little-endian,
/// gives four characters; a final group of one or two bytes gives two or
/// three.
pub open spec fn encode64(input: Seq<u8>) -> Seq<u8>
    decreases input.len(),
{
    if input.len() == 0 {
        Seq::empty()
    } else if input.len() == 1 {
        let v = group_value(input);
        seq![sextet(v, 0), sextet(v, 6)]
    } else if input.len() == 2 {
        let v = group_value(input);
        seq![sextet(v, 0), sextet(v, 6), sextet(v, 12)]
    } else {
        let v = group_value(input.subrange(0, 3));
        seq![sextet(v, 0), sextet(v, 6), sextet(v, 12), sextet(v, 18)] + encode64(
            input.subrange(3, input.len() as int),
        )
    }
}

/// `n` further rounds of `digest = md5(digest ++ password)`.
pub open spec fn md5_rounds(d: Seq<u8>, pw: Seq<u8>, n: nat) -> Seq<u8>
    decreases n,
{
    if n == 0 {
        d
    } else {
        md5_of(md5_rounds(d, pw, (n - 1) as nat) + pw)
    }
}

pub open spec fn star_zero() -> Seq<u8> {
    seq![42u8, 48u8]
}

/// phpass `crypt_private`: `*0` for a malformed setting, else the setting
/// followed by the encoded digest after `2^log2` rounds salted by bytes
/// 4..12.
pub open spec fn crypt_private(pw: Seq<u8>, setting: Seq<u8>) -> Seq<u8> {
    if setting.len() < 12 {
        star_zero()
    } else if !(setting[0] == 36 && (setting[1] == 80 || setting[1] == 72) && setting[2] == 36) {
        star_zero()
    } else {
        match itoa64_index(setting[3]) {
            None => star_zero(),
            Some(log2) => if !(7 <= log2 <= 30) {
                star_zero()
            } else {
                let count = (1u32 << (log2 as u32)) as nat;
                let salt = setting.subrange(4, 12);
                setting + encode64(md5_rounds(md5_of(salt + pw), pw, count))
            },
        }
    }
}

/// A 34-byte phpass hash matches when re-hashing under its own first 12
/// bytes gives it back.
pub open spec fn phpass_matches(pw: Seq<u8>, hash: Seq<u8>) -> bool {
    hash.len() == 34 && crypt_private(pw, hash.subrange(0, 12)) == hash
}

fn bytes_eq(a: &[u8], b: &[u8]) -> (r: bool)
    ensures
        r == (a@ == b@),
{
    if a.len() != b.len() {
        return false;
    }
    let mut k: usize = 0;
    while k < a.len()
        invariant
            a@.len() == b@.len(),
            k <= a@.len(),
            forall|j: int| 0 <= j < k ==> a@[j] == b@[j],
        decreases a@.len() - k,
    {
        if a[k] != b[k] {
            return false;
        }
        k += 1;
    }
    assert(a@ =~= b@);
    true
}

fn concat_bytes(a: &[u8], b: &[u8]) -> (r: Vec<u8>)
    ensures
        r@ == a@ + b@,
{
    let mut r: Vec<u8> = Vec::new();
    let mut k: usize = 0;
    while k < a.len()
        invariant
            k <= a@.len(),
            r@ == a@.subrange(0, k as int),
        decreases a@.len() - k,
    {
        r.push(a[k]);
        k += 1;
        assert(r@ =~= a@.subrange(0, k as int));
    }
    let mut j: usize = 0;
    while j < b.len()
        invariant
            k == a@.len(),
            j <= b@.len(),
            r@ == a@ + b@.subrange(0, j as int),
        decreases b@.len() - j,
    {
        r.push(b[j]);
        j += 1;
        assert(r@ =~= a@ + b@.subrange(0, j as int));
    }
    assert(b@.subrange(0, j as int) =~= b@);
    r
}

fn itoa64_byte(n: u32) -> (r: u8)
    requires
        n < 64,
    ensures
        r == itoa64(n as nat),
{
    if n == 0 {
        46
    } else if n == 1 {
        47
    } else if n < 12 {
        (48 + n - 2) as u8
    } else if n < 38 {
        (65 + n - 12) as u8
    } else {
        (97 + n - 38) as u8
    }
}

fn itoa64_position(b: u8) -> (r: Option<u32>)
    ensures
        match r {
            Some(n) => itoa64_index(b) == Some(n as nat),
            None => itoa64_index(b) is None,
        },
{
    if b == 46 {
        Some(0)
    } else if b == 47 {
        Some(1)
    } else if 48 <= b && b <= 57 {
        Some((b - 46) as u32)
    } else if 65 <= b && b <= 90 {
        Some((b - 53) as u32)
    } else if 97 <= b && b <= 122 {
        Some((b - 59) as u32)
    } else {
        None
    }
}

fn sextet_byte(v: u32, shift: u32) -> (r: u8)
    requires
        shift < 32,
    ensures
        r == sextet(v, shift),
{
    let n: u32 = (v >> shift) & 0x3f;
    assert(n < 64) by (bit_vector)
        requires
            n == (v >> shift) & 0x3f,
    ;
    itoa64_byte(n)
}

fn encode64_exec(input: &[u8]) -> (r: Vec<u8>)
    ensures
        r@ == encode64(input@),
{
    let n = input.len();
    let mut out: Vec<u8> = Vec::new();
    let mut i: usize = 0;
    assert(input@.subrange(0, n as int) =~= input@);
    while i < n
        invariant
            n == input@.len(),
            i <= n,
            out@ + encode64(input@.subrange(i as int, n as int)) == encode64(input@),
        decreases n - i,
    {
        let ghost rest = input@.subrange(i as int, n as int);
        let ghost before = out@;
        let b0: u32 = input[i] as u32;
        if n - i == 1 {
            let v = b0;
            assert(group_value(rest) == v);
            out.push(sextet_byte(v, 0));
            out.push(sextet_byte(v, 6));
            assert(out@ =~= before + encode64(rest));
            i = n;
        } else if n - i == 2 {
            let b1: u32 = input[i + 1] as u32;
            let v = b0 | (b1 << 8u32);
            assert(group_value(rest) == v);
            out.push(sextet_byte(v, 0));
            out.push(sextet_byte(v, 6));
            out.push(sextet_byte(v, 12));
            assert(out@ =~= before + encode64(rest));
            i = n;
        } else {
            let b1: u32 = input[i + 1] as u32;
            let b2: u32 = input[i + 2] as u32;
            let v = b0 | (b1 << 8u32) | (b2 << 16u32);
            assert(group_value(rest.subrange(0, 3)) == v);
            out.push(sextet_byte(v, 0));
            out.push(sextet_byte(v, 6));
            out.push(sextet_byte(v, 12));
            out.push(sextet_byte(v, 18));
            assert(rest.subrange(3, rest.len() as int) =~= input@.subrange(i + 3, n as int));
            assert(out@ + encode64(input@.subrange(i + 3, n as int)) =~= before + encode64(rest));
            i = i + 3;
        }
        assert(input@.subrange(n as int, n as int) =~= Seq::<u8>::empty());
    }
    assert(out@ + encode64(input@.subrange(n as int, n as int)) =~= out@);
    out
}

fn crypt_private_exec(password: &[u8], setting: &[u8]) -> (r: Vec<u8>)
    ensures
        r@ == crypt_private(password@, setting@),
{
    let star: Vec<u8> = vec![42u8, 48u8];
    assert(star@ =~= star_zero());
    if setting.len() < 12 {
        return star;
    }
    if !(setting[0] == 36 && (setting[1] == 80 || setting[1] == 72) && setting[2] == 36) {
        return star;
    }
    let log2 = match itoa64_position(setting[3]) {
        Some(n) => n,
        None => {
            return star;
        },
    };
    if !(7 <= log2 && log2 <= 30) {
        return star;
    }
    let count: u32 = 1u32 << log2;
    let mut salt: Vec<u8> = Vec::new();
    let mut k: usize = 4;
    while k < 12
        invariant
            4 <= k <= 12,
            setting@.len() >= 12,
            salt@ == setting@.subrange(4, k as int),
        decreases 12 - k,
    {
        salt.push(setting[k]);
        k += 1;
        assert(salt@ =~= setting@.subrange(4, k as int));
    }
    let first = concat_bytes(&salt, password);
    let mut digest = md5_digest(&first);
    let ghost d0 = digest@;
    let mut j: u32 = 0;
    while j < count
        invariant
            j <= count,
            digest@ == md5_rounds(d0, password@, j as nat),
        decreases count - j,
    {
        let next = concat_bytes(&digest, password);
        digest = md5_digest(&next);
        j += 1;
    }
    let enc = encode64_exec(&digest);
    concat_bytes(setting, &enc)
}

fn verify_phpass_password(password: &str, hash: &str) -> (r: bool)
    ensures
        r == phpass_matches(encode_utf8(password@), encode_utf8(hash@)),
{
    let hb = hash.as_bytes();
    if hb.len() != 34 {
        return false;
    }
    let mut setting: Vec<u8> = Vec::new();
    let mut k: usize = 0;
    while k < 12
        invariant
            k <= 12,
            hb@.len() == 34,
            setting@ == hb@.subrange(0, k as int),
        decreases 12 - k,
    {
        setting.push(hb[k]);
        k += 1;
        assert(setting@ =~= hb@.subrange(0, k as int));
    }
    let expected = crypt_private_exec(password.as_bytes(), &setting);
    bytes_eq(&expected, hb)
}

fn all_hex_exec(s: &[char]) -> (r: bool)
    ensures
        r == all_hex(s@),
{
    let mut k: usize = 0;
    while k < s.len()
        invariant
            k <= s@.len(),
            forall|j: int| 0 <= j < k ==> is_hex(#[trigger] s@[j]),
        decreases s@.len() - k,
    {
        let c = s[k];
        if !(('0' <= c && c <= '9') || ('a' <= c && c <= 'f') || ('A' <= c && c <= 'F')) {
            assert(!is_hex(s@[k as int]));
            return false;
        }
        k += 1;
    }
    true
}

fn normalize_bcrypt_exec(h: &[char]) -> (r: String)
    ensures
        r@ == normalize_bcrypt(h@),
{
    let marker = chars_of("$2y$");
    proof {
        reveal_strlit("$2y$");
    }
    if starts_with_exec(h, &marker) {
        let mut v = chars_of("$2b$");
        let rest = copy_range(h, 4, h.len());
        let mut k: usize = 0;
        let ghost v0 = v@;
        while k < rest.len()
            invariant
                k <= rest@.len(),
                v@ == v0 + rest@.subrange(0, k as int),
            decreases rest@.len() - k,
        {
            v.push(rest[k]);
            k += 1;
            assert(v@ =~= v0 + rest@.subrange(0, k as int));
        }
        assert(rest@.subrange(0, k as int) =~= rest@);
        string_of(&v)
    } else {
        string_of(h)
    }
}

/// Checks a password against a stored hash: bare MD5 hex (compared without
/// regard to case), `$wp` (bcrypt over the base64 HMAC-SHA384 of the
/// password), portable phpass, and otherwise bcrypt.
pub fn verify_password(password: &str, hash: &str) -> (r: bool)
    requires
        phpass_sliceable(hash@),
    ensures
        r == password_matches(password@, hash@),
{
    let h = chars_of(hash);
    proof {
        reveal_strlit("$wp");
        reveal_strlit("$P$");
        reveal_strlit("$H$");
    }
    if hash.as_bytes().len() <= 32 && all_hex_exec(&h) {
        let digest = md5_digest(password.as_bytes());
        let hx = chars_of(to_hex_lower(&digest).as_str());
        return eq_ignore_case_exec(&hx, &h);
    }
    if starts_with_exec(&h, &chars_of("$wp")) {
        let tag = hmac_sha384("wp-sha384".as_bytes(), password.as_bytes());
        let transformed = base64_standard(&tag);
        let rest = copy_range(&h, 3, h.len());
        let normalized = normalize_bcrypt_exec(&rest);
        return bcrypt_verify(transformed.as_str().as_bytes(), normalized.as_str());
    }
    if starts_with_exec(&h, &chars_of("$P$")) || starts_with_exec(&h, &chars_of("$H$")) {
        return verify_phpass_password(password, hash);
    }
    let normalized = normalize_bcrypt_exec(&h);
    bcrypt_verify(password.as_bytes(), normalized.as_str())
}

/// Whether a stored hash should be replaced: everything but the `$wp$`
/// format (legacy MD5 and phpass, bare bcrypt, other algorithms).
pub fn password_needs_rehash(hash: &str) -> (r: bool)
    ensures
        r == !starts_with(hash@, "$wp$"@),
{
    let h = chars_of(hash);
    proof {
        reveal_strlit("$wp$");
        reveal_strlit("$P$");
        reveal_strlit("$H$");
        if starts_with(hash@, "$wp$"@) {
            if hash@.len() >= 3 {
                assert(hash@.subrange(0, 3)[1] == hash@[1]);
            }
            assert(hash@.subrange(0, 4)[0] == hash@[0]);
            assert(hash@.subrange(0, 4)[1] == hash@[1]);
            assert(hash@[0] == '$');
            assert(!is_hex(hash@[0]));
            assert(hash@[1] == 'w');
        }
    }
    if hash.as_bytes().len() <= 32 && all_hex_exec(&h) {
        return true;
    }
    if starts_with_exec(&h, &chars_of("$P$")) || starts_with_exec(&h, &chars_of("$H$")) {
        return true;
    }
    if starts_with_exec(&h, &chars_of("$wp$")) {
        return false;
    }
    true
}

} // verus!
