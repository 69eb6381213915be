//! WordPress nonces: a 12-character HMAC tag of the action, user and
//! session token for the current half-life "tick", accepted during that
//! tick and the one after it.

use vstd::prelude::*;
use crate::auth::{bar, sign_raw, signature, AuthSecrets};
use crate::text::{append_chars, append_str, chars_eq, chars_of, copy_range, decimal, string_of, u64_to_chars};

verus! {

/// A span of whole seconds.
#[derive(Debug, Clone, Copy, PartialEq, Eq, Structural)]
pub struct Seconds {
    pub secs: u64,
}

impl Seconds {
    pub fn from_secs(secs: u64) -> (r: Self)
        ensures
            r.secs == secs,
    {
        Seconds { secs }
    }

    pub fn as_secs(&self) -> (r: u64)
        ensures
            r == self.secs,
    {
        self.secs
    }
}

#[derive(Debug, Clone)]
pub struct NonceService {
    pub nonce_life: Seconds,
    pub secrets: AuthSecrets,
}

/// Half the nonce lifetime, at least one second.
pub open spec fn half_life(life: u64) -> u64 {
    if life / 2 >= 1 {
        life / 2
    } else {
        1
    }
}

/// `ceil(now / half_life)`, saturating at the top of `u64`.
pub open spec fn tick_of(life: u64, now: u64) -> u64 {
    (now.saturating_add((half_life(life) - 1) as u64) / half_life(life)) as u64
}

/// `{tick}|{action}|{user_id}|{token}`.
pub open spec fn nonce_payload(tick: u64, action: Seq<char>, user_id: u64, token: Seq<char>) -> Seq<char> {
    decimal(tick as nat) + bar() + action + bar() + decimal(user_id as nat) + bar() + token
}

/// The first 12 characters of the signature of the payload under
/// `nonce_key ++ nonce_salt`.
pub open spec fn nonce_at(secrets: AuthSecrets, tick: u64, action: Seq<char>, user_id: u64, token: Seq<char>) -> Seq<char> {
    let s = signature(
        nonce_payload(tick, action, user_id, token),
        secrets.nonce_key@ + secrets.nonce_salt@,
    );
    if s.len() <= 12 {
        s
    } else {
        s.subrange(0, 12)
    }
}

/// `Some(1)` for the nonce of the current tick, `Some(2)` for that of the
/// previous tick, `None` otherwise.
pub open spec fn nonce_code(
    life: u64,
    secrets: AuthSecrets,
    nonce: Seq<char>,
    action: Seq<char>,
    user_id: u64,
    token: Seq<char>,
    now: u64,
) -> Option<u8> {
    let t = tick_of(life, now);
    if nonce == nonce_at(secrets, t, action, user_id, token) {
        Some(1)
    } else if nonce == nonce_at(secrets, t.saturating_sub(1), action, user_id, token) {
        Some(2)
    } else {
        None
    }
}

/// A fresh nonce checks as current at the time it was made.
pub proof fn lemma_nonce_fresh(
    life: u64,
    secrets: AuthSecrets,
    action: Seq<char>,
    user_id: u64,
    token: Seq<char>,
    now: u64,
)
    ensures
        nonce_code(
            life,
            secrets,
            nonce_at(secrets, tick_of(life, now), action, user_id, token),
            action,
            user_id,
            token,
            now,
        ) == Some(1u8),
{
}

/// One half-life later the clock is one tick on (away from the top of the
/// `u64` range).
pub proof fn lemma_tick_advances(life: u64, now: u64)
    requires
        now + 2 * half_life(life) <= u64::MAX,
    ensures
        tick_of(life, (now + half_life(life)) as u64) == tick_of(life, now) + 1,
{
    let h = half_life(life) as int;
    let x = now + h - 1;
    assert((x + h) / h == x / h + 1) by (nonlinear_arith)
        requires
            h > 0,
            x >= 0,
    ;
}

/// A nonce made at `now` is still accepted one half-life later.
pub proof fn lemma_nonce_valid_next_tick(
    life: u64,
    secrets: AuthSecrets,
    action: Seq<char>,
    user_id: u64,
    token: Seq<char>,
    now: u64,
)
    requires
        now + 2 * half_life(life) <= u64::MAX,
    ensures
        nonce_code(
            life,
            secrets,
            nonce_at(secrets, tick_of(life, now), action, user_id, token),
            action,
            user_id,
            token,
            (now + half_life(life)) as u64,
        ) is Some,
{
    lemma_tick_advances(life, now);
}

/// Provided that the nonces compared differ from the one made whenever their
/// (tick, action, user, token) do, a nonce made at `made_at` checks as `Some(1)` exactly in its own tick and
/// for its own action, user and token, as `Some(2)` exactly one tick later
/// for the same three, and as `None` otherwise.
pub proof fn lemma_nonce_code_exact(
    life: u64,
    secrets: AuthSecrets,
    action: Seq<char>,
    user_id: u64,
    token: Seq<char>,
    made_at: u64,
    action2: Seq<char>,
    user_id2: u64,
    token2: Seq<char>,
    now: u64,
)
    requires
        ({
            let k0 = tick_of(life, made_at);
            let k = tick_of(life, now);
            let n = nonce_at(secrets, k0, action, user_id, token);
            &&& n == nonce_at(secrets, k, action2, user_id2, token2) ==> k == k0 && action2 == action
                && user_id2 == user_id && token2 == token
            &&& n == nonce_at(secrets, k.saturating_sub(1), action2, user_id2, token2) ==> k.saturating_sub(1)
                == k0 && action2 == action && user_id2 == user_id && token2 == token
        }),
    ensures
        ({
            let k0 = tick_of(life, made_at);
            let k = tick_of(life, now);
            let same = action2 == action && user_id2 == user_id && token2 == token;
            nonce_code(
                life,
                secrets,
                nonce_at(secrets, k0, action, user_id, token),
                action2,
                user_id2,
                token2,
                now,
            ) == if same && k == k0 {
                Some(1u8)
            } else if same && k == k0 + 1 {
                Some(2u8)
            } else {
                None
            }
        }),
{
}

impl Default for NonceService {
    fn default() -> (r: Self)
        ensures
            r.nonce_life.secs == 86400,
            r.secrets.auth_key@ == "dev-auth-key"@,
            r.secrets.secure_auth_key@ == "dev-secure-auth-key"@,
            r.secrets.logged_in_key@ == "dev-logged-in-key"@,
            r.secrets.nonce_key@ == "dev-nonce-key"@,
            r.secrets.nonce_salt@ == "dev-nonce-salt"@,
    {
        NonceService { nonce_life: Seconds::from_secs(24 * 60 * 60), secrets: AuthSecrets::default() }
    }
}

impl NonceService {
    fn tick(&self, now_timestamp: u64) -> (r: u64)
        ensures
            r == tick_of(self.nonce_life.secs, now_timestamp),
    {
        let half: u64 = if self.nonce_life.as_secs() / 2 >= 1 {
            self.nonce_life.as_secs() / 2
        } else {
            1
        };
        now_timestamp.saturating_add(half - 1) / half
    }

    fn nonce_for_tick(&self, tick: u64, action: &str, user_id: u64, session_token: &str) -> (r: String)
        ensures
            r@ == nonce_at(self.secrets, tick, action@, user_id, session_token@),
    {
        let mut payload = u64_to_chars(tick);
        payload.push('|');
        append_str(&mut payload, action);
        payload.push('|');
        let uid = u64_to_chars(user_id);
        append_chars(&mut payload, &uid);
        payload.push('|');
        append_str(&mut payload, session_token);
        assert(payload@ =~= nonce_payload(tick, action@, user_id, session_token@));
        let mut key = chars_of(self.secrets.nonce_key.as_str());
        append_str(&mut key, self.secrets.nonce_salt.as_str());
        let k = string_of(&key);
        let sig = chars_of(sign_raw(&payload, k.as_str()).as_str());
        let n = if sig.len() <= 12 {
            sig.len()
        } else {
            12
        };
        let out = copy_range(&sig, 0, n);
        assert(sig@.len() <= 12 ==> out@ =~= sig@);
        string_of(&out)
    }

    /// The nonce of an action for a user and session at a given time.
    pub fn create_nonce(&self, action: &str, user_id: u64, session_token: &str, now_timestamp: u64) -> (r: String)
        ensures
            r@ == nonce_at(
                self.secrets,
                tick_of(self.nonce_life.secs, now_timestamp),
                action@,
                user_id,
                session_token@,
            ),
    {
        let tick = self.tick(now_timestamp);
        self.nonce_for_tick(tick, action, user_id, session_token)
    }

    pub fn verify_nonce(
        &self,
        nonce: &str,
        action: &str,
        user_id: u64,
        session_token: &str,
        now_timestamp: u64,
    ) -> (r: bool)
        ensures
            r == (nonce_code(
                self.nonce_life.secs,
                self.secrets,
                nonce@,
                action@,
                user_id,
                session_token@,
                now_timestamp,
            ) is Some),
    {
        self.verify_nonce_code(nonce, action, user_id, session_token, now_timestamp).is_some()
    }

    /// `wp_verify_nonce`: `Some(1)` for the current tick, `Some(2)` for the
    /// previous one, `None` when invalid.
    pub fn verify_nonce_code(
        &self,
        nonce: &str,
        action: &str,
        user_id: u64,
        session_token: &str,
        now_timestamp: u64,
    ) -> (r: Option<u8>)
        ensures
            r == nonce_code(
                self.nonce_life.secs,
                self.secrets,
                nonce@,
                action@,
                user_id,
                session_token@,
                now_timestamp,
            ),
    {
        let current_tick = self.tick(now_timestamp);
        let current = self.nonce_for_tick(current_tick, action, user_id, session_token);
        let previous = self.nonce_for_tick(
            current_tick.saturating_sub(1),
            action,
            user_id,
            session_token,
        );
        let n = chars_of(nonce);
        if chars_eq(&n, &chars_of(current.as_str())) {
            Some(1)
        } else if chars_eq(&n, &chars_of(previous.as_str())) {
            Some(2)
        } else {
            None
        }
    }
}

} // verus!
