//! Per-user session tokens (WordPress `WP_Session_Tokens`): each session is
//! stored under the SHA-256 hex of its token, expired sessions of a user are
//! pruned whenever that user's sessions are read or written.

use vstd::prelude::*;
use vstd::utf8::encode_utf8;
use crate::crypto::{hex_lower, sha256_digest, sha256_of, to_hex_lower};
use crate::text::{chars_eq, chars_of, copy_string};

verus! {

#[derive(Debug, Clone, PartialEq, Eq)]
pub struct SessionTokenEntry {
    pub expiration: u64,
    pub login: u64,
    pub ip: Option<String>,
    pub user_agent: Option<String>,
}

pub open spec fn opt_view(o: Option<String>) -> Option<Seq<char>> {
    match o {
        Some(s) => Some(s@),
        None => None,
    }
}

/// The fields of a session entry, strings by their characters.
pub struct EntryView {
    pub expiration: u64,
    pub login: u64,
    pub ip: Option<Seq<char>>,
    pub user_agent: Option<Seq<char>>,
}

impl View for SessionTokenEntry {
    type V = EntryView;

    open spec fn view(&self) -> EntryView {
        EntryView {
            expiration: self.expiration,
            login: self.login,
            ip: opt_view(self.ip),
            user_agent: opt_view(self.user_agent),
        }
    }
}

/// One stored session: its user, its token verifier and its entry.
pub struct SessionView {
    pub user_id: u64,
    pub verifier: Seq<char>,
    pub entry: EntryView,
}

/// The key under which a token's session is stored: the lowercase hex
/// SHA-256 of the token.
pub open spec fn token_verifier(token: Seq<char>) -> Seq<char> {
    hex_lower(sha256_of(encode_utf8(token)))
}

pub open spec fn same_key(a: SessionView, b: SessionView) -> bool {
    a.user_id == b.user_id && a.verifier == b.verifier
}

pub open spec fn keys_distinct(s: Seq<SessionView>) -> bool {
    forall|i: int, j: int| 0 <= i < j < s.len() ==> !same_key(s[i], s[j])
}

/// Sessions kept by pruning `user`'s sessions at `now`.
pub open spec fn is_live(user: u64, now: u64) -> spec_fn(SessionView) -> bool {
    |s: SessionView| s.user_id != user || s.entry.expiration > now
}

/// Sessions other than `user`'s session stored under `ver`.
pub open spec fn other_than(user: u64, ver: Seq<char>) -> spec_fn(SessionView) -> bool {
    |s: SessionView| !(s.user_id == user && s.verifier == ver)
}

/// Sessions of other users, and `user`'s session stored under `ver`.
pub open spec fn only_token(user: u64, ver: Seq<char>) -> spec_fn(SessionView) -> bool {
    |s: SessionView| s.user_id != user || s.verifier == ver
}

pub open spec fn not_of_user(user: u64) -> spec_fn(SessionView) -> bool {
    |s: SessionView| s.user_id != user
}

pub open spec fn of_user(user: u64) -> spec_fn(SessionView) -> bool {
    |s: SessionView| s.user_id == user
}

pub open spec fn pruned(s: Seq<SessionView>, user: u64, now: u64) -> Seq<SessionView> {
    s.filter(is_live(user, now))
}

/// Index of the session stored for `user` under `ver`.
pub open spec fn find_session(s: Seq<SessionView>, user: u64, ver: Seq<char>) -> Option<int>
    decreases s.len(),
{
    if s.len() == 0 {
        None
    } else if s.last().user_id == user && s.last().verifier == ver {
        Some(s.len() - 1)
    } else {
        find_session(s.drop_last(), user, ver)
    }
}

pub open spec fn lookup_session(s: Seq<SessionView>, user: u64, ver: Seq<char>) -> Option<EntryView> {
    match find_session(s, user, ver) {
        Some(i) => Some(s[i].entry),
        None => None,
    }
}

/// `s` with `v` stored under its key, replacing the session there.
pub open spec fn with_session(s: Seq<SessionView>, v: SessionView) -> Seq<SessionView> {
    match find_session(s, v.user_id, v.verifier) {
        Some(i) => s.update(i, v),
        None => s.push(v),
    }
}

pub proof fn lemma_find_session(s: Seq<SessionView>, user: u64, ver: Seq<char>)
    ensures
        match find_session(s, user, ver) {
            Some(i) => 0 <= i < s.len() && s[i].user_id == user && s[i].verifier == ver,
            None => forall|j: int|
                0 <= j < s.len() ==> !(#[trigger] s[j].user_id == user && s[j].verifier == ver),
        },
    decreases s.len(),
{
    if s.len() > 0 {
        lemma_find_session(s.drop_last(), user, ver);
        if find_session(s, user, ver) is None {
            assert forall|j: int| 0 <= j < s.len() implies !(#[trigger] s[j].user_id == user
                && s[j].verifier == ver) by {
                if j < s.len() - 1 {
                    assert(s.drop_last()[j] == s[j]);
                }
            }
        }
    }
}

/// With distinct keys, the session found is the only one under that key.
pub proof fn lemma_find_unique(s: Seq<SessionView>, i: int)
    requires
        keys_distinct(s),
        0 <= i < s.len(),
    ensures
        find_session(s, s[i].user_id, s[i].verifier) == Some(i),
{
    lemma_find_session(s, s[i].user_id, s[i].verifier);
    let f = find_session(s, s[i].user_id, s[i].verifier);
    if f != Some(i) {
        let j = f->0;
        assert(same_key(s[i], s[j]));
        if j < i {
            assert(!same_key(s[j], s[i]));
        } else {
            assert(!same_key(s[i], s[j]));
        }
    }
}

pub proof fn lemma_filter_distinct(s: Seq<SessionView>, p: spec_fn(SessionView) -> bool)
    requires
        keys_distinct(s),
    ensures
        keys_distinct(s.filter(p)),
    decreases s.len(),
{
    reveal(Seq::filter);
    if s.len() > 0 {
        lemma_filter_distinct(s.drop_last(), p);
        let f = s.drop_last().filter(p);
        if p(s.last()) {
            assert forall|i: int| 0 <= i < f.len() implies !same_key(#[trigger] f[i], s.last()) by {
                assert(f.contains(f[i]));
                s.drop_last().lemma_filter_contains_rev(p, f[i]);
                let j = choose|j: int| 0 <= j < s.drop_last().len() && s.drop_last()[j] == f[i];
                assert(s[j] == f[i]);
            }
            let g = f.push(s.last());
            assert forall|i: int, j: int| 0 <= i < j < g.len() implies !same_key(g[i], g[j]) by {
                if j < f.len() {
                    assert(g[i] == f[i] && g[j] == f[j]);
                } else {
                    assert(g[i] == f[i]);
                }
            }
        }
    }
}

pub proof fn lemma_with_session_distinct(s: Seq<SessionView>, v: SessionView)
    requires
        keys_distinct(s),
    ensures
        keys_distinct(with_session(s, v)),
{
    lemma_find_session(s, v.user_id, v.verifier);
    let w = with_session(s, v);
    assert forall|i: int, j: int| 0 <= i < j < w.len() implies !same_key(w[i], w[j]) by {
        match find_session(s, v.user_id, v.verifier) {
            Some(k) => {
                if i != k && j != k {
                    assert(!same_key(s[i], s[j]));
                } else if i == k {
                    assert(!same_key(s[k], s[j]));
                } else {
                    assert(!same_key(s[i], s[k]));
                }
            },
            None => {
                if j < s.len() {
                    assert(!same_key(s[i], s[j]));
                } else {
                    assert(!(s[i].user_id == v.user_id && s[i].verifier == v.verifier));
                }
            },
        }
    }
}

/// `v`'s session is in `with_session(s, v)`.
proof fn lemma_with_session_has(s: Seq<SessionView>, v: SessionView) -> (i: int)
    ensures
        0 <= i < with_session(s, v).len(),
        with_session(s, v)[i] == v,
{
    lemma_find_session(s, v.user_id, v.verifier);
    match find_session(s, v.user_id, v.verifier) {
        Some(k) => k,
        None => s.len() as int,
    }
}

/// A session kept by a filter of a distinct store is what lookup finds.
proof fn lemma_lookup_kept(w: Seq<SessionView>, p: spec_fn(SessionView) -> bool, i: int)
    requires
        keys_distinct(w),
        0 <= i < w.len(),
        p(w[i]),
    ensures
        lookup_session(w.filter(p), w[i].user_id, w[i].verifier) == Some(w[i].entry),
{
    let f = w.filter(p);
    w.lemma_filter_contains(p, i);
    lemma_filter_distinct(w, p);
    let j = choose|j: int| 0 <= j < f.len() && f[j] == w[i];
    lemma_find_unique(f, j);
}

/// Storing a session and then reading it back before it expires gives the
/// stored entry.
pub proof fn lemma_upsert_then_verify(
    s: Seq<SessionView>,
    v: SessionView,
    now: u64,
    later: u64,
)
    requires
        keys_distinct(s),
        v.entry.expiration > later,
    ensures
        lookup_session(
            pruned(with_session(pruned(s, v.user_id, now), v), v.user_id, later),
            v.user_id,
            v.verifier,
        ) == Some(v.entry),
{
    let p = pruned(s, v.user_id, now);
    lemma_filter_distinct(s, is_live(v.user_id, now));
    lemma_with_session_distinct(p, v);
    let w = with_session(p, v);
    let i = lemma_with_session_has(p, v);
    lemma_lookup_kept(w, is_live(v.user_id, later), i);
}

/// After a session is destroyed no read finds it.
pub proof fn lemma_destroyed_session_absent(s: Seq<SessionView>, user: u64, ver: Seq<char>, now: u64)
    ensures
        lookup_session(pruned(s.filter(other_than(user, ver)), user, now), user, ver) is None,
{
    let f = s.filter(other_than(user, ver));
    let g = pruned(f, user, now);
    lemma_find_session(g, user, ver);
    if find_session(g, user, ver) is Some {
        let i = find_session(g, user, ver)->0;
        assert(g.contains(g[i]));
        f.lemma_filter_contains_rev(is_live(user, now), g[i]);
        let j = choose|j: int| 0 <= j < f.len() && f[j] == g[i];
        f.lemma_filter_pred(other_than(user, ver), j);
        s.lemma_filter_pred(other_than(user, ver), j);
    }
}

/// Replacing a user's sessions by one that has not expired leaves that
/// user exactly one session.
pub proof fn lemma_replace_leaves_one(s: Seq<SessionView>, v: SessionView, now: u64)
    requires
        keys_distinct(s),
        v.entry.expiration > now,
    ensures
        pruned(with_session(pruned(s, v.user_id, now), v), v.user_id, now).filter(
            only_token(v.user_id, v.verifier),
        ).filter(of_user(v.user_id)).len() == 1,
{
    let u = v.user_id;
    let p = pruned(s, u, now);
    lemma_filter_distinct(s, is_live(u, now));
    lemma_with_session_distinct(p, v);
    let w = with_session(p, v);
    let i = lemma_with_session_has(p, v);
    let q = w.filter(is_live(u, now));
    lemma_filter_distinct(w, is_live(u, now));
    w.lemma_filter_contains(is_live(u, now), i);
    let j = choose|j: int| 0 <= j < q.len() && q[j] == v;
    let r = q.filter(only_token(u, v.verifier));
    lemma_filter_distinct(q, only_token(u, v.verifier));
    q.lemma_filter_contains(only_token(u, v.verifier), j);
    let k = choose|k: int| 0 <= k < r.len() && r[k] == v;
    let f = r.filter(of_user(u));
    lemma_filter_distinct(r, of_user(u));
    r.lemma_filter_contains(of_user(u), k);
    assert(f.len() >= 1);
    if f.len() >= 2 {
        assert(f.contains(f[0]));
        assert(f.contains(f[1]));
        r.lemma_filter_contains_rev(of_user(u), f[0]);
        r.lemma_filter_contains_rev(of_user(u), f[1]);
        r.lemma_filter_pred(of_user(u), 0);
        r.lemma_filter_pred(of_user(u), 1);
        let a = choose|a: int| 0 <= a < r.len() && r[a] == f[0];
        let b = choose|b: int| 0 <= b < r.len() && r[b] == f[1];
        q.lemma_filter_pred(only_token(u, v.verifier), a);
        q.lemma_filter_pred(only_token(u, v.verifier), b);
        assert(!same_key(f[0], f[1]));
    }
}

#[derive(Debug, Clone)]
struct SessionRecord {
    user_id: u64,
    verifier: String,
    entry: SessionTokenEntry,
}

spec fn record_view(r: SessionRecord) -> SessionView {
    SessionView { user_id: r.user_id, verifier: r.verifier@, entry: r.entry@ }
}

spec fn record_views(recs: Seq<SessionRecord>) -> Seq<SessionView> {
    recs.map_values(|r: SessionRecord| record_view(r))
}

/// Sessions of all users, each token stored once per user.
#[derive(Debug, Clone)]
pub struct SessionTokenStore {
    records: Vec<SessionRecord>,
}

/// Which sessions a pass over the store keeps.
#[derive(Clone, Copy)]
enum Keep {
    Live,
    OtherThan,
    OnlyToken,
    NotUser,
}

spec fn keep_pred(kind: Keep, user: u64, now: u64, ver: Seq<char>) -> spec_fn(SessionView) -> bool {
    match kind {
        Keep::Live => is_live(user, now),
        Keep::OtherThan => other_than(user, ver),
        Keep::OnlyToken => only_token(user, ver),
        Keep::NotUser => not_of_user(user),
    }
}

fn copy_opt(o: &Option<String>) -> (r: Option<String>)
    ensures
        opt_view(r) == opt_view(*o),
{
    match o {
        Some(s) => Some(copy_string(s)),
        None => None,
    }
}

fn copy_entry(e: &SessionTokenEntry) -> (r: SessionTokenEntry)
    ensures
        r@ == e@,
{
    SessionTokenEntry {
        expiration: e.expiration,
        login: e.login,
        ip: copy_opt(&e.ip),
        user_agent: copy_opt(&e.user_agent),
    }
}

fn copy_record(r: &SessionRecord) -> (c: SessionRecord)
    ensures
        record_view(c) == record_view(*r),
{
    SessionRecord { user_id: r.user_id, verifier: copy_string(&r.verifier), entry: copy_entry(&r.entry) }
}

fn opt_eq(a: &Option<String>, b: &Option<String>) -> (r: bool)
    ensures
        r == (opt_view(*a) == opt_view(*b)),
{
    match (a, b) {
        (Some(x), Some(y)) => chars_eq(&chars_of(x.as_str()), &chars_of(y.as_str())),
        (None, None) => true,
        _ => false,
    }
}

fn session_token_verifier(token: &str) -> (r: String)
    ensures
        r@ == token_verifier(token@),
{
    to_hex_lower(&sha256_digest(token.as_bytes()))
}

fn keeps(kind: Keep, r: &SessionRecord, user: u64, now: u64, ver: &[char]) -> (b: bool)
    ensures
        b == keep_pred(kind, user, now, ver@)(record_view(*r)),
{
    match kind {
        Keep::Live => r.user_id != user || r.entry.expiration > now,
        Keep::OtherThan => !(r.user_id == user && chars_eq(&chars_of(r.verifier.as_str()), ver)),
        Keep::OnlyToken => r.user_id != user || chars_eq(&chars_of(r.verifier.as_str()), ver),
        Keep::NotUser => r.user_id != user,
    }
}

impl SessionTokenStore {
    /// The stored sessions.
    pub closed spec fn sessions(&self) -> Seq<SessionView> {
        record_views(self.records@)
    }

    /// No two sessions share a user and a verifier.
    pub closed spec fn wf(&self) -> bool {
        keys_distinct(self.sessions())
    }

    pub fn new() -> (r: Self)
        ensures
            r.wf(),
            r.sessions() == Seq::<SessionView>::empty(),
    {
        let r = SessionTokenStore { records: Vec::new() };
        assert(r.sessions() =~= Seq::<SessionView>::empty());
        r
    }

    /// Keeps the sessions that `kind` keeps; returns how many went.
    fn retain_sessions(&mut self, kind: Keep, user: u64, now: u64, ver: &[char]) -> (removed: usize)
        requires
            old(self).wf(),
        ensures
            final(self).wf(),
            final(self).sessions() == old(self).sessions().filter(keep_pred(kind, user, now, ver@)),
            removed == old(self).sessions().len() - final(self).sessions().len(),
    {
        let ghost p = keep_pred(kind, user, now, ver@);
        let ghost all = self.sessions();
        let mut kept: Vec<SessionRecord> = Vec::new();
        let mut i: usize = 0;
        let n = self.records.len();
        proof {
            reveal(Seq::filter);
            assert(all.subrange(0, 0) =~= Seq::<SessionView>::empty());
            assert(record_views(kept@) =~= Seq::<SessionView>::empty());
        }
        while i < n
            invariant
                n == self.records@.len(),
                all == record_views(self.records@),
                p == keep_pred(kind, user, now, ver@),
                i <= n,
                record_views(kept@) == all.subrange(0, i as int).filter(p),
                kept@.len() <= i,
            decreases n - i,
        {
            proof {
                reveal(Seq::filter);
                assert(all.subrange(0, i + 1).drop_last() =~= all.subrange(0, i as int));
                assert(all.subrange(0, i + 1).last() == record_view(self.records@[i as int]));
            }
            if keeps(kind, &self.records[i], user, now, ver) {
                let ghost before = kept@;
                kept.push(copy_record(&self.records[i]));
                assert(record_views(kept@) =~= record_views(before).push(
                    record_view(self.records@[i as int]),
                ));
            }
            i += 1;
        }
        assert(all.subrange(0, n as int) =~= all);
        proof {
            lemma_filter_distinct(all, p);
            all.lemma_filter_len(p);
        }
        let removed = n - kept.len();
        self.records = kept;
        removed
    }

    fn prune_expired_for_user(&mut self, user_id: u64, now_timestamp: u64) -> (removed: usize)
        requires
            old(self).wf(),
        ensures
            final(self).wf(),
            final(self).sessions() == pruned(old(self).sessions(), user_id, now_timestamp),
            removed == old(self).sessions().len() - final(self).sessions().len(),
    {
        let none: Vec<char> = Vec::new();
        self.retain_sessions(Keep::Live, user_id, now_timestamp, &none)
    }

    fn find(&self, user_id: u64, ver: &[char]) -> (r: Option<usize>)
        ensures
            match r {
                Some(i) => i < self.records@.len() && find_session(self.sessions(), user_id, ver@)
                    == Some(i as int),
                None => find_session(self.sessions(), user_id, ver@) is None,
            },
    {
        let ghost s = self.sessions();
        let mut k = self.records.len();
        assert(s.subrange(0, k as int) =~= s);
        while k > 0
            invariant
                k <= self.records@.len(),
                s == self.sessions(),
                find_session(s, user_id, ver@) == find_session(s.subrange(0, k as int), user_id, ver@),
            decreases k,
        {
            let ghost sub = s.subrange(0, k as int);
            assert(sub.last() == record_view(self.records@[k - 1]));
            if self.records[k - 1].user_id == user_id && chars_eq(
                &chars_of(self.records[k - 1].verifier.as_str()),
                ver,
            ) {
                return Some(k - 1);
            }
            assert(sub.drop_last() =~= s.subrange(0, k - 1));
            k -= 1;
        }
        None
    }

    /// Stores (or replaces) the session of `token` for a user after pruning
    /// that user's expired sessions; true when the stored entry changed.
    pub fn upsert_session(
        &mut self,
        user_id: u64,
        token: &str,
        expiration: u64,
        now_timestamp: u64,
        ip: Option<String>,
        user_agent: Option<String>,
    ) -> (r: bool)
        requires
            old(self).wf(),
        ensures
            final(self).wf(),
            ({
                let p = pruned(old(self).sessions(), user_id, now_timestamp);
                let v = SessionView {
                    user_id,
                    verifier: token_verifier(token@),
                    entry: EntryView {
                        expiration,
                        login: now_timestamp,
                        ip: opt_view(ip),
                        user_agent: opt_view(user_agent),
                    },
                };
                &&& final(self).sessions() == with_session(p, v)
                &&& r == (lookup_session(p, user_id, v.verifier) != Some(v.entry))
            }),
    {
        self.prune_expired_for_user(user_id, now_timestamp);
        let verifier = session_token_verifier(token);
        let ver = chars_of(verifier.as_str());
        let ghost p = self.sessions();
        let entry = SessionTokenEntry { expiration, login: now_timestamp, ip, user_agent };
        let ghost v = SessionView { user_id, verifier: ver@, entry: entry@ };
        proof {
            lemma_with_session_distinct(p, v);
        }
        match self.find(user_id, &ver) {
            Some(i) => {
                let same = {
                    let cur = &self.records[i].entry;
                    cur.expiration == entry.expiration && cur.login == entry.login && opt_eq(
                        &cur.ip,
                        &entry.ip,
                    ) && opt_eq(&cur.user_agent, &entry.user_agent)
                };
                assert(p[i as int] == record_view(self.records@[i as int]));
                let rec = SessionRecord { user_id, verifier, entry };
                self.records.set(i, rec);
                assert(self.sessions() =~= p.update(i as int, v));
                !same
            },
            None => {
                let rec = SessionRecord { user_id, verifier, entry };
                self.records.push(rec);
                assert(self.sessions() =~= p.push(v));
                true
            },
        }
    }

    /// Stores the session of `token` and removes the user's other
    /// sessions: (whether the entry changed, how many others went).
    pub fn replace_with_session(
        &mut self,
        user_id: u64,
        token: &str,
        expiration: u64,
        now_timestamp: u64,
        ip: Option<String>,
        user_agent: Option<String>,
    ) -> (r: (bool, usize))
        requires
            old(self).wf(),
        ensures
            final(self).wf(),
            ({
                let ver = token_verifier(token@);
                let p = pruned(old(self).sessions(), user_id, now_timestamp);
                let v = SessionView {
                    user_id,
                    verifier: ver,
                    entry: EntryView {
                        expiration,
                        login: now_timestamp,
                        ip: opt_view(ip),
                        user_agent: opt_view(user_agent),
                    },
                };
                let q = pruned(with_session(p, v), user_id, now_timestamp);
                &&& r.0 == (lookup_session(p, user_id, ver) != Some(v.entry))
                &&& final(self).sessions() == q.filter(only_token(user_id, ver))
                &&& r.1 == q.len() - final(self).sessions().len()
            }),
    {
        let changed = self.upsert_session(user_id, token, expiration, now_timestamp, ip, user_agent);
        let removed = self.destroy_other_sessions(user_id, token, now_timestamp);
        (changed, removed)
    }

    /// The entry of `token`'s session for a user, after pruning that user's
    /// expired sessions.
    pub fn verify_session(&mut self, user_id: u64, token: &str, now_timestamp: u64) -> (r: Option<
        SessionTokenEntry,
    >)
        requires
            old(self).wf(),
        ensures
            final(self).wf(),
            final(self).sessions() == pruned(old(self).sessions(), user_id, now_timestamp),
            match r {
                Some(e) => lookup_session(final(self).sessions(), user_id, token_verifier(token@))
                    == Some(e@),
                None => lookup_session(final(self).sessions(), user_id, token_verifier(token@))
                    is None,
            },
    {
        self.prune_expired_for_user(user_id, now_timestamp);
        let ver = chars_of(session_token_verifier(token).as_str());
        match self.find(user_id, &ver) {
            Some(i) => {
                assert(self.sessions()[i as int] == record_view(self.records@[i as int]));
                Some(copy_entry(&self.records[i].entry))
            },
            None => None,
        }
    }

    /// Removes `token`'s session of a user; true when there was one.
    pub fn destroy_session(&mut self, user_id: u64, token: &str) -> (r: bool)
        requires
            old(self).wf(),
        ensures
            final(self).wf(),
            r == (lookup_session(old(self).sessions(), user_id, token_verifier(token@)) is Some),
            final(self).sessions() == old(self).sessions().filter(
                other_than(user_id, token_verifier(token@)),
            ),
    {
        let ver = chars_of(session_token_verifier(token).as_str());
        let found = self.find(user_id, &ver).is_some();
        self.retain_sessions(Keep::OtherThan, user_id, 0, &ver);
        found
    }

    /// Prunes a user's expired sessions, then removes all of that user's
    /// sessions but `token`'s; returns how many the second step removed.
    pub fn destroy_other_sessions(&mut self, user_id: u64, token: &str, now_timestamp: u64) -> (r:
        usize)
        requires
            old(self).wf(),
        ensures
            final(self).wf(),
            ({
                let p = pruned(old(self).sessions(), user_id, now_timestamp);
                &&& final(self).sessions() == p.filter(only_token(user_id, token_verifier(token@)))
                &&& r == p.len() - final(self).sessions().len()
            }),
    {
        self.prune_expired_for_user(user_id, now_timestamp);
        let ver = chars_of(session_token_verifier(token).as_str());
        self.retain_sessions(Keep::OnlyToken, user_id, 0, &ver)
    }

    /// Removes every session of a user, expired or not; returns how many.
    pub fn destroy_all_sessions(&mut self, user_id: u64) -> (r: usize)
        requires
            old(self).wf(),
        ensures
            final(self).wf(),
            final(self).sessions() == old(self).sessions().filter(not_of_user(user_id)),
            r == old(self).sessions().len() - final(self).sessions().len(),
    {
        let none: Vec<char> = Vec::new();
        self.retain_sessions(Keep::NotUser, user_id, 0, &none)
    }

    /// The number of a user's sessions left after pruning the expired ones.
    pub fn count_active_sessions(&mut self, user_id: u64, now_timestamp: u64) -> (r: usize)
        requires
            old(self).wf(),
        ensures
            final(self).wf(),
            final(self).sessions() == pruned(old(self).sessions(), user_id, now_timestamp),
            r == final(self).sessions().filter(of_user(user_id)).len(),
    {
        self.prune_expired_for_user(user_id, now_timestamp);
        let ghost s = self.sessions();
        let ghost p = of_user(user_id);
        let mut count: usize = 0;
        let mut i: usize = 0;
        proof {
            reveal(Seq::filter);
            assert(s.subrange(0, 0) =~= Seq::<SessionView>::empty());
        }
        while i < self.records.len()
            invariant
                s == self.sessions(),
                p == of_user(user_id),
                i <= self.records@.len(),
                count <= i,
                count == s.subrange(0, i as int).filter(p).len(),
            decreases self.records@.len() - i,
        {
            proof {
                reveal(Seq::filter);
                assert(s.subrange(0, i + 1).drop_last() =~= s.subrange(0, i as int));
                assert(s.subrange(0, i + 1).last() == record_view(self.records@[i as int]));
            }
            if self.records[i].user_id == user_id {
                count += 1;
            }
            i += 1;
        }
        assert(s.subrange(0, i as int) =~= s);
        count
    }
}

impl Default for SessionTokenStore {
    fn default() -> (r: Self)
        ensures
            r.wf(),
            r.sessions() == Seq::<SessionView>::empty(),
    {
        SessionTokenStore::new()
    }
}

} // verus!
