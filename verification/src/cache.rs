//! The object cache (`wp_cache_*`): JSON values under (group, key), with
//! optional time-to-live. Times are nanoseconds since the Unix epoch;
//! each operation has an `_at` form that takes the current time, and a
//! plain form that reads the system clock.

use vstd::prelude::*;
use std::time::Duration;
use crate::clock::{duration_nanos, duration_since, max_nanos, nanos_of, system_now, unix_epoch};
use crate::text::{
    chars_eq, chars_of, contains_string, copy_string, parse_i64, parse_i64_spec, string_of, strs,
    trim, trim_chars, KeyedList,
};

verus! {

#[verifier::external_type_specification]
#[verifier::external_body]
pub struct ExJsonValue(serde_json::Value);

/// `serde_json::Value::clone`: the derived clone, an equal value.
#[verifier::external_body]
fn clone_value(v: &serde_json::Value) -> (r: serde_json::Value)
    ensures
        r == *v,
{
    v.clone()
}

/// What `serde_json::Value::as_i64` gives for a value: the integer, when
/// the value is a JSON number that is an integer fitting `i64`.
pub uninterp spec fn json_as_i64(v: serde_json::Value) -> Option<i64>;

/// What `serde_json::Value::as_u64` gives for a value: the integer, when
/// the value is a JSON number that is an integer fitting `u64`.
pub uninterp spec fn json_as_u64(v: serde_json::Value) -> Option<u64>;

/// What `serde_json::Value::as_str` gives for a value: the text of a JSON
/// string.
pub uninterp spec fn json_as_str(v: serde_json::Value) -> Option<Seq<char>>;

/// `serde_json::Value::as_i64`.
#[verifier::external_body]
fn value_as_i64(v: &serde_json::Value) -> (r: Option<i64>)
    ensures
        r == json_as_i64(*v),
{
    v.as_i64()
}

/// `serde_json::Value::as_u64`.
#[verifier::external_body]
fn value_as_u64(v: &serde_json::Value) -> (r: Option<u64>)
    ensures
        r == json_as_u64(*v),
{
    v.as_u64()
}

/// `serde_json::Value::as_str`, the text taken as an owned string.
#[verifier::external_body]
fn value_as_str(v: &serde_json::Value) -> (r: Option<String>)
    ensures
        match r {
            Some(s) => json_as_str(*v) == Some(s@),
            None => json_as_str(*v) is None,
        },
{
    v.as_str().map(|s| s.to_string())
}

/// `serde_json::Value::from(i64)`: a JSON number (`Number::from` keeps a
/// negative `n` as `NegInt(n)` and any other as `PosInt`), which
/// `as_i64` reads back as `n`.
#[verifier::external_body]
fn value_from_i64(n: i64) -> (r: serde_json::Value)
    ensures
        json_as_i64(r) == Some(n),
{
    serde_json::Value::from(n)
}

/// The clock in nanoseconds since the epoch (0 before it).
fn now_nanos() -> (r: u128)
    ensures
        r <= max_nanos(),
{
    match duration_since(system_now(), unix_epoch()) {
        Some(d) => nanos_of(d),
        None => 0,
    }
}

/// A time-to-live in nanoseconds.
pub open spec fn ttl_view(ttl: Option<Duration>) -> Option<u128> {
    match ttl {
        Some(d) => Some(duration_nanos(d)),
        None => None,
    }
}

fn ttl_nanos(ttl: Option<Duration>) -> (r: Option<u128>)
    ensures
        r == ttl_view(ttl),
        r matches Some(d) ==> d <= max_nanos(),
{
    match ttl {
        Some(d) => Some(nanos_of(d)),
        None => None,
    }
}

// ------------------------------------------------------------------
// The model
// ------------------------------------------------------------------

pub struct CacheEntryView {
    pub group: Seq<char>,
    pub key: Seq<char>,
    pub value: serde_json::Value,
    pub expires_at: Option<u128>,
}

/// The groups that exist and the entries stored.
pub struct CacheState {
    pub groups: Seq<Seq<char>>,
    pub entries: Seq<CacheEntryView>,
}

pub open spec fn find_entry(s: Seq<CacheEntryView>, g: Seq<char>, k: Seq<char>) -> Option<int>
    decreases s.len(),
{
    if s.len() == 0 {
        None
    } else if s.last().group == g && s.last().key == k {
        Some(s.len() - 1)
    } else {
        find_entry(s.drop_last(), g, k)
    }
}

pub open spec fn lookup_entry(s: Seq<CacheEntryView>, g: Seq<char>, k: Seq<char>) -> Option<CacheEntryView> {
    match find_entry(s, g, k) {
        Some(i) => Some(s[i]),
        None => None,
    }
}

pub open spec fn put_entry(s: Seq<CacheEntryView>, e: CacheEntryView) -> Seq<CacheEntryView> {
    match find_entry(s, e.group, e.key) {
        Some(i) => s.update(i, e),
        None => s.push(e),
    }
}

pub open spec fn other_key(g: Seq<char>, k: Seq<char>) -> spec_fn(CacheEntryView) -> bool {
    |e: CacheEntryView| !(e.group == g && e.key == k)
}

pub open spec fn other_group(g: Seq<char>) -> spec_fn(CacheEntryView) -> bool {
    |e: CacheEntryView| e.group != g
}

pub open spec fn not_name(g: Seq<char>) -> spec_fn(Seq<char>) -> bool {
    |x: Seq<char>| x != g
}

pub open spec fn drop_entry(s: Seq<CacheEntryView>, g: Seq<char>, k: Seq<char>) -> Seq<CacheEntryView> {
    s.filter(other_key(g, k))
}

pub open spec fn with_group(gs: Seq<Seq<char>>, g: Seq<char>) -> Seq<Seq<char>> {
    if gs.contains(g) {
        gs
    } else {
        gs.push(g)
    }
}

/// An entry with an expiry is gone once the clock reaches it.
pub open spec fn is_expired(e: CacheEntryView, now: u128) -> bool {
    e.expires_at matches Some(t) && now >= t
}

pub open spec fn expiry(ttl: Option<u128>, now: u128) -> Option<u128> {
    match ttl {
        Some(d) => Some((now + d) as u128),
        None => None,
    }
}

pub open spec fn entry_of(g: Seq<char>, k: Seq<char>, v: serde_json::Value, exp: Option<u128>) -> CacheEntryView {
    CacheEntryView { group: g, key: k, value: v, expires_at: exp }
}

pub open spec fn cache_set(st: CacheState, g: Seq<char>, k: Seq<char>, v: serde_json::Value, exp: Option<u128>) -> CacheState {
    CacheState { groups: with_group(st.groups, g), entries: put_entry(st.entries, entry_of(g, k, v, exp)) }
}

/// Stores only where no live entry is.
pub open spec fn cache_add(
    st: CacheState,
    g: Seq<char>,
    k: Seq<char>,
    v: serde_json::Value,
    exp: Option<u128>,
    now: u128,
) -> (CacheState, bool) {
    match lookup_entry(st.entries, g, k) {
        Some(e) => if !is_expired(e, now) {
            (CacheState { groups: with_group(st.groups, g), entries: st.entries }, false)
        } else {
            (cache_set(st, g, k, v, exp), true)
        },
        None => (cache_set(st, g, k, v, exp), true),
    }
}

/// Stores only over a live entry; an expired one is dropped.
pub open spec fn cache_replace(
    st: CacheState,
    g: Seq<char>,
    k: Seq<char>,
    v: serde_json::Value,
    exp: Option<u128>,
    now: u128,
) -> (CacheState, bool) {
    let gs = with_group(st.groups, g);
    match lookup_entry(st.entries, g, k) {
        None => (CacheState { groups: gs, entries: st.entries }, false),
        Some(e) => if is_expired(e, now) {
            (CacheState { groups: gs, entries: drop_entry(st.entries, g, k) }, false)
        } else {
            (cache_set(st, g, k, v, exp), true)
        },
    }
}

/// The live value; an expired entry is dropped.
pub open spec fn cache_get(st: CacheState, g: Seq<char>, k: Seq<char>, now: u128) -> (CacheState, Option<serde_json::Value>) {
    match lookup_entry(st.entries, g, k) {
        None => (st, None),
        Some(e) => if is_expired(e, now) {
            (CacheState { groups: st.groups, entries: drop_entry(st.entries, g, k) }, None)
        } else {
            (st, Some(e.value))
        },
    }
}

pub open spec fn cache_delete(st: CacheState, g: Seq<char>, k: Seq<char>) -> (CacheState, bool) {
    (
        CacheState { groups: st.groups, entries: drop_entry(st.entries, g, k) },
        lookup_entry(st.entries, g, k) is Some,
    )
}

pub open spec fn names_distinct(s: Seq<Seq<char>>) -> bool {
    forall|i: int, j: int| 0 <= i < j < s.len() ==> s[i] != s[j]
}

pub open spec fn entries_distinct(s: Seq<CacheEntryView>) -> bool {
    forall|i: int, j: int| 0 <= i < j < s.len() ==> !(s[i].group == s[j].group && s[i].key == s[j].key)
}

/// The counter step of `incr`: the offset (capped at `i64::MAX`) added,
/// saturating.
pub open spec fn incr_step(current: i64, offset: u64) -> i64 {
    let o: int = if offset > 0x7fff_ffff_ffff_ffff {
        0x7fff_ffff_ffff_ffff
    } else {
        offset as int
    };
    if current + o > i64::MAX {
        i64::MAX
    } else {
        (current + o) as i64
    }
}

/// The counter step of `decr`: the offset (capped) subtracted, saturating,
/// and never below zero.
pub open spec fn decr_step(current: i64, offset: u64) -> i64 {
    let o: int = if offset > 0x7fff_ffff_ffff_ffff {
        0x7fff_ffff_ffff_ffff
    } else {
        offset as int
    };
    if current - o < 0 {
        0
    } else {
        (current - o) as i64
    }
}

/// How a cached JSON value reads as a counter (see `counter_value`).
pub open spec fn json_counter(v: serde_json::Value) -> Option<int> {
    counter_value(json_as_i64(v), json_as_u64(v), json_as_str(v))
}

/// The counter step of `incr` (`up`) or `decr`.
pub open spec fn counter_step(current: i64, offset: u64, up: bool) -> i64 {
    if up {
        incr_step(current, offset)
    } else {
        decr_step(current, offset)
    }
}

/// What `incr` (`up`) or `decr` does at time `now`: nothing for a missing
/// key; an expired entry is dropped and nothing is returned; a live entry
/// whose value does not read as a counter stays and nothing is returned;
/// otherwise the stepped number is returned and becomes the entry's value
/// (a JSON number reading as it), the expiry kept.
pub open spec fn counter_outcome(
    before: CacheState,
    after: CacheState,
    r: Option<i64>,
    group: Seq<char>,
    key: Seq<char>,
    offset: u64,
    now: u128,
    up: bool,
) -> bool {
    &&& after.groups == before.groups
    &&& match lookup_entry(before.entries, group, key) {
        None => r is None && after == before,
        Some(e) => if is_expired(e, now) {
            r is None && after.entries == drop_entry(before.entries, group, key)
        } else {
            match json_counter(e.value) {
                None => r is None && after == before,
                Some(c) => r == Some(counter_step(c as i64, offset, up)) && exists|v: serde_json::Value|
                    json_as_i64(v) == Some(counter_step(c as i64, offset, up)) && after.entries
                        == put_entry(before.entries, entry_of(group, key, v, e.expires_at)),
            }
        },
    }
}

pub fn incr_value(current: i64, offset: u64) -> (r: i64)
    ensures
        r == incr_step(current, offset),
{
    let o: i64 = if offset > 0x7fff_ffff_ffff_ffff {
        i64::MAX
    } else {
        offset as i64
    };
    if current > i64::MAX - o {
        i64::MAX
    } else {
        current + o
    }
}

pub fn decr_value(current: i64, offset: u64) -> (r: i64)
    ensures
        r == decr_step(current, offset),
{
    let o: i64 = if offset > 0x7fff_ffff_ffff_ffff {
        i64::MAX
    } else {
        offset as i64
    };
    if current < o {
        0
    } else {
        current - o
    }
}

/// How a cached value reads as a counter: a JSON integer that fits `i64`,
/// or a string holding one (trimmed).
pub open spec fn counter_value(as_i64: Option<i64>, as_u64: Option<u64>, text: Option<Seq<char>>) -> Option<int> {
    match as_i64 {
        Some(n) => Some(n as int),
        None => match as_u64 {
            Some(n) => if n <= 0x7fff_ffff_ffff_ffff {
                Some(n as int)
            } else {
                None
            },
            None => match text {
                Some(t) => parse_i64_spec(trim(t)),
                None => None,
            },
        },
    }
}

pub fn parse_cache_number(as_i64: Option<i64>, as_u64: Option<u64>, text: Option<&str>) -> (r: Option<i64>)
    ensures
        match r {
            Some(n) => counter_value(as_i64, as_u64, match text {
                Some(t) => Some(t@),
                None => None,
            }) == Some(n as int),
            None => counter_value(as_i64, as_u64, match text {
                Some(t) => Some(t@),
                None => None,
            }) is None,
        },
{
    match as_i64 {
        Some(n) => Some(n),
        None => match as_u64 {
            Some(n) => if n <= 0x7fff_ffff_ffff_ffff {
                Some(n as i64)
            } else {
                None
            },
            None => match text {
                Some(t) => parse_i64(&trim_chars(&chars_of(t))),
                None => None,
            },
        },
    }
}

pub open spec fn value_pairs(v: Seq<(String, serde_json::Value)>) -> Seq<(Seq<char>, serde_json::Value)> {
    v.map_values(|p: (String, serde_json::Value)| (p.0@, p.1))
}

pub open spec fn set_all(st: CacheState, list: Seq<(Seq<char>, serde_json::Value)>, g: Seq<char>, exp: Option<u128>) -> CacheState
    decreases list.len(),
{
    if list.len() == 0 {
        st
    } else {
        cache_set(set_all(st, list.drop_last(), g, exp), g, list.last().0, list.last().1, exp)
    }
}

pub open spec fn add_all(
    st: CacheState,
    list: Seq<(Seq<char>, serde_json::Value)>,
    g: Seq<char>,
    exp: Option<u128>,
    now: u128,
) -> (CacheState, Seq<bool>)
    decreases list.len(),
{
    if list.len() == 0 {
        (st, Seq::empty())
    } else {
        let (s1, rs) = add_all(st, list.drop_last(), g, exp, now);
        let (s2, b) = cache_add(s1, g, list.last().0, list.last().1, exp, now);
        (s2, rs.push(b))
    }
}

pub open spec fn replace_all(
    st: CacheState,
    list: Seq<(Seq<char>, serde_json::Value)>,
    g: Seq<char>,
    exp: Option<u128>,
    now: u128,
) -> (CacheState, Seq<bool>)
    decreases list.len(),
{
    if list.len() == 0 {
        (st, Seq::empty())
    } else {
        let (s1, rs) = replace_all(st, list.drop_last(), g, exp, now);
        let (s2, b) = cache_replace(s1, g, list.last().0, list.last().1, exp, now);
        (s2, rs.push(b))
    }
}

pub open spec fn get_all(st: CacheState, keys: Seq<Seq<char>>, g: Seq<char>, now: u128) -> (CacheState, Seq<Option<serde_json::Value>>)
    decreases keys.len(),
{
    if keys.len() == 0 {
        (st, Seq::empty())
    } else {
        let (s1, rs) = get_all(st, keys.drop_last(), g, now);
        let (s2, v) = cache_get(s1, g, keys.last(), now);
        (s2, rs.push(v))
    }
}

pub open spec fn delete_all(st: CacheState, keys: Seq<Seq<char>>, g: Seq<char>) -> (CacheState, nat)
    decreases keys.len(),
{
    if keys.len() == 0 {
        (st, 0)
    } else {
        let (s1, n) = delete_all(st, keys.drop_last(), g);
        let (s2, b) = cache_delete(s1, g, keys.last());
        (s2, if b {
            n + 1
        } else {
            n
        })
    }
}

pub open spec fn bool_results(v: Seq<(String, bool)>) -> Seq<bool> {
    v.map_values(|p: (String, bool)| p.1)
}

pub open spec fn result_keys<T>(v: Seq<(String, T)>) -> Seq<Seq<char>> {
    v.map_values(|p: (String, T)| p.0@)
}

pub open spec fn value_results(v: Seq<(String, Option<serde_json::Value>)>) -> Seq<Option<serde_json::Value>> {
    v.map_values(|p: (String, Option<serde_json::Value>)| p.1)
}

#[derive(Debug)]
struct CacheEntry {
    group: String,
    key: String,
    value: serde_json::Value,
    expires_at: Option<u128>,
}

spec fn entry_view(e: CacheEntry) -> CacheEntryView {
    CacheEntryView { group: e.group@, key: e.key@, value: e.value, expires_at: e.expires_at }
}

spec fn entry_views(s: Seq<CacheEntry>) -> Seq<CacheEntryView> {
    s.map_values(|e: CacheEntry| entry_view(e))
}

#[derive(Debug)]
pub struct ObjectCache {
    groups: Vec<String>,
    entries: Vec<CacheEntry>,
}

fn copy_entry(e: &CacheEntry) -> (r: CacheEntry)
    ensures
        entry_view(r) == entry_view(*e),
{
    CacheEntry {
        group: copy_string(&e.group),
        key: copy_string(&e.key),
        value: clone_value(&e.value),
        expires_at: e.expires_at,
    }
}

proof fn lemma_find_entry(s: Seq<CacheEntryView>, g: Seq<char>, k: Seq<char>)
    ensures
        match find_entry(s, g, k) {
            Some(i) => 0 <= i < s.len() && s[i].group == g && s[i].key == k,
            None => forall|j: int| 0 <= j < s.len() ==> !(#[trigger] s[j].group == g && s[j].key == k),
        },
    decreases s.len(),
{
    if s.len() > 0 {
        lemma_find_entry(s.drop_last(), g, k);
        if find_entry(s, g, k) is None {
            assert forall|j: int| 0 <= j < s.len() implies !(#[trigger] s[j].group == g && s[j].key
                == k) by {
                if j < s.len() - 1 {
                    assert(s.drop_last()[j] == s[j]);
                }
            }
        }
    }
}

proof fn lemma_put_distinct(s: Seq<CacheEntryView>, e: CacheEntryView)
    requires
        entries_distinct(s),
    ensures
        entries_distinct(put_entry(s, e)),
{
    lemma_find_entry(s, e.group, e.key);
    let w = put_entry(s, e);
    assert forall|i: int, j: int| 0 <= i < j < w.len() implies !(w[i].group == w[j].group
        && w[i].key == w[j].key) by {
        match find_entry(s, e.group, e.key) {
            Some(x) => {
                if i == x {
                    assert(!(s[x].group == s[j].group && s[x].key == s[j].key));
                } else if j == x {
                    assert(!(s[i].group == s[x].group && s[i].key == s[x].key));
                }
            },
            None => {
                if j == s.len() {
                    assert(!(s[i].group == e.group && s[i].key == e.key));
                }
            },
        }
    }
}

proof fn lemma_filter_distinct(s: Seq<CacheEntryView>, p: spec_fn(CacheEntryView) -> bool)
    requires
        entries_distinct(s),
    ensures
        entries_distinct(s.filter(p)),
        forall|i: int| 0 <= i < s.filter(p).len() ==> s.contains(#[trigger] s.filter(p)[i]),
    decreases s.len(),
{
    reveal(Seq::filter);
    if s.len() > 0 {
        lemma_filter_distinct(s.drop_last(), p);
        let f = s.drop_last().filter(p);
        assert forall|i: int| 0 <= i < f.len() implies s.contains(#[trigger] f[i]) by {
            let j = choose|j: int| 0 <= j < s.drop_last().len() && s.drop_last()[j] == f[i];
            assert(s[j] == f[i]);
        }
        if p(s.last()) {
            let g = f.push(s.last());
            assert forall|i: int, j: int| 0 <= i < j < g.len() implies !(g[i].group == g[j].group
                && g[i].key == g[j].key) by {
                if j == f.len() {
                    let x = choose|x: int| 0 <= x < s.drop_last().len() && s.drop_last()[x] == f[i];
                    assert(s[x] == f[i]);
                }
            }
            assert forall|i: int| 0 <= i < g.len() implies s.contains(#[trigger] g[i]) by {
                if i == f.len() {
                    assert(s[s.len() - 1] == g[i]);
                }
            }
        }
    }
}

proof fn lemma_find_after_put(s: Seq<CacheEntryView>, e: CacheEntryView)
    ensures
        lookup_entry(put_entry(s, e), e.group, e.key) == Some(e),
    decreases s.len(),
{
    lemma_find_entry(s, e.group, e.key);
    match find_entry(s, e.group, e.key) {
        Some(i) => {
            let u = s.update(i, e);
            if i < s.len() - 1 {
                assert(find_entry(s.drop_last(), e.group, e.key) == Some(i));
                lemma_find_after_put(s.drop_last(), e);
                assert(s.drop_last().update(i, e) =~= u.drop_last());
                assert(u.last() == s.last());
                assert(find_entry(u, e.group, e.key) == find_entry(u.drop_last(), e.group, e.key));
                let j = find_entry(u.drop_last(), e.group, e.key)->0;
                lemma_find_entry(u.drop_last(), e.group, e.key);
                assert(u[j] == u.drop_last()[j]);
            } else {
                assert(u.last() == e);
            }
        },
        None => {},
    }
}

/// A value set without a time-to-live is what a later read gives back.
pub proof fn lemma_get_after_set(st: CacheState, g: Seq<char>, k: Seq<char>, v: serde_json::Value, now: u128)
    ensures
        cache_get(cache_set(st, g, k, v, None), g, k, now).1 == Some(v),
{
    lemma_find_after_put(st.entries, entry_of(g, k, v, None));
}

/// After a delete, a read finds nothing.
pub proof fn lemma_get_after_delete(st: CacheState, g: Seq<char>, k: Seq<char>, now: u128)
    ensures
        cache_get(cache_delete(st, g, k).0, g, k, now).1 is None,
{
    let d = drop_entry(st.entries, g, k);
    lemma_find_entry(d, g, k);
    if find_entry(d, g, k) is Some {
        let i = find_entry(d, g, k)->0;
        st.entries.lemma_filter_pred(other_key(g, k), i);
    }
}

/// Adding over a live entry changes nothing and reports false.
pub proof fn lemma_add_keeps_live(st: CacheState, g: Seq<char>, k: Seq<char>, v: serde_json::Value, exp: Option<u128>, now: u128)
    requires
        lookup_entry(st.entries, g, k) matches Some(e) && !is_expired(e, now),
    ensures
        !cache_add(st, g, k, v, exp, now).1,
        cache_add(st, g, k, v, exp, now).0.entries == st.entries,
{
}

impl ObjectCache {
    pub closed spec fn state(&self) -> CacheState {
        CacheState { groups: strs(self.groups@), entries: entry_views(self.entries@) }
    }

    /// Group names and entry keys are unique; every entry's group exists.
    pub closed spec fn wf(&self) -> bool {
        &&& names_distinct(self.state().groups)
        &&& entries_distinct(self.state().entries)
        &&& forall|i: int|
            0 <= i < self.state().entries.len() ==> self.state().groups.contains(
                (#[trigger] self.state().entries[i]).group,
            )
    }

    pub fn new() -> (r: Self)
        ensures
            r.wf(),
            r.state().groups == Seq::<Seq<char>>::empty(),
            r.state().entries == Seq::<CacheEntryView>::empty(),
    {
        let r = ObjectCache { groups: Vec::new(), entries: Vec::new() };
        assert(r.state().groups =~= Seq::<Seq<char>>::empty());
        assert(r.state().entries =~= Seq::<CacheEntryView>::empty());
        r
    }

    fn find(&self, g: &[char], k: &[char]) -> (r: Option<usize>)
        ensures
            match r {
                Some(i) => i < self.entries@.len() && find_entry(self.state().entries, g@, k@)
                    == Some(i as int),
                None => find_entry(self.state().entries, g@, k@) is None,
            },
    {
        let ghost s = self.state().entries;
        let mut i = self.entries.len();
        assert(s.subrange(0, i as int) =~= s);
        while i > 0
            invariant
                i <= self.entries@.len(),
                s == self.state().entries,
                find_entry(s, g@, k@) == find_entry(s.subrange(0, i as int), g@, k@),
            decreases i,
        {
            assert(s.subrange(0, i as int).last() == entry_view(self.entries@[i - 1]));
            let e = &self.entries[i - 1];
            if chars_eq(&chars_of(e.group.as_str()), g) && chars_eq(&chars_of(e.key.as_str()), k) {
                return Some(i - 1);
            }
            assert(s.subrange(0, i as int).drop_last() =~= s.subrange(0, i - 1));
            i -= 1;
        }
        None
    }

    fn ensure_group(&mut self, g: &[char])
        requires
            old(self).wf(),
        ensures
            final(self).wf(),
            final(self).state().groups == with_group(old(self).state().groups, g@),
            final(self).state().groups.contains(g@),
            final(self).state().entries == old(self).state().entries,
    {
        if !contains_string(&self.groups, g) {
            let ghost before = self.groups@;
            self.groups.push(string_of(g));
            assert(strs(self.groups@) =~= strs(before).push(g@));
            assert forall|i: int| 0 <= i < self.state().entries.len() implies self.state().groups.contains(
                (#[trigger] self.state().entries[i]).group,
            ) by {
                let j = choose|j: int| 0 <= j < strs(before).len() && strs(before)[j] == self.state().entries[i].group;
                assert(self.state().groups[j] == strs(before)[j]);
            }
            assert(self.state().groups[self.state().groups.len() - 1] == g@);
        }
    }

    /// Stores (or overwrites) an entry whose group exists.
    fn put(&mut self, e: CacheEntry)
        requires
            old(self).wf(),
            old(self).state().groups.contains(e.group@),
        ensures
            final(self).wf(),
            final(self).state().groups == old(self).state().groups,
            final(self).state().entries == put_entry(old(self).state().entries, entry_view(e)),
    {
        let ghost s = self.state().entries;
        let ghost ev = entry_view(e);
        proof {
            lemma_put_distinct(s, ev);
            lemma_find_entry(s, ev.group, ev.key);
        }
        let g = chars_of(e.group.as_str());
        let k = chars_of(e.key.as_str());
        match self.find(&g, &k) {
            Some(i) => {
                self.entries.set(i, e);
                assert(self.state().entries =~= s.update(i as int, ev));
            },
            None => {
                self.entries.push(e);
                assert(self.state().entries =~= s.push(ev));
            },
        }
        let ghost w = self.state().entries;
        assert forall|i: int| 0 <= i < w.len() implies self.state().groups.contains(
            (#[trigger] w[i]).group,
        ) by {
            if i < s.len() && w[i] == s[i] {
            }
        }
    }

    fn drop(&mut self, g: &[char], k: &[char])
        requires
            old(self).wf(),
        ensures
            final(self).wf(),
            final(self).state().groups == old(self).state().groups,
            final(self).state().entries == drop_entry(old(self).state().entries, g@, k@),
    {
        let ghost s = self.state().entries;
        let ghost p = other_key(g@, k@);
        let mut kept: Vec<CacheEntry> = Vec::new();
        let mut i: usize = 0;
        let n = self.entries.len();
        proof {
            reveal(Seq::filter);
            assert(s.subrange(0, 0) =~= Seq::<CacheEntryView>::empty());
            assert(entry_views(kept@) =~= Seq::<CacheEntryView>::empty());
        }
        while i < n
            invariant
                n == self.entries@.len(),
                s == self.state().entries,
                p == other_key(g@, k@),
                i <= n,
                entry_views(kept@) == s.subrange(0, i as int).filter(p),
            decreases n - i,
        {
            proof {
                reveal(Seq::filter);
                assert(s.subrange(0, i + 1).drop_last() =~= s.subrange(0, i as int));
                assert(s.subrange(0, i + 1).last() == entry_view(self.entries@[i as int]));
            }
            let e = &self.entries[i];
            if !(chars_eq(&chars_of(e.group.as_str()), g) && chars_eq(&chars_of(e.key.as_str()), k)) {
                let ghost before = kept@;
                kept.push(copy_entry(e));
                assert(entry_views(kept@) =~= entry_views(before).push(entry_view(self.entries@[i as int])));
            }
            i += 1;
        }
        assert(s.subrange(0, n as int) =~= s);
        proof {
            lemma_filter_distinct(s, p);
        }
        let ghost gs = self.state().groups;
        self.entries = kept;
        assert forall|x: int| 0 <= x < self.state().entries.len() implies self.state().groups.contains(
            (#[trigger] self.state().entries[x]).group,
        ) by {
            assert(s.contains(s.filter(p)[x]));
            let j = choose|j: int| 0 <= j < s.len() && s[j] == s.filter(p)[x];
        }
    }

    fn expired_at(e: &CacheEntry, now: u128) -> (r: bool)
        ensures
            r == is_expired(entry_view(*e), now),
    {
        match e.expires_at {
            Some(t) => now >= t,
            None => false,
        }
    }

    pub fn set_at(&mut self, key: &str, group: &str, value: serde_json::Value, ttl_nanos: Option<u128>, now: u128)
        requires
            old(self).wf(),
            ttl_nanos matches Some(d) ==> now + d <= u128::MAX,
        ensures
            final(self).wf(),
            final(self).state() == cache_set(old(self).state(), group@, key@, value, expiry(ttl_nanos, now)),
    {
        let g = chars_of(group);
        self.ensure_group(&g);
        let expires_at = match ttl_nanos {
            Some(d) => Some(now + d),
            None => None,
        };
        self.put(CacheEntry { group: string_of(&g), key: string_of(&chars_of(key)), value, expires_at });
    }

    pub fn add_at(&mut self, key: &str, group: &str, value: serde_json::Value, ttl_nanos: Option<u128>, now: u128) -> (r: bool)
        requires
            old(self).wf(),
            ttl_nanos matches Some(d) ==> now + d <= u128::MAX,
        ensures
            final(self).wf(),
            (final(self).state(), r) == cache_add(old(self).state(), group@, key@, value, expiry(ttl_nanos, now), now),
    {
        let g = chars_of(group);
        let k = chars_of(key);
        let ghost st = self.state();
        self.ensure_group(&g);
        match self.find(&g, &k) {
            Some(i) => {
                assert(self.state().entries[i as int] == entry_view(self.entries@[i as int]));
                if !Self::expired_at(&self.entries[i], now) {
                    return false;
                }
            },
            None => {},
        }
        let expires_at = match ttl_nanos {
            Some(d) => Some(now + d),
            None => None,
        };
        self.put(CacheEntry { group: string_of(&g), key: string_of(&k), value, expires_at });
        true
    }

    pub fn replace_at(&mut self, key: &str, group: &str, value: serde_json::Value, ttl_nanos: Option<u128>, now: u128) -> (r: bool)
        requires
            old(self).wf(),
            ttl_nanos matches Some(d) ==> now + d <= u128::MAX,
        ensures
            final(self).wf(),
            (final(self).state(), r) == cache_replace(old(self).state(), group@, key@, value, expiry(ttl_nanos, now), now),
    {
        let g = chars_of(group);
        let k = chars_of(key);
        self.ensure_group(&g);
        match self.find(&g, &k) {
            Some(i) => {
                assert(self.state().entries[i as int] == entry_view(self.entries@[i as int]));
                if Self::expired_at(&self.entries[i], now) {
                    self.drop(&g, &k);
                    return false;
                }
            },
            None => {
                return false;
            },
        }
        let expires_at = match ttl_nanos {
            Some(d) => Some(now + d),
            None => None,
        };
        self.put(CacheEntry { group: string_of(&g), key: string_of(&k), value, expires_at });
        true
    }

    pub fn get_at(&mut self, key: &str, group: &str, now: u128) -> (r: Option<serde_json::Value>)
        requires
            old(self).wf(),
        ensures
            final(self).wf(),
            (final(self).state(), r) == cache_get(old(self).state(), group@, key@, now),
    {
        let g = chars_of(group);
        let k = chars_of(key);
        match self.find(&g, &k) {
            Some(i) => {
                assert(self.state().entries[i as int] == entry_view(self.entries@[i as int]));
                if Self::expired_at(&self.entries[i], now) {
                    self.drop(&g, &k);
                    None
                } else {
                    Some(clone_value(&self.entries[i].value))
                }
            },
            None => None,
        }
    }

    pub fn delete(&mut self, key: &str, group: &str) -> (r: bool)
        requires
            old(self).wf(),
        ensures
            final(self).wf(),
            (final(self).state(), r) == cache_delete(old(self).state(), group@, key@),
    {
        let g = chars_of(group);
        let k = chars_of(key);
        let found = self.find(&g, &k).is_some();
        self.drop(&g, &k);
        found
    }

    /// Applies the counter step to a live numeric entry; `None` (and the
    /// entry dropped) once expired, `None` (unchanged) when not numeric.
    fn counter_at(&mut self, key: &str, group: &str, offset: u64, now: u128, up: bool) -> (r: Option<i64>)
        requires
            old(self).wf(),
        ensures
            final(self).wf(),
            counter_outcome(old(self).state(), final(self).state(), r, group@, key@, offset, now, up),
    {
        let g = chars_of(group);
        let k = chars_of(key);
        match self.find(&g, &k) {
            Some(i) => {
                assert(self.state().entries[i as int] == entry_view(self.entries@[i as int]));
                if Self::expired_at(&self.entries[i], now) {
                    self.drop(&g, &k);
                    return None;
                }
                let v = &self.entries[i].value;
                let text = value_as_str(v);
                let current = match parse_cache_number(
                    value_as_i64(v),
                    value_as_u64(v),
                    match &text {
                        Some(t) => Some(t.as_str()),
                        None => None,
                    },
                ) {
                    Some(c) => c,
                    None => {
                        return None;
                    },
                };
                let updated = if up {
                    incr_value(current, offset)
                } else {
                    decr_value(current, offset)
                };
                let expires_at = self.entries[i].expires_at;
                let nv = value_from_i64(updated);
                let ghost nvv = nv;
                let ghost before = self.state().entries;
                proof {
                    lemma_find_entry(self.state().entries, g@, k@);
                    assert(self.state().groups.contains(before[i as int].group));
                }
                self.put(CacheEntry { group: string_of(&g), key: string_of(&k), value: nv, expires_at });
                assert(self.state().entries == put_entry(before, entry_of(group@, key@, nvv, before[i as int].expires_at)));
                assert(updated == (if up {
                    incr_step(current, offset)
                } else {
                    decr_step(current, offset)
                }));
                Some(updated)
            },
            None => None,
        }
    }

    pub fn incr_at(&mut self, key: &str, group: &str, offset: u64, now: u128) -> (r: Option<i64>)
        requires
            old(self).wf(),
        ensures
            final(self).wf(),
            counter_outcome(old(self).state(), final(self).state(), r, group@, key@, offset, now, true),
    {
        self.counter_at(key, group, offset, now, true)
    }

    pub fn decr_at(&mut self, key: &str, group: &str, offset: u64, now: u128) -> (r: Option<i64>)
        requires
            old(self).wf(),
        ensures
            final(self).wf(),
            counter_outcome(old(self).state(), final(self).state(), r, group@, key@, offset, now, false),
    {
        self.counter_at(key, group, offset, now, false)
    }

    /// Removes a group with all its entries; true when the group existed.
    pub fn flush_group(&mut self, group: &str) -> (r: bool)
        requires
            old(self).wf(),
        ensures
            final(self).wf(),
            r == old(self).state().groups.contains(group@),
            final(self).state().groups == old(self).state().groups.filter(not_name(group@)),
            final(self).state().entries == old(self).state().entries.filter(other_group(group@)),
    {
        let g = chars_of(group);
        let ghost gs = self.state().groups;
        let ghost es = self.state().entries;
        let existed = contains_string(&self.groups, &g);
        let mut names: Vec<String> = Vec::new();
        let mut i: usize = 0;
        proof {
            reveal(Seq::filter);
            assert(gs.subrange(0, 0) =~= Seq::<Seq<char>>::empty());
            assert(strs(names@) =~= Seq::<Seq<char>>::empty());
        }
        while i < self.groups.len()
            invariant
                gs == self.state().groups,
                i <= self.groups@.len(),
                strs(names@) == gs.subrange(0, i as int).filter(not_name(g@)),
            decreases self.groups@.len() - i,
        {
            proof {
                reveal(Seq::filter);
                assert(gs.subrange(0, i + 1).drop_last() =~= gs.subrange(0, i as int));
            }
            if !chars_eq(&chars_of(self.groups[i].as_str()), &g) {
                let ghost before = names@;
                names.push(copy_string(&self.groups[i]));
                assert(strs(names@) =~= strs(before).push(gs[i as int]));
            }
            i += 1;
        }
        assert(gs.subrange(0, i as int) =~= gs);
        let mut kept: Vec<CacheEntry> = Vec::new();
        let mut j: usize = 0;
        proof {
            reveal(Seq::filter);
            assert(es.subrange(0, 0) =~= Seq::<CacheEntryView>::empty());
            assert(entry_views(kept@) =~= Seq::<CacheEntryView>::empty());
        }
        while j < self.entries.len()
            invariant
                es == self.state().entries,
                j <= self.entries@.len(),
                entry_views(kept@) == es.subrange(0, j as int).filter(other_group(g@)),
            decreases self.entries@.len() - j,
        {
            proof {
                reveal(Seq::filter);
                assert(es.subrange(0, j + 1).drop_last() =~= es.subrange(0, j as int));
                assert(es.subrange(0, j + 1).last() == entry_view(self.entries@[j as int]));
            }
            if !chars_eq(&chars_of(self.entries[j].group.as_str()), &g) {
                let ghost before = kept@;
                kept.push(copy_entry(&self.entries[j]));
                assert(entry_views(kept@) =~= entry_views(before).push(entry_view(self.entries@[j as int])));
            }
            j += 1;
        }
        assert(es.subrange(0, j as int) =~= es);
        proof {
            lemma_filter_distinct(es, other_group(g@));
            lemma_names_filter(gs, not_name(g@));
        }
        self.groups = names;
        self.entries = kept;
        proof {
            let f = es.filter(other_group(g@));
            assert forall|x: int| 0 <= x < f.len() implies self.state().groups.contains(#[trigger] f[x].group) by {
                es.lemma_filter_pred(other_group(g@), x);
                let y = choose|y: int| 0 <= y < es.len() && es[y] == f[x];
                let z = choose|z: int| 0 <= z < gs.len() && gs[z] == es[y].group;
                gs.lemma_filter_contains(not_name(g@), z);
            }
        }
        existed
    }

    fn copy_pair_value(v: &serde_json::Value) -> (r: serde_json::Value)
        ensures
            r == *v,
    {
        clone_value(v)
    }

    pub fn set_multiple_at(&mut self, entries: &[(String, serde_json::Value)], group: &str, ttl_nanos: Option<u128>, now: u128) -> (r: usize)
        requires
            old(self).wf(),
            ttl_nanos matches Some(d) ==> now + d <= u128::MAX,
        ensures
            final(self).wf(),
            r == entries@.len(),
            final(self).state() == set_all(old(self).state(), value_pairs(entries@), group@, expiry(ttl_nanos, now)),
    {
        let ghost list = value_pairs(entries@);
        let ghost st0 = self.state();
        let mut k: usize = 0;
        assert(list.subrange(0, 0) =~= Seq::<(Seq<char>, serde_json::Value)>::empty());
        while k < entries.len()
            invariant
                list == value_pairs(entries@),
                k <= entries@.len(),
                self.wf(),
                ttl_nanos matches Some(d) ==> now + d <= u128::MAX,
                self.state() == set_all(st0, list.subrange(0, k as int), group@, expiry(ttl_nanos, now)),
            decreases entries@.len() - k,
        {
            assert(list.subrange(0, k + 1).drop_last() =~= list.subrange(0, k as int));
            assert(list.subrange(0, k + 1).last() == (entries@[k as int].0@, entries@[k as int].1));
            let v = Self::copy_pair_value(&entries[k].1);
            self.set_at(entries[k].0.as_str(), group, v, ttl_nanos, now);
            k += 1;
        }
        assert(list.subrange(0, k as int) =~= list);
        entries.len()
    }

    pub fn add_multiple_at(&mut self, entries: &[(String, serde_json::Value)], group: &str, ttl_nanos: Option<u128>, now: u128) -> (r: KeyedList<bool>)
        requires
            old(self).wf(),
            ttl_nanos matches Some(d) ==> now + d <= u128::MAX,
        ensures
            final(self).wf(),
            result_keys(r.entries@) == value_pairs(entries@).map_values(|p: (Seq<char>, serde_json::Value)| p.0),
            (final(self).state(), bool_results(r.entries@)) == add_all(old(self).state(), value_pairs(entries@), group@, expiry(ttl_nanos, now), now),
    {
        let ghost list = value_pairs(entries@);
        let ghost st0 = self.state();
        let mut out: Vec<(String, bool)> = Vec::new();
        let mut k: usize = 0;
        assert(list.subrange(0, 0) =~= Seq::<(Seq<char>, serde_json::Value)>::empty());
        assert(bool_results(out@) =~= Seq::<bool>::empty());
        assert(result_keys(out@) =~= Seq::<Seq<char>>::empty());
        while k < entries.len()
            invariant
                list == value_pairs(entries@),
                k <= entries@.len(),
                self.wf(),
                ttl_nanos matches Some(d) ==> now + d <= u128::MAX,
                (self.state(), bool_results(out@)) == add_all(st0, list.subrange(0, k as int), group@, expiry(ttl_nanos, now), now),
                result_keys(out@) == list.subrange(0, k as int).map_values(|p: (Seq<char>, serde_json::Value)| p.0),
            decreases entries@.len() - k,
        {
            assert(list.subrange(0, k + 1).drop_last() =~= list.subrange(0, k as int));
            assert(list.subrange(0, k + 1).last() == (entries@[k as int].0@, entries@[k as int].1));
            let v = Self::copy_pair_value(&entries[k].1);
            let b = self.add_at(entries[k].0.as_str(), group, v, ttl_nanos, now);
            let ghost before = out@;
            out.push((copy_string(&entries[k].0), b));
            assert(bool_results(out@) =~= bool_results(before).push(b));
            assert(result_keys(out@) =~= result_keys(before).push(entries@[k as int].0@));
            k += 1;
            assert(result_keys(out@) =~= list.subrange(0, k as int).map_values(|p: (Seq<char>, serde_json::Value)| p.0));
        }
        assert(list.subrange(0, k as int) =~= list);
        KeyedList { entries: out }
    }

    pub fn replace_multiple_at(&mut self, entries: &[(String, serde_json::Value)], group: &str, ttl_nanos: Option<u128>, now: u128) -> (r: KeyedList<bool>)
        requires
            old(self).wf(),
            ttl_nanos matches Some(d) ==> now + d <= u128::MAX,
        ensures
            final(self).wf(),
            result_keys(r.entries@) == value_pairs(entries@).map_values(|p: (Seq<char>, serde_json::Value)| p.0),
            (final(self).state(), bool_results(r.entries@)) == replace_all(old(self).state(), value_pairs(entries@), group@, expiry(ttl_nanos, now), now),
    {
        let ghost list = value_pairs(entries@);
        let ghost st0 = self.state();
        let mut out: Vec<(String, bool)> = Vec::new();
        let mut k: usize = 0;
        assert(list.subrange(0, 0) =~= Seq::<(Seq<char>, serde_json::Value)>::empty());
        assert(bool_results(out@) =~= Seq::<bool>::empty());
        assert(result_keys(out@) =~= Seq::<Seq<char>>::empty());
        while k < entries.len()
            invariant
                list == value_pairs(entries@),
                k <= entries@.len(),
                self.wf(),
                ttl_nanos matches Some(d) ==> now + d <= u128::MAX,
                (self.state(), bool_results(out@)) == replace_all(st0, list.subrange(0, k as int), group@, expiry(ttl_nanos, now), now),
                result_keys(out@) == list.subrange(0, k as int).map_values(|p: (Seq<char>, serde_json::Value)| p.0),
            decreases entries@.len() - k,
        {
            assert(list.subrange(0, k + 1).drop_last() =~= list.subrange(0, k as int));
            assert(list.subrange(0, k + 1).last() == (entries@[k as int].0@, entries@[k as int].1));
            let v = Self::copy_pair_value(&entries[k].1);
            let b = self.replace_at(entries[k].0.as_str(), group, v, ttl_nanos, now);
            let ghost before = out@;
            out.push((copy_string(&entries[k].0), b));
            assert(bool_results(out@) =~= bool_results(before).push(b));
            assert(result_keys(out@) =~= result_keys(before).push(entries@[k as int].0@));
            k += 1;
            assert(result_keys(out@) =~= list.subrange(0, k as int).map_values(|p: (Seq<char>, serde_json::Value)| p.0));
        }
        assert(list.subrange(0, k as int) =~= list);
        KeyedList { entries: out }
    }

    pub fn get_multiple_at(&mut self, keys: &[String], group: &str, now: u128) -> (r: KeyedList<Option<serde_json::Value>>)
        requires
            old(self).wf(),
        ensures
            final(self).wf(),
            result_keys(r.entries@) == strs(keys@),
            (final(self).state(), value_results(r.entries@)) == get_all(old(self).state(), strs(keys@), group@, now),
    {
        let ghost ks = strs(keys@);
        let ghost st0 = self.state();
        let mut out: Vec<(String, Option<serde_json::Value>)> = Vec::new();
        let mut k: usize = 0;
        assert(ks.subrange(0, 0) =~= Seq::<Seq<char>>::empty());
        assert(value_results(out@) =~= Seq::<Option<serde_json::Value>>::empty());
        assert(result_keys(out@) =~= Seq::<Seq<char>>::empty());
        while k < keys.len()
            invariant
                ks == strs(keys@),
                k <= keys@.len(),
                self.wf(),
                (self.state(), value_results(out@)) == get_all(st0, ks.subrange(0, k as int), group@, now),
                result_keys(out@) == ks.subrange(0, k as int),
            decreases keys@.len() - k,
        {
            assert(ks.subrange(0, k + 1).drop_last() =~= ks.subrange(0, k as int));
            assert(ks.subrange(0, k + 1).last() == keys@[k as int]@);
            let v = self.get_at(keys[k].as_str(), group, now);
            let ghost vv = v;
            let ghost before = out@;
            out.push((copy_string(&keys[k]), v));
            assert(value_results(out@) =~= value_results(before).push(vv));
            assert(result_keys(out@) =~= result_keys(before).push(keys@[k as int]@));
            k += 1;
        }
        assert(ks.subrange(0, k as int) =~= ks);
        KeyedList { entries: out }
    }

    pub fn delete_multiple(&mut self, keys: &[String], group: &str) -> (r: usize)
        requires
            old(self).wf(),
        ensures
            final(self).wf(),
            (final(self).state(), r as nat) == delete_all(old(self).state(), strs(keys@), group@),
    {
        let ghost ks = strs(keys@);
        let ghost st0 = self.state();
        let mut count: usize = 0;
        let mut k: usize = 0;
        assert(ks.subrange(0, 0) =~= Seq::<Seq<char>>::empty());
        while k < keys.len()
            invariant
                ks == strs(keys@),
                k <= keys@.len(),
                count <= k,
                self.wf(),
                (self.state(), count as nat) == delete_all(st0, ks.subrange(0, k as int), group@),
            decreases keys@.len() - k,
        {
            assert(ks.subrange(0, k + 1).drop_last() =~= ks.subrange(0, k as int));
            assert(ks.subrange(0, k + 1).last() == keys@[k as int]@);
            if self.delete(keys[k].as_str(), group) {
                count += 1;
            }
            k += 1;
        }
        assert(ks.subrange(0, k as int) =~= ks);
        count
    }

    // ---- the same, reading the system clock ----

    pub fn set(&mut self, key: &str, group: &str, value: serde_json::Value, ttl: Option<std::time::Duration>)
        requires
            old(self).wf(),
        ensures
            final(self).wf(),
            exists|now: u128|
                now <= max_nanos() && final(self).state() == #[trigger] cache_set(old(self).state(), group@, key@, value, expiry(ttl_view(ttl), now)),
    {
        let now = now_nanos();
        let d = ttl_nanos(ttl);
        self.set_at(key, group, value, d, now);
    }

    pub fn add(&mut self, key: &str, group: &str, value: serde_json::Value, ttl: Option<std::time::Duration>) -> (r: bool)
        requires
            old(self).wf(),
        ensures
            final(self).wf(),
            exists|now: u128|
                now <= max_nanos() && (final(self).state(), r) == #[trigger] cache_add(old(self).state(), group@, key@, value, expiry(ttl_view(ttl), now), now),
    {
        let now = now_nanos();
        let d = ttl_nanos(ttl);
        self.add_at(key, group, value, d, now)
    }

    pub fn replace(&mut self, key: &str, group: &str, value: serde_json::Value, ttl: Option<std::time::Duration>) -> (r: bool)
        requires
            old(self).wf(),
        ensures
            final(self).wf(),
            exists|now: u128|
                now <= max_nanos() && (final(self).state(), r) == #[trigger] cache_replace(old(self).state(), group@, key@, value, expiry(ttl_view(ttl), now), now),
    {
        let now = now_nanos();
        let d = ttl_nanos(ttl);
        self.replace_at(key, group, value, d, now)
    }

    pub fn get(&mut self, key: &str, group: &str) -> (r: Option<serde_json::Value>)
        requires
            old(self).wf(),
        ensures
            final(self).wf(),
            exists|now: u128| (final(self).state(), r) == #[trigger] cache_get(old(self).state(), group@, key@, now),
    {
        let now = now_nanos();
        self.get_at(key, group, now)
    }

    pub fn get_multiple(&mut self, keys: &[String], group: &str) -> (r: KeyedList<Option<serde_json::Value>>)
        requires
            old(self).wf(),
        ensures
            final(self).wf(),
            result_keys(r.entries@) == strs(keys@),
            exists|now: u128| (final(self).state(), value_results(r.entries@)) == #[trigger] get_all(old(self).state(), strs(keys@), group@, now),
    {
        let now = now_nanos();
        self.get_multiple_at(keys, group, now)
    }

    pub fn set_multiple(&mut self, entries: &[(String, serde_json::Value)], group: &str, ttl: Option<std::time::Duration>) -> (r: usize)
        requires
            old(self).wf(),
        ensures
            final(self).wf(),
            r == entries@.len(),
            exists|now: u128| now <= max_nanos() && final(self).state() == #[trigger] set_all(old(self).state(), value_pairs(entries@), group@, expiry(ttl_view(ttl), now)),
    {
        let now = now_nanos();
        let d = ttl_nanos(ttl);
        self.set_multiple_at(entries, group, d, now)
    }

    pub fn add_multiple(&mut self, entries: &[(String, serde_json::Value)], group: &str, ttl: Option<std::time::Duration>) -> (r: KeyedList<bool>)
        requires
            old(self).wf(),
        ensures
            final(self).wf(),
            result_keys(r.entries@) == value_pairs(entries@).map_values(|p: (Seq<char>, serde_json::Value)| p.0),
            exists|now: u128| now <= max_nanos() && (final(self).state(), bool_results(r.entries@)) == #[trigger] add_all(old(self).state(), value_pairs(entries@), group@, expiry(ttl_view(ttl), now), now),
    {
        let now = now_nanos();
        let d = ttl_nanos(ttl);
        self.add_multiple_at(entries, group, d, now)
    }

    pub fn replace_multiple(&mut self, entries: &[(String, serde_json::Value)], group: &str, ttl: Option<std::time::Duration>) -> (r: KeyedList<bool>)
        requires
            old(self).wf(),
        ensures
            final(self).wf(),
            result_keys(r.entries@) == value_pairs(entries@).map_values(|p: (Seq<char>, serde_json::Value)| p.0),
            exists|now: u128| now <= max_nanos() && (final(self).state(), bool_results(r.entries@)) == #[trigger] replace_all(old(self).state(), value_pairs(entries@), group@, expiry(ttl_view(ttl), now), now),
    {
        let now = now_nanos();
        let d = ttl_nanos(ttl);
        self.replace_multiple_at(entries, group, d, now)
    }

    pub fn incr(&mut self, key: &str, group: &str, offset: u64) -> (r: Option<i64>)
        requires
            old(self).wf(),
        ensures
            final(self).wf(),
            final(self).state().groups == old(self).state().groups,
            exists|now: u128|
                #[trigger] counter_outcome(old(self).state(), final(self).state(), r, group@, key@, offset, now, true),
    {
        let now = now_nanos();
        let r = self.incr_at(key, group, offset, now);
        assert(counter_outcome(old(self).state(), self.state(), r, group@, key@, offset, now, true));
        r
    }

    pub fn decr(&mut self, key: &str, group: &str, offset: u64) -> (r: Option<i64>)
        requires
            old(self).wf(),
        ensures
            final(self).wf(),
            final(self).state().groups == old(self).state().groups,
            exists|now: u128|
                #[trigger] counter_outcome(old(self).state(), final(self).state(), r, group@, key@, offset, now, false),
    {
        let now = now_nanos();
        let r = self.decr_at(key, group, offset, now);
        assert(counter_outcome(old(self).state(), self.state(), r, group@, key@, offset, now, false));
        r
    }

    pub fn flush_all(&mut self)
        ensures
            final(self).wf(),
            final(self).state().groups == Seq::<Seq<char>>::empty(),
            final(self).state().entries == Seq::<CacheEntryView>::empty(),
    {
        self.groups = Vec::new();
        self.entries = Vec::new();
        assert(self.state().groups =~= Seq::<Seq<char>>::empty());
        assert(self.state().entries =~= Seq::<CacheEntryView>::empty());
    }
}

proof fn lemma_names_filter(s: Seq<Seq<char>>, p: spec_fn(Seq<char>) -> bool)
    requires
        names_distinct(s),
    ensures
        names_distinct(s.filter(p)),
    decreases s.len(),
{
    reveal(Seq::filter);
    if s.len() > 0 {
        lemma_names_filter(s.drop_last(), p);
        let f = s.drop_last().filter(p);
        if p(s.last()) {
            let g = f.push(s.last());
            assert forall|i: int, j: int| 0 <= i < j < g.len() implies g[i] != g[j] by {
                if j == f.len() {
                    assert(f.contains(f[i]));
                    s.drop_last().lemma_filter_contains_rev(p, f[i]);
                    let x = choose|x: int| 0 <= x < s.drop_last().len() && s.drop_last()[x] == f[i];
                    assert(s[x] == f[i]);
                }
            }
        }
    }
}

impl Default for ObjectCache {
    fn default() -> (r: Self)
        ensures
            r.wf(),
            r.state().groups == Seq::<Seq<char>>::empty(),
            r.state().entries == Seq::<CacheEntryView>::empty(),
    {
        ObjectCache::new()
    }
}

} // verus!
