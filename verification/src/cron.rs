//! WP-Cron: a queue of scheduled events kept in timestamp order, the run
//! lock with its timeout, and the `doing_wp_cron` request token.

use vstd::prelude::*;
use std::time::{Duration, SystemTime};
use crate::clock::{duration_nanos, duration_since, elapsed_since, nanos_of, system_now};
use crate::text::{
    chars_of, chars_eq, copy_range, first_index_of, find_char, split, split_char, string_of,
    strs, trim, trim_chars, views,
};

verus! {

/// The lock has run out when the clock gives no elapsed time (the lock
/// lies in the future) or at least `timeout_nanos` have passed.
pub open spec fn expired_after(elapsed_nanos: Option<u128>, timeout_nanos: u128) -> bool {
    match elapsed_nanos {
        Some(e) => e >= timeout_nanos,
        None => true,
    }
}

pub fn lock_expired(elapsed_nanos: Option<u128>, timeout_nanos: u128) -> (r: bool)
    ensures
        r == expired_after(elapsed_nanos, timeout_nanos),
{
    match elapsed_nanos {
        Some(e) => e >= timeout_nanos,
        None => true,
    }
}

/// Whether cron may run when the clock reads `now`: always without a
/// lock; with one, when the time since the lock is at least `timeout`
/// (or the lock lies after `now`).
pub open spec fn run_allowed(lock: Option<SystemTime>, timeout: Duration, now: SystemTime) -> bool {
    match lock {
        None => true,
        Some(t) => expired_after(
            match elapsed_since(now, t) {
                Some(d) => Some(duration_nanos(d)),
                None => None,
            },
            duration_nanos(timeout),
        ),
    }
}

/// Whether cron may run: always without a lock; with one, when the lock
/// is older than `timeout` by the system clock (or lies in the future).
pub fn should_run_cron(lock_acquired_at: Option<SystemTime>, timeout: Duration) -> (r: bool)
    ensures
        lock_acquired_at is None ==> r,
        exists|now: SystemTime| r == #[trigger] run_allowed(lock_acquired_at, timeout, now),
{
    match lock_acquired_at {
        None => {
            proof {
                let w: SystemTime = vstd::pervasive::arbitrary();
                assert(run_allowed(lock_acquired_at, timeout, w));
            }
            true
        },
        Some(locked_at) => {
            let now = system_now();
            let elapsed = match duration_since(now, locked_at) {
                Some(d) => Some(nanos_of(d)),
                None => None,
            };
            let r = lock_expired(elapsed, nanos_of(timeout));
            assert(r == run_allowed(lock_acquired_at, timeout, now));
            r
        },
    }
}

#[derive(Debug, Clone, PartialEq, Eq)]
pub struct CronEvent {
    pub hook: String,
    pub timestamp: u64,
    pub schedule: Option<String>,
    pub args: Vec<String>,
}

pub struct EventView {
    pub hook: Seq<char>,
    pub timestamp: u64,
    pub schedule: Option<Seq<char>>,
    pub args: Seq<Seq<char>>,
}

impl View for CronEvent {
    type V = EventView;

    open spec fn view(&self) -> EventView {
        EventView {
            hook: self.hook@,
            timestamp: self.timestamp,
            schedule: match self.schedule {
                Some(s) => Some(s@),
                None => None,
            },
            args: strs(self.args@),
        }
    }
}

pub open spec fn event_views(s: Seq<CronEvent>) -> Seq<EventView> {
    s.map_values(|e: CronEvent| e@)
}

/// Timestamps never decrease along the queue.
pub open spec fn time_ordered(s: Seq<EventView>) -> bool {
    forall|i: int, j: int| 0 <= i <= j < s.len() ==> s[i].timestamp <= s[j].timestamp
}

/// Index of the first event later than `t` (the length if none is).
pub open spec fn first_after(s: Seq<EventView>, t: u64) -> int
    decreases s.len(),
{
    if s.len() == 0 {
        0
    } else if s[0].timestamp > t {
        0
    } else {
        1 + first_after(s.drop_first(), t)
    }
}

pub proof fn lemma_first_after(s: Seq<EventView>, t: u64)
    ensures
        0 <= first_after(s, t) <= s.len(),
        forall|i: int| 0 <= i < first_after(s, t) ==> (#[trigger] s[i]).timestamp <= t,
        first_after(s, t) < s.len() ==> s[first_after(s, t)].timestamp > t,
    decreases s.len(),
{
    if s.len() > 0 && s[0].timestamp <= t {
        lemma_first_after(s.drop_first(), t);
        assert forall|i: int| 0 <= i < first_after(s, t) implies (#[trigger] s[i]).timestamp <= t by {
            if i > 0 {
                assert(s[i] == s.drop_first()[i - 1]);
            }
        }
    }
}

/// In a time-ordered queue, the events due at `now` are exactly those up
/// to `first_after(s, now)`: all of them are due and none after them is.
pub proof fn lemma_due_partition(s: Seq<EventView>, now: u64)
    requires
        time_ordered(s),
    ensures
        forall|i: int| 0 <= i < first_after(s, now) ==> (#[trigger] s[i]).timestamp <= now,
        forall|i: int| first_after(s, now) <= i < s.len() ==> (#[trigger] s[i]).timestamp > now,
{
    lemma_first_after(s, now);
    let f = first_after(s, now);
    assert forall|i: int| f <= i < s.len() implies (#[trigger] s[i]).timestamp > now by {
        assert(s[f].timestamp <= s[i].timestamp);
    }
}

pub open spec fn is_due(now: u64) -> spec_fn(EventView) -> bool {
    |e: EventView| e.timestamp <= now
}

pub open spec fn is_pending(now: u64) -> spec_fn(EventView) -> bool {
    |e: EventView| e.timestamp > now
}

/// Filtering a sequence whose first `f` elements pass and the rest fail
/// keeps exactly those `f`.
proof fn lemma_filter_prefix(s: Seq<EventView>, p: spec_fn(EventView) -> bool, f: int)
    requires
        0 <= f <= s.len(),
        forall|i: int| 0 <= i < f ==> p(#[trigger] s[i]),
        forall|i: int| f <= i < s.len() ==> !p(#[trigger] s[i]),
    ensures
        s.filter(p) == s.subrange(0, f),
    decreases s.len(),
{
    reveal(Seq::filter);
    if s.len() > 0 {
        let d = s.drop_last();
        if f == s.len() {
            assert forall|i: int| 0 <= i < f - 1 implies p(#[trigger] d[i]) by {
                assert(d[i] == s[i]);
            }
            lemma_filter_prefix(d, p, f - 1);
            assert(p(s[s.len() - 1]));
            assert(s.subrange(0, f) =~= d.subrange(0, f - 1).push(s.last()));
        } else {
            assert forall|i: int| 0 <= i < f implies p(#[trigger] d[i]) by {
                assert(d[i] == s[i]);
            }
            assert forall|i: int| f <= i < d.len() implies !p(#[trigger] d[i]) by {
                assert(d[i] == s[i]);
            }
            lemma_filter_prefix(d, p, f);
            assert(!p(s[s.len() - 1]));
            assert(d.subrange(0, f) =~= s.subrange(0, f));
        }
    }
}

/// Filtering a sequence whose first `f` elements fail and the rest pass
/// keeps exactly the rest.
proof fn lemma_filter_suffix(s: Seq<EventView>, p: spec_fn(EventView) -> bool, f: int)
    requires
        0 <= f <= s.len(),
        forall|i: int| 0 <= i < f ==> !p(#[trigger] s[i]),
        forall|i: int| f <= i < s.len() ==> p(#[trigger] s[i]),
    ensures
        s.filter(p) == s.subrange(f, s.len() as int),
    decreases s.len(),
{
    reveal(Seq::filter);
    if s.len() > 0 {
        let d = s.drop_last();
        if f == s.len() {
            assert forall|i: int| 0 <= i < f - 1 implies !p(#[trigger] d[i]) by {
                assert(d[i] == s[i]);
            }
            lemma_filter_suffix(d, p, f - 1);
            assert(!p(s[s.len() - 1]));
            assert(d.subrange(f - 1, d.len() as int) =~= Seq::<EventView>::empty());
            assert(s.subrange(f, s.len() as int) =~= Seq::<EventView>::empty());
        } else {
            assert forall|i: int| 0 <= i < f implies !p(#[trigger] d[i]) by {
                assert(d[i] == s[i]);
            }
            assert forall|i: int| f <= i < d.len() implies p(#[trigger] d[i]) by {
                assert(d[i] == s[i]);
            }
            lemma_filter_suffix(d, p, f);
            assert(p(s[s.len() - 1]));
            assert(s.subrange(f, s.len() as int) =~= d.subrange(f, d.len() as int).push(s.last()));
        }
    }
}

/// In a time-ordered queue, `due_events`' split at `first_after` hands
/// out exactly the events due at `now` and keeps exactly the later ones,
/// each in queue order.
pub proof fn lemma_due_events_filter(s: Seq<EventView>, now: u64)
    requires
        time_ordered(s),
    ensures
        s.subrange(0, first_after(s, now)) == s.filter(is_due(now)),
        s.subrange(first_after(s, now), s.len() as int) == s.filter(is_pending(now)),
{
    lemma_due_partition(s, now);
    lemma_first_after(s, now);
    let f = first_after(s, now);
    assert forall|i: int| 0 <= i < f implies (#[trigger] is_due(now)(s[i])) by {
        assert(s[i].timestamp <= now);
    }
    assert forall|i: int| f <= i < s.len() implies !(#[trigger] is_due(now)(s[i])) by {
        assert(s[i].timestamp > now);
    }
    lemma_filter_prefix(s, is_due(now), f);
    assert forall|i: int| 0 <= i < f implies !(#[trigger] is_pending(now)(s[i])) by {
        assert(s[i].timestamp <= now);
    }
    assert forall|i: int| f <= i < s.len() implies (#[trigger] is_pending(now)(s[i])) by {
        assert(s[i].timestamp > now);
    }
    lemma_filter_suffix(s, is_pending(now), f);
}

/// Scheduling puts the new event after every queued event due no later
/// than it and before every later one: events with equal timestamps stay
/// in the order they were scheduled.
pub proof fn lemma_schedule_stable(s: Seq<EventView>, e: EventView)
    requires
        time_ordered(s),
    ensures
        s.insert(first_after(s, e.timestamp), e) == s.filter(is_due(e.timestamp)).push(e) + s.filter(
            is_pending(e.timestamp),
        ),
{
    lemma_due_events_filter(s, e.timestamp);
    lemma_first_after(s, e.timestamp);
    let f = first_after(s, e.timestamp);
    assert(s.insert(f, e) =~= s.subrange(0, f).push(e) + s.subrange(f, s.len() as int));
}

pub open spec fn at_time(t: u64) -> spec_fn(EventView) -> bool {
    |e: EventView| e.timestamp == t
}

/// `q` holds the events of `pending` (listed in the order they were
/// scheduled) sorted by time, events of one timestamp in scheduling order.
pub open spec fn stable_queue(q: Seq<EventView>, pending: Seq<EventView>) -> bool {
    &&& time_ordered(q)
    &&& forall|t: u64| #[trigger] q.filter(at_time(t)) == pending.filter(at_time(t))
}

proof fn lemma_filter_push(s: Seq<EventView>, e: EventView, p: spec_fn(EventView) -> bool)
    ensures
        s.push(e).filter(p) == if p(e) {
            s.filter(p).push(e)
        } else {
            s.filter(p)
        },
{
    reveal(Seq::filter);
    assert(s.push(e).drop_last() =~= s);
}

proof fn lemma_filter_none(s: Seq<EventView>, p: spec_fn(EventView) -> bool)
    requires
        forall|x: EventView| !#[trigger] p(x),
    ensures
        s.filter(p) == Seq::<EventView>::empty(),
    decreases s.len(),
{
    reveal(Seq::filter);
    if s.len() > 0 {
        lemma_filter_none(s.drop_last(), p);
        assert(!p(s.last()));
    }
}

/// Filtering twice is filtering by both.
proof fn lemma_filter_filter(s: Seq<EventView>, p: spec_fn(EventView) -> bool, r: spec_fn(EventView) -> bool)
    ensures
        s.filter(p).filter(r) == s.filter(|x: EventView| p(x) && r(x)),
    decreases s.len(),
{
    reveal(Seq::filter);
    if s.len() > 0 {
        let d = s.drop_last();
        lemma_filter_filter(d, p, r);
        if p(s.last()) {
            lemma_filter_push(d.filter(p), s.last(), r);
        }
    }
}

/// For a filter decided by the timestamp alone (`b` at time `t`), the
/// events of time `t` that pass are all of them or none.
proof fn lemma_filter_at(s: Seq<EventView>, p: spec_fn(EventView) -> bool, t: u64, b: bool)
    requires
        forall|x: EventView| x.timestamp == t ==> #[trigger] p(x) == b,
    ensures
        s.filter(p).filter(at_time(t)) == if b {
            s.filter(at_time(t))
        } else {
            Seq::<EventView>::empty()
        },
{
    let both = |x: EventView| p(x) && at_time(t)(x);
    lemma_filter_filter(s, p, at_time(t));
    if b {
        assert(both =~= at_time(t));
    } else {
        assert forall|x: EventView| !#[trigger] both(x) by {}
        lemma_filter_none(s, both);
    }
}

/// A new scheduler holds a stable queue of nothing.
pub proof fn lemma_stable_queue_empty()
    ensures
        stable_queue(Seq::<EventView>::empty(), Seq::<EventView>::empty()),
{
    assert forall|t: u64| #[trigger] Seq::<EventView>::empty().filter(at_time(t))
        == Seq::<EventView>::empty().filter(at_time(t)) by {}
}

/// Scheduling keeps the queue the stable, time-ordered arrangement of the
/// pending events, the new one scheduled last.
pub proof fn lemma_stable_queue_schedule(q: Seq<EventView>, pending: Seq<EventView>, e: EventView)
    requires
        stable_queue(q, pending),
    ensures
        stable_queue(q.insert(first_after(q, e.timestamp), e), pending.push(e)),
{
    let t0 = e.timestamp;
    let f = first_after(q, t0);
    let q2 = q.insert(f, e);
    lemma_schedule_stable(q, e);
    lemma_due_partition(q, t0);
    lemma_first_after(q, t0);
    assert(time_ordered(q2)) by {
        assert forall|i: int, j: int| 0 <= i <= j < q2.len() implies q2[i].timestamp
            <= q2[j].timestamp by {
            if i < f && j > f {
                assert(q2[i] == q[i] && q2[j] == q[j - 1]);
            } else if i < f && j == f {
                assert(q2[i] == q[i]);
            } else if i == f && j > f {
                assert(q2[j] == q[j - 1]);
            } else if i > f {
                assert(q2[i] == q[i - 1] && q2[j] == q[j - 1]);
            } else if j < f {
                assert(q2[i] == q[i] && q2[j] == q[j]);
            }
        }
    }
    assert forall|t: u64| #[trigger] q2.filter(at_time(t)) == pending.push(e).filter(at_time(t)) by {
        let due = q.filter(is_due(t0));
        let later = q.filter(is_pending(t0));
        vstd::seq::Seq::filter_distributes_over_add(due.push(e), later, at_time(t));
        lemma_filter_push(due, e, at_time(t));
        lemma_filter_push(pending, e, at_time(t));
        lemma_filter_at(q, is_due(t0), t, t <= t0);
        lemma_filter_at(q, is_pending(t0), t, t > t0);
        assert(q.filter(at_time(t)) == pending.filter(at_time(t)));
        if t <= t0 {
            assert(later.filter(at_time(t)) + Seq::<EventView>::empty() == later.filter(at_time(t)));
        }
        assert(due.push(e).filter(at_time(t)) + later.filter(at_time(t)) =~= pending.push(e).filter(at_time(t)));
    }
}

/// Handing out the due events splits a stable queue into the due events
/// and the later ones, each again the stable, time-ordered arrangement of
/// the pending events that are due and of those that are not.
pub proof fn lemma_stable_queue_due(q: Seq<EventView>, pending: Seq<EventView>, now: u64)
    requires
        stable_queue(q, pending),
    ensures
        stable_queue(q.subrange(0, first_after(q, now)), pending.filter(is_due(now))),
        stable_queue(q.subrange(first_after(q, now), q.len() as int), pending.filter(is_pending(now))),
{
    let f = first_after(q, now);
    lemma_due_events_filter(q, now);
    lemma_first_after(q, now);
    let a = q.subrange(0, f);
    let b = q.subrange(f, q.len() as int);
    assert(time_ordered(a)) by {
        assert forall|i: int, j: int| 0 <= i <= j < a.len() implies a[i].timestamp <= a[j].timestamp by {
            assert(a[i] == q[i] && a[j] == q[j]);
        }
    }
    assert(time_ordered(b)) by {
        assert forall|i: int, j: int| 0 <= i <= j < b.len() implies b[i].timestamp <= b[j].timestamp by {
            assert(b[i] == q[i + f] && b[j] == q[j + f]);
        }
    }
    assert forall|t: u64| #[trigger] a.filter(at_time(t)) == pending.filter(is_due(now)).filter(at_time(t)) by {
        lemma_filter_at(q, is_due(now), t, t <= now);
        lemma_filter_at(pending, is_due(now), t, t <= now);
        assert(q.filter(at_time(t)) == pending.filter(at_time(t)));
    }
    assert forall|t: u64| #[trigger] b.filter(at_time(t)) == pending.filter(is_pending(now)).filter(at_time(t)) by {
        lemma_filter_at(q, is_pending(now), t, t > now);
        lemma_filter_at(pending, is_pending(now), t, t > now);
        assert(q.filter(at_time(t)) == pending.filter(at_time(t)));
    }
}

/// The scheduled events, earliest first, and the time the run lock was
/// taken.
#[derive(Debug)]
pub struct CronScheduler {
    events: Vec<CronEvent>,
    lock_acquired_at: Option<SystemTime>,
}

fn copy_strings(v: &Vec<String>) -> (r: Vec<String>)
    ensures
        strs(r@) == strs(v@),
{
    let mut r: Vec<String> = Vec::new();
    let mut k: usize = 0;
    while k < v.len()
        invariant
            k <= v@.len(),
            strs(r@) == strs(v@.subrange(0, k as int)),
        decreases v@.len() - k,
    {
        let ghost before = r@;
        let x = string_of(&chars_of(v[k].as_str()));
        r.push(x);
        assert(strs(r@) =~= strs(before).push(v@[k as int]@));
        assert(v@.subrange(0, k + 1) =~= v@.subrange(0, k as int).push(v@[k as int]));
        k += 1;
        assert(strs(r@) =~= strs(v@.subrange(0, k as int)));
    }
    assert(v@.subrange(0, k as int) =~= v@);
    r
}

impl CronEvent {
    /// A field-by-field copy.
    pub fn copy(&self) -> (r: CronEvent)
        ensures
            r@ == self@,
    {
        CronEvent {
            hook: string_of(&chars_of(self.hook.as_str())),
            timestamp: self.timestamp,
            schedule: match &self.schedule {
                Some(s) => Some(string_of(&chars_of(s.as_str()))),
                None => None,
            },
            args: copy_strings(&self.args),
        }
    }
}

impl CronScheduler {
    /// The queued events, in the order they will be handed out.
    pub closed spec fn events(&self) -> Seq<EventView> {
        event_views(self.events@)
    }

    pub closed spec fn wf(&self) -> bool {
        time_ordered(self.events())
    }

    /// When the run lock was taken, if it is held.
    pub closed spec fn lock_time(&self) -> Option<SystemTime> {
        self.lock_acquired_at
    }

    pub closed spec fn locked(&self) -> bool {
        self.lock_acquired_at is Some
    }

    pub fn new() -> (r: Self)
        ensures
            r.wf(),
            r.events() == Seq::<EventView>::empty(),
            !r.locked(),
    {
        let r = CronScheduler { events: Vec::new(), lock_acquired_at: None };
        assert(r.events() =~= Seq::<EventView>::empty());
        r
    }

    /// Queues an event after every event due no later than it, so that
    /// events with equal timestamps run in the order they were scheduled.
    pub fn schedule_event(&mut self, event: CronEvent)
        requires
            old(self).wf(),
        ensures
            final(self).wf(),
            final(self).locked() == old(self).locked(),
            final(self).events() == old(self).events().insert(
                first_after(old(self).events(), event.timestamp),
                event@,
            ),
    {
        let ghost s = self.events();
        let ghost ev = event@;
        let t = event.timestamp;
        proof {
            lemma_first_after(s, t);
        }
        let mut pos: usize = 0;
        assert(s.subrange(0, s.len() as int) =~= s);
        while pos < self.events.len() && self.events[pos].timestamp <= t
            invariant
                s == self.events(),
                pos <= self.events@.len(),
                first_after(s, t) == pos + first_after(s.subrange(pos as int, s.len() as int), t),
            decreases self.events@.len() - pos,
        {
            assert(s.subrange(pos as int, s.len() as int).drop_first() =~= s.subrange(
                pos + 1,
                s.len() as int,
            ));
            pos += 1;
        }
        proof {
            if pos < s.len() {
                assert(s.subrange(pos as int, s.len() as int)[0] == s[pos as int]);
            }
        }
        assert(first_after(s, t) == pos);
        self.events.insert(pos, event);
        let ghost s2 = self.events();
        assert(s2 =~= s.insert(pos as int, ev));
        assert forall|i: int, j: int| 0 <= i <= j < s2.len() implies s2[i].timestamp
            <= s2[j].timestamp by {
            if i < pos && j < pos {
            } else if i < pos && j == pos {
            } else if i < pos {
                assert(s[i].timestamp <= s[j - 1].timestamp);
            } else if i == pos && j > pos {
                assert(s[j - 1].timestamp > t || j - 1 >= pos);
                assert(s[pos as int].timestamp > t);
                assert(s[pos as int].timestamp <= s[j - 1].timestamp);
            } else if i > pos {
                assert(s[i - 1].timestamp <= s[j - 1].timestamp);
            }
        }
    }

    /// Removes and returns the events due at `now_timestamp` (those not
    /// later than it), earliest first.
    pub fn due_events(&mut self, now_timestamp: u64) -> (r: Vec<CronEvent>)
        requires
            old(self).wf(),
        ensures
            final(self).wf(),
            final(self).locked() == old(self).locked(),
            event_views(r@) == old(self).events().subrange(
                0,
                first_after(old(self).events(), now_timestamp),
            ),
            final(self).events() == old(self).events().subrange(
                first_after(old(self).events(), now_timestamp),
                old(self).events().len() as int,
            ),
    {
        let ghost s = self.events();
        proof {
            lemma_first_after(s, now_timestamp);
        }
        let mut split: usize = 0;
        assert(s.subrange(0, s.len() as int) =~= s);
        while split < self.events.len() && self.events[split].timestamp <= now_timestamp
            invariant
                s == self.events(),
                split <= self.events@.len(),
                first_after(s, now_timestamp) == split + first_after(
                    s.subrange(split as int, s.len() as int),
                    now_timestamp,
                ),
            decreases self.events@.len() - split,
        {
            assert(s.subrange(split as int, s.len() as int).drop_first() =~= s.subrange(
                split + 1,
                s.len() as int,
            ));
            split += 1;
        }
        proof {
            if split < s.len() {
                assert(s.subrange(split as int, s.len() as int)[0] == s[split as int]);
            }
        }
        let ghost old_events = self.events@;
        let mut rest = self.events.split_off(split);
        std::mem::swap(&mut self.events, &mut rest);
        assert(event_views(rest@) =~= s.subrange(0, split as int));
        assert(self.events() =~= s.subrange(split as int, s.len() as int));
        rest
    }

    /// The timestamp of the earliest queued event.
    pub fn next_event_timestamp(&self) -> (r: Option<u64>)
        ensures
            r == (if self.events().len() > 0 {
                Some(self.events()[0].timestamp)
            } else {
                None::<u64>
            }),
            self.wf() ==> (r matches Some(t) ==> forall|i: int|
                0 <= i < self.events().len() ==> t <= #[trigger] self.events()[i].timestamp),
    {
        if self.events.len() > 0 {
            Some(self.events[0].timestamp)
        } else {
            None
        }
    }

    /// Takes the run lock when `should_run_cron` allows it, stamping it
    /// with the current time.
    pub fn acquire_lock(&mut self, timeout: Duration) -> (r: bool)
        requires
            old(self).wf(),
        ensures
            final(self).wf(),
            final(self).events() == old(self).events(),
            !old(self).locked() ==> r,
            exists|now: SystemTime| r == #[trigger] run_allowed(old(self).lock_time(), timeout, now),
            r ==> final(self).locked(),
            !r ==> final(self).lock_time() == old(self).lock_time(),
    {
        if should_run_cron(self.lock_acquired_at, timeout) {
            self.lock_acquired_at = Some(system_now());
            true
        } else {
            false
        }
    }

    pub fn release_lock(&mut self)
        requires
            old(self).wf(),
        ensures
            final(self).wf(),
            final(self).events() == old(self).events(),
            !final(self).locked(),
    {
        self.lock_acquired_at = None;
    }

    pub fn lock_acquired_at(&self) -> (r: Option<SystemTime>)
        ensures
            r == self.lock_time(),
            r is Some == self.locked(),
    {
        self.lock_acquired_at
    }
}

impl Default for CronScheduler {
    fn default() -> (r: Self)
        ensures
            r.wf(),
            r.events() == Seq::<EventView>::empty(),
            !r.locked(),
    {
        CronScheduler::new()
    }
}

// ------------------------------------------------------------------
// The `doing_wp_cron` token
// ------------------------------------------------------------------

/// `key=value` of a query-string entry, split at the first `=`.
pub open spec fn query_entry(piece: Seq<char>) -> Option<(Seq<char>, Seq<char>)> {
    match first_index_of(piece, '=') {
        Some(i) => Some((piece.subrange(0, i), piece.subrange(i + 1, piece.len() as int))),
        None => None,
    }
}

/// The trimmed value of the first entry whose trimmed key is `doing_wp_cron`.
pub open spec fn first_cron_value(pieces: Seq<Seq<char>>) -> Option<Seq<char>>
    decreases pieces.len(),
{
    if pieces.len() == 0 {
        None
    } else {
        match query_entry(pieces[0]) {
            Some((k, v)) => if trim(k) == "doing_wp_cron"@ {
                Some(trim(v))
            } else {
                first_cron_value(pieces.drop_first())
            },
            None => first_cron_value(pieces.drop_first()),
        }
    }
}

pub open spec fn doing_wp_cron(query: Seq<char>) -> Option<Seq<char>> {
    match first_cron_value(split(query, '&')) {
        Some(v) => if v.len() > 0 {
            Some(v)
        } else {
            None
        },
        None => None,
    }
}

/// The `doing_wp_cron` token of a query string: the trimmed value of the
/// first such entry, `None` when missing or empty.
pub fn parse_doing_wp_cron(query_string: &str) -> (r: Option<String>)
    ensures
        match r {
            Some(v) => doing_wp_cron(query_string@) == Some(v@),
            None => doing_wp_cron(query_string@) is None,
        },
{
    let q = chars_of(query_string);
    let pieces = split_char(&q, '&');
    let key = chars_of("doing_wp_cron");
    let mut k: usize = 0;
    let ghost all = views(pieces@);
    assert(all.subrange(0, all.len() as int) =~= all);
    let mut found: Option<Vec<char>> = None;
    while k < pieces.len()
        invariant
            all == views(pieces@),
            all == split(query_string@, '&'),
            key@ == "doing_wp_cron"@,
            k <= pieces@.len(),
            found is None ==> first_cron_value(all) == first_cron_value(
                all.subrange(k as int, all.len() as int),
            ),
            found matches Some(v) ==> first_cron_value(all) == Some(v@),
        decreases pieces@.len() - k,
    {
        let ghost rest = all.subrange(k as int, all.len() as int);
        assert(rest[0] == pieces@[k as int]@);
        assert(rest.drop_first() =~= all.subrange(k + 1, all.len() as int));
        if found.is_none() {
            let piece = &pieces[k];
            match find_char(piece, '=') {
                Some(i) => {
                    let plen = piece.len();
                    let name = trim_chars(&copy_range(piece, 0, i));
                    if chars_eq(&name, &key) {
                        found = Some(trim_chars(&copy_range(piece, i + 1, plen)));
                    }
                },
                None => {},
            }
        }
        k += 1;
    }
    assert(all.subrange(k as int, all.len() as int) =~= Seq::<Seq<char>>::empty());
    match found {
        Some(v) => {
            if v.len() > 0 {
                Some(string_of(&v))
            } else {
                None
            }
        },
        None => None,
    }
}

} // verus!
