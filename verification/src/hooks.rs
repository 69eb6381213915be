//! The action and filter registry behind `do_action` / `apply_filters`:
//! which callbacks run for a hook, in what order and with how many
//! arguments, plus the hook stack and the dispatch counts. Running the
//! callbacks themselves is up to the caller.

use vstd::prelude::*;
use crate::text::{chars_eq, chars_of, copy_string, string_of, strs};

verus! {

#[derive(Debug, Clone, Copy, PartialEq, Eq, Structural)]
pub enum HookKind {
    Action,
    Filter,
}

/// The handle returned on registration, used to remove a callback.
#[derive(Debug, Clone, Copy, PartialEq, Eq, Structural, Hash)]
pub struct HookId(pub u64);

impl HookId {
    pub fn value(&self) -> (r: u64)
        ensures
            r == self.0,
    {
        self.0
    }
}

#[derive(Debug, Clone)]
struct Registration {
    kind: HookKind,
    name: String,
    priority: i32,
    id: u64,
    accepted_args: usize,
}

pub struct RegView {
    pub kind: HookKind,
    pub name: Seq<char>,
    pub priority: i32,
    pub id: u64,
    pub accepted_args: usize,
}

spec fn reg_view(r: Registration) -> RegView {
    RegView { kind: r.kind, name: r.name@, priority: r.priority, id: r.id, accepted_args: r.accepted_args }
}

spec fn reg_views(s: Seq<Registration>) -> Seq<RegView> {
    s.map_values(|r: Registration| reg_view(r))
}

/// Index at which a callback of priority `p` joins a list ordered by
/// priority: after every callback of priority `p` or lower.
pub open spec fn priority_slot(s: Seq<RegView>, p: i32) -> int
    decreases s.len(),
{
    if s.len() == 0 {
        0
    } else if s[0].priority > p {
        0
    } else {
        1 + priority_slot(s.drop_first(), p)
    }
}

/// The callbacks registered for a hook, lowest priority first and, within
/// a priority, in registration order.
pub open spec fn hook_order(regs: Seq<RegView>, kind: HookKind, name: Seq<char>) -> Seq<RegView>
    decreases regs.len(),
{
    if regs.len() == 0 {
        Seq::empty()
    } else {
        let prev = hook_order(regs.drop_last(), kind, name);
        let r = regs.last();
        if r.kind == kind && r.name == name {
            prev.insert(priority_slot(prev, r.priority), r)
        } else {
            prev
        }
    }
}

/// Arguments an action callback receives: its limit, at most all of them.
pub open spec fn action_arg_count(r: RegView, n: usize) -> usize {
    if r.accepted_args < n {
        r.accepted_args
    } else {
        n
    }
}

/// Extra arguments a filter callback receives: one less than its limit
/// (the value itself counts), at most all of them.
pub open spec fn filter_arg_count(r: RegView, n: usize) -> usize {
    let a = if r.accepted_args > 0 {
        (r.accepted_args - 1) as usize
    } else {
        0usize
    };
    if a < n {
        a
    } else {
        n
    }
}

pub open spec fn args_for(kind: HookKind, r: RegView, n: usize) -> usize {
    match kind {
        HookKind::Action => action_arg_count(r, n),
        HookKind::Filter => filter_arg_count(r, n),
    }
}

/// The dispatch plan matches the ordered callbacks, with their argument
/// counts.
pub open spec fn is_plan(plan: Seq<(HookId, usize)>, order: Seq<RegView>, kind: HookKind, n: usize) -> bool {
    &&& plan.len() == order.len()
    &&& forall|i: int|
        0 <= i < plan.len() ==> (#[trigger] plan[i]).0 == HookId(order[i].id) && plan[i].1
            == args_for(kind, order[i], n)
}

pub open spec fn count_of(counts: Seq<(Seq<char>, u64)>, name: Seq<char>) -> u64
    decreases counts.len(),
{
    if counts.len() == 0 {
        0
    } else if counts.last().0 == name {
        counts.last().1
    } else {
        count_of(counts.drop_last(), name)
    }
}

/// Registrations other than `id` under this kind and name.
pub open spec fn keeps_reg(kind: HookKind, name: Seq<char>, id: u64) -> spec_fn(RegView) -> bool {
    |x: RegView| !(x.kind == kind && x.name == name && x.id == id)
}

pub open spec fn has_hook(regs: Seq<RegView>, kind: HookKind, name: Seq<char>) -> bool {
    exists|i: int| 0 <= i < regs.len() && regs[i].kind == kind && regs[i].name == name
}

proof fn lemma_priority_slot(s: Seq<RegView>, p: i32)
    ensures
        0 <= priority_slot(s, p) <= s.len(),
        forall|i: int| 0 <= i < priority_slot(s, p) ==> (#[trigger] s[i]).priority <= p,
        priority_slot(s, p) < s.len() ==> s[priority_slot(s, p)].priority > p,
    decreases s.len(),
{
    if s.len() > 0 && s[0].priority <= p {
        lemma_priority_slot(s.drop_first(), p);
        assert forall|i: int| 0 <= i < priority_slot(s, p) implies (#[trigger] s[i]).priority <= p by {
            if i > 0 {
                assert(s[i] == s.drop_first()[i - 1]);
            }
        }
    }
}

/// Callbacks run in priority order: the plan of a hook never goes from a
/// higher priority to a lower one, and holds only that hook's callbacks.
pub proof fn lemma_hook_order_sorted(regs: Seq<RegView>, kind: HookKind, name: Seq<char>)
    ensures
        forall|i: int, j: int|
            0 <= i < j < hook_order(regs, kind, name).len() ==> hook_order(regs, kind, name)[i].priority
                <= hook_order(regs, kind, name)[j].priority,
        forall|i: int|
            0 <= i < hook_order(regs, kind, name).len() ==> (#[trigger] hook_order(regs, kind, name)[i]).kind
                == kind && hook_order(regs, kind, name)[i].name == name,
    decreases regs.len(),
{
    if regs.len() > 0 {
        lemma_hook_order_sorted(regs.drop_last(), kind, name);
        let prev = hook_order(regs.drop_last(), kind, name);
        let r = regs.last();
        if r.kind == kind && r.name == name {
            let p = priority_slot(prev, r.priority);
            lemma_priority_slot(prev, r.priority);
            let t = prev.insert(p, r);
            assert forall|i: int, j: int| 0 <= i < j < t.len() implies t[i].priority <= t[j].priority by {
                if j < p {
                    assert(prev[i].priority <= prev[j].priority);
                } else if j == p {
                } else if i < p {
                    assert(prev[i].priority <= prev[j - 1].priority);
                } else if i == p {
                    assert(prev[p].priority <= prev[j - 1].priority || j - 1 == p);
                } else {
                    assert(prev[i - 1].priority <= prev[j - 1].priority);
                }
            }
            assert forall|i: int| 0 <= i < t.len() implies (#[trigger] t[i]).kind == kind && t[i].name
                == name by {
                if i < p {
                    assert(t[i] == prev[i]);
                } else if i > p {
                    assert(t[i] == prev[i - 1]);
                }
            }
        }
    }
}

/// Registered callbacks, the stack of hooks being run, and how many times
/// each hook has been dispatched.
#[derive(Debug, Clone)]
pub struct HookRegistry {
    regs: Vec<Registration>,
    current_stack: Vec<String>,
    dispatch_counts: Vec<(String, u64)>,
    next_id: u64,
}

pub open spec fn counts_view(v: Seq<(String, u64)>) -> Seq<(Seq<char>, u64)> {
    v.map_values(|p: (String, u64)| (p.0@, p.1))
}

impl HookRegistry {
    pub closed spec fn registrations(&self) -> Seq<RegView> {
        reg_views(self.regs@)
    }

    /// The hooks being run, innermost last.
    pub closed spec fn stack(&self) -> Seq<Seq<char>> {
        strs(self.current_stack@)
    }

    pub closed spec fn counts(&self) -> Seq<(Seq<char>, u64)> {
        counts_view(self.dispatch_counts@)
    }

    /// The id the next registration gets.
    pub closed spec fn next_id(&self) -> u64 {
        self.next_id
    }

    /// Every registration has an id below `next_id`, and ids are distinct.
    pub closed spec fn wf(&self) -> bool {
        &&& forall|i: int|
            0 <= i < self.regs@.len() ==> (#[trigger] self.regs@[i]).id < self.next_id
        &&& forall|i: int, j: int|
            0 <= i < j < self.regs@.len() ==> self.regs@[i].id != self.regs@[j].id
    }

    pub fn new() -> (r: Self)
        ensures
            r.wf(),
            r.registrations() == Seq::<RegView>::empty(),
            r.stack() == Seq::<Seq<char>>::empty(),
            r.counts() == Seq::<(Seq<char>, u64)>::empty(),
            r.next_id() == 1,
    {
        let r = HookRegistry {
            regs: Vec::new(),
            current_stack: Vec::new(),
            dispatch_counts: Vec::new(),
            next_id: 1,
        };
        assert(r.registrations() =~= Seq::<RegView>::empty());
        assert(r.stack() =~= Seq::<Seq<char>>::empty());
        assert(r.counts() =~= Seq::<(Seq<char>, u64)>::empty());
        r
    }

    fn register(&mut self, kind: HookKind, name: &str, priority: i32, accepted_args: usize) -> (r: HookId)
        requires
            old(self).wf(),
            old(self).next_id() < u64::MAX,
        ensures
            final(self).wf(),
            r == HookId(old(self).next_id()),
            final(self).next_id() == old(self).next_id() + 1,
            final(self).registrations() == old(self).registrations().push(
                RegView { kind, name: name@, priority, id: old(self).next_id(), accepted_args },
            ),
            final(self).stack() == old(self).stack(),
            final(self).counts() == old(self).counts(),
    {
        let id = self.next_id;
        self.next_id = self.next_id + 1;
        let ghost before = self.regs@;
        self.regs.push(
            Registration { kind, name: string_of(&chars_of(name)), priority, id, accepted_args },
        );
        assert(self.registrations() =~= reg_views(before).push(reg_view(self.regs@.last())));
        HookId(id)
    }

    pub fn add_action(&mut self, name: &str, priority: i32) -> (r: HookId)
        requires
            old(self).wf(),
            old(self).next_id() < u64::MAX,
        ensures
            final(self).wf(),
            r == HookId(old(self).next_id()),
            final(self).next_id() == old(self).next_id() + 1,
            final(self).registrations() == old(self).registrations().push(
                RegView {
                    kind: HookKind::Action,
                    name: name@,
                    priority,
                    id: old(self).next_id(),
                    accepted_args: usize::MAX,
                },
            ),
            final(self).stack() == old(self).stack(),
            final(self).counts() == old(self).counts(),
    {
        self.register(HookKind::Action, name, priority, usize::MAX)
    }

    pub fn add_action_with_accepted_args(&mut self, name: &str, priority: i32, accepted_args: usize) -> (r: HookId)
        requires
            old(self).wf(),
            old(self).next_id() < u64::MAX,
        ensures
            final(self).wf(),
            r == HookId(old(self).next_id()),
            final(self).next_id() == old(self).next_id() + 1,
            final(self).registrations() == old(self).registrations().push(
                RegView {
                    kind: HookKind::Action,
                    name: name@,
                    priority,
                    id: old(self).next_id(),
                    accepted_args,
                },
            ),
            final(self).stack() == old(self).stack(),
            final(self).counts() == old(self).counts(),
    {
        self.register(HookKind::Action, name, priority, accepted_args)
    }

    pub fn add_filter(&mut self, name: &str, priority: i32) -> (r: HookId)
        requires
            old(self).wf(),
            old(self).next_id() < u64::MAX,
        ensures
            final(self).wf(),
            r == HookId(old(self).next_id()),
            final(self).next_id() == old(self).next_id() + 1,
            final(self).registrations() == old(self).registrations().push(
                RegView {
                    kind: HookKind::Filter,
                    name: name@,
                    priority,
                    id: old(self).next_id(),
                    accepted_args: usize::MAX,
                },
            ),
            final(self).stack() == old(self).stack(),
            final(self).counts() == old(self).counts(),
    {
        self.register(HookKind::Filter, name, priority, usize::MAX)
    }

    pub fn add_filter_with_accepted_args(&mut self, name: &str, priority: i32, accepted_args: usize) -> (r: HookId)
        requires
            old(self).wf(),
            old(self).next_id() < u64::MAX,
        ensures
            final(self).wf(),
            r == HookId(old(self).next_id()),
            final(self).next_id() == old(self).next_id() + 1,
            final(self).registrations() == old(self).registrations().push(
                RegView {
                    kind: HookKind::Filter,
                    name: name@,
                    priority,
                    id: old(self).next_id(),
                    accepted_args,
                },
            ),
            final(self).stack() == old(self).stack(),
            final(self).counts() == old(self).counts(),
    {
        self.register(HookKind::Filter, name, priority, accepted_args)
    }

    /// The id that the next registration will get.
    pub fn next_hook_id(&self) -> (r: u64)
        ensures
            r == self.next_id(),
    {
        self.next_id
    }

    /// The callbacks to run for a hook called with `arg_count` arguments,
    /// in order, with how many arguments each receives.
    pub fn plan(&self, kind: HookKind, name: &str, arg_count: usize) -> (r: Vec<(HookId, usize)>)
        ensures
            is_plan(r@, hook_order(self.registrations(), kind, name@), kind, arg_count),
    {
        let ghost regs = self.registrations();
        let n = chars_of(name);
        let mut order: Vec<usize> = Vec::new();
        let mut k: usize = 0;
        assert(regs.subrange(0, 0) =~= Seq::<RegView>::empty());
        assert(order@.map_values(|i: usize| regs[i as int]) =~= Seq::<RegView>::empty());
        while k < self.regs.len()
            invariant
                regs == self.registrations(),
                n@ == name@,
                k <= self.regs@.len(),
                forall|j: int| 0 <= j < order@.len() ==> (#[trigger] order@[j]) < k,
                order@.map_values(|i: usize| regs[i as int]) == hook_order(
                    regs.subrange(0, k as int),
                    kind,
                    name@,
                ),
            decreases self.regs@.len() - k,
        {
            let ghost prev = hook_order(regs.subrange(0, k as int), kind, name@);
            assert(regs.subrange(0, k + 1).drop_last() =~= regs.subrange(0, k as int));
            assert(regs.subrange(0, k + 1).last() == reg_view(self.regs@[k as int]));
            let reg = &self.regs[k];
            if reg.kind == kind && chars_eq(&chars_of(reg.name.as_str()), &n) {
                let mut p: usize = 0;
                assert(prev.subrange(0, prev.len() as int) =~= prev);
                while p < order.len() && self.regs[order[p]].priority <= reg.priority
                    invariant
                        regs == self.registrations(),
                        prev == order@.map_values(|i: usize| regs[i as int]),
                        forall|j: int| 0 <= j < order@.len() ==> (#[trigger] order@[j]) < k,
                        k < self.regs@.len(),
                        *reg == self.regs@[k as int],
                        p <= order@.len(),
                        priority_slot(prev, reg.priority) == p + priority_slot(
                            prev.subrange(p as int, prev.len() as int),
                            reg.priority,
                        ),
                    decreases order@.len() - p,
                {
                    assert(prev[p as int] == reg_view(self.regs@[order@[p as int] as int]));
                    assert(prev.subrange(p as int, prev.len() as int).drop_first() =~= prev.subrange(
                        p + 1,
                        prev.len() as int,
                    ));
                    p += 1;
                }
                proof {
                    if p < prev.len() {
                        assert(prev[p as int] == reg_view(self.regs@[order@[p as int] as int]));
                        assert(prev.subrange(p as int, prev.len() as int)[0] == prev[p as int]);
                    }
                }
                order.insert(p, k);
                assert(order@.map_values(|i: usize| regs[i as int]) =~= prev.insert(
                    p as int,
                    reg_view(self.regs@[k as int]),
                ));
            }
            k += 1;
        }
        assert(regs.subrange(0, k as int) =~= regs);
        let mut out: Vec<(HookId, usize)> = Vec::new();
        let mut j: usize = 0;
        let ghost ord = order@.map_values(|i: usize| regs[i as int]);
        while j < order.len()
            invariant
                regs == self.registrations(),
                ord == order@.map_values(|i: usize| regs[i as int]),
                forall|x: int| 0 <= x < order@.len() ==> (#[trigger] order@[x]) < self.regs@.len(),
                j <= order@.len(),
                out@.len() == j,
                forall|i: int|
                    0 <= i < j ==> (#[trigger] out@[i]).0 == HookId(ord[i].id) && out@[i].1
                        == args_for(kind, ord[i], arg_count),
            decreases order@.len() - j,
        {
            let reg = &self.regs[order[j]];
            assert(ord[j as int] == reg_view(*reg));
            let a: usize = match kind {
                HookKind::Action => if reg.accepted_args < arg_count {
                    reg.accepted_args
                } else {
                    arg_count
                },
                HookKind::Filter => {
                    let lim: usize = if reg.accepted_args > 0 {
                        reg.accepted_args - 1
                    } else {
                        0
                    };
                    if lim < arg_count {
                        lim
                    } else {
                        arg_count
                    }
                },
            };
            out.push((HookId(reg.id), a));
            j += 1;
        }
        out
    }

    fn remove_registration(&mut self, kind: HookKind, name: &str, id: HookId) -> (r: bool)
        requires
            old(self).wf(),
        ensures
            final(self).wf(),
            final(self).next_id() == old(self).next_id(),
            final(self).stack() == old(self).stack(),
            final(self).counts() == old(self).counts(),
            final(self).registrations() == old(self).registrations().filter(
                keeps_reg(kind, name@, id.0),
            ),
            r == exists|i: int|
                0 <= i < old(self).registrations().len() && old(self).registrations()[i].kind == kind
                    && old(self).registrations()[i].name == name@ && old(self).registrations()[i].id
                    == id.0,
    {
        let ghost regs = self.registrations();
        let ghost pred = keeps_reg(kind, name@, id.0);
        let n = chars_of(name);
        let mut kept: Vec<Registration> = Vec::new();
        let mut removed = false;
        let mut k: usize = 0;
        let len = self.regs.len();
        proof {
            reveal(Seq::filter);
            assert(regs.subrange(0, 0) =~= Seq::<RegView>::empty());
            assert(reg_views(kept@) =~= Seq::<RegView>::empty());
        }
        while k < len
            invariant
                len == self.regs@.len(),
                regs == self.registrations(),
                n@ == name@,
                pred == keeps_reg(kind, name@, id.0),
                k <= len,
                reg_views(kept@) == regs.subrange(0, k as int).filter(pred),
                forall|i: int| 0 <= i < kept@.len() ==> exists|j: int| 0 <= j < k && (#[trigger] kept@[i]).id == self.regs@[j].id,
                forall|a: int, b: int| 0 <= a < b < kept@.len() ==> kept@[a].id != kept@[b].id,
                forall|a: int, j: int| 0 <= a < kept@.len() && k <= j < len ==> kept@[a].id != self.regs@[j].id,
                self.wf(),
                removed == exists|i: int|
                    0 <= i < k && regs[i].kind == kind && regs[i].name == name@ && regs[i].id == id.0,
            decreases len - k,
        {
            proof {
                reveal(Seq::filter);
                assert(regs.subrange(0, k + 1).drop_last() =~= regs.subrange(0, k as int));
                assert(regs.subrange(0, k + 1).last() == reg_view(self.regs@[k as int]));
            }
            let reg = &self.regs[k];
            if reg.kind == kind && reg.id == id.0 && chars_eq(&chars_of(reg.name.as_str()), &n) {
                removed = true;
            } else {
                let ghost before = kept@;
                kept.push(reg.clone_reg());
                assert(reg_views(kept@) =~= reg_views(before).push(reg_view(self.regs@[k as int])));
                assert forall|a: int, j: int| 0 <= a < kept@.len() && k + 1 <= j < len implies kept@[a].id
                    != self.regs@[j].id by {
                    if a < before.len() {
                    } else {
                        assert(self.regs@[k as int].id != self.regs@[j].id);
                    }
                }
                assert forall|i: int| 0 <= i < kept@.len() implies exists|j: int| 0 <= j < k + 1 && (#[trigger] kept@[i]).id == self.regs@[j].id by {
                    if i < before.len() {
                        let j = choose|j: int| 0 <= j < k && before[i].id == self.regs@[j].id;
                        assert(kept@[i] == before[i]);
                    } else {
                        assert(kept@[i].id == self.regs@[k as int].id);
                    }
                }
            }
            k += 1;
        }
        assert(regs.subrange(0, k as int) =~= regs);
        assert forall|i: int| 0 <= i < kept@.len() implies (#[trigger] kept@[i]).id < self.next_id by {
            let j = choose|j: int| 0 <= j < len && kept@[i].id == self.regs@[j].id;
        }
        self.regs = kept;
        removed
    }

    pub fn remove_action(&mut self, name: &str, id: HookId) -> (r: bool)
        requires
            old(self).wf(),
        ensures
            final(self).wf(),
            final(self).next_id() == old(self).next_id(),
            final(self).stack() == old(self).stack(),
            final(self).counts() == old(self).counts(),
            final(self).registrations() == old(self).registrations().filter(
                keeps_reg(HookKind::Action, name@, id.0),
            ),
            r == exists|i: int|
                0 <= i < old(self).registrations().len() && old(self).registrations()[i].kind
                    == HookKind::Action && old(self).registrations()[i].name == name@
                    && old(self).registrations()[i].id == id.0,
    {
        self.remove_registration(HookKind::Action, name, id)
    }

    pub fn remove_filter(&mut self, name: &str, id: HookId) -> (r: bool)
        requires
            old(self).wf(),
        ensures
            final(self).wf(),
            final(self).next_id() == old(self).next_id(),
            final(self).stack() == old(self).stack(),
            final(self).counts() == old(self).counts(),
            final(self).registrations() == old(self).registrations().filter(
                keeps_reg(HookKind::Filter, name@, id.0),
            ),
            r == exists|i: int|
                0 <= i < old(self).registrations().len() && old(self).registrations()[i].kind
                    == HookKind::Filter && old(self).registrations()[i].name == name@
                    && old(self).registrations()[i].id == id.0,
    {
        self.remove_registration(HookKind::Filter, name, id)
    }

    fn has(&self, kind: HookKind, name: &str) -> (r: bool)
        ensures
            r == has_hook(self.registrations(), kind, name@),
    {
        let n = chars_of(name);
        let mut k: usize = 0;
        while k < self.regs.len()
            invariant
                n@ == name@,
                k <= self.regs@.len(),
                forall|j: int|
                    0 <= j < k ==> !(self.registrations()[j].kind == kind
                        && self.registrations()[j].name == name@),
            decreases self.regs@.len() - k,
        {
            assert(self.registrations()[k as int] == reg_view(self.regs@[k as int]));
            if self.regs[k].kind == kind && chars_eq(&chars_of(self.regs[k].name.as_str()), &n) {
                return true;
            }
            k += 1;
        }
        false
    }

    pub fn has_action(&self, name: &str) -> (r: bool)
        ensures
            r == has_hook(self.registrations(), HookKind::Action, name@),
    {
        self.has(HookKind::Action, name)
    }

    pub fn has_filter(&self, name: &str) -> (r: bool)
        ensures
            r == has_hook(self.registrations(), HookKind::Filter, name@),
    {
        self.has(HookKind::Filter, name)
    }

    /// Marks a hook as running (before its callbacks).
    pub fn begin_dispatch(&mut self, name: &str)
        requires
            old(self).wf(),
        ensures
            final(self).wf(),
            final(self).stack() == old(self).stack().push(name@),
            final(self).registrations() == old(self).registrations(),
            final(self).counts() == old(self).counts(),
            final(self).next_id() == old(self).next_id(),
    {
        let ghost before = self.current_stack@;
        self.current_stack.push(string_of(&chars_of(name)));
        assert(self.stack() =~= strs(before).push(name@));
    }

    /// Marks the innermost hook as finished and counts a dispatch of `name`.
    pub fn end_dispatch(&mut self, name: &str)
        requires
            old(self).wf(),
            count_of(old(self).counts(), name@) < u64::MAX,
        ensures
            final(self).wf(),
            final(self).stack() == if old(self).stack().len() > 0 {
                old(self).stack().drop_last()
            } else {
                old(self).stack()
            },
            forall|n: Seq<char>|
                #![trigger count_of(final(self).counts(), n)]
                count_of(final(self).counts(), n) == if n == name@ {
                    (count_of(old(self).counts(), n) + 1) as u64
                } else {
                    count_of(old(self).counts(), n)
                },
            final(self).registrations() == old(self).registrations(),
            final(self).next_id() == old(self).next_id(),
    {
        let ghost before = self.current_stack@;
        if self.current_stack.len() > 0 {
            self.current_stack.pop();
            assert(self.stack() =~= strs(before).drop_last());
        }
        let ghost old_counts = self.counts();
        let n = chars_of(name);
        let found = self.find_count(&n);
        if let Some(i) = found {
            let c = self.dispatch_counts[i].1;
            assert(count_of(old_counts, name@) == c);
            let entry = (copy_string(&self.dispatch_counts[i].0), c + 1);
            self.dispatch_counts.set(i, entry);
            proof {
                lemma_count_update(old_counts, i as int, name@, (c + 1) as u64);
                assert(self.counts() =~= old_counts.update(i as int, (name@, (c + 1) as u64)));
            }
        } else {
            self.dispatch_counts.push((string_of(&n), 1));
            assert(self.counts() =~= old_counts.push((name@, 1u64)));
            assert forall|x: Seq<char>| #[trigger] count_of(self.counts(), x) == if x == name@ {
                (count_of(old_counts, x) + 1) as u64
            } else {
                count_of(old_counts, x)
            } by {
                assert(self.counts().drop_last() =~= old_counts);
            }
        }
    }

    fn find_count(&self, n: &[char]) -> (r: Option<usize>)
        ensures
            match r {
                Some(i) => i < self.counts().len() && self.counts()[i as int].0 == n@ && (forall|j: int|
                    i < j < self.counts().len() ==> self.counts()[j].0 != n@) && count_of(
                    self.counts(),
                    n@,
                ) == self.counts()[i as int].1,
                None => count_of(self.counts(), n@) == 0 && forall|j: int|
                    0 <= j < self.counts().len() ==> self.counts()[j].0 != n@,
            },
    {
        let ghost cs = self.counts();
        let mut k = self.dispatch_counts.len();
        assert(cs.subrange(0, k as int) =~= cs);
        while k > 0
            invariant
                k <= self.dispatch_counts@.len(),
                cs == self.counts(),
                count_of(cs, n@) == count_of(cs.subrange(0, k as int), n@),
                forall|j: int| k <= j < cs.len() ==> cs[j].0 != n@,
            decreases k,
        {
            assert(cs.subrange(0, k as int).last() == cs[k - 1]);
            assert(cs[k - 1] == (self.dispatch_counts@[k - 1].0@, self.dispatch_counts@[k - 1].1));
            if chars_eq(&chars_of(self.dispatch_counts[k - 1].0.as_str()), n) {
                return Some(k - 1);
            }
            assert(cs.subrange(0, k as int).drop_last() =~= cs.subrange(0, k - 1));
            k -= 1;
        }
        assert(cs.subrange(0, 0) =~= Seq::<(Seq<char>, u64)>::empty());
        None
    }

    pub fn current_hook(&self) -> (r: Option<&str>)
        ensures
            match r {
                Some(s) => self.stack().len() > 0 && s@ == self.stack().last(),
                None => self.stack().len() == 0,
            },
    {
        let n = self.current_stack.len();
        if n > 0 {
            Some(self.current_stack[n - 1].as_str())
        } else {
            None
        }
    }

    pub fn doing_hook(&self, name: &str) -> (r: bool)
        ensures
            r == self.stack().contains(name@),
    {
        crate::text::contains_string(&self.current_stack, &chars_of(name))
    }

    pub fn did_hook(&self, name: &str) -> (r: u64)
        ensures
            r == count_of(self.counts(), name@),
    {
        match self.find_count(&chars_of(name)) {
            Some(i) => self.dispatch_counts[i].1,
            None => 0,
        }
    }
}

impl Registration {
    fn clone_reg(&self) -> (r: Registration)
        ensures
            reg_view(r) == reg_view(*self),
            r.id == self.id,
    {
        Registration {
            kind: self.kind,
            name: copy_string(&self.name),
            priority: self.priority,
            id: self.id,
            accepted_args: self.accepted_args,
        }
    }
}

proof fn lemma_count_update(counts: Seq<(Seq<char>, u64)>, i: int, name: Seq<char>, v: u64)
    requires
        0 <= i < counts.len(),
        counts[i].0 == name,
        forall|j: int| i < j < counts.len() ==> counts[j].0 != name,
    ensures
        forall|n: Seq<char>|
            #![trigger count_of(counts.update(i, (name, v)), n)]
            count_of(counts.update(i, (name, v)), n) == if n == name {
                v
            } else {
                count_of(counts, n)
            },
    decreases counts.len(),
{
    let u = counts.update(i, (name, v));
    if i < counts.len() - 1 {
        lemma_count_update(counts.drop_last(), i, name, v);
        assert(u.drop_last() =~= counts.drop_last().update(i, (name, v)));
        assert forall|n: Seq<char>| #[trigger] count_of(u, n) == if n == name {
            v
        } else {
            count_of(counts, n)
        } by {
            assert(count_of(counts.drop_last().update(i, (name, v)), n) == if n == name {
                v
            } else {
                count_of(counts.drop_last(), n)
            });
        }
    } else {
        assert(u.drop_last() =~= counts.drop_last());
        assert forall|n: Seq<char>| #[trigger] count_of(u, n) == if n == name {
            v
        } else {
            count_of(counts, n)
        } by {}
    }
}

impl Default for HookRegistry {
    fn default() -> (r: Self)
        ensures
            r.wf(),
            r.registrations() == Seq::<RegView>::empty(),
            r.stack() == Seq::<Seq<char>>::empty(),
            r.counts() == Seq::<(Seq<char>, u64)>::empty(),
            r.next_id() == 1,
    {
        HookRegistry::new()
    }
}

} // verus!
