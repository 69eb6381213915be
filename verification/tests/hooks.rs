use rustpress::hooks::{HookId, HookKind, HookRegistry};

#[test]
fn hook_plan_runs_lower_priorities_first() {
    let mut hooks = HookRegistry::default();
    let late = hooks.add_filter("sample", 20);
    let early = hooks.add_filter("sample", 10);
    let plan = hooks.plan(HookKind::Filter, "sample", 0);
    assert_eq!(plan, vec![(early, 0), (late, 0)]);
}

#[test]
fn hook_plan_keeps_registration_order_within_priority() {
    let mut hooks = HookRegistry::default();
    let a = hooks.add_action("init", 10);
    let b = hooks.add_action("init", 10);
    let c = hooks.add_action("init", 5);
    let other = hooks.add_action("other", 1);
    let plan = hooks.plan(HookKind::Action, "init", 2);
    assert_eq!(plan, vec![(c, 2), (a, 2), (b, 2)]);
    assert!(!plan.iter().any(|(id, _)| *id == other));
}

#[test]
fn accepted_args_limits() {
    let mut hooks = HookRegistry::default();
    let action = hooks.add_action_with_accepted_args("a", 10, 1);
    assert_eq!(hooks.plan(HookKind::Action, "a", 2), vec![(action, 1)]);
    let two = hooks.add_filter_with_accepted_args("f", 10, 2);
    let one = hooks.add_filter_with_accepted_args("f", 11, 1);
    let zero = hooks.add_filter_with_accepted_args("f", 12, 0);
    assert_eq!(hooks.plan(HookKind::Filter, "f", 2), vec![(two, 1), (one, 0), (zero, 0)]);
    let all = hooks.add_filter("g", 10);
    assert_eq!(hooks.plan(HookKind::Filter, "g", 3), vec![(all, 3)]);
}

#[test]
fn removing_a_callback_drops_it_from_the_plan() {
    let mut hooks = HookRegistry::default();
    let id = hooks.add_action("init", 10);
    assert!(hooks.has_action("init"));
    assert!(!hooks.has_filter("init"));
    assert!(!hooks.remove_filter("init", id));
    assert!(hooks.remove_action("init", id));
    assert!(!hooks.remove_action("init", id));
    assert!(hooks.plan(HookKind::Action, "init", 0).is_empty());
    assert!(!hooks.has_action("init"));
}

#[test]
fn dispatch_stack_and_counts() {
    let mut hooks = HookRegistry::default();
    assert_eq!(hooks.current_hook(), None);
    hooks.begin_dispatch("init");
    hooks.begin_dispatch("the_title");
    assert_eq!(hooks.current_hook(), Some("the_title"));
    assert!(hooks.doing_hook("init"));
    hooks.end_dispatch("the_title");
    hooks.end_dispatch("init");
    hooks.begin_dispatch("init");
    hooks.end_dispatch("init");
    assert_eq!(hooks.did_hook("init"), 2);
    assert_eq!(hooks.did_hook("the_title"), 1);
    assert_eq!(hooks.did_hook("missing"), 0);
    assert!(!hooks.doing_hook("init"));
}

#[test]
fn ids_are_sequential_from_one() {
    let mut hooks = HookRegistry::default();
    let first = hooks.add_action("a", 1);
    let second = hooks.add_filter("b", 1);
    assert_eq!(first, HookId(1));
    assert_eq!(second.value(), 2);
}

#[test]
fn next_hook_id_advances_with_each_registration() {
    let mut hooks = HookRegistry::default();
    assert_eq!(hooks.next_hook_id(), 1);
    hooks.add_action("a", 1);
    hooks.add_filter_with_accepted_args("b", 1, 2);
    assert_eq!(hooks.next_hook_id(), 3);
}
