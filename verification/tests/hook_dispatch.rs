//! The dispatch scenarios of the hook API, run through the registry's plan:
//! the registry decides order and argument counts, the closures here run.

use std::collections::HashMap;
use std::sync::{Arc, Mutex};

use serde_json::Value;

use rustpress::hooks::{HookId, HookKind, HookRegistry};

type ActionCallback = Box<dyn Fn(&[Value]) + Send + Sync + 'static>;
type FilterCallback = Box<dyn Fn(Value, &[Value]) -> Value + Send + Sync + 'static>;

#[derive(Default)]
struct HookDispatcher {
    registry: HookRegistry,
    actions: HashMap<u64, ActionCallback>,
    filters: HashMap<u64, FilterCallback>,
}

impl HookDispatcher {
    fn add_action(&mut self, name: &str, priority: i32, callback: ActionCallback) -> HookId {
        self.add_action_with_accepted_args(name, priority, usize::MAX, callback)
    }

    fn add_action_with_accepted_args(
        &mut self,
        name: &str,
        priority: i32,
        accepted_args: usize,
        callback: ActionCallback,
    ) -> HookId {
        let id = self.registry.add_action_with_accepted_args(name, priority, accepted_args);
        self.actions.insert(id.value(), callback);
        id
    }

    fn add_filter(&mut self, name: &str, priority: i32, callback: FilterCallback) -> HookId {
        self.add_filter_with_accepted_args(name, priority, usize::MAX, callback)
    }

    fn add_filter_with_accepted_args(
        &mut self,
        name: &str,
        priority: i32,
        accepted_args: usize,
        callback: FilterCallback,
    ) -> HookId {
        let id = self.registry.add_filter_with_accepted_args(name, priority, accepted_args);
        self.filters.insert(id.value(), callback);
        id
    }

    fn do_action(&mut self, name: &str, args: &[Value]) {
        self.registry.begin_dispatch(name);
        for (id, accepted) in self.registry.plan(HookKind::Action, name, args.len()) {
            (self.actions[&id.value()])(&args[..accepted]);
        }
        self.registry.end_dispatch(name);
    }

    fn apply_filters(&mut self, name: &str, mut value: Value, args: &[Value]) -> Value {
        self.registry.begin_dispatch(name);
        for (id, accepted) in self.registry.plan(HookKind::Filter, name, args.len()) {
            value = (self.filters[&id.value()])(value, &args[..accepted]);
        }
        self.registry.end_dispatch(name);
        value
    }

    fn remove_action(&mut self, name: &str, id: HookId) -> bool {
        self.registry.remove_action(name, id)
    }

    fn remove_filter(&mut self, name: &str, id: HookId) -> bool {
        self.registry.remove_filter(name, id)
    }

    fn has_action(&self, name: &str) -> bool {
        self.registry.has_action(name)
    }

    fn did_hook(&self, name: &str) -> u64 {
        self.registry.did_hook(name)
    }
}

#[test]
fn filters_apply_in_priority_order() {
    let mut dispatcher = HookDispatcher::default();
    dispatcher.add_filter(
        "sample",
        20,
        Box::new(|value, _| {
            let current = value.as_str().unwrap_or_default();
            Value::String(format!("{current}-late"))
        }),
    );
    dispatcher.add_filter(
        "sample",
        10,
        Box::new(|value, _| {
            let current = value.as_str().unwrap_or_default();
            Value::String(format!("{current}-early"))
        }),
    );

    let result = dispatcher.apply_filters("sample", Value::String("value".to_string()), &[]);
    assert_eq!(result, Value::String("value-early-late".to_string()));
}

#[test]
fn remove_filter_prevents_callback_execution() {
    let mut dispatcher = HookDispatcher::default();
    let hook_id = dispatcher.add_filter(
        "sample",
        10,
        Box::new(|value, _| {
            let current = value.as_str().unwrap_or_default();
            Value::String(format!("{current}-changed"))
        }),
    );
    assert!(dispatcher.remove_filter("sample", hook_id));

    let result = dispatcher.apply_filters("sample", Value::String("value".to_string()), &[]);
    assert_eq!(result, Value::String("value".to_string()));
}

#[test]
fn action_callback_honors_accepted_args_limit() {
    let mut dispatcher = HookDispatcher::default();
    let seen = std::sync::Arc::new(std::sync::Mutex::new(Vec::<String>::new()));
    let seen_ref = std::sync::Arc::clone(&seen);
    dispatcher.add_action_with_accepted_args(
        "sample",
        10,
        1,
        Box::new(move |args| {
            let values = args
                .iter()
                .filter_map(|value| value.as_str())
                .map(str::to_string)
                .collect::<Vec<_>>();
            *seen_ref.lock().expect("lock poisoned") = values;
        }),
    );

    dispatcher.do_action(
        "sample",
        &[
            Value::String("first".to_string()),
            Value::String("second".to_string()),
        ],
    );

    assert_eq!(
        *seen.lock().expect("lock poisoned"),
        vec!["first".to_string()]
    );
}

#[test]
fn filter_callback_honors_accepted_args_limit() {
    let mut dispatcher = HookDispatcher::default();
    dispatcher.add_filter_with_accepted_args(
        "sample",
        10,
        2,
        Box::new(|value, args| {
            let current = value.as_str().unwrap_or_default();
            let joined = args
                .iter()
                .filter_map(|item| item.as_str())
                .collect::<Vec<_>>()
                .join(",");
            Value::String(format!("{current}|{joined}"))
        }),
    );

    let result = dispatcher.apply_filters(
        "sample",
        Value::String("base".to_string()),
        &[
            Value::String("first".to_string()),
            Value::String("second".to_string()),
        ],
    );

    assert_eq!(result, Value::String("base|first".to_string()));
}

#[test]
fn filter_callback_default_accepted_args_passes_no_extra_args() {
    let mut dispatcher = HookDispatcher::default();
    dispatcher.add_filter_with_accepted_args(
        "sample",
        10,
        1,
        Box::new(|value, args| {
            let current = value.as_str().unwrap_or_default();
            Value::String(format!("{current}|{}", args.len()))
        }),
    );

    let result = dispatcher.apply_filters(
        "sample",
        Value::String("base".to_string()),
        &[
            Value::String("first".to_string()),
            Value::String("second".to_string()),
        ],
    );

    assert_eq!(result, Value::String("base|0".to_string()));
}

#[test]
fn did_hook_counts_action_and_filter_dispatches() {
    let mut dispatcher = HookDispatcher::default();
    dispatcher.add_action("init", 10, Box::new(|_| {}));
    dispatcher.add_filter("the_title", 10, Box::new(|value, _| value));

    dispatcher.do_action("init", &[]);
    dispatcher.do_action("init", &[]);
    let _ = dispatcher.apply_filters("the_title", Value::String("hello".to_string()), &[]);

    assert_eq!(dispatcher.did_hook("init"), 2);
    assert_eq!(dispatcher.did_hook("the_title"), 1);
    assert_eq!(dispatcher.did_hook("missing"), 0);
}

#[test]
fn action_callbacks_execute_in_priority_order() {
    let mut dispatcher = HookDispatcher::default();
    let events = Arc::new(Mutex::new(Vec::<String>::new()));

    let late_events = Arc::clone(&events);
    dispatcher.add_action(
        "plugins_loaded",
        20,
        Box::new(move |_| late_events.lock().expect("lock").push("late".to_string())),
    );

    let early_events = Arc::clone(&events);
    dispatcher.add_action(
        "plugins_loaded",
        10,
        Box::new(move |_| early_events.lock().expect("lock").push("early".to_string())),
    );

    dispatcher.do_action("plugins_loaded", &[]);
    assert_eq!(
        events.lock().expect("lock").clone(),
        vec!["early".to_string(), "late".to_string()]
    );
}

#[test]
fn removing_action_prevents_future_execution() {
    let mut dispatcher = HookDispatcher::default();
    let count = Arc::new(Mutex::new(0_u32));
    let count_ref = Arc::clone(&count);
    let callback_id = dispatcher.add_action(
        "init",
        10,
        Box::new(move |_| {
            *count_ref.lock().expect("lock") += 1;
        }),
    );

    assert!(dispatcher.has_action("init"));
    assert!(dispatcher.remove_action("init", callback_id));

    dispatcher.do_action("init", &[]);
    assert_eq!(*count.lock().expect("lock"), 0);
}

#[test]
fn filter_chain_supports_value_transforms() {
    let mut dispatcher = HookDispatcher::default();
    dispatcher.add_filter(
        "the_title",
        10,
        Box::new(|value, _| {
            let value = value.as_str().unwrap_or_default();
            Value::String(format!("[prefix] {value}"))
        }),
    );
    dispatcher.add_filter(
        "the_title",
        20,
        Box::new(|value, _| {
            let value = value.as_str().unwrap_or_default();
            Value::String(format!("{value} [suffix]"))
        }),
    );

    let filtered = dispatcher.apply_filters("the_title", Value::String("Hello".to_string()), &[]);
    assert_eq!(
        filtered,
        Value::String("[prefix] Hello [suffix]".to_string())
    );
}

#[test]
fn callbacks_can_limit_accepted_args() {
    let mut dispatcher = HookDispatcher::default();
    let seen = Arc::new(Mutex::new(Vec::<String>::new()));
    let seen_ref = Arc::clone(&seen);
    dispatcher.add_action_with_accepted_args(
        "init",
        10,
        1,
        Box::new(move |args| {
            let observed = args
                .iter()
                .filter_map(|value| value.as_str())
                .map(str::to_string)
                .collect::<Vec<_>>();
            *seen_ref.lock().expect("lock") = observed;
        }),
    );
    dispatcher.do_action(
        "init",
        &[
            Value::String("first".to_string()),
            Value::String("second".to_string()),
        ],
    );
    assert_eq!(*seen.lock().expect("lock"), vec!["first".to_string()]);

    dispatcher.add_filter_with_accepted_args(
        "sample_filter",
        10,
        1,
        Box::new(|value, args| {
            let value = value.as_str().unwrap_or_default();
            let first = args.first().and_then(Value::as_str).unwrap_or_default();
            Value::String(format!("{value}|{first}"))
        }),
    );
    let filtered = dispatcher.apply_filters(
        "sample_filter",
        Value::String("body".to_string()),
        &[
            Value::String("alpha".to_string()),
            Value::String("beta".to_string()),
        ],
    );
    // A filter's accepted arguments count the filtered value itself, so a
    // filter that accepts one argument receives no extra argument (as in
    // `filter_callback_default_accepted_args_passes_no_extra_args`).
    assert_eq!(filtered, Value::String("body|".to_string()));
}
