use selstore::Selector;
use selstore::StoreError;
use selstore::UseStoreHandle;

struct StoreState {
    value: i32,
}

struct ValueSelector;

impl Selector<StoreState, i32> for ValueSelector {
    // ghost interface item; never called at run time
    fn spec_select(self, _state: StoreState) -> i32 {
        unreachable!()
    }

    fn select(&self, state: &StoreState) -> i32 {
        state.value
    }
}

struct TriState {
    a: i32,
    b: i32,
    c: i32,
}

enum TriSelector {
    A,
    B,
    C,
}

impl Selector<TriState, i32> for TriSelector {
    // ghost interface item; never called at run time
    fn spec_select(self, _state: TriState) -> i32 {
        unreachable!()
    }

    fn select(&self, state: &TriState) -> i32 {
        match self {
            TriSelector::A => state.a,
            TriSelector::B => state.b,
            TriSelector::C => state.c,
        }
    }
}

fn value_registry() -> UseStoreHandle<ValueSelector, i32> {
    let mut reg = UseStoreHandle::new();
    reg.end_pass();
    reg
}

#[test]
fn map_on_first_pass_should_return_value_from_state() {
    let mut reg = value_registry();
    let value = reg.map(ValueSelector, &StoreState { value: 42 }).unwrap();
    assert_eq!(value, 42);
}

#[test]
fn map_on_later_pass_should_return_cached_value() {
    let mut reg = value_registry();
    reg.map(ValueSelector, &StoreState { value: 3 }).unwrap();
    reg.end_pass();
    // the cache, not the state handed in, decides what map returns
    let value = reg.map(ValueSelector, &StoreState { value: 9 }).unwrap();
    assert_eq!(value, 3);
}

#[test]
fn map_after_notified_change_should_return_updated_value() {
    let mut reg = value_registry();
    reg.map(ValueSelector, &StoreState { value: 0 }).unwrap();
    let woken = reg
        .on_transition(&StoreState { value: 0 }, &StoreState { value: 1 })
        .unwrap();
    assert!(woken);
    reg.end_pass();
    let value = reg.map(ValueSelector, &StoreState { value: 1 }).unwrap();
    assert_eq!(value, 1);
}

#[test]
fn unchanged_value_should_not_wake() {
    let mut reg = value_registry();
    reg.map(ValueSelector, &StoreState { value: 0 }).unwrap();
    let woken = reg
        .on_transition(&StoreState { value: 0 }, &StoreState { value: 0 })
        .unwrap();
    assert!(!woken);
    assert_eq!(reg.wake_count(), 0);
}

#[test]
fn changed_value_should_wake_exactly_once() {
    let mut reg = value_registry();
    reg.map(ValueSelector, &StoreState { value: 0 }).unwrap();
    let woken = reg
        .on_transition(&StoreState { value: 0 }, &StoreState { value: 1 })
        .unwrap();
    assert!(woken);
    assert_eq!(reg.wake_count(), 1);
}

#[test]
fn three_changed_selectors_should_wake_once_not_three_times() {
    let mut reg: UseStoreHandle<TriSelector, i32> = UseStoreHandle::new();
    reg.end_pass();
    let s0 = TriState { a: 0, b: 0, c: 0 };
    reg.map(TriSelector::A, &s0).unwrap();
    reg.map(TriSelector::B, &s0).unwrap();
    reg.map(TriSelector::C, &s0).unwrap();
    let s1 = TriState { a: 1, b: 2, c: 3 };
    let woken = reg.on_transition(&s0, &s1).unwrap();
    assert!(woken);
    assert_eq!(reg.wake_count(), 1);
}

#[test]
fn map_ref_should_return_current_value_and_wake_on_change() {
    let mut reg = value_registry();
    let value = reg.map_ref(ValueSelector, &StoreState { value: 5 }).unwrap();
    assert_eq!(value, 5);
    let woken = reg
        .on_transition(&StoreState { value: 5 }, &StoreState { value: 6 })
        .unwrap();
    assert!(woken);
    assert_eq!(reg.wake_count(), 1);
}

#[test]
fn watch_ref_unchanged_should_not_wake() {
    let mut reg = value_registry();
    reg.watch_ref(ValueSelector).unwrap();
    let woken = reg
        .on_transition(&StoreState { value: 7 }, &StoreState { value: 7 })
        .unwrap();
    assert!(!woken);
    assert_eq!(reg.wake_count(), 0);
}

#[test]
fn watch_changed_should_wake() {
    let mut reg = value_registry();
    reg.watch(ValueSelector, &StoreState { value: 0 }).unwrap();
    let woken = reg
        .on_transition(&StoreState { value: 0 }, &StoreState { value: 4 })
        .unwrap();
    assert!(woken);
    assert_eq!(reg.wake_count(), 1);
}

#[test]
fn fewer_selectors_on_second_pass_should_fail_with_count_mismatch() {
    let mut reg = value_registry();
    reg.map(ValueSelector, &StoreState { value: 0 }).unwrap();
    reg.map(ValueSelector, &StoreState { value: 0 }).unwrap();
    reg.end_pass();
    reg.map(ValueSelector, &StoreState { value: 0 }).unwrap();
    let result = reg.on_transition(&StoreState { value: 0 }, &StoreState { value: 1 });
    assert_eq!(result, Err(StoreError::SelectorCountMismatch));
}

#[test]
fn more_selectors_on_second_pass_should_fail_with_count_mismatch() {
    let mut reg = value_registry();
    reg.map(ValueSelector, &StoreState { value: 0 }).unwrap();
    reg.end_pass();
    reg.map(ValueSelector, &StoreState { value: 0 }).unwrap();
    let result = reg.map(ValueSelector, &StoreState { value: 0 });
    assert_eq!(result, Err(StoreError::SelectorCountMismatch));
}

#[test]
fn swapped_selector_kind_on_second_pass_should_fail_with_kind_mismatch() {
    let mut reg = value_registry();
    reg.map(ValueSelector, &StoreState { value: 0 }).unwrap();
    reg.end_pass();
    let result = reg.map_ref(ValueSelector, &StoreState { value: 0 });
    assert_eq!(result, Err(StoreError::SelectorKindMismatch));
}

#[test]
fn detach_should_silence_and_be_idempotent() {
    let mut reg = value_registry();
    reg.map(ValueSelector, &StoreState { value: 0 }).unwrap();
    reg.detach();
    assert!(!reg.is_active());
    // detaching an already-detached registry is a no-op, not an error
    reg.detach();
    assert!(!reg.is_active());
    let woken = reg
        .on_transition(&StoreState { value: 0 }, &StoreState { value: 1 })
        .unwrap();
    assert!(!woken);
    assert_eq!(reg.wake_count(), 0);
}

#[test]
fn no_declared_selectors_should_never_wake() {
    let mut reg = value_registry();
    let woken = reg
        .on_transition(&StoreState { value: 0 }, &StoreState { value: 1 })
        .unwrap();
    assert!(!woken);
    assert_eq!(reg.wake_count(), 0);
}

#[test]
fn error_messages_should_describe_the_violation() {
    assert!(StoreError::SelectorCountMismatch.message().contains("number of selectors"));
    assert!(StoreError::SelectorKindMismatch.message().contains("same order"));
}
