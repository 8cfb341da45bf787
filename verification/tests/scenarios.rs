use std::cell::RefCell;
use std::rc::Rc;

use selstore::Selector;
use selstore::ServiceContext;
use selstore::Store;
use selstore::StoreContext;
use selstore::Subscriber;
use selstore::UseStoreHandle;

struct CountState {
    count: i32,
}

struct CountSelector;

impl Selector<CountState, i32> for CountSelector {
    // ghost interface item; never called at run time
    fn spec_select(self, _state: CountState) -> i32 {
        unreachable!()
    }

    fn select(&self, state: &CountState) -> i32 {
        state.count
    }
}

type CountRegistry = UseStoreHandle<CountSelector, i32>;

fn attached_registry(store: &Store<CountState, CountRegistry>) -> CountRegistry {
    let mut reg = CountRegistry::new();
    reg.end_pass();
    reg.map(CountSelector, store.state()).unwrap();
    reg
}

#[test]
fn two_observers_should_each_wake_once_and_read_the_new_count() {
    let ctx: StoreContext<CountState, CountRegistry> = StoreContext::new(CountState { count: 0 });
    let mut store = ctx.store;
    let first = attached_registry(&store);
    let second = attached_registry(&store);
    store.subscribe(first);
    store.subscribe(second);

    store.set_state(CountState { count: 1 });

    assert_eq!(store.subscribers().len(), 2);
    assert_eq!(store.subscribers()[0].wake_count(), 1);
    assert_eq!(store.subscribers()[1].wake_count(), 1);
    // each woken observer re-runs its evaluation pass and reads the new count;
    // removing position 0 twice visits both observers, since re-subscribing
    // appends at the end
    for _ in 0..2 {
        let mut reg = store.remove_subscriber(0);
        reg.end_pass();
        let value = reg.map(CountSelector, store.state()).unwrap();
        assert_eq!(value, 1);
        store.subscribe(reg);
    }
}

#[test]
fn detached_observer_is_not_woken_and_is_pruned_on_the_next_transition() {
    let mut store: Store<CountState, CountRegistry> = Store::new(CountState { count: 0 });
    let reg = attached_registry(&store);
    store.subscribe(reg);

    store.set_state(CountState { count: 1 });
    assert_eq!(store.subscribers()[0].wake_count(), 1);

    let mut reg = store.remove_subscriber(0);
    reg.end_pass();
    reg.map(CountSelector, store.state()).unwrap();
    reg.detach();
    store.subscribe(reg);
    assert_eq!(store.subscribers().len(), 1);

    store.set_state(CountState { count: 2 });
    // the detached observer was not woken, and its entry is gone
    assert_eq!(store.subscribers().len(), 0);
}

enum ChainSub {
    Writer { fired: Rc<RefCell<bool>> },
    Recorder { log: Rc<RefCell<Vec<(i32, i32)>>> },
}

impl Subscriber<i32> for ChainSub {
    // ghost interface items; never called at run time
    fn inv(self) -> bool {
        unreachable!()
    }

    fn spec_keep(self, _prev: i32, _next: i32) -> bool {
        unreachable!()
    }

    fn spec_request(self, _prev: i32, _next: i32) -> Option<i32> {
        unreachable!()
    }

    fn spec_after(self, _prev: i32, _next: i32, _post: Self) -> bool {
        unreachable!()
    }

    fn notify(&mut self, prev: &i32, next: &i32) -> (bool, Option<i32>) {
        match self {
            ChainSub::Writer { fired } => {
                if *fired.borrow() {
                    (true, None)
                } else {
                    *fired.borrow_mut() = true;
                    (true, Some(*next + 1))
                }
            },
            ChainSub::Recorder { log } => {
                log.borrow_mut().push((*prev, *next));
                (true, None)
            },
        }
    }
}

#[test]
fn reentrant_write_should_show_later_subscribers_the_final_state() {
    let mut store: Store<i32, ChainSub> = Store::new(0);
    let fired = Rc::new(RefCell::new(false));
    let log = Rc::new(RefCell::new(vec![]));
    store.subscribe(ChainSub::Writer { fired: fired.clone() });
    store.subscribe(ChainSub::Recorder { log: log.clone() });

    store.set_state(1);

    // the writer saw (0, 1) and wrote 2; the recorder, notified after it,
    // observed the final state 2, never the intermediate 1
    assert_eq!(*log.borrow(), vec![(1, 2)]);
    assert_eq!(*store.state(), 2);
    assert_eq!(*store.previous(), 1);
}

struct CounterService {
    step: i32,
}

impl CounterService {
    fn next(&self, count: i32) -> i32 {
        count + self.step
    }
}

#[test]
fn service_context_shares_one_service_value() {
    let service = ServiceContext::new(CounterService { step: 2 });
    let other = ServiceContext { service: service.service.clone() };
    assert_eq!(service.service.next(3), 5);
    assert_eq!(other.service.next(3), 5);
    assert!(Rc::ptr_eq(&service.service, &other.service));
}

#[test]
fn store_context_starts_with_equal_current_and_previous_state() {
    let ctx: StoreContext<CountState, CountRegistry> = StoreContext::new(CountState { count: 7 });
    assert_eq!(ctx.store.state().count, 7);
    assert_eq!(ctx.store.previous().count, 7);
    assert_eq!(ctx.store.subscribers().len(), 0);
}
