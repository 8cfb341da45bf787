use std::cell::RefCell;
use std::rc::Rc;

use selstore::Store;
use selstore::Subscriber;

struct TestSub {
    notified_values: Rc<RefCell<Vec<(i32, i32)>>>,
    is_sub_active: Rc<RefCell<bool>>,
}

impl Subscriber<i32> for TestSub {
    // ghost interface items; never called at run time
    fn inv(self) -> bool {
        unreachable!()
    }

    fn spec_keep(self, _prev: i32, _next: i32) -> bool {
        unreachable!()
    }

    fn spec_request(self, _prev: i32, _next: i32) -> Option<i32> {
        unreachable!()
    }

    fn spec_after(self, _prev: i32, _next: i32, _post: Self) -> bool {
        unreachable!()
    }

    fn notify(&mut self, prev: &i32, next: &i32) -> (bool, Option<i32>) {
        self.notified_values.borrow_mut().push((*prev, *next));
        (*self.is_sub_active.borrow(), None)
    }
}

struct TestContext {
    notified_values: Rc<RefCell<Vec<(i32, i32)>>>,
    is_sub_active: Rc<RefCell<bool>>,
    store: Store<i32, TestSub>,
}

fn setup(initial_state: i32) -> TestContext {
    let mut store = Store::new(initial_state);
    let notified_values = Rc::new(RefCell::new(vec![]));
    let is_sub_active = Rc::new(RefCell::new(true));
    store.subscribe(TestSub {
        notified_values: notified_values.clone(),
        is_sub_active: is_sub_active.clone(),
    });
    TestContext { notified_values, is_sub_active, store }
}

#[test]
fn set_state_with_new_state_should_update_current_state() {
    //Given
    let mut ctx = setup(0);
    //When
    ctx.store.set_state(1);
    //Then
    assert_eq!(*ctx.store.state(), 1);
}

#[test]
fn set_state_with_new_state_should_update_previous_state() {
    //Given
    let mut ctx = setup(0);
    ctx.store.set_state(1);
    //When
    ctx.store.set_state(2);
    //Then
    assert_eq!(*ctx.store.previous(), 1);
}

#[test]
fn set_state_with_new_state_should_notify() {
    //Given
    let mut ctx = setup(0);
    //When
    ctx.store.set_state(1);
    //Then
    assert_eq!(*ctx.notified_values.borrow(), vec![(0, 1)]);
}

#[test]
fn set_state_with_subscription_no_longer_active_should_no_longer_notify() {
    //Given
    let mut ctx = setup(0);
    *ctx.is_sub_active.borrow_mut() = false;
    ctx.store.set_state(1);
    let notify_count = ctx.notified_values.borrow().len();
    //When
    ctx.store.set_state(2);
    //Then
    assert_eq!(ctx.notified_values.borrow().len(), notify_count);
}

#[test]
fn set_state_with_subscription_no_longer_active_should_drop_subscription() {
    //Given
    let mut ctx = setup(0);
    let sub_count = ctx.store.subscribers().len();
    *ctx.is_sub_active.borrow_mut() = false;
    ctx.store.set_state(1);
    //When
    ctx.store.set_state(2);
    //Then
    assert_eq!(ctx.store.subscribers().len(), sub_count - 1);
}

#[test]
fn subscribe_with_callback_should_add_callback_to_subscriptions() {
    //Given
    let mut ctx = setup(0);
    let sub_count = ctx.store.subscribers().len();
    //When
    ctx.store.subscribe(TestSub {
        notified_values: ctx.notified_values.clone(),
        is_sub_active: Rc::new(RefCell::new(false)),
    });
    //Then
    assert_eq!(ctx.store.subscribers().len(), sub_count + 1);
}
