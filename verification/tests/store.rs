use reactive_state::middleware::{Middleware, ReduceFn, ReduceMiddlewareResult};
use reactive_state::{Callback, Reducer, ReducerResult, Store, StoreEvent, StoreRef};
use std::{cell::RefCell, rc::Rc};

#[derive(Debug, PartialEq)]
struct TestState {
    counter: i32,
}

#[derive(Copy, Clone)]
enum TestAction {
    Increment,
    Decrement,
    Decrement2,
    Decrent2Then1,
}

enum TestEffect {
    ChainAction(TestAction),
}

struct TestReducer;

impl Reducer<TestState, TestAction, TestEvent, TestEffect> for TestReducer {
    fn reduce(
        &self,
        state: &Rc<TestState>,
        action: &TestAction,
    ) -> ReducerResult<TestState, TestEvent, TestEffect> {
        let mut events = Vec::new();
        let mut effects = Vec::new();

        let new_state = match action {
            TestAction::Increment => TestState {
                counter: state.counter + 1,
            },
            TestAction::Decrement => TestState {
                counter: state.counter - 1,
            },
            TestAction::Decrement2 => TestState {
                counter: state.counter - 2,
            },
            TestAction::Decrent2Then1 => {
                effects.push(TestEffect::ChainAction(TestAction::Decrement));

                TestState {
                    counter: state.counter - 2,
                }
            }
        };

        // All actions change the counter.
        events.push(TestEvent::CounterChanged);

        if new_state.counter != state.counter && new_state.counter == 0 {
            events.push(TestEvent::CounterIsZero);
        }

        ReducerResult {
            state: Rc::new(new_state),
            events,
            effects,
        }
    }
}

struct TestReduceMiddleware {
    new_action: TestAction,
}

impl Middleware<TestState, TestAction, TestEvent, TestEffect> for TestReduceMiddleware {
    fn on_reduce(
        &self,
        store: &mut Store<TestState, TestAction, TestEvent, TestEffect>,
        action: Option<&TestAction>,
        reduce: ReduceFn<TestState, TestAction, TestEvent, TestEffect>,
    ) -> ReduceMiddlewareResult<TestEvent, TestEffect> {
        reduce.call(store, action.map(|_| &self.new_action))
    }
}

struct TestEffectMiddleware;

impl Middleware<TestState, TestAction, TestEvent, TestEffect> for TestEffectMiddleware {
    fn process_effect(
        &self,
        store: &mut Store<TestState, TestAction, TestEvent, TestEffect>,
        effect: TestEffect,
    ) -> Option<TestEffect> {
        match effect {
            TestEffect::ChainAction(action) => {
                store.dispatch(action);
            }
        }

        None
    }
}

#[derive(Debug, PartialEq, Eq, Hash, Clone)]
enum TestEvent {
    CounterIsZero,
    CounterChanged,
    NoEvent,
}

impl StoreEvent for TestEvent {
    fn none() -> Self {
        Self::NoEvent
    }

    fn is_none(&self) -> bool {
        match self {
            TestEvent::NoEvent => true,
            _ => false,
        }
    }
}

#[test]
fn test_notify() {
    let initial_state = TestState { counter: 0 };
    let store: Rc<RefCell<Store<TestState, TestAction, TestEvent, TestEffect>>> =
        Rc::new(RefCell::new(Store::new(TestReducer, initial_state)));

    let callback_test = Rc::new(RefCell::new(0));
    let callback_test_copy = callback_test.clone();
    let callback: Callback<TestState, TestEvent> =
        Callback::new(move |state: Rc<TestState>, _| {
            *callback_test_copy.borrow_mut() = state.counter;
        });

    store.borrow_mut().subscribe(&callback);

    assert_eq!(0, store.borrow().state().counter);

    store.borrow_mut().dispatch(TestAction::Increment);
    store.borrow_mut().dispatch(TestAction::Increment);
    assert_eq!(2, *callback_test.borrow());
    assert_eq!(2, store.borrow().state().counter);

    store.borrow_mut().dispatch(TestAction::Decrement);
    assert_eq!(1, store.borrow().state().counter);
}

#[test]
fn test_reduce_middleware() {
    let initial_state = TestState { counter: 0 };
    let mut store = StoreRef::new(TestReducer, initial_state);

    let callback_test = Rc::new(RefCell::new(0));
    let callback_test_copy = callback_test.clone();
    let callback: Callback<TestState, TestEvent> =
        Callback::new(move |state: Rc<TestState>, _| {
            *callback_test_copy.borrow_mut() = state.counter;
        });

    store.subscribe(&callback);
    store.add_middleware(TestReduceMiddleware {
        new_action: TestAction::Decrement,
    });
    store.add_middleware(TestReduceMiddleware {
        new_action: TestAction::Decrement2,
    });

    store.dispatch(TestAction::Increment);
    assert_eq!(-2, *callback_test.borrow());
}

#[test]
fn test_reduce_middleware_reverse_order() {
    let initial_state = TestState { counter: 0 };
    let mut store = StoreRef::new(TestReducer, initial_state);

    let callback_test = Rc::new(RefCell::new(0));
    let callback_test_copy = callback_test.clone();
    let callback: Callback<TestState, TestEvent> =
        Callback::new(move |state: Rc<TestState>, _| {
            *callback_test_copy.borrow_mut() = state.counter;
        });

    store.subscribe(&callback);
    store.add_middleware(TestReduceMiddleware {
        new_action: TestAction::Decrement2,
    });
    store.add_middleware(TestReduceMiddleware {
        new_action: TestAction::Decrement,
    });

    store.dispatch(TestAction::Increment);
    assert_eq!(-1, *callback_test.borrow());
}

#[test]
fn test_effect_middleware() {
    let initial_state = TestState { counter: 0 };
    let mut store = StoreRef::new(TestReducer, initial_state);
    store.add_middleware(TestEffectMiddleware);

    assert_eq!(store.state().counter, 0);
    store.dispatch(TestAction::Decrent2Then1);
    assert_eq!(store.state().counter, -3);
}

#[test]
fn test_subscribe_event() {
    let initial_state = TestState { counter: -2 };
    let mut store = StoreRef::new(TestReducer, initial_state);

    let callback_test: Rc<RefCell<Option<TestEvent>>> = Rc::new(RefCell::new(None));
    let callback_test_copy = callback_test.clone();

    let callback_zero_subscription: Callback<TestState, TestEvent> =
        Callback::new(move |_: Rc<TestState>, event| {
            assert_eq!(TestEvent::CounterIsZero, event);
            *callback_test_copy.borrow_mut() = Some(TestEvent::CounterIsZero);
        });

    store.subscribe_event(&callback_zero_subscription, TestEvent::CounterIsZero);
    store.dispatch(TestAction::Increment);
    assert_eq!(None, *callback_test.borrow());
    store.dispatch(TestAction::Increment);
    assert_eq!(Some(TestEvent::CounterIsZero), *callback_test.borrow());
}
