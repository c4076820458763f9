use reactive_state::middleware::ReduceMiddlewareResult;
use reactive_state::{
    all_events_none, AsListener, Callback, CompositeReducer, Listener, Reducer, ReducerResult,
    Store, StoreEvent,
};
use std::cell::RefCell;
use std::rc::Rc;

#[derive(Debug, Clone, PartialEq, Eq, Hash)]
enum Tag {
    Named(u8),
    Blank,
}

impl StoreEvent for Tag {
    fn none() -> Self {
        Tag::Blank
    }

    fn is_none(&self) -> bool {
        *self == Tag::Blank
    }
}

#[test]
fn no_events_are_all_none() {
    let nothing: Vec<Tag> = Vec::new();
    assert!(all_events_none(&nothing));
}

#[test]
fn a_single_event_decides() {
    assert!(all_events_none(&[Tag::Blank]));
    assert!(!all_events_none(&[Tag::Named(1)]));
    assert!(!all_events_none(&[Tag::Blank, Tag::Blank, Tag::Named(2)]));
    assert!(!all_events_none(&[Tag::Named(3), Tag::Blank, Tag::Blank]));
}

#[test]
fn unit_is_always_the_sentinel() {
    assert!(().is_none());
    assert!(<() as StoreEvent>::none().is_none());
    assert!(all_events_none(&[(), (), ()]));
}

#[test]
fn default_results_are_empty() {
    let reduced: ReducerResult<u32, Tag, u8> = ReducerResult::default();
    assert_eq!(*reduced.state, 0);
    assert!(reduced.events.is_empty());
    assert!(reduced.effects.is_empty());

    let passed: ReduceMiddlewareResult<Tag, u8> = ReduceMiddlewareResult::default();
    assert!(passed.events.is_empty());
    assert!(passed.effects.is_empty());
}

/// Appends its own number to the state, and emits it as event and effect.
struct Append(u8);

impl Reducer<Vec<u8>, u8, Tag, u8> for Append {
    fn reduce(&self, prev_state: &Rc<Vec<u8>>, action: &u8) -> ReducerResult<Vec<u8>, Tag, u8> {
        let mut state = (**prev_state).clone();
        state.push(self.0 + action);
        ReducerResult {
            state: Rc::new(state),
            events: vec![Tag::Named(self.0)],
            effects: vec![self.0, *action],
        }
    }
}

#[test]
fn composite_of_no_reducers_changes_nothing() {
    let reducer: CompositeReducer<Vec<u8>, u8, Tag, u8> = CompositeReducer::new(Vec::new());
    let start = Rc::new(vec![7u8]);
    let result = reducer.reduce(&start, &1);
    assert_eq!(*result.state, vec![7]);
    assert!(Rc::ptr_eq(&result.state, &start));
    assert!(result.events.is_empty());
    assert!(result.effects.is_empty());
}

#[test]
fn composite_of_two_is_the_second_after_the_first() {
    let start = Rc::new(vec![0u8]);
    let action = 5u8;
    let one = Append(10).reduce(&start, &action);
    let two = Append(20).reduce(&one.state, &action);

    let reducer = CompositeReducer::new(vec![
        Box::new(Append(10)) as Box<dyn Reducer<Vec<u8>, u8, Tag, u8>>,
        Box::new(Append(20)),
    ]);
    let result = reducer.reduce(&start, &action);
    assert_eq!(*result.state, *two.state);
    assert_eq!(*result.state, vec![0, 15, 25]);
    assert_eq!(result.events, vec![Tag::Named(10), Tag::Named(20)]);
    assert_eq!(result.effects, vec![10, 5, 20, 5]);
    assert_eq!(*start, vec![0]);
}

#[test]
fn composite_applies_its_reducers_first_to_last() {
    let reducer = CompositeReducer::new(vec![
        Box::new(Append(3)) as Box<dyn Reducer<Vec<u8>, u8, Tag, u8>>,
        Box::new(Append(1)),
        Box::new(Append(2)),
    ]);
    let result = reducer.reduce(&Rc::new(Vec::new()), &0);
    assert_eq!(*result.state, vec![3, 1, 2]);
    assert_eq!(
        result.events,
        vec![Tag::Named(3), Tag::Named(1), Tag::Named(2)]
    );
    assert_eq!(result.effects, vec![3, 0, 1, 0, 2, 0]);
}

#[test]
fn a_composite_serves_as_the_reducer_of_a_store() {
    let reducer = CompositeReducer::new(vec![
        Box::new(Append(1)) as Box<dyn Reducer<Vec<u8>, u8, Tag, u8>>,
        Box::new(Append(2)),
    ]);
    let mut store: Store<Vec<u8>, u8, Tag, u8> = Store::new(reducer, Vec::new());
    store.dispatch(10u8);
    store.dispatch(20u8);
    assert_eq!(*store.state(), vec![11, 12, 21, 22]);
}

#[test]
fn a_listener_reaches_its_callback_while_an_owner_lives() {
    let calls = Rc::new(RefCell::new(Vec::new()));
    let seen = calls.clone();
    let callback: Callback<u32, Tag> = Callback::new(move |state: Rc<u32>, event: Tag| {
        seen.borrow_mut().push((*state, event));
    });
    let listener: Listener<u32, Tag> = (&callback).as_listener();
    let again = listener.as_listener();
    let copy = listener.clone();

    let reached = listener.as_callback();
    assert!(reached.is_some());
    reached.unwrap().emit(Rc::new(4), Tag::Named(1));
    again.as_callback().unwrap().emit(Rc::new(5), Tag::Blank);
    callback.emit(Rc::new(6), Tag::Named(2));
    assert_eq!(
        *calls.borrow(),
        vec![(4, Tag::Named(1)), (5, Tag::Blank), (6, Tag::Named(2))]
    );

    drop(callback);
    assert!(listener.as_callback().is_none());
    assert!(again.as_callback().is_none());
    assert!(copy.as_callback().is_none());
}

#[test]
fn a_listener_can_be_subscribed_in_place_of_its_callback() {
    let calls = Rc::new(RefCell::new(0u32));
    let seen = calls.clone();
    let callback: Callback<Vec<u8>, Tag> = Callback::new(move |_: Rc<Vec<u8>>, _: Tag| {
        *seen.borrow_mut() += 1;
    });
    let listener = (&callback).as_listener();
    let mut store: Store<Vec<u8>, u8, Tag, u8> = Store::new(Append(0), Vec::new());
    store.subscribe(listener);
    store.dispatch(1u8);
    assert_eq!(*calls.borrow(), 1);
    assert_eq!(store.listener_count(), 1);
    drop(callback);
    store.dispatch(1u8);
    assert_eq!(*calls.borrow(), 1);
    assert_eq!(store.listener_count(), 0);
}

/// An action type of its own that converts into the store's.
struct Twice(u8);

impl From<Twice> for u8 {
    fn from(value: Twice) -> u8 {
        value.0 * 2
    }
}

#[test]
fn dispatch_converts_its_argument() {
    let mut store: Store<Vec<u8>, u8, Tag, u8> = Store::new(Append(0), Vec::new());
    store.dispatch(Twice(4));
    store.dispatch(3u8);
    assert_eq!(*store.state(), vec![8, 3]);
}
