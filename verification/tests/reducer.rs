use reactive_state::{CompositeReducer, Reducer, ReducerResult};
use std::rc::Rc;

struct TestState {
    emitted_events: Vec<TestEvent>,
}

impl Default for TestState {
    fn default() -> Self {
        TestState {
            emitted_events: Vec::new(),
        }
    }
}

struct TestAction;

#[derive(Debug, Clone, PartialEq)]
enum TestEvent {
    Event1,
    Event2,
}

#[derive(Debug, PartialEq)]
enum TestEffect {
    Effect1,
    Effect2,
}

struct Reducer1;

impl Reducer<TestState, TestAction, TestEvent, TestEffect> for Reducer1 {
    fn reduce(
        &self,
        prev_state: &Rc<TestState>,
        _action: &TestAction,
    ) -> ReducerResult<TestState, TestEvent, TestEffect> {
        let mut emitted_events = prev_state.emitted_events.clone();
        emitted_events.push(TestEvent::Event1);
        let state = Rc::new(TestState { emitted_events });

        ReducerResult {
            state,
            events: vec![TestEvent::Event1],
            effects: vec![TestEffect::Effect1],
        }
    }
}

struct Reducer2;

impl Reducer<TestState, TestAction, TestEvent, TestEffect> for Reducer2 {
    fn reduce(
        &self,
        prev_state: &Rc<TestState>,
        _action: &TestAction,
    ) -> ReducerResult<TestState, TestEvent, TestEffect> {
        let mut emitted_events = prev_state.emitted_events.clone();
        emitted_events.push(TestEvent::Event2);
        let state = Rc::new(TestState { emitted_events });

        ReducerResult {
            state,
            events: vec![TestEvent::Event2],
            effects: vec![TestEffect::Effect2],
        }
    }
}

#[test]
fn composite_reducer() {
    let reducer = CompositeReducer::new(vec![Box::new(Reducer1), Box::new(Reducer2)]);

    let result = reducer.reduce(&Rc::new(TestState::default()), &TestAction);
    assert_eq!(
        result.state.emitted_events,
        vec![TestEvent::Event1, TestEvent::Event2]
    );
    assert_eq!(result.events, vec![TestEvent::Event1, TestEvent::Event2]);
    assert_eq!(
        result.effects,
        vec![TestEffect::Effect1, TestEffect::Effect2]
    );
}
