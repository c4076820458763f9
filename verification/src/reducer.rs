//! State-transition functions and their composition.
use vstd::prelude::*;
use std::rc::Rc;

verus! {

/// What one application of a state-transition function yields: the next
/// state, the events that describe what changed, and the effects it asks for.
pub ghost struct Transition<State, Event, Effect> {
    pub state: State,
    pub events: Seq<Event>,
    pub effects: Seq<Effect>,
}

/// The result of [`Reducer::reduce`].
///
/// Events are notifications that some part of the state has changed. Effects
/// are requests for side effects; interceptors process them and subscribers
/// never see them.
pub struct ReducerResult<State, Event, Effect> {
    pub state: Rc<State>,
    pub events: Vec<Event>,
    pub effects: Vec<Effect>,
}

impl<State, Event, Effect> View for ReducerResult<State, Event, Effect> {
    type V = Transition<State, Event, Effect>;

    open spec fn view(&self) -> Transition<State, Event, Effect> {
        Transition { state: *self.state, events: self.events@, effects: self.effects@ }
    }
}

impl<State: Default, Event, Effect> Default for ReducerResult<State, Event, Effect> {
    /// The default state, with no events and no effects.
    fn default() -> (result: Self)
        ensures
            call_ensures(State::default, (), result@.state),
            result@.events == Seq::<Event>::empty(),
            result@.effects == Seq::<Effect>::empty(),
    {
        ReducerResult { state: Rc::new(State::default()), events: Vec::new(), effects: Vec::new() }
    }
}

/// A state-transition function: takes the current state and an action and
/// produces the next state, with the events and effects of the change.
///
/// An implementation is a pure function of the state and the action;
/// [`Reducer::transition`] names that function, and everything the store
/// proves about states is stated over it.
pub trait Reducer<State, Action, Event, Effect> {
    /// The transition that this reducer makes from `state` on `action`.
    ///
    /// An implementation that does not say what its transition is still has
    /// one: some function of the reducer, the state and the action.
    open spec fn transition(&self, state: State, action: Action) -> Transition<State, Event, Effect> {
        arbitrary::<spec_fn(&Self, State, Action) -> Transition<State, Event, Effect>>()(
            self,
            state,
            action,
        )
    }

    /// Computes the transition from `prev_state` on `action`. The previous
    /// state is never mutated.
    fn reduce(&self, prev_state: &Rc<State>, action: &Action) -> (result: ReducerResult<
        State,
        Event,
        Effect,
    >)
        ensures
            result@ == self.transition(**prev_state, *action),
    ;
}

/// The transition of a list of reducers applied in order: each one starts
/// from the state that the one before it produced, and the events and effects
/// of all of them are concatenated in that order.
pub open spec fn composite_transition<State, Action, Event, Effect>(
    reducers: Seq<Box<dyn Reducer<State, Action, Event, Effect>>>,
    state: State,
    action: Action,
) -> Transition<State, Event, Effect>
    decreases reducers.len(),
{
    if reducers.len() == 0 {
        Transition { state, events: Seq::empty(), effects: Seq::empty() }
    } else {
        let before = composite_transition(reducers.drop_last(), state, action);
        let step = reducers.last().transition(before.state, action);
        Transition {
            state: step.state,
            events: before.events + step.events,
            effects: before.effects + step.effects,
        }
    }
}

/// A [`Reducer`] composed of several reducers, applied in order.
#[verifier::reject_recursive_types(State)]
#[verifier::reject_recursive_types(Action)]
#[verifier::reject_recursive_types(Event)]
#[verifier::reject_recursive_types(Effect)]
pub struct CompositeReducer<State, Action, Event, Effect> {
    reducers: Vec<Box<dyn Reducer<State, Action, Event, Effect>>>,
}

impl<State, Action, Event, Effect> CompositeReducer<State, Action, Event, Effect> {
    /// The reducers of this composite, in the order in which they are applied.
    pub closed spec fn reducers(&self) -> Seq<Box<dyn Reducer<State, Action, Event, Effect>>> {
        self.reducers@
    }

    /// Creates a composite of `reducers`, which are applied first to last.
    pub fn new(reducers: Vec<Box<dyn Reducer<State, Action, Event, Effect>>>) -> (composite: Self)
        ensures
            composite.reducers() == reducers@,
    {
        CompositeReducer { reducers }
    }
}

impl<State, Action, Event, Effect> Reducer<State, Action, Event, Effect> for CompositeReducer<
    State,
    Action,
    Event,
    Effect,
> {
    open spec fn transition(&self, state: State, action: Action) -> Transition<
        State,
        Event,
        Effect,
    > {
        composite_transition(self.reducers(), state, action)
    }

    fn reduce(&self, prev_state: &Rc<State>, action: &Action) -> (result: ReducerResult<
        State,
        Event,
        Effect,
    >) {
        let mut sum_result = ReducerResult {
            state: prev_state.clone(),
            events: Vec::new(),
            effects: Vec::new(),
        };
        let mut i: usize = 0;
        while i < self.reducers.len()
            invariant
                i <= self.reducers.len(),
                sum_result@ == composite_transition(
                    self.reducers@.take(i as int),
                    **prev_state,
                    *action,
                ),
            decreases self.reducers.len() - i,
        {
            let mut result = self.reducers[i].reduce(&sum_result.state, action);
            sum_result.state = result.state;
            sum_result.events.append(&mut result.events);
            sum_result.effects.append(&mut result.effects);
            assert(self.reducers@.take(i + 1).drop_last() =~= self.reducers@.take(i as int));
            i = i + 1;
        }
        assert(self.reducers@.take(i as int) =~= self.reducers@);
        sum_result
    }
}

/// A composite of no reducers leaves the state as it is and yields nothing.
pub proof fn lemma_composite_of_none<State, Action, Event, Effect>(state: State, action: Action)
    ensures
        composite_transition::<State, Action, Event, Effect>(Seq::empty(), state, action)
            == (Transition::<State, Event, Effect> {
            state,
            events: Seq::empty(),
            effects: Seq::empty(),
        }),
{
}

/// A composite of two reducers yields the state that the second reducer
/// produces from the state that the first one produced, and the events and
/// effects of the first followed by those of the second.
pub proof fn lemma_composite_of_two<State, Action, Event, Effect>(
    reducers: Seq<Box<dyn Reducer<State, Action, Event, Effect>>>,
    state: State,
    action: Action,
)
    requires
        reducers.len() == 2,
    ensures
        composite_transition(reducers, state, action) == ({
            let one = reducers[0].transition(state, action);
            let two = reducers[1].transition(one.state, action);
            Transition {
                state: two.state,
                events: one.events + two.events,
                effects: one.effects + two.effects,
            }
        }),
{
    reveal_with_fuel(composite_transition, 3);
    let only = reducers.drop_last();
    assert(only.drop_last() =~= Seq::<Box<dyn Reducer<State, Action, Event, Effect>>>::empty());
    let none = composite_transition(only.drop_last(), state, action);
    let one = reducers[0].transition(state, action);
    assert(only.last() == reducers[0]);
    assert(none.events + one.events =~= one.events);
    assert(none.effects + one.effects =~= one.effects);
}

/// Appending a reducer to a composite applies it after all the others: the
/// composite of a non-empty list is the composite of all but the last,
/// followed by the last.
pub proof fn lemma_composite_last<State, Action, Event, Effect>(
    reducers: Seq<Box<dyn Reducer<State, Action, Event, Effect>>>,
    state: State,
    action: Action,
)
    requires
        reducers.len() > 0,
    ensures
        composite_transition(reducers, state, action) == ({
            let before = composite_transition(reducers.drop_last(), state, action);
            let step = reducers.last().transition(before.state, action);
            Transition {
                state: step.state,
                events: before.events + step.events,
                effects: before.effects + step.effects,
            }
        }),
{
}

} // verus!
