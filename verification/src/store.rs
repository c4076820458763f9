//! The dispatch engine: the store, its queues, and the drain loop.
use vstd::prelude::*;
use vstd::std_specs::convert::IntoSpec;
use vstd::std_specs::hash::obeys_key_model;
use std::collections::HashSet;
use std::collections::VecDeque;
use std::hash::Hash;
use std::rc::Rc;
use crate::event::StoreEvent;
use crate::listener::{AsListener, Callback, Listener};
use crate::middleware::{Middleware, MiddlewareHandle, NotifyFn, ReduceFn, ReduceMiddlewareResult};
use crate::model::{
    added_interceptors, added_listeners, descending_below, lemma_descending_gap,
    is_drain, is_run, is_step, lemma_swept_keeps_survivors, selected, swept, StoreView,
};
use crate::reducer::Reducer;

verus! {

/// A subscription: a weak handle to a callback, and the events that the
/// callback wants to hear of. An empty set means every change.
#[verifier::reject_recursive_types(State)]
#[verifier::reject_recursive_types(Event)]
pub struct ListenerEventPair<State, Event> {
    listener: Listener<State, Event>,
    events: HashSet<Event>,
}

impl<State, Event> ListenerEventPair<State, Event> {
    /// The weak handle to the callback of this subscription.
    pub closed spec fn listener(&self) -> Listener<State, Event> {
        self.listener
    }

    /// The events that this subscription is interested in.
    pub closed spec fn filter(&self) -> Set<Event> {
        self.events@
    }
}

/// A change to the store's subscribers or interceptors that waits in the
/// deferred-mutation queue until the next action is taken up.
#[verifier::reject_recursive_types(State)]
#[verifier::reject_recursive_types(Action)]
#[verifier::reject_recursive_types(Event)]
#[verifier::reject_recursive_types(Effect)]
pub enum StoreModification<State, Action, Event, Effect> {
    AddListener(ListenerEventPair<State, Event>),
    AddMiddleware(MiddlewareHandle<State, Action, Event, Effect>),
}

/// The single authoritative holder of an application's state.
///
/// The state changes only when an action is dispatched. Actions are queued
/// and processed strictly in the order in which they were queued, one at a
/// time, by a single drain loop; a dispatch made while that loop runs only
/// queues its action.
///
/// Every operation that changes the store takes it by `&mut`. While a drain
/// loop runs, the loop holds the store and hands it to each interceptor that
/// it enters, so interceptors are the ones that can dispatch or register
/// during a drain. A subscriber's callback is given the state and the event,
/// not the store.
#[verifier::reject_recursive_types(State)]
#[verifier::reject_recursive_types(Action)]
#[verifier::reject_recursive_types(Event)]
#[verifier::reject_recursive_types(Effect)]
pub struct Store<State, Action, Event, Effect> {
    /// Set while a drain loop runs; keeps a dispatch from starting another.
    draining: bool,
    /// Actions waiting to be processed.
    dispatch_queue: VecDeque<Action>,
    /// Subscribers and interceptors waiting to be added.
    modification_queue: VecDeque<StoreModification<State, Action, Event, Effect>>,
    /// The state-transition function.
    reducer: BoxedReducer<State, Action, Event, Effect>,
    /// The current state.
    state: Rc<State>,
    /// The subscriber registry.
    listeners: Vec<ListenerEventPair<State, Event>>,
    /// The interceptor chain, outermost first.
    middleware: Vec<MiddlewareHandle<State, Action, Event, Effect>>,
}

/// The store's reducer, on the heap behind a `dyn Reducer`.
#[verifier::reject_recursive_types(State)]
#[verifier::reject_recursive_types(Action)]
#[verifier::reject_recursive_types(Event)]
#[verifier::reject_recursive_types(Effect)]
struct BoxedReducer<State, Action, Event, Effect> {
    inner: Box<dyn Reducer<State, Action, Event, Effect>>,
}

impl<State, Action, Event, Effect> BoxedReducer<State, Action, Event, Effect> {
    /// Puts `reducer` on the heap behind a `dyn Reducer` (`Box::new`). The
    /// boxed reducer makes the transitions that `reducer` makes.
    #[verifier::external_body]
    fn new<R: Reducer<State, Action, Event, Effect> + 'static>(reducer: R) -> (boxed: Self)
        ensures
            forall|state: State, action: Action|
                #![trigger boxed.inner.transition(state, action)]
                boxed.inner.transition(state, action) == reducer.transition(state, action),
    {
        BoxedReducer { inner: Box::new(reducer) }
    }
}

/// What the interceptor behind a handle did when the engine entered it. Each
/// of these says that one call of the interceptor, with the arguments given,
/// came back with the result given; the store that the call was handed is
/// `entered`, before and after.
impl<State, Action, Event, Effect> MiddlewareHandle<State, Action, Event, Effect> {
    /// The interceptor behind this handle, entered through `on_reduce` with
    /// the store `entered`, the action `action` and the continuation
    /// `reduce`, returned `result`. What it did to the store is what became
    /// of `entered`.
    pub closed spec fn reduced_with(
        &self,
        entered: &mut Store<State, Action, Event, Effect>,
        action: Option<&Action>,
        reduce: ReduceFn<State, Action, Event, Effect>,
        result: ReduceMiddlewareResult<Event, Effect>,
    ) -> bool {
        call_ensures(Self::on_reduce, (self, entered, action, reduce), result)
    }

    /// The interceptor behind this handle, entered through `process_effect`
    /// with the store `entered` and the effect `effect`, returned
    /// `remaining`.
    pub closed spec fn processed_with(
        &self,
        entered: &mut Store<State, Action, Event, Effect>,
        effect: Effect,
        remaining: Option<Effect>,
    ) -> bool {
        call_ensures(Self::process_effect, (self, entered, effect), remaining)
    }

    /// The interceptor behind this handle, entered through `on_notify` with
    /// the store `entered`, the events `events` and the continuation
    /// `notify`, returned `remaining`.
    pub closed spec fn notified_with(
        &self,
        entered: &mut Store<State, Action, Event, Effect>,
        events: Vec<Event>,
        notify: NotifyFn<State, Action, Event, Effect>,
        remaining: Vec<Event>,
    ) -> bool {
        call_ensures(Self::on_notify, (self, entered, events, notify), remaining)
    }
}

impl<State, Action, Event, Effect> MiddlewareHandle<State, Action, Event, Effect> {
}

impl<State, Action, Event, Effect> View for Store<State, Action, Event, Effect> {
    type V = StoreView<State, Action, Event, Effect>;

    closed spec fn view(&self) -> StoreView<State, Action, Event, Effect> {
        StoreView {
            state: *self.state,
            reducer: |state: State, action: Action| self.reducer.inner.transition(state, action),
            draining: self.draining,
            actions: self.dispatch_queue@,
            modifications: self.modification_queue@,
            listeners: self.listeners@,
            interceptors: self.middleware@,
        }
    }
}

impl<State, Action, Event, Effect> Store<State, Action, Event, Effect> {
    /// Creates an idle store in `initial_state` that uses `reducer` to turn
    /// actions into states, with no subscriber and no interceptor.
    pub fn new<R: Reducer<State, Action, Event, Effect> + 'static>(reducer: R, initial_state: State) -> (store:
        Self)
        ensures
            store@.state == initial_state,
            forall|state: State, action: Action|
                #![trigger (store@.reducer)(state, action)]
                (store@.reducer)(state, action) == reducer.transition(state, action),
            !store@.draining,
            store@.actions == Seq::<Action>::empty(),
            store@.modifications == Seq::<StoreModification<State, Action, Event, Effect>>::empty(),
            store@.listeners == Seq::<ListenerEventPair<State, Event>>::empty(),
            store@.interceptors == Seq::<MiddlewareHandle<State, Action, Event, Effect>>::empty(),
    {
        Store {
            draining: false,
            dispatch_queue: VecDeque::new(),
            modification_queue: VecDeque::new(),
            reducer: BoxedReducer::new(reducer),
            state: Rc::new(initial_state),
            listeners: Vec::new(),
            middleware: Vec::new(),
        }
    }

    /// The current state. It is a snapshot: a later dispatch replaces the
    /// store's state and leaves this one as it is.
    pub fn state(&self) -> (state: Rc<State>)
        ensures
            *state == self@.state,
    {
        self.state.clone()
    }

    /// The number of subscriptions in the registry.
    pub fn listener_count(&self) -> (count: usize)
        ensures
            count == self@.listeners.len(),
    {
        self.listeners.len()
    }

    /// The number of interceptors in the chain.
    pub fn middleware_count(&self) -> (count: usize)
        ensures
            count == self@.interceptors.len(),
    {
        self.middleware.len()
    }

    /// The number of actions that wait in the action queue.
    pub fn pending_actions(&self) -> (count: usize)
        ensures
            count == self@.actions.len(),
    {
        self.dispatch_queue.len()
    }

    /// Whether a drain loop is running.
    pub fn is_dispatching(&self) -> (draining: bool)
        ensures
            draining == self@.draining,
    {
        self.draining
    }

    /// Applies the reducer to `action` and replaces the state, without
    /// entering any interceptor.
    fn dispatch_reducer(&mut self, action: &Action) -> (result: ReduceMiddlewareResult<
        Event,
        Effect,
    >)
        ensures
            final(self)@ == old(self)@.reduced(*action),
            result.events@ == old(self)@.transition(*action).events,
            result.effects@ == old(self)@.transition(*action).effects,
    {
        let result = self.reducer.inner.reduce(&self.state, action);
        self.state = result.state;
        ReduceMiddlewareResult { events: result.events, effects: result.effects }
    }

    /// Runs the reduce phase for `action` through the whole interceptor
    /// chain. With no interceptor this is the reducer alone. Otherwise the
    /// first interceptor is entered with the action and the continuation for
    /// the second position, and what it returns is returned.
    pub fn middleware_reduce(&mut self, action: &Action) -> (result: ReduceMiddlewareResult<
        Event,
        Effect,
    >)
        ensures
            old(self)@.interceptors.len() == 0 ==> {
                &&& final(self)@ == old(self)@.reduced(*action)
                &&& result.events@ == old(self)@.transition(*action).events
                &&& result.effects@ == old(self)@.transition(*action).effects
            },
            old(self)@.interceptors.len() > 0 ==> exists|
                entered: &mut Store<State, Action, Event, Effect>,
                next: ReduceFn<State, Action, Event, Effect>,
            |
                {
                    &&& *entered == *old(self)
                    &&& *final(entered) == *final(self)
                    &&& next.index() == 1
                    &&& #[trigger] old(self)@.interceptors[0].reduced_with(
                        entered,
                        Some(action),
                        next,
                        result,
                    )
                },
    {
        self.middleware_reduce_next(0, Some(action))
    }

    /// Runs the reduce chain from position `index`: enters the interceptor at
    /// that position with a continuation for the next one, or, past the last
    /// interceptor, applies the reducer. A suppressed action (`None`) that
    /// reaches the end changes nothing and yields an empty result.
    pub(crate) fn middleware_reduce_next(&mut self, index: usize, action: Option<&Action>) -> (result:
        ReduceMiddlewareResult<Event, Effect>)
        ensures
            index >= old(self)@.interceptors.len() ==> match action {
                Some(action) => {
                    &&& final(self)@ == old(self)@.reduced(*action)
                    &&& result.events@ == old(self)@.transition(*action).events
                    &&& result.effects@ == old(self)@.transition(*action).effects
                },
                None => {
                    &&& final(self)@ == old(self)@
                    &&& result.events@ == Seq::<Event>::empty()
                    &&& result.effects@ == Seq::<Effect>::empty()
                },
            },
            index < old(self)@.interceptors.len() ==> exists|
                entered: &mut Store<State, Action, Event, Effect>,
                next: ReduceFn<State, Action, Event, Effect>,
            |
                {
                    &&& *entered == *old(self)
                    &&& *final(entered) == *final(self)
                    &&& next.index() == index + 1
                    &&& #[trigger] old(self)@.interceptors[index as int].reduced_with(
                        entered,
                        action,
                        next,
                        result,
                    )
                },
    {
        if index >= self.middleware.len() {
            return match action {
                Some(action) => self.dispatch_reducer(action),
                None => ReduceMiddlewareResult::default(),
            };
        }
        let current = self.middleware[index].share();
        let result = current.on_reduce(self, action, ReduceFn::at(index + 1));
        proof {
            let (entered, next) = choose|
                entered: &mut Store<State, Action, Event, Effect>,
                next: ReduceFn<State, Action, Event, Effect>,
            |
                {
                    &&& *entered == *old(self)
                    &&& *final(entered) == *self
                    &&& next.index() == index + 1
                    &&& #[trigger] call_ensures(
                        MiddlewareHandle::<State, Action, Event, Effect>::on_reduce,
                        (&current, entered, action, next),
                        result,
                    )
                };
            assert(current.reduced_with(entered, action, next, result));
        }
        result
    }

    /// Hands each effect, in the order in which the reducer produced them, to
    /// the effect chain.
    ///
    /// There is one run of the chain (see
    /// [`Store::middleware_process_effect`]) for each effect, in the order of
    /// `effects`, each on the store as the run before left it. With no
    /// effects or no interceptors nothing happens.
    pub fn middleware_process_effects(&mut self, effects: Vec<Effect>)
        ensures
            old(self)@.interceptors.len() == 0 ==> final(self)@ == old(self)@,
            exists|stores: Seq<Store<State, Action, Event, Effect>>|
                {
                    &&& #[trigger] stores.len() == effects@.len() + 1
                    &&& stores[0] == *old(self)
                    &&& stores.last() == *final(self)
                    &&& forall|k: int| #[trigger]
                        is_step(effects@, k) ==> exists|
                            entered: &mut Store<State, Action, Event, Effect>,
                        |
                            {
                                &&& *entered == stores[k]
                                &&& *final(entered) == stores[k + 1]
                                &&& #[trigger] call_ensures(
                                    Self::middleware_process_effect,
                                    (entered, effects@[k]),
                                    (),
                                )
                            }
                },
    {
        let ghost start = self@;
        let ghost all = effects@;
        let ghost mut stores: Seq<Store<State, Action, Event, Effect>> = seq![*self];
        for effect in iter: effects
            invariant
                iter.seq() == all,
                start == old(self)@,
                start.interceptors.len() == 0 ==> self@ == start,
                stores.len() == iter.index() + 1,
                stores[0] == *old(self),
                stores.last() == *self,
                forall|k: int| #[trigger]
                    is_step(all.take(iter.index() as int), k) ==> exists|
                        entered: &mut Store<State, Action, Event, Effect>,
                    |
                        {
                            &&& *entered == stores[k]
                            &&& *final(entered) == stores[k + 1]
                            &&& #[trigger] call_ensures(
                                Self::middleware_process_effect,
                                (entered, all[k]),
                                (),
                            )
                        },
        {
            let ghost before_stores = stores;
            let ghost entered_store = *self;
            let ghost done = iter.index() as int;
            self.middleware_process_effect(effect);
            proof {
                stores = stores.push(*self);
                assert forall|k: int| #[trigger] is_step(all.take(done + 1), k) implies exists|
                    entered: &mut Store<State, Action, Event, Effect>,
                |
                    {
                        &&& *entered == stores[k]
                        &&& *final(entered) == stores[k + 1]
                        &&& #[trigger] call_ensures(
                            Self::middleware_process_effect,
                            (entered, all[k]),
                            (),
                        )
                    } by {
                    if k < done {
                        assert(is_step(all.take(done), k));
                        assert(before_stores[k] == stores[k]);
                        assert(before_stores[k + 1] == stores[k + 1]);
                    } else {
                        assert(stores[k] == entered_store);
                        assert(stores[k + 1] == *self);
                        assert(all[k] == effect);
                    }
                }
            }
        }
        proof {
            assert(all.take(all.len() as int) =~= all);
            assert(stores.len() == effects@.len() + 1);
        }
    }

    /// Hands `effect` to the interceptors, first to last, until one consumes
    /// it. An effect that no interceptor consumes is discarded.
    ///
    /// The run is a sequence of steps (see
    /// [`Store::middleware_process_effects_next`]). Step `k` hands the
    /// interceptor at position `k` what step `k - 1` left, the first one
    /// `effect` itself, on the store as the step before left it. The run ends
    /// with the step that leaves nothing, or when as many steps were made as
    /// there were interceptors at the start.
    pub fn middleware_process_effect(&mut self, effect: Effect)
        ensures
            old(self)@.interceptors.len() == 0 ==> final(self)@ == old(self)@,
            exists|
                stores: Seq<Store<State, Action, Event, Effect>>,
                handed: Seq<Effect>,
                left: Seq<Option<Effect>>,
            |
                {
                    &&& #[trigger] is_run(stores, handed, left)
                    &&& handed.len() <= old(self)@.interceptors.len()
                    &&& stores[0] == *old(self)
                    &&& stores.last() == *final(self)
                    &&& old(self)@.interceptors.len() > 0 ==> {
                        &&& handed.len() > 0
                        &&& handed[0] == effect
                        &&& left.last() is None || handed.len() == old(self)@.interceptors.len()
                    }
                    &&& forall|k: int| #[trigger]
                        is_step(handed, k) ==> exists|
                            entered: &mut Store<State, Action, Event, Effect>,
                        |
                            {
                                &&& *entered == stores[k]
                                &&& *final(entered) == stores[k + 1]
                                &&& #[trigger] call_ensures(
                                    Self::middleware_process_effects_next,
                                    (entered, k as usize, handed[k]),
                                    left[k],
                                )
                            }
                    &&& forall|k: int, next: int|
                        #![trigger left[k], handed[next]]
                        0 <= k && next == k + 1 && next < handed.len() ==> left[k] == Some(
                            handed[next],
                        )
                },
    {
        let chain_len = self.middleware.len();
        let ghost start = self@;
        let ghost mut stores: Seq<Store<State, Action, Event, Effect>> = seq![*self];
        let ghost mut handed: Seq<Effect> = Seq::empty();
        let ghost mut left: Seq<Option<Effect>> = Seq::empty();
        let mut index: usize = 0;
        let mut current = effect;
        while index < chain_len
            invariant
                index <= chain_len,
                start == old(self)@,
                start.interceptors.len() == 0 ==> self@ == start,
                chain_len == start.interceptors.len(),
                is_run(stores, handed, left),
                handed.len() == index,
                stores[0] == *old(self),
                stores.last() == *self,
                index == 0 ==> current == effect,
                index > 0 ==> handed[0] == effect && left.last() == Some(current),
                forall|k: int| #[trigger]
                    is_step(handed, k) ==> exists|
                        entered: &mut Store<State, Action, Event, Effect>,
                    |
                        {
                            &&& *entered == stores[k]
                            &&& *final(entered) == stores[k + 1]
                            &&& #[trigger] call_ensures(
                                Self::middleware_process_effects_next,
                                (entered, k as usize, handed[k]),
                                left[k],
                            )
                        },
                forall|k: int, next: int|
                    #![trigger left[k], handed[next]]
                    0 <= k && next == k + 1 && next < index ==> left[k] == Some(handed[next]),
            decreases chain_len - index,
        {
            let ghost before_stores = stores;
            let ghost before_handed = handed;
            let ghost before_left = left;
            let ghost offered = current;
            let ghost entered_store = *self;
            let gave = self.middleware_process_effects_next(index, current);
            proof {
                stores = stores.push(*self);
                handed = handed.push(offered);
                left = left.push(gave);
                assert forall|k: int| #[trigger] is_step(handed, k) implies exists|
                    entered: &mut Store<State, Action, Event, Effect>,
                |
                    {
                        &&& *entered == stores[k]
                        &&& *final(entered) == stores[k + 1]
                        &&& #[trigger] call_ensures(
                            Self::middleware_process_effects_next,
                            (entered, k as usize, handed[k]),
                            left[k],
                        )
                    } by {
                    if k < index {
                        assert(is_step(before_handed, k));
                        assert(before_left[k] == left[k]);
                        assert(before_handed[k] == handed[k]);
                        assert(before_stores[k] == stores[k]);
                        assert(before_stores[k + 1] == stores[k + 1]);
                    } else {
                        assert(stores[k] == entered_store);
                        assert(stores[k + 1] == *self);
                        assert(handed[k] == offered);
                        assert(left[k] == gave);
                        assert(k as usize == index);
                    }
                }
                assert forall|k: int, next: int|
                    #![trigger left[k], handed[next]]
                    0 <= k && next == k + 1 && next <= index implies left[k] == Some(
                    handed[next],
                ) by {
                    assert(before_left[k] == left[k]);
                    if next < index {
                        assert(before_handed[next] == handed[next]);
                    }
                }
            }
            match gave {
                Some(effect) => {
                    current = effect;
                },
                None => {
                    proof {
                        assert(is_run(stores, handed, left));
                        assert(left.last() == gave);
                        assert(handed[0] == effect);
                    }
                    return ;
                },
            }
            index = index + 1;
        }
    }

    /// Hands `effect` to the interceptor at position `index` and returns what
    /// it leaves for the next one: the interceptor is entered with the store
    /// and the effect, and the result and the store are what it made of them.
    /// Past the last interceptor there is nobody to process the effect: it is
    /// dropped and the store is untouched.
    pub fn middleware_process_effects_next(&mut self, index: usize, effect: Effect) -> (remaining:
        Option<Effect>)
        ensures
            index >= old(self)@.interceptors.len() ==> {
                &&& remaining is None
                &&& final(self)@ == old(self)@
            },
            index < old(self)@.interceptors.len() ==> exists|
                entered: &mut Store<State, Action, Event, Effect>,
            |
                {
                    &&& *entered == *old(self)
                    &&& *final(entered) == *final(self)
                    &&& #[trigger] old(self)@.interceptors[index as int].processed_with(
                        entered,
                        effect,
                        remaining,
                    )
                },
    {
        if index >= self.middleware.len() {
            return None;
        }
        let current = self.middleware[index].share();
        let remaining = current.process_effect(self, effect);
        proof {
            let entered = choose|entered: &mut Store<State, Action, Event, Effect>|
                {
                    &&& *entered == *old(self)
                    &&& *final(entered) == *self
                    &&& #[trigger] call_ensures(
                        MiddlewareHandle::<State, Action, Event, Effect>::process_effect,
                        (&current, entered, effect),
                        remaining,
                    )
                };
            assert(current.processed_with(entered, effect, remaining));
        }
        remaining
    }

    /// Runs the notify phase for `events` through the whole interceptor
    /// chain and returns the events that are left for the subscribers. With
    /// no interceptor these are `events`. Otherwise the first interceptor is
    /// entered with the events and the continuation for the second position,
    /// and what it returns is returned.
    pub fn middleware_notify(&mut self, events: Vec<Event>) -> (remaining: Vec<Event>)
        ensures
            old(self)@.interceptors.len() == 0 ==> {
                &&& final(self)@ == old(self)@
                &&& remaining@ == events@
            },
            old(self)@.interceptors.len() > 0 ==> exists|
                entered: &mut Store<State, Action, Event, Effect>,
                next: NotifyFn<State, Action, Event, Effect>,
            |
                {
                    &&& *entered == *old(self)
                    &&& *final(entered) == *final(self)
                    &&& next.index() == 1
                    &&& #[trigger] old(self)@.interceptors[0].notified_with(
                        entered,
                        events,
                        next,
                        remaining,
                    )
                },
    {
        self.middleware_notify_next(0, events)
    }

    /// Runs the notify chain from position `index`: enters the interceptor at
    /// that position with a continuation for the next one, or, past the last
    /// interceptor, returns `events` as they are.
    pub(crate) fn middleware_notify_next(&mut self, index: usize, events: Vec<Event>) -> (remaining: Vec<
        Event,
    >)
        ensures
            index >= old(self)@.interceptors.len() ==> {
                &&& final(self)@ == old(self)@
                &&& remaining@ == events@
            },
            index < old(self)@.interceptors.len() ==> exists|
                entered: &mut Store<State, Action, Event, Effect>,
                next: NotifyFn<State, Action, Event, Effect>,
            |
                {
                    &&& *entered == *old(self)
                    &&& *final(entered) == *final(self)
                    &&& next.index() == index + 1
                    &&& #[trigger] old(self)@.interceptors[index as int].notified_with(
                        entered,
                        events,
                        next,
                        remaining,
                    )
                },
    {
        if index >= self.middleware.len() {
            return events;
        }
        let current = self.middleware[index].share();
        let remaining = current.on_notify(self, events, NotifyFn::at(index + 1));
        proof {
            let (entered, next) = choose|
                entered: &mut Store<State, Action, Event, Effect>,
                next: NotifyFn<State, Action, Event, Effect>,
            |
                {
                    &&& *entered == *old(self)
                    &&& *final(entered) == *self
                    &&& next.index() == index + 1
                    &&& #[trigger] call_ensures(
                        MiddlewareHandle::<State, Action, Event, Effect>::on_notify,
                        (&current, entered, events, next),
                        remaining,
                    )
                };
            assert(current.notified_with(entered, events, next, remaining));
        }
        remaining
    }

    /// Applies every queued modification, oldest first: subscriptions go to
    /// the end of the registry, interceptors to the end of the chain.
    fn process_pending_modifications(&mut self)
        ensures
            final(self)@ == old(self)@.apply_modifications(),
    {
        loop
            invariant
                self@.apply_modifications() == old(self)@.apply_modifications(),
            ensures
                self@ == old(self)@.apply_modifications(),
            decreases self@.modifications.len(),
        {
            let ghost before = self@;
            match self.modification_queue.pop_front() {
                Some(modification) => {
                    assert(before.modifications.drop_first() =~= self@.modifications);
                    match modification {
                        StoreModification::AddListener(listener_pair) => {
                            self.listeners.push(listener_pair);
                            assert(self@.listeners + added_listeners(self@.modifications)
                                =~= before.listeners + added_listeners(before.modifications));
                        },
                        StoreModification::AddMiddleware(middleware) => {
                            self.middleware.push(middleware);
                            assert(self@.interceptors + added_interceptors(self@.modifications)
                                =~= before.interceptors + added_interceptors(before.modifications));
                        },
                    }
                },
                None => {
                    assert(self@.modifications =~= Seq::empty());
                    assert(self@.listeners + added_listeners(self@.modifications)
                        =~= self@.listeners);
                    assert(self@.interceptors + added_interceptors(self@.modifications)
                        =~= self@.interceptors);
                    break ;
                },
            }
        }
    }

    /// Queues `middleware` to be added to the end of the interceptor chain.
    /// It is in effect from the next action that is taken up, not before.
    pub fn add_middleware<M: Middleware<State, Action, Event, Effect> + 'static>(&mut self, middleware: M)
        ensures
            final(self)@.modifications.len() == old(self)@.modifications.len() + 1,
            final(self)@.modifications.last() matches StoreModification::AddMiddleware(handle)
                && handle.made_from(middleware),
            final(self)@ == old(self)@.defer(final(self)@.modifications.last()),
    {
        let handle = MiddlewareHandle::holding(middleware);
        self.modification_queue.push_back(StoreModification::AddMiddleware(handle));
    }

    /// Queues a subscription of `listener` with the interest `events`.
    fn add_listener(&mut self, listener: Listener<State, Event>, events: HashSet<Event>)
        ensures
            final(self)@.modifications.len() == old(self)@.modifications.len() + 1,
            final(self)@.modifications.last() matches StoreModification::AddListener(pair)
                && pair.listener() == listener && pair.filter() == events@,
            final(self)@ == old(self)@.defer(final(self)@.modifications.last()),
    {
        self.modification_queue.push_back(
            StoreModification::AddListener(ListenerEventPair { listener, events }),
        );
    }
}

impl<State, Event: StoreEvent + Clone + Hash + Eq> ListenerEventPair<State, Event> {
    /// The callback of this subscription was found gone: resolving the
    /// listener (`Listener::as_callback`) came back with `None`.
    pub closed spec fn unresolved(&self) -> bool {
        call_ensures(
            Listener::<State, Event>::as_callback,
            (&self.listener,),
            None::<Callback<State, Event>>,
        )
    }

    /// This subscription was notified of `events` in the state `state`:
    /// resolving the listener came back with a callback, and that callback
    /// was called (`Callback::emit`) with `state` and each of the events that
    /// [`ListenerEventPair::scheduled_events`] gave for `events`.
    pub closed spec fn notified_of(&self, state: State, events: Vec<Event>) -> bool {
        exists|callback: Callback<State, Event>, scheduled: Vec<Event>|
            {
                &&& #[trigger] call_ensures(
                    Listener::<State, Event>::as_callback,
                    (&self.listener,),
                    Some(callback),
                )
                &&& #[trigger] call_ensures(Self::scheduled_events, (self, &events), scheduled)
                &&& forall|k: int, shared: Rc<State>|
                    0 <= k < scheduled@.len() && *shared == state ==> #[trigger] call_ensures(
                        Callback::<State, Event>::emit,
                        (&callback, shared, scheduled@[k]),
                        (),
                    )
            }
    }

    /// The events with which this subscription's callback is called when
    /// `events` are notified, in the order of the calls.
    ///
    /// A subscription with an empty interest is called once, with the "no
    /// event" sentinel, whatever `events` holds, even nothing. Any other
    /// subscription is called once for each event of `events` that its
    /// interest holds, in the order of `events`. The second statement rests on
    /// the event type's `Hash` and `Eq` being those of a lawful hash key.
    pub fn scheduled_events(&self, events: &Vec<Event>) -> (scheduled: Vec<Event>)
        ensures
            self.filter().is_empty() ==> scheduled@.len() == 1 && scheduled@[0].is_sentinel(),
            !self.filter().is_empty() && obeys_key_model::<Event>() ==> {
                &&& scheduled@.len() == selected(self.filter(), events@).len()
                &&& forall|i: int|
                    0 <= i < scheduled@.len() ==> cloned(
                        selected(self.filter(), events@)[i],
                        #[trigger] scheduled@[i],
                    )
            },
    {
        broadcast use vstd::std_specs::hash::group_hash_axioms;

        let mut scheduled: Vec<Event> = Vec::new();
        if self.events.is_empty() {
            scheduled.push(Event::none());
            return scheduled;
        }
        let ghost interest = |event: Event| self.filter().contains(event);
        let mut i: usize = 0;
        while i < events.len()
            invariant
                i <= events.len(),
                interest == |event: Event| self.filter().contains(event),
                !self.filter().is_empty(),
                obeys_key_model::<Event>() ==> {
                    &&& scheduled@.len() == events@.take(i as int).filter(interest).len()
                    &&& forall|k: int|
                        0 <= k < scheduled@.len() ==> cloned(
                            events@.take(i as int).filter(interest)[k],
                            #[trigger] scheduled@[k],
                        )
                },
            decreases events.len() - i,
        {
            let ghost before = events@.take(i as int);
            proof {
                assert(events@.take(i + 1) =~= before.push(events@[i as int]));
                Seq::lemma_filter_push(before, events@[i as int], interest);
            }
            if self.events.contains(&events[i]) {
                scheduled.push(events[i].clone());
            }
            i = i + 1;
        }
        assert(events@.take(i as int) =~= events@);
        scheduled
    }
}

impl<State, Action, Event: StoreEvent + Clone + Hash + Eq, Effect> Store<State, Action, Event, Effect> {
    /// Calls `callback` once for each of the `scheduled` events, in order,
    /// each time with the state `state`.
    fn deliver(callback: &Callback<State, Event>, state: &Rc<State>, scheduled: Vec<Event>)
        ensures
            forall|k: int|
                0 <= k < scheduled@.len() ==> call_ensures(
                    Callback::<State, Event>::emit,
                    (callback, *state, #[trigger] scheduled@[k]),
                    (),
                ),
    {
        let ghost all = scheduled@;
        for event in iter: scheduled
            invariant
                iter.seq() == all,
                forall|k: int|
                    0 <= k < iter.index() ==> call_ensures(
                        Callback::<State, Event>::emit,
                        (callback, *state, #[trigger] all[k]),
                        (),
                    ),
        {
            callback.emit(state.clone(), event);
        }
    }

    /// Visits every subscription in registry order. One whose callback is
    /// still alive is called with its scheduled events (see
    /// [`ListenerEventPair::scheduled_events`]); one whose callback is gone is
    /// not called. Returns the positions of those that are gone, highest
    /// first.
    ///
    /// Whether a callback is alive is what `Listener::as_callback` answers at
    /// the moment the subscription is visited. The positions returned are
    /// exactly those for which it answered `None`.
    fn notify_live_listeners(&self, events: &Vec<Event>) -> (dead: Vec<usize>)
        ensures
            descending_below(dead@, self@.listeners.len() as int),
            forall|k: int|
                0 <= k < dead@.len() ==> (#[trigger] self@.listeners[dead@[k] as int]).unresolved(),
            forall|i: int|
                0 <= i < self@.listeners.len() && !dead@.contains(i as usize) ==> (
                #[trigger] self@.listeners[i]).notified_of(self@.state, *events),
    {
        let mut dead: Vec<usize> = Vec::new();
        let mut i: usize = 0;
        while i < self.listeners.len()
            invariant
                i <= self.listeners.len(),
                descending_below(dead@, i as int),
                forall|k: int|
                    0 <= k < dead@.len() ==> (#[trigger] self@.listeners[dead@[k] as int]).unresolved(),
                forall|j: int|
                    0 <= j < i && !dead@.contains(j as usize) ==> (#[trigger] self@.listeners[j]).notified_of(
                        self@.state,
                        *events,
                    ),
            decreases self.listeners.len() - i,
        {
            let ghost reported = dead@;
            match self.listeners[i].listener.as_callback() {
                Some(callback) => {
                    let scheduled = self.listeners[i].scheduled_events(events);
                    Self::deliver(&callback, &self.state, scheduled);
                    assert(self@.listeners[i as int].notified_of(self@.state, *events));
                },
                None => {
                    dead.insert(0, i);
                    assert(self@.listeners[i as int].unresolved());
                    assert forall|k: int| 0 <= k < dead@.len() implies (
                    #[trigger] self@.listeners[dead@[k] as int]).unresolved() by {
                        if k > 0 {
                            assert(dead@[k] == reported[k - 1]);
                        }
                    }
                    assert forall|j: int| 0 <= j < i && !dead@.contains(j as usize) implies (
                    #[trigger] self@.listeners[j]).notified_of(self@.state, *events) by {
                        if reported.contains(j as usize) {
                            let k = choose|k: int| 0 <= k < reported.len() && reported[k] == j as usize;
                            assert(dead@[k + 1] == j as usize);
                        }
                    }
                    assert(dead@.contains(i)) by {
                        assert(dead@[0] == i);
                    }
                },
            }
            i = i + 1;
        }
        dead
    }

    /// Swap-removes the subscriptions at the positions `dead`, first to last.
    fn remove_listeners(&mut self, dead: &Vec<usize>)
        requires
            descending_below(dead@, old(self)@.listeners.len() as int),
        ensures
            final(self)@ == (StoreView {
                listeners: swept(old(self)@.listeners, dead@),
                ..old(self)@
            }),
    {
        let mut k: usize = 0;
        assert(dead@.skip(0) =~= dead@);
        while k < dead.len()
            invariant
                k <= dead.len(),
                descending_below(dead@, old(self)@.listeners.len() as int),
                self@.listeners.len() + k == old(self)@.listeners.len(),
                swept(self@.listeners, dead@.skip(k as int)) == swept(old(self)@.listeners, dead@),
                self@ == (StoreView { listeners: self@.listeners, ..old(self)@ }),
            decreases dead.len() - k,
        {
            proof {
                lemma_descending_gap(dead@, 0, k as int);
                assert(dead@.skip(k as int).drop_first() =~= dead@.skip(k + 1));
            }
            self.listeners.swap_remove(dead[k]);
            k = k + 1;
        }
        assert(dead@.skip(k as int) =~= Seq::<usize>::empty());
    }

    /// Notifies the subscribers of `events` and drops the subscriptions
    /// whose callback is gone.
    ///
    /// Every subscription whose callback is alive is called as
    /// [`ListenerEventPair::scheduled_events`] says, also when `events` is
    /// empty. The subscriptions whose callback is gone are swap-removed once
    /// all have been visited. Which ones those are is decided by their
    /// owners: the registry afterwards is the old one swept of the positions
    /// that did not resolve, and every other subscription was notified.
    pub fn notify_listeners(&mut self, events: Vec<Event>)
        ensures
            exists|dead: Seq<usize>|
                {
                    &&& descending_below(dead, old(self)@.listeners.len() as int)
                    &&& #[trigger] swept(old(self)@.listeners, dead) == final(self)@.listeners
                    &&& forall|k: int|
                        0 <= k < dead.len() ==> (#[trigger] old(self)@.listeners[dead[k] as int]).unresolved()
                    &&& forall|i: int|
                        0 <= i < old(self)@.listeners.len() && !dead.contains(i as usize) ==> (
                        #[trigger] old(self)@.listeners[i]).notified_of(old(self)@.state, events)
                },
            final(self)@ == (StoreView { listeners: final(self)@.listeners, ..old(self)@ }),
            final(self)@.listeners.to_multiset().subset_of(old(self)@.listeners.to_multiset()),
            final(self)@.listeners.len() <= old(self)@.listeners.len(),
    {
        let dead = self.notify_live_listeners(&events);
        proof {
            lemma_swept_keeps_survivors(self@.listeners, dead@);
        }
        self.remove_listeners(&dead);
        assert(swept(old(self)@.listeners, dead@) == self@.listeners);
    }

    /// Subscribes `listener` to every change of the state. The subscription
    /// is queued; it is in effect from the next action that is taken up.
    pub fn subscribe<L: AsListener<State, Event>>(&mut self, listener: L)
        ensures
            final(self)@.modifications.len() == old(self)@.modifications.len() + 1,
            final(self)@.modifications.last() matches StoreModification::AddListener(pair)
                && pair.filter() == Set::<Event>::empty() && call_ensures(
                L::as_listener,
                (&listener,),
                pair.listener(),
            ),
            final(self)@ == old(self)@.defer(final(self)@.modifications.last()),
    {
        self.add_listener(listener.as_listener(), HashSet::new());
    }

    /// Subscribes `listener` to the changes that produce `event`. The
    /// subscription is queued; it is in effect from the next action that is
    /// taken up.
    pub fn subscribe_event<L: AsListener<State, Event>>(&mut self, listener: L, event: Event)
        ensures
            final(self)@.modifications.len() == old(self)@.modifications.len() + 1,
            final(self)@.modifications.last() matches StoreModification::AddListener(pair) && (
            obeys_key_model::<Event>() ==> pair.filter() == Set::<Event>::empty().insert(event))
                && call_ensures(L::as_listener, (&listener,), pair.listener()),
            final(self)@ == old(self)@.defer(final(self)@.modifications.last()),
    {
        broadcast use vstd::std_specs::hash::group_hash_axioms;

        let mut events = HashSet::with_capacity(1);
        events.insert(event);
        self.add_listener(listener.as_listener(), events);
    }

    /// Subscribes `listener` to the changes that produce any of `events`.
    /// The subscription is queued; it is in effect from the next action that
    /// is taken up. With no events at all it is a subscription to every
    /// change.
    pub fn subscribe_events<L: AsListener<State, Event>>(&mut self, listener: L, events: Vec<Event>)
        ensures
            final(self)@.modifications.len() == old(self)@.modifications.len() + 1,
            final(self)@.modifications.last() matches StoreModification::AddListener(pair) && (
            obeys_key_model::<Event>() ==> pair.filter() == events@.to_set()) && call_ensures(
                L::as_listener,
                (&listener,),
                pair.listener(),
            ),
            final(self)@ == old(self)@.defer(final(self)@.modifications.last()),
    {
        broadcast use vstd::std_specs::hash::group_hash_axioms;

        let mut interest: HashSet<Event> = HashSet::new();
        let ghost all = events@;
        for event in iter: events
            invariant
                iter.seq() == all,
                obeys_key_model::<Event>() ==> interest@ == all.take(iter.index() as int).to_set(),
        {
            proof {
                assert(all.take(iter.index() + 1) =~= all.take(iter.index() as int).push(event));
                all.take(iter.index() as int).lemma_push_to_set_commute(event);
            }
            interest.insert(event);
        }
        assert(all.take(all.len() as int) =~= all);
        self.add_listener(listener.as_listener(), interest);
    }
}

impl<State, Action, Event: StoreEvent + Clone + Hash + Eq, Effect> Store<State, Action, Event, Effect> {
    /// Dispatches an action: converts `action` and passes it to
    /// [`Store::dispatch_impl`], which says what then happens.
    pub fn dispatch<A: Into<Action>>(&mut self, action: A)
        ensures
            exists|converted: Action|
                {
                    &&& #[trigger] call_ensures(A::into, (action,), converted)
                    &&& final(self)@.dispatched_from(old(self)@, converted)
                    &&& exists|entered: &mut Store<State, Action, Event, Effect>|
                        {
                            &&& *entered == *old(self)
                            &&& *final(entered) == *final(self)
                            &&& #[trigger] call_ensures(
                                Self::dispatch_impl,
                                (entered, converted),
                                (),
                            )
                        }
                },
            A::obeys_into_spec() ==> final(self)@.dispatched_from(old(self)@, action.into_spec()),
    {
        let converted: Action = action.into();
        self.dispatch_impl(converted);
    }

    /// Takes up the next action: takes the oldest action off the queue and,
    /// before it goes anywhere, applies every queued modification. With an
    /// empty queue nothing is taken and nothing is applied.
    ///
    /// This is where the order of the engine is decided. Actions leave the
    /// queue in the order in which they entered it, whoever queued them and
    /// whenever. A subscriber or interceptor registered while an action is
    /// processed is added here, so it is in effect for the next action and
    /// for no earlier one.
    pub fn take_next_action(&mut self) -> (next: Option<Action>)
        ensures
            match next {
                Some(action) => {
                    &&& old(self)@.actions.len() > 0
                    &&& action == old(self)@.actions[0]
                    &&& final(self)@ == (StoreView {
                        actions: old(self)@.actions.drop_first(),
                        ..old(self)@.apply_modifications()
                    })
                },
                None => {
                    &&& old(self)@.actions.len() == 0
                    &&& final(self)@ == old(self)@
                },
            },
    {
        let next = self.dispatch_queue.pop_front();
        match next {
            Some(_) => {
                assert(old(self)@.actions.drop_first() =~= self@.actions);
                self.process_pending_modifications();
            },
            None => {},
        }
        next
    }

    /// Runs `action` through the pipeline: the reduce chain, which replaces
    /// the state; the effect chain for each effect, in the order in which the
    /// reducer produced them; the notify chain; and, if the notify chain left
    /// any event, the notification of the subscribers.
    ///
    /// The four phases run in this order, each on the store as the phase
    /// before left it: [`Store::middleware_reduce`] on the action, then
    /// [`Store::middleware_process_effects`] on the effects that the reduce
    /// phase returned, then [`Store::middleware_notify`] on the events that
    /// it returned, then [`Store::notify_listeners`] on the events that the
    /// notify phase returned, unless there are none.
    ///
    /// Without interceptors the state becomes what the reducer makes of the
    /// action, the effects are dropped, and the subscribers are notified of
    /// the reducer's events if there are any; subscriptions whose callback is
    /// gone leave the registry then. With interceptors the outcome is theirs.
    pub fn process_action(&mut self, action: Action)
        ensures
            exists|
                reducing: &mut Store<State, Action, Event, Effect>,
                reduced: ReduceMiddlewareResult<Event, Effect>,
            |
                {
                    &&& *reducing == *old(self)
                    &&& #[trigger] call_ensures(Self::middleware_reduce, (reducing, &action), reduced)
                    &&& exists|effecting: &mut Store<State, Action, Event, Effect>|
                        {
                            &&& *effecting == *final(reducing)
                            &&& #[trigger] call_ensures(
                                Self::middleware_process_effects,
                                (effecting, reduced.effects),
                                (),
                            )
                            &&& exists|
                                notifying: &mut Store<State, Action, Event, Effect>,
                                remaining: Vec<Event>,
                            |
                                {
                                    &&& *notifying == *final(effecting)
                                    &&& #[trigger] call_ensures(
                                        Self::middleware_notify,
                                        (notifying, reduced.events),
                                        remaining,
                                    )
                                    &&& if remaining@.len() > 0 {
                                        exists|telling: &mut Store<State, Action, Event, Effect>|
                                            {
                                                &&& *telling == *final(notifying)
                                                &&& *final(telling) == *final(self)
                                                &&& #[trigger] call_ensures(
                                                    Self::notify_listeners,
                                                    (telling, remaining),
                                                    (),
                                                )
                                            }
                                    } else {
                                        *final(notifying) == *final(self)
                                    }
                                }
                        }
                },
            old(self)@.interceptors.len() == 0 ==> {
                &&& final(self)@ == (StoreView {
                    listeners: final(self)@.listeners,
                    ..old(self)@.reduced(action)
                })
                &&& final(self)@.listeners.to_multiset().subset_of(
                    old(self)@.listeners.to_multiset(),
                )
                &&& final(self)@.listeners.len() <= old(self)@.listeners.len()
                &&& old(self)@.transition(action).events.len() == 0 ==> final(self)@.listeners
                    == old(self)@.listeners
            },
            old(self)@.interceptors.len() == 0 && old(self)@.transition(action).events.len() > 0
                ==> exists|dead: Seq<usize>, told: Vec<Event>|
                #![trigger swept(old(self)@.listeners, dead), told@]
                {
                    &&& told@ == old(self)@.transition(action).events
                    &&& descending_below(dead, old(self)@.listeners.len() as int)
                    &&& swept(old(self)@.listeners, dead) == final(self)@.listeners
                    &&& forall|k: int|
                        0 <= k < dead.len() ==> (#[trigger] old(self)@.listeners[dead[k] as int]).unresolved()
                    &&& forall|i: int|
                        0 <= i < old(self)@.listeners.len() && !dead.contains(i as usize) ==> (
                        #[trigger] old(self)@.listeners[i]).notified_of(final(self)@.state, told)
                },
    {
        let reduce_middleware_result = self.middleware_reduce(&action);
        let ReduceMiddlewareResult { events, effects } = reduce_middleware_result;
        self.middleware_process_effects(effects);
        let middleware_events = self.middleware_notify(events);
        if !middleware_events.is_empty() {
            self.notify_listeners(middleware_events);
        }
    }

    /// Dispatches `action`.
    ///
    /// The action is appended to the action queue. If a drain loop is already
    /// running, that is all: the running loop will come to it. Otherwise this
    /// call becomes the drain loop: it marks the store as draining, takes up
    /// the queued actions one after the other (see
    /// [`Store::take_next_action`]) and runs each through the pipeline (see
    /// [`Store::process_action`]), each step on the store as the step before
    /// left it, until the queue is empty. Then the store is idle again.
    ///
    /// A single drain loop takes up at most `usize::MAX` actions. Actions that
    /// interceptors keep queueing beyond that stay queued for the next
    /// dispatch. Without interceptors nothing can queue an action while the
    /// loop runs, and the loop always empties the queue.
    pub fn dispatch_impl(&mut self, action: Action)
        ensures
            final(self)@.dispatched_from(old(self)@, action),
            !old(self)@.draining ==> exists|
                stores: Seq<Store<State, Action, Event, Effect>>,
                taken: Seq<Store<State, Action, Event, Effect>>,
                actions: Seq<Action>,
            |
                {
                    &&& #[trigger] is_drain(stores, taken, actions)
                    &&& stores[0]@ == (StoreView { draining: true, ..old(self)@.enqueue(action) })
                    &&& final(self)@ == (StoreView { draining: false, ..stores.last()@ })
                    &&& stores.last()@.actions.len() == 0 || actions.len() == usize::MAX
                    &&& forall|k: int| #[trigger]
                        is_step(actions, k) ==> {
                            &&& exists|taking: &mut Store<State, Action, Event, Effect>|
                                {
                                    &&& *taking == stores[k]
                                    &&& *final(taking) == taken[k]
                                    &&& #[trigger] call_ensures(
                                        Self::take_next_action,
                                        (taking,),
                                        Some(actions[k]),
                                    )
                                }
                            &&& exists|processing: &mut Store<State, Action, Event, Effect>|
                                {
                                    &&& *processing == taken[k]
                                    &&& *final(processing) == stores[k + 1]
                                    &&& #[trigger] call_ensures(
                                        Self::process_action,
                                        (processing, actions[k]),
                                        (),
                                    )
                                }
                        }
                },
    {
        self.dispatch_queue.push_back(action);
        if self.draining {
            return ;
        }
        self.draining = true;
        let ghost start = self@;
        let ghost plain = start.interceptor_free();
        let ghost mut stores: Seq<Store<State, Action, Event, Effect>> = seq![*self];
        let ghost mut taken: Seq<Store<State, Action, Event, Effect>> = Seq::empty();
        let ghost mut actions: Seq<Action> = Seq::empty();
        let mut budget: usize = usize::MAX;
        assert(start.actions.len() == self.dispatch_queue.len() <= budget);
        while budget > 0
            invariant_except_break
                stores.last() == *self,
            invariant
                plain == start.interceptor_free(),
                start.actions.len() > 0,
                plain ==> {
                    &&& self@.draining
                    &&& self@.reducer == start.reducer
                    &&& self@.interceptor_free()
                    &&& self@.fold(self@.actions) == start.fold(start.actions)
                    &&& self@.actions.len() <= budget
                    &&& self@.modifications.len() == 0 || self@.actions.len() > 0
                    &&& self@.apply_modifications().listeners.to_multiset().subset_of(
                        start.apply_modifications().listeners.to_multiset(),
                    )
                    &&& self@.apply_modifications().listeners.len()
                        <= start.apply_modifications().listeners.len()
                },
                is_drain(stores, taken, actions),
                actions.len() + budget == usize::MAX,
                stores[0]@ == start,
                forall|k: int| #[trigger]
                    is_step(actions, k) ==> {
                        &&& exists|taking: &mut Store<State, Action, Event, Effect>|
                            {
                                &&& *taking == stores[k]
                                &&& *final(taking) == taken[k]
                                &&& #[trigger] call_ensures(
                                    Self::take_next_action,
                                    (taking,),
                                    Some(actions[k]),
                                )
                            }
                        &&& exists|processing: &mut Store<State, Action, Event, Effect>|
                            {
                                &&& *processing == taken[k]
                                &&& *final(processing) == stores[k + 1]
                                &&& #[trigger] call_ensures(
                                    Self::process_action,
                                    (processing, actions[k]),
                                    (),
                                )
                            }
                    },
            ensures
                plain ==> {
                    &&& self@.draining
                    &&& self@.reducer == start.reducer
                    &&& self@.interceptor_free()
                    &&& self@.state == start.fold(start.actions)
                    &&& self@.actions.len() == 0
                    &&& self@.modifications.len() == 0
                    &&& self@.apply_modifications().listeners.to_multiset().subset_of(
                        start.apply_modifications().listeners.to_multiset(),
                    )
                    &&& self@.apply_modifications().listeners.len()
                        <= start.apply_modifications().listeners.len()
                },
                stores.last()@ == self@,
                self@.actions.len() == 0 || actions.len() == usize::MAX,
            decreases budget,
        {
            let ghost before = *self;
            let ghost before_stores = stores;
            let ghost before_taken = taken;
            let ghost before_actions = actions;
            let next = self.take_next_action();
            match next {
                Some(action) => {
                    let ghost took = *self;
                    let ghost processed = action;
                    self.process_action(action);
                    proof {
                        if plain {
                            assert(took@.interceptors =~= Seq::empty());
                            assert(self@.modifications =~= Seq::empty());
                            assert(self@.listeners + added_listeners(self@.modifications)
                                =~= self@.listeners);
                            assert(took@.listeners + added_listeners(took@.modifications)
                                =~= took@.listeners);
                        }
                        stores = stores.push(*self);
                        taken = taken.push(took);
                        actions = actions.push(processed);
                        let done = before_actions.len() as int;
                        assert forall|k: int| #[trigger] is_step(actions, k) implies {
                            &&& exists|taking: &mut Store<State, Action, Event, Effect>|
                                {
                                    &&& *taking == stores[k]
                                    &&& *final(taking) == taken[k]
                                    &&& #[trigger] call_ensures(
                                        Self::take_next_action,
                                        (taking,),
                                        Some(actions[k]),
                                    )
                                }
                            &&& exists|processing: &mut Store<State, Action, Event, Effect>|
                                {
                                    &&& *processing == taken[k]
                                    &&& *final(processing) == stores[k + 1]
                                    &&& #[trigger] call_ensures(
                                        Self::process_action,
                                        (processing, actions[k]),
                                        (),
                                    )
                                }
                        } by {
                            if k < done {
                                assert(is_step(before_actions, k));
                                assert(before_stores[k] == stores[k]);
                                assert(before_stores[k + 1] == stores[k + 1]);
                                assert(before_taken[k] == taken[k]);
                                assert(before_actions[k] == actions[k]);
                            } else {
                                assert(stores[k] == before);
                                assert(taken[k] == took);
                                assert(stores[k + 1] == *self);
                                assert(actions[k] == processed);
                                assert(next == Some(actions[k]));
                            }
                        }
                    }
                },
                None => {
                    proof {
                        if plain {
                            assert(self@.actions =~= Seq::empty());
                        }
                    }
                    break ;
                },
            }
            budget = budget - 1;
        }
        self.draining = false;
        proof {
            if plain {
                assert(self@.actions =~= Seq::empty());
                assert(self@.modifications =~= Seq::empty());
                assert(self@.interceptors =~= Seq::empty());
                assert(self@.listeners + added_listeners(self@.modifications) =~= self@.listeners);
            }
            assert(is_drain(stores, taken, actions));
        }
    }
}

/// An owning handle to a [`Store`] on the heap.
///
/// The handle offers the store's operations, each with the store's own
/// contract, and derefs to the store for reading.
///
/// The handle is the only owner of its store. It cannot be cloned and two
/// handles are never the same store, so it has no equality: every operation
/// that changes a store takes the store by `&mut`, and a store behind a
/// shared pointer could not be changed at all. A component that has to reach
/// the store while an action is processed is written as an interceptor,
/// which is handed the store.
#[verifier::reject_recursive_types(State)]
#[verifier::reject_recursive_types(Action)]
#[verifier::reject_recursive_types(Event)]
#[verifier::reject_recursive_types(Effect)]
pub struct StoreRef<State, Action, Event, Effect>(Box<Store<State, Action, Event, Effect>>);

impl<State, Action, Event, Effect> View for StoreRef<State, Action, Event, Effect> {
    type V = StoreView<State, Action, Event, Effect>;

    open spec fn view(&self) -> StoreView<State, Action, Event, Effect> {
        self.store()@
    }
}

impl<State, Action, Event, Effect> StoreRef<State, Action, Event, Effect> {
    /// The store behind this handle.
    pub closed spec fn store(&self) -> Store<State, Action, Event, Effect> {
        *self.0
    }
}

impl<State, Action, Event, Effect> std::ops::Deref for StoreRef<State, Action, Event, Effect> {
    type Target = Store<State, Action, Event, Effect>;

    fn deref(&self) -> (store: &Store<State, Action, Event, Effect>)
        ensures
            *store == self.store(),
    {
        &*self.0
    }
}

impl<State, Action, Event: StoreEvent + Clone + Hash + Eq, Effect> StoreRef<State, Action, Event, Effect> {
    /// Creates a handle to a new idle store in `initial_state` that uses
    /// `reducer`, with no subscriber and no interceptor.
    pub fn new<R: Reducer<State, Action, Event, Effect> + 'static>(reducer: R, initial_state: State) -> (store:
        Self)
        ensures
            store@.state == initial_state,
            forall|state: State, action: Action|
                #![trigger (store@.reducer)(state, action)]
                (store@.reducer)(state, action) == reducer.transition(state, action),
            !store@.draining,
            store@.actions == Seq::<Action>::empty(),
            store@.modifications == Seq::<StoreModification<State, Action, Event, Effect>>::empty(),
            store@.listeners == Seq::<ListenerEventPair<State, Event>>::empty(),
            store@.interceptors == Seq::<MiddlewareHandle<State, Action, Event, Effect>>::empty(),
    {
        StoreRef(Box::new(Store::new(reducer, initial_state)))
    }

    /// The current state of the store.
    pub fn state(&self) -> (state: Rc<State>)
        ensures
            *state == self@.state,
    {
        self.0.state()
    }

    /// Dispatches an action to the store, as [`Store::dispatch`] does.
    pub fn dispatch<A: Into<Action>>(&mut self, action: A)
        ensures
            exists|converted: Action|
                {
                    &&& #[trigger] call_ensures(A::into, (action,), converted)
                    &&& final(self)@.dispatched_from(old(self)@, converted)
                    &&& exists|entered: &mut Store<State, Action, Event, Effect>|
                        {
                            &&& *entered == old(self).store()
                            &&& *final(entered) == final(self).store()
                            &&& #[trigger] call_ensures(
                                Store::<State, Action, Event, Effect>::dispatch_impl,
                                (entered, converted),
                                (),
                            )
                        }
                },
            A::obeys_into_spec() ==> final(self)@.dispatched_from(old(self)@, action.into_spec()),
    {
        let converted: Action = action.into();
        let store: &mut Store<State, Action, Event, Effect> = &mut *self.0;
        store.dispatch_impl(converted);
    }

    /// Subscribes `listener` to every change, as [`Store::subscribe`] does.
    pub fn subscribe<L: AsListener<State, Event>>(&mut self, listener: L)
        ensures
            final(self)@.modifications.len() == old(self)@.modifications.len() + 1,
            final(self)@.modifications.last() matches StoreModification::AddListener(pair)
                && pair.filter() == Set::<Event>::empty() && call_ensures(
                L::as_listener,
                (&listener,),
                pair.listener(),
            ),
            final(self)@ == old(self)@.defer(final(self)@.modifications.last()),
    {
        self.0.subscribe(listener);
    }

    /// Subscribes `listener` to the changes that produce `event`, as
    /// [`Store::subscribe_event`] does.
    pub fn subscribe_event<L: AsListener<State, Event>>(&mut self, listener: L, event: Event)
        ensures
            final(self)@.modifications.len() == old(self)@.modifications.len() + 1,
            final(self)@.modifications.last() matches StoreModification::AddListener(pair) && (
            obeys_key_model::<Event>() ==> pair.filter() == Set::<Event>::empty().insert(event))
                && call_ensures(L::as_listener, (&listener,), pair.listener()),
            final(self)@ == old(self)@.defer(final(self)@.modifications.last()),
    {
        self.0.subscribe_event(listener, event);
    }

    /// Subscribes `listener` to the changes that produce any of `events`, as
    /// [`Store::subscribe_events`] does.
    pub fn subscribe_events<L: AsListener<State, Event>>(&mut self, listener: L, events: Vec<Event>)
        ensures
            final(self)@.modifications.len() == old(self)@.modifications.len() + 1,
            final(self)@.modifications.last() matches StoreModification::AddListener(pair) && (
            obeys_key_model::<Event>() ==> pair.filter() == events@.to_set()) && call_ensures(
                L::as_listener,
                (&listener,),
                pair.listener(),
            ),
            final(self)@ == old(self)@.defer(final(self)@.modifications.last()),
    {
        self.0.subscribe_events(listener, events);
    }

    /// Queues `middleware` to be added to the interceptor chain, as
    /// [`Store::add_middleware`] does.
    pub fn add_middleware<M: Middleware<State, Action, Event, Effect> + 'static>(&mut self, middleware: M)
        ensures
            final(self)@.modifications.len() == old(self)@.modifications.len() + 1,
            final(self)@.modifications.last() matches StoreModification::AddMiddleware(handle)
                && handle.made_from(middleware),
            final(self)@ == old(self)@.defer(final(self)@.modifications.last()),
    {
        self.0.add_middleware(middleware);
    }
}

} // verus!
