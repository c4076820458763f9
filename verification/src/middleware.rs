//! Interceptors: components that wrap the reduce phase, wrap the notify
//! phase, and process effects of a [`Store`].
//!
//! Interceptors form a chain in registration order. The one registered first
//! is the outermost: it is entered first and wraps all that were registered
//! after it. Each is handed a continuation, bound to the position after its
//! own, which runs the rest of the chain.
use vstd::prelude::*;
use std::marker::PhantomData;
use std::rc::Rc;
use crate::store::Store;

verus! {

/// What the reduce phase hands back: the events and effects of the
/// transition. The new state is already in the store by then.
pub struct ReduceMiddlewareResult<Event, Effect> {
    pub events: Vec<Event>,
    pub effects: Vec<Effect>,
}

impl<Event, Effect> Default for ReduceMiddlewareResult<Event, Effect> {
    /// No events and no effects: the result of a reduce phase whose action
    /// was suppressed.
    fn default() -> (result: Self)
        ensures
            result.events@ == Seq::<Event>::empty(),
            result.effects@ == Seq::<Effect>::empty(),
    {
        ReduceMiddlewareResult { events: Vec::new(), effects: Vec::new() }
    }
}

/// The rest of the reduce chain: the interceptors after the one that holds
/// this continuation, and then the reducer.
pub struct ReduceFn<State, Action, Event, Effect> {
    index: usize,
    marker: PhantomData<(State, Action, Event, Effect)>,
}

/// The rest of the notify chain: the interceptors after the one that holds
/// this continuation.
pub struct NotifyFn<State, Action, Event, Effect> {
    index: usize,
    marker: PhantomData<(State, Action, Event, Effect)>,
}

impl<State, Action, Event, Effect> ReduceFn<State, Action, Event, Effect> {
    /// The position in the chain at which this continuation resumes.
    pub closed spec fn index(&self) -> usize {
        self.index
    }

    /// The continuation that resumes the reduce chain at `index`.
    pub(crate) fn at(index: usize) -> (next: Self)
        ensures
            next.index() == index,
    {
        ReduceFn { index, marker: PhantomData }
    }

    /// Runs the rest of the reduce chain on `action`.
    ///
    /// May be called any number of times, or not at all. Once no interceptor
    /// is left, the reducer is applied to `action` and the store's state is
    /// replaced; with no action the state stays and the result is empty. With
    /// interceptors left, the interceptor at this position is entered with
    /// the store, the action and the continuation for the position after it;
    /// the result and the store are what it made of them.
    pub fn call(&self, store: &mut Store<State, Action, Event, Effect>, action: Option<&Action>) -> (result:
        ReduceMiddlewareResult<Event, Effect>)
        ensures
            self.index() >= old(store)@.interceptors.len() ==> match action {
                Some(action) => {
                    &&& final(store)@ == old(store)@.reduced(*action)
                    &&& result.events@ == old(store)@.transition(*action).events
                    &&& result.effects@ == old(store)@.transition(*action).effects
                },
                None => {
                    &&& final(store)@ == old(store)@
                    &&& result.events@ == Seq::<Event>::empty()
                    &&& result.effects@ == Seq::<Effect>::empty()
                },
            },
            self.index() < old(store)@.interceptors.len() ==> exists|
                entered: &mut Store<State, Action, Event, Effect>,
                next: ReduceFn<State, Action, Event, Effect>,
            |
                {
                    &&& *entered == *old(store)
                    &&& *final(entered) == *final(store)
                    &&& next.index() == self.index() + 1
                    &&& #[trigger] old(store)@.interceptors[self.index() as int].reduced_with(
                        entered,
                        action,
                        next,
                        result,
                    )
                },
    {
        store.middleware_reduce_next(self.index, action)
    }
}

impl<State, Action, Event, Effect> NotifyFn<State, Action, Event, Effect> {
    /// The position in the chain at which this continuation resumes.
    pub closed spec fn index(&self) -> usize {
        self.index
    }

    /// The continuation that resumes the notify chain at `index`.
    pub(crate) fn at(index: usize) -> (next: Self)
        ensures
            next.index() == index,
    {
        NotifyFn { index, marker: PhantomData }
    }

    /// Runs the rest of the notify chain on `events` and returns the events
    /// that are left for the subscribers.
    ///
    /// Once no interceptor is left, the events come back as they are and the
    /// store is untouched. With interceptors left, the interceptor at this
    /// position is entered with the store, the events and the continuation
    /// for the position after it; the result and the store are what it made
    /// of them.
    pub fn call(&self, store: &mut Store<State, Action, Event, Effect>, events: Vec<Event>) -> (remaining:
        Vec<Event>)
        ensures
            self.index() >= old(store)@.interceptors.len() ==> {
                &&& final(store)@ == old(store)@
                &&& remaining@ == events@
            },
            self.index() < old(store)@.interceptors.len() ==> exists|
                entered: &mut Store<State, Action, Event, Effect>,
                next: NotifyFn<State, Action, Event, Effect>,
            |
                {
                    &&& *entered == *old(store)
                    &&& *final(entered) == *final(store)
                    &&& next.index() == self.index() + 1
                    &&& #[trigger] old(store)@.interceptors[self.index() as int].notified_with(
                        entered,
                        events,
                        next,
                        remaining,
                    )
                },
    {
        store.middleware_notify_next(self.index, events)
    }
}

/// An interceptor of a [`Store`].
///
/// Every method has a default that passes its input on unchanged. An
/// interceptor is handed the store and may use its public operations. The
/// engine enters interceptors from its drain loop only, so an action that an
/// interceptor dispatches is queued behind those already waiting, and a
/// subscriber or interceptor that it registers takes effect with the next
/// action.
///
/// Nothing is assumed about what an implementation does. Where the outcome of
/// an operation of the store depends on interceptors, its contract says which
/// interceptor was entered with what, and that the outcome is what it made of
/// it. An implementation that keeps a default owes what the default does:
/// the reduce and notify defaults run the rest of the chain and return what
/// it returns, and the effect default hands the effect on untouched.
pub trait Middleware<State, Action, Event, Effect> {
    /// Wraps the reduce phase. Called with the action that is about to be
    /// reduced, or with `None` if an outer interceptor suppressed it.
    ///
    /// The interceptor may pass the action on, pass another one, pass `None`,
    /// or not call `reduce` at all; it may look at the store's state before
    /// and after the call.
    fn on_reduce(
        &self,
        store: &mut Store<State, Action, Event, Effect>,
        action: Option<&Action>,
        reduce: ReduceFn<State, Action, Event, Effect>,
    ) -> (result: ReduceMiddlewareResult<Event, Effect>)
        default_ensures
            reduce.index() >= old(store)@.interceptors.len() ==> match action {
                Some(action) => {
                    &&& final(store)@ == old(store)@.reduced(*action)
                    &&& result.events@ == old(store)@.transition(*action).events
                    &&& result.effects@ == old(store)@.transition(*action).effects
                },
                None => {
                    &&& final(store)@ == old(store)@
                    &&& result.events@ == Seq::<Event>::empty()
                    &&& result.effects@ == Seq::<Effect>::empty()
                },
            },
            reduce.index() < old(store)@.interceptors.len() ==> exists|
                entered: &mut Store<State, Action, Event, Effect>,
                next: ReduceFn<State, Action, Event, Effect>,
            |
                {
                    &&& *entered == *old(store)
                    &&& *final(entered) == *final(store)
                    &&& next.index() == reduce.index() + 1
                    &&& #[trigger] old(store)@.interceptors[reduce.index() as int].reduced_with(
                        entered,
                        action,
                        next,
                        result,
                    )
                },
    {
        reduce.call(store, action)
    }

    /// Processes one effect. Returns `None` if this interceptor consumed the
    /// effect, or the effect to hand to the next interceptor.
    fn process_effect(
        &self,
        _store: &mut Store<State, Action, Event, Effect>,
        effect: Effect,
    ) -> (remaining: Option<Effect>)
        default_ensures
            remaining == Some(effect),
            *final(_store) == *old(_store),
    {
        Some(effect)
    }

    /// Wraps the notify phase. Called with the events that the reduce phase
    /// produced; returns the events that are left for the subscribers.
    fn on_notify(
        &self,
        store: &mut Store<State, Action, Event, Effect>,
        events: Vec<Event>,
        notify: NotifyFn<State, Action, Event, Effect>,
    ) -> (remaining: Vec<Event>)
        default_ensures
            notify.index() >= old(store)@.interceptors.len() ==> {
                &&& final(store)@ == old(store)@
                &&& remaining@ == events@
            },
            notify.index() < old(store)@.interceptors.len() ==> exists|
                entered: &mut Store<State, Action, Event, Effect>,
                next: NotifyFn<State, Action, Event, Effect>,
            |
                {
                    &&& *entered == *old(store)
                    &&& *final(entered) == *final(store)
                    &&& next.index() == notify.index() + 1
                    &&& #[trigger] old(store)@.interceptors[notify.index() as int].notified_with(
                        entered,
                        events,
                        next,
                        remaining,
                    )
                },
    {
        notify.call(store, events)
    }
}

/// A shared handle to an interceptor that a store holds.
///
/// The handle holds an `Rc` to a `dyn Middleware`. The verifier cannot look
/// into it, and nothing is assumed about what the interceptor behind it does.
#[verifier::external_body]
#[verifier::reject_recursive_types(State)]
#[verifier::reject_recursive_types(Action)]
#[verifier::reject_recursive_types(Event)]
#[verifier::reject_recursive_types(Effect)]
pub struct MiddlewareHandle<State, Action, Event, Effect>(
    Rc<dyn Middleware<State, Action, Event, Effect>>,
);

impl<State, Action, Event, Effect> MiddlewareHandle<State, Action, Event, Effect> {
    /// This handle is what putting the interceptor `middleware` behind a
    /// shared handle gave: it is the handle to that interceptor.
    pub closed spec fn made_from<M: Middleware<State, Action, Event, Effect> + 'static>(
        &self,
        middleware: M,
    ) -> bool {
        call_ensures(Self::new::<M>, (middleware,), *self)
    }

    /// The handle to the interceptor `middleware`.
    pub(crate) fn holding<M: Middleware<State, Action, Event, Effect> + 'static>(middleware: M) -> (handle:
        Self)
        ensures
            handle.made_from(middleware),
    {
        let handle = Self::new(middleware);
        assert(handle.made_from(middleware));
        handle
    }

    /// Puts `middleware` behind a shared handle (`Rc::new`).
    #[verifier::external_body]
    pub(crate) fn new<M: Middleware<State, Action, Event, Effect> + 'static>(middleware: M) -> (handle:
        Self) {
        let shared: Rc<dyn Middleware<State, Action, Event, Effect>> = Rc::new(middleware);
        MiddlewareHandle(shared)
    }

    /// Another handle to the same interceptor (`Rc::clone`). The new pointer
    /// points where this one points, so the two are the same handle.
    #[verifier::external_body]
    pub(crate) fn share(&self) -> (handle: Self)
        ensures
            handle == *self,
    {
        MiddlewareHandle(self.0.clone())
    }

    /// Calls the interceptor's `on_reduce`. Nothing is promised about the
    /// result or about the store afterwards.
    #[verifier::external_body]
    pub(crate) fn on_reduce(
        &self,
        store: &mut Store<State, Action, Event, Effect>,
        action: Option<&Action>,
        reduce: ReduceFn<State, Action, Event, Effect>,
    ) -> (result: ReduceMiddlewareResult<Event, Effect>) {
        self.0.on_reduce(store, action, reduce)
    }

    /// Calls the interceptor's `process_effect`. Nothing is promised about
    /// the result or about the store afterwards.
    #[verifier::external_body]
    pub(crate) fn process_effect(
        &self,
        store: &mut Store<State, Action, Event, Effect>,
        effect: Effect,
    ) -> (remaining: Option<Effect>) {
        self.0.process_effect(store, effect)
    }

    /// Calls the interceptor's `on_notify`. Nothing is promised about the
    /// result or about the store afterwards.
    #[verifier::external_body]
    pub(crate) fn on_notify(
        &self,
        store: &mut Store<State, Action, Event, Effect>,
        events: Vec<Event>,
        notify: NotifyFn<State, Action, Event, Effect>,
    ) -> (remaining: Vec<Event>) {
        self.0.on_notify(store, events, notify)
    }
}

} // verus!
