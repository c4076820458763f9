//! Callbacks and the weak handles by which a store reaches them.
use vstd::prelude::*;
use std::rc::Rc;
use std::rc::Weak;

verus! {

/// Something that can hand out a [`Listener`]: a weak handle to a callback.
pub trait AsListener<State, Event> {
    /// Produces a weak handle to this callback.
    fn as_listener(&self) -> Listener<State, Event>;
}

/// A weak handle to a callback, usually a [`Callback`].
///
/// The handle does not keep the callback alive. Once every [`Callback`] that
/// owns the closure is gone, [`Listener::as_callback`] returns `None`.
///
/// The handle holds a `std::rc::Weak` to the closure, which the verifier
/// cannot look into.
#[verifier::external_body]
#[verifier::reject_recursive_types(State)]
#[verifier::reject_recursive_types(Event)]
pub struct Listener<State, Event>(Weak<dyn Fn(Rc<State>, Event)>);

/// An owning handle to a closure that is told about changes of a store's
/// state and about the events that came with them.
///
/// Subscribing `&callback` to a store hands the store a [`Listener`]. When the
/// last `Callback` that owns the closure is dropped, the store removes the
/// listener the next time it notifies.
///
/// The closure is called with the state and the event and nothing else. It
/// cannot reach the store that calls it: the store is borrowed by the drain
/// loop for as long as the loop runs. To dispatch an action or to register a
/// subscriber in answer to a change, use an interceptor
/// ([`Middleware`](crate::middleware::Middleware)), whose methods are handed
/// the store.
///
/// The handle holds an `Rc` to a `dyn Fn`, which the verifier cannot look
/// into.
#[verifier::external_body]
#[verifier::reject_recursive_types(State)]
#[verifier::reject_recursive_types(Event)]
pub struct Callback<State, Event>(Rc<dyn Fn(Rc<State>, Event)>);

impl<State, Event> Listener<State, Event> {
    /// Tries to reach the callback behind this handle.
    ///
    /// Calls `Weak::upgrade`. Whether a callback comes back depends on whether
    /// an owner of the closure is still alive, so nothing is promised about
    /// the result.
    #[verifier::external_body]
    pub fn as_callback(&self) -> (callback: Option<Callback<State, Event>>) {
        match self.0.upgrade() {
            Some(shared) => Some(Callback(shared)),
            None => None,
        }
    }
}

impl<State, Event> Clone for Listener<State, Event> {
    /// Another weak handle to the same callback (`Weak::clone`).
    #[verifier::external_body]
    fn clone(&self) -> (copy: Self) {
        Listener(self.0.clone())
    }
}

impl<State, Event> Listener<State, Event> {
    /// `copy` is what copying this listener (`Weak::clone`) gave: another
    /// weak handle to the callback that this one points to.
    pub closed spec fn copied_as(&self, copy: Listener<State, Event>) -> bool {
        call_ensures(<Listener<State, Event> as Clone>::clone, (self,), copy)
    }
}

impl<State, Event> AsListener<State, Event> for Listener<State, Event> {
    /// A listener is its own source of listeners: the result is a copy of it.
    fn as_listener(&self) -> (listener: Listener<State, Event>)
        ensures
            self.copied_as(listener),
    {
        let listener = self.clone();
        assert(self.copied_as(listener));
        listener
    }
}

impl<State, Event> Callback<State, Event> {
    /// Wraps `closure` so that it can be subscribed to a store.
    ///
    /// Calls `Rc::new`. The closure must accept every state and event, since
    /// a store calls it with whatever state and event it has.
    #[verifier::external_body]
    pub fn new<C: Fn(Rc<State>, Event) + 'static>(closure: C) -> (callback: Self)
        requires
            forall|state: Rc<State>, event: Event| call_requires(closure, (state, event)),
    {
        let shared: Rc<dyn Fn(Rc<State>, Event)> = Rc::new(closure);
        Callback(shared)
    }

    /// Calls the closure with `state` and `event`. What the closure does is
    /// its own business; it returns nothing.
    #[verifier::external_body]
    pub fn emit(&self, state: Rc<State>, event: Event) {
        (self.0)(state, event)
    }

    /// A weak handle to this callback (`Rc::downgrade`).
    #[verifier::external_body]
    fn downgrade(&self) -> (listener: Listener<State, Event>) {
        let weak: Weak<dyn Fn(Rc<State>, Event)> = Rc::downgrade(&self.0);
        Listener(weak)
    }
}

impl<State, Event> Clone for Callback<State, Event> {
    /// Another owner of the same closure (`Rc::clone`).
    #[verifier::external_body]
    fn clone(&self) -> (copy: Self) {
        Callback(self.0.clone())
    }
}

impl<State, Event> Callback<State, Event> {
    /// `listener` is what downgrading this callback (`Rc::downgrade`) gave: a
    /// weak handle to the closure that this callback owns.
    pub closed spec fn listened_by(&self, listener: Listener<State, Event>) -> bool {
        call_ensures(Callback::<State, Event>::downgrade, (self,), listener)
    }
}

impl<State, Event> AsListener<State, Event> for &Callback<State, Event> {
    /// The result is a weak handle to this callback.
    fn as_listener(&self) -> (listener: Listener<State, Event>)
        ensures
            self.listened_by(listener),
    {
        let listener = self.downgrade();
        assert(self.listened_by(listener));
        listener
    }
}

} // verus!
