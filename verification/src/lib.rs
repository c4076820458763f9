//! A single-threaded reactive state container.
//!
//! One authoritative piece of application state lives in a [`Store`]. It is
//! changed only by dispatching actions, which a [`Reducer`] turns into a new
//! state together with events and effects. Interceptors
//! ([`middleware::Middleware`]) wrap the reduce and notify phases and process
//! effects; subscribers ([`Callback`]) are told about the events they asked
//! for and are held weakly.
//!
//! Every operation is stated over a mathematical view of the store
//! ([`StoreView`]) and proved against it. What the caller supplies (the
//! reducer, interceptors, callbacks) is reached through the traits of this
//! crate; the contracts say where a result depends on them.
//!
//! # What is assumed
//!
//! * A [`Reducer`] is a pure function of the state and the action, and a
//!   [`StoreEvent`] answers `is_none` as a function of the event, with `true`
//!   for the value that `none` produces. Implementations owe this.
//! * Closures and interceptors live behind `Rc<dyn ..>` and `Weak<dyn ..>`,
//!   which the verifier cannot look into. [`Callback`], [`Listener`] and
//!   [`middleware::MiddlewareHandle`] hold them; the few functions that touch
//!   them are not verified and promise nothing about what the code behind
//!   them does. The one promise made is that another handle to an
//!   interceptor is the same handle.
//! * Boxing a reducer behind `dyn Reducer` keeps its transition function.
//!
//! # Who can reach the store
//!
//! Every operation that changes a store takes it by `&mut`. A store is
//! therefore not shared: [`StoreRef`] owns its store alone, and a callback,
//! which is given the state and the event only, cannot dispatch or register.
//! Interceptors can: the drain loop hands them the store.
//!
//! # Failures
//!
//! The functions of this crate do not panic. A reducer, interceptor or
//! callback that panics unwinds through `dispatch` while the store is marked
//! as draining, and the mark stays: such a store queues what is dispatched to
//! it and processes nothing any more.
pub mod event;
pub mod listener;
pub mod middleware;
pub mod model;
pub mod reducer;
pub mod store;

pub use event::{all_events_none, all_none, StoreEvent};
pub use reducer::{CompositeReducer, Reducer, ReducerResult, Transition};
pub use listener::{AsListener, Callback, Listener};
pub use model::StoreView;
pub use store::{Store, StoreRef};
