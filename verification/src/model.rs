//! The mathematical model of a store: what a store is, the transitions that
//! the engine makes, and what follows from them.
use vstd::prelude::*;
use crate::middleware::MiddlewareHandle;
use crate::reducer::Transition;
use crate::store::{ListenerEventPair, StoreModification};

verus! {

/// The subscriptions that a queue of modifications adds, in queue order.
pub open spec fn added_listeners<State, Action, Event, Effect>(
    modifications: Seq<StoreModification<State, Action, Event, Effect>>,
) -> Seq<ListenerEventPair<State, Event>>
    decreases modifications.len(),
{
    if modifications.len() == 0 {
        Seq::empty()
    } else {
        let rest = added_listeners(modifications.drop_first());
        match modifications[0] {
            StoreModification::AddListener(pair) => seq![pair] + rest,
            StoreModification::AddMiddleware(_) => rest,
        }
    }
}

/// The interceptors that a queue of modifications adds, in queue order.
pub open spec fn added_interceptors<State, Action, Event, Effect>(
    modifications: Seq<StoreModification<State, Action, Event, Effect>>,
) -> Seq<MiddlewareHandle<State, Action, Event, Effect>>
    decreases modifications.len(),
{
    if modifications.len() == 0 {
        Seq::empty()
    } else {
        let rest = added_interceptors(modifications.drop_first());
        match modifications[0] {
            StoreModification::AddListener(_) => rest,
            StoreModification::AddMiddleware(handle) => seq![handle] + rest,
        }
    }
}

/// The sequence `entries` without the entry at `index`, which the last entry
/// replaces.
pub open spec fn swap_removed<T>(entries: Seq<T>, index: int) -> Seq<T> {
    entries.update(index, entries.last()).drop_last()
}

/// The sequence `entries` after the entries at the positions `dead`, taken
/// first to last, have been swap-removed one after the other.
pub open spec fn swept<T>(entries: Seq<T>, dead: Seq<usize>) -> Seq<T>
    decreases dead.len(),
{
    if dead.len() == 0 {
        entries
    } else {
        swept(swap_removed(entries, dead[0] as int), dead.drop_first())
    }
}

/// The positions `dead` are strictly descending and all below `len`.
pub open spec fn descending_below(dead: Seq<usize>, len: int) -> bool {
    &&& forall|i: int| 0 <= i < dead.len() ==> (#[trigger] dead[i]) < len
    &&& forall|i: int, j: int| 0 <= i < j < dead.len() ==> dead[i] > dead[j]
}

/// The events of `events`, in order, that the set `filter` holds.
pub open spec fn selected<Event>(filter: Set<Event>, events: Seq<Event>) -> Seq<Event> {
    events.filter(|event: Event| filter.contains(event))
}

/// A run of steps. Step `k` was handed `handed[k]` on the store `stores[k]`
/// and left `left[k]`; `stores` ends with the store after the last step.
pub open spec fn is_run<Store, Handed, Left>(
    stores: Seq<Store>,
    handed: Seq<Handed>,
    left: Seq<Left>,
) -> bool {
    &&& stores.len() == handed.len() + 1
    &&& left.len() == handed.len()
}

/// A drain loop of steps, one for each entry of `actions`. Step `k` took
/// `actions[k]` off the queue of the store `stores[k]`, which left the store
/// `taken[k]`, and ran it through the pipeline, which left `stores[k + 1]`;
/// `stores` ends with the store after the last step.
pub open spec fn is_drain<Store, Action>(
    stores: Seq<Store>,
    taken: Seq<Store>,
    actions: Seq<Action>,
) -> bool {
    &&& stores.len() == actions.len() + 1
    &&& taken.len() == actions.len()
}

/// `k` is a step of the run in which `handed` was handed.
pub open spec fn is_step<Handed>(handed: Seq<Handed>, k: int) -> bool {
    0 <= k < handed.len()
}

/// The state reached by folding the transition function `reducer` over
/// `actions`, first to last, from `state`.
pub open spec fn fold_actions<State, Action, Event, Effect>(
    reducer: spec_fn(State, Action) -> Transition<State, Event, Effect>,
    state: State,
    actions: Seq<Action>,
) -> State
    decreases actions.len(),
{
    if actions.len() == 0 {
        state
    } else {
        fold_actions(reducer, reducer(state, actions[0]).state, actions.drop_first())
    }
}

/// What a store is: its state, the reducer, whether a drain loop is running,
/// and its queues and registries.
#[verifier::reject_recursive_types(State)]
#[verifier::reject_recursive_types(Action)]
#[verifier::reject_recursive_types(Event)]
#[verifier::reject_recursive_types(Effect)]
pub ghost struct StoreView<State, Action, Event, Effect> {
    /// The current state.
    pub state: State,
    /// The state-transition function: what the reducer makes of a state and
    /// an action.
    pub reducer: spec_fn(State, Action) -> Transition<State, Event, Effect>,
    /// Whether a drain loop owns the action queue.
    pub draining: bool,
    /// The action queue, oldest first.
    pub actions: Seq<Action>,
    /// The deferred-mutation queue, oldest first.
    pub modifications: Seq<StoreModification<State, Action, Event, Effect>>,
    /// The subscriber registry.
    pub listeners: Seq<ListenerEventPair<State, Event>>,
    /// The interceptor chain, outermost first.
    pub interceptors: Seq<MiddlewareHandle<State, Action, Event, Effect>>,
}

impl<State, Action, Event, Effect> StoreView<State, Action, Event, Effect> {
    /// What the reducer makes of `action` in the current state.
    pub open spec fn transition(self, action: Action) -> Transition<State, Event, Effect> {
        (self.reducer)(self.state, action)
    }

    /// The store with `action` appended to the action queue.
    pub open spec fn enqueue(self, action: Action) -> Self {
        StoreView { actions: self.actions.push(action), ..self }
    }

    /// The store with `modification` appended to the deferred-mutation queue.
    pub open spec fn defer(self, modification: StoreModification<State, Action, Event, Effect>) -> Self {
        StoreView { modifications: self.modifications.push(modification), ..self }
    }

    /// The store after every queued modification has been applied, in queue
    /// order.
    pub open spec fn apply_modifications(self) -> Self {
        StoreView {
            listeners: self.listeners + added_listeners(self.modifications),
            interceptors: self.interceptors + added_interceptors(self.modifications),
            modifications: Seq::empty(),
            ..self
        }
    }

    /// The store after the reducer has been applied to `action`: the state is
    /// replaced, all else stays.
    pub open spec fn reduced(self, action: Action) -> Self {
        StoreView { state: self.transition(action).state, ..self }
    }

    /// The state reached by folding the reducer over `actions`, first to
    /// last, from the current state.
    pub open spec fn fold(self, actions: Seq<Action>) -> State {
        fold_actions(self.reducer, self.state, actions)
    }

    /// The store has no interceptor and none is waiting to be added.
    pub open spec fn interceptor_free(self) -> bool {
        &&& self.interceptors.len() == 0
        &&& added_interceptors(self.modifications).len() == 0
    }

    /// The store `self` is what a drain loop without interceptors leaves of
    /// `start`: idle, with empty queues, in the state that folding the reducer
    /// over the queued actions gives, and with no subscription that `start`
    /// did not have or was about to add.
    pub open spec fn drained_from(self, start: Self) -> bool {
        &&& !self.draining
        &&& self.reducer == start.reducer
        &&& self.state == start.fold(start.actions)
        &&& self.actions == Seq::<Action>::empty()
        &&& self.modifications == Seq::<StoreModification<State, Action, Event, Effect>>::empty()
        &&& self.interceptors == Seq::<MiddlewareHandle<State, Action, Event, Effect>>::empty()
        &&& self.listeners.to_multiset().subset_of(
            start.apply_modifications().listeners.to_multiset(),
        )
        &&& self.listeners.len() <= start.apply_modifications().listeners.len()
    }

    /// The store `self` is the draining store `before` after some of the
    /// operations that are open while a drain loop runs: the state, the
    /// reducer, the registry and the chain are those of `before`, and the two
    /// queues hold what they held, in the same order, and then whatever was
    /// queued since.
    pub open spec fn extends(self, before: Self) -> bool {
        &&& before.draining
        &&& self.draining
        &&& self.state == before.state
        &&& self.reducer == before.reducer
        &&& self.listeners == before.listeners
        &&& self.interceptors == before.interceptors
        &&& before.actions.is_prefix_of(self.actions)
        &&& before.modifications.is_prefix_of(self.modifications)
    }

    /// The store `self` is what dispatching `action` to the store `start`
    /// leaves.
    ///
    /// While `start` drains, the action is queued and nothing else happens.
    /// Otherwise a drain loop has run and the store is idle again; if it had
    /// no interceptor and none was waiting, it is what
    /// [`StoreView::drained_from`] says of `start` with `action` queued.
    ///
    /// This is the outcome in terms of the store alone. The steps of the drain
    /// loop, with the calls that each makes, are stated where the loop is.
    pub open spec fn dispatched_from(self, start: Self, action: Action) -> bool {
        if start.draining {
            self == start.enqueue(action)
        } else {
            &&& !self.draining
            &&& start.interceptor_free() ==> self.drained_from(start.enqueue(action))
        }
    }
}

/// In a strictly descending sequence of positions, a later position is
/// smaller than an earlier one by at least their distance.
pub proof fn lemma_descending_gap(dead: Seq<usize>, i: int, j: int)
    requires
        0 <= i <= j < dead.len(),
        forall|a: int, b: int| 0 <= a < b < dead.len() ==> dead[a] > dead[b],
    ensures
        dead[j] + (j - i) <= dead[i],
    decreases j - i,
{
    if i < j {
        lemma_descending_gap(dead, i, j - 1);
    }
}

/// Once the highest of the positions has been removed, the others are
/// strictly descending and below the shorter length.
proof fn lemma_descending_rest(dead: Seq<usize>, len: int)
    requires
        dead.len() > 0,
        descending_below(dead, len),
    ensures
        descending_below(dead.drop_first(), len - 1),
{
    let rest = dead.drop_first();
    assert forall|i: int| 0 <= i < rest.len() implies (#[trigger] rest[i]) < len - 1 by {
        assert(rest[i] == dead[i + 1]);
        assert(dead[0] > dead[i + 1]);
    }
    assert forall|i: int, j: int| 0 <= i < j < rest.len() implies rest[i] > rest[j] by {
        assert(dead[i + 1] > dead[j + 1]);
    }
}

/// Swap-removing one entry takes exactly that entry out of the multiset of
/// entries.
pub proof fn lemma_swap_removed_multiset<T>(entries: Seq<T>, index: int)
    requires
        0 <= index < entries.len(),
    ensures
        swap_removed(entries, index).to_multiset() == entries.to_multiset().remove(entries[index]),
        swap_removed(entries, index).len() == entries.len() - 1,
{
    broadcast use vstd::seq_lib::group_to_multiset_ensures;

    let last = entries.last();
    let updated = entries.update(index, last);
    vstd::seq_lib::to_multiset_update(entries, index, last);
    assert(updated.drop_last() =~= updated.remove(updated.len() - 1));
    vstd::seq_lib::to_multiset_remove(updated, updated.len() - 1);
    assert(updated[updated.len() - 1] == last);
    assert(entries.to_multiset().count(last) > 0) by {
        assert(entries.contains(last)) by {
            assert(entries[entries.len() - 1] == last);
        }
    }
    assert(entries.to_multiset().insert(last).remove(entries[index]).remove(last)
        =~= entries.to_multiset().remove(entries[index]));
}

/// Sweeping a registry of some of its positions leaves only entries that it
/// held, each at most as often as before, and shortens it by the number of
/// positions.
pub proof fn lemma_swept_keeps_survivors<T>(entries: Seq<T>, dead: Seq<usize>)
    requires
        descending_below(dead, entries.len() as int),
    ensures
        swept(entries, dead).to_multiset().subset_of(entries.to_multiset()),
        swept(entries, dead).len() == entries.len() - dead.len(),
    decreases dead.len(),
{
    if dead.len() > 0 {
        let rest = dead.drop_first();
        let next = swap_removed(entries, dead[0] as int);
        lemma_swap_removed_multiset(entries, dead[0] as int);
        lemma_descending_rest(dead, entries.len() as int);
        lemma_swept_keeps_survivors(next, rest);
    }
}

/// Folding over a queue with one more action at its end is folding over the
/// queue and then applying the reducer to that action: an action queued
/// later is reduced later, whoever queued it and whenever.
pub proof fn lemma_fold_push<State, Action, Event, Effect>(
    reducer: spec_fn(State, Action) -> Transition<State, Event, Effect>,
    state: State,
    actions: Seq<Action>,
    action: Action,
)
    ensures
        fold_actions(reducer, state, actions.push(action)) == reducer(
            fold_actions(reducer, state, actions),
            action,
        ).state,
    decreases actions.len(),
{
    let longer = actions.push(action);
    if actions.len() == 0 {
        assert(longer.drop_first() =~= actions);
        reveal_with_fuel(fold_actions, 2);
    } else {
        assert(longer.drop_first() =~= actions.drop_first().push(action));
        lemma_fold_push(reducer, reducer(state, actions[0]).state, actions.drop_first(), action);
    }
}

/// Folding over one queue and then, from the state reached, over another is
/// folding over the first followed by the second.
pub proof fn lemma_fold_concat<State, Action, Event, Effect>(
    reducer: spec_fn(State, Action) -> Transition<State, Event, Effect>,
    state: State,
    first: Seq<Action>,
    second: Seq<Action>,
)
    ensures
        fold_actions(reducer, state, first + second) == fold_actions(
            reducer,
            fold_actions(reducer, state, first),
            second,
        ),
    decreases first.len(),
{
    if first.len() == 0 {
        assert(first + second =~= second);
    } else {
        assert((first + second).drop_first() =~= first.drop_first() + second);
        lemma_fold_concat(reducer, reducer(state, first[0]).state, first.drop_first(), second);
    }
}

/// Dispatching a sequence of actions, one after the other, to an idle store
/// without interceptors leaves the state that folding the reducer over the
/// actions in the order of their dispatch gives, after any actions that were
/// already queued. `stores[0]` is the store before the first dispatch and
/// `stores[i + 1]` the store that dispatching `actions[i]` to `stores[i]`
/// leaves.
pub proof fn lemma_dispatches_fold<State, Action, Event, Effect>(
    stores: Seq<StoreView<State, Action, Event, Effect>>,
    actions: Seq<Action>,
)
    requires
        stores.len() == actions.len() + 1,
        !stores[0].draining,
        stores[0].interceptor_free(),
        forall|i: int|
            0 <= i < actions.len() ==> (#[trigger] stores[i + 1]).dispatched_from(
                stores[i],
                actions[i],
            ),
    ensures
        actions.len() > 0 ==> stores.last().state == stores[0].fold(stores[0].actions + actions),
        stores.last().reducer == stores[0].reducer,
        !stores.last().draining,
        stores.last().interceptor_free(),
        actions.len() > 0 ==> stores.last().actions == Seq::<Action>::empty(),
    decreases actions.len(),
{
    if actions.len() > 0 {
        let n = actions.len() - 1;
        let earlier = stores.drop_last();
        let before = actions.drop_last();
        assert forall|i: int| 0 <= i < before.len() implies (#[trigger] earlier[i + 1]).dispatched_from(
            earlier[i],
            before[i],
        ) by {
            assert(stores[i + 1].dispatched_from(stores[i], actions[i]));
        }
        lemma_dispatches_fold(earlier, before);
        let previous = stores[n];
        let last = stores[n + 1];
        assert(previous == earlier.last());
        assert(last.dispatched_from(previous, actions[n]));
        assert(last.drained_from(previous.enqueue(actions[n])));
        assert(added_interceptors(last.modifications).len() == 0);
        let queued = stores[0].actions + before;
        if n == 0 {
            assert(queued =~= stores[0].actions);
            assert(previous == stores[0]);
            assert(stores[0].actions + actions =~= previous.actions.push(actions[n]));
        } else {
            assert(previous.actions =~= Seq::<Action>::empty());
            assert(previous.actions.push(actions[n]) =~= seq![actions[n]]);
            assert(stores[0].actions + actions =~= queued + seq![actions[n]]);
            lemma_fold_concat(stores[0].reducer, stores[0].state, queued, seq![actions[n]]);
        }
    }
}

/// A queue of modifications with one more at its end adds what the queue
/// adds and then what the last one adds.
pub proof fn lemma_added_push<State, Action, Event, Effect>(
    modifications: Seq<StoreModification<State, Action, Event, Effect>>,
    last: StoreModification<State, Action, Event, Effect>,
)
    ensures
        added_listeners(modifications.push(last)) == added_listeners(modifications)
            + added_listeners(seq![last]),
        added_interceptors(modifications.push(last)) == added_interceptors(modifications)
            + added_interceptors(seq![last]),
    decreases modifications.len(),
{
    let longer = modifications.push(last);
    if modifications.len() == 0 {
        assert(longer =~= seq![last]);
        assert(added_listeners(modifications) + added_listeners(seq![last]) =~= added_listeners(
            seq![last],
        ));
        assert(added_interceptors(modifications) + added_interceptors(seq![last])
            =~= added_interceptors(seq![last]));
    } else {
        let rest = modifications.drop_first();
        assert(longer.drop_first() =~= rest.push(last));
        lemma_added_push(rest, last);
        match modifications[0] {
            StoreModification::AddListener(pair) => {
                assert(seq![pair] + (added_listeners(rest) + added_listeners(seq![last])) =~= (
                seq![pair] + added_listeners(rest)) + added_listeners(seq![last]));
            },
            StoreModification::AddMiddleware(handle) => {
                assert(seq![handle] + (added_interceptors(rest) + added_interceptors(seq![last]))
                    =~= (seq![handle] + added_interceptors(rest)) + added_interceptors(
                    seq![last],
                ));
            },
        }
    }
}

/// A subscriber or interceptor that is registered is not in effect until the
/// queued modifications are applied, and is in effect from then on, after
/// all that were registered before it.
///
/// Deferring a modification leaves the registry and the chain as they are.
/// Applying the modifications afterwards gives what applying them before
/// would have given, with the new subscription at the end of the registry or
/// the new interceptor at the end of the chain.
pub proof fn lemma_modification_is_deferred<State, Action, Event, Effect>(
    store: StoreView<State, Action, Event, Effect>,
    modification: StoreModification<State, Action, Event, Effect>,
)
    ensures
        store.defer(modification).listeners == store.listeners,
        store.defer(modification).interceptors == store.interceptors,
        store.defer(modification).state == store.state,
        store.defer(modification).actions == store.actions,
        store.defer(modification).apply_modifications().listeners
            == store.apply_modifications().listeners + (match modification {
            StoreModification::AddListener(pair) => seq![pair],
            StoreModification::AddMiddleware(_) => Seq::empty(),
        }),
        store.defer(modification).apply_modifications().interceptors
            == store.apply_modifications().interceptors + (match modification {
            StoreModification::AddListener(_) => Seq::empty(),
            StoreModification::AddMiddleware(handle) => seq![handle],
        }),
{
    lemma_added_push(store.modifications, modification);
    reveal_with_fuel(added_listeners, 2);
    reveal_with_fuel(added_interceptors, 2);
    let single = seq![modification];
    assert(single.drop_first() =~= Seq::empty());
    match modification {
        StoreModification::AddListener(pair) => {
            assert(added_listeners(single) =~= seq![pair]);
            assert(added_interceptors(single) =~= Seq::empty());
        },
        StoreModification::AddMiddleware(handle) => {
            assert(added_listeners(single) =~= Seq::empty());
            assert(added_interceptors(single) =~= seq![handle]);
        },
    }
    assert(store.listeners + (added_listeners(store.modifications) + added_listeners(single))
        =~= (store.listeners + added_listeners(store.modifications)) + added_listeners(single));
    assert(store.interceptors + (added_interceptors(store.modifications) + added_interceptors(
        single,
    )) =~= (store.interceptors + added_interceptors(store.modifications)) + added_interceptors(
        single,
    ));
}

/// A subscription to two events, notified of three events of which the second
/// is neither of the two, is called for the first and the third, in that
/// order, and not for the second.
pub proof fn lemma_selected_skips_others<Event>(first: Event, other: Event, second: Event)
    requires
        other != first,
        other != second,
    ensures
        selected(Set::<Event>::empty().insert(first).insert(second), seq![first, other, second])
            == seq![first, second],
{
    let filter = Set::<Event>::empty().insert(first).insert(second);
    let interest = |event: Event| filter.contains(event);
    let none = Seq::<Event>::empty();
    assert(none.filter(interest) =~= none) by {
        reveal(Seq::filter);
    }
    Seq::lemma_filter_push(none, first, interest);
    Seq::lemma_filter_push(none.push(first), other, interest);
    Seq::lemma_filter_push(none.push(first).push(other), second, interest);
    assert(seq![first, other, second] =~= none.push(first).push(other).push(second));
    assert(seq![first, second] =~= none.push(first).push(second));
}

/// The events selected for a subscription are events of the interest, they
/// are all of those among the notified events, and they come in the order in
/// which they were notified.
pub proof fn lemma_selected_is_ordered_part<Event>(filter: Set<Event>, events: Seq<Event>)
    ensures
        forall|i: int|
            0 <= i < selected(filter, events).len() ==> filter.contains(
                #[trigger] selected(filter, events)[i],
            ),
        forall|i: int|
            0 <= i < events.len() && filter.contains(events[i]) ==> selected(
                filter,
                events,
            ).contains(#[trigger] events[i]),
        selected(filter, events).len() <= events.len(),
        forall|event: Event| !filter.contains(event) ==> !selected(filter, events).contains(event),
{
    let interest = |event: Event| filter.contains(event);
    broadcast use {Seq::lemma_filter_pred, Seq::lemma_filter_contains, Seq::lemma_filter_len};
    assert forall|event: Event| !filter.contains(event) implies !selected(filter, events).contains(
        event,
    ) by {
        if selected(filter, events).contains(event) {
            let i = choose|i: int|
                0 <= i < selected(filter, events).len() && selected(filter, events)[i] == event;
            assert(interest(selected(filter, events)[i]));
        }
    }
}

/// The entries of `entries` at the positions `dead`, in the order of `dead`.
pub open spec fn picked<T>(entries: Seq<T>, dead: Seq<usize>) -> Seq<T> {
    Seq::new(dead.len(), |i: int| entries[dead[i] as int])
}

/// Sweeping a registry of the positions of the subscriptions whose callback
/// is gone takes exactly those subscriptions out of it: every other entry
/// stays, as often as it was there.
pub proof fn lemma_swept_removes_dead<T>(entries: Seq<T>, dead: Seq<usize>)
    requires
        descending_below(dead, entries.len() as int),
    ensures
        swept(entries, dead).to_multiset() == entries.to_multiset().sub(
            picked(entries, dead).to_multiset(),
        ),
        picked(entries, dead).to_multiset().subset_of(entries.to_multiset()),
    decreases dead.len(),
{
    broadcast use vstd::seq_lib::group_to_multiset_ensures;

    if dead.len() == 0 {
        assert(picked(entries, dead) =~= Seq::<T>::empty());
        assert(entries.to_multiset().sub(picked(entries, dead).to_multiset())
            =~= entries.to_multiset());
    } else {
        let first = dead[0] as int;
        let gone = entries[first];
        let rest = dead.drop_first();
        let next = swap_removed(entries, first);
        lemma_swap_removed_multiset(entries, first);
        lemma_descending_rest(dead, entries.len() as int);
        lemma_swept_removes_dead(next, rest);
        assert(picked(entries, dead) =~= seq![gone] + picked(next, rest)) by {
            assert forall|i: int| 0 <= i < rest.len() implies next[rest[i] as int]
                == entries[rest[i] as int] by {
                assert(rest[i] == dead[i + 1]);
                assert(dead[0] > dead[i + 1]);
            }
        }
        let others = picked(next, rest).to_multiset();
        assert(picked(entries, dead).to_multiset() =~= others.insert(gone)) by {
            vstd::seq_lib::lemma_multiset_commutative(seq![gone], picked(next, rest));
            assert(seq![gone] =~= Seq::<T>::empty().push(gone));
            assert(seq![gone].to_multiset() =~= vstd::multiset::Multiset::<T>::empty().insert(gone));
        }
        assert(entries.to_multiset().count(gone) > 0) by {
            assert(entries.contains(gone));
        }
        assert(entries.to_multiset().remove(gone).sub(others) =~= entries.to_multiset().sub(
            others.insert(gone),
        ));
        assert(others.insert(gone).subset_of(entries.to_multiset())) by {
            assert(others.subset_of(entries.to_multiset().remove(gone)));
        }
    }
}

/// A dispatch made while a drain loop runs only queues its action: it does
/// not start a second loop and does not touch the state, the registry or the
/// chain.
pub proof fn lemma_dispatch_while_draining<State, Action, Event, Effect>(
    before: StoreView<State, Action, Event, Effect>,
    after: StoreView<State, Action, Event, Effect>,
    action: Action,
)
    requires
        before.draining,
        after.dispatched_from(before, action),
    ensures
        after.extends(before),
        after.actions == before.actions.push(action),
{
}

/// A registration made while a drain loop runs only queues a modification:
/// the registry and the chain that the action in progress sees stay as they
/// are.
pub proof fn lemma_defer_while_draining<State, Action, Event, Effect>(
    before: StoreView<State, Action, Event, Effect>,
    modification: StoreModification<State, Action, Event, Effect>,
)
    requires
        before.draining,
    ensures
        before.defer(modification).extends(before),
{
}

/// Dispatches and registrations made while a drain loop runs add up: after
/// any number of them, in any order, what was queued before is still queued,
/// in its place, ahead of all that was queued since.
pub proof fn lemma_extends_is_transitive<State, Action, Event, Effect>(
    before: StoreView<State, Action, Event, Effect>,
    between: StoreView<State, Action, Event, Effect>,
    after: StoreView<State, Action, Event, Effect>,
)
    requires
        between.extends(before),
        after.extends(between),
    ensures
        after.extends(before),
{
}

} // verus!
