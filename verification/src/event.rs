//! The capability every event type must provide: a "no event" sentinel.
use vstd::prelude::*;

verus! {

/// An event produced by a [`Store`](crate::store::Store).
///
/// Implementations promise that [`StoreEvent::none`] yields a value for which
/// [`StoreEvent::is_none`] answers `true`, and that `is_none` is a function of
/// the event alone.
pub trait StoreEvent: Sized {
    /// Whether this event is the "no event" sentinel.
    open spec fn is_sentinel(&self) -> bool {
        arbitrary::<spec_fn(Self) -> bool>()(*self)
    }

    /// Produces the "no event" sentinel.
    fn none() -> (event: Self)
        ensures
            event.is_sentinel(),
    ;

    /// Returns `true` if this event is the "no event" sentinel.
    fn is_none(&self) -> (answer: bool)
        ensures
            answer == self.is_sentinel(),
    ;
}

impl StoreEvent for () {
    open spec fn is_sentinel(&self) -> bool {
        true
    }

    fn none() -> Self {
    }

    fn is_none(&self) -> bool {
        true
    }
}

/// Every event of the sequence is the "no event" sentinel.
pub open spec fn all_none<Event: StoreEvent>(events: Seq<Event>) -> bool {
    forall|i: int| 0 <= i < events.len() ==> (#[trigger] events[i]).is_sentinel()
}

/// Returns `true` if every event is the "no event" sentinel, `false` as soon
/// as one is not. An empty slice has no event that is not.
pub fn all_events_none<Event: StoreEvent>(events: &[Event]) -> (answer: bool)
    ensures
        answer == all_none(events@),
{
    let mut i: usize = 0;
    while i < events.len()
        invariant
            i <= events.len(),
            all_none(events@.take(i as int)),
        decreases events.len() - i,
    {
        if !events[i].is_none() {
            return false;
        }
        assert forall|k: int| 0 <= k < i + 1 implies (#[trigger] events@.take(i + 1)[k]).is_sentinel() by {
            if k < i {
                assert(events@.take(i as int)[k].is_sentinel());
            }
        }
        i = i + 1;
    }
    assert(events@.take(i as int) == events@);
    true
}

} // verus!
