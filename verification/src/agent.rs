//! The capability every agent implements.

use crate::event::{Event, EventArgs};
use vstd::prelude::*;

verus! {

/// New scheduled entries returned by a handler: pairs of an event and the
/// logical time at which it should be dispatched.
pub type NewEventsVec<TArgs> = Vec<(Event<TArgs>, u64)>;

/// An agent: a uniquely identified entity with private state that reacts
/// to events targeted at it and may schedule further events.
pub trait Agent: Sized {
    /// Payload type of the events this agent understands.
    type TArgs: EventArgs;

    /// The agent's identity as specification-level value.
    spec fn spec_id(&self) -> u128;

    /// What one dispatch may do: how the agent's state after a `handle`
    /// call relates to the state before it, given the dispatch time, the
    /// payload handed in, and the batch the handler returned. The default
    /// promises nothing; an implementation overrides it to expose its
    /// handler's effect, and `handle`'s contract holds every call to it.
    open spec fn handle_rel(
        pre: Self,
        post: Self,
        time: u64,
        args: Option<Self::TArgs>,
        batch: Seq<(Event<Self::TArgs>, u64)>,
    ) -> bool {
        true
    }

    /// The agent's identity; stable for the agent's lifetime.
    fn get_id(&self) -> (r: u128)
        ensures
            r == self.spec_id(),
    ;

    /// Reacts to an event dispatched at logical time `time`. Runs to
    /// completion, may mutate the agent's private state, and returns zero
    /// or more new scheduled entries. The agent's identity survives every
    /// dispatch, and the dispatch behaves as the agent's own
    /// [`Agent::handle_rel`] describes.
    fn handle(&mut self, time: u64, args: Option<Self::TArgs>) -> (r: NewEventsVec<Self::TArgs>)
        ensures
            final(self).spec_id() == old(self).spec_id(),
            Self::handle_rel(*old(self), *final(self), time, args, r@),
    ;
}

/// Index of the first registered id equal to `target`, if any.
pub(crate) fn find_agent_index(ids: &Vec<u128>, target: u128) -> (r: Option<usize>)
    ensures
        match r {
            Some(j) => {
                &&& j < ids@.len()
                &&& ids@[j as int] == target
                &&& forall|m: int| 0 <= m < j ==> ids@[m] != target
            },
            None => !ids@.contains(target),
        },
{
    let mut j: usize = 0;
    while j < ids.len()
        invariant
            j <= ids@.len(),
            forall|k: int| 0 <= k < j ==> ids@[k] != target,
        decreases ids@.len() - j,
    {
        if ids[j] == target {
            return Some(j);
        }
        j = j + 1;
    }
    None
}

} // verus!
