//! Events: uniquely identified messages addressed to one agent, optionally
//! carrying a typed payload.

use vstd::prelude::*;

verus! {

/// Capability implemented by every event-payload type. Payload types are
/// open-ended: each agent family may declare its own and recover it from
/// the event by matching on the concrete type it expects.
pub trait EventArgs {

}

/// A message addressed to one agent. `id` is an opaque 128-bit token drawn
/// at creation; `agent` names the target agent in the same token space;
/// `args` is the optional payload.
pub struct Event<TArgs> {
    pub id: u128,
    pub agent: u128,
    pub args: Option<TArgs>,
}

impl<TArgs> Event<TArgs> {
    /// Creates an event without a payload, addressed to `agent`.
    pub fn new(agent: u128) -> (r: Event<TArgs>)
        ensures
            r.agent == agent,
            r.args is None,
    {
        Event { id: fresh_token(), agent, args: None }
    }

    /// Creates an event carrying `args`, addressed to `agent`.
    pub fn new_with_args(agent: u128, args: TArgs) -> (r: Event<TArgs>)
        ensures
            r.agent == agent,
            r.args == Some(args),
    {
        Event { id: fresh_token(), agent, args: Some(args) }
    }
}

/// Events compare equal exactly when their identity tokens are equal:
/// not by target, not by payload.
impl<TArgs> PartialEq for Event<TArgs> {
    fn eq(&self, other: &Event<TArgs>) -> (r: bool) {
        self.id == other.id
    }
}

impl<TArgs> vstd::std_specs::cmp::PartialEqSpecImpl for Event<TArgs> {
    open spec fn obeys_eq_spec() -> bool {
        true
    }

    open spec fn eq_spec(&self, other: &Event<TArgs>) -> bool {
        self.id == other.id
    }
}

impl<TArgs> Eq for Event<TArgs> {

}

/// Relies on uuid::Uuid::new_v4: draws a random version-4 UUID, returned
/// as its 128-bit value. Nothing is promised of the value.
#[verifier::external_body]
fn fresh_token() -> u128 {
    uuid::Uuid::new_v4().as_u128()
}

} // verus!
