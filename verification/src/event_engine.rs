//! The basic event engine: an agent registry and a queue, dispatched to
//! exhaustion with no control channel, pacing or reports. The full
//! scheduling loop with its coordination surface lives in `event_queue`.

use crate::agent::{find_agent_index, Agent};
use crate::event::Event;
use crate::queue::{extend_entries, Entry, EventQueue};
use vstd::prelude::*;

verus! {

/// Error surfaced by the basic engine.
#[derive(Debug, PartialEq, Eq, Structural)]
pub enum EventEngineError {
    /// A popped event's target identity is not in the registry.
    EventHasNoAgent,
}

/// Ghost record of one engine run: the queue and agent states at the
/// start of each dispatch, the entries popped, the batch each handler
/// returned, and who was dispatched.
pub struct EngineLog<A: Agent> {
    /// Queue contents before dispatch `k`; the last element is the queue
    /// as the run left it.
    pub queues: Seq<Seq<Entry<A::TArgs>>>,
    /// Entries popped, in order. On failure the last one found no agent.
    pub popped: Seq<Entry<A::TArgs>>,
    /// What the handler of dispatch `k` returned.
    pub batches: Seq<Seq<Entry<A::TArgs>>>,
    /// Agent states before dispatch `k`, in registration order; the last
    /// element is the agents as the run left them.
    pub states: Seq<Seq<A>>,
    /// Registry index dispatch `k` went to: the first whose id matches.
    pub targets: Seq<int>,
}

/// Each completed dispatch popped the earliest pending entry, found the
/// first registry entry carrying its target id, behaved as the agent's
/// own `handle_rel` describes while every other agent stood still, and
/// spliced the handler's batch back in.
pub open spec fn engine_dispatches_ok<A: Agent>(log: EngineLog<A>, ids: Seq<u128>) -> bool {
    let d = log.batches.len() as int;
    &&& log.queues.len() == d + 1
    &&& log.popped.len() >= d
    &&& log.states.len() == d + 1
    &&& log.targets.len() == d
    &&& forall|k: int| 0 <= k < d + 1 ==> (#[trigger] log.states[k]).len() == ids.len()
    &&& forall|k: int|
        0 <= k < d ==> {
            &&& (#[trigger] log.queues[k]).len() > 0
            &&& log.popped[k] == log.queues[k][0]
            &&& ids.contains(log.popped[k].0.agent)
            &&& log.queues[k + 1] == extend_entries(log.queues[k].drop_first(), log.batches[k])
        }
    &&& forall|k: int|
        0 <= k < d ==> {
            let t = #[trigger] log.targets[k];
            &&& 0 <= t < ids.len()
            &&& ids[t] == log.popped[k].0.agent
            &&& (forall|m: int| 0 <= m < t ==> ids[m] != log.popped[k].0.agent)
            &&& A::handle_rel(
                log.states[k][t],
                log.states[k + 1][t],
                log.popped[k].1,
                log.popped[k].0.args,
                log.batches[k],
            )
            &&& log.states[k + 1] == log.states[k].update(t, log.states[k + 1][t])
        }
}

/// What a finished engine run guarantees: it started from `start_queue`,
/// every dispatch was consistent, and it ended either successfully with
/// the queue drained (or the dispatch counter exhausted) or with the one
/// popped entry whose target is unknown.
pub open spec fn engine_run_ok<A: Agent>(
    log: EngineLog<A>,
    start_queue: Seq<Entry<A::TArgs>>,
    ids: Seq<u128>,
    result: Result<(), EventEngineError>,
) -> bool {
    let d = log.batches.len() as int;
    &&& engine_dispatches_ok(log, ids)
    &&& log.queues[0] == start_queue
    &&& match result {
        Ok(()) => {
            &&& log.popped.len() == d
            &&& (log.queues[d].len() == 0 || d == u64::MAX as int)
        },
        Err(EventEngineError::EventHasNoAgent) => {
            &&& log.popped.len() == d + 1
            &&& log.queues[d].len() > 0
            &&& log.popped[d] == log.queues[d][0]
            &&& !ids.contains(log.popped[d].0.agent)
        },
    }
}

/// An agent registry with its pending event queue.
pub struct EventEngine<A: Agent> {
    ids: Vec<u128>,
    agents: Vec<A>,
    queue: EventQueue<A::TArgs>,
}

impl<A: Agent> EventEngine<A> {
    /// Registry keys, in registration order.
    pub closed spec fn spec_ids(&self) -> Seq<u128> {
        self.ids@
    }

    /// Pending entries, in dispatch order.
    pub closed spec fn spec_queue(&self) -> Seq<Entry<A::TArgs>> {
        self.queue@
    }

    /// The registered agents, in registration order.
    pub closed spec fn spec_agents(&self) -> Seq<A> {
        self.agents@
    }

    /// A view of the registered agents.
    pub fn agents(&self) -> (r: &Vec<A>)
        ensures
            r@ == self.spec_agents(),
    {
        &self.agents
    }

    /// Well-formedness: one registry key per agent and a time-ordered
    /// queue.
    pub closed spec fn wf(&self) -> bool {
        self.ids@.len() == self.agents@.len() && self.queue.wf()
    }

    /// Indexes the agents by the ids they report; the queue starts empty.
    pub fn new(agents: Vec<A>) -> (r: EventEngine<A>)
        ensures
            r.wf(),
            r.spec_ids().len() == agents@.len(),
            forall|k: int|
                0 <= k < agents@.len() ==> #[trigger] r.spec_ids()[k] == agents@[k].spec_id(),
            r.spec_agents() == agents@,
            r.spec_queue() == Seq::<Entry<A::TArgs>>::empty(),
    {
        let mut ids: Vec<u128> = Vec::new();
        let mut j: usize = 0;
        while j < agents.len()
            invariant
                j <= agents@.len(),
                ids@.len() == j,
                forall|k: int| 0 <= k < j ==> #[trigger] ids@[k] == agents@[k].spec_id(),
            decreases agents@.len() - j,
        {
            ids.push(agents[j].get_id());
            j = j + 1;
        }
        EventEngine { ids, agents, queue: EventQueue::new() }
    }

    /// How many agents are registered.
    pub fn agent_count(&self) -> (n: usize)
        ensures
            n == self.spec_ids().len(),
    {
        self.ids.len()
    }

    /// Splices `init_state` into the queue, then dispatches entries in
    /// ascending time order until the queue is drained — success — or a
    /// popped event targets an identity outside the registry — failure,
    /// with nothing further dispatched. At most `u64::MAX` events are
    /// dispatched, the same absolute bound the scheduling loop starts
    /// from by default.
    pub fn start(&mut self, init_state: Vec<(Event<A::TArgs>, u64)>) -> (r: (
        Result<(), EventEngineError>,
        Ghost<EngineLog<A>>,
    ))
        requires
            old(self).wf(),
        ensures
            final(self).wf(),
            final(self).spec_ids() == old(self).spec_ids(),
            final(self).spec_agents().len() == old(self).spec_agents().len(),
            forall|k: int|
                0 <= k < old(self).spec_agents().len()
                    ==> (#[trigger] final(self).spec_agents()[k]).spec_id() == old(
                    self,
                ).spec_agents()[k].spec_id(),
            r.1@.states[0] == old(self).spec_agents(),
            r.1@.states.last() == final(self).spec_agents(),
            engine_run_ok(
                r.1@,
                extend_entries(old(self).spec_queue(), init_state@),
                old(self).spec_ids(),
                r.0,
            ),
    {
        self.queue.extend(init_state);
        let ghost mut queues: Seq<Seq<Entry<A::TArgs>>> = seq![self.queue@];
        let ghost mut popped: Seq<Entry<A::TArgs>> = Seq::empty();
        let ghost mut batches: Seq<Seq<Entry<A::TArgs>>> = Seq::empty();
        let ghost mut states: Seq<Seq<A>> = seq![self.agents@];
        let ghost mut targets: Seq<int> = Seq::empty();
        let mut i: u64 = 0;
        loop
            invariant
                self.wf(),
                self.spec_ids() == old(self).spec_ids(),
                self.spec_agents().len() == old(self).spec_agents().len(),
                forall|k: int|
                    0 <= k < old(self).spec_agents().len() ==> (#[trigger] self.spec_agents()[k]).spec_id()
                        == old(self).spec_agents()[k].spec_id(),
                queues.len() == batches.len() + 1,
                popped.len() == batches.len(),
                states.len() == batches.len() + 1,
                targets.len() == batches.len(),
                states[0] == old(self).spec_agents(),
                states.last() == self.spec_agents(),
                i as int == batches.len(),
                queues.last() == self.spec_queue(),
                queues[0] == extend_entries(old(self).spec_queue(), init_state@),
                engine_dispatches_ok(EngineLog { queues, popped, batches, states, targets }, old(self).spec_ids()),
            decreases u64::MAX - i,
        {
            if i == u64::MAX {
                return (Ok(()), Ghost(EngineLog { queues, popped, batches, states, targets }));
            }
            let item = self.queue.pop();
            match item {
                None => {
                    proof {
                        assert(queues[queues.len() - 1].len() == 0);
                    }
                    return (Ok(()), Ghost(EngineLog { queues, popped, batches, states, targets }));
                },
                Some((event, time)) => {
                    proof {
                        popped = popped.push((event, time));
                    }
                    let target = event.agent;
                    match find_agent_index(&self.ids, target) {
                        None => {
                            return (
                                Err(EventEngineError::EventHasNoAgent),
                                Ghost(EngineLog { queues, popped, batches, states, targets }),
                            );
                        },
                        Some(j) => {
                            let ghost pre_agents = self.agents@;
                            let batch = self.agents[j].handle(time, event.args);
                            proof {
                                batches = batches.push(batch@);
                                targets = targets.push(j as int);
                            }
                            self.queue.extend(batch);
                            proof {
                                queues = queues.push(self.spec_queue());
                                states = states.push(self.agents@);
                                let d2 = batches.len() - 1;
                                assert(self.agents@ == pre_agents.update(
                                    j as int,
                                    self.agents@[j as int],
                                ));
                                assert(popped[d2] == (event, time));
                                assert(A::handle_rel(
                                    states[d2][j as int],
                                    states[d2 + 1][j as int],
                                    popped[d2].1,
                                    popped[d2].0.args,
                                    batches[d2],
                                ));
                            }
                            i = i + 1;
                        },
                    }
                },
            }
        }
    }
}

} // verus!
