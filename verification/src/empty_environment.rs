//! A ready-made environment: a set of agents that reschedule themselves
//! forever, driven by the scheduling loop. Useful as a stress source and
//! as the reference implementation of the environment facade.

use crate::agent::{Agent, NewEventsVec};
use crate::channel::{
    incoming_channel, outgoing_channel, send_incoming, ControlReceiver, ReportSender,
};
use crate::environment::{AgentEnvironment, EnvironmentSettings, Runtime};
use crate::event::{Event, EventArgs};
use crate::event_queue::{
    outbound_attempts, process_event_queue, run_consistent, EventEngineError, RunLog, TermCause,
    Tunables,
};
use crate::laws::lemma_queue_sorted_at;
use crate::message::{IncomingQueueMessage, OutgoingQueueMessage};
use crate::queue::{extend_entries, lemma_extend_entries_membership, time_sorted, Entry};
use vstd::prelude::*;

verus! {

/// Settings of the empty environment: how many agents to create and the
/// three tunables the run starts from.
pub struct EmptyEnvironmentSettings {
    /// How many agents the run instantiates.
    pub agent_count: usize,
    /// Duration of each yield, in milliseconds.
    pub sleep_ms: u64,
    /// Dispatches between two yield boundaries.
    pub iter_count: u64,
    /// Absolute upper bound on dispatched events.
    pub max_iter: u64,
}

impl EmptyEnvironmentSettings {
    /// Settings with every field given.
    pub fn new(agent_count: usize, sleep_ms: u64, iter_count: u64, max_iter: u64) -> (r:
        EmptyEnvironmentSettings)
        ensures
            r == (EmptyEnvironmentSettings { agent_count, sleep_ms, iter_count, max_iter }),
    {
        EmptyEnvironmentSettings { agent_count, sleep_ms, iter_count, max_iter }
    }

    /// Settings with the dispatch bound left at its default: effectively
    /// unbounded, as when the bound is never configured.
    pub fn new_with_default_max_iter(agent_count: usize, sleep_ms: u64, iter_count: u64) -> (r:
        EmptyEnvironmentSettings)
        ensures
            r == (EmptyEnvironmentSettings {
                agent_count,
                sleep_ms,
                iter_count,
                max_iter: crate::environment::DEFAULT_MAX_ITER,
            }),
    {
        EmptyEnvironmentSettings {
            agent_count,
            sleep_ms,
            iter_count,
            max_iter: crate::environment::DEFAULT_MAX_ITER,
        }
    }
}

impl EnvironmentSettings for EmptyEnvironmentSettings {
    open spec fn spec_iter_count(&self) -> u64 {
        self.iter_count
    }

    open spec fn spec_sleep_ms(&self) -> u64 {
        self.sleep_ms
    }

    open spec fn spec_max_iter(&self) -> u64 {
        self.max_iter
    }

    fn get_iter_count(&self) -> (r: u64)
        ensures
            r == self.iter_count,
    {
        self.iter_count
    }

    fn get_sleep_ms(&self) -> (r: u64)
        ensures
            r == self.sleep_ms,
    {
        self.sleep_ms
    }

    fn get_max_iter(&self) -> (r: u64)
        ensures
            r == self.max_iter,
    {
        self.max_iter
    }
}

/// The payload of the empty environment's events: nothing.
pub struct NoArgs {}

impl EventArgs for NoArgs {

}

/// An agent that marks itself called and reschedules itself one tick
/// later on every dispatch (saturating at the largest tick).
#[derive(Clone, Copy)]
pub struct InfiniteLoopAgent {
    /// The agent's identity.
    pub id: u128,
    /// Whether the handler ran at least once.
    pub was_called: bool,
}

impl InfiniteLoopAgent {
    /// An agent with the given identity whose handler has not run yet.
    pub fn new(id: u128) -> (r: InfiniteLoopAgent)
        ensures
            r.id == id,
            !r.was_called,
    {
        InfiniteLoopAgent { id, was_called: false }
    }
}

impl Agent for InfiniteLoopAgent {
    type TArgs = NoArgs;

    open spec fn spec_id(&self) -> u128 {
        self.id
    }

    /// One dispatch marks the agent called and schedules exactly one
    /// payload-free event for itself, one tick later (saturating at the
    /// largest tick).
    open spec fn handle_rel(
        pre: InfiniteLoopAgent,
        post: InfiniteLoopAgent,
        time: u64,
        args: Option<NoArgs>,
        batch: Seq<(Event<NoArgs>, u64)>,
    ) -> bool {
        &&& post.id == pre.id
        &&& post.was_called
        &&& batch.len() == 1
        &&& batch[0].0.agent == pre.id
        &&& batch[0].0.args is None
        &&& if time == u64::MAX {
            batch[0].1 == time
        } else {
            batch[0].1 == time + 1
        }
    }

    fn get_id(&self) -> (r: u128)
        ensures
            r == self.spec_id(),
    {
        self.id
    }

    fn handle(&mut self, time: u64, args: Option<NoArgs>) -> (r: NewEventsVec<NoArgs>)
        ensures
            final(self).spec_id() == old(self).spec_id(),
            final(self).id == old(self).id,
            final(self).was_called,
            r@.len() == 1,
            r@[0].0.agent == old(self).id,
            r@[0].0.args is None,
            time < u64::MAX ==> r@[0].1 == time + 1,
            time == u64::MAX ==> r@[0].1 == time,
            InfiniteLoopAgent::handle_rel(*old(self), *final(self), time, args, r@),
    {
        self.was_called = true;
        let next_time = if time == u64::MAX {
            time
        } else {
            time + 1
        };
        let mut batch: NewEventsVec<NoArgs> = Vec::new();
        batch.push((Event::new(self.id), next_time));
        batch
    }
}

/// Whether no two of the agents share an identity.
pub open spec fn distinct_agent_ids(agents: Seq<InfiniteLoopAgent>) -> bool {
    forall|a: int, b: int| 0 <= a < b < agents.len() ==> agents[a].id != agents[b].id
}

/// In a run of [`InfiniteLoopAgent`]s whose seed targets only registered
/// ids, every agent keeps its identity and every pending entry ever
/// reached targets a registered id: the agents only reschedule
/// themselves.
proof fn lemma_known_targets_run(
    log: RunLog<InfiniteLoopAgent>,
    seed: Seq<Entry<NoArgs>>,
    result: Result<(), EventEngineError>,
    k: int,
)
    requires
        run_consistent(log, seed, result),
        forall|m: int| 0 <= m < seed.len() ==> log.ids.contains((#[trigger] seed[m]).0.agent),
        forall|m: int| 0 <= m < log.ids.len() ==> #[trigger] log.ids[m] == log.states[0][m].id,
        0 <= k <= log.batches.len(),
    ensures
        forall|m: int|
            0 <= m < log.states[k].len() ==> (#[trigger] log.states[k][m]).id
                == log.states[0][m].id,
        forall|i: int|
            0 <= i < log.queues[k].len() ==> log.ids.contains(
                (#[trigger] log.queues[k][i]).0.agent,
            ),
    decreases k,
{
    if k == 0 {
        lemma_extend_entries_membership(Seq::<Entry<NoArgs>>::empty(), seed);
        assert forall|i: int| 0 <= i < log.queues[0].len() implies log.ids.contains(
            (#[trigger] log.queues[0][i]).0.agent,
        ) by {
            assert(seed.contains(log.queues[0][i]));
            let m = choose|m: int| 0 <= m < seed.len() && seed[m] == log.queues[0][i];
            assert(log.ids.contains(seed[m].0.agent));
        }
    } else {
        lemma_known_targets_run(log, seed, result, k - 1);
        let t = log.targets[k - 1];
        let prev = log.queues[k - 1];
        let tail = prev.drop_first();
        let batch = log.batches[k - 1];
        assert(log.states[k] == log.states[k - 1].update(t, log.states[k][t]));
        assert(InfiniteLoopAgent::handle_rel(
            log.states[k - 1][t],
            log.states[k][t],
            log.popped[k - 1].1,
            log.popped[k - 1].0.args,
            batch,
        ));
        assert forall|m: int| 0 <= m < log.states[k].len() implies (#[trigger] log.states[k][m]).id
            == log.states[0][m].id by {
            if m != t {
                assert(log.states[k][m] == log.states[k - 1][m]);
            }
        }
        lemma_queue_sorted_at(log, seed, result, k - 1);
        assert(time_sorted(tail)) by {
            assert(forall|i: int| 0 <= i < tail.len() ==> tail[i] == prev[i + 1]);
        }
        lemma_extend_entries_membership(tail, batch);
        assert(log.queues[k] == extend_entries(tail, batch));
        assert forall|i: int| 0 <= i < log.queues[k].len() implies log.ids.contains(
            (#[trigger] log.queues[k][i]).0.agent,
        ) by {
            let e = log.queues[k][i];
            if tail.contains(e) {
                let n = choose|n: int| 0 <= n < tail.len() && tail[n] == e;
                assert(prev[n + 1] == e);
                assert(log.ids.contains(prev[n + 1].0.agent));
            } else {
                assert(batch.contains(e));
                assert(batch.len() == 1);
                assert(e == batch[0]);
                assert(batch[0].0.agent == log.states[k - 1][t].id);
                assert(log.states[k - 1][t].id == log.states[0][t].id);
                assert(log.ids[t] == log.states[0][t].id);
                assert(log.ids.contains(e.0.agent));
            }
        }
    }
}


/// Creates `count` agents with pairwise distinct identities, none of
/// their handlers called yet.
pub fn create_agents(count: usize) -> (r: Vec<InfiniteLoopAgent>)
    ensures
        r@.len() == count,
        distinct_agent_ids(r@),
        forall|k: int| 0 <= k < count ==> !(#[trigger] r@[k]).was_called,
{
    let mut agents: Vec<InfiniteLoopAgent> = Vec::new();
    let mut j: usize = 0;
    while j < count
        invariant
            j <= count,
            agents@.len() == j,
            forall|k: int| 0 <= k < j ==> (#[trigger] agents@[k]).id == k as u128,
            forall|k: int| 0 <= k < j ==> !(#[trigger] agents@[k]).was_called,
        decreases count - j,
    {
        agents.push(InfiniteLoopAgent::new(j as u128));
        j = j + 1;
    }
    agents
}

/// Lifecycle wrapper around a set of [`InfiniteLoopAgent`]s: owns the
/// control channel endpoints, seeds the queue with one zero-time event
/// per agent, runs the scheduling loop, and steers it through the four
/// control methods. Each control method sends exactly one message and
/// leaves the sender in place for further ones.
pub struct InfiniteEmptyEnvironment<R: Runtime> {
    runtime: R,
    sender: Option<std::sync::mpsc::Sender<IncomingQueueMessage>>,
    /// The outbound report channel's receiving half, kept after a run so
    /// the caller can drain remaining reports.
    pub receiver: Option<std::sync::mpsc::Receiver<OutgoingQueueMessage>>,
    agents: Vec<InfiniteLoopAgent>,
    /// The last run's inbound receiving half, with the history of what
    /// its polls really yielded.
    loop_receiver: Option<ControlReceiver>,
    /// The last run's outbound sending half, with the history of every
    /// report really handed to the channel.
    report_sender: Option<ReportSender>,
    /// Every control message this environment handed to its sender.
    sent: Ghost<Seq<IncomingQueueMessage>>,
    /// Every status string this environment handed to its runtime's log.
    logged: Ghost<Seq<Seq<char>>>,
}

impl<R: Runtime> InfiniteEmptyEnvironment<R> {
    /// The agents as the last run left them.
    pub closed spec fn spec_agents(&self) -> Seq<InfiniteLoopAgent> {
        self.agents@
    }

    /// Whether a control sender is in place.
    pub closed spec fn has_sender(&self) -> bool {
        self.sender is Some
    }

    /// Whether the report receiver is in place.
    pub closed spec fn has_receiver(&self) -> bool {
        self.receiver is Some
    }

    /// Every control message this environment has handed to its sender,
    /// in order, across all runs.
    pub closed spec fn spec_sent(&self) -> Seq<IncomingQueueMessage> {
        self.sent@
    }

    /// Every status string this environment has handed to its runtime's
    /// log, in order. The scheduling loop's own "Entered sleep" lines go
    /// to the runtime directly and are not recorded here.
    pub closed spec fn spec_logged(&self) -> Seq<Seq<char>> {
        self.logged@
    }

    /// What the last run's inbound polls really yielded, in order;
    /// empty before the first run.
    pub closed spec fn spec_run_polled(&self) -> Seq<Option<IncomingQueueMessage>> {
        match self.loop_receiver {
            Some(receiver) => receiver.spec_polled(),
            None => Seq::empty(),
        }
    }

    /// What the last run really handed to the report channel, in order,
    /// each with the channel's verdict; empty before the first run.
    pub closed spec fn spec_run_outbound(&self) -> Seq<(OutgoingQueueMessage, bool)> {
        match self.report_sender {
            Some(sender) => sender.spec_attempts(),
            None => Seq::empty(),
        }
    }

    /// A copy of the agents as the last run left them.
    pub fn get_agents(&self) -> (r: Vec<InfiniteLoopAgent>)
        ensures
            r@ == self.spec_agents(),
    {
        let r = self.agents.clone();
        proof {
            assert(r@ =~= self.agents@);
        }
        r
    }

    /// Sends one control message if a sender is in place, recording it
    /// in the send history; a send into a finished run is reported by
    /// the channel and deliberately ignored.
    fn send_control(&mut self, message: IncomingQueueMessage)
        ensures
            final(self).has_sender() == old(self).has_sender(),
            final(self).has_receiver() == old(self).has_receiver(),
            final(self).spec_agents() == old(self).spec_agents(),
            final(self).spec_logged() == old(self).spec_logged(),
            final(self).spec_run_polled() == old(self).spec_run_polled(),
            final(self).spec_run_outbound() == old(self).spec_run_outbound(),
            old(self).has_sender() ==> final(self).spec_sent() == old(self).spec_sent().push(
                message,
            ),
            !old(self).has_sender() ==> *final(self) == *old(self),
    {
        match &self.sender {
            Some(sender) => {
                let _delivered = send_incoming(sender, message);
            },
            None => {
                return ;
            },
        }
        self.sent = Ghost(self.sent@.push(message));
    }
}

impl<R: Runtime> AgentEnvironment for InfiniteEmptyEnvironment<R> {
    type TRuntime = R;

    type TEnvironmentSettings = EmptyEnvironmentSettings;

    fn new(runtime: R) -> (r: Self)
        ensures
            !r.has_sender(),
            !r.has_receiver(),
            r.spec_agents().len() == 0,
            r.spec_sent() == Seq::<IncomingQueueMessage>::empty(),
            r.spec_logged() == seq!["Creating new environment"@],
    {
        let mut runtime = runtime;
        runtime.log("Creating new environment");
        let ghost initial_logged: Seq<Seq<char>> = seq!["Creating new environment"@];
        InfiniteEmptyEnvironment {
            runtime,
            sender: None,
            receiver: None,
            agents: Vec::new(),
            loop_receiver: None,
            report_sender: None,
            sent: Ghost(Seq::empty()),
            logged: Ghost(initial_logged),
        }
    }

    /// Instantiates the agents, seeds one zero-time, payload-free event
    /// per agent, and runs the scheduling loop to completion over the
    /// given settings. Afterwards the agents are as the run left them —
    /// their identities, pairwise distinct by construction, survive
    /// every dispatch — both channel endpoints stay in place, and the
    /// whole run is pinned by a consistent run record over that seed.
    /// Since every event such a run can reach targets a registered
    /// agent, the run never fails with `EventHasNoAgent`.
    fn run(&mut self, settings: EmptyEnvironmentSettings) -> (r: Result<(), EventEngineError>)
        ensures
            final(self).spec_agents().len() == settings.agent_count,
            distinct_agent_ids(final(self).spec_agents()),
            final(self).has_sender(),
            final(self).has_receiver(),
            final(self).spec_sent() == old(self).spec_sent(),
            final(self).spec_logged() == old(self).spec_logged().push("Starting"@),
            r != Err::<(), EventEngineError>(EventEngineError::EventHasNoAgent),
            exists|log: RunLog<InfiniteLoopAgent>, seed: Seq<Entry<NoArgs>>|
                {
                    &&& #[trigger] run_consistent(log, seed, r)
                    &&& seed.len() == settings.agent_count
                    &&& (forall|k: int|
                        0 <= k < seed.len() ==> {
                            &&& (#[trigger] seed[k]).1 == 0
                            &&& seed[k].0.agent == final(self).spec_agents()[k].id
                            &&& seed[k].0.args is None
                        })
                    &&& log.ids.len() == settings.agent_count
                    &&& (forall|k: int|
                        0 <= k < log.ids.len()
                            ==> #[trigger] log.ids[k] == final(self).spec_agents()[k].id)
                    &&& log.states.last() == final(self).spec_agents()
                    &&& log.init == (Tunables {
                        sleep_ms: settings.sleep_ms,
                        every: settings.iter_count,
                        max_iter: settings.max_iter,
                    })
                    &&& log.polled == final(self).spec_run_polled()
                    &&& outbound_attempts(log) == final(self).spec_run_outbound()
                },
    {
        self.agents = create_agents(settings.agent_count);
        let ghost created = self.agents@;
        self.runtime.log("Starting");
        self.logged = Ghost(self.logged@.push("Starting"@));
        let (in_sender, in_receiver) = incoming_channel();
        self.sender = Some(in_sender);
        let mut control = ControlReceiver::new(in_receiver);
        let (out_sender, out_receiver) = outgoing_channel();
        self.receiver = Some(out_receiver);
        let mut reports = ReportSender::new(out_sender);
        let mut events: Vec<(Event<NoArgs>, u64)> = Vec::new();
        let mut j: usize = 0;
        while j < self.agents.len()
            invariant
                j <= self.agents@.len(),
                events@.len() == j,
                self.agents@ == created,
                forall|k: int|
                    0 <= k < j ==> {
                        &&& (#[trigger] events@[k]).1 == 0
                        &&& events@[k].0.agent == created[k].id
                        &&& events@[k].0.args is None
                    },
            decreases self.agents@.len() - j,
        {
            events.push((Event::new(self.agents[j].id), 0));
            j = j + 1;
        }
        let ghost seed = events@;
        let (result, run_log) = process_event_queue(
            &mut self.agents,
            events,
            &mut control,
            &mut self.runtime,
            &settings,
            &mut reports,
        );
        self.loop_receiver = Some(control);
        self.report_sender = Some(reports);
        proof {
            let log = run_log@;
            assert forall|a: int, b: int|
                0 <= a < b < self.agents@.len() implies self.agents@[a].id != self.agents@[b].id by {
                assert(self.agents@[a].spec_id() == created[a].spec_id());
                assert(self.agents@[b].spec_id() == created[b].spec_id());
            }
            assert forall|k: int| 0 <= k < log.ids.len() implies #[trigger] log.ids[k]
                == self.agents@[k].id by {
                assert(log.ids[k] == created[k].spec_id());
                assert(self.agents@[k].spec_id() == created[k].spec_id());
            }
            assert forall|m: int| 0 <= m < seed.len() implies log.ids.contains(
                (#[trigger] seed[m]).0.agent,
            ) by {
                assert(log.ids[m] == created[m].id);
            }
            let d = log.batches.len() as int;
            if log.cause == TermCause::NoAgent {
                lemma_known_targets_run(log, seed, result, d);
                assert(log.ids.contains(log.queues[d][0].0.agent));
            }
            assert(result != Err::<(), EventEngineError>(EventEngineError::EventHasNoAgent));
            assert(run_consistent(log, seed, result));
        }
        result
    }

    /// Asks the loop to stop: with a sender in place, logs "Halting" and
    /// hands exactly one `Halt` to the channel; the sender stays in
    /// place. Without one, does nothing.
    fn halt(&mut self)
        ensures
            final(self).has_sender() == old(self).has_sender(),
            final(self).has_receiver() == old(self).has_receiver(),
            final(self).spec_agents() == old(self).spec_agents(),
            old(self).has_sender() ==> {
                &&& final(self).spec_sent() == old(self).spec_sent().push(
                    IncomingQueueMessage::Halt,
                )
                &&& final(self).spec_logged() == old(self).spec_logged().push("Halting"@)
            },
            !old(self).has_sender() ==> {
                &&& final(self).spec_sent() == old(self).spec_sent()
                &&& final(self).spec_logged() == old(self).spec_logged()
            },
    {
        if self.sender.is_some() {
            self.runtime.log("Halting");
            self.logged = Ghost(self.logged@.push("Halting"@));
            self.send_control(IncomingQueueMessage::Halt);
        }
    }

    /// Changes the yield duration: with a sender in place, logs
    /// "Changing sleep time" and hands exactly one
    /// `ChangeSleepDurationMs(time_ms)` to the channel; the sender stays
    /// in place. Without one, does nothing.
    fn change_sleep_time(&mut self, time_ms: u64)
        ensures
            final(self).has_sender() == old(self).has_sender(),
            final(self).has_receiver() == old(self).has_receiver(),
            final(self).spec_agents() == old(self).spec_agents(),
            old(self).has_sender() ==> {
                &&& final(self).spec_sent() == old(self).spec_sent().push(
                    IncomingQueueMessage::ChangeSleepDurationMs(time_ms),
                )
                &&& final(self).spec_logged() == old(self).spec_logged().push(
                    "Changing sleep time"@,
                )
            },
            !old(self).has_sender() ==> {
                &&& final(self).spec_sent() == old(self).spec_sent()
                &&& final(self).spec_logged() == old(self).spec_logged()
            },
    {
        if self.sender.is_some() {
            self.runtime.log("Changing sleep time");
            self.logged = Ghost(self.logged@.push("Changing sleep time"@));
            self.send_control(IncomingQueueMessage::ChangeSleepDurationMs(time_ms));
        }
    }

    /// Changes the yield interval: with a sender in place, logs
    /// "Changing sleep iter count" and hands exactly one
    /// `ChangeSleepIterCount(count)` to the channel; the sender stays in
    /// place. Without one, does nothing.
    fn change_sleep_iter_count(&mut self, count: u64)
        ensures
            final(self).has_sender() == old(self).has_sender(),
            final(self).has_receiver() == old(self).has_receiver(),
            final(self).spec_agents() == old(self).spec_agents(),
            old(self).has_sender() ==> {
                &&& final(self).spec_sent() == old(self).spec_sent().push(
                    IncomingQueueMessage::ChangeSleepIterCount(count),
                )
                &&& final(self).spec_logged() == old(self).spec_logged().push(
                    "Changing sleep iter count"@,
                )
            },
            !old(self).has_sender() ==> {
                &&& final(self).spec_sent() == old(self).spec_sent()
                &&& final(self).spec_logged() == old(self).spec_logged()
            },
    {
        if self.sender.is_some() {
            self.runtime.log("Changing sleep iter count");
            self.logged = Ghost(self.logged@.push("Changing sleep iter count"@));
            self.send_control(IncomingQueueMessage::ChangeSleepIterCount(count));
        }
    }

    /// Changes the dispatch bound: with a sender in place, logs
    /// "Changing max iter count" and hands exactly one
    /// `ChangeMaxIter(count)` to the channel; the sender stays in place.
    /// Without one, does nothing.
    fn change_max_iter_count(&mut self, count: u64)
        ensures
            final(self).has_sender() == old(self).has_sender(),
            final(self).has_receiver() == old(self).has_receiver(),
            final(self).spec_agents() == old(self).spec_agents(),
            old(self).has_sender() ==> {
                &&& final(self).spec_sent() == old(self).spec_sent().push(
                    IncomingQueueMessage::ChangeMaxIter(count),
                )
                &&& final(self).spec_logged() == old(self).spec_logged().push(
                    "Changing max iter count"@,
                )
            },
            !old(self).has_sender() ==> {
                &&& final(self).spec_sent() == old(self).spec_sent()
                &&& final(self).spec_logged() == old(self).spec_logged()
            },
    {
        if self.sender.is_some() {
            self.runtime.log("Changing max iter count");
            self.logged = Ghost(self.logged@.push("Changing max iter count"@));
            self.send_control(IncomingQueueMessage::ChangeMaxIter(count));
        }
    }
}


} // verus!
