//! The scheduling loop: consumes control messages, pops the earliest
//! pending event, dispatches it to its agent, splices the produced events
//! back into the queue, yields periodically, and emits progress reports.
//!
//! Every run leaves a ghost record, a [`RunLog`], and the loop's contract
//! says the record is consistent with what actually happened:
//! [`run_consistent`] pins down each iteration and each way to terminate.

use crate::agent::{find_agent_index, Agent};
use crate::channel::{ControlReceiver, ReportSender};
use crate::environment::{EnvironmentSettings, Runtime};
use crate::event::Event;
use crate::message::{IncomingQueueMessage, OutgoingQueueMessage};
use crate::queue::{extend_entries, Entry, EventQueue};
use vstd::prelude::*;

verus! {

/// Error kinds surfaced by the scheduling loop. Every other way a run
/// ends — empty queue, an inbound halt, the iteration bound — is a
/// successful termination.
#[derive(Debug, PartialEq, Eq, Structural)]
pub enum EventEngineError {
    /// A popped event's target identity is not in the registry.
    EventHasNoAgent,
    /// The outbound channel's receiver is gone; the report it should
    /// have carried is returned.
    CouldNotCommunicate(OutgoingQueueMessage),
}

/// The three tunables of a running loop: yield duration, dispatches per
/// yield boundary, and the absolute dispatch bound.
#[derive(Clone, Copy, Debug, PartialEq, Eq, Structural)]
pub struct Tunables {
    /// Duration of each yield, in milliseconds.
    pub sleep_ms: u64,
    /// Dispatches between two yield boundaries; zero never yields.
    pub every: u64,
    /// Absolute upper bound on dispatched events.
    pub max_iter: u64,
}

/// Effect of one control message on the tunables; `Halt` changes none.
pub open spec fn apply_message(t: Tunables, m: IncomingQueueMessage) -> Tunables {
    match m {
        IncomingQueueMessage::Halt => t,
        IncomingQueueMessage::ChangeSleepIterCount(n) => (Tunables {
            sleep_ms: t.sleep_ms,
            every: n,
            max_iter: t.max_iter,
        }),
        IncomingQueueMessage::ChangeSleepDurationMs(n) => (Tunables {
            sleep_ms: n,
            every: t.every,
            max_iter: t.max_iter,
        }),
        IncomingQueueMessage::ChangeMaxIter(n) => (Tunables {
            sleep_ms: t.sleep_ms,
            every: t.every,
            max_iter: n,
        }),
    }
}

/// The tunables once the first `j` polled messages took effect.
pub open spec fn tunables_after(
    init: Tunables,
    polled: Seq<Option<IncomingQueueMessage>>,
    j: int,
) -> Tunables
    decreases j,
{
    if j <= 0 {
        init
    } else {
        match polled[j - 1] {
            Some(m) => apply_message(tunables_after(init, polled, j - 1), m),
            None => tunables_after(init, polled, j - 1),
        }
    }
}

/// Whether a report is owed once the dispatch count reached `d`: the
/// count is a positive multiple of the yield interval in force. An
/// interval of zero never yields.
pub open spec fn report_due(d: int, every: u64) -> bool {
    every != 0 && d % (every as int) == 0
}

/// The report values owed after `d` dispatches, in order: the dispatch
/// counts that were positive multiples of the yield interval in force
/// when they were reached.
pub open spec fn reports_after(
    init: Tunables,
    polled: Seq<Option<IncomingQueueMessage>>,
    d: int,
) -> Seq<u64>
    decreases d,
{
    if d <= 0 {
        Seq::empty()
    } else if report_due(d, tunables_after(init, polled, d).every) {
        reports_after(init, polled, d - 1).push(d as u64)
    } else {
        reports_after(init, polled, d - 1)
    }
}

/// `tunables_after` reads only the first `j` polled messages.
pub proof fn lemma_tunables_after_prefix(
    init: Tunables,
    p1: Seq<Option<IncomingQueueMessage>>,
    p2: Seq<Option<IncomingQueueMessage>>,
    j: int,
)
    requires
        forall|k: int| 0 <= k < j ==> p1[k] == p2[k],
    ensures
        tunables_after(init, p1, j) == tunables_after(init, p2, j),
    decreases j,
{
    if j > 0 {
        lemma_tunables_after_prefix(init, p1, p2, j - 1);
    }
}

/// `reports_after` reads only the first `d` polled messages.
pub proof fn lemma_reports_after_prefix(
    init: Tunables,
    p1: Seq<Option<IncomingQueueMessage>>,
    p2: Seq<Option<IncomingQueueMessage>>,
    d: int,
)
    requires
        forall|k: int| 0 <= k < d ==> p1[k] == p2[k],
    ensures
        reports_after(init, p1, d) == reports_after(init, p2, d),
    decreases d,
{
    if d > 0 {
        lemma_tunables_after_prefix(init, p1, p2, d);
        lemma_reports_after_prefix(init, p1, p2, d - 1);
    }
}

/// Why a run ended.
#[derive(Clone, Copy, Debug, PartialEq, Eq, Structural)]
pub enum TermCause {
    /// An inbound `Halt` was polled.
    Halted,
    /// The dispatch count reached the bound in force.
    MaxIterReached,
    /// The queue was exhausted: natural termination.
    QueueEmpty,
    /// The popped event's target is not in the registry.
    NoAgent,
    /// Sending an `Iter` report failed.
    ReportSendFailed,
    /// Sending `Started` failed; the loop never iterated.
    StartSendFailed,
}

/// Ghost record of one scheduling-loop run.
pub struct RunLog<A: Agent> {
    /// The tunables the loop started from.
    pub init: Tunables,
    /// Registry keys, in registration order.
    pub ids: Seq<u128>,
    /// What the non-blocking inbound poll of each iteration returned.
    pub polled: Seq<Option<IncomingQueueMessage>>,
    /// Queue contents at the start of dispatch `k`; the last element is
    /// the queue as the run left it.
    pub queues: Seq<Seq<Entry<A::TArgs>>>,
    /// Entries popped, in order. On `NoAgent` the last one found no
    /// agent and was not dispatched.
    pub popped: Seq<Entry<A::TArgs>>,
    /// What the handler of dispatch `k` returned.
    pub batches: Seq<Seq<Entry<A::TArgs>>>,
    /// Agent states at the start of dispatch `k`, in registration order;
    /// the last element is the agents as the run left them.
    pub states: Seq<Seq<A>>,
    /// Registry index dispatch `k` went to: the first whose id matches.
    pub targets: Seq<int>,
    /// `Iter` values delivered, in order.
    pub reports: Seq<u64>,
    /// Whether `Started` was delivered.
    pub started: bool,
    /// Why the run ended.
    pub cause: TermCause,
}

/// Every completed iteration: no halt was polled, the bound in force was
/// not yet reached, the earliest pending entry was popped, its target was
/// the first registry entry carrying the popped event's agent id, the
/// dispatch behaved as the agent's own `handle_rel` describes while
/// every other agent stood still, and the handler's batch was spliced
/// back in.
pub open spec fn dispatches_ok<A: Agent>(
    init: Tunables,
    ids: Seq<u128>,
    polled: Seq<Option<IncomingQueueMessage>>,
    queues: Seq<Seq<Entry<A::TArgs>>>,
    popped: Seq<Entry<A::TArgs>>,
    batches: Seq<Seq<Entry<A::TArgs>>>,
    states: Seq<Seq<A>>,
    targets: Seq<int>,
) -> bool {
    let d = batches.len() as int;
    &&& queues.len() == d + 1
    &&& popped.len() >= d
    &&& polled.len() >= d
    &&& states.len() == d + 1
    &&& targets.len() == d
    &&& d <= u64::MAX as int
    &&& forall|k: int| 0 <= k < d + 1 ==> (#[trigger] states[k]).len() == ids.len()
    &&& forall|k: int|
        0 <= k < d ==> (#[trigger] polled[k]) != Some(IncomingQueueMessage::Halt)
    &&& forall|k: int|
        0 <= k < d ==> k < (#[trigger] tunables_after(init, polled, k + 1)).max_iter as int
    &&& forall|k: int|
        0 <= k < d ==> {
            &&& (#[trigger] queues[k]).len() > 0
            &&& popped[k] == queues[k][0]
            &&& ids.contains(popped[k].0.agent)
            &&& queues[k + 1] == extend_entries(queues[k].drop_first(), batches[k])
        }
    &&& forall|k: int|
        0 <= k < d ==> {
            let t = #[trigger] targets[k];
            &&& 0 <= t < ids.len()
            &&& ids[t] == popped[k].0.agent
            &&& (forall|m: int| 0 <= m < t ==> ids[m] != popped[k].0.agent)
            &&& A::handle_rel(
                states[k][t],
                states[k + 1][t],
                popped[k].1,
                popped[k].0.args,
                batches[k],
            )
            &&& states[k + 1] == states[k].update(t, states[k + 1][t])
        }
}

/// `dispatches_ok` over the fields of a run record.
pub open spec fn loop_dispatches_ok<A: Agent>(log: RunLog<A>) -> bool {
    dispatches_ok(
        log.init,
        log.ids,
        log.polled,
        log.queues,
        log.popped,
        log.batches,
        log.states,
        log.targets,
    )
}

/// How the run ended: the structural conditions of the terminal
/// iteration, the reports that were delivered, and the result the caller
/// saw, by cause.
pub open spec fn loop_termination_ok<A: Agent>(
    log: RunLog<A>,
    result: Result<(), EventEngineError>,
) -> bool {
    let d = log.batches.len() as int;
    &&& log.started == (log.cause != TermCause::StartSendFailed)
    &&& match log.cause {
        TermCause::StartSendFailed => {
            &&& log.polled.len() == 0
            &&& d == 0
            &&& log.popped.len() == 0
            &&& log.reports.len() == 0
            &&& result == Err::<(), EventEngineError>(
                EventEngineError::CouldNotCommunicate(OutgoingQueueMessage::Started),
            )
        },
        TermCause::Halted => {
            &&& log.polled.len() == d + 1
            &&& log.popped.len() == d
            &&& log.polled[d] == Some(IncomingQueueMessage::Halt)
            &&& log.reports == reports_after(log.init, log.polled, d)
            &&& result == Ok::<(), EventEngineError>(())
        },
        TermCause::MaxIterReached => {
            &&& log.polled.len() == d + 1
            &&& log.popped.len() == d
            &&& log.polled[d] != Some(IncomingQueueMessage::Halt)
            &&& d >= tunables_after(log.init, log.polled, d + 1).max_iter as int
            &&& log.reports == reports_after(log.init, log.polled, d)
            &&& result == Ok::<(), EventEngineError>(())
        },
        TermCause::QueueEmpty => {
            &&& log.polled.len() == d + 1
            &&& log.popped.len() == d
            &&& log.polled[d] != Some(IncomingQueueMessage::Halt)
            &&& d < tunables_after(log.init, log.polled, d + 1).max_iter as int
            &&& log.queues[d].len() == 0
            &&& log.reports == reports_after(log.init, log.polled, d)
            &&& result == Ok::<(), EventEngineError>(())
        },
        TermCause::NoAgent => {
            &&& log.polled.len() == d + 1
            &&& log.popped.len() == d + 1
            &&& log.polled[d] != Some(IncomingQueueMessage::Halt)
            &&& d < tunables_after(log.init, log.polled, d + 1).max_iter as int
            &&& log.queues[d].len() > 0
            &&& log.popped[d] == log.queues[d][0]
            &&& !log.ids.contains(log.popped[d].0.agent)
            &&& log.reports == reports_after(log.init, log.polled, d)
            &&& result == Err::<(), EventEngineError>(EventEngineError::EventHasNoAgent)
        },
        TermCause::ReportSendFailed => {
            &&& d >= 1
            &&& log.polled.len() == d
            &&& log.popped.len() == d
            &&& report_due(d, tunables_after(log.init, log.polled, d).every)
            &&& log.reports == reports_after(log.init, log.polled, d - 1)
            &&& result == Err::<(), EventEngineError>(
                EventEngineError::CouldNotCommunicate(OutgoingQueueMessage::Iter(d as u64)),
            )
        },
    }
}

/// The delivered reports as outbound traffic: each `Iter` value, each
/// accepted by the channel.
pub open spec fn delivered_iters(reports: Seq<u64>) -> Seq<(OutgoingQueueMessage, bool)> {
    reports.map_values(|v: u64| (OutgoingQueueMessage::Iter(v), true))
}

/// The outbound traffic a run record accounts for, in order: `Started`
/// with the channel's verdict, then one accepted `Iter` per delivered
/// report, then the one refused `Iter` if the run ended on a failed
/// report send.
pub open spec fn outbound_attempts<A: Agent>(log: RunLog<A>) -> Seq<(OutgoingQueueMessage, bool)> {
    if !log.started {
        seq![(OutgoingQueueMessage::Started, false)]
    } else {
        seq![(OutgoingQueueMessage::Started, true)] + delivered_iters(log.reports) + (
        if log.cause == TermCause::ReportSendFailed {
            seq![(OutgoingQueueMessage::Iter(log.batches.len() as u64), false)]
        } else {
            Seq::<(OutgoingQueueMessage, bool)>::empty()
        })
    }
}

/// Full consistency of a run record with the seed it was given and the
/// result the caller saw.
pub open spec fn run_consistent<A: Agent>(
    log: RunLog<A>,
    seed: Seq<Entry<A::TArgs>>,
    result: Result<(), EventEngineError>,
) -> bool {
    &&& loop_dispatches_ok(log)
    &&& log.queues[0] == extend_entries(Seq::<Entry<A::TArgs>>::empty(), seed)
    &&& loop_termination_ok(log, result)
}

/// The scheduling loop. Builds the queue from `init_state`, indexes the
/// agents by the ids they report, sends `Started`, then repeats: poll one
/// control message, stop at a halt or at the dispatch bound, pop the
/// earliest entry (an empty queue ends the run), dispatch it to its agent
/// or fail if the target is unknown, splice the returned entries back in,
/// and at every yield boundary report `Iter` and suspend through the
/// injected runtime. The ghost run record it returns is consistent with
/// the result — see [`run_consistent`] — and grounded: its polled
/// timeline is exactly what the given receiver yielded, and its outbound
/// traffic ([`outbound_attempts`]) exactly what the given sender was
/// handed, verdicts included.
pub fn process_event_queue<A: Agent, R: Runtime, S: EnvironmentSettings>(
    agents: &mut Vec<A>,
    init_state: Vec<(Event<A::TArgs>, u64)>,
    receiver: &mut ControlReceiver,
    runtime: &mut R,
    settings: &S,
    sender: &mut ReportSender,
) -> (r: (Result<(), EventEngineError>, Ghost<RunLog<A>>))
    ensures
        final(agents)@.len() == old(agents)@.len(),
        r.1@.init == (Tunables {
            sleep_ms: settings.spec_sleep_ms(),
            every: settings.spec_iter_count(),
            max_iter: settings.spec_max_iter(),
        }),
        r.1@.ids.len() == old(agents)@.len(),
        forall|k: int|
            0 <= k < old(agents)@.len() ==> #[trigger] r.1@.ids[k] == old(agents)@[k].spec_id(),
        forall|k: int|
            0 <= k < old(agents)@.len() ==> (#[trigger] final(agents)@[k]).spec_id() == old(
                agents,
            )@[k].spec_id(),
        r.1@.states[0] == old(agents)@,
        r.1@.states.last() == final(agents)@,
        final(receiver).spec_polled() == old(receiver).spec_polled() + r.1@.polled,
        final(sender).spec_attempts() == old(sender).spec_attempts() + outbound_attempts(r.1@),
        run_consistent(r.1@, init_state@, r.0),
{
    let mut queue: EventQueue<A::TArgs> = EventQueue::new();
    queue.extend(init_state);
    let mut ids: Vec<u128> = Vec::new();
    let mut j: usize = 0;
    while j < agents.len()
        invariant
            j <= agents@.len(),
            ids@.len() == j,
            agents@ == old(agents)@,
            forall|k: int| 0 <= k < j ==> #[trigger] ids@[k] == agents@[k].spec_id(),
        decreases agents@.len() - j,
    {
        ids.push(agents[j].get_id());
        j = j + 1;
    }
    let mut i: u64 = 0;
    let mut sleep_ms = settings.get_sleep_ms();
    let mut every = settings.get_iter_count();
    let mut max_iter = settings.get_max_iter();
    let ghost init_t = Tunables { sleep_ms, every, max_iter };
    let ghost mut polled: Seq<Option<IncomingQueueMessage>> = Seq::empty();
    let ghost mut queues: Seq<Seq<Entry<A::TArgs>>> = seq![queue@];
    let ghost mut popped: Seq<Entry<A::TArgs>> = Seq::empty();
    let ghost mut batches: Seq<Seq<Entry<A::TArgs>>> = Seq::empty();
    let ghost mut states: Seq<Seq<A>> = seq![agents@];
    let ghost mut targets: Seq<int> = Seq::empty();
    let ghost mut reports: Seq<u64> = Seq::empty();
    let started_send = sender.send(OutgoingQueueMessage::Started);
    match started_send {
        Err(m) => {
            proof {
                assert(sender.spec_attempts() =~= old(sender).spec_attempts() + seq![
                    (OutgoingQueueMessage::Started, false),
                ]);
            }
            return (
                Err(EventEngineError::CouldNotCommunicate(m)),
                Ghost(
                    RunLog {
                        init: init_t,
                        ids: ids@,
                        polled,
                        queues,
                        popped,
                        batches,
                        states,
                        targets,
                        reports,
                        started: false,
                        cause: TermCause::StartSendFailed,
                    },
                ),
            );
        },
        Ok(()) => {},
    }
    loop
        invariant
            queue.wf(),
            init_t == (Tunables {
                sleep_ms: settings.spec_sleep_ms(),
                every: settings.spec_iter_count(),
                max_iter: settings.spec_max_iter(),
            }),
            ids@.len() == old(agents)@.len(),
            agents@.len() == old(agents)@.len(),
            forall|k: int|
                0 <= k < old(agents)@.len() ==> #[trigger] ids@[k] == old(agents)@[k].spec_id(),
            forall|k: int|
                0 <= k < old(agents)@.len() ==> (#[trigger] agents@[k]).spec_id() == old(
                    agents,
                )@[k].spec_id(),
            polled.len() == batches.len(),
            popped.len() == batches.len(),
            queues.len() == batches.len() + 1,
            states.len() == batches.len() + 1,
            targets.len() == batches.len(),
            states[0] == old(agents)@,
            states.last() == agents@,
            i as int == batches.len(),
            reports == reports_after(init_t, polled, batches.len() as int),
            queues.last() == queue@,
            queues[0] == extend_entries(Seq::<Entry<A::TArgs>>::empty(), init_state@),
            receiver.spec_polled() == old(receiver).spec_polled() + polled,
            sender.spec_attempts() == old(sender).spec_attempts() + seq![
                (OutgoingQueueMessage::Started, true),
            ] + delivered_iters(reports),
            (Tunables { sleep_ms, every, max_iter }) == tunables_after(
                init_t,
                polled,
                polled.len() as int,
            ),
            dispatches_ok(init_t, ids@, polled, queues, popped, batches, states, targets),
        decreases u64::MAX - i,
    {
        let ghost polled0 = polled;
        let ghost d = batches.len() as int;
        let message = receiver.poll();
        proof {
            polled = polled.push(message);
            assert(receiver.spec_polled() =~= old(receiver).spec_polled() + polled);
            lemma_tunables_after_prefix(init_t, polled0, polled, d);
            lemma_reports_after_prefix(init_t, polled0, polled, d);
            assert(dispatches_ok(init_t, ids@, polled, queues, popped, batches, states, targets)) by {
                assert(forall|k: int| 0 <= k < d ==> polled[k] == polled0[k]);
                assert forall|k: int| 0 <= k < d implies k < (#[trigger] tunables_after(
                    init_t,
                    polled,
                    k + 1,
                )).max_iter as int by {
                    lemma_tunables_after_prefix(init_t, polled0, polled, k + 1);
                }
            }
        }
        match message {
            Some(IncomingQueueMessage::Halt) => {
                return (
                    Ok(()),
                    Ghost(
                        RunLog {
                            init: init_t,
                            ids: ids@,
                            polled,
                            queues,
                            popped,
                            batches,
                            states,
                            targets,
                            reports,
                            started: true,
                            cause: TermCause::Halted,
                        },
                    ),
                );
            },
            Some(IncomingQueueMessage::ChangeSleepIterCount(count)) => {
                every = count;
            },
            Some(IncomingQueueMessage::ChangeSleepDurationMs(ms)) => {
                sleep_ms = ms;
            },
            Some(IncomingQueueMessage::ChangeMaxIter(count)) => {
                max_iter = count;
            },
            None => {},
        }
        proof {
            assert((Tunables { sleep_ms, every, max_iter }) == tunables_after(
                init_t,
                polled,
                polled.len() as int,
            )) by {
                assert(polled[polled.len() - 1] == message);
            }
        }
        if i >= max_iter {
            return (
                Ok(()),
                Ghost(
                    RunLog {
                        init: init_t,
                        ids: ids@,
                        polled,
                        queues,
                        popped,
                        batches,
                        states,
                        targets,
                        reports,
                        started: true,
                        cause: TermCause::MaxIterReached,
                    },
                ),
            );
        }
        let item = queue.pop();
        match item {
            None => {
                proof {
                    assert(queues[queues.len() - 1].len() == 0);
                }
                return (
                    Ok(()),
                    Ghost(
                        RunLog {
                            init: init_t,
                            ids: ids@,
                            polled,
                            queues,
                            popped,
                            batches,
                            states,
                            targets,
                            reports,
                            started: true,
                            cause: TermCause::QueueEmpty,
                        },
                    ),
                );
            },
            Some((event, time)) => {
                proof {
                    popped = popped.push((event, time));
                }
                let target = event.agent;
                match find_agent_index(&ids, target) {
                    None => {
                        return (
                            Err(EventEngineError::EventHasNoAgent),
                            Ghost(
                                RunLog {
                                    init: init_t,
                                    ids: ids@,
                                    polled,
                                    queues,
                                    popped,
                                    batches,
                                    states,
                                    targets,
                                    reports,
                                    started: true,
                                    cause: TermCause::NoAgent,
                                },
                            ),
                        );
                    },
                    Some(idx) => {
                        let ghost pre_states = states;
                        let ghost pre_agents = agents@;
                        let batch = agents[idx].handle(time, event.args);
                        proof {
                            batches = batches.push(batch@);
                            targets = targets.push(idx as int);
                        }
                        queue.extend(batch);
                        proof {
                            queues = queues.push(queue@);
                            states = states.push(agents@);
                            let d2 = batches.len() - 1;
                            assert(agents@ == pre_agents.update(idx as int, agents@[idx as int]));
                            assert(popped[d2] == (event, time));
                            assert(A::handle_rel(
                                states[d2][idx as int],
                                states[d2 + 1][idx as int],
                                popped[d2].1,
                                popped[d2].0.args,
                                batches[d2],
                            ));
                        }
                        i = i + 1;
                        let due = every != 0 && i % every == 0;
                        proof {
                            assert(tunables_after(init_t, polled, i as int).every == every);
                            assert(due == report_due(i as int, every));
                        }
                        if due {
                            let iter_send = sender.send(OutgoingQueueMessage::Iter(i));
                            match iter_send {
                                Err(m) => {
                                    proof {
                                        assert(sender.spec_attempts() =~= old(sender).spec_attempts()
                                            + (seq![(OutgoingQueueMessage::Started, true)]
                                            + delivered_iters(reports) + seq![
                                            (OutgoingQueueMessage::Iter(i), false),
                                        ]));
                                    }
                                    return (
                                        Err(EventEngineError::CouldNotCommunicate(m)),
                                        Ghost(
                                            RunLog {
                                                init: init_t,
                                                ids: ids@,
                                                polled,
                                                queues,
                                                popped,
                                                batches,
                                                states,
                                                targets,
                                                reports,
                                                started: true,
                                                cause: TermCause::ReportSendFailed,
                                            },
                                        ),
                                    );
                                },
                                Ok(()) => {},
                            }
                            proof {
                                reports = reports.push(i);
                                assert(delivered_iters(reports) =~= delivered_iters(
                                    reports.drop_last(),
                                ).push((OutgoingQueueMessage::Iter(i), true)));
                                assert(sender.spec_attempts() =~= old(sender).spec_attempts()
                                    + seq![(OutgoingQueueMessage::Started, true)]
                                    + delivered_iters(reports));
                            }
                            runtime.log("Entered sleep");
                            runtime.sleep(sleep_ms);
                        }
                    },
                }
            },
        }
    }
}


} // verus!
