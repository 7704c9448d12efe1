//! Concrete end-to-end scenarios: pacing, bounds, report sequences,
//! seeding order, and the greeting helper.

use smart_factory_environment::agent::{Agent, NewEventsVec};
use smart_factory_environment::channel::{ControlReceiver, ReportSender};
use smart_factory_environment::empty_environment::InfiniteLoopAgent;
use smart_factory_environment::environment::{
    EnvironmentSettings, Runtime, DEFAULT_ITER_COUNT_SLEEP, DEFAULT_MAX_ITER,
    DEFAULT_SLEEP_DURATION_MS,
};
use smart_factory_environment::event::{Event, EventArgs};
use smart_factory_environment::event_queue::{process_event_queue, EventEngineError};
use smart_factory_environment::greet_message;
use smart_factory_environment::message::{IncomingQueueMessage, OutgoingQueueMessage};
use std::cell::RefCell;
use std::rc::Rc;
use std::sync::mpsc;

struct TestSettings {}

impl EnvironmentSettings for TestSettings {
    fn get_iter_count(&self) -> u64 {
        5000
    }

    fn get_sleep_ms(&self) -> u64 {
        100
    }

    fn get_max_iter(&self) -> u64 {
        u64::MAX
    }
}

struct BoundedSettings {
    iter_count: u64,
    max_iter: u64,
}

impl EnvironmentSettings for BoundedSettings {
    fn get_iter_count(&self) -> u64 {
        self.iter_count
    }

    fn get_sleep_ms(&self) -> u64 {
        100
    }

    fn get_max_iter(&self) -> u64 {
        self.max_iter
    }
}

struct NopRuntime;

impl Runtime for NopRuntime {
    fn log(&mut self, _message: &str) {}

    fn sleep(&mut self, _duration_ms: u64) {}
}

pub struct NoPayload;

impl EventArgs for NoPayload {}

struct CountingAgent {
    id: u128,
    invocations: u64,
}

impl Agent for CountingAgent {
    type TArgs = NoPayload;

    fn spec_id(&self) -> u128 {
        self.get_id()
    }

    fn get_id(&self) -> u128 {
        self.id
    }

    fn handle(&mut self, time: u64, _args: Option<NoPayload>) -> NewEventsVec<NoPayload> {
        self.invocations += 1;
        vec![(Event::new(self.id), time + 1)]
    }
}

struct RecordingAgent {
    id: u128,
    seen_times: Rc<RefCell<Vec<u64>>>,
}

impl Agent for RecordingAgent {
    type TArgs = NoPayload;

    fn spec_id(&self) -> u128 {
        self.get_id()
    }

    fn get_id(&self) -> u128 {
        self.id
    }

    fn handle(&mut self, time: u64, _args: Option<NoPayload>) -> NewEventsVec<NoPayload> {
        self.seen_times.borrow_mut().push(time);
        vec![]
    }
}

fn drain(receiver: &mpsc::Receiver<OutgoingQueueMessage>) -> Vec<OutgoingQueueMessage> {
    let mut all = Vec::new();
    while let Ok(message) = receiver.try_recv() {
        all.push(message);
    }
    all
}

#[test]
fn it_works() {
    let result = 2 + 2;
    assert_eq!(result, 4);
}

#[test]
fn empty_seed_emits_only_started() {
    let mut agents = vec![CountingAgent {
        id: 1,
        invocations: 0,
    }];
    let (_send, recv) = mpsc::channel();
    let (out_send, out_recv) = mpsc::channel();
    let mut control = ControlReceiver::new(recv);
    let mut reports = ReportSender::new(out_send);
    let (result, _) = process_event_queue(
        &mut agents,
        vec![],
        &mut control,
        &mut NopRuntime,
        &TestSettings {},
        &mut reports,
    );
    assert!(result.is_ok());
    assert_eq!(agents[0].invocations, 0);
    let messages = drain(&out_recv);
    assert_eq!(messages, vec![OutgoingQueueMessage::Started]);
}

#[test]
fn max_iter_bound_is_exact_and_yields_once() {
    let mut agents = vec![CountingAgent {
        id: 2,
        invocations: 0,
    }];
    let (_send, recv) = mpsc::channel();
    let (out_send, out_recv) = mpsc::channel();
    let mut control = ControlReceiver::new(recv);
    let mut reports = ReportSender::new(out_send);
    let (result, _) = process_event_queue(
        &mut agents,
        vec![(Event::new(2), 0)],
        &mut control,
        &mut NopRuntime,
        &BoundedSettings {
            iter_count: 5000,
            max_iter: 9999,
        },
        &mut reports,
    );
    assert!(result.is_ok());
    assert_eq!(agents[0].invocations, 9999);
    let messages = drain(&out_recv);
    assert_eq!(
        messages,
        vec![
            OutgoingQueueMessage::Started,
            OutgoingQueueMessage::Iter(5000)
        ]
    );
}

#[test]
fn reports_are_the_multiples_of_the_yield_interval() {
    let mut agents = vec![CountingAgent {
        id: 3,
        invocations: 0,
    }];
    let (_send, recv) = mpsc::channel();
    let (out_send, out_recv) = mpsc::channel();
    let mut control = ControlReceiver::new(recv);
    let mut reports = ReportSender::new(out_send);
    let (result, _) = process_event_queue(
        &mut agents,
        vec![(Event::new(3), 0)],
        &mut control,
        &mut NopRuntime,
        &BoundedSettings {
            iter_count: 4,
            max_iter: 12,
        },
        &mut reports,
    );
    assert!(result.is_ok());
    let messages = drain(&out_recv);
    assert_eq!(
        messages,
        vec![
            OutgoingQueueMessage::Started,
            OutgoingQueueMessage::Iter(4),
            OutgoingQueueMessage::Iter(8),
            OutgoingQueueMessage::Iter(12)
        ]
    );
}

#[test]
fn setting_yield_interval_twice_acts_like_once() {
    let run = |pre_sent: Vec<IncomingQueueMessage>| -> Vec<OutgoingQueueMessage> {
        let mut agents = vec![CountingAgent {
            id: 4,
            invocations: 0,
        }];
        let (send, recv) = mpsc::channel();
        let (out_send, out_recv) = mpsc::channel();
        for message in pre_sent {
            send.send(message).unwrap();
        }
        let mut control = ControlReceiver::new(recv);
        let mut reports = ReportSender::new(out_send);
        let (result, _) = process_event_queue(
            &mut agents,
            vec![(Event::new(4), 0)],
            &mut control,
            &mut NopRuntime,
            &BoundedSettings {
                iter_count: 5000,
                max_iter: 7,
            },
            &mut reports,
        );
        assert!(result.is_ok());
        drain(&out_recv)
    };
    let once = run(vec![IncomingQueueMessage::ChangeSleepIterCount(3)]);
    let twice = run(vec![
        IncomingQueueMessage::ChangeSleepIterCount(3),
        IncomingQueueMessage::ChangeSleepIterCount(3),
    ]);
    assert_eq!(once, twice);
    assert_eq!(
        once,
        vec![
            OutgoingQueueMessage::Started,
            OutgoingQueueMessage::Iter(3),
            OutgoingQueueMessage::Iter(6)
        ]
    );
}

#[test]
fn seed_order_does_not_change_the_dispatch_sequence() {
    let run = |times: Vec<u64>| -> Vec<u64> {
        let seen = Rc::new(RefCell::new(Vec::new()));
        let mut agents = vec![RecordingAgent {
            id: 5,
            seen_times: seen.clone(),
        }];
        let (_send, recv) = mpsc::channel();
        let (out_send, _out_recv) = mpsc::channel();
        let seed = times
            .into_iter()
            .map(|t| (Event::new(5), t))
            .collect::<Vec<_>>();
        let mut control = ControlReceiver::new(recv);
        let mut reports = ReportSender::new(out_send);
        let (result, _) = process_event_queue(
            &mut agents,
            seed,
            &mut control,
            &mut NopRuntime,
            &TestSettings {},
            &mut reports,
        );
        assert!(result.is_ok());
        let recorded = seen.borrow().clone();
        recorded
    };
    let forward = run(vec![0, 1, 2, 3]);
    let scrambled = run(vec![2, 0, 3, 1]);
    assert_eq!(forward, vec![0, 1, 2, 3]);
    assert_eq!(forward, scrambled);
}

#[test]
fn dispatch_times_never_decrease() {
    let seen = Rc::new(RefCell::new(Vec::new()));
    let mut agents = vec![RecordingAgent {
        id: 6,
        seen_times: seen.clone(),
    }];
    let (_send, recv) = mpsc::channel();
    let (out_send, _out_recv) = mpsc::channel();
    let seed = vec![
        (Event::new(6), 7),
        (Event::new(6), 1),
        (Event::new(6), 7),
        (Event::new(6), 0),
        (Event::new(6), 3),
    ];
    let mut control = ControlReceiver::new(recv);
    let mut reports = ReportSender::new(out_send);
    let (result, _) = process_event_queue(
        &mut agents,
        seed,
        &mut control,
        &mut NopRuntime,
        &TestSettings {},
        &mut reports,
    );
    assert!(result.is_ok());
    let recorded = seen.borrow().clone();
    assert_eq!(recorded, vec![0, 1, 3, 7, 7]);
}

#[test]
fn unknown_target_stops_all_further_dispatch() {
    let mut agents = vec![CountingAgent {
        id: 7,
        invocations: 0,
    }];
    let (_send, recv) = mpsc::channel();
    let (out_send, _out_recv) = mpsc::channel();
    let seed = vec![(Event::new(999), 0), (Event::new(7), 1)];
    let mut control = ControlReceiver::new(recv);
    let mut reports = ReportSender::new(out_send);
    let (result, _) = process_event_queue(
        &mut agents,
        seed,
        &mut control,
        &mut NopRuntime,
        &TestSettings {},
        &mut reports,
    );
    assert!(matches!(result, Err(EventEngineError::EventHasNoAgent)));
    assert_eq!(agents[0].invocations, 0);
}

#[test]
fn dropped_observer_fails_the_run() {
    let mut agents = vec![CountingAgent {
        id: 8,
        invocations: 0,
    }];
    let (_send, recv) = mpsc::channel();
    let (out_send, out_recv) = mpsc::channel();
    drop(out_recv);
    let mut control = ControlReceiver::new(recv);
    let mut reports = ReportSender::new(out_send);
    let (result, _) = process_event_queue(
        &mut agents,
        vec![(Event::new(8), 0)],
        &mut control,
        &mut NopRuntime,
        &TestSettings {},
        &mut reports,
    );
    assert!(matches!(
        result,
        Err(EventEngineError::CouldNotCommunicate(
            OutgoingQueueMessage::Started
        ))
    ));
    assert_eq!(agents[0].invocations, 0);
}

#[test]
fn zero_yield_interval_never_yields() {
    let mut agents = vec![CountingAgent {
        id: 9,
        invocations: 0,
    }];
    let (send, recv) = mpsc::channel();
    let (out_send, out_recv) = mpsc::channel();
    send.send(IncomingQueueMessage::ChangeSleepIterCount(0)).unwrap();
    let mut control = ControlReceiver::new(recv);
    let mut reports = ReportSender::new(out_send);
    let (result, _) = process_event_queue(
        &mut agents,
        vec![(Event::new(9), 0)],
        &mut control,
        &mut NopRuntime,
        &BoundedSettings {
            iter_count: 5,
            max_iter: 10,
        },
        &mut reports,
    );
    assert!(result.is_ok());
    assert_eq!(agents[0].invocations, 10);
    let messages = drain(&out_recv);
    assert_eq!(messages, vec![OutgoingQueueMessage::Started]);
}

#[test]
fn settings_defaults_are_the_documented_ones() {
    struct Defaults {}

    impl EnvironmentSettings for Defaults {
        fn get_iter_count(&self) -> u64 {
            DEFAULT_ITER_COUNT_SLEEP
        }

        fn get_sleep_ms(&self) -> u64 {
            DEFAULT_SLEEP_DURATION_MS
        }

        fn get_max_iter(&self) -> u64 {
            DEFAULT_MAX_ITER
        }
    }

    let defaults = Defaults {};
    assert_eq!(defaults.get_iter_count(), DEFAULT_ITER_COUNT_SLEEP);
    assert_eq!(defaults.get_sleep_ms(), DEFAULT_SLEEP_DURATION_MS);
    assert_eq!(defaults.get_max_iter(), DEFAULT_MAX_ITER);
    assert_eq!(DEFAULT_ITER_COUNT_SLEEP, 5000);
    assert_eq!(DEFAULT_SLEEP_DURATION_MS, 100);
    assert_eq!(DEFAULT_MAX_ITER, u64::MAX);
}

#[test]
fn duplicate_registry_ids_dispatch_to_the_first_match() {
    let mut agents = vec![
        CountingAgent {
            id: 77,
            invocations: 0,
        },
        CountingAgent {
            id: 77,
            invocations: 0,
        },
    ];
    let (_send, recv) = mpsc::channel();
    let (out_send, _out_recv) = mpsc::channel();
    let mut control = ControlReceiver::new(recv);
    let mut reports = ReportSender::new(out_send);
    let (result, _) = process_event_queue(
        &mut agents,
        vec![(Event::new(77), 0)],
        &mut control,
        &mut NopRuntime,
        &BoundedSettings {
            iter_count: 5000,
            max_iter: 1,
        },
        &mut reports,
    );
    assert!(result.is_ok());
    assert_eq!(agents[0].invocations, 1);
    assert_eq!(agents[1].invocations, 0);
}

#[test]
fn self_rescheduling_saturates_at_the_largest_tick() {
    let mut agent = InfiniteLoopAgent::new(88);
    let batch = agent.handle(u64::MAX, None);
    assert_eq!(batch.len(), 1);
    assert_eq!(batch[0].1, u64::MAX);
    assert!(agent.was_called);
}

#[test]
fn events_compare_by_identity_alone() {
    let left: Event<NoPayload> = Event {
        id: 11,
        agent: 1,
        args: None,
    };
    let right: Event<NoPayload> = Event {
        id: 11,
        agent: 2,
        args: Some(NoPayload),
    };
    let other: Event<NoPayload> = Event {
        id: 12,
        agent: 1,
        args: None,
    };
    assert!(left == right);
    assert!(left != other);
}

#[test]
fn greet_message_trims_trailing_whitespace() {
    assert_eq!(greet_message("world\n"), "Hello, world!");
    assert_eq!(greet_message("smart factory"), "Hello, smart factory!");
    assert_eq!(greet_message("spaced   "), "Hello, spaced!");
    assert_eq!(greet_message(""), "Hello, !");
}
