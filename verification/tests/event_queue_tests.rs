//! Tests of the scheduling loop: dispatch, control messages, pacing and
//! reports.

use smart_factory_environment::agent::{Agent, NewEventsVec};
use smart_factory_environment::channel::{ControlReceiver, ReportSender};
use smart_factory_environment::environment::{EnvironmentSettings, Runtime, DEFAULT_ITER_COUNT_SLEEP};
use smart_factory_environment::event::{Event, EventArgs};
use smart_factory_environment::event_queue::{process_event_queue, EventEngineError};
use smart_factory_environment::message::{IncomingQueueMessage, OutgoingQueueMessage};
use std::sync::mpsc;

struct TestSettings {}

impl EnvironmentSettings for TestSettings {
    fn get_iter_count(&self) -> u64 {
        5000
    }

    fn get_sleep_ms(&self) -> u64 {
        100
    }

    fn get_max_iter(&self) -> u64 {
        u64::MAX
    }
}

struct NopRuntime;

impl Runtime for NopRuntime {
    fn log(&mut self, _message: &str) {}

    fn sleep(&mut self, _duration_ms: u64) {}
}

pub struct NoPayload;

impl EventArgs for NoPayload {}

#[derive(Copy, Clone)]
pub struct TestAgentWasCalled {
    id: u128,
    handler_was_called: bool,
}

impl Agent for TestAgentWasCalled {
    type TArgs = NoPayload;

    fn spec_id(&self) -> u128 {
        self.get_id()
    }

    fn get_id(&self) -> u128 {
        self.id
    }

    fn handle(&mut self, _time: u64, _args: Option<NoPayload>) -> NewEventsVec<NoPayload> {
        self.handler_was_called = true;
        vec![]
    }
}

pub struct InfiniteLoopTestAgent {
    id: u128,
}

impl Agent for InfiniteLoopTestAgent {
    type TArgs = NoPayload;

    fn spec_id(&self) -> u128 {
        self.get_id()
    }

    fn get_id(&self) -> u128 {
        self.id
    }

    fn handle(&mut self, time: u64, _args: Option<NoPayload>) -> NewEventsVec<NoPayload> {
        vec![(Event::new(self.id), time + 1)]
    }
}

#[test]
pub fn event_queue_it_errors_when_init_event_does_not_point_to_agent() {
    let events: Vec<(Event<NoPayload>, u64)> = vec![(Event::new(Default::default()), 1)];
    let mut agents: Vec<TestAgentWasCalled> = vec![];
    let (_send, recv) = mpsc::channel();
    let (send, _recv) = mpsc::channel();
    let mut control = ControlReceiver::new(recv);
    let mut reports = ReportSender::new(send);
    let (result, _) = process_event_queue(
        &mut agents,
        events,
        &mut control,
        &mut NopRuntime,
        &TestSettings {},
        &mut reports,
    );
    assert!(matches!(result, Err(EventEngineError::EventHasNoAgent)));
}

#[test]
pub fn event_queue_it_calls_event_handler() {
    let agent_id = 4u128;
    let agent = TestAgentWasCalled {
        id: agent_id,
        handler_was_called: false,
    };
    let mut agents = vec![agent];

    let (_send, recv) = mpsc::channel();
    let (out_send, out_recv) = mpsc::channel();

    let mut control = ControlReceiver::new(recv);
    let mut reports = ReportSender::new(out_send);
    let (result, _) = process_event_queue(
        &mut agents,
        vec![(Event::new(agent_id), 0)],
        &mut control,
        &mut NopRuntime,
        &TestSettings {},
        &mut reports,
    );

    assert!(result.is_ok());
    assert!(agents[0].handler_was_called);
    let result = out_recv.try_recv();
    assert!(result.is_ok());
    assert!(matches!(result.unwrap(), OutgoingQueueMessage::Started));
}

#[test]
pub fn event_queue_test_agent_event_generation() {
    struct CallerAgent {
        id: u128,
        agent_to_call: u128,
    }

    enum TestAgent {
        Caller(CallerAgent),
        Callee(TestAgentWasCalled),
    }

    impl Agent for TestAgent {
        type TArgs = NoPayload;

        fn spec_id(&self) -> u128 {
            self.get_id()
        }

        fn get_id(&self) -> u128 {
            match self {
                TestAgent::Caller(a) => a.id,
                TestAgent::Callee(a) => a.id,
            }
        }

        fn handle(&mut self, time: u64, args: Option<NoPayload>) -> NewEventsVec<NoPayload> {
            match self {
                TestAgent::Caller(a) => vec![(Event::new(a.agent_to_call), time + 1)],
                TestAgent::Callee(a) => a.handle(time, args),
            }
        }
    }

    let callee_id = 30u128;
    let caller_id = 31u128;

    let mut agents = vec![
        TestAgent::Caller(CallerAgent {
            id: caller_id,
            agent_to_call: callee_id,
        }),
        TestAgent::Callee(TestAgentWasCalled {
            id: callee_id,
            handler_was_called: false,
        }),
    ];

    let init_state = vec![(Event::new(caller_id), 0)];

    let (_send, recv) = mpsc::channel();
    let (send, _recv) = mpsc::channel();

    let mut control = ControlReceiver::new(recv);
    let mut reports = ReportSender::new(send);
    let (result, _) = process_event_queue(
        &mut agents,
        init_state,
        &mut control,
        &mut NopRuntime,
        &TestSettings {},
        &mut reports,
    );
    assert!(result.is_ok());
    assert!(matches!(
        &agents[1],
        TestAgent::Callee(TestAgentWasCalled {
            handler_was_called: true,
            ..
        })
    ));
}

#[test]
pub fn event_queue_test_event_args() {
    pub struct TestEventArg {
        x: u64,
    }

    impl EventArgs for TestEventArg {}

    pub struct TestAgent {
        id: u128,
        x: u64,
    }

    impl Agent for TestAgent {
        type TArgs = TestEventArg;

        fn spec_id(&self) -> u128 {
            self.get_id()
        }

        fn get_id(&self) -> u128 {
            self.id
        }

        fn handle(&mut self, _time: u64, args: Option<TestEventArg>) -> NewEventsVec<TestEventArg> {
            match args {
                Some(arg) => {
                    self.x = arg.x;
                    vec![]
                }
                None => {
                    assert!(false, "Expected any to be EventArg");
                    vec![]
                }
            }
        }
    }

    let agent_id = 5u128;
    let mut agents = vec![TestAgent { id: agent_id, x: 0 }];

    let event = Event::new_with_args(agent_id, TestEventArg { x: 42 });

    let (_send, recv) = mpsc::channel();
    let (send, _recv) = mpsc::channel();

    let mut control = ControlReceiver::new(recv);
    let mut reports = ReportSender::new(send);
    let (result, _) = process_event_queue(
        &mut agents,
        vec![(event, 0)],
        &mut control,
        &mut NopRuntime,
        &TestSettings {},
        &mut reports,
    );
    assert!(result.is_ok());
    assert_eq!(agents[0].x, 42);
}

#[test]
pub fn test_event_args_diff_types() {
    pub enum ArithmeticArg {
        Inc(i64),
        Dec(i64),
    }

    impl EventArgs for ArithmeticArg {}

    pub struct TestAgent {
        id: u128,
        x: i64,
    }

    impl Agent for TestAgent {
        type TArgs = ArithmeticArg;

        fn spec_id(&self) -> u128 {
            self.get_id()
        }

        fn get_id(&self) -> u128 {
            self.id
        }

        fn handle(&mut self, _time: u64, args: Option<ArithmeticArg>) -> NewEventsVec<ArithmeticArg> {
            assert!(args.is_some());
            match args.unwrap() {
                ArithmeticArg::Inc(x) => {
                    self.x += x;
                    vec![]
                }
                ArithmeticArg::Dec(x) => {
                    self.x -= x;
                    vec![]
                }
            }
        }
    }

    let agent_id_inc = 40u128;
    let agent_id_dec = 41u128;

    let mut agents = vec![
        TestAgent {
            id: agent_id_inc,
            x: 0,
        },
        TestAgent {
            id: agent_id_dec,
            x: 0,
        },
    ];

    let events = vec![
        (
            Event::new_with_args(agent_id_inc, ArithmeticArg::Inc(42)),
            0,
        ),
        (
            Event::new_with_args(agent_id_dec, ArithmeticArg::Dec(42)),
            0,
        ),
    ];

    let (_send, recv) = mpsc::channel();
    let (send, _recv) = mpsc::channel();

    let mut control = ControlReceiver::new(recv);
    let mut reports = ReportSender::new(send);
    let (result, _) = process_event_queue(
        &mut agents,
        events,
        &mut control,
        &mut NopRuntime,
        &TestSettings {},
        &mut reports,
    );
    assert!(result.is_ok());
    assert_eq!(agents.get(0).unwrap().x, 42);
    assert_eq!(agents.get(1).unwrap().x, -42);
}

#[test]
pub fn test_kill_from_halt_message() {
    let id = 50u128;

    let mut agents = vec![InfiniteLoopTestAgent { id }];

    let event = Event::new(id);

    let (send, recv) = mpsc::channel();
    let (outsend, _recv) = mpsc::channel();
    let send_result = send.send(IncomingQueueMessage::Halt);
    assert!(send_result.is_ok());
    let mut control = ControlReceiver::new(recv);
    let mut reports = ReportSender::new(outsend);
    let (result, _) = process_event_queue(
        &mut agents,
        vec![(event, 0)],
        &mut control,
        &mut NopRuntime,
        &TestSettings {},
        &mut reports,
    );
    assert!(result.is_ok());
}

#[test]
pub fn it_respects_max_iter_count() {
    struct TestSettingsZeroMaxIter {}

    impl EnvironmentSettings for TestSettingsZeroMaxIter {
        fn get_iter_count(&self) -> u64 {
            5000
        }

        fn get_sleep_ms(&self) -> u64 {
            100
        }

        fn get_max_iter(&self) -> u64 {
            0
        }
    }

    let agent_id = 60u128;
    let agent = TestAgentWasCalled {
        id: agent_id,
        handler_was_called: false,
    };
    let mut agents = vec![agent];

    let (_send, recv) = mpsc::channel();
    let (outsend, _recv) = mpsc::channel();

    let mut control = ControlReceiver::new(recv);
    let mut reports = ReportSender::new(outsend);
    let (result, _) = process_event_queue(
        &mut agents,
        vec![(Event::new(agent_id), 0)],
        &mut control,
        &mut NopRuntime,
        &TestSettingsZeroMaxIter {},
        &mut reports,
    );

    assert!(result.is_ok());
    assert!(!agents[0].handler_was_called);
}

#[test]
pub fn test_kill_from_max_iter_message() {
    let id = 70u128;

    let mut agents = vec![InfiniteLoopTestAgent { id }];

    let event = Event::new(id);

    let (send, recv) = mpsc::channel();
    let (outsend, outrecv) = mpsc::channel();

    let send_result = send.send(IncomingQueueMessage::ChangeMaxIter(
        DEFAULT_ITER_COUNT_SLEEP * 2 - 1,
    ));
    assert!(send_result.is_ok());
    let mut control = ControlReceiver::new(recv);
    let mut reports = ReportSender::new(outsend);
    let (result, _) = process_event_queue(
        &mut agents,
        vec![(event, 0)],
        &mut control,
        &mut NopRuntime,
        &TestSettings {},
        &mut reports,
    );
    assert!(result.is_ok());
    let result = outrecv.try_recv();
    assert!(result.is_ok());

    if let OutgoingQueueMessage::Iter(iter) = result.unwrap() {
        assert_eq!(iter, DEFAULT_ITER_COUNT_SLEEP);
    }
}
