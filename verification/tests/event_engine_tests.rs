//! Tests of the basic event engine: registry lookup, dispatch, handler
//! invocation and event generation.

use smart_factory_environment::agent::{Agent, NewEventsVec};
use smart_factory_environment::event::{Event, EventArgs};
use smart_factory_environment::event_engine::{EventEngine, EventEngineError};

pub struct NoPayload;

impl EventArgs for NoPayload {}

#[derive(Copy, Clone)]
pub struct TestAgentWasCalled {
    id: u128,
    handler_was_called: bool,
}

impl Agent for TestAgentWasCalled {
    type TArgs = NoPayload;

    fn spec_id(&self) -> u128 {
        self.get_id()
    }

    fn get_id(&self) -> u128 {
        self.id
    }

    fn handle(&mut self, _time: u64, _args: Option<NoPayload>) -> NewEventsVec<NoPayload> {
        self.handler_was_called = true;
        vec![]
    }
}

#[test]
pub fn event_engine_it_errors_when_init_event_does_not_point_to_agent() {
    let events: Vec<(Event<NoPayload>, u64)> = vec![(Event::new(Default::default()), 1)];
    let agents: Vec<TestAgentWasCalled> = vec![];
    let mut event_engine = EventEngine::new(agents);
    let (result, _) = event_engine.start(events);
    assert!(result.is_err());
    assert_eq!(result.unwrap_err(), EventEngineError::EventHasNoAgent);
}

#[test]
pub fn event_engine_it_calls_event_handler() {
    let agent_id = 1u128;
    let agent = TestAgentWasCalled {
        id: agent_id,
        handler_was_called: false,
    };
    let mut event_engine = EventEngine::new(vec![agent]);
    let (result, _) = event_engine.start(vec![(Event::new(agent_id), 0)]);

    assert!(result.is_ok());
    assert!(event_engine.agents()[0].handler_was_called);
}

#[test]
pub fn test_new_several_agent_structs() {
    #[derive(Copy, Clone)]
    pub struct TestAgent {
        id: u128,
        handler_was_called: bool,
    }

    #[derive(Copy, Clone)]
    pub struct TestAgent2 {
        id: u128,
    }

    pub enum EitherAgent {
        First(TestAgent),
        Second(TestAgent2),
    }

    impl Agent for EitherAgent {
        type TArgs = NoPayload;

        fn spec_id(&self) -> u128 {
            self.get_id()
        }

        fn get_id(&self) -> u128 {
            match self {
                EitherAgent::First(a) => a.id,
                EitherAgent::Second(a) => a.id,
            }
        }

        fn handle(&mut self, _time: u64, _args: Option<NoPayload>) -> NewEventsVec<NoPayload> {
            if let EitherAgent::First(a) = self {
                a.handler_was_called = true;
            }
            vec![]
        }
    }

    let n = 5;
    let mut agents: Vec<EitherAgent> = Vec::new();
    for k in 0..n {
        agents.push(EitherAgent::First(TestAgent {
            id: k as u128,
            handler_was_called: false,
        }));
    }
    for k in 0..n {
        agents.push(EitherAgent::Second(TestAgent2 {
            id: (n + k) as u128,
        }));
    }
    let engine = EventEngine::new(agents);
    assert_eq!(engine.agent_count(), 2 * n);
}

#[test]
pub fn event_engine_test_agent_event_generation() {
    struct CallerAgent {
        id: u128,
        agent_to_call: u128,
    }

    struct CalleeAgent {
        id: u128,
        was_called: bool,
    }

    enum TestAgent {
        Caller(CallerAgent),
        Callee(CalleeAgent),
    }

    impl Agent for TestAgent {
        type TArgs = NoPayload;

        fn spec_id(&self) -> u128 {
            self.get_id()
        }

        fn get_id(&self) -> u128 {
            match self {
                TestAgent::Caller(a) => a.id,
                TestAgent::Callee(a) => a.id,
            }
        }

        fn handle(&mut self, time: u64, _args: Option<NoPayload>) -> NewEventsVec<NoPayload> {
            match self {
                TestAgent::Caller(a) => vec![(Event::new(a.agent_to_call), time + 1)],
                TestAgent::Callee(a) => {
                    a.was_called = true;
                    vec![]
                }
            }
        }
    }

    let caller_id = 10u128;
    let callee_id = 20u128;

    let agents = vec![
        TestAgent::Caller(CallerAgent {
            id: caller_id,
            agent_to_call: callee_id,
        }),
        TestAgent::Callee(CalleeAgent {
            id: callee_id,
            was_called: false,
        }),
    ];

    let mut engine = EventEngine::new(agents);
    let init_state = vec![(Event::new(caller_id), 0)];

    let (result, _) = engine.start(init_state);
    assert!(result.is_ok());
    assert!(matches!(
        engine.agents()[1],
        TestAgent::Callee(CalleeAgent {
            was_called: true,
            ..
        })
    ));
}

#[test]
pub fn event_engine_test_event_args() {
    pub struct TestEventArg {
        x: u64,
    }

    impl EventArgs for TestEventArg {}

    pub struct TestAgent {
        id: u128,
        x: u64,
    }

    impl Agent for TestAgent {
        type TArgs = TestEventArg;

        fn spec_id(&self) -> u128 {
            self.get_id()
        }

        fn get_id(&self) -> u128 {
            self.id
        }

        fn handle(&mut self, _time: u64, args: Option<TestEventArg>) -> NewEventsVec<TestEventArg> {
            match args {
                Some(arg) => {
                    self.x = arg.x;
                    vec![]
                }
                None => {
                    assert!(false, "Expected any to be EventArg");
                    vec![]
                }
            }
        }
    }

    let agent_id = 3u128;
    let agent = TestAgent { id: agent_id, x: 0 };
    let mut engine = EventEngine::new(vec![agent]);

    let event = Event::new_with_args(agent_id, TestEventArg { x: 42 });

    let (result, _) = engine.start(vec![(event, 0)]);
    assert!(result.is_ok());
    assert_eq!(engine.agents()[0].x, 42);
}
