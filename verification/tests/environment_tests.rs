//! Tests of the environment facade: lifecycle logging, agent creation,
//! control methods.

use smart_factory_environment::environment::{AgentEnvironment, Runtime};
use smart_factory_environment::empty_environment::{
    EmptyEnvironmentSettings, InfiniteEmptyEnvironment,
};
use std::cell::RefCell;
use std::rc::Rc;

#[derive(Clone)]
struct RecordingRuntime {
    messages: Rc<RefCell<Vec<String>>>,
}

impl RecordingRuntime {
    fn new() -> RecordingRuntime {
        RecordingRuntime {
            messages: Rc::new(RefCell::new(Vec::new())),
        }
    }
}

impl Runtime for RecordingRuntime {
    fn log(&mut self, message: &str) {
        self.messages.borrow_mut().push(message.to_string());
    }

    fn sleep(&mut self, _duration_ms: u64) {}
}

#[test]
pub fn when_halting_then_call_log() {
    let runtime = RecordingRuntime::new();
    let messages = runtime.messages.clone();
    let mut environment = InfiniteEmptyEnvironment::new(runtime);
    let result = environment.run(EmptyEnvironmentSettings::new(1, 100, 5000, 2000));
    assert!(result.is_ok());
    environment.halt();
    environment.get_agents().iter().for_each(|agent| {
        assert!(agent.was_called);
    });
    let log_message = messages.borrow().last().unwrap().clone();
    assert_eq!(log_message, "Halting");
}

#[test]
pub fn environment_logs_lifecycle_transitions() {
    let runtime = RecordingRuntime::new();
    let messages = runtime.messages.clone();
    let mut environment = InfiniteEmptyEnvironment::new(runtime);
    assert_eq!(messages.borrow()[0], "Creating new environment");
    let result = environment.run(EmptyEnvironmentSettings::new(2, 100, 5000, 100));
    assert!(result.is_ok());
    assert!(messages.borrow().contains(&"Starting".to_string()));
    environment.change_sleep_time(50);
    environment.change_sleep_iter_count(10);
    environment.change_max_iter_count(7);
    let recorded = messages.borrow().clone();
    assert!(recorded.contains(&"Changing sleep time".to_string()));
    assert!(recorded.contains(&"Changing sleep iter count".to_string()));
    assert!(recorded.contains(&"Changing max iter count".to_string()));
}

#[test]
pub fn two_agent_creations_get_distinct_identities() {
    let runtime = RecordingRuntime::new();
    let mut environment = InfiniteEmptyEnvironment::new(runtime);
    let result = environment.run(EmptyEnvironmentSettings::new(5, 100, 5000, 50));
    assert!(result.is_ok());
    let agents = environment.get_agents();
    assert_eq!(agents.len(), 5);
    for a in 0..agents.len() {
        for b in 0..agents.len() {
            if a != b {
                assert_ne!(agents[a].id, agents[b].id);
            }
        }
    }
}

#[test]
pub fn control_methods_leave_the_sender_in_place() {
    let runtime = RecordingRuntime::new();
    let messages = runtime.messages.clone();
    let mut environment = InfiniteEmptyEnvironment::new(runtime);
    let result = environment.run(EmptyEnvironmentSettings::new(1, 100, 5000, 10));
    assert!(result.is_ok());
    environment.halt();
    environment.halt();
    let halts = messages
        .borrow()
        .iter()
        .filter(|m| m.as_str() == "Halting")
        .count();
    assert_eq!(halts, 2);
}

#[test]
pub fn settings_constructor_defaults_the_dispatch_bound() {
    let settings = EmptyEnvironmentSettings::new_with_default_max_iter(3, 100, 5000);
    assert_eq!(settings.agent_count, 3);
    assert_eq!(settings.sleep_ms, 100);
    assert_eq!(settings.iter_count, 5000);
    assert_eq!(settings.max_iter, u64::MAX);
}

#[test]
pub fn environment_retains_report_receiver() {
    let runtime = RecordingRuntime::new();
    let mut environment = InfiniteEmptyEnvironment::new(runtime);
    let result = environment.run(EmptyEnvironmentSettings::new(1, 100, 5000, 3));
    assert!(result.is_ok());
    let receiver = environment.receiver.as_ref().unwrap();
    let first = receiver.try_recv();
    assert!(first.is_ok());
}
