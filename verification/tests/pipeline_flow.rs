use std::cell::RefCell;
use std::rc::Rc;

use glass::bindings::Method;
use glass::error::EngineError;
use glass::pipeline::Binding;
use glass::pipeline::Broker;
use glass::pipeline::Consumer;
use glass::pipeline::Converter;
use glass::pipeline::EventSource;
use glass::pipeline::Executor;
use glass::pipeline::Pipeline;
use glass::pipeline::ProcessingPipeline;
use glass::pipeline::Subscription;
use glass::pipeline::Trigger;

#[derive(Clone)]
struct UpperEngine;

impl Executor for UpperEngine {
    type Input = String;
    type Output = String;

    fn execute(&self, input: String) -> Result<String, EngineError> {
        Ok(input.to_uppercase())
    }
}

#[derive(Clone)]
struct CollectBinding {
    seen: Rc<RefCell<Vec<String>>>,
}

impl Binding for CollectBinding {
    type DataType = String;

    fn propagate_result(&self, input: String) -> Result<(), EngineError> {
        self.seen.borrow_mut().push(input);
        Ok(())
    }
}

#[derive(Clone)]
struct Id;

impl Converter<String, String> for Id {
    fn convert(&self, t: String) -> Result<String, EngineError> {
        Ok(t)
    }
}

struct OneShot {
    event: String,
}

impl EventSource for OneShot {
    type Event = String;
}

impl Trigger for OneShot {
    fn run<S: Subscription<String>>(&self, subscription: S) -> Result<(), EngineError> {
        subscription.on_event(self.event.clone())
    }
}

#[test]
fn pipeline_converts_executes_and_propagates() {
    let binding = CollectBinding { seen: Rc::new(RefCell::new(Vec::new())) };
    let pipeline = Pipeline::new(
        OneShot { event: "ping".to_string() },
        Id,
        UpperEngine,
        Id,
        binding,
    );
    let seen = Rc::new(RefCell::new(Vec::new()));
    let consumer = ProcessingPipeline {
        engine: UpperEngine,
        binding: CollectBinding { seen: seen.clone() },
        input_converter: Id,
        output_converter: Id,
    };
    consumer.consume("hello".to_string()).unwrap();
    assert_eq!(seen.borrow().clone(), vec!["HELLO".to_string()]);
    pipeline.run().unwrap();
}

#[test]
fn broker_hands_events_to_its_consumer() {
    let seen = Rc::new(RefCell::new(Vec::new()));
    let consumer = ProcessingPipeline {
        engine: UpperEngine,
        binding: CollectBinding { seen: seen.clone() },
        input_converter: Id,
        output_converter: Id,
    };
    let broker = Broker { subscriber: consumer };
    broker.on_event("abc".to_string()).unwrap();
    assert_eq!(seen.borrow().clone(), vec!["ABC".to_string()]);
    let _ = Method::Get;
}
