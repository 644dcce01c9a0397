use vstd::prelude::*;

use crate::error::EngineError;

verus! {

/// A generic executor: one typed input in, one typed output out, once per
/// invocation.
pub trait Executor {
    type Input;

    type Output;

    fn execute(&self, input: Self::Input) -> Result<Self::Output, EngineError>;
}

/// A subscriber notified of each event an event source produces.
pub trait Subscription<Event> {
    fn on_event(&self, input: Event) -> Result<(), EngineError>;
}

/// An output binding: where a pipeline's results are propagated.
pub trait Binding {
    type DataType;

    fn propagate_result(&self, input: Self::DataType) -> Result<(), EngineError>;
}

/// A source of events of one type.
pub trait EventSource {
    type Event;
}

/// A trigger drives a subscription with the events its source produces.
pub trait Trigger: EventSource + Sized {
    fn run<S: Subscription<Self::Event>>(&self, subscription: S) -> Result<(), EngineError>;
}

/// A consumer of events, invoked once per event.
pub trait Consumer<Event> {
    fn consume(&self, input: Event) -> Result<(), EngineError>;
}

/// Converts one value into another, or rejects it.
pub trait Converter<T, R> {
    fn convert(&self, t: T) -> Result<R, EngineError>;
}

/// Hands each incoming event straight to its consumer.
pub struct Broker<S> {
    pub subscriber: S,
}

impl<E, C: Consumer<E>> Subscription<E> for Broker<C> {
    fn on_event(&self, event_data: E) -> Result<(), EngineError> {
        self.subscriber.consume(event_data)
    }
}

/// The processing pipeline for one event: convert the event to the engine's
/// input, execute, convert the output, and propagate the result.
pub struct ProcessingPipeline<OutputBinding, Engine, InputConverter, OutputConverter> {
    pub engine: Engine,
    pub binding: OutputBinding,
    pub input_converter: InputConverter,
    pub output_converter: OutputConverter,
}

impl<
    Event,
    OutputBinding: Binding,
    Engine: Executor,
    InputConverter: Converter<Event, Engine::Input>,
    OutputConverter: Converter<Engine::Output, OutputBinding::DataType>,
> Consumer<Event> for ProcessingPipeline<OutputBinding, Engine, InputConverter, OutputConverter> {
    fn consume(&self, input: Event) -> Result<(), EngineError> {
        let converted_input = match self.input_converter.convert(input) {
            Ok(v) => v,
            Err(e) => {
                return Err(e);
            },
        };
        let engine_output = match self.engine.execute(converted_input) {
            Ok(v) => v,
            Err(e) => {
                return Err(e);
            },
        };
        let result = match self.output_converter.convert(engine_output) {
            Ok(v) => v,
            Err(e) => {
                return Err(e);
            },
        };
        self.binding.propagate_result(result)
    }
}

/// A whole pipeline: a trigger feeding events through a processing pipeline.
pub struct Pipeline<TriggerType, OutputBinding, Engine, InputConverter, OutputConverter> {
    pub trigger: TriggerType,
    pub consumer: ProcessingPipeline<OutputBinding, Engine, InputConverter, OutputConverter>,
}

impl<
    TriggerType: Trigger,
    OutputBinding: Binding,
    Engine: Executor,
    InputConverter: Converter<TriggerType::Event, Engine::Input>,
    OutputConverter: Converter<Engine::Output, OutputBinding::DataType>,
> Pipeline<TriggerType, OutputBinding, Engine, InputConverter, OutputConverter> where
    OutputBinding: Clone,
    Engine: Clone,
    InputConverter: Clone,
    OutputConverter: Clone,
 {
    /// Assemble a pipeline from its parts.
    pub fn new(
        trigger: TriggerType,
        f_in: InputConverter,
        engine: Engine,
        f_out: OutputConverter,
        binding: OutputBinding,
    ) -> (r: Pipeline<TriggerType, OutputBinding, Engine, InputConverter, OutputConverter>) {
        Pipeline {
            trigger,
            consumer: ProcessingPipeline {
                engine,
                input_converter: f_in,
                output_converter: f_out,
                binding,
            },
        }
    }

    /// Drive the trigger, handing each event to the processing pipeline.
    pub fn run(self) -> (r: Result<(), EngineError>) {
        let broker = Broker { subscriber: self.consumer };
        self.trigger.run(broker)
    }
}

/// The identity conversion, for pipelines whose shapes already agree.
pub fn identity<T>(t: T) -> (r: Result<T, EngineError>)
    ensures
        r == Result::<T, EngineError>::Ok(t),
{
    Ok(t)
}

} // verus!
