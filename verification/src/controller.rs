//! The controller: endpoint registry, step coordination and failure
//! classification around one circuit.
//!
//! The controller owns the circuit and is the only component that
//! mutates it.  Transport workers hand records to per-endpoint buffers;
//! a step flushes every active buffer into the circuit and advances it
//! atomically; the egress path hands each output endpoint the
//! consolidated delta of its stream.  Failures are classified per the
//! taxonomy in [`crate::error`]: record-level errors leave the endpoint
//! running, non-fatal transport errors degrade it, fatal ones remove it
//! (and, per policy, halt the pipeline), and panics terminate the
//! pipeline.

use vstd::prelude::*;
use crate::circuit::{CircuitRuntime, CircuitStream};
use crate::decollection::{clone_columns, DeCollectionStream, RecordFormat};
use crate::error::{ConfigError, ControllerError};
use crate::value::ValueV;
use crate::zset::{l1_norm, weight_of, ZEntryV, ZSet};
use crate::PipelineState;

verus! {

/// The run state of one endpoint, independent of the pipeline state.
#[derive(Debug, Clone, Copy, PartialEq, Eq, Structural)]
pub enum EndpointRuntimeState {
    Active,
    Degraded,
    Removed,
}

/// Which way an endpoint moves data.
#[derive(Debug, Clone, Copy, PartialEq, Eq, Structural)]
pub enum Direction {
    Input,
    Output,
}

/// How many decoded rows one endpoint may buffer before the controller
/// pushes back on its producer.
pub const ENDPOINT_BUFFER_CAPACITY: usize = 16777216;

/// Buffer occupancy at which an input endpoint asks for a step: one of
/// the three step triggers, beside an explicit request and a timer.
pub const ENDPOINT_BUFFER_WATERMARK: usize = 1048576;

/// One registered input endpoint: its configuration and its decoder.
#[derive(Debug)]
pub struct InputEndpoint {
    pub name: String,
    pub transport: String,
    pub format: RecordFormat,
    pub status: EndpointRuntimeState,
    pub stream: DeCollectionStream,
}

/// One registered output endpoint.
#[derive(Debug)]
pub struct OutputEndpoint {
    pub name: String,
    pub transport: String,
    pub format: RecordFormat,
    pub stream_name: String,
    pub status: EndpointRuntimeState,
}

/// Transport kinds with a provider.
pub open spec fn known_transport(name: Seq<char>) -> bool {
    name == "file"@ || name == "http"@
}

fn is_known_transport(name: &str) -> (r: bool)
    ensures
        r == known_transport(name@),
{
    let owned = name.to_owned();
    owned == "file".to_owned() || owned == "http".to_owned()
}

/// The record format a format name denotes, if any.
pub open spec fn format_of(name: Seq<char>) -> Option<RecordFormat> {
    if name == "json"@ {
        Some(RecordFormat::Json)
    } else if name == "csv"@ {
        Some(RecordFormat::Csv)
    } else {
        None
    }
}

fn parse_format(name: &str) -> (r: Option<RecordFormat>)
    ensures
        r == format_of(name@),
{
    let owned = name.to_owned();
    if owned == "json".to_owned() {
        Some(RecordFormat::Json)
    } else if owned == "csv".to_owned() {
        Some(RecordFormat::Csv)
    } else {
        None
    }
}

/// The controller around one circuit.
#[derive(Debug)]
pub struct Controller {
    pub state: PipelineState,
    pub circuit: CircuitRuntime,
    pub inputs: Vec<InputEndpoint>,
    pub outputs: Vec<OutputEndpoint>,
    /// Policy: a fatal input transport error halts the whole pipeline.
    pub stop_on_fatal_input: bool,
    /// Policy: a fatal output transport error halts the whole pipeline.
    pub stop_on_fatal_output: bool,
}

impl Controller {
    /// An input endpoint of this name is registered.
    pub open spec fn has_input(self, name: Seq<char>) -> bool {
        exists|i: int|
            0 <= i < self.inputs@.len() && (#[trigger] self.inputs@[i]).name@ == name
    }

    /// An output endpoint of this name is registered.
    pub open spec fn has_output(self, name: Seq<char>) -> bool {
        exists|i: int|
            0 <= i < self.outputs@.len() && (#[trigger] self.outputs@[i]).name@ == name
    }

    /// The pipeline no longer accepts work.
    pub open spec fn shutting_down(self) -> bool {
        self.state is Terminating || self.state is Terminated
    }

    pub open spec fn wf(self) -> bool {
        &&& self.circuit.wf()
        &&& forall|i: int, j: int|
            0 <= i < j < self.inputs@.len() ==> self.inputs@[i].name@ != self.inputs@[j].name@
        &&& forall|i: int, j: int|
            0 <= i < j < self.outputs@.len() ==> self.outputs@[i].name@ != self.outputs@[j].name@
        &&& forall|i: int|
            0 <= i < self.inputs@.len() ==> (#[trigger] self.inputs@[i]).stream.wf()
                && self.circuit.has_stream(self.inputs@[i].stream.dest@)
        &&& forall|i: int|
            0 <= i < self.outputs@.len() ==> self.circuit.has_stream(
                (#[trigger] self.outputs@[i]).stream_name@,
            )
        &&& (!(self.state is Terminated) ==> !self.circuit.killed)
    }

    /// A controller in its initial state around a circuit.
    pub fn new(circuit: CircuitRuntime, stop_on_fatal_input: bool, stop_on_fatal_output: bool) -> (r:
        Self)
        requires
            circuit.wf(),
            !circuit.killed,
        ensures
            r.state is Initializing,
            r.circuit == circuit,
            r.inputs@.len() == 0,
            r.outputs@.len() == 0,
            r.stop_on_fatal_input == stop_on_fatal_input,
            r.stop_on_fatal_output == stop_on_fatal_output,
            r.wf(),
    {
        Controller {
            state: PipelineState::Initializing,
            circuit,
            inputs: Vec::new(),
            outputs: Vec::new(),
            stop_on_fatal_input,
            stop_on_fatal_output,
        }
    }

    /// The pipeline state, inspectable in every state.
    pub fn status(&self) -> (r: PipelineState)
        ensures
            r == self.state,
    {
        self.state
    }

    /// Start or resume stepping.  Fails once the pipeline is shutting
    /// down.
    pub fn start(&mut self) -> (r: Result<(), ControllerError>)
        requires
            old(self).wf(),
        ensures
            final (self).wf(),
            final (self).circuit == old(self).circuit,
            final (self).inputs == old(self).inputs,
            final (self).outputs == old(self).outputs,
            final (self).stop_on_fatal_input == old(self).stop_on_fatal_input,
            final (self).stop_on_fatal_output == old(self).stop_on_fatal_output,
            old(self).shutting_down() ==> (r matches Err(ControllerError::PipelineTerminating)
                && final (self).state == old(self).state),
            !old(self).shutting_down() ==> r is Ok && final (self).state is Running,
    {
        if self.state == PipelineState::Terminating || self.state == PipelineState::Terminated {
            return Err(ControllerError::pipeline_terminating());
        }
        self.state = PipelineState::Running;
        Ok(())
    }

    /// Pause stepping; ingestion buffers still accept data.  A pipeline
    /// that has not started yet stays where it is.  Fails once the
    /// pipeline is shutting down.
    pub fn pause(&mut self) -> (r: Result<(), ControllerError>)
        requires
            old(self).wf(),
        ensures
            final (self).wf(),
            final (self).circuit == old(self).circuit,
            final (self).inputs == old(self).inputs,
            final (self).outputs == old(self).outputs,
            final (self).stop_on_fatal_input == old(self).stop_on_fatal_input,
            final (self).stop_on_fatal_output == old(self).stop_on_fatal_output,
            old(self).shutting_down() ==> (r matches Err(ControllerError::PipelineTerminating)
                && final (self).state == old(self).state),
            old(self).state is Initializing ==> r is Ok && final (self).state is Initializing,
            (old(self).state is Running || old(self).state is Paused) ==> r is Ok
                && final (self).state is Paused,
    {
        if self.state == PipelineState::Terminating || self.state == PipelineState::Terminated {
            return Err(ControllerError::pipeline_terminating());
        }
        if self.state == PipelineState::Initializing {
            return Ok(());
        }
        self.state = PipelineState::Paused;
        Ok(())
    }

    /// Begin shutting down: no new triggers are accepted; an in-flight
    /// step finishes.  Idempotent; a terminated pipeline stays
    /// terminated.
    pub fn initiate_termination(&mut self)
        requires
            old(self).wf(),
        ensures
            final (self).wf(),
            final (self).circuit == old(self).circuit,
            final (self).inputs == old(self).inputs,
            final (self).outputs == old(self).outputs,
            final (self).stop_on_fatal_input == old(self).stop_on_fatal_input,
            final (self).stop_on_fatal_output == old(self).stop_on_fatal_output,
            old(self).state is Terminated ==> final (self).state is Terminated,
            !(old(self).state is Terminated) ==> final (self).state is Terminating,
    {
        if self.state == PipelineState::Terminated {
            return ;
        }
        self.state = PipelineState::Terminating;
    }

    /// Finish shutting down, once no step is in flight: kill the
    /// circuit and release the pipeline.
    pub fn complete_termination(&mut self)
        requires
            old(self).wf(),
            old(self).state is Terminating || old(self).state is Terminated,
        ensures
            final (self).wf(),
            final (self).state is Terminated,
            final (self).circuit.killed,
            final (self).inputs == old(self).inputs,
            final (self).outputs == old(self).outputs,
            final (self).stop_on_fatal_input == old(self).stop_on_fatal_input,
            final (self).stop_on_fatal_output == old(self).stop_on_fatal_output,
    {
        self.circuit.kill();
        self.state = PipelineState::Terminated;
        proof {
            assert forall|i: int|
                0 <= i < self.inputs@.len() implies (#[trigger] self.inputs@[i]).stream.wf()
                && self.circuit.has_stream(self.inputs@[i].stream.dest@) by {
                assert(old(self).circuit.has_stream(self.inputs@[i].stream.dest@));
            }
        }
    }

    /// A panic crossed the circuit boundary: circuit state can no
    /// longer be trusted, so the pipeline terminates.  Returns the
    /// error handed to the caller.
    pub fn record_circuit_panic(&mut self) -> (e: ControllerError)
        requires
            old(self).wf(),
        ensures
            final (self).wf(),
            final (self).state is Terminated,
            final (self).circuit.killed,
            final (self).inputs == old(self).inputs,
            final (self).outputs == old(self).outputs,
            e is DbspPanic,
    {
        self.circuit.kill();
        self.state = PipelineState::Terminated;
        proof {
            assert forall|i: int|
                0 <= i < self.inputs@.len() implies (#[trigger] self.inputs@[i]).stream.wf()
                && self.circuit.has_stream(self.inputs@[i].stream.dest@) by {
                assert(old(self).circuit.has_stream(self.inputs@[i].stream.dest@));
            }
        }
        ControllerError::dbsp_panic()
    }

    /// A panic crossed the controller boundary: the pipeline
    /// terminates.  Returns the error handed to the caller.
    pub fn record_controller_panic(&mut self) -> (e: ControllerError)
        requires
            old(self).wf(),
        ensures
            final (self).wf(),
            final (self).state is Terminated,
            final (self).circuit.killed,
            final (self).inputs == old(self).inputs,
            final (self).outputs == old(self).outputs,
            e is ControllerPanic,
    {
        self.circuit.kill();
        self.state = PipelineState::Terminated;
        proof {
            assert forall|i: int|
                0 <= i < self.inputs@.len() implies (#[trigger] self.inputs@[i]).stream.wf()
                && self.circuit.has_stream(self.inputs@[i].stream.dest@) by {
                assert(old(self).circuit.has_stream(self.inputs@[i].stream.dest@));
            }
        }
        ControllerError::controller_panic()
    }

    /// The index of the input endpoint called `name`.
    fn find_input(&self, name: &str) -> (r: Option<usize>)
        ensures
            match r {
                Some(i) => i < self.inputs@.len() && self.inputs@[i as int].name@ == name@,
                None => !self.has_input(name@),
            },
    {
        let n = self.inputs.len();
        for i in 0..n
            invariant
                n == self.inputs@.len(),
                forall|j: int| 0 <= j < i ==> (#[trigger] self.inputs@[j]).name@ != name@,
        {
            if self.inputs[i].name == name.to_owned() {
                return Some(i);
            }
        }
        None
    }

    /// The index of the output endpoint called `name`.
    fn find_output(&self, name: &str) -> (r: Option<usize>)
        ensures
            match r {
                Some(i) => i < self.outputs@.len() && self.outputs@[i as int].name@ == name@,
                None => !self.has_output(name@),
            },
    {
        let n = self.outputs.len();
        for i in 0..n
            invariant
                n == self.outputs@.len(),
                forall|j: int| 0 <= j < i ==> (#[trigger] self.outputs@[j]).name@ != name@,
        {
            if self.outputs[i].name == name.to_owned() {
                return Some(i);
            }
        }
        None
    }

    /// The run state of an endpoint, inspectable in every state.
    pub fn endpoint_status(&self, direction: Direction, name: &str) -> (r: Option<
        EndpointRuntimeState,
    >)
        ensures
            match direction {
                Direction::Input => match r {
                    Some(s) => exists|i: int|
                        0 <= i < self.inputs@.len() && (#[trigger] self.inputs@[i]).name@ == name@
                            && self.inputs@[i].status == s,
                    None => !self.has_input(name@),
                },
                Direction::Output => match r {
                    Some(s) => exists|i: int|
                        0 <= i < self.outputs@.len() && (#[trigger] self.outputs@[i]).name@
                            == name@ && self.outputs@[i].status == s,
                    None => !self.has_output(name@),
                },
            },
    {
        match direction {
            Direction::Input => match self.find_input(name) {
                Some(i) => Some(self.inputs[i].status),
                None => None,
            },
            Direction::Output => match self.find_output(name) {
                Some(i) => Some(self.outputs[i].status),
                None => None,
            },
        }
    }

    /// The buffer-occupancy step trigger: some endpoint still feeding
    /// the circuit has buffered at least the watermark, so a step is
    /// due.  The driver around the controller polls this between
    /// records, beside its explicit step requests and its timer.
    pub fn watermark_crossed(&self) -> (r: bool)
        ensures
            r == exists|i: int|
                0 <= i < self.inputs@.len() && !((#[trigger] self.inputs@[i]).status is Removed)
                    && self.inputs@[i].stream.buffer@.len() >= ENDPOINT_BUFFER_WATERMARK as int,
    {
        let n = self.inputs.len();
        for i in 0..n
            invariant
                n == self.inputs@.len(),
                forall|j: int|
                    0 <= j < i ==> !(!((#[trigger] self.inputs@[j]).status is Removed)
                        && self.inputs@[j].stream.buffer@.len()
                        >= ENDPOINT_BUFFER_WATERMARK as int),
        {
            if !(self.inputs[i].status == EndpointRuntimeState::Removed) && self.inputs[i].stream.buffered() >= ENDPOINT_BUFFER_WATERMARK {
                return true;
            }
        }
        false
    }

    /// Register one input endpoint.  Validation is eager: the endpoint
    /// is rejected here or runs; nothing is checked later.
    pub fn register_input(&mut self, name: &str, transport: &str, format: &str, stream: &str) -> (r:
        Result<(), ControllerError>)
        requires
            old(self).wf(),
        ensures
            final (self).wf(),
            final (self).state == old(self).state,
            final (self).circuit == old(self).circuit,
            final (self).outputs == old(self).outputs,
            final (self).stop_on_fatal_input == old(self).stop_on_fatal_input,
            final (self).stop_on_fatal_output == old(self).stop_on_fatal_output,
            old(self).shutting_down() ==> (r matches Err(ControllerError::PipelineTerminating)
                && final (self).inputs == old(self).inputs),
            !old(self).shutting_down() && old(self).has_input(name@) ==> (r matches Err(
                ControllerError::Config {
                    config_error: ConfigError::DuplicateInputEndpoint { endpoint_name: n },
                },
            ) && n@ == name@ && final (self).inputs == old(self).inputs),
            !old(self).shutting_down() && !old(self).has_input(name@) && !known_transport(
                transport@,
            ) ==> (r matches Err(
                ControllerError::Config {
                    config_error: ConfigError::UnknownInputTransport { transport_name: n },
                },
            ) && n@ == transport@ && final (self).inputs == old(self).inputs),
            !old(self).shutting_down() && !old(self).has_input(name@) && known_transport(
                transport@,
            ) && format_of(format@) != Some(RecordFormat::Json) ==> (r matches Err(
                ControllerError::Config {
                    config_error: ConfigError::UnknownInputFormat { format_name: n },
                },
            ) && n@ == format@ && final (self).inputs == old(self).inputs),
            !old(self).shutting_down() && !old(self).has_input(name@) && known_transport(
                transport@,
            ) && format_of(format@) == Some(RecordFormat::Json) && !old(self).circuit.has_stream(stream@) ==> (r matches Err(
                ControllerError::Config {
                    config_error: ConfigError::UnknownInputStream { stream_name: n },
                },
            ) && n@ == stream@ && final (self).inputs == old(self).inputs),
            !old(self).shutting_down() && !old(self).has_input(name@) && known_transport(
                transport@,
            ) && format_of(format@) == Some(RecordFormat::Json) && old(self).circuit.has_stream(
                stream@,
            ) ==> (r is Ok && final (self).inputs@.len() == old(self).inputs@.len() + 1 && (forall|
                i: int,
            |
                0 <= i < old(self).inputs@.len() ==> final (self).inputs@[i] == old(self).inputs@[i]) && final (self).inputs@.last().name@ == name@ && final (self).inputs@.last().transport@ == transport@ && final (self).inputs@.last().format
                == RecordFormat::Json && final (self).inputs@.last().status
                == EndpointRuntimeState::Active && final (self).inputs@.last().stream.dest@
                == stream@ && final (self).inputs@.last().stream.buffer@ == Seq::<
                ZEntryV,
            >::empty()),
    {
        if self.state == PipelineState::Terminating || self.state == PipelineState::Terminated {
            return Err(ControllerError::pipeline_terminating());
        }
        if self.find_input(name).is_some() {
            return Err(ControllerError::duplicate_input_endpoint(name));
        }
        if !is_known_transport(transport) {
            return Err(ControllerError::unknown_input_transport(transport));
        }
        match parse_format(format) {
            Some(RecordFormat::Json) => {},
            _ => {
                return Err(ControllerError::unknown_input_format(format));
            },
        }
        let si = match self.circuit.find_stream(stream) {
            Some(si) => si,
            None => {
                return Err(ControllerError::unknown_input_stream(stream));
            },
        };
        let columns = clone_columns(&self.circuit.streams[si].schema);
        let endpoint = InputEndpoint {
            name: name.to_owned(),
            transport: transport.to_owned(),
            format: RecordFormat::Json,
            status: EndpointRuntimeState::Active,
            stream: DeCollectionStream::new(stream, columns),
        };
        self.inputs.push(endpoint);
        proof {
            assert(self.circuit.has_stream(stream@));
            assert forall|i: int, j: int|
                0 <= i < j < self.inputs@.len() implies self.inputs@[i].name@
                != self.inputs@[j].name@ by {
                if j == self.inputs@.len() - 1 {
                    assert(!old(self).has_input(name@));
                    if self.inputs@[i].name@ == name@ {
                        assert(old(self).inputs@[i].name@ == name@);
                    }
                }
            }
        }
        Ok(())
    }

    /// Register one output endpoint.  Validation is eager, in the same
    /// order as for inputs.
    pub fn register_output(&mut self, name: &str, transport: &str, format: &str, stream: &str) -> (
        r: Result<(), ControllerError>)
        requires
            old(self).wf(),
        ensures
            final (self).wf(),
            final (self).state == old(self).state,
            final (self).circuit == old(self).circuit,
            final (self).inputs == old(self).inputs,
            final (self).stop_on_fatal_input == old(self).stop_on_fatal_input,
            final (self).stop_on_fatal_output == old(self).stop_on_fatal_output,
            old(self).shutting_down() ==> (r matches Err(ControllerError::PipelineTerminating)
                && final (self).outputs == old(self).outputs),
            !old(self).shutting_down() && old(self).has_output(name@) ==> (r matches Err(
                ControllerError::Config {
                    config_error: ConfigError::DuplicateOutputEndpoint { endpoint_name: n },
                },
            ) && n@ == name@ && final (self).outputs == old(self).outputs),
            !old(self).shutting_down() && !old(self).has_output(name@) && !known_transport(
                transport@,
            ) ==> (r matches Err(
                ControllerError::Config {
                    config_error: ConfigError::UnknownOutputTransport { transport_name: n },
                },
            ) && n@ == transport@ && final (self).outputs == old(self).outputs),
            !old(self).shutting_down() && !old(self).has_output(name@) && known_transport(
                transport@,
            ) && format_of(format@) != Some(RecordFormat::Json) ==> (r matches Err(
                ControllerError::Config {
                    config_error: ConfigError::UnknownOutputFormat { format_name: n },
                },
            ) && n@ == format@ && final (self).outputs == old(self).outputs),
            !old(self).shutting_down() && !old(self).has_output(name@) && known_transport(
                transport@,
            ) && format_of(format@) == Some(RecordFormat::Json) && !old(self).circuit.has_stream(stream@) ==> (r matches Err(
                ControllerError::Config {
                    config_error: ConfigError::UnknownOutputStream { stream_name: n },
                },
            ) && n@ == stream@ && final (self).outputs == old(self).outputs),
            !old(self).shutting_down() && !old(self).has_output(name@) && known_transport(
                transport@,
            ) && format_of(format@) == Some(RecordFormat::Json) && old(self).circuit.has_stream(
                stream@,
            ) ==> (r is Ok && final (self).outputs@.len() == old(self).outputs@.len() + 1 && (
            forall|i: int|
                0 <= i < old(self).outputs@.len() ==> final (self).outputs@[i] == old(self).outputs@[i]) && final (self).outputs@.last().name@ == name@ && final (self).outputs@.last().transport@ == transport@ && final (self).outputs@.last().format
                == RecordFormat::Json && final (self).outputs@.last().status
                == EndpointRuntimeState::Active && final (self).outputs@.last().stream_name@
                == stream@),
    {
        if self.state == PipelineState::Terminating || self.state == PipelineState::Terminated {
            return Err(ControllerError::pipeline_terminating());
        }
        if self.find_output(name).is_some() {
            return Err(ControllerError::duplicate_output_endpoint(name));
        }
        if !is_known_transport(transport) {
            return Err(ControllerError::unknown_output_transport(transport));
        }
        match parse_format(format) {
            Some(RecordFormat::Json) => {},
            _ => {
                return Err(ControllerError::unknown_output_format(format));
            },
        }
        if !self.circuit.catalog_has(stream) {
            return Err(ControllerError::unknown_output_stream(stream));
        }
        let endpoint = OutputEndpoint {
            name: name.to_owned(),
            transport: transport.to_owned(),
            format: RecordFormat::Json,
            stream_name: stream.to_owned(),
            status: EndpointRuntimeState::Active,
        };
        self.outputs.push(endpoint);
        proof {
            assert forall|i: int, j: int|
                0 <= i < j < self.outputs@.len() implies self.outputs@[i].name@
                != self.outputs@[j].name@ by {
                if j == self.outputs@.len() - 1 {
                    assert(!old(self).has_output(name@));
                    if self.outputs@[i].name@ == name@ {
                        assert(old(self).outputs@[i].name@ == name@);
                    }
                }
            }
        }
        Ok(())
    }

    /// Remove an endpoint; safe while the pipeline runs.  Buffered
    /// rows of a removed input endpoint are discarded, not dispatched.
    /// Returns whether an endpoint of this name and direction existed.
    /// Once the pipeline is shutting down the registry is frozen like
    /// everything else: the call fails and removes nothing.
    pub fn deregister(&mut self, direction: Direction, name: &str) -> (r: Result<
        bool,
        ControllerError,
    >)
        requires
            old(self).wf(),
        ensures
            final (self).wf(),
            final (self).state == old(self).state,
            final (self).circuit == old(self).circuit,
            final (self).stop_on_fatal_input == old(self).stop_on_fatal_input,
            final (self).stop_on_fatal_output == old(self).stop_on_fatal_output,
            old(self).shutting_down() ==> (r matches Err(ControllerError::PipelineTerminating)
                && final (self).inputs == old(self).inputs && final (self).outputs == old(self).outputs),
            !old(self).shutting_down() ==> match direction {
                Direction::Input => {
                    &&& final (self).outputs == old(self).outputs
                    &&& r matches Ok(removed) && removed == old(self).has_input(name@)
                    &&& !old(self).has_input(name@) ==> final (self).inputs == old(self).inputs
                    &&& old(self).has_input(name@) ==> final (self).inputs@.len() == old(self).inputs@.len() - 1 && !final (self).has_input(name@)
                },
                Direction::Output => {
                    &&& final (self).inputs == old(self).inputs
                    &&& r matches Ok(removed) && removed == old(self).has_output(name@)
                    &&& !old(self).has_output(name@) ==> final (self).outputs == old(self).outputs
                    &&& old(self).has_output(name@) ==> final (self).outputs@.len() == old(self).outputs@.len() - 1 && !final (self).has_output(name@)
                },
            },
    {
        if self.state == PipelineState::Terminating || self.state == PipelineState::Terminated {
            return Err(ControllerError::pipeline_terminating());
        }
        match direction {
            Direction::Input => {
                match self.find_input(name) {
                    Some(i) => {
                        self.inputs.remove(i);
                        proof {
                            assert forall|p: int|
                                0 <= p < self.inputs@.len() implies (
                            #[trigger] self.inputs@[p]).name@ != name@ by {
                                if p < i {
                                    assert(self.inputs@[p] == old(self).inputs@[p]);
                                } else {
                                    assert(self.inputs@[p] == old(self).inputs@[p + 1]);
                                }
                                assert(old(self).inputs@[i as int].name@ == name@);
                            }
                            assert forall|p: int|
                                0 <= p < self.inputs@.len() implies (
                            #[trigger] self.inputs@[p]).stream.wf() && self.circuit.has_stream(
                                self.inputs@[p].stream.dest@,
                            ) by {
                                if p < i {
                                    assert(self.inputs@[p] == old(self).inputs@[p]);
                                    assert((old(self).inputs@[p]).stream.wf());
                                } else {
                                    assert(self.inputs@[p] == old(self).inputs@[p + 1]);
                                    assert((old(self).inputs@[p + 1]).stream.wf());
                                }
                            }
                        }
                        Ok(true)
                    },
                    None => Ok(false),
                }
            },
            Direction::Output => {
                match self.find_output(name) {
                    Some(i) => {
                        self.outputs.remove(i);
                        proof {
                            assert forall|p: int|
                                0 <= p < self.outputs@.len() implies (
                            #[trigger] self.outputs@[p]).name@ != name@ by {
                                if p < i {
                                    assert(self.outputs@[p] == old(self).outputs@[p]);
                                } else {
                                    assert(self.outputs@[p] == old(self).outputs@[p + 1]);
                                }
                                assert(old(self).outputs@[i as int].name@ == name@);
                            }
                            assert forall|p: int|
                                0 <= p < self.outputs@.len() implies self.circuit.has_stream(
                                (#[trigger] self.outputs@[p]).stream_name@,
                            ) by {
                                if p < i {
                                    assert(self.outputs@[p] == old(self).outputs@[p]);
                                } else {
                                    assert(self.outputs@[p] == old(self).outputs@[p + 1]);
                                }
                            }
                        }
                        Ok(true)
                    },
                    None => Ok(false),
                }
            },
        }
    }

    /// Hand one raw record to an input endpoint.  The record's verb
    /// picks the weight: an insertion buffers the row with weight `+1`,
    /// a deletion with `-1`.  A malformed record fails alone: the
    /// endpoint's buffer is untouched and the next record is ingested
    /// as if nothing happened.  A full buffer reports backpressure as a
    /// non-fatal transport error rather than blocking the producer: in
    /// this sequential model the caller retries after the next flush.
    pub fn input_record(&mut self, endpoint_name: &str, data: &[u8]) -> (r: Result<
        (),
        ControllerError,
    >)
        requires
            old(self).wf(),
        ensures
            final (self).wf(),
            final (self).state == old(self).state,
            final (self).circuit == old(self).circuit,
            final (self).outputs == old(self).outputs,
            final (self).stop_on_fatal_input == old(self).stop_on_fatal_input,
            final (self).stop_on_fatal_output == old(self).stop_on_fatal_output,
            old(self).shutting_down() ==> (r matches Err(ControllerError::PipelineTerminating)
                && final (self).inputs == old(self).inputs),
            !old(self).shutting_down() && !old(self).has_input(endpoint_name@) ==> (r matches Err(
                ControllerError::InputTransportError { endpoint_name: n, fatal: f, error: er },
            ) && n@ == endpoint_name@ && !f && er@ == "unknown input endpoint"@ && final (self).inputs == old(self).inputs),
            !old(self).shutting_down() && old(self).has_input(endpoint_name@) ==> exists|i: int|
                #![trigger old(self).inputs@[i]]
                {
                    &&& 0 <= i < old(self).inputs@.len()
                    &&& old(self).inputs@[i].name@ == endpoint_name@
                    &&& (old(self).inputs@[i].status is Removed ==> (r matches Err(
                        ControllerError::InputTransportError {
                            endpoint_name: n,
                            fatal: f,
                            error: er,
                        },
                    ) && n@ == endpoint_name@ && !f && er@ == "input endpoint removed"@ && final (self).inputs == old(self).inputs))
                    &&& (!(old(self).inputs@[i].status is Removed) && old(self).inputs@[i].stream.buffer@.len() >= ENDPOINT_BUFFER_CAPACITY as int ==> (
                    r matches Err(
                        ControllerError::InputTransportError {
                            endpoint_name: n,
                            fatal: f,
                            error: er,
                        },
                    ) && n@ == endpoint_name@ && !f && er@ == "backpressure: endpoint buffer full"@
                        && final (self).inputs == old(self).inputs))
                    &&& (!(old(self).inputs@[i].status is Removed) && old(self).inputs@[i].stream.buffer@.len() < ENDPOINT_BUFFER_CAPACITY as int ==> match
                        crate::json::deserialize_record_spec(
                        data@,
                        old(self).inputs@[i].stream.schema.deep_view(),
                    ) {
                        Some((ins, row)) => {
                            &&& r is Ok
                            &&& final (self).inputs@.len() == old(self).inputs@.len()
                            &&& (forall|j: int|
                                0 <= j < old(self).inputs@.len() && j != i ==> final (self).inputs@[j] == old(self).inputs@[j])
                            &&& final (self).inputs@[i].name == old(self).inputs@[i].name
                            &&& final (self).inputs@[i].transport == old(self).inputs@[i].transport
                            &&& final (self).inputs@[i].format == old(self).inputs@[i].format
                            &&& final (self).inputs@[i].status == old(self).inputs@[i].status
                            &&& final (self).inputs@[i].stream.dest == old(self).inputs@[i].stream.dest
                            &&& final (self).inputs@[i].stream.schema == old(self).inputs@[i].stream.schema
                            &&& final (self).inputs@[i].stream.buffer@ == old(self).inputs@[i].stream.buffer@.push(
                                (
                                    row,
                                    if ins {
                                        1int
                                    } else {
                                        -1int
                                    },
                                ),
                            )
                        },
                        None => {
                            &&& (r matches Err(
                                ControllerError::ParseError { endpoint_name: n, error: er },
                            ) && n@ == endpoint_name@ && er@
                                == "malformed JSON record for the stream schema"@)
                            &&& final (self).inputs@.len() == old(self).inputs@.len()
                            &&& (forall|j: int|
                                0 <= j < old(self).inputs@.len() && j != i ==> final (self).inputs@[j] == old(self).inputs@[j])
                            &&& final (self).inputs@[i].name == old(self).inputs@[i].name
                            &&& final (self).inputs@[i].transport == old(self).inputs@[i].transport
                            &&& final (self).inputs@[i].format == old(self).inputs@[i].format
                            &&& final (self).inputs@[i].status == old(self).inputs@[i].status
                            &&& final (self).inputs@[i].stream.dest == old(self).inputs@[i].stream.dest
                            &&& final (self).inputs@[i].stream.schema == old(self).inputs@[i].stream.schema
                            &&& final (self).inputs@[i].stream.buffer@ == old(self).inputs@[i].stream.buffer@
                        },
                    })
                },
    {
        if self.state == PipelineState::Terminating || self.state == PipelineState::Terminated {
            return Err(ControllerError::pipeline_terminating());
        }
        let i = match self.find_input(endpoint_name) {
            Some(i) => i,
            None => {
                return Err(
                    ControllerError::input_transport_error(
                        endpoint_name,
                        false,
                        "unknown input endpoint",
                    ),
                );
            },
        };
        if self.inputs[i].status == EndpointRuntimeState::Removed {
            return Err(
                ControllerError::input_transport_error(
                    endpoint_name,
                    false,
                    "input endpoint removed",
                ),
            );
        }
        if self.inputs[i].stream.buffered() >= ENDPOINT_BUFFER_CAPACITY {
            return Err(
                ControllerError::input_transport_error(
                    endpoint_name,
                    false,
                    "backpressure: endpoint buffer full",
                ),
            );
        }
        let ep = &mut self.inputs[i];
        let res = ep.stream.ingest_record(data);
        proof {
            assert forall|p: int, q: int|
                0 <= p < q < self.inputs@.len() implies self.inputs@[p].name@
                != self.inputs@[q].name@ by {
                assert(self.inputs@[p].name == old(self).inputs@[p].name);
                assert(self.inputs@[q].name == old(self).inputs@[q].name);
            }
            assert forall|p: int|
                0 <= p < self.inputs@.len() implies (#[trigger] self.inputs@[p]).stream.wf()
                && self.circuit.has_stream(self.inputs@[p].stream.dest@) by {
                if p != i {
                    assert(self.inputs@[p] == old(self).inputs@[p]);
                }
                assert((old(self).inputs@[p]).stream.wf());
                assert(old(self).circuit.has_stream(old(self).inputs@[p].stream.dest@));
            }
            assert((old(self).inputs@[i as int]).name@ == endpoint_name@);
        }
        match res {
            Ok(()) => Ok(()),
            Err(_) => Err(
                ControllerError::parse_error(
                    endpoint_name,
                    "malformed JSON record for the stream schema",
                ),
            ),
        }
    }

    /// Classify a transport failure reported by an endpoint's worker
    /// and apply its consequence: a non-fatal error degrades the
    /// endpoint, a fatal one removes it (discarding buffered rows) and,
    /// per policy, moves the whole pipeline toward termination.
    /// Returns the typed error handed to the reporting worker.
    pub fn transport_error(
        &mut self,
        direction: Direction,
        endpoint_name: &str,
        fatal: bool,
        message: &str,
    ) -> (e: ControllerError)
        requires
            old(self).wf(),
        ensures
            final (self).wf(),
            final (self).circuit == old(self).circuit,
            final (self).stop_on_fatal_input == old(self).stop_on_fatal_input,
            final (self).stop_on_fatal_output == old(self).stop_on_fatal_output,
            direction is Input ==> (e matches ControllerError::InputTransportError {
                endpoint_name: n,
                fatal: f,
                error: er,
            } && n@ == endpoint_name@ && f == fatal && er@ == message@) && final (self).outputs
                == old(self).outputs,
            direction is Output ==> (e matches ControllerError::OutputTransportError {
                endpoint_name: n,
                fatal: f,
                error: er,
            } && n@ == endpoint_name@ && f == fatal && er@ == message@) && final (self).inputs
                == old(self).inputs,
            final (self).state == if fatal && !(old(self).state is Terminated) && ((direction
                is Input && old(self).stop_on_fatal_input && old(self).has_input(endpoint_name@))
                || (direction is Output && old(self).stop_on_fatal_output && old(self).has_output(
                endpoint_name@,
            ))) {
                PipelineState::Terminating
            } else {
                old(self).state
            },
            direction is Input && !old(self).has_input(endpoint_name@) ==> final (self).inputs
                == old(self).inputs,
            direction is Output && !old(self).has_output(endpoint_name@) ==> final (self).outputs
                == old(self).outputs,
            direction is Input && old(self).has_input(endpoint_name@) ==> exists|i: int|
                #![trigger old(self).inputs@[i]]
                {
                    &&& 0 <= i < old(self).inputs@.len()
                    &&& old(self).inputs@[i].name@ == endpoint_name@
                    &&& final (self).inputs@.len() == old(self).inputs@.len()
                    &&& (forall|j: int|
                        0 <= j < old(self).inputs@.len() && j != i ==> final (self).inputs@[j]
                            == old(self).inputs@[j])
                    &&& (old(self).inputs@[i].status is Removed ==> final (self).inputs == old(self).inputs)
                    &&& (!(old(self).inputs@[i].status is Removed) && !fatal ==> final (self).inputs@[i].status is Degraded && final (self).inputs@[i].name == old(self).inputs@[i].name && final (self).inputs@[i].stream.buffer@ == old(self).inputs@[i].stream.buffer@)
                    &&& (!(old(self).inputs@[i].status is Removed) && fatal ==> final (self).inputs@[i].status is Removed && final (self).inputs@[i].name == old(self).inputs@[i].name && final (self).inputs@[i].stream.buffer@ == Seq::<
                        ZEntryV,
                    >::empty())
                },
            direction is Output && old(self).has_output(endpoint_name@) ==> exists|i: int|
                #![trigger old(self).outputs@[i]]
                {
                    &&& 0 <= i < old(self).outputs@.len()
                    &&& old(self).outputs@[i].name@ == endpoint_name@
                    &&& final (self).outputs@.len() == old(self).outputs@.len()
                    &&& (forall|j: int|
                        0 <= j < old(self).outputs@.len() && j != i ==> final (self).outputs@[j]
                            == old(self).outputs@[j])
                    &&& (old(self).outputs@[i].status is Removed ==> final (self).outputs == old(self).outputs)
                    &&& (!(old(self).outputs@[i].status is Removed) && !fatal ==> final (self).outputs@[i].status is Degraded && final (self).outputs@[i].name == old(self).outputs@[i].name && final (self).outputs@[i].stream_name == old(self).outputs@[i].stream_name)
                    &&& (!(old(self).outputs@[i].status is Removed) && fatal ==> final (self).outputs@[i].status is Removed && final (self).outputs@[i].name == old(self).outputs@[i].name && final (self).outputs@[i].stream_name == old(self).outputs@[i].stream_name)
                },
    {
        let mut applied = false;
        match direction {
            Direction::Input => {
                match self.find_input(endpoint_name) {
                    Some(i) => {
                        applied = true;
                        if !(self.inputs[i].status == EndpointRuntimeState::Removed) {
                            let ep = &mut self.inputs[i];
                            if fatal {
                                ep.status = EndpointRuntimeState::Removed;
                                ep.stream.clear_buffer();
                            } else {
                                ep.status = EndpointRuntimeState::Degraded;
                            }
                        }
                        proof {
                            assert forall|p: int, q: int|
                                0 <= p < q < self.inputs@.len() implies self.inputs@[p].name@
                                != self.inputs@[q].name@ by {
                                assert(self.inputs@[p].name == old(self).inputs@[p].name);
                                assert(self.inputs@[q].name == old(self).inputs@[q].name);
                            }
                            assert forall|p: int|
                                0 <= p < self.inputs@.len() implies (
                            #[trigger] self.inputs@[p]).stream.wf() && self.circuit.has_stream(
                                self.inputs@[p].stream.dest@,
                            ) by {
                                if p != i {
                                    assert(self.inputs@[p] == old(self).inputs@[p]);
                                }
                                assert((old(self).inputs@[p]).stream.wf());
                                assert(old(self).circuit.has_stream(
                                    old(self).inputs@[p].stream.dest@,
                                ));
                            }
                        }
                    },
                    None => {},
                }
            },
            Direction::Output => {
                match self.find_output(endpoint_name) {
                    Some(i) => {
                        applied = true;
                        if !(self.outputs[i].status == EndpointRuntimeState::Removed) {
                            let ep = &mut self.outputs[i];
                            if fatal {
                                ep.status = EndpointRuntimeState::Removed;
                            } else {
                                ep.status = EndpointRuntimeState::Degraded;
                            }
                        }
                        proof {
                            assert forall|p: int, q: int|
                                0 <= p < q < self.outputs@.len() implies self.outputs@[p].name@
                                != self.outputs@[q].name@ by {
                                assert(self.outputs@[p].name == old(self).outputs@[p].name);
                                assert(self.outputs@[q].name == old(self).outputs@[q].name);
                            }
                            assert forall|p: int|
                                0 <= p < self.outputs@.len() implies self.circuit.has_stream(
                                (#[trigger] self.outputs@[p]).stream_name@,
                            ) by {
                                if p != i {
                                    assert(self.outputs@[p] == old(self).outputs@[p]);
                                }
                                assert(old(self).circuit.has_stream(
                                    old(self).outputs@[p].stream_name@,
                                ));
                            }
                        }
                    },
                    None => {},
                }
            },
        }
        let escalate = fatal && applied && !(self.state == PipelineState::Terminated) && (match
            direction {
            Direction::Input => self.stop_on_fatal_input,
            Direction::Output => self.stop_on_fatal_output,
        });
        if escalate {
            self.state = PipelineState::Terminating;
        }
        match direction {
            Direction::Input => ControllerError::input_transport_error(
                endpoint_name,
                fatal,
                message,
            ),
            Direction::Output => ControllerError::output_transport_error(
                endpoint_name,
                fatal,
                message,
            ),
        }
    }
}

/// The pending mass of the first `n` circuit collections, summed.
pub open spec fn pending_mass(streams: Seq<CircuitStream>, n: int) -> int
    decreases n,
{
    if n <= 0 {
        0
    } else {
        pending_mass(streams, n - 1) + l1_norm(streams[n - 1].pending@)
    }
}

/// The mass buffered by the first `n` input endpoints that still feed
/// the circuit.
pub open spec fn buffered_mass(inputs: Seq<InputEndpoint>, n: int) -> int
    decreases n,
{
    if n <= 0 {
        0
    } else {
        buffered_mass(inputs, n - 1) + if inputs[n - 1].status is Removed {
            0
        } else {
            l1_norm(inputs[n - 1].stream.buffer@)
        }
    }
}

/// The net weight of row `k` that the first `n` input endpoints feeding
/// `stream` contribute when their buffers are flushed.  No order enters
/// here: contributions only accumulate.
pub open spec fn flushed_weight(
    inputs: Seq<InputEndpoint>,
    stream: Seq<char>,
    k: Seq<ValueV>,
    n: int,
) -> int
    decreases n,
{
    if n <= 0 {
        0
    } else {
        flushed_weight(inputs, stream, k, n - 1) + if !(inputs[n - 1].status is Removed) && inputs[
            n - 1].stream.dest@ == stream {
            weight_of(inputs[n - 1].stream.buffer@, k)
        } else {
            0
        }
    }
}

proof fn lemma_pending_mass_nonneg(streams: Seq<CircuitStream>, n: int)
    ensures
        pending_mass(streams, n) >= 0,
    decreases n,
{
    if n > 0 {
        lemma_pending_mass_nonneg(streams, n - 1);
        crate::zset::lemma_l1_nonneg(streams[n - 1].pending@);
    }
}

proof fn lemma_buffered_mass_nonneg(inputs: Seq<InputEndpoint>, n: int)
    ensures
        buffered_mass(inputs, n) >= 0,
    decreases n,
{
    if n > 0 {
        lemma_buffered_mass_nonneg(inputs, n - 1);
        crate::zset::lemma_l1_nonneg(inputs[n - 1].stream.buffer@);
    }
}

proof fn lemma_buffered_mass_mono(inputs: Seq<InputEndpoint>, a: int, b: int)
    requires
        a <= b,
    ensures
        buffered_mass(inputs, a) <= buffered_mass(inputs, b),
    decreases b - a,
{
    if a < b {
        lemma_buffered_mass_mono(inputs, a, b - 1);
        crate::zset::lemma_l1_nonneg(inputs[b - 1].stream.buffer@);
    }
}

/// One collection's pending mass is at most the total.
proof fn lemma_pending_mass_element(streams: Seq<CircuitStream>, n: int, i: int)
    requires
        0 <= i < n,
    ensures
        l1_norm(streams[i].pending@) <= pending_mass(streams, n),
    decreases n,
{
    lemma_pending_mass_nonneg(streams, n - 1);
    crate::zset::lemma_l1_nonneg(streams[n - 1].pending@);
    if i < n - 1 {
        lemma_pending_mass_element(streams, n - 1, i);
    }
}

/// Replacing one collection changes the total by that collection's
/// change.
proof fn lemma_pending_mass_update(t: Seq<CircuitStream>, s: Seq<CircuitStream>, n: int, i: int)
    requires
        0 <= i < n,
        n <= t.len() && n <= s.len(),
        forall|j: int| 0 <= j < n && j != i ==> (#[trigger] t[j]).pending@ == s[j].pending@,
    ensures
        pending_mass(t, n) == pending_mass(s, n) - l1_norm(s[i].pending@) + l1_norm(
            t[i].pending@,
        ),
    decreases n,
{
    if i == n - 1 {
        lemma_pending_mass_same(t, s, n - 1);
    } else {
        lemma_pending_mass_update(t, s, n - 1, i);
    }
}

proof fn lemma_pending_mass_same(t: Seq<CircuitStream>, s: Seq<CircuitStream>, n: int)
    requires
        n <= t.len() && n <= s.len(),
        forall|j: int| 0 <= j < n ==> (#[trigger] t[j]).pending@ == s[j].pending@,
    ensures
        pending_mass(t, n) == pending_mass(s, n),
    decreases n,
{
    if n > 0 {
        lemma_pending_mass_same(t, s, n - 1);
    }
}

impl Controller {
    /// Everything waiting to enter the circuit fits the mass bound.
    pub open spec fn step_mass_fits(self) -> bool {
        pending_mass(self.circuit.streams@, self.circuit.streams@.len() as int) + buffered_mass(
            self.inputs@,
            self.inputs@.len() as int,
        ) <= i64::MAX as int
    }

    /// One step trigger.  In `Running`, every endpoint still feeding
    /// the circuit is flushed and the circuit advances one atomic step:
    /// each collection's new output delta carries exactly the weights
    /// that were pending plus those just flushed, consolidated; rows
    /// arriving later belong to a later step.  In `Initializing` or
    /// `Paused` the trigger is not executed and `Ok(false)` says so.
    pub fn step(&mut self) -> (r: Result<bool, ControllerError>)
        requires
            old(self).wf(),
        ensures
            final (self).wf(),
            final (self).outputs == old(self).outputs,
            final (self).stop_on_fatal_input == old(self).stop_on_fatal_input,
            final (self).stop_on_fatal_output == old(self).stop_on_fatal_output,
            final (self).state == old(self).state,
            old(self).shutting_down() ==> (r matches Err(ControllerError::PipelineTerminating)
                && final (self).inputs == old(self).inputs && final (self).circuit == old(self).circuit),
            (old(self).state is Initializing || old(self).state is Paused) ==> (r matches Ok(b)
                && b == false && final (self).inputs == old(self).inputs && final (self).circuit
                == old(self).circuit),
            old(self).state is Running && !old(self).step_mass_fits() ==> (r matches Err(
                ControllerError::DbspError { error: er },
            ) && er@ == "MassLimitExceeded"@ && final (self).inputs == old(self).inputs && final (self).circuit == old(self).circuit),
            old(self).state is Running && old(self).step_mass_fits() ==> (r matches Ok(b) && b
                == true && {
                &&& final (self).circuit.streams@.len() == old(self).circuit.streams@.len()
                &&& !final (self).circuit.killed
                &&& forall|j: int|
                    0 <= j < old(self).circuit.streams@.len() ==> {
                        &&& (#[trigger] final (self).circuit.streams@[j]).name == old(self).circuit.streams@[j].name
                        &&& final (self).circuit.streams@[j].schema == old(self).circuit.streams@[j].schema
                        &&& final (self).circuit.streams@[j].pending@ == Seq::<ZEntryV>::empty()
                        &&& crate::zset::consolidated(final (self).circuit.streams@[j].delta@)
                        &&& final (self).circuit.streams@[j].delta.wf()
                        &&& forall|k: Seq<ValueV>|
                            #[trigger] weight_of(final (self).circuit.streams@[j].delta@, k)
                                == weight_of(old(self).circuit.streams@[j].pending@, k)
                                + flushed_weight(
                                old(self).inputs@,
                                old(self).circuit.streams@[j].name@,
                                k,
                                old(self).inputs@.len() as int,
                            )
                    }
                &&& final (self).inputs@.len() == old(self).inputs@.len()
                &&& forall|j: int|
                    0 <= j < old(self).inputs@.len() ==> {
                        &&& (#[trigger] final (self).inputs@[j]).name == old(self).inputs@[j].name
                        &&& final (self).inputs@[j].transport == old(self).inputs@[j].transport
                        &&& final (self).inputs@[j].format == old(self).inputs@[j].format
                        &&& final (self).inputs@[j].status == old(self).inputs@[j].status
                        &&& final (self).inputs@[j].stream.dest == old(self).inputs@[j].stream.dest
                        &&& final (self).inputs@[j].stream.schema == old(self).inputs@[j].stream.schema
                        &&& (old(self).inputs@[j].status is Removed ==> final (self).inputs@[j]
                            == old(self).inputs@[j])
                        &&& (!(old(self).inputs@[j].status is Removed) ==> final (self).inputs@[j].stream.buffer@ == Seq::<ZEntryV>::empty())
                    }
            }),
    {
        if self.state == PipelineState::Terminating || self.state == PipelineState::Terminated {
            return Err(ControllerError::pipeline_terminating());
        }
        if self.state == PipelineState::Initializing || self.state == PipelineState::Paused {
            return Ok(false);
        }
        let ns = self.circuit.streams.len();
        let ne = self.inputs.len();
        let mut total: i128 = 0;
        for si in 0..ns
            invariant
                ns == self.circuit.streams@.len(),
                old(self).wf(),
                old(self).state is Running,
                *self == *old(self),
                total == pending_mass(self.circuit.streams@, si as int),
                0 <= total <= i64::MAX as i128,
        {
            proof {
                assert((old(self).circuit.streams@[si as int]).pending.wf());
                crate::zset::lemma_l1_nonneg(self.circuit.streams@[si as int].pending@);
                lemma_pending_mass_nonneg(self.circuit.streams@, si as int);
            }
            let m = self.circuit.streams[si].pending.mass();
            let next: i128 = total + m as i128;
            if next > i64::MAX as i128 {
                proof {
                    lemma_buffered_mass_nonneg(self.inputs@, self.inputs@.len() as int);
                    lemma_pending_mass_at_least(self.circuit.streams@, ns as int, si + 1);
                }
                return Err(ControllerError::dbsp_error("MassLimitExceeded"));
            }
            total = next;
        }
        for ei in 0..ne
            invariant
                ns == self.circuit.streams@.len(),
                ne == self.inputs@.len(),
                old(self).wf(),
                old(self).state is Running,
                *self == *old(self),
                total == pending_mass(self.circuit.streams@, ns as int) + buffered_mass(
                    self.inputs@,
                    ei as int,
                ),
                0 <= total <= i64::MAX as i128,
        {
            proof {
                assert((old(self).inputs@[ei as int]).stream.wf());
                crate::zset::lemma_l1_nonneg(self.inputs@[ei as int].stream.buffer@);
            }
            let m: i128 = if self.inputs[ei].status == EndpointRuntimeState::Removed {
                0
            } else {
                self.inputs[ei].stream.buffer.mass() as i128
            };
            let next: i128 = total + m;
            if next > i64::MAX as i128 {
                proof {
                    lemma_buffered_mass_mono(self.inputs@, ei + 1, ne as int);
                }
                return Err(ControllerError::dbsp_error("MassLimitExceeded"));
            }
            total = next;
        }
        // From here on the flushes mutate the controller; the mass
        // bound just checked keeps every addition in range.
        for idx in 0..ne
            invariant
                ns == self.circuit.streams@.len() == old(self).circuit.streams@.len(),
                ne == self.inputs@.len() == old(self).inputs@.len(),
                old(self).wf(),
                old(self).state is Running,
                old(self).step_mass_fits(),
                self.state == old(self).state,
                self.outputs == old(self).outputs,
                self.stop_on_fatal_input == old(self).stop_on_fatal_input,
                self.stop_on_fatal_output == old(self).stop_on_fatal_output,
                self.circuit.killed == old(self).circuit.killed,
                forall|j: int|
                    0 <= j < ne ==> {
                        &&& (#[trigger] self.inputs@[j]).name == old(self).inputs@[j].name
                        &&& self.inputs@[j].transport == old(self).inputs@[j].transport
                        &&& self.inputs@[j].format == old(self).inputs@[j].format
                        &&& self.inputs@[j].status == old(self).inputs@[j].status
                        &&& self.inputs@[j].stream.dest == old(self).inputs@[j].stream.dest
                        &&& self.inputs@[j].stream.schema == old(self).inputs@[j].stream.schema
                        &&& self.inputs@[j].stream.wf()
                    },
                forall|j: int| idx <= j < ne ==> self.inputs@[j] == old(self).inputs@[j],
                forall|j: int|
                    0 <= j < idx ==> {
                        &&& (old(self).inputs@[j].status is Removed ==> (#[trigger] self.inputs@[j])
                            == old(self).inputs@[j])
                        &&& (!(old(self).inputs@[j].status is Removed)
                            ==> self.inputs@[j].stream.buffer@ == Seq::<ZEntryV>::empty())
                    },
                forall|j: int|
                    0 <= j < ns ==> {
                        &&& (#[trigger] self.circuit.streams@[j]).name == old(self).circuit.streams@[j].name
                        &&& self.circuit.streams@[j].schema == old(self).circuit.streams@[j].schema
                        &&& self.circuit.streams@[j].delta == old(self).circuit.streams@[j].delta
                        &&& self.circuit.streams@[j].pending.wf()
                        &&& forall|k: Seq<ValueV>|
                            #[trigger] weight_of(self.circuit.streams@[j].pending@, k)
                                == weight_of(old(self).circuit.streams@[j].pending@, k)
                                + flushed_weight(
                                old(self).inputs@,
                                old(self).circuit.streams@[j].name@,
                                k,
                                idx as int,
                            )
                    },
                pending_mass(self.circuit.streams@, ns as int) <= pending_mass(
                    old(self).circuit.streams@,
                    ns as int,
                ) + buffered_mass(old(self).inputs@, idx as int),
        {
            if !(self.inputs[idx].status == EndpointRuntimeState::Removed) {
                let ghost pre = *self;
                let di = match self.circuit.find_stream(self.inputs[idx].stream.dest.as_str()) {
                    Some(di) => di,
                    None => {
                        proof {
                            assert(old(self).circuit.has_stream(
                                old(self).inputs@[idx as int].stream.dest@,
                            ));
                            let w = choose|w: int|
                                0 <= w < old(self).circuit.streams@.len() && (#[trigger] old(self).circuit.streams@[w]).name@ == old(self).inputs@[idx as int].stream.dest@;
                            assert((self.circuit.streams@[w]).name@
                                == self.inputs@[idx as int].stream.dest@);
                            assert(false);
                        }
                        0
                    },
                };
                proof {
                    crate::zset::lemma_l1_nonneg(self.inputs@[idx as int].stream.buffer@);
                    crate::zset::lemma_l1_nonneg(self.circuit.streams@[di as int].pending@);
                    lemma_pending_mass_element(self.circuit.streams@, ns as int, di as int);
                    lemma_pending_mass_nonneg(old(self).circuit.streams@, ns as int);
                    lemma_buffered_mass_nonneg(old(self).inputs@, idx as int);
                    lemma_buffered_mass_mono(old(self).inputs@, idx + 1, ne as int);
                    assert(buffered_mass(old(self).inputs@, idx + 1) == buffered_mass(
                        old(self).inputs@,
                        idx as int,
                    ) + l1_norm(old(self).inputs@[idx as int].stream.buffer@));
                    assert(self.inputs@[idx as int] == old(self).inputs@[idx as int]);
                }
                let ep = &mut self.inputs[idx];
                ep.stream.flush(&mut self.circuit.streams[di].pending);
                proof {
                    lemma_flush_step(
                        pre,
                        *self,
                        *old(self),
                        idx as int,
                        di as int,
                        ns as int,
                        ne as int,
                    );
                }
            } else {
                proof {
                    assert forall|j: int|
                        #![trigger self.circuit.streams@[j]]
                        0 <= j < ns implies forall|k: Seq<ValueV>|
                        #[trigger] weight_of(self.circuit.streams@[j].pending@, k) == weight_of(
                            old(self).circuit.streams@[j].pending@,
                            k,
                        ) + flushed_weight(
                            old(self).inputs@,
                            old(self).circuit.streams@[j].name@,
                            k,
                            idx + 1,
                        ) by {
                        assert(self.circuit.streams@[j].name == old(self).circuit.streams@[j].name);
                    }
                }
            }
        }
        let stepped = self.circuit.step();
        proof {
            assert(stepped);
            assert forall|p: int|
                0 <= p < self.inputs@.len() implies (#[trigger] self.inputs@[p]).stream.wf()
                && self.circuit.has_stream(self.inputs@[p].stream.dest@) by {
                assert(old(self).circuit.has_stream(old(self).inputs@[p].stream.dest@));
                let w = choose|w: int|
                    0 <= w < old(self).circuit.streams@.len() && (#[trigger] old(self).circuit.streams@[w]).name@ == old(self).inputs@[p].stream.dest@;
                assert((self.circuit.streams@[w]).name@ == self.inputs@[p].stream.dest@);
            }
            assert forall|p: int|
                0 <= p < self.outputs@.len() implies self.circuit.has_stream(
                (#[trigger] self.outputs@[p]).stream_name@,
            ) by {
                assert(old(self).circuit.has_stream(old(self).outputs@[p].stream_name@));
                let w = choose|w: int|
                    0 <= w < old(self).circuit.streams@.len() && (#[trigger] old(self).circuit.streams@[w]).name@ == old(self).outputs@[p].stream_name@;
                assert((self.circuit.streams@[w]).name@ == old(self).outputs@[p].stream_name@);
            }
            assert forall|p: int, q: int|
                0 <= p < q < self.inputs@.len() implies self.inputs@[p].name@
                != self.inputs@[q].name@ by {
                assert(self.inputs@[p].name == old(self).inputs@[p].name);
                assert(self.inputs@[q].name == old(self).inputs@[q].name);
            }
        }
        Ok(true)
    }
}

impl Controller {
    /// The egress read for one output endpoint: a copy of the
    /// consolidated delta its stream produced in the last step.
    pub fn consolidate_output(&self, endpoint_name: &str) -> (r: Result<ZSet, ControllerError>)
        requires
            self.wf(),
        ensures
            self.shutting_down() ==> r matches Err(ControllerError::PipelineTerminating),
            !self.shutting_down() && !self.has_output(endpoint_name@) ==> (r matches Err(
                ControllerError::OutputTransportError { endpoint_name: n, fatal: f, error: er },
            ) && n@ == endpoint_name@ && !f && er@ == "unknown output endpoint"@),
            !self.shutting_down() && self.has_output(endpoint_name@) ==> exists|i: int|
                #![trigger self.outputs@[i]]
                {
                    &&& 0 <= i < self.outputs@.len()
                    &&& self.outputs@[i].name@ == endpoint_name@
                    &&& (self.outputs@[i].status is Removed ==> (r matches Err(
                        ControllerError::OutputTransportError {
                            endpoint_name: n,
                            fatal: f,
                            error: er,
                        },
                    ) && n@ == endpoint_name@ && !f && er@ == "output endpoint removed"@))
                    &&& (!(self.outputs@[i].status is Removed) ==> (r matches Ok(z) && exists|
                        w: int,
                    |
                        0 <= w < self.circuit.streams@.len() && (
                        #[trigger] self.circuit.streams@[w]).name@ == self.outputs@[i].stream_name@
                            && z@ == self.circuit.streams@[w].delta@))
                },
    {
        if self.state == PipelineState::Terminating || self.state == PipelineState::Terminated {
            return Err(ControllerError::pipeline_terminating());
        }
        let i = match self.find_output(endpoint_name) {
            Some(i) => i,
            None => {
                return Err(
                    ControllerError::output_transport_error(
                        endpoint_name,
                        false,
                        "unknown output endpoint",
                    ),
                );
            },
        };
        if self.outputs[i].status == EndpointRuntimeState::Removed {
            return Err(
                ControllerError::output_transport_error(
                    endpoint_name,
                    false,
                    "output endpoint removed",
                ),
            );
        }
        let w = match self.circuit.find_stream(self.outputs[i].stream_name.as_str()) {
            Some(w) => w,
            None => {
                proof {
                    assert(self.circuit.has_stream(self.outputs@[i as int].stream_name@));
                    assert(false);
                }
                0
            },
        };
        proof {
            assert((self.outputs@[i as int]).name@ == endpoint_name@);
        }
        Ok(self.circuit.consolidate(w))
    }
}

/// One endpoint of a whole-pipeline configuration.
#[derive(Debug)]
pub struct EndpointConfig {
    pub name: String,
    pub direction: Direction,
    pub transport: String,
    pub format: String,
    pub stream: String,
}

/// The model of an [`EndpointConfig`].
pub struct EndpointConfigV {
    pub name: Seq<char>,
    pub direction: Direction,
    pub transport: Seq<char>,
    pub format: Seq<char>,
    pub stream: Seq<char>,
}

impl View for EndpointConfig {
    type V = EndpointConfigV;

    open spec fn view(&self) -> EndpointConfigV {
        EndpointConfigV {
            name: self.name@,
            direction: self.direction,
            transport: self.transport@,
            format: self.format@,
            stream: self.stream@,
        }
    }
}

impl DeepView for EndpointConfig {
    type V = EndpointConfigV;

    open spec fn deep_view(&self) -> EndpointConfigV {
        self@
    }
}

/// An earlier entry of the batch already claims this direction and
/// name.
pub open spec fn batch_dup(
    cfgs: Seq<EndpointConfigV>,
    upto: int,
    dir: Direction,
    name: Seq<char>,
) -> bool {
    exists|j: int|
        0 <= j < upto && (#[trigger] cfgs[j]).direction == dir && cfgs[j].name == name
}

/// How many of the first `n` entries are input endpoints.
pub open spec fn count_inputs(cfgs: Seq<EndpointConfigV>, n: int) -> int
    decreases n,
{
    if n <= 0 {
        0
    } else {
        count_inputs(cfgs, n - 1) + if cfgs[n - 1].direction is Input {
            1int
        } else {
            0int
        }
    }
}

/// How many of the first `n` entries are output endpoints.
pub open spec fn count_outputs(cfgs: Seq<EndpointConfigV>, n: int) -> int
    decreases n,
{
    if n <= 0 {
        0
    } else {
        count_outputs(cfgs, n - 1) + if cfgs[n - 1].direction is Output {
            1int
        } else {
            0int
        }
    }
}

/// The registered endpoint a batch entry must have produced.
pub open spec fn input_matches_config(ep: InputEndpoint, c: EndpointConfigV) -> bool {
    &&& ep.name@ == c.name
    &&& ep.transport@ == c.transport
    &&& ep.format == RecordFormat::Json
    &&& ep.status == EndpointRuntimeState::Active
    &&& ep.stream.dest@ == c.stream
    &&& ep.stream.buffer@ == Seq::<ZEntryV>::empty()
}

pub open spec fn output_matches_config(ep: OutputEndpoint, c: EndpointConfigV) -> bool {
    &&& ep.name@ == c.name
    &&& ep.transport@ == c.transport
    &&& ep.format == RecordFormat::Json
    &&& ep.status == EndpointRuntimeState::Active
    &&& ep.stream_name@ == c.stream
}

impl Controller {
    /// Entry `i` of a batch passes validation against this controller
    /// and the entries before it.
    pub open spec fn config_admissible(self, cfgs: Seq<EndpointConfigV>, i: int) -> bool {
        let c = cfgs[i];
        &&& (c.direction is Input ==> !self.has_input(c.name))
        &&& (c.direction is Output ==> !self.has_output(c.name))
        &&& !batch_dup(cfgs, i, c.direction, c.name)
        &&& known_transport(c.transport)
        &&& format_of(c.format) == Some(RecordFormat::Json)
        &&& self.circuit.has_stream(c.stream)
    }

    /// The error that rejecting entry `i` must carry, following the
    /// order of the checks.
    pub open spec fn config_error_matches(
        self,
        cfgs: Seq<EndpointConfigV>,
        i: int,
        e: ControllerError,
    ) -> bool {
        let c = cfgs[i];
        if c.direction is Input {
            if self.has_input(c.name) || batch_dup(cfgs, i, Direction::Input, c.name) {
                e matches ControllerError::Config {
                    config_error: ConfigError::DuplicateInputEndpoint { endpoint_name },
                } && endpoint_name@ == c.name
            } else if !known_transport(c.transport) {
                e matches ControllerError::Config {
                    config_error: ConfigError::UnknownInputTransport { transport_name },
                } && transport_name@ == c.transport
            } else if format_of(c.format) != Some(RecordFormat::Json) {
                e matches ControllerError::Config {
                    config_error: ConfigError::UnknownInputFormat { format_name },
                } && format_name@ == c.format
            } else {
                e matches ControllerError::Config {
                    config_error: ConfigError::UnknownInputStream { stream_name },
                } && stream_name@ == c.stream
            }
        } else {
            if self.has_output(c.name) || batch_dup(cfgs, i, Direction::Output, c.name) {
                e matches ControllerError::Config {
                    config_error: ConfigError::DuplicateOutputEndpoint { endpoint_name },
                } && endpoint_name@ == c.name
            } else if !known_transport(c.transport) {
                e matches ControllerError::Config {
                    config_error: ConfigError::UnknownOutputTransport { transport_name },
                } && transport_name@ == c.transport
            } else if format_of(c.format) != Some(RecordFormat::Json) {
                e matches ControllerError::Config {
                    config_error: ConfigError::UnknownOutputFormat { format_name },
                } && format_name@ == c.format
            } else {
                e matches ControllerError::Config {
                    config_error: ConfigError::UnknownOutputStream { stream_name },
                } && stream_name@ == c.stream
            }
        }
    }

    /// Register a whole pipeline configuration atomically: either every
    /// endpoint of the batch is registered, or the first entry that
    /// fails validation is reported and the registry is exactly as it
    /// was -- a caller never observes a partially applied
    /// configuration.
    #[verifier::rlimit(100)]
    pub fn register_config(&mut self, cfgs: &Vec<EndpointConfig>) -> (r: Result<
        (),
        ControllerError,
    >)
        requires
            old(self).wf(),
        ensures
            final (self).wf(),
            final (self).state == old(self).state,
            final (self).circuit == old(self).circuit,
            final (self).stop_on_fatal_input == old(self).stop_on_fatal_input,
            final (self).stop_on_fatal_output == old(self).stop_on_fatal_output,
            old(self).shutting_down() ==> (r matches Err(ControllerError::PipelineTerminating)
                && *final (self) == *old(self)),
            !old(self).shutting_down() ==> match r {
                Ok(()) => {
                    &&& forall|i: int|
                        0 <= i < cfgs.deep_view().len() ==> old(self).config_admissible(
                            cfgs.deep_view(),
                            i,
                        )
                    &&& final (self).inputs@.len() == old(self).inputs@.len() + count_inputs(
                        cfgs.deep_view(),
                        cfgs.deep_view().len() as int,
                    )
                    &&& final (self).outputs@.len() == old(self).outputs@.len() + count_outputs(
                        cfgs.deep_view(),
                        cfgs.deep_view().len() as int,
                    )
                    &&& forall|p: int|
                        0 <= p < old(self).inputs@.len() ==> final (self).inputs@[p] == old(
                            self,
                        ).inputs@[p]
                    &&& forall|p: int|
                        0 <= p < old(self).outputs@.len() ==> final (self).outputs@[p] == old(
                            self,
                        ).outputs@[p]
                    &&& forall|i: int|
                        0 <= i < cfgs.deep_view().len() && (#[trigger] cfgs.deep_view()[i]).direction
                            is Input ==> input_matches_config(
                            final (self).inputs@[old(self).inputs@.len() + count_inputs(
                                cfgs.deep_view(),
                                i,
                            )],
                            cfgs.deep_view()[i],
                        )
                    &&& forall|i: int|
                        0 <= i < cfgs.deep_view().len() && (#[trigger] cfgs.deep_view()[i]).direction
                            is Output ==> output_matches_config(
                            final (self).outputs@[old(self).outputs@.len() + count_outputs(
                                cfgs.deep_view(),
                                i,
                            )],
                            cfgs.deep_view()[i],
                        )
                },
                Err(e) => {
                    &&& *final (self) == *old(self)
                    &&& exists|i: int|
                        0 <= i < cfgs.deep_view().len() && (forall|j: int|
                            0 <= j < i ==> old(self).config_admissible(cfgs.deep_view(), j))
                            && !old(self).config_admissible(cfgs.deep_view(), i) && old(
                            self,
                        ).config_error_matches(cfgs.deep_view(), i, e)
                },
            },
    {
        if self.state == PipelineState::Terminating || self.state == PipelineState::Terminated {
            return Err(ControllerError::pipeline_terminating());
        }
        let n = cfgs.len();
        // Validation pass: nothing is registered until every entry of
        // the batch has passed.
        for i in 0..n
            invariant
                n == cfgs.deep_view().len(),
                old(self).wf(),
                !old(self).shutting_down(),
                *self == *old(self),
                forall|j: int| 0 <= j < i ==> old(self).config_admissible(cfgs.deep_view(), j),
        {
            let c = &cfgs[i];
            let is_input = c.direction == Direction::Input;
            let dup_here = if is_input {
                self.find_input(c.name.as_str()).is_some()
            } else {
                self.find_output(c.name.as_str()).is_some()
            };
            let mut dup_batch = false;
            for j in 0..i
                invariant
                    n == cfgs.deep_view().len(),
                    i < n,
                    dup_batch == batch_dup(
                        cfgs.deep_view(),
                        j as int,
                        cfgs.deep_view()[i as int].direction,
                        cfgs.deep_view()[i as int].name,
                    ),
            {
                if cfgs[j].direction == cfgs[i].direction && cfgs[j].name == cfgs[i].name {
                    dup_batch = true;
                    proof {
                        assert((cfgs.deep_view()[j as int]).direction
                            == cfgs.deep_view()[i as int].direction);
                        assert((cfgs.deep_view()[j as int]).name
                            == cfgs.deep_view()[i as int].name);
                    }
                } else {
                    proof {
                        assert(dup_batch == batch_dup(
                            cfgs.deep_view(),
                            j + 1,
                            cfgs.deep_view()[i as int].direction,
                            cfgs.deep_view()[i as int].name,
                        )) by {
                            if batch_dup(
                                cfgs.deep_view(),
                                j + 1,
                                cfgs.deep_view()[i as int].direction,
                                cfgs.deep_view()[i as int].name,
                            ) {
                                let p = choose|p: int|
                                    0 <= p < j + 1 && (#[trigger] cfgs.deep_view()[p]).direction
                                        == cfgs.deep_view()[i as int].direction
                                        && cfgs.deep_view()[p].name
                                        == cfgs.deep_view()[i as int].name;
                                if p < j {
                                    assert(batch_dup(
                                        cfgs.deep_view(),
                                        j as int,
                                        cfgs.deep_view()[i as int].direction,
                                        cfgs.deep_view()[i as int].name,
                                    ));
                                }
                            }
                        }
                    }
                }
            }
            proof {
                assert(cfgs.deep_view()[i as int] == (cfgs@[i as int])@);
            }
            if dup_here || dup_batch {
                let e = if is_input {
                    ControllerError::duplicate_input_endpoint(c.name.as_str())
                } else {
                    ControllerError::duplicate_output_endpoint(c.name.as_str())
                };
                proof {
                    assert(!old(self).config_admissible(cfgs.deep_view(), i as int));
                    assert(old(self).config_error_matches(cfgs.deep_view(), i as int, e));
                }
                return Err(e);
            }
            if !is_known_transport(c.transport.as_str()) {
                let e = if is_input {
                    ControllerError::unknown_input_transport(c.transport.as_str())
                } else {
                    ControllerError::unknown_output_transport(c.transport.as_str())
                };
                proof {
                    assert(!old(self).config_admissible(cfgs.deep_view(), i as int));
                    assert(old(self).config_error_matches(cfgs.deep_view(), i as int, e));
                }
                return Err(e);
            }
            let format_ok = match parse_format(c.format.as_str()) {
                Some(RecordFormat::Json) => true,
                _ => false,
            };
            if !format_ok {
                let e = if is_input {
                    ControllerError::unknown_input_format(c.format.as_str())
                } else {
                    ControllerError::unknown_output_format(c.format.as_str())
                };
                proof {
                    assert(!old(self).config_admissible(cfgs.deep_view(), i as int));
                    assert(old(self).config_error_matches(cfgs.deep_view(), i as int, e));
                }
                return Err(e);
            }
            if !self.circuit.catalog_has(c.stream.as_str()) {
                let e = if is_input {
                    ControllerError::unknown_input_stream(c.stream.as_str())
                } else {
                    ControllerError::unknown_output_stream(c.stream.as_str())
                };
                proof {
                    assert(!old(self).config_admissible(cfgs.deep_view(), i as int));
                    assert(old(self).config_error_matches(cfgs.deep_view(), i as int, e));
                }
                return Err(e);
            }
            proof {
                assert(old(self).config_admissible(cfgs.deep_view(), i as int));
            }
        }
        // Application pass: every entry was admissible, so each
        // registration below succeeds.
        for i in 0..n
            invariant
                n == cfgs.deep_view().len(),
                old(self).wf(),
                !old(self).shutting_down(),
                self.wf(),
                self.state == old(self).state,
                self.circuit == old(self).circuit,
                self.stop_on_fatal_input == old(self).stop_on_fatal_input,
                self.stop_on_fatal_output == old(self).stop_on_fatal_output,
                forall|j: int| 0 <= j < n ==> old(self).config_admissible(cfgs.deep_view(), j),
                self.inputs@.len() == old(self).inputs@.len() + count_inputs(
                    cfgs.deep_view(),
                    i as int,
                ),
                self.outputs@.len() == old(self).outputs@.len() + count_outputs(
                    cfgs.deep_view(),
                    i as int,
                ),
                forall|p: int|
                    0 <= p < old(self).inputs@.len() ==> self.inputs@[p] == old(self).inputs@[p],
                forall|p: int|
                    0 <= p < old(self).outputs@.len() ==> self.outputs@[p] == old(
                        self,
                    ).outputs@[p],
                forall|j: int|
                    0 <= j < i && (#[trigger] cfgs.deep_view()[j]).direction is Input
                        ==> input_matches_config(
                        self.inputs@[old(self).inputs@.len() + count_inputs(cfgs.deep_view(), j)],
                        cfgs.deep_view()[j],
                    ),
                forall|j: int|
                    0 <= j < i && (#[trigger] cfgs.deep_view()[j]).direction is Output
                        ==> output_matches_config(
                        self.outputs@[old(self).outputs@.len() + count_outputs(
                            cfgs.deep_view(),
                            j,
                        )],
                        cfgs.deep_view()[j],
                    ),
                forall|m: Seq<char>|
                    #[trigger] self.has_input(m) <==> (old(self).has_input(m) || batch_dup(
                        cfgs.deep_view(),
                        i as int,
                        Direction::Input,
                        m,
                    )),
                forall|m: Seq<char>|
                    #[trigger] self.has_output(m) <==> (old(self).has_output(m) || batch_dup(
                        cfgs.deep_view(),
                        i as int,
                        Direction::Output,
                        m,
                    )),
        {
            let c = &cfgs[i];
            let ghost pre = *self;
            proof {
                assert(old(self).config_admissible(cfgs.deep_view(), i as int));
            }
            if c.direction == Direction::Input {
                proof {
                    assert(!pre.has_input(cfgs.deep_view()[i as int].name)) by {
                        if pre.has_input(cfgs.deep_view()[i as int].name) {
                            assert(old(self).has_input(cfgs.deep_view()[i as int].name)
                                || batch_dup(
                                cfgs.deep_view(),
                                i as int,
                                Direction::Input,
                                cfgs.deep_view()[i as int].name,
                            ));
                        }
                    }
                }
                let res = self.register_input(
                    c.name.as_str(),
                    c.transport.as_str(),
                    c.format.as_str(),
                    c.stream.as_str(),
                );
                proof {
                    assert(res is Ok);
                    lemma_counts_nonneg(cfgs.deep_view(), i as int);
                    lemma_register_config_step_input(
                        pre,
                        *self,
                        cfgs.deep_view(),
                        i as int,
                        *old(self),
                    );
                    assert forall|p: int|
                        0 <= p < old(self).inputs@.len() implies self.inputs@[p] == old(
                        self,
                    ).inputs@[p] by {
                        assert(self.inputs@[p] == pre.inputs@[p]);
                    }
                    assert forall|j: int|
                        0 <= j < i + 1 && (#[trigger] cfgs.deep_view()[j]).direction
                            is Input implies input_matches_config(
                        self.inputs@[old(self).inputs@.len() + count_inputs(cfgs.deep_view(), j)],
                        cfgs.deep_view()[j],
                    ) by {
                        if j < i {
                            lemma_counts_mono(cfgs.deep_view(), j + 1, i as int);
                            lemma_counts_nonneg(cfgs.deep_view(), j);
                            assert(count_inputs(cfgs.deep_view(), j + 1) == count_inputs(
                                cfgs.deep_view(),
                                j,
                            ) + 1);
                            assert(self.inputs@[old(self).inputs@.len() + count_inputs(
                                cfgs.deep_view(),
                                j,
                            )] == pre.inputs@[old(self).inputs@.len() + count_inputs(
                                cfgs.deep_view(),
                                j,
                            )]);
                        }
                    }
                    assert forall|j: int|
                        0 <= j < i + 1 && (#[trigger] cfgs.deep_view()[j]).direction
                            is Output implies output_matches_config(
                        self.outputs@[old(self).outputs@.len() + count_outputs(
                            cfgs.deep_view(),
                            j,
                        )],
                        cfgs.deep_view()[j],
                    ) by {
                        assert(self.outputs == pre.outputs);
                    }
                }
            } else {
                proof {
                    assert(!pre.has_output(cfgs.deep_view()[i as int].name)) by {
                        if pre.has_output(cfgs.deep_view()[i as int].name) {
                            assert(old(self).has_output(cfgs.deep_view()[i as int].name)
                                || batch_dup(
                                cfgs.deep_view(),
                                i as int,
                                Direction::Output,
                                cfgs.deep_view()[i as int].name,
                            ));
                        }
                    }
                }
                let res = self.register_output(
                    c.name.as_str(),
                    c.transport.as_str(),
                    c.format.as_str(),
                    c.stream.as_str(),
                );
                proof {
                    assert(res is Ok);
                    lemma_counts_nonneg(cfgs.deep_view(), i as int);
                    lemma_register_config_step_output(
                        pre,
                        *self,
                        cfgs.deep_view(),
                        i as int,
                        *old(self),
                    );
                    assert forall|p: int|
                        0 <= p < old(self).outputs@.len() implies self.outputs@[p] == old(
                        self,
                    ).outputs@[p] by {
                        assert(self.outputs@[p] == pre.outputs@[p]);
                    }
                    assert forall|j: int|
                        0 <= j < i + 1 && (#[trigger] cfgs.deep_view()[j]).direction
                            is Output implies output_matches_config(
                        self.outputs@[old(self).outputs@.len() + count_outputs(
                            cfgs.deep_view(),
                            j,
                        )],
                        cfgs.deep_view()[j],
                    ) by {
                        if j < i {
                            lemma_counts_mono(cfgs.deep_view(), j + 1, i as int);
                            lemma_counts_nonneg(cfgs.deep_view(), j);
                            assert(count_outputs(cfgs.deep_view(), j + 1) == count_outputs(
                                cfgs.deep_view(),
                                j,
                            ) + 1);
                            assert(self.outputs@[old(self).outputs@.len() + count_outputs(
                                cfgs.deep_view(),
                                j,
                            )] == pre.outputs@[old(self).outputs@.len() + count_outputs(
                                cfgs.deep_view(),
                                j,
                            )]);
                        }
                    }
                    assert forall|j: int|
                        0 <= j < i + 1 && (#[trigger] cfgs.deep_view()[j]).direction
                            is Input implies input_matches_config(
                        self.inputs@[old(self).inputs@.len() + count_inputs(cfgs.deep_view(), j)],
                        cfgs.deep_view()[j],
                    ) by {
                        assert(self.inputs == pre.inputs);
                    }
                }
            }
        }
        Ok(())
    }
}

proof fn lemma_counts_nonneg(cfgs: Seq<EndpointConfigV>, n: int)
    ensures
        count_inputs(cfgs, n) >= 0,
        count_outputs(cfgs, n) >= 0,
    decreases n,
{
    if n > 0 {
        lemma_counts_nonneg(cfgs, n - 1);
    }
}

proof fn lemma_counts_mono(cfgs: Seq<EndpointConfigV>, a: int, b: int)
    requires
        a <= b,
    ensures
        count_inputs(cfgs, a) <= count_inputs(cfgs, b),
        count_outputs(cfgs, a) <= count_outputs(cfgs, b),
    decreases b - a,
{
    if a < b {
        lemma_counts_mono(cfgs, a, b - 1);
    }
}

/// Carries the application-pass invariants across registering one
/// input entry of the batch.
proof fn lemma_register_config_step_input(
    pre: Controller,
    cur: Controller,
    cfgs: Seq<EndpointConfigV>,
    i: int,
    orig: Controller,
)
    requires
        0 <= i < cfgs.len(),
        cfgs[i].direction is Input,
        cur.outputs == pre.outputs,
        cur.inputs@.len() == pre.inputs@.len() + 1,
        forall|p: int| 0 <= p < pre.inputs@.len() ==> cur.inputs@[p] == pre.inputs@[p],
        cur.inputs@.last().name@ == cfgs[i].name,
        cur.inputs@.last().transport@ == cfgs[i].transport,
        cur.inputs@.last().format == RecordFormat::Json,
        cur.inputs@.last().status == EndpointRuntimeState::Active,
        cur.inputs@.last().stream.dest@ == cfgs[i].stream,
        cur.inputs@.last().stream.buffer@ == Seq::<ZEntryV>::empty(),
        pre.inputs@.len() == orig.inputs@.len() + count_inputs(cfgs, i),
        forall|m: Seq<char>|
            #[trigger] pre.has_input(m) <==> (orig.has_input(m) || batch_dup(
                cfgs,
                i,
                Direction::Input,
                m,
            )),
        forall|m: Seq<char>|
            #[trigger] pre.has_output(m) <==> (orig.has_output(m) || batch_dup(
                cfgs,
                i,
                Direction::Output,
                m,
            )),
    ensures
        cur.inputs@.len() == orig.inputs@.len() + count_inputs(cfgs, i + 1),
        cur.outputs@.len() == pre.outputs@.len() + count_outputs(cfgs, i + 1) - count_outputs(
            cfgs,
            i,
        ),
        input_matches_config(cur.inputs@[orig.inputs@.len() + count_inputs(cfgs, i)], cfgs[i]),
        forall|m: Seq<char>|
            #[trigger] cur.has_input(m) <==> (orig.has_input(m) || batch_dup(
                cfgs,
                i + 1,
                Direction::Input,
                m,
            )),
        forall|m: Seq<char>|
            #[trigger] cur.has_output(m) <==> (orig.has_output(m) || batch_dup(
                cfgs,
                i + 1,
                Direction::Output,
                m,
            )),
{
    assert(count_inputs(cfgs, i + 1) == count_inputs(cfgs, i) + 1);
    assert(count_outputs(cfgs, i + 1) == count_outputs(cfgs, i));
    assert(cur.inputs@[orig.inputs@.len() + count_inputs(cfgs, i)] == cur.inputs@.last());
    assert forall|m: Seq<char>|
        #[trigger] cur.has_input(m) <==> (orig.has_input(m) || batch_dup(
            cfgs,
            i + 1,
            Direction::Input,
            m,
        )) by {
        if cur.has_input(m) {
            let p = choose|p: int|
                0 <= p < cur.inputs@.len() && (#[trigger] cur.inputs@[p]).name@ == m;
            if p < pre.inputs@.len() {
                assert(pre.inputs@[p].name@ == m);
                assert(pre.has_input(m));
            } else {
                assert(m == cfgs[i].name);
                assert((cfgs[i]).direction == Direction::Input && cfgs[i].name == m);
                assert(batch_dup(cfgs, i + 1, Direction::Input, m));
            }
        }
        if orig.has_input(m) {
            assert(pre.has_input(m));
            let p = choose|p: int|
                0 <= p < pre.inputs@.len() && (#[trigger] pre.inputs@[p]).name@ == m;
            assert(cur.inputs@[p].name@ == m);
        }
        if batch_dup(cfgs, i + 1, Direction::Input, m) {
            let q = choose|q: int|
                0 <= q < i + 1 && (#[trigger] cfgs[q]).direction == Direction::Input && cfgs[q].name
                    == m;
            if q < i {
                assert(batch_dup(cfgs, i, Direction::Input, m));
                assert(pre.has_input(m));
                let p = choose|p: int|
                    0 <= p < pre.inputs@.len() && (#[trigger] pre.inputs@[p]).name@ == m;
                assert(cur.inputs@[p].name@ == m);
            } else {
                assert(cur.inputs@.last().name@ == m);
                assert(cur.inputs@[cur.inputs@.len() - 1].name@ == m);
            }
        }
    }
    assert forall|m: Seq<char>|
        #[trigger] cur.has_output(m) <==> (orig.has_output(m) || batch_dup(
            cfgs,
            i + 1,
            Direction::Output,
            m,
        )) by {
        assert(cur.outputs == pre.outputs);
        assert(cur.has_output(m) == pre.has_output(m)) by {
            if cur.has_output(m) {
                let p = choose|p: int|
                    0 <= p < cur.outputs@.len() && (#[trigger] cur.outputs@[p]).name@ == m;
                assert(pre.outputs@[p].name@ == m);
            }
            if pre.has_output(m) {
                let p = choose|p: int|
                    0 <= p < pre.outputs@.len() && (#[trigger] pre.outputs@[p]).name@ == m;
                assert(cur.outputs@[p].name@ == m);
            }
        }
        assert(batch_dup(cfgs, i + 1, Direction::Output, m) == batch_dup(
            cfgs,
            i,
            Direction::Output,
            m,
        )) by {
            if batch_dup(cfgs, i + 1, Direction::Output, m) {
                let q = choose|q: int|
                    0 <= q < i + 1 && (#[trigger] cfgs[q]).direction == Direction::Output
                        && cfgs[q].name == m;
                if q == i {
                    assert(cfgs[i].direction is Input);
                    assert(false);
                }
                assert(batch_dup(cfgs, i, Direction::Output, m));
            }
            if batch_dup(cfgs, i, Direction::Output, m) {
                let q = choose|q: int|
                    0 <= q < i && (#[trigger] cfgs[q]).direction == Direction::Output
                        && cfgs[q].name == m;
                assert(batch_dup(cfgs, i + 1, Direction::Output, m));
            }
        }
    }
}

/// Carries the application-pass invariants across registering one
/// output entry of the batch.
proof fn lemma_register_config_step_output(
    pre: Controller,
    cur: Controller,
    cfgs: Seq<EndpointConfigV>,
    i: int,
    orig: Controller,
)
    requires
        0 <= i < cfgs.len(),
        cfgs[i].direction is Output,
        cur.inputs == pre.inputs,
        cur.outputs@.len() == pre.outputs@.len() + 1,
        forall|p: int| 0 <= p < pre.outputs@.len() ==> cur.outputs@[p] == pre.outputs@[p],
        cur.outputs@.last().name@ == cfgs[i].name,
        cur.outputs@.last().transport@ == cfgs[i].transport,
        cur.outputs@.last().format == RecordFormat::Json,
        cur.outputs@.last().status == EndpointRuntimeState::Active,
        cur.outputs@.last().stream_name@ == cfgs[i].stream,
        pre.outputs@.len() == orig.outputs@.len() + count_outputs(cfgs, i),
        forall|m: Seq<char>|
            #[trigger] pre.has_input(m) <==> (orig.has_input(m) || batch_dup(
                cfgs,
                i,
                Direction::Input,
                m,
            )),
        forall|m: Seq<char>|
            #[trigger] pre.has_output(m) <==> (orig.has_output(m) || batch_dup(
                cfgs,
                i,
                Direction::Output,
                m,
            )),
    ensures
        cur.outputs@.len() == orig.outputs@.len() + count_outputs(cfgs, i + 1),
        cur.inputs@.len() == pre.inputs@.len() + count_inputs(cfgs, i + 1) - count_inputs(cfgs, i),
        output_matches_config(cur.outputs@[orig.outputs@.len() + count_outputs(cfgs, i)], cfgs[i]),
        forall|m: Seq<char>|
            #[trigger] cur.has_output(m) <==> (orig.has_output(m) || batch_dup(
                cfgs,
                i + 1,
                Direction::Output,
                m,
            )),
        forall|m: Seq<char>|
            #[trigger] cur.has_input(m) <==> (orig.has_input(m) || batch_dup(
                cfgs,
                i + 1,
                Direction::Input,
                m,
            )),
{
    assert(count_outputs(cfgs, i + 1) == count_outputs(cfgs, i) + 1);
    assert(count_inputs(cfgs, i + 1) == count_inputs(cfgs, i));
    assert(cur.outputs@[orig.outputs@.len() + count_outputs(cfgs, i)] == cur.outputs@.last());
    assert forall|m: Seq<char>|
        #[trigger] cur.has_output(m) <==> (orig.has_output(m) || batch_dup(
            cfgs,
            i + 1,
            Direction::Output,
            m,
        )) by {
        if cur.has_output(m) {
            let p = choose|p: int|
                0 <= p < cur.outputs@.len() && (#[trigger] cur.outputs@[p]).name@ == m;
            if p < pre.outputs@.len() {
                assert(pre.outputs@[p].name@ == m);
                assert(pre.has_output(m));
            } else {
                assert(m == cfgs[i].name);
                assert((cfgs[i]).direction == Direction::Output && cfgs[i].name == m);
                assert(batch_dup(cfgs, i + 1, Direction::Output, m));
            }
        }
        if orig.has_output(m) {
            assert(pre.has_output(m));
            let p = choose|p: int|
                0 <= p < pre.outputs@.len() && (#[trigger] pre.outputs@[p]).name@ == m;
            assert(cur.outputs@[p].name@ == m);
        }
        if batch_dup(cfgs, i + 1, Direction::Output, m) {
            let q = choose|q: int|
                0 <= q < i + 1 && (#[trigger] cfgs[q]).direction == Direction::Output
                    && cfgs[q].name == m;
            if q < i {
                assert(batch_dup(cfgs, i, Direction::Output, m));
                assert(pre.has_output(m));
                let p = choose|p: int|
                    0 <= p < pre.outputs@.len() && (#[trigger] pre.outputs@[p]).name@ == m;
                assert(cur.outputs@[p].name@ == m);
            } else {
                assert(cur.outputs@[cur.outputs@.len() - 1].name@ == m);
            }
        }
    }
    assert forall|m: Seq<char>|
        #[trigger] cur.has_input(m) <==> (orig.has_input(m) || batch_dup(
            cfgs,
            i + 1,
            Direction::Input,
            m,
        )) by {
        assert(cur.inputs == pre.inputs);
        assert(cur.has_input(m) == pre.has_input(m)) by {
            if cur.has_input(m) {
                let p = choose|p: int|
                    0 <= p < cur.inputs@.len() && (#[trigger] cur.inputs@[p]).name@ == m;
                assert(pre.inputs@[p].name@ == m);
            }
            if pre.has_input(m) {
                let p = choose|p: int|
                    0 <= p < pre.inputs@.len() && (#[trigger] pre.inputs@[p]).name@ == m;
                assert(cur.inputs@[p].name@ == m);
            }
        }
        assert(batch_dup(cfgs, i + 1, Direction::Input, m) == batch_dup(
            cfgs,
            i,
            Direction::Input,
            m,
        )) by {
            if batch_dup(cfgs, i + 1, Direction::Input, m) {
                let q = choose|q: int|
                    0 <= q < i + 1 && (#[trigger] cfgs[q]).direction == Direction::Input
                        && cfgs[q].name == m;
                if q == i {
                    assert(cfgs[i].direction is Output);
                    assert(false);
                }
                assert(batch_dup(cfgs, i, Direction::Input, m));
            }
            if batch_dup(cfgs, i, Direction::Input, m) {
                let q = choose|q: int|
                    0 <= q < i && (#[trigger] cfgs[q]).direction == Direction::Input && cfgs[q].name
                        == m;
                assert(batch_dup(cfgs, i + 1, Direction::Input, m));
            }
        }
    }
}

impl Controller {
    /// What serializing the delta of collection `w` for an endpoint
    /// must have produced.
    pub open spec fn encode_result_matches(
        self,
        w: int,
        endpoint_name: Seq<char>,
        r: Result<String, ControllerError>,
    ) -> bool {
        match r {
            Ok(out) => {
                &&& crate::json::batch_rows_ok(
                    self.circuit.streams@[w].schema.deep_view(),
                    self.circuit.streams@[w].delta@,
                )
                &&& out@ == crate::json::batch_chars(
                    self.circuit.streams@[w].schema.deep_view(),
                    self.circuit.streams@[w].delta@,
                    self.circuit.streams@[w].delta@.len() as int,
                )
            },
            Err(e) => {
                &&& (e matches ControllerError::EncodeError { endpoint_name: n, error: er } && n@
                    == endpoint_name && er@ == "row does not match the stream schema"@)
                &&& !crate::json::batch_rows_ok(
                    self.circuit.streams@[w].schema.deep_view(),
                    self.circuit.streams@[w].delta@,
                )
            },
        }
    }

    /// Some collection carries `stream_name`, and serializing its
    /// delta produced `r`.
    pub open spec fn encoded_for_stream(
        self,
        stream_name: Seq<char>,
        endpoint_name: Seq<char>,
        r: Result<String, ControllerError>,
    ) -> bool {
        exists|w: int|
            0 <= w < self.circuit.streams@.len() && (#[trigger] self.circuit.streams@[w]).name@
                == stream_name && self.encode_result_matches(w, endpoint_name, r)
    }

    /// The egress write for one output endpoint: the consolidated
    /// delta of its stream, serialized as record lines.  A failing
    /// serialization is scoped to this endpoint: it reports an encode
    /// error and blocks nothing else.
    pub fn encode_output(&self, endpoint_name: &str) -> (r: Result<String, ControllerError>)
        requires
            self.wf(),
        ensures
            self.shutting_down() ==> r matches Err(ControllerError::PipelineTerminating),
            !self.shutting_down() && !self.has_output(endpoint_name@) ==> (r matches Err(
                ControllerError::OutputTransportError { endpoint_name: n, fatal: f, error: er },
            ) && n@ == endpoint_name@ && !f && er@ == "unknown output endpoint"@),
            !self.shutting_down() && self.has_output(endpoint_name@) ==> exists|i: int|
                #![trigger self.outputs@[i]]
                {
                    &&& 0 <= i < self.outputs@.len()
                    &&& self.outputs@[i].name@ == endpoint_name@
                    &&& (self.outputs@[i].status is Removed ==> (r matches Err(
                        ControllerError::OutputTransportError {
                            endpoint_name: n,
                            fatal: f,
                            error: er,
                        },
                    ) && n@ == endpoint_name@ && !f && er@ == "output endpoint removed"@))
                    &&& (!(self.outputs@[i].status is Removed) ==> self.encoded_for_stream(
                        self.outputs@[i].stream_name@,
                        endpoint_name@,
                        r,
                    ))
                },
    {
        if self.state == PipelineState::Terminating || self.state == PipelineState::Terminated {
            return Err(ControllerError::pipeline_terminating());
        }
        let i = match self.find_output(endpoint_name) {
            Some(i) => i,
            None => {
                return Err(
                    ControllerError::output_transport_error(
                        endpoint_name,
                        false,
                        "unknown output endpoint",
                    ),
                );
            },
        };
        if self.outputs[i].status == EndpointRuntimeState::Removed {
            return Err(
                ControllerError::output_transport_error(
                    endpoint_name,
                    false,
                    "output endpoint removed",
                ),
            );
        }
        let w = match self.circuit.find_stream(self.outputs[i].stream_name.as_str()) {
            Some(w) => w,
            None => {
                proof {
                    assert(self.circuit.has_stream(self.outputs@[i as int].stream_name@));
                    assert(false);
                }
                0
            },
        };
        proof {
            assert((self.outputs@[i as int]).name@ == endpoint_name@);
            assert((self.circuit.streams@[w as int]).delta.wf());
        }
        match crate::json::encode_batch(&self.circuit.streams[w].schema, &self.circuit.streams[w].delta) {
            Some(out) => Ok(out),
            None => Err(
                ControllerError::encode_error(
                    endpoint_name,
                    "row does not match the stream schema",
                ),
            ),
        }
    }
}

/// Cancellation law at the step boundary: appending an insertion and a
/// deletion of the same row to one endpoint's buffer changes nothing
/// about what any collection receives when the buffers are flushed, so
/// the row is no more visible in the resulting step than it was.
pub proof fn lemma_insert_delete_cancel_in_step(
    inputs: Seq<InputEndpoint>,
    t: Seq<InputEndpoint>,
    i: int,
    r: Seq<ValueV>,
    stream: Seq<char>,
    k: Seq<ValueV>,
    n: int,
)
    requires
        0 <= i < inputs.len(),
        t.len() == inputs.len(),
        forall|j: int| 0 <= j < inputs.len() && j != i ==> t[j] == inputs[j],
        t[i].status == inputs[i].status,
        t[i].stream.dest == inputs[i].stream.dest,
        t[i].stream.buffer@ == inputs[i].stream.buffer@.push((r, 1int)).push((r, -1int)),
        n <= inputs.len(),
    ensures
        flushed_weight(t, stream, k, n) == flushed_weight(inputs, stream, k, n),
    decreases n,
{
    if n > 0 {
        lemma_insert_delete_cancel_in_step(inputs, t, i, r, stream, k, n - 1);
        if n - 1 == i {
            crate::zset::lemma_insert_delete_cancel(inputs[i].stream.buffer@, r, k);
        }
    }
}

/// `pending_mass` only grows with its range.
proof fn lemma_pending_mass_at_least(streams: Seq<CircuitStream>, n: int, m: int)
    requires
        m <= n,
    ensures
        pending_mass(streams, m) <= pending_mass(streams, n),
    decreases n - m,
{
    if m < n {
        lemma_pending_mass_at_least(streams, n - 1, m);
        crate::zset::lemma_l1_nonneg(streams[n - 1].pending@);
    }
}

/// Carries the flush-loop invariants across one endpoint's flush:
/// `pre` is the controller before it, `cur` after it, `orig` the state
/// at the start of the step.
proof fn lemma_flush_step(
    pre: Controller,
    cur: Controller,
    orig: Controller,
    idx: int,
    di: int,
    ns: int,
    ne: int,
)
    requires
        ns == pre.circuit.streams@.len() == cur.circuit.streams@.len()
            == orig.circuit.streams@.len(),
        ne == pre.inputs@.len() == cur.inputs@.len() == orig.inputs@.len(),
        0 <= idx < ne,
        0 <= di < ns,
        orig.wf(),
        !(orig.inputs@[idx].status is Removed),
        pre.inputs@[idx] == orig.inputs@[idx],
        pre.circuit.streams@[di].name@ == orig.inputs@[idx].stream.dest@,
        // what the flush did
        cur.inputs@ == pre.inputs@.update(idx, cur.inputs@[idx]),
        cur.inputs@[idx].stream.buffer@ == Seq::<ZEntryV>::empty(),
        cur.circuit.streams@ == pre.circuit.streams@.update(di, cur.circuit.streams@[di]),
        cur.circuit.streams@[di].name == pre.circuit.streams@[di].name,
        cur.circuit.streams@[di].schema == pre.circuit.streams@[di].schema,
        cur.circuit.streams@[di].delta == pre.circuit.streams@[di].delta,
        cur.circuit.streams@[di].pending@ == pre.circuit.streams@[di].pending@
            + orig.inputs@[idx].stream.buffer@,
        // the invariants before this flush
        forall|j: int|
            0 <= j < ns ==> {
                &&& (#[trigger] pre.circuit.streams@[j]).name == orig.circuit.streams@[j].name
                &&& forall|k: Seq<ValueV>|
                    #[trigger] weight_of(pre.circuit.streams@[j].pending@, k) == weight_of(
                        orig.circuit.streams@[j].pending@,
                        k,
                    ) + flushed_weight(orig.inputs@, orig.circuit.streams@[j].name@, k, idx)
            },
        pending_mass(pre.circuit.streams@, ns) <= pending_mass(orig.circuit.streams@, ns)
            + buffered_mass(orig.inputs@, idx),
    ensures
        forall|j: int|
            #![trigger cur.circuit.streams@[j]]
            0 <= j < ns ==> forall|k: Seq<ValueV>|
                #[trigger] weight_of(cur.circuit.streams@[j].pending@, k) == weight_of(
                    orig.circuit.streams@[j].pending@,
                    k,
                ) + flushed_weight(orig.inputs@, orig.circuit.streams@[j].name@, k, idx + 1),
        pending_mass(cur.circuit.streams@, ns) <= pending_mass(orig.circuit.streams@, ns)
            + buffered_mass(orig.inputs@, idx + 1),
{
    assert forall|j: int|
        #![trigger cur.circuit.streams@[j]]
        0 <= j < ns implies forall|k: Seq<ValueV>|
        #[trigger] weight_of(cur.circuit.streams@[j].pending@, k) == weight_of(
            orig.circuit.streams@[j].pending@,
            k,
        ) + flushed_weight(orig.inputs@, orig.circuit.streams@[j].name@, k, idx + 1) by {
        assert forall|k: Seq<ValueV>|
            #[trigger] weight_of(cur.circuit.streams@[j].pending@, k) == weight_of(
                orig.circuit.streams@[j].pending@,
                k,
            ) + flushed_weight(orig.inputs@, orig.circuit.streams@[j].name@, k, idx + 1) by {
            if j == di {
                crate::zset::lemma_concat(
                    pre.circuit.streams@[di].pending@,
                    orig.inputs@[idx].stream.buffer@,
                    k,
                );
                assert(orig.circuit.streams@[di].name@ == orig.inputs@[idx].stream.dest@);
            } else {
                assert(cur.circuit.streams@[j] == pre.circuit.streams@[j]);
                assert(orig.circuit.streams@[j].name@ != orig.circuit.streams@[di].name@);
                assert(orig.circuit.streams@[j].name@ != orig.inputs@[idx].stream.dest@);
            }
        }
    }
    crate::zset::lemma_concat(
        pre.circuit.streams@[di].pending@,
        orig.inputs@[idx].stream.buffer@,
        Seq::empty(),
    );
    lemma_pending_mass_update(cur.circuit.streams@, pre.circuit.streams@, ns, di);
}

} // verus!
