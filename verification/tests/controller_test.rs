//! End-to-end tests of the controller: registration, ingestion, step
//! coordination, egress, failure classification and shutdown.

use dbsp_adapters::circuit::CircuitRuntime;
use dbsp_adapters::controller::{
    Controller, Direction, EndpointConfig, EndpointRuntimeState, ENDPOINT_BUFFER_WATERMARK,
};
use dbsp_adapters::decollection::DeCollectionStream;
use dbsp_adapters::error::ControllerError;
use dbsp_adapters::json::JsonColumn;
use dbsp_adapters::value::{Row, Value};
use dbsp_adapters::zset::ZSet;
use dbsp_adapters::PipelineState;

fn part_schema() -> Vec<JsonColumn> {
    vec![JsonColumn::normal("ID"), JsonColumn::normal("NAME")]
}

fn part_circuit() -> CircuitRuntime {
    let mut circuit = CircuitRuntime::new();
    assert!(circuit.add_stream("PART", part_schema()));
    circuit
}

fn part_row(id: i64, name: &str) -> Row {
    let mut row = Row::new();
    row.push(Value::Int(id));
    row.push(Value::Str(name.to_string()));
    row
}

#[test]
fn duplicate_input_endpoint_rejected() {
    let mut controller = Controller::new(part_circuit(), false, false);
    controller
        .register_input("PART", "http", "json", "PART")
        .unwrap();
    let err = controller
        .register_input("PART", "file", "json", "PART")
        .unwrap_err();
    assert_eq!(err.error_code(), "ConfigError.DuplicateInputEndpoint");
    // The first endpoint is still registered and functional.
    assert_eq!(
        controller.endpoint_status(Direction::Input, "PART"),
        Some(EndpointRuntimeState::Active)
    );
    controller
        .input_record("PART", br#"{"insert":{"ID":1,"NAME":"Flux Capacitor"}}"#)
        .unwrap();
}

#[test]
fn unknown_stream_rejected() {
    let mut controller = Controller::new(part_circuit(), false, false);
    let err = controller
        .register_input("in1", "http", "json", "NO_SUCH_TABLE")
        .unwrap_err();
    assert_eq!(err.error_code(), "ConfigError.UnknownInputStream");
    let err = controller
        .register_output("out1", "file", "json", "NO_SUCH_VIEW")
        .unwrap_err();
    assert_eq!(err.error_code(), "ConfigError.UnknownOutputStream");
}

#[test]
fn unknown_transport_and_format_rejected() {
    let mut controller = Controller::new(part_circuit(), false, false);
    let err = controller
        .register_input("in1", "carrier-pigeon", "json", "PART")
        .unwrap_err();
    assert_eq!(err.error_code(), "ConfigError.UnknownInputTransport");
    let err = controller
        .register_input("in1", "http", "xml", "PART")
        .unwrap_err();
    assert_eq!(err.error_code(), "ConfigError.UnknownInputFormat");
    // CSV is a known name, but no decoder is available for it yet.
    let err = controller
        .register_input("in1", "http", "csv", "PART")
        .unwrap_err();
    assert_eq!(err.error_code(), "ConfigError.UnknownInputFormat");
}

#[test]
fn batch_registration_is_atomic() {
    let mut controller = Controller::new(part_circuit(), false, false);
    let cfgs = vec![
        EndpointConfig {
            name: "good".to_string(),
            direction: Direction::Input,
            transport: "http".to_string(),
            format: "json".to_string(),
            stream: "PART".to_string(),
        },
        EndpointConfig {
            name: "bad".to_string(),
            direction: Direction::Output,
            transport: "file".to_string(),
            format: "json".to_string(),
            stream: "NO_SUCH_TABLE".to_string(),
        },
    ];
    let err = controller.register_config(&cfgs).unwrap_err();
    assert_eq!(err.error_code(), "ConfigError.UnknownOutputStream");
    // Nothing from the failed batch is registered.
    assert_eq!(controller.endpoint_status(Direction::Input, "good"), None);
    assert_eq!(controller.endpoint_status(Direction::Output, "bad"), None);
    // A fully valid batch registers everything.
    let cfgs = vec![
        EndpointConfig {
            name: "good".to_string(),
            direction: Direction::Input,
            transport: "http".to_string(),
            format: "json".to_string(),
            stream: "PART".to_string(),
        },
        EndpointConfig {
            name: "sink".to_string(),
            direction: Direction::Output,
            transport: "file".to_string(),
            format: "json".to_string(),
            stream: "PART".to_string(),
        },
    ];
    controller.register_config(&cfgs).unwrap();
    assert_eq!(
        controller.endpoint_status(Direction::Input, "good"),
        Some(EndpointRuntimeState::Active)
    );
    assert_eq!(
        controller.endpoint_status(Direction::Output, "sink"),
        Some(EndpointRuntimeState::Active)
    );
}

#[test]
fn insert_then_delete_cancels() {
    let mut controller = Controller::new(part_circuit(), false, false);
    controller
        .register_input("PART", "http", "json", "PART")
        .unwrap();
    controller
        .register_output("PART_OUT", "file", "json", "PART")
        .unwrap();
    controller.start().unwrap();
    let record = br#"{"insert":{"ID":1,"NAME":"Flux Capacitor"}}"#;
    let retraction = br#"{"delete":{"ID":1,"NAME":"Flux Capacitor"}}"#;
    controller.input_record("PART", record).unwrap();
    controller.input_record("PART", retraction).unwrap();
    assert_eq!(controller.step().unwrap(), true);
    let out = controller.consolidate_output("PART_OUT").unwrap();
    assert!(out.is_empty());
    assert_eq!(out.weight_of_row(&part_row(1, "Flux Capacitor")), 0);
}

#[test]
fn forked_streams_commute() {
    let root = DeCollectionStream::new("PART", part_schema());
    let record = br#"{"ID":7,"NAME":"Dilithium"}"#;
    let row = part_row(7, "Dilithium");

    // Two forks, one insertion each, flushed in either order.
    let mut dest_a = ZSet::new();
    let mut f1 = root.fork();
    let mut f2 = root.fork();
    f1.insert(record).unwrap();
    f2.insert(record).unwrap();
    f1.flush(&mut dest_a);
    f2.flush(&mut dest_a);

    let mut dest_b = ZSet::new();
    let mut g1 = root.fork();
    let mut g2 = root.fork();
    g1.insert(record).unwrap();
    g2.insert(record).unwrap();
    g2.flush(&mut dest_b);
    g1.flush(&mut dest_b);

    // One stream, the same insertion twice.
    let mut dest_c = ZSet::new();
    let mut single = root.fork();
    single.insert(record).unwrap();
    single.insert(record).unwrap();
    single.flush(&mut dest_c);

    assert_eq!(dest_a.weight_of_row(&row), 2);
    assert_eq!(dest_b.weight_of_row(&row), 2);
    assert_eq!(dest_c.weight_of_row(&row), 2);
    let ca = dest_a.consolidate();
    let cb = dest_b.consolidate();
    let cc = dest_c.consolidate();
    assert_eq!(ca.len(), 1);
    assert_eq!(cb.len(), 1);
    assert_eq!(cc.len(), 1);
    assert_eq!(ca.weight_of_row(&row), 2);
    assert_eq!(cb.weight_of_row(&row), 2);
    assert_eq!(cc.weight_of_row(&row), 2);
}

#[test]
fn parse_error_does_not_poison_endpoint() {
    let mut controller = Controller::new(part_circuit(), false, false);
    controller
        .register_input("PART", "http", "json", "PART")
        .unwrap();
    controller
        .register_output("PART_OUT", "file", "json", "PART")
        .unwrap();
    controller.start().unwrap();
    let err = controller
        .input_record("PART", br#"{"insert":{"ID":oops}}"#)
        .unwrap_err();
    assert_eq!(err.error_code(), "ParseError");
    // A well-formed record right after lands in the same step.
    controller
        .input_record("PART", br#"{"insert":{"ID":2,"NAME":"Warp Core"}}"#)
        .unwrap();
    assert_eq!(controller.step().unwrap(), true);
    let out = controller.consolidate_output("PART_OUT").unwrap();
    assert_eq!(out.len(), 1);
    assert_eq!(out.weight_of_row(&part_row(2, "Warp Core")), 1);
}

#[test]
fn fatal_transport_error_removes_endpoint() {
    let mut circuit = part_circuit();
    assert!(circuit.add_stream("VENDOR", vec![
        JsonColumn::normal("ID"),
        JsonColumn::normal("NAME"),
    ]));
    let mut controller = Controller::new(circuit, false, false);
    controller
        .register_input("a", "http", "json", "PART")
        .unwrap();
    controller
        .register_input("b", "http", "json", "VENDOR")
        .unwrap();
    controller.start().unwrap();

    let e = controller.transport_error(Direction::Input, "a", true, "connection lost");
    assert_eq!(e.error_code(), "InputTransportError");
    assert_eq!(
        controller.endpoint_status(Direction::Input, "a"),
        Some(EndpointRuntimeState::Removed)
    );
    // Further bytes at the removed endpoint fail with a defined error.
    let err = controller
        .input_record("a", br#"{"insert":{"ID":1,"NAME":"x"}}"#)
        .unwrap_err();
    assert_eq!(err.error_code(), "InputTransportError");
    // The rest of the pipeline keeps running and stepping.
    controller
        .input_record("b", br#"{"insert":{"ID":1,"NAME":"Gravitech Dynamics"}}"#)
        .unwrap();
    assert_eq!(controller.step().unwrap(), true);
    assert_eq!(controller.status(), PipelineState::Running);
}

#[test]
fn nonfatal_transport_error_degrades_endpoint() {
    let mut controller = Controller::new(part_circuit(), false, false);
    controller
        .register_input("a", "http", "json", "PART")
        .unwrap();
    controller.start().unwrap();
    controller.transport_error(Direction::Input, "a", false, "timeout; retrying");
    assert_eq!(
        controller.endpoint_status(Direction::Input, "a"),
        Some(EndpointRuntimeState::Degraded)
    );
    // A degraded endpoint still ingests.
    controller
        .input_record("a", br#"{"insert":{"ID":1,"NAME":"x"}}"#)
        .unwrap();
}

#[test]
fn stop_on_fatal_input_policy() {
    // With the policy set, a fatal input error halts the pipeline.
    let mut controller = Controller::new(part_circuit(), true, false);
    controller
        .register_input("a", "http", "json", "PART")
        .unwrap();
    controller.start().unwrap();
    controller.transport_error(Direction::Input, "a", true, "gone");
    assert_eq!(controller.status(), PipelineState::Terminating);

    // Without it, the pipeline keeps running.
    let mut controller = Controller::new(part_circuit(), false, false);
    controller
        .register_input("a", "http", "json", "PART")
        .unwrap();
    controller.start().unwrap();
    controller.transport_error(Direction::Input, "a", true, "gone");
    assert_eq!(controller.status(), PipelineState::Running);
}

#[test]
fn stop_on_fatal_output_policy() {
    let mut controller = Controller::new(part_circuit(), false, true);
    controller
        .register_output("o", "file", "json", "PART")
        .unwrap();
    controller.start().unwrap();
    controller.transport_error(Direction::Output, "o", true, "sink gone");
    assert_eq!(controller.status(), PipelineState::Terminating);

    let mut controller = Controller::new(part_circuit(), false, false);
    controller
        .register_output("o", "file", "json", "PART")
        .unwrap();
    controller.start().unwrap();
    controller.transport_error(Direction::Output, "o", true, "sink gone");
    assert_eq!(controller.status(), PipelineState::Running);
}

#[test]
fn part_endpoint_roundtrip() {
    let mut controller = Controller::new(part_circuit(), false, false);
    controller
        .register_input("PART", "http", "json", "PART")
        .unwrap();
    controller
        .register_output("PART_OUT", "file", "json", "PART")
        .unwrap();
    controller.start().unwrap();
    controller
        .input_record("PART", br#"{"insert":{"ID":1,"NAME":"Flux Capacitor"}}"#)
        .unwrap();
    controller
        .input_record("PART", br#"{"insert":{"ID":2,"NAME":"Warp Core"}}"#)
        .unwrap();
    assert_eq!(controller.step().unwrap(), true);
    let out = controller.consolidate_output("PART_OUT").unwrap();
    assert_eq!(out.len(), 2);
    assert_eq!(out.weight_of_row(&part_row(1, "Flux Capacitor")), 1);
    assert_eq!(out.weight_of_row(&part_row(2, "Warp Core")), 1);
    let encoded = controller.encode_output("PART_OUT").unwrap();
    assert_eq!(
        encoded,
        "{\"insert\":{\"ID\":1,\"NAME\":\"Flux Capacitor\"}}\n{\"insert\":{\"ID\":2,\"NAME\":\"Warp Core\"}}\n"
    );
}

#[test]
fn step_sees_only_flushed_rows() {
    let mut controller = Controller::new(part_circuit(), false, false);
    controller
        .register_input("PART", "http", "json", "PART")
        .unwrap();
    controller
        .register_output("PART_OUT", "file", "json", "PART")
        .unwrap();
    controller.start().unwrap();
    controller
        .input_record("PART", br#"{"insert":{"ID":1,"NAME":"a"}}"#)
        .unwrap();
    assert_eq!(controller.step().unwrap(), true);
    // A record arriving after the step belongs to a later one.
    controller
        .input_record("PART", br#"{"insert":{"ID":2,"NAME":"b"}}"#)
        .unwrap();
    let out = controller.consolidate_output("PART_OUT").unwrap();
    assert_eq!(out.len(), 1);
    assert_eq!(out.weight_of_row(&part_row(1, "a")), 1);
    assert_eq!(controller.step().unwrap(), true);
    let out = controller.consolidate_output("PART_OUT").unwrap();
    assert_eq!(out.len(), 1);
    assert_eq!(out.weight_of_row(&part_row(2, "b")), 1);
}

#[test]
fn pause_and_resume() {
    let mut controller = Controller::new(part_circuit(), false, false);
    controller
        .register_input("PART", "http", "json", "PART")
        .unwrap();
    controller.start().unwrap();
    controller.pause().unwrap();
    assert_eq!(controller.status(), PipelineState::Paused);
    // Paused: ingestion buffers still accept data, triggers do not run.
    controller
        .input_record("PART", br#"{"insert":{"ID":1,"NAME":"a"}}"#)
        .unwrap();
    assert_eq!(controller.step().unwrap(), false);
    controller.start().unwrap();
    assert_eq!(controller.status(), PipelineState::Running);
    assert_eq!(controller.step().unwrap(), true);
}

#[test]
fn shutdown_fails_pending_calls() {
    let mut controller = Controller::new(part_circuit(), false, false);
    controller
        .register_input("PART", "http", "json", "PART")
        .unwrap();
    controller.start().unwrap();
    controller.initiate_termination();
    assert_eq!(controller.status(), PipelineState::Terminating);
    let err = controller
        .input_record("PART", br#"{"insert":{"ID":1,"NAME":"a"}}"#)
        .unwrap_err();
    assert_eq!(err.error_code(), "PipelineTerminating");
    assert_eq!(
        controller.step().unwrap_err().error_code(),
        "PipelineTerminating"
    );
    controller.complete_termination();
    assert_eq!(controller.status(), PipelineState::Terminated);
    // Nothing is observed after termination either.
    let err = controller
        .input_record("PART", br#"{"insert":{"ID":2,"NAME":"b"}}"#)
        .unwrap_err();
    assert_eq!(err.error_code(), "PipelineTerminating");
    assert!(controller.start().is_err());
}

#[test]
fn panics_terminate_the_pipeline() {
    let mut controller = Controller::new(part_circuit(), false, false);
    controller.start().unwrap();
    let e = controller.record_circuit_panic();
    assert_eq!(e.error_code(), "DbspPanic");
    assert_eq!(controller.status(), PipelineState::Terminated);

    let mut controller = Controller::new(part_circuit(), false, false);
    let e = controller.record_controller_panic();
    assert_eq!(e.error_code(), "ControllerPanic");
    assert_eq!(controller.status(), PipelineState::Terminated);
    assert_eq!(
        e.message(),
        "Panic inside the DBSP controller"
    );
}

#[test]
fn deregister_discards_buffered_rows() {
    let mut controller = Controller::new(part_circuit(), false, false);
    controller
        .register_input("PART", "http", "json", "PART")
        .unwrap();
    controller
        .register_output("PART_OUT", "file", "json", "PART")
        .unwrap();
    controller.start().unwrap();
    controller
        .input_record("PART", br#"{"insert":{"ID":1,"NAME":"a"}}"#)
        .unwrap();
    assert!(controller.deregister(Direction::Input, "PART").unwrap());
    assert!(!controller.deregister(Direction::Input, "PART").unwrap());
    assert_eq!(controller.step().unwrap(), true);
    let out = controller.consolidate_output("PART_OUT").unwrap();
    assert!(out.is_empty());
}

#[test]
fn deregister_fails_once_shutting_down() {
    let mut controller = Controller::new(part_circuit(), false, false);
    controller
        .register_input("PART", "http", "json", "PART")
        .unwrap();
    controller.initiate_termination();
    let e = controller
        .deregister(Direction::Input, "PART")
        .unwrap_err();
    assert_eq!(e.error_code(), "PipelineTerminating");
    controller.complete_termination();
    let e = controller
        .deregister(Direction::Input, "PART")
        .unwrap_err();
    assert_eq!(e.error_code(), "PipelineTerminating");
    // The registry is frozen, not emptied: the endpoint is still there.
    assert!(controller
        .endpoint_status(Direction::Input, "PART")
        .is_some());
}

#[test]
fn watermark_triggers_when_buffer_fills() {
    let mut controller = Controller::new(part_circuit(), false, false);
    controller
        .register_input("PART", "http", "json", "PART")
        .unwrap();
    assert!(!controller.watermark_crossed());
    controller
        .input_record("PART", br#"{"insert":{"ID":1,"NAME":"a"}}"#)
        .unwrap();
    assert!(!controller.watermark_crossed());
    // Fill the endpoint's buffer to the watermark.
    while controller.inputs[0].stream.buffer.len() < ENDPOINT_BUFFER_WATERMARK {
        let mut row = Row::new();
        row.push(Value::Int(1));
        row.push(Value::Str("a".to_string()));
        controller.inputs[0].stream.buffer.push_weighted(row, 1);
    }
    assert!(controller.watermark_crossed());
}

#[test]
fn clear_buffer_discards_undispatched_rows() {
    let mut stream = DeCollectionStream::new("PART", part_schema());
    stream.insert(br#"{"ID":1,"NAME":"a"}"#).unwrap();
    assert_eq!(stream.buffered(), 1);
    stream.clear_buffer();
    assert_eq!(stream.buffered(), 0);
    let mut dest = ZSet::new();
    stream.flush(&mut dest);
    assert!(dest.is_empty());
    // Flushing an empty buffer is idempotent.
    stream.flush(&mut dest);
    assert!(dest.is_empty());
    stream.reserve(128);
    assert_eq!(stream.buffered(), 0);
}

#[test]
fn supply_chain_test() {
    let mut circuit = CircuitRuntime::new();
    assert!(circuit.add_stream("PART", vec![
        JsonColumn::normal("ID"),
        JsonColumn::normal("NAME"),
    ]));
    assert!(circuit.add_stream("VENDOR", vec![
        JsonColumn::normal("ID"),
        JsonColumn::normal("NAME"),
        JsonColumn::normal("ADDRESS"),
    ]));
    assert!(circuit.add_stream("PRICE", vec![
        JsonColumn::normal("PART"),
        JsonColumn::normal("VENDOR"),
        JsonColumn::normal("PRICE"),
    ]));
    let mut controller = Controller::new(circuit, false, false);
    controller
        .register_input("PART", "http", "json", "PART")
        .unwrap();
    controller
        .register_input("VENDOR", "http", "json", "VENDOR")
        .unwrap();
    controller
        .register_input("PRICE", "http", "json", "PRICE")
        .unwrap();
    controller.start().unwrap();

    assert!(controller
        .input_record("PART", br#"{"insert": {"ID": 1, "NAME": "Flux Capacitor"}}"#)
        .is_ok());
    assert!(controller
        .input_record("PART", br#"{"insert": {"ID": 2, "NAME": "Warp Core"}}"#)
        .is_ok());
    assert!(controller
        .input_record("PART", br#"{"insert": {"ID": 3, "NAME": "Kyber Crystal"}}"#)
        .is_ok());
    assert!(controller
        .input_record(
            "VENDOR",
            br#"{"insert": {"ID": 1, "NAME": "Gravitech Dynamics", "ADDRESS": "222 Graviton Lane"}}"#
        )
        .is_ok());
    assert!(controller
        .input_record(
            "VENDOR",
            br#"{"insert": {"ID": 2, "NAME": "HyperDrive Innovations", "ADDRESS": "456 Warp Way"}}"#
        )
        .is_ok());
    assert!(controller
        .input_record(
            "VENDOR",
            br#"{"insert": {"ID": 3, "NAME": "DarkMatter Devices", "ADDRESS": "333 Singularity Street"}}"#
        )
        .is_ok());
    assert!(controller
        .input_record(
            "PRICE",
            br#"{"insert": {"PART": 1, "VENDOR": 2, "PRICE": 10000}}"#
        )
        .is_ok());
    assert!(controller
        .input_record(
            "PRICE",
            br#"{"insert": {"PART": 2, "VENDOR": 1, "PRICE": 15000}}"#
        )
        .is_ok());
    assert!(controller
        .input_record(
            "PRICE",
            br#"{"insert": {"PART": 3, "VENDOR": 3, "PRICE": 9000}}"#
        )
        .is_ok());

    assert_eq!(controller.step().unwrap(), true);
    controller.initiate_termination();
    controller.complete_termination();
    assert_eq!(controller.status(), PipelineState::Terminated);
}
