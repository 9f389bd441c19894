//! Tests of the JSON wire format: record deserialization, schema
//! binding, value parsing edge cases and record serialization.

use dbsp_adapters::decollection::{DeZSetHandles, JsonZSetHandle, RecordFormat};
use dbsp_adapters::json::{
    deserialize_record, deserialize_row, parse_record, render_i64, render_record, JsonColumn,
};
use dbsp_adapters::value::{Row, Value};

fn schema_id_name() -> Vec<JsonColumn> {
    vec![JsonColumn::normal("ID"), JsonColumn::normal("NAME")]
}

#[test]
fn json_column_accessors() {
    let c = JsonColumn::normal("ID");
    assert_eq!(c.key(), "ID");
    assert!(c.format().is_none());
    let d = JsonColumn::datetime("TS", "%Y-%m-%d");
    assert_eq!(d.key(), "TS");
    assert_eq!(d.format(), Some("%Y-%m-%d"));
}

#[test]
fn record_with_insert_verb() {
    let schema = schema_id_name();
    let (insert, row) =
        deserialize_record(br#"{"insert":{"ID":1,"NAME":"Flux Capacitor"}}"#, &schema).unwrap();
    assert!(insert);
    assert_eq!(row.len(), 2);
    let mut expected = Row::new();
    expected.push(Value::Int(1));
    expected.push(Value::Str("Flux Capacitor".to_string()));
    assert!(row == expected);
}

#[test]
fn record_with_delete_verb() {
    let schema = schema_id_name();
    let (insert, _row) =
        deserialize_record(br#"{"delete":{"ID":2,"NAME":"Warp Core"}}"#, &schema).unwrap();
    assert!(!insert);
}

#[test]
fn record_keys_bind_by_name_not_position() {
    let schema = schema_id_name();
    let (_, row) =
        deserialize_record(br#"{"insert":{"NAME":"Warp Core","ID":2}}"#, &schema).unwrap();
    let mut expected = Row::new();
    expected.push(Value::Int(2));
    expected.push(Value::Str("Warp Core".to_string()));
    assert!(row == expected);
}

#[test]
fn record_with_missing_field_rejected() {
    let schema = schema_id_name();
    assert!(deserialize_record(br#"{"insert":{"ID":1}}"#, &schema).is_none());
}

#[test]
fn record_with_unknown_verb_rejected() {
    let schema = schema_id_name();
    assert!(deserialize_record(br#"{"upsert":{"ID":1,"NAME":"x"}}"#, &schema).is_none());
    assert!(deserialize_record(br#"{"ID":1,"NAME":"x"}"#, &schema).is_none());
}

#[test]
fn record_with_trailing_garbage_rejected() {
    let schema = schema_id_name();
    assert!(deserialize_record(br#"{"insert":{"ID":1,"NAME":"x"}} extra"#, &schema).is_none());
}

#[test]
fn whitespace_is_tolerated() {
    let schema = schema_id_name();
    let parsed = deserialize_record(
        b" \t {\"insert\" : { \"ID\" : 1 , \"NAME\" : \"x\" } } \n",
        &schema,
    );
    assert!(parsed.is_some());
}

#[test]
fn values_cover_all_kinds() {
    let schema = vec![
        JsonColumn::normal("I"),
        JsonColumn::normal("S"),
        JsonColumn::normal("T"),
        JsonColumn::normal("F"),
        JsonColumn::normal("N"),
    ];
    let row = deserialize_row(
        br#"{"I":-42,"S":"text","T":true,"F":false,"N":null}"#,
        &schema,
    )
    .unwrap();
    let mut expected = Row::new();
    expected.push(Value::Int(-42));
    expected.push(Value::Str("text".to_string()));
    expected.push(Value::Bool(true));
    expected.push(Value::Bool(false));
    expected.push(Value::Null);
    assert!(row == expected);
}

#[test]
fn integer_bounds_are_checked() {
    let schema = vec![JsonColumn::normal("I")];
    let row = deserialize_row(br#"{"I":9223372036854775807}"#, &schema).unwrap();
    let mut expected = Row::new();
    expected.push(Value::Int(i64::MAX));
    assert!(row == expected);
    let row = deserialize_row(br#"{"I":-9223372036854775808}"#, &schema).unwrap();
    let mut expected = Row::new();
    expected.push(Value::Int(i64::MIN));
    assert!(row == expected);
    // One past the bound, and over-long digit runs, are malformed.
    assert!(deserialize_row(br#"{"I":9223372036854775808}"#, &schema).is_none());
    assert!(deserialize_row(br#"{"I":-9223372036854775809}"#, &schema).is_none());
    assert!(deserialize_row(br#"{"I":12345678901234567890123}"#, &schema).is_none());
}

#[test]
fn malformed_values_rejected() {
    let schema = vec![JsonColumn::normal("I")];
    assert!(deserialize_row(br#"{"I":}"#, &schema).is_none());
    assert!(deserialize_row(br#"{"I":tru}"#, &schema).is_none());
    assert!(deserialize_row(br#"{"I":"unterminated}"#, &schema).is_none());
    assert!(deserialize_row(br#"{"I":--1}"#, &schema).is_none());
    assert!(deserialize_row(br#"{}"#, &schema).is_none());
    assert!(deserialize_row(b"", &schema).is_none());
}

#[test]
fn extra_keys_are_ignored() {
    let schema = vec![JsonColumn::normal("ID")];
    let row = deserialize_row(br#"{"ID":1,"UNUSED":"x"}"#, &schema).unwrap();
    let mut expected = Row::new();
    expected.push(Value::Int(1));
    assert!(row == expected);
}

#[test]
fn parse_record_returns_members_in_order() {
    let (insert, pairs) = parse_record(br#"{"insert":{"A":1,"B":2}}"#).unwrap();
    assert!(insert);
    assert_eq!(pairs.len(), 2);
    assert_eq!(pairs[0].0, "A");
    assert_eq!(pairs[1].0, "B");
}

#[test]
fn render_i64_decimal() {
    assert_eq!(render_i64(0), "0");
    assert_eq!(render_i64(7), "7");
    assert_eq!(render_i64(-7), "-7");
    assert_eq!(render_i64(1234567890), "1234567890");
    assert_eq!(render_i64(i64::MAX), "9223372036854775807");
    assert_eq!(render_i64(i64::MIN), "-9223372036854775808");
}

#[test]
fn render_record_round_trips() {
    let schema = schema_id_name();
    let mut row = Row::new();
    row.push(Value::Int(1));
    row.push(Value::Str("Flux Capacitor".to_string()));
    let line = render_record(true, &schema, &row);
    assert_eq!(line, r#"{"insert":{"ID":1,"NAME":"Flux Capacitor"}}"#);
    let (insert, parsed) = deserialize_record(line.as_bytes(), &schema).unwrap();
    assert!(insert);
    assert!(parsed == row);
    let line = render_record(false, &schema, &row);
    assert_eq!(line, r#"{"delete":{"ID":1,"NAME":"Flux Capacitor"}}"#);
}

#[test]
fn configure_deserializer_by_format() {
    let handle = JsonZSetHandle::new("PART", schema_id_name());
    let handles = DeZSetHandles::new(handle);
    let mut stream = handles.configure_deserializer(RecordFormat::Json).unwrap();
    stream.insert(br#"{"ID":1,"NAME":"x"}"#).unwrap();
    assert_eq!(stream.buffered(), 1);
    // CSV has no decoder yet: a format error, not a panic.
    let err = handles
        .configure_deserializer(RecordFormat::Csv)
        .unwrap_err();
    assert_eq!(err.error_code(), "ConfigError.UnknownInputFormat");
    assert_eq!(
        err.message(),
        "invalid controller configuration: 'Unknown input format 'csv''"
    );
}

#[test]
fn fork_writes_into_same_destination() {
    let handle = JsonZSetHandle::new("PART", schema_id_name());
    let handles = DeZSetHandles::new(handle);
    let stream = handles.configure_deserializer(RecordFormat::Json).unwrap();
    let fork = stream.fork();
    assert_eq!(fork.dest, stream.dest);
    assert_eq!(fork.buffered(), 0);
}
