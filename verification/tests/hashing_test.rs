//! Tests of the Z-set rendering, ordering, comparison and digest
//! helpers, and of the error taxonomy's codes and messages.

use core::cmp::Ordering;
use dbsp_adapters::api::{parse_pipeline_action, ApiError};
use dbsp_adapters::error::{ConfigError, ControllerError};
use dbsp_adapters::hashing::{
    add_zset_tuple, compare, hash, hash_vectors, key_compare, must_equal, must_equal_sc,
    sort_rows, str_compare, to_elements, value_compare, weighted_vector_count,
    zset_of_vectors_to_strings, zset_to_rows, zset_to_strings, SortOrder,
};
use dbsp_adapters::value::{Row, Value};
use dbsp_adapters::zset::ZSet;

fn int_row(i: i64) -> Row {
    let mut row = Row::new();
    row.push(Value::Int(i));
    row
}

fn pair_row(i: i64, s: &str) -> Row {
    let mut row = Row::new();
    row.push(Value::Int(i));
    row.push(Value::Str(s.to_string()));
    row
}

#[test]
fn string_and_row_comparison() {
    assert_eq!(str_compare("a", "b"), Ordering::Less);
    assert_eq!(str_compare("b", "a"), Ordering::Greater);
    assert_eq!(str_compare("abc", "abc"), Ordering::Equal);
    assert_eq!(str_compare("ab", "abc"), Ordering::Less);
    assert_eq!(str_compare("", "a"), Ordering::Less);
    let short = vec!["a".to_string()];
    let long = vec!["a".to_string(), "b".to_string()];
    let other = vec!["b".to_string()];
    assert_eq!(compare(&short, &long), Ordering::Less);
    assert_eq!(compare(&long, &short), Ordering::Greater);
    assert_eq!(compare(&short, &other), Ordering::Less);
    assert_eq!(compare(&short, &short), Ordering::Equal);
}

#[test]
fn sort_rows_orders_lexicographically() {
    let rows = vec![
        vec!["2".to_string()],
        vec!["10".to_string()],
        vec!["1".to_string()],
        vec!["2".to_string()],
    ];
    let sorted = sort_rows(&rows);
    let expected = vec![
        vec!["1".to_string()],
        vec!["10".to_string()],
        vec!["2".to_string()],
        vec!["2".to_string()],
    ];
    assert_eq!(sorted, expected);
}

#[test]
fn zset_to_rows_expands_weights() {
    let mut z = ZSet::new();
    z.push_weighted(int_row(1), 2);
    z.push_weighted(int_row(2), 1);
    let rows = zset_to_rows(&z);
    assert_eq!(rows.len(), 3);
    assert!(rows[0] == int_row(1));
    assert!(rows[1] == int_row(1));
    assert!(rows[2] == int_row(2));
}

#[test]
fn zset_to_strings_renders_and_sorts() {
    let mut z = ZSet::new();
    z.push_weighted(int_row(2), 1);
    z.push_weighted(int_row(1), 1);
    // Even without an explicit sort order the rows come out in
    // ascending key order, as a cursor over an ordered set walks them.
    let by_key = zset_to_strings(&z, "I".to_string(), SortOrder::NONE);
    assert_eq!(by_key, vec![vec!["1".to_string()], vec!["2".to_string()]]);
    let sorted = zset_to_strings(&z, "I".to_string(), SortOrder::ROW);
    assert_eq!(sorted, vec![vec!["1".to_string()], vec!["2".to_string()]]);

    let mut z = ZSet::new();
    z.push_weighted(pair_row(2, "b"), 1);
    z.push_weighted(pair_row(1, "a"), 1);
    let by_value = zset_to_strings(&z, "IT".to_string(), SortOrder::VALUE);
    assert_eq!(
        by_value,
        vec![
            vec!["1".to_string()],
            vec!["2".to_string()],
            vec!["a".to_string()],
            vec!["b".to_string()],
        ]
    );
}

#[test]
fn value_rendering_covers_all_kinds() {
    let mut row = Row::new();
    row.push(Value::Null);
    row.push(Value::Bool(true));
    row.push(Value::Bool(false));
    row.push(Value::Int(-5));
    row.push(Value::Str("x y".to_string()));
    let mut z = ZSet::new();
    z.push_weighted(row, 1);
    let rendered = zset_to_strings(&z, "TTTIT".to_string(), SortOrder::NONE);
    assert_eq!(
        rendered,
        vec![vec![
            "NULL".to_string(),
            "true".to_string(),
            "false".to_string(),
            "-5".to_string(),
            "x y".to_string(),
        ]]
    );
}

#[test]
fn hash_of_empty_zset() {
    let z = ZSet::new();
    let digest = hash(&z, "I".to_string(), SortOrder::ROW);
    assert_eq!(digest, "d41d8cd98f00b204e9800998ecf8427e");
}

#[test]
fn hash_is_order_insensitive_after_sorting() {
    let mut a = ZSet::new();
    a.push_weighted(int_row(2), 1);
    a.push_weighted(int_row(1), 1);
    let mut b = ZSet::new();
    b.push_weighted(int_row(1), 1);
    b.push_weighted(int_row(2), 1);
    let da = hash(&a, "I".to_string(), SortOrder::ROW);
    let db = hash(&b, "I".to_string(), SortOrder::ROW);
    assert_eq!(da, "6ddb4095eb719e2a9f0a3f95677d24e0");
    assert_eq!(db, "6ddb4095eb719e2a9f0a3f95677d24e0");
    // Even without table ordering the rows render in ascending key
    // order, so insertion order never shows through.
    let raw = hash(&a, "I".to_string(), SortOrder::NONE);
    assert_eq!(raw, "6ddb4095eb719e2a9f0a3f95677d24e0");
}

#[test]
fn hash_value_order_flattens_cells() {
    let mut z = ZSet::new();
    z.push_weighted(pair_row(2, "b"), 1);
    z.push_weighted(pair_row(1, "a"), 1);
    let digest = hash(&z, "IT".to_string(), SortOrder::VALUE);
    assert_eq!(digest, "d4a59fc154c4bba3dd6aa3f5a81de972");
}

#[test]
fn must_equal_detects_weight_differences() {
    let mut a = ZSet::new();
    a.push_weighted(int_row(1), 1);
    a.push_weighted(int_row(1), 1);
    let mut b = ZSet::new();
    b.push_weighted(int_row(1), 2);
    assert!(must_equal(&a, &b));
    let mut c = ZSet::new();
    c.push_weighted(int_row(1), 1);
    assert!(!must_equal(&a, &c));
    // Insert plus delete is the empty Z-set.
    let mut d = ZSet::new();
    d.push_weighted(int_row(9), 1);
    d.push_weighted(int_row(9), -1);
    assert!(must_equal(&d, &ZSet::new()));
}

#[test]
fn must_equal_sc_compares_stream_collections() {
    let left = vec![(int_row(1), 1_i32), (int_row(2), 1_i32)];
    let right = vec![(int_row(2), 1_i32), (int_row(1), 1_i32)];
    assert!(must_equal_sc(&left, &right));
    let shorter = vec![(int_row(1), 1_i32)];
    assert!(!must_equal_sc(&left, &shorter));
}

#[test]
fn to_elements_splits_entries() {
    let mut z = ZSet::new();
    z.push_weighted(int_row(1), 2);
    z.push_weighted(int_row(2), -1);
    let parts = to_elements(&z);
    assert_eq!(parts.len(), 2);
    assert_eq!(parts[0].weight_of_row(&int_row(1)), 2);
    assert_eq!(parts[1].weight_of_row(&int_row(2)), -1);
}

#[test]
fn to_elements_consolidates_and_orders() {
    let mut z = ZSet::new();
    z.push_weighted(int_row(3), 1);
    z.push_weighted(int_row(1), 1);
    z.push_weighted(int_row(3), 1);
    // Net weight zero: invisible, so it yields no element.
    z.push_weighted(int_row(2), 1);
    z.push_weighted(int_row(2), -1);
    let parts = to_elements(&z);
    assert_eq!(parts.len(), 2);
    // Ascending key order, one element per distinct row, net weights.
    assert_eq!(parts[0].weight_of_row(&int_row(1)), 1);
    assert_eq!(parts[0].len(), 1);
    assert_eq!(parts[1].weight_of_row(&int_row(3)), 2);
    assert_eq!(parts[1].len(), 1);
}

#[test]
fn zset_to_rows_orders_by_key() {
    let mut z = ZSet::new();
    z.push_weighted(int_row(2), 1);
    z.push_weighted(int_row(1), 2);
    let rows = zset_to_rows(&z);
    assert_eq!(rows.len(), 3);
    assert!(rows[0] == int_row(1));
    assert!(rows[1] == int_row(1));
    assert!(rows[2] == int_row(2));
}

#[test]
fn key_order_sorts_kind_then_contents() {
    assert_eq!(value_compare(&Value::Null, &Value::Bool(false)), Ordering::Less);
    assert_eq!(value_compare(&Value::Bool(false), &Value::Bool(true)), Ordering::Less);
    assert_eq!(value_compare(&Value::Int(7), &Value::Int(-2)), Ordering::Greater);
    assert_eq!(
        value_compare(&Value::Str("ab".to_string()), &Value::Str("b".to_string())),
        Ordering::Less
    );
    assert_eq!(value_compare(&Value::Int(0), &Value::Str("".to_string())), Ordering::Less);
    assert_eq!(key_compare(&int_row(1), &int_row(1)), Ordering::Equal);
    assert_eq!(key_compare(&int_row(1), &pair_row(1, "a")), Ordering::Less);
    assert_eq!(key_compare(&pair_row(2, "a"), &pair_row(1, "z")), Ordering::Greater);
}

#[test]
fn add_zset_tuple_accumulates() {
    let mut a = ZSet::new();
    a.push_weighted(int_row(1), 1);
    let mut b = ZSet::new();
    b.push_weighted(int_row(1), 2);
    let (sum,) = add_zset_tuple((a,), (b,));
    assert_eq!(sum.weight_of_row(&int_row(1)), 3);
}

#[test]
fn weighted_vector_count_multiplies() {
    let set = vec![
        (vec![int_row(1), int_row(2)], 2_i64),
        (vec![int_row(3)], -1_i64),
    ];
    assert_eq!(weighted_vector_count(&set), 3);
}

#[test]
fn vector_zsets_render_and_hash() {
    let set = vec![(vec![pair_row(1, "Flux Capacitor"), pair_row(2, "Warp Core")], 1_i64)];
    let table = zset_of_vectors_to_strings(&set, "IT".to_string(), SortOrder::NONE);
    assert_eq!(
        table,
        vec![
            vec!["1".to_string(), "Flux Capacitor".to_string()],
            vec!["2".to_string(), "Warp Core".to_string()],
        ]
    );
    let digest = hash_vectors(&set, "IT".to_string(), SortOrder::ROW);
    assert_eq!(digest, "10c16889516026021db21feff7d7bdb2");
}

#[test]
fn config_error_codes_and_messages() {
    let e = ConfigError::duplicate_input_endpoint("PART");
    assert_eq!(e.error_code(), "DuplicateInputEndpoint");
    assert_eq!(e.message(), "Input endpoint 'PART' already exists");
    let e = ConfigError::unknown_input_stream("T");
    assert_eq!(e.message(), "Unknown table 'T'");
    let e = ConfigError::unknown_output_stream("V");
    assert_eq!(e.message(), "Unknown output table or view 'V'");
    let e = ConfigError::config_parse_error("bad yaml");
    assert_eq!(e.error_code(), "ConfigParseError");
}

#[test]
fn controller_error_codes_and_messages() {
    let e = ControllerError::parse_error("ep", "missing field 'column_name'");
    assert_eq!(e.error_code(), "ParseError");
    assert_eq!(
        e.message(),
        "parse error on input endpoint 'ep': 'missing field 'column_name''"
    );
    let e = ControllerError::input_transport_error("ep", true, "gone");
    assert_eq!(e.message(), "FATAL error on input endpoint 'ep': 'gone'");
    let e = ControllerError::output_transport_error("ep", false, "slow");
    assert_eq!(e.message(), "error on output endpoint 'ep': 'slow'");
    let e = ControllerError::pipeline_terminating();
    assert_eq!(e.error_code(), "PipelineTerminating");
    let e = ControllerError::dbsp_error("CircuitFault");
    assert_eq!(e.error_code(), "CircuitFault");
    let e = ControllerError::unknown_input_format("xml");
    assert_eq!(e.error_code(), "ConfigError.UnknownInputFormat");
    let e = ControllerError::io_error("reading config".to_string(), "PermissionDenied", Some(13));
    assert_eq!(e.error_code(), "ControllerIOError");
    assert_eq!(e.message(), "I/O error reading config: PermissionDenied");
    let e = ControllerError::cli_args_error("bad flag");
    assert_eq!(e.error_code(), "ControllerCliArgsError");
    let e = ControllerError::prometheus_error("scrape failed");
    assert_eq!(e.error_code(), "PrometheusError");
    let e = ControllerError::encode_error("out", "bad row");
    assert_eq!(e.error_code(), "EncodeError");
    let e = ControllerError::unknown_output_transport("pigeon");
    assert_eq!(e.error_code(), "ConfigError.UnknownOutputTransport");
    let e = ControllerError::dbsp_panic();
    assert_eq!(e.error_code(), "DbspPanic");
}

#[test]
fn api_error_codes_and_actions() {
    let e = ApiError::InvalidPipelineAction {
        action: "my_action".to_string(),
    };
    assert_eq!(e.error_code(), "InvalidPipelineAction");
    assert_eq!(e.status_code(), 400);
    assert_eq!(
        e.message(),
        "Invalid pipeline action 'my_action'; valid actions are: 'deploy', 'start', 'pause', or 'shutdown'"
    );
    assert!(parse_pipeline_action("deploy").is_ok());
    assert!(parse_pipeline_action("start").is_ok());
    assert!(parse_pipeline_action("pause").is_ok());
    assert!(parse_pipeline_action("shutdown").is_ok());
    let err = parse_pipeline_action("my_action").unwrap_err();
    assert_eq!(err.error_code(), "InvalidPipelineAction");
}
