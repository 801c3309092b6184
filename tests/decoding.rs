use bq_gateway::decode::{decode_envelope, DecodeError, Row};
use bq_gateway::error::{FieldError, GatewayError};
use bq_gateway::json::JsonValue;
use bq_gateway::query::{query_endpoint, query_outcome, query_request, is_success_status};

fn text(s: &str) -> JsonValue {
    JsonValue::Str(s.to_string())
}

fn object(entries: Vec<(&str, JsonValue)>) -> JsonValue {
    JsonValue::Object(entries.into_iter().map(|(k, v)| (k.to_string(), v)).collect())
}

fn schema(names: &[&str]) -> JsonValue {
    object(vec![(
        "fields",
        JsonValue::Array(names.iter().map(|n| object(vec![("name", text(n))])).collect()),
    )])
}

fn envelope_row(values: Vec<JsonValue>) -> JsonValue {
    object(vec![(
        "f",
        JsonValue::Array(values.into_iter().map(|v| object(vec![("v", v)])).collect()),
    )])
}

fn row(entries: Vec<(&str, JsonValue)>) -> Row {
    Row { entries: entries.into_iter().map(|(k, v)| (k.to_string(), v)).collect() }
}

#[test]
fn test_run_query_auth_basic_select_ok() {
    let request = query_request("proj", "select 123 as numbers, 'abc' as letters");
    assert_eq!(
        request.body,
        object(vec![
            ("query", text("select 123 as numbers, 'abc' as letters")),
            ("useLegacySql", JsonValue::Bool(false)),
        ])
    );
    let body = object(vec![
        ("schema", schema(&["numbers", "letters"])),
        ("rows", JsonValue::Array(vec![envelope_row(vec![text("123"), text("abc")])])),
    ]);
    let expected = vec![row(vec![("numbers", text("123")), ("letters", text("abc"))])];
    let tested = query_outcome(200, body).expect("Query failed");
    assert_eq!(tested, expected);
}

#[test]
fn test_run_query_auth_create_table_empty_output() {
    let body = object(vec![("schema", schema(&[])), ("kind", text("bigquery#queryResponse"))]);
    let expected: Vec<Row> = vec![];
    let tested = query_outcome(200, body).expect("Query failed");
    assert_eq!(tested, expected);
}

#[test]
fn test_run_query_auth_incorrect_query_error() {
    let body = object(vec![(
        "error",
        object(vec![
            ("code", JsonValue::Number("400".to_string())),
            ("message", text("Syntax error: Unexpected keyword SOME at [1:1]")),
        ]),
    )]);
    match query_outcome(400, body) {
        Ok(_) => panic!("Expected an error but query succeeded"),
        Err(e) => {
            assert!(matches!(e, GatewayError::WarehouseQuery(_)));
            assert!(
                e.message().contains("Syntax error: Unexpected keyword SOME at [1:1]"),
                "Error message did not match expected value"
            );
        }
    }
}

#[test]
fn failed_status_without_error_object_is_generic() {
    let e = query_outcome(503, text("unavailable")).unwrap_err();
    assert_eq!(e, GatewayError::WarehouseQuery("BigQuery API request failed".to_string()));
}

#[test]
fn error_object_without_message_is_unknown() {
    let body = object(vec![("error", object(vec![("code", JsonValue::Number("403".to_string()))]))]);
    let e = query_outcome(403, body).unwrap_err();
    assert_eq!(e, GatewayError::WarehouseQuery("Unknown error".to_string()));
}

#[test]
fn success_with_bad_schema_is_decode_error() {
    let body = object(vec![("rows", JsonValue::Array(vec![]))]);
    assert_eq!(query_outcome(200, body).unwrap_err(), GatewayError::Decode(DecodeError::InvalidSchema));
}

#[test]
fn status_classes() {
    assert!(is_success_status(200));
    assert!(is_success_status(299));
    assert!(!is_success_status(199));
    assert!(!is_success_status(300));
    assert!(!is_success_status(400));
}

#[test]
fn endpoint_names_the_project() {
    assert_eq!(query_endpoint("my-proj"), "https://bigquery.googleapis.com/bigquery/v2/projects/my-proj/queries");
    let request = query_request("proj-a", "select 1");
    assert_eq!(request.url, "https://bigquery.googleapis.com/bigquery/v2/projects/proj-a/queries");
}

#[test]
fn rows_keep_count_and_order() {
    let body = object(vec![
        ("schema", schema(&["n"])),
        (
            "rows",
            JsonValue::Array(vec![
                envelope_row(vec![text("3")]),
                envelope_row(vec![text("1")]),
                envelope_row(vec![text("2")]),
            ]),
        ),
    ]);
    let rows = decode_envelope(body).unwrap();
    assert_eq!(
        rows,
        vec![row(vec![("n", text("3"))]), row(vec![("n", text("1"))]), row(vec![("n", text("2"))])]
    );
}

#[test]
fn short_row_keeps_only_leading_columns() {
    let body = object(vec![
        ("schema", schema(&["a", "b", "c"])),
        ("rows", JsonValue::Array(vec![envelope_row(vec![text("1")])])),
    ]);
    let rows = decode_envelope(body).unwrap();
    assert_eq!(rows, vec![row(vec![("a", text("1"))])]);
}

#[test]
fn row_without_values_is_empty() {
    let body = object(vec![
        ("schema", schema(&["a", "b"])),
        ("rows", JsonValue::Array(vec![object(vec![]), object(vec![("f", text("x"))])])),
    ]);
    let rows = decode_envelope(body).unwrap();
    assert_eq!(rows, vec![row(vec![]), row(vec![])]);
}

#[test]
fn absent_rows_decode_to_nothing() {
    let body = object(vec![("schema", schema(&["a"]))]);
    assert_eq!(decode_envelope(body), Ok(vec![]));
}

#[test]
fn non_array_rows_are_refused() {
    let body = object(vec![("schema", schema(&["a"])), ("rows", text("oops"))]);
    assert_eq!(decode_envelope(body), Err(DecodeError::InvalidRows));
    let body = object(vec![("schema", schema(&["a"])), ("rows", JsonValue::Null)]);
    assert_eq!(decode_envelope(body), Err(DecodeError::InvalidRows));
}

#[test]
fn malformed_schema_is_refused() {
    assert_eq!(decode_envelope(JsonValue::Null), Err(DecodeError::InvalidSchema));
    let body = object(vec![("schema", object(vec![("fields", text("x"))]))]);
    assert_eq!(decode_envelope(body), Err(DecodeError::InvalidSchema));
    let body = object(vec![("schema", schema(&["a"])), ("rows", text("x"))]);
    assert_eq!(decode_envelope(body), Err(DecodeError::InvalidRows));
}

#[test]
fn cell_without_value_is_null_and_nested_values_pass() {
    let nested = || JsonValue::Array(vec![object(vec![("v", text("x"))])]);
    let body = object(vec![
        ("schema", schema(&["a", "b"])),
        (
            "rows",
            JsonValue::Array(vec![object(vec![(
                "f",
                JsonValue::Array(vec![object(vec![]), object(vec![("v", nested())])]),
            )])]),
        ),
    ]);
    let rows = decode_envelope(body).unwrap();
    assert_eq!(rows, vec![row(vec![("a", JsonValue::Null), ("b", nested())])]);
}

#[test]
fn unnamed_field_gets_empty_name_and_duplicates_keep_last_value() {
    let fields = JsonValue::Array(vec![object(vec![]), object(vec![("name", text("a"))]), object(vec![("name", text("a"))])]);
    let body = object(vec![
        ("schema", object(vec![("fields", fields)])),
        ("rows", JsonValue::Array(vec![envelope_row(vec![text("0"), text("1"), text("2")])])),
    ]);
    let rows = decode_envelope(body).unwrap();
    assert_eq!(rows, vec![row(vec![("", text("0")), ("a", text("2"))])]);
}

#[test]
fn error_messages_by_kind() {
    assert_eq!(GatewayError::Configuration("BIGQUERY_SA_KEY_FILE is not set".to_string()).message(), "BIGQUERY_SA_KEY_FILE is not set");
    assert_eq!(GatewayError::Transport("connection refused".to_string()).message(), "connection refused");
    assert_eq!(GatewayError::WarehouseQuery("Not found".to_string()).message(), "Not found");
    assert_eq!(GatewayError::Decode(DecodeError::InvalidSchema).message(), "Invalid schema format");
    assert_eq!(GatewayError::Decode(DecodeError::InvalidRows).message(), "Invalid rows format");
    assert_eq!(
        GatewayError::FieldMapping(FieldError::Missing("total_rows".to_string())).message(),
        "Missing 'total_rows'"
    );
    assert_eq!(FieldError::InvalidFormat("x".to_string()).field(), "x");
}
