use bq_gateway::decode::Row;
use bq_gateway::error::{FieldError, GatewayError};
use bq_gateway::json::JsonValue;
use bq_gateway::numeric::{is_float_text, parse_i64, parse_u64};
use bq_gateway::record::{map_record, FieldKind, FieldSpec, FieldValue};
use bq_gateway::tables::{
    effective_limit, push_decimal, table_info_fields, table_info_outcome, table_info_sql, table_rows_sql, TableInfo,
    DEFAULT_LIMIT,
};

fn s(v: &str) -> JsonValue {
    JsonValue::Str(v.to_string())
}

fn info_row(total_rows: Option<JsonValue>) -> Row {
    let mut entries = vec![
        ("table_name".to_string(), s("t1")),
        ("dataset_name".to_string(), s("raw")),
        ("created_millis".to_string(), s("1.6951326464E9")),
    ];
    if let Some(v) = total_rows {
        entries.push(("total_rows".to_string(), v));
    }
    entries.push(("total_logical_bytes".to_string(), s("34")));
    entries.push(("total_physical_bytes".to_string(), s("-9200")));
    entries.push(("last_modified_millis".to_string(), s("1695132646393")));
    Row { entries }
}

#[test]
fn missing_total_rows_names_the_field() {
    let e = TableInfo::from_row(&info_row(None)).unwrap_err();
    assert_eq!(e, FieldError::Missing("total_rows".to_string()));
    assert_eq!(e.message(), "Missing 'total_rows'");
}

#[test]
fn malformed_total_rows_names_the_field() {
    let e = TableInfo::from_row(&info_row(Some(s("abc")))).unwrap_err();
    assert_eq!(e, FieldError::InvalidFormat("total_rows".to_string()));
    assert_eq!(e.message(), "Invalid format for 'total_rows'");
    assert_ne!(e, FieldError::Missing("total_rows".to_string()));
}

#[test]
fn non_string_value_counts_as_missing() {
    let e = TableInfo::from_row(&info_row(Some(JsonValue::Number("1".to_string())))).unwrap_err();
    assert_eq!(e, FieldError::Missing("total_rows".to_string()));
}

#[test]
fn complete_row_maps_every_field() {
    let info = TableInfo::from_row(&info_row(Some(s("7")))).unwrap();
    assert_eq!(
        info,
        TableInfo {
            table_name: "t1".to_string(),
            dataset_name: "raw".to_string(),
            created_millis: "1.6951326464E9".to_string(),
            total_rows: 7,
            total_logical_bytes: 34,
            total_physical_bytes: -9200,
            last_modified_millis: "1695132646393".to_string(),
        }
    );
    assert_eq!(info.name(), "t1");
}

#[test]
fn first_failing_field_wins() {
    let row = Row { entries: vec![("b".to_string(), s("x"))] };
    let fields = vec![
        FieldSpec { name: "a".to_string(), kind: FieldKind::Text },
        FieldSpec { name: "b".to_string(), kind: FieldKind::Unsigned },
    ];
    assert_eq!(map_record(&row, &fields), Err(FieldError::Missing("a".to_string())));
    let fields = vec![
        FieldSpec { name: "b".to_string(), kind: FieldKind::Text },
        FieldSpec { name: "b".to_string(), kind: FieldKind::Float },
    ];
    assert_eq!(map_record(&row, &fields), Err(FieldError::InvalidFormat("b".to_string())));
    let fields = vec![FieldSpec { name: "b".to_string(), kind: FieldKind::Text }];
    assert_eq!(map_record(&row, &fields), Ok(vec![FieldValue::Text("x".to_string())]));
}

#[test]
fn field_table_order() {
    let names: Vec<String> = table_info_fields().into_iter().map(|f| f.name).collect();
    assert_eq!(
        names,
        vec![
            "table_name",
            "dataset_name",
            "created_millis",
            "total_rows",
            "total_logical_bytes",
            "total_physical_bytes",
            "last_modified_millis"
        ]
    );
}

#[test]
fn unsigned_parsing() {
    assert_eq!(parse_u64("0"), Some(0));
    assert_eq!(parse_u64("+42"), Some(42));
    assert_eq!(parse_u64("18446744073709551615"), Some(u64::MAX));
    assert_eq!(parse_u64("18446744073709551616"), None);
    assert_eq!(parse_u64(""), None);
    assert_eq!(parse_u64("+"), None);
    assert_eq!(parse_u64("-1"), None);
    assert_eq!(parse_u64("12a"), None);
    assert_eq!(parse_u64(" 1"), None);
    assert_eq!(parse_u64("99999999999999999999x"), None);
}

#[test]
fn signed_parsing() {
    assert_eq!(parse_i64("-9223372036854775808"), Some(i64::MIN));
    assert_eq!(parse_i64("9223372036854775807"), Some(i64::MAX));
    assert_eq!(parse_i64("9223372036854775808"), None);
    assert_eq!(parse_i64("-9223372036854775809"), None);
    assert_eq!(parse_i64("+5"), Some(5));
    assert_eq!(parse_i64("-"), None);
    assert_eq!(parse_i64("--1"), None);
}

#[test]
fn parsing_agrees_with_std() {
    for t in ["0", "+0", "-0", "007", "123456789", "-42", "+-1", "", "1e3", "18446744073709551615", "9223372036854775807"] {
        assert_eq!(parse_u64(t), t.parse::<u64>().ok(), "{}", t);
        assert_eq!(parse_i64(t), t.parse::<i64>().ok(), "{}", t);
    }
}

#[test]
fn float_text_agrees_with_std() {
    for t in [
        "1", "1.", ".5", "1.5", "-2.5e10", "1E-3", "+.1e+1", "inf", "-Infinity", "NaN", "nan", ".", "", "e5", "1e",
        "1.2.3", "1e5.0", "infinit", "+", "1_000", " 1", "1.6951326464E9",
    ] {
        assert_eq!(is_float_text(t), t.parse::<f64>().is_ok(), "{}", t);
    }
}

#[test]
fn limits_and_decimal_text() {
    assert_eq!(DEFAULT_LIMIT, 5);
    assert_eq!(effective_limit(None), 5);
    assert_eq!(effective_limit(Some(12)), 12);
    let mut out = String::from("n=");
    push_decimal(&mut out, 0);
    assert_eq!(out, "n=0");
    let mut out = String::new();
    push_decimal(&mut out, u64::MAX);
    assert_eq!(out, u64::MAX.to_string());
}

#[test]
fn table_rows_statement() {
    assert_eq!(table_rows_sql("raw", "events", None), "SELECT * FROM raw.events LIMIT 5");
    assert_eq!(table_rows_sql("raw", "events", Some(250)), "SELECT * FROM raw.events LIMIT 250");
}

#[test]
fn table_info_statement_appends_filter_verbatim() {
    let q = table_info_sql("proj", Some("and t.table_name = 'test_table_info_table'"), Some(10));
    assert!(q.starts_with("SELECT t.table_name, t.table_schema AS dataset_name"));
    assert!(q.contains("FROM `proj.region-us.INFORMATION_SCHEMA.TABLE_STORAGE` t"));
    assert!(q.ends_with("WHERE t.project_id = 'proj' and t.table_name = 'test_table_info_table' LIMIT 10"));
    let q = table_info_sql("proj", None, None);
    assert!(q.ends_with("WHERE t.project_id = 'proj'  LIMIT 5"));
}

fn envelope(rows: Vec<Vec<&str>>) -> JsonValue {
    let names = [
        "table_name",
        "dataset_name",
        "created_millis",
        "total_rows",
        "total_logical_bytes",
        "total_physical_bytes",
        "last_modified_millis",
    ];
    let fields = names
        .iter()
        .map(|n| JsonValue::Object(vec![("name".to_string(), s(n))]))
        .collect();
    let rows = rows
        .into_iter()
        .map(|r| {
            JsonValue::Object(vec![(
                "f".to_string(),
                JsonValue::Array(r.into_iter().map(|v| JsonValue::Object(vec![("v".to_string(), s(v))])).collect()),
            )])
        })
        .collect();
    JsonValue::Object(vec![
        ("schema".to_string(), JsonValue::Object(vec![("fields".to_string(), JsonValue::Array(fields))])),
        ("rows".to_string(), JsonValue::Array(rows)),
    ])
}

#[test]
fn test_tables_info_returned() {
    let body = envelope(vec![vec![
        "test_table_info_table",
        "raw",
        "1.695132646393E9",
        "1",
        "24",
        "9216",
        "1.695132646393E9",
    ]]);
    let tested = table_info_outcome(200, body).expect("Query failed");
    println!("{:?}", tested);
    assert_eq!(tested.len(), 1);
    let result = &tested[0];
    assert_eq!(result.table_name, "test_table_info_table");
    assert_eq!(result.dataset_name, "raw");
    assert_eq!(result.total_rows, 1);
    assert!(result.total_logical_bytes > 10);
    assert!(result.total_physical_bytes > 9000);
    assert!(result.created_millis.parse::<f64>().unwrap().is_sign_positive());
    assert!(result.last_modified_millis.parse::<f64>().unwrap().is_sign_positive());
}

#[test]
fn one_bad_row_fails_the_listing() {
    let body = envelope(vec![
        vec!["a", "raw", "1", "1", "1", "1", "1"],
        vec!["b", "raw", "1", "abc", "1", "1", "1"],
    ]);
    assert_eq!(
        table_info_outcome(200, body).unwrap_err(),
        GatewayError::FieldMapping(FieldError::InvalidFormat("total_rows".to_string()))
    );
}

#[test]
fn listing_failure_status_passes_reason() {
    let body = JsonValue::Object(vec![(
        "error".to_string(),
        JsonValue::Object(vec![("message".to_string(), s("Access Denied"))]),
    )]);
    assert_eq!(
        table_info_outcome(403, body).unwrap_err(),
        GatewayError::WarehouseQuery("Access Denied".to_string())
    );
}
