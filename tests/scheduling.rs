use bq_gateway::cursor::{CellRead, CursorDecoder, CursorStep};
use bq_gateway::decode::Row;
use bq_gateway::error::GatewayError;
use bq_gateway::fanout::{FanOutStep, TableFanOut, MAX_IN_FLIGHT};
use bq_gateway::json::JsonValue;
use bq_gateway::schema::{fetch_columns_for_table, BigQuery, QueryRoot, TableColumn};
use bq_gateway::auth::bearer_token;

fn names(n: usize) -> Vec<String> {
    (0..n).map(|i| format!("ds{}", i)).collect()
}

fn tables_of(dataset: &str) -> Vec<String> {
    vec![format!("{}.a", dataset), format!("{}.b", dataset)]
}

/// Drives a listing; `pick` chooses which outstanding request completes
/// next, `fails` which dataset's request fails. Returns the outcome and the
/// peak number of outstanding requests.
fn drive(
    n: usize,
    fails: Option<usize>,
    mut pick: impl FnMut(&Vec<usize>) -> usize,
) -> (Result<Vec<String>, GatewayError>, usize) {
    let mut fan = TableFanOut::new(names(n));
    let mut outstanding: Vec<usize> = Vec::new();
    let mut peak = 0;
    loop {
        match fan.next_step() {
            FanOutStep::Launch(i) => {
                outstanding.push(i);
                peak = peak.max(outstanding.len());
            }
            FanOutStep::Wait => {
                let k = pick(&outstanding);
                let i = outstanding.remove(k);
                let outcome = if Some(i) == fails {
                    Err(GatewayError::Transport(format!("dataset {} failed", i)))
                } else {
                    Ok(tables_of(fan.dataset(i)))
                };
                fan.complete(i, outcome);
            }
            FanOutStep::Done => break,
        }
    }
    assert!(fan.is_finished());
    (fan.outcome(), peak)
}

#[test]
fn all_datasets_succeed_in_dataset_order() {
    let (r, _) = drive(3, None, |o| o.len() - 1);
    assert_eq!(
        r.unwrap(),
        vec!["ds0.a", "ds0.b", "ds1.a", "ds1.b", "ds2.a", "ds2.b"]
            .into_iter()
            .map(String::from)
            .collect::<Vec<_>>()
    );
}

#[test]
fn one_failing_dataset_fails_the_listing_in_any_order() {
    for failing in 0..3 {
        for order in 0..3 {
            let (r, _) = drive(3, Some(failing), |o| (order + o.len()) % o.len());
            assert_eq!(r, Err(GatewayError::Transport(format!("dataset {} failed", failing))));
        }
    }
}

#[test]
fn first_reported_failure_is_kept() {
    let mut fan = TableFanOut::new(names(2));
    assert_eq!(fan.next_step(), FanOutStep::Launch(0));
    assert_eq!(fan.next_step(), FanOutStep::Launch(1));
    fan.complete(1, Err(GatewayError::Transport("second".to_string())));
    assert_eq!(fan.next_step(), FanOutStep::Done);
    fan.complete(0, Err(GatewayError::Transport("first".to_string())));
    assert_eq!(fan.outcome(), Err(GatewayError::Transport("second".to_string())));
}

#[test]
fn never_more_than_ten_outstanding() {
    let mut seed: u64 = 7;
    let (r, peak) = drive(500, None, |o| {
        seed = seed.wrapping_mul(6364136223846793005).wrapping_add(1442695040888963407);
        (seed >> 33) as usize % o.len()
    });
    assert_eq!(MAX_IN_FLIGHT, 10);
    assert_eq!(peak, 10);
    assert_eq!(r.unwrap().len(), 1000);
}

#[test]
fn no_datasets_no_tables() {
    let (r, peak) = drive(0, None, |_| 0);
    assert_eq!(r, Ok(vec![]));
    assert_eq!(peak, 0);
}

fn decode_cursor(columns: Vec<&str>, advances: Vec<bool>, mut reads: Vec<CellRead>) -> (Vec<Row>, usize) {
    let count = advances.len();
    let mut dec = CursorDecoder::new(columns.into_iter().map(String::from).collect(), count);
    let mut advances = advances.into_iter();
    let mut made = 0;
    reads.reverse();
    loop {
        match dec.next_step() {
            CursorStep::Advance => {
                made += 1;
                dec.advanced(advances.next().unwrap());
            }
            CursorStep::Read(_) => dec.read(reads.pop().unwrap()),
            CursorStep::Done => break,
        }
    }
    assert!(reads.is_empty());
    (dec.into_rows(), made)
}

#[test]
fn cursor_reads_every_column_and_nulls_what_is_missing() {
    let (rows, made) = decode_cursor(
        vec!["numbers", "letters"],
        vec![true, true],
        vec![
            CellRead::Value(JsonValue::Str("123".to_string())),
            CellRead::Absent,
            CellRead::Failed,
            CellRead::Value(JsonValue::Str("abc".to_string())),
        ],
    );
    assert_eq!(made, 2);
    assert_eq!(
        rows,
        vec![
            Row {
                entries: vec![
                    ("numbers".to_string(), JsonValue::Str("123".to_string())),
                    ("letters".to_string(), JsonValue::Null),
                ]
            },
            Row {
                entries: vec![
                    ("numbers".to_string(), JsonValue::Null),
                    ("letters".to_string(), JsonValue::Str("abc".to_string())),
                ]
            },
        ]
    );
}

#[test]
fn cursor_skips_failed_advances_but_tries_row_count_times() {
    let (rows, made) = decode_cursor(
        vec!["x"],
        vec![false, true, false],
        vec![CellRead::Value(JsonValue::Bool(true))],
    );
    assert_eq!(made, 3);
    assert_eq!(rows, vec![Row { entries: vec![("x".to_string(), JsonValue::Bool(true))] }]);
}

#[test]
fn cursor_without_columns_gives_empty_rows() {
    let (rows, made) = decode_cursor(vec![], vec![true, true], vec![]);
    assert_eq!(made, 2);
    assert_eq!(rows, vec![Row { entries: vec![] }, Row { entries: vec![] }]);
}

#[test]
fn bearer_tokens() {
    assert_eq!(bearer_token("Bearer abc"), Some("abc".to_string()));
    assert_eq!(bearer_token("Bearer   abc \t"), Some("abc".to_string()));
    assert_eq!(bearer_token("Bearer "), Some("".to_string()));
    assert_eq!(bearer_token("bearer abc"), None);
    assert_eq!(bearer_token("Basic abc"), None);
    assert_eq!(bearer_token("Bear"), None);
    assert_eq!(BigQuery.ctx_auth_token(None), None);
    assert_eq!(BigQuery.ctx_auth_token(Some("Bearer t0k")), Some("t0k".to_string()));
}

#[test]
fn schema_objects() {
    assert_eq!(QueryRoot.bigquery(), BigQuery);
    assert_eq!(
        fetch_columns_for_table("any"),
        vec![TableColumn { name: "Column1".to_string() }, TableColumn { name: "Column2".to_string() }]
    );
}
