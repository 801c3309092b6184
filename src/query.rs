//! The bearer strategy of query execution: what is sent to the warehouse's
//! REST query endpoint, and what its answer means.

use vstd::prelude::*;

use crate::decode::{decode_envelope, decoded, rows_model, Row};
use crate::error::GatewayError;
use crate::json::{entry_value, member_or_null, take_entry, JsonValue};

verus! {

/// A query to post: where, and with which JSON body. The bearer token goes
/// in the `Authorization` header.
#[derive(Debug, PartialEq)]
pub struct QueryRequest {
    pub url: String,
    pub body: JsonValue,
}

pub open spec fn endpoint_text(project: Seq<char>) -> Seq<char> {
    "https://bigquery.googleapis.com/bigquery/v2/projects/"@ + project + "/queries"@
}

/// The query endpoint of a project.
pub fn query_endpoint(project: &str) -> (r: String)
    ensures
        r@ == endpoint_text(project@),
{
    let mut url = String::from_str("https://bigquery.googleapis.com/bigquery/v2/projects/");
    url.append(project);
    url.append("/queries");
    url
}

/// `{"query": <sql>, "useLegacySql": false}`, in that order.
pub open spec fn is_query_body(body: JsonValue, sql: Seq<char>) -> bool {
    &&& body matches JsonValue::Object(e)
    &&& e@.len() == 2
    &&& e@[0].0@ == "query"@
    &&& e@[0].1 matches JsonValue::Str(q)
    &&& q@ == sql
    &&& e@[1].0@ == "useLegacySql"@
    &&& e@[1].1 == JsonValue::Bool(false)
}

/// The request that runs `sql` in `project`, in standard SQL.
pub fn query_request(project: &str, sql: &str) -> (r: QueryRequest)
    ensures
        r.url@ == endpoint_text(project@),
        is_query_body(r.body, sql@),
{
    let mut entries: Vec<(String, JsonValue)> = Vec::new();
    entries.push((String::from_str("query"), JsonValue::Str(String::from_str(sql))));
    entries.push((String::from_str("useLegacySql"), JsonValue::Bool(false)));
    QueryRequest { url: query_endpoint(project), body: JsonValue::Object(entries) }
}

/// HTTP statuses of the 2xx class.
pub open spec fn is_success(status: u16) -> bool {
    200 <= status <= 299
}

pub fn is_success_status(status: u16) -> (r: bool)
    ensures
        r == is_success(status),
{
    200 <= status && status <= 299
}

/// The reason reported for a failed query: `error.message` when `error` is
/// an object (`Unknown error` when it has no string message), else a
/// generic one.
pub open spec fn failure_reason(body: JsonValue) -> Seq<char> {
    match member_or_null(body, "error"@) {
        JsonValue::Object(e) => match entry_value(e@, "message"@) {
            Some(JsonValue::Str(m)) => m@,
            _ => "Unknown error"@,
        },
        _ => "BigQuery API request failed"@,
    }
}

/// The reason reported for a failed query, taken out of its body.
pub fn failure_reason_of(body: JsonValue) -> (r: String)
    ensures
        r@ == failure_reason(body),
{
    let error = match body {
        JsonValue::Object(entries) => {
            let mut entries = entries;
            take_entry(&mut entries, "error")
        },
        _ => None,
    };
    match error {
        Some(JsonValue::Object(e)) => {
            let mut e = e;
            match take_entry(&mut e, "message") {
                Some(JsonValue::Str(m)) => m,
                _ => String::from_str("Unknown error"),
            }
        },
        _ => String::from_str("BigQuery API request failed"),
    }
}

/// What the answer to a query means: on a 2xx status the decoded rows, or
/// the decode failure; on any other status the warehouse's reason.
pub fn query_outcome(status: u16, body: JsonValue) -> (r: Result<Vec<Row>, GatewayError>)
    ensures
        is_success(status) ==> match decoded(body) {
            Ok(rows) => r is Ok && rows_model(r->Ok_0@) == rows,
            Err(e) => r == Err::<Vec<Row>, GatewayError>(GatewayError::Decode(e)),
        },
        !is_success(status) ==> (r matches Err(GatewayError::WarehouseQuery(m)) && m@ == failure_reason(body)),
{
    if is_success_status(status) {
        match decode_envelope(body) {
            Ok(rows) => Ok(rows),
            Err(e) => Err(GatewayError::Decode(e)),
        }
    } else {
        Err(GatewayError::WarehouseQuery(failure_reason_of(body)))
    }
}

} // verus!
