//! Table metadata: the statement that lists tables with their storage
//! figures, and the records made of its rows.

use vstd::prelude::*;

use crate::decode::{decoded, rows_model, Row, RowModel};
use crate::error::{FieldError, GatewayError};
use crate::json::JsonValue;
use crate::query::{failure_reason, is_success, query_outcome};
use crate::numeric::float_text;
use crate::record::{map_record, read_fields, reports, specs_model, values_model, Failure, FieldKind, FieldSpec, FieldValue, Reading};

verus! {

/// The number of results a listing returns when the caller sets none.
pub const DEFAULT_LIMIT: u64 = 5;

/// The caller's cap, or the default one.
pub fn effective_limit(limit: Option<u64>) -> (r: u64)
    ensures
        r == match limit {
            Some(n) => n,
            None => DEFAULT_LIMIT,
        },
{
    match limit {
        Some(n) => n,
        None => DEFAULT_LIMIT,
    }
}

pub open spec fn digit_char(d: nat) -> char {
    seq!['0', '1', '2', '3', '4', '5', '6', '7', '8', '9'][d as int]
}

/// The decimal digits of `n`, without leading zeros.
pub open spec fn decimal_digits(n: nat) -> Seq<char>
    decreases n,
{
    if n < 10 {
        seq![digit_char(n)]
    } else {
        decimal_digits(n / 10) + seq![digit_char(n % 10)]
    }
}

fn digit_text(d: u64) -> (r: &'static str)
    requires
        d < 10,
    ensures
        r@ == seq![digit_char(d as nat)],
{
    proof {
        reveal_strlit("0");
        reveal_strlit("1");
        reveal_strlit("2");
        reveal_strlit("3");
        reveal_strlit("4");
        reveal_strlit("5");
        reveal_strlit("6");
        reveal_strlit("7");
        reveal_strlit("8");
        reveal_strlit("9");
    }
    match d {
        0 => "0",
        1 => "1",
        2 => "2",
        3 => "3",
        4 => "4",
        5 => "5",
        6 => "6",
        7 => "7",
        8 => "8",
        _ => "9",
    }
}

/// Appends the decimal digits of `n`.
pub fn push_decimal(out: &mut String, n: u64)
    ensures
        final(out)@ == old(out)@ + decimal_digits(n as nat),
    decreases n,
{
    if n >= 10 {
        push_decimal(out, n / 10);
    }
    out.append(digit_text(n % 10));
    proof {
        if n < 10 {
            assert(n % 10 == n);
        }
    }
}

pub open spec fn table_info_sql_text(project: Seq<char>, filter: Seq<char>, limit: u64) -> Seq<char> {
    "SELECT t.table_name, t.table_schema AS dataset_name, t.creation_time AS created_millis, t.total_rows, t.total_logical_bytes, t.total_physical_bytes, t.storage_last_modified_time AS last_modified_millis FROM `"@
        + project + ".region-us.INFORMATION_SCHEMA.TABLE_STORAGE` t WHERE t.project_id = '"@ + project + "' "@
        + filter + " LIMIT "@ + decimal_digits(limit as nat)
}

/// The statement listing the tables of `project` with their storage
/// figures, from the region's storage catalog. The filter, when given, is
/// appended to the `WHERE` clause as it is, without any escaping: callers
/// must only pass trusted text.
pub fn table_info_sql(project: &str, filter: Option<&str>, limit: Option<u64>) -> (r: String)
    ensures
        r@ == table_info_sql_text(
            project@,
            match filter {
                Some(f) => f@,
                None => Seq::empty(),
            },
            match limit {
                Some(n) => n,
                None => DEFAULT_LIMIT,
            },
        ),
{
    let mut q = String::from_str(
        "SELECT t.table_name, t.table_schema AS dataset_name, t.creation_time AS created_millis, t.total_rows, t.total_logical_bytes, t.total_physical_bytes, t.storage_last_modified_time AS last_modified_millis FROM `",
    );
    q.append(project);
    q.append(".region-us.INFORMATION_SCHEMA.TABLE_STORAGE` t WHERE t.project_id = '");
    q.append(project);
    q.append("' ");
    match filter {
        Some(f) => q.append(f),
        None => {
            proof {
                assert(q@ + Seq::<char>::empty() =~= q@);
            }
        },
    }
    q.append(" LIMIT ");
    push_decimal(&mut q, effective_limit(limit));
    q
}

pub open spec fn table_rows_sql_text(dataset: Seq<char>, table: Seq<char>, limit: u64) -> Seq<char> {
    "SELECT * FROM "@ + dataset + "."@ + table + " LIMIT "@ + decimal_digits(limit as nat)
}

/// The statement reading the first rows of a table.
pub fn table_rows_sql(dataset: &str, table: &str, limit: Option<u64>) -> (r: String)
    ensures
        r@ == table_rows_sql_text(
            dataset@,
            table@,
            match limit {
                Some(n) => n,
                None => DEFAULT_LIMIT,
            },
        ),
{
    let mut q = String::from_str("SELECT * FROM ");
    q.append(dataset);
    q.append(".");
    q.append(table);
    q.append(" LIMIT ");
    push_decimal(&mut q, effective_limit(limit));
    q
}

/// A table with its storage figures. The two times are kept as the decimal
/// text the warehouse sent, which `parse::<f64>` accepts.
#[derive(Debug, PartialEq)]
pub struct TableInfo {
    pub table_name: String,
    pub dataset_name: String,
    pub created_millis: String,
    pub total_rows: u64,
    pub total_logical_bytes: i64,
    pub total_physical_bytes: i64,
    pub last_modified_millis: String,
}

/// The fields of a `TableInfo`, in the order they are read.
pub open spec fn table_info_layout() -> Seq<(Seq<char>, FieldKind)> {
    seq![
        ("table_name"@, FieldKind::Text),
        ("dataset_name"@, FieldKind::Text),
        ("created_millis"@, FieldKind::Float),
        ("total_rows"@, FieldKind::Unsigned),
        ("total_logical_bytes"@, FieldKind::Signed),
        ("total_physical_bytes"@, FieldKind::Signed),
        ("last_modified_millis"@, FieldKind::Float),
    ]
}

/// The field table of `TableInfo`.
pub fn table_info_fields() -> (r: Vec<FieldSpec>)
    ensures
        specs_model(r@) == table_info_layout(),
{
    let r = vec![
        FieldSpec { name: String::from_str("table_name"), kind: FieldKind::Text },
        FieldSpec { name: String::from_str("dataset_name"), kind: FieldKind::Text },
        FieldSpec { name: String::from_str("created_millis"), kind: FieldKind::Float },
        FieldSpec { name: String::from_str("total_rows"), kind: FieldKind::Unsigned },
        FieldSpec { name: String::from_str("total_logical_bytes"), kind: FieldKind::Signed },
        FieldSpec { name: String::from_str("total_physical_bytes"), kind: FieldKind::Signed },
        FieldSpec { name: String::from_str("last_modified_millis"), kind: FieldKind::Float },
    ];
    proof {
        assert(specs_model(r@) =~= table_info_layout());
    }
    r
}

impl TableInfo {
    /// The record's fields as read, in table order.
    pub open spec fn readings(&self) -> Seq<Reading> {
        seq![
            Reading::Text(self.table_name@),
            Reading::Text(self.dataset_name@),
            Reading::Float(self.created_millis@),
            Reading::Unsigned(self.total_rows),
            Reading::Signed(self.total_logical_bytes),
            Reading::Signed(self.total_physical_bytes),
            Reading::Float(self.last_modified_millis@),
        ]
    }

    /// Both times are texts that `parse::<f64>` accepts.
    pub open spec fn wf(&self) -> bool {
        float_text(self.created_millis@) && float_text(self.last_modified_millis@)
    }

    /// Reads a record from a row, field by field in table order; the first
    /// field that is missing or malformed is reported.
    pub fn from_row(row: &Row) -> (r: Result<TableInfo, FieldError>)
        ensures
            match read_fields(row@, table_info_layout(), 7) {
                Ok(vs) => r is Ok && r->Ok_0.readings() == vs && r->Ok_0.wf(),
                Err((name, f)) => r is Err && reports(r->Err_0, name, f),
            },
    {
        let fields = table_info_fields();
        proof {
            assert(table_info_layout().len() == 7);
            assert(specs_model(fields@).len() == fields@.len());
        }
        let values = map_record(row, &fields);
        let mut values = match values {
            Ok(v) => v,
            Err(e) => return Err(e),
        };
        proof {
            lemma_readings_are_valid(row@, table_info_layout(), 7);
        }
        let ghost vm = values_model(values@);
        assert(vm.len() == 7);
        let last_modified_millis = match values.pop().unwrap() {
            FieldValue::Float(s) => s,
            _ => {
                proof {
                    assert(vm[6] is Float);
                    assert(false);
                }
                String::new()
            },
        };
        let total_physical_bytes = match values.pop().unwrap() {
            FieldValue::Signed(v) => v,
            _ => {
                proof {
                    assert(vm[5] is Signed);
                    assert(false);
                }
                0
            },
        };
        let total_logical_bytes = match values.pop().unwrap() {
            FieldValue::Signed(v) => v,
            _ => {
                proof {
                    assert(vm[4] is Signed);
                    assert(false);
                }
                0
            },
        };
        let total_rows = match values.pop().unwrap() {
            FieldValue::Unsigned(v) => v,
            _ => {
                proof {
                    assert(vm[3] is Unsigned);
                    assert(false);
                }
                0
            },
        };
        let created_millis = match values.pop().unwrap() {
            FieldValue::Float(s) => s,
            _ => {
                proof {
                    assert(vm[2] is Float);
                    assert(false);
                }
                String::new()
            },
        };
        let dataset_name = match values.pop().unwrap() {
            FieldValue::Text(s) => s,
            _ => {
                proof {
                    assert(vm[1] is Text);
                    assert(false);
                }
                String::new()
            },
        };
        let table_name = match values.pop().unwrap() {
            FieldValue::Text(s) => s,
            _ => {
                proof {
                    assert(vm[0] is Text);
                    assert(false);
                }
                String::new()
            },
        };
        let info = TableInfo {
            table_name,
            dataset_name,
            created_millis,
            total_rows,
            total_logical_bytes,
            total_physical_bytes,
            last_modified_millis,
        };
        proof {
            assert(info.readings() =~= vm);
        }
        Ok(info)
    }
}

/// Reading a record from each of the first `n` rows, in order: the
/// records' readings, or the first failure.
pub open spec fn records_of(rows: Seq<RowModel>, n: nat) -> Result<Seq<Seq<Reading>>, (Seq<char>, Failure)>
    decreases n,
{
    if n == 0 {
        Ok(Seq::empty())
    } else {
        match records_of(rows, (n - 1) as nat) {
            Err(e) => Err(e),
            Ok(done) => match read_fields(rows[n - 1], table_info_layout(), 7) {
                Ok(vs) => Ok(done.push(vs)),
                Err(e) => Err(e),
            },
        }
    }
}

pub open spec fn infos_model(infos: Seq<TableInfo>) -> Seq<Seq<Reading>> {
    infos.map_values(|t: TableInfo| t.readings())
}

proof fn lemma_record_failure_stays(rows: Seq<RowModel>, m: nat, n: nat)
    requires
        m <= n,
        records_of(rows, m) is Err,
    ensures
        records_of(rows, n) == records_of(rows, m),
    decreases n - m,
{
    if m < n {
        lemma_record_failure_stays(rows, m, (n - 1) as nat);
    }
}

/// Makes a record of every row, in order; the first row that cannot be
/// mapped fails the whole call, with its field error.
pub fn table_infos(rows: &Vec<Row>) -> (r: Result<Vec<TableInfo>, GatewayError>)
    ensures
        match records_of(rows_model(rows@), rows@.len()) {
            Ok(recs) => r is Ok && infos_model(r->Ok_0@) == recs,
            Err((name, f)) => r matches Err(GatewayError::FieldMapping(e)) && reports(e, name, f),
        },
{
    let mut out: Vec<TableInfo> = Vec::new();
    let mut i: usize = 0;
    proof {
        assert(infos_model(out@) =~= Seq::<Seq<Reading>>::empty());
    }
    while i < rows.len()
        invariant
            i <= rows@.len(),
            records_of(rows_model(rows@), i as nat) == Ok::<Seq<Seq<Reading>>, (Seq<char>, Failure)>(infos_model(out@)),
        decreases rows@.len() - i,
    {
        let ghost before = out@;
        match TableInfo::from_row(&rows[i]) {
            Ok(info) => {
                out.push(info);
                proof {
                    assert(infos_model(out@) =~= infos_model(before).push(out@.last().readings()));
                }
                i = i + 1;
            },
            Err(e) => {
                proof {
                    lemma_record_failure_stays(rows_model(rows@), (i + 1) as nat, rows@.len());
                }
                return Err(GatewayError::FieldMapping(e));
            },
        }
    }
    Ok(out)
}

/// What the answer to the table-listing statement means: the warehouse's
/// reason on a failed status, the decode failure of a malformed body, or
/// else a record for every row, the first row that cannot be mapped failing
/// the whole answer.
pub fn table_info_outcome(status: u16, body: JsonValue) -> (r: Result<Vec<TableInfo>, GatewayError>)
    ensures
        !is_success(status) ==> (r matches Err(GatewayError::WarehouseQuery(m)) && m@ == failure_reason(body)),
        is_success(status) ==> match decoded(body) {
            Err(e) => r == Err::<Vec<TableInfo>, GatewayError>(GatewayError::Decode(e)),
            Ok(rows) => match records_of(rows, rows.len()) {
                Ok(recs) => r is Ok && infos_model(r->Ok_0@) == recs,
                Err((name, f)) => r matches Err(GatewayError::FieldMapping(e)) && reports(e, name, f),
            },
        },
{
    match query_outcome(status, body) {
        Ok(rows) => table_infos(&rows),
        Err(e) => Err(e),
    }
}

/// A successful reading gives each field a value of its kind, and float
/// fields a text that `parse::<f64>` accepts.
proof fn lemma_readings_are_valid(row: RowModel, fields: Seq<(Seq<char>, FieldKind)>, n: nat)
    requires
        n <= fields.len(),
        read_fields(row, fields, n) is Ok,
    ensures
        read_fields(row, fields, n)->Ok_0.len() == n,
        forall|i: int|
            0 <= i < n ==> {
                let v = #[trigger] read_fields(row, fields, n)->Ok_0[i];
                match fields[i].1 {
                    FieldKind::Text => v is Text,
                    FieldKind::Unsigned => v is Unsigned,
                    FieldKind::Signed => v is Signed,
                    FieldKind::Float => v matches Reading::Float(s) && float_text(s),
                }
            },
    decreases n,
{
    if n > 0 {
        lemma_readings_are_valid(row, fields, (n - 1) as nat);
    }
}

} // verus!
