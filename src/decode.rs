//! Decoding of the REST envelope form of a query response into rows.

use vstd::prelude::*;

use crate::json::{find_key, into_member, member, member_or_null, member_ref, reversed, take_entry, JsonValue};

verus! {

/// A decoded row in the mathematical view: column names with their values,
/// in column order.
pub type RowModel = Seq<(Seq<char>, JsonValue)>;

/// One result row: column names with their values, in column order.
#[derive(Debug, PartialEq)]
pub struct Row {
    pub entries: Vec<(String, JsonValue)>,
}

pub open spec fn row_model(entries: Seq<(String, JsonValue)>) -> RowModel {
    entries.map_values(|e: (String, JsonValue)| (e.0@, e.1))
}

impl View for Row {
    type V = RowModel;

    open spec fn view(&self) -> RowModel {
        row_model(self.entries@)
    }
}

pub open spec fn rows_model(rows: Seq<Row>) -> Seq<RowModel> {
    rows.map_values(|r: Row| r@)
}

/// Why a response could not be decoded.
#[derive(Debug, PartialEq, Eq, Clone, Copy)]
pub enum DecodeError {
    /// `schema.fields` is missing or is not an array.
    InvalidSchema,
    /// `rows` is present but is not an array.
    InvalidRows,
}

pub open spec fn has_column(r: RowModel, k: Seq<char>) -> bool {
    exists|i: int| 0 <= i < r.len() && #[trigger] r[i].0 == k
}

pub open spec fn column_at(r: RowModel, k: Seq<char>) -> int {
    choose|i: int| 0 <= i < r.len() && #[trigger] r[i].0 == k
}

/// Column names within a row are unique.
pub open spec fn unique_columns(r: RowModel) -> bool {
    forall|i: int, j: int| 0 <= i < j < r.len() ==> #[trigger] r[i].0 != #[trigger] r[j].0
}

/// Sets column `k` to `v`: a column already present keeps its place and
/// takes the new value, a new column goes last.
pub open spec fn row_insert(r: RowModel, k: Seq<char>, v: JsonValue) -> RowModel {
    if has_column(r, k) {
        r.update(column_at(r, k), (k, v))
    } else {
        r.push((k, v))
    }
}

/// The row made of the first `n` names paired with the first `n` values.
pub open spec fn zip_prefix(names: Seq<Seq<char>>, cells: Seq<JsonValue>, n: nat) -> RowModel
    decreases n,
{
    if n == 0 {
        Seq::empty()
    } else {
        row_insert(zip_prefix(names, cells, (n - 1) as nat), names[n - 1], cells[n - 1])
    }
}

pub open spec fn min_len(a: nat, b: nat) -> nat {
    if a <= b {
        a
    } else {
        b
    }
}

/// Names and values paired by position, as far as the shorter one goes.
pub open spec fn zip_row(names: Seq<Seq<char>>, cells: Seq<JsonValue>) -> RowModel {
    zip_prefix(names, cells, min_len(names.len(), cells.len()))
}

/// The name of a schema field: `name` when it is a string, else empty.
pub open spec fn field_name(f: JsonValue) -> Seq<char> {
    match member(f, "name"@) {
        Some(JsonValue::Str(s)) => s@,
        _ => Seq::empty(),
    }
}

/// The value of a cell: `v`, or `Null` where there is none.
pub open spec fn cell_value(c: JsonValue) -> JsonValue {
    match member(c, "v"@) {
        Some(v) => v,
        None => JsonValue::Null,
    }
}

/// The values of an envelope row, in order: those under `f`, or none
/// where `f` is not an array.
pub open spec fn row_cells(row: JsonValue) -> Seq<JsonValue> {
    match member(row, "f"@) {
        Some(JsonValue::Array(cs)) => cs@.map_values(|c: JsonValue| cell_value(c)),
        _ => Seq::empty(),
    }
}

/// The column names of `schema.fields`, if it is an array.
pub open spec fn schema_names(body: JsonValue) -> Option<Seq<Seq<char>>> {
    match member(member_or_null(body, "schema"@), "fields"@) {
        Some(JsonValue::Array(fs)) => Some(fs@.map_values(|f: JsonValue| field_name(f))),
        _ => None,
    }
}

/// What decoding an envelope gives.
pub open spec fn decoded(body: JsonValue) -> Result<Seq<RowModel>, DecodeError> {
    match schema_names(body) {
        None => Err(DecodeError::InvalidSchema),
        Some(names) => match member(body, "rows"@) {
            None => Ok(Seq::empty()),
            Some(JsonValue::Array(rs)) => Ok(rs@.map_values(|r: JsonValue| zip_row(names, row_cells(r)))),
            Some(_) => Err(DecodeError::InvalidRows),
        },
    }
}

pub open spec fn names_model(names: Seq<String>) -> Seq<Seq<char>> {
    names.map_values(|s: String| s@)
}

/// Sets column `k` of a row to `v`, as `row_insert` says.
fn set_column(entries: &mut Vec<(String, JsonValue)>, k: String, v: JsonValue)
    requires
        unique_columns(row_model(old(entries)@)),
    ensures
        row_model(final(entries)@) == row_insert(row_model(old(entries)@), k@, v),
        unique_columns(row_model(final(entries)@)),
{
    let ghost before = row_model(entries@);
    match find_key(entries, k.as_str()) {
        Some(i) => {
            proof {
                assert(before[i as int].0 == k@);
                assert(has_column(before, k@));
                let c = column_at(before, k@);
                if c != i as int {
                    if c < i {
                        assert(before[c].0 != before[i as int].0);
                    } else {
                        assert(before[i as int].0 != before[c].0);
                    }
                }
            }
            entries.remove(i);
            entries.insert(i, (k, v));
            proof {
                assert(row_model(entries@) =~= before.update(i as int, (k@, v)));
            }
        },
        None => {
            proof {
                assert forall|j: int| 0 <= j < before.len() implies #[trigger] before[j].0 != k@ by {
                    assert(entries@[j].0@ != k@);
                }
            }
            entries.push((k, v));
            proof {
                assert(row_model(entries@) =~= before.push((k@, v)));
            }
        },
    }
}

/// Pairs names with values by position, as far as the shorter one goes.
pub fn zip_into_row(names: &Vec<String>, cells: Vec<JsonValue>) -> (r: Row)
    ensures
        r@ == zip_row(names_model(names@), cells@),
        unique_columns(r@),
{
    let ghost nv = names_model(names@);
    let ghost cv = cells@;
    let n: usize = if names.len() <= cells.len() { names.len() } else { cells.len() };
    let mut rest = reversed(cells);
    let mut entries: Vec<(String, JsonValue)> = Vec::new();
    let mut i: usize = 0;
    proof {
        assert(row_model(entries@) =~= zip_prefix(nv, cv, 0));
    }
    while i < n
        invariant
            n == min_len(nv.len(), cv.len()),
            nv == names_model(names@),
            i <= n,
            rest@.len() == cv.len() - i,
            forall|j: int| 0 <= j < rest@.len() ==> #[trigger] rest@[j] == cv[cv.len() - 1 - j],
            row_model(entries@) == zip_prefix(nv, cv, i as nat),
            unique_columns(row_model(entries@)),
        decreases n - i,
    {
        let c = rest.pop().unwrap();
        let k = names[i].clone();
        set_column(&mut entries, k, c);
        i = i + 1;
    }
    Row { entries }
}

/// The name of a schema field.
fn field_name_of(f: &JsonValue) -> (r: String)
    ensures
        r@ == field_name(*f),
{
    match member_ref(f, "name") {
        Some(JsonValue::Str(s)) => s.clone(),
        _ => String::new(),
    }
}

/// The value of a cell, moved out of it.
fn cell_into_value(c: JsonValue) -> (r: JsonValue)
    ensures
        r == cell_value(c),
{
    match into_member(c, "v") {
        Some(v) => v,
        None => JsonValue::Null,
    }
}

/// The values of an envelope row, moved out of it.
fn row_into_cells(row: JsonValue) -> (r: Vec<JsonValue>)
    ensures
        r@ == row_cells(row),
{
    match into_member(row, "f") {
        Some(JsonValue::Array(cs)) => {
            let ghost cv = cs@;
            let mut rest = reversed(cs);
            let mut out: Vec<JsonValue> = Vec::new();
            while rest.len() > 0
                invariant
                    out@.len() + rest@.len() == cv.len(),
                    forall|j: int| 0 <= j < rest@.len() ==> #[trigger] rest@[j] == cv[cv.len() - 1 - j],
                    forall|j: int| 0 <= j < out@.len() ==> #[trigger] out@[j] == cell_value(cv[j]),
                decreases rest@.len(),
            {
                let c = rest.pop().unwrap();
                out.push(cell_into_value(c));
            }
            proof {
                assert(out@ =~= cv.map_values(|c: JsonValue| cell_value(c)));
            }
            out
        },
        _ => Vec::new(),
    }
}

/// Decodes a REST envelope: `schema.fields[].name` gives the column names,
/// `rows[].f[].v` the values, paired by position. Rows keep their order.
pub fn decode_envelope(body: JsonValue) -> (r: Result<Vec<Row>, DecodeError>)
    ensures
        match decoded(body) {
            Ok(rows) => r is Ok && rows_model(r->Ok_0@) == rows,
            Err(e) => r == Err::<Vec<Row>, DecodeError>(e),
        },
{
    let ghost whole = body;
    let mut entries = match body {
        JsonValue::Object(entries) => entries,
        _ => return Err(DecodeError::InvalidSchema),
    };
    let schema = take_entry(&mut entries, "schema");
    let rows = take_entry(&mut entries, "rows");
    proof {
        reveal_strlit("schema");
        reveal_strlit("rows");
        assert("rows"@ != "schema"@) by {
            assert("rows"@.len() != "schema"@.len());
        }
    }
    let fields = match schema {
        Some(s) => into_member(s, "fields"),
        None => None,
    };
    let fields = match fields {
        Some(JsonValue::Array(fs)) => fs,
        _ => return Err(DecodeError::InvalidSchema),
    };
    let mut names: Vec<String> = Vec::new();
    let mut i: usize = 0;
    while i < fields.len()
        invariant
            i <= fields@.len(),
            names@.len() == i,
            forall|j: int| 0 <= j < i ==> #[trigger] names@[j]@ == field_name(fields@[j]),
        decreases fields@.len() - i,
    {
        names.push(field_name_of(&fields[i]));
        i = i + 1;
    }
    let ghost nv = names_model(names@);
    proof {
        assert(nv =~= fields@.map_values(|f: JsonValue| field_name(f)));
    }
    let listed = match rows {
        None => return Ok(Vec::new()),
        Some(JsonValue::Array(rs)) => rs,
        Some(_) => return Err(DecodeError::InvalidRows),
    };
    let ghost lv = listed@;
    let mut rest = reversed(listed);
    let mut out: Vec<Row> = Vec::new();
    while rest.len() > 0
        invariant
            nv == names_model(names@),
            out@.len() + rest@.len() == lv.len(),
            forall|j: int| 0 <= j < rest@.len() ==> #[trigger] rest@[j] == lv[lv.len() - 1 - j],
            forall|j: int| 0 <= j < out@.len() ==> #[trigger] out@[j]@ == zip_row(nv, row_cells(lv[j])),
        decreases rest@.len(),
    {
        let row = rest.pop().unwrap();
        let cells = row_into_cells(row);
        out.push(zip_into_row(&names, cells));
    }
    proof {
        assert(rows_model(out@) =~= lv.map_values(|r: JsonValue| zip_row(nv, row_cells(r))));
    }
    Ok(out)
}

proof fn lemma_zip_prefix_columns(names: Seq<Seq<char>>, cells: Seq<JsonValue>, n: nat)
    requires
        n <= names.len(),
        n <= cells.len(),
    ensures
        zip_prefix(names, cells, n).len() <= n,
        unique_columns(zip_prefix(names, cells, n)),
        forall|k: Seq<char>|
            has_column(zip_prefix(names, cells, n), k) <==> exists|j: int| 0 <= j < n && #[trigger] names[j] == k,
    decreases n,
{
    if n > 0 {
        let m = (n - 1) as nat;
        lemma_zip_prefix_columns(names, cells, m);
        let prev = zip_prefix(names, cells, m);
        let cur = zip_prefix(names, cells, n);
        let k0 = names[m as int];
        if has_column(prev, k0) {
            let c = column_at(prev, k0);
            assert(cur == prev.update(c, (k0, cells[m as int])));
            assert forall|k: Seq<char>| has_column(cur, k) <==> exists|j: int| 0 <= j < n && #[trigger] names[j] == k by {
                if has_column(cur, k) {
                    let i = choose|i: int| 0 <= i < cur.len() && #[trigger] cur[i].0 == k;
                    if i == c {
                        assert(names[m as int] == k);
                    } else {
                        assert(prev[i].0 == k);
                        assert(has_column(prev, k));
                        let j = choose|j: int| 0 <= j < m && #[trigger] names[j] == k;
                        assert(0 <= j < n && names[j] == k);
                    }
                }
                if exists|j: int| 0 <= j < n && #[trigger] names[j] == k {
                    let j = choose|j: int| 0 <= j < n && #[trigger] names[j] == k;
                    if j == m {
                        assert(cur[c].0 == k);
                    } else {
                        assert(has_column(prev, k));
                        let i = choose|i: int| 0 <= i < prev.len() && #[trigger] prev[i].0 == k;
                        assert(cur[i].0 == k);
                    }
                }
            }
            assert forall|i: int, j: int| 0 <= i < j < cur.len() implies #[trigger] cur[i].0 != #[trigger] cur[j].0 by {
                assert(prev[i].0 != prev[j].0);
            }
        } else {
            assert(cur == prev.push((k0, cells[m as int])));
            assert forall|k: Seq<char>| has_column(cur, k) <==> exists|j: int| 0 <= j < n && #[trigger] names[j] == k by {
                if has_column(cur, k) {
                    let i = choose|i: int| 0 <= i < cur.len() && #[trigger] cur[i].0 == k;
                    if i == prev.len() {
                        assert(names[m as int] == k);
                    } else {
                        assert(prev[i].0 == k);
                        assert(has_column(prev, k));
                        let j = choose|j: int| 0 <= j < m && #[trigger] names[j] == k;
                        assert(0 <= j < n && names[j] == k);
                    }
                }
                if exists|j: int| 0 <= j < n && #[trigger] names[j] == k {
                    let j = choose|j: int| 0 <= j < n && #[trigger] names[j] == k;
                    if j == m {
                        assert(cur[prev.len() as int].0 == k);
                    } else {
                        assert(has_column(prev, k));
                        let i = choose|i: int| 0 <= i < prev.len() && #[trigger] prev[i].0 == k;
                        assert(cur[i].0 == k);
                    }
                }
            }
            assert forall|i: int, j: int| 0 <= i < j < cur.len() implies #[trigger] cur[i].0 != #[trigger] cur[j].0 by {
                if j == prev.len() {
                    if prev[i].0 == k0 {
                        assert(has_column(prev, k0));
                    }
                } else {
                    assert(prev[i].0 != prev[j].0);
                }
            }
        }
    }
}

proof fn lemma_zip_prefix_distinct(names: Seq<Seq<char>>, cells: Seq<JsonValue>, n: nat)
    requires
        n <= names.len(),
        n <= cells.len(),
        forall|i: int, j: int| 0 <= i < j < n ==> #[trigger] names[i] != #[trigger] names[j],
    ensures
        zip_prefix(names, cells, n) == Seq::new(n, |j: int| (names[j], cells[j])),
    decreases n,
{
    if n > 0 {
        let m = (n - 1) as nat;
        lemma_zip_prefix_distinct(names, cells, m);
        let prev = zip_prefix(names, cells, m);
        let k0 = names[m as int];
        if has_column(prev, k0) {
            let c = column_at(prev, k0);
            assert(names[c] != names[m as int]);
        }
        assert(zip_prefix(names, cells, n) =~= Seq::new(n, |j: int| (names[j], cells[j])));
    }
}

/// Decoding keeps the rows of the envelope: as many rows as the `rows`
/// array holds, each one decoded from the envelope row at the same position.
pub proof fn lemma_rows_kept_in_order(body: JsonValue)
    requires
        schema_names(body) is Some,
        member(body, "rows"@) matches Some(JsonValue::Array(_)),
    ensures
        decoded(body) is Ok,
        decoded(body)->Ok_0.len() == member(body, "rows"@)->0->Array_0@.len(),
        forall|j: int|
            0 <= j < decoded(body)->Ok_0.len() ==> #[trigger] decoded(body)->Ok_0[j] == zip_row(
                schema_names(body)->0,
                row_cells(member(body, "rows"@)->0->Array_0@[j]),
            ),
{
}

/// Names and values paired by position, when there are fewer values than
/// names: the row holds the leading columns that have a value and nothing
/// else, with unique names; where those names are distinct it is exactly
/// them paired with the values.
pub proof fn lemma_zip_short_row(names: Seq<Seq<char>>, cells: Seq<JsonValue>)
    requires
        cells.len() < names.len(),
    ensures
        zip_row(names, cells).len() <= cells.len(),
        unique_columns(zip_row(names, cells)),
        forall|k: Seq<char>|
            has_column(zip_row(names, cells), k) <==> exists|j: int| 0 <= j < cells.len() && #[trigger] names[j] == k,
        (forall|i: int, j: int| 0 <= i < j < cells.len() ==> #[trigger] names[i] != #[trigger] names[j])
            ==> zip_row(names, cells) == Seq::new(cells.len(), |j: int| (names[j], cells[j])),
{
    lemma_zip_prefix_columns(names, cells, cells.len());
    if forall|i: int, j: int| 0 <= i < j < cells.len() ==> #[trigger] names[i] != #[trigger] names[j] {
        lemma_zip_prefix_distinct(names, cells, cells.len());
    }
}

/// An envelope row with fewer values than declared columns decodes to a
/// row of only the leading columns that have a value: no trailing column
/// is added, padded with `Null` or otherwise.
pub proof fn lemma_short_row_keeps_leading_columns(body: JsonValue, j: int)
    requires
        schema_names(body) is Some,
        member(body, "rows"@) matches Some(JsonValue::Array(rs)) && 0 <= j < rs@.len() && row_cells(rs@[j]).len()
            < schema_names(body)->0.len(),
    ensures
        ({
            let names = schema_names(body)->0;
            let cells = row_cells(member(body, "rows"@)->0->Array_0@[j]);
            let row = decoded(body)->Ok_0[j];
            &&& decoded(body) is Ok
            &&& row.len() <= cells.len()
            &&& forall|k: Seq<char>| has_column(row, k) <==> exists|i: int| 0 <= i < cells.len() && #[trigger] names[i] == k
            &&& (forall|a: int, b: int| 0 <= a < b < cells.len() ==> #[trigger] names[a] != #[trigger] names[b])
                ==> row == Seq::new(cells.len(), |i: int| (names[i], cells[i]))
        }),
{
    let names = schema_names(body)->0;
    let cells = row_cells(member(body, "rows"@)->0->Array_0@[j]);
    lemma_zip_short_row(names, cells);
}

/// With a valid schema, an envelope without `rows` decodes to no rows, and
/// one whose `rows` is not an array is refused.
pub proof fn lemma_rows_key(body: JsonValue)
    requires
        schema_names(body) is Some,
    ensures
        member(body, "rows"@) is None ==> decoded(body) == Ok::<Seq<RowModel>, DecodeError>(Seq::empty()),
        (member(body, "rows"@) matches Some(v) && !(v is Array)) ==> decoded(body) == Err::<Seq<RowModel>, DecodeError>(
            DecodeError::InvalidRows,
        ),
{
}

} // verus!
