//! Typed records out of rows: each declared field is looked up by name and
//! converted to its declared type; the first field that fails ends the record.

use vstd::prelude::*;

use crate::decode::{Row, RowModel};
use crate::error::FieldError;
use crate::json::{find_key, JsonValue};
use crate::numeric::{float_text, is_float_text, parse_i64, parse_u64, parsed_i64, parsed_u64};

verus! {

/// The type a field is converted to.
#[derive(Debug, Clone, Copy, PartialEq, Eq, Structural)]
pub enum FieldKind {
    Text,
    Unsigned,
    Signed,
    /// A floating-point number, kept as the text that `parse::<f64>` accepts.
    Float,
}

/// One entry of a record's field table: the column it is read from and its type.
#[derive(Debug)]
pub struct FieldSpec {
    pub name: String,
    pub kind: FieldKind,
}

/// The value of a field, converted.
#[derive(Debug, PartialEq)]
pub enum FieldValue {
    Text(String),
    Unsigned(u64),
    Signed(i64),
    Float(String),
}

/// A converted field, in the mathematical view.
pub enum Reading {
    Text(Seq<char>),
    Unsigned(u64),
    Signed(i64),
    Float(Seq<char>),
}

/// How reading a field fails.
pub enum Failure {
    Missing,
    InvalidFormat,
}

impl View for FieldValue {
    type V = Reading;

    open spec fn view(&self) -> Reading {
        match self {
            FieldValue::Text(s) => Reading::Text(s@),
            FieldValue::Unsigned(v) => Reading::Unsigned(*v),
            FieldValue::Signed(v) => Reading::Signed(*v),
            FieldValue::Float(s) => Reading::Float(s@),
        }
    }
}

/// `i` is the first column of `row` named `name`.
pub open spec fn first_column_at(row: RowModel, name: Seq<char>, i: int) -> bool {
    &&& 0 <= i < row.len()
    &&& row[i].0 == name
    &&& forall|j: int| 0 <= j < i ==> #[trigger] row[j].0 != name
}

/// The value of column `name` in `row`: the first column of that name.
pub open spec fn row_value(row: RowModel, name: Seq<char>) -> Option<JsonValue> {
    if exists|i: int| first_column_at(row, name, i) {
        Some(row[choose|i: int| first_column_at(row, name, i)].1)
    } else {
        None
    }
}

proof fn lemma_first_column_unique(row: RowModel, name: Seq<char>, i: int, j: int)
    requires
        first_column_at(row, name, i),
        first_column_at(row, name, j),
    ensures
        i == j,
{
    if i < j {
        assert(row[i].0 != name);
    } else if j < i {
        assert(row[j].0 != name);
    }
}

/// Reading field `name` of kind `kind` from a row: the column must hold a
/// string, which must parse as the kind says.
pub open spec fn read(row: RowModel, name: Seq<char>, kind: FieldKind) -> Result<Reading, Failure> {
    match row_value(row, name) {
        Some(JsonValue::Str(s)) => match kind {
            FieldKind::Text => Ok(Reading::Text(s@)),
            FieldKind::Unsigned => match parsed_u64(s@) {
                Some(v) => Ok(Reading::Unsigned(v)),
                None => Err(Failure::InvalidFormat),
            },
            FieldKind::Signed => match parsed_i64(s@) {
                Some(v) => Ok(Reading::Signed(v)),
                None => Err(Failure::InvalidFormat),
            },
            FieldKind::Float => if float_text(s@) {
                Ok(Reading::Float(s@))
            } else {
                Err(Failure::InvalidFormat)
            },
        },
        _ => Err(Failure::Missing),
    }
}

/// The error reported for a failure on field `name`.
pub open spec fn reports(e: FieldError, name: Seq<char>, f: Failure) -> bool {
    match f {
        Failure::Missing => e matches FieldError::Missing(n) && n@ == name,
        Failure::InvalidFormat => e matches FieldError::InvalidFormat(n) && n@ == name,
    }
}

pub open spec fn specs_model(specs: Seq<FieldSpec>) -> Seq<(Seq<char>, FieldKind)> {
    specs.map_values(|s: FieldSpec| (s.name@, s.kind))
}

/// Reading the first `n` fields of a table, in order: the readings, or the
/// first failing field with its failure.
pub open spec fn read_fields(row: RowModel, fields: Seq<(Seq<char>, FieldKind)>, n: nat) -> Result<
    Seq<Reading>,
    (Seq<char>, Failure),
>
    decreases n,
{
    if n == 0 {
        Ok(Seq::empty())
    } else {
        match read_fields(row, fields, (n - 1) as nat) {
            Err(e) => Err(e),
            Ok(done) => match read(row, fields[n - 1].0, fields[n - 1].1) {
                Ok(v) => Ok(done.push(v)),
                Err(f) => Err((fields[n - 1].0, f)),
            },
        }
    }
}

pub open spec fn values_model(vs: Seq<FieldValue>) -> Seq<Reading> {
    vs.map_values(|v: FieldValue| v@)
}

/// Reads one field of a row.
pub fn read_field(row: &Row, name: &String, kind: FieldKind) -> (r: Result<FieldValue, FieldError>)
    ensures
        match read(row@, name@, kind) {
            Ok(v) => r is Ok && r->Ok_0@ == v,
            Err(f) => r is Err && reports(r->Err_0, name@, f),
        },
{
    let found = match find_key(&row.entries, name.as_str()) {
        Some(i) => {
            proof {
                assert(first_column_at(row@, name@, i as int)) by {
                    assert forall|j: int| 0 <= j < i implies #[trigger] row@[j].0 != name@ by {
                        assert(row.entries@[j].0@ != name@);
                    }
                }
                let c = choose|c: int| first_column_at(row@, name@, c);
                lemma_first_column_unique(row@, name@, c, i as int);
            }
            match &row.entries[i].1 {
                JsonValue::Str(s) => Some(s),
                _ => None,
            }
        },
        None => {
            proof {
                if exists|c: int| first_column_at(row@, name@, c) {
                    let c = choose|c: int| first_column_at(row@, name@, c);
                    assert(row.entries@[c].0@ != name@);
                }
            }
            None
        },
    };
    let text = match found {
        Some(s) => s,
        None => return Err(FieldError::Missing(name.clone())),
    };
    match kind {
        FieldKind::Text => Ok(FieldValue::Text(text.clone())),
        FieldKind::Unsigned => match parse_u64(text.as_str()) {
            Some(v) => Ok(FieldValue::Unsigned(v)),
            None => Err(FieldError::InvalidFormat(name.clone())),
        },
        FieldKind::Signed => match parse_i64(text.as_str()) {
            Some(v) => Ok(FieldValue::Signed(v)),
            None => Err(FieldError::InvalidFormat(name.clone())),
        },
        FieldKind::Float => if is_float_text(text.as_str()) {
            Ok(FieldValue::Float(text.clone()))
        } else {
            Err(FieldError::InvalidFormat(name.clone()))
        },
    }
}

/// Reads the fields of a table from a row, in table order, stopping at the
/// first field that fails.
pub fn map_record(row: &Row, fields: &Vec<FieldSpec>) -> (r: Result<Vec<FieldValue>, FieldError>)
    ensures
        match read_fields(row@, specs_model(fields@), fields@.len()) {
            Ok(vs) => r is Ok && values_model(r->Ok_0@) == vs,
            Err((name, f)) => r is Err && reports(r->Err_0, name, f),
        },
{
    let ghost fm = specs_model(fields@);
    let mut out: Vec<FieldValue> = Vec::new();
    let mut i: usize = 0;
    proof {
        assert(values_model(out@) =~= Seq::<Reading>::empty());
    }
    while i < fields.len()
        invariant
            fm == specs_model(fields@),
            i <= fields@.len(),
            read_fields(row@, fm, i as nat) == Ok::<Seq<Reading>, (Seq<char>, Failure)>(values_model(out@)),
        decreases fields@.len() - i,
    {
        let ghost before = out@;
        proof {
            assert(fm[i as int] == (fields@[i as int].name@, fields@[i as int].kind));
        }
        let v = read_field(row, &fields[i].name, fields[i].kind);
        match v {
            Ok(v) => {
                out.push(v);
                proof {
                    assert(values_model(out@) =~= values_model(before).push(out@.last()@));
                }
                i = i + 1;
            },
            Err(e) => {
                proof {
                    lemma_failure_stays(row@, fm, (i + 1) as nat, fields@.len());
                }
                return Err(e);
            },
        }
    }
    Ok(out)
}

proof fn lemma_failure_stays(row: RowModel, fields: Seq<(Seq<char>, FieldKind)>, m: nat, n: nat)
    requires
        m <= n,
        read_fields(row, fields, m) is Err,
    ensures
        read_fields(row, fields, n) == read_fields(row, fields, m),
    decreases n - m,
{
    if m < n {
        lemma_failure_stays(row, fields, m, (n - 1) as nat);
    }
}

} // verus!
