//! The decisions of cursor-form decoding. A cursor result exposes a row
//! count, an advance operation and reads of a column by name; decoding
//! advances exactly `row_count` times and, after each successful advance,
//! reads every declared column in order. A read that yields no value, or
//! fails, counts as `Null`.
//!
//! The caller holds the cursor: it asks `next_step` what to do, performs it
//! and reports what happened with `advanced` or `read`.

use vstd::prelude::*;

use crate::decode::{names_model, zip_into_row, zip_row, Row, RowModel};
use crate::json::JsonValue;

verus! {

/// What a column read on the cursor gave.
#[derive(Debug, PartialEq)]
pub enum CellRead {
    /// The column's value.
    Value(JsonValue),
    /// The column had no value.
    Absent,
    /// The read failed.
    Failed,
}

/// The value recorded for a read: its value, or `Null`.
pub open spec fn cell_or_null(read: CellRead) -> JsonValue {
    match read {
        CellRead::Value(v) => v,
        _ => JsonValue::Null,
    }
}

/// What the caller should do next.
#[derive(Debug, PartialEq, Eq, Clone, Copy, Structural)]
pub enum CursorStep {
    /// Advance the cursor by one row.
    Advance,
    /// Read the declared column at this position in the current row.
    Read(usize),
    /// Decoding is over: take the rows.
    Done,
}

/// The state of a cursor decoding.
pub struct CursorDecoder {
    columns: Vec<String>,
    row_count: usize,
    attempts: usize,
    current: Option<Vec<JsonValue>>,
    rows: Vec<Row>,
}

impl CursorDecoder {
    pub closed spec fn columns(&self) -> Seq<Seq<char>> {
        names_model(self.columns@)
    }

    pub closed spec fn row_count(&self) -> nat {
        self.row_count as nat
    }

    /// How many advances have been made.
    pub closed spec fn attempts(&self) -> nat {
        self.attempts as nat
    }

    /// The values read so far in the current row, while one is being read.
    pub closed spec fn current(&self) -> Option<Seq<JsonValue>> {
        match self.current {
            Some(v) => Some(v@),
            None => None,
        }
    }

    /// The rows decoded so far.
    pub closed spec fn rows(&self) -> Seq<RowModel> {
        self.rows@.map_values(|r: Row| r@)
    }

    pub closed spec fn wf(&self) -> bool {
        &&& self.attempts <= self.row_count
        &&& self.current matches Some(v) ==> v@.len() < self.columns@.len()
    }

    /// The step that comes next, as `next_step` decides it.
    pub open spec fn step(&self) -> CursorStep {
        match self.current() {
            Some(v) => CursorStep::Read(v.len() as usize),
            None => if self.attempts() < self.row_count() {
                CursorStep::Advance
            } else {
                CursorStep::Done
            },
        }
    }

    /// A decoding of `row_count` rows with the declared `columns`.
    pub fn new(columns: Vec<String>, row_count: usize) -> (r: CursorDecoder)
        ensures
            r.wf(),
            r.columns() == names_model(columns@),
            r.row_count() == row_count,
            r.attempts() == 0,
            r.current() is None,
            r.rows() == Seq::<RowModel>::empty(),
    {
        let r = CursorDecoder { columns, row_count, attempts: 0, current: None, rows: Vec::new() };
        proof {
            assert(r.rows() =~= Seq::<RowModel>::empty());
        }
        r
    }

    /// Decides what to do next: read the next column of the current row,
    /// else advance while fewer than `row_count` advances were made, else
    /// stop.
    pub fn next_step(&self) -> (r: CursorStep)
        requires
            self.wf(),
        ensures
            r == self.step(),
            r matches CursorStep::Read(i) ==> i < self.columns().len(),
    {
        match &self.current {
            Some(v) => CursorStep::Read(v.len()),
            None => if self.attempts < self.row_count {
                CursorStep::Advance
            } else {
                CursorStep::Done
            },
        }
    }

    /// The name of declared column `i`.
    pub fn column(&self, i: usize) -> (r: &String)
        requires
            i < self.columns().len(),
        ensures
            r@ == self.columns()[i as int],
    {
        &self.columns[i]
    }

    /// Records an advance and whether it reached a row.
    pub fn advanced(&mut self, moved: bool)
        requires
            old(self).wf(),
            old(self).step() == CursorStep::Advance,
        ensures
            final(self).wf(),
            final(self).columns() == old(self).columns(),
            final(self).row_count() == old(self).row_count(),
            final(self).attempts() == old(self).attempts() + 1,
            !moved ==> final(self).current() is None && final(self).rows() == old(self).rows(),
            moved && old(self).columns().len() > 0 ==> final(self).current() == Some(Seq::<JsonValue>::empty())
                && final(self).rows() == old(self).rows(),
            moved && old(self).columns().len() == 0 ==> final(self).current() is None && final(self).rows()
                == old(self).rows().push(zip_row(old(self).columns(), Seq::empty())),
    {
        self.attempts = self.attempts + 1;
        if moved {
            if self.columns.len() > 0 {
                self.current = Some(Vec::new());
                proof {
                    assert(self.current() == Some(Seq::<JsonValue>::empty()));
                }
            } else {
                let ghost before = self.rows();
                let row = zip_into_row(&self.columns, Vec::new());
                self.rows.push(row);
                proof {
                    assert(self.rows() =~= before.push(row@));
                }
            }
        }
    }

    /// Records what the read of the current column gave; the row is
    /// complete once every declared column has been read.
    pub fn read(&mut self, cell: CellRead)
        requires
            old(self).wf(),
            old(self).step() is Read,
        ensures
            final(self).wf(),
            final(self).columns() == old(self).columns(),
            final(self).row_count() == old(self).row_count(),
            final(self).attempts() == old(self).attempts(),
            ({
                let vals = old(self).current()->0.push(cell_or_null(cell));
                if vals.len() == old(self).columns().len() {
                    final(self).current() is None && final(self).rows() == old(self).rows().push(
                        zip_row(old(self).columns(), vals),
                    )
                } else {
                    final(self).current() == Some(vals) && final(self).rows() == old(self).rows()
                }
            }),
    {
        let value = match cell {
            CellRead::Value(v) => v,
            _ => JsonValue::Null,
        };
        let mut vals = match self.current.take() {
            Some(v) => v,
            None => {
                proof {
                    assert(false);
                }
                Vec::new()
            },
        };
        vals.push(value);
        if vals.len() == self.columns.len() {
            let ghost before = self.rows();
            let row = zip_into_row(&self.columns, vals);
            self.rows.push(row);
            proof {
                assert(self.rows() =~= before.push(row@));
            }
        } else {
            self.current = Some(vals);
        }
    }

    /// The decoded rows, in cursor order.
    pub fn into_rows(self) -> (r: Vec<Row>)
        requires
            self.wf(),
            self.step() == CursorStep::Done,
        ensures
            r@.map_values(|x: Row| x@) == self.rows(),
            self.attempts() == self.row_count(),
    {
        self.rows
    }
}

} // verus!
