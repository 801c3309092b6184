//! The objects that the query API exposes, and what they compute.

use vstd::prelude::*;

use crate::auth::{bearer_result, bearer_token};
use crate::tables::TableInfo;

verus! {

/// The namespace of warehouse queries.
#[derive(Debug, Clone, Copy, PartialEq, Eq)]
pub struct BigQuery;

/// The root of the query API.
#[derive(Debug, Clone, Copy, PartialEq, Eq)]
pub struct QueryRoot;

/// A column of a table.
#[derive(Debug, PartialEq, Eq)]
pub struct TableColumn {
    /// The name of the column.
    pub name: String,
}

impl QueryRoot {
    /// Access to the warehouse queries.
    pub fn bigquery(&self) -> (r: BigQuery)
        ensures
            r == BigQuery,
    {
        BigQuery
    }
}

impl BigQuery {
    /// The bearer token of the caller's `Authorization` header, if it
    /// carries one.
    pub fn ctx_auth_token(&self, authorization: Option<&str>) -> (r: Option<String>)
        ensures
            authorization is None ==> r is None,
            authorization matches Some(h) ==> bearer_result(h@, r),
    {
        match authorization {
            Some(h) => bearer_token(h),
            None => None,
        }
    }
}

/// The columns of a table. This listing is a fixed placeholder: it does
/// not consult the warehouse.
pub fn fetch_columns_for_table(table_name: &str) -> (r: Vec<TableColumn>)
    ensures
        r@.len() == 2,
        r@[0].name@ == "Column1"@,
        r@[1].name@ == "Column2"@,
{
    vec![TableColumn { name: String::from_str("Column1") }, TableColumn { name: String::from_str("Column2") }]
}

impl TableInfo {
    /// The table's name.
    pub fn name(&self) -> (r: &String)
        ensures
            r == &self.table_name,
    {
        &self.table_name
    }

    /// The table's columns.
    pub fn columns(&self) -> (r: Vec<TableColumn>)
        ensures
            r@.len() == 2,
            r@[0].name@ == "Column1"@,
            r@[1].name@ == "Column2"@,
    {
        fetch_columns_for_table(self.table_name.as_str())
    }

    /// The bearer token of the caller's `Authorization` header, if it
    /// carries one.
    pub fn ctx_auth_token(&self, authorization: Option<&str>) -> (r: Option<String>)
        ensures
            authorization is None ==> r is None,
            authorization matches Some(h) ==> bearer_result(h@, r),
    {
        match authorization {
            Some(h) => bearer_token(h),
            None => None,
        }
    }
}

} // verus!
