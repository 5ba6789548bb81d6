//! What a store of records answers, and how the engine's answers read in
//! those terms.

use crate::error::Error;
use crate::ipam::{Removed, Subdivision};
use crate::network::Network;
use vstd::prelude::*;
use vstd::string::StringExecFns;

verus! {

/// Why a store refused a request.
#[derive(Debug, PartialEq, Eq)]
pub enum RepositoryError {
    /// The database failed; the text says how.
    Sqlx(String),
    /// No row matches the request.
    RowNotFound,
    /// The request names a column that the table has not; the name, where
    /// it is known.
    ColumnNotFound(Option<String>),
}

impl RepositoryError {
    /// The HTTP status that answers the error: 500 for a failure of the
    /// database, 204 where no row matches, 400 for an unknown column.
    pub open spec fn spec_status(self) -> u16 {
        match self {
            RepositoryError::Sqlx(_) => 500,
            RepositoryError::RowNotFound => 204,
            RepositoryError::ColumnNotFound(_) => 400,
        }
    }

    /// The HTTP status that answers the error.
    pub fn status(&self) -> (code: u16)
        ensures
            code == self.spec_status(),
    {
        match self {
            RepositoryError::Sqlx(_) => 500,
            RepositoryError::RowNotFound => 204,
            RepositoryError::ColumnNotFound(_) => 400,
        }
    }

    /// The error of the engine that stands for this one: a missing row is
    /// `NotFound`, all else a failure of the backend.
    pub fn kind(&self) -> (e: Error)
        ensures
            e == if self is RowNotFound {
                Error::NotFound
            } else {
                Error::BackendError
            },
    {
        match self {
            RepositoryError::RowNotFound => Error::NotFound,
            _ => Error::BackendError,
        }
    }

    /// The error in words.
    pub open spec fn spec_message(self) -> Seq<char> {
        match self {
            RepositoryError::Sqlx(text) => "Sqlx error: "@ + text@,
            RepositoryError::RowNotFound => "Row doesn't exist"@,
            RepositoryError::ColumnNotFound(Some(column)) => "The column "@ + column@
                + " didn't find"@,
            RepositoryError::ColumnNotFound(None) => "Undefined collumn"@,
        }
    }

    /// The error in words.
    pub fn message(&self) -> (text: String)
        ensures
            text@ == self.spec_message(),
    {
        match self {
            RepositoryError::Sqlx(detail) => String::from_str("Sqlx error: ").concat(
                detail.as_str(),
            ),
            RepositoryError::RowNotFound => String::from_str("Row doesn't exist"),
            RepositoryError::ColumnNotFound(Some(column)) => String::from_str("The column ").concat(
                column.as_str(),
            ).concat(" didn't find"),
            RepositoryError::ColumnNotFound(None) => String::from_str("Undefined collumn"),
        }
    }
}

/// What a store did on a request that changes rows.
#[derive(Debug, PartialEq, Eq)]
pub enum QueryResult<T> {
    /// Rows were added: how many, and the rows.
    Insert { row_affect: u64, data: Vec<T> },
    /// Rows were changed: how many.
    Update(u64),
    /// Rows were removed: how many.
    Delete(u64),
}

impl<T> QueryResult<T> {
    /// How many rows the request touched.
    pub open spec fn spec_row_affect(self) -> u64 {
        match self {
            QueryResult::Insert { row_affect, data } => row_affect,
            QueryResult::Update(rows) => rows,
            QueryResult::Delete(rows) => rows,
        }
    }

    /// How many rows the request touched.
    pub fn row_affect(&self) -> (rows: u64)
        ensures
            rows == self.spec_row_affect(),
    {
        match self {
            QueryResult::Insert { row_affect, data: _ } => *row_affect,
            QueryResult::Update(rows) => *rows,
            QueryResult::Delete(rows) => *rows,
        }
    }

    /// The HTTP status that answers the request: 201 where rows were added,
    /// 200 else.
    pub fn status(&self) -> (code: u16)
        ensures
            code == if self is Insert {
                201u16
            } else {
                200u16
            },
    {
        match self {
            QueryResult::Insert { row_affect: _, data: _ } => 201,
            _ => 200,
        }
    }
}

/// A split as a store reports it: the subnets as the rows added.
pub fn subdivision_result(made: Subdivision) -> (r: QueryResult<Network>)
    ensures
        r == (QueryResult::Insert {
            row_affect: made.children@.len() as u64,
            data: made.children,
        }),
{
    let rows: u64 = made.children.len() as u64;
    QueryResult::Insert { row_affect: rows, data: made.children }
}

/// A removal as a store reports it: networks and devices together as the
/// rows removed.
pub fn removal_result<T>(removed: Removed) -> (r: QueryResult<T>)
    ensures
        r == QueryResult::<T>::Delete(
            if removed.networks_deleted + removed.devices_deleted <= usize::MAX {
                (removed.networks_deleted + removed.devices_deleted) as u64
            } else {
                usize::MAX as u64
            },
        ),
{
    QueryResult::Delete(removed.total() as u64)
}

} // verus!
