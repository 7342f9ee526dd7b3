//! The errors of the library.

use vstd::prelude::*;

use crate::types::{ClickhouseType, ColumnType, DbType};

verus! {

/// Why an operation failed.
#[derive(Debug)]
pub enum Error {
    /// A column type with no database type.
    UnsupportedPolarsType(ColumnType),
    /// A database type with no column type, or that a conversion cannot handle.
    UnsupportedClickhouseType(ClickhouseType),
    /// A type description that could not be read.
    UnparsableType(String),
    /// A primary key that is not a column of the table.
    InvalidPrimaryKey(String),
    /// The dataframe's columns and the table's columns disagree; holds the
    /// columns of the one that the other lacks.
    MismatchingColumns(Vec<String>),
    /// A value whose type (first) is not the declared one (second).
    MismatchingValueType(DbType, DbType),
    /// A column whose type cannot give the values of the declared type.
    MismatchingSeriesType(ColumnType),
    /// A null where an array was expected.
    UnexpectedNull,
    /// A column that the server sent but that was not declared.
    MissingColumnLocal(String),
    /// The built columns do not all have one length; holds their lengths.
    MismatchingLengths(Vec<usize>),
    /// The block stream ended before its first block.
    MissingInitialBlock,
    /// An error of the HTTP interface.
    Http(HttpError),
}

/// Errors of the HTTP interface.
#[derive(Debug)]
pub enum HttpError {
    /// Insertion is not available over HTTP.
    Insertion,
    /// The server answered with an error; holds its message.
    Server(String),
}

} // verus!
