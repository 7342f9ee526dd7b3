//! Conversion between ClickHouse blocks and columnar dataframes.
//!
//! The library works on its own models of the database's types and values
//! (`DbType`, `Value`) and of the dataframe's columns (`ColumnType`,
//! `Column`); callers convert their driver and dataframe values into these.

pub mod accumulator;
pub mod blocks;
pub mod codec;
pub mod columns;
pub mod errors;
pub mod http;
pub mod laws;
pub mod names;
pub mod structs;
pub mod table;
pub mod types;
pub mod values;

pub use accumulator::{get_df_from_blocks, Accumulator};
pub use blocks::{Block, BlockAssembler, MAX_BLOCK_ROWS};
pub use columns::{Column, ColumnData};
pub use errors::{Error, HttpError};
pub use http::{http_insert, is_http_address, replay_first, HttpBlockAdapter};
pub use structs::{flatten, flatten_schema, unflatten};
pub use table::{ClickhouseTable, TableCreationOptions};
pub use types::{ClickhouseType, ColumnType, DbType, Field, NumKind};
pub use values::Value;
