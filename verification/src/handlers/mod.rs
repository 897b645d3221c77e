//! What the JSON-RPC methods decide: which spreadsheet, which row and
//! column, what SQL text or column list to answer, and how a query's rows
//! are filtered, paged and projected.
pub mod crud;
pub mod ddl;
pub mod metadata;
pub mod query;
pub mod rpc;

pub use rpc::spreadsheet_id;
