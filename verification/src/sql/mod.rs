//! The SQL subset: statement grammar, clause readers and row filters.
pub mod clauses;
pub mod conjunction;
pub mod filter;
pub mod grammar;
pub mod query;

pub use filter::{eval_where, extract_row_num};
pub use query::{parse, DeleteQuery, InsertQuery, Query, SelectQuery, UpdateQuery};
