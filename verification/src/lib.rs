//! A Google Sheets spreadsheet read as a small SQL database.
pub mod auth;
pub mod handlers;
pub mod numbers;
pub mod pattern;
pub mod sheets;
pub mod sql;
pub mod text;
