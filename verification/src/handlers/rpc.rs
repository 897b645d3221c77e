//! Errors answered to a JSON-RPC request, and the spreadsheet id every
//! method reads from its parameters.
use vstd::prelude::*;
use crate::text;
use crate::sheets;

verus! {

/// Invalid method parameter(s).
pub const INVALID_PARAMS: i64 = -32602;

/// A failure of the Sheets API or of the request it served.
pub const SERVER_ERROR: i64 = -32000;

/// The method does not apply to a spreadsheet.
pub const METHOD_NOT_FOUND: i64 = -32601;

/// A JSON-RPC error: its code and message.
pub struct RpcError {
    pub code: i64,
    pub message: String,
}

/// The message when the connection names no spreadsheet.
pub open spec fn no_spreadsheet_message() -> Seq<char> {
    "No Spreadsheet ID provided. Enter the Google Sheets Spreadsheet ID (or full URL) in the 'Database' field."@
}

/// The spreadsheet id from the connection's `database` field (an id or a
/// full URL); an error when the field is empty or blank.
pub fn spreadsheet_id(database: &str) -> (r: Result<String, RpcError>)
    ensures
        match r {
            Ok(id) => text::trim(database@).len() > 0 && id@ == sheets::spreadsheet_id_of(
                text::trim(database@),
            ),
            Err(e) => text::trim(database@).len() == 0 && e.code == INVALID_PARAMS && e.message@
                == no_spreadsheet_message(),
        },
{
    let raw = text::trim_str(database);
    if raw.unicode_len() == 0 {
        return Err(
            RpcError {
                code: INVALID_PARAMS,
                message: text::string_from(
                    "No Spreadsheet ID provided. Enter the Google Sheets Spreadsheet ID (or full URL) in the 'Database' field.",
                ),
            },
        );
    }
    Ok(sheets::extract_spreadsheet_id(raw.as_str()))
}

} // verus!
