//! The text of the application's log: the level prefixes, the request
//! summary, the timestamped line and the name of the daily file. Writing the
//! files is left to the caller.
use vstd::prelude::*;
use crate::text::{push_decimal, push_str};

verus! {

/// The line written for `message` at `timestamp`: "[timestamp] message".
pub open spec fn log_line_text(timestamp: Seq<char>, message: Seq<char>) -> Seq<char> {
    seq!['['] + timestamp + "] "@ + message
}

/// The line written for `message` at `timestamp`.
pub fn log_line(timestamp: &str, message: &str) -> (r: String)
    ensures
        r@ == log_line_text(timestamp@, message@),
{
    let mut r = String::new();
    r.push('[');
    push_str(&mut r, timestamp);
    push_str(&mut r, "] ");
    push_str(&mut r, message);
    r
}

/// The name of the log file for the day `date` (as "YYYY-MM-DD").
pub fn daily_log_file_name(date: &str) -> (r: String)
    ensures
        r@ == "alist-"@ + date@ + ".log"@,
{
    let mut r = "alist-".to_owned();
    push_str(&mut r, date);
    push_str(&mut r, ".log");
    r
}

/// The message logged for an error: "ERROR: message - error", where `error`
/// is the error's text.
pub fn log_error(message: &str, error: &str) -> (r: String)
    ensures
        r@ == "ERROR: "@ + message@ + " - "@ + error@,
{
    let mut r = "ERROR: ".to_owned();
    push_str(&mut r, message);
    push_str(&mut r, " - ");
    push_str(&mut r, error);
    r
}

/// The message logged at debug level.
pub fn log_debug(message: &str) -> (r: String)
    ensures
        r@ == "DEBUG: "@ + message@,
{
    let mut r = "DEBUG: ".to_owned();
    push_str(&mut r, message);
    r
}

/// The message logged at info level.
pub fn log_info(message: &str) -> (r: String)
    ensures
        r@ == "INFO: "@ + message@,
{
    let mut r = "INFO: ".to_owned();
    push_str(&mut r, message);
    r
}

/// The message logged at warning level.
pub fn log_warn(message: &str) -> (r: String)
    ensures
        r@ == "WARN: "@ + message@,
{
    let mut r = "WARN: ".to_owned();
    push_str(&mut r, message);
    r
}

/// The message logged for an HTTP request:
/// "REQUEST: method url -> status (duration_msms)".
pub fn log_request(method: &str, url: &str, status: u16, duration_ms: u64) -> (r: String)
    ensures
        r@ == "REQUEST: "@ + method@ + " "@ + url@ + " -> "@ + crate::text::decimal(status as nat) + " ("@
            + crate::text::decimal(duration_ms as nat) + "ms)"@,
{
    let mut r = "REQUEST: ".to_owned();
    push_str(&mut r, method);
    push_str(&mut r, " ");
    push_str(&mut r, url);
    push_str(&mut r, " -> ");
    push_decimal(&mut r, status as u128);
    push_str(&mut r, " (");
    push_decimal(&mut r, duration_ms as u128);
    push_str(&mut r, "ms)");
    r
}

} // verus!
