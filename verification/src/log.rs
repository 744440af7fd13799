//! The log of exchanges, one line each.

use crate::gui::or_dash;
use crate::mcp::heading;
use crate::model::{Exchange, ExchangeView, RequestView};
use crate::text;
use crate::text::decimal;
use vstd::prelude::*;

verus! {

/// The text that the `Debug` of `std::time::Duration` gives for this many nanoseconds.
pub uninterp spec fn full_duration(nanos: u64) -> Seq<char>;

/// The `Debug` of `std::time::Duration` depends on the duration alone.
#[verifier::external_body]
fn write_duration(nanos: u64) -> (r: String)
    ensures
        r@ == full_duration(nanos),
{
    format!("{:?}", std::time::Duration::from_nanos(nanos))
}

/// The line that the log gets for an exchange that has ended.
pub open spec fn log_line(e: ExchangeView) -> Seq<char> {
    let (method, uri) = heading(e.request);
    method + " "@ + uri + " -> "@ + or_dash(
        match e.response_status {
            Some(s) => Some(decimal(s as nat)),
            None => None,
        },
    ) + " ("@ + or_dash(
        match e.timing.elapsed() {
            Some(n) => Some(full_duration(n)),
            None => None,
        },
    ) + ")"@
}

/// The line that the log gets for an exchange that has ended.
pub fn log_text(ex: &Exchange) -> (r: String)
    ensures
        r@ == log_line(ex@),
{
    let (method, uri) = match &ex.request {
        Some(q) => (q.method.as_str(), q.uri.as_str()),
        None => ("-", "-"),
    };
    let mut r = method.to_string();
    r.push_str(" ");
    r.push_str(uri);
    r.push_str(" -> ");
    match ex.response_status {
        Some(s) => r.push_str(text::decimal_text(s as u64).as_str()),
        None => r.push_str("-"),
    }
    r.push_str(" (");
    match ex.timing.total() {
        Some(n) => r.push_str(write_duration(n).as_str()),
        None => r.push_str("-"),
    }
    r.push_str(")");
    r
}

/// A line of the log says what was asked, the status of the answer, and how long the exchange took;
/// what is not known is a dash.
pub proof fn law_log_line(e: ExchangeView, q: RequestView, status: u16, nanos: u64)
    ensures
        e.request == Some(q) && e.response_status == Some(status) && e.timing.elapsed() == Some(
            nanos,
        ) ==> log_line(e) == q.method + " "@ + q.uri + " -> "@ + decimal(status as nat) + " ("@
            + full_duration(nanos) + ")"@,
        e.request == Some(q) && e.response_status is None && e.timing.elapsed() == Some(nanos)
            ==> log_line(e) == q.method + " "@ + q.uri + " -> "@ + "-"@ + " ("@ + full_duration(
            nanos,
        ) + ")"@,
        e.request == Some(q) && e.response_status == Some(status) && e.timing.elapsed() is None
            ==> log_line(e) == q.method + " "@ + q.uri + " -> "@ + decimal(status as nat) + " ("@
            + "-"@ + ")"@,
        e.request == Some(q) && e.response_status is None && e.timing.elapsed() is None
            ==> log_line(e) == q.method + " "@ + q.uri + " -> "@ + "-"@ + " ("@ + "-"@ + ")"@,
        e.request is None ==> log_line(e) == log_line(
            ExchangeView {
                request: Some(
                    RequestView {
                        method: "-"@,
                        uri: "-"@,
                        headers: Seq::empty(),
                        is_connect: false,
                    },
                ),
                ..e
            },
        ),
{
}

} // verus!
