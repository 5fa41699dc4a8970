//! Server-Sent Events framing.

use vstd::prelude::*;

use crate::text::{chars_to_string, push_str_chars};

verus! {

/// The frame for a named event carrying a data payload:
/// `event: <name>\ndata: <json>\n\n`.
pub open spec fn sse_event_spec(event_name: Seq<char>, json_data: Seq<char>) -> Seq<char> {
    "event: "@ + event_name + "\ndata: "@ + json_data + "\n\n"@
}

/// Formats a named SSE event with a JSON data payload.
pub fn format_sse_event(event_name: &str, json_data: &str) -> (r: String)
    ensures
        r@ == sse_event_spec(event_name@, json_data@),
{
    let mut out: Vec<char> = Vec::new();
    push_str_chars(&mut out, "event: ");
    push_str_chars(&mut out, event_name);
    push_str_chars(&mut out, "\ndata: ");
    push_str_chars(&mut out, json_data);
    push_str_chars(&mut out, "\n\n");
    chars_to_string(&out)
}

/// Formats a keep-alive SSE comment. Comments start with `:` and are
/// ignored by EventSource clients but keep the connection open.
pub fn format_sse_keepalive() -> (r: &'static str)
    ensures
        r@ == ": ping\n\n"@,
{
    ": ping\n\n"
}

} // verus!
