//! Response bodies the core owns: the page shown to a rate-limited
//! visitor.

use vstd::prelude::*;
use vstd::string::StringExecFns;

verus! {

/// The body served to a rate-limited visitor, with their identity inlined.
pub open spec fn rate_limited_html(user_id: Seq<char>) -> Seq<char> {
    "<!doctype html><html><head><meta charset=\"utf-8\"><title>Too many</title></head>\n<body><h1>Slow down</h1><p>User "@
        + user_id
        + " hit the per-minute limit. Please retry shortly.</p></body></html>"@
}

/// Render the rate-limited page for one visitor.
pub fn rate_limited_page(user_id: &str) -> (r: String)
    ensures
        r@ == rate_limited_html(user_id@),
{
    let mut s: String =
        "<!doctype html><html><head><meta charset=\"utf-8\"><title>Too many</title></head>\n<body><h1>Slow down</h1><p>User ".to_owned();
    s.append(user_id);
    s.append(" hit the per-minute limit. Please retry shortly.</p></body></html>");
    s
}

} // verus!
