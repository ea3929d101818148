//! Requests arriving from the browser extension: which field names the
//! source, and how the request is classified before it is shown.

use vstd::prelude::*;
use crate::strutil::{starts_with, str_starts_with, str_eq};

verus! {

/// The source of a browser request: the `url` field wins, then
/// `source`; a request with neither is refused.
pub fn choose_source(url: Option<String>, source: Option<String>) -> (r: Option<String>)
    ensures
        url matches Some(u) ==> (r matches Some(s) && s == u),
        url is None ==> r == source,
{
    match url {
        Some(u) => Some(u),
        None => source,
    }
}

/// How a browser request is announced: `magnet` for magnet links or an
/// explicit magnet type, plain `download` otherwise.
pub fn browser_request_kind(declared_type: &str, source: &str) -> (r: &'static str)
    ensures
        (starts_with(source@, "magnet:"@) || declared_type@ == "magnet"@) ==> r@ == "magnet"@,
        !(starts_with(source@, "magnet:"@) || declared_type@ == "magnet"@) ==> r@ == "download"@,
{
    if str_starts_with(source, "magnet:") || str_eq(declared_type, "magnet") {
        "magnet"
    } else {
        "download"
    }
}

} // verus!
