//! Path building, request routing and response framing for a small HTTP server.
use vstd::prelude::*;

pub mod pattern;
pub mod paths;
pub mod http;

pub use paths::{get_html_path, get_path, html_base_path, join_path_parts, PathStyle};
pub use http::{
    plain_response, response_with_length, route_request_bytes, route_request_line, Route,
};

verus! {

/// Adds two numbers.
pub fn add(left: usize, right: usize) -> (sum: usize)
    requires
        left + right <= usize::MAX,
    ensures
        sum == left + right,
{
    left + right
}

} // verus!
