//! What to do with a response before it is decoded.

use crate::request_manager::is_success;
use vstd::prelude::*;

verus! {

/// A response that the service did not answer with success.
#[derive(Debug, Clone, PartialEq, Eq)]
pub struct Rejected {
    pub status: u16,
    /// The body of the response, for the operator.
    pub body: String,
}

/// Whether a status is one of success.
pub fn status_is_success(status: u16) -> (r: bool)
    ensures
        r == is_success(status),
{
    200 <= status && status < 300
}

/// The body of a response that is to be decoded, or the rejection that ends
/// the run: only a response of success is decoded.
pub fn json_of_resp(status: u16, body: String) -> (r: Result<String, Rejected>)
    ensures
        match r {
            Ok(text) => is_success(status) && text == body,
            Err(e) => !is_success(status) && e.status == status && e.body == body,
        },
{
    if status_is_success(status) {
        Ok(body)
    } else {
        Err(Rejected { status, body })
    }
}

} // verus!
