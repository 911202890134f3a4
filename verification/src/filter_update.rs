//! What a filter-list update fetch decides from the server's answer: a
//! `304` means the cached list stands, a `200` carries a new body and its
//! validator, anything else is an error.
use vstd::prelude::*;

verus! {

/// A fetched list body plus its validator for the next update cycle.
#[derive(Debug, Clone, PartialEq, Eq)]
pub struct FetchedList {
    pub body: String,
    pub etag: Option<String>,
}

/// How a list fetch answered.
#[derive(Debug, Clone, Copy, PartialEq, Eq)]
pub enum ListStatus {
    /// `304`: the list is unchanged, so no engine rebuild is needed.
    Unchanged,
    /// `200`: a new body follows.
    Fresh,
    /// Any other status, surfaced as an error with its code.
    Unexpected(u16),
}

/// The meaning of HTTP status `code` for a conditional list fetch.
pub fn list_status(code: u16) -> (r: ListStatus)
    ensures
        code == 304 ==> r == ListStatus::Unchanged,
        code == 200 ==> r == ListStatus::Fresh,
        code != 304 && code != 200 ==> r == ListStatus::Unexpected(code),
{
    if code == 304 {
        ListStatus::Unchanged
    } else if code == 200 {
        ListStatus::Fresh
    } else {
        ListStatus::Unexpected(code)
    }
}

} // verus!
