//! Pagination arithmetic for the document-browsing queries.

use vstd::prelude::*;

verus! {

/// Number of documents to skip to reach the given zero-based page: the
/// exact product `page * per_page` when both are non-negative and the
/// product is representable, `None` otherwise.
pub fn page_offset(page: i64, per_page: i64) -> (r: Option<u64>)
    ensures
        r is Some <==> page >= 0 && per_page >= 0 && page * per_page <= u64::MAX,
        r is Some ==> r == Some((page * per_page) as u64),
{
    if page < 0 || per_page < 0 {
        None
    } else {
        (page as u64).checked_mul(per_page as u64)
    }
}

} // verus!
