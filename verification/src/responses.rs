//! Response-layer mirrors of the pagination metadata: the shape in which a
//! listing's page travels to callers that build the outward response
//! separately from the storage layer.

use vstd::prelude::*;
use crate::models::PaginationMeta;

verus! {

/// Pagination metadata as the response layer carries it.
#[derive(Clone, Copy, Debug, PartialEq, Eq, Structural)]
pub struct Meta {
    pub current_page: i64,
    pub per_page: i64,
    pub from: i64,
    pub to: i64,
    pub total_pages: i64,
    pub total_docs: i64,
}

impl Meta {
    /// Carries computed pagination metadata over, field for field.
    pub fn of_pagination(m: &PaginationMeta) -> (r: Meta)
        ensures
            r.current_page == m.current_page,
            r.per_page == m.per_page,
            r.from == m.from,
            r.to == m.to,
            r.total_pages == m.total_pages,
            r.total_docs == m.total_docs,
    {
        Meta {
            current_page: m.current_page,
            per_page: m.per_page,
            from: m.from,
            to: m.to,
            total_pages: m.total_pages,
            total_docs: m.total_docs,
        }
    }
}

/// One page of records together with its response-layer metadata.
#[derive(Debug)]
pub struct PaginatedResponse<T> {
    pub records: Vec<T>,
    pub meta: Meta,
}

} // verus!
