//! Pagination and response shaping for the route listing endpoints.

use vstd::prelude::*;

verus! {

/// Query parameters of a route listing request.
#[derive(Debug, Clone, Copy)]
pub struct PaginationParams {
    pub page: Option<i32>,
    pub limit: Option<i32>,
}

/// A single-value response envelope.
#[derive(Debug, Clone)]
pub struct ApiResponse<T> {
    pub success: bool,
    pub data: T,
}

/// A paginated response envelope.
#[derive(Debug, Clone)]
pub struct PaginatedResponse<T> {
    pub success: bool,
    pub count: usize,
    pub pagination: Pagination,
    pub data: Vec<T>,
}

/// The pagination block of a listing response.
#[derive(Debug, Clone, Copy, PartialEq, Eq, Structural)]
pub struct Pagination {
    pub page: i32,
    pub limit: i32,
    pub total_pages: i32,
    pub total_items: i64,
}

/// The page and limit a listing request asks for: the given values, or
/// page 1 with 10 items when absent.
pub fn page_defaults(params: &PaginationParams) -> (r: (i32, i32))
    ensures
        r.0 == match params.page {
            Some(p) => p,
            None => 1,
        },
        r.1 == match params.limit {
            Some(l) => l,
            None => 10,
        },
{
    let page = match params.page {
        Some(p) => p,
        None => 1,
    };
    let limit = match params.limit {
        Some(l) => l,
        None => 10,
    };
    (page, limit)
}

/// The row offset of a page.
pub fn route_offset(page: i32, limit: i32) -> (r: i32)
    requires
        page > i32::MIN,
        i32::MIN <= (page - 1) * limit <= i32::MAX,
    ensures
        r == (page - 1) * limit,
{
    (page - 1) * limit
}

/// How many pages `total` rows make at `limit` rows per page, rounded up.
pub fn total_pages(total: i64, limit: i32) -> (r: i32)
    requires
        limit >= 1,
        0 <= total,
        total + limit <= i64::MAX,
        (total + limit - 1) / (limit as int) <= i32::MAX,
    ensures
        r == (total + limit - 1) / (limit as int),
{
    let t: i64 = (total + (limit as i64)) - 1;
    let pages: i64 = t / (limit as i64);
    proof {
        vstd::arithmetic::div_mod::lemma_div_is_ordered(0, t as int, limit as int);
    }
    pages as i32
}

/// Builds the pagination block of a listing response.
pub fn make_pagination(page: i32, limit: i32, total: i64) -> (r: Pagination)
    requires
        limit >= 1,
        0 <= total,
        total + limit <= i64::MAX,
        (total + limit - 1) / (limit as int) <= i32::MAX,
    ensures
        r.page == page,
        r.limit == limit,
        r.total_items == total,
        r.total_pages == (total + limit - 1) / (limit as int),
{
    let tp = total_pages(total, limit);
    Pagination { page, limit, total_pages: tp, total_items: total }
}

} // verus!
