//! The query service: turns a reader's optional page and star threshold
//! into a bounded store query and a page of results.

use vstd::prelude::*;
use crate::db::{get_paginated_issues, page_of, Store, StoreError};
use crate::models::{issue_views, PaginatedResponse};

verus! {

/// The last page a reader can ask for.
pub const MAX_PAGE: i64 = 4;

/// The number of issues on a full page.
pub const PER_PAGE: i64 = 30;

/// The star threshold of a reader who names none.
pub const DEFAULT_MIN_STARS: i64 = 50;

/// What a reader may ask for: a page and a minimum star count.
#[derive(Debug, Clone, Copy, PartialEq, Eq)]
pub struct PaginationParams {
    pub page: Option<i64>,
    pub min_stars: Option<i64>,
}

/// The page that a request resolves to: the first if none is named, else
/// the named one brought into the range from 1 to `MAX_PAGE`.
pub open spec fn clamped_page(page: Option<i64>) -> i64 {
    match page {
        None => 1,
        Some(p) => if p < 1 {
            1
        } else if p > MAX_PAGE {
            MAX_PAGE
        } else {
            p
        },
    }
}

/// The star threshold that a request resolves to.
pub open spec fn effective_min_stars(min_stars: Option<i64>) -> i64 {
    match min_stars {
        None => DEFAULT_MIN_STARS,
        Some(m) => m,
    }
}

/// The number of pages that `total` items fill, the last one perhaps in part.
pub open spec fn page_count(total: int, per_page: int) -> int {
    if total % per_page == 0 {
        total / per_page
    } else {
        total / per_page + 1
    }
}

/// The page count is the least number of pages that hold every item.
pub proof fn lemma_page_count_is_ceiling(total: int, per_page: int)
    requires
        total >= 0,
        per_page >= 1,
    ensures
        (page_count(total, per_page) - 1) * per_page < total <= page_count(total, per_page) * per_page,
        total == 0 ==> page_count(total, per_page) == 0,
{
    vstd::arithmetic::div_mod::lemma_fundamental_div_mod(total, per_page);
    vstd::arithmetic::div_mod::lemma_mod_bound(total, per_page);
    let q = total / per_page;
    assert((q - 1) * per_page == q * per_page - per_page && (q + 1) * per_page == q * per_page + per_page
        && q * per_page == per_page * q) by (nonlinear_arith);
    if total == 0 {
        vstd::arithmetic::div_mod::lemma_div_basics(per_page);
    }
}

/// Resolves the page of a request. Any request, whatever page it names,
/// resolves to a page from 1 to `MAX_PAGE`.
pub fn clamp_page(page: Option<i64>) -> (r: i64)
    ensures
        r == clamped_page(page),
        1 <= r <= MAX_PAGE,
{
    match page {
        None => 1,
        Some(p) => if p < 1 {
            1
        } else if p > MAX_PAGE {
            MAX_PAGE
        } else {
            p
        },
    }
}

/// Counts the pages that `total_count` items fill at `per_page` items a page.
pub fn total_pages(total_count: i64, per_page: i64) -> (r: i64)
    requires
        total_count >= 0,
        per_page >= 1,
    ensures
        r == page_count(total_count as int, per_page as int),
        (r - 1) * per_page < total_count <= r * per_page,
{
    proof {
        lemma_page_count_is_ceiling(total_count as int, per_page as int);
        vstd::arithmetic::div_mod::lemma_fundamental_div_mod(total_count as int, per_page as int);
        vstd::arithmetic::div_mod::lemma_mod_bound(total_count as int, per_page as int);
        let t = total_count as int;
        let p = per_page as int;
        let q = t / p;
        let m = t % p;
        assert(0 <= q <= t) by (nonlinear_arith)
            requires
                t == p * q + m,
                0 <= m && m < p,
                p >= 1,
                t >= 0,
        ;
        if m != 0 {
            assert(q < t) by (nonlinear_arith)
                requires
                    t == p * q + m,
                    0 < m && m < p,
                    p >= 1,
                    q >= 0,
            ;
        }
    }
    if total_count % per_page == 0 {
        total_count / per_page
    } else {
        total_count / per_page + 1
    }
}

/// Answers a read request: the resolved page of the issues that meet the
/// resolved star threshold, newest first, with the count of all matching
/// issues and the number of pages they fill. A store that cannot answer is
/// an error, never an empty page.
pub fn get_issues(store: &Store, params: &PaginationParams) -> (r: Result<PaginatedResponse, StoreError>)
    requires
        store.wf(),
    ensures
        match r {
            Ok(resp) => {
                let min_stars = effective_min_stars(params.min_stars);
                &&& store@.ready
                &&& resp.page == clamped_page(params.page)
                &&& resp.per_page == PER_PAGE
                &&& resp.total_count == store@.matching(min_stars).len()
                &&& resp.total_pages == page_count(resp.total_count as int, PER_PAGE as int)
                &&& issue_views(resp.issues@) == page_of(
                    store@.ranked(min_stars),
                    resp.page as int,
                    PER_PAGE as int,
                )
            },
            Err(e) => !store@.ready && e == StoreError::NotInitialized,
        },
{
    let page = clamp_page(params.page);
    let min_stars = match params.min_stars {
        Some(m) => m,
        None => DEFAULT_MIN_STARS,
    };
    match get_paginated_issues(store, page, PER_PAGE, min_stars) {
        Ok((issues, total_count)) => {
            let total_pages = total_pages(total_count, PER_PAGE);
            Ok(PaginatedResponse { issues, total_count, page, per_page: PER_PAGE, total_pages })
        },
        Err(e) => Err(e),
    }
}

} // verus!
