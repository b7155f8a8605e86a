//! Pagination metadata: the pure calculation from page, limit, total match
//! count and returned record count to the metadata block of a listing.

use vstd::prelude::*;
use crate::models::PaginationMeta;

verus! {

/// Number of pages a collection of `total_docs` records spans at
/// `per_page` records per page: zero for an empty collection, otherwise
/// the rounded-up quotient.
pub open spec fn spec_total_pages(total_docs: int, per_page: int) -> int
    recommends
        per_page >= 1,
{
    if total_docs == 0 {
        0
    } else {
        (total_docs + per_page - 1) / per_page
    }
}

/// First page number, used when the caller supplied none or a
/// non-positive one.
pub const DEFAULT_PAGE: i64 = 1;

/// Default page size, used when the caller supplied none or a
/// non-positive one.
pub const DEFAULT_LIMIT: i64 = 10;

/// The page number actually used for a caller-supplied optional page:
/// non-positive or absent values are normalized to the default.
pub open spec fn spec_norm_page(page: Option<i64>) -> int {
    match page {
        Some(p) => if p >= 1 {
            p as int
        } else {
            DEFAULT_PAGE as int
        },
        None => DEFAULT_PAGE as int,
    }
}

/// The page size actually used for a caller-supplied optional limit:
/// non-positive or absent values are normalized to the default.
pub open spec fn spec_norm_limit(limit: Option<i64>) -> int {
    match limit {
        Some(l) => if l >= 1 {
            l as int
        } else {
            DEFAULT_LIMIT as int
        },
        None => DEFAULT_LIMIT as int,
    }
}

/// Normalizes a caller-supplied optional page number.
pub fn norm_page(page: Option<i64>) -> (p: i64)
    ensures
        p as int == spec_norm_page(page),
{
    match page {
        Some(p) => if p >= 1 {
            p
        } else {
            DEFAULT_PAGE
        },
        None => DEFAULT_PAGE,
    }
}

/// Normalizes a caller-supplied optional page size.
pub fn norm_limit(limit: Option<i64>) -> (l: i64)
    ensures
        l as int == spec_norm_limit(limit),
{
    match limit {
        Some(l) => if l >= 1 {
            l
        } else {
            DEFAULT_LIMIT
        },
        None => DEFAULT_LIMIT,
    }
}

/// Computes the pagination metadata for one page of a result set.
///
/// `from` is the one-based rank of the first record of the requested page
/// within the whole matching collection.  When the page is empty,
/// `to == from - 1`: an empty, well-formed range rather than a stale
/// value.  A page past the last one is not an error: it yields an empty
/// range while `total_pages` and `total_docs` still describe the whole
/// collection.  `total_pages` is never negative and is zero exactly when
/// the collection is empty.
pub fn compute_pagination(page: i64, limit: i64, total_docs: i64, returned: i64) -> (m:
    PaginationMeta)
    requires
        1 <= page,
        1 <= limit,
        0 <= total_docs,
        0 <= returned,
        (page - 1) * limit < i64::MAX,
        (page - 1) * limit + returned <= i64::MAX,
    ensures
        m.current_page == page,
        m.per_page == limit,
        m.total_docs == total_docs,
        m.from == (page - 1) * limit + 1,
        returned == 0 ==> m.to == m.from - 1,
        returned > 0 ==> m.to == m.from + returned - 1,
        m.total_pages == spec_total_pages(total_docs as int, limit as int),
        m.total_pages >= 0,
        m.total_pages == 0 <==> total_docs == 0,
{
    proof {
        vstd::arithmetic::mul::lemma_mul_nonnegative((page - 1) as int, limit as int);
    }
    let offset = (page - 1) * limit;
    let from = offset + 1;
    let to = if returned == 0 {
        from - 1
    } else {
        offset + returned
    };
    let total_pages = if total_docs == 0 {
        0
    } else {
        let q = total_docs / limit;
        let r = total_docs % limit;
        proof {
            lemma_ceil_div(total_docs as int, limit as int);
            vstd::arithmetic::div_mod::lemma_fundamental_div_mod(total_docs as int, limit as int);
            vstd::arithmetic::div_mod::lemma_mod_bound(total_docs as int, limit as int);
            vstd::arithmetic::div_mod::lemma_div_pos_is_pos(total_docs as int, limit as int);
            if r != 0 {
                assert(q + 1 <= total_docs) by (nonlinear_arith)
                    requires
                        total_docs as int == limit * q + r,
                        1 <= r,
                        1 <= limit,
                        0 <= q,
                ;
            }
        }
        if r != 0 {
            q + 1
        } else {
            q
        }
    };
    PaginationMeta { current_page: page, per_page: limit, from, to, total_pages, total_docs }
}

/// Rounding up by adding `b - 1` before dividing agrees with adding one
/// when the division has a remainder.
proof fn lemma_ceil_div(a: int, b: int)
    requires
        a >= 0,
        b >= 1,
    ensures
        (a + b - 1) / b == a / b + if a % b != 0 {
            1int
        } else {
            0int
        },
        a == 0 ==> (a + b - 1) / b == 0,
        a > 0 ==> (a + b - 1) / b > 0,
{
    vstd::arithmetic::div_mod::lemma_fundamental_div_mod(a, b);
    vstd::arithmetic::div_mod::lemma_fundamental_div_mod(a + b - 1, b);
    let q = a / b;
    let r = a % b;
    vstd::arithmetic::div_mod::lemma_mod_bound(a, b);
    if r == 0 {
        assert(a + b - 1 == b * q + (b - 1)) by (nonlinear_arith)
            requires
                a == b * q + r,
                r == 0,
        ;
        vstd::arithmetic::div_mod::lemma_div_multiples_vanish_fancy(q, b - 1, b);
    } else {
        assert(a + b - 1 == b * (q + 1) + (r - 1)) by (nonlinear_arith)
            requires
                a == b * q + r,
        ;
        vstd::arithmetic::div_mod::lemma_div_multiples_vanish_fancy(q + 1, r - 1, b);
    }
    if a > 0 {
        vstd::arithmetic::div_mod::lemma_div_non_zero(a + b - 1, b);
    }
}

} // verus!
