//! Cutting a row of items into pages, and counting the pages.

use crate::error::Error;
use vstd::prelude::*;

verus! {

/// The number of pages that `total` items fill with `limit` items on a page:
/// `total / limit`, rounded up.
pub open spec fn pages(total: nat, limit: nat) -> nat
    recommends
        limit > 0,
{
    ((total + limit - 1) / (limit as int)) as nat
}

/// Where the page that starts at `from_index` and holds at most `limit` items
/// begins and ends, among `len` items.
pub open spec fn page_bounds(len: nat, from_index: nat, limit: nat) -> (nat, nat) {
    let start = if from_index < len { from_index } else { len };
    let end = if limit < len - start { start + limit } else { len };
    (start, end)
}

/// The page of `items` that starts at `from_index` and holds at most `limit` items.
pub open spec fn page<T>(items: Seq<T>, from_index: nat, limit: nat) -> Seq<T> {
    let (start, end) = page_bounds(items.len(), from_index, limit);
    items.subrange(start as int, end as int)
}

/// `pages(total, limit)` is the ceiling of `total / limit`: that many pages
/// hold all the items, one page less would not, and no items fill no page.
pub proof fn pages_is_ceiling(total: nat, limit: nat)
    requires
        limit > 0,
    ensures
        pages(total, limit) * limit >= total,
        total > 0 ==> (pages(total, limit) - 1) * limit < total,
        total == 0 ==> pages(total, limit) == 0,
        pages(0, limit) == 0,
{
    let t = total as int;
    let l = limit as int;
    let p = (t + l - 1) / l;
    assert(0 <= p && p * l <= t + l - 1 && t + l - 1 < p * l + l) by (nonlinear_arith)
        requires
            l > 0,
            t >= 0,
            p == (t + l - 1) / l,
    ;
    assert((p - 1) * l == p * l - l) by (nonlinear_arith);
    assert((0 + l - 1) / l == 0) by (nonlinear_arith)
        requires
            l > 0,
    ;
}

/// Among the natural numbers, only `pages(total, limit)` is that ceiling.
pub proof fn ceiling_is_pages(total: nat, limit: nat, count: nat)
    requires
        limit > 0,
        count * limit >= total,
        count > 0 ==> (count - 1) * limit < total,
    ensures
        count == pages(total, limit),
{
    pages_is_ceiling(total, limit);
    let p = pages(total, limit) as int;
    let c = count as int;
    let l = limit as int;
    let t = total as int;
    if c < p {
        assert(c * l <= (p - 1) * l) by (nonlinear_arith)
            requires
                c <= p - 1,
                l > 0,
        ;
    }
    if p < c {
        assert(p * l <= (c - 1) * l) by (nonlinear_arith)
            requires
                p <= c - 1,
                l > 0,
        ;
    }
}

/// The number of pages that `total` items fill with `limit` items on a page.
/// A `limit` of zero is refused.
pub fn page_count(total: u64, limit: u64) -> (r: Result<u64, Error>)
    ensures
        r is Err <==> limit == 0,
        r matches Err(e) ==> e == Error::InvalidArgument,
        r matches Ok(count) ==> count == pages(total as nat, limit as nat),
{
    if limit == 0 {
        return Err(Error::InvalidArgument);
    }
    let whole: u64 = total / limit;
    let rest: u64 = total % limit;
    proof {
        let t = total as int;
        let l = limit as int;
        assert(t == l * (t / l) + t % l && 0 <= t % l < l) by (nonlinear_arith)
            requires
                l > 0,
                t >= 0,
        ;
        if rest == 0 {
            assert((t + l - 1) / l == t / l) by (nonlinear_arith)
                requires
                    l > 0,
                    t == l * (t / l),
            ;
        } else {
            assert((t + l - 1) / l == t / l + 1) by (nonlinear_arith)
                requires
                    l > 0,
                    t == l * (t / l) + t % l,
                    0 < t % l < l,
            ;
            assert(t / l < t) by (nonlinear_arith)
                requires
                    l >= 2,
                    t > 0,
            ;
        }
    }
    if rest == 0 {
        Ok(whole)
    } else {
        Ok(whole + 1)
    }
}

/// Where the page that starts at `from_index` and holds at most `limit` items
/// begins and ends, among `len` items.
pub fn page_range(len: usize, from_index: usize, limit: usize) -> (r: (usize, usize))
    ensures
        (r.0 as nat, r.1 as nat) == page_bounds(len as nat, from_index as nat, limit as nat),
        r.0 <= r.1 <= len,
{
    let start: usize = if from_index < len { from_index } else { len };
    let end: usize = if limit < len - start { start + limit } else { len };
    (start, end)
}

} // verus!
