//! Counting the positions of a range that have a property, and comparing a
//! count with a percentage of a total.

use vstd::prelude::*;

verus! {

/// Number of integers `k` with `0 <= k < n` for which `p(k)` holds.
pub open spec fn count_upto(n: int, p: spec_fn(int) -> bool) -> nat
    decreases n,
{
    if n <= 0 {
        0
    } else {
        count_upto(n - 1, p) + if p(n - 1) {
            1nat
        } else {
            0nat
        }
    }
}

/// Whether `count` is more than `percent` hundredths of `total`.
pub open spec fn exceeds_percent(count: int, total: int, percent: int) -> bool {
    100 * count > percent * total
}

/// Compares a count with a percentage of a total, in exact arithmetic.
pub fn exceeds_percent_of(count: u64, total: u64, percent: u32) -> (more: bool)
    ensures
        more == exceeds_percent(count as int, total as int, percent as int),
{
    assert(percent * total <= 0xFFFF_FFFF * 0xFFFF_FFFF_FFFF_FFFF) by (nonlinear_arith)
        requires
            0 <= percent <= 0xFFFF_FFFF,
            0 <= total <= 0xFFFF_FFFF_FFFF_FFFF,
    ;
    100 * (count as u128) > (percent as u128) * (total as u128)
}

/// A count over a range is at most the length of the range.
pub proof fn lemma_count_bound(n: int, p: spec_fn(int) -> bool)
    ensures
        n <= 0 ==> count_upto(n, p) == 0,
        0 <= n ==> count_upto(n, p) <= n,
    decreases n,
{
    if n > 0 {
        lemma_count_bound(n - 1, p);
    }
}

/// Where the property holds on the whole range, the count is its length.
pub proof fn lemma_count_all(n: int, p: spec_fn(int) -> bool)
    requires
        0 <= n,
        forall|k: int| 0 <= k < n ==> #[trigger] p(k),
    ensures
        count_upto(n, p) == n,
    decreases n,
{
    if n > 0 {
        lemma_count_all(n - 1, p);
    }
}

/// Where the property holds nowhere on the range, the count is zero.
pub proof fn lemma_count_none(n: int, p: spec_fn(int) -> bool)
    requires
        forall|k: int| 0 <= k < n ==> !#[trigger] p(k),
    ensures
        count_upto(n, p) == 0,
    decreases n,
{
    if n > 0 {
        lemma_count_none(n - 1, p);
    }
}

} // verus!
