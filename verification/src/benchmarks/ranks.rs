//! Which entries of a sorted list of measurements stand for it.

use vstd::prelude::*;

verus! {

/// The places of the least entry, the quartiles and the greatest entry.
#[derive(Clone, Copy, Debug, PartialEq, Eq, Structural)]
pub struct Ranks {
    pub min: usize,
    pub p25: usize,
    pub median: usize,
    pub p75: usize,
    pub max: usize,
}

/// The integer next to `x * a / b`; of two that are equally near, the greater.
pub open spec fn nearest(x: int, a: int, b: int) -> int {
    (2 * x * a + b) / (2 * b)
}

/// The places of the least entry, the quartiles and the greatest entry of a sorted
/// list with `n` entries, for lists of at most 2 Pi entries. The first and third
/// quartile go by the nearest rank; the median is the entry in the middle, or the
/// upper one of two.
pub fn five_ranks(n: usize) -> (r: Ranks)
    requires
        0 < n <= 0x8_0000_0000_0000,
    ensures
        r.min == 0,
        r.p25 == nearest(n - 1, 1, 4),
        r.median as int == n as int / 2,
        r.p75 == nearest(n - 1, 3, 4),
        r.max == n - 1,
        (r.min as int, r.p25 as int, r.median as int, r.p75 as int, r.max as int) == ranks_of(n as int),
{
    let last: u64 = (n - 1) as u64;
    let p25: u64 = (2 * last + 4) / 8;
    let p75: u64 = (6 * last + 4) / 8;
    Ranks { min: 0, p25: p25 as usize, median: n / 2, p75: p75 as usize, max: n - 1 }
}

/// The places ascend and lie in the list.
pub proof fn ranks_ascend(n: int)
    requires
        0 < n,
    ensures
        0 <= nearest(n - 1, 1, 4) <= n / 2 <= nearest(n - 1, 3, 4) <= n - 1,
{
}

/// The nearest integer to a fraction is no more than a half away from it, and of two that are
/// equally near it is the greater.
pub proof fn nearest_is_half_away_at_most(x: int, a: int, b: int)
    requires
        0 < b,
    ensures
        -b <= 2 * (x * a - nearest(x, a, b) * b) < b,
{
    let r = nearest(x, a, b);
    let t = 2 * x * a + b;
    vstd::arithmetic::div_mod::lemma_fundamental_div_mod(t, 2 * b);
    vstd::arithmetic::div_mod::lemma_mod_bound(t, 2 * b);
    assert(2 * x * a == 2 * (x * a)) by (nonlinear_arith);
    assert(2 * b * r == 2 * (r * b)) by (nonlinear_arith);
}
/// The places of the least entry, the quartiles and the greatest entry of a sorted list.
pub open spec fn ranks_of(n: int) -> (int, int, int, int, int) {
    (0, nearest(n - 1, 1, 4), n / 2, nearest(n - 1, 3, 4), n - 1)
}

/// The least entry is the first and the greatest the last. The quartiles are as near as can be
/// to a quarter and to three quarters of the way between them, the upper place of two, and
/// behind the median are as many entries as before it, or one fewer.
pub proof fn quartiles_are_as_near_as_can_be(n: int)
    requires
        0 < n,
    ensures
        ({
            let (least, p25, median, p75, greatest) = ranks_of(n);
            &&& least == 0 && greatest == n - 1
            &&& -2 <= (n - 1) - 4 * p25 < 2
            &&& -2 <= 3 * (n - 1) - 4 * p75 < 2
            &&& 0 <= median - (n - 1 - median) <= 1
        }),
{
    assert(2 * (n - 1) * 1 == 2 * (n - 1) && 2 * (n - 1) * 3 == 6 * (n - 1));
    assert(nearest(n - 1, 1, 4) == (2 * (n - 1) + 4) / 8);
    assert(nearest(n - 1, 3, 4) == (6 * (n - 1) + 4) / 8);
}

} // verus!
