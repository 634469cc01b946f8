//! A workload of small and large products, evenly mixed.

use vstd::arithmetic::mul::*;
use vstd::prelude::*;

use crate::text;

verus! {

/// The size of a product.
#[derive(Clone, Copy, Debug, PartialEq, Eq, Structural)]
pub enum Size {
    Small,
    Large,
}

/// The extents of the two sizes.
#[derive(Clone, Copy, Debug, PartialEq, Eq, Structural)]
pub struct SizeSpec {
    pub small_m: i32,
    pub large_m: i32,
}

/// The extent of a tile.
pub const BM: i32 = 128;

pub const BN: i32 = 128;

pub const BK: i32 = 64;

impl SizeSpec {
    /// The extent of a size.
    pub fn m(&self, size: Size) -> (m: i32)
        ensures
            m == (match size {
                Size::Small => self.small_m,
                Size::Large => self.large_m,
            }),
    {
        match size {
            Size::Small => self.small_m,
            Size::Large => self.large_m,
        }
    }

    /// Whether both extents consist of whole tiles.
    pub fn is_whole_tiles(&self) -> (b: bool)
        ensures
            b == (self.small_m as int % 128 == 0 && self.large_m as int % 128 == 0),
    {
        self.small_m % BM == 0 && self.large_m % BM == 0
    }
}

/// The const-generic arguments of the products.
pub fn workload_generics() -> (g: Vec<String>)
    ensures
        text::texts(g@) == seq![
            "f16"@,
            text::int_text(BM as int),
            text::int_text(BN as int),
            text::int_text(BK as int),
        ],
{
    let mut g: Vec<String> = Vec::new();
    g.push("f16".to_owned());
    g.push(text::int_string(BM as i64));
    g.push(text::int_string(BN as i64));
    g.push(text::int_string(BK as i64));
    assert(text::texts(g@) =~= seq![
        "f16"@,
        text::int_text(BM as int),
        text::int_text(BN as int),
        text::int_text(BK as int),
    ]);
    g
}

/// Whether the next product is small, after `s` small and `l` large ones of `small`
/// and `large`: the small ones must not be ahead of their share.
pub open spec fn next_is_small(s: nat, l: nat, small: nat, large: nat) -> bool {
    (s < small && s * large <= l * small) || l >= large
}

/// The rest of a workload, after `s` small and `l` large products.
pub open spec fn rest(s: nat, l: nat, small: nat, large: nat) -> Seq<Size>
    decreases small + large - s - l,
{
    if s > small || l > large || (s == small && l == large) {
        Seq::empty()
    } else if next_is_small(s, l, small, large) {
        seq![Size::Small] + rest(s + 1, l, small, large)
    } else {
        seq![Size::Large] + rest(s, l + 1, small, large)
    }
}

/// A workload of small and large products, mixed so that neither size is ahead of its
/// share by more than one product.
pub fn interleave(n_small: usize, n_large: usize) -> (out: Vec<Size>)
    requires
        n_small + n_large <= usize::MAX,
        n_small * n_large <= u64::MAX,
    ensures
        out@ == rest(0, 0, n_small as nat, n_large as nat),
{
    let mut out: Vec<Size> = Vec::new();
    let mut small_left: usize = n_small;
    let mut large_left: usize = n_large;
    let mut s_num: u64 = 0;
    let mut l_num: u64 = 0;
    let ghost all = rest(0, 0, n_small as nat, n_large as nat);
    assert(out@ + all =~= all);
    while small_left > 0 || large_left > 0
        invariant
            n_small * n_large <= u64::MAX,
            s_num + small_left == n_small,
            l_num + large_left == n_large,
            all == rest(0, 0, n_small as nat, n_large as nat),
            out@ + rest(s_num as nat, l_num as nat, n_small as nat, n_large as nat) == all,
        decreases small_left + large_left,
    {
        proof {
            assert(s_num * n_large <= n_small * n_large && l_num * n_small <= n_small * n_large)
                by (nonlinear_arith)
                requires
                    s_num <= n_small,
                    l_num <= n_large,
            ;
        }
        let ghost before = out@;
        let ghost tail = rest(s_num as nat, l_num as nat, n_small as nat, n_large as nat);
        if (small_left > 0 && s_num * n_large as u64 <= l_num * n_small as u64) || large_left == 0 {
            out.push(Size::Small);
            small_left = small_left - 1;
            s_num = s_num + 1;
        } else {
            out.push(Size::Large);
            large_left = large_left - 1;
            l_num = l_num + 1;
        }
        assert(before + tail =~= out@ + rest(
            s_num as nat,
            l_num as nat,
            n_small as nat,
            n_large as nat,
        ));
    }
    assert(out@ =~= out@ + rest(s_num as nat, l_num as nat, n_small as nat, n_large as nat));
    out
}

/// The number of products of a size.
pub open spec fn count(s: Seq<Size>, size: Size) -> nat
    decreases s.len(),
{
    if s.len() == 0 {
        0
    } else {
        count(s.drop_last(), size) + (if s.last() == size {
            1nat
        } else {
            0nat
        })
    }
}

/// Neither size is ahead of its share by more than one product.
pub open spec fn balanced(s: nat, l: nat, small: nat, large: nat) -> bool {
    &&& s * large <= l * small + large
    &&& l * small <= s * large + small
}

/// The first product counts apart.
proof fn count_first(first: Size, s: Seq<Size>, size: Size)
    ensures
        count(seq![first] + s, size) == count(s, size) + (if first == size {
            1nat
        } else {
            0nat
        }),
    decreases s.len(),
{
    let all = seq![first] + s;
    if s.len() == 0 {
        reveal_with_fuel(count, 2);
        assert(all.drop_last() =~= Seq::empty());
    } else {
        assert(all.drop_last() =~= seq![first] + s.drop_last());
        assert(all.last() == s.last());
        count_first(first, s.drop_last(), size);
    }
}

/// A product keeps the sizes balanced.
proof fn step_keeps_balance(s: nat, l: nat, small: nat, large: nat)
    requires
        s <= small,
        l <= large,
        s < small || l < large,
        balanced(s, l, small, large),
    ensures
        next_is_small(s, l, small, large) ==> s < small && balanced(s + 1, l, small, large),
        !next_is_small(s, l, small, large) ==> l < large && balanced(s, l + 1, small, large),
{
    lemma_mul_is_distributive_add_other_way(large as int, s as int, 1);
    lemma_mul_is_distributive_add_other_way(small as int, l as int, 1);
    if next_is_small(s, l, small, large) {
        if l >= large {
            assert((s + 1) * large <= l * small) by (nonlinear_arith)
                requires
                    s + 1 <= small,
                    l >= large,
            ;
        }
    } else if s == small {
        assert((l + 1) * small <= s * large) by (nonlinear_arith)
            requires
                l + 1 <= large,
                s == small,
        ;
    }
}

/// What is left of a workload has the products that are left, and every part of it
/// keeps the sizes balanced.
proof fn rest_is_balanced(s: nat, l: nat, small: nat, large: nat, upto: int)
    requires
        s <= small,
        l <= large,
        balanced(s, l, small, large),
        0 <= upto <= rest(s, l, small, large).len(),
    ensures
        rest(s, l, small, large).len() == small - s + large - l,
        count(rest(s, l, small, large), Size::Small) == small - s,
        count(rest(s, l, small, large), Size::Large) == large - l,
        ({
            let part = rest(s, l, small, large).take(upto);
            balanced(
                s + count(part, Size::Small),
                l + count(part, Size::Large),
                small,
                large,
            )
        }),
    decreases small + large - s - l,
{
    let r = rest(s, l, small, large);
    let part = r.take(upto);
    if s == small && l == large {
        assert(part =~= Seq::empty());
    } else {
        step_keeps_balance(s, l, small, large);
        let is_small = next_is_small(s, l, small, large);
        let first = if is_small {
            Size::Small
        } else {
            Size::Large
        };
        let s2 = if is_small {
            s + 1
        } else {
            s
        };
        let l2 = if is_small {
            l
        } else {
            l + 1
        };
        let tail = rest(s2, l2, small, large);
        assert(r == seq![first] + tail);
        let upto2 = if upto == 0 {
            0
        } else {
            upto - 1
        };
        rest_is_balanced(s2, l2, small, large, upto2);
        count_first(first, tail, Size::Small);
        count_first(first, tail, Size::Large);
        if upto == 0 {
            assert(part =~= Seq::empty());
        } else {
            assert(part =~= seq![first] + tail.take(upto2));
            count_first(first, tail.take(upto2), Size::Small);
            count_first(first, tail.take(upto2), Size::Large);
        }
    }
}

/// A workload has as many products of each size as were asked for, and in every part
/// of it from the start neither size is ahead of its share by more than one product.
pub proof fn workload_is_evenly_mixed(small: nat, large: nat, upto: int)
    requires
        0 <= upto <= rest(0, 0, small, large).len(),
    ensures
        rest(0, 0, small, large).len() == small + large,
        count(rest(0, 0, small, large), Size::Small) == small,
        count(rest(0, 0, small, large), Size::Large) == large,
        ({
            let part = rest(0, 0, small, large).take(upto);
            balanced(count(part, Size::Small), count(part, Size::Large), small, large)
        }),
{
    assert(balanced(0, 0, small, large)) by {
        lemma_mul_basics(small as int);
        lemma_mul_basics(large as int);
    }
    rest_is_balanced(0, 0, small, large, upto);
}

/// The rest of a workload is what is left behind a first part of it.
proof fn rest_goes_on(s: nat, l: nat, small: nat, large: nat, i: int)
    requires
        s <= small,
        l <= large,
        balanced(s, l, small, large),
        0 <= i <= rest(s, l, small, large).len(),
    ensures
        ({
            let part = rest(s, l, small, large).take(i);
            let s2 = s + count(part, Size::Small);
            let l2 = l + count(part, Size::Large);
            &&& s2 <= small
            &&& l2 <= large
            &&& rest(s, l, small, large).skip(i) == rest(s2, l2, small, large)
        }),
    decreases small + large - s - l,
{
    let all = rest(s, l, small, large);
    if i == 0 {
        assert(all.take(0) =~= Seq::empty());
        assert(all.skip(0) =~= all);
    } else {
        step_keeps_balance(s, l, small, large);
        let first = all[0];
        let (s1, l1) = if next_is_small(s, l, small, large) {
            (s + 1, l)
        } else {
            (s, l + 1)
        };
        let tail = rest(s1, l1, small, large);
        assert(all =~= seq![first] + tail);
        rest_goes_on(s1, l1, small, large, i - 1);
        assert(all.take(i) =~= seq![first] + tail.take(i - 1));
        count_first(first, tail.take(i - 1), Size::Small);
        count_first(first, tail.take(i - 1), Size::Large);
        assert(all.skip(i) =~= tail.skip(i - 1));
    }
}

/// The next product of a workload is a small one exactly where small ones are left and are not
/// ahead of their share, or no large ones are left. So the first is a small one, if any is.
pub proof fn small_products_go_first(small: nat, large: nat, i: int)
    requires
        0 <= i < rest(0, 0, small, large).len(),
    ensures
        ({
            let all = rest(0, 0, small, large);
            let s = count(all.take(i), Size::Small);
            let l = count(all.take(i), Size::Large);
            &&& all[i] == Size::Small <==> s < small && (s * large <= l * small || l == large)
            &&& small > 0 ==> all[0] == Size::Small
        }),
{
    let all = rest(0, 0, small, large);
    assert(balanced(0, 0, small, large)) by (nonlinear_arith);
    rest_goes_on(0, 0, small, large, i);
    let s = count(all.take(i), Size::Small);
    let l = count(all.take(i), Size::Large);
    assert(all.skip(i)[0] == all[i]);
    assert(all.skip(i).len() > 0);
    assert(0nat * large == 0 && 0nat * small == 0) by (nonlinear_arith);
    if l >= large {
        assert(s < small);
    }
}
/// A product is cut into square tiles of 128 by 128, and its inner extent into halves of that.
pub proof fn products_have_square_tiles()
    ensures
        BM == 128,
        BN == BM,
        2 * BK == BM,
{
}

} // verus!
