//! How the kernels that work on rows cut a row into tiles.

use vstd::arithmetic::div_mod::*;
use vstd::arithmetic::mul::*;
use vstd::prelude::*;

use crate::kernels::schedule;
use crate::kernels::schedule::ceil_div_i32;

verus! {

/// The number of tiles that a row of `n` columns is cut into. A kernel that lets the
/// last tile hang over covers the row; one that does not takes whole tiles only.
pub open spec fn tile_count(n: int, block_size: int, overhang: bool) -> int {
    if overhang {
        schedule::ceil_div(n, block_size)
    } else {
        n / block_size
    }
}

/// The number of tiles that a row is cut into.
pub fn row_tiles(n: i32, block_size: i32, overhang: bool) -> (tiles: i32)
    requires
        0 <= n,
        0 < block_size,
        n + block_size <= i32::MAX,
    ensures
        tiles == tile_count(n as int, block_size as int, overhang),
{
    if overhang {
        ceil_div_i32(n, block_size)
    } else {
        n / block_size
    }
}

/// Every column of a row is in exactly one of its tiles, if the last tile may hang
/// over or the tiles divide the row; and only then.
pub proof fn tiles_cover_the_row(n: int, block_size: int, overhang: bool, col: int, tile: int)
    requires
        0 < n,
        0 < block_size,
        0 <= col < n,
    ensures
        overhang || n % block_size == 0 ==> 0 <= col / block_size < tile_count(
            n,
            block_size,
            overhang,
        ),
        tile * block_size <= col < (tile + 1) * block_size <==> tile == col / block_size,
        !overhang && n % block_size != 0 ==> (n - 1) / block_size >= tile_count(
            n,
            block_size,
            overhang,
        ),
{
    let owner = col / block_size;
    lemma_fundamental_div_mod(col, block_size);
    lemma_mod_bound(col, block_size);
    lemma_div_pos_is_pos(col, block_size);
    lemma_mul_is_commutative(block_size, owner);
    lemma_mul_is_distributive_add_other_way(block_size, owner, 1);
    assert((tile * block_size <= col < (tile + 1) * block_size) <==> tile == owner)
        by (nonlinear_arith)
        requires
            owner * block_size <= col < (owner + 1) * block_size,
            0 < block_size,
    ;
    schedule::ceil_div_covers(n, block_size);
    let count = tile_count(n, block_size, overhang);
    lemma_fundamental_div_mod(n, block_size);
    lemma_mod_bound(n, block_size);
    lemma_mul_is_commutative(block_size, n / block_size);
    if overhang || n % block_size == 0 {
        assert(owner < count) by (nonlinear_arith)
            requires
                owner * block_size <= col,
                col < n <= count * block_size,
                0 < block_size,
        ;
    } else {
        let last = (n - 1) / block_size;
        lemma_fundamental_div_mod(n - 1, block_size);
        lemma_mod_bound(n - 1, block_size);
        lemma_mul_is_commutative(block_size, last);
        assert(last >= count) by (nonlinear_arith)
            requires
                count * block_size <= n - 1,
                n - 1 < last * block_size + block_size,
                0 < block_size,
        ;
    }
}

/// A tile is one of a row exactly where it begins inside the row, if the last tile may hang
/// over, and exactly where it ends inside the row, if not.
pub proof fn tiles_are_those_of_the_row(n: int, block_size: int, tile: int)
    requires
        0 <= n,
        0 < block_size,
        0 <= tile,
    ensures
        tile < tile_count(n, block_size, true) <==> tile * block_size < n,
        tile < tile_count(n, block_size, false) <==> (tile + 1) * block_size <= n,
{
    schedule::ceil_div_covers(n, block_size);
    let over = schedule::ceil_div(n, block_size);
    let whole = n / block_size;
    lemma_fundamental_div_mod(n, block_size);
    assert(tile < over <==> tile * block_size < n) by (nonlinear_arith)
        requires
            n <= over * block_size < n + block_size,
            0 < block_size,
    ;
    assert(tile < whole <==> (tile + 1) * block_size <= n) by (nonlinear_arith)
        requires
            n == block_size * whole + n % block_size,
            0 <= n % block_size < block_size,
            0 < block_size,
    ;
}

} // verus!
