//! How the output tiles of a matrix product are handed to programs.
//!
//! The tiles of a product form a grid, and are numbered. A number is turned into a
//! place on the grid either row by row or in groups of rows, which keeps tiles that
//! share operands close together. A persistent program takes its own number and then
//! every number a fixed stride further.

use vstd::arithmetic::div_mod::*;
use vstd::arithmetic::mul::*;
use vstd::prelude::*;

verus! {

/// The number of tiles of extent `b` that cover an extent `a`.
pub open spec fn ceil_div(a: int, b: int) -> int {
    (a + b - 1) / b
}

/// The number of tiles of extent `b` that cover an extent `a`.
pub fn ceil_div_i32(a: i32, b: i32) -> (r: i32)
    requires
        0 <= a,
        0 < b,
        a + b <= i32::MAX,
    ensures
        r == ceil_div(a as int, b as int),
        0 <= r,
{
    proof {
        lemma_div_pos_is_pos(a + b - 1, b as int);
    }
    (a + b - 1) / b
}

/// The covering tiles reach past the extent, and one tile fewer would not.
pub proof fn ceil_div_covers(a: int, b: int)
    requires
        0 <= a,
        0 < b,
    ensures
        a <= ceil_div(a, b) * b < a + b,
{
    lemma_fundamental_div_mod(a + b - 1, b);
    lemma_mod_bound(a + b - 1, b);
    lemma_mul_is_commutative(b, ceil_div(a, b));
}

/// A number written as a quotient and a remainder gives them back.
pub proof fn quotient_and_remainder(q: int, r: int, d: int)
    requires
        0 <= r < d,
    ensures
        (q * d + r) / d == q,
        (q * d + r) % d == r,
{
    lemma_fundamental_div_mod_converse(q * d + r, d, q, r);
}

/// The place of a tile, row by row.
pub open spec fn linear(tile: int, n: int) -> (int, int) {
    (tile / n, tile % n)
}

/// The number of rows of the group that holds a tile: all of `g`, or what is left at
/// the end of the grid.
pub open spec fn group_rows(group: int, m: int, g: int) -> int {
    if m - group * g < g {
        m - group * g
    } else {
        g
    }
}

/// The place of a tile, in groups of `g` rows. Inside a group the tiles run down the
/// rows first.
pub open spec fn swizzled(tile: int, m: int, n: int, g: int) -> (int, int) {
    let group = tile / (g * n);
    let rows = group_rows(group, m, g);
    (group * g + tile % rows, (tile % (g * n)) / rows)
}

/// The tile at a place, in groups of `g` rows.
pub open spec fn unswizzled(bid_m: int, bid_n: int, m: int, n: int, g: int) -> int {
    let group = bid_m / g;
    let rows = group_rows(group, m, g);
    let base = group * (g * n) + bid_n * rows;
    base + (bid_m - group * g - base) % rows
}

/// What the parts of a grouped place are: the group starts inside the grid, it has
/// rows, and the tile stands before the group's last one.
proof fn group_of_tile(tile: int, m: int, n: int, g: int)
    requires
        0 < m,
        0 < n,
        0 < g,
        0 <= tile < m * n,
    ensures
        ({
            let group = tile / (g * n);
            let rows = group_rows(group, m, g);
            &&& 0 < g * n
            &&& 0 <= group
            &&& 0 <= group * g < m
            &&& 0 < rows <= g
            &&& group * g + rows <= m
            &&& 0 <= tile % (g * n) < rows * n
            &&& tile == group * (g * n) + tile % (g * n)
        }),
{
    let in_group = g * n;
    assert(0 < in_group) by (nonlinear_arith)
        requires
            0 < g,
            0 < n,
            in_group == g * n,
    ;
    let group = tile / in_group;
    let rest = tile % in_group;
    lemma_fundamental_div_mod(tile, in_group);
    lemma_mod_bound(tile, in_group);
    lemma_div_pos_is_pos(tile, in_group);
    lemma_mul_is_commutative(in_group, group);
    assert(0 <= group * g < m) by (nonlinear_arith)
        requires
            0 <= group,
            0 < g,
            0 < n,
            in_group == g * n,
            group * in_group <= tile,
            tile < m * n,
    ;
    let rows = group_rows(group, m, g);
    assert(rest < rows * n) by (nonlinear_arith)
        requires
            rest < in_group,
            in_group == g * n,
            0 < n,
            tile == group * in_group + rest,
            tile < m * n,
            rows == g || rows == m - group * g,
    ;
}

/// Every tile has a place on the grid, row by row and in groups.
pub proof fn places_are_on_the_grid(tile: int, m: int, n: int, g: int)
    requires
        0 < m,
        0 < n,
        0 < g,
        0 <= tile < m * n,
    ensures
        0 <= linear(tile, n).0 < m,
        0 <= linear(tile, n).1 < n,
        0 <= swizzled(tile, m, n, g).0 < m,
        0 <= swizzled(tile, m, n, g).1 < n,
{
    lemma_fundamental_div_mod(tile, n);
    lemma_mod_bound(tile, n);
    lemma_div_pos_is_pos(tile, n);
    assert(tile / n < m) by (nonlinear_arith)
        requires
            tile == n * (tile / n) + tile % n,
            0 <= tile % n,
            tile < m * n,
            0 < n,
    ;
    group_of_tile(tile, m, n, g);
    let group = tile / (g * n);
    let rows = group_rows(group, m, g);
    lemma_mod_bound(tile, rows);
    let rest = tile % (g * n);
    lemma_fundamental_div_mod(rest, rows);
    lemma_mod_bound(rest, rows);
    lemma_div_pos_is_pos(rest, rows);
    assert(rest / rows < n) by (nonlinear_arith)
        requires
            rest == rows * (rest / rows) + rest % rows,
            0 <= rest % rows,
            rest < rows * n,
            0 < rows,
    ;
}

/// Row by row, every place of the grid is the place of exactly one tile.
pub proof fn linear_is_one_to_one(bid_m: int, bid_n: int, m: int, n: int, tile: int)
    requires
        0 <= bid_m < m,
        0 <= bid_n < n,
    ensures
        0 <= bid_m * n + bid_n < m * n,
        linear(bid_m * n + bid_n, n) == (bid_m, bid_n),
        linear(tile, n) == (bid_m, bid_n) ==> tile == bid_m * n + bid_n,
{
    quotient_and_remainder(bid_m, bid_n, n);
    assert(0 <= bid_m * n + bid_n < m * n) by (nonlinear_arith)
        requires
            0 <= bid_m < m,
            0 <= bid_n < n,
    ;
    lemma_fundamental_div_mod(tile, n);
    lemma_mul_is_commutative(n, tile / n);
}

/// In groups, every place of the grid is the place of a tile.
pub proof fn swizzled_reaches_every_place(bid_m: int, bid_n: int, m: int, n: int, g: int)
    requires
        0 < g,
        0 <= bid_m < m,
        0 <= bid_n < n,
    ensures
        0 <= unswizzled(bid_m, bid_n, m, n, g) < m * n,
        swizzled(unswizzled(bid_m, bid_n, m, n, g), m, n, g) == (bid_m, bid_n),
{
    let group = bid_m / g;
    lemma_fundamental_div_mod(bid_m, g);
    lemma_mod_bound(bid_m, g);
    lemma_div_pos_is_pos(bid_m, g);
    lemma_mul_is_commutative(g, group);
    let first = group * g;
    let rows = group_rows(group, m, g);
    let in_group = g * n;
    let base = group * in_group + bid_n * rows;
    let row = bid_m - first;
    let shift = (row - base) % rows;
    let tile = base + shift;
    lemma_mod_bound(row - base, rows);
    let rest = bid_n * rows + shift;
    assert(0 <= rest < in_group) by (nonlinear_arith)
        requires
            0 <= bid_n < n,
            0 < rows <= g,
            0 <= shift < rows,
            in_group == g * n,
            rest == bid_n * rows + shift,
    ;
    quotient_and_remainder(group, rest, in_group);
    assert(tile == group * in_group + rest);
    quotient_and_remainder(bid_n, shift, rows);
    assert(tile % rows == row) by {
        lemma_fundamental_div_mod(row - base, rows);
        let q = (row - base) / rows;
        assert(tile == (-q) * rows + row) by (nonlinear_arith)
            requires
                row - base == rows * q + shift,
                tile == base + shift,
        ;
        quotient_and_remainder(-q, row, rows);
    }
    assert(0 <= tile < m * n) by (nonlinear_arith)
        requires
            0 <= group,
            0 < g,
            0 <= bid_n < n,
            0 < rows,
            0 <= shift < rows,
            group * g + rows <= m,
            in_group == g * n,
            tile == group * in_group + bid_n * rows + shift,
    {
        assert(group * in_group == (group * g) * n) by (nonlinear_arith)
            requires
                in_group == g * n,
        ;
        assert(bid_n * rows + shift < n * rows) by (nonlinear_arith)
            requires
                0 <= bid_n < n,
                0 <= shift < rows,
        ;
        assert((group * g) * n + n * rows <= m * n) by (nonlinear_arith)
            requires
                group * g + rows <= m,
                0 < n,
        ;
        assert(0 <= group * g) by (nonlinear_arith)
            requires
                0 <= group,
                0 < g,
        ;
    }
}

/// In groups, no two tiles share a place.
pub proof fn swizzled_is_one_to_one(t1: int, t2: int, m: int, n: int, g: int)
    requires
        0 < m,
        0 < n,
        0 < g,
        0 <= t1 < m * n,
        0 <= t2 < m * n,
        swizzled(t1, m, n, g) == swizzled(t2, m, n, g),
    ensures
        t1 == t2,
{
    group_of_tile(t1, m, n, g);
    group_of_tile(t2, m, n, g);
    let in_group = g * n;
    let group1 = t1 / in_group;
    let group2 = t2 / in_group;
    let rows1 = group_rows(group1, m, g);
    let rows2 = group_rows(group2, m, g);
    lemma_mod_bound(t1, rows1);
    lemma_mod_bound(t2, rows2);
    quotient_and_remainder(group1, t1 % rows1, g);
    quotient_and_remainder(group2, t2 % rows2, g);
    assert(group1 == group2);
    let rows = rows1;
    let rest1 = t1 % in_group;
    let rest2 = t2 % in_group;
    lemma_fundamental_div_mod(rest1, rows);
    lemma_fundamental_div_mod(rest2, rows);
    lemma_mod_bound(rest1, rows);
    lemma_mod_bound(rest2, rows);
    lemma_fundamental_div_mod(t1, rows);
    lemma_fundamental_div_mod(t2, rows);
    let d = t1 / rows - t2 / rows;
    assert(t1 - t2 == rows * d) by (nonlinear_arith)
        requires
            t1 == rows * (t1 / rows) + t1 % rows,
            t2 == rows * (t2 / rows) + t2 % rows,
            t1 % rows == t2 % rows,
            d == t1 / rows - t2 / rows,
    ;
    assert(-rows < t1 - t2 < rows);
    assert(d == 0) by (nonlinear_arith)
        requires
            0 < rows,
            -rows < rows * d < rows,
    ;
}

/// The place of a tile, row by row.
pub fn linear_bid(tile_id: i32, num_bid_n: i32) -> (bid: (i32, i32))
    requires
        0 <= tile_id,
        0 < num_bid_n,
    ensures
        (bid.0 as int, bid.1 as int) == linear(tile_id as int, num_bid_n as int),
{
    (tile_id / num_bid_n, tile_id % num_bid_n)
}

/// The place of a tile, in groups of rows.
pub fn swizzled_bid(tile_id: i32, num_bid_m: i32, num_bid_n: i32, group_size_m: i32) -> (bid: (
    i32,
    i32,
))
    requires
        0 < num_bid_m,
        0 < num_bid_n,
        0 < group_size_m,
        0 <= tile_id < num_bid_m * num_bid_n,
        group_size_m * num_bid_n <= i32::MAX,
    ensures
        (bid.0 as int, bid.1 as int) == swizzled(
            tile_id as int,
            num_bid_m as int,
            num_bid_n as int,
            group_size_m as int,
        ),
{
    proof {
        group_of_tile(
            tile_id as int,
            num_bid_m as int,
            num_bid_n as int,
            group_size_m as int,
        );
        places_are_on_the_grid(
            tile_id as int,
            num_bid_m as int,
            num_bid_n as int,
            group_size_m as int,
        );
    }
    let num_bid_in_group: i32 = group_size_m * num_bid_n;
    let group_id: i32 = tile_id / num_bid_in_group;
    let first_bid_m: i32 = group_id * group_size_m;
    let remaining_m: i32 = num_bid_m - first_bid_m;
    let actual_group_size_m: i32 = if remaining_m < group_size_m {
        remaining_m
    } else {
        group_size_m
    };
    let bid_m: i32 = first_bid_m + (tile_id % actual_group_size_m);
    let bid_n: i32 = (tile_id % num_bid_in_group) / actual_group_size_m;
    (bid_m, bid_n)
}

/// The numbers of the tiles that a program takes: its own number, and then every
/// number `programs` further, below `total`.
pub open spec fn program_tiles(program: int, programs: int, total: int) -> Seq<int> {
    Seq::new(
        (if program < total {
            ceil_div(total - program, programs)
        } else {
            0
        }) as nat,
        |j: int| program + j * programs,
    )
}

/// The numbers that a program takes are below the total, and the next one is not.
pub proof fn program_tiles_end(program: int, programs: int, total: int, j: int)
    requires
        0 <= program,
        0 < programs,
        0 <= j,
    ensures
        j < program_tiles(program, programs, total).len() <==> program + j * programs < total,
{
    lemma_mul_nonnegative(j, programs);
    if program < total {
        let count = ceil_div(total - program, programs);
        ceil_div_covers(total - program, programs);
        lemma_div_pos_is_pos(total - program + programs - 1, programs);
        assert(j < count <==> program + j * programs < total) by (nonlinear_arith)
            requires
                0 < programs,
                total - program <= count * programs,
                count * programs < total - program + programs,
        ;
    }
}

/// Every tile is taken by exactly one program, and by that one exactly once.
pub proof fn every_tile_has_one_program(tile: int, programs: int, total: int, q: int, j: int)
    requires
        0 < programs,
        0 <= tile < total,
    ensures
        0 <= tile % programs < programs,
        0 <= tile / programs < program_tiles(tile % programs, programs, total).len(),
        program_tiles(tile % programs, programs, total)[tile / programs] == tile,
        0 <= q < programs && 0 <= j < program_tiles(q, programs, total).len()
            && program_tiles(q, programs, total)[j] == tile ==> q == tile % programs && j == tile
            / programs,
{
    lemma_fundamental_div_mod(tile, programs);
    lemma_mod_bound(tile, programs);
    lemma_div_pos_is_pos(tile, programs);
    lemma_mul_is_commutative(programs, tile / programs);
    program_tiles_end(tile % programs, programs, total, tile / programs);
    if 0 <= q < programs && 0 <= j < program_tiles(q, programs, total).len() && program_tiles(
        q,
        programs,
        total,
    )[j] == tile {
        quotient_and_remainder(j, q, programs);
    }
}

/// The place of a tile, in groups of `g` rows or row by row.
pub open spec fn place(swizzle: bool, tile: int, m: int, n: int, g: int) -> (int, int) {
    if swizzle {
        swizzled(tile, m, n, g)
    } else {
        linear(tile, n)
    }
}

/// The tile at a place, in groups of `g` rows or row by row.
pub open spec fn tile_at(swizzle: bool, bid_m: int, bid_n: int, m: int, n: int, g: int) -> int {
    if swizzle {
        unswizzled(bid_m, bid_n, m, n, g)
    } else {
        bid_m * n + bid_n
    }
}

/// However the places are ordered, every output tile is computed by exactly one of
/// the programs, exactly once.
pub proof fn every_place_is_computed_once(
    swizzle: bool,
    bid_m: int,
    bid_n: int,
    m: int,
    n: int,
    g: int,
    programs: int,
    q: int,
    j: int,
)
    requires
        0 < g,
        0 <= bid_m < m,
        0 <= bid_n < n,
        0 < programs,
    ensures
        ({
            let tile = tile_at(swizzle, bid_m, bid_n, m, n, g);
            let mine = program_tiles(tile % programs, programs, m * n);
            &&& 0 <= tile / programs < mine.len()
            &&& place(swizzle, mine[tile / programs], m, n, g) == (bid_m, bid_n)
            &&& 0 <= q < programs && 0 <= j < program_tiles(q, programs, m * n).len() && place(
                swizzle,
                program_tiles(q, programs, m * n)[j],
                m,
                n,
                g,
            ) == (bid_m, bid_n) ==> q == tile % programs && j == tile / programs
        }),
{
    let tile = tile_at(swizzle, bid_m, bid_n, m, n, g);
    let theirs = program_tiles(q, programs, m * n);
    let other = q + j * programs;
    linear_is_one_to_one(bid_m, bid_n, m, n, other);
    swizzled_reaches_every_place(bid_m, bid_n, m, n, g);
    every_tile_has_one_program(tile, programs, m * n, q, j);
    if 0 <= q < programs && 0 <= j < theirs.len() && place(swizzle, theirs[j], m, n, g) == (
        bid_m,
        bid_n,
    ) {
        program_tiles_end(q, programs, m * n, j);
        lemma_mul_nonnegative(j, programs);
        if swizzle {
            swizzled_is_one_to_one(tile, other, m, n, g);
        }
    }
}

/// The places, in order, that one of `programs` persistent programs computes of a
/// product of `m` by `n` elements in tiles of `bm` by `bn`.
pub fn persistent_places(
    program: i32,
    programs: i32,
    m: i32,
    n: i32,
    bm: i32,
    bn: i32,
    swizzle: bool,
    group_size_m: i32,
) -> (places: Vec<(i32, i32)>)
    requires
        0 <= program,
        0 < programs,
        0 < m,
        0 < n,
        0 < bm,
        0 < bn,
        0 < group_size_m,
        m + bm <= i32::MAX,
        n + bn <= i32::MAX,
        ceil_div(m as int, bm as int) * ceil_div(n as int, bn as int) <= i32::MAX,
        swizzle ==> group_size_m * ceil_div(n as int, bn as int) <= i32::MAX,
    ensures
        ({
            let rows = ceil_div(m as int, bm as int);
            let cols = ceil_div(n as int, bn as int);
            let tiles = program_tiles(program as int, programs as int, rows * cols);
            &&& places@.len() == tiles.len()
            &&& forall|j: int|
                0 <= j < tiles.len() ==> ((#[trigger] places@[j]).0 as int, places@[j].1 as int)
                    == place(swizzle, tiles[j], rows, cols, group_size_m as int)
        }),
{
    let num_bid_m: i32 = ceil_div_i32(m, bm);
    let num_bid_n: i32 = ceil_div_i32(n, bn);
    proof {
        ceil_div_covers(m as int, bm as int);
        ceil_div_covers(n as int, bn as int);
        assert(0 < num_bid_m) by (nonlinear_arith)
            requires
                0 < m <= num_bid_m * bm,
                0 < bm,
        ;
        assert(0 < num_bid_n) by (nonlinear_arith)
            requires
                0 < n <= num_bid_n * bn,
                0 < bn,
        ;
        lemma_mul_nonnegative(num_bid_m as int, num_bid_n as int);
    }
    let total_tiles: i32 = num_bid_m * num_bid_n;
    let mut places: Vec<(i32, i32)> = Vec::new();
    if program >= total_tiles {
        return places;
    }
    let mut tile_id: i32 = program;
    assert(places@.len() * programs == 0) by (nonlinear_arith)
        requires
            places@.len() == 0,
    ;
    loop
        invariant_except_break
            0 <= program,
            0 < programs,
            0 < num_bid_m,
            0 < num_bid_n,
            0 < group_size_m,
            total_tiles == num_bid_m * num_bid_n,
            swizzle ==> group_size_m * num_bid_n <= i32::MAX,
            0 <= tile_id < total_tiles,
            tile_id == program + places@.len() * programs,
            forall|j: int|
                0 <= j < places@.len() ==> ((#[trigger] places@[j]).0 as int, places@[j].1 as int)
                    == place(
                    swizzle,
                    program + j * programs,
                    num_bid_m as int,
                    num_bid_n as int,
                    group_size_m as int,
                ),
        ensures
            places@.len() == program_tiles(program as int, programs as int, total_tiles as int).len(),
            forall|j: int|
                0 <= j < places@.len() ==> ((#[trigger] places@[j]).0 as int, places@[j].1 as int)
                    == place(
                    swizzle,
                    program + j * programs,
                    num_bid_m as int,
                    num_bid_n as int,
                    group_size_m as int,
                ),
        decreases total_tiles - tile_id,
    {
        let bid: (i32, i32) = if swizzle {
            swizzled_bid(tile_id, num_bid_m, num_bid_n, group_size_m)
        } else {
            linear_bid(tile_id, num_bid_n)
        };
        let ghost taken = places@.len() as int;
        places.push(bid);
        proof {
            lemma_mul_is_distributive_add_other_way(programs as int, taken, 1);
            program_tiles_end(program as int, programs as int, total_tiles as int, taken);
            program_tiles_end(program as int, programs as int, total_tiles as int, taken + 1);
        }
        if total_tiles - tile_id <= programs {
            break;
        }
        tile_id = tile_id + programs;
    }
    places
}

/// One product of a group: its output has `m` by `n` elements.
#[derive(Clone, Copy, Debug, PartialEq, Eq, Structural)]
pub struct GroupProblem {
    pub m: i32,
    pub n: i32,
}

/// An output tile of one product of a group.
#[derive(Clone, Copy, Debug, PartialEq, Eq, Structural)]
pub struct GroupTile {
    pub group: i32,
    pub tile_m: i32,
    pub tile_n: i32,
}

impl GroupProblem {
    /// The number of rows of tiles.
    pub open spec fn rows(self, bm: int) -> int {
        ceil_div(self.m as int, bm)
    }

    /// The number of columns of tiles.
    pub open spec fn cols(self, bn: int) -> int {
        ceil_div(self.n as int, bn)
    }

    /// The number of tiles.
    pub open spec fn tiles(self, bm: int, bn: int) -> int {
        self.rows(bm) * self.cols(bn)
    }
}

/// The number of tiles of the first `count` products of a group.
pub open spec fn tiles_before(problems: Seq<GroupProblem>, count: int, bm: int, bn: int) -> int
    decreases count,
{
    if count <= 0 {
        0
    } else {
        tiles_before(problems, count - 1, bm, bn) + problems[count - 1].tiles(bm, bn)
    }
}

/// The tile with a number: the products of a group are numbered one after the other,
/// and each of them row by row.
pub open spec fn numbered(
    problems: Seq<GroupProblem>,
    bm: int,
    bn: int,
    number: int,
    tile: GroupTile,
) -> bool {
    let start = tiles_before(problems, tile.group as int, bm, bn);
    let cols = problems[tile.group as int].cols(bn);
    &&& 0 <= tile.group < problems.len()
    &&& start <= number < start + problems[tile.group as int].tiles(bm, bn)
    &&& (tile.tile_m as int, tile.tile_n as int) == linear(number - start, cols)
}

/// The sizes of a group are sizes, and the tile numbers stay in range.
pub open spec fn group_fits(problems: Seq<GroupProblem>, bm: int, bn: int, programs: int) -> bool {
    &&& problems.len() <= i32::MAX
    &&& forall|i: int|
        0 <= i < problems.len() ==> 0 <= (#[trigger] problems[i]).m && problems[i].m + bm
            <= i32::MAX && 0 <= problems[i].n && problems[i].n + bn <= i32::MAX
    &&& tiles_before(problems, problems.len() as int, bm, bn) + programs <= i32::MAX
}

/// Every product of a group has at least no tiles, so the counts grow.
proof fn tiles_before_grows(problems: Seq<GroupProblem>, bm: int, bn: int, a: int, b: int)
    requires
        0 < bm,
        0 < bn,
        0 <= a <= b <= problems.len(),
        forall|i: int|
            0 <= i < problems.len() ==> 0 <= (#[trigger] problems[i]).m && 0 <= problems[i].n,
    ensures
        0 <= tiles_before(problems, a, bm, bn) <= tiles_before(problems, b, bm, bn),
    decreases b,
{
    if b > 0 {
        let last = problems[b - 1];
        lemma_div_pos_is_pos(last.m + bm - 1, bm);
        lemma_div_pos_is_pos(last.n + bn - 1, bn);
        lemma_mul_nonnegative(last.rows(bm), last.cols(bn));
        if a < b {
            tiles_before_grows(problems, bm, bn, a, b - 1);
        } else {
            tiles_before_grows(problems, bm, bn, b - 1, b - 1);
        }
    }
}

/// Every number below the total is that of exactly one tile, and every tile of every
/// product has a number.
pub proof fn numbers_are_one_to_one(
    problems: Seq<GroupProblem>,
    bm: int,
    bn: int,
    n1: int,
    n2: int,
    t1: GroupTile,
    t2: GroupTile,
)
    requires
        0 < bm,
        0 < bn,
        forall|i: int|
            0 <= i < problems.len() ==> 0 <= (#[trigger] problems[i]).m && 0 <= problems[i].n,
        numbered(problems, bm, bn, n1, t1),
        numbered(problems, bm, bn, n2, t2),
    ensures
        n1 == n2 <==> t1 == t2,
        0 <= n1 < tiles_before(problems, problems.len() as int, bm, bn),
{
    let g1 = t1.group as int;
    let g2 = t2.group as int;
    tiles_before_grows(problems, bm, bn, g1 + 1, problems.len() as int);
    tiles_before_grows(problems, bm, bn, 0, g1);
    if g1 < g2 {
        tiles_before_grows(problems, bm, bn, g1 + 1, g2);
    } else if g2 < g1 {
        tiles_before_grows(problems, bm, bn, g2 + 1, g1);
    } else {
        let start = tiles_before(problems, g1, bm, bn);
        let cols = problems[g1].cols(bn);
        lemma_div_pos_is_pos(problems[g1].n + bn - 1, bn);
        assert(0 < cols) by (nonlinear_arith)
            requires
                0 <= cols,
                0 <= n1 - start < problems[g1].rows(bm) * cols,
        ;
        lemma_fundamental_div_mod(n1 - start, cols);
        lemma_fundamental_div_mod(n2 - start, cols);
    }
}

/// Every tile of every product has a number.
pub proof fn every_group_tile_is_numbered(
    problems: Seq<GroupProblem>,
    bm: int,
    bn: int,
    tile: GroupTile,
)
    requires
        0 < bm,
        0 < bn,
        forall|i: int|
            0 <= i < problems.len() ==> 0 <= (#[trigger] problems[i]).m && 0 <= problems[i].n,
        0 <= tile.group < problems.len(),
        0 <= tile.tile_m < problems[tile.group as int].rows(bm),
        0 <= tile.tile_n < problems[tile.group as int].cols(bn),
    ensures
        numbered(
            problems,
            bm,
            bn,
            tiles_before(problems, tile.group as int, bm, bn) + tile.tile_m
                * problems[tile.group as int].cols(bn) + tile.tile_n,
            tile,
        ),
{
    let problem = problems[tile.group as int];
    linear_is_one_to_one(
        tile.tile_m as int,
        tile.tile_n as int,
        problem.rows(bm),
        problem.cols(bn),
        0,
    );
}

/// The output tiles, in order, that one of `programs` persistent programs computes of
/// a group of products.
pub fn group_tiles(
    program: i32,
    programs: i32,
    problems: &Vec<GroupProblem>,
    bm: i32,
    bn: i32,
) -> (tiles: Vec<GroupTile>)
    requires
        0 <= program,
        0 < programs,
        0 < bm,
        0 < bn,
        group_fits(problems@, bm as int, bn as int, programs as int),
    ensures
        ({
            let total = tiles_before(problems@, problems@.len() as int, bm as int, bn as int);
            let numbers = program_tiles(program as int, programs as int, total);
            &&& tiles@.len() == numbers.len()
            &&& forall|j: int|
                0 <= j < numbers.len() ==> numbered(
                    problems@,
                    bm as int,
                    bn as int,
                    numbers[j],
                    #[trigger] tiles@[j],
                )
        }),
{
    let mut tiles: Vec<GroupTile> = Vec::new();
    let mut tile_idx: i32 = program;
    let mut last_problem_end: i32 = 0;
    let mut group_id: usize = 0;
    let ghost total = tiles_before(problems@, problems@.len() as int, bm as int, bn as int);
    proof {
        tiles_before_grows(problems@, bm as int, bn as int, 0, problems@.len() as int);
    }
    while group_id < problems.len()
        invariant
            0 <= program,
            0 < programs,
            0 < bm,
            0 < bn,
            group_fits(problems@, bm as int, bn as int, programs as int),
            total == tiles_before(problems@, problems@.len() as int, bm as int, bn as int),
            group_id <= problems@.len(),
            last_problem_end == tiles_before(problems@, group_id as int, bm as int, bn as int),
            last_problem_end <= tile_idx,
            tile_idx == program + tiles@.len() * programs,
            forall|j: int|
                0 <= j < tiles@.len() ==> numbered(
                    problems@,
                    bm as int,
                    bn as int,
                    program + j * programs,
                    #[trigger] tiles@[j],
                ),
            tiles@.len() == 0 || tile_idx - programs < last_problem_end,
        decreases problems@.len() - group_id,
    {
        let problem: GroupProblem = problems[group_id];
        let num_m_tiles: i32 = ceil_div_i32(problem.m, bm);
        let num_n_tiles: i32 = ceil_div_i32(problem.n, bn);
        proof {
            tiles_before_grows(
                problems@,
                bm as int,
                bn as int,
                group_id as int + 1,
                problems@.len() as int,
            );
            tiles_before_grows(problems@, bm as int, bn as int, group_id as int, group_id as int);
            lemma_mul_nonnegative(num_m_tiles as int, num_n_tiles as int);
        }
        let num_tiles: i32 = num_m_tiles * num_n_tiles;
        while tile_idx >= last_problem_end && tile_idx < last_problem_end + num_tiles
            invariant
                0 <= program,
                0 < programs,
                group_id < problems@.len() <= i32::MAX,
                0 <= num_m_tiles,
                0 <= num_n_tiles,
                num_tiles == num_m_tiles * num_n_tiles,
                num_m_tiles == problems@[group_id as int].rows(bm as int),
                num_n_tiles == problems@[group_id as int].cols(bn as int),
                last_problem_end == tiles_before(problems@, group_id as int, bm as int, bn as int),
                0 <= last_problem_end,
                last_problem_end + num_tiles + programs <= i32::MAX,
                last_problem_end <= tile_idx,
                tile_idx == program + tiles@.len() * programs,
                forall|j: int|
                    0 <= j < tiles@.len() ==> numbered(
                        problems@,
                        bm as int,
                        bn as int,
                        program + j * programs,
                        #[trigger] tiles@[j],
                    ),
                tiles@.len() == 0 || tile_idx - programs < last_problem_end + num_tiles,
            decreases i32::MAX - tile_idx,
        {
            let tile_idx_in_group: i32 = tile_idx - last_problem_end;
            proof {
                assert(0 < num_n_tiles) by (nonlinear_arith)
                    requires
                        0 <= num_n_tiles,
                        0 <= tile_idx_in_group < num_m_tiles * num_n_tiles,
                ;
                lemma_fundamental_div_mod(tile_idx_in_group as int, num_n_tiles as int);
                lemma_mod_bound(tile_idx_in_group as int, num_n_tiles as int);
                lemma_mul_is_commutative(
                    num_n_tiles as int,
                    tile_idx_in_group as int / num_n_tiles as int,
                );
                lemma_mul_is_distributive_add_other_way(programs as int, tiles@.len() as int, 1);
            }
            let tile_m: i32 = tile_idx_in_group / num_n_tiles;
            let tile_n: i32 = tile_idx_in_group - tile_m * num_n_tiles;
            let tile = GroupTile { group: group_id as i32, tile_m, tile_n };
            assert(numbered(problems@, bm as int, bn as int, tile_idx as int, tile));
            tiles.push(tile);
            tile_idx = tile_idx + programs;
        }
        last_problem_end = last_problem_end + num_tiles;
        group_id = group_id + 1;
    }
    proof {
        let count = tiles@.len() as int;
        program_tiles_end(program as int, programs as int, total, count);
        if count > 0 {
            program_tiles_end(program as int, programs as int, total, count - 1);
            lemma_mul_is_distributive_sub_other_way(programs as int, count, 1);
        }
    }
    tiles
}

/// Every output tile of every product of a group is computed by exactly one of the
/// programs, exactly once: its number is among the numbers of exactly one program,
/// at exactly one place.
pub proof fn every_group_tile_is_computed_once(
    problems: Seq<GroupProblem>,
    bm: int,
    bn: int,
    programs: int,
    tile: GroupTile,
    number: int,
    q: int,
    j: int,
    other: GroupTile,
)
    requires
        0 < bm,
        0 < bn,
        0 < programs,
        forall|i: int|
            0 <= i < problems.len() ==> 0 <= (#[trigger] problems[i]).m && 0 <= problems[i].n,
        numbered(problems, bm, bn, number, tile),
    ensures
        ({
            let total = tiles_before(problems, problems.len() as int, bm, bn);
            let mine = program_tiles(number % programs, programs, total);
            &&& 0 <= number / programs < mine.len()
            &&& mine[number / programs] == number
            &&& 0 <= q < programs && 0 <= j < program_tiles(q, programs, total).len() && numbered(
                problems,
                bm,
                bn,
                program_tiles(q, programs, total)[j],
                other,
            ) && other == tile ==> q == number % programs && j == number / programs
        }),
{
    let total = tiles_before(problems, problems.len() as int, bm, bn);
    numbers_are_one_to_one(problems, bm, bn, number, number, tile, tile);
    every_tile_has_one_program(number, programs, total, q, j);
    let theirs = program_tiles(q, programs, total);
    if 0 <= q < programs && 0 <= j < theirs.len() && numbered(problems, bm, bn, theirs[j], other)
        && other == tile {
        numbers_are_one_to_one(problems, bm, bn, number, theirs[j], tile, other);
    }
}

/// The groups of rows follow each other: a group has all its tiles before the next begins.
/// Inside a group the tiles run down the rows of a column, and then down those of the next.
pub proof fn groups_run_down_their_columns(tile: int, m: int, n: int, g: int)
    requires
        0 < m,
        0 < n,
        0 < g,
        0 <= tile < m * n,
    ensures
        ({
            let group = tile / (g * n);
            let rows = group_rows(group, m, g);
            let (row, col) = swizzled(tile, m, n, g);
            &&& group * g <= row < group * g + rows
            &&& tile % (g * n) + rows < rows * n ==> swizzled(tile + rows, m, n, g) == (row, col
                + 1)
            &&& tile % (g * n) + 1 < rows * n ==> swizzled(tile + 1, m, n, g).0 == (if row + 1
                < group * g + rows {
                row + 1
            } else {
                group * g
            })
            &&& tile % (g * n) == 0 ==> col == 0
            &&& tile % (g * n) == 0 && rows == g ==> row == group * g
        }),
{
    group_of_tile(tile, m, n, g);
    let group = tile / (g * n);
    let rows = group_rows(group, m, g);
    let rest = tile % (g * n);
    let w = g * n;
    lemma_fundamental_div_mod(tile, w);
    assert(rows * n <= w) by (nonlinear_arith)
        requires
            rows <= g,
            0 < n,
            w == g * n,
    ;
    if rest + rows < rows * n {
        lemma_fundamental_div_mod_converse(tile + rows, w, group, rest + rows);
        lemma_fundamental_div_mod(tile, rows);
        lemma_mul_is_distributive_add(rows, tile / rows, 1);
        lemma_fundamental_div_mod_converse(tile + rows, rows, tile / rows + 1, tile % rows);
        lemma_fundamental_div_mod(rest, rows);
        lemma_mul_is_distributive_add(rows, rest / rows, 1);
        lemma_fundamental_div_mod_converse(rest + rows, rows, rest / rows + 1, rest % rows);
    }
    if rest + 1 < rows * n {
        lemma_fundamental_div_mod_converse(tile + 1, w, group, rest + 1);
        lemma_fundamental_div_mod(tile, rows);
        if tile % rows + 1 < rows {
            lemma_fundamental_div_mod_converse(tile + 1, rows, tile / rows, tile % rows + 1);
        } else {
            lemma_mul_is_distributive_add(rows, tile / rows, 1);
            lemma_fundamental_div_mod_converse(tile + 1, rows, tile / rows + 1, 0);
        }
    }
    if rest == 0 {
        lemma_fundamental_div_mod_converse(0, rows, 0, 0);
        if rows == g {
            assert(tile == g * (group * n)) by (nonlinear_arith)
                requires
                    tile == (g * n) * group,
            ;
            lemma_fundamental_div_mod_converse(tile, g, group * n, 0);
        }
    }
}

/// The rows of tiles of a product of a group cover its rows, and its columns of tiles its
/// columns; one tile fewer would not.
pub proof fn group_tiles_cover_the_product(p: GroupProblem, bm: int, bn: int)
    requires
        0 < bm,
        0 < bn,
        0 <= p.m,
        0 <= p.n,
    ensures
        p.m <= p.rows(bm) * bm < p.m + bm,
        p.n <= p.cols(bn) * bn < p.n + bn,
        p.tiles(bm, bn) == p.rows(bm) * p.cols(bn),
{
    ceil_div_covers(p.m as int, bm);
    ceil_div_covers(p.n as int, bn);
}

} // verus!
