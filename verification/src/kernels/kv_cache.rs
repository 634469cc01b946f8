//! Which rows of a sequence go to which rows of the key/value cache.

use vstd::arithmetic::div_mod::*;
use vstd::arithmetic::mul::*;
use vstd::prelude::*;

use crate::kernels::schedule;

verus! {

/// The row of the cache that a row of the sequence goes to, and its place in the tile
/// of the cache that a program holds.
#[derive(Clone, Copy, Debug, PartialEq, Eq, Structural)]
pub struct CacheRow {
    /// The row of the sequence, and of the cache.
    pub global: i32,
    /// The row of the program's tile.
    pub local: i32,
}

/// The number of rows of a tile that the sequence reaches.
pub open spec fn rows_in_tile(tile: int, bm_s: int, seq_len: int) -> int {
    let rest = seq_len - tile * bm_s;
    if rest <= 0 {
        0
    } else if rest < bm_s {
        rest
    } else {
        bm_s
    }
}

/// The rows that a program writes into its tile of the cache: all rows of the tile
/// that the sequence reaches.
pub fn cache_rows(s_tile_idx: i32, bm_s: i32, seq_len: i32) -> (rows: Vec<CacheRow>)
    requires
        0 <= s_tile_idx,
        0 < bm_s,
        (s_tile_idx + 1) * bm_s <= i32::MAX,
    ensures
        rows@.len() == rows_in_tile(s_tile_idx as int, bm_s as int, seq_len as int),
        forall|i: int|
            0 <= i < rows@.len() ==> (#[trigger] rows@[i]).local == i && rows@[i].global
                == s_tile_idx * bm_s + i,
{
    proof {
        lemma_mul_is_distributive_add_other_way(bm_s as int, s_tile_idx as int, 1);
        lemma_mul_nonnegative(s_tile_idx as int, bm_s as int);
    }
    let mut rows: Vec<CacheRow> = Vec::new();
    let s_start: i32 = s_tile_idx * bm_s;
    if s_start < seq_len {
        let mut s_local: i32 = 0;
        while s_local < bm_s
            invariant
                0 <= s_local <= bm_s,
                0 <= s_start < seq_len,
                s_start + bm_s <= i32::MAX,
                rows@.len() == (if s_start + s_local <= seq_len {
                    s_local as int
                } else {
                    seq_len - s_start
                }),
                forall|i: int|
                    0 <= i < rows@.len() ==> (#[trigger] rows@[i]).local == i && rows@[i].global
                        == s_start + i,
            decreases bm_s - s_local,
        {
            let s_global: i32 = s_start + s_local;
            if s_global < seq_len {
                rows.push(CacheRow { global: s_global, local: s_local });
            }
            s_local = s_local + 1;
        }
    }
    rows
}

/// Every row of the sequence is written by exactly one program, to its own row of the
/// cache, and no other row is written.
pub proof fn every_row_is_written_once(row: int, bm_s: int, seq_len: int, tile: int, i: int)
    requires
        0 < bm_s,
        0 <= tile,
    ensures
        0 <= row < seq_len ==> 0 <= row / bm_s && 0 <= row % bm_s < rows_in_tile(
            row / bm_s,
            bm_s,
            seq_len,
        ) && row == (row / bm_s) * bm_s + row % bm_s,
        0 <= i < rows_in_tile(tile, bm_s, seq_len) ==> 0 <= tile * bm_s + i < seq_len,
        0 <= i < rows_in_tile(tile, bm_s, seq_len) && tile * bm_s + i == row ==> tile == row / bm_s
            && i == row % bm_s,
{
    lemma_fundamental_div_mod(row, bm_s);
    lemma_mod_bound(row, bm_s);
    lemma_mul_is_commutative(bm_s, row / bm_s);
    lemma_mul_nonnegative(tile, bm_s);
    if 0 <= row {
        lemma_div_pos_is_pos(row, bm_s);
    }
    if 0 <= i < bm_s {
        schedule::quotient_and_remainder(tile, i, bm_s);
    }
}

/// The row of the cache that a row of a decoded sequence goes to.
pub fn decode_cache_row(pos_start: i32, s: i32) -> (row: i32)
    requires
        0 <= pos_start,
        0 <= s,
        pos_start + s <= i32::MAX,
    ensures
        row == pos_start + s,
        row == decode_row(pos_start as int, s as int),
{
    pos_start + s
}
/// The row of the cache that a row of a decoded sequence goes to.
pub open spec fn decode_row(pos_start: int, s: int) -> int {
    pos_start + s
}

/// A decoded sequence is written from its position on, row by row, and where it begins one row
/// later, each row goes where the next one went.
pub proof fn decoded_rows_follow_each_other(pos_start: int, s: int)
    ensures
        decode_row(pos_start, 0) == pos_start,
        decode_row(pos_start, s + 1) == decode_row(pos_start, s) + 1,
        decode_row(pos_start + 1, s) == decode_row(pos_start, s + 1),
{
}

} // verus!
