//! Which keys an attention kernel visits and which of them it masks.
//!
//! A program computes a block of queries of one head, and walks over tiles of keys.
//! A mask is applied only to tiles in which some key may have to be left out, so the
//! tiles before the first such tile are taken whole.

use vstd::arithmetic::div_mod::*;
use vstd::arithmetic::mul::*;
use vstd::prelude::*;

use crate::kernels::schedule;
use crate::kernels::schedule::ceil_div_i32;

verus! {

/// The keys that a query attends to: those that there are and, in causal attention,
/// not those after the query.
pub open spec fn attends(causal: bool, query: int, key: int, kv_len: int) -> bool {
    0 <= key < kv_len && (causal ==> key <= query)
}

/// How the key tiles of a block of queries are walked.
#[derive(Clone, Copy, Debug, PartialEq, Eq, Structural)]
pub struct TileBounds {
    /// The first tile to which a mask is applied.
    pub mask_start: i32,
    /// The number of tiles.
    pub tiles: i32,
}

/// The position of the first query of a block.
pub open spec fn first_query(query_start: int, block: int, bm: int) -> int {
    query_start + block * bm
}

/// The lesser of two numbers.
pub open spec fn lesser(a: int, b: int) -> int {
    if a <= b {
        a
    } else {
        b
    }
}

/// The first tile to which a mask is applied: that of the first query in causal
/// attention, but not after the last whole tile.
pub open spec fn mask_start(
    causal: bool,
    query_start: int,
    block: int,
    kv_len: int,
    bm: int,
    bn: int,
) -> int {
    if causal {
        lesser(first_query(query_start, block, bm) / bn, kv_len / bn)
    } else {
        kv_len / bn
    }
}

/// The number of tiles: all that hold keys, and in causal attention only up to the
/// last query of the block.
pub open spec fn tile_count(
    causal: bool,
    query_start: int,
    block: int,
    kv_len: int,
    bm: int,
    bn: int,
) -> int {
    if causal {
        schedule::ceil_div(lesser(first_query(query_start, block + 1, bm), kv_len), bn)
    } else {
        schedule::ceil_div(kv_len, bn)
    }
}

/// The tiles of keys that a block of `bm` queries walks over. The block with number
/// `q_m_idx` starts at query `query_start + q_m_idx * bm`, and there are `kv_len` keys
/// in tiles of `bn`.
pub fn tile_bounds(
    causal: bool,
    query_start: i32,
    q_m_idx: i32,
    kv_len: i32,
    bm: i32,
    bn: i32,
) -> (bounds: TileBounds)
    requires
        0 <= query_start,
        0 <= q_m_idx < i32::MAX,
        0 <= kv_len,
        0 < bm,
        0 < bn,
        query_start + (q_m_idx + 1) * bm <= i32::MAX,
        kv_len + bn <= i32::MAX,
    ensures
        bounds.mask_start == mask_start(
            causal,
            query_start as int,
            q_m_idx as int,
            kv_len as int,
            bm as int,
            bn as int,
        ),
        bounds.tiles == tile_count(
            causal,
            query_start as int,
            q_m_idx as int,
            kv_len as int,
            bm as int,
            bn as int,
        ),
{
    proof {
        lemma_mul_is_distributive_add_other_way(bm as int, q_m_idx as int, 1);
        lemma_mul_nonnegative(q_m_idx as int, bm as int);
    }
    let m_end: i32 = query_start + (q_m_idx + 1) * bm;
    let k_seqlen_tiles: i32 = kv_len / bn;
    if causal {
        let first_tile: i32 = (query_start + q_m_idx * bm) / bn;
        let mask_start: i32 = if first_tile <= k_seqlen_tiles {
            first_tile
        } else {
            k_seqlen_tiles
        };
        let end: i32 = if m_end <= kv_len {
            m_end
        } else {
            kv_len
        };
        TileBounds { mask_start, tiles: ceil_div_i32(end, bn) }
    } else {
        TileBounds { mask_start: k_seqlen_tiles, tiles: ceil_div_i32(kv_len, bn) }
    }
}

/// Whether a mask is applied to a tile. `even_k` says that the keys fill whole tiles.
pub open spec fn masked(causal: bool, even_k: bool, tile: int, mask_start: int) -> bool {
    (causal || !even_k) && tile >= mask_start
}

/// Whether a key takes part: its tile is visited, and if the tile is masked the mask
/// keeps it.
pub open spec fn takes_part(
    causal: bool,
    even_k: bool,
    mask_start: int,
    tiles: int,
    query: int,
    key: int,
    kv_len: int,
    bn: int,
) -> bool {
    let tile = key / bn;
    &&& 0 <= tile < tiles
    &&& masked(causal, even_k, tile, mask_start) ==> (!even_k ==> key < kv_len) && (causal ==> query
        >= key)
}

/// Whether a key takes part in the attention of a query of the block.
pub fn key_takes_part(
    causal: bool,
    even_k: bool,
    bounds: TileBounds,
    query: i32,
    key: i32,
    kv_len: i32,
    bn: i32,
) -> (r: bool)
    requires
        0 < bn,
        0 <= key,
    ensures
        r == takes_part(
            causal,
            even_k,
            bounds.mask_start as int,
            bounds.tiles as int,
            query as int,
            key as int,
            kv_len as int,
            bn as int,
        ),
{
    proof {
        lemma_div_pos_is_pos(key as int, bn as int);
    }
    let tile: i32 = key / bn;
    if tile >= bounds.tiles {
        return false;
    }
    if (causal || !even_k) && tile >= bounds.mask_start {
        let mut keep = true;
        if !even_k {
            keep = keep && key < kv_len;
        }
        if causal {
            keep = keep && query >= key;
        }
        keep
    } else {
        true
    }
}

/// A key is in a tile before the end of `tiles` tiles exactly if it is before their
/// last key.
proof fn tile_of_key(key: int, bn: int, tiles: int)
    requires
        0 < bn,
        0 <= key,
    ensures
        0 <= key / bn,
        key / bn < tiles <==> key < tiles * bn,
        (key / bn) * bn <= key < (key / bn + 1) * bn,
{
    lemma_fundamental_div_mod(key, bn);
    lemma_mod_bound(key, bn);
    lemma_div_pos_is_pos(key, bn);
    let tile = key / bn;
    assert((tile < tiles <==> key < tiles * bn) && tile * bn <= key < (tile + 1) * bn)
        by (nonlinear_arith)
        requires
            key == bn * tile + key % bn,
            0 <= key % bn < bn,
            0 < bn,
    ;
}

/// The keys that take part in the attention of any query of a block are exactly the
/// keys that the query attends to. `even_k` may be set only where the keys fill whole
/// tiles.
pub proof fn visited_keys_are_the_attended_ones(
    causal: bool,
    even_k: bool,
    query_start: int,
    block: int,
    query: int,
    key: int,
    kv_len: int,
    bm: int,
    bn: int,
)
    requires
        0 <= query_start,
        0 <= block,
        0 <= kv_len,
        0 < bm,
        0 < bn,
        0 <= key,
        even_k ==> kv_len % bn == 0,
        first_query(query_start, block, bm) <= query < first_query(query_start, block + 1, bm),
    ensures
        takes_part(
            causal,
            even_k,
            mask_start(causal, query_start, block, kv_len, bm, bn),
            tile_count(causal, query_start, block, kv_len, bm, bn),
            query,
            key,
            kv_len,
            bn,
        ) <==> attends(causal, query, key, kv_len),
{
    let first = first_query(query_start, block, bm);
    let last = first_query(query_start, block + 1, bm);
    let start = mask_start(causal, query_start, block, kv_len, bm, bn);
    let tiles = tile_count(causal, query_start, block, kv_len, bm, bn);
    lemma_mul_nonnegative(block, bm);
    lemma_mul_is_distributive_add_other_way(bm, block, 1);
    tile_of_key(key, bn, tiles);
    tile_of_key(key, bn, first / bn);
    tile_of_key(key, bn, kv_len / bn);
    lemma_fundamental_div_mod(kv_len, bn);
    lemma_fundamental_div_mod(first, bn);
    lemma_mod_bound(kv_len, bn);
    lemma_mod_bound(first, bn);
    lemma_mul_is_commutative(bn, kv_len / bn);
    lemma_mul_is_commutative(bn, first / bn);
    let end = if causal {
        lesser(last, kv_len)
    } else {
        kv_len
    };
    schedule::ceil_div_covers(end, bn);
    if even_k {
        let whole = kv_len / bn;
        assert(tiles <= whole) by (nonlinear_arith)
            requires
                tiles * bn < end + bn,
                end <= whole * bn,
                0 < bn,
        ;
        assert(tiles * bn <= kv_len) by (nonlinear_arith)
            requires
                tiles <= whole,
                kv_len == whole * bn,
                0 < bn,
        ;
    }
}

/// The tiles of keys of a block that masks every tile.
pub fn fully_masked_bounds(kv_len: i32, bn: i32) -> (bounds: TileBounds)
    requires
        0 <= kv_len,
        0 < bn,
        kv_len + bn <= i32::MAX,
    ensures
        bounds.mask_start == 0,
        bounds.tiles == schedule::ceil_div(kv_len as int, bn as int),
        bounds.tiles == tile_count(false, 0, 0, kv_len as int, 1, bn as int),
{
    TileBounds { mask_start: 0, tiles: ceil_div_i32(kv_len, bn) }
}

/// Where every tile is masked, too, the keys that take part are exactly those that
/// the query attends to.
pub proof fn fully_masked_visits_the_attended_keys(query: int, key: int, kv_len: int, bn: int)
    requires
        0 <= kv_len,
        0 < bn,
        0 <= key,
    ensures
        takes_part(true, false, 0, schedule::ceil_div(kv_len, bn), query, key, kv_len, bn)
            <==> attends(true, query, key, kv_len),
{
    tile_of_key(key, bn, schedule::ceil_div(kv_len, bn));
    schedule::ceil_div_covers(kv_len, bn);
}

/// The key head of a query head: `query_group_size` query heads share one.
pub fn kv_head(q_head_idx: i32, query_group_size: i32) -> (h: i32)
    requires
        0 <= q_head_idx,
        0 < query_group_size,
    ensures
        h == q_head_idx as int / query_group_size as int,
        h * query_group_size <= q_head_idx < (h + 1) * query_group_size,
{
    proof {
        group_number(q_head_idx as int, query_group_size as int);
    }
    q_head_idx / query_group_size
}

/// The key head of the block of `group` query heads with the given number.
pub fn kv_head_of_group(group_idx: i32, group: i32, query_group_size: i32) -> (h: i32)
    requires
        0 <= group_idx,
        0 < group,
        0 < query_group_size,
        group_idx * group <= i32::MAX,
    ensures
        h == (group_idx * group) as int / query_group_size as int,
        h * query_group_size <= group_idx * group < (h + 1) * query_group_size,
{
    proof {
        lemma_mul_nonnegative(group_idx as int, group as int);
    }
    proof {
        group_number(group_idx * group, query_group_size as int);
    }
    group_idx * group / query_group_size
}

/// All query heads of a block share the key head of the block, where the block size
/// divides the number of query heads of a key head; where the two are equal, the
/// block's number is the key head.
pub proof fn a_group_shares_its_kv_head(group_idx: int, group: int, times: int, member: int)
    requires
        0 <= group_idx,
        0 < group,
        0 < times,
        0 <= member < group,
    ensures
        (group_idx * group + member) / (times * group) == (group_idx * group) / (times * group),
        times == 1 ==> (group_idx * group) / (times * group) == group_idx,
{
    let size = times * group;
    let q = group_idx / times;
    let r = group_idx % times;
    lemma_fundamental_div_mod(group_idx, times);
    lemma_mod_bound(group_idx, times);
    assert(group_idx * group == q * size + r * group) by (nonlinear_arith)
        requires
            group_idx == times * q + r,
            size == times * group,
    ;
    assert(0 <= r * group && r * group + member < size) by (nonlinear_arith)
        requires
            0 <= r < times,
            0 <= member < group,
            size == times * group,
    ;
    schedule::quotient_and_remainder(q, r * group, size);
    schedule::quotient_and_remainder(q, r * group + member, size);
    if times == 1 {
        lemma_div_basics(group_idx);
    }
}

/// The first query head of the block of `group` query heads with the given number: the
/// heads that its program loads and stores are this one and the `group - 1` behind it.
pub fn first_query_head(group_idx: i32, group: i32) -> (h: i32)
    requires
        0 <= group_idx,
        0 < group,
        (group_idx + 1) * group <= i32::MAX,
    ensures
        h == group_idx * group,
        h == row_head(group_idx as int, group as int, 0),
{
    proof {
        lemma_mul_nonnegative(group_idx as int, group as int);
        lemma_mul_is_distributive_add_other_way(group as int, group_idx as int, 1);
    }
    group_idx * group
}

/// The query head of a row of a block of `group` query heads: the rows of one position
/// hold its heads in order.
pub open spec fn row_head(group_idx: int, group: int, row: int) -> int {
    group_idx * group + row % group
}

/// The query head of a row of a block of `group` query heads.
pub fn query_head_of_row(group_idx: i32, group: i32, row: i32) -> (h: i32)
    requires
        0 <= group_idx,
        0 < group,
        (group_idx + 1) * group <= i32::MAX,
        0 <= row,
    ensures
        h == row_head(group_idx as int, group as int, row as int),
        group_idx * group <= h < (group_idx + 1) * group,
{
    proof {
        lemma_mul_is_distributive_add_other_way(group as int, group_idx as int, 1);
    }
    first_query_head(group_idx, group) + row % group
}

/// Every query head is loaded and stored by one block of query heads and no other, the
/// one with number `head / group`, and the key head of that block is the key head of the
/// query head. Here `times * group` query heads share a key head.
pub proof fn query_heads_have_one_program(
    groups: int,
    group: int,
    times: int,
    head: int,
    group_idx: int,
)
    requires
        0 < group,
        0 < times,
        0 <= head < groups * group,
        0 <= group_idx < groups,
    ensures
        0 <= head / group < groups,
        group_idx * group <= head < (group_idx + 1) * group <==> group_idx == head / group,
        ((head / group) * group) / (times * group) == head / (times * group),
{
    tile_of_key(head, group, groups);
    let q = head / group;
    lemma_fundamental_div_mod(head, group);
    lemma_mod_bound(head, group);
    lemma_mul_is_commutative(group, q);
    assert(group_idx * group <= head < (group_idx + 1) * group <==> group_idx == q)
        by (nonlinear_arith)
        requires
            q * group <= head < (q + 1) * group,
            0 < group,
    ;
    a_group_shares_its_kv_head(q, group, times, head % group);
}

/// Every position of a block of `bm` positions and every query head of a block of `group`
/// heads has one row and no other: the one whose position and head they are.
pub proof fn rows_are_the_positions_and_heads(
    bm: int,
    group: int,
    group_idx: int,
    row: int,
    position: int,
    member: int,
)
    requires
        0 < bm,
        0 < group,
        0 <= row < bm * group,
        0 <= position < bm,
        0 <= member < group,
    ensures
        0 <= position * group + member < bm * group,
        row / group == position && row_head(group_idx, group, row) == group_idx * group + member
            <==> row == position * group + member,
{
    schedule::linear_is_one_to_one(position, member, bm, group, 0);
    schedule::quotient_and_remainder(position, member, group);
    lemma_fundamental_div_mod(row, group);
    lemma_mul_is_commutative(group, row / group);
}

/// What a program of sequence attention works on.
#[derive(Clone, Copy, Debug, PartialEq, Eq, Structural)]
pub struct SeqPlan {
    /// The block of queries and the query head that are loaded and stored.
    pub q_block: i32,
    pub q_head: i32,
    /// The key head that is walked over.
    pub kv_head: i32,
    /// The position of the first query of the block.
    pub first_query: i32,
    pub kv_len: i32,
    pub bounds: TileBounds,
}

/// The model of a plan.
pub struct SeqPlanModel {
    pub q_block: int,
    pub q_head: int,
    pub kv_head: int,
    pub first_query: int,
    pub kv_len: int,
    pub mask_start: int,
    pub tiles: int,
}

impl View for SeqPlan {
    type V = SeqPlanModel;

    open spec fn view(&self) -> SeqPlanModel {
        SeqPlanModel {
            q_block: self.q_block as int,
            q_head: self.q_head as int,
            kv_head: self.kv_head as int,
            first_query: self.first_query as int,
            kv_len: self.kv_len as int,
            mask_start: self.bounds.mask_start as int,
            tiles: self.bounds.tiles as int,
        }
    }
}

/// The plan of the program of a block of queries and a query head. Every tile is masked.
pub open spec fn seq_plan_of(
    q_block: int,
    q_head: int,
    query_group_size: int,
    kv_len: int,
    query_start: int,
    bm: int,
    bn: int,
) -> SeqPlanModel {
    SeqPlanModel {
        q_block,
        q_head,
        kv_head: q_head / query_group_size,
        first_query: first_query(query_start, q_block, bm),
        kv_len,
        mask_start: 0,
        tiles: schedule::ceil_div(kv_len, bn),
    }
}

/// The plan of the program of a block of queries and a query head, where the position of
/// the first query of the sequence is read on the device. The keys are those up to that
/// position, and every tile is masked.
pub open spec fn dynpos_plan_of(
    q_block: int,
    q_head: int,
    query_group_size: int,
    position: int,
    bm: int,
    bn: int,
) -> SeqPlanModel {
    SeqPlanModel {
        q_block,
        q_head,
        kv_head: q_head / query_group_size,
        first_query: position + q_block * bm,
        kv_len: position + 1,
        mask_start: 0,
        tiles: schedule::ceil_div(position + 1, bn),
    }
}

/// The plan of a program of sequence attention.
pub fn seq_plan(
    q_m_idx: i32,
    q_head_idx: i32,
    query_group_size: i32,
    kv_len: i32,
    query_start: i32,
    bm: i32,
    bn: i32,
) -> (plan: SeqPlan)
    requires
        0 <= q_m_idx < i32::MAX,
        0 <= q_head_idx,
        0 < query_group_size,
        0 <= kv_len,
        0 <= query_start,
        0 < bm,
        0 < bn,
        query_start + (q_m_idx + 1) * bm <= i32::MAX,
        kv_len + bn <= i32::MAX,
    ensures
        plan@ == seq_plan_of(
            q_m_idx as int,
            q_head_idx as int,
            query_group_size as int,
            kv_len as int,
            query_start as int,
            bm as int,
            bn as int,
        ),
{
    proof {
        lemma_mul_is_distributive_add_other_way(bm as int, q_m_idx as int, 1);
        lemma_mul_nonnegative(q_m_idx as int, bm as int);
    }
    SeqPlan {
        q_block: q_m_idx,
        q_head: q_head_idx,
        kv_head: kv_head(q_head_idx, query_group_size),
        first_query: query_start + q_m_idx * bm,
        kv_len,
        bounds: fully_masked_bounds(kv_len, bn),
    }
}

/// The plan of a program of sequence attention with the position on the device.
pub fn dynpos_plan(
    q_m_idx: i32,
    q_head_idx: i32,
    query_group_size: i32,
    position_start: u32,
    bm: i32,
    bn: i32,
) -> (plan: SeqPlan)
    requires
        0 <= q_m_idx < i32::MAX,
        0 <= q_head_idx,
        0 < query_group_size,
        0 < bm,
        0 < bn,
        position_start + (q_m_idx + 1) * bm <= i32::MAX,
        position_start + 1 + bn <= i32::MAX,
    ensures
        plan@ == dynpos_plan_of(
            q_m_idx as int,
            q_head_idx as int,
            query_group_size as int,
            position_start as int,
            bm as int,
            bn as int,
        ),
{
    let query_start: i32 = position_start as i32;
    seq_plan(q_m_idx, q_head_idx, query_group_size, query_start + 1, query_start, bm, bn)
}

/// Attention with the position on the device is the other one, started at that position
/// and over one key more than the position says.
pub proof fn dynpos_is_seq_at_its_position(
    q_block: int,
    q_head: int,
    query_group_size: int,
    position: int,
    bm: int,
    bn: int,
)
    ensures
        dynpos_plan_of(q_block, q_head, query_group_size, position, bm, bn) == seq_plan_of(
            q_block,
            q_head,
            query_group_size,
            position + 1,
            position,
            bm,
            bn,
        ),
{
}

/// The arithmetic of attention, on states and outputs of any kind. It begins with the block
/// and the head of the queries; it takes a tile of keys by its head and its number, with a
/// mask that says of a row and a column whether the key takes part; and it ends with what is
/// stored.
#[verifier::reject_recursive_types(S)]
pub struct Arithmetic<S, O> {
    pub begin: spec_fn(int, int) -> S,
    pub tile: spec_fn(S, int, int, spec_fn(int, int) -> bool) -> S,
    pub end: spec_fn(S) -> O,
}

/// The mask of a tile: whether the key of a column takes part for the query of a row.
pub open spec fn tile_mask(plan: SeqPlanModel, tile: int, bn: int) -> spec_fn(int, int) -> bool {
    |row: int, column: int|
        takes_part(
            true,
            false,
            plan.mask_start,
            plan.tiles,
            plan.first_query + row,
            tile * bn + column,
            plan.kv_len,
            bn,
        )
}

/// The state behind the first `n` tiles of keys.
pub open spec fn behind_tiles<S, O>(
    plan: SeqPlanModel,
    bn: int,
    arithmetic: Arithmetic<S, O>,
    n: nat,
) -> S
    decreases n,
{
    if n == 0 {
        (arithmetic.begin)(plan.q_block, plan.q_head)
    } else {
        (arithmetic.tile)(
            behind_tiles(plan, bn, arithmetic, (n - 1) as nat),
            plan.kv_head,
            n - 1,
            tile_mask(plan, n - 1, bn),
        )
    }
}

/// What a program stores.
pub open spec fn stored<S, O>(plan: SeqPlanModel, bn: int, arithmetic: Arithmetic<S, O>) -> O {
    (arithmetic.end)(behind_tiles(plan, bn, arithmetic, plan.tiles as nat))
}

/// Attention with the position on the device stores what the other one stores, started at
/// that position and over one key more than the position says, whatever the arithmetic is.
pub proof fn dynpos_stores_what_seq_stores<S, O>(
    q_block: int,
    q_head: int,
    query_group_size: int,
    position: int,
    bm: int,
    bn: int,
    arithmetic: Arithmetic<S, O>,
)
    ensures
        stored(
            dynpos_plan_of(q_block, q_head, query_group_size, position, bm, bn),
            bn,
            arithmetic,
        ) == stored(
            seq_plan_of(q_block, q_head, query_group_size, position + 1, position, bm, bn),
            bn,
            arithmetic,
        ),
{
    dynpos_is_seq_at_its_position(q_block, q_head, query_group_size, position, bm, bn);
}

/// The single query of a decode step, at the position on the device, attends to the keys
/// up to that position: those are the keys that take part.
pub proof fn dynpos_visits_the_past(
    q_head: int,
    query_group_size: int,
    position: int,
    bn: int,
    key: int,
)
    requires
        0 <= position,
        0 < bn,
        0 <= key,
    ensures
        ({
            let plan = dynpos_plan_of(0, q_head, query_group_size, position, 1, bn);
            takes_part(
                true,
                false,
                plan.mask_start,
                plan.tiles,
                plan.first_query,
                key,
                plan.kv_len,
                bn,
            ) <==> key <= position
        }),
{
    fully_masked_visits_the_attended_keys(position, key, position + 1, bn);
}

/// The position of the query in a row of a block of `group` query heads: the rows of
/// one position follow each other.
pub fn query_of_row(query_start: i32, q_m_idx: i32, bm: i32, group: i32, row: i32) -> (q: i32)
    requires
        0 <= query_start,
        0 <= q_m_idx < i32::MAX,
        0 < bm,
        0 < group,
        0 <= row < bm * group,
        query_start + (q_m_idx + 1) * bm <= i32::MAX,
    ensures
        q == first_query(query_start as int, q_m_idx as int, bm as int) + row as int
            / group as int,
        first_query(query_start as int, q_m_idx as int, bm as int) <= q < first_query(
            query_start as int,
            q_m_idx + 1,
            bm as int,
        ),
        q == row_query(
            query_start as int,
            q_m_idx as int,
            bm as int,
            group as int,
            row as int,
        ),
{
    proof {
        lemma_mul_is_distributive_add_other_way(bm as int, q_m_idx as int, 1);
        lemma_mul_nonnegative(q_m_idx as int, bm as int);
        tile_of_key(row as int, group as int, bm as int);
    }
    query_start + q_m_idx * bm + row / group
}

/// The tiles of keys that one split of a decode step walks over.
#[derive(Clone, Copy, Debug, PartialEq, Eq, Structural)]
pub struct SplitRange {
    pub start: i32,
    pub end: i32,
    /// The number of tiles of all splits. The last tile is the one that is masked.
    pub tiles: i32,
}

/// The number of tiles of a decode step at a position: the keys up to and with that
/// position.
pub open spec fn decode_tiles(input_pos: int, bn: int) -> int {
    schedule::ceil_div(input_pos + 1, bn)
}

/// The number of tiles of a split.
pub open spec fn tiles_per_split(input_pos: int, splits: int, bn: int) -> int {
    schedule::ceil_div(decode_tiles(input_pos, bn), splits)
}

/// The tiles of keys that a split walks over: the tiles are cut into runs of equal
/// length, and the last runs may be shorter or empty.
pub fn split_range(input_pos: i32, split_id: i32, splits: i32, bn: i32) -> (range: SplitRange)
    requires
        0 <= input_pos,
        0 <= split_id < splits,
        0 < bn,
        input_pos + 1 + bn <= i32::MAX,
        decode_tiles(input_pos as int, bn as int) + splits <= i32::MAX,
        (split_id + 1) * tiles_per_split(input_pos as int, splits as int, bn as int) <= i32::MAX,
    ensures
        range.tiles == decode_tiles(input_pos as int, bn as int),
        range.start == split_id * tiles_per_split(input_pos as int, splits as int, bn as int),
        range.end == lesser(
            (split_id + 1) * tiles_per_split(input_pos as int, splits as int, bn as int),
            decode_tiles(input_pos as int, bn as int),
        ),
        (range.start as int, range.end as int) == split_tiles(
            input_pos as int,
            split_id as int,
            splits as int,
            bn as int,
        ),
{
    let s_kv: i32 = input_pos + 1;
    let tiles: i32 = ceil_div_i32(s_kv, bn);
    let per: i32 = ceil_div_i32(tiles, splits);
    proof {
        lemma_mul_is_distributive_add_other_way(per as int, split_id as int, 1);
        lemma_mul_nonnegative(split_id as int, per as int);
    }
    let start: i32 = split_id * per;
    let end: i32 = start + per;
    SplitRange {
        start,
        end: if end <= tiles {
            end
        } else {
            tiles
        },
        tiles,
    }
}

/// Every tile of a decode step belongs to exactly one split.
pub proof fn splits_partition_the_tiles(
    input_pos: int,
    splits: int,
    bn: int,
    tile: int,
    split: int,
)
    requires
        0 <= input_pos,
        0 < splits,
        0 < bn,
        0 <= tile < decode_tiles(input_pos, bn),
    ensures
        ({
            let per = tiles_per_split(input_pos, splits, bn);
            let owner = tile / per;
            &&& 0 < per
            &&& 0 <= owner < splits
            &&& (0 <= split && split * per <= tile < lesser(
                (split + 1) * per,
                decode_tiles(input_pos, bn),
            ) <==> split == owner)
        }),
{
    let tiles = decode_tiles(input_pos, bn);
    let per = tiles_per_split(input_pos, splits, bn);
    schedule::ceil_div_covers(tiles, splits);
    assert(0 < per) by (nonlinear_arith)
        requires
            0 < tiles <= per * splits,
            0 < splits,
    ;
    let owner = tile / per;
    tile_of_key(tile, per, splits);
    lemma_mul_is_commutative(per, splits);
    assert((split * per <= tile < (split + 1) * per) <==> split == owner) by (nonlinear_arith)
        requires
            owner * per <= tile < (owner + 1) * per,
            0 < per,
    ;
}

/// Whether a key takes part in a decode step: its tile is visited, and in the last
/// tile it is one of the keys that there are.
pub open spec fn decode_takes_part(input_pos: int, bn: int, key: int) -> bool {
    let tile = key / bn;
    let tiles = decode_tiles(input_pos, bn);
    0 <= tile < tiles && (tile == tiles - 1 ==> key < input_pos + 1)
}

/// Whether a key takes part in the part of a decode step that one split computes.
pub fn split_takes_key(range: SplitRange, input_pos: i32, bn: i32, key: i32) -> (r: bool)
    requires
        0 < bn,
        0 <= key,
        0 <= input_pos < i32::MAX,
        range.tiles == decode_tiles(input_pos as int, bn as int),
        range.end <= range.tiles,
    ensures
        r == (range.start <= key as int / bn as int && (key as int / bn as int) < range.end
            && decode_takes_part(input_pos as int, bn as int, key as int)),
{
    proof {
        lemma_div_pos_is_pos(key as int, bn as int);
    }
    let tile: i32 = key / bn;
    if tile < range.start || tile >= range.end {
        return false;
    }
    if tile == range.tiles - 1 {
        key < input_pos + 1
    } else {
        true
    }
}

/// The keys that take part in a decode step are exactly those up to and with its
/// position.
pub proof fn decode_visits_the_past(input_pos: int, bn: int, key: int)
    requires
        0 <= input_pos,
        0 < bn,
        0 <= key,
    ensures
        decode_takes_part(input_pos, bn, key) <==> attends(true, input_pos, key, input_pos + 1),
{
    let tiles = decode_tiles(input_pos, bn);
    tile_of_key(key, bn, tiles);
    tile_of_key(key, bn, tiles - 1);
    schedule::ceil_div_covers(input_pos + 1, bn);
    lemma_mul_is_distributive_sub_other_way(bn, tiles, 1);
}

/// The row of the scratch that holds the partial result of a query head in a split.
pub fn scratch_row(split_id: i32, member: i32, group: i32) -> (row: i32)
    requires
        0 <= split_id,
        0 <= member < group,
        (split_id + 1) * group <= i32::MAX,
    ensures
        row == split_id * group + member,
        row as int / group as int == split_id,
        row as int % group as int == member,
{
    proof {
        lemma_mul_is_distributive_add_other_way(group as int, split_id as int, 1);
        lemma_mul_nonnegative(split_id as int, group as int);
        schedule::quotient_and_remainder(split_id as int, member as int, group as int);
    }
    split_id * group + member
}

/// A quotient of a count by the size of its groups is the number of the group.
proof fn group_number(q: int, g: int)
    requires
        0 <= q,
        0 < g,
    ensures
        0 <= q / g,
        (q / g) * g <= q < (q / g + 1) * g,
{
    lemma_fundamental_div_mod(q, g);
    lemma_mul_is_commutative(g, q / g);
    lemma_mul_is_distributive_add_other_way(g, q / g, 1);
    lemma_div_pos_is_pos(q, g);
}

/// A number with the remainder of a group is in no other group.
proof fn one_group(q: int, g: int, h: int)
    requires
        0 < g,
        h * g <= q < (h + 1) * g,
    ensures
        q / g == h,
{
    lemma_mul_is_distributive_add_other_way(g, h, 1);
    lemma_fundamental_div_mod_converse(q, g, h, q - h * g);
}

/// The query heads are taken in groups of `query_group_size`, and the key head of a plan is
/// the number of the group of its query head, with the position given or on the device. So
/// with as many groups as key heads it is one of them, and the heads of a group share it.
pub proof fn consecutive_query_heads_share_a_key_head(
    q_block: int,
    q_head: int,
    query_group_size: int,
    kv_heads: int,
    kv_len: int,
    query_start: int,
    bm: int,
    bn: int,
    h: int,
)
    requires
        0 < query_group_size,
        0 <= q_head < kv_heads * query_group_size,
    ensures
        ({
            let plan = seq_plan_of(
                q_block,
                q_head,
                query_group_size,
                kv_len,
                query_start,
                bm,
                bn,
            );
            let dynpos = dynpos_plan_of(q_block, q_head, query_group_size, query_start, bm, bn);
            &&& 0 <= plan.kv_head < kv_heads
            &&& plan.kv_head * query_group_size <= q_head < (plan.kv_head + 1) * query_group_size
            &&& h * query_group_size <= q_head < (h + 1) * query_group_size ==> plan.kv_head == h
            &&& dynpos.kv_head == plan.kv_head
        }),
{
    group_number(q_head, query_group_size);
    let k = q_head / query_group_size;
    assert(k < kv_heads) by (nonlinear_arith)
        requires
            k * query_group_size <= q_head < kv_heads * query_group_size,
            0 < query_group_size,
    ;
    if h * query_group_size <= q_head < (h + 1) * query_group_size {
        one_group(q_head, query_group_size, h);
    }
}

/// A plan loads and stores the block of queries and the query head of its program. The first
/// block begins where the queries begin, and each block where the one before it ends. A
/// plan with the position on the device begins there, and has one key more than it says.
pub proof fn plans_follow_each_other(
    q_block: int,
    q_head: int,
    query_group_size: int,
    kv_len: int,
    query_start: int,
    bm: int,
    bn: int,
)
    ensures
        ({
            let plan = |b: int|
                seq_plan_of(b, q_head, query_group_size, kv_len, query_start, bm, bn);
            let dynpos = |b: int|
                dynpos_plan_of(b, q_head, query_group_size, query_start, bm, bn);
            &&& plan(q_block).q_block == q_block && dynpos(q_block).q_block == q_block
            &&& plan(q_block).q_head == q_head && dynpos(q_block).q_head == q_head
            &&& plan(0).first_query == query_start && dynpos(0).first_query == query_start
            &&& plan(q_block + 1).first_query == plan(q_block).first_query + bm
            &&& dynpos(q_block + 1).first_query == dynpos(q_block).first_query + bm
            &&& plan(q_block).kv_len == kv_len
            &&& dynpos(q_block).kv_len == query_start + 1
        }),
{
    lemma_mul_is_distributive_add_other_way(bm, q_block, 1);
}

/// The mask of a plan lets a key take part for a row of the block exactly where the key is
/// there and not behind the query of the row, and its tiles are those that hold a key.
pub proof fn plans_mask_what_is_behind(
    q_block: int,
    q_head: int,
    query_group_size: int,
    kv_len: int,
    query_start: int,
    bm: int,
    bn: int,
    tile: int,
    row: int,
    column: int,
)
    requires
        0 <= kv_len,
        0 < bn,
        0 <= tile,
        0 <= column < bn,
    ensures
        ({
            let plan = seq_plan_of(
                q_block,
                q_head,
                query_group_size,
                kv_len,
                query_start,
                bm,
                bn,
            );
            let key = tile * bn + column;
            let query = query_start + q_block * bm + row;
            &&& tile_mask(plan, tile, bn)(row, column) <==> key < kv_len && key <= query
            &&& tile < plan.tiles <==> tile * bn < kv_len
        }),
{
    let key = tile * bn + column;
    lemma_mul_nonnegative(tile, bn);
    fully_masked_visits_the_attended_keys(query_start + q_block * bm + row, key, kv_len, bn);
    tiles_hold_a_key(kv_len, bn, tile);
}

/// The tiles that cover an extent are those that begin inside it.
proof fn tiles_hold_a_key(len: int, bn: int, tile: int)
    requires
        0 <= len,
        0 < bn,
        0 <= tile,
    ensures
        tile < schedule::ceil_div(len, bn) <==> tile * bn < len,
{
    schedule::ceil_div_covers(len, bn);
    let n = schedule::ceil_div(len, bn);
    assert(tile < n ==> tile * bn < len) by (nonlinear_arith)
        requires
            n * bn < len + bn,
            0 < bn,
    ;
    assert(tile * bn < len ==> tile < n) by (nonlinear_arith)
        requires
            len <= n * bn,
            0 < bn,
    ;
}

/// A block of queries walks over exactly the tiles that hold a key which, in causal
/// attention, is not behind the last query of the block. It takes exactly those whole in
/// which all keys are there and, in causal attention, before the first query.
pub proof fn no_tile_is_walked_in_vain(
    causal: bool,
    query_start: int,
    block: int,
    kv_len: int,
    bm: int,
    bn: int,
    tile: int,
)
    requires
        0 <= query_start,
        0 <= block,
        0 <= kv_len,
        0 < bm,
        0 < bn,
        0 <= tile,
    ensures
        ({
            let first = query_start + block * bm;
            let last = first + bm - 1;
            &&& tile < tile_count(causal, query_start, block, kv_len, bm, bn) <==> tile * bn
                < kv_len && (causal ==> tile * bn <= last)
            &&& tile < mask_start(causal, query_start, block, kv_len, bm, bn) <==> (tile + 1) * bn
                <= kv_len && (causal ==> (tile + 1) * bn <= first)
        }),
{
    let first = query_start + block * bm;
    lemma_mul_is_distributive_add_other_way(bm, block, 1);
    lemma_mul_nonnegative(block, bm);
    assert(first_query(query_start, block + 1, bm) == first + bm);
    tiles_hold_a_key(kv_len, bn, tile);
    tiles_hold_a_key(lesser(first + bm, kv_len), bn, tile);
    whole_tiles(kv_len, bn, tile);
    whole_tiles(first, bn, tile);
}

/// The whole tiles of an extent are those that end inside it.
proof fn whole_tiles(len: int, bn: int, tile: int)
    requires
        0 <= len,
        0 < bn,
    ensures
        tile < len / bn <==> (tile + 1) * bn <= len,
{
    group_number(len, bn);
    let n = len / bn;
    assert(tile < n ==> (tile + 1) * bn <= len) by (nonlinear_arith)
        requires
            n * bn <= len,
            0 < bn,
    ;
    assert((tile + 1) * bn <= len ==> tile < n) by (nonlinear_arith)
        requires
            len < (n + 1) * bn,
            0 < bn,
    ;
}

/// A key takes part in a decode step exactly where it is not behind the position, and the
/// splits have tiles in order: as many as the others at most, the next where one ends, and
/// no fewer splits would do with as many.
pub proof fn splits_are_runs_of_equal_length(input_pos: int, splits: int, bn: int, key: int)
    requires
        0 <= input_pos,
        0 < splits,
        0 < bn,
        0 <= key,
    ensures
        decode_takes_part(input_pos, bn, key) <==> key <= input_pos,
        ({
            let per = tiles_per_split(input_pos, splits, bn);
            let tiles = decode_tiles(input_pos, bn);
            &&& tiles <= splits * per < tiles + splits
            &&& input_pos < tiles * bn <= input_pos + bn
        }),
{
    decode_visits_the_past(input_pos, bn, key);
    let tiles = decode_tiles(input_pos, bn);
    schedule::ceil_div_covers(input_pos + 1, bn);
    assert(0 <= tiles) by (nonlinear_arith)
        requires
            0 < tiles * bn,
            0 < bn,
    ;
    schedule::ceil_div_covers(tiles, splits);
    lemma_mul_is_commutative(splits, tiles_per_split(input_pos, splits, bn));
}
/// The position of the query in a row of a block of `group` query heads.
pub open spec fn row_query(query_start: int, block: int, bm: int, group: int, row: int) -> int {
    first_query(query_start, block, bm) + row / group
}

/// The first `group` rows of a block are for its first position, the next `group` rows for the
/// next one, and so on; and a block begins where the one before it ends.
pub proof fn rows_of_a_position_stand_together(
    query_start: int,
    block: int,
    bm: int,
    group: int,
    row: int,
)
    requires
        0 < group,
        0 <= row,
    ensures
        row < group ==> row_query(query_start, block, bm, group, row) == query_start + block * bm,
        row_query(query_start, block, bm, group, row + group) == row_query(
            query_start,
            block,
            bm,
            group,
            row,
        ) + 1,
        row_query(query_start, block, bm, group, bm * group) == row_query(
            query_start,
            block + 1,
            bm,
            group,
            0,
        ),
{
    group_number(row, group);
    let h = row / group;
    lemma_mul_is_distributive_add_other_way(group, h, 1);
    lemma_mul_is_distributive_add_other_way(group, h + 1, 1);
    lemma_mul_is_distributive_add_other_way(group, bm, 1);
    one_group(row + group, group, h + 1);
    one_group(bm * group, group, bm);
    one_group(0, group, 0);
    if row < group {
        one_group(row, group, 0);
    }
    lemma_mul_is_distributive_add_other_way(bm, block, 1);
}

/// The tiles of keys that a split walks over, up to the end.
pub open spec fn split_tiles(input_pos: int, split: int, splits: int, bn: int) -> (int, int) {
    let per = tiles_per_split(input_pos, splits, bn);
    (split * per, lesser((split + 1) * per, decode_tiles(input_pos, bn)))
}

/// The first split begins with the first tile, and each where the one before it would end if
/// there were tiles enough. All splits but the last that hold tiles have equally many, and no
/// split reaches behind the last tile.
pub proof fn splits_follow_each_other(input_pos: int, split: int, splits: int, bn: int)
    requires
        0 <= input_pos,
        0 <= split,
        0 < splits,
        0 < bn,
    ensures
        ({
            let (start, end) = split_tiles(input_pos, split, splits, bn);
            let (next, _) = split_tiles(input_pos, split + 1, splits, bn);
            let tiles = decode_tiles(input_pos, bn);
            &&& split_tiles(input_pos, 0, splits, bn).0 == 0
            &&& end <= tiles
            &&& next <= tiles ==> end == next
            &&& next > tiles ==> end == tiles
            &&& next - start == split_tiles(input_pos, 1, splits, bn).0
            &&& split_tiles(input_pos, splits - 1, splits, bn).1 == tiles
        }),
{
    let per = tiles_per_split(input_pos, splits, bn);
    lemma_mul_is_distributive_add_other_way(per, split, 1);
    splits_are_runs_of_equal_length(input_pos, splits, bn, 0);
    assert((splits - 1 + 1) * per == splits * per);
}

} // verus!
